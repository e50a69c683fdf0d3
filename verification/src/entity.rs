//! Entity identifiers and the entity-location directory: allocation with a
//! free list, generation bumps on reuse, and the per-index location record
//! that every structural mutation must keep consistent with physical
//! storage.

use vstd::prelude::*;

verus! {

/// A stable identifier for one logical record. Identity is the pair: a
/// handle is live only while the stored generation of its index still
/// equals its own.
#[derive(Clone, Copy, PartialEq, Eq, Structural, Debug)]
pub struct Entity {
    pub index: u32,
    pub generation: u32,
}

/// Where a live entity's data sits: which archetype and which row of it,
/// and which table and which row of that.
#[derive(Clone, Copy, PartialEq, Eq, Structural, Debug)]
pub struct EntityLocation {
    pub archetype_id: usize,
    pub archetype_row: usize,
    pub table_id: usize,
    pub table_row: usize,
}

/// Per-index directory entry: the current generation of the index and the
/// location of the live entity occupying it, if any.
#[derive(Clone, Copy, PartialEq, Eq, Structural, Debug)]
pub struct EntityMeta {
    pub generation: u32,
    pub location: Option<EntityLocation>,
}

/// The generation an index carries after one more free: the successor on
/// the wrapping 32-bit circle.
pub open spec fn next_generation(g: u32) -> u32 {
    if g == 0xFFFF_FFFFu32 {
        0u32
    } else {
        (g + 1) as u32
    }
}

/// Allocates entity identifiers and maps each live one to its location.
/// Freed indices are recycled through `free` with their generation bumped,
/// so stale handles can never alias a reused index.
pub struct Entities {
    pub meta: Vec<EntityMeta>,
    pub free: Vec<u32>,
}

impl Entities {
    /// Index `i` currently hosts a live entity.
    pub open spec fn live_idx(self, i: int) -> bool {
        0 <= i < self.meta@.len() && self.meta@[i].location is Some
    }

    /// The location of the live entity at index `i`.
    pub open spec fn loc(self, i: int) -> EntityLocation {
        self.meta@[i].location.unwrap()
    }

    /// The handle `e` is live: its index is in range, the stored generation
    /// matches, and a location is on record.
    pub open spec fn live(self, e: Entity) -> bool {
        &&& (e.index as int) < self.meta@.len()
        &&& self.meta@[e.index as int].generation == e.generation
        &&& self.meta@[e.index as int].location is Some
    }

    /// Every index fits a `u32` handle, and the free list holds only dead
    /// indices, each at most once.
    pub open spec fn wf_free(self) -> bool {
        &&& self.meta@.len() <= 0x1_0000_0000
        &&& forall|k: int|
            0 <= k < self.free@.len() ==> (#[trigger] self.free@[k] as int) < self.meta@.len()
                && self.meta@[self.free@[k] as int].location is None
        &&& forall|k1: int, k2: int|
            0 <= k1 < k2 < self.free@.len() ==> self.free@[k1] != self.free@[k2]
    }

    pub fn new() -> (r: Entities)
        ensures
            r.meta@.len() == 0,
            r.free@.len() == 0,
            r.wf_free(),
    {
        Entities { meta: Vec::new(), free: Vec::new() }
    }

    /// The location of a live handle; absent for a stale or unknown handle.
    pub fn get(&self, e: Entity) -> (r: Option<EntityLocation>)
        ensures
            r == if self.live(e) {
                Some(self.loc(e.index as int))
            } else {
                None::<EntityLocation>
            },
    {
        if (e.index as usize) < self.meta.len() {
            let m = self.meta[e.index as usize];
            if m.generation == e.generation {
                m.location
            } else {
                None
            }
        } else {
            None
        }
    }

    /// Overwrites the location record of an index, keeping its generation.
    pub fn set_location(&mut self, index: u32, loc: Option<EntityLocation>)
        requires
            (index as int) < old(self).meta@.len(),
        ensures
            final(self).meta@ == old(self).meta@.update(
                index as int,
                EntityMeta { generation: old(self).meta@[index as int].generation, location: loc },
            ),
            final(self).free@ == old(self).free@,
    {
        let g = self.meta[index as usize].generation;
        self.meta[index as usize] = EntityMeta { generation: g, location: loc };
    }

    /// Reserves an identifier: reuses the most recently freed index (whose
    /// generation was already bumped when it was freed), or extends the
    /// directory with a fresh index at generation zero. The caller gives
    /// the reserved index a location to make it live.
    pub fn allocate(&mut self) -> (e: Entity)
        requires
            old(self).wf_free(),
            old(self).meta@.len() < 0xFFFF_FFFFint,
        ensures
            final(self).wf_free(),
            (e.index as int) < final(self).meta@.len(),
            final(self).meta@[e.index as int].generation == e.generation,
            final(self).meta@[e.index as int].location is None,
            forall|k: int| 0 <= k < final(self).free@.len() ==> final(self).free@[k] != e.index,
            old(self).meta@.len() <= final(self).meta@.len(),
            forall|i: int|
                0 <= i < old(self).meta@.len() && i != e.index as int ==> final(self).meta@[i]
                    == old(self).meta@[i],
            (if old(self).free@.len() > 0 {
                final(self).meta@ == old(self).meta@ && final(self).free@
                    == old(self).free@.drop_last() && e.index == old(self).free@.last()
            } else {
                final(self).meta@ == old(self).meta@.push(
                    EntityMeta { generation: 0u32, location: None },
                ) && e.index as int == old(self).meta@.len() && e.generation == 0 && final(self).free@
                    == old(self).free@
            }),
    {
        let popped = self.free.pop();
        match popped {
            Some(index) => {
                let generation = self.meta[index as usize].generation;
                Entity { index, generation }
            },
            None => {
                let index = self.meta.len() as u32;
                self.meta.push(EntityMeta { generation: 0, location: None });
                Entity { index, generation: 0 }
            },
        }
    }

    /// Frees an index whose location was already cleared: bumps the
    /// stored generation so every retained copy of the old handle goes
    /// stale, and recycles the index through the free list.
    pub fn release(&mut self, index: u32)
        requires
            old(self).wf_free(),
            (index as int) < old(self).meta@.len(),
            old(self).meta@[index as int].location is None,
            forall|k: int| 0 <= k < old(self).free@.len() ==> old(self).free@[k] != index,
        ensures
            final(self).wf_free(),
            final(self).meta@ == old(self).meta@.update(
                index as int,
                EntityMeta {
                    generation: next_generation(old(self).meta@[index as int].generation),
                    location: None,
                },
            ),
            final(self).free@ == old(self).free@.push(index),
    {
        let g0 = self.meta[index as usize].generation;
        let g = if g0 == u32::MAX {
            0
        } else {
            g0 + 1
        };
        self.meta[index as usize] = EntityMeta { generation: g, location: None };
        self.free.push(index);
    }
}

} // verus!
