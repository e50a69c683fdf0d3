//! The component registry: assigns a dense small id to each component kind,
//! records its storage classification, and carries the change-detection
//! tick arithmetic.

use vstd::prelude::*;

verus! {

/// Where a component kind's values live: packed in a table column, or in a
/// per-component sparse map keyed by entity index.
#[derive(Clone, Copy, PartialEq, Eq, Structural, Debug)]
pub enum StorageType {
    Table,
    SparseSet,
}

/// Metadata recorded for one registered component kind. The component's id
/// is its index in the registry.
#[derive(Clone, Copy, PartialEq, Eq, Structural, Debug)]
pub struct ComponentInfo {
    /// Caller-supplied stable key naming the component kind (the
    /// caller's runtime type tag).
    pub type_key: u64,
    /// Storage classification, fixed at registration.
    pub storage: StorageType,
}

/// The registry of all component kinds the store has seen.
pub struct Components {
    pub infos: Vec<ComponentInfo>,
}

impl Components {
    /// Kind keys are unique: one id per component kind.
    pub open spec fn wf(self) -> bool {
        forall|i: int, j: int|
            0 <= i < j < self.infos@.len() ==> self.infos@[i].type_key != self.infos@[j].type_key
    }

    pub open spec fn key_registered(self, key: u64) -> bool {
        exists|i: int| 0 <= i < self.infos@.len() && self.infos@[i].type_key == key
    }

    pub fn new() -> (r: Components)
        ensures
            r.infos@.len() == 0,
            r.wf(),
    {
        Components { infos: Vec::new() }
    }

    pub fn len(&self) -> (r: usize)
        ensures
            r == self.infos@.len(),
    {
        self.infos.len()
    }

    /// The id registered for a kind key, if any.
    pub fn get_id(&self, key: u64) -> (r: Option<usize>)
        ensures
            match r {
                Some(id) => id < self.infos@.len() && self.infos@[id as int].type_key == key,
                None => !self.key_registered(key),
            },
    {
        let mut i: usize = 0;
        while i < self.infos.len()
            invariant
                i <= self.infos@.len(),
                forall|j: int| 0 <= j < i ==> self.infos@[j].type_key != key,
            decreases self.infos@.len() - i,
        {
            if self.infos[i].type_key == key {
                return Some(i);
            }
            i += 1;
        }
        None
    }

    /// The recorded metadata of a component id, or absent for an unknown id.
    pub fn get_info(&self, id: usize) -> (r: Option<ComponentInfo>)
        ensures
            r == if id < self.infos@.len() {
                Some(self.infos@[id as int])
            } else {
                None::<ComponentInfo>
            },
    {
        if id < self.infos.len() {
            Some(self.infos[id])
        } else {
            None
        }
    }

    /// Registers a kind key on first reference and returns its stable id;
    /// a key seen before keeps the id (and classification) it already has.
    pub fn init_component(&mut self, key: u64, storage: StorageType) -> (id: usize)
        requires
            old(self).wf(),
        ensures
            final(self).wf(),
            id < final(self).infos@.len(),
            final(self).infos@[id as int].type_key == key,
            old(self).infos@.len() <= final(self).infos@.len(),
            forall|i: int|
                0 <= i < old(self).infos@.len() ==> final(self).infos@[i] == old(self).infos@[i],
            (if old(self).key_registered(key) {
                final(self).infos@ == old(self).infos@
            } else {
                final(self).infos@ == old(self).infos@.push(
                    ComponentInfo { type_key: key, storage },
                ) && id == old(self).infos@.len()
            }),
    {
        let existing = self.get_id(key);
        match existing {
            Some(id) => {
                proof {
                    assert(self.key_registered(key));
                }
                id
            },
            None => {
                let id = self.infos.len();
                self.infos.push(ComponentInfo { type_key: key, storage });
                id
            },
        }
    }
}

/// The subsequence of `ids` whose components are classified `st`.
pub open spec fn seq_filter_storage(
    infos: Seq<ComponentInfo>,
    ids: Seq<usize>,
    st: StorageType,
) -> Seq<usize>
    decreases ids.len(),
{
    if ids.len() == 0 {
        Seq::empty()
    } else {
        let rest = seq_filter_storage(infos, ids.drop_last(), st);
        if infos[ids.last() as int].storage == st {
            rest.push(ids.last())
        } else {
            rest
        }
    }
}

/// What the storage filter keeps: the ids of `ids` classified `st`.
pub proof fn lemma_filter_storage_contains(infos: Seq<ComponentInfo>, ids: Seq<usize>, st: StorageType)
    requires
        forall|k: int| 0 <= k < ids.len() ==> (#[trigger] ids[k] as int) < infos.len(),
    ensures
        forall|x: usize| #![trigger seq_filter_storage(infos, ids, st).contains(x)]
            seq_filter_storage(infos, ids, st).contains(x) <==> (ids.contains(x) && (x as int)
                < infos.len() && infos[x as int].storage == st),
    decreases ids.len(),
{
    if ids.len() == 0 {
        assert forall|x: usize| #![auto] !ids.contains(x) by {}
    } else {
        assert(forall|k: int|
            0 <= k < ids.drop_last().len() ==> (#[trigger] ids.drop_last()[k] as int)
                < infos.len());
        lemma_filter_storage_contains(infos, ids.drop_last(), st);
        let d0 = seq_filter_storage(infos, ids.drop_last(), st);
        if infos[ids.last() as int].storage == st {
            crate::sorted::lemma_push_contains(d0, ids.last(), seq_filter_storage(infos, ids, st));
        }
        assert forall|x: usize| #![auto] ids.contains(x) implies (ids.drop_last().contains(x) || x
            == ids.last()) by {
            let k = choose|k: int| 0 <= k < ids.len() && ids[k] == x;
            if k < ids.len() - 1 {
                assert(ids.drop_last()[k] == x);
            }
        }
        assert forall|x: usize| #![auto] (ids.drop_last().contains(x) || x == ids.last()) implies
            ids.contains(x) by {
            if ids.drop_last().contains(x) {
                let k = choose|k: int| 0 <= k < ids.drop_last().len() && ids.drop_last()[k] == x;
                assert(ids[k] == x);
            } else {
                assert(ids[ids.len() - 1] == x);
            }
        }
        assert forall|x: usize| #![trigger seq_filter_storage(infos, ids, st).contains(x)]
            seq_filter_storage(infos, ids, st).contains(x) <==> (ids.contains(x) && (x as int)
                < infos.len() && infos[x as int].storage == st) by {
            assert(seq_filter_storage(infos, ids.drop_last(), st).contains(x) <==> (
            ids.drop_last().contains(x) && (x as int) < infos.len() && infos[x as int].storage
                == st));
        }
    }
}

/// The storage filter of a strictly sorted list is strictly sorted.
pub proof fn lemma_filter_storage_sorted(infos: Seq<ComponentInfo>, ids: Seq<usize>, st: StorageType)
    requires
        crate::sorted::sorted_strict(ids),
    ensures
        crate::sorted::sorted_strict(seq_filter_storage(infos, ids, st)),
    decreases ids.len(),
{
    if ids.len() > 0 {
        assert(crate::sorted::sorted_strict(ids.drop_last()));
        lemma_filter_storage_sorted(infos, ids.drop_last(), st);
        let d0 = seq_filter_storage(infos, ids.drop_last(), st);
        if infos[ids.last() as int].storage == st {
            assert forall|k: int| 0 <= k < d0.len() implies d0[k] < ids.last() by {
                assert(d0.contains(d0[k])) by {
                    assert(d0[k] == d0[k]);
                }
                lemma_filter_storage_weak_contains(infos, ids.drop_last(), st, d0[k]);
                let m = choose|m: int|
                    0 <= m < ids.drop_last().len() && ids.drop_last()[m] == d0[k];
                assert(ids[m] == d0[k]);
            }
            assert forall|i: int, j: int|
                0 <= i < j < d0.push(ids.last()).len() implies d0.push(ids.last())[i] < d0.push(
                ids.last(),
            )[j] by {
                if j < d0.len() {
                    assert(d0[i] < d0[j]);
                }
            }
        }
    }
}

/// Every value the storage filter keeps occurs in `ids` (no range
/// assumption on the ids).
pub proof fn lemma_filter_storage_weak_contains(
    infos: Seq<ComponentInfo>,
    ids: Seq<usize>,
    st: StorageType,
    x: usize,
)
    requires
        seq_filter_storage(infos, ids, st).contains(x),
    ensures
        ids.contains(x),
    decreases ids.len(),
{
    if ids.len() > 0 {
        let d0 = seq_filter_storage(infos, ids.drop_last(), st);
        let d = seq_filter_storage(infos, ids, st);
        if infos[ids.last() as int].storage == st {
            let k = choose|k: int| 0 <= k < d.len() && d[k] == x;
            if k < d0.len() {
                lemma_filter_storage_weak_contains(infos, ids.drop_last(), st, x);
                let m = choose|m: int|
                    0 <= m < ids.drop_last().len() && ids.drop_last()[m] == x;
                assert(ids[m] == x);
            } else {
                assert(ids[ids.len() - 1] == x);
            }
        } else {
            lemma_filter_storage_weak_contains(infos, ids.drop_last(), st, x);
            let m = choose|m: int| 0 <= m < ids.drop_last().len() && ids.drop_last()[m] == x;
            assert(ids[m] == x);
        }
    }
}

impl Components {
    /// Splits a component-id list into its table-backed and sparse-backed
    /// parts, keeping order.
    pub fn partition_by_storage(&self, ids: &Vec<usize>) -> (r: (Vec<usize>, Vec<usize>))
        requires
            forall|k: int| 0 <= k < ids@.len() ==> (#[trigger] ids@[k] as int) < self.infos@.len(),
        ensures
            r.0@ == seq_filter_storage(self.infos@, ids@, StorageType::Table),
            r.1@ == seq_filter_storage(self.infos@, ids@, StorageType::SparseSet),
    {
        let mut table_ids: Vec<usize> = Vec::new();
        let mut sparse_ids: Vec<usize> = Vec::new();
        let mut i: usize = 0;
        while i < ids.len()
            invariant
                i <= ids@.len(),
                forall|k: int|
                    0 <= k < ids@.len() ==> (#[trigger] ids@[k] as int) < self.infos@.len(),
                table_ids@ == seq_filter_storage(
                    self.infos@,
                    ids@.take(i as int),
                    StorageType::Table,
                ),
                sparse_ids@ == seq_filter_storage(
                    self.infos@,
                    ids@.take(i as int),
                    StorageType::SparseSet,
                ),
            decreases ids@.len() - i,
        {
            let cid = ids[i];
            proof {
                assert(ids@.take(i + 1).drop_last() =~= ids@.take(i as int));
                assert(ids@.take(i + 1).last() == ids@[i as int]);
            }
            if self.infos[cid].storage == StorageType::Table {
                table_ids.push(cid);
            } else {
                sparse_ids.push(cid);
            }
            i += 1;
        }
        proof {
            assert(ids@.take(ids@.len() as int) =~= ids@);
        }
        (table_ids, sparse_ids)
    }
}

/// Wrap-aware age of a tick stamp: how far `tick` lies behind `current` on
/// the wrapping 32-bit tick circle.
pub open spec fn tick_age(current: u32, tick: u32) -> int {
    if current >= tick {
        current - tick
    } else {
        current + 0x1_0000_0000 - tick
    }
}

/// A stamp lies inside the half-open window `(last, current]` when it is
/// strictly younger than the window's far edge.
pub open spec fn tick_in_window(stamp: u32, last: u32, current: u32) -> bool {
    tick_age(current, stamp) < tick_age(current, last)
}

/// The change clock's next value: the successor on the wrapping 32-bit
/// circle.
pub open spec fn next_tick(t: u32) -> u32 {
    if t == 0xFFFF_FFFFu32 {
        0u32
    } else {
        (t + 1) as u32
    }
}

/// Wrap-aware distance from `tick` back to `current`.
pub fn tick_delta(current: u32, tick: u32) -> (r: u32)
    ensures
        r == tick_age(current, tick),
{
    if current >= tick {
        current - tick
    } else {
        (u32::MAX - tick) + current + 1
    }
}

/// The change-detection stamps carried by one stored component value.
#[derive(Clone, Copy, PartialEq, Eq, Structural, Debug)]
pub struct ComponentTicks {
    pub added: u32,
    pub changed: u32,
}

impl ComponentTicks {
    /// Was the component added inside the caller's tick window?
    pub fn is_added(&self, last_change_tick: u32, change_tick: u32) -> (r: bool)
        ensures
            r == tick_in_window(self.added, last_change_tick, change_tick),
    {
        tick_delta(change_tick, self.added) < tick_delta(change_tick, last_change_tick)
    }

    /// Was the component written inside the caller's tick window?
    pub fn is_changed(&self, last_change_tick: u32, change_tick: u32) -> (r: bool)
        ensures
            r == tick_in_window(self.changed, last_change_tick, change_tick),
    {
        tick_delta(change_tick, self.changed) < tick_delta(change_tick, last_change_tick)
    }
}

} // verus!
