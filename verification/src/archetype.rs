//! Archetypes: each names one distinct combination of component kinds, owns
//! the list of entities currently in that shape, and memoizes the shape
//! transitions taken out of it, keyed by bundle id.

use vstd::prelude::*;
use crate::entity::Entity;

verus! {

/// One resident entity of an archetype with the row its table-backed data
/// occupies.
#[derive(Clone, Copy, PartialEq, Eq, Structural, Debug)]
pub struct ArchetypeEntity {
    pub entity: Entity,
    pub table_row: usize,
}

/// First-match lookup in an edge list: the cached target of `bundle`, if
/// the transition was resolved before.
pub open spec fn edge_find<T>(s: Seq<(usize, T)>, bundle: usize) -> Option<T>
    decreases s.len(),
{
    if s.len() == 0 {
        None
    } else if s[0].0 == bundle {
        Some(s[0].1)
    } else {
        edge_find(s.drop_first(), bundle)
    }
}

/// A miss stays a miss under later entries, and a fresh entry for an unseen
/// bundle is found afterwards.
pub proof fn lemma_edge_find_push<T>(s: Seq<(usize, T)>, bundle: usize, t: T)
    requires
        edge_find(s, bundle) is None,
    ensures
        edge_find(s.push((bundle, t)), bundle) == Some(t),
        forall|b2: usize|
            b2 != bundle ==> edge_find(s.push((bundle, t)), b2) == edge_find(s, b2),
    decreases s.len(),
{
    if s.len() == 0 {
        assert forall|b2: usize| b2 != bundle implies edge_find(s.push((bundle, t)), b2)
            == edge_find(s, b2) by {
            assert(s.push((bundle, t))[0] == (bundle, t));
            assert(s.push((bundle, t)).drop_first() =~= Seq::<(usize, T)>::empty());
            assert(edge_find(s.push((bundle, t)).drop_first(), b2) == None::<T>);
        }
        assert(edge_find(s.push((bundle, t)), bundle) == Some(t)) by {
            assert(s.push((bundle, t))[0] == (bundle, t));
        }
    } else {
        lemma_edge_find_push(s.drop_first(), bundle, t);
        assert(s.push((bundle, t)).drop_first() =~= s.drop_first().push((bundle, t)));
        assert(s.push((bundle, t))[0] == s[0]);
        assert forall|b2: usize| b2 != bundle implies edge_find(s.push((bundle, t)), b2)
            == edge_find(s, b2) by {
            assert(edge_find(s.drop_first().push((bundle, t)), b2) == edge_find(
                s.drop_first(),
                b2,
            ));
        }
    }
}

/// Linear first-match lookup in an edge list.
pub fn edge_lookup<T: Copy>(list: &Vec<(usize, T)>, bundle: usize) -> (r: Option<T>)
    ensures
        r == edge_find(list@, bundle),
{
    let mut i: usize = 0;
    proof {
        assert(list@.skip(0) =~= list@);
    }
    while i < list.len()
        invariant
            i <= list@.len(),
            edge_find(list@, bundle) == edge_find(list@.skip(i as int), bundle),
        decreases list@.len() - i,
    {
        proof {
            assert(list@.skip(i as int)[0] == list@[i as int]);
            assert(list@.skip(i as int).drop_first() =~= list@.skip(i as int + 1));
        }
        if list[i].0 == bundle {
            return Some(list[i].1);
        }
        i += 1;
    }
    proof {
        assert(list@.skip(list@.len() as int) =~= Seq::<(usize, T)>::empty());
    }
    None
}

/// The memoized transitions out of one archetype. Insertion and the two
/// removal policies key on distinct caches, since they can disagree on the
/// same bundle.
pub struct Edges {
    pub add_bundle: Vec<(usize, usize)>,
    pub remove_bundle: Vec<(usize, Option<usize>)>,
    pub remove_bundle_intersection: Vec<(usize, Option<usize>)>,
}

impl Edges {
    pub fn new() -> (r: Edges)
        ensures
            r.add_bundle@.len() == 0,
            r.remove_bundle@.len() == 0,
            r.remove_bundle_intersection@.len() == 0,
    {
        Edges { add_bundle: Vec::new(), remove_bundle: Vec::new(), remove_bundle_intersection: Vec::new() }
    }
}

/// One shape: the sorted component-id sets (split by storage class), the
/// backing table, the resident entities, and the cached transition edges.
pub struct Archetype {
    pub table_id: usize,
    pub table_components: Vec<usize>,
    pub sparse_components: Vec<usize>,
    pub entities: Vec<ArchetypeEntity>,
    pub edges: Edges,
}

impl Archetype {
    /// The archetype's whole component set.
    pub open spec fn has_spec(self, cid: usize) -> bool {
        self.table_components@.contains(cid) || self.sparse_components@.contains(cid)
    }

    pub open spec fn rows(self) -> int {
        self.entities@.len() as int
    }

    /// Does the shape include component `cid`?
    pub fn contains_id(&self, cid: usize) -> (r: bool)
        ensures
            r == self.has_spec(cid),
    {
        crate::sorted::contains_value(&self.table_components, cid) || crate::sorted::contains_value(
            &self.sparse_components,
            cid,
        )
    }

    /// Removes one resident entry, swapping the last entry into the vacated
    /// row. Reports the entry that moved, absent when the removed row was
    /// the last.
    pub fn swap_remove_entity(&mut self, row: usize) -> (moved: Option<ArchetypeEntity>)
        requires
            (row as int) < old(self).entities@.len(),
        ensures
            final(self).entities@ == old(self).entities@.update(
                row as int,
                old(self).entities@.last(),
            ).drop_last(),
            final(self).table_id == old(self).table_id,
            final(self).table_components@ == old(self).table_components@,
            final(self).sparse_components@ == old(self).sparse_components@,
            final(self).edges.add_bundle@ == old(self).edges.add_bundle@,
            final(self).edges.remove_bundle@ == old(self).edges.remove_bundle@,
            final(self).edges.remove_bundle_intersection@ == old(
                self,
            ).edges.remove_bundle_intersection@,
            moved == (if row as int + 1 == old(self).entities@.len() {
                None::<ArchetypeEntity>
            } else {
                Some(old(self).entities@.last())
            }),
    {
        let n = self.entities.len();
        let moved: Option<ArchetypeEntity> = if row + 1 == n {
            None
        } else {
            Some(self.entities[n - 1])
        };
        self.entities.swap_remove(row);
        moved
    }

    /// Appends a resident entry; its archetype row is the previous length.
    pub fn push_entity(&mut self, ae: ArchetypeEntity)
        ensures
            final(self).entities@ == old(self).entities@.push(ae),
            final(self).table_id == old(self).table_id,
            final(self).table_components@ == old(self).table_components@,
            final(self).sparse_components@ == old(self).sparse_components@,
            final(self).edges.add_bundle@ == old(self).edges.add_bundle@,
            final(self).edges.remove_bundle@ == old(self).edges.remove_bundle@,
            final(self).edges.remove_bundle_intersection@ == old(
                self,
            ).edges.remove_bundle_intersection@,
    {
        self.entities.push(ae);
    }

    /// Repoints one resident entry at a new table row (after the backing
    /// table compacted under it).
    pub fn set_entity_table_row(&mut self, row: usize, table_row: usize)
        requires
            (row as int) < old(self).entities@.len(),
        ensures
            final(self).entities@ == old(self).entities@.update(
                row as int,
                ArchetypeEntity {
                    entity: old(self).entities@[row as int].entity,
                    table_row,
                },
            ),
            final(self).table_id == old(self).table_id,
            final(self).table_components@ == old(self).table_components@,
            final(self).sparse_components@ == old(self).sparse_components@,
            final(self).edges.add_bundle@ == old(self).edges.add_bundle@,
            final(self).edges.remove_bundle@ == old(self).edges.remove_bundle@,
            final(self).edges.remove_bundle_intersection@ == old(
                self,
            ).edges.remove_bundle_intersection@,
    {
        let e = self.entities[row].entity;
        self.entities[row] = ArchetypeEntity { entity: e, table_row };
    }
}

} // verus!
