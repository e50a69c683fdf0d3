//! The archetype graph: interning of tables and archetypes by component
//! set, and the memoized bundle transitions. Each (archetype, bundle)
//! pair is resolved once; afterwards the cached edge answers, which a
//! miss counter makes observable.

use vstd::prelude::*;
use crate::archetype::{edge_find, edge_lookup, lemma_edge_find_push, Archetype, Edges};
use crate::component::lemma_filter_storage_contains;
use crate::mutate::same_entity;
use crate::sorted::{
    copy_ids, is_diff_set, is_union, lemma_push_contains, lemma_seq_diff_contains,
    lemma_seq_diff_sorted, lemma_take_plus_one, sorted_remove, sorted_strict, sorted_union,
};
use crate::storage::{Column, Table};
use crate::world::World;

verus! {

/// The miss counter's next value (wrapping).
pub open spec fn next_count(c: u64) -> u64 {
    if c == 0xFFFF_FFFF_FFFF_FFFFu64 {
        0u64
    } else {
        (c + 1) as u64
    }
}

/// Nothing but the cached edges of archetype `a` changed, and every edge
/// now on record is semantically right: the invariant survives, and no
/// entity's record moved.
pub proof fn lemma_wf_after_edges_change(pre: World, post: World, a: int)
    requires
        pre.wf(),
        0 <= a < pre.archetypes@.len(),
        post.components == pre.components,
        post.entities == pre.entities,
        post.tables@ == pre.tables@,
        post.sparse_stores@ == pre.sparse_stores@,
        post.removed@ == pre.removed@,
        post.bundles == pre.bundles,
        post.archetypes@.len() == pre.archetypes@.len(),
        forall|x: int|
            0 <= x < pre.archetypes@.len() && x != a ==> #[trigger] post.archetypes@[x]
                == pre.archetypes@[x],
        post.archetypes@[a].table_components@ == pre.archetypes@[a].table_components@,
        post.archetypes@[a].sparse_components@ == pre.archetypes@[a].sparse_components@,
        post.archetypes@[a].table_id == pre.archetypes@[a].table_id,
        post.archetypes@[a].entities@ == pre.archetypes@[a].entities@,
        forall|k: int|
            0 <= k < post.archetypes@[a].edges.add_bundle@.len() ==> post.add_edge_ok(
                a,
                (#[trigger] post.archetypes@[a].edges.add_bundle@[k]).0,
                post.archetypes@[a].edges.add_bundle@[k].1,
            ),
        forall|k: int|
            0 <= k < post.archetypes@[a].edges.remove_bundle@.len() ==> post.remove_edge_ok(
                a,
                (#[trigger] post.archetypes@[a].edges.remove_bundle@[k]).0,
                post.archetypes@[a].edges.remove_bundle@[k].1,
                true,
            ),
        forall|k: int|
            0 <= k < post.archetypes@[a].edges.remove_bundle_intersection@.len()
                ==> post.remove_edge_ok(
                a,
                (#[trigger] post.archetypes@[a].edges.remove_bundle_intersection@[k]).0,
                post.archetypes@[a].edges.remove_bundle_intersection@[k].1,
                false,
            ),
    ensures
        post.wf(),
        forall|i: int| same_entity(pre, post, i),
{
    assert(post.wf_registry());
    assert forall|t: int| 0 <= t < post.tables@.len() implies (#[trigger] post.tables@[t]).wf() by {
        assert(pre.tables@[t].wf());
    }
    assert(post.wf_tables());
    assert forall|x: int| 0 <= x < post.archetypes@.len() implies #[trigger] post.wf_arch_at(
        x,
    ) by {
        assert(pre.wf_arch_at(x));
    }
    assert(post.wf_archetypes());
    assert forall|b: int| 0 <= b < post.bundles.list@.len() implies #[trigger] post.wf_bundle_at(
        b,
    ) by {
        assert(pre.wf_bundle_at(b));
    }
    assert(post.wf_bundles());
    assert forall|x: int| 0 <= x < post.archetypes@.len() implies #[trigger] post.wf_edges_at(
        x,
    ) by {
        if x != a {
            assert(pre.wf_edges_at(x));
            let ed = post.archetypes@[x].edges;
            assert forall|k: int| 0 <= k < ed.add_bundle@.len() implies post.add_edge_ok(
                x,
                (#[trigger] ed.add_bundle@[k]).0,
                ed.add_bundle@[k].1,
            ) by {
                assert(pre.add_edge_ok(x, ed.add_bundle@[k].0, ed.add_bundle@[k].1));
                let d = ed.add_bundle@[k].1 as int;
                if d != a {
                    assert(post.archetypes@[d] == pre.archetypes@[d]);
                }
            }
            assert forall|k: int| 0 <= k < ed.remove_bundle@.len() implies post.remove_edge_ok(
                x,
                (#[trigger] ed.remove_bundle@[k]).0,
                ed.remove_bundle@[k].1,
                true,
            ) by {
                assert(pre.remove_edge_ok(x, ed.remove_bundle@[k].0, ed.remove_bundle@[k].1, true));
                if let Some(d) = ed.remove_bundle@[k].1 {
                    if d as int != a {
                        assert(post.archetypes@[d as int] == pre.archetypes@[d as int]);
                    }
                }
            }
            assert forall|k: int|
                0 <= k < ed.remove_bundle_intersection@.len() implies post.remove_edge_ok(
                x,
                (#[trigger] ed.remove_bundle_intersection@[k]).0,
                ed.remove_bundle_intersection@[k].1,
                false,
            ) by {
                assert(pre.remove_edge_ok(
                    x,
                    ed.remove_bundle_intersection@[k].0,
                    ed.remove_bundle_intersection@[k].1,
                    false,
                ));
                if let Some(d) = ed.remove_bundle_intersection@[k].1 {
                    if d as int != a {
                        assert(post.archetypes@[d as int] == pre.archetypes@[d as int]);
                    }
                }
            }
        }
    }
    assert(post.wf_edges());
    assert forall|i: int| #[trigger] post.live_idx(i) implies post.loc_ok(i) by {
        assert(pre.live_idx(i));
        assert(pre.loc_ok(i));
        let li = pre.loc(i);
        if li.archetype_id as int == a {
            assert(post.archetypes@[a].entities@ == pre.archetypes@[a].entities@);
        } else {
            assert(post.archetypes@[li.archetype_id as int]
                == pre.archetypes@[li.archetype_id as int]);
        }
    }
    assert(post.wf_locations());
    assert forall|x: int, r: int|
        #![trigger post.archetypes@[x].entities@[r]]
        0 <= x < post.archetypes@.len() && 0 <= r
            < post.archetypes@[x].entities@.len() implies post.arch_entry_ok(x, r) by {
        assert(pre.archetypes@[x].entities@[r] == pre.archetypes@[x].entities@[r]);
        assert(pre.arch_entry_ok(x, r));
    }
    assert(post.wf_arch_entities());
    assert forall|t: int, r: int|
        #![trigger post.tables@[t].entity_ids@[r]]
        0 <= t < post.tables@.len() && 0 <= r
            < post.tables@[t].entity_ids@.len() implies post.table_row_ok(t, r) by {
        assert(pre.tables@[t].entity_ids@[r] == pre.tables@[t].entity_ids@[r]);
        assert(pre.table_row_ok(t, r));
    }
    assert(post.wf_table_rows());
    assert forall|cid: usize| post.valid_cid(cid) implies #[trigger] post.wf_sparse_at_except(
        cid,
        -1,
    ) by {
        assert(pre.wf_sparse_at_except(cid, -1));
        if post.is_sparse(cid) {
            assert forall|i: int|
                i != -1 implies (#[trigger] post.sparse_stores@[cid as int].has(i)
                <==> post.sparse_expected(cid, i)) by {
                assert(pre.sparse_stores@[cid as int].has(i) <==> pre.sparse_expected(cid, i));
                if pre.live_idx(i) {
                    assert(post.arch_of(i).sparse_components@ == pre.arch_of(i).sparse_components@);
                }
            }
        }
    }
    assert(post.wf_sparse());
    assert(post.wf());
    assert forall|i: int| same_entity(pre, post, i) by {
        if pre.live_idx(i) {
            assert(post.arch_of(i).table_components@ == pre.arch_of(i).table_components@);
            assert(post.arch_of(i).sparse_components@ == pre.arch_of(i).sparse_components@);
            assert forall|cid: usize| #[trigger] pre.has_comp(i, cid) implies post.slot_at(i, cid)
                == pre.slot_at(i, cid) by {}
        }
    }
}

/// A world that only grew new (empty) tables or archetypes keeps every
/// entity's record; lemma for the interning functions.
pub proof fn lemma_wf_after_grow(pre: World, post: World)
    requires
        pre.wf(),
        post.components == pre.components,
        post.entities == pre.entities,
        post.sparse_stores@ == pre.sparse_stores@,
        post.removed@ == pre.removed@,
        post.bundles == pre.bundles,
        pre.tables@.len() <= post.tables@.len(),
        forall|t: int| 0 <= t < pre.tables@.len() ==> #[trigger] post.tables@[t] == pre.tables@[t],
        forall|t: int|
            pre.tables@.len() <= t < post.tables@.len() ==> (#[trigger] post.tables@[t]).wf()
                && post.tables@[t].entity_ids@.len() == 0 && (forall|c: int|
                0 <= c < post.tables@[t].columns@.len() ==> pre.valid_cid(
                    (#[trigger] post.tables@[t].columns@[c]).component_id,
                ) && !pre.is_sparse(post.tables@[t].columns@[c].component_id)),
        forall|t1: int, t2: int|
            #![trigger post.tables@[t1].col_ids(), post.tables@[t2].col_ids()]
            0 <= t1 < t2 < post.tables@.len() ==> post.tables@[t1].col_ids()
                != post.tables@[t2].col_ids(),
        pre.archetypes@.len() <= post.archetypes@.len(),
        forall|x: int|
            0 <= x < pre.archetypes@.len() ==> #[trigger] post.archetypes@[x]
                == pre.archetypes@[x],
        forall|x: int|
            pre.archetypes@.len() <= x < post.archetypes@.len() ==> post.wf_arch_at(x)
                && (#[trigger] post.archetypes@[x]).entities@.len() == 0 && post.archetypes@[
                x
            ].edges.add_bundle@.len() == 0 && post.archetypes@[x].edges.remove_bundle@.len() == 0
                && post.archetypes@[x].edges.remove_bundle_intersection@.len() == 0,
        forall|a1: int, a2: int|
            #![trigger post.archetypes@[a1].table_components@, post.archetypes@[a2].table_components@]
            0 <= a1 < a2 < post.archetypes@.len() ==> !(post.archetypes@[a1].table_components@
                == post.archetypes@[a2].table_components@ && post.archetypes@[
                a1
            ].sparse_components@ == post.archetypes@[a2].sparse_components@),
    ensures
        post.wf(),
        forall|i: int| same_entity(pre, post, i),
{
    assert(post.wf_registry());
    assert forall|t: int| 0 <= t < post.tables@.len() implies (#[trigger] post.tables@[t]).wf() by {
        if t < pre.tables@.len() {
            assert(pre.tables@[t].wf());
        }
    }
    assert forall|t: int, c: int|
        0 <= t < post.tables@.len() && 0 <= c
            < post.tables@[t].columns@.len() implies post.valid_cid(
        #[trigger] post.tables@[t].columns@[c].component_id,
    ) && !post.is_sparse(post.tables@[t].columns@[c].component_id) by {
        if t < pre.tables@.len() {
            assert(pre.valid_cid(pre.tables@[t].columns@[c].component_id));
        }
    }
    assert(post.tables@[0] == pre.tables@[0]);
    assert(post.wf_tables());
    assert forall|x: int| 0 <= x < post.archetypes@.len() implies #[trigger] post.wf_arch_at(
        x,
    ) by {
        if x < pre.archetypes@.len() {
            assert(pre.wf_arch_at(x));
            assert(post.tables@[pre.archetypes@[x].table_id as int]
                == pre.tables@[pre.archetypes@[x].table_id as int]);
        }
    }
    assert(post.archetypes@[0] == pre.archetypes@[0]);
    assert(post.wf_archetypes());
    assert forall|b: int| 0 <= b < post.bundles.list@.len() implies #[trigger] post.wf_bundle_at(
        b,
    ) by {
        assert(pre.wf_bundle_at(b));
    }
    assert(post.wf_bundles());
    assert forall|x: int| 0 <= x < post.archetypes@.len() implies #[trigger] post.wf_edges_at(
        x,
    ) by {
        if x < pre.archetypes@.len() {
            assert(pre.wf_edges_at(x));
            let ed = post.archetypes@[x].edges;
            assert forall|k: int| 0 <= k < ed.add_bundle@.len() implies post.add_edge_ok(
                x,
                (#[trigger] ed.add_bundle@[k]).0,
                ed.add_bundle@[k].1,
            ) by {
                assert(pre.add_edge_ok(x, ed.add_bundle@[k].0, ed.add_bundle@[k].1));
                assert(post.archetypes@[ed.add_bundle@[k].1 as int]
                    == pre.archetypes@[ed.add_bundle@[k].1 as int]);
            }
            assert forall|k: int| 0 <= k < ed.remove_bundle@.len() implies post.remove_edge_ok(
                x,
                (#[trigger] ed.remove_bundle@[k]).0,
                ed.remove_bundle@[k].1,
                true,
            ) by {
                assert(pre.remove_edge_ok(x, ed.remove_bundle@[k].0, ed.remove_bundle@[k].1, true));
                if let Some(d) = ed.remove_bundle@[k].1 {
                    assert(post.archetypes@[d as int] == pre.archetypes@[d as int]);
                }
            }
            assert forall|k: int|
                0 <= k < ed.remove_bundle_intersection@.len() implies post.remove_edge_ok(
                x,
                (#[trigger] ed.remove_bundle_intersection@[k]).0,
                ed.remove_bundle_intersection@[k].1,
                false,
            ) by {
                assert(pre.remove_edge_ok(
                    x,
                    ed.remove_bundle_intersection@[k].0,
                    ed.remove_bundle_intersection@[k].1,
                    false,
                ));
                if let Some(d) = ed.remove_bundle_intersection@[k].1 {
                    assert(post.archetypes@[d as int] == pre.archetypes@[d as int]);
                }
            }
        }
    }
    assert(post.wf_edges());
    assert forall|i: int| #[trigger] post.live_idx(i) implies post.loc_ok(i) by {
        assert(pre.live_idx(i));
        assert(pre.loc_ok(i));
        let li = pre.loc(i);
        assert(pre.wf_arch_at(li.archetype_id as int));
        assert(post.archetypes@[li.archetype_id as int]
            == pre.archetypes@[li.archetype_id as int]);
        assert(post.tables@[li.table_id as int] == pre.tables@[li.table_id as int]);
    }
    assert(post.wf_locations());
    assert forall|x: int, r: int|
        #![trigger post.archetypes@[x].entities@[r]]
        0 <= x < post.archetypes@.len() && 0 <= r
            < post.archetypes@[x].entities@.len() implies post.arch_entry_ok(x, r) by {
        if x < pre.archetypes@.len() {
            assert(pre.archetypes@[x].entities@[r] == pre.archetypes@[x].entities@[r]);
            assert(pre.arch_entry_ok(x, r));
        }
    }
    assert(post.wf_arch_entities());
    assert forall|t: int, r: int|
        #![trigger post.tables@[t].entity_ids@[r]]
        0 <= t < post.tables@.len() && 0 <= r
            < post.tables@[t].entity_ids@.len() implies post.table_row_ok(t, r) by {
        if t < pre.tables@.len() {
            assert(pre.tables@[t].entity_ids@[r] == pre.tables@[t].entity_ids@[r]);
            assert(pre.table_row_ok(t, r));
        }
    }
    assert(post.wf_table_rows());
    assert forall|cid: usize| post.valid_cid(cid) implies #[trigger] post.wf_sparse_at_except(
        cid,
        -1,
    ) by {
        assert(pre.wf_sparse_at_except(cid, -1));
        if post.is_sparse(cid) {
            assert forall|i: int|
                i != -1 implies (#[trigger] post.sparse_stores@[cid as int].has(i)
                <==> post.sparse_expected(cid, i)) by {
                assert(pre.sparse_stores@[cid as int].has(i) <==> pre.sparse_expected(cid, i));
                if pre.live_idx(i) {
                    assert(post.archetypes@[pre.loc(i).archetype_id as int]
                        == pre.archetypes@[pre.loc(i).archetype_id as int]);
                }
            }
        }
    }
    assert(post.wf_sparse());
    assert(post.wf());
    assert forall|i: int| same_entity(pre, post, i) by {
        if pre.live_idx(i) {
            let li = pre.loc(i);
            assert(pre.loc_ok(i));
            assert(pre.wf_arch_at(li.archetype_id as int));
            assert(post.archetypes@[li.archetype_id as int]
                == pre.archetypes@[li.archetype_id as int]);
            assert(post.tables@[li.table_id as int] == pre.tables@[li.table_id as int]);
            assert forall|cid: usize| #[trigger] pre.has_comp(i, cid) implies post.slot_at(i, cid)
                == pre.slot_at(i, cid) by {}
        }
    }
}

impl Table {
    /// Do this table's columns store exactly these component ids?
    pub fn cols_match(&self, ids: &Vec<usize>) -> (r: bool)
        ensures
            r == (self.col_ids() == ids@),
    {
        if self.columns.len() != ids.len() {
            proof {
                assert(self.col_ids().len() == self.columns@.len());
            }
            return false;
        }
        let mut c: usize = 0;
        while c < ids.len()
            invariant
                self.columns@.len() == ids@.len(),
                c <= ids@.len(),
                forall|k: int| 0 <= k < c ==> self.columns@[k].component_id == ids@[k],
            decreases ids@.len() - c,
        {
            if self.columns[c].component_id != ids[c] {
                proof {
                    assert(self.col_ids()[c as int] == self.columns@[c as int].component_id);
                }
                return false;
            }
            c += 1;
        }
        proof {
            assert(self.col_ids() =~= ids@);
        }
        true
    }
}

impl World {
    /// Finds the table storing exactly these columns, or creates an empty
    /// one. Tables are interned: one column set maps to one table for the
    /// store's lifetime.
    pub(crate) fn get_or_insert_table(&mut self, ids: &Vec<usize>) -> (t: usize)
        requires
            old(self).wf(),
            sorted_strict(ids@),
            forall|k: int|
                0 <= k < ids@.len() ==> old(self).valid_cid(#[trigger] ids@[k]) && !old(self).is_sparse(ids@[k]),
        ensures
            final(self).wf(),
            (t as int) < final(self).tables@.len(),
            final(self).tables@[t as int].col_ids() == ids@,
            old(self).tables@.len() <= final(self).tables@.len(),
            forall|t2: int|
                0 <= t2 < old(self).tables@.len() ==> #[trigger] final(self).tables@[t2] == old(self).tables@[t2],
            final(self).archetypes@ == old(self).archetypes@,
            final(self).components == old(self).components,
            final(self).entities == old(self).entities,
            final(self).sparse_stores@ == old(self).sparse_stores@,
            final(self).removed@ == old(self).removed@,
            final(self).bundles == old(self).bundles,
            final(self).change_tick == old(self).change_tick,
            final(self).last_change_tick == old(self).last_change_tick,
            final(self).cache_misses == old(self).cache_misses,
            forall|i: int| same_entity(*old(self), *final(self), i),
    {
        let ghost w0 = *old(self);
        let mut t: usize = 0;
        while t < self.tables.len()
            invariant
                *self == w0,
                w0.wf(),
                t <= w0.tables@.len(),
                forall|k: int| 0 <= k < t ==> (#[trigger] w0.tables@[k]).col_ids() != ids@,
            decreases w0.tables@.len() - t,
        {
            if self.tables[t].cols_match(ids) {
                proof {
                    assert forall|i: int| same_entity(w0, *self, i) by {
                        if w0.live_idx(i) {
                            assert forall|cid: usize| #[trigger] w0.has_comp(i, cid) implies self
                                .slot_at(i, cid) == w0.slot_at(i, cid) by {}
                        }
                    }
                }
                return t;
            }
            t += 1;
        }
        // No table stores this column set yet: intern an empty one.
        let mut columns: Vec<Column> = Vec::new();
        let mut k: usize = 0;
        while k < ids.len()
            invariant
                k <= ids@.len(),
                columns@.len() == k as int,
                forall|c: int|
                    0 <= c < k ==> (#[trigger] columns@[c]).component_id == ids@[c] && columns@[
                        c
                    ].slots@.len() == 0,
            decreases ids@.len() - k,
        {
            columns.push(Column { component_id: ids[k], slots: Vec::new() });
            k += 1;
        }
        let table = Table { columns, entity_ids: Vec::new() };
        proof {
            assert(table.col_ids() =~= ids@);
            assert(table.wf());
        }
        let t_new = self.tables.len();
        self.tables.push(table);
        proof {
            assert forall|t1: int, t2: int|
                #![trigger self.tables@[t1].col_ids(), self.tables@[t2].col_ids()]
                0 <= t1 < t2 < self.tables@.len() implies self.tables@[t1].col_ids()
                != self.tables@[t2].col_ids() by {
                if t2 < t_new as int {
                    assert(w0.tables@[t1].col_ids() != w0.tables@[t2].col_ids());
                } else {
                    assert(self.tables@[t1] == w0.tables@[t1]);
                    assert(w0.tables@[t1].col_ids() != ids@);
                }
            }
            lemma_wf_after_grow(w0, *self);
        }
        t_new
    }

    /// Finds the archetype naming exactly this component combination, or
    /// registers it (empty) against the given backing table. Archetypes
    /// are never destroyed once created.
    pub(crate) fn get_or_insert_archetype(
        &mut self,
        table_id: usize,
        table_ids: Vec<usize>,
        sparse_ids: Vec<usize>,
    ) -> (a: usize)
        requires
            old(self).wf(),
            sorted_strict(table_ids@),
            sorted_strict(sparse_ids@),
            forall|k: int|
                0 <= k < table_ids@.len() ==> old(self).valid_cid(#[trigger] table_ids@[k]) && !old(self).is_sparse(table_ids@[k]),
            forall|k: int|
                0 <= k < sparse_ids@.len() ==> old(self).valid_cid(#[trigger] sparse_ids@[k])
                    && old(self).is_sparse(sparse_ids@[k]),
            (table_id as int) < old(self).tables@.len(),
            old(self).tables@[table_id as int].col_ids() == table_ids@,
        ensures
            final(self).wf(),
            (a as int) < final(self).archetypes@.len(),
            final(self).archetypes@[a as int].table_components@ == table_ids@,
            final(self).archetypes@[a as int].sparse_components@ == sparse_ids@,
            final(self).archetypes@[a as int].table_id == table_id,
            old(self).archetypes@.len() <= final(self).archetypes@.len(),
            forall|a2: int|
                0 <= a2 < old(self).archetypes@.len() ==> #[trigger] final(self).archetypes@[a2]
                    == old(self).archetypes@[a2],
            final(self).tables@ == old(self).tables@,
            final(self).components == old(self).components,
            final(self).entities == old(self).entities,
            final(self).sparse_stores@ == old(self).sparse_stores@,
            final(self).removed@ == old(self).removed@,
            final(self).bundles == old(self).bundles,
            final(self).change_tick == old(self).change_tick,
            final(self).last_change_tick == old(self).last_change_tick,
            final(self).cache_misses == old(self).cache_misses,
            forall|i: int| same_entity(*old(self), *final(self), i),
    {
        let ghost w0 = *old(self);
        let mut a: usize = 0;
        while a < self.archetypes.len()
            invariant
                *self == w0,
                w0.wf(),
                (table_id as int) < w0.tables@.len(),
                w0.tables@[table_id as int].col_ids() == table_ids@,
                a <= w0.archetypes@.len(),
                forall|k: int|
                    0 <= k < a ==> !((#[trigger] w0.archetypes@[k]).table_components@ == table_ids@
                        && w0.archetypes@[k].sparse_components@ == sparse_ids@),
            decreases w0.archetypes@.len() - a,
        {
            if crate::sorted::vec_eq(&self.archetypes[a].table_components, &table_ids)
                && crate::sorted::vec_eq(&self.archetypes[a].sparse_components, &sparse_ids) {
                proof {
                    // The found archetype's backing table stores the same
                    // column set, so by table interning it is `table_id`.
                    assert(w0.wf_arch_at(a as int));
                    let t2 = w0.archetypes@[a as int].table_id as int;
                    assert(w0.tables@[t2].col_ids() == table_ids@);
                    if t2 != table_id as int {
                        if t2 < table_id as int {
                            assert(w0.tables@[t2].col_ids() != w0.tables@[
                                table_id as int
                            ].col_ids());
                        } else {
                            assert(w0.tables@[table_id as int].col_ids() != w0.tables@[
                                t2
                            ].col_ids());
                        }
                    }
                    assert forall|i: int| same_entity(w0, *self, i) by {
                        if w0.live_idx(i) {
                            assert forall|cid: usize| #[trigger] w0.has_comp(i, cid) implies self
                                .slot_at(i, cid) == w0.slot_at(i, cid) by {}
                        }
                    }
                }
                return a;
            }
            a += 1;
        }
        let a_new = self.archetypes.len();
        self.archetypes.push(
            Archetype {
                table_id,
                table_components: table_ids,
                sparse_components: sparse_ids,
                entities: Vec::new(),
                edges: Edges::new(),
            },
        );
        proof {
            assert forall|a1: int, a2: int|
                #![trigger self.archetypes@[a1].table_components@, self.archetypes@[a2].table_components@]
                0 <= a1 < a2 < self.archetypes@.len() implies !(self.archetypes@[
                a1
            ].table_components@ == self.archetypes@[a2].table_components@ && self.archetypes@[
                a1
            ].sparse_components@ == self.archetypes@[a2].sparse_components@) by {
                if a2 < a_new as int {
                    assert(!(w0.archetypes@[a1].table_components@
                        == w0.archetypes@[a2].table_components@ && w0.archetypes@[
                        a1
                    ].sparse_components@ == w0.archetypes@[a2].sparse_components@));
                } else {
                    assert(self.archetypes@[a1] == w0.archetypes@[a1]);
                }
            }
            assert(self.wf_arch_at(a_new as int)) by {
                assert(self.tables@[table_id as int] == w0.tables@[table_id as int]);
            }
            lemma_wf_after_grow(w0, *self);
        }
        a_new
    }
}

impl World {
    /// Resolves the destination of inserting bundle `b` into archetype
    /// `a`: answered from the cached edge when one exists (no recompute,
    /// miss counter untouched), computed as the component-set union and
    /// cached otherwise.
    #[verifier::spinoff_prover]
    pub fn resolve_add(&mut self, a: usize, b: usize) -> (d: usize)
        requires
            old(self).wf(),
            (a as int) < old(self).archetypes@.len(),
            old(self).valid_bundle(b as int),
        ensures
            final(self).wf(),
            (d as int) < final(self).archetypes@.len(),
            is_union(
                final(self).archetypes@[d as int].table_components@,
                old(self).archetypes@[a as int].table_components@,
                old(self).bundles.list@[b as int].table_components@,
            ),
            is_union(
                final(self).archetypes@[d as int].sparse_components@,
                old(self).archetypes@[a as int].sparse_components@,
                old(self).bundles.list@[b as int].sparse_components@,
            ),
            edge_find(final(self).archetypes@[a as int].edges.add_bundle@, b) == Some(d),
            (if edge_find(old(self).archetypes@[a as int].edges.add_bundle@, b) is Some {
                edge_find(old(self).archetypes@[a as int].edges.add_bundle@, b) == Some(d)
                    && *final(self) == *old(self)
            } else {
                final(self).cache_misses == next_count(old(self).cache_misses) && final(self).cache_misses != old(self).cache_misses
            }),
            old(self).archetypes@.len() <= final(self).archetypes@.len(),
            forall|a2: int|
                0 <= a2 < old(self).archetypes@.len() ==> (#[trigger] final(self).archetypes@[
                    a2
                ]).table_components@ == old(self).archetypes@[a2].table_components@ && final(self).archetypes@[a2].sparse_components@ == old(self).archetypes@[
                    a2
                ].sparse_components@ && final(self).archetypes@[a2].entities@ == old(self).archetypes@[a2].entities@,
            final(self).entities == old(self).entities,
            final(self).sparse_stores@ == old(self).sparse_stores@,
            final(self).removed@ == old(self).removed@,
            final(self).bundles == old(self).bundles,
            final(self).components == old(self).components,
            final(self).change_tick == old(self).change_tick,
            final(self).last_change_tick == old(self).last_change_tick,
            forall|i: int| same_entity(*old(self), *final(self), i),
    {
        let ghost w0 = *old(self);
        let hit = edge_lookup(&self.archetypes[a].edges.add_bundle, b);
        if let Some(d) = hit {
            proof {
                assert(w0.wf_edges_at(a as int));
                let k = lemma_edge_find_index(w0.archetypes@[a as int].edges.add_bundle@, b);
                assert(w0.add_edge_ok(
                    a as int,
                    w0.archetypes@[a as int].edges.add_bundle@[k].0,
                    w0.archetypes@[a as int].edges.add_bundle@[k].1,
                ));
                assert forall|i: int| same_entity(w0, *self, i) by {
                    if w0.live_idx(i) {
                        assert forall|cid: usize| #[trigger] w0.has_comp(i, cid) implies self
                            .slot_at(i, cid) == w0.slot_at(i, cid) by {}
                    }
                }
            }
            return d;
        }
        let bundle_table = copy_ids(&self.bundles.list[b].table_components);
        let bundle_sparse = copy_ids(&self.bundles.list[b].sparse_components);
        let arch_table = copy_ids(&self.archetypes[a].table_components);
        let arch_sparse = copy_ids(&self.archetypes[a].sparse_components);
        proof {
            assert(w0.wf_arch_at(a as int));
            assert(w0.wf_bundle_at(b as int));
            lemma_filter_storage_contains(
                w0.components.infos@,
                w0.bundles.list@[b as int].component_ids@,
                crate::component::StorageType::Table,
            );
            lemma_filter_storage_contains(
                w0.components.infos@,
                w0.bundles.list@[b as int].component_ids@,
                crate::component::StorageType::SparseSet,
            );
            crate::component::lemma_filter_storage_sorted(
                w0.components.infos@,
                w0.bundles.list@[b as int].component_ids@,
                crate::component::StorageType::Table,
            );
            crate::component::lemma_filter_storage_sorted(
                w0.components.infos@,
                w0.bundles.list@[b as int].component_ids@,
                crate::component::StorageType::SparseSet,
            );
        }
        let next_table = sorted_union(&arch_table, &bundle_table);
        let next_sparse = sorted_union(&arch_sparse, &bundle_sparse);
        proof {
            assert forall|k: int| 0 <= k < next_table@.len() implies self.valid_cid(
                #[trigger] next_table@[k],
            ) && !self.is_sparse(next_table@[k]) by {
                let x = next_table@[k];
                assert(next_table@.contains(x));
                if arch_table@.contains(x) {
                    let m = choose|m: int| 0 <= m < arch_table@.len() && arch_table@[m] == x;
                    assert(w0.valid_cid(w0.archetypes@[a as int].table_components@[m]));
                } else {
                    assert(bundle_table@.contains(x));
                }
            }
            assert forall|k: int| 0 <= k < next_sparse@.len() implies self.valid_cid(
                #[trigger] next_sparse@[k],
            ) && self.is_sparse(next_sparse@[k]) by {
                let x = next_sparse@[k];
                assert(next_sparse@.contains(x));
                if arch_sparse@.contains(x) {
                    let m = choose|m: int| 0 <= m < arch_sparse@.len() && arch_sparse@[m] == x;
                    assert(w0.valid_cid(w0.archetypes@[a as int].sparse_components@[m]));
                } else {
                    assert(bundle_sparse@.contains(x));
                }
            }
        }
        let ghost ntc = next_table@;
        let ghost nsc = next_sparse@;
        let next_table_id = self.get_or_insert_table(&next_table);
        let ghost w1 = *self;
        let d = self.get_or_insert_archetype(next_table_id, next_table, next_sparse);
        let ghost w2 = *self;
        proof {
            assert((a as int) < w2.archetypes@.len());
            assert(w2.archetypes@[a as int].edges.add_bundle@
                == w0.archetypes@[a as int].edges.add_bundle@);
        }
        self.cache_misses = if self.cache_misses == u64::MAX {
            0
        } else {
            self.cache_misses + 1
        };
        let eg = &mut self.archetypes[a];
        eg.edges.add_bundle.push((b, d));
        proof {
            lemma_edge_find_push(w2.archetypes@[a as int].edges.add_bundle@, b, d);
            assert forall|k: int|
                0 <= k < self.archetypes@[a as int].edges.remove_bundle@.len() implies self
                .remove_edge_ok(
                a as int,
                (#[trigger] self.archetypes@[a as int].edges.remove_bundle@[k]).0,
                self.archetypes@[a as int].edges.remove_bundle@[k].1,
                true,
            ) by {
                assert(w2.wf_edges_at(a as int));
                assert(w2.remove_edge_ok(
                    a as int,
                    w2.archetypes@[a as int].edges.remove_bundle@[k].0,
                    w2.archetypes@[a as int].edges.remove_bundle@[k].1,
                    true,
                ));
                lemma_remove_edge_ok_stable(
                    w2,
                    *self,
                    a as int,
                    self.archetypes@[a as int].edges.remove_bundle@[k].0,
                    self.archetypes@[a as int].edges.remove_bundle@[k].1,
                    true,
                );
            }
            assert forall|k: int|
                0 <= k < self.archetypes@[a as int].edges.remove_bundle_intersection@.len()
                implies self.remove_edge_ok(
                a as int,
                (#[trigger] self.archetypes@[a as int].edges.remove_bundle_intersection@[k]).0,
                self.archetypes@[a as int].edges.remove_bundle_intersection@[k].1,
                false,
            ) by {
                assert(w2.wf_edges_at(a as int));
                assert(w2.remove_edge_ok(
                    a as int,
                    w2.archetypes@[a as int].edges.remove_bundle_intersection@[k].0,
                    w2.archetypes@[a as int].edges.remove_bundle_intersection@[k].1,
                    false,
                ));
                lemma_remove_edge_ok_stable(
                    w2,
                    *self,
                    a as int,
                    self.archetypes@[a as int].edges.remove_bundle_intersection@[k].0,
                    self.archetypes@[a as int].edges.remove_bundle_intersection@[k].1,
                    false,
                );
            }
            assert forall|k: int|
                0 <= k < self.archetypes@[a as int].edges.add_bundle@.len() implies self
                .add_edge_ok(
                a as int,
                (#[trigger] self.archetypes@[a as int].edges.add_bundle@[k]).0,
                self.archetypes@[a as int].edges.add_bundle@[k].1,
            ) by {
                let ed = self.archetypes@[a as int].edges.add_bundle@;
                if k < ed.len() - 1 {
                    assert(w2.wf_edges_at(a as int));
                    assert(w2.add_edge_ok(
                        a as int,
                        w2.archetypes@[a as int].edges.add_bundle@[k].0,
                        w2.archetypes@[a as int].edges.add_bundle@[k].1,
                    ));
                    let d2 = ed[k].1 as int;
                    assert(self.archetypes@[d2].table_components@
                        == w2.archetypes@[d2].table_components@);
                } else {
                    assert(ed[k] == (b, d));
                    assert(self.archetypes@[d as int].table_components@ == ntc);
                    assert(self.archetypes@[d as int].sparse_components@ == nsc);
                }
            }
            lemma_wf_after_edges_change(w2, *self, a as int);
            assert forall|i: int| same_entity(w0, *self, i) by {
                crate::ops::lemma_same_entity_trans(w0, w1, w2, i);
                crate::ops::lemma_same_entity_trans(w0, w2, *self, i);
            }
        }
        d
    }
}

/// A cached remove edge stays semantically right between two worlds with
/// the same bundles and the same archetype component sets.
pub proof fn lemma_remove_edge_ok_stable(
    w1: World,
    w2: World,
    a: int,
    b: usize,
    r: Option<usize>,
    strict: bool,
)
    requires
        w1.remove_edge_ok(a, b, r, strict),
        w2.bundles == w1.bundles,
        w1.archetypes@.len() <= w2.archetypes@.len(),
        0 <= a < w1.archetypes@.len(),
        forall|x: int|
            0 <= x < w1.archetypes@.len() ==> (#[trigger] w2.archetypes@[x]).table_components@
                == w1.archetypes@[x].table_components@ && w2.archetypes@[x].sparse_components@
                == w1.archetypes@[x].sparse_components@,
    ensures
        w2.remove_edge_ok(a, b, r, strict),
{
    let ids = w1.bundles.list@[b as int].component_ids@;
    match r {
        None => {
            assert(!w1.bundle_subset(a, b as int));
            let kk = choose|kk: int|
                0 <= kk < ids.len() && !w1.archetypes@[a].has_spec(#[trigger] ids[kk]);
            assert(!w2.archetypes@[a].has_spec(ids[kk]));
            assert(!w2.bundle_subset(a, b as int));
        },
        Some(d) => {
            if strict {
                assert forall|kk: int| 0 <= kk < ids.len() implies w2.archetypes@[a].has_spec(
                    #[trigger] ids[kk],
                ) by {
                    assert(w1.archetypes@[a].has_spec(ids[kk]));
                }
            }
        },
    }
}

/// A successful first-match lookup names some entry of the list.
pub proof fn lemma_edge_find_index<T>(s: Seq<(usize, T)>, b: usize) -> (k: int)
    requires
        edge_find(s, b) is Some,
    ensures
        0 <= k < s.len(),
        s[k].0 == b,
        s[k].1 == edge_find(s, b).unwrap(),
    decreases s.len(),
{
    if s[0].0 == b {
        0
    } else {
        let k0 = lemma_edge_find_index(s.drop_first(), b);
        assert(s.drop_first()[k0] == s[k0 + 1]);
        k0 + 1
    }
}

impl World {
    /// Resolves the destination of removing bundle `b` from archetype
    /// `a`. Strict policy: a bundle component absent from the shape makes
    /// the removal invalid and an absent destination is cached and
    /// reported. Intersection policy: absent components are ignored and a
    /// destination always exists. A cached edge answers without
    /// recomputation; the two policies key on distinct caches.
    #[verifier::spinoff_prover]
    pub fn resolve_remove(&mut self, a: usize, b: usize, intersection: bool) -> (r: Option<
        usize,
    >)
        requires
            old(self).wf(),
            (a as int) < old(self).archetypes@.len(),
            old(self).valid_bundle(b as int),
        ensures
            final(self).wf(),
            ({
                let list0 = if intersection {
                    old(self).archetypes@[a as int].edges.remove_bundle_intersection@
                } else {
                    old(self).archetypes@[a as int].edges.remove_bundle@
                };
                let listf = if intersection {
                    final(self).archetypes@[a as int].edges.remove_bundle_intersection@
                } else {
                    final(self).archetypes@[a as int].edges.remove_bundle@
                };
                &&& edge_find(listf, b) == Some(r)
                &&& (edge_find(list0, b) is Some ==> edge_find(list0, b) == Some(r) && *final(self) == *old(self))
                &&& (edge_find(list0, b) is None ==> final(self).cache_misses == next_count(
                    old(self).cache_misses,
                ) && final(self).cache_misses != old(self).cache_misses)
            }),
            (r is None ==> !intersection && !old(self).bundle_subset(a as int, b as int)),
            (r is None ==> final(self).tables@ == old(self).tables@ && final(self).archetypes@.len()
                == old(self).archetypes@.len()),
            ((!intersection && r is Some) ==> old(self).bundle_subset(a as int, b as int)),
            (r is Some ==> (r.unwrap() as int) < final(self).archetypes@.len() && is_diff_set(
                final(self).archetypes@[r.unwrap() as int].table_components@,
                old(self).archetypes@[a as int].table_components@,
                old(self).bundles.list@[b as int].component_ids@,
            ) && is_diff_set(
                final(self).archetypes@[r.unwrap() as int].sparse_components@,
                old(self).archetypes@[a as int].sparse_components@,
                old(self).bundles.list@[b as int].component_ids@,
            )),
            ((intersection || old(self).bundle_subset(a as int, b as int)) ==> r is Some),
            old(self).archetypes@.len() <= final(self).archetypes@.len(),
            forall|a2: int|
                0 <= a2 < old(self).archetypes@.len() ==> (#[trigger] final(self).archetypes@[
                    a2
                ]).table_components@ == old(self).archetypes@[a2].table_components@ && final(self).archetypes@[a2].sparse_components@ == old(self).archetypes@[
                    a2
                ].sparse_components@ && final(self).archetypes@[a2].entities@ == old(self).archetypes@[a2].entities@,
            final(self).entities == old(self).entities,
            final(self).sparse_stores@ == old(self).sparse_stores@,
            final(self).removed@ == old(self).removed@,
            final(self).bundles == old(self).bundles,
            final(self).components == old(self).components,
            final(self).change_tick == old(self).change_tick,
            final(self).last_change_tick == old(self).last_change_tick,
            forall|i: int| same_entity(*old(self), *final(self), i),
    {
        let ghost w0 = *old(self);
        let hit = if intersection {
            edge_lookup(&self.archetypes[a].edges.remove_bundle_intersection, b)
        } else {
            edge_lookup(&self.archetypes[a].edges.remove_bundle, b)
        };
        if let Some(r) = hit {
            proof {
                assert(w0.wf_edges_at(a as int));
                if intersection {
                    let k = lemma_edge_find_index(
                        w0.archetypes@[a as int].edges.remove_bundle_intersection@,
                        b,
                    );
                    assert(w0.remove_edge_ok(
                        a as int,
                        w0.archetypes@[a as int].edges.remove_bundle_intersection@[k].0,
                        w0.archetypes@[a as int].edges.remove_bundle_intersection@[k].1,
                        false,
                    ));
                } else {
                    let k = lemma_edge_find_index(
                        w0.archetypes@[a as int].edges.remove_bundle@,
                        b,
                    );
                    assert(w0.remove_edge_ok(
                        a as int,
                        w0.archetypes@[a as int].edges.remove_bundle@[k].0,
                        w0.archetypes@[a as int].edges.remove_bundle@[k].1,
                        true,
                    ));
                }
                assert forall|i: int| same_entity(w0, *self, i) by {
                    if w0.live_idx(i) {
                        assert forall|cid: usize| #[trigger] w0.has_comp(i, cid) implies self
                            .slot_at(i, cid) == w0.slot_at(i, cid) by {}
                    }
                }
            }
            return r;
        }
        let bids = copy_ids(&self.bundles.list[b].component_ids);
        proof {
            assert(w0.wf_bundle_at(b as int));
            assert(w0.wf_arch_at(a as int));
        }
        let mut removed_table: Vec<usize> = Vec::new();
        let mut removed_sparse: Vec<usize> = Vec::new();
        let mut k: usize = 0;
        while k < bids.len()
            invariant
                *self == w0,
                w0 == *old(self),
                w0.wf(),
                (a as int) < w0.archetypes@.len(),
                w0.valid_bundle(b as int),
                (!intersection ==> edge_find(
                    w0.archetypes@[a as int].edges.remove_bundle@,
                    b,
                ) is None),
                (intersection ==> edge_find(
                    w0.archetypes@[a as int].edges.remove_bundle_intersection@,
                    b,
                ) is None),
                bids@ == w0.bundles.list@[b as int].component_ids@,
                k <= bids@.len(),
                forall|j: int|
                    0 <= j < bids@.len() ==> w0.valid_cid(#[trigger] bids@[j]),
                (!intersection ==> forall|j: int|
                    0 <= j < k ==> w0.archetypes@[a as int].has_spec(#[trigger] bids@[j])),
                forall|x: usize|
                    #![trigger removed_table@.contains(x)]
                    removed_table@.contains(x) <==> (bids@.take(k as int).contains(x)
                        && w0.archetypes@[a as int].has_spec(x) && !w0.is_sparse(x)),
                forall|x: usize|
                    #![trigger removed_sparse@.contains(x)]
                    removed_sparse@.contains(x) <==> (bids@.take(k as int).contains(x)
                        && w0.archetypes@[a as int].has_spec(x) && w0.is_sparse(x)),
            decreases bids@.len() - k,
        {
            let cid = bids[k];
            let ghost rt0 = removed_table@;
            let ghost rs0 = removed_sparse@;
            proof {
                lemma_take_plus_one(bids@, k as int, bids@.take(k as int + 1));
            }
            if self.archetypes[a].contains_id(cid) {
                if self.components.infos[cid].storage == crate::component::StorageType::SparseSet {
                    removed_sparse.push(cid);
                    proof {
                        lemma_push_contains(rs0, cid, removed_sparse@);
                        assert forall|x: usize|
                            #![trigger removed_sparse@.contains(x)]
                            removed_sparse@.contains(x) <==> (bids@.take(k as int + 1).contains(
                            x,
                        ) && w0.archetypes@[a as int].has_spec(x) && w0.is_sparse(x)) by {
                            assert(removed_sparse@.contains(x) <==> (rs0.contains(x) || x == cid));
                            assert(rs0.contains(x) <==> (bids@.take(k as int).contains(x)
                                && w0.archetypes@[a as int].has_spec(x) && w0.is_sparse(x)));
                            assert(bids@.take(k as int + 1).contains(x) <==> (bids@.take(
                                k as int,
                            ).contains(x) || x == bids@[k as int]));
                        }
                        assert forall|x: usize|
                            #![trigger removed_table@.contains(x)]
                            removed_table@.contains(x) <==> (bids@.take(k as int + 1).contains(
                            x,
                        ) && w0.archetypes@[a as int].has_spec(x) && !w0.is_sparse(x)) by {
                            assert(removed_table@.contains(x) <==> (bids@.take(
                                k as int,
                            ).contains(x) && w0.archetypes@[a as int].has_spec(x)
                                && !w0.is_sparse(x)));
                            assert(bids@.take(k as int + 1).contains(x) <==> (bids@.take(
                                k as int,
                            ).contains(x) || x == bids@[k as int]));
                        }
                    }
                } else {
                    removed_table.push(cid);
                    proof {
                        lemma_push_contains(rt0, cid, removed_table@);
                        assert forall|x: usize|
                            #![trigger removed_table@.contains(x)]
                            removed_table@.contains(x) <==> (bids@.take(k as int + 1).contains(
                            x,
                        ) && w0.archetypes@[a as int].has_spec(x) && !w0.is_sparse(x)) by {
                            assert(removed_table@.contains(x) <==> (rt0.contains(x) || x == cid));
                            assert(rt0.contains(x) <==> (bids@.take(k as int).contains(x)
                                && w0.archetypes@[a as int].has_spec(x) && !w0.is_sparse(x)));
                            assert(bids@.take(k as int + 1).contains(x) <==> (bids@.take(
                                k as int,
                            ).contains(x) || x == bids@[k as int]));
                        }
                        assert forall|x: usize|
                            #![trigger removed_sparse@.contains(x)]
                            removed_sparse@.contains(x) <==> (bids@.take(k as int + 1).contains(
                            x,
                        ) && w0.archetypes@[a as int].has_spec(x) && w0.is_sparse(x)) by {
                            assert(removed_sparse@.contains(x) <==> (bids@.take(
                                k as int,
                            ).contains(x) && w0.archetypes@[a as int].has_spec(x)
                                && w0.is_sparse(x)));
                            assert(bids@.take(k as int + 1).contains(x) <==> (bids@.take(
                                k as int,
                            ).contains(x) || x == bids@[k as int]));
                        }
                    }
                }
            } else if !intersection {
                // The removal is invalid; cache that, so the next ask is
                // answered without recomputation.
                self.cache_misses = if self.cache_misses == u64::MAX {
                    0
                } else {
                    self.cache_misses + 1
                };
                let eg = &mut self.archetypes[a];
                eg.edges.remove_bundle.push((b, None));
                proof {
                    lemma_edge_find_push(
                        w0.archetypes@[a as int].edges.remove_bundle@,
                        b,
                        None::<usize>,
                    );
                    assert(!w0.bundle_subset(a as int, b as int)) by {
                        assert(!w0.archetypes@[a as int].has_spec(bids@[k as int]));
                    }
                    assert forall|kk: int|
                        0 <= kk < self.archetypes@[a as int].edges.remove_bundle@.len()
                        implies self.remove_edge_ok(
                        a as int,
                        (#[trigger] self.archetypes@[a as int].edges.remove_bundle@[kk]).0,
                        self.archetypes@[a as int].edges.remove_bundle@[kk].1,
                        true,
                    ) by {
                        assert(w0.wf_edges_at(a as int));
                        if kk < self.archetypes@[a as int].edges.remove_bundle@.len() - 1 {
                            assert(w0.remove_edge_ok(
                                a as int,
                                w0.archetypes@[a as int].edges.remove_bundle@[kk].0,
                                w0.archetypes@[a as int].edges.remove_bundle@[kk].1,
                                true,
                            ));
                            lemma_remove_edge_ok_stable(
                                w0,
                                *self,
                                a as int,
                                self.archetypes@[a as int].edges.remove_bundle@[kk].0,
                                self.archetypes@[a as int].edges.remove_bundle@[kk].1,
                                true,
                            );
                        } else {
                            assert(self.archetypes@[a as int].edges.remove_bundle@[kk] == (
                            b,
                            None::<usize>,
                            ));
                            lemma_remove_edge_ok_stable(
                                w0,
                                *self,
                                a as int,
                                b,
                                None::<usize>,
                                true,
                            );
                        }
                    }
                    assert forall|kk: int|
                        0 <= kk < self.archetypes@[a as int].edges.add_bundle@.len() implies self
                        .add_edge_ok(
                        a as int,
                        (#[trigger] self.archetypes@[a as int].edges.add_bundle@[kk]).0,
                        self.archetypes@[a as int].edges.add_bundle@[kk].1,
                    ) by {
                        assert(w0.wf_edges_at(a as int));
                        assert(w0.add_edge_ok(
                            a as int,
                            w0.archetypes@[a as int].edges.add_bundle@[kk].0,
                            w0.archetypes@[a as int].edges.add_bundle@[kk].1,
                        ));
                    }
                    assert forall|kk: int|
                        0 <= kk
                            < self.archetypes@[a as int].edges.remove_bundle_intersection@.len()
                        implies self.remove_edge_ok(
                        a as int,
                        (#[trigger] self.archetypes@[a as int].edges.remove_bundle_intersection@[
                            kk
                        ]).0,
                        self.archetypes@[a as int].edges.remove_bundle_intersection@[kk].1,
                        false,
                    ) by {
                        assert(w0.wf_edges_at(a as int));
                        assert(w0.remove_edge_ok(
                            a as int,
                            w0.archetypes@[a as int].edges.remove_bundle_intersection@[kk].0,
                            w0.archetypes@[a as int].edges.remove_bundle_intersection@[kk].1,
                            false,
                        ));
                        lemma_remove_edge_ok_stable(
                            w0,
                            *self,
                            a as int,
                            self.archetypes@[a as int].edges.remove_bundle_intersection@[kk].0,
                            self.archetypes@[a as int].edges.remove_bundle_intersection@[kk].1,
                            false,
                        );
                    }
                    lemma_wf_after_edges_change(w0, *self, a as int);
                }
                return None;
            }
            k += 1;
        }
        proof {
            assert(bids@.take(bids@.len() as int) =~= bids@);
        }
        // Build the destination component sets.
        let mut next_table = copy_ids(&self.archetypes[a].table_components);
        sorted_remove(&mut next_table, &removed_table);
        let mut next_sparse = copy_ids(&self.archetypes[a].sparse_components);
        sorted_remove(&mut next_sparse, &removed_sparse);
        let ghost atc = w0.archetypes@[a as int].table_components@;
        let ghost asc = w0.archetypes@[a as int].sparse_components@;
        proof {
            lemma_seq_diff_contains(atc, removed_table@);
            lemma_seq_diff_sorted(atc, removed_table@);
            lemma_seq_diff_contains(asc, removed_sparse@);
            lemma_seq_diff_sorted(asc, removed_sparse@);
            assert forall|x: usize| #![auto]
                next_table@.contains(x) <==> (atc.contains(x) && !bids@.contains(x)) by {
                if atc.contains(x) {
                    let m = choose|m: int| 0 <= m < atc.len() && atc[m] == x;
                    assert(w0.valid_cid(atc[m]) && !w0.is_sparse(atc[m]));
                    assert(w0.archetypes@[a as int].has_spec(x));
                }
            }
            assert forall|x: usize| #![auto]
                next_sparse@.contains(x) <==> (asc.contains(x) && !bids@.contains(x)) by {
                if asc.contains(x) {
                    let m = choose|m: int| 0 <= m < asc.len() && asc[m] == x;
                    assert(w0.valid_cid(asc[m]) && w0.is_sparse(asc[m]));
                    assert(w0.archetypes@[a as int].has_spec(x));
                }
            }
            assert forall|j: int| 0 <= j < next_table@.len() implies self.valid_cid(
                #[trigger] next_table@[j],
            ) && !self.is_sparse(next_table@[j]) by {
                let x = next_table@[j];
                assert(next_table@.contains(x));
                assert(atc.contains(x));
                let m = choose|m: int| 0 <= m < atc.len() && atc[m] == x;
                assert(w0.valid_cid(atc[m]));
            }
            assert forall|j: int| 0 <= j < next_sparse@.len() implies self.valid_cid(
                #[trigger] next_sparse@[j],
            ) && self.is_sparse(next_sparse@[j]) by {
                let x = next_sparse@[j];
                assert(next_sparse@.contains(x));
                assert(asc.contains(x));
                let m = choose|m: int| 0 <= m < asc.len() && asc[m] == x;
                assert(w0.valid_cid(asc[m]));
            }
        }
        let ghost ntc = next_table@;
        let ghost nsc = next_sparse@;
        let t_id = self.get_or_insert_table(&next_table);
        let ghost w1 = *self;
        let d = self.get_or_insert_archetype(t_id, next_table, next_sparse);
        let ghost w2 = *self;
        self.cache_misses = if self.cache_misses == u64::MAX {
            0
        } else {
            self.cache_misses + 1
        };
        let eg = &mut self.archetypes[a];
        if intersection {
            eg.edges.remove_bundle_intersection.push((b, Some(d)));
        } else {
            eg.edges.remove_bundle.push((b, Some(d)));
        }
        proof {
            assert(w2.archetypes@[a as int].edges.remove_bundle@
                == w0.archetypes@[a as int].edges.remove_bundle@);
            assert(w2.archetypes@[a as int].edges.remove_bundle_intersection@
                == w0.archetypes@[a as int].edges.remove_bundle_intersection@);
            assert(w2.archetypes@[a as int].edges.add_bundle@
                == w0.archetypes@[a as int].edges.add_bundle@);
            if intersection {
                lemma_edge_find_push(
                    w2.archetypes@[a as int].edges.remove_bundle_intersection@,
                    b,
                    Some(d),
                );
            } else {
                lemma_edge_find_push(w2.archetypes@[a as int].edges.remove_bundle@, b, Some(d));
            }
            assert(w2.remove_edge_ok(a as int, b, Some(d), !intersection)) by {
                assert(is_diff_set(ntc, atc, bids@));
                assert(is_diff_set(nsc, asc, bids@));
                assert(w2.archetypes@[d as int].table_components@ == ntc);
                assert(w2.archetypes@[d as int].sparse_components@ == nsc);
                assert(w2.archetypes@[a as int].table_components@ == atc);
                assert(w2.archetypes@[a as int].sparse_components@ == asc);
                assert(w2.bundles.list@[b as int].component_ids@ == bids@);
                if !intersection {
                    assert forall|j: int|
                        0 <= j < w2.bundles.list@[b as int].component_ids@.len() implies w2
                        .archetypes@[a as int].has_spec(
                        #[trigger] w2.bundles.list@[b as int].component_ids@[j],
                    ) by {
                        assert(w0.archetypes@[a as int].has_spec(bids@[j]));
                    }
                }
            }
            assert forall|kk: int|
                0 <= kk < self.archetypes@[a as int].edges.remove_bundle@.len() implies self
                .remove_edge_ok(
                a as int,
                (#[trigger] self.archetypes@[a as int].edges.remove_bundle@[kk]).0,
                self.archetypes@[a as int].edges.remove_bundle@[kk].1,
                true,
            ) by {
                assert(w2.wf_edges_at(a as int));
                if !intersection && kk == self.archetypes@[a as int].edges.remove_bundle@.len()
                    - 1 {
                    assert(self.archetypes@[a as int].edges.remove_bundle@[kk] == (b, Some(d)));
                    lemma_remove_edge_ok_stable(w2, *self, a as int, b, Some(d), true);
                } else {
                    assert(w2.remove_edge_ok(
                        a as int,
                        w2.archetypes@[a as int].edges.remove_bundle@[kk].0,
                        w2.archetypes@[a as int].edges.remove_bundle@[kk].1,
                        true,
                    ));
                    lemma_remove_edge_ok_stable(
                        w2,
                        *self,
                        a as int,
                        self.archetypes@[a as int].edges.remove_bundle@[kk].0,
                        self.archetypes@[a as int].edges.remove_bundle@[kk].1,
                        true,
                    );
                }
            }
            assert forall|kk: int|
                0 <= kk < self.archetypes@[a as int].edges.remove_bundle_intersection@.len()
                implies self.remove_edge_ok(
                a as int,
                (#[trigger] self.archetypes@[a as int].edges.remove_bundle_intersection@[kk]).0,
                self.archetypes@[a as int].edges.remove_bundle_intersection@[kk].1,
                false,
            ) by {
                assert(w2.wf_edges_at(a as int));
                if intersection && kk == self.archetypes@[
                    a as int
                ].edges.remove_bundle_intersection@.len() - 1 {
                    assert(self.archetypes@[a as int].edges.remove_bundle_intersection@[kk] == (
                    b,
                    Some(d),
                    ));
                    lemma_remove_edge_ok_stable(w2, *self, a as int, b, Some(d), false);
                } else {
                    assert(w2.remove_edge_ok(
                        a as int,
                        w2.archetypes@[a as int].edges.remove_bundle_intersection@[kk].0,
                        w2.archetypes@[a as int].edges.remove_bundle_intersection@[kk].1,
                        false,
                    ));
                    lemma_remove_edge_ok_stable(
                        w2,
                        *self,
                        a as int,
                        self.archetypes@[a as int].edges.remove_bundle_intersection@[kk].0,
                        self.archetypes@[a as int].edges.remove_bundle_intersection@[kk].1,
                        false,
                    );
                }
            }
            assert forall|kk: int|
                0 <= kk < self.archetypes@[a as int].edges.add_bundle@.len() implies self
                .add_edge_ok(
                a as int,
                (#[trigger] self.archetypes@[a as int].edges.add_bundle@[kk]).0,
                self.archetypes@[a as int].edges.add_bundle@[kk].1,
            ) by {
                assert(w2.wf_edges_at(a as int));
                assert(w2.add_edge_ok(
                    a as int,
                    w2.archetypes@[a as int].edges.add_bundle@[kk].0,
                    w2.archetypes@[a as int].edges.add_bundle@[kk].1,
                ));
            }
            lemma_wf_after_edges_change(w2, *self, a as int);
            assert forall|i: int| same_entity(w0, *self, i) by {
                crate::ops::lemma_same_entity_trans(w0, w1, w2, i);
                crate::ops::lemma_same_entity_trans(w0, w2, *self, i);
            }
        }
        Some(d)
    }
}

} // verus!
