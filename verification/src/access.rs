//! Component access on a live entity: presence tests, reads of values and
//! change stamps, and the exclusive write that stamps "changed" at the
//! store's current tick.

use vstd::prelude::*;
use crate::component::ComponentTicks;
use crate::entity::Entity;
use crate::mutate::{lemma_stable_wf_parts, registries_stable, same_entity};
use crate::storage::{Slot, Val};
use crate::world::World;

verus! {

impl World {
    /// The slot of component `cid` on a live entity, if its shape has it.
    pub fn read_slot(&self, e: Entity, cid: usize) -> (r: Option<Slot>)
        requires
            self.wf(),
            self.live(e),
        ensures
            r == (if self.valid_cid(cid) && self.has_comp(e.index as int, cid) {
                Some(self.slot_at(e.index as int, cid))
            } else {
                None::<Slot>
            }),
    {
        let ghost idx = e.index as int;
        let l = self.entities.get(e).unwrap();
        proof {
            assert(self.live_idx(idx));
            assert(self.loc_ok(idx));
            assert(self.wf_arch_at(l.archetype_id as int));
        }
        let info = match self.components.get_info(cid) {
            Some(info) => info,
            None => {
                proof {
                    if self.has_comp(idx, cid) {
                        if self.arch_of(idx).table_components@.contains(cid) {
                            let m = choose|m: int|
                                0 <= m < self.arch_of(idx).table_components@.len() && self.arch_of(
                                    idx,
                                ).table_components@[m] == cid;
                            assert(self.valid_cid(self.arch_of(idx).table_components@[m]));
                        } else {
                            let m = choose|m: int|
                                0 <= m < self.arch_of(idx).sparse_components@.len() && self
                                    .arch_of(idx).sparse_components@[m] == cid;
                            assert(self.valid_cid(self.arch_of(idx).sparse_components@[m]));
                        }
                    }
                }
                return None;
            },
        };
        if info.storage == crate::component::StorageType::SparseSet {
            proof {
                assert(self.wf_sparse_at_except(cid, -1));
                assert(self.sparse_stores@[cid as int].has(idx) <==> self.sparse_expected(
                    cid,
                    idx,
                ));
                if self.has_comp(idx, cid) && self.arch_of(idx).table_components@.contains(cid) {
                    let m = choose|m: int|
                        0 <= m < self.arch_of(idx).table_components@.len() && self.arch_of(
                            idx,
                        ).table_components@[m] == cid;
                    assert(!self.is_sparse(self.arch_of(idx).table_components@[m]));
                }
            }
            self.sparse_stores[cid].get(e.index)
        } else {
            proof {
                if self.has_comp(idx, cid) {
                    assert(!self.arch_of(idx).sparse_components@.contains(cid)) by {
                        if self.arch_of(idx).sparse_components@.contains(cid) {
                            let m = choose|m: int|
                                0 <= m < self.arch_of(idx).sparse_components@.len() && self
                                    .arch_of(idx).sparse_components@[m] == cid;
                            assert(self.is_sparse(self.arch_of(idx).sparse_components@[m]));
                        }
                    }
                    assert(self.arch_of(idx).table_components@.contains(cid));
                    assert(self.tables@[l.table_id as int].col_ids() == self.arch_of(
                        idx,
                    ).table_components@);
                    assert(self.tables@[l.table_id as int].has_col(cid));
                }
            }
            let t = &self.tables[l.table_id];
            match t.find_column(cid) {
                Some(c) => {
                    proof {
                        if !self.has_comp(idx, cid) {
                            assert(self.tables@[l.table_id as int].col_ids()[self.tables@[
                                l.table_id as int
                            ].col_index(cid)] == cid);
                            assert(self.arch_of(idx).table_components@.contains(cid));
                        }
                    }
                    Some(t.columns[c].slots[l.table_row])
                },
                None => None,
            }
        }
    }

    /// Writes a component's value through exclusive access: the value is
    /// replaced and its "changed" stamp set to the store's current tick;
    /// the "added" stamp survives. Reports whether the entity's shape has
    /// the component at all.
    #[verifier::spinoff_prover]
    pub fn write_component_by_id(&mut self, e: Entity, cid: usize, value: Val) -> (ok: bool)
        requires
            old(self).wf(),
            old(self).live(e),
        ensures
            final(self).wf(),
            final(self).live(e),
            ok == (old(self).valid_cid(cid) && old(self).has_comp(e.index as int, cid)),
            (ok ==> final(self).slot_at(e.index as int, cid) == (Slot {
                value,
                added: old(self).slot_at(e.index as int, cid).added,
                changed: old(self).change_tick,
            })),
            (!ok ==> *final(self) == *old(self)),
            forall|cid2: usize|
                #![trigger final(self).slot_at(e.index as int, cid2)]
                old(self).has_comp(e.index as int, cid2) && cid2 != cid ==> final(self).slot_at(
                    e.index as int,
                    cid2,
                ) == old(self).slot_at(e.index as int, cid2),
            final(self).arch_of(e.index as int) == old(self).arch_of(e.index as int),
            forall|i: int| i != e.index as int ==> same_entity(*old(self), *final(self), i),
            final(self).entities == old(self).entities,
            final(self).removed@ == old(self).removed@,
            final(self).bundles == old(self).bundles,
            final(self).components == old(self).components,
            final(self).change_tick == old(self).change_tick,
            final(self).last_change_tick == old(self).last_change_tick,
            final(self).cache_misses == old(self).cache_misses,
    {
        let ghost w0 = *old(self);
        let ghost idx = e.index as int;
        let current = self.read_slot(e, cid);
        if current.is_none() {
            proof {
                assert forall|i: int| i != idx implies same_entity(w0, *self, i) by {
                    if w0.live_idx(i) {
                        assert forall|cid2: usize| #[trigger] w0.has_comp(i, cid2) implies self
                            .slot_at(i, cid2) == w0.slot_at(i, cid2) by {}
                    }
                }
            }
            return false;
        }
        let slot0 = current.unwrap();
        let tick = self.change_tick;
        let new_slot = Slot { value, added: slot0.added, changed: tick };
        let l = self.entities.get(e).unwrap();
        proof {
            assert(w0.live_idx(idx));
            assert(w0.loc_ok(idx));
            assert(w0.wf_arch_at(l.archetype_id as int));
        }
        if self.components.infos[cid].storage == crate::component::StorageType::SparseSet {
            proof {
                assert(!w0.arch_of(idx).table_components@.contains(cid)) by {
                    if w0.arch_of(idx).table_components@.contains(cid) {
                        let m = choose|m: int|
                            0 <= m < w0.arch_of(idx).table_components@.len() && w0.arch_of(
                                idx,
                            ).table_components@[m] == cid;
                        assert(!w0.is_sparse(w0.arch_of(idx).table_components@[m]));
                    }
                }
                assert(w0.arch_of(idx).sparse_components@.contains(cid));
                assert(w0.wf_sparse_at_except(cid, -1));
                assert(w0.sparse_stores@[cid as int].has(idx));
            }
            let st = &mut self.sparse_stores[cid];
            st.insert_cell(e.index, new_slot);
            proof {
                lemma_value_write_post(w0, *self, e, cid);
                assert(self.sparse_stores@[cid as int].slot(idx) == new_slot);
                assert(self.slot_at(idx, cid) == new_slot);
            }
        } else {
            proof {
                assert(!w0.arch_of(idx).sparse_components@.contains(cid)) by {
                    if w0.arch_of(idx).sparse_components@.contains(cid) {
                        let m = choose|m: int|
                            0 <= m < w0.arch_of(idx).sparse_components@.len() && w0.arch_of(
                                idx,
                            ).sparse_components@[m] == cid;
                        assert(w0.is_sparse(w0.arch_of(idx).sparse_components@[m]));
                    }
                }
                assert(w0.arch_of(idx).table_components@.contains(cid));
                assert(w0.tables@[l.table_id as int].col_ids() == w0.arch_of(
                    idx,
                ).table_components@);
                assert(w0.tables@[l.table_id as int].has_col(cid));
            }
            let t = &mut self.tables[l.table_id];
            let c = t.find_column(cid).unwrap();
            t.write_slot(c, l.table_row, new_slot);
            proof {
                lemma_value_write_post(w0, *self, e, cid);
                let t0 = l.table_id as int;
                assert(self.tables@[t0].wf()) by {
                    assert(self.wf_tables());
                }
                assert(self.tables@[t0].columns@[c as int].component_id == cid);
                self.tables@[t0].lemma_col_index(c as int);
                assert(self.tables@[t0].columns@[c as int].slots@[l.table_row as int]
                    == new_slot);
                assert(self.slot_at(idx, cid) == new_slot);
            }
        }
        true
    }
}

/// After overwriting exactly one slot of one live entity (in its table
/// row or its sparse cell), the whole invariant holds and every other
/// entity's record is untouched.
#[verifier::spinoff_prover]
pub proof fn lemma_value_write_post(w0: World, post: World, e: Entity, cid: usize)
    requires
        w0.wf(),
        w0.live(e),
        w0.valid_cid(cid),
        w0.has_comp(e.index as int, cid),
        post.entities == w0.entities,
        post.components == w0.components,
        post.bundles == w0.bundles,
        post.removed@ == w0.removed@,
        post.archetypes@ == w0.archetypes@,
        (if w0.is_sparse(cid) {
            post.tables@ == w0.tables@ && post.sparse_stores@.len() == w0.sparse_stores@.len() && (
            forall|c: int|
                0 <= c < w0.sparse_stores@.len() && c != cid as int
                    ==> #[trigger] post.sparse_stores@[c] == w0.sparse_stores@[c]) && (forall|
                i: int,
            |
                ((#[trigger] post.sparse_stores@[cid as int].has(i)) <==> w0.sparse_stores@[
                    cid as int
                ].has(i))) && (forall|i: int|
                i != e.index as int && w0.sparse_stores@[cid as int].has(i)
                    ==> #[trigger] post.sparse_stores@[cid as int].slot(i) == w0.sparse_stores@[
                    cid as int
                ].slot(i))
        } else {
            let t0 = w0.loc(e.index as int).table_id as int;
            let c0 = w0.tables@[t0].col_index(cid);
            post.sparse_stores@ == w0.sparse_stores@ && post.tables@.len() == w0.tables@.len() && (
            forall|t: int|
                0 <= t < w0.tables@.len() && t != t0 ==> #[trigger] post.tables@[t]
                    == w0.tables@[t]) && post.tables@[t0].entity_ids@ == w0.tables@[
                t0
            ].entity_ids@ && post.tables@[t0].columns@.len() == w0.tables@[t0].columns@.len() && (
            forall|c: int|
                0 <= c < w0.tables@[t0].columns@.len() && c != c0 ==> #[trigger] post.tables@[
                    t0
                ].columns@[c] == w0.tables@[t0].columns@[c]) && post.tables@[
                t0
            ].columns@[c0].component_id == w0.tables@[t0].columns@[c0].component_id && post.tables@[
                t0
            ].columns@[c0].slots@.len() == w0.tables@[t0].columns@[c0].slots@.len() && (forall|
                r: int,
            |
                0 <= r < w0.tables@[t0].columns@[c0].slots@.len() && r != w0.loc(
                    e.index as int,
                ).table_row as int ==> #[trigger] post.tables@[t0].columns@[c0].slots@[r]
                    == w0.tables@[t0].columns@[c0].slots@[r])
        }),
    ensures
        post.wf(),
        forall|i: int| i != e.index as int ==> same_entity(w0, post, i),
        forall|cid2: usize|
            #![trigger post.slot_at(e.index as int, cid2)]
            w0.has_comp(e.index as int, cid2) && cid2 != cid ==> post.slot_at(e.index as int, cid2)
                == w0.slot_at(e.index as int, cid2),
{
    let idx = e.index as int;
    assert(w0.live_idx(idx));
    assert(w0.loc_ok(idx));
    let l0 = w0.loc(idx);
    let a0 = l0.archetype_id as int;
    let t0 = l0.table_id as int;
    assert(w0.wf_arch_at(a0));
    assert(registries_stable(w0, post)) by {
        if w0.is_sparse(cid) {
        } else {
            assert forall|t: int| 0 <= t < w0.tables@.len() implies (#[trigger] post.tables@[
                t
            ]).col_ids() == w0.tables@[t].col_ids() by {
                if t == t0 {
                    assert(post.tables@[t0].col_ids() =~= w0.tables@[t0].col_ids());
                } else {
                    assert(post.tables@[t] == w0.tables@[t]);
                }
            }
        }
    }
    assert forall|t: int| 0 <= t < post.tables@.len() implies (#[trigger] post.tables@[t]).wf() by {
        assert(w0.tables@[t].wf());
        if !w0.is_sparse(cid) && t == t0 {
            assert(post.tables@[t0].col_ids() =~= w0.tables@[t0].col_ids());
            assert forall|c: int|
                0 <= c < post.tables@[t0].columns@.len() implies (#[trigger] post.tables@[
                t0
            ].columns@[c]).slots@.len() == post.tables@[t0].entity_ids@.len() by {
                if c != w0.tables@[t0].col_index(cid) {
                    assert(post.tables@[t0].columns@[c] == w0.tables@[t0].columns@[c]);
                }
            }
        }
    }
    lemma_stable_wf_parts(w0, post);
    assert forall|i: int| #[trigger] post.live_idx(i) implies post.loc_ok(i) by {
        assert(w0.live_idx(i));
        assert(w0.loc_ok(i));
        let li = w0.loc(i);
        assert(w0.wf_arch_at(li.archetype_id as int));
        if !w0.is_sparse(cid) {
            if li.table_id as int == t0 {
                assert(post.tables@[t0].entity_ids@ == w0.tables@[t0].entity_ids@);
            } else {
                assert(post.tables@[li.table_id as int] == w0.tables@[li.table_id as int]);
            }
        }
    }
    assert(post.wf_locations());
    assert forall|a: int, r: int|
        #![trigger post.archetypes@[a].entities@[r]]
        0 <= a < post.archetypes@.len() && 0 <= r
            < post.archetypes@[a].entities@.len() implies post.arch_entry_ok(a, r) by {
        assert(w0.archetypes@[a].entities@[r] == w0.archetypes@[a].entities@[r]);
        assert(w0.arch_entry_ok(a, r));
    }
    assert(post.wf_arch_entities());
    assert forall|t: int, r: int|
        #![trigger post.tables@[t].entity_ids@[r]]
        0 <= t < post.tables@.len() && 0 <= r
            < post.tables@[t].entity_ids@.len() implies post.table_row_ok(t, r) by {
        assert(w0.tables@[t].entity_ids@[r] == w0.tables@[t].entity_ids@[r]);
        assert(w0.table_row_ok(t, r));
    }
    assert(post.wf_table_rows());
    assert forall|c2: usize| post.valid_cid(c2) implies #[trigger] post.wf_sparse_at_except(
        c2,
        -1,
    ) by {
        assert(w0.wf_sparse_at_except(c2, -1));
        if post.is_sparse(c2) {
            assert forall|i: int|
                i != -1 implies (#[trigger] post.sparse_stores@[c2 as int].has(i)
                <==> post.sparse_expected(c2, i)) by {
                assert(w0.sparse_stores@[c2 as int].has(i) <==> w0.sparse_expected(c2, i));
                if w0.is_sparse(cid) && c2 == cid {
                    assert(post.sparse_stores@[cid as int].has(i) <==> w0.sparse_stores@[
                        cid as int
                    ].has(i));
                } else {
                    if w0.is_sparse(cid) {
                        assert(post.sparse_stores@[c2 as int] == w0.sparse_stores@[c2 as int]);
                    }
                }
            }
        } else {
            if w0.is_sparse(cid) {
                assert(post.sparse_stores@[c2 as int] == w0.sparse_stores@[c2 as int]);
            }
        }
    }
    assert(post.wf_sparse());
    assert(post.wf());
    let c0 = w0.tables@[t0].col_index(cid);
    assert forall|i: int| i != idx implies same_entity(w0, post, i) by {
        if w0.live_idx(i) {
            let li = w0.loc(i);
            assert(w0.loc_ok(i));
            assert(w0.wf_arch_at(li.archetype_id as int));
            assert forall|cid2: usize| #[trigger] w0.has_comp(i, cid2) implies post.slot_at(
                i,
                cid2,
            ) == w0.slot_at(i, cid2) by {
                if w0.is_sparse(cid2) {
                    if w0.is_sparse(cid) && cid2 == cid {
                        // the written cell belongs to `e`, not to `i`
                        assert(!w0.arch_of(i).table_components@.contains(cid2)) by {
                            if w0.arch_of(i).table_components@.contains(cid2) {
                                let m = choose|m: int|
                                    0 <= m < w0.arch_of(i).table_components@.len() && w0.arch_of(
                                        i,
                                    ).table_components@[m] == cid2;
                                assert(!w0.is_sparse(w0.arch_of(i).table_components@[m]));
                            }
                        }
                        assert(w0.arch_of(i).sparse_components@.contains(cid2));
                        assert(w0.wf_sparse_at_except(cid2, -1));
                        assert(w0.sparse_expected(cid2, i));
                        assert(w0.sparse_stores@[cid as int].has(i));
                        assert(post.sparse_stores@[cid as int].slot(i) == w0.sparse_stores@[
                            cid as int
                        ].slot(i));
                    } else {
                        if w0.is_sparse(cid) {
                            assert(post.sparse_stores@[cid2 as int] == w0.sparse_stores@[
                                cid2 as int
                            ]);
                        }
                    }
                } else {
                    // table-backed
                    assert(!w0.arch_of(i).sparse_components@.contains(cid2)) by {
                        if w0.arch_of(i).sparse_components@.contains(cid2) {
                            let m = choose|m: int|
                                0 <= m < w0.arch_of(i).sparse_components@.len() && w0.arch_of(
                                    i,
                                ).sparse_components@[m] == cid2;
                            assert(w0.is_sparse(w0.arch_of(i).sparse_components@[m]));
                        }
                    }
                    assert(w0.arch_of(i).table_components@.contains(cid2));
                    assert(w0.tables@[li.table_id as int].col_ids() == w0.arch_of(
                        i,
                    ).table_components@);
                    assert(w0.tables@[li.table_id as int].has_col(cid2));
                    if w0.is_sparse(cid) || li.table_id as int != t0 {
                        if !w0.is_sparse(cid) {
                            assert(post.tables@[li.table_id as int] == w0.tables@[
                                li.table_id as int
                            ]);
                        }
                    } else {
                        // same table: a different column or a different row
                        let cc = w0.tables@[t0].col_index(cid2);
                        assert(0 <= cc < w0.tables@[t0].columns@.len() && w0.tables@[
                            t0
                        ].columns@[cc].component_id == cid2) by {
                            assert(w0.tables@[t0].wf());
                            let m = choose|m: int|
                                0 <= m < w0.tables@[t0].col_ids().len() && w0.tables@[
                                    t0
                                ].col_ids()[m] == cid2;
                            assert(w0.tables@[t0].columns@[m].component_id == cid2);
                        }
                        w0.tables@[t0].lemma_col_index(cc);
                        post.tables@[t0].lemma_col_index(cc) ;
                        if cc != c0 {
                            assert(post.tables@[t0].columns@[cc] == w0.tables@[t0].columns@[cc]);
                        } else {
                            // the same column: `i` sits in a different row
                            assert(li.table_row != l0.table_row) by {
                                assert(w0.tables@[t0].entity_ids@[li.table_row as int]
                                    == w0.tables@[t0].entity_ids@[li.table_row as int]);
                                assert(w0.table_row_ok(t0, li.table_row as int));
                            }
                            assert(post.tables@[t0].columns@[c0].slots@[li.table_row as int]
                                == w0.tables@[t0].columns@[c0].slots@[li.table_row as int]);
                        }
                    }
                }
            }
        }
    }
    // Other components of the written entity are untouched.
    assert forall|cid2: usize|
        w0.has_comp(idx, cid2) && cid2 != cid implies #[trigger] post.slot_at(idx, cid2)
        == w0.slot_at(idx, cid2) by {
        if w0.is_sparse(cid2) {
            if w0.is_sparse(cid) {
                assert(post.sparse_stores@[cid2 as int] == w0.sparse_stores@[cid2 as int]);
            }
        } else {
            assert(!w0.arch_of(idx).sparse_components@.contains(cid2)) by {
                if w0.arch_of(idx).sparse_components@.contains(cid2) {
                    let m = choose|m: int|
                        0 <= m < w0.arch_of(idx).sparse_components@.len() && w0.arch_of(
                            idx,
                        ).sparse_components@[m] == cid2;
                    assert(w0.is_sparse(w0.arch_of(idx).sparse_components@[m]));
                }
            }
            assert(w0.arch_of(idx).table_components@.contains(cid2));
            assert(w0.tables@[t0].col_ids() == w0.arch_of(idx).table_components@);
            assert(w0.tables@[t0].has_col(cid2));
            if w0.is_sparse(cid) {
            } else {
                let cc = w0.tables@[t0].col_index(cid2);
                assert(0 <= cc < w0.tables@[t0].columns@.len() && w0.tables@[
                    t0
                ].columns@[cc].component_id == cid2) by {
                    assert(w0.tables@[t0].wf());
                    let m = choose|m: int|
                        0 <= m < w0.tables@[t0].col_ids().len() && w0.tables@[t0].col_ids()[m]
                            == cid2;
                    assert(w0.tables@[t0].columns@[m].component_id == cid2);
                }
                w0.tables@[t0].lemma_col_index(cc);
                post.tables@[t0].lemma_col_index(cc);
                assert(cc != c0) by {
                    if cc == c0 {
                        assert(w0.tables@[t0].wf());
                        w0.tables@[t0].lemma_col_index(c0) ;
                        assert(w0.tables@[t0].has_col(cid)) by {
                            assert(!w0.arch_of(idx).sparse_components@.contains(cid)) by {
                                if w0.arch_of(idx).sparse_components@.contains(cid) {
                                    let m = choose|m: int|
                                        0 <= m < w0.arch_of(idx).sparse_components@.len() && w0
                                            .arch_of(idx).sparse_components@[m] == cid;
                                    assert(w0.is_sparse(
                                        w0.arch_of(idx).sparse_components@[m],
                                    ));
                                }
                            }
                            assert(w0.arch_of(idx).table_components@.contains(cid));
                        }
                        assert(w0.tables@[t0].columns@[c0].component_id == cid);
                    }
                }
                assert(post.tables@[t0].columns@[cc] == w0.tables@[t0].columns@[cc]);
            }
        }
    }
}

/// The change stamps of one component on a live entity, if present.
impl World {
    pub fn component_ticks(&self, e: Entity, cid: usize) -> (r: Option<ComponentTicks>)
        requires
            self.wf(),
            self.live(e),
        ensures
            r == (if self.valid_cid(cid) && self.has_comp(e.index as int, cid) {
                Some(
                    ComponentTicks {
                        added: self.slot_at(e.index as int, cid).added,
                        changed: self.slot_at(e.index as int, cid).changed,
                    },
                )
            } else {
                None::<ComponentTicks>
            }),
    {
        match self.read_slot(e, cid) {
            Some(s) => Some(ComponentTicks { added: s.added, changed: s.changed }),
            None => None,
        }
    }
}

} // verus!
