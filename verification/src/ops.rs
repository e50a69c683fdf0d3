//! Entity lifecycle: spawning into the empty shape and destruction, with
//! the pending-removal ledger bookkeeping that destruction owes to
//! collateral observers.

use vstd::prelude::*;
use crate::entity::{Entity, EntityMeta, EntityLocation, next_generation};
use crate::mutate::{lemma_stable_wf_parts, registries_stable, same_entity};
use crate::sorted::{copy_ids, lemma_take_plus_one, sorted_strict};
use crate::storage::Slot;
use crate::world::World;

verus! {

/// `same_entity` composes.
pub proof fn lemma_same_entity_trans(w0: World, w1: World, w2: World, i: int)
    requires
        same_entity(w0, w1, i),
        same_entity(w1, w2, i),
    ensures
        same_entity(w0, w2, i),
{
    if w0.live_idx(i) {
        assert forall|cid: usize| #[trigger] w0.has_comp(i, cid) implies w2.slot_at(i, cid)
            == w0.slot_at(i, cid) by {
            assert(w1.has_comp(i, cid));
        }
    }
}

impl World {
    /// Appends `e` to the pending-removal ledger of every component in
    /// the sorted id list.
    pub(crate) fn ledger_record(&mut self, ids: &Vec<usize>, e: Entity)
        requires
            sorted_strict(ids@),
            forall|k: int|
                0 <= k < ids@.len() ==> (#[trigger] ids@[k] as int) < old(self).removed@.len(),
        ensures
            final(self).removed@.len() == old(self).removed@.len(),
            forall|cid: int|
                0 <= cid < old(self).removed@.len() ==> (#[trigger] final(self).removed@[cid])@
                    == (if ids@.contains(cid as usize) {
                    old(self).removed@[cid]@.push(e)
                } else {
                    old(self).removed@[cid]@
                }),
            final(self).components == old(self).components,
            final(self).entities == old(self).entities,
            final(self).archetypes@ == old(self).archetypes@,
            final(self).tables@ == old(self).tables@,
            final(self).sparse_stores@ == old(self).sparse_stores@,
            final(self).bundles == old(self).bundles,
            final(self).change_tick == old(self).change_tick,
            final(self).last_change_tick == old(self).last_change_tick,
            final(self).cache_misses == old(self).cache_misses,
    {
        // Reading the length bounds the ledger's indices for the loop.
        let n_led = self.removed.len();
        let mut k: usize = 0;
        while k < ids.len()
            invariant
                k <= ids@.len(),
                old(self).removed@.len() <= usize::MAX as int,
                sorted_strict(ids@),
                forall|j: int|
                    0 <= j < ids@.len() ==> (#[trigger] ids@[j] as int) < old(self).removed@.len(),
                self.removed@.len() == old(self).removed@.len(),
                forall|cid: int|
                    0 <= cid < old(self).removed@.len() ==> (#[trigger] self.removed@[cid])@ == (
                    if ids@.take(k as int).contains(cid as usize) {
                        old(self).removed@[cid]@.push(e)
                    } else {
                        old(self).removed@[cid]@
                    }),
                self.components == old(self).components,
                self.entities == old(self).entities,
                self.archetypes@ == old(self).archetypes@,
                self.tables@ == old(self).tables@,
                self.sparse_stores@ == old(self).sparse_stores@,
                self.bundles == old(self).bundles,
                self.change_tick == old(self).change_tick,
                self.last_change_tick == old(self).last_change_tick,
                self.cache_misses == old(self).cache_misses,
            decreases ids@.len() - k,
        {
            let cid = ids[k];
            proof {
                lemma_take_plus_one(ids@, k as int, ids@.take(k as int + 1));
                // Sortedness: this id was not in the processed prefix.
                assert(!ids@.take(k as int).contains(cid)) by {
                    if ids@.take(k as int).contains(cid) {
                        let j = choose|j: int|
                            0 <= j < k as int && ids@.take(k as int)[j] == cid;
                        assert(ids@[j] == cid);
                    }
                }
            }
            let ghost prev = self.removed@;
            self.removed[cid].push(e);
            proof {
                assert forall|c2: int| 0 <= c2 < old(self).removed@.len() implies (#[trigger] self
                    .removed@[c2])@ == (if ids@.take(k as int + 1).contains(c2 as usize) {
                    old(self).removed@[c2]@.push(e)
                } else {
                    old(self).removed@[c2]@
                }) by {
                    assert(prev[c2]@ == (if ids@.take(k as int).contains(c2 as usize) {
                        old(self).removed@[c2]@.push(e)
                    } else {
                        old(self).removed@[c2]@
                    }));
                    if c2 != cid as int {
                        assert(self.removed@[c2] == prev[c2]);
                    }
                }
            }
            k += 1;
        }
        proof {
            assert(ids@.take(ids@.len() as int) =~= ids@);
        }
    }

    /// Creates a fresh live entity with the empty shape: the most
    /// recently freed index is reused at its already-bumped generation,
    /// or the directory grows by a fresh index at generation zero.
    pub fn spawn_entity(&mut self) -> (e: Entity)
        requires
            old(self).wf(),
            old(self).entities.meta@.len() < 0xFFFF_FFFFint,
        ensures
            final(self).wf(),
            final(self).live(e),
            !old(self).live(e),
            final(self).loc(e.index as int).archetype_id == 0,
            final(self).arch_of(e.index as int).table_components@.len() == 0,
            final(self).arch_of(e.index as int).sparse_components@.len() == 0,
            registries_stable(*old(self), *final(self)),
            final(self).sparse_stores@ == old(self).sparse_stores@,
            final(self).removed@ == old(self).removed@,
            final(self).change_tick == old(self).change_tick,
            final(self).last_change_tick == old(self).last_change_tick,
            final(self).cache_misses == old(self).cache_misses,
            forall|i: int| i != e.index as int ==> same_entity(*old(self), *final(self), i),
            (if old(self).entities.free@.len() > 0 {
                e.index == old(self).entities.free@.last() && e.generation == old(self).entities.meta@[e.index as int].generation && final(self).entities.meta@.len()
                    == old(self).entities.meta@.len() && final(self).entities.free@
                    == old(self).entities.free@.drop_last()
            } else {
                e.index as int == old(self).entities.meta@.len() && e.generation == 0 && final(self).entities.meta@.len() == old(self).entities.meta@.len() + 1 && final(self).entities.free@ == old(self).entities.free@
            }),
    {
        let ghost w0 = *old(self);
        let e = self.entities.allocate();
        let ghost w1 = *self;
        proof {
            let idx = e.index as int;
            assert(!w0.live(e)) by {
                if w0.live(e) {
                    if w0.entities.free@.len() > 0 {
                        assert(w0.entities.meta@[w0.entities.free@[w0.entities.free@.len() - 1] as int].location is None);
                    }
                }
            }
            assert forall|i: int| #[trigger] w1.live_idx(i) implies w1.loc_ok(i) by {
                assert(w0.live_idx(i));
                assert(w0.loc_ok(i));
            }
            assert(w1.wf_locations());
            assert forall|a: int, r: int|
                #![trigger w1.archetypes@[a].entities@[r]]
                0 <= a < w1.archetypes@.len() && 0 <= r
                    < w1.archetypes@[a].entities@.len() implies w1.arch_entry_ok(a, r) by {
                assert(w0.archetypes@[a].entities@[r] == w0.archetypes@[a].entities@[r]);
                assert(w0.arch_entry_ok(a, r));
                let j = w0.archetypes@[a].entities@[r].entity.index as int;
                assert(w1.entities.meta@[j] == w0.entities.meta@[j]);
            }
            assert(w1.wf_arch_entities());
            assert forall|t: int, r: int|
                #![trigger w1.tables@[t].entity_ids@[r]]
                0 <= t < w1.tables@.len() && 0 <= r
                    < w1.tables@[t].entity_ids@.len() implies w1.table_row_ok(t, r) by {
                assert(w0.tables@[t].entity_ids@[r] == w0.tables@[t].entity_ids@[r]);
                assert(w0.table_row_ok(t, r));
                let j = w0.tables@[t].entity_ids@[r].index as int;
                assert(w1.entities.meta@[j] == w0.entities.meta@[j]);
            }
            assert(w1.wf_table_rows());
            assert forall|cid: usize| w1.valid_cid(cid) implies #[trigger] w1.wf_sparse_at_except(
                cid,
                idx,
            ) by {
                assert(w0.wf_sparse_at_except(cid, -1));
                if w1.is_sparse(cid) {
                    assert forall|i: int|
                        i != idx implies (#[trigger] w1.sparse_stores@[cid as int].has(i)
                        <==> w1.sparse_expected(cid, i)) by {
                        assert(w0.sparse_stores@[cid as int].has(i) <==> w0.sparse_expected(
                            cid,
                            i,
                        ));
                        if 0 <= i < w0.entities.meta@.len() {
                            assert(w1.entities.meta@[i] == w0.entities.meta@[i]);
                        }
                    }
                }
            }
            assert(w1.wf_sparse_except(idx));
            assert(registries_stable(w0, w1));
            assert forall|t: int| 0 <= t < w1.tables@.len() implies (#[trigger] w1.tables@[
                t
            ]).wf() by {
                assert(w0.tables@[t].wf());
            }
            lemma_stable_wf_parts(w0, w1);
            // The fresh index carries no sparse cells: it was dead before.
            assert forall|cid: usize|
                w1.valid_cid(cid) && w1.is_sparse(cid) implies ((#[trigger] w1.sparse_stores@[
                cid as int
            ].has(idx)) <==> w1.archetypes@[0].sparse_components@.contains(cid)) by {
                assert(w0.wf_sparse_at_except(cid, -1));
                assert(w0.sparse_stores@[cid as int].has(idx) <==> w0.sparse_expected(cid, idx));
                assert(!w0.live_idx(idx));
                assert(w1.archetypes@[0].sparse_components@.len() == 0);
            }
        }
        let empty_row: Vec<(usize, Slot)> = Vec::new();
        self.attach(e, 0, &empty_row);
        proof {
            assert forall|i: int| i != e.index as int implies same_entity(w0, *self, i) by {
                assert(same_entity(w0, w1, i)) by {
                    if w0.live_idx(i) {
                        assert(w1.live_idx(i));
                        assert(w1.arch_of(i) == w0.arch_of(i));
                        assert forall|cid: usize| #[trigger] w0.has_comp(i, cid) implies w1.slot_at(
                            i,
                            cid,
                        ) == w0.slot_at(i, cid) by {}
                    }
                }
                assert(same_entity(w1, *self, i));
                lemma_same_entity_trans(w0, w1, *self, i);
            }
        }
        e
    }

    /// Destroys a live entity: records every component it had in the
    /// pending-removal ledger, drops all its values (table row and sparse
    /// cells alike), clears its records, and frees its identifier with
    /// the generation bumped so the handle goes provably stale. A stale
    /// or unknown handle reports not-found.
    #[verifier::spinoff_prover]
    pub fn despawn_entity(&mut self, e: Entity) -> (ok: bool)
        requires
            old(self).wf(),
        ensures
            final(self).wf(),
            ok == old(self).live(e),
            !final(self).live(e),
            (!old(self).live(e) ==> *final(self) == *old(self)),
            registries_stable(*old(self), *final(self)),
            final(self).change_tick == old(self).change_tick,
            final(self).last_change_tick == old(self).last_change_tick,
            final(self).cache_misses == old(self).cache_misses,
            (old(self).live(e) ==> {
                &&& !final(self).live_idx(e.index as int)
                &&& final(self).entities.meta@.len() == old(self).entities.meta@.len()
                &&& final(self).entities.meta@[e.index as int].generation == next_generation(
                    e.generation,
                )
                &&& final(self).entities.meta@[e.index as int].location is None
                &&& final(self).entities.free@ == old(self).entities.free@.push(e.index)
                &&& (forall|i: int|
                    i != e.index as int ==> same_entity(*old(self), *final(self), i))
                &&& (forall|cid: int|
                    0 <= cid < old(self).removed@.len() ==> (#[trigger] final(self).removed@[
                        cid
                    ])@ == (if old(self).has_comp(e.index as int, cid as usize) {
                        old(self).removed@[cid]@.push(e)
                    } else {
                        old(self).removed@[cid]@
                    }))
            }),
    {
        let ghost w0 = *old(self);
        let ghost idx = e.index as int;
        let lopt = self.entities.get(e);
        if lopt.is_none() {
            return false;
        }
        let l = lopt.unwrap();
        proof {
            assert(w0.live_idx(idx));
            assert(w0.loc_ok(idx));
            assert(w0.wf_arch_at(l.archetype_id as int));
        }
        let table_ids = copy_ids(&self.archetypes[l.archetype_id].table_components);
        let sparse_ids = copy_ids(&self.archetypes[l.archetype_id].sparse_components);
        proof {
            assert forall|k: int| 0 <= k < table_ids@.len() implies (#[trigger] table_ids@[
                k
            ] as int) < self.removed@.len() by {
                assert(w0.valid_cid(w0.archetypes@[l.archetype_id as int].table_components@[k]));
            }
            assert forall|k: int| 0 <= k < sparse_ids@.len() implies (#[trigger] sparse_ids@[
                k
            ] as int) < self.removed@.len() by {
                assert(w0.valid_cid(w0.archetypes@[l.archetype_id as int].sparse_components@[k]));
            }
        }
        self.ledger_record(&table_ids, e);
        self.ledger_record(&sparse_ids, e);
        // Reading the length bounds the ledger's indices for the loop.
        let n_led = self.removed.len();
        proof {
            assert(w0.removed@.len() <= usize::MAX as int);
            assert forall|cid: int| 0 <= cid < w0.removed@.len() implies (#[trigger] self
                .removed@[cid])@ == (if w0.has_comp(idx, cid as usize) {
                w0.removed@[cid]@.push(e)
            } else {
                w0.removed@[cid]@
            }) by {
                let c = cid as usize;
                if table_ids@.contains(c) {
                    assert(!sparse_ids@.contains(c)) by {
                        if sparse_ids@.contains(c) {
                            let k1 = choose|k1: int|
                                0 <= k1 < table_ids@.len() && table_ids@[k1] == c;
                            let k2 = choose|k2: int|
                                0 <= k2 < sparse_ids@.len() && sparse_ids@[k2] == c;
                            assert(!w0.is_sparse(
                                w0.archetypes@[l.archetype_id as int].table_components@[k1],
                            ));
                            assert(w0.is_sparse(
                                w0.archetypes@[l.archetype_id as int].sparse_components@[k2],
                            ));
                        }
                    }
                }
            }
        }
        let ghost w1 = *self;
        proof {
            // Ledger writes change no stored record.
            assert(w1.wf()) by {
                assert(w1.wf_registry());
                assert(w1.wf_tables());
                assert(w1.wf_archetypes()) by {
                    assert forall|a: int| 0 <= a < w1.archetypes@.len() implies #[trigger] w1
                        .wf_arch_at(a) by {
                        assert(w0.wf_arch_at(a));
                    }
                }
                assert(w1.wf_bundles()) by {
                    assert forall|b: int| 0 <= b < w1.bundles.list@.len() implies #[trigger] w1
                        .wf_bundle_at(b) by {
                        assert(w0.wf_bundle_at(b));
                    }
                }
                assert(w1.wf_edges()) by {
                    assert forall|a: int| 0 <= a < w1.archetypes@.len() implies #[trigger] w1
                        .wf_edges_at(a) by {
                        assert(w0.wf_edges_at(a));
                    }
                }
                assert(w1.wf_locations()) by {
                    assert forall|i: int| #[trigger] w1.live_idx(i) implies w1.loc_ok(i) by {
                        assert(w0.live_idx(i));
                        assert(w0.loc_ok(i));
                    }
                }
                assert(w1.wf_arch_entities()) by {
                    assert forall|a: int, r: int|
                        #![trigger w1.archetypes@[a].entities@[r]]
                        0 <= a < w1.archetypes@.len() && 0 <= r
                            < w1.archetypes@[a].entities@.len() implies w1.arch_entry_ok(a, r) by {
                        assert(w0.archetypes@[a].entities@[r] == w0.archetypes@[a].entities@[r]);
                        assert(w0.arch_entry_ok(a, r));
                    }
                }
                assert(w1.wf_table_rows()) by {
                    assert forall|t: int, r: int|
                        #![trigger w1.tables@[t].entity_ids@[r]]
                        0 <= t < w1.tables@.len() && 0 <= r
                            < w1.tables@[t].entity_ids@.len() implies w1.table_row_ok(t, r) by {
                        assert(w0.tables@[t].entity_ids@[r] == w0.tables@[t].entity_ids@[r]);
                        assert(w0.table_row_ok(t, r));
                    }
                }
                assert(w1.wf_sparse()) by {
                    assert forall|cid: usize| w1.valid_cid(cid) implies #[trigger] w1
                        .wf_sparse_at_except(cid, -1) by {
                        assert(w0.wf_sparse_at_except(cid, -1));
                    }
                }
            }
            assert(w1.live(e));
        }
        let _row = self.detach(e);
        let ghost w2 = *self;
        // Drop the sparse cells the entity owned.
        // Reading the length bounds the store indices for the loop.
        let n_stores = self.sparse_stores.len();
        let mut k: usize = 0;
        while k < sparse_ids.len()
            invariant
                idx == e.index as int,
                k <= sparse_ids@.len(),
                w2.sparse_stores@.len() <= usize::MAX as int,
                forall|j: int|
                    0 <= j < sparse_ids@.len() ==> (#[trigger] sparse_ids@[j] as int)
                        < w2.sparse_stores@.len(),
                self.sparse_stores@.len() == w2.sparse_stores@.len(),
                forall|c: int|
                    0 <= c < w2.sparse_stores@.len() && !sparse_ids@.take(k as int).contains(
                        c as usize,
                    ) ==> #[trigger] self.sparse_stores@[c] == w2.sparse_stores@[c],
                forall|c: int|
                    0 <= c < w2.sparse_stores@.len() && sparse_ids@.take(k as int).contains(
                        c as usize,
                    ) ==> !(#[trigger] self.sparse_stores@[c]).has(idx),
                forall|c: int, i: int|
                    0 <= c < w2.sparse_stores@.len() && i != idx ==> ((#[trigger] self
                        .sparse_stores@[c].has(i)) <==> w2.sparse_stores@[c].has(i)) && (
                    w2.sparse_stores@[c].has(i) ==> self.sparse_stores@[c].slot(i)
                        == w2.sparse_stores@[c].slot(i)),
                self.components == w2.components,
                self.entities == w2.entities,
                self.archetypes@ == w2.archetypes@,
                self.tables@ == w2.tables@,
                self.removed@ == w2.removed@,
                self.bundles == w2.bundles,
                self.change_tick == w2.change_tick,
                self.last_change_tick == w2.last_change_tick,
                self.cache_misses == w2.cache_misses,
            decreases sparse_ids@.len() - k,
        {
            let cid = sparse_ids[k];
            proof {
                lemma_take_plus_one(sparse_ids@, k as int, sparse_ids@.take(k as int + 1));
            }
            let ghost prevs = self.sparse_stores@;
            let st = &mut self.sparse_stores[cid];
            st.remove_cell(e.index);
            proof {
                assert(self.sparse_stores@ == prevs.update(
                    cid as int,
                    self.sparse_stores@[cid as int],
                ));
                assert(!self.sparse_stores@[cid as int].has(idx));
                assert forall|c: int|
                    0 <= c < w2.sparse_stores@.len() && sparse_ids@.take(k as int + 1).contains(
                        c as usize,
                    ) implies !(#[trigger] self.sparse_stores@[c]).has(idx) by {
                    if c != cid as int {
                        assert(self.sparse_stores@[c] == prevs[c]);
                        assert(sparse_ids@.take(k as int).contains(c as usize));
                    }
                }
                assert forall|c: int|
                    0 <= c < w2.sparse_stores@.len() && !sparse_ids@.take(k as int + 1).contains(
                        c as usize,
                    ) implies #[trigger] self.sparse_stores@[c] == w2.sparse_stores@[c] by {
                    assert(c != cid as int);
                    assert(self.sparse_stores@[c] == prevs[c]);
                }
                assert forall|c: int, i: int|
                    0 <= c < w2.sparse_stores@.len() && i != idx implies ((#[trigger] self
                        .sparse_stores@[c].has(i)) <==> w2.sparse_stores@[c].has(i)) && (
                    w2.sparse_stores@[c].has(i) ==> self.sparse_stores@[c].slot(i)
                        == w2.sparse_stores@[c].slot(i)) by {
                    if c == cid as int {
                        assert(prevs[c].has(i) <==> w2.sparse_stores@[c].has(i));
                        assert(self.sparse_stores@[c].has(i) == prevs[c].has(i));
                    } else {
                        assert(self.sparse_stores@[c] == prevs[c]);
                    }
                }
            }
            k += 1;
        }
        proof {
            assert(sparse_ids@.take(sparse_ids@.len() as int) =~= sparse_ids@);
            assert(idx < self.entities.meta@.len());
            assert forall|k2: int|
                0 <= k2 < self.entities.free@.len() implies self.entities.free@[k2]
                != e.index by {
                assert(w0.entities.meta@[w0.entities.free@[k2] as int].location is None);
            }
        }
        self.entities.release(e.index);
        proof {
            lemma_despawn_post(w0, w1, w2, *self, e, sparse_ids@);
        }
        true
    }
}

/// After destruction's four stages (ledger, detach, sparse-cell drop,
/// identifier release) the invariant holds and every other entity is
/// untouched.
#[verifier::spinoff_prover]
pub proof fn lemma_despawn_post(
    w0: World,
    w1: World,
    w2: World,
    post: World,
    e: Entity,
    sparse_ids: Seq<usize>,
)
    requires
        w0.wf(),
        w0.live(e),
        w1.wf(),
        w1.live(e),
        // ledger stage
        registries_stable(w0, w1),
        w1.entities == w0.entities,
        w1.tables@ == w0.tables@,
        w1.archetypes@ == w0.archetypes@,
        w1.sparse_stores@ == w0.sparse_stores@,
        // detach stage
        w2.wf_registry(),
        w2.wf_tables(),
        w2.wf_archetypes(),
        w2.wf_bundles(),
        w2.wf_edges(),
        w2.entities.wf_free(),
        w2.wf_locations(),
        w2.wf_arch_entities(),
        w2.wf_table_rows(),
        w2.wf_sparse_except(e.index as int),
        registries_stable(w1, w2),
        w2.sparse_stores@ == w1.sparse_stores@,
        w2.removed@ == w1.removed@,
        w2.entities.free@ == w1.entities.free@,
        w2.entities.meta@.len() == w1.entities.meta@.len(),
        !w2.live_idx(e.index as int),
        w2.entities.meta@[e.index as int] == (EntityMeta {
            generation: e.generation,
            location: None::<EntityLocation>,
        }),
        forall|i: int| i != e.index as int ==> same_entity(w1, w2, i),
        // the dropped cells are exactly the shape's sparse components
        sparse_ids == w0.arch_of(e.index as int).sparse_components@,
        // cell-drop stage
        post.sparse_stores@.len() == w2.sparse_stores@.len(),
        forall|c: int|
            0 <= c < w2.sparse_stores@.len() && !sparse_ids.contains(c as usize)
                ==> #[trigger] post.sparse_stores@[c] == w2.sparse_stores@[c],
        forall|c: int|
            0 <= c < w2.sparse_stores@.len() && sparse_ids.contains(c as usize) ==> !(
            #[trigger] post.sparse_stores@[c]).has(e.index as int),
        forall|c: int, i: int|
            0 <= c < w2.sparse_stores@.len() && i != e.index as int ==> ((#[trigger] post
                .sparse_stores@[c].has(i)) <==> w2.sparse_stores@[c].has(i)) && (w2.sparse_stores@[
                c
            ].has(i) ==> post.sparse_stores@[c].slot(i) == w2.sparse_stores@[c].slot(i)),
        post.components == w2.components,
        post.archetypes@ == w2.archetypes@,
        post.tables@ == w2.tables@,
        post.removed@ == w2.removed@,
        post.bundles == w2.bundles,
        post.change_tick == w2.change_tick,
        post.last_change_tick == w2.last_change_tick,
        post.cache_misses == w2.cache_misses,
        // release stage
        post.entities.wf_free(),
        post.entities.meta@ == w2.entities.meta@.update(
            e.index as int,
            EntityMeta { generation: next_generation(e.generation), location: None },
        ),
        post.entities.free@ == w2.entities.free@.push(e.index),
    ensures
        post.wf(),
        !post.live(e),
        !post.live_idx(e.index as int),
        registries_stable(w0, post),
        forall|i: int| i != e.index as int ==> same_entity(w0, post, i),
{
    let idx = e.index as int;
    assert(w0.live_idx(idx));
    assert(w0.loc_ok(idx));
    let a0 = w0.loc(idx).archetype_id as int;
    assert(w0.wf_arch_at(a0));
    assert forall|t: int| 0 <= t < post.tables@.len() implies (#[trigger] post.tables@[t]).wf() by {
        assert(w2.tables@[t].wf());
    }
    lemma_stable_wf_parts(w2, post);
    assert forall|i: int| #[trigger] post.live_idx(i) implies post.loc_ok(i) by {
        assert(i != idx);
        assert(w2.live_idx(i));
        assert(w2.loc_ok(i));
    }
    assert(post.wf_locations());
    assert forall|a: int, r: int|
        #![trigger post.archetypes@[a].entities@[r]]
        0 <= a < post.archetypes@.len() && 0 <= r
            < post.archetypes@[a].entities@.len() implies post.arch_entry_ok(a, r) by {
        assert(w2.archetypes@[a].entities@[r] == w2.archetypes@[a].entities@[r]);
        assert(w2.arch_entry_ok(a, r));
        let j = w2.archetypes@[a].entities@[r].entity.index as int;
        assert(j != idx);
        assert(post.entities.meta@[j] == w2.entities.meta@[j]);
    }
    assert(post.wf_arch_entities());
    assert forall|t: int, r: int|
        #![trigger post.tables@[t].entity_ids@[r]]
        0 <= t < post.tables@.len() && 0 <= r
            < post.tables@[t].entity_ids@.len() implies post.table_row_ok(t, r) by {
        assert(w2.tables@[t].entity_ids@[r] == w2.tables@[t].entity_ids@[r]);
        assert(w2.table_row_ok(t, r));
        let j = w2.tables@[t].entity_ids@[r].index as int;
        assert(j != idx);
        assert(post.entities.meta@[j] == w2.entities.meta@[j]);
    }
    assert(post.wf_table_rows());
    assert forall|cid: usize| post.valid_cid(cid) implies #[trigger] post.wf_sparse_at_except(
        cid,
        -1,
    ) by {
        assert(w2.wf_sparse_at_except(cid, idx));
        if post.is_sparse(cid) {
            assert forall|i: int|
                i != -1 implies (#[trigger] post.sparse_stores@[cid as int].has(i)
                <==> post.sparse_expected(cid, i)) by {
                if i == idx {
                    assert(!post.live_idx(idx));
                    if sparse_ids.contains(cid) {
                        assert(!post.sparse_stores@[cid as int].has(idx));
                    } else {
                        assert(post.sparse_stores@[cid as int] == w2.sparse_stores@[cid as int]);
                        // In the pre-state the cell existed only if the
                        // shape carried the component.
                        assert(w0.wf_sparse_at_except(cid, -1));
                        assert(w0.sparse_stores@[cid as int].has(idx) <==> w0.sparse_expected(
                            cid,
                            idx,
                        ));
                    }
                } else {
                    assert(post.sparse_stores@[cid as int].has(i) <==> w2.sparse_stores@[
                        cid as int
                    ].has(i));
                    assert(w2.sparse_stores@[cid as int].has(i) <==> w2.sparse_expected(cid, i));
                    assert(post.live_idx(i) <==> w2.live_idx(i));
                    if post.live_idx(i) {
                        assert(post.loc(i) == w2.loc(i));
                        assert(post.arch_of(i).sparse_components@
                            == w2.arch_of(i).sparse_components@);
                    }
                }
            }
        } else {
            assert(!sparse_ids.contains(cid)) by {
                if sparse_ids.contains(cid) {
                    let k = choose|k: int| 0 <= k < sparse_ids.len() && sparse_ids[k] == cid;
                    assert(w0.is_sparse(w0.archetypes@[a0].sparse_components@[k]));
                }
            }
            assert(post.sparse_stores@[cid as int] == w2.sparse_stores@[cid as int]);
        }
    }
    assert(post.wf_sparse());
    assert(post.wf());
    assert forall|i: int| i != idx implies same_entity(w0, post, i) by {
        assert(same_entity(w0, w1, i)) by {
            if w0.live_idx(i) {
                assert(w1.arch_of(i) == w0.arch_of(i));
                assert forall|cid: usize| #[trigger] w0.has_comp(i, cid) implies w1.slot_at(i, cid)
                    == w0.slot_at(i, cid) by {}
            }
        }
        assert(same_entity(w1, w2, i));
        lemma_same_entity_trans(w0, w1, w2, i);
        assert(same_entity(w2, post, i)) by {
            assert(post.live_idx(i) <==> w2.live_idx(i));
            if 0 <= i < w2.entities.meta@.len() {
                assert(post.entities.meta@[i] == w2.entities.meta@[i]);
            }
            if w2.live_idx(i) {
                assert(post.loc(i) == w2.loc(i));
                assert(post.arch_of(i) == w2.arch_of(i));
                assert forall|cid: usize| #[trigger] w2.has_comp(i, cid) implies post.slot_at(
                    i,
                    cid,
                ) == w2.slot_at(i, cid) by {
                    if w2.is_sparse(cid) {
                        assert(w2.loc_ok(i));
                        let ai = w2.loc(i).archetype_id as int;
                        assert(w2.wf_arch_at(ai));
                        // A sparse component the entity has lies in its
                        // archetype's sparse set, so the cell exists.
                        assert(!w2.arch_of(i).table_components@.contains(cid)) by {
                            if w2.arch_of(i).table_components@.contains(cid) {
                                let k = choose|k: int|
                                    0 <= k < w2.arch_of(i).table_components@.len() && w2.arch_of(
                                        i,
                                    ).table_components@[k] == cid;
                                assert(!w2.is_sparse(w2.arch_of(i).table_components@[k]));
                            }
                        }
                        assert(w2.arch_of(i).sparse_components@.contains(cid));
                        assert(w2.valid_cid(cid)) by {
                            let k = choose|k: int|
                                0 <= k < w2.arch_of(i).sparse_components@.len() && w2.arch_of(
                                    i,
                                ).sparse_components@[k] == cid;
                            assert(w2.valid_cid(w2.arch_of(i).sparse_components@[k]));
                        }
                        assert(w2.wf_sparse_at_except(cid, idx));
                        assert(w2.sparse_expected(cid, i));
                        assert(w2.sparse_stores@[cid as int].has(i));
                        assert(post.sparse_stores@[cid as int].has(i));
                        assert(post.sparse_stores@[cid as int].slot(i) == w2.sparse_stores@[
                            cid as int
                        ].slot(i));
                    }
                }
            }
        }
        lemma_same_entity_trans(w0, w2, post, i);
    }
}

} // verus!
