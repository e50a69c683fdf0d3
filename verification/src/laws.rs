//! Laws that relate several operations of the store; each is stated over
//! the same spec views the operations' own contracts use, so Verus checks
//! that the contracts really compose.

use vstd::prelude::*;
use crate::component::StorageType;
use crate::entity::Entity;
use crate::sorted::{is_diff_set, is_union, lemma_sorted_unique};
use crate::storage::Val;
use crate::world::World;

verus! {

/// Round trip. `w0` is a store, `w1` the store after a bundle of fresh
/// values was inserted into live entity `e`, and `w2` the store after
/// the same bundle was strictly removed again, handing back `r`. If the
/// entity had none of the bundle's components to begin with, the removal
/// succeeds, hands back exactly the inserted values, and leaves the
/// entity in the archetype it occupied before the insertion.
pub proof fn lemma_insert_remove_round_trip(
    w0: World,
    w1: World,
    w2: World,
    e: Entity,
    b: usize,
    values: Seq<Val>,
    r: Option<Seq<Val>>,
)
    requires
        w0.wf(),
        w0.live(e),
        w0.valid_bundle(b as int),
        w1.wf(),
        w1.live(e),
        w2.wf(),
        w2.live(e),
        // the law's own hypothesis: the bundle was disjoint from the shape
        w0.bundles.list@[b as int].component_ids@.len() > 0,
        values.len() == w0.bundles.list@[b as int].component_ids@.len(),
        forall|k: int|
            0 <= k < w0.bundles.list@[b as int].component_ids@.len() ==> !w0.has_comp(
                e.index as int,
                #[trigger] w0.bundles.list@[b as int].component_ids@[k],
            ),
        // what the insertion's contract gave
        w1.bundles == w0.bundles,
        is_union(
            w1.arch_of(e.index as int).table_components@,
            w0.arch_of(e.index as int).table_components@,
            w0.bundles.list@[b as int].table_components@,
        ),
        is_union(
            w1.arch_of(e.index as int).sparse_components@,
            w0.arch_of(e.index as int).sparse_components@,
            w0.bundles.list@[b as int].sparse_components@,
        ),
        forall|k: int|
            0 <= k < w0.bundles.list@[b as int].component_ids@.len() ==> w1.value_at(
                e.index as int,
                #[trigger] w0.bundles.list@[b as int].component_ids@[k],
            ) == values[k],
        // what the strict removal's contract gave
        (r is Some <==> w1.bundle_subset(
            w1.loc(e.index as int).archetype_id as int,
            b as int,
        )),
        (r is Some ==> r.unwrap().len() == w1.bundles.list@[b as int].component_ids@.len()),
        (r is Some ==> (forall|k: int|
            0 <= k < w1.bundles.list@[b as int].component_ids@.len() ==> r.unwrap()[k]
                == w1.value_at(
                e.index as int,
                #[trigger] w1.bundles.list@[b as int].component_ids@[k],
            ))),
        (r is Some ==> is_diff_set(
            w2.arch_of(e.index as int).table_components@,
            w1.arch_of(e.index as int).table_components@,
            w1.bundles.list@[b as int].component_ids@,
        ) && is_diff_set(
            w2.arch_of(e.index as int).sparse_components@,
            w1.arch_of(e.index as int).sparse_components@,
            w1.bundles.list@[b as int].component_ids@,
        )),
        // the archetype registry is append-only: the entity's first shape
        // persists unchanged
        (w0.loc(e.index as int).archetype_id as int) < w2.archetypes@.len(),
        w2.archetypes@[w0.loc(e.index as int).archetype_id as int].table_components@
            == w0.arch_of(e.index as int).table_components@,
        w2.archetypes@[w0.loc(e.index as int).archetype_id as int].sparse_components@
            == w0.arch_of(e.index as int).sparse_components@,
    ensures
        r is Some,
        forall|k: int| 0 <= k < values.len() ==> values.len() == r.unwrap().len() && r.unwrap()[k]
            == values[k],
        w2.loc(e.index as int).archetype_id == w0.loc(e.index as int).archetype_id,
{
    let idx = e.index as int;
    let bids = w0.bundles.list@[b as int].component_ids@;
    let btc = w0.bundles.list@[b as int].table_components@;
    let bsc = w0.bundles.list@[b as int].sparse_components@;
    let a0 = w0.loc(idx).archetype_id as int;
    assert(w0.live_idx(idx));
    assert(w0.loc_ok(idx));
    assert(w0.wf_arch_at(a0));
    assert(w0.wf_bundle_at(b as int));
    // After the insertion every bundle component is in the shape, so the
    // strict removal applies.
    assert forall|k: int| 0 <= k < bids.len() implies w1.archetypes@[
        w1.loc(idx).archetype_id as int
    ].has_spec(#[trigger] w1.bundles.list@[b as int].component_ids@[k]) by {
        let cid = bids[k];
        assert(bids.contains(cid));
        if w0.is_sparse(cid) {
            assert(bsc.contains(cid)) by {
                crate::component::lemma_filter_storage_contains(
                    w0.components.infos@,
                    bids,
                    StorageType::SparseSet,
                );
            }
            assert(w1.arch_of(idx).sparse_components@.contains(cid));
        } else {
            assert(btc.contains(cid)) by {
                crate::component::lemma_filter_storage_contains(
                    w0.components.infos@,
                    bids,
                    StorageType::Table,
                );
            }
            assert(w1.arch_of(idx).table_components@.contains(cid));
        }
        assert(w1.live_idx(idx));
        assert(w1.loc_ok(idx));
    }
    assert(w1.bundle_subset(w1.loc(idx).archetype_id as int, b as int));
    assert(r is Some);
    // The returned values are the inserted ones.
    assert forall|k: int| 0 <= k < values.len() implies values.len() == r.unwrap().len()
        && r.unwrap()[k] == values[k] by {
        assert(r.unwrap().len() == bids.len());
        if k < bids.len() {
            assert(r.unwrap()[k] == w1.value_at(idx, bids[k]));
        }
    }
    // Removing the union of the shape and a disjoint bundle restores the
    // shape exactly.
    assert(w2.live_idx(idx));
    assert(w2.loc_ok(idx));
    let d = w2.loc(idx).archetype_id as int;
    assert forall|x: usize| #![auto]
        w2.arch_of(idx).table_components@.contains(x) <==> w0.arch_of(
        idx,
    ).table_components@.contains(x) by {
        if w0.arch_of(idx).table_components@.contains(x) {
            assert(w0.has_comp(idx, x));
            assert(!bids.contains(x)) by {
                if bids.contains(x) {
                    let m = choose|m: int| 0 <= m < bids.len() && bids[m] == x;
                    assert(!w0.has_comp(idx, bids[m]));
                }
            }
            assert(w1.arch_of(idx).table_components@.contains(x));
        }
        if w2.arch_of(idx).table_components@.contains(x) {
            assert(w1.arch_of(idx).table_components@.contains(x) && !bids.contains(x));
            if btc.contains(x) {
                crate::component::lemma_filter_storage_weak_contains(
                    w0.components.infos@,
                    bids,
                    StorageType::Table,
                    x,
                );
            }
        }
    }
    assert forall|x: usize| #![auto]
        w2.arch_of(idx).sparse_components@.contains(x) <==> w0.arch_of(
        idx,
    ).sparse_components@.contains(x) by {
        if w0.arch_of(idx).sparse_components@.contains(x) {
            assert(w0.has_comp(idx, x));
            assert(!bids.contains(x)) by {
                if bids.contains(x) {
                    let m = choose|m: int| 0 <= m < bids.len() && bids[m] == x;
                    assert(!w0.has_comp(idx, bids[m]));
                }
            }
            assert(w1.arch_of(idx).sparse_components@.contains(x));
        }
        if w2.arch_of(idx).sparse_components@.contains(x) {
            assert(w1.arch_of(idx).sparse_components@.contains(x) && !bids.contains(x));
            if bsc.contains(x) {
                crate::component::lemma_filter_storage_weak_contains(
                    w0.components.infos@,
                    bids,
                    StorageType::SparseSet,
                    x,
                );
            }
        }
    }
    assert(w2.wf_arch_at(d));
    lemma_sorted_unique(
        w2.arch_of(idx).table_components@,
        w2.archetypes@[a0].table_components@,
    );
    lemma_sorted_unique(
        w2.arch_of(idx).sparse_components@,
        w2.archetypes@[a0].sparse_components@,
    );
    // Two archetypes with the same component combination are the same
    // archetype.
    if d != a0 {
        if d < a0 {
            assert(!(w2.archetypes@[d].table_components@ == w2.archetypes@[a0].table_components@
                && w2.archetypes@[d].sparse_components@
                == w2.archetypes@[a0].sparse_components@));
        } else {
            assert(!(w2.archetypes@[a0].table_components@ == w2.archetypes@[d].table_components@
                && w2.archetypes@[a0].sparse_components@
                == w2.archetypes@[d].sparse_components@));
        }
    }
}

} // verus!
