//! Rows as association lists, and the two row transformations the
//! structural mutator needs: merging a bundle's fresh values into an
//! existing table row (insertion) and dropping a bundle's columns from
//! one (removal).

use vstd::prelude::*;
use crate::sorted::{
    contains_value, index_of_id, is_diff_set, lemma_index_of_id, lemma_push_contains,
    lemma_seq_diff_contains, lemma_seq_diff_sorted, lemma_take_plus_one, seq_diff, sorted_strict,
};
use crate::storage::{Slot, Val};

verus! {

/// The component ids of a row, in row order.
pub open spec fn row_ids(r: Seq<(usize, Slot)>) -> Seq<usize> {
    r.map_values(|p: (usize, Slot)| p.0)
}

pub open spec fn row_has(r: Seq<(usize, Slot)>, cid: usize) -> bool {
    row_ids(r).contains(cid)
}

pub open spec fn row_index_of(r: Seq<(usize, Slot)>, cid: usize) -> int {
    choose|k: int| 0 <= k < r.len() && r[k].0 == cid
}

/// The slot a row stores for `cid`; meaningful when `row_has`.
pub open spec fn row_val(r: Seq<(usize, Slot)>, cid: usize) -> Slot {
    r[row_index_of(r, cid)].1
}

/// In a row with strictly sorted ids, each entry is the entry of its id.
pub proof fn lemma_row_index(r: Seq<(usize, Slot)>, k: int)
    requires
        sorted_strict(row_ids(r)),
        0 <= k < r.len(),
    ensures
        row_has(r, r[k].0),
        row_index_of(r, r[k].0) == k,
        row_val(r, r[k].0) == r[k].1,
{
    assert(row_ids(r)[k] == r[k].0);
    assert(row_ids(r).contains(r[k].0));
    let k2 = row_index_of(r, r[k].0);
    assert(0 <= k2 < r.len() && r[k2].0 == r[k].0);
    if k2 < k {
        assert(row_ids(r)[k2] < row_ids(r)[k]);
    } else if k < k2 {
        assert(row_ids(r)[k] < row_ids(r)[k2]);
    }
}

/// Merges a bundle's `(component id, value)` pairs into a table row: a
/// pair whose component the row already stores overwrites the value and
/// stamps it changed (its "added" stamp survives); a new
/// component enters stamped added and changed at the current tick.
pub(crate) fn merge_row(
    base: &Vec<(usize, Slot)>,
    adds: &Vec<(usize, Val)>,
    tick: u32,
) -> (out: Vec<(usize, Slot)>)
    requires
        sorted_strict(row_ids(base@)),
        sorted_strict(row_ids_v(adds@)),
    ensures
        sorted_strict(row_ids(out@)),
        forall|x: usize|
            #![trigger row_has(out@, x)]
            row_has(out@, x) <==> (row_has(base@, x) || row_ids_v(adds@).contains(x)),
        forall|k: int|
            0 <= k < adds@.len() ==> row_val(out@, (#[trigger] adds@[k]).0) == (Slot {
                value: adds@[k].1,
                added: if row_has(base@, adds@[k].0) {
                    row_val(base@, adds@[k].0).added
                } else {
                    tick
                },
                changed: tick,
            }),
        forall|x: usize|
            #![trigger row_val(out@, x)]
            row_has(base@, x) && !row_ids_v(adds@).contains(x) ==> row_val(out@, x) == row_val(
                base@,
                x,
            ),
{
    let mut out: Vec<(usize, Slot)> = Vec::new();
    let mut i: usize = 0;
    let mut j: usize = 0;
    while i < base.len() || j < adds.len()
        invariant
            sorted_strict(row_ids(base@)),
            sorted_strict(row_ids_v(adds@)),
            i <= base@.len(),
            j <= adds@.len(),
            sorted_strict(row_ids(out@)),
            forall|x: usize|
                #![trigger row_ids(out@).contains(x)]
                row_ids(out@).contains(x) <==> (row_ids(base@).take(i as int).contains(x)
                    || row_ids_v(adds@).take(j as int).contains(x)),
            out@.len() > 0 && i < base@.len() ==> out@.last().0 < base@[i as int].0,
            out@.len() > 0 && j < adds@.len() ==> out@.last().0 < adds@[j as int].0,
            forall|k: int|
                0 <= k < out@.len() ==> ((#[trigger] out@[k]).1 == (if row_ids_v(adds@).contains(
                    out@[k].0,
                ) {
                    Slot {
                        value: adds@[index_of_id(row_ids_v(adds@), out@[k].0)].1,
                        added: if row_has(base@, out@[k].0) {
                            row_val(base@, out@[k].0).added
                        } else {
                            tick
                        },
                        changed: tick,
                    }
                } else {
                    row_val(base@, out@[k].0)
                })),
        decreases base@.len() - i + adds@.len() - j,
    {
        let ghost out0 = out@;
        let ghost i0 = i as int;
        let ghost j0 = j as int;
        let entry: (usize, Slot);
        if i < base.len() && (j >= adds.len() || base[i].0 <= adds[j].0) {
            let (c, s) = base[i];
            proof {
                lemma_row_index(base@, i0);
                assert(row_ids(base@)[i0] == c);
            }
            if j < adds.len() && adds[j].0 == c {
                // overwrite in place of the base entry
                entry = (c, Slot { value: adds[j].1, added: s.added, changed: tick });
                proof {
                    assert(row_ids_v(adds@)[j0] == c);
                    lemma_index_of_id(row_ids_v(adds@), j0);
                }
                j += 1;
            } else {
                entry = (c, s);
                proof {
                    // c is in no add pair: later pairs are larger, earlier
                    // ones are smaller than every id not yet merged.
                    assert(!row_ids_v(adds@).contains(c)) by {
                        if row_ids_v(adds@).contains(c) {
                            let m = choose|m: int|
                                0 <= m < row_ids_v(adds@).len() && row_ids_v(adds@)[m] == c;
                            if m >= j0 {
                                if m > j0 {
                                    assert(row_ids_v(adds@)[j0] < row_ids_v(adds@)[m]);
                                }
                            } else {
                                assert(row_ids_v(adds@).take(j0).contains(c)) by {
                                    assert(row_ids_v(adds@).take(j0)[m] == c);
                                }
                                assert(row_has(out0, c));
                                let n = choose|n: int| 0 <= n < out0.len() && row_ids(out0)[n]
                                    == c;
                                assert(row_ids(out0)[n] <= row_ids(out0)[out0.len() - 1]);
                            }
                        }
                    }
                }
            }
            i += 1;
        } else {
            let (c, v) = adds[j];
            proof {
                assert(row_ids_v(adds@)[j0] == c);
                lemma_index_of_id(row_ids_v(adds@), j0);
                assert(!row_has(base@, c)) by {
                    if row_has(base@, c) {
                        let m = choose|m: int|
                            0 <= m < row_ids(base@).len() && row_ids(base@)[m] == c;
                        if m >= i0 {
                            assert(i0 < base@.len());
                            if m > i0 {
                                assert(row_ids(base@)[i0] < row_ids(base@)[m]);
                            }
                        } else {
                            assert(row_ids(base@).take(i0).contains(c)) by {
                                assert(row_ids(base@).take(i0)[m] == c);
                            }
                            assert(row_has(out0, c));
                            let n = choose|n: int| 0 <= n < out0.len() && row_ids(out0)[n] == c;
                            assert(row_ids(out0)[n] <= row_ids(out0)[out0.len() - 1]);
                        }
                    }
                }
            }
            entry = (c, Slot { value: v, added: tick, changed: tick });
            j += 1;
        }
        proof {
            assert forall|k: int| 0 <= k < out0.len() implies row_ids(out0)[k] < entry.0 by {
                assert(row_ids(out0)[k] <= row_ids(out0)[out0.len() - 1]);
            }
        }
        out.push(entry);
        proof {
            assert(row_ids(out@) =~= row_ids(out0).push(entry.0));
            lemma_push_contains(row_ids(out0), entry.0, row_ids(out@));
            if i as int != i0 {
                lemma_take_plus_one(row_ids(base@), i0, row_ids(base@).take(i as int));
            }
            if j as int != j0 {
                lemma_take_plus_one(row_ids_v(adds@), j0, row_ids_v(adds@).take(j as int));
            }
            assert forall|p: int, q: int|
                0 <= p < q < row_ids(out@).len() implies row_ids(out@)[p] < row_ids(out@)[q] by {
                if q < out0.len() {
                    assert(row_ids(out0)[p] < row_ids(out0)[q]);
                } else {
                    assert(row_ids(out@)[q] == entry.0);
                    if p < out0.len() {
                        assert(row_ids(out0)[p] < entry.0);
                    }
                }
            }
            if i as int != i0 && i < base@.len() {
                assert(row_ids(base@)[i0] < row_ids(base@)[i as int]);
            }
            if j as int != j0 && j < adds@.len() {
                assert(row_ids_v(adds@)[j0] < row_ids_v(adds@)[j as int]);
            }
            assert(out@.last() == entry);
            assert forall|k: int| 0 <= k < out@.len() implies ((#[trigger] out@[k]).1 == (
            if row_ids_v(adds@).contains(out@[k].0) {
                Slot {
                    value: adds@[index_of_id(row_ids_v(adds@), out@[k].0)].1,
                    added: if row_has(base@, out@[k].0) {
                        row_val(base@, out@[k].0).added
                    } else {
                        tick
                    },
                    changed: tick,
                }
            } else {
                row_val(base@, out@[k].0)
            })) by {
                if k < out0.len() {
                    assert(out@[k] == out0[k]);
                }
            }
        }
    }
    proof {
        assert(row_ids(base@).take(row_ids(base@).len() as int) =~= row_ids(base@));
        assert(row_ids_v(adds@).take(row_ids_v(adds@).len() as int) =~= row_ids_v(adds@));
        assert forall|k: int| 0 <= k < adds@.len() implies row_val(out@, (#[trigger] adds@[k]).0)
            == (Slot {
            value: adds@[k].1,
            added: if row_has(base@, adds@[k].0) {
                row_val(base@, adds@[k].0).added
            } else {
                tick
            },
            changed: tick,
        }) by {
            let c = adds@[k].0;
            assert(row_ids_v(adds@)[k] == c);
            assert(row_ids_v(adds@).contains(c));
            lemma_index_of_id(row_ids_v(adds@), k);
            assert(row_has(out@, c));
            let n = row_index_of(out@, c);
            assert(0 <= n < out@.len() && out@[n].0 == c);
            lemma_row_index(out@, n);
        }
        assert forall|x: usize|
            row_has(base@, x) && !row_ids_v(adds@).contains(x) implies #[trigger] row_val(
            out@,
            x,
        ) == row_val(base@, x) by {
            assert(row_has(out@, x));
            let n = row_index_of(out@, x);
            assert(0 <= n < out@.len() && out@[n].0 == x);
            lemma_row_index(out@, n);
        }
    }
    out
}

/// The component ids of a bundle's value pairs.
pub open spec fn row_ids_v(r: Seq<(usize, Val)>) -> Seq<usize> {
    r.map_values(|p: (usize, Val)| p.0)
}

/// Drops from a table row every column named in `remove`, keeping the
/// surviving slots (values and stamps) untouched.
pub(crate) fn filter_row(base: &Vec<(usize, Slot)>, remove: &Vec<usize>) -> (out: Vec<
    (usize, Slot),
>)
    requires
        sorted_strict(row_ids(base@)),
    ensures
        sorted_strict(row_ids(out@)),
        row_ids(out@) == seq_diff(row_ids(base@), remove@),
        forall|x: usize|
            #![trigger row_has(out@, x)]
            row_has(out@, x) <==> (row_has(base@, x) && !remove@.contains(x)),
        forall|x: usize|
            #![trigger row_val(out@, x)]
            row_has(out@, x) ==> row_val(out@, x) == row_val(base@, x),
{
    let mut out: Vec<(usize, Slot)> = Vec::new();
    let mut i: usize = 0;
    while i < base.len()
        invariant
            sorted_strict(row_ids(base@)),
            i <= base@.len(),
            row_ids(out@) == seq_diff(row_ids(base@).take(i as int), remove@),
            forall|k: int|
                0 <= k < out@.len() ==> row_has(base@, (#[trigger] out@[k]).0) && out@[k].1
                    == row_val(base@, out@[k].0),
        decreases base@.len() - i,
    {
        let (c, s) = base[i];
        proof {
            assert(row_ids(base@)[i as int] == c);
            assert(row_ids(base@).take(i + 1).drop_last() =~= row_ids(base@).take(i as int));
            assert(row_ids(base@).take(i + 1).last() == c);
            lemma_row_index(base@, i as int);
        }
        if !contains_value(remove, c) {
            let ghost out0 = out@;
            out.push((c, s));
            proof {
                assert(row_ids(out@) =~= row_ids(out0).push(c));
            }
        }
        i += 1;
    }
    proof {
        assert(row_ids(base@).take(base@.len() as int) =~= row_ids(base@));
        lemma_seq_diff_sorted(row_ids(base@), remove@);
        lemma_seq_diff_contains(row_ids(base@), remove@);
        assert forall|x: usize|
            row_has(out@, x) implies #[trigger] row_val(out@, x) == row_val(base@, x) by {
            let n = row_index_of(out@, x);
            assert(0 <= n < out@.len() && out@[n].0 == x);
            lemma_row_index(out@, n);
        }
    }
    out
}

use crate::component::{next_tick, StorageType};
use crate::entity::Entity;
use crate::mutate::{lemma_sparse_only_parts, lemma_wf_counters_only, same_entity};
use crate::ops::lemma_same_entity_trans;
use crate::sorted::{copy_ids, is_union, lemma_sorted_unique};
use crate::world::World;

/// Linear lookup of a component's slot in a detached row.
pub(crate) fn row_get(row: &Vec<(usize, Slot)>, cid: usize) -> (r: Option<Slot>)
    requires
        sorted_strict(row_ids(row@)),
    ensures
        r == (if row_has(row@, cid) {
            Some(row_val(row@, cid))
        } else {
            None::<Slot>
        }),
{
    let mut k: usize = 0;
    while k < row.len()
        invariant
            sorted_strict(row_ids(row@)),
            k <= row@.len(),
            forall|m: int| 0 <= m < k ==> (#[trigger] row@[m]).0 != cid,
        decreases row@.len() - k,
    {
        if row[k].0 == cid {
            proof {
                lemma_row_index(row@, k as int);
            }
            return Some(row[k].1);
        }
        k += 1;
    }
    proof {
        if row_has(row@, cid) {
            let m = choose|m: int| 0 <= m < row_ids(row@).len() && row_ids(row@)[m] == cid;
            assert(row@[m].0 == cid);
        }
    }
    None
}

impl World {
    /// The bundle's table-backed `(id, value)` pairs, in canonical order.
    pub(crate) fn split_table_pairs(&self, bids: &Vec<usize>, values: &Vec<Val>) -> (out: Vec<
        (usize, Val),
    >)
        requires
            sorted_strict(bids@),
            forall|k: int| 0 <= k < bids@.len() ==> self.valid_cid(#[trigger] bids@[k]),
            values@.len() == bids@.len(),
        ensures
            row_ids_v(out@) == crate::component::seq_filter_storage(
                self.components.infos@,
                bids@,
                StorageType::Table,
            ),
            forall|m: int|
                0 <= m < out@.len() ==> (#[trigger] out@[m]).1 == values@[index_of_id(
                    bids@,
                    out@[m].0,
                )],
    {
        let mut out: Vec<(usize, Val)> = Vec::new();
        let mut k: usize = 0;
        while k < bids.len()
            invariant
                sorted_strict(bids@),
                forall|j: int| 0 <= j < bids@.len() ==> self.valid_cid(#[trigger] bids@[j]),
                values@.len() == bids@.len(),
                k <= bids@.len(),
                row_ids_v(out@) == crate::component::seq_filter_storage(
                    self.components.infos@,
                    bids@.take(k as int),
                    StorageType::Table,
                ),
                forall|m: int|
                    0 <= m < out@.len() ==> (#[trigger] out@[m]).1 == values@[index_of_id(
                        bids@,
                        out@[m].0,
                    )],
            decreases bids@.len() - k,
        {
            let cid = bids[k];
            proof {
                assert(bids@.take(k + 1).drop_last() =~= bids@.take(k as int));
                assert(bids@.take(k + 1).last() == cid);
                lemma_index_of_id(bids@, k as int);
            }
            if self.components.infos[cid].storage == StorageType::Table {
                let ghost out0 = out@;
                out.push((cid, values[k]));
                proof {
                    assert(row_ids_v(out@) =~= row_ids_v(out0).push(cid));
                }
            }
            k += 1;
        }
        proof {
            assert(bids@.take(bids@.len() as int) =~= bids@);
        }
        out
    }

    /// Adds a bundle of components to a live entity, overwriting any it
    /// already has: the destination shape is the component-set union
    /// (resolved through the edge cache), existing values move with the
    /// entity, the bundle's values are written with "changed" stamped at
    /// the fresh tick ("added" too for components the entity lacked), and
    /// the location directory is updated.
    #[verifier::rlimit(50)]
    #[verifier::spinoff_prover]
    pub fn insert_bundle(&mut self, e: Entity, b: usize, values: &Vec<Val>)
        requires
            old(self).wf(),
            old(self).live(e),
            old(self).valid_bundle(b as int),
            values@.len() == old(self).bundles.list@[b as int].component_ids@.len(),
        ensures
            final(self).wf(),
            final(self).live(e),
            final(self).change_tick == next_tick(old(self).change_tick),
            is_union(
                final(self).arch_of(e.index as int).table_components@,
                old(self).arch_of(e.index as int).table_components@,
                old(self).bundles.list@[b as int].table_components@,
            ),
            is_union(
                final(self).arch_of(e.index as int).sparse_components@,
                old(self).arch_of(e.index as int).sparse_components@,
                old(self).bundles.list@[b as int].sparse_components@,
            ),
            forall|k: int|
                0 <= k < old(self).bundles.list@[b as int].component_ids@.len() ==> final(self).slot_at(
                    e.index as int,
                    #[trigger] old(self).bundles.list@[b as int].component_ids@[k],
                ) == (Slot {
                    value: values@[k],
                    added: if old(self).has_comp(
                        e.index as int,
                        old(self).bundles.list@[b as int].component_ids@[k],
                    ) {
                        old(self).slot_at(
                            e.index as int,
                            old(self).bundles.list@[b as int].component_ids@[k],
                        ).added
                    } else {
                        next_tick(old(self).change_tick)
                    },
                    changed: next_tick(old(self).change_tick),
                }),
            forall|cid: usize|
                #![trigger final(self).slot_at(e.index as int, cid)]
                old(self).has_comp(e.index as int, cid) && !old(self).bundles.list@[
                    b as int
                ].component_ids@.contains(cid) ==> final(self).slot_at(e.index as int, cid) == old(self).slot_at(e.index as int, cid),
            forall|i: int| i != e.index as int ==> same_entity(*old(self), *final(self), i),
            final(self).removed@ == old(self).removed@,
            final(self).bundles == old(self).bundles,
            final(self).components == old(self).components,
            final(self).entities.meta@.len() == old(self).entities.meta@.len(),
            final(self).entities.meta@[e.index as int].generation == e.generation,
            final(self).entities.free@ == old(self).entities.free@,
    {
        let ghost w0 = *old(self);
        let tick = self.increment_change_tick();
        let ghost w1 = *self;
        proof {
            lemma_wf_counters_only(w0, w1);
        }
        let l = self.entities.get(e).unwrap();
        let ghost a0 = l.archetype_id as int;
        proof {
            assert(w1.live_idx(e.index as int));
            assert(w1.loc_ok(e.index as int));
        }
        let dest = self.resolve_add(l.archetype_id, b);
        let ghost w2 = *self;
        let bids = copy_ids(&self.bundles.list[b].component_ids);
        let ghost idx = e.index as int;
        proof {
            assert(w0.wf_bundle_at(b as int));
            assert(w2.live_idx(idx));
            assert(w2.loc(idx) == w0.loc(idx));
            assert(w2.loc_ok(idx));
            assert(w2.wf_arch_at(a0));
            assert(w2.wf_arch_at(dest as int));
        }
        // Detach the entity; its sparse cells stay put.
        let row = self.detach(e);
        let ghost w3 = *self;
        // Write the bundle's sparse values into their per-component cells.
        let mut k: usize = 0;
        while k < bids.len()
            invariant
                idx == e.index as int,
                w3.wf_sparse_except(idx),
                w2.wf(),
                bids@ == w2.bundles.list@[b as int].component_ids@,
                values@.len() == bids@.len(),
                sorted_strict(bids@),
                forall|j: int| 0 <= j < bids@.len() ==> w2.valid_cid(#[trigger] bids@[j]),
                k <= bids@.len(),
                w2.components == w3.components,
                self.sparse_stores@.len() == w3.sparse_stores@.len(),
                w3.sparse_stores@.len() == w3.n_components(),
                w3.components == w2.components,
                // processed sparse ids now hold the bundle's value
                forall|j: int|
                    0 <= j < k && w2.is_sparse(bids@[j]) ==> (#[trigger] self.sparse_stores@[
                        bids@[j] as int
                    ]).has(idx) && self.sparse_stores@[bids@[j] as int].slot(idx) == (Slot {
                        value: values@[j],
                        added: if w3.sparse_stores@[bids@[j] as int].has(idx) {
                            w3.sparse_stores@[bids@[j] as int].slot(idx).added
                        } else {
                            tick
                        },
                        changed: tick,
                    }),
                // untouched stores unchanged
                forall|c: int|
                    0 <= c < w3.sparse_stores@.len() && !bids@.take(k as int).contains(c as usize)
                        ==> #[trigger] self.sparse_stores@[c] == w3.sparse_stores@[c],
                forall|c: int|
                    0 <= c < w3.sparse_stores@.len() && !w3.is_sparse(c as usize)
                        ==> #[trigger] self.sparse_stores@[c] == w3.sparse_stores@[c],
                // other indices unchanged everywhere
                forall|c: int, i: int|
                    0 <= c < w3.sparse_stores@.len() && i != idx ==> ((#[trigger] self
                        .sparse_stores@[c].has(i)) <==> w3.sparse_stores@[c].has(i)) && (
                    w3.sparse_stores@[c].has(i) ==> self.sparse_stores@[c].slot(i)
                        == w3.sparse_stores@[c].slot(i)),
                self.components == w3.components,
                self.entities == w3.entities,
                self.archetypes@ == w3.archetypes@,
                self.tables@ == w3.tables@,
                self.removed@ == w3.removed@,
                self.bundles == w3.bundles,
                self.change_tick == w3.change_tick,
                self.last_change_tick == w3.last_change_tick,
                self.cache_misses == w3.cache_misses,
            decreases bids@.len() - k,
        {
            let cid = bids[k];
            proof {
                lemma_take_plus_one(bids@, k as int, bids@.take(k as int + 1));
                assert(!bids@.take(k as int).contains(cid)) by {
                    if bids@.take(k as int).contains(cid) {
                        let m = choose|m: int| 0 <= m < k as int && bids@.take(k as int)[m]
                            == cid;
                        assert(bids@[m] == cid);
                    }
                }
            }
            if self.components.infos[cid].storage == StorageType::SparseSet {
                let existing = self.sparse_stores[cid].get(e.index);
                let slot = match existing {
                    Some(c0) => Slot { value: values[k], added: c0.added, changed: tick },
                    None => Slot { value: values[k], added: tick, changed: tick },
                };
                let ghost prevs = self.sparse_stores@;
                let st = &mut self.sparse_stores[cid];
                st.insert_cell(e.index, slot);
                proof {
                    assert forall|c: int|
                        0 <= c < w3.sparse_stores@.len() && !bids@.take(k as int + 1).contains(
                            c as usize,
                        ) implies #[trigger] self.sparse_stores@[c] == w3.sparse_stores@[c] by {
                        assert(c != cid as int);
                        assert(self.sparse_stores@[c] == prevs[c]);
                    }
                    assert forall|j: int|
                        0 <= j < k as int + 1 && w2.is_sparse(bids@[j]) implies (
                    #[trigger] self.sparse_stores@[bids@[j] as int]).has(idx)
                        && self.sparse_stores@[bids@[j] as int].slot(idx) == (Slot {
                        value: values@[j],
                        added: if w3.sparse_stores@[bids@[j] as int].has(idx) {
                            w3.sparse_stores@[bids@[j] as int].slot(idx).added
                        } else {
                            tick
                        },
                        changed: tick,
                    }) by {
                        if j < k as int {
                            assert(bids@[j] != cid);
                            assert(self.sparse_stores@[bids@[j] as int] == prevs[bids@[
                                j
                            ] as int]);
                        } else {
                            assert(prevs[cid as int] == w3.sparse_stores@[cid as int]);
                        }
                    }
                    assert forall|c: int, i: int|
                        0 <= c < w3.sparse_stores@.len() && i != idx implies ((#[trigger] self
                            .sparse_stores@[c].has(i)) <==> w3.sparse_stores@[c].has(i)) && (
                        w3.sparse_stores@[c].has(i) ==> self.sparse_stores@[c].slot(i)
                            == w3.sparse_stores@[c].slot(i)) by {
                        if c == cid as int {
                            assert(prevs[c].has(i) <==> w3.sparse_stores@[c].has(i));
                            assert(self.sparse_stores@[c].has(i) == prevs[c].has(i));
                        } else {
                            assert(self.sparse_stores@[c] == prevs[c]);
                        }
                    }
                    assert forall|c: int|
                        0 <= c < w3.sparse_stores@.len() && !w3.is_sparse(
                            c as usize,
                        ) implies #[trigger] self.sparse_stores@[c] == w3.sparse_stores@[c] by {
                        assert(c != cid as int);
                        assert(self.sparse_stores@[c] == prevs[c]);
                    }
                }
            } else {
                proof {
                    assert forall|c: int|
                        0 <= c < w3.sparse_stores@.len() && !bids@.take(k as int + 1).contains(
                            c as usize,
                        ) implies #[trigger] self.sparse_stores@[c] == w3.sparse_stores@[c] by {}
                }
            }
            k += 1;
        }
        let ghost w4 = *self;
        // Merge the bundle's table values into the detached row.
        let adds = self.split_table_pairs(&bids, values);
        let ghost btc = w0.bundles.list@[b as int].table_components@;
        let ghost bsc = w0.bundles.list@[b as int].sparse_components@;
        let ghost atc = w0.archetypes@[a0].table_components@;
        let ghost asc = w0.archetypes@[a0].sparse_components@;
        proof {
            assert(row_ids(row@) =~= atc);
            crate::component::lemma_filter_storage_sorted(
                w0.components.infos@,
                bids@,
                StorageType::Table,
            );
            assert(w4.components.infos@ == w0.components.infos@);
            assert(row_ids_v(adds@) == btc);
        }
        let new_row = merge_row(&row, &adds, tick);
        proof {
            // The merged row's ids are exactly the destination's table set.
            assert forall|x: usize| #![auto]
                row_ids(new_row@).contains(x) <==> w2.archetypes@[
                dest as int
            ].table_components@.contains(x) by {
                assert(row_has(new_row@, x) <==> (row_has(row@, x) || row_ids_v(adds@).contains(
                    x,
                )));
            }
            lemma_sorted_unique(
                row_ids(new_row@),
                w2.archetypes@[dest as int].table_components@,
            );
            lemma_sparse_only_parts(w3, *self, idx);
            // The entity's cells now form exactly the destination's
            // sparse set.
            assert forall|cid: usize|
                self.valid_cid(cid) && self.is_sparse(cid) implies ((#[trigger] self
                .sparse_stores@[cid as int].has(idx)) <==> w2.archetypes@[
                dest as int
            ].sparse_components@.contains(cid)) by {
                assert(bids@.take(bids@.len() as int) =~= bids@);
                if bids@.contains(cid) {
                    let j = choose|j: int| 0 <= j < bids@.len() && bids@[j] == cid;
                    assert(w2.is_sparse(bids@[j]));
                    assert(self.sparse_stores@[cid as int].has(idx));
                    assert(bsc.contains(cid)) by {
                        crate::component::lemma_filter_storage_contains(
                            w0.components.infos@,
                            bids@,
                            StorageType::SparseSet,
                        );
                    }
                } else {
                    assert(self.sparse_stores@[cid as int] == w3.sparse_stores@[cid as int]);
                    assert(w3.sparse_stores@[cid as int] == w2.sparse_stores@[cid as int]);
                    assert(w2.wf_sparse_at_except(cid, -1));
                    assert(w2.sparse_stores@[cid as int].has(idx) <==> w2.sparse_expected(
                        cid,
                        idx,
                    ));
                    assert(!bsc.contains(cid)) by {
                        if bsc.contains(cid) {
                            crate::component::lemma_filter_storage_weak_contains(
                                w0.components.infos@,
                                bids@,
                                StorageType::SparseSet,
                                cid,
                            );
                        }
                    }
                }
            }
            assert forall|k2: int| 0 <= k2 < new_row@.len() implies (#[trigger] new_row@[
                k2
            ]).0 == w2.archetypes@[dest as int].table_components@[k2] by {
                assert(row_ids(new_row@)[k2] == new_row@[k2].0);
            }
        }
        self.attach(e, dest, &new_row);
        proof {
            // Everyone else is untouched, through all five stages.
            assert forall|i: int| i != idx implies same_entity(w0, *self, i) by {
                lemma_same_entity_trans(w0, w1, w2, i);
                lemma_same_entity_trans(w0, w2, w3, i);
                assert(same_entity(w3, w4, i)) by {
                    if w3.live_idx(i) {
                        assert(w4.arch_of(i) == w3.arch_of(i));
                        assert forall|cid: usize| #[trigger] w3.has_comp(i, cid) implies w4
                            .slot_at(i, cid) == w3.slot_at(i, cid) by {
                            if w3.is_sparse(cid) {
                                assert(w3.loc_ok(i));
                                let ai = w3.loc(i).archetype_id as int;
                                assert(w3.wf_arch_at(ai));
                                assert(!w3.arch_of(i).table_components@.contains(cid)) by {
                                    if w3.arch_of(i).table_components@.contains(cid) {
                                        let m = choose|m: int|
                                            0 <= m < w3.arch_of(i).table_components@.len() && w3
                                                .arch_of(i).table_components@[m] == cid;
                                        assert(!w3.is_sparse(
                                            w3.arch_of(i).table_components@[m],
                                        ));
                                    }
                                }
                                assert(w3.arch_of(i).sparse_components@.contains(cid));
                                assert(w3.valid_cid(cid)) by {
                                    let m = choose|m: int|
                                        0 <= m < w3.arch_of(i).sparse_components@.len() && w3
                                            .arch_of(i).sparse_components@[m] == cid;
                                    assert(w3.valid_cid(w3.arch_of(i).sparse_components@[m]));
                                }
                                assert(w3.wf_sparse_at_except(cid, idx));
                                assert(w3.sparse_expected(cid, i));
                                assert(w3.sparse_stores@[cid as int].has(i));
                                assert(w4.sparse_stores@[cid as int].has(i));
                                assert(w4.sparse_stores@[cid as int].slot(i)
                                    == w3.sparse_stores@[cid as int].slot(i));
                            }
                        }
                    }
                }
                lemma_same_entity_trans(w0, w3, w4, i);
                lemma_same_entity_trans(w0, w4, *self, i);
            }
            // The entity's shape is the resolved union.
            assert(self.loc(idx).archetype_id == dest);
            assert(self.archetypes@[dest as int].table_components@
                == w2.archetypes@[dest as int].table_components@);
            assert(self.archetypes@[dest as int].sparse_components@
                == w2.archetypes@[dest as int].sparse_components@);
            assert(w1.archetypes@[a0].table_components@ == w0.archetypes@[a0].table_components@);
            assert(w1.archetypes@[a0].sparse_components@
                == w0.archetypes@[a0].sparse_components@);
            assert(w1.bundles == w0.bundles);
            // The bundle's slots carry the fresh values and stamps.
            assert(w4.components.infos@ == w0.components.infos@);
            assert forall|k: int| 0 <= k < bids@.len() implies self.slot_at(
                idx,
                #[trigger] bids@[k],
            ) == (Slot {
                value: values@[k],
                added: if w0.has_comp(idx, bids@[k]) {
                    w0.slot_at(idx, bids@[k]).added
                } else {
                    tick
                },
                changed: tick,
            }) by {
                let cid = bids@[k];
                lemma_index_of_id(bids@, k);
                assert(w0.valid_cid(cid));
                if w0.is_sparse(cid) {
                    assert(w2.is_sparse(cid));
                    assert(w4.sparse_stores@[cid as int].has(idx));
                    assert(w4.valid_cid(cid) && w4.is_sparse(cid));
                    assert(self.slot_at(idx, cid) == w4.sparse_stores@[cid as int].slot(idx));
                    assert(w3.sparse_stores@[cid as int] == w0.sparse_stores@[cid as int]);
                    assert(w0.wf_sparse_at_except(cid, -1));
                    assert(w0.sparse_stores@[cid as int].has(idx) <==> w0.sparse_expected(
                        cid,
                        idx,
                    ));
                    assert(w0.has_comp(idx, cid) <==> w0.arch_of(idx).sparse_components@.contains(
                        cid,
                    )) by {
                        assert(w0.wf_arch_at(a0));
                        if w0.arch_of(idx).table_components@.contains(cid) {
                            let m = choose|m: int|
                                0 <= m < w0.arch_of(idx).table_components@.len() && w0.arch_of(
                                    idx,
                                ).table_components@[m] == cid;
                            assert(!w0.is_sparse(w0.arch_of(idx).table_components@[m]));
                        }
                    }
                } else {
                    // table-backed: written through the merged row
                    assert(btc.contains(cid)) by {
                        crate::component::lemma_filter_storage_contains(
                            w0.components.infos@,
                            bids@,
                            StorageType::Table,
                        );
                    }
                    assert(row_has(new_row@, cid));
                    let m = row_index_of(new_row@, cid);
                    assert(0 <= m < new_row@.len() && new_row@[m].0 == cid);
                    lemma_row_index(new_row@, m);
                    assert(self.slot_at(idx, new_row@[m].0) == new_row@[m].1);
                    // find the add pair
                    assert(row_ids_v(adds@).contains(cid));
                    let j = index_of_id(row_ids_v(adds@), cid);
                    assert(0 <= j < adds@.len() && row_ids_v(adds@)[j] == cid);
                    assert(adds@[j].0 == cid);
                    assert(row_val(new_row@, adds@[j].0) == (Slot {
                        value: adds@[j].1,
                        added: if row_has(row@, cid) {
                            row_val(row@, cid).added
                        } else {
                            tick
                        },
                        changed: tick,
                    }));
                    assert(adds@[j].1 == values@[index_of_id(bids@, cid)]);
                    assert(values@[index_of_id(bids@, cid)] == values@[k]);
                    // the base row is the entity's old table data
                    assert(w0.has_comp(idx, cid) <==> row_has(row@, cid)) by {
                        assert(w0.wf_arch_at(a0));
                        if w0.arch_of(idx).sparse_components@.contains(cid) {
                            let m2 = choose|m2: int|
                                0 <= m2 < w0.arch_of(idx).sparse_components@.len() && w0.arch_of(
                                    idx,
                                ).sparse_components@[m2] == cid;
                            assert(w0.is_sparse(w0.arch_of(idx).sparse_components@[m2]));
                        }
                    }
                    if row_has(row@, cid) {
                        let n = row_index_of(row@, cid);
                        assert(0 <= n < row@.len() && row@[n].0 == cid);
                        lemma_row_index(row@, n);
                        assert(row@[n].1 == w2.slot_at(idx, row@[n].0));
                        lemma_same_entity_trans(w0, w1, w2, idx);
                        assert(w0.has_comp(idx, cid));
                        assert(w2.slot_at(idx, cid) == w0.slot_at(idx, cid));
                    }
                }
            }
            // Components outside the bundle keep their slots and stamps.
            assert forall|cid: usize|
                #![trigger self.slot_at(idx, cid)]
                w0.has_comp(idx, cid) && !bids@.contains(cid) implies self.slot_at(idx, cid)
                == w0.slot_at(idx, cid) by {
                assert(w0.wf_arch_at(a0));
                if w0.arch_of(idx).sparse_components@.contains(cid) {
                    let m = choose|m: int|
                        0 <= m < w0.arch_of(idx).sparse_components@.len() && w0.arch_of(
                            idx,
                        ).sparse_components@[m] == cid;
                    assert(w0.valid_cid(cid) && w0.is_sparse(cid));
                    assert(w4.sparse_stores@[cid as int] == w3.sparse_stores@[cid as int]);
                    assert(w3.sparse_stores@[cid as int] == w0.sparse_stores@[cid as int]);
                    assert(w0.wf_sparse_at_except(cid, -1));
                    assert(w0.sparse_stores@[cid as int].has(idx));
                    assert(w4.valid_cid(cid) && w4.is_sparse(cid));
                    assert(self.slot_at(idx, cid) == w4.sparse_stores@[cid as int].slot(idx));
                } else {
                    assert(w0.arch_of(idx).table_components@.contains(cid));
                    let m = choose|m: int|
                        0 <= m < w0.arch_of(idx).table_components@.len() && w0.arch_of(
                            idx,
                        ).table_components@[m] == cid;
                    assert(w0.valid_cid(cid) && !w0.is_sparse(cid));
                    assert(row_has(row@, cid));
                    assert(!row_ids_v(adds@).contains(cid)) by {
                        if row_ids_v(adds@).contains(cid) {
                            crate::component::lemma_filter_storage_weak_contains(
                                w0.components.infos@,
                                bids@,
                                StorageType::Table,
                                cid,
                            );
                        }
                    }
                    assert(row_val(new_row@, cid) == row_val(row@, cid));
                    assert(row_has(new_row@, cid));
                    let n = row_index_of(new_row@, cid);
                    assert(0 <= n < new_row@.len() && new_row@[n].0 == cid);
                    lemma_row_index(new_row@, n);
                    assert(self.slot_at(idx, new_row@[n].0) == new_row@[n].1);
                    let n2 = row_index_of(row@, cid);
                    assert(0 <= n2 < row@.len() && row@[n2].0 == cid);
                    lemma_row_index(row@, n2);
                    assert(row@[n2].1 == w2.slot_at(idx, row@[n2].0));
                    lemma_same_entity_trans(w0, w1, w2, idx);
                    assert(w0.has_comp(idx, cid));
                    assert(w2.slot_at(idx, cid) == w0.slot_at(idx, cid));
                }
            }
        }
    }
}


impl World {
    /// Removes a bundle from a live entity under the strict policy and
    /// hands back the removed values, in the bundle's canonical id order.
    /// Absent exactly when some bundle component is missing from the
    /// entity's shape (the shape is then untouched); the empty bundle is
    /// removed trivially, yielding an empty value. Every removed
    /// component is recorded in the pending-removal ledger.
    #[verifier::rlimit(50)]
    #[verifier::spinoff_prover]
    pub fn take_bundle(&mut self, e: Entity, b: usize) -> (r: Option<Vec<Val>>)
        requires
            old(self).wf(),
            old(self).live(e),
            old(self).valid_bundle(b as int),
        ensures
            final(self).wf(),
            final(self).live(e),
            (r is Some <==> old(self).bundle_subset(
                old(self).loc(e.index as int).archetype_id as int,
                b as int,
            )),
            (r is Some ==> r.unwrap()@.len() == old(self).bundles.list@[
                b as int
            ].component_ids@.len()),
            (r is Some ==> (forall|k: int|
                0 <= k < old(self).bundles.list@[b as int].component_ids@.len() ==> r.unwrap()@[k]
                    == old(self).value_at(
                    e.index as int,
                    #[trigger] old(self).bundles.list@[b as int].component_ids@[k],
                ))),
            (r is Some ==> is_diff_set(
                final(self).arch_of(e.index as int).table_components@,
                old(self).arch_of(e.index as int).table_components@,
                old(self).bundles.list@[b as int].component_ids@,
            ) && is_diff_set(
                final(self).arch_of(e.index as int).sparse_components@,
                old(self).arch_of(e.index as int).sparse_components@,
                old(self).bundles.list@[b as int].component_ids@,
            )),
            (r is Some ==> (forall|cid: usize|
                #![trigger final(self).slot_at(e.index as int, cid)]
                old(self).has_comp(e.index as int, cid) && !old(self).bundles.list@[
                    b as int
                ].component_ids@.contains(cid) ==> final(self).slot_at(e.index as int, cid) == old(
                    self,
                ).slot_at(e.index as int, cid))),
            (r is Some ==> (forall|cid: int|
                0 <= cid < old(self).removed@.len() ==> (#[trigger] final(self).removed@[cid])@
                    == (if old(self).bundles.list@[b as int].component_ids@.contains(
                    cid as usize,
                ) {
                    old(self).removed@[cid]@.push(e)
                } else {
                    old(self).removed@[cid]@
                }))),
            (r is None ==> final(self).entities == old(self).entities && final(self).sparse_stores@
                == old(self).sparse_stores@ && final(self).removed@ == old(self).removed@ && (
            forall|i: int| same_entity(*old(self), *final(self), i))),
            forall|i: int| i != e.index as int ==> same_entity(*old(self), *final(self), i),
            final(self).components == old(self).components,
            final(self).bundles == old(self).bundles,
            final(self).change_tick == old(self).change_tick,
            final(self).entities.meta@.len() == old(self).entities.meta@.len(),
            final(self).entities.meta@[e.index as int].generation == e.generation,
    {
        let ghost w0 = *old(self);
        let ghost idx = e.index as int;
        let l = self.entities.get(e).unwrap();
        let ghost a0 = l.archetype_id as int;
        proof {
            assert(w0.live_idx(idx));
            assert(w0.loc_ok(idx));
            assert(w0.wf_arch_at(a0));
            assert(w0.wf_bundle_at(b as int));
        }
        let ropt = self.resolve_remove(l.archetype_id, b, false);
        let ghost w1 = *self;
        if ropt.is_none() {
            return None;
        }
        let dest = ropt.unwrap();
        let ghost atc = w0.archetypes@[a0].table_components@;
        let ghost asc = w0.archetypes@[a0].sparse_components@;
        let ghost bids_g = w0.bundles.list@[b as int].component_ids@;
        if dest == l.archetype_id {
            // A destination equal to the source means the bundle removed
            // nothing at all: it is the empty bundle, removed trivially.
            proof {
                assert(w1.archetypes@[a0].table_components@ == atc);
                assert(w1.archetypes@[a0].sparse_components@ == asc);
                assert(bids_g.len() == 0) by {
                    if bids_g.len() > 0 {
                        let c0 = bids_g[0];
                        assert(bids_g.contains(c0));
                        assert(w0.bundle_subset(a0, b as int));
                        assert(w0.archetypes@[a0].has_spec(c0));
                        if atc.contains(c0) {
                            assert(is_diff_set(w1.archetypes@[a0].table_components@, atc, bids_g));
                        } else {
                            assert(asc.contains(c0));
                            assert(is_diff_set(
                                w1.archetypes@[a0].sparse_components@,
                                asc,
                                bids_g,
                            ));
                        }
                    }
                }
                assert(w1.live_idx(idx));
                assert(w1.loc(idx) == w0.loc(idx));
                assert(same_entity(w0, w1, idx));
                assert forall|cid: usize|
                    #![trigger self.slot_at(idx, cid)]
                    w0.has_comp(idx, cid) && !bids_g.contains(cid) implies self.slot_at(idx, cid)
                    == w0.slot_at(idx, cid) by {
                    assert(w0.has_comp(idx, cid));
                }
            }
            return Some(Vec::new());
        }
        let bids = copy_ids(&self.bundles.list[b].component_ids);
        proof {
            assert forall|k: int| 0 <= k < bids@.len() implies (#[trigger] bids@[k] as int)
                < self.removed@.len() by {
                assert(w0.valid_cid(bids_g[k]));
            }
        }
        self.ledger_record(&bids, e);
        let ghost w2 = *self;
        proof {
            lemma_wf_counters_only(w1, w2);
            assert(w2.live(e));
            assert(same_entity(w0, w1, idx));
            assert(same_entity(w1, w2, idx));
        }
        let row = self.detach(e);
        let ghost w3 = *self;
        proof {
            assert(row_ids(row@) =~= w0.archetypes@[a0].table_components@);
        }
        // Collect the removed values; sparse ones leave their cells now,
        // table ones leave with the discarded row.
        let mut vals: Vec<Val> = Vec::new();
        // Reading the length bounds the store indices for the loop.
        let n_stores = self.sparse_stores.len();
        let mut k: usize = 0;
        while k < bids.len()
            invariant
                idx == e.index as int,
                w0.wf(),
                w0.live(e),
                w0.loc(idx).archetype_id as int == a0,
                w0.bundle_subset(a0, b as int),
                bids@ == w0.bundles.list@[b as int].component_ids@,
                sorted_strict(bids@),
                forall|j: int| 0 <= j < bids@.len() ==> w0.valid_cid(#[trigger] bids@[j]),
                k <= bids@.len(),
                vals@.len() == k as int,
                forall|j: int| 0 <= j < k ==> vals@[j] == w0.value_at(idx, #[trigger] bids@[j]),
                w3.sparse_stores@ == w0.sparse_stores@,
                w3.components == w0.components,
                w3.wf_sparse_except(idx),
                sorted_strict(row_ids(row@)),
                row_ids(row@) == w0.archetypes@[a0].table_components@,
                forall|n: int|
                    0 <= n < row@.len() ==> (#[trigger] row@[n]).1 == w2.slot_at(idx, row@[n].0),
                same_entity(w0, w1, idx),
                same_entity(w1, w2, idx),
                self.sparse_stores@.len() == w3.sparse_stores@.len(),
                w3.sparse_stores@.len() <= usize::MAX as int,
                forall|c: int|
                    0 <= c < w3.sparse_stores@.len() && !bids@.take(k as int).contains(c as usize)
                        ==> #[trigger] self.sparse_stores@[c] == w3.sparse_stores@[c],
                forall|c: int|
                    0 <= c < w3.sparse_stores@.len() && bids@.take(k as int).contains(c as usize)
                        ==> !(#[trigger] self.sparse_stores@[c]).has(idx),
                forall|c: int, i: int|
                    0 <= c < w3.sparse_stores@.len() && i != idx ==> ((#[trigger] self
                        .sparse_stores@[c].has(i)) <==> w3.sparse_stores@[c].has(i)) && (
                    w3.sparse_stores@[c].has(i) ==> self.sparse_stores@[c].slot(i)
                        == w3.sparse_stores@[c].slot(i)),
                forall|c: int|
                    0 <= c < w3.sparse_stores@.len() && !w3.is_sparse(c as usize)
                        ==> #[trigger] self.sparse_stores@[c] == w3.sparse_stores@[c],
                self.components == w3.components,
                self.entities == w3.entities,
                self.archetypes@ == w3.archetypes@,
                self.tables@ == w3.tables@,
                self.removed@ == w3.removed@,
                self.bundles == w3.bundles,
                self.change_tick == w3.change_tick,
                self.last_change_tick == w3.last_change_tick,
                self.cache_misses == w3.cache_misses,
            decreases bids@.len() - k,
        {
            let cid = bids[k];
            proof {
                lemma_take_plus_one(bids@, k as int, bids@.take(k as int + 1));
                assert(!bids@.take(k as int).contains(cid)) by {
                    if bids@.take(k as int).contains(cid) {
                        let m = choose|m: int| 0 <= m < k as int && bids@.take(k as int)[m]
                            == cid;
                        assert(bids@[m] == cid);
                    }
                }
                assert(w0.live_idx(idx));
                assert(w0.loc_ok(idx));
                assert(w0.wf_arch_at(a0));
                assert(w0.archetypes@[a0].has_spec(cid));
                lemma_same_entity_trans(w0, w1, w2, idx);
                assert(w0.has_comp(idx, cid));
                assert(w2.slot_at(idx, cid) == w0.slot_at(idx, cid));
            }
            if self.components.infos[cid].storage == StorageType::SparseSet {
                proof {
                    assert(w0.arch_of(idx).sparse_components@.contains(cid)) by {
                        if w0.arch_of(idx).table_components@.contains(cid) {
                            let m = choose|m: int|
                                0 <= m < w0.arch_of(idx).table_components@.len() && w0.arch_of(
                                    idx,
                                ).table_components@[m] == cid;
                            assert(!w0.is_sparse(w0.arch_of(idx).table_components@[m]));
                        }
                    }
                    assert(w0.wf_sparse_at_except(cid, -1));
                    assert(w0.sparse_stores@[cid as int].has(idx));
                    assert(self.sparse_stores@[cid as int] == w3.sparse_stores@[cid as int]);
                }
                let cell = self.sparse_stores[cid].get(e.index).unwrap();
                vals.push(cell.value);
                let ghost prevs = self.sparse_stores@;
                let st = &mut self.sparse_stores[cid];
                st.remove_cell(e.index);
                proof {
                    assert(cell == w0.slot_at(idx, cid));
                    assert forall|c: int|
                        0 <= c < w3.sparse_stores@.len() && bids@.take(k as int + 1).contains(
                            c as usize,
                        ) implies !(#[trigger] self.sparse_stores@[c]).has(idx) by {
                        if c != cid as int {
                            assert(self.sparse_stores@[c] == prevs[c]);
                            assert(bids@.take(k as int).contains(c as usize));
                        }
                    }
                    assert forall|c: int|
                        0 <= c < w3.sparse_stores@.len() && !bids@.take(k as int + 1).contains(
                            c as usize,
                        ) implies #[trigger] self.sparse_stores@[c] == w3.sparse_stores@[c] by {
                        assert(c != cid as int);
                        assert(self.sparse_stores@[c] == prevs[c]);
                    }
                    assert forall|c: int, i: int|
                        0 <= c < w3.sparse_stores@.len() && i != idx implies ((#[trigger] self
                            .sparse_stores@[c].has(i)) <==> w3.sparse_stores@[c].has(i)) && (
                        w3.sparse_stores@[c].has(i) ==> self.sparse_stores@[c].slot(i)
                            == w3.sparse_stores@[c].slot(i)) by {
                        if c == cid as int {
                            assert(prevs[c].has(i) <==> w3.sparse_stores@[c].has(i));
                            assert(self.sparse_stores@[c].has(i) == prevs[c].has(i));
                        } else {
                            assert(self.sparse_stores@[c] == prevs[c]);
                        }
                    }
                    assert forall|c: int|
                        0 <= c < w3.sparse_stores@.len() && !w3.is_sparse(
                            c as usize,
                        ) implies #[trigger] self.sparse_stores@[c] == w3.sparse_stores@[c] by {
                        assert(c != cid as int);
                        assert(self.sparse_stores@[c] == prevs[c]);
                    }
                }
            } else {
                proof {
                    assert(w0.arch_of(idx).table_components@.contains(cid)) by {
                        if w0.arch_of(idx).sparse_components@.contains(cid) {
                            let m = choose|m: int|
                                0 <= m < w0.arch_of(idx).sparse_components@.len() && w0.arch_of(
                                    idx,
                                ).sparse_components@[m] == cid;
                            assert(w0.is_sparse(w0.arch_of(idx).sparse_components@[m]));
                        }
                    }
                    assert(row_has(row@, cid));
                }
                let s = row_get(&row, cid).unwrap();
                proof {
                    let n = row_index_of(row@, cid);
                    assert(0 <= n < row@.len() && row@[n].0 == cid);
                    lemma_row_index(row@, n);
                    assert(row@[n].1 == w2.slot_at(idx, row@[n].0));
                    assert(s == w0.slot_at(idx, cid));
                    assert forall|c: int|
                        0 <= c < w3.sparse_stores@.len() && bids@.take(k as int + 1).contains(
                            c as usize,
                        ) implies !(#[trigger] self.sparse_stores@[c]).has(idx) by {
                        if c == cid as int {
                            assert(w3.wf_sparse_at_except(cid, idx));
                        } else {
                            assert(bids@.take(k as int).contains(c as usize));
                        }
                    }
                }
                vals.push(s.value);
            }
            k += 1;
        }
        let ghost w4 = *self;
        proof {
            assert(bids@.take(bids@.len() as int) =~= bids@);
        }
        let new_row = filter_row(&row, &bids);
        proof {
            lemma_sparse_only_parts(w3, *self, idx);
            assert forall|x: usize| #![auto]
                row_ids(new_row@).contains(x) <==> w1.archetypes@[
                dest as int
            ].table_components@.contains(x) by {
                assert(row_has(new_row@, x) <==> (row_has(row@, x) && !bids@.contains(x)));
            }
            crate::sorted::lemma_sorted_unique(
                row_ids(new_row@),
                w1.archetypes@[dest as int].table_components@,
            );
            assert(self.archetypes@[dest as int].table_components@ == w1.archetypes@[
                dest as int
            ].table_components@);
            assert(self.archetypes@[dest as int].sparse_components@ == w1.archetypes@[
                dest as int
            ].sparse_components@);
            assert forall|cid: usize|
                self.valid_cid(cid) && self.is_sparse(cid) implies ((#[trigger] self
                .sparse_stores@[cid as int].has(idx)) <==> self.archetypes@[
                dest as int
            ].sparse_components@.contains(cid)) by {
                assert(w0.valid_cid(cid) && w0.is_sparse(cid));
                if bids@.contains(cid) {
                    assert(!self.sparse_stores@[cid as int].has(idx));
                } else {
                    assert(self.sparse_stores@[cid as int] == w3.sparse_stores@[cid as int]);
                    assert(w3.sparse_stores@[cid as int] == w0.sparse_stores@[cid as int]);
                    assert(w0.wf_sparse_at_except(cid, -1));
                    assert(w0.sparse_stores@[cid as int].has(idx) <==> w0.sparse_expected(
                        cid,
                        idx,
                    ));
                }
            }
            assert forall|k2: int| 0 <= k2 < new_row@.len() implies (#[trigger] new_row@[
                k2
            ]).0 == self.archetypes@[dest as int].table_components@[k2] by {
                assert(row_ids(new_row@)[k2] == new_row@[k2].0);
            }
            assert(self.entities.meta@[idx] == (crate::entity::EntityMeta {
                generation: e.generation,
                location: None::<crate::entity::EntityLocation>,
            }));
            assert forall|k2: int|
                0 <= k2 < self.entities.free@.len() implies self.entities.free@[k2]
                != e.index by {
                assert(w0.entities.meta@[w0.entities.free@[k2] as int].location is None);
            }
        }
        self.attach(e, dest, &new_row);
        proof {
            assert forall|i: int| i != idx implies same_entity(w0, *self, i) by {
                lemma_same_entity_trans(w0, w1, w2, i);
                lemma_same_entity_trans(w0, w2, w3, i);
                assert(same_entity(w3, w4, i)) by {
                    if w3.live_idx(i) {
                        assert(w4.arch_of(i) == w3.arch_of(i));
                        assert forall|cid: usize| #[trigger] w3.has_comp(i, cid) implies w4
                            .slot_at(i, cid) == w3.slot_at(i, cid) by {
                            if w3.is_sparse(cid) {
                                assert(w3.loc_ok(i));
                                let ai = w3.loc(i).archetype_id as int;
                                assert(w3.wf_arch_at(ai));
                                assert(!w3.arch_of(i).table_components@.contains(cid)) by {
                                    if w3.arch_of(i).table_components@.contains(cid) {
                                        let m = choose|m: int|
                                            0 <= m < w3.arch_of(i).table_components@.len() && w3
                                                .arch_of(i).table_components@[m] == cid;
                                        assert(!w3.is_sparse(
                                            w3.arch_of(i).table_components@[m],
                                        ));
                                    }
                                }
                                assert(w3.arch_of(i).sparse_components@.contains(cid));
                                assert(w3.valid_cid(cid)) by {
                                    let m = choose|m: int|
                                        0 <= m < w3.arch_of(i).sparse_components@.len() && w3
                                            .arch_of(i).sparse_components@[m] == cid;
                                    assert(w3.valid_cid(w3.arch_of(i).sparse_components@[m]));
                                }
                                assert(w3.wf_sparse_at_except(cid, idx));
                                assert(w3.sparse_expected(cid, i));
                                assert(w3.sparse_stores@[cid as int].has(i));
                                assert(w4.sparse_stores@[cid as int].has(i));
                                assert(w4.sparse_stores@[cid as int].slot(i)
                                    == w3.sparse_stores@[cid as int].slot(i));
                            }
                        }
                    }
                }
                lemma_same_entity_trans(w0, w3, w4, i);
                lemma_same_entity_trans(w0, w4, *self, i);
            }
            // The destination shape is the set difference.
            assert(self.loc(idx).archetype_id == dest);
            assert(self.arch_of(idx) == self.archetypes@[dest as int]);
            // Kept components carry their old slots.
            assert forall|cid: usize|
                #![trigger self.slot_at(idx, cid)]
                w0.has_comp(idx, cid) && !bids_g.contains(cid) implies self.slot_at(idx, cid)
                == w0.slot_at(idx, cid) by {
                assert(w0.wf_arch_at(a0));
                if w0.arch_of(idx).sparse_components@.contains(cid) {
                    let m = choose|m: int|
                        0 <= m < w0.arch_of(idx).sparse_components@.len() && w0.arch_of(
                            idx,
                        ).sparse_components@[m] == cid;
                    assert(w0.valid_cid(cid) && w0.is_sparse(cid));
                    assert(w4.sparse_stores@[cid as int] == w3.sparse_stores@[cid as int]);
                    assert(w3.sparse_stores@[cid as int] == w0.sparse_stores@[cid as int]);
                    assert(w0.wf_sparse_at_except(cid, -1));
                    assert(w0.sparse_stores@[cid as int].has(idx));
                    assert(w4.valid_cid(cid) && w4.is_sparse(cid));
                    assert(self.slot_at(idx, cid) == w4.sparse_stores@[cid as int].slot(idx));
                } else {
                    assert(w0.arch_of(idx).table_components@.contains(cid));
                    let m = choose|m: int|
                        0 <= m < w0.arch_of(idx).table_components@.len() && w0.arch_of(
                            idx,
                        ).table_components@[m] == cid;
                    assert(w0.valid_cid(cid) && !w0.is_sparse(cid));
                    assert(row_has(row@, cid));
                    assert(row_has(new_row@, cid));
                    assert(row_val(new_row@, cid) == row_val(row@, cid));
                    let n = row_index_of(new_row@, cid);
                    assert(0 <= n < new_row@.len() && new_row@[n].0 == cid);
                    lemma_row_index(new_row@, n);
                    assert(self.slot_at(idx, new_row@[n].0) == new_row@[n].1);
                    let n2 = row_index_of(row@, cid);
                    assert(0 <= n2 < row@.len() && row@[n2].0 == cid);
                    lemma_row_index(row@, n2);
                    assert(row@[n2].1 == w2.slot_at(idx, row@[n2].0));
                    lemma_same_entity_trans(w0, w1, w2, idx);
                    assert(w0.has_comp(idx, cid));
                    assert(w2.slot_at(idx, cid) == w0.slot_at(idx, cid));
                }
            }
        }
        Some(vals)
    }
}


impl World {
    /// Removes from a live entity whichever bundle components it has (the
    /// intersection policy): absent components are ignored, the removal
    /// always succeeds, and only the components actually removed are
    /// recorded in the pending-removal ledger.
    #[verifier::rlimit(50)]
    #[verifier::spinoff_prover]
    pub fn remove_bundle_intersection(&mut self, e: Entity, b: usize)
        requires
            old(self).wf(),
            old(self).live(e),
            old(self).valid_bundle(b as int),
        ensures
            final(self).wf(),
            final(self).live(e),
            is_diff_set(
                final(self).arch_of(e.index as int).table_components@,
                old(self).arch_of(e.index as int).table_components@,
                old(self).bundles.list@[b as int].component_ids@,
            ),
            is_diff_set(
                final(self).arch_of(e.index as int).sparse_components@,
                old(self).arch_of(e.index as int).sparse_components@,
                old(self).bundles.list@[b as int].component_ids@,
            ),
            forall|cid: usize|
                #![trigger final(self).slot_at(e.index as int, cid)]
                old(self).has_comp(e.index as int, cid) && !old(self).bundles.list@[
                    b as int
                ].component_ids@.contains(cid) ==> final(self).slot_at(e.index as int, cid) == old(
                    self,
                ).slot_at(e.index as int, cid),
            forall|cid: int|
                0 <= cid < old(self).removed@.len() ==> (#[trigger] final(self).removed@[cid])@
                    == (if old(self).bundles.list@[b as int].component_ids@.contains(cid as usize)
                    && old(self).has_comp(e.index as int, cid as usize) {
                    old(self).removed@[cid]@.push(e)
                } else {
                    old(self).removed@[cid]@
                }),
            forall|i: int| i != e.index as int ==> same_entity(*old(self), *final(self), i),
            final(self).components == old(self).components,
            final(self).bundles == old(self).bundles,
            final(self).change_tick == old(self).change_tick,
            final(self).entities.meta@.len() == old(self).entities.meta@.len(),
            final(self).entities.meta@[e.index as int].generation == e.generation,
    {
        let ghost w0 = *old(self);
        let ghost idx = e.index as int;
        let l = self.entities.get(e).unwrap();
        let ghost a0 = l.archetype_id as int;
        proof {
            assert(w0.live_idx(idx));
            assert(w0.loc_ok(idx));
            assert(w0.wf_arch_at(a0));
            assert(w0.wf_bundle_at(b as int));
        }
        let ropt = self.resolve_remove(l.archetype_id, b, true);
        let ghost w1 = *self;
        let dest = ropt.unwrap();
        let ghost atc = w0.archetypes@[a0].table_components@;
        let ghost asc = w0.archetypes@[a0].sparse_components@;
        let ghost bids_g = w0.bundles.list@[b as int].component_ids@;
        if dest == l.archetype_id {
            // None of the bundle is present: nothing moves and nothing is
            // recorded.
            proof {
                assert(w1.archetypes@[a0].table_components@ == atc);
                assert(w1.archetypes@[a0].sparse_components@ == asc);
                assert(same_entity(w0, w1, idx));
                assert forall|cid: usize|
                    #![trigger self.slot_at(idx, cid)]
                    w0.has_comp(idx, cid) && !bids_g.contains(cid) implies self.slot_at(idx, cid)
                    == w0.slot_at(idx, cid) by {
                    assert(w0.has_comp(idx, cid));
                }
                assert forall|cid: int|
                    0 <= cid < w0.removed@.len() implies (#[trigger] self.removed@[cid])@ == (
                if bids_g.contains(cid as usize) && w0.has_comp(idx, cid as usize) {
                    w0.removed@[cid]@.push(e)
                } else {
                    w0.removed@[cid]@
                }) by {
                    let c = cid as usize;
                    if bids_g.contains(c) && w0.has_comp(idx, c) {
                        if atc.contains(c) {
                            assert(is_diff_set(w1.archetypes@[a0].table_components@, atc, bids_g));
                        } else {
                            assert(asc.contains(c));
                            assert(is_diff_set(
                                w1.archetypes@[a0].sparse_components@,
                                asc,
                                bids_g,
                            ));
                        }
                    }
                }
            }
            return ;
        }
        // The ledger records exactly the present subset.
        let bids = copy_ids(&self.bundles.list[b].component_ids);
        let mut present: Vec<usize> = Vec::new();
        let mut k: usize = 0;
        while k < bids.len()
            invariant
                *self == w1,
                w0.wf(),
                w0.live(e),
                idx == e.index as int,
                w0.loc(idx).archetype_id as int == a0,
                l.archetype_id as int == a0,
                atc == w0.archetypes@[a0].table_components@,
                asc == w0.archetypes@[a0].sparse_components@,
                bids_g == w0.bundles.list@[b as int].component_ids@,
                self.archetypes@[a0].table_components@ == atc,
                self.archetypes@[a0].sparse_components@ == asc,
                a0 < self.archetypes@.len(),
                bids@ == bids_g,
                sorted_strict(bids@),
                k <= bids@.len(),
                sorted_strict(present@),
                present@.len() > 0 && k < bids@.len() ==> present@.last() < bids@[k as int],
                forall|x: usize|
                    #![trigger present@.contains(x)]
                    present@.contains(x) <==> (bids@.take(k as int).contains(x)
                        && w0.archetypes@[a0].has_spec(x)),
            decreases bids@.len() - k,
        {
            let cid = bids[k];
            let ghost p0 = present@;
            proof {
                lemma_take_plus_one(bids@, k as int, bids@.take(k as int + 1));
            }
            if self.archetypes[l.archetype_id].contains_id(cid) {
                proof {
                    assert(self.archetypes@[a0].has_spec(cid) == w0.archetypes@[a0].has_spec(
                        cid,
                    ));
                    assert forall|m: int| 0 <= m < p0.len() implies p0[m] < cid by {
                        assert(p0[m] <= p0[p0.len() - 1]);
                    }
                }
                present.push(cid);
                proof {
                    lemma_push_contains(p0, cid, present@);
                    assert forall|p: int, q: int|
                        0 <= p < q < present@.len() implies present@[p] < present@[q] by {
                        if q < p0.len() {
                            assert(p0[p] < p0[q]);
                        }
                    }
                    if k as int + 1 < bids@.len() {
                        assert(bids@[k as int] < bids@[k as int + 1]);
                    }
                }
            } else {
                proof {
                    assert(self.archetypes@[a0].has_spec(cid) == w0.archetypes@[a0].has_spec(
                        cid,
                    ));
                    if present@.len() > 0 && k as int + 1 < bids@.len() {
                        assert(bids@[k as int] < bids@[k as int + 1]);
                    }
                }
            }
            k += 1;
        }
        proof {
            assert(bids@.take(bids@.len() as int) =~= bids@);
            assert forall|j: int| 0 <= j < present@.len() implies (#[trigger] present@[j] as int)
                < self.removed@.len() by {
                assert(present@.contains(present@[j]));
                assert(bids_g.contains(present@[j]));
                let m = choose|m: int| 0 <= m < bids_g.len() && bids_g[m] == present@[j];
                assert(w0.valid_cid(bids_g[m]));
            }
        }
        self.ledger_record(&present, e);
        let ghost w2 = *self;
        proof {
            lemma_wf_counters_only(w1, w2);
            assert(w2.live(e));
            assert(same_entity(w0, w1, idx));
            assert(same_entity(w1, w2, idx));
        }
        let row = self.detach(e);
        let ghost w3 = *self;
        proof {
            assert(row_ids(row@) =~= w0.archetypes@[a0].table_components@);
        }
        // Drop whichever of the bundle's sparse cells the entity owned.
        // Reading the length bounds the store indices for the loop.
        let n_stores = self.sparse_stores.len();
        let mut k2: usize = 0;
        while k2 < bids.len()
            invariant
                idx == e.index as int,
                w0.wf(),
                bids@ == bids_g,
                sorted_strict(bids@),
                forall|j: int| 0 <= j < bids@.len() ==> w0.valid_cid(#[trigger] bids@[j]),
                k2 <= bids@.len(),
                w3.sparse_stores@ == w0.sparse_stores@,
                w3.components == w0.components,
                w3.wf_sparse_except(idx),
                self.sparse_stores@.len() == w3.sparse_stores@.len(),
                w3.sparse_stores@.len() <= usize::MAX as int,
                forall|c: int|
                    0 <= c < w3.sparse_stores@.len() && !bids@.take(k2 as int).contains(c as usize)
                        ==> #[trigger] self.sparse_stores@[c] == w3.sparse_stores@[c],
                forall|c: int|
                    0 <= c < w3.sparse_stores@.len() && bids@.take(k2 as int).contains(c as usize)
                        ==> !(#[trigger] self.sparse_stores@[c]).has(idx),
                forall|c: int, i: int|
                    0 <= c < w3.sparse_stores@.len() && i != idx ==> ((#[trigger] self
                        .sparse_stores@[c].has(i)) <==> w3.sparse_stores@[c].has(i)) && (
                    w3.sparse_stores@[c].has(i) ==> self.sparse_stores@[c].slot(i)
                        == w3.sparse_stores@[c].slot(i)),
                forall|c: int|
                    0 <= c < w3.sparse_stores@.len() && !w3.is_sparse(c as usize)
                        ==> #[trigger] self.sparse_stores@[c] == w3.sparse_stores@[c],
                self.components == w3.components,
                self.entities == w3.entities,
                self.archetypes@ == w3.archetypes@,
                self.tables@ == w3.tables@,
                self.removed@ == w3.removed@,
                self.bundles == w3.bundles,
                self.change_tick == w3.change_tick,
                self.last_change_tick == w3.last_change_tick,
                self.cache_misses == w3.cache_misses,
            decreases bids@.len() - k2,
        {
            let cid = bids[k2];
            proof {
                lemma_take_plus_one(bids@, k2 as int, bids@.take(k2 as int + 1));
                assert(!bids@.take(k2 as int).contains(cid)) by {
                    if bids@.take(k2 as int).contains(cid) {
                        let m = choose|m: int| 0 <= m < k2 as int && bids@.take(k2 as int)[m]
                            == cid;
                        assert(bids@[m] == cid);
                    }
                }
            }
            if self.components.infos[cid].storage == StorageType::SparseSet {
                let ghost prevs = self.sparse_stores@;
                let st = &mut self.sparse_stores[cid];
                st.remove_cell(e.index);
                proof {
                    assert forall|c: int|
                        0 <= c < w3.sparse_stores@.len() && bids@.take(k2 as int + 1).contains(
                            c as usize,
                        ) implies !(#[trigger] self.sparse_stores@[c]).has(idx) by {
                        if c != cid as int {
                            assert(self.sparse_stores@[c] == prevs[c]);
                            assert(bids@.take(k2 as int).contains(c as usize));
                        }
                    }
                    assert forall|c: int|
                        0 <= c < w3.sparse_stores@.len() && !bids@.take(k2 as int + 1).contains(
                            c as usize,
                        ) implies #[trigger] self.sparse_stores@[c] == w3.sparse_stores@[c] by {
                        assert(c != cid as int);
                        assert(self.sparse_stores@[c] == prevs[c]);
                    }
                    assert forall|c: int, i: int|
                        0 <= c < w3.sparse_stores@.len() && i != idx implies ((#[trigger] self
                            .sparse_stores@[c].has(i)) <==> w3.sparse_stores@[c].has(i)) && (
                        w3.sparse_stores@[c].has(i) ==> self.sparse_stores@[c].slot(i)
                            == w3.sparse_stores@[c].slot(i)) by {
                        if c == cid as int {
                            assert(prevs[c].has(i) <==> w3.sparse_stores@[c].has(i));
                            assert(self.sparse_stores@[c].has(i) == prevs[c].has(i));
                        } else {
                            assert(self.sparse_stores@[c] == prevs[c]);
                        }
                    }
                    assert forall|c: int|
                        0 <= c < w3.sparse_stores@.len() && !w3.is_sparse(
                            c as usize,
                        ) implies #[trigger] self.sparse_stores@[c] == w3.sparse_stores@[c] by {
                        assert(c != cid as int);
                        assert(self.sparse_stores@[c] == prevs[c]);
                    }
                }
            } else {
                proof {
                    assert forall|c: int|
                        0 <= c < w3.sparse_stores@.len() && bids@.take(k2 as int + 1).contains(
                            c as usize,
                        ) implies !(#[trigger] self.sparse_stores@[c]).has(idx) by {
                        if c == cid as int {
                            assert(w3.wf_sparse_at_except(cid, idx));
                            assert(!w3.is_sparse(cid));
                            assert(self.sparse_stores@[c] == w3.sparse_stores@[c]);
                        } else {
                            assert(bids@.take(k2 as int).contains(c as usize));
                        }
                    }
                }
            }
            k2 += 1;
        }
        let ghost w4 = *self;
        proof {
            assert(bids@.take(bids@.len() as int) =~= bids@);
        }
        let new_row = filter_row(&row, &bids);
        proof {
            lemma_sparse_only_parts(w3, *self, idx);
            assert forall|x: usize| #![auto]
                row_ids(new_row@).contains(x) <==> w1.archetypes@[
                dest as int
            ].table_components@.contains(x) by {
                assert(row_has(new_row@, x) <==> (row_has(row@, x) && !bids@.contains(x)));
            }
            crate::sorted::lemma_sorted_unique(
                row_ids(new_row@),
                w1.archetypes@[dest as int].table_components@,
            );
            assert(self.archetypes@[dest as int].table_components@ == w1.archetypes@[
                dest as int
            ].table_components@);
            assert(self.archetypes@[dest as int].sparse_components@ == w1.archetypes@[
                dest as int
            ].sparse_components@);
            assert forall|cid: usize|
                self.valid_cid(cid) && self.is_sparse(cid) implies ((#[trigger] self
                .sparse_stores@[cid as int].has(idx)) <==> self.archetypes@[
                dest as int
            ].sparse_components@.contains(cid)) by {
                assert(w0.valid_cid(cid) && w0.is_sparse(cid));
                if bids@.contains(cid) {
                    assert(!self.sparse_stores@[cid as int].has(idx));
                } else {
                    assert(self.sparse_stores@[cid as int] == w3.sparse_stores@[cid as int]);
                    assert(w3.sparse_stores@[cid as int] == w0.sparse_stores@[cid as int]);
                    assert(w0.wf_sparse_at_except(cid, -1));
                    assert(w0.sparse_stores@[cid as int].has(idx) <==> w0.sparse_expected(
                        cid,
                        idx,
                    ));
                }
            }
            assert forall|k3: int| 0 <= k3 < new_row@.len() implies (#[trigger] new_row@[
                k3
            ]).0 == self.archetypes@[dest as int].table_components@[k3] by {
                assert(row_ids(new_row@)[k3] == new_row@[k3].0);
            }
            assert(self.entities.meta@[idx] == (crate::entity::EntityMeta {
                generation: e.generation,
                location: None::<crate::entity::EntityLocation>,
            }));
            assert forall|k3: int|
                0 <= k3 < self.entities.free@.len() implies self.entities.free@[k3]
                != e.index by {
                assert(w0.entities.meta@[w0.entities.free@[k3] as int].location is None);
            }
        }
        self.attach(e, dest, &new_row);
        proof {
            assert forall|i: int| i != idx implies same_entity(w0, *self, i) by {
                lemma_same_entity_trans(w0, w1, w2, i);
                lemma_same_entity_trans(w0, w2, w3, i);
                assert(same_entity(w3, w4, i)) by {
                    if w3.live_idx(i) {
                        assert(w4.arch_of(i) == w3.arch_of(i));
                        assert forall|cid: usize| #[trigger] w3.has_comp(i, cid) implies w4
                            .slot_at(i, cid) == w3.slot_at(i, cid) by {
                            if w3.is_sparse(cid) {
                                assert(w3.loc_ok(i));
                                let ai = w3.loc(i).archetype_id as int;
                                assert(w3.wf_arch_at(ai));
                                assert(!w3.arch_of(i).table_components@.contains(cid)) by {
                                    if w3.arch_of(i).table_components@.contains(cid) {
                                        let m = choose|m: int|
                                            0 <= m < w3.arch_of(i).table_components@.len() && w3
                                                .arch_of(i).table_components@[m] == cid;
                                        assert(!w3.is_sparse(
                                            w3.arch_of(i).table_components@[m],
                                        ));
                                    }
                                }
                                assert(w3.arch_of(i).sparse_components@.contains(cid));
                                assert(w3.valid_cid(cid)) by {
                                    let m = choose|m: int|
                                        0 <= m < w3.arch_of(i).sparse_components@.len() && w3
                                            .arch_of(i).sparse_components@[m] == cid;
                                    assert(w3.valid_cid(w3.arch_of(i).sparse_components@[m]));
                                }
                                assert(w3.wf_sparse_at_except(cid, idx));
                                assert(w3.sparse_expected(cid, i));
                                assert(w3.sparse_stores@[cid as int].has(i));
                                assert(w4.sparse_stores@[cid as int].has(i));
                                assert(w4.sparse_stores@[cid as int].slot(i)
                                    == w3.sparse_stores@[cid as int].slot(i));
                            }
                        }
                    }
                }
                lemma_same_entity_trans(w0, w3, w4, i);
                lemma_same_entity_trans(w0, w4, *self, i);
            }
            assert(self.loc(idx).archetype_id == dest);
            assert(self.arch_of(idx) == self.archetypes@[dest as int]);
            // The ledger recorded exactly the removed subset.
            assert forall|cid: int|
                0 <= cid < w0.removed@.len() implies (#[trigger] self.removed@[cid])@ == (
            if bids_g.contains(cid as usize) && w0.has_comp(idx, cid as usize) {
                w0.removed@[cid]@.push(e)
            } else {
                w0.removed@[cid]@
            }) by {
                assert(w0.removed@.len() <= usize::MAX as int) by {
                    assert(w2.removed@.len() == w0.removed@.len());
                }
                let c = cid as usize;
                assert(present@.contains(c) <==> (bids_g.contains(c) && w0.archetypes@[
                    a0
                ].has_spec(c)));
            }
            // Kept components carry their old slots.
            assert forall|cid: usize|
                #![trigger self.slot_at(idx, cid)]
                w0.has_comp(idx, cid) && !bids_g.contains(cid) implies self.slot_at(idx, cid)
                == w0.slot_at(idx, cid) by {
                assert(w0.wf_arch_at(a0));
                if w0.arch_of(idx).sparse_components@.contains(cid) {
                    let m = choose|m: int|
                        0 <= m < w0.arch_of(idx).sparse_components@.len() && w0.arch_of(
                            idx,
                        ).sparse_components@[m] == cid;
                    assert(w0.valid_cid(cid) && w0.is_sparse(cid));
                    assert(w4.sparse_stores@[cid as int] == w3.sparse_stores@[cid as int]);
                    assert(w3.sparse_stores@[cid as int] == w0.sparse_stores@[cid as int]);
                    assert(w0.wf_sparse_at_except(cid, -1));
                    assert(w0.sparse_stores@[cid as int].has(idx));
                    assert(w4.valid_cid(cid) && w4.is_sparse(cid));
                    assert(self.slot_at(idx, cid) == w4.sparse_stores@[cid as int].slot(idx));
                } else {
                    assert(w0.arch_of(idx).table_components@.contains(cid));
                    let m = choose|m: int|
                        0 <= m < w0.arch_of(idx).table_components@.len() && w0.arch_of(
                            idx,
                        ).table_components@[m] == cid;
                    assert(w0.valid_cid(cid) && !w0.is_sparse(cid));
                    assert(row_has(row@, cid));
                    assert(row_has(new_row@, cid));
                    assert(row_val(new_row@, cid) == row_val(row@, cid));
                    let n = row_index_of(new_row@, cid);
                    assert(0 <= n < new_row@.len() && new_row@[n].0 == cid);
                    lemma_row_index(new_row@, n);
                    assert(self.slot_at(idx, new_row@[n].0) == new_row@[n].1);
                    let n2 = row_index_of(row@, cid);
                    assert(0 <= n2 < row@.len() && row@[n2].0 == cid);
                    lemma_row_index(row@, n2);
                    assert(row@[n2].1 == w2.slot_at(idx, row@[n2].0));
                    lemma_same_entity_trans(w0, w1, w2, idx);
                    assert(w0.has_comp(idx, cid));
                    assert(w2.slot_at(idx, cid) == w0.slot_at(idx, cid));
                }
            }
        }
    }
}

} // verus!

