//! The relocation machinery under every structural mutation: unhooking an
//! entity from its archetype row and table row (compacting both by
//! swap-remove and fixing the displaced neighbours' records), and hooking
//! it into a destination shape.

use vstd::prelude::*;
use crate::archetype::ArchetypeEntity;
use crate::entity::{Entity, EntityLocation, EntityMeta};
use crate::storage::Slot;
use crate::world::World;

verus! {

/// Entity index `i` presents the same record in `w2` as in `w1`: same
/// liveness and generation, same shape, and the same slot for every
/// component it has.
pub open spec fn same_entity(w1: World, w2: World, i: int) -> bool {
    &&& (w1.live_idx(i) <==> w2.live_idx(i))
    &&& ((0 <= i < w1.entities.meta@.len()) <==> (0 <= i < w2.entities.meta@.len()))
    &&& (0 <= i < w1.entities.meta@.len() ==> w2.entities.meta@[i].generation
        == w1.entities.meta@[i].generation)
    &&& (w1.live_idx(i) ==> {
        &&& w2.arch_of(i).table_components@ == w1.arch_of(i).table_components@
        &&& w2.arch_of(i).sparse_components@ == w1.arch_of(i).sparse_components@
        &&& forall|cid: usize|
            #[trigger] w1.has_comp(i, cid) ==> w2.slot_at(i, cid) == w1.slot_at(i, cid)
    })
}

/// The registries kept their identities between `w1` and `w2`: the same
/// components and bundles, the same archetypes (by component sets, table
/// links and cached edges) and the same tables by column sets. Only
/// resident entities, rows and cells may differ.
pub open spec fn registries_stable(w1: World, w2: World) -> bool {
    &&& w2.components == w1.components
    &&& w2.bundles == w1.bundles
    &&& w2.archetypes@.len() == w1.archetypes@.len()
    &&& forall|a: int|
        0 <= a < w1.archetypes@.len() ==> ((#[trigger] w2.archetypes@[a]).table_components@
            == w1.archetypes@[a].table_components@ && w2.archetypes@[a].sparse_components@
            == w1.archetypes@[a].sparse_components@ && w2.archetypes@[a].table_id
            == w1.archetypes@[a].table_id && w2.archetypes@[a].edges.add_bundle@
            == w1.archetypes@[a].edges.add_bundle@ && w2.archetypes@[a].edges.remove_bundle@
            == w1.archetypes@[a].edges.remove_bundle@
            && w2.archetypes@[a].edges.remove_bundle_intersection@
            == w1.archetypes@[a].edges.remove_bundle_intersection@)
    &&& w2.tables@.len() == w1.tables@.len()
    &&& forall|t: int|
        0 <= t < w1.tables@.len() ==> (#[trigger] w2.tables@[t]).col_ids()
            == w1.tables@[t].col_ids()
}

/// The registry-shaped invariant parts transfer across any mutation that
/// keeps the registries stable and the tables internally well formed.
pub proof fn lemma_stable_wf_parts(pre: World, post: World)
    requires
        pre.wf_registry(),
        pre.wf_tables(),
        pre.wf_archetypes(),
        pre.wf_bundles(),
        pre.wf_edges(),
        registries_stable(pre, post),
        post.sparse_stores@.len() == pre.sparse_stores@.len(),
        post.removed@.len() == pre.removed@.len(),
        forall|t: int| 0 <= t < post.tables@.len() ==> (#[trigger] post.tables@[t]).wf(),
    ensures
        post.wf_registry(),
        post.wf_tables(),
        post.wf_archetypes(),
        post.wf_bundles(),
        post.wf_edges(),
{
    assert(post.wf_registry());
    assert forall|t: int, c: int|
        0 <= t < post.tables@.len() && 0 <= c
            < post.tables@[t].columns@.len() implies post.valid_cid(
        #[trigger] post.tables@[t].columns@[c].component_id,
    ) && !post.is_sparse(post.tables@[t].columns@[c].component_id) by {
        assert(post.tables@[t].col_ids().len() == post.tables@[t].columns@.len());
        assert(pre.tables@[t].col_ids().len() == pre.tables@[t].columns@.len());
        assert(post.tables@[t].col_ids()[c] == post.tables@[t].columns@[c].component_id);
        assert(pre.tables@[t].col_ids()[c] == pre.tables@[t].columns@[c].component_id);
        assert(pre.valid_cid(pre.tables@[t].columns@[c].component_id));
    }
    assert forall|t1: int, t2: int|
        #![trigger post.tables@[t1].col_ids(), post.tables@[t2].col_ids()]
        0 <= t1 < t2 < post.tables@.len() implies post.tables@[t1].col_ids()
        != post.tables@[t2].col_ids() by {
        assert(pre.tables@[t1].col_ids() != pre.tables@[t2].col_ids());
    }
    assert(post.tables@[0].col_ids().len() == post.tables@[0].columns@.len());
    assert(pre.tables@[0].col_ids().len() == pre.tables@[0].columns@.len());
    assert(post.wf_tables());
    assert forall|a: int| 0 <= a < post.archetypes@.len() implies #[trigger] post.wf_arch_at(
        a,
    ) by {
        assert(pre.wf_arch_at(a));
        assert(post.archetypes@[a].table_components@ == pre.archetypes@[a].table_components@);
        assert(post.archetypes@[a].sparse_components@ == pre.archetypes@[a].sparse_components@);
    }
    assert(post.archetypes@[0].table_components@ == pre.archetypes@[0].table_components@);
    assert(post.archetypes@[0].sparse_components@ == pre.archetypes@[0].sparse_components@);
    assert forall|a1: int, a2: int|
        #![trigger post.archetypes@[a1].table_components@, post.archetypes@[a2].table_components@]
        0 <= a1 < a2 < post.archetypes@.len() implies !(post.archetypes@[a1].table_components@
        == post.archetypes@[a2].table_components@ && post.archetypes@[a1].sparse_components@
        == post.archetypes@[a2].sparse_components@) by {
        assert(pre.archetypes@[a1].table_components@ == post.archetypes@[a1].table_components@);
        assert(pre.archetypes@[a2].table_components@ == post.archetypes@[a2].table_components@);
    }
    assert(post.wf_archetypes());
    assert forall|b: int| 0 <= b < post.bundles.list@.len() implies #[trigger] post.wf_bundle_at(
        b,
    ) by {
        assert(pre.wf_bundle_at(b));
    }
    assert(post.wf_bundles());
    assert forall|a: int| 0 <= a < post.archetypes@.len() implies #[trigger] post.wf_edges_at(
        a,
    ) by {
        assert(pre.wf_edges_at(a));
        let ed = post.archetypes@[a].edges;
        let ed0 = pre.archetypes@[a].edges;
        assert(ed.add_bundle@ == ed0.add_bundle@);
        assert forall|k: int| 0 <= k < ed.add_bundle@.len() implies post.add_edge_ok(
            a,
            (#[trigger] ed.add_bundle@[k]).0,
            ed.add_bundle@[k].1,
        ) by {
            assert(pre.add_edge_ok(a, ed0.add_bundle@[k].0, ed0.add_bundle@[k].1));
            let d = ed.add_bundle@[k].1 as int;
            assert(post.archetypes@[d].table_components@ == pre.archetypes@[d].table_components@);
            assert(post.archetypes@[d].sparse_components@
                == pre.archetypes@[d].sparse_components@);
            assert(post.archetypes@[a].table_components@ == pre.archetypes@[a].table_components@);
            assert(post.archetypes@[a].sparse_components@
                == pre.archetypes@[a].sparse_components@);
        }
        assert forall|k: int| 0 <= k < ed.remove_bundle@.len() implies post.remove_edge_ok(
            a,
            (#[trigger] ed.remove_bundle@[k]).0,
            ed.remove_bundle@[k].1,
            true,
        ) by {
            assert(pre.remove_edge_ok(a, ed0.remove_bundle@[k].0, ed0.remove_bundle@[k].1, true));
            assert(post.archetypes@[a].table_components@ == pre.archetypes@[a].table_components@);
            assert(post.archetypes@[a].sparse_components@
                == pre.archetypes@[a].sparse_components@);
            if let Some(d) = ed.remove_bundle@[k].1 {
                assert(post.archetypes@[d as int].table_components@
                    == pre.archetypes@[d as int].table_components@);
                assert(post.archetypes@[d as int].sparse_components@
                    == pre.archetypes@[d as int].sparse_components@);
            }
        }
        assert forall|k: int|
            0 <= k < ed.remove_bundle_intersection@.len() implies post.remove_edge_ok(
            a,
            (#[trigger] ed.remove_bundle_intersection@[k]).0,
            ed.remove_bundle_intersection@[k].1,
            false,
        ) by {
            assert(pre.remove_edge_ok(
                a,
                ed0.remove_bundle_intersection@[k].0,
                ed0.remove_bundle_intersection@[k].1,
                false,
            ));
            assert(post.archetypes@[a].table_components@ == pre.archetypes@[a].table_components@);
            assert(post.archetypes@[a].sparse_components@
                == pre.archetypes@[a].sparse_components@);
            if let Some(d) = ed.remove_bundle_intersection@[k].1 {
                assert(post.archetypes@[d as int].table_components@
                    == pre.archetypes@[d as int].table_components@);
                assert(post.archetypes@[d as int].sparse_components@
                    == pre.archetypes@[d as int].sparse_components@);
            }
        }
    }
    assert(post.wf_edges());
}

/// The exact state change `detach` performs, written out: the directory
/// after the three record fix-ups, the compacted archetype resident
/// list(s), and the compacted table.
pub open spec fn detach_transition(
    w0: World,
    post: World,
    e: Entity,
    sw_opt: Option<ArchetypeEntity>,
    me_opt: Option<Entity>,
    ml: EntityLocation,
) -> bool {
    let idx = e.index as int;
    let l0 = w0.loc(idx);
    let a0 = l0.archetype_id as int;
    let r0 = l0.archetype_row as int;
    let t0 = l0.table_id as int;
    let tr0 = l0.table_row as int;
    let arch0 = w0.archetypes@[a0];
    let tab0 = w0.tables@[t0];
    let lastA = arch0.entities@.len() - 1;
    let lastT = tab0.entity_ids@.len() - 1;
    let sw = sw_opt.unwrap();
    let me = me_opt.unwrap();
    let sw_i = sw.entity.index as int;
    let me_i = me.index as int;
    let m0 = w0.entities.meta@;
    let m1 = if r0 < lastA {
        m0.update(
            sw_i,
            EntityMeta {
                generation: m0[sw_i].generation,
                location: Some(
                    EntityLocation {
                        archetype_id: l0.archetype_id,
                        archetype_row: l0.archetype_row,
                        table_id: l0.table_id,
                        table_row: sw.table_row,
                    },
                ),
            },
        )
    } else {
        m0
    };
    let m2 = m1.update(idx, EntityMeta { generation: e.generation, location: None });
    let m3 = if tr0 < lastT {
        m2.update(
            me_i,
            EntityMeta {
                generation: m2[me_i].generation,
                location: Some(
                    EntityLocation {
                        archetype_id: ml.archetype_id,
                        archetype_row: ml.archetype_row,
                        table_id: ml.table_id,
                        table_row: l0.table_row,
                    },
                ),
            },
        )
    } else {
        m2
    };
    let a1list = arch0.entities@.update(r0, arch0.entities@.last()).drop_last();
    let am = ml.archetype_id as int;
    let rm = ml.archetype_row as int;
    &&& sw_opt == (if r0 < lastA {
        Some(arch0.entities@.last())
    } else {
        None::<ArchetypeEntity>
    })
    &&& me_opt == (if tr0 < lastT {
        Some(tab0.entity_ids@.last())
    } else {
        None::<Entity>
    })
    &&& (tr0 < lastT ==> ml == (if r0 < lastA && tab0.entity_ids@.last() == arch0.entities@.last().entity {
        EntityLocation {
            archetype_id: l0.archetype_id,
            archetype_row: l0.archetype_row,
            table_id: l0.table_id,
            table_row: sw.table_row,
        }
    } else {
        w0.loc(me_i)
    }))
    &&& post.entities.free@ == w0.entities.free@
    &&& post.entities.meta@ == m3
    &&& post.tables@.len() == w0.tables@.len()
    &&& (forall|t: int|
        0 <= t < w0.tables@.len() && t != t0 ==> #[trigger] post.tables@[t] == w0.tables@[t])
    &&& post.tables@[t0].entity_ids@ == tab0.entity_ids@.update(
        tr0,
        tab0.entity_ids@.last(),
    ).drop_last()
    &&& post.tables@[t0].columns@.len() == tab0.columns@.len()
    &&& post.tables@[t0].col_ids() == tab0.col_ids()
    &&& (forall|c: int|
        0 <= c < tab0.columns@.len() ==> (#[trigger] post.tables@[t0].columns@[c]).slots@
            == tab0.columns@[c].slots@.update(tr0, tab0.columns@[c].slots@.last()).drop_last()
            && post.tables@[t0].columns@[c].component_id == tab0.columns@[c].component_id)
    &&& post.tables@[t0].wf()
    &&& registries_stable(w0, post)
    &&& (forall|a: int|
        0 <= a < w0.archetypes@.len() && a != a0 && !(tr0 < lastT && a == am)
            ==> (#[trigger] post.archetypes@[a]).entities@ == w0.archetypes@[a].entities@)
    &&& (if tr0 < lastT {
        if am == a0 {
            post.archetypes@[a0].entities@ == a1list.update(
                rm,
                ArchetypeEntity { entity: a1list[rm].entity, table_row: l0.table_row },
            )
        } else {
            post.archetypes@[a0].entities@ == a1list && post.archetypes@[am].entities@
                == w0.archetypes@[am].entities@.update(
                rm,
                ArchetypeEntity {
                    entity: w0.archetypes@[am].entities@[rm].entity,
                    table_row: l0.table_row,
                },
            )
        }
    } else {
        post.archetypes@[a0].entities@ == a1list
    })
    &&& post.sparse_stores@ == w0.sparse_stores@
    &&& post.removed@ == w0.removed@
    &&& post.change_tick == w0.change_tick
    &&& post.last_change_tick == w0.last_change_tick
    &&& post.cache_misses == w0.cache_misses
}

/// After the `detach` transition the whole invariant (except sparse
/// exactness at the detached index) holds again, and every other entity
/// presents an unchanged record.
#[verifier::spinoff_prover]
pub proof fn lemma_detach_post(
    w0: World,
    post: World,
    e: Entity,
    sw_opt: Option<ArchetypeEntity>,
    me_opt: Option<Entity>,
    ml: EntityLocation,
)
    requires
        w0.wf(),
        w0.live(e),
        detach_transition(w0, post, e, sw_opt, me_opt, ml),
    ensures
        post.wf_registry(),
        post.wf_tables(),
        post.wf_archetypes(),
        post.wf_bundles(),
        post.wf_edges(),
        post.entities.wf_free(),
        post.wf_locations(),
        post.wf_arch_entities(),
        post.wf_table_rows(),
        post.wf_sparse_except(e.index as int),
        !post.live_idx(e.index as int),
        post.entities.meta@[e.index as int] == (EntityMeta {
            generation: e.generation,
            location: None::<EntityLocation>,
        }),
        post.entities.meta@.len() == w0.entities.meta@.len(),
        forall|i: int| i != e.index as int ==> same_entity(w0, post, i),
{
    let idx = e.index as int;
    let l0 = w0.loc(idx);
    let a0 = l0.archetype_id as int;
    let r0 = l0.archetype_row as int;
    let t0 = l0.table_id as int;
    let tr0 = l0.table_row as int;
    let arch0 = w0.archetypes@[a0];
    let tab0 = w0.tables@[t0];
    let lastA = arch0.entities@.len() - 1;
    let lastT = tab0.entity_ids@.len() - 1;
    let has_sw = r0 < lastA;
    let has_me = tr0 < lastT;
    let sw = sw_opt.unwrap();
    let me = me_opt.unwrap();
    let sw_i = sw.entity.index as int;
    let me_i = me.index as int;
    let am = ml.archetype_id as int;
    let rm = ml.archetype_row as int;
    let a1list = arch0.entities@.update(r0, arch0.entities@.last()).drop_last();

    assert(w0.live_idx(idx));
    assert(w0.loc_ok(idx));
    assert(w0.wf_arch_at(a0));
    assert(w0.archetypes@[a0].entities@[r0] == arch0.entities@[r0]);
    assert(w0.arch_entry_ok(a0, r0));
    assert(tab0.entity_ids@[tr0] == tab0.entity_ids@[tr0]);
    assert(w0.table_row_ok(t0, tr0));
    let eg = w0.entities.meta@[idx].generation;
    assert(eg == e.generation);

    // Facts about the displaced archetype resident.
    assert(w0.entities.meta@.len() <= 0x1_0000_0000);
    if has_sw {
        assert(w0.archetypes@[a0].entities@[lastA] == arch0.entities@.last());
        assert(w0.arch_entry_ok(a0, lastA));
        assert(w0.live_idx(sw_i));
        assert(w0.loc_ok(sw_i));
        assert(w0.loc(sw_i).archetype_id as int == a0);
        assert(w0.loc(sw_i).archetype_row as int == lastA);
        assert(w0.loc(sw_i).table_id == l0.table_id);
        assert(w0.loc(sw_i).table_row == sw.table_row);
        assert(sw_i != idx);
        assert(sw.table_row != tr0) by {
            if sw.table_row as int == tr0 {
                assert(tab0.entity_ids@[tr0] == tab0.entity_ids@[tr0]);
                assert(w0.table_row_ok(t0, tr0));
            }
        }
    }
    // Facts about the displaced table row's owner.
    if has_me {
        assert(w0.tables@[t0].entity_ids@[lastT] == tab0.entity_ids@.last());
        assert(w0.table_row_ok(t0, lastT));
        assert(w0.live_idx(me_i));
        assert(w0.loc_ok(me_i));
        assert(me_i != idx);
        let lme0 = w0.loc(me_i);
        assert(lme0.table_id as int == t0 && lme0.table_row as int == lastT);
        if has_sw && me == sw.entity {
            assert(me_i == sw_i);
            assert(am == a0 && rm == r0);
            assert(ml.table_id as int == t0);
            assert(ml.table_row == sw.table_row);
        } else {
            if has_sw {
                assert(me_i != sw_i) by {
                    if me_i == sw_i {
                        assert(me == sw.entity);
                    }
                }
            }
            assert(ml == lme0);
            assert(w0.archetypes@[am].entities@[rm] == w0.archetypes@[am].entities@[rm]);
            assert(w0.arch_entry_ok(am, rm));
            assert(w0.archetypes@[am].entities@[rm].entity == me);
            if am == a0 {
                assert(rm != r0);
                if has_sw {
                    assert(rm != lastA) by {
                        if rm == lastA {
                            assert(arch0.entities@[lastA].entity == me);
                        }
                    }
                } else {
                    assert(rm != lastA);
                }
                assert(rm < lastA);
                assert(a1list[rm] == arch0.entities@[rm]);
            }
        }
        assert(ml.table_id as int == t0);
    }

    // Registry-shaped parts.
    assert forall|t: int| 0 <= t < post.tables@.len() implies (#[trigger] post.tables@[t]).wf() by {
        if t != t0 {
            assert(post.tables@[t] == w0.tables@[t]);
            assert(w0.tables@[t].wf());
        }
    }
    lemma_stable_wf_parts(w0, post);

    // The free list still holds only dead indices.
    assert forall|k: int|
        0 <= k < post.entities.free@.len() implies (#[trigger] post.entities.free@[k] as int)
        < post.entities.meta@.len() && post.entities.meta@[post.entities.free@[k] as int].location
        is None by {
        let f = w0.entities.free@[k] as int;
        assert(w0.entities.meta@[f].location is None);
        assert(f != idx && (has_sw ==> f != sw_i) && (has_me ==> f != me_i));
    }
    assert(post.entities.wf_free());

    assert(!post.live_idx(idx));

    // Forward location coherence.
    assert forall|i: int| #[trigger] post.live_idx(i) implies post.loc_ok(i) by {
        assert(i != idx);
        assert(w0.live_idx(i));
        assert(w0.loc_ok(i));
        let gi = w0.entities.meta@[i].generation;
        if has_me && i == me_i {
            assert(post.loc(i) == EntityLocation {
                archetype_id: ml.archetype_id,
                archetype_row: ml.archetype_row,
                table_id: ml.table_id,
                table_row: l0.table_row,
            });
            if has_sw && me == sw.entity {
                assert(a1list[rm] == arch0.entities@.last());
                assert(post.archetypes@[a0].entities@[rm] == ArchetypeEntity {
                    entity: me,
                    table_row: l0.table_row,
                });
            } else {
                assert(post.archetypes@[am].entities@[rm] == ArchetypeEntity {
                    entity: me,
                    table_row: l0.table_row,
                });
            }
            assert(post.tables@[t0].entity_ids@[tr0] == me);
        } else if has_sw && i == sw_i {
            assert(post.loc(i) == EntityLocation {
                archetype_id: l0.archetype_id,
                archetype_row: l0.archetype_row,
                table_id: l0.table_id,
                table_row: sw.table_row,
            });
            if has_me && am == a0 {
                assert(rm != r0);
            }
            assert(post.archetypes@[a0].entities@[r0] == arch0.entities@.last());
            // sw keeps its own table row, which was not the compacted one.
            assert(sw.table_row as int != lastT) by {
                if sw.table_row as int == lastT {
                    assert(tab0.entity_ids@[lastT] == tab0.entity_ids@[lastT]);
                    assert(w0.table_row_ok(t0, lastT));
                    assert(tab0.entity_ids@[lastT] == sw.entity);
                }
            }
            assert(post.tables@[t0].entity_ids@[sw.table_row as int] == sw.entity);
        } else {
            let li = w0.loc(i);
            assert(post.loc(i) == li);
            let ai = li.archetype_id as int;
            let ri = li.archetype_row as int;
            assert(w0.wf_arch_at(ai));
            assert(w0.archetypes@[ai].entities@[ri] == w0.archetypes@[ai].entities@[ri]);
            assert(w0.arch_entry_ok(ai, ri));
            if ai == a0 {
                assert(ri != r0) by {
                    if ri == r0 {
                        assert(w0.archetypes@[a0].entities@[r0].entity.index == e.index);
                    }
                }
                assert(ri != lastA) by {
                    if ri == lastA {
                        assert(arch0.entities@[lastA].entity.index as int == i);
                        if has_sw {
                            assert(i == sw_i);
                        } else {
                            assert(r0 == lastA);
                        }
                    }
                }
                assert(a1list[ri] == arch0.entities@[ri]);
                if has_me && am == a0 {
                    assert(ri != rm) by {
                        if ri == rm && !(has_sw && me == sw.entity) {
                            assert(arch0.entities@[rm].entity == me);
                        }
                    }
                }
                assert(post.archetypes@[a0].entities@[ri] == arch0.entities@[ri]);
            } else if has_me && ai == am {
                assert(ri != rm) by {
                    if ri == rm {
                        assert(w0.archetypes@[am].entities@[rm].entity.index as int == i);
                    }
                }
                assert(post.archetypes@[ai].entities@[ri] == w0.archetypes@[ai].entities@[ri]);
            } else {
                assert(post.archetypes@[ai].entities@ == w0.archetypes@[ai].entities@);
            }
            let ti = li.table_id as int;
            let tri = li.table_row as int;
            if ti == t0 {
                assert(tri != tr0) by {
                    if tri == tr0 {
                        assert(w0.tables@[t0].entity_ids@[tr0].index == e.index);
                    }
                }
                assert(tri != lastT) by {
                    if tri == lastT {
                        assert(w0.tables@[t0].entity_ids@[lastT]
                            == w0.tables@[t0].entity_ids@[lastT]);
                        assert(w0.table_row_ok(t0, lastT));
                        if has_me {
                            assert(i == me_i);
                        } else {
                            assert(tr0 == lastT);
                        }
                    }
                }
                assert(post.tables@[t0].entity_ids@[tri] == tab0.entity_ids@[tri]);
            } else {
                assert(post.tables@[ti] == w0.tables@[ti]);
            }
        }
    }
    assert(post.wf_locations());

    // Reverse coherence: archetype residents.
    assert forall|a: int, r: int|
        #![trigger post.archetypes@[a].entities@[r]]
        0 <= a < post.archetypes@.len() && 0 <= r
            < post.archetypes@[a].entities@.len() implies post.arch_entry_ok(a, r) by {
        if a == a0 {
            if has_me && am == a0 && r == rm {
                assert(post.archetypes@[a0].entities@[rm] == ArchetypeEntity {
                    entity: me,
                    table_row: l0.table_row,
                });
                assert(post.entities.meta@[me_i].location == Some(
                    EntityLocation {
                        archetype_id: ml.archetype_id,
                        archetype_row: ml.archetype_row,
                        table_id: ml.table_id,
                        table_row: l0.table_row,
                    },
                ));
            } else if has_sw && r == r0 {
                assert(post.archetypes@[a0].entities@[r0] == arch0.entities@.last());
                assert(w0.arch_entry_ok(a0, lastA));
            } else {
                assert(r != r0 || !has_sw);
                assert(r < lastA);
                assert(r != r0);
                assert(post.archetypes@[a0].entities@[r] == arch0.entities@[r]);
                assert(w0.arch_entry_ok(a0, r));
                let j = arch0.entities@[r].entity.index as int;
                assert(j != idx);
                assert((has_sw ==> j != sw_i)) by {
                    if has_sw && j == sw_i {
                        assert(w0.arch_entry_ok(a0, lastA));
                    }
                }
                assert((has_me ==> j != me_i)) by {
                    if has_me && j == me_i {
                        if has_sw && me == sw.entity {
                            assert(w0.arch_entry_ok(a0, lastA));
                        } else {
                            assert(w0.arch_entry_ok(am, rm));
                        }
                    }
                }
            }
        } else if has_me && a == am {
            if r == rm {
                assert(post.archetypes@[am].entities@[rm] == ArchetypeEntity {
                    entity: me,
                    table_row: l0.table_row,
                });
            } else {
                assert(post.archetypes@[a].entities@[r] == w0.archetypes@[a].entities@[r]);
                assert(w0.arch_entry_ok(a, r));
                let j = w0.archetypes@[a].entities@[r].entity.index as int;
                assert(j != idx && (has_sw ==> j != sw_i) && j != me_i) by {
                    if j == idx {
                        assert(w0.loc(j).archetype_id as int == a);
                    }
                    if has_sw && j == sw_i {
                        assert(w0.arch_entry_ok(a0, lastA));
                    }
                    if j == me_i {
                        assert(w0.arch_entry_ok(am, rm));
                    }
                }
            }
        } else {
            assert(post.archetypes@[a].entities@ == w0.archetypes@[a].entities@);
            assert(w0.archetypes@[a].entities@[r] == w0.archetypes@[a].entities@[r]);
            assert(w0.arch_entry_ok(a, r));
            let j = w0.archetypes@[a].entities@[r].entity.index as int;
            assert(j != idx && (has_sw ==> j != sw_i) && (has_me ==> j != me_i)) by {
                if j == idx {
                    assert(w0.loc(j).archetype_id as int == a);
                }
                if has_sw && j == sw_i {
                    assert(w0.loc(sw_i).archetype_id as int == a0);
                }
                if has_me && j == me_i {
                    if has_sw && me == sw.entity {
                        assert(w0.loc(sw_i).archetype_id as int == a0);
                    } else {
                        assert(w0.arch_entry_ok(am, rm));
                        assert(w0.loc(me_i).archetype_id as int == am);
                    }
                }
            }
        }
    }
    assert(post.wf_arch_entities());

    // Reverse coherence: table rows.
    assert forall|t: int, r: int|
        #![trigger post.tables@[t].entity_ids@[r]]
        0 <= t < post.tables@.len() && 0 <= r
            < post.tables@[t].entity_ids@.len() implies post.table_row_ok(t, r) by {
        if t == t0 {
            assert(post.tables@[t0].entity_ids@.len() == lastT);
            if has_me && r == tr0 {
                assert(post.tables@[t0].entity_ids@[tr0] == me);
            } else {
                assert(r != tr0);
                assert(post.tables@[t0].entity_ids@[r] == tab0.entity_ids@[r]);
                assert(w0.table_row_ok(t0, r));
                let j = tab0.entity_ids@[r].index as int;
                assert(j != idx);
                assert((has_me ==> j != me_i)) by {
                    if has_me && j == me_i {
                        assert(w0.table_row_ok(t0, lastT));
                    }
                }
                if has_sw && j == sw_i {
                    assert(w0.loc(sw_i).table_row as int == r);
                }
            }
        } else {
            assert(post.tables@[t] == w0.tables@[t]);
            assert(w0.tables@[t].entity_ids@[r] == w0.tables@[t].entity_ids@[r]);
            assert(w0.table_row_ok(t, r));
            let j = w0.tables@[t].entity_ids@[r].index as int;
            assert(j != idx && (has_sw ==> j != sw_i) && (has_me ==> j != me_i)) by {
                if j == idx {
                    assert(w0.loc(j).table_id as int == t);
                }
                if has_sw && j == sw_i {
                    assert(w0.loc(sw_i).table_id as int == t0);
                }
                if has_me && j == me_i {
                    assert(w0.loc(me_i).table_id as int == t0);
                }
            }
        }
    }
    assert(post.wf_table_rows());

    // Sparse exactness away from the detached index.
    assert forall|cid: usize| post.valid_cid(cid) implies #[trigger] post.wf_sparse_at_except(
        cid,
        idx,
    ) by {
        assert(w0.wf_sparse_at_except(cid, -1));
        if post.is_sparse(cid) {
            assert forall|i: int|
                i != idx implies (#[trigger] post.sparse_stores@[cid as int].has(i)
                <==> post.sparse_expected(cid, i)) by {
                assert(w0.sparse_stores@[cid as int].has(i) <==> w0.sparse_expected(cid, i));
                assert(post.live_idx(i) <==> w0.live_idx(i));
                if post.live_idx(i) {
                    assert(post.loc(i).archetype_id == w0.loc(i).archetype_id);
                    assert(post.arch_of(i).sparse_components@ == w0.arch_of(i).sparse_components@);
                }
            }
        }
    }
    assert(post.wf_sparse_except(idx));

    // Every other entity's record is unchanged.
    assert forall|i: int| i != idx implies same_entity(w0, post, i) by {
        assert(post.live_idx(i) <==> w0.live_idx(i));
        if w0.live_idx(i) {
            let li = w0.loc(i);
            let lp = post.loc(i);
            assert(lp.archetype_id == li.archetype_id);
            assert(post.arch_of(i).table_components@ == w0.arch_of(i).table_components@);
            assert(post.arch_of(i).sparse_components@ == w0.arch_of(i).sparse_components@);
            assert(w0.loc_ok(i));
            assert(w0.wf_arch_at(li.archetype_id as int));
            assert forall|cid: usize| #[trigger] w0.has_comp(i, cid) implies post.slot_at(i, cid)
                == w0.slot_at(i, cid) by {
                if w0.is_sparse(cid) {
                    assert(post.sparse_stores@[cid as int] == w0.sparse_stores@[cid as int]);
                } else {
                    let ti = li.table_id as int;
                    // A table-classified component the entity has must lie
                    // in its archetype's table components, so its table
                    // has the column.
                    assert(!w0.arch_of(i).sparse_components@.contains(cid)) by {
                        if w0.arch_of(i).sparse_components@.contains(cid) {
                            let k = choose|k: int|
                                0 <= k < w0.arch_of(i).sparse_components@.len() && w0.arch_of(
                                    i,
                                ).sparse_components@[k] == cid;
                            assert(w0.is_sparse(w0.arch_of(i).sparse_components@[k]));
                        }
                    }
                    assert(w0.arch_of(i).table_components@.contains(cid));
                    assert(w0.tables@[ti].col_ids() == w0.arch_of(i).table_components@);
                    assert(w0.tables@[ti].has_col(cid));
                    assert(post.loc(i).table_id as int == ti);
                    if ti == t0 {
                        assert(w0.tables@[t0].wf());
                        assert(post.tables@[t0].wf());
                        let c = w0.tables@[t0].col_index(cid);
                        assert(0 <= c < tab0.columns@.len() && tab0.columns@[c].component_id
                            == cid);
                        w0.tables@[t0].lemma_col_index(c);
                        post.tables@[t0].lemma_col_index(c);
                        let tri = li.table_row as int;
                        let trp = post.loc(i).table_row as int;
                        if has_me && i == me_i {
                            assert(trp == tr0);
                            assert(post.tables@[t0].columns@[c].slots@[tr0]
                                == tab0.columns@[c].slots@[lastT]);
                        } else {
                            assert(trp == tri);
                            assert(tri != tr0);
                            assert(tri != lastT) by {
                                if tri == lastT {
                                    assert(w0.tables@[t0].entity_ids@[lastT]
                                        == w0.tables@[t0].entity_ids@[lastT]);
                                    assert(w0.table_row_ok(t0, lastT));
                                }
                            }
                            assert(post.tables@[t0].columns@[c].slots@[tri]
                                == tab0.columns@[c].slots@[tri]);
                        }
                    } else {
                        assert(post.tables@[ti] == w0.tables@[ti]);
                        assert(post.loc(i).table_row == li.table_row);
                    }
                }
            }
        }
    }
}

/// After hooking a reserved entity into a destination archetype (three
/// appends and one directory write), the whole invariant holds again and
/// every other entity presents an unchanged record.
#[verifier::spinoff_prover]
pub proof fn lemma_attach_post(
    w0: World,
    post: World,
    e: Entity,
    dest: usize,
    pairs: Seq<(usize, Slot)>,
    arow: usize,
    trow: usize,
)
    requires
        w0.wf_registry(),
        w0.wf_tables(),
        w0.wf_archetypes(),
        w0.wf_bundles(),
        w0.wf_edges(),
        w0.entities.wf_free(),
        w0.wf_locations(),
        w0.wf_arch_entities(),
        w0.wf_table_rows(),
        w0.wf_sparse_except(e.index as int),
        (dest as int) < w0.archetypes@.len(),
        (e.index as int) < w0.entities.meta@.len(),
        w0.entities.meta@[e.index as int] == (EntityMeta {
            generation: e.generation,
            location: None::<EntityLocation>,
        }),
        forall|k: int| 0 <= k < w0.entities.free@.len() ==> w0.entities.free@[k] != e.index,
        forall|cid: usize|
            w0.valid_cid(cid) && w0.is_sparse(cid) ==> ((#[trigger] w0.sparse_stores@[
                cid as int
            ].has(e.index as int)) <==> w0.archetypes@[dest as int].sparse_components@.contains(
                cid,
            )),
        pairs.len() == w0.archetypes@[dest as int].table_components@.len(),
        forall|k: int|
            0 <= k < pairs.len() ==> (#[trigger] pairs[k]).0 == w0.archetypes@[
                dest as int
            ].table_components@[k],
        arow as int == w0.archetypes@[dest as int].entities@.len(),
        trow as int == w0.tables@[w0.archetypes@[dest as int].table_id as int].entity_ids@.len(),
        registries_stable(w0, post),
        post.entities.free@ == w0.entities.free@,
        post.entities.meta@ == w0.entities.meta@.update(
            e.index as int,
            EntityMeta {
                generation: e.generation,
                location: Some(
                    EntityLocation {
                        archetype_id: dest,
                        archetype_row: arow,
                        table_id: w0.archetypes@[dest as int].table_id,
                        table_row: trow,
                    },
                ),
            },
        ),
        forall|t: int|
            0 <= t < w0.tables@.len() && t != w0.archetypes@[dest as int].table_id as int
                ==> #[trigger] post.tables@[t] == w0.tables@[t],
        ({
            let td = w0.archetypes@[dest as int].table_id as int;
            let tab0 = w0.tables@[td];
            &&& post.tables@[td].entity_ids@ == tab0.entity_ids@.push(e)
            &&& post.tables@[td].columns@.len() == tab0.columns@.len()
            &&& post.tables@[td].wf()
            &&& (forall|c: int|
                0 <= c < tab0.columns@.len() ==> (#[trigger] post.tables@[td].columns@[c]).slots@
                    == tab0.columns@[c].slots@.push(pairs[c].1) && post.tables@[
                    td
                ].columns@[c].component_id == tab0.columns@[c].component_id)
        }),
        forall|a: int|
            0 <= a < w0.archetypes@.len() && a != dest as int ==> (#[trigger] post.archetypes@[
                a
            ]).entities@ == w0.archetypes@[a].entities@,
        post.archetypes@[dest as int].entities@ == w0.archetypes@[dest as int].entities@.push(
            ArchetypeEntity { entity: e, table_row: trow },
        ),
        post.sparse_stores@ == w0.sparse_stores@,
        post.removed@ == w0.removed@,
    ensures
        post.wf(),
        post.live(e),
        post.live_idx(e.index as int),
        post.loc(e.index as int).archetype_id == dest,
        post.entities.meta@.len() == w0.entities.meta@.len(),
        forall|k: int|
            0 <= k < pairs.len() ==> post.slot_at(e.index as int, (#[trigger] pairs[k]).0)
                == pairs[k].1,
        forall|cid: usize|
            w0.valid_cid(cid) && w0.is_sparse(cid) && w0.sparse_stores@[cid as int].has(
                e.index as int,
            ) ==> #[trigger] post.slot_at(e.index as int, cid) == w0.sparse_stores@[cid as int].slot(
                e.index as int,
            ),
        forall|i: int| i != e.index as int ==> same_entity(w0, post, i),
{
    let idx = e.index as int;
    let td = w0.archetypes@[dest as int].table_id as int;
    let tab0 = w0.tables@[td];
    let arch0 = w0.archetypes@[dest as int];
    assert(w0.wf_arch_at(dest as int));
    assert(w0.entities.meta@.len() <= 0x1_0000_0000);

    assert forall|t: int| 0 <= t < post.tables@.len() implies (#[trigger] post.tables@[t]).wf() by {
        if t != td {
            assert(post.tables@[t] == w0.tables@[t]);
            assert(w0.tables@[t].wf());
        }
    }
    lemma_stable_wf_parts(w0, post);

    assert forall|k: int|
        0 <= k < post.entities.free@.len() implies (#[trigger] post.entities.free@[k] as int)
        < post.entities.meta@.len() && post.entities.meta@[post.entities.free@[k] as int].location
        is None by {
        assert(w0.entities.meta@[w0.entities.free@[k] as int].location is None);
    }
    assert(post.entities.wf_free());
    assert(post.live_idx(idx));
    assert(post.loc(idx) == EntityLocation {
        archetype_id: dest,
        archetype_row: arow,
        table_id: w0.archetypes@[dest as int].table_id,
        table_row: trow,
    });

    // Forward coherence.
    assert forall|i: int| #[trigger] post.live_idx(i) implies post.loc_ok(i) by {
        if i == idx {
            assert(post.archetypes@[dest as int].entities@[arow as int] == ArchetypeEntity {
                entity: e,
                table_row: trow,
            });
            assert(post.tables@[td].entity_ids@[trow as int] == e);
        } else {
            assert(w0.live_idx(i));
            assert(w0.loc_ok(i));
            let li = w0.loc(i);
            assert(post.loc(i) == li);
            let ai = li.archetype_id as int;
            let ri = li.archetype_row as int;
            assert(w0.wf_arch_at(ai));
            if ai == dest as int {
                assert(post.archetypes@[ai].entities@[ri] == arch0.entities@[ri]);
            } else {
                assert(post.archetypes@[ai].entities@ == w0.archetypes@[ai].entities@);
            }
            let ti = li.table_id as int;
            if ti == td {
                assert(post.tables@[td].entity_ids@[li.table_row as int]
                    == tab0.entity_ids@[li.table_row as int]);
            } else {
                assert(post.tables@[ti] == w0.tables@[ti]);
            }
        }
    }
    assert(post.wf_locations());

    // Reverse coherence: archetype residents.
    assert forall|a: int, r: int|
        #![trigger post.archetypes@[a].entities@[r]]
        0 <= a < post.archetypes@.len() && 0 <= r
            < post.archetypes@[a].entities@.len() implies post.arch_entry_ok(a, r) by {
        if a == dest as int && r == arow as int {
            assert(post.archetypes@[a].entities@[r] == ArchetypeEntity {
                entity: e,
                table_row: trow,
            });
        } else {
            assert(post.archetypes@[a].entities@[r] == w0.archetypes@[a].entities@[r]);
            assert(w0.arch_entry_ok(a, r));
            let j = w0.archetypes@[a].entities@[r].entity.index as int;
            assert(j != idx);
        }
    }
    assert(post.wf_arch_entities());

    // Reverse coherence: table rows.
    assert forall|t: int, r: int|
        #![trigger post.tables@[t].entity_ids@[r]]
        0 <= t < post.tables@.len() && 0 <= r
            < post.tables@[t].entity_ids@.len() implies post.table_row_ok(t, r) by {
        if t == td && r == trow as int {
            assert(post.tables@[t].entity_ids@[r] == e);
        } else {
            if t == td {
                assert(post.tables@[t].entity_ids@[r] == tab0.entity_ids@[r]);
            } else {
                assert(post.tables@[t] == w0.tables@[t]);
            }
            assert(w0.tables@[t].entity_ids@[r] == w0.tables@[t].entity_ids@[r]);
            assert(w0.table_row_ok(t, r));
            let j = w0.tables@[t].entity_ids@[r].index as int;
            assert(j != idx);
        }
    }
    assert(post.wf_table_rows());

    // Sparse exactness, now including the attached index.
    assert forall|cid: usize| post.valid_cid(cid) implies #[trigger] post.wf_sparse_at_except(
        cid,
        -1,
    ) by {
        assert(w0.wf_sparse_at_except(cid, idx));
        if post.is_sparse(cid) {
            assert forall|i: int|
                i != -1 implies (#[trigger] post.sparse_stores@[cid as int].has(i)
                <==> post.sparse_expected(cid, i)) by {
                if i == idx {
                    assert(post.arch_of(idx).sparse_components@ == arch0.sparse_components@);
                    assert(w0.sparse_stores@[cid as int].has(idx)
                        <==> arch0.sparse_components@.contains(cid));
                } else {
                    assert(w0.sparse_stores@[cid as int].has(i) <==> w0.sparse_expected(cid, i));
                    assert(post.live_idx(i) <==> w0.live_idx(i));
                    if post.live_idx(i) {
                        assert(post.loc(i) == w0.loc(i));
                        assert(post.arch_of(i).sparse_components@
                            == w0.arch_of(i).sparse_components@);
                    }
                }
            }
        }
    }
    assert(post.wf_sparse());
    assert(post.wf());

    // The attached entity's table slots are the given pairs.
    assert forall|k: int| 0 <= k < pairs.len() implies post.slot_at(
        idx,
        (#[trigger] pairs[k]).0,
    ) == pairs[k].1 by {
        let cid = pairs[k].0;
        assert(cid == arch0.table_components@[k]);
        assert(!w0.is_sparse(cid));
        assert(!post.is_sparse(cid));
        assert(tab0.col_ids().len() == tab0.columns@.len());
        assert(tab0.col_ids()[k] == tab0.columns@[k].component_id);
        assert(post.tables@[td].wf());
        post.tables@[td].lemma_col_index(k);
        assert(post.tables@[td].columns@[k].slots@[trow as int] == pairs[k].1);
    }

    // Its sparse slots are the cells that were already in place.
    assert forall|cid: usize|
        w0.valid_cid(cid) && w0.is_sparse(cid) && w0.sparse_stores@[cid as int].has(
            idx,
        ) implies #[trigger] post.slot_at(idx, cid) == w0.sparse_stores@[cid as int].slot(idx) by {
        assert(post.sparse_stores@[cid as int] == w0.sparse_stores@[cid as int]);
    }

    // Everyone else is untouched.
    assert forall|i: int| i != idx implies same_entity(w0, post, i) by {
        assert(post.live_idx(i) <==> w0.live_idx(i));
        if w0.live_idx(i) {
            let li = w0.loc(i);
            assert(post.loc(i) == li);
            assert(w0.loc_ok(i));
            assert(w0.wf_arch_at(li.archetype_id as int));
            assert(post.arch_of(i).table_components@ == w0.arch_of(i).table_components@);
            assert(post.arch_of(i).sparse_components@ == w0.arch_of(i).sparse_components@);
            assert forall|cid: usize| #[trigger] w0.has_comp(i, cid) implies post.slot_at(i, cid)
                == w0.slot_at(i, cid) by {
                if w0.is_sparse(cid) {
                    assert(post.sparse_stores@[cid as int] == w0.sparse_stores@[cid as int]);
                } else {
                    let ti = li.table_id as int;
                    assert(!w0.arch_of(i).sparse_components@.contains(cid)) by {
                        if w0.arch_of(i).sparse_components@.contains(cid) {
                            let k = choose|k: int|
                                0 <= k < w0.arch_of(i).sparse_components@.len() && w0.arch_of(
                                    i,
                                ).sparse_components@[k] == cid;
                            assert(w0.is_sparse(w0.arch_of(i).sparse_components@[k]));
                        }
                    }
                    assert(w0.arch_of(i).table_components@.contains(cid));
                    assert(w0.tables@[ti].col_ids() == w0.arch_of(i).table_components@);
                    assert(w0.tables@[ti].has_col(cid));
                    if ti == td {
                        assert(w0.tables@[td].wf());
                        assert(post.tables@[td].wf());
                        let c = w0.tables@[td].col_index(cid);
                        assert(0 <= c < tab0.columns@.len() && tab0.columns@[c].component_id
                            == cid);
                        w0.tables@[td].lemma_col_index(c);
                        post.tables@[td].lemma_col_index(c);
                        assert(post.tables@[td].columns@[c].slots@[li.table_row as int]
                            == tab0.columns@[c].slots@[li.table_row as int]);
                    } else {
                        assert(post.tables@[ti] == w0.tables@[ti]);
                    }
                }
            }
        }
    }
}

/// Only the passive state moved (the change clock, the miss counter, or
/// the pending-removal ledger's contents): the invariant and every
/// entity's record survive unchanged.
pub proof fn lemma_wf_counters_only(pre: World, post: World)
    requires
        pre.wf(),
        post.components == pre.components,
        post.entities == pre.entities,
        post.archetypes@ == pre.archetypes@,
        post.tables@ == pre.tables@,
        post.sparse_stores@ == pre.sparse_stores@,
        post.removed@.len() == pre.removed@.len(),
        post.bundles == pre.bundles,
    ensures
        post.wf(),
        forall|i: int| same_entity(pre, post, i),
{
    assert(post.wf_registry());
    assert forall|t: int| 0 <= t < post.tables@.len() implies (#[trigger] post.tables@[t]).wf() by {
        assert(pre.tables@[t].wf());
    }
    assert(post.wf_tables());
    assert forall|a: int| 0 <= a < post.archetypes@.len() implies #[trigger] post.wf_arch_at(
        a,
    ) by {
        assert(pre.wf_arch_at(a));
    }
    assert(post.wf_archetypes());
    assert forall|b: int| 0 <= b < post.bundles.list@.len() implies #[trigger] post.wf_bundle_at(
        b,
    ) by {
        assert(pre.wf_bundle_at(b));
    }
    assert(post.wf_bundles());
    assert forall|a: int| 0 <= a < post.archetypes@.len() implies #[trigger] post.wf_edges_at(
        a,
    ) by {
        assert(pre.wf_edges_at(a));
    }
    assert(post.wf_edges());
    assert forall|i: int| #[trigger] post.live_idx(i) implies post.loc_ok(i) by {
        assert(pre.live_idx(i));
        assert(pre.loc_ok(i));
    }
    assert(post.wf_locations());
    assert forall|a: int, r: int|
        #![trigger post.archetypes@[a].entities@[r]]
        0 <= a < post.archetypes@.len() && 0 <= r
            < post.archetypes@[a].entities@.len() implies post.arch_entry_ok(a, r) by {
        assert(pre.archetypes@[a].entities@[r] == pre.archetypes@[a].entities@[r]);
        assert(pre.arch_entry_ok(a, r));
    }
    assert(post.wf_arch_entities());
    assert forall|t: int, r: int|
        #![trigger post.tables@[t].entity_ids@[r]]
        0 <= t < post.tables@.len() && 0 <= r
            < post.tables@[t].entity_ids@.len() implies post.table_row_ok(t, r) by {
        assert(pre.tables@[t].entity_ids@[r] == pre.tables@[t].entity_ids@[r]);
        assert(pre.table_row_ok(t, r));
    }
    assert(post.wf_table_rows());
    assert forall|cid: usize| post.valid_cid(cid) implies #[trigger] post.wf_sparse_at_except(
        cid,
        -1,
    ) by {
        assert(pre.wf_sparse_at_except(cid, -1));
        if post.is_sparse(cid) {
            assert forall|i: int|
                i != -1 implies (#[trigger] post.sparse_stores@[cid as int].has(i)
                <==> post.sparse_expected(cid, i)) by {
                assert(pre.sparse_stores@[cid as int].has(i) <==> pre.sparse_expected(cid, i));
            }
        }
    }
    assert(post.wf_sparse());
    assert(post.wf());
    assert forall|i: int| same_entity(pre, post, i) by {
        if pre.live_idx(i) {
            assert forall|cid: usize| #[trigger] pre.has_comp(i, cid) implies post.slot_at(i, cid)
                == pre.slot_at(i, cid) by {}
        }
    }
}

/// Only sparse cells at one entity index moved (during a relocation):
/// every invariant part except sparse exactness at that index survives,
/// and so does sparse exactness away from it.
pub proof fn lemma_sparse_only_parts(pre: World, post: World, except: int)
    requires
        pre.wf_registry(),
        pre.wf_tables(),
        pre.wf_archetypes(),
        pre.wf_bundles(),
        pre.wf_edges(),
        pre.entities.wf_free(),
        pre.wf_locations(),
        pre.wf_arch_entities(),
        pre.wf_table_rows(),
        pre.wf_sparse_except(except),
        post.components == pre.components,
        post.entities == pre.entities,
        post.archetypes@ == pre.archetypes@,
        post.tables@ == pre.tables@,
        post.removed@ == pre.removed@,
        post.bundles == pre.bundles,
        post.sparse_stores@.len() == pre.sparse_stores@.len(),
        forall|c: int, i: int|
            0 <= c < pre.sparse_stores@.len() && i != except ==> ((#[trigger] post.sparse_stores@[
                c
            ].has(i)) <==> pre.sparse_stores@[c].has(i)) && (pre.sparse_stores@[c].has(i)
                ==> post.sparse_stores@[c].slot(i) == pre.sparse_stores@[c].slot(i)),
        forall|c: int|
            0 <= c < pre.sparse_stores@.len() && !pre.is_sparse(c as usize)
                ==> #[trigger] post.sparse_stores@[c] == pre.sparse_stores@[c],
    ensures
        post.wf_registry(),
        post.wf_tables(),
        post.wf_archetypes(),
        post.wf_bundles(),
        post.wf_edges(),
        post.entities.wf_free(),
        post.wf_locations(),
        post.wf_arch_entities(),
        post.wf_table_rows(),
        post.wf_sparse_except(except),
{
    assert(post.wf_registry());
    assert forall|t: int| 0 <= t < post.tables@.len() implies (#[trigger] post.tables@[t]).wf() by {
        assert(pre.tables@[t].wf());
    }
    lemma_stable_wf_parts(pre, post);
    assert forall|i: int| #[trigger] post.live_idx(i) implies post.loc_ok(i) by {
        assert(pre.live_idx(i));
        assert(pre.loc_ok(i));
    }
    assert(post.wf_locations());
    assert forall|a: int, r: int|
        #![trigger post.archetypes@[a].entities@[r]]
        0 <= a < post.archetypes@.len() && 0 <= r
            < post.archetypes@[a].entities@.len() implies post.arch_entry_ok(a, r) by {
        assert(pre.archetypes@[a].entities@[r] == pre.archetypes@[a].entities@[r]);
        assert(pre.arch_entry_ok(a, r));
    }
    assert(post.wf_arch_entities());
    assert forall|t: int, r: int|
        #![trigger post.tables@[t].entity_ids@[r]]
        0 <= t < post.tables@.len() && 0 <= r
            < post.tables@[t].entity_ids@.len() implies post.table_row_ok(t, r) by {
        assert(pre.tables@[t].entity_ids@[r] == pre.tables@[t].entity_ids@[r]);
        assert(pre.table_row_ok(t, r));
    }
    assert(post.wf_table_rows());
    assert forall|cid: usize| post.valid_cid(cid) implies #[trigger] post.wf_sparse_at_except(
        cid,
        except,
    ) by {
        assert(pre.wf_sparse_at_except(cid, except));
        if post.is_sparse(cid) {
            assert forall|i: int|
                i != except implies (#[trigger] post.sparse_stores@[cid as int].has(i)
                <==> post.sparse_expected(cid, i)) by {
                assert(pre.sparse_stores@[cid as int].has(i) <==> pre.sparse_expected(cid, i));
                assert(post.sparse_stores@[cid as int].has(i) <==> pre.sparse_stores@[
                    cid as int
                ].has(i));
            }
        } else {
            assert(post.sparse_stores@[cid as int] == pre.sparse_stores@[cid as int]);
        }
    }
    assert(post.wf_sparse_except(except));
}


impl World {
    /// Unhooks a live entity from its archetype and table. Both lists are
    /// compacted by swap-remove; whichever entities were displaced (the
    /// last archetype resident into the vacated archetype row, the last
    /// table row into the vacated table row) get their records repointed
    /// immediately, so every other entity's location still matches
    /// physical reality. The entity's own location is cleared; its sparse
    /// cells stay in place; its table row is returned in column order.
    #[verifier::spinoff_prover]
    pub(crate) fn detach(&mut self, e: Entity) -> (row: Vec<(usize, Slot)>)
        requires
            old(self).wf(),
            old(self).live(e),
        ensures
            final(self).wf_registry(),
            final(self).wf_tables(),
            final(self).wf_archetypes(),
            final(self).wf_bundles(),
            final(self).wf_edges(),
            final(self).entities.wf_free(),
            final(self).wf_locations(),
            final(self).wf_arch_entities(),
            final(self).wf_table_rows(),
            final(self).wf_sparse_except(e.index as int),
            registries_stable(*old(self), *final(self)),
            final(self).sparse_stores@ == old(self).sparse_stores@,
            final(self).removed@ == old(self).removed@,
            final(self).change_tick == old(self).change_tick,
            final(self).last_change_tick == old(self).last_change_tick,
            final(self).cache_misses == old(self).cache_misses,
            final(self).entities.free@ == old(self).entities.free@,
            final(self).entities.meta@.len() == old(self).entities.meta@.len(),
            !final(self).live_idx(e.index as int),
            final(self).entities.meta@[e.index as int] == (EntityMeta {
                generation: e.generation,
                location: None::<EntityLocation>,
            }),
            row@.len() == old(self).arch_of(e.index as int).table_components@.len(),
            forall|k: int|
                0 <= k < row@.len() ==> (#[trigger] row@[k]).0 == old(self).arch_of(
                    e.index as int,
                ).table_components@[k] && row@[k].1 == old(self).slot_at(
                    e.index as int,
                    row@[k].0,
                ),
            forall|i: int| i != e.index as int ==> same_entity(*old(self), *final(self), i),
    {
        let ghost w0 = *old(self);
        let ghost idx = e.index as int;
        let l = self.entities.get(e).unwrap();
        let ghost l0 = l;
        let ghost a0 = l.archetype_id as int;
        let ghost r0 = l.archetype_row as int;
        let ghost t0 = l.table_id as int;
        let ghost tr0 = l.table_row as int;
        proof {
            assert(w0.live_idx(idx));
            assert(w0.loc_ok(idx));
            assert(w0.wf_arch_at(a0));
            assert(w0.tables@[t0].wf());
        }
        let ghost arch0 = w0.archetypes@[a0];
        let ghost tab0 = w0.tables@[t0];
        // Read the row before any compaction.
        let row = self.tables[l.table_id].read_row(l.table_row);
        proof {
            // Row pairs line up with the archetype's table components.
            assert(tab0.col_ids().len() == tab0.columns@.len());
            assert forall|k: int| 0 <= k < row@.len() implies (#[trigger] row@[k]).0
                == arch0.table_components@[k] && row@[k].1 == w0.slot_at(idx, row@[k].0) by {
                assert(row@[k] == (tab0.columns@[k].component_id, tab0.columns@[k].slots@[tr0]));
                assert(tab0.col_ids()[k] == tab0.columns@[k].component_id);
                tab0.lemma_col_index(k);
                assert(!w0.is_sparse(arch0.table_components@[k]));
            }
        }
        // Compact the archetype's resident list.
        let moved_arch = self.archetypes[l.archetype_id].swap_remove_entity(l.archetype_row);
        if let Some(sw) = moved_arch {
            proof {
                // The displaced resident was the last entry; it is live
                // and is not `e`.
                assert(w0.archetypes@[a0].entities@[arch0.entities@.len() - 1]
                    == arch0.entities@.last());
                assert(w0.arch_entry_ok(a0, arch0.entities@.len() - 1));
            }
            self.entities.set_location(
                sw.entity.index,
                Some(
                    EntityLocation {
                        archetype_id: l.archetype_id,
                        archetype_row: l.archetype_row,
                        table_id: l.table_id,
                        table_row: sw.table_row,
                    },
                ),
            );
        }
        // Clear the detached entity's own record.
        self.entities.set_location(e.index, None);
        // Compact the table.
        let ghost lastA = arch0.entities@.len() - 1;
        let ghost lastT = tab0.entity_ids@.len() - 1;
        let moved_tab = self.tables[l.table_id].swap_remove_row(l.table_row);
        let ghost mut g_ml: EntityLocation = l0;
        if let Some(me) = moved_tab {
            proof {
                assert(w0.tables@[t0].entity_ids@[lastT] == tab0.entity_ids@.last());
                assert(w0.table_row_ok(t0, lastT));
                assert(me.index as int != idx);
                assert(w0.live_idx(me.index as int));
                assert(w0.loc_ok(me.index as int));
                if moved_arch is Some {
                    let sw = moved_arch.unwrap();
                    assert(w0.arch_entry_ok(a0, lastA));
                    if me.index == sw.entity.index {
                        assert(me == sw.entity);
                    }
                }
            }
            // Repoint the displaced row's owner: both its archetype entry
            // and its location record now name the vacated table row.
            let ml = self.entities.get(me).unwrap();
            proof {
                g_ml = ml;
                let lm0 = w0.loc(me.index as int);
                assert(w0.archetypes@[a0].entities@[lm0.archetype_row as int]
                    == arch0.entities@[lm0.archetype_row as int]);
                if lm0.archetype_id as int == a0 {
                    // Its archetype entry survived the archetype
                    // compaction at its old position (or it is the
                    // displaced resident itself, now at the vacated row).
                    assert(w0.arch_entry_ok(a0, lm0.archetype_row as int));
                }
            }
            self.archetypes[ml.archetype_id].set_entity_table_row(ml.archetype_row, l.table_row);
            self.entities.set_location(
                me.index,
                Some(
                    EntityLocation {
                        archetype_id: ml.archetype_id,
                        archetype_row: ml.archetype_row,
                        table_id: ml.table_id,
                        table_row: l.table_row,
                    },
                ),
            );
        }
        proof {
            lemma_detach_post(w0, *self, e, moved_arch, moved_tab, g_ml);
        }
        row
    }

    /// Hooks a reserved (dead, generation-matching) entity into archetype
    /// `dest`: appends its table row from `pairs`, appends its archetype
    /// entry, and writes its location record. The caller has already
    /// shaped the entity's sparse cells to `dest`'s sparse component set.
    #[verifier::spinoff_prover]
    pub(crate) fn attach(&mut self, e: Entity, dest: usize, pairs: &Vec<(usize, Slot)>)
        requires
            old(self).wf_registry(),
            old(self).wf_tables(),
            old(self).wf_archetypes(),
            old(self).wf_bundles(),
            old(self).wf_edges(),
            old(self).entities.wf_free(),
            old(self).wf_locations(),
            old(self).wf_arch_entities(),
            old(self).wf_table_rows(),
            old(self).wf_sparse_except(e.index as int),
            (dest as int) < old(self).archetypes@.len(),
            (e.index as int) < old(self).entities.meta@.len(),
            old(self).entities.meta@[e.index as int] == (EntityMeta {
                generation: e.generation,
                location: None::<EntityLocation>,
            }),
            forall|k: int|
                0 <= k < old(self).entities.free@.len() ==> old(self).entities.free@[k] != e.index,
            forall|cid: usize|
                old(self).valid_cid(cid) && old(self).is_sparse(cid) ==> ((#[trigger] old(self).sparse_stores@[cid as int].has(e.index as int)) <==> old(self).archetypes@[
                    dest as int
                ].sparse_components@.contains(cid)),
            pairs@.len() == old(self).archetypes@[dest as int].table_components@.len(),
            forall|k: int|
                0 <= k < pairs@.len() ==> (#[trigger] pairs@[k]).0 == old(self).archetypes@[
                    dest as int
                ].table_components@[k],
        ensures
            final(self).wf(),
            final(self).live(e),
            final(self).live_idx(e.index as int),
            final(self).loc(e.index as int).archetype_id == dest,
            registries_stable(*old(self), *final(self)),
            final(self).sparse_stores@ == old(self).sparse_stores@,
            final(self).removed@ == old(self).removed@,
            final(self).change_tick == old(self).change_tick,
            final(self).last_change_tick == old(self).last_change_tick,
            final(self).cache_misses == old(self).cache_misses,
            final(self).entities.free@ == old(self).entities.free@,
            final(self).entities.meta@.len() == old(self).entities.meta@.len(),
            forall|k: int|
                0 <= k < pairs@.len() ==> final(self).slot_at(
                    e.index as int,
                    (#[trigger] pairs@[k]).0,
                ) == pairs@[k].1,
            forall|cid: usize|
                old(self).valid_cid(cid) && old(self).is_sparse(cid) && old(self).sparse_stores@[cid as int].has(e.index as int) ==> #[trigger] final(self).slot_at(e.index as int, cid) == old(self).sparse_stores@[cid as int].slot(
                    e.index as int,
                ),
            forall|i: int| i != e.index as int ==> same_entity(*old(self), *final(self), i),
    {
        let ghost w0 = *old(self);
        let ghost idx = e.index as int;
        let t_id = self.archetypes[dest].table_id;
        proof {
            assert(w0.wf_arch_at(dest as int));
        }
        let ghost td = t_id as int;
        let ghost tab0 = w0.tables@[td];
        let ghost arch0 = w0.archetypes@[dest as int];
        let row_index = self.tables[t_id].entity_ids.len();
        proof {
            assert(w0.tables@[td].wf());
            assert(tab0.col_ids().len() == tab0.columns@.len());
            assert forall|k: int| 0 <= k < pairs@.len() implies (#[trigger] pairs@[k]).0
                == tab0.columns@[k].component_id by {
                assert(tab0.col_ids()[k] == tab0.columns@[k].component_id);
            }
        }
        self.tables[t_id].push_row(e, pairs);
        let arow = self.archetypes[dest].entities.len();
        self.archetypes[dest].push_entity(ArchetypeEntity { entity: e, table_row: row_index });
        self.entities.set_location(
            e.index,
            Some(
                EntityLocation {
                    archetype_id: dest,
                    archetype_row: arow,
                    table_id: t_id,
                    table_row: row_index,
                },
            ),
        );
        proof {
            lemma_attach_post(w0, *self, e, dest, pairs@, arow, row_index);
        }
    }
}

} // verus!
