//! The store itself: the component registry, the entity directory, the
//! archetype universe with its transition cache, the dense and sparse
//! backing stores, the pending-removal ledger and the change clock — with
//! the well-formedness invariant every operation preserves: each live
//! entity's location record matches the row that physically holds its
//! data, and every component value lives in exactly one place.

use vstd::prelude::*;
use crate::archetype::{Archetype, Edges};
use crate::bundle::{BundleInfo, Bundles};
use crate::component::{
    seq_filter_storage, ComponentInfo, Components, StorageType,
};
use crate::entity::{Entities, Entity, EntityLocation};
use crate::sorted::{is_diff_set, is_union, sorted_strict};
use crate::storage::{Slot, SparseStore, Table, Val};

verus! {

/// The whole store. Structural mutation requires exclusive access to the
/// whole value; shared reads may be issued freely. There is no interior
/// locking: the single-writer discipline is the borrow checker's.
pub struct World {
    pub components: Components,
    pub entities: Entities,
    pub archetypes: Vec<Archetype>,
    pub tables: Vec<Table>,
    pub sparse_stores: Vec<SparseStore>,
    /// Pending-removal ledger: for each component id, the entities whose
    /// value of it was removed since the ledger was last cleared.
    pub removed: Vec<Vec<Entity>>,
    pub bundles: Bundles,
    pub change_tick: u32,
    pub last_change_tick: u32,
    /// Counts the transition resolutions the edge cache could not answer.
    pub cache_misses: u64,
}

impl World {
    // ------------------------------------------------------------------
    // Views
    // ------------------------------------------------------------------
    pub open spec fn n_components(self) -> int {
        self.components.infos@.len() as int
    }

    pub open spec fn valid_cid(self, cid: usize) -> bool {
        (cid as int) < self.n_components()
    }

    pub open spec fn is_sparse(self, cid: usize) -> bool {
        self.components.infos@[cid as int].storage == StorageType::SparseSet
    }

    pub open spec fn live(self, e: Entity) -> bool {
        self.entities.live(e)
    }

    pub open spec fn live_idx(self, i: int) -> bool {
        self.entities.live_idx(i)
    }

    pub open spec fn loc(self, i: int) -> EntityLocation {
        self.entities.loc(i)
    }

    /// The archetype of the live entity at index `i`.
    pub open spec fn arch_of(self, i: int) -> Archetype {
        self.archetypes@[self.loc(i).archetype_id as int]
    }

    /// Does the live entity at index `i` have component `cid`?
    pub open spec fn has_comp(self, i: int, cid: usize) -> bool {
        self.arch_of(i).has_spec(cid)
    }

    /// The stored slot of component `cid` on the live entity at index `i`.
    pub open spec fn slot_at(self, i: int, cid: usize) -> Slot {
        if self.is_sparse(cid) {
            self.sparse_stores@[cid as int].slot(i)
        } else {
            self.tables@[self.loc(i).table_id as int].slot_of(cid, self.loc(i).table_row as int)
        }
    }

    /// The stored value of component `cid` on the live entity at index `i`.
    pub open spec fn value_at(self, i: int, cid: usize) -> Val {
        self.slot_at(i, cid).value
    }

    // ------------------------------------------------------------------
    // Well-formedness
    // ------------------------------------------------------------------
    /// Registry shape: unique kind keys, one sparse store and one ledger
    /// per component.
    pub open spec fn wf_registry(self) -> bool {
        &&& self.components.wf()
        &&& self.sparse_stores@.len() == self.n_components()
        &&& self.removed@.len() == self.n_components()
    }

    /// Tables: internally well formed, columns hold table-classified
    /// components, table 0 is the empty table, and no two tables store the
    /// same column set.
    pub open spec fn wf_tables(self) -> bool {
        &&& self.tables@.len() >= 1
        &&& self.tables@[0].columns@.len() == 0
        &&& forall|t: int| 0 <= t < self.tables@.len() ==> (#[trigger] self.tables@[t]).wf()
        &&& forall|t: int, c: int|
            0 <= t < self.tables@.len() && 0 <= c < self.tables@[t].columns@.len()
                ==> self.valid_cid(#[trigger] self.tables@[t].columns@[c].component_id)
                && !self.is_sparse(self.tables@[t].columns@[c].component_id)
        &&& forall|t1: int, t2: int|
            #![trigger self.tables@[t1].col_ids(), self.tables@[t2].col_ids()]
            0 <= t1 < t2 < self.tables@.len() ==> self.tables@[t1].col_ids()
                != self.tables@[t2].col_ids()
    }

    /// One archetype: component lists sorted and correctly classified, and
    /// its table's columns are exactly its table components.
    pub open spec fn wf_arch_at(self, a: int) -> bool {
        let arch = self.archetypes@[a];
        &&& sorted_strict(arch.table_components@)
        &&& sorted_strict(arch.sparse_components@)
        &&& forall|k: int|
            0 <= k < arch.table_components@.len() ==> self.valid_cid(
                #[trigger] arch.table_components@[k],
            ) && !self.is_sparse(arch.table_components@[k])
        &&& forall|k: int|
            0 <= k < arch.sparse_components@.len() ==> self.valid_cid(
                #[trigger] arch.sparse_components@[k],
            ) && self.is_sparse(arch.sparse_components@[k])
        &&& (arch.table_id as int) < self.tables@.len()
        &&& self.tables@[arch.table_id as int].col_ids() == arch.table_components@
    }

    /// Archetypes: archetype 0 is the empty shape, each is well formed,
    /// and no two name the same component combination.
    pub open spec fn wf_archetypes(self) -> bool {
        &&& self.archetypes@.len() >= 1
        &&& self.archetypes@[0].table_components@.len() == 0
        &&& self.archetypes@[0].sparse_components@.len() == 0
        &&& self.archetypes@[0].table_id == 0
        &&& forall|a: int| 0 <= a < self.archetypes@.len() ==> #[trigger] self.wf_arch_at(a)
        &&& forall|a1: int, a2: int|
            #![trigger self.archetypes@[a1].table_components@, self.archetypes@[a2].table_components@]
            0 <= a1 < a2 < self.archetypes@.len() ==> !(self.archetypes@[a1].table_components@
                == self.archetypes@[a2].table_components@
                && self.archetypes@[a1].sparse_components@
                == self.archetypes@[a2].sparse_components@)
    }

    pub open spec fn valid_bundle(self, b: int) -> bool {
        0 <= b < self.bundles.list@.len()
    }

    /// One bundle descriptor: ids sorted and registered, parts split by
    /// the registry's classification.
    pub open spec fn wf_bundle_at(self, b: int) -> bool {
        let bi = self.bundles.list@[b];
        &&& sorted_strict(bi.component_ids@)
        &&& forall|k: int|
            0 <= k < bi.component_ids@.len() ==> self.valid_cid(#[trigger] bi.component_ids@[k])
        &&& bi.table_components@ == seq_filter_storage(
            self.components.infos@,
            bi.component_ids@,
            StorageType::Table,
        )
        &&& bi.sparse_components@ == seq_filter_storage(
            self.components.infos@,
            bi.component_ids@,
            StorageType::SparseSet,
        )
    }

    pub open spec fn wf_bundles(self) -> bool {
        forall|b: int| 0 <= b < self.bundles.list@.len() ==> #[trigger] self.wf_bundle_at(b)
    }

    /// Every component of bundle `b` occurs in archetype `a`.
    pub open spec fn bundle_subset(self, a: int, b: int) -> bool {
        forall|k: int|
            0 <= k < self.bundles.list@[b].component_ids@.len() ==> self.archetypes@[a].has_spec(
                #[trigger] self.bundles.list@[b].component_ids@[k],
            )
    }

    /// A cached insert edge is semantically right: its target is the
    /// archetype whose component sets are the union of source and bundle.
    pub open spec fn add_edge_ok(self, a: int, b: usize, d: usize) -> bool {
        &&& self.valid_bundle(b as int)
        &&& (d as int) < self.archetypes@.len()
        &&& is_union(
            self.archetypes@[d as int].table_components@,
            self.archetypes@[a].table_components@,
            self.bundles.list@[b as int].table_components@,
        )
        &&& is_union(
            self.archetypes@[d as int].sparse_components@,
            self.archetypes@[a].sparse_components@,
            self.bundles.list@[b as int].sparse_components@,
        )
    }

    /// A cached remove edge is semantically right. An absent target is
    /// cached only by the strict policy, exactly when some bundle
    /// component is missing from the source shape; a present target is
    /// the archetype of the set difference.
    pub open spec fn remove_edge_ok(self, a: int, b: usize, r: Option<usize>, strict: bool) -> bool {
        &&& self.valid_bundle(b as int)
        &&& match r {
            None => strict && !self.bundle_subset(a, b as int),
            Some(d) => {
                &&& (strict ==> self.bundle_subset(a, b as int))
                &&& (d as int) < self.archetypes@.len()
                &&& is_diff_set(
                    self.archetypes@[d as int].table_components@,
                    self.archetypes@[a].table_components@,
                    self.bundles.list@[b as int].component_ids@,
                )
                &&& is_diff_set(
                    self.archetypes@[d as int].sparse_components@,
                    self.archetypes@[a].sparse_components@,
                    self.bundles.list@[b as int].component_ids@,
                )
            },
        }
    }

    pub open spec fn wf_edges_at(self, a: int) -> bool {
        let ed = self.archetypes@[a].edges;
        &&& forall|k: int|
            0 <= k < ed.add_bundle@.len() ==> self.add_edge_ok(
                a,
                (#[trigger] ed.add_bundle@[k]).0,
                ed.add_bundle@[k].1,
            )
        &&& forall|k: int|
            0 <= k < ed.remove_bundle@.len() ==> self.remove_edge_ok(
                a,
                (#[trigger] ed.remove_bundle@[k]).0,
                ed.remove_bundle@[k].1,
                true,
            )
        &&& forall|k: int|
            0 <= k < ed.remove_bundle_intersection@.len() ==> self.remove_edge_ok(
                a,
                (#[trigger] ed.remove_bundle_intersection@[k]).0,
                ed.remove_bundle_intersection@[k].1,
                false,
            )
    }

    /// The memoized transition graph only caches true transitions.
    pub open spec fn wf_edges(self) -> bool {
        forall|a: int| 0 <= a < self.archetypes@.len() ==> #[trigger] self.wf_edges_at(a)
    }

    /// Forward location coherence for index `i`: the location record
    /// points at an archetype row and a table row that really hold this
    /// entity.
    pub open spec fn loc_ok(self, i: int) -> bool {
        let l = self.loc(i);
        let g = self.entities.meta@[i].generation;
        &&& (l.archetype_id as int) < self.archetypes@.len()
        &&& (l.archetype_row as int) < self.archetypes@[l.archetype_id as int].entities@.len()
        &&& self.archetypes@[l.archetype_id as int].entities@[l.archetype_row as int].entity
            == (Entity { index: i as u32, generation: g })
        &&& self.archetypes@[l.archetype_id as int].entities@[l.archetype_row as int].table_row
            == l.table_row
        &&& l.table_id == self.archetypes@[l.archetype_id as int].table_id
        &&& (l.table_row as int) < self.tables@[l.table_id as int].entity_ids@.len()
        &&& self.tables@[l.table_id as int].entity_ids@[l.table_row as int] == (Entity {
            index: i as u32,
            generation: g,
        })
    }

    /// Every live index's location record matches physical reality.
    pub open spec fn wf_locations(self) -> bool {
        forall|i: int| #[trigger] self.live_idx(i) ==> self.loc_ok(i)
    }

    /// One archetype resident entry points back at a live directory entry
    /// whose location is exactly this row.
    pub open spec fn arch_entry_ok(self, a: int, r: int) -> bool {
        let ent = self.archetypes@[a].entities@[r];
        let m = self.entities.meta@[ent.entity.index as int];
        &&& (ent.entity.index as int) < self.entities.meta@.len()
        &&& m.generation == ent.entity.generation
        &&& m.location is Some
        &&& m.location.unwrap().archetype_id as int == a
        &&& m.location.unwrap().archetype_row as int == r
        &&& m.location.unwrap().table_id == self.archetypes@[a].table_id
        &&& m.location.unwrap().table_row == ent.table_row
    }

    pub open spec fn wf_arch_entities(self) -> bool {
        forall|a: int, r: int|
            #![trigger self.archetypes@[a].entities@[r]]
            0 <= a < self.archetypes@.len() && 0 <= r < self.archetypes@[a].entities@.len()
                ==> self.arch_entry_ok(a, r)
    }

    /// One table row's occupant is live and located exactly here.
    pub open spec fn table_row_ok(self, t: int, r: int) -> bool {
        let e = self.tables@[t].entity_ids@[r];
        &&& (e.index as int) < self.entities.meta@.len()
        &&& self.entities.meta@[e.index as int].generation == e.generation
        &&& self.entities.meta@[e.index as int].location is Some
        &&& self.loc(e.index as int).table_id == t
        &&& self.loc(e.index as int).table_row == r
    }

    pub open spec fn wf_table_rows(self) -> bool {
        forall|t: int, r: int|
            #![trigger self.tables@[t].entity_ids@[r]]
            0 <= t < self.tables@.len() && 0 <= r < self.tables@[t].entity_ids@.len()
                ==> self.table_row_ok(t, r)
    }

    /// Index `i` is supposed to own a sparse cell of component `cid`.
    pub open spec fn sparse_expected(self, cid: usize, i: int) -> bool {
        self.live_idx(i) && self.arch_of(i).sparse_components@.contains(cid)
    }

    /// Sparse exactness for one component, ignoring index `except`: a cell
    /// exists if and only if a live entity of a shape carrying the
    /// component occupies the index. Table-classified ids keep their store
    /// untouched.
    pub open spec fn wf_sparse_at_except(self, cid: usize, except: int) -> bool {
        &&& (self.is_sparse(cid) ==> forall|i: int|
            i != except ==> (#[trigger] self.sparse_stores@[cid as int].has(i)
                <==> self.sparse_expected(cid, i)))
        &&& (!self.is_sparse(cid) ==> self.sparse_stores@[cid as int].cells@.len() == 0)
    }

    /// Sparse exactness everywhere but at one index (the index a
    /// relocation is currently moving).
    pub open spec fn wf_sparse_except(self, except: int) -> bool {
        forall|cid: usize|
            self.valid_cid(cid) ==> #[trigger] self.wf_sparse_at_except(cid, except)
    }

    /// Sparse exactness: every sparse value lives in exactly one cell, and
    /// only for entities whose shape carries it.
    pub open spec fn wf_sparse(self) -> bool {
        forall|cid: usize| self.valid_cid(cid) ==> #[trigger] self.wf_sparse_at_except(cid, -1)
    }

    /// The store's whole invariant.
    pub open spec fn wf(self) -> bool {
        &&& self.wf_registry()
        &&& self.wf_tables()
        &&& self.wf_archetypes()
        &&& self.wf_bundles()
        &&& self.wf_edges()
        &&& self.entities.wf_free()
        &&& self.wf_locations()
        &&& self.wf_arch_entities()
        &&& self.wf_table_rows()
        &&& self.wf_sparse()
    }

    // ------------------------------------------------------------------
    // Construction and registration
    // ------------------------------------------------------------------
    /// An empty store: no components, no entities, the empty archetype
    /// backed by the empty table, clock at tick one.
    pub fn new() -> (w: World)
        ensures
            w.wf(),
            w.n_components() == 0,
            w.entities.meta@.len() == 0,
            w.archetypes@.len() == 1,
            w.tables@.len() == 1,
            w.bundles.list@.len() == 0,
            w.change_tick == 1u32,
            w.last_change_tick == 0u32,
            w.cache_misses == 0u64,
    {
        let empty_arch = Archetype {
            table_id: 0,
            table_components: Vec::new(),
            sparse_components: Vec::new(),
            entities: Vec::new(),
            edges: Edges::new(),
        };
        let empty_table = Table { columns: Vec::new(), entity_ids: Vec::new() };
        let mut archetypes: Vec<Archetype> = Vec::new();
        archetypes.push(empty_arch);
        let mut tables: Vec<Table> = Vec::new();
        tables.push(empty_table);
        let w = World {
            components: Components::new(),
            entities: Entities::new(),
            archetypes,
            tables,
            sparse_stores: Vec::new(),
            removed: Vec::new(),
            bundles: Bundles::new(),
            change_tick: 1,
            last_change_tick: 0,
            cache_misses: 0,
        };
        proof {
            assert(w.tables@[0].col_ids() =~= Seq::<usize>::empty());
            assert(w.wf_arch_at(0));
            assert(w.wf_edges_at(0));
        }
        w
    }

    /// Registers a component kind (or finds it again by its key) and
    /// returns its dense id.
    pub fn init_component(&mut self, type_key: u64, storage: StorageType) -> (id: usize)
        requires
            old(self).wf(),
        ensures
            final(self).wf(),
            final(self).valid_cid(id),
            final(self).components.infos@[id as int].type_key == type_key,
            old(self).n_components() <= final(self).n_components(),
            forall|c: int|
                0 <= c < old(self).n_components() ==> final(self).components.infos@[c] == old(self).components.infos@[c],
            (if old(self).components.key_registered(type_key) {
                final(self).components.infos@ == old(self).components.infos@ && final(self).sparse_stores@ == old(self).sparse_stores@ && final(self).removed@ == old(self).removed@
            } else {
                final(self).components.infos@ == old(self).components.infos@.push(
                    ComponentInfo { type_key, storage },
                ) && id as int == old(self).n_components()
            }),
            final(self).entities == old(self).entities,
            final(self).archetypes@ == old(self).archetypes@,
            final(self).tables@ == old(self).tables@,
            final(self).bundles.list@ == old(self).bundles.list@,
            final(self).change_tick == old(self).change_tick,
            final(self).last_change_tick == old(self).last_change_tick,
            final(self).cache_misses == old(self).cache_misses,
    {
        let ghost pre = *self;
        let existing = self.components.get_id(type_key);
        match existing {
            Some(id) => {
                proof {
                    assert(self.components.key_registered(type_key));
                }
                id
            },
            None => {
                let id = self.components.init_component(type_key, storage);
                self.sparse_stores.push(SparseStore::new());
                self.removed.push(Vec::new());
                proof {
                    lemma_wf_after_new_component(pre, *self, id);
                }
                id
            },
        }
    }

    /// Registers a bundle shape (or finds it again) and returns its id.
    /// The id list is the caller's canonical sorted set of registered
    /// component ids.
    pub fn init_bundle(&mut self, ids: Vec<usize>) -> (b: usize)
        requires
            old(self).wf(),
            sorted_strict(ids@),
            forall|k: int| 0 <= k < ids@.len() ==> old(self).valid_cid(#[trigger] ids@[k]),
        ensures
            final(self).wf(),
            final(self).valid_bundle(b as int),
            final(self).bundles.list@[b as int].component_ids@ == ids@,
            old(self).bundles.list@.len() <= final(self).bundles.list@.len(),
            forall|k: int|
                0 <= k < old(self).bundles.list@.len() ==> #[trigger] final(self).bundles.list@[k].component_ids@ == old(self).bundles.list@[k].component_ids@,
            final(self).components.infos@ == old(self).components.infos@,
            final(self).entities == old(self).entities,
            final(self).archetypes@ == old(self).archetypes@,
            final(self).tables@ == old(self).tables@,
            final(self).sparse_stores@ == old(self).sparse_stores@,
            final(self).removed@ == old(self).removed@,
            final(self).change_tick == old(self).change_tick,
            final(self).last_change_tick == old(self).last_change_tick,
            final(self).cache_misses == old(self).cache_misses,
    {
        let ghost pre = *self;
        let existing = self.bundles.find(&ids);
        match existing {
            Some(b) => b,
            None => {
                let (table_ids, sparse_ids) = self.components.partition_by_storage(&ids);
                let b = self.bundles.list.len();
                self.bundles.list.push(
                    BundleInfo {
                        component_ids: ids,
                        table_components: table_ids,
                        sparse_components: sparse_ids,
                    },
                );
                proof {
                    lemma_wf_after_new_bundle(pre, *self, b as int);
                }
                b
            },
        }
    }

    // ------------------------------------------------------------------
    // The change clock
    // ------------------------------------------------------------------
    /// The tick mutations currently stamp with.
    pub fn read_change_tick(&self) -> (r: u32)
        ensures
            r == self.change_tick,
    {
        self.change_tick
    }

    pub fn last_change_tick(&self) -> (r: u32)
        ensures
            r == self.last_change_tick,
    {
        self.last_change_tick
    }

    /// Advances the clock by one (wrapping) and returns the new tick;
    /// every structural mutation entrypoint does this once.
    pub fn increment_change_tick(&mut self) -> (r: u32)
        ensures
            r == crate::component::next_tick(old(self).change_tick),
            *final(self) == (World { change_tick: r, ..*old(self) }),
    {
        let t = if self.change_tick == u32::MAX {
            0
        } else {
            self.change_tick + 1
        };
        self.change_tick = t;
        t
    }

    /// The number of transition resolutions the edge cache missed.
    pub fn cache_miss_count(&self) -> (r: u64)
        ensures
            r == self.cache_misses,
    {
        self.cache_misses
    }
}

/// Adding a brand-new component to the registry (with its empty sparse
/// store and empty ledger) preserves the store invariant.
pub proof fn lemma_wf_after_new_component(pre: World, post: World, id: usize)
    requires
        pre.wf(),
        !pre.components.key_registered(post.components.infos@[id as int].type_key),
        id as int == pre.n_components(),
        post.components.infos@.len() == pre.n_components() + 1,
        forall|c: int|
            0 <= c < pre.n_components() ==> post.components.infos@[c] == pre.components.infos@[c],
        post.components.wf(),
        post.sparse_stores@.len() == pre.sparse_stores@.len() + 1,
        forall|c: int|
            0 <= c < pre.sparse_stores@.len() ==> post.sparse_stores@[c]
                == pre.sparse_stores@[c],
        post.sparse_stores@.last().cells@.len() == 0,
        post.removed@.len() == pre.removed@.len() + 1,
        post.entities == pre.entities,
        post.archetypes@ == pre.archetypes@,
        post.tables@ == pre.tables@,
        post.bundles.list@ == pre.bundles.list@,
    ensures
        post.wf(),
{
    assert(post.wf_registry());
    assert forall|t: int| 0 <= t < post.tables@.len() implies (#[trigger] post.tables@[t]).wf() by {
        assert(pre.tables@[t].wf());
    }
    assert(post.wf_tables());
    assert forall|a: int| 0 <= a < post.archetypes@.len() implies #[trigger] post.wf_arch_at(
        a,
    ) by {
        assert(pre.wf_arch_at(a));
    }
    assert(post.wf_archetypes());
    assert forall|b: int| 0 <= b < post.bundles.list@.len() implies #[trigger] post.wf_bundle_at(
        b,
    ) by {
        assert(pre.wf_bundle_at(b));
        lemma_filter_storage_stable(
            pre.components.infos@,
            post.components.infos@,
            pre.bundles.list@[b].component_ids@,
        );
    }
    assert(post.wf_bundles());
    assert forall|a: int| 0 <= a < post.archetypes@.len() implies #[trigger] post.wf_edges_at(
        a,
    ) by {
        assert(pre.wf_edges_at(a));
    }
    assert(post.wf_edges());
    assert forall|i: int| #[trigger] post.live_idx(i) implies post.loc_ok(i) by {
        assert(pre.live_idx(i));
        assert(pre.loc_ok(i));
    }
    assert(post.wf_locations());
    assert(post.wf_arch_entities()) by {
        assert forall|a: int, r: int|
            #![trigger post.archetypes@[a].entities@[r]]
            0 <= a < post.archetypes@.len() && 0 <= r
                < post.archetypes@[a].entities@.len() implies post.arch_entry_ok(a, r) by {
            assert(pre.archetypes@[a].entities@[r] == post.archetypes@[a].entities@[r]);
            assert(pre.arch_entry_ok(a, r));
        }
    }
    assert(post.wf_table_rows()) by {
        assert forall|t: int, r: int|
            #![trigger post.tables@[t].entity_ids@[r]]
            0 <= t < post.tables@.len() && 0 <= r
                < post.tables@[t].entity_ids@.len() implies post.table_row_ok(t, r) by {
            assert(pre.tables@[t].entity_ids@[r] == post.tables@[t].entity_ids@[r]);
            assert(pre.table_row_ok(t, r));
        }
    }
    assert forall|cid: usize| post.valid_cid(cid) implies #[trigger] post.wf_sparse_at_except(
        cid,
        -1,
    ) by {
        if (cid as int) < pre.n_components() {
            assert(pre.wf_sparse_at_except(cid, -1));
            assert(post.sparse_stores@[cid as int] == pre.sparse_stores@[cid as int]);
            if post.is_sparse(cid) {
                assert forall|i: int|
                    i != -1 implies (#[trigger] post.sparse_stores@[cid as int].has(i)
                    <==> post.sparse_expected(cid, i)) by {
                    assert(pre.sparse_stores@[cid as int].has(i) <==> pre.sparse_expected(
                        cid,
                        i,
                    ));
                }
            }
        } else {
            assert(cid as int == pre.n_components());
            if post.is_sparse(cid) {
                assert forall|i: int|
                    i != -1 implies (#[trigger] post.sparse_stores@[cid as int].has(i)
                    <==> post.sparse_expected(cid, i)) by {
                    assert(!post.sparse_stores@[cid as int].has(i));
                    if post.sparse_expected(cid, i) {
                        let arch = post.arch_of(i);
                        let l = post.loc(i);
                        assert(post.live_idx(i));
                        assert(pre.live_idx(i));
                        assert(pre.loc_ok(i));
                        assert(pre.wf_arch_at(l.archetype_id as int));
                        let k = choose|k: int|
                            0 <= k < arch.sparse_components@.len() && arch.sparse_components@[k]
                                == cid;
                        assert(pre.valid_cid(arch.sparse_components@[k]));
                    }
                }
            } else {
                assert(post.sparse_stores@[cid as int].cells@.len() == 0);
            }
        }
    }
    assert(post.wf_sparse());
}

/// The storage filter reads only the infos of the ids it filters, so
/// extending the registry does not change it.
pub proof fn lemma_filter_storage_stable(
    pre: Seq<ComponentInfo>,
    post: Seq<ComponentInfo>,
    ids: Seq<usize>,
)
    requires
        pre.len() <= post.len(),
        forall|c: int| 0 <= c < pre.len() ==> post[c] == pre[c],
        forall|k: int| 0 <= k < ids.len() ==> (#[trigger] ids[k] as int) < pre.len(),
    ensures
        seq_filter_storage(post, ids, StorageType::Table) == seq_filter_storage(
            pre,
            ids,
            StorageType::Table,
        ),
        seq_filter_storage(post, ids, StorageType::SparseSet) == seq_filter_storage(
            pre,
            ids,
            StorageType::SparseSet,
        ),
    decreases ids.len(),
{
    if ids.len() > 0 {
        assert(forall|k: int|
            0 <= k < ids.drop_last().len() ==> (#[trigger] ids.drop_last()[k] as int)
                < pre.len());
        lemma_filter_storage_stable(pre, post, ids.drop_last());
        assert(ids[ids.len() - 1] == ids.last());
        assert((ids.last() as int) < pre.len());
        assert(post[ids.last() as int] == pre[ids.last() as int]);
    }
}

/// Registering a new bundle descriptor preserves the store invariant.
pub proof fn lemma_wf_after_new_bundle(pre: World, post: World, b: int)
    requires
        pre.wf(),
        b == pre.bundles.list@.len(),
        post.bundles.list@.len() == b + 1,
        forall|k: int| 0 <= k < b ==> post.bundles.list@[k] == pre.bundles.list@[k],
        sorted_strict(post.bundles.list@[b].component_ids@),
        forall|k: int|
            0 <= k < post.bundles.list@[b].component_ids@.len() ==> pre.valid_cid(
                #[trigger] post.bundles.list@[b].component_ids@[k],
            ),
        post.bundles.list@[b].table_components@ == seq_filter_storage(
            pre.components.infos@,
            post.bundles.list@[b].component_ids@,
            StorageType::Table,
        ),
        post.bundles.list@[b].sparse_components@ == seq_filter_storage(
            pre.components.infos@,
            post.bundles.list@[b].component_ids@,
            StorageType::SparseSet,
        ),
        post.components == pre.components,
        post.entities == pre.entities,
        post.archetypes@ == pre.archetypes@,
        post.tables@ == pre.tables@,
        post.sparse_stores@ == pre.sparse_stores@,
        post.removed@ == pre.removed@,
    ensures
        post.wf(),
{
    assert(post.wf_registry());
    assert(post.wf_tables());
    assert forall|a: int| 0 <= a < post.archetypes@.len() implies #[trigger] post.wf_arch_at(
        a,
    ) by {
        assert(pre.wf_arch_at(a));
    }
    assert(post.wf_archetypes());
    assert forall|bb: int| 0 <= bb < post.bundles.list@.len() implies #[trigger] post.wf_bundle_at(
        bb,
    ) by {
        if bb < b {
            assert(pre.wf_bundle_at(bb));
        }
    }
    assert(post.wf_bundles());
    assert forall|a: int| 0 <= a < post.archetypes@.len() implies #[trigger] post.wf_edges_at(
        a,
    ) by {
        assert(pre.wf_edges_at(a));
        let ed = post.archetypes@[a].edges;
        assert forall|k: int| 0 <= k < ed.add_bundle@.len() implies post.add_edge_ok(
            a,
            (#[trigger] ed.add_bundle@[k]).0,
            ed.add_bundle@[k].1,
        ) by {
            assert(pre.add_edge_ok(a, ed.add_bundle@[k].0, ed.add_bundle@[k].1));
        }
        assert forall|k: int| 0 <= k < ed.remove_bundle@.len() implies post.remove_edge_ok(
            a,
            (#[trigger] ed.remove_bundle@[k]).0,
            ed.remove_bundle@[k].1,
            true,
        ) by {
            assert(pre.remove_edge_ok(a, ed.remove_bundle@[k].0, ed.remove_bundle@[k].1, true));
        }
        assert forall|k: int|
            0 <= k < ed.remove_bundle_intersection@.len() implies post.remove_edge_ok(
            a,
            (#[trigger] ed.remove_bundle_intersection@[k]).0,
            ed.remove_bundle_intersection@[k].1,
            false,
        ) by {
            assert(pre.remove_edge_ok(
                a,
                ed.remove_bundle_intersection@[k].0,
                ed.remove_bundle_intersection@[k].1,
                false,
            ));
        }
    }
    assert(post.wf_edges());
    assert forall|i: int| #[trigger] post.live_idx(i) implies post.loc_ok(i) by {
        assert(pre.live_idx(i));
        assert(pre.loc_ok(i));
    }
    assert(post.wf_arch_entities()) by {
        assert forall|a: int, r: int|
            #![trigger post.archetypes@[a].entities@[r]]
            0 <= a < post.archetypes@.len() && 0 <= r
                < post.archetypes@[a].entities@.len() implies post.arch_entry_ok(a, r) by {
            assert(pre.arch_entry_ok(a, r));
        }
    }
    assert(post.wf_table_rows()) by {
        assert forall|t: int, r: int|
            #![trigger post.tables@[t].entity_ids@[r]]
            0 <= t < post.tables@.len() && 0 <= r
                < post.tables@[t].entity_ids@.len() implies post.table_row_ok(t, r) by {
            assert(pre.table_row_ok(t, r));
        }
    }
    assert forall|cid: usize| post.valid_cid(cid) implies #[trigger] post.wf_sparse_at_except(
        cid,
        -1,
    ) by {
        assert(pre.wf_sparse_at_except(cid, -1));
        if post.is_sparse(cid) {
            assert forall|i: int|
                i != -1 implies (#[trigger] post.sparse_stores@[cid as int].has(i)
                <==> post.sparse_expected(cid, i)) by {
                assert(pre.sparse_stores@[cid as int].has(i) <==> pre.sparse_expected(cid, i));
            }
        }
    }
    assert(post.wf_sparse());
}

} // verus!
