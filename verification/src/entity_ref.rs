//! The two access-control views over one entity. `EntityRef` is the
//! shared, read-only view: any number may coexist. `EntityMut` is the
//! exclusive view: it owns the whole store for its lifetime, so no other
//! access can observe a half-finished relocation, and hands the store
//! back when it is done.

use vstd::prelude::*;
use crate::archetype::Archetype;
use crate::component::ComponentTicks;
use crate::entity::{Entity, EntityLocation};
use crate::component::next_tick;
use crate::mutate::{registries_stable, same_entity};
use crate::sorted::{is_diff_set, is_union, sorted_strict};
use crate::storage::{Slot, Val};
use crate::world::World;

verus! {

/// Does the archetype at `location` include the component id?
pub fn contains_component_with_id(world: &World, component_id: usize, location: EntityLocation) -> (r:
    bool)
    requires
        world.wf(),
        (location.archetype_id as int) < world.archetypes@.len(),
    ensures
        r == world.archetypes@[location.archetype_id as int].has_spec(component_id),
{
    world.archetypes[location.archetype_id].contains_id(component_id)
}

/// Does the archetype at `location` include the component kind named by
/// this key? Unknown keys report absent.
pub fn contains_component_with_type(world: &World, type_key: u64, location: EntityLocation) -> (r:
    bool)
    requires
        world.wf(),
        (location.archetype_id as int) < world.archetypes@.len(),
    ensures
        r == (world.components.key_registered(type_key) && exists|cid: usize|
            (#[trigger] world.archetypes@[location.archetype_id as int].has_spec(cid)) && (
            cid as int) < world.n_components() && world.components.infos@[cid as int].type_key
                == type_key),
{
    let id_opt = world.components.get_id(type_key);
    match id_opt {
        Some(cid) => {
            let r = contains_component_with_id(world, cid, location);
            proof {
                if r {
                    assert(world.archetypes@[location.archetype_id as int].has_spec(cid));
                } else {
                    assert forall|cid2: usize|
                        ((#[trigger] world.archetypes@[location.archetype_id as int].has_spec(
                            cid2,
                        )) && (cid2 as int) < world.n_components()
                            && world.components.infos@[cid2 as int].type_key == type_key)
                        implies false by {
                        if cid2 != cid {
                            assert(world.components.wf());
                            if (cid2 as int) < (cid as int) {
                                assert(world.components.infos@[cid2 as int].type_key
                                    != world.components.infos@[cid as int].type_key);
                            } else {
                                assert(world.components.infos@[cid as int].type_key
                                    != world.components.infos@[cid2 as int].type_key);
                            }
                        }
                    }
                }
            }
            r
        },
        None => {
            false
        },
    }
}

/// In a well-formed registry at most one id carries a kind key.
pub proof fn lemma_key_unique(w: World, cid: usize, type_key: u64)
    requires
        w.wf(),
        (cid as int) < w.n_components(),
        w.components.infos@[cid as int].type_key == type_key,
    ensures
        forall|c2: usize|
            (c2 as int) < w.n_components() && (#[trigger] w.components.infos@[c2 as int]).type_key
                == type_key ==> c2 == cid,
{
    assert forall|c2: usize|
        (c2 as int) < w.n_components() && (#[trigger] w.components.infos@[c2 as int]).type_key
            == type_key implies c2 == cid by {
        assert(w.components.wf());
        if c2 != cid {
            if (c2 as int) < (cid as int) {
                assert(w.components.infos@[c2 as int].type_key != w.components.infos@[
                    cid as int
                ].type_key);
            } else {
                assert(w.components.infos@[cid as int].type_key != w.components.infos@[
                    c2 as int
                ].type_key);
            }
        }
    }
}

/// A read-only view of one live entity and all of its components. Any
/// number of shared views may coexist; none may be used concurrently
/// with an exclusive view of the same store, which Rust's borrows
/// enforce here.
pub struct EntityRef<'w> {
    pub world: &'w World,
    pub entity: Entity,
    pub location: EntityLocation,
}

impl<'w> EntityRef<'w> {
    /// The view is over a live handle whose cached location is current.
    pub open spec fn wf(self) -> bool {
        &&& self.world.wf()
        &&& self.world.live(self.entity)
        &&& self.location == self.world.loc(self.entity.index as int)
    }

    pub open spec fn spec_world(self) -> World {
        *self.world
    }

    pub open spec fn spec_entity(self) -> Entity {
        self.entity
    }

    pub(crate) fn new(world: &'w World, entity: Entity, location: EntityLocation) -> (r:
        EntityRef<'w>)
        requires
            world.wf(),
            world.live(entity),
            location == world.loc(entity.index as int),
        ensures
            r.wf(),
            r.spec_world() == *world,
            r.spec_entity() == entity,
    {
        EntityRef { world, entity, location }
    }

    pub fn id(&self) -> (r: Entity)
        ensures
            r == self.spec_entity(),
    {
        self.entity
    }

    pub fn location(&self) -> (r: EntityLocation)
        requires
            self.wf(),
        ensures
            r == self.spec_world().loc(self.spec_entity().index as int),
    {
        self.location
    }

    pub fn archetype(&self) -> (r: &Archetype)
        requires
            self.wf(),
        ensures
            *r == self.spec_world().arch_of(self.spec_entity().index as int),
    {
        proof {
            assert(self.world.live_idx(self.entity.index as int));
            assert(self.world.loc_ok(self.entity.index as int));
        }
        &self.world.archetypes[self.location.archetype_id]
    }

    pub fn world(&self) -> (r: &'w World)
        ensures
            *r == self.spec_world(),
    {
        self.world
    }

    /// Does the entity have the component kind named by this key?
    pub fn contains(&self, type_key: u64) -> (r: bool)
        requires
            self.wf(),
        ensures
            r == self.contains_key_spec(type_key),
    {
        self.contains_type_id(type_key)
    }

    /// What `contains` and `contains_type_id` report: some registered id
    /// carries the key and occurs in the entity's shape.
    pub open spec fn contains_key_spec(self, type_key: u64) -> bool {
        &&& self.spec_world().components.key_registered(type_key)
        &&& exists|cid: usize|
            (#[trigger] self.spec_world().arch_of(self.spec_entity().index as int).has_spec(cid))
                && (cid as int) < self.spec_world().n_components()
                && self.spec_world().components.infos@[cid as int].type_key == type_key
    }

    /// The registered id carrying this kind key; meaningful when the key
    /// is registered.
    pub open spec fn key_id_spec(self, type_key: u64) -> usize {
        choose|cid: usize|
            (cid as int) < self.spec_world().n_components() && self.spec_world(
            ).components.infos@[cid as int].type_key == type_key
    }

    /// The id the registry resolves for a key is the key's unique
    /// carrier, so the by-key and by-id views agree.
    pub proof fn lemma_key_facts(self, type_key: u64, cid: usize)
        requires
            self.wf(),
            (cid as int) < self.spec_world().n_components(),
            self.spec_world().components.infos@[cid as int].type_key == type_key,
        ensures
            self.key_id_spec(type_key) == cid,
            self.contains_key_spec(type_key) <==> self.spec_world().has_comp(
                self.spec_entity().index as int,
                cid,
            ),
    {
        lemma_key_unique(self.spec_world(), cid, type_key);
        let c0 = self.key_id_spec(type_key);
        assert((c0 as int) < self.spec_world().n_components() && self.spec_world(
        ).components.infos@[c0 as int].type_key == type_key) by {
            assert((cid as int) < self.spec_world().n_components() && self.spec_world(
            ).components.infos@[cid as int].type_key == type_key);
        }
        if self.contains_key_spec(type_key) {
            let c2 = choose|c2: usize|
                (#[trigger] self.spec_world().arch_of(self.spec_entity().index as int).has_spec(
                    c2,
                )) && (c2 as int) < self.spec_world().n_components() && self.spec_world(
                ).components.infos@[c2 as int].type_key == type_key;
            assert(c2 == cid);
        }
        if self.spec_world().has_comp(self.spec_entity().index as int, cid) {
            assert(self.spec_world().components.key_registered(type_key)) by {
                assert(self.spec_world().components.infos@[cid as int].type_key == type_key);
            }
        }
    }

    pub fn contains_id(&self, component_id: usize) -> (r: bool)
        requires
            self.wf(),
        ensures
            r == self.spec_world().has_comp(self.spec_entity().index as int, component_id),
    {
        proof {
            assert(self.world.live_idx(self.entity.index as int));
            assert(self.world.loc_ok(self.entity.index as int));
        }
        contains_component_with_id(self.world, component_id, self.location)
    }

    pub fn contains_type_id(&self, type_key: u64) -> (r: bool)
        requires
            self.wf(),
        ensures
            r == self.contains_key_spec(type_key),
    {
        proof {
            assert(self.world.live_idx(self.entity.index as int));
            assert(self.world.loc_ok(self.entity.index as int));
        }
        let r = contains_component_with_type(self.world, type_key, self.location);
        proof {
            let a = self.location.archetype_id as int;
            if r {
                let cid = choose|cid: usize|
                    (#[trigger] self.world.archetypes@[a].has_spec(cid)) && (cid as int)
                        < self.world.n_components() && self.world.components.infos@[
                        cid as int
                    ].type_key == type_key;
                assert(self.spec_world().arch_of(self.spec_entity().index as int).has_spec(cid));
            } else {
                if self.contains_key_spec(type_key) {
                    let cid = choose|cid: usize|
                        (#[trigger] self.spec_world().arch_of(
                            self.spec_entity().index as int,
                        ).has_spec(cid)) && (cid as int) < self.spec_world().n_components()
                            && self.spec_world().components.infos@[cid as int].type_key
                            == type_key;
                    assert(self.world.archetypes@[a].has_spec(cid));
                }
            }
        }
        r
    }

    /// The entity's value of the component kind named by this key:
    /// present exactly when the key resolves to a component the shape
    /// includes.
    pub fn get(&self, type_key: u64) -> (r: Option<Val>)
        requires
            self.wf(),
        ensures
            r == (if self.contains_key_spec(type_key) {
                Some(
                    self.spec_world().value_at(
                        self.spec_entity().index as int,
                        self.key_id_spec(type_key),
                    ),
                )
            } else {
                None::<Val>
            }),
    {
        let id_opt = self.world.components.get_id(type_key);
        match id_opt {
            Some(cid) => {
                proof {
                    self.lemma_key_facts(type_key, cid);
                }
                self.get_by_id(cid)
            },
            None => None,
        }
    }

    /// The entity's value of a component id; absent for an id the
    /// registry does not know or the shape does not include.
    pub fn get_by_id(&self, component_id: usize) -> (r: Option<Val>)
        requires
            self.wf(),
        ensures
            r == (if self.spec_world().valid_cid(component_id) && self.spec_world().has_comp(
                self.spec_entity().index as int,
                component_id,
            ) {
                Some(self.spec_world().value_at(self.spec_entity().index as int, component_id))
            } else {
                None::<Val>
            }),
    {
        match self.world.read_slot(self.entity, component_id) {
            Some(s) => Some(s.value),
            None => None,
        }
    }

    /// The change stamps of the component kind named by this key:
    /// present exactly when the key resolves to a component the shape
    /// includes.
    pub fn get_change_ticks(&self, type_key: u64) -> (r: Option<ComponentTicks>)
        requires
            self.wf(),
        ensures
            r == (if self.contains_key_spec(type_key) {
                Some(
                    ComponentTicks {
                        added: self.spec_world().slot_at(
                            self.spec_entity().index as int,
                            self.key_id_spec(type_key),
                        ).added,
                        changed: self.spec_world().slot_at(
                            self.spec_entity().index as int,
                            self.key_id_spec(type_key),
                        ).changed,
                    },
                )
            } else {
                None::<ComponentTicks>
            }),
    {
        let id_opt = self.world.components.get_id(type_key);
        match id_opt {
            Some(cid) => {
                proof {
                    self.lemma_key_facts(type_key, cid);
                }
                self.get_change_ticks_by_id(cid)
            },
            None => None,
        }
    }

    /// The change stamps of a component id, if the entity has it.
    pub fn get_change_ticks_by_id(&self, component_id: usize) -> (r: Option<ComponentTicks>)
        requires
            self.wf(),
        ensures
            r == (if self.spec_world().valid_cid(component_id) && self.spec_world().has_comp(
                self.spec_entity().index as int,
                component_id,
            ) {
                Some(
                    ComponentTicks {
                        added: self.spec_world().slot_at(
                            self.spec_entity().index as int,
                            component_id,
                        ).added,
                        changed: self.spec_world().slot_at(
                            self.spec_entity().index as int,
                            component_id,
                        ).changed,
                    },
                )
            } else {
                None::<ComponentTicks>
            }),
    {
        self.world.component_ticks(self.entity, component_id)
    }
}

/// An exclusive view of one live entity. It owns the whole store for its
/// lifetime (structural mutation requires exclusive access to everything:
/// the graph, the tables and the directory are shared mutable state), and
/// returns the store by `into_world_mut` or `despawn`.
pub struct EntityMut {
    pub world: World,
    pub entity: Entity,
    pub location: EntityLocation,
}

impl EntityMut {
    /// The view is over a live handle whose cached location is current.
    pub open spec fn wf(self) -> bool {
        &&& self.world.wf()
        &&& self.world.live(self.entity)
        &&& self.location == self.world.loc(self.entity.index as int)
    }

    pub open spec fn spec_world(self) -> World {
        self.world
    }

    pub open spec fn spec_entity(self) -> Entity {
        self.entity
    }

    pub(crate) fn new(world: World, entity: Entity, location: EntityLocation) -> (r: EntityMut)
        requires
            world.wf(),
            world.live(entity),
            location == world.loc(entity.index as int),
        ensures
            r.wf(),
            r.spec_world() == world,
            r.spec_entity() == entity,
    {
        EntityMut { world, entity, location }
    }

    pub fn id(&self) -> (r: Entity)
        ensures
            r == self.spec_entity(),
    {
        self.entity
    }

    pub fn location(&self) -> (r: EntityLocation)
        requires
            self.wf(),
        ensures
            r == self.spec_world().loc(self.spec_entity().index as int),
    {
        self.location
    }

    pub fn archetype(&self) -> (r: &Archetype)
        requires
            self.wf(),
        ensures
            *r == self.spec_world().arch_of(self.spec_entity().index as int),
    {
        proof {
            assert(self.world.live_idx(self.entity.index as int));
            assert(self.world.loc_ok(self.entity.index as int));
        }
        &self.world.archetypes[self.location.archetype_id]
    }

    pub fn contains(&self, type_key: u64) -> (r: bool)
        requires
            self.wf(),
        ensures
            r == self.contains_key_spec(type_key),
    {
        self.contains_type_id(type_key)
    }

    /// What `contains` and `contains_type_id` report: some registered id
    /// carries the key and occurs in the entity's shape.
    pub open spec fn contains_key_spec(self, type_key: u64) -> bool {
        &&& self.spec_world().components.key_registered(type_key)
        &&& exists|cid: usize|
            (#[trigger] self.spec_world().arch_of(self.spec_entity().index as int).has_spec(cid))
                && (cid as int) < self.spec_world().n_components()
                && self.spec_world().components.infos@[cid as int].type_key == type_key
    }

    /// The registered id carrying this kind key; meaningful when the key
    /// is registered.
    pub open spec fn key_id_spec(self, type_key: u64) -> usize {
        choose|cid: usize|
            (cid as int) < self.spec_world().n_components() && self.spec_world(
            ).components.infos@[cid as int].type_key == type_key
    }

    /// The id the registry resolves for a key is the key's unique
    /// carrier, so the by-key and by-id views agree.
    pub proof fn lemma_key_facts(self, type_key: u64, cid: usize)
        requires
            self.wf(),
            (cid as int) < self.spec_world().n_components(),
            self.spec_world().components.infos@[cid as int].type_key == type_key,
        ensures
            self.key_id_spec(type_key) == cid,
            self.contains_key_spec(type_key) <==> self.spec_world().has_comp(
                self.spec_entity().index as int,
                cid,
            ),
    {
        lemma_key_unique(self.spec_world(), cid, type_key);
        let c0 = self.key_id_spec(type_key);
        assert((c0 as int) < self.spec_world().n_components() && self.spec_world(
        ).components.infos@[c0 as int].type_key == type_key) by {
            assert((cid as int) < self.spec_world().n_components() && self.spec_world(
            ).components.infos@[cid as int].type_key == type_key);
        }
        if self.contains_key_spec(type_key) {
            let c2 = choose|c2: usize|
                (#[trigger] self.spec_world().arch_of(self.spec_entity().index as int).has_spec(
                    c2,
                )) && (c2 as int) < self.spec_world().n_components() && self.spec_world(
                ).components.infos@[c2 as int].type_key == type_key;
            assert(c2 == cid);
        }
        if self.spec_world().has_comp(self.spec_entity().index as int, cid) {
            assert(self.spec_world().components.key_registered(type_key)) by {
                assert(self.spec_world().components.infos@[cid as int].type_key == type_key);
            }
        }
    }

    pub fn contains_id(&self, component_id: usize) -> (r: bool)
        requires
            self.wf(),
        ensures
            r == self.spec_world().has_comp(self.spec_entity().index as int, component_id),
    {
        proof {
            assert(self.world.live_idx(self.entity.index as int));
            assert(self.world.loc_ok(self.entity.index as int));
        }
        contains_component_with_id(&self.world, component_id, self.location)
    }

    pub fn contains_type_id(&self, type_key: u64) -> (r: bool)
        requires
            self.wf(),
        ensures
            r == self.contains_key_spec(type_key),
    {
        proof {
            assert(self.world.live_idx(self.entity.index as int));
            assert(self.world.loc_ok(self.entity.index as int));
        }
        let r = contains_component_with_type(&self.world, type_key, self.location);
        proof {
            let a = self.location.archetype_id as int;
            if r {
                let cid = choose|cid: usize|
                    (#[trigger] self.world.archetypes@[a].has_spec(cid)) && (cid as int)
                        < self.world.n_components() && self.world.components.infos@[
                        cid as int
                    ].type_key == type_key;
                assert(self.spec_world().arch_of(self.spec_entity().index as int).has_spec(cid));
            } else {
                if self.contains_key_spec(type_key) {
                    let cid = choose|cid: usize|
                        (#[trigger] self.spec_world().arch_of(
                            self.spec_entity().index as int,
                        ).has_spec(cid)) && (cid as int) < self.spec_world().n_components()
                            && self.spec_world().components.infos@[cid as int].type_key
                            == type_key;
                    assert(self.world.archetypes@[a].has_spec(cid));
                }
            }
        }
        r
    }

    pub fn get_by_id(&self, component_id: usize) -> (r: Option<Val>)
        requires
            self.wf(),
        ensures
            r == (if self.spec_world().valid_cid(component_id) && self.spec_world().has_comp(
                self.spec_entity().index as int,
                component_id,
            ) {
                Some(self.spec_world().value_at(self.spec_entity().index as int, component_id))
            } else {
                None::<Val>
            }),
    {
        match self.world.read_slot(self.entity, component_id) {
            Some(s) => Some(s.value),
            None => None,
        }
    }

    pub fn get_change_ticks_by_id(&self, component_id: usize) -> (r: Option<ComponentTicks>)
        requires
            self.wf(),
        ensures
            r == (if self.spec_world().valid_cid(component_id) && self.spec_world().has_comp(
                self.spec_entity().index as int,
                component_id,
            ) {
                Some(
                    ComponentTicks {
                        added: self.spec_world().slot_at(
                            self.spec_entity().index as int,
                            component_id,
                        ).added,
                        changed: self.spec_world().slot_at(
                            self.spec_entity().index as int,
                            component_id,
                        ).changed,
                    },
                )
            } else {
                None::<ComponentTicks>
            }),
    {
        self.world.component_ticks(self.entity, component_id)
    }

    pub fn world(&self) -> (r: &World)
        ensures
            *r == self.spec_world(),
    {
        &self.world
    }

    /// Hands the store back, consuming the view.
    pub fn into_world_mut(self) -> (r: World)
        ensures
            r == self.spec_world(),
    {
        self.world
    }

    /// Refreshes the cached location from the directory; needed after the
    /// store was mutated out from under the view (see `world_scope`).
    pub fn update_location(&mut self)
        requires
            old(self).world.wf(),
            old(self).world.live(old(self).entity),
        ensures
            final(self).wf(),
            final(self).world == old(self).world,
            final(self).entity == old(self).entity,
    {
        let l = self.world.entities.get(self.entity).unwrap();
        self.location = l;
    }

    /// Hands the whole store to a caller-supplied mutation and resumes
    /// this view afterwards, revalidating only the cached location. The
    /// mutation must keep the store coherent and this entity alive; any
    /// other change is allowed.
    pub fn world_scope<F: FnOnce(World) -> World>(self, f: F) -> (r: EntityMut)
        requires
            self.wf(),
            f.requires((self.spec_world(),)),
            forall|w_in: World, w_out: World|
                #[trigger] f.ensures((w_in,), w_out) ==> (w_out.wf() && w_out.live(
                    self.spec_entity(),
                )),
        ensures
            r.wf(),
            r.spec_entity() == self.spec_entity(),
            exists|w_out: World| #[trigger] f.ensures((self.spec_world(),), w_out) && r.spec_world()
                == w_out,
    {
        let EntityMut { world, entity, location } = self;
        let world = f(world);
        let l = world.entities.get(entity).unwrap();
        EntityMut { world, entity, location: l }
    }
}


impl EntityMut {
    /// The entity's value of the component kind named by this key:
    /// present exactly when the key resolves to a component the shape
    /// includes.
    pub fn get(&self, type_key: u64) -> (r: Option<Val>)
        requires
            self.wf(),
        ensures
            r == (if self.contains_key_spec(type_key) {
                Some(
                    self.spec_world().value_at(
                        self.spec_entity().index as int,
                        self.key_id_spec(type_key),
                    ),
                )
            } else {
                None::<Val>
            }),
    {
        let id_opt = self.world.components.get_id(type_key);
        match id_opt {
            Some(cid) => {
                proof {
                    self.lemma_key_facts(type_key, cid);
                }
                self.get_by_id(cid)
            },
            None => None,
        }
    }

    /// The change stamps of the component kind named by this key:
    /// present exactly when the key resolves to a component the shape
    /// includes.
    pub fn get_change_ticks(&self, type_key: u64) -> (r: Option<ComponentTicks>)
        requires
            self.wf(),
        ensures
            r == (if self.contains_key_spec(type_key) {
                Some(
                    ComponentTicks {
                        added: self.spec_world().slot_at(
                            self.spec_entity().index as int,
                            self.key_id_spec(type_key),
                        ).added,
                        changed: self.spec_world().slot_at(
                            self.spec_entity().index as int,
                            self.key_id_spec(type_key),
                        ).changed,
                    },
                )
            } else {
                None::<ComponentTicks>
            }),
    {
        let id_opt = self.world.components.get_id(type_key);
        match id_opt {
            Some(cid) => {
                proof {
                    self.lemma_key_facts(type_key, cid);
                }
                self.get_change_ticks_by_id(cid)
            },
            None => None,
        }
    }

    /// Takes exclusive access to the component kind named by this key:
    /// stamps it "changed" at the store's current tick and hands its
    /// value out; present exactly when the key resolves to a component
    /// the shape includes.
    pub fn get_mut(&mut self, type_key: u64) -> (r: Option<Val>)
        requires
            old(self).wf(),
        ensures
            final(self).wf(),
            final(self).spec_entity() == old(self).spec_entity(),
            (r is Some <==> old(self).contains_key_spec(type_key)),
            (r is Some ==> r == Some(
                old(self).spec_world().value_at(
                    old(self).spec_entity().index as int,
                    old(self).key_id_spec(type_key),
                ),
            ) && final(self).spec_world().slot_at(
                old(self).spec_entity().index as int,
                old(self).key_id_spec(type_key),
            ) == (Slot {
                value: r.unwrap(),
                added: old(self).spec_world().slot_at(
                    old(self).spec_entity().index as int,
                    old(self).key_id_spec(type_key),
                ).added,
                changed: old(self).spec_world().change_tick,
            })),
            (r is Some ==> (forall|cid2: usize|
                #![trigger final(self).spec_world().slot_at(old(self).spec_entity().index as int, cid2)]
                old(self).spec_world().has_comp(old(self).spec_entity().index as int, cid2)
                    && cid2 != old(self).key_id_spec(type_key) ==> final(self).spec_world(
                ).slot_at(old(self).spec_entity().index as int, cid2) == old(self).spec_world(
                ).slot_at(old(self).spec_entity().index as int, cid2))),
            (r is None ==> final(self).spec_world() == old(self).spec_world()),
            final(self).spec_world().arch_of(old(self).spec_entity().index as int) == old(
                self,
            ).spec_world().arch_of(old(self).spec_entity().index as int),
            forall|i: int|
                i != old(self).spec_entity().index as int ==> same_entity(
                    old(self).spec_world(),
                    final(self).spec_world(),
                    i,
                ),
            final(self).spec_world().entities == old(self).spec_world().entities,
            final(self).spec_world().removed@ == old(self).spec_world().removed@,
            final(self).spec_world().components == old(self).spec_world().components,
            final(self).spec_world().bundles == old(self).spec_world().bundles,
            final(self).spec_world().change_tick == old(self).spec_world().change_tick,
    {
        let id_opt = self.world.components.get_id(type_key);
        match id_opt {
            Some(cid) => {
                proof {
                    self.lemma_key_facts(type_key, cid);
                }
                self.get_mut_by_id(cid)
            },
            None => {
                proof {
                    assert forall|i: int|
                        i != old(self).spec_entity().index as int implies same_entity(
                        old(self).spec_world(),
                        self.spec_world(),
                        i,
                    ) by {
                        if old(self).spec_world().live_idx(i) {
                            assert forall|cid: usize|
                                #[trigger] old(self).spec_world().has_comp(i, cid) implies self
                                .spec_world().slot_at(i, cid) == old(self).spec_world().slot_at(
                                i,
                                cid,
                            ) by {}
                        }
                    }
                }
                None
            },
        }
    }

    /// Takes exclusive access to one component: stamps it "changed" at
    /// the store's current tick and hands its value out. The "added"
    /// stamp survives.
    pub fn get_mut_by_id(&mut self, component_id: usize) -> (r: Option<Val>)
        requires
            old(self).wf(),
        ensures
            final(self).wf(),
            final(self).spec_entity() == old(self).spec_entity(),
            r == (if old(self).spec_world().valid_cid(component_id) && old(self).spec_world().has_comp(old(self).spec_entity().index as int, component_id) {
                Some(
                    old(self).spec_world().value_at(
                        old(self).spec_entity().index as int,
                        component_id,
                    ),
                )
            } else {
                None::<Val>
            }),
            (r is Some ==> final(self).spec_world().slot_at(
                old(self).spec_entity().index as int,
                component_id,
            ) == (Slot {
                value: r.unwrap(),
                added: old(self).spec_world().slot_at(
                    old(self).spec_entity().index as int,
                    component_id,
                ).added,
                changed: old(self).spec_world().change_tick,
            })),
            (r is None ==> final(self).spec_world() == old(self).spec_world()),
            final(self).spec_world().arch_of(old(self).spec_entity().index as int) == old(
                self,
            ).spec_world().arch_of(old(self).spec_entity().index as int),
            forall|cid2: usize|
                #![trigger final(self).spec_world().slot_at(old(self).spec_entity().index as int, cid2)]
                old(self).spec_world().has_comp(old(self).spec_entity().index as int, cid2)
                    && cid2 != component_id ==> final(self).spec_world().slot_at(
                    old(self).spec_entity().index as int,
                    cid2,
                ) == old(self).spec_world().slot_at(old(self).spec_entity().index as int, cid2),
            forall|i: int|
                i != old(self).spec_entity().index as int ==> same_entity(
                    old(self).spec_world(),
                    final(self).spec_world(),
                    i,
                ),
            final(self).spec_world().entities == old(self).spec_world().entities,
            final(self).spec_world().removed@ == old(self).spec_world().removed@,
            final(self).spec_world().components == old(self).spec_world().components,
            final(self).spec_world().bundles == old(self).spec_world().bundles,
            final(self).spec_world().change_tick == old(self).spec_world().change_tick,
    {
        let cur = self.world.read_slot(self.entity, component_id);
        match cur {
            Some(s) => {
                let _ = self.world.write_component_by_id(self.entity, component_id, s.value);
                proof {
                    assert(self.wf()) by {
                        assert(self.world.entities == old(self).world.entities);
                    }
                }
                Some(s.value)
            },
            None => None,
        }
    }

    /// Overwrites one component's value through exclusive access,
    /// stamping it "changed" at the store's current tick. Reports whether
    /// the entity has the component.
    pub fn write_by_id(&mut self, component_id: usize, value: Val) -> (ok: bool)
        requires
            old(self).wf(),
        ensures
            final(self).wf(),
            final(self).spec_entity() == old(self).spec_entity(),
            ok == (old(self).spec_world().valid_cid(component_id) && old(self).spec_world().has_comp(old(self).spec_entity().index as int, component_id)),
            (ok ==> final(self).spec_world().slot_at(
                old(self).spec_entity().index as int,
                component_id,
            ) == (Slot {
                value,
                added: old(self).spec_world().slot_at(
                    old(self).spec_entity().index as int,
                    component_id,
                ).added,
                changed: old(self).spec_world().change_tick,
            })),
            (!ok ==> final(self).spec_world() == old(self).spec_world()),
            final(self).spec_world().arch_of(old(self).spec_entity().index as int) == old(
                self,
            ).spec_world().arch_of(old(self).spec_entity().index as int),
            forall|cid2: usize|
                #![trigger final(self).spec_world().slot_at(old(self).spec_entity().index as int, cid2)]
                old(self).spec_world().has_comp(old(self).spec_entity().index as int, cid2)
                    && cid2 != component_id ==> final(self).spec_world().slot_at(
                    old(self).spec_entity().index as int,
                    cid2,
                ) == old(self).spec_world().slot_at(old(self).spec_entity().index as int, cid2),
            forall|i: int|
                i != old(self).spec_entity().index as int ==> same_entity(
                    old(self).spec_world(),
                    final(self).spec_world(),
                    i,
                ),
            final(self).spec_world().entities == old(self).spec_world().entities,
            final(self).spec_world().removed@ == old(self).spec_world().removed@,
            final(self).spec_world().components == old(self).spec_world().components,
            final(self).spec_world().bundles == old(self).spec_world().bundles,
            final(self).spec_world().change_tick == old(self).spec_world().change_tick,
    {
        let ok = self.world.write_component_by_id(self.entity, component_id, value);
        proof {
            assert(self.wf()) by {
                assert(self.world.entities == old(self).world.entities);
            }
        }
        ok
    }

    /// Adds a bundle of components, overwriting any the entity already
    /// has; the view's cached location follows the relocation.
    pub fn insert(&mut self, bundle_id: usize, values: &Vec<Val>)
        requires
            old(self).wf(),
            old(self).spec_world().valid_bundle(bundle_id as int),
            values@.len() == old(self).spec_world().bundles.list@[
                bundle_id as int
            ].component_ids@.len(),
        ensures
            final(self).wf(),
            final(self).spec_entity() == old(self).spec_entity(),
            is_union(
                final(self).spec_world().arch_of(
                    old(self).spec_entity().index as int,
                ).table_components@,
                old(self).spec_world().arch_of(
                    old(self).spec_entity().index as int,
                ).table_components@,
                old(self).spec_world().bundles.list@[bundle_id as int].table_components@,
            ),
            is_union(
                final(self).spec_world().arch_of(
                    old(self).spec_entity().index as int,
                ).sparse_components@,
                old(self).spec_world().arch_of(
                    old(self).spec_entity().index as int,
                ).sparse_components@,
                old(self).spec_world().bundles.list@[bundle_id as int].sparse_components@,
            ),
            final(self).spec_world().change_tick == next_tick(
                old(self).spec_world().change_tick,
            ),
            forall|k: int|
                0 <= k < old(self).spec_world().bundles.list@[
                    bundle_id as int
                ].component_ids@.len() ==> final(self).spec_world().slot_at(
                    old(self).spec_entity().index as int,
                    #[trigger] old(self).spec_world().bundles.list@[
                        bundle_id as int
                    ].component_ids@[k],
                ) == (Slot {
                    value: values@[k],
                    added: if old(self).spec_world().has_comp(
                        old(self).spec_entity().index as int,
                        old(self).spec_world().bundles.list@[bundle_id as int].component_ids@[k],
                    ) {
                        old(self).spec_world().slot_at(
                            old(self).spec_entity().index as int,
                            old(self).spec_world().bundles.list@[
                                bundle_id as int
                            ].component_ids@[k],
                        ).added
                    } else {
                        next_tick(old(self).spec_world().change_tick)
                    },
                    changed: next_tick(old(self).spec_world().change_tick),
                }),
            forall|k: int|
                0 <= k < old(self).spec_world().bundles.list@[
                    bundle_id as int
                ].component_ids@.len() ==> final(self).spec_world().value_at(
                    old(self).spec_entity().index as int,
                    #[trigger] old(self).spec_world().bundles.list@[
                        bundle_id as int
                    ].component_ids@[k],
                ) == values@[k],
            forall|cid: usize|
                #![trigger final(self).spec_world().slot_at(old(self).spec_entity().index as int, cid)]
                old(self).spec_world().has_comp(old(self).spec_entity().index as int, cid) && !old(self).spec_world().bundles.list@[bundle_id as int].component_ids@.contains(cid)
                    ==> final(self).spec_world().slot_at(
                    old(self).spec_entity().index as int,
                    cid,
                ) == old(self).spec_world().slot_at(old(self).spec_entity().index as int, cid),
            forall|i: int|
                i != old(self).spec_entity().index as int ==> same_entity(
                    old(self).spec_world(),
                    final(self).spec_world(),
                    i,
                ),
    {
        self.world.insert_bundle(self.entity, bundle_id, values);
        self.update_location();
    }

    /// Inserts a single component by id, replacing any existing value.
    pub fn insert_by_id(&mut self, component_id: usize, value: Val)
        requires
            old(self).wf(),
            old(self).spec_world().valid_cid(component_id),
        ensures
            final(self).wf(),
            final(self).spec_entity() == old(self).spec_entity(),
            final(self).spec_world().has_comp(
                old(self).spec_entity().index as int,
                component_id,
            ),
            final(self).spec_world().value_at(old(self).spec_entity().index as int, component_id)
                == value,
            forall|cid: usize|
                #![trigger final(self).spec_world().slot_at(old(self).spec_entity().index as int, cid)]
                old(self).spec_world().has_comp(old(self).spec_entity().index as int, cid) && cid
                    != component_id ==> final(self).spec_world().slot_at(
                    old(self).spec_entity().index as int,
                    cid,
                ) == old(self).spec_world().slot_at(old(self).spec_entity().index as int, cid),
            forall|i: int|
                i != old(self).spec_entity().index as int ==> same_entity(
                    old(self).spec_world(),
                    final(self).spec_world(),
                    i,
                ),
    {
        let mut ids: Vec<usize> = Vec::new();
        ids.push(component_id);
        let mut vals: Vec<Val> = Vec::new();
        vals.push(value);
        let ghost gids = ids@;
        self.insert_bundle_by_ids(ids, &vals);
        proof {
            assert(gids[0] == component_id);
            assert(self.spec_world().has_comp(old(self).spec_entity().index as int, gids[0]));
            assert(self.spec_world().value_at(old(self).spec_entity().index as int, gids[0])
                == vals@[0]);
            let ghost idx = old(self).spec_entity().index as int;
            assert forall|cid: usize|
                old(self).spec_world().has_comp(idx, cid) && cid
                    != component_id implies #[trigger] self.spec_world().slot_at(idx, cid) == old(
                self,
            ).spec_world().slot_at(idx, cid) by {
                assert(!gids.contains(cid)) by {
                    if gids.contains(cid) {
                        let m = choose|m: int| 0 <= m < gids.len() && gids[m] == cid;
                        assert(gids[0] == cid);
                    }
                }
            }
        }
    }

    /// Inserts a bundle given as a sorted id list with matching values.
    /// The bundle shape is interned on first use.
    pub fn insert_bundle_by_ids(&mut self, component_ids: Vec<usize>, values: &Vec<Val>)
        requires
            old(self).wf(),
            sorted_strict(component_ids@),
            forall|k: int|
                0 <= k < component_ids@.len() ==> old(self).spec_world().valid_cid(
                    #[trigger] component_ids@[k],
                ),
            values@.len() == component_ids@.len(),
        ensures
            final(self).wf(),
            final(self).spec_entity() == old(self).spec_entity(),
            forall|k: int|
                0 <= k < component_ids@.len() ==> final(self).spec_world().has_comp(
                    old(self).spec_entity().index as int,
                    #[trigger] component_ids@[k],
                ) && final(self).spec_world().value_at(
                    old(self).spec_entity().index as int,
                    component_ids@[k],
                ) == values@[k],
            forall|cid: usize|
                #![trigger final(self).spec_world().slot_at(old(self).spec_entity().index as int, cid)]
                old(self).spec_world().has_comp(old(self).spec_entity().index as int, cid)
                    && !component_ids@.contains(cid) ==> final(self).spec_world().slot_at(
                    old(self).spec_entity().index as int,
                    cid,
                ) == old(self).spec_world().slot_at(old(self).spec_entity().index as int, cid),
            forall|i: int|
                i != old(self).spec_entity().index as int ==> same_entity(
                    old(self).spec_world(),
                    final(self).spec_world(),
                    i,
                ),
    {
        let ghost w0 = self.world;
        let ghost idx = self.entity.index as int;
        let ghost ids = component_ids@;
        let b = self.world.init_bundle(component_ids);
        proof {
            assert(self.world.live(self.entity));
            assert(self.wf()) by {
                assert(self.world.entities == w0.entities);
            }
        }
        let ghost w1 = self.world;
        self.world.insert_bundle(self.entity, b, values);
        let ghost w2 = self.world;
        self.update_location();
        proof {
            assert forall|k: int| 0 <= k < ids.len() implies self.spec_world().has_comp(
                idx,
                #[trigger] ids[k],
            ) && self.spec_world().value_at(idx, ids[k]) == values@[k] by {
                assert(ids.contains(ids[k]));
                assert(w2.slot_at(idx, ids[k]).value == values@[k]);
                assert(w2.arch_of(idx).table_components@.contains(ids[k]) || w2.arch_of(
                    idx,
                ).sparse_components@.contains(ids[k])) by {
                    if !w1.is_sparse(ids[k]) {
                        assert(w1.bundles.list@[b as int].table_components@.contains(ids[k])) by {
                            assert(w1.wf_bundle_at(b as int));
                            crate::component::lemma_filter_storage_contains(
                                w1.components.infos@,
                                ids,
                                crate::component::StorageType::Table,
                            );
                        }
                    } else {
                        assert(w1.bundles.list@[b as int].sparse_components@.contains(ids[k]))
                            by {
                            assert(w1.wf_bundle_at(b as int));
                            crate::component::lemma_filter_storage_contains(
                                w1.components.infos@,
                                ids,
                                crate::component::StorageType::SparseSet,
                            );
                        }
                    }
                }
            }
            assert forall|i: int| i != idx implies same_entity(w0, self.spec_world(), i) by {
                assert(same_entity(w0, w1, i)) by {
                    if w0.live_idx(i) {
                        assert forall|cid: usize| #[trigger] w0.has_comp(i, cid) implies w1
                            .slot_at(i, cid) == w0.slot_at(i, cid) by {}
                    }
                }
                crate::ops::lemma_same_entity_trans(w0, w1, w2, i);
            }
            assert forall|cid: usize|
                w0.has_comp(idx, cid) && !ids.contains(cid) implies #[trigger] self.spec_world(
            ).slot_at(idx, cid) == w0.slot_at(idx, cid) by {
                assert(w1.slot_at(idx, cid) == w0.slot_at(idx, cid));
                assert(w1.has_comp(idx, cid));
                assert(w2.slot_at(idx, cid) == w1.slot_at(idx, cid));
            }
        }
    }

    /// Removes a bundle under the strict policy, handing back the removed
    /// values; absent exactly when some bundle component is missing from
    /// the entity's shape (nothing is then removed or recorded).
    pub fn remove(&mut self, bundle_id: usize) -> (r: Option<Vec<Val>>)
        requires
            old(self).wf(),
            old(self).spec_world().valid_bundle(bundle_id as int),
        ensures
            final(self).wf(),
            final(self).spec_entity() == old(self).spec_entity(),
            (r is Some <==> old(self).spec_world().bundle_subset(
                old(self).spec_world().loc(old(self).spec_entity().index as int).archetype_id
                    as int,
                bundle_id as int,
            )),
            (r is Some ==> r.unwrap()@.len() == old(self).spec_world().bundles.list@[
                bundle_id as int
            ].component_ids@.len()),
            (r is Some ==> (forall|k: int|
                0 <= k < old(self).spec_world().bundles.list@[
                    bundle_id as int
                ].component_ids@.len() ==> r.unwrap()@[k] == old(self).spec_world().value_at(
                    old(self).spec_entity().index as int,
                    #[trigger] old(self).spec_world().bundles.list@[
                        bundle_id as int
                    ].component_ids@[k],
                ))),
            (r is Some ==> is_diff_set(
                final(self).spec_world().arch_of(
                    old(self).spec_entity().index as int,
                ).table_components@,
                old(self).spec_world().arch_of(
                    old(self).spec_entity().index as int,
                ).table_components@,
                old(self).spec_world().bundles.list@[bundle_id as int].component_ids@,
            ) && is_diff_set(
                final(self).spec_world().arch_of(
                    old(self).spec_entity().index as int,
                ).sparse_components@,
                old(self).spec_world().arch_of(
                    old(self).spec_entity().index as int,
                ).sparse_components@,
                old(self).spec_world().bundles.list@[bundle_id as int].component_ids@,
            )),
            (r is Some ==> (forall|cid: usize|
                #![trigger final(self).spec_world().slot_at(old(self).spec_entity().index as int, cid)]
                old(self).spec_world().has_comp(old(self).spec_entity().index as int, cid) && !old(self).spec_world().bundles.list@[bundle_id as int].component_ids@.contains(cid)
                    ==> final(self).spec_world().slot_at(
                    old(self).spec_entity().index as int,
                    cid,
                ) == old(self).spec_world().slot_at(old(self).spec_entity().index as int, cid))),
            (r is Some ==> (forall|cid: int|
                0 <= cid < old(self).spec_world().removed@.len() ==> (#[trigger] final(self).spec_world().removed@[cid])@ == (if old(self).spec_world().bundles.list@[
                    bundle_id as int
                ].component_ids@.contains(cid as usize) {
                    old(self).spec_world().removed@[cid]@.push(old(self).spec_entity())
                } else {
                    old(self).spec_world().removed@[cid]@
                }))),
            (r is None ==> final(self).spec_world().entities == old(self).spec_world().entities
                && final(self).spec_world().sparse_stores@ == old(self).spec_world().sparse_stores@
                && final(self).spec_world().removed@ == old(self).spec_world().removed@ && (forall|
                i: int,
            | same_entity(old(self).spec_world(), final(self).spec_world(), i))),
            forall|i: int|
                i != old(self).spec_entity().index as int ==> same_entity(
                    old(self).spec_world(),
                    final(self).spec_world(),
                    i,
                ),
    {
        let r = self.world.take_bundle(self.entity, bundle_id);
        self.update_location();
        r
    }

    /// The strict removal under its older name: the same contract as
    /// `remove`, state change included.
    pub fn remove_bundle(&mut self, bundle_id: usize) -> (r: Option<Vec<Val>>)
        requires
            old(self).wf(),
            old(self).spec_world().valid_bundle(bundle_id as int),
        ensures
            final(self).wf(),
            final(self).spec_entity() == old(self).spec_entity(),
            (r is Some <==> old(self).spec_world().bundle_subset(
                old(self).spec_world().loc(old(self).spec_entity().index as int).archetype_id
                    as int,
                bundle_id as int,
            )),
            (r is Some ==> r.unwrap()@.len() == old(self).spec_world().bundles.list@[
                bundle_id as int
            ].component_ids@.len()),
            (r is Some ==> (forall|k: int|
                0 <= k < old(self).spec_world().bundles.list@[
                    bundle_id as int
                ].component_ids@.len() ==> r.unwrap()@[k] == old(self).spec_world().value_at(
                    old(self).spec_entity().index as int,
                    #[trigger] old(self).spec_world().bundles.list@[
                        bundle_id as int
                    ].component_ids@[k],
                ))),
            (r is Some ==> is_diff_set(
                final(self).spec_world().arch_of(
                    old(self).spec_entity().index as int,
                ).table_components@,
                old(self).spec_world().arch_of(
                    old(self).spec_entity().index as int,
                ).table_components@,
                old(self).spec_world().bundles.list@[bundle_id as int].component_ids@,
            ) && is_diff_set(
                final(self).spec_world().arch_of(
                    old(self).spec_entity().index as int,
                ).sparse_components@,
                old(self).spec_world().arch_of(
                    old(self).spec_entity().index as int,
                ).sparse_components@,
                old(self).spec_world().bundles.list@[bundle_id as int].component_ids@,
            )),
            (r is Some ==> (forall|cid: usize|
                #![trigger final(self).spec_world().slot_at(old(self).spec_entity().index as int, cid)]
                old(self).spec_world().has_comp(old(self).spec_entity().index as int, cid) && !old(self).spec_world().bundles.list@[bundle_id as int].component_ids@.contains(cid)
                    ==> final(self).spec_world().slot_at(
                    old(self).spec_entity().index as int,
                    cid,
                ) == old(self).spec_world().slot_at(old(self).spec_entity().index as int, cid))),
            (r is Some ==> (forall|cid: int|
                0 <= cid < old(self).spec_world().removed@.len() ==> (#[trigger] final(self).spec_world().removed@[cid])@ == (if old(self).spec_world().bundles.list@[
                    bundle_id as int
                ].component_ids@.contains(cid as usize) {
                    old(self).spec_world().removed@[cid]@.push(old(self).spec_entity())
                } else {
                    old(self).spec_world().removed@[cid]@
                }))),
            (r is None ==> final(self).spec_world().entities == old(self).spec_world().entities
                && final(self).spec_world().sparse_stores@ == old(self).spec_world().sparse_stores@
                && final(self).spec_world().removed@ == old(self).spec_world().removed@ && (forall|
                i: int,
            | same_entity(old(self).spec_world(), final(self).spec_world(), i))),
            forall|i: int|
                i != old(self).spec_entity().index as int ==> same_entity(
                    old(self).spec_world(),
                    final(self).spec_world(),
                    i,
                ),
    {
        self.remove(bundle_id)
    }

    /// Removes whichever bundle components the entity has; absent ones
    /// are ignored and the removal always succeeds.
    pub fn remove_intersection(&mut self, bundle_id: usize)
        requires
            old(self).wf(),
            old(self).spec_world().valid_bundle(bundle_id as int),
        ensures
            final(self).wf(),
            final(self).spec_entity() == old(self).spec_entity(),
            is_diff_set(
                final(self).spec_world().arch_of(
                    old(self).spec_entity().index as int,
                ).table_components@,
                old(self).spec_world().arch_of(
                    old(self).spec_entity().index as int,
                ).table_components@,
                old(self).spec_world().bundles.list@[bundle_id as int].component_ids@,
            ),
            is_diff_set(
                final(self).spec_world().arch_of(
                    old(self).spec_entity().index as int,
                ).sparse_components@,
                old(self).spec_world().arch_of(
                    old(self).spec_entity().index as int,
                ).sparse_components@,
                old(self).spec_world().bundles.list@[bundle_id as int].component_ids@,
            ),
            forall|cid: usize|
                #![trigger final(self).spec_world().slot_at(old(self).spec_entity().index as int, cid)]
                old(self).spec_world().has_comp(old(self).spec_entity().index as int, cid) && !old(self).spec_world().bundles.list@[bundle_id as int].component_ids@.contains(cid)
                    ==> final(self).spec_world().slot_at(
                    old(self).spec_entity().index as int,
                    cid,
                ) == old(self).spec_world().slot_at(old(self).spec_entity().index as int, cid),
            forall|cid: int|
                0 <= cid < old(self).spec_world().removed@.len() ==> (#[trigger] final(self).spec_world().removed@[cid])@ == (if old(self).spec_world().bundles.list@[
                    bundle_id as int
                ].component_ids@.contains(cid as usize) && old(self).spec_world().has_comp(
                    old(self).spec_entity().index as int,
                    cid as usize,
                ) {
                    old(self).spec_world().removed@[cid]@.push(old(self).spec_entity())
                } else {
                    old(self).spec_world().removed@[cid]@
                }),
            forall|i: int|
                i != old(self).spec_entity().index as int ==> same_entity(
                    old(self).spec_world(),
                    final(self).spec_world(),
                    i,
                ),
    {
        self.world.remove_bundle_intersection(self.entity, bundle_id);
        self.update_location();
    }

    /// Destroys the entity, dropping all its values, and hands the store
    /// back. The handle goes provably stale: its index's stored
    /// generation is bumped.
    pub fn despawn(self) -> (r: World)
        requires
            self.wf(),
        ensures
            r.wf(),
            !r.live(self.spec_entity()),
            !r.live_idx(self.spec_entity().index as int),
            r.entities.meta@[self.spec_entity().index as int].generation
                == crate::entity::next_generation(self.spec_entity().generation),
            r.entities.free@ == self.spec_world().entities.free@.push(self.spec_entity().index),
            forall|cid: int|
                0 <= cid < self.spec_world().removed@.len() ==> (#[trigger] r.removed@[cid])@ == (
                if self.spec_world().has_comp(self.spec_entity().index as int, cid as usize) {
                    self.spec_world().removed@[cid]@.push(self.spec_entity())
                } else {
                    self.spec_world().removed@[cid]@
                }),
            forall|i: int|
                i != self.spec_entity().index as int ==> same_entity(self.spec_world(), r, i),
    {
        let EntityMut { mut world, entity, location } = self;
        let _ = world.despawn_entity(entity);
        world
    }
}

impl World {
    /// A shared view of a live entity.
    pub fn entity(&self, e: Entity) -> (r: EntityRef<'_>)
        requires
            self.wf(),
            self.live(e),
        ensures
            r.wf(),
            r.spec_world() == *self,
            r.spec_entity() == e,
    {
        let l = self.entities.get(e).unwrap();
        EntityRef::new(self, e, l)
    }

    /// A shared view of an entity, or absent for a stale or unknown
    /// handle.
    pub fn get_entity(&self, e: Entity) -> (r: Option<EntityRef<'_>>)
        requires
            self.wf(),
        ensures
            r is Some <==> self.live(e),
            r is Some ==> r.unwrap().wf() && r.unwrap().spec_world() == *self
                && r.unwrap().spec_entity() == e,
    {
        match self.entities.get(e) {
            Some(l) => Some(EntityRef::new(self, e, l)),
            None => None,
        }
    }

    /// An exclusive view of a live entity; the view owns the store.
    pub fn entity_mut(self, e: Entity) -> (r: EntityMut)
        requires
            self.wf(),
            self.live(e),
        ensures
            r.wf(),
            r.spec_world() == self,
            r.spec_entity() == e,
    {
        let l = self.entities.get(e).unwrap();
        EntityMut::new(self, e, l)
    }

    /// Spawns a fresh entity with the empty shape and returns the
    /// exclusive view of it.
    pub fn spawn_empty(self) -> (r: EntityMut)
        requires
            self.wf(),
            self.entities.meta@.len() < 0xFFFF_FFFFint,
        ensures
            r.wf(),
            r.spec_world().arch_of(r.spec_entity().index as int).table_components@.len() == 0,
            r.spec_world().arch_of(r.spec_entity().index as int).sparse_components@.len() == 0,
            !self.live(r.spec_entity()),
            registries_stable(self, r.spec_world()),
            r.spec_world().sparse_stores@ == self.sparse_stores@,
            r.spec_world().removed@ == self.removed@,
            r.spec_world().change_tick == self.change_tick,
            r.spec_world().last_change_tick == self.last_change_tick,
            r.spec_world().cache_misses == self.cache_misses,
            forall|i: int|
                i != r.spec_entity().index as int ==> same_entity(self, r.spec_world(), i),
            (if self.entities.free@.len() > 0 {
                r.spec_entity().index == self.entities.free@.last() && r.spec_entity().generation
                    == self.entities.meta@[r.spec_entity().index as int].generation
            } else {
                r.spec_entity().index as int == self.entities.meta@.len()
                    && r.spec_entity().generation == 0
            }),
    {
        let mut w = self;
        let e = w.spawn_entity();
        w.entity_mut(e)
    }
}

} // verus!
