use ecs_store::component::{ComponentTicks, StorageType};
use ecs_store::entity::Entity;
use ecs_store::sorted::sorted_remove as sorted_remove_ids;
use ecs_store::world::World;

const POSITION: u64 = 100;
const VELOCITY: u64 = 200;

fn xy(x: u32, y: u32) -> u64 {
    ((x as u64) << 32) | (y as u64)
}

#[test]
fn sorted_remove() {
    let mut a: Vec<usize> = vec![1, 2, 3, 4, 5, 6, 7];
    let b: Vec<usize> = vec![1, 2, 3, 5, 7];
    sorted_remove_ids(&mut a, &b);

    assert_eq!(a, vec![4, 6]);

    let mut a: Vec<usize> = vec![1];
    let b: Vec<usize> = vec![1];
    sorted_remove_ids(&mut a, &b);

    assert_eq!(a, Vec::<usize>::new());

    let mut a: Vec<usize> = vec![1];
    let b: Vec<usize> = vec![2];
    sorted_remove_ids(&mut a, &b);

    assert_eq!(a, vec![1]);
}

#[test]
fn entity_ref_get_by_id() {
    let mut world = World::new();
    let component_id = world.init_component(1, StorageType::Table);

    let mut entity = world.spawn_empty();
    entity.insert_by_id(component_id, 42);
    let id = entity.id();
    let world = entity.into_world_mut();

    let entity = world.entity(id);
    assert_eq!(entity.get_by_id(component_id), Some(42));
}

#[test]
fn entity_mut_get_by_id() {
    let mut world = World::new();
    let component_id = world.init_component(1, StorageType::Table);

    let mut entity = world.spawn_empty();
    entity.insert_by_id(component_id, 42);
    assert_eq!(entity.get_mut_by_id(component_id), Some(42));
    assert!(entity.write_by_id(component_id, 43));
    let id = entity.id();
    let world = entity.into_world_mut();

    let entity = world.entity(id);
    assert_eq!(entity.get_by_id(component_id), Some(43));
}

#[test]
fn entity_ref_get_by_id_invalid_component_id() {
    let invalid_component_id = usize::MAX;

    let world = World::new();
    let entity = world.spawn_empty();
    let id = entity.id();
    let world = entity.into_world_mut();
    let entity = world.entity(id);
    assert!(entity.get_by_id(invalid_component_id).is_none());
}

#[test]
fn entity_mut_get_by_id_invalid_component_id() {
    let invalid_component_id = usize::MAX;

    let world = World::new();
    let mut entity = world.spawn_empty();
    assert!(entity.get_by_id(invalid_component_id).is_none());
    assert!(entity.get_mut_by_id(invalid_component_id).is_none());
}

#[test]
fn entity_mut_insert_by_id() {
    let mut world = World::new();
    let test_component_id = world.init_component(1, StorageType::Table);

    let mut entity = world.spawn_empty();
    entity.insert_by_id(test_component_id, 42);

    assert_eq!(entity.get_by_id(test_component_id), Some(42));
}

#[test]
fn entity_mut_insert_bundle_by_ids() {
    let mut world = World::new();
    let test_component_id = world.init_component(1, StorageType::Table);
    let test_component_2_id = world.init_component(2, StorageType::Table);

    let mut entity = world.spawn_empty();

    let component_ids = vec![test_component_id, test_component_2_id];
    entity.insert_bundle_by_ids(component_ids, &vec![42, 84]);

    assert_eq!(entity.get_by_id(test_component_id), Some(42));
    assert_eq!(entity.get_by_id(test_component_2_id), Some(84));
}

#[test]
fn insert_then_remove_round_trips() {
    let mut world = World::new();
    let a = world.init_component(1, StorageType::Table);
    let b = world.init_component(2, StorageType::SparseSet);
    let bundle_a = world.init_bundle(vec![a]);
    let bundle_b = world.init_bundle(vec![b]);

    let mut entity = world.spawn_empty();
    entity.insert(bundle_a, &vec![5]);
    let archetype_before = entity.location().archetype_id;
    entity.insert(bundle_b, &vec![7]);
    let removed = entity.remove(bundle_b);
    assert_eq!(removed, Some(vec![7]));
    assert_eq!(entity.location().archetype_id, archetype_before);
    assert_eq!(entity.get_by_id(a), Some(5));
}

#[test]
fn despawn_relocates_last_table_row() {
    let mut world = World::new();
    let pos = world.init_component(POSITION, StorageType::Table);
    let bundle = world.init_bundle(vec![pos]);

    let mut e1 = world.spawn_empty();
    e1.insert(bundle, &vec![11]);
    let id1 = e1.id();
    let world = e1.into_world_mut();

    let mut e2 = world.spawn_empty();
    e2.insert(bundle, &vec![22]);
    let id2 = e2.id();
    let world = e2.into_world_mut();

    assert_eq!(world.entity(id1).location().table_row, 0);
    assert_eq!(world.entity(id2).location().table_row, 1);

    // Removing the non-last row swaps the previously-last row into the
    // vacated slot, and the relocated entity's record follows.
    let world = world.entity_mut(id1).despawn();
    assert!(world.get_entity(id1).is_none());
    let moved = world.entity(id2);
    assert_eq!(moved.location().table_row, 0);
    assert_eq!(moved.get_by_id(pos), Some(22));
}

#[test]
fn transition_cache_answers_second_resolution() {
    let mut world = World::new();
    let a = world.init_component(1, StorageType::Table);
    let bundle = world.init_bundle(vec![a]);

    let mut e1 = world.spawn_empty();
    e1.insert(bundle, &vec![10]);
    let id1 = e1.id();
    let world = e1.into_world_mut();

    let mut e2 = world.spawn_empty();
    e2.insert(bundle, &vec![20]);
    let id2 = e2.id();
    let world = e2.into_world_mut();

    // First strict removal computes the transition and caches it.
    let before = world.cache_miss_count();
    let mut e1 = world.entity_mut(id1);
    assert_eq!(e1.remove(bundle), Some(vec![10]));
    let dest1 = e1.location().archetype_id;
    let world = e1.into_world_mut();
    let after_first = world.cache_miss_count();
    assert!(after_first > before);

    // The second resolution of the same (archetype, bundle) pair is
    // answered from the edge cache: same destination, no recomputation.
    let mut e2 = world.entity_mut(id2);
    assert_eq!(e2.remove(bundle), Some(vec![20]));
    let dest2 = e2.location().archetype_id;
    let world = e2.into_world_mut();
    let after_second = world.cache_miss_count();
    assert_eq!(dest1, dest2);
    assert_eq!(after_second, after_first);
}

#[test]
fn removing_empty_bundle_succeeds_trivially() {
    let mut world = World::new();
    let a = world.init_component(1, StorageType::Table);
    let bundle_a = world.init_bundle(vec![a]);
    let empty_bundle = world.init_bundle(vec![]);

    let mut entity = world.spawn_empty();
    entity.insert(bundle_a, &vec![5]);
    let archetype_before = entity.location().archetype_id;

    // Nothing is missing from an empty bundle, so the strict removal
    // succeeds with an empty value and moves nothing.
    assert_eq!(entity.remove(empty_bundle), Some(Vec::new()));
    assert_eq!(entity.location().archetype_id, archetype_before);
    assert_eq!(entity.get_by_id(a), Some(5));
}

#[test]
fn strict_remove_fails_where_intersection_succeeds() {
    let mut world = World::new();
    let a = world.init_component(1, StorageType::Table);
    let b = world.init_component(2, StorageType::Table);
    let bundle_a = world.init_bundle(vec![a]);
    let bundle_ab = world.init_bundle(vec![a, b]);

    let mut entity = world.spawn_empty();
    entity.insert(bundle_a, &vec![9]);

    // Strict: a bundle component is missing, so nothing is removed.
    assert_eq!(entity.remove(bundle_ab), None);
    assert_eq!(entity.get_by_id(a), Some(9));

    // Intersection: the present subset is removed.
    entity.remove_intersection(bundle_ab);
    assert_eq!(entity.get_by_id(a), None);
}

#[test]
fn generation_guards_reused_index() {
    let world = World::new();
    let e0 = world.spawn_empty();
    let world = e0.into_world_mut();
    let e1 = world.spawn_empty();
    let world = e1.into_world_mut();
    let e2 = world.spawn_empty();
    let world = e2.into_world_mut();
    let e3 = world.spawn_empty();
    let stale = e3.id();
    assert_eq!(stale.index, 3);
    assert_eq!(stale.generation, 0);
    let world = e3.into_world_mut();

    let world = world.entity_mut(stale).despawn();
    let fresh = world.spawn_empty();
    let reused = fresh.id();
    assert_eq!(reused.index, 3);
    assert_eq!(reused.generation, 1);
    let world = fresh.into_world_mut();

    // The old handle is provably stale and can never alias the new data.
    assert!(world.get_entity(Entity { index: 3, generation: 0 }).is_none());
    assert!(world.get_entity(reused).is_some());
}

#[test]
fn change_window_is_wrap_aware() {
    let seven = ComponentTicks { added: 7, changed: 7 };
    assert!(seven.is_changed(5, 10));
    let three = ComponentTicks { added: 3, changed: 3 };
    assert!(!three.is_changed(5, 10));
}

#[test]
fn exclusive_write_stamps_current_tick() {
    let mut world = World::new();
    let a = world.init_component(1, StorageType::SparseSet);

    let mut entity = world.spawn_empty();
    entity.insert_by_id(a, 5);
    assert!(entity.write_by_id(a, 6));
    let stamped = entity.get_change_ticks_by_id(a).unwrap();
    let current = entity.world().read_change_tick();
    assert_eq!(stamped.changed, current);
    assert_eq!(entity.get_by_id(a), Some(6));
}

#[test]
fn spawn_insert_remove_despawn_scenario() {
    let mut world = World::new();
    let position = world.init_component(POSITION, StorageType::Table);
    let velocity = world.init_component(VELOCITY, StorageType::SparseSet);
    let position_bundle = world.init_bundle(vec![position]);
    let velocity_bundle = world.init_bundle(vec![velocity]);

    let mut entity = world.spawn_empty();
    entity.insert(position_bundle, &vec![xy(0, 0)]);
    entity.insert(velocity_bundle, &vec![xy(1, 1)]);
    assert!(entity.contains(POSITION));
    assert!(entity.contains(VELOCITY));

    let removed = entity.remove(position_bundle);
    assert_eq!(removed, Some(vec![xy(0, 0)]));
    assert!(!entity.contains(POSITION));
    assert!(entity.contains(VELOCITY));
    assert_eq!(entity.get_by_id(velocity), Some(xy(1, 1)));

    let id = entity.id();
    let world = entity.despawn();
    assert!(world.get_entity(id).is_none());
}

#[test]
fn intersection_records_removed_components() {
    let mut world = World::new();
    let a = world.init_component(1, StorageType::Table);
    let b = world.init_component(2, StorageType::SparseSet);
    let bundle_ab = world.init_bundle(vec![a, b]);
    let bundle_a = world.init_bundle(vec![a]);

    let mut entity = world.spawn_empty();
    entity.insert(bundle_a, &vec![1]);
    let id = entity.id();
    entity.remove_intersection(bundle_ab);
    let world = entity.into_world_mut();

    // Only the component that was actually present is in the ledger.
    assert_eq!(world.removed[a], vec![id]);
    assert!(world.removed[b].is_empty());
}
