use jaren_ecs::{
    Component, ComponentDescriptor, ComponentValue, EcsError, Entity, FunctionMode, Query,
    Scheduler, World, WriteComponent,
};

const POSITION: u64 = 1;
const PLAYER: u64 = 2;
const VELOCITY: u64 = 3;

struct Position(f32, f32);

struct Player;

impl Component for Position {
    fn component_type_id(&self) -> u64 {
        POSITION
    }
    fn component_size(&self) -> usize {
        8
    }
    fn component_align(&self) -> usize {
        4
    }
    fn component_bytes(&self) -> Vec<u8> {
        let mut b = Vec::new();
        b.extend_from_slice(&self.0.to_le_bytes());
        b.extend_from_slice(&self.1.to_le_bytes());
        b
    }
}

impl Component for Player {
    fn component_type_id(&self) -> u64 {
        PLAYER
    }
    fn component_size(&self) -> usize {
        0
    }
    fn component_align(&self) -> usize {
        1
    }
    fn component_bytes(&self) -> Vec<u8> {
        Vec::new()
    }
}

fn position(x: f32, y: f32) -> ComponentValue {
    ComponentValue::from_component(&Position(x, y))
}

fn player() -> ComponentValue {
    ComponentValue::from_component(&Player)
}

fn spawn(world: &mut World, components: Vec<ComponentValue>) -> Entity {
    world.spawn(components).expect("spawn failed")
}

#[test]
fn test_entity_creation() {
    let mut world = World::new();
    let entity = spawn(&mut world, vec![position(0.0, 0.0)]);
    let entity2 = spawn(&mut world, vec![position(1.0, 0.0)]);
    assert_eq!(entity.id, 0);
    assert_eq!(entity2.id, 1);
}

#[test]
fn test_query() {
    let mut world = World::new();
    let entity = spawn(&mut world, vec![position(0.0, 0.0)]);
    let entity2 = spawn(&mut world, vec![position(1.0, 0.0)]);
    let query = Query::new(vec![POSITION], vec![]);
    let results = query.iter(&world);
    assert_eq!(results[0], entity);
    assert_eq!(results[1], entity2);
}

#[test]
fn test_query_tuple() {
    let mut world = World::new();
    let entity = spawn(&mut world, vec![position(0.0, 0.0), player()]);
    let entity2 = spawn(&mut world, vec![position(1.0, 0.0)]);
    let results = Query::new(vec![POSITION, PLAYER], vec![]).iter(&world);
    assert_eq!(results[0], entity);
    assert_eq!(results[0], entity);
    let _ = entity2;
}

#[test]
fn recycled_id_gets_new_generation() {
    let mut world = World::new();
    let e = spawn(&mut world, vec![position(3.0, 4.0)]);
    assert!(world.is_alive(e));
    world.despawn(e).expect("despawn failed");
    assert!(!world.is_alive(e));
    let e2 = spawn(&mut world, vec![position(5.0, 6.0)]);
    assert_eq!(e2.id, e.id);
    assert_ne!(e2.generation, e.generation);
    assert!(!world.is_alive(e));
    assert!(world.is_alive(e2));
}

#[test]
fn columns_match_entity_counts() {
    let mut world = World::new();
    let a = spawn(&mut world, vec![position(0.0, 0.0)]);
    let _b = spawn(&mut world, vec![position(1.0, 1.0), player()]);
    let _c = spawn(&mut world, vec![position(2.0, 2.0)]);
    world
        .add_component(a, ComponentValue { type_id: VELOCITY, bytes: vec![1, 2, 3, 4] })
        .expect("add failed");
    world.despawn(_c).expect("despawn failed");
    for idx in 0..world.archetype_count() {
        let arch = world.archetype_at(idx);
        for c in 0..arch.column_count() {
            assert_eq!(arch.column_len(c), arch.row_count());
        }
    }
}

#[test]
fn add_then_remove_keeps_components_byte_identical() {
    let mut world = World::new();
    let e = spawn(&mut world, vec![position(1.5, -2.5)]);
    let before = world.get_component(e, POSITION).expect("missing component");
    world
        .add_component(e, ComponentValue { type_id: VELOCITY, bytes: vec![9, 9, 9, 9] })
        .expect("add failed");
    assert_eq!(world.get_component(e, VELOCITY), Some(vec![9, 9, 9, 9]));
    assert_eq!(world.get_component(e, POSITION), Some(before.clone()));
    world.remove_component(e, VELOCITY).expect("remove failed");
    assert_eq!(world.get_component(e, VELOCITY), None);
    assert_eq!(world.get_component(e, POSITION), Some(before));
}

#[test]
fn query_filters_by_required_and_excluded() {
    let mut world = World::new();
    let e1 = spawn(&mut world, vec![position(0.0, 0.0)]);
    let e2 = spawn(&mut world, vec![position(1.0, 0.0), player()]);
    let with_position = Query::new(vec![POSITION], vec![]).iter(&world);
    assert_eq!(with_position.len(), 2);
    assert!(with_position.contains(&e1));
    assert!(with_position.contains(&e2));
    let with_both = Query::new(vec![POSITION, PLAYER], vec![]).iter(&world);
    assert_eq!(with_both, vec![e2]);
    let without_player = Query::new(vec![POSITION], vec![PLAYER]).iter(&world);
    assert_eq!(without_player, vec![e1]);
}

#[test]
fn swap_remove_keeps_locations_and_values_consistent() {
    let mut world = World::new();
    let e1 = spawn(&mut world, vec![position(1.0, 10.0)]);
    let e2 = spawn(&mut world, vec![position(2.0, 20.0)]);
    let e3 = spawn(&mut world, vec![position(3.0, 30.0)]);
    let v1 = world.get_component(e1, POSITION).unwrap();
    let v3 = world.get_component(e3, POSITION).unwrap();
    world.despawn(e2).expect("despawn failed");
    for (e, v) in [(e1, v1), (e3, v3)] {
        let loc = world.location_of(e).expect("entity lost its location");
        let arch = world.archetype_at(loc.archetype);
        assert_eq!(arch.entity_at(loc.row), e);
        assert_eq!(world.get_component(e, POSITION), Some(v));
    }
}

#[test]
fn update_systems_are_deterministic() {
    fn build() -> (World, Entity) {
        let mut world = World::new();
        let e = spawn(&mut world, vec![position(0.0, 0.0)]);
        (world, e)
    }
    fn run_tick(world: &mut World, e: Entity) {
        let mut scheduler: Scheduler<WriteComponent> = Scheduler::new();
        scheduler.add_system(
            FunctionMode::Update,
            WriteComponent { target: e, type_id: POSITION, bytes: vec![1, 0, 0, 0, 2, 0, 0, 0] },
        );
        scheduler.add_system(
            FunctionMode::Update,
            WriteComponent { target: e, type_id: POSITION, bytes: vec![7, 0, 0, 0, 8, 0, 0, 0] },
        );
        scheduler.run_update(world);
        scheduler.run_update(world);
    }
    let (mut w1, e1) = build();
    let (mut w2, e2) = build();
    run_tick(&mut w1, e1);
    run_tick(&mut w2, e2);
    assert_eq!(
        world_component(&w1, e1, POSITION),
        world_component(&w2, e2, POSITION)
    );
    assert_eq!(world_component(&w1, e1, POSITION), Some(vec![7, 0, 0, 0, 8, 0, 0, 0]));
}

fn world_component(world: &World, e: Entity, t: u64) -> Option<Vec<u8>> {
    world.get_component(e, t)
}

#[test]
fn startup_systems_run_once_then_drain() {
    let mut world = World::new();
    let e = spawn(&mut world, vec![position(0.0, 0.0)]);
    let mut scheduler: Scheduler<WriteComponent> = Scheduler::new();
    scheduler.add_system(
        FunctionMode::Startup,
        WriteComponent { target: e, type_id: POSITION, bytes: vec![5, 0, 0, 0, 6, 0, 0, 0] },
    );
    scheduler.run(&mut world);
    assert_eq!(world.get_component(e, POSITION), Some(vec![5, 0, 0, 0, 6, 0, 0, 0]));
    world
        .set_component(e, POSITION, vec![0, 0, 0, 0, 0, 0, 0, 0])
        .expect("set failed");
    scheduler.run(&mut world);
    assert_eq!(world.get_component(e, POSITION), Some(vec![0, 0, 0, 0, 0, 0, 0, 0]));
}

#[test]
fn registry_is_idempotent() {
    let mut world = World::new();
    let d1 = world.register_component(ComponentDescriptor { type_id: POSITION, size: 8, align: 4 });
    let d2 = world.register_component(ComponentDescriptor { type_id: POSITION, size: 99, align: 1 });
    assert_eq!(d1, d2);
    let described = world.describe(POSITION).expect("type not registered");
    assert_eq!(described, ComponentDescriptor { type_id: POSITION, size: 8, align: 4 });
    assert_eq!(world.describe(VELOCITY), None);
}

#[test]
fn stale_handles_are_rejected() {
    let mut world = World::new();
    let e = spawn(&mut world, vec![position(0.0, 0.0)]);
    world.despawn(e).expect("despawn failed");
    assert_eq!(world.despawn(e), Err(EcsError::InvalidEntity));
    assert_eq!(
        world.add_component(e, ComponentValue { type_id: PLAYER, bytes: vec![] }),
        Err(EcsError::InvalidEntity)
    );
    assert_eq!(world.remove_component(e, POSITION), Err(EcsError::InvalidEntity));
    assert_eq!(world.set_component(e, POSITION, vec![]), Err(EcsError::InvalidEntity));
    assert_eq!(world.get_component(e, POSITION), None);
    assert_eq!(world.location_of(e), None);
}

#[test]
fn duplicate_component_types_are_rejected() {
    let mut world = World::new();
    assert_eq!(
        world.spawn(vec![position(0.0, 0.0), position(1.0, 1.0)]),
        Err(EcsError::DuplicateComponentType)
    );
    let e = spawn(&mut world, vec![position(0.0, 0.0)]);
    assert_eq!(
        world.add_component(e, position(2.0, 2.0)),
        Err(EcsError::DuplicateComponentType)
    );
}

#[test]
fn removing_an_absent_type_changes_nothing() {
    let mut world = World::new();
    let e = spawn(&mut world, vec![position(4.0, 4.0)]);
    let before = world.get_component(e, POSITION).unwrap();
    world.remove_component(e, VELOCITY).expect("remove failed");
    assert_eq!(world.get_component(e, POSITION), Some(before));
    assert_eq!(world.get_component(e, VELOCITY), None);
}

#[test]
fn set_component_reports_whether_it_wrote() {
    let mut world = World::new();
    let e = spawn(&mut world, vec![position(0.0, 0.0)]);
    assert_eq!(world.set_component(e, POSITION, vec![1, 1, 1, 1, 1, 1, 1, 1]), Ok(true));
    assert_eq!(world.get_component(e, POSITION), Some(vec![1, 1, 1, 1, 1, 1, 1, 1]));
    assert_eq!(world.set_component(e, VELOCITY, vec![1]), Ok(false));
    assert_eq!(world.get_component(e, VELOCITY), None);
}

#[test]
fn get_archetype_reuses_matching_type_sets() {
    let mut world = World::new();
    let a = world.get_archetype(&vec![POSITION, PLAYER]);
    let b = world.get_archetype(&vec![PLAYER, POSITION]);
    assert_eq!(a, b);
    let c = world.get_archetype(&vec![POSITION]);
    assert_ne!(a, c);
    assert_eq!(world.archetype_count(), 2);
}

#[test]
fn cursor_walks_the_query_lazily_and_restarts() {
    let mut world = World::new();
    let _e1 = spawn(&mut world, vec![position(0.0, 0.0)]);
    let e2 = spawn(&mut world, vec![position(1.0, 0.0), player()]);
    let _e3 = spawn(&mut world, vec![position(2.0, 0.0)]);
    let query = Query::new(vec![POSITION], vec![]);
    let eager = query.iter(&world);
    let mut lazy = Vec::new();
    let mut cursor = query.cursor();
    while let Some(e) = cursor.next(&world) {
        lazy.push(e);
    }
    assert_eq!(lazy, eager);
    assert_eq!(cursor.next(&world), None);
    let mut restarted = query.cursor();
    let first = restarted.next(&world);
    assert_eq!(first, Some(eager[0]));
    let only_player = Query::new(vec![PLAYER], vec![]);
    let mut pc = only_player.cursor();
    assert_eq!(pc.next(&world), Some(e2));
    assert_eq!(pc.next(&world), None);
}
