use ambrosia::components::{
    Component, DebugLevel, DebugMessage, Named, Position, DEBUG_KEY, NAMED_KEY, PLAYER_KEY,
    POSITION_KEY, TICK_INFO_KEY,
};
use ambrosia::ecs::world::World;
use ambrosia::ecs::ECSError;
use ambrosia::entities::{debugged, named, player, positioned, KeyEntities};
use ambrosia::map::{RaycastMode, Tile, TileMap};
use ambrosia::systems::{DebugSystem, TickInfo, TickSystem};
use ambrosia::transform::Transform;
use ambrosia::vectors::Vector;

#[test]
fn vector_arithmetic() {
    let a = Vector::new(3, -2);
    let b = Vector::new(-1, 5);
    assert_eq!(a.tuple(), (3, -2));
    assert_eq!(a.add(b), Vector { x: 2, y: 3 });
    assert_eq!(a.sub(b), Vector { x: 4, y: -7 });
    assert_eq!(Vector::center(Vector::new(0, 0), Vector::new(4, 2)), Vector { x: 2, y: 1 });
    assert_eq!(Vector::center(Vector::new(0, 0), Vector::new(-3, -5)), Vector { x: -1, y: -2 });
}

#[test]
fn vector_line_walks_the_grid() {
    let a = Vector::new(0, 0);
    let b = Vector::new(3, 0);
    let line = Vector::line(&a, &b);
    assert_eq!(line.len(), 4);
    assert_eq!(line[0], a);
    assert_eq!(line[3], b);

    let c = Vector::new(2, 2);
    let diagonal = Vector::line(&a, &c);
    assert_eq!(diagonal.len(), 5);
    assert_eq!(diagonal[0], a);
    assert_eq!(diagonal[4], c);
    for pair in diagonal.windows(2) {
        let dx = (pair[1].x - pair[0].x).abs();
        let dy = (pair[1].y - pair[0].y).abs();
        assert_eq!(dx + dy, 1);
    }

    let single = Vector::line(&a, &a);
    assert_eq!(single.len(), 1);
    assert_eq!(single[0], a);
}

#[test]
fn transform_round_trip() {
    let transform = Transform::new(Vector::new(4, -2));
    let input = Vector::new(10, 10);
    let moved = transform.apply(input);
    assert_eq!(moved, Vector { x: 14, y: 8 });
    assert_eq!(transform.inverse_apply(moved), input);
    assert_eq!(Transform::identity().apply(input), input);
}

#[test]
fn tile_states() {
    let mut tile = Tile::ground();
    assert!(tile.walkable());
    assert!(!tile.discovered());

    tile.set_both(255);
    assert!(!tile.walkable());

    tile.discover();
    assert!(tile.discovered());

    assert!(!Tile::wall().walkable());
    assert!(!Tile::window().walkable());
    assert_eq!(Tile::new(0, 7).walkable(), true);
}

#[test]
fn map_bounds_and_tiles() {
    let mut map = TileMap::empty(4, 3);

    assert!(map.in_bounds(&Vector::new(0, 0)));
    assert!(map.in_bounds(&Vector::new(3, 2)));
    assert!(!map.in_bounds(&Vector::new(4, 0)));
    assert!(!map.in_bounds(&Vector::new(0, 3)));
    assert!(!map.in_bounds(&Vector::new(-1, 0)));

    assert!(map.get(&Vector::new(2, 1)).expect("in bounds").walkable());
    assert!(map.get(&Vector::new(4, 0)).is_none());

    map.get_mut(&Vector::new(2, 1)).expect("in bounds").set_both(255);
    assert!(!map.get(&Vector::new(2, 1)).expect("in bounds").walkable());
    assert!(map.get(&Vector::new(1, 1)).expect("in bounds").walkable());
}

#[test]
fn generated_map_shape() {
    let map = TileMap::new(10, 10);

    for x in 0..10 {
        assert!(!map.get(&Vector::new(x, 0)).expect("border").walkable());
        assert!(!map.get(&Vector::new(x, 9)).expect("border").walkable());
        assert!(!map.get(&Vector::new(0, x)).expect("border").walkable());
        assert!(!map.get(&Vector::new(9, x)).expect("border").walkable());
    }
    assert!(map.get(&Vector::new(5, 5)).expect("middle").walkable());
}

#[test]
fn raycast_stops_at_walls() {
    let mut map = TileMap::empty(7, 3);
    map.get_mut(&Vector::new(3, 1)).expect("in bounds").set_both(255);

    let start = Vector::new(1, 1);
    let end = Vector::new(5, 1);

    let (hit, at) = map.raycast(&start, &end, RaycastMode::Walkable);
    assert!(hit);
    assert_eq!(at, Vector { x: 3, y: 1 });

    let (hit, at) = map.raycast(&start, &Vector::new(2, 1), RaycastMode::Walkable);
    assert!(!hit);
    assert_eq!(at, Vector { x: 2, y: 1 });

    // One fully opaque tile spends the whole light budget without blocking
    // the ray; only a second occluder behind it stops sight.
    let (hit, _) = map.raycast(&start, &end, RaycastMode::Visibility);
    assert!(!hit);

    map.get_mut(&Vector::new(4, 1)).expect("in bounds").set_both(255);
    let (hit, at) = map.raycast(&start, &end, RaycastMode::Visibility);
    assert!(hit);
    assert_eq!(at, Vector { x: 4, y: 1 });

    let (hit, _) = map.raycast(&start, &Vector::new(1, 10), RaycastMode::Walkable);
    assert!(hit);
}

#[test]
fn position_moves_on_walkable_tiles() {
    let mut map = TileMap::empty(5, 5);
    map.get_mut(&Vector::new(2, 1)).expect("in bounds").set_both(255);

    let mut position = Position::new(1, 1, 7);
    assert_eq!(position.priority(), 7);

    assert!(!position.try_move(&map, Vector::new(1, 0)));
    assert_eq!(position.coords(), Vector { x: 1, y: 1 });

    assert!(position.try_move(&map, Vector::new(0, 1)));
    assert_eq!(position.coords(), Vector { x: 1, y: 2 });

    assert!(!position.try_set(&map, Vector::new(9, 9)));
    assert_eq!(position.coords(), Vector { x: 1, y: 2 });

    assert!(position.try_set(&map, Vector::new(3, 3)));
    assert_eq!(position.coords(), Vector { x: 3, y: 3 });
}

#[test]
fn tick_info_clock() {
    let mut info = TickInfo::new();
    assert_eq!(info.current_tick(), None);
    assert_eq!(info.offset_tick(5), None);
    assert_eq!(info.last_view_update_tick(), None);

    info.increment_tick();
    assert_eq!(info.current_tick(), Some(0));

    info.increment_tick();
    info.increment_tick();
    assert_eq!(info.current_tick(), Some(2));

    assert_eq!(info.offset_tick(2), Some(4));
    assert_eq!(info.offset_tick(0), Some(2));
    assert_eq!(info.offset_tick(-1), Some(1));
    assert_eq!(info.offset_tick(-2), Some(0));
    assert_eq!(info.offset_tick(-5), None);

    info.update_last_view_update();
    assert_eq!(info.last_view_update_tick(), Some(2));
}

#[test]
fn tick_system_advances_the_clock() {
    let mut world: World<Component, TickSystem> = World::new();
    world
        .insert_resource(TICK_INFO_KEY, Component::TickInfo(TickInfo::new()))
        .expect("insert the clock");

    TickSystem::advance(&mut world).expect("advance the clock");
    TickSystem::advance(&mut world).expect("advance the clock");

    let current = match world.get_resource(TICK_INFO_KEY).expect("read the clock") {
        Component::TickInfo(info) => info.current_tick(),
        _ => panic!("the clock slot holds something else"),
    };
    let _ = world.release_resource(TICK_INFO_KEY);
    assert_eq!(current, Some(1));

    world.add_system(TickSystem::new(), 0);
    world.tick();
    let current = match world.get_resource(TICK_INFO_KEY).expect("read the clock") {
        Component::TickInfo(info) => info.current_tick(),
        _ => panic!("the clock slot holds something else"),
    };
    let _ = world.release_resource(TICK_INFO_KEY);
    assert_eq!(current, Some(2));
}

#[test]
fn debug_inbox_keeps_newest_per_reason() {
    let mut inbox = ambrosia::components::Debug::new();
    assert_eq!(inbox.count(), 0);
    assert_eq!(inbox.max_level, DebugLevel::Silent);

    inbox.add_message(DebugLevel::Info, "move".to_string(), "step".to_string());
    assert_eq!(inbox.count(), 1);
    assert_eq!(inbox.max_level, DebugLevel::Info);

    inbox.add_message(DebugLevel::Error, "move".to_string(), "bumped".to_string());
    assert_eq!(inbox.count(), 1);
    assert_eq!(inbox.max_level, DebugLevel::Error);

    inbox.add_message(DebugLevel::Warning, "render".to_string(), "slow".to_string());
    assert_eq!(inbox.count(), 2);
    assert_eq!(inbox.max_level, DebugLevel::Error);

    let messages = inbox.messages();
    assert_eq!(messages[0].0, "move".to_string());
    assert_eq!(messages[0].1.message, "bumped".to_string());
    assert_eq!(messages[1].0, "render".to_string());

    inbox.clear();
    assert_eq!(inbox.count(), 0);
    assert_eq!(inbox.max_level, DebugLevel::Silent);
}

#[test]
fn debug_system_reports_at_threshold() {
    let printer = DebugSystem::new(DebugLevel::Warning);

    let mut inbox = ambrosia::components::Debug::new();
    assert!(!printer.should_report(&inbox));

    inbox.add_message(DebugLevel::Info, "move".to_string(), "step".to_string());
    assert!(!printer.should_report(&inbox));

    inbox.add_message(DebugLevel::Error, "hit".to_string(), "wall".to_string());
    assert!(printer.should_report(&inbox));

    inbox.clear();
    assert!(!printer.should_report(&inbox));
}

#[test]
fn player_helper_assembles_all_components() {
    let mut world: World<Component, ()> = World::new();

    let hazel = player(Ok(world.spawn()), "Hazel".to_string(), 4, 5)
        .expect("the chain succeeds")
        .build();
    assert!(hazel.has_component(NAMED_KEY));
    assert!(hazel.has_component(DEBUG_KEY));
    assert!(hazel.has_component(POSITION_KEY));
    assert!(hazel.has_component(ambrosia::components::CAMERA_KEY));
    assert!(hazel.has_component(PLAYER_KEY));
    assert_eq!(hazel.archetype().len(), 5);

    let doubled = player(
        named(Ok(world.spawn()), "Hazel".to_string()),
        "again".to_string(),
        1,
        1,
    );
    assert!(matches!(doubled, Err(ECSError::DataAlreadyExists)));
}

#[test]
fn debug_levels_rank_in_order() {
    assert_eq!(DebugLevel::Silent.rank(), 0);
    assert_eq!(DebugLevel::Info.rank(), 1);
    assert_eq!(DebugLevel::Warning.rank(), 2);
    assert_eq!(DebugLevel::Error.rank(), 3);
    assert_eq!(DebugLevel::Critical.rank(), 4);

    let mut system = DebugSystem::new(DebugLevel::Silent);
    system.set_level(DebugLevel::Warning);
    assert_eq!(system.min_level, DebugLevel::Warning);
}

#[test]
fn builder_helpers_compose_and_fail_fast() {
    let mut world: World<Component, ()> = World::new();

    let chain = positioned(
        debugged(Ok(world.spawn()), "Hazel".to_string()),
        5,
        5,
        255,
    );
    let entity = chain.expect("the chain succeeds").build();
    assert!(entity.has_component(NAMED_KEY));
    assert!(entity.has_component(DEBUG_KEY));
    assert!(entity.has_component(POSITION_KEY));
    assert!(!entity.has_component(PLAYER_KEY));

    let id = world.insert(entity).expect("insert the entity");

    let mut keys = KeyEntities::new();
    keys.set_player(world.get(&id).expect("resolve"));
    let player = keys.player(&world).expect("the player resolves");
    match player.archetype().len() {
        3 => {},
        n => panic!("expected three component types, found {}", n),
    }

    let failed = named(
        named(Ok(world.spawn()), "first".to_string()),
        "second".to_string(),
    );
    assert!(matches!(failed, Err(ECSError::DataAlreadyExists)));

    let broken_chain = positioned(
        named(
            named(Ok(world.spawn()), "first".to_string()),
            "second".to_string(),
        ),
        1,
        1,
        0,
    );
    assert!(matches!(broken_chain, Err(ECSError::DataAlreadyExists)));
}

#[test]
fn named_component_carries_its_name() {
    let named_component = Named::new("Torch".to_string());
    assert_eq!(named_component.name, "Torch".to_string());

    let message = DebugMessage::new(
        DebugLevel::Info,
        "light".to_string(),
        "flickers".to_string(),
    );
    assert_eq!(message.level, DebugLevel::Info);
    assert_eq!(message.reason, "light".to_string());
    assert_eq!(message.message, "flickers".to_string());
}
