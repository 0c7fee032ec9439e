use ambrosia::ecs::archetype::Archetype;
use ambrosia::ecs::dynamic_storage::{DynamicCell, DynamicStore, ReferenceState};
use ambrosia::ecs::entity::Entity;
use ambrosia::ecs::query::Query;
use ambrosia::ecs::system::System;
use ambrosia::ecs::world::World;
use ambrosia::ecs::ECSError;
use std::collections::hash_map::DefaultHasher;
use std::hash::{Hash, Hasher};

const POSITION: i64 = 1;
const RENDERER: i64 = 2;
const PLAYER: i64 = 3;
const LOG: i64 = 99;

fn archetype_of(keys: &[i64]) -> Archetype {
    let mut archetype = Archetype::new();
    for key in keys {
        archetype.add_type_id(*key, format!("type-{}", key));
    }
    archetype
}

#[test]
fn archetype_equivalence_any_order() {
    let a = archetype_of(&[1, 2, 3]);
    let b = archetype_of(&[3, 2, 1]);
    let c = archetype_of(&[2, 1, 3, 2, 1]);

    assert_eq!(a, b);
    assert_eq!(a, c);
    assert_eq!(a.len(), 3);

    let grown = archetype_of(&[1, 2, 3]);
    let mut from_pair = archetype_of(&[1, 2]);
    from_pair.add_type_id(3, "type-3".to_string());
    assert_eq!(grown, from_pair);
}

#[test]
fn archetype_add_records_like_add_type_id() {
    let mut by_add = Archetype::new();
    by_add.add(2, "two".to_string());
    by_add.add(1, "one".to_string());
    by_add.add(2, "two again".to_string());

    let mut by_key = Archetype::new();
    by_key.add_type_id(1, "one".to_string());
    by_key.add_type_id(2, "two".to_string());

    assert_eq!(by_add, by_key);
    assert_eq!(by_add.len(), 2);
    assert_eq!(by_add.names().clone(), vec!["one".to_string(), "two".to_string()]);
}

#[test]
fn archetype_superset_test() {
    let s0 = archetype_of(&[1, 2, 3, 4]);
    let s1 = archetype_of(&[2, 3]);
    let s3 = archetype_of(&[2, 3, 4, 5]);

    assert!(s0.contains(&s1));
    assert!(!s0.contains(&s3));
    assert!(s3.contains(&s1));
}

#[test]
fn archetype_names_follow_key_order() {
    let mut archetype = Archetype::new();
    archetype.add_type_id(2, "two".to_string());
    archetype.add_type_id(1, "one".to_string());
    archetype.add_type_id(3, "three".to_string());
    archetype.add_type_id(1, "one again".to_string());

    assert_eq!(archetype.len(), 3);
    let names: Vec<String> = archetype.names().clone();
    assert_eq!(names, vec!["one".to_string(), "two".to_string(), "three".to_string()]);
}

#[test]
fn no_duplicate_insertion_in_store() {
    let mut store: DynamicStore<i32> = DynamicStore::new();
    assert!(store.insert(7, 10).is_ok());
    assert_eq!(store.insert(7, 99), Err(ECSError::DataAlreadyExists));

    let read = store.get(7).map(|v| *v);
    assert_eq!(read, Ok(10));
    assert!(store.release(7).is_ok());
}

#[test]
fn no_duplicate_insertion_on_entity() {
    let builder = Entity::<i32>::new();
    let builder = builder
        .insert_component(POSITION, "Position".to_string(), 5)
        .expect("first insertion");
    let result = builder.insert_component(POSITION, "Position".to_string(), 6);
    assert!(matches!(result, Err(ECSError::DataAlreadyExists)));
}

#[test]
fn borrow_discipline_counts() {
    let mut cell = DynamicCell::new(41);

    assert_eq!(cell.state(), ReferenceState::Idle);

    assert_eq!(cell.get().map(|v| *v), Ok(41));
    assert_eq!(cell.state(), ReferenceState::Shared(1));

    assert_eq!(cell.get().map(|v| *v), Ok(41));
    assert_eq!(cell.state(), ReferenceState::Shared(2));

    assert_eq!(cell.get_mut().map(|v| *v), Err(ECSError::BorrowConflict));
    assert_eq!(cell.state(), ReferenceState::Shared(2));

    assert!(cell.release().is_ok());
    assert_eq!(cell.state(), ReferenceState::Shared(1));

    assert!(cell.release().is_ok());
    assert_eq!(cell.state(), ReferenceState::Idle);

    {
        let value = cell.get_mut().expect("exclusive access once idle");
        *value = 42;
    }
    assert_eq!(cell.state(), ReferenceState::Exclusive);
    assert_eq!(cell.get().map(|v| *v), Err(ECSError::BorrowConflict));
    assert!(cell.release_mut().is_ok());
    assert_eq!(cell.state(), ReferenceState::Idle);
    assert_eq!(cell.get().map(|v| *v), Ok(42));
    assert!(cell.release().is_ok());

    assert_eq!(cell.release(), Err(ECSError::BorrowConflict));
}

#[test]
fn query_matching() {
    let query = Query::new().including(POSITION).exclude(PLAYER);

    let position_renderer = archetype_of(&[POSITION, RENDERER]);
    let position_player = archetype_of(&[POSITION, PLAYER]);
    let renderer_only = archetype_of(&[RENDERER]);

    assert!(query.matches(&position_renderer));
    assert!(!query.matches(&position_player));
    assert!(!query.matches(&renderer_only));

    let everything = Query::new();
    assert!(everything.matches(&renderer_only));
    assert!(everything.matches(&Archetype::new()));
}

#[test]
fn query_join_unions_lists() {
    let mut a = Query::new().including(POSITION);
    let b = Query::new().including(RENDERER).exclude(PLAYER);
    a.join(b);

    let both = archetype_of(&[POSITION, RENDERER]);
    let with_player = archetype_of(&[POSITION, RENDERER, PLAYER]);
    let one = archetype_of(&[POSITION]);

    assert!(a.matches(&both));
    assert!(!a.matches(&with_player));
    assert!(!a.matches(&one));
}

enum Comp {
    Log(Vec<i32>),
}

struct TagSystem {
    tag: i32,
}

impl System<Comp> for TagSystem {
    fn execute(&self, world: &mut World<Comp, TagSystem>) {
        if let Ok(value) = world.get_resource_mut(LOG) {
            match value {
                Comp::Log(entries) => entries.push(self.tag),
            }
        }
        let _ = world.release_resource_mut(LOG);
    }
}

#[test]
fn scheduler_priority_order_is_stable() {
    let mut world: World<Comp, TagSystem> = World::new();
    world
        .insert_resource(LOG, Comp::Log(Vec::new()))
        .expect("insert the log resource");

    world.add_system(TagSystem { tag: 1 }, 5);
    world.add_system(TagSystem { tag: 2 }, -10);
    world.add_system(TagSystem { tag: 3 }, 0);
    world.add_system(TagSystem { tag: 4 }, 0);

    world.tick();

    let entries = match world.get_resource(LOG).expect("read the log resource") {
        Comp::Log(entries) => entries.clone(),
    };
    let _ = world.release_resource(LOG);
    assert_eq!(entries, vec![1, 3, 4, 2]);

    world.tick();
    let entries = match world.get_resource(LOG).expect("read the log resource") {
        Comp::Log(entries) => entries.clone(),
    };
    let _ = world.release_resource(LOG);
    assert_eq!(entries, vec![1, 3, 4, 2, 1, 3, 4, 2]);
}

#[test]
fn entity_lifecycle_round_trip() {
    let mut world: World<i32, ()> = World::new();

    let entity = world
        .spawn()
        .insert_component(POSITION, "Position".to_string(), 11)
        .expect("attach a position")
        .insert_component(RENDERER, "Renderer".to_string(), 22)
        .expect("attach a renderer")
        .build();

    let id = world.insert(entity).expect("insert the entity");
    assert_eq!(id.index(), 0);

    {
        let stored = world.get(&id).expect("resolve the identity");
        assert!(stored.has_component(POSITION));
        assert!(stored.has_component(RENDERER));
        assert!(!stored.has_component(PLAYER));
        assert_eq!(stored.id().expect("an identity").index(), 0);
    }

    {
        let stored = world.get_mut(&id).expect("resolve for mutation");
        {
            let value = stored
                .get_component_mut(POSITION)
                .expect("exclusive access to the position");
            *value = 99;
        }
        stored
            .release_component_mut(POSITION)
            .expect("hand the access back");
    }

    {
        let stored = world.get_mut(&id).expect("resolve again");
        let value = *stored.get_component(POSITION).expect("shared access");
        assert_eq!(value, 99);
        stored.release_component(POSITION).expect("hand the access back");
    }

    let removed = world.remove_id(id.clone()).expect("remove the entity");
    assert!(removed.id().is_some());

    assert!(world.get(&id).is_none());
    assert!(world.remove_id(id.clone()).is_none());
    assert_eq!(world.iter().len(), 0);

    let reinserted = world.insert(removed);
    assert!(matches!(reinserted, Err(ECSError::AlreadyInserted)));
}

#[test]
fn removed_slot_never_iterated() {
    let mut world: World<i32, ()> = World::new();

    let first = world
        .spawn()
        .insert_component(POSITION, "Position".to_string(), 1)
        .expect("attach")
        .build();
    let second = world
        .spawn()
        .insert_component(POSITION, "Position".to_string(), 2)
        .expect("attach")
        .build();
    let third = world
        .spawn()
        .insert_component(RENDERER, "Renderer".to_string(), 3)
        .expect("attach")
        .build();

    let id1 = world.insert(first).expect("insert");
    let id2 = world.insert(second).expect("insert");
    let _id3 = world.insert(third).expect("insert");

    assert_eq!(id1.index(), 0);
    assert_eq!(id2.index(), 1);
    assert_eq!(world.iter().len(), 3);
    assert_eq!(world.entity_count(), 2);

    world.remove_id(id1.clone()).expect("remove the first");

    assert_eq!(world.iter().len(), 2);
    for entity in world.iter() {
        let id = entity.id().expect("stored entities carry ids");
        assert!(!(id.index() == id1.index() && id.archetype() == id1.archetype()));
    }

    let still_there = world.get(&id2).expect("later identity still resolves");
    assert_eq!(still_there.id().expect("an identity").index(), 1);

    let query = Query::new().including(POSITION);
    let matches = world.query_entities(&query);
    assert_eq!(matches.len(), 1);
    assert_eq!(matches[0].id().expect("an identity").index(), 1);
}

#[test]
fn store_lookup_miss_and_conflicts() {
    let mut store: DynamicStore<i32> = DynamicStore::new();
    assert_eq!(store.get(5).map(|v| *v), Err(ECSError::CouldNotRetrieve));
    assert_eq!(store.release(5), Err(ECSError::CouldNotRetrieve));
    assert!(!store.has(5));
    assert!(!store.has_type_id(&5));
    assert_eq!(store.state_of(5), None);

    store.insert(5, 1).expect("insert");
    assert_eq!(store.state_of(5), Some(ReferenceState::Idle));
    assert!(store.has(5));

    let _ = store.get(5).expect("shared access");
    assert_eq!(store.get_mut(5).map(|v| *v), Err(ECSError::BorrowConflict));
    assert_eq!(store.release_mut(5), Err(ECSError::BorrowConflict));
    assert!(store.release(5).is_ok());
}

#[test]
fn query_one_entity_finds_first_match() {
    let mut world: World<i32, ()> = World::new();
    let entity = world
        .spawn()
        .insert_component(PLAYER, "Player".to_string(), 0)
        .expect("attach")
        .build();
    world.insert(entity).expect("insert");

    let hit = Query::new().including(PLAYER);
    let miss = Query::new().including(POSITION);

    assert!(world.query_one_entity(&hit).is_some());
    assert!(world.query_one_entity(&miss).is_none());

    let unsatisfiable = Query::new().including(PLAYER).exclude(PLAYER);
    assert!(world.query_one_entity(&unsatisfiable).is_none());
}

#[test]
fn sorted_vec_hashes_ignore_insertion_order() {
    let mut a = ambrosia::ecs::archetype::SortedVec::new();
    a.push(3);
    a.push(1);
    a.push(2);
    let mut b = ambrosia::ecs::archetype::SortedVec::new();
    b.push(2);
    b.push(3);
    b.push(1);
    b.push(3);

    let mut ha = DefaultHasher::new();
    a.hash(&mut ha);
    let mut hb = DefaultHasher::new();
    b.hash(&mut hb);

    assert_eq!(a, b);
    assert_eq!(ha.finish(), hb.finish());
}

#[test]
fn composition_is_fixed_once_inserted() {
    let mut entity = Entity::<i32>::new()
        .insert_component(POSITION, "Position".to_string(), 1)
        .expect("attach")
        .build();

    entity
        .insert_component(RENDERER, "Renderer".to_string(), 2)
        .expect("an unowned entity can still grow");
    assert_eq!(
        entity.insert_component(RENDERER, "Renderer".to_string(), 3),
        Err(ECSError::DataAlreadyExists)
    );

    let mut world: World<i32, ()> = World::new();
    let id = world.insert(entity).expect("insert the entity");

    let stored = world.get_mut(&id).expect("resolve for mutation");
    assert_eq!(
        stored.insert_component(PLAYER, "Player".to_string(), 4),
        Err(ECSError::AlreadyInserted)
    );
    assert!(!stored.has_component(PLAYER));
    assert_eq!(stored.archetype().len(), 2);
}

#[test]
fn remove_by_value_uses_the_entity_identity() {
    let mut world: World<i32, ()> = World::new();

    let unowned = Entity::<i32>::new()
        .insert_component(POSITION, "Position".to_string(), 1)
        .expect("attach")
        .build();
    assert!(world.remove(unowned).is_none());

    let entity = Entity::<i32>::new()
        .insert_component(POSITION, "Position".to_string(), 1)
        .expect("attach")
        .build();
    let id = world.insert(entity).expect("insert");

    let taken = world.remove_id(id.clone()).expect("remove once");
    assert!(world.remove(taken).is_none());
    assert!(world.get(&id).is_none());
}
