use rust_roguelike::component::{actor, ai, collision, create_tables, health, player, transition, velocity};
use rust_roguelike::component::actor::Actor;
use rust_roguelike::entity::{self, Entity};
use rust_roguelike::error::StoreError;
use rust_roguelike::game_object::{Color, Plane, WorldPoint};

fn actor_at(entity: Entity, x: i64, y: i64) -> Actor {
    Actor {
        entity,
        tile: "o".to_string(),
        pos: WorldPoint { x, y },
        color: Color { r: 1, g: 2, b: 3 },
        plane: Plane::Objects,
    }
}

#[test]
fn new_world_is_empty() {
    let world = create_tables();
    assert_eq!(world.next_id(), 1);
    assert!(entity::all(&world).is_empty());
    assert_eq!(actor::count(&world), 0);
    assert!(player::get(&world).is_none());
}

#[test]
fn identifiers_grow_by_one_from_one() {
    let mut world = create_tables();
    let a = entity::create(&mut world).unwrap();
    let b = entity::create(&mut world).unwrap();
    let c = entity::create(&mut world).unwrap();
    assert_eq!((a.id, b.id, c.id), (1, 2, 3));
    assert_eq!(world.next_id(), 4);
    assert_eq!(entity::all(&world), vec![a, b, c]);
}

#[test]
fn identifiers_are_not_reused_after_destroy() {
    let mut world = create_tables();
    let a = entity::create(&mut world).unwrap();
    let b = entity::create(&mut world).unwrap();
    assert!(entity::destroy(&mut world, b));
    assert!(entity::destroy(&mut world, a));
    let c = entity::create(&mut world).unwrap();
    assert_eq!(c.id, 3);
    assert_eq!(entity::all(&world), vec![c]);
}

#[test]
fn destroy_of_unknown_entity_changes_nothing() {
    let mut world = create_tables();
    let a = entity::create(&mut world).unwrap();
    assert!(!entity::destroy(&mut world, Entity { id: 77 }));
    assert!(entity::is_alive(&world, a));
    assert_eq!(world.next_id(), 2);
}

#[test]
fn destroy_cascades_to_every_table() {
    let mut world = create_tables();
    let a = entity::create(&mut world).unwrap();
    let b = entity::create(&mut world).unwrap();
    for e in [a, b] {
        actor::set(&mut world, actor_at(e, 3, 4)).unwrap();
        velocity::set(&mut world, e, 1, -1).unwrap();
        collision::set(&mut world, e, true, false, true).unwrap();
        health::set(&mut world, e, 10, 5, -1).unwrap();
        ai::set_random(&mut world, e).unwrap();
        transition::set(&mut world, e, "next").unwrap();
    }
    player::set(&mut world, a, false).unwrap();

    assert!(entity::destroy(&mut world, a));

    assert!(!entity::is_alive(&world, a));
    assert!(actor::get(&world, a).is_none());
    assert!(velocity::get(&world, a).is_none());
    assert!(collision::get(&world, a).is_none());
    assert!(health::get(&world, a).is_none());
    assert!(ai::get(&world, a).is_none());
    assert!(transition::get(&world, a).is_none());
    assert!(player::get(&world).is_none());
    assert_eq!(entity::load_player(&world), Err(StoreError::NoPlayer));

    assert!(entity::is_alive(&world, b));
    assert_eq!(actor::get(&world, b).unwrap().pos, WorldPoint { x: 3, y: 4 });
    assert_eq!(velocity::get(&world, b).unwrap().dx, 1);
    assert!(collision::get(&world, b).unwrap().ephemeral);
    assert_eq!(health::get(&world, b).unwrap().current, 5);
    assert_eq!(ai::get(&world, b), Some(ai::AiDirective::Random));
    assert_eq!(transition::get(&world, b).unwrap().level, "next");
    assert_eq!(actor::count(&world), 1);
}

#[test]
fn destroying_another_entity_keeps_the_player() {
    let mut world = create_tables();
    let a = entity::create(&mut world).unwrap();
    let b = entity::create(&mut world).unwrap();
    player::set(&mut world, a, true).unwrap();
    entity::destroy(&mut world, b);
    assert_eq!(entity::load_player(&world), Ok(a));
}

#[test]
fn restore_puts_back_saved_identifiers() {
    let mut world = create_tables();
    assert_eq!(entity::restore(&mut world, 5).unwrap().id, 5);
    assert_eq!(world.next_id(), 6);
    assert_eq!(entity::restore(&mut world, 2).unwrap().id, 2);
    assert_eq!(world.next_id(), 6);
    assert_eq!(entity::restore(&mut world, 5), Err(StoreError::DuplicateRow));
    assert_eq!(entity::restore(&mut world, 0), Err(StoreError::IdsExhausted));
    assert_eq!(entity::restore(&mut world, i64::MAX), Err(StoreError::IdsExhausted));
    assert_eq!(entity::create(&mut world).unwrap().id, 6);
}

#[test]
fn identifiers_run_out_at_the_last_integer() {
    let mut world = create_tables();
    entity::restore(&mut world, i64::MAX - 1).unwrap();
    assert_eq!(world.next_id(), i64::MAX);
    assert_eq!(entity::create(&mut world), Err(StoreError::IdsExhausted));
    assert_eq!(entity::all(&world).len(), 1);
}

#[test]
fn entity_column_round_trip() {
    let e = Entity::column_result(42);
    assert_eq!(e.id, 42);
    assert_eq!(e.to_sql(), 42);
}

#[test]
fn rows_for_unknown_entities_are_refused() {
    let mut world = create_tables();
    let ghost = Entity { id: 9 };
    assert_eq!(actor::set(&mut world, actor_at(ghost, 0, 0)), Err(StoreError::UnknownEntity));
    assert_eq!(actor::insert(&mut world, actor_at(ghost, 0, 0)), Err(StoreError::UnknownEntity));
    assert_eq!(velocity::set(&mut world, ghost, 1, 1), Err(StoreError::UnknownEntity));
    assert_eq!(collision::set(&mut world, ghost, true, true, true), Err(StoreError::UnknownEntity));
    assert_eq!(health::set(&mut world, ghost, 1, 1, 1), Err(StoreError::UnknownEntity));
    assert_eq!(ai::set_random(&mut world, ghost), Err(StoreError::UnknownEntity));
    assert_eq!(ai::set_target_player(&mut world, ghost), Err(StoreError::UnknownEntity));
    assert_eq!(transition::set(&mut world, ghost, "x"), Err(StoreError::UnknownEntity));
    assert_eq!(player::set(&mut world, ghost, false), Err(StoreError::UnknownEntity));
    assert_eq!(actor::count(&world), 0);
    assert!(velocity::all(&world).is_empty());
    assert!(collision::all(&world).is_empty());
    assert!(health::all(&world).is_empty());
    assert!(ai::all(&world).is_empty());
    assert!(transition::all(&world).is_empty());
}
