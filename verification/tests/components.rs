use rand::SeedableRng;
use rust_roguelike::component::actor::Actor;
use rust_roguelike::component::ai::AiDirective;
use rust_roguelike::component::collision::{Collision, PassableTile};
use rust_roguelike::component::health::Health;
use rust_roguelike::component::velocity::Velocity;
use rust_roguelike::component::{actor, ai, collision, create_tables, health, player, transition, velocity};
use rust_roguelike::entity::{self, Entity};
use rust_roguelike::error::StoreError;
use rust_roguelike::game_object::{init_floor, init_wall, Color, Plane, WorldPoint};
use rust_roguelike::rng::GameRng;
use rust_roguelike::world::World;

fn rng(seed: u64) -> GameRng {
    GameRng::seed_from_u64(seed)
}

fn put(world: &mut World, x: i64, y: i64, plane: Plane, tile: &str) -> Entity {
    let e = entity::create(world).unwrap();
    actor::set(
        world,
        Actor {
            entity: e,
            tile: tile.to_string(),
            pos: WorldPoint { x, y },
            color: Color { r: 9, g: 9, b: 9 },
            plane,
        },
    )
    .unwrap();
    e
}

#[test]
fn player_row_starts_at_turn_zero_on_level_zero() {
    let mut world = create_tables();
    let e = entity::create(&mut world).unwrap();
    player::set(&mut world, e, true).unwrap();
    let row = player::get(&world).unwrap();
    assert_eq!(row.entity, e);
    assert!(row.is_creative);
    assert_eq!(row.turn, 0);
    assert_eq!(row.outstanding_turns, 0);
    assert_eq!(row.level, "0");
    assert_eq!(player::turns_passed(&world), Ok(0));
    assert_eq!(player::outstanding_turns(&world), Ok(0));
    assert_eq!(player::is_creative(&world), Ok(true));
    assert_eq!(player::level(&world), Ok("0".to_string()));
}

#[test]
fn second_player_is_refused() {
    let mut world = create_tables();
    let a = entity::create(&mut world).unwrap();
    let b = entity::create(&mut world).unwrap();
    player::set(&mut world, a, false).unwrap();
    assert_eq!(player::set(&mut world, b, true), Err(StoreError::DuplicateRow));
    assert_eq!(player::set(&mut world, a, true), Err(StoreError::DuplicateRow));
    assert_eq!(player::get(&world).unwrap().entity, a);
    assert_eq!(player::is_creative(&world), Ok(false));
}

#[test]
fn reads_without_player_fail() {
    let world = create_tables();
    assert_eq!(player::turns_passed(&world), Err(StoreError::NoPlayer));
    assert_eq!(player::outstanding_turns(&world), Err(StoreError::NoPlayer));
    assert_eq!(player::is_creative(&world), Err(StoreError::NoPlayer));
    assert_eq!(player::level(&world), Err(StoreError::NoPlayer));
    assert_eq!(entity::load_player(&world), Err(StoreError::NoPlayer));
}

#[test]
fn schedule_and_pass_time() {
    let mut world = create_tables();
    let e = entity::create(&mut world).unwrap();
    player::set(&mut world, e, false).unwrap();
    player::schedule_time(&mut world, 3).unwrap();
    assert_eq!(player::outstanding_turns(&world), Ok(3));
    player::pass_time(&mut world, 1).unwrap();
    assert_eq!(player::turns_passed(&world), Ok(1));
    assert_eq!(player::outstanding_turns(&world), Ok(2));
    player::pass_time(&mut world, 5).unwrap();
    assert_eq!(player::turns_passed(&world), Ok(6));
    assert_eq!(player::outstanding_turns(&world), Ok(0));
}

#[test]
fn time_without_player_fails() {
    let mut world = create_tables();
    assert_eq!(player::pass_time(&mut world, 1), Err(StoreError::NoPlayer));
    assert_eq!(player::schedule_time(&mut world, 1), Err(StoreError::NoPlayer));
    assert!(player::get(&world).is_none());
}

#[test]
fn time_overflow_is_refused_and_changes_nothing() {
    let mut world = create_tables();
    let e = entity::create(&mut world).unwrap();
    player::set(&mut world, e, false).unwrap();
    player::schedule_time(&mut world, i64::MAX).unwrap();
    assert_eq!(player::schedule_time(&mut world, 1), Err(StoreError::Overflow));
    assert_eq!(player::outstanding_turns(&world), Ok(i64::MAX));
    player::pass_time(&mut world, i64::MAX).unwrap();
    assert_eq!(player::pass_time(&mut world, 1), Err(StoreError::Overflow));
    assert_eq!(player::turns_passed(&world), Ok(i64::MAX));
    assert_eq!(player::pass_time(&mut world, i64::MIN), Err(StoreError::Overflow));
    assert_eq!(player::outstanding_turns(&world), Ok(0));
}

#[test]
fn restore_player_row() {
    let mut world = create_tables();
    let e = entity::create(&mut world).unwrap();
    let row = player::Player {
        entity: e,
        is_creative: true,
        turn: 12,
        outstanding_turns: 2,
        level: "cellar".to_string(),
    };
    player::restore(&mut world, row.clone()).unwrap();
    assert_eq!(player::turns_passed(&world), Ok(12));
    assert_eq!(player::outstanding_turns(&world), Ok(2));
    assert_eq!(player::level(&world), Ok("cellar".to_string()));
    assert_eq!(player::restore(&mut world, row.clone()), Err(StoreError::DuplicateRow));
    let mut other = create_tables();
    assert_eq!(player::restore(&mut other, row), Err(StoreError::UnknownEntity));
}

#[test]
fn actor_set_replaces_every_field() {
    let mut world = create_tables();
    let e = put(&mut world, 1, 2, Plane::Ground, ".");
    actor::set(
        &mut world,
        Actor {
            entity: e,
            tile: "#".to_string(),
            pos: WorldPoint { x: -4, y: 7 },
            color: Color { r: 200, g: 100, b: 50 },
            plane: Plane::Wall,
        },
    )
    .unwrap();
    let row = actor::get(&world, e).unwrap();
    assert_eq!(row.tile, "#");
    assert_eq!(row.pos, WorldPoint { x: -4, y: 7 });
    assert_eq!(row.color, Color { r: 200, g: 100, b: 50 });
    assert_eq!(row.plane, Plane::Wall);
    assert_eq!(actor::count(&world), 1);
}

#[test]
fn actor_insert_refuses_second_row() {
    let mut world = create_tables();
    let e = put(&mut world, 1, 2, Plane::Ground, ".");
    let again = Actor {
        entity: e,
        tile: "x".to_string(),
        pos: WorldPoint { x: 0, y: 0 },
        color: Color { r: 0, g: 0, b: 0 },
        plane: Plane::Enemies,
    };
    assert_eq!(actor::insert(&mut world, again), Err(StoreError::DuplicateRow));
    assert_eq!(actor::get(&world, e).unwrap().tile, ".");
}

#[test]
fn upserts_replace_rows() {
    let mut world = create_tables();
    let e = entity::create(&mut world).unwrap();
    velocity::set(&mut world, e, 1, 2).unwrap();
    velocity::set(&mut world, e, -3, 4).unwrap();
    assert_eq!(velocity::get(&world, e), Some(Velocity { dx: -3, dy: 4 }));
    assert_eq!(velocity::all(&world).len(), 1);

    health::set(&mut world, e, 10, 10, 1).unwrap();
    health::set(&mut world, e, 20, 5, -2).unwrap();
    assert_eq!(health::get(&world, e), Some(Health { max: 20, current: 5, regen: -2 }));

    collision::set(&mut world, e, true, false, false).unwrap();
    collision::set(&mut world, e, false, true, true).unwrap();
    assert_eq!(
        collision::get(&world, e),
        Some(Collision { ground: false, solid: true, ephemeral: true })
    );

    transition::set(&mut world, e, "a").unwrap();
    transition::set(&mut world, e, "b").unwrap();
    assert_eq!(transition::get(&world, e).unwrap().level, "b");
    assert_eq!(transition::all(&world).len(), 1);
}

#[test]
fn last_directive_wins() {
    let mut world = create_tables();
    let e = entity::create(&mut world).unwrap();
    ai::set_random(&mut world, e).unwrap();
    assert_eq!(ai::get(&world, e), Some(AiDirective::Random));
    ai::set_target_player(&mut world, e).unwrap();
    assert_eq!(ai::get(&world, e), Some(AiDirective::TargetPlayer));
    ai::set_random(&mut world, e).unwrap();
    assert_eq!(ai::get(&world, e), Some(AiDirective::Random));
    assert_eq!(ai::all(&world), vec![(e, AiDirective::Random)]);
}

#[test]
fn random_velocity_stays_in_range_and_varies() {
    let mut world = create_tables();
    let e = entity::create(&mut world).unwrap();
    let mut r = rng(11);
    let mut seen = std::collections::BTreeSet::new();
    for _ in 0..200 {
        velocity::set_random(&mut world, &mut r, e, -1, 1).unwrap();
        let v = velocity::get(&world, e).unwrap();
        assert!((-1..=1).contains(&v.dx) && (-1..=1).contains(&v.dy));
        seen.insert((v.dx, v.dy));
    }
    assert_eq!(seen.len(), 9);
    for _ in 0..50 {
        velocity::set_random(&mut world, &mut r, e, 7, 4).unwrap();
        let v = velocity::get(&world, e).unwrap();
        assert!((4..=7).contains(&v.dx) && (4..=7).contains(&v.dy));
    }
    velocity::set_random(&mut world, &mut r, e, 5, 5).unwrap();
    assert_eq!(velocity::get(&world, e), Some(Velocity { dx: 5, dy: 5 }));
    assert_eq!(
        velocity::set_random(&mut world, &mut r, Entity { id: 99 }, 0, 1),
        Err(StoreError::UnknownEntity)
    );
}

#[test]
fn passable_round_trip() {
    let mut world = create_tables();
    let e = put(&mut world, 4, 5, Plane::Ground, ".");
    assert!(collision::create_passable_tiles_view(&world).is_empty());
    collision::set(&mut world, e, true, false, false).unwrap();
    assert_eq!(
        collision::create_passable_tiles_view(&world),
        vec![PassableTile { entity: e, pos: WorldPoint { x: 4, y: 5 } }]
    );
    collision::set(&mut world, e, true, true, false).unwrap();
    assert!(collision::create_passable_tiles_view(&world).is_empty());
    collision::set(&mut world, e, false, false, false).unwrap();
    assert!(collision::create_passable_tiles_view(&world).is_empty());
}

#[test]
fn wall_on_floor_blocks_the_tile() {
    let mut world = create_tables();
    let floor = init_floor(&mut world, WorldPoint { x: 1, y: 1 }).unwrap();
    let other = init_floor(&mut world, WorldPoint { x: 2, y: 1 }).unwrap();
    assert_eq!(collision::create_passable_tiles_view(&world).len(), 2);
    init_wall(&mut world, "#", WorldPoint { x: 1, y: 1 }).unwrap();
    assert_eq!(
        collision::create_passable_tiles_view(&world),
        vec![PassableTile { entity: other, pos: WorldPoint { x: 2, y: 1 } }]
    );
    assert!(entity::is_alive(&world, floor));
}

#[test]
fn solid_but_not_ground_does_not_block_the_tile() {
    let mut world = create_tables();
    let floor = init_floor(&mut world, WorldPoint { x: 1, y: 1 }).unwrap();
    let enemy = put(&mut world, 1, 1, Plane::Enemies, "x");
    collision::set(&mut world, enemy, false, true, false).unwrap();
    assert_eq!(
        collision::create_passable_tiles_view(&world),
        vec![PassableTile { entity: floor, pos: WorldPoint { x: 1, y: 1 } }]
    );
    assert!(world.occupied_at(WorldPoint { x: 1, y: 1 }, false, true));
    assert!(world.occupied_at(WorldPoint { x: 1, y: 1 }, true, false));
    assert!(!world.occupied_at(WorldPoint { x: 1, y: 1 }, true, true));
    assert!(!world.occupied_at(WorldPoint { x: 2, y: 1 }, false, false));
}

#[test]
fn placing_on_empty_passable_set_is_a_no_op() {
    let mut world = create_tables();
    init_wall(&mut world, "#", WorldPoint { x: 0, y: 0 }).unwrap();
    let e = entity::create(&mut world).unwrap();
    let placed = actor::set_on_random_empty_ground(
        &mut world,
        &mut rng(1),
        e,
        "*",
        Color { r: 1, g: 1, b: 1 },
        Plane::Particles,
    );
    assert_eq!(placed, Ok(false));
    assert!(actor::get(&world, e).is_none());
    let ghost = actor::set_on_random_empty_ground(
        &mut world,
        &mut rng(1),
        Entity { id: 50 },
        "*",
        Color { r: 1, g: 1, b: 1 },
        Plane::Particles,
    );
    assert_eq!(ghost, Ok(false));
}

#[test]
fn placing_on_the_only_passable_tile() {
    let mut world = create_tables();
    init_wall(&mut world, "#", WorldPoint { x: 0, y: 0 }).unwrap();
    init_floor(&mut world, WorldPoint { x: 6, y: -2 }).unwrap();
    let e = entity::create(&mut world).unwrap();
    let placed = actor::set_on_random_empty_ground(
        &mut world,
        &mut rng(3),
        e,
        "*",
        Color { r: 7, g: 8, b: 9 },
        Plane::Particles,
    );
    assert_eq!(placed, Ok(true));
    let row = actor::get(&world, e).unwrap();
    assert_eq!(row.pos, WorldPoint { x: 6, y: -2 });
    assert_eq!(row.tile, "*");
    assert_eq!(row.color, Color { r: 7, g: 8, b: 9 });
    assert_eq!(row.plane, Plane::Particles);
    assert_eq!(row.entity, e);

    let again = actor::set_on_random_empty_ground(
        &mut world,
        &mut rng(3),
        e,
        "*",
        Color { r: 7, g: 8, b: 9 },
        Plane::Particles,
    );
    assert_eq!(again, Err(StoreError::DuplicateRow));
    let ghost = actor::set_on_random_empty_ground(
        &mut world,
        &mut rng(3),
        Entity { id: 50 },
        "*",
        Color { r: 7, g: 8, b: 9 },
        Plane::Particles,
    );
    assert_eq!(ghost, Err(StoreError::UnknownEntity));
}

#[test]
fn random_placement_reaches_every_passable_tile() {
    let mut world = create_tables();
    for x in 0..4 {
        init_floor(&mut world, WorldPoint { x, y: 0 }).unwrap();
    }
    init_wall(&mut world, "#", WorldPoint { x: 4, y: 0 }).unwrap();
    let mut r = rng(5);
    let mut seen = std::collections::BTreeSet::new();
    for _ in 0..100 {
        let e = entity::create(&mut world).unwrap();
        let placed = actor::set_on_random_empty_ground(
            &mut world,
            &mut r,
            e,
            "*",
            Color { r: 0, g: 0, b: 0 },
            Plane::Particles,
        );
        assert_eq!(placed, Ok(true));
        let pos = actor::get(&world, e).unwrap().pos;
        assert_eq!(pos.y, 0);
        assert!((0..4).contains(&pos.x));
        seen.insert(pos.x);
    }
    assert_eq!(seen.len(), 4);
}

#[test]
fn visible_actors_keep_the_lowest_plane_per_tile() {
    let mut world = create_tables();
    let ground = put(&mut world, 1, 1, Plane::Ground, ".");
    let wall = put(&mut world, 2, 1, Plane::Wall, "#");
    let under = put(&mut world, 2, 1, Plane::Ground, ".");
    let enemy = put(&mut world, 1, 1, Plane::Enemies, "x");
    let hero = put(&mut world, 3, 1, Plane::Player, "@");
    let stairs = put(&mut world, 3, 1, Plane::Objects, ">");
    let shown = actor::get_visible(&world);
    let ids: Vec<i64> = shown.iter().map(|a| a.entity.id).collect();
    assert_eq!(ids, vec![hero.id, enemy.id, wall.id]);
    assert_eq!(shown[0].tile, "@");
    assert_eq!(shown[1].pos, WorldPoint { x: 1, y: 1 });
    assert!(!ids.contains(&ground.id) && !ids.contains(&under.id) && !ids.contains(&stairs.id));
}

#[test]
fn visible_actors_on_one_plane_keep_the_first_created() {
    let mut world = create_tables();
    let a = put(&mut world, 0, 0, Plane::Particles, "*");
    let _b = put(&mut world, 0, 0, Plane::Particles, "+");
    let c = put(&mut world, 0, 1, Plane::Particles, "-");
    let shown = actor::get_visible(&world);
    let ids: Vec<i64> = shown.iter().map(|x| x.entity.id).collect();
    assert_eq!(ids, vec![a.id, c.id]);
    assert_eq!(actor::count(&world), 3);
    assert_eq!(actor::all(&world).len(), 3);
}
