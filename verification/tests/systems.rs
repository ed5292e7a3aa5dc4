use rand::SeedableRng;
use rust_roguelike::component::actor::Actor;
use rust_roguelike::component::health::Health;
use rust_roguelike::component::velocity::Velocity;
use rust_roguelike::component::{actor, ai, collision, create_tables, health, player, transition, velocity};
use rust_roguelike::entity::{self, Entity};
use rust_roguelike::error::StoreError;
use rust_roguelike::component::collision::PassableTile;
use rust_roguelike::game_object::{
    generate_enemies, generate_enemies_on, generate_particles, generate_particles_on, init_floor,
    init_player, init_wall, Color, Plane, WorldPoint,
};
use rust_roguelike::rng::{pcg_randint, random_index, GameRng};
use rust_roguelike::system::{
    apply_ai, apply_regen, cull_dead, cull_ephemeral, destroy_all, follow_transition,
    move_actors, random_direction,
};
use rust_roguelike::world::World;

fn rng(seed: u64) -> GameRng {
    GameRng::seed_from_u64(seed)
}

fn body(world: &mut World, x: i64, y: i64, solid: bool, dx: i64, dy: i64) -> Entity {
    let e = entity::create(world).unwrap();
    actor::set(
        world,
        Actor {
            entity: e,
            tile: "o".to_string(),
            pos: WorldPoint { x, y },
            color: Color { r: 0, g: 0, b: 0 },
            plane: Plane::Enemies,
        },
    )
    .unwrap();
    collision::set(world, e, false, solid, false).unwrap();
    velocity::set(world, e, dx, dy).unwrap();
    e
}

fn pos(world: &World, e: Entity) -> (i64, i64) {
    let p = actor::get(world, e).unwrap().pos;
    (p.x, p.y)
}

fn room(world: &mut World, width: i64, height: i64) {
    for y in 0..height {
        for x in 0..width {
            init_floor(world, WorldPoint { x, y }).unwrap();
        }
    }
}

#[test]
fn free_move_adds_the_velocity() {
    let mut world = create_tables();
    let e = body(&mut world, 3, 3, true, 1, -1);
    move_actors(&mut world).unwrap();
    assert_eq!(pos(&world, e), (4, 2));
    move_actors(&mut world).unwrap();
    assert_eq!(pos(&world, e), (5, 1));
    assert_eq!(velocity::get(&world, e), Some(Velocity { dx: 1, dy: -1 }));
}

#[test]
fn solid_is_stopped_by_solid() {
    let mut world = create_tables();
    let mover = body(&mut world, 0, 0, true, 1, 0);
    let wall = init_wall(&mut world, "#", WorldPoint { x: 1, y: 0 }).unwrap();
    move_actors(&mut world).unwrap();
    assert_eq!(pos(&world, mover), (0, 0));
    assert_eq!(pos(&world, wall), (1, 0));
}

#[test]
fn what_is_not_solid_passes_through_solid() {
    let mut world = create_tables();
    let particle = body(&mut world, 0, 0, false, 1, 0);
    init_wall(&mut world, "#", WorldPoint { x: 1, y: 0 }).unwrap();
    move_actors(&mut world).unwrap();
    assert_eq!(pos(&world, particle), (1, 0));
}

#[test]
fn solid_walks_onto_what_is_not_solid() {
    let mut world = create_tables();
    let mover = body(&mut world, 0, 0, true, 0, 1);
    init_floor(&mut world, WorldPoint { x: 0, y: 1 }).unwrap();
    body(&mut world, 0, 1, false, 0, 0);
    move_actors(&mut world).unwrap();
    assert_eq!(pos(&world, mover), (0, 1));
}

#[test]
fn moves_are_decided_on_the_world_before_the_step() {
    let mut world = create_tables();
    let first = body(&mut world, 0, 0, true, 1, 0);
    let second = body(&mut world, 1, 0, true, 1, 0);
    let third = body(&mut world, 5, 5, true, -1, 0);
    let fourth = body(&mut world, 3, 5, true, 1, 0);
    move_actors(&mut world).unwrap();
    assert_eq!(pos(&world, first), (0, 0));
    assert_eq!(pos(&world, second), (2, 0));
    assert_eq!(pos(&world, third), (4, 5));
    assert_eq!(pos(&world, fourth), (4, 5));
}

#[test]
fn entities_without_velocity_or_actor_stay() {
    let mut world = create_tables();
    let floor = init_floor(&mut world, WorldPoint { x: 2, y: 2 }).unwrap();
    let bodiless = entity::create(&mut world).unwrap();
    velocity::set(&mut world, bodiless, 1, 1).unwrap();
    move_actors(&mut world).unwrap();
    assert_eq!(pos(&world, floor), (2, 2));
    assert!(actor::get(&world, bodiless).is_none());
}

#[test]
fn move_overflow_fails_and_moves_nothing() {
    let mut world = create_tables();
    let fine = body(&mut world, 0, 0, false, 1, 0);
    let edge = body(&mut world, i64::MAX, 0, false, 1, 0);
    assert_eq!(move_actors(&mut world), Err(StoreError::Overflow));
    assert_eq!(pos(&world, fine), (0, 0));
    assert_eq!(pos(&world, edge), (i64::MAX, 0));
    velocity::set(&mut world, edge, 0, 0).unwrap();
    assert_eq!(move_actors(&mut world), Ok(()));
    assert_eq!(pos(&world, fine), (1, 0));
}

#[test]
fn regen_adds_once_per_row_without_clamping() {
    let mut world = create_tables();
    let a = entity::create(&mut world).unwrap();
    let b = entity::create(&mut world).unwrap();
    let c = entity::create(&mut world).unwrap();
    health::set(&mut world, a, 10, 10, 3).unwrap();
    health::set(&mut world, b, 10, 1, -4).unwrap();
    health::set(&mut world, c, 25, 25, -1).unwrap();
    apply_regen(&mut world).unwrap();
    assert_eq!(health::get(&world, a), Some(Health { max: 10, current: 13, regen: 3 }));
    assert_eq!(health::get(&world, b), Some(Health { max: 10, current: -3, regen: -4 }));
    assert_eq!(health::get(&world, c), Some(Health { max: 25, current: 24, regen: -1 }));
    apply_regen(&mut world).unwrap();
    assert_eq!(health::get(&world, a).unwrap().current, 16);
}

#[test]
fn regen_overflow_fails_and_changes_no_row() {
    let mut world = create_tables();
    let a = entity::create(&mut world).unwrap();
    let b = entity::create(&mut world).unwrap();
    health::set(&mut world, a, 10, 10, 3).unwrap();
    health::set(&mut world, b, 10, i64::MAX, 1).unwrap();
    assert_eq!(apply_regen(&mut world), Err(StoreError::Overflow));
    assert_eq!(health::get(&world, a).unwrap().current, 10);
    assert_eq!(health::get(&world, b).unwrap().current, i64::MAX);
}

#[test]
fn cull_dead_destroys_at_zero_and_below() {
    let mut world = create_tables();
    let alive = body(&mut world, 0, 0, true, 0, 0);
    let zero = body(&mut world, 1, 0, true, 0, 0);
    let below = body(&mut world, 2, 0, true, 0, 0);
    let immortal = body(&mut world, 3, 0, true, 0, 0);
    health::set(&mut world, alive, 5, 1, -1).unwrap();
    health::set(&mut world, zero, 5, 0, -1).unwrap();
    health::set(&mut world, below, 5, -7, -1).unwrap();
    cull_dead(&mut world);
    assert_eq!(entity::all(&world), vec![alive, immortal]);
    assert!(actor::get(&world, zero).is_none());
    assert!(velocity::get(&world, below).is_none());
    assert!(collision::get(&world, below).is_none());
    assert_eq!(health::all(&world).len(), 1);
}

#[test]
fn cull_dead_twice_destroys_nothing_more() {
    let mut world = create_tables();
    for i in 0..6 {
        let e = body(&mut world, i, 0, true, 0, 0);
        health::set(&mut world, e, 5, i - 2, -1).unwrap();
    }
    cull_dead(&mut world);
    let once = entity::all(&world);
    assert_eq!(once.len(), 3);
    cull_dead(&mut world);
    assert_eq!(entity::all(&world), once);
    assert_eq!(actor::count(&world), 3);
}

#[test]
fn particles_die_after_their_lifespan() {
    let mut world = create_tables();
    init_floor(&mut world, WorldPoint { x: 0, y: 0 }).unwrap();
    let mut r = rng(2);
    for _ in 0..25 {
        generate_particles(&mut world, &mut r, 25).unwrap();
    }
    assert_eq!(entity::all(&world).len(), 26);
    assert_eq!(health::all(&world).len(), 25);
    for tick in 1..=25 {
        apply_regen(&mut world).unwrap();
        cull_dead(&mut world);
        if tick < 25 {
            assert_eq!(health::all(&world).len(), 25);
        }
    }
    assert_eq!(health::all(&world).len(), 0);
    assert_eq!(entity::all(&world).len(), 1);
    assert_eq!(actor::count(&world), 1);
    assert!(velocity::all(&world).is_empty());
}

#[test]
fn spawned_particle_has_its_rows() {
    let mut world = create_tables();
    let floor = init_floor(&mut world, WorldPoint { x: 3, y: 9 }).unwrap();
    generate_particles(&mut world, &mut rng(8), 25).unwrap();
    let e = Entity { id: floor.id + 1 };
    let row = actor::get(&world, e).unwrap();
    assert_eq!(row.pos, WorldPoint { x: 3, y: 9 });
    assert_eq!(row.tile, "*");
    assert_eq!(row.plane, Plane::Particles);
    assert_eq!(row.color, Color { r: 200, g: 200, b: 200 });
    assert_eq!(health::get(&world, e), Some(Health { max: 25, current: 25, regen: -1 }));
    let c = collision::get(&world, e).unwrap();
    assert!(!c.ground && !c.solid && c.ephemeral);
    let v = velocity::get(&world, e).unwrap();
    assert!((-1..=1).contains(&v.dx) && (-1..=1).contains(&v.dy));
    assert!(ai::get(&world, e).is_none());
}

#[test]
fn spawned_enemy_has_its_rows() {
    let mut world = create_tables();
    let floor = init_floor(&mut world, WorldPoint { x: 3, y: 9 }).unwrap();
    generate_enemies(&mut world, &mut rng(8), 10).unwrap();
    let e = Entity { id: floor.id + 1 };
    let row = actor::get(&world, e).unwrap();
    assert_eq!(row.pos, WorldPoint { x: 3, y: 9 });
    assert_eq!(row.tile, "x");
    assert_eq!(row.plane, Plane::Enemies);
    assert_eq!(row.color, Color { r: 255, g: 255, b: 255 });
    assert_eq!(health::get(&world, e), Some(Health { max: 10, current: 10, regen: -1 }));
    let c = collision::get(&world, e).unwrap();
    assert!(!c.ground && c.solid && !c.ephemeral);
    assert_eq!(velocity::get(&world, e), Some(Velocity { dx: 0, dy: 0 }));
    assert_eq!(ai::get(&world, e), Some(ai::AiDirective::TargetPlayer));
}

#[test]
fn spawning_without_passable_tile_gives_no_actor() {
    let mut world = create_tables();
    generate_particles(&mut world, &mut rng(8), 25).unwrap();
    generate_enemies(&mut world, &mut rng(8), 10).unwrap();
    assert_eq!(entity::all(&world).len(), 2);
    assert_eq!(actor::count(&world), 0);
    assert_eq!(health::all(&world).len(), 2);
    assert_eq!(collision::all(&world).len(), 2);
}

#[test]
fn spawning_fails_when_identifiers_run_out() {
    let mut world = create_tables();
    entity::restore(&mut world, i64::MAX - 1).unwrap();
    assert_eq!(generate_particles(&mut world, &mut rng(1), 25), Err(StoreError::IdsExhausted));
    assert_eq!(generate_enemies(&mut world, &mut rng(1), 10), Err(StoreError::IdsExhausted));
    assert_eq!(init_floor(&mut world, WorldPoint { x: 0, y: 0 }), Err(StoreError::IdsExhausted));
    assert_eq!(
        init_wall(&mut world, "#", WorldPoint { x: 0, y: 0 }),
        Err(StoreError::IdsExhausted)
    );
    assert_eq!(init_player(&mut world, false), Err(StoreError::IdsExhausted));
    assert_eq!(entity::all(&world).len(), 1);
    assert!(health::all(&world).is_empty());
}

#[test]
fn second_player_is_not_created() {
    let mut world = create_tables();
    let p = init_player(&mut world, false).unwrap();
    assert_eq!(p.id, 1);
    assert_eq!(velocity::get(&world, p), Some(Velocity { dx: 0, dy: 0 }));
    let c = collision::get(&world, p).unwrap();
    assert!(!c.ground && c.solid && !c.ephemeral);
    assert!(actor::get(&world, p).is_none());
    assert_eq!(init_player(&mut world, true), Err(StoreError::DuplicateRow));
    assert_eq!(world.next_id(), 2);
}

#[test]
fn cull_ephemeral_destroys_what_lost_its_footing() {
    let mut world = create_tables();
    init_floor(&mut world, WorldPoint { x: 0, y: 0 }).unwrap();
    init_floor(&mut world, WorldPoint { x: 1, y: 0 }).unwrap();
    init_wall(&mut world, "#", WorldPoint { x: 1, y: 0 }).unwrap();
    init_wall(&mut world, "#", WorldPoint { x: 2, y: 0 }).unwrap();
    let mut make = |x: i64, ephemeral: bool| {
        let e = body(&mut world, x, 0, false, 0, 0);
        collision::set(&mut world, e, false, false, ephemeral).unwrap();
        e
    };
    let safe = make(0, true);
    let crushed = make(1, true);
    let in_wall = make(2, true);
    let in_void = make(7, true);
    let lasting = make(7, false);
    let solid_enemy = body(&mut world, 0, 0, true, 0, 0);
    cull_ephemeral(&mut world);
    assert!(entity::is_alive(&world, safe));
    assert!(!entity::is_alive(&world, crushed));
    assert!(!entity::is_alive(&world, in_wall));
    assert!(!entity::is_alive(&world, in_void));
    assert!(entity::is_alive(&world, lasting));
    assert!(entity::is_alive(&world, solid_enemy));
    assert!(actor::get(&world, crushed).is_none());
    assert!(collision::get(&world, in_void).is_none());
}

#[test]
fn ephemeral_next_to_solid_enemy_on_floor_stays() {
    let mut world = create_tables();
    init_floor(&mut world, WorldPoint { x: 0, y: 0 }).unwrap();
    body(&mut world, 0, 0, true, 0, 0);
    let particle = body(&mut world, 0, 0, false, 0, 0);
    collision::set(&mut world, particle, false, false, true).unwrap();
    cull_ephemeral(&mut world);
    assert!(entity::is_alive(&world, particle));
}

#[test]
fn ephemeral_without_actor_stays() {
    let mut world = create_tables();
    let e = entity::create(&mut world).unwrap();
    collision::set(&mut world, e, false, false, true).unwrap();
    cull_ephemeral(&mut world);
    assert!(entity::is_alive(&world, e));
}

#[test]
fn destroy_all_destroys_the_listed() {
    let mut world = create_tables();
    let a = body(&mut world, 0, 0, true, 0, 0);
    let b = body(&mut world, 1, 0, true, 0, 0);
    let c = body(&mut world, 2, 0, true, 0, 0);
    destroy_all(&mut world, &vec![c.id, 99, a.id, c.id]);
    assert_eq!(entity::all(&world), vec![b]);
    assert_eq!(actor::count(&world), 1);
}

fn stairs(world: &mut World, x: i64, y: i64, level: &str) -> Entity {
    let e = entity::create(world).unwrap();
    actor::set(
        world,
        Actor {
            entity: e,
            tile: ">".to_string(),
            pos: WorldPoint { x, y },
            color: Color { r: 0, g: 0, b: 0 },
            plane: Plane::Objects,
        },
    )
    .unwrap();
    transition::set(world, e, level).unwrap();
    e
}

fn hero(world: &mut World, x: i64, y: i64) -> Entity {
    let p = init_player(world, false).unwrap();
    actor::set(
        world,
        Actor {
            entity: p,
            tile: "@".to_string(),
            pos: WorldPoint { x, y },
            color: Color { r: 255, g: 255, b: 255 },
            plane: Plane::Player,
        },
    )
    .unwrap();
    p
}

#[test]
fn transition_on_the_players_tile_is_followed() {
    let mut world = create_tables();
    hero(&mut world, 4, 4);
    stairs(&mut world, 5, 4, "far");
    assert_eq!(follow_transition(&mut world), None);
    assert_eq!(player::level(&world), Ok("0".to_string()));
    stairs(&mut world, 4, 4, "cellar");
    assert_eq!(follow_transition(&mut world), Some("cellar".to_string()));
    assert_eq!(player::level(&world), Ok("cellar".to_string()));
    assert_eq!(player::turns_passed(&world), Ok(0));
}

#[test]
fn of_two_transitions_the_older_is_taken() {
    let mut world = create_tables();
    hero(&mut world, 4, 4);
    let first = stairs(&mut world, 4, 4, "one");
    let second = stairs(&mut world, 4, 4, "two");
    assert!(first.id < second.id);
    assert_eq!(follow_transition(&mut world), Some("one".to_string()));
    transition::set(&mut world, first, "changed").unwrap();
    assert_eq!(follow_transition(&mut world), Some("changed".to_string()));
    entity::destroy(&mut world, first);
    assert_eq!(follow_transition(&mut world), Some("two".to_string()));
}

#[test]
fn no_transition_without_player_or_actor() {
    let mut world = create_tables();
    stairs(&mut world, 0, 0, "x");
    assert_eq!(follow_transition(&mut world), None);
    init_player(&mut world, false).unwrap();
    assert_eq!(follow_transition(&mut world), None);
}

#[test]
fn nine_draws_give_nine_steps() {
    let steps: Vec<(i64, i64)> = (0..9).map(|r| {
        let v = random_direction(r);
        (v.dx, v.dy)
    }).collect();
    assert_eq!(
        steps,
        vec![(-1, -1), (-1, 0), (-1, 1), (0, -1), (0, 0), (0, 1), (1, -1), (1, 0), (1, 1)]
    );
}

#[test]
fn random_directive_draws_all_nine_steps() {
    let mut world = create_tables();
    let e = body(&mut world, 0, 0, false, 5, 5);
    ai::set_random(&mut world, e).unwrap();
    let still = body(&mut world, 1, 1, false, 5, 5);
    let mut r = rng(21);
    let mut seen = std::collections::BTreeSet::new();
    for _ in 0..300 {
        apply_ai(&mut world, &mut r);
        let v = velocity::get(&world, e).unwrap();
        assert!((-1..=1).contains(&v.dx) && (-1..=1).contains(&v.dy));
        seen.insert((v.dx, v.dy));
    }
    assert_eq!(seen.len(), 9);
    assert_eq!(velocity::get(&world, still), Some(Velocity { dx: 5, dy: 5 }));
    assert_eq!(pos(&world, e), (0, 0));
}

#[test]
fn random_directive_without_velocity_gets_none() {
    let mut world = create_tables();
    let e = entity::create(&mut world).unwrap();
    ai::set_random(&mut world, e).unwrap();
    apply_ai(&mut world, &mut rng(1));
    assert!(velocity::get(&world, e).is_none());
}

fn chaser(world: &mut World, x: i64, y: i64) -> Entity {
    let e = body(world, x, y, true, 0, 0);
    ai::set_target_player(world, e).unwrap();
    e
}

#[test]
fn pursuer_in_open_room_closes_in_step_by_step() {
    let mut world = create_tables();
    room(&mut world, 8, 6);
    hero(&mut world, 6, 4);
    let e = chaser(&mut world, 1, 1);
    let mut r = rng(1);
    let mut distance = 8;
    while distance > 1 {
        apply_ai(&mut world, &mut r);
        let v = velocity::get(&world, e).unwrap();
        assert_eq!(v.dx.abs() + v.dy.abs(), 1);
        move_actors(&mut world).unwrap();
        let (x, y) = pos(&world, e);
        let now = (x - 6).abs() + (y - 4).abs();
        assert_eq!(now, distance - 1);
        distance = now;
    }
    apply_ai(&mut world, &mut r);
    let v = velocity::get(&world, e).unwrap();
    let (x, y) = pos(&world, e);
    assert_eq!((x + v.dx, y + v.dy), (6, 4));
    move_actors(&mut world).unwrap();
    assert_eq!(pos(&world, e), (x, y));
}

#[test]
fn pursuer_prefers_west_then_east_then_north_then_south() {
    let mut world = create_tables();
    room(&mut world, 5, 5);
    let p = hero(&mut world, 0, 0);
    let e = chaser(&mut world, 2, 2);
    let mut r = rng(1);
    apply_ai(&mut world, &mut r);
    assert_eq!(velocity::get(&world, e), Some(Velocity { dx: -1, dy: 0 }));
    let place = |world: &mut World, x: i64, y: i64| {
        actor::set(
            world,
            Actor {
                entity: p,
                tile: "@".to_string(),
                pos: WorldPoint { x, y },
                color: Color { r: 255, g: 255, b: 255 },
                plane: Plane::Player,
            },
        )
        .unwrap();
    };
    place(&mut world, 4, 0);
    apply_ai(&mut world, &mut r);
    assert_eq!(velocity::get(&world, e), Some(Velocity { dx: 1, dy: 0 }));
    place(&mut world, 2, 0);
    apply_ai(&mut world, &mut r);
    assert_eq!(velocity::get(&world, e), Some(Velocity { dx: 0, dy: -1 }));
    place(&mut world, 2, 4);
    apply_ai(&mut world, &mut r);
    assert_eq!(velocity::get(&world, e), Some(Velocity { dx: 0, dy: 1 }));
    place(&mut world, 2, 2);
    apply_ai(&mut world, &mut r);
    assert_eq!(velocity::get(&world, e), Some(Velocity { dx: 0, dy: 0 }));
}

#[test]
fn pursuer_walks_around_a_wall() {
    let mut world = create_tables();
    room(&mut world, 5, 3);
    init_wall(&mut world, "#", WorldPoint { x: 2, y: 0 }).unwrap();
    init_wall(&mut world, "#", WorldPoint { x: 2, y: 1 }).unwrap();
    hero(&mut world, 4, 0);
    let e = chaser(&mut world, 0, 0);
    let mut r = rng(1);
    let mut path = vec![];
    for _ in 0..7 {
        apply_ai(&mut world, &mut r);
        move_actors(&mut world).unwrap();
        path.push(pos(&world, e));
    }
    assert_eq!(path, vec![(1, 0), (1, 1), (1, 2), (2, 2), (3, 2), (4, 2), (4, 1)]);
    apply_ai(&mut world, &mut r);
    assert_eq!(velocity::get(&world, e), Some(Velocity { dx: 0, dy: -1 }));
    move_actors(&mut world).unwrap();
    assert_eq!(pos(&world, e), (4, 1));
}

#[test]
fn pursuer_without_path_holds_its_position() {
    let mut world = create_tables();
    room(&mut world, 5, 1);
    init_wall(&mut world, "#", WorldPoint { x: 2, y: 0 }).unwrap();
    hero(&mut world, 4, 0);
    let e = chaser(&mut world, 0, 0);
    velocity::set(&mut world, e, 1, 0).unwrap();
    apply_ai(&mut world, &mut rng(1));
    assert_eq!(velocity::get(&world, e), Some(Velocity { dx: 0, dy: 0 }));
    move_actors(&mut world).unwrap();
    assert_eq!(pos(&world, e), (0, 0));
}

#[test]
fn pursuers_hold_when_the_player_stands_on_no_ground() {
    let mut world = create_tables();
    room(&mut world, 3, 1);
    hero(&mut world, 5, 0);
    let e = chaser(&mut world, 0, 0);
    velocity::set(&mut world, e, 1, 0).unwrap();
    apply_ai(&mut world, &mut rng(1));
    assert_eq!(velocity::get(&world, e), Some(Velocity { dx: 0, dy: 0 }));
}

#[test]
fn pursuers_hold_without_player() {
    let mut world = create_tables();
    room(&mut world, 3, 1);
    let e = chaser(&mut world, 0, 0);
    velocity::set(&mut world, e, 1, 0).unwrap();
    apply_ai(&mut world, &mut rng(1));
    assert_eq!(velocity::get(&world, e), Some(Velocity { dx: 0, dy: 0 }));
}

#[test]
fn pursuer_beyond_the_radius_holds() {
    let mut world = create_tables();
    room(&mut world, 70, 1);
    hero(&mut world, 0, 0);
    let near = chaser(&mut world, 64, 0);
    let far = chaser(&mut world, 65, 0);
    apply_ai(&mut world, &mut rng(1));
    assert_eq!(velocity::get(&world, near), Some(Velocity { dx: -1, dy: 0 }));
    assert_eq!(velocity::get(&world, far), Some(Velocity { dx: 0, dy: 0 }));
}

#[test]
fn draws_stay_in_range_and_vary() {
    let mut r = rng(77);
    let mut seen = std::collections::BTreeSet::new();
    for _ in 0..200 {
        let n = pcg_randint(&mut r, 3, 6);
        assert!((3..=6).contains(&n));
        seen.insert(n);
        let m = pcg_randint(&mut r, 2, -2);
        assert!((-2..=2).contains(&m));
        let i = random_index(&mut r, 3);
        assert!(i < 3);
    }
    assert_eq!(seen.len(), 4);
    assert_eq!(pcg_randint(&mut r, -9, -9), -9);
    assert_eq!(random_index(&mut r, 1), 0);
}

#[test]
fn same_seed_same_draws() {
    let mut a = rng(5);
    let mut b = rng(5);
    for _ in 0..50 {
        assert_eq!(pcg_randint(&mut a, 0, 1000), pcg_randint(&mut b, 0, 1000));
    }
}

#[test]
fn creatures_spawn_on_the_tiles_that_are_handed_in() {
    let mut world = create_tables();
    for x in 0..6 {
        init_floor(&mut world, WorldPoint { x, y: 0 }).unwrap();
    }
    let tiles = collision::create_passable_tiles_view(&world);
    assert_eq!(tiles.len(), 6);
    let mut r = rng(3);
    let mut seen = std::collections::BTreeSet::new();
    for i in 0..60 {
        let id = world.next_id();
        if i % 2 == 0 {
            generate_particles_on(&mut world, &mut r, &tiles, 25).unwrap();
        } else {
            generate_enemies_on(&mut world, &mut r, &tiles, 10).unwrap();
        }
        let row = actor::get(&world, Entity { id }).unwrap();
        assert_eq!(row.pos.y, 0);
        assert!((0..6).contains(&row.pos.x));
        assert_eq!(row.tile, if i % 2 == 0 { "*" } else { "x" });
        seen.insert(row.pos.x);
    }
    assert_eq!(seen.len(), 6);
    assert_eq!(collision::create_passable_tiles_view(&world), tiles);
    let none: Vec<PassableTile> = vec![];
    let mut empty = create_tables();
    generate_particles_on(&mut empty, &mut r, &none, 25).unwrap();
    assert_eq!(actor::count(&empty), 0);
    assert_eq!(health::all(&empty).len(), 1);
}

#[test]
fn placement_on_handed_in_tiles() {
    let mut world = create_tables();
    let floor = init_floor(&mut world, WorldPoint { x: 2, y: 3 }).unwrap();
    let tiles = collision::create_passable_tiles_view(&world);
    assert_eq!(tiles, vec![PassableTile { entity: floor, pos: WorldPoint { x: 2, y: 3 } }]);
    let e = entity::create(&mut world).unwrap();
    let white = Color { r: 255, g: 255, b: 255 };
    assert_eq!(
        actor::set_on_one_of(&mut world, &mut rng(1), &tiles, e, "x", white, Plane::Enemies),
        Ok(true)
    );
    assert_eq!(actor::get(&world, e).unwrap().pos, WorldPoint { x: 2, y: 3 });
    assert_eq!(
        actor::set_on_one_of(&mut world, &mut rng(1), &tiles, e, "x", white, Plane::Enemies),
        Err(StoreError::DuplicateRow)
    );
    assert_eq!(
        actor::set_on_one_of(
            &mut world,
            &mut rng(1),
            &tiles,
            Entity { id: 70 },
            "x",
            white,
            Plane::Enemies
        ),
        Err(StoreError::UnknownEntity)
    );
}
