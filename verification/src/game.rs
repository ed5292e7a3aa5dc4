//! A game from its first world to its last turn: building the world from a
//! layout, and playing the turns.

use crate::component::actor::{self, Actor};
use crate::component::collision::Collision;
use crate::component::player::{self, after_pass, pass_error};
use crate::component::transition::{self, Transition};
use crate::component::velocity::Velocity;
use crate::component::create_tables;
use crate::console::{ClickEvent, ConsolePoint, VirtualKeyCode};
use crate::entity::{self, Entity};
use crate::error::StoreError;
use crate::component::collision::{create_passable_tiles_view, views};
use crate::game_object::{
    enemy_spawned, generate_enemies_on, generate_particles_on, init_floor, init_player, init_wall,
    particle_spawned, player_color, stair_color, with_tile, Color, Plane, WorldPoint, WIN_LEVEL,
};
use crate::map_gen::{DefaultGenerator, EmptyGenerator, Generator, Tile};
use crate::meta::{
    after_keys, first_menu_key, in_game_keydown_handler, keydown_handler, menu_key,
    won_game_keydown_handler, GameMode, KeyEffect, Menu, MenuKey, MenuResult, Renderer,
    CREATIVE_MODE, LOAD_GAME, NEW_GAME, WORLD_HEIGHT, WORLD_WIDTH,
};
use crate::rng::GameRng;
use crate::system::{
    apply_ai, apply_regen, cull_dead, cull_ephemeral, dead, follow_transition, followed,
    followed_level, move_actors, move_fits, moved, regen_fits, regenerated, steered, stranded,
};
use crate::world::{World, WorldView};
use vstd::prelude::*;

verus! {

/// The number of new entities that a tile of the layout takes.
pub open spec fn ids_needed(tile: Tile) -> int {
    match tile {
        Tile::Unused => 0,
        Tile::Unknown(_) => 0,
        Tile::DownStairs => 2,
        _ => 1,
    }
}

/// Why a tile of the layout cannot be placed, if it cannot: the identifiers
/// that it takes are not left, or it is the up staircase, where the player
/// starts, and the registry does not hold the player.
pub open spec fn tile_error(m: WorldView, player: i64, tile: Tile) -> Option<StoreError> {
    if m.next_id + ids_needed(tile) > i64::MAX {
        Some(StoreError::IdsExhausted)
    } else if tile == Tile::UpStairs && !m.entities.contains(player) {
        Some(StoreError::UnknownEntity)
    } else {
        None
    }
}

/// Whether `b` is `a` with a floor tile on `pos`.
pub open spec fn floor_laid(a: WorldView, b: WorldView, pos: WorldPoint) -> bool {
    let f = b.actors[a.next_id];
    &&& a.next_id < i64::MAX
    &&& b == with_tile(a, f, Collision { ground: true, solid: false, ephemeral: false })
    &&& f.entity.id == a.next_id
    &&& f.tile@ == "."@
    &&& f.pos == pos
    &&& f.color == (Color { r: 80, g: 80, b: 80 })
    &&& f.plane == Plane::Ground
}

/// Whether `b` is `a` with a wall tile on `pos`.
pub open spec fn wall_laid(a: WorldView, b: WorldView, pos: WorldPoint) -> bool {
    let f = b.actors[a.next_id];
    &&& a.next_id < i64::MAX
    &&& b == with_tile(a, f, Collision { ground: true, solid: true, ephemeral: false })
    &&& f.entity.id == a.next_id
    &&& f.tile@ == "#"@
    &&& f.pos == pos
    &&& f.color == (Color { r: 255, g: 255, b: 255 })
    &&& f.plane == Plane::Wall
}

/// Whether `b` is `a` with a down staircase on `pos`: a new entity drawn as
/// ">" on the object plane, which leads to the win level.
pub open spec fn stairs_laid(a: WorldView, b: WorldView, pos: WorldPoint) -> bool {
    let s = b.actors[a.next_id];
    let t = b.transitions[a.next_id];
    &&& a.next_id < i64::MAX
    &&& b == a.with_new_entity().with_actor(s).with_transition(a.next_id, t)
    &&& s.entity.id == a.next_id
    &&& s.tile@ == ">"@
    &&& s.pos == pos
    &&& s.color == (Color { r: 255, g: 255, b: 255 })
    &&& s.plane == Plane::Objects
    &&& t.level@ == WIN_LEVEL@
}

/// Whether `b` is `a` with the player standing on `pos`, drawn as "@" on the
/// player plane.
pub open spec fn player_put(a: WorldView, b: WorldView, player: Entity, pos: WorldPoint) -> bool {
    let p = b.actors[player.id];
    &&& a.entities.contains(player.id)
    &&& b == a.with_actor(p)
    &&& p.entity == player
    &&& p.tile@ == "@"@
    &&& p.pos == pos
    &&& p.color == (Color { r: 255, g: 255, b: 255 })
    &&& p.plane == Plane::Player
}

/// Whether `b` is `a` with the tile `tile` of the layout placed on `pos`.
///
/// Floor, corridor and doors become a floor tile; a wall becomes a wall tile.
/// The down staircase is a floor tile with the stairs on it, and the up
/// staircase a floor tile on which the player stands. An unused or unknown
/// tile places nothing.
pub open spec fn tile_placed(
    a: WorldView,
    b: WorldView,
    player: Entity,
    tile: Tile,
    pos: WorldPoint,
) -> bool {
    match tile {
        Tile::Unused => b == a,
        Tile::Unknown(_) => b == a,
        Tile::Wall => wall_laid(a, b, pos),
        Tile::DownStairs => exists|mid: WorldView| #[trigger]
            floor_laid(a, mid, pos) && stairs_laid(mid, b, pos),
        Tile::UpStairs => exists|mid: WorldView| #[trigger]
            floor_laid(a, mid, pos) && player_put(mid, b, player, pos),
        _ => floor_laid(a, b, pos),
    }
}

/// Whether `b` is `a` with the tiles of `layout` placed, each on the column
/// and row that it comes with, in order.
pub open spec fn tiles_placed(
    a: WorldView,
    b: WorldView,
    player: Entity,
    layout: Seq<(Tile, i64, i64)>,
) -> bool
    decreases layout.len(),
{
    if layout.len() == 0 {
        b == a
    } else {
        exists|mid: WorldView|
            tiles_placed(a, mid, player, layout.drop_last()) && #[trigger] tile_placed(
                mid,
                b,
                player,
                layout.last().0,
                WorldPoint { x: layout.last().1, y: layout.last().2 },
            )
    }
}

/// Placing one more tile extends what was placed.
pub proof fn lemma_tiles_placed_step(
    a: WorldView,
    mid: WorldView,
    b: WorldView,
    player: Entity,
    layout: Seq<(Tile, i64, i64)>,
)
    requires
        layout.len() > 0,
        tiles_placed(a, mid, player, layout.drop_last()),
        tile_placed(
            mid,
            b,
            player,
            layout.last().0,
            WorldPoint { x: layout.last().1, y: layout.last().2 },
        ),
    ensures
        tiles_placed(a, b, player, layout),
{
}

/// Places one tile of a layout on `pos`: see `tile_placed`. Fails, changing
/// nothing, for the reason that `tile_error` gives.
pub fn place_tile(world: &mut World, player: Entity, tile: Tile, pos: WorldPoint) -> (r: Result<
    (),
    StoreError,
>)
    requires
        old(world).wf(),
    ensures
        final(world).wf(),
        r == (match tile_error(old(world)@, player.id, tile) {
            Some(e) => Err::<(), StoreError>(e),
            None => Ok::<(), StoreError>(()),
        }),
        r.is_ok() ==> tile_placed(old(world)@, final(world)@, player, tile, pos),
        r.is_ok() ==> final(world)@.player == old(world)@.player && final(world)@.next_id == old(
            world,
        )@.next_id + ids_needed(tile) && forall|e: i64|
            old(world)@.entities.contains(e) ==> final(world)@.entities.contains(e),
        r.is_err() ==> final(world)@ == old(world)@,
{
    proof {
        world.unfold();
    }
    let needed: i64 = match tile {
        Tile::Unused => 0,
        Tile::Unknown(_) => 0,
        Tile::DownStairs => 2,
        _ => 1,
    };
    if world.next_id > i64::MAX - needed {
        return Err(StoreError::IdsExhausted);
    }
    match tile {
        Tile::Unused => {},
        Tile::Unknown(_) => {},
        Tile::Wall => {
            let laid = init_wall(world, "#", pos);
            assert(laid.is_ok());
        },
        Tile::DownStairs => {
            let laid = init_floor(world, pos);
            assert(laid.is_ok());
            let ghost mid = world@;
            let stairs = match entity::create(world) {
                Ok(e) => e,
                Err(e) => {
                    return Err(e);
                },
            };
            let set = actor::set(
                world,
                Actor {
                    entity: stairs,
                    tile: ">".to_owned(),
                    pos,
                    color: player_color(),
                    plane: Plane::Objects,
                },
            );
            assert(set.is_ok());
            let set = transition::set(world, stairs, WIN_LEVEL);
            assert(set.is_ok());
            assert(floor_laid(old(world)@, mid, pos) && stairs_laid(mid, world@, pos));
        },
        Tile::UpStairs => {
            if !world.entities.contains(player.id) {
                return Err(StoreError::UnknownEntity);
            }
            let laid = init_floor(world, pos);
            assert(laid.is_ok());
            let ghost mid = world@;
            let set = actor::set(
                world,
                Actor {
                    entity: player,
                    tile: "@".to_owned(),
                    pos,
                    color: stair_color(),
                    plane: Plane::Player,
                },
            );
            assert(set.is_ok());
            assert(floor_laid(old(world)@, mid, pos) && player_put(mid, world@, player, pos));
        },
        _ => {
            let laid = init_floor(world, pos);
            assert(laid.is_ok());
        },
    }
    Ok(())
}

/// Places the tiles of a layout, in order: see `tiles_placed`. Stops at the
/// first tile that cannot be placed, with what was placed before it, and
/// fails with the error of that tile. Succeeds where the identifiers that are
/// left allow two for every tile and the registry holds the player.
pub fn place_tiles(world: &mut World, player: Entity, layout: &Vec<(Tile, i64, i64)>) -> (r: Result<
    (),
    StoreError,
>)
    requires
        old(world).wf(),
    ensures
        final(world).wf(),
        final(world)@.player == old(world)@.player,
        r.is_ok() ==> tiles_placed(old(world)@, final(world)@, player, layout@),
        r matches Err(e) ==> exists|i: int|
            0 <= i < layout@.len() && #[trigger] tiles_placed(
                old(world)@,
                final(world)@,
                player,
                layout@.take(i),
            ) && tile_error(final(world)@, player.id, layout@[i].0) == Some(e),
        old(world)@.next_id + 2 * layout@.len() <= i64::MAX && old(world)@.entities.contains(
            player.id,
        ) ==> r.is_ok(),
{
    let mut i: usize = 0;
    assert(layout@.take(0) =~= Seq::<(Tile, i64, i64)>::empty());
    while i < layout.len()
        invariant
            world.wf(),
            i <= layout.len(),
            world@.player == old(world)@.player,
            tiles_placed(old(world)@, world@, player, layout@.take(i as int)),
            world@.next_id <= old(world)@.next_id + 2 * i,
            old(world)@.entities.contains(player.id) ==> world@.entities.contains(player.id),
        decreases layout.len() - i,
    {
        let (tile, x, y) = layout[i];
        let ghost before = world@;
        match place_tile(world, player, tile, WorldPoint { x, y }) {
            Ok(()) => {},
            Err(e) => {
                return Err(e);
            },
        }
        proof {
            let next = layout@.take(i + 1);
            assert(next.drop_last() =~= layout@.take(i as int));
            assert(next.last() == layout@[i as int]);
            lemma_tiles_placed_step(old(world)@, before, world@, player, next);
        }
        i = i + 1;
    }
    assert(layout@.take(layout.len() as int) =~= layout@);
    Ok(())
}

/// The world in which a game starts, before its map is laid: the player is
/// its only entity, with the player row `p`, no velocity and a solid body.
pub open spec fn seeded(p: player::Player) -> WorldView {
    WorldView::empty().with_new_entity().with_player(p).with_velocity(
        1,
        Velocity { dx: 0, dy: 0 },
    ).with_collision(1, Collision { ground: false, solid: true, ephemeral: false })
}

/// Whether `m` is the world of a new game over the layout `layout`: the
/// layout holds a tile for every place of the list of a level, with the
/// column and the row of the place in a level that is one column narrower
/// than the world; the up staircase is on column 1 of row 1; and `m` is the
/// seeded world with the tiles of the layout placed.
pub open spec fn laid_out(
    m: WorldView,
    p: player::Player,
    layout: Seq<(Tile, i64, i64)>,
) -> bool {
    &&& layout.len() == WORLD_WIDTH * WORLD_HEIGHT
    &&& layout[WORLD_WIDTH as int].0 == Tile::UpStairs
    &&& forall|i: int|
        0 <= i < layout.len() ==> (#[trigger] layout[i]).1 == i % (WORLD_WIDTH - 1) && layout[i].2
            == i / (WORLD_WIDTH - 1)
    &&& tiles_placed(seeded(p), m, p.entity, layout)
}

/// Starts a new game: a new world with the player in it, and the map that the
/// generator lays out for a world of `WORLD_WIDTH` by `WORLD_HEIGHT` tiles
/// placed tile by tile. The player stands where the map has its up staircase.
pub fn new_game<G: Generator>(rng: &mut GameRng, is_creative: bool, dungeon_generator: G) -> (r:
    Result<GameMode, StoreError>)
    requires
        dungeon_generator.ready(WORLD_WIDTH, WORLD_HEIGHT),
    ensures
        r.is_ok(),
        r matches Ok(GameMode::InGame { world, player, is_creative: creative, selected_point }) && {
            &&& world.wf()
            &&& creative == is_creative
            &&& selected_point.is_none()
            &&& player.id == 1
            &&& world@.player matches Some(p) && {
                &&& p.entity == player
                &&& p.is_creative == is_creative
                &&& p.turn == 0
                &&& p.outstanding_turns == 0
                &&& p.level@ == "0"@
                &&& exists|layout: Seq<(Tile, i64, i64)>| #[trigger] laid_out(world@, p, layout)
            }
        },
{
    let mut generator = dungeon_generator;
    let mut world = create_tables();
    let player = match init_player(&mut world, is_creative) {
        Ok(e) => e,
        Err(e) => {
            return Err(e);
        },
    };
    let ghost start = world@;
    let dungeon = generator.generate(rng, WORLD_WIDTH, WORLD_HEIGHT);
    let layout = dungeon.iter();
    match place_tiles(&mut world, player, &layout) {
        Ok(()) => {},
        Err(e) => {
            return Err(e);
        },
    }
    proof {
        let p = world@.player.unwrap();
        assert(start == seeded(p));
        assert(layout@.len() == WORLD_WIDTH * WORLD_HEIGHT);
        assert(layout@[WORLD_WIDTH as int].0 == Tile::UpStairs);
        assert forall|i: int| 0 <= i < layout@.len() implies (#[trigger] layout@[i]).1 == i % (
        WORLD_WIDTH - 1) && layout@[i].2 == i / (WORLD_WIDTH - 1) by {}
        assert(tiles_placed(seeded(p), world@, player, layout@));
        assert(laid_out(world@, p, layout@));
    }
    Ok(GameMode::InGame { world, player, is_creative, selected_point: None })
}

/// Resumes a game from a world that was loaded: the mode of a game that is
/// played in that world, by the player and in the mode of its player row.
/// Fails with `NoPlayer` where the world has no player.
pub fn load_game(world: World) -> (r: Result<GameMode, StoreError>)
    requires
        world.wf(),
    ensures
        match world@.player {
            Some(p) => r matches Ok(
                GameMode::InGame { world: loaded, player, is_creative, selected_point },
            ) && loaded == world && player == p.entity && is_creative == p.is_creative
                && selected_point.is_none(),
            None => r matches Err(e) && e == StoreError::NoPlayer,
        },
{
    let player = match entity::load_player(&world) {
        Ok(e) => e,
        Err(e) => {
            return Err(e);
        },
    };
    let is_creative = match player::is_creative(&world) {
        Ok(c) => c,
        Err(e) => {
            return Err(e);
        },
    };
    Ok(GameMode::InGame { world, player, is_creative, selected_point: None })
}

/// How a turn ended.
#[derive(Debug, Clone, Copy, PartialEq, Eq, Structural)]
pub enum TurnOutcome {
    /// The game goes on.
    Continue,
    /// The player reached the win level.
    WonGame,
}

/// The particles that are spawned in a turn.
pub const PARTICLES_PER_TURN: u32 = 25;

/// The turns that a particle lives.
pub const PARTICLE_LIFESPAN: i64 = 25;

/// The enemies that are spawned in a turn.
pub const ENEMIES_PER_TURN: u32 = 5;

/// The turns that an enemy lives.
pub const ENEMY_LIFESPAN: i64 = 10;

/// Whether `b` is `a` after the decision step: nothing but velocities has
/// changed, and every velocity is one that the step may give.
pub open spec fn decided(a: WorldView, b: WorldView) -> bool {
    &&& b == (WorldView { velocities: b.velocities, ..a })
    &&& b.velocities.dom() == a.velocities.dom()
    &&& forall|e: i64| #[trigger]
        a.velocities.dom().contains(e) ==> steered(a, e, a.velocities[e], b.velocities[e])
}

/// The world after time advanced by one turn: one more turn is played, and
/// one less is outstanding.
pub open spec fn passed(m: WorldView) -> WorldView {
    m.with_player(after_pass(m.player.unwrap(), 1))
}

/// Why movement, time advance and regeneration, in that order, cannot be done
/// on `m`, if they cannot: a step leaves the range of the integers, or the
/// world has no player whose time could advance.
pub open spec fn advance_error(m: WorldView) -> Option<StoreError> {
    if !move_fits(m) {
        Some(StoreError::Overflow)
    } else if pass_error(m.player, 1).is_some() {
        pass_error(m.player, 1)
    } else if !regen_fits(passed(moved(m))) {
        Some(StoreError::Overflow)
    } else {
        None
    }
}

/// The world after movement, time advance and regeneration, in that order.
pub open spec fn advanced(m: WorldView) -> WorldView {
    regenerated(passed(moved(m)))
}

/// Whether creatures are spawned in the world: not in creative mode.
pub open spec fn spawns(m: WorldView) -> bool {
    !(m.player matches Some(p) && p.is_creative)
}

/// Whether `b` is `a` with `n` particles spawned, one after the other.
pub open spec fn particles_spawned(a: WorldView, b: WorldView, n: nat) -> bool
    decreases n,
{
    if n == 0 {
        b == a
    } else {
        exists|mid: WorldView|
            particles_spawned(a, mid, (n - 1) as nat) && #[trigger] particle_spawned(
                mid,
                b,
                PARTICLE_LIFESPAN,
            )
    }
}

/// Whether `b` is `a` with `n` enemies spawned, one after the other.
pub open spec fn enemies_spawned(a: WorldView, b: WorldView, n: nat) -> bool
    decreases n,
{
    if n == 0 {
        b == a
    } else {
        exists|mid: WorldView|
            enemies_spawned(a, mid, (n - 1) as nat) && #[trigger] enemy_spawned(
                mid,
                b,
                ENEMY_LIFESPAN,
            )
    }
}

/// Whether `b` is `a` after the spawning step: the particles of a turn, then
/// the enemies of a turn; or nothing in creative mode.
pub open spec fn populated(a: WorldView, b: WorldView) -> bool {
    if spawns(a) {
        exists|mid: WorldView| #[trigger]
            particles_spawned(a, mid, PARTICLES_PER_TURN as nat) && enemies_spawned(
                mid,
                b,
                ENEMIES_PER_TURN as nat,
            )
    } else {
        b == a
    }
}

/// The world after both culls: the dead are destroyed, and then the stranded.
pub open spec fn culled(m: WorldView) -> WorldView {
    m.without(dead(m)).without(stranded(m.without(dead(m))))
}

/// The outcome of a turn that ends in the world `m`, before the transition
/// check: won where the player stands on a transition to the win level.
pub open spec fn outcome_of(m: WorldView) -> TurnOutcome {
    if followed_level(m) matches Some(level) && level@ == WIN_LEVEL@ {
        TurnOutcome::WonGame
    } else {
        TurnOutcome::Continue
    }
}

/// Whether `z` is `a` after one turn with the outcome `outcome`: the eight
/// steps of a turn in their order. `decided` gives the first, `advanced` the
/// three that follow, `populated` the spawning, `culled` the two culls, and
/// `followed` the transition check.
pub open spec fn turn_played(a: WorldView, z: WorldView, outcome: TurnOutcome) -> bool {
    exists|m1: WorldView, m5: WorldView|
        #![trigger decided(a, m1), culled(m5)]
        decided(a, m1) && advance_error(m1).is_none() && populated(advanced(m1), m5) && z
            == followed(culled(m5)) && outcome == outcome_of(culled(m5))
}

/// Whether a turn can fail on `a` with the error `e`: after the decision step,
/// movement, time advance or regeneration cannot be done, see
/// `advance_error`; or else the identifiers do not last for the creatures of
/// the turn.
pub open spec fn turn_failed(a: WorldView, e: StoreError) -> bool {
    exists|m1: WorldView| #[trigger]
        decided(a, m1) && (match advance_error(m1) {
            Some(error) => e == error,
            None => e == StoreError::IdsExhausted && spawns(advanced(m1)) && advanced(m1).next_id
                + PARTICLES_PER_TURN + ENEMIES_PER_TURN > i64::MAX,
        })
}

/// Adding a particle to `n` that were spawned makes `n + 1`.
proof fn lemma_particle_step(a: WorldView, mid: WorldView, b: WorldView, n: nat)
    requires
        particles_spawned(a, mid, n),
        particle_spawned(mid, b, PARTICLE_LIFESPAN),
    ensures
        particles_spawned(a, b, n + 1),
{
}

/// Adding an enemy to `n` that were spawned makes `n + 1`.
proof fn lemma_enemy_step(a: WorldView, mid: WorldView, b: WorldView, n: nat)
    requires
        enemies_spawned(a, mid, n),
        enemy_spawned(mid, b, ENEMY_LIFESPAN),
    ensures
        enemies_spawned(a, b, n + 1),
{
}

/// The spawning step of a turn: see `populated`. The passable-tile view is
/// computed once for all creatures of the turn, none of which changes it.
/// Fails where the identifiers run out, with what was spawned before.
fn spawn_creatures(world: &mut World, rng: &mut GameRng) -> (r: Result<(), StoreError>)
    requires
        old(world).wf(),
    ensures
        final(world).wf(),
        r.is_ok() ==> populated(old(world)@, final(world)@),
        r matches Err(e) ==> e == StoreError::IdsExhausted && spawns(old(world)@) && old(
            world,
        )@.next_id + PARTICLES_PER_TURN + ENEMIES_PER_TURN > i64::MAX,
{
    let creative = match player::is_creative(world) {
        Ok(c) => c,
        Err(_) => false,
    };
    if creative {
        return Ok(());
    }
    let tiles = create_passable_tiles_view(world);
    let mut i: u32 = 0;
    while i < PARTICLES_PER_TURN
        invariant
            world.wf(),
            views(world@, tiles@),
            i <= PARTICLES_PER_TURN,
            spawns(old(world)@),
            particles_spawned(old(world)@, world@, i as nat),
            world@.next_id == old(world)@.next_id + i,
        decreases PARTICLES_PER_TURN - i,
    {
        let ghost before = world@;
        match generate_particles_on(world, rng, &tiles, PARTICLE_LIFESPAN) {
            Ok(()) => {},
            Err(e) => {
                return Err(e);
            },
        }
        proof {
            lemma_particle_step(old(world)@, before, world@, i as nat);
        }
        i = i + 1;
    }
    let ghost mid = world@;
    let mut j: u32 = 0;
    while j < ENEMIES_PER_TURN
        invariant
            world.wf(),
            views(world@, tiles@),
            j <= ENEMIES_PER_TURN,
            spawns(old(world)@),
            particles_spawned(old(world)@, mid, PARTICLES_PER_TURN as nat),
            enemies_spawned(mid, world@, j as nat),
            world@.next_id == old(world)@.next_id + PARTICLES_PER_TURN + j,
        decreases ENEMIES_PER_TURN - j,
    {
        let ghost before = world@;
        match generate_enemies_on(world, rng, &tiles, ENEMY_LIFESPAN) {
            Ok(()) => {},
            Err(e) => {
                return Err(e);
            },
        }
        proof {
            lemma_enemy_step(mid, before, world@, j as nat);
        }
        j = j + 1;
    }
    Ok(())
}

/// The steps of a turn, without the way back: see `simulate_turn`.
fn run_turn(world: &mut World, rng: &mut GameRng) -> (r: Result<TurnOutcome, StoreError>)
    requires
        old(world).wf(),
    ensures
        final(world).wf(),
        r matches Ok(outcome) ==> turn_played(old(world)@, final(world)@, outcome),
        r matches Err(e) ==> turn_failed(old(world)@, e),
{
    apply_ai(world, rng);
    let ghost m1 = world@;
    assert(decided(old(world)@, m1));
    match move_actors(world) {
        Ok(()) => {},
        Err(e) => {
            return Err(e);
        },
    }
    match player::pass_time(world, 1) {
        Ok(()) => {},
        Err(e) => {
            return Err(e);
        },
    }
    match apply_regen(world) {
        Ok(()) => {},
        Err(e) => {
            return Err(e);
        },
    }
    assert(advance_error(m1).is_none() && advanced(m1) == world@);
    match spawn_creatures(world, rng) {
        Ok(()) => {},
        Err(e) => {
            return Err(e);
        },
    }
    let ghost m5 = world@;
    cull_dead(world);
    cull_ephemeral(world);
    assert(world@ == culled(m5));
    let won = match follow_transition(world) {
        Some(level) => level == WIN_LEVEL.to_owned(),
        None => false,
    };
    proof {
        assert(decided(old(world)@, m1) && advance_error(m1).is_none() && populated(
            advanced(m1),
            m5,
        ) && world@ == followed(culled(m5)));
    }
    if won {
        Ok(TurnOutcome::WonGame)
    } else {
        Ok(TurnOutcome::Continue)
    }
}

/// Plays one turn: the decision step, movement, time advance, regeneration,
/// spawning, the cull of the dead, the cull of the stranded, and the
/// transition check, in this order and as one unit. See `turn_played`.
///
/// Where a step fails, the world is put back as it was before the turn, and
/// the error is returned: see `turn_failed`.
pub fn simulate_turn(world: &mut World, rng: &mut GameRng) -> (r: Result<TurnOutcome, StoreError>)
    requires
        old(world).wf(),
    ensures
        final(world).wf(),
        r matches Ok(outcome) ==> turn_played(old(world)@, final(world)@, outcome),
        r matches Err(e) ==> turn_failed(old(world)@, e) && final(world)@ == old(world)@,
{
    let checkpoint = world.snapshot();
    match run_turn(world, rng) {
        Ok(outcome) => Ok(outcome),
        Err(e) => {
            *world = checkpoint;
            Err(e)
        },
    }
}

/// What the caller of a tick has to do after it.
#[derive(Debug, Clone, Copy, PartialEq, Eq, Structural)]
pub enum TickAction {
    /// Nothing: go on with the next tick.
    Continue,
    /// Load the saved world, and resume it with `load_game`.
    LoadGame,
    /// Leave the program.
    Quit,
}

/// The program between two ticks: its mode, and whether the console is up to
/// date.
pub struct State {
    pub mode: GameMode,
    pub renderer: Renderer,
}

/// What the keys of a tick do in a game that has a player: nothing while
/// turns are outstanding, and else what `after_keys` says.
pub open spec fn keyed(m: WorldView, player: i64, keys: Seq<VirtualKeyCode>) -> KeyEffect {
    if m.player matches Some(p) && p.outstanding_turns > 0 {
        KeyEffect::Continue(m)
    } else {
        after_keys(m, player, keys)
    }
}

/// Whether a turn is outstanding in `m`.
pub open spec fn turn_due(m: WorldView) -> bool {
    m.player matches Some(p) && p.outstanding_turns > 0
}

/// The point that is selected after a tick with the clicks `clicks`: the
/// point of the first click, or the one that was selected before.
pub open spec fn clicked(before: Option<ConsolePoint>, clicks: Seq<ClickEvent>) -> Option<
    ConsolePoint,
> {
    if clicks.len() > 0 {
        Some(clicks[0].pos)
    } else {
        before
    }
}

impl State {
    /// The menu of the mode, or the world of its game, is well formed.
    pub open spec fn wf(&self) -> bool {
        &&& self.mode matches GameMode::MainMenu(menu) ==> menu.wf()
        &&& self.mode matches GameMode::InGame { world, .. } ==> world.wf()
    }

    /// The state in which the program starts: the main menu, not drawn yet.
    pub fn new() -> (state: State)
        ensures
            state.wf(),
            state.renderer.dirty(),
            state.mode matches GameMode::MainMenu(menu) && menu.selected() == 0
                && menu.items().len() == 3,
    {
        State { mode: GameMode::MainMenu(crate::meta::main_menu()), renderer: Renderer::new() }
    }

    /// A tick on the main menu.
    fn tick_menu(&mut self, rng: &mut GameRng, keys: &Vec<VirtualKeyCode>) -> (r: Result<
        TickAction,
        StoreError,
    >)
        requires
            old(self).wf(),
            old(self).mode is MainMenu,
        ensures
            final(self).wf(),
            menu_ticked(*old(self), *final(self), keys@, r),
    {
        let result = match &mut self.mode {
            GameMode::MainMenu(menu) => keydown_handler(keys, menu),
            _ => MenuResult::Nothing,
        };
        match result {
            MenuResult::Nothing => Ok(TickAction::Continue),
            MenuResult::Updated => {
                self.renderer.mark_dirty();
                Ok(TickAction::Continue)
            },
            MenuResult::Back => Ok(TickAction::Quit),
            MenuResult::Selected(text) => {
                if text == NEW_GAME.to_owned() {
                    match new_game(rng, false, DefaultGenerator::new()) {
                        Ok(mode) => {
                            self.mode = mode;
                        },
                        Err(e) => {
                            return Err(e);
                        },
                    }
                    self.renderer.mark_dirty();
                    Ok(TickAction::Continue)
                } else if text == LOAD_GAME.to_owned() {
                    Ok(TickAction::LoadGame)
                } else if text == CREATIVE_MODE.to_owned() {
                    match new_game(rng, true, EmptyGenerator) {
                        Ok(mode) => {
                            self.mode = mode;
                        },
                        Err(e) => {
                            return Err(e);
                        },
                    }
                    self.renderer.mark_dirty();
                    Ok(TickAction::Continue)
                } else {
                    Ok(TickAction::Continue)
                }
            },
        }
    }
}

impl State {
    /// A tick in a game.
    fn tick_game(
        &mut self,
        rng: &mut GameRng,
        keys: &Vec<VirtualKeyCode>,
        clicks: &Vec<ClickEvent>,
    ) -> (r: Result<TickAction, StoreError>)
        requires
            old(self).wf(),
            old(self).mode is InGame,
        ensures
            final(self).wf(),
            game_ticked(*old(self), *final(self), keys@, clicks@, r),
    {
        let mut won = false;
        let mut changed = false;
        let result = match &mut self.mode {
            GameMode::InGame { world, player, selected_point, .. } => {
                if clicks.len() > 0 {
                    *selected_point = Some(clicks[0].pos);
                    changed = true;
                }
                match in_game_keydown_handler(world, keys, *player) {
                    Err(e) => Err(e),
                    Ok(Some(_)) => {
                        won = true;
                        Ok(TickAction::Continue)
                    },
                    Ok(None) => {
                        match player::outstanding_turns(world) {
                            Err(e) => Err(e),
                            Ok(due) => {
                                if due > 0 {
                                    match simulate_turn(world, rng) {
                                        Err(e) => Err(e),
                                        Ok(outcome) => {
                                            changed = true;
                                            won = outcome == TurnOutcome::WonGame;
                                            Ok(TickAction::Continue)
                                        },
                                    }
                                } else {
                                    Ok(TickAction::Continue)
                                }
                            },
                        }
                    },
                }
            },
            _ => Ok(TickAction::Continue),
        };
        if won {
            self.mode = GameMode::WonGame;
            self.renderer.mark_dirty();
        } else if changed {
            self.renderer.mark_dirty();
        }
        result
    }

    /// A tick after the game is won.
    fn tick_won(&mut self, keys: &Vec<VirtualKeyCode>) -> (r: Result<TickAction, StoreError>)
        requires
            old(self).mode is WonGame,
        ensures
            final(self).wf(),
            won_ticked(*final(self), keys@, r),
    {
        won_game_keydown_handler(keys, &mut self.mode);
        self.renderer.mark_dirty();
        Ok(TickAction::Continue)
    }

    /// One tick of the program: the keys and clicks that came in since the
    /// last tick are handled in the mode that the program is in, and in a
    /// game with an outstanding turn, one turn is played.
    ///
    /// On the main menu, see `menu_ticked`; in a game, see `game_ticked`;
    /// after a game is won, see `won_ticked`.
    pub fn tick(
        &mut self,
        rng: &mut GameRng,
        keys: &Vec<VirtualKeyCode>,
        clicks: &Vec<ClickEvent>,
    ) -> (r: Result<TickAction, StoreError>)
        requires
            old(self).wf(),
        ensures
            final(self).wf(),
            match old(self).mode {
                GameMode::MainMenu(_) => menu_ticked(*old(self), *final(self), keys@, r),
                GameMode::InGame { .. } => game_ticked(
                    *old(self),
                    *final(self),
                    keys@,
                    clicks@,
                    r,
                ),
                GameMode::WonGame => won_ticked(*final(self), keys@, r),
            },
    {
        let kind: u8 = match &self.mode {
            GameMode::MainMenu(_) => 0,
            GameMode::InGame { .. } => 1,
            GameMode::WonGame => 2,
        };
        if kind == 0 {
            self.tick_menu(rng, keys)
        } else if kind == 1 {
            self.tick_game(rng, keys, clicks)
        } else {
            self.tick_won(keys)
        }
    }
}

/// Whether `after` is the state after a tick on a won game with the keys
/// `keys` and the result `r`: any key leads back to the main menu, and the
/// console is to be drawn again.
pub open spec fn won_ticked(
    after: State,
    keys: Seq<VirtualKeyCode>,
    r: Result<TickAction, StoreError>,
) -> bool {
    &&& r == Ok::<TickAction, StoreError>(TickAction::Continue)
    &&& after.renderer.dirty()
    &&& keys.len() == 0 ==> after.mode is WonGame
    &&& keys.len() > 0 ==> after.mode is MainMenu && after.mode->MainMenu_0.wf()
        && after.mode->MainMenu_0.selected() == 0 && after.mode->MainMenu_0.items().len() == 3
}

/// Whether `after` is `before` after a tick in a game with the keys `keys`,
/// the clicks `clicks` and the result `r`.
///
/// The first click selects its point. The keys are handled, see `keyed`: a key
/// that fails fails the tick, and a key that wins the game ends it. Then, if a
/// turn is outstanding, one turn is played, see `turn_played`: a turn that
/// fails fails the tick, with the world as it was before the turn, and a turn
/// that wins the game ends it. A world without a player fails the tick.
pub open spec fn game_ticked(
    before: State,
    after: State,
    keys: Seq<VirtualKeyCode>,
    clicks: Seq<ClickEvent>,
    r: Result<TickAction, StoreError>,
) -> bool {
    let m = before.mode->InGame_world@;
    let player = before.mode->InGame_player;
    let effect = keyed(m, player.id, keys);
    let stays = {
        &&& after.mode is InGame
        &&& after.mode->InGame_player == player
        &&& after.mode->InGame_is_creative == before.mode->InGame_is_creative
        &&& after.mode->InGame_selected_point == clicked(
            before.mode->InGame_selected_point,
            clicks,
        )
    };
    let ends = r == Ok::<TickAction, StoreError>(TickAction::Continue) && after.mode is WonGame
        && after.renderer.dirty();
    if m.player.is_none() {
        r == Err::<TickAction, StoreError>(StoreError::NoPlayer) && stays
            && after.mode->InGame_world@ == m
    } else {
        match effect {
            KeyEffect::Failed(left, e) => r == Err::<TickAction, StoreError>(e) && stays
                && after.mode->InGame_world@ == left,
            KeyEffect::Won(_) => ends,
            KeyEffect::Continue(left) => if left.player.is_none() {
                r == Err::<TickAction, StoreError>(StoreError::NoPlayer) && stays
                    && after.mode->InGame_world@ == left
            } else if turn_due(left) {
                match r {
                    Err(e) => turn_failed(left, e) && stays && after.mode->InGame_world@ == left,
                    Ok(action) => action == TickAction::Continue && after.renderer.dirty() && (
                    if after.mode is WonGame {
                        exists|z: WorldView| #[trigger] turn_played(left, z, TurnOutcome::WonGame)
                    } else {
                        stays && turn_played(
                            left,
                            after.mode->InGame_world@,
                            TurnOutcome::Continue,
                        )
                    }),
                }
            } else {
                &&& r == Ok::<TickAction, StoreError>(TickAction::Continue)
                &&& stays
                &&& after.mode->InGame_world@ == left
                &&& after.renderer.dirty() == (before.renderer.dirty() || clicks.len() > 0)
            },
        }
    }
}

/// Whether `after` is `before` after a tick on the main menu with the keys
/// `keys` and the result `r`.
///
/// The first key that means something to the menu decides. An arrow key moves
/// the selection. Escape asks the caller to quit. Space or enter chooses the
/// selected entry: a new game or a creative game starts at once, loading a
/// game is left to the caller, and any other entry does nothing.
pub open spec fn menu_ticked(
    before: State,
    after: State,
    keys: Seq<VirtualKeyCode>,
    r: Result<TickAction, StoreError>,
) -> bool {
    let menu = before.mode->MainMenu_0;
    let at = first_menu_key(keys);
    if at == keys.len() {
        r == Ok::<TickAction, StoreError>(TickAction::Continue) && after == before
    } else {
        match menu_key(keys[at]) {
            MenuKey::Step(i) => {
                &&& r == Ok::<TickAction, StoreError>(TickAction::Continue)
                &&& after.renderer.dirty()
                &&& after.mode is MainMenu
                &&& after.mode->MainMenu_0.items() == menu.items()
                &&& after.mode->MainMenu_0.top_left() == menu.top_left()
                &&& after.mode->MainMenu_0.selected() == (menu.selected() + i) % (
                menu.items().len() as int)
            },
            MenuKey::Leave => r == Ok::<TickAction, StoreError>(TickAction::Quit) && after
                == before,
            MenuKey::Choose => {
                let text = menu.items()[menu.selected()]@;
                if text == NEW_GAME@ {
                    &&& r == Ok::<TickAction, StoreError>(TickAction::Continue)
                    &&& after.renderer.dirty()
                    &&& started(after.mode, false)
                } else if text == LOAD_GAME@ {
                    r == Ok::<TickAction, StoreError>(TickAction::LoadGame) && after == before
                } else if text == CREATIVE_MODE@ {
                    &&& r == Ok::<TickAction, StoreError>(TickAction::Continue)
                    &&& after.renderer.dirty()
                    &&& started(after.mode, true)
                } else {
                    r == Ok::<TickAction, StoreError>(TickAction::Continue) && after == before
                }
            },
            MenuKey::Ignored => false,
        }
    }
}

/// Whether `mode` is the mode of a game that has just started, creative or
/// not: no turn is played or outstanding, and the world is the seeded world
/// with some layout placed.
pub open spec fn started(mode: GameMode, creative: bool) -> bool {
    &&& mode matches GameMode::InGame { world, player, is_creative, selected_point }
    &&& world.wf()
    &&& is_creative == creative
    &&& selected_point.is_none()
    &&& player.id == 1
    &&& world@.player matches Some(p)
    &&& p.entity == player
    &&& p.is_creative == creative
    &&& p.turn == 0
    &&& p.outstanding_turns == 0
    &&& p.level@ == "0"@
    &&& exists|layout: Seq<(Tile, i64, i64)>| #[trigger] laid_out(world@, p, layout)
}

} // verus!
