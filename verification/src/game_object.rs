//! The kinds of game object and the values they are drawn with.

use crate::component::actor::Actor;
use crate::component::ai::AiDirective;
use crate::component::collision::{
    create_passable_tiles_view, passable_row, views, Collision, PassableTile,
};
use crate::component::health::Health;
use crate::component::velocity::Velocity;
use crate::component::{actor, ai, collision, health, player, velocity};
use crate::entity::{self, Entity};
use crate::error::StoreError;
use crate::rng::GameRng;
use crate::world::{World, WorldView};
use vstd::prelude::*;

verus! {

/// The level identifier that ends the game in victory.
pub const WIN_LEVEL: &'static str = "win";

/// A tile position in the world.
#[derive(Debug, PartialEq, Eq, Clone, Copy, Structural)]
pub struct WorldPoint {
    pub x: i64,
    pub y: i64,
}

/// An RGB colour.
#[derive(Debug, PartialEq, Eq, Clone, Copy, Structural)]
pub struct Color {
    pub r: u8,
    pub g: u8,
    pub b: u8,
}

impl Color {
    /// The colour with the given red, green and blue parts.
    pub fn from_u8s(c: (u8, u8, u8)) -> (color: Color)
        ensures
            color == (Color { r: c.0, g: c.1, b: c.2 }),
    {
        let (r, g, b) = c;
        Color { r, g, b }
    }
}

/// The colour of floor tiles.
pub fn ground_color() -> (c: Color)
    ensures
        c == (Color { r: 80, g: 80, b: 80 }),
{
    Color { r: 80, g: 80, b: 80 }
}

/// The colour of particles.
pub fn particle_color() -> (c: Color)
    ensures
        c == (Color { r: 200, g: 200, b: 200 }),
{
    Color { r: 200, g: 200, b: 200 }
}

/// The colour of enemies.
pub fn enemy_color() -> (c: Color)
    ensures
        c == (Color { r: 255, g: 255, b: 255 }),
{
    Color { r: 255, g: 255, b: 255 }
}

/// The colour of the player.
pub fn player_color() -> (c: Color)
    ensures
        c == (Color { r: 255, g: 255, b: 255 }),
{
    Color { r: 255, g: 255, b: 255 }
}

/// The colour of walls.
pub fn wall_color() -> (c: Color)
    ensures
        c == (Color { r: 255, g: 255, b: 255 }),
{
    Color { r: 255, g: 255, b: 255 }
}

/// The colour of staircases.
pub fn stair_color() -> (c: Color)
    ensures
        c == (Color { r: 255, g: 255, b: 255 }),
{
    Color { r: 255, g: 255, b: 255 }
}

/// The colour behind every glyph.
pub fn background_color() -> (c: Color)
    ensures
        c == (Color { r: 0, g: 0, b: 0 }),
{
    Color { r: 0, g: 0, b: 0 }
}

/// Foreground and background of one menu line.
#[derive(Debug, PartialEq, Eq, Clone, Copy, Structural)]
pub struct MenuColor {
    pub fg: Color,
    pub bg: Color,
}

/// The colours of a menu line that is not selected.
pub fn menu_color_unselected() -> (c: MenuColor)
    ensures
        c == (MenuColor { fg: Color { r: 255, g: 255, b: 255 }, bg: Color { r: 0, g: 0, b: 0 } }),
{
    MenuColor { fg: Color { r: 255, g: 255, b: 255 }, bg: Color { r: 0, g: 0, b: 0 } }
}

/// The colours of the selected menu line.
pub fn menu_color_selected() -> (c: MenuColor)
    ensures
        c == (MenuColor { fg: Color { r: 0, g: 0, b: 0 }, bg: Color { r: 255, g: 255, b: 255 } }),
{
    MenuColor { fg: Color { r: 0, g: 0, b: 0 }, bg: Color { r: 255, g: 255, b: 255 } }
}

/// The draw layer of an actor. Where actors share a tile, the lowest layer is
/// the one that shows.
#[derive(Clone, Copy, Debug, PartialEq, Eq, Structural)]
pub enum Plane {
    Player,
    Enemies,
    Particles,
    Objects,
    Wall,
    Ground,
}

impl Plane {
    /// The layer number of the plane.
    pub open spec fn layer(self) -> int {
        match self {
            Plane::Player => 0,
            Plane::Enemies => 5,
            Plane::Particles => 10,
            Plane::Objects => 90,
            Plane::Wall => 99,
            Plane::Ground => 100,
        }
    }

    /// The place of the plane in the drawing order, from 0 for the topmost.
    pub open spec fn rank(self) -> int {
        match self {
            Plane::Player => 0,
            Plane::Enemies => 1,
            Plane::Particles => 2,
            Plane::Objects => 3,
            Plane::Wall => 4,
            Plane::Ground => 5,
        }
    }

    /// The plane at place `n` of the drawing order.
    pub fn nth(n: usize) -> (p: Plane)
        requires
            n < 6,
        ensures
            p.rank() == n,
    {
        if n == 0 {
            Plane::Player
        } else if n == 1 {
            Plane::Enemies
        } else if n == 2 {
            Plane::Particles
        } else if n == 3 {
            Plane::Objects
        } else if n == 4 {
            Plane::Wall
        } else {
            Plane::Ground
        }
    }

    /// The layer number, as it is written to a store column.
    pub fn to_sql(&self) -> (n: i64)
        ensures
            n == self.layer(),
    {
        match self {
            Plane::Player => 0,
            Plane::Enemies => 5,
            Plane::Particles => 10,
            Plane::Objects => 90,
            Plane::Wall => 99,
            Plane::Ground => 100,
        }
    }

    /// The plane whose layer number is `value`, if there is one.
    pub fn column_result(value: i64) -> (r: Option<Plane>)
        ensures
            r matches Some(p) ==> p.layer() == value,
            r.is_none() ==> forall|p: Plane| p.layer() != value,
    {
        if value == 0 {
            Some(Plane::Player)
        } else if value == 5 {
            Some(Plane::Enemies)
        } else if value == 10 {
            Some(Plane::Particles)
        } else if value == 90 {
            Some(Plane::Objects)
        } else if value == 99 {
            Some(Plane::Wall)
        } else if value == 100 {
            Some(Plane::Ground)
        } else {
            None
        }
    }
}

/// Creates the player: a new entity with the player row, no velocity, and a
/// solid body. Its actor comes later, with the map. Fails, changing nothing,
/// when the world has a player already (`DuplicateRow`), or else when the
/// identifiers have run out (`IdsExhausted`).
pub fn init_player(world: &mut World, is_creative: bool) -> (r: Result<Entity, StoreError>)
    requires
        old(world).wf(),
    ensures
        final(world).wf(),
        r.is_ok() == (old(world)@.player.is_none() && old(world)@.next_id < i64::MAX),
        r matches Ok(e) ==> {
            let p = final(world)@.player.unwrap();
            &&& e.id == old(world)@.next_id
            &&& final(world)@ == old(world)@.with_new_entity().with_player(p).with_velocity(
                e.id,
                Velocity { dx: 0, dy: 0 },
            ).with_collision(e.id, Collision { ground: false, solid: true, ephemeral: false })
            &&& p.entity == e
            &&& p.is_creative == is_creative
            &&& p.turn == 0
            &&& p.outstanding_turns == 0
            &&& p.level@ == "0"@
        },
        r.is_err() ==> final(world)@ == old(world)@,
        r matches Err(e) ==> e == (if old(world)@.player.is_some() {
            StoreError::DuplicateRow
        } else {
            StoreError::IdsExhausted
        }),
{
    if entity::load_player(world).is_ok() {
        return Err(StoreError::DuplicateRow);
    }
    let e = match entity::create(world) {
        Ok(e) => e,
        Err(err) => {
            return Err(err);
        },
    };
    let set = player::set(world, e, is_creative);
    assert(set.is_ok());
    let set = velocity::set(world, e, 0, 0);
    assert(set.is_ok());
    let set = collision::set(world, e, false, true, false);
    assert(set.is_ok());
    Ok(e)
}

/// The world after a tile entity was created: a new entity with the actor
/// `a`, which must name it, and the collision flags `c`.
pub open spec fn with_tile(m: WorldView, a: Actor, c: Collision) -> WorldView {
    m.with_new_entity().with_actor(a).with_collision(a.entity.id, c)
}

/// Creates a tile entity on `pos`: a new entity with an actor of the given
/// looks and the given ground and solid flags. Fails, changing nothing, only
/// when the identifiers have run out.
fn init_tile(
    world: &mut World,
    tile: &str,
    pos: WorldPoint,
    color: Color,
    plane: Plane,
    solid: bool,
) -> (r: Result<Entity, StoreError>)
    requires
        old(world).wf(),
    ensures
        final(world).wf(),
        r.is_ok() == (old(world)@.next_id < i64::MAX),
        r matches Ok(e) ==> {
            let a = final(world)@.actors[e.id];
            &&& e.id == old(world)@.next_id
            &&& final(world)@ == with_tile(
                old(world)@,
                a,
                Collision { ground: true, solid, ephemeral: false },
            )
            &&& a.entity == e
            &&& a.tile@ == tile@
            &&& a.pos == pos
            &&& a.color == color
            &&& a.plane == plane
        },
        r matches Err(e) ==> e == StoreError::IdsExhausted && final(world)@ == old(world)@,
{
    let e = match entity::create(world) {
        Ok(e) => e,
        Err(err) => {
            return Err(err);
        },
    };
    let set = actor::set(world, Actor { entity: e, tile: tile.to_owned(), pos, color, plane });
    assert(set.is_ok());
    let set = collision::set(world, e, true, solid, false);
    assert(set.is_ok());
    Ok(e)
}

/// Creates a floor tile on `pos`: ground that is not solid, drawn as "." on
/// the ground plane. Fails, changing nothing, only when the identifiers have
/// run out.
pub fn init_floor(world: &mut World, pos: WorldPoint) -> (r: Result<Entity, StoreError>)
    requires
        old(world).wf(),
    ensures
        final(world).wf(),
        r.is_ok() == (old(world)@.next_id < i64::MAX),
        r matches Ok(e) ==> {
            let a = final(world)@.actors[e.id];
            &&& e.id == old(world)@.next_id
            &&& final(world)@ == with_tile(
                old(world)@,
                a,
                Collision { ground: true, solid: false, ephemeral: false },
            )
            &&& a.entity == e
            &&& a.tile@ == "."@
            &&& a.pos == pos
            &&& a.color == (Color { r: 80, g: 80, b: 80 })
            &&& a.plane == Plane::Ground
        },
        r matches Err(e) ==> e == StoreError::IdsExhausted && final(world)@ == old(world)@,
{
    init_tile(world, ".", pos, ground_color(), Plane::Ground, false)
}

/// Creates a wall tile on `pos`: ground that is solid, drawn as `tile` on the
/// wall plane. Fails, changing nothing, only when the identifiers have run
/// out.
pub fn init_wall(world: &mut World, tile: &str, pos: WorldPoint) -> (r: Result<Entity, StoreError>)
    requires
        old(world).wf(),
    ensures
        final(world).wf(),
        r.is_ok() == (old(world)@.next_id < i64::MAX),
        r matches Ok(e) ==> {
            let a = final(world)@.actors[e.id];
            &&& e.id == old(world)@.next_id
            &&& final(world)@ == with_tile(
                old(world)@,
                a,
                Collision { ground: true, solid: true, ephemeral: false },
            )
            &&& a.entity == e
            &&& a.tile@ == tile@
            &&& a.pos == pos
            &&& a.color == (Color { r: 255, g: 255, b: 255 })
            &&& a.plane == Plane::Wall
        },
        r matches Err(e) ==> e == StoreError::IdsExhausted && final(world)@ == old(world)@,
{
    init_tile(world, tile, pos, wall_color(), Plane::Wall, true)
}

/// Whether `after` is `before` with one creature spawned: a new entity with
/// the health `(lifespan, lifespan, -1)`, the collision flags `c`, the
/// directive `d` if one is given, a velocity `v` with `steady ==> v == 0`
/// and both parts between -1 and 1, and, where `before` has a passable tile,
/// an actor on one of them, drawn as `tile` in `color` on `plane`. Where it
/// has none, the creature has no actor.
pub open spec fn spawned(
    before: WorldView,
    after: WorldView,
    lifespan: i64,
    c: Collision,
    d: Option<AiDirective>,
    steady: bool,
    tile: Seq<char>,
    color: Color,
    plane: Plane,
) -> bool {
    let e = before.next_id;
    &&& before.next_id < i64::MAX
    &&& after.next_id == before.next_id + 1
    &&& after.entities == before.entities.insert(e)
    &&& after.player == before.player
    &&& after.transitions == before.transitions
    &&& after.healths == before.healths.insert(
        e,
        Health { max: lifespan, current: lifespan, regen: -1i64 },
    )
    &&& after.collisions == before.collisions.insert(e, c)
    &&& after.ais == (match d {
        Some(directive) => before.ais.insert(e, directive),
        None => before.ais,
    })
    &&& after.velocities.dom().contains(e)
    &&& after.velocities == before.velocities.insert(e, after.velocities[e])
    &&& -1 <= after.velocities[e].dx <= 1
    &&& -1 <= after.velocities[e].dy <= 1
    &&& steady ==> after.velocities[e] == (Velocity { dx: 0, dy: 0 })
    &&& if exists|p: WorldPoint| before.passable(p) {
        &&& after.actors.dom().contains(e)
        &&& after.actors == before.actors.insert(e, after.actors[e])
        &&& after.actors[e].entity.id == e
        &&& after.actors[e].tile@ == tile
        &&& after.actors[e].color == color
        &&& after.actors[e].plane == plane
        &&& before.passable(after.actors[e].pos)
    } else {
        after.actors == before.actors
    }
}

/// Whether `after` is `before` with one particle spawned: see `spawned`. A
/// particle is ephemeral, neither ground nor solid, drifts by a random
/// velocity, and is drawn as "*".
pub open spec fn particle_spawned(before: WorldView, after: WorldView, lifespan: i64) -> bool {
    spawned(
        before,
        after,
        lifespan,
        Collision { ground: false, solid: false, ephemeral: true },
        None,
        false,
        "*"@,
        Color { r: 200, g: 200, b: 200 },
        Plane::Particles,
    )
}

/// Whether `after` is `before` with one enemy spawned: see `spawned`. An enemy
/// is solid, stands still until its directive moves it, seeks the player, and
/// is drawn as "x".
pub open spec fn enemy_spawned(before: WorldView, after: WorldView, lifespan: i64) -> bool {
    spawned(
        before,
        after,
        lifespan,
        Collision { ground: false, solid: true, ephemeral: false },
        Some(AiDirective::TargetPlayer),
        true,
        "x"@,
        Color { r: 255, g: 255, b: 255 },
        Plane::Enemies,
    )
}

/// Spawns one particle that lives `lifespan` turns, on a passable tile drawn
/// at random: see `particle_spawned`. Fails, changing nothing, only when the
/// identifiers have run out.
pub fn generate_particles(world: &mut World, rng: &mut GameRng, lifespan: i64) -> (r: Result<
    (),
    StoreError,
>)
    requires
        old(world).wf(),
    ensures
        final(world).wf(),
        r.is_ok() == (old(world)@.next_id < i64::MAX),
        r.is_ok() ==> particle_spawned(old(world)@, final(world)@, lifespan),
        r matches Err(e) ==> e == StoreError::IdsExhausted && final(world)@ == old(world)@,
{
    let tiles = create_passable_tiles_view(world);
    generate_particles_on(world, rng, &tiles, lifespan)
}

/// Spawns one enemy that lives `lifespan` turns, on a passable tile drawn at
/// random: see `enemy_spawned`. Fails, changing nothing, only when the
/// identifiers have run out.
pub fn generate_enemies(world: &mut World, rng: &mut GameRng, lifespan: i64) -> (r: Result<
    (),
    StoreError,
>)
    requires
        old(world).wf(),
    ensures
        final(world).wf(),
        r.is_ok() == (old(world)@.next_id < i64::MAX),
        r.is_ok() ==> enemy_spawned(old(world)@, final(world)@, lifespan),
        r matches Err(e) ==> e == StoreError::IdsExhausted && final(world)@ == old(world)@,
{
    let tiles = create_passable_tiles_view(world);
    generate_enemies_on(world, rng, &tiles, lifespan)
}

/// Spawns one particle on the tile of a row drawn from `tiles`, which stand
/// for the passable-tile view: see `generate_particles`. The rows stand for
/// the view of the world with the particle as well, since a particle is no
/// ground.
pub fn generate_particles_on(
    world: &mut World,
    rng: &mut GameRng,
    tiles: &Vec<PassableTile>,
    lifespan: i64,
) -> (r: Result<(), StoreError>)
    requires
        old(world).wf(),
        views(old(world)@, tiles@),
    ensures
        final(world).wf(),
        views(final(world)@, tiles@),
        r.is_ok() == (old(world)@.next_id < i64::MAX),
        r.is_ok() ==> particle_spawned(old(world)@, final(world)@, lifespan),
        r matches Err(e) ==> e == StoreError::IdsExhausted && final(world)@ == old(world)@,
{
    proof {
        world.lemma_wf_valid();
    }
    let e = match entity::create(world) {
        Ok(e) => e,
        Err(err) => {
            return Err(err);
        },
    };
    proof {
        lemma_new_entity_keeps_tiles(old(world)@);
        lemma_new_entity_keeps_view(old(world)@, tiles@);
    }
    let placed = actor::set_on_one_of(world, rng, tiles, e, "*", particle_color(), Plane::Particles);
    assert(placed.is_ok());
    let set = velocity::set_random(world, rng, e, -1, 1);
    assert(set.is_ok());
    let set = health::set(world, e, lifespan, lifespan, -1);
    assert(set.is_ok());
    let set = collision::set(world, e, false, false, true);
    assert(set.is_ok());
    proof {
        lemma_spawn_keeps_view(
            old(world)@,
            world@,
            tiles@,
            lifespan,
            Collision { ground: false, solid: false, ephemeral: true },
            None,
            false,
            "*"@,
            Color { r: 200, g: 200, b: 200 },
            Plane::Particles,
        );
    }
    Ok(())
}

/// Spawns one enemy on the tile of a row drawn from `tiles`, which stand for
/// the passable-tile view: see `generate_enemies`. The rows stand for the view
/// of the world with the enemy as well, since an enemy is no ground.
pub fn generate_enemies_on(
    world: &mut World,
    rng: &mut GameRng,
    tiles: &Vec<PassableTile>,
    lifespan: i64,
) -> (r: Result<(), StoreError>)
    requires
        old(world).wf(),
        views(old(world)@, tiles@),
    ensures
        final(world).wf(),
        views(final(world)@, tiles@),
        r.is_ok() == (old(world)@.next_id < i64::MAX),
        r.is_ok() ==> enemy_spawned(old(world)@, final(world)@, lifespan),
        r matches Err(e) ==> e == StoreError::IdsExhausted && final(world)@ == old(world)@,
{
    proof {
        world.lemma_wf_valid();
    }
    let e = match entity::create(world) {
        Ok(e) => e,
        Err(err) => {
            return Err(err);
        },
    };
    proof {
        lemma_new_entity_keeps_tiles(old(world)@);
        lemma_new_entity_keeps_view(old(world)@, tiles@);
    }
    let placed = actor::set_on_one_of(world, rng, tiles, e, "x", enemy_color(), Plane::Enemies);
    assert(placed.is_ok());
    let set = velocity::set(world, e, 0, 0);
    assert(set.is_ok());
    let set = health::set(world, e, lifespan, lifespan, -1);
    assert(set.is_ok());
    let set = collision::set(world, e, false, true, false);
    assert(set.is_ok());
    let set = ai::set_target_player(world, e);
    assert(set.is_ok());
    proof {
        lemma_spawn_keeps_view(
            old(world)@,
            world@,
            tiles@,
            lifespan,
            Collision { ground: false, solid: true, ephemeral: false },
            Some(AiDirective::TargetPlayer),
            true,
            "x"@,
            Color { r: 255, g: 255, b: 255 },
            Plane::Enemies,
        );
    }
    Ok(())
}

/// Registering an entity leaves the passable-tile view as it is.
pub proof fn lemma_new_entity_keeps_view(m: WorldView, tiles: Seq<PassableTile>)
    requires
        views(m, tiles),
    ensures
        views(m.with_new_entity(), tiles),
{
    lemma_new_entity_keeps_tiles(m);
    let n = m.with_new_entity();
    assert forall|i: int| 0 <= i < tiles.len() implies passable_row(
        n,
        (#[trigger] tiles[i]).entity.id,
        tiles[i].pos,
    ) by {
        assert(passable_row(m, tiles[i].entity.id, tiles[i].pos));
    }
    if exists|p: WorldPoint| m.passable(p) {
        let p = choose|p: WorldPoint| m.passable(p);
        assert(n.passable(p));
    }
    if exists|p: WorldPoint| n.passable(p) {
        let p = choose|p: WorldPoint| n.passable(p);
        assert(m.passable(p));
    }
}

/// A creature that is no ground changes no tile: with it, the tiles that were
/// passable are passable, and no others.
pub proof fn lemma_spawn_keeps_tiles(
    before: WorldView,
    after: WorldView,
    lifespan: i64,
    c: Collision,
    d: Option<AiDirective>,
    steady: bool,
    tile: Seq<char>,
    color: Color,
    plane: Plane,
)
    requires
        before.valid(),
        !c.ground,
        spawned(before, after, lifespan, c, d, steady, tile, color, plane),
    ensures
        forall|p: WorldPoint, s: bool| after.occupied(p, true, s) == before.occupied(p, true, s),
        forall|p: WorldPoint| after.passable(p) == before.passable(p),
        forall|e: i64, p: WorldPoint| passable_row(before, e, p) ==> passable_row(after, e, p),
{
    let new = before.next_id;
    assert(!before.entities.contains(new));
    assert forall|p: WorldPoint, s: bool| after.occupied(p, true, s) == before.occupied(
        p,
        true,
        s,
    ) by {
        if after.occupied(p, true, s) {
            let o = choose|o: i64| #[trigger] after.stands_at(o, p) && after.flagged(o, true, s);
            assert(o != new);
            assert(before.stands_at(o, p) && before.flagged(o, true, s));
        }
        if before.occupied(p, true, s) {
            let o = choose|o: i64| #[trigger] before.stands_at(o, p) && before.flagged(o, true, s);
            assert(o != new);
            assert(after.stands_at(o, p) && after.flagged(o, true, s));
        }
    }
    assert forall|p: WorldPoint| after.passable(p) == before.passable(p) by {
        assert(after.occupied(p, true, false) == before.occupied(p, true, false));
        assert(after.occupied(p, true, true) == before.occupied(p, true, true));
    }
    assert forall|e: i64, p: WorldPoint| passable_row(before, e, p) implies passable_row(
        after,
        e,
        p,
    ) by {
        assert(e != new);
        assert(after.passable(p) == before.passable(p));
    }
}

/// A creature that is no ground leaves the passable-tile view as it is.
pub proof fn lemma_spawn_keeps_view(
    before: WorldView,
    after: WorldView,
    tiles: Seq<PassableTile>,
    lifespan: i64,
    c: Collision,
    d: Option<AiDirective>,
    steady: bool,
    tile: Seq<char>,
    color: Color,
    plane: Plane,
)
    requires
        before.valid(),
        !c.ground,
        views(before, tiles),
        spawned(before, after, lifespan, c, d, steady, tile, color, plane),
    ensures
        views(after, tiles),
{
    lemma_spawn_keeps_tiles(before, after, lifespan, c, d, steady, tile, color, plane);
    assert forall|i: int| 0 <= i < tiles.len() implies passable_row(
        after,
        (#[trigger] tiles[i]).entity.id,
        tiles[i].pos,
    ) by {
        assert(passable_row(before, tiles[i].entity.id, tiles[i].pos));
    }
    if exists|p: WorldPoint| before.passable(p) {
        let p = choose|p: WorldPoint| before.passable(p);
        assert(after.passable(p));
    }
    if exists|p: WorldPoint| after.passable(p) {
        let p = choose|p: WorldPoint| after.passable(p);
        assert(before.passable(p));
    }
}

/// Registering an entity changes no tile: what was passable stays passable,
/// and nothing else becomes so.
pub proof fn lemma_new_entity_keeps_tiles(m: WorldView)
    ensures
        forall|p: WorldPoint| m.with_new_entity().passable(p) == m.passable(p),
{
    let n = m.with_new_entity();
    assert forall|p: WorldPoint| n.passable(p) == m.passable(p) by {
        assert forall|g: bool, s: bool| n.occupied(p, g, s) == m.occupied(p, g, s) by {
            if n.occupied(p, g, s) {
                let e = choose|e: i64| #[trigger] n.stands_at(e, p) && n.flagged(e, g, s);
                assert(m.stands_at(e, p) && m.flagged(e, g, s));
            }
            if m.occupied(p, g, s) {
                let e = choose|e: i64| #[trigger] m.stands_at(e, p) && m.flagged(e, g, s);
                assert(n.stands_at(e, p) && n.flagged(e, g, s));
            }
        }
    }
}

} // verus!
