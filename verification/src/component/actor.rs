//! Position and appearance of an entity.

use crate::component::collision::{create_passable_tiles_view, views, PassableTile};
use crate::entity::Entity;
use crate::error::StoreError;
use crate::game_object::{Color, Plane, WorldPoint};
use crate::rng::{random_index, GameRng};
use crate::table::{lists, Table};
use crate::world::{World, WorldView};
use vstd::prelude::*;

verus! {

/// Where an entity stands and how it is drawn.
#[derive(Debug)]
pub struct Actor {
    pub entity: Entity,
    pub tile: String,
    pub pos: WorldPoint,
    pub color: Color,
    pub plane: Plane,
}

impl Clone for Actor {
    fn clone(&self) -> (r: Self)
        ensures
            r == *self,
    {
        Actor {
            entity: self.entity,
            tile: self.tile.clone(),
            pos: self.pos,
            color: self.color,
            plane: self.plane,
        }
    }
}

/// Whether the actor of `o` hides the actor of `e`: both stand on one tile, and
/// `o` is on a lower layer, or on the same layer with the smaller identifier.
pub open spec fn hides(m: WorldView, o: i64, e: i64) -> bool {
    &&& m.actors.dom().contains(o)
    &&& m.actors.dom().contains(e)
    &&& m.actors[o].pos == m.actors[e].pos
    &&& (m.actors[o].plane.layer() < m.actors[e].plane.layer() || (m.actors[o].plane.layer()
        == m.actors[e].plane.layer() && o < e))
}

/// Whether the actor of `e` shows: it exists and no actor hides it.
pub open spec fn visible(m: WorldView, e: i64) -> bool {
    m.actors.dom().contains(e) && forall|o: i64| !hides(m, o, e)
}

/// Of the actors that stand on one tile, at most one shows.
pub proof fn lemma_one_visible_per_tile(m: WorldView, a: i64, b: i64)
    requires
        visible(m, a),
        visible(m, b),
        m.actors[a].pos == m.actors[b].pos,
    ensures
        a == b,
{
    assert(!hides(m, a, b));
    assert(!hides(m, b, a));
}

/// An empty actor table.
pub fn create_table() -> (t: Table<Actor>)
    ensures
        t.wf(),
        t@ == Map::<i64, Actor>::empty(),
{
    Table::new()
}

/// Gives the entity that `actor` names the actor row `actor`, in place of the
/// one it had, if any: every field is replaced. Fails, changing nothing, when
/// the registry does not hold the entity.
pub fn set(world: &mut World, actor: Actor) -> (r: Result<(), StoreError>)
    requires
        old(world).wf(),
    ensures
        final(world).wf(),
        r.is_ok() == old(world)@.entities.contains(actor.entity.id),
        r.is_ok() ==> final(world)@ == old(world)@.with_actor(actor),
        r matches Err(e) ==> e == StoreError::UnknownEntity && final(world)@ == old(world)@,
{
    proof {
        world.unfold();
    }
    if !world.entities.contains(actor.entity.id) {
        return Err(StoreError::UnknownEntity);
    }
    world.actors.upsert(actor.entity.id, actor);
    proof {
        world.unfold();
    }
    Ok(())
}

/// Gives the entity that `actor` names its first actor row. Fails, changing
/// nothing, when the registry does not hold the entity (`UnknownEntity`), or
/// else when the entity has an actor already (`DuplicateRow`).
pub fn insert(world: &mut World, actor: Actor) -> (r: Result<(), StoreError>)
    requires
        old(world).wf(),
    ensures
        final(world).wf(),
        r.is_ok() == (old(world)@.entities.contains(actor.entity.id) && !old(
            world,
        )@.actors.dom().contains(actor.entity.id)),
        r.is_ok() ==> final(world)@ == old(world)@.with_actor(actor),
        r.is_err() ==> final(world)@ == old(world)@,
        r matches Err(e) ==> e == (if old(world)@.entities.contains(actor.entity.id) {
            StoreError::DuplicateRow
        } else {
            StoreError::UnknownEntity
        }),
{
    proof {
        world.unfold();
    }
    if !world.entities.contains(actor.entity.id) {
        return Err(StoreError::UnknownEntity);
    }
    if world.actors.contains(actor.entity.id) {
        return Err(StoreError::DuplicateRow);
    }
    world.actors.upsert(actor.entity.id, actor);
    proof {
        world.unfold();
    }
    Ok(())
}

/// Places a new actor for `entity` on a tile drawn from the passable-tile view.
///
/// Where the view is empty nothing is drawn or changed, and the result is
/// `Ok(false)`. Otherwise one row of the view is drawn, each with the same
/// chance, and the actor is inserted on its tile: the result is `Ok(true)`, or
/// the error of `insert`, with nothing changed.
pub fn set_on_random_empty_ground(
    world: &mut World,
    rng: &mut GameRng,
    entity: Entity,
    tile: &str,
    color: Color,
    plane: Plane,
) -> (r: Result<bool, StoreError>)
    requires
        old(world).wf(),
    ensures
        final(world).wf(),
        placed_on_ground(old(world)@, final(world)@, entity, tile@, color, plane, r),
{
    let tiles = create_passable_tiles_view(world);
    set_on_one_of(world, rng, &tiles, entity, tile, color, plane)
}

/// Whether `after` and `r` are the world and the result of placing a new actor
/// for `entity` on a passable tile of `before`.
///
/// Where `before` has no passable tile, nothing changes, and the result is
/// `Ok(false)`. Otherwise the registry must hold the entity, which must have
/// no actor yet: then it gets an actor of the given looks on a passable tile,
/// and the result is `Ok(true)`. Else nothing changes, and the result is
/// `UnknownEntity`, or `DuplicateRow` for an entity that the registry holds.
pub open spec fn placed_on_ground(
    before: WorldView,
    after: WorldView,
    entity: Entity,
    tile: Seq<char>,
    color: Color,
    plane: Plane,
    r: Result<bool, StoreError>,
) -> bool {
    if !(exists|p: WorldPoint| before.passable(p)) {
        r == Ok::<bool, StoreError>(false) && after == before
    } else if !before.entities.contains(entity.id) {
        r == Err::<bool, StoreError>(StoreError::UnknownEntity) && after == before
    } else if before.actors.dom().contains(entity.id) {
        r == Err::<bool, StoreError>(StoreError::DuplicateRow) && after == before
    } else {
        let a = after.actors[entity.id];
        &&& r == Ok::<bool, StoreError>(true)
        &&& after == before.with_actor(a)
        &&& a.entity == entity
        &&& a.tile@ == tile
        &&& a.color == color
        &&& a.plane == plane
        &&& before.passable(a.pos)
    }
}

/// Places a new actor for `entity` on the tile of a row drawn from `tiles`,
/// which stand for the passable-tile view: see `placed_on_ground`.
pub fn set_on_one_of(
    world: &mut World,
    rng: &mut GameRng,
    tiles: &Vec<PassableTile>,
    entity: Entity,
    tile: &str,
    color: Color,
    plane: Plane,
) -> (r: Result<bool, StoreError>)
    requires
        old(world).wf(),
        views(old(world)@, tiles@),
    ensures
        final(world).wf(),
        placed_on_ground(old(world)@, final(world)@, entity, tile@, color, plane, r),
{
    if tiles.len() == 0 {
        return Ok(false);
    }
    let pick = random_index(rng, tiles.len());
    let pos = tiles[pick].pos;
    match insert(world, Actor { entity, tile: tile.to_owned(), pos, color, plane }) {
        Ok(()) => Ok(true),
        Err(e) => Err(e),
    }
}

/// Whether row `i` of the actor table shows.
fn row_visible(world: &World, i: usize) -> (b: bool)
    requires
        world.wf(),
        i < world.actors.keys().len(),
    ensures
        b == visible(world@, world.actors.keys()[i as int]),
{
    proof {
        world.unfold();
        world.actors.lemma_row(i as int);
    }
    let k = world.actors.key_at(i);
    let pos = world.actors.value_at(i).pos;
    let layer = world.actors.value_at(i).plane.to_sql();
    let mut j: usize = 0;
    while j < world.actors.len()
        invariant
            world.tables_wf(),
            world@.actors == world.actors@,
            i < world.actors.keys().len(),
            world.actors.keys()[i as int] == k,
            world@.actors.dom().contains(k),
            world@.actors[k].pos == pos,
            world@.actors[k].plane.layer() == layer,
            j <= world.actors.keys().len(),
            forall|r: int| 0 <= r < j ==> !hides(world@, #[trigger] world.actors.keys()[r], k),
        decreases world.actors.keys().len() - j,
    {
        let o = world.actors.key_at(j);
        let other = world.actors.value_at(j);
        proof {
            world.actors.lemma_row(j as int);
        }
        if other.pos.x == pos.x && other.pos.y == pos.y {
            let other_layer = other.plane.to_sql();
            if other_layer < layer || (other_layer == layer && o < k) {
                assert(hides(world@, o, k));
                return false;
            }
        }
        j = j + 1;
    }
    proof {
        assert forall|o: i64| !hides(world@, o, k) by {
            if world@.actors.dom().contains(o) {
                let r = world.actors.lemma_key(o);
                assert(world.actors.keys()[r] == o);
            }
        }
    }
    true
}

/// The actors that show: of the actors that stand on one tile, the one on the
/// lowest layer, and among several on that layer the one with the smallest
/// identifier. The result holds each of them once, ordered by layer, lowest
/// first, so no two of its actors stand on one tile.
pub fn get_visible(world: &World) -> (shown: Vec<Actor>)
    requires
        world.wf(),
    ensures
        forall|a: int|
            0 <= a < shown.len() ==> visible(world@, (#[trigger] shown[a]).entity.id)
                && shown[a] == world@.actors[shown[a].entity.id],
        forall|e: i64| #[trigger]
            visible(world@, e) ==> exists|a: int|
                0 <= a < shown.len() && (#[trigger] shown[a]).entity.id == e,
        forall|a: int, b: int|
            0 <= a < b < shown.len() ==> (#[trigger] shown[a]).plane.layer() <= (
            #[trigger] shown[b]).plane.layer(),
        forall|a: int, b: int|
            0 <= a < b < shown.len() ==> (#[trigger] shown[a]).pos != (#[trigger] shown[b]).pos,
{
    proof {
        world.unfold();
    }
    let mut shown: Vec<Actor> = Vec::new();
    let ghost mut rows: Seq<int> = Seq::empty();
    let n = world.actors.len();
    let mut p: usize = 0;
    while p < 6
        invariant
            world.wf(),
            world.tables_wf(),
            world@.actors == world.actors@,
            world@.valid(),
            n == world.actors.keys().len(),
            p <= 6,
            rows.len() == shown.len(),
            forall|a: int|
                0 <= a < rows.len() ==> 0 <= #[trigger] rows[a] < n && shown[a]
                    == world.actors.vals()[rows[a]] && visible(
                    world@,
                    world.actors.keys()[rows[a]],
                ) && shown[a].plane.rank() < p,
            forall|a: int, b: int|
                0 <= a < b < rows.len() ==> (shown[a].plane.rank() < shown[b].plane.rank() || (
                shown[a].plane.rank() == shown[b].plane.rank() && #[trigger] rows[a]
                    < #[trigger] rows[b])),
            forall|r: int|
                0 <= r < n && visible(world@, #[trigger] world.actors.keys()[r])
                    && world.actors.vals()[r].plane.rank() < p ==> rows.contains(r),
        decreases 6 - p,
    {
        let plane = Plane::nth(p);
        let mut i: usize = 0;
        while i < n
            invariant
                world.wf(),
                world.tables_wf(),
                world@.actors == world.actors@,
                world@.valid(),
                n == world.actors.keys().len(),
                p < 6,
                plane.rank() == p,
                i <= n,
                rows.len() == shown.len(),
                forall|a: int|
                    0 <= a < rows.len() ==> 0 <= #[trigger] rows[a] < n && shown[a]
                        == world.actors.vals()[rows[a]] && visible(
                        world@,
                        world.actors.keys()[rows[a]],
                    ) && (shown[a].plane.rank() < p || (shown[a].plane.rank() == p && rows[a]
                        < i)),
                forall|a: int, b: int|
                    0 <= a < b < rows.len() ==> (shown[a].plane.rank() < shown[b].plane.rank() || (
                    shown[a].plane.rank() == shown[b].plane.rank() && #[trigger] rows[a]
                        < #[trigger] rows[b])),
                forall|r: int|
                    0 <= r < n && visible(world@, #[trigger] world.actors.keys()[r]) && (
                    world.actors.vals()[r].plane.rank() < p || (world.actors.vals()[r].plane.rank()
                        == p && r < i)) ==> rows.contains(r),
            decreases n - i,
        {
            let row = world.actors.value_at(i);
            let take = row.plane == plane && row_visible(world, i);
            let ghost before = rows;
            let ghost shown_before = shown@;
            if take {
                shown.push(row.clone());
                proof {
                    rows = rows.push(i as int);
                }
            }
            proof {
                assert(rows.len() == shown.len());
                assert forall|a: int| 0 <= a < rows.len() implies 0 <= #[trigger] rows[a] < n
                    && shown[a] == world.actors.vals()[rows[a]] && visible(
                    world@,
                    world.actors.keys()[rows[a]],
                ) && (shown[a].plane.rank() < p || (shown[a].plane.rank() == p && rows[a] < i
                    + 1)) by {
                    if a < before.len() {
                        assert(rows[a] == before[a]);
                        assert(shown[a] == shown_before[a]);
                    }
                }
                assert forall|a: int, b: int| 0 <= a < b < rows.len() implies (
                shown[a].plane.rank() < shown[b].plane.rank() || (shown[a].plane.rank()
                    == shown[b].plane.rank() && #[trigger] rows[a] < #[trigger] rows[b])) by {
                    assert(rows[a] == before[a]);
                    assert(shown[a] == shown_before[a]);
                    if b < before.len() {
                        assert(shown[b] == shown_before[b]);
                        assert(rows[b] == before[b]);
                    }
                }
                assert forall|r: int|
                    0 <= r < n && visible(world@, #[trigger] world.actors.keys()[r]) && (
                    world.actors.vals()[r].plane.rank() < p || (world.actors.vals()[r].plane.rank()
                        == p && r < i + 1)) implies rows.contains(r) by {
                    if r == i && world.actors.vals()[r].plane.rank() == p {
                        assert(row.plane == plane);
                        assert(take);
                        assert(rows[rows.len() - 1] == r);
                    } else {
                        assert(before.contains(r));
                        let a = before.index_of(r);
                        assert(rows[a] == r);
                    }
                }
            }
            i = i + 1;
        }
        p = p + 1;
    }
    proof {
        assert forall|a: int| 0 <= a < shown.len() implies visible(
            world@,
            (#[trigger] shown[a]).entity.id,
        ) && shown[a] == world@.actors[shown[a].entity.id] by {
            world.actors.lemma_row(rows[a]);
        }
        assert forall|e: i64| #[trigger] visible(world@, e) implies exists|a: int|
            0 <= a < shown.len() && (#[trigger] shown[a]).entity.id == e by {
            let r = world.actors.lemma_key(e);
            assert(world.actors.keys()[r] == e);
            assert(rows.contains(r));
            let a = rows.index_of(r);
            world.actors.lemma_row(rows[a]);
            assert(0 <= a < shown.len() && shown[a].entity.id == e);
        }
        assert forall|a: int, b: int| 0 <= a < b < shown.len() implies (#[trigger] shown[a]).pos
            != (#[trigger] shown[b]).pos by {
            world.actors.lemma_row(rows[a]);
            world.actors.lemma_row(rows[b]);
            assert(rows[a] != rows[b]);
            if shown[a].pos == shown[b].pos {
                lemma_one_visible_per_tile(
                    world@,
                    world.actors.keys()[rows[a]],
                    world.actors.keys()[rows[b]],
                );
            }
        }
        assert forall|a: int, b: int| 0 <= a < b < shown.len() implies (
        #[trigger] shown[a]).plane.layer() <= (#[trigger] shown[b]).plane.layer() by {
            assert(rows[a] == rows[a] && rows[b] == rows[b]);
        }
    }
    shown
}

/// The number of actor rows.
pub fn count(world: &World) -> (n: usize)
    requires
        world.wf(),
    ensures
        world@.actors.dom().finite(),
        n == world@.actors.dom().len(),
{
    proof {
        world.unfold();
        world.actors.lemma_len();
    }
    world.actors.len()
}

/// The actor row of `entity`, if it has one.
pub fn get(world: &World, entity: Entity) -> (r: Option<Actor>)
    requires
        world.wf(),
    ensures
        r == (if world@.actors.dom().contains(entity.id) {
            Some(world@.actors[entity.id])
        } else {
            None
        }),
{
    proof {
        world.unfold();
    }
    match world.actors.get(entity.id) {
        Some(row) => Some(row.clone()),
        None => None,
    }
}

/// Every actor row, with its entity: each row once.
pub fn all(world: &World) -> (rows: Vec<(Entity, Actor)>)
    requires
        world.wf(),
    ensures
        lists(world@.actors, rows@),
{
    proof {
        world.unfold();
    }
    world.actors.entries()
}

} // verus!
