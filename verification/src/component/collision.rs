//! How an entity takes part in collisions, and the passable-tile view.

use crate::component::actor::Actor;
use crate::entity::Entity;
use crate::error::StoreError;
use crate::game_object::WorldPoint;
use crate::table::{lists, Table};
use crate::world::{World, WorldView};
use vstd::prelude::*;

verus! {

/// The collision flags of an entity.
#[derive(Debug, PartialEq, Eq, Clone, Copy, Structural)]
pub struct Collision {
    /// Others can stand on it.
    pub ground: bool,
    /// It blocks movement onto its tile.
    pub solid: bool,
    /// It is removed once it no longer rests on open ground.
    pub ephemeral: bool,
}

/// One row of the passable-tile view: a ground entity and the passable tile
/// that it lies on.
#[derive(Debug, PartialEq, Eq, Clone, Copy, Structural)]
pub struct PassableTile {
    pub entity: Entity,
    pub pos: WorldPoint,
}

/// Whether the passable-tile view of `m` holds the row `(e, p)`: `e` is ground,
/// stands on `p`, and `p` is passable.
pub open spec fn passable_row(m: WorldView, e: i64, p: WorldPoint) -> bool {
    m.stands_at(e, p) && m.flagged(e, true, false) && m.passable(p)
}

/// Whether `tiles` can stand for the passable-tile view of `m`: every row of
/// it is a row of the view, and it is empty only if the view is.
pub open spec fn views(m: WorldView, tiles: Seq<PassableTile>) -> bool {
    &&& forall|i: int|
        0 <= i < tiles.len() ==> passable_row(m, (#[trigger] tiles[i]).entity.id, tiles[i].pos)
    &&& (tiles.len() > 0) == (exists|p: WorldPoint| m.passable(p))
}

/// An empty collision table.
pub fn create_table() -> (t: Table<Collision>)
    ensures
        t.wf(),
        t@ == Map::<i64, Collision>::empty(),
{
    Table::new()
}

/// The passable-tile view, computed on read: one row for every ground entity
/// that lies on a passable tile, and no other row.
pub fn create_passable_tiles_view(world: &World) -> (tiles: Vec<PassableTile>)
    requires
        world.wf(),
    ensures
        forall|i: int|
            0 <= i < tiles.len() ==> passable_row(
                world@,
                (#[trigger] tiles[i]).entity.id,
                tiles[i].pos,
            ),
        forall|e: i64, p: WorldPoint| #[trigger]
            passable_row(world@, e, p) ==> tiles@.contains(
                PassableTile { entity: Entity { id: e }, pos: p },
            ),
        forall|i: int, j: int|
            0 <= i < j < tiles.len() ==> (#[trigger] tiles[i]).entity.id != (
            #[trigger] tiles[j]).entity.id,
        (tiles.len() > 0) == (exists|p: WorldPoint| world@.passable(p)),
        views(world@, tiles@),
{
    proof {
        world.unfold();
    }
    let mut tiles: Vec<PassableTile> = Vec::new();
    let mut i: usize = 0;
    while i < world.actors.len()
        invariant
            world.wf(),
            world.tables_wf(),
            world@.actors == world.actors@,
            i <= world.actors.keys().len(),
            forall|a: int|
                0 <= a < tiles.len() ==> passable_row(
                    world@,
                    (#[trigger] tiles[a]).entity.id,
                    tiles[a].pos,
                ),
            forall|a: int|
                0 <= a < tiles.len() ==> exists|j: int|
                    0 <= j < i && world.actors.keys()[j] == (#[trigger] tiles[a]).entity.id,
            forall|j: int|
                0 <= j < i && passable_row(
                    world@,
                    #[trigger] world.actors.keys()[j],
                    world.actors.vals()[j].pos,
                ) ==> tiles@.contains(
                    PassableTile {
                        entity: Entity { id: world.actors.keys()[j] },
                        pos: world.actors.vals()[j].pos,
                    },
                ),
            forall|a: int, b: int|
                0 <= a < b < tiles.len() ==> (#[trigger] tiles[a]).entity.id != (
                #[trigger] tiles[b]).entity.id,
        decreases world.actors.keys().len() - i,
    {
        let k = world.actors.key_at(i);
        let pos = world.actors.value_at(i).pos;
        let ground = match world.collisions.get(k) {
            Some(c) => c.ground,
            None => false,
        };
        proof {
            world.unfold();
            world.actors.lemma_row(i as int);
        }
        let ghost before = tiles@;
        if ground && !world.occupied_at(pos, true, true) {
            let tile = PassableTile { entity: Entity { id: k }, pos };
            tiles.push(tile);
            proof {
                assert(world@.stands_at(k, pos) && world@.flagged(k, true, false));
                assert(tiles@[tiles.len() - 1] == tile);
                assert forall|a: int, b: int| 0 <= a < b < tiles.len() implies (
                #[trigger] tiles[a]).entity.id != (#[trigger] tiles[b]).entity.id by {
                    if b == tiles.len() - 1 {
                        let j = choose|j: int|
                            0 <= j < i && world.actors.keys()[j] == tiles[a].entity.id;
                    }
                }
            }
        }
        proof {
            assert forall|j: int|
                0 <= j < i + 1 && passable_row(
                    world@,
                    #[trigger] world.actors.keys()[j],
                    world.actors.vals()[j].pos,
                ) implies tiles@.contains(
                PassableTile {
                    entity: Entity { id: world.actors.keys()[j] },
                    pos: world.actors.vals()[j].pos,
                },
            ) by {
                let t = PassableTile {
                    entity: Entity { id: world.actors.keys()[j] },
                    pos: world.actors.vals()[j].pos,
                };
                if j < i {
                    assert(before.contains(t));
                    let a = before.index_of(t);
                    assert(tiles@[a] == t);
                } else {
                    assert(tiles@[tiles.len() - 1] == t);
                }
            }
            assert forall|a: int| 0 <= a < tiles.len() implies exists|j: int|
                0 <= j < i + 1 && world.actors.keys()[j] == (#[trigger] tiles[a]).entity.id by {
                if a < before.len() {
                    let j = choose|j: int|
                        0 <= j < i && world.actors.keys()[j] == before[a].entity.id;
                    assert(0 <= j < i + 1 && world.actors.keys()[j] == tiles[a].entity.id);
                } else {
                    assert(world.actors.keys()[i as int] == tiles[a].entity.id);
                }
            }
        }
        i = i + 1;
    }
    proof {
        assert forall|e: i64, p: WorldPoint| #[trigger] passable_row(world@, e, p) implies tiles@.contains(
            PassableTile { entity: Entity { id: e }, pos: p },
        ) by {
            let j = world.actors.lemma_key(e);
            assert(world.actors.keys()[j] == e);
        }
        if tiles.len() > 0 {
            assert(passable_row(world@, tiles[0].entity.id, tiles[0].pos));
            assert(world@.passable(tiles[0].pos));
        }
        if exists|p: WorldPoint| world@.passable(p) {
            let p = choose|p: WorldPoint| world@.passable(p);
            let e = choose|e: i64| #[trigger] world@.stands_at(e, p) && world@.flagged(e, true, false);
            assert(passable_row(world@, e, p));
            assert(tiles@.contains(PassableTile { entity: Entity { id: e }, pos: p }));
        }
    }
    tiles
}

/// Gives `entity` the collision flags `(ground, solid, ephemeral)`, in place of
/// the ones it had, if any. Fails, changing nothing, when the registry does
/// not hold the entity.
pub fn set(world: &mut World, entity: Entity, ground: bool, solid: bool, ephemeral: bool) -> (r:
    Result<(), StoreError>)
    requires
        old(world).wf(),
    ensures
        final(world).wf(),
        r.is_ok() == old(world)@.entities.contains(entity.id),
        r.is_ok() ==> final(world)@ == old(world)@.with_collision(
            entity.id,
            Collision { ground, solid, ephemeral },
        ),
        r matches Err(e) ==> e == StoreError::UnknownEntity && final(world)@ == old(world)@,
{
    proof {
        world.unfold();
    }
    if !world.entities.contains(entity.id) {
        return Err(StoreError::UnknownEntity);
    }
    world.collisions.upsert(entity.id, Collision { ground, solid, ephemeral });
    proof {
        world.unfold();
    }
    Ok(())
}

/// The passable-tile round trip. An actor that is placed on a tile and flagged
/// ground and not solid makes the tile passable, where nothing else on the tile
/// is both ground and solid; flagging it solid as well takes the tile out of
/// the passable set again.
pub proof fn lemma_passable_round_trip(m: WorldView, a: Actor, ephemeral: bool)
    requires
        forall|o: i64|
            o != a.entity.id && #[trigger] m.stands_at(o, a.pos) ==> !m.flagged(o, true, true),
    ensures
        m.with_actor(a).with_collision(
            a.entity.id,
            Collision { ground: true, solid: false, ephemeral },
        ).passable(a.pos),
        !m.with_actor(a).with_collision(
            a.entity.id,
            Collision { ground: true, solid: true, ephemeral },
        ).passable(a.pos),
{
    let e = a.entity.id;
    let open = m.with_actor(a).with_collision(e, Collision { ground: true, solid: false, ephemeral });
    let shut = m.with_actor(a).with_collision(e, Collision { ground: true, solid: true, ephemeral });
    assert(open.stands_at(e, a.pos) && open.flagged(e, true, false));
    assert forall|o: i64| #[trigger] open.stands_at(o, a.pos) implies !open.flagged(
        o,
        true,
        true,
    ) by {
        if o != e {
            assert(m.stands_at(o, a.pos));
        }
    }
    assert(shut.stands_at(e, a.pos) && shut.flagged(e, true, true));
}

/// The collision row of `entity`, if it has one.
pub fn get(world: &World, entity: Entity) -> (r: Option<Collision>)
    requires
        world.wf(),
    ensures
        r == (if world@.collisions.dom().contains(entity.id) {
            Some(world@.collisions[entity.id])
        } else {
            None
        }),
{
    proof {
        world.unfold();
    }
    match world.collisions.get(entity.id) {
        Some(row) => Some(row.clone()),
        None => None,
    }
}

/// Every collision row, with its entity: each row once.
pub fn all(world: &World) -> (rows: Vec<(Entity, Collision)>)
    requires
        world.wf(),
    ensures
        lists(world@.collisions, rows@),
{
    proof {
        world.unfold();
    }
    world.collisions.entries()
}

} // verus!
