//! The entity registry: allocation and destruction of entity identifiers.

use crate::error::StoreError;
use crate::table::Table;
use crate::world::{World, WorldView};
use vstd::prelude::*;

verus! {

/// An opaque identifier that ties the components of one game object together.
#[derive(Clone, Copy, Debug, PartialEq, Eq, Structural)]
pub struct Entity {
    pub id: i64,
}

impl Entity {
    /// The identifier as it is written to a store column.
    pub fn to_sql(&self) -> (id: i64)
        ensures
            id == self.id,
    {
        self.id
    }

    /// The entity that a store column holding `value` stands for.
    pub fn column_result(value: i64) -> (e: Entity)
        ensures
            e.id == value,
    {
        Entity { id: value }
    }
}

/// An empty registry.
pub fn create_table() -> (t: Table<()>)
    ensures
        t.wf(),
        t@ == Map::<i64, ()>::empty(),
{
    Table::new()
}

/// Registers a new entity under the next identifier. Identifiers grow by one
/// and are never handed out twice. Fails, leaving the world as it was, only
/// when the identifiers have run out.
pub fn create(world: &mut World) -> (r: Result<Entity, StoreError>)
    requires
        old(world).wf(),
    ensures
        final(world).wf(),
        r.is_ok() == (old(world)@.next_id < i64::MAX),
        r matches Ok(e) ==> e.id == old(world)@.next_id && final(world)@ == old(
            world,
        )@.with_new_entity(),
        r matches Err(err) ==> err == StoreError::IdsExhausted && final(world)@ == old(world)@,
{
    proof {
        world.unfold();
    }
    if world.next_id == i64::MAX {
        return Err(StoreError::IdsExhausted);
    }
    let id = world.next_id;
    world.entities.upsert(id, ());
    world.next_id = id + 1;
    proof {
        world.unfold();
        assert(world@.entities =~= old(world)@.entities.insert(id));
    }
    Ok(Entity { id })
}

/// Destroys an entity: it leaves the registry, and every component row of its
/// own leaves its table. Destroying an entity that does not exist changes
/// nothing. Returns whether the entity existed.
pub fn destroy(world: &mut World, entity: Entity) -> (existed: bool)
    requires
        old(world).wf(),
    ensures
        final(world).wf(),
        existed == old(world)@.entities.contains(entity.id),
        final(world)@ == old(world)@.without(set![entity.id]),
{
    proof {
        world.unfold();
    }
    let id = entity.id;
    let existed = world.entities.remove(id);
    let drop_player = match &world.player {
        Some(p) => p.entity.id == id,
        None => false,
    };
    if drop_player {
        world.player = None;
    }
    world.actors.remove(id);
    world.velocities.remove(id);
    world.collisions.remove(id);
    world.healths.remove(id);
    world.ais.remove(id);
    world.transitions.remove(id);
    proof {
        world.unfold();
        let before = old(world)@;
        let dead = set![id];
        assert(world@.entities =~= before.entities.difference(dead));
        assert(world@.actors =~= before.actors.remove_keys(dead));
        assert(world@.velocities =~= before.velocities.remove_keys(dead));
        assert(world@.collisions =~= before.collisions.remove_keys(dead));
        assert(world@.healths =~= before.healths.remove_keys(dead));
        assert(world@.ais =~= before.ais.remove_keys(dead));
        assert(world@.transitions =~= before.transitions.remove_keys(dead));
        lemma_without_valid(before, dead);
    }
    existed
}

/// The entity of the player row. Fails when the world has no player.
pub fn load_player(world: &World) -> (r: Result<Entity, StoreError>)
    requires
        world.wf(),
    ensures
        r == match world@.player {
            Some(p) => Ok::<Entity, StoreError>(p.entity),
            None => Err::<Entity, StoreError>(StoreError::NoPlayer),
        },
{
    proof {
        world.unfold();
    }
    match &world.player {
        Some(p) => Ok(p.entity),
        None => Err(StoreError::NoPlayer),
    }
}

/// Destroying entities keeps the world valid.
pub proof fn lemma_without_valid(m: WorldView, dead: Set<i64>)
    requires
        m.valid(),
    ensures
        m.without(dead).valid(),
{
}

/// Cascade completeness: once an entity is destroyed, neither the registry nor
/// any component table holds a row that refers to it.
pub proof fn lemma_destroyed_leaves_no_row(m: WorldView, dead: Set<i64>, e: i64)
    requires
        dead.contains(e),
    ensures
        !m.without(dead).refers_to(e),
{
}

/// Destroying entities touches no row of an entity that stays.
pub proof fn lemma_survivor_keeps_rows(m: WorldView, dead: Set<i64>, e: i64)
    requires
        !dead.contains(e),
    ensures
        m.without(dead).entities.contains(e) == m.entities.contains(e),
        m.without(dead).actors.dom().contains(e) == m.actors.dom().contains(e),
        m.actors.dom().contains(e) ==> m.without(dead).actors[e] == m.actors[e],
        m.without(dead).velocities.dom().contains(e) == m.velocities.dom().contains(e),
        m.velocities.dom().contains(e) ==> m.without(dead).velocities[e] == m.velocities[e],
        m.without(dead).collisions.dom().contains(e) == m.collisions.dom().contains(e),
        m.collisions.dom().contains(e) ==> m.without(dead).collisions[e] == m.collisions[e],
        m.without(dead).healths.dom().contains(e) == m.healths.dom().contains(e),
        m.healths.dom().contains(e) ==> m.without(dead).healths[e] == m.healths[e],
        m.without(dead).ais.dom().contains(e) == m.ais.dom().contains(e),
        m.ais.dom().contains(e) ==> m.without(dead).ais[e] == m.ais[e],
        m.without(dead).transitions.dom().contains(e) == m.transitions.dom().contains(e),
        m.transitions.dom().contains(e) ==> m.without(dead).transitions[e] == m.transitions[e],
{
}

/// Whether the registry holds `entity`.
pub fn is_alive(world: &World, entity: Entity) -> (b: bool)
    requires
        world.wf(),
    ensures
        b == world@.entities.contains(entity.id),
{
    proof {
        world.unfold();
    }
    world.entities.contains(entity.id)
}

/// Every entity of the registry: each of them once.
pub fn all(world: &World) -> (entities: Vec<Entity>)
    requires
        world.wf(),
    ensures
        forall|i: int| 0 <= i < entities@.len() ==> world@.entities.contains(#[trigger] entities@[i].id),
        forall|i: int, j: int|
            0 <= i < j < entities@.len() ==> (#[trigger] entities@[i]).id != (
            #[trigger] entities@[j]).id,
        forall|e: i64| #[trigger]
            world@.entities.contains(e) ==> entities@.contains(Entity { id: e }),
{
    proof {
        world.unfold();
    }
    let rows = world.entities.entries();
    let mut entities: Vec<Entity> = Vec::new();
    let mut i: usize = 0;
    while i < rows.len()
        invariant
            i <= rows.len(),
            entities@.len() == i,
            forall|j: int| 0 <= j < i ==> #[trigger] entities@[j] == rows@[j].0,
        decreases rows.len() - i,
    {
        entities.push(rows[i].0);
        i = i + 1;
    }
    proof {
        assert forall|e: i64| #[trigger] world@.entities.contains(e) implies entities@.contains(
            Entity { id: e },
        ) by {
            let j = choose|j: int| 0 <= j < rows@.len() && (#[trigger] rows@[j]).0.id == e;
            assert(entities@[j] == Entity { id: e });
        }
    }
    entities
}

/// Puts back an entity that was saved, under the identifier that it had. The
/// next identifier to hand out moves past it. Fails, changing nothing, when
/// the identifier is not positive or is the last of all (`IdsExhausted`), or
/// else when the registry holds it already (`DuplicateRow`).
pub fn restore(world: &mut World, id: i64) -> (r: Result<Entity, StoreError>)
    requires
        old(world).wf(),
    ensures
        final(world).wf(),
        r.is_ok() == (1 <= id < i64::MAX && !old(world)@.entities.contains(id)),
        r matches Ok(e) ==> e.id == id && final(world)@ == (WorldView {
            next_id: if id >= old(world)@.next_id {
                (id + 1) as i64
            } else {
                old(world)@.next_id
            },
            entities: old(world)@.entities.insert(id),
            ..old(world)@
        }),
        r.is_err() ==> final(world)@ == old(world)@,
        r matches Err(e) ==> e == (if 1 <= id < i64::MAX {
            StoreError::DuplicateRow
        } else {
            StoreError::IdsExhausted
        }),
{
    proof {
        world.unfold();
    }
    if id < 1 || id == i64::MAX {
        return Err(StoreError::IdsExhausted);
    }
    if world.entities.contains(id) {
        return Err(StoreError::DuplicateRow);
    }
    world.entities.upsert(id, ());
    if id >= world.next_id {
        world.next_id = id + 1;
    }
    proof {
        world.unfold();
        assert(world@.entities =~= old(world)@.entities.insert(id));
    }
    Ok(Entity { id })
}

} // verus!
