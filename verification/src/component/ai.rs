//! What drives an entity that moves by itself.

use crate::entity::Entity;
use crate::error::StoreError;
use crate::table::{lists, Table};
use crate::world::World;
use vstd::prelude::*;

verus! {

/// The directive of a self-moving entity. An entity has at most one: the one
/// that was set last.
#[derive(Debug, PartialEq, Eq, Clone, Copy, Structural)]
pub enum AiDirective {
    /// A new random step at every turn.
    Random,
    /// One step along a shortest path to the player.
    TargetPlayer,
}

/// An empty directive table.
pub fn create_table() -> (t: Table<AiDirective>)
    ensures
        t.wf(),
        t@ == Map::<i64, AiDirective>::empty(),
{
    Table::new()
}

/// Gives `entity` the directive `directive`, in place of the one it had.
fn set(world: &mut World, entity: Entity, directive: AiDirective) -> (r: Result<(), StoreError>)
    requires
        old(world).wf(),
    ensures
        final(world).wf(),
        r.is_ok() == old(world)@.entities.contains(entity.id),
        r.is_ok() ==> final(world)@ == old(world)@.with_ai(entity.id, directive),
        r matches Err(e) ==> e == StoreError::UnknownEntity && final(world)@ == old(world)@,
{
    proof {
        world.unfold();
    }
    if !world.entities.contains(entity.id) {
        return Err(StoreError::UnknownEntity);
    }
    world.ais.upsert(entity.id, directive);
    proof {
        world.unfold();
    }
    Ok(())
}

/// Makes `entity` move at random, whatever directive it had. Fails, changing
/// nothing, when the registry does not hold the entity.
pub fn set_random(world: &mut World, entity: Entity) -> (r: Result<(), StoreError>)
    requires
        old(world).wf(),
    ensures
        final(world).wf(),
        r.is_ok() == old(world)@.entities.contains(entity.id),
        r.is_ok() ==> final(world)@ == old(world)@.with_ai(entity.id, AiDirective::Random),
        r matches Err(e) ==> e == StoreError::UnknownEntity && final(world)@ == old(world)@,
{
    set(world, entity, AiDirective::Random)
}

/// Makes `entity` seek the player, whatever directive it had. Fails, changing
/// nothing, when the registry does not hold the entity.
pub fn set_target_player(world: &mut World, entity: Entity) -> (r: Result<(), StoreError>)
    requires
        old(world).wf(),
    ensures
        final(world).wf(),
        r.is_ok() == old(world)@.entities.contains(entity.id),
        r.is_ok() ==> final(world)@ == old(world)@.with_ai(entity.id, AiDirective::TargetPlayer),
        r matches Err(e) ==> e == StoreError::UnknownEntity && final(world)@ == old(world)@,
{
    set(world, entity, AiDirective::TargetPlayer)
}

/// The directive of `entity`, if it has one.
pub fn get(world: &World, entity: Entity) -> (r: Option<AiDirective>)
    requires
        world.wf(),
    ensures
        r == (if world@.ais.dom().contains(entity.id) {
            Some(world@.ais[entity.id])
        } else {
            None
        }),
{
    proof {
        world.unfold();
    }
    match world.ais.get(entity.id) {
        Some(row) => Some(row.clone()),
        None => None,
    }
}

/// Every directive, with its entity: each row once.
pub fn all(world: &World) -> (rows: Vec<(Entity, AiDirective)>)
    requires
        world.wf(),
    ensures
        lists(world@.ais, rows@),
{
    proof {
        world.unfold();
    }
    world.ais.entries()
}

} // verus!
