//! The step that an entity takes at each movement.

use crate::entity::Entity;
use crate::error::StoreError;
use crate::rng::{pcg_randint, GameRng};
use crate::table::{lists, Table};
use crate::world::World;
use vstd::prelude::*;

verus! {

/// A step: it is applied at every movement until it is overwritten.
#[derive(Debug, PartialEq, Eq, Clone, Copy, Structural)]
pub struct Velocity {
    pub dx: i64,
    pub dy: i64,
}

/// An empty velocity table.
pub fn create_table() -> (t: Table<Velocity>)
    ensures
        t.wf(),
        t@ == Map::<i64, Velocity>::empty(),
{
    Table::new()
}

/// Gives `entity` the velocity `(dx, dy)`, in place of the one it had, if any.
/// Fails, changing nothing, when the registry does not hold the entity.
pub fn set(world: &mut World, entity: Entity, dx: i64, dy: i64) -> (r: Result<(), StoreError>)
    requires
        old(world).wf(),
    ensures
        final(world).wf(),
        r.is_ok() == old(world)@.entities.contains(entity.id),
        r.is_ok() ==> final(world)@ == old(world)@.with_velocity(entity.id, Velocity { dx, dy }),
        r matches Err(e) ==> e == StoreError::UnknownEntity && final(world)@ == old(world)@,
{
    proof {
        world.unfold();
    }
    if !world.entities.contains(entity.id) {
        return Err(StoreError::UnknownEntity);
    }
    world.velocities.upsert(entity.id, Velocity { dx, dy });
    proof {
        world.unfold();
    }
    Ok(())
}

/// Gives `entity` a velocity whose two parts are each drawn between `min` and
/// `max`, both included: first `dx`, then `dy`. Fails, changing nothing and
/// drawing nothing, when the registry does not hold the entity.
pub fn set_random(world: &mut World, rng: &mut GameRng, entity: Entity, min: i64, max: i64) -> (r:
    Result<(), StoreError>)
    requires
        old(world).wf(),
    ensures
        final(world).wf(),
        r.is_ok() == old(world)@.entities.contains(entity.id),
        r.is_ok() ==> {
            let v = final(world)@.velocities[entity.id];
            &&& final(world)@ == old(world)@.with_velocity(entity.id, v)
            &&& (min <= v.dx <= max || max <= v.dx <= min)
            &&& (min <= v.dy <= max || max <= v.dy <= min)
        },
        r matches Err(e) ==> e == StoreError::UnknownEntity && final(world)@ == old(world)@,
{
    proof {
        world.unfold();
    }
    if !world.entities.contains(entity.id) {
        return Err(StoreError::UnknownEntity);
    }
    let dx = pcg_randint(rng, min, max);
    let dy = pcg_randint(rng, min, max);
    world.velocities.upsert(entity.id, Velocity { dx, dy });
    proof {
        world.unfold();
    }
    Ok(())
}

/// The velocity of `entity`, if it has one.
pub fn get(world: &World, entity: Entity) -> (r: Option<Velocity>)
    requires
        world.wf(),
    ensures
        r == (if world@.velocities.dom().contains(entity.id) {
            Some(world@.velocities[entity.id])
        } else {
            None
        }),
{
    proof {
        world.unfold();
    }
    match world.velocities.get(entity.id) {
        Some(row) => Some(row.clone()),
        None => None,
    }
}

/// Every velocity, with its entity: each row once.
pub fn all(world: &World) -> (rows: Vec<(Entity, Velocity)>)
    requires
        world.wf(),
    ensures
        lists(world@.velocities, rows@),
{
    proof {
        world.unfold();
    }
    world.velocities.entries()
}

} // verus!
