//! Hit points of an entity.

use crate::entity::Entity;
use crate::error::StoreError;
use crate::table::{lists, Table};
use crate::world::World;
use vstd::prelude::*;

verus! {

/// Hit points: `regen` is added to `current` at each regeneration.
#[derive(Debug, PartialEq, Eq, Clone, Copy, Structural)]
pub struct Health {
    pub max: i64,
    pub current: i64,
    pub regen: i64,
}

/// An empty health table.
pub fn create_table() -> (t: Table<Health>)
    ensures
        t.wf(),
        t@ == Map::<i64, Health>::empty(),
{
    Table::new()
}

/// Gives `entity` the health row `(max, current, regen)`, in place of the one
/// it had, if any. Fails, changing nothing, when the registry does not hold
/// the entity.
pub fn set(world: &mut World, entity: Entity, max: i64, current: i64, regen: i64) -> (r: Result<
    (),
    StoreError,
>)
    requires
        old(world).wf(),
    ensures
        final(world).wf(),
        r.is_ok() == old(world)@.entities.contains(entity.id),
        r.is_ok() ==> final(world)@ == old(world)@.with_health(
            entity.id,
            Health { max, current, regen },
        ),
        r matches Err(e) ==> e == StoreError::UnknownEntity && final(world)@ == old(world)@,
{
    proof {
        world.unfold();
    }
    if !world.entities.contains(entity.id) {
        return Err(StoreError::UnknownEntity);
    }
    world.healths.upsert(entity.id, Health { max, current, regen });
    proof {
        world.unfold();
    }
    Ok(())
}

/// The health row of `entity`, if it has one.
pub fn get(world: &World, entity: Entity) -> (r: Option<Health>)
    requires
        world.wf(),
    ensures
        r == (if world@.healths.dom().contains(entity.id) {
            Some(world@.healths[entity.id])
        } else {
            None
        }),
{
    proof {
        world.unfold();
    }
    match world.healths.get(entity.id) {
        Some(row) => Some(row.clone()),
        None => None,
    }
}

/// Every health row, with its entity: each row once.
pub fn all(world: &World) -> (rows: Vec<(Entity, Health)>)
    requires
        world.wf(),
    ensures
        lists(world@.healths, rows@),
{
    proof {
        world.unfold();
    }
    world.healths.entries()
}

} // verus!
