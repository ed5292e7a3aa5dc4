//! Level transitions, such as staircases.

use crate::entity::Entity;
use crate::error::StoreError;
use crate::table::{lists, Table};
use crate::world::World;
use vstd::prelude::*;

verus! {

/// Marks an entity that sends the player to another level.
#[derive(Debug)]
pub struct Transition {
    pub level: String,
}

impl Clone for Transition {
    fn clone(&self) -> (r: Self)
        ensures
            r == *self,
    {
        Transition { level: self.level.clone() }
    }
}

/// An empty transition table.
pub fn create_table() -> (t: Table<Transition>)
    ensures
        t.wf(),
        t@ == Map::<i64, Transition>::empty(),
{
    Table::new()
}

/// Makes `entity` a transition to `level`, in place of the target it had, if
/// any. Fails, changing nothing, when the registry does not hold the entity.
pub fn set(world: &mut World, entity: Entity, level: &str) -> (r: Result<(), StoreError>)
    requires
        old(world).wf(),
    ensures
        final(world).wf(),
        r.is_ok() == old(world)@.entities.contains(entity.id),
        r.is_ok() ==> {
            let t = final(world)@.transitions[entity.id];
            &&& t.level@ == level@
            &&& final(world)@ == old(world)@.with_transition(entity.id, t)
        },
        r matches Err(e) ==> e == StoreError::UnknownEntity && final(world)@ == old(world)@,
{
    proof {
        world.unfold();
    }
    if !world.entities.contains(entity.id) {
        return Err(StoreError::UnknownEntity);
    }
    world.transitions.upsert(entity.id, Transition { level: level.to_owned() });
    proof {
        world.unfold();
    }
    Ok(())
}

/// The transition row of `entity`, if it has one.
pub fn get(world: &World, entity: Entity) -> (r: Option<Transition>)
    requires
        world.wf(),
    ensures
        r == (if world@.transitions.dom().contains(entity.id) {
            Some(world@.transitions[entity.id])
        } else {
            None
        }),
{
    proof {
        world.unfold();
    }
    match world.transitions.get(entity.id) {
        Some(row) => Some(row.clone()),
        None => None,
    }
}

/// Every transition row, with its entity: each row once.
pub fn all(world: &World) -> (rows: Vec<(Entity, Transition)>)
    requires
        world.wf(),
    ensures
        lists(world@.transitions, rows@),
{
    proof {
        world.unfold();
    }
    world.transitions.entries()
}

} // verus!
