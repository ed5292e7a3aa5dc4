//! The component store: one table per component kind.

pub mod actor;
pub mod ai;
pub mod collision;
pub mod health;
pub mod player;
pub mod transition;
pub mod velocity;

use crate::entity;
use crate::world::{World, WorldView};
use vstd::prelude::*;

verus! {

/// A new world: an empty registry and an empty table of every component kind.
pub fn create_tables() -> (world: World)
    ensures
        world.wf(),
        world@ == WorldView::empty(),
{
    let world = World {
        next_id: 1,
        entities: entity::create_table(),
        player: player::create_table(),
        actors: actor::create_table(),
        velocities: velocity::create_table(),
        collisions: collision::create_table(),
        healths: health::create_table(),
        ais: ai::create_table(),
        transitions: transition::create_table(),
    };
    proof {
        world.unfold();
        assert(world@.entities =~= Set::<i64>::empty());
    }
    world
}

} // verus!
