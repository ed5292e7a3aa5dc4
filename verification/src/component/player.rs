//! The player row: the one piece of state that the whole world shares.

use crate::entity::Entity;
use crate::error::StoreError;
use crate::world::World;
use vstd::prelude::*;

verus! {

/// The player row. A world holds at most one.
#[derive(Debug)]
pub struct Player {
    pub entity: Entity,
    pub is_creative: bool,
    /// Turns that have been played.
    pub turn: i64,
    /// Turns that input has asked for and that have not been played yet.
    pub outstanding_turns: i64,
    pub level: String,
}

impl Clone for Player {
    fn clone(&self) -> (r: Self)
        ensures
            r == *self,
    {
        Player {
            entity: self.entity,
            is_creative: self.is_creative,
            turn: self.turn,
            outstanding_turns: self.outstanding_turns,
            level: self.level.clone(),
        }
    }
}

/// Whether `n` is a value of a 64-bit signed integer.
pub open spec fn fits(n: int) -> bool {
    i64::MIN <= n <= i64::MAX
}

/// The player row after `turns` turns were played: the turn count grows by
/// `turns`, and the outstanding turns shrink by as much, but not below zero.
pub open spec fn after_pass(p: Player, turns: i64) -> Player {
    Player {
        turn: (p.turn + turns) as i64,
        outstanding_turns: if p.outstanding_turns - turns >= 0 {
            (p.outstanding_turns - turns) as i64
        } else {
            0
        },
        ..p
    }
}

/// The player row after `turns` more turns were asked for.
pub open spec fn after_schedule(p: Player, turns: i64) -> Player {
    Player { outstanding_turns: (p.outstanding_turns + turns) as i64, ..p }
}

/// The place of the player row in a new world: empty.
pub fn create_table() -> (t: Option<Player>)
    ensures
        t.is_none(),
{
    None
}

/// Makes `entity` the player: no turn played, none outstanding, on level "0".
/// Fails, changing nothing, when the registry does not hold the entity
/// (`UnknownEntity`), or else when the world has a player already
/// (`DuplicateRow`).
pub fn set(world: &mut World, entity: Entity, is_creative: bool) -> (r: Result<(), StoreError>)
    requires
        old(world).wf(),
    ensures
        final(world).wf(),
        r.is_ok() == (old(world)@.entities.contains(entity.id) && old(world)@.player.is_none()),
        r.is_ok() ==> {
            let p = final(world)@.player.unwrap();
            &&& final(world)@ == old(world)@.with_player(p)
            &&& p.entity == entity
            &&& p.is_creative == is_creative
            &&& p.turn == 0
            &&& p.outstanding_turns == 0
            &&& p.level@ == "0"@
        },
        r.is_err() ==> final(world)@ == old(world)@,
        r matches Err(e) ==> e == (if old(world)@.entities.contains(entity.id) {
            StoreError::DuplicateRow
        } else {
            StoreError::UnknownEntity
        }),
{
    proof {
        world.unfold();
    }
    if !world.entities.contains(entity.id) {
        return Err(StoreError::UnknownEntity);
    }
    if world.player.is_some() {
        return Err(StoreError::DuplicateRow);
    }
    world.player = Some(
        Player { entity, is_creative, turn: 0, outstanding_turns: 0, level: "0".to_owned() },
    );
    proof {
        world.unfold();
    }
    Ok(())
}

/// Why time cannot pass by `turns` turns, if it cannot: the world has no
/// player, or the new turn count or the difference of outstanding turns
/// leaves the range of the integers.
pub open spec fn pass_error(player: Option<Player>, turns: i64) -> Option<StoreError> {
    match player {
        None => Some(StoreError::NoPlayer),
        Some(p) => if fits(p.turn + turns) && fits(p.outstanding_turns - turns) {
            None
        } else {
            Some(StoreError::Overflow)
        },
    }
}

/// Why `turns` more turns cannot be asked for, if they cannot: the world has
/// no player, or the sum leaves the range of the integers.
pub open spec fn schedule_error(player: Option<Player>, turns: i64) -> Option<StoreError> {
    match player {
        None => Some(StoreError::NoPlayer),
        Some(p) => if fits(p.outstanding_turns + turns) {
            None
        } else {
            Some(StoreError::Overflow)
        },
    }
}

/// Plays `turns` turns on the player row: see `after_pass`. Fails, changing
/// nothing, for the reason that `pass_error` gives.
pub fn pass_time(world: &mut World, turns: i64) -> (r: Result<(), StoreError>)
    requires
        old(world).wf(),
    ensures
        final(world).wf(),
        r == (match pass_error(old(world)@.player, turns) {
            Some(e) => Err::<(), StoreError>(e),
            None => Ok::<(), StoreError>(()),
        }),
        r.is_ok() ==> final(world)@ == old(world)@.with_player(
            after_pass(old(world)@.player.unwrap(), turns),
        ),
        r.is_err() ==> final(world)@ == old(world)@,
{
    proof {
        world.unfold();
    }
    let next = match &world.player {
        Some(p) => {
            match (p.turn.checked_add(turns), p.outstanding_turns.checked_sub(turns)) {
                (Some(turn), Some(rest)) => {
                    let outstanding_turns = if rest >= 0 {
                        rest
                    } else {
                        0
                    };
                    Player {
                        entity: p.entity,
                        is_creative: p.is_creative,
                        turn,
                        outstanding_turns,
                        level: p.level.clone(),
                    }
                },
                _ => {
                    return Err(StoreError::Overflow);
                },
            }
        },
        None => {
            return Err(StoreError::NoPlayer);
        },
    };
    world.player = Some(next);
    proof {
        world.unfold();
    }
    Ok(())
}

/// Asks for `turns` more turns on the player row: see `after_schedule`. Fails,
/// changing nothing, for the reason that `schedule_error` gives.
pub fn schedule_time(world: &mut World, turns: i64) -> (r: Result<(), StoreError>)
    requires
        old(world).wf(),
    ensures
        final(world).wf(),
        r == (match schedule_error(old(world)@.player, turns) {
            Some(e) => Err::<(), StoreError>(e),
            None => Ok::<(), StoreError>(()),
        }),
        r.is_ok() ==> final(world)@ == old(world)@.with_player(
            after_schedule(old(world)@.player.unwrap(), turns),
        ),
        r.is_err() ==> final(world)@ == old(world)@,
{
    proof {
        world.unfold();
    }
    let next = match &world.player {
        Some(p) => {
            match p.outstanding_turns.checked_add(turns) {
                Some(outstanding_turns) => Player {
                    entity: p.entity,
                    is_creative: p.is_creative,
                    turn: p.turn,
                    outstanding_turns,
                    level: p.level.clone(),
                },
                None => {
                    return Err(StoreError::Overflow);
                },
            }
        },
        None => {
            return Err(StoreError::NoPlayer);
        },
    };
    world.player = Some(next);
    proof {
        world.unfold();
    }
    Ok(())
}

/// The turns that were asked for and not played yet. Fails when the world has
/// no player.
pub fn outstanding_turns(world: &World) -> (r: Result<i64, StoreError>)
    requires
        world.wf(),
    ensures
        r == match world@.player {
            Some(p) => Ok::<i64, StoreError>(p.outstanding_turns),
            None => Err::<i64, StoreError>(StoreError::NoPlayer),
        },
{
    proof {
        world.unfold();
    }
    match &world.player {
        Some(p) => Ok(p.outstanding_turns),
        None => Err(StoreError::NoPlayer),
    }
}

/// The turns that were played. Fails when the world has no player.
pub fn turns_passed(world: &World) -> (r: Result<i64, StoreError>)
    requires
        world.wf(),
    ensures
        r == match world@.player {
            Some(p) => Ok::<i64, StoreError>(p.turn),
            None => Err::<i64, StoreError>(StoreError::NoPlayer),
        },
{
    proof {
        world.unfold();
    }
    match &world.player {
        Some(p) => Ok(p.turn),
        None => Err(StoreError::NoPlayer),
    }
}

/// Whether the game is played in creative mode. Fails when the world has no
/// player.
pub fn is_creative(world: &World) -> (r: Result<bool, StoreError>)
    requires
        world.wf(),
    ensures
        r == match world@.player {
            Some(p) => Ok::<bool, StoreError>(p.is_creative),
            None => Err::<bool, StoreError>(StoreError::NoPlayer),
        },
{
    proof {
        world.unfold();
    }
    match &world.player {
        Some(p) => Ok(p.is_creative),
        None => Err(StoreError::NoPlayer),
    }
}

/// The level that the player is on. Fails when the world has no player.
pub fn level(world: &World) -> (r: Result<String, StoreError>)
    requires
        world.wf(),
    ensures
        r == match world@.player {
            Some(p) => Ok::<String, StoreError>(p.level),
            None => Err::<String, StoreError>(StoreError::NoPlayer),
        },
{
    proof {
        world.unfold();
    }
    match &world.player {
        Some(p) => Ok(p.level.clone()),
        None => Err(StoreError::NoPlayer),
    }
}

/// The player row, if the world has one.
pub fn get(world: &World) -> (r: Option<Player>)
    requires
        world.wf(),
    ensures
        r == world@.player,
{
    proof {
        world.unfold();
    }
    match &world.player {
        Some(p) => Some(p.clone()),
        None => None,
    }
}

/// Puts back a player row that was saved, as it is. Fails, changing nothing,
/// when the registry does not hold its entity (`UnknownEntity`), or else when
/// the world has a player already (`DuplicateRow`).
pub fn restore(world: &mut World, row: Player) -> (r: Result<(), StoreError>)
    requires
        old(world).wf(),
    ensures
        final(world).wf(),
        r.is_ok() == (old(world)@.entities.contains(row.entity.id) && old(world)@.player.is_none()),
        r.is_ok() ==> final(world)@ == old(world)@.with_player(row),
        r.is_err() ==> final(world)@ == old(world)@,
        r matches Err(e) ==> e == (if old(world)@.entities.contains(row.entity.id) {
            StoreError::DuplicateRow
        } else {
            StoreError::UnknownEntity
        }),
{
    proof {
        world.unfold();
    }
    if !world.entities.contains(row.entity.id) {
        return Err(StoreError::UnknownEntity);
    }
    if world.player.is_some() {
        return Err(StoreError::DuplicateRow);
    }
    world.player = Some(row);
    proof {
        world.unfold();
    }
    Ok(())
}

} // verus!
