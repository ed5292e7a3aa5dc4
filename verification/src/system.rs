//! The systems: the bulk operations that one turn is made of.

use crate::component::actor::Actor;
use crate::component::ai::AiDirective;
use crate::component::health::Health;
use crate::component::velocity::Velocity;
use crate::component::player::{fits, Player};
use crate::entity::{destroy, lemma_without_valid, Entity};
use crate::error::StoreError;
use crate::game_object::WorldPoint;
use crate::pathfinding::{
    descend, distance, flood, ground_plan, in_room, lemma_open_room_pursuit, manhattan,
    open_room, pursuit_step, walkability_grid, DistanceField,
};
use crate::rng::{pcg_randint, GameRng};
use crate::world::{World, WorldView};
use vstd::prelude::*;

verus! {

/// A health row after one regeneration: `regen` is added to `current`, with no
/// clamping at zero or at `max`.
pub open spec fn healed(h: Health) -> Health {
    Health { current: (h.current + h.regen) as i64, ..h }
}

/// Whether every health row can take its regeneration without leaving the
/// range of the integers.
pub open spec fn regen_fits(m: WorldView) -> bool {
    forall|e: i64| #[trigger] m.healths.dom().contains(e) ==> fits(m.healths[e].current + m.healths[e].regen)
}

/// The world after one regeneration: every health row is `healed`, once.
pub open spec fn regenerated(m: WorldView) -> WorldView {
    WorldView { healths: m.healths.map_values(|h: Health| healed(h)), ..m }
}

/// Regeneration adds `regen` to `current` once, whatever the number of rows,
/// and changes nothing else of a row.
pub proof fn lemma_regen_once(m: WorldView, e: i64)
    requires
        m.healths.dom().contains(e),
        fits(m.healths[e].current + m.healths[e].regen),
    ensures
        regenerated(m).healths.dom() == m.healths.dom(),
        regenerated(m).healths[e].current == m.healths[e].current + m.healths[e].regen,
        regenerated(m).healths[e].max == m.healths[e].max,
        regenerated(m).healths[e].regen == m.healths[e].regen,
{
    assert(regenerated(m).healths.dom() =~= m.healths.dom());
}

/// Regeneration: adds `regen` to `current` in every health row, once per row.
/// Fails with `Overflow`, changing no row, when some sum leaves the range of
/// the integers.
pub fn apply_regen(world: &mut World) -> (r: Result<(), StoreError>)
    requires
        old(world).wf(),
    ensures
        final(world).wf(),
        r.is_ok() == regen_fits(old(world)@),
        r.is_ok() ==> final(world)@ == regenerated(old(world)@),
        r matches Err(e) ==> e == StoreError::Overflow && final(world)@ == old(world)@,
{
    proof {
        world.unfold();
    }
    let n = world.healths.len();
    let mut i: usize = 0;
    while i < n
        invariant
            *world == *old(world),
            world.wf(),
            world.healths.wf(),
            world@.healths == world.healths@,
            n == world.healths.keys().len(),
            i <= n,
            forall|j: int|
                0 <= j < i ==> fits(
                    (#[trigger] world.healths.vals()[j]).current + world.healths.vals()[j].regen,
                ),
        decreases n - i,
    {
        let h = world.healths.value_at(i);
        if h.current.checked_add(h.regen).is_none() {
            proof {
                world.healths.lemma_row(i as int);
            }
            return Err(StoreError::Overflow);
        }
        i = i + 1;
    }
    proof {
        assert forall|e: i64| #[trigger] world@.healths.dom().contains(e) implies fits(
            world@.healths[e].current + world@.healths[e].regen,
        ) by {
            let j = world.healths.lemma_key(e);
        }
    }
    let mut next: Vec<Health> = Vec::new();
    let mut i: usize = 0;
    while i < n
        invariant
            world.healths.wf(),
            n == world.healths.keys().len(),
            i <= n,
            next.len() == i,
            forall|j: int|
                0 <= j < n ==> fits(
                    (#[trigger] world.healths.vals()[j]).current + world.healths.vals()[j].regen,
                ),
            forall|j: int| 0 <= j < i ==> #[trigger] next[j] == healed(world.healths.vals()[j]),
        decreases n - i,
    {
        let h = *world.healths.value_at(i);
        next.push(Health { max: h.max, current: h.current + h.regen, regen: h.regen });
        i = i + 1;
    }
    let ghost before = world.healths;
    world.healths.replace_values(next);
    proof {
        world.unfold();
        world.healths.lemma_mapped(&before, |k: i64, h: Health| healed(h));
        assert(world.healths@ =~= old(world)@.healths.map_values(|h: Health| healed(h)));
    }
    Ok(())
}

/// Destroying two sets of entities, one after the other, destroys their union.
pub proof fn lemma_without_twice(m: WorldView, a: Set<i64>, b: Set<i64>)
    ensures
        m.without(a).without(b) == m.without(a.union(b)),
{
    let x = m.without(a).without(b);
    let y = m.without(a.union(b));
    assert(x.entities =~= y.entities);
    assert(x.actors =~= y.actors);
    assert(x.velocities =~= y.velocities);
    assert(x.collisions =~= y.collisions);
    assert(x.healths =~= y.healths);
    assert(x.ais =~= y.ais);
    assert(x.transitions =~= y.transitions);
}

/// Destroying no entity changes nothing.
pub proof fn lemma_without_none(m: WorldView)
    ensures
        m.without(Set::empty()) == m,
{
    let x = m.without(Set::empty());
    assert(x.entities =~= m.entities);
    assert(x.actors =~= m.actors);
    assert(x.velocities =~= m.velocities);
    assert(x.collisions =~= m.collisions);
    assert(x.healths =~= m.healths);
    assert(x.ais =~= m.ais);
    assert(x.transitions =~= m.transitions);
}

/// Destroys every entity whose identifier is in `ids`.
pub fn destroy_all(world: &mut World, ids: &Vec<i64>)
    requires
        old(world).wf(),
    ensures
        final(world).wf(),
        final(world)@ == old(world)@.without(ids@.to_set()),
{
    let mut i: usize = 0;
    proof {
        lemma_without_none(world@);
        assert(ids@.subrange(0, 0).to_set() =~= Set::<i64>::empty());
    }
    while i < ids.len()
        invariant
            world.wf(),
            i <= ids.len(),
            world@ == old(world)@.without(ids@.subrange(0, i as int).to_set()),
        decreases ids.len() - i,
    {
        let id = ids[i];
        destroy(world, Entity { id });
        proof {
            let done = ids@.subrange(0, i as int).to_set();
            lemma_without_twice(old(world)@, done, set![id]);
            assert(ids@.subrange(0, i + 1).to_set() =~= done.union(set![id])) by {
                assert forall|q: i64|
                    ids@.subrange(0, i + 1).to_set().contains(q) == done.union(set![id]).contains(
                        q,
                    ) by {
                    if ids@.subrange(0, i + 1).contains(q) {
                        let j = ids@.subrange(0, i + 1).index_of(q);
                        if j < i {
                            assert(ids@.subrange(0, i as int)[j] == q);
                        }
                    }
                    if ids@.subrange(0, i as int).contains(q) {
                        let j = ids@.subrange(0, i as int).index_of(q);
                        assert(ids@.subrange(0, i + 1)[j] == q);
                    }
                    if q == id {
                        assert(ids@.subrange(0, i + 1)[i as int] == q);
                    }
                }
            }
        }
        i = i + 1;
    }
    proof {
        assert(ids@.subrange(0, ids.len() as int) =~= ids@);
    }
}

/// The entities that are dead: those whose health has `current` at or below
/// zero.
pub open spec fn dead(m: WorldView) -> Set<i64> {
    Set::new(|e: i64| m.healths.dom().contains(e) && m.healths[e].current <= 0)
}

/// Culls the dead: destroys every entity whose health has `current` at or
/// below zero, with all its rows.
pub fn cull_dead(world: &mut World)
    requires
        old(world).wf(),
    ensures
        final(world).wf(),
        final(world)@ == old(world)@.without(dead(old(world)@)),
{
    proof {
        world.unfold();
    }
    let mut ids: Vec<i64> = Vec::new();
    let n = world.healths.len();
    let mut i: usize = 0;
    while i < n
        invariant
            world.healths.wf(),
            n == world.healths.keys().len(),
            i <= n,
            forall|a: int|
                0 <= a < ids.len() ==> world.healths@.dom().contains(#[trigger] ids[a])
                    && world.healths@[ids[a]].current <= 0,
            forall|j: int|
                0 <= j < i && world.healths.vals()[j].current <= 0 ==> ids@.contains(
                    #[trigger] world.healths.keys()[j],
                ),
        decreases n - i,
    {
        let ghost before = ids@;
        if world.healths.value_at(i).current <= 0 {
            ids.push(world.healths.key_at(i));
        }
        proof {
            world.healths.lemma_row(i as int);
            assert forall|j: int|
                0 <= j < i + 1 && world.healths.vals()[j].current <= 0 implies ids@.contains(
                #[trigger] world.healths.keys()[j],
            ) by {
                if j < i {
                    let a = before.index_of(world.healths.keys()[j]);
                    assert(ids@[a] == world.healths.keys()[j]);
                } else {
                    assert(ids@[ids.len() - 1] == world.healths.keys()[j]);
                }
            }
        }
        i = i + 1;
    }
    proof {
        assert forall|e: i64| ids@.to_set().contains(e) == dead(world@).contains(e) by {
            if dead(world@).contains(e) {
                let j = world.healths.lemma_key(e);
                assert(ids@.contains(world.healths.keys()[j]));
            }
            if ids@.contains(e) {
                let a = ids@.index_of(e);
                assert(ids@[a] == e);
            }
        }
        assert(ids@.to_set() =~= dead(world@));
    }
    destroy_all(world, &ids);
}

/// Culling the dead is a fixed point: right after a cull, nothing is dead, so
/// a second cull destroys nothing.
pub proof fn lemma_cull_dead_twice(m: WorldView)
    ensures
        dead(m.without(dead(m))) == Set::<i64>::empty(),
        m.without(dead(m)).without(dead(m.without(dead(m)))) == m.without(dead(m)),
{
    let once = m.without(dead(m));
    assert(dead(once) =~= Set::<i64>::empty());
    lemma_without_none(once);
}

/// The ephemeral entities that have lost their footing: those with an actor on
/// a tile that holds something both ground and solid, or no ground at all.
pub open spec fn stranded(m: WorldView) -> Set<i64> {
    Set::new(
        |e: i64|
            m.collisions.dom().contains(e) && m.collisions[e].ephemeral && m.actors.dom().contains(
                e,
            ) && (m.has_blocker(m.actors[e].pos) || !m.has_ground(m.actors[e].pos)),
    )
}

/// Culls the ephemeral: destroys every ephemeral entity whose tile holds
/// something both ground and solid, or no ground at all.
pub fn cull_ephemeral(world: &mut World)
    requires
        old(world).wf(),
    ensures
        final(world).wf(),
        final(world)@ == old(world)@.without(stranded(old(world)@)),
{
    proof {
        world.unfold();
    }
    let mut ids: Vec<i64> = Vec::new();
    let n = world.collisions.len();
    let mut i: usize = 0;
    while i < n
        invariant
            world.wf(),
            world.tables_wf(),
            world@.collisions == world.collisions@,
            world@.actors == world.actors@,
            n == world.collisions.keys().len(),
            i <= n,
            forall|a: int| 0 <= a < ids.len() ==> stranded(world@).contains(#[trigger] ids[a]),
            forall|j: int|
                0 <= j < i && stranded(world@).contains(world.collisions.keys()[j])
                    ==> ids@.contains(#[trigger] world.collisions.keys()[j]),
        decreases n - i,
    {
        let ghost before = ids@;
        let k = world.collisions.key_at(i);
        proof {
            world.collisions.lemma_row(i as int);
        }
        if world.collisions.value_at(i).ephemeral {
            match world.actors.get(k) {
                Some(a) => {
                    let pos = a.pos;
                    if world.occupied_at(pos, true, true) || !world.occupied_at(pos, true, false) {
                        ids.push(k);
                    }
                },
                None => {},
            }
        }
        proof {
            assert forall|j: int|
                0 <= j < i + 1 && stranded(world@).contains(
                    world.collisions.keys()[j],
                ) implies ids@.contains(#[trigger] world.collisions.keys()[j]) by {
                if j < i {
                    let a = before.index_of(world.collisions.keys()[j]);
                    assert(ids@[a] == world.collisions.keys()[j]);
                } else {
                    assert(ids@[ids.len() - 1] == world.collisions.keys()[j]);
                }
            }
        }
        i = i + 1;
    }
    proof {
        assert forall|e: i64| ids@.to_set().contains(e) == stranded(world@).contains(e) by {
            if stranded(world@).contains(e) {
                let j = world.collisions.lemma_key(e);
                assert(ids@.contains(world.collisions.keys()[j]));
            }
            if ids@.contains(e) {
                let a = ids@.index_of(e);
                assert(ids@[a] == e);
            }
        }
        assert(ids@.to_set() =~= stranded(world@));
    }
    destroy_all(world, &ids);
}

/// The tile that entity `e` moves to if nothing stops it: its tile plus its
/// velocity.
pub open spec fn target_tile(m: WorldView, e: i64) -> WorldPoint {
    WorldPoint {
        x: (m.actors[e].pos.x + m.velocities[e].dx) as i64,
        y: (m.actors[e].pos.y + m.velocities[e].dy) as i64,
    }
}

/// Whether every entity that has an actor and a velocity has a target tile
/// within the range of the integers.
pub open spec fn move_fits(m: WorldView) -> bool {
    forall|e: i64|
        m.actors.dom().contains(e) && #[trigger] m.velocities.dom().contains(e) ==> fits(
            m.actors[e].pos.x + m.velocities[e].dx,
        ) && fits(m.actors[e].pos.y + m.velocities[e].dy)
}

/// Whether the move of `e` is stopped: `e` is solid and so is something on its
/// target tile. What is not solid is stopped by nothing.
pub open spec fn blocked(m: WorldView, e: i64) -> bool {
    m.flagged(e, false, true) && m.has_solid(target_tile(m, e))
}

/// The actor row `a` of entity `e` after the movement step.
pub open spec fn moved_actor(m: WorldView, e: i64, a: Actor) -> Actor {
    if m.velocities.dom().contains(e) && !blocked(m, e) {
        Actor { pos: target_tile(m, e), ..a }
    } else {
        a
    }
}

/// The world after the movement step. Every move is decided on the world as it
/// was before the step: no move sees another move of the same step.
pub open spec fn moved(m: WorldView) -> WorldView {
    WorldView {
        actors: Map::new(
            |e: i64| m.actors.dom().contains(e),
            |e: i64| moved_actor(m, e, m.actors[e]),
        ),
        ..m
    }
}

/// Movement resolution, for one entity with an actor and a velocity whose sum
/// is a tile: where no solid entity is on that tile, the entity is there after
/// the step, its position the sum of its position and its velocity before the
/// step; where one is and the entity is solid itself, it stays where it was.
pub proof fn lemma_move_resolution(m: WorldView, e: i64)
    requires
        m.actors.dom().contains(e),
        m.velocities.dom().contains(e),
        fits(m.actors[e].pos.x + m.velocities[e].dx),
        fits(m.actors[e].pos.y + m.velocities[e].dy),
    ensures
        !m.has_solid(target_tile(m, e)) ==> moved(m).actors[e].pos.x == m.actors[e].pos.x
            + m.velocities[e].dx && moved(m).actors[e].pos.y == m.actors[e].pos.y
            + m.velocities[e].dy,
        m.has_solid(target_tile(m, e)) && m.flagged(e, false, true) ==> moved(m).actors[e].pos
            == m.actors[e].pos,
        m.has_solid(target_tile(m, e)) && !m.flagged(e, false, true) ==> moved(m).actors[e].pos
            == target_tile(m, e),
{
}

/// Movement leaves every entity without a velocity where it is, and changes
/// nothing but positions.
pub proof fn lemma_move_frame(m: WorldView, e: i64)
    requires
        m.actors.dom().contains(e),
    ensures
        moved(m).actors.dom() == m.actors.dom(),
        !m.velocities.dom().contains(e) ==> moved(m).actors[e] == m.actors[e],
        moved(m).actors[e] == (Actor { pos: moved(m).actors[e].pos, ..m.actors[e] }),
{
    assert(moved(m).actors.dom() =~= m.actors.dom());
}

/// Movement resolution: moves every entity that has an actor and a velocity by
/// its velocity, unless it is solid and its target tile holds a solid entity.
/// See `moved`. Velocities stay as they are. Fails with `Overflow`, moving
/// nothing, when some target tile leaves the range of the integers.
pub fn move_actors(world: &mut World) -> (r: Result<(), StoreError>)
    requires
        old(world).wf(),
    ensures
        final(world).wf(),
        r.is_ok() == move_fits(old(world)@),
        r.is_ok() ==> final(world)@ == moved(old(world)@),
        r matches Err(e) ==> e == StoreError::Overflow && final(world)@ == old(world)@,
{
    proof {
        world.unfold();
    }
    let n = world.actors.len();
    let mut next: Vec<Actor> = Vec::new();
    let mut i: usize = 0;
    while i < n
        invariant
            *world == *old(world),
            world.wf(),
            world.tables_wf(),
            world@.actors == world.actors@,
            world@.velocities == world.velocities@,
            world@.collisions == world.collisions@,
            n == world.actors.keys().len(),
            i <= n,
            next.len() == i,
            forall|j: int|
                0 <= j < i && world@.velocities.dom().contains(#[trigger] world.actors.keys()[j])
                    ==> fits(
                    world.actors.vals()[j].pos.x + world@.velocities[world.actors.keys()[j]].dx,
                ) && fits(
                    world.actors.vals()[j].pos.y + world@.velocities[world.actors.keys()[j]].dy,
                ),
            forall|j: int|
                0 <= j < i ==> #[trigger] next[j] == moved_actor(
                    world@,
                    world.actors.keys()[j],
                    world.actors.vals()[j],
                ),
        decreases n - i,
    {
        let k = world.actors.key_at(i);
        let a = world.actors.value_at(i);
        proof {
            world.actors.lemma_row(i as int);
        }
        match world.velocities.get(k) {
            None => {
                next.push(a.clone());
            },
            Some(v) => {
                match (a.pos.x.checked_add(v.dx), a.pos.y.checked_add(v.dy)) {
                    (Some(x), Some(y)) => {
                        let dest = WorldPoint { x, y };
                        let solid = match world.collisions.get(k) {
                            Some(c) => c.solid,
                            None => false,
                        };
                        if solid && world.occupied_at(dest, false, true) {
                            next.push(a.clone());
                        } else {
                            next.push(
                                Actor {
                                    entity: a.entity,
                                    tile: a.tile.clone(),
                                    pos: dest,
                                    color: a.color,
                                    plane: a.plane,
                                },
                            );
                        }
                    },
                    _ => {
                        return Err(StoreError::Overflow);
                    },
                }
            },
        }
        i = i + 1;
    }
    proof {
        assert forall|e: i64|
            world@.actors.dom().contains(e) && #[trigger] world@.velocities.dom().contains(
                e,
            ) implies fits(world@.actors[e].pos.x + world@.velocities[e].dx) && fits(
            world@.actors[e].pos.y + world@.velocities[e].dy,
        ) by {
            let j = world.actors.lemma_key(e);
            assert(world.actors.keys()[j] == e);
        }
    }
    let ghost before = world.actors;
    world.actors.replace_values(next);
    proof {
        world.unfold();
        let m = old(world)@;
        world.actors.lemma_mapped(&before, |k: i64, a: Actor| moved_actor(m, k, a));
        assert(world.actors@ =~= moved(m).actors);
    }
    Ok(())
}

/// Whether `t` is a transition that the player stands on: `t` has a transition
/// row and an actor, and the player has an actor on the same tile.
pub open spec fn leads(m: WorldView, t: i64) -> bool {
    &&& m.player matches Some(p) && m.actors.dom().contains(p.entity.id) && m.actors[t].pos
        == m.actors[p.entity.id].pos
    &&& m.transitions.dom().contains(t)
    &&& m.actors.dom().contains(t)
}

/// Whether `t` is the transition that the player takes: of the transitions
/// that the player stands on, the one with the smallest identifier.
pub open spec fn taken(m: WorldView, t: i64) -> bool {
    leads(m, t) && forall|o: i64| leads(m, o) ==> t <= o
}

/// The transition that the player takes, if the player stands on one.
pub open spec fn taken_transition(m: WorldView) -> Option<i64> {
    if exists|t: i64| leads(m, t) {
        Some(choose|t: i64| taken(m, t))
    } else {
        None
    }
}

/// The level that the player is sent to, if the player stands on a
/// transition.
pub open spec fn followed_level(m: WorldView) -> Option<String> {
    match taken_transition(m) {
        Some(t) => Some(m.transitions[t].level),
        None => None,
    }
}

/// The world after the player followed the transition that it stands on, if
/// any: the player's level is the target of the transition.
pub open spec fn followed(m: WorldView) -> WorldView {
    match followed_level(m) {
        Some(level) => m.with_player(Player { level, ..m.player.unwrap() }),
        None => m,
    }
}

/// At most one transition is the one taken.
pub proof fn lemma_taken_unique(m: WorldView, a: i64, b: i64)
    requires
        taken(m, a),
        taken(m, b),
    ensures
        a == b,
{
}

/// Follows a transition: where the player stands on the tile of a transition,
/// the player's level becomes the target of the transition, which is returned.
/// Of several transitions on the tile, the one with the smallest identifier is
/// taken. Where the player stands on none, nothing changes.
pub fn follow_transition(world: &mut World) -> (r: Option<String>)
    requires
        old(world).wf(),
    ensures
        final(world).wf(),
        r == followed_level(old(world)@),
        final(world)@ == followed(old(world)@),
        r.is_some() == (exists|t: i64| leads(old(world)@, t)),
{
    proof {
        world.unfold();
    }
    let (pid, is_creative, turn, outstanding_turns) = match &world.player {
        Some(p) => (p.entity, p.is_creative, p.turn, p.outstanding_turns),
        None => {
            return None;
        },
    };
    let pos = match world.actors.get(pid.id) {
        Some(a) => a.pos,
        None => {
            return None;
        },
    };
    let n = world.transitions.len();
    let mut best: Option<usize> = None;
    let mut i: usize = 0;
    while i < n
        invariant
            *world == *old(world),
            world.wf(),
            world.tables_wf(),
            world@.actors == world.actors@,
            world@.transitions == world.transitions@,
            world@.valid(),
            world@.player matches Some(p) && p.entity == pid,
            world@.actors.dom().contains(pid.id),
            world@.actors[pid.id].pos == pos,
            n == world.transitions.keys().len(),
            i <= n,
            best matches Some(b) ==> b < i && leads(world@, world.transitions.keys()[b as int]),
            forall|j: int|
                0 <= j < i && leads(world@, #[trigger] world.transitions.keys()[j]) ==> (
                best matches Some(b) && world.transitions.keys()[b as int]
                    <= world.transitions.keys()[j]),
        decreases n - i,
    {
        let k = world.transitions.key_at(i);
        proof {
            world.transitions.lemma_row(i as int);
        }
        let here = match world.actors.get(k) {
            Some(a) => a.pos.x == pos.x && a.pos.y == pos.y,
            None => false,
        };
        if here {
            let better = match best {
                Some(b) => k < world.transitions.key_at(b),
                None => true,
            };
            if better {
                best = Some(i);
            }
        }
        i = i + 1;
    }
    match best {
        None => {
            proof {
                assert forall|t: i64| !leads(world@, t) by {
                    if leads(world@, t) {
                        let j = world.transitions.lemma_key(t);
                        assert(world.transitions.keys()[j] == t);
                    }
                }
            }
            None
        },
        Some(b) => {
            let level = world.transitions.value_at(b).level.clone();
            proof {
                world.unfold();
                let t = world.transitions.keys()[b as int];
                world.transitions.lemma_row(b as int);
                assert forall|o: i64| leads(world@, o) implies t <= o by {
                    let j = world.transitions.lemma_key(o);
                    assert(world.transitions.keys()[j] == o);
                }
                assert(taken(world@, t));
                assert(leads(world@, t));
                let c = choose|c: i64| taken(world@, c);
                lemma_taken_unique(world@, t, c);
            }
            world.player = Some(
                Player { entity: pid, is_creative, turn, outstanding_turns, level: level.clone() },
            );
            proof {
                world.unfold();
                assert(world@.velocities == old(world)@.velocities);
                assert(world@.collisions == old(world)@.collisions);
                assert(world@.healths == old(world)@.healths);
                assert(world@.ais == old(world)@.ais);
            }
            Some(level)
        },
    }
}

/// The width of the window in which pursuers find their way.
pub const PATH_WIDTH: usize = 80;

/// The height of the window in which pursuers find their way.
pub const PATH_HEIGHT: usize = 25;

/// The greatest number of steps over which a pursuer finds its way.
pub const PATH_RADIUS: u32 = 64;

/// The step that the draw `r` stands for: the nine steps of at most one tile
/// in each direction, standing still among them, one for each draw from 0 to 8.
pub open spec fn random_step(r: int) -> Velocity {
    Velocity { dx: (r / 3 - 1) as i64, dy: (r % 3 - 1) as i64 }
}

/// The step that the draw `r` stands for: see `random_step`.
pub fn random_direction(r: i64) -> (v: Velocity)
    requires
        0 <= r <= 8,
    ensures
        v == random_step(r as int),
        -1 <= v.dx <= 1,
        -1 <= v.dy <= 1,
{
    Velocity { dx: r / 3 - 1, dy: r % 3 - 1 }
}

/// The nine draws give nine different steps, so each step has one draw.
pub proof fn lemma_random_steps_differ(r: int, s: int)
    requires
        0 <= r <= 8,
        0 <= s <= 8,
        random_step(r) == random_step(s),
    ensures
        r == s,
{
}

/// The step of a pursuer `e`: one step down the distance field around the
/// player's tile, over the passable tiles of the window and within the radius.
/// No step where the player or the pursuer has no actor, or where no path
/// leads nearer: the pursuer then holds its position.
pub open spec fn pursuit(m: WorldView, e: i64) -> Velocity {
    match m.player {
        Some(p) => if m.actors.dom().contains(p.entity.id) && m.actors.dom().contains(e) {
            pursuit_step(
                ground_plan(m, PATH_WIDTH as int, PATH_HEIGHT as int),
                m.actors[p.entity.id].pos,
                m.actors[e].pos,
                PATH_RADIUS as nat,
            )
        } else {
            Velocity { dx: 0, dy: 0 }
        },
        None => Velocity { dx: 0, dy: 0 },
    }
}

/// In a room with no obstacle, a pursuer comes nearer with every step. Where
/// the passable tiles of the window are those of a `w` by `h` room, and the
/// pursuer stands in the room within the radius of the player and not on the
/// player's tile, its pursuit step takes one off its Manhattan distance to the
/// player.
pub proof fn lemma_pursuit_in_open_room(m: WorldView, e: i64, w: int, h: int)
    requires
        m.player.is_some(),
        m.actors.dom().contains(m.player.unwrap().entity.id),
        m.actors.dom().contains(e),
        0 <= w <= PATH_WIDTH,
        0 <= h <= PATH_HEIGHT,
        forall|p: WorldPoint|
            0 <= p.x < PATH_WIDTH && 0 <= p.y < PATH_HEIGHT ==> (#[trigger] m.passable(p) <==> p.x
                < w && p.y < h),
        in_room(
            w,
            h,
            m.actors[m.player.unwrap().entity.id].pos.x as int,
            m.actors[m.player.unwrap().entity.id].pos.y as int,
        ),
        in_room(w, h, m.actors[e].pos.x as int, m.actors[e].pos.y as int),
        0 < manhattan(
            m.actors[e].pos.x as int,
            m.actors[e].pos.y as int,
            m.actors[m.player.unwrap().entity.id].pos.x as int,
            m.actors[m.player.unwrap().entity.id].pos.y as int,
        ) <= PATH_RADIUS,
    ensures
        ({
            let goal = m.actors[m.player.unwrap().entity.id].pos;
            let pos = m.actors[e].pos;
            let v = pursuit(m, e);
            manhattan(pos.x + v.dx, pos.y + v.dy, goal.x as int, goal.y as int) == manhattan(
                pos.x as int,
                pos.y as int,
                goal.x as int,
                goal.y as int,
            ) - 1
        }),
{
    let goal = m.actors[m.player.unwrap().entity.id].pos;
    let pos = m.actors[e].pos;
    assert forall|x: int, y: int|
        ground_plan(m, PATH_WIDTH as int, PATH_HEIGHT as int)(x, y) == #[trigger] in_room(
            w,
            h,
            x,
            y,
        ) by {
        if 0 <= x < PATH_WIDTH && 0 <= y < PATH_HEIGHT {
            let p = WorldPoint { x: x as i64, y: y as i64 };
            assert(m.passable(p) <==> p.x < w && p.y < h);
        }
    }
    assert(ground_plan(m, PATH_WIDTH as int, PATH_HEIGHT as int) =~= open_room(w, h));
    lemma_open_room_pursuit(w, h, goal, pos, PATH_RADIUS as nat);
}

/// Whether `after` is a velocity that the decision step may give entity `e`,
/// which had `before`: any of the nine random steps under the directive
/// `Random`, the pursuit step under `TargetPlayer`, and `before` itself for an
/// entity without a directive.
pub open spec fn steered(m: WorldView, e: i64, before: Velocity, after: Velocity) -> bool {
    if m.ais.dom().contains(e) {
        match m.ais[e] {
            AiDirective::Random => exists|r: int| 0 <= r <= 8 && after == random_step(r),
            AiDirective::TargetPlayer => after == pursuit(m, e),
        }
    } else {
        after == before
    }
}

/// The decision step: gives every entity that has a velocity and a directive
/// its velocity for this turn. Under `Random`, one of the nine steps is drawn,
/// for each entity by itself. Under `TargetPlayer`, the velocity is the pursuit
/// step, decided on the world as it is before the step. Nothing else changes.
pub fn apply_ai(world: &mut World, rng: &mut GameRng)
    requires
        old(world).wf(),
    ensures
        final(world).wf(),
        final(world)@ == (WorldView { velocities: final(world)@.velocities, ..old(world)@ }),
        final(world)@.velocities.dom() == old(world)@.velocities.dom(),
        forall|e: i64| #[trigger]
            old(world)@.velocities.dom().contains(e) ==> steered(
                old(world)@,
                e,
                old(world)@.velocities[e],
                final(world)@.velocities[e],
            ),
{
    proof {
        world.unfold();
    }
    let goal: Option<WorldPoint> = match &world.player {
        Some(p) => match world.actors.get(p.entity.id) {
            Some(a) => Some(a.pos),
            None => None,
        },
        None => None,
    };
    let mut field: Option<DistanceField> = None;
    let n = world.velocities.len();
    let mut next: Vec<Velocity> = Vec::new();
    let mut i: usize = 0;
    while i < n
        invariant
            *world == *old(world),
            world.wf(),
            world.tables_wf(),
            world@.actors == world.actors@,
            world@.velocities == world.velocities@,
            world@.ais == world.ais@,
            world@.player == world.player,
            goal == (match world@.player {
                Some(p) => if world@.actors.dom().contains(p.entity.id) {
                    Some(world@.actors[p.entity.id].pos)
                } else {
                    None
                },
                None => None,
            }),
            field matches Some(f) ==> goal.is_some() && f.wf() && forall|x: int, y: int| #[trigger]
                f.at(x, y) == distance(
                    ground_plan(world@, PATH_WIDTH as int, PATH_HEIGHT as int),
                    goal.unwrap().x as int,
                    goal.unwrap().y as int,
                    x,
                    y,
                    PATH_RADIUS as nat,
                ),
            n == world.velocities.keys().len(),
            i <= n,
            next.len() == i,
            forall|j: int|
                0 <= j < i ==> steered(
                    world@,
                    world.velocities.keys()[j],
                    world.velocities.vals()[j],
                    #[trigger] next[j],
                ),
        decreases n - i,
    {
        let k = world.velocities.key_at(i);
        let v = *world.velocities.value_at(i);
        let chosen = match world.ais.get(k) {
            None => v,
            Some(AiDirective::Random) => {
                let r = pcg_randint(rng, 0, 8);
                random_direction(r)
            },
            Some(AiDirective::TargetPlayer) => {
                match (goal, world.actors.get(k)) {
                    (Some(g), Some(a)) => {
                        if field.is_none() {
                            let grid = walkability_grid(world, PATH_WIDTH, PATH_HEIGHT);
                            field = Some(flood(&grid, g, PATH_RADIUS));
                        }
                        match &field {
                            Some(f) => descend(f, a.pos),
                            None => Velocity { dx: 0, dy: 0 },
                        }
                    },
                    _ => Velocity { dx: 0, dy: 0 },
                }
            },
        };
        next.push(chosen);
        i = i + 1;
    }
    let ghost before = world.velocities;
    world.velocities.replace_values(next);
    proof {
        world.unfold();
        let m = old(world)@;
        assert forall|e: i64| world.velocities@.dom().contains(e) == m.velocities.dom().contains(
            e,
        ) by {
            if world.velocities@.dom().contains(e) {
                let j = world.velocities.lemma_key(e);
                before.lemma_row(j);
            }
            if m.velocities.dom().contains(e) {
                let j = before.lemma_key(e);
                world.velocities.lemma_row(j);
            }
        }
        assert(world.velocities@.dom() =~= m.velocities.dom());
        assert forall|e: i64| #[trigger] m.velocities.dom().contains(e) implies steered(
            m,
            e,
            m.velocities[e],
            world@.velocities[e],
        ) by {
            let j = before.lemma_key(e);
            world.velocities.lemma_row(j);
        }
        assert(world@.actors == m.actors);
        assert(world@.collisions == m.collisions);
        assert(world@.healths == m.healths);
        assert(world@.ais == m.ais);
        assert(world@.transitions == m.transitions);
        assert(world@.entities == m.entities);
    }
}

} // verus!
