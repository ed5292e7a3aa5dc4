//! The world: the entity registry and the component tables, and the
//! mathematical model that every contract of the library speaks of.

use crate::component::actor::Actor;
use crate::component::ai::AiDirective;
use crate::component::collision::Collision;
use crate::component::health::Health;
use crate::component::player::Player;
use crate::component::transition::Transition;
use crate::component::velocity::Velocity;
use crate::game_object::WorldPoint;
use crate::table::Table;
use vstd::prelude::*;

verus! {

/// The world as mathematics: the set of live entity ids, the next id that the
/// registry hands out, the player row, and one map per component kind.
pub struct WorldView {
    pub next_id: i64,
    pub entities: Set<i64>,
    pub player: Option<Player>,
    pub actors: Map<i64, Actor>,
    pub velocities: Map<i64, Velocity>,
    pub collisions: Map<i64, Collision>,
    pub healths: Map<i64, Health>,
    pub ais: Map<i64, AiDirective>,
    pub transitions: Map<i64, Transition>,
}

impl WorldView {
    /// The world before anything was created: no entity, no row, and 1 as the
    /// first identifier to hand out.
    pub open spec fn empty() -> WorldView {
        WorldView {
            next_id: 1,
            entities: Set::empty(),
            player: None,
            actors: Map::empty(),
            velocities: Map::empty(),
            collisions: Map::empty(),
            healths: Map::empty(),
            ais: Map::empty(),
            transitions: Map::empty(),
        }
    }

    /// Referential integrity: every row belongs to a live entity, every live
    /// entity has an id that was handed out, and an actor row names its owner.
    pub open spec fn valid(self) -> bool {
        &&& 1 <= self.next_id
        &&& forall|e: i64| self.entities.contains(e) ==> 1 <= e < self.next_id
        &&& (self.player matches Some(p) ==> self.entities.contains(p.entity.id))
        &&& forall|e: i64| #[trigger]
            self.actors.dom().contains(e) ==> self.entities.contains(e) && self.actors[e].entity.id
                == e
        &&& forall|e: i64| #[trigger]
            self.velocities.dom().contains(e) ==> self.entities.contains(e)
        &&& forall|e: i64| #[trigger]
            self.collisions.dom().contains(e) ==> self.entities.contains(e)
        &&& forall|e: i64| #[trigger] self.healths.dom().contains(e) ==> self.entities.contains(e)
        &&& forall|e: i64| #[trigger] self.ais.dom().contains(e) ==> self.entities.contains(e)
        &&& forall|e: i64| #[trigger]
            self.transitions.dom().contains(e) ==> self.entities.contains(e)
    }

    /// Whether the registry or any table holds a row for `e`.
    pub open spec fn refers_to(self, e: i64) -> bool {
        ||| self.entities.contains(e)
        ||| (self.player matches Some(p) && p.entity.id == e)
        ||| self.actors.dom().contains(e)
        ||| self.velocities.dom().contains(e)
        ||| self.collisions.dom().contains(e)
        ||| self.healths.dom().contains(e)
        ||| self.ais.dom().contains(e)
        ||| self.transitions.dom().contains(e)
    }

    /// The world after the entities in `dead` were destroyed: they leave the
    /// registry, and every row of theirs leaves its table.
    pub open spec fn without(self, dead: Set<i64>) -> WorldView {
        WorldView {
            next_id: self.next_id,
            entities: self.entities.difference(dead),
            player: match self.player {
                Some(p) => if dead.contains(p.entity.id) {
                    None
                } else {
                    Some(p)
                },
                None => None,
            },
            actors: self.actors.remove_keys(dead),
            velocities: self.velocities.remove_keys(dead),
            collisions: self.collisions.remove_keys(dead),
            healths: self.healths.remove_keys(dead),
            ais: self.ais.remove_keys(dead),
            transitions: self.transitions.remove_keys(dead),
        }
    }

    /// The world with the player row `p`.
    pub open spec fn with_player(self, p: Player) -> WorldView {
        WorldView { player: Some(p), ..self }
    }

    /// The world with `a` as the actor row of the entity that `a` names.
    pub open spec fn with_actor(self, a: Actor) -> WorldView {
        WorldView { actors: self.actors.insert(a.entity.id, a), ..self }
    }

    /// The world with `v` as the velocity row of entity `e`.
    pub open spec fn with_velocity(self, e: i64, v: Velocity) -> WorldView {
        WorldView { velocities: self.velocities.insert(e, v), ..self }
    }

    /// The world with `c` as the collision row of entity `e`.
    pub open spec fn with_collision(self, e: i64, c: Collision) -> WorldView {
        WorldView { collisions: self.collisions.insert(e, c), ..self }
    }

    /// The world with `h` as the health row of entity `e`.
    pub open spec fn with_health(self, e: i64, h: Health) -> WorldView {
        WorldView { healths: self.healths.insert(e, h), ..self }
    }

    /// The world with `d` as the directive of entity `e`.
    pub open spec fn with_ai(self, e: i64, d: AiDirective) -> WorldView {
        WorldView { ais: self.ais.insert(e, d), ..self }
    }

    /// The world with `t` as the transition row of entity `e`.
    pub open spec fn with_transition(self, e: i64, t: Transition) -> WorldView {
        WorldView { transitions: self.transitions.insert(e, t), ..self }
    }

    /// The world with one more live entity, whose id is the next to hand out.
    pub open spec fn with_new_entity(self) -> WorldView {
        WorldView {
            next_id: (self.next_id + 1) as i64,
            entities: self.entities.insert(self.next_id),
            ..self
        }
    }

    /// Whether entity `e` has an actor that stands on tile `p`.
    pub open spec fn stands_at(self, e: i64, p: WorldPoint) -> bool {
        self.actors.dom().contains(e) && self.actors[e].pos == p
    }

    /// Whether entity `e` has a collision row that carries the asked flags.
    pub open spec fn flagged(self, e: i64, ground: bool, solid: bool) -> bool {
        &&& self.collisions.dom().contains(e)
        &&& ground ==> self.collisions[e].ground
        &&& solid ==> self.collisions[e].solid
    }

    /// Whether some entity with the asked collision flags stands on tile `p`.
    pub open spec fn occupied(self, p: WorldPoint, ground: bool, solid: bool) -> bool {
        exists|e: i64| #[trigger] self.stands_at(e, p) && self.flagged(e, ground, solid)
    }

    /// Some entity that others can stand on is on tile `p`.
    pub open spec fn has_ground(self, p: WorldPoint) -> bool {
        self.occupied(p, true, false)
    }

    /// Some solid entity is on tile `p`.
    pub open spec fn has_solid(self, p: WorldPoint) -> bool {
        self.occupied(p, false, true)
    }

    /// Some entity that is both ground and solid, such as a wall, is on tile `p`.
    pub open spec fn has_blocker(self, p: WorldPoint) -> bool {
        self.occupied(p, true, true)
    }

    /// The passable-tile view: `p` holds ground and nothing that is both ground
    /// and solid.
    pub open spec fn passable(self, p: WorldPoint) -> bool {
        self.has_ground(p) && !self.has_blocker(p)
    }
}

/// The world: entity registry, player row and component tables.
pub struct World {
    pub(crate) next_id: i64,
    pub(crate) entities: Table<()>,
    pub(crate) player: Option<Player>,
    pub(crate) actors: Table<Actor>,
    pub(crate) velocities: Table<Velocity>,
    pub(crate) collisions: Table<Collision>,
    pub(crate) healths: Table<Health>,
    pub(crate) ais: Table<AiDirective>,
    pub(crate) transitions: Table<Transition>,
}

impl World {
    /// The model of the world.
    pub closed spec fn view(&self) -> WorldView {
        WorldView {
            next_id: self.next_id,
            entities: self.entities@.dom(),
            player: self.player,
            actors: self.actors@,
            velocities: self.velocities@,
            collisions: self.collisions@,
            healths: self.healths@,
            ais: self.ais@,
            transitions: self.transitions@,
        }
    }

    /// Every table is well formed.
    pub(crate) open spec fn tables_wf(&self) -> bool {
        &&& self.entities.wf()
        &&& self.actors.wf()
        &&& self.velocities.wf()
        &&& self.collisions.wf()
        &&& self.healths.wf()
        &&& self.ais.wf()
        &&& self.transitions.wf()
    }

    /// The world is well formed: its tables are, and its model is valid.
    pub closed spec fn wf(&self) -> bool {
        self.tables_wf() && self@.valid()
    }

    /// What `view` and `wf` stand for, for the modules that work on the tables.
    pub(crate) proof fn unfold(&self)
        ensures
            self@ == (WorldView {
                next_id: self.next_id,
                entities: self.entities@.dom(),
                player: self.player,
                actors: self.actors@,
                velocities: self.velocities@,
                collisions: self.collisions@,
                healths: self.healths@,
                ais: self.ais@,
                transitions: self.transitions@,
            }),
            self@.next_id == self.next_id,
            self@.entities == self.entities@.dom(),
            self@.player == self.player,
            self@.actors == self.actors@,
            self@.velocities == self.velocities@,
            self@.collisions == self.collisions@,
            self@.healths == self.healths@,
            self@.ais == self.ais@,
            self@.transitions == self.transitions@,
            self.wf() == (self.tables_wf() && self@.valid()),
    {
    }

    /// A well-formed world has a valid model.
    pub proof fn lemma_wf_valid(&self)
        requires
            self.wf(),
        ensures
            self@.valid(),
    {
    }

    /// The next identifier that the registry hands out.
    pub fn next_id(&self) -> (id: i64)
        ensures
            id == self@.next_id,
    {
        self.next_id
    }

    /// A copy of the world, to go back to when a turn fails half way.
    pub fn snapshot(&self) -> (w: World)
        requires
            self.wf(),
        ensures
            w.wf(),
            w@ == self@,
    {
        let player = match &self.player {
            Some(p) => Some(p.clone()),
            None => None,
        };
        World {
            next_id: self.next_id,
            entities: self.entities.duplicate(),
            player,
            actors: self.actors.duplicate(),
            velocities: self.velocities.duplicate(),
            collisions: self.collisions.duplicate(),
            healths: self.healths.duplicate(),
            ais: self.ais.duplicate(),
            transitions: self.transitions.duplicate(),
        }
    }

    /// Whether some entity with the asked collision flags stands on tile `p`.
    pub fn occupied_at(&self, p: WorldPoint, ground: bool, solid: bool) -> (b: bool)
        requires
            self.wf(),
        ensures
            b == self@.occupied(p, ground, solid),
    {
        let mut i: usize = 0;
        while i < self.actors.len()
            invariant
                self.tables_wf(),
                i <= self.actors.keys().len(),
                forall|j: int|
                    0 <= j < i ==> !(self.actors.vals()[j].pos == p && self@.flagged(
                        #[trigger] self.actors.keys()[j],
                        ground,
                        solid,
                    )),
            decreases self.actors.keys().len() - i,
        {
            let a = self.actors.value_at(i);
            if a.pos.x == p.x && a.pos.y == p.y {
                let k = self.actors.key_at(i);
                match self.collisions.get(k) {
                    Some(c) => {
                        if (!ground || c.ground) && (!solid || c.solid) {
                            proof {
                                self.actors.lemma_row(i as int);
                                assert(self@.stands_at(k, p) && self@.flagged(k, ground, solid));
                            }
                            return true;
                        }
                    },
                    None => {},
                }
            }
            i = i + 1;
        }
        proof {
            if self@.occupied(p, ground, solid) {
                let e = choose|e: i64| #[trigger]
                    self@.stands_at(e, p) && self@.flagged(e, ground, solid);
                let j = self.actors.lemma_key(e);
                assert(self.actors.keys()[j] == e);
            }
        }
        false
    }
}

} // verus!
