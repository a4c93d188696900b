//! The mutable game aggregate: the static terrain map and the roster of
//! combatants, with the initiative scheduler and the roster-wide mutations
//! used by the ability resolver.

use vstd::prelude::*;

use crate::abilities::{costs_spec, delay_spec, Ability, AbilityName};
use crate::charclasses::{attack_damage, CharClass};
use crate::coords::{in_calc_bounds, Coords};
use crate::entity::{clone_log, clone_resources, deduct_named, deduct_resource, has_resource,
    resource_value, unique_resource_names, wf_entity, wf_resource, ActionLog, Entity, EntityV,
    Resource, REGEN_LIMIT, RES_LIMIT, TIME_LIMIT};
use crate::errors::ServiceError;
use crate::tiles::{TileMap, TileType};

verus! {

broadcast use vstd::seq_lib::group_filter_ensures;

/// The mathematical model of a game: its id, terrain, and roster.
pub ghost struct GameV {
    pub id: u64,
    pub map: Map<Coords, TileType>,
    pub entities: Seq<EntityV>,
}

/// A running match: a unique id, the terrain map (static after creation)
/// and the roster of combatants.
pub struct Game {
    pub id: u64,
    pub entities: Vec<Entity>,
    pub map: TileMap,
}

impl View for Game {
    type V = GameV;

    open spec fn view(&self) -> GameV {
        GameV {
            id: self.id,
            map: self.map@,
            entities: self.entities@.map_values(|e: Entity| e@),
        }
    }
}

/// Roster entries carry pairwise distinct entity ids.
pub open spec fn unique_ids(s: Seq<EntityV>) -> bool {
    forall|i: int, j: int| 0 <= i < j < s.len() ==> (#[trigger] s[i]).id != (#[trigger] s[j]).id
}

/// Well-formedness of a game: a well-formed map and a roster of well-formed
/// combatants with distinct ids.
pub open spec fn wf_game(g: Game) -> bool {
    &&& g.map.wf()
    &&& unique_ids(g@.entities)
    &&& forall|i: int| 0 <= i < g@.entities.len() ==> wf_entity(#[trigger] g@.entities[i])
}

/// `e` is scheduled strictly ahead of `acc`: an earlier next-move time, or
/// the same time and a larger id (the deterministic tie-break).
pub open spec fn sched_prior(e: EntityV, acc: EntityV) -> bool {
    e.next_move_time < acc.next_move_time || (e.next_move_time == acc.next_move_time && e.id
        > acc.id)
}

/// Index `i` holds the acting entity: no roster entry is scheduled ahead of
/// it, and it is the first entry with its scheduling key.
pub open spec fn is_trait_index(roster: Seq<EntityV>, i: int) -> bool {
    &&& 0 <= i < roster.len()
    &&& forall|j: int| 0 <= j < roster.len() ==> !sched_prior(#[trigger] roster[j], roster[i])
    &&& forall|j: int| 0 <= j < i ==> sched_prior(roster[i], #[trigger] roster[j])
}

/// The scheduler picks one entity: any two acting indices are equal.  With
/// the deterministic tie-break, repeated scheduling decisions over the same
/// roster always name the same entity.
pub proof fn lemma_trait_index_unique(roster: Seq<EntityV>, i: int, j: int)
    requires
        is_trait_index(roster, i),
        is_trait_index(roster, j),
    ensures
        i == j,
{
    if i < j {
        assert(sched_prior(roster[j], roster[i]));
    }
    if j < i {
        assert(sched_prior(roster[i], roster[j]));
    }
}

impl Game {
    /// A fresh game under the given id: a three-tile floor strip and an
    /// empty roster.
    pub fn new(id: u64) -> (r: Game)
        ensures
            wf_game(r),
            r@.id == id,
            r@.entities.len() == 0,
            r@.map == Map::<Coords, TileType>::empty().insert(Coords { x: -2i64, y: 0i64 },
                TileType::Floor,
            ).insert(Coords { x: 0i64, y: 0i64 }, TileType::Floor).insert(
                Coords { x: 2i64, y: 0i64 },
                TileType::Floor,
            ),
    {
        let mut map = TileMap::new();
        map.insert(Coords { x: -2, y: 0 }, TileType::Floor);
        map.insert(Coords { x: 0, y: 0 }, TileType::Floor);
        map.insert(Coords { x: 2, y: 0 }, TileType::Floor);
        Game { id, entities: Vec::new(), map }
    }

    /// The roster position of the acting entity: the entity with the least
    /// `next_move_time`, ties broken toward the larger id.  Errs on an
    /// empty roster.
    pub fn trait_entity_index(&self) -> (r: Result<usize, ServiceError>)
        ensures
            match r {
                Ok(i) => is_trait_index(self@.entities, i as int),
                Err(e) => self@.entities.len() == 0 && (e matches ServiceError::BadRequest(m)
                    && m@ == "No active entity"@),
            },
    {
        let n = self.entities.len();
        if n == 0 {
            return Err(ServiceError::BadRequest("No active entity".to_owned()));
        }
        let mut best: usize = 0;
        let mut i: usize = 1;
        while i < n
            invariant
                n == self.entities@.len(),
                0 <= best < i <= n,
                forall|j: int| 0 <= j < i ==> !sched_prior(#[trigger] self@.entities[j],
                    self@.entities[best as int],
                ),
                forall|j: int| 0 <= j < best ==> sched_prior(self@.entities[best as int],
                    #[trigger] self@.entities[j],
                ),
            decreases n - i,
        {
            let e_time = self.entities[i].next_move_time;
            let b_time = self.entities[best].next_move_time;
            let e_id = self.entities[i].id;
            let b_id = self.entities[best].id;
            if e_time < b_time || (e_time == b_time && e_id > b_id) {
                proof {
                    assert(sched_prior(self@.entities[i as int], self@.entities[best as int]));
                    assert forall|j: int| 0 <= j < i implies sched_prior(
                        self@.entities[i as int],
                        #[trigger] self@.entities[j],
                    ) by {
                        assert(!sched_prior(self@.entities[j], self@.entities[best as int]));
                    }
                }
                best = i;
            }
            i = i + 1;
        }
        Ok(best)
    }

    /// The acting entity itself; the sole entry point for "whose turn is
    /// it".
    pub fn get_trait_entity(&self) -> (r: Result<&Entity, ServiceError>)
        ensures
            match r {
                Ok(e) => exists|i: int|
                    is_trait_index(self@.entities, i) && e@ == #[trigger] self@.entities[i],
                Err(e) => self@.entities.len() == 0 && (e matches ServiceError::BadRequest(m)
                    && m@ == "No active entity"@),
            },
    {
        match self.trait_entity_index() {
            Ok(i) => {
                let e = &self.entities[i];
                proof {
                    let ghost ii = i as int;
                    assert(is_trait_index(self@.entities, ii) && e@ == self@.entities[ii]);
                }
                Ok(e)
            },
            Err(err) => Err(err),
        }
    }

    /// Clones of the entities of factions other than `index`: the entities
    /// that block (and contest) the given faction's view.
    pub fn blocking_entities(&self, index: i64) -> (r: Vec<Entity>)
        ensures
            r@.map_values(|e: Entity| e@) == self@.entities.filter(
                |ev: EntityV| ev.scenario_player_index != index as int,
            ),
    {
        let n = self.entities.len();
        let mut r: Vec<Entity> = Vec::new();
        let mut i: usize = 0;
        while i < n
            invariant
                n == self.entities@.len(),
                0 <= i <= n,
                r@.map_values(|e: Entity| e@) =~= self@.entities.take(i as int).filter(
                    |ev: EntityV| ev.scenario_player_index != index as int,
                ),
            decreases n - i,
        {
            proof {
                reveal_with_fuel(Seq::filter, 3);
                assert(self@.entities.take(i + 1) =~= self@.entities.take(i as int).push(
                    self@.entities[i as int],
                ));
                Seq::<EntityV>::filter_distributes_over_add(
                    self@.entities.take(i as int),
                    seq![self@.entities[i as int]],
                    |ev: EntityV| ev.scenario_player_index != index as int,
                );
                assert(self@.entities.take(i as int) + seq![self@.entities[i as int]]
                    =~= self@.entities.take(i + 1));
            }
            if self.entities[i].scenario_player_index != index {
                r.push(self.entities[i].clone());
            }
            i = i + 1;
        }
        proof {
            assert(self@.entities.take(n as int) =~= self@.entities);
        }
        r
    }

    /// Clones of the entities of faction `index`: the acting faction's
    /// allied entities, whose positions contribute squad vision.
    pub fn allied_entities(&self, index: i64) -> (r: Vec<Entity>)
        ensures
            r@.map_values(|e: Entity| e@) == self@.entities.filter(
                |ev: EntityV| ev.scenario_player_index == index as int,
            ),
    {
        let n = self.entities.len();
        let mut r: Vec<Entity> = Vec::new();
        let mut i: usize = 0;
        while i < n
            invariant
                n == self.entities@.len(),
                0 <= i <= n,
                r@.map_values(|e: Entity| e@) =~= self@.entities.take(i as int).filter(
                    |ev: EntityV| ev.scenario_player_index == index as int,
                ),
            decreases n - i,
        {
            proof {
                reveal_with_fuel(Seq::filter, 3);
                assert(self@.entities.take(i + 1) =~= self@.entities.take(i as int).push(
                    self@.entities[i as int],
                ));
                Seq::<EntityV>::filter_distributes_over_add(
                    self@.entities.take(i as int),
                    seq![self@.entities[i as int]],
                    |ev: EntityV| ev.scenario_player_index == index as int,
                );
                assert(self@.entities.take(i as int) + seq![self@.entities[i as int]]
                    =~= self@.entities.take(i + 1));
            }
            if self.entities[i].scenario_player_index == index {
                r.push(self.entities[i].clone());
            }
            i = i + 1;
        }
        proof {
            assert(self@.entities.take(n as int) =~= self@.entities);
        }
        r
    }

    /// The roster position of the first entity standing on `c`, if any.
    pub fn find_entity_at(&self, c: &Coords) -> (r: Option<usize>)
        ensures
            match r {
                Some(i) => i < self@.entities.len() && self@.entities[i as int].coords == *c
                    && forall|j: int| 0 <= j < i ==> (#[trigger] self@.entities[j]).coords != *c,
                None => forall|j: int|
                    0 <= j < self@.entities.len() ==> (#[trigger] self@.entities[j]).coords != *c,
            },
    {
        let n = self.entities.len();
        let mut i: usize = 0;
        while i < n
            invariant
                n == self.entities@.len(),
                0 <= i <= n,
                forall|j: int| 0 <= j < i ==> (#[trigger] self@.entities[j]).coords != *c,
            decreases n - i,
        {
            if self.entities[i].coords.x == c.x && self.entities[i].coords.y == c.y {
                return Some(i);
            }
            i = i + 1;
        }
        None
    }

    /// Whether the match has concluded: at most one faction remains on the
    /// roster (teardown itself is a collaborator's responsibility).
    pub fn is_concluded(&self) -> (r: bool)
        ensures
            r <==> forall|i: int, j: int|
                0 <= i < self@.entities.len() && 0 <= j < self@.entities.len() ==> (
                #[trigger] self@.entities[i]).scenario_player_index == (
                #[trigger] self@.entities[j]).scenario_player_index,
    {
        let n = self.entities.len();
        if n == 0 {
            return true;
        }
        let first = self.entities[0].scenario_player_index;
        let mut i: usize = 1;
        while i < n
            invariant
                n == self.entities@.len(),
                n > 0,
                1 <= i <= n,
                first == self@.entities[0].scenario_player_index,
                forall|j: int| 0 <= j < i ==> (#[trigger] self@.entities[j]).scenario_player_index
                    == first,
            decreases n - i,
        {
            if self.entities[i].scenario_player_index != first {
                proof {
                    assert(self@.entities[i as int].scenario_player_index
                        != self@.entities[0].scenario_player_index);
                }
                return false;
            }
            i = i + 1;
        }
        true
    }
}

/// One gauge after `dt` ticks of regeneration, clamped at its maximum.
pub open spec fn regen_resource(r: Resource, dt: int) -> Resource {
    Resource { current: vstd::math::min(r.current + r.per_turn * dt, r.max as int) as i64, ..r }
}

/// A combatant after `dt` ticks of regeneration on every gauge.
pub open spec fn regen_entity(e: EntityV, dt: int) -> EntityV {
    EntityV {
        resources: e.resources.map_values(
            |p: (Seq<char>, Resource)| (p.0, regen_resource(p.1, dt)),
        ),
        ..e
    }
}

/// The entity still stands: its hit points are positive.
pub open spec fn alive(e: EntityV) -> bool {
    resource_value(e, "hp"@) > 0
}

/// Loose per-gauge bounds under which regeneration cannot overflow; damage
/// and cost deduction keep a well-formed roster inside them.
pub open spec fn loose_resource_bounds(e: EntityV) -> bool {
    forall|k: int|
        0 <= k < e.resources.len() ==> {
            let r = (#[trigger] e.resources[k]).1;
            -2 * RES_LIMIT <= r.current <= 2 * RES_LIMIT && -RES_LIMIT <= r.max <= RES_LIMIT && 0
                <= r.per_turn <= REGEN_LIMIT
        }
}

/// The damage an ability deals: full class damage for an attack, 80% of it
/// for a shield bash, nothing otherwise.
pub open spec fn damage_amount(name: AbilityName, class: CharClass) -> int {
    match name {
        AbilityName::Attack => attack_damage(class),
        AbilityName::ShieldBash => 4 * attack_damage(class) / 5,
        _ => 0,
    }
}

/// The target entity after being struck: hit points reduced by the damage,
/// and a 12-tick delay penalty added by a shield bash.
pub open spec fn after_hit(e: EntityV, name: AbilityName, class: CharClass) -> EntityV {
    EntityV {
        resources: deduct_named(e.resources, "hp"@, damage_amount(name, class)),
        next_move_time: e.next_move_time + if name == AbilityName::ShieldBash {
            12int
        } else {
            0int
        },
        ..e
    }
}

/// The resource list after deducting a list of costs, in order.
pub open spec fn deduct_costs(
    rs: Seq<(Seq<char>, Resource)>,
    costs: Seq<(Seq<char>, int)>,
) -> Seq<(Seq<char>, Resource)>
    decreases costs.len(),
{
    if costs.len() == 0 {
        rs
    } else {
        deduct_costs(deduct_named(rs, costs[0].0, costs[0].1), costs.drop_first())
    }
}

/// The caster after its ability resolves: relocated by a move, costs
/// deducted, the clock advanced by the cast delay, and the action logged.
/// The log entry carries the time of the caster's previous action, which
/// is what the visibility-filtered replay keys on.
pub open spec fn after_cast(e: EntityV, name: AbilityName, target: Coords) -> EntityV {
    EntityV {
        coords: if name == AbilityName::Move {
            target
        } else {
            e.coords
        },
        resources: deduct_costs(e.resources, costs_spec(name)),
        last_move_time: e.next_move_time,
        next_move_time: e.next_move_time + delay_spec(name, e.game_class, e.log, e.coords, target),
        log: e.log.push(
            ActionLog { turn_time: e.last_move_time as i64, target, action_name: name },
        ),
        ..e
    }
}

/// Index `i` holds the first entity standing on `c`.
pub open spec fn is_first_at(r: Seq<EntityV>, c: Coords, i: int) -> bool {
    0 <= i < r.len() && r[i].coords == c && forall|j: int| 0 <= j < i ==> (#[trigger] r[j]).coords
        != c
}

/// Some entity stands on `c`.
pub open spec fn someone_at(r: Seq<EntityV>, c: Coords) -> bool {
    exists|i: int| 0 <= i < r.len() && (#[trigger] r[i]).coords == c
}

/// The position of the first entity standing on `c`.
pub open spec fn first_at_index(r: Seq<EntityV>, c: Coords) -> int {
    choose|i: int| is_first_at(r, c, i)
}

/// Whenever some entity stands on `c`, a first one does.
pub proof fn lemma_first_at_exists(r: Seq<EntityV>, c: Coords, w: int)
    requires
        0 <= w < r.len(),
        r[w].coords == c,
    ensures
        is_first_at(r, c, first_at_index(r, c)),
    decreases w,
{
    if forall|j: int| 0 <= j < w ==> (#[trigger] r[j]).coords != c {
        assert(is_first_at(r, c, w));
    } else {
        let j = choose|j: int| 0 <= j < w && (#[trigger] r[j]).coords == c;
        lemma_first_at_exists(r, c, j);
    }
}

/// At most one index is the first occupant of `c`.
pub proof fn lemma_first_at_unique(r: Seq<EntityV>, c: Coords, i: int, j: int)
    requires
        is_first_at(r, c, i),
        is_first_at(r, c, j),
    ensures
        i == j,
{
}

/// The position of the entity with the given id.
pub open spec fn index_of_id(r: Seq<EntityV>, id: u64) -> int {
    choose|i: int| 0 <= i < r.len() && (#[trigger] r[i]).id == id
}

/// The roster after an ability resolves: attacks strike the first occupant
/// of the target tile, and the caster (found by id) pays costs, advances
/// its clock and logs the action.
pub open spec fn applied_entities(
    o: Seq<EntityV>,
    caster: EntityV,
    name: AbilityName,
    target: Coords,
) -> Seq<EntityV> {
    let ci = index_of_id(o, caster.id);
    let attacks = name == AbilityName::Attack || name == AbilityName::ShieldBash;
    if attacks {
        let ti = first_at_index(o, target);
        o.update(ti, after_hit(o[ti], name, o[ci].game_class)).update(
            ci,
            after_cast(o[ci], name, target),
        )
    } else {
        o.update(ci, after_cast(o[ci], name, target))
    }
}

/// The full effect of applying an ability on the game state.
pub open spec fn apply_post(
    o: GameV,
    n: GameV,
    caster: EntityV,
    name: AbilityName,
    target: Coords,
) -> bool {
    &&& n.id == o.id
    &&& n.map == o.map
    &&& n.entities == applied_entities(o.entities, caster, name, target)
}

impl Game {
    /// The roster position of the entity with the given id, if present.
    pub fn find_entity_by_id(&self, id: u64) -> (r: Option<usize>)
        ensures
            match r {
                Some(i) => i < self@.entities.len() && self@.entities[i as int].id == id,
                None => forall|j: int|
                    0 <= j < self@.entities.len() ==> (#[trigger] self@.entities[j]).id != id,
            },
    {
        let n = self.entities.len();
        let mut i: usize = 0;
        while i < n
            invariant
                n == self.entities@.len(),
                0 <= i <= n,
                forall|j: int| 0 <= j < i ==> (#[trigger] self@.entities[j]).id != id,
            decreases n - i,
        {
            if self.entities[i].id == id {
                return Some(i);
            }
            i = i + 1;
        }
        None
    }

    /// Advance every gauge of every entity by `elapsed_time` ticks of
    /// regeneration, clamping each at its maximum.
    pub fn increment_resources(&mut self, elapsed_time: i64)
        requires
            -3 * TIME_LIMIT <= elapsed_time <= 3 * TIME_LIMIT,
            forall|i: int|
                0 <= i < old(self)@.entities.len() ==> loose_resource_bounds(
                    #[trigger] old(self)@.entities[i],
                ),
        ensures
            final(self)@.id == old(self)@.id,
            final(self)@.map == old(self)@.map,
            final(self)@.entities.len() == old(self)@.entities.len(),
            forall|i: int|
                0 <= i < old(self)@.entities.len() ==> final(self)@.entities[i] == regen_entity(
                    #[trigger] old(self)@.entities[i],
                    elapsed_time as int,
                ),
    {
        let n = self.entities.len();
        let mut new_entities: Vec<Entity> = Vec::new();
        let mut i: usize = 0;
        while i < n
            invariant
                n == self.entities@.len(),
                0 <= i <= n,
                self.entities@ == old(self).entities@,
                self.map == old(self).map,
                self.id == old(self).id,
                -3 * TIME_LIMIT <= elapsed_time <= 3 * TIME_LIMIT,
                forall|j: int|
                    0 <= j < n ==> loose_resource_bounds(#[trigger] old(self)@.entities[j]),
                new_entities@.len() == i,
                forall|j: int|
                    0 <= j < i ==> (#[trigger] new_entities@[j])@ == regen_entity(
                        old(self)@.entities[j],
                        elapsed_time as int,
                    ),
            decreases n - i,
        {
            let e = &self.entities[i];
            proof {
                assert(e@ == old(self)@.entities[i as int]);
                assert(loose_resource_bounds(e@));
            }
            let m = e.resources.len();
            let mut new_res: Vec<(String, Resource)> = Vec::new();
            let mut k: usize = 0;
            while k < m
                invariant
                    m == e.resources@.len(),
                    0 <= k <= m,
                    -3 * TIME_LIMIT <= elapsed_time <= 3 * TIME_LIMIT,
                    loose_resource_bounds(e@),
                    new_res@.len() == k,
                    forall|l: int|
                        0 <= l < k ==> (#[trigger] new_res@[l]).0@ == e@.resources[l].0
                            && new_res@[l].1 == regen_resource(
                            e@.resources[l].1,
                            elapsed_time as int,
                        ),
                decreases m - k,
            {
                let rr = e.resources[k].1;
                proof {
                    assert(e@.resources[k as int].1 == rr);
                    assert(0 <= rr.per_turn <= REGEN_LIMIT && -2 * RES_LIMIT <= rr.current <= 2
                        * RES_LIMIT && -RES_LIMIT <= rr.max <= RES_LIMIT);
                    assert(rr.per_turn * elapsed_time <= REGEN_LIMIT * (3 * TIME_LIMIT)
                        && rr.per_turn * elapsed_time >= -(REGEN_LIMIT * (3 * TIME_LIMIT)))
                        by (nonlinear_arith)
                        requires
                            0 <= rr.per_turn <= REGEN_LIMIT,
                            -3 * TIME_LIMIT <= elapsed_time <= 3 * TIME_LIMIT,
                    ;
                }
                let gain: i64 = rr.per_turn * elapsed_time;
                let sum: i64 = rr.current + gain;
                let ncur: i64 = if sum <= rr.max {
                    sum
                } else {
                    rr.max
                };
                new_res.push(
                    (e.resources[k].0.clone(), Resource {
                        max: rr.max,
                        current: ncur,
                        per_turn: rr.per_turn,
                    }),
                );
                k = k + 1;
            }
            let new_entity = Entity {
                user_id: e.user_id.clone(),
                id: e.id,
                coords: e.coords,
                resources: new_res,
                scenario_player_index: e.scenario_player_index,
                last_move_time: e.last_move_time,
                next_move_time: e.next_move_time,
                game_class: e.game_class,
                log: clone_log(&e.log),
            };
            proof {
                assert(new_entity@.resources =~= regen_entity(e@, elapsed_time as int).resources);
                assert(new_entity@ == regen_entity(e@, elapsed_time as int));
            }
            new_entities.push(new_entity);
            i = i + 1;
        }
        self.entities = new_entities;
    }

    /// Remove every entity whose hit points have dropped to zero or below.
    pub fn remove_defeated(&mut self)
        requires
            forall|i: int|
                0 <= i < old(self)@.entities.len() ==> unique_resource_names(
                    (#[trigger] old(self)@.entities[i]).resources,
                ),
        ensures
            final(self)@.id == old(self)@.id,
            final(self)@.map == old(self)@.map,
            final(self)@.entities == old(self)@.entities.filter(|e: EntityV| alive(e)),
    {
        let n = self.entities.len();
        let mut survivors: Vec<Entity> = Vec::new();
        let mut i: usize = 0;
        while i < n
            invariant
                n == self.entities@.len(),
                0 <= i <= n,
                self.entities@ == old(self).entities@,
                self.map == old(self).map,
                self.id == old(self).id,
                forall|j: int|
                    0 <= j < n ==> unique_resource_names(
                        (#[trigger] old(self)@.entities[j]).resources,
                    ),
                survivors@.map_values(|e: Entity| e@) =~= old(self)@.entities.take(i as int).filter(
                    |e: EntityV| alive(e),
                ),
            decreases n - i,
        {
            proof {
                reveal_with_fuel(Seq::filter, 3);
                assert(old(self)@.entities.take(i + 1) =~= old(self)@.entities.take(i as int).push(
                    old(self)@.entities[i as int],
                ));
                Seq::<EntityV>::filter_distributes_over_add(
                    old(self)@.entities.take(i as int),
                    seq![old(self)@.entities[i as int]],
                    |e: EntityV| alive(e),
                );
                assert(old(self)@.entities.take(i as int) + seq![old(self)@.entities[i as int]]
                    =~= old(self)@.entities.take(i + 1));
            }
            let is_alive = match self.entities[i].find_resource("hp") {
                Some(k) => {
                    proof {
                        let ghost ev = self@.entities[i as int];
                        let ghost ri = crate::entity::resource_index(ev, "hp"@);
                        assert(ev.resources[k as int].0 == "hp"@);
                        assert(has_resource(ev, "hp"@));
                        assert(0 <= ri < ev.resources.len() && ev.resources[ri].0 == "hp"@);
                        assert(ri == k as int);
                    }
                    self.entities[i].resources[k].1.current > 0
                },
                None => {
                    proof {
                        assert(!alive(self@.entities[i as int]));
                    }
                    false
                },
            };
            if is_alive {
                survivors.push(self.entities[i].clone());
            }
            i = i + 1;
        }
        proof {
            assert(old(self)@.entities.take(n as int) =~= old(self)@.entities);
        }
        self.entities = survivors;
    }

    /// Apply a validated ability use to the game state: strike the target
    /// (for attacks), relocate the caster (for a move), deduct costs,
    /// advance the caster's clock by the cast delay, and log the action.
    ///
    /// Callers validate legality first; this function only requires what
    /// rules out panics and overflow.
    pub fn apply_ability(&mut self, ability: &Ability, target: &Coords)
        requires
            wf_game(*old(self)),
            in_calc_bounds(*target),
            exists|ci: int|
                0 <= ci < old(self)@.entities.len() && (#[trigger] old(self)@.entities[ci])
                    == ability.caster@,
            forall|i: int|
                0 <= i < old(self)@.entities.len() ==> (
                #[trigger] old(self)@.entities[i]).next_move_time <= TIME_LIMIT,
            delay_spec(ability.name, ability.caster@.game_class, ability.caster@.log,
                ability.caster@.coords, *target) <= TIME_LIMIT,
            (ability.name == AbilityName::Attack || ability.name == AbilityName::ShieldBash)
                ==> someone_at(old(self)@.entities, *target) && old(self)@.entities[first_at_index(
                old(self)@.entities,
                *target,
            )].id != ability.caster@.id,
        ensures
            apply_post(old(self)@, final(self)@, ability.caster@, ability.name, *target),
            final(self)@.entities.len() == old(self)@.entities.len(),
    {
        let ghost o = old(self)@;
        let ci = match self.find_entity_by_id(ability.caster.id) {
            Some(i) => i,
            None => {
                proof {
                    let ghost w = choose|ci: int|
                        0 <= ci < o.entities.len() && (#[trigger] o.entities[ci]) == ability.caster@;
                    assert(o.entities[w].id == ability.caster@.id);
                    assert(false);
                }
                vstd::pervasive::unreached()
            },
        };
        proof {
            let ghost w = index_of_id(o.entities, ability.caster@.id);
            assert(o.entities[ci as int].id == ability.caster@.id);
            assert(0 <= w < o.entities.len() && o.entities[w].id == ability.caster@.id);
            assert(w == ci as int);
        }
        let is_attack = match ability.name {
            AbilityName::Attack | AbilityName::ShieldBash => true,
            _ => false,
        };
        if is_attack {
            let ti = match self.find_entity_at(target) {
                Some(t) => t,
                None => {
                    proof {
                        assert(false);
                    }
                    vstd::pervasive::unreached()
                },
            };
            proof {
                lemma_first_at_exists(o.entities, *target, ti as int);
                assert(is_first_at(o.entities, *target, ti as int));
                lemma_first_at_unique(o.entities, *target, first_at_index(o.entities, *target),
                    ti as int);
            }
            let dmg: i64 = match ability.name {
                AbilityName::Attack => ability.caster.game_class.get_attack_damage(),
                _ => ability.caster.game_class.get_attack_damage() * 4 / 5,
            };
            let extra: i64 = match ability.name {
                AbilityName::ShieldBash => 12,
                _ => 0,
            };
            let t = &self.entities[ti];
            let mut t_res = clone_resources(&t.resources);
            proof {
                assert(wf_entity(o.entities[ti as int]));
            }
            let new_target = Entity {
                user_id: t.user_id.clone(),
                id: t.id,
                coords: t.coords,
                resources: t_res,
                scenario_player_index: t.scenario_player_index,
                last_move_time: t.last_move_time,
                next_move_time: t.next_move_time + extra,
                game_class: t.game_class,
                log: clone_log(&t.log),
            };
            let mut new_target = new_target;
            proof {
                assert forall|idx: int| 0 <= idx < new_target.resources@.len() implies -2
                    * RES_LIMIT <= (#[trigger] new_target.resources@[idx]).1.current <= 2
                    * RES_LIMIT by {
                    assert(new_target@.resources[idx] == o.entities[ti as int].resources[idx]);
                    assert(wf_resource(o.entities[ti as int].resources[idx].1));
                    assert(new_target.resources@[idx].1 == new_target@.resources[idx].1);
                }
            }
            deduct_resource(&mut new_target.resources, "hp", dmg);
            proof {
                assert(new_target@.resources =~= after_hit(o.entities[ti as int], ability.name,
                    ability.caster@.game_class).resources);
                assert(new_target@ == after_hit(o.entities[ti as int], ability.name,
                    ability.caster@.game_class));
            }
            self.entities.set(ti, new_target);
            proof {
                assert(self@.entities =~= o.entities.update(ti as int, after_hit(
                    o.entities[ti as int],
                    ability.name,
                    ability.caster@.game_class,
                )));
                assert(ti as int != ci as int);
            }
        }
        let ghost mid = self@.entities;
        let delay = ability.get_delay(*target);
        let costs = ability.get_costs();
        let c = &self.entities[ci];
        let mut c_res = clone_resources(&c.resources);
        proof {
            assert(c@ == o.entities[ci as int]);
            assert(wf_entity(o.entities[ci as int]));
        }
        if costs.len() > 0 {
            let amount = costs[0].1;
            let cost_name = costs[0].0.clone();
            proof {
                assert(ability.name == AbilityName::ShieldBash);
                assert forall|idx: int| 0 <= idx < c_res@.len() implies -2 * RES_LIMIT <= (
                #[trigger] c_res@[idx]).1.current <= 2 * RES_LIMIT by {
                    assert(c_res@[idx].1 == o.entities[ci as int].resources[idx].1);
                    assert(wf_resource(o.entities[ci as int].resources[idx].1));
                }
            }
            deduct_resource(&mut c_res, cost_name.as_str(), amount);
        }
        proof {
            reveal_with_fuel(deduct_costs, 3);
            assert(c_res@.map_values(|p: (String, Resource)| (p.0@, p.1)) =~= deduct_costs(
                o.entities[ci as int].resources,
                costs_spec(ability.name),
            ));
        }
        let mut new_log = clone_log(&self.entities[ci].log);
        new_log.push(
            ActionLog {
                turn_time: self.entities[ci].last_move_time,
                target: *target,
                action_name: ability.name,
            },
        );
        let is_move = match ability.name {
            AbilityName::Move => true,
            _ => false,
        };
        let c2 = &self.entities[ci];
        let new_caster = Entity {
            user_id: c2.user_id.clone(),
            id: c2.id,
            coords: if is_move {
                *target
            } else {
                c2.coords
            },
            resources: c_res,
            scenario_player_index: c2.scenario_player_index,
            last_move_time: c2.next_move_time,
            next_move_time: c2.next_move_time + delay,
            game_class: c2.game_class,
            log: new_log,
        };
        proof {
            assert(new_caster@.resources =~= after_cast(o.entities[ci as int], ability.name,
                *target).resources);
            assert(new_caster@.log =~= after_cast(o.entities[ci as int], ability.name,
                *target).log);
            assert(new_caster@ == after_cast(o.entities[ci as int], ability.name, *target));
        }
        self.entities.set(ci, new_caster);
        proof {
            assert(self@.entities =~= mid.update(ci as int, after_cast(o.entities[ci as int],
                ability.name, *target)));
        }
    }
}

/// Deducting from a gauge, by name or by cost list, keeps the resource
/// names and every `max`/`per_turn` in place.
pub proof fn lemma_deduct_keeps_shape(rs: Seq<(Seq<char>, Resource)>, name: Seq<char>, amount: int)
    ensures
        deduct_named(rs, name, amount).len() == rs.len(),
        forall|k: int|
            0 <= k < rs.len() ==> (#[trigger] deduct_named(rs, name, amount)[k]).0 == rs[k].0,
        forall|k: int|
            0 <= k < rs.len() ==> (#[trigger] deduct_named(rs, name, amount)[k]).1.max
                == rs[k].1.max && deduct_named(rs, name, amount)[k].1.per_turn
                == rs[k].1.per_turn,
        forall|k: int|
            0 <= k < rs.len() && rs[k].0 != name ==> (#[trigger] deduct_named(rs, name,
            amount)[k]).1 == rs[k].1,
{
}

/// The caster's hit points survive paying an ability's costs: no cost ever
/// names the `hp` gauge.
pub proof fn lemma_cast_keeps_hp(e: EntityV, name: AbilityName, target: Coords)
    requires
        unique_resource_names(e.resources),
        has_resource(e, "hp"@),
    ensures
        has_resource(after_cast(e, name, target), "hp"@),
        resource_value(after_cast(e, name, target), "hp"@) == resource_value(e, "hp"@),
{
    reveal_with_fuel(deduct_costs, 3);
    let e2 = after_cast(e, name, target);
    if name == AbilityName::ShieldBash {
        reveal_strlit("hp");
        reveal_strlit("ShieldBash");
        assert("hp"@.len() == 2 && "ShieldBash"@.len() == 10);
        lemma_deduct_keeps_shape(e.resources, "ShieldBash"@, 60);
        let i1 = crate::entity::resource_index(e, "hp"@);
        assert(0 <= i1 < e.resources.len() && e.resources[i1].0 == "hp"@);
        assert(e2.resources[i1].0 == "hp"@);
        assert(has_resource(e2, "hp"@));
        let i2 = crate::entity::resource_index(e2, "hp"@);
        assert(0 <= i2 < e2.resources.len() && e2.resources[i2].0 == "hp"@);
        assert(e.resources[i2].0 == "hp"@);
        assert(i1 == i2);
        assert(e.resources[i1].0 != "ShieldBash"@);
        assert(e2.resources[i1].1 == e.resources[i1].1);
    } else {
        assert(costs_spec(name).len() == 0);
        assert(e2.resources == e.resources);
    }
}

/// After an ability resolves, every roster entry keeps its resource names.
pub proof fn lemma_applied_resource_names(
    o: Seq<EntityV>,
    caster: EntityV,
    name: AbilityName,
    target: Coords,
    i: int,
)
    requires
        forall|j: int| 0 <= j < o.len() ==> wf_entity(#[trigger] o[j]),
        0 <= index_of_id(o, caster.id) < o.len(),
        (name == AbilityName::Attack || name == AbilityName::ShieldBash) ==> 0 <= first_at_index(
            o,
            target,
        ) < o.len(),
        0 <= i < applied_entities(o, caster, name, target).len(),
    ensures
        unique_resource_names((#[trigger] applied_entities(o, caster, name, target)[i]).resources),
{
    reveal_with_fuel(deduct_costs, 3);
    let applied = applied_entities(o, caster, name, target);
    let ci = index_of_id(o, caster.id);
    let attacks = name == AbilityName::Attack || name == AbilityName::ShieldBash;
    assert(applied.len() == o.len());
    if i == ci {
        assert(applied[i] == after_cast(o[ci], name, target));
        if name == AbilityName::ShieldBash {
            lemma_deduct_keeps_shape(o[ci].resources, "ShieldBash"@, 60);
        } else {
            assert(costs_spec(name).len() == 0);
        }
    } else if attacks && i == first_at_index(o, target) {
        assert(applied[i] == after_hit(o[i], name, o[ci].game_class));
        lemma_deduct_keeps_shape(o[i].resources, "hp"@, damage_amount(name, o[ci].game_class));
    } else {
        assert(applied[i] == o[i]);
    }
}

/// After an ability resolves, every clock value moved by at most 60 ticks.
pub proof fn lemma_applied_time_bounds(
    o: Seq<EntityV>,
    caster: EntityV,
    name: AbilityName,
    target: Coords,
)
    requires
        forall|j: int| 0 <= j < o.len() ==> (#[trigger] o[j]).next_move_time <= TIME_LIMIT,
        0 <= index_of_id(o, caster.id) < o.len(),
        delay_spec(name, o[index_of_id(o, caster.id)].game_class, o[index_of_id(o,
            caster.id)].log, o[index_of_id(o, caster.id)].coords, target) <= 48,
        (name == AbilityName::Attack || name == AbilityName::ShieldBash) ==> 0 <= first_at_index(
            o,
            target,
        ) < o.len(),
    ensures
        forall|j: int|
            0 <= j < applied_entities(o, caster, name, target).len() ==> (
            #[trigger] applied_entities(o, caster, name, target)[j]).next_move_time <= TIME_LIMIT
                + 60,
{
    let applied = applied_entities(o, caster, name, target);
    let ci = index_of_id(o, caster.id);
    let attacks = name == AbilityName::Attack || name == AbilityName::ShieldBash;
    assert forall|j: int| 0 <= j < applied.len() implies (
    #[trigger] applied[j]).next_move_time <= TIME_LIMIT + 60 by {
        if j == ci {
            assert(applied[j] == after_cast(o[ci], name, target));
        } else if attacks && j == first_at_index(o, target) {
            assert(applied[j] == after_hit(o[j], name, o[ci].game_class));
        } else {
            assert(applied[j] == o[j]);
        }
    }
}

/// After an ability resolves, every gauge stays within the loose bounds
/// that regeneration needs: damage and costs move `current` by at most a
/// few hundred points.
pub proof fn lemma_applied_loose_bounds(
    o: Seq<EntityV>,
    caster: EntityV,
    name: AbilityName,
    target: Coords,
    w: int,
)
    requires
        forall|j: int| 0 <= j < o.len() ==> wf_entity(#[trigger] o[j]),
        0 <= index_of_id(o, caster.id) < o.len(),
        (name == AbilityName::Attack || name == AbilityName::ShieldBash) ==> 0 <= first_at_index(
            o,
            target,
        ) < o.len(),
        0 <= w < applied_entities(o, caster, name, target).len(),
    ensures
        loose_resource_bounds(#[trigger] applied_entities(o, caster, name, target)[w]),
{
    reveal_with_fuel(deduct_costs, 3);
    let applied = applied_entities(o, caster, name, target);
    let ci = index_of_id(o, caster.id);
    let attacks = name == AbilityName::Attack || name == AbilityName::ShieldBash;
    assert(0 <= damage_amount(name, o[ci].game_class) <= 140);
    if w == ci {
        assert(applied[w] == after_cast(o[ci], name, target));
        if name == AbilityName::ShieldBash {
            lemma_deduct_keeps_shape(o[ci].resources, "ShieldBash"@, 60);
            assert forall|k: int|
                0 <= k < applied[w].resources.len() implies {
                let r = (#[trigger] applied[w].resources[k]).1;
                -2 * RES_LIMIT <= r.current <= 2 * RES_LIMIT && -RES_LIMIT <= r.max <= RES_LIMIT
                    && 0 <= r.per_turn <= REGEN_LIMIT
            } by {
                assert(wf_resource(o[ci].resources[k].1));
            }
        } else {
            assert(costs_spec(name).len() == 0);
            assert(applied[w].resources == o[ci].resources);
        }
    } else if attacks && w == first_at_index(o, target) {
        assert(applied[w] == after_hit(o[w], name, o[ci].game_class));
        lemma_deduct_keeps_shape(o[w].resources, "hp"@, damage_amount(name, o[ci].game_class));
        assert forall|k: int|
            0 <= k < applied[w].resources.len() implies {
            let r = (#[trigger] applied[w].resources[k]).1;
            -2 * RES_LIMIT <= r.current <= 2 * RES_LIMIT && -RES_LIMIT <= r.max <= RES_LIMIT && 0
                <= r.per_turn <= REGEN_LIMIT
        } by {
            assert(wf_resource(o[w].resources[k].1));
        }
    } else {
        assert(applied[w] == o[w]);
    }
}

/// A freshly deployed combatant: full class resources, clock at zero, an
/// empty log.
pub open spec fn fresh_entity(
    user_id: Seq<char>,
    id: u64,
    coords: Coords,
    scenario_player_index: int,
    game_class: CharClass,
) -> EntityV {
    EntityV {
        user_id,
        id,
        coords,
        resources: crate::charclasses::resource_list_spec(game_class),
        scenario_player_index,
        last_move_time: 0,
        next_move_time: 0,
        game_class,
        log: Seq::<ActionLog>::empty(),
    }
}

impl Game {
    /// Deploy one combatant at a drop tile: any previous occupants of the
    /// tile leave the roster and the fresh entity joins it with its
    /// class-determined starting resources.
    pub fn deploy_entity(
        &mut self,
        user_id: String,
        id: u64,
        coords: Coords,
        scenario_player_index: i64,
        game_class: CharClass,
    )
        requires
            wf_game(*old(self)),
            crate::coords::in_bounds(coords),
            forall|i: int| 0 <= i < old(self)@.entities.len() ==> (#[trigger] old(
                self,
            )@.entities[i]).id != id,
        ensures
            wf_game(*final(self)),
            final(self)@.id == old(self)@.id,
            final(self)@.map == old(self)@.map,
            final(self)@.entities == old(self)@.entities.filter(
                |e: EntityV| e.coords != coords,
            ).push(
                fresh_entity(user_id@, id, coords, scenario_player_index as int, game_class),
            ),
    {
        let ghost o = old(self)@;
        let ghost pred = |e: EntityV| e.coords != coords;
        let n = self.entities.len();
        let mut kept: Vec<Entity> = Vec::new();
        let mut i: usize = 0;
        while i < n
            invariant
                n == self.entities@.len(),
                0 <= i <= n,
                self.entities@ == old(self).entities@,
                self.map == old(self).map,
                self.id == old(self).id,
                pred == (|e: EntityV| e.coords != coords),
                kept@.map_values(|e: Entity| e@) =~= o.entities.take(i as int).filter(pred),
                o == old(self)@,
            decreases n - i,
        {
            proof {
                reveal_with_fuel(Seq::filter, 3);
                assert(o.entities.take(i + 1) =~= o.entities.take(i as int).push(
                    o.entities[i as int],
                ));
                Seq::<EntityV>::filter_distributes_over_add(
                    o.entities.take(i as int),
                    seq![o.entities[i as int]],
                    pred,
                );
                assert(o.entities.take(i as int) + seq![o.entities[i as int]] =~= o.entities.take(
                    i + 1,
                ));
            }
            if !(self.entities[i].coords.x == coords.x && self.entities[i].coords.y == coords.y) {
                proof {
                    assert(pred(o.entities[i as int]));
                }
                kept.push(self.entities[i].clone());
            } else {
                proof {
                    assert(o.entities[i as int].coords == coords);
                    assert(!pred(o.entities[i as int]));
                }
            }
            i = i + 1;
        }
        proof {
            assert(o.entities.take(n as int) =~= o.entities);
        }
        let fresh = Entity {
            user_id,
            id,
            coords,
            resources: game_class.get_resource_list(),
            scenario_player_index,
            last_move_time: 0,
            next_move_time: 0,
            game_class,
            log: Vec::new(),
        };
        proof {
            assert(fresh@ == fresh_entity(fresh.user_id@, id, coords,
                scenario_player_index as int, game_class));
        }
        kept.push(fresh);
        self.entities = kept;
        proof {
            let fe = fresh_entity(user_id@, id, coords, scenario_player_index as int, game_class);
            assert(self@.entities =~= o.entities.filter(pred).push(fe));
            assert(wf_game(*self)) by {
                let newr = self@.entities;
                assert forall|a: int| 0 <= a < newr.len() implies wf_entity(
                    #[trigger] newr[a],
                ) by {
                    if a < newr.len() - 1 {
                        assert(o.entities.filter(pred).contains(newr[a])) by {
                            assert(newr[a] == o.entities.filter(pred)[a]);
                        }
                        Seq::<EntityV>::lemma_filter_contains_rev(o.entities, pred, newr[a]);
                        let w = choose|w: int|
                            0 <= w < o.entities.len() && o.entities[w] == newr[a];
                        assert(wf_entity(o.entities[w]));
                    } else {
                        assert(newr[a] == fe);
                        assert(wf_entity(fe)) by {
                            reveal_strlit("hp");
                            reveal_strlit("ShieldBash");
                            assert("hp"@.len() == 2 && "ShieldBash"@.len() == 10);
                            assert(fe.resources[0].0 == "hp"@);
                            assert(has_resource(fe, "hp"@));
                        }
                    }
                }
                assert forall|a: int, b: int|
                    0 <= a < b < newr.len() implies (#[trigger] newr[a]).id != (
                #[trigger] newr[b]).id by {
                    if b == newr.len() - 1 {
                        assert(o.entities.filter(pred).contains(newr[a])) by {
                            assert(newr[a] == o.entities.filter(pred)[a]);
                        }
                        Seq::<EntityV>::lemma_filter_contains_rev(o.entities, pred, newr[a]);
                        let w = choose|w: int|
                            0 <= w < o.entities.len() && o.entities[w] == newr[a];
                        assert(o.entities[w].id != id);
                    } else {
                        assert(o.entities.filter(pred).contains(newr[a])) by {
                            assert(newr[a] == o.entities.filter(pred)[a]);
                        }
                        Seq::<EntityV>::lemma_filter_contains_rev(o.entities, pred, newr[a]);
                        assert(o.entities.filter(pred).contains(newr[b])) by {
                            assert(newr[b] == o.entities.filter(pred)[b]);
                        }
                        Seq::<EntityV>::lemma_filter_contains_rev(o.entities, pred, newr[b]);
                        lemma_filter_no_duplicate_ids(o.entities, pred, a, b);
                    }
                }
            }
        }
    }
}

/// Filtering a roster with pairwise distinct ids keeps them pairwise
/// distinct.
pub proof fn lemma_filter_no_duplicate_ids(
    s: Seq<EntityV>,
    pred: spec_fn(EntityV) -> bool,
    a: int,
    b: int,
)
    requires
        unique_ids(s),
        0 <= a < b < s.filter(pred).len(),
    ensures
        s.filter(pred)[a].id != s.filter(pred)[b].id,
    decreases s.len(),
{
    reveal(Seq::filter);
    if s.len() > 0 {
        let prefix = s.drop_last();
        assert(unique_ids(prefix)) by {
            assert(forall|p: int, q: int|
                0 <= p < q < prefix.len() ==> (#[trigger] prefix[p]) == s[p]
                    && (#[trigger] prefix[q]) == s[q]);
        }
        if pred(s.last()) {
            if b < s.filter(pred).len() - 1 {
                lemma_filter_no_duplicate_ids(prefix, pred, a, b);
            } else {
                assert(s.filter(pred)[b] == s.last());
                assert(prefix.filter(pred).contains(prefix.filter(pred)[a]));
                Seq::<EntityV>::lemma_filter_contains_rev(prefix, pred,
                    prefix.filter(pred)[a]);
                let w = choose|w: int| 0 <= w < prefix.len() && prefix[w] == prefix.filter(
                    pred,
                )[a];
                assert(s[w] == prefix[w]);
                assert(s[w].id != s.last().id);
            }
        } else {
            lemma_filter_no_duplicate_ids(prefix, pred, a, b);
        }
    }
}

} // verus!
