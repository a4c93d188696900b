//! The ability resolver: legality validation and the transactional state
//! mutation that applies an ability and advances the game clock; plus the
//! small scenario services.

use vstd::prelude::*;

use crate::abilities::{costs_spec, delay_spec, max_range_spec, target_type_spec, Ability,
    AbilityName, TargetType};
use crate::charclasses::CharClass;
use crate::coords::{dist_sq4, get_dist_sq4, in_bounds, Coords, COORD_LIMIT};
use crate::entity::{has_resource, resource_value, wf_entity, Entity, EntityV, TIME_LIMIT};
use crate::errors::ServiceError;
use crate::game::{alive, applied_entities, first_at_index, is_trait_index, regen_entity,
    someone_at, wf_game, Game, GameV};
use crate::tiles::{BlockingRule, TileMap, TileType};
use crate::vision::los_blocked;

verus! {

broadcast use vstd::seq_lib::group_filter_ensures;

/// Relies on `String::push_str`: appends the characters of `t` to `s`.
#[verifier::external_body]
fn push_chars(s: &mut String, t: &str)
    ensures
        final(s)@ == old(s)@ + t@,
{
    s.push_str(t)
}

/// The view of an optional target entity.
pub open spec fn opt_entity_view(o: Option<&Entity>) -> Option<EntityV> {
    match o {
        Some(e) => Some(e@),
        None => None,
    }
}

/// The target is farther from the caster than the ability's maximum range.
pub open spec fn out_of_range(caster: EntityV, name: AbilityName, target: Coords) -> bool {
    dist_sq4(caster.coords, target) > 4 * (max_range_spec(name, caster.game_class) * max_range_spec(
        name,
        caster.game_class,
    ))
}

/// The exact validation outcome of a requested ability use: `None` when
/// the use is legal, otherwise the message of the rejection.  Checks run in
/// order: range, target kind, then line of sight.
pub open spec fn valid_target_check(
    caster: EntityV,
    name: AbilityName,
    target: Coords,
    target_entity: Option<EntityV>,
    mapv: Map<Coords, TileType>,
    blockers: Seq<EntityV>,
) -> Option<Seq<char>> {
    if out_of_range(caster, name, target) {
        Some("Out of range"@)
    } else {
        let kind_error = match target_type_spec(name) {
            TargetType::Walkable => {
                if target_entity is Some {
                    Some("Target must be walkable"@)
                } else if mapv.dom().contains(target) && (mapv[target] == TileType::Wall
                    || mapv[target] == TileType::DeepWater) {
                    Some("Can't walk on that tile"@)
                } else {
                    None
                }
            },
            TargetType::Ennemy => {
                if match target_entity {
                    None => true,
                    Some(te) => te.scenario_player_index == caster.scenario_player_index,
                } {
                    Some("Target must be an ennemy"@)
                } else {
                    None
                }
            },
            TargetType::Ally => {
                if match target_entity {
                    None => true,
                    Some(te) => te.scenario_player_index != caster.scenario_player_index,
                } {
                    Some("Target must be an ally"@)
                } else {
                    None
                }
            },
            TargetType::Selfcast => {
                if match target_entity {
                    None => true,
                    Some(te) => te.id != caster.id,
                } {
                    Some("This ability is self-cast"@)
                } else {
                    None
                }
            },
        };
        if kind_error is Some {
            kind_error
        } else if crate::abilities::needs_los_spec(name) && caster.coords != target
            && los_blocked(caster.coords, target, mapv, blockers, BlockingRule::Sight) {
            Some("Target is out of line of sight"@)
        } else {
            None
        }
    }
}

/// Validate a requested ability use: range against the catalog's maximum,
/// the required target kind (walkable tile, enemy, ally, or the caster
/// itself), and — for abilities that need it — line of sight past blocking
/// terrain and enemy entities.
pub fn is_valid_target(
    ability: &Ability,
    target: &Coords,
    target_entity: Option<&Entity>,
    blocking_entities: &Vec<Entity>,
    map: &TileMap,
) -> (r: Result<(), ServiceError>)
    requires
        in_bounds(ability.caster.coords),
        in_bounds(*target),
        map.wf(),
    ensures
        match r {
            Ok(_) => valid_target_check(ability.caster@, ability.name, *target,
                opt_entity_view(target_entity), map@,
                blocking_entities@.map_values(|b: Entity| b@)) is None,
            Err(err) => err matches ServiceError::BadRequest(m) && Some(m@) == valid_target_check(
                ability.caster@,
                ability.name,
                *target,
                opt_entity_view(target_entity),
                map@,
                blocking_entities@.map_values(|b: Entity| b@),
            ),
        },
{
    let s4 = get_dist_sq4(&ability.caster.coords, target);
    let mr = ability.max_range(&ability.caster.game_class);
    if s4 > 4 * (mr * mr) {
        return Err(ServiceError::BadRequest("Out of range".to_owned()));
    }
    match ability.target_type() {
        TargetType::Walkable => {
            if target_entity.is_some() {
                return Err(ServiceError::BadRequest("Target must be walkable".to_owned()));
            }
            match map.get(target) {
                Some(TileType::Wall) | Some(TileType::DeepWater) => {
                    return Err(ServiceError::BadRequest("Can't walk on that tile".to_owned()));
                },
                _ => {},
            }
        },
        TargetType::Ennemy => {
            let bad = match target_entity {
                None => true,
                Some(te) => te.scenario_player_index == ability.caster.scenario_player_index,
            };
            if bad {
                return Err(ServiceError::BadRequest("Target must be an ennemy".to_owned()));
            }
        },
        TargetType::Ally => {
            let bad = match target_entity {
                None => true,
                Some(te) => te.scenario_player_index != ability.caster.scenario_player_index,
            };
            if bad {
                return Err(ServiceError::BadRequest("Target must be an ally".to_owned()));
            }
        },
        TargetType::Selfcast => {
            let bad = match target_entity {
                None => true,
                Some(te) => te.id != ability.caster.id,
            };
            if bad {
                return Err(ServiceError::BadRequest("This ability is self-cast".to_owned()));
            }
        },
    }
    if ability.needs_los() {
        match crate::vision::has_los(
            &ability.caster.coords,
            target,
            map,
            blocking_entities,
            BlockingRule::Sight,
        ) {
            Err(_) => {
                return Err(
                    ServiceError::BadRequest("Target is out of line of sight".to_owned()),
                );
            },
            Ok(_) => {},
        }
    }
    Ok(())
}

/// The scenarios on offer.
pub fn get_scenarios() -> (r: Vec<i64>)
    ensures
        r@ == seq![0i64],
{
    let r: Vec<i64> = vec![0];
    proof {
        assert(r@ =~= seq![0i64]);
    }
    r
}

/// The position the scheduler elects in `r`.
pub open spec fn trait_index_of(r: Seq<EntityV>) -> int {
    choose|i: int| is_trait_index(r, i)
}

/// The acting entity of a roster.
pub open spec fn caster_of(o: GameV) -> EntityV {
    o.entities[trait_index_of(o.entities)]
}

/// The first occupant of `c`, if any.
pub open spec fn occupant_view(o: Seq<EntityV>, c: Coords) -> Option<EntityV> {
    if someone_at(o, c) {
        Some(o[first_at_index(o, c)])
    } else {
        None
    }
}

/// The entities of factions other than `idx`.
pub open spec fn enemies_of(o: Seq<EntityV>, idx: int) -> Seq<EntityV> {
    o.filter(|e: EntityV| e.scenario_player_index != idx)
}

/// The caster cannot afford some resource cost of the ability.
pub open spec fn lacks_cost(e: EntityV, name: AbilityName) -> bool {
    exists|k: int|
        0 <= k < costs_spec(name).len() && (!has_resource(e, (#[trigger] costs_spec(name)[k]).0)
            || resource_value(e, costs_spec(name)[k].0) < costs_spec(name)[k].1)
}

/// `e` is the given kind of bad request.
pub open spec fn is_bad_request(e: ServiceError, m: Seq<char>) -> bool {
    e matches ServiceError::BadRequest(s) && s@ == m
}

/// Every roster entry's clock stays under the engine's time bound.
pub open spec fn times_within_limit(o: GameV) -> bool {
    forall|i: int|
        0 <= i < o.entities.len() ==> (#[trigger] o.entities[i]).next_move_time <= TIME_LIMIT
}

/// Every roster entry still stands.
pub open spec fn all_alive(o: GameV) -> bool {
    forall|i: int| 0 <= i < o.entities.len() ==> alive(#[trigger] o.entities[i])
}

/// The committed outcome of a successful ability use: the validated effect
/// applied, defeated entities removed, and every resource regenerated by
/// the time that passed until the new acting entity's turn.
pub open spec fn use_ability_ok_post(
    o: GameV,
    n: GameV,
    name: AbilityName,
    target: Coords,
) -> bool {
    let caster = caster_of(o);
    let applied = applied_entities(o.entities, caster, name, target);
    let removed = applied.filter(|e: EntityV| alive(e));
    let ni = trait_index_of(removed);
    let dt = removed[ni].next_move_time - caster.next_move_time;
    &&& n.id == o.id
    &&& n.map == o.map
    &&& n.entities == removed.map_values(|e: EntityV| regen_entity(e, dt))
}

/// Resolve one requested ability use against the game state.
///
/// The acting entity is elected by the scheduler and must belong to the
/// requesting user; the target is validated against the ability catalog
/// and line of sight; every resource cost must be affordable.  Only then
/// is the state mutated: the effect is applied, defeated entities leave
/// the roster, the next acting entity is elected, and every gauge
/// regenerates by the time advanced.  All rejections are typed errors and
/// leave the game untouched.
pub fn use_ability(
    game: &mut Game,
    user_id: &String,
    ability_name: AbilityName,
    target: Coords,
) -> (r: Result<(), ServiceError>)
    requires
        wf_game(*old(game)),
        times_within_limit(old(game)@),
        all_alive(old(game)@),
    ensures
        r is Err ==> final(game)@ == old(game)@,
        old(game)@.entities.len() == 0 ==> (r matches Err(e) && is_bad_request(e,
            "No active entity"@)),
        old(game)@.entities.len() > 0 && caster_of(old(game)@).user_id != user_id@ ==> (
        r matches Err(e) && e == ServiceError::Unauthorized),
        old(game)@.entities.len() > 0 && caster_of(old(game)@).user_id == user_id@ && !in_bounds(
            target,
        ) ==> (r matches Err(e) && is_bad_request(e, "Out of range"@)),
        old(game)@.entities.len() > 0 && caster_of(old(game)@).user_id == user_id@ && in_bounds(
            target,
        ) && valid_target_check(caster_of(old(game)@), ability_name, target, occupant_view(
            old(game)@.entities,
            target,
        ), old(game)@.map, enemies_of(old(game)@.entities,
            caster_of(old(game)@).scenario_player_index)) is Some ==> (r matches Err(e) && (
        e matches ServiceError::BadRequest(ms) && Some(ms@) == valid_target_check(
            caster_of(old(game)@),
            ability_name,
            target,
            occupant_view(old(game)@.entities, target),
            old(game)@.map,
            enemies_of(old(game)@.entities, caster_of(old(game)@).scenario_player_index),
        ))),
        old(game)@.entities.len() > 0 && caster_of(old(game)@).user_id == user_id@ && in_bounds(
            target,
        ) && valid_target_check(caster_of(old(game)@), ability_name, target, occupant_view(
            old(game)@.entities,
            target,
        ), old(game)@.map, enemies_of(old(game)@.entities,
            caster_of(old(game)@).scenario_player_index)) is None && lacks_cost(
            caster_of(old(game)@),
            ability_name,
        ) ==> (r matches Err(e) && is_bad_request(e, "Ability is not ready, lack resource "@
            + costs_spec(ability_name)[0].0)),
        old(game)@.entities.len() > 0 && caster_of(old(game)@).user_id == user_id@ && in_bounds(
            target,
        ) && valid_target_check(caster_of(old(game)@), ability_name, target, occupant_view(
            old(game)@.entities,
            target,
        ), old(game)@.map, enemies_of(old(game)@.entities,
            caster_of(old(game)@).scenario_player_index)) is None && !lacks_cost(
            caster_of(old(game)@),
            ability_name,
        ) ==> r is Ok,
        r is Ok ==> use_ability_ok_post(old(game)@, final(game)@, ability_name, target),
{
    let ghost o = old(game)@;
    let ci = match game.trait_entity_index() {
        Ok(i) => i,
        Err(e) => {
            return Err(e);
        },
    };
    proof {
        assert(is_trait_index(o.entities, ci as int));
        crate::game::lemma_trait_index_unique(o.entities, trait_index_of(o.entities), ci as int);
        assert(caster_of(o) == o.entities[ci as int]);
    }
    let current_time = game.entities[ci].next_move_time;
    if !(game.entities[ci].user_id == *user_id) {
        return Err(ServiceError::Unauthorized);
    }
    if target.x > COORD_LIMIT || target.x < -COORD_LIMIT || target.y > COORD_LIMIT || target.y
        < -COORD_LIMIT {
        return Err(ServiceError::BadRequest("Out of range".to_owned()));
    }
    proof {
        assert(in_bounds(target));
    }
    let te_idx = game.find_entity_at(&target);
    let ability = Ability { name: ability_name, caster: game.entities[ci].clone() };
    let blocking = game.blocking_entities(ability.caster.scenario_player_index);
    proof {
        assert(ability.caster@ == o.entities[ci as int]);
        assert(blocking@.map_values(|b: Entity| b@) == enemies_of(o.entities,
            caster_of(o).scenario_player_index));
    }
    let valid = match te_idx {
        Some(ti) => {
            proof {
                crate::game::lemma_first_at_exists(o.entities, target, ti as int);
                crate::game::lemma_first_at_unique(o.entities, target, first_at_index(o.entities,
                    target), ti as int);
                assert(occupant_view(o.entities, target) == Some(o.entities[ti as int]));
            }
            is_valid_target(&ability, &target, Some(&game.entities[ti]), &blocking, &game.map)
        },
        None => {
            proof {
                assert(!someone_at(o.entities, target)) by {
                    if someone_at(o.entities, target) {
                        let w = choose|w: int|
                            0 <= w < o.entities.len() && (#[trigger] o.entities[w]).coords
                                == target;
                        assert(false);
                    }
                }
                assert(occupant_view(o.entities, target) is None);
            }
            is_valid_target(&ability, &target, None, &blocking, &game.map)
        },
    };
    match valid {
        Err(e) => {
            return Err(e);
        },
        Ok(_) => {},
    }
    let costs = ability.get_costs();
    let cn = costs.len();
    let mut k: usize = 0;
    while k < cn
        invariant
            cn == costs@.len(),
            0 <= k <= cn,
            costs@.map_values(|p: (String, i64)| (p.0@, p.1 as int)) == costs_spec(ability.name),
            wf_entity(ability.caster@),
            game@ == old(game)@,
            o == old(game)@,
            ability.name == ability_name,
            0 <= ci < o.entities.len(),
            is_trait_index(o.entities, ci as int),
            caster_of(o) == o.entities[ci as int],
            ability.caster@ == o.entities[ci as int],
            caster_of(o).user_id == user_id@,
            in_bounds(target),
            valid_target_check(caster_of(o), ability_name, target, occupant_view(o.entities,
                target), o.map, enemies_of(o.entities,
                caster_of(o).scenario_player_index)) is None,
            forall|k2: int|
                0 <= k2 < k ==> has_resource(ability.caster@, (#[trigger] costs_spec(
                    ability.name,
                )[k2]).0) && resource_value(ability.caster@, costs_spec(ability.name)[k2].0)
                    >= costs_spec(ability.name)[k2].1,
        decreases cn - k,
    {
        let lacking: bool = match ability.caster.find_resource(costs[k].0.as_str()) {
            Some(ri) => {
                proof {
                    let ghost ev = ability.caster@;
                    let ghost nm = ev.resources[ri as int].0;
                    let ghost w = crate::entity::resource_index(ev, nm);
                    assert(has_resource(ev, nm));
                    assert(0 <= w < ev.resources.len() && ev.resources[w].0 == nm);
                    assert(w == ri as int);
                }
                ability.caster.resources[ri].1.current < costs[k].1
            },
            None => true,
        };
        if lacking {
            let mut m = "Ability is not ready, lack resource ".to_owned();
            push_chars(&mut m, costs[k].0.as_str());
            proof {
                assert(costs@[k as int].0@ == costs_spec(ability.name)[k as int].0);
                assert(lacks_cost(ability.caster@, ability.name));
                assert(k as int == 0);
            }
            return Err(ServiceError::BadRequest(m));
        }
        k = k + 1;
    }
    proof {
        assert(!lacks_cost(ability.caster@, ability.name)) by {
            if lacks_cost(ability.caster@, ability.name) {
                let w = choose|w: int|
                    0 <= w < costs_spec(ability.name).len() && (!has_resource(ability.caster@, (
                    #[trigger] costs_spec(ability.name)[w]).0) || resource_value(ability.caster@,
                    costs_spec(ability.name)[w].0) < costs_spec(ability.name)[w].1);
                assert(false);
            }
        }
    }
    proof {
        let ghost ciq = crate::game::index_of_id(o.entities, ability.caster@.id);
        assert(o.entities[ci as int].id == ability.caster@.id);
        assert(0 <= ciq < o.entities.len() && o.entities[ciq].id == ability.caster@.id);
        assert(ciq == ci as int);
        assert(caster_of(o) == ability.caster@);
        assert(delay_spec(ability.name, ability.caster@.game_class, ability.caster@.log,
            ability.caster@.coords, target) <= 48) by {
            if ability.name == AbilityName::Move {
                assert(!out_of_range(ability.caster@, ability.name, target));
                assert(dist_sq4(ability.caster@.coords, target) <= 16);
                let m = (36 * dist_sq4(ability.caster@.coords, target)) as nat;
                crate::coords::lemma_dist_sq4_nonneg(ability.caster@.coords, target);
                assert(m <= 576);
                crate::coords::lemma_sqrt_floor_bounds(m);
                if crate::coords::sqrt_floor(m) > 48 {
                    crate::coords::lemma_square_monotonic(49int,
                        crate::coords::sqrt_floor(m) as int);
                    assert(false);
                }
            }
        }
        if ability.name == AbilityName::Attack || ability.name == AbilityName::ShieldBash {
            assert(someone_at(o.entities, target));
            let ti = first_at_index(o.entities, target);
            assert(o.entities[ti].scenario_player_index
                != ability.caster@.scenario_player_index);
            assert(ti != ci as int);
            assert(o.entities[ti].id != ability.caster@.id);
        }
    }
    game.apply_ability(&ability, &target);
    let ghost applied = game@.entities;
    proof {
        assert(applied == applied_entities(o.entities, caster_of(o), ability.name, target));
        assert forall|i: int|
            0 <= i < applied.len() implies crate::entity::unique_resource_names(
            (#[trigger] applied[i]).resources,
        ) by {
            crate::game::lemma_applied_resource_names(o.entities, caster_of(o), ability.name,
                target, i);
            assert(wf_entity(o.entities[i]));
        }
    }
    game.remove_defeated();
    let ghost removed = game@.entities;
    proof {
        assert(removed == applied.filter(|e: EntityV| alive(e)));
        let ghost cast_after = applied[ci as int];
        assert(cast_after == crate::game::after_cast(o.entities[ci as int], ability.name,
            target));
        crate::game::lemma_cast_keeps_hp(o.entities[ci as int], ability.name, target);
        assert(alive(cast_after));
        assert(applied.contains(cast_after)) by {
            assert(applied[ci as int] == cast_after);
        }
        assert(removed.contains(cast_after));
        assert(removed.len() > 0);
    }
    let ni = match game.trait_entity_index() {
        Ok(i) => i,
        Err(_) => {
            proof {
                assert(false);
            }
            vstd::pervasive::unreached()
        },
    };
    proof {
        crate::game::lemma_trait_index_unique(removed, trait_index_of(removed), ni as int);
        crate::game::lemma_applied_time_bounds(o.entities, caster_of(o), ability.name, target);
        assert forall|i: int|
            0 <= i < removed.len() implies applied.contains(#[trigger] removed[i]) by {
            assert(removed.contains(removed[i]));
            Seq::<EntityV>::lemma_filter_contains_rev(applied, |e: EntityV| alive(e), removed[i]);
        }
        assert forall|i: int|
            0 <= i < removed.len() implies (#[trigger] removed[i]).next_move_time <= TIME_LIMIT
            + 60 by {
            let w = choose|w: int| 0 <= w < applied.len() && applied[w] == removed[i];
            assert(applied[w].next_move_time <= TIME_LIMIT + 60);
        }
        assert(removed[ni as int].next_move_time <= TIME_LIMIT + 60);
        assert(0 <= current_time <= TIME_LIMIT);
    }
    let elapsed = game.entities[ni].next_move_time - current_time;
    proof {
        assert(-3 * TIME_LIMIT <= elapsed <= 3 * TIME_LIMIT);
        assert forall|i: int|
            0 <= i < removed.len() implies crate::game::loose_resource_bounds(
            #[trigger] game@.entities[i],
        ) by {
            assert(removed.contains(removed[i]));
            Seq::<EntityV>::lemma_filter_contains_rev(applied, |e: EntityV| alive(e), removed[i]);
            let w = choose|w: int| 0 <= w < applied.len() && applied[w] == removed[i];
            crate::game::lemma_applied_loose_bounds(o.entities, caster_of(o), ability.name,
                target, w);
            assert(game@.entities[i] == removed[i]);
        }
    }
    game.increment_resources(elapsed);
    proof {
        assert(game@.entities =~= removed.map_values(
            |e: EntityV| regen_entity(e, elapsed as int),
        ));
    }
    Ok(())
}

/// The two seats of the default scenario.
pub fn get_scenario_players() -> (r: Vec<crate::schemas::ScenarioPlayer>)
    ensures
        r@.len() == 2,
        r@[0].player_points == 100 && r@[1].player_points == 100,
        r@[0].drop_tiles@ =~= seq![Coords { x: -2i64, y: 0i64 }],
        r@[1].drop_tiles@ =~= seq![Coords { x: 2i64, y: 0i64 }],
        forall|k: int|
            0 <= k < 2 ==> (#[trigger] r@[k]).allowed_clases@ =~= seq![
                crate::schemas::AvailableClass {
                    player_points: 25i64,
                    game_class: CharClass::Archer,
                },
                crate::schemas::AvailableClass {
                    player_points: 25i64,
                    game_class: CharClass::Warrior,
                },
            ],
{
    let allowed_classes: Vec<crate::schemas::AvailableClass> = vec![
        crate::schemas::AvailableClass { player_points: 25, game_class: CharClass::Archer },
        crate::schemas::AvailableClass { player_points: 25, game_class: CharClass::Warrior },
    ];
    let second = crate::schemas::AvailableClass {
        player_points: 25,
        game_class: CharClass::Warrior,
    };
    let first = crate::schemas::AvailableClass {
        player_points: 25,
        game_class: CharClass::Archer,
    };
    let allowed2: Vec<crate::schemas::AvailableClass> = vec![first, second];
    let r: Vec<crate::schemas::ScenarioPlayer> = vec![
        crate::schemas::ScenarioPlayer {
            player_points: 100,
            drop_tiles: vec![Coords { x: -2, y: 0 }],
            allowed_clases: allowed_classes,
        },
        crate::schemas::ScenarioPlayer {
            player_points: 100,
            drop_tiles: vec![Coords { x: 2, y: 0 }],
            allowed_clases: allowed2,
        },
    ];
    r
}

/// The matches a user may see: every open match, and every match the user
/// is seated in.
pub fn get_active_game(game_list: &Vec<crate::schemas::GameRef>, user_id: &String) -> (r: Vec<u64>)
    ensures
        r@ == game_list@.filter(
            |g: crate::schemas::GameRef|
                g.status == crate::schemas::GameStatus::Open || (exists|i: int|
                    0 <= i < g.seated_players@.len() && (#[trigger] g.seated_players@[i])@
                        == user_id@),
        ).map_values(|g: crate::schemas::GameRef| g.game_id),
{
    let ghost pred = |g: crate::schemas::GameRef|
        g.status == crate::schemas::GameStatus::Open || (exists|i: int|
            0 <= i < g.seated_players@.len() && (#[trigger] g.seated_players@[i])@ == user_id@);
    let n = game_list.len();
    let mut r: Vec<u64> = Vec::new();
    let mut i: usize = 0;
    while i < n
        invariant
            n == game_list@.len(),
            0 <= i <= n,
            pred == (|g: crate::schemas::GameRef|
                g.status == crate::schemas::GameStatus::Open || (exists|w: int|
                    0 <= w < g.seated_players@.len() && (#[trigger] g.seated_players@[w])@
                        == user_id@)),
            r@ =~= game_list@.take(i as int).filter(pred).map_values(
                |g: crate::schemas::GameRef| g.game_id,
            ),
        decreases n - i,
    {
        proof {
            reveal_with_fuel(Seq::filter, 3);
            assert(game_list@.take(i + 1) =~= game_list@.take(i as int).push(
                game_list@[i as int],
            ));
            Seq::<crate::schemas::GameRef>::filter_distributes_over_add(
                game_list@.take(i as int),
                seq![game_list@[i as int]],
                pred,
            );
            assert(game_list@.take(i as int) + seq![game_list@[i as int]] =~= game_list@.take(
                i + 1,
            ));
        }
        let g = &game_list[i];
        let mut seated = false;
        let sn = g.seated_players.len();
        let mut j: usize = 0;
        while j < sn
            invariant
                sn == g.seated_players@.len(),
                0 <= j <= sn,
                seated ==> exists|w: int|
                    0 <= w < g.seated_players@.len() && (#[trigger] g.seated_players@[w])@
                        == user_id@,
                !seated ==> forall|w: int|
                    0 <= w < j ==> (#[trigger] g.seated_players@[w])@ != user_id@,
            decreases sn - j,
        {
            if crate::charclasses::str_eq(g.seated_players[j].as_str(), user_id.as_str()) {
                proof {
                    assert((g.seated_players@[j as int])@ == user_id@);
                }
                seated = true;
            }
            j = j + 1;
        }
        let keep = match g.status {
            crate::schemas::GameStatus::Open => true,
            _ => seated,
        };
        proof {
            assert(keep == pred(game_list@[i as int]));
        }
        if keep {
            r.push(g.game_id);
            proof {
                assert(r@ =~= game_list@.take(i + 1).filter(pred).map_values(
                    |g2: crate::schemas::GameRef| g2.game_id,
                ));
            }
        }
        i = i + 1;
    }
    proof {
        assert(game_list@.take(n as int) =~= game_list@);
    }
    r
}

/// Hand the acting entity to another user; only its current owner may do
/// so.
pub fn transfer_entity(game: &mut Game, user_from: &String, user_to: String) -> (r: Result<
    (),
    ServiceError,
>)
    ensures
        r is Err ==> final(game)@ == old(game)@,
        old(game)@.entities.len() == 0 ==> (r matches Err(e) && is_bad_request(e,
            "No active entity"@)),
        old(game)@.entities.len() > 0 && caster_of(old(game)@).user_id != user_from@ ==> (
        r matches Err(e) && e == ServiceError::Unauthorized),
        old(game)@.entities.len() > 0 && caster_of(old(game)@).user_id == user_from@ ==> r is Ok,
        r is Ok ==> final(game)@.id == old(game)@.id && final(game)@.map == old(game)@.map
            && final(game)@.entities == old(game)@.entities.update(
            trait_index_of(old(game)@.entities),
            (EntityV { user_id: user_to@, ..caster_of(old(game)@) }),
        ),
{
    let ghost o = old(game)@;
    let ci = match game.trait_entity_index() {
        Ok(i) => i,
        Err(e) => {
            return Err(e);
        },
    };
    proof {
        assert(is_trait_index(o.entities, ci as int));
        crate::game::lemma_trait_index_unique(o.entities, trait_index_of(o.entities), ci as int);
    }
    if !(game.entities[ci].user_id == *user_from) {
        return Err(ServiceError::Unauthorized);
    }
    let e = &game.entities[ci];
    let replacement = Entity {
        user_id: user_to,
        id: e.id,
        coords: e.coords,
        resources: crate::entity::clone_resources(&e.resources),
        scenario_player_index: e.scenario_player_index,
        last_move_time: e.last_move_time,
        next_move_time: e.next_move_time,
        game_class: e.game_class,
        log: crate::entity::clone_log(&e.log),
    };
    proof {
        assert(replacement@ == EntityV { user_id: replacement.user_id@, ..caster_of(o) });
    }
    let ghost uv = replacement.user_id@;
    game.entities.set(ci, replacement);
    proof {
        assert(game@.entities =~= o.entities.update(trait_index_of(o.entities),
            EntityV { user_id: uv, ..caster_of(o) }));
    }
    Ok(())
}

} // verus!
