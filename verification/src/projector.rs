//! The game-state projector: the viewer-specific, visibility-filtered
//! snapshot of a game sent to exactly one client.

use vstd::prelude::*;

use crate::abilities::{costs_spec, Ability, AbilityName};
use crate::charclasses::CharClass;
use crate::coords::{in_bounds, Coords};
use crate::entity::{clone_resources, wf_entity, ActionLog, Entity, EntityV, Resource};
use crate::errors::ServiceError;
use crate::game::{first_at_index, is_trait_index, someone_at, wf_game, Game};
use crate::services::{caster_of, enemies_of, is_valid_target, occupant_view, trait_index_of,
    valid_target_check};
use crate::tiles::TileMap;
use crate::vision::{allied_sees, get_los_map, vec_contains_coords, visible_from};

verus! {

broadcast use vstd::seq_lib::group_filter_ensures;

/// One action-log entry as shown to a client: the acting entity, the time,
/// and the entity currently standing on the targeted tile, if any.
#[derive(Debug, Clone, Copy, PartialEq, Eq, Structural)]
pub struct ActionLogResponse {
    pub turn_time: i64,
    pub caster: u64,
    pub target_entity: Option<u64>,
    pub action_name: AbilityName,
}

/// A combatant as shown to a client.
#[derive(Debug, Clone, PartialEq, Eq)]
pub struct EntityResponse {
    pub coords: Coords,
    pub id: u64,
    pub resources: Vec<(String, Resource)>,
    pub scenario_player_index: i64,
    pub next_move_time: i64,
    pub game_class: CharClass,
    pub log: Vec<ActionLogResponse>,
}

/// The mathematical model of an [`EntityResponse`].
pub ghost struct EntityResponseV {
    pub coords: Coords,
    pub id: u64,
    pub resources: Seq<(Seq<char>, Resource)>,
    pub scenario_player_index: int,
    pub next_move_time: int,
    pub game_class: CharClass,
    pub log: Seq<ActionLogResponse>,
}

impl View for EntityResponse {
    type V = EntityResponseV;

    open spec fn view(&self) -> EntityResponseV {
        EntityResponseV {
            coords: self.coords,
            id: self.id,
            resources: self.resources@.map_values(|p: (String, Resource)| (p.0@, p.1)),
            scenario_player_index: self.scenario_player_index as int,
            next_move_time: self.next_move_time as int,
            game_class: self.game_class,
            log: self.log@,
        }
    }
}

/// One ability of the acting entity together with its costs and the
/// visible tiles it may legally target.
#[derive(Debug, Clone, PartialEq, Eq)]
pub struct AbilityTargets {
    pub name: AbilityName,
    pub targets: Vec<Coords>,
    pub costs: Vec<(String, i64)>,
}

/// The viewer-specific snapshot of a game: visible entities, the acting
/// entity's abilities with their legal targets, the visible and
/// allied-vision tile sets, and whose turn it is.
#[derive(Debug, Clone, PartialEq, Eq)]
pub struct Gamestate {
    pub id: u64,
    pub entities: Vec<EntityResponse>,
    pub abilities: Vec<AbilityTargets>,
    pub visible_tiles: Vec<Coords>,
    pub allied_vision: Vec<Coords>,
    pub playing: u64,
}

/// One log entry projected for a client.
pub open spec fn log_resp_spec(l: ActionLog, caster: u64, roster: Seq<EntityV>) -> ActionLogResponse {
    ActionLogResponse {
        turn_time: l.turn_time,
        caster,
        target_entity: match occupant_view(roster, l.target) {
            Some(e) => Some(e.id),
            None => None,
        },
        action_name: l.action_name,
    }
}

/// A log filtered for a client: entries at or after the viewer's previous
/// action whose target tile is currently visible.
pub open spec fn from_log_spec(
    log: Seq<ActionLog>,
    caster: u64,
    to_play_last: int,
    roster: Seq<EntityV>,
    vis: Seq<Coords>,
) -> Seq<ActionLogResponse> {
    log.filter(|l: ActionLog| l.turn_time >= to_play_last && vis.contains(l.target)).map_values(
        |l: ActionLog| log_resp_spec(l, caster, roster),
    )
}

/// A combatant projected for a client.
pub open spec fn resp_spec(
    e: EntityV,
    to_play: EntityV,
    roster: Seq<EntityV>,
    vis: Seq<Coords>,
) -> EntityResponseV {
    EntityResponseV {
        coords: e.coords,
        id: e.id,
        resources: e.resources,
        scenario_player_index: e.scenario_player_index,
        next_move_time: e.next_move_time,
        game_class: e.game_class,
        log: from_log_spec(e.log, e.id, to_play.last_move_time, roster, vis),
    }
}

impl ActionLogResponse {
    /// Project an action log for a client: keep the entries from the
    /// viewer's previous action onward whose target tile is visible, and
    /// resolve each target tile to its current occupant.
    pub fn from_log(
        action_log: &Vec<ActionLog>,
        caster: u64,
        to_play: &Entity,
        game: &Game,
        visible_tiles: &Vec<Coords>,
    ) -> (r: Vec<ActionLogResponse>)
        ensures
            r@ == from_log_spec(action_log@, caster, to_play@.last_move_time, game@.entities,
                visible_tiles@),
    {
        let n = action_log.len();
        let mut r: Vec<ActionLogResponse> = Vec::new();
        let mut i: usize = 0;
        while i < n
            invariant
                n == action_log@.len(),
                0 <= i <= n,
                r@ =~= from_log_spec(action_log@.take(i as int), caster, to_play@.last_move_time,
                    game@.entities, visible_tiles@),
            decreases n - i,
        {
            let ghost pred = |l: ActionLog| l.turn_time >= to_play@.last_move_time
                && visible_tiles@.contains(l.target);
            proof {
                reveal_with_fuel(Seq::filter, 3);
                assert(action_log@.take(i + 1) =~= action_log@.take(i as int).push(
                    action_log@[i as int],
                ));
                Seq::<ActionLog>::filter_distributes_over_add(
                    action_log@.take(i as int),
                    seq![action_log@[i as int]],
                    pred,
                );
                assert(action_log@.take(i as int) + seq![action_log@[i as int]]
                    =~= action_log@.take(i + 1));
            }
            let l = action_log[i];
            if l.turn_time >= to_play.last_move_time && vec_contains_coords(
                visible_tiles,
                &l.target,
            ) {
                let target_entity: Option<u64> = match game.find_entity_at(&l.target) {
                    Some(ti) => {
                        proof {
                            crate::game::lemma_first_at_exists(game@.entities, l.target,
                                ti as int);
                            crate::game::lemma_first_at_unique(game@.entities, l.target,
                                first_at_index(game@.entities, l.target), ti as int);
                        }
                        Some(game.entities[ti].id)
                    },
                    None => {
                        proof {
                            assert(!someone_at(game@.entities, l.target)) by {
                                if someone_at(game@.entities, l.target) {
                                    let w = choose|w: int|
                                        0 <= w < game@.entities.len() && (
                                        #[trigger] game@.entities[w]).coords == l.target;
                                    assert(false);
                                }
                            }
                        }
                        None
                    },
                };
                r.push(
                    ActionLogResponse {
                        turn_time: l.turn_time,
                        caster,
                        action_name: l.action_name,
                        target_entity,
                    },
                );
                proof {
                    assert(r@.last() == log_resp_spec(action_log@[i as int], caster,
                        game@.entities));
                }
            }
            i = i + 1;
        }
        proof {
            assert(action_log@.take(n as int) =~= action_log@);
        }
        r
    }
}

impl EntityResponse {
    /// Project one combatant for a client: its public fields together with
    /// its visibility-filtered action log.
    pub fn from_entity(
        value: &Entity,
        to_play: &Entity,
        game: &Game,
        visible_tiles: &Vec<Coords>,
    ) -> (r: EntityResponse)
        ensures
            r@ == resp_spec(value@, to_play@, game@.entities, visible_tiles@),
    {
        let r = EntityResponse {
            coords: value.coords,
            id: value.id,
            resources: clone_resources(&value.resources),
            scenario_player_index: value.scenario_player_index,
            next_move_time: value.next_move_time,
            game_class: value.game_class,
            log: ActionLogResponse::from_log(&value.log, value.id, to_play, game, visible_tiles),
        };
        proof {
            assert(r@ == resp_spec(value@, to_play@, game@.entities, visible_tiles@));
        }
        r
    }
}

/// An entity the projection shows the viewer: inside allied vision, inside
/// direct vision, or of the viewer's own faction.
pub open spec fn shown_to(e: EntityV, caster: EntityV, vis: Seq<Coords>, allied: Seq<Coords>) -> bool {
    allied.contains(e.coords) || vis.contains(e.coords) || e.scenario_player_index
        == caster.scenario_player_index
}

/// Assemble the player-visible snapshot of a game for the acting entity:
/// the vision sets from its position (with squad vision from its allies),
/// the entities inside them or of its own faction, its abilities with
/// their costs and legal target tiles, and its visibility-filtered recent
/// action log on every shown entity.
pub fn get_gamestate(game: &Game) -> (r: Result<Gamestate, ServiceError>)
    requires
        wf_game(*game),
    ensures
        match r {
            Err(e) => game@.entities.len() == 0 && (e matches ServiceError::BadRequest(m) && m@
                == "No active entity"@),
            Ok(gs) => {
                &&& gs.id == game@.id
                &&& gs.playing == caster_of(game@).id
                &&& gs.visible_tiles@.no_duplicates()
                &&& gs.allied_vision@.no_duplicates()
                &&& forall|c: Coords|
                    gs.visible_tiles@.contains(c) == visible_from(caster_of(game@).coords,
                        game@.map, enemies_of(game@.entities,
                        caster_of(game@).scenario_player_index), c)
                &&& forall|c: Coords|
                    gs.allied_vision@.contains(c) == (allied_sees(
                        game@.entities.filter(
                            |e: EntityV| e.scenario_player_index == caster_of(
                                game@,
                            ).scenario_player_index,
                        ),
                        caster_of(game@).coords,
                        game@.map,
                        enemies_of(game@.entities, caster_of(game@).scenario_player_index),
                        c,
                    ) && !visible_from(caster_of(game@).coords, game@.map,
                    enemies_of(game@.entities, caster_of(game@).scenario_player_index), c))
                &&& gs.entities@.map_values(|er: EntityResponse| er@) == game@.entities.filter(
                    |e: EntityV| shown_to(e, caster_of(game@), gs.visible_tiles@,
                    gs.allied_vision@),
                ).map_values(
                    |e: EntityV| resp_spec(e, caster_of(game@), game@.entities,
                    gs.visible_tiles@),
                )
                &&& gs.abilities@.len() == crate::charclasses::ability_list_spec(
                    caster_of(game@).game_class,
                ).len()
                &&& forall|k: int|
                    0 <= k < gs.abilities@.len() ==> (#[trigger] gs.abilities@[k]).name
                        == crate::charclasses::ability_list_spec(caster_of(game@).game_class)[k]
                &&& forall|k: int|
                    0 <= k < gs.abilities@.len() ==> (#[trigger] gs.abilities@[k]).costs@.map_values(
                        |p: (String, i64)| (p.0@, p.1 as int),
                    ) == costs_spec(crate::charclasses::ability_list_spec(
                        caster_of(game@).game_class,
                    )[k])
                &&& forall|k: int|
                    0 <= k < gs.abilities@.len() ==> (#[trigger] gs.abilities@[k]).targets@
                        == gs.visible_tiles@.filter(
                        |c: Coords| valid_target_check(caster_of(game@),
                        crate::charclasses::ability_list_spec(caster_of(game@).game_class)[k], c,
                        occupant_view(game@.entities, c), game@.map,
                        enemies_of(game@.entities,
                        caster_of(game@).scenario_player_index)) is None,
                    )
            },
        },
{
    let ghost gv = game@;
    let to_play = match game.get_trait_entity() {
        Ok(e) => e,
        Err(e) => {
            return Err(e);
        },
    };
    proof {
        let w = choose|i: int| is_trait_index(gv.entities, i) && to_play@ == gv.entities[i];
        assert(is_trait_index(gv.entities, trait_index_of(gv.entities)));
        crate::game::lemma_trait_index_unique(gv.entities, trait_index_of(gv.entities), w);
        assert(to_play@ == caster_of(gv));
        assert(wf_entity(to_play@));
    }
    let index = to_play.scenario_player_index;
    let allied = game.allied_entities(index);
    let blocking = game.blocking_entities(index);
    proof {
        assert(blocking@.map_values(|b: Entity| b@) == enemies_of(gv.entities,
            caster_of(gv).scenario_player_index));
        assert forall|ai: int| 0 <= ai < allied@.len() implies in_bounds(
            (#[trigger] allied@[ai])@.coords,
        ) by {
            let av = allied@.map_values(|b: Entity| b@);
            assert(av.contains(av[ai]));
            Seq::<EntityV>::lemma_filter_contains_rev(
                gv.entities,
                |ev: EntityV| ev.scenario_player_index == index as int,
                av[ai],
            );
            let w = choose|w: int| 0 <= w < gv.entities.len() && gv.entities[w] == av[ai];
            assert(wf_entity(gv.entities[w]));
        }
        assert forall|bi: int| 0 <= bi < blocking@.len() implies in_bounds(
            (#[trigger] blocking@[bi])@.coords,
        ) by {
            let bv = blocking@.map_values(|b: Entity| b@);
            assert(bv.contains(bv[bi]));
            Seq::<EntityV>::lemma_filter_contains_rev(
                gv.entities,
                |ev: EntityV| ev.scenario_player_index != index as int,
                bv[bi],
            );
            let w = choose|w: int| 0 <= w < gv.entities.len() && gv.entities[w] == bv[bi];
            assert(wf_entity(gv.entities[w]));
        }
    }
    let (los_tiles, allied_vision) = get_los_map(&to_play.coords, &allied, &game.map, &blocking);
    let n = game.entities.len();
    let mut responses: Vec<EntityResponse> = Vec::new();
    let mut i: usize = 0;
    while i < n
        invariant
            wf_game(*game),
            n == game@.entities.len(),
            gv == game@,
            0 <= i <= n,
            to_play@ == caster_of(gv),
            index == caster_of(gv).scenario_player_index,
            responses@.map_values(|er: EntityResponse| er@) =~= gv.entities.take(i as int).filter(
                |e: EntityV| shown_to(e, caster_of(gv), los_tiles@, allied_vision@),
            ).map_values(
                |e: EntityV| resp_spec(e, caster_of(gv), gv.entities, los_tiles@),
            ),
        decreases n - i,
    {
        let ghost pred = |e: EntityV| shown_to(e, caster_of(gv), los_tiles@, allied_vision@);
        proof {
            reveal_with_fuel(Seq::filter, 3);
            assert(gv.entities.take(i + 1) =~= gv.entities.take(i as int).push(
                gv.entities[i as int],
            ));
            Seq::<EntityV>::filter_distributes_over_add(
                gv.entities.take(i as int),
                seq![gv.entities[i as int]],
                pred,
            );
            assert(gv.entities.take(i as int) + seq![gv.entities[i as int]] =~= gv.entities.take(
                i + 1,
            ));
        }
        let e = &game.entities[i];
        let shown = vec_contains_coords(&allied_vision, &e.coords) || vec_contains_coords(
            &los_tiles,
            &e.coords,
        ) || e.scenario_player_index == index;
        proof {
            assert(shown == pred(gv.entities[i as int]));
        }
        if shown {
            let er = EntityResponse::from_entity(e, to_play, game, &los_tiles);
            let ghost before = responses@;
            responses.push(er);
            proof {
                assert(responses@ =~= before.push(er));
                assert(responses@.map_values(|er2: EntityResponse| er2@) =~= before.map_values(
                    |er2: EntityResponse| er2@,
                ).push(er@));
                assert(gv.entities.take(i + 1).filter(pred) =~= gv.entities.take(i as int).filter(
                    pred,
                ).push(gv.entities[i as int]));
                assert(responses@.map_values(|er2: EntityResponse| er2@) =~= gv.entities.take(
                    i + 1,
                ).filter(pred).map_values(
                    |e2: EntityV| resp_spec(e2, caster_of(gv), gv.entities, los_tiles@),
                ));
            }
        }
        i = i + 1;
    }
    proof {
        assert(gv.entities.take(n as int) =~= gv.entities);
    }
    let ability_names = to_play.game_class.get_ability_list();
    let an = ability_names.len();
    let mut abilities: Vec<AbilityTargets> = Vec::new();
    let mut k: usize = 0;
    while k < an
        invariant
            wf_game(*game),
            gv == game@,
            an == ability_names@.len(),
            0 <= k <= an,
            to_play@ == caster_of(gv),
            wf_entity(caster_of(gv)),
            ability_names@ == crate::charclasses::ability_list_spec(caster_of(gv).game_class),
            blocking@.map_values(|b: Entity| b@) == enemies_of(gv.entities,
                caster_of(gv).scenario_player_index),
            los_tiles@.no_duplicates(),
            forall|c: Coords| los_tiles@.contains(c) ==> in_bounds(c),
            abilities@.len() == k,
            forall|k2: int|
                0 <= k2 < k ==> (#[trigger] abilities@[k2]).name == ability_names@[k2],
            forall|k2: int|
                0 <= k2 < k ==> (#[trigger] abilities@[k2]).costs@.map_values(
                    |p: (String, i64)| (p.0@, p.1 as int),
                ) == costs_spec(ability_names@[k2]),
            forall|k2: int|
                0 <= k2 < k ==> (#[trigger] abilities@[k2]).targets@ == los_tiles@.filter(
                    |c: Coords| valid_target_check(caster_of(gv), ability_names@[k2], c,
                    occupant_view(gv.entities, c), gv.map, enemies_of(gv.entities,
                    caster_of(gv).scenario_player_index)) is None,
                ),
        decreases an - k,
    {
        let name = ability_names[k];
        let ability = Ability { name, caster: to_play.clone() };
        proof {
            assert(wf_entity(caster_of(gv)));
            assert(in_bounds(ability.caster.coords));
        }
        let costs = ability.get_costs();
        let tn = los_tiles.len();
        let mut targets: Vec<Coords> = Vec::new();
        let mut t: usize = 0;
        let ghost tpred = |c: Coords| valid_target_check(caster_of(gv), ability_names@[k as int],
            c, occupant_view(gv.entities, c), gv.map, enemies_of(gv.entities,
            caster_of(gv).scenario_player_index)) is None;
        while t < tn
            invariant
                wf_game(*game),
                gv == game@,
                tn == los_tiles@.len(),
                0 <= t <= tn,
                ability.caster@ == caster_of(gv),
                in_bounds(ability.caster.coords),
                ability.name == ability_names@[k as int],
                0 <= k < an,
                an == ability_names@.len(),
                blocking@.map_values(|b: Entity| b@) == enemies_of(gv.entities,
                    caster_of(gv).scenario_player_index),
                forall|c: Coords| los_tiles@.contains(c) ==> in_bounds(c),
                tpred == (|c: Coords| valid_target_check(caster_of(gv),
                    ability_names@[k as int], c, occupant_view(gv.entities, c), gv.map,
                    enemies_of(gv.entities, caster_of(gv).scenario_player_index)) is None),
                targets@ =~= los_tiles@.take(t as int).filter(tpred),
            decreases tn - t,
        {
            proof {
                reveal_with_fuel(Seq::filter, 3);
                assert(los_tiles@.take(t + 1) =~= los_tiles@.take(t as int).push(
                    los_tiles@[t as int],
                ));
                Seq::<Coords>::filter_distributes_over_add(
                    los_tiles@.take(t as int),
                    seq![los_tiles@[t as int]],
                    tpred,
                );
                assert(los_tiles@.take(t as int) + seq![los_tiles@[t as int]]
                    =~= los_tiles@.take(t + 1));
            }
            let tile = los_tiles[t];
            proof {
                assert(los_tiles@.contains(tile));
                assert(in_bounds(tile));
            }
            let ok = match game.find_entity_at(&tile) {
                Some(ti) => {
                    proof {
                        crate::game::lemma_first_at_exists(gv.entities, tile, ti as int);
                        crate::game::lemma_first_at_unique(gv.entities, tile, first_at_index(
                            gv.entities,
                            tile,
                        ), ti as int);
                        assert(occupant_view(gv.entities, tile) == Some(gv.entities[ti as int]));
                    }
                    is_valid_target(&ability, &tile, Some(&game.entities[ti]), &blocking,
                        &game.map).is_ok()
                },
                None => {
                    proof {
                        assert(!someone_at(gv.entities, tile)) by {
                            if someone_at(gv.entities, tile) {
                                let w = choose|w: int|
                                    0 <= w < gv.entities.len() && (
                                    #[trigger] gv.entities[w]).coords == tile;
                                assert(false);
                            }
                        }
                        assert(occupant_view(gv.entities, tile) is None);
                    }
                    is_valid_target(&ability, &tile, None, &blocking, &game.map).is_ok()
                },
            };
            proof {
                assert(ok == tpred(tile));
            }
            if ok {
                targets.push(tile);
            }
            t = t + 1;
        }
        proof {
            assert(los_tiles@.take(tn as int) =~= los_tiles@);
        }
        abilities.push(AbilityTargets { name, targets, costs });
        k = k + 1;
    }
    Ok(
        Gamestate {
            id: game.id,
            entities: responses,
            playing: to_play.id,
            abilities,
            visible_tiles: los_tiles,
            allied_vision,
        },
    )
}

} // verus!
