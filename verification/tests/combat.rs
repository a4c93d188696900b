//! End-to-end combat resolution: turn order, ability legality, state
//! mutation and match conclusion.

use hexcombat::abilities::{Ability, AbilityName};
use hexcombat::charclasses::CharClass;
use hexcombat::coords::Coords;
use hexcombat::entity::{ActionLog, Entity};
use hexcombat::errors::ServiceError;
use hexcombat::game::Game;
use hexcombat::projector::get_gamestate;
use hexcombat::services::use_ability;
use hexcombat::tiles::{TileMap, TileType};

fn c(x: i64, y: i64) -> Coords {
    Coords { x, y }
}

fn entity(user: &str, id: u64, coords: Coords, faction: i64, class: CharClass) -> Entity {
    Entity {
        user_id: user.to_owned(),
        id,
        coords,
        resources: class.get_resource_list(),
        scenario_player_index: faction,
        last_move_time: 0,
        next_move_time: 0,
        game_class: class,
        log: Vec::new(),
    }
}

fn floors(tiles: &[(i64, i64)]) -> TileMap {
    let mut map = TileMap::new();
    for &(x, y) in tiles {
        map.insert(c(x, y), TileType::Floor);
    }
    map
}

fn hp_of(game: &Game, id: u64) -> Option<i64> {
    for e in &game.entities {
        if e.id == id {
            for (name, r) in &e.resources {
                if name.as_str() == "hp" {
                    return Some(r.current);
                }
            }
        }
    }
    None
}

fn gauge_of(game: &Game, id: u64, gauge: &str) -> Option<i64> {
    for e in &game.entities {
        if e.id == id {
            for (name, r) in &e.resources {
                if name.as_str() == gauge {
                    return Some(r.current);
                }
            }
        }
    }
    None
}

fn coords_of(game: &Game, id: u64) -> Option<Coords> {
    for e in &game.entities {
        if e.id == id {
            return Some(e.coords);
        }
    }
    None
}

#[test]
fn turn_order_tie_break_is_stable() {
    let mut game = Game::new(7);
    game.map = floors(&[(-2, 0), (0, 0), (2, 0)]);
    game.entities.push(entity("alice", 1, c(-2, 0), 0, CharClass::Warrior));
    game.entities.push(entity("bob", 2, c(2, 0), 1, CharClass::Warrior));
    // both at next_move_time 0: the larger id wins, on every call
    let first = game.get_trait_entity().unwrap().id;
    assert_eq!(first, 2);
    for _ in 0..5 {
        assert_eq!(game.get_trait_entity().unwrap().id, 2);
    }
}

#[test]
fn warrior_move_relocates_and_passes_the_turn() {
    let mut game = Game::new(1);
    game.map = floors(&[(-2, 0), (-1, 1), (0, 0), (2, 0)]);
    // alice carries the larger id, so she acts first on the 0/0 tie
    game.entities.push(entity("alice", 2, c(-2, 0), 0, CharClass::Warrior));
    game.entities.push(entity("bob", 1, c(2, 0), 1, CharClass::Warrior));

    let r = use_ability(&mut game, &"alice".to_owned(), AbilityName::Move, c(-1, 1));
    assert_eq!(r, Ok(()));
    assert_eq!(coords_of(&game, 2), Some(c(-1, 1)));
    // moving costs nothing and no time passed for regeneration
    assert_eq!(hp_of(&game, 2), Some(1000));
    assert_eq!(gauge_of(&game, 2, "ShieldBash"), Some(60));
    // one tile moved: twelve ticks of cast delay
    let alice = game.entities.iter().find(|e| e.id == 2).unwrap();
    assert_eq!(alice.next_move_time, 12);
    assert_eq!(alice.last_move_time, 0);
    assert_eq!(alice.log.len(), 1);
    assert_eq!(
        alice.log[0],
        ActionLog { turn_time: 0, target: c(-1, 1), action_name: AbilityName::Move }
    );

    // the other seated entity is now the acting one, with a fresh snapshot
    let gs = get_gamestate(&game).unwrap();
    assert_eq!(gs.playing, 1);
    assert!(gs.visible_tiles.contains(&c(0, 0)));
    let move_targets = &gs
        .abilities
        .iter()
        .find(|a| a.name == AbilityName::Move)
        .unwrap()
        .targets;
    assert!(move_targets.contains(&c(0, 0)));
    // the caster's own tile is occupied, so it is not a legal move target
    assert!(!move_targets.contains(&c(2, 0)));
}

#[test]
fn shield_bash_without_line_of_sight_changes_nothing() {
    let mut game = Game::new(2);
    game.map = floors(&[(0, 0), (4, 0)]);
    game.map.insert(c(2, 0), TileType::Wall);
    game.entities.push(entity("alice", 2, c(0, 0), 0, CharClass::Archer));
    game.entities.push(entity("bob", 1, c(4, 0), 1, CharClass::Warrior));
    let before_hp = hp_of(&game, 1);

    let r = use_ability(&mut game, &"alice".to_owned(), AbilityName::ShieldBash, c(4, 0));
    assert_eq!(
        r,
        Err(ServiceError::BadRequest("Target is out of line of sight".to_owned()))
    );
    // no resource, position or clock state changed
    assert_eq!(hp_of(&game, 1), before_hp);
    assert_eq!(coords_of(&game, 2), Some(c(0, 0)));
    let alice = game.entities.iter().find(|e| e.id == 2).unwrap();
    assert_eq!(alice.next_move_time, 0);
    assert_eq!(alice.log.len(), 0);
}

#[test]
fn repeated_attacks_remove_the_defeated_and_conclude_the_match() {
    let mut game = Game::new(3);
    game.map = floors(&[(0, 0), (2, 0)]);
    game.entities.push(entity("alice", 2, c(0, 0), 0, CharClass::Warrior));
    let mut bob = entity("bob", 1, c(2, 0), 1, CharClass::Warrior);
    // keep bob far down the initiative order so alice acts every turn
    bob.next_move_time = 1_000_000;
    game.entities.push(bob);

    // each round deals 140 and regenerates 20 over the elapsed ticks
    for round in 1..=8 {
        let r = use_ability(&mut game, &"alice".to_owned(), AbilityName::Attack, c(2, 0));
        assert_eq!(r, Ok(()));
        assert_eq!(hp_of(&game, 1), Some(1000 - 120 * round));
        assert!(!game.is_concluded());
    }
    assert_eq!(hp_of(&game, 1), Some(40));

    // the ninth blow drives hp to or below zero: bob leaves the roster and,
    // as the penultimate occupant, his departure concludes the match
    let r = use_ability(&mut game, &"alice".to_owned(), AbilityName::Attack, c(2, 0));
    assert_eq!(r, Ok(()));
    assert!(game.entities.iter().all(|e| e.id != 1));
    assert_eq!(game.entities.len(), 1);
    assert!(game.is_concluded());
}

#[test]
fn shield_bash_damage_delay_penalty_and_cost() {
    let mut game = Game::new(4);
    game.map = floors(&[(0, 0), (1, 1)]);
    game.entities.push(entity("alice", 2, c(0, 0), 0, CharClass::Warrior));
    let mut bob = entity("bob", 1, c(1, 1), 1, CharClass::Warrior);
    bob.next_move_time = 1_000_000;
    game.entities.push(bob);

    let r = use_ability(&mut game, &"alice".to_owned(), AbilityName::ShieldBash, c(1, 1));
    assert_eq!(r, Ok(()));
    // 80% of the warrior's 140 damage is 112; 20 elapsed ticks regenerate 20
    assert_eq!(hp_of(&game, 1), Some(1000 - 112 + 20));
    // the target is pushed 12 ticks down the initiative order
    let bob = game.entities.iter().find(|e| e.id == 1).unwrap();
    assert_eq!(bob.next_move_time, 1_000_012);
    // the caster paid 60 bash points and regenerated 20 of them
    assert_eq!(gauge_of(&game, 2, "ShieldBash"), Some(20));
}

#[test]
fn insufficient_resource_names_the_lacking_gauge() {
    let mut game = Game::new(5);
    game.map = floors(&[(0, 0), (1, 1)]);
    let mut alice = entity("alice", 2, c(0, 0), 0, CharClass::Warrior);
    for (name, r) in alice.resources.iter_mut() {
        if name.as_str() == "ShieldBash" {
            r.current = 59;
        }
    }
    game.entities.push(alice);
    let mut bob = entity("bob", 1, c(1, 1), 1, CharClass::Warrior);
    bob.next_move_time = 1_000_000;
    game.entities.push(bob);

    let r = use_ability(&mut game, &"alice".to_owned(), AbilityName::ShieldBash, c(1, 1));
    assert_eq!(
        r,
        Err(ServiceError::BadRequest(
            "Ability is not ready, lack resource ShieldBash".to_owned()
        ))
    );
}

#[test]
fn validation_errors_by_kind() {
    let mut game = Game::new(6);
    game.map = floors(&[(-2, 0), (0, 0), (2, 0), (4, 0), (6, 0), (8, 0)]);
    game.map.insert(c(-4, 0), TileType::DeepWater);
    game.entities.push(entity("alice", 2, c(0, 0), 0, CharClass::Warrior));
    let mut bob = entity("bob", 1, c(8, 0), 1, CharClass::Warrior);
    bob.next_move_time = 1_000_000;
    game.entities.push(bob);
    let alice_user = "alice".to_owned();

    // out of range: a warrior's reach is one tile
    let r = use_ability(&mut game, &alice_user, AbilityName::Attack, c(8, 0));
    assert_eq!(r, Err(ServiceError::BadRequest("Out of range".to_owned())));

    // walkable targets reject occupants and unwalkable terrain
    let r = use_ability(&mut game, &alice_user, AbilityName::Move, c(0, 0));
    assert_eq!(r, Err(ServiceError::BadRequest("Target must be walkable".to_owned())));
    let r = use_ability(&mut game, &alice_user, AbilityName::Move, c(-4, 0));
    assert_eq!(r, Err(ServiceError::BadRequest("Can't walk on that tile".to_owned())));

    // attacks need an enemy occupant
    let r = use_ability(&mut game, &alice_user, AbilityName::Attack, c(2, 0));
    assert_eq!(r, Err(ServiceError::BadRequest("Target must be an ennemy".to_owned())));

    // waiting has zero range: any other tile is already out of reach
    let r = use_ability(&mut game, &alice_user, AbilityName::Wait, c(2, 0));
    assert_eq!(r, Err(ServiceError::BadRequest("Out of range".to_owned())));

    // waiting is self-cast only: with another entity sharing the caster's
    // tile and standing first in the roster, the occupant is not the caster
    let mut charlie = entity("alice", 3, c(0, 0), 0, CharClass::Warrior);
    charlie.next_move_time = 1;
    game.entities.insert(0, charlie);
    let r = use_ability(&mut game, &alice_user, AbilityName::Wait, c(0, 0));
    assert_eq!(r, Err(ServiceError::BadRequest("This ability is self-cast".to_owned())));
    game.entities.remove(0);

    // acting out of turn is unauthorized
    let r = use_ability(&mut game, &"bob".to_owned(), AbilityName::Wait, c(8, 0));
    assert_eq!(r, Err(ServiceError::Unauthorized));

    // and a self-cast wait on the caster's own tile goes through
    let r = use_ability(&mut game, &alice_user, AbilityName::Wait, c(0, 0));
    assert_eq!(r, Ok(()));
    let alice = game.entities.iter().find(|e| e.id == 2).unwrap();
    assert_eq!(alice.next_move_time, 6);
}

#[test]
fn empty_roster_has_no_active_entity() {
    let mut game = Game::new(8);
    let r = use_ability(&mut game, &"alice".to_owned(), AbilityName::Wait, c(0, 0));
    assert_eq!(r, Err(ServiceError::BadRequest("No active entity".to_owned())));
    assert!(get_gamestate(&game).is_err());
}

#[test]
fn cast_delay_formulas() {
    let warrior = entity("alice", 2, c(0, 0), 0, CharClass::Warrior);
    let two_tiles_move = Ability { name: AbilityName::Move, caster: warrior };
    assert_eq!(two_tiles_move.get_delay(c(4, 0)), 24);
    assert_eq!(two_tiles_move.get_delay(c(2, 0)), 12);

    let warrior = entity("alice", 2, c(0, 0), 0, CharClass::Warrior);
    let attack = Ability { name: AbilityName::Attack, caster: warrior };
    assert_eq!(attack.get_delay(c(2, 0)), 20);

    let warrior = entity("alice", 2, c(0, 0), 0, CharClass::Warrior);
    let wait = Ability { name: AbilityName::Wait, caster: warrior };
    assert_eq!(wait.get_delay(c(0, 0)), 6);

    // the archer's combo discounts: attack after a move, move after an attack
    let mut archer = entity("alice", 2, c(0, 0), 0, CharClass::Archer);
    archer.log.push(ActionLog { turn_time: 0, target: c(2, 0), action_name: AbilityName::Move });
    let combo_attack = Ability { name: AbilityName::Attack, caster: archer };
    assert_eq!(combo_attack.get_delay(c(2, 0)), 14);

    let mut archer = entity("alice", 2, c(0, 0), 0, CharClass::Archer);
    archer.log.push(ActionLog { turn_time: 0, target: c(2, 0), action_name: AbilityName::Attack });
    let combo_move = Ability { name: AbilityName::Move, caster: archer };
    assert_eq!(combo_move.get_delay(c(2, 0)), 6);

    // a warrior gets no discount from the same history
    let mut warrior = entity("alice", 2, c(0, 0), 0, CharClass::Warrior);
    warrior.log.push(ActionLog { turn_time: 0, target: c(2, 0), action_name: AbilityName::Move });
    let plain_attack = Ability { name: AbilityName::Attack, caster: warrior };
    assert_eq!(plain_attack.get_delay(c(2, 0)), 20);
}

#[test]
fn regeneration_is_clamped_at_the_maximum() {
    let mut game = Game::new(9);
    game.map = floors(&[(0, 0)]);
    let mut alice = entity("alice", 2, c(0, 0), 0, CharClass::Warrior);
    for (name, r) in alice.resources.iter_mut() {
        if name.as_str() == "hp" {
            r.current = 950;
        }
    }
    game.entities.push(alice);
    game.increment_resources(30);
    // 950 + 30 would pass 1000 only if uncapped; 980 stays below the cap
    assert_eq!(hp_of(&game, 2), Some(980));
    game.increment_resources(100);
    assert_eq!(hp_of(&game, 2), Some(1000));
}
