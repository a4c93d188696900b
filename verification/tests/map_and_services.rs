//! Map parsing, the ability catalog, and the small services around the
//! combat core.

use std::str::FromStr;

use hexcombat::abilities::{Ability, AbilityName, TargetType};
use hexcombat::charclasses::CharClass;
use hexcombat::coords::Coords;
use hexcombat::entity::Entity;
use hexcombat::errors::ServiceError;
use hexcombat::game::Game;
use hexcombat::schemas::{GameRef, GameStatus};
use hexcombat::services::{get_active_game, get_scenario_players, get_scenarios, transfer_entity};
use hexcombat::tiles::{from_text, TileType};

fn c(x: i64, y: i64) -> Coords {
    Coords { x, y }
}

fn entity(user: &str, id: u64, coords: Coords, faction: i64, class: CharClass) -> Entity {
    Entity {
        user_id: user.to_owned(),
        id,
        coords,
        resources: class.get_resource_list(),
        scenario_player_index: faction,
        last_move_time: 0,
        next_move_time: 0,
        game_class: class,
        log: Vec::new(),
    }
}

#[test]
fn test_from_text() {
    let hm = from_text("  ...\n ....\n .....\n..gg..\n..g#g..\n..gg..\n .....\n ....\n  ...");
    assert_eq!(hm.get(&Coords { y: 4, x: 6 }), Some(TileType::Wall));
    assert_eq!(hm.len(), 43);
}

#[test]
fn from_text_tile_kinds_and_offsets() {
    let hm = from_text(".g=#\n ..");
    assert_eq!(hm.get(&c(0, 0)), Some(TileType::Floor));
    assert_eq!(hm.get(&c(2, 0)), Some(TileType::TallGrass));
    assert_eq!(hm.get(&c(4, 0)), Some(TileType::DeepWater));
    assert_eq!(hm.get(&c(6, 0)), Some(TileType::Wall));
    // odd rows start at x = 1; spaces leave tiles unmapped
    assert_eq!(hm.get(&c(1, 1)), None);
    assert_eq!(hm.get(&c(3, 1)), Some(TileType::Floor));
    assert_eq!(hm.get(&c(5, 1)), Some(TileType::Floor));
    assert_eq!(hm.len(), 6);
}

#[test]
fn tile_blocking_properties() {
    assert!(TileType::Wall.is_blocking_sight());
    assert!(TileType::TallGrass.is_blocking_sight());
    assert!(!TileType::Floor.is_blocking_sight());
    assert!(!TileType::DeepWater.is_blocking_sight());
    assert!(TileType::Wall.is_blocking_walk());
    assert!(TileType::DeepWater.is_blocking_walk());
    assert!(!TileType::Floor.is_blocking_walk());
    assert!(!TileType::TallGrass.is_blocking_walk());
}

#[test]
fn class_statistics() {
    assert_eq!(CharClass::Warrior.get_attack_range(), 1);
    assert_eq!(CharClass::Archer.get_attack_range(), 4);
    assert_eq!(CharClass::Mage.get_attack_range(), 3);
    assert_eq!(CharClass::Warrior.get_attack_damage(), 140);
    assert_eq!(CharClass::Archer.get_attack_damage(), 120);
    assert_eq!(CharClass::Mage.get_attack_damage(), 100);
    assert_eq!(CharClass::Mage.get_attack_time(), 20);
}

#[test]
fn class_resources_and_abilities() {
    let warrior = CharClass::Warrior.get_resource_list();
    assert_eq!(warrior.len(), 2);
    assert_eq!(warrior[0].0, "hp");
    assert_eq!(warrior[0].1.max, 1000);
    assert_eq!(warrior[0].1.current, 1000);
    assert_eq!(warrior[0].1.per_turn, 1);
    assert_eq!(warrior[1].0, "ShieldBash");
    assert_eq!(warrior[1].1.max, 60);
    let archer = CharClass::Archer.get_resource_list();
    assert_eq!(archer.len(), 1);
    assert_eq!(archer[0].0, "hp");

    assert_eq!(
        CharClass::Warrior.get_ability_list(),
        vec![AbilityName::Move, AbilityName::Attack, AbilityName::Wait, AbilityName::ShieldBash]
    );
    assert_eq!(
        CharClass::Mage.get_ability_list(),
        vec![AbilityName::Move, AbilityName::Attack, AbilityName::Wait]
    );
}

#[test]
fn ability_catalog() {
    let warrior = entity("alice", 1, c(0, 0), 0, CharClass::Warrior);
    let bash = Ability { name: AbilityName::ShieldBash, caster: warrior };
    assert_eq!(bash.min_range(), 0);
    assert_eq!(bash.max_range(&CharClass::Warrior), 1);
    assert_eq!(bash.max_range(&CharClass::Archer), 4);
    assert_eq!(bash.target_type(), TargetType::Ennemy);
    assert!(bash.needs_los());
    let costs = bash.get_costs();
    assert_eq!(costs.len(), 1);
    assert_eq!(costs[0].0, "ShieldBash");
    assert_eq!(costs[0].1, 60);

    let mover = entity("alice", 1, c(0, 0), 0, CharClass::Warrior);
    let mv = Ability { name: AbilityName::Move, caster: mover };
    assert_eq!(mv.max_range(&CharClass::Warrior), 2);
    assert_eq!(mv.target_type(), TargetType::Walkable);
    assert!(!mv.needs_los());
    assert!(mv.get_costs().is_empty());

    let waiter = entity("alice", 1, c(0, 0), 0, CharClass::Warrior);
    let wait = Ability { name: AbilityName::Wait, caster: waiter };
    assert_eq!(wait.max_range(&CharClass::Warrior), 0);
    assert_eq!(wait.target_type(), TargetType::Selfcast);
    assert!(!wait.needs_los());
}

#[test]
fn ability_and_class_wire_names() {
    assert_eq!(AbilityName::Move.to_string(), "Move");
    assert_eq!(AbilityName::Wait.to_string(), "Wait");
    assert_eq!(AbilityName::Attack.to_string(), "Attack");
    assert_eq!(AbilityName::ShieldBash.to_string(), "ShieldBash");
    assert_eq!(AbilityName::from_str("Move"), Ok(AbilityName::Move));
    assert_eq!(AbilityName::from_str("ShieldBash"), Ok(AbilityName::ShieldBash));
    assert_eq!(AbilityName::from_str("Fireball"), Err(()));
    assert_eq!(CharClass::from_str("Warrior"), Ok(CharClass::Warrior));
    assert_eq!(CharClass::from_str("Archer"), Ok(CharClass::Archer));
    assert_eq!(CharClass::from_str("Mage"), Err("No matching class".to_owned()));
}

#[test]
fn new_game_has_three_floor_tiles_and_no_entities() {
    let game = Game::new(42);
    assert_eq!(game.id, 42);
    assert!(game.entities.is_empty());
    assert_eq!(game.map.len(), 3);
    assert_eq!(game.map.get(&c(-2, 0)), Some(TileType::Floor));
    assert_eq!(game.map.get(&c(0, 0)), Some(TileType::Floor));
    assert_eq!(game.map.get(&c(2, 0)), Some(TileType::Floor));
    assert!(game.is_concluded());
}

#[test]
fn deploy_entity_places_and_replaces() {
    let mut game = Game::new(1);
    game.deploy_entity("alice".to_owned(), 10, c(-2, 0), 0, CharClass::Warrior);
    assert_eq!(game.entities.len(), 1);
    assert_eq!(game.entities[0].id, 10);
    assert_eq!(game.entities[0].next_move_time, 0);
    assert_eq!(game.entities[0].resources.len(), 2);
    // deploying onto an occupied tile replaces the occupant
    game.deploy_entity("bob".to_owned(), 11, c(-2, 0), 1, CharClass::Archer);
    assert_eq!(game.entities.len(), 1);
    assert_eq!(game.entities[0].id, 11);
    game.deploy_entity("carol".to_owned(), 12, c(2, 0), 0, CharClass::Archer);
    assert_eq!(game.entities.len(), 2);
    assert!(!game.is_concluded());
}

#[test]
fn scenario_catalog() {
    assert_eq!(get_scenarios(), vec![0]);
    let players = get_scenario_players();
    assert_eq!(players.len(), 2);
    assert_eq!(players[0].player_points, 100);
    assert_eq!(players[0].drop_tiles, vec![c(-2, 0)]);
    assert_eq!(players[1].drop_tiles, vec![c(2, 0)]);
    for p in &players {
        assert_eq!(p.allowed_clases.len(), 2);
        assert_eq!(p.allowed_clases[0].game_class, CharClass::Archer);
        assert_eq!(p.allowed_clases[0].player_points, 25);
        assert_eq!(p.allowed_clases[1].game_class, CharClass::Warrior);
    }
}

#[test]
fn active_games_are_open_or_seat_the_user() {
    let list = vec![
        GameRef {
            game_id: 1,
            seated_players: vec!["alice".to_owned()],
            status: GameStatus::Running,
            scenario: 0,
        },
        GameRef {
            game_id: 2,
            seated_players: vec![],
            status: GameStatus::Open,
            scenario: 0,
        },
        GameRef {
            game_id: 3,
            seated_players: vec!["bob".to_owned()],
            status: GameStatus::Running,
            scenario: 0,
        },
    ];
    assert_eq!(get_active_game(&list, &"alice".to_owned()), vec![1, 2]);
    assert_eq!(get_active_game(&list, &"bob".to_owned()), vec![2, 3]);
    assert_eq!(get_active_game(&list, &"carol".to_owned()), vec![2]);
}

#[test]
fn transfer_entity_checks_ownership() {
    let mut game = Game::new(1);
    game.entities.push(entity("alice", 2, c(-2, 0), 0, CharClass::Warrior));
    game.entities.push(entity("bob", 1, c(2, 0), 1, CharClass::Warrior));
    // bob does not own the acting entity
    let r = transfer_entity(&mut game, &"bob".to_owned(), "carol".to_owned());
    assert_eq!(r, Err(ServiceError::Unauthorized));
    assert_eq!(game.entities[0].user_id, "alice");
    // its owner may hand it over
    let r = transfer_entity(&mut game, &"alice".to_owned(), "carol".to_owned());
    assert_eq!(r, Ok(()));
    assert_eq!(game.entities[0].user_id, "carol");

    let mut empty = Game::new(2);
    let r = transfer_entity(&mut empty, &"alice".to_owned(), "carol".to_owned());
    assert_eq!(r, Err(ServiceError::BadRequest("No active entity".to_owned())));
}

#[test]
fn service_error_messages() {
    assert_eq!(ServiceError::NotFound.message(), "Not found");
    assert_eq!(ServiceError::Unauthorized.message(), "Unauthorized");
    assert_eq!(ServiceError::BadRequest("nope".to_owned()).message(), "nope");
    assert_eq!(ServiceError::StorageError("disk".to_owned()).message(), "disk");
    assert_eq!(ServiceError::QueueError("queue".to_owned()).message(), "queue");
}
