//! Plain data carried across the engine's boundary: match listings, users,
//! scenario descriptions and deployment requests.

use vstd::prelude::*;

use crate::charclasses::CharClass;
use crate::coords::Coords;

verus! {

/// Whether a match is accepting players or already running.
#[derive(Debug, Clone, Copy, PartialEq, Eq, Structural)]
pub enum GameStatus {
    Running,
    Open,
}

/// A match listing entry: id, seated players, status and scenario.
#[derive(Debug, Clone, PartialEq, Eq)]
pub struct GameRef {
    pub game_id: u64,
    pub seated_players: Vec<String>,
    pub status: GameStatus,
    pub scenario: i64,
}

/// A registered user: roles, identifier and password hash.
#[derive(Debug, Clone, PartialEq, Eq)]
pub struct UserData {
    pub roles: Vec<String>,
    pub id: String,
    pub passhash: String,
}

/// Credentials submitted at login.
#[derive(Debug)]
pub struct LoginForm {
    pub username: String,
    pub password: String,
}

/// A class a seat may choose, with its point cost.
#[derive(Debug, Clone, Copy, PartialEq, Eq, Structural)]
pub struct AvailableClass {
    pub game_class: CharClass,
    pub player_points: i64,
}

/// One seat of a scenario: its point budget, drop tiles and allowed
/// classes.
#[derive(Debug, Clone, PartialEq, Eq)]
pub struct ScenarioPlayer {
    pub player_points: i64,
    pub drop_tiles: Vec<Coords>,
    pub allowed_clases: Vec<AvailableClass>,
}

/// A request to attack a specific entity.
#[derive(Debug)]
pub struct AttackEntityRequest {
    pub entity_id: i64,
}

/// A request to deploy a seat's entities at their chosen tiles.
#[derive(Debug, Clone)]
pub struct DeployEntitiesRequest {
    pub scenario_player_id: i64,
    pub entities: Vec<(Coords, CharClass)>,
}

} // verus!
