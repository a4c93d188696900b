//! Combat resolution engine for a turn-based tactical game on a hexagonal
//! grid: hex geometry, line-of-sight tracing, an initiative scheduler, an
//! ability validator/resolver, and a per-viewer game-state projection.

pub mod abilities;
pub mod charclasses;
pub mod coords;
pub mod entity;
pub mod errors;
pub mod game;
pub mod moves;
pub mod projector;
pub mod schemas;
pub mod services;
pub mod tiles;
pub mod vision;

pub use coords::Coords;
pub use errors::ServiceError;
