//! Geometry: distance metric, step directions and line tracing.

use std::collections::HashSet;

use hexcombat::coords::{get_dist_sq4, get_distance, isqrt, Coords};
use hexcombat::moves::get_possible_moves;
use hexcombat::tiles::{BlockingRule, TileMap, TileType};
use hexcombat::vision::{get_los_line, has_los};

fn c(x: i64, y: i64) -> Coords {
    Coords { x, y }
}

#[test]
fn distance_to_self_is_zero() {
    for &(x, y) in &[(0i64, 0i64), (5, -3), (-100, 77), (100_000, -100_000)] {
        let a = c(x, y);
        assert_eq!(get_distance(&a, &a), 0);
        assert_eq!(get_dist_sq4(&a, &a), 0);
    }
}

#[test]
fn distance_between_adjacent_tiles_is_one() {
    let a = c(10, -4);
    for &(dx, dy) in &[(2i64, 0i64), (-2, 0), (1, 1), (1, -1), (-1, 1), (-1, -1)] {
        let b = c(a.x + dx, a.y + dy);
        // one tile exactly, in millitiles
        assert_eq!(get_distance(&a, &b), 1000);
        assert_eq!(get_dist_sq4(&a, &b), 4);
    }
}

#[test]
fn distance_exact_values() {
    // sqrt((3^2 + 3*1^2)/4) = sqrt(3) ~ 1.732...
    assert_eq!(get_distance(&c(0, 0), &c(3, 1)), 1732);
    // two straight steps
    assert_eq!(get_distance(&c(0, 0), &c(4, 0)), 2000);
    // floor(1000*sqrt((1 + 3*9)/4)) = floor(1000*sqrt(7)) = 2645
    assert_eq!(get_distance(&c(0, 0), &c(1, 3)), 2645);
}

#[test]
fn isqrt_exact_values() {
    assert_eq!(isqrt(0), 0);
    assert_eq!(isqrt(1), 1);
    assert_eq!(isqrt(3), 1);
    assert_eq!(isqrt(4), 2);
    assert_eq!(isqrt(576), 24);
    assert_eq!(isqrt(1_000_000), 1000);
    assert_eq!(isqrt(999_999), 999);
}

#[test]
fn possible_moves_identical_endpoints_is_empty() {
    assert_eq!(get_possible_moves(&c(3, 3), &c(3, 3)), vec![]);
}

#[test]
fn possible_moves_purely_horizontal_single_step() {
    assert_eq!(get_possible_moves(&c(0, 0), &c(6, 0)), vec![c(2, 0)]);
    assert_eq!(get_possible_moves(&c(0, 0), &c(-6, 0)), vec![c(-2, 0)]);
}

#[test]
fn possible_moves_equal_progress_single_diagonal() {
    assert_eq!(get_possible_moves(&c(0, 0), &c(2, 2)), vec![c(1, 1)]);
    assert_eq!(get_possible_moves(&c(0, 0), &c(-2, 2)), vec![c(-1, 1)]);
    assert_eq!(get_possible_moves(&c(0, 0), &c(2, -2)), vec![c(1, -1)]);
    assert_eq!(get_possible_moves(&c(0, 0), &c(-2, -2)), vec![c(-1, -1)]);
}

#[test]
fn possible_moves_dominant_horizontal_two_steps() {
    assert_eq!(get_possible_moves(&c(0, 0), &c(6, 2)), vec![c(2, 0), c(1, 1)]);
    assert_eq!(get_possible_moves(&c(0, 0), &c(-6, 2)), vec![c(-2, 0), c(-1, 1)]);
}

#[test]
fn possible_moves_dominant_vertical_two_diagonals() {
    assert_eq!(get_possible_moves(&c(0, 0), &c(1, 3)), vec![c(-1, 1), c(1, 1)]);
    assert_eq!(get_possible_moves(&c(0, 0), &c(1, -3)), vec![c(-1, -1), c(1, -1)]);
}

#[test]
fn los_line_cone_endpoints_plus_midpoint() {
    let line: HashSet<Coords> = get_los_line(&c(0, 0), &c(3, 1)).into_iter().collect();
    let expected: HashSet<Coords> = vec![c(0, 0), c(2, 0), c(1, 1)].into_iter().collect();
    assert_eq!(line, expected);
}

#[test]
fn los_line_same_tile_is_singleton() {
    assert_eq!(get_los_line(&c(5, 5), &c(5, 5)), vec![c(5, 5)]);
}

fn straight_map(wall_at: Option<Coords>) -> TileMap {
    let mut map = TileMap::new();
    for x in [0i64, 2, 4, 6, 8] {
        map.insert(c(x, 0), TileType::Floor);
    }
    if let Some(w) = wall_at {
        map.insert(w, TileType::Wall);
    }
    map
}

#[test]
fn has_los_blocked_by_wall_on_straight_line() {
    // tiles four apart with a single wall between them
    let map = straight_map(Some(c(4, 0)));
    let r = has_los(&c(0, 0), &c(8, 0), &map, &Vec::new(), BlockingRule::Sight);
    assert_eq!(r, Err(c(4, 0)));
}

#[test]
fn has_los_blocked_by_wall_off_the_straight_path() {
    // diagonal trace whose corridor runs through an offset wall tile
    let mut map = TileMap::new();
    map.insert(c(0, 0), TileType::Floor);
    map.insert(c(2, 0), TileType::Floor);
    map.insert(c(1, 1), TileType::Wall);
    map.insert(c(3, 1), TileType::Floor);
    let r = has_los(&c(0, 0), &c(3, 1), &map, &Vec::new(), BlockingRule::Sight);
    assert_eq!(r, Err(c(1, 1)));
}

#[test]
fn has_los_clear_when_intervening_tile_is_floor() {
    let map = straight_map(None);
    let r = has_los(&c(0, 0), &c(8, 0), &map, &Vec::new(), BlockingRule::Sight);
    assert_eq!(r, Ok(()));
}

#[test]
fn has_los_same_tile_trivially_visible() {
    let map = straight_map(Some(c(0, 0)));
    // even standing on a wall: the same tile is trivially visible
    let r = has_los(&c(0, 0), &c(0, 0), &map, &Vec::new(), BlockingRule::Sight);
    assert_eq!(r, Ok(()));
}

#[test]
fn has_los_blocked_by_enemy_entity() {
    let map = straight_map(None);
    let mut blocker = entity_at(c(4, 0));
    blocker.scenario_player_index = 1;
    let r = has_los(&c(0, 0), &c(8, 0), &map, &vec![blocker], BlockingRule::Sight);
    assert_eq!(r, Err(c(4, 0)));
}

#[test]
fn walk_rule_blocks_deep_water_not_grass() {
    let mut map = TileMap::new();
    map.insert(c(0, 0), TileType::Floor);
    map.insert(c(2, 0), TileType::DeepWater);
    map.insert(c(4, 0), TileType::Floor);
    assert_eq!(
        has_los(&c(0, 0), &c(4, 0), &map, &Vec::new(), BlockingRule::Walk),
        Err(c(2, 0))
    );
    map.insert(c(2, 0), TileType::TallGrass);
    assert_eq!(
        has_los(&c(0, 0), &c(4, 0), &map, &Vec::new(), BlockingRule::Walk),
        Ok(())
    );
}

fn entity_at(coords: Coords) -> hexcombat::entity::Entity {
    hexcombat::entity::Entity {
        user_id: "someone".to_owned(),
        id: 1,
        coords,
        resources: hexcombat::charclasses::CharClass::Warrior.get_resource_list(),
        scenario_player_index: 0,
        last_move_time: 0,
        next_move_time: 0,
        game_class: hexcombat::charclasses::CharClass::Warrior,
        log: Vec::new(),
    }
}
