//! Line tracing and line-of-sight.
//!
//! `get_los_line` sweeps a growing frontier from the start tile toward the
//! end tile: every frontier tile is extended by every step direction of
//! `get_possible_moves`, keeping only new tiles whose summed distance to
//! both endpoints stays within a small slack of the direct distance, until
//! the end tile itself is generated.  The result is the full swept corridor
//! of candidate blocking tiles, not a single ray.
//!
//! `has_los` then checks the corridor: of the tiles close enough to the
//! ideal straight line, the nearest (to the start) that is occupied by a
//! blocking entity or blocking terrain decides against visibility.

use vstd::prelude::*;

use crate::coords::{dist_milli, dist_sq4, get_dist_sq4, get_distance, in_bounds,
    lemma_abs_bound_from_square, lemma_dist_sq4_nonneg, lemma_sqrt_floor_bounds,
    lemma_square_monotonic, lemma_square_monotonic_abs, Coords};
use crate::entity::{Entity, EntityV};
use crate::moves::{get_possible_moves, is_unit_step, moves_spec};
use crate::tiles::{rule_blocks, BlockingRule, TileMap, TileType};

verus! {

/// Fuel bound on the frontier sweep; far beyond the rounds any pair of
/// in-bounds tiles can need, so it only guards termination.
pub const LOS_FUEL: u64 = 10_000_000;

/// Tile addition, as the tracer applies step vectors.
pub open spec fn coords_add(a: Coords, b: Coords) -> Coords {
    Coords { x: (a.x + b.x) as i64, y: (a.y + b.y) as i64 }
}

/// `t` lies in the swept corridor between `s` and `e`: its summed distance
/// to the two endpoints exceeds the direct distance by at most 1.001 tiles
/// (in millitile units).
pub open spec fn in_corridor(s: Coords, e: Coords, t: Coords) -> bool {
    dist_milli(t, s) + dist_milli(t, e) <= dist_milli(s, e) + 1001
}

/// A tile the tracer may hold: the start itself, or a corridor tile.
pub open spec fn line_tile_ok(s: Coords, e: Coords, t: Coords) -> bool {
    t == s || in_corridor(s, e, t)
}

/// One frontier tile extended by the step directions from position `j`
/// onward: tiles outside the corridor are skipped, generating the end tile
/// stops this tile's extension and reports the hit, and new corridor tiles
/// are appended.
pub open spec fn step_tile(
    s: Coords,
    e: Coords,
    moves: Seq<Coords>,
    t: Coords,
    j: int,
    acc: Seq<Coords>,
) -> (Seq<Coords>, bool)
    decreases moves.len() - j,
{
    if j < 0 || j >= moves.len() {
        (acc, false)
    } else {
        let n = coords_add(t, moves[j]);
        if !in_corridor(s, e, n) {
            step_tile(s, e, moves, t, j + 1, acc)
        } else if n == e {
            (acc, true)
        } else if acc.contains(n) {
            step_tile(s, e, moves, t, j + 1, acc)
        } else {
            step_tile(s, e, moves, t, j + 1, acc.push(n))
        }
    }
}

/// One full round: every frontier tile from position `i` up to `limit`
/// extended in order.
pub open spec fn step_round(
    s: Coords,
    e: Coords,
    moves: Seq<Coords>,
    acc: Seq<Coords>,
    i: int,
    limit: int,
) -> (Seq<Coords>, bool)
    decreases limit - i,
{
    if i < 0 || i >= limit {
        (acc, false)
    } else {
        let r1 = step_tile(s, e, moves, acc[i], 0, acc);
        let r2 = step_round(s, e, moves, r1.0, i + 1, limit);
        (r2.0, r1.1 || r2.1)
    }
}

/// The frontier after repeated rounds: stop when the end tile was
/// generated, when a round adds nothing (the trace cannot progress), or
/// when the fuel runs out.
pub open spec fn sweep(s: Coords, e: Coords, moves: Seq<Coords>, acc: Seq<Coords>, fuel: nat) -> Seq<
    Coords,
>
    decreases fuel,
{
    if fuel == 0 {
        acc
    } else {
        let r = step_round(s, e, moves, acc, 0, acc.len() as int);
        if r.1 {
            r.0
        } else if r.0.len() == acc.len() {
            acc
        } else {
            sweep(s, e, moves, r.0, (fuel - 1) as nat)
        }
    }
}

/// The swept corridor between `s` and `e`.
pub open spec fn los_line_spec(s: Coords, e: Coords) -> Seq<Coords> {
    if s == e {
        seq![s]
    } else {
        sweep(s, e, moves_spec(s, e), seq![s], LOS_FUEL as nat)
    }
}

/// Corridor tiles of an in-bounds pair stay within a moderate box: their
/// distance to `s` is at most the direct distance plus the slack, which
/// bounds both coordinate offsets.
pub proof fn lemma_corridor_coord_bounds(s: Coords, e: Coords, t: Coords)
    requires
        in_bounds(s),
        in_bounds(e),
        in_corridor(s, e, t),
    ensures
        -600_000 <= t.x <= 600_000,
        -600_000 <= t.y <= 600_000,
{
    lemma_dist_sq4_nonneg(s, e);
    lemma_dist_sq4_nonneg(t, s);
    lemma_dist_sq4_nonneg(t, e);
    let q = dist_sq4(s, e);
    lemma_square_monotonic_abs(s.x - e.x, 200_000int);
    lemma_square_monotonic_abs(s.y - e.y, 200_000int);
    assert(q <= 160_000_000_000);
    let dse = dist_milli(s, e);
    lemma_sqrt_floor_bounds((250_000 * q) as nat);
    if dse > 200_000_000 {
        lemma_square_monotonic(200_000_001int, dse as int);
        assert(false);
    }
    let dts = dist_milli(t, s);
    lemma_sqrt_floor_bounds((250_000 * dist_sq4(t, s)) as nat);
    assert(dts <= 200_001_001);
    let q2 = dist_sq4(t, s);
    assert(250_000 * q2 < (dts + 1) * (dts + 1));
    assert((dts + 1) * (dts + 1) <= 200_001_002int * 200_001_002int) by (nonlinear_arith)
        requires
            0 <= dts + 1 <= 200_001_002int,
    ;
    assert(q2 <= 160_001_603_204);
    let dx = t.x - s.x;
    let dy = t.y - s.y;
    assert(dx * dx >= 0) by (nonlinear_arith);
    assert(dy * dy >= 0) by (nonlinear_arith);
    assert(dx * dx <= q2);
    assert(dx * dx <= 500_000int * 500_000int);
    lemma_abs_bound_from_square(dx, 500_000int);
    assert(3 * (dy * dy) <= q2);
    assert(dy * dy <= 500_000int * 500_000int);
    lemma_abs_bound_from_square(dy, 500_000int);
}

/// Whether `v` holds `c`.
pub fn vec_contains_coords(v: &Vec<Coords>, c: &Coords) -> (r: bool)
    ensures
        r == v@.contains(*c),
{
    let n = v.len();
    let mut i: usize = 0;
    while i < n
        invariant
            n == v@.len(),
            0 <= i <= n,
            forall|j: int| 0 <= j < i ==> v@[j] != *c,
        decreases n - i,
    {
        if v[i].x == c.x && v[i].y == c.y {
            proof {
                assert(v@[i as int] == *c);
            }
            return true;
        }
        i = i + 1;
    }
    false
}

/// The swept corridor of candidate blocking tiles between `start` and
/// `end`: a growing frontier extended by the possible step directions,
/// restricted to the distance corridor, until the end tile is generated.
/// The end tile itself is not part of the result.
pub fn get_los_line(start: &Coords, end: &Coords) -> (r: Vec<Coords>)
    requires
        in_bounds(*start),
        in_bounds(*end),
    ensures
        r@ == los_line_spec(*start, *end),
        r@.contains(*start),
        r@.no_duplicates(),
        forall|i: int| 0 <= i < r@.len() ==> line_tile_ok(*start, *end, #[trigger] r@[i]),
        *start != *end ==> !r@.contains(*end),
{
    let s = *start;
    let e = *end;
    let mut frontier: Vec<Coords> = Vec::new();
    frontier.push(s);
    proof {
        assert(frontier@ =~= seq![s]);
        assert(frontier@[0] == s);
    }
    if s.x == e.x && s.y == e.y {
        proof {
            assert(s == e);
        }
        return frontier;
    }
    proof {
        assert(s != e);
    }
    let moves = get_possible_moves(start, end);
    let mut fuel: u64 = LOS_FUEL;
    loop
        invariant_except_break
            los_line_spec(s, e) == sweep(s, e, moves@, frontier@, fuel as nat),
        invariant
            in_bounds(s),
            in_bounds(e),
            s != e,
            moves@ == moves_spec(s, e),
            forall|k: int| 0 <= k < moves@.len() ==> is_unit_step(#[trigger] moves@[k]),
            frontier@.len() >= 1,
            frontier@.contains(s),
            frontier@.no_duplicates(),
            forall|k: int| 0 <= k < frontier@.len() ==> line_tile_ok(s, e, #[trigger] frontier@[k]),
            !frontier@.contains(e),
            fuel <= LOS_FUEL,
        ensures
            frontier@ == los_line_spec(s, e),
            frontier@.contains(s),
            frontier@.no_duplicates(),
            forall|k: int| 0 <= k < frontier@.len() ==> line_tile_ok(s, e, #[trigger] frontier@[k]),
            !frontier@.contains(e),
        decreases fuel,
    {
        if fuel == 0 {
            proof {
                assert(sweep(s, e, moves@, frontier@, fuel as nat) == frontier@);
            }
            break ;
        }
        let olen = frontier.len();
        let ghost round_start = frontier@;
        let mut hit = false;
        let mut i: usize = 0;
        while i < olen
            invariant
                in_bounds(s),
                in_bounds(e),
                s != e,
                moves@ == moves_spec(s, e),
                forall|k: int| 0 <= k < moves@.len() ==> is_unit_step(#[trigger] moves@[k]),
                0 <= i <= olen <= frontier@.len(),
                round_start.len() == olen,
                forall|k: int| 0 <= k < olen ==> frontier@[k] == round_start[k],
                frontier@.contains(s),
                frontier@.no_duplicates(),
                forall|k: int|
                    0 <= k < frontier@.len() ==> line_tile_ok(s, e, #[trigger] frontier@[k]),
                !frontier@.contains(e),
                step_round(s, e, moves@, round_start, 0, olen as int).0 == step_round(s, e,
                    moves@, frontier@, i as int, olen as int).0,
                step_round(s, e, moves@, round_start, 0, olen as int).1 == (hit || step_round(s,
                    e, moves@, frontier@, i as int, olen as int).1),
            decreases olen - i,
        {
            let t = frontier[i];
            let ghost tile_start = frontier@;
            let ghost hit_before = hit;
            proof {
                assert(line_tile_ok(s, e, t));
                if in_corridor(s, e, t) {
                    lemma_corridor_coord_bounds(s, e, t);
                }
            }
            let m = moves.len();
            let mut j: usize = 0;
            let mut tile_hit = false;
            while j < m
                invariant_except_break
                    !tile_hit,
                    step_tile(s, e, moves@, t, 0, tile_start).0 == step_tile(s, e, moves@, t,
                        j as int, frontier@).0,
                    step_tile(s, e, moves@, t, 0, tile_start).1 == step_tile(s, e, moves@, t,
                        j as int, frontier@).1,
                invariant
                    in_bounds(s),
                    in_bounds(e),
                    s != e,
                    moves@ == moves_spec(s, e),
                    forall|k: int| 0 <= k < moves@.len() ==> is_unit_step(#[trigger] moves@[k]),
                    m == moves@.len(),
                    0 <= j <= m,
                    -600_000 <= t.x <= 600_000,
                    -600_000 <= t.y <= 600_000,
                    frontier@.len() >= tile_start.len(),
                    forall|k: int| 0 <= k < tile_start.len() ==> frontier@[k] == tile_start[k],
                    frontier@.contains(s),
                    frontier@.no_duplicates(),
                    forall|k: int|
                        0 <= k < frontier@.len() ==> line_tile_ok(s, e, #[trigger] frontier@[k]),
                    !frontier@.contains(e),
                ensures
                    frontier@.len() >= tile_start.len(),
                    forall|k: int| 0 <= k < tile_start.len() ==> frontier@[k] == tile_start[k],
                    frontier@.contains(s),
                    frontier@.no_duplicates(),
                    forall|k: int|
                        0 <= k < frontier@.len() ==> line_tile_ok(s, e, #[trigger] frontier@[k]),
                    !frontier@.contains(e),
                    step_tile(s, e, moves@, t, 0, tile_start) == (frontier@, tile_hit),
                decreases m - j,
            {
                let mv = moves[j];
                let n = Coords { x: t.x + mv.x, y: t.y + mv.y };
                proof {
                    assert(n == coords_add(t, moves@[j as int]));
                }
                let d1 = get_distance(&n, &s);
                let d2 = get_distance(&n, &e);
                let dse = get_distance(&s, &e);
                if d1 + d2 > dse + 1001 {
                    proof {
                        assert(!in_corridor(s, e, n));
                    }
                    j = j + 1;
                    continue ;
                }
                proof {
                    assert(in_corridor(s, e, n));
                }
                if n.x == e.x && n.y == e.y {
                    proof {
                        assert(n == e);
                    }
                    tile_hit = true;
                    break ;
                }
                proof {
                    assert(n != e);
                }
                if !vec_contains_coords(&frontier, &n) {
                    let ghost before = frontier@;
                    frontier.push(n);
                    proof {
                        assert(forall|k: int| 0 <= k < before.len() ==> frontier@[k] == before[k]);
                        assert(frontier@.last() == n);
                        assert(frontier@.no_duplicates()) by {
                            assert(forall|k: int| 0 <= k < before.len() ==> #[trigger] before[k]
                                != n);
                        }
                        assert(frontier@.contains(s)) by {
                            let w = choose|w: int| 0 <= w < before.len() && before[w] == s;
                            assert(frontier@[w] == s);
                        }
                        assert(!frontier@.contains(e)) by {
                            if frontier@.contains(e) {
                                let w = choose|w: int|
                                    0 <= w < frontier@.len() && frontier@[w] == e;
                                assert(w < before.len() ==> before[w] == e);
                            }
                        }
                    }
                }
                j = j + 1;
            }
            proof {
                assert(step_tile(s, e, moves@, t, 0, tile_start) == (frontier@, tile_hit));
            }
            if tile_hit {
                hit = true;
            }
            i = i + 1;
        }
        proof {
            assert(step_round(s, e, moves@, round_start, 0, olen as int).0 == frontier@);
            assert(step_round(s, e, moves@, round_start, 0, olen as int).1 == hit);
        }
        if hit {
            proof {
                assert(sweep(s, e, moves@, round_start, fuel as nat) == frontier@);
            }
            break ;
        }
        if frontier.len() == olen {
            proof {
                assert(frontier@ =~= round_start);
                assert(sweep(s, e, moves@, round_start, fuel as nat) == frontier@);
            }
            break ;
        }
        fuel = fuel - 1;
    }
    frontier
}

/// The (scaled) cross product of `c` against the straight line from `s` to
/// `e`; its magnitude measures the perpendicular offset of `c` from the
/// ideal sightline.
pub open spec fn cross(s: Coords, e: Coords, c: Coords) -> int {
    (e.x - s.x) * (c.y - s.y) - (c.x - s.x) * (e.y - s.y)
}

/// `c` lies within the direct sightline's footprint: its perpendicular
/// distance to the ideal line is at most half the endpoint distance, which
/// over the hex-to-Cartesian projection reduces to `3·cross² ≤ dx²+3·dy²`.
pub open spec fn near_line(s: Coords, e: Coords, c: Coords) -> bool {
    3 * (cross(s, e, c) * cross(s, e, c)) <= dist_sq4(s, e)
}

/// Some blocking entity stands on `c`.
pub open spec fn entity_at(blockers: Seq<EntityV>, c: Coords) -> bool {
    exists|k: int| 0 <= k < blockers.len() && (#[trigger] blockers[k]).coords == c
}

/// `c` blocks the trace: a blocking entity stands there, or its terrain
/// blocks under the rule.
pub open spec fn blocked_at(
    c: Coords,
    mapv: Map<Coords, TileType>,
    blockers: Seq<EntityV>,
    rule: BlockingRule,
) -> bool {
    entity_at(blockers, c) || (mapv.dom().contains(c) && rule_blocks(rule, mapv[c]))
}

/// Candidate order for the blocking scan: increasing distance from `s`,
/// ties broken by coordinates so that exactly one candidate comes first.
pub open spec fn los_key_le(s: Coords, a: Coords, b: Coords) -> bool {
    dist_sq4(a, s) < dist_sq4(b, s) || (dist_sq4(a, s) == dist_sq4(b, s) && (a.x < b.x || (a.x
        == b.x && a.y <= b.y)))
}

/// Some corridor tile within the sightline's footprint blocks the trace.
pub open spec fn los_blocked(
    s: Coords,
    e: Coords,
    mapv: Map<Coords, TileType>,
    blockers: Seq<EntityV>,
    rule: BlockingRule,
) -> bool {
    exists|c: Coords|
        #[trigger] los_line_spec(s, e).contains(c) && near_line(s, e, c) && blocked_at(c, mapv,
        blockers, rule)
}

/// `c` is the blocking tile the trace reports: a blocked candidate that no
/// other blocked candidate precedes.
pub open spec fn is_first_blocker(
    s: Coords,
    e: Coords,
    mapv: Map<Coords, TileType>,
    blockers: Seq<EntityV>,
    rule: BlockingRule,
    c: Coords,
) -> bool {
    &&& los_line_spec(s, e).contains(c)
    &&& near_line(s, e, c)
    &&& blocked_at(c, mapv, blockers, rule)
    &&& forall|t: Coords|
        #[trigger] los_line_spec(s, e).contains(t) && near_line(s, e, t) && blocked_at(t, mapv,
        blockers, rule) ==> los_key_le(s, c, t)
}

/// Whether some blocking entity stands on `c`.
pub fn entity_stands_at(blockers: &Vec<Entity>, c: &Coords) -> (r: bool)
    ensures
        r == entity_at(blockers@.map_values(|b: Entity| b@), *c),
{
    let ghost bv = blockers@.map_values(|b: Entity| b@);
    let n = blockers.len();
    let mut i: usize = 0;
    while i < n
        invariant
            n == blockers@.len(),
            bv == blockers@.map_values(|b: Entity| b@),
            0 <= i <= n,
            forall|k: int| 0 <= k < i ==> (#[trigger] bv[k]).coords != *c,
        decreases n - i,
    {
        if blockers[i].coords.x == c.x && blockers[i].coords.y == c.y {
            proof {
                assert(bv[i as int].coords == *c);
            }
            return true;
        }
        i = i + 1;
    }
    false
}

/// Line of sight from `start` to `end`: trivially visible on the same
/// tile; otherwise the swept corridor is scanned in order of distance from
/// `start` (ties broken by coordinates), skipping tiles outside the direct
/// sightline's footprint, and the first tile occupied by a blocking entity
/// or blocking terrain is reported as `Err`.
pub fn has_los(
    start: &Coords,
    end: &Coords,
    map: &TileMap,
    blocking_entities: &Vec<Entity>,
    is_blocking: BlockingRule,
) -> (r: Result<(), Coords>)
    requires
        in_bounds(*start),
        in_bounds(*end),
        map.wf(),
    ensures
        *start == *end ==> r is Ok,
        *start != *end ==> ((r is Err) == los_blocked(*start, *end, map@, blocking_entities@.map_values(|b: Entity| b@), is_blocking)),
        r matches Err(c) ==> is_first_blocker(*start, *end, map@,
            blocking_entities@.map_values(|b: Entity| b@), is_blocking, c),
{
    let s = *start;
    let e = *end;
    let ghost bv = blocking_entities@.map_values(|b: Entity| b@);
    if s.x == e.x && s.y == e.y {
        return Ok(());
    }
    proof {
        assert(s != e);
    }
    let line = get_los_line(start, end);
    let s4se = get_dist_sq4(&s, &e);
    let n = line.len();
    let mut found = false;
    let mut best: usize = 0;
    let mut i: usize = 0;
    while i < n
        invariant
            in_bounds(s),
            in_bounds(e),
            s != e,
            map.wf(),
            bv == blocking_entities@.map_values(|b: Entity| b@),
            line@ == los_line_spec(s, e),
            forall|k: int| 0 <= k < line@.len() ==> line_tile_ok(s, e, #[trigger] line@[k]),
            s4se == dist_sq4(s, e),
            n == line@.len(),
            0 <= i <= n,
            found ==> best < i,
            found ==> near_line(s, e, line@[best as int]) && blocked_at(line@[best as int], map@,
                bv, is_blocking),
            found ==> forall|k: int|
                0 <= k < i && near_line(s, e, #[trigger] line@[k]) && blocked_at(line@[k], map@,
                bv, is_blocking) ==> los_key_le(s, line@[best as int], line@[k]),
            !found ==> forall|k: int|
                0 <= k < i ==> !(near_line(s, e, #[trigger] line@[k]) && blocked_at(line@[k],
                map@, bv, is_blocking)),
        decreases n - i,
    {
        let t = line[i];
        proof {
            assert(line_tile_ok(s, e, t));
            if t != s {
                lemma_corridor_coord_bounds(s, e, t);
            }
        }
        let ex: i64 = e.x - s.x;
        let ey: i64 = e.y - s.y;
        let tx: i64 = t.x - s.x;
        let ty: i64 = t.y - s.y;
        proof {
            assert(ex * ty <= 200_000int * 700_000int && ex * ty >= -(200_000int * 700_000int))
                by (nonlinear_arith)
                requires
                    -200_000 <= ex <= 200_000,
                    -700_000 <= ty <= 700_000,
            ;
            assert(tx * ey <= 700_000int * 200_000int && tx * ey >= -(700_000int * 200_000int))
                by (nonlinear_arith)
                requires
                    -700_000 <= tx <= 700_000,
                    -200_000 <= ey <= 200_000,
            ;
        }
        let cx: i64 = ex * ty - tx * ey;
        proof {
            assert(cx == cross(s, e, t));
        }
        let near: bool = if cx > 1_000_000 || cx < -1_000_000 {
            proof {
                lemma_dist_sq4_nonneg(s, e);
                lemma_square_monotonic_abs(s.x - e.x, 200_000int);
                lemma_square_monotonic_abs(s.y - e.y, 200_000int);
                assert(dist_sq4(s, e) <= 160_000_000_000);
                if cx > 1_000_000 {
                    lemma_square_monotonic(1_000_001int, cx as int);
                } else {
                    lemma_square_monotonic(1_000_001int, -(cx as int));
                    assert((-(cx as int)) * (-(cx as int)) == cx * cx) by (nonlinear_arith);
                }
                assert(cx * cx >= 1_000_001int * 1_000_001int);
                assert(!near_line(s, e, t));
            }
            false
        } else {
            proof {
                lemma_square_monotonic_abs(cx as int, 1_000_000int);
                crate::coords::lemma_square_nonneg(cx as int);
                assert(0 <= cx * cx <= 1_000_000_000_000int);
            }
            3 * (cx * cx) <= s4se
        };
        let mut blk = entity_stands_at(blocking_entities, &t);
        if !blk {
            match map.get(&t) {
                Some(tt) => {
                    blk = is_blocking.blocks(&tt);
                },
                None => {},
            }
        }
        proof {
            assert(blk == blocked_at(t, map@, bv, is_blocking));
        }
        if near && blk {
            if !found {
                found = true;
                best = i;
            } else {
                let b = line[best];
                proof {
                    assert(line_tile_ok(s, e, b));
                    if b != s {
                        lemma_corridor_coord_bounds(s, e, b);
                    }
                }
                let qt = get_dist_sq4(&t, &s);
                let qb = get_dist_sq4(&b, &s);
                if qt < qb || (qt == qb && (t.x < b.x || (t.x == b.x && t.y < b.y))) {
                    proof {
                        assert(los_key_le(s, t, b));
                        assert forall|k: int|
                            0 <= k < i + 1 && near_line(s, e, #[trigger] line@[k]) && blocked_at(
                                line@[k],
                                map@,
                                bv,
                                is_blocking,
                            ) implies los_key_le(s, t, line@[k]) by {
                            if k < i {
                                assert(los_key_le(s, b, line@[k]));
                            }
                        }
                    }
                    best = i;
                } else {
                    proof {
                        assert(los_key_le(s, b, t));
                    }
                }
            }
        }
        i = i + 1;
    }
    if found {
        let c = line[best];
        proof {
            assert(line@.contains(line@[best as int]));
            assert forall|t2: Coords|
                #[trigger] los_line_spec(s, e).contains(t2) && near_line(s, e, t2) && blocked_at(
                    t2,
                    map@,
                    bv,
                    is_blocking,
                ) implies los_key_le(s, c, t2) by {
                let k = choose|k: int| 0 <= k < line@.len() && line@[k] == t2;
                assert(los_key_le(s, line@[best as int], line@[k]));
            }
        }
        Err(c)
    } else {
        proof {
            assert(!los_blocked(s, e, map@, bv, is_blocking)) by {
                if los_blocked(s, e, map@, bv, is_blocking) {
                    let c = choose|c: Coords|
                        #[trigger] los_line_spec(s, e).contains(c) && near_line(s, e, c)
                            && blocked_at(c, map@, bv, is_blocking);
                    let k = choose|k: int| 0 <= k < line@.len() && line@[k] == c;
                    assert(!(near_line(s, e, line@[k]) && blocked_at(line@[k], map@, bv,
                    is_blocking)));
                }
            }
        }
        Ok(())
    }
}

/// Two first blockers of the same trace coincide: the candidate order has
/// exactly one least element.
pub proof fn lemma_first_blocker_unique(
    s: Coords,
    e: Coords,
    mapv: Map<Coords, TileType>,
    blockers: Seq<EntityV>,
    rule: BlockingRule,
    c1: Coords,
    c2: Coords,
)
    requires
        is_first_blocker(s, e, mapv, blockers, rule, c1),
        is_first_blocker(s, e, mapv, blockers, rule, c2),
    ensures
        c1 == c2,
{
    assert(los_key_le(s, c1, c2));
    assert(los_key_le(s, c2, c1));
}

/// What a trace from `s` toward map tile `k` contributes to the visible
/// set: the tile itself when the trace goes through, else the tile that
/// blocks it (one does see the wall one cannot see past).
pub open spec fn los_entry(
    s: Coords,
    k: Coords,
    mapv: Map<Coords, TileType>,
    blockers: Seq<EntityV>,
) -> Coords {
    if s != k && los_blocked(s, k, mapv, blockers, BlockingRule::Sight) {
        choose|c: Coords| is_first_blocker(s, k, mapv, blockers, BlockingRule::Sight, c)
    } else {
        k
    }
}

/// `c` belongs to the visible set of a viewer standing on `s`.
pub open spec fn visible_from(
    s: Coords,
    mapv: Map<Coords, TileType>,
    blockers: Seq<EntityV>,
    c: Coords,
) -> bool {
    exists|k: Coords| #[trigger]
        mapv.dom().contains(k) && c == los_entry(s, k, mapv, blockers)
}

/// `c` is contributed by squad vision: for some map tile blocked from the
/// viewer, some ally's trace toward that tile contributes `c`.
pub open spec fn allied_sees(
    allies: Seq<EntityV>,
    viewer: Coords,
    mapv: Map<Coords, TileType>,
    blockers: Seq<EntityV>,
    c: Coords,
) -> bool {
    exists|k: Coords, ai: int|
        #![trigger mapv.dom().contains(k), allies[ai]]
        mapv.dom().contains(k) && viewer != k && los_blocked(viewer, k, mapv, blockers,
        BlockingRule::Sight) && 0 <= ai < allies.len() && c == los_entry(allies[ai].coords, k,
        mapv, blockers)
}

/// Append `c` unless already present.
pub fn push_unique(v: &mut Vec<Coords>, c: Coords)
    requires
        old(v)@.no_duplicates(),
    ensures
        final(v)@.no_duplicates(),
        forall|x: Coords| final(v)@.contains(x) == (old(v)@.contains(x) || x == c),
{
    if !vec_contains_coords(v, &c) {
        let ghost before = v@;
        v.push(c);
        proof {
            assert(forall|k: int| 0 <= k < before.len() ==> v@[k] == before[k]);
            assert(v@.last() == c);
            assert(v@.no_duplicates()) by {
                assert(forall|k: int| 0 <= k < before.len() ==> #[trigger] before[k] != c);
            }
            assert forall|x: Coords| v@.contains(x) == (before.contains(x) || x == c) by {
                if before.contains(x) {
                    let w = choose|w: int| 0 <= w < before.len() && before[w] == x;
                    assert(v@[w] == x);
                }
                if x == c {
                    assert(v@[before.len() as int] == c);
                }
                if v@.contains(x) {
                    let w = choose|w: int| 0 <= w < v@.len() && v@[w] == x;
                    if w < before.len() {
                        assert(before[w] == x);
                    }
                }
            }
        }
    }
}

/// The tile a trace from `s` toward map tile `k` contributes, computed.
fn los_entry_exec(
    s: &Coords,
    k: &Coords,
    map: &TileMap,
    blocking_entities: &Vec<Entity>,
) -> (r: Coords)
    requires
        in_bounds(*s),
        in_bounds(*k),
        map.wf(),
        forall|bi: int|
            0 <= bi < blocking_entities@.len() ==> in_bounds(
                (#[trigger] blocking_entities@[bi])@.coords,
            ),
    ensures
        r == los_entry(*s, *k, map@, blocking_entities@.map_values(|b: Entity| b@)),
        in_bounds(r),
{
    let ghost bv = blocking_entities@.map_values(|b: Entity| b@);
    match has_los(s, k, map, blocking_entities, BlockingRule::Sight) {
        Ok(_) => {
            proof {
                if *s != *k {
                    assert(!los_blocked(*s, *k, map@, bv, BlockingRule::Sight));
                }
            }
            *k
        },
        Err(w) => {
            proof {
                assert(is_first_blocker(*s, *k, map@, bv, BlockingRule::Sight, w));
                assert(los_blocked(*s, *k, map@, bv, BlockingRule::Sight)) by {
                    assert(los_line_spec(*s, *k).contains(w) && near_line(*s, *k, w)
                        && blocked_at(w, map@, bv, BlockingRule::Sight));
                }
                assert(*s != *k);
                let c0 = choose|c: Coords|
                    is_first_blocker(*s, *k, map@, bv, BlockingRule::Sight, c);
                lemma_first_blocker_unique(*s, *k, map@, bv, BlockingRule::Sight, c0, w);
                assert(in_bounds(w)) by {
                    if crate::vision::entity_at(bv, w) {
                        let bi = choose|bi: int|
                            0 <= bi < bv.len() && (#[trigger] bv[bi]).coords == w;
                        assert(bv[bi] == blocking_entities@[bi]@);
                    } else {
                        assert(map@.dom().contains(w));
                        crate::tiles::lemma_assoc_map_properties(map.tiles@);
                        let ti = choose|ti: int|
                            0 <= ti < map.tiles@.len() && (#[trigger] map.tiles@[ti]).0 == w;
                        assert(in_bounds((map.tiles@[ti]).0));
                    }
                }
            }
            w
        },
    }
}

/// The two vision sets of an acting faction: the tiles its viewer sees
/// directly (including, for each blocked trace, the blocking tile itself),
/// and the tiles contributed only by allied entities' vantage points.
pub fn get_los_map(
    from_point: &Coords,
    allied_entities: &Vec<Entity>,
    map: &TileMap,
    blocking_entities: &Vec<Entity>,
) -> (r: (Vec<Coords>, Vec<Coords>))
    requires
        in_bounds(*from_point),
        map.wf(),
        forall|ai: int|
            0 <= ai < allied_entities@.len() ==> in_bounds(
                (#[trigger] allied_entities@[ai])@.coords,
            ),
        forall|bi: int|
            0 <= bi < blocking_entities@.len() ==> in_bounds(
                (#[trigger] blocking_entities@[bi])@.coords,
            ),
    ensures
        r.0@.no_duplicates(),
        r.1@.no_duplicates(),
        forall|c: Coords| r.0@.contains(c) ==> in_bounds(c),
        forall|c: Coords| r.1@.contains(c) ==> in_bounds(c),
        forall|c: Coords|
            r.0@.contains(c) == visible_from(*from_point, map@,
                blocking_entities@.map_values(|b: Entity| b@), c),
        forall|c: Coords|
            r.1@.contains(c) == (allied_sees(allied_entities@.map_values(|b: Entity| b@),
                *from_point, map@, blocking_entities@.map_values(|b: Entity| b@), c)
                && !visible_from(*from_point, map@, blocking_entities@.map_values(
                |b: Entity| b@,
            ), c)),
{
    let s = *from_point;
    let ghost bv = blocking_entities@.map_values(|b: Entity| b@);
    let ghost av = allied_entities@.map_values(|b: Entity| b@);
    let keys = map.keys();
    proof {
        assert forall|ki: int| 0 <= ki < keys@.len() implies map@.dom().contains(
            #[trigger] keys@[ki],
        ) && in_bounds(keys@[ki]) by {
            assert(keys@[ki] == (map.tiles@[ki]).0);
            assert(in_bounds((map.tiles@[ki]).0));
            assert(keys@.contains(keys@[ki]));
        }
    }
    let kn = keys.len();
    let an = allied_entities.len();
    let mut los_vec: Vec<Coords> = Vec::new();
    let mut allied_raw: Vec<Coords> = Vec::new();
    let mut i: usize = 0;
    while i < kn
        invariant
            in_bounds(s),
            map.wf(),
            bv == blocking_entities@.map_values(|b: Entity| b@),
            av == allied_entities@.map_values(|b: Entity| b@),
            an == av.len(),
            forall|ai: int| 0 <= ai < av.len() ==> in_bounds((#[trigger] av[ai]).coords),
            forall|bi: int|
                0 <= bi < blocking_entities@.len() ==> in_bounds(
                    (#[trigger] blocking_entities@[bi])@.coords,
                ),
            forall|c: Coords| los_vec@.contains(c) ==> in_bounds(c),
            forall|c: Coords| allied_raw@.contains(c) ==> in_bounds(c),
            kn == keys@.len(),
            keys@.no_duplicates(),
            forall|k: Coords| keys@.contains(k) == map@.dom().contains(k),
            forall|ki: int| 0 <= ki < kn ==> map@.dom().contains(#[trigger] keys@[ki]),
            forall|ki: int| 0 <= ki < kn ==> in_bounds(#[trigger] keys@[ki]),
            0 <= i <= kn,
            los_vec@.no_duplicates(),
            allied_raw@.no_duplicates(),
            forall|c: Coords|
                los_vec@.contains(c) == exists|ki: int|
                    0 <= ki < i && c == los_entry(s, #[trigger] keys@[ki], map@, bv),
            forall|c: Coords|
                allied_raw@.contains(c) == exists|ki: int, ai: int|
                    #![trigger keys@[ki], av[ai]]
                    0 <= ki < i && 0 <= ai < an && s != keys@[ki] && los_blocked(s, keys@[ki],
                    map@, bv, BlockingRule::Sight) && c == los_entry(av[ai].coords, keys@[ki],
                    map@, bv),
        decreases kn - i,
    {
        let k = keys[i];
        proof {
            assert(map@.dom().contains(k));
            assert(in_bounds(k));
        }
        let entry = los_entry_exec(&s, &k, map, blocking_entities);
        let viewer_blocked = !(entry.x == k.x && entry.y == k.y) || {
            match has_los(&s, &k, map, blocking_entities, BlockingRule::Sight) {
                Ok(_) => false,
                Err(_) => true,
            }
        };
        if viewer_blocked {
            proof {
                assert(s != k && los_blocked(s, k, map@, bv, BlockingRule::Sight));
            }
            let mut ai: usize = 0;
            while ai < an
                invariant
                    in_bounds(s),
                    map.wf(),
                    bv == blocking_entities@.map_values(|b: Entity| b@),
                    av == allied_entities@.map_values(|b: Entity| b@),
                    an == av.len(),
                    forall|aj: int| 0 <= aj < av.len() ==> in_bounds((#[trigger] av[aj]).coords),
                    forall|bi: int|
                        0 <= bi < blocking_entities@.len() ==> in_bounds(
                            (#[trigger] blocking_entities@[bi])@.coords,
                        ),
                    forall|c: Coords| allied_raw@.contains(c) ==> in_bounds(c),
                    kn == keys@.len(),
                    forall|ki: int| 0 <= ki < kn ==> map@.dom().contains(#[trigger] keys@[ki]),
                    forall|ki: int| 0 <= ki < kn ==> in_bounds(#[trigger] keys@[ki]),
                    0 <= i < kn,
                    k == keys@[i as int],
                    in_bounds(k),
                    s != k && los_blocked(s, k, map@, bv, BlockingRule::Sight),
                    0 <= ai <= an,
                    allied_raw@.no_duplicates(),
                    forall|c: Coords|
                        allied_raw@.contains(c) == exists|ki: int, aj: int|
                            #![trigger keys@[ki], av[aj]]
                            0 <= ki < kn && 0 <= aj < an && (ki < i || (ki == i && aj < ai)) && s
                                != keys@[ki] && los_blocked(s, keys@[ki], map@, bv,
                            BlockingRule::Sight) && c == los_entry(av[aj].coords, keys@[ki], map@,
                            bv),
                decreases an - ai,
            {
                let ac = allied_entities[ai].coords;
                proof {
                    assert(av[ai as int].coords == ac);
                    assert(in_bounds(ac));
                }
                let at = los_entry_exec(&ac, &k, map, blocking_entities);
                let ghost raw_before = allied_raw@;
                push_unique(&mut allied_raw, at);
                proof {
                    assert forall|c: Coords|
                        allied_raw@.contains(c) == exists|ki: int, aj: int|
                            #![trigger keys@[ki], av[aj]]
                            0 <= ki < kn && 0 <= aj < an && (ki < i || (ki == i && aj < ai + 1))
                                && s != keys@[ki] && los_blocked(s, keys@[ki], map@, bv,
                            BlockingRule::Sight) && c == los_entry(av[aj].coords, keys@[ki], map@,
                            bv) by {
                        if allied_raw@.contains(c) {
                            if raw_before.contains(c) {
                            } else {
                                assert(c == at);
                                assert(keys@[i as int] == k && av[ai as int].coords == ac);
                            }
                        }
                        if exists|ki: int, aj: int|
                            #![trigger keys@[ki], av[aj]]
                            0 <= ki < kn && 0 <= aj < an && (ki < i || (ki == i && aj < ai + 1))
                                && s != keys@[ki] && los_blocked(s, keys@[ki], map@, bv,
                            BlockingRule::Sight) && c == los_entry(av[aj].coords, keys@[ki], map@,
                            bv) {
                            let (ki, aj) = choose|ki: int, aj: int|
                                #![trigger keys@[ki], av[aj]]
                                0 <= ki < kn && 0 <= aj < an && (ki < i || (ki == i && aj < ai
                                    + 1)) && s != keys@[ki] && los_blocked(s, keys@[ki], map@, bv,
                                BlockingRule::Sight) && c == los_entry(av[aj].coords, keys@[ki],
                                map@, bv);
                            if ki < i || (ki == i && aj < ai) {
                                assert(raw_before.contains(c));
                            } else {
                                assert(ki == i && aj == ai as int);
                                assert(c == at);
                            }
                            assert(allied_raw@.contains(c));
                        }
                    }
                }
                ai = ai + 1;
            }
        }
        let ghost los_before = los_vec@;
        push_unique(&mut los_vec, entry);
        proof {
            assert forall|c: Coords|
                los_vec@.contains(c) == exists|ki: int|
                    0 <= ki < i + 1 && c == los_entry(s, #[trigger] keys@[ki], map@, bv) by {
                if los_vec@.contains(c) {
                    if los_before.contains(c) {
                    } else {
                        assert(c == entry);
                        assert(c == los_entry(s, keys@[i as int], map@, bv));
                    }
                }
                if exists|ki: int|
                    0 <= ki < i + 1 && c == los_entry(s, #[trigger] keys@[ki], map@, bv) {
                    let ki = choose|ki: int|
                        0 <= ki < i + 1 && c == los_entry(s, #[trigger] keys@[ki], map@, bv);
                    if ki < i {
                        assert(los_before.contains(c));
                    } else {
                        assert(c == entry);
                    }
                    assert(los_vec@.contains(c));
                }
            }
        }
        i = i + 1;
    }
    let mut allied_final: Vec<Coords> = Vec::new();
    let rn = allied_raw.len();
    let mut j: usize = 0;
    while j < rn
        invariant
            rn == allied_raw@.len(),
            0 <= j <= rn,
            los_vec@.no_duplicates(),
            allied_raw@.no_duplicates(),
            allied_final@.no_duplicates(),
            forall|c: Coords| allied_raw@.contains(c) ==> in_bounds(c),
            forall|c: Coords| allied_final@.contains(c) ==> in_bounds(c),
            forall|c: Coords|
                allied_final@.contains(c) == (exists|w: int|
                    0 <= w < j && c == allied_raw@[w] && !los_vec@.contains(c)),
        decreases rn - j,
    {
        let a = allied_raw[j];
        if !vec_contains_coords(&los_vec, &a) {
            let ghost before = allied_final@;
            push_unique(&mut allied_final, a);
            proof {
                assert forall|c: Coords|
                    allied_final@.contains(c) == (exists|w: int|
                        0 <= w < j + 1 && c == allied_raw@[w] && !los_vec@.contains(c)) by {
                    if allied_final@.contains(c) {
                        if before.contains(c) {
                        } else {
                            assert(c == a && c == allied_raw@[j as int]);
                        }
                    }
                    if exists|w: int|
                        0 <= w < j + 1 && c == allied_raw@[w] && !los_vec@.contains(c) {
                        let w = choose|w: int|
                            0 <= w < j + 1 && c == allied_raw@[w] && !los_vec@.contains(c);
                        if w < j {
                            assert(before.contains(c));
                        } else {
                            assert(c == a);
                        }
                        assert(allied_final@.contains(c));
                    }
                }
            }
        } else {
            proof {
                assert forall|c: Coords|
                    allied_final@.contains(c) == (exists|w: int|
                        0 <= w < j + 1 && c == allied_raw@[w] && !los_vec@.contains(c)) by {
                    if exists|w: int|
                        0 <= w < j + 1 && c == allied_raw@[w] && !los_vec@.contains(c) {
                        let w = choose|w: int|
                            0 <= w < j + 1 && c == allied_raw@[w] && !los_vec@.contains(c);
                        if w == j {
                            assert(c == allied_raw@[j as int] && !los_vec@.contains(c));
                            assert(false);
                        }
                        assert(allied_final@.contains(c));
                    }
                }
            }
        }
        j = j + 1;
    }
    proof {
        assert forall|c: Coords|
            los_vec@.contains(c) == visible_from(s, map@, bv, c) by {
            if los_vec@.contains(c) {
                let ki = choose|ki: int|
                    0 <= ki < kn && c == los_entry(s, #[trigger] keys@[ki], map@, bv);
                assert(map@.dom().contains(keys@[ki]));
            }
            if visible_from(s, map@, bv, c) {
                let k = choose|k: Coords| #[trigger]
                    map@.dom().contains(k) && c == los_entry(s, k, map@, bv);
                assert(keys@.contains(k));
                let ki = choose|ki: int| 0 <= ki < keys@.len() && keys@[ki] == k;
                assert(c == los_entry(s, keys@[ki], map@, bv));
            }
        }
        assert forall|c: Coords|
            allied_raw@.contains(c) == allied_sees(av, s, map@, bv, c) by {
            if allied_raw@.contains(c) {
                let (ki, aj) = choose|ki: int, aj: int|
                    #![trigger keys@[ki], av[aj]]
                    0 <= ki < kn && 0 <= aj < an && s != keys@[ki] && los_blocked(s, keys@[ki],
                    map@, bv, BlockingRule::Sight) && c == los_entry(av[aj].coords, keys@[ki],
                    map@, bv);
                assert(map@.dom().contains(keys@[ki]));
            }
            if allied_sees(av, s, map@, bv, c) {
                let (k, aj) = choose|k: Coords, ai2: int|
                    #![trigger map@.dom().contains(k), av[ai2]]
                    map@.dom().contains(k) && s != k && los_blocked(s, k, map@, bv,
                    BlockingRule::Sight) && 0 <= ai2 < av.len() && c == los_entry(av[ai2].coords,
                    k, map@, bv);
                assert(keys@.contains(k));
                let ki = choose|ki: int| 0 <= ki < keys@.len() && keys@[ki] == k;
                assert(s != keys@[ki] && los_blocked(s, keys@[ki], map@, bv, BlockingRule::Sight)
                    && c == los_entry(av[aj].coords, keys@[ki], map@, bv));
            }
        }
        assert forall|c: Coords|
            allied_final@.contains(c) == (allied_sees(av, s, map@, bv, c) && !visible_from(s,
            map@, bv, c)) by {
            if allied_final@.contains(c) {
                let w = choose|w: int|
                    0 <= w < rn && c == allied_raw@[w] && !los_vec@.contains(c);
                assert(allied_raw@.contains(c));
            }
            if allied_sees(av, s, map@, bv, c) && !visible_from(s, map@, bv, c) {
                assert(allied_raw@.contains(c));
                let w = choose|w: int| 0 <= w < allied_raw@.len() && allied_raw@[w] == c;
                assert(!los_vec@.contains(c));
                assert(allied_final@.contains(c));
            }
        }
    }
    (los_vec, allied_final)
}

} // verus!
