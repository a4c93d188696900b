//! Hex-grid coordinates and the distance metric.
//!
//! Tiles are addressed in a doubled-width offset scheme: moving to any of the
//! six neighbours of a tile changes `(x, y)` by one of the fixed step vectors
//! `(±2, 0)`, `(±1, ±1)`.  The Euclidean-equivalent distance between two
//! tiles is `sqrt((dx² + 3·dy²) / 4)`, which is exactly `1` for adjacent
//! tiles.  All geometry in this crate is carried out over the integer
//! quantity `dx² + 3·dy²` (four times the squared distance) and, where an
//! actual length is needed, over the distance expressed in thousandths of a
//! tile (`dist_milli`), so no floating point is involved anywhere.

use vstd::prelude::*;

verus! {

/// A hex tile address in the doubled-width offset scheme.
#[derive(Debug, Clone, Copy, PartialEq, Eq, Hash, Structural)]
pub struct Coords {
    pub x: i64,
    pub y: i64,
}

/// Largest coordinate magnitude the engine accepts for map tiles and entity
/// positions; keeps every intermediate product of the geometry inside `u64`.
pub const COORD_LIMIT: i64 = 100_000;

/// Looser bound under which the distance computation itself is still free of
/// overflow; line tracing visits tiles beyond `COORD_LIMIT` but within this.
pub const CALC_LIMIT: i64 = 1_000_000;

/// `c` is an acceptable tile address for maps and entities.
pub open spec fn in_bounds(c: Coords) -> bool {
    -COORD_LIMIT <= c.x <= COORD_LIMIT && -COORD_LIMIT <= c.y <= COORD_LIMIT
}

/// `c` is close enough to the origin for the distance arithmetic.
pub open spec fn in_calc_bounds(c: Coords) -> bool {
    -CALC_LIMIT <= c.x <= CALC_LIMIT && -CALC_LIMIT <= c.y <= CALC_LIMIT
}

/// Four times the squared distance between `a` and `b`: `dx² + 3·dy²`.
pub open spec fn dist_sq4(a: Coords, b: Coords) -> int {
    (a.x - b.x) * (a.x - b.x) + 3 * ((a.y - b.y) * (a.y - b.y))
}

/// Floor of the square root of a natural number.
pub open spec fn sqrt_floor(n: nat) -> nat
    decreases n,
{
    if n == 0 {
        0
    } else {
        let r = sqrt_floor((n - 1) as nat);
        if (r + 1) * (r + 1) <= n {
            (r + 1) as nat
        } else {
            r
        }
    }
}

/// The distance between `a` and `b` in thousandths of a tile, rounded down:
/// `floor(1000 · sqrt((dx² + 3·dy²) / 4)) == floor(sqrt(250000 · (dx² + 3·dy²)))`.
pub open spec fn dist_milli(a: Coords, b: Coords) -> int {
    sqrt_floor((250_000 * dist_sq4(a, b)) as nat) as int
}

/// A square is never negative.
pub proof fn lemma_square_nonneg(x: int)
    ensures
        x * x >= 0,
{
    assert(x * x >= 0) by (nonlinear_arith);
}

/// Squaring is monotonic on the non-negative integers.
pub proof fn lemma_square_monotonic(x: int, y: int)
    requires
        0 <= x <= y,
    ensures
        x * x <= y * y,
{
    assert(x * x <= y * y) by (nonlinear_arith)
        requires
            0 <= x <= y,
    ;
}

/// `dx² + 3·dy²` is never negative.
pub proof fn lemma_dist_sq4_nonneg(a: Coords, b: Coords)
    ensures
        dist_sq4(a, b) >= 0,
{
    lemma_square_nonneg(a.x - b.x);
    lemma_square_nonneg(a.y - b.y);
    assert(3 * ((a.y - b.y) * (a.y - b.y)) >= 0);
}

/// `sqrt_floor(n)` is indeed the floor of the square root of `n`.
pub proof fn lemma_sqrt_floor_bounds(n: nat)
    ensures
        sqrt_floor(n) * sqrt_floor(n) <= n,
        n < (sqrt_floor(n) + 1) * (sqrt_floor(n) + 1),
    decreases n,
{
    if n == 0 {
        assert(sqrt_floor(0) == 0);
        assert((0int + 1) * (0int + 1) == 1int);
    } else {
        lemma_sqrt_floor_bounds((n - 1) as nat);
        let r = sqrt_floor((n - 1) as nat);
        if (r + 1) * (r + 1) <= n {
            assert(n == (r + 1) * (r + 1));
            assert(sqrt_floor(n) == r + 1);
            assert(n < (r + 2) * (r + 2)) by (nonlinear_arith)
                requires
                    n == (r + 1) * (r + 1),
                    r >= 0,
            ;
            assert(sqrt_floor(n) * sqrt_floor(n) <= n);
            assert(n < (sqrt_floor(n) + 1) * (sqrt_floor(n) + 1));
        } else {
            assert(sqrt_floor(n) == r);
            assert(sqrt_floor(n) * sqrt_floor(n) <= n);
            assert(n < (sqrt_floor(n) + 1) * (sqrt_floor(n) + 1));
        }
    }
}

/// Any `r` with `r² ≤ n < (r+1)²` equals `sqrt_floor(n)`.
pub proof fn lemma_sqrt_floor_unique(n: nat, r: nat)
    requires
        r * r <= n,
        n < (r + 1) * (r + 1),
    ensures
        r == sqrt_floor(n),
{
    let s = sqrt_floor(n);
    lemma_sqrt_floor_bounds(n);
    if r < s {
        lemma_square_monotonic(r + 1int, s as int);
        assert(false);
    }
    if s < r {
        lemma_square_monotonic(s + 1int, r as int);
        assert(false);
    }
}

/// Floor of the square root, computed by binary search.
pub fn isqrt(n: u64) -> (r: u64)
    ensures
        r == sqrt_floor(n as nat),
{
    let mut lo: u64 = 0;
    let mut hi: u64 = if n >= 0xFFFF_FFFF {
        0xFFFF_FFFF
    } else {
        n
    };
    proof {
        if n >= 0xFFFF_FFFF {
            assert((hi + 1) * (hi + 1) > n) by (nonlinear_arith)
                requires
                    hi == 0xFFFF_FFFFu64,
                    n <= u64::MAX,
            ;
        } else {
            assert((hi + 1) * (hi + 1) > n) by (nonlinear_arith)
                requires
                    hi == n,
            ;
        }
    }
    while lo < hi
        invariant
            lo <= hi <= 0xFFFF_FFFF,
            lo * lo <= n,
            (hi + 1) * (hi + 1) > n,
        decreases hi - lo,
    {
        let mid: u64 = lo + (hi - lo + 1) / 2;
        assert(lo < mid <= hi);
        proof {
            lemma_square_monotonic(mid as int, 0xFFFF_FFFFint);
        }
        if mid * mid <= n {
            lo = mid;
        } else {
            hi = mid - 1;
        }
    }
    proof {
        lemma_sqrt_floor_unique(n as nat, lo as nat);
    }
    lo
}

/// The distance between `start` and `end` in thousandths of a tile.
///
/// The metric yields exactly `1000` between hex-adjacent tiles regardless of
/// direction class (straight vs diagonal offset).
pub fn get_distance(start: &Coords, end: &Coords) -> (d: i64)
    requires
        in_calc_bounds(*start),
        in_calc_bounds(*end),
    ensures
        d == dist_milli(*start, *end),
        0 <= d <= 3_000_000_000,
{
    let dx: i64 = start.x - end.x;
    let dy: i64 = start.y - end.y;
    proof {
        lemma_square_monotonic_abs(dx as int, 2_000_000int);
        lemma_square_monotonic_abs(dy as int, 2_000_000int);
        lemma_dist_sq4_nonneg(*start, *end);
        assert(dx * dx <= 4_000_000_000_000int);
        assert(dy * dy <= 4_000_000_000_000int);
    }
    let s: i64 = dx * dx + 3 * (dy * dy);
    let m: u64 = 250_000u64 * (s as u64);
    let r: u64 = isqrt(m);
    proof {
        lemma_sqrt_floor_bounds(m as nat);
        assert(m <= 4_000_000_000_000_000_000u64);
        if r > 3_000_000_000u64 {
            lemma_square_monotonic(3_000_000_001int, r as int);
            assert(false);
        }
    }
    r as i64
}

/// `x² ≤ b²` whenever `|x| ≤ b`.
pub proof fn lemma_square_monotonic_abs(x: int, b: int)
    requires
        -b <= x <= b,
        0 <= b,
    ensures
        x * x <= b * b,
{
    assert(x * x <= b * b) by (nonlinear_arith)
        requires
            -b <= x <= b,
            0 <= b,
    ;
}

/// Four times the squared distance between `a` and `b`, as a machine
/// integer.
pub fn get_dist_sq4(a: &Coords, b: &Coords) -> (r: i64)
    requires
        in_calc_bounds(*a),
        in_calc_bounds(*b),
    ensures
        r == dist_sq4(*a, *b),
        0 <= r <= 16_000_000_000_000,
{
    let dx: i64 = a.x - b.x;
    let dy: i64 = a.y - b.y;
    proof {
        lemma_square_monotonic_abs(dx as int, 2_000_000int);
        lemma_square_monotonic_abs(dy as int, 2_000_000int);
        lemma_dist_sq4_nonneg(*a, *b);
        assert(dx * dx <= 4_000_000_000_000int);
        assert(dy * dy <= 4_000_000_000_000int);
    }
    dx * dx + 3 * (dy * dy)
}

/// `|x| ≤ b` whenever `x² ≤ b²`.
pub proof fn lemma_abs_bound_from_square(x: int, b: int)
    requires
        x * x <= b * b,
        0 <= b,
    ensures
        -b <= x <= b,
{
    assert(-b <= x <= b) by (nonlinear_arith)
        requires
            x * x <= b * b,
            0 <= b,
    ;
}

/// The distance from any tile to itself is zero.
pub proof fn lemma_distance_self_is_zero(a: Coords)
    ensures
        dist_sq4(a, a) == 0,
        dist_milli(a, a) == 0,
{
}

/// `b` is one of the six hex neighbours of `a`.
pub open spec fn hex_adjacent(a: Coords, b: Coords) -> bool {
    let dx = b.x - a.x;
    let dy = b.y - a.y;
    (dx == 2 && dy == 0) || (dx == -2 && dy == 0) || (dx == 1 && dy == 1) || (dx == 1 && dy == -1)
        || (dx == -1 && dy == 1) || (dx == -1 && dy == -1)
}

/// Hex-adjacent tiles are at distance exactly one tile (1000 millitiles),
/// whichever of the six step directions relates them.
pub proof fn lemma_adjacent_distance_is_one(a: Coords, b: Coords)
    requires
        hex_adjacent(a, b),
    ensures
        dist_sq4(a, b) == 4,
        dist_milli(a, b) == 1000,
{
    let dx = a.x - b.x;
    let dy = a.y - b.y;
    assert(dx * dx + 3 * (dy * dy) == 4) by (nonlinear_arith)
        requires
            (dx == 2 || dx == -2) && dy == 0 || (dx == 1 || dx == -1) && (dy == 1 || dy == -1),
    ;
    assert(1000 * 1000 == 1_000_000int) by (nonlinear_arith);
    assert(1001 * 1001 == 1_002_001int) by (nonlinear_arith);
    lemma_sqrt_floor_unique(1_000_000nat, 1000nat);
}

} // verus!
