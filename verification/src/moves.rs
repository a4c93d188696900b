//! Step directions that make monotonic progress between two tiles.
//!
//! `get_possible_moves` returns the one or two hex-adjacent step vectors
//! that advance from `start` toward `end`: an exact tie between horizontal
//! and vertical progress yields the single diagonal step, directional
//! dominance yields the corresponding single step, and otherwise the two
//! flanking steps are returned.  The line tracer repeatedly applies these
//! steps to sweep its candidate corridor.

use vstd::prelude::*;

use crate::coords::Coords;

verus! {

/// The step directions from `start` toward `end`, as a case analysis over
/// the signs and relative magnitudes of the coordinate differences.
pub open spec fn moves_spec(start: Coords, end: Coords) -> Seq<Coords> {
    let dx = end.x - start.x;
    let dy = end.y - start.y;
    if dx == 0 && dy == 0 {
        Seq::<Coords>::empty()
    } else if dy == 0 {
        if dx < 0 {
            seq![Coords { x: -2i64, y: 0i64 }]
        } else {
            seq![Coords { x: 2i64, y: 0i64 }]
        }
    } else if dy > 0 {
        if dx > 0 {
            if dy > dx {
                seq![Coords { x: -1i64, y: 1i64 }, Coords { x: 1i64, y: 1i64 }]
            } else if dy < dx {
                seq![Coords { x: 2i64, y: 0i64 }, Coords { x: 1i64, y: 1i64 }]
            } else {
                seq![Coords { x: 1i64, y: 1i64 }]
            }
        } else {
            if dy > -dx {
                seq![Coords { x: -1i64, y: 1i64 }, Coords { x: 1i64, y: 1i64 }]
            } else if dy < -dx {
                seq![Coords { x: -2i64, y: 0i64 }, Coords { x: -1i64, y: 1i64 }]
            } else {
                seq![Coords { x: -1i64, y: 1i64 }]
            }
        }
    } else {
        if dx > 0 {
            if -dy > dx {
                seq![Coords { x: -1i64, y: -1i64 }, Coords { x: 1i64, y: -1i64 }]
            } else if -dy < dx {
                seq![Coords { x: 2i64, y: 0i64 }, Coords { x: 1i64, y: -1i64 }]
            } else {
                seq![Coords { x: 1i64, y: -1i64 }]
            }
        } else {
            if -dy > -dx {
                seq![Coords { x: -1i64, y: -1i64 }, Coords { x: 1i64, y: -1i64 }]
            } else if -dy < -dx {
                seq![Coords { x: -2i64, y: 0i64 }, Coords { x: -1i64, y: -1i64 }]
            } else {
                seq![Coords { x: -1i64, y: -1i64 }]
            }
        }
    }
}

/// Every returned step vector is one of the six unit hex steps.
pub open spec fn is_unit_step(m: Coords) -> bool {
    (m.x == 2 || m.x == -2) && m.y == 0 || (m.x == 1 || m.x == -1) && (m.y == 1 || m.y == -1)
}

/// The step directions that make monotonic progress from `start` toward
/// `end`.  Degenerate case `start == end` yields an empty list.
pub fn get_possible_moves(start: &Coords, end: &Coords) -> (r: Vec<Coords>)
    requires
        crate::coords::in_calc_bounds(*start),
        crate::coords::in_calc_bounds(*end),
    ensures
        r@ == moves_spec(*start, *end),
        forall|i: int| 0 <= i < r@.len() ==> is_unit_step(#[trigger] r@[i]),
        r@.len() <= 2,
{
    let diff_x: i64 = end.x - start.x;
    let diff_y: i64 = end.y - start.y;
    let r: Vec<Coords> = if diff_x == 0 && diff_y == 0 {
        Vec::new()
    } else if diff_y == 0 {
        if diff_x < 0 {
            vec![Coords { x: -2, y: 0 }]
        } else {
            vec![Coords { x: 2, y: 0 }]
        }
    } else if diff_y > 0 {
        if diff_x > 0 {
            if diff_y > diff_x {
                vec![Coords { x: -1, y: 1 }, Coords { x: 1, y: 1 }]
            } else if diff_y < diff_x {
                vec![Coords { x: 2, y: 0 }, Coords { x: 1, y: 1 }]
            } else {
                vec![Coords { x: 1, y: 1 }]
            }
        } else {
            if diff_y > -diff_x {
                vec![Coords { x: -1, y: 1 }, Coords { x: 1, y: 1 }]
            } else if diff_y < -diff_x {
                vec![Coords { x: -2, y: 0 }, Coords { x: -1, y: 1 }]
            } else {
                vec![Coords { x: -1, y: 1 }]
            }
        }
    } else {
        if diff_x > 0 {
            if -diff_y > diff_x {
                vec![Coords { x: -1, y: -1 }, Coords { x: 1, y: -1 }]
            } else if -diff_y < diff_x {
                vec![Coords { x: 2, y: 0 }, Coords { x: 1, y: -1 }]
            } else {
                vec![Coords { x: 1, y: -1 }]
            }
        } else {
            if -diff_y > -diff_x {
                vec![Coords { x: -1, y: -1 }, Coords { x: 1, y: -1 }]
            } else if -diff_y < -diff_x {
                vec![Coords { x: -2, y: 0 }, Coords { x: -1, y: -1 }]
            } else {
                vec![Coords { x: -1, y: -1 }]
            }
        }
    };
    proof {
        assert(r@ =~= moves_spec(*start, *end));
    }
    r
}

} // verus!
