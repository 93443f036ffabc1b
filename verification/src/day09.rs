//! Rope simulation steps: Chebyshev distance, moving the head by one unit,
//! and the follower rule for a trailing knot.

use vstd::prelude::*;
use vstd::string::StringSliceAdditionalSpecFns;

verus! {

pub open spec fn abs_i(x: int) -> int {
    if x >= 0 {
        x
    } else {
        -x
    }
}

pub open spec fn max_i(a: int, b: int) -> int {
    if a >= b {
        a
    } else {
        b
    }
}

/// The Chebyshev distance of two points.
pub open spec fn spec_sup_dist(a: (i32, i32), b: (i32, i32)) -> int {
    max_i(abs_i(a.0 - b.0), abs_i(a.1 - b.1))
}

/// Chebyshev (supremum) distance: the larger of the coordinate gaps.
pub fn sup_dist(a: &(i32, i32), b: &(i32, i32)) -> (r: i32)
    requires
        abs_i(a.0 - b.0) <= i32::MAX,
        abs_i(a.1 - b.1) <= i32::MAX,
    ensures
        r == spec_sup_dist(*a, *b),
{
    let dx = if a.0 >= b.0 {
        a.0 - b.0
    } else {
        b.0 - a.0
    };
    let dy = if a.1 >= b.1 {
        a.1 - b.1
    } else {
        b.1 - a.1
    };
    if dx >= dy {
        dx
    } else {
        dy
    }
}

/// Where a point lands after one step in direction `U`, `D`, `L` or `R`.
pub open spec fn spec_moved(p: (i32, i32), dir: u8) -> (int, int) {
    if dir == 85 {
        (p.0 as int, p.1 + 1)
    } else if dir == 68 {
        (p.0 as int, p.1 - 1)
    } else if dir == 76 {
        (p.0 - 1, p.1 as int)
    } else {
        (p.0 + 1, p.1 as int)
    }
}

/// Move the point one unit up, down, left or right.
pub fn move_point(p: &mut (i32, i32), dir: &str)
    requires
        dir.spec_bytes().len() == 1,
        (dir.spec_bytes()[0] == 85 || dir.spec_bytes()[0] == 68 || dir.spec_bytes()[0] == 76
            || dir.spec_bytes()[0] == 82),
        i32::MIN < old(p).0 < i32::MAX,
        i32::MIN < old(p).1 < i32::MAX,
    ensures
        (final(p).0 as int, final(p).1 as int) == spec_moved(*old(p), dir.spec_bytes()[0]),
{
    let bytes = dir.as_bytes();
    let b = bytes[0];
    if b == 85 {
        p.1 = p.1 + 1;
    } else if b == 68 {
        p.1 = p.1 - 1;
    } else if b == 76 {
        p.0 = p.0 - 1;
    } else {
        p.0 = p.0 + 1;
    }
}

/// The follower rule: a knot at `next` stays put while it touches the knot
/// ahead of it, and otherwise moves one step toward it on each axis where
/// they differ.
pub open spec fn spec_new_pos(moved: (i32, i32), next: (i32, i32)) -> (int, int) {
    if spec_sup_dist(moved, next) > 1 {
        (
            next.0 + (if moved.0 > next.0 {
                1int
            } else if moved.0 < next.0 {
                -1int
            } else {
                0int
            }),
            next.1 + (if moved.1 > next.1 {
                1int
            } else if moved.1 < next.1 {
                -1int
            } else {
                0int
            }),
        )
    } else {
        (next.0 as int, next.1 as int)
    }
}

/// Compute where the trailing knot lands after the knot ahead moved.
pub fn new_pos(moved: &(i32, i32), next: &(i32, i32)) -> (r: (i32, i32))
    requires
        abs_i(moved.0 - next.0) <= i32::MAX,
        abs_i(moved.1 - next.1) <= i32::MAX,
        i32::MIN < next.0 < i32::MAX,
        i32::MIN < next.1 < i32::MAX,
    ensures
        (r.0 as int, r.1 as int) == spec_new_pos(*moved, *next),
{
    let mut np = *next;
    if sup_dist(moved, next) > 1 {
        if moved.0 > next.0 {
            np.0 = np.0 + 1;
        }
        if moved.0 < next.0 {
            np.0 = np.0 - 1;
        }
        if moved.1 > next.1 {
            np.1 = np.1 + 1;
        }
        if moved.1 < next.1 {
            np.1 = np.1 - 1;
        }
    }
    np
}

} // verus!
