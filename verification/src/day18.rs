//! Lava-droplet surface helpers: translating cubes, axis-aligned bounds of
//! a point cloud, and the bounds test.

use vstd::prelude::*;

verus! {

/// The bounding box as ((min x, max x), (min y, max y), (min z, max z)).
pub type Bounds = ((i32, i32), (i32, i32), (i32, i32));

/// Component-wise sum of two cubes.
pub fn add(a: &(i32, i32, i32), b: &(i32, i32, i32)) -> (r: (i32, i32, i32))
    requires
        i32::MIN <= a.0 + b.0 <= i32::MAX,
        i32::MIN <= a.1 + b.1 <= i32::MAX,
        i32::MIN <= a.2 + b.2 <= i32::MAX,
    ensures
        r.0 == a.0 + b.0,
        r.1 == a.1 + b.1,
        r.2 == a.2 + b.2,
{
    (a.0 + b.0, a.1 + b.1, a.2 + b.2)
}

/// The point lies inside the bounding box (inclusive on all sides).
pub open spec fn spec_within(p: (i32, i32, i32), b: Bounds) -> bool {
    &&& b.0.0 <= p.0 <= b.0.1
    &&& b.1.0 <= p.1 <= b.1.1
    &&& b.2.0 <= p.2 <= b.2.1
}

/// Whether the point lies inside the bounding box.
pub fn within_bounds(p: &(i32, i32, i32), b: &Bounds) -> (r: bool)
    ensures
        r == spec_within(*p, *b),
{
    p.0 >= b.0.0 && p.0 <= b.0.1 && p.1 >= b.1.0 && p.1 <= b.1.1 && p.2 >= b.2.0 && p.2 <= b.2.1
}

/// The tight bounding box of a non-empty point cloud: every point lies
/// within it, and each of the six faces touches some point.
pub fn get_bounds(points: &Vec<(i32, i32, i32)>) -> (r: Bounds)
    requires
        points@.len() >= 1,
    ensures
        forall|i: int| 0 <= i < points@.len() ==> spec_within(#[trigger] points@[i], r),
        exists|i: int| 0 <= i < points@.len() && (#[trigger] points@[i]).0 == r.0.0,
        exists|i: int| 0 <= i < points@.len() && (#[trigger] points@[i]).0 == r.0.1,
        exists|i: int| 0 <= i < points@.len() && (#[trigger] points@[i]).1 == r.1.0,
        exists|i: int| 0 <= i < points@.len() && (#[trigger] points@[i]).1 == r.1.1,
        exists|i: int| 0 <= i < points@.len() && (#[trigger] points@[i]).2 == r.2.0,
        exists|i: int| 0 <= i < points@.len() && (#[trigger] points@[i]).2 == r.2.1,
{
    let first = points[0];
    let mut min_x = first.0;
    let mut max_x = first.0;
    let mut min_y = first.1;
    let mut max_y = first.1;
    let mut min_z = first.2;
    let mut max_z = first.2;
    let mut i: usize = 1;
    while i < points.len()
        invariant
            1 <= i <= points@.len(),
            forall|j: int|
                0 <= j < i ==> {
                    let p = #[trigger] points@[j];
                    min_x <= p.0 <= max_x && min_y <= p.1 <= max_y && min_z <= p.2 <= max_z
                },
            exists|j: int| 0 <= j < i && (#[trigger] points@[j]).0 == min_x,
            exists|j: int| 0 <= j < i && (#[trigger] points@[j]).0 == max_x,
            exists|j: int| 0 <= j < i && (#[trigger] points@[j]).1 == min_y,
            exists|j: int| 0 <= j < i && (#[trigger] points@[j]).1 == max_y,
            exists|j: int| 0 <= j < i && (#[trigger] points@[j]).2 == min_z,
            exists|j: int| 0 <= j < i && (#[trigger] points@[j]).2 == max_z,
        decreases points@.len() - i,
    {
        let p = points[i];
        if p.0 < min_x {
            min_x = p.0;
        }
        if p.0 > max_x {
            max_x = p.0;
        }
        if p.1 < min_y {
            min_y = p.1;
        }
        if p.1 > max_y {
            max_y = p.1;
        }
        if p.2 < min_z {
            min_z = p.2;
        }
        if p.2 > max_z {
            max_z = p.2;
        }
        i = i + 1;
    }
    ((min_x, max_x), (min_y, max_y), (min_z, max_z))
}

} // verus!
