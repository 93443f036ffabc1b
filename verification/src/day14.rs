//! Falling sand: rasterising rock paths into a blocked grid and dropping
//! one grain until it comes to rest.

use vstd::prelude::*;

verus! {

/// The inclusive axis-aligned segment between two nodes, as a point list in
/// ascending coordinate order.
pub fn points_between_nodes(a: &(usize, usize), b: &(usize, usize)) -> (r: Vec<(usize, usize)>)
    requires
        (a.0 == b.0) != (a.1 == b.1),
        a.0 < usize::MAX && a.1 < usize::MAX && b.0 < usize::MAX && b.1 < usize::MAX,
    ensures
        a.0 == b.0 ==> {
            let lo = if a.1 <= b.1 {
                a.1
            } else {
                b.1
            };
            let hi = if a.1 <= b.1 {
                b.1
            } else {
                a.1
            };
            r@.len() == hi - lo + 1 && forall|t: int|
                0 <= t < r@.len() ==> (#[trigger] r@[t]) == (a.0, (lo + t) as usize)
        },
        a.1 == b.1 ==> {
            let lo = if a.0 <= b.0 {
                a.0
            } else {
                b.0
            };
            let hi = if a.0 <= b.0 {
                b.0
            } else {
                a.0
            };
            r@.len() == hi - lo + 1 && forall|t: int|
                0 <= t < r@.len() ==> (#[trigger] r@[t]) == ((lo + t) as usize, a.1)
        },
{
    let mut out: Vec<(usize, usize)> = Vec::new();
    if a.0 == b.0 {
        let lo = if a.1 <= b.1 {
            a.1
        } else {
            b.1
        };
        let hi = if a.1 <= b.1 {
            b.1
        } else {
            a.1
        };
        let mut y = lo;
        while y <= hi
            invariant
                lo <= y <= hi + 1,
                hi < usize::MAX,
                a.0 < usize::MAX,
                out@.len() == y - lo,
                forall|t: int| 0 <= t < out@.len() ==> (#[trigger] out@[t]) == (a.0, (lo + t) as usize),
            decreases hi + 1 - y,
        {
            out.push((a.0, y));
            y = y + 1;
        }
        out
    } else {
        let lo = if a.0 <= b.0 {
            a.0
        } else {
            b.0
        };
        let hi = if a.0 <= b.0 {
            b.0
        } else {
            a.0
        };
        let mut x = lo;
        while x <= hi
            invariant
                lo <= x <= hi + 1,
                hi < usize::MAX,
                out@.len() == x - lo,
                forall|t: int| 0 <= t < out@.len() ==> (#[trigger] out@[t]) == ((lo + t) as usize, a.1),
            decreases hi + 1 - x,
        {
            out.push((x, a.1));
            x = x + 1;
        }
        out
    }
}

/// A grid of `max_y + 1` rows of `max_x + 1` cells each.
pub open spec fn grid_dims(g: Seq<Vec<bool>>, max_x: int, max_y: int) -> bool {
    g.len() == max_y + 1 && forall|y: int| 0 <= y <= max_y ==> (#[trigger] g[y])@.len() == max_x
        + 1
}

/// `(x, y)` lies on the inclusive axis-aligned segment between `a` and `b`.
pub open spec fn on_seg(a: (usize, usize), b: (usize, usize), x: int, y: int) -> bool {
    ||| (a.0 == b.0 && x == a.0 && ((a.1 <= y <= b.1) || (b.1 <= y <= a.1)))
    ||| (a.1 == b.1 && y == a.1 && ((a.0 <= x <= b.0) || (b.0 <= x <= a.0)))
}

/// Every cell of every segment of the first `p_end` paths is marked.
pub open spec fn all_paths_marked(g: Seq<Vec<bool>>, paths: Seq<Vec<(usize, usize)>>,
    p_end: int) -> bool {
    forall|p: int, q: int, x: int, y: int|
        #![trigger on_seg(paths[p]@[q - 1], paths[p]@[q], x, y), g[y]@[x]]
        0 <= p < p_end && 1 <= q < paths[p]@.len() && 0 <= y < g.len() && 0 <= x < g[y]@.len()
            && on_seg(paths[p]@[q - 1], paths[p]@[q], x, y) ==> g[y]@[x]
}

/// Every cell of the first `q_end - 1` segments of one path is marked.
pub open spec fn path_marked_upto(g: Seq<Vec<bool>>, path: Seq<(usize, usize)>, q_end: int) -> bool {
    forall|q: int, x: int, y: int|
        #![trigger on_seg(path[q - 1], path[q], x, y), g[y]@[x]]
        1 <= q < q_end && q < path.len() && 0 <= y < g.len() && 0 <= x < g[y]@.len() && on_seg(
            path[q - 1],
            path[q],
            x,
            y,
        ) ==> g[y]@[x]
}

/// Rasterise the rock paths into the blocked grid: every cell of every
/// segment between consecutive path nodes is marked.
pub fn initialize_blocked(paths: Vec<Vec<(usize, usize)>>, max_x: usize, max_y: usize) -> (r: Vec<
    Vec<bool>,
>)
    requires
        max_x < usize::MAX,
        max_y < usize::MAX,
        forall|p: int| 0 <= p < paths@.len() ==> (#[trigger] paths@[p])@.len() >= 1,
        forall|p: int, q: int|
            0 <= p < paths@.len() && 0 <= q < (#[trigger] paths@[p])@.len() ==> (
            #[trigger] paths@[p]@[q]).0 <= max_x && paths@[p]@[q].1 <= max_y,
        forall|p: int, q: int|
            0 <= p < paths@.len() && 0 < q < (#[trigger] paths@[p])@.len() ==> ((
            #[trigger] paths@[p]@[q]).0 == paths@[p]@[q - 1].0) != (paths@[p]@[q].1 == paths@[p]@[q
                - 1].1),
    ensures
        grid_dims(r@, max_x as int, max_y as int),
        all_paths_marked(r@, paths@, paths@.len() as int),
{
    let mut blocked: Vec<Vec<bool>> = Vec::new();
    let mut y: usize = 0;
    while y <= max_y
        invariant
            y <= max_y + 1,
            max_y < usize::MAX,
            max_x < usize::MAX,
            blocked@.len() == y,
            forall|t: int| 0 <= t < y ==> (#[trigger] blocked@[t])@.len() == max_x + 1,
        decreases max_y + 1 - y,
    {
        let mut row: Vec<bool> = Vec::new();
        let mut x: usize = 0;
        while x <= max_x
            invariant
                x <= max_x + 1,
                max_x < usize::MAX,
                row@.len() == x,
            decreases max_x + 1 - x,
        {
            row.push(false);
            x = x + 1;
        }
        blocked.push(row);
        y = y + 1;
    }
    let mut p: usize = 0;
    while p < paths.len()
        invariant
            p <= paths@.len(),
            max_x < usize::MAX,
            max_y < usize::MAX,
            grid_dims(blocked@, max_x as int, max_y as int),
            all_paths_marked(blocked@, paths@, p as int),
            forall|pp: int| 0 <= pp < paths@.len() ==> (#[trigger] paths@[pp])@.len() >= 1,
            forall|pp: int, q: int|
                0 <= pp < paths@.len() && 0 <= q < (#[trigger] paths@[pp])@.len() ==> (
                #[trigger] paths@[pp]@[q]).0 <= max_x && paths@[pp]@[q].1 <= max_y,
            forall|pp: int, q: int|
                0 <= pp < paths@.len() && 0 < q < (#[trigger] paths@[pp])@.len() ==> ((
                #[trigger] paths@[pp]@[q]).0 == paths@[pp]@[q - 1].0) != (paths@[pp]@[q].1
                    == paths@[pp]@[q - 1].1),
        decreases paths@.len() - p,
    {
        let path = &paths[p];
        let mut q: usize = 1;
        let mut last = path[0];
        while q < path.len()
            invariant
                1 <= q <= path@.len(),
                p < paths@.len(),
                path@ == paths@[p as int]@,
                max_x < usize::MAX,
                max_y < usize::MAX,
                grid_dims(blocked@, max_x as int, max_y as int),
                all_paths_marked(blocked@, paths@, p as int),
                path_marked_upto(blocked@, path@, q as int),
                last == path@[q - 1],
                forall|qq: int|
                    0 <= qq < path@.len() ==> (#[trigger] path@[qq]).0 <= max_x && path@[qq].1
                        <= max_y,
                forall|qq: int|
                    0 < qq < path@.len() ==> ((#[trigger] path@[qq]).0 == path@[qq - 1].0) != (
                    path@[qq].1 == path@[qq - 1].1),
            decreases path@.len() - q,
        {
            let node = path[q];
            let pts = points_between_nodes(&last, &node);
            let ghost a = last;
            let ghost b = node;
            let mut t: usize = 0;
            while t < pts.len()
                invariant
                    t <= pts@.len(),
                    max_x < usize::MAX,
                    max_y < usize::MAX,
                    grid_dims(blocked@, max_x as int, max_y as int),
                    p < paths@.len(),
                    1 <= q < path@.len(),
                    path@ == paths@[p as int]@,
                    all_paths_marked(blocked@, paths@, p as int),
                    path_marked_upto(blocked@, path@, q as int),
                    forall|u: int|
                        0 <= u < pts@.len() ==> (#[trigger] pts@[u]).0 <= max_x && pts@[u].1
                            <= max_y,
                    forall|u: int|
                        0 <= u < t ==> (#[trigger] blocked@[pts@[u].1 as int])@[pts@[u].0 as int],
                decreases pts@.len() - t,
            {
                let (px, py) = pts[t];
                let ghost g0 = blocked@;
                let row = row_with_bool(&blocked[py], px, true);
                blocked[py] = row;
                proof {
                    assert(blocked@[py as int]@ =~= g0[py as int]@.update(px as int, true));
                    assert forall|yy: int, xx: int|
                        #![trigger g0[yy]@[xx], blocked@[yy]@[xx]]
                        0 <= yy < g0.len() && 0 <= xx < g0[yy]@.len() && g0[yy]@[xx] implies blocked@[yy]@[xx] by {
                        if yy == py as int {
                            assert(blocked@[yy]@[xx] == g0[yy]@.update(px as int, true)[xx]);
                        }
                    }
                }
                t = t + 1;
            }
            proof {
                // every cell of the segment appears in the point list
                assert forall|x: int, y: int|
                    #![trigger on_seg(a, b, x, y)]
                    0 <= y <= max_y && 0 <= x <= max_x && on_seg(a, b, x, y) implies blocked@[y]@[x] by {
                    if a.0 == b.0 {
                        let lo: int = if a.1 <= b.1 {
                            a.1 as int
                        } else {
                            b.1 as int
                        };
                        assert(pts@[y - lo] == (a.0, y as usize));
                        assert(blocked@[pts@[y - lo].1 as int]@[pts@[y - lo].0 as int]);
                    } else {
                        let lo: int = if a.0 <= b.0 {
                            a.0 as int
                        } else {
                            b.0 as int
                        };
                        assert(pts@[x - lo] == (x as usize, a.1));
                        assert(blocked@[pts@[x - lo].1 as int]@[pts@[x - lo].0 as int]);
                    }
                }
                assert(path_marked_upto(blocked@, path@, q + 1));
            }
            last = node;
            q = q + 1;
        }
        proof {
            assert(all_paths_marked(blocked@, paths@, p + 1));
        }
        p = p + 1;
    }
    proof {
        assert(all_paths_marked(blocked@, paths@, paths@.len() as int));
    }
    blocked
}

/// The row with position `j` replaced.
fn row_with_bool(row: &Vec<bool>, j: usize, v: bool) -> (r: Vec<bool>)
    requires
        j < row@.len(),
    ensures
        r@.len() == row@.len(),
        r@ =~= row@.update(j as int, v),
{
    let mut out: Vec<bool> = Vec::new();
    let mut x: usize = 0;
    while x < row.len()
        invariant
            x <= row@.len(),
            j < row@.len(),
            out@.len() == x,
            forall|y: int| 0 <= y < x && y != j ==> (#[trigger] out@[y]) == row@[y],
            j < x ==> out@[j as int] == v,
        decreases row@.len() - x,
    {
        if x == j {
            out.push(v);
        } else {
            out.push(row[x]);
        }
        x = x + 1;
    }
    out
}

/// Drop one grain from `(x, y)`: it falls straight down to the first
/// blocked cell, slides diagonally left then right when possible, and rests
/// when all three cells below are blocked.  `None` means it flows off the
/// grid or past its edges.
pub fn sandfall(start: (usize, usize), blocked: &Vec<Vec<bool>>, max_x: usize, max_y: usize) -> (r:
    Option<(usize, usize)>)
    requires
        max_x < usize::MAX,
        max_y < usize::MAX,
        grid_dims(blocked@, max_x as int, max_y as int),
        start.0 <= max_x,
        start.1 <= max_y,
        !blocked@[start.1 as int]@[start.0 as int],
    ensures
        match r {
            Some(rest) => rest.0 <= max_x && rest.1 < max_y && !blocked@[rest.1 as int]@[rest.0 as int]
                && blocked@[rest.1 + 1]@[rest.0 as int] && rest.0 > 0 && rest.0 < max_x
                && blocked@[rest.1 + 1]@[rest.0 - 1] && blocked@[rest.1 + 1]@[rest.0 + 1],
            None => true,
        },
    decreases max_y - start.1,
{
    let (x, y) = start;
    let mut yy = y;
    while yy <= max_y
        invariant
            y <= yy <= max_y + 1,
            x <= max_x,
            max_x < usize::MAX,
            max_y < usize::MAX,
            grid_dims(blocked@, max_x as int, max_y as int),
            forall|v: int| y <= v < yy && v <= max_y ==> !blocked@[v]@[x as int],
        ensures
            yy <= max_y + 1,
            forall|v: int| y <= v < yy && v <= max_y ==> !blocked@[v]@[x as int],
            yy <= max_y ==> blocked@[yy as int]@[x as int],
            yy > max_y ==> yy == max_y + 1,
        decreases max_y - yy + 1,
    {
        if blocked[yy][x] {
            break ;
        }
        yy = yy + 1;
    }
    if yy > max_y {
        // fell past the bottom of the grid
        return None;
    }
    // the first blocked cell below the start is at row yy > y
    assert(yy > y);
    if x == 0 {
        return None;
    }
    if !blocked[yy][x - 1] {
        return sandfall((x - 1, yy), blocked, max_x, max_y);
    }
    if x == max_x {
        return None;
    }
    if !blocked[yy][x + 1] {
        return sandfall((x + 1, yy), blocked, max_x, max_y);
    }
    Some((x, yy - 1))
}

} // verus!
