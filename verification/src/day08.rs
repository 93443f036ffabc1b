//! Tree-house grid scans: marking trees visible from outside, and the
//! scenic score of a viewpoint.

use vstd::prelude::*;

verus! {

/// One grid cell: a tree height and its visibility mark.
#[derive(Clone, Copy, Debug, PartialEq, Eq, Structural)]
pub struct Tree {
    pub height: i32,
    pub is_visible: bool,
}

/// The forest grid, row by row.
pub type Grid = Vec<Vec<Tree>>;

/// Mark the tree at `(i, j)` visible when it rises above the tallest seen
/// so far along the current scan line, and remember the new tallest height.
pub fn mark_visible_if_taller(i: usize, j: usize, tallest: &mut i32, map: &mut Grid)
    requires
        i < old(map)@.len(),
        j < old(map)@[i as int]@.len(),
    ensures
        final(map)@.len() == old(map)@.len(),
        ({
            let t = old(map)@[i as int]@[j as int];
            if t.height > *old(tallest) {
                &&& *final(tallest) == t.height
                &&& final(map)@[i as int]@ =~= old(map)@[i as int]@.update(
                    j as int,
                    Tree { height: t.height, is_visible: true },
                )
                &&& forall|x: int|
                    0 <= x < old(map)@.len() && x != i ==> final(map)@[x] == old(map)@[x]
            } else {
                &&& *final(tallest) == *old(tallest)
                &&& final(map)@ =~= old(map)@
            }
        }),
{
    let t = map[i][j];
    if t.height > *tallest {
        *tallest = t.height;
        let row = row_with(&map[i], j, Tree { height: t.height, is_visible: true });
        map[i] = row;
    }
}

/// The row with position `j` replaced.
fn row_with(row: &Vec<Tree>, j: usize, t: Tree) -> (r: Vec<Tree>)
    requires
        j < row@.len(),
    ensures
        r@ =~= row@.update(j as int, t),
{
    let mut out: Vec<Tree> = Vec::new();
    let mut x: usize = 0;
    while x < row.len()
        invariant
            x <= row@.len(),
            j < row@.len(),
            out@.len() == x,
            forall|y: int| 0 <= y < x && y != j ==> (#[trigger] out@[y]) == row@[y],
            j < x ==> out@[j as int] == t,
        decreases row@.len() - x,
    {
        if x == j {
            out.push(t);
        } else {
            out.push(row[x]);
        }
        x = x + 1;
    }
    out
}

/// A rectangular grid of the given dimensions.
pub open spec fn grid_wf(m: Seq<Seq<Tree>>, width: int, height: int) -> bool {
    m.len() == height && forall|i: int| 0 <= i < height ==> (#[trigger] m[i]).len() == width
}

/// Viewing distance looking up (toward smaller row indices) from height `h`
/// at row `i`: trees seen until one at least as tall blocks the view.
pub open spec fn up_dist(m: Seq<Seq<Tree>>, h: int, i: int, j: int) -> nat
    decreases i,
{
    if i <= 0 {
        0
    } else if m[i - 1][j].height >= h {
        1
    } else {
        1 + up_dist(m, h, i - 1, j)
    }
}

/// Viewing distance looking down from height `h` at row `i`, in a grid of
/// `n` rows.
pub open spec fn down_dist(m: Seq<Seq<Tree>>, h: int, n: int, i: int, j: int) -> nat
    decreases n - i,
{
    if i + 1 >= n {
        0
    } else if m[i + 1][j].height >= h {
        1
    } else {
        1 + down_dist(m, h, n, i + 1, j)
    }
}

/// Viewing distance looking left from height `h` at column `j`.
pub open spec fn left_dist(m: Seq<Seq<Tree>>, h: int, i: int, j: int) -> nat
    decreases j,
{
    if j <= 0 {
        0
    } else if m[i][j - 1].height >= h {
        1
    } else {
        1 + left_dist(m, h, i, j - 1)
    }
}

/// Viewing distance looking right from height `h` at column `j`, in rows of
/// `w` columns.
pub open spec fn right_dist(m: Seq<Seq<Tree>>, h: int, w: int, i: int, j: int) -> nat
    decreases w - j,
{
    if j + 1 >= w {
        0
    } else if m[i][j + 1].height >= h {
        1
    } else {
        1 + right_dist(m, h, w, i, j + 1)
    }
}

/// The scenic score of `(i, j)`: the product of the four viewing distances.
/// The grid itself is left untouched.
pub fn get_scenic_score(width: usize, height: usize, i: usize, j: usize, map: &mut Grid) -> (r:
    usize)
    requires
        grid_wf(old(map)@.map_values(|row: Vec<Tree>| row@), width as int, height as int),
        i < height,
        j < width,
        width <= 255,
        height <= 255,
    ensures
        final(map)@ == old(map)@,
        ({
            let m = old(map)@.map_values(|row: Vec<Tree>| row@);
            let h = m[i as int][j as int].height as int;
            r == up_dist(m, h, i as int, j as int) * down_dist(
                m,
                h,
                height as int,
                i as int,
                j as int,
            ) * left_dist(m, h, i as int, j as int) * right_dist(
                m,
                h,
                width as int,
                i as int,
                j as int,
            )
        }),
{
    let ghost m = map@.map_values(|row: Vec<Tree>| row@);
    proof {
        assert forall|x: int| 0 <= x < height implies #[trigger] m[x] == map@[x]@ by {}
        assert(m[i as int] == map@[i as int]@);
    }
    let origin_height = map[i][j].height;
    let ghost h = origin_height as int;
    let mut up: usize = 0;
    let mut ii: usize = i;
    while ii > 0
        invariant_except_break
            ii <= i,
            up == i - ii,
            up_dist(m, h, i as int, j as int) == up + up_dist(m, h, ii as int, j as int),
        invariant
            i < height,
            j < width,
            height <= 255,
            width <= 255,
            m == map@.map_values(|row: Vec<Tree>| row@),
            forall|x: int| 0 <= x < height ==> #[trigger] m[x] == map@[x]@,
            grid_wf(m, width as int, height as int),
            h == m[i as int][j as int].height,
            h == origin_height,
            up <= i,
        ensures
            up == up_dist(m, h, i as int, j as int),
            up <= i,
        decreases ii,
    {
        up = up + 1;
        if map[ii - 1][j].height >= origin_height {
            proof {
                assert(up_dist(m, h, ii as int, j as int) == 1);
            }
            break ;
        }
        ii = ii - 1;
    }
    let mut down: usize = 0;
    let mut di: usize = i;
    while di + 1 < height
        invariant_except_break
            i <= di < height,
            down == di - i,
            down_dist(m, h, height as int, i as int, j as int) == down + down_dist(
                m,
                h,
                height as int,
                di as int,
                j as int,
            ),
        invariant
            i < height,
            j < width,
            height <= 255,
            width <= 255,
            m == map@.map_values(|row: Vec<Tree>| row@),
            forall|x: int| 0 <= x < height ==> #[trigger] m[x] == map@[x]@,
            grid_wf(m, width as int, height as int),
            h == m[i as int][j as int].height,
            h == origin_height,
            down <= height - 1 - i,
        ensures
            down == down_dist(m, h, height as int, i as int, j as int),
            down <= height - 1 - i,
        decreases height - di,
    {
        down = down + 1;
        if map[di + 1][j].height >= origin_height {
            proof {
                assert(down_dist(m, h, height as int, di as int, j as int) == 1);
            }
            break ;
        }
        di = di + 1;
    }
    let mut left: usize = 0;
    let mut jj: usize = j;
    while jj > 0
        invariant_except_break
            jj <= j,
            left == j - jj,
            left_dist(m, h, i as int, j as int) == left + left_dist(m, h, i as int, jj as int),
        invariant
            i < height,
            j < width,
            height <= 255,
            width <= 255,
            m == map@.map_values(|row: Vec<Tree>| row@),
            forall|x: int| 0 <= x < height ==> #[trigger] m[x] == map@[x]@,
            grid_wf(m, width as int, height as int),
            h == m[i as int][j as int].height,
            h == origin_height,
            left <= j,
        ensures
            left == left_dist(m, h, i as int, j as int),
            left <= j,
        decreases jj,
    {
        left = left + 1;
        if map[i][jj - 1].height >= origin_height {
            proof {
                assert(left_dist(m, h, i as int, jj as int) == 1);
            }
            break ;
        }
        jj = jj - 1;
    }
    let mut right: usize = 0;
    let mut rj: usize = j;
    while rj + 1 < width
        invariant_except_break
            j <= rj < width,
            right == rj - j,
            right_dist(m, h, width as int, i as int, j as int) == right + right_dist(
                m,
                h,
                width as int,
                i as int,
                rj as int,
            ),
        invariant
            i < height,
            j < width,
            height <= 255,
            width <= 255,
            m == map@.map_values(|row: Vec<Tree>| row@),
            forall|x: int| 0 <= x < height ==> #[trigger] m[x] == map@[x]@,
            grid_wf(m, width as int, height as int),
            h == m[i as int][j as int].height,
            h == origin_height,
            right <= width - 1 - j,
        ensures
            right == right_dist(m, h, width as int, i as int, j as int),
            right <= width - 1 - j,
        decreases width - rj,
    {
        right = right + 1;
        if map[i][rj + 1].height >= origin_height {
            proof {
                assert(right_dist(m, h, width as int, i as int, rj as int) == 1);
            }
            break ;
        }
        rj = rj + 1;
    }
    proof {
        assert(up * down * left * right <= 4228250625) by (nonlinear_arith)
            requires
                0 <= up <= 255,
                0 <= down <= 255,
                0 <= left <= 255,
                0 <= right <= 255,
        ;
        assert(up * down <= 65025 && up * down * left <= 16581375) by (nonlinear_arith)
            requires
                0 <= up <= 255,
                0 <= down <= 255,
                0 <= left <= 255,
        ;
    }
    up * down * left * right
}

} // verus!
