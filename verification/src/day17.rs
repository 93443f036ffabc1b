//! Falling rocks: translating a shape by an origin offset, and dropping one
//! rock through the jet-blown chamber until it settles.

use vstd::prelude::*;

verus! {

/// Component-wise sum of two points.
pub fn add(a: &(i64, i64), b: &(i64, i64)) -> (r: (i64, i64))
    requires
        i64::MIN <= a.0 + b.0 <= i64::MAX,
        i64::MIN <= a.1 + b.1 <= i64::MAX,
    ensures
        r.0 == a.0 + b.0,
        r.1 == a.1 + b.1,
{
    (a.0 + b.0, a.1 + b.1)
}

/// The shape's points translated by `origin`.
pub fn placed_shape(shape: &Vec<(i64, i64)>, origin: &(i64, i64)) -> (r: Vec<(i64, i64)>)
    requires
        forall|i: int|
            0 <= i < shape@.len() ==> i64::MIN <= (#[trigger] shape@[i]).0 + origin.0 <= i64::MAX
                && i64::MIN <= shape@[i].1 + origin.1 <= i64::MAX,
    ensures
        r@.len() == shape@.len(),
        forall|i: int|
            0 <= i < shape@.len() ==> (#[trigger] r@[i]).0 == shape@[i].0 + origin.0 && r@[i].1
                == shape@[i].1 + origin.1,
{
    let mut out: Vec<(i64, i64)> = Vec::new();
    let mut i: usize = 0;
    while i < shape.len()
        invariant
            i <= shape@.len(),
            out@.len() == i,
            forall|j: int|
                0 <= j < shape@.len() ==> i64::MIN <= (#[trigger] shape@[j]).0 + origin.0
                    <= i64::MAX && i64::MIN <= shape@[j].1 + origin.1 <= i64::MAX,
            forall|j: int|
                0 <= j < i ==> (#[trigger] out@[j]).0 == shape@[j].0 + origin.0 && out@[j].1
                    == shape@[j].1 + origin.1,
        decreases shape@.len() - i,
    {
        let p = shape[i];
        out.push((p.0 + origin.0, p.1 + origin.1));
        i = i + 1;
    }
    out
}

/// The falling chamber: seven cells per row, row 0 at the bottom; rows are
/// created as rocks reach them.
pub type Chamber = Vec<Vec<bool>>;

/// Every chamber row has exactly seven cells.
pub open spec fn chamber_wf(c: Seq<Vec<bool>>) -> bool {
    forall|y: int| 0 <= y < c.len() ==> (#[trigger] c[y])@.len() == 7
}

/// The cell `(x, y)` holds settled rock.
pub open spec fn occupied(c: Seq<Vec<bool>>, x: int, y: int) -> bool {
    0 <= x < 7 && 0 <= y < c.len() && c[y]@[x]
}

/// A shape of relative cells, each within a four-by-seven box.
pub open spec fn shape_wf(s: Seq<(i64, i64)>) -> bool {
    s.len() >= 1 && forall|i: int|
        0 <= i < s.len() ==> 0 <= (#[trigger] s[i]).0 <= 6 && 0 <= s[i].1 <= 3
}

/// The shape placed at `(pos, h)` overlaps settled rock or leaves the
/// chamber walls.
pub open spec fn collides(c: Seq<Vec<bool>>, s: Seq<(i64, i64)>, pos: int, h: int) -> bool {
    exists|i: int|
        0 <= i < s.len() && {
            let x = (#[trigger] s[i]).0 + pos;
            let y = s[i].1 + h;
            !(0 <= x < 7) || occupied(c, x, y)
        }
}

/// Whether placing the shape at `(pos, h)` hits a wall or settled rock.
fn check_collision(chamber: &Chamber, shape: &Vec<(i64, i64)>, pos: i64, h: i64) -> (r: bool)
    requires
        chamber_wf(chamber@),
        shape_wf(shape@),
        -8 <= pos <= 8,
        0 <= h <= 0x1000_0000,
    ensures
        r == collides(chamber@, shape@, pos as int, h as int),
{
    let mut i: usize = 0;
    while i < shape.len()
        invariant
            i <= shape@.len(),
            chamber_wf(chamber@),
            shape_wf(shape@),
            -8 <= pos <= 8,
            0 <= h <= 0x1000_0000,
            forall|j: int|
                0 <= j < i ==> {
                    let x = (#[trigger] shape@[j]).0 + pos;
                    let y = shape@[j].1 + h;
                    0 <= x < 7 && !occupied(chamber@, x, y)
                },
        decreases shape@.len() - i,
    {
        let (sx, sy) = shape[i];
        let x = sx + pos;
        let y = sy + h;
        if x < 0 || x >= 7 {
            proof {
                assert(!(0 <= shape@[i as int].0 + pos < 7));
            }
            return true;
        }
        if y >= 0 && (y as usize) < chamber.len() {
            if chamber[y as usize][x as usize] {
                proof {
                    assert(occupied(chamber@, shape@[i as int].0 + pos, shape@[i as int].1 + h));
                }
                return true;
            }
        }
        i = i + 1;
    }
    false
}

/// Drop one rock shape from `spawn_height`: jets push it sideways, it falls
/// until blocked below or on the floor, its cells settle into the chamber,
/// and its highest settled row is returned.  The jet cursor advances once
/// per step taken.
pub fn simulate_fall(shape: &Vec<(i64, i64)>, spawn_height: i64, chamber: &mut Chamber, jets: &Vec<
    char,
>, jet_idx: &mut usize) -> (r: i64)
    requires
        chamber_wf(old(chamber)@),
        shape_wf(shape@),
        jets@.len() >= 1,
        0 <= spawn_height <= 0x1000_0000,
        old(chamber)@.len() <= 0x1000_0000,
        !collides(old(chamber)@, shape@, 2, spawn_height as int),
    ensures
        chamber_wf(final(chamber)@),
        exists|pos: int, h: int|
            #![trigger collides(old(chamber)@, shape@, pos, h)]
            {
                &&& -6 <= pos <= 6
                &&& 0 <= h
                &&& !collides(old(chamber)@, shape@, pos, h)
                &&& forall|i: int|
                    0 <= i < shape@.len() ==> occupied(
                        final(chamber)@,
                        (#[trigger] shape@[i]).0 + pos,
                        shape@[i].1 + h,
                    )
                &&& shape_top(shape@, h) == r
            },
{
    let mut pos: i64 = 2;
    let mut height: i64 = spawn_height;
    loop
        invariant
            chamber_wf(chamber@),
            chamber@ == old(chamber)@,
            shape_wf(shape@),
            jets@.len() >= 1,
            -6 <= pos <= 6,
            0 <= height <= 0x1000_0000,
            !collides(chamber@, shape@, pos as int, height as int),
        ensures
            chamber_wf(chamber@),
            chamber@ == old(chamber)@,
            -6 <= pos <= 6,
            0 <= height <= 0x1000_0000,
            !collides(chamber@, shape@, pos as int, height as int),
        decreases height,
    {
        let jet = jets[*jet_idx % jets.len()];
        *jet_idx = (*jet_idx % jets.len()) + 1;
        if jet == '>' {
            if !check_collision(chamber, shape, pos + 1, height) {
                pos = pos + 1;
                proof {
                    assert(0 <= shape@[0].0 + pos < 7);
                }
            }
        } else if jet == '<' {
            if !check_collision(chamber, shape, pos - 1, height) {
                pos = pos - 1;
                proof {
                    assert(0 <= shape@[0].0 + pos < 7);
                }
            }
        }
        if height == 0 {
            break ;
        }
        if check_collision(chamber, shape, pos, height - 1) {
            break ;
        }
        height = height - 1;
    }
    // settle the shape
    let ghost c0 = chamber@;
    let mut i: usize = 0;
    let mut top: i64 = shape[0].1 + height;
    proof {
        lemma_shape_top_bound(shape@, 1, height as int);
    }
    let mut k: usize = 1;
    while k < shape.len()
        invariant
            1 <= k <= shape@.len(),
            shape_wf(shape@),
            0 <= height <= 0x1000_0000,
            top == shape_top_up_to(shape@, k as int, height as int),
        decreases shape@.len() - k,
    {
        let (sx, sy) = shape[k];
        if sy + height > top {
            top = sy + height;
        }
        k = k + 1;
    }
    while i < shape.len()
        invariant
            i <= shape@.len(),
            shape_wf(shape@),
            chamber_wf(chamber@),
            -6 <= pos <= 6,
            0 <= height <= 0x1000_0000,
            chamber@.len() <= 0x1000_0000 + 5,
            !collides(c0, shape@, pos as int, height as int),
            forall|j: int|
                0 <= j < i ==> occupied(
                    chamber@,
                    (#[trigger] shape@[j]).0 + pos,
                    shape@[j].1 + height,
                ),
            forall|x: int, y: int| occupied(c0, x, y) ==> occupied(chamber@, x, y),
        decreases shape@.len() - i,
    {
        let (sx, sy) = shape[i];
        proof {
            assert(0 <= shape@[i as int].0 + pos < 7 && !occupied(
                c0,
                shape@[i as int].0 + pos,
                shape@[i as int].1 + height,
            ));
        }
        let x = (sx + pos) as usize;
        let y = (sy + height) as usize;
        while chamber.len() <= y
            invariant
                chamber_wf(chamber@),
                y <= 0x1000_0000 + 3,
                chamber@.len() <= 0x1000_0000 + 5,
                forall|j: int|
                    0 <= j < i ==> occupied(
                        chamber@,
                        (#[trigger] shape@[j]).0 + pos,
                        shape@[j].1 + height,
                    ),
                forall|xx: int, yy: int| occupied(c0, xx, yy) ==> occupied(chamber@, xx, yy),
            decreases y + 1 - chamber@.len(),
        {
            let mut row: Vec<bool> = Vec::new();
            let mut z: usize = 0;
            while z < 7
                invariant
                    z <= 7,
                    row@.len() == z,
                    forall|t: int| 0 <= t < z ==> !(#[trigger] row@[t]),
                decreases 7 - z,
            {
                row.push(false);
                z = z + 1;
            }
            chamber.push(row);
        }
        let ghost before_set = chamber@;
        let row = row_with(&chamber[y], x, true);
        chamber[y] = row;
        proof {
            assert(chamber@[y as int]@ =~= before_set[y as int]@.update(x as int, true));
            assert(occupied(chamber@, sx + pos, sy + height));
            assert forall|a: int, b: int| occupied(before_set, a, b) implies occupied(
                chamber@,
                a,
                b,
            ) by {
                if b == y as int {
                    assert(chamber@[b]@[a] == before_set[b]@.update(x as int, true)[a]);
                }
            }
        }
        i = i + 1;
    }
    proof {
        lemma_shape_top_is(shape@, height as int);
        assert(shape_top(shape@, height as int) == top);
    }
    top
}

/// The row with position `j` replaced.
fn row_with(row: &Vec<bool>, j: usize, v: bool) -> (r: Vec<bool>)
    requires
        j < row@.len(),
    ensures
        r@.len() == row@.len(),
        r@ =~= row@.update(j as int, v),
{
    let mut out: Vec<bool> = Vec::new();
    let mut x: usize = 0;
    while x < row.len()
        invariant
            x <= row@.len(),
            j < row@.len(),
            out@.len() == x,
            forall|y: int| 0 <= y < x && y != j ==> (#[trigger] out@[y]) == row@[y],
            j < x ==> out@[j as int] == v,
        decreases row@.len() - x,
    {
        if x == j {
            out.push(v);
        } else {
            out.push(row[x]);
        }
        x = x + 1;
    }
    out
}

/// The highest row the shape reaches when its origin row is `h`.
pub open spec fn shape_top(s: Seq<(i64, i64)>, h: int) -> int {
    shape_top_up_to(s, s.len() as int, h)
}

/// The highest row among the first `k` cells of the shape.
pub open spec fn shape_top_up_to(s: Seq<(i64, i64)>, k: int, h: int) -> int
    decreases k,
{
    if k <= 1 {
        s[0].1 + h
    } else {
        let rest = shape_top_up_to(s, k - 1, h);
        if s[k - 1].1 + h > rest {
            s[k - 1].1 + h
        } else {
            rest
        }
    }
}

proof fn lemma_shape_top_bound(s: Seq<(i64, i64)>, k: int, h: int)
    requires
        shape_wf(s),
        1 <= k <= s.len(),
    ensures
        h <= shape_top_up_to(s, k, h) <= h + 3,
    decreases k,
{
    if k > 1 {
        lemma_shape_top_bound(s, k - 1, h);
    }
}

proof fn lemma_shape_top_is(s: Seq<(i64, i64)>, h: int)
    requires
        s.len() >= 1,
    ensures
        shape_top(s, h) == shape_top_up_to(s, s.len() as int, h),
{
}

} // verus!
