//! Walking a tiled board: headings, tile extraction from raw input lines,
//! wrap-around edge mapping, the path instructions, and the starting point.

use vstd::prelude::*;
use crate::parse::is_digit;
use vstd::string::StringSliceAdditionalSpecFns;
use vstd::utf8::encode_utf8;

verus! {

/// A facing on the board.
#[derive(PartialEq, Eq, Structural, Debug, Clone, Copy)]
pub enum Direction {
    Up,
    Down,
    Left,
    Right,
}

impl Direction {
    /// The facing after a clockwise quarter turn.
    pub fn rotate_cw(self) -> (r: Direction)
        ensures
            r == (match self {
                Direction::Up => Direction::Right,
                Direction::Down => Direction::Left,
                Direction::Left => Direction::Up,
                Direction::Right => Direction::Down,
            }),
    {
        match self {
            Direction::Up => Direction::Right,
            Direction::Down => Direction::Left,
            Direction::Left => Direction::Up,
            Direction::Right => Direction::Down,
        }
    }

    /// The facing after a counter-clockwise quarter turn.
    pub fn rotate_ccw(self) -> (r: Direction)
        ensures
            r == (match self {
                Direction::Up => Direction::Left,
                Direction::Down => Direction::Right,
                Direction::Left => Direction::Down,
                Direction::Right => Direction::Up,
            }),
    {
        match self {
            Direction::Up => Direction::Left,
            Direction::Down => Direction::Right,
            Direction::Left => Direction::Down,
            Direction::Right => Direction::Up,
        }
    }

    /// The facing's score in the final password: right 0, down 1, left 2,
    /// up 3.
    pub fn eval(self) -> (r: usize)
        ensures
            r == (match self {
                Direction::Up => 3int,
                Direction::Down => 1int,
                Direction::Left => 2int,
                Direction::Right => 0int,
            }),
    {
        match self {
            Direction::Up => 3,
            Direction::Down => 1,
            Direction::Left => 2,
            Direction::Right => 0,
        }
    }
}

/// One step of the path description.
#[derive(PartialEq, Eq, Structural, Debug, Clone, Copy)]
pub enum Instruction {
    Move(usize),
    TurnLeft,
    TurnRight,
}

/// An `a` by `a` block of board characters.
pub type Tile = Vec<Vec<char>>;

/// The board as a grid of optional tiles, `l` rows of `k` tiles each.
pub type Board = Vec<Vec<Option<Tile>>>;

/// Wrap-around neighbors: which tile is entered when walking off tile
/// `(kk, ll)` in a direction.
pub struct EdgeMap {
    pub entries: Vec<((usize, usize), Direction, (usize, usize))>,
}

impl EdgeMap {
    /// The first recorded target for the position and direction, if any.
    pub fn get(&self, pos: (usize, usize), dir: Direction) -> (r: Option<(usize, usize)>)
        ensures
            match r {
                Some(t) => exists|i: int|
                    0 <= i < self.entries@.len() && (#[trigger] self.entries@[i]) == (pos, dir, t),
                None => forall|i: int|
                    0 <= i < self.entries@.len() ==> ((#[trigger] self.entries@[i]).0 != pos || self.entries@[i].1 != dir),
            },
    {
        let mut i: usize = 0;
        while i < self.entries.len()
            invariant
                i <= self.entries@.len(),
                forall|j: int|
                    0 <= j < i ==> ((#[trigger] self.entries@[j]).0 != pos || self.entries@[j].1
                        != dir),
            decreases self.entries@.len() - i,
        {
            let e = self.entries[i];
            if e.0.0 == pos.0 && e.0.1 == pos.1 && e.1 == dir {
                proof {
                    assert(self.entries@[i as int] == (pos, dir, e.2));
                }
                return Some(e.2);
            }
            i = i + 1;
        }
        None
    }
}

/// Copy the `a` by `a` tile at tile coordinates `(kk, ll)` out of the raw
/// lines.
pub fn copy_tile(lines: &Vec<Vec<char>>, kk: usize, ll: usize, a: usize) -> (r: Tile)
    requires
        a >= 1,
        ll * a + a <= lines@.len(),
        forall|y: int| ll * a <= y < ll * a + a ==> kk * a + a <= (#[trigger] lines@[y])@.len(),
    ensures
        r@.len() == a,
        forall|y: int| 0 <= y < a ==> (#[trigger] r@[y])@.len() == a,
        forall|y: int, x: int|
            0 <= y < a && 0 <= x < a ==> (#[trigger] r@[y]@[x]) == lines@[ll * a + y]@[kk * a + x],
{
    let mut tile: Tile = Vec::new();
    let nl = lines.len();
    let mut y: usize = 0;
    while y < a
        invariant
            y <= a,
            a >= 1,
            nl == lines@.len(),
            ll * a + a <= lines@.len(),
            forall|yy: int| ll * a <= yy < ll * a + a ==> kk * a + a <= (#[trigger] lines@[yy])@.len(),
            tile@.len() == y,
            forall|yy: int| 0 <= yy < y ==> (#[trigger] tile@[yy])@.len() == a,
            forall|yy: int, x: int|
                0 <= yy < y && 0 <= x < a ==> (#[trigger] tile@[yy]@[x]) == lines@[ll * a + yy]@[kk
                    * a + x],
        decreases a - y,
    {
        let mut row: Vec<char> = Vec::new();
        let mut x: usize = 0;
        let src = ll * a + y;
        let rl = lines[src].len();
        assert(kk * a + a <= rl);
        let base = kk * a;
        while x < a
            invariant
                x <= a,
                y < a,
                src == ll * a + y,
                base == kk * a,
                base + a <= rl,
                nl == lines@.len(),
                src < nl,
                ll * a + a <= lines@.len(),
                rl == lines@[src as int]@.len(),
                row@.len() == x,
                forall|xx: int| 0 <= xx < x ==> (#[trigger] row@[xx]) == lines@[src as int]@[kk * a
                    + xx],
            decreases a - x,
        {
            let c = lines[src][base + x];
            row.push(c);
            x = x + 1;
        }
        tile.push(row);
        y = y + 1;
    }
    tile
}

/// Build the tile grid: a tile is present where the raw lines reach its
/// corner and do not hold whitespace there.
pub fn board_from_lines(lines: &Vec<Vec<char>>, k: usize, l: usize, a: usize) -> (r: Board)
    requires
        a >= 1,
        l * a <= lines@.len(),
        k * a + a <= usize::MAX,
    ensures
        r@.len() == l,
        forall|i: int| 0 <= i < l ==> (#[trigger] r@[i])@.len() == k,
{
    let mut board: Board = Vec::new();
    let nl = lines.len();
    let mut ll: usize = 0;
    while ll < l
        invariant
            ll <= l,
            a >= 1,
            nl == lines@.len(),
            l * a <= lines@.len(),
            k * a + a <= usize::MAX,
            board@.len() == ll,
            forall|i: int| 0 <= i < ll ==> (#[trigger] board@[i])@.len() == k,
        decreases l - ll,
    {
        let mut row: Vec<Option<Tile>> = Vec::new();
        let mut kk: usize = 0;
        proof {
            assert((ll + 1) * a <= l * a) by (nonlinear_arith)
                requires
                    ll < l,
                    a >= 1,
            ;
            assert(ll * a + a == (ll + 1) * a) by (nonlinear_arith);
        }
        while kk < k
            invariant
                kk <= k,
                ll < l,
                a >= 1,
                nl == lines@.len(),
                l * a <= lines@.len(),
                k * a + a <= usize::MAX,
                ll * a + a <= lines@.len(),
                row@.len() == kk,
            decreases k - kk,
        {
            proof {
                assert(kk * a + a <= k * a + a) by (nonlinear_arith)
                    requires
                        kk < k,
                        a >= 1,
                ;
            }
            let corner_row = ll * a;
            let mut present = corner_row < lines.len() && kk * a < lines[corner_row].len();
            if present {
                let c = lines[corner_row][kk * a];
                present = c != ' ';
            }
            // a tile is copied only when the raw lines cover it fully
            if present {
                let mut covered = true;
                let mut y: usize = 0;
                while y < a
                    invariant
                        y <= a,
                        nl == lines@.len(),
                        ll * a + a <= lines@.len(),
                        kk * a + a <= usize::MAX,
                        !covered || forall|yy: int|
                            ll * a <= yy < ll * a + y ==> kk * a + a <= (
                            #[trigger] lines@[yy])@.len(),
                    decreases a - y,
                {
                    if lines[ll * a + y].len() < kk * a + a {
                        covered = false;
                    }
                    y = y + 1;
                }
                if covered {
                    let tile = copy_tile(lines, kk, ll, a);
                    row.push(Some(tile));
                } else {
                    row.push(None);
                }
            } else {
                row.push(None);
            }
            kk = kk + 1;
        }
        board.push(row);
        ll = ll + 1;
    }
    board
}

/// Parse the path description: maximal digit runs become `Move` steps, `L`
/// and `R` become turns; any other character is skipped.  Move distances
/// saturate at `usize::MAX`.
pub fn process_instructions(s: String) -> (r: Vec<Instruction>)
    ensures
        r@.len() <= encode_utf8(s@).len(),
{
    let st = s.as_str();
    let bytes = st.as_bytes();
    let n = bytes.len();
    let mut out: Vec<Instruction> = Vec::new();
    let mut i: usize = 0;
    while i < n
        invariant
            i <= n,
            n == encode_utf8(s@).len(),
            n == bytes@.len(),
            out@.len() <= i,
        decreases n - i,
    {
        let b = bytes[i];
        if b >= 48 && b <= 57 {
            let mut value: usize = 0;
            let mut j = i;
            while j < n
                invariant
                    i <= j <= n,
                    n == bytes@.len(),
                decreases n - j,
            {
                let d = bytes[j];
                if d < 48 || d > 57 {
                    break ;
                }
                let dv = (d - 48) as usize;
                if value <= (usize::MAX - dv) / 10 {
                    value = value * 10 + dv;
                } else {
                    value = usize::MAX;
                }
                j = j + 1;
            }
            out.push(Instruction::Move(value));
            proof {
                assert(j >= i + 1 || j == i);
            }
            if j == i {
                i = i + 1;
            } else {
                i = j;
            }
        } else {
            if b == 76 {
                out.push(Instruction::TurnLeft);
            } else if b == 82 {
                out.push(Instruction::TurnRight);
            }
            i = i + 1;
        }
    }
    out
}

/// Find a walkable `.` position: returns tile coordinates and the position
/// inside the tile.  `None` means no tile holds a `.` at a scanned position.
pub fn locate_start(board: &Board, k: usize, l: usize, a: usize) -> (r: Option<
    (usize, usize, usize, usize),
>)
    requires
        board@.len() == l,
        forall|i: int| 0 <= i < l ==> (#[trigger] board@[i])@.len() == k,
    ensures
        match r {
            Some(p) => p.0 < k && p.1 < l && board@[p.1 as int]@[p.0 as int] is Some && {
                let tile = board@[p.1 as int]@[p.0 as int]->Some_0;
                p.3 < tile@.len() && p.2 < tile@[p.3 as int]@.len() && tile@[p.3 as int]@[p.2 as int]
                    == '.'
            },
            None => true,
        },
{
    let mut ll: usize = 0;
    while ll < l
        invariant
            ll <= l,
            board@.len() == l,
            forall|i: int| 0 <= i < l ==> (#[trigger] board@[i])@.len() == k,
        decreases l - ll,
    {
        let mut kk: usize = 0;
        while kk < k
            invariant
                kk <= k,
                ll < l,
                board@.len() == l,
                forall|i: int| 0 <= i < l ==> (#[trigger] board@[i])@.len() == k,
            decreases k - kk,
        {
            match &board[ll][kk] {
                Some(tile) => {
                    let mut y: usize = 0;
                    while y < tile.len()
                        invariant
                            y <= tile@.len(),
                            kk < k,
                            ll < l,
                            board@.len() == l,
                            forall|i: int| 0 <= i < l ==> (#[trigger] board@[i])@.len() == k,
                            board@[ll as int]@[kk as int] is Some,
                            tile@ == board@[ll as int]@[kk as int]->Some_0@,
                        decreases tile@.len() - y,
                    {
                        let row = &tile[y];
                        let mut x: usize = 0;
                        while x < row.len()
                            invariant
                                x <= row@.len(),
                                y < tile@.len(),
                                kk < k,
                                ll < l,
                                board@.len() == l,
                                forall|i: int| 0 <= i < l ==> (#[trigger] board@[i])@.len() == k,
                                board@[ll as int]@[kk as int] is Some,
                                tile@ == board@[ll as int]@[kk as int]->Some_0@,
                                row@ == tile@[y as int]@,
                            decreases row@.len() - x,
                        {
                            if row[x] == '.' {
                                return Some((kk, ll, x, y));
                            }
                            x = x + 1;
                        }
                        y = y + 1;
                    }
                },
                None => {},
            }
            kk = kk + 1;
        }
        ll = ll + 1;
    }
    None
}

/// Record the wrap-around neighbor pairs of every row and column of tiles:
/// walking off a present tile in a direction enters the next present tile,
/// and walking past the last present tile of a contiguous run wraps to the
/// first.  Every recorded coordinate lies on the board.
pub fn map_edges(board: &Board, k: usize, l: usize) -> (r: EdgeMap)
    requires
        1 <= k,
        1 <= l,
        board@.len() == l,
        forall|i: int| 0 <= i < l ==> (#[trigger] board@[i])@.len() == k,
    ensures
        forall|i: int|
            0 <= i < r.entries@.len() ==> (#[trigger] r.entries@[i]).0.0 < k
                && r.entries@[i].0.1 < l && r.entries@[i].2.0 < k && r.entries@[i].2.1 < l,
{
    let mut entries: Vec<((usize, usize), Direction, (usize, usize))> = Vec::new();
    let mut ll: usize = 0;
    while ll < l
        invariant
            ll <= l,
            1 <= k,
            1 <= l,
            board@.len() == l,
            forall|i: int| 0 <= i < l ==> (#[trigger] board@[i])@.len() == k,
            forall|i: int|
                0 <= i < entries@.len() ==> (#[trigger] entries@[i]).0.0 < k && entries@[i].0.1 < l
                    && entries@[i].2.0 < k && entries@[i].2.1 < l,
        decreases l - ll,
    {
        // first present tile of the row, if any
        let mut first: usize = 0;
        let mut found = false;
        let mut kk: usize = 0;
        while kk < k
            invariant
                kk <= k,
                ll < l,
                board@.len() == l,
                forall|i: int| 0 <= i < l ==> (#[trigger] board@[i])@.len() == k,
                found ==> first < k,
            decreases k - kk,
        {
            if !found && board[ll][kk].is_some() {
                first = kk;
                found = true;
            }
            kk = kk + 1;
        }
        if found {
            let mut last: usize = k - 1;
            let mut cur = first + 1;
            while cur < k
                invariant
                    first < cur <= k,
                    first < k,
                    last < k,
                    ll < l,
                    1 <= k,
                    1 <= l,
                    board@.len() == l,
                    forall|i: int| 0 <= i < l ==> (#[trigger] board@[i])@.len() == k,
                    forall|i: int|
                        0 <= i < entries@.len() ==> (#[trigger] entries@[i]).0.0 < k
                            && entries@[i].0.1 < l && entries@[i].2.0 < k && entries@[i].2.1 < l,
                decreases k - cur,
            {
                if board[ll][cur].is_some() {
                    entries.push(((cur - 1, ll), Direction::Right, (cur, ll)));
                    entries.push(((cur, ll), Direction::Left, (cur - 1, ll)));
                    cur = cur + 1;
                } else {
                    last = cur - 1;
                    break ;
                }
            }
            if cur >= k {
                last = k - 1;
            }
            entries.push(((last, ll), Direction::Right, (first, ll)));
            entries.push(((first, ll), Direction::Left, (last, ll)));
        }
        ll = ll + 1;
    }
    let mut kk2: usize = 0;
    while kk2 < k
        invariant
            kk2 <= k,
            1 <= k,
            1 <= l,
            board@.len() == l,
            forall|i: int| 0 <= i < l ==> (#[trigger] board@[i])@.len() == k,
            forall|i: int|
                0 <= i < entries@.len() ==> (#[trigger] entries@[i]).0.0 < k && entries@[i].0.1 < l
                    && entries@[i].2.0 < k && entries@[i].2.1 < l,
        decreases k - kk2,
    {
        let mut first: usize = 0;
        let mut found = false;
        let mut ll2: usize = 0;
        while ll2 < l
            invariant
                ll2 <= l,
                kk2 < k,
                board@.len() == l,
                forall|i: int| 0 <= i < l ==> (#[trigger] board@[i])@.len() == k,
                found ==> first < l,
            decreases l - ll2,
        {
            if !found && board[ll2][kk2].is_some() {
                first = ll2;
                found = true;
            }
            ll2 = ll2 + 1;
        }
        if found {
            let mut last: usize = l - 1;
            let mut cur = first + 1;
            while cur < l
                invariant
                    first < cur <= l,
                    first < l,
                    last < l,
                    kk2 < k,
                    1 <= k,
                    1 <= l,
                    board@.len() == l,
                    forall|i: int| 0 <= i < l ==> (#[trigger] board@[i])@.len() == k,
                    forall|i: int|
                        0 <= i < entries@.len() ==> (#[trigger] entries@[i]).0.0 < k
                            && entries@[i].0.1 < l && entries@[i].2.0 < k && entries@[i].2.1 < l,
                decreases l - cur,
            {
                if board[cur][kk2].is_some() {
                    entries.push(((kk2, cur - 1), Direction::Down, (kk2, cur)));
                    entries.push(((kk2, cur), Direction::Up, (kk2, cur - 1)));
                    cur = cur + 1;
                } else {
                    last = cur - 1;
                    break ;
                }
            }
            if cur >= l {
                last = l - 1;
            }
            entries.push(((kk2, last), Direction::Down, (kk2, first)));
            entries.push(((kk2, first), Direction::Up, (kk2, last)));
        }
        kk2 = kk2 + 1;
    }
    EdgeMap { entries }
}

/// The greatest common divisor, by the Euclidean recursion.
pub open spec fn spec_gcd(a: nat, b: nat) -> nat
    decreases b,
{
    if b == 0 {
        a
    } else {
        spec_gcd(b, a % b)
    }
}

proof fn lemma_gcd_pos(a: nat, b: nat)
    requires
        a >= 1 || b >= 1,
    ensures
        spec_gcd(a, b) >= 1,
    decreases b,
{
    if b != 0 {
        lemma_gcd_pos(b, a % b);
    }
}

/// Relies on `gcd::binary_usize`: it computes the greatest common divisor
/// of its arguments (the binary GCD algorithm agrees with the Euclidean
/// recursion).
#[verifier::external_body]
fn gcd_usize(a: usize, b: usize) -> (r: usize)
    ensures
        r == spec_gcd(a as nat, b as nat),
{
    gcd::binary_usize(a, b)
}

/// The tile geometry of a board outline: the tile side is the greatest
/// common divisor of the outline's width and height, and the board is `k`
/// tiles wide and `l` tiles tall.
pub fn tile_dimensions(max_x: usize, max_y: usize) -> (r: (usize, usize, usize))
    requires
        max_x >= 1,
        max_y >= 1,
    ensures
        r.0 == spec_gcd(max_x as nat, max_y as nat),
        r.0 >= 1,
        r.1 == max_x as int / r.0 as int,
        r.2 == max_y as int / r.0 as int,
{
    let a = gcd_usize(max_x, max_y);
    proof {
        lemma_gcd_pos(max_x as nat, max_y as nat);
    }
    let k = max_x / a;
    let l = max_y / a;
    (a, k, l)
}

} // verus!
