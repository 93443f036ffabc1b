//! Valve network preprocessing: parsing valve lines, all-pairs shortest
//! tunnel distances, and trimming the distance table to the valves that
//! matter.

use vstd::prelude::*;
use vstd::string::StringSliceAdditionalSpecFns;
use crate::parse::{is_uint_str, digits_val, find_byte, parse_u64_range};

verus! {

/// One parsed input line: a valve name, its flow rate, and the names of the
/// valves its tunnels lead to.
pub struct Input {
    pub valve: String,
    pub rate: u32,
    pub tunnels: Vec<String>,
}

/// Shape of the part of a valve line left of the semicolon: `w1` and `w2`
/// delimit the valve name (the second whitespace word) and `k` is the only
/// equals sign, followed by the flow rate.
pub open spec fn name_rate_shape(t: Seq<u8>, w1: int, w2: int, k: int) -> bool {
    &&& 0 <= w1
    &&& w1 + 1 < w2 < k < t.len()
    &&& t[w1] == 32
    &&& forall|i: int| 0 <= i < w1 ==> t[i] != 32
    &&& t[w2] == 32
    &&& forall|i: int| w1 < i < w2 ==> t[i] != 32
    &&& t[k] == 61
    &&& forall|i: int| 0 <= i < t.len() && i != k ==> t[i] != 61
    &&& is_uint_str(t.subrange(k + 1, t.len() as int))
    &&& forall|i: int| w1 < i < w2 ==> (#[trigger] t[i]) < 128
}

/// A well-formed name-and-rate part whose rate fits in `u32`.
pub open spec fn name_rate_wf(t: Seq<u8>) -> bool {
    exists|w1: int, w2: int, k: int|
        #[trigger] name_rate_shape(t, w1, w2, k) && digits_val(t.subrange(k + 1, t.len() as int))
            <= u32::MAX
}

/// Parse the valve name (the line's second word) and the flow rate (the
/// number after the equals sign).
pub fn parse_name_and_rate(s: &str) -> (r: (String, u32))
    requires
        name_rate_wf(s.spec_bytes()),
    ensures
        forall|w1: int, w2: int, k: int| #[trigger]
            name_rate_shape(s.spec_bytes(), w1, w2, k) ==> vstd::utf8::encode_utf8(r.0@)
                == s.spec_bytes().subrange(w1 + 1, w2) && r.1 == digits_val(
                s.spec_bytes().subrange(k + 1, s.spec_bytes().len() as int),
            ),
{
    let bytes = s.as_bytes();
    let n = bytes.len();
    let ghost t = s.spec_bytes();
    proof {
        let (w1, w2, k) = choose|w1: int, w2: int, k: int| #[trigger] name_rate_shape(t, w1, w2, k);
        assert(t[w1] == 32);
    }
    let p1 = match find_byte(bytes, 0, 32) {
        Some(p) => p,
        None => {
            proof {
                let (w1, w2, k) = choose|w1: int, w2: int, k: int|
                    #[trigger] name_rate_shape(t, w1, w2, k);
                assert(t[w1] == 32);
            }
            unreached()
        },
    };
    proof {
        assert forall|w1: int, w2: int, k: int|
            #[trigger] name_rate_shape(t, w1, w2, k) implies w1 == p1 by {
            if w1 < p1 {
                assert(t[w1] == 32);
            } else if p1 < w1 {
                assert(t[p1 as int] != 32);
            }
        }
        let (w1, w2, k) = choose|w1: int, w2: int, k: int| #[trigger] name_rate_shape(t, w1, w2, k);
        assert(w1 == p1 && p1 + 1 < t.len() && t[w2] == 32);
    }
    let p2 = match find_byte(bytes, p1 + 1, 32) {
        Some(p) => p,
        None => {
            proof {
                let (w1, w2, k) = choose|w1: int, w2: int, k: int|
                    #[trigger] name_rate_shape(t, w1, w2, k);
                assert(t[w2] == 32);
            }
            unreached()
        },
    };
    proof {
        assert forall|w1: int, w2: int, k: int|
            #[trigger] name_rate_shape(t, w1, w2, k) implies w2 == p2 by {
            if w2 < p2 {
                assert(t[w2] == 32);
            } else if p2 < w2 {
                if p2 > w1 {
                    assert(t[p2 as int] != 32);
                }
            }
        }
    }
    let ke = match find_byte(bytes, 0, 61) {
        Some(p) => p,
        None => {
            proof {
                let (w1, w2, k) = choose|w1: int, w2: int, k: int|
                    #[trigger] name_rate_shape(t, w1, w2, k);
                assert(t[k] == 61);
            }
            unreached()
        },
    };
    proof {
        assert forall|w1: int, w2: int, k: int|
            #[trigger] name_rate_shape(t, w1, w2, k) implies k == ke by {
            if k != ke {
                assert(t[ke as int] != 61);
            }
        }
        let (w1, w2, k) = choose|w1: int, w2: int, k: int|
            #[trigger] name_rate_shape(t, w1, w2, k) && digits_val(
                t.subrange(k + 1, t.len() as int),
            ) <= u32::MAX;
        assert(w1 == p1 && w2 == p2 && k == ke);
        // the name's bytes are plain ASCII, so the byte positions are
        // character boundaries and byte indices equal character indices
        vstd::string::is_ascii_spec_bytes(s);
    }
    let rate = match parse_u64_range(bytes, ke + 1, n) {
        Some(v) => v,
        None => unreached(),
    };
    let name = extract_word(s, p1 + 1, p2);
    (name, rate as u32)
}

/// Relies on `str::get` by byte range and `str::to_string`: copies the byte
/// range `[from, to)` of `s` into an owned string.  The range holds only
/// ASCII bytes, so it is a valid substring and its characters are exactly
/// those bytes.
#[verifier::external_body]
fn extract_word(s: &str, from: usize, to: usize) -> (r: String)
    requires
        0 <= from <= to <= s.spec_bytes().len(),
        forall|i: int| from <= i < to ==> (#[trigger] s.spec_bytes()[i]) < 128,
        to < s.spec_bytes().len() ==> s.spec_bytes()[to as int] < 128,
    ensures
        vstd::utf8::encode_utf8(r@) == s.spec_bytes().subrange(from as int, to as int),
{
    match s.get(from..to) {
        Some(w) => w.to_string(),
        None => String::new(),
    }
}

/// Parse the tunnel list after `valves`: comma-separated names, where the
/// first piece still carries the descriptive prefix and only its last two
/// characters name a valve.
pub fn parse_tunnels(s: &str) -> (r: Vec<String>)
    requires
        s@.len() >= 2,
    ensures
        r@.len() >= 1,
        r@[0]@.len() == 2,
{
    let n = s.unicode_len();
    let mut pieces: Vec<String> = Vec::new();
    let mut start: usize = 0;
    let mut i: usize = 0;
    while i < n
        invariant
            start <= i <= n,
            n == s@.len(),
        decreases n - i,
    {
        if i + 1 < n && s.get_char(i) == ',' && s.get_char(i + 1) == ' ' {
            pieces.push(s.substring_char(start, i).to_owned());
            start = i + 2;
            i = i + 2;
        } else {
            i = i + 1;
        }
    }
    if start <= n {
        pieces.push(s.substring_char(start, n).to_owned());
    }
    // the first piece holds the prose prefix; keep only its final two
    // characters, which name the first tunnel
    let first = match pieces.get(0) {
        Some(f) => f,
        None => unreached(),
    };
    let fs = first.as_str();
    let fl = fs.unicode_len();
    let fixed = if fl >= 2 {
        fs.substring_char(fl - 2, fl).to_owned()
    } else {
        s.substring_char(n - 2, n).to_owned()
    };
    let mut out: Vec<String> = Vec::new();
    out.push(fixed);
    let mut j: usize = 1;
    while j < pieces.len()
        invariant
            1 <= j <= pieces@.len(),
            out@.len() == j,
            out@[0]@.len() == 2,
        decreases pieces@.len() - j,
    {
        let p = pieces[j].clone();
        out.push(p);
        j = j + 1;
    }
    out
}

/// All-pairs shortest tunnel distances by relaxation: entry `[i][j]` is at
/// most one more than any `[i][k]`-then-`[k][j]` path found, with direct
/// tunnels as distance one.  Unreachable pairs stay `u32::MAX`.
pub fn calculate_distances(inputs: &Vec<Input>, index: &Vec<Vec<usize>>) -> (r: Vec<Vec<u32>>)
    requires
        index@.len() == inputs@.len(),
        forall|i: int|
            0 <= i < index@.len() ==> forall|j: int|
                0 <= j < (#[trigger] index@[i])@.len() ==> (#[trigger] index@[i]@[j])
                    < inputs@.len(),
    ensures
        r@.len() == inputs@.len(),
        forall|i: int| 0 <= i < r@.len() ==> (#[trigger] r@[i])@.len() == inputs@.len(),
        forall|a: int|
            0 <= a < inputs@.len() && (#[trigger] index@[a])@.len() > 0 ==> r@[a]@[a] == 0,
        forall|a: int, t: int|
            0 <= a < inputs@.len() && 0 <= t < (#[trigger] index@[a])@.len() ==> r@[a]@[(
            #[trigger] index@[a]@[t]) as int] <= 1,
{
    let n = inputs.len();
    let mut distances: Vec<Vec<u32>> = Vec::new();
    let mut i: usize = 0;
    while i < n
        invariant
            i <= n,
            distances@.len() == i,
            forall|a: int| 0 <= a < i ==> (#[trigger] distances@[a])@.len() == n,
        decreases n - i,
    {
        let mut row: Vec<u32> = Vec::new();
        let mut j: usize = 0;
        while j < n
            invariant
                j <= n,
                row@.len() == j,
            decreases n - j,
        {
            row.push(u32::MAX);
            j = j + 1;
        }
        distances.push(row);
        i = i + 1;
    }
    let mut a: usize = 0;
    while a < n
        invariant
            a <= n,
            n == inputs@.len(),
            index@.len() == n,
            distances@.len() == n,
            forall|x: int| 0 <= x < n ==> (#[trigger] distances@[x])@.len() == n,
            forall|x: int|
                0 <= x < n ==> forall|y: int|
                    0 <= y < (#[trigger] index@[x])@.len() ==> (#[trigger] index@[x]@[y]) < n,
            forall|x: int|
                0 <= x < a && (#[trigger] index@[x])@.len() > 0 ==> distances@[x]@[x] == 0,
            forall|x: int, t: int|
                0 <= x < a && 0 <= t < (#[trigger] index@[x])@.len() ==> distances@[x]@[(
                #[trigger] index@[x]@[t]) as int] <= 1,
        decreases n - a,
    {
        let deg = index[a].len();
        let mut ti: usize = 0;
        while ti < deg
            invariant
                ti <= deg,
                a < n,
                deg == index@[a as int]@.len(),
                n == inputs@.len(),
                index@.len() == n,
                distances@.len() == n,
                forall|x: int| 0 <= x < n ==> (#[trigger] distances@[x])@.len() == n,
                forall|x: int|
                    0 <= x < n ==> forall|y: int|
                        0 <= y < (#[trigger] index@[x])@.len() ==> (#[trigger] index@[x]@[y]) < n,
                forall|x: int|
                    0 <= x < a && (#[trigger] index@[x])@.len() > 0 ==> distances@[x]@[x] == 0,
                forall|x: int, t: int|
                    0 <= x < a && 0 <= t < (#[trigger] index@[x])@.len() ==> distances@[x]@[(
                    #[trigger] index@[x]@[t]) as int] <= 1,
                ti > 0 ==> distances@[a as int]@[a as int] == 0,
                forall|t: int|
                    0 <= t < ti ==> distances@[a as int]@[(#[trigger] index@[a as int]@[t]) as int]
                        <= 1,
            decreases deg - ti,
        {
            let tgt = index[a][ti];
            let mut row = vec_row_set(&distances, a, tgt, 1);
            distances = row;
            let row2 = vec_row_set(&distances, a, a, 0);
            distances = row2;
            ti = ti + 1;
        }
        a = a + 1;
    }
    let ghost d0 = distances@;
    let mut k: usize = 0;
    while k < n
        invariant
            k <= n,
            distances@.len() == n,
            d0.len() == n,
            forall|x: int| 0 <= x < n ==> (#[trigger] distances@[x])@.len() == n,
            forall|x: int| 0 <= x < n ==> (#[trigger] d0[x])@.len() == n,
            forall|x: int, y: int|
                0 <= x < n && 0 <= y < n ==> (#[trigger] distances@[x]@[y]) <= d0[x]@[y],
        decreases n - k,
    {
        let mut i2: usize = 0;
        while i2 < n
            invariant
                i2 <= n,
                k < n,
                distances@.len() == n,
                d0.len() == n,
                forall|x: int| 0 <= x < n ==> (#[trigger] distances@[x])@.len() == n,
                forall|x: int| 0 <= x < n ==> (#[trigger] d0[x])@.len() == n,
                forall|x: int, y: int|
                    0 <= x < n && 0 <= y < n ==> (#[trigger] distances@[x]@[y]) <= d0[x]@[y],
            decreases n - i2,
        {
            let mut j2: usize = 0;
            while j2 < n
                invariant
                    j2 <= n,
                    k < n,
                    i2 < n,
                    distances@.len() == n,
                    d0.len() == n,
                    forall|x: int| 0 <= x < n ==> (#[trigger] distances@[x])@.len() == n,
                    forall|x: int| 0 <= x < n ==> (#[trigger] d0[x])@.len() == n,
                    forall|x: int, y: int|
                        0 <= x < n && 0 <= y < n ==> (#[trigger] distances@[x]@[y]) <= d0[x]@[y],
                decreases n - j2,
            {
                let dik = distances[i2][k];
                let dkj = distances[k][j2];
                let new_dist = if dik <= u32::MAX - dkj {
                    dik + dkj
                } else {
                    u32::MAX
                };
                if distances[i2][j2] > new_dist {
                    let upd = vec_row_set(&distances, i2, j2, new_dist);
                    distances = upd;
                }
                j2 = j2 + 1;
            }
            i2 = i2 + 1;
        }
        k = k + 1;
    }
    distances
}

/// The table with entry `[i][j]` set to `v` and everything else unchanged.
fn vec_row_set(table: &Vec<Vec<u32>>, i: usize, j: usize, v: u32) -> (r: Vec<Vec<u32>>)
    requires
        i < table@.len(),
        j < table@[i as int]@.len(),
    ensures
        r@.len() == table@.len(),
        forall|x: int| 0 <= x < table@.len() ==> (#[trigger] r@[x])@.len() == table@[x]@.len(),
        forall|x: int, y: int|
            0 <= x < table@.len() && 0 <= y < table@[x]@.len() && (x != i || y != j)
                ==> (#[trigger] r@[x]@[y]) == table@[x]@[y],
        r@[i as int]@[j as int] == v,
{
    let mut out: Vec<Vec<u32>> = Vec::new();
    let mut x: usize = 0;
    while x < table.len()
        invariant
            x <= table@.len(),
            i < table@.len(),
            j < table@[i as int]@.len(),
            out@.len() == x,
            forall|a: int| 0 <= a < x ==> (#[trigger] out@[a])@.len() == table@[a]@.len(),
            forall|a: int, b: int|
                0 <= a < x && 0 <= b < table@[a]@.len() && (a != i || b != j)
                    ==> (#[trigger] out@[a]@[b]) == table@[a]@[b],
            forall|a: int| 0 <= a < x && a == i && j < table@[a]@.len() ==> (#[trigger] out@[a])@[j as int] == v,
        decreases table@.len() - x,
    {
        let src = &table[x];
        let mut row: Vec<u32> = Vec::new();
        let mut y: usize = 0;
        while y < src.len()
            invariant
                y <= src@.len(),
                x < table@.len(),
                src@ == table@[x as int]@,
                row@.len() == y,
                forall|b: int|
                    0 <= b < y && ((x as int) != i || b != j) ==> (#[trigger] row@[b])
                        == src@[b],
                forall|b: int| 0 <= b < y && (x as int) == i && b == j ==> (#[trigger] row@[b]) == v,
            decreases src@.len() - y,
        {
            if x == i && y == j {
                row.push(v);
            } else {
                row.push(src[y]);
            }
            y = y + 1;
        }
        out.push(row);
        x = x + 1;
    }
    out
}

/// How many entries of the mask are set.
pub open spec fn cnt(s: Seq<bool>) -> nat
    decreases s.len(),
{
    if s.len() == 0 {
        0
    } else {
        (cnt(s.drop_last()) + (if s.last() {
            1int
        } else {
            0int
        })) as nat
    }
}

/// Keep only the rows, columns and rates of valves worth visiting, marked
/// by `keep`: the result is one rate per kept valve and the square distance
/// table restricted to kept rows and columns.
pub fn prepare_search(inputs: &Vec<Input>, distances: &Vec<Vec<u32>>, keep: &Vec<bool>) -> (r: (
    Vec<u32>,
    Vec<Vec<u32>>,
))
    requires
        keep@.len() == inputs@.len(),
        distances@.len() == inputs@.len(),
        forall|i: int| 0 <= i < distances@.len() ==> (#[trigger] distances@[i])@.len()
            == inputs@.len(),
    ensures
        r.0@.len() == cnt(keep@),
        r.1@.len() == cnt(keep@),
        forall|i: int| 0 <= i < r.1@.len() ==> (#[trigger] r.1@[i])@.len() == cnt(keep@),
{
    let n = inputs.len();
    let mut rates: Vec<u32> = Vec::new();
    let mut rows: Vec<Vec<u32>> = Vec::new();
    let mut i: usize = 0;
    while i < n
        invariant
            i <= n,
            n == inputs@.len(),
            keep@.len() == n,
            distances@.len() == n,
            forall|x: int| 0 <= x < n ==> (#[trigger] distances@[x])@.len() == n,
            rates@.len() == cnt(keep@.take(i as int)),
            rows@.len() == cnt(keep@.take(i as int)),
            forall|x: int| 0 <= x < rows@.len() ==> (#[trigger] rows@[x])@.len() == cnt(keep@),
        decreases n - i,
    {
        proof {
            assert(keep@.take(i + 1).drop_last() =~= keep@.take(i as int));
            assert(keep@.take(i + 1).last() == keep@[i as int]);
        }
        if keep[i] {
            let rate = inputs[i].rate;
            let mut row: Vec<u32> = Vec::new();
            let mut j: usize = 0;
            while j < n
                invariant
                    j <= n,
                    i < n,
                    n == inputs@.len(),
                    keep@.len() == n,
                    distances@.len() == n,
                    forall|x: int| 0 <= x < n ==> (#[trigger] distances@[x])@.len() == n,
                    row@.len() == cnt(keep@.take(j as int)),
                decreases n - j,
            {
                proof {
                    assert(keep@.take(j + 1).drop_last() =~= keep@.take(j as int));
                    assert(keep@.take(j + 1).last() == keep@[j as int]);
                }
                if keep[j] {
                    row.push(distances[i][j]);
                }
                j = j + 1;
            }
            proof {
                assert(keep@.take(n as int) =~= keep@);
            }
            rates.push(rate);
            rows.push(row);
        }
        i = i + 1;
    }
    proof {
        assert(keep@.take(n as int) =~= keep@);
    }
    (rates, rows)
}

} // verus!
