//! Sensor and beacon geometry: parsing `x=..., y=...` coordinate pairs,
//! Manhattan distance, interval merging and counting, and the boundary ring
//! of a sensor's exclusion diamond.

use vstd::prelude::*;
use vstd::string::StringSliceAdditionalSpecFns;
use crate::parse::{is_int_str, int_val, find_byte, parse_i64_range};

verus! {

/// `k` is the position of the only equals sign, and a decimal integer
/// follows it.
pub open spec fn eq_shape(t: Seq<u8>, k: int) -> bool {
    &&& 0 <= k < t.len()
    &&& t[k] == 61
    &&& forall|i: int| 0 <= i < t.len() && i != k ==> t[i] != 61
    &&& is_int_str(t.subrange(k + 1, t.len() as int))
}

/// A string of the form `name=number` whose number fits in `i32`.
pub open spec fn number_after_equals_wf(t: Seq<u8>) -> bool {
    exists|k: int|
        #[trigger] eq_shape(t, k) && i32::MIN <= int_val(t.subrange(k + 1, t.len() as int))
            <= i32::MAX
}

/// Parse the number after the single equals sign of the string.
pub fn parse_number_after_equals(s: &str) -> (r: i32)
    requires
        number_after_equals_wf(s.spec_bytes()),
    ensures
        forall|k: int| #[trigger]
            eq_shape(s.spec_bytes(), k) ==> r == int_val(
                s.spec_bytes().subrange(k + 1, s.spec_bytes().len() as int),
            ),
{
    let bytes = s.as_bytes();
    let n = bytes.len();
    let ghost t = s.spec_bytes();
    proof {
        let k = choose|k: int| #[trigger] eq_shape(t, k);
        assert(t[k] == 61);
    }
    let k0 = match find_byte(bytes, 0, 61) {
        Some(k0) => k0,
        None => {
            proof {
                let k = choose|k: int| #[trigger] eq_shape(t, k);
                assert(t[k] == 61);
            }
            unreached()
        },
    };
    proof {
        assert forall|k: int| #[trigger] eq_shape(t, k) implies k == k0 by {
            if k != k0 {
                assert(t[k0 as int] != 61);
            }
        }
        let k = choose|k: int|
            #[trigger] eq_shape(t, k) && i32::MIN <= int_val(t.subrange(k + 1, t.len() as int))
                <= i32::MAX;
        assert(k == k0);
    }
    let v = match parse_i64_range(bytes, k0 + 1, n) {
        Some(v) => v,
        None => unreached(),
    };
    v as i32
}

/// `m` is the position of the only comma, a space follows it, and both
/// sides carry a well-formed `name=number` field.
pub open spec fn coords_shape(t: Seq<u8>, m: int) -> bool {
    &&& 0 <= m
    &&& m + 1 < t.len()
    &&& t[m] == 44
    &&& t[m + 1] == 32
    &&& forall|i: int| 0 <= i < t.len() && i != m ==> t[i] != 44
    &&& number_after_equals_wf(t.subrange(0, m))
    &&& number_after_equals_wf(t.subrange(m + 2, t.len() as int))
}

/// The two numbers of a `x=..., y=...` string split at comma position `m`.
pub open spec fn coords_vals(t: Seq<u8>, m: int) -> (int, int) {
    let left = t.subrange(0, m);
    let right = t.subrange(m + 2, t.len() as int);
    let k1 = choose|k: int| #[trigger] eq_shape(left, k);
    let k2 = choose|k: int| #[trigger] eq_shape(right, k);
    (
        int_val(left.subrange(k1 + 1, left.len() as int)),
        int_val(right.subrange(k2 + 1, right.len() as int)),
    )
}

/// Parse a `x=..., y=...` pair of coordinates.
pub fn parse_coordinates(s: &str) -> (r: (i32, i32))
    requires
        exists|m: int| #[trigger] coords_shape(s.spec_bytes(), m),
    ensures
        forall|m: int| #[trigger]
            coords_shape(s.spec_bytes(), m) ==> (r.0 as int, r.1 as int) == coords_vals(
                s.spec_bytes(),
                m,
            ),
{
    let bytes = s.as_bytes();
    let n = bytes.len();
    let ghost t = s.spec_bytes();
    proof {
        let m = choose|m: int| #[trigger] coords_shape(t, m);
        assert(t[m] == 44);
    }
    let m0 = match find_byte(bytes, 0, 44) {
        Some(m0) => m0,
        None => {
            proof {
                let m = choose|m: int| #[trigger] coords_shape(t, m);
                assert(t[m] == 44);
            }
            unreached()
        },
    };
    proof {
        assert forall|m: int| #[trigger] coords_shape(t, m) implies m == m0 by {
            if m != m0 {
                assert(t[m0 as int] != 44);
            }
        }
        let m = choose|m: int| #[trigger] coords_shape(t, m);
        assert(m == m0 && m0 + 2 <= t.len());
    }
    let ghost left = t.subrange(0, m0 as int);
    let ghost right = t.subrange(m0 + 2, t.len() as int);
    // scan the two halves for their equals signs
    proof {
        let k = choose|k: int| #[trigger] eq_shape(left, k);
        assert(left[k] == 61 && t[k] == 61);
    }
    let k1 = match find_byte(bytes, 0, 61) {
        Some(k1) => k1,
        None => {
            proof {
                let k = choose|k: int| #[trigger] eq_shape(left, k);
                assert(t[k] == 61);
            }
            unreached()
        },
    };
    proof {
        assert forall|k: int| #[trigger] eq_shape(left, k) implies k == k1 by {
            if k1 < k {
                assert(left[k1 as int] != 61);
            } else if k < k1 {
                assert(t[k] == 61);
            }
        }
        let k = choose|k: int| #[trigger] eq_shape(left, k);
        assert(k == k1 && k1 < m0);
    }
    let v1 = match parse_i64_range(bytes, k1 + 1, m0) {
        Some(v) => v,
        None => {
            proof {
                let k = choose|k: int|
                    #[trigger] eq_shape(left, k) && i32::MIN <= int_val(
                        left.subrange(k + 1, left.len() as int),
                    ) <= i32::MAX;
                assert(left.subrange(k1 + 1, left.len() as int) =~= t.subrange(k1 + 1, m0 as int));
            }
            unreached()
        },
    };
    proof {
        let k = choose|k: int|
            #[trigger] eq_shape(left, k) && i32::MIN <= int_val(
                left.subrange(k + 1, left.len() as int),
            ) <= i32::MAX;
        assert(left.subrange(k1 + 1, left.len() as int) =~= t.subrange(k1 + 1, m0 as int));
    }
    proof {
        let k = choose|k: int| #[trigger] eq_shape(right, k);
        assert(right[k] == 61 && t[m0 + 2 + k] == 61);
    }
    let k2 = match find_byte(bytes, m0 + 2, 61) {
        Some(k2) => k2,
        None => {
            proof {
                let k = choose|k: int| #[trigger] eq_shape(right, k);
                assert(t[m0 + 2 + k] == 61);
            }
            unreached()
        },
    };
    proof {
        assert forall|k: int| #[trigger] eq_shape(right, k) implies k == k2 - m0 - 2 by {
            if m0 + 2 + k < k2 {
                assert(t[m0 + 2 + k] == 61);
            } else if k2 < m0 + 2 + k {
                assert(right[k2 - m0 - 2] != 61);
            }
        }
        let k = choose|k: int|
            #[trigger] eq_shape(right, k) && i32::MIN <= int_val(
                right.subrange(k + 1, right.len() as int),
            ) <= i32::MAX;
        assert(k == k2 - m0 - 2);
        assert(right.subrange(k + 1, right.len() as int) =~= t.subrange(k2 + 1, t.len() as int));
    }
    let v2 = match parse_i64_range(bytes, k2 + 1, n) {
        Some(v) => v,
        None => unreached(),
    };
    (v1 as i32, v2 as i32)
}

pub open spec fn abs_i(x: int) -> int {
    if x >= 0 {
        x
    } else {
        -x
    }
}

/// The Manhattan distance of two points.
pub open spec fn spec_manhattan(a: (i32, i32), b: (i32, i32)) -> int {
    abs_i(b.0 - a.0) + abs_i(b.1 - a.1)
}

/// Manhattan distance: the sum of the coordinate gaps.
pub fn manhattan(a: &(i32, i32), b: &(i32, i32)) -> (r: i32)
    requires
        abs_i(b.0 - a.0) <= i32::MAX,
        abs_i(b.1 - a.1) <= i32::MAX,
        spec_manhattan(*a, *b) <= i32::MAX,
    ensures
        r == spec_manhattan(*a, *b),
{
    let dx = if b.0 >= a.0 {
        b.0 - a.0
    } else {
        a.0 - b.0
    };
    let dy = if b.1 >= a.1 {
        b.1 - a.1
    } else {
        a.1 - b.1
    };
    dx + dy
}

/// How two sorted-by-start intervals merge: none when they are disjoint,
/// otherwise the union.
pub open spec fn spec_merge(a: (i32, i32), b: (i32, i32)) -> Option<(i32, i32)> {
    if a.1 < b.0 {
        None
    } else if a.1 >= b.1 {
        Some(a)
    } else {
        Some((a.0, b.1))
    }
}

/// Merge interval `b` into `a`; `a` must start at or before `b`.  Returns
/// `None` when they do not touch.
pub fn merge_two(a: &(i32, i32), b: &(i32, i32)) -> (r: Option<(i32, i32)>)
    ensures
        r == spec_merge(*a, *b),
{
    if a.1 < b.0 {
        None
    } else if a.1 >= b.1 {
        Some((a.0, a.1))
    } else {
        Some((a.0, b.1))
    }
}

/// Relies on `itertools::Itertools::unique`: it drops duplicate elements,
/// keeping one occurrence of each, so the result has no duplicates and holds
/// exactly the elements of the input.
#[verifier::external_body]
fn unique_pairs(v: Vec<(i32, i32)>) -> (r: Vec<(i32, i32)>)
    ensures
        r@.no_duplicates(),
        forall|p: (i32, i32)| r@.contains(p) <==> v@.contains(p),
{
    itertools::Itertools::unique(v.into_iter()).collect()
}

/// `p` lies on the ring of Manhattan radius `rad` around `c`.
pub open spec fn on_boundary(c: (i32, i32), rad: int, p: (i32, i32)) -> bool {
    exists|i: int|
        #![trigger abs_i(i)]
        -rad <= i <= rad && p.1 == c.1 + i && (p.0 == c.0 - (rad - abs_i(i)) || p.0 == c.0 + (rad
            - abs_i(i)))
}

/// All points at Manhattan distance exactly `r` from `c`, without
/// duplicates.
pub fn boundary(c: (i32, i32), r: i32) -> (out: Vec<(i32, i32)>)
    requires
        0 <= r < i32::MAX,
        i32::MIN <= c.0 - r,
        c.0 + r <= i32::MAX,
        i32::MIN <= c.1 - r,
        c.1 + r <= i32::MAX,
    ensures
        out@.no_duplicates(),
        forall|p: (i32, i32)| out@.contains(p) <==> on_boundary(c, r as int, p),
{
    let (x, y) = c;
    let mut v: Vec<(i32, i32)> = Vec::new();
    let mut i: i32 = -r;
    while i <= r
        invariant
            0 <= r < i32::MAX,
            -r <= i <= r + 1,
            i32::MIN <= x - r,
            x + r <= i32::MAX,
            i32::MIN <= y - r,
            y + r <= i32::MAX,
            forall|p: (i32, i32)| #[trigger] v@.contains(p) ==> on_boundary((x, y), r as int, p),
            forall|j: int|
                -r <= j < i ==> v@.contains(((x - (r - abs_i(j))) as i32, (y + j) as i32))
                    && v@.contains(((x + (r - abs_i(j))) as i32, (y + j) as i32)),
        decreases r - i + 1,
    {
        let a = if i >= 0 {
            i
        } else {
            -i
        };
        let left = (x - (r - a), y + i);
        let right = (x + (r - a), y + i);
        let ghost v0 = v@;
        v.push(left);
        v.push(right);
        proof {
            broadcast use vstd::seq_lib::lemma_seq_contains_after_push;

            assert(abs_i(i as int) == a);
            assert(v@ =~= v0.push(left).push(right));
            assert(v@.contains(left) && v@.contains(right));
            assert(left == ((x - (r - abs_i(i as int))) as i32, (y + i) as i32));
            assert(right == ((x + (r - abs_i(i as int))) as i32, (y + i) as i32));
            assert(on_boundary((x, y), r as int, left));
            assert(on_boundary((x, y), r as int, right));
            assert(forall|p: (i32, i32)| #[trigger] v0.contains(p) ==> v@.contains(p));
        }
        i = i + 1;
    }
    let out = unique_pairs(v);
    proof {
        assert forall|p: (i32, i32)| out@.contains(p) <==> on_boundary(
            (x, y),
            r as int,
            p,
        ) by {
            broadcast use vstd::seq_lib::lemma_seq_contains_after_push;

            if on_boundary((x, y), r as int, p) {
                let j = choose|j: int|
                    #![trigger abs_i(j)]
                    -r <= j <= r && p.1 == y + j && (p.0 == x - (r - abs_i(j)) || p.0 == x + (r
                        - abs_i(j)));
                assert(v@.contains(((x - (r - abs_i(j))) as i32, (y + j) as i32)) && v@.contains(
                    ((x + (r - abs_i(j))) as i32, (y + j) as i32),
                ));
            }
        }
    }
    out
}

/// The number of integer points an inclusive interval holds.
pub fn point_count(p: &(i32, i32)) -> (r: u32)
    requires
        abs_i(p.1 - p.0) < u32::MAX,
    ensures
        r == abs_i(p.1 - p.0) + 1,
{
    let (x, y) = *p;
    let d: i64 = if y >= x {
        (y as i64) - (x as i64)
    } else {
        (x as i64) - (y as i64)
    };
    (d as u32) + 1
}

} // verus!
