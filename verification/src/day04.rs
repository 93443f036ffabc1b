//! Section-assignment pairs: parsing `lo-hi` ranges and testing containment
//! and overlap.

use vstd::prelude::*;
use crate::parse::{is_uint_str, digits_val, find_byte, parse_u64_range};
use vstd::string::StringSliceAdditionalSpecFns;

verus! {

/// An inclusive section range.
pub type Assignment = (i32, i32);

/// Position `k` splits `t` into two unsigned decimal numbers around a dash.
pub open spec fn is_split(t: Seq<u8>, k: int) -> bool {
    &&& 0 < k < t.len()
    &&& t[k] == 45
    &&& is_uint_str(t.subrange(0, k))
    &&& is_uint_str(t.subrange(k + 1, t.len() as int))
}

/// The string is two dash-separated numbers, both fitting in `i32`.
pub open spec fn assignment_wf(t: Seq<u8>) -> bool {
    exists|k: int|
        #[trigger] is_split(t, k) && digits_val(t.subrange(0, k)) <= i32::MAX && digits_val(
            t.subrange(k + 1, t.len() as int),
        ) <= i32::MAX
}

/// Parse `lo-hi` into the two range ends.
pub fn parse_assignment(s: &str) -> (r: Assignment)
    requires
        assignment_wf(s.spec_bytes()),
    ensures
        forall|k: int| #[trigger]
            is_split(s.spec_bytes(), k) ==> r.0 == digits_val(s.spec_bytes().subrange(0, k))
                && r.1 == digits_val(
                s.spec_bytes().subrange(k + 1, s.spec_bytes().len() as int),
            ),
{
    let bytes = s.as_bytes();
    let ghost t = s.spec_bytes();
    proof {
        let k = choose|k: int|
            #[trigger] is_split(t, k) && digits_val(t.subrange(0, k)) <= i32::MAX && digits_val(
                t.subrange(k + 1, t.len() as int),
            ) <= i32::MAX;
        assert(t[k] == 45);
    }
    let k0 = match find_byte(bytes, 0, 45) {
        Some(k0) => k0,
        None => {
            proof {
                let k = choose|k: int| #[trigger] is_split(t, k);
                assert(t[k] == 45);
            }
            unreached()
        },
    };
    proof {
        // any valid split position carries a dash, and the left part has
        // none, so the first dash is the unique split position
        assert forall|k: int| #[trigger] is_split(t, k) implies k == k0 by {
            if k < k0 {
                assert(t[k] == 45);
            } else if k0 < k {
                assert(t.subrange(0, k)[k0 as int] == 45);
                assert(crate::parse::is_digit(t.subrange(0, k)[k0 as int]));
            }
        }
        let k = choose|k: int|
            #[trigger] is_split(t, k) && digits_val(t.subrange(0, k)) <= i32::MAX && digits_val(
                t.subrange(k + 1, t.len() as int),
            ) <= i32::MAX;
        assert(k == k0);
    }
    let lo = match parse_u64_range(bytes, 0, k0) {
        Some(v) => v,
        None => unreached(),
    };
    let n = bytes.len();
    assert(k0 < n);
    let hi = match parse_u64_range(bytes, k0 + 1, n) {
        Some(v) => v,
        None => unreached(),
    };
    (lo as i32, hi as i32)
}

/// `some` lies entirely inside `other`.
pub fn is_inside(some: &Assignment, other: &Assignment) -> (r: bool)
    ensures
        r == (other.0 <= some.0 && some.1 <= other.1),
{
    let (l1, u1) = some;
    let (l2, u2) = other;
    l1 >= l2 && u1 <= u2
}

/// The two ranges share at least one section.
pub fn do_overlap(some: &Assignment, other: &Assignment) -> (r: bool)
    ensures
        r == (some.1 >= other.0 && some.0 <= other.1),
{
    let (l1, u1) = some;
    let (l2, u2) = other;
    u1 >= l2 && l1 <= u2
}

} // verus!
