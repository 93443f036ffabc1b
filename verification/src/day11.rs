//! Monkey-business parsing: the worry-update operation and the number at
//! the end of a line.

use vstd::prelude::*;
use vstd::string::StringSliceAdditionalSpecFns;
use crate::parse::{is_uint_str, digits_val, find_byte, parse_u64_range};

verus! {

/// The worry-update rule of one monkey: multiply or add a constant, or use
/// the old value itself as the operand.
#[derive(Clone, Copy, Debug, PartialEq, Eq, Structural)]
pub enum Operation {
    MulConst(i32),
    AddConst(i32),
    Square,
    Double,
}

/// The updated worry level.
pub open spec fn spec_apply(op: Operation, x: int) -> int {
    match op {
        Operation::MulConst(c) => x * c,
        Operation::AddConst(c) => x + c,
        Operation::Square => x * x,
        Operation::Double => x + x,
    }
}

impl Operation {
    /// Apply the operation to a worry level.
    pub fn apply(self, x: i32) -> (r: i32)
        requires
            i32::MIN <= spec_apply(self, x as int) <= i32::MAX,
        ensures
            r == spec_apply(self, x as int),
    {
        match self {
            Operation::MulConst(c) => x * c,
            Operation::AddConst(c) => x + c,
            Operation::Square => x * x,
            Operation::Double => x + x,
        }
    }
}

/// Shape of an operation string `old <op> <rhs>`: `w` is the first space,
/// the operator is one `*` or `+` character, a second space follows, and
/// the rest has no further space.
pub open spec fn op_shape(t: Seq<u8>, w: int) -> bool {
    &&& 0 <= w
    &&& w + 2 < t.len()
    &&& t[w] == 32
    &&& forall|i: int| 0 <= i < w ==> t[i] != 32
    &&& (t[w + 1] == 42 || t[w + 1] == 43)
    &&& t[w + 2] == 32
    &&& forall|i: int| w + 2 < i < t.len() ==> t[i] != 32
}

/// The operand part (everything after the second space).
pub open spec fn op_rhs(t: Seq<u8>, w: int) -> Seq<u8> {
    t.subrange(w + 3, t.len() as int)
}

/// A well-formed operation string whose constant operand, if numeric, fits
/// in `i32`.
pub open spec fn op_wf(t: Seq<u8>) -> bool {
    exists|w: int|
        #[trigger] op_shape(t, w) && (is_uint_str(op_rhs(t, w)) ==> digits_val(op_rhs(t, w))
            <= i32::MAX)
}

/// Parse a worry-update rule `old * n`, `old + n`, `old * old` or
/// `old + old`: a numeric operand gives the constant forms, anything else
/// the self-referring forms.
pub fn parse_operation(s: &str) -> (r: Operation)
    requires
        op_wf(s.spec_bytes()),
    ensures
        forall|w: int| #[trigger]
            op_shape(s.spec_bytes(), w) ==> r == (if is_uint_str(op_rhs(s.spec_bytes(), w)) {
                if s.spec_bytes()[w + 1] == 42 {
                    Operation::MulConst(digits_val(op_rhs(s.spec_bytes(), w)) as i32)
                } else {
                    Operation::AddConst(digits_val(op_rhs(s.spec_bytes(), w)) as i32)
                }
            } else {
                if s.spec_bytes()[w + 1] == 42 {
                    Operation::Square
                } else {
                    Operation::Double
                }
            }),
{
    let bytes = s.as_bytes();
    let n = bytes.len();
    let ghost t = s.spec_bytes();
    proof {
        let w = choose|w: int| #[trigger] op_shape(t, w);
        assert(t[w] == 32);
    }
    let w0 = match find_byte(bytes, 0, 32) {
        Some(w0) => w0,
        None => {
            proof {
                let w = choose|w: int| #[trigger] op_shape(t, w);
                assert(t[w] == 32);
            }
            unreached()
        },
    };
    proof {
        assert forall|w: int| #[trigger] op_shape(t, w) implies w == w0 by {
            if w < w0 {
                assert(t[w] == 32);
            } else if w0 < w {
                assert(t[w0 as int] != 32);
            }
        }
        let w = choose|w: int| #[trigger] op_shape(t, w);
        assert(w == w0 && w0 + 3 <= t.len());
    }
    let op_byte = bytes[w0 + 1];
    let num = parse_u64_range(bytes, w0 + 3, n);
    proof {
        let w = choose|w: int|
            #[trigger] op_shape(t, w) && (is_uint_str(op_rhs(t, w)) ==> digits_val(op_rhs(t, w))
                <= i32::MAX);
        assert(w == w0);
        assert(op_rhs(t, w0 as int) =~= t.subrange(w0 + 3, t.len() as int));
    }
    match num {
        Some(v) => {
            if op_byte == 42 {
                Operation::MulConst(v as i32)
            } else {
                Operation::AddConst(v as i32)
            }
        },
        None => {
            proof {
                // the operand can only fail to parse by not being numeric:
                // a numeric operand fits `i32` by the requires
                let w = choose|w: int|
                    #[trigger] op_shape(t, w) && (is_uint_str(op_rhs(t, w)) ==> digits_val(
                        op_rhs(t, w),
                    ) <= i32::MAX);
            }
            if op_byte == 42 {
                Operation::Square
            } else {
                Operation::Double
            }
        },
    }
}

/// `k` is the last space of the line and an unsigned number follows it.
pub open spec fn tail_num_shape(t: Seq<u8>, k: int) -> bool {
    &&& 0 <= k < t.len()
    &&& t[k] == 32
    &&& forall|i: int| k < i < t.len() ==> t[i] != 32
    &&& is_uint_str(t.subrange(k + 1, t.len() as int))
}

/// A line ending in a number that fits in `usize`.
pub open spec fn tail_num_wf(t: Seq<u8>) -> bool {
    exists|k: int|
        #[trigger] tail_num_shape(t, k) && digits_val(t.subrange(k + 1, t.len() as int))
            <= usize::MAX
}

/// Parse the number that ends the line (its last whitespace-separated
/// part).
pub fn parse_usize_from_end_of_line(s: &str) -> (r: usize)
    requires
        tail_num_wf(s.spec_bytes()),
    ensures
        forall|k: int| #[trigger]
            tail_num_shape(s.spec_bytes(), k) ==> r == digits_val(
                s.spec_bytes().subrange(k + 1, s.spec_bytes().len() as int),
            ),
{
    let bytes = s.as_bytes();
    let n = bytes.len();
    let ghost t = s.spec_bytes();
    proof {
        let k = choose|k: int| #[trigger] tail_num_shape(t, k);
        assert(t[k] == 32 && t.len() >= 1);
    }
    // scan backwards for the last space
    let mut i: usize = n;
    while i > 0
        invariant
            i <= n,
            n == t.len(),
            n == bytes@.len(),
            t == s.spec_bytes(),
            t == bytes@,
            tail_num_wf(t),
            forall|j: int| i <= j < n ==> t[j] != 32,
        decreases i,
    {
        if bytes[i - 1] == 32 {
            proof {
                assert forall|k: int| #[trigger] tail_num_shape(t, k) implies k == i - 1 by {
                    if k < i - 1 {
                        assert(t[i - 1] != 32);
                    } else if k > i - 1 {
                        assert(t[k] == 32);
                    }
                }
                let k = choose|k: int|
                    #[trigger] tail_num_shape(t, k) && digits_val(
                        t.subrange(k + 1, t.len() as int),
                    ) <= usize::MAX;
                assert(k == i - 1);
            }
            let v = match parse_u64_range(bytes, i, n) {
                Some(v) => v,
                None => unreached(),
            };
            return v as usize;
        }
        i = i - 1;
    }
    proof {
        let k = choose|k: int| #[trigger] tail_num_shape(t, k);
        assert(t[k] != 32);
    }
    unreached()
}

} // verus!
