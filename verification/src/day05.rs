//! Crate-stack rearrangement: parsing `move N from X to Y` lines and moving
//! the top `N` crates of one stack onto another in one grab (their order is
//! preserved).

use vstd::prelude::*;
use vstd::string::StringSliceAdditionalSpecFns;
use vstd::utf8::encode_utf8;
use crate::parse::{is_uint_str, is_digit, digits_val, find_byte, parse_u64_range};

verus! {

/// One rearrangement step: move `count` crates from 1-based stack `from` to
/// 1-based stack `to`.
#[derive(Clone, Copy, Debug, PartialEq, Eq, Structural)]
pub struct Instruction {
    pub count: i32,
    pub from: i32,
    pub to: i32,
}

/// `a` and `b` bound the three digit runs of a `move N from X to Y` line:
/// the runs are `[5, a)`, `[a + 6, b)` and `[b + 4, len)`.
pub open spec fn instr_shape(t: Seq<u8>, a: int, b: int) -> bool {
    &&& 5 < a
    &&& a + 6 < b
    &&& b + 4 < t.len()
    &&& t.subrange(0, 5) =~= seq![109u8, 111u8, 118u8, 101u8, 32u8]
    &&& is_uint_str(t.subrange(5, a))
    &&& t.subrange(a, a + 6) =~= seq![32u8, 102u8, 114u8, 111u8, 109u8, 32u8]
    &&& is_uint_str(t.subrange(a + 6, b))
    &&& t.subrange(b, b + 4) =~= seq![32u8, 116u8, 111u8, 32u8]
    &&& is_uint_str(t.subrange(b + 4, t.len() as int))
}

/// A well-formed instruction line whose three numbers fit in `i32`.
pub open spec fn instr_wf(t: Seq<u8>) -> bool {
    exists|a: int, b: int|
        #[trigger] instr_shape(t, a, b) && digits_val(t.subrange(5, a)) <= i32::MAX && digits_val(
            t.subrange(a + 6, b),
        ) <= i32::MAX && digits_val(t.subrange(b + 4, t.len() as int)) <= i32::MAX
}

/// Parse a `move N from X to Y` line.
pub fn parse_instruction(s: &String) -> (r: Instruction)
    requires
        instr_wf(encode_utf8(s@)),
    ensures
        forall|a: int, b: int| #[trigger]
            instr_shape(encode_utf8(s@), a, b) ==> r.count == digits_val(
                encode_utf8(s@).subrange(5, a),
            ) && r.from == digits_val(encode_utf8(s@).subrange(a + 6, b)) && r.to == digits_val(
                encode_utf8(s@).subrange(b + 4, encode_utf8(s@).len() as int),
            ),
{
    let bytes = s.as_str().as_bytes();
    let n = bytes.len();
    let ghost t = encode_utf8(s@);
    proof {
        assert(t.len() == n);
    }
    proof {
        let (a, b) = choose|a: int, b: int| #[trigger] instr_shape(t, a, b);
        assert(t[a] == 32);
    }
    let a0 = match find_byte(bytes, 5, 32) {
        Some(a0) => a0,
        None => {
            proof {
                let (a, b) = choose|a: int, b: int| #[trigger] instr_shape(t, a, b);
                assert(t[a] == 32);
            }
            unreached()
        },
    };
    proof {
        assert forall|a: int, b: int| #[trigger] instr_shape(t, a, b) implies a == a0 by {
            if a < a0 {
                assert(t[a] == 32);
            } else if a0 < a {
                if a0 < 5 {
                } else {
                    assert(is_digit(t.subrange(5, a)[a0 - 5]));
                }
            }
        }
        let (a, b) = choose|a: int, b: int| #[trigger] instr_shape(t, a, b);
        assert(a == a0 && a0 + 6 < t.len());
    }
    let b0 = match find_byte(bytes, a0 + 6, 32) {
        Some(b0) => b0,
        None => {
            proof {
                let (a, b) = choose|a: int, b: int| #[trigger] instr_shape(t, a, b);
                assert(t[b] == 32);
            }
            unreached()
        },
    };
    proof {
        assert forall|a: int, b: int| #[trigger] instr_shape(t, a, b) implies b == b0 by {
            if b < b0 {
                assert(t[b] == 32);
            } else if b0 < b {
                assert(is_digit(t.subrange(a + 6, b)[b0 - a - 6]));
            }
        }
        let (a, b) = choose|a: int, b: int| #[trigger] instr_shape(t, a, b);
        assert(a == a0 && b == b0 && b0 + 4 < t.len());
    }
    let count = match parse_u64_range(bytes, 5, a0) {
        Some(v) => v,
        None => unreached(),
    };
    let from = match parse_u64_range(bytes, a0 + 6, b0) {
        Some(v) => v,
        None => unreached(),
    };
    let to = match parse_u64_range(bytes, b0 + 4, n) {
        Some(v) => v,
        None => unreached(),
    };
    proof {
        let (a, b) = choose|a: int, b: int|
            #[trigger] instr_shape(t, a, b) && digits_val(t.subrange(5, a)) <= i32::MAX
                && digits_val(t.subrange(a + 6, b)) <= i32::MAX && digits_val(
                t.subrange(b + 4, t.len() as int),
            ) <= i32::MAX;
        assert(a == a0 && b == b0);
    }
    Instruction { count: count as i32, from: from as i32, to: to as i32 }
}

impl Instruction {
    /// Move the top `count` crates of stack `from` onto stack `to`, keeping
    /// their order (they are grabbed all at once).  Stacks are 1-based.
    /// Moving a stack onto itself leaves everything unchanged.
    pub fn apply(self, stacks: &mut Vec<Vec<char>>)
        requires
            1 <= self.from,
            self.from <= old(stacks)@.len(),
            1 <= self.to,
            self.to <= old(stacks)@.len(),
            0 <= self.count,
            self.count <= old(stacks)@[self.from - 1]@.len(),
        ensures
            final(stacks)@.len() == old(stacks)@.len(),
            self.from != self.to ==> {
                let src = old(stacks)@[self.from - 1]@;
                &&& final(stacks)@[self.from - 1]@ =~= src.take(src.len() - self.count)
                &&& final(stacks)@[self.to - 1]@ =~= old(stacks)@[self.to - 1]@ + src.skip(
                    src.len() - self.count,
                )
            },
            self.from == self.to ==> final(stacks)@ =~= old(stacks)@,
            forall|i: int|
                0 <= i < old(stacks)@.len() && i != self.from - 1 && i != self.to - 1
                    ==> final(stacks)@[i] == old(stacks)@[i],
    {
        let fi = (self.from - 1) as usize;
        let ti = (self.to - 1) as usize;
        if fi == ti {
            return ;
        }
        let cnt = self.count as usize;
        let ghost src0 = stacks@[fi as int]@;
        let ghost dst0 = stacks@[ti as int]@;
        let n = stacks[fi].len();
        let keep = n - cnt;
        let mut newsrc: Vec<char> = Vec::new();
        let mut i: usize = 0;
        while i < keep
            invariant
                i <= keep <= n,
                n == stacks@[fi as int]@.len(),
                fi < stacks@.len(),
                newsrc@ =~= stacks@[fi as int]@.subrange(0, i as int),
            decreases keep - i,
        {
            let c = stacks[fi][i];
            newsrc.push(c);
            i = i + 1;
        }
        let m = stacks[ti].len();
        let mut newdst: Vec<char> = Vec::new();
        let mut j: usize = 0;
        while j < m
            invariant
                j <= m,
                m == stacks@[ti as int]@.len(),
                ti < stacks@.len(),
                newdst@ =~= stacks@[ti as int]@.subrange(0, j as int),
            decreases m - j,
        {
            let c = stacks[ti][j];
            newdst.push(c);
            j = j + 1;
        }
        proof {
            assert(newdst@ =~= dst0);
        }
        let mut k: usize = keep;
        while k < n
            invariant
                keep <= k <= n,
                n == stacks@[fi as int]@.len(),
                fi < stacks@.len(),
                newdst@ =~= dst0 + stacks@[fi as int]@.subrange(keep as int, k as int),
            decreases n - k,
        {
            let c = stacks[fi][k];
            newdst.push(c);
            k = k + 1;
        }
        stacks[fi] = newsrc;
        stacks[ti] = newdst;
        proof {
            assert(stacks@[self.from - 1]@ =~= src0.take(src0.len() - self.count));
            assert(stacks@[self.to - 1]@ =~= dst0 + src0.skip(src0.len() - self.count));
        }
    }
}

} // verus!
