//! Small verified building blocks for the line parsers: decimal values of
//! byte ranges, and searching a byte in a slice.

use vstd::prelude::*;

verus! {

/// An ASCII decimal digit.
pub open spec fn is_digit(b: u8) -> bool {
    48 <= b <= 57
}

/// Every byte of the sequence is a digit, and there is at least one.
pub open spec fn is_uint_str(s: Seq<u8>) -> bool {
    s.len() >= 1 && forall|i: int| 0 <= i < s.len() ==> is_digit(#[trigger] s[i])
}

/// The value of a digit sequence read in base ten.
pub open spec fn digits_val(s: Seq<u8>) -> nat
    decreases s.len(),
{
    if s.len() == 0 {
        0
    } else {
        (digits_val(s.drop_last()) * 10 + (s.last() - 48)) as nat
    }
}

/// A decimal integer with an optional leading minus sign.
pub open spec fn is_int_str(s: Seq<u8>) -> bool {
    is_uint_str(s) || (s.len() >= 2 && s[0] == 45 && is_uint_str(s.skip(1)))
}

/// The signed value of a decimal integer string.
pub open spec fn int_val(s: Seq<u8>) -> int {
    if s.len() >= 1 && s[0] == 45 {
        -(digits_val(s.skip(1)) as int)
    } else {
        digits_val(s) as int
    }
}

/// Appending a digit multiplies the value by ten and adds the digit.
pub proof fn lemma_digits_val_snoc(s: Seq<u8>, b: u8)
    requires
        is_digit(b),
    ensures
        digits_val(s.push(b)) == digits_val(s) * 10 + (b - 48),
{
    assert(s.push(b).drop_last() =~= s);
    assert(s.push(b).last() == b);
}

/// The value of a digit string only grows when digits are appended.
pub proof fn lemma_digits_val_prefix(s: Seq<u8>, n: int)
    requires
        0 <= n <= s.len(),
        forall|i: int| 0 <= i < s.len() ==> is_digit(#[trigger] s[i]),
    ensures
        digits_val(s.subrange(0, n)) <= digits_val(s),
    decreases s.len() - n,
{
    if n < s.len() {
        lemma_digits_val_prefix(s, n + 1);
        let p = s.subrange(0, n);
        let q = s.subrange(0, n + 1);
        assert(q =~= p.push(s[n]));
        lemma_digits_val_snoc(p, s[n]);
        assert(digits_val(p) * 10 >= digits_val(p)) by (nonlinear_arith);
    } else {
        assert(s.subrange(0, n) =~= s);
    }
}

/// First position of byte `b` at or after `from`, if any.
pub fn find_byte(bytes: &[u8], from: usize, b: u8) -> (r: Option<usize>)
    requires
        from <= bytes@.len(),
    ensures
        match r {
            Some(k) => from <= k < bytes@.len() && bytes@[k as int] == b && forall|i: int|
                from <= i < k ==> bytes@[i] != b,
            None => forall|i: int| from <= i < bytes@.len() ==> bytes@[i] != b,
        },
{
    let mut i = from;
    while i < bytes.len()
        invariant
            from <= i <= bytes@.len(),
            forall|j: int| from <= j < i ==> bytes@[j] != b,
        decreases bytes@.len() - i,
    {
        if bytes[i] == b {
            return Some(i);
        }
        i = i + 1;
    }
    None
}

/// Parse the byte range `[from, to)` as an unsigned decimal number.  Returns
/// the value exactly when the range is a non-empty run of digits whose value
/// fits in `u64`.
pub fn parse_u64_range(bytes: &[u8], from: usize, to: usize) -> (r: Option<u64>)
    requires
        from <= to <= bytes@.len(),
    ensures
        match r {
            Some(v) => is_uint_str(bytes@.subrange(from as int, to as int)) && v == digits_val(
                bytes@.subrange(from as int, to as int),
            ),
            None => !is_uint_str(bytes@.subrange(from as int, to as int)) || digits_val(
                bytes@.subrange(from as int, to as int),
            ) > u64::MAX,
        },
{
    if from == to {
        return None;
    }
    let ghost whole = bytes@.subrange(from as int, to as int);
    let mut acc: u64 = 0;
    let mut i = from;
    proof {
        assert(bytes@.subrange(from as int, from as int) =~= Seq::<u8>::empty());
    }
    while i < to
        invariant
            from <= i <= to <= bytes@.len(),
            whole == bytes@.subrange(from as int, to as int),
            from < to,
            forall|j: int| from <= j < i ==> is_digit(#[trigger] bytes@[j]),
            acc == digits_val(bytes@.subrange(from as int, i as int)),
        decreases to - i,
    {
        let b = bytes[i];
        if b < 48 || b > 57 {
            proof {
                assert(whole[i - from] == bytes@[i as int]);
                assert(!is_uint_str(whole));
            }
            return None;
        }
        let d = (b - 48) as u64;
        if acc > (u64::MAX - d) / 10 {
            proof {
                vstd::arithmetic::div_mod::lemma_fundamental_div_mod(
                    (u64::MAX - d) as int,
                    10,
                );
                assert(acc * 10 + d > u64::MAX) by (nonlinear_arith)
                    requires
                        acc > ((u64::MAX - d) as int) / 10,
                        (u64::MAX - d) as int == 10 * (((u64::MAX - d) as int) / 10) + (((u64::MAX
                            - d) as int) % 10),
                        0 <= ((u64::MAX - d) as int) % 10 < 10,
                ;
                if is_uint_str(whole) {
                    let pre = bytes@.subrange(from as int, i as int);
                    let pre1 = bytes@.subrange(from as int, i + 1);
                    assert(pre1 =~= pre.push(bytes@[i as int]));
                    lemma_digits_val_snoc(pre, bytes@[i as int]);
                    assert(digits_val(pre1) > u64::MAX);
                    assert(whole =~= bytes@.subrange(from as int, to as int));
                    assert(pre1 =~= whole.subrange(0, i + 1 - from));
                    assert(forall|j: int| 0 <= j < whole.len() ==> is_digit(#[trigger] whole[j]));
                    lemma_digits_val_prefix(whole, i + 1 - from);
                }
            }
            return None;
        }
        proof {
            vstd::arithmetic::div_mod::lemma_fundamental_div_mod((u64::MAX - d) as int, 10);
            assert(acc * 10 + d <= u64::MAX) by (nonlinear_arith)
                requires
                    acc <= ((u64::MAX - d) as int) / 10,
                    (u64::MAX - d) as int == 10 * (((u64::MAX - d) as int) / 10) + (((u64::MAX - d)
                        as int) % 10),
                    0 <= ((u64::MAX - d) as int) % 10 < 10,
                    acc >= 0,
                    d >= 0,
            ;
            let pre = bytes@.subrange(from as int, i as int);
            let pre1 = bytes@.subrange(from as int, i + 1);
            assert(pre1 =~= pre.push(bytes@[i as int]));
            lemma_digits_val_snoc(pre, bytes@[i as int]);
            if i == from {
                assert(pre =~= Seq::<u8>::empty());
                assert(digits_val(pre) == 0);
            }
        }
        acc = acc * 10 + d;
        i = i + 1;
    }
    proof {
        assert(bytes@.subrange(from as int, i as int) =~= whole);
    }
    Some(acc)
}

/// Parse the byte range `[from, to)` as a decimal integer with an optional
/// leading minus sign.
pub fn parse_i64_range(bytes: &[u8], from: usize, to: usize) -> (r: Option<i64>)
    requires
        from <= to <= bytes@.len(),
    ensures
        match r {
            Some(v) => is_int_str(bytes@.subrange(from as int, to as int)) && v == int_val(
                bytes@.subrange(from as int, to as int),
            ),
            None => !is_int_str(bytes@.subrange(from as int, to as int)) || int_val(
                bytes@.subrange(from as int, to as int),
            ) > i64::MAX || int_val(bytes@.subrange(from as int, to as int)) < i64::MIN,
        },
{
    let ghost whole = bytes@.subrange(from as int, to as int);
    if from == to {
        return None;
    }
    if bytes[from] == 45 {
        proof {
            assert(whole[0] == 45);
            assert(whole.skip(1) =~= bytes@.subrange(from + 1, to as int));
        }
        match parse_u64_range(bytes, from + 1, to) {
            Some(v) => {
                if v <= 0x8000_0000_0000_0000u64 {
                    proof {
                        assert(is_uint_str(whole.skip(1)) && whole.len() >= 2);
                    }
                    if v == 0x8000_0000_0000_0000u64 {
                        Some(i64::MIN)
                    } else {
                        Some(-(v as i64))
                    }
                } else {
                    None
                }
            },
            None => {
                proof {
                    if is_int_str(whole) {
                        assert(is_uint_str(whole.skip(1)));
                        assert(digits_val(whole.skip(1)) > u64::MAX);
                    }
                }
                None
            },
        }
    } else {
        proof {
            assert(whole[0] == bytes@[from as int]);
        }
        match parse_u64_range(bytes, from, to) {
            Some(v) => {
                if v <= i64::MAX as u64 {
                    Some(v as i64)
                } else {
                    None
                }
            },
            None => None,
        }
    }
}

} // verus!
