//! Decrypting the full coordinate list: repeated mixing rounds that rotate
//! each number through the cycle, tracked as a permutation of positions.

use vstd::prelude::*;

verus! {

/// `s` is a permutation of the positions `0..n`.
pub open spec fn is_position_perm(s: Seq<usize>, n: int) -> bool {
    &&& s.len() == n
    &&& forall|i: int| 0 <= i < n ==> (#[trigger] s[i]) < n
    &&& forall|i: int, j: int| 0 <= i < j < n ==> s[i] != s[j]
}

/// Place each number at the position the mix assigned to it: the result
/// holds `numbers[i]` at position `shuffled[i]`.
pub fn untangle(shuffled: &[usize], numbers: &Vec<i64>) -> (r: Vec<i64>)
    requires
        is_position_perm(shuffled@, numbers@.len() as int),
    ensures
        r@.len() == numbers@.len(),
        forall|i: int| 0 <= i < numbers@.len() ==> r@[(#[trigger] shuffled@[i]) as int]
            == numbers@[i],
{
    let n = numbers.len();
    let mut untangled: Vec<i64> = Vec::new();
    let mut i: usize = 0;
    while i < n
        invariant
            i <= n,
            untangled@.len() == i,
        decreases n - i,
    {
        untangled.push(0);
        i = i + 1;
    }
    let mut j: usize = 0;
    while j < n
        invariant
            j <= n,
            n == numbers@.len(),
            untangled@.len() == n,
            is_position_perm(shuffled@, n as int),
            forall|k: int| 0 <= k < j ==> untangled@[(#[trigger] shuffled@[k]) as int]
                == numbers@[k],
        decreases n - j,
    {
        let pos = shuffled[j];
        untangled[pos] = numbers[j];
        j = j + 1;
    }
    untangled
}

/// One mixing pass: each number in turn is rotated `numbers[i]` steps
/// through the cycle of length `len - 1`, by shifting the positions between
/// its old and new place.  The position table stays a permutation, so every
/// number keeps a distinct slot.
pub fn mix(numbers: &Vec<i64>, v: &mut Vec<usize>)
    requires
        2 <= numbers@.len() < 0x8000_0000,
        is_position_perm(old(v)@, numbers@.len() as int),
        forall|i: int|
            0 <= i < numbers@.len() ==> -0x7fff_ffff_ffff_0000 <= (#[trigger] numbers@[i])
                <= 0x7fff_ffff_ffff_0000,
    ensures
        is_position_perm(final(v)@, numbers@.len() as int),
{
    let n = v.len();
    let m = (n - 1) as i64;
    let mut i: usize = 0;
    while i < n
        invariant
            i <= n,
            n == numbers@.len(),
            m == n - 1,
            2 <= n < 0x8000_0000,
            is_position_perm(v@, n as int),
            forall|k: int|
                0 <= k < n ==> -0x7fff_ffff_ffff_0000 <= (#[trigger] numbers@[k])
                    <= 0x7fff_ffff_ffff_0000,
        decreases n - i,
    {
        let value = numbers[i];
        let pos = v[i];
        assert(m >= 1);
        let off = ((value % m) + m) % m;
        assert(0 <= off < m);
        let newpos_i64 = ((pos as i64) + off) % m;
        assert(0 <= newpos_i64 < m);
        let newpos = newpos_i64 as usize;
        assert(newpos < n);
        let ghost v0 = v@;
        assert(v0[i as int] == pos);
        if pos < newpos {
            let mut j: usize = 0;
            while j < n
                invariant
                    j <= n,
                    n == v@.len(),
                    pos < newpos < n,
                    v0.len() == n,
                    forall|k: int|
                        0 <= k < n ==> v@[k] == (if k < j && pos < v0[k] && v0[k] <= newpos {
                            ((#[trigger] v0[k]) - 1) as usize
                        } else {
                            v0[k]
                        }),
                decreases n - j,
            {
                let vj = v[j];
                if vj > pos && vj <= newpos {
                    v[j] = vj - 1;
                }
                j = j + 1;
            }
        } else if newpos < pos {
            let mut j: usize = 0;
            while j < n
                invariant
                    j <= n,
                    n == v@.len(),
                    newpos < pos < n,
                    v0.len() == n,
                    forall|k: int|
                        0 <= k < n ==> v@[k] == (if k < j && newpos <= v0[k] && v0[k] < pos {
                            ((#[trigger] v0[k]) + 1) as usize
                        } else {
                            v0[k]
                        }),
                decreases n - j,
            {
                let vj = v[j];
                if vj < pos && vj >= newpos {
                    v[j] = vj + 1;
                }
                j = j + 1;
            }
        }
        v[i] = newpos;
        proof {
            let vs = v@;
            assert forall|a: int, b: int| 0 <= a < b < n implies vs[a] != vs[b] by {
                if a != i as int && b != i as int {
                    if a < i as int {
                        assert(v0[a] != v0[i as int]);
                    } else {
                        assert(v0[i as int] != v0[a]);
                    }
                    if b < i as int {
                        assert(v0[b] != v0[i as int]);
                    } else {
                        assert(v0[i as int] != v0[b]);
                    }
                    assert(v0[a] != v0[b]);
                } else if a == i as int {
                    if b < i as int {
                        assert(v0[b] != v0[i as int]);
                    } else if (i as int) < b {
                        assert(v0[i as int] != v0[b]);
                    }
                } else {
                    if a < i as int {
                        assert(v0[a] != v0[i as int]);
                    } else if (i as int) < a {
                        assert(v0[i as int] != v0[a]);
                    }
                }
            }
            assert forall|k: int| 0 <= k < n implies (vs[k]) < n by {
                if k != i as int {
                    assert(v0[k] < n);
                }
            }
            assert(is_position_perm(v@, n as int));
        }
        i = i + 1;
    }
}

} // verus!
