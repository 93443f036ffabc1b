//! Decrypting the coordinate list: placing each number at its shuffled
//! position.

use vstd::prelude::*;

verus! {

/// `s` is a permutation of the positions `0..n`.
pub open spec fn is_position_perm(s: Seq<usize>, n: int) -> bool {
    &&& s.len() == n
    &&& forall|i: int| 0 <= i < n ==> (#[trigger] s[i]) < n
    &&& forall|i: int, j: int| 0 <= i < j < n ==> s[i] != s[j]
}

/// Place each number at the position the shuffle assigned to it:
/// the result holds `numbers[i]` at position `shuffled[i]`.
pub fn untangle(shuffled: &[usize], numbers: &Vec<i32>) -> (r: Vec<i32>)
    requires
        is_position_perm(shuffled@, numbers@.len() as int),
    ensures
        r@.len() == numbers@.len(),
        forall|i: int| 0 <= i < numbers@.len() ==> r@[(#[trigger] shuffled@[i]) as int]
            == numbers@[i],
{
    let n = numbers.len();
    let mut untangled: Vec<i32> = Vec::new();
    let mut i: usize = 0;
    while i < n
        invariant
            i <= n,
            untangled@.len() == i,
        decreases n - i,
    {
        untangled.push(0);
        i = i + 1;
    }
    let mut j: usize = 0;
    while j < n
        invariant
            j <= n,
            n == numbers@.len(),
            untangled@.len() == n,
            is_position_perm(shuffled@, n as int),
            forall|k: int| 0 <= k < j ==> untangled@[(#[trigger] shuffled@[k]) as int]
                == numbers@[k],
        decreases n - j,
    {
        let pos = shuffled[j];
        untangled[pos] = numbers[j];
        j = j + 1;
    }
    untangled
}

} // verus!
