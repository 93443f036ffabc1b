//! Rucksack item priorities: lowercase items score 1 through 26, uppercase
//! items 27 through 52.

use vstd::prelude::*;

verus! {

/// The priority of an item character.
pub open spec fn spec_priority(c: char) -> int {
    if 'A' <= c <= 'Z' {
        c as int - 64 + 26
    } else if 'a' <= c <= 'z' {
        c as int - 96
    } else {
        0
    }
}

/// The priority of an item: 1-26 for `a`-`z`, 27-52 for `A`-`Z`.
pub fn get_priority(c: char) -> (r: i32)
    requires
        ('A' <= c <= 'Z') || ('a' <= c <= 'z'),
    ensures
        r == spec_priority(c),
        1 <= r <= 52,
{
    if c <= 'Z' {
        (c as i32) - (64 - 26)
    } else {
        (c as i32) - 96
    }
}

} // verus!
