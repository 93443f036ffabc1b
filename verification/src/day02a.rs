//! Rock-paper-scissors scoring where the second column names the shape the
//! player picks: X rock, Y paper, Z scissors.

use vstd::prelude::*;

verus! {

/// Round outcome points: 6 win, 3 draw, 0 loss, from the opponent's shape
/// (A rock, B paper, C scissors) and the player's shape.
pub open spec fn spec_outcome(op_choice: char, my_choice: char) -> int {
    match (op_choice, my_choice) {
        ('A', 'X') => 3,
        ('A', 'Y') => 6,
        ('A', 'Z') => 0,
        ('B', 'X') => 0,
        ('B', 'Y') => 3,
        ('B', 'Z') => 6,
        ('C', 'X') => 6,
        ('C', 'Y') => 0,
        ('C', 'Z') => 3,
        _ => 0,
    }
}

/// Shape points: 1 rock, 2 paper, 3 scissors.
pub open spec fn spec_shape(my_choice: char) -> int {
    match my_choice {
        'X' => 1,
        'Y' => 2,
        'Z' => 3,
        _ => 0,
    }
}

/// The round's score: outcome points plus shape points.
pub fn get_score(op_choice: char, my_choice: char) -> (r: i32)
    requires
        op_choice == 'A' || op_choice == 'B' || op_choice == 'C',
        my_choice == 'X' || my_choice == 'Y' || my_choice == 'Z',
    ensures
        r == spec_outcome(op_choice, my_choice) + spec_shape(my_choice),
{
    match op_choice {
        'A' => {
            match my_choice {
                'X' => 3 + 1,
                'Y' => 6 + 2,
                _ => 0 + 3,
            }
        },
        'B' => {
            match my_choice {
                'X' => 0 + 1,
                'Y' => 3 + 2,
                _ => 6 + 3,
            }
        },
        _ => {
            match my_choice {
                'X' => 6 + 1,
                'Y' => 0 + 2,
                _ => 3 + 3,
            }
        },
    }
}

} // verus!
