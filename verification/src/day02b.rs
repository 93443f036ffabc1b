//! Rock-paper-scissors scoring where the second column names the required
//! outcome: X lose, Y draw, Z win.

use vstd::prelude::*;

verus! {

/// The shape the player must pick to reach the outcome, as shape points:
/// 1 rock, 2 paper, 3 scissors.
pub open spec fn spec_forced_shape(op_choice: char, my_choice: char) -> int {
    match (op_choice, my_choice) {
        ('A', 'X') => 3,
        ('A', 'Y') => 1,
        ('A', 'Z') => 2,
        ('B', 'X') => 1,
        ('B', 'Y') => 2,
        ('B', 'Z') => 3,
        ('C', 'X') => 2,
        ('C', 'Y') => 3,
        ('C', 'Z') => 1,
        _ => 0,
    }
}

/// Outcome points: X loses (0), Y draws (3), Z wins (6).
pub open spec fn spec_outcome_points(my_choice: char) -> int {
    match my_choice {
        'X' => 0,
        'Y' => 3,
        'Z' => 6,
        _ => 0,
    }
}

/// The round's score: outcome points plus the points of the forced shape.
pub fn get_score(op_choice: char, my_choice: char) -> (r: i32)
    requires
        op_choice == 'A' || op_choice == 'B' || op_choice == 'C',
        my_choice == 'X' || my_choice == 'Y' || my_choice == 'Z',
    ensures
        r == spec_outcome_points(my_choice) + spec_forced_shape(op_choice, my_choice),
{
    match op_choice {
        'A' => {
            match my_choice {
                'X' => 0 + 3,
                'Y' => 3 + 1,
                _ => 6 + 2,
            }
        },
        'B' => {
            match my_choice {
                'X' => 0 + 1,
                'Y' => 3 + 2,
                _ => 6 + 3,
            }
        },
        _ => {
            match my_choice {
                'X' => 0 + 2,
                'Y' => 3 + 3,
                _ => 6 + 1,
            }
        },
    }
}

} // verus!
