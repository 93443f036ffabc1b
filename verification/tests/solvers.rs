use aoc_core::day02a;
use aoc_core::day02b;
use aoc_core::day03::get_priority;
use aoc_core::day04::{parse_assignment, is_inside, do_overlap};
use aoc_core::day05::{parse_instruction, Instruction};
use aoc_core::day07::{File, Directory, accumulate_total_size_of_small_directories,
    get_sizes_of_dirs};
use aoc_core::day09::{sup_dist, move_point, new_pos};
use aoc_core::day17::placed_shape;
use aoc_core::day18::{within_bounds, get_bounds};
use aoc_core::day20a;
use aoc_core::day20b;

#[test]
fn day02a_scores() {
    // the example strategy guide scores 8, 1 and 6
    assert_eq!(day02a::get_score('A', 'Y'), 8);
    assert_eq!(day02a::get_score('B', 'X'), 1);
    assert_eq!(day02a::get_score('C', 'Z'), 6);
}

#[test]
fn day02b_scores() {
    // reread as outcomes, the same rounds score 4, 1 and 7
    assert_eq!(day02b::get_score('A', 'Y'), 4);
    assert_eq!(day02b::get_score('B', 'X'), 1);
    assert_eq!(day02b::get_score('C', 'Z'), 7);
}

#[test]
fn priorities() {
    assert_eq!(get_priority('p'), 16);
    assert_eq!(get_priority('L'), 38);
    assert_eq!(get_priority('P'), 42);
    assert_eq!(get_priority('v'), 22);
    assert_eq!(get_priority('a'), 1);
    assert_eq!(get_priority('Z'), 52);
}

#[test]
fn assignments() {
    assert_eq!(parse_assignment("2-4"), (2, 4));
    assert_eq!(parse_assignment("123-4567"), (123, 4567));
    assert!(is_inside(&(3, 7), &(2, 8)));
    assert!(is_inside(&(3, 7), &(3, 7)));
    assert!(!is_inside(&(1, 9), &(2, 8)));
    assert!(do_overlap(&(5, 7), &(7, 9)));
    assert!(!do_overlap(&(2, 4), &(6, 8)));
}

#[test]
fn instructions_move_crates() {
    let ins = parse_instruction(&String::from("move 3 from 1 to 3"));
    assert_eq!(ins.count, 3);
    assert_eq!(ins.from, 1);
    assert_eq!(ins.to, 3);
    let mut stacks = vec![vec!['Z', 'N', 'D'], vec!['M', 'C'], vec!['P']];
    ins.apply(&mut stacks);
    // the top three crates move in one grab, keeping their order
    assert_eq!(stacks[0], Vec::<char>::new());
    assert_eq!(stacks[1], vec!['M', 'C']);
    assert_eq!(stacks[2], vec!['P', 'Z', 'N', 'D']);
}

#[test]
fn instruction_same_stack_is_identity() {
    let ins = Instruction { count: 2, from: 1, to: 1 };
    let mut stacks = vec![vec!['A', 'B', 'C']];
    ins.apply(&mut stacks);
    assert_eq!(stacks[0], vec!['A', 'B', 'C']);
}

fn sample_tree() -> Directory {
    // the example filesystem: a//e, a/, d/ under the root
    let e = Directory {
        name: String::from("e"),
        files: vec![File { size: 584, name: String::from("i") }],
        subdirs: vec![],
    };
    let a = Directory {
        name: String::from("a"),
        files: vec![
            File { size: 29116, name: String::from("f") },
            File { size: 2557, name: String::from("g") },
            File { size: 62596, name: String::from("h.lst") },
        ],
        subdirs: vec![e],
    };
    let d = Directory {
        name: String::from("d"),
        files: vec![
            File { size: 4060174, name: String::from("j") },
            File { size: 8033020, name: String::from("d.log") },
            File { size: 5626152, name: String::from("d.ext") },
            File { size: 7214296, name: String::from("k") },
        ],
        subdirs: vec![],
    };
    Directory {
        name: String::from("/"),
        files: vec![
            File { size: 14848514, name: String::from("b.txt") },
            File { size: 8504156, name: String::from("c.dat") },
        ],
        subdirs: vec![a, d],
    }
}

#[test]
fn small_directory_total() {
    let root = sample_tree();
    let mut result = 0usize;
    let total = accumulate_total_size_of_small_directories(&mut result, &root);
    assert_eq!(total, 48381165);
    assert_eq!(result, 95437);
}

#[test]
fn directory_size_listing() {
    let root = sample_tree();
    let mut sizes: Vec<usize> = Vec::new();
    let total = get_sizes_of_dirs(&mut sizes, &root);
    assert_eq!(total, 48381165);
    assert_eq!(sizes, vec![584, 94853, 24933642, 48381165]);
}

#[test]
fn rope_steps() {
    assert_eq!(sup_dist(&(0, 0), &(2, 1)), 2);
    assert_eq!(sup_dist(&(-3, 4), &(0, 0)), 4);
    let mut head = (0, 0);
    move_point(&mut head, "R");
    move_point(&mut head, "R");
    assert_eq!(head, (2, 0));
    move_point(&mut head, "U");
    assert_eq!(head, (2, 1));
    move_point(&mut head, "L");
    move_point(&mut head, "D");
    assert_eq!(head, (1, 0));
}

#[test]
fn follower_rule() {
    // touching knots stay put
    assert_eq!(new_pos(&(1, 1), &(0, 0)), (0, 0));
    // a straight gap closes by one step
    assert_eq!(new_pos(&(2, 0), &(0, 0)), (1, 0));
    // a diagonal gap closes diagonally
    assert_eq!(new_pos(&(2, 1), &(0, 0)), (1, 1));
    assert_eq!(new_pos(&(-2, -2), &(0, 0)), (-1, -1));
}

#[test]
fn shape_placement() {
    assert_eq!(aoc_core::day17::add(&(1, 2), &(3, 4)), (4, 6));
    let shape = vec![(0i64, 0i64), (1, 0), (2, 0), (3, 0)];
    let placed = placed_shape(&shape, &(2, 5));
    assert_eq!(placed, vec![(2, 5), (3, 5), (4, 5), (5, 5)]);
}

#[test]
fn droplet_bounds() {
    assert_eq!(aoc_core::day18::add(&(1, 2, 3), &(0, 0, -1)), (1, 2, 2));
    let points = vec![(2, 2, 2), (1, 2, 5), (3, 0, 2)];
    let b = get_bounds(&points);
    assert_eq!(b, ((1, 3), (0, 2), (2, 5)));
    assert!(within_bounds(&(2, 1, 3), &b));
    assert!(!within_bounds(&(0, 1, 3), &b));
}

#[test]
fn untangle_places_numbers() {
    let shuffled: Vec<usize> = vec![2, 0, 1];
    let numbers = vec![10, 20, 30];
    assert_eq!(day20a::untangle(&shuffled, &numbers), vec![20, 30, 10]);
    let numbers64: Vec<i64> = vec![10, 20, 30];
    assert_eq!(day20b::untangle(&shuffled, &numbers64), vec![20, 30, 10]);
}

#[test]
fn one_mixing_round() {
    let numbers: Vec<i64> = vec![1, 2, -3, 3, -2, 0, 4];
    let mut positions: Vec<usize> = (0..7).collect();
    day20b::mix(&numbers, &mut positions);
    assert_eq!(positions, vec![1, 2, 3, 6, 0, 5, 4]);
    let arranged = day20b::untangle(&positions, &numbers);
    assert_eq!(arranged, vec![-2, 1, 2, -3, 4, 0, 3]);
    // grove coordinates read from the zero
    let zero = arranged.iter().position(|&x| x == 0).unwrap();
    let l = arranged.len();
    let coords = [1000, 2000, 3000].map(|k| arranged[(zero + k) % l]);
    assert_eq!(coords, [4, -3, 2]);
}
