use aoc_core::day08::{Tree, mark_visible_if_taller, get_scenic_score};
use aoc_core::day11::{Operation, parse_operation, parse_usize_from_end_of_line};
use aoc_core::day14::{points_between_nodes, initialize_blocked, sandfall};
use aoc_core::day22::{Direction, Instruction, copy_tile, board_from_lines, map_edges,
    process_instructions, locate_start, tile_dimensions};

fn grid(rows: &[&[i32]]) -> Vec<Vec<Tree>> {
    rows.iter()
        .map(|r| r.iter().map(|&h| Tree { height: h, is_visible: false }).collect())
        .collect()
}

#[test]
fn visibility_marking() {
    let mut map = grid(&[&[3, 0, 3, 7, 3]]);
    let mut tallest = i32::MIN;
    for j in 0..5 {
        mark_visible_if_taller(0, j, &mut tallest, &mut map);
    }
    let marks: Vec<bool> = map[0].iter().map(|t| t.is_visible).collect();
    assert_eq!(marks, vec![true, false, false, true, false]);
    assert_eq!(tallest, 7);
}

#[test]
fn scenic_scores() {
    // the example forest; the viewpoint at row 3, column 2 scores 8
    let mut map = grid(&[
        &[3, 0, 3, 7, 3],
        &[2, 5, 5, 1, 2],
        &[6, 5, 3, 3, 2],
        &[3, 3, 5, 4, 9],
        &[3, 5, 3, 9, 0],
    ]);
    assert_eq!(get_scenic_score(5, 5, 3, 2, &mut map), 8);
    assert_eq!(get_scenic_score(5, 5, 1, 2, &mut map), 4);
    // an edge tree always scores zero
    assert_eq!(get_scenic_score(5, 5, 0, 0, &mut map), 0);
}

#[test]
fn worry_operations() {
    assert!(matches!(parse_operation("old * 19"), Operation::MulConst(19)));
    assert!(matches!(parse_operation("old + 6"), Operation::AddConst(6)));
    assert!(matches!(parse_operation("old * old"), Operation::Square));
    assert_eq!(Operation::MulConst(19).apply(5), 95);
    assert_eq!(Operation::AddConst(6).apply(60), 66);
    assert_eq!(Operation::Square.apply(12), 144);
    assert_eq!(Operation::Double.apply(21), 42);
}

#[test]
fn trailing_numbers() {
    assert_eq!(parse_usize_from_end_of_line("  Test: divisible by 23"), 23);
    assert_eq!(parse_usize_from_end_of_line("    If true: throw to monkey 2"), 2);
}

#[test]
fn segments() {
    assert_eq!(
        points_between_nodes(&(498, 4), &(498, 6)),
        vec![(498, 4), (498, 5), (498, 6)]
    );
    assert_eq!(points_between_nodes(&(498, 6), &(496, 6)), vec![(496, 6), (497, 6), (498, 6)]);
}

#[test]
fn sand_comes_to_rest() {
    // the example cave: two rock paths
    let paths = vec![
        vec![(498, 4), (498, 6), (496, 6)],
        vec![(503, 4), (502, 4), (502, 9), (494, 9)],
    ];
    let blocked = initialize_blocked(paths, 503, 9);
    assert!(blocked[4][498] && blocked[5][498] && blocked[6][498]);
    assert!(blocked[6][496] && blocked[9][494] && blocked[4][503]);
    assert!(!blocked[0][500]);
    // the first grain falls straight down and rests on the long shelf
    assert_eq!(sandfall((500, 0), &blocked, 503, 9), Some((500, 8)));
    // a grain over empty ground falls out of the cave
    assert_eq!(sandfall((494, 0), &blocked, 503, 9), None);
}

#[test]
fn headings() {
    assert!(matches!(Direction::Up.rotate_cw(), Direction::Right));
    assert!(matches!(Direction::Right.rotate_cw(), Direction::Down));
    assert!(matches!(Direction::Up.rotate_ccw(), Direction::Left));
    assert!(matches!(Direction::Left.rotate_ccw(), Direction::Down));
    assert_eq!(Direction::Right.eval(), 0);
    assert_eq!(Direction::Down.eval(), 1);
    assert_eq!(Direction::Left.eval(), 2);
    assert_eq!(Direction::Up.eval(), 3);
}

#[test]
fn path_instructions() {
    let ins = process_instructions(String::from("10R5L5"));
    assert_eq!(ins.len(), 5);
    assert!(matches!(ins[0], Instruction::Move(10)));
    assert!(matches!(ins[1], Instruction::TurnRight));
    assert!(matches!(ins[2], Instruction::Move(5)));
    assert!(matches!(ins[3], Instruction::TurnLeft));
    assert!(matches!(ins[4], Instruction::Move(5)));
}

#[test]
fn tiles_and_edges() {
    assert_eq!(tile_dimensions(12, 8), (4, 3, 2));
    // a 2x1 board of 2x2 tiles with a gap in the second row
    let lines: Vec<Vec<char>> = vec![
        "..#.".chars().collect(),
        ".#..".chars().collect(),
    ];
    let board = board_from_lines(&lines, 2, 1, 2);
    assert_eq!(board.len(), 1);
    assert_eq!(board[0].len(), 2);
    assert!(board[0][0].is_some() && board[0][1].is_some());
    let tile = copy_tile(&lines, 1, 0, 2);
    assert_eq!(tile[0], vec!['#', '.']);
    assert_eq!(tile[1], vec!['.', '.']);
    let edges = map_edges(&board, 2, 1);
    // walking right off the second tile wraps to the first
    assert_eq!(edges.get((1, 0), Direction::Right), Some((0, 0)));
    assert_eq!(edges.get((0, 0), Direction::Left), Some((1, 0)));
    let start = locate_start(&board, 2, 1, 2).expect("a walkable spot exists");
    let (kk, ll, x, y) = start;
    assert_eq!((kk, ll, x, y), (0, 0, 0, 0));
}
