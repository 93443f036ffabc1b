use aoc_core::parse::{find_byte, parse_u64_range, parse_i64_range};
use aoc_core::day15::{parse_number_after_equals, parse_coordinates, manhattan, merge_two,
    point_count, boundary};
use aoc_core::day16::{parse_name_and_rate, parse_tunnels, calculate_distances, prepare_search,
    Input};
use aoc_core::day07::parse_dirname_from_cd;
use aoc_core::day07::parse_dir;

#[test]
fn byte_search() {
    let bytes = b"abc-def";
    assert_eq!(find_byte(bytes, 0, b'-'), Some(3));
    assert_eq!(find_byte(bytes, 4, b'-'), None);
    assert_eq!(find_byte(bytes, 0, b'x'), None);
}

#[test]
fn unsigned_ranges() {
    let bytes = b"x=4711;";
    assert_eq!(parse_u64_range(bytes, 2, 6), Some(4711));
    assert_eq!(parse_u64_range(bytes, 0, 6), None);
    assert_eq!(parse_u64_range(bytes, 2, 2), None);
    let big = b"18446744073709551615";
    assert_eq!(parse_u64_range(big, 0, big.len()), Some(u64::MAX));
    let too_big = b"18446744073709551616";
    assert_eq!(parse_u64_range(too_big, 0, too_big.len()), None);
}

#[test]
fn signed_ranges() {
    let bytes = b"-42,17";
    assert_eq!(parse_i64_range(bytes, 0, 3), Some(-42));
    assert_eq!(parse_i64_range(bytes, 4, 6), Some(17));
    assert_eq!(parse_i64_range(bytes, 0, 6), None);
}

#[test]
fn numbers_after_equals() {
    assert_eq!(parse_number_after_equals("x=-2"), -2);
    assert_eq!(parse_number_after_equals("y=2000000"), 2000000);
}

#[test]
fn coordinates() {
    assert_eq!(parse_coordinates("x=2, y=18"), (2, 18));
    assert_eq!(parse_coordinates("x=-2, y=15"), (-2, 15));
}

#[test]
fn sensor_geometry() {
    assert_eq!(manhattan(&(2, 18), &(-2, 15)), 7);
    assert_eq!(merge_two(&(1, 5), &(3, 9)), Some((1, 9)));
    assert_eq!(merge_two(&(1, 9), &(3, 5)), Some((1, 9)));
    assert_eq!(merge_two(&(1, 2), &(4, 5)), None);
    assert_eq!(point_count(&(-2, 2)), 5);
    assert_eq!(point_count(&(3, 3)), 1);
}

#[test]
fn boundary_ring() {
    let mut ring = boundary((0, 0), 1);
    ring.sort();
    assert_eq!(ring, vec![(-1, 0), (0, -1), (0, 1), (1, 0)]);
    // radius 2 has 8 distinct points even though the chains overlap at the tips
    let ring2 = boundary((5, 5), 2);
    assert_eq!(ring2.len(), 8);
    assert!(ring2.contains(&(3, 5)) && ring2.contains(&(7, 5)));
    assert!(ring2.contains(&(5, 3)) && ring2.contains(&(5, 7)));
}

#[test]
fn valve_lines() {
    let (name, rate) = parse_name_and_rate("Valve BB has flow rate=13");
    assert_eq!(name, "BB");
    assert_eq!(rate, 13);
    let tunnels = parse_tunnels(" tunnels lead to valves DD, II, BB");
    assert_eq!(tunnels, vec!["DD", "II", "BB"]);
}

#[test]
fn tunnel_distances() {
    // a line of three valves: 0 - 1 - 2
    let inputs = vec![
        Input { valve: String::from("AA"), rate: 0, tunnels: vec![String::from("BB")] },
        Input {
            valve: String::from("BB"),
            rate: 13,
            tunnels: vec![String::from("AA"), String::from("CC")],
        },
        Input { valve: String::from("CC"), rate: 2, tunnels: vec![String::from("BB")] },
    ];
    let index = vec![vec![1], vec![0, 2], vec![1]];
    let d = calculate_distances(&inputs, &index);
    assert_eq!(d[0][1], 1);
    assert_eq!(d[1][2], 1);
    assert_eq!(d[0][2], 2);
    assert_eq!(d[0][0], 0);
    let keep = vec![true, true, true];
    let (rates, trimmed) = prepare_search(&inputs, &d, &keep);
    assert_eq!(rates, vec![0, 13, 2]);
    assert_eq!(trimmed.len(), 3);
    // dropping the zero-rate valve keeps a square table of the other two
    let keep2 = vec![false, true, true];
    let (rates2, trimmed2) = prepare_search(&inputs, &d, &keep2);
    assert_eq!(rates2, vec![13, 2]);
    assert_eq!(trimmed2, vec![vec![0, 1], vec![1, 0]]);
}

#[test]
fn cd_lines() {
    assert_eq!(parse_dirname_from_cd("$ cd foo"), "foo");
    assert_eq!(parse_dirname_from_cd("$ cd .."), "..");
}

#[test]
fn transcript_parsing() {
    let lines: Vec<String> = [
        "$ ls",
        "dir a",
        "14848514 b.txt",
        "8504156 c.dat",
        "$ cd a",
        "$ ls",
        "584 i",
        "$ cd ..",
    ]
        .iter()
        .map(|s| s.to_string())
        .collect();
    let mut pos = 0usize;
    let root = parse_dir(String::from("/"), &lines, &mut pos);
    assert_eq!(pos, lines.len());
    assert_eq!(root.name, "/");
    assert_eq!(root.files.len(), 2);
    assert_eq!(root.files[0].size, 14848514);
    assert_eq!(root.files[0].name, "b.txt");
    assert_eq!(root.subdirs.len(), 1);
    assert_eq!(root.subdirs[0].name, "a");
    assert_eq!(root.subdirs[0].files.len(), 1);
    assert_eq!(root.subdirs[0].files[0].size, 584);
}
