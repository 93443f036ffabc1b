use aoc_core::day13::{Element, compare, parse_list};
use aoc_core::day17::{Chamber, simulate_fall};
use std::cmp::Ordering;

fn num(n: i32) -> Element {
    Element::Number(n)
}

fn list(v: Vec<Element>) -> Element {
    Element::List(v)
}

fn parse(s: &str) -> Element {
    let cs: Vec<char> = s.chars().collect();
    // skip the opening bracket, as the caller of the parser does
    let (e, consumed) = parse_list(&cs, 1);
    assert_eq!(consumed, cs.len());
    e
}

#[test]
fn packet_order() {
    // [1,1,3,1,1] < [1,1,5,1,1]
    let l = parse("[1,1,3,1,1]");
    let r = parse("[1,1,5,1,1]");
    assert_eq!(compare(&l, &r), Ordering::Less);
    // [[1],[2,3,4]] vs [[1],4]: the number is lifted to a list
    let l2 = parse("[[1],[2,3,4]]");
    let r2 = parse("[[1],4]");
    assert_eq!(compare(&l2, &r2), Ordering::Less);
    // [9] > [[8,7,6]]
    assert_eq!(compare(&parse("[9]"), &parse("[[8,7,6]]")), Ordering::Greater);
    // the shorter list wins a tie
    assert_eq!(compare(&parse("[7,7,7]"), &parse("[7,7,7,7]")), Ordering::Less);
    assert_eq!(compare(&parse("[]"), &parse("[3]")), Ordering::Less);
    // deep nesting, right runs out first
    assert_eq!(
        compare(&parse("[[[]]]"), &parse("[[]]")),
        Ordering::Greater
    );
    assert_eq!(
        compare(
            &parse("[1,[2,[3,[4,[5,6,7]]]],8,9]"),
            &parse("[1,[2,[3,[4,[5,6,0]]]],8,9]")
        ),
        Ordering::Greater
    );
    // equal packets
    assert_eq!(compare(&parse("[1,[2],3]"), &parse("[1,[2],3]")), Ordering::Equal);
}

#[test]
fn packet_parsing() {
    let e = parse("[10,[20],[]]");
    match e {
        Element::List(items) => {
            assert_eq!(items.len(), 3);
            assert!(matches!(items[0], Element::Number(10)));
            match &items[1] {
                Element::List(inner) => {
                    assert_eq!(inner.len(), 1);
                    assert!(matches!(inner[0], Element::Number(20)));
                },
                _ => panic!("expected a nested list"),
            }
            assert!(matches!(&items[2], Element::List(v) if v.is_empty()));
        },
        _ => panic!("expected a list"),
    }
    // the manual constructors agree with the parser
    assert_eq!(
        compare(&parse("[1,2]"), &list(vec![num(1), num(2)])),
        Ordering::Equal
    );
}

#[test]
fn falling_rocks() {
    // the horizontal bar falls to the floor of an empty chamber
    let bar = vec![(0i64, 0i64), (1, 0), (2, 0), (3, 0)];
    let jets: Vec<char> = ">>><<".chars().collect();
    let mut chamber: Chamber = Vec::new();
    let mut jet_idx = 0usize;
    let top = simulate_fall(&bar, 3, &mut chamber, &jets, &mut jet_idx);
    assert_eq!(top, 0);
    // pushed right three times, it rests at columns 5..=6 minus wall stops
    assert!(chamber[0].iter().filter(|&&b| b).count() == 4);
    // a second bar lands on top of the first when dropped over it
    let top2 = simulate_fall(&bar, top + 4, &mut chamber, &jets, &mut jet_idx);
    assert!(top2 >= 1);
}
