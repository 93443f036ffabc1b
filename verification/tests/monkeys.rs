use aoc_core::day21::{Expr, MonkeyMap, parse_monkey, evaluate, get_operands, build_inv_map,
    flip_expression, express_humn, Position};

fn example_map() -> MonkeyMap {
    let lines = [
        "root: pppw + sjmn",
        "dbpl: 5",
        "cczh: sllz + lgvd",
        "zczc: 2",
        "ptdq: humn - dvpt",
        "dvpt: 3",
        "lfqf: 4",
        "humn: 5",
        "ljgn: 2",
        "sjmn: drzm * dbpl",
        "sllz: 4",
        "pppw: cczh / lfqf",
        "lgvd: ljgn * ptdq",
        "drzm: hmdt - zczc",
        "hmdt: 32",
    ];
    let mut m = MonkeyMap::new();
    for line in lines {
        let (name, expr) = parse_monkey(line.to_string());
        m.insert(name, expr);
    }
    m
}

#[test]
fn monkey_lines() {
    let (name, expr) = parse_monkey(String::from("dbpl: 5"));
    assert_eq!(name, "dbpl");
    assert!(matches!(expr, Expr::Constant(5)));
    let (name2, expr2) = parse_monkey(String::from("root: pppw + sjmn"));
    assert_eq!(name2, "root");
    match expr2 {
        Expr::Add(a, b) => {
            assert_eq!(a, "pppw");
            assert_eq!(b, "sjmn");
        },
        _ => panic!("expected an addition"),
    }
}

#[test]
fn evaluation() {
    let m = example_map();
    assert_eq!(evaluate("root", &m, 100), Some(152));
    assert_eq!(evaluate("drzm", &m, 100), Some(30));
    assert_eq!(evaluate("nope", &m, 100), None);
    // with no recursion budget nothing evaluates
    assert_eq!(evaluate("dbpl", &m, 0), None);
}

#[test]
fn operands_and_flipping() {
    let e = Expr::Sub(String::from("a"), String::from("b"));
    let (l, r) = get_operands(&e).expect("operands exist");
    assert_eq!(l, "a");
    assert_eq!(r, "b");
    assert!(get_operands(&Expr::Constant(7)).is_none());
    // lhs = a - b flipped for the right operand gives b = a - lhs
    let flipped = flip_expression(String::from("lhs"), e, Position::Right).unwrap();
    match flipped {
        Expr::Sub(x, y) => {
            assert_eq!(x, "a");
            assert_eq!(y, "lhs");
        },
        _ => panic!("expected a subtraction"),
    }
}

#[test]
fn express_the_human() {
    let mut m = example_map();
    let inv = build_inv_map(&m);
    assert!(express_humn(&mut m, &inv, 1000));
    // the example's answer: humn must shout 301 for root's equality
    assert_eq!(evaluate("humn", &m, 1000), Some(301));
}
