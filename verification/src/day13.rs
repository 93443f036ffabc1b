//! Distress-signal packets: nested lists of numbers, their recursive order,
//! and the packet parser.

use vstd::prelude::*;

verus! {

/// A packet element: a number or a list of elements.
pub enum Element {
    Number(i32),
    List(Vec<Element>),
}

/// Structural size of an element, counting every node.
pub open spec fn el_size(e: Element) -> nat
    decreases e,
{
    match e {
        Element::Number(_) => 1,
        Element::List(v) => 1 + list_size(v@),
    }
}

/// Structural size of a list of elements.
pub open spec fn list_size(s: Seq<Element>) -> nat
    decreases s,
{
    if s.len() == 0 {
        0
    } else {
        el_size(s.first()) + list_size(s.drop_first())
    }
}

proof fn lemma_el_size_in_list(s: Seq<Element>, i: int)
    requires
        0 <= i < s.len(),
    ensures
        el_size(s[i]) <= list_size(s),
    decreases s,
{
    if i == 0 {
        assert(s[0] == s.first());
    } else {
        lemma_el_size_in_list(s.drop_first(), i - 1);
        assert(s.drop_first()[i - 1] == s[i]);
    }
}

/// The packet order: numbers compare as numbers, lists lexicographically
/// element by element with the shorter list first on a tie, and a number
/// against a list compares as the singleton list holding it.
pub open spec fn spec_cmp(l: Element, r: Element) -> core::cmp::Ordering
    decreases el_size(l) + el_size(r), 0int, 0int,
    via spec_cmp_decreases
{
    match (l, r) {
        (Element::Number(a), Element::Number(b)) => {
            if a < b {
                core::cmp::Ordering::Less
            } else if a == b {
                core::cmp::Ordering::Equal
            } else {
                core::cmp::Ordering::Greater
            }
        },
        (Element::List(u), Element::List(v)) => spec_cmp_from(u@, v@, 0),
        (Element::Number(a), Element::List(v)) => spec_cmp_from(
            seq![Element::Number(a)],
            v@,
            0,
        ),
        (Element::List(u), Element::Number(b)) => spec_cmp_from(
            u@,
            seq![Element::Number(b)],
            0,
        ),
    }
}

/// Compare two element lists position by position from index `i`.
pub open spec fn spec_cmp_from(u: Seq<Element>, v: Seq<Element>, i: int) -> core::cmp::Ordering
    decreases list_size(u) + list_size(v), 2int, u.len() + v.len() - 2 * i,
    when 0 <= i
{
    if i >= u.len() && i >= v.len() {
        core::cmp::Ordering::Equal
    } else if i >= u.len() {
        core::cmp::Ordering::Less
    } else if i >= v.len() {
        core::cmp::Ordering::Greater
    } else {
        let c = spec_cmp_el(u, v, i);
        if c == core::cmp::Ordering::Equal {
            spec_cmp_from(u, v, i + 1)
        } else {
            c
        }
    }
}

/// The comparison of position `i` of the two lists.
pub open spec fn spec_cmp_el(u: Seq<Element>, v: Seq<Element>, i: int) -> core::cmp::Ordering
    decreases list_size(u) + list_size(v), 1int, 0int,
    when 0 <= i < u.len() && i < v.len()
    via spec_cmp_el_decreases
{
    spec_cmp(u[i], v[i])
}

#[via_fn]
proof fn spec_cmp_decreases(l: Element, r: Element) {
    match (l, r) {
        (Element::Number(a), Element::List(v)) => {
            lemma_singleton_size(Element::Number(a));
        },
        (Element::List(u), Element::Number(b)) => {
            lemma_singleton_size(Element::Number(b));
        },
        _ => {},
    }
}

#[via_fn]
proof fn spec_cmp_el_decreases(u: Seq<Element>, v: Seq<Element>, i: int) {
    if 0 <= i < u.len() && i < v.len() {
        lemma_el_size_in_list(u, i);
        lemma_el_size_in_list(v, i);
    }
}

proof fn lemma_singleton_size(e: Element)
    ensures
        list_size(seq![e]) == el_size(e),
{
    assert(seq![e].drop_first() =~= Seq::<Element>::empty());
    assert(seq![e].first() == e);
    assert(list_size(seq![e]) == el_size(e) + list_size(Seq::<Element>::empty()));
}

/// Compare two packet elements in packet order.
pub fn compare(left_element: &Element, right_element: &Element) -> (o: core::cmp::Ordering)
    ensures
        o == spec_cmp(*left_element, *right_element),
    decreases el_size(*left_element) + el_size(*right_element), 0int, 0int,
{
    match (left_element, right_element) {
        (Element::Number(a), Element::Number(b)) => {
            if a < b {
                core::cmp::Ordering::Less
            } else if a == b {
                core::cmp::Ordering::Equal
            } else {
                core::cmp::Ordering::Greater
            }
        },
        (Element::List(u), Element::List(v)) => compare_from(u, v, 0),
        (Element::Number(a), Element::List(v)) => {
            proof {
                lemma_singleton_size(Element::Number(*a));
            }
            compare_num_list(*a, v)
        },
        (Element::List(u), Element::Number(b)) => {
            proof {
                lemma_singleton_size(Element::Number(*b));
            }
            compare_list_num(u, *b)
        },
    }
}

/// Compare a bare number against a list, as the singleton list holding it.
fn compare_num_list(a: i32, v: &Vec<Element>) -> (o: core::cmp::Ordering)
    ensures
        o == spec_cmp_from(seq![Element::Number(a)], v@, 0),
    decreases 1 + list_size(v@), 1int, 0int,
{
    proof {
        lemma_singleton_size(Element::Number(a));
    }
    if v.len() == 0 {
        return core::cmp::Ordering::Greater;
    }
    proof {
        lemma_el_size_in_list(v@, 0);
        assert(seq![Element::Number(a)][0] == Element::Number(a));
    }
    let num = Element::Number(a);
    let c = compare(&num, &v[0]);
    proof {
        assert(spec_cmp_el(seq![Element::Number(a)], v@, 0) == spec_cmp(Element::Number(a), v@[0]));
    }
    match c {
        core::cmp::Ordering::Equal => {
            proof {
                assert(spec_cmp_from(seq![Element::Number(a)], v@, 1) == (if v@.len() <= 1 {
                    core::cmp::Ordering::Equal
                } else {
                    core::cmp::Ordering::Less
                }));
            }
            if v.len() == 1 {
                core::cmp::Ordering::Equal
            } else {
                core::cmp::Ordering::Less
            }
        },
        other => other,
    }
}

/// Compare a list against a bare number, as the singleton list holding it.
fn compare_list_num(u: &Vec<Element>, b: i32) -> (o: core::cmp::Ordering)
    ensures
        o == spec_cmp_from(u@, seq![Element::Number(b)], 0),
    decreases 1 + list_size(u@), 1int, 0int,
{
    proof {
        lemma_singleton_size(Element::Number(b));
    }
    if u.len() == 0 {
        return core::cmp::Ordering::Less;
    }
    proof {
        lemma_el_size_in_list(u@, 0);
        assert(seq![Element::Number(b)][0] == Element::Number(b));
    }
    let num = Element::Number(b);
    let c = compare(&u[0], &num);
    proof {
        assert(spec_cmp_el(u@, seq![Element::Number(b)], 0) == spec_cmp(u@[0], Element::Number(b)));
    }
    match c {
        core::cmp::Ordering::Equal => {
            proof {
                assert(spec_cmp_from(u@, seq![Element::Number(b)], 1) == (if u@.len() <= 1 {
                    core::cmp::Ordering::Equal
                } else {
                    core::cmp::Ordering::Greater
                }));
            }
            if u.len() == 1 {
                core::cmp::Ordering::Equal
            } else {
                core::cmp::Ordering::Greater
            }
        },
        other => other,
    }
}

/// Compare two lists position by position from index `i`.
fn compare_from(u: &Vec<Element>, v: &Vec<Element>, i: usize) -> (o: core::cmp::Ordering)
    requires
        i <= u@.len(),
        i <= v@.len(),
    ensures
        o == spec_cmp_from(u@, v@, i as int),
    decreases list_size(u@) + list_size(v@), 2int, u@.len() + v@.len() - 2 * i,
{
    if i >= u.len() && i >= v.len() {
        core::cmp::Ordering::Equal
    } else if i >= u.len() {
        core::cmp::Ordering::Less
    } else if i >= v.len() {
        core::cmp::Ordering::Greater
    } else {
        proof {
            lemma_el_size_in_list(u@, i as int);
            lemma_el_size_in_list(v@, i as int);
        }
        let c = compare(&u[i], &v[i]);
        proof {
            assert(spec_cmp_el(u@, v@, i as int) == spec_cmp(u@[i as int], v@[i as int]));
        }
        match c {
            core::cmp::Ordering::Equal => compare_from(u, v, i + 1),
            other => other,
        }
    }
}

/// The mathematical shape of an element.
pub enum ElemV {
    Num(int),
    List(Seq<ElemV>),
}

/// The view of an element.
pub open spec fn el_view(e: Element) -> ElemV
    decreases e,
{
    match e {
        Element::Number(a) => ElemV::Num(a as int),
        Element::List(v) => ElemV::List(views_of(v@)),
    }
}

/// The views of a list of elements.
pub open spec fn views_of(s: Seq<Element>) -> Seq<ElemV>
    decreases s,
{
    if s.len() == 0 {
        Seq::empty()
    } else {
        views_of(s.drop_last()).push(el_view(s.last()))
    }
}

pub open spec fn is_digit_char(c: char) -> bool {
    '0' <= c <= '9'
}

/// End of the digit run starting at `i`.
pub open spec fn run_end(cs: Seq<char>, i: int) -> int
    decreases cs.len() - i,
    when 0 <= i
{
    if i >= cs.len() || !is_digit_char(cs[i]) {
        i
    } else {
        run_end(cs, i + 1)
    }
}

/// Decimal value of the digit characters in `[i, j)`.
pub open spec fn val_from(cs: Seq<char>, i: int, j: int) -> int
    decreases j - i,
{
    if i >= j {
        0
    } else {
        val_from(cs, i, j - 1) * 10 + (cs[j - 1] as int - 48)
    }
}

/// Parse the items of a list body starting at `i`, up to and past the
/// closing bracket: numbers and nested lists, with commas between them.
/// `None` when the text is not a well-formed list tail, a number exceeds
/// `i32`, or the recursion budget runs out.
pub open spec fn spec_parse_items(cs: Seq<char>, i: int, fuel: nat) -> Option<(Seq<ElemV>, int)>
    decreases fuel,
{
    if fuel == 0 || i < 0 || i >= cs.len() {
        None
    } else if cs[i] == ']' {
        Some((Seq::empty(), i + 1))
    } else if cs[i] == ',' {
        spec_parse_items(cs, i + 1, (fuel - 1) as nat)
    } else if cs[i] == '[' {
        match spec_parse_items(cs, i + 1, (fuel - 1) as nat) {
            None => None,
            Some((sub, j)) => match spec_parse_items(cs, j, (fuel - 1) as nat) {
                None => None,
                Some((rest, k)) => Some((seq![ElemV::List(sub)] + rest, k)),
            },
        }
    } else if is_digit_char(cs[i]) {
        let j = run_end(cs, i);
        let n = val_from(cs, i, j);
        if n <= i32::MAX {
            match spec_parse_items(cs, j, (fuel - 1) as nat) {
                None => None,
                Some((rest, k)) => Some((seq![ElemV::Num(n)] + rest, k)),
            }
        } else {
            None
        }
    } else {
        None
    }
}

/// More budget never changes a successful parse.
proof fn lemma_parse_fuel_mono(cs: Seq<char>, i: int, f1: nat, f2: nat)
    requires
        f1 <= f2,
        spec_parse_items(cs, i, f1) is Some,
    ensures
        spec_parse_items(cs, i, f2) == spec_parse_items(cs, i, f1),
    decreases f1,
{
    if 0 <= i < cs.len() && f1 > 0 {
        if cs[i] == ']' {
        } else if cs[i] == ',' {
            lemma_parse_fuel_mono(cs, i + 1, (f1 - 1) as nat, (f2 - 1) as nat);
        } else if cs[i] == '[' {
            lemma_parse_fuel_mono(cs, i + 1, (f1 - 1) as nat, (f2 - 1) as nat);
            let (sub, j) = spec_parse_items(cs, i + 1, (f1 - 1) as nat)->Some_0;
            lemma_parse_fuel_mono(cs, j, (f1 - 1) as nat, (f2 - 1) as nat);
        } else if is_digit_char(cs[i]) {
            let j = run_end(cs, i);
            lemma_parse_fuel_mono(cs, j, (f1 - 1) as nat, (f2 - 1) as nat);
        }
    }
}

/// A successful parse moves the position strictly forward, at most to the
/// end.
proof fn lemma_parse_advances(cs: Seq<char>, i: int, fuel: nat)
    requires
        spec_parse_items(cs, i, fuel) is Some,
    ensures
        i < spec_parse_items(cs, i, fuel)->Some_0.1 <= cs.len(),
    decreases fuel,
{
    if 0 <= i < cs.len() && fuel > 0 {
        if cs[i] == ']' {
        } else if cs[i] == ',' {
            lemma_parse_advances(cs, i + 1, (fuel - 1) as nat);
        } else if cs[i] == '[' {
            lemma_parse_advances(cs, i + 1, (fuel - 1) as nat);
            let (sub, j) = spec_parse_items(cs, i + 1, (fuel - 1) as nat)->Some_0;
            lemma_parse_advances(cs, j, (fuel - 1) as nat);
        } else if is_digit_char(cs[i]) {
            lemma_run_end_bounds(cs, i);
            let j = run_end(cs, i);
            lemma_parse_advances(cs, j, (fuel - 1) as nat);
        }
    }
}

proof fn lemma_run_end_bounds(cs: Seq<char>, i: int)
    requires
        0 <= i,
    ensures
        i <= run_end(cs, i),
        i <= cs.len() ==> run_end(cs, i) <= cs.len(),
    decreases cs.len() - i,
{
    if i < cs.len() && is_digit_char(cs[i]) {
        lemma_run_end_bounds(cs, i + 1);
    }
}

proof fn lemma_views_prepend(x: Element, s: Seq<Element>)
    ensures
        views_of(seq![x] + s) == seq![el_view(x)] + views_of(s),
    decreases s.len(),
{
    if s.len() == 0 {
        assert(seq![x] + s =~= seq![x]);
        assert(seq![x].drop_last() =~= Seq::<Element>::empty());
        assert(seq![x].last() == x);
        assert(views_of(Seq::<Element>::empty()) == Seq::<ElemV>::empty());
        assert(views_of(seq![x]) == views_of(seq![x].drop_last()).push(el_view(x)));
        assert(views_of(seq![x] + s) =~= seq![el_view(x)] + views_of(s));
    } else {
        lemma_views_prepend(x, s.drop_last());
        assert((seq![x] + s).drop_last() =~= seq![x] + s.drop_last());
        assert((seq![x] + s).last() == s.last());
        assert(views_of(seq![x] + s) =~= seq![el_view(x)] + views_of(s));
    }
}

proof fn lemma_run_digits(cs: Seq<char>, i: int, t: int)
    requires
        0 <= i <= t < run_end(cs, i),
    ensures
        is_digit_char(cs[t]),
    decreases t - i,
{
    lemma_run_end_bounds(cs, i);
    if i < t {
        lemma_run_digits(cs, i + 1, t);
    }
}

proof fn lemma_val_mono(cs: Seq<char>, i: int, j1: int, j2: int)
    requires
        i <= j1 <= j2,
        forall|t: int| i <= t < j2 ==> is_digit_char(#[trigger] cs[t]),
    ensures
        0 <= val_from(cs, i, j1) <= val_from(cs, i, j2),
    decreases j2 - j1,
{
    if j1 == j2 {
        lemma_val_nonneg(cs, i, j1);
    } else {
        lemma_val_mono(cs, i, j1, j2 - 1);
        assert(val_from(cs, i, j2 - 1) * 10 >= val_from(cs, i, j2 - 1)) by (nonlinear_arith)
            requires
                val_from(cs, i, j2 - 1) >= 0,
        ;
    }
}

proof fn lemma_val_nonneg(cs: Seq<char>, i: int, j: int)
    requires
        forall|t: int| i <= t < j ==> is_digit_char(#[trigger] cs[t]),
    ensures
        val_from(cs, i, j) >= 0,
    decreases j - i,
{
    if i < j {
        lemma_val_nonneg(cs, i, j - 1);
        assert(val_from(cs, i, j - 1) * 10 >= 0) by (nonlinear_arith)
            requires
                val_from(cs, i, j - 1) >= 0,
        ;
    }
}

/// Parse the items of a list body starting at `idx`, consuming the closing
/// bracket.
fn parse_items(cs: &[char], idx: usize) -> (r: (Vec<Element>, usize))
    requires
        spec_parse_items(cs@, idx as int, (cs@.len() + 1) as nat) is Some,
    ensures
        ({
            let sp = spec_parse_items(cs@, idx as int, (cs@.len() + 1) as nat)->Some_0;
            &&& views_of(r.0@) == sp.0
            &&& r.1 == sp.1
            &&& idx < r.1 <= cs@.len()
        }),
    decreases cs@.len() - idx,
{
    let ghost fuel = (cs@.len() + 1) as nat;
    proof {
        lemma_parse_advances(cs@, idx as int, fuel);
    }
    let n = cs.len();
    let c = cs[idx];
    if c == ']' {
        let out: Vec<Element> = Vec::new();
        proof {
            assert(views_of(out@) =~= Seq::<ElemV>::empty());
        }
        (out, idx + 1)
    } else if c == ',' {
        proof {
            lemma_parse_fuel_mono(cs@, idx + 1, (fuel - 1) as nat, fuel);
        }
        parse_items(cs, idx + 1)
    } else if c == '[' {
        proof {
            lemma_parse_fuel_mono(cs@, idx + 1, (fuel - 1) as nat, fuel);
        }
        let (sub, j) = parse_items(cs, idx + 1);
        proof {
            lemma_parse_fuel_mono(cs@, j as int, (fuel - 1) as nat, fuel);
        }
        let (mut rest, k) = parse_items(cs, j);
        let ghost rest0 = rest@;
        rest.insert(0, Element::List(sub));
        proof {
            assert(rest@ =~= seq![Element::List(sub)] + rest0);
            lemma_views_prepend(Element::List(sub), rest0);
        }
        (rest, k)
    } else {
        // a digit run: scan it and build the number
        let ghost jend = run_end(cs@, idx as int);
        proof {
            lemma_run_end_bounds(cs@, idx as int);
            assert forall|t: int| idx <= t < jend implies is_digit_char(#[trigger] cs@[t]) by {
                lemma_run_digits(cs@, idx as int, t);
            }
        }
        let mut j = idx;
        let mut acc: u64 = 0;
        while j < n
            invariant
                idx <= j <= n,
                n == cs@.len(),
                jend == run_end(cs@, idx as int),
                run_end(cs@, j as int) == jend,
                j <= jend,
                acc == val_from(cs@, idx as int, j as int),
                acc <= i32::MAX,
                forall|t: int| idx <= t < jend ==> is_digit_char(#[trigger] cs@[t]),
                val_from(cs@, idx as int, jend) <= i32::MAX,
                idx < n,
                is_digit_char(cs@[idx as int]),
            ensures
                j == jend,
                acc == val_from(cs@, idx as int, jend),
            decreases n - j,
        {
            let ch = cs[j];
            if ch < '0' || ch > '9' {
                proof {
                    assert(run_end(cs@, j as int) == j);
                }
                break ;
            }
            proof {
                assert(is_digit_char(cs@[j as int]));
                assert(run_end(cs@, j as int) == run_end(cs@, j + 1));
                lemma_run_end_bounds(cs@, j + 1);
                assert(j < jend);
                lemma_val_mono(cs@, idx as int, j + 1, jend);
            }
            let d = (ch as u32 - 48) as u64;
            acc = acc * 10 + d;
            j = j + 1;
        }
        proof {
            if j == n {
                assert(run_end(cs@, n as int) == n);
            }
        }
        let value = acc as i32;
        proof {
            lemma_parse_fuel_mono(cs@, jend, (fuel - 1) as nat, fuel);
        }
        let (mut rest, k) = parse_items(cs, j);
        let ghost rest0 = rest@;
        rest.insert(0, Element::Number(value));
        proof {
            assert(rest@ =~= seq![Element::Number(value)] + rest0);
            lemma_views_prepend(Element::Number(value), rest0);
        }
        (rest, k)
    }
}

/// Parse one bracketed list whose opening bracket has already been passed:
/// `idx` points just after the `[`, and the returned index just after the
/// matching `]`.
pub fn parse_list(cs: &[char], idx: usize) -> (r: (Element, usize))
    requires
        spec_parse_items(cs@, idx as int, (cs@.len() + 1) as nat) is Some,
    ensures
        ({
            let sp = spec_parse_items(cs@, idx as int, (cs@.len() + 1) as nat)->Some_0;
            &&& el_view(r.0) == ElemV::List(sp.0)
            &&& r.1 == sp.1
        }),
{
    let (items, k) = parse_items(cs, idx);
    (Element::List(items), k)
}

} // verus!
