//! Monkey expression riddle: named expressions over four operations,
//! evaluated recursively, and rearranged to express the unknown `humn`
//! value.

use vstd::prelude::*;

verus! {

/// Which operand of its parent a name is.
#[derive(Debug, Clone, Copy, PartialEq, Eq, Structural)]
pub enum Position {
    Left,
    Right,
}

/// A monkey's job: a constant or an operation over two named monkeys.
#[derive(Debug, Clone)]
pub enum Expr {
    Constant(i64),
    Add(String, String),
    Sub(String, String),
    Mul(String, String),
    Div(String, String),
}

/// The mathematical shape of an expression: names as character sequences.
pub enum ExprV {
    Constant(int),
    Add(Seq<char>, Seq<char>),
    Sub(Seq<char>, Seq<char>),
    Mul(Seq<char>, Seq<char>),
    Div(Seq<char>, Seq<char>),
}

/// The view of an expression.
pub open spec fn expr_view(e: Expr) -> ExprV {
    match e {
        Expr::Constant(c) => ExprV::Constant(c as int),
        Expr::Add(a, b) => ExprV::Add(a@, b@),
        Expr::Sub(a, b) => ExprV::Sub(a@, b@),
        Expr::Mul(a, b) => ExprV::Mul(a@, b@),
        Expr::Div(a, b) => ExprV::Div(a@, b@),
    }
}

/// Name-to-expression table; a later entry for the same name wins, as in a
/// map built by repeated insertion.
pub struct MonkeyMap {
    pub entries: Vec<(String, Expr)>,
}

/// The table's mathematical content: named expression views, in order.
pub open spec fn views(es: Seq<(String, Expr)>) -> Seq<(Seq<char>, ExprV)> {
    es.map_values(|p: (String, Expr)| (p.0@, expr_view(p.1)))
}

/// The expression view a name maps to: the last entry with that name.
pub open spec fn lookup(vs: Seq<(Seq<char>, ExprV)>, name: Seq<char>) -> Option<ExprV>
    decreases vs.len(),
{
    if vs.len() == 0 {
        None
    } else if vs.last().0 == name {
        Some(vs.last().1)
    } else {
        lookup(vs.drop_last(), name)
    }
}

/// Character-wise string equality.
fn str_eq(a: &str, b: &str) -> (r: bool)
    ensures
        r == (a@ == b@),
{
    let n = a.unicode_len();
    let m = b.unicode_len();
    if n != m {
        proof {
            if a@ == b@ {
                assert(a@.len() == b@.len());
            }
        }
        return false;
    }
    let mut i: usize = 0;
    while i < n
        invariant
            i <= n,
            n == a@.len(),
            n == b@.len(),
            forall|j: int| 0 <= j < i ==> a@[j] == b@[j],
        decreases n - i,
    {
        if a.get_char(i) != b.get_char(i) {
            proof {
                if a@ == b@ {
                    assert(a@[i as int] == b@[i as int]);
                }
            }
            return false;
        }
        i = i + 1;
    }
    proof {
        assert(a@ =~= b@);
    }
    true
}

impl MonkeyMap {
    /// An empty table.
    pub fn new() -> (r: MonkeyMap)
        ensures
            r.entries@.len() == 0,
    {
        MonkeyMap { entries: Vec::new() }
    }

    /// Add (or overwrite) a name's expression.
    pub fn insert(&mut self, name: String, e: Expr)
        ensures
            views(final(self).entries@) == views(old(self).entries@).push(
                (name@, expr_view(e)),
            ),
            lookup(views(final(self).entries@), name@) == Some(expr_view(e)),
            forall|k: Seq<char>|
                k != name@ ==> #[trigger] lookup(views(final(self).entries@), k) == lookup(
                    views(old(self).entries@),
                    k,
                ),
    {
        let ghost es0 = self.entries@;
        self.entries.push((name, e));
        proof {
            assert(views(self.entries@) =~= views(es0).push(
                (self.entries@.last().0@, expr_view(self.entries@.last().1)),
            ));
            assert(views(self.entries@).drop_last() =~= views(es0));
        }
    }

    /// The expression a name maps to, if any.
    pub fn get(&self, name: &str) -> (r: Option<&Expr>)
        ensures
            match r {
                Some(e) => lookup(views(self.entries@), name@) == Some(expr_view(*e)),
                None => lookup(views(self.entries@), name@) is None,
            },
    {
        let ghost vs = views(self.entries@);
        proof {
            assert(vs.subrange(0, vs.len() as int) =~= vs);
        }
        let mut i: usize = self.entries.len();
        while i > 0
            invariant
                i <= self.entries@.len(),
                vs == views(self.entries@),
                vs.len() == self.entries@.len(),
                lookup(vs, name@) == lookup(vs.subrange(0, i as int), name@),
            decreases i,
        {
            proof {
                assert(vs.subrange(0, i as int).drop_last() =~= vs.subrange(0, i - 1));
                assert(vs.subrange(0, i as int).last() == vs[i - 1]);
                assert(vs[i - 1] == (self.entries@[i - 1].0@, expr_view(self.entries@[i - 1].1)));
            }
            if str_eq(self.entries[i - 1].0.as_str(), name) {
                return Some(&self.entries[i - 1].1);
            }
            i = i - 1;
        }
        proof {
            assert(vs.subrange(0, 0) =~= Seq::<(Seq<char>, ExprV)>::empty());
        }
        None
    }

    /// Drop every entry for a name; returns whether any was present.
    pub fn remove(&mut self, name: &str) -> (r: bool)
        ensures
            lookup(views(final(self).entries@), name@) is None,
            forall|k: Seq<char>|
                k != name@ ==> #[trigger] lookup(views(final(self).entries@), k) == lookup(
                    views(old(self).entries@),
                    k,
                ),
            r == (lookup(views(old(self).entries@), name@) is Some),
    {
        let ghost vs0 = views(self.entries@);
        let mut kept: Vec<(String, Expr)> = Vec::new();
        let mut found = false;
        let mut i: usize = 0;
        while i < self.entries.len()
            invariant
                i <= self.entries@.len(),
                vs0 == views(self.entries@),
                vs0.len() == self.entries@.len(),
                views(kept@) =~= drop_name(vs0.subrange(0, i as int), name@),
                found == (lookup(vs0.subrange(0, i as int), name@) is Some),
            decreases self.entries@.len() - i,
        {
            proof {
                reveal(Seq::filter);
                assert(vs0.subrange(0, i + 1).drop_last() =~= vs0.subrange(0, i as int));
                assert(vs0.subrange(0, i + 1).last() == vs0[i as int]);
                assert(vs0[i as int] == (self.entries@[i as int].0@, expr_view(
                    self.entries@[i as int].1,
                )));
            }
            let ghost pre = vs0.subrange(0, i as int);
            let p = &self.entries[i];
            let keep_it = !str_eq(p.0.as_str(), name);
            if keep_it {
                let ghost kept0 = kept@;
                let item = (clone_string(&p.0), clone_expr(&p.1));
                kept.push(item);
                proof {
                    reveal(Seq::filter);
                    assert(views(kept@) =~= views(kept0).push(vs0[i as int]));
                    assert(drop_name(vs0.subrange(0, i + 1), name@) =~= drop_name(
                        pre,
                        name@,
                    ).push(vs0[i as int]));
                }
            } else {
                found = true;
                proof {
                    reveal(Seq::filter);
                    assert(drop_name(vs0.subrange(0, i + 1), name@) =~= drop_name(pre, name@));
                }
            }
            i = i + 1;
        }
        proof {
            assert(vs0.subrange(0, vs0.len() as int) =~= vs0);
        }
        self.entries = kept;
        proof {
            lemma_lookup_filter(vs0, name@);
        }
        found
    }
}

/// Cloning a string keeps its characters.
fn clone_string(s: &String) -> (r: String)
    ensures
        r@ == s@,
{
    s.clone()
}

/// Cloning an expression keeps its view.
pub fn clone_expr(e: &Expr) -> (r: Expr)
    ensures
        expr_view(r) == expr_view(*e),
{
    match e {
        Expr::Constant(c) => Expr::Constant(*c),
        Expr::Add(a, b) => Expr::Add(clone_string(a), clone_string(b)),
        Expr::Sub(a, b) => Expr::Sub(clone_string(a), clone_string(b)),
        Expr::Mul(a, b) => Expr::Mul(clone_string(a), clone_string(b)),
        Expr::Div(a, b) => Expr::Div(clone_string(a), clone_string(b)),
    }
}

/// The named views with every binding of `name` removed.
pub open spec fn drop_name(vs: Seq<(Seq<char>, ExprV)>, name: Seq<char>) -> Seq<
    (Seq<char>, ExprV),
> {
    vs.filter(|p: (Seq<char>, ExprV)| p.0 != name)
}

/// Filtering a name out makes lookups of it fail and leaves others alone.
proof fn lemma_lookup_filter(vs: Seq<(Seq<char>, ExprV)>, name: Seq<char>)
    ensures
        lookup(drop_name(vs, name), name) is None,
        forall|k: Seq<char>|
            k != name ==> #[trigger] lookup(drop_name(vs, name), k) == lookup(vs, k),
    decreases vs.len(),
{
    reveal(Seq::filter);
    if vs.len() == 0 {
        assert(drop_name(vs, name) =~= vs);
    } else {
        lemma_lookup_filter(vs.drop_last(), name);
        let sub = drop_name(vs.drop_last(), name);
        if vs.last().0 != name {
            assert(drop_name(vs, name) == sub.push(vs.last()));
            assert(drop_name(vs, name).drop_last() =~= sub);
        } else {
            assert(drop_name(vs, name) == sub);
        }
        assert forall|k: Seq<char>| k != name implies lookup(drop_name(vs, name), k) == lookup(
            vs,
            k,
        ) by {
            assert(lookup(sub, k) == lookup(vs.drop_last(), k));
            if vs.last().0 != name {
                let pushed = sub.push(vs.last());
                assert(pushed.drop_last() =~= sub);
                assert(pushed.last() == vs.last());
                if vs.last().0 == k {
                    assert(lookup(pushed, k) == Some(vs.last().1));
                    assert(lookup(vs, k) == Some(vs.last().1));
                } else {
                    assert(lookup(pushed, k) == lookup(sub, k));
                    assert(lookup(vs, k) == lookup(vs.drop_last(), k));
                }
                assert(lookup(drop_name(vs, name), k) == lookup(pushed, k));
            } else {
                assert(lookup(vs, k) == lookup(vs.drop_last(), k));
            }
        }
    }
}

/// The two operand names of a non-constant expression.
pub fn get_operands(e: &Expr) -> (r: Option<(String, String)>)
    ensures
        match expr_view(*e) {
            ExprV::Constant(_) => r is None,
            ExprV::Add(a, b) => r is Some && r->Some_0.0@ == a && r->Some_0.1@ == b,
            ExprV::Sub(a, b) => r is Some && r->Some_0.0@ == a && r->Some_0.1@ == b,
            ExprV::Mul(a, b) => r is Some && r->Some_0.0@ == a && r->Some_0.1@ == b,
            ExprV::Div(a, b) => r is Some && r->Some_0.0@ == a && r->Some_0.1@ == b,
        },
{
    match e {
        Expr::Constant(_) => None,
        Expr::Add(n1, n2) => Some((clone_string(n1), clone_string(n2))),
        Expr::Sub(n1, n2) => Some((clone_string(n1), clone_string(n2))),
        Expr::Mul(n1, n2) => Some((clone_string(n1), clone_string(n2))),
        Expr::Div(n1, n2) => Some((clone_string(n1), clone_string(n2))),
    }
}

/// Truncating division, as machine division rounds: toward zero.
pub open spec fn trunc_div(a: int, b: int) -> int {
    let q = abs_n(a) / abs_n(b);
    if (a < 0) != (b < 0) {
        -q
    } else {
        q
    }
}

pub open spec fn abs_n(x: int) -> int {
    if x >= 0 {
        x
    } else {
        -x
    }
}

/// The value of a named expression, with a recursion budget: `None` when
/// the name is missing, the budget runs out, a division is impossible, or a
/// result leaves the 64-bit range.
pub open spec fn spec_eval(vs: Seq<(Seq<char>, ExprV)>, name: Seq<char>, fuel: nat) -> Option<int>
    decreases fuel,
{
    if fuel == 0 {
        None
    } else {
        match lookup(vs, name) {
            None => None,
            Some(e) => match e {
                ExprV::Constant(c) => Some(c),
                ExprV::Add(a, b) => combine_opt(
                    spec_eval(vs, a, (fuel - 1) as nat),
                    spec_eval(vs, b, (fuel - 1) as nat),
                    0,
                ),
                ExprV::Sub(a, b) => combine_opt(
                    spec_eval(vs, a, (fuel - 1) as nat),
                    spec_eval(vs, b, (fuel - 1) as nat),
                    1,
                ),
                ExprV::Mul(a, b) => combine_opt(
                    spec_eval(vs, a, (fuel - 1) as nat),
                    spec_eval(vs, b, (fuel - 1) as nat),
                    2,
                ),
                ExprV::Div(a, b) => combine_opt(
                    spec_eval(vs, a, (fuel - 1) as nat),
                    spec_eval(vs, b, (fuel - 1) as nat),
                    3,
                ),
            },
        }
    }
}

/// Combine two evaluated operands with the operation numbered `op`
/// (add, subtract, multiply, divide), failing outside the 64-bit range.
pub open spec fn combine_opt(x: Option<int>, y: Option<int>, op: int) -> Option<int> {
    match (x, y) {
        (Some(a), Some(b)) => {
            if op == 3 && b == 0 {
                None
            } else {
                let v = if op == 0 {
                    a + b
                } else if op == 1 {
                    a - b
                } else if op == 2 {
                    a * b
                } else {
                    trunc_div(a, b)
                };
                if i64::MIN <= v <= i64::MAX {
                    Some(v)
                } else {
                    None
                }
            }
        },
        _ => None,
    }
}

/// Evaluate a named expression with a recursion budget.
pub fn evaluate(name: &str, m: &MonkeyMap, fuel: u64) -> (r: Option<i64>)
    ensures
        (r is Some) == (spec_eval(views(m.entries@), name@, fuel as nat) is Some),
        r is Some ==> r->Some_0 == spec_eval(views(m.entries@), name@, fuel as nat)->Some_0,
    decreases fuel,
{
    if fuel == 0 {
        return None;
    }
    let e = match m.get(name) {
        None => {
            return None;
        },
        Some(e) => clone_expr(e),
    };
    match e {
        Expr::Constant(c) => Some(c),
        Expr::Add(a, b) => {
            let va = evaluate(a.as_str(), m, fuel - 1);
            let vb = evaluate(b.as_str(), m, fuel - 1);
            combine(va, vb, 0)
        },
        Expr::Sub(a, b) => {
            let va = evaluate(a.as_str(), m, fuel - 1);
            let vb = evaluate(b.as_str(), m, fuel - 1);
            combine(va, vb, 1)
        },
        Expr::Mul(a, b) => {
            let va = evaluate(a.as_str(), m, fuel - 1);
            let vb = evaluate(b.as_str(), m, fuel - 1);
            combine(va, vb, 2)
        },
        Expr::Div(a, b) => {
            let va = evaluate(a.as_str(), m, fuel - 1);
            let vb = evaluate(b.as_str(), m, fuel - 1);
            combine(va, vb, 3)
        },
    }
}

/// Combine two operand results exactly as `combine_opt` does.
fn combine(x: Option<i64>, y: Option<i64>, op: u8) -> (r: Option<i64>)
    requires
        op <= 3,
    ensures
        ({
            let so = combine_opt(
                match x {
                    Some(a) => Some(a as int),
                    None => None,
                },
                match y {
                    Some(b) => Some(b as int),
                    None => None,
                },
                op as int,
            );
            &&& (r is Some) == (so is Some)
            &&& r is Some ==> r->Some_0 == so->Some_0
        }),
{
    let a = match x {
        Some(a) => a,
        None => {
            return None;
        },
    };
    let b = match y {
        Some(b) => b,
        None => {
            return None;
        },
    };
    let wide_a = a as i128;
    let wide_b = b as i128;
    if op == 0 {
        let v = wide_a + wide_b;
        if v >= i64::MIN as i128 && v <= i64::MAX as i128 {
            Some(v as i64)
        } else {
            None
        }
    } else if op == 1 {
        let v = wide_a - wide_b;
        if v >= i64::MIN as i128 && v <= i64::MAX as i128 {
            Some(v as i64)
        } else {
            None
        }
    } else if op == 2 {
        proof {
            assert(wide_a * wide_b <= 0x4000_0000_0000_0000_0000_0000_0000_0000int && wide_a
                * wide_b >= -0x4000_0000_0000_0000_0000_0000_0000_0000int) by (nonlinear_arith)
                requires
                    -0x8000_0000_0000_0000 <= wide_a <= 0x7fff_ffff_ffff_ffff,
                    -0x8000_0000_0000_0000 <= wide_b <= 0x7fff_ffff_ffff_ffff,
            ;
        }
        let v = wide_a * wide_b;
        if v >= i64::MIN as i128 && v <= i64::MAX as i128 {
            Some(v as i64)
        } else {
            None
        }
    } else {
        if b == 0 {
            return None;
        }
        // divide magnitudes as naturals and put the sign back: division
        // rounds toward zero
        let au: u64 = if a >= 0 {
            a as u64
        } else {
            ((-(a as i128)) as u64)
        };
        let bu: u64 = if b >= 0 {
            b as u64
        } else {
            ((-(b as i128)) as u64)
        };
        let q = au / bu;
        let neg = (a < 0) != (b < 0);
        proof {
            assert(au == abs_n(a as int) && bu == abs_n(b as int));
        }
        if neg {
            if q <= 0x8000_0000_0000_0000u64 {
                if q == 0x8000_0000_0000_0000u64 {
                    Some(i64::MIN)
                } else {
                    Some(-(q as i64))
                }
            } else {
                None
            }
        } else {
            if q <= i64::MAX as u64 {
                Some(q as i64)
            } else {
                None
            }
        }
    }
}


/// Who uses a name as an operand: name to (parent name, side).
pub struct InvMap {
    pub entries: Vec<(String, (String, Position))>,
}

/// The parent entry a name maps to: the last entry with that name.
pub open spec fn lookup_inv(vs: Seq<(Seq<char>, (Seq<char>, Position))>, name: Seq<char>) -> Option<
    (Seq<char>, Position),
>
    decreases vs.len(),
{
    if vs.len() == 0 {
        None
    } else if vs.last().0 == name {
        Some(vs.last().1)
    } else {
        lookup_inv(vs.drop_last(), name)
    }
}

/// The inverse table's mathematical content.
pub open spec fn inv_views(es: Seq<(String, (String, Position))>) -> Seq<
    (Seq<char>, (Seq<char>, Position)),
> {
    es.map_values(|p: (String, (String, Position))| (p.0@, (p.1.0@, p.1.1)))
}

impl InvMap {
    /// The parent and side recorded for a name, if any.
    pub fn get(&self, name: &str) -> (r: Option<(String, Position)>)
        ensures
            match r {
                Some(t) => lookup_inv(inv_views(self.entries@), name@) == Some((t.0@, t.1)),
                None => lookup_inv(inv_views(self.entries@), name@) is None,
            },
    {
        let ghost vs = inv_views(self.entries@);
        proof {
            assert(vs.subrange(0, vs.len() as int) =~= vs);
        }
        let mut i: usize = self.entries.len();
        while i > 0
            invariant
                i <= self.entries@.len(),
                vs == inv_views(self.entries@),
                vs.len() == self.entries@.len(),
                lookup_inv(vs, name@) == lookup_inv(vs.subrange(0, i as int), name@),
            decreases i,
        {
            proof {
                assert(vs.subrange(0, i as int).drop_last() =~= vs.subrange(0, i - 1));
                assert(vs.subrange(0, i as int).last() == vs[i - 1]);
                assert(vs[i - 1] == (self.entries@[i - 1].0@, (self.entries@[i - 1].1.0@,
                self.entries@[i - 1].1.1)));
            }
            if str_eq(self.entries[i - 1].0.as_str(), name) {
                let p = &self.entries[i - 1].1;
                return Some((clone_string(&p.0), p.1));
            }
            i = i - 1;
        }
        proof {
            assert(vs.subrange(0, 0) =~= Seq::<(Seq<char>, (Seq<char>, Position))>::empty());
        }
        None
    }
}

/// Build the inverse table: each operand name of every non-constant entry
/// maps back to its parent's name and which side it stands on.
pub fn build_inv_map(m: &MonkeyMap) -> (r: InvMap)
    ensures
        r.entries@.len() <= 2 * m.entries@.len(),
{
    let mut inv: Vec<(String, (String, Position))> = Vec::new();
    let mut i: usize = 0;
    while i < m.entries.len()
        invariant
            i <= m.entries@.len(),
            inv@.len() <= 2 * i,
        decreases m.entries@.len() - i,
    {
        let name = &m.entries[i].0;
        match get_operands(&m.entries[i].1) {
            Some((n1, n2)) => {
                inv.push((n1, (clone_string(name), Position::Left)));
                inv.push((n2, (clone_string(name), Position::Right)));
            },
            None => {},
        }
        i = i + 1;
    }
    InvMap { entries: inv }
}

/// Rearrange `lhs = expr` to express the operand standing at `pos`: the
/// inverse operation applied to `lhs` and the other operand.
pub fn flip_expression(lhs: String, expr: Expr, pos: Position) -> (r: Option<Expr>)
    ensures
        match expr_view(expr) {
            ExprV::Constant(_) => r is None,
            ExprV::Add(n1, n2) => r is Some && expr_view(r->Some_0) == (match pos {
                Position::Left => ExprV::Sub(lhs@, n2),
                Position::Right => ExprV::Sub(lhs@, n1),
            }),
            ExprV::Sub(n1, n2) => r is Some && expr_view(r->Some_0) == (match pos {
                Position::Left => ExprV::Add(lhs@, n2),
                Position::Right => ExprV::Sub(n1, lhs@),
            }),
            ExprV::Mul(n1, n2) => r is Some && expr_view(r->Some_0) == (match pos {
                Position::Left => ExprV::Div(lhs@, n2),
                Position::Right => ExprV::Div(lhs@, n1),
            }),
            ExprV::Div(n1, n2) => r is Some && expr_view(r->Some_0) == (match pos {
                Position::Left => ExprV::Mul(lhs@, n2),
                Position::Right => ExprV::Div(n1, lhs@),
            }),
        },
{
    match expr {
        Expr::Add(n1, n2) => match pos {
            Position::Left => Some(Expr::Sub(lhs, n2)),
            Position::Right => Some(Expr::Sub(lhs, n1)),
        },
        Expr::Sub(n1, n2) => match pos {
            Position::Left => Some(Expr::Add(lhs, n2)),
            Position::Right => Some(Expr::Sub(n1, lhs)),
        },
        Expr::Mul(n1, n2) => match pos {
            Position::Left => Some(Expr::Div(lhs, n2)),
            Position::Right => Some(Expr::Div(lhs, n1)),
        },
        Expr::Div(n1, n2) => match pos {
            Position::Left => Some(Expr::Mul(lhs, n2)),
            Position::Right => Some(Expr::Div(n1, lhs)),
        },
        Expr::Constant(_) => None,
    }
}

/// Rewrite the table so that `humn` is expressed in terms of the rest: walk
/// up the inverse links from `humn`, flipping each parent equation, until
/// the root is reached; the root's other side then becomes a constant.
/// `fuel` bounds both the walk and each evaluation; returns whether the
/// rewrite completed.
pub fn express_humn(m: &mut MonkeyMap, inv: &InvMap, fuel: u64) -> (ok: bool)
    ensures
        ok ==> lookup(views(old(m).entries@), "humn"@) is Some,
{
    let ghost had_humn = lookup(views(m.entries@), "humn"@) is Some;
    if !m.remove("humn") {
        return false;
    }
    let mut next = String::from_str("humn");
    let mut steps: u64 = 0;
    while steps < fuel
        invariant
            had_humn == (lookup(views(old(m).entries@), "humn"@) is Some),
            had_humn,
        decreases fuel - steps,
    {
        let (lhs, pos) = match inv.get(next.as_str()) {
            Some(t) => t,
            None => {
                return false;
            },
        };
        let expr = match m.get(lhs.as_str()) {
            Some(e) => clone_expr(e),
            None => {
                return false;
            },
        };
        let removed = m.remove(lhs.as_str());
        if !removed {
            return false;
        }
        if str_eq(lhs.as_str(), "root") {
            let (left, right) = match get_operands(&expr) {
                Some(t) => t,
                None => {
                    return false;
                },
            };
            let other = match pos {
                Position::Left => right,
                Position::Right => left,
            };
            let value = match evaluate(other.as_str(), m, fuel) {
                Some(v) => v,
                None => {
                    return false;
                },
            };
            m.insert(next, Expr::Constant(value));
            return true;
        }
        let new_expr = match flip_expression(clone_string(&lhs), expr, pos) {
            Some(e) => e,
            None => {
                return false;
            },
        };
        m.insert(next, new_expr);
        next = lhs;
        steps = steps + 1;
    }
    false
}


/// The first colon of the line sits at `k` and a space follows it.
pub open spec fn monkey_shape(t: Seq<char>, k: int) -> bool {
    &&& 0 <= k
    &&& k + 1 < t.len()
    &&& t[k] == ':'
    &&& t[k + 1] == ' '
    &&& forall|i: int| 0 <= i < k ==> t[i] != ':'
}

/// Parse a `name: job` line: the name before the colon, and the job either
/// as a constant or as one of the four operations over two space-separated
/// operand names.  A right-hand side in none of these forms comes back as a
/// constant zero.
pub fn parse_monkey(s: String) -> (r: (String, Expr))
    requires
        exists|k: int| #[trigger] monkey_shape(s@, k),
    ensures
        forall|k: int| #[trigger] monkey_shape(s@, k) ==> r.0@ == s@.subrange(0, k),
{
    let st = s.as_str();
    let n = st.unicode_len();
    let mut k: usize = 0;
    while k < n
        invariant
            k <= n,
            n == st@.len(),
            st@ == s@,
            forall|i: int| 0 <= i < k ==> st@[i] != ':',
        ensures
            k <= n,
            forall|i: int| 0 <= i < k ==> st@[i] != ':',
            k < n ==> st@[k as int] == ':',
        decreases n - k,
    {
        if st.get_char(k) == ':' {
            break ;
        }
        k = k + 1;
    }
    if k >= n {
        proof {
            let kk = choose|kk: int| #[trigger] monkey_shape(s@, kk);
            assert(s@[kk] == ':');
        }
        return unreached();
    }
    proof {
        assert forall|kk: int| #[trigger] monkey_shape(s@, kk) implies kk == k by {
            if kk < k {
                assert(s@[kk] == ':');
            } else if k < kk {
                assert(s@[k as int] != ':');
            }
        }
        let kk = choose|kk: int| #[trigger] monkey_shape(s@, kk);
        assert(kk == k && k + 2 <= n);
    }
    let name = st.substring_char(0, k).to_owned();
    proof {
        assert forall|kk: int| #[trigger] monkey_shape(s@, kk) implies name@ == s@.subrange(
            0,
            kk,
        ) by {
            assert(kk == k);
        }
    }
    let rhs = st.substring_char(k + 2, n);
    let m = rhs.unicode_len();
    // a plain number is a constant job
    let rb = rhs.as_bytes();
    if let Some(v) = crate::parse::parse_i64_range(rb, 0, rb.len()) {
        return (name, Expr::Constant(v));
    }
    // otherwise look for a space-padded operator, trying the four
    // operations in a fixed order
    let ops = ['+', '-', '*', '/'];
    let mut oi: usize = 0;
    while oi < 4
        invariant
            oi <= 4,
            m == rhs@.len(),
            forall|kk: int| #[trigger] monkey_shape(s@, kk) ==> name@ == s@.subrange(0, kk),
        decreases 4 - oi,
    {
        let c = ops[oi];
        let mut i: usize = 1;
        while i < m
            invariant
                1 <= i,
                m == rhs@.len(),
                forall|kk: int| #[trigger] monkey_shape(s@, kk) ==> name@ == s@.subrange(0, kk),
            decreases m - i,
        {
            if i + 1 >= m {
                break ;
            }
            if rhs.get_char(i) == c && rhs.get_char(i - 1) == ' ' && rhs.get_char(i + 1) == ' ' {
                let left = rhs.substring_char(0, i - 1).to_owned();
                let right = rhs.substring_char(i + 2, m).to_owned();
                let e = if c == '+' {
                    Expr::Add(left, right)
                } else if c == '-' {
                    Expr::Sub(left, right)
                } else if c == '*' {
                    Expr::Mul(left, right)
                } else {
                    Expr::Div(left, right)
                };
                return (name, e);
            }
            i = i + 1;
        }
        oi = oi + 1;
    }
    (name, Expr::Constant(0))
}

} // verus!
