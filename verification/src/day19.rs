//! Robot-factory optimization: given a blueprint of robot costs and a time
//! budget, find the greatest number of geodes a best-first branch-and-bound
//! search over build decisions can collect.
//!
//! The model has four resource lanes (ore, clay, obsidian, geode).  A state
//! holds the current stock, the current robot counts (the production rate)
//! and the remaining time.  From a state, one child per robot kind is formed
//! by waiting just long enough to afford that robot and building it; the
//! search prunes children whose optimistic bound cannot beat the best yield
//! found so far.

use vstd::prelude::*;
use crate::frontier::{Entry, Prio, Frontier, frontier_set, frontier_new, frontier_push,
    frontier_pop};

verus! {

/// Largest accepted time budget; keeps every intermediate quantity of the
/// search comfortably inside `u64`.
pub const TIME_CAP: u64 = 65536;

/// A four-lane record of non-negative quantities, used both for held stock
/// and for production rates (robot counts).
#[derive(Clone, Copy, Debug, PartialEq, Eq, Structural)]
pub struct Res {
    pub ore: u64,
    pub clay: u64,
    pub obsidian: u64,
    pub geode: u64,
}

/// The immutable cost model: one cost vector per robot kind, and the derived
/// per-lane purchase caps (`max_cost`).  Owning more robots of a non-geode
/// kind than the most of that resource any single purchase can spend is
/// never useful; geode robots are never capped.
#[derive(Clone, Copy, Debug, PartialEq, Eq, Structural)]
pub struct Blueprint {
    pub ore_cost: Res,
    pub clay_cost: Res,
    pub obsidian_cost: Res,
    pub geode_cost: Res,
    pub max_cost: Res,
}

/// One point of the search: stock, robot counts, and time units left.
#[derive(Clone, Copy, Debug, PartialEq, Eq, Structural)]
pub struct State {
    pub resources: Res,
    pub robots: Res,
    pub remaining: u64,
}

/// The four robot kinds.
#[derive(Clone, Copy, Debug, PartialEq, Eq, Structural)]
pub enum Kind {
    Ore,
    Clay,
    Obsidian,
    Geode,
}

pub open spec fn max_nat(a: nat, b: nat) -> nat {
    if a >= b {
        a
    } else {
        b
    }
}

/// The stock covers the cost on every lane.
pub open spec fn covered(cost: Res, stock: Res) -> bool {
    &&& stock.ore >= cost.ore
    &&& stock.clay >= cost.clay
    &&& stock.obsidian >= cost.obsidian
    &&& stock.geode >= cost.geode
}

/// After `w` full time units of production the cost is payable.
pub open spec fn covered_after(cost: Res, stock: Res, rate: Res, w: int) -> bool {
    &&& stock.ore + w * rate.ore >= cost.ore
    &&& stock.clay + w * rate.clay >= cost.clay
    &&& stock.obsidian + w * rate.obsidian >= cost.obsidian
    &&& stock.geode + w * rate.geode >= cost.geode
}

/// Some lane has a positive cost, not enough stock, and no production at
/// all: no amount of waiting makes the cost payable.
pub open spec fn never_payable(cost: Res, stock: Res, rate: Res) -> bool {
    ||| (cost.ore > stock.ore && rate.ore == 0)
    ||| (cost.clay > stock.clay && rate.clay == 0)
    ||| (cost.obsidian > stock.obsidian && rate.obsidian == 0)
    ||| (cost.geode > stock.geode && rate.geode == 0)
}

/// Minimal wait for one lane: zero when the stock already covers the cost,
/// otherwise the ceiling of the deficit divided by the rate.
pub open spec fn lane_wait(c: u64, s: u64, r: u64) -> nat {
    if s >= c {
        0
    } else {
        (((c - s) + (r - 1)) / (r as int)) as nat
    }
}

/// Minimal wait over all four lanes: every deficit must have cleared before
/// the purchase can be made.
pub open spec fn spec_wait(cost: Res, stock: Res, rate: Res) -> nat {
    max_nat(
        max_nat(lane_wait(cost.ore, stock.ore, rate.ore), lane_wait(cost.clay, stock.clay, rate.clay)),
        max_nat(
            lane_wait(cost.obsidian, stock.obsidian, rate.obsidian),
            lane_wait(cost.geode, stock.geode, rate.geode),
        ),
    )
}

proof fn lemma_lane_wait(c: u64, s: u64, r: u64)
    requires
        !(c > s && r == 0),
    ensures
        s + lane_wait(c, s, r) * r >= c,
        lane_wait(c, s, r) > 0 ==> s + (lane_wait(c, s, r) - 1) * r < c,
        lane_wait(c, s, r) == 0 ==> s >= c,
{
    if s >= c {
    } else {
        let d = c - s;
        let w = lane_wait(c, s, r) as int;
        vstd::arithmetic::div_mod::lemma_fundamental_div_mod(d + r - 1, r as int);
        let m = (d + r - 1) % (r as int);
        assert(d + r - 1 == (r as int) * w + m);
        assert(w * r >= d) by (nonlinear_arith)
            requires
                d + r - 1 == (r as int) * w + m,
                0 <= m < r,
        ;
        assert((w - 1) * r < d) by (nonlinear_arith)
            requires
                d + r - 1 == (r as int) * w + m,
                0 <= m < r,
        ;
        assert(w > 0) by (nonlinear_arith)
            requires
                d + r - 1 == (r as int) * w + m,
                0 <= m < r,
                d >= 1,
        ;
    }
}

proof fn lemma_lane_mono(c: u64, s: u64, r: u64, w1: int, w2: int)
    requires
        0 <= w1 <= w2,
        s + w1 * r >= c,
    ensures
        s + w2 * r >= c,
{
    assert(w1 * r <= w2 * r) by (nonlinear_arith)
        requires
            0 <= w1 <= w2,
    ;
}

/// Waiting longer never stops a cost from being payable.
pub proof fn lemma_covered_after_monotone(cost: Res, stock: Res, rate: Res, w1: int, w2: int)
    requires
        0 <= w1 <= w2,
        covered_after(cost, stock, rate, w1),
    ensures
        covered_after(cost, stock, rate, w2),
{
    lemma_lane_mono(cost.ore, stock.ore, rate.ore, w1, w2);
    lemma_lane_mono(cost.clay, stock.clay, rate.clay, w1, w2);
    lemma_lane_mono(cost.obsidian, stock.obsidian, rate.obsidian, w1, w2);
    lemma_lane_mono(cost.geode, stock.geode, rate.geode, w1, w2);
}

/// The minimal wait covers the cost, and one unit less does not.
pub proof fn lemma_spec_wait_minimal(cost: Res, stock: Res, rate: Res)
    requires
        !never_payable(cost, stock, rate),
    ensures
        covered_after(cost, stock, rate, spec_wait(cost, stock, rate) as int),
        spec_wait(cost, stock, rate) > 0 ==> !covered_after(
            cost,
            stock,
            rate,
            spec_wait(cost, stock, rate) - 1,
        ),
        spec_wait(cost, stock, rate) == 0 <==> covered(cost, stock),
{
    let w = spec_wait(cost, stock, rate) as int;
    lemma_lane_wait(cost.ore, stock.ore, rate.ore);
    lemma_lane_wait(cost.clay, stock.clay, rate.clay);
    lemma_lane_wait(cost.obsidian, stock.obsidian, rate.obsidian);
    lemma_lane_wait(cost.geode, stock.geode, rate.geode);
    lemma_lane_mono(cost.ore, stock.ore, rate.ore, lane_wait(cost.ore, stock.ore, rate.ore) as int, w);
    lemma_lane_mono(
        cost.clay,
        stock.clay,
        rate.clay,
        lane_wait(cost.clay, stock.clay, rate.clay) as int,
        w,
    );
    lemma_lane_mono(
        cost.obsidian,
        stock.obsidian,
        rate.obsidian,
        lane_wait(cost.obsidian, stock.obsidian, rate.obsidian) as int,
        w,
    );
    lemma_lane_mono(
        cost.geode,
        stock.geode,
        rate.geode,
        lane_wait(cost.geode, stock.geode, rate.geode) as int,
        w,
    );
}

fn lane_wait_exec(c: u64, s: u64, r: u64) -> (w: Option<u64>)
    ensures
        match w {
            Some(v) => !(c > s && r == 0) && v == lane_wait(c, s, r),
            None => c > s && r == 0,
        },
{
    if s >= c {
        Some(0)
    } else if r == 0 {
        None
    } else {
        let d = c - s;
        let q = d / r;
        let m = d % r;
        proof {
            vstd::arithmetic::div_mod::lemma_fundamental_div_mod(d as int, r as int);
            if m == 0 {
                assert(d + r - 1 == (r as int) * (q as int) + (r - 1)) by (nonlinear_arith)
                    requires
                        d == (r as int) * (q as int) + m,
                        m == 0,
                ;
                vstd::arithmetic::div_mod::lemma_fundamental_div_mod_converse(
                    d + r - 1,
                    r as int,
                    q as int,
                    r - 1,
                );
            } else {
                assert(d + r - 1 == (r as int) * (q + 1 as int) + (m - 1)) by (nonlinear_arith)
                    requires
                        d == (r as int) * (q as int) + m,
                ;
                vstd::arithmetic::div_mod::lemma_fundamental_div_mod_converse(
                    d + r - 1,
                    r as int,
                    q + 1 as int,
                    m - 1,
                );
                assert((q as int) * (r as int) <= d - 1) by (nonlinear_arith)
                    requires
                        d == (r as int) * (q as int) + m,
                        m >= 1,
                ;
                assert(q as int <= d - 1) by (nonlinear_arith)
                    requires
                        (q as int) * (r as int) <= d - 1,
                        r >= 1,
                        q >= 0,
                ;
            }
        }
        if m == 0 {
            Some(q)
        } else {
            Some(q + 1)
        }
    }
}

/// Affordability calculator: the minimal number `w` of whole time units of
/// production after which the stock covers the cost on every lane, or `None`
/// when some lane has a positive cost, not enough stock and no production.
/// A result of zero means the cost is payable right away.
pub fn wait_time(cost: &Res, stock: &Res, rate: &Res) -> (r: Option<u64>)
    ensures
        r is Some <==> !never_payable(*cost, *stock, *rate),
        r is Some ==> r->Some_0 == spec_wait(*cost, *stock, *rate),
        r is Some ==> covered_after(*cost, *stock, *rate, r->Some_0 as int),
        r is Some && r->Some_0 > 0 ==> !covered_after(*cost, *stock, *rate, r->Some_0 - 1),
        r == Some(0u64) <==> covered(*cost, *stock),
{
    let w_ore = match lane_wait_exec(cost.ore, stock.ore, rate.ore) {
        Some(v) => v,
        None => {
            return None;
        },
    };
    let w_clay = match lane_wait_exec(cost.clay, stock.clay, rate.clay) {
        Some(v) => v,
        None => {
            return None;
        },
    };
    let w_obsidian = match lane_wait_exec(cost.obsidian, stock.obsidian, rate.obsidian) {
        Some(v) => v,
        None => {
            return None;
        },
    };
    let w_geode = match lane_wait_exec(cost.geode, stock.geode, rate.geode) {
        Some(v) => v,
        None => {
            return None;
        },
    };
    let mut w = w_ore;
    if w_clay > w {
        w = w_clay;
    }
    if w_obsidian > w {
        w = w_obsidian;
    }
    if w_geode > w {
        w = w_geode;
    }
    proof {
        lemma_spec_wait_minimal(*cost, *stock, *rate);
    }
    Some(w)
}

/// Below the minimal wait, the cost is not yet payable: together with the
/// clauses of `wait_time` this makes its result the unique minimal wait.
pub proof fn lemma_wait_time_minimal(cost: Res, stock: Res, rate: Res, w: int)
    requires
        !never_payable(cost, stock, rate),
        0 <= w < spec_wait(cost, stock, rate),
    ensures
        !covered_after(cost, stock, rate, w),
{
    lemma_spec_wait_minimal(cost, stock, rate);
    if covered_after(cost, stock, rate, w) {
        lemma_covered_after_monotone(cost, stock, rate, w, spec_wait(cost, stock, rate) - 1);
    }
}

/// The stock alone already pays for the cost.
pub fn can_afford_now(cost: &Res, resources: &Res) -> (r: bool)
    ensures
        r == covered(*cost, *resources),
{
    cost.ore <= resources.ore && cost.clay <= resources.clay && cost.obsidian
        <= resources.obsidian && cost.geode <= resources.geode
}

pub open spec fn max4(a: u64, b: u64, c: u64, d: u64) -> u64 {
    let m1 = if a >= b {
        a
    } else {
        b
    };
    let m2 = if c >= d {
        c
    } else {
        d
    };
    if m1 >= m2 {
        m1
    } else {
        m2
    }
}

/// A well-formed blueprint: each robot kind costs only the lanes its recipe
/// names, every named coefficient is positive and fits in 32 bits, and the
/// caps are the per-lane maxima of the four costs (zero for geode: geode
/// robots are never capped).
pub open spec fn bp_wf(b: Blueprint) -> bool {
    &&& 1 <= b.ore_cost.ore <= u32::MAX
    &&& b.ore_cost.clay == 0 && b.ore_cost.obsidian == 0 && b.ore_cost.geode == 0
    &&& 1 <= b.clay_cost.ore <= u32::MAX
    &&& b.clay_cost.clay == 0 && b.clay_cost.obsidian == 0 && b.clay_cost.geode == 0
    &&& 1 <= b.obsidian_cost.ore <= u32::MAX && 1 <= b.obsidian_cost.clay <= u32::MAX
    &&& b.obsidian_cost.obsidian == 0 && b.obsidian_cost.geode == 0
    &&& 1 <= b.geode_cost.ore <= u32::MAX && 1 <= b.geode_cost.obsidian <= u32::MAX
    &&& b.geode_cost.clay == 0 && b.geode_cost.geode == 0
    &&& b.max_cost.ore == max4(b.ore_cost.ore, b.clay_cost.ore, b.obsidian_cost.ore, b.geode_cost.ore)
    &&& b.max_cost.clay == b.obsidian_cost.clay
    &&& b.max_cost.obsidian == b.geode_cost.obsidian
    &&& b.max_cost.geode == 0
}

impl Blueprint {
    /// Builds the cost model from the six positive coefficients: the ore
    /// robot's ore cost, the clay robot's ore cost, the obsidian robot's ore
    /// and clay costs, and the geode robot's ore and obsidian costs.
    pub fn new(ore_ore: u32, clay_ore: u32, obsidian_ore: u32, obsidian_clay: u32, geode_ore: u32,
        geode_obsidian: u32) -> (b: Blueprint)
        requires
            ore_ore >= 1,
            clay_ore >= 1,
            obsidian_ore >= 1,
            obsidian_clay >= 1,
            geode_ore >= 1,
            geode_obsidian >= 1,
        ensures
            bp_wf(b),
            b.ore_cost == (Res { ore: ore_ore as u64, clay: 0u64, obsidian: 0u64, geode: 0u64 }),
            b.clay_cost == (Res { ore: clay_ore as u64, clay: 0u64, obsidian: 0u64, geode: 0u64 }),
            b.obsidian_cost == (Res {
                ore: obsidian_ore as u64,
                clay: obsidian_clay as u64,
                obsidian: 0u64,
                geode: 0u64,
            }),
            b.geode_cost == (Res {
                ore: geode_ore as u64,
                clay: 0u64,
                obsidian: geode_obsidian as u64,
                geode: 0u64,
            }),
    {
        let mut max_ore: u64 = ore_ore as u64;
        if (clay_ore as u64) > max_ore {
            max_ore = clay_ore as u64;
        }
        if (obsidian_ore as u64) > max_ore {
            max_ore = obsidian_ore as u64;
        }
        if (geode_ore as u64) > max_ore {
            max_ore = geode_ore as u64;
        }
        Blueprint {
            ore_cost: Res { ore: ore_ore as u64, clay: 0, obsidian: 0, geode: 0 },
            clay_cost: Res { ore: clay_ore as u64, clay: 0, obsidian: 0, geode: 0 },
            obsidian_cost: Res {
                ore: obsidian_ore as u64,
                clay: obsidian_clay as u64,
                obsidian: 0,
                geode: 0,
            },
            geode_cost: Res {
                ore: geode_ore as u64,
                clay: 0,
                obsidian: geode_obsidian as u64,
                geode: 0,
            },
            max_cost: Res {
                ore: max_ore,
                clay: obsidian_clay as u64,
                obsidian: geode_obsidian as u64,
                geode: 0,
            },
        }
    }
}

/// A well-formed search state for blueprint `b`: the remaining time fits the
/// budget cap, no non-geode robot count exceeds its blueprint-derived cap,
/// the geode robot count fits the time already spent, and every stock lane
/// is bounded by the production possible in the time already spent.
pub open spec fn st_wf(b: Blueprint, s: State) -> bool {
    &&& s.remaining <= TIME_CAP
    &&& s.robots.ore <= b.max_cost.ore
    &&& s.robots.clay <= b.max_cost.clay
    &&& s.robots.obsidian <= b.max_cost.obsidian
    &&& s.robots.geode + s.remaining <= TIME_CAP
    &&& s.resources.ore <= (TIME_CAP - s.remaining) * b.max_cost.ore
    &&& s.resources.clay <= (TIME_CAP - s.remaining) * b.max_cost.clay
    &&& s.resources.obsidian <= (TIME_CAP - s.remaining) * b.max_cost.obsidian
    &&& s.resources.geode <= (TIME_CAP - s.remaining) * TIME_CAP
}

/// The cost vector of one robot kind.
pub open spec fn cost_of(b: Blueprint, k: Kind) -> Res {
    match k {
        Kind::Ore => b.ore_cost,
        Kind::Clay => b.clay_cost,
        Kind::Obsidian => b.obsidian_cost,
        Kind::Geode => b.geode_cost,
    }
}

/// Whether another robot of kind `k` is still worth building: non-geode
/// kinds are capped at the most of their resource one purchase can spend,
/// geode robots never are.
pub open spec fn below_cap(b: Blueprint, s: State, k: Kind) -> bool {
    match k {
        Kind::Ore => s.robots.ore < b.max_cost.ore,
        Kind::Clay => s.robots.clay < b.max_cost.clay,
        Kind::Obsidian => s.robots.obsidian < b.max_cost.obsidian,
        Kind::Geode => true,
    }
}

/// The robot vector with lane `k` incremented.
pub open spec fn with_robot(r: Res, k: Kind) -> Res {
    match k {
        Kind::Ore => Res { ore: (r.ore + 1) as u64, clay: r.clay, obsidian: r.obsidian, geode: r.geode },
        Kind::Clay => Res { ore: r.ore, clay: (r.clay + 1) as u64, obsidian: r.obsidian, geode: r.geode },
        Kind::Obsidian => Res {
            ore: r.ore,
            clay: r.clay,
            obsidian: (r.obsidian + 1) as u64,
            geode: r.geode,
        },
        Kind::Geode => Res { ore: r.ore, clay: r.clay, obsidian: r.obsidian, geode: (r.geode + 1) as u64 },
    }
}

/// Stock after `w` waiting units plus the build unit of production.
pub open spec fn harvest(stock: Res, rate: Res, w: nat) -> Res {
    Res {
        ore: (stock.ore + (w + 1) * rate.ore) as u64,
        clay: (stock.clay + (w + 1) * rate.clay) as u64,
        obsidian: (stock.obsidian + (w + 1) * rate.obsidian) as u64,
        geode: (stock.geode + (w + 1) * rate.geode) as u64,
    }
}

/// Stock after paying a (covered) cost.
pub open spec fn pay(stock: Res, cost: Res) -> Res {
    Res {
        ore: (stock.ore - cost.ore) as u64,
        clay: (stock.clay - cost.clay) as u64,
        obsidian: (stock.obsidian - cost.obsidian) as u64,
        geode: (stock.geode - cost.geode) as u64,
    }
}

/// The child state reached from `s` by building one robot of kind `k` next:
/// none when the kind is capped, the cost can never be paid, or the minimal
/// wait leaves no time for the new robot to be built.
pub open spec fn spec_child(b: Blueprint, s: State, k: Kind) -> Option<State> {
    let cost = cost_of(b, k);
    if !below_cap(b, s, k) {
        None
    } else if never_payable(cost, s.resources, s.robots) {
        None
    } else {
        let w = spec_wait(cost, s.resources, s.robots);
        if w < s.remaining {
            Some(State {
                resources: pay(harvest(s.resources, s.robots, w), cost),
                robots: with_robot(s.robots, k),
                remaining: (s.remaining - w - 1) as u64,
            })
        } else {
            None
        }
    }
}

proof fn lemma_lane_child(stock: u64, rate: u64, rmax: int, cl: u64, w: nat, rem: int, crem: int)
    requires
        stock <= (TIME_CAP - rem) * rmax,
        rate <= rmax,
        0 <= rmax <= u32::MAX,
        0 <= crem < rem <= TIME_CAP,
        w + 1 == rem - crem,
        stock + w * rate >= cl,
    ensures
        cl <= stock + (w + 1) * rate,
        stock + (w + 1) * rate <= (TIME_CAP - crem) * rmax,
        stock + (w + 1) * rate <= 0x1_0000_0000_0000,
{
    assert((w + 1) * rate >= w * rate && stock + (w + 1) * rate <= (TIME_CAP - crem) * rmax && (
    TIME_CAP - crem) * rmax <= 0x1_0000_0000_0000) by (nonlinear_arith)
        requires
            stock <= (TIME_CAP - rem) * rmax,
            rate <= rmax,
            0 <= rmax <= u32::MAX,
            0 <= crem < rem <= TIME_CAP,
            w + 1 == rem - crem,
            stock >= 0,
            rate >= 0,
    ;
}

/// Building a robot preserves state well-formedness and strictly decreases
/// the remaining time; in particular no child ever exceeds a robot cap.
/// The numeric clauses give the child's stock lanes exactly and show every
/// intermediate quantity fits well inside `u64`.
pub proof fn lemma_child_wf(b: Blueprint, s: State, k: Kind)
    requires
        bp_wf(b),
        st_wf(b, s),
        spec_child(b, s, k) is Some,
    ensures
        st_wf(b, spec_child(b, s, k)->Some_0),
        spec_child(b, s, k)->Some_0.remaining < s.remaining,
        spec_child(b, s, k)->Some_0.robots == with_robot(s.robots, k),
        ({
            let cost = cost_of(b, k);
            let w = spec_wait(cost, s.resources, s.robots);
            let c = spec_child(b, s, k)->Some_0;
            &&& covered_after(cost, s.resources, s.robots, w + 1 as int)
            &&& c.remaining == s.remaining - w - 1
            &&& c.resources.ore == s.resources.ore + (w + 1) * s.robots.ore - cost.ore
            &&& c.resources.clay == s.resources.clay + (w + 1) * s.robots.clay - cost.clay
            &&& c.resources.obsidian == s.resources.obsidian + (w + 1) * s.robots.obsidian
                - cost.obsidian
            &&& c.resources.geode == s.resources.geode + (w + 1) * s.robots.geode
            &&& s.resources.ore + (w + 1) * s.robots.ore <= 0x1_0000_0000_0000
            &&& s.resources.clay + (w + 1) * s.robots.clay <= 0x1_0000_0000_0000
            &&& s.resources.obsidian + (w + 1) * s.robots.obsidian <= 0x1_0000_0000_0000
            &&& s.resources.geode + (w + 1) * s.robots.geode <= 0x1_0000_0000_0000
        }),
{
    let cost = cost_of(b, k);
    let w = spec_wait(cost, s.resources, s.robots);
    let c = spec_child(b, s, k)->Some_0;
    let rem = s.remaining as int;
    let crem = rem - w - 1;
    lemma_spec_wait_minimal(cost, s.resources, s.robots);
    lemma_lane_child(s.resources.ore, s.robots.ore, b.max_cost.ore as int, cost.ore, w, rem, crem);
    lemma_lane_child(
        s.resources.clay,
        s.robots.clay,
        b.max_cost.clay as int,
        cost.clay,
        w,
        rem,
        crem,
    );
    lemma_lane_child(
        s.resources.obsidian,
        s.robots.obsidian,
        b.max_cost.obsidian as int,
        cost.obsidian,
        w,
        rem,
        crem,
    );
    lemma_lane_child(s.resources.geode, s.robots.geode, TIME_CAP as int, cost.geode, w, rem, crem);
}

/// State transition: produce the child state for building kind `k` next, if
/// that build is possible in the remaining time.
pub fn transition(b: &Blueprint, s: &State, k: Kind) -> (r: Option<State>)
    requires
        bp_wf(*b),
        st_wf(*b, *s),
    ensures
        r == spec_child(*b, *s, k),
        r is Some ==> st_wf(*b, r->Some_0) && r->Some_0.remaining < s.remaining,
{
    let cost = match k {
        Kind::Ore => &b.ore_cost,
        Kind::Clay => &b.clay_cost,
        Kind::Obsidian => &b.obsidian_cost,
        Kind::Geode => &b.geode_cost,
    };
    let capped = match k {
        Kind::Ore => s.robots.ore >= b.max_cost.ore,
        Kind::Clay => s.robots.clay >= b.max_cost.clay,
        Kind::Obsidian => s.robots.obsidian >= b.max_cost.obsidian,
        Kind::Geode => false,
    };
    if capped {
        return None;
    }
    match wait_time(cost, &s.resources, &s.robots) {
        None => None,
        Some(w) => {
            if w < s.remaining {
                proof {
                    lemma_child_wf(*b, *s, k);
                    lemma_covered_after_monotone(
                        *cost,
                        s.resources,
                        s.robots,
                        w as int,
                        w + 1 as int,
                    );
                }
                let resources = Res {
                    ore: s.resources.ore + (w + 1) * s.robots.ore - cost.ore,
                    clay: s.resources.clay + (w + 1) * s.robots.clay - cost.clay,
                    obsidian: s.resources.obsidian + (w + 1) * s.robots.obsidian - cost.obsidian,
                    geode: s.resources.geode + (w + 1) * s.robots.geode - cost.geode,
                };
                let robots = match k {
                    Kind::Ore => Res { ore: s.robots.ore + 1, ..s.robots },
                    Kind::Clay => Res { clay: s.robots.clay + 1, ..s.robots },
                    Kind::Obsidian => Res { obsidian: s.robots.obsidian + 1, ..s.robots },
                    Kind::Geode => Res { geode: s.robots.geode + 1, ..s.robots },
                };
                Some(State { resources, robots, remaining: s.remaining - w - 1 })
            } else {
                None
            }
        },
    }
}

/// The best geode count the search can realize from state `s`: the geode
/// stock at a leaf with no time left, and otherwise the best over the up to
/// four child states.  A state with time left but no possible build scores
/// nothing: only leaves reached with exactly zero time remaining count.
pub open spec fn spec_best(b: Blueprint, s: State) -> nat
    decreases s.remaining,
{
    if s.remaining == 0 {
        s.resources.geode as nat
    } else {
        let vg = match spec_child(b, s, Kind::Geode) {
            Some(c) => spec_best(b, c),
            None => 0,
        };
        let vo = match spec_child(b, s, Kind::Obsidian) {
            Some(c) => spec_best(b, c),
            None => 0,
        };
        let vc = match spec_child(b, s, Kind::Clay) {
            Some(c) => spec_best(b, c),
            None => 0,
        };
        let vr = match spec_child(b, s, Kind::Ore) {
            Some(c) => spec_best(b, c),
            None => 0,
        };
        max_nat(max_nat(vg, vo), max_nat(vc, vr))
    }
}

/// Sum of all naturals below `r`: the most geodes that robots not yet owned
/// could add, if one more geode robot were finished on each remaining time
/// unit for free (the first can finish one unit from now at the earliest and
/// then produces for `r - 1` units, the next for `r - 2`, and so on).
pub open spec fn spec_tri(r: nat) -> nat
    decreases r,
{
    if r == 0 {
        0
    } else {
        (spec_tri((r - 1) as nat) + (r - 1)) as nat
    }
}

/// Optimistic projection of the final geode count from `s`: current stock,
/// plus everything the owned geode robots will produce, plus `spec_tri` for
/// hypothetical new geode robots.  `lemma_bound_admissible` shows it never
/// underestimates, so it is safe both as ordering key and pruning threshold.
pub open spec fn spec_bound(s: State) -> nat {
    (s.resources.geode + s.robots.geode * s.remaining + spec_tri(s.remaining as nat)) as nat
}

proof fn lemma_tri_mono(a: nat, r: nat)
    requires
        a <= r,
    ensures
        spec_tri(a) <= spec_tri(r),
    decreases r,
{
    if a < r {
        lemma_tri_mono(a, (r - 1) as nat);
    }
}

proof fn lemma_tri_quadratic(r: nat)
    ensures
        2 * spec_tri(r) == r * (r - 1) || r == 0,
        spec_tri(r) <= r * r,
    decreases r,
{
    if r > 0 {
        lemma_tri_quadratic((r - 1) as nat);
        assert(2 * spec_tri(r) == r * (r - 1) && spec_tri(r) <= r * r) by (nonlinear_arith)
            requires
                r >= 1,
                2 * spec_tri((r - 1) as nat) == (r - 1) * (r - 2) || r == 1,
                spec_tri((r - 1) as nat) <= (r - 1) * (r - 1),
                spec_tri(r) == spec_tri((r - 1) as nat) + (r - 1),
        ;
    }
}

/// The optimistic projection of a child never exceeds the parent's.
proof fn lemma_bound_child(b: Blueprint, s: State, k: Kind)
    requires
        bp_wf(b),
        st_wf(b, s),
        spec_child(b, s, k) is Some,
    ensures
        spec_bound(spec_child(b, s, k)->Some_0) <= spec_bound(s),
{
    let cost = cost_of(b, k);
    let w = spec_wait(cost, s.resources, s.robots);
    let c = spec_child(b, s, k)->Some_0;
    let rem = s.remaining as int;
    let crem = c.remaining as int;
    let g = s.robots.geode as int;
    lemma_child_wf(b, s, k);
    assert((w + 1) * g + g * crem == g * rem) by (nonlinear_arith)
        requires
            w + 1 == rem - crem,
    ;
    lemma_tri_mono((crem + 1) as nat, rem as nat);
    assert(c.resources.geode == s.resources.geode + (w + 1) * g);
    assert(spec_bound(s) == s.resources.geode + g * rem + spec_tri(rem as nat));
    match k {
        Kind::Geode => {
            assert(c.robots.geode == g + 1);
            assert(spec_tri((crem + 1) as nat) == spec_tri(crem as nat) + crem);
            assert((w + 1) * g + (g + 1) * crem == g * rem + crem) by (nonlinear_arith)
                requires
                    w + 1 == rem - crem,
            ;
            assert(spec_bound(c) == s.resources.geode + (w + 1) * g + (g + 1) * crem + spec_tri(
                crem as nat,
            ));
            assert(spec_bound(c) == s.resources.geode + g * rem + spec_tri((crem + 1) as nat));
            assert(spec_bound(c) <= spec_bound(s));
        },
        _ => {
            assert(c.robots.geode == g);
            lemma_tri_mono(crem as nat, rem as nat);
            assert(spec_bound(c) == s.resources.geode + (w + 1) * g + g * crem + spec_tri(
                crem as nat,
            ));
            assert(spec_bound(c) == s.resources.geode + g * rem + spec_tri(crem as nat));
            assert(spec_bound(c) <= spec_bound(s));
        },
    }
}

/// Bound soundness: from any well-formed state, the optimistic projection is
/// at least the best geode yield the search can realize from it, so a state
/// whose projection does not beat the running best may be discarded.
pub proof fn lemma_bound_admissible(b: Blueprint, s: State)
    requires
        bp_wf(b),
        st_wf(b, s),
    ensures
        spec_best(b, s) <= spec_bound(s),
    decreases s.remaining,
{
    if s.remaining == 0 {
    } else {
        if spec_child(b, s, Kind::Geode) is Some {
            lemma_child_wf(b, s, Kind::Geode);
            lemma_bound_admissible(b, spec_child(b, s, Kind::Geode)->Some_0);
            lemma_bound_child(b, s, Kind::Geode);
        }
        if spec_child(b, s, Kind::Obsidian) is Some {
            lemma_child_wf(b, s, Kind::Obsidian);
            lemma_bound_admissible(b, spec_child(b, s, Kind::Obsidian)->Some_0);
            lemma_bound_child(b, s, Kind::Obsidian);
        }
        if spec_child(b, s, Kind::Clay) is Some {
            lemma_child_wf(b, s, Kind::Clay);
            lemma_bound_admissible(b, spec_child(b, s, Kind::Clay)->Some_0);
            lemma_bound_child(b, s, Kind::Clay);
        }
        if spec_child(b, s, Kind::Ore) is Some {
            lemma_child_wf(b, s, Kind::Ore);
            lemma_bound_admissible(b, spec_child(b, s, Kind::Ore)->Some_0);
            lemma_bound_child(b, s, Kind::Ore);
        }
    }
}

/// Upper-bound estimator: the optimistic projection of the final geode
/// count, used both to order the frontier and to prune.
pub fn bound(b: &Blueprint, s: &State) -> (r: u64)
    requires
        bp_wf(*b),
        st_wf(*b, *s),
    ensures
        r == spec_bound(*s),
{
    proof {
        lemma_tri_quadratic(s.remaining as nat);
        assert(s.resources.geode <= TIME_CAP * TIME_CAP && s.robots.geode * s.remaining <= TIME_CAP
            * TIME_CAP && s.remaining * (s.remaining - 1) <= TIME_CAP * TIME_CAP)
            by (nonlinear_arith)
            requires
                s.resources.geode <= (TIME_CAP - s.remaining) * TIME_CAP,
                s.robots.geode <= TIME_CAP,
                s.remaining <= TIME_CAP,
        ;
        if s.remaining > 0 {
            vstd::arithmetic::div_mod::lemma_div_multiples_vanish(
                spec_tri(s.remaining as nat) as int,
                2,
            );
            assert((s.remaining * (s.remaining - 1)) as int == 2 * (spec_tri(
                s.remaining as nat,
            ) as int));
        }
    }
    if s.remaining == 0 {
        s.resources.geode
    } else {
        s.resources.geode + s.robots.geode * s.remaining + (s.remaining * (s.remaining - 1)) / 2
    }
}

/// The state packed inside a frontier entry.
pub open spec fn state_of(e: Entry) -> State {
    State {
        resources: Res { ore: e.0.0, clay: e.0.1, obsidian: e.0.2, geode: e.0.3 },
        robots: Res { ore: e.1.0, clay: e.1.1, obsidian: e.1.2, geode: e.1.3 },
        remaining: e.3,
    }
}

/// Sum of the four lanes of a priority key.
pub open spec fn prio_sum(p: Prio) -> int {
    p.0 + p.1 + p.2 + p.3
}

/// The priority key of the child built from a parent with key `p`: the lane
/// of the kind just built grows by everything the new robot will produce.
/// The key's lane order is (geode, obsidian, clay, ore).
pub open spec fn spec_child_prio(p: Prio, k: Kind, crem: u64) -> Prio {
    match k {
        Kind::Geode => ((p.0 + crem) as u64, p.1, p.2, p.3),
        Kind::Obsidian => (p.0, (p.1 + crem) as u64, p.2, p.3),
        Kind::Clay => (p.0, p.1, (p.2 + crem) as u64, p.3),
        Kind::Ore => (p.0, p.1, p.2, (p.3 + crem) as u64),
    }
}

/// Every entry the frontier may hold: a well-formed state, a consistent
/// remaining-time lane, and a priority-key sum small enough that bumping a
/// lane can never overflow.
pub open spec fn entry_inv(b: Blueprint, e: Entry) -> bool {
    &&& st_wf(b, state_of(e))
    &&& prio_sum(e.2) <= TIME_CAP + (TIME_CAP - e.3) * TIME_CAP
}

/// The frontier entry packing a state and its priority key.
pub open spec fn spec_entry(s: State, p: Prio) -> Entry {
    (
        (s.resources.ore, s.resources.clay, s.resources.obsidian, s.resources.geode),
        (s.robots.ore, s.robots.clay, s.robots.obsidian, s.robots.geode),
        p,
        s.remaining,
    )
}

fn make_entry(s: &State, p: Prio) -> (e: Entry)
    ensures
        e == spec_entry(*s, p),
        state_of(e) == *s,
        e.2 == p,
        e.3 == s.remaining,
{
    (
        (s.resources.ore, s.resources.clay, s.resources.obsidian, s.resources.geode),
        (s.robots.ore, s.robots.clay, s.robots.obsidian, s.robots.geode),
        p,
        s.remaining,
    )
}

fn state_from_entry(e: &Entry) -> (s: State)
    ensures
        s == state_of(*e),
{
    State {
        resources: Res { ore: e.0.0, clay: e.0.1, obsidian: e.0.2, geode: e.0.3 },
        robots: Res { ore: e.1.0, clay: e.1.1, obsidian: e.1.2, geode: e.1.3 },
        remaining: e.3,
    }
}

/// Powers of five, the per-entry weight base of the termination measure: a
/// popped entry is replaced by at most four entries of strictly smaller
/// remaining time, and four weights of the next-smaller level stay below one
/// weight of the popped level.
pub open spec fn pow5(n: nat) -> nat
    decreases n,
{
    if n == 0 {
        1
    } else {
        5 * pow5((n - 1) as nat)
    }
}

proof fn lemma_pow5_pos(n: nat)
    ensures
        pow5(n) >= 1,
    decreases n,
{
    if n > 0 {
        lemma_pow5_pos((n - 1) as nat);
    }
}

proof fn lemma_pow5_mono(a: nat, n: nat)
    requires
        a <= n,
    ensures
        pow5(a) <= pow5(n),
    decreases n,
{
    lemma_pow5_pos(a);
    if a < n {
        lemma_pow5_mono(a, (n - 1) as nat);
        lemma_pow5_pos((n - 1) as nat);
    }
}

/// The weight of one frontier entry.
pub open spec fn entry_weight(e: Entry) -> nat {
    pow5(e.3 as nat)
}

pub open spec fn weight_step(acc: nat, e: Entry) -> nat {
    acc + entry_weight(e)
}

/// The termination measure of the search loop: the summed weight of the
/// frontier's entries.
pub open spec fn potential(s: Set<Entry>) -> nat {
    s.fold(0nat, |acc: nat, e: Entry| weight_step(acc, e))
}

proof fn lemma_weight_step_commutes()
    ensures
        vstd::set::fold::is_fun_commutative(|acc: nat, e: Entry| weight_step(acc, e)),
{
}

proof fn lemma_potential_insert(s: Set<Entry>, e: Entry)
    requires
        s.finite(),
    ensures
        potential(s.insert(e)) == potential(s) + if s.contains(e) {
            0nat
        } else {
            entry_weight(e)
        },
{
    lemma_weight_step_commutes();
    if s.contains(e) {
        assert(s.insert(e) =~= s);
    } else {
        vstd::set::fold::lemma_fold_insert(s, 0nat, |acc: nat, x: Entry| weight_step(acc, x), e);
    }
}

proof fn lemma_potential_remove(s: Set<Entry>, e: Entry)
    requires
        s.finite(),
        s.contains(e),
    ensures
        potential(s) == potential(s.remove(e)) + entry_weight(e),
{
    lemma_weight_step_commutes();
    vstd::set::fold::lemma_fold_insert(
        s.remove(e),
        0nat,
        |acc: nat, x: Entry| weight_step(acc, x),
        e,
    );
    assert(s.remove(e).insert(e) =~= s);
}

proof fn lemma_potential_empty()
    ensures
        potential(Set::<Entry>::empty()) == 0,
{
    vstd::set::fold::lemma_fold_empty(0nat, |acc: nat, x: Entry| weight_step(acc, x));
}

/// Score a child and push it when its optimistic projection beats the
/// running best.  Leaves the frontier unchanged when the build is not
/// possible or the child cannot beat `candidate`.
fn push_child(b: &Blueprint, q: &mut Frontier, s: &State, p: Prio, k: Kind, candidate: u64)
    requires
        bp_wf(*b),
        st_wf(*b, *s),
        s.remaining > 0,
        frontier_set(*old(q)).finite(),
        prio_sum(p) <= TIME_CAP + (TIME_CAP - s.remaining) * TIME_CAP,
    ensures
        ({
            let oc = spec_child(*b, *s, k);
            match oc {
                Some(c) => {
                    if spec_bound(c) > candidate {
                        let e = spec_entry(c, spec_child_prio(p, k, c.remaining));
                        &&& frontier_set(*final(q)) == frontier_set(*old(q)).insert(e)
                        &&& state_of(e) == c
                        &&& entry_inv(*b, e)
                        &&& e.3 < s.remaining
                    } else {
                        frontier_set(*final(q)) == frontier_set(*old(q))
                    }
                },
                None => frontier_set(*final(q)) == frontier_set(*old(q)),
            }
        }),
{
    match transition(b, s, k) {
        None => {},
        Some(c) => {
            let bd = bound(b, &c);
            if bd > candidate {
                let crem = c.remaining;
                proof {
                    assert(prio_sum(p) <= TIME_CAP + TIME_CAP * TIME_CAP && crem + (TIME_CAP
                        - s.remaining) * TIME_CAP <= (TIME_CAP - crem) * TIME_CAP)
                        by (nonlinear_arith)
                        requires
                            prio_sum(p) <= TIME_CAP + (TIME_CAP - s.remaining) * TIME_CAP,
                            0 <= crem < s.remaining <= TIME_CAP,
                    ;
                }
                let np = match k {
                    Kind::Geode => (p.0 + crem, p.1, p.2, p.3),
                    Kind::Obsidian => (p.0, p.1 + crem, p.2, p.3),
                    Kind::Clay => (p.0, p.1, p.2 + crem, p.3),
                    Kind::Ore => (p.0, p.1, p.2, p.3 + crem),
                };
                let e = make_entry(&c, np);
                frontier_push(q, e);
            }
        },
    }
}

/// Expand a popped state: try to build each robot kind, geodes first, and
/// push every child whose optimistic projection beats `candidate`.
fn expand(b: &Blueprint, q: &mut Frontier, s: &State, p: Prio, candidate: u64, Ghost(target):
    Ghost<nat>)
    requires
        bp_wf(*b),
        st_wf(*b, *s),
        s.remaining > 0,
        frontier_set(*old(q)).finite(),
        prio_sum(p) <= TIME_CAP + (TIME_CAP - s.remaining) * TIME_CAP,
        spec_best(*b, *s) <= target,
        candidate <= target,
        forall|x: Entry| #[trigger] frontier_set(*old(q)).contains(x) ==> entry_inv(*b, x)
            && spec_best(*b, state_of(x)) <= target,
    ensures
        frontier_set(*final(q)).finite(),
        forall|x: Entry| #[trigger] frontier_set(*final(q)).contains(x) ==> entry_inv(*b, x)
            && spec_best(*b, state_of(x)) <= target,
        forall|x: Entry| #[trigger] frontier_set(*old(q)).contains(x) ==> frontier_set(
            *final(q),
        ).contains(x),
        potential(frontier_set(*final(q))) <= potential(frontier_set(*old(q))) + 4 * pow5(
            (s.remaining - 1) as nat,
        ),
        spec_best(*b, *s) == target && candidate < target ==> exists|x: Entry|
            #[trigger] frontier_set(*final(q)).contains(x) && spec_best(*b, state_of(x)) == target,
{
    let ghost fs0 = frontier_set(*q);
    proof {
        lemma_step_facts(*b, *s, target, Kind::Geode);
        lemma_step_facts(*b, *s, target, Kind::Obsidian);
        lemma_step_facts(*b, *s, target, Kind::Clay);
        lemma_step_facts(*b, *s, target, Kind::Ore);
    }
    push_child(b, q, s, p, Kind::Geode, candidate);
    let ghost fs1 = frontier_set(*q);
    proof {
        lemma_potential_step(fs0, fs1, *b, *s, p, Kind::Geode, candidate);
    }
    push_child(b, q, s, p, Kind::Obsidian, candidate);
    let ghost fs2 = frontier_set(*q);
    proof {
        lemma_potential_step(fs1, fs2, *b, *s, p, Kind::Obsidian, candidate);
    }
    push_child(b, q, s, p, Kind::Clay, candidate);
    let ghost fs3 = frontier_set(*q);
    proof {
        lemma_potential_step(fs2, fs3, *b, *s, p, Kind::Clay, candidate);
    }
    push_child(b, q, s, p, Kind::Ore, candidate);
    let ghost fs4 = frontier_set(*q);
    proof {
        lemma_potential_step(fs3, fs4, *b, *s, p, Kind::Ore, candidate);
        if spec_best(*b, *s) == target && candidate < target {
            lemma_witness_kind(*b, *s, target);
            let k = choose|k: Kind|
                spec_child(*b, *s, k) is Some && spec_best(*b, spec_child(*b, *s, k)->Some_0)
                    == target;
            let c = spec_child(*b, *s, k)->Some_0;
            lemma_child_wf(*b, *s, k);
            lemma_bound_admissible(*b, c);
            assert(spec_bound(c) > candidate);
            let e = spec_entry(c, spec_child_prio(p, k, c.remaining));
            match k {
                Kind::Geode => {
                    assert(fs1.contains(e));
                },
                Kind::Obsidian => {
                    assert(fs2.contains(e));
                },
                Kind::Clay => {
                    assert(fs3.contains(e));
                },
                Kind::Ore => {
                    assert(fs4.contains(e));
                },
            }
            assert(fs4.contains(e) && spec_best(*b, state_of(e)) == target);
        }
    }
}

/// Facts used for every expansion step: a child's value never beats the
/// parent's, and a child entry weighs at most the next-lower level.
proof fn lemma_step_facts(b: Blueprint, s: State, target: nat, k: Kind)
    requires
        bp_wf(b),
        st_wf(b, s),
        s.remaining > 0,
        spec_best(b, s) <= target,
    ensures
        spec_child(b, s, k) is Some ==> spec_best(b, spec_child(b, s, k)->Some_0) <= target,
{
    if spec_child(b, s, k) is Some {
        let c = spec_child(b, s, k)->Some_0;
        assert(spec_best(b, s) >= spec_best(b, c));
    }
}

/// One push raises the potential by at most one weight of the next-lower
/// level.
proof fn lemma_potential_step(pre: Set<Entry>, post: Set<Entry>, b: Blueprint, s: State, p: Prio,
    k: Kind, candidate: u64)
    requires
        pre.finite(),
        s.remaining > 0,
        ({
            let oc = spec_child(b, s, k);
            match oc {
                Some(c) => {
                    if spec_bound(c) > candidate {
                        let e = spec_entry(c, spec_child_prio(p, k, c.remaining));
                        &&& post == pre.insert(e)
                        &&& e.3 < s.remaining
                    } else {
                        post == pre
                    }
                },
                None => post == pre,
            }
        }),
    ensures
        potential(post) <= potential(pre) + pow5((s.remaining - 1) as nat),
        post.finite(),
{
    match spec_child(b, s, k) {
        Some(c) => {
            if spec_bound(c) > candidate {
                let e = spec_entry(c, spec_child_prio(p, k, c.remaining));
                lemma_potential_insert(pre, e);
                lemma_pow5_mono(e.3 as nat, (s.remaining - 1) as nat);
            }
        },
        None => {},
    }
}

/// When a state's value is positive, some child realizes it.
proof fn lemma_witness_kind(b: Blueprint, s: State, target: nat)
    requires
        s.remaining > 0,
        spec_best(b, s) == target,
        target > 0,
    ensures
        exists|k: Kind|
            spec_child(b, s, k) is Some && spec_best(b, spec_child(b, s, k)->Some_0) == target,
{
    let vg = match spec_child(b, s, Kind::Geode) {
        Some(c) => spec_best(b, c),
        None => 0,
    };
    let vo = match spec_child(b, s, Kind::Obsidian) {
        Some(c) => spec_best(b, c),
        None => 0,
    };
    let vc = match spec_child(b, s, Kind::Clay) {
        Some(c) => spec_best(b, c),
        None => 0,
    };
    let vr = match spec_child(b, s, Kind::Ore) {
        Some(c) => spec_best(b, c),
        None => 0,
    };
    assert(target == max_nat(max_nat(vg, vo), max_nat(vc, vr)));
    if vg == target {
        assert(spec_child(b, s, Kind::Geode) is Some && spec_best(
            b,
            spec_child(b, s, Kind::Geode)->Some_0,
        ) == target);
    } else if vo == target {
        assert(spec_child(b, s, Kind::Obsidian) is Some && spec_best(
            b,
            spec_child(b, s, Kind::Obsidian)->Some_0,
        ) == target);
    } else if vc == target {
        assert(spec_child(b, s, Kind::Clay) is Some && spec_best(
            b,
            spec_child(b, s, Kind::Clay)->Some_0,
        ) == target);
    } else {
        assert(vr == target);
        assert(spec_child(b, s, Kind::Ore) is Some && spec_best(
            b,
            spec_child(b, s, Kind::Ore)->Some_0,
        ) == target);
    }
}


/// The search's starting point: no stock, one ore robot, the whole budget.
pub open spec fn spec_init(t: u64) -> State {
    State {
        resources: Res { ore: 0, clay: 0, obsidian: 0, geode: 0 },
        robots: Res { ore: 1, clay: 0, obsidian: 0, geode: 0 },
        remaining: t,
    }
}

proof fn lemma_init_wf(b: Blueprint, t: u64)
    requires
        bp_wf(b),
        t <= TIME_CAP,
    ensures
        st_wf(b, spec_init(t)),
{
    assert((TIME_CAP - t) * b.max_cost.ore >= 0 && (TIME_CAP - t) * b.max_cost.clay >= 0 && (
    TIME_CAP - t) * b.max_cost.obsidian >= 0 && (TIME_CAP - t) * TIME_CAP >= 0)
        by (nonlinear_arith)
        requires
            t <= TIME_CAP,
            b.max_cost.ore >= 0,
            b.max_cost.clay >= 0,
            b.max_cost.obsidian >= 0,
    ;
}

/// Core entry point: the maximum geode yield the search realizes for a
/// well-formed blueprint and time budget.  The result equals the recursive
/// optimum `spec_best` of the starting state, so it is a function of the
/// blueprint and budget alone: the frontier's tie-break order among entries
/// of equal priority cannot change it.
pub fn max_geodes(b: &Blueprint, time_budget: u64) -> (r: u64)
    requires
        bp_wf(*b),
        time_budget <= TIME_CAP,
    ensures
        r == spec_best(*b, spec_init(time_budget)),
{
    let init = State {
        resources: Res { ore: 0, clay: 0, obsidian: 0, geode: 0 },
        robots: Res { ore: 1, clay: 0, obsidian: 0, geode: 0 },
        remaining: time_budget,
    };
    let ghost target = spec_best(*b, spec_init(time_budget));
    proof {
        lemma_init_wf(*b, time_budget);
    }
    let mut q = frontier_new();
    let e0 = make_entry(&init, (0, 0, 0, time_budget));
    proof {
        lemma_potential_empty();
        lemma_potential_insert(Set::<Entry>::empty(), e0);
        assert(prio_sum(e0.2) <= TIME_CAP + (TIME_CAP - time_budget) * TIME_CAP)
            by (nonlinear_arith)
            requires
                e0.2 == (0u64, 0u64, 0u64, time_budget),
                time_budget <= TIME_CAP,
        ;
    }
    frontier_push(&mut q, e0);
    proof {
        assert(frontier_set(q).contains(e0) && state_of(e0) == spec_init(time_budget));
    }
    let mut candidate: u64 = 0;
    loop
        invariant
            bp_wf(*b),
            frontier_set(q).finite(),
            forall|x: Entry| #[trigger] frontier_set(q).contains(x) ==> entry_inv(*b, x)
                && spec_best(*b, state_of(x)) <= target,
            candidate <= target,
            candidate == target || (exists|x: Entry|
                #[trigger] frontier_set(q).contains(x) && spec_best(*b, state_of(x)) == target),
        ensures
            candidate == target,
        decreases potential(frontier_set(q)),
    {
        let ghost fs0 = frontier_set(q);
        match frontier_pop(&mut q) {
            None => {
                break;
            },
            Some(e) => {
                let s = state_from_entry(&e);
                let p = e.2;
                proof {
                    lemma_potential_remove(fs0, e);
                    lemma_pow5_pos(e.3 as nat);
                }
                if s.remaining > 2 {
                    let bd = bound(b, &s);
                    if bd <= candidate {
                        proof {
                            lemma_bound_admissible(*b, s);
                            if candidate != target {
                                let x = choose|x: Entry|
                                    fs0.contains(x) && spec_best(*b, state_of(x)) == target;
                                if x == e {
                                    assert(target <= candidate);
                                } else {
                                    assert(frontier_set(q).contains(x));
                                }
                            }
                        }
                        continue;
                    }
                }
                if s.remaining == 0 {
                    if s.resources.geode > candidate {
                        candidate = s.resources.geode;
                    }
                    proof {
                        assert(spec_best(*b, s) == s.resources.geode);
                        if candidate != target {
                            let x = choose|x: Entry|
                                fs0.contains(x) && spec_best(*b, state_of(x)) == target;
                            if x == e {
                                assert(candidate == target);
                            } else {
                                assert(frontier_set(q).contains(x));
                            }
                        }
                    }
                    continue;
                }
                let ghost fs1 = frontier_set(q);
                expand(b, &mut q, &s, p, candidate, Ghost(target));
                proof {
                    assert(pow5(s.remaining as nat) == 5 * pow5((s.remaining - 1) as nat));
                    lemma_pow5_pos((s.remaining - 1) as nat);
                    if candidate != target {
                        let x = choose|x: Entry|
                            fs0.contains(x) && spec_best(*b, state_of(x)) == target;
                        if x == e {
                            assert(spec_best(*b, s) == target);
                        } else {
                            assert(fs1.contains(x));
                            assert(frontier_set(q).contains(x));
                        }
                    }
                }
            },
        }
    }
    candidate
}



/// With no time at all, nothing is collected: the start state is already a
/// leaf with an empty stock.
pub proof fn lemma_zero_budget(b: Blueprint)
    ensures
        spec_best(b, spec_init(0)) == 0,
{
}

/// With a single time unit, nothing is collected: every robot costs at
/// least one ore, so no build can finish in time, and the start state holds
/// no geodes.
pub proof fn lemma_single_unit_budget(b: Blueprint)
    requires
        bp_wf(b),
    ensures
        spec_best(b, spec_init(1)) == 0,
{
    let s = spec_init(1);
    assert forall|k: Kind| spec_child(b, s, k) is None by {
        let cost = cost_of(b, k);
        if !never_payable(cost, s.resources, s.robots) {
            assert(cost.ore >= 1 && s.resources.ore == 0 && s.robots.ore == 1);
            assert(lane_wait(cost.ore, 0, 1) == ((cost.ore + 0) / 1int) as nat);
            vstd::arithmetic::div_mod::lemma_fundamental_div_mod(cost.ore as int, 1int);
            assert(cost.ore as int / 1int == cost.ore);
            assert(spec_wait(cost, s.resources, s.robots) >= lane_wait(cost.ore, 0, 1));
            assert(spec_wait(cost, s.resources, s.robots) >= 1);
        }
    }
    assert(spec_child(b, s, Kind::Geode) is None);
    assert(spec_child(b, s, Kind::Obsidian) is None);
    assert(spec_child(b, s, Kind::Clay) is None);
    assert(spec_child(b, s, Kind::Ore) is None);
}

} // verus!
