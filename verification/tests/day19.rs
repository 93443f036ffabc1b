use aoc_core::day19::{Blueprint, Res, State, Kind, max_geodes, wait_time, can_afford_now, bound,
    transition};

fn res(ore: u64, clay: u64, obsidian: u64, geode: u64) -> Res {
    Res { ore, clay, obsidian, geode }
}

fn bp1() -> Blueprint {
    Blueprint::new(4, 2, 3, 14, 2, 7)
}

fn bp2() -> Blueprint {
    Blueprint::new(2, 3, 3, 8, 3, 12)
}

#[test]
fn scenario_one() {
    assert_eq!(max_geodes(&bp1(), 24), 9);
}

#[test]
fn scenario_two() {
    assert_eq!(max_geodes(&bp2(), 24), 12);
}

#[test]
fn scenario_unreachable_obsidian() {
    // the obsidian robot's ore cost is far beyond what 24 units can gather
    let b = Blueprint::new(4, 2, 1000, 14, 2, 7);
    assert_eq!(max_geodes(&b, 24), 0);
}

#[test]
fn scenario_zero_budget() {
    assert_eq!(max_geodes(&bp1(), 0), 0);
    assert_eq!(max_geodes(&bp2(), 0), 0);
}

#[test]
fn scenario_one_unit() {
    // a robot bought in the single unit can never produce in time
    assert_eq!(max_geodes(&bp1(), 1), 0);
    assert_eq!(max_geodes(&bp2(), 1), 0);
}

#[test]
fn result_is_deterministic() {
    // two runs on the same inputs give the same candidate
    let a = max_geodes(&bp1(), 18);
    let b = max_geodes(&bp1(), 18);
    assert_eq!(a, b);
    let c = max_geodes(&bp2(), 20);
    let d = max_geodes(&bp2(), 20);
    assert_eq!(c, d);
}

#[test]
fn monotone_in_budget_on_example() {
    let mut last = 0u64;
    for t in 0..=24u64 {
        let v = max_geodes(&bp1(), t);
        assert!(v >= last, "yield dropped from {last} to {v} at budget {t}");
        last = v;
    }
}

#[test]
fn wait_time_zero_iff_covered() {
    let cost = res(4, 0, 0, 0);
    let have = res(4, 0, 0, 0);
    let rate = res(1, 0, 0, 0);
    assert!(can_afford_now(&cost, &have));
    assert_eq!(wait_time(&cost, &have, &rate), Some(0));
    let short = res(3, 0, 0, 0);
    assert!(!can_afford_now(&cost, &short));
    assert_ne!(wait_time(&cost, &short, &rate), Some(0));
}

#[test]
fn wait_time_is_ceiling() {
    // deficit 5 at rate 2 needs 3 whole units, not 2
    let cost = res(8, 0, 0, 0);
    let have = res(3, 0, 0, 0);
    let rate = res(2, 0, 0, 0);
    assert_eq!(wait_time(&cost, &have, &rate), Some(3));
    // an exact division stays exact
    let have6 = res(2, 0, 0, 0);
    assert_eq!(wait_time(&cost, &have6, &rate), Some(3));
    let have4 = res(4, 0, 0, 0);
    assert_eq!(wait_time(&cost, &have4, &rate), Some(2));
}

#[test]
fn wait_time_unreachable() {
    // positive cost, no stock, no production: never payable
    let cost = res(0, 0, 7, 0);
    let have = res(10, 10, 0, 0);
    let rate = res(1, 1, 0, 0);
    assert_eq!(wait_time(&cost, &have, &rate), None);
}

#[test]
fn wait_time_takes_slowest_lane() {
    let cost = res(2, 14, 0, 0);
    let have = res(1, 0, 0, 0);
    let rate = res(1, 3, 0, 0);
    // ore clears after 1 unit, clay after ceil(14 / 3) = 5
    assert_eq!(wait_time(&cost, &have, &rate), Some(5));
}

#[test]
fn bound_formula() {
    let b = bp1();
    let s = State { resources: res(0, 0, 0, 3), robots: res(1, 0, 0, 2), remaining: 5 };
    // 3 stored + 2 robots * 5 units + 5*4/2 optimistic new production
    assert_eq!(bound(&b, &s), 3 + 10 + 10);
    let leaf = State { resources: res(0, 0, 0, 7), robots: res(1, 0, 0, 0), remaining: 0 };
    assert_eq!(bound(&b, &leaf), 7);
}

#[test]
fn transition_builds_clay_robot() {
    let b = bp1();
    let s = State { resources: res(0, 0, 0, 0), robots: res(1, 0, 0, 0), remaining: 24 };
    // a clay robot costs 2 ore: wait 2, build on the third unit
    let c = transition(&b, &s, Kind::Clay).expect("clay robot is buildable");
    assert_eq!(c.remaining, 21);
    assert_eq!(c.robots, res(1, 1, 0, 0));
    assert_eq!(c.resources, res(1, 0, 0, 0));
}

#[test]
fn transition_respects_caps_and_time() {
    let b = bp1();
    // clay robots cap at 14 (the obsidian robot's clay cost)
    let capped = State { resources: res(100, 0, 0, 0), robots: res(1, 14, 0, 0), remaining: 10 };
    assert!(transition(&b, &capped, Kind::Clay).is_none());
    // no time left for a new robot to produce
    let late = State { resources: res(0, 0, 0, 0), robots: res(1, 0, 0, 0), remaining: 2 };
    assert!(transition(&b, &late, Kind::Clay).is_none());
    // geode robots are never capped
    let rich = State { resources: res(100, 0, 100, 0), robots: res(1, 0, 1, 50), remaining: 10 };
    assert!(transition(&b, &rich, Kind::Geode).is_some());
}

#[test]
fn blueprint_caps() {
    let b = bp1();
    assert_eq!(b.max_cost.ore, 4);
    assert_eq!(b.max_cost.clay, 14);
    assert_eq!(b.max_cost.obsidian, 7);
    assert_eq!(b.max_cost.geode, 0);
    assert_eq!(b.geode_cost, res(2, 0, 7, 0));
}
