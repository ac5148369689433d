use breakpoint_player::breakpoint::{cap_hint, Breakpoint, HINT_LIMIT};
use breakpoint_player::collection::BreakpointCollection;

fn bp(ms: u64, hint: &str) -> Breakpoint {
    Breakpoint::new(ms, hint.to_string())
}

fn times(c: &BreakpointCollection) -> Vec<u64> {
    c.to_vec().iter().map(|b| b.timepoint()).collect()
}

fn sample() -> BreakpointCollection {
    let mut c = BreakpointCollection::new();
    c.insert(bp(30_000, "b"));
    c.insert(bp(10_000, "a"));
    c.insert(bp(50_000, "c"));
    c
}

#[test]
fn breakpoint_accessors() {
    let b = bp(1_500, "chorus");
    assert_eq!(b.timepoint(), 1_500);
    assert_eq!(b.hint(), "chorus");
    assert!(b == b.clone());
    assert!(b != bp(1_500, "verse"));
    assert!(b != bp(1_501, "chorus"));
}

#[test]
fn insert_keeps_offset_order() {
    let mut c = BreakpointCollection::new();
    assert!(c.is_empty());
    assert_eq!(c.insert(bp(50, "x")), 0);
    assert_eq!(c.insert(bp(10, "y")), 0);
    assert_eq!(c.insert(bp(30, "z")), 1);
    assert_eq!(c.insert(bp(90, "w")), 3);
    assert_eq!(times(&c), vec![10, 30, 50, 90]);
    assert_eq!(c.len(), 4);
}

#[test]
fn equal_offsets_go_by_hint() {
    let mut c = BreakpointCollection::new();
    c.insert(bp(10, "old"));
    assert_eq!(c.insert(bp(10, "new")), 0);
    assert_eq!(c.insert(bp(10, "zzz")), 2);
    assert_eq!(c.insert(bp(10, "ol")), 1);
    assert_eq!(c.insert(bp(10, "")), 0);
    let h: Vec<String> = c.to_vec().iter().map(|b| b.hint()).collect();
    assert_eq!(h, vec!["", "new", "ol", "old", "zzz"]);
}

#[test]
fn order_depends_on_contents_alone() {
    let marks = [bp(7, "b"), bp(7, "a"), bp(3, "z"), bp(7, "a"), bp(9, "")];
    let mut one = BreakpointCollection::new();
    for m in marks.iter() {
        one.insert(m.clone());
    }
    let mut two = BreakpointCollection::new();
    for m in marks.iter().rev() {
        two.insert(m.clone());
    }
    let a: Vec<(u64, String)> = one.to_vec().iter().map(|b| (b.timepoint(), b.hint())).collect();
    let b: Vec<(u64, String)> = two.to_vec().iter().map(|b| (b.timepoint(), b.hint())).collect();
    assert_eq!(a, b);
}

#[test]
fn precedes_orders_by_offset_then_hint() {
    assert!(bp(1, "z").precedes(&bp(2, "a")));
    assert!(bp(2, "a").precedes(&bp(2, "b")));
    assert!(bp(2, "a").precedes(&bp(2, "ab")));
    assert!(!bp(2, "ab").precedes(&bp(2, "a")));
    assert!(!bp(2, "a").precedes(&bp(2, "a")));
}

#[test]
fn order_holds_over_inserts_and_removes() {
    let mut c = BreakpointCollection::new();
    for (i, t) in [70u64, 20, 20, 90, 0, 55, 20].iter().enumerate() {
        c.insert(bp(*t, &format!("{i}")));
        let v = times(&c);
        assert!(v.windows(2).all(|w| w[0] <= w[1]));
    }
    c.remove(&bp(20, "1"));
    c.remove(&bp(0, "4"));
    let v = times(&c);
    assert!(v.windows(2).all(|w| w[0] <= w[1]));
    assert_eq!(v, vec![20, 20, 55, 70, 90]);
}

#[test]
fn remove_takes_first_exact_match_only() {
    let mut c = BreakpointCollection::new();
    c.insert(bp(10, "a"));
    c.insert(bp(10, "a"));
    c.insert(bp(20, "b"));
    assert_eq!(c.remove(&bp(10, "a")), Some(0));
    assert_eq!(times(&c), vec![10, 20]);
}

#[test]
fn remove_absent_is_a_no_op() {
    let mut c = sample();
    assert_eq!(c.remove(&bp(30_000, "other")), None);
    assert_eq!(c.remove(&bp(31_000, "b")), None);
    assert_eq!(times(&c), vec![10_000, 30_000, 50_000]);
}

#[test]
fn clear_returns_prior_contents() {
    let mut c = sample();
    let prior = c.clear();
    assert!(c.is_empty());
    assert_eq!(times(&prior), vec![10_000, 30_000, 50_000]);
}

#[test]
fn neighbors_between_markers() {
    let c = sample();
    let (p, n) = c.neighbors(25_000);
    assert_eq!(p.unwrap().timepoint(), 10_000);
    assert_eq!(n.unwrap().timepoint(), 30_000);
}

#[test]
fn neighbors_before_first_marker() {
    let c = sample();
    let (p, n) = c.neighbors(5_000);
    assert!(p.is_none());
    assert_eq!(n.unwrap().timepoint(), 10_000);
}

#[test]
fn neighbors_after_last_marker() {
    let c = sample();
    let (p, n) = c.neighbors(60_000);
    assert_eq!(p.unwrap().timepoint(), 50_000);
    assert!(n.is_none());
}

#[test]
fn neighbors_at_a_marker_counts_it_as_next() {
    let c = sample();
    let (p, n) = c.neighbors(30_000);
    assert_eq!(p.unwrap().timepoint(), 10_000);
    assert_eq!(n.unwrap().timepoint(), 30_000);
}

#[test]
fn neighbors_of_empty_collection() {
    let c = BreakpointCollection::new();
    let (p, n) = c.neighbors(1);
    assert!(p.is_none() && n.is_none());
}

#[test]
fn nearest_picks_closer_and_previous_on_tie() {
    let c = sample();
    assert_eq!(c.nearest_to(12_000).unwrap().timepoint(), 10_000);
    assert_eq!(c.nearest_to(28_000).unwrap().timepoint(), 30_000);
    assert_eq!(c.nearest_to(20_000).unwrap().timepoint(), 10_000);
    assert_eq!(c.nearest_to(1).unwrap().timepoint(), 10_000);
    assert_eq!(c.nearest_to(u64::MAX).unwrap().timepoint(), 50_000);
    assert!(BreakpointCollection::new().nearest_to(5).is_none());
}

#[test]
fn duplicate_is_an_equal_copy() {
    let c = sample();
    let d = c.duplicate();
    assert_eq!(times(&d), times(&c));
    assert_eq!(d.get(1).hint(), "b");
}

#[test]
fn hints_are_capped_to_the_limit() {
    assert_eq!(HINT_LIMIT, 64);
    assert_eq!(cap_hint("short"), "short");
    assert_eq!(cap_hint(""), "");
    let long: String = std::iter::repeat('é').take(70).collect();
    let capped = cap_hint(&long);
    assert_eq!(capped.chars().count(), 64);
    assert!(capped.chars().all(|c| c == 'é'));
    let exact: String = std::iter::repeat('a').take(64).collect();
    assert_eq!(cap_hint(&exact), exact);
}
