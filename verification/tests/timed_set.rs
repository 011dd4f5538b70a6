use timed_set::TimedSet;

#[test]
fn fresh_membership() {
    let mut ts: TimedSet<&str> = TimedSet::new(10);
    ts.add_at("a", 0);
    assert!(ts.contains_at(&"a", 0));
    assert!(ts.contains_at(&"a", 9));
}

#[test]
fn expiry_is_strict() {
    let mut ts: TimedSet<&str> = TimedSet::new(10);
    ts.add_at("a", 5);
    assert!(ts.contains_at(&"a", 14));
    assert!(!ts.contains_at(&"a", 15));
    assert!(!ts.contains_at(&"a", 16));
    assert!(!ts.contains_at(&"b", 6));
}

#[test]
fn refresh_resets_timer() {
    let mut ts: TimedSet<&str> = TimedSet::new(10);
    ts.add_at("v", 0);
    ts.add_at("v", 8);
    assert!(ts.contains_at(&"v", 12));
    assert!(ts.contains_at(&"v", 17));
    assert!(!ts.contains_at(&"v", 18));
}

#[test]
fn drain_removes_live_values() {
    let mut ts: TimedSet<&str> = TimedSet::new(10);
    ts.add_at("a", 0);
    ts.add_at("b", 0);
    ts.add_at("c", 0);
    ts.add_at("d", 0);
    let mut it = ts.iter();
    let mut seen: Vec<&str> = Vec::new();
    while let Some(v) = it.next_at(0) {
        seen.push(v);
    }
    seen.sort();
    assert_eq!(seen, vec!["a", "b", "c", "d"]);
    for v in ["a", "b", "c", "d"] {
        assert!(!ts.contains_at(&v, 0));
    }
    let mut again = ts.iter();
    assert_eq!(again.next_at(0), None);
}

#[test]
fn expired_skipped_but_still_removed() {
    let mut ts: TimedSet<&str> = TimedSet::new(1);
    ts.add_at("v", 0);
    let mut it = ts.iter();
    assert_eq!(it.next_at(2), None);
    assert!(!ts.contains_at(&"v", 2));
    assert!(!ts.contains_at(&"v", 0));
    let mut again = ts.iter();
    assert_eq!(again.next_at(0), None);
}

#[test]
fn traversal_mixes_live_and_expired() {
    let mut ts: TimedSet<&str> = TimedSet::new(10);
    ts.add_at("old", 0);
    ts.add_at("new", 20);
    let mut it = ts.iter();
    let mut seen: Vec<&str> = Vec::new();
    while let Some(v) = it.next_at(25) {
        seen.push(v);
    }
    assert_eq!(seen, vec!["new"]);
    assert!(!ts.contains_at(&"old", 25));
    assert!(!ts.contains_at(&"new", 25));
}

#[test]
fn scenario_ten_second_ttl() {
    let ttl = 10_000;
    let mut ts: TimedSet<&str> = TimedSet::new(ttl);
    let values = ["a", "b", "c", "d"];

    for v in values {
        ts.add_at(v, 0);
    }
    let mut it = ts.iter();
    let mut seen: Vec<&str> = Vec::new();
    while let Some(v) = it.next_at(0) {
        seen.push(v);
    }
    seen.sort();
    assert_eq!(seen, vec!["a", "b", "c", "d"]);
    let mut empty = ts.iter();
    assert_eq!(empty.next_at(0), None);

    for v in values {
        ts.add_at(v, 0);
    }
    let mut it = ts.iter();
    let mut seen: Vec<&str> = Vec::new();
    while let Some(v) = it.next_at(5_000) {
        seen.push(v);
    }
    seen.sort();
    assert_eq!(seen, vec!["a", "b", "c", "d"]);
    let mut empty = ts.iter();
    assert_eq!(empty.next_at(5_000), None);

    for v in values {
        ts.add_at(v, 5_000);
    }
    let mut it = ts.iter();
    assert_eq!(it.next_at(15_000), None);
    let mut empty = ts.iter();
    assert_eq!(empty.next_at(15_000), None);
}

#[test]
fn traversal_on_empty_set() {
    let mut ts: TimedSet<u64> = TimedSet::new(10);
    let mut it = ts.iter();
    assert_eq!(it.next_at(0), None);
    assert_eq!(it.next_at(u64::MAX), None);
}

#[test]
fn expiry_saturates_at_clock_top() {
    let mut ts: TimedSet<u64> = TimedSet::new(10);
    ts.add_at(7, u64::MAX - 5);
    assert!(ts.contains_at(&7, u64::MAX - 1));
    assert!(!ts.contains_at(&7, u64::MAX));
}

#[test]
fn owned_keys_and_overwrite() {
    let mut ts: TimedSet<String> = TimedSet::new(100);
    ts.add_at(String::from("key"), 0);
    ts.add_at(String::from("key"), 50);
    assert!(ts.contains_at(&String::from("key"), 120));
    let mut it = ts.iter();
    let mut seen: Vec<String> = Vec::new();
    while let Some(v) = it.next_at(120) {
        seen.push(v);
    }
    assert_eq!(seen, vec![String::from("key")]);
}

#[test]
fn wall_clock_round_trip() {
    let mut ts: TimedSet<u64> = TimedSet::new(3_600_000);
    ts.add(7);
    assert!(ts.contains(&7));
    assert!(!ts.contains(&8));
    let mut it = ts.iter();
    assert_eq!(it.next(), Some(7));
    assert_eq!(it.next(), None);
    assert!(!ts.contains(&7));
}

#[test]
fn wall_clock_zero_ttl() {
    let mut ts: TimedSet<u64> = TimedSet::new(0);
    ts.add(7);
    assert!(!ts.contains(&7));
    let mut it = ts.iter();
    assert_eq!(it.next(), None);
    assert!(!ts.contains(&7));
}
