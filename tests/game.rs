use replicon_sync::game::{latest_at_or_before, lookup_shot_state, PlayerGroup, ShotLookup};

#[test]
fn lookup_finds_newest_not_after() {
    let timestamps = vec![10u64, 20, 20, 30];
    assert_eq!(latest_at_or_before(&timestamps, 25), Some(2));
    assert_eq!(latest_at_or_before(&timestamps, 30), Some(3));
    assert_eq!(latest_at_or_before(&timestamps, 10), Some(0));
    assert_eq!(latest_at_or_before(&timestamps, 9), None);
    assert_eq!(latest_at_or_before(&Vec::new(), 9), None);
}

#[test]
fn random_group_is_zero_or_one() {
    for _ in 0..20 {
        let g = PlayerGroup::random();
        assert!(g.group == 0 || g.group == 1);
    }
}

#[test]
fn groups_are_relevant_to_themselves_only() {
    let a = PlayerGroup { group: 0 };
    let b = PlayerGroup { group: 1 };
    assert!(a.is_relevant(&a));
    assert!(!a.is_relevant(&b));
}

#[test]
fn missing_state_aborts_only_in_strict_mode() {
    let timestamps = vec![10u64, 20];
    assert_eq!(lookup_shot_state(&timestamps, 15, true), ShotLookup::Found(0));
    assert_eq!(lookup_shot_state(&timestamps, 5, true), ShotLookup::Abort);
    assert_eq!(lookup_shot_state(&timestamps, 5, false), ShotLookup::Skip);
}
