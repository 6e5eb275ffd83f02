use query_gateway::messages::{Ping, StoredRanges};
use query_gateway::network::state::{hash_selection, DatasetSummary, NetworkState, StateError, StateSettings};
use query_gateway::types::{DatasetId, PeerId, Range};
use query_gateway::version::{default_supported_versions, InvalidRequirement, SupportedVersions};

fn peer(name: &str) -> PeerId {
    PeerId(name.to_string())
}

fn settings() -> StateSettings {
    StateSettings {
        worker_inactive_threshold: 120_000,
        greylist_duration: 60_000,
        allocation_backoff: 60_000,
        min_worker_priority: -5,
        max_worker_priority: 3,
    }
}

fn state(roster: &[&str]) -> NetworkState {
    let versions = SupportedVersions::parse(&default_supported_versions()).unwrap();
    let roster: Vec<PeerId> = roster.iter().map(|p| peer(p)).collect();
    NetworkState::new(versions, settings(), &roster).unwrap()
}

fn ping(version: &str, stored: &[(&str, &[(u32, u32)])]) -> Ping {
    Ping {
        version: Some(version.to_string()),
        stored_ranges: stored
            .iter()
            .map(|(url, ranges)| StoredRanges {
                url: url.to_string(),
                ranges: ranges.iter().map(|(begin, end)| Range { begin: *begin, end: *end }).collect(),
            })
            .collect(),
    }
}

fn eth() -> DatasetId {
    DatasetId::from_url("s3://ethereum")
}

#[test]
fn the_default_requirement_is_read() {
    assert_eq!(default_supported_versions(), ">=1.1.0-rc3");
    let versions = SupportedVersions::parse(&default_supported_versions()).unwrap();
    assert!(versions.supports("1.1.0"));
    assert!(versions.supports("1.1.0-rc3"));
    assert!(versions.supports("2.0.0"));
    assert!(!versions.supports("1.1.0-rc2"));
    assert!(!versions.supports("1.0.9"));
    assert!(!versions.supports("1.1"));
    assert!(!versions.supports("not a version"));
    assert!(!versions.supports(""));
}

#[test]
fn a_text_that_is_no_requirement_is_refused() {
    assert_eq!(SupportedVersions::parse(">=a.b").err(), Some(InvalidRequirement));
    assert_eq!(SupportedVersions::parse("@1.0.0").err(), Some(InvalidRequirement));
    let exact = SupportedVersions::parse("=1.2.3").unwrap();
    assert!(exact.supports("1.2.3"));
    assert!(!exact.supports("1.2.4"));
}

#[test]
fn a_registry_needs_ordered_priority_bounds() {
    let versions = SupportedVersions::parse("*").unwrap();
    let mut inverted = settings();
    inverted.min_worker_priority = 4;
    assert!(matches!(NetworkState::new(versions, inverted, &vec![]), Err(StateError::PriorityBoundsInverted)));
}

#[test]
fn a_registry_needs_durations_above_zero() {
    let mut no_greylist = settings();
    no_greylist.greylist_duration = 0;
    let versions = SupportedVersions::parse("*").unwrap();
    assert!(matches!(NetworkState::new(versions, no_greylist, &vec![]), Err(StateError::ZeroDuration)));
    let mut no_backoff = settings();
    no_backoff.allocation_backoff = 0;
    let versions = SupportedVersions::parse("*").unwrap();
    assert!(matches!(NetworkState::new(versions, no_backoff, &vec![]), Err(StateError::ZeroDuration)));
    let mut shortest = settings();
    shortest.greylist_duration = 1;
    shortest.allocation_backoff = 1;
    shortest.worker_inactive_threshold = 0;
    let versions = SupportedVersions::parse("*").unwrap();
    let mut state = NetworkState::new(versions, shortest, &vec![]).unwrap();
    state.greylist_worker(&peer("w1"), 10);
    assert_eq!(state.greylist_until(&peer("w1")), Some(11));
}

#[test]
fn a_worker_is_eligible_after_its_ping() {
    let mut state = state(&[]);
    assert!(!state.is_eligible(&peer("w1"), &eth(), 50, 1_000));
    assert!(state.handle_ping(&peer("w1"), &ping("1.2.0", &[("s3://ethereum/", &[(0, 99), (200, 299)])]), 1_000));
    assert!(state.is_eligible(&peer("w1"), &eth(), 0, 1_000));
    assert!(state.is_eligible(&peer("w1"), &eth(), 99, 1_000));
    assert!(state.is_eligible(&peer("w1"), &eth(), 250, 1_000));
    assert!(!state.is_eligible(&peer("w1"), &eth(), 100, 1_000));
    assert!(!state.is_eligible(&peer("w1"), &eth(), 300, 1_000));
    assert!(!state.is_eligible(&peer("w1"), &DatasetId::from_url("s3://other"), 50, 1_000));
    assert!(!state.is_eligible(&peer("w2"), &eth(), 50, 1_000));
    assert_eq!(state.last_seen(&peer("w1")), Some(1_000));
}

#[test]
fn a_worker_of_the_roster_is_not_eligible_before_it_pings() {
    let state = state(&["w1", "w2"]);
    assert_eq!(state.worker_count(), 2);
    assert!(!state.is_eligible(&peer("w1"), &eth(), 50, 0));
    assert_eq!(state.find_worker(&eth(), 50, 0), None);
    assert_eq!(state.last_seen(&peer("w1")), None);
    assert_eq!(state.priority(&peer("w1")), 0);
}

#[test]
fn a_worker_becomes_inactive_after_the_threshold() {
    let mut state = state(&[]);
    state.handle_ping(&peer("w1"), &ping("1.2.0", &[("s3://ethereum", &[(0, 99)])]), 1_000);
    assert!(state.is_eligible(&peer("w1"), &eth(), 50, 121_000));
    assert!(!state.is_eligible(&peer("w1"), &eth(), 50, 121_001));
    assert!(state.is_eligible(&peer("w1"), &eth(), 50, 500));
}

#[test]
fn a_ping_with_an_unsupported_version_is_ignored() {
    let mut state = state(&[]);
    assert!(!state.handle_ping(&peer("w1"), &ping("1.0.0", &[("s3://ethereum", &[(0, 99)])]), 1_000));
    assert!(!state.handle_ping(&peer("w1"), &ping("junk", &[("s3://ethereum", &[(0, 99)])]), 1_000));
    let unversioned = Ping { version: None, stored_ranges: vec![] };
    assert!(!state.handle_ping(&peer("w1"), &unversioned, 1_000));
    assert_eq!(state.worker_count(), 0);
    assert!(!state.is_eligible(&peer("w1"), &eth(), 50, 1_000));

    assert!(state.handle_ping(&peer("w1"), &ping("1.2.0", &[("s3://ethereum", &[(0, 99)])]), 2_000));
    assert!(!state.handle_ping(&peer("w1"), &ping("1.0.0", &[("s3://ethereum", &[(500, 599)])]), 3_000));
    assert!(state.is_eligible(&peer("w1"), &eth(), 50, 3_000));
    assert!(!state.is_eligible(&peer("w1"), &eth(), 550, 3_000));
    assert_eq!(state.last_seen(&peer("w1")), Some(2_000));
}

#[test]
fn a_ping_replaces_the_stored_ranges() {
    let mut state = state(&[]);
    state.handle_ping(&peer("w1"), &ping("1.2.0", &[("s3://ethereum", &[(0, 99)]), ("s3://moon", &[(0, 9)])]), 1_000);
    state.handle_ping(&peer("w1"), &ping("1.2.0", &[("s3://ethereum", &[(100, 199)])]), 2_000);
    assert!(!state.is_eligible(&peer("w1"), &eth(), 50, 2_000));
    assert!(state.is_eligible(&peer("w1"), &eth(), 150, 2_000));
    assert!(!state.is_eligible(&peer("w1"), &DatasetId::from_url("s3://moon"), 5, 2_000));
}

#[test]
fn a_dataset_named_twice_in_a_ping_counts_with_its_later_entry() {
    let mut state = state(&[]);
    state.handle_ping(
        &peer("w1"),
        &ping("1.2.0", &[("s3://ethereum", &[(0, 99)]), ("s3://ethereum/", &[(100, 199)])]),
        1_000,
    );
    assert!(!state.is_eligible(&peer("w1"), &eth(), 50, 1_000));
    assert!(state.is_eligible(&peer("w1"), &eth(), 150, 1_000));
}

#[test]
fn greylisting_leaves_a_worker_out_for_the_duration() {
    let mut state = state(&[]);
    state.handle_ping(&peer("w1"), &ping("1.2.0", &[("s3://ethereum", &[(0, 99)])]), 1_000);
    state.greylist_worker(&peer("w1"), 2_000);
    assert_eq!(state.greylist_until(&peer("w1")), Some(62_000));
    assert!(!state.is_eligible(&peer("w1"), &eth(), 50, 2_000));
    assert!(!state.is_eligible(&peer("w1"), &eth(), 50, 61_999));
    assert!(state.is_eligible(&peer("w1"), &eth(), 50, 62_000));
    state.handle_ping(&peer("w1"), &ping("1.2.0", &[("s3://ethereum", &[(0, 99)])]), 3_000);
    assert_eq!(state.greylist_until(&peer("w1")), Some(62_000));
    assert!(!state.is_eligible(&peer("w1"), &eth(), 50, 3_000));
}

#[test]
fn greylisting_an_unknown_peer_records_it() {
    let mut state = state(&[]);
    state.greylist_worker(&peer("stranger"), u64::MAX - 5);
    assert_eq!(state.greylist_until(&peer("stranger")), Some(u64::MAX));
    assert_eq!(state.worker_count(), 1);
    assert_eq!(state.greylist_until(&peer("other")), None);
}

#[test]
fn a_worker_without_allocation_is_left_out_for_the_backoff() {
    let mut state = state(&[]);
    state.handle_ping(&peer("w1"), &ping("1.2.0", &[("s3://ethereum", &[(0, 99)])]), 1_000);
    assert!(state.worker_has_allocation(&peer("w1"), 1_000));
    assert!(state.worker_has_allocation(&peer("unknown"), 1_000));
    state.no_allocation_for_worker(&peer("w1"), 2_000);
    assert_eq!(state.missing_allocation_until(&peer("w1")), Some(62_000));
    assert!(!state.worker_has_allocation(&peer("w1"), 2_000));
    assert!(!state.worker_has_allocation(&peer("w1"), 61_999));
    assert!(state.worker_has_allocation(&peer("w1"), 62_000));
    assert!(!state.is_eligible(&peer("w1"), &eth(), 50, 30_000));
    assert!(state.is_eligible(&peer("w1"), &eth(), 50, 62_000));
}

#[test]
fn the_worker_of_highest_priority_is_found() {
    let mut state = state(&[]);
    for w in ["w1", "w2", "w3"] {
        state.handle_ping(&peer(w), &ping("1.2.0", &[("s3://ethereum", &[(0, 99)])]), 1_000);
    }
    state.adjust_priority(&peer("w2"), 2);
    assert_eq!(state.find_worker(&eth(), 50, 1_000), Some(peer("w2")));
    state.adjust_priority(&peer("w3"), 3);
    assert_eq!(state.find_worker(&eth(), 50, 1_000), Some(peer("w3")));
    state.greylist_worker(&peer("w3"), 1_000);
    assert_eq!(state.find_worker(&eth(), 50, 1_000), Some(peer("w2")));
    assert_eq!(state.find_worker_excluding(&eth(), 50, 1_000, &vec![peer("w2")]), Some(peer("w1")));
    assert_eq!(state.find_worker_excluding(&eth(), 50, 1_000, &vec![peer("w1"), peer("w2")]), None);
    assert_eq!(state.find_worker(&eth(), 100, 1_000), None);
}

#[test]
fn workers_of_equal_priority_are_told_apart_the_same_way_every_time() {
    let mut state = state(&[]);
    for w in ["w1", "w2", "w3", "w4"] {
        state.handle_ping(&peer(w), &ping("1.2.0", &[("s3://ethereum", &[(0, 999)])]), 1_000);
    }
    let mut chosen = std::collections::BTreeSet::new();
    for block in 0..200u64 {
        let first = state.find_worker(&eth(), block, 1_000).unwrap();
        assert_eq!(state.find_worker(&eth(), block, 1_500), Some(first.clone()));
        chosen.insert(first.0);
    }
    assert!(chosen.len() > 1);
}

#[test]
fn priority_stays_within_its_bounds() {
    let mut state = state(&["w1"]);
    state.adjust_priority(&peer("w1"), 100);
    assert_eq!(state.priority(&peer("w1")), 3);
    state.adjust_priority(&peer("w1"), -128);
    assert_eq!(state.priority(&peer("w1")), -5);
    state.adjust_priority(&peer("w1"), 4);
    assert_eq!(state.priority(&peer("w1")), -1);
}

#[test]
fn height_is_the_highest_block_of_the_available_workers() {
    let mut state = state(&[]);
    assert_eq!(state.get_height(&eth(), 1_000), None);
    state.handle_ping(&peer("w1"), &ping("1.2.0", &[("s3://ethereum", &[(0, 99), (150, 200)])]), 1_000);
    state.handle_ping(&peer("w2"), &ping("1.2.0", &[("s3://ethereum", &[(0, 499)])]), 1_000);
    state.handle_ping(&peer("w3"), &ping("1.2.0", &[("s3://moon", &[(0, 9999)])]), 1_000);
    assert_eq!(state.get_height(&eth(), 1_000), Some(499));
    state.greylist_worker(&peer("w2"), 1_000);
    assert_eq!(state.get_height(&eth(), 1_000), Some(200));
    assert_eq!(state.get_height(&eth(), 200_000), None);
    assert_eq!(state.get_height(&DatasetId::from_url("s3://none"), 1_000), None);
}

#[test]
fn summary_counts_the_workers_that_serve_a_dataset() {
    let mut state = state(&["idle"]);
    state.handle_ping(&peer("w1"), &ping("1.2.0", &[("s3://ethereum", &[(0, 99)]), ("s3://moon", &[])]), 1_000);
    state.handle_ping(&peer("w2"), &ping("1.2.0", &[("s3://ethereum", &[(0, 199)])]), 1_000);
    let moon = DatasetId::from_url("s3://moon");
    assert_eq!(
        state.summary(&vec![eth(), moon.clone()], 1_000),
        vec![
            DatasetSummary { dataset: eth(), height: Some(199), workers: 2 },
            DatasetSummary { dataset: moon, height: None, workers: 0 },
        ]
    );
}

#[test]
fn the_selection_hash_has_its_exact_values() {
    assert_eq!(hash_selection(&"w1".to_string(), &eth(), 0), 7097591518386703168);
    assert_eq!(hash_selection(&"w1".to_string(), &eth(), 12345), 13307565062106187511);
    assert_eq!(hash_selection(&String::new(), &DatasetId::from_url(""), 0), 17280346270528514342);
    assert_eq!(
        hash_selection(&"wörker".to_string(), &DatasetId::from_url("s3://d"), u64::MAX),
        12328804781201398536
    );
}

#[test]
fn among_equal_priorities_the_lowest_hash_is_found() {
    let mut state = state(&[]);
    let workers = ["w1", "w2", "w3", "w4", "w5"];
    for w in workers {
        state.handle_ping(&peer(w), &ping("1.2.0", &[("s3://ethereum", &[(0, 999)])]), 1_000);
    }
    for block in [0u64, 1, 17, 500, 999] {
        let expected = workers.iter().min_by_key(|w| hash_selection(&w.to_string(), &eth(), block)).unwrap();
        assert_eq!(state.find_worker(&eth(), block, 1_000), Some(peer(expected)));
    }
}
