use cvm_announcements::cleaner::{fallback_relays, Action, CleanupRound, Event};
use cvm_announcements::sorted::TextMap;
use cvm_announcements::state_file::FailureCounts;

const LOCAL: &str = "ws://local";

fn strings(items: &[&str]) -> Vec<String> {
    items.iter().map(|item| item.to_string()).collect()
}

fn counts(entries: &[(&str, u32)]) -> FailureCounts {
    let mut map = TextMap::new();
    for (key, value) in entries {
        map.set(key.to_string(), *value);
    }
    map
}

fn listed(failures: &FailureCounts) -> Vec<(&str, u32)> {
    failures.as_entries().iter().map(|(key, value)| (key.as_str(), *value)).collect()
}

/// Runs a round in which the servers of `alive` are alive, and gives the counts that are left and
/// the servers that were deleted.
fn run(pubkeys: &[&str], failures: FailureCounts, threshold: u32, alive: &[&str]) -> (FailureCounts, Vec<String>) {
    let mut deleted = Vec::new();
    let mut round = CleanupRound::start(strings(pubkeys), failures, LOCAL.to_string(), threshold);
    loop {
        let event = match round.action() {
            Action::FetchRelayList { .. } => Event::RelayListFetched { relays: Vec::new() },
            Action::Probe { pubkey, relays } => {
                assert_eq!(relays, strings(&[LOCAL]));
                Event::Probed { alive: alive.contains(&pubkey.as_str()) }
            }
            Action::Delete { pubkey } => {
                deleted.push(pubkey);
                Event::Deleted
            }
            Action::Finished => return (round.into_failures(), deleted),
        };
        round.advance(event);
    }
}

#[test]
fn the_relays_that_are_asked_besides_the_local_one() {
    assert_eq!(
        fallback_relays(),
        strings(&[
            "wss://relay.damus.io",
            "wss://relay.primal.net",
            "wss://relay.nostr.net",
            "wss://nos.lol",
        ])
    );
}

#[test]
fn a_round_goes_step_by_step() {
    let mut round = CleanupRound::start(strings(&["a"]), counts(&[("a", 1)]), LOCAL.to_string(), 2);
    assert_eq!(round.failure_count(), 1);
    assert!(matches!(round.action(), Action::FetchRelayList { pubkey } if pubkey == "a"));
    round.advance(Event::RelayListFetched { relays: strings(&["wss://x", "wss://y"]) });
    assert!(matches!(
        round.action(),
        Action::Probe { pubkey, relays } if pubkey == "a" && relays == strings(&["wss://x", "wss://y"])
    ));
    round.advance(Event::Probed { alive: false });
    assert_eq!(round.failure_count(), 2);
    assert!(matches!(round.action(), Action::Delete { pubkey } if pubkey == "a"));
    round.advance(Event::Deleted);
    assert!(matches!(round.action(), Action::Finished));
    assert_eq!(round.into_failures().len(), 0);
}

#[test]
fn counts_of_servers_without_an_announcement_are_dropped() {
    let (left, deleted) = run(&["b"], counts(&[("a", 2), ("b", 1), ("c", 2)]), 5, &[]);
    assert_eq!(listed(&left), vec![("b", 2)]);
    assert!(deleted.is_empty());
    let (left, _) = run(&[], counts(&[("a", 2)]), 5, &[]);
    assert_eq!(left.len(), 0);
}

#[test]
fn a_server_that_is_alive_loses_its_count() {
    let (left, deleted) = run(&["a", "b"], counts(&[("a", 2), ("b", 2)]), 4, &["a"]);
    assert_eq!(listed(&left), vec![("b", 3)]);
    assert!(deleted.is_empty());
}

#[test]
fn each_server_is_settled_by_its_own_visit() {
    let (left, deleted) =
        run(&["d", "a", "c", "b"], counts(&[("a", 1), ("b", 2), ("c", 2)]), 3, &["c"]);
    assert_eq!(listed(&left), vec![("a", 2), ("d", 1)]);
    assert_eq!(deleted, strings(&["b"]));
}

#[test]
fn a_server_is_deleted_after_failures_in_a_row() {
    let mut failures = counts(&[]);
    let mut history = Vec::new();
    for alive in [false, false, true, false, false, false, false] {
        let (left, deleted) = run(&["a"], failures, 3, if alive { &["a"] } else { &[] });
        history.push((left.get("a").copied(), deleted.len()));
        failures = left;
    }
    assert_eq!(
        history,
        vec![
            (Some(1), 0),
            (Some(2), 0),
            (None, 0),
            (Some(1), 0),
            (Some(2), 0),
            (None, 1),
            (Some(1), 0),
        ]
    );
}

#[test]
fn a_threshold_of_one_deletes_at_once() {
    let (left, deleted) = run(&["a", "b"], counts(&[]), 1, &["b"]);
    assert_eq!(left.len(), 0);
    assert_eq!(deleted, strings(&["a"]));
}

#[test]
fn a_count_above_the_threshold_deletes_too() {
    let (left, deleted) = run(&["a"], counts(&[("a", 9)]), 3, &[]);
    assert_eq!(left.len(), 0);
    assert_eq!(deleted, strings(&["a"]));
    let (left, deleted) = run(&["a"], counts(&[("a", u32::MAX)]), 3, &["a"]);
    assert_eq!(left.len(), 0);
    assert!(deleted.is_empty());
}

#[test]
fn a_server_that_is_announced_twice_counts_once_in_a_round() {
    let (left, deleted) = run(&["a", "a"], counts(&[]), 3, &[]);
    assert_eq!(listed(&left), vec![("a", 1)]);
    assert!(deleted.is_empty());
    let (left, deleted) = run(&["b", "a", "b", "a", "c"], counts(&[("a", 1)]), 3, &["c"]);
    assert_eq!(listed(&left), vec![("a", 2), ("b", 1)]);
    assert!(deleted.is_empty());
}

#[test]
fn two_announcements_do_not_make_two_failed_rounds() {
    let server = "79be667ef9dcbbac55a06295ce870b07029bfcdb2dce28d959f2815b16f81798";
    let (left, deleted) = run(&[server, server], counts(&[]), 2, &[]);
    assert_eq!(listed(&left), vec![(server, 1)]);
    assert!(deleted.is_empty());
    let (left, deleted) = run(&[server, server], left, 2, &[]);
    assert_eq!(left.len(), 0);
    assert_eq!(deleted, strings(&[server]));
}

#[test]
fn a_round_without_an_announcement_ends_a_row_of_failures() {
    let (left, _) = run(&["a"], counts(&[]), 3, &[]);
    let (left, _) = run(&["a"], left, 3, &[]);
    assert_eq!(listed(&left), vec![("a", 2)]);
    let (left, _) = run(&["b"], left, 3, &["b"]);
    let (left, deleted) = run(&["a"], left, 3, &[]);
    assert_eq!(listed(&left), vec![("a", 1)]);
    assert!(deleted.is_empty());
}

#[test]
fn a_stored_count_goes_on() {
    let mut failures = counts(&[("a", 2)]);
    let mut history = Vec::new();
    for alive in [false, false, false, true, false] {
        let (left, deleted) = run(&["a"], failures, 4, if alive { &["a"] } else { &[] });
        history.push((left.get("a").copied(), deleted.len()));
        failures = left;
    }
    assert_eq!(
        history,
        vec![(Some(3), 0), (None, 1), (Some(1), 0), (None, 0), (Some(1), 0)]
    );
}

#[test]
fn a_stored_zero_is_no_failure() {
    let (left, deleted) = run(&["a", "b"], counts(&[("a", 0), ("b", 0)]), 2, &["b"]);
    assert_eq!(listed(&left), vec![("a", 1)]);
    assert!(deleted.is_empty());
}
