use cvm_announcements::discovery::{announcement_query, Discovery};
use cvm_announcements::relay_list::{
    extract_relays, latest_event, normalize_relay_url, relay_list_query, server_key, RelayListEvent,
    RelayListFetch,
};
use cvm_announcements::sorted::TextSet;

const KEY: &str = "00112233445566778899aabbccddeeff00112233445566778899AABBCCDDEEFF";

fn strings(items: &[&str]) -> Vec<String> {
    items.iter().map(|item| item.to_string()).collect()
}

fn event(created_at: u64, tags: &[&[&str]]) -> RelayListEvent {
    RelayListEvent { created_at, tags: tags.iter().map(|tag| strings(tag)).collect() }
}

fn key_bytes() -> Vec<u8> {
    let half: Vec<u8> = (0..16).map(|i| i * 0x11).collect();
    [half.clone(), half].concat()
}

#[test]
fn a_server_key_is_the_bytes_of_its_digits() {
    assert_eq!(server_key(KEY).unwrap(), key_bytes());
    assert_eq!(server_key(&"0".repeat(64)).unwrap(), vec![0; 32]);
    assert_eq!(server_key(&"f".repeat(64)).unwrap(), vec![255; 32]);
}

#[test]
fn a_text_that_is_no_key_is_refused() {
    let odd = "0".repeat(63);
    let long = "0".repeat(66);
    let wide = "é".repeat(32);
    let mixed = format!("{}g", "0".repeat(63));
    let spaced = format!(" {}", "0".repeat(63));
    for text in ["", "abc", "npub1", &odd, &long, &wide, &mixed, &spaced] {
        match server_key(text) {
            Ok(key) => panic!("{text}: {key:?}"),
            Err(error) => assert_eq!(error.pubkey, text),
        }
    }
}

#[test]
fn queries_say_what_is_asked_for() {
    let query = relay_list_query(&vec![1, 2, 3], 9);
    assert_eq!(query.author, Some(vec![1, 2, 3]));
    assert_eq!(query.kinds, vec![10002]);
    assert_eq!(query.limit, 1);
    assert_eq!(query.timeout_seconds, 9);
    let query = announcement_query(11);
    assert_eq!(query.author, None);
    assert_eq!(query.kinds, vec![11316]);
    assert_eq!(query.limit, 500);
    assert_eq!(query.timeout_seconds, 11);
}

#[test]
fn addresses_lose_their_final_slashes() {
    assert_eq!(normalize_relay_url("wss://nos.lol"), "wss://nos.lol");
    assert_eq!(normalize_relay_url("wss://nos.lol/"), "wss://nos.lol");
    assert_eq!(normalize_relay_url("wss://nos.lol///"), "wss://nos.lol");
    assert_eq!(normalize_relay_url("wss://nos.lol/a/"), "wss://nos.lol/a");
    assert_eq!(normalize_relay_url("///"), "");
    assert_eq!(normalize_relay_url(""), "");
    assert_eq!(normalize_relay_url(" /x "), " /x ");
    let once = normalize_relay_url("wss://é//");
    assert_eq!(normalize_relay_url(&once), once);
    assert_eq!(normalize_relay_url("wss://é"), once);
}

#[test]
fn a_list_names_the_relays_of_its_r_tags() {
    let list = event(
        1,
        &[
            &["r", "wss://b/"],
            &["r", "wss://a", "read"],
            &["r"],
            &["p", "wss://c"],
            &["R", "wss://d"],
            &["r", "//"],
            &["r", ""],
            &["r", "wss://b"],
            &[],
        ],
    );
    assert_eq!(extract_relays(&list), strings(&["wss://a", "wss://b"]));
    assert!(extract_relays(&event(1, &[])).is_empty());
}

#[test]
fn the_last_of_the_newest_events_of_a_relay_counts() {
    assert!(latest_event(Vec::new()).is_none());
    let found = latest_event(vec![
        event(3, &[&["r", "old"]]),
        event(5, &[&["r", "first"]]),
        event(5, &[&["r", "second"]]),
        event(4, &[]),
    ])
    .unwrap();
    assert_eq!(found.created_at, 5);
    assert_eq!(found.tags, vec![strings(&["r", "second"])]);
}

fn fetched(found: Vec<Option<RelayListEvent>>) -> (Vec<String>, Vec<String>) {
    let sources: Vec<String> = (0..found.len()).map(|i| format!("s{i}")).collect();
    let mut fetch = RelayListFetch::start(KEY, sources.clone(), 8).unwrap();
    assert_eq!(fetch.query().author, Some(key_bytes()));
    assert_eq!(fetch.query().kinds, vec![10002]);
    let mut asked = Vec::new();
    for found in found {
        asked.push(fetch.next_source().unwrap().clone());
        assert_eq!(fetch.query().timeout_seconds, 8);
        fetch.record(found);
    }
    assert_eq!(asked, sources);
    assert!(fetch.next_source().is_none());
    let result = fetch.finish();
    (result.relays, result.source_relays)
}

#[test]
fn the_newest_list_of_all_sources_counts() {
    let (relays, sources) = fetched(vec![
        Some(event(3, &[&["r", "wss://old"]])),
        None,
        Some(event(7, &[&["r", "wss://z"], &["r", "wss://new/"]])),
        Some(event(7, &[&["r", "wss://late"]])),
        Some(event(5, &[&["r", "wss://mid"]])),
    ]);
    assert_eq!(relays, strings(&["wss://new", "wss://z"]));
    assert_eq!(sources, strings(&["s0", "s2", "s3", "s4"]));
}

#[test]
fn no_list_names_no_relays() {
    assert_eq!(fetched(vec![None, None]), (Vec::new(), Vec::new()));
    assert_eq!(fetched(Vec::new()), (Vec::new(), Vec::new()));
    let (relays, sources) = fetched(vec![Some(event(0, &[&["e", "x"]]))]);
    assert!(relays.is_empty());
    assert_eq!(sources, strings(&["s0"]));
}

#[test]
fn a_relay_list_is_fetched_for_keys_only() {
    match RelayListFetch::start("nonsense", strings(&["s"]), 8) {
        Ok(_) => panic!("accepted"),
        Err(error) => assert_eq!(error.pubkey, "nonsense"),
    }
}

#[test]
fn servers_are_found_with_the_relays_that_announce_them() {
    let mut discovery = Discovery::start(strings(&["z", "y", "x", "w"]));
    let sent = [
        Some(strings(&["k2", "k1", "k2"])),
        None,
        Some(strings(&["k3", "k1"])),
        Some(Vec::new()),
    ];
    for sent in sent {
        assert!(discovery.next_source().is_some());
        discovery.record(sent.map(|pubkeys| TextSet::collect(&pubkeys)));
    }
    assert!(discovery.next_source().is_none());
    let found = discovery.finish();
    let listed: Vec<(&str, Vec<&str>)> = found
        .iter()
        .map(|server| {
            (server.pubkey.as_str(), server.relays.iter().map(|relay| relay.as_str()).collect())
        })
        .collect();
    assert_eq!(
        listed,
        vec![("k1", vec!["x", "z"]), ("k2", vec!["z"]), ("k3", vec!["x"])]
    );
}

#[test]
fn nothing_is_found_where_nothing_is_announced() {
    let mut discovery = Discovery::start(strings(&["a"]));
    discovery.record(None);
    assert!(discovery.finish().is_empty());
    assert!(Discovery::start(Vec::new()).finish().is_empty());
}
