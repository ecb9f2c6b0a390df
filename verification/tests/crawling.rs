use cvm_announcements::crawler::{fallback_relays, Action, CrawlRound, Event};
use cvm_announcements::discovery::DiscoveredServer;
use cvm_announcements::download::{crawl_kinds, Download, FetchedEvent, ImportPlan};

const KEY: &str = "ff00000000000000000000000000000000000000000000000000000000000001";

fn strings(items: &[&str]) -> Vec<String> {
    items.iter().map(|item| item.to_string()).collect()
}

fn servers(items: &[(&str, &[&str])]) -> Vec<DiscoveredServer> {
    items
        .iter()
        .map(|(pubkey, relays)| DiscoveredServer { pubkey: pubkey.to_string(), relays: strings(relays) })
        .collect()
}

fn batch(items: &[(&str, &str)]) -> Vec<FetchedEvent> {
    items
        .iter()
        .map(|(id, json)| FetchedEvent { id: id.to_string(), json: Ok(json.to_string()) })
        .collect()
}

#[test]
fn the_relays_that_the_crawler_asks() {
    let relays = fallback_relays();
    assert_eq!(relays.len(), 11);
    assert_eq!(relays[0], "wss://relay.damus.io");
    assert_eq!(relays[10], "wss://purplepag.es");
}

#[test]
fn a_crawl_probes_all_servers_and_brings_in_those_that_are_alive() {
    let mut round = CrawlRound::start(
        servers(&[("a", &["x", "y"]), ("b", &["x"]), ("c", &["z"])]),
        "local".to_string(),
    );
    let mut probes = Vec::new();
    let mut imports = Vec::new();
    loop {
        let event = match round.action() {
            Action::FetchRelayList { pubkey } => Event::RelayListFetched {
                relays: if pubkey == "b" { strings(&["own"]) } else { Vec::new() },
            },
            Action::Probe { pubkey, relays } => {
                let alive = pubkey != "b";
                probes.push((pubkey, relays));
                Event::Probed { alive }
            }
            Action::Import { pubkey } => {
                assert_eq!(round.counts(), (2, 1));
                imports.push(pubkey);
                Event::ImportEnded
            }
            Action::Finished => break,
        };
        round.advance(event);
    }
    assert_eq!(
        probes,
        vec![
            ("a".to_string(), strings(&["local", "x", "y"])),
            ("b".to_string(), strings(&["own"])),
            ("c".to_string(), strings(&["local", "z"])),
        ]
    );
    assert_eq!(imports, strings(&["a", "c"]));
}

#[test]
fn a_crawl_without_servers_is_over_at_once() {
    let round = CrawlRound::start(Vec::new(), "local".to_string());
    assert!(matches!(round.action(), Action::Finished));
    assert_eq!(round.counts(), (0, 0));
}

#[test]
fn a_download_asks_for_the_events_of_one_server() {
    let download = Download::start(KEY, strings(&["s"]), 12).unwrap();
    let query = download.query();
    let mut key = vec![0u8; 32];
    key[0] = 255;
    key[31] = 1;
    assert_eq!(query.author, Some(key));
    assert_eq!(query.kinds, vec![11316, 11317, 11318, 11319, 11320]);
    assert_eq!(query.kinds, crawl_kinds());
    assert_eq!(query.limit, 500);
    assert_eq!(query.timeout_seconds, 12);
}

#[test]
fn a_download_is_for_keys_only() {
    match Download::start("xyz", strings(&["s"]), 10) {
        Ok(_) => panic!("accepted"),
        Err(error) => assert_eq!(error.pubkey, "xyz"),
    }
}

#[test]
fn each_event_is_taken_in_once() {
    let mut download = Download::start(KEY, strings(&["s0", "s1", "s2"]), 10).unwrap();
    assert_eq!(download.next_source().unwrap(), "s0");
    download.record(batch(&[("2", "two"), ("1", "one"), ("2", "again")])).unwrap();
    assert_eq!(download.next_source().unwrap(), "s1");
    download.skip();
    assert_eq!(download.next_source().unwrap(), "s2");
    assert_eq!(download.query().timeout_seconds, 10);
    download.record(batch(&[("1", "other"), ("3", "three")])).unwrap();
    assert!(download.next_source().is_none());
    match download.plan(false) {
        ImportPlan::Import { input, count } => {
            assert_eq!(input, "two\none\nthree\n");
            assert_eq!(count, 3);
        }
        other => panic!("{other:?}"),
    }
    assert!(matches!(download.plan(true), ImportPlan::DryRun { count: 3 }));
}

#[test]
fn batches_add_up() {
    let mut split = Download::start(KEY, strings(&["s0", "s1"]), 10).unwrap();
    split.record(batch(&[("1", "a"), ("2", "b")])).unwrap();
    split.record(batch(&[("2", "c"), ("3", "d")])).unwrap();
    let mut whole = Download::start(KEY, strings(&["s0"]), 10).unwrap();
    whole.record(batch(&[("1", "a"), ("2", "b"), ("2", "c"), ("3", "d")])).unwrap();
    match (split.plan(false), whole.plan(false)) {
        (ImportPlan::Import { input: one, .. }, ImportPlan::Import { input: other, .. }) => {
            assert_eq!(one, "a\nb\nd\n");
            assert_eq!(one, other);
        }
        other => panic!("{other:?}"),
    }
}

#[test]
fn a_new_event_without_a_text_ends_the_download() {
    let mut download = Download::start(KEY, strings(&["s0", "s1"]), 10).unwrap();
    let mut events = batch(&[("1", "one")]);
    events.push(FetchedEvent { id: "1".to_string(), json: Err("known".to_string()) });
    assert_eq!(download.record(events), Ok(()));
    let mut events = batch(&[("2", "two")]);
    events.push(FetchedEvent { id: "3".to_string(), json: Err("broken".to_string()) });
    events.push(FetchedEvent { id: "4".to_string(), json: Err("later".to_string()) });
    assert_eq!(download.record(events), Err("broken".to_string()));
}

#[test]
fn nothing_is_taken_in_where_nothing_was_sent() {
    let mut download = Download::start(KEY, strings(&["s0", "s1"]), 10).unwrap();
    download.skip();
    download.record(Vec::new()).unwrap();
    assert!(matches!(download.plan(false), ImportPlan::Nothing));
    assert!(matches!(download.plan(true), ImportPlan::Nothing));
}
