use cvm_announcements::probe::{
    judge_reply, probe_call, probe_request, Probe, ProbeOutcome, Reply, Stage, StepEvent,
};

fn strings(items: &[&str]) -> Vec<String> {
    items.iter().map(|item| item.to_string()).collect()
}

#[test]
fn the_request_lists_tools() {
    let request = probe_request();
    assert_eq!(request.jsonrpc, "2.0");
    assert_eq!(request.id, 1);
    assert_eq!(request.method, "tools/list");
}

#[test]
fn the_request_goes_to_one_server_through_one_relay() {
    let call = probe_call("ab", "wss://nos.lol", 7);
    assert_eq!(call.request.jsonrpc, "2.0");
    assert_eq!(call.request.id, 1);
    assert_eq!(call.request.method, "tools/list");
    assert_eq!(call.params, None);
    assert_eq!(call.relay_urls, strings(&["wss://nos.lol"]));
    assert_eq!(call.server_pubkey, "ab");
    assert!(call.encryption_optional);
    assert_eq!(call.timeout_seconds, 7);
}

#[test]
fn the_request_is_sent_once() {
    let mut stage = Stage::first();
    let mut sends = 0;
    let events = [
        StepEvent::Done,
        StepEvent::Done,
        StepEvent::Done,
        StepEvent::Replied(Reply::Response),
        StepEvent::Done,
    ];
    for event in events {
        if matches!(stage, Stage::Send) {
            sends += 1;
        }
        stage = stage.after(event);
    }
    assert_eq!(sends, 1);
    assert!(matches!(stage, Stage::Over(Ok(()))));
}

#[test]
fn only_a_response_is_a_sign_of_life() {
    assert_eq!(judge_reply(Reply::Response), Ok(()));
    assert_eq!(
        judge_reply(Reply::Other(Ok("{}".to_string()))),
        Err("unexpected message: {}".to_string())
    );
    assert_eq!(judge_reply(Reply::Other(Err("no text".to_string()))), Err("no text".to_string()));
    assert_eq!(
        judge_reply(Reply::Closed),
        Err("server closed response channel without replying".to_string())
    );
}

fn attempt(events: Vec<StepEvent>) -> Stage {
    let mut stage = Stage::first();
    for event in events {
        stage = stage.after(event);
    }
    stage
}

#[test]
fn an_attempt_succeeds_after_all_steps() {
    assert!(matches!(attempt(vec![]), Stage::Open));
    assert!(matches!(attempt(vec![StepEvent::Done]), Stage::Start));
    assert!(matches!(attempt(vec![StepEvent::Done, StepEvent::Done]), Stage::Send));
    assert!(matches!(
        attempt(vec![StepEvent::Done, StepEvent::Done, StepEvent::Done]),
        Stage::Wait
    ));
    let replied = || {
        vec![
            StepEvent::Done,
            StepEvent::Done,
            StepEvent::Done,
            StepEvent::Replied(Reply::Response),
        ]
    };
    assert!(matches!(attempt(replied()), Stage::Stop(Reply::Response)));
    let mut events = replied();
    events.push(StepEvent::Done);
    assert!(matches!(attempt(events), Stage::Over(Ok(()))));
}

#[test]
fn an_attempt_fails_with_the_step_that_fails() {
    for done in 0..3 {
        let mut events: Vec<StepEvent> = (0..done).map(|_| StepEvent::Done).collect();
        events.push(StepEvent::Failed(format!("step {done}")));
        match attempt(events) {
            Stage::Over(Err(error)) => assert_eq!(error, format!("step {done}")),
            other => panic!("{other:?}"),
        }
    }
    let stop = attempt(vec![
        StepEvent::Done,
        StepEvent::Done,
        StepEvent::Done,
        StepEvent::Replied(Reply::Response),
        StepEvent::Failed("stuck".to_string()),
    ]);
    assert!(matches!(stop, Stage::Over(Err(error)) if error == "stuck"));
    let late = attempt(vec![
        StepEvent::Done,
        StepEvent::Done,
        StepEvent::Done,
        StepEvent::TimedOut,
    ]);
    assert!(matches!(late, Stage::Over(Err(error)) if error == "timed out waiting for server response"));
    let closed = attempt(vec![
        StepEvent::Done,
        StepEvent::Done,
        StepEvent::Done,
        StepEvent::Replied(Reply::Closed),
        StepEvent::Done,
    ]);
    assert!(matches!(
        closed,
        Stage::Over(Err(error)) if error == "server closed response channel without replying"
    ));
}

fn probed(relays: &[&str], results: Vec<Result<(), String>>) -> ProbeOutcome {
    let mut probe = Probe::start(strings(relays));
    let mut results = results.into_iter();
    while let Some(relay) = probe.next_relay() {
        assert!(relays.contains(&relay.as_str()));
        probe.record(results.next().unwrap());
    }
    assert!(results.next().is_none());
    probe.outcome()
}

#[test]
fn the_first_success_ends_a_probe() {
    let outcome = probed(&["a", "b", "c"], vec![Err("down".to_string()), Ok(())]);
    assert!(outcome.alive);
    assert_eq!(outcome.attempted_relays, strings(&["a", "b"]));
    assert_eq!(outcome.success_relay, Some("b".to_string()));
    assert_eq!(outcome.reason, "probe succeeded");
}

#[test]
fn a_failed_probe_tells_what_each_relay_said() {
    let outcome = probed(&["a", "b"], vec![Err("down".to_string()), Err("slow".to_string())]);
    assert!(!outcome.alive);
    assert_eq!(outcome.attempted_relays, strings(&["a", "b"]));
    assert_eq!(outcome.success_relay, None);
    assert_eq!(outcome.reason, "a: down | b: slow");
}

#[test]
fn a_probe_without_relays_fails() {
    let outcome = probed(&[], vec![]);
    assert!(!outcome.alive);
    assert!(outcome.attempted_relays.is_empty());
    assert_eq!(outcome.reason, "");
}
