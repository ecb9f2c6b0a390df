//! Asking a server for a sign of life: one attempt through one relay, and the attempts through the
//! relays of a server one after the other.

use vstd::prelude::*;
use crate::text::{concat2, concat3, join, joined, texts};

verus! {

/// The request that is sent to a server.
#[derive(Debug)]
pub struct ProbeRequest {
    pub jsonrpc: String,
    pub id: u64,
    pub method: String,
}

/// The smallest request that every server answers: to list its tools.
pub fn probe_request() -> (res: ProbeRequest)
    ensures
        res.jsonrpc@ == "2.0"@,
        res.id == 1,
        res.method@ == "tools/list"@,
{
    ProbeRequest { jsonrpc: "2.0".to_owned(), id: 1, method: "tools/list".to_owned() }
}

/// What is sent in an attempt, and how.
#[derive(Debug)]
pub struct ProbeCall {
    /// The request.
    pub request: ProbeRequest,
    /// The parameters that the request carries.
    pub params: Option<String>,
    /// The relays through which it is sent.
    pub relay_urls: Vec<String>,
    /// The server to which it is sent.
    pub server_pubkey: String,
    /// Whether it may go with or without encryption, as the server wants it.
    pub encryption_optional: bool,
    /// How long to wait for the network, in seconds.
    pub timeout_seconds: u64,
}

/// What is sent to the server `pubkey_hex` in an attempt through `relay`, and through no other
/// relay: the request, without parameters.
pub fn probe_call(pubkey_hex: &str, relay: &str, timeout_seconds: u64) -> (res: ProbeCall)
    ensures
        res.request.jsonrpc@ == "2.0"@,
        res.request.id == 1,
        res.request.method@ == "tools/list"@,
        res.params is None,
        texts(res.relay_urls@) == seq![relay@],
        res.server_pubkey@ == pubkey_hex@,
        res.encryption_optional,
        res.timeout_seconds == timeout_seconds,
{
    let relay_urls: Vec<String> = vec![relay.to_owned()];
    assert(texts(relay_urls@) =~= seq![relay@]);
    ProbeCall {
        request: probe_request(),
        params: None,
        relay_urls,
        server_pubkey: pubkey_hex.to_owned(),
        encryption_optional: true,
        timeout_seconds,
    }
}

/// What came back from a server.
#[derive(Debug)]
pub enum Reply {
    /// A response to the request.
    Response,
    /// A message of another sort, as text, or why it has no text.
    Other(Result<String, String>),
    /// The channel was closed without a message.
    Closed,
}

/// The model of `Reply`.
pub enum ReplyView {
    Response,
    Other(Result<Seq<char>, Seq<char>>),
    Closed,
}

impl View for Reply {
    type V = ReplyView;

    open spec fn view(&self) -> ReplyView {
        match *self {
            Reply::Response => ReplyView::Response,
            Reply::Other(Ok(text)) => ReplyView::Other(Ok(text@)),
            Reply::Other(Err(error)) => ReplyView::Other(Err(error@)),
            Reply::Closed => ReplyView::Closed,
        }
    }
}

/// Whether a reply is a sign of life: only a response is. Otherwise, what is wrong with it.
pub open spec fn verdict(reply: ReplyView) -> Result<(), Seq<char>> {
    match reply {
        ReplyView::Response => Ok(()),
        ReplyView::Other(Ok(text)) => Err("unexpected message: "@ + text),
        ReplyView::Other(Err(error)) => Err(error),
        ReplyView::Closed => Err("server closed response channel without replying"@),
    }
}

/// The model of a result that holds a message when it failed.
pub open spec fn outcome_view(result: Result<(), String>) -> Result<(), Seq<char>> {
    match result {
        Ok(_) => Ok(()),
        Err(error) => Err(error@),
    }
}

/// Judges what came back from a server.
pub fn judge_reply(reply: Reply) -> (res: Result<(), String>)
    ensures
        outcome_view(res) == verdict(reply@),
{
    match reply {
        Reply::Response => Ok(()),
        Reply::Other(Ok(text)) => Err(concat2("unexpected message: ", text.as_str())),
        Reply::Other(Err(error)) => Err(error),
        Reply::Closed => Err("server closed response channel without replying".to_owned()),
    }
}

/// What is to be done next in an attempt, and what it has come to in the end.
#[derive(Debug)]
pub enum Stage {
    /// Make a proxy for the server.
    Open,
    /// Start the proxy.
    Start,
    /// Send the request.
    Send,
    /// Wait for a reply.
    Wait,
    /// Stop the proxy; this reply has come.
    Stop(Reply),
    /// The attempt is over.
    Over(Result<(), String>),
}

/// The model of `Stage`.
pub enum StageView {
    Open,
    Start,
    Send,
    Wait,
    Stop(ReplyView),
    Over(Result<(), Seq<char>>),
}

impl View for Stage {
    type V = StageView;

    open spec fn view(&self) -> StageView {
        match *self {
            Stage::Open => StageView::Open,
            Stage::Start => StageView::Start,
            Stage::Send => StageView::Send,
            Stage::Wait => StageView::Wait,
            Stage::Stop(reply) => StageView::Stop(reply@),
            Stage::Over(result) => StageView::Over(outcome_view(result)),
        }
    }
}

/// How the step of a stage went.
#[derive(Debug)]
pub enum StepEvent {
    /// It was done.
    Done,
    /// It failed, for this reason.
    Failed(String),
    /// A reply came.
    Replied(Reply),
    /// No reply came in time.
    TimedOut,
}

/// The model of `StepEvent`.
pub enum StepEventView {
    Done,
    Failed(Seq<char>),
    Replied(ReplyView),
    TimedOut,
}

impl View for StepEvent {
    type V = StepEventView;

    open spec fn view(&self) -> StepEventView {
        match *self {
            StepEvent::Done => StepEventView::Done,
            StepEvent::Failed(error) => StepEventView::Failed(error@),
            StepEvent::Replied(reply) => StepEventView::Replied(reply@),
            StepEvent::TimedOut => StepEventView::TimedOut,
        }
    }
}

impl StageView {
    /// Whether `event` can come of the step of this stage.
    pub open spec fn allows(self, event: StepEventView) -> bool {
        match self {
            StageView::Open | StageView::Start | StageView::Send | StageView::Stop(_) => event
                is Done || event is Failed,
            StageView::Wait => event is Replied || event is TimedOut,
            StageView::Over(_) => false,
        }
    }

    /// The stage after `event`.
    pub open spec fn after(self, event: StepEventView) -> StageView {
        match (self, event) {
            (_, StepEventView::Failed(error)) => StageView::Over(Err(error)),
            (_, StepEventView::TimedOut) => StageView::Over(
                Err("timed out waiting for server response"@),
            ),
            (_, StepEventView::Replied(reply)) => StageView::Stop(reply),
            (StageView::Open, StepEventView::Done) => StageView::Start,
            (StageView::Start, StepEventView::Done) => StageView::Send,
            (StageView::Send, StepEventView::Done) => StageView::Wait,
            (StageView::Stop(reply), StepEventView::Done) => StageView::Over(verdict(reply)),
            (_, StepEventView::Done) => self,
        }
    }
}

impl Stage {
    /// The first stage of an attempt.
    pub fn first() -> (res: Stage)
        ensures
            res@ is Open,
    {
        Stage::Open
    }

    /// The stage after `event`. A timeout ends the attempt at once; a reply is judged only after
    /// the proxy could be stopped.
    pub fn after(self, event: StepEvent) -> (res: Stage)
        requires
            self@.allows(event@),
        ensures
            res@ == self@.after(event@),
    {
        match event {
            StepEvent::Failed(error) => Stage::Over(Err(error)),
            StepEvent::TimedOut => Stage::Over(
                Err("timed out waiting for server response".to_owned()),
            ),
            StepEvent::Replied(reply) => Stage::Stop(reply),
            StepEvent::Done => match self {
                Stage::Open => Stage::Start,
                Stage::Start => Stage::Send,
                Stage::Send => Stage::Wait,
                Stage::Stop(reply) => Stage::Over(judge_reply(reply)),
                other => other,
            },
        }
    }
}

/// The stage that an attempt reaches through `events`, one after the other.
pub open spec fn stage_after(events: Seq<StepEventView>) -> StageView
    decreases events.len(),
{
    if events.len() == 0 {
        StageView::Open
    } else {
        stage_after(events.drop_last()).after(events.last())
    }
}

/// Whether each of `events` can come of the stage that it finds.
pub open spec fn is_attempt(events: Seq<StepEventView>) -> bool
    decreases events.len(),
{
    events.len() == 0 || (is_attempt(events.drop_last()) && stage_after(events.drop_last()).allows(
        events.last(),
    ))
}

/// An attempt shows that a server is alive exactly when every step was done and the reply was a
/// response.
pub proof fn law_attempt_succeeds_only_on_response(events: Seq<StepEventView>)
    requires
        is_attempt(events),
    ensures
        stage_after(events) == StageView::Over(Ok(())) <==> events == seq![
            StepEventView::Done,
            StepEventView::Done,
            StepEventView::Done,
            StepEventView::Replied(ReplyView::Response),
            StepEventView::Done,
        ],
{
    reveal_with_fuel(stage_after, 7);
    reveal_with_fuel(is_attempt, 7);
    lemma_attempt_is_short(events);
    let good = seq![
        StepEventView::Done,
        StepEventView::Done,
        StepEventView::Done,
        StepEventView::Replied(ReplyView::Response),
        StepEventView::Done,
    ];
    if events == good {
        let e4 = good.drop_last();
        let e3 = e4.drop_last();
        let e2 = e3.drop_last();
        let e1 = e2.drop_last();
        assert(e1.drop_last() =~= seq![]);
        assert(stage_after(e1) is Start);
        assert(stage_after(e2) is Send);
        assert(stage_after(e3) is Wait);
        assert(stage_after(e4) == StageView::Stop(ReplyView::Response));
    }
    if stage_after(events) == StageView::Over(Ok(())) {
        lemma_path_to(events);
        assert(events =~= good);
    }
}

/// The request is sent in an attempt exactly when the proxy could be made and started, and only
/// then and once.
pub proof fn law_request_is_sent_once(events: Seq<StepEventView>, i: int)
    requires
        is_attempt(events),
        0 <= i <= events.len(),
    ensures
        stage_after(events.take(i)) is Send <==> i == 2 && events[0] is Done && events[1] is Done,
{
    lemma_attempt_has_prefixes(events, i);
    let first = events.take(i);
    lemma_path_to(first);
    if i == 2 && events[0] is Done && events[1] is Done {
        reveal_with_fuel(stage_after, 3);
        assert(first.drop_last().drop_last() =~= seq![]);
        assert(first.drop_last().last() == events[0]);
        assert(first.last() == events[1]);
    }
}

proof fn lemma_attempt_has_prefixes(events: Seq<StepEventView>, n: int)
    requires
        is_attempt(events),
        0 <= n <= events.len(),
    ensures
        is_attempt(events.take(n)),
    decreases events.len() - n,
{
    if n == events.len() {
        assert(events.take(n) =~= events);
    } else {
        lemma_attempt_has_prefixes(events, n + 1);
        assert(events.take(n + 1).drop_last() =~= events.take(n));
    }
}

/// How many steps have been done when an attempt stands at a stage.
spec fn depth(stage: StageView) -> nat {
    match stage {
        StageView::Open => 0,
        StageView::Start => 1,
        StageView::Send => 2,
        StageView::Wait => 3,
        StageView::Stop(_) => 4,
        StageView::Over(_) => 5,
    }
}

proof fn lemma_attempt_is_short(events: Seq<StepEventView>)
    requires
        is_attempt(events),
    ensures
        events.len() <= depth(stage_after(events)),
        !(stage_after(events) is Over) ==> events.len() == depth(stage_after(events)),
    decreases events.len(),
{
    if events.len() > 0 {
        lemma_attempt_is_short(events.drop_last());
    }
}

proof fn lemma_path_to(events: Seq<StepEventView>)
    requires
        is_attempt(events),
    ensures
        match stage_after(events) {
            StageView::Over(Ok(_)) => events.len() == 5 && events[3] == StepEventView::Replied(
                ReplyView::Response,
            ) && events[0] is Done && events[1] is Done && events[2] is Done && events[4] is Done,
            StageView::Over(Err(_)) => true,
            StageView::Stop(reply) => events.len() == 4 && events[0] is Done && events[1] is Done
                && events[2] is Done && events[3] == StepEventView::Replied(reply),
            StageView::Wait => events.len() == 3 && events[0] is Done && events[1] is Done
                && events[2] is Done,
            StageView::Send => events.len() == 2 && events[0] is Done && events[1] is Done,
            StageView::Start => events.len() == 1 && events[0] is Done,
            StageView::Open => events.len() == 0,
        },
    decreases events.len(),
{
    if events.len() > 0 {
        lemma_path_to(events.drop_last());
    }
}

/// What the attempts to reach a server have come to.
#[derive(Debug)]
pub struct ProbeOutcome {
    /// Whether one of them showed that it is alive.
    pub alive: bool,
    /// The relays through which it was tried, in order.
    pub attempted_relays: Vec<String>,
    /// The relay through which it was reached.
    pub success_relay: Option<String>,
    /// What happened, in words.
    pub reason: String,
}

/// The model of `ProbeOutcome`.
pub struct ProbeOutcomeView {
    pub alive: bool,
    pub attempted_relays: Seq<Seq<char>>,
    pub success_relay: Option<Seq<char>>,
    pub reason: Seq<char>,
}

impl View for ProbeOutcome {
    type V = ProbeOutcomeView;

    open spec fn view(&self) -> ProbeOutcomeView {
        ProbeOutcomeView {
            alive: self.alive,
            attempted_relays: texts(self.attempted_relays@),
            success_relay: match self.success_relay {
                Some(relay) => Some(relay@),
                None => None,
            },
            reason: self.reason@,
        }
    }
}

/// The attempts to reach one server through its relays, one after the other.
pub struct Probe {
    relays: Vec<String>,
    attempted: usize,
    errors: Vec<String>,
    reached: bool,
}

/// The model of `Probe`.
pub struct ProbeView {
    /// The relays to try, in order.
    pub relays: Seq<Seq<char>>,
    /// How many of them have been tried.
    pub attempted: nat,
    /// What the failed attempts have said.
    pub errors: Seq<Seq<char>>,
    /// Whether the last attempt has succeeded.
    pub reached: bool,
}

impl View for Probe {
    type V = ProbeView;

    closed spec fn view(&self) -> ProbeView {
        ProbeView {
            relays: texts(self.relays@),
            attempted: self.attempted as nat,
            errors: texts(self.errors@),
            reached: self.reached,
        }
    }
}

impl ProbeView {
    /// No more relays have been tried than there are, and every attempt but a last one that has
    /// succeeded has left a message.
    pub open spec fn wf(self) -> bool {
        &&& self.attempted <= self.relays.len()
        &&& self.reached ==> self.attempted > 0
        &&& self.errors.len() == self.attempted - if self.reached { 1int } else { 0int }
    }

    /// Whether nothing is left to try: the server was reached, or no relay is left.
    pub open spec fn over(self) -> bool {
        self.reached || self.attempted == self.relays.len()
    }

    /// After an attempt through the next relay.
    pub open spec fn after(self, result: Result<(), Seq<char>>) -> ProbeView {
        match result {
            Ok(_) => ProbeView { attempted: self.attempted + 1, reached: true, ..self },
            Err(error) => ProbeView {
                attempted: self.attempted + 1,
                errors: self.errors.push(self.relays[self.attempted as int] + ": "@ + error),
                ..self
            },
        }
    }

    /// What the attempts have come to.
    pub open spec fn outcome(self) -> ProbeOutcomeView {
        ProbeOutcomeView {
            alive: self.reached,
            attempted_relays: self.relays.take(self.attempted as int),
            success_relay: if self.reached {
                Some(self.relays[self.attempted - 1])
            } else {
                None
            },
            reason: if self.reached {
                "probe succeeded"@
            } else {
                joined(self.errors, " | "@)
            },
        }
    }
}

/// The state before any of `relays` has been tried.
pub open spec fn fresh_probe(relays: Seq<Seq<char>>) -> ProbeView {
    ProbeView { relays, attempted: 0, errors: seq![], reached: false }
}

impl Probe {
    /// Starts to try `relays`.
    pub fn start(relays: Vec<String>) -> (res: Self)
        ensures
            res@ == fresh_probe(texts(relays@)),
            res@.wf(),
    {
        let res = Probe { relays, attempted: 0, errors: Vec::new(), reached: false };
        assert(res@.errors =~= seq![]);
        res
    }

    /// The relay to try next, if there is one to be tried.
    pub fn next_relay(&self) -> (res: Option<&String>)
        requires
            self@.wf(),
        ensures
            match res {
                Some(relay) => !self@.over() && relay@ == self@.relays[self@.attempted as int],
                None => self@.over(),
            },
    {
        if !self.reached && self.attempted < self.relays.len() {
            Some(&self.relays[self.attempted])
        } else {
            None
        }
    }

    /// Takes note of how the attempt through the next relay went.
    pub fn record(&mut self, result: Result<(), String>)
        requires
            old(self)@.wf(),
            !old(self)@.over(),
        ensures
            final(self)@ == old(self)@.after(outcome_view(result)),
            final(self)@.wf(),
    {
        let ghost before = self@;
        assert(self.attempted < self.relays.len());
        match result {
            Ok(_) => self.reached = true,
            Err(error) => {
                let message = concat3(
                    self.relays[self.attempted].as_str(),
                    ": ",
                    error.as_str(),
                );
                self.errors.push(message);
                assert(texts(self.errors@) =~= before.errors.push(message@));
            },
        }
        self.attempted += 1;
    }

    /// What the attempts have come to, once nothing is left to try.
    pub fn outcome(&self) -> (res: ProbeOutcome)
        requires
            self@.wf(),
            self@.over(),
        ensures
            res@ == self@.outcome(),
    {
        let mut attempted_relays: Vec<String> = Vec::new();
        let mut i: usize = 0;
        while i < self.attempted
            invariant
                i <= self.attempted <= self.relays@.len(),
                texts(attempted_relays@) == texts(self.relays@).take(i as int),
            decreases self.attempted - i,
        {
            let ghost before = texts(attempted_relays@);
            attempted_relays.push(self.relays[i].clone());
            assert(texts(attempted_relays@) =~= before.push(self.relays@[i as int]@));
            assert(texts(attempted_relays@) =~= texts(self.relays@).take(i + 1));
            i += 1;
        }
        if self.reached {
            ProbeOutcome {
                alive: true,
                attempted_relays,
                success_relay: Some(self.relays[self.attempted - 1].clone()),
                reason: "probe succeeded".to_owned(),
            }
        } else {
            ProbeOutcome {
                alive: false,
                attempted_relays,
                success_relay: None,
                reason: join(&self.errors, " | "),
            }
        }
    }
}

/// The state when relays are tried until nothing is left to try, where `results` says how an
/// attempt through each relay would go.
pub open spec fn run_probe(probe: ProbeView, results: Seq<Result<(), Seq<char>>>) -> ProbeView
    decreases probe.relays.len() - probe.attempted,
{
    if probe.reached || probe.attempted >= probe.relays.len() {
        probe
    } else {
        run_probe(probe.after(results[probe.attempted as int]), results)
    }
}

/// The relays are tried in order up to the first one through which the server is reached. It
/// counts as alive exactly when there is such a relay; if there is none, all have been tried.
pub proof fn law_first_success_ends_the_probe(
    relays: Seq<Seq<char>>,
    results: Seq<Result<(), Seq<char>>>,
)
    requires
        results.len() == relays.len(),
    ensures
        ({
            let end = run_probe(fresh_probe(relays), results);
            &&& end.wf()
            &&& end.over()
            &&& end.outcome().alive <==> exists|i: int| 0 <= i < results.len() && results[i] is Ok
            &&& end.outcome().alive ==> {
                let last = end.outcome().attempted_relays.len() - 1;
                &&& results[last] is Ok
                &&& forall|i: int| 0 <= i < last ==> results[i] is Err
                &&& end.outcome().success_relay == Some(relays[last])
            }
            &&& end.outcome().attempted_relays == relays.take(
                end.outcome().attempted_relays.len() as int,
            )
            &&& !end.outcome().alive ==> end.outcome().attempted_relays == relays
        }),
{
    let start = fresh_probe(relays);
    lemma_run_probe(start, results);
    let end = run_probe(start, results);
    assert(relays.take(relays.len() as int) =~= relays);
    assert(end.outcome().attempted_relays.len() == end.attempted);
    if end.reached {
        assert(results[end.attempted - 1] is Ok);
    } else {
        assert forall|i: int| 0 <= i < results.len() implies results[i] is Err by {}
    }
}

proof fn lemma_run_probe(probe: ProbeView, results: Seq<Result<(), Seq<char>>>)
    requires
        probe.wf(),
        results.len() == probe.relays.len(),
        forall|i: int| 0 <= i < probe.attempted - 1 ==> results[i] is Err,
        probe.attempted > 0 ==> (probe.reached <==> results[probe.attempted - 1] is Ok),
    ensures
        ({
            let end = run_probe(probe, results);
            &&& end.wf()
            &&& end.over()
            &&& end.relays == probe.relays
            &&& forall|i: int| 0 <= i < end.attempted - 1 ==> results[i] is Err
            &&& end.attempted > 0 ==> (end.reached <==> results[end.attempted - 1] is Ok)
        }),
    decreases probe.relays.len() - probe.attempted,
{
    if !probe.over() {
        lemma_run_probe(probe.after(results[probe.attempted as int]), results);
    }
}

/// Only a response is a sign of life. Any other message is told as it is, and so is silence.
pub proof fn law_only_a_response_is_a_sign_of_life(reply: ReplyView)
    ensures
        verdict(reply) is Ok <==> reply is Response,
        match reply {
            ReplyView::Response => true,
            ReplyView::Other(Ok(text)) => verdict(reply) == Err::<(), Seq<char>>(
                "unexpected message: "@ + text,
            ),
            ReplyView::Other(Err(error)) => verdict(reply) == Err::<(), Seq<char>>(error),
            ReplyView::Closed => verdict(reply) == Err::<(), Seq<char>>(
                "server closed response channel without replying"@,
            ),
        },
{
}

/// An attempt goes on with the next step after one that was done, and ends with the first that
/// fails, for the reason that it gives. The reply decides after the proxy was stopped.
pub proof fn law_steps_follow_each_other(
    stage: StageView,
    reply: ReplyView,
    error: Seq<char>,
)
    ensures
        StageView::Open.after(StepEventView::Done) is Start,
        StageView::Start.after(StepEventView::Done) is Send,
        StageView::Send.after(StepEventView::Done) is Wait,
        StageView::Wait.after(StepEventView::Replied(reply)) == StageView::Stop(reply),
        StageView::Wait.after(StepEventView::TimedOut) == StageView::Over(
            Err("timed out waiting for server response"@),
        ),
        StageView::Stop(reply).after(StepEventView::Done) == StageView::Over(verdict(reply)),
        stage.allows(StepEventView::Failed(error)) ==> stage.after(StepEventView::Failed(error))
            == StageView::Over(Err(error)),
{
}

/// Every step but the wait for a reply is done or fails, the wait ends with a reply or without one
/// in time, and nothing follows the end.
pub proof fn law_events_belong_to_their_steps(stage: StageView, event: StepEventView)
    ensures
        stage.allows(event) <==> match stage {
            StageView::Wait => event is Replied || event is TimedOut,
            StageView::Over(_) => false,
            _ => event is Done || event is Failed,
        },
{
}

/// A probe starts with all its relays, and is over when the server was reached or none is left.
pub proof fn law_probe_goes_on_until_reached(relays: Seq<Seq<char>>, probe: ProbeView)
    ensures
        fresh_probe(relays).relays == relays,
        fresh_probe(relays).attempted == 0,
        fresh_probe(relays).errors.len() == 0,
        !fresh_probe(relays).reached,
        probe.over() <==> probe.reached || probe.attempted == probe.relays.len(),
        probe.wf() ==> probe.attempted <= probe.relays.len(),
{
}

/// An attempt uses up one relay. One that succeeds reaches the server; one that fails leaves what it
/// said, after the relay that it went through.
pub proof fn law_each_attempt_uses_up_one_relay(
    probe: ProbeView,
    result: Result<(), Seq<char>>,
)
    ensures
        probe.after(result).relays == probe.relays,
        probe.after(result).attempted == probe.attempted + 1,
        result is Ok ==> probe.after(result).reached && probe.after(result).errors == probe.errors,
        result matches Err(error) ==> probe.after(result).reached == probe.reached && probe.after(
            result,
        ).errors == probe.errors.push(probe.relays[probe.attempted as int] + ": "@ + error),
{
}

/// The outcome tells whether the server was reached, the relays that were tried, in order, the last
/// of them if it reached the server, and otherwise all that they said.
pub proof fn law_outcome_tells_what_was_tried(probe: ProbeView)
    requires
        probe.attempted <= probe.relays.len(),
    ensures
        probe.outcome().alive == probe.reached,
        probe.outcome().attempted_relays == probe.relays.take(probe.attempted as int),
        probe.reached ==> probe.outcome().success_relay == Some(
            probe.relays[probe.attempted - 1],
        ) && probe.outcome().reason == "probe succeeded"@,
        !probe.reached ==> probe.outcome().success_relay is None && probe.outcome().reason == joined(
            probe.errors,
            " | "@,
        ),
{
}

/// The models of replies, events, stages, results and outcomes keep what they hold.
pub proof fn law_models_of_a_probe(
    reply: Reply,
    event: StepEvent,
    stage: Stage,
    result: Result<(), String>,
    outcome: ProbeOutcome,
)
    ensures
        match reply {
            Reply::Response => reply@ is Response,
            Reply::Other(Ok(text)) => reply@ == ReplyView::Other(Ok(text@)),
            Reply::Other(Err(error)) => reply@ == ReplyView::Other(Err(error@)),
            Reply::Closed => reply@ is Closed,
        },
        match event {
            StepEvent::Done => event@ is Done,
            StepEvent::Failed(error) => event@ == StepEventView::Failed(error@),
            StepEvent::Replied(reply) => event@ == StepEventView::Replied(reply@),
            StepEvent::TimedOut => event@ is TimedOut,
        },
        match stage {
            Stage::Open => stage@ is Open,
            Stage::Start => stage@ is Start,
            Stage::Send => stage@ is Send,
            Stage::Wait => stage@ is Wait,
            Stage::Stop(reply) => stage@ == StageView::Stop(reply@),
            Stage::Over(result) => stage@ == StageView::Over(outcome_view(result)),
        },
        match result {
            Ok(_) => outcome_view(result) is Ok,
            Err(error) => outcome_view(result) == Err::<(), Seq<char>>(error@),
        },
        outcome@.alive == outcome.alive,
        outcome@.attempted_relays == texts(outcome.attempted_relays@),
        outcome.success_relay is None ==> outcome@.success_relay is None,
        outcome.success_relay matches Some(relay) ==> outcome@.success_relay == Some(relay@),
        outcome@.reason == outcome.reason@,
{
}

} // verus!
