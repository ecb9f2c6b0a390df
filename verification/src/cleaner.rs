//! The cleaner: it removes everything by servers that have been dead for several rounds.

use vstd::prelude::*;
use crate::args::{command_of, ArgError, Command, Options, OptionsView, ParsedView, Tool};
use crate::sorted::{drop_repeats, law_repeats_are_dropped, without_repeats, TextSet};
use crate::state_file::FailureCounts;
use crate::text::{copy_texts, texts};

verus! {

/// The settings of a run.
#[derive(Debug)]
pub struct Config {
    pub strfry_bin: String,
    pub state_file: String,
    pub local_relay: String,
    pub relay_list_sources: Vec<String>,
    pub timeout_seconds: u64,
    pub failure_threshold: u32,
    pub rounds: u32,
    pub interval_seconds: u64,
    pub dry_run: bool,
}

/// The relays that are asked for relay lists besides the local one.
pub open spec fn fallback_relays_text() -> Seq<Seq<char>> {
    seq![
        "wss://relay.damus.io"@,
        "wss://relay.primal.net"@,
        "wss://relay.nostr.net"@,
        "wss://nos.lol"@,
    ]
}

/// The relays that are asked for relay lists besides the local one.
pub fn fallback_relays() -> (res: Vec<String>)
    ensures
        texts(res@) == fallback_relays_text(),
{
    let relays: Vec<String> = vec![
        "wss://relay.damus.io".to_owned(),
        "wss://relay.primal.net".to_owned(),
        "wss://relay.nostr.net".to_owned(),
        "wss://nos.lol".to_owned(),
    ];
    assert(texts(relays@) =~= fallback_relays_text());
    relays
}

impl Config {
    /// Whether the settings are those that `options` ask for: the same, and the local relay as the
    /// first of the relays that are asked for relay lists.
    pub open spec fn follows(&self, options: OptionsView) -> bool {
        &&& self.strfry_bin@ == options.strfry_bin
        &&& self.state_file@ == options.state_file
        &&& self.local_relay@ == options.local_relay
        &&& texts(self.relay_list_sources@) == seq![options.local_relay] + fallback_relays_text()
        &&& self.timeout_seconds == options.timeout_seconds
        &&& self.failure_threshold == options.failure_threshold
        &&& self.rounds == options.rounds
        &&& self.interval_seconds == options.interval_seconds
        &&& self.dry_run == options.dry_run
    }

    /// Reads the settings from the arguments of the program, without its name.
    pub fn from_args(args: &Vec<String>) -> (res: Result<Command<Config>, ArgError>)
        ensures
            match res {
                Ok(Command::Run(config)) => {
                    &&& config.rounds > 0
                    &&& config.failure_threshold > 0
                    &&& command_of(Tool::Cleaner, texts(args@)) matches ParsedView::Run(options)
                    &&& config.follows(options)
                },
                Ok(Command::Help) => command_of(Tool::Cleaner, texts(args@)) is Help,
                Err(error) => command_of(Tool::Cleaner, texts(args@)) == ParsedView::Refused(error@),
            },
    {
        match Options::parse(Tool::Cleaner, args) {
            Ok(Command::Run(options)) => {
                let mut relay_list_sources: Vec<String> = vec![options.local_relay.clone()];
                let mut fallback = fallback_relays();
                relay_list_sources.append(&mut fallback);
                assert(texts(relay_list_sources@) =~= seq![options@.local_relay]
                    + fallback_relays_text());
                Ok(
                    Command::Run(
                        Config {
                            strfry_bin: options.strfry_bin,
                            state_file: options.state_file,
                            local_relay: options.local_relay,
                            relay_list_sources,
                            timeout_seconds: options.timeout_seconds,
                            failure_threshold: options.failure_threshold,
                            rounds: options.rounds,
                            interval_seconds: options.interval_seconds,
                            dry_run: options.dry_run,
                        },
                    ),
                )
            },
            Ok(Command::Help) => Ok(Command::Help),
            Err(error) => Err(error),
        }
    }
}

/// What is to be done for the first of the servers that are left in a round.
#[derive(Debug)]
enum Stage {
    /// Fetch its relay list.
    Fetch,
    /// Try to reach it through these relays.
    Probe(Vec<String>),
    /// Delete everything by it.
    Delete,
}

/// The model of where a round stands with the first of the servers that are left.
pub enum StageView {
    Fetch,
    Probe(Seq<Seq<char>>),
    Delete,
}

/// What is to be done next in a round.
#[derive(Debug)]
pub enum Action {
    /// Fetch the relay list of this server.
    FetchRelayList { pubkey: String },
    /// Try to reach this server through these relays.
    Probe { pubkey: String, relays: Vec<String> },
    /// Delete everything by this server.
    Delete { pubkey: String },
    /// The round is over.
    Finished,
}

/// What has come of the last action of a round.
#[derive(Debug)]
pub enum Event {
    /// The relay list of the server names these relays.
    RelayListFetched { relays: Vec<String> },
    /// The server is alive, or it was not reached.
    Probed { alive: bool },
    /// Everything by the server was deleted, or would have been if this were no dry run.
    Deleted,
}

/// The model of `Event`.
pub enum EventView {
    RelayListFetched { relays: Seq<Seq<char>> },
    Probed { alive: bool },
    Deleted,
}

impl View for Event {
    type V = EventView;

    open spec fn view(&self) -> EventView {
        match *self {
            Event::RelayListFetched { relays } => EventView::RelayListFetched {
                relays: texts(relays@),
            },
            Event::Probed { alive } => EventView::Probed { alive },
            Event::Deleted => EventView::Deleted,
        }
    }
}

/// A round of the cleaner: the servers that have announced themselves are looked at one after the
/// other.
pub struct CleanupRound {
    pubkeys: Vec<String>,
    position: usize,
    stage: Stage,
    failures: FailureCounts,
    local_relay: String,
    failure_threshold: u32,
}

/// The model of `CleanupRound`.
pub struct RoundView {
    /// The servers that are left; the first one is being looked at.
    pub left: Seq<Seq<char>>,
    /// Where the round stands with the first one.
    pub stage: StageView,
    /// How often each server has failed in a row.
    pub failures: Map<Seq<char>, u32>,
    /// The relay to try if a server has no relay list.
    pub local_relay: Seq<char>,
    /// How often in a row a server may fail before it counts as dead.
    pub failure_threshold: u32,
}

impl View for CleanupRound {
    type V = RoundView;

    closed spec fn view(&self) -> RoundView {
        RoundView {
            left: texts(self.pubkeys@).skip(self.position as int),
            stage: match self.stage {
                Stage::Fetch => StageView::Fetch,
                Stage::Probe(relays) => StageView::Probe(texts(relays@)),
                Stage::Delete => StageView::Delete,
            },
            failures: self.failures@,
            local_relay: self.local_relay@,
            failure_threshold: self.failure_threshold,
        }
    }
}

/// How often `pubkey` has failed in a row.
pub open spec fn count_of(failures: Map<Seq<char>, u32>, pubkey: Seq<char>) -> u32 {
    if failures.contains_key(pubkey) {
        failures[pubkey]
    } else {
        0
    }
}

/// The relays through which a server is tried: those of its relay list, or the local one if it has
/// none.
pub open spec fn probe_targets(relays: Seq<Seq<char>>, local_relay: Seq<char>) -> Seq<Seq<char>> {
    if relays.len() == 0 {
        seq![local_relay]
    } else {
        relays
    }
}

impl RoundView {
    /// Whether `event` can come of what is to be done next. A server whose count cannot grow any
    /// more must not fail again.
    pub open spec fn allows(self, event: EventView) -> bool {
        &&& self.left.len() > 0
        &&& match event {
            EventView::RelayListFetched { .. } => self.stage is Fetch,
            EventView::Probed { alive } => self.stage is Probe && (alive || count_of(
                self.failures,
                self.left[0],
            ) < u32::MAX),
            EventView::Deleted => self.stage is Delete,
        }
    }

    /// The round with the first server done.
    pub open spec fn next_server(self, failures: Map<Seq<char>, u32>) -> RoundView {
        RoundView { left: self.left.skip(1), stage: StageView::Fetch, failures, ..self }
    }

    /// The round after `event`.
    pub open spec fn after(self, event: EventView) -> RoundView {
        let pubkey = self.left[0];
        match event {
            EventView::RelayListFetched { relays } => RoundView {
                stage: StageView::Probe(probe_targets(relays, self.local_relay)),
                ..self
            },
            EventView::Probed { alive } => if alive {
                self.next_server(self.failures.remove(pubkey))
            } else {
                let count = (count_of(self.failures, pubkey) + 1) as u32;
                let failures = self.failures.insert(pubkey, count);
                if count >= self.failure_threshold {
                    RoundView { stage: StageView::Delete, failures, ..self }
                } else {
                    self.next_server(failures)
                }
            },
            EventView::Deleted => self.next_server(self.failures.remove(pubkey)),
        }
    }
}

/// The round before any of the servers has been looked at whose announcements are by `pubkeys`. A
/// server with several announcements is looked at once. The counts of servers that have no
/// announcement any more are dropped.
pub open spec fn fresh_round(
    pubkeys: Seq<Seq<char>>,
    failures: Map<Seq<char>, u32>,
    local_relay: Seq<char>,
    failure_threshold: u32,
) -> RoundView {
    RoundView {
        left: without_repeats(pubkeys),
        stage: StageView::Fetch,
        failures: failures.restrict(pubkeys.to_set()),
        local_relay,
        failure_threshold,
    }
}

impl CleanupRound {
    /// The position is within the list of servers, and the counts are kept in order.
    pub closed spec fn wf(&self) -> bool {
        self.position <= self.pubkeys@.len() && self.failures.wf()
    }

    /// Starts a round with the servers that have announced themselves, one of `pubkeys` for each
    /// announcement.
    pub fn start(
        pubkeys: Vec<String>,
        failures: FailureCounts,
        local_relay: String,
        failure_threshold: u32,
    ) -> (res: Self)
        requires
            failures.wf(),
        ensures
            res.wf(),
            res@ == fresh_round(texts(pubkeys@), failures@, local_relay@, failure_threshold),
    {
        let mut failures = failures;
        let current = TextSet::collect(&pubkeys);
        failures.retain_keys(&current);
        let servers = drop_repeats(&pubkeys);
        let res = CleanupRound {
            pubkeys: servers,
            position: 0,
            stage: Stage::Fetch,
            failures,
            local_relay,
            failure_threshold,
        };
        assert(res@.left =~= texts(servers@));
        res
    }

    /// What is to be done next.
    pub fn action(&self) -> (res: Action)
        requires
            self.wf(),
        ensures
            match res {
                Action::FetchRelayList { pubkey } => self@.left.len() > 0 && self@.stage is Fetch
                    && pubkey@ == self@.left[0],
                Action::Probe { pubkey, relays } => self@.left.len() > 0 && self@.stage
                    == StageView::Probe(texts(relays@)) && pubkey@ == self@.left[0],
                Action::Delete { pubkey } => self@.left.len() > 0 && self@.stage is Delete
                    && pubkey@ == self@.left[0],
                Action::Finished => self@.left.len() == 0,
            },
    {
        if self.position == self.pubkeys.len() {
            return Action::Finished;
        }
        let pubkey = self.pubkeys[self.position].clone();
        match &self.stage {
            Stage::Fetch => Action::FetchRelayList { pubkey },
            Stage::Probe(relays) => Action::Probe { pubkey, relays: copy_texts(relays) },
            Stage::Delete => Action::Delete { pubkey },
        }
    }

    /// How often the server that is being looked at has failed in a row.
    pub fn failure_count(&self) -> (res: u32)
        requires
            self.wf(),
            self@.left.len() > 0,
        ensures
            res == count_of(self@.failures, self@.left[0]),
    {
        match self.failures.get(self.pubkeys[self.position].as_str()) {
            Some(count) => *count,
            None => 0,
        }
    }

    /// Takes note of what has come of the last action.
    pub fn advance(&mut self, event: Event)
        requires
            old(self).wf(),
            old(self)@.allows(event@),
        ensures
            final(self).wf(),
            final(self)@ == old(self)@.after(event@),
    {
        let ghost before = self@;
        assert(self.position < self.pubkeys.len());
        let pubkey = self.pubkeys[self.position].clone();
        assert(pubkey@ == before.left[0]);
        match event {
            Event::RelayListFetched { relays } => {
                if relays.len() == 0 {
                    let targets: Vec<String> = vec![self.local_relay.clone()];
                    assert(texts(targets@) =~= seq![before.local_relay]);
                    self.stage = Stage::Probe(targets);
                } else {
                    self.stage = Stage::Probe(relays);
                }
                return;
            },
            Event::Probed { alive } => {
                if alive {
                    let _ = self.failures.remove(pubkey.as_str());
                } else {
                    let count: u32 = self.failure_count() + 1;
                    self.failures.set(pubkey, count);
                    if count >= self.failure_threshold {
                        self.stage = Stage::Delete;
                        return;
                    }
                }
            },
            Event::Deleted => {
                let _ = self.failures.remove(pubkey.as_str());
            },
        }
        self.stage = Stage::Fetch;
        self.position += 1;
        assert(self@.left =~= before.left.skip(1));
    }

    /// The counts that are left, once the round is over.
    pub fn into_failures(self) -> (res: FailureCounts)
        requires
            self.wf(),
            self@.left.len() == 0,
        ensures
            res.wf(),
            res@ == self@.failures,
    {
        self.failures
    }
}

/// What the failure counts become when a server was looked at, and whether everything by it was
/// deleted.
pub open spec fn settled(
    failures: Map<Seq<char>, u32>,
    pubkey: Seq<char>,
    alive: bool,
    failure_threshold: u32,
) -> (Map<Seq<char>, u32>, bool) {
    if alive {
        (failures.remove(pubkey), false)
    } else if count_of(failures, pubkey) + 1 >= failure_threshold {
        (failures.remove(pubkey), true)
    } else {
        (failures.insert(pubkey, (count_of(failures, pubkey) + 1) as u32), false)
    }
}

/// A visit to a server: the relays that its list names, and whether it was alive.
pub struct Visit {
    pub relays: Seq<Seq<char>>,
    pub alive: bool,
}

/// The round after the probe of the first server.
pub open spec fn probed(round: RoundView, visit: Visit) -> RoundView {
    round.after(EventView::RelayListFetched { relays: visit.relays }).after(
        EventView::Probed { alive: visit.alive },
    )
}

/// The round after the first server was looked at to the end.
pub open spec fn visited(round: RoundView, visit: Visit) -> RoundView {
    let tried = probed(round, visit);
    if tried.stage is Delete {
        tried.after(EventView::Deleted)
    } else {
        tried
    }
}

/// Looking at a server changes its own count alone. An alive server is left without a count and is
/// never deleted. One that failed is deleted exactly when its failures in a row have reached the
/// threshold, and then it is left without a count too. The probe goes through the relays of its
/// list, or through the local relay if the list names none.
pub proof fn law_visit_settles_one_server(round: RoundView, visit: Visit)
    requires
        round.stage is Fetch,
        round.left.len() > 0,
        visit.alive || count_of(round.failures, round.left[0]) < u32::MAX,
    ensures
        ({
            let pubkey = round.left[0];
            let result = settled(round.failures, pubkey, visit.alive, round.failure_threshold);
            let fetched = round.after(EventView::RelayListFetched { relays: visit.relays });
            &&& round.allows(EventView::RelayListFetched { relays: visit.relays })
            &&& fetched.stage == StageView::Probe(probe_targets(visit.relays, round.local_relay))
            &&& fetched.allows(EventView::Probed { alive: visit.alive })
            &&& probed(round, visit).stage is Delete <==> result.1
            &&& result.1 ==> probed(round, visit).left[0] == pubkey && probed(round, visit).allows(
                EventView::Deleted,
            )
            &&& visited(round, visit) == round.next_server(result.0)
            &&& visit.alive ==> !result.1 && !result.0.contains_key(pubkey)
            &&& result.1 ==> !result.0.contains_key(pubkey)
            &&& forall|other: Seq<char>|
                other != pubkey ==> (#[trigger] result.0.contains_key(other)
                    <==> round.failures.contains_key(other)) && (result.0.contains_key(other)
                    ==> result.0[other] == round.failures[other])
        }),
{
    let pubkey = round.left[0];
    let tried = probed(round, visit);
    assert(round.failures.insert(pubkey, (count_of(round.failures, pubkey) + 1) as u32).remove(
        pubkey,
    ) =~= round.failures.remove(pubkey));
}

/// The round after the servers were looked at that `visits` are of, one after the other.
pub open spec fn after_visits(round: RoundView, visits: Seq<Visit>) -> RoundView
    decreases visits.len(),
{
    if visits.len() == 0 {
        round
    } else {
        visited(after_visits(round, visits.drop_last()), visits.last())
    }
}

/// Whether no failed visit in `visits` meets a count that cannot grow any more.
pub open spec fn counts_can_grow(round: RoundView, visits: Seq<Visit>) -> bool {
    forall|i: int|
        0 <= i < visits.len() ==> visits[i].alive || count_of(
            (#[trigger] after_visits(round, visits.take(i))).failures,
            round.left[i],
        ) < u32::MAX
}

/// After a round in which every server was looked at, the counts are those of servers that have an
/// announcement and whose probe has failed, and each is at least one and below the threshold. So a
/// server that was alive has none, and none is left of servers without an announcement.
pub proof fn law_round_keeps_only_failing_servers(
    pubkeys: Seq<Seq<char>>,
    failures: Map<Seq<char>, u32>,
    local_relay: Seq<char>,
    failure_threshold: u32,
    visits: Seq<Visit>,
)
    requires
        is_round(pubkeys, failures, local_relay, failure_threshold, visits),
    ensures
        ({
            let start = fresh_round(pubkeys, failures, local_relay, failure_threshold);
            let end = after_visits(start, visits);
            &&& end.left.len() == 0
            &&& forall|pubkey: Seq<char>| #[trigger]
                end.failures.contains_key(pubkey) ==> {
                    &&& pubkeys.contains(pubkey)
                    &&& 1 <= end.failures[pubkey] < failure_threshold
                    &&& !visits[visit_to(pubkeys, pubkey)].alive
                }
        }),
{
    let start = fresh_round(pubkeys, failures, local_relay, failure_threshold);
    let servers = without_repeats(pubkeys);
    law_repeats_are_dropped(pubkeys);
    lemma_after_visits(start, visits);
    let end = after_visits(start, visits);
    assert forall|pubkey: Seq<char>| #[trigger] end.failures.contains_key(pubkey) implies {
        &&& pubkeys.contains(pubkey)
        &&& 1 <= end.failures[pubkey] < failure_threshold
        &&& !visits[visit_to(pubkeys, pubkey)].alive
    } by {
        if exists|i: int| #[trigger] failed_at(servers, visits, pubkey, i) {
            let i = choose|i: int| #[trigger] failed_at(servers, visits, pubkey, i);
            assert(servers.to_set().contains(servers[i]));
            lemma_visit_to(pubkeys, pubkey);
        } else {
            assert(start.failures.contains_key(pubkey));
            lemma_visit_to(pubkeys, pubkey);
        }
    }
}

/// Whether `visits` are of all servers in a round with announcements by `pubkeys`, one of each, and
/// none that failed met a count that could not grow any more.
pub open spec fn is_round(
    pubkeys: Seq<Seq<char>>,
    failures: Map<Seq<char>, u32>,
    local_relay: Seq<char>,
    failure_threshold: u32,
    visits: Seq<Visit>,
) -> bool {
    &&& visits.len() == without_repeats(pubkeys).len()
    &&& counts_can_grow(
        fresh_round(pubkeys, failures, local_relay, failure_threshold),
        visits,
    )
}

/// Which of the visits in a round with announcements by `pubkeys` is the one to `pubkey`.
pub open spec fn visit_to(pubkeys: Seq<Seq<char>>, pubkey: Seq<char>) -> int {
    without_repeats(pubkeys).index_of(pubkey)
}

proof fn lemma_visit_to(pubkeys: Seq<Seq<char>>, pubkey: Seq<char>)
    requires
        pubkeys.contains(pubkey) || without_repeats(pubkeys).contains(pubkey),
    ensures
        pubkeys.contains(pubkey),
        0 <= visit_to(pubkeys, pubkey) < without_repeats(pubkeys).len(),
        without_repeats(pubkeys)[visit_to(pubkeys, pubkey)] == pubkey,
        forall|j: int|
            0 <= j < without_repeats(pubkeys).len() && without_repeats(pubkeys)[j] == pubkey ==> j
                == visit_to(pubkeys, pubkey),
{
    law_repeats_are_dropped(pubkeys);
    assert(pubkeys.to_set().contains(pubkey) == without_repeats(pubkeys).to_set().contains(pubkey));
    assert(without_repeats(pubkeys).contains(pubkey));
}

/// Whether the visit at `i` was to `pubkey`, and it was not alive.
spec fn failed_at(
    servers: Seq<Seq<char>>,
    visits: Seq<Visit>,
    pubkey: Seq<char>,
    i: int,
) -> bool {
    0 <= i < visits.len() && servers[i] == pubkey && !visits[i].alive
}

proof fn lemma_after_visits(start: RoundView, visits: Seq<Visit>)
    requires
        start.stage is Fetch,
        visits.len() <= start.left.len(),
        counts_can_grow(start, visits),
    ensures
        ({
            let end = after_visits(start, visits);
            &&& end.stage is Fetch
            &&& end.left == start.left.skip(visits.len() as int)
            &&& end.local_relay == start.local_relay
            &&& end.failure_threshold == start.failure_threshold
            &&& forall|pubkey: Seq<char>| #[trigger]
                end.failures.contains_key(pubkey) ==> {
                    ||| (exists|i: int| #[trigger] failed_at(start.left, visits, pubkey, i)) && 1
                        <= end.failures[pubkey] < start.failure_threshold
                    ||| start.failures.contains_key(pubkey) && forall|j: int|
                        0 <= j < visits.len() ==> start.left[j] != pubkey
                }
        }),
    decreases visits.len(),
{
    if visits.len() == 0 {
        assert(start.left.skip(0) =~= start.left);
    } else {
        let front = visits.drop_last();
        let n = front.len() as int;
        assert(visits.take(n) =~= front);
        lemma_counts_can_grow(start, visits, n);
        lemma_after_visits(start, front);
        let prior = after_visits(start, front);
        let end = after_visits(start, visits);
        let visit = visits.last();
        assert(prior.left[0] == start.left[n]);
        assert(visits[n].alive || count_of(
            after_visits(start, visits.take(n)).failures,
            start.left[n],
        ) < u32::MAX);
        law_visit_settles_one_server(prior, visit);
        assert(end.left =~= start.left.skip(visits.len() as int));
        assert forall|pubkey: Seq<char>| #[trigger] end.failures.contains_key(pubkey) implies {
            ||| (exists|i: int| #[trigger] failed_at(start.left, visits, pubkey, i)) && 1
                <= end.failures[pubkey] < start.failure_threshold
            ||| start.failures.contains_key(pubkey) && forall|j: int|
                0 <= j < visits.len() ==> start.left[j] != pubkey
        } by {
            if pubkey == start.left[n] {
                assert(failed_at(start.left, visits, pubkey, n));
            } else {
                assert(prior.failures.contains_key(pubkey));
                if exists|i: int| #[trigger] failed_at(start.left, front, pubkey, i) {
                    let i = choose|i: int| #[trigger] failed_at(start.left, front, pubkey, i);
                    assert(failed_at(start.left, visits, pubkey, i));
                }
            }
        }
    }
}

/// Every server with an announcement, however many it has, is looked at once in a round and is
/// settled by that visit, whatever comes of the others: its count afterwards is what the visit makes
/// of the count before the round, and everything by it is deleted exactly if the visit says so.
pub proof fn law_round_settles_each_server(
    pubkeys: Seq<Seq<char>>,
    failures: Map<Seq<char>, u32>,
    local_relay: Seq<char>,
    failure_threshold: u32,
    visits: Seq<Visit>,
    pubkey: Seq<char>,
)
    requires
        is_round(pubkeys, failures, local_relay, failure_threshold, visits),
        pubkeys.contains(pubkey),
    ensures
        ({
            let start = fresh_round(pubkeys, failures, local_relay, failure_threshold);
            let end = after_visits(start, visits);
            let i = visit_to(pubkeys, pubkey);
            let result = settled(failures, pubkey, visits[i].alive, failure_threshold);
            &&& 0 <= i < visits.len()
            &&& forall|j: int| 0 <= j < visits.len() ==> (start.left[j] == pubkey <==> j == i)
            &&& end.failures.contains_key(pubkey) <==> result.0.contains_key(pubkey)
            &&& count_of(end.failures, pubkey) == count_of(result.0, pubkey)
            &&& probed(after_visits(start, visits.take(i)), visits[i]).stage is Delete <==> result.1
        }),
{
    let start = fresh_round(pubkeys, failures, local_relay, failure_threshold);
    let i = visit_to(pubkeys, pubkey);
    lemma_visit_to(pubkeys, pubkey);
    assert(pubkeys.to_set().contains(pubkey));
    lemma_untouched(start, visits, pubkey, 0, i);
    lemma_untouched(start, visits, pubkey, i + 1, visits.len() as int);
    assert(visits.take(0) =~= Seq::<Visit>::empty());
    assert(visits.take(visits.len() as int) =~= visits);
    lemma_one_visit(start, visits, i);
}

proof fn lemma_counts_can_grow(start: RoundView, visits: Seq<Visit>, n: int)
    requires
        counts_can_grow(start, visits),
        0 <= n <= visits.len(),
    ensures
        counts_can_grow(start, visits.take(n)),
{
    let some = visits.take(n);
    assert forall|i: int| 0 <= i < some.len() implies some[i].alive || count_of(
        (#[trigger] after_visits(start, some.take(i))).failures,
        start.left[i],
    ) < u32::MAX by {
        assert(some.take(i) =~= visits.take(i));
    }
}

proof fn lemma_one_visit(start: RoundView, visits: Seq<Visit>, n: int)
    requires
        start.stage is Fetch,
        visits.len() <= start.left.len(),
        counts_can_grow(start, visits),
        0 <= n < visits.len(),
    ensures
        ({
            let prior = after_visits(start, visits.take(n));
            let result = settled(
                prior.failures,
                start.left[n],
                visits[n].alive,
                start.failure_threshold,
            );
            &&& after_visits(start, visits.take(n + 1)).failures == result.0
            &&& probed(prior, visits[n]).stage is Delete <==> result.1
        }),
{
    let prior = after_visits(start, visits.take(n));
    lemma_counts_can_grow(start, visits, n);
    lemma_after_visits(start, visits.take(n));
    assert(prior.left[0] == start.left[n]);
    assert(visits.take(n + 1).drop_last() =~= visits.take(n));
    assert(visits[n].alive || count_of(prior.failures, start.left[n]) < u32::MAX);
    law_visit_settles_one_server(prior, visits[n]);
}

proof fn lemma_untouched(start: RoundView, visits: Seq<Visit>, pubkey: Seq<char>, from: int, to: int)
    requires
        start.stage is Fetch,
        visits.len() <= start.left.len(),
        counts_can_grow(start, visits),
        0 <= from <= to <= visits.len(),
        forall|j: int| from <= j < to ==> start.left[j] != pubkey,
    ensures
        ({
            let before = after_visits(start, visits.take(from)).failures;
            let after = after_visits(start, visits.take(to)).failures;
            &&& before.contains_key(pubkey) <==> after.contains_key(pubkey)
            &&& before.contains_key(pubkey) ==> before[pubkey] == after[pubkey]
        }),
    decreases to - from,
{
    if from < to {
        lemma_untouched(start, visits, pubkey, from, to - 1);
        lemma_one_visit(start, visits, to - 1);
        assert(start.left[to - 1] != pubkey);
    }
}

/// A server is tried through all relays of its list, and through no others; if the list names none,
/// through the local relay alone. Nothing else changes when the list has come.
pub proof fn law_list_is_tried_as_a_whole(round: RoundView, relays: Seq<Seq<char>>)
    ensures
        ({
            let next = round.after(EventView::RelayListFetched { relays });
            &&& relays.len() > 0 ==> next.stage == StageView::Probe(relays)
            &&& relays.len() == 0 ==> next.stage == StageView::Probe(seq![round.local_relay])
            &&& next.left == round.left
            &&& next.failures == round.failures
            &&& next.local_relay == round.local_relay
            &&& next.failure_threshold == round.failure_threshold
        }),
{
}

/// A server that is alive loses its count, and the round goes on. One that is not has one failure
/// more; it is to be deleted if that reaches the threshold, and otherwise the round goes on.
pub proof fn law_probe_decides_over_the_server(round: RoundView, alive: bool)
    requires
        round.left.len() > 0,
    ensures
        ({
            let next = round.after(EventView::Probed { alive });
            let pubkey = round.left[0];
            let count = count_of(round.failures, pubkey) + 1;
            &&& next.local_relay == round.local_relay
            &&& next.failure_threshold == round.failure_threshold
            &&& alive ==> next.failures == round.failures.remove(pubkey)
            &&& !alive && count <= u32::MAX ==> next.failures == round.failures.insert(
                pubkey,
                count as u32,
            )
            &&& !alive && count_of(round.failures, pubkey) < u32::MAX && count
                >= round.failure_threshold ==> next.stage is Delete && next.left == round.left
            &&& alive || (count_of(round.failures, pubkey) < u32::MAX && count
                < round.failure_threshold) ==> next.stage is Fetch && next.left == round.left.skip(1)
        }),
{
}

/// A server that was deleted loses its count, and the round goes on.
pub proof fn law_deletion_ends_the_visit(round: RoundView)
    requires
        round.left.len() > 0,
    ensures
        ({
            let next = round.after(EventView::Deleted);
            &&& next.failures == round.failures.remove(round.left[0])
            &&& next.left == round.left.skip(1)
            &&& next.stage is Fetch
            &&& next.local_relay == round.local_relay
            &&& next.failure_threshold == round.failure_threshold
        }),
{
}

/// The count of a server is the one that is stored, and zero if none is.
pub proof fn law_server_without_an_entry_has_no_failures(
    failures: Map<Seq<char>, u32>,
    pubkey: Seq<char>,
)
    ensures
        failures.contains_key(pubkey) ==> count_of(failures, pubkey) == failures[pubkey],
        !failures.contains_key(pubkey) ==> count_of(failures, pubkey) == 0,
{
}

/// A round starts with every server that has an announcement, with the counts of these and of no
/// others, and with the settings that it is given.
pub proof fn law_round_starts_with_the_announced_servers(
    pubkeys: Seq<Seq<char>>,
    failures: Map<Seq<char>, u32>,
    local_relay: Seq<char>,
    failure_threshold: u32,
    pubkey: Seq<char>,
)
    ensures
        ({
            let round = fresh_round(pubkeys, failures, local_relay, failure_threshold);
            &&& round.stage is Fetch
            &&& round.local_relay == local_relay
            &&& round.failure_threshold == failure_threshold
            &&& round.left.no_duplicates()
            &&& round.left == without_repeats(pubkeys)
            &&& round.left.contains(pubkey) <==> pubkeys.contains(pubkey)
            &&& round.failures.contains_key(pubkey) <==> pubkeys.contains(pubkey)
                && failures.contains_key(pubkey)
            &&& round.failures.contains_key(pubkey) ==> round.failures[pubkey] == failures[pubkey]
        }),
{
    law_repeats_are_dropped(pubkeys);
    assert(without_repeats(pubkeys).to_set().contains(pubkey) == pubkeys.to_set().contains(pubkey));
}

/// A round that is not over takes what can come of its next action, unless a server fails whose
/// count cannot grow any more.
pub proof fn law_round_takes_what_its_action_brings(
    round: RoundView,
    relays: Seq<Seq<char>>,
    alive: bool,
)
    ensures
        round.allows(EventView::RelayListFetched { relays }) <==> round.left.len() > 0
            && round.stage is Fetch,
        round.allows(EventView::Probed { alive }) <==> round.left.len() > 0 && round.stage is Probe
            && (alive || count_of(round.failures, round.left[0]) < u32::MAX),
        round.allows(EventView::Deleted) <==> round.left.len() > 0 && round.stage is Delete,
{
}

/// The model of an event keeps what it holds.
pub proof fn law_model_of_a_cleaner_event(event: Event)
    ensures
        match event {
            Event::RelayListFetched { relays } => event@ == (EventView::RelayListFetched {
                relays: texts(relays@),
            }),
            Event::Probed { alive } => event@ == (EventView::Probed { alive }),
            Event::Deleted => event@ is Deleted,
        },
{
}

/// The settings of a run are those that the options ask for, and relay lists are asked for on the
/// local relay first and then on the others.
pub proof fn law_cleaner_runs_as_asked(config: Config, options: OptionsView)
    requires
        config.follows(options),
    ensures
        config.strfry_bin@ == options.strfry_bin,
        config.state_file@ == options.state_file,
        config.local_relay@ == options.local_relay,
        config.relay_list_sources@.len() == 5,
        config.relay_list_sources@[0]@ == options.local_relay,
        config.relay_list_sources@[1]@ == "wss://relay.damus.io"@,
        config.relay_list_sources@[2]@ == "wss://relay.primal.net"@,
        config.relay_list_sources@[3]@ == "wss://relay.nostr.net"@,
        config.relay_list_sources@[4]@ == "wss://nos.lol"@,
        config.timeout_seconds == options.timeout_seconds,
        config.failure_threshold == options.failure_threshold,
        config.rounds == options.rounds,
        config.interval_seconds == options.interval_seconds,
        config.dry_run == options.dry_run,
{
    let sources = texts(config.relay_list_sources@);
    assert(sources.len() == 5);
    assert forall|i: int| 0 <= i < 5 implies (#[trigger] config.relay_list_sources@[i])@ == (seq![
        options.local_relay,
    ] + fallback_relays_text())[i] by {
        assert(sources[i] == config.relay_list_sources@[i]@);
    }
}

} // verus!
