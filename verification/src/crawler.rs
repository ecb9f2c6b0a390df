//! The crawler: it brings in the announcements of servers that are alive.

use vstd::prelude::*;
use crate::args::{command_of, ArgError, Command, Options, OptionsView, ParsedView, Tool};
use crate::discovery::DiscoveredServer;
use crate::sorted::ascending;
use crate::text::{copy_texts, text_lt, texts};

verus! {

/// The settings of a run.
#[derive(Debug)]
pub struct Config {
    pub strfry_bin: String,
    pub local_relay: String,
    pub source_relays: Vec<String>,
    pub timeout_seconds: u64,
    pub rounds: u32,
    pub interval_seconds: u64,
    pub dry_run: bool,
}

/// The relays that are asked besides the local one.
pub open spec fn fallback_relays_text() -> Seq<Seq<char>> {
    seq![
        "wss://relay.damus.io"@,
        "wss://relay.primal.net"@,
        "wss://relay.nostr.net"@,
        "wss://nos.lol"@,
        "wss://nostr.bitcoiner.social"@,
        "wss://nostr.oxtr.dev"@,
        "wss://offchain.pub"@,
        "wss://nostr.mom"@,
        "wss://nostr.wine"@,
        "wss://relay.ditto.pub"@,
        "wss://purplepag.es"@,
    ]
}

/// The relays that are asked besides the local one.
pub fn fallback_relays() -> (res: Vec<String>)
    ensures
        texts(res@) == fallback_relays_text(),
{
    let relays: Vec<String> = vec![
        "wss://relay.damus.io".to_owned(),
        "wss://relay.primal.net".to_owned(),
        "wss://relay.nostr.net".to_owned(),
        "wss://nos.lol".to_owned(),
        "wss://nostr.bitcoiner.social".to_owned(),
        "wss://nostr.oxtr.dev".to_owned(),
        "wss://offchain.pub".to_owned(),
        "wss://nostr.mom".to_owned(),
        "wss://nostr.wine".to_owned(),
        "wss://relay.ditto.pub".to_owned(),
        "wss://purplepag.es".to_owned(),
    ];
    assert(texts(relays@) =~= fallback_relays_text());
    relays
}

impl Config {
    /// Whether the settings are those that `options` ask for: the same, and the local relay as the
    /// first of the source relays.
    pub open spec fn follows(&self, options: OptionsView) -> bool {
        &&& self.strfry_bin@ == options.strfry_bin
        &&& self.local_relay@ == options.local_relay
        &&& texts(self.source_relays@) == seq![options.local_relay] + fallback_relays_text()
        &&& self.timeout_seconds == options.timeout_seconds
        &&& self.rounds == options.rounds
        &&& self.interval_seconds == options.interval_seconds
        &&& self.dry_run == options.dry_run
    }

    /// Reads the settings from the arguments of the program, without its name.
    pub fn from_args(args: &Vec<String>) -> (res: Result<Command<Config>, ArgError>)
        ensures
            match res {
                Ok(Command::Run(config)) => {
                    &&& config.rounds > 0
                    &&& command_of(Tool::Crawler, texts(args@)) matches ParsedView::Run(options)
                    &&& config.follows(options)
                },
                Ok(Command::Help) => command_of(Tool::Crawler, texts(args@)) is Help,
                Err(error) => command_of(Tool::Crawler, texts(args@)) == ParsedView::Refused(error@),
            },
    {
        match Options::parse(Tool::Crawler, args) {
            Ok(Command::Run(options)) => {
                let mut source_relays: Vec<String> = vec![options.local_relay.clone()];
                let mut fallback = fallback_relays();
                source_relays.append(&mut fallback);
                assert(texts(source_relays@) =~= seq![options@.local_relay]
                    + fallback_relays_text());
                Ok(
                    Command::Run(
                        Config {
                            strfry_bin: options.strfry_bin,
                            local_relay: options.local_relay,
                            source_relays,
                            timeout_seconds: options.timeout_seconds,
                            rounds: options.rounds,
                            interval_seconds: options.interval_seconds,
                            dry_run: options.dry_run,
                        },
                    ),
                )
            },
            Ok(Command::Help) => Ok(Command::Help),
            Err(error) => Err(error),
        }
    }
}

/// What is to be done for the first of the servers that are left in a round.
#[derive(Debug)]
enum Stage {
    /// Fetch its relay list.
    Fetch,
    /// Try to reach it through these relays.
    Probe(Vec<String>),
}

/// The model of where a round stands with the first of the servers that are left.
pub enum StageView {
    Fetch,
    Probe(Seq<Seq<char>>),
}

/// What is to be done next in a round.
#[derive(Debug)]
pub enum Action {
    /// Fetch the relay list of this server.
    FetchRelayList { pubkey: String },
    /// Try to reach this server through these relays.
    Probe { pubkey: String, relays: Vec<String> },
    /// Bring in the events of this server.
    Import { pubkey: String },
    /// The round is over.
    Finished,
}

/// What has come of the last action of a round.
#[derive(Debug)]
pub enum Event {
    /// The relay list of the server names these relays.
    RelayListFetched { relays: Vec<String> },
    /// The server is alive, or it was not reached.
    Probed { alive: bool },
    /// The events of the server were brought in, or that was given up.
    ImportEnded,
}

/// The model of `Event`.
pub enum EventView {
    RelayListFetched { relays: Seq<Seq<char>> },
    Probed { alive: bool },
    ImportEnded,
}

impl View for Event {
    type V = EventView;

    open spec fn view(&self) -> EventView {
        match *self {
            Event::RelayListFetched { relays } => EventView::RelayListFetched {
                relays: texts(relays@),
            },
            Event::Probed { alive } => EventView::Probed { alive },
            Event::ImportEnded => EventView::ImportEnded,
        }
    }
}

/// The model of a server that was found.
pub struct ServerView {
    pub pubkey: Seq<char>,
    pub relays: Seq<Seq<char>>,
}

/// The model of a list of servers.
pub open spec fn servers_view(servers: Seq<DiscoveredServer>) -> Seq<ServerView> {
    Seq::new(
        servers.len(),
        |i: int| ServerView { pubkey: servers[i].pubkey@, relays: texts(servers[i].relays@) },
    )
}

/// A round of the crawler: the servers that were found are probed one after the other, and then
/// the events of those that are alive are brought in.
pub struct CrawlRound {
    servers: Vec<DiscoveredServer>,
    position: usize,
    stage: Stage,
    healthy: Vec<String>,
    dead: Vec<String>,
    imported: usize,
    local_relay: String,
}

/// The model of `CrawlRound`.
pub struct RoundView {
    /// The servers that have not been probed; the first one is being looked at.
    pub left: Seq<ServerView>,
    /// Where the round stands with the first one.
    pub stage: StageView,
    /// The servers that are alive.
    pub healthy: Seq<Seq<char>>,
    /// The servers that were not reached.
    pub dead: Seq<Seq<char>>,
    /// How many of those that are alive have had their events brought in.
    pub imported: nat,
    /// The relay to try first if a server has no relay list.
    pub local_relay: Seq<char>,
}

impl View for CrawlRound {
    type V = RoundView;

    closed spec fn view(&self) -> RoundView {
        RoundView {
            left: servers_view(self.servers@).skip(self.position as int),
            stage: match self.stage {
                Stage::Fetch => StageView::Fetch,
                Stage::Probe(relays) => StageView::Probe(texts(relays@)),
            },
            healthy: texts(self.healthy@),
            dead: texts(self.dead@),
            imported: self.imported as nat,
            local_relay: self.local_relay@,
        }
    }
}

/// The relays through which a server is tried: those of its relay list, or, if it has none, the
/// local one and then those that had its announcement.
pub open spec fn probe_targets(
    relays: Seq<Seq<char>>,
    announced_on: Seq<Seq<char>>,
    local_relay: Seq<char>,
) -> Seq<Seq<char>> {
    if relays.len() == 0 {
        seq![local_relay] + announced_on
    } else {
        relays
    }
}

impl RoundView {
    /// Whether `event` can come of what is to be done next.
    pub open spec fn allows(self, event: EventView) -> bool {
        match event {
            EventView::RelayListFetched { .. } => self.left.len() > 0 && self.stage is Fetch,
            EventView::Probed { .. } => self.left.len() > 0 && self.stage is Probe,
            EventView::ImportEnded => self.left.len() == 0 && self.imported < self.healthy.len(),
        }
    }

    /// The round after `event`.
    pub open spec fn after(self, event: EventView) -> RoundView {
        match event {
            EventView::RelayListFetched { relays } => RoundView {
                stage: StageView::Probe(
                    probe_targets(relays, self.left[0].relays, self.local_relay),
                ),
                ..self
            },
            EventView::Probed { alive } => RoundView {
                left: self.left.skip(1),
                stage: StageView::Fetch,
                healthy: if alive {
                    self.healthy.push(self.left[0].pubkey)
                } else {
                    self.healthy
                },
                dead: if alive {
                    self.dead
                } else {
                    self.dead.push(self.left[0].pubkey)
                },
                ..self
            },
            EventView::ImportEnded => RoundView { imported: self.imported + 1, ..self },
        }
    }
}

/// The round before any of `servers` has been probed.
pub open spec fn fresh_round(servers: Seq<ServerView>, local_relay: Seq<char>) -> RoundView {
    RoundView {
        left: servers,
        stage: StageView::Fetch,
        healthy: seq![],
        dead: seq![],
        imported: 0,
        local_relay,
    }
}

impl CrawlRound {
    /// The positions are within the lists that they belong to.
    pub closed spec fn wf(&self) -> bool {
        self.position <= self.servers@.len() && self.imported <= self.healthy@.len()
    }

    /// Starts a round with the servers that were found.
    pub fn start(servers: Vec<DiscoveredServer>, local_relay: String) -> (res: Self)
        ensures
            res.wf(),
            res@ == fresh_round(servers_view(servers@), local_relay@),
    {
        let res = CrawlRound {
            servers,
            position: 0,
            stage: Stage::Fetch,
            healthy: Vec::new(),
            dead: Vec::new(),
            imported: 0,
            local_relay,
        };
        assert(res@.left =~= servers_view(servers@));
        assert(res@.healthy =~= seq![]);
        assert(res@.dead =~= seq![]);
        res
    }

    /// What is to be done next.
    pub fn action(&self) -> (res: Action)
        requires
            self.wf(),
        ensures
            match res {
                Action::FetchRelayList { pubkey } => self@.left.len() > 0 && self@.stage is Fetch
                    && pubkey@ == self@.left[0].pubkey,
                Action::Probe { pubkey, relays } => self@.left.len() > 0 && self@.stage
                    == StageView::Probe(texts(relays@)) && pubkey@ == self@.left[0].pubkey,
                Action::Import { pubkey } => self@.left.len() == 0 && self@.imported
                    < self@.healthy.len() && pubkey@ == self@.healthy[self@.imported as int],
                Action::Finished => self@.left.len() == 0 && self@.imported
                    == self@.healthy.len(),
            },
    {
        if self.position < self.servers.len() {
            let pubkey = self.servers[self.position].pubkey.clone();
            match &self.stage {
                Stage::Fetch => Action::FetchRelayList { pubkey },
                Stage::Probe(relays) => Action::Probe { pubkey, relays: copy_texts(relays) },
            }
        } else if self.imported < self.healthy.len() {
            Action::Import { pubkey: self.healthy[self.imported].clone() }
        } else {
            Action::Finished
        }
    }

    /// Takes note of what has come of the last action.
    pub fn advance(&mut self, event: Event)
        requires
            old(self).wf(),
            old(self)@.allows(event@),
        ensures
            final(self).wf(),
            final(self)@ == old(self)@.after(event@),
    {
        let ghost before = self@;
        match event {
            Event::RelayListFetched { relays } => {
                assert(self.position < self.servers.len());
                if relays.len() == 0 {
                    let server = &self.servers[self.position];
                    let mut targets: Vec<String> = vec![self.local_relay.clone()];
                    let mut announced_on = copy_texts(&server.relays);
                    let ghost more = announced_on@;
                    targets.append(&mut announced_on);
                    assert(texts(targets@) =~= seq![before.local_relay] + texts(more));
                    self.stage = Stage::Probe(targets);
                } else {
                    self.stage = Stage::Probe(relays);
                }
            },
            Event::Probed { alive } => {
                assert(self.position < self.servers.len());
                let pubkey = self.servers[self.position].pubkey.clone();
                assert(pubkey@ == before.left[0].pubkey);
                if alive {
                    self.healthy.push(pubkey);
                    assert(texts(self.healthy@) =~= before.healthy.push(pubkey@));
                } else {
                    self.dead.push(pubkey);
                    assert(texts(self.dead@) =~= before.dead.push(pubkey@));
                }
                self.stage = Stage::Fetch;
                self.position += 1;
                assert(self@.left =~= before.left.skip(1));
            },
            Event::ImportEnded => {
                assert(self.imported < self.healthy.len());
                self.imported += 1;
            },
        }
    }

    /// How many servers are alive, and how many were not reached, of those that have been probed.
    pub fn counts(&self) -> (res: (usize, usize))
        ensures
            res.0 == self@.healthy.len(),
            res.1 == self@.dead.len(),
    {
        (self.healthy.len(), self.dead.len())
    }
}

/// A visit to a server: the relays that its list names, and whether it was alive.
pub struct Visit {
    pub relays: Seq<Seq<char>>,
    pub alive: bool,
}

/// The round after the servers were looked at that `visits` are of, one after the other.
pub open spec fn after_visits(round: RoundView, visits: Seq<Visit>) -> RoundView
    decreases visits.len(),
{
    if visits.len() == 0 {
        round
    } else {
        after_visits(round, visits.drop_last()).after(
            EventView::RelayListFetched { relays: visits.last().relays },
        ).after(EventView::Probed { alive: visits.last().alive })
    }
}

/// The public keys of those of the servers that `visits` are of that were alive, or of those that
/// were not, in order.
pub open spec fn keys_where(
    servers: Seq<ServerView>,
    visits: Seq<Visit>,
    alive: bool,
) -> Seq<Seq<char>>
    decreases visits.len(),
{
    if visits.len() == 0 {
        seq![]
    } else if visits.last().alive == alive {
        keys_where(servers, visits.drop_last(), alive).push(servers[visits.len() - 1].pubkey)
    } else {
        keys_where(servers, visits.drop_last(), alive)
    }
}

/// When every server has been probed, those whose events are brought in are exactly the ones that
/// were alive, in the order in which they were found, and the others count as dead. If the servers
/// were in order, so are those that are brought in, and none comes twice.
pub proof fn law_only_alive_servers_are_imported(
    servers: Seq<ServerView>,
    local_relay: Seq<char>,
    visits: Seq<Visit>,
)
    requires
        visits.len() == servers.len(),
    ensures
        ({
            let end = after_visits(fresh_round(servers, local_relay), visits);
            &&& end.left.len() == 0
            &&& imports(end) == end.healthy
            &&& end.healthy == keys_where(servers, visits, true)
            &&& end.dead == keys_where(servers, visits, false)
            &&& end.healthy.len() + end.dead.len() == servers.len()
            &&& ascending(pubkeys_of(servers)) ==> ascending(end.healthy)
        }),
{
    lemma_after_visits(servers, local_relay, visits);
    let end = after_visits(fresh_round(servers, local_relay), visits);
    law_every_alive_server_is_imported(end);
    assert(end.healthy.skip(0) =~= end.healthy);
    if ascending(pubkeys_of(servers)) {
        lemma_keys_in_order(servers, visits, true);
    }
}

/// The servers whose events are brought in from here on, one after the other.
pub open spec fn imports(round: RoundView) -> Seq<Seq<char>>
    decreases round.healthy.len() - round.imported,
{
    if round.allows(EventView::ImportEnded) {
        seq![round.healthy[round.imported as int]] + imports(round.after(EventView::ImportEnded))
    } else {
        seq![]
    }
}

/// Once every server has been probed, the events of each that is alive are brought in once, in
/// order, whatever comes of it for any of them.
pub proof fn law_every_alive_server_is_imported(round: RoundView)
    requires
        round.left.len() == 0,
        round.imported <= round.healthy.len(),
    ensures
        imports(round) == round.healthy.skip(round.imported as int),
    decreases round.healthy.len() - round.imported,
{
    if round.imported < round.healthy.len() {
        law_every_alive_server_is_imported(round.after(EventView::ImportEnded));
        assert(imports(round) =~= round.healthy.skip(round.imported as int));
    } else {
        assert(imports(round) =~= round.healthy.skip(round.imported as int));
    }
}

/// The public keys of servers.
pub open spec fn pubkeys_of(servers: Seq<ServerView>) -> Seq<Seq<char>> {
    Seq::new(servers.len(), |i: int| servers[i].pubkey)
}

proof fn lemma_after_visits(servers: Seq<ServerView>, local_relay: Seq<char>, visits: Seq<Visit>)
    requires
        visits.len() <= servers.len(),
    ensures
        ({
            let end = after_visits(fresh_round(servers, local_relay), visits);
            &&& end.left == servers.skip(visits.len() as int)
            &&& end.stage is Fetch
            &&& end.imported == 0
            &&& end.local_relay == local_relay
            &&& end.healthy == keys_where(servers, visits, true)
            &&& end.dead == keys_where(servers, visits, false)
            &&& end.healthy.len() + end.dead.len() == visits.len()
        }),
    decreases visits.len(),
{
    if visits.len() == 0 {
        assert(servers.skip(0) =~= servers);
    } else {
        lemma_after_visits(servers, local_relay, visits.drop_last());
        let n = visits.len() - 1;
        assert(servers.skip(n).skip(1) =~= servers.skip(n + 1));
        assert(servers.skip(n)[0] == servers[n]);
    }
}

/// Whether `key` is the public key of one of the first `n` servers.
spec fn is_among(servers: Seq<ServerView>, n: int, key: Seq<char>) -> bool {
    exists|i: int| 0 <= i < n && (#[trigger] servers[i]).pubkey == key
}

proof fn lemma_keys_in_order(servers: Seq<ServerView>, visits: Seq<Visit>, alive: bool)
    requires
        visits.len() <= servers.len(),
        ascending(pubkeys_of(servers)),
    ensures
        ascending(keys_where(servers, visits, alive)),
        forall|k: int|
            0 <= k < keys_where(servers, visits, alive).len() ==> is_among(
                servers,
                visits.len() as int,
                #[trigger] keys_where(servers, visits, alive)[k],
            ),
    decreases visits.len(),
{
    if visits.len() > 0 {
        let front = visits.drop_last();
        let n = visits.len() - 1;
        lemma_keys_in_order(servers, front, alive);
        let earlier = keys_where(servers, front, alive);
        let keys = keys_where(servers, visits, alive);
        let all = pubkeys_of(servers);
        assert forall|k: int| 0 <= k < keys.len() implies is_among(
            servers,
            visits.len() as int,
            #[trigger] keys[k],
        ) by {
            if k < earlier.len() {
                assert(earlier[k] == keys[k]);
                let i = choose|i: int| 0 <= i < n && (#[trigger] servers[i]).pubkey == keys[k];
                assert(servers[i].pubkey == keys[k]);
            } else {
                assert(servers[n].pubkey == keys[k]);
            }
        }
        assert forall|i: int, j: int| 0 <= i < j < keys.len() implies text_lt(
            #[trigger] keys[i],
            #[trigger] keys[j],
        ) by {
            assert(earlier[i] == keys[i]);
            if j < earlier.len() {
                assert(earlier[j] == keys[j]);
            } else {
                let p = choose|p: int| 0 <= p < n && (#[trigger] servers[p]).pubkey == keys[i];
                assert(all[p] == keys[i]);
                assert(all[n] == keys[j]);
            }
        }
    }
}

/// A server whose relay list names no relay is tried through the local relay first and then through
/// those that had its announcement; one whose list names relays is tried through these alone.
pub proof fn law_fallback_relays(round: RoundView, relays: Seq<Seq<char>>)
    requires
        round.allows(EventView::RelayListFetched { relays }),
    ensures
        ({
            let next = round.after(EventView::RelayListFetched { relays });
            &&& relays.len() > 0 ==> next.stage == StageView::Probe(relays)
            &&& relays.len() == 0 ==> {
                &&& next.stage matches StageView::Probe(targets)
                &&& targets.len() == round.left[0].relays.len() + 1
                &&& targets[0] == round.local_relay
                &&& forall|i: int|
                    0 <= i < round.left[0].relays.len() ==> #[trigger] targets[i + 1]
                        == round.left[0].relays[i]
            }
        }),
{
}

/// A server is tried through all relays of its list, and through no others; if the list names none,
/// through the local relay and then through all that had its announcement. Nothing else changes when
/// the list has come.
pub proof fn law_list_is_tried_as_a_whole(round: RoundView, relays: Seq<Seq<char>>)
    ensures
        ({
            let next = round.after(EventView::RelayListFetched { relays });
            &&& relays.len() > 0 ==> next.stage == StageView::Probe(relays)
            &&& relays.len() == 0 ==> next.stage == StageView::Probe(
                seq![round.local_relay] + round.left[0].relays,
            )
            &&& next.left == round.left
            &&& next.healthy == round.healthy
            &&& next.dead == round.dead
            &&& next.imported == round.imported
            &&& next.local_relay == round.local_relay
        }),
{
}

/// A server that is alive goes to those whose events are brought in, another to the dead, and the
/// round goes on with the next server.
pub proof fn law_probe_decides_where_a_server_goes(round: RoundView, alive: bool)
    requires
        round.left.len() > 0,
    ensures
        ({
            let next = round.after(EventView::Probed { alive });
            let pubkey = round.left[0].pubkey;
            &&& next.left == round.left.skip(1)
            &&& next.stage is Fetch
            &&& alive ==> next.healthy == round.healthy.push(pubkey) && next.dead == round.dead
            &&& !alive ==> next.healthy == round.healthy && next.dead == round.dead.push(pubkey)
            &&& next.imported == round.imported
            &&& next.local_relay == round.local_relay
        }),
{
}

/// When the events of a server were brought in, or that was given up, the round goes on with the
/// next one that is alive.
pub proof fn law_import_goes_on_with_the_next(round: RoundView)
    ensures
        ({
            let next = round.after(EventView::ImportEnded);
            &&& next.imported == round.imported + 1
            &&& next.left == round.left
            &&& next.stage == round.stage
            &&& next.healthy == round.healthy
            &&& next.dead == round.dead
            &&& next.local_relay == round.local_relay
        }),
{
}

/// A round starts with all servers that were found, none of them probed.
pub proof fn law_round_starts_with_the_servers_that_were_found(
    servers: Seq<DiscoveredServer>,
    local_relay: Seq<char>,
    i: int,
)
    ensures
        ({
            let round = fresh_round(servers_view(servers), local_relay);
            &&& round.left.len() == servers.len()
            &&& 0 <= i < servers.len() ==> round.left[i].pubkey == servers[i].pubkey@
                && round.left[i].relays == texts(servers[i].relays@)
            &&& round.stage is Fetch
            &&& round.healthy.len() == 0
            &&& round.dead.len() == 0
            &&& round.imported == 0
            &&& round.local_relay == local_relay
        }),
{
}

/// A round takes what can come of its next action: while servers are left, what their lists and
/// probes bring, and then the end of each import.
pub proof fn law_round_takes_what_its_action_brings(
    round: RoundView,
    relays: Seq<Seq<char>>,
    alive: bool,
)
    ensures
        round.allows(EventView::RelayListFetched { relays }) <==> round.left.len() > 0
            && round.stage is Fetch,
        round.allows(EventView::Probed { alive }) <==> round.left.len() > 0 && round.stage is Probe,
        round.allows(EventView::ImportEnded) <==> round.left.len() == 0 && round.imported
            < round.healthy.len(),
{
}

/// The model of an event keeps what it holds.
pub proof fn law_model_of_a_crawler_event(event: Event)
    ensures
        match event {
            Event::RelayListFetched { relays } => event@ == (EventView::RelayListFetched {
                relays: texts(relays@),
            }),
            Event::Probed { alive } => event@ == (EventView::Probed { alive }),
            Event::ImportEnded => event@ is ImportEnded,
        },
{
}

/// The settings of a run are those that the options ask for, and the source relays are the local
/// relay and then the others.
pub proof fn law_crawler_runs_as_asked(config: Config, options: OptionsView)
    requires
        config.follows(options),
    ensures
        config.strfry_bin@ == options.strfry_bin,
        config.local_relay@ == options.local_relay,
        config.source_relays@.len() == 12,
        config.source_relays@[0]@ == options.local_relay,
        config.source_relays@[1]@ == "wss://relay.damus.io"@,
        config.source_relays@[2]@ == "wss://relay.primal.net"@,
        config.source_relays@[3]@ == "wss://relay.nostr.net"@,
        config.source_relays@[4]@ == "wss://nos.lol"@,
        config.source_relays@[5]@ == "wss://nostr.bitcoiner.social"@,
        config.source_relays@[6]@ == "wss://nostr.oxtr.dev"@,
        config.source_relays@[7]@ == "wss://offchain.pub"@,
        config.source_relays@[8]@ == "wss://nostr.mom"@,
        config.source_relays@[9]@ == "wss://nostr.wine"@,
        config.source_relays@[10]@ == "wss://relay.ditto.pub"@,
        config.source_relays@[11]@ == "wss://purplepag.es"@,
        config.timeout_seconds == options.timeout_seconds,
        config.rounds == options.rounds,
        config.interval_seconds == options.interval_seconds,
        config.dry_run == options.dry_run,
{
    let sources = texts(config.source_relays@);
    assert(sources.len() == 12);
    assert forall|i: int| 0 <= i < 12 implies (#[trigger] config.source_relays@[i])@ == (seq![
        options.local_relay,
    ] + fallback_relays_text())[i] by {
        assert(sources[i] == config.source_relays@[i]@);
    }
}

} // verus!
