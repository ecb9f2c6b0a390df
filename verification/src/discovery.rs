//! Finding out which servers announce themselves, and on which relays.

use vstd::prelude::*;
use crate::relay_list::Query;
use crate::sorted::{ascending, TextMap, TextSet};
use crate::strfry::SERVER_ANNOUNCEMENT_KIND;
use crate::text::{law_text_order_is_strict, texts};

verus! {

/// The query for server announcements by anyone.
pub fn announcement_query(timeout_seconds: u64) -> (res: Query)
    ensures
        res.author is None,
        res.kinds@ == seq![SERVER_ANNOUNCEMENT_KIND],
        res.limit == 500,
        res.timeout_seconds == timeout_seconds,
{
    let kinds: Vec<u16> = vec![SERVER_ANNOUNCEMENT_KIND];
    assert(kinds@ =~= seq![SERVER_ANNOUNCEMENT_KIND]);
    Query { author: None, kinds, limit: 500, timeout_seconds }
}

/// A server that was found, and the relays that had its announcement.
#[derive(Debug)]
pub struct DiscoveredServer {
    pub pubkey: String,
    pub relays: Vec<String>,
}

/// The servers that were found while the source relays are asked one after the other.
pub struct Discovery {
    sources: Vec<String>,
    position: usize,
    found: TextMap<TextSet>,
}

/// The model of `Discovery`.
pub struct DiscoveryView {
    /// The source relays that have not been asked yet.
    pub waiting: Seq<Seq<char>>,
    /// The servers that were found, each with the relays that had its announcement.
    pub found: Map<Seq<char>, Set<Seq<char>>>,
}

/// The model of a map from text to sets of texts.
pub open spec fn sets_view(found: Map<Seq<char>, TextSet>) -> Map<Seq<char>, Set<Seq<char>>> {
    Map::new(|key: Seq<char>| found.contains_key(key), |key: Seq<char>| found[key]@)
}

/// What is found when the relay `relay` has announcements of the servers `pubkeys` too.
pub open spec fn with_relay(
    found: Map<Seq<char>, Set<Seq<char>>>,
    pubkeys: Set<Seq<char>>,
    relay: Seq<char>,
) -> Map<Seq<char>, Set<Seq<char>>> {
    Map::new(
        |pubkey: Seq<char>| found.contains_key(pubkey) || pubkeys.contains(pubkey),
        |pubkey: Seq<char>|
            if !pubkeys.contains(pubkey) {
                found[pubkey]
            } else if found.contains_key(pubkey) {
                found[pubkey].insert(relay)
            } else {
                Set::empty().insert(relay)
            },
    )
}

impl View for Discovery {
    type V = DiscoveryView;

    closed spec fn view(&self) -> DiscoveryView {
        DiscoveryView {
            waiting: texts(self.sources@).skip(self.position as int),
            found: sets_view(self.found@),
        }
    }
}

impl DiscoveryView {
    /// After the next source relay has sent announcements of these servers, or could not be asked.
    pub open spec fn after(self, pubkeys: Option<Set<Seq<char>>>) -> DiscoveryView {
        DiscoveryView {
            waiting: self.waiting.skip(1),
            found: match pubkeys {
                Some(pubkeys) => with_relay(self.found, pubkeys, self.waiting[0]),
                None => self.found,
            },
        }
    }
}

/// Whether every set in a map is kept in order.
pub open spec fn sets_wf(found: Map<Seq<char>, TextSet>) -> bool {
    forall|key: Seq<char>| #[trigger] found.contains_key(key) ==> found[key].wf()
}

impl Discovery {
    /// The position is within the list of source relays, and what was found is kept in order.
    pub closed spec fn wf(&self) -> bool {
        &&& self.position <= self.sources@.len()
        &&& self.found.wf()
        &&& sets_wf(self.found@)
    }

    /// Starts to ask `sources` for announcements.
    pub fn start(sources: Vec<String>) -> (res: Self)
        ensures
            res.wf(),
            res@.waiting == texts(sources@),
            res@.found == Map::<Seq<char>, Set<Seq<char>>>::empty(),
    {
        let res = Discovery { sources, position: 0, found: TextMap::new() };
        assert(res@.waiting =~= texts(sources@));
        assert(res@.found =~= Map::<Seq<char>, Set<Seq<char>>>::empty());
        res
    }

    /// The source relay to ask next, if one is left.
    pub fn next_source(&self) -> (res: Option<&String>)
        requires
            self.wf(),
        ensures
            match res {
                Some(source) => self@.waiting.len() > 0 && source@ == self@.waiting[0],
                None => self@.waiting.len() == 0,
            },
    {
        if self.position < self.sources.len() {
            Some(&self.sources[self.position])
        } else {
            None
        }
    }

    /// Takes note of the servers whose announcements the next source relay has sent; nothing if it
    /// could not be asked.
    pub fn record(&mut self, pubkeys: Option<TextSet>)
        requires
            old(self).wf(),
            old(self)@.waiting.len() > 0,
            pubkeys matches Some(set) ==> set.wf(),
        ensures
            final(self).wf(),
            final(self)@ == old(self)@.after(
                match pubkeys {
                    Some(set) => Some(set@),
                    None => None,
                },
            ),
    {
        let ghost before = self@;
        assert(self.position < self.sources.len());
        if let Some(set) = pubkeys {
            let relay = self.sources[self.position].clone();
            assert(relay@ == before.waiting[0]);
            add_relay(&mut self.found, &set, &relay);
        }
        self.position += 1;
        assert(self@.waiting =~= before.waiting.skip(1));
    }

    /// The servers that were found, in the order of their public keys, once all source relays have
    /// been asked. The relays of each are in order too.
    pub fn finish(self) -> (res: Vec<DiscoveredServer>)
        requires
            self.wf(),
            self@.waiting.len() == 0,
        ensures
            ascending(server_pubkeys(res@)),
            server_pubkeys(res@).to_set() == self@.found.dom(),
            forall|i: int|
                #![trigger res@[i]]
                0 <= i < res@.len() ==> ascending(texts(res@[i].relays@)) && texts(
                    res@[i].relays@,
                ).to_set() == self@.found[res@[i].pubkey@],
    {
        let mut servers: Vec<DiscoveredServer> = Vec::new();
        let mut i: usize = 0;
        while i < self.found.len()
            invariant
                self.wf(),
                i <= self.found.keys().len(),
                server_pubkeys(servers@) == self.found.keys().take(i as int),
                forall|j: int|
                    #![trigger servers@[j]]
                    0 <= j < servers@.len() ==> ascending(texts(servers@[j].relays@)) && texts(
                        servers@[j].relays@,
                    ).to_set() == self@.found[servers@[j].pubkey@],
            decreases self.found.keys().len() - i,
        {
            let ghost before = servers@;
            let entry = self.found.entry_at(i);
            let server = DiscoveredServer { pubkey: entry.0.clone(), relays: entry.1.to_vec() };
            assert(self@.found[server.pubkey@] == entry.1@);
            servers.push(server);
            assert(server_pubkeys(servers@) =~= server_pubkeys(before).push(server.pubkey@));
            assert(server_pubkeys(servers@) =~= self.found.keys().take(i + 1));
            i += 1;
        }
        assert(server_pubkeys(servers@) =~= self.found.keys());
        assert(self.found.keys().to_set() =~= self@.found.dom());
        servers
    }
}

/// The public keys of a list of servers.
pub open spec fn server_pubkeys(servers: Seq<DiscoveredServer>) -> Seq<Seq<char>> {
    Seq::new(servers.len(), |i: int| servers[i].pubkey@)
}

/// Notes for each of `pubkeys` that `relay` has its announcement.
fn add_relay(found: &mut TextMap<TextSet>, pubkeys: &TextSet, relay: &String)
    requires
        old(found).wf(),
        sets_wf(old(found)@),
        pubkeys.wf(),
    ensures
        final(found).wf(),
        sets_wf(final(found)@),
        sets_view(final(found)@) == with_relay(sets_view(old(found)@), pubkeys@, relay@),
{
    let ghost start = sets_view(found@);
    let mut i: usize = 0;
    let ghost all = pubkeys.items();
    assert(with_relay(start, all.take(0).to_set(), relay@) =~= start);
    while i < pubkeys.len()
        invariant
            found.wf(),
            sets_wf(found@),
            pubkeys.wf(),
            all == pubkeys.items(),
            i <= all.len(),
            sets_view(found@) == with_relay(start, all.take(i as int).to_set(), relay@),
        decreases all.len() - i,
    {
        let ghost before = found@;
        let pubkey = pubkeys.item_at(i);
        let mut relays = match found.remove(pubkey.as_str()) {
            Some(relays) => relays,
            None => TextSet::new(),
        };
        let ghost old_relays = relays@;
        let _ = relays.insert(relay.clone());
        found.set(pubkey.clone(), relays);
        proof {
            let done = all.take(i as int);
            let more = all.take(i + 1);
            assert(more =~= done.push(pubkey@));
            assert(found@ =~= before.insert(pubkey@, relays));
            assert(!done.to_set().contains(pubkey@)) by {
                if done.contains(pubkey@) {
                    let j = choose|j: int| 0 <= j < done.len() && done[j] == pubkey@;
                    assert(all[j] == all[i as int]);
                    law_text_order_is_strict(pubkey@, pubkey@);
                }
            }
            assert forall|key: Seq<char>| more.to_set().contains(key) == (done.to_set().contains(
                key,
            ) || key == pubkey@) by {
                if more.contains(key) {
                    let j = choose|j: int| 0 <= j < more.len() && more[j] == key;
                    if j < i {
                        assert(done[j] == key);
                    }
                }
                if done.contains(key) {
                    let j = choose|j: int| 0 <= j < done.len() && done[j] == key;
                    assert(more[j] == key);
                }
                assert(more[i as int] == pubkey@);
            }
            let target = with_relay(start, more.to_set(), relay@);
            let prior = with_relay(start, done.to_set(), relay@);
            assert(before.contains_key(pubkey@) == prior.contains_key(pubkey@)) by {
                assert(sets_view(before).contains_key(pubkey@) == before.contains_key(pubkey@));
            }
            assert forall|key: Seq<char>| #[trigger] target.contains_key(key) implies sets_view(
                found@,
            )[key] == target[key] by {
                if key == pubkey@ {
                    if before.contains_key(key) {
                        assert(sets_view(before)[key] == before[key]@);
                        assert(prior[key] == start[key]);
                    }
                } else {
                    assert(prior.contains_key(key));
                    assert(sets_view(before).contains_key(key));
                    assert(sets_view(before)[key] == before[key]@);
                }
            }
            assert forall|key: Seq<char>| #[trigger] target.contains_key(key) == sets_view(
                found@,
            ).contains_key(key) by {
                assert(sets_view(before).contains_key(key) == prior.contains_key(key));
            }
            assert(sets_view(found@).dom() =~= target.dom()) by {
                assert forall|key: Seq<char>| target.dom().contains(key) == #[trigger] sets_view(
                    found@,
                ).dom().contains(key) by {
                    assert(target.contains_key(key) == sets_view(found@).contains_key(key));
                }
            }
            assert forall|key: Seq<char>| #[trigger] target.dom().contains(key) implies sets_view(
                found@,
            )[key] == target[key] by {
                assert(target.contains_key(key));
            }
            assert(sets_view(found@) =~= target);
        }
        i += 1;
    }
    assert(all.take(i as int) =~= all);
}

/// What is found after the source relays have sent `sent`, one after the other.
pub open spec fn after_all(
    discovery: DiscoveryView,
    sent: Seq<Option<Set<Seq<char>>>>,
) -> DiscoveryView
    decreases sent.len(),
{
    if sent.len() == 0 {
        discovery
    } else {
        after_all(discovery, sent.drop_last()).after(sent.last())
    }
}

/// Whether the source relay at `i` has sent an announcement of `pubkey`.
pub open spec fn has_sent(sent: Seq<Option<Set<Seq<char>>>>, i: int, pubkey: Seq<char>) -> bool {
    0 <= i < sent.len() && (sent[i] matches Some(pubkeys) && pubkeys.contains(pubkey))
}

/// A server is found exactly when a source relay has sent its announcement, and it is found with
/// exactly those relays that have.
pub proof fn law_servers_are_found_where_they_were_announced(
    start: DiscoveryView,
    sent: Seq<Option<Set<Seq<char>>>>,
    pubkey: Seq<char>,
    relay: Seq<char>,
)
    requires
        start.found == Map::<Seq<char>, Set<Seq<char>>>::empty(),
        sent.len() <= start.waiting.len(),
    ensures
        ({
            let end = after_all(start, sent);
            &&& end.waiting == start.waiting.skip(sent.len() as int)
            &&& end.found.contains_key(pubkey) <==> exists|i: int| #[trigger]
                has_sent(sent, i, pubkey)
            &&& end.found.contains_key(pubkey) ==> (end.found[pubkey].contains(relay)
                <==> exists|i: int| #[trigger]
                has_sent(sent, i, pubkey) && start.waiting[i] == relay)
        }),
    decreases sent.len(),
{
    if sent.len() == 0 {
        assert(start.waiting.skip(0) =~= start.waiting);
    } else {
        let front = sent.drop_last();
        let n = sent.len() - 1;
        law_servers_are_found_where_they_were_announced(start, front, pubkey, relay);
        let prior = after_all(start, front);
        let end = after_all(start, sent);
        assert(prior.waiting[0] == start.waiting[n]);
        assert(end.waiting =~= start.waiting.skip(sent.len() as int));
        assert forall|i: int| i < n implies #[trigger] has_sent(front, i, pubkey) == has_sent(
            sent,
            i,
            pubkey,
        ) by {}
        if exists|i: int| #[trigger] has_sent(front, i, pubkey) {
            let i = choose|i: int| #[trigger] has_sent(front, i, pubkey);
            assert(has_sent(sent, i, pubkey));
        }
        if exists|i: int| #[trigger] has_sent(front, i, pubkey) && start.waiting[i] == relay {
            let i = choose|i: int| #[trigger]
                has_sent(front, i, pubkey) && start.waiting[i] == relay;
            assert(has_sent(sent, i, pubkey));
        }
        if exists|i: int| #[trigger] has_sent(sent, i, pubkey) {
            let i = choose|i: int| #[trigger] has_sent(sent, i, pubkey);
            if i < n {
                assert(has_sent(front, i, pubkey));
            }
        }
        if exists|i: int| #[trigger] has_sent(sent, i, pubkey) && start.waiting[i] == relay {
            let i = choose|i: int| #[trigger] has_sent(sent, i, pubkey) && start.waiting[i] == relay;
            if i < n {
                assert(has_sent(front, i, pubkey));
            }
        }
        assert(has_sent(sent, n, pubkey) == (sent[n] matches Some(pubkeys) && pubkeys.contains(
            pubkey,
        )));
        if !prior.found.contains_key(pubkey) {
            assert forall|i: int| #[trigger] has_sent(sent, i, pubkey) implies i == n by {
                if i < n {
                    assert(has_sent(front, i, pubkey));
                }
            }
        }
    }
}

/// What one source relay has sent adds that relay to the servers that it has announced, and to no
/// others, and takes nothing away. A relay that could not be asked adds nothing.
pub proof fn law_each_relay_adds_its_announcements(
    discovery: DiscoveryView,
    sent: Set<Seq<char>>,
    pubkey: Seq<char>,
    relay: Seq<char>,
)
    ensures
        discovery.after(None).found == discovery.found,
        discovery.after(None).waiting == discovery.waiting.skip(1),
        ({
            let next = discovery.after(Some(sent));
            &&& next.waiting == discovery.waiting.skip(1)
            &&& next.found.contains_key(pubkey) <==> discovery.found.contains_key(pubkey)
                || sent.contains(pubkey)
            &&& next.found.contains_key(pubkey) ==> (next.found[pubkey].contains(relay) <==> {
                ||| discovery.found.contains_key(pubkey) && discovery.found[pubkey].contains(relay)
                ||| sent.contains(pubkey) && relay == discovery.waiting[0]
            })
        }),
{
}

/// The public keys of servers are those of each of them, in order.
pub proof fn law_servers_have_their_pubkeys(servers: Seq<DiscoveredServer>, i: int)
    ensures
        server_pubkeys(servers).len() == servers.len(),
        0 <= i < servers.len() ==> server_pubkeys(servers)[i] == servers[i].pubkey@,
{
}

} // verus!
