//! The relay lists that servers publish: which relays are asked for them, which list counts, and
//! which relays it names.

use vstd::prelude::*;
use crate::outside::{hex_bytes, is_key_text, public_key_bytes};
use crate::sorted::{ascending, TextSet};
use crate::text::{chars_of, same_text, text_between, texts};

verus! {

/// The kind of an event that lists the relays of its author.
pub const RELAY_LIST_KIND: u16 = 10002;

/// What a relay is asked for: events of these kinds, by this author if one is given, and at most
/// so many of them; and for how many seconds its answer is waited for.
#[derive(Debug)]
pub struct Query {
    pub author: Option<Vec<u8>>,
    pub kinds: Vec<u16>,
    pub limit: usize,
    pub timeout_seconds: u64,
}

/// A server is known by a text that is no public key.
#[derive(Debug)]
pub struct InvalidPubkey {
    /// The text.
    pub pubkey: String,
    /// What is wrong with it.
    pub cause: nostr_sdk::key::Error,
}

/// The bytes of the public key of a server.
pub fn server_key(pubkey_hex: &str) -> (res: Result<Vec<u8>, InvalidPubkey>)
    ensures
        match res {
            Ok(key) => is_key_text(pubkey_hex@) && key@ == hex_bytes(pubkey_hex@),
            Err(error) => !is_key_text(pubkey_hex@) && error.pubkey@ == pubkey_hex@,
        },
{
    match public_key_bytes(pubkey_hex) {
        Ok(key) => Ok(key),
        Err(cause) => Err(InvalidPubkey { pubkey: pubkey_hex.to_owned(), cause }),
    }
}

/// The query for the relay list of an author.
pub fn relay_list_query(author: &Vec<u8>, timeout_seconds: u64) -> (res: Query)
    ensures
        res.author matches Some(key) && key@ == author@,
        res.kinds@ == seq![RELAY_LIST_KIND],
        res.limit == 1,
        res.timeout_seconds == timeout_seconds,
{
    let key = author.clone();
    assert(key@ =~= author@);
    let kinds: Vec<u16> = vec![RELAY_LIST_KIND];
    assert(kinds@ =~= seq![RELAY_LIST_KIND]);
    Query { author: Some(key), kinds, limit: 1, timeout_seconds }
}

/// `url` without the slashes at its end.
pub open spec fn normalized(url: Seq<char>) -> Seq<char>
    decreases url.len(),
{
    if url.len() > 0 && url.last() == '/' {
        normalized(url.drop_last())
    } else {
        url
    }
}

/// Removes the slashes at the end of the address of a relay.
pub fn normalize_relay_url(url: &str) -> (res: String)
    ensures
        res@ == normalized(url@),
{
    let chars = chars_of(url);
    let mut end: usize = chars.len();
    assert(chars@.subrange(0, end as int) =~= chars@);
    while end > 0 && chars[end - 1] == '/'
        invariant
            end <= chars@.len(),
            normalized(chars@.subrange(0, end as int)) == normalized(chars@),
        decreases end,
    {
        assert(chars@.subrange(0, end as int).drop_last() =~= chars@.subrange(0, end - 1));
        end -= 1;
    }
    text_between(&chars, 0, end)
}

/// A normalised address is the start of the address it was made of, has no slash at its end, and
/// lacks nothing but slashes.
pub proof fn law_normalized_url_lacks_only_final_slashes(url: Seq<char>)
    ensures
        normalized(url).len() <= url.len(),
        normalized(url) == url.take(normalized(url).len() as int),
        normalized(url).len() > 0 ==> normalized(url).last() != '/',
        forall|i: int| normalized(url).len() <= i < url.len() ==> url[i] == '/',
    decreases url.len(),
{
    if url.len() > 0 && url.last() == '/' {
        let shorter = url.drop_last();
        law_normalized_url_lacks_only_final_slashes(shorter);
        let n = normalized(shorter).len() as int;
        assert(url.take(n) =~= shorter.take(n));
        assert forall|i: int| n <= i < url.len() implies url[i] == '/' by {
            if i < shorter.len() {
                assert(shorter[i] == '/');
            }
        }
    } else {
        assert(url.take(url.len() as int) =~= url);
    }
}

/// Normalising an address again changes nothing, and a slash more at its end makes no difference.
pub proof fn law_normalizing_is_stable(url: Seq<char>)
    ensures
        normalized(normalized(url)) == normalized(url),
        normalized(url.push('/')) == normalized(url),
{
    law_normalized_url_lacks_only_final_slashes(url);
    assert(url.push('/').drop_last() =~= url);
}

/// An event that lists relays: when it was made, and its tags, each a list of texts.
#[derive(Debug)]
pub struct RelayListEvent {
    pub created_at: u64,
    pub tags: Vec<Vec<String>>,
}

/// The model of `RelayListEvent`.
pub struct RelayListEventView {
    pub created_at: u64,
    pub tags: Seq<Seq<Seq<char>>>,
}

impl View for RelayListEvent {
    type V = RelayListEventView;

    open spec fn view(&self) -> RelayListEventView {
        RelayListEventView {
            created_at: self.created_at,
            tags: Seq::new(self.tags@.len(), |i: int| texts(self.tags@[i]@)),
        }
    }
}

/// Whether a tag names the relay with the normalised address `relay`: it is an `r` tag with an
/// address that is not empty when it is normalised.
pub open spec fn names_relay(tag: Seq<Seq<char>>, relay: Seq<char>) -> bool {
    &&& tag.len() >= 2
    &&& tag[0] == "r"@
    &&& normalized(tag[1]) == relay
    &&& relay.len() > 0
}

/// The relays that an event names, by their normalised addresses.
pub open spec fn relays_named(event: RelayListEventView) -> Set<Seq<char>> {
    Set::new(
        |relay: Seq<char>|
            exists|i: int| 0 <= i < event.tags.len() && names_relay(#[trigger] event.tags[i], relay),
    )
}

/// The relays that `event` names, in the order of their normalised addresses.
pub fn extract_relays(event: &RelayListEvent) -> (res: Vec<String>)
    ensures
        ascending(texts(res@)),
        texts(res@).to_set() == relays_named(event@),
{
    let mut relays = TextSet::new();
    let mut i: usize = 0;
    let ghost tags = event@.tags;
    while i < event.tags.len()
        invariant
            relays.wf(),
            i <= event.tags@.len(),
            tags == event@.tags,
            tags.len() == event.tags@.len(),
            forall|relay: Seq<char>| #[trigger]
                relays@.contains(relay) <==> exists|j: int|
                    0 <= j < i && names_relay(#[trigger] tags[j], relay),
        decreases event.tags@.len() - i,
    {
        let ghost before = relays@;
        let tag = &event.tags[i];
        assert(tags[i as int] == texts(tag@));
        if tag.len() >= 2 && same_text(tag[0].as_str(), "r") {
            let address = normalize_relay_url(tag[1].as_str());
            if !address.as_str().is_empty() {
                assert(names_relay(tags[i as int], address@));
                let _ = relays.insert(address);
            }
        }
        assert forall|relay: Seq<char>| #[trigger] relays@.contains(relay) <==> exists|j: int|
            0 <= j < i + 1 && names_relay(#[trigger] tags[j], relay) by {
            if before.contains(relay) {
                let j = choose|j: int| 0 <= j < i && names_relay(#[trigger] tags[j], relay);
                assert(names_relay(tags[j], relay));
            }
            if names_relay(tags[i as int], relay) {
                assert(relays@.contains(relay));
            }
        }
        i += 1;
    }
    assert(relays@ =~= relays_named(event@));
    relays.to_vec()
}

/// Every relay that a list names has an address that is not empty and has no slash at its end.
pub proof fn law_named_relays_are_usable(event: RelayListEventView, relay: Seq<char>)
    requires
        relays_named(event).contains(relay),
    ensures
        relay.len() > 0,
        relay.last() != '/',
        normalized(relay) == relay,
{
    let i = choose|i: int|
        0 <= i < event.tags.len() && names_relay(#[trigger] event.tags[i], relay);
    assert(names_relay(event.tags[i], relay));
    law_normalized_url_lacks_only_final_slashes(event.tags[i][1]);
    law_normalizing_is_stable(event.tags[i][1]);
}

/// Whether the event at `i` is the last of those that were made at the latest time.
pub open spec fn latest_at(events: Seq<RelayListEvent>, i: int) -> bool {
    &&& 0 <= i < events.len()
    &&& forall|j: int| 0 <= j < i ==> events[j].created_at <= events[i].created_at
    &&& forall|j: int| i < j < events.len() ==> events[j].created_at < events[i].created_at
}

/// The event that was made last among those that one relay has sent; of several made at the same
/// time, the one that was sent last.
pub fn latest_event(events: Vec<RelayListEvent>) -> (res: Option<RelayListEvent>)
    ensures
        match res {
            Some(event) => exists|i: int| #[trigger] latest_at(events@, i) && events@[i] == event,
            None => events@.len() == 0,
        },
{
    let mut events = events;
    let ghost all = events@;
    if events.len() == 0 {
        return None;
    }
    let mut best: usize = 0;
    let mut i: usize = 1;
    while i < events.len()
        invariant
            events@ == all,
            best < i <= all.len(),
            forall|j: int| 0 <= j < best ==> all[j].created_at <= all[best as int].created_at,
            forall|j: int| best < j < i ==> all[j].created_at < all[best as int].created_at,
        decreases all.len() - i,
    {
        if events[i].created_at >= events[best].created_at {
            best = i;
        }
        i += 1;
    }
    assert(latest_at(all, best as int));
    Some(events.swap_remove(best))
}

/// What is known of the relay list of one server while the source relays are asked for it one
/// after the other.
pub struct RelayListFetch {
    author: Vec<u8>,
    timeout_seconds: u64,
    sources: Vec<String>,
    position: usize,
    latest: Option<RelayListEvent>,
    answered: Vec<String>,
}

/// The model of `RelayListFetch`.
pub struct RelayListFetchView {
    /// The public key of the server.
    pub author: Seq<u8>,
    /// For how many seconds the answer of a source relay is waited for.
    pub timeout_seconds: u64,
    /// The source relays that have not been asked yet.
    pub waiting: Seq<Seq<char>>,
    /// The newest list so far.
    pub latest: Option<RelayListEventView>,
    /// The source relays that had a list.
    pub answered: Seq<Seq<char>>,
}

impl View for RelayListFetch {
    type V = RelayListFetchView;

    closed spec fn view(&self) -> RelayListFetchView {
        RelayListFetchView {
            author: self.author@,
            timeout_seconds: self.timeout_seconds,
            waiting: texts(self.sources@).skip(self.position as int),
            latest: match self.latest {
                Some(event) => Some(event@),
                None => None,
            },
            answered: texts(self.answered@),
        }
    }
}

/// The newer one of two lists; the first one if they were made at the same time.
pub open spec fn newer(
    current: Option<RelayListEventView>,
    found: Option<RelayListEventView>,
) -> Option<RelayListEventView> {
    match (current, found) {
        (_, None) => current,
        (None, Some(_)) => found,
        (Some(c), Some(f)) => if f.created_at > c.created_at {
            found
        } else {
            current
        },
    }
}

impl RelayListFetchView {
    /// What is known after the next source relay has sent `found`, or nothing.
    pub open spec fn after(self, found: Option<RelayListEventView>) -> Self {
        RelayListFetchView {
            author: self.author,
            timeout_seconds: self.timeout_seconds,
            waiting: self.waiting.skip(1),
            latest: newer(self.latest, found),
            answered: if found is Some {
                self.answered.push(self.waiting[0])
            } else {
                self.answered
            },
        }
    }

    /// The relays that are named by what is known.
    pub open spec fn relays(self) -> Set<Seq<char>> {
        match self.latest {
            Some(event) => relays_named(event),
            None => Set::empty(),
        }
    }
}

/// The relays of a server, and the source relays that had its list.
#[derive(Debug)]
pub struct RelayListResult {
    pub relays: Vec<String>,
    pub source_relays: Vec<String>,
}

impl RelayListFetch {
    /// The position is within the list of source relays.
    pub closed spec fn wf(&self) -> bool {
        self.position <= self.sources@.len()
    }

    /// Starts to ask `sources` for the relay list of a server, each with the same time limit.
    pub fn start(pubkey_hex: &str, sources: Vec<String>, timeout_seconds: u64) -> (res: Result<
        Self,
        InvalidPubkey,
    >)
        ensures
            match res {
                Ok(fetch) => {
                    &&& is_key_text(pubkey_hex@)
                    &&& fetch.wf()
                    &&& fetch@.author == hex_bytes(pubkey_hex@)
                    &&& fetch@.timeout_seconds == timeout_seconds
                    &&& fetch@.waiting == texts(sources@)
                    &&& fetch@.latest is None
                    &&& fetch@.answered == Seq::<Seq<char>>::empty()
                },
                Err(error) => !is_key_text(pubkey_hex@) && error.pubkey@ == pubkey_hex@,
            },
    {
        match server_key(pubkey_hex) {
            Ok(author) => {
                let fetch = RelayListFetch {
                    author,
                    timeout_seconds,
                    sources,
                    position: 0,
                    latest: None,
                    answered: Vec::new(),
                };
                assert(fetch@.waiting =~= texts(sources@));
                assert(fetch@.answered =~= Seq::<Seq<char>>::empty());
                Ok(fetch)
            },
            Err(error) => Err(error),
        }
    }

    /// The source relay to ask next, if one is left.
    pub fn next_source(&self) -> (res: Option<&String>)
        requires
            self.wf(),
        ensures
            match res {
                Some(source) => self@.waiting.len() > 0 && source@ == self@.waiting[0],
                None => self@.waiting.len() == 0,
            },
    {
        if self.position < self.sources.len() {
            Some(&self.sources[self.position])
        } else {
            None
        }
    }

    /// What to ask the source relays for.
    pub fn query(&self) -> (res: Query)
        ensures
            res.author matches Some(key) && key@ == self@.author,
            res.kinds@ == seq![RELAY_LIST_KIND],
            res.limit == 1,
            res.timeout_seconds == self@.timeout_seconds,
    {
        relay_list_query(&self.author, self.timeout_seconds)
    }

    /// Takes note of what the next source relay has sent: its newest list, or nothing if it has
    /// none or could not be asked.
    pub fn record(&mut self, found: Option<RelayListEvent>)
        requires
            old(self).wf(),
            old(self)@.waiting.len() > 0,
        ensures
            final(self).wf(),
            final(self)@ == old(self)@.after(
                match found {
                    Some(event) => Some(event@),
                    None => None,
                },
            ),
    {
        let ghost before = self@;
        assert(self.position < self.sources.len());
        if let Some(event) = found {
            let ghost answered = texts(self.answered@);
            self.answered.push(self.sources[self.position].clone());
            assert(texts(self.answered@) =~= answered.push(before.waiting[0]));
            let replace = match &self.latest {
                Some(current) => event.created_at > current.created_at,
                None => true,
            };
            if replace {
                self.latest = Some(event);
            }
        }
        self.position += 1;
        assert(self@.waiting =~= before.waiting.skip(1));
    }

    /// The outcome, once all source relays have been asked.
    pub fn finish(self) -> (res: RelayListResult)
        requires
            self.wf(),
            self@.waiting.len() == 0,
        ensures
            ascending(texts(res.relays@)),
            texts(res.relays@).to_set() == self@.relays(),
            texts(res.source_relays@) == self@.answered,
    {
        let relays = match &self.latest {
            Some(event) => extract_relays(event),
            None => {
                let none: Vec<String> = Vec::new();
                assert(texts(none@).to_set() =~= Set::<Seq<char>>::empty());
                none
            },
        };
        RelayListResult { relays, source_relays: self.answered }
    }
}

/// What is known after the source relays have sent `found`, one after the other.
pub open spec fn after_all(
    fetch: RelayListFetchView,
    found: Seq<Option<RelayListEventView>>,
) -> RelayListFetchView
    decreases found.len(),
{
    if found.len() == 0 {
        fetch
    } else {
        after_all(fetch, found.drop_last()).after(found.last())
    }
}

/// Whether the list at `i` is the first of the newest ones among `found`.
pub open spec fn newest_at(found: Seq<Option<RelayListEventView>>, i: int) -> bool {
    &&& 0 <= i < found.len()
    &&& found[i] is Some
    &&& forall|j: int|
        0 <= j < i && found[j] is Some ==> (#[trigger] found[j])->0.created_at
            < found[i]->0.created_at
    &&& forall|j: int|
        i < j < found.len() && found[j] is Some ==> (#[trigger] found[j])->0.created_at
            <= found[i]->0.created_at
}

/// Of the lists that the source relays have sent, the newest one counts, and of several made at
/// the same time the one from the relay that was asked first. None counts only if none was sent.
pub proof fn law_newest_list_counts(
    fetch: RelayListFetchView,
    found: Seq<Option<RelayListEventView>>,
)
    requires
        fetch.latest is None,
        found.len() <= fetch.waiting.len(),
    ensures
        match after_all(fetch, found).latest {
            Some(event) => exists|i: int| #[trigger]
                newest_at(found, i) && found[i] == Some(event),
            None => forall|i: int| 0 <= i < found.len() ==> found[i] is None,
        },
    decreases found.len(),
{
    if found.len() > 0 {
        let front = found.drop_last();
        law_newest_list_counts(fetch, front);
        let n = found.len() - 1;
        match after_all(fetch, front).latest {
            Some(event) => {
                let i = choose|i: int| #[trigger] newest_at(front, i) && front[i] == Some(event);
                assert(newest_at(front, i));
                assert forall|j: int| 0 <= j < n implies front[j] == found[j] by {}
                if found[n] is Some && found[n]->0.created_at > event.created_at {
                    assert forall|j: int| 0 <= j < n && found[j] is Some implies (
                    #[trigger] found[j])->0.created_at < found[n]->0.created_at by {
                        assert(front[j] == found[j]);
                    }
                    assert(newest_at(found, n));
                } else {
                    assert forall|j: int| 0 <= j < i && found[j] is Some implies (
                    #[trigger] found[j])->0.created_at < found[i]->0.created_at by {
                        assert(front[j] == found[j]);
                    }
                    assert forall|j: int|
                        i < j < found.len() && found[j] is Some implies (
                    #[trigger] found[j])->0.created_at <= found[i]->0.created_at by {
                        if j < n {
                            assert(front[j] == found[j]);
                        }
                    }
                    assert(newest_at(found, i));
                }
            },
            None => {
                assert forall|j: int| 0 <= j < n implies found[j] is None by {
                    assert(front[j] is None);
                }
                if found[n] is Some {
                    assert(newest_at(found, n));
                }
            },
        }
    }
}

/// The source relays that had a list, in the order in which they were asked, where `found` says
/// what each of them has sent.
pub open spec fn sources_with_list(
    sources: Seq<Seq<char>>,
    found: Seq<Option<RelayListEventView>>,
) -> Seq<Seq<char>>
    decreases found.len(),
{
    if found.len() == 0 {
        seq![]
    } else if found.last() is Some {
        sources_with_list(sources, found.drop_last()).push(sources[found.len() - 1])
    } else {
        sources_with_list(sources, found.drop_last())
    }
}

/// Every source relay is asked once, in order: after as many answers as there are source relays
/// none is left, and those that count as having answered are the ones that had a list, in order. All
/// are asked for the same author and with the same time limit.
pub proof fn law_every_source_is_asked(
    fetch: RelayListFetchView,
    found: Seq<Option<RelayListEventView>>,
)
    requires
        fetch.answered.len() == 0,
        found.len() <= fetch.waiting.len(),
    ensures
        after_all(fetch, found).waiting == fetch.waiting.skip(found.len() as int),
        after_all(fetch, found).author == fetch.author,
        after_all(fetch, found).timeout_seconds == fetch.timeout_seconds,
        after_all(fetch, found).answered == sources_with_list(fetch.waiting, found),
        forall|source: Seq<char>| #[trigger]
            after_all(fetch, found).answered.contains(source) <==> exists|i: int|
                0 <= i < found.len() && (#[trigger] found[i]) is Some && fetch.waiting[i] == source,
    decreases found.len(),
{
    if found.len() == 0 {
        assert(fetch.waiting.skip(0) =~= fetch.waiting);
    } else {
        let front = found.drop_last();
        let n = found.len() - 1;
        law_every_source_is_asked(fetch, front);
        let prior = after_all(fetch, front);
        let now = after_all(fetch, found);
        assert(prior.waiting[0] == fetch.waiting[n]);
        assert(now.waiting =~= fetch.waiting.skip(found.len() as int));
        assert forall|source: Seq<char>| #[trigger] now.answered.contains(source) <==> exists|i: int|
            0 <= i < found.len() && (#[trigger] found[i]) is Some && fetch.waiting[i] == source by {
            if now.answered.contains(source) {
                let k = choose|k: int| 0 <= k < now.answered.len() && now.answered[k] == source;
                if k < prior.answered.len() {
                    assert(prior.answered[k] == source);
                    assert(prior.answered.contains(source));
                    let i = choose|i: int|
                        0 <= i < front.len() && (#[trigger] front[i]) is Some && fetch.waiting[i]
                            == source;
                    assert(found[i] is Some);
                } else {
                    assert(found[n] is Some);
                }
            }
            if exists|i: int|
                0 <= i < found.len() && (#[trigger] found[i]) is Some && fetch.waiting[i]
                    == source {
                let i = choose|i: int|
                    0 <= i < found.len() && (#[trigger] found[i]) is Some && fetch.waiting[i]
                        == source;
                if i < n {
                    assert(front[i] is Some);
                    assert(prior.answered.contains(source));
                    let k = choose|k: int|
                        0 <= k < prior.answered.len() && prior.answered[k] == source;
                    assert(now.answered[k] == source);
                } else {
                    assert(now.answered.last() == source);
                    assert(now.answered[now.answered.len() - 1] == source);
                }
            }
        }
    }
}

/// A list names exactly the relays whose addresses stand second in its `r` tags, whatever follows
/// them there: each address that is not empty without the slashes at its end, and without them.
pub proof fn law_every_r_tag_names_its_relay(event: RelayListEventView, i: int, relay: Seq<char>)
    ensures
        0 <= i < event.tags.len() && event.tags[i].len() >= 2 && event.tags[i][0] == "r"@
            && normalized(event.tags[i][1]).len() > 0 ==> relays_named(event).contains(
            normalized(event.tags[i][1]),
        ),
        relays_named(event).contains(relay) ==> relay.len() > 0 && exists|j: int|
            0 <= j < event.tags.len() && (#[trigger] event.tags[j]).len() >= 2 && event.tags[j][0]
                == "r"@ && normalized(event.tags[j][1]) == relay,
{
    if 0 <= i < event.tags.len() && event.tags[i].len() >= 2 && event.tags[i][0] == "r"@
        && normalized(event.tags[i][1]).len() > 0 {
        assert(names_relay(event.tags[i], normalized(event.tags[i][1])));
    }
    if relays_named(event).contains(relay) {
        let j = choose|j: int|
            0 <= j < event.tags.len() && names_relay(#[trigger] event.tags[j], relay);
        assert(names_relay(event.tags[j], relay));
    }
}

/// The model of an event that lists relays keeps when it was made and all its tags.
pub proof fn law_model_of_a_relay_list(event: RelayListEvent, i: int, j: int)
    ensures
        event@.created_at == event.created_at,
        event@.tags.len() == event.tags@.len(),
        0 <= i < event.tags@.len() ==> event@.tags[i].len() == event.tags@[i]@.len(),
        0 <= i < event.tags@.len() && 0 <= j < event.tags@[i]@.len() ==> event@.tags[i][j]
            == event.tags@[i]@[j]@,
{
}

/// None of the events of a relay was made after the latest one, and none that was sent after it was
/// made at the same time.
pub proof fn law_latest_event_is_the_newest(events: Seq<RelayListEvent>, i: int, j: int)
    requires
        latest_at(events, i),
        0 <= j < events.len(),
    ensures
        0 <= i < events.len(),
        events[j].created_at <= events[i].created_at,
        i < j ==> events[j].created_at < events[i].created_at,
{
}

/// An answer of a source relay leaves the others to be asked. Without a list it changes nothing
/// else. With a list the relay counts as having answered, and the newer one of the list and the one
/// that was known counts from then on; at the same time, the one that was known.
pub proof fn law_each_answer_is_weighed(
    fetch: RelayListFetchView,
    found: Option<RelayListEventView>,
)
    ensures
        ({
            let next = fetch.after(found);
            &&& next.waiting == fetch.waiting.skip(1)
            &&& next.author == fetch.author
            &&& next.timeout_seconds == fetch.timeout_seconds
            &&& found is None ==> next.latest == fetch.latest && next.answered == fetch.answered
            &&& found is Some ==> next.answered == fetch.answered.push(fetch.waiting[0])
            &&& found is Some && fetch.latest is None ==> next.latest == found
            &&& found is Some && fetch.latest is Some && found->0.created_at
                > fetch.latest->0.created_at ==> next.latest == found
            &&& found is Some && fetch.latest is Some && found->0.created_at
                <= fetch.latest->0.created_at ==> next.latest == fetch.latest
        }),
{
}

/// A server has the relays that the list names that counts, and none without a list.
pub proof fn law_relays_are_those_of_the_list(fetch: RelayListFetchView)
    ensures
        fetch.latest is None ==> fetch.relays() == Set::<Seq<char>>::empty(),
        fetch.latest matches Some(event) ==> fetch.relays() == relays_named(event),
{
}

} // verus!
