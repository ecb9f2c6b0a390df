//! Collecting the events of one server from the source relays, for `strfry` to take in.

use vstd::prelude::*;
use crate::outside::{hex_bytes, is_key_text};
use crate::relay_list::{server_key, InvalidPubkey, Query};
use crate::sorted::TextSet;
use crate::strfry::{import_input, import_text};
use crate::text::texts;

verus! {

/// The kinds of the events that belong to the announcement of a server: the announcement itself,
/// and the lists of its tools, resources, resource templates and prompts.
pub open spec fn crawl_kinds_seq() -> Seq<u16> {
    seq![11316u16, 11317u16, 11318u16, 11319u16, 11320u16]
}

/// The kinds of the events that belong to the announcement of a server.
pub fn crawl_kinds() -> (res: Vec<u16>)
    ensures
        res@ == crawl_kinds_seq(),
{
    let kinds: Vec<u16> = vec![11316, 11317, 11318, 11319, 11320];
    assert(kinds@ =~= crawl_kinds_seq());
    kinds
}

/// An event that a source relay has sent: its identifier, and its text or why it has none.
#[derive(Debug)]
pub struct FetchedEvent {
    pub id: String,
    pub json: Result<String, String>,
}

/// The model of `FetchedEvent`.
pub struct FetchedEventView {
    pub id: Seq<char>,
    pub json: Result<Seq<char>, Seq<char>>,
}

impl View for FetchedEvent {
    type V = FetchedEventView;

    open spec fn view(&self) -> FetchedEventView {
        FetchedEventView {
            id: self.id@,
            json: match self.json {
                Ok(text) => Ok(text@),
                Err(error) => Err(error@),
            },
        }
    }
}

/// The model of a list of events.
pub open spec fn batch_view(batch: Seq<FetchedEvent>) -> Seq<FetchedEventView> {
    Seq::new(batch.len(), |i: int| batch[i]@)
}

/// The events that have been collected: their identifiers, and their texts in the order in which
/// they came.
pub struct Collected {
    pub seen: Set<Seq<char>>,
    pub events: Seq<Seq<char>>,
}

/// What has been collected after one more event. One that came before is passed over; a new one
/// without a text ends the collection.
pub open spec fn with_event(
    collected: Collected,
    event: FetchedEventView,
) -> Result<Collected, Seq<char>> {
    if collected.seen.contains(event.id) {
        Ok(collected)
    } else {
        match event.json {
            Ok(text) => Ok(
                Collected {
                    seen: collected.seen.insert(event.id),
                    events: collected.events.push(text),
                },
            ),
            Err(error) => Err(error),
        }
    }
}

/// What has been collected after the events of a batch, one after the other.
pub open spec fn with_batch(
    collected: Collected,
    batch: Seq<FetchedEventView>,
) -> Result<Collected, Seq<char>>
    decreases batch.len(),
{
    if batch.len() == 0 {
        Ok(collected)
    } else {
        match with_batch(collected, batch.drop_last()) {
            Ok(earlier) => with_event(earlier, batch.last()),
            Err(error) => Err(error),
        }
    }
}

/// The events of one server while the source relays are asked for them one after the other.
pub struct Download {
    author: Vec<u8>,
    timeout_seconds: u64,
    sources: Vec<String>,
    position: usize,
    seen: TextSet,
    events: Vec<String>,
}

/// The model of `Download`.
pub struct DownloadView {
    /// The public key of the server.
    pub author: Seq<u8>,
    /// For how many seconds the answer of a source relay is waited for.
    pub timeout_seconds: u64,
    /// The source relays that have not been asked yet.
    pub waiting: Seq<Seq<char>>,
    /// What has been collected.
    pub collected: Collected,
}

impl View for Download {
    type V = DownloadView;

    closed spec fn view(&self) -> DownloadView {
        DownloadView {
            author: self.author@,
            timeout_seconds: self.timeout_seconds,
            waiting: texts(self.sources@).skip(self.position as int),
            collected: Collected { seen: self.seen@, events: texts(self.events@) },
        }
    }
}

/// What is to be done with the events that were collected.
#[derive(Debug)]
pub enum ImportPlan {
    /// Nothing; there are none.
    Nothing,
    /// Nothing; so many would have been taken in.
    DryRun { count: usize },
    /// To give `strfry` this input, which holds so many events.
    Import { input: String, count: usize },
}

impl Download {
    /// The position is within the list of source relays, and the identifiers are kept in order.
    pub closed spec fn wf(&self) -> bool {
        self.position <= self.sources@.len() && self.seen.wf()
    }

    /// Starts to ask `sources` for the events of a server, each with the same time limit.
    pub fn start(pubkey_hex: &str, sources: Vec<String>, timeout_seconds: u64) -> (res: Result<
        Self,
        InvalidPubkey,
    >)
        ensures
            match res {
                Ok(download) => {
                    &&& is_key_text(pubkey_hex@)
                    &&& download.wf()
                    &&& download@.author == hex_bytes(pubkey_hex@)
                    &&& download@.timeout_seconds == timeout_seconds
                    &&& download@.waiting == texts(sources@)
                    &&& download@.collected.seen == Set::<Seq<char>>::empty()
                    &&& download@.collected.events == Seq::<Seq<char>>::empty()
                },
                Err(error) => !is_key_text(pubkey_hex@) && error.pubkey@ == pubkey_hex@,
            },
    {
        match server_key(pubkey_hex) {
            Ok(author) => {
                let download = Download {
                    author,
                    timeout_seconds,
                    sources,
                    position: 0,
                    seen: TextSet::new(),
                    events: Vec::new(),
                };
                assert(download@.waiting =~= texts(sources@));
                assert(download@.collected.events =~= Seq::<Seq<char>>::empty());
                Ok(download)
            },
            Err(error) => Err(error),
        }
    }

    /// The source relay to ask next, if one is left.
    pub fn next_source(&self) -> (res: Option<&String>)
        requires
            self.wf(),
        ensures
            match res {
                Some(source) => self@.waiting.len() > 0 && source@ == self@.waiting[0],
                None => self@.waiting.len() == 0,
            },
    {
        if self.position < self.sources.len() {
            Some(&self.sources[self.position])
        } else {
            None
        }
    }

    /// What to ask the source relays for: the events by the server that belong to its announcement,
    /// and no others.
    pub fn query(&self) -> (res: Query)
        ensures
            res.author matches Some(key) && key@ == self@.author,
            res.kinds@ == crawl_kinds_seq(),
            res.limit == 500,
            res.timeout_seconds == self@.timeout_seconds,
    {
        let key = self.author.clone();
        assert(key@ =~= self.author@);
        Query {
            author: Some(key),
            kinds: crawl_kinds(),
            limit: 500,
            timeout_seconds: self.timeout_seconds,
        }
    }

    /// Takes note that the next source relay could not be asked.
    pub fn skip(&mut self)
        requires
            old(self).wf(),
            old(self)@.waiting.len() > 0,
        ensures
            final(self).wf(),
            final(self)@ == (DownloadView { waiting: old(self)@.waiting.skip(1), ..old(self)@ }),
    {
        let ghost before = self@;
        assert(self.position < self.sources.len());
        self.position += 1;
        assert(self@.waiting =~= before.waiting.skip(1));
    }

    /// Takes in the events that the next source relay has sent. A new event without a text ends the
    /// download.
    pub fn record(&mut self, batch: Vec<FetchedEvent>) -> (res: Result<(), String>)
        requires
            old(self).wf(),
            old(self)@.waiting.len() > 0,
        ensures
            final(self).wf(),
            match res {
                Ok(_) => {
                    &&& with_batch(old(self)@.collected, batch_view(batch@)) == Ok::<
                        Collected,
                        Seq<char>,
                    >(final(self)@.collected)
                    &&& final(self)@.author == old(self)@.author
                    &&& final(self)@.timeout_seconds == old(self)@.timeout_seconds
                    &&& final(self)@.waiting == old(self)@.waiting.skip(1)
                },
                Err(error) => with_batch(old(self)@.collected, batch_view(batch@)) == Err::<
                    Collected,
                    Seq<char>,
                >(error@),
            },
    {
        let ghost before = self@;
        let ghost whole = batch_view(batch@);
        let ghost sources = self.sources@;
        let ghost position = self.position;
        let mut i: usize = 0;
        while i < batch.len()
            invariant
                i <= batch@.len(),
                whole == batch_view(batch@),
                before == old(self)@,
                self.wf(),
                self.sources@ == sources,
                self.position == position,
                self@.author == before.author,
                self@.timeout_seconds == before.timeout_seconds,
                with_batch(before.collected, whole.take(i as int)) == Ok::<Collected, Seq<char>>(
                    self@.collected,
                ),
            decreases batch@.len() - i,
        {
            let ghost earlier = self@.collected;
            let event = &batch[i];
            proof {
                assert(whole.take(i + 1).drop_last() =~= whole.take(i as int));
                assert(whole.take(i + 1).last() == event@);
            }
            if self.seen.insert(event.id.clone()) {
                match &event.json {
                    Ok(text) => {
                        self.events.push(text.clone());
                        assert(texts(self.events@) =~= earlier.events.push(text@));
                    },
                    Err(error) => {
                        proof {
                            lemma_fault_stays(before.collected, whole, i + 1);
                        }
                        return Err(error.clone());
                    },
                }
            } else {
                assert(self.seen@ =~= earlier.seen);
            }
            i += 1;
        }
        assert(whole.take(i as int) =~= whole);
        assert(before.waiting.len() == sources.len() - position);
        assert(self.position < self.sources.len());
        self.position += 1;
        assert(self@.waiting =~= before.waiting.skip(1));
        Ok(())
    }

    /// What is to be done with what was collected, once all source relays have been asked. In a dry
    /// run nothing is taken in.
    pub fn plan(&self, dry_run: bool) -> (res: ImportPlan)
        requires
            self.wf(),
            self@.waiting.len() == 0,
        ensures
            match res {
                ImportPlan::Nothing => self@.collected.events.len() == 0,
                ImportPlan::DryRun { count } => dry_run && count > 0 && count
                    == self@.collected.events.len(),
                ImportPlan::Import { input, count } => !dry_run && count > 0 && count
                    == self@.collected.events.len() && input@ == import_text(
                    self@.collected.events,
                ),
            },
    {
        let count: usize = self.events.len();
        if count == 0 {
            ImportPlan::Nothing
        } else if dry_run {
            ImportPlan::DryRun { count }
        } else {
            ImportPlan::Import { input: import_input(&self.events), count }
        }
    }
}

proof fn lemma_fault_stays(collected: Collected, batch: Seq<FetchedEventView>, n: int)
    requires
        0 <= n <= batch.len(),
        with_batch(collected, batch.take(n)) is Err,
    ensures
        with_batch(collected, batch) == with_batch(collected, batch.take(n)),
    decreases batch.len() - n,
{
    if n == batch.len() {
        assert(batch.take(n) =~= batch);
    } else {
        assert(batch.take(n + 1).drop_last() =~= batch.take(n));
        lemma_fault_stays(collected, batch, n + 1);
    }
}

/// Whether the event at `i` is the first one with its identifier.
pub open spec fn is_first(events: Seq<FetchedEventView>, i: int) -> bool {
    &&& 0 <= i < events.len()
    &&& forall|j: int| 0 <= j < i ==> events[j].id != events[i].id
}

/// The texts of the events that are the first with their identifiers, in order.
pub open spec fn first_texts(events: Seq<FetchedEventView>) -> Seq<Seq<char>>
    decreases events.len(),
{
    if events.len() == 0 {
        seq![]
    } else if is_first(events, events.len() - 1) {
        first_texts(events.drop_last()).push(events.last().json->Ok_0)
    } else {
        first_texts(events.drop_last())
    }
}

/// Of all events that have come, each identifier is taken in once, with the text that came with it
/// first, and in the order in which they came. So there are as many texts as identifiers.
pub proof fn law_each_event_is_collected_once(events: Seq<FetchedEventView>)
    requires
        forall|i: int| 0 <= i < events.len() ==> (#[trigger] events[i]).json is Ok,
    ensures
        ({
            let start = Collected { seen: Set::empty(), events: seq![] };
            &&& with_batch(start, events) matches Ok(end)
            &&& end.events == first_texts(events)
            &&& forall|id: Seq<char>| #[trigger]
                end.seen.contains(id) <==> exists|i: int|
                    0 <= i < events.len() && (#[trigger] events[i]).id == id
            &&& end.seen.finite()
            &&& end.events.len() == end.seen.len()
        }),
    decreases events.len(),
{
    let start = Collected { seen: Set::empty(), events: seq![] };
    if events.len() > 0 {
        let front = events.drop_last();
        let n = events.len() - 1;
        assert forall|i: int| 0 <= i < front.len() implies (#[trigger] front[i]).json is Ok by {
            assert(events[i].json is Ok);
        }
        law_each_event_is_collected_once(front);
        let earlier = with_batch(start, front)->Ok_0;
        assert(events[n].json is Ok);
        assert(earlier.seen.contains(events[n].id) <==> !is_first(events, n)) by {
            if earlier.seen.contains(events[n].id) {
                let i = choose|i: int|
                    0 <= i < front.len() && (#[trigger] front[i]).id == events[n].id;
                assert(events[i].id == events[n].id);
            }
            if !is_first(events, n) {
                let j = choose|j: int| 0 <= j < n && events[j].id == events[n].id;
                assert(front[j].id == events[n].id);
            }
        }
        let end = with_batch(start, events)->Ok_0;
        assert forall|id: Seq<char>| #[trigger] end.seen.contains(id) <==> exists|i: int|
            0 <= i < events.len() && (#[trigger] events[i]).id == id by {
            if earlier.seen.contains(id) {
                let i = choose|i: int| 0 <= i < front.len() && (#[trigger] front[i]).id == id;
                assert(events[i].id == id);
            }
            if exists|i: int| 0 <= i < events.len() && (#[trigger] events[i]).id == id {
                let i = choose|i: int| 0 <= i < events.len() && (#[trigger] events[i]).id == id;
                if i < n {
                    assert(front[i].id == id);
                    assert(earlier.seen.contains(id));
                }
            }
        }
    }
}

/// Taking in one batch after the other is the same as taking in all their events at once.
pub proof fn law_batches_add_up(
    collected: Collected,
    first: Seq<FetchedEventView>,
    second: Seq<FetchedEventView>,
)
    ensures
        with_batch(collected, first + second) == match with_batch(collected, first) {
            Ok(middle) => with_batch(middle, second),
            Err(error) => Err(error),
        },
    decreases second.len(),
{
    if second.len() == 0 {
        assert(first + second =~= first);
    } else {
        law_batches_add_up(collected, first, second.drop_last());
        assert((first + second).drop_last() =~= first + second.drop_last());
    }
}

/// An event is taken in with its identifier and its text if the identifier is new, and passed over
/// if it is not. A new one without a text ends the download with the reason.
pub proof fn law_each_event_is_taken_in_or_passed_over(
    collected: Collected,
    event: FetchedEventView,
)
    ensures
        with_batch(collected, seq![]) == Ok::<Collected, Seq<char>>(collected),
        collected.seen.contains(event.id) ==> with_batch(collected, seq![event]) == Ok::<
            Collected,
            Seq<char>,
        >(collected),
        !collected.seen.contains(event.id) ==> match event.json {
            Ok(text) => with_batch(collected, seq![event]) matches Ok(next) && next.seen
                == collected.seen.insert(event.id) && next.events == collected.events.push(text),
            Err(error) => with_batch(collected, seq![event]) == Err::<Collected, Seq<char>>(error),
        },
{
    reveal_with_fuel(with_batch, 2);
    assert(seq![event].drop_last() =~= seq![]);
}

/// The kinds of events that belong to an announcement are those from 11316 to 11320.
pub proof fn law_announcements_have_these_kinds(kind: u16)
    ensures
        crawl_kinds_seq().contains(kind) <==> 11316 <= kind <= 11320,
        crawl_kinds_seq().no_duplicates(),
{
    let kinds = crawl_kinds_seq();
    assert(kinds[0] == 11316 && kinds[1] == 11317 && kinds[2] == 11318 && kinds[3] == 11319
        && kinds[4] == 11320);
    if 11316 <= kind <= 11320 {
        assert(kinds[kind - 11316] == kind);
    }
}

/// The model of a batch of events keeps all of them, in order, with what they hold.
pub proof fn law_model_of_a_batch(batch: Seq<FetchedEvent>, i: int)
    ensures
        batch_view(batch).len() == batch.len(),
        0 <= i < batch.len() ==> batch_view(batch)[i].id == batch[i].id@ && match batch[i].json {
            Ok(text) => batch_view(batch)[i].json == Ok::<Seq<char>, Seq<char>>(text@),
            Err(error) => batch_view(batch)[i].json == Err::<Seq<char>, Seq<char>>(error@),
        },
{
}

} // verus!
