//! The `strfry` program: the arguments it is run with, and what is made of its output.

use vstd::prelude::*;
use vstd::utf8::{decode_utf8, valid_utf8};
use crate::number::{decimal, decimal_text};
use crate::outside::{is_key_text, lossy_text, text_from_bytes};
use crate::text::{
    blank, concat2, concat3, is_blank, join, joined, law_joined_lines_are_read_back,
    law_joining_puts_the_separator_between, law_lines_end_at_line_feeds, lines, lines_of, one_line,
    texts, trim, trimmed, white_space,
};

verus! {

/// The kind of an event with which a server announces itself.
pub const SERVER_ANNOUNCEMENT_KIND: u16 = 11316;

/// The filter for all server announcements.
pub open spec fn scan_filter_text() -> Seq<char> {
    "{\"kinds\":["@ + decimal(SERVER_ANNOUNCEMENT_KIND as nat) + "]}"@
}

/// The filter for everything by one author, of whatever kind.
pub open spec fn author_filter_text(pubkey: Seq<char>) -> Seq<char> {
    "{\"authors\":[\""@ + pubkey + "\"]}"@
}

/// The arguments with which `strfry` lists all server announcements.
pub fn scan_args() -> (res: Vec<String>)
    ensures
        texts(res@) == seq!["scan"@, scan_filter_text()],
{
    let kind = decimal_text(SERVER_ANNOUNCEMENT_KIND as u64);
    let filter = concat3("{\"kinds\":[", kind.as_str(), "]}");
    let args: Vec<String> = vec!["scan".to_owned(), filter];
    assert(texts(args@) =~= seq!["scan"@, scan_filter_text()]);
    args
}

/// The filter for everything by the server `pubkey_hex`.
pub fn author_filter(pubkey_hex: &str) -> (res: String)
    ensures
        res@ == author_filter_text(pubkey_hex@),
{
    concat3("{\"authors\":[\"", pubkey_hex, "\"]}")
}

/// The arguments with which `strfry` takes in events.
pub fn import_args() -> (res: Vec<String>)
    ensures
        texts(res@) == seq!["import"@],
{
    let args: Vec<String> = vec!["import".to_owned()];
    assert(texts(args@) =~= seq!["import"@]);
    args
}

/// What is to be done to delete everything by a server.
#[derive(Debug)]
pub enum Deletion {
    /// Nothing; this filter would have been used.
    DryRun { filter: String },
    /// To run `strfry` with these arguments.
    Run { args: Vec<String> },
}

/// Plans the deletion of everything by the server `pubkey_hex`. In a dry run nothing is deleted.
pub fn plan_deletion(dry_run: bool, pubkey_hex: &str) -> (res: Deletion)
    ensures
        match res {
            Deletion::DryRun { filter } => dry_run && filter@ == author_filter_text(pubkey_hex@),
            Deletion::Run { args } => !dry_run && texts(args@) == seq![
                "delete"@,
                "--filter"@,
                author_filter_text(pubkey_hex@),
            ],
        },
{
    let filter = author_filter(pubkey_hex);
    if dry_run {
        Deletion::DryRun { filter }
    } else {
        let args: Vec<String> = vec!["delete".to_owned(), "--filter".to_owned(), filter];
        assert(texts(args@) =~= seq![
            "delete"@,
            "--filter"@,
            author_filter_text(pubkey_hex@),
        ]);
        Deletion::Run { args }
    }
}

/// What came of a run of `strfry`.
#[derive(Debug)]
pub struct RunOutput {
    /// Whether it ended with success.
    pub success: bool,
    /// What it wrote to its standard output.
    pub stdout: Vec<u8>,
    /// What it wrote to its standard error.
    pub stderr: Vec<u8>,
}

/// What is said of a run that failed: `what`, and then the text `detail` without the white space
/// around it.
pub fn failure_message(what: &str, detail: &str) -> (res: String)
    ensures
        res@ == what@ + trim(detail@),
{
    concat2(what, trimmed(detail).as_str())
}

/// Whether everything by `pubkey_hex` was deleted; if not, what is said of it.
pub fn check_delete(pubkey_hex: &str, output: &RunOutput) -> (res: Result<(), String>)
    ensures
        match res {
            Ok(_) => output.success,
            Err(message) => !output.success && message@ == "strfry delete failed for "@
                + pubkey_hex@ + ": "@ + trim(lossy_text(output.stderr@)),
        },
{
    if output.success {
        Ok(())
    } else {
        let what = concat3("strfry delete failed for ", pubkey_hex, ": ");
        Err(failure_message(what.as_str(), text_from_bytes(&output.stderr).as_str()))
    }
}

/// Whether the events were taken in; if not, what is said of it.
pub fn check_import(output: &RunOutput) -> (res: Result<(), String>)
    ensures
        match res {
            Ok(_) => output.success,
            Err(message) => !output.success && message@ == "strfry import failed: "@ + trim(
                lossy_text(output.stderr@),
            ),
        },
{
    if output.success {
        Ok(())
    } else {
        Err(
            failure_message(
                "strfry import failed: ",
                text_from_bytes(&output.stderr).as_str(),
            ),
        )
    }
}

/// The lines of `text` that hold an event: those that are not blank.
pub open spec fn event_lines(text: Seq<char>) -> Seq<Seq<char>> {
    lines(text).filter(|line: Seq<char>| !blank(line))
}

/// The lines of `text` that hold an event.
pub fn event_lines_of(text: &str) -> (res: Vec<String>)
    ensures
        texts(res@) == event_lines(text@),
{
    let all = lines_of(text);
    let mut kept: Vec<String> = Vec::new();
    let mut i: usize = 0;
    let ghost wanted = |line: Seq<char>| !blank(line);
    let ghost whole = texts(all@);
    proof {
        reveal(Seq::filter);
        assert(texts(kept@) =~= whole.take(0).filter(wanted));
    }
    while i < all.len()
        invariant
            i <= all@.len(),
            whole == texts(all@),
            wanted == (|line: Seq<char>| !blank(line)),
            texts(kept@) == whole.take(i as int).filter(wanted),
        decreases all@.len() - i,
    {
        let ghost before = texts(kept@);
        let line = &all[i];
        if !is_blank(line.as_str()) {
            kept.push(line.clone());
            assert(texts(kept@) =~= before.push(line@));
        }
        proof {
            reveal(Seq::filter);
            assert(whole.take(i + 1).drop_last() =~= whole.take(i as int));
            assert(whole.take(i + 1).last() == line@);
        }
        i += 1;
    }
    assert(whole.take(i as int) =~= whole);
    kept
}

/// Why the announcements could not be listed.
#[derive(Debug)]
pub enum ScanError {
    /// The run failed; this is said of it.
    Failed { message: String },
    /// What it wrote is not UTF-8.
    NotUtf8 { cause: std::string::FromUtf8Error },
}

/// The lines that hold the announcements in the output of a run.
pub fn scan_lines(output: RunOutput) -> (res: Result<Vec<String>, ScanError>)
    ensures
        match res {
            Ok(found) => output.success && valid_utf8(output.stdout@) && texts(found@)
                == event_lines(decode_utf8(output.stdout@)),
            Err(ScanError::Failed { message }) => !output.success && message@
                == "strfry scan failed: "@ + trim(lossy_text(output.stderr@)),
            Err(ScanError::NotUtf8 { .. }) => output.success && !valid_utf8(output.stdout@),
        },
{
    if !output.success {
        return Err(
            ScanError::Failed {
                message: failure_message(
                    "strfry scan failed: ",
                    text_from_bytes(&output.stderr).as_str(),
                ),
            },
        );
    }
    match String::from_utf8(output.stdout) {
        Ok(text) => Ok(event_lines_of(text.as_str())),
        Err(cause) => Err(ScanError::NotUtf8 { cause }),
    }
}

/// What is read of an event that `strfry` has listed.
#[derive(Debug)]
pub struct AnnouncementEvent {
    pub pubkey: String,
    pub kind: u16,
}

/// The events of a scan, where `parsed` says what was made of each line that holds one. A line of
/// which nothing could be made fails the whole scan; of several, the first one does.
pub fn scanned<E>(parsed: Vec<Result<AnnouncementEvent, E>>) -> (res: Result<
    Vec<AnnouncementEvent>,
    E,
>)
    ensures
        match res {
            Ok(events) => events@.len() == parsed@.len() && forall|i: int|
                0 <= i < parsed@.len() ==> #[trigger] parsed@[i] == Ok::<AnnouncementEvent, E>(
                    events@[i],
                ),
            Err(error) => exists|i: int| #[trigger]
                first_fault_at(parsed@, i) && parsed@[i] == Err::<AnnouncementEvent, E>(error),
        },
{
    let mut events: Vec<AnnouncementEvent> = Vec::new();
    for line in it: parsed
        invariant
            it.seq() == parsed@,
            events@.len() == it.index(),
            forall|i: int|
                0 <= i < it.index() ==> #[trigger] parsed@[i] == Ok::<AnnouncementEvent, E>(
                    events@[i],
                ),
    {
        match line {
            Ok(event) => events.push(event),
            Err(error) => {
                assert(first_fault_at(parsed@, it.index() as int));
                return Err(error);
            },
        }
    }
    Ok(events)
}

/// Whether the line at `i` is the first of which nothing could be made.
pub open spec fn first_fault_at<E>(parsed: Seq<Result<AnnouncementEvent, E>>, i: int) -> bool {
    &&& 0 <= i < parsed.len()
    &&& parsed[i] is Err
    &&& forall|j: int| 0 <= j < i ==> parsed[j] is Ok
}

/// The public keys of those of `events` that are server announcements, in order.
pub open spec fn announced(events: Seq<AnnouncementEvent>) -> Seq<Seq<char>>
    decreases events.len(),
{
    if events.len() == 0 {
        seq![]
    } else if events.last().kind == SERVER_ANNOUNCEMENT_KIND {
        announced(events.drop_last()).push(events.last().pubkey@)
    } else {
        announced(events.drop_last())
    }
}

/// The public keys of the servers that announce themselves in `events`.
pub fn announced_pubkeys(events: &Vec<AnnouncementEvent>) -> (res: Vec<String>)
    ensures
        texts(res@) == announced(events@),
{
    let mut pubkeys: Vec<String> = Vec::new();
    let mut i: usize = 0;
    assert(texts(pubkeys@) =~= announced(events@.take(0)));
    while i < events.len()
        invariant
            i <= events@.len(),
            texts(pubkeys@) == announced(events@.take(i as int)),
        decreases events@.len() - i,
    {
        let ghost before = texts(pubkeys@);
        assert(events@.take(i + 1).drop_last() =~= events@.take(i as int));
        if events[i].kind == SERVER_ANNOUNCEMENT_KIND {
            pubkeys.push(events[i].pubkey.clone());
            assert(texts(pubkeys@) =~= before.push(events@[i as int].pubkey@));
        }
        i += 1;
    }
    assert(events@.take(i as int) =~= events@);
    pubkeys
}

/// A server is announced exactly when an event of the right kind is by it.
pub proof fn law_announced_servers_have_an_announcement(
    events: Seq<AnnouncementEvent>,
    pubkey: Seq<char>,
)
    ensures
        announced(events).contains(pubkey) <==> exists|i: int|
            0 <= i < events.len() && (#[trigger] events[i]).kind == SERVER_ANNOUNCEMENT_KIND
                && events[i].pubkey@ == pubkey,
    decreases events.len(),
{
    if events.len() > 0 {
        let front = events.drop_last();
        let n = events.len() - 1;
        law_announced_servers_have_an_announcement(front, pubkey);
        let known = announced(front);
        if announced(events).contains(pubkey) {
            let k = choose|k: int| 0 <= k < announced(events).len() && announced(events)[k] == pubkey;
            if k < known.len() {
                assert(known[k] == pubkey);
                assert(known.contains(pubkey));
                let i = choose|i: int|
                    0 <= i < front.len() && (#[trigger] front[i]).kind == SERVER_ANNOUNCEMENT_KIND
                        && front[i].pubkey@ == pubkey;
                assert(events[i].pubkey@ == pubkey);
            } else {
                assert(events[n].pubkey@ == pubkey);
            }
        }
        if exists|i: int|
            0 <= i < events.len() && (#[trigger] events[i]).kind == SERVER_ANNOUNCEMENT_KIND
                && events[i].pubkey@ == pubkey {
            let i = choose|i: int|
                0 <= i < events.len() && (#[trigger] events[i]).kind == SERVER_ANNOUNCEMENT_KIND
                    && events[i].pubkey@ == pubkey;
            if i < n {
                assert(front[i].pubkey@ == pubkey);
                assert(known.contains(pubkey));
                let k = choose|k: int| 0 <= k < known.len() && known[k] == pubkey;
                assert(announced(events)[k] == pubkey);
            } else {
                assert(announced(events)[announced(events).len() - 1] == pubkey);
            }
        }
    }
}

/// What `strfry` is given to take in: each event on a line of its own.
pub open spec fn import_text(events: Seq<Seq<char>>) -> Seq<char> {
    joined(events, "\n"@) + "\n"@
}

/// Writes what `strfry` is given to take in the events.
pub fn import_input(events: &Vec<String>) -> (res: String)
    ensures
        res@ == import_text(texts(events@)),
{
    concat2(join(events, "\n").as_str(), "\n")
}

/// The lines that hold an event in what `strfry` is given are the events, if each is a text that
/// fits on a line and is not blank.
pub proof fn law_imported_lines_are_the_events(events: Seq<Seq<char>>)
    requires
        events.len() > 0,
        forall|i: int| 0 <= i < events.len() ==> one_line(#[trigger] events[i]) && !blank(events[i]),
    ensures
        event_lines(import_text(events)) == events,
{
    reveal_strlit("\n");
    assert("\n"@ =~= seq!['\n']);
    law_joined_lines_are_read_back(events);
    lemma_nothing_is_left_out(events);
}

proof fn lemma_nothing_is_left_out(events: Seq<Seq<char>>)
    requires
        forall|i: int| 0 <= i < events.len() ==> !blank(#[trigger] events[i]),
    ensures
        events.filter(|line: Seq<char>| !blank(line)) == events,
    decreases events.len(),
{
    reveal(Seq::filter);
    if events.len() > 0 {
        lemma_nothing_is_left_out(events.drop_last());
        assert(!blank(events[events.len() - 1]));
        assert(events =~= events.drop_last().push(events.last()));
    }
}

/// The events in a text stand on its lines that are not blank, all of them and in order: a line up to
/// the first line feed, without a carriage return before it, and then those of what follows.
pub proof fn law_events_stand_on_lines_that_are_not_blank(line: Seq<char>, rest: Seq<char>)
    requires
        forall|i: int| 0 <= i < line.len() ==> line[i] != '\n',
    ensures
        (exists|i: int| 0 <= i < line.len() && !white_space(#[trigger] line[i])) ==> {
            &&& line.last() != '\r' ==> event_lines(line + seq!['\n'] + rest) == seq![line]
                + event_lines(rest)
            &&& event_lines(line + seq!['\r', '\n'] + rest) == seq![line] + event_lines(rest)
            &&& event_lines(line) == seq![line]
        },
        (forall|i: int| 0 <= i < line.len() ==> white_space(#[trigger] line[i])) ==> {
            &&& line.len() == 0 || line.last() != '\r' ==> event_lines(
                line + seq!['\n'] + rest,
            ) == event_lines(rest)
            &&& event_lines(line + seq!['\r', '\n'] + rest) == event_lines(rest)
            &&& event_lines(line) == Seq::<Seq<char>>::empty()
        },
{
    let wanted = |line: Seq<char>| !blank(line);
    law_lines_end_at_line_feeds(line, rest);
    Seq::filter_distributes_over_add(seq![line], lines(rest), wanted);
    reveal_with_fuel(Seq::filter, 2);
    assert(seq![line].drop_last() =~= Seq::<Seq<char>>::empty());
    let none = Seq::<Seq<char>>::empty();
    if blank(line) {
        assert(seq![line].filter(wanted) =~= none);
        assert(none + event_lines(rest) =~= event_lines(rest));
    } else {
        assert(seq![line].filter(wanted) =~= seq![line]);
    }
}

/// What `strfry` is given is one line for each event: for one event it and a line feed, and for two
/// lists one after the other what it is given for each.
pub proof fn law_each_event_is_given_its_line(
    event: Seq<char>,
    a: Seq<Seq<char>>,
    b: Seq<Seq<char>>,
)
    ensures
        import_text(seq![event]) == event + seq!['\n'],
        a.len() > 0 && b.len() > 0 ==> import_text(a + b) == import_text(a) + import_text(b),
{
    reveal_strlit("\n");
    assert("\n"@ =~= seq!['\n']);
    law_joining_puts_the_separator_between(event, a, b, "\n"@);
    if a.len() > 0 && b.len() > 0 {
        assert(import_text(a + b) =~= import_text(a) + import_text(b));
    }
}

/// The filter for a deletion has one member, which is for authors, and one author in it, which is the
/// server. For a public key nothing else stands in it: no comma sets off a further member or author,
/// and the only colon follows the name of the member. So it restricts by author alone, and events of
/// every kind are deleted.
pub proof fn law_deletion_filter_is_by_author_alone(pubkey: Seq<char>)
    ensures
        ({
            let filter = author_filter_text(pubkey);
            &&& filter.len() == pubkey.len() + 16
            &&& filter.take(13) == seq![
                '{',
                '"',
                'a',
                'u',
                't',
                'h',
                'o',
                'r',
                's',
                '"',
                ':',
                '[',
                '"',
            ]
            &&& filter.subrange(13, 13 + pubkey.len() as int) == pubkey
            &&& filter.skip(13 + pubkey.len() as int) == seq!['"', ']', '}']
            &&& is_key_text(pubkey) ==> forall|i: int|
                0 <= i < filter.len() ==> #[trigger] filter[i] != ',' && (filter[i] == ':' <==> i
                    == 10)
        }),
{
    reveal_strlit("{\"authors\":[\"");
    reveal_strlit("\"]}");
    let filter = author_filter_text(pubkey);
    let n = pubkey.len() as int;
    assert(filter.take(13) =~= "{\"authors\":[\""@);
    assert(filter.take(13) =~= seq!['{', '"', 'a', 'u', 't', 'h', 'o', 'r', 's', '"', ':', '[', '"']);
    assert(filter.subrange(13, 13 + n) =~= pubkey);
    assert(filter.skip(13 + n) =~= seq!['"', ']', '}']);
    if is_key_text(pubkey) {
        assert forall|i: int| 0 <= i < filter.len() implies #[trigger] filter[i] != ',' && (filter[i]
            == ':' <==> i == 10) by {
            if i < 13 {
                assert(filter[i] == filter.take(13)[i]);
            } else if i < 13 + n {
                assert(filter[i] == pubkey[i - 13]);
            } else {
                assert(filter[i] == filter.skip(13 + n)[i - 13 - n]);
            }
        }
    }
}

/// The filter for a scan is for the kind of announcements alone.
pub proof fn law_scan_is_for_announcements()
    ensures
        scan_filter_text() == "{\"kinds\":[11316]}"@,
{
    reveal_strlit("{\"kinds\":[");
    reveal_strlit("]}");
    reveal_strlit("{\"kinds\":[11316]}");
    reveal_with_fuel(decimal, 6);
    assert(decimal(11316) =~= seq!['1', '1', '3', '1', '6']);
    assert(scan_filter_text() =~= "{\"kinds\":[11316]}"@);
}

/// Announcements are taken from the events one after the other: an event of the kind 11316 gives its
/// author, another gives nothing, and two lists one after the other give what each of them gives.
pub proof fn law_announcements_are_taken_in_turn(
    event: AnnouncementEvent,
    a: Seq<AnnouncementEvent>,
    b: Seq<AnnouncementEvent>,
)
    ensures
        announced(seq![]) == Seq::<Seq<char>>::empty(),
        event.kind == 11316 ==> announced(seq![event]) == seq![event.pubkey@],
        event.kind != 11316 ==> announced(seq![event]) == Seq::<Seq<char>>::empty(),
        announced(a + b) == announced(a) + announced(b),
    decreases b.len(),
{
    reveal_with_fuel(announced, 2);
    assert(seq![event].drop_last() =~= Seq::<AnnouncementEvent>::empty());
    assert(announced(seq![]) =~= Seq::<Seq<char>>::empty());
    if event.kind == 11316 {
        assert(announced(seq![event]) =~= seq![event.pubkey@]);
    }
    if b.len() == 0 {
        assert(a + b =~= a);
        assert(announced(a) + announced(b) =~= announced(a));
    } else {
        law_announcements_are_taken_in_turn(event, a, b.drop_last());
        assert((a + b).drop_last() =~= a + b.drop_last());
        assert(announced(a + b) =~= announced(a) + announced(b));
    }
}

/// The line that fails a scan is one of which nothing could be made, and none before it is.
pub proof fn law_first_fault_fails_a_scan<E>(
    parsed: Seq<Result<AnnouncementEvent, E>>,
    i: int,
    j: int,
)
    requires
        first_fault_at(parsed, i),
    ensures
        0 <= i < parsed.len(),
        parsed[i] is Err,
        0 <= j < i ==> parsed[j] is Ok,
{
}

} // verus!
