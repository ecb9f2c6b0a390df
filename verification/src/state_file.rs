//! The file in which the failure counts of servers outlive a run.

use vstd::prelude::*;
use vstd::utf8::{decode_utf8, valid_utf8};
use crate::outside::{counts_from_json, counts_to_json, read_counts, write_counts};
use crate::sorted::{ascending, entry_keys, entry_map, TextMap};
use crate::text::{blank, is_blank, white_space};

verus! {

/// How often each server has failed in a row, by public key.
pub type FailureCounts = TextMap<u32>;

/// The failure counts that the text of a state file stands for, if it stands for any. A blank file
/// stands for no failures.
pub open spec fn state_of(text: Seq<char>) -> Option<Map<Seq<char>, u32>> {
    if blank(text) {
        Some(Map::empty())
    } else {
        counts_from_json(text)
    }
}

/// The text of a state file is not an object of counts.
#[derive(Debug)]
pub struct StateError {
    /// What is wrong with it.
    pub cause: serde_json::Error,
}

/// Takes over what was read from the text of a state file.
pub fn counts_from_entries(parsed: Result<Vec<(String, u32)>, serde_json::Error>) -> (res: Result<
    FailureCounts,
    StateError,
>)
    requires
        parsed matches Ok(entries) ==> ascending(entry_keys(entries@)),
    ensures
        match parsed {
            Ok(entries) => res matches Ok(counts) && counts.wf() && counts@ == entry_map(entries@)
                && counts.entries() == entries@,
            Err(cause) => res matches Err(error) && error.cause == cause,
        },
{
    match parsed {
        Ok(entries) => Ok(TextMap::from_entries(entries)),
        Err(cause) => Err(StateError { cause }),
    }
}

/// Reads the text of a state file.
pub fn decode_state(text: &str) -> (res: Result<FailureCounts, StateError>)
    ensures
        match res {
            Ok(counts) => counts.wf() && state_of(text@) == Some(counts@),
            Err(_) => state_of(text@) is None,
        },
{
    if is_blank(text) {
        return Ok(TextMap::new());
    }
    counts_from_entries(read_counts(text))
}

/// Writes the content of a state file. Reading it gives the same counts.
pub fn encode_state(counts: &FailureCounts) -> (res: Vec<u8>)
    requires
        counts.wf(),
    ensures
        valid_utf8(res@),
        decode_utf8(res@) == counts_to_json(counts@),
        state_of(decode_utf8(res@)) == Some(counts@),
        counts.keys().len() == 0 ==> decode_utf8(res@) == seq!['{', '}'],
{
    match write_counts(counts.as_entries()) {
        Ok(bytes) => {
            assert(!white_space(decode_utf8(bytes@)[0]));
            bytes
        },
        Err(_) => {
            assert(false);
            Vec::new()
        },
    }
}

/// The content of a state file that is made because there is none. It stands for no failures.
pub fn initial_state() -> (res: Vec<u8>)
    ensures
        valid_utf8(res@),
        decode_utf8(res@) == seq!['{', '}'],
        state_of(decode_utf8(res@)) == Some(Map::<Seq<char>, u32>::empty()),
{
    encode_state(&TextMap::new())
}

/// A state file with nothing but white space stands for no failures; any other stands for what its
/// JSON says, or for nothing.
pub proof fn law_blank_state_file_stands_for_no_failures(text: Seq<char>)
    ensures
        (forall|i: int| 0 <= i < text.len() ==> white_space(#[trigger] text[i])) ==> state_of(text)
            == Some(Map::<Seq<char>, u32>::empty()),
        (exists|i: int| 0 <= i < text.len() && !white_space(#[trigger] text[i])) ==> state_of(text)
            == counts_from_json(text),
{
}

} // verus!
