//! The calls into `nostr`, `serde_json` and the standard library whose contracts are taken from
//! the sources and the documentation of those crates.

use vstd::prelude::*;
use vstd::utf8::{decode_utf8, valid_utf8};
use std::collections::BTreeMap;
use crate::sorted::{ascending, entry_keys, entry_map};

verus! {

/// The error of `nostr` on a text that is no key.
#[verifier::external_type_specification]
#[verifier::external_body]
pub struct ExKeyError(nostr_sdk::key::Error);

/// The error of `serde_json`.
#[verifier::external_type_specification]
#[verifier::external_body]
pub struct ExJsonError(serde_json::Error);

/// The error of `String::from_utf8`.
#[verifier::external_type_specification]
#[verifier::external_body]
pub struct ExFromUtf8Error(std::string::FromUtf8Error);

/// Whether `c` is a hexadecimal digit, in lower or upper case.
pub open spec fn is_hex_digit(c: char) -> bool {
    '0' <= c <= '9' || 'a' <= c <= 'f' || 'A' <= c <= 'F'
}

/// The value of a hexadecimal digit.
pub open spec fn hex_value(c: char) -> int {
    if '0' <= c <= '9' {
        c as int - '0' as int
    } else if 'a' <= c <= 'f' {
        c as int - 'a' as int + 10
    } else {
        c as int - 'A' as int + 10
    }
}

/// The bytes that hexadecimal digits stand for, two digits each.
pub open spec fn hex_bytes(s: Seq<char>) -> Seq<u8> {
    Seq::new(s.len() / 2, |i: int| (16 * hex_value(s[2 * i]) + hex_value(s[2 * i + 1])) as u8)
}

/// Whether `s` is the hexadecimal text of a public key: 64 hexadecimal digits.
pub open spec fn is_key_text(s: Seq<char>) -> bool {
    s.len() == 64 && forall|i: int| 0 <= i < s.len() ==> is_hex_digit(s[i])
}

/// `PublicKey::from_hex` of `nostr` accepts exactly the texts of 64 hexadecimal digits in either
/// case, and `to_bytes` of the key that it gives are the bytes that these digits stand for. It
/// does not ask whether the bytes are a point of the curve. Which error it gives for another text
/// is left open.
#[verifier::external_body]
pub(crate) fn public_key_bytes(hex: &str) -> (res: Result<Vec<u8>, nostr_sdk::key::Error>)
    ensures
        res is Ok <==> is_key_text(hex@),
        res matches Ok(bytes) ==> bytes@ == hex_bytes(hex@),
{
    nostr_sdk::PublicKey::from_hex(hex).map(|key| key.to_bytes().to_vec())
}

/// What `serde_json::from_str` makes of a text when a `BTreeMap<String, u32>` is asked for: the
/// map, or nothing where it gives an error.
pub uninterp spec fn counts_from_json(text: Seq<char>) -> Option<Map<Seq<char>, u32>>;

/// What `serde_json::to_vec_pretty` writes for a `BTreeMap<String, u32>`, as text.
pub uninterp spec fn counts_to_json(counts: Map<Seq<char>, u32>) -> Seq<char>;

/// `serde_json::from_str`, asked for a `BTreeMap<String, u32>`. The entries of the map come out in
/// the order of their keys, as `BTreeMap` documents; the order of `String` is that of the UTF-8
/// bytes, which is that of the code points.
#[verifier::external_body]
pub(crate) fn read_counts(text: &str) -> (res: Result<Vec<(String, u32)>, serde_json::Error>)
    ensures
        match res {
            Ok(entries) => ascending(entry_keys(entries@)) && counts_from_json(text@) == Some(
                entry_map(entries@),
            ),
            Err(_) => counts_from_json(text@) is None,
        },
{
    serde_json::from_str::<BTreeMap<String, u32>>(text).map(|counts| counts.into_iter().collect())
}

/// `serde_json::to_vec_pretty` on the `BTreeMap<String, u32>` with the given entries. It fails
/// only for a value that refuses to be serialised or for keys that are no strings, so not here.
/// The bytes are UTF-8; the text starts with a brace, is `{}` for a map without entries, and
/// `serde_json::from_str` makes the same map of it.
#[verifier::external_body]
pub(crate) fn write_counts(entries: &Vec<(String, u32)>) -> (res: Result<
    Vec<u8>,
    serde_json::Error,
>)
    requires
        ascending(entry_keys(entries@)),
    ensures
        res is Ok,
        valid_utf8(res->Ok_0@),
        decode_utf8(res->Ok_0@) == counts_to_json(entry_map(entries@)),
        decode_utf8(res->Ok_0@).len() > 0 && decode_utf8(res->Ok_0@)[0] == '{',
        entries@.len() == 0 ==> decode_utf8(res->Ok_0@) == seq!['{', '}'],
        counts_from_json(decode_utf8(res->Ok_0@)) == Some(entry_map(entries@)),
{
    serde_json::to_vec_pretty(&entries.iter().cloned().collect::<BTreeMap<String, u32>>())
}

/// `String::from_utf8` of the standard library succeeds exactly on valid UTF-8, and gives the text
/// that the bytes encode.
pub assume_specification[ String::from_utf8 ](bytes: Vec<u8>) -> (res: Result<
    String,
    std::string::FromUtf8Error,
>)
    ensures
        res is Ok <==> valid_utf8(bytes@),
        res matches Ok(s) ==> s@ == decode_utf8(bytes@),
;

/// The text that `String::from_utf8_lossy` makes of bytes.
pub uninterp spec fn lossy_text(bytes: Seq<u8>) -> Seq<char>;

/// `String::from_utf8_lossy` of the standard library gives the text that valid UTF-8 encodes, and
/// puts replacement characters where the bytes are not valid; how many, and where, is left to the
/// name.
#[verifier::external_body]
pub(crate) fn text_from_bytes(bytes: &Vec<u8>) -> (res: String)
    ensures
        res@ == lossy_text(bytes@),
        valid_utf8(bytes@) ==> res@ == decode_utf8(bytes@),
{
    String::from_utf8_lossy(bytes).into_owned()
}

/// Two hexadecimal digits stand for one byte, of which the first is the higher half, and what follows
/// them stands for the bytes that follow. The case of a digit makes no difference.
pub proof fn law_hex_digits_stand_for_bytes(hi: char, lo: char, rest: Seq<char>)
    ensures
        hex_bytes(seq![]) == Seq::<u8>::empty(),
        hex_bytes(seq![hi, lo] + rest) == seq![(16 * hex_value(hi) + hex_value(lo)) as u8] + hex_bytes(
            rest,
        ),
        '0' <= hi <= '9' ==> hex_value(hi) == hi as int - 0x30,
        'a' <= hi <= 'f' ==> hex_value(hi) == hi as int - 0x57,
        'A' <= hi <= 'F' ==> hex_value(hi) == hi as int - 0x37,
        is_hex_digit(hi) <==> '0' <= hi <= '9' || 'a' <= hi <= 'f' || 'A' <= hi <= 'F',
{
    let s = seq![hi, lo] + rest;
    assert(hex_bytes(seq![]) =~= Seq::<u8>::empty());
    assert forall|i: int| 1 <= i < s.len() / 2 implies hex_bytes(s)[i] == hex_bytes(rest)[i - 1] by {
        assert(s[2 * i] == rest[2 * (i - 1)]);
        assert(s[2 * i + 1] == rest[2 * (i - 1) + 1]);
    }
    assert(hex_bytes(s) =~= seq![(16 * hex_value(hi) + hex_value(lo)) as u8] + hex_bytes(rest));
}

/// A public key is a text of 64 hexadecimal digits, and stands for 32 bytes.
pub proof fn law_public_key_has_digits_alone(s: Seq<char>)
    ensures
        is_key_text(s) <==> s.len() == 64 && forall|i: int|
            0 <= i < s.len() ==> '0' <= #[trigger] s[i] <= '9' || 'a' <= s[i] <= 'f' || 'A' <= s[i]
                <= 'F',
        is_key_text(s) ==> hex_bytes(s).len() == 32,
{
    if s.len() == 64 && forall|i: int|
        0 <= i < s.len() ==> '0' <= #[trigger] s[i] <= '9' || 'a' <= s[i] <= 'f' || 'A' <= s[i] <= 'F' {
        assert(is_key_text(s));
    }
}

} // verus!
