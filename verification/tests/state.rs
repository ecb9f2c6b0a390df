use cvm_announcements::sorted::TextMap;
use cvm_announcements::state_file::{
    counts_from_entries, decode_state, encode_state, initial_state, FailureCounts,
};

fn counts(entries: &[(&str, u32)]) -> FailureCounts {
    let mut map = TextMap::new();
    for (key, value) in entries {
        map.set(key.to_string(), *value);
    }
    map
}

fn decoded(text: &str) -> Vec<(String, u32)> {
    match decode_state(text) {
        Ok(counts) => counts.as_entries().clone(),
        Err(error) => panic!("{error:?}"),
    }
}

#[test]
fn a_blank_state_file_has_no_failures() {
    for text in ["", " ", "\n\t\r\n", "\u{3000}"] {
        assert!(decoded(text).is_empty());
    }
}

#[test]
fn a_state_file_is_read() {
    assert_eq!(
        decoded(" {\"b\": 2, \"a\": 1, \"b\": 3, \"\\u00e9\": 4294967295}\n"),
        vec![("a".to_string(), 1), ("b".to_string(), 3), ("é".to_string(), u32::MAX)]
    );
    assert!(decoded("{}").is_empty());
}

#[test]
fn a_state_file_with_anything_else_is_refused() {
    for text in ["{", "[]", "null", "{\"a\":-1}", "{\"a\":4294967296}", "{\"a\":1.5}", "{} x", "{1:1}"] {
        match decode_state(text) {
            Ok(counts) => panic!("{text}: {:?}", counts.as_entries()),
            Err(error) => assert!(error.cause.is_syntax() || error.cause.is_data() || error.cause.is_eof()),
        }
    }
}

#[test]
fn the_state_file_is_written_as_indented_json() {
    let text = String::from_utf8(encode_state(&counts(&[("b", 2), ("a", 1)]))).unwrap();
    assert_eq!(text, "{\n  \"a\": 1,\n  \"b\": 2\n}");
}

#[test]
fn what_is_written_is_read_back() {
    let samples = [
        counts(&[]),
        counts(&[("k", 1)]),
        counts(&[("\"quoted\"\n", 7), ("é☃", u32::MAX), ("", 3)]),
    ];
    for sample in samples {
        let text = String::from_utf8(encode_state(&sample)).unwrap();
        assert_eq!(&decoded(&text), sample.as_entries());
    }
}

#[test]
fn a_new_state_file_has_no_failures() {
    assert_eq!(initial_state(), b"{}".to_vec());
    assert_eq!(encode_state(&counts(&[])), b"{}".to_vec());
    assert!(decoded("{}").is_empty());
}

#[test]
fn entries_that_were_read_are_taken_over() {
    let entries = vec![("a".to_string(), 1), ("b".to_string(), 2)];
    match counts_from_entries(Ok(entries.clone())) {
        Ok(counts) => assert_eq!(counts.as_entries(), &entries),
        Err(error) => panic!("{error:?}"),
    }
    let fault = serde_json::from_str::<u32>("x").unwrap_err();
    let line = fault.line();
    match counts_from_entries(Err(fault)) {
        Ok(_) => panic!("accepted"),
        Err(error) => assert_eq!(error.cause.line(), line),
    }
}
