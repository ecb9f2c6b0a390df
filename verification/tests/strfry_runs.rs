use cvm_announcements::strfry::{
    announced_pubkeys, author_filter, check_delete, check_import, event_lines_of, failure_message,
    import_args, import_input, plan_deletion, scan_args, scan_lines, scanned, AnnouncementEvent,
    Deletion, RunOutput, ScanError,
};

fn strings(items: &[&str]) -> Vec<String> {
    items.iter().map(|item| item.to_string()).collect()
}

fn output(success: bool, stdout: &[u8], stderr: &[u8]) -> RunOutput {
    RunOutput { success, stdout: stdout.to_vec(), stderr: stderr.to_vec() }
}

#[test]
fn strfry_is_run_with_these_arguments() {
    assert_eq!(scan_args(), strings(&["scan", "{\"kinds\":[11316]}"]));
    assert_eq!(import_args(), strings(&["import"]));
    assert_eq!(author_filter("ab"), "{\"authors\":[\"ab\"]}");
}

#[test]
fn a_dry_run_deletes_nothing() {
    assert!(matches!(
        plan_deletion(true, "ab"),
        Deletion::DryRun { filter } if filter == "{\"authors\":[\"ab\"]}"
    ));
    assert!(matches!(
        plan_deletion(false, "ab"),
        Deletion::Run { args } if args == strings(&["delete", "--filter", "{\"authors\":[\"ab\"]}"])
    ));
}

#[test]
fn failed_runs_are_told_with_what_strfry_said() {
    assert_eq!(failure_message("what: ", " \tdetail \n"), "what: detail");
    assert_eq!(check_delete("ab", &output(true, b"", b"warning")), Ok(()));
    assert_eq!(
        check_delete("ab", &output(false, b"", b" no such db\n")),
        Err("strfry delete failed for ab: no such db".to_string())
    );
    assert_eq!(check_import(&output(true, b"", b"")), Ok(()));
    assert_eq!(
        check_import(&output(false, b"", b"bad \xff byte\n")),
        Err("strfry import failed: bad \u{fffd} byte".to_string())
    );
}

#[test]
fn lines_without_text_hold_no_event() {
    assert_eq!(event_lines_of("a\n\n \t\r\nb \r\n"), strings(&["a", "b "]));
    assert!(event_lines_of("").is_empty());
}

#[test]
fn the_lines_of_a_scan() {
    assert_eq!(scan_lines(output(true, "{é}\n\n{}\n".as_bytes(), b"")).unwrap(), strings(&["{é}", "{}"]));
    assert!(scan_lines(output(true, b"", b"")).unwrap().is_empty());
}

#[test]
fn a_scan_that_failed() {
    match scan_lines(output(false, b"{}\n", b"\n locked \n")) {
        Err(ScanError::Failed { message }) => assert_eq!(message, "strfry scan failed: locked"),
        other => panic!("{other:?}"),
    }
}

#[test]
fn a_scan_that_is_not_utf8() {
    match scan_lines(output(true, b"{}\n\xff", b"")) {
        Err(ScanError::NotUtf8 { cause }) => assert_eq!(cause.utf8_error().valid_up_to(), 3),
        other => panic!("{other:?}"),
    }
}

#[test]
fn a_line_that_is_no_event_fails_the_scan() {
    let event = |pubkey: &str, kind| AnnouncementEvent { pubkey: pubkey.to_string(), kind };
    let parsed: Vec<Result<AnnouncementEvent, String>> =
        vec![Ok(event("a", 11316)), Ok(event("b", 1)), Ok(event("a", 11316))];
    let events = scanned(parsed).unwrap();
    let listed: Vec<(&str, u16)> =
        events.iter().map(|event| (event.pubkey.as_str(), event.kind)).collect();
    assert_eq!(listed, vec![("a", 11316), ("b", 1), ("a", 11316)]);
    let parsed = vec![Ok(event("a", 11316)), Err("first"), Ok(event("b", 11316)), Err("second")];
    assert!(matches!(scanned(parsed), Err("first")));
    let none: Vec<Result<AnnouncementEvent, String>> = Vec::new();
    assert!(scanned(none).unwrap().is_empty());
}

#[test]
fn only_announcements_count() {
    let events: Vec<AnnouncementEvent> = [("a", 11316), ("b", 11317), ("c", 11316), ("a", 11316)]
        .iter()
        .map(|(pubkey, kind)| AnnouncementEvent { pubkey: pubkey.to_string(), kind: *kind })
        .collect();
    assert_eq!(announced_pubkeys(&events), strings(&["a", "c", "a"]));
    assert!(announced_pubkeys(&Vec::new()).is_empty());
}

#[test]
fn each_imported_event_has_its_line() {
    let events = strings(&["{\"id\":1}", "{\"id\":2}"]);
    let input = import_input(&events);
    assert_eq!(input, "{\"id\":1}\n{\"id\":2}\n");
    assert_eq!(event_lines_of(&input), events);
}
