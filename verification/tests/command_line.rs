use cvm_announcements::args::{find_flag, ArgError, Command, Flag, Options, Tool};
use cvm_announcements::number::NumberFault;
use cvm_announcements::{cleaner, crawler};

fn strings(items: &[&str]) -> Vec<String> {
    items.iter().map(|item| item.to_string()).collect()
}

fn cleaner_config(args: &[&str]) -> cleaner::Config {
    match cleaner::Config::from_args(&strings(args)) {
        Ok(Command::Run(config)) => config,
        other => panic!("{other:?}"),
    }
}

fn cleaner_error(args: &[&str]) -> ArgError {
    match cleaner::Config::from_args(&strings(args)) {
        Err(error) => error,
        other => panic!("{other:?}"),
    }
}

fn crawler_config(args: &[&str]) -> crawler::Config {
    match crawler::Config::from_args(&strings(args)) {
        Ok(Command::Run(config)) => config,
        other => panic!("{other:?}"),
    }
}

fn crawler_error(args: &[&str]) -> ArgError {
    match crawler::Config::from_args(&strings(args)) {
        Err(error) => error,
        other => panic!("{other:?}"),
    }
}

#[test]
fn cleaner_defaults() {
    let config = cleaner_config(&[]);
    assert_eq!(config.strfry_bin, "./strfry");
    assert_eq!(config.state_file, "/var/lib/strfry/cvm-announcement-cleaner-state.json");
    assert_eq!(config.local_relay, "ws://127.0.0.1:7777");
    assert_eq!(
        config.relay_list_sources,
        strings(&[
            "ws://127.0.0.1:7777",
            "wss://relay.damus.io",
            "wss://relay.primal.net",
            "wss://relay.nostr.net",
            "wss://nos.lol",
        ])
    );
    assert_eq!(config.timeout_seconds, 10);
    assert_eq!(config.failure_threshold, 3);
    assert_eq!(config.rounds, 3);
    assert_eq!(config.interval_seconds, 3600);
    assert!(!config.dry_run);
}

#[test]
fn crawler_defaults() {
    let config = crawler_config(&[]);
    assert_eq!(config.strfry_bin, "./strfry");
    assert_eq!(config.local_relay, "ws://127.0.0.1:7777");
    assert_eq!(
        config.source_relays,
        strings(&[
            "ws://127.0.0.1:7777",
            "wss://relay.damus.io",
            "wss://relay.primal.net",
            "wss://relay.nostr.net",
            "wss://nos.lol",
            "wss://nostr.bitcoiner.social",
            "wss://nostr.oxtr.dev",
            "wss://offchain.pub",
            "wss://nostr.mom",
            "wss://nostr.wine",
            "wss://relay.ditto.pub",
            "wss://purplepag.es",
        ])
    );
    assert_eq!(config.timeout_seconds, 10);
    assert_eq!(config.rounds, 1);
    assert_eq!(config.interval_seconds, 3600);
    assert!(!config.dry_run);
}

#[test]
fn every_flag_of_the_cleaner_is_read() {
    let config = cleaner_config(&[
        "--dry-run",
        "--strfry-bin",
        "/opt/strfry",
        "--state-file",
        "--dry-run",
        "--local-relay",
        "ws://relay:1",
        "--timeout-seconds",
        "+7",
        "--failure-threshold",
        "5",
        "--rounds",
        "4294967295",
        "--interval-seconds",
        "18446744073709551615",
        "--failure-threshold",
        "6",
    ]);
    assert_eq!(config.strfry_bin, "/opt/strfry");
    assert_eq!(config.state_file, "--dry-run");
    assert_eq!(config.local_relay, "ws://relay:1");
    assert_eq!(config.relay_list_sources[0], "ws://relay:1");
    assert_eq!(config.relay_list_sources.len(), 5);
    assert_eq!(config.timeout_seconds, 7);
    assert_eq!(config.failure_threshold, 6);
    assert_eq!(config.rounds, u32::MAX);
    assert_eq!(config.interval_seconds, u64::MAX);
    assert!(config.dry_run);
}

#[test]
fn every_flag_of_the_crawler_is_read() {
    let config = crawler_config(&[
        "--strfry-bin", "s", "--local-relay", "l", "--timeout-seconds", "0", "--rounds", "2",
        "--interval-seconds", "9", "--dry-run",
    ]);
    assert_eq!(config.strfry_bin, "s");
    assert_eq!(config.local_relay, "l");
    assert_eq!(config.source_relays[0], "l");
    assert_eq!(config.source_relays.len(), 12);
    assert_eq!(config.timeout_seconds, 0);
    assert_eq!(config.rounds, 2);
    assert_eq!(config.interval_seconds, 9);
    assert!(config.dry_run);
}

#[test]
fn help_ends_the_reading() {
    assert!(matches!(
        cleaner::Config::from_args(&strings(&["--dry-run", "-h", "--nonsense"])),
        Ok(Command::Help)
    ));
    assert!(matches!(
        crawler::Config::from_args(&strings(&["--help", "--rounds", "0"])),
        Ok(Command::Help)
    ));
    assert!(matches!(
        cleaner::Config::from_args(&strings(&["--rounds", "x", "--help"])),
        Err(ArgError::InvalidNumber { .. })
    ));
}

#[test]
fn a_missing_value_is_refused() {
    let error = cleaner_error(&["--dry-run", "--state-file"]);
    assert!(matches!(error, ArgError::MissingValue { flag: Flag::StateFile }));
    assert_eq!(error.message(), "missing value for --state-file");
    assert_eq!(crawler_error(&["--rounds"]).message(), "missing value for --rounds");
}

#[test]
fn a_value_that_is_no_number_is_refused() {
    let error = cleaner_error(&["--rounds", "-1"]);
    assert!(matches!(
        error,
        ArgError::InvalidNumber { flag: Flag::Rounds, fault: NumberFault::InvalidDigit }
    ));
    assert_eq!(error.message(), "invalid --rounds");
    let error = cleaner_error(&["--failure-threshold", "4294967296"]);
    assert!(matches!(
        error,
        ArgError::InvalidNumber { flag: Flag::FailureThreshold, fault: NumberFault::TooLarge }
    ));
    assert_eq!(error.message(), "invalid --failure-threshold");
    let error = crawler_error(&["--timeout-seconds", ""]);
    assert!(matches!(
        error,
        ArgError::InvalidNumber { flag: Flag::TimeoutSeconds, fault: NumberFault::Empty }
    ));
    assert_eq!(error.message(), "invalid --timeout-seconds");
    assert_eq!(crawler_error(&["--interval-seconds", "1s"]).message(), "invalid --interval-seconds");
}

#[test]
fn an_unknown_argument_is_refused() {
    assert_eq!(cleaner_error(&["--verbose"]).message(), "unknown argument: --verbose");
    assert_eq!(cleaner_error(&[""]).message(), "unknown argument: ");
    assert_eq!(
        crawler_error(&["--state-file", "x"]).message(),
        "unknown argument: --state-file"
    );
    assert_eq!(
        crawler_error(&["--failure-threshold", "x"]).message(),
        "unknown argument: --failure-threshold"
    );
}

#[test]
fn zero_rounds_and_zero_threshold_are_refused() {
    let error = cleaner_error(&["--failure-threshold", "0", "--rounds", "0"]);
    assert!(matches!(error, ArgError::ZeroRounds));
    assert_eq!(error.message(), "--rounds must be greater than zero");
    let error = cleaner_error(&["--failure-threshold", "0"]);
    assert!(matches!(error, ArgError::ZeroFailureThreshold));
    assert_eq!(error.message(), "--failure-threshold must be greater than zero");
    assert_eq!(
        crawler_error(&["--rounds", "0"]).message(),
        "--rounds must be greater than zero"
    );
    assert_eq!(cleaner_config(&["--rounds", "0", "--rounds", "1"]).rounds, 1);
}

#[test]
fn flags_are_known_by_their_names() {
    let all = [
        Flag::StrfryBin,
        Flag::StateFile,
        Flag::LocalRelay,
        Flag::TimeoutSeconds,
        Flag::FailureThreshold,
        Flag::Rounds,
        Flag::IntervalSeconds,
        Flag::DryRun,
        Flag::Help,
    ];
    for flag in all {
        assert_eq!(find_flag(Tool::Cleaner, flag.name()), Some(flag));
    }
    assert_eq!(find_flag(Tool::Cleaner, "-h"), Some(Flag::Help));
    assert_eq!(find_flag(Tool::Crawler, "--state-file"), None);
    assert_eq!(find_flag(Tool::Crawler, "--failure-threshold"), None);
    assert_eq!(find_flag(Tool::Crawler, "--rounds"), Some(Flag::Rounds));
}

#[test]
fn options_start_with_defaults() {
    let options = Options::defaults(Tool::Crawler);
    assert_eq!(options.rounds, 1);
    assert_eq!(Options::defaults(Tool::Cleaner).rounds, 3);
    assert!(matches!(
        Options::parse(Tool::Crawler, &strings(&["--rounds", "2"])),
        Ok(Command::Run(Options { rounds: 2, .. }))
    ));
}
