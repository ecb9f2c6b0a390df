//! The command lines of the two tools.

use vstd::prelude::*;
use crate::number::{
    law_number_is_its_decimal_value, parse_u32, parse_u64, read_number, NumberFault,
};
use crate::text::{concat2, same_text, texts};

verus! {

/// The relay that is asked on this machine, unless another one is named.
pub const DEFAULT_LOCAL_RELAY: &'static str = "ws://127.0.0.1:7777";

/// The path of the `strfry` program, unless another one is named.
pub const DEFAULT_STRFRY_BIN: &'static str = "./strfry";

/// The path of the file with the failure counts, unless another one is named.
pub const DEFAULT_STATE_FILE: &'static str = "/var/lib/strfry/cvm-announcement-cleaner-state.json";

/// How long to wait for the network, in seconds, unless another time is given.
pub const DEFAULT_TIMEOUT_SECS: u64 = 10;

/// The number of failed rounds after which a server is dead, unless another one is given.
pub const DEFAULT_FAILURE_THRESHOLD: u32 = 3;

/// How long to pause between rounds, in seconds, unless another time is given.
pub const DEFAULT_INTERVAL_SECS: u64 = 3600;

/// The two tools.
#[derive(Clone, Copy, Debug, PartialEq, Eq, Structural)]
pub enum Tool {
    /// Removes the announcements of dead servers.
    Cleaner,
    /// Brings in the announcements of servers that are alive.
    Crawler,
}

/// The arguments that a tool knows by name.
#[derive(Clone, Copy, Debug, PartialEq, Eq, Structural)]
pub enum Flag {
    StrfryBin,
    StateFile,
    LocalRelay,
    TimeoutSeconds,
    FailureThreshold,
    Rounds,
    IntervalSeconds,
    DryRun,
    Help,
}

/// How a flag is written.
pub open spec fn flag_text(flag: Flag) -> Seq<char> {
    match flag {
        Flag::StrfryBin => "--strfry-bin"@,
        Flag::StateFile => "--state-file"@,
        Flag::LocalRelay => "--local-relay"@,
        Flag::TimeoutSeconds => "--timeout-seconds"@,
        Flag::FailureThreshold => "--failure-threshold"@,
        Flag::Rounds => "--rounds"@,
        Flag::IntervalSeconds => "--interval-seconds"@,
        Flag::DryRun => "--dry-run"@,
        Flag::Help => "--help"@,
    }
}

/// The flag that `tool` takes `arg` for.
pub open spec fn flag_of(tool: Tool, arg: Seq<char>) -> Option<Flag> {
    if arg == "--strfry-bin"@ {
        Some(Flag::StrfryBin)
    } else if arg == "--local-relay"@ {
        Some(Flag::LocalRelay)
    } else if tool is Cleaner && arg == "--state-file"@ {
        Some(Flag::StateFile)
    } else if arg == "--timeout-seconds"@ {
        Some(Flag::TimeoutSeconds)
    } else if tool is Cleaner && arg == "--failure-threshold"@ {
        Some(Flag::FailureThreshold)
    } else if arg == "--rounds"@ {
        Some(Flag::Rounds)
    } else if arg == "--interval-seconds"@ {
        Some(Flag::IntervalSeconds)
    } else if arg == "--dry-run"@ {
        Some(Flag::DryRun)
    } else if arg == "--help"@ || arg == "-h"@ {
        Some(Flag::Help)
    } else {
        None
    }
}

impl Flag {
    /// How the flag is written.
    pub fn name(self) -> (res: &'static str)
        ensures
            res@ == flag_text(self),
    {
        match self {
            Flag::StrfryBin => "--strfry-bin",
            Flag::StateFile => "--state-file",
            Flag::LocalRelay => "--local-relay",
            Flag::TimeoutSeconds => "--timeout-seconds",
            Flag::FailureThreshold => "--failure-threshold",
            Flag::Rounds => "--rounds",
            Flag::IntervalSeconds => "--interval-seconds",
            Flag::DryRun => "--dry-run",
            Flag::Help => "--help",
        }
    }
}

/// The flag that `tool` takes `arg` for, if it knows one of that name.
pub fn find_flag(tool: Tool, arg: &str) -> (res: Option<Flag>)
    ensures
        res == flag_of(tool, arg@),
{
    let cleaner = tool == Tool::Cleaner;
    if same_text(arg, "--strfry-bin") {
        Some(Flag::StrfryBin)
    } else if same_text(arg, "--local-relay") {
        Some(Flag::LocalRelay)
    } else if cleaner && same_text(arg, "--state-file") {
        Some(Flag::StateFile)
    } else if same_text(arg, "--timeout-seconds") {
        Some(Flag::TimeoutSeconds)
    } else if cleaner && same_text(arg, "--failure-threshold") {
        Some(Flag::FailureThreshold)
    } else if same_text(arg, "--rounds") {
        Some(Flag::Rounds)
    } else if same_text(arg, "--interval-seconds") {
        Some(Flag::IntervalSeconds)
    } else if same_text(arg, "--dry-run") {
        Some(Flag::DryRun)
    } else if same_text(arg, "--help") || same_text(arg, "-h") {
        Some(Flag::Help)
    } else {
        None
    }
}

/// Why a command line is refused.
#[derive(Debug)]
pub enum ArgError {
    /// A flag that takes a value is the last argument.
    MissingValue { flag: Flag },
    /// The value of a flag is not a number that fits.
    InvalidNumber { flag: Flag, fault: NumberFault },
    /// The tool knows no argument of that name.
    UnknownArgument { arg: String },
    /// The number of rounds is zero.
    ZeroRounds,
    /// The failure threshold is zero.
    ZeroFailureThreshold,
}

/// The model of `ArgError`.
pub enum ArgErrorView {
    MissingValue { flag: Flag },
    InvalidNumber { flag: Flag, fault: NumberFault },
    UnknownArgument { arg: Seq<char> },
    ZeroRounds,
    ZeroFailureThreshold,
}

impl View for ArgError {
    type V = ArgErrorView;

    open spec fn view(&self) -> ArgErrorView {
        match *self {
            ArgError::MissingValue { flag } => ArgErrorView::MissingValue { flag },
            ArgError::InvalidNumber { flag, fault } => ArgErrorView::InvalidNumber { flag, fault },
            ArgError::UnknownArgument { arg } => ArgErrorView::UnknownArgument { arg: arg@ },
            ArgError::ZeroRounds => ArgErrorView::ZeroRounds,
            ArgError::ZeroFailureThreshold => ArgErrorView::ZeroFailureThreshold,
        }
    }
}

impl ArgErrorView {
    /// What the user is told.
    pub open spec fn message(self) -> Seq<char> {
        match self {
            ArgErrorView::MissingValue { flag } => "missing value for "@ + flag_text(flag),
            ArgErrorView::InvalidNumber { flag, .. } => "invalid "@ + flag_text(flag),
            ArgErrorView::UnknownArgument { arg } => "unknown argument: "@ + arg,
            ArgErrorView::ZeroRounds => flag_text(Flag::Rounds) + " must be greater than zero"@,
            ArgErrorView::ZeroFailureThreshold => flag_text(Flag::FailureThreshold)
                + " must be greater than zero"@,
        }
    }
}

impl ArgError {
    /// What the user is told.
    pub fn message(&self) -> (res: String)
        ensures
            res@ == self@.message(),
    {
        match self {
            ArgError::MissingValue { flag } => concat2("missing value for ", flag.name()),
            ArgError::InvalidNumber { flag, .. } => concat2("invalid ", flag.name()),
            ArgError::UnknownArgument { arg } => concat2("unknown argument: ", arg.as_str()),
            ArgError::ZeroRounds => concat2(Flag::Rounds.name(), " must be greater than zero"),
            ArgError::ZeroFailureThreshold => concat2(
                Flag::FailureThreshold.name(),
                " must be greater than zero",
            ),
        }
    }
}

/// What the flags of a command line set.
#[derive(Debug)]
pub struct Options {
    pub strfry_bin: String,
    pub state_file: String,
    pub local_relay: String,
    pub timeout_seconds: u64,
    pub failure_threshold: u32,
    pub rounds: u32,
    pub interval_seconds: u64,
    pub dry_run: bool,
}

/// The model of `Options`.
pub struct OptionsView {
    pub strfry_bin: Seq<char>,
    pub state_file: Seq<char>,
    pub local_relay: Seq<char>,
    pub timeout_seconds: u64,
    pub failure_threshold: u32,
    pub rounds: u32,
    pub interval_seconds: u64,
    pub dry_run: bool,
}

impl View for Options {
    type V = OptionsView;

    open spec fn view(&self) -> OptionsView {
        OptionsView {
            strfry_bin: self.strfry_bin@,
            state_file: self.state_file@,
            local_relay: self.local_relay@,
            timeout_seconds: self.timeout_seconds,
            failure_threshold: self.failure_threshold,
            rounds: self.rounds,
            interval_seconds: self.interval_seconds,
            dry_run: self.dry_run,
        }
    }
}

/// What holds before any flag is read: the cleaner runs as many rounds as a server may fail, the
/// crawler runs one.
pub open spec fn default_options(tool: Tool) -> OptionsView {
    OptionsView {
        strfry_bin: DEFAULT_STRFRY_BIN@,
        state_file: DEFAULT_STATE_FILE@,
        local_relay: DEFAULT_LOCAL_RELAY@,
        timeout_seconds: DEFAULT_TIMEOUT_SECS,
        failure_threshold: DEFAULT_FAILURE_THRESHOLD,
        rounds: match tool {
            Tool::Cleaner => DEFAULT_FAILURE_THRESHOLD,
            Tool::Crawler => 1,
        },
        interval_seconds: DEFAULT_INTERVAL_SECS,
        dry_run: false,
    }
}

impl OptionsView {
    /// The options after a flag with the value `value`.
    pub open spec fn with_value(self, flag: Flag, value: Seq<char>) -> Result<Self, ArgErrorView> {
        match flag {
            Flag::StrfryBin => Ok(OptionsView { strfry_bin: value, ..self }),
            Flag::StateFile => Ok(OptionsView { state_file: value, ..self }),
            Flag::LocalRelay => Ok(OptionsView { local_relay: value, ..self }),
            Flag::TimeoutSeconds => match read_number(value, u64::MAX as nat) {
                Ok(n) => Ok(OptionsView { timeout_seconds: n as u64, ..self }),
                Err(fault) => Err(ArgErrorView::InvalidNumber { flag, fault }),
            },
            Flag::FailureThreshold => match read_number(value, u32::MAX as nat) {
                Ok(n) => Ok(OptionsView { failure_threshold: n as u32, ..self }),
                Err(fault) => Err(ArgErrorView::InvalidNumber { flag, fault }),
            },
            Flag::Rounds => match read_number(value, u32::MAX as nat) {
                Ok(n) => Ok(OptionsView { rounds: n as u32, ..self }),
                Err(fault) => Err(ArgErrorView::InvalidNumber { flag, fault }),
            },
            Flag::IntervalSeconds => match read_number(value, u64::MAX as nat) {
                Ok(n) => Ok(OptionsView { interval_seconds: n as u64, ..self }),
                Err(fault) => Err(ArgErrorView::InvalidNumber { flag, fault }),
            },
            Flag::DryRun | Flag::Help => Ok(self),
        }
    }
}

/// What a command line asks for.
pub enum ParsedView {
    /// To run with these options.
    Run(OptionsView),
    /// To show the help text.
    Help,
    /// It is refused.
    Refused(ArgErrorView),
}

/// What the arguments `args` ask `tool` for when those before them have set `options`. They are
/// read from left to right; the first that asks for help or is refused ends the reading.
pub open spec fn read_args(tool: Tool, options: OptionsView, args: Seq<Seq<char>>) -> ParsedView
    decreases args.len(),
{
    if args.len() == 0 {
        ParsedView::Run(options)
    } else {
        match flag_of(tool, args[0]) {
            None => ParsedView::Refused(ArgErrorView::UnknownArgument { arg: args[0] }),
            Some(Flag::Help) => ParsedView::Help,
            Some(Flag::DryRun) => read_args(
                tool,
                OptionsView { dry_run: true, ..options },
                args.skip(1),
            ),
            Some(flag) => if args.len() == 1 {
                ParsedView::Refused(ArgErrorView::MissingValue { flag })
            } else {
                match options.with_value(flag, args[1]) {
                    Ok(next) => read_args(tool, next, args.skip(2)),
                    Err(error) => ParsedView::Refused(error),
                }
            },
        }
    }
}

/// What a command line asks `tool` for. Neither the number of rounds nor the threshold may be zero.
pub open spec fn command_of(tool: Tool, args: Seq<Seq<char>>) -> ParsedView {
    match read_args(tool, default_options(tool), args) {
        ParsedView::Run(options) => if options.rounds == 0 {
            ParsedView::Refused(ArgErrorView::ZeroRounds)
        } else if options.failure_threshold == 0 {
            ParsedView::Refused(ArgErrorView::ZeroFailureThreshold)
        } else {
            ParsedView::Run(options)
        },
        other => other,
    }
}

/// What a command line that is not refused asks for, with `C` the settings to run with.
#[derive(Debug)]
pub enum Command<C> {
    /// To run with these settings.
    Run(C),
    /// To show the help text.
    Help,
}

impl Options {
    /// The options before any flag is read.
    pub fn defaults(tool: Tool) -> (res: Self)
        ensures
            res@ == default_options(tool),
    {
        Options {
            strfry_bin: DEFAULT_STRFRY_BIN.to_owned(),
            state_file: DEFAULT_STATE_FILE.to_owned(),
            local_relay: DEFAULT_LOCAL_RELAY.to_owned(),
            timeout_seconds: DEFAULT_TIMEOUT_SECS,
            failure_threshold: DEFAULT_FAILURE_THRESHOLD,
            rounds: match tool {
                Tool::Cleaner => DEFAULT_FAILURE_THRESHOLD,
                Tool::Crawler => 1,
            },
            interval_seconds: DEFAULT_INTERVAL_SECS,
            dry_run: false,
        }
    }

    /// Sets what `flag` with the value `value` sets.
    fn set_value(&mut self, flag: Flag, value: &String) -> (res: Result<(), ArgError>)
        ensures
            match res {
                Ok(_) => old(self)@.with_value(flag, value@) == Ok::<OptionsView, ArgErrorView>(
                    final(self)@,
                ),
                Err(error) => old(self)@.with_value(flag, value@) == Err::<
                    OptionsView,
                    ArgErrorView,
                >(error@),
            },
    {
        match flag {
            Flag::StrfryBin => self.strfry_bin = value.clone(),
            Flag::StateFile => self.state_file = value.clone(),
            Flag::LocalRelay => self.local_relay = value.clone(),
            Flag::TimeoutSeconds => match parse_u64(value.as_str()) {
                Ok(n) => self.timeout_seconds = n,
                Err(fault) => return Err(ArgError::InvalidNumber { flag, fault }),
            },
            Flag::FailureThreshold => match parse_u32(value.as_str()) {
                Ok(n) => self.failure_threshold = n,
                Err(fault) => return Err(ArgError::InvalidNumber { flag, fault }),
            },
            Flag::Rounds => match parse_u32(value.as_str()) {
                Ok(n) => self.rounds = n,
                Err(fault) => return Err(ArgError::InvalidNumber { flag, fault }),
            },
            Flag::IntervalSeconds => match parse_u64(value.as_str()) {
                Ok(n) => self.interval_seconds = n,
                Err(fault) => return Err(ArgError::InvalidNumber { flag, fault }),
            },
            Flag::DryRun | Flag::Help => {},
        }
        Ok(())
    }

    /// Reads the arguments of `tool`, without the name of the program.
    pub fn parse(tool: Tool, args: &Vec<String>) -> (res: Result<Command<Options>, ArgError>)
        ensures
            match res {
                Ok(Command::Run(options)) => command_of(tool, texts(args@)) == ParsedView::Run(
                    options@,
                ),
                Ok(Command::Help) => command_of(tool, texts(args@)) is Help,
                Err(error) => command_of(tool, texts(args@)) == ParsedView::Refused(error@),
            },
    {
        let mut options = Options::defaults(tool);
        let mut i: usize = 0;
        let ghost all = texts(args@);
        assert(all.skip(0) =~= all);
        while i < args.len()
            invariant
                i <= args@.len(),
                all == texts(args@),
                read_args(tool, default_options(tool), all) == read_args(
                    tool,
                    options@,
                    all.skip(i as int),
                ),
            decreases args@.len() - i,
        {
            let ghost rest = all.skip(i as int);
            assert(rest[0] == args@[i as int]@);
            match find_flag(tool, args[i].as_str()) {
                None => return Err(ArgError::UnknownArgument { arg: args[i].clone() }),
                Some(Flag::Help) => return Ok(Command::Help),
                Some(Flag::DryRun) => {
                    options.dry_run = true;
                    assert(rest.skip(1) =~= all.skip(i + 1));
                    i += 1;
                },
                Some(flag) => {
                    if i + 1 == args.len() {
                        return Err(ArgError::MissingValue { flag });
                    }
                    assert(rest[1] == args@[i + 1]@);
                    if let Err(error) = options.set_value(flag, &args[i + 1]) {
                        return Err(error);
                    }
                    assert(rest.skip(2) =~= all.skip(i + 2));
                    i += 2;
                },
            }
        }
        if options.rounds == 0 {
            return Err(ArgError::ZeroRounds);
        }
        if options.failure_threshold == 0 {
            return Err(ArgError::ZeroFailureThreshold);
        }
        Ok(Command::Run(options))
    }
}

/// The names of the flags.
pub proof fn law_flags_have_these_names()
    ensures
        flag_text(Flag::StrfryBin) == "--strfry-bin"@,
        flag_text(Flag::StateFile) == "--state-file"@,
        flag_text(Flag::LocalRelay) == "--local-relay"@,
        flag_text(Flag::TimeoutSeconds) == "--timeout-seconds"@,
        flag_text(Flag::FailureThreshold) == "--failure-threshold"@,
        flag_text(Flag::Rounds) == "--rounds"@,
        flag_text(Flag::IntervalSeconds) == "--interval-seconds"@,
        flag_text(Flag::DryRun) == "--dry-run"@,
        flag_text(Flag::Help) == "--help"@,
{
}

/// A tool takes exactly the names of its flags, and `-h`, for flags. The state file and the failure
/// threshold are flags of the cleaner alone.
pub proof fn law_flags_are_known_by_their_names(tool: Tool, arg: Seq<char>)
    ensures
        flag_of(tool, "--strfry-bin"@) == Some(Flag::StrfryBin),
        flag_of(Tool::Cleaner, "--state-file"@) == Some(Flag::StateFile),
        flag_of(Tool::Crawler, "--state-file"@) is None,
        flag_of(tool, "--local-relay"@) == Some(Flag::LocalRelay),
        flag_of(tool, "--timeout-seconds"@) == Some(Flag::TimeoutSeconds),
        flag_of(Tool::Cleaner, "--failure-threshold"@) == Some(Flag::FailureThreshold),
        flag_of(Tool::Crawler, "--failure-threshold"@) is None,
        flag_of(tool, "--rounds"@) == Some(Flag::Rounds),
        flag_of(tool, "--interval-seconds"@) == Some(Flag::IntervalSeconds),
        flag_of(tool, "--dry-run"@) == Some(Flag::DryRun),
        flag_of(tool, "--help"@) == Some(Flag::Help),
        flag_of(tool, "-h"@) == Some(Flag::Help),
        arg != "--strfry-bin"@ && arg != "--state-file"@ && arg != "--local-relay"@
            && arg != "--timeout-seconds"@ && arg != "--failure-threshold"@ && arg != "--rounds"@
            && arg != "--interval-seconds"@ && arg != "--dry-run"@ && arg != "--help"@
            && arg != "-h"@ ==> flag_of(tool, arg) is None,
{
    reveal_strlit("--strfry-bin");
    reveal_strlit("--state-file");
    reveal_strlit("--local-relay");
    reveal_strlit("--timeout-seconds");
    reveal_strlit("--failure-threshold");
    reveal_strlit("--rounds");
    reveal_strlit("--interval-seconds");
    reveal_strlit("--dry-run");
    reveal_strlit("--help");
    reveal_strlit("-h");
    assert("--strfry-bin"@.len() == 12);
    assert("--state-file"@.len() == 12);
    assert("--local-relay"@.len() == 13);
    assert("--timeout-seconds"@.len() == 17);
    assert("--failure-threshold"@.len() == 19);
    assert("--rounds"@.len() == 8);
    assert("--interval-seconds"@.len() == 18);
    assert("--dry-run"@.len() == 9);
    assert("--help"@.len() == 6);
    assert("-h"@.len() == 2);
    assert("--strfry-bin"@[4] != "--state-file"@[4]);
}

/// Arguments are read from left to right. If the first ones can be read to their end, the others are
/// read with what they have set. Once help is asked for, or an argument is refused for another
/// reason than that it lacks its value, what follows changes nothing.
pub proof fn law_arguments_are_read_in_turn(
    tool: Tool,
    options: OptionsView,
    first: Seq<Seq<char>>,
    rest: Seq<Seq<char>>,
)
    ensures
        match read_args(tool, options, first) {
            ParsedView::Run(next) => read_args(tool, options, first + rest) == read_args(
                tool,
                next,
                rest,
            ),
            ParsedView::Help => read_args(tool, options, first + rest) is Help,
            ParsedView::Refused(error) => error is MissingValue || read_args(
                tool,
                options,
                first + rest,
            ) == ParsedView::Refused(error),
        },
    decreases first.len(),
{
    let all = first + rest;
    if first.len() == 0 {
        assert(all =~= rest);
    } else {
        assert(all[0] == first[0]);
        match flag_of(tool, first[0]) {
            None => {},
            Some(Flag::Help) => {},
            Some(Flag::DryRun) => {
                assert(all.skip(1) =~= first.skip(1) + rest);
                law_arguments_are_read_in_turn(
                    tool,
                    OptionsView { dry_run: true, ..options },
                    first.skip(1),
                    rest,
                );
            },
            Some(flag) => {
                if first.len() > 1 {
                    assert(all[1] == first[1]);
                    assert(all.skip(2) =~= first.skip(2) + rest);
                    if let Ok(next) = options.with_value(flag, first[1]) {
                        law_arguments_are_read_in_turn(tool, next, first.skip(2), rest);
                    }
                }
            },
        }
    }
}

/// Each flag sets its own setting to the value that follows it and leaves all others alone. A dry
/// run is asked for by the flag alone. A value that is no number is refused where one is needed.
pub proof fn law_each_flag_sets_its_own(tool: Tool, options: OptionsView, value: Seq<char>)
    ensures
        read_args(tool, options, seq![]) == ParsedView::Run(options),
        read_args(tool, options, seq!["--dry-run"@]) == ParsedView::Run(
            OptionsView { dry_run: true, ..options },
        ),
        read_args(tool, options, seq!["--help"@]) is Help,
        read_args(tool, options, seq!["-h"@]) is Help,
        read_args(tool, options, seq!["--strfry-bin"@, value]) == ParsedView::Run(
            OptionsView { strfry_bin: value, ..options },
        ),
        read_args(tool, options, seq!["--local-relay"@, value]) == ParsedView::Run(
            OptionsView { local_relay: value, ..options },
        ),
        read_args(Tool::Cleaner, options, seq!["--state-file"@, value]) == ParsedView::Run(
            OptionsView { state_file: value, ..options },
        ),
        read_args(tool, options, seq!["--timeout-seconds"@, value]) == match read_number(
            value,
            u64::MAX as nat,
        ) {
            Ok(n) => ParsedView::Run(OptionsView { timeout_seconds: n as u64, ..options }),
            Err(fault) => ParsedView::Refused(
                ArgErrorView::InvalidNumber { flag: Flag::TimeoutSeconds, fault },
            ),
        },
        read_args(tool, options, seq!["--interval-seconds"@, value]) == match read_number(
            value,
            u64::MAX as nat,
        ) {
            Ok(n) => ParsedView::Run(OptionsView { interval_seconds: n as u64, ..options }),
            Err(fault) => ParsedView::Refused(
                ArgErrorView::InvalidNumber { flag: Flag::IntervalSeconds, fault },
            ),
        },
        read_args(tool, options, seq!["--rounds"@, value]) == match read_number(
            value,
            u32::MAX as nat,
        ) {
            Ok(n) => ParsedView::Run(OptionsView { rounds: n as u32, ..options }),
            Err(fault) => ParsedView::Refused(
                ArgErrorView::InvalidNumber { flag: Flag::Rounds, fault },
            ),
        },
        read_args(Tool::Cleaner, options, seq!["--failure-threshold"@, value]) == match read_number(
            value,
            u32::MAX as nat,
        ) {
            Ok(n) => ParsedView::Run(OptionsView { failure_threshold: n as u32, ..options }),
            Err(fault) => ParsedView::Refused(
                ArgErrorView::InvalidNumber { flag: Flag::FailureThreshold, fault },
            ),
        },
{
    reveal_with_fuel(read_args, 2);
    law_flags_are_known_by_their_names(tool, value);
    assert(seq!["--dry-run"@].skip(1) =~= seq![]);
    assert forall|name: Seq<char>| (#[trigger] seq![name, value]).skip(2) =~= seq![] by {}
}

/// A flag that takes a value is refused if none follows it, and an argument of another name is
/// refused with that name.
pub proof fn law_bad_arguments_are_refused(tool: Tool, options: OptionsView, arg: Seq<char>)
    ensures
        read_args(tool, options, seq!["--strfry-bin"@]) == ParsedView::Refused(
            ArgErrorView::MissingValue { flag: Flag::StrfryBin },
        ),
        read_args(Tool::Cleaner, options, seq!["--state-file"@]) == ParsedView::Refused(
            ArgErrorView::MissingValue { flag: Flag::StateFile },
        ),
        read_args(tool, options, seq!["--local-relay"@]) == ParsedView::Refused(
            ArgErrorView::MissingValue { flag: Flag::LocalRelay },
        ),
        read_args(tool, options, seq!["--timeout-seconds"@]) == ParsedView::Refused(
            ArgErrorView::MissingValue { flag: Flag::TimeoutSeconds },
        ),
        read_args(Tool::Cleaner, options, seq!["--failure-threshold"@]) == ParsedView::Refused(
            ArgErrorView::MissingValue { flag: Flag::FailureThreshold },
        ),
        read_args(tool, options, seq!["--rounds"@]) == ParsedView::Refused(
            ArgErrorView::MissingValue { flag: Flag::Rounds },
        ),
        read_args(tool, options, seq!["--interval-seconds"@]) == ParsedView::Refused(
            ArgErrorView::MissingValue { flag: Flag::IntervalSeconds },
        ),
        arg != "--strfry-bin"@ && arg != "--state-file"@ && arg != "--local-relay"@
            && arg != "--timeout-seconds"@ && arg != "--failure-threshold"@ && arg != "--rounds"@
            && arg != "--interval-seconds"@ && arg != "--dry-run"@ && arg != "--help"@
            && arg != "-h"@ ==> read_args(
            tool,
            options,
            seq![arg],
        ) == ParsedView::Refused(ArgErrorView::UnknownArgument { arg }),
        read_args(Tool::Crawler, options, seq!["--state-file"@]) == ParsedView::Refused(
            ArgErrorView::UnknownArgument { arg: "--state-file"@ },
        ),
        read_args(Tool::Crawler, options, seq!["--failure-threshold"@]) == ParsedView::Refused(
            ArgErrorView::UnknownArgument { arg: "--failure-threshold"@ },
        ),
{
    law_flags_are_known_by_their_names(tool, arg);
}

/// Whether two options differ in what `flag` sets.
spec fn differ_in(flag: Flag, a: OptionsView, b: OptionsView) -> bool {
    match flag {
        Flag::StrfryBin => a.strfry_bin != b.strfry_bin,
        Flag::StateFile => a.state_file != b.state_file,
        Flag::LocalRelay => a.local_relay != b.local_relay,
        Flag::TimeoutSeconds => a.timeout_seconds != b.timeout_seconds,
        Flag::FailureThreshold => a.failure_threshold != b.failure_threshold,
        Flag::Rounds => a.rounds != b.rounds,
        Flag::IntervalSeconds => a.interval_seconds != b.interval_seconds,
        Flag::DryRun => a.dry_run != b.dry_run,
        Flag::Help => false,
    }
}

proof fn lemma_flag_has_a_place(
    tool: Tool,
    options: OptionsView,
    args: Seq<Seq<char>>,
    end: OptionsView,
    flag: Flag,
)
    requires
        read_args(tool, options, args) == ParsedView::Run(end),
        differ_in(flag, options, end),
    ensures
        exists|i: int|
            0 <= i < args.len() && read_args(tool, options, #[trigger] args.take(i)) is Run
                && args[i] == flag_text(flag),
    decreases args.len(),
{
    if args.len() > 0 {
        let found = flag_of(tool, args[0])->0;
        assert(args.take(0) =~= seq![]);
        if found == flag {
            assert(read_args(tool, options, args.take(0)) is Run);
            assert(args[0] == flag_text(flag));
        } else {
            let h: int = if found is DryRun {
                1
            } else {
                2
            };
            let head = args.take(h);
            let rest = args.skip(h);
            assert(head[0] == args[0]);
            let next = if found is DryRun {
                OptionsView { dry_run: true, ..options }
            } else {
                options.with_value(found, args[1])->Ok_0
            };
            reveal_with_fuel(read_args, 2);
            assert(head.skip(h) =~= seq![]);
            assert(read_args(tool, options, head) == ParsedView::Run(next));
            lemma_flag_has_a_place(tool, next, rest, end, flag);
            let j = choose|j: int|
                0 <= j < rest.len() && read_args(tool, next, #[trigger] rest.take(j)) is Run
                    && rest[j] == flag_text(flag);
            law_arguments_are_read_in_turn(tool, options, head, rest.take(j));
            assert(args.take(h + j) =~= head + rest.take(j));
            assert(args[h + j] == rest[j]);
        }
    }
}

proof fn lemma_dry_run_stays(
    tool: Tool,
    options: OptionsView,
    args: Seq<Seq<char>>,
    end: OptionsView,
)
    requires
        read_args(tool, options, args) == ParsedView::Run(end),
        options.dry_run,
    ensures
        end.dry_run,
    decreases args.len(),
{
    if args.len() > 0 {
        let found = flag_of(tool, args[0])->0;
        if found is DryRun {
            lemma_dry_run_stays(
                tool,
                OptionsView { dry_run: true, ..options },
                args.skip(1),
                end,
            );
        } else {
            lemma_dry_run_stays(
                tool,
                options.with_value(found, args[1])->Ok_0,
                args.skip(2),
                end,
            );
        }
    }
}

/// A run is a dry run exactly when `--dry-run` stands in the place of a flag, wherever that is: at
/// an argument before which all others can be read to their end.
pub proof fn law_dry_run_is_asked_for_by_its_flag(
    tool: Tool,
    options: OptionsView,
    args: Seq<Seq<char>>,
    end: OptionsView,
)
    requires
        read_args(tool, options, args) == ParsedView::Run(end),
        !options.dry_run,
    ensures
        end.dry_run <==> exists|i: int|
            0 <= i < args.len() && read_args(tool, options, #[trigger] args.take(i)) is Run
                && args[i] == "--dry-run"@,
{
    if end.dry_run {
        lemma_flag_has_a_place(tool, options, args, end, Flag::DryRun);
    }
    if exists|i: int|
        0 <= i < args.len() && read_args(tool, options, #[trigger] args.take(i)) is Run && args[i]
            == "--dry-run"@ {
        let i = choose|i: int|
            0 <= i < args.len() && read_args(tool, options, #[trigger] args.take(i)) is Run
                && args[i] == "--dry-run"@;
        let next = read_args(tool, options, args.take(i))->Run_0;
        let rest = args.skip(i);
        law_arguments_are_read_in_turn(tool, options, args.take(i), rest);
        assert(args.take(i) + rest =~= args);
        assert(rest[0] == "--dry-run"@);
        law_flags_are_known_by_their_names(tool, rest[0]);
        lemma_dry_run_stays(
            tool,
            OptionsView { dry_run: true, ..next },
            rest.skip(1),
            end,
        );
    }
}

/// A setting changes only by its own flag in the place of a flag.
pub proof fn law_settings_change_only_by_their_flags(
    tool: Tool,
    options: OptionsView,
    args: Seq<Seq<char>>,
    end: OptionsView,
)
    requires
        read_args(tool, options, args) == ParsedView::Run(end),
    ensures
        end.strfry_bin != options.strfry_bin ==> exists|i: int|
            0 <= i < args.len() && read_args(tool, options, #[trigger] args.take(i)) is Run
                && args[i] == "--strfry-bin"@,
        end.state_file != options.state_file ==> exists|i: int|
            0 <= i < args.len() && read_args(tool, options, #[trigger] args.take(i)) is Run
                && args[i] == "--state-file"@,
        end.local_relay != options.local_relay ==> exists|i: int|
            0 <= i < args.len() && read_args(tool, options, #[trigger] args.take(i)) is Run
                && args[i] == "--local-relay"@,
        end.timeout_seconds != options.timeout_seconds ==> exists|i: int|
            0 <= i < args.len() && read_args(tool, options, #[trigger] args.take(i)) is Run
                && args[i] == "--timeout-seconds"@,
        end.failure_threshold != options.failure_threshold ==> exists|i: int|
            0 <= i < args.len() && read_args(tool, options, #[trigger] args.take(i)) is Run
                && args[i] == "--failure-threshold"@,
        end.rounds != options.rounds ==> exists|i: int|
            0 <= i < args.len() && read_args(tool, options, #[trigger] args.take(i)) is Run
                && args[i] == "--rounds"@,
        end.interval_seconds != options.interval_seconds ==> exists|i: int|
            0 <= i < args.len() && read_args(tool, options, #[trigger] args.take(i)) is Run
                && args[i] == "--interval-seconds"@,
        end.dry_run != options.dry_run ==> exists|i: int|
            0 <= i < args.len() && read_args(tool, options, #[trigger] args.take(i)) is Run
                && args[i] == "--dry-run"@,
{
    if end.strfry_bin != options.strfry_bin {
        lemma_flag_has_a_place(tool, options, args, end, Flag::StrfryBin);
    }
    if end.state_file != options.state_file {
        lemma_flag_has_a_place(tool, options, args, end, Flag::StateFile);
    }
    if end.local_relay != options.local_relay {
        lemma_flag_has_a_place(tool, options, args, end, Flag::LocalRelay);
    }
    if end.timeout_seconds != options.timeout_seconds {
        lemma_flag_has_a_place(tool, options, args, end, Flag::TimeoutSeconds);
    }
    if end.failure_threshold != options.failure_threshold {
        lemma_flag_has_a_place(tool, options, args, end, Flag::FailureThreshold);
    }
    if end.rounds != options.rounds {
        lemma_flag_has_a_place(tool, options, args, end, Flag::Rounds);
    }
    if end.interval_seconds != options.interval_seconds {
        lemma_flag_has_a_place(tool, options, args, end, Flag::IntervalSeconds);
    }
    if end.dry_run != options.dry_run {
        lemma_flag_has_a_place(tool, options, args, end, Flag::DryRun);
    }
}

/// The last flag that sets a setting counts, whatever other flags stand before and after it.
pub proof fn law_last_flag_counts(
    tool: Tool,
    options: OptionsView,
    before: Seq<Seq<char>>,
    name: Seq<char>,
    value: Seq<char>,
    after: Seq<Seq<char>>,
    end: OptionsView,
)
    requires
        read_args(tool, options, before) is Run,
        read_args(tool, options, before + seq![name, value] + after) == ParsedView::Run(end),
        forall|i: int|
            0 <= i < after.len() && read_args(
                tool,
                options,
                before + seq![name, value] + #[trigger] after.take(i),
            ) is Run ==> after[i] != name,
    ensures
        name == "--strfry-bin"@ ==> end.strfry_bin == value,
        name == "--state-file"@ ==> end.state_file == value,
        name == "--local-relay"@ ==> end.local_relay == value,
        name == "--timeout-seconds"@ ==> read_number(value, u64::MAX as nat) == Ok::<
            nat,
            NumberFault,
        >(end.timeout_seconds as nat),
        name == "--failure-threshold"@ ==> read_number(value, u32::MAX as nat) == Ok::<
            nat,
            NumberFault,
        >(end.failure_threshold as nat),
        name == "--rounds"@ ==> read_number(value, u32::MAX as nat) == Ok::<
            nat,
            NumberFault,
        >(end.rounds as nat),
        name == "--interval-seconds"@ ==> read_number(value, u64::MAX as nat) == Ok::<
            nat,
            NumberFault,
        >(end.interval_seconds as nat),
{
    let pair = seq![name, value];
    let next = read_args(tool, options, before)->Run_0;
    law_arguments_are_read_in_turn(tool, options, before, pair + after);
    assert(before + (pair + after) =~= before + pair + after);
    assert((pair + after)[0] == name);
    assert((pair + after)[1] == value);
    assert((pair + after).skip(2) =~= after);
    law_flags_are_known_by_their_names(tool, name);
    let known = flag_of(tool, name);
    if known is Some && !(known->0 is DryRun) && !(known->0 is Help) {
        let flag = known->0;
        let set = next.with_value(flag, value)->Ok_0;
        assert(read_args(tool, set, after) == ParsedView::Run(end));
        reveal_with_fuel(read_args, 2);
        assert(pair.skip(2) =~= seq![]);
        assert(read_args(tool, next, pair) == ParsedView::Run(set));
        law_arguments_are_read_in_turn(tool, options, before, pair);
        lemma_value_fits(value, u64::MAX as nat);
        lemma_value_fits(value, u32::MAX as nat);
        if differ_in(flag, set, end) {
            lemma_flag_has_a_place(tool, set, after, end, flag);
            let i = choose|i: int|
                0 <= i < after.len() && read_args(tool, set, #[trigger] after.take(i)) is Run
                    && after[i] == flag_text(flag);
            law_arguments_are_read_in_turn(tool, options, before + pair, after.take(i));
            assert(after[i] == name);
            assert(false);
        }
    }
}

proof fn lemma_value_fits(value: Seq<char>, max: nat)
    ensures
        read_number(value, max) matches Ok(n) ==> n <= max,
{
    if let Ok(n) = read_number(value, max) {
        law_number_is_its_decimal_value(value, max, n);
    }
}

/// A command line asks for what its arguments ask for when they are read with the defaults of the
/// tool, but neither for no rounds nor for a threshold of zero.
pub proof fn law_zero_rounds_and_thresholds_are_refused(tool: Tool, args: Seq<Seq<char>>)
    ensures
        match read_args(tool, default_options(tool), args) {
            ParsedView::Run(options) => {
                &&& options.rounds == 0 ==> command_of(tool, args) == ParsedView::Refused(
                    ArgErrorView::ZeroRounds,
                )
                &&& options.rounds > 0 && options.failure_threshold == 0 ==> command_of(tool, args)
                    == ParsedView::Refused(ArgErrorView::ZeroFailureThreshold)
                &&& options.rounds > 0 && options.failure_threshold > 0 ==> command_of(tool, args)
                    == ParsedView::Run(options)
            },
            ParsedView::Help => command_of(tool, args) is Help,
            ParsedView::Refused(error) => command_of(tool, args) == ParsedView::Refused(error),
        },
{
}

/// What a tool starts with when no flag is given.
pub proof fn law_defaults()
    ensures
        forall|tool: Tool|
            {
                let options = #[trigger] default_options(tool);
                &&& options.strfry_bin == "./strfry"@
                &&& options.state_file == "/var/lib/strfry/cvm-announcement-cleaner-state.json"@
                &&& options.local_relay == "ws://127.0.0.1:7777"@
                &&& options.timeout_seconds == 10
                &&& options.failure_threshold == 3
                &&& options.interval_seconds == 3600
                &&& !options.dry_run
            },
        default_options(Tool::Cleaner).rounds == 3,
        default_options(Tool::Crawler).rounds == 1,
{
}

/// What the user is told names the flag or the argument that is to blame.
pub proof fn law_messages_name_what_is_to_blame(flag: Flag, fault: NumberFault, arg: Seq<char>)
    ensures
        (ArgErrorView::MissingValue { flag }).message() == "missing value for "@ + flag_text(flag),
        (ArgErrorView::InvalidNumber { flag, fault }).message() == "invalid "@ + flag_text(flag),
        (ArgErrorView::UnknownArgument { arg }).message() == "unknown argument: "@ + arg,
        ArgErrorView::ZeroRounds.message() == "--rounds"@ + " must be greater than zero"@,
        ArgErrorView::ZeroFailureThreshold.message() == "--failure-threshold"@
            + " must be greater than zero"@,
{
}

/// The model of options and of errors keeps what they hold.
pub proof fn law_models_of_options_and_errors(options: Options, error: ArgError)
    ensures
        options@.strfry_bin == options.strfry_bin@,
        options@.state_file == options.state_file@,
        options@.local_relay == options.local_relay@,
        options@.timeout_seconds == options.timeout_seconds,
        options@.failure_threshold == options.failure_threshold,
        options@.rounds == options.rounds,
        options@.interval_seconds == options.interval_seconds,
        options@.dry_run == options.dry_run,
        match error {
            ArgError::MissingValue { flag } => error@ == (ArgErrorView::MissingValue { flag }),
            ArgError::InvalidNumber { flag, fault } => error@ == (ArgErrorView::InvalidNumber {
                flag,
                fault,
            }),
            ArgError::UnknownArgument { arg } => error@ == (ArgErrorView::UnknownArgument {
                arg: arg@,
            }),
            ArgError::ZeroRounds => error@ is ZeroRounds,
            ArgError::ZeroFailureThreshold => error@ is ZeroFailureThreshold,
        },
{
}

} // verus!
