//! The log lines: their levels, their one shape, and the startup banner.

use vstd::prelude::*;
use vstd::string::*;

use crate::calendar;
use crate::capabilities::{SERVER_NAME, SERVER_VERSION};
use crate::jsonrpc;
use crate::numerals;
use crate::text;

verus! {

/// The level of a log line.
#[derive(Clone, Copy, Debug, PartialEq, Eq, Structural)]
pub enum Level {
    Error,
    Warn,
    Info,
    Debug,
}

/// How much a level lets through: a line passes a filter of its own level and of
/// every later one.
pub open spec fn verbosity(level: Level) -> int {
    match level {
        Level::Error => 1,
        Level::Warn => 2,
        Level::Info => 3,
        Level::Debug => 4,
    }
}

/// The name of a level.
pub open spec fn level_name(level: Level) -> Seq<char> {
    match level {
        Level::Error => "ERROR"@,
        Level::Warn => "WARN"@,
        Level::Info => "INFO"@,
        Level::Debug => "DEBUG"@,
    }
}

/// The name of a level as the `LS_LOG` variable spells it.
pub open spec fn filter_name(level: Level) -> Seq<char> {
    match level {
        Level::Error => "error"@,
        Level::Warn => "warn"@,
        Level::Info => "info"@,
        Level::Debug => "debug"@,
    }
}

impl Level {
    /// The name of the level.
    pub fn name(self) -> (name: &'static str)
        ensures
            name@ == level_name(self),
    {
        match self {
            Level::Error => "ERROR",
            Level::Warn => "WARN",
            Level::Info => "INFO",
            Level::Debug => "DEBUG",
        }
    }

    fn filter_spelling(self) -> (name: &'static str)
        ensures
            name@ == filter_name(self),
    {
        match self {
            Level::Error => "error",
            Level::Warn => "warn",
            Level::Info => "info",
            Level::Debug => "debug",
        }
    }

    fn rank(self) -> (rank: u8)
        ensures
            rank == verbosity(self),
    {
        match self {
            Level::Error => 1,
            Level::Warn => 2,
            Level::Info => 3,
            Level::Debug => 4,
        }
    }
}

/// The level that a value of `LS_LOG` selects.
pub open spec fn selected_level(value: Option<Seq<char>>) -> Level {
    match value {
        None => Level::Info,
        Some(v) => {
            let v = text::trimmed(v);
            if jsonrpc::same_ignoring_case(v, "error"@) {
                Level::Error
            } else if jsonrpc::same_ignoring_case(v, "warn"@) {
                Level::Warn
            } else if jsonrpc::same_ignoring_case(v, "debug"@) {
                Level::Debug
            } else {
                Level::Info
            }
        },
    }
}

/// What an optional string holds.
pub open spec fn optional_text(value: Option<&str>) -> Option<Seq<char>> {
    match value {
        Some(v) => Some(v@),
        None => None,
    }
}

/// The level that `LS_LOG` selects. A value that names none, and no value, select
/// the default: a misspelling never silences the log.
pub fn parse_level(value: Option<&str>) -> (level: Level)
    ensures
        level == selected_level(optional_text(value)),
{
    match value {
        None => Level::Info,
        Some(v) => {
            let v = text::trim(v);
            if jsonrpc::equal_ignoring_case(v.as_str(), "error") {
                Level::Error
            } else if jsonrpc::equal_ignoring_case(v.as_str(), "warn") {
                Level::Warn
            } else if jsonrpc::equal_ignoring_case(v.as_str(), "debug") {
                Level::Debug
            } else {
                Level::Info
            }
        },
    }
}

/// Whether a line of a level passes a filter.
pub fn enabled(filter: Level, level: Level) -> (passes: bool)
    ensures
        passes == (verbosity(level) <= verbosity(filter)),
{
    level.rank() <= filter.rank()
}

/// A log line.
pub open spec fn line_text(
    elapsed_millis: nat,
    level: Level,
    area: Seq<char>,
    message: Seq<char>,
) -> Seq<char> {
    "[+"@ + numerals::decimal(elapsed_millis / 1000) + "."@ + numerals::padded(
        elapsed_millis % 1000,
        3,
    ) + " "@ + level_name(level) + " "@ + area + "] "@ + message
}

/// A log line: the time since the start of the process, the level, the area and
/// the message.
pub fn format_line(elapsed_millis: u64, level: Level, area: &str, message: &str) -> (line: String)
    ensures
        line@ == line_text(elapsed_millis as nat, level, area@, message@),
{
    let mut line = "[+".to_owned();
    text::push_text(&mut line, numerals::numeral(elapsed_millis / 1000).as_str());
    text::push_text(&mut line, ".");
    text::push_text(&mut line, numerals::padded_numeral(elapsed_millis % 1000, 3).as_str());
    text::push_text(&mut line, " ");
    text::push_text(&mut line, level.name());
    text::push_text(&mut line, " ");
    text::push_text(&mut line, area);
    text::push_text(&mut line, "] ");
    text::push_text(&mut line, message);
    line
}

/// An instant in UTC, of a date and the seconds since midnight.
pub open spec fn instant_text(year: nat, month: nat, day: nat, seconds: nat) -> Seq<char> {
    numerals::padded(year, 4) + "-"@ + numerals::padded(month, 2) + "-"@ + numerals::padded(day, 2)
        + "T"@ + numerals::padded(seconds / 3600, 2) + ":"@ + numerals::padded(
        seconds % 3600 / 60,
        2,
    ) + ":"@ + numerals::padded(seconds % 60, 2) + "Z"@
}

/// `line` is the instant that lies `seconds` seconds behind the beginning of 1970.
pub open spec fn is_instant(seconds: nat, line: Seq<char>) -> bool {
    exists|year: nat, month: nat, day: nat| #[trigger]
        calendar::is_date(
            (seconds / 86400) as int,
            year as int,
            month as int,
            day as int,
        ) && line == instant_text(year, month, day, seconds % 86400)
}

/// The instant that lies a number of seconds behind the beginning of 1970, as
/// `YYYY-MM-DDTHH:MM:SSZ`.
pub fn utc_rfc3339(seconds: u64) -> (line: String)
    ensures
        is_instant(seconds as nat, line@),
{
    let (year, month, day) = calendar::civil(seconds / 86400);
    let rest = seconds % 86400;
    let mut line = numerals::padded_numeral(year, 4);
    text::push_text(&mut line, "-");
    text::push_text(&mut line, numerals::padded_numeral(month, 2).as_str());
    text::push_text(&mut line, "-");
    text::push_text(&mut line, numerals::padded_numeral(day, 2).as_str());
    text::push_text(&mut line, "T");
    text::push_text(&mut line, numerals::padded_numeral(rest / 3600, 2).as_str());
    text::push_text(&mut line, ":");
    text::push_text(&mut line, numerals::padded_numeral(rest % 3600 / 60, 2).as_str());
    text::push_text(&mut line, ":");
    text::push_text(&mut line, numerals::padded_numeral(rest % 60, 2).as_str());
    text::push_text(&mut line, "Z");
    proof {
        assert(calendar::is_date(
            (seconds as nat / 86400) as int,
            (year as nat) as int,
            (month as nat) as int,
            (day as nat) as int,
        ));
    }
    line
}

/// An instant has only one rendering.
pub proof fn law_instant_unique(seconds: nat, a: Seq<char>, b: Seq<char>)
    requires
        is_instant(seconds, a),
        is_instant(seconds, b),
    ensures
        a == b,
{
    let days = (seconds / 86400) as int;
    let (y, m, d) = choose|year: nat, month: nat, day: nat| #[trigger]
        calendar::is_date(days, year as int, month as int, day as int) && a == instant_text(
            year,
            month,
            day,
            seconds % 86400,
        );
    let (y2, m2, d2) = choose|year: nat, month: nat, day: nat| #[trigger]
        calendar::is_date(days, year as int, month as int, day as int) && b == instant_text(
            year,
            month,
            day,
            seconds % 86400,
        );
    calendar::law_date_unique(
        days,
        y as int,
        m as int,
        d as int,
        y2 as int,
        m2 as int,
        d2 as int,
    );
}

/// The startup banner, around the instant at which the process started.
pub open spec fn banner_text(
    pid: nat,
    started: Seq<char>,
    mode: Seq<char>,
    level: Level,
    file: Option<Seq<char>>,
) -> Seq<char> {
    "[+0.000 INFO serve] "@ + SERVER_NAME@ + " "@ + SERVER_VERSION@ + " pid="@ + numerals::decimal(
        pid,
    ) + " started "@ + started + " mode="@ + mode + " LS_LOG="@ + filter_name(level)
        + " LS_LOG_FILE="@ + match file {
        Some(path) => path,
        None => "(unset)"@,
    }
}

/// The startup banner: the server, the process, the time of its start, its mode
/// and the log configuration.
pub fn banner_line(
    pid: u32,
    started_seconds: u64,
    mode: &str,
    level: Level,
    file: Option<&str>,
) -> (line: String)
    ensures
        exists|started: Seq<char>| #[trigger]
            is_instant(started_seconds as nat, started) && line@ == banner_text(
                pid as nat,
                started,
                mode@,
                level,
                optional_text(file),
            ),
{
    let started = utc_rfc3339(started_seconds);
    let mut line = "[+0.000 INFO serve] ".to_owned();
    text::push_text(&mut line, SERVER_NAME);
    text::push_text(&mut line, " ");
    text::push_text(&mut line, SERVER_VERSION);
    text::push_text(&mut line, " pid=");
    text::push_text(&mut line, numerals::numeral(pid as u64).as_str());
    text::push_text(&mut line, " started ");
    text::push_text(&mut line, started.as_str());
    text::push_text(&mut line, " mode=");
    text::push_text(&mut line, mode);
    text::push_text(&mut line, " LS_LOG=");
    text::push_text(&mut line, level.filter_spelling());
    text::push_text(&mut line, " LS_LOG_FILE=");
    match file {
        Some(path) => {
            text::push_text(&mut line, path);
        },
        None => {
            text::push_text(&mut line, "(unset)");
        },
    }
    line
}

/// A line for the log: its level, the part of the server that it is about, and its text.
#[derive(Debug, PartialEq, Eq)]
pub struct LogRecord {
    pub level: Level,
    pub area: String,
    pub message: String,
}

impl LogRecord {
    /// The record holds these.
    pub open spec fn says(self, level: Level, area: Seq<char>, message: Seq<char>) -> bool {
        self.level == level && self.area@ == area && self.message@ == message
    }
}

/// Which lines are written, and whether a failure to write the file was reported.
#[derive(Debug, PartialEq, Eq)]
pub struct LogSink {
    pub level: Level,
    pub file_warned: bool,
}

impl LogSink {
    /// A sink with the given filter.
    pub fn new(level: Level) -> (sink: LogSink)
        ensures
            sink == (LogSink { level, file_warned: false }),
    {
        LogSink { level, file_warned: false }
    }

    /// The line of a record, unless the filter drops it.
    pub fn line_for(&self, elapsed_millis: u64, record: &LogRecord) -> (line: Option<String>)
        ensures
            match line {
                Some(line) => verbosity(record.level) <= verbosity(self.level) && line@
                    == line_text(elapsed_millis as nat, record.level, record.area@, record.message@),
                None => verbosity(record.level) > verbosity(self.level),
            },
    {
        if enabled(self.level, record.level) {
            Some(
                format_line(
                    elapsed_millis,
                    record.level,
                    record.area.as_str(),
                    record.message.as_str(),
                ),
            )
        } else {
            None
        }
    }

    /// Writing the file failed. Only the first failure is reported.
    pub fn file_failed(&mut self) -> (report: bool)
        ensures
            report == !old(self).file_warned,
            *final(self) == (LogSink { level: old(self).level, file_warned: true }),
    {
        let report = !self.file_warned;
        self.file_warned = true;
        report
    }
}

/// An error passes every filter, a warning all but that of errors, and so on: a filter lets
/// through its own level and what is more urgent.
pub proof fn law_levels_ordered()
    ensures
        verbosity(Level::Error) < verbosity(Level::Warn),
        verbosity(Level::Warn) < verbosity(Level::Info),
        verbosity(Level::Info) < verbosity(Level::Debug),
{
}

/// `LS_LOG` selects the level that it names in any case and with white space around it, and the
/// default where it names none of them or is not set.
pub proof fn law_level_selected(value: Seq<char>)
    ensures
        selected_level(None) is Info,
        jsonrpc::same_ignoring_case(text::trimmed(value), "error"@) ==> selected_level(Some(value))
            is Error,
        jsonrpc::same_ignoring_case(text::trimmed(value), "warn"@) ==> selected_level(Some(value))
            is Warn,
        jsonrpc::same_ignoring_case(text::trimmed(value), "debug"@) ==> selected_level(Some(value))
            is Debug,
        !jsonrpc::same_ignoring_case(text::trimmed(value), "error"@)
            && !jsonrpc::same_ignoring_case(text::trimmed(value), "warn"@)
            && !jsonrpc::same_ignoring_case(text::trimmed(value), "debug"@) ==> selected_level(
            Some(value),
        ) is Info,
{
    reveal_strlit("error");
    reveal_strlit("warn");
    reveal_strlit("debug");
    assert("error"@.len() == 5 && "warn"@.len() == 4 && "debug"@.len() == 5);
    assert("error"@[0] == 'e' && "debug"@[0] == 'd');
    if jsonrpc::same_ignoring_case(text::trimmed(value), "debug"@) {
        assert(jsonrpc::lower(text::trimmed(value)[0]) == jsonrpc::lower("debug"@[0]));
        assert(jsonrpc::lower("debug"@[0]) != jsonrpc::lower("error"@[0]));
    }
}

/// A log line begins with the whole and the thousandth seconds since the start, in that order,
/// then tells its level and its area, and ends with its message.
pub proof fn law_line_tells(seconds: nat, millis: nat, level: Level, area: Seq<char>, message: Seq<char>)
    requires
        millis < 1000,
    ensures
        line_text(seconds * 1000 + millis, level, area, message) == "[+"@ + numerals::decimal(
            seconds,
        ) + "."@ + numerals::padded(millis, 3) + " "@ + (if level is Error {
            "ERROR"@
        } else if level is Warn {
            "WARN"@
        } else if level is Info {
            "INFO"@
        } else {
            "DEBUG"@
        }) + " "@ + area + "] "@ + message,
{
    let elapsed = seconds * 1000 + millis;
    assert(elapsed / 1000 == seconds && elapsed % 1000 == millis);
}

/// An instant tells the date and the time of day: hours, minutes and seconds.
pub proof fn law_instant_tells(
    year: nat,
    month: nat,
    day: nat,
    hours: nat,
    minutes: nat,
    seconds: nat,
)
    requires
        minutes < 60,
        seconds < 60,
    ensures
        instant_text(year, month, day, hours * 3600 + minutes * 60 + seconds) == numerals::padded(
            year,
            4,
        ) + "-"@ + numerals::padded(month, 2) + "-"@ + numerals::padded(day, 2) + "T"@
            + numerals::padded(hours, 2) + ":"@ + numerals::padded(minutes, 2) + ":"@
            + numerals::padded(seconds, 2) + "Z"@,
{
    let all = hours * 3600 + minutes * 60 + seconds;
    assert(all / 3600 == hours);
    assert(all % 3600 == minutes * 60 + seconds);
    assert(all % 3600 / 60 == minutes);
    assert(all % 60 == seconds);
}

/// The banner tells the server, its process, when it started, its mode, its level and its log
/// file.
pub proof fn law_banner_tells(
    pid: nat,
    started: Seq<char>,
    mode: Seq<char>,
    level: Level,
    file: Option<Seq<char>>,
)
    ensures
        ({
            let told = banner_text(pid, started, mode, level, file);
            &&& text::occurs(" pid="@ + numerals::decimal(pid) + " "@, told)
            &&& text::occurs(" started "@ + started + " "@, told)
            &&& text::occurs(" mode="@ + mode + " "@, told)
            &&& level is Debug ==> text::occurs(" LS_LOG=debug "@, told)
            &&& level is Info ==> text::occurs(" LS_LOG=info "@, told)
            &&& level is Warn ==> text::occurs(" LS_LOG=warn "@, told)
            &&& level is Error ==> text::occurs(" LS_LOG=error "@, told)
            &&& file matches Some(path) ==> exists|head: Seq<char>|
                told == #[trigger] (head + (" LS_LOG_FILE="@ + path))
            &&& file is None ==> exists|head: Seq<char>|
                told == #[trigger] (head + " LS_LOG_FILE=(unset)"@)
        }),
{
    let told = banner_text(pid, started, mode, level, file);
    let a = "[+0.000 INFO serve] "@ + SERVER_NAME@ + " "@ + SERVER_VERSION@;
    let p = " pid="@ + numerals::decimal(pid);
    let s = " started "@ + started;
    let m = " mode="@ + mode;
    let l = " LS_LOG="@ + filter_name(level);
    let f = " LS_LOG_FILE="@ + (match file {
        Some(path) => path,
        None => "(unset)"@,
    });
    assert(told =~= a + p + s + m + l + f);
    reveal_strlit(" ");
    reveal_strlit(" started ");
    reveal_strlit(" mode=");
    reveal_strlit(" LS_LOG=");
    reveal_strlit(" LS_LOG_FILE=");
    reveal_strlit("(unset)");
    reveal_strlit(" LS_LOG_FILE=(unset)");
    reveal_strlit("debug");
    reveal_strlit("info");
    reveal_strlit("warn");
    reveal_strlit("error");
    reveal_strlit(" LS_LOG=debug ");
    reveal_strlit(" LS_LOG=info ");
    reveal_strlit(" LS_LOG=warn ");
    reveal_strlit(" LS_LOG=error ");
    lemma_told_before(a, p, s, m + l + f);
    lemma_told_before(a + p, s, m, l + f);
    lemma_told_before(a + p + s, m, l, f);
    lemma_told_before(a + p + s + m, l, f, seq![]);
    assert(told =~= a + p + s + (m + l + f));
    assert(told =~= (a + p) + s + m + (l + f));
    assert(told =~= (a + p + s + m) + l + f + seq![]);
    assert(level is Debug ==> l + " "@ =~= " LS_LOG=debug "@);
    assert(level is Info ==> l + " "@ =~= " LS_LOG=info "@);
    assert(level is Warn ==> l + " "@ =~= " LS_LOG=warn "@);
    assert(level is Error ==> l + " "@ =~= " LS_LOG=error "@);
    let head = a + p + s + m + l;
    assert(told == head + f);
    assert(file is None ==> f =~= " LS_LOG_FILE=(unset)"@);
}

proof fn lemma_told_before(before: Seq<char>, part: Seq<char>, next: Seq<char>, after: Seq<char>)
    requires
        next.len() > 0,
        next[0] == ' ',
    ensures
        text::occurs(part + " "@, before + part + next + after),
{
    reveal_strlit(" ");
    assert(" "@ =~= seq![' ']);
    let rest = next.drop_first() + after;
    text::lemma_occurs_within(before, part + " "@, rest);
    assert(before + part + next + after =~= before + (part + " "@) + rest);
}

} // verus!
