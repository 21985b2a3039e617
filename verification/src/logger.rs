//! Log levels, which records the CLI's logger shows, and how it writes them.
use vstd::prelude::*;

use crate::lexical::{eq_ignore_ascii_case, eq_ignore_case, lower_seq};
use crate::text::{append_str, starts_with_chars, str_chars, string_from_chars};

verus! {

/// How much the logger shows, from nothing to everything.
#[derive(Debug, Clone, Copy, PartialEq, Eq, Structural)]
pub enum LogLevel {
    Off,
    Error,
    Warn,
    Info,
    Debug,
    Trace,
}

/// The severity of one record.
#[derive(Debug, Clone, Copy, PartialEq, Eq, Structural)]
pub enum Severity {
    Error,
    Warn,
    Info,
    Debug,
    Trace,
}

/// The rank of a level: higher shows more.
pub open spec fn level_rank(l: LogLevel) -> int {
    match l {
        LogLevel::Off => 0,
        LogLevel::Error => 1,
        LogLevel::Warn => 2,
        LogLevel::Info => 3,
        LogLevel::Debug => 4,
        LogLevel::Trace => 5,
    }
}

/// The rank of a severity, on the same scale.
pub open spec fn severity_rank(s: Severity) -> int {
    match s {
        Severity::Error => 1,
        Severity::Warn => 2,
        Severity::Info => 3,
        Severity::Debug => 4,
        Severity::Trace => 5,
    }
}

/// The level a name selects, ignoring case. (For these ASCII names Unicode and
/// ASCII lower-casing agree: only the Kelvin sign lower-cases to an ASCII
/// letter, `k`, which none of them holds.)
pub open spec fn level_of(s: Seq<char>) -> Option<LogLevel> {
    if eq_ignore_case(s, "off"@) {
        Some(LogLevel::Off)
    } else if eq_ignore_case(s, "error"@) {
        Some(LogLevel::Error)
    } else if eq_ignore_case(s, "warn"@) {
        Some(LogLevel::Warn)
    } else if eq_ignore_case(s, "info"@) {
        Some(LogLevel::Info)
    } else if eq_ignore_case(s, "debug"@) {
        Some(LogLevel::Debug)
    } else if eq_ignore_case(s, "trace"@) {
        Some(LogLevel::Trace)
    } else {
        None
    }
}

fn is_name(s: &[char], name: &str) -> (r: bool)
    ensures
        r == eq_ignore_case(s@, name@),
{
    let n = str_chars(name);
    eq_ignore_ascii_case(s, n.as_slice())
}

/// The level named by `level`: off, error, warn, info, debug or trace.
pub fn level_from_str(level: &str) -> (r: Option<LogLevel>)
    ensures
        r == level_of(level@),
{
    let s = str_chars(level);
    let s = s.as_slice();
    if is_name(s, "off") {
        Some(LogLevel::Off)
    } else if is_name(s, "error") {
        Some(LogLevel::Error)
    } else if is_name(s, "warn") {
        Some(LogLevel::Warn)
    } else if is_name(s, "info") {
        Some(LogLevel::Info)
    } else if is_name(s, "debug") {
        Some(LogLevel::Debug)
    } else if is_name(s, "trace") {
        Some(LogLevel::Trace)
    } else {
        None
    }
}

/// The level the CLI logs at: the one `--log-level` names (info when the name
/// is unknown), or errors only without the flag.
pub fn selected_level(flag: Option<&str>) -> (r: LogLevel)
    ensures
        r == match flag {
            Some(s) => match level_of(s@) {
                Some(l) => l,
                None => LogLevel::Info,
            },
            None => LogLevel::Error,
        },
{
    match flag {
        Some(s) => match level_from_str(s) {
            Some(l) => l,
            None => LogLevel::Info,
        },
        None => LogLevel::Error,
    }
}

fn level_rank_exec(l: LogLevel) -> (r: u8)
    ensures
        r == level_rank(l),
{
    match l {
        LogLevel::Off => 0,
        LogLevel::Error => 1,
        LogLevel::Warn => 2,
        LogLevel::Info => 3,
        LogLevel::Debug => 4,
        LogLevel::Trace => 5,
    }
}

fn severity_rank_exec(s: Severity) -> (r: u8)
    ensures
        r == severity_rank(s),
{
    match s {
        Severity::Error => 1,
        Severity::Warn => 2,
        Severity::Info => 3,
        Severity::Debug => 4,
        Severity::Trace => 5,
    }
}

/// Whether a record is shown: its severity is within the level, and it comes
/// from the CLI's own code (its target starts with `myco`).
pub open spec fn shown(level: LogLevel, severity: Severity, target: Seq<char>) -> bool {
    severity_rank(severity) <= level_rank(level) && target.len() >= 4 && target.take(4) == "myco"@
}

/// Levels nest: a record shown at one level is shown at every level that
/// shows more; `off` shows nothing; errors of the CLI show at every other
/// level, and `trace` shows every record of the CLI.
pub proof fn law_levels_nest(lower: LogLevel, higher: LogLevel, severity: Severity, target: Seq<char>)
    ensures
        level_rank(lower) <= level_rank(higher) && shown(lower, severity, target) ==> shown(higher, severity, target),
        !shown(LogLevel::Off, severity, target),
        shown(LogLevel::Trace, severity, target) == (target.len() >= 4 && target.take(4) == "myco"@),
        lower != LogLevel::Off && shown(LogLevel::Trace, severity, target) && severity == Severity::Error ==> shown(
            lower,
            severity,
            target,
        ),
        lower != higher ==> level_rank(lower) != level_rank(higher),
{
}

/// The name each level is written with.
pub open spec fn level_name(l: LogLevel) -> Seq<char> {
    match l {
        LogLevel::Off => "off"@,
        LogLevel::Error => "error"@,
        LogLevel::Warn => "warn"@,
        LogLevel::Info => "info"@,
        LogLevel::Debug => "debug"@,
        LogLevel::Trace => "trace"@,
    }
}

proof fn lemma_first_letters_differ(a: Seq<char>, b: Seq<char>)
    requires
        a.len() > 0,
        b.len() > 0,
        a[0] != b[0],
        'a' <= a[0] <= 'z',
        'a' <= b[0] <= 'z',
    ensures
        !eq_ignore_case(a, b),
{
    assert(lower_seq(a)[0] != lower_seq(b)[0]);
}

/// Each level's name selects that level.
pub proof fn law_level_names_select(l: LogLevel)
    ensures
        level_of(level_name(l)) == Some(l),
{
    reveal_strlit("off");
    reveal_strlit("error");
    reveal_strlit("warn");
    reveal_strlit("info");
    reveal_strlit("debug");
    reveal_strlit("trace");
    let names = seq!["off"@, "error"@, "warn"@, "info"@, "debug"@, "trace"@];
    assert forall|i: int, j: int| 0 <= i < 6 && 0 <= j < 6 && i != j implies !eq_ignore_case(
        #[trigger] names[i],
        #[trigger] names[j],
    ) by {
        lemma_first_letters_differ(names[i], names[j]);
    }
    assert(names[0] == "off"@ && names[1] == "error"@ && names[2] == "warn"@);
    assert(names[3] == "info"@ && names[4] == "debug"@ && names[5] == "trace"@);
}

/// Whether a record is shown at `level`.
pub fn enabled(level: LogLevel, severity: Severity, target: &str) -> (r: bool)
    ensures
        r == shown(level, severity, target@),
        r == (severity_rank(severity) <= level_rank(level) && target@.len() >= 4 && target@.take(4) == "myco"@),
{
    let t = str_chars(target);
    let p = str_chars("myco");
    proof {
        reveal_strlit("myco");
    }
    severity_rank_exec(severity) <= level_rank_exec(level) && starts_with_chars(t.as_slice(), p.as_slice())
}

/// The tag a severity is written with.
pub open spec fn severity_tag(s: Severity) -> Seq<char> {
    match s {
        Severity::Error => "ERROR"@,
        Severity::Warn => "WARN"@,
        Severity::Info => "INFO"@,
        Severity::Debug => "DEBUG"@,
        Severity::Trace => "TRACE"@,
    }
}

/// The uncoloured line for a record: `[TAG] target: message`.
pub fn log_line(severity: Severity, target: &str, message: &str) -> (r: String)
    ensures
        r@ == "["@ + severity_tag(severity) + "] "@ + target@ + ": "@ + message@,
{
    let mut out: Vec<char> = Vec::new();
    append_str(&mut out, "[");
    match severity {
        Severity::Error => append_str(&mut out, "ERROR"),
        Severity::Warn => append_str(&mut out, "WARN"),
        Severity::Info => append_str(&mut out, "INFO"),
        Severity::Debug => append_str(&mut out, "DEBUG"),
        Severity::Trace => append_str(&mut out, "TRACE"),
    }
    append_str(&mut out, "] ");
    append_str(&mut out, target);
    append_str(&mut out, ": ");
    append_str(&mut out, message);
    proof {
        assert(out@ =~= "["@ + severity_tag(severity) + "] "@ + target@ + ": "@ + message@);
    }
    string_from_chars(out.as_slice())
}

/// Errors and warnings go to standard error, the rest to standard output.
pub fn to_stderr(severity: Severity) -> (r: bool)
    ensures
        r == (severity == Severity::Error || severity == Severity::Warn),
{
    severity == Severity::Error || severity == Severity::Warn
}

} // verus!
