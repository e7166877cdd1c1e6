//! Log-filter composition: the directive each binary installs, from the
//! configured levels, the `-v` count and an optional `RUST_LOG` override.

use vstd::prelude::*;
use crate::config::LoggingConfig;
use crate::text::{concat, owned, push_str};

verus! {

/// Which binary is logging.
#[derive(Debug, Clone, Copy, PartialEq, Eq, Structural)]
pub enum BinaryKind {
    Hmnd,
    Hmn,
    HmnMcp,
}

/// A tracing level, from most to least severe.
#[derive(Debug, Clone, Copy, PartialEq, Eq, Structural)]
pub enum LogLevel {
    Error,
    Warn,
    Info,
    Debug,
    Trace,
}

pub open spec fn level_rank(l: LogLevel) -> int {
    match l {
        LogLevel::Error => 0,
        LogLevel::Warn => 1,
        LogLevel::Info => 2,
        LogLevel::Debug => 3,
        LogLevel::Trace => 4,
    }
}

pub open spec fn level_at(r: int) -> LogLevel {
    if r <= 0 {
        LogLevel::Error
    } else if r == 1 {
        LogLevel::Warn
    } else if r == 2 {
        LogLevel::Info
    } else if r == 3 {
        LogLevel::Debug
    } else {
        LogLevel::Trace
    }
}

pub open spec fn level_text(l: LogLevel) -> Seq<char> {
    match l {
        LogLevel::Error => "error"@,
        LogLevel::Warn => "warn"@,
        LogLevel::Info => "info"@,
        LogLevel::Debug => "debug"@,
        LogLevel::Trace => "trace"@,
    }
}

// ---------------------------------------------------------------------------
// What `tracing::Level` accepts
// ---------------------------------------------------------------------------

pub open spec fn is_digit(c: char) -> bool {
    '0' <= c && c <= '9'
}

/// The value of a run of decimal digits.
pub open spec fn digits_value(d: Seq<char>) -> int
    decreases d.len(),
{
    if d.len() == 0 {
        0
    } else {
        digits_value(d.drop_last()) * 10 + (d.last() as int - '0' as int)
    }
}

/// The value of an unsigned decimal numeral, with an optional leading `+`.
pub open spec fn numeral_value(s: Seq<char>) -> Option<int> {
    let d = if s.len() > 0 && s[0] == '+' {
        s.drop_first()
    } else {
        s
    };
    if d.len() > 0 && forall|i: int| 0 <= i < d.len() ==> is_digit(#[trigger] d[i]) {
        Some(digits_value(d))
    } else {
        None
    }
}

pub open spec fn ascii_lower(c: char) -> char {
    if 'A' <= c && c <= 'Z' {
        ((c as u32) + 32) as char
    } else {
        c
    }
}

/// Equality up to ASCII case.
pub open spec fn eq_ignore_ascii_case(s: Seq<char>, t: Seq<char>) -> bool {
    s.len() == t.len() && forall|i: int| 0 <= i < s.len() ==> ascii_lower(#[trigger] s[i]) == ascii_lower(t[i])
}

/// The level a text names: a numeral from 1 (error) to 5 (trace), or a
/// level name in any ASCII case.
pub open spec fn level_of_text(s: Seq<char>) -> Option<LogLevel> {
    match numeral_value(s) {
        Some(n) if 1 <= n <= 5 => Some(level_at(n - 1)),
        _ => if eq_ignore_ascii_case(s, "error"@) {
            Some(LogLevel::Error)
        } else if eq_ignore_ascii_case(s, "warn"@) {
            Some(LogLevel::Warn)
        } else if eq_ignore_ascii_case(s, "info"@) {
            Some(LogLevel::Info)
        } else if eq_ignore_ascii_case(s, "debug"@) {
            Some(LogLevel::Debug)
        } else if eq_ignore_ascii_case(s, "trace"@) {
            Some(LogLevel::Trace)
        } else {
            None
        },
    }
}

/// The rendering of `tracing`'s level-parse error.
pub open spec fn parse_level_error_text() -> Seq<char> {
    "error parsing level: expected one of \"error\", \"warn\", \"info\", \"debug\", \"trace\", or a number 1-5"@
}

/// `tracing::Level::from_str`: a numeral 1-5, or a level name in any ASCII
/// case; on failure, the rendering of its error.
#[verifier::external_body]
fn parse_tracing_level(s: &str) -> (r: Result<LogLevel, String>)
    ensures
        match r {
            Ok(l) => level_of_text(s@) == Some(l),
            Err(m) => level_of_text(s@) is None && m@ == parse_level_error_text(),
        },
{
    match s.parse::<tracing::Level>() {
        Ok(tracing::Level::ERROR) => Ok(LogLevel::Error),
        Ok(tracing::Level::WARN) => Ok(LogLevel::Warn),
        Ok(tracing::Level::INFO) => Ok(LogLevel::Info),
        Ok(tracing::Level::DEBUG) => Ok(LogLevel::Debug),
        Ok(_) => Ok(LogLevel::Trace),
        Err(e) => Err(e.to_string()),
    }
}

/// Parses a configured level.
pub fn parse_log_level(s: &str) -> (r: Result<LogLevel, String>)
    ensures
        match r {
            Ok(l) => level_of_text(s@) == Some(l),
            Err(m) => level_of_text(s@) is None && m@ == parse_level_error_text(),
        },
{
    parse_tracing_level(s)
}

// ---------------------------------------------------------------------------
// Composing the filter
// ---------------------------------------------------------------------------

/// `base` made more verbose by `verbose` steps, stopping at trace.
pub open spec fn bump_spec(base: LogLevel, verbose: int) -> LogLevel {
    level_at(if level_rank(base) + verbose >= 4 {
        4
    } else {
        level_rank(base) + verbose
    })
}

/// Raises `base` by `verbose` steps of verbosity, capped at trace.
pub fn bump(base: LogLevel, verbose: u8) -> (l: LogLevel)
    ensures
        l == bump_spec(base, verbose as int),
{
    let mut level = base;
    let mut i: u8 = 0;
    while i < verbose
        invariant
            i <= verbose,
            level == bump_spec(base, i as int),
        decreases verbose - i,
    {
        level = match level {
            LogLevel::Error => LogLevel::Warn,
            LogLevel::Warn => LogLevel::Info,
            LogLevel::Info => LogLevel::Debug,
            LogLevel::Debug => LogLevel::Trace,
            LogLevel::Trace => LogLevel::Trace,
        };
        i += 1;
    }
    level
}

/// The directive name of a level.
pub fn level_str(level: LogLevel) -> (s: &'static str)
    ensures
        s@ == level_text(level),
{
    match level {
        LogLevel::Error => "error",
        LogLevel::Warn => "warn",
        LogLevel::Info => "info",
        LogLevel::Debug => "debug",
        LogLevel::Trace => "trace",
    }
}

/// The filter directive a binary installs. `RUST_LOG`, when set, replaces
/// it whole. The daemon raises its own targets from the configured level
/// (info when that does not parse) and passes the watcher and runtime
/// levels through; the clients raise theirs from warn.
pub open spec fn compose_filter_spec(
    level: Seq<char>,
    notify_level: Seq<char>,
    tokio_level: Seq<char>,
    verbose: int,
    binary: BinaryKind,
    rust_log: Option<Seq<char>>,
) -> Seq<char> {
    match rust_log {
        Some(rl) => rl,
        None => match binary {
            BinaryKind::Hmnd => {
                let base = match level_of_text(level) {
                    Some(l) => l,
                    None => LogLevel::Info,
                };
                let b = level_text(bump_spec(base, verbose));
                "hypomnema="@ + b + ",hmnd="@ + b + ",notify="@ + notify_level + ",tokio="@
                    + tokio_level
            },
            _ => {
                let b = level_text(bump_spec(LogLevel::Warn, verbose));
                "error,hypomnema="@ + b + ",hmn="@ + b
            },
        },
    }
}

/// Composes the log-filter directive.
pub fn compose_filter(config: &LoggingConfig, verbose: u8, binary: BinaryKind, rust_log: Option<&str>) -> (s:
    String)
    ensures
        s@ == compose_filter_spec(
            config.level@,
            config.notify_level@,
            config.tokio_level@,
            verbose as int,
            binary,
            match rust_log {
                Some(r) => Some(r@),
                None => None,
            },
        ),
{
    if let Some(rl) = rust_log {
        return owned(rl);
    }
    match binary {
        BinaryKind::Hmnd => {
            let base = match parse_log_level(config.level.as_str()) {
                Ok(l) => l,
                Err(_) => LogLevel::Info,
            };
            let bumped = level_str(bump(base, verbose));
            let mut s = concat("hypomnema=", bumped);
            push_str(&mut s, ",hmnd=");
            push_str(&mut s, bumped);
            push_str(&mut s, ",notify=");
            push_str(&mut s, config.notify_level.as_str());
            push_str(&mut s, ",tokio=");
            push_str(&mut s, config.tokio_level.as_str());
            s
        },
        _ => {
            let bumped = level_str(bump(LogLevel::Warn, verbose));
            let mut s = concat("error,hypomnema=", bumped);
            push_str(&mut s, ",hmn=");
            push_str(&mut s, bumped);
            s
        },
    }
}

/// An override of the whole directive replaces it, whatever the binary,
/// the verbosity and the configuration.
pub proof fn law_rust_log_overrides(
    level: Seq<char>,
    notify_level: Seq<char>,
    tokio_level: Seq<char>,
    verbose: int,
    binary: BinaryKind,
    rl: Seq<char>,
)
    ensures
        compose_filter_spec(level, notify_level, tokio_level, verbose, binary, Some(rl)) == rl,
{
}

/// Verbosity never lowers a level, and three steps from warn reach trace.
pub proof fn law_bump_monotone(base: LogLevel, v: int, w: int)
    requires
        0 <= v <= w,
    ensures
        level_rank(bump_spec(base, v)) <= level_rank(bump_spec(base, w)),
        level_rank(bump_spec(base, v)) >= level_rank(base),
        bump_spec(LogLevel::Warn, 3) == LogLevel::Trace,
{
}

} // verus!
