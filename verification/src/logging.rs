//! The decisions of the logger: which level names are accepted, which
//! records pass a level filter, and the name of the log file.

use vstd::prelude::*;
use crate::error::{ConfigError, Error};
use crate::lang::{lowercase, to_lowercase};
use crate::text::{eq_ignore_case, is_ascii_chars, lower, owned, str_eq, upper};

verus! {

/// The level of a log record, most severe first.
#[derive(Debug, Clone, Copy, PartialEq, Eq, Structural)]
pub enum Level {
    Error,
    Warn,
    Info,
    Debug,
    Trace,
}

/// The most verbose level that a logger lets through, or none.
#[derive(Debug, Clone, Copy, PartialEq, Eq, Structural)]
pub enum LevelFilter {
    Off,
    Error,
    Warn,
    Info,
    Debug,
    Trace,
}

/// Verbosity rank: `Error` 1 up to `Trace` 5.
pub open spec fn level_rank(l: Level) -> int {
    match l {
        Level::Error => 1,
        Level::Warn => 2,
        Level::Info => 3,
        Level::Debug => 4,
        Level::Trace => 5,
    }
}

/// Verbosity rank of a filter: `Off` 0 up to `Trace` 5.
pub open spec fn filter_rank(f: LevelFilter) -> int {
    match f {
        LevelFilter::Off => 0,
        LevelFilter::Error => 1,
        LevelFilter::Warn => 2,
        LevelFilter::Info => 3,
        LevelFilter::Debug => 4,
        LevelFilter::Trace => 5,
    }
}

/// A record of level `level` passes the filter `filter`: the record is
/// at most as verbose as the filter.
pub fn enabled(filter: LevelFilter, level: Level) -> (b: bool)
    ensures
        b == (level_rank(level) <= filter_rank(filter)),
{
    match filter {
        LevelFilter::Off => false,
        LevelFilter::Error => level == Level::Error,
        LevelFilter::Warn => level == Level::Error || level == Level::Warn,
        LevelFilter::Info => level != Level::Debug && level != Level::Trace,
        LevelFilter::Debug => level != Level::Trace,
        LevelFilter::Trace => true,
    }
}

/// The filter named by a lower-cased level name.
pub open spec fn filter_named(lower: Seq<char>) -> Option<LevelFilter> {
    if lower == "trace"@ {
        Some(LevelFilter::Trace)
    } else if lower == "debug"@ {
        Some(LevelFilter::Debug)
    } else if lower == "info"@ {
        Some(LevelFilter::Info)
    } else if lower == "warn"@ {
        Some(LevelFilter::Warn)
    } else if lower == "error"@ {
        Some(LevelFilter::Error)
    } else {
        None
    }
}

proof fn lemma_lower_char(c: char, x: char)
    requires
        'a' <= x <= 'z',
    ensures
        (lower(c) == x) <==> (upper(x) == upper(c)),
{
    assert((c as u32) <= 0x10FFFF);
    if 'A' <= c && c <= 'Z' {
        assert((lower(c) as u32) == (c as u32) + 32);
        assert((upper(x) as u32) == (x as u32) - 32);
    } else if 'a' <= c && c <= 'z' {
        assert((upper(c) as u32) == (c as u32) - 32);
        assert((upper(x) as u32) == (x as u32) - 32);
    } else {
        assert((upper(x) as u32) == (x as u32) - 32);
    }
}

proof fn lemma_lower_name(l: Seq<char>, name: Seq<char>)
    requires
        forall|i: int| 0 <= i < name.len() ==> 'a' <= #[trigger] name[i] <= 'z',
    ensures
        (l.map_values(|c: char| lower(c)) == name) <==> eq_ignore_case(name, l),
{
    let m = l.map_values(|c: char| lower(c));
    assert forall|i: int| 0 <= i < name.len() && i < l.len() implies
        (#[trigger] m[i] == name[i]) <==> (upper(name[i]) == upper(l[i])) by {
        lemma_lower_char(l[i], name[i]);
    }
    if eq_ignore_case(name, l) {
        assert(m =~= name);
    }
    if m == name {
        assert forall|i: int| 0 <= i < name.len() implies #[trigger] upper(name[i]) == upper(l[i]) by {
            assert(m[i] == name[i]);
        }
    }
}

proof fn lemma_filter_named_ascii(l: Seq<char>)
    ensures
        filter_named(l.map_values(|c: char| lower(c))) is Some <==> crate::config::log_level_ok(l),
{
    reveal_strlit("trace");
    reveal_strlit("debug");
    reveal_strlit("info");
    reveal_strlit("warn");
    reveal_strlit("error");
    let names = crate::config::log_levels();
    assert forall|i: int| 0 <= i < 5 implies
        (l.map_values(|c: char| lower(c)) == #[trigger] names[i]) <==> eq_ignore_case(names[i], l) by {
        let nm = names[i];
        assert forall|j: int| 0 <= j < nm.len() implies 'a' <= #[trigger] nm[j] <= 'z' by {}
        lemma_lower_name(l, nm);
    }
    assert(names[0] == "trace"@ && names[1] == "debug"@ && names[2] == "info"@ && names[3] == "warn"@ && names[4] == "error"@);
}

/// The filter of a configured level name, compared after Unicode
/// lower-casing (`str::to_lowercase`); an unknown name is an
/// `InvalidLogLevel` error that lists the accepted names.
pub fn parse_log_level(level: &str) -> (r: Result<LevelFilter, Error>)
    ensures
        match filter_named(lowercase(level@)) {
            Some(f) => r == Ok::<LevelFilter, Error>(f),
            None => r matches Err(Error::Config(ConfigError::InvalidLogLevel { level: l, valid_levels }))
                && l@ == level@ && crate::filters::strings_view(valid_levels@) == crate::config::log_levels(),
        },
        is_ascii_chars(level@) ==> (r is Ok <==> crate::config::log_level_ok(level@)),
{
    let lowered = to_lowercase(level);
    proof {
        lemma_filter_named_ascii(level@);
    }
    let l = lowered.as_str();
    if str_eq(l, "trace") {
        Ok(LevelFilter::Trace)
    } else if str_eq(l, "debug") {
        Ok(LevelFilter::Debug)
    } else if str_eq(l, "info") {
        Ok(LevelFilter::Info)
    } else if str_eq(l, "warn") {
        Ok(LevelFilter::Warn)
    } else if str_eq(l, "error") {
        Ok(LevelFilter::Error)
    } else {
        let mut v: Vec<String> = Vec::new();
        v.push(owned("trace"));
        v.push(owned("debug"));
        v.push(owned("info"));
        v.push(owned("warn"));
        v.push(owned("error"));
        assert(crate::filters::strings_view(v@) =~= crate::config::log_levels());
        Err(Error::Config(ConfigError::InvalidLogLevel { level: owned(level), valid_levels: v }))
    }
}

/// The name of the log file: the configured stem, a dot, and the
/// configured extension or `log`.
pub fn log_file_name(stem: &str, extension: Option<&str>) -> (r: String)
    ensures
        r@ == stem@ + "."@ + match extension {
            Some(e) => e@,
            None => "log"@,
        },
{
    let mut r = owned(stem);
    r.append(".");
    match extension {
        Some(e) => r.append(e),
        None => r.append("log"),
    }
    r
}

/// The console level of the commands that do not read the configuration:
/// `Debug` with `--verbose`, else `Error` with `--quiet`, else `Info`.
pub fn simple_logging_filter(verbose: bool, quiet: bool) -> (f: LevelFilter)
    ensures
        f == if verbose {
            LevelFilter::Debug
        } else if quiet {
            LevelFilter::Error
        } else {
            LevelFilter::Info
        },
{
    if verbose {
        LevelFilter::Debug
    } else if quiet {
        LevelFilter::Error
    } else {
        LevelFilter::Info
    }
}

} // verus!
