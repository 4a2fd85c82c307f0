//! Log level values and their parsing.
//!
//! Levels arrive from the calling layer either as small numbers or as
//! level names in any letter case; parsing is total, falling back to the
//! default level where a name is not recognized.

use vstd::prelude::*;

verus! {

/// A log statement's level.
#[derive(Clone, Copy, Debug, PartialEq, Eq, Structural)]
pub enum Level {
    Error,
    Warn,
    Info,
    Debug,
    Trace,
}

/// A verbosity threshold: a level, or off entirely.
#[derive(Clone, Copy, Debug, PartialEq, Eq, Structural)]
pub enum LevelFilter {
    Off,
    Error,
    Warn,
    Info,
    Debug,
    Trace,
}

impl LevelFilter {
    /// The canonical name of the threshold, as saved configurations and
    /// logging backends spell it.
    pub fn name(&self) -> (r: &'static str)
        ensures
            r@ == level_filter_name(*self),
    {
        match self {
            LevelFilter::Off => "OFF",
            LevelFilter::Error => "ERROR",
            LevelFilter::Warn => "WARN",
            LevelFilter::Info => "INFO",
            LevelFilter::Debug => "DEBUG",
            LevelFilter::Trace => "TRACE",
        }
    }
}

/// The level a level number denotes, if any: the numbers count up from
/// the most severe level.
pub open spec fn level_from_usize_spec(n: usize) -> Option<Level> {
    if n == 1 {
        Some(Level::Error)
    } else if n == 2 {
        Some(Level::Warn)
    } else if n == 3 {
        Some(Level::Info)
    } else if n == 4 {
        Some(Level::Debug)
    } else if n == 5 {
        Some(Level::Trace)
    } else {
        None
    }
}

/// A character folded to upper case, for the ASCII letters alone.
pub open spec fn ascii_upper_char(c: char) -> char {
    if 'a' <= c && c <= 'z' {
        ((c as u8) - 0x20) as char
    } else {
        c
    }
}

/// A character sequence folded to upper case, ASCII letters alone.
pub open spec fn ascii_upper(s: Seq<char>) -> Seq<char> {
    s.map_values(|c: char| ascii_upper_char(c))
}

/// The verbosity threshold a name denotes, compared without regard to
/// ASCII letter case; an unrecognized name falls back to the default
/// level.
pub open spec fn level_filter_of_string(s: Seq<char>) -> LevelFilter {
    let u = ascii_upper(s);
    if u == "OFF"@ {
        LevelFilter::Off
    } else if u == "ERROR"@ {
        LevelFilter::Error
    } else if u == "WARN"@ {
        LevelFilter::Warn
    } else if u == "INFO"@ {
        LevelFilter::Info
    } else if u == "DEBUG"@ {
        LevelFilter::Debug
    } else if u == "TRACE"@ {
        LevelFilter::Trace
    } else {
        LevelFilter::Info
    }
}

/// The canonical name of a verbosity threshold.
pub open spec fn level_filter_name(f: LevelFilter) -> Seq<char> {
    match f {
        LevelFilter::Off => "OFF"@,
        LevelFilter::Error => "ERROR"@,
        LevelFilter::Warn => "WARN"@,
        LevelFilter::Info => "INFO"@,
        LevelFilter::Debug => "DEBUG"@,
        LevelFilter::Trace => "TRACE"@,
    }
}

/// Fold one character to upper case, for the ASCII letters alone.
fn ascii_upper_char_exec(c: char) -> (r: char)
    ensures
        r == ascii_upper_char(c),
{
    if 'a' <= c && c <= 'z' {
        ((c as u8) - 0x20) as char
    } else {
        c
    }
}

/// Whether two strings are equal once both are folded to upper case,
/// ASCII letters alone.
fn eq_ignore_ascii_case_str(s: &str, t: &str) -> (r: bool)
    ensures
        r == (ascii_upper(s@) == ascii_upper(t@)),
{
    let n: usize = s.unicode_len();
    let m: usize = t.unicode_len();
    if n != m {
        proof {
            assert(ascii_upper(s@).len() != ascii_upper(t@).len());
        }
        return false;
    }
    let mut i: usize = 0;
    while i < n
        invariant
            n == s@.len(),
            n == t@.len(),
            0 <= i <= n,
            forall|k: int| 0 <= k < i ==> ascii_upper(s@)[k] == ascii_upper(t@)[k],
        decreases n - i,
    {
        let a = ascii_upper_char_exec(s.get_char(i));
        let b = ascii_upper_char_exec(t.get_char(i));
        if a != b {
            proof {
                assert(ascii_upper(s@)[i as int] != ascii_upper(t@)[i as int]);
            }
            return false;
        }
        i = i + 1;
    }
    proof {
        assert(ascii_upper(s@) =~= ascii_upper(t@));
    }
    true
}

/// The level a level number denotes; a number outside the known range
/// is an error, reported with the message the callers hand on.
pub fn get_level_from_usize(level_number: usize) -> (r: Result<Level, String>)
    ensures
        r is Ok <==> level_from_usize_spec(level_number) is Some,
        r is Ok ==> Some(r->Ok_0) == level_from_usize_spec(level_number),
        r is Err ==> r->Err_0@ == "Received invalid log level number."@,
{
    match level_number {
        1 => Ok(Level::Error),
        2 => Ok(Level::Warn),
        3 => Ok(Level::Info),
        4 => Ok(Level::Debug),
        5 => Ok(Level::Trace),
        _ => Err(String::from_str("Received invalid log level number.")),
    }
}

/// The verbosity threshold a name denotes, without regard to ASCII
/// letter case; an unrecognized name yields the default level.
pub fn get_level_or_default_from_string(level_as_string: &str) -> (r: LevelFilter)
    ensures
        r == level_filter_of_string(level_as_string@),
{
    proof {
        reveal_strlit("OFF");
        reveal_strlit("ERROR");
        reveal_strlit("WARN");
        reveal_strlit("INFO");
        reveal_strlit("DEBUG");
        reveal_strlit("TRACE");
        lemma_upper_fixed("OFF"@);
        lemma_upper_fixed("ERROR"@);
        lemma_upper_fixed("WARN"@);
        lemma_upper_fixed("INFO"@);
        lemma_upper_fixed("DEBUG"@);
        lemma_upper_fixed("TRACE"@);
    }
    if eq_ignore_ascii_case_str(level_as_string, "OFF") {
        LevelFilter::Off
    } else if eq_ignore_ascii_case_str(level_as_string, "ERROR") {
        LevelFilter::Error
    } else if eq_ignore_ascii_case_str(level_as_string, "WARN") {
        LevelFilter::Warn
    } else if eq_ignore_ascii_case_str(level_as_string, "INFO") {
        LevelFilter::Info
    } else if eq_ignore_ascii_case_str(level_as_string, "DEBUG") {
        LevelFilter::Debug
    } else if eq_ignore_ascii_case_str(level_as_string, "TRACE") {
        LevelFilter::Trace
    } else {
        LevelFilter::Info
    }
}

/// Folding to upper case leaves a string without ASCII lower-case
/// letters as it is.
proof fn lemma_upper_fixed(s: Seq<char>)
    requires
        forall|k: int| 0 <= k < s.len() ==> !('a' <= #[trigger] s[k] && s[k] <= 'z'),
    ensures
        ascii_upper(s) == s,
{
    assert(ascii_upper(s) =~= s);
}

} // verus!
