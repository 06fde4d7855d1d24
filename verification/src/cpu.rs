//! The load averages of `/proc/loadavg`.
use crate::text::{chars_of, split_words, string_from_chars, words};
use vstd::prelude::*;

verus! {

/// Why the load averages could not be read.
#[derive(Clone, Debug, PartialEq, Eq)]
pub struct CpuParseError(pub String);

/// Why the settings of the CPU checker are refused.
#[derive(Clone, Debug, PartialEq, Eq)]
pub enum CpuError {
    WrongCpuSettingsError(String),
}

/// The fields of `/proc/loadavg` that hold the 1, 5 and 15 minute load
/// averages: its first three words, or the message that names the first
/// one that is missing.
pub open spec fn spec_loadavg_fields(s: Seq<char>) -> Result<(Seq<char>, Seq<char>, Seq<char>), Seq<char>> {
    let w = words(s);
    if w.len() == 0 {
        Err("missing 1m"@)
    } else if w.len() == 1 {
        Err("missing 5m"@)
    } else if w.len() == 2 {
        Err("missing 15m"@)
    } else {
        Ok((w[0], w[1], w[2]))
    }
}

/// The reader of `/proc/loadavg`.
pub struct ProcLoadavg;

impl ProcLoadavg {
    /// The texts of the three load averages in `s`; see [`spec_loadavg_fields`].
    pub fn loadavg_fields(s: &str) -> (r: Result<(String, String, String), CpuParseError>)
        ensures
            match (r, spec_loadavg_fields(s@)) {
                (Ok((a, b, c)), Ok((x, y, z))) => a@ == x && b@ == y && c@ == z,
                (Err(e), Err(m)) => e.0@ == m,
                _ => false,
            },
    {
        let chars = chars_of(s);
        let w = split_words(&chars);
        assert(w@.map_values(|v: Vec<char>| v@).len() == w.len());
        if w.len() == 0 {
            return Err(CpuParseError(String::from_str("missing 1m")));
        }
        if w.len() == 1 {
            return Err(CpuParseError(String::from_str("missing 5m")));
        }
        if w.len() == 2 {
            return Err(CpuParseError(String::from_str("missing 15m")));
        }
        assert(w@.map_values(|v: Vec<char>| v@)[0] == w@[0]@);
        assert(w@.map_values(|v: Vec<char>| v@)[1] == w@[1]@);
        assert(w@.map_values(|v: Vec<char>| v@)[2] == w@[2]@);
        Ok((string_from_chars(&w[0]), string_from_chars(&w[1]), string_from_chars(&w[2])))
    }
}

} // verus!
