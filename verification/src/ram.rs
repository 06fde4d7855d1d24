//! The memory figures of `/proc/meminfo`.
use crate::text::{chars_of, has_prefix, lines, split_lines, split_words, starts_with, string_from_chars, words};
use vstd::prelude::*;

verus! {

/// Why the settings of the RAM checker are refused.
#[derive(Clone, Debug, PartialEq, Eq)]
pub struct WrongRamSettingsError(pub String);

/// The second word of `line`, which holds the figure of a `/proc/meminfo` line.
pub open spec fn spec_kb_field(line: Seq<char>) -> Option<Seq<char>> {
    if words(line).len() > 1 {
        Some(words(line)[1])
    } else {
        None
    }
}

/// The figure of the last of the lines `ls` that begins with `key`.
pub open spec fn spec_last_field(ls: Seq<Seq<char>>, key: Seq<char>) -> Option<Seq<char>>
    decreases ls.len(),
{
    if ls.len() == 0 {
        None
    } else if has_prefix(ls.last(), key) {
        spec_kb_field(ls.last())
    } else {
        spec_last_field(ls.drop_last(), key)
    }
}

/// The reader of `/proc/meminfo`.
pub struct ProcMeminfo;

impl ProcMeminfo {
    /// The figure of a `/proc/meminfo` line: its second word.
    pub fn kb_field(line: &[char]) -> (r: Option<String>)
        ensures
            r.deep_view() == spec_kb_field(line@),
    {
        let w = split_words(line);
        assert(w@.map_values(|v: Vec<char>| v@).len() == w.len());
        if w.len() > 1 {
            assert(w@.map_values(|v: Vec<char>| v@)[1] == w@[1]@);
            Some(string_from_chars(&w[1]))
        } else {
            None
        }
    }

    /// The figures of the last `MemTotal:` line and of the last
    /// `MemAvailable:` line of `meminfo`, where there are such lines and they
    /// have a figure.
    pub fn meminfo_fields(meminfo: &str) -> (r: (Option<String>, Option<String>))
        ensures
            r.0.deep_view() == spec_last_field(lines(meminfo@), "MemTotal:"@),
            r.1.deep_view() == spec_last_field(lines(meminfo@), "MemAvailable:"@),
    {
        let chars = chars_of(meminfo);
        let ls = split_lines(&chars);
        let ghost lv = ls@.map_values(|l: Vec<char>| l@);
        let mut total: Option<String> = None;
        let mut available: Option<String> = None;
        let mut i: usize = 0;
        assert(lv.take(0) =~= Seq::<Seq<char>>::empty());
        while i < ls.len()
            invariant
                0 <= i <= ls.len(),
                lv == ls@.map_values(|l: Vec<char>| l@),
                lv == lines(meminfo@),
                total.deep_view() == spec_last_field(lv.take(i as int), "MemTotal:"@),
                available.deep_view() == spec_last_field(lv.take(i as int), "MemAvailable:"@),
            decreases ls.len() - i,
        {
            assert(lv.take(i + 1).drop_last() == lv.take(i as int));
            assert(lv.take(i + 1).last() == ls@[i as int]@);
            if starts_with(&ls[i], "MemTotal:") {
                total = Self::kb_field(&ls[i]);
            } else if starts_with(&ls[i], "MemAvailable:") {
                available = Self::kb_field(&ls[i]);
            }
            proof {
                reveal_strlit("MemTotal:");
                reveal_strlit("MemAvailable:");
                let l = ls@[i as int]@;
                if has_prefix(l, "MemTotal:"@) {
                    assert(!has_prefix(l, "MemAvailable:"@)) by {
                        if has_prefix(l, "MemAvailable:"@) {
                            assert(l.take(13)[3] == 'A');
                            assert(l.take(9)[3] == 'T');
                        }
                    }
                }
            }
            i += 1;
        }
        assert(lv.take(i as int) == lv);
        (total, available)
    }
}

} // verus!
