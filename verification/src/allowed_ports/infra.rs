//! Listening sockets as the allowed-ports checker sees them.
use crate::number::{decimal, push_decimal};
use crate::text::chars_of;
use crate::text::string_from_chars;
use super::ss_parser::{spec_parse_ss_info, SsErr, SsParseError, SsParser};
use vstd::prelude::*;
use vstd::std_specs::convert::FromSpecImpl;

verus! {

/// A process that listens on a port.
#[derive(Clone, Debug, PartialEq, Eq, PartialOrd, Ord, Hash)]
pub struct PortEntry {
    pub owner: String,
    pub port: u16,
}

impl DeepView for PortEntry {
    type V = (Seq<char>, u16);

    open spec fn deep_view(&self) -> (Seq<char>, u16) {
        (self.owner@, self.port)
    }
}

/// How an entry is shown to people: `[owner]: port`.
pub open spec fn entry_text(owner: Seq<char>, port: u16) -> Seq<char> {
    "["@ + owner + "]: "@ + decimal(port as nat)
}

impl From<(String, u16)> for PortEntry {
    fn from(pair: (String, u16)) -> (r: Self) {
        PortEntry { owner: pair.0, port: pair.1 }
    }
}

impl FromSpecImpl<(String, u16)> for PortEntry {
    open spec fn obeys_from_spec() -> bool {
        true
    }

    open spec fn from_spec(pair: (String, u16)) -> PortEntry {
        PortEntry { owner: pair.0, port: pair.1 }
    }
}

impl PortEntry {
    /// The entry as it is shown to people: `[owner]: port`.
    pub fn to_string(&self) -> (s: String)
        ensures
            s@ == entry_text(self.owner@, self.port),
    {
        let mut out: Vec<char> = chars_of("[");
        let owner = chars_of(self.owner.as_str());
        let mut i: usize = 0;
        let ghost start = out@;
        while i < owner.len()
            invariant
                0 <= i <= owner.len(),
                out@ == start + owner@.take(i as int),
            decreases owner.len() - i,
        {
            out.push(owner[i]);
            proof {
                assert(owner@.take(i + 1) == owner@.take(i as int).push(owner@[i as int]));
            }
            i += 1;
        }
        assert(owner@.take(owner.len() as int) == owner@);
        let tail = chars_of("]: ");
        let mut j: usize = 0;
        let ghost mid = out@;
        while j < tail.len()
            invariant
                0 <= j <= tail.len(),
                out@ == mid + tail@.take(j as int),
            decreases tail.len() - j,
        {
            out.push(tail[j]);
            proof {
                assert(tail@.take(j + 1) == tail@.take(j as int).push(tail@[j as int]));
            }
            j += 1;
        }
        assert(tail@.take(tail.len() as int) == tail@);
        push_decimal(self.port, &mut out);
        string_from_chars(&out)
    }
}

/// The `ss` listing of listening sockets, read by the application.
pub struct SsSource;

impl SsSource {
    /// The entries of the `ss -H -tulnp` output `ss_output`.
    pub fn parse_output(ss_output: String) -> (r: Result<Vec<PortEntry>, SsParseError>)
        ensures
            match (r, spec_parse_ss_info(ss_output@)) {
                (Ok(v), Ok(s)) => v.deep_view() == s,
                (Err(e), Err(s)) => e.view() == s,
                _ => false,
            },
    {
        match SsParser::parse_ss_info(ss_output) {
            Err(e) => Err(e),
            Ok(pairs) => {
                let mut entries: Vec<PortEntry> = Vec::new();
                let mut i: usize = 0;
                while i < pairs.len()
                    invariant
                        0 <= i <= pairs.len(),
                        entries.deep_view() == pairs.deep_view().take(i as int),
                    decreases pairs.len() - i,
                {
                    let pair = (pairs[i].0.clone(), pairs[i].1);
                    let ghost before = entries.deep_view();
                    entries.push(PortEntry::from(pair));
                    proof {
                        assert(entries.deep_view() =~= before.push(pairs.deep_view()[i as int]));
                        assert(pairs.deep_view().take(i + 1) =~= pairs.deep_view().take(i as int).push(
                            pairs.deep_view()[i as int],
                        ));
                    }
                    i += 1;
                }
                assert(pairs.deep_view().take(pairs.len() as int) == pairs.deep_view());
                Ok(entries)
            },
        }
    }
}

} // verus!
