//! Reading the output of `ss -H -tulnp`.
use crate::number::{decimal, is_digit, lemma_decimal_parses_back, lemma_decimal_value, parse_u16, spec_parse_u16};
use crate::text::{
    after_last, chars_of, contains_char, has_prefix, lemma_after_last_suffix, lemma_lines_concat, lines,
    split_lines,
    split_words, starts_with,
    string_from_chars, suffix_after_last, words,
};
use vstd::prelude::*;

verus! {

/// Why a line of `ss` output is refused.
#[derive(Clone, Debug, PartialEq, Eq)]
pub enum SsParseError {
    /// The line has fewer than six fields.
    TooFewFields(String),
    /// The local address (the first field from the fifth on that is not the
    /// `users:` field) is missing or has no `:`.
    BadLocalAddr(String),
    /// The port of the local address is not a `u16`.
    InvalidPort(String),
}

/// [`SsParseError`] with its text as a sequence.
pub enum SsErr {
    TooFewFields(Seq<char>),
    BadLocalAddr(Seq<char>),
    InvalidPort(Seq<char>),
}

impl SsParseError {
    pub open spec fn view(&self) -> SsErr {
        match self {
            SsParseError::TooFewFields(s) => SsErr::TooFewFields(s@),
            SsParseError::BadLocalAddr(s) => SsErr::BadLocalAddr(s@),
            SsParseError::InvalidPort(s) => SsErr::InvalidPort(s@),
        }
    }
}

/// The pattern of one owner in the `users:(...)` field, such as
/// `("sshd",pid=743`; its first group is the process name.
pub const OWNER_PATTERN: &'static str = "\\(\"([^\"]+)\",pid=\\d+";

/// What capture group `group` of the regular expression `pattern` matched in
/// each successive non-overlapping match in `haystack` (`None` where the group
/// took no part in a match); `None` when `pattern` is not accepted. This is
/// what the `regex` crate computes, and is not restated here.
pub uninterp spec fn regex_group_captures(pattern: Seq<char>, haystack: Seq<char>, group: usize) -> Option<
    Seq<Option<Seq<char>>>,
>;

/// Runs the regular expression `pattern` over `haystack` with `regex::Regex::new`,
/// `Regex::captures_iter` and `Captures::get`: the contract claims that the
/// result is the named [`regex_group_captures`], and that an error comes exactly
/// when that name is `None`; the owner pattern [`OWNER_PATTERN`], which is
/// written in the crate's documented syntax (escaped `(`, a negated class,
/// `\d`), is accepted. The error's message is not stated.
#[verifier::external_body]
fn capture_group(pattern: &str, haystack: &str, group: usize) -> (r: Result<Vec<Option<String>>, String>)
    ensures
        r is Ok <==> regex_group_captures(pattern@, haystack@, group) is Some,
        pattern@ == OWNER_PATTERN@ ==> r is Ok,
        r matches Ok(v) ==> v.deep_view() == regex_group_captures(pattern@, haystack@, group)->Some_0,
{
    match regex::Regex::new(pattern) {
        Err(e) => Err(e.to_string()),
        Ok(re) => {
            let mut out = Vec::new();
            for caps in re.captures_iter(haystack) {
                out.push(caps.get(group).map(|m| m.as_str().to_string()));
            }
            Ok(out)
        },
    }
}

/// The names that were captured, in order.
pub open spec fn present(caps: Seq<Option<Seq<char>>>) -> Seq<Seq<char>>
    decreases caps.len(),
{
    if caps.len() == 0 {
        seq![]
    } else {
        match caps.last() {
            Some(n) => present(caps.drop_last()).push(n),
            None => present(caps.drop_last()),
        }
    }
}

/// `names` with each name kept only at its first occurrence.
pub open spec fn dedup(names: Seq<Seq<char>>) -> Seq<Seq<char>>
    decreases names.len(),
{
    if names.len() == 0 {
        seq![]
    } else {
        let d = dedup(names.drop_last());
        if d.contains(names.last()) {
            d
        } else {
            d.push(names.last())
        }
    }
}

/// [`dedup`] keeps no name twice, and keeps every name.
pub proof fn lemma_dedup(names: Seq<Seq<char>>)
    ensures
        forall|i: int, j: int| 0 <= i < j < dedup(names).len() ==> dedup(names)[i] != dedup(names)[j],
        forall|n: Seq<char>| names.contains(n) <==> #[trigger] dedup(names).contains(n),
    decreases names.len(),
{
    if names.len() > 0 {
        lemma_dedup(names.drop_last());
        let d = dedup(names.drop_last());
        assert forall|n: Seq<char>| names.contains(n) <==> #[trigger] dedup(names).contains(n) by {
            let dn = dedup(names);
            assert(forall|k: int| 0 <= k < d.len() ==> dn[k] == d[k]);
            if names.contains(n) {
                let k = choose|k: int| 0 <= k < names.len() && names[k] == n;
                if k < names.len() - 1 {
                    assert(names.drop_last()[k] == n);
                    assert(names.drop_last().contains(n));
                    assert(d.contains(n));
                    let m = choose|m: int| 0 <= m < d.len() && d[m] == n;
                    assert(dn[m] == n);
                } else if !d.contains(names.last()) {
                    assert(dn[d.len() as int] == n);
                } else {
                    let m = choose|m: int| 0 <= m < d.len() && d[m] == n;
                    assert(dn[m] == n);
                }
                assert(dn.contains(n));
            }
            if dn.contains(n) {
                let k = choose|k: int| 0 <= k < dn.len() && dn[k] == n;
                if k < d.len() {
                    assert(d[k] == n);
                    assert(d.contains(n));
                    assert(names.drop_last().contains(n));
                    let m = choose|m: int| 0 <= m < names.drop_last().len() && names.drop_last()[m] == n;
                    assert(names[m] == n);
                } else {
                    assert(names[names.len() - 1] == n);
                }
                assert(names.contains(n));
            }
        }
    }
}

/// Every entry of one `ss` line carries the same port, and no owner is
/// listed twice.
pub proof fn lemma_ss_line_entries(line: Seq<char>)
    requires
        spec_parse_ss_line(line) is Ok,
    ensures
        forall|i: int, j: int| 0 <= i < spec_parse_ss_line(line)->Ok_0.len() && 0 <= j < spec_parse_ss_line(line)->Ok_0.len()
            ==> (#[trigger] spec_parse_ss_line(line)->Ok_0[i]).1 == (#[trigger] spec_parse_ss_line(line)->Ok_0[j]).1,
        forall|i: int, j: int| 0 <= i < j < spec_parse_ss_line(line)->Ok_0.len()
            ==> (#[trigger] spec_parse_ss_line(line)->Ok_0[i]).0 != (#[trigger] spec_parse_ss_line(line)->Ok_0[j]).0,
{
    let caps = regex_group_captures(OWNER_PATTERN@, line, 1)->Some_0;
    lemma_dedup(present(caps));
}

/// Every port is accepted: a line of at least six fields whose fifth field is
/// `host:N`, with `N` the decimal numeral of any `u16` `p` (and the field not
/// the `users:` field), is read, and every entry of it carries the port `p`.
pub proof fn lemma_ss_line_any_port(line: Seq<char>, host: Seq<char>, p: u16)
    requires
        words(line).len() >= 6,
        words(line)[4] == host.push(':') + decimal(p as nat),
        !has_prefix(words(line)[4], "users:"@),
    ensures
        spec_parse_ss_line(line) is Ok,
        forall|i: int| 0 <= i < spec_parse_ss_line(line)->Ok_0.len() ==> (#[trigger] spec_parse_ss_line(
            line,
        )->Ok_0[i]).1 == p,
{
    let parts = words(line);
    let d = decimal(p as nat);
    lemma_decimal_value(p as nat);
    lemma_decimal_parses_back(p);
    assert(address_field_from(parts, 4) == Some(4int));
    let f = parts[4];
    assert(f[host.len() as int] == ':');
    assert(f.contains(':'));
    assert forall|i: int| 0 <= i < d.len() implies #[trigger] d[i] != ':' by {
        assert(is_digit(d[i]));
    }
    lemma_after_last_suffix(host.push(':'), d, ':');
    assert(after_last(f, ':') == d);
}

/// The index of the local address among the fields `parts`: the first
/// field from `i` on that is not the `users:` field.
pub open spec fn address_field_from(parts: Seq<Seq<char>>, i: int) -> Option<int>
    decreases parts.len() - i,
{
    if i >= parts.len() {
        None
    } else if !has_prefix(parts[i], "users:"@) {
        Some(i)
    } else {
        address_field_from(parts, i + 1)
    }
}

/// The entries for the owners named in the captures `caps`: each distinct
/// name, at its first occurrence, paired with `port`.
pub open spec fn spec_owners_on_port(caps: Seq<Option<Seq<char>>>, port: u16) -> Seq<(Seq<char>, u16)> {
    dedup(present(caps)).map_values(|o: Seq<char>| (o, port))
}

/// The owners and the port that one line of `ss` output reports: the local
/// address is the first field from the fifth on that is not the `users:`
/// field, and the port is what follows its last `:`;
/// the owners are the distinct names of the `("name",pid=N` patterns, each
/// paired with that port.
pub open spec fn spec_parse_ss_line(line: Seq<char>) -> Result<Seq<(Seq<char>, u16)>, SsErr> {
    let parts = words(line);
    if parts.len() < 6 {
        Err(SsErr::TooFewFields(line))
    } else {
        match address_field_from(parts, 4) {
            None => Err(SsErr::BadLocalAddr(line)),
            Some(k) => if !parts[k].contains(':') {
                Err(SsErr::BadLocalAddr(line))
            } else {
                let port_str = after_last(parts[k], ':');
                match spec_parse_u16(port_str) {
                    None => Err(SsErr::InvalidPort(port_str)),
                    Some(port) => Ok(
                        spec_owners_on_port(regex_group_captures(OWNER_PATTERN@, line, 1)->Some_0, port),
                    ),
                }
            },
        }
    }
}

/// The entries of the lines `ls`, blank lines skipped, or the error of the
/// first line that is refused.
pub open spec fn spec_parse_lines(ls: Seq<Seq<char>>) -> Result<Seq<(Seq<char>, u16)>, SsErr>
    decreases ls.len(),
{
    if ls.len() == 0 {
        Ok(seq![])
    } else {
        match spec_parse_lines(ls.drop_last()) {
            Err(e) => Err(e),
            Ok(acc) => if ls.last().len() == 0 {
                Ok(acc)
            } else {
                match spec_parse_ss_line(ls.last()) {
                    Err(e) => Err(e),
                    Ok(es) => Ok(acc + es),
                }
            },
        }
    }
}

/// The entries of a whole `ss` output.
pub open spec fn spec_parse_ss_info(s: Seq<char>) -> Result<Seq<(Seq<char>, u16)>, SsErr> {
    spec_parse_lines(lines(s))
}

/// The reader of `ss` output.
pub struct SsParser;

impl SsParser {
    /// The owners and the port of one line of `ss` output; see [`spec_parse_ss_line`].
    pub fn parse_ss_line(line: &str) -> (r: Result<Vec<(String, u16)>, SsParseError>)
        ensures
            match (r, spec_parse_ss_line(line@)) {
                (Ok(v), Ok(s)) => v.deep_view() == s,
                (Err(e), Err(s)) => e.view() == s,
                _ => false,
            },
    {
        let chars = chars_of(line);
        let parts = split_words(&chars);
        let ghost pv = parts@.map_values(|w: Vec<char>| w@);
        assert(pv.len() == parts.len());
        if parts.len() < 6 {
            return Err(SsParseError::TooFewFields(String::from_str(line)));
        }
        let mut k: usize = 4;
        while k < parts.len() && starts_with(&parts[k], "users:")
            invariant
                4 <= k <= parts.len(),
                pv == parts@.map_values(|w: Vec<char>| w@),
                address_field_from(pv, 4) == address_field_from(pv, k as int),
            decreases parts.len() - k,
        {
            assert(pv[k as int] == parts@[k as int]@);
            k += 1;
        }
        if k == parts.len() {
            return Err(SsParseError::BadLocalAddr(String::from_str(line)));
        }
        assert(pv[k as int] == parts@[k as int]@);
        if !contains_char(&parts[k], ':') {
            return Err(SsParseError::BadLocalAddr(String::from_str(line)));
        }
        let port_str = suffix_after_last(&parts[k], ':');
        let port = match parse_u16(&port_str) {
            None => {
                return Err(SsParseError::InvalidPort(string_from_chars(&port_str)));
            },
            Some(p) => p,
        };
        match capture_group(OWNER_PATTERN, line, 1) {
            Ok(caps) => Ok(Self::owners_on_port(&caps, port)),
            Err(_) => {
                // The owner pattern is always accepted; this arm is never taken.
                proof {
                    assert(false);
                }
                Ok(Vec::new())
            },
        }
    }

    /// The entries for the owners named in the captures `caps` of the owner
    /// pattern: each distinct name, at its first occurrence, with `port`.
    pub fn owners_on_port(caps: &Vec<Option<String>>, port: u16) -> (r: Vec<(String, u16)>)
        ensures
            r.deep_view() == spec_owners_on_port(caps.deep_view(), port),
    {
        let ghost cv = caps.deep_view();
        let mut owners: Vec<String> = Vec::new();
        let mut i: usize = 0;
        assert(cv.take(0) =~= Seq::<Option<Seq<char>>>::empty());
        assert(owners.deep_view() =~= Seq::<Seq<char>>::empty());
        while i < caps.len()
            invariant
                0 <= i <= caps.len(),
                cv == caps.deep_view(),
                owners.deep_view() == dedup(present(cv.take(i as int))),
            decreases caps.len() - i,
        {
            assert(cv.take(i + 1).drop_last() == cv.take(i as int));
            assert(cv.take(i + 1).last() == cv[i as int]);
            assert(cv[i as int] == caps@[i as int].deep_view());
            match &caps[i] {
                None => {
                    assert(present(cv.take(i + 1)) == present(cv.take(i as int)));
                },
                Some(name) => {
                    let ghost pp = present(cv.take(i as int));
                    assert(present(cv.take(i + 1)) == pp.push(name@));
                    assert(pp.push(name@).drop_last() == pp);
                    assert(pp.push(name@).last() == name@);
                    let mut j: usize = 0;
                    let mut seen = false;
                    while j < owners.len()
                        invariant
                            0 <= j <= owners.len(),
                            seen <==> exists|m: int| 0 <= m < j && owners.deep_view()[m] == name@,
                        decreases owners.len() - j,
                    {
                        assert(owners.deep_view()[j as int] == owners@[j as int]@);
                        if owners[j] == *name {
                            seen = true;
                        }
                        j += 1;
                    }
                    assert(seen == owners.deep_view().contains(name@));
                    if !seen {
                        let ghost before = owners.deep_view();
                        owners.push(name.clone());
                        assert(owners.deep_view() =~= before.push(name@));
                    }
                },
            }
            i += 1;
        }
        assert(cv.take(i as int) == cv);
        let mut result: Vec<(String, u16)> = Vec::new();
        let mut n: usize = 0;
        let ghost ov = owners.deep_view();
        while n < owners.len()
            invariant
                0 <= n <= owners.len(),
                ov == owners.deep_view(),
                result.len() == n,
                result.deep_view() == ov.take(n as int).map_values(|o: Seq<char>| (o, port)),
            decreases owners.len() - n,
        {
            let ghost before = result.deep_view();
            let ghost before_v = result@;
            let o = owners[n].clone();
            assert(o@ == ov[n as int]);
            result.push((o, port));
            assert forall|k: int| 0 <= k < n + 1 implies #[trigger] result.deep_view()[k] == ov.take(
                n + 1,
            ).map_values(|o: Seq<char>| (o, port))[k] by {
                if k < n {
                    assert(result@[k] == before_v[k]);
                    assert(before[k] == ov.take(n as int).map_values(|o: Seq<char>| (o, port))[k]);
                }
            }
            assert(result.deep_view() =~= ov.take(n + 1).map_values(|o: Seq<char>| (o, port)));
            n += 1;
        }
        assert(ov.take(n as int) == ov);
        result
    }

    /// The entries of every non-blank line of `ss_output`, in order; see
    /// [`spec_parse_ss_info`].
    pub fn parse_ss_info(ss_output: String) -> (r: Result<Vec<(String, u16)>, SsParseError>)
        ensures
            match (r, spec_parse_ss_info(ss_output@)) {
                (Ok(v), Ok(s)) => v.deep_view() == s,
                (Err(e), Err(s)) => e.view() == s,
                _ => false,
            },
    {
        let chars = chars_of(ss_output.as_str());
        let ls = split_lines(&chars);
        let ghost lv = ls@.map_values(|l: Vec<char>| l@);
        let mut result: Vec<(String, u16)> = Vec::new();
        let mut i: usize = 0;
        assert(lv.take(0) =~= Seq::<Seq<char>>::empty());
        assert(result.deep_view() =~= Seq::<(Seq<char>, u16)>::empty());
        while i < ls.len()
            invariant
                0 <= i <= ls.len(),
                lv == ls@.map_values(|l: Vec<char>| l@),
                lv == lines(ss_output@),
                spec_parse_lines(lv.take(i as int)) == Ok::<Seq<(Seq<char>, u16)>, SsErr>(result.deep_view()),
            decreases ls.len() - i,
        {
            assert(lv.take(i + 1).drop_last() == lv.take(i as int));
            assert(lv.take(i + 1).last() == ls@[i as int]@);
            if ls[i].len() > 0 {
                let line = string_from_chars(&ls[i]);
                match Self::parse_ss_line(line.as_str()) {
                    Err(e) => {
                        proof {
                            lemma_parse_lines_error(lv, i + 1);
                        }
                        return Err(e);
                    },
                    Ok(entries) => {
                        let ghost before = result.deep_view();
                        let mut j: usize = 0;
                        while j < entries.len()
                            invariant
                                0 <= j <= entries.len(),
                                result.len() == before.len() + j,
                                result.deep_view() == before + entries.deep_view().take(j as int),
                            decreases entries.len() - j,
                        {
                            let o = entries[j].0.clone();
                            assert(o@ == entries.deep_view()[j as int].0);
                            let ghost mid = result.deep_view();
                            let ghost mid_v = result@;
                            result.push((o, entries[j].1));
                            assert(result.deep_view()[mid.len() as int] == entries.deep_view()[j as int]);
                            assert forall|k: int| 0 <= k < mid.len() implies #[trigger] result.deep_view()[k]
                                == mid[k] by {
                                assert(result@[k] == mid_v[k]);
                            }
                            assert(result.deep_view() =~= before + entries.deep_view().take(j + 1));
                            j += 1;
                        }
                        assert(entries.deep_view().take(j as int) == entries.deep_view());
                    },
                }
            }
            i += 1;
        }
        assert(lv.take(i as int) == lv);
        Ok(result)
    }
}

/// Reading lines one after the other: the entries of `a + b` are those of
/// `a` followed by those of `b`, and a refused line of `a` is reported before
/// anything of `b`.
pub proof fn lemma_parse_lines_concat(a: Seq<Seq<char>>, b: Seq<Seq<char>>)
    ensures
        spec_parse_lines(a + b) == match spec_parse_lines(a) {
            Err(e) => Err(e),
            Ok(x) => match spec_parse_lines(b) {
                Err(e) => Err(e),
                Ok(y) => Ok(x + y),
            },
        },
    decreases b.len(),
{
    if b.len() == 0 {
        assert(a + b == a);
        if let Ok(x) = spec_parse_lines(a) {
            assert(x + Seq::<(Seq<char>, u16)>::empty() == x);
        }
    } else {
        lemma_parse_lines_concat(a, b.drop_last());
        assert((a + b).drop_last() == a + b.drop_last());
        assert((a + b).last() == b.last());
        if let Ok(x) = spec_parse_lines(a) {
            if let Ok(y) = spec_parse_lines(b.drop_last()) {
                if b.last().len() > 0 {
                    if let Ok(es) = spec_parse_ss_line(b.last()) {
                        assert(x + y + es == x + (y + es));
                    }
                }
            }
        }
    }
}

/// The `ss` output is read line by line: the entries of two outputs one
/// after the other (the first empty or ending its last line) are the entries
/// of the first followed by those of the second, and an error of the first
/// comes before anything of the second.
pub proof fn lemma_ss_info_concat(a: Seq<char>, b: Seq<char>)
    requires
        a.len() == 0 || a.last() == '\n',
    ensures
        spec_parse_ss_info(a + b) == match spec_parse_ss_info(a) {
            Err(e) => Err(e),
            Ok(x) => match spec_parse_ss_info(b) {
                Err(e) => Err(e),
                Ok(y) => Ok(x + y),
            },
        },
{
    lemma_lines_concat(a, b);
    lemma_parse_lines_concat(lines(a), lines(b));
}

/// Once a line is refused, the whole output is, with that line's error.
pub proof fn lemma_parse_lines_error(ls: Seq<Seq<char>>, k: int)
    requires
        0 <= k <= ls.len(),
        spec_parse_lines(ls.take(k)) is Err,
    ensures
        spec_parse_lines(ls) == spec_parse_lines(ls.take(k)),
    decreases ls.len(),
{
    if k < ls.len() {
        assert(ls.drop_last().take(k) == ls.take(k));
        lemma_parse_lines_error(ls.drop_last(), k);
    } else {
        assert(ls.take(k) == ls);
    }
}

} // verus!
