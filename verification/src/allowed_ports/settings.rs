//! The checked settings of the allowed-ports checker.
use crate::number::{decimal, is_digit, lemma_decimal_parses_back, lemma_decimal_value, parse_u16, spec_parse_u16};
use crate::text::{
    chars_of, is_ws, lemma_remove_ws_idempotent, lemma_remove_ws_none, lemma_split_none, remove_ws,
    split_char, split_on, without_whitespace,
};
use super::config::{AllowedPortsConfig, PortOwnerInfo};
use vstd::prelude::*;

verus! {

/// Why a configuration block of the allowed-ports checker is refused.
#[derive(Clone, Debug, PartialEq, Eq)]
pub enum WrongAllowedPortsSettingsError {
    /// An enabled block that lists no process. [`AllowedPortsSettings::try_from`]
    /// does not refuse such a block: it gives disabled settings.
    EmptyProcessesSettings,
    /// A port specification has more than one `-`.
    InvalidPortBounds(String),
    /// A port in a port specification is not a `u16`.
    InvalidPortValue(String),
}

/// [`WrongAllowedPortsSettingsError`] with its text as a sequence.
pub enum SettingsError {
    EmptyProcessesSettings,
    InvalidPortBounds(Seq<char>),
    InvalidPortValue(Seq<char>),
}

impl WrongAllowedPortsSettingsError {
    pub open spec fn view(&self) -> SettingsError {
        match self {
            WrongAllowedPortsSettingsError::EmptyProcessesSettings => SettingsError::EmptyProcessesSettings,
            WrongAllowedPortsSettingsError::InvalidPortBounds(s) => SettingsError::InvalidPortBounds(s@),
            WrongAllowedPortsSettingsError::InvalidPortValue(s) => SettingsError::InvalidPortValue(s@),
        }
    }
}

/// An inclusive range of ports.
#[derive(Clone, Copy, Debug, PartialEq, Eq)]
pub struct PortBounds {
    pub min: u16,
    pub max: u16,
}

impl DeepView for PortBounds {
    type V = (u16, u16);

    open spec fn deep_view(&self) -> (u16, u16) {
        (self.min, self.max)
    }
}

/// The port range that the specification `s` stands for. Whitespace is
/// ignored; then `s` is a port, or two ports joined by `-` (the first is the
/// lower bound; nothing requires it to be the smaller one).
pub open spec fn spec_port_bounds(s: Seq<char>) -> Result<(u16, u16), SettingsError> {
    let parts = split_on(remove_ws(s), '-');
    if parts.len() == 1 {
        match spec_parse_u16(parts[0]) {
            Some(p) => Ok((p, p)),
            None => Err(SettingsError::InvalidPortValue(s)),
        }
    } else if parts.len() == 2 {
        match (spec_parse_u16(parts[0]), spec_parse_u16(parts[1])) {
            (Some(lo), Some(hi)) => Ok((lo, hi)),
            _ => Err(SettingsError::InvalidPortValue(s)),
        }
    } else {
        Err(SettingsError::InvalidPortBounds(s))
    }
}

impl PortBounds {
    /// Reads a port specification such as `"22"` or `"8000 - 8100"`.
    pub fn try_from(port_bounds: &str) -> (r: Result<PortBounds, WrongAllowedPortsSettingsError>)
        ensures
            match (r, spec_port_bounds(port_bounds@)) {
                (Ok(b), Ok(v)) => b.deep_view() == v,
                (Err(e), Err(v)) => e.view() == v,
                _ => false,
            },
    {
        let chars = chars_of(port_bounds);
        let trimmed = without_whitespace(&chars);
        let parts = split_char(&trimmed, '-');
        proof {
            assert(parts@.len() == split_on(remove_ws(port_bounds@), '-').len());
        }
        if parts.len() == 1 {
            assert(parts@[0]@ == split_on(remove_ws(port_bounds@), '-')[0]);
            return match parse_u16(&parts[0]) {
                Some(p) => Ok(PortBounds { min: p, max: p }),
                None => Err(
                    WrongAllowedPortsSettingsError::InvalidPortValue(String::from_str(port_bounds)),
                ),
            };
        }
        if parts.len() == 2 {
            assert(parts@[0]@ == split_on(remove_ws(port_bounds@), '-')[0]);
            assert(parts@[1]@ == split_on(remove_ws(port_bounds@), '-')[1]);
            let lo = parse_u16(&parts[0]);
            let hi = parse_u16(&parts[1]);
            return match (lo, hi) {
                (Some(min), Some(max)) => Ok(PortBounds { min, max }),
                _ => Err(
                    WrongAllowedPortsSettingsError::InvalidPortValue(String::from_str(port_bounds)),
                ),
            };
        }
        Err(WrongAllowedPortsSettingsError::InvalidPortBounds(String::from_str(port_bounds)))
    }
}

/// Whitespace anywhere in a port specification does not change the ports
/// it stands for, nor the kind of error it gives.
pub proof fn lemma_port_bounds_ignore_whitespace(s: Seq<char>)
    ensures
        match (spec_port_bounds(s), spec_port_bounds(remove_ws(s))) {
            (Ok(a), Ok(b)) => a == b,
            (Err(SettingsError::InvalidPortBounds(_)), Err(SettingsError::InvalidPortBounds(_))) => true,
            (Err(SettingsError::InvalidPortValue(_)), Err(SettingsError::InvalidPortValue(_))) => true,
            _ => false,
        },
{
    lemma_remove_ws_idempotent(s);
}

/// The decimal numeral of a port, as a port specification, stands for
/// exactly that port.
pub proof fn lemma_port_bounds_of_decimal(p: u16)
    ensures
        spec_port_bounds(decimal(p as nat)) == Ok::<(u16, u16), SettingsError>((p, p)),
{
    let d = decimal(p as nat);
    lemma_decimal_value(p as nat);
    lemma_decimal_parses_back(p);
    assert forall|i: int| 0 <= i < d.len() implies !is_ws(#[trigger] d[i]) by {
        assert(is_digit(d[i]));
    }
    lemma_remove_ws_none(d);
    assert forall|i: int| 0 <= i < d.len() implies #[trigger] d[i] != '-' by {
        assert(is_digit(d[i]));
    }
    lemma_split_none(d, '-', seq![]);
    assert(Seq::<char>::empty() + d == d);
}

/// The ports that one process may listen on, after checking.
#[derive(Clone, Debug)]
pub struct ProcessPorts {
    pub owner: String,
    pub bounds: Vec<PortBounds>,
}

impl DeepView for ProcessPorts {
    type V = (Seq<char>, Seq<(u16, u16)>);

    open spec fn deep_view(&self) -> (Seq<char>, Seq<(u16, u16)>) {
        (self.owner@, self.bounds.deep_view())
    }
}

/// The checked settings of the allowed-ports checker. `processes` names each
/// owner once (see [`AllowedPortsSettings::wf`]).
pub struct AllowedPortsSettings {
    pub enabled: bool,
    pub processes: Vec<ProcessPorts>,
}

/// The port ranges of the specifications `ports`, or the error of the first
/// one that is refused.
pub open spec fn spec_all_bounds(ports: Seq<Seq<char>>) -> Result<Seq<(u16, u16)>, SettingsError>
    decreases ports.len(),
{
    if ports.len() == 0 {
        Ok(seq![])
    } else {
        match spec_all_bounds(ports.drop_last()) {
            Err(e) => Err(e),
            Ok(acc) => match spec_port_bounds(ports.last()) {
                Err(e) => Err(e),
                Ok(b) => Ok(acc.push(b)),
            },
        }
    }
}

/// `ps` with the ranges of `owner` set to `bounds`: the entry of `owner`
/// is replaced where it is, or added at the end.
pub open spec fn upsert(
    ps: Seq<(Seq<char>, Seq<(u16, u16)>)>,
    owner: Seq<char>,
    bounds: Seq<(u16, u16)>,
) -> Seq<(Seq<char>, Seq<(u16, u16)>)>
    decreases ps.len(),
{
    if ps.len() == 0 {
        seq![(owner, bounds)]
    } else if ps[0].0 == owner {
        seq![(owner, bounds)] + ps.drop_first()
    } else {
        seq![ps[0]] + upsert(ps.drop_first(), owner, bounds)
    }
}

/// The ranges listed for `owner` in `ps`.
pub open spec fn spec_lookup(ps: Seq<(Seq<char>, Seq<(u16, u16)>)>, owner: Seq<char>) -> Option<
    Seq<(u16, u16)>,
>
    decreases ps.len(),
{
    if ps.len() == 0 {
        None
    } else if ps[0].0 == owner {
        Some(ps[0].1)
    } else {
        spec_lookup(ps.drop_first(), owner)
    }
}

/// Whether no owner occurs twice in `ps`.
pub open spec fn distinct_owners(ps: Seq<(Seq<char>, Seq<(u16, u16)>)>) -> bool {
    forall|i: int, j: int| 0 <= i < j < ps.len() ==> ps[i].0 != ps[j].0
}

/// The owners and ranges of the configured `procs`, one entry per owner,
/// a later entry of an owner replacing an earlier one; or the first error.
pub open spec fn spec_merge(procs: Seq<(Seq<char>, Seq<Seq<char>>)>) -> Result<
    Seq<(Seq<char>, Seq<(u16, u16)>)>,
    SettingsError,
>
    decreases procs.len(),
{
    if procs.len() == 0 {
        Ok(seq![])
    } else {
        match spec_merge(procs.drop_last()) {
            Err(e) => Err(e),
            Ok(m) => match spec_all_bounds(procs.last().1) {
                Err(e) => Err(e),
                Ok(bs) => Ok(upsert(m, procs.last().0, bs)),
            },
        }
    }
}

/// The settings that a configuration block stands for: disabled and empty
/// unless `enabled` is true and at least one process is listed; else the
/// merged processes, or the first refused port specification.
pub open spec fn spec_settings(enabled: bool, procs: Seq<(Seq<char>, Seq<Seq<char>>)>) -> Result<
    (bool, Seq<(Seq<char>, Seq<(u16, u16)>)>),
    SettingsError,
> {
    if !enabled || procs.len() == 0 {
        Ok((false, seq![]))
    } else {
        match spec_merge(procs) {
            Ok(m) => Ok((true, m)),
            Err(e) => Err(e),
        }
    }
}

/// The ranges of the last process in `procs` that is named `owner`.
pub open spec fn spec_last_bounds(procs: Seq<(Seq<char>, Seq<Seq<char>>)>, owner: Seq<char>) -> Option<
    Seq<(u16, u16)>,
>
    decreases procs.len(),
{
    if procs.len() == 0 {
        None
    } else if procs.last().0 == owner {
        match spec_all_bounds(procs.last().1) {
            Ok(b) => Some(b),
            Err(_) => None,
        }
    } else {
        spec_last_bounds(procs.drop_last(), owner)
    }
}

/// Once a prefix of the specifications is refused, the whole list is.
pub proof fn lemma_all_bounds_error(ports: Seq<Seq<char>>, k: int)
    requires
        0 <= k <= ports.len(),
        spec_all_bounds(ports.take(k)) is Err,
    ensures
        spec_all_bounds(ports) == spec_all_bounds(ports.take(k)),
    decreases ports.len(),
{
    if k < ports.len() {
        assert(ports.drop_last().take(k) == ports.take(k));
        lemma_all_bounds_error(ports.drop_last(), k);
    } else {
        assert(ports.take(k) == ports);
    }
}

/// Once a prefix of the processes is refused, the whole list is.
pub proof fn lemma_merge_error(procs: Seq<(Seq<char>, Seq<Seq<char>>)>, k: int)
    requires
        0 <= k <= procs.len(),
        spec_merge(procs.take(k)) is Err,
    ensures
        spec_merge(procs) == spec_merge(procs.take(k)),
    decreases procs.len(),
{
    if k < procs.len() {
        assert(procs.drop_last().take(k) == procs.take(k));
        lemma_merge_error(procs.drop_last(), k);
    } else {
        assert(procs.take(k) == procs);
    }
}

/// Looking up an owner after setting the ranges of one.
pub proof fn lemma_lookup_upsert(
    ps: Seq<(Seq<char>, Seq<(u16, u16)>)>,
    o: Seq<char>,
    b: Seq<(u16, u16)>,
    q: Seq<char>,
)
    ensures
        spec_lookup(upsert(ps, o, b), q) == if q == o {
            Some(b)
        } else {
            spec_lookup(ps, q)
        },
    decreases ps.len(),
{
    let u = upsert(ps, o, b);
    if ps.len() == 0 {
        assert(u.drop_first().len() == 0);
    } else if ps[0].0 == o {
        assert(u.drop_first() == ps.drop_first());
    } else {
        assert(u.drop_first() == upsert(ps.drop_first(), o, b));
        lemma_lookup_upsert(ps.drop_first(), o, b, q);
    }
}

/// Setting the ranges of an owner keeps the owners distinct and adds `o`.
pub proof fn lemma_upsert_owners(
    ps: Seq<(Seq<char>, Seq<(u16, u16)>)>,
    o: Seq<char>,
    b: Seq<(u16, u16)>,
)
    requires
        distinct_owners(ps),
    ensures
        distinct_owners(upsert(ps, o, b)),
        forall|q: Seq<char>| #[trigger] spec_lookup(upsert(ps, o, b), q) is Some <==> (q == o
            || spec_lookup(ps, q) is Some),
    decreases ps.len(),
{
    assert forall|q: Seq<char>| #[trigger] spec_lookup(upsert(ps, o, b), q) is Some <==> (q == o
        || spec_lookup(ps, q) is Some) by {
        lemma_lookup_upsert(ps, o, b, q);
    }
    let u = upsert(ps, o, b);
    if ps.len() == 0 {
    } else if ps[0].0 == o {
        assert forall|i: int, j: int| 0 <= i < j < u.len() implies u[i].0 != u[j].0 by {
            assert(u[i].0 == ps[i].0);
            assert(u[j].0 == ps[j].0);
        }
    } else {
        let t = ps.drop_first();
        assert(distinct_owners(t)) by {
            assert forall|i: int, j: int| 0 <= i < j < t.len() implies t[i].0 != t[j].0 by {
                assert(t[i] == ps[i + 1] && t[j] == ps[j + 1]);
            }
        }
        lemma_upsert_owners(t, o, b);
        let r = upsert(t, o, b);
        assert(u == seq![ps[0]] + r);
        assert forall|i: int, j: int| 0 <= i < j < u.len() implies u[i].0 != u[j].0 by {
            if i == 0 {
                assert(u[j] == r[j - 1]);
                lemma_lookup_present(r, j - 1);
                lemma_lookup_absent_first(ps);
                assert(spec_lookup(r, r[j - 1].0) is Some);
            } else {
                assert(u[i] == r[i - 1] && u[j] == r[j - 1]);
            }
        }
    }
}

/// An owner that occurs in `ps` is found by [`spec_lookup`].
pub proof fn lemma_lookup_present(ps: Seq<(Seq<char>, Seq<(u16, u16)>)>, i: int)
    requires
        0 <= i < ps.len(),
    ensures
        spec_lookup(ps, ps[i].0) is Some,
    decreases ps.len(),
{
    if i > 0 && ps[0].0 != ps[i].0 {
        assert(ps.drop_first()[i - 1] == ps[i]);
        lemma_lookup_present(ps.drop_first(), i - 1);
    }
}

/// With distinct owners, the first owner is not found after the first entry.
pub proof fn lemma_lookup_absent_first(ps: Seq<(Seq<char>, Seq<(u16, u16)>)>)
    requires
        ps.len() > 0,
        distinct_owners(ps),
    ensures
        spec_lookup(ps.drop_first(), ps[0].0) is None,
{
    let t = ps.drop_first();
    if spec_lookup(t, ps[0].0) is Some {
        let k = lemma_lookup_index(t, ps[0].0);
        assert(t[k] == ps[k + 1]);
    }
}

/// Where [`spec_lookup`] finds `q`, an entry of `q` exists.
pub proof fn lemma_lookup_index(ps: Seq<(Seq<char>, Seq<(u16, u16)>)>, q: Seq<char>) -> (k: int)
    requires
        spec_lookup(ps, q) is Some,
    ensures
        0 <= k < ps.len(),
        ps[k].0 == q,
        spec_lookup(ps, q) == Some(ps[k].1),
    decreases ps.len(),
{
    if ps[0].0 == q {
        0
    } else {
        let k = lemma_lookup_index(ps.drop_first(), q);
        assert(ps.drop_first()[k] == ps[k + 1]);
        k + 1
    }
}

/// The merged processes name each owner once, and the ranges of an owner
/// are those of the last process of that owner in the configuration.
pub proof fn lemma_merge_later_process_wins(procs: Seq<(Seq<char>, Seq<Seq<char>>)>, q: Seq<char>)
    requires
        spec_merge(procs) is Ok,
    ensures
        distinct_owners(spec_merge(procs)->Ok_0),
        spec_lookup(spec_merge(procs)->Ok_0, q) == spec_last_bounds(procs, q),
    decreases procs.len(),
{
    if procs.len() > 0 {
        lemma_merge_later_process_wins(procs.drop_last(), q);
        let m = spec_merge(procs.drop_last())->Ok_0;
        let bs = spec_all_bounds(procs.last().1)->Ok_0;
        lemma_upsert_owners(m, procs.last().0, bs);
        lemma_lookup_upsert(m, procs.last().0, bs, q);
    }
}

/// The port ranges of the specifications `ports`.
fn all_bounds(ports: &Vec<String>) -> (r: Result<Vec<PortBounds>, WrongAllowedPortsSettingsError>)
    ensures
        match (r, spec_all_bounds(ports.deep_view())) {
            (Ok(b), Ok(v)) => b.deep_view() == v,
            (Err(e), Err(v)) => e.view() == v,
            _ => false,
        },
{
    let ghost pv = ports.deep_view();
    let mut acc: Vec<PortBounds> = Vec::new();
    let mut i: usize = 0;
    assert(pv.take(0) =~= Seq::<Seq<char>>::empty());
    assert(acc.deep_view() =~= Seq::<(u16, u16)>::empty());
    while i < ports.len()
        invariant
            0 <= i <= ports.len(),
            pv == ports.deep_view(),
            spec_all_bounds(pv.take(i as int)) == Ok::<Seq<(u16, u16)>, SettingsError>(acc.deep_view()),
        decreases ports.len() - i,
    {
        assert(pv.take(i + 1).drop_last() == pv.take(i as int));
        assert(pv.take(i + 1).last() == ports[i as int]@);
        match PortBounds::try_from(ports[i].as_str()) {
            Ok(b) => {
                let ghost before = acc.deep_view();
                acc.push(b);
                assert(acc.deep_view() =~= before.push(b.deep_view()));
            },
            Err(e) => {
                proof {
                    lemma_all_bounds_error(pv, i + 1);
                }
                return Err(e);
            },
        }
        i += 1;
    }
    assert(pv.take(i as int) == pv);
    Ok(acc)
}

/// Sets the ranges of `entry.owner` in `ps` to `entry.bounds`.
fn upsert_process(ps: &mut Vec<ProcessPorts>, entry: ProcessPorts)
    ensures
        final(ps).deep_view() == upsert(old(ps).deep_view(), entry.owner@, entry.bounds.deep_view()),
{
    let ghost pv = ps.deep_view();
    let ghost e = entry.deep_view();
    let mut j: usize = 0;
    while j < ps.len()
        invariant
            0 <= j <= ps.len(),
            pv == ps.deep_view(),
            pv == old(ps).deep_view(),
            e == entry.deep_view(),
            forall|k: int| 0 <= k < j ==> #[trigger] pv[k].0 != entry.owner@,
        decreases ps.len() - j,
    {
        if ps[j].owner == entry.owner {
            assert(pv[j as int].0 == e.0);
            ps[j] = entry;
            proof {
                lemma_upsert_at(pv, e.0, e.1, j as int);
                assert(ps.deep_view() =~= pv.update(j as int, e));
            }
            return;
        }
        j += 1;
    }
    ps.push(entry);
    proof {
        lemma_upsert_at(pv, e.0, e.1, pv.len() as int);
        assert(ps.deep_view() =~= pv.push(e));
    }
}

/// [`upsert`] replaces the first entry of the owner, or appends when
/// there is none.
pub proof fn lemma_upsert_at(
    ps: Seq<(Seq<char>, Seq<(u16, u16)>)>,
    o: Seq<char>,
    b: Seq<(u16, u16)>,
    j: int,
)
    requires
        0 <= j <= ps.len(),
        forall|k: int| 0 <= k < j ==> #[trigger] ps[k].0 != o,
        j < ps.len() ==> ps[j].0 == o,
    ensures
        j < ps.len() ==> upsert(ps, o, b) == ps.update(j, (o, b)),
        j == ps.len() ==> upsert(ps, o, b) == ps.push((o, b)),
    decreases ps.len(),
{
    if ps.len() == 0 {
        assert(seq![(o, b)] =~= ps.push((o, b)));
    } else if j == 0 {
        assert(seq![(o, b)] + ps.drop_first() =~= ps.update(0, (o, b)));
    } else {
        let t = ps.drop_first();
        assert forall|k: int| 0 <= k < j - 1 implies #[trigger] t[k].0 != o by {
            assert(t[k] == ps[k + 1]);
        }
        lemma_upsert_at(t, o, b, j - 1);
        if j < ps.len() {
            assert(seq![ps[0]] + t.update(j - 1, (o, b)) =~= ps.update(j, (o, b)));
        } else {
            assert(seq![ps[0]] + t.push((o, b)) =~= ps.push((o, b)));
        }
    }
}

impl AllowedPortsSettings {
    /// The processes as plain sequences.
    pub open spec fn processes_view(&self) -> Seq<(Seq<char>, Seq<(u16, u16)>)> {
        self.processes.deep_view()
    }

    /// Each owner is listed once.
    pub open spec fn wf(&self) -> bool {
        distinct_owners(self.processes_view())
    }

    /// Checks a configuration block: see [`spec_settings`]. The result lists
    /// each owner once, with the ranges of its last entry in the block.
    pub fn try_from(allowed_ports_config: &AllowedPortsConfig) -> (r: Result<
        AllowedPortsSettings,
        WrongAllowedPortsSettingsError,
    >)
        ensures
            match (r, spec_settings(allowed_ports_config.enabled, allowed_ports_config.processes.deep_view())) {
                (Ok(s), Ok(v)) => s.enabled == v.0 && s.processes_view() == v.1 && s.wf(),
                (Err(e), Err(v)) => e.view() == v,
                _ => false,
            },
    {
        if !allowed_ports_config.enabled || allowed_ports_config.processes.len() == 0 {
            return Ok(AllowedPortsSettings { enabled: false, processes: Vec::new() });
        }
        let procs = &allowed_ports_config.processes;
        let ghost pv = procs.deep_view();
        let mut merged: Vec<ProcessPorts> = Vec::new();
        let mut i: usize = 0;
        assert(pv.take(0) =~= Seq::<(Seq<char>, Seq<Seq<char>>)>::empty());
        assert(merged.deep_view() =~= Seq::<(Seq<char>, Seq<(u16, u16)>)>::empty());
        while i < procs.len()
            invariant
                0 <= i <= procs.len(),
                allowed_ports_config.enabled,
                procs.len() > 0,
                procs == allowed_ports_config.processes,
                pv == procs.deep_view(),
                spec_merge(pv.take(i as int)) == Ok::<Seq<(Seq<char>, Seq<(u16, u16)>)>, SettingsError>(
                    merged.deep_view(),
                ),
            decreases procs.len() - i,
        {
            assert(pv.take(i + 1).drop_last() == pv.take(i as int));
            assert(pv.take(i + 1).last() == procs[i as int].deep_view());
            match all_bounds(&procs[i].ports) {
                Ok(bounds) => {
                    upsert_process(&mut merged, ProcessPorts { owner: procs[i].owner.clone(), bounds });
                },
                Err(e) => {
                    proof {
                        let last = pv.take(i + 1).last();
                        assert(last.1 == procs[i as int].ports.deep_view());
                        assert(spec_merge(pv.take(i + 1)) == Err::<Seq<(Seq<char>, Seq<(u16, u16)>)>, SettingsError>(e.view()));
                        lemma_merge_error(pv, i + 1);
                    }
                    return Err(e);
                },
            }
            i += 1;
        }
        assert(pv.take(i as int) == pv);
        proof {
            lemma_merge_later_process_wins(pv, seq![]);
        }
        Ok(AllowedPortsSettings { enabled: true, processes: merged })
    }
}

} // verus!
