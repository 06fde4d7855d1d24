//! The allowed-ports checker: reports every listening process whose port is
//! not among the ports allowed to it.
use crate::check::{level_result, CheckResult, CheckStatus, Checker};
use super::infra::{entry_text, PortEntry};
use super::settings::{spec_lookup, AllowedPortsSettings};
use vstd::prelude::*;

verus! {

/// Where the checker gets the list of listening processes from.
pub trait OpenPortsSource: Send + Sync {
    /// The processes that listen now, or the message of what went wrong.
    fn parse_values(&self) -> Result<Vec<PortEntry>, String>;
}

/// Whether the settings `ps` allow `e`: its owner is listed, and one of the
/// owner's ranges holds its port.
pub open spec fn is_allowed(ps: Seq<(Seq<char>, Seq<(u16, u16)>)>, e: (Seq<char>, u16)) -> bool {
    match spec_lookup(ps, e.0) {
        None => false,
        Some(bs) => in_some_range(bs, e.1),
    }
}

/// Whether one of the inclusive ranges `bs` holds `port`.
pub open spec fn in_some_range(bs: Seq<(u16, u16)>, port: u16) -> bool {
    exists|i: int| 0 <= i < bs.len() && bs[i].0 <= port && port <= #[trigger] bs[i].1
}

/// The entries of `es` that the settings `ps` do not allow, in order.
pub open spec fn unallowed(ps: Seq<(Seq<char>, Seq<(u16, u16)>)>, es: Seq<(Seq<char>, u16)>) -> Seq<
    (Seq<char>, u16),
> {
    es.filter(|e: (Seq<char>, u16)| !is_allowed(ps, e))
}

/// `items` joined by `sep`.
pub open spec fn join(items: Seq<Seq<char>>, sep: Seq<char>) -> Seq<char>
    decreases items.len(),
{
    if items.len() == 0 {
        seq![]
    } else if items.len() == 1 {
        items[0]
    } else {
        join(items.drop_last(), sep) + sep + items.last()
    }
}

/// The text that lists `es`: each as `[owner]: port`, joined by `"; "`.
pub open spec fn entries_text(es: Seq<(Seq<char>, u16)>) -> Seq<char> {
    join(es.map_values(|e: (Seq<char>, u16)| entry_text(e.0, e.1)), "; "@)
}

/// The detail of a critical result for the listening processes `es`: the
/// list of those not allowed, or nothing when all are allowed.
pub open spec fn ports_report(ps: Seq<(Seq<char>, Seq<(u16, u16)>)>, es: Seq<(Seq<char>, u16)>) -> Option<
    Seq<char>,
> {
    let u = unallowed(ps, es);
    if u.len() == 0 {
        None
    } else {
        Some(entries_text(u))
    }
}

/// The report names exactly the listening processes that are not allowed:
/// none that the settings allow, and every one that they do not. So the
/// check is ok exactly when every listening process is allowed.
pub proof fn lemma_report_lists_exactly_unallowed(
    ps: Seq<(Seq<char>, Seq<(u16, u16)>)>,
    es: Seq<(Seq<char>, u16)>,
)
    ensures
        forall|k: int| 0 <= k < unallowed(ps, es).len() ==> !is_allowed(ps, #[trigger] unallowed(ps, es)[k]),
        forall|k: int| 0 <= k < es.len() && !is_allowed(ps, #[trigger] es[k]) ==> unallowed(ps, es).contains(es[k]),
        ports_report(ps, es) is None <==> forall|k: int| 0 <= k < es.len() ==> is_allowed(ps, #[trigger] es[k]),
{
    let pred = |e: (Seq<char>, u16)| !is_allowed(ps, e);
    assert forall|k: int| 0 <= k < unallowed(ps, es).len() implies !is_allowed(ps, #[trigger] unallowed(ps, es)[k]) by {
        es.lemma_filter_pred(pred, k);
    }
    assert forall|k: int| 0 <= k < es.len() && !is_allowed(ps, #[trigger] es[k]) implies unallowed(ps, es).contains(es[k]) by {
        es.lemma_filter_contains(pred, k);
    }
    if ports_report(ps, es) is None {
        assert forall|k: int| 0 <= k < es.len() implies is_allowed(ps, #[trigger] es[k]) by {
            if !is_allowed(ps, es[k]) {
                es.lemma_filter_contains(pred, k);
            }
        }
    }
    if forall|k: int| 0 <= k < es.len() ==> is_allowed(ps, #[trigger] es[k]) {
        if unallowed(ps, es).len() > 0 {
            es.lemma_filter_pred(pred, 0);
            let x = unallowed(ps, es)[0];
            assert(!is_allowed(ps, x));
            // every element of the filter comes from `es`
            lemma_filter_elements_from(es, pred, 0);
        }
    }
}

/// An entry is allowed exactly when its owner is listed and at least one of
/// the owner's ranges holds its port; any one range suffices.
pub proof fn lemma_allowed_iff_some_range_holds(
    ps: Seq<(Seq<char>, Seq<(u16, u16)>)>,
    owner: Seq<char>,
    port: u16,
)
    ensures
        is_allowed(ps, (owner, port)) <==> (spec_lookup(ps, owner) is Some && exists|i: int|
            0 <= i < spec_lookup(ps, owner)->Some_0.len() && spec_lookup(ps, owner)->Some_0[i].0
                <= port && port <= #[trigger] spec_lookup(ps, owner)->Some_0[i].1),
        forall|i: int|
            #![trigger spec_lookup(ps, owner)->Some_0[i]]
            spec_lookup(ps, owner) is Some && 0 <= i < spec_lookup(ps, owner)->Some_0.len()
                && spec_lookup(ps, owner)->Some_0[i].0 <= port && port <= spec_lookup(ps, owner)->Some_0[i].1
                ==> is_allowed(ps, (owner, port)),
{
    if spec_lookup(ps, owner) is Some {
        let bs = spec_lookup(ps, owner)->Some_0;
        assert forall|i: int| 0 <= i < bs.len() && bs[i].0 <= port && port <= bs[i].1 implies is_allowed(
            ps,
            (owner, port),
        ) by {
            assert(in_some_range(bs, port));
        }
    }
}

/// No reported entry is held by a range of its owner, and every entry that
/// no range of its owner holds is reported.
pub proof fn lemma_report_by_ranges(ps: Seq<(Seq<char>, Seq<(u16, u16)>)>, es: Seq<(Seq<char>, u16)>)
    ensures
        forall|k: int, i: int|
            0 <= k < unallowed(ps, es).len() && spec_lookup(ps, unallowed(ps, es)[k].0) is Some && 0 <= i
                < spec_lookup(ps, unallowed(ps, es)[k].0)->Some_0.len() ==> !(#[trigger] spec_lookup(
                ps,
                unallowed(ps, es)[k].0,
            )->Some_0[i].0 <= unallowed(ps, es)[k].1 && unallowed(ps, es)[k].1 <= spec_lookup(
                ps,
                unallowed(ps, es)[k].0,
            )->Some_0[i].1),
{
    lemma_report_lists_exactly_unallowed(ps, es);
    assert forall|k: int, i: int|
        0 <= k < unallowed(ps, es).len() && spec_lookup(ps, unallowed(ps, es)[k].0) is Some && 0 <= i
            < spec_lookup(ps, unallowed(ps, es)[k].0)->Some_0.len() implies !(#[trigger] spec_lookup(
        ps,
        unallowed(ps, es)[k].0,
    )->Some_0[i].0 <= unallowed(ps, es)[k].1 && unallowed(ps, es)[k].1 <= spec_lookup(
        ps,
        unallowed(ps, es)[k].0,
    )->Some_0[i].1) by {
        let e = unallowed(ps, es)[k];
        assert(!is_allowed(ps, e));
        lemma_allowed_iff_some_range_holds(ps, e.0, e.1);
        assert(e == (e.0, e.1));
    }
}

/// Every element kept by a filter is an element of the filtered sequence.
pub proof fn lemma_filter_elements_from<A>(s: Seq<A>, pred: spec_fn(A) -> bool, k: int)
    requires
        0 <= k < s.filter(pred).len(),
    ensures
        s.contains(s.filter(pred)[k]),
    decreases s.len(),
{
    reveal(Seq::filter);
    let f = s.drop_last().filter(pred);
    if pred(s.last()) && k == f.len() {
        assert(s[s.len() - 1] == s.last());
    } else {
        lemma_filter_elements_from(s.drop_last(), pred, k);
        let j = choose|j: int| 0 <= j < s.drop_last().len() && s.drop_last()[j] == f[k];
        assert(s[j] == s.drop_last()[j]);
    }
}

/// Checks that only the configured processes listen, and only on their ports.
pub struct AllowedPortsChecker<S: OpenPortsSource> {
    settings: AllowedPortsSettings,
    name: String,
    source: S,
}

impl<S: OpenPortsSource> AllowedPortsChecker<S> {
    /// The name of the checker.
    pub closed spec fn spec_name(&self) -> Seq<char> {
        self.name@
    }

    /// Whether the checker is switched on.
    pub closed spec fn spec_enabled(&self) -> bool {
        self.settings.enabled
    }

    /// The allowed owners and ranges.
    pub closed spec fn spec_processes(&self) -> Seq<(Seq<char>, Seq<(u16, u16)>)> {
        self.settings.processes_view()
    }

    /// The source the checker reads.
    pub closed spec fn spec_source(&self) -> S {
        self.source
    }

    pub fn new(settings: AllowedPortsSettings, source: S) -> (r: Self)
        ensures
            r.spec_name() == "allowed_ports"@,
            r.spec_enabled() == settings.enabled,
            r.spec_processes() == settings.processes_view(),
            r.spec_source() == source,
    {
        AllowedPortsChecker { settings, name: String::from_str("allowed_ports"), source }
    }

    /// Whether the settings allow `entry`.
    fn is_allowed_entry(&self, entry: &PortEntry) -> (b: bool)
        ensures
            b == is_allowed(self.spec_processes(), entry.deep_view()),
    {
        let ps = &self.settings.processes;
        let ghost pv = ps.deep_view();
        let mut j: usize = 0;
        assert(pv.skip(0) == pv);
        while j < ps.len()
            invariant
                0 <= j <= ps.len(),
                pv == ps.deep_view(),
                pv == self.spec_processes(),
                spec_lookup(pv, entry.owner@) == spec_lookup(pv.skip(j as int), entry.owner@),
            decreases ps.len() - j,
        {
            let ghost rest = pv.skip(j as int);
            assert(rest[0] == ps@[j as int].deep_view());
            if ps[j].owner == entry.owner {
                let bounds = &ps[j].bounds;
                assert(spec_lookup(rest, entry.owner@) == Some(bounds.deep_view()));
                let mut k: usize = 0;
                while k < bounds.len()
                    invariant
                        0 <= k <= bounds.len(),
                        spec_lookup(self.spec_processes(), entry.owner@) == Some(bounds.deep_view()),
                        forall|m: int| 0 <= m < k ==> !(bounds@[m].min <= entry.port && entry.port
                            <= #[trigger] bounds@[m].max),
                    decreases bounds.len() - k,
                {
                    if bounds[k].min <= entry.port && entry.port <= bounds[k].max {
                        let ghost bs = bounds.deep_view();
                        assert(bs[k as int] == (bounds@[k as int].min, bounds@[k as int].max));
                        assert(bs[k as int].0 <= entry.port && entry.port <= bs[k as int].1);
                        assert(in_some_range(bs, entry.port));
                        return true;
                    }
                    k += 1;
                }
                proof {
                    let bs = bounds.deep_view();
                    assert forall|m: int| 0 <= m < bs.len() implies !(bs[m].0 <= entry.port
                        && entry.port <= #[trigger] bs[m].1) by {
                        assert(bs[m] == (bounds@[m].min, bounds@[m].max));
                    }
                }
                return false;
            }
            assert(rest.drop_first() == pv.skip(j + 1));
            j += 1;
        }
        assert(pv.skip(j as int).len() == 0);
        false
    }

    /// The listed entries, each as `[owner]: port`, joined by `"; "`.
    pub fn format_response(&self, open_ports: Vec<PortEntry>) -> (s: String)
        ensures
            s@ == entries_text(open_ports.deep_view()),
    {
        let ghost ev = open_ports.deep_view();
        let ghost items = ev.map_values(|e: (Seq<char>, u16)| entry_text(e.0, e.1));
        let mut out = String::new();
        let mut i: usize = 0;
        assert(items.take(0) =~= Seq::<Seq<char>>::empty());
        while i < open_ports.len()
            invariant
                0 <= i <= open_ports.len(),
                ev == open_ports.deep_view(),
                items == ev.map_values(|e: (Seq<char>, u16)| entry_text(e.0, e.1)),
                out@ == join(items.take(i as int), "; "@),
            decreases open_ports.len() - i,
        {
            let text = open_ports[i].to_string();
            assert(text@ == items[i as int]);
            assert(items.take(i + 1).drop_last() == items.take(i as int));
            if i > 0 {
                out.append("; ");
            } else {
                assert(items.take(1) =~= seq![items[0]]);
            }
            out.append(text.as_str());
            i += 1;
        }
        assert(items.take(i as int) == items);
        out
    }

    /// The result for the listening processes `open_ports` of an enabled
    /// checker: critical with the list of the processes that are not allowed,
    /// or ok when every one is allowed.
    pub fn evaluate(&self, open_ports: Vec<PortEntry>) -> (r: CheckResult)
        ensures
            r.view() == level_result(
                self.spec_name(),
                ports_report(self.spec_processes(), open_ports.deep_view()),
                None,
            ),
    {
        let ghost ps = self.spec_processes();
        let ghost ev = open_ports.deep_view();
        let mut filtered: Vec<PortEntry> = Vec::new();
        let mut i: usize = 0;
        assert(ev.take(0) =~= Seq::<(Seq<char>, u16)>::empty());
        assert(filtered.deep_view() =~= Seq::<(Seq<char>, u16)>::empty());
        proof {
            reveal(Seq::filter);
        }
        while i < open_ports.len()
            invariant
                0 <= i <= open_ports.len(),
                ev == open_ports.deep_view(),
                ps == self.spec_processes(),
                filtered.deep_view() == unallowed(ps, ev.take(i as int)),
            decreases open_ports.len() - i,
        {
            proof {
                reveal(Seq::filter);
            }
            assert(ev.take(i + 1).drop_last() == ev.take(i as int));
            assert(ev.take(i + 1).last() == ev[i as int]);
            if !self.is_allowed_entry(&open_ports[i]) {
                let ghost before = filtered.deep_view();
                let ghost before_v = filtered@;
                let e = PortEntry { owner: open_ports[i].owner.clone(), port: open_ports[i].port };
                filtered.push(e);
                assert forall|k: int| 0 <= k < before.len() implies #[trigger] filtered.deep_view()[k]
                    == before[k] by {
                    assert(filtered@[k] == before_v[k]);
                }
                assert(filtered.deep_view() =~= before.push(ev[i as int]));
            }
            i += 1;
        }
        assert(ev.take(i as int) == ev);
        if filtered.len() == 0 {
            CheckResult::from_levels(self.name.clone(), None, None)
        } else {
            let descr = self.format_response(filtered);
            CheckResult::from_levels(self.name.clone(), Some(descr), None)
        }
    }
}

impl<S: OpenPortsSource> Checker for AllowedPortsChecker<S> {
    fn get_name(&self) -> (n: &str)
        ensures
            n@ == self.spec_name(),
    {
        self.name.as_str()
    }

    fn is_enabled(&self) -> (b: bool)
        ensures
            b == self.spec_enabled(),
    {
        self.settings.enabled
    }

    /// Disabled when switched off; else the result of [`Self::evaluate`] for
    /// what the source reports, or the source's error.
    fn check(&self) -> (r: Result<CheckResult, String>)
        ensures
            !self.spec_enabled() ==> (r matches Ok(res) && res.view() == (
                self.spec_name(),
                CheckStatus::DISABLED,
                None::<Seq<char>>,
            )),
            r is Err ==> self.spec_enabled(),
            self.spec_enabled() ==> (r matches Ok(res) ==> exists|es: Seq<(Seq<char>, u16)>|
                res.view() == level_result(
                    self.spec_name(),
                    #[trigger] ports_report(self.spec_processes(), es),
                    None,
                )),
    {
        if !self.is_enabled() {
            return Ok(CheckResult::disabled(self.name.clone()));
        }
        match self.source.parse_values() {
            Err(e) => Err(e),
            Ok(open_ports) => {
                let ghost es = open_ports.deep_view();
                let res = self.evaluate(open_ports);
                assert(res.view() == level_result(self.spec_name(), ports_report(self.spec_processes(), es), None));
                Ok(res)
            },
        }
    }
}

} // verus!
