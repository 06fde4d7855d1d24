//! Results of health checks and the rules that turn measurements into them.
use vstd::prelude::*;

verus! {

/// The outcome of one checker.
#[derive(Clone, Copy, Debug, PartialEq, Eq, Structural)]
pub enum CheckStatus {
    OK,
    ERROR,
    WARNING,
    CRITICAL,
    DISABLED,
}

/// What one checker reports: its name, its status and an optional detail.
#[derive(Clone, Debug, PartialEq, Eq)]
pub struct CheckResult {
    pub name: String,
    pub result: CheckStatus,
    pub descr: Option<String>,
}

/// A source of one health signal that can be asked for its current result.
pub trait Checker: Send + Sync {
    fn get_name(&self) -> &str;

    fn is_enabled(&self) -> bool;

    /// The current result, or the message of what kept the checker from
    /// measuring.
    fn check(&self) -> Result<CheckResult, String>;
}

/// The result that [`CheckResult::from_levels`] gives for the details of the
/// critical and the warning level.
pub open spec fn level_result(
    name: Seq<char>,
    critical: Option<Seq<char>>,
    warning: Option<Seq<char>>,
) -> (Seq<char>, CheckStatus, Option<Seq<char>>) {
    match critical {
        Some(d) => (name, CheckStatus::CRITICAL, Some(d)),
        None => match warning {
            Some(d) => (name, CheckStatus::WARNING, Some(d)),
            None => (name, CheckStatus::OK, None),
        },
    }
}

impl CheckResult {
    /// The value of a result as plain sequences.
    pub open spec fn view(&self) -> (Seq<char>, CheckStatus, Option<Seq<char>>) {
        (self.name@, self.result, self.descr.deep_view())
    }

    pub fn new(name: String, result: CheckStatus, descr: Option<String>) -> (r: Self)
        ensures
            r.name == name,
            r.result == result,
            r.descr == descr,
    {
        CheckResult { name, result, descr }
    }

    /// The result of a checker that is switched off.
    pub fn disabled(name: String) -> (r: Self)
        ensures
            r.name == name,
            r.result == CheckStatus::DISABLED,
            r.descr is None,
    {
        CheckResult::new(name, CheckStatus::DISABLED, None)
    }

    /// The result of an enabled checker: critical when the critical level is
    /// exceeded (with its detail), else warning when the warning level is
    /// exceeded (with its detail), else ok.
    pub fn from_levels(name: String, critical: Option<String>, warning: Option<String>) -> (r: Self)
        ensures
            r.view() == level_result(name@, critical.deep_view(), warning.deep_view()),
            r.name == name,
            critical matches Some(d) ==> r.descr == Some(d),
            critical is None ==> r.descr == warning,
    {
        match critical {
            Some(d) => CheckResult::new(name, CheckStatus::CRITICAL, Some(d)),
            None => match warning {
                Some(d) => CheckResult::new(name, CheckStatus::WARNING, Some(d)),
                None => CheckResult::new(name, CheckStatus::OK, None),
            },
        }
    }

    /// The result reported for a checker named `name` whose check returned
    /// `outcome`: the check's own result, or an error result that carries
    /// the failure's message.
    pub fn from_outcome(name: &str, outcome: Result<CheckResult, String>) -> (r: Self)
        ensures
            outcome matches Ok(res) ==> r == res,
            outcome matches Err(msg) ==> r.name@ == name@ && r.result == CheckStatus::ERROR
                && r.descr == Some(msg),
    {
        match outcome {
            Ok(res) => res,
            Err(msg) => CheckResult::new(String::from_str(name), CheckStatus::ERROR, Some(msg)),
        }
    }

    /// The result reported for a check that ran on a worker: its result, or,
    /// when the worker did not finish, an error result of an unknown checker.
    pub fn from_task(joined: Option<CheckResult>) -> (r: Self)
        ensures
            joined matches Some(res) ==> r == res,
            joined is None ==> r.name@ == "unknown"@ && r.result == CheckStatus::ERROR
                && r.descr.deep_view() == Some("Join error"@),
    {
        match joined {
            Some(res) => res,
            None => CheckResult::new(
                String::from_str("unknown"),
                CheckStatus::ERROR,
                Some(String::from_str("Join error")),
            ),
        }
    }
}

/// How a checker with a warning and a critical threshold is set up.
#[derive(Clone, Copy, Debug, PartialEq, Eq)]
pub enum ThresholdMode<T> {
    /// The checker is switched off; its thresholds are not used.
    Disabled,
    /// The checker runs with these thresholds.
    Enabled { warning: T, critical: T },
}

/// The set-up that a checker's configuration asks for: off when `enabled`
/// is explicitly `false`, else on with both thresholds, which must then be
/// given (`None` when one is missing).
pub open spec fn spec_resolve_thresholds<T>(
    enabled: Option<bool>,
    warning: Option<T>,
    critical: Option<T>,
) -> Option<ThresholdMode<T>> {
    if enabled == Some(false) {
        Some(ThresholdMode::Disabled)
    } else {
        match (warning, critical) {
            (Some(w), Some(c)) => Some(ThresholdMode::Enabled { warning: w, critical: c }),
            _ => None,
        }
    }
}

/// A checker is switched off exactly when its configuration says
/// `"enabled": false`; otherwise it runs with the two given thresholds, and a
/// missing threshold is an error (never a silent switch-off).
pub proof fn lemma_resolve_thresholds<T>(enabled: Option<bool>, warning: Option<T>, critical: Option<T>)
    ensures
        (spec_resolve_thresholds(enabled, warning, critical) == Some(ThresholdMode::<T>::Disabled))
            <==> enabled == Some(false),
        spec_resolve_thresholds(enabled, warning, critical) is None <==> (enabled != Some(false) && (
        warning is None || critical is None)),
        spec_resolve_thresholds(enabled, warning, critical) matches Some(
            ThresholdMode::Enabled { warning: w, critical: c },
        ) ==> enabled != Some(false) && warning == Some(w) && critical == Some(c),
        (enabled != Some(false) && warning is Some && critical is Some) ==> spec_resolve_thresholds(
            enabled,
            warning,
            critical,
        ) == Some((ThresholdMode::Enabled { warning: warning->Some_0, critical: critical->Some_0 })),
{
}

/// Decides how a checker is set up from its configuration; see
/// [`spec_resolve_thresholds`].
pub fn resolve_thresholds<T>(enabled: Option<bool>, warning: Option<T>, critical: Option<T>) -> (r:
    Option<ThresholdMode<T>>)
    ensures
        r == spec_resolve_thresholds(enabled, warning, critical),
        (r == Some(ThresholdMode::<T>::Disabled)) <==> enabled == Some(false),
        r is None <==> (enabled != Some(false) && (warning is None || critical is None)),
        enabled != Some(false) ==> (r matches Some(ThresholdMode::Enabled { warning: w, critical: c })
            ==> warning == Some(w) && critical == Some(c)),
{
    proof {
        lemma_resolve_thresholds(enabled, warning, critical);
    }
    if let Some(false) = enabled {
        return Some(ThresholdMode::Disabled);
    }
    match (warning, critical) {
        (Some(w), Some(c)) => Some(ThresholdMode::Enabled { warning: w, critical: c }),
        _ => None,
    }
}

} // verus!
