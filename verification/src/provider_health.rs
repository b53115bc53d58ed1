//! The health of the runtime's provider seams: what each check reports, how
//! failures are counted across checks, the degraded level and safe mode they
//! put the runtime in, and the events and refusals that follow.
use vstd::prelude::*;

use crate::assoc::{assoc_find, assoc_insert, keys_strictly_sorted, lookup};
use crate::runtime_core::{RuntimeHealth, RuntimeHealthStatus};
use crate::static_routes::opt_view;
use crate::text::{
    chars_of, decimal, decimal_text, extend_chars, join, join_texts, string_of, text, text_eq,
    texts_of,
};

verus! {

// ---------------------------------------------------------------------------
// Status names
// ---------------------------------------------------------------------------

pub open spec fn status_label(status: RuntimeHealthStatus) -> Seq<char> {
    match status {
        RuntimeHealthStatus::Unknown => "unknown"@,
        RuntimeHealthStatus::Available => "available"@,
        RuntimeHealthStatus::Degraded => "degraded"@,
        RuntimeHealthStatus::Unavailable => "unavailable"@,
    }
}

/// The lower-case name of a health status.
pub fn runtime_health_status_name(status: RuntimeHealthStatus) -> (r: &'static str)
    ensures
        r@ == status_label(status),
{
    match status {
        RuntimeHealthStatus::Unknown => "unknown",
        RuntimeHealthStatus::Available => "available",
        RuntimeHealthStatus::Degraded => "degraded",
        RuntimeHealthStatus::Unavailable => "unavailable",
    }
}

/// Where a provider stands between failing and recovering.
#[derive(Clone, Copy, Debug, PartialEq, Eq, Structural)]
pub enum RecoveryState {
    Steady,
    Recovering,
    Failing,
    Unknown,
}

pub open spec fn recovery_label(state: RecoveryState) -> Seq<char> {
    match state {
        RecoveryState::Steady => "steady"@,
        RecoveryState::Recovering => "recovering"@,
        RecoveryState::Failing => "failing"@,
        RecoveryState::Unknown => "unknown"@,
    }
}

/// The lower-case name of a recovery state.
pub fn recovery_state_name(state: RecoveryState) -> (r: &'static str)
    ensures
        r@ == recovery_label(state),
{
    match state {
        RecoveryState::Steady => "steady",
        RecoveryState::Recovering => "recovering",
        RecoveryState::Failing => "failing",
        RecoveryState::Unknown => "unknown",
    }
}

// ---------------------------------------------------------------------------
// Reports
// ---------------------------------------------------------------------------

/// What one health check found about one provider class.
#[derive(Debug, PartialEq, Eq)]
pub struct RuntimeProviderHealthReport {
    pub provider_class: String,
    pub required: bool,
    pub configured: bool,
    pub status: RuntimeHealthStatus,
    pub reason: Option<String>,
    pub last_checked_at_unix_ms: u64,
    pub consecutive_failures: u64,
    pub recovery_state: RecoveryState,
}

pub struct ReportView {
    pub provider_class: Seq<char>,
    pub required: bool,
    pub configured: bool,
    pub status: RuntimeHealthStatus,
    pub reason: Option<Seq<char>>,
    pub last_checked_at_unix_ms: u64,
    pub consecutive_failures: u64,
    pub recovery_state: RecoveryState,
}

impl View for RuntimeProviderHealthReport {
    type V = ReportView;

    open spec fn view(&self) -> ReportView {
        ReportView {
            provider_class: self.provider_class@,
            required: self.required,
            configured: self.configured,
            status: self.status,
            reason: opt_view(self.reason),
            last_checked_at_unix_ms: self.last_checked_at_unix_ms,
            consecutive_failures: self.consecutive_failures,
            recovery_state: self.recovery_state,
        }
    }
}

impl Clone for RuntimeProviderHealthReport {
    fn clone(&self) -> (r: Self)
        ensures
            r@ == self@,
    {
        RuntimeProviderHealthReport {
            provider_class: self.provider_class.clone(),
            required: self.required,
            configured: self.configured,
            status: self.status,
            reason: match &self.reason {
                Some(x) => Some(x.clone()),
                None => None,
            },
            last_checked_at_unix_ms: self.last_checked_at_unix_ms,
            consecutive_failures: self.consecutive_failures,
            recovery_state: self.recovery_state,
        }
    }
}

pub open spec fn reports_view(s: Seq<RuntimeProviderHealthReport>) -> Seq<ReportView> {
    s.map_values(|r: RuntimeProviderHealthReport| r@)
}

/// The report a provider seam gives: unconfigured (`None`), the health it
/// answered, or the error it answered with.
pub open spec fn seam_report(
    provider_class: Seq<char>,
    required: bool,
    health: Option<Result<(RuntimeHealthStatus, Option<Seq<char>>), Seq<char>>>,
) -> ReportView {
    match health {
        None => ReportView {
            provider_class,
            required,
            configured: false,
            status: if required {
                RuntimeHealthStatus::Unavailable
            } else {
                RuntimeHealthStatus::Unknown
            },
            reason: Some("unconfigured"@),
            last_checked_at_unix_ms: 0,
            consecutive_failures: 0,
            recovery_state: RecoveryState::Unknown,
        },
        Some(Ok((status, reason))) => ReportView {
            provider_class,
            required,
            configured: true,
            status,
            reason,
            last_checked_at_unix_ms: 0,
            consecutive_failures: 0,
            recovery_state: RecoveryState::Unknown,
        },
        Some(Err(e)) => ReportView {
            provider_class,
            required,
            configured: true,
            status: RuntimeHealthStatus::Unavailable,
            reason: Some(e),
            last_checked_at_unix_ms: 0,
            consecutive_failures: 0,
            recovery_state: RecoveryState::Unknown,
        },
    }
}

pub open spec fn health_outcome_view(health: Option<Result<RuntimeHealth, String>>) -> Option<
    Result<(RuntimeHealthStatus, Option<Seq<char>>), Seq<char>>,
> {
    match health {
        None => None,
        Some(Ok(h)) => Some(Ok((h.status, opt_view(h.reason)))),
        Some(Err(e)) => Some(Err(e@)),
    }
}

/// The report for one provider class from what its seam answered when asked
/// for its health: `None` when the seam is not configured.
pub fn provider_health_report(
    provider_class: &str,
    required: bool,
    health: Option<Result<RuntimeHealth, String>>,
) -> (r: RuntimeProviderHealthReport)
    ensures
        r@ == seam_report(provider_class@, required, health_outcome_view(health)),
{
    match health {
        None => {
            proof {
                reveal_strlit("unconfigured");
            }
            RuntimeProviderHealthReport {
                provider_class: text(provider_class),
                required,
                configured: false,
                status: if required {
                    RuntimeHealthStatus::Unavailable
                } else {
                    RuntimeHealthStatus::Unknown
                },
                reason: Some(text("unconfigured")),
                last_checked_at_unix_ms: 0,
                consecutive_failures: 0,
                recovery_state: RecoveryState::Unknown,
            }
        },
        Some(Ok(h)) => RuntimeProviderHealthReport {
            provider_class: text(provider_class),
            required,
            configured: true,
            status: h.status,
            reason: h.reason,
            last_checked_at_unix_ms: 0,
            consecutive_failures: 0,
            recovery_state: RecoveryState::Unknown,
        },
        Some(Err(e)) => RuntimeProviderHealthReport {
            provider_class: text(provider_class),
            required,
            configured: true,
            status: RuntimeHealthStatus::Unavailable,
            reason: Some(e),
            last_checked_at_unix_ms: 0,
            consecutive_failures: 0,
            recovery_state: RecoveryState::Unknown,
        },
    }
}

// ---------------------------------------------------------------------------
// Failure counting and transitions of one provider
// ---------------------------------------------------------------------------

/// What the registry remembers of a provider class between checks.
#[derive(Clone, Copy, Debug, PartialEq, Eq, Structural)]
pub struct RuntimeProviderHealthMemory {
    pub status: RuntimeHealthStatus,
    pub consecutive_failures: u64,
}

pub open spec fn is_failing(status: RuntimeHealthStatus) -> bool {
    status == RuntimeHealthStatus::Degraded || status == RuntimeHealthStatus::Unavailable
}

/// The failure count and recovery state after a check with `status`: an
/// available provider has no failures and is recovering if it was not
/// available before; a failing one counts up while its status stays the same
/// and starts again at one when it changes.
pub open spec fn progress(previous: Option<RuntimeProviderHealthMemory>, status: RuntimeHealthStatus) -> (
    nat,
    RecoveryState,
) {
    if status == RuntimeHealthStatus::Available {
        (
            0,
            match previous {
                Some(p) => if p.status != RuntimeHealthStatus::Available {
                    RecoveryState::Recovering
                } else {
                    RecoveryState::Steady
                },
                None => RecoveryState::Steady,
            },
        )
    } else if is_failing(status) {
        (
            match previous {
                Some(p) => if p.status == status {
                    (p.consecutive_failures + 1) as nat
                } else {
                    1
                },
                None => 1,
            },
            RecoveryState::Failing,
        )
    } else {
        (0, RecoveryState::Unknown)
    }
}

/// The failure count `progress` gives fits a `u64`: it only grows when the
/// provider keeps failing with the status it had.
pub open spec fn progress_fits(previous: Option<RuntimeProviderHealthMemory>, status: RuntimeHealthStatus) -> bool {
    match previous {
        Some(p) => is_failing(status) && p.status == status ==> p.consecutive_failures < u64::MAX,
        None => true,
    }
}

/// Counts failures and recovery for a provider checked with `current_status`.
pub fn provider_health_progress(
    previous: Option<&RuntimeProviderHealthMemory>,
    current_status: RuntimeHealthStatus,
) -> (r: (u64, RecoveryState))
    requires
        progress_fits(
            match previous {
                Some(p) => Some(*p),
                None => None,
            },
            current_status,
        ),
    ensures
        r.0 as nat == progress(
            match previous {
                Some(p) => Some(*p),
                None => None,
            },
            current_status,
        ).0,
        r.1 == progress(
            match previous {
                Some(p) => Some(*p),
                None => None,
            },
            current_status,
        ).1,
        current_status == RuntimeHealthStatus::Available ==> r.0 == 0 && r.1 == if previous matches Some(
            p,
        ) && p.status != RuntimeHealthStatus::Available {
            RecoveryState::Recovering
        } else {
            RecoveryState::Steady
        },
        current_status == RuntimeHealthStatus::Unknown ==> r.0 == 0 && r.1 == RecoveryState::Unknown,
        is_failing(current_status) ==> r.1 == RecoveryState::Failing,
        is_failing(current_status) && (previous matches Some(p) ==> p.status != current_status)
            ==> r.0 == 1,
        previous matches Some(p) ==> (p.status == current_status && is_failing(current_status)
            ==> r.0 == p.consecutive_failures + 1),
{
    match current_status {
        RuntimeHealthStatus::Available => {
            let recovering = match previous {
                Some(p) => p.status != RuntimeHealthStatus::Available,
                None => false,
            };
            (
                0,
                if recovering {
                    RecoveryState::Recovering
                } else {
                    RecoveryState::Steady
                },
            )
        },
        RuntimeHealthStatus::Degraded | RuntimeHealthStatus::Unavailable => {
            let n = match previous {
                Some(p) => if p.status == current_status {
                    p.consecutive_failures + 1
                } else {
                    1
                },
                None => 1,
            };
            (n, RecoveryState::Failing)
        },
        RuntimeHealthStatus::Unknown => (0, RecoveryState::Unknown),
    }
}

/// The kind of a provider transition event.
#[derive(Clone, Copy, Debug, PartialEq, Eq, Structural)]
pub enum ProviderTransitionKind {
    Recovery,
    Outage,
}

/// How loud an event is.
#[derive(Clone, Copy, Debug, PartialEq, Eq, Structural)]
pub enum Severity {
    Info,
    Warn,
}

pub open spec fn severity_label(s: Severity) -> Seq<char> {
    match s {
        Severity::Info => "info"@,
        Severity::Warn => "warn"@,
    }
}

pub fn severity_name(s: Severity) -> (r: &'static str)
    ensures
        r@ == severity_label(s),
{
    match s {
        Severity::Info => "info",
        Severity::Warn => "warn",
    }
}

pub open spec fn transition_kind_label(k: ProviderTransitionKind) -> Seq<char> {
    match k {
        ProviderTransitionKind::Recovery => "runtime.provider_recovery"@,
        ProviderTransitionKind::Outage => "runtime.provider_outage"@,
    }
}

pub fn transition_kind_name(k: ProviderTransitionKind) -> (r: &'static str)
    ensures
        r@ == transition_kind_label(k),
{
    match k {
        ProviderTransitionKind::Recovery => "runtime.provider_recovery",
        ProviderTransitionKind::Outage => "runtime.provider_outage",
    }
}

/// A provider that recovered or went down since the last check.
#[derive(Debug, PartialEq, Eq)]
pub struct ProviderTransitionEvent {
    pub kind: ProviderTransitionKind,
    pub severity: Severity,
    pub outcome: RuntimeHealthStatus,
    pub provider_class: String,
    pub previous_status: Option<RuntimeHealthStatus>,
    pub current_status: RuntimeHealthStatus,
    pub reason: Option<String>,
}

pub struct TransitionView {
    pub kind: ProviderTransitionKind,
    pub severity: Severity,
    pub outcome: RuntimeHealthStatus,
    pub provider_class: Seq<char>,
    pub previous_status: Option<RuntimeHealthStatus>,
    pub current_status: RuntimeHealthStatus,
    pub reason: Option<Seq<char>>,
}

impl View for ProviderTransitionEvent {
    type V = TransitionView;

    open spec fn view(&self) -> TransitionView {
        TransitionView {
            kind: self.kind,
            severity: self.severity,
            outcome: self.outcome,
            provider_class: self.provider_class@,
            previous_status: self.previous_status,
            current_status: self.current_status,
            reason: opt_view(self.reason),
        }
    }
}

/// The event a check raises: a recovery when a provider that was known and
/// not available is available again, an outage when a provider is newly
/// degraded or unavailable (a warning when unavailable), nothing when its
/// status did not change.
pub open spec fn transition(previous: Option<RuntimeProviderHealthMemory>, current: ReportView) -> Option<
    TransitionView,
> {
    let previous_status = match previous {
        Some(p) => Some(p.status),
        None => None,
    };
    if previous_status == Some(current.status) {
        None
    } else if current.status == RuntimeHealthStatus::Available && previous_status is Some {
        Some(
            TransitionView {
                kind: ProviderTransitionKind::Recovery,
                severity: Severity::Info,
                outcome: RuntimeHealthStatus::Available,
                provider_class: current.provider_class,
                previous_status,
                current_status: current.status,
                reason: current.reason,
            },
        )
    } else if is_failing(current.status) {
        Some(
            TransitionView {
                kind: ProviderTransitionKind::Outage,
                severity: if current.status == RuntimeHealthStatus::Unavailable {
                    Severity::Warn
                } else {
                    Severity::Info
                },
                outcome: current.status,
                provider_class: current.provider_class,
                previous_status,
                current_status: current.status,
                reason: current.reason,
            },
        )
    } else {
        None
    }
}

pub open spec fn opt_transition_view(e: Option<ProviderTransitionEvent>) -> Option<TransitionView> {
    match e {
        Some(x) => Some(x@),
        None => None,
    }
}

/// The transition event, if any, of a provider checked again.
pub fn provider_transition_event(
    previous: Option<&RuntimeProviderHealthMemory>,
    current: &RuntimeProviderHealthReport,
) -> (r: Option<ProviderTransitionEvent>)
    ensures
        opt_transition_view(r) == transition(
            match previous {
                Some(p) => Some(*p),
                None => None,
            },
            current@,
        ),
{
    let previous_status = match previous {
        Some(p) => Some(p.status),
        None => None,
    };
    let same = match previous_status {
        Some(s) => s == current.status,
        None => false,
    };
    if same {
        return None;
    }
    let reason = match &current.reason {
        Some(x) => Some(x.clone()),
        None => None,
    };
    if current.status == RuntimeHealthStatus::Available && previous_status.is_some() {
        return Some(
            ProviderTransitionEvent {
                kind: ProviderTransitionKind::Recovery,
                severity: Severity::Info,
                outcome: RuntimeHealthStatus::Available,
                provider_class: current.provider_class.clone(),
                previous_status,
                current_status: current.status,
                reason,
            },
        );
    }
    match current.status {
        RuntimeHealthStatus::Degraded | RuntimeHealthStatus::Unavailable => Some(
            ProviderTransitionEvent {
                kind: ProviderTransitionKind::Outage,
                severity: if current.status == RuntimeHealthStatus::Unavailable {
                    Severity::Warn
                } else {
                    Severity::Info
                },
                outcome: current.status,
                provider_class: current.provider_class.clone(),
                previous_status,
                current_status: current.status,
                reason,
            },
        ),
        _ => None,
    }
}

// ---------------------------------------------------------------------------
// Degraded level
// ---------------------------------------------------------------------------

pub open spec fn required_unavailable(r: ReportView) -> bool {
    r.required && r.status == RuntimeHealthStatus::Unavailable
}

pub open spec fn required_degraded(r: ReportView) -> bool {
    r.required && r.status == RuntimeHealthStatus::Degraded
}

pub open spec fn optional_issue(r: ReportView) -> bool {
    !r.required && is_failing(r.status)
}

/// 3 when a required provider is unavailable, else 2 when a required one is
/// degraded, else 1 when an optional one is degraded or unavailable, else 0.
pub open spec fn degraded_level(reports: Seq<ReportView>) -> u8 {
    if exists|i: int| 0 <= i < reports.len() && #[trigger] required_unavailable(reports[i]) {
        3
    } else if exists|i: int| 0 <= i < reports.len() && #[trigger] required_degraded(reports[i]) {
        2
    } else if exists|i: int| 0 <= i < reports.len() && #[trigger] optional_issue(reports[i]) {
        1
    } else {
        0
    }
}

/// The degraded level of a set of reports.
pub fn compute_degraded_level(reports: &[RuntimeProviderHealthReport]) -> (r: u8)
    ensures
        r == degraded_level(reports_view(reports@)),
{
    let ghost rv = reports_view(reports@);
    let mut req_unavailable = false;
    let mut req_degraded = false;
    let mut opt_issue = false;
    let mut i: usize = 0;
    while i < reports.len()
        invariant
            i <= reports@.len(),
            rv == reports_view(reports@),
            req_unavailable == exists|k: int| 0 <= k < i && #[trigger] required_unavailable(rv[k]),
            req_degraded == exists|k: int| 0 <= k < i && #[trigger] required_degraded(rv[k]),
            opt_issue == exists|k: int| 0 <= k < i && #[trigger] optional_issue(rv[k]),
        decreases reports@.len() - i,
    {
        let r = &reports[i];
        assert(rv[i as int] == r@);
        if r.required && r.status == RuntimeHealthStatus::Unavailable {
            req_unavailable = true;
        }
        if r.required && r.status == RuntimeHealthStatus::Degraded {
            req_degraded = true;
        }
        if !r.required && (r.status == RuntimeHealthStatus::Degraded || r.status
            == RuntimeHealthStatus::Unavailable) {
            opt_issue = true;
        }
        proof {
            assert(required_unavailable(rv[i as int]) == (r.required && r.status
                == RuntimeHealthStatus::Unavailable));
            assert(required_degraded(rv[i as int]) == (r.required && r.status
                == RuntimeHealthStatus::Degraded));
            assert(optional_issue(rv[i as int]) == (!r.required && (r.status
                == RuntimeHealthStatus::Degraded || r.status == RuntimeHealthStatus::Unavailable)));
        }
        i += 1;
    }
    if req_unavailable {
        3
    } else if req_degraded {
        2
    } else if opt_issue {
        1
    } else {
        0
    }
}

/// The overall status of a degraded level.
pub open spec fn level_status(level: u8) -> RuntimeHealthStatus {
    if level == 0 {
        RuntimeHealthStatus::Available
    } else if level <= 2 {
        RuntimeHealthStatus::Degraded
    } else {
        RuntimeHealthStatus::Unavailable
    }
}

pub fn degraded_level_status(level: u8) -> (r: RuntimeHealthStatus)
    ensures
        r == level_status(level),
{
    if level == 0 {
        RuntimeHealthStatus::Available
    } else if level <= 2 {
        RuntimeHealthStatus::Degraded
    } else {
        RuntimeHealthStatus::Unavailable
    }
}

/// The name of the overall status of a degraded level.
pub fn degraded_level_status_name(level: u8) -> (r: &'static str)
    ensures
        r@ == status_label(level_status(level)),
{
    runtime_health_status_name(degraded_level_status(level))
}

// ---------------------------------------------------------------------------
// The registry
// ---------------------------------------------------------------------------

/// What a round of health checks amounts to.
#[derive(Debug, PartialEq, Eq)]
pub struct RuntimeProviderHealthState {
    pub overall_status: RuntimeHealthStatus,
    pub safe_mode: bool,
    pub degraded_level: u8,
    pub direct_execution_allowed: bool,
    pub reports: Vec<RuntimeProviderHealthReport>,
}

/// A change of the runtime's overall mode between two rounds of checks.
#[derive(Clone, Copy, Debug, PartialEq, Eq, Structural)]
pub struct ModeTransition {
    pub previous_overall_status: RuntimeHealthStatus,
    pub overall_status: RuntimeHealthStatus,
    pub previous_safe_mode: bool,
    pub safe_mode: bool,
    pub previous_degraded_level: u8,
    pub degraded_level: u8,
}

/// The outcome of a round of checks: the new state, the mode change if the
/// overall status changed, and each provider's transition.
#[derive(Debug, PartialEq, Eq)]
pub struct ProviderHealthUpdateResult {
    pub snapshot: RuntimeProviderHealthState,
    pub mode_transition: Option<ModeTransition>,
    pub provider_transitions: Vec<ProviderTransitionEvent>,
}

pub open spec fn transitions_view(s: Seq<ProviderTransitionEvent>) -> Seq<TransitionView> {
    s.map_values(|e: ProviderTransitionEvent| e@)
}

/// What the runtime remembers of provider health between rounds of checks.
#[derive(Debug)]
pub struct ProviderHealthRegistry {
    providers: Vec<(String, RuntimeProviderHealthMemory)>,
    safe_mode: bool,
    degraded_level: u8,
    overall_status: RuntimeHealthStatus,
}

/// The memory of `class` after the first `n` reports of a round, each
/// recording its status and failure count over what came before.
pub open spec fn memory_after(
    reg: ProviderHealthRegistry,
    rs: Seq<ReportView>,
    n: int,
    class: Seq<char>,
) -> Option<RuntimeProviderHealthMemory>
    decreases n,
{
    if n <= 0 {
        reg.memory(class)
    } else if rs[n - 1].provider_class == class {
        Some(
            RuntimeProviderHealthMemory {
                status: rs[n - 1].status,
                consecutive_failures: progress(
                    memory_after(reg, rs, n - 1, class),
                    rs[n - 1].status,
                ).0 as u64,
            },
        )
    } else {
        memory_after(reg, rs, n - 1, class)
    }
}

/// Report `i` of a round with its check time, failure count and recovery state.
pub open spec fn checked_report(
    reg: ProviderHealthRegistry,
    rs: Seq<ReportView>,
    i: int,
    checked_at: u64,
) -> ReportView {
    let p = progress(memory_after(reg, rs, i, rs[i].provider_class), rs[i].status);
    ReportView {
        provider_class: rs[i].provider_class,
        required: rs[i].required,
        configured: rs[i].configured,
        status: rs[i].status,
        reason: rs[i].reason,
        last_checked_at_unix_ms: checked_at,
        consecutive_failures: p.0 as u64,
        recovery_state: p.1,
    }
}

pub open spec fn checked_reports(reg: ProviderHealthRegistry, rs: Seq<ReportView>, checked_at: u64) -> Seq<
    ReportView,
> {
    Seq::new(rs.len(), |i: int| checked_report(reg, rs, i, checked_at))
}

/// The transitions of the first `n` reports of a round, in order.
pub open spec fn transitions_upto(
    reg: ProviderHealthRegistry,
    rs: Seq<ReportView>,
    n: int,
    checked_at: u64,
) -> Seq<TransitionView>
    decreases n,
{
    if n <= 0 {
        Seq::empty()
    } else {
        transitions_upto(reg, rs, n - 1, checked_at) + match transition(
            memory_after(reg, rs, n - 1, rs[n - 1].provider_class),
            checked_report(reg, rs, n - 1, checked_at),
        ) {
            Some(e) => seq![e],
            None => Seq::empty(),
        }
    }
}

/// No failure count of a round passes the largest `u64`: each report that
/// repeats its provider's failing status finds a count below it.
pub open spec fn round_fits(reg: ProviderHealthRegistry, rs: Seq<ReportView>) -> bool {
    forall|i: int|
        0 <= i < rs.len() ==> #[trigger] progress_fits(
            memory_after(reg, rs, i, rs[i].provider_class),
            rs[i].status,
        )
}

impl ProviderHealthRegistry {
    pub closed spec fn wf(&self) -> bool {
        keys_strictly_sorted(self.providers@)
    }

    /// What is remembered of a provider class.
    pub closed spec fn memory(&self, class: Seq<char>) -> Option<RuntimeProviderHealthMemory> {
        lookup(self.providers@, class)
    }

    pub closed spec fn overall(&self) -> RuntimeHealthStatus {
        self.overall_status
    }

    pub closed spec fn in_safe_mode(&self) -> bool {
        self.safe_mode
    }

    pub closed spec fn level(&self) -> u8 {
        self.degraded_level
    }

    /// A registry that remembers nothing, with the runtime available.
    pub fn new() -> (r: Self)
        ensures
            r.wf(),
            forall|c: Seq<char>| #[trigger] r.memory(c) is None,
            r.overall() == RuntimeHealthStatus::Available,
            !r.in_safe_mode(),
            r.level() == 0,
    {
        let r = ProviderHealthRegistry {
            providers: Vec::new(),
            safe_mode: false,
            degraded_level: 0,
            overall_status: RuntimeHealthStatus::Available,
        };
        proof {
            assert forall|c: Seq<char>| #[trigger] r.memory(c) is None by {
                crate::assoc::lemma_lookup_absent(r.providers@, c);
            }
        }
        r
    }

    /// Records a round of checks made at `checked_at_unix_ms`: counts each
    /// provider's failures over what was remembered, derives the degraded
    /// level (safe mode from 2, no direct execution from 3) and reports what
    /// changed.
    pub fn update(
        &mut self,
        checked_at_unix_ms: u64,
        reports: Vec<RuntimeProviderHealthReport>,
    ) -> (r: ProviderHealthUpdateResult)
        requires
            old(self).wf(),
            round_fits(*old(self), reports_view(reports@)),
        ensures
            final(self).wf(),
            forall|c: Seq<char>|
                #[trigger] final(self).memory(c) == memory_after(
                    *old(self),
                    reports_view(reports@),
                    reports@.len() as int,
                    c,
                ),
            reports_view(r.snapshot.reports@) == checked_reports(
                *old(self),
                reports_view(reports@),
                checked_at_unix_ms,
            ),
            r.snapshot.degraded_level == degraded_level(reports_view(r.snapshot.reports@)),
            r.snapshot.safe_mode == (r.snapshot.degraded_level >= 2),
            r.snapshot.overall_status == level_status(r.snapshot.degraded_level),
            r.snapshot.direct_execution_allowed == (r.snapshot.degraded_level < 3),
            final(self).overall() == r.snapshot.overall_status,
            final(self).in_safe_mode() == r.snapshot.safe_mode,
            final(self).level() == r.snapshot.degraded_level,
            r.mode_transition == if old(self).overall() != r.snapshot.overall_status {
                Some(
                    ModeTransition {
                        previous_overall_status: old(self).overall(),
                        overall_status: r.snapshot.overall_status,
                        previous_safe_mode: old(self).in_safe_mode(),
                        safe_mode: r.snapshot.safe_mode,
                        previous_degraded_level: old(self).level(),
                        degraded_level: r.snapshot.degraded_level,
                    },
                )
            } else {
                None
            },
            transitions_view(r.provider_transitions@) == transitions_upto(
                *old(self),
                reports_view(reports@),
                reports@.len() as int,
                checked_at_unix_ms,
            ),
    {
        let ghost reg = *self;
        let ghost rv = reports_view(reports@);
        let previous_safe_mode = self.safe_mode;
        let previous_degraded_level = self.degraded_level;
        let previous_overall_status = self.overall_status;
        let n = reports.len();
        let mut transitions: Vec<ProviderTransitionEvent> = Vec::new();
        let mut current: Vec<RuntimeProviderHealthReport> = Vec::new();
        let mut i: usize = 0;
        proof {
            assert(reports_view(current@) =~= checked_reports(reg, rv, checked_at_unix_ms).take(0));
            assert(transitions_view(transitions@) =~= Seq::<TransitionView>::empty());
        }
        while i < n
            invariant
                n == reports@.len(),
                i <= n,
                rv == reports_view(reports@),
                reg == *old(self),
                round_fits(reg, rv),
                self.wf(),
                self.safe_mode == previous_safe_mode,
                self.degraded_level == previous_degraded_level,
                self.overall_status == previous_overall_status,
                previous_safe_mode == reg.in_safe_mode(),
                previous_degraded_level == reg.level(),
                previous_overall_status == reg.overall(),
                forall|c: Seq<char>|
                    #[trigger] self.memory(c) == memory_after(reg, rv, i as int, c),
                reports_view(current@) == checked_reports(reg, rv, checked_at_unix_ms).take(
                    i as int,
                ),
                transitions_view(transitions@) == transitions_upto(
                    reg,
                    rv,
                    i as int,
                    checked_at_unix_ms,
                ),
            decreases n - i,
        {
            let report = &reports[i];
            assert(rv[i as int] == report@);
            assert(self.memory(rv[i as int].provider_class) == memory_after(
                reg,
                rv,
                i as int,
                rv[i as int].provider_class,
            ));
            assert(progress_fits(
                memory_after(reg, rv, i as int, rv[i as int].provider_class),
                rv[i as int].status,
            ));
            let previous = match assoc_find(&self.providers, report.provider_class.as_str()) {
                Some(k) => Some(self.providers[k].1),
                None => None,
            };
            assert(previous == memory_after(reg, rv, i as int, rv[i as int].provider_class));
            let (failures, recovery_state) = provider_health_progress(
                match &previous {
                    Some(p) => Some(p),
                    None => None,
                },
                report.status,
            );
            let updated = RuntimeProviderHealthReport {
                provider_class: report.provider_class.clone(),
                required: report.required,
                configured: report.configured,
                status: report.status,
                reason: match &report.reason {
                    Some(x) => Some(x.clone()),
                    None => None,
                },
                last_checked_at_unix_ms: checked_at_unix_ms,
                consecutive_failures: failures,
                recovery_state,
            };
            assert(updated@ == checked_report(reg, rv, i as int, checked_at_unix_ms));
            let event = provider_transition_event(
                match &previous {
                    Some(p) => Some(p),
                    None => None,
                },
                &updated,
            );
            let ghost before_t = transitions_view(transitions@);
            match event {
                Some(e) => {
                    transitions.push(e);
                    assert(transitions_view(transitions@) =~= before_t + seq![e@]);
                },
                None => {
                    assert(transitions_view(transitions@) =~= before_t + Seq::<
                        TransitionView,
                    >::empty());
                },
            }
            let ghost old_providers = self.providers@;
            assert forall|c: Seq<char>|
                #[trigger] lookup(old_providers, c) == memory_after(reg, rv, i as int, c) by {
                assert(self.memory(c) == memory_after(reg, rv, i as int, c));
            }
            let memory = RuntimeProviderHealthMemory {
                status: report.status,
                consecutive_failures: failures,
            };
            assoc_insert(&mut self.providers, report.provider_class.clone(), memory);
            proof {
                let class = rv[i as int].provider_class;
                let prev = memory_after(reg, rv, i as int, class);
                assert(memory == RuntimeProviderHealthMemory {
                    status: rv[i as int].status,
                    consecutive_failures: progress(prev, rv[i as int].status).0 as u64,
                });
                assert forall|c: Seq<char>| #[trigger]
                    self.memory(c) == memory_after(reg, rv, i + 1, c) by {
                    if c != class {
                        assert(memory_after(reg, rv, i + 1, c) == memory_after(reg, rv, i as int, c));
                    }
                    assert(lookup(self.providers@, c) == if c == rv[i as int].provider_class {
                        Some(memory)
                    } else {
                        lookup(old_providers, c)
                    });
                }
            }
            let ghost before_c = current@;
            current.push(updated);
            proof {
                assert(current@ == before_c.push(updated));
                assert(reports_view(current@) =~= reports_view(before_c).push(updated@));
                assert(checked_reports(reg, rv, checked_at_unix_ms).take(i + 1) =~= checked_reports(
                    reg,
                    rv,
                    checked_at_unix_ms,
                ).take(i as int).push(checked_report(reg, rv, i as int, checked_at_unix_ms)));
                assert(reports_view(current@) =~= checked_reports(
                    reg,
                    rv,
                    checked_at_unix_ms,
                ).take(i + 1));
            }
            i += 1;
        }
        proof {
            assert(checked_reports(reg, rv, checked_at_unix_ms).take(n as int) =~= checked_reports(
                reg,
                rv,
                checked_at_unix_ms,
            ));
        }
        let ghost final_providers = self.providers@;
        assert forall|c: Seq<char>| #[trigger]
            lookup(final_providers, c) == memory_after(*old(self), rv, n as int, c) by {
            assert(self.memory(c) == memory_after(reg, rv, n as int, c));
        }
        let degraded_level = compute_degraded_level(current.as_slice());
        let safe_mode = degraded_level >= 2;
        let overall_status = degraded_level_status(degraded_level);
        self.safe_mode = safe_mode;
        self.degraded_level = degraded_level;
        self.overall_status = overall_status;
        assert(self.providers@ == final_providers);
        assert forall|c: Seq<char>| #[trigger]
            self.memory(c) == memory_after(*old(self), rv, n as int, c) by {
            assert(self.memory(c) == lookup(final_providers, c));
        }
        let mode_transition = if previous_overall_status != overall_status {
            Some(
                ModeTransition {
                    previous_overall_status,
                    overall_status,
                    previous_safe_mode,
                    safe_mode,
                    previous_degraded_level,
                    degraded_level,
                },
            )
        } else {
            None
        };
        ProviderHealthUpdateResult {
            snapshot: RuntimeProviderHealthState {
                overall_status,
                safe_mode,
                degraded_level,
                direct_execution_allowed: degraded_level < 3,
                reports: current,
            },
            mode_transition,
            provider_transitions: transitions,
        }
    }
}

// ---------------------------------------------------------------------------
// Events of a round of checks
// ---------------------------------------------------------------------------

/// What an event to publish is about.
#[derive(Clone, Copy, Debug, PartialEq, Eq, Structural)]
pub enum HealthEventSource {
    /// The provider transition at this position of the round's transitions.
    Provider(usize),
    ModeTransition,
    SafeMode,
    DegradedLevel,
}

/// An event to publish after a round of checks; its payload is made from
/// the part of the round it is about.
#[derive(Debug, PartialEq, Eq)]
pub struct PlannedHealthEvent {
    pub source: HealthEventSource,
    pub event_type: String,
    pub severity: Severity,
    pub outcome: Option<String>,
    pub reason_codes: Vec<String>,
}

pub struct PlannedEventView {
    pub source: HealthEventSource,
    pub event_type: Seq<char>,
    pub severity: Severity,
    pub outcome: Option<Seq<char>>,
    pub reason_codes: Seq<Seq<char>>,
}

impl View for PlannedHealthEvent {
    type V = PlannedEventView;

    open spec fn view(&self) -> PlannedEventView {
        PlannedEventView {
            source: self.source,
            event_type: self.event_type@,
            severity: self.severity,
            outcome: opt_view(self.outcome),
            reason_codes: texts_of(self.reason_codes@),
        }
    }
}

pub open spec fn bool_label(b: bool) -> Seq<char> {
    if b {
        "true"@
    } else {
        "false"@
    }
}

pub open spec fn provider_event_plan(i: int, e: TransitionView) -> PlannedEventView {
    let t = transition_kind_label(e.kind);
    PlannedEventView {
        source: HealthEventSource::Provider(i as usize),
        event_type: t,
        severity: e.severity,
        outcome: Some(status_label(e.outcome)),
        reason_codes: seq![
            t,
            "provider_class."@ + e.provider_class,
            "status."@ + status_label(e.current_status),
        ],
    }
}

pub open spec fn safe_mode_event_label(safe_mode: bool) -> Seq<char> {
    if safe_mode {
        "runtime.safe_mode_enter"@
    } else {
        "runtime.safe_mode_leave"@
    }
}

/// The events of a mode change: the change itself, then entering or leaving
/// safe mode if that changed, then the new degraded level if that changed.
pub open spec fn mode_event_plans(m: ModeTransition) -> Seq<PlannedEventView> {
    let mode = PlannedEventView {
        source: HealthEventSource::ModeTransition,
        event_type: "runtime.mode_transition"@,
        severity: if m.overall_status == RuntimeHealthStatus::Unavailable {
            Severity::Warn
        } else {
            Severity::Info
        },
        outcome: Some(status_label(m.overall_status)),
        reason_codes: seq!["runtime.mode_transition"@, "mode."@ + status_label(m.overall_status)],
    };
    let safe = PlannedEventView {
        source: HealthEventSource::SafeMode,
        event_type: safe_mode_event_label(m.safe_mode),
        severity: if m.safe_mode {
            Severity::Warn
        } else {
            Severity::Info
        },
        outcome: Some(
            if m.safe_mode {
                "safe_mode"@
            } else {
                "normal"@
            },
        ),
        reason_codes: seq![
            safe_mode_event_label(m.safe_mode),
            "safe_mode."@ + bool_label(m.safe_mode),
        ],
    };
    let level = PlannedEventView {
        source: HealthEventSource::DegradedLevel,
        event_type: "runtime.degraded_level_changed"@,
        severity: if m.degraded_level >= 3 {
            Severity::Warn
        } else {
            Severity::Info
        },
        outcome: Some(status_label(m.overall_status)),
        reason_codes: seq![
            "runtime.degraded_level_changed"@,
            "degraded_level."@ + decimal(m.degraded_level as nat),
        ],
    };
    seq![mode] + (if m.previous_safe_mode != m.safe_mode {
        seq![safe]
    } else {
        Seq::empty()
    }) + (if m.previous_degraded_level != m.degraded_level {
        seq![level]
    } else {
        Seq::empty()
    })
}

/// Every event a round of checks publishes: each provider transition in
/// order, then those of a mode change.
pub open spec fn health_event_plan(
    transitions: Seq<TransitionView>,
    mode: Option<ModeTransition>,
) -> Seq<PlannedEventView> {
    Seq::new(transitions.len(), |i: int| provider_event_plan(i, transitions[i])) + match mode {
        Some(m) => mode_event_plans(m),
        None => Seq::empty(),
    }
}

pub open spec fn planned_view(s: Seq<PlannedHealthEvent>) -> Seq<PlannedEventView> {
    s.map_values(|e: PlannedHealthEvent| e@)
}

fn bool_text(b: bool) -> (r: &'static str)
    ensures
        r@ == bool_label(b),
{
    if b {
        "true"
    } else {
        "false"
    }
}

fn texts2(a: String, b: String) -> (r: Vec<String>)
    ensures
        texts_of(r@) == seq![a@, b@],
{
    let mut v: Vec<String> = Vec::new();
    v.push(a);
    v.push(b);
    assert(texts_of(v@) =~= seq![a@, b@]);
    v
}

/// The events to publish for a round of checks.
pub fn health_transition_events(update: &ProviderHealthUpdateResult) -> (r: Vec<PlannedHealthEvent>)
    ensures
        planned_view(r@) == health_event_plan(
            transitions_view(update.provider_transitions@),
            update.mode_transition,
        ),
{
    let ghost ts = transitions_view(update.provider_transitions@);
    let mut out: Vec<PlannedHealthEvent> = Vec::new();
    let mut i: usize = 0;
    while i < update.provider_transitions.len()
        invariant
            i <= ts.len(),
            ts == transitions_view(update.provider_transitions@),
            planned_view(out@) == Seq::new(
                i as nat,
                |k: int| provider_event_plan(k, ts[k]),
            ),
        decreases ts.len() - i,
    {
        let e = &update.provider_transitions[i];
        assert(ts[i as int] == e@);
        let t = transition_kind_name(e.kind);
        let mut codes: Vec<String> = Vec::new();
        codes.push(text(t));
        codes.push(crate::text::concat("provider_class.", e.provider_class.as_str()));
        codes.push(crate::text::concat("status.", runtime_health_status_name(e.current_status)));
        assert(texts_of(codes@) =~= provider_event_plan(i as int, ts[i as int]).reason_codes);
        let ev = PlannedHealthEvent {
            source: HealthEventSource::Provider(i),
            event_type: text(t),
            severity: e.severity,
            outcome: Some(text(runtime_health_status_name(e.outcome))),
            reason_codes: codes,
        };
        assert(ev@ == provider_event_plan(i as int, ts[i as int]));
        let ghost before = out@;
        out.push(ev);
        assert(planned_view(out@) =~= planned_view(before).push(provider_event_plan(i as int, ts[i as int])));
        i += 1;
        assert(planned_view(out@) =~= Seq::new(i as nat, |k: int| provider_event_plan(k, ts[k])));
    }
    let ghost head = planned_view(out@);
    assert(head =~= Seq::new(ts.len(), |k: int| provider_event_plan(k, ts[k])));
    match update.mode_transition {
        None => {
            assert(planned_view(out@) =~= head + Seq::<PlannedEventView>::empty());
        },
        Some(m) => {
            let status = runtime_health_status_name(m.overall_status);
            out.push(
                PlannedHealthEvent {
                    source: HealthEventSource::ModeTransition,
                    event_type: text("runtime.mode_transition"),
                    severity: if m.overall_status == RuntimeHealthStatus::Unavailable {
                        Severity::Warn
                    } else {
                        Severity::Info
                    },
                    outcome: Some(text(status)),
                    reason_codes: texts2(
                        text("runtime.mode_transition"),
                        crate::text::concat("mode.", status),
                    ),
                },
            );
            let ghost with_mode = planned_view(out@);
            if m.previous_safe_mode != m.safe_mode {
                let label = if m.safe_mode {
                    "runtime.safe_mode_enter"
                } else {
                    "runtime.safe_mode_leave"
                };
                out.push(
                    PlannedHealthEvent {
                        source: HealthEventSource::SafeMode,
                        event_type: text(label),
                        severity: if m.safe_mode {
                            Severity::Warn
                        } else {
                            Severity::Info
                        },
                        outcome: Some(
                            text(
                                if m.safe_mode {
                                    "safe_mode"
                                } else {
                                    "normal"
                                },
                            ),
                        ),
                        reason_codes: texts2(
                            text(label),
                            crate::text::concat("safe_mode.", bool_text(m.safe_mode)),
                        ),
                    },
                );
            }
            let ghost with_safe = planned_view(out@);
            if m.previous_degraded_level != m.degraded_level {
                let d = decimal_text(m.degraded_level as u128);
                let ds = string_of(d.as_slice());
                out.push(
                    PlannedHealthEvent {
                        source: HealthEventSource::DegradedLevel,
                        event_type: text("runtime.degraded_level_changed"),
                        severity: if m.degraded_level >= 3 {
                            Severity::Warn
                        } else {
                            Severity::Info
                        },
                        outcome: Some(text(status)),
                        reason_codes: texts2(
                            text("runtime.degraded_level_changed"),
                            crate::text::concat("degraded_level.", ds.as_str()),
                        ),
                    },
                );
            }
            proof {
                let plans = mode_event_plans(m);
                if m.previous_safe_mode != m.safe_mode {
                    assert(with_safe =~= with_mode.push(plans[1]));
                } else {
                    assert(with_safe =~= with_mode);
                }
                if m.previous_safe_mode != m.safe_mode && m.previous_degraded_level
                    != m.degraded_level {
                    assert(planned_view(out@) =~= with_safe.push(plans[2]));
                } else if m.previous_degraded_level != m.degraded_level {
                    assert(planned_view(out@) =~= with_safe.push(plans[1]));
                } else {
                    assert(planned_view(out@) =~= with_safe);
                }
                assert(with_mode =~= head.push(plans[0]));
                assert(planned_view(out@) =~= head + plans);
            }
        },
    }
    out
}

// ---------------------------------------------------------------------------
// Request policy
// ---------------------------------------------------------------------------

/// Why a request was refused while providers are unhealthy.
#[derive(Debug, PartialEq, Eq)]
pub struct RuntimeRequestPolicyRefusal {
    pub code: &'static str,
    pub request_class: String,
    pub message: String,
    pub safe_mode: bool,
    pub degraded_level: u8,
    pub blocking_provider_classes: Vec<String>,
}

pub struct RefusalView {
    pub code: Seq<char>,
    pub request_class: Seq<char>,
    pub message: Seq<char>,
    pub safe_mode: bool,
    pub degraded_level: u8,
    pub blocking_provider_classes: Seq<Seq<char>>,
}

impl View for RuntimeRequestPolicyRefusal {
    type V = RefusalView;

    open spec fn view(&self) -> RefusalView {
        RefusalView {
            code: self.code@,
            request_class: self.request_class@,
            message: self.message@,
            safe_mode: self.safe_mode,
            degraded_level: self.degraded_level,
            blocking_provider_classes: texts_of(self.blocking_provider_classes@),
        }
    }
}

pub open spec fn blocks(required: Seq<Seq<char>>) -> spec_fn(ReportView) -> bool {
    |r: ReportView| required.contains(r.provider_class) && r.status == RuntimeHealthStatus::Unavailable
}

/// The required provider classes that are unavailable, in report order.
pub open spec fn blocking_classes(reports: Seq<ReportView>, required: Seq<Seq<char>>) -> Seq<
    Seq<char>,
> {
    reports.filter(blocks(required)).map_values(|r: ReportView| r.provider_class)
}

/// The refusal, if any, of a request of class `request_class` that needs the
/// providers `required` and tolerates degradation up to `max_degraded_level`:
/// refused when one of its providers is unavailable or the degraded level is
/// above what it tolerates.
pub open spec fn policy_refusal(
    degraded_level: u8,
    safe_mode: bool,
    reports: Seq<ReportView>,
    request_class: Seq<char>,
    required: Seq<Seq<char>>,
    max_degraded_level: u8,
) -> Option<RefusalView> {
    let blocking = blocking_classes(reports, required);
    let exceeded = degraded_level > max_degraded_level;
    if blocking.len() == 0 && !exceeded {
        None
    } else {
        Some(
            RefusalView {
                code: "runtime_request_refused"@,
                request_class,
                message: if exceeded {
                    "request class `"@ + request_class + "` refused in safe mode: degraded_level="@
                        + decimal(degraded_level as nat) + " safe_mode="@ + bool_label(safe_mode)
                } else {
                    "request class `"@ + request_class
                        + "` refused due to unavailable providers: "@ + join_texts(
                        blocking,
                        ", "@,
                    )
                },
                safe_mode,
                degraded_level,
                blocking_provider_classes: if exceeded && blocking.len() == 0 {
                    required
                } else {
                    blocking
                },
            },
        )
    }
}

pub open spec fn strs_view(s: Seq<&str>) -> Seq<Seq<char>> {
    s.map_values(|x: &str| x@)
}

fn contains_text_in(items: &[&str], x: &str) -> (r: bool)
    ensures
        r == strs_view(items@).contains(x@),
{
    let mut i: usize = 0;
    while i < items.len()
        invariant
            i <= items@.len(),
            forall|k: int| 0 <= k < i ==> items@[k]@ != x@,
        decreases items@.len() - i,
    {
        if text_eq(items[i], x) {
            assert(strs_view(items@)[i as int] == x@);
            return true;
        }
        i += 1;
    }
    proof {
        if strs_view(items@).contains(x@) {
            let k = choose|k: int| 0 <= k < strs_view(items@).len() && strs_view(items@)[k] == x@;
            assert(items@[k]@ == x@);
        }
    }
    false
}

/// Decides whether a request may run given the latest provider health.
pub fn request_policy_decision(
    health: &RuntimeProviderHealthState,
    request_class: &str,
    required_provider_classes: &[&str],
    max_degraded_level: u8,
) -> (r: Result<(), RuntimeRequestPolicyRefusal>)
    ensures
        ({
            let want = policy_refusal(
                health.degraded_level,
                health.safe_mode,
                reports_view(health.reports@),
                request_class@,
                strs_view(required_provider_classes@),
                max_degraded_level,
            );
            match r {
                Ok(()) => want is None,
                Err(x) => want == Some(x@),
            }
        }),
{
    let ghost rv = reports_view(health.reports@);
    let ghost req = strs_view(required_provider_classes@);
    let ghost p = blocks(req);
    let mut blocking: Vec<String> = Vec::new();
    let mut i: usize = 0;
    proof {
        crate::seqs::lemma_filter_empty(p);
        assert(rv.take(0) =~= Seq::<ReportView>::empty());
        assert(texts_of(blocking@) =~= rv.take(0).filter(p).map_values(
            |r: ReportView| r.provider_class,
        ));
    }
    while i < health.reports.len()
        invariant
            i <= rv.len(),
            rv == reports_view(health.reports@),
            req == strs_view(required_provider_classes@),
            p == blocks(req),
            texts_of(blocking@) == rv.take(i as int).filter(p).map_values(
                |r: ReportView| r.provider_class,
            ),
        decreases rv.len() - i,
    {
        let report = &health.reports[i];
        assert(rv[i as int] == report@);
        proof {
            crate::seqs::lemma_filter_step(rv, p, i as int);
        }
        if report.status == RuntimeHealthStatus::Unavailable && contains_text_in(
            required_provider_classes,
            report.provider_class.as_str(),
        ) {
            let ghost before = blocking@;
            blocking.push(report.provider_class.clone());
            assert(texts_of(blocking@) =~= texts_of(before).push(rv[i as int].provider_class));
        }
        i += 1;
        assert(texts_of(blocking@) =~= rv.take(i as int).filter(p).map_values(
            |r: ReportView| r.provider_class,
        ));
    }
    proof {
        crate::seqs::lemma_take_all(rv);
    }
    let exceeded = health.degraded_level > max_degraded_level;
    if blocking.len() == 0 && !exceeded {
        return Ok(());
    }
    let message = if exceeded {
        let mut v = chars_of("request class `");
        extend_chars(&mut v, request_class);
        extend_chars(&mut v, "` refused in safe mode: degraded_level=");
        let d = decimal_text(health.degraded_level as u128);
        let ds = string_of(d.as_slice());
        extend_chars(&mut v, ds.as_str());
        extend_chars(&mut v, " safe_mode=");
        extend_chars(&mut v, bool_text(health.safe_mode));
        string_of(v.as_slice())
    } else {
        let mut v = chars_of("request class `");
        extend_chars(&mut v, request_class);
        extend_chars(&mut v, "` refused due to unavailable providers: ");
        let j = join(&blocking, ", ");
        extend_chars(&mut v, j.as_str());
        string_of(v.as_slice())
    };
    let classes = if exceeded && blocking.len() == 0 {
        let mut all: Vec<String> = Vec::new();
        let mut k: usize = 0;
        while k < required_provider_classes.len()
            invariant
                k <= required_provider_classes@.len(),
                texts_of(all@) == strs_view(required_provider_classes@).take(k as int),
            decreases required_provider_classes@.len() - k,
        {
            let ghost before = all@;
            let item = text(required_provider_classes[k]);
            assert(item@ == strs_view(required_provider_classes@)[k as int]);
            all.push(item);
            assert(texts_of(all@) =~= texts_of(before).push(item@));
            assert(strs_view(required_provider_classes@).take(k + 1) =~= strs_view(
                required_provider_classes@,
            ).take(k as int).push(item@));
            assert(texts_of(all@) =~= strs_view(required_provider_classes@).take(k + 1));
            k += 1;
        }
        assert(strs_view(required_provider_classes@).take(k as int) =~= strs_view(
            required_provider_classes@,
        ));
        all
    } else {
        blocking
    };
    proof {
        reveal_strlit("runtime_request_refused");
    }
    Err(
        RuntimeRequestPolicyRefusal {
            code: "runtime_request_refused",
            request_class: text(request_class),
            message,
            safe_mode: health.safe_mode,
            degraded_level: health.degraded_level,
            blocking_provider_classes: classes,
        },
    )
}

// ---------------------------------------------------------------------------
// Runtime dependencies
// ---------------------------------------------------------------------------

/// A required provider seen as a runtime dependency.
#[derive(Debug, PartialEq, Eq)]
pub struct RuntimeDependencyReport {
    pub name: String,
    pub required: bool,
    pub configured: bool,
    pub status: RuntimeHealthStatus,
    pub reason: Option<String>,
}

/// The runtime's dependencies: the required providers and the overall status.
#[derive(Debug, PartialEq, Eq)]
pub struct RuntimeDependencyState {
    pub overall_status: RuntimeHealthStatus,
    pub reports: Vec<RuntimeDependencyReport>,
}

pub struct DependencyView {
    pub name: Seq<char>,
    pub required: bool,
    pub configured: bool,
    pub status: RuntimeHealthStatus,
    pub reason: Option<Seq<char>>,
}

impl View for RuntimeDependencyReport {
    type V = DependencyView;

    open spec fn view(&self) -> DependencyView {
        DependencyView {
            name: self.name@,
            required: self.required,
            configured: self.configured,
            status: self.status,
            reason: opt_view(self.reason),
        }
    }
}

pub open spec fn dependencies_view(s: Seq<RuntimeDependencyReport>) -> Seq<DependencyView> {
    s.map_values(|r: RuntimeDependencyReport| r@)
}

pub open spec fn is_required() -> spec_fn(ReportView) -> bool {
    |r: ReportView| r.required
}

pub open spec fn as_dependency(r: ReportView) -> DependencyView {
    DependencyView {
        name: r.provider_class,
        required: r.required,
        configured: r.configured,
        status: r.status,
        reason: r.reason,
    }
}

/// The dependency view of provider health: the required providers, in order.
pub fn runtime_dependency_state(health: &RuntimeProviderHealthState) -> (r: RuntimeDependencyState)
    ensures
        r.overall_status == health.overall_status,
        dependencies_view(r.reports@) == reports_view(health.reports@).filter(is_required()).map_values(
            |x: ReportView| as_dependency(x),
        ),
{
    let ghost rv = reports_view(health.reports@);
    let ghost p = is_required();
    let mut out: Vec<RuntimeDependencyReport> = Vec::new();
    let mut i: usize = 0;
    proof {
        crate::seqs::lemma_filter_empty(p);
        assert(rv.take(0) =~= Seq::<ReportView>::empty());
        assert(dependencies_view(out@) =~= rv.take(0).filter(p).map_values(
            |x: ReportView| as_dependency(x),
        ));
    }
    while i < health.reports.len()
        invariant
            i <= rv.len(),
            rv == reports_view(health.reports@),
            p == is_required(),
            dependencies_view(out@) == rv.take(i as int).filter(p).map_values(
                |x: ReportView| as_dependency(x),
            ),
        decreases rv.len() - i,
    {
        let report = &health.reports[i];
        assert(rv[i as int] == report@);
        proof {
            crate::seqs::lemma_filter_step(rv, p, i as int);
        }
        if report.required {
            let d = RuntimeDependencyReport {
                name: report.provider_class.clone(),
                required: report.required,
                configured: report.configured,
                status: report.status,
                reason: match &report.reason {
                    Some(x) => Some(x.clone()),
                    None => None,
                },
            };
            let ghost before = out@;
            out.push(d);
            assert(dependencies_view(out@) =~= dependencies_view(before).push(as_dependency(rv[i as int])));
        }
        i += 1;
        assert(dependencies_view(out@) =~= rv.take(i as int).filter(p).map_values(
            |x: ReportView| as_dependency(x),
        ));
    }
    proof {
        crate::seqs::lemma_take_all(rv);
    }
    RuntimeDependencyState { overall_status: health.overall_status, reports: out }
}

pub open spec fn has_status(status: RuntimeHealthStatus) -> spec_fn(DependencyView) -> bool {
    |d: DependencyView| d.required && d.status == status
}

/// `name: reason`, with the status name when there is no reason.
pub open spec fn dependency_line(d: DependencyView) -> Seq<char> {
    d.name + ": "@ + match d.reason {
        Some(x) => x,
        None => status_label(d.status),
    }
}

/// The lines of the required dependencies with `status`, in order.
pub open spec fn dependency_lines(deps: Seq<DependencyView>, status: RuntimeHealthStatus) -> Seq<
    Seq<char>,
> {
    deps.filter(has_status(status)).map_values(|d: DependencyView| dependency_line(d))
}

fn dependency_lines_of(state: &RuntimeDependencyState, status: RuntimeHealthStatus) -> (r: Vec<
    String,
>)
    ensures
        texts_of(r@) == dependency_lines(dependencies_view(state.reports@), status),
{
    let ghost dv = dependencies_view(state.reports@);
    let ghost p = has_status(status);
    let mut out: Vec<String> = Vec::new();
    let mut i: usize = 0;
    proof {
        crate::seqs::lemma_filter_empty(p);
        assert(dv.take(0) =~= Seq::<DependencyView>::empty());
        assert(texts_of(out@) =~= dv.take(0).filter(p).map_values(
            |d: DependencyView| dependency_line(d),
        ));
    }
    while i < state.reports.len()
        invariant
            i <= dv.len(),
            dv == dependencies_view(state.reports@),
            p == has_status(status),
            texts_of(out@) == dv.take(i as int).filter(p).map_values(
                |d: DependencyView| dependency_line(d),
            ),
        decreases dv.len() - i,
    {
        let d = &state.reports[i];
        assert(dv[i as int] == d@);
        proof {
            crate::seqs::lemma_filter_step(dv, p, i as int);
        }
        if d.required && d.status == status {
            let mut v = chars_of(d.name.as_str());
            extend_chars(&mut v, ": ");
            match &d.reason {
                Some(x) => extend_chars(&mut v, x.as_str()),
                None => extend_chars(&mut v, runtime_health_status_name(status)),
            }
            let line = string_of(v.as_slice());
            let ghost before = out@;
            out.push(line);
            assert(texts_of(out@) =~= texts_of(before).push(dependency_line(dv[i as int])));
        }
        i += 1;
        assert(texts_of(out@) =~= dv.take(i as int).filter(p).map_values(
            |d: DependencyView| dependency_line(d),
        ));
    }
    proof {
        crate::seqs::lemma_take_all(dv);
    }
    out
}

/// `name: reason` for each required dependency that is degraded.
pub fn degraded_dependency_messages(state: &RuntimeDependencyState) -> (r: Vec<String>)
    ensures
        texts_of(r@) == dependency_lines(
            dependencies_view(state.reports@),
            RuntimeHealthStatus::Degraded,
        ),
{
    dependency_lines_of(state, RuntimeHealthStatus::Degraded)
}

/// Refuses to go on while a required dependency is unavailable.
pub fn ensure_required_dependencies_available(state: &RuntimeDependencyState) -> (r: Result<
    (),
    String,
>)
    ensures
        ({
            let lines = dependency_lines(
                dependencies_view(state.reports@),
                RuntimeHealthStatus::Unavailable,
            );
            match r {
                Ok(()) => lines.len() == 0,
                Err(e) => lines.len() > 0 && e@ == "required runtime dependencies unavailable: "@
                    + join_texts(lines, ", "@),
            }
        }),
{
    let lines = dependency_lines_of(state, RuntimeHealthStatus::Unavailable);
    if lines.len() == 0 {
        Ok(())
    } else {
        let j = join(&lines, ", ");
        Err(crate::text::concat("required runtime dependencies unavailable: ", j.as_str()))
    }
}

// ---------------------------------------------------------------------------
// Laws
// ---------------------------------------------------------------------------

/// The runtime is in safe mode exactly when a required provider is degraded
/// or unavailable; it refuses direct execution exactly when a required
/// provider is unavailable; it is fully available exactly when no provider
/// is degraded or unavailable.
pub proof fn law_degraded_level_meaning(reports: Seq<ReportView>)
    ensures
        (degraded_level(reports) >= 2) <==> exists|i: int|
            0 <= i < reports.len() && reports[i].required && is_failing(reports[i].status),
        (degraded_level(reports) == 3) <==> exists|i: int|
            0 <= i < reports.len() && #[trigger] required_unavailable(reports[i]),
        (degraded_level(reports) == 0) <==> forall|i: int|
            0 <= i < reports.len() ==> !is_failing(#[trigger] reports[i].status),
        level_status(degraded_level(reports)) == RuntimeHealthStatus::Available <==> degraded_level(
            reports,
        ) == 0,
{
    if exists|i: int| 0 <= i < reports.len() && reports[i].required && is_failing(reports[i].status) {
        let i = choose|i: int|
            0 <= i < reports.len() && reports[i].required && is_failing(reports[i].status);
        if reports[i].status == RuntimeHealthStatus::Unavailable {
            assert(required_unavailable(reports[i]));
        } else {
            assert(required_degraded(reports[i]));
        }
    }
    if exists|i: int| 0 <= i < reports.len() && is_failing(reports[i].status) {
        let i = choose|i: int| 0 <= i < reports.len() && is_failing(reports[i].status);
        if reports[i].required {
            if reports[i].status == RuntimeHealthStatus::Unavailable {
                assert(required_unavailable(reports[i]));
            } else {
                assert(required_degraded(reports[i]));
            }
        } else {
            assert(optional_issue(reports[i]));
        }
    }
}

/// A provider that keeps failing the same way counts one more consecutive
/// failure per round in which it is checked once.
pub proof fn law_failures_accumulate(
    reg: ProviderHealthRegistry,
    rs: Seq<ReportView>,
    k: int,
    class: Seq<char>,
    previous: RuntimeProviderHealthMemory,
)
    requires
        0 <= k < rs.len(),
        rs[k].provider_class == class,
        forall|j: int| 0 <= j < rs.len() && j != k ==> rs[j].provider_class != class,
        reg.memory(class) == Some(previous),
        is_failing(previous.status),
        rs[k].status == previous.status,
        previous.consecutive_failures < u64::MAX,
    ensures
        memory_after(reg, rs, rs.len() as int, class) == Some(
            RuntimeProviderHealthMemory {
                status: previous.status,
                consecutive_failures: (previous.consecutive_failures + 1) as u64,
            },
        ),
{
    lemma_memory_untouched(reg, rs, k, class);
    lemma_memory_after_last(reg, rs, k, class);
}

/// A provider found failing with a status other than the one remembered
/// (or with nothing remembered) starts counting again at one failure.
pub proof fn law_failures_restart_on_new_status(
    reg: ProviderHealthRegistry,
    rs: Seq<ReportView>,
    k: int,
    class: Seq<char>,
)
    requires
        0 <= k < rs.len(),
        rs[k].provider_class == class,
        forall|j: int| 0 <= j < rs.len() && j != k ==> rs[j].provider_class != class,
        is_failing(rs[k].status),
        reg.memory(class) matches Some(p) ==> p.status != rs[k].status,
    ensures
        checked_report(reg, rs, k, 0).consecutive_failures == 1,
        memory_after(reg, rs, rs.len() as int, class) == Some(
            RuntimeProviderHealthMemory { status: rs[k].status, consecutive_failures: 1 },
        ),
{
    lemma_memory_untouched(reg, rs, k, class);
    lemma_memory_after_last(reg, rs, k, class);
}

/// A provider checked available has no failures left, whatever it had.
pub proof fn law_available_clears_failures(
    reg: ProviderHealthRegistry,
    rs: Seq<ReportView>,
    k: int,
    class: Seq<char>,
)
    requires
        0 <= k < rs.len(),
        rs[k].provider_class == class,
        rs[k].status == RuntimeHealthStatus::Available,
        forall|j: int| k < j < rs.len() ==> rs[j].provider_class != class,
    ensures
        memory_after(reg, rs, rs.len() as int, class) == Some(
            RuntimeProviderHealthMemory {
                status: RuntimeHealthStatus::Available,
                consecutive_failures: 0,
            },
        ),
{
    lemma_memory_after_last(reg, rs, k, class);
}

/// No two reports of a round name the same provider class.
pub open spec fn classes_distinct(rs: Seq<ReportView>) -> bool {
    forall|i: int, j: int|
        0 <= i < rs.len() && 0 <= j < rs.len() && i != j ==> #[trigger] rs[i].provider_class
            != #[trigger] rs[j].provider_class
}

/// In a round whose reports name distinct provider classes, each report is
/// judged against what was remembered of its class before the round: it
/// keeps its fields, is stamped with the round's time, and gets the failure
/// count and recovery state that memory and its status give (so its
/// transition, too, compares with that memory); afterwards each class
/// reported is remembered with its new status and count, and every other
/// class as before.
pub proof fn law_round_judged_against_previous_memory(
    reg: ProviderHealthRegistry,
    rs: Seq<ReportView>,
    checked_at: u64,
)
    requires
        classes_distinct(rs),
    ensures
        forall|i: int|
            0 <= i < rs.len() ==> memory_after(reg, rs, i, rs[i].provider_class) == reg.memory(
                #[trigger] rs[i].provider_class,
            ),
        forall|i: int|
            0 <= i < rs.len() ==> #[trigger] checked_report(reg, rs, i, checked_at) == (ReportView {
                last_checked_at_unix_ms: checked_at,
                consecutive_failures: progress(reg.memory(rs[i].provider_class), rs[i].status).0 as u64,
                recovery_state: progress(reg.memory(rs[i].provider_class), rs[i].status).1,
                ..rs[i]
            }),
        forall|i: int|
            0 <= i < rs.len() ==> memory_after(reg, rs, rs.len() as int, #[trigger] rs[i].provider_class)
                == Some(
                RuntimeProviderHealthMemory {
                    status: rs[i].status,
                    consecutive_failures: progress(
                        reg.memory(rs[i].provider_class),
                        rs[i].status,
                    ).0 as u64,
                },
            ),
        forall|c: Seq<char>|
            (forall|i: int| 0 <= i < rs.len() ==> rs[i].provider_class != c) ==> #[trigger] memory_after(
                reg,
                rs,
                rs.len() as int,
                c,
            ) == reg.memory(c),
{
    assert forall|i: int| 0 <= i < rs.len() implies memory_after(reg, rs, i, rs[i].provider_class)
        == reg.memory(#[trigger] rs[i].provider_class) by {
        assert forall|j: int| 0 <= j < i implies rs[j].provider_class != rs[i].provider_class by {
            assert(rs[j].provider_class != rs[i].provider_class);
        }
        lemma_memory_untouched(reg, rs, i, rs[i].provider_class);
    }
    assert forall|i: int| 0 <= i < rs.len() implies #[trigger] checked_report(reg, rs, i, checked_at)
        == (ReportView {
        last_checked_at_unix_ms: checked_at,
        consecutive_failures: progress(reg.memory(rs[i].provider_class), rs[i].status).0 as u64,
        recovery_state: progress(reg.memory(rs[i].provider_class), rs[i].status).1,
        ..rs[i]
    }) by {
        assert(memory_after(reg, rs, i, rs[i].provider_class) == reg.memory(rs[i].provider_class));
    }
    assert forall|i: int| 0 <= i < rs.len() implies memory_after(
        reg,
        rs,
        rs.len() as int,
        #[trigger] rs[i].provider_class,
    ) == Some(
        RuntimeProviderHealthMemory {
            status: rs[i].status,
            consecutive_failures: progress(reg.memory(rs[i].provider_class), rs[i].status).0 as u64,
        },
    ) by {
        let c = rs[i].provider_class;
        assert forall|j: int| i < j < rs.len() implies rs[j].provider_class != c by {
            assert(rs[j].provider_class != rs[i].provider_class);
        }
        lemma_memory_after_last(reg, rs, i, c);
        assert(memory_after(reg, rs, i, c) == reg.memory(c));
    }
    assert forall|c: Seq<char>|
        (forall|i: int| 0 <= i < rs.len() ==> rs[i].provider_class != c) implies #[trigger] memory_after(
        reg,
        rs,
        rs.len() as int,
        c,
    ) == reg.memory(c) by {
        lemma_memory_untouched(reg, rs, rs.len() as int, c);
    }
}

/// Reports of other classes leave a class's memory as it was.
proof fn lemma_memory_untouched(reg: ProviderHealthRegistry, rs: Seq<ReportView>, n: int, class: Seq<char>)
    requires
        0 <= n <= rs.len(),
        forall|j: int| 0 <= j < n ==> rs[j].provider_class != class,
    ensures
        memory_after(reg, rs, n, class) == reg.memory(class),
    decreases n,
{
    if n > 0 {
        lemma_memory_untouched(reg, rs, n - 1, class);
    }
}

/// After the last report of a class, its memory is what that report left.
proof fn lemma_memory_after_last(reg: ProviderHealthRegistry, rs: Seq<ReportView>, k: int, class: Seq<char>)
    requires
        0 <= k < rs.len(),
        rs[k].provider_class == class,
        forall|j: int| k < j < rs.len() ==> rs[j].provider_class != class,
    ensures
        memory_after(reg, rs, rs.len() as int, class) == memory_after(reg, rs, k + 1, class),
    decreases rs.len() - k,
{
    lemma_memory_after_skip(reg, rs, k + 1, rs.len() as int, class);
}

proof fn lemma_memory_after_skip(
    reg: ProviderHealthRegistry,
    rs: Seq<ReportView>,
    a: int,
    b: int,
    class: Seq<char>,
)
    requires
        0 <= a <= b <= rs.len(),
        forall|j: int| a <= j < b ==> rs[j].provider_class != class,
    ensures
        memory_after(reg, rs, b, class) == memory_after(reg, rs, a, class),
    decreases b - a,
{
    if a < b {
        lemma_memory_after_skip(reg, rs, a, b - 1, class);
    }
}

/// A request is refused exactly when a provider it needs is unavailable or
/// the runtime is more degraded than the request tolerates.
pub proof fn law_policy_refuses_exactly(
    degraded_level: u8,
    safe_mode: bool,
    reports: Seq<ReportView>,
    request_class: Seq<char>,
    required: Seq<Seq<char>>,
    max_degraded_level: u8,
)
    ensures
        policy_refusal(
            degraded_level,
            safe_mode,
            reports,
            request_class,
            required,
            max_degraded_level,
        ) is Some <==> (degraded_level > max_degraded_level || exists|i: int|
            0 <= i < reports.len() && required.contains(reports[i].provider_class)
                && reports[i].status == RuntimeHealthStatus::Unavailable),
{
    crate::seqs::lemma_filter_nonempty(reports, blocks(required));
}

} // verus!
