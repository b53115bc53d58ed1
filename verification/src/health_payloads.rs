//! The JSON the runtime publishes about provider health: each report, the
//! health state, and the payload of each event a round of checks plans.
use vstd::prelude::*;

use crate::host::JsonItem;
use crate::outcomes::{is_opt_str, is_str};
use crate::provider_health::{
    recovery_label, recovery_state_name, reports_view, runtime_health_status_name, status_label,
    transitions_view, HealthEventSource, ModeTransition, ProviderHealthUpdateResult, ReportView,
    RuntimeProviderHealthReport, RuntimeProviderHealthState, TransitionView,
};
use crate::text::{decimal, decimal_text, string_of, text};

verus! {

/// `j` is the JSON number `n`.
pub open spec fn is_number(j: JsonItem, n: nat) -> bool {
    j matches JsonItem::Number(t) && t@ == decimal(n)
}

/// `j` is a status name, or `null` without a status.
pub open spec fn is_opt_status(j: JsonItem, s: Option<crate::runtime_core::RuntimeHealthStatus>) -> bool {
    match s {
        Some(x) => is_str(j, status_label(x)),
        None => j is Null,
    }
}

fn number_item(n: u64) -> (r: JsonItem)
    ensures
        is_number(r, n as nat),
{
    let d = decimal_text(n as u128);
    JsonItem::Number(string_of(d.as_slice()))
}

fn status_item(s: crate::runtime_core::RuntimeHealthStatus) -> (r: JsonItem)
    ensures
        is_str(r, status_label(s)),
{
    JsonItem::Str(text(runtime_health_status_name(s)))
}

fn opt_text_item(s: &Option<String>) -> (r: JsonItem)
    ensures
        is_opt_str(r, crate::static_routes::opt_view(*s)),
{
    match s {
        Some(x) => JsonItem::Str(x.clone()),
        None => JsonItem::Null,
    }
}

/// `j` is the object of a health report: provider class, required,
/// configured, status, reason, when it was checked, consecutive failures
/// and recovery state, in that order.
pub open spec fn is_report_item(j: JsonItem, r: ReportView) -> bool {
    j matches JsonItem::Object(m) && m@.len() == 8 && {
        &&& m@[0].0@ == "provider_class"@ && is_str(m@[0].1, r.provider_class)
        &&& m@[1].0@ == "required"@ && m@[1].1 == JsonItem::Bool(r.required)
        &&& m@[2].0@ == "configured"@ && m@[2].1 == JsonItem::Bool(r.configured)
        &&& m@[3].0@ == "status"@ && is_str(m@[3].1, status_label(r.status))
        &&& m@[4].0@ == "reason"@ && is_opt_str(m@[4].1, r.reason)
        &&& m@[5].0@ == "last_checked_at_unix_ms"@ && is_number(
            m@[5].1,
            r.last_checked_at_unix_ms as nat,
        )
        &&& m@[6].0@ == "consecutive_failures"@ && is_number(m@[6].1, r.consecutive_failures as nat)
        &&& m@[7].0@ == "recovery_state"@ && is_str(m@[7].1, recovery_label(r.recovery_state))
    }
}

/// A health report as JSON.
pub fn report_item(r: &RuntimeProviderHealthReport) -> (j: JsonItem)
    ensures
        is_report_item(j, r@),
{
    let mut m: Vec<(String, JsonItem)> = Vec::new();
    m.push((text("provider_class"), JsonItem::Str(r.provider_class.clone())));
    m.push((text("required"), JsonItem::Bool(r.required)));
    m.push((text("configured"), JsonItem::Bool(r.configured)));
    m.push((text("status"), status_item(r.status)));
    m.push((text("reason"), opt_text_item(&r.reason)));
    m.push((text("last_checked_at_unix_ms"), number_item(r.last_checked_at_unix_ms)));
    m.push((text("consecutive_failures"), number_item(r.consecutive_failures)));
    m.push((text("recovery_state"), JsonItem::Str(text(recovery_state_name(r.recovery_state)))));
    JsonItem::Object(m)
}

/// `j` is the array of the reports `rs`, in order.
pub open spec fn is_reports_array(j: JsonItem, rs: Seq<ReportView>) -> bool {
    j matches JsonItem::Array(a) && a@.len() == rs.len() && forall|i: int|
        0 <= i < rs.len() ==> is_report_item(#[trigger] a@[i], rs[i])
}

/// `j` is the health state as JSON: overall status, safe mode, degraded
/// level, whether direct execution is allowed, and the reports.
pub open spec fn is_health_value(j: JsonItem, s: RuntimeProviderHealthState) -> bool {
    j matches JsonItem::Object(m) && m@.len() == 5 && {
        &&& m@[0].0@ == "overall_status"@ && is_str(m@[0].1, status_label(s.overall_status))
        &&& m@[1].0@ == "safe_mode"@ && m@[1].1 == JsonItem::Bool(s.safe_mode)
        &&& m@[2].0@ == "degraded_level"@ && is_number(m@[2].1, s.degraded_level as nat)
        &&& m@[3].0@ == "direct_execution_allowed"@ && m@[3].1 == JsonItem::Bool(
            s.direct_execution_allowed,
        )
        &&& m@[4].0@ == "providers"@ && is_reports_array(m@[4].1, reports_view(s.reports@))
    }
}

/// The provider health state as the runtime status shows it.
pub fn provider_health_snapshot_value(s: &RuntimeProviderHealthState) -> (j: JsonItem)
    ensures
        is_health_value(j, *s),
{
    let mut items: Vec<JsonItem> = Vec::new();
    let mut i: usize = 0;
    while i < s.reports.len()
        invariant
            i <= s.reports@.len(),
            items@.len() == i,
            forall|k: int| 0 <= k < i ==> is_report_item(#[trigger] items@[k], s.reports@[k]@),
        decreases s.reports@.len() - i,
    {
        items.push(report_item(&s.reports[i]));
        i += 1;
    }
    let mut m: Vec<(String, JsonItem)> = Vec::new();
    m.push((text("overall_status"), status_item(s.overall_status)));
    m.push((text("safe_mode"), JsonItem::Bool(s.safe_mode)));
    m.push((text("degraded_level"), number_item(s.degraded_level as u64)));
    m.push((text("direct_execution_allowed"), JsonItem::Bool(s.direct_execution_allowed)));
    m.push((text("providers"), JsonItem::Array(items)));
    JsonItem::Object(m)
}

/// The payload of a provider transition event.
pub open spec fn is_provider_payload(j: JsonItem, e: TransitionView) -> bool {
    j matches JsonItem::Object(m) && m@.len() == 4 && {
        &&& m@[0].0@ == "provider_class"@ && is_str(m@[0].1, e.provider_class)
        &&& m@[1].0@ == "previous_status"@ && is_opt_status(m@[1].1, e.previous_status)
        &&& m@[2].0@ == "current_status"@ && is_str(m@[2].1, status_label(e.current_status))
        &&& m@[3].0@ == "reason"@ && is_opt_str(m@[3].1, e.reason)
    }
}

/// The payload of a mode transition event: the previous and current mode,
/// the new safe mode and degraded level, and the new health state.
pub open spec fn is_mode_payload(j: JsonItem, m: ModeTransition, s: RuntimeProviderHealthState) -> bool {
    j matches JsonItem::Object(n) && n@.len() == 5 && {
        &&& n@[0].0@ == "previous_mode"@ && is_str(n@[0].1, status_label(m.previous_overall_status))
        &&& n@[1].0@ == "current_mode"@ && is_str(n@[1].1, status_label(m.overall_status))
        &&& n@[2].0@ == "safe_mode"@ && n@[2].1 == JsonItem::Bool(s.safe_mode)
        &&& n@[3].0@ == "degraded_level"@ && is_number(n@[3].1, s.degraded_level as nat)
        &&& n@[4].0@ == "provider_health"@ && is_health_value(n@[4].1, s)
    }
}

/// The payload of a safe mode event.
pub open spec fn is_safe_mode_payload(j: JsonItem, m: ModeTransition) -> bool {
    j matches JsonItem::Object(n) && n@.len() == 3 && {
        &&& n@[0].0@ == "previous_safe_mode"@ && n@[0].1 == JsonItem::Bool(m.previous_safe_mode)
        &&& n@[1].0@ == "safe_mode"@ && n@[1].1 == JsonItem::Bool(m.safe_mode)
        &&& n@[2].0@ == "degraded_level"@ && is_number(n@[2].1, m.degraded_level as nat)
    }
}

/// The payload of a degraded level event.
pub open spec fn is_level_payload(j: JsonItem, m: ModeTransition) -> bool {
    j matches JsonItem::Object(n) && n@.len() == 2 && {
        &&& n@[0].0@ == "previous_degraded_level"@ && is_number(
            n@[0].1,
            m.previous_degraded_level as nat,
        )
        &&& n@[1].0@ == "degraded_level"@ && is_number(n@[1].1, m.degraded_level as nat)
    }
}

/// The payload of a planned health event, made from the part of the round
/// it is about; nothing when the round has no such part.
pub fn health_event_payload(update: &ProviderHealthUpdateResult, source: HealthEventSource) -> (r:
    Option<JsonItem>)
    ensures
        match source {
            HealthEventSource::Provider(i) => if i < update.provider_transitions@.len() {
                r matches Some(j) && is_provider_payload(
                    j,
                    transitions_view(update.provider_transitions@)[i as int],
                )
            } else {
                r is None
            },
            HealthEventSource::ModeTransition => match update.mode_transition {
                Some(m) => r matches Some(j) && is_mode_payload(j, m, update.snapshot),
                None => r is None,
            },
            HealthEventSource::SafeMode => match update.mode_transition {
                Some(m) => r matches Some(j) && is_safe_mode_payload(j, m),
                None => r is None,
            },
            HealthEventSource::DegradedLevel => match update.mode_transition {
                Some(m) => r matches Some(j) && is_level_payload(j, m),
                None => r is None,
            },
        },
{
    match source {
        HealthEventSource::Provider(i) => {
            if i >= update.provider_transitions.len() {
                return None;
            }
            let e = &update.provider_transitions[i];
            let previous = match e.previous_status {
                Some(p) => status_item(p),
                None => JsonItem::Null,
            };
            let mut m: Vec<(String, JsonItem)> = Vec::new();
            m.push((text("provider_class"), JsonItem::Str(e.provider_class.clone())));
            m.push((text("previous_status"), previous));
            m.push((text("current_status"), status_item(e.current_status)));
            m.push((text("reason"), opt_text_item(&e.reason)));
            Some(JsonItem::Object(m))
        },
        HealthEventSource::ModeTransition => match update.mode_transition {
            Some(mt) => {
                let mut n: Vec<(String, JsonItem)> = Vec::new();
                n.push((text("previous_mode"), status_item(mt.previous_overall_status)));
                n.push((text("current_mode"), status_item(mt.overall_status)));
                n.push((text("safe_mode"), JsonItem::Bool(update.snapshot.safe_mode)));
                n.push((text("degraded_level"), number_item(update.snapshot.degraded_level as u64)));
                n.push((text("provider_health"), provider_health_snapshot_value(&update.snapshot)));
                Some(JsonItem::Object(n))
            },
            None => None,
        },
        HealthEventSource::SafeMode => match update.mode_transition {
            Some(mt) => {
                let mut n: Vec<(String, JsonItem)> = Vec::new();
                n.push((text("previous_safe_mode"), JsonItem::Bool(mt.previous_safe_mode)));
                n.push((text("safe_mode"), JsonItem::Bool(mt.safe_mode)));
                n.push((text("degraded_level"), number_item(mt.degraded_level as u64)));
                Some(JsonItem::Object(n))
            },
            None => None,
        },
        HealthEventSource::DegradedLevel => match update.mode_transition {
            Some(mt) => {
                let mut n: Vec<(String, JsonItem)> = Vec::new();
                n.push(
                    (text("previous_degraded_level"), number_item(mt.previous_degraded_level as u64)),
                );
                n.push((text("degraded_level"), number_item(mt.degraded_level as u64)));
                Some(JsonItem::Object(n))
            },
            None => None,
        },
    }
}

} // verus!
