//! The parts of the runtime status that describe the runtime core: the
//! providers selected for each role, the wiring warnings and failures, which
//! seams are configured, and each seam's health.
use vstd::prelude::*;

use crate::host::JsonItem;
use crate::outcomes::{is_opt_str, is_str};
use crate::provider_health::{runtime_health_status_name, status_label};
use crate::runtime_core::{RuntimeHealth, RuntimeSelectedProvider, RuntimeWiringPlan};
use crate::static_routes::opt_view;
use crate::text::{text, texts_of};

verus! {

/// Which seams of the runtime core are configured.
#[derive(Clone, Copy, Debug, PartialEq, Eq, Structural)]
pub struct RuntimeSeamFlags {
    pub session: bool,
    pub state: bool,
    pub telemetry: bool,
    pub observer: bool,
    pub admin_auth: bool,
    pub bundle_source: bool,
    pub bundle_resolver: bool,
    pub bundle_fs: bool,
}

/// The names of the seams, in the order the status lists them.
pub open spec fn seam_names() -> Seq<Seq<char>> {
    seq![
        "session"@,
        "state"@,
        "telemetry"@,
        "observer"@,
        "admin_auth"@,
        "bundle_source"@,
        "bundle_resolver"@,
        "bundle_fs"@,
    ]
}

/// The flags, in the order of `seam_names`.
pub open spec fn seam_values(f: RuntimeSeamFlags) -> Seq<bool> {
    seq![
        f.session,
        f.state,
        f.telemetry,
        f.observer,
        f.admin_auth,
        f.bundle_source,
        f.bundle_resolver,
        f.bundle_fs,
    ]
}

/// Members `m` are, in order, the keys `keys` with the given texts.
pub open spec fn text_members(
    m: Seq<(String, JsonItem)>,
    keys: Seq<Seq<char>>,
    values: Seq<Seq<char>>,
) -> bool {
    &&& m.len() == keys.len()
    &&& keys.len() == values.len()
    &&& forall|i: int| 0 <= i < m.len() ==> #[trigger] m[i].0@ == keys[i] && is_str(m[i].1, values[i])
}

/// Members `m` are, in order, the keys `keys` with the given booleans.
pub open spec fn bool_members(m: Seq<(String, JsonItem)>, keys: Seq<Seq<char>>, values: Seq<bool>) -> bool {
    &&& m.len() == keys.len()
    &&& keys.len() == values.len()
    &&& forall|i: int|
        0 <= i < m.len() ==> #[trigger] m[i].0@ == keys[i] && m[i].1 == JsonItem::Bool(values[i])
}

/// The status entry of a role's selected provider: the role, then an object
/// of its capability, contract, pack and stable id.
pub open spec fn is_role_entry(e: (String, JsonItem), p: (String, RuntimeSelectedProvider)) -> bool {
    &&& e.0@ == p.0@
    &&& e.1 matches JsonItem::Object(m) && text_members(
        m@,
        seq!["capability_id"@, "contract_id"@, "pack_id"@, "stable_id"@],
        seq![p.1.capability_id@, p.1.contract_id@, p.1.provider_pack@, p.1.stable_id@],
    )
}

/// `v` is the array of the texts `t`.
pub open spec fn is_text_array(v: JsonItem, t: Seq<Seq<char>>) -> bool {
    v matches JsonItem::Array(items) && items@.len() == t.len() && forall|i: int|
        0 <= i < t.len() ==> is_str(#[trigger] items@[i], t[i])
}

fn str_item(s: &str) -> (r: JsonItem)
    ensures
        is_str(r, s@),
{
    JsonItem::Str(text(s))
}

fn text_array(items: &Vec<String>) -> (r: JsonItem)
    ensures
        is_text_array(r, texts_of(items@)),
{
    let mut out: Vec<JsonItem> = Vec::new();
    let mut i: usize = 0;
    while i < items.len()
        invariant
            i <= items@.len(),
            out@.len() == i,
            forall|j: int| 0 <= j < i ==> is_str(#[trigger] out@[j], items@[j]@),
        decreases items@.len() - i,
    {
        out.push(JsonItem::Str(items[i].clone()));
        i += 1;
    }
    JsonItem::Array(out)
}

fn role_entry(p: &(String, RuntimeSelectedProvider)) -> (r: (String, JsonItem))
    ensures
        is_role_entry(r, *p),
{
    let mut m: Vec<(String, JsonItem)> = Vec::new();
    m.push((text("capability_id"), JsonItem::Str(p.1.capability_id.clone())));
    m.push((text("contract_id"), JsonItem::Str(p.1.contract_id.clone())));
    m.push((text("pack_id"), JsonItem::Str(p.1.provider_pack.clone())));
    m.push((text("stable_id"), JsonItem::Str(p.1.stable_id.clone())));
    proof {
        reveal_strlit("capability_id");
        reveal_strlit("contract_id");
        reveal_strlit("pack_id");
        reveal_strlit("stable_id");
        let keys = seq!["capability_id"@, "contract_id"@, "pack_id"@, "stable_id"@];
        let vals = seq![
            p.1.capability_id@,
            p.1.contract_id@,
            p.1.provider_pack@,
            p.1.stable_id@,
        ];
        assert forall|i: int| 0 <= i < m@.len() implies #[trigger] m@[i].0@ == keys[i] && is_str(
            m@[i].1,
            vals[i],
        ) by {
            if i == 0 {
            } else if i == 1 {
            } else if i == 2 {
            } else {
            }
        }
    }
    (p.0.clone(), JsonItem::Object(m))
}

/// The roles part of the runtime status: the selected provider of each
/// role, the wiring warnings and blocking failures, and which seams are
/// configured.
pub fn runtime_role_payload(plan: &RuntimeWiringPlan, seams: RuntimeSeamFlags) -> (r: JsonItem)
    ensures
        r matches JsonItem::Object(m) && m@.len() == 4 && ({
            &&& m@[0].0@ == "selected"@
            &&& m@[0].1 matches JsonItem::Object(sel) && sel@.len()
                == plan.selected_providers@.len() && forall|i: int|
                0 <= i < sel@.len() ==> is_role_entry(
                    #[trigger] sel@[i],
                    plan.selected_providers@[i],
                )
            &&& m@[1].0@ == "warnings"@
            &&& is_text_array(m@[1].1, texts_of(plan.warnings@))
            &&& m@[2].0@ == "blocking_failures"@
            &&& is_text_array(m@[2].1, texts_of(plan.blocking_failures@))
            &&& m@[3].0@ == "seams"@
            &&& m@[3].1 matches JsonItem::Object(sm) && bool_members(
                sm@,
                seam_names(),
                seam_values(seams),
            )
        }),
{
    let mut selected: Vec<(String, JsonItem)> = Vec::new();
    let mut i: usize = 0;
    while i < plan.selected_providers.len()
        invariant
            i <= plan.selected_providers@.len(),
            selected@.len() == i,
            forall|j: int|
                0 <= j < i ==> is_role_entry(#[trigger] selected@[j], plan.selected_providers@[j]),
        decreases plan.selected_providers@.len() - i,
    {
        selected.push(role_entry(&plan.selected_providers[i]));
        i += 1;
    }
    let mut flags: Vec<(String, JsonItem)> = Vec::new();
    flags.push((text("session"), JsonItem::Bool(seams.session)));
    flags.push((text("state"), JsonItem::Bool(seams.state)));
    flags.push((text("telemetry"), JsonItem::Bool(seams.telemetry)));
    flags.push((text("observer"), JsonItem::Bool(seams.observer)));
    flags.push((text("admin_auth"), JsonItem::Bool(seams.admin_auth)));
    flags.push((text("bundle_source"), JsonItem::Bool(seams.bundle_source)));
    flags.push((text("bundle_resolver"), JsonItem::Bool(seams.bundle_resolver)));
    flags.push((text("bundle_fs"), JsonItem::Bool(seams.bundle_fs)));
    proof {
        reveal_strlit("session");
        reveal_strlit("state");
        reveal_strlit("telemetry");
        reveal_strlit("observer");
        reveal_strlit("admin_auth");
        reveal_strlit("bundle_source");
        reveal_strlit("bundle_resolver");
        reveal_strlit("bundle_fs");
        assert forall|k: int| 0 <= k < flags@.len() implies #[trigger] flags@[k].0@
            == seam_names()[k] && flags@[k].1 == JsonItem::Bool(seam_values(seams)[k]) by {
            if k == 0 {
            } else if k == 1 {
            } else if k == 2 {
            } else if k == 3 {
            } else if k == 4 {
            } else if k == 5 {
            } else if k == 6 {
            } else {
            }
        }
    }
    let mut m: Vec<(String, JsonItem)> = Vec::new();
    m.push((text("selected"), JsonItem::Object(selected)));
    m.push((text("warnings"), text_array(&plan.warnings)));
    m.push((text("blocking_failures"), text_array(&plan.blocking_failures)));
    m.push((text("seams"), JsonItem::Object(flags)));
    JsonItem::Object(m)
}

/// The health entry of a seam: `unconfigured` when it is absent, else the
/// status it reported, or `error` with the message of its failed check.
pub fn optional_seam_health(seam: Option<Result<RuntimeHealth, String>>) -> (r: JsonItem)
    ensures
        r matches JsonItem::Object(m) && m@.len() == 3 && m@[0].0@ == "configured"@ && m@[1].0@
            == "status"@ && m@[2].0@ == "reason"@ && match seam {
            None => m@[0].1 == JsonItem::Bool(false) && is_str(m@[1].1, "unconfigured"@)
                && m@[2].1 is Null,
            Some(Ok(h)) => m@[0].1 == JsonItem::Bool(true) && is_str(m@[1].1, status_label(h.status))
                && is_opt_str(m@[2].1, opt_view(h.reason)),
            Some(Err(e)) => m@[0].1 == JsonItem::Bool(true) && is_str(m@[1].1, "error"@)
                && is_str(m@[2].1, e@),
        },
{
    let (configured, status, reason) = match seam {
        None => (false, str_item("unconfigured"), JsonItem::Null),
        Some(Ok(h)) => (
            true,
            str_item(runtime_health_status_name(h.status)),
            match h.reason {
                Some(x) => JsonItem::Str(x),
                None => JsonItem::Null,
            },
        ),
        Some(Err(e)) => (true, str_item("error"), JsonItem::Str(e)),
    };
    let mut m: Vec<(String, JsonItem)> = Vec::new();
    m.push((text("configured"), JsonItem::Bool(configured)));
    m.push((text("status"), status));
    m.push((text("reason"), reason));
    JsonItem::Object(m)
}

} // verus!
