//! What a flow or provider operation came to, and the outcomes the runtime
//! answers with itself when a capability cannot be reached or a required
//! dependency is down.
use vstd::prelude::*;

use crate::host::{
    base64_encode, base64_standard, lemma_member_push, lemma_member_replace, member,
    needs_secret_context, unicode_lowercase, JsonItem, RunnerExecutionMode,
};
use crate::provider_health::{
    dependencies_view, dependency_lines, ensure_required_dependencies_available,
    RuntimeDependencyState,
};
use crate::runtime_core::RuntimeHealthStatus;
use crate::text::{
    chars_of, join_texts, seq_contains_text, extend_chars, string_of, text, text_eq, texts_of,
};

verus! {

/// How a flow or provider operation went.
#[derive(Debug, PartialEq)]
pub struct FlowOutcome {
    pub success: bool,
    pub output: Option<JsonItem>,
    pub raw: Option<String>,
    pub error: Option<String>,
    pub mode: RunnerExecutionMode,
}

/// Why the runtime refused to run a provider operation.
#[derive(Clone, Copy, Debug, PartialEq, Eq, Structural)]
pub enum DependencyFailureMode {
    Unavailable,
}

/// `j` is the JSON string `v`.
pub open spec fn is_str(j: JsonItem, v: Seq<char>) -> bool {
    j matches JsonItem::Str(s) && s@ == v
}

/// `j` is the JSON string `v`, or `null` when there is none.
pub open spec fn is_opt_str(j: JsonItem, v: Option<Seq<char>>) -> bool {
    match v {
        Some(x) => is_str(j, x),
        None => j is Null,
    }
}

/// `j` is the object `{"code": code, "error": {"type": ty, k1: v1, ...}}`,
/// the error's fields in the given order, each a string or `null`.
pub open spec fn error_output(
    j: JsonItem,
    code: Seq<char>,
    ty: Seq<char>,
    fields: Seq<(Seq<char>, Option<Seq<char>>)>,
) -> bool {
    &&& j matches JsonItem::Object(m)
    &&& m@.len() == 2
    &&& m@[0].0@ == "code"@ && is_str(m@[0].1, code)
    &&& m@[1].0@ == "error"@
    &&& m@[1].1 matches JsonItem::Object(e) && e@.len() == fields.len() + 1 && e@[0].0@
        == "type"@ && is_str(e@[0].1, ty) && forall|i: int|
        0 <= i < fields.len() ==> #[trigger] e@[i + 1].0@ == fields[i].0 && is_opt_str(
            e@[i + 1].1,
            fields[i].1,
        )
}

fn str_entry(key: &str, value: &str) -> (r: (String, JsonItem))
    ensures
        r.0@ == key@,
        is_str(r.1, value@),
{
    (text(key), JsonItem::Str(text(value)))
}

/// Wraps an error object's fields under `code`.
fn error_object(code: &str, inner: Vec<(String, JsonItem)>) -> (r: JsonItem)
    ensures
        r matches JsonItem::Object(m) && m@.len() == 2 && m@[0].0@ == "code"@ && is_str(
            m@[0].1,
            code@,
        ) && m@[1].0@ == "error"@ && m@[1].1 == JsonItem::Object(inner),
{
    let mut outer: Vec<(String, JsonItem)> = Vec::new();
    outer.push(str_entry("code", code));
    outer.push((text("error"), JsonItem::Object(inner)));
    JsonItem::Object(outer)
}

/// `"MissingCapability(cap_id=…, op_name=…, component_id=…)"`.
pub open spec fn missing_capability_message(
    cap_id: Seq<char>,
    op_name: Seq<char>,
    component_id: Option<Seq<char>>,
) -> Seq<char> {
    "MissingCapability(cap_id="@ + cap_id + ", op_name="@ + op_name + ", component_id="@
        + match component_id {
        Some(c) => c,
        None => "<unknown>"@,
    } + ")"@
}

pub open spec fn opt_str_view(s: Option<&str>) -> Option<Seq<char>> {
    match s {
        Some(x) => Some(x@),
        None => None,
    }
}

/// The outcome when no provider offers a capability.
pub fn missing_capability_outcome(cap_id: &str, op_name: &str, component_id: Option<&str>) -> (r:
    FlowOutcome)
    ensures
        !r.success,
        r.output matches Some(o) && error_output(
            o,
            "missing_capability"@,
            "MissingCapability"@,
            seq![
                ("cap_id"@, Some(cap_id@)),
                ("op_name"@, Some(op_name@)),
                ("component_id"@, opt_str_view(component_id)),
            ],
        ),
        r.raw is None,
        r.error matches Some(e) && e@ == missing_capability_message(
            cap_id@,
            op_name@,
            opt_str_view(component_id),
        ),
        r.mode == RunnerExecutionMode::Exec,
{
    let mut inner: Vec<(String, JsonItem)> = Vec::new();
    inner.push(str_entry("type", "MissingCapability"));
    inner.push(str_entry("cap_id", cap_id));
    inner.push(str_entry("op_name", op_name));
    let component = match component_id {
        Some(c) => JsonItem::Str(text(c)),
        None => JsonItem::Null,
    };
    inner.push((text("component_id"), component));
    let ghost iv = inner@;
    let output = error_object("missing_capability", inner);
    let mut msg = chars_of("MissingCapability(cap_id=");
    extend_chars(&mut msg, cap_id);
    extend_chars(&mut msg, ", op_name=");
    extend_chars(&mut msg, op_name);
    extend_chars(&mut msg, ", component_id=");
    match component_id {
        Some(c) => extend_chars(&mut msg, c),
        None => extend_chars(&mut msg, "<unknown>"),
    }
    extend_chars(&mut msg, ")");
    let error = string_of(msg.as_slice());
    proof {
        let fields = seq![
            ("cap_id"@, Some(cap_id@)),
            ("op_name"@, Some(op_name@)),
            ("component_id"@, opt_str_view(component_id)),
        ];
        assert(forall|i: int|
            0 <= i < fields.len() ==> #[trigger] iv[i + 1].0@ == fields[i].0 && is_opt_str(
                iv[i + 1].1,
                fields[i].1,
            ));
    }
    FlowOutcome { success: false, output: Some(output), raw: None, error: Some(error), mode: RunnerExecutionMode::Exec }
}

/// `"CapabilityNotInstalled(cap_id=…, op_name=…, stable_id=…)"`.
pub open spec fn not_installed_message(cap_id: Seq<char>, op_name: Seq<char>, stable_id: Seq<char>) -> Seq<
    char,
> {
    "CapabilityNotInstalled(cap_id="@ + cap_id + ", op_name="@ + op_name + ", stable_id="@
        + stable_id + ")"@
}

/// The outcome when the provider chosen for a capability has not been set up.
pub fn capability_not_installed_outcome(cap_id: &str, op_name: &str, stable_id: &str) -> (r:
    FlowOutcome)
    ensures
        !r.success,
        r.output matches Some(o) && error_output(
            o,
            "capability_not_installed"@,
            "CapabilityNotInstalled"@,
            seq![
                ("cap_id"@, Some(cap_id@)),
                ("op_name"@, Some(op_name@)),
                ("stable_id"@, Some(stable_id@)),
            ],
        ),
        r.raw is None,
        r.error matches Some(e) && e@ == not_installed_message(cap_id@, op_name@, stable_id@),
        r.mode == RunnerExecutionMode::Exec,
{
    let mut inner: Vec<(String, JsonItem)> = Vec::new();
    inner.push(str_entry("type", "CapabilityNotInstalled"));
    inner.push(str_entry("cap_id", cap_id));
    inner.push(str_entry("op_name", op_name));
    inner.push(str_entry("stable_id", stable_id));
    let ghost iv = inner@;
    let output = error_object("capability_not_installed", inner);
    let mut msg = chars_of("CapabilityNotInstalled(cap_id=");
    extend_chars(&mut msg, cap_id);
    extend_chars(&mut msg, ", op_name=");
    extend_chars(&mut msg, op_name);
    extend_chars(&mut msg, ", stable_id=");
    extend_chars(&mut msg, stable_id);
    extend_chars(&mut msg, ")");
    let error = string_of(msg.as_slice());
    proof {
        let fields = seq![
            ("cap_id"@, Some(cap_id@)),
            ("op_name"@, Some(op_name@)),
            ("stable_id"@, Some(stable_id@)),
        ];
        assert(forall|i: int|
            0 <= i < fields.len() ==> #[trigger] iv[i + 1].0@ == fields[i].0 && is_opt_str(
                iv[i + 1].1,
                fields[i].1,
            ));
    }
    FlowOutcome { success: false, output: Some(output), raw: None, error: Some(error), mode: RunnerExecutionMode::Exec }
}

/// The outcome when a capability call cannot be routed; the reason is the error.
pub fn capability_route_error_outcome(cap_id: &str, op_name: &str, reason: String) -> (r:
    FlowOutcome)
    ensures
        !r.success,
        r.output matches Some(o) && error_output(
            o,
            "capability_route_error"@,
            "CapabilityRouteError"@,
            seq![
                ("cap_id"@, Some(cap_id@)),
                ("op_name"@, Some(op_name@)),
                ("reason"@, Some(reason@)),
            ],
        ),
        r.raw is None,
        r.error matches Some(e) && e@ == reason@,
        r.mode == RunnerExecutionMode::Exec,
{
    let mut inner: Vec<(String, JsonItem)> = Vec::new();
    inner.push(str_entry("type", "CapabilityRouteError"));
    inner.push(str_entry("cap_id", cap_id));
    inner.push(str_entry("op_name", op_name));
    inner.push(str_entry("reason", reason.as_str()));
    let ghost iv = inner@;
    let output = error_object("capability_route_error", inner);
    proof {
        let fields = seq![
            ("cap_id"@, Some(cap_id@)),
            ("op_name"@, Some(op_name@)),
            ("reason"@, Some(reason@)),
        ];
        assert(forall|i: int|
            0 <= i < fields.len() ==> #[trigger] iv[i + 1].0@ == fields[i].0 && is_opt_str(
                iv[i + 1].1,
                fields[i].1,
            ));
    }
    FlowOutcome { success: false, output: Some(output), raw: None, error: Some(reason), mode: RunnerExecutionMode::Exec }
}

/// The outcome when a required runtime dependency keeps a provider
/// operation from running.
pub fn runtime_dependency_failure_outcome(
    reason: String,
    dependency_mode: DependencyFailureMode,
    mode: RunnerExecutionMode,
) -> (r: FlowOutcome)
    ensures
        !r.success,
        r.output matches Some(o) && error_output(
            o,
            "runtime_dependency_unavailable"@,
            "RuntimeDependencyUnavailable"@,
            seq![("reason"@, Some(reason@))],
        ),
        r.raw is None,
        r.error matches Some(e) && e@ == "runtime dependency unavailable: "@ + reason@,
        r.mode == mode,
{
    let (code, error_type, prefix) = match dependency_mode {
        DependencyFailureMode::Unavailable => (
            "runtime_dependency_unavailable",
            "RuntimeDependencyUnavailable",
            "runtime dependency unavailable",
        ),
    };
    let mut inner: Vec<(String, JsonItem)> = Vec::new();
    inner.push(str_entry("type", error_type));
    inner.push(str_entry("reason", reason.as_str()));
    let ghost iv = inner@;
    let output = error_object(code, inner);
    let mut msg = chars_of(prefix);
    extend_chars(&mut msg, ": ");
    extend_chars(&mut msg, reason.as_str());
    let error = string_of(msg.as_slice());
    proof {
        let fields = seq![("reason"@, Some(reason@))];
        assert(forall|i: int|
            0 <= i < fields.len() ==> #[trigger] iv[i + 1].0@ == fields[i].0 && is_opt_str(
                iv[i + 1].1,
                fields[i].1,
            ));
        assert(error@ =~= "runtime dependency unavailable: "@ + reason@) by {
            reveal_strlit("runtime dependency unavailable");
            reveal_strlit(": ");
            reveal_strlit("runtime dependency unavailable: ");
        }
    }
    FlowOutcome { success: false, output: Some(output), raw: None, error: Some(error), mode }
}

/// The member a degraded-dependency warning is attached under.
pub open spec fn warning_key() -> Seq<char> {
    "runtime_dependency_warning"@
}

/// `j` is `{"status": "degraded", "reasons": [messages...]}`.
pub open spec fn degraded_warning(j: JsonItem, messages: Seq<Seq<char>>) -> bool {
    &&& j matches JsonItem::Object(m)
    &&& m@.len() == 2
    &&& m@[0].0@ == "status"@ && is_str(m@[0].1, "degraded"@)
    &&& m@[1].0@ == "reasons"@
    &&& m@[1].1 matches JsonItem::Array(a) && a@.len() == messages.len() && forall|i: int|
        0 <= i < messages.len() ==> is_str(#[trigger] a@[i], messages[i])
}

fn degraded_warning_item(messages: &[String]) -> (r: JsonItem)
    ensures
        degraded_warning(r, texts_of(messages@)),
{
    let mut reasons: Vec<JsonItem> = Vec::new();
    let mut i: usize = 0;
    while i < messages.len()
        invariant
            i <= messages@.len(),
            reasons@.len() == i,
            forall|k: int| 0 <= k < i ==> is_str(#[trigger] reasons@[k], messages@[k]@),
        decreases messages@.len() - i,
    {
        reasons.push(JsonItem::Str(messages[i].clone()));
        i += 1;
    }
    let mut m: Vec<(String, JsonItem)> = Vec::new();
    m.push(str_entry("status", "degraded"));
    m.push((text("reasons"), JsonItem::Array(reasons)));
    JsonItem::Object(m)
}

/// `r` is output `value` as it leaves a provider operation: unchanged
/// without degradation; with it, an object gains (or has replaced) its
/// `runtime_dependency_warning` member carrying `messages`, and any other
/// value becomes `{"result": value, "runtime_dependency_warning": warning}`.
pub open spec fn warned_output(value: JsonItem, degraded: bool, messages: Seq<Seq<char>>, r: JsonItem) -> bool {
    &&& !degraded ==> r == value
    &&& degraded ==> match value {
        JsonItem::Object(m) => r matches JsonItem::Object(n) && (member(n@, warning_key()) matches Some(
            w,
        ) && degraded_warning(w, messages)) && (forall|k: Seq<char>|
            k != warning_key() ==> #[trigger] member(n@, k) == member(m@, k)) && n@.len() == (
        if member(m@, warning_key()) is Some {
            m@.len()
        } else {
            m@.len() + 1
        }),
        _ => r matches JsonItem::Object(n) && n@.len() == 2 && n@[0].0@ == "result"@ && n@[0].1
            == value && n@[1].0@ == warning_key() && degraded_warning(n@[1].1, messages),
    }
}

/// The output of a provider operation that ran while a required dependency
/// was degraded carries a warning with the reasons: an object gains (or has
/// replaced) its `runtime_dependency_warning` member; any other value is
/// wrapped as `{"result": value, "runtime_dependency_warning": warning}`.
/// Without degradation the output is returned as it is.
pub fn attach_degraded_dependency_warning(value: JsonItem, degraded: bool, messages: &[String]) -> (r:
    JsonItem)
    ensures
        warned_output(value, degraded, texts_of(messages@), r),
{
    if !degraded {
        return value;
    }
    let warning = degraded_warning_item(messages);
    match value {
        JsonItem::Object(m) => {
            let ghost old_m = m@;
            let mut m = m;
            let mut i: usize = 0;
            while i < m.len()
                invariant
                    i <= m@.len(),
                    m@ == old_m,
                    forall|j: int| 0 <= j < i ==> m@[j].0@ != warning_key(),
                ensures
                    i <= m@.len(),
                    m@ == old_m,
                    forall|j: int| 0 <= j < i ==> m@[j].0@ != warning_key(),
                    i < m@.len() ==> m@[i as int].0@ == warning_key(),
                decreases m@.len() - i,
            {
                if text_eq(m[i].0.as_str(), "runtime_dependency_warning") {
                    break;
                }
                i += 1;
            }
            let ghost w = warning;
            if i < m.len() {
                let key = text("runtime_dependency_warning");
                let ghost e = (key, w);
                m.set(i, (key, warning));
                proof {
                    crate::host::lemma_member_at(old_m, i as int, warning_key());
                    assert forall|k: Seq<char>| #[trigger] member(m@, k) == (if k == warning_key() {
                        Some(w)
                    } else {
                        member(old_m, k)
                    }) by {
                        lemma_member_replace(old_m, i as int, e, k);
                    }
                }
                JsonItem::Object(m)
            } else {
                let key = text("runtime_dependency_warning");
                let ghost e = (key, w);
                m.push((key, warning));
                proof {
                    crate::host::lemma_member_absent(old_m, warning_key());
                    assert forall|k: Seq<char>| #[trigger] member(m@, k) == (if k == warning_key() {
                        Some(w)
                    } else {
                        member(old_m, k)
                    }) by {
                        lemma_member_push(old_m, e, k);
                    }
                }
                JsonItem::Object(m)
            }
        },
        other => {
            let mut n: Vec<(String, JsonItem)> = Vec::new();
            n.push((text("result"), other));
            n.push((text("runtime_dependency_warning"), warning));
            JsonItem::Object(n)
        },
    }
}

// ---------------------------------------------------------------------------
// Running a provider operation directly
// ---------------------------------------------------------------------------

/// Whether a required dependency keeps a direct provider operation from
/// running: when one is unavailable the operation is refused with the
/// dependency failure outcome; otherwise it runs, degraded when the
/// dependencies' overall status is degraded.
pub fn dependency_gate(state: &RuntimeDependencyState, mode: RunnerExecutionMode) -> (r: Result<
    bool,
    FlowOutcome,
>)
    ensures
        ({
            let lines = dependency_lines(
                dependencies_view(state.reports@),
                RuntimeHealthStatus::Unavailable,
            );
            match r {
                Ok(degraded) => lines.len() == 0 && degraded == (state.overall_status
                    == RuntimeHealthStatus::Degraded),
                Err(o) => lines.len() > 0 && !o.success && o.mode == mode && o.raw is None
                    && (o.error matches Some(e) && e@ == "runtime dependency unavailable: "@ + (
                "required runtime dependencies unavailable: "@ + join_texts(lines, ", "@))) && (
                o.output matches Some(j) && error_output(
                    j,
                    "runtime_dependency_unavailable"@,
                    "RuntimeDependencyUnavailable"@,
                    seq![
                        ("reason"@, Some("required runtime dependencies unavailable: "@
                            + join_texts(lines, ", "@))),
                    ],
                )),
            }
        }),
{
    match ensure_required_dependencies_available(state) {
        Err(reason) => Err(
            runtime_dependency_failure_outcome(reason, DependencyFailureMode::Unavailable, mode),
        ),
        Ok(()) => Ok(state.overall_status == RuntimeHealthStatus::Degraded),
    }
}

/// The outcome of a provider operation run directly: its output, with the
/// degraded-dependency warning when degraded; or its error, replaced by the
/// secret lookup context when the error comes from the secret store.
pub fn direct_invocation_outcome(
    result: Result<JsonItem, String>,
    degraded: bool,
    degraded_messages: &[String],
    secret_context: &str,
) -> (r: FlowOutcome)
    ensures
        r.raw is None,
        r.mode == RunnerExecutionMode::Exec,
        match result {
            Ok(value) => r.success && r.error is None && (r.output matches Some(o) && warned_output(
                value,
                degraded,
                texts_of(degraded_messages@),
                o,
            )),
            Err(e) => !r.success && r.output is None && (r.error matches Some(m) && m@ == if (
            seq_contains_text(unicode_lowercase(e@), "secret store error"@) || seq_contains_text(
                e@,
                "SecretsError"@,
            )) {
                secret_context@
            } else {
                e@
            }),
        },
{
    match result {
        Ok(value) => FlowOutcome {
            success: true,
            output: Some(attach_degraded_dependency_warning(value, degraded, degraded_messages)),
            raw: None,
            error: None,
            mode: RunnerExecutionMode::Exec,
        },
        Err(e) => {
            let text = if needs_secret_context(e.as_str()) {
                text(secret_context)
            } else {
                e
            };
            FlowOutcome {
                success: false,
                output: None,
                raw: None,
                error: Some(text),
                mode: RunnerExecutionMode::Exec,
            }
        },
    }
}

/// The input a provider flow gets for a rendered payload: the payload's
/// JSON when it is JSON, else `{"payload": <base64 of the bytes>}`.
pub fn flow_payload(bytes: &[u8], parsed: Option<JsonItem>) -> (r: JsonItem)
    ensures
        match parsed {
            Some(j) => r == j,
            None => r matches JsonItem::Object(m) && m@.len() == 1 && m@[0].0@ == "payload"@
                && is_str(m@[0].1, base64_standard(bytes@)),
        },
{
    match parsed {
        Some(j) => j,
        None => {
            let mut m: Vec<(String, JsonItem)> = Vec::new();
            m.push((text("payload"), JsonItem::Str(base64_encode(bytes))));
            JsonItem::Object(m)
        },
    }
}

/// What a capability call made while rendering a card gives: its output,
/// or an error naming the capability and operation.
pub fn card_capability_output(cap_id: &str, op: &str, outcome: FlowOutcome) -> (r: Result<
    JsonItem,
    String,
>)
    ensures
        !outcome.success ==> (r matches Err(e) && e@ == "card capability "@ + cap_id@ + ":"@ + op@
            + " failed: "@ + match outcome.error {
            Some(x) => x@,
            None => match outcome.raw {
                Some(x) => x@,
                None => "capability invocation failed"@,
            },
        }),
        outcome.success ==> match outcome.output {
            Some(o) => r == Ok::<JsonItem, String>(o),
            None => r matches Err(e) && e@ == "card capability "@ + cap_id@ + ":"@ + op@
                + " returned no structured output"@,
        },
{
    let FlowOutcome { success, output, raw, error, .. } = outcome;
    let mut v = chars_of("card capability ");
    extend_chars(&mut v, cap_id);
    extend_chars(&mut v, ":");
    extend_chars(&mut v, op);
    if !success {
        let reason = match error {
            Some(x) => x,
            None => match raw {
                Some(x) => x,
                None => text("capability invocation failed"),
            },
        };
        extend_chars(&mut v, " failed: ");
        extend_chars(&mut v, reason.as_str());
        return Err(string_of(v.as_slice()));
    }
    match output {
        Some(o) => Ok(o),
        None => {
            extend_chars(&mut v, " returned no structured output");
            Err(string_of(v.as_slice()))
        },
    }
}

/// The context added to an error of the secret store: where the lookup
/// happened (the environment, tenant, canonical team, provider, flow and
/// pack).
pub fn secret_error_context(
    env: &str,
    tenant: &str,
    canonical_team: &str,
    provider_id: &str,
    op_id: &str,
    pack_id: &str,
    pack_path: &str,
) -> (r: String)
    ensures
        r@ == "secret lookup context env="@ + env@ + " tenant="@ + tenant@ + " team="@
            + canonical_team@ + " provider="@ + provider_id@ + " flow="@ + op_id@ + " pack_id="@
            + pack_id@ + " pack_path="@ + pack_path@,
{
    let mut m = chars_of("secret lookup context env=");
    extend_chars(&mut m, env);
    extend_chars(&mut m, " tenant=");
    extend_chars(&mut m, tenant);
    extend_chars(&mut m, " team=");
    extend_chars(&mut m, canonical_team);
    extend_chars(&mut m, " provider=");
    extend_chars(&mut m, provider_id);
    extend_chars(&mut m, " flow=");
    extend_chars(&mut m, op_id);
    extend_chars(&mut m, " pack_id=");
    extend_chars(&mut m, pack_id);
    extend_chars(&mut m, " pack_path=");
    extend_chars(&mut m, pack_path);
    string_of(m.as_slice())
}

} // verus!
