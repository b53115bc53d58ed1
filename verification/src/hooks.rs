//! Post-ingress hooks: whether they run, what a hook may answer with, how
//! each answer changes the ingress response, and where a hook may dispatch.
use vstd::prelude::*;
use vstd::slice::slice_to_vec;

use crate::domains::Domain;
use crate::host::{JsonItem, OperatorContext};
use crate::outcomes::{is_opt_str, is_str};
use crate::provider_health::{policy_refusal, reports_view, request_policy_decision, strs_view, RuntimeProviderHealthState};
use crate::static_routes::opt_view;
use crate::text::{ascii_lowercase, chars_of, concat, contains_char, extend_chars, string_of, text, text_eq, to_ascii_lowercase, trim, trim_seq};

verus! {

// ---------------------------------------------------------------------------
// Whether hooks run
// ---------------------------------------------------------------------------

/// A switch's value, trimmed and with ASCII letters lower-cased.
pub open spec fn normalized_switch(value: Seq<char>) -> Seq<char> {
    ascii_lowercase(trim_seq(value))
}

fn normalize_switch(value: &str) -> (r: String)
    ensures
        r@ == normalized_switch(value@),
{
    let t = trim(value);
    to_ascii_lowercase(t.as_str())
}

pub open spec fn switch_off(v: Seq<char>) -> bool {
    v == "0"@ || v == "false"@ || v == "no"@ || v == "off"@
}

pub open spec fn switch_on(v: Seq<char>) -> bool {
    v == "1"@ || v == "true"@ || v == "yes"@ || v == "on"@
}

/// Whether post-ingress hooks run, from the value of their switch in the
/// environment: they run unless it is set to `0`, `false`, `no` or `off`
/// (trimmed, in any ASCII case).
pub fn hooks_enabled(setting: Option<&str>) -> (r: bool)
    ensures
        r == match setting {
            None => true,
            Some(v) => !switch_off(normalized_switch(v@)),
        },
{
    match setting {
        None => true,
        Some(v) => {
            let n = normalize_switch(v);
            let s = n.as_str();
            !(text_eq(s, "0") || text_eq(s, "false") || text_eq(s, "no") || text_eq(s, "off"))
        },
    }
}

/// Whether hooks also run for event ingress, from the value of their switch
/// in the environment: only when it is set to `1`, `true`, `yes` or `on`.
pub fn event_hooks_enabled(setting: Option<&str>) -> (r: bool)
    ensures
        r == match setting {
            None => false,
            Some(v) => switch_on(normalized_switch(v@)),
        },
{
    match setting {
        None => false,
        Some(v) => {
            let n = normalize_switch(v);
            let s = n.as_str();
            text_eq(s, "1") || text_eq(s, "true") || text_eq(s, "yes") || text_eq(s, "on")
        },
    }
}

/// The request class post-ingress hooks run under.
pub open spec fn post_ingress_providers() -> Seq<Seq<char>> {
    seq!["session"@, "state"@, "bundle_source"@, "bundle_resolver"@, "bundle_fs"@]
}

/// Post-ingress hooks need the session, state and bundle providers and run
/// up to degraded level 1; otherwise they are refused with the policy's
/// message.
pub fn post_ingress_policy_gate(health: &RuntimeProviderHealthState) -> (r: Result<(), String>)
    ensures
        ({
            let want = policy_refusal(
                health.degraded_level,
                health.safe_mode,
                reports_view(health.reports@),
                "hook.post_ingress"@,
                post_ingress_providers(),
                1,
            );
            match r {
                Ok(()) => want is None,
                Err(e) => want matches Some(x) && e@ == "runtime request refused: "@ + x.message,
            }
        }),
{
    let classes: [&str; 5] = ["session", "state", "bundle_source", "bundle_resolver", "bundle_fs"];
    proof {
        assert(strs_view(classes@) =~= post_ingress_providers());
    }
    match request_policy_decision(health, "hook.post_ingress", &classes, 1) {
        Ok(()) => Ok(()),
        Err(refusal) => Err(concat("runtime request refused: ", refusal.message.as_str())),
    }
}

// ---------------------------------------------------------------------------
// Directives
// ---------------------------------------------------------------------------

/// Where a hook wants an ingress dispatched instead.
#[derive(Debug, PartialEq, Eq)]
pub struct DispatchTarget {
    pub tenant: String,
    pub team: Option<String>,
    pub pack: String,
    pub flow: Option<String>,
    pub node: Option<String>,
}

/// A reply a hook wants sent in place of the provider's response.
#[derive(Debug, PartialEq)]
pub struct IngressReply {
    pub text: Option<String>,
    pub card_cbor: Option<JsonItem>,
    pub status_code: Option<u16>,
    pub reason_code: Option<String>,
}

/// What a hook answered.
#[derive(Debug, PartialEq)]
pub enum ControlDirective {
    Continue,
    Respond { reply: IngressReply },
    Deny { reply: IngressReply },
    Dispatch { target: DispatchTarget },
}

/// The name of a directive's action.
pub open spec fn action_label(d: ControlDirective) -> Seq<char> {
    match d {
        ControlDirective::Continue => "continue"@,
        ControlDirective::Dispatch { .. } => "dispatch"@,
        ControlDirective::Respond { .. } => "respond"@,
        ControlDirective::Deny { .. } => "deny"@,
    }
}

pub fn directive_action(directive: &ControlDirective) -> (r: &'static str)
    ensures
        r@ == action_label(*directive),
{
    match directive {
        ControlDirective::Continue => "continue",
        ControlDirective::Dispatch { .. } => "dispatch",
        ControlDirective::Respond { .. } => "respond",
        ControlDirective::Deny { .. } => "deny",
    }
}

/// `j` is `{"tenant": …, "team": …, "pack": …, "flow": …, "node": …}` for a
/// dispatch target, `null` for each part it does not name.
pub open spec fn target_object(j: JsonItem, t: DispatchTarget) -> bool {
    &&& j matches JsonItem::Object(m)
    &&& m@.len() == 5
    &&& m@[0].0@ == "tenant"@ && is_str(m@[0].1, t.tenant@)
    &&& m@[1].0@ == "team"@ && is_opt_str(m@[1].1, opt_view(t.team))
    &&& m@[2].0@ == "pack"@ && is_str(m@[2].1, t.pack@)
    &&& m@[3].0@ == "flow"@ && is_opt_str(m@[3].1, opt_view(t.flow))
    &&& m@[4].0@ == "node"@ && is_opt_str(m@[4].1, opt_view(t.node))
}

fn opt_text_item(s: &Option<String>) -> (r: JsonItem)
    ensures
        is_opt_str(r, opt_view(*s)),
{
    match s {
        Some(x) => JsonItem::Str(x.clone()),
        None => JsonItem::Null,
    }
}

fn target_item(t: &DispatchTarget) -> (r: JsonItem)
    ensures
        target_object(r, *t),
{
    let mut m: Vec<(String, JsonItem)> = Vec::new();
    m.push((text("tenant"), JsonItem::Str(t.tenant.clone())));
    m.push((text("team"), opt_text_item(&t.team)));
    m.push((text("pack"), JsonItem::Str(t.pack.clone())));
    m.push((text("flow"), opt_text_item(&t.flow)));
    m.push((text("node"), opt_text_item(&t.node)));
    JsonItem::Object(m)
}

/// The target a directive names, for the audit trail: only a dispatch has one.
pub fn directive_target_for_audit(directive: &ControlDirective) -> (r: Option<JsonItem>)
    ensures
        match *directive {
            ControlDirective::Dispatch { target } => r matches Some(j) && target_object(j, target),
            _ => r is None,
        },
{
    match directive {
        ControlDirective::Dispatch { target } => Some(target_item(target)),
        _ => None,
    }
}

// ---------------------------------------------------------------------------
// Where a dispatch may go
// ---------------------------------------------------------------------------

/// A name that can stand as one path segment: not empty, not starting with
/// `.`, and without `/`, `\`, NUL or `:`.
pub open spec fn safe_segment(v: Seq<char>) -> bool {
    &&& v.len() > 0
    &&& v != "."@ && v != ".."@
    &&& !v.contains('/') && !v.contains('\\') && !v.contains('\0') && !v.contains(':')
    &&& v[0] != '.'
}

pub fn is_safe_segment(value: &str) -> (r: bool)
    ensures
        r == safe_segment(value@),
{
    let v = chars_of(value);
    if v.len() == 0 || text_eq(value, ".") || text_eq(value, "..") {
        return false;
    }
    !contains_char(value, '/') && !contains_char(value, '\\') && !contains_char(value, '\0')
        && !contains_char(value, ':') && v[0] != '.'
}

/// The first part of a dispatch target that is not a safe segment, with
/// its name, or none.
pub open spec fn first_unsafe_part(t: DispatchTarget) -> Option<(Seq<char>, Seq<char>)> {
    if !safe_segment(t.tenant@) {
        Some(("tenant"@, t.tenant@))
    } else if t.team matches Some(x) && !safe_segment(x@) {
        Some(("team"@, t.team->Some_0@))
    } else if !safe_segment(t.pack@) {
        Some(("pack"@, t.pack@))
    } else if t.flow matches Some(x) && !safe_segment(x@) {
        Some(("flow"@, t.flow->Some_0@))
    } else if t.node matches Some(x) && !safe_segment(x@) {
        Some(("node"@, t.node->Some_0@))
    } else {
        None
    }
}

fn invalid_part(part: &str, value: &str) -> (r: String)
    ensures
        r@ == "invalid dispatch "@ + part@ + " '"@ + value@ + "'"@,
{
    let mut v = chars_of("invalid dispatch ");
    extend_chars(&mut v, part);
    extend_chars(&mut v, " '");
    extend_chars(&mut v, value);
    extend_chars(&mut v, "'");
    string_of(v.as_slice())
}

/// Refuses a dispatch target whose tenant, team, pack, flow or node is not
/// a safe path segment, naming the first such part.
pub fn ensure_dispatch_target_safe(target: &DispatchTarget) -> (r: Result<(), String>)
    ensures
        match first_unsafe_part(*target) {
            None => r is Ok,
            Some((part, value)) => r matches Err(e) && e@ == "invalid dispatch "@ + part + " '"@
                + value + "'"@,
        },
{
    if !is_safe_segment(target.tenant.as_str()) {
        return Err(invalid_part("tenant", target.tenant.as_str()));
    }
    if let Some(team) = &target.team {
        if !is_safe_segment(team.as_str()) {
            return Err(invalid_part("team", team.as_str()));
        }
    }
    if !is_safe_segment(target.pack.as_str()) {
        return Err(invalid_part("pack", target.pack.as_str()));
    }
    if let Some(flow) = &target.flow {
        if !is_safe_segment(flow.as_str()) {
            return Err(invalid_part("flow", flow.as_str()));
        }
    }
    if let Some(node) = &target.node {
        if !is_safe_segment(node.as_str()) {
            return Err(invalid_part("node", node.as_str()));
        }
    }
    Ok(())
}

// ---------------------------------------------------------------------------
// The ingress response a hook may change
// ---------------------------------------------------------------------------

/// The body of an ingress response: the bytes as they are, or a JSON value
/// that is encoded when the response is sent.
#[derive(Debug, PartialEq)]
pub enum HookResponseBody {
    Bytes(Vec<u8>),
    Json(JsonItem),
}

/// An ingress request with the response that is to go back, as hooks see it.
#[derive(Debug, PartialEq)]
pub struct HookIngressBody {
    pub request: JsonItem,
    pub response_status: u16,
    pub response_headers: Vec<(String, String)>,
    pub response_body: Option<HookResponseBody>,
    pub events: Vec<JsonItem>,
}

pub open spec fn pairs_view(s: Seq<(String, String)>) -> Seq<(Seq<char>, Seq<char>)> {
    s.map_values(|p: (String, String)| (p.0@, p.1@))
}

/// The headers of a reply: its reason code, then its content type.
pub open spec fn reply_headers(reply: IngressReply) -> Seq<(Seq<char>, Seq<char>)> {
    (match reply.reason_code {
        Some(c) => seq![("x-reason-code"@, c@)],
        None => Seq::empty(),
    }) + if reply.card_cbor is Some {
        seq![("content-type"@, "application/json"@)]
    } else if reply.text is Some {
        seq![("content-type"@, "text/plain"@)]
    } else {
        Seq::empty()
    }
}

/// `b` is the body of a reply: a card as `{"text": …, "card": …}` (without
/// the text when there is none), else the text's UTF-8 bytes, else nothing.
pub open spec fn reply_body(b: Option<HookResponseBody>, reply: IngressReply) -> bool {
    match reply.card_cbor {
        Some(card) => b matches Some(HookResponseBody::Json(JsonItem::Object(m))) && match reply.text {
            Some(t) => m@.len() == 2 && m@[0].0@ == "text"@ && is_str(m@[0].1, t@) && m@[1].0@
                == "card"@ && m@[1].1 == card,
            None => m@.len() == 1 && m@[0].0@ == "card"@ && m@[0].1 == card,
        },
        None => match reply.text {
            Some(t) => b matches Some(HookResponseBody::Bytes(v)) && v@ == vstd::utf8::encode_utf8(t@),
            None => b is None,
        },
    }
}

/// The response after a hook replied: the reply's status (403 for a denial
/// and 200 otherwise when it gives none), its headers and body, and no
/// events; the request is kept.
pub open spec fn replied(before: HookIngressBody, after: HookIngressBody, reply: IngressReply, deny: bool) -> bool {
    &&& after.request == before.request
    &&& after.response_status == match reply.status_code {
        Some(c) => c,
        None => if deny {
            403u16
        } else {
            200u16
        },
    }
    &&& pairs_view(after.response_headers@) == reply_headers(reply)
    &&& reply_body(after.response_body, reply)
    &&& after.events@.len() == 0
}

fn header(name: &str, value: &str) -> (r: (String, String))
    ensures
        r.0@ == name@,
        r.1@ == value@,
{
    (text(name), text(value))
}

/// Puts a hook's reply in place of the response.
pub fn apply_reply(body: &mut HookIngressBody, reply: IngressReply, deny_default: bool)
    ensures
        replied(*old(body), *final(body), reply, deny_default),
{
    let ghost r = reply;
    let status_default: u16 = if deny_default {
        403
    } else {
        200
    };
    body.response_status = match reply.status_code {
        Some(c) => c,
        None => status_default,
    };
    let mut headers: Vec<(String, String)> = Vec::new();
    match &reply.reason_code {
        Some(code) => headers.push((text("x-reason-code"), code.clone())),
        None => {},
    }
    body.events = Vec::new();
    let IngressReply { text: reply_text, card_cbor, .. } = reply;
    let ghost before_ct = pairs_view(headers@);
    match card_cbor {
        Some(card) => {
            headers.push(header("content-type", "application/json"));
            let mut m: Vec<(String, JsonItem)> = Vec::new();
            match reply_text {
                Some(t) => {
                    m.push((text("text"), JsonItem::Str(t)));
                },
                None => {},
            }
            m.push((text("card"), card));
            body.response_body = Some(HookResponseBody::Json(JsonItem::Object(m)));
        },
        None => {
            match reply_text {
                Some(t) => {
                    headers.push(header("content-type", "text/plain"));
                    let bytes = slice_to_vec(t.as_str().as_bytes());
                    body.response_body = Some(HookResponseBody::Bytes(bytes));
                },
                None => {
                    body.response_body = None;
                },
            }
        },
    }
    proof {
        assert(pairs_view(headers@) =~= reply_headers(r));
    }
    body.response_headers = headers;
}

/// The response after a dispatch: 202, a JSON content type, the body
/// `{"ok": true, "dispatched": true, "target": {…}}`, and no events; the
/// request is kept.
pub open spec fn dispatched(before: HookIngressBody, after: HookIngressBody, target: DispatchTarget) -> bool {
    &&& after.request == before.request
    &&& after.response_status == 202
    &&& pairs_view(after.response_headers@) == seq![("content-type"@, "application/json"@)]
    &&& after.response_body matches Some(HookResponseBody::Json(JsonItem::Object(m)))
    &&& m@.len() == 3
    &&& m@[0].0@ == "ok"@ && m@[0].1 == JsonItem::Bool(true)
    &&& m@[1].0@ == "dispatched"@ && m@[1].1 == JsonItem::Bool(true)
    &&& m@[2].0@ == "target"@ && target_object(m@[2].1, target)
    &&& after.events@.len() == 0
}

/// Applies a hook's directive to the response: a continue leaves it as it
/// is, a reply or denial replaces it, and a dispatch hands the request to
/// `dispatch_fn` and, when that succeeds, answers 202 with the target.
pub fn apply_control_directive_with_dispatcher<F>(
    bundle: &str,
    domain: Domain,
    body: &mut HookIngressBody,
    ctx: &OperatorContext,
    directive: ControlDirective,
    dispatch_fn: F,
) -> (r: Result<(), String>)
    where
        F: FnOnce(&str, Domain, &HookIngressBody, &OperatorContext, &DispatchTarget) -> Result<
            (),
            String,
        >,
    requires
        directive matches ControlDirective::Dispatch { target } ==> dispatch_fn.requires(
            (bundle, domain, &*old(body), ctx, &target),
        ),
    ensures
        directive is Continue ==> r is Ok && *final(body) == *old(body),
        directive matches ControlDirective::Respond { reply } ==> r is Ok && replied(
            *old(body),
            *final(body),
            reply,
            false,
        ),
        directive matches ControlDirective::Deny { reply } ==> r is Ok && replied(
            *old(body),
            *final(body),
            reply,
            true,
        ),
        directive matches ControlDirective::Dispatch { target } ==> dispatch_fn.ensures(
            (bundle, domain, &*old(body), ctx, &target),
            r,
        ) && match r {
            Ok(()) => dispatched(*old(body), *final(body), target),
            Err(_) => *final(body) == *old(body),
        },
{
    match directive {
        ControlDirective::Continue => Ok(()),
        ControlDirective::Respond { reply } => {
            apply_reply(body, reply, false);
            Ok(())
        },
        ControlDirective::Deny { reply } => {
            apply_reply(body, reply, true);
            Ok(())
        },
        ControlDirective::Dispatch { target } => {
            let result = dispatch_fn(bundle, domain, &*body, ctx, &target);
            if result.is_err() {
                return result;
            }
            body.response_status = 202;
            let mut headers: Vec<(String, String)> = Vec::new();
            headers.push(header("content-type", "application/json"));
            proof {
                assert(pairs_view(headers@) =~= seq![("content-type"@, "application/json"@)]);
            }
            body.response_headers = headers;
            let mut m: Vec<(String, JsonItem)> = Vec::new();
            m.push((text("ok"), JsonItem::Bool(true)));
            m.push((text("dispatched"), JsonItem::Bool(true)));
            m.push((text("target"), target_item(&target)));
            body.response_body = Some(HookResponseBody::Json(JsonItem::Object(m)));
            body.events = Vec::new();
            result
        },
    }
}

// ---------------------------------------------------------------------------
// Walking the hook chain
// ---------------------------------------------------------------------------

/// What invoking one post-ingress hook came to.
#[derive(Debug, PartialEq)]
pub enum HookInvocation {
    /// The hook could not be run, with its error when it gave one.
    Failed(Option<String>),
    /// The hook ran and answered nothing.
    NoOutput,
    /// The hook's answer was not a directive.
    NotADirective,
    /// The hook answered with a directive.
    Directive(ControlDirective),
}

/// What to do after one hook of the chain answered.
#[derive(Debug, PartialEq)]
pub enum HookChainStep {
    /// Report that the hook failed, with this error, and go on with the next hook.
    ReportFailure(String),
    /// Go on with the next hook.
    Next,
    /// Report that the answer was not understood, for this reason, and go on.
    ReportParseError(String),
    /// Apply this directive to the response.
    Apply(ControlDirective),
}

/// Decides what one hook's answer leads to: a failure or an answer that is
/// not a directive is reported and skipped, no answer or `continue` moves
/// on, any other directive is applied.
pub fn post_ingress_hook_step(invocation: HookInvocation) -> (r: HookChainStep)
    ensures
        match invocation {
            HookInvocation::Failed(e) => r matches HookChainStep::ReportFailure(m) && m@ == match e {
                Some(x) => x@,
                None => "unknown error"@,
            },
            HookInvocation::NoOutput => r is Next,
            HookInvocation::NotADirective => r matches HookChainStep::ReportParseError(m) && m@
                == "missing_or_invalid_action"@,
            HookInvocation::Directive(d) => if d is Continue {
                r is Next
            } else {
                r == HookChainStep::Apply(d)
            },
        },
{
    match invocation {
        HookInvocation::Failed(e) => HookChainStep::ReportFailure(
            match e {
                Some(x) => x,
                None => text("unknown error"),
            },
        ),
        HookInvocation::NoOutput => HookChainStep::Next,
        HookInvocation::NotADirective => HookChainStep::ReportParseError(
            text("missing_or_invalid_action"),
        ),
        HookInvocation::Directive(d) => match d {
            ControlDirective::Continue => HookChainStep::Next,
            other => HookChainStep::Apply(other),
        },
    }
}

/// After a directive was applied the chain stops; when applying it failed,
/// the failure is reported as `apply_failed:<error>` and the chain goes on.
pub fn applied_directive_step(result: Result<(), String>) -> (r: Option<String>)
    ensures
        match result {
            Ok(()) => r is None,
            Err(e) => r matches Some(m) && m@ == "apply_failed:"@ + e@,
        },
{
    match result {
        Ok(()) => None,
        Err(e) => Some(concat("apply_failed:", e.as_str())),
    }
}

} // verus!
