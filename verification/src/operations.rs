//! Operations as hooks see them: the envelope an operation travels in, what
//! one pre- or post-hook's answer does to it, and how a token validator's
//! answer decides whether an operation may go on.
use vstd::prelude::*;

use crate::host::{base64_decode, base64_standard_decoded, lemma_base64_standard_decodes_encoding, answer_claims, answer_valid, answer_reason, evaluate_token_validation_output, lemma_member_at, member, JsonItem, OperationStatus, OperatorContext, TokenValidationDecision};
use crate::outcomes::{
    capability_not_installed_outcome, capability_route_error_outcome, error_output,
    missing_capability_message, missing_capability_outcome, not_installed_message, FlowOutcome,
};
use crate::runtime_core::CapabilityBinding;

use crate::text::{chars_of, concat, eq_ignore_ascii_case, extend_chars, join, join_texts, seq_starts_with, starts_with, string_of, text, text_eq, texts_of, trim, trim_seq};

verus! {

/// Whether a hook runs before or after an operation.
#[derive(Clone, Copy, Debug, PartialEq, Eq, Structural)]
pub enum HookStage {
    Pre,
    Post,
}

/// What a hook chain decided for an operation.
#[derive(Debug, PartialEq, Eq)]
pub enum HookChainOutcome {
    Continue,
    Denied(String),
}

/// Who an operation runs for, with the claims of its validated token.
#[derive(Debug, PartialEq)]
pub struct OperationEnvelopeContext {
    pub tenant: String,
    pub team: Option<String>,
    pub correlation_id: Option<String>,
    pub auth_claims: Option<JsonItem>,
}

/// An operation as it passes through hooks.
#[derive(Debug, PartialEq)]
pub struct OperationEnvelope {
    pub op_id: String,
    pub op_name: String,
    pub ctx: OperationEnvelopeContext,
    pub payload_cbor: Vec<u8>,
    pub meta_cbor: Option<Vec<u8>>,
    pub status: OperationStatus,
    pub result_cbor: Option<Vec<u8>>,
}

/// A lower-case hexadecimal digit.
pub open spec fn is_lower_hex(c: char) -> bool {
    ('0' <= c && c <= '9') || ('a' <= c && c <= 'f')
}

/// The hyphenated text of a version 4 UUID: 36 characters, `-` at 8, 13,
/// 18 and 23, lower-case hexadecimal digits elsewhere, the version digit
/// `4` at 14.
pub open spec fn is_uuid_v4_text(s: Seq<char>) -> bool {
    &&& s.len() == 36
    &&& forall|i: int|
        0 <= i < 36 ==> if i == 8 || i == 13 || i == 18 || i == 23 {
            s[i] == '-'
        } else {
            is_lower_hex(#[trigger] s[i])
        }
    &&& s[14] == '4'
}

/// `uuid::Uuid::new_v4().to_string()`: a random UUID in its hyphenated
/// lower-case form (the version bits set to 4); which one is chance.
#[verifier::external_body]
pub(crate) fn new_uuid_v4_text() -> (r: String)
    ensures
        is_uuid_v4_text(r@),
{
    uuid::Uuid::new_v4().to_string()
}

fn clone_opt(s: &Option<String>) -> (r: Option<String>)
    ensures
        r == *s,
{
    match s {
        Some(x) => Some(x.clone()),
        None => None,
    }
}

fn copy_bytes(b: &[u8]) -> (r: Vec<u8>)
    ensures
        r@ == b@,
{
    vstd::slice::slice_to_vec(b)
}

impl OperationEnvelope {
    /// A pending operation named `op_name` with a fresh id, its payload and
    /// who it runs for, with no claims, metadata or result yet.
    pub fn new(op_name: &str, payload: &[u8], ctx: &OperatorContext) -> (r: Self)
        ensures
            is_uuid_v4_text(r.op_id@),
            r.op_name@ == op_name@,
            r.ctx.tenant == ctx.tenant,
            r.ctx.team == ctx.team,
            r.ctx.correlation_id == ctx.correlation_id,
            r.ctx.auth_claims is None,
            r.payload_cbor@ == payload@,
            r.meta_cbor is None,
            r.status == OperationStatus::Pending,
            r.result_cbor is None,
    {
        OperationEnvelope {
            op_id: new_uuid_v4_text(),
            op_name: text(op_name),
            ctx: OperationEnvelopeContext {
                tenant: ctx.tenant.clone(),
                team: clone_opt(&ctx.team),
                correlation_id: clone_opt(&ctx.correlation_id),
                auth_claims: None,
            },
            payload_cbor: copy_bytes(payload),
            meta_cbor: None,
            status: OperationStatus::Pending,
            result_cbor: None,
        }
    }
}

// ---------------------------------------------------------------------------
// One hook of an operation's chain
// ---------------------------------------------------------------------------

/// A hook's decoded answer: its decision, why, and the envelope it wants
/// the operation to go on with.
#[derive(Debug, PartialEq)]
pub struct HookEvalResponse {
    pub decision: String,
    pub reason: Option<String>,
    pub envelope: Option<OperationEnvelope>,
}

/// What invoking one hook of an operation's chain came to.
#[derive(Debug, PartialEq)]
pub enum OperationHookResult {
    /// The hook's pack is not installed.
    PackMissing,
    /// The hook could not be run, with its error when it gave one.
    Failed(Option<String>),
    /// The hook ran and answered nothing.
    NoOutput,
    /// The hook's answer could not be decoded, for this reason.
    Undecodable(String),
    /// The hook answered.
    Decoded(HookEvalResponse),
}

/// Applies one hook's answer to the operation: an envelope it returns
/// replaces the operation's, and a pre-hook that decides `deny` (in any
/// ASCII case) stops the chain with its reason, or `hook denied operation`.
/// Anything else leaves the operation as it is and the chain goes on.
pub fn operation_hook_step(
    stage: HookStage,
    result: OperationHookResult,
    envelope: &mut OperationEnvelope,
) -> (r: HookChainOutcome)
    ensures
        match result {
            OperationHookResult::Decoded(resp) => {
                &&& *final(envelope) == match resp.envelope {
                    Some(e) => e,
                    None => *old(envelope),
                }
                &&& if stage == HookStage::Pre && eq_ignore_ascii_case(resp.decision@, "deny"@) {
                    r matches HookChainOutcome::Denied(m) && m@ == match resp.reason {
                        Some(x) => x@,
                        None => "hook denied operation"@,
                    }
                } else {
                    r is Continue
                }
            },
            _ => r is Continue && *final(envelope) == *old(envelope),
        },
{
    match result {
        OperationHookResult::Decoded(resp) => {
            let HookEvalResponse { decision, reason, envelope: updated } = resp;
            match updated {
                Some(e) => {
                    *envelope = e;
                },
                None => {},
            }
            let deny = crate::host::ascii_case_eq(decision.as_str(), "deny");
            if deny && stage == HookStage::Pre {
                HookChainOutcome::Denied(
                    match reason {
                        Some(x) => x,
                        None => text("hook denied operation"),
                    },
                )
            } else {
                HookChainOutcome::Continue
            }
        },
        _ => HookChainOutcome::Continue,
    }
}

// ---------------------------------------------------------------------------
// Token validation before an operation
// ---------------------------------------------------------------------------

/// An operation is checked by the token validator unless it is itself a
/// call of the token validation capability (`cap.invoke:<capability>...`).
pub fn token_validation_applies(op_name: &str, token_validation_cap_id: &str) -> (r: bool)
    ensures
        r == !seq_starts_with(op_name@, "cap.invoke:"@ + token_validation_cap_id@),
{
    let prefix = concat("cap.invoke:", token_validation_cap_id);
    !starts_with(op_name, prefix.as_str())
}

/// The denial when the token validation capability was chosen but not set up.
pub fn token_validation_not_installed(stable_id: &str) -> (r: HookChainOutcome)
    ensures
        r matches HookChainOutcome::Denied(m) && m@
            == "token validation capability is not installed (stable_id="@ + stable_id@ + ")"@,
{
    let a = concat("token validation capability is not installed (stable_id=", stable_id);
    HookChainOutcome::Denied(concat(a.as_str(), ")"))
}

/// The denial when the token validation capability's pack is not installed.
pub fn token_validation_pack_missing(pack_path: &str) -> (r: HookChainOutcome)
    ensures
        r matches HookChainOutcome::Denied(m) && m@ == "token validation pack not found at "@
            + pack_path@,
{
    HookChainOutcome::Denied(concat("token validation pack not found at ", pack_path))
}

/// Moves the claims out of an accepting answer: its `claims` object, else
/// the answer itself when it is an object with a `sub`.
fn take_claims(output: JsonItem) -> (r: Option<JsonItem>)
    ensures
        r == answer_claims(output),
{
    let ghost whole = output;
    let is_claims_object = match crate::host::get_member(&output, "claims") {
        Some(JsonItem::Object(_)) => true,
        _ => false,
    };
    let has_sub = match &output {
        JsonItem::Object(_) => crate::host::get_member(&output, "sub").is_some(),
        _ => false,
    };
    if !is_claims_object {
        if has_sub {
            return Some(output);
        }
        return None;
    }
    match output {
        JsonItem::Object(m) => {
            let ghost old_m = m@;
            let mut m = m;
            let mut i: usize = 0;
            while i < m.len()
                invariant
                    i <= m@.len(),
                    m@ == old_m,
                    forall|j: int| 0 <= j < i ==> m@[j].0@ != "claims"@,
                ensures
                    i <= m@.len(),
                    m@ == old_m,
                    forall|j: int| 0 <= j < i ==> m@[j].0@ != "claims"@,
                    i < m@.len() ==> m@[i as int].0@ == "claims"@,
                decreases m@.len() - i,
            {
                if text_eq(m[i].0.as_str(), "claims") {
                    break;
                }
                i += 1;
            }
            if i < m.len() {
                proof {
                    lemma_member_at(old_m, i as int, "claims"@);
                }
                let (_, value) = m.remove(i);
                Some(value)
            } else {
                proof {
                    crate::host::lemma_member_absent(old_m, "claims"@);
                }
                None
            }
        },
        _ => None,
    }
}

/// What the token validator's invocation means for the operation: a failed
/// invocation or one without an answer denies it; otherwise the answer is
/// judged, and an accepting answer lets the operation go on with its claims.
pub fn token_validation_outcome(outcome: FlowOutcome) -> (r: (HookChainOutcome, Option<JsonItem>))
    ensures
        if !outcome.success {
            r.1 is None && (r.0 matches HookChainOutcome::Denied(m) && m@ == match outcome.error {
                Some(e) => e@,
                None => "token validation capability invocation failed"@,
            })
        } else {
            match outcome.output {
                None => r.1 is None && (r.0 matches HookChainOutcome::Denied(m) && m@
                    == "token validation returned no output"@),
                Some(o) => if answer_valid(o) {
                    r.0 is Continue && r.1 == answer_claims(o)
                } else {
                    r.1 is None && (r.0 matches HookChainOutcome::Denied(m) && m@ == answer_reason(
                        o,
                    ))
                },
            }
        },
{
    let FlowOutcome { success, output, error, .. } = outcome;
    if !success {
        let reason = match error {
            Some(e) => e,
            None => text("token validation capability invocation failed"),
        };
        return (HookChainOutcome::Denied(reason), None);
    }
    let output = match output {
        Some(o) => o,
        None => {
            return (HookChainOutcome::Denied(text("token validation returned no output")), None);
        },
    };
    let denial = match evaluate_token_validation_output(&output) {
        TokenValidationDecision::Allow(_) => None,
        TokenValidationDecision::Deny(reason) => Some(reason),
    };
    match denial {
        Some(reason) => (HookChainOutcome::Denied(reason), None),
        None => (HookChainOutcome::Continue, take_claims(output)),
    }
}

// ---------------------------------------------------------------------------
// Capability calls
// ---------------------------------------------------------------------------

/// The operation a capability call runs: the provider's own operation for
/// the OAuth broker or when no operation was asked for, else the one asked.
pub fn capability_target_op<'a>(
    requested_op: &'a str,
    provider_op: &'a str,
    is_oauth_broker: bool,
) -> (r: &'a str)
    ensures
        r@ == if is_oauth_broker || requested_op@.len() == 0 {
            provider_op@
        } else {
            requested_op@
        },
{
    if is_oauth_broker || requested_op.is_empty() {
        provider_op
    } else {
        requested_op
    }
}

/// Why a capability call is not made, in the order the checks run.
#[derive(Debug, PartialEq, Eq)]
pub enum CapabilityRefusal {
    /// The OAuth broker was called without an operation.
    MissingOp,
    /// The OAuth broker was called with an operation it does not offer.
    UnsupportedOp,
    /// No provider offers the capability.
    Missing,
    /// The provider chosen has not been set up; its stable id.
    NotInstalled(String),
    /// The pack of the provider chosen is not in the bundle; its path.
    PackNotFound(String),
}

/// `texts` contains `t`.
pub open spec fn texts_contain(texts: Seq<String>, t: Seq<char>) -> bool {
    exists|i: int| 0 <= i < texts.len() && #[trigger] texts[i]@ == t
}

/// Decides a capability call: the OAuth broker (`is_oauth_broker`) needs an
/// operation among `oauth_ops`; then the call needs a provider (`binding`,
/// resolved for the trimmed operation), set up (`ready`), whose pack is in
/// the bundle (`pack_found`). When all hold, the operation to run: the
/// provider's own for the OAuth broker or when none was asked for, else the
/// trimmed operation asked for.
pub fn capability_invocation_decision(
    op: &str,
    is_oauth_broker: bool,
    oauth_ops: &Vec<String>,
    binding: Option<&CapabilityBinding>,
    ready: bool,
    pack_found: bool,
) -> (r: Result<String, CapabilityRefusal>)
    ensures
        ({
            let requested = trim_seq(op@);
            if is_oauth_broker && requested.len() == 0 {
                r == Err::<String, CapabilityRefusal>(CapabilityRefusal::MissingOp)
            } else if is_oauth_broker && !texts_contain(oauth_ops@, requested) {
                r == Err::<String, CapabilityRefusal>(CapabilityRefusal::UnsupportedOp)
            } else {
                match binding {
                    None => r == Err::<String, CapabilityRefusal>(CapabilityRefusal::Missing),
                    Some(b) => if !ready {
                        r matches Err(CapabilityRefusal::NotInstalled(s)) && s@ == b.stable_id@
                    } else if !pack_found {
                        r matches Err(CapabilityRefusal::PackNotFound(p)) && p@ == b.pack_path@
                    } else {
                        r matches Ok(t) && t@ == if is_oauth_broker || requested.len() == 0 {
                            b.provider_op@
                        } else {
                            requested
                        }
                    },
                }
            }
        }),
{
    let requested = trim(op);
    let rv = chars_of(requested.as_str());
    if is_oauth_broker {
        if rv.len() == 0 {
            return Err(CapabilityRefusal::MissingOp);
        }
        let mut found = false;
        let mut i: usize = 0;
        while i < oauth_ops.len()
            invariant
                i <= oauth_ops@.len(),
                found == exists|j: int| 0 <= j < i && oauth_ops@[j]@ == requested@,
            decreases oauth_ops@.len() - i,
        {
            if text_eq(oauth_ops[i].as_str(), requested.as_str()) {
                found = true;
            }
            i += 1;
        }
        if !found {
            return Err(CapabilityRefusal::UnsupportedOp);
        }
    }
    let b = match binding {
        None => {
            return Err(CapabilityRefusal::Missing);
        },
        Some(b) => b,
    };
    if !ready {
        return Err(CapabilityRefusal::NotInstalled(b.stable_id.clone()));
    }
    if !pack_found {
        return Err(CapabilityRefusal::PackNotFound(b.pack_path.clone()));
    }
    let target = capability_target_op(requested.as_str(), b.provider_op.as_str(), is_oauth_broker);
    Ok(text(target))
}

/// The message of an OAuth broker call without an operation.
pub open spec fn missing_oauth_op_message(supported: Seq<char>) -> Seq<char> {
    "oauth broker capability requires an explicit op (supported: "@ + supported + ")"@
}

/// The message of an OAuth broker call with an operation it does not offer.
pub open spec fn unsupported_oauth_op_message(op: Seq<char>, supported: Seq<char>) -> Seq<char> {
    "unsupported oauth broker op `"@ + op + "` (supported: "@ + supported + ")"@
}

/// The outcome of a refused capability call: a route error for the OAuth
/// broker checks (naming the supported operations) and for a missing pack,
/// the missing-capability outcome, or the not-installed outcome.
pub fn capability_refusal_outcome(
    cap_id: &str,
    op: &str,
    oauth_ops: &Vec<String>,
    refusal: CapabilityRefusal,
) -> (r: FlowOutcome)
    ensures
        !r.success,
        r.raw is None,
        ({
            let supported = join_texts(texts_of(oauth_ops@), ", "@);
            match refusal {
                CapabilityRefusal::MissingOp => (r.output matches Some(o) && error_output(
                    o,
                    "capability_route_error"@,
                    "CapabilityRouteError"@,
                    seq![
                        ("cap_id"@, Some(cap_id@)),
                        ("op_name"@, Some("<missing-op>"@)),
                        ("reason"@, Some(missing_oauth_op_message(supported))),
                    ],
                ))
                    && (r.error matches Some(e) && e@ == missing_oauth_op_message(supported)),
                CapabilityRefusal::UnsupportedOp => (r.output matches Some(o) && error_output(
                    o,
                    "capability_route_error"@,
                    "CapabilityRouteError"@,
                    seq![
                        ("cap_id"@, Some(cap_id@)),
                        ("op_name"@, Some(trim_seq(op@))),
                        ("reason"@, Some(unsupported_oauth_op_message(trim_seq(op@), supported))),
                    ],
                ))
                    && (r.error matches Some(e) && e@ == unsupported_oauth_op_message(
                    trim_seq(op@),
                    supported,
                )),
                CapabilityRefusal::Missing => (r.output matches Some(o) && error_output(
                    o,
                    "missing_capability"@,
                    "MissingCapability"@,
                    seq![
                        ("cap_id"@, Some(cap_id@)),
                        ("op_name"@, Some(op@)),
                        ("component_id"@, None),
                    ],
                ))
                    && (r.error matches Some(e) && e@ == missing_capability_message(cap_id@, op@, None)),
                CapabilityRefusal::NotInstalled(s) => (r.output matches Some(o) && error_output(
                    o,
                    "capability_not_installed"@,
                    "CapabilityNotInstalled"@,
                    seq![
                        ("cap_id"@, Some(cap_id@)),
                        ("op_name"@, Some(op@)),
                        ("stable_id"@, Some(s@)),
                    ],
                ))
                    && (r.error matches Some(e) && e@ == not_installed_message(cap_id@, op@, s@)),
                CapabilityRefusal::PackNotFound(p) => (r.output matches Some(o) && error_output(
                    o,
                    "capability_route_error"@,
                    "CapabilityRouteError"@,
                    seq![
                        ("cap_id"@, Some(cap_id@)),
                        ("op_name"@, Some(op@)),
                        ("reason"@, Some("resolved pack not found at "@ + p@)),
                    ],
                ))
                    && (r.error matches Some(e) && e@ == "resolved pack not found at "@ + p@),
            }
        }),
{
    let supported = join(oauth_ops, ", ");
    match refusal {
        CapabilityRefusal::MissingOp => {
            let mut m = chars_of("oauth broker capability requires an explicit op (supported: ");
            extend_chars(&mut m, supported.as_str());
            extend_chars(&mut m, ")");
            capability_route_error_outcome(cap_id, "<missing-op>", string_of(m.as_slice()))
        },
        CapabilityRefusal::UnsupportedOp => {
            let requested = trim(op);
            let mut m = chars_of("unsupported oauth broker op `");
            extend_chars(&mut m, requested.as_str());
            extend_chars(&mut m, "` (supported: ");
            extend_chars(&mut m, supported.as_str());
            extend_chars(&mut m, ")");
            capability_route_error_outcome(cap_id, requested.as_str(), string_of(m.as_slice()))
        },
        CapabilityRefusal::Missing => missing_capability_outcome(cap_id, op, None),
        CapabilityRefusal::NotInstalled(s) => capability_not_installed_outcome(cap_id, op, s.as_str()),
        CapabilityRefusal::PackNotFound(p) => {
            let mut m = chars_of("resolved pack not found at ");
            extend_chars(&mut m, p.as_str());
            capability_route_error_outcome(cap_id, op, string_of(m.as_slice()))
        },
    }
}

/// The outcome of a capability call a pre-hook denied.
pub fn pre_hook_denial_outcome(cap_id: &str, target_op: &str, reason: &str) -> (r: FlowOutcome)
    ensures
        !r.success,
        r.output matches Some(o) && error_output(
            o,
            "capability_route_error"@,
            "CapabilityRouteError"@,
            seq![
                ("cap_id"@, Some(cap_id@)),
                ("op_name"@, Some(target_op@)),
                ("reason"@, Some("operation denied by pre-hook: "@ + reason@)),
            ],
        ),
        r.error matches Some(e) && e@ == "operation denied by pre-hook: "@ + reason@,
{
    capability_route_error_outcome(cap_id, target_op, concat("operation denied by pre-hook: ", reason))
}

/// The status an operation ends with: done when its flow succeeded.
pub fn status_after(success: bool) -> (r: OperationStatus)
    ensures
        r == if success {
            OperationStatus::Succeeded
        } else {
            OperationStatus::Failed
        },
{
    if success {
        OperationStatus::Succeeded
    } else {
        OperationStatus::Failed
    }
}

// ---------------------------------------------------------------------------
// A hook's CBOR answer inside JSON
// ---------------------------------------------------------------------------

/// The byte a JSON number's text stands for: decimal digits of a value
/// below 256.
pub open spec fn digits_value(t: Seq<char>) -> int
    decreases t.len(),
{
    if t.len() == 0 {
        0
    } else {
        digits_value(t.drop_last()) * 10 + (t.last() as int - '0' as int)
    }
}

pub open spec fn number_byte(t: Seq<char>) -> Option<u8> {
    if t.len() > 0 && (forall|i: int| 0 <= i < t.len() ==> '0' <= #[trigger] t[i] <= '9')
        && digits_value(t) < 256 {
        Some(digits_value(t) as u8)
    } else {
        None
    }
}

/// The bytes an array of JSON numbers stands for, when each is a byte.
pub open spec fn array_bytes(items: Seq<JsonItem>) -> Option<Seq<u8>>
    decreases items.len(),
{
    if items.len() == 0 {
        Some(Seq::empty())
    } else {
        match array_bytes(items.drop_last()) {
            None => None,
            Some(front) => match items.last() {
                JsonItem::Number(t) => match number_byte(t@) {
                    Some(b) => Some(front.push(b)),
                    None => None,
                },
                _ => None,
            },
        }
    }
}

/// The index of the first member with `key`, or `-1`.
pub open spec fn key_index(m: Seq<(String, JsonItem)>, key: Seq<char>) -> int
    decreases m.len(),
{
    if m.len() == 0 {
        -1
    } else if m[0].0@ == key {
        0
    } else {
        let k = key_index(m.drop_first(), key);
        if k < 0 {
            -1
        } else {
            k + 1
        }
    }
}

/// The keys under which a hook's CBOR answer may be wrapped, in order.
pub open spec fn blob_keys() -> Seq<Seq<char>> {
    seq!["hook_decision_cbor_b64"@, "cbor_b64"@, "hook_decision_cbor"@]
}

/// The CBOR bytes a hook's JSON answer carries: an array of bytes, a
/// base64 string, or an object holding one of those (or another such
/// object) under the first of the blob keys that yields bytes.
pub open spec fn cbor_blob(j: JsonItem) -> Option<Seq<u8>>
    decreases j,
{
    match j {
        JsonItem::Array(items) => array_bytes(items@),
        JsonItem::Str(s) => base64_standard_decoded(s@),
        JsonItem::Object(m) => {
            let i0 = key_index(m@, blob_keys()[0]);
            let i1 = key_index(m@, blob_keys()[1]);
            let i2 = key_index(m@, blob_keys()[2]);
            let b0 = if 0 <= i0 < m@.len() {
                cbor_blob(m@[i0].1)
            } else {
                None
            };
            let b1 = if 0 <= i1 < m@.len() {
                cbor_blob(m@[i1].1)
            } else {
                None
            };
            let b2 = if 0 <= i2 < m@.len() {
                cbor_blob(m@[i2].1)
            } else {
                None
            };
            if b0 is Some {
                b0
            } else if b1 is Some {
                b1
            } else {
                b2
            }
        },
        _ => None,
    }
}

proof fn lemma_key_index(m: Seq<(String, JsonItem)>, key: Seq<char>, i: int)
    requires
        0 <= i <= m.len(),
        forall|j: int| 0 <= j < i ==> m[j].0@ != key,
    ensures
        i < m.len() && m[i].0@ == key ==> key_index(m, key) == i,
        i == m.len() ==> key_index(m, key) == -1,
    decreases i,
{
    if i > 0 {
        lemma_key_index(m.drop_first(), key, i - 1);
    }
}

fn find_key(m: &Vec<(String, JsonItem)>, key: &str) -> (r: Option<usize>)
    ensures
        match r {
            Some(i) => i < m@.len() && key_index(m@, key@) == i,
            None => key_index(m@, key@) == -1,
        },
{
    let mut i: usize = 0;
    while i < m.len()
        invariant
            i <= m@.len(),
            forall|j: int| 0 <= j < i ==> m@[j].0@ != key@,
        decreases m@.len() - i,
    {
        if text_eq(m[i].0.as_str(), key) {
            proof {
                lemma_key_index(m@, key@, i as int);
            }
            return Some(i);
        }
        i += 1;
    }
    proof {
        lemma_key_index(m@, key@, i as int);
    }
    None
}

/// The byte a JSON number's text stands for.
fn number_to_byte(t: &str) -> (r: Option<u8>)
    ensures
        r == number_byte(t@),
{
    let v = chars_of(t);
    if v.len() == 0 {
        return None;
    }
    let mut acc: u32 = 0;
    let mut i: usize = 0;
    while i < v.len()
        invariant
            i <= v@.len(),
            v@ == t@,
            forall|k: int| 0 <= k < i ==> '0' <= #[trigger] v@[k] <= '9',
            acc as int == if digits_value(v@.take(i as int)) < 256 {
                digits_value(v@.take(i as int))
            } else {
                256
            },
        decreases v@.len() - i,
    {
        let c = v[i];
        if !('0' <= c && c <= '9') {
            return None;
        }
        let d: u32 = (c as u32) - ('0' as u32);
        proof {
            assert(v@.take(i + 1).drop_last() =~= v@.take(i as int));
            assert(v@.take(i + 1).last() == c);
        }
        let next: u32 = acc * 10 + d;
        acc = if next < 256 {
            next
        } else {
            256
        };
        i += 1;
    }
    assert(v@.take(v@.len() as int) =~= v@);
    if acc < 256 {
        Some(acc as u8)
    } else {
        None
    }
}

fn array_to_bytes(items: &Vec<JsonItem>) -> (r: Option<Vec<u8>>)
    ensures
        match r {
            Some(b) => array_bytes(items@) == Some(b@),
            None => array_bytes(items@) is None,
        },
{
    let mut out: Vec<u8> = Vec::new();
    let mut i: usize = 0;
    assert(items@.take(0) =~= Seq::<JsonItem>::empty());
    while i < items.len()
        invariant
            i <= items@.len(),
            array_bytes(items@.take(i as int)) == Some(out@),
        decreases items@.len() - i,
    {
        proof {
            assert(items@.take(i + 1).drop_last() =~= items@.take(i as int));
        }
        let b = match &items[i] {
            JsonItem::Number(t) => number_to_byte(t.as_str()),
            _ => None,
        };
        match b {
            Some(x) => out.push(x),
            None => {
                proof {
                    lemma_array_bytes_none_stays(items@, i + 1, items@.len() as int);
                }
                assert(items@.take(items@.len() as int) =~= items@);
                return None;
            },
        }
        i += 1;
    }
    assert(items@.take(items@.len() as int) =~= items@);
    Some(out)
}

proof fn lemma_array_bytes_none_stays(items: Seq<JsonItem>, k: int, n: int)
    requires
        0 <= k <= n <= items.len(),
        array_bytes(items.take(k)) is None,
    ensures
        array_bytes(items.take(n)) is None,
    decreases n - k,
{
    if n > k {
        lemma_array_bytes_none_stays(items, k, n - 1);
        assert(items.take(n).drop_last() =~= items.take(n - 1));
    }
}

/// Reads the CBOR bytes a hook's JSON answer carries.
pub fn extract_cbor_blob(value: &JsonItem) -> (r: Option<Vec<u8>>)
    ensures
        match r {
            Some(b) => cbor_blob(*value) == Some(b@),
            None => cbor_blob(*value) is None,
        },
    decreases value,
{
    match value {
        JsonItem::Array(items) => array_to_bytes(items),
        JsonItem::Str(s) => {
            let r = base64_decode(s.as_str());
            proof {
                if r is Some {
                    lemma_base64_standard_decodes_encoding(r->0@);
                }
            }
            r
        },
        JsonItem::Object(m) => {
            let keys: [&str; 3] = ["hook_decision_cbor_b64", "cbor_b64", "hook_decision_cbor"];
            proof {
                reveal_strlit("hook_decision_cbor_b64");
                reveal_strlit("cbor_b64");
                reveal_strlit("hook_decision_cbor");
            }
            assert(keys@[0]@ == blob_keys()[0] && keys@[1]@ == blob_keys()[1] && keys@[2]@
                == blob_keys()[2]);
            let i0 = find_key(m, keys[0]);
            let b0 = match i0 {
                Some(i) => {
                    assert(decreases_to!(*value => m@[i as int].1));
                    extract_cbor_blob(&m[i].1)
                },
                None => None,
            };
            if b0.is_some() {
                return b0;
            }
            let i1 = find_key(m, keys[1]);
            let b1 = match i1 {
                Some(i) => {
                    assert(decreases_to!(*value => m@[i as int].1));
                    extract_cbor_blob(&m[i].1)
                },
                None => None,
            };
            if b1.is_some() {
                return b1;
            }
            let i2 = find_key(m, keys[2]);
            let b2 = match i2 {
                Some(i) => {
                    assert(decreases_to!(*value => m@[i as int].1));
                    extract_cbor_blob(&m[i].1)
                },
                None => None,
            };
            b2
        },
        _ => None,
    }
}

} // verus!
