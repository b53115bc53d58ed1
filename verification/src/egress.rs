//! Sending messages out through a provider: how many attempts a send gets,
//! how a failed provider call is read, and when a failed send is retried or
//! given up.
use vstd::prelude::*;

use crate::host::{base64_encode, base64_standard, get, get_member, lemma_member_absent, lemma_member_at, JsonItem};
use crate::messaging_dto::ProviderPayloadV1;
use crate::outcomes::{is_str, FlowOutcome};
use crate::text::{chars_of, decimal, decimal_text, extend_chars, slice_chars, string_of, text, text_eq, trim_seq};

verus! {

/// A send gets one attempt more than its retries, and at least one.
pub fn max_send_attempts(retries: u32) -> (r: u32)
    ensures
        r == if retries == u32::MAX {
            u32::MAX
        } else {
            (retries + 1) as u32
        },
        r >= 1,
{
    let a = retries.saturating_add(1);
    if a < 1 {
        1
    } else {
        a
    }
}

/// `provider.op failed: <error>`.
pub open spec fn failure_message(provider: Seq<char>, op: Seq<char>, error: Option<Seq<char>>) -> Seq<char> {
    provider + "."@ + op + " failed: "@ + match error {
        Some(e) => e,
        None => "unknown error"@,
    }
}

/// Passes a successful outcome through and turns a failed one into an
/// error naming the provider, the operation and the outcome's error.
pub fn ensure_success<'a>(outcome: &'a FlowOutcome, provider: &str, op: &str) -> (r: Result<
    &'a FlowOutcome,
    String,
>)
    ensures
        outcome.success ==> r == Ok::<&FlowOutcome, String>(outcome),
        !outcome.success ==> (r matches Err(e) && e@ == failure_message(
            provider@,
            op@,
            crate::static_routes::opt_view(outcome.error),
        )),
{
    if outcome.success {
        return Ok(outcome);
    }
    let mut v = chars_of(provider);
    extend_chars(&mut v, ".");
    extend_chars(&mut v, op);
    extend_chars(&mut v, " failed: ");
    match &outcome.error {
        Some(e) => extend_chars(&mut v, e.as_str()),
        None => extend_chars(&mut v, "unknown error"),
    }
    Err(string_of(v.as_slice()))
}

// ---------------------------------------------------------------------------
// Errors of provider nodes
// ---------------------------------------------------------------------------

/// What a provider node's error says: its code, message, whether it may be
/// retried, after how long, and its details.
#[derive(Debug, PartialEq)]
pub struct NodeErrorDetails {
    pub code: String,
    pub message: String,
    pub retryable: bool,
    pub backoff_ms: Option<u64>,
    pub details: Option<JsonItem>,
}

/// The fields a node error's JSON may carry (`backoff-ms` for the backoff).
#[derive(Debug, PartialEq)]
pub struct NodeErrorFields {
    pub code: Option<String>,
    pub message: Option<String>,
    pub retryable: Option<bool>,
    pub backoff_ms: Option<u64>,
    pub details: Option<JsonItem>,
}

/// The first index of `c` in `s`, or `-1`.
pub open spec fn first_index_of(s: Seq<char>, c: char) -> int
    decreases s.len(),
{
    if s.len() == 0 {
        -1
    } else if s[0] == c {
        0
    } else {
        let k = first_index_of(s.drop_first(), c);
        if k < 0 {
            -1
        } else {
            k + 1
        }
    }
}

proof fn lemma_first_index_of(s: Seq<char>, c: char, i: int)
    requires
        0 <= i <= s.len(),
        forall|j: int| 0 <= j < i ==> s[j] != c,
    ensures
        i < s.len() && s[i] == c ==> first_index_of(s, c) == i,
        i == s.len() ==> first_index_of(s, c) == -1,
    decreases i,
{
    if i > 0 {
        lemma_first_index_of(s.drop_first(), c, i - 1);
    } else if s.len() > 0 {
    }
}

/// Where a node error's JSON starts: the trimmed text from its first `{`,
/// or nothing when it has none.
pub open spec fn node_error_json(text: Seq<char>) -> Option<Seq<char>> {
    let t = trim_seq(text);
    let k = first_index_of(t, '{');
    if k < 0 {
        None
    } else {
        Some(t.skip(k))
    }
}

/// The part of a node error's text that may hold its JSON.
pub fn node_error_candidate(error_text: &str) -> (r: Option<String>)
    ensures
        crate::static_routes::opt_view(r) == node_error_json(error_text@),
{
    let t = crate::text::trim(error_text);
    let v = chars_of(t.as_str());
    let mut i: usize = 0;
    while i < v.len()
        invariant
            i <= v@.len(),
            v@ == trim_seq(error_text@),
            forall|j: int| 0 <= j < i ==> v@[j] != '{',
        decreases v@.len() - i,
    {
        if v[i] == '{' {
            proof {
                lemma_first_index_of(v@, '{', i as int);
            }
            let rest = slice_chars(v.as_slice(), i, v.len());
            assert(rest@ =~= v@.skip(i as int));
            return Some(string_of(rest.as_slice()));
        }
        i += 1;
    }
    proof {
        lemma_first_index_of(v@, '{', i as int);
    }
    None
}

/// The error text of an outcome: its error, else its raw output.
pub open spec fn outcome_error_text(outcome: FlowOutcome) -> Option<Seq<char>> {
    match outcome.error {
        Some(e) => Some(e@),
        None => crate::static_routes::opt_view(outcome.raw),
    }
}

pub fn node_error_text(outcome: &FlowOutcome) -> (r: Option<&str>)
    ensures
        match r {
            Some(t) => outcome_error_text(*outcome) == Some(t@),
            None => outcome_error_text(*outcome) is None,
        },
{
    match &outcome.error {
        Some(e) => Some(e.as_str()),
        None => match &outcome.raw {
            Some(r) => Some(r.as_str()),
            None => None,
        },
    }
}

/// What a node error comes to: when its text was read as JSON, the fields
/// it gave with defaults (`node-error`, the whole text, not retryable);
/// otherwise a `node-error` with the text (or `unknown node error`).
pub fn node_error_details(error_text: Option<&str>, parsed: Option<NodeErrorFields>) -> (r:
    NodeErrorDetails)
    ensures
        match (error_text, parsed) {
            (Some(t), Some(p)) => {
                &&& r.code@ == match p.code {
                    Some(c) => c@,
                    None => "node-error"@,
                }
                &&& r.message@ == match p.message {
                    Some(m) => m@,
                    None => t@,
                }
                &&& r.retryable == match p.retryable {
                    Some(b) => b,
                    None => false,
                }
                &&& r.backoff_ms == p.backoff_ms
                &&& r.details == p.details
            },
            _ => {
                &&& r.code@ == "node-error"@
                &&& r.message@ == match error_text {
                    Some(t) => t@,
                    None => "unknown node error"@,
                }
                &&& !r.retryable
                &&& r.backoff_ms is None
                &&& r.details is None
            },
        },
{
    match (error_text, parsed) {
        (Some(t), Some(p)) => NodeErrorDetails {
            code: match p.code {
                Some(c) => c,
                None => text("node-error"),
            },
            message: match p.message {
                Some(m) => m,
                None => text(t),
            },
            retryable: match p.retryable {
                Some(b) => b,
                None => false,
            },
            backoff_ms: p.backoff_ms,
            details: p.details,
        },
        _ => NodeErrorDetails {
            code: text("node-error"),
            message: match error_text {
                Some(t) => text(t),
                None => text("unknown node error"),
            },
            retryable: false,
            backoff_ms: None,
            details: None,
        },
    }
}

/// `j` is the JSON number `v`, or `null` when there is none.
pub open spec fn is_opt_number(j: JsonItem, v: Option<u64>) -> bool {
    match v {
        Some(n) => j matches JsonItem::Number(t) && t@ == decimal(n as nat),
        None => j is Null,
    }
}

impl NodeErrorDetails {
    /// `{"code", "message", "retryable", "backoff_ms", "details"}`, with
    /// `null` for what is missing.
    pub fn to_json(self) -> (r: JsonItem)
        ensures
            r matches JsonItem::Object(m) && m@.len() == 5 && m@[0].0@ == "code"@ && is_str(
                m@[0].1,
                self.code@,
            ) && m@[1].0@ == "message"@ && is_str(m@[1].1, self.message@) && m@[2].0@
                == "retryable"@ && m@[2].1 == JsonItem::Bool(self.retryable) && m@[3].0@
                == "backoff_ms"@ && is_opt_number(m@[3].1, self.backoff_ms) && m@[4].0@
                == "details"@ && m@[4].1 == match self.details {
                Some(d) => d,
                None => JsonItem::Null,
            },
    {
        let NodeErrorDetails { code, message, retryable, backoff_ms, details } = self;
        let mut m: Vec<(String, JsonItem)> = Vec::new();
        m.push((text("code"), JsonItem::Str(code)));
        m.push((text("message"), JsonItem::Str(message)));
        m.push((text("retryable"), JsonItem::Bool(retryable)));
        let backoff = match backoff_ms {
            Some(b) => {
                let d = decimal_text(b as u128);
                JsonItem::Number(string_of(d.as_slice()))
            },
            None => JsonItem::Null,
        };
        m.push((text("backoff_ms"), backoff));
        m.push(
            (
                text("details"),
                match details {
                    Some(d) => d,
                    None => JsonItem::Null,
                },
            ),
        );
        JsonItem::Object(m)
    }
}

// ---------------------------------------------------------------------------
// Retrying a send
// ---------------------------------------------------------------------------

/// What follows an attempt to send.
#[derive(Debug, PartialEq, Eq)]
pub enum SendStep {
    /// The provider took the message.
    Sent,
    /// Give up and record the message as undeliverable.
    DeadLetter,
    /// Try again after the node's backoff, or the policy's delay when it
    /// gave none.
    Retry { backoff_ms: Option<u64> },
}

/// Whether an end-to-end run sends the encoded payload: only when sending
/// was asked for and the run is not a dry run; otherwise it stops after
/// encoding.
pub fn sends_payload(send_payload_flag: bool, dry_run: bool) -> (r: bool)
    ensures
        r == (send_payload_flag && !dry_run),
{
    !(!send_payload_flag || dry_run)
}

/// Decides what follows attempt `attempt` of `max_attempts`: a success is
/// done; a failure is given up when it was the last attempt or the error
/// may not be retried, and retried otherwise.
pub fn send_step(attempt: u32, max_attempts: u32, success: bool, error: &NodeErrorDetails) -> (r:
    SendStep)
    ensures
        r == if success {
            SendStep::Sent
        } else if attempt >= max_attempts || !error.retryable {
            SendStep::DeadLetter
        } else {
            SendStep::Retry { backoff_ms: error.backoff_ms }
        },
{
    if success {
        SendStep::Sent
    } else if attempt >= max_attempts || !error.retryable {
        SendStep::DeadLetter
    } else {
        SendStep::Retry { backoff_ms: error.backoff_ms }
    }
}

// ---------------------------------------------------------------------------
// Payloads
// ---------------------------------------------------------------------------

/// What an encode answer holds: providers wrap the payload as
/// `{"ok": true, "payload": {...}}`, and a bare payload is taken as it is.
pub fn encode_output_payload(value: JsonItem) -> (r: JsonItem)
    ensures
        r == match get(value, "payload"@) {
            Some(p) => p,
            None => value,
        },
{
    let present = get_member(&value, "payload").is_some();
    if !present {
        return value;
    }
    match value {
        JsonItem::Object(m) => {
            let ghost old_m = m@;
            let mut m = m;
            let mut i: usize = 0;
            while i < m.len()
                invariant
                    i <= m@.len(),
                    m@ == old_m,
                    forall|j: int| 0 <= j < i ==> m@[j].0@ != "payload"@,
                ensures
                    i <= m@.len(),
                    m@ == old_m,
                    forall|j: int| 0 <= j < i ==> m@[j].0@ != "payload"@,
                    i < m@.len() ==> m@[i as int].0@ == "payload"@,
                decreases m@.len() - i,
            {
                if text_eq(m[i].0.as_str(), "payload") {
                    break;
                }
                i += 1;
            }
            if i < m.len() {
                proof {
                    lemma_member_at(old_m, i as int, "payload"@);
                }
                let (_, p) = m.remove(i);
                p
            } else {
                proof {
                    lemma_member_absent(old_m, "payload"@);
                }
                JsonItem::Object(m)
            }
        },
        other => other,
    }
}

/// The payload sent when a provider could not encode a message: the
/// message's JSON as the body, in base64, and as the metadata.
pub fn fallback_payload(message_json: &str) -> (r: ProviderPayloadV1)
    ensures
        r.content_type@ == "application/json"@,
        r.body_b64@ == base64_standard(vstd::utf8::encode_utf8(message_json@)),
        r.metadata_json matches Some(m) && m@ == message_json@,
        r.metadata is None,
{
    ProviderPayloadV1 {
        content_type: text("application/json"),
        body_b64: base64_encode(message_json.as_bytes()),
        metadata_json: Some(text(message_json)),
        metadata: None,
    }
}

} // verus!
