//! Decisions of the demo runner host that need no runner: the operator
//! context, how operations are reported, how payloads are previewed, and how
//! bearer tokens are found in a request and judged by a validator's answer.
use base64::Engine;
use vstd::prelude::*;

use crate::static_routes::opt_view;
use crate::text::{chars_of, concat, contains_text, eq_ignore_ascii_case, seq_contains_text, seq_starts_with, slice_chars, starts_with, string_of, text, text_eq, texts_of, trim, trim_seq};

verus! {

/// Who an operation runs for.
#[derive(Debug, PartialEq, Eq)]
pub struct OperatorContext {
    pub tenant: String,
    pub team: Option<String>,
    pub correlation_id: Option<String>,
}

impl Clone for OperatorContext {
    fn clone(&self) -> (r: Self)
        ensures
            r == *self,
    {
        OperatorContext {
            tenant: self.tenant.clone(),
            team: match &self.team {
                Some(t) => Some(t.clone()),
                None => None,
            },
            correlation_id: match &self.correlation_id {
                Some(c) => Some(c.clone()),
                None => None,
            },
        }
    }
}

/// How a flow was run.
#[derive(Clone, Copy, Debug, PartialEq, Eq, Structural)]
pub enum RunnerExecutionMode {
    Exec,
    Integration,
}

// ---------------------------------------------------------------------------
// Operation reports
// ---------------------------------------------------------------------------

/// Where an operation stands.
#[derive(Clone, Copy, Debug, PartialEq, Eq, Structural)]
pub enum OperationStatus {
    Pending,
    Denied,
    Succeeded,
    Failed,
}

pub open spec fn operation_severity(status: OperationStatus) -> Seq<char> {
    match status {
        OperationStatus::Failed => "error"@,
        OperationStatus::Denied => "warn"@,
        _ => "info"@,
    }
}

pub open spec fn operation_outcome(status: OperationStatus) -> Seq<char> {
    match status {
        OperationStatus::Pending => "pending"@,
        OperationStatus::Denied => "denied"@,
        OperationStatus::Succeeded => "ok"@,
        OperationStatus::Failed => "error"@,
    }
}

/// The severity, outcome and reason codes of an operation event: the event
/// type, and for a denied or failed operation its status.
pub open spec fn operation_reason_codes(event_type: Seq<char>, status: OperationStatus) -> Seq<
    Seq<char>,
> {
    match status {
        OperationStatus::Denied => seq![event_type, "status.denied"@],
        OperationStatus::Failed => seq![event_type, "status.err"@],
        _ => seq![event_type],
    }
}

/// The severity, outcome and reason codes of an event about an operation.
pub fn operation_event_metadata(event_type: &str, status: OperationStatus) -> (r: (
    String,
    Option<String>,
    Vec<String>,
))
    ensures
        r.0@ == operation_severity(status),
        opt_view(r.1) == Some(operation_outcome(status)),
        texts_of(r.2@) == operation_reason_codes(event_type@, status),
{
    let severity = match status {
        OperationStatus::Failed => text("error"),
        OperationStatus::Denied => text("warn"),
        OperationStatus::Pending | OperationStatus::Succeeded => text("info"),
    };
    let outcome = match status {
        OperationStatus::Pending => text("pending"),
        OperationStatus::Denied => text("denied"),
        OperationStatus::Succeeded => text("ok"),
        OperationStatus::Failed => text("error"),
    };
    let mut codes: Vec<String> = Vec::new();
    codes.push(text(event_type));
    match status {
        OperationStatus::Denied => codes.push(text("status.denied")),
        OperationStatus::Failed => codes.push(text("status.err")),
        _ => {},
    }
    assert(texts_of(codes@) =~= operation_reason_codes(event_type@, status));
    (severity, Some(outcome), codes)
}

// ---------------------------------------------------------------------------
// Text helpers over outside functions
// ---------------------------------------------------------------------------

/// What `str::to_lowercase` gives for a text.
pub uninterp spec fn unicode_lowercase(s: Seq<char>) -> Seq<char>;

/// `str::to_lowercase`: full Unicode lower-casing.
#[verifier::external_body]
fn to_lowercase(s: &str) -> (r: String)
    ensures
        r@ == unicode_lowercase(s@),
{
    s.to_lowercase()
}

/// Whether an error message comes from the secret store, so that the
/// secret lookup context is worth adding to it.
pub fn needs_secret_context(message: &str) -> (r: bool)
    ensures
        r == (seq_contains_text(unicode_lowercase(message@), "secret store error"@)
            || seq_contains_text(message@, "SecretsError"@)),
{
    let lower = to_lowercase(message);
    contains_text(lower.as_str(), "secret store error") || contains_text(message, "SecretsError")
}

/// The text `bytes` decode to as UTF-8, if they are valid UTF-8.
pub open spec fn utf8_decoded(bytes: Seq<u8>) -> Option<Seq<char>> {
    if vstd::utf8::valid_utf8(bytes) {
        Some(vstd::utf8::decode_utf8(bytes))
    } else {
        None
    }
}

/// `std::str::from_utf8`, its text copied: text exactly when the bytes are
/// valid UTF-8 (RFC 3629: no overlong forms, no surrogates, nothing past
/// U+10FFFF), namely the characters they encode.
#[verifier::external_body]
fn decode_utf8(bytes: &[u8]) -> (r: Option<String>)
    ensures
        opt_view(r) == utf8_decoded(bytes@),
{
    match std::str::from_utf8(bytes) {
        Ok(t) => Some(t.to_string()),
        Err(_) => None,
    }
}

/// The digit of the standard base64 alphabet for a 6-bit value.
pub open spec fn base64_digit(n: int) -> char {
    if n < 26 {
        (n + 65) as char
    } else if n < 52 {
        (n + 71) as char
    } else if n < 62 {
        (n - 4) as char
    } else if n == 62 {
        '+'
    } else {
        '/'
    }
}

/// Standard base64 with padding (RFC 4648): each group of three bytes
/// becomes four digits; a last group of one or two bytes is padded with `=`.
pub open spec fn base64_standard(bytes: Seq<u8>) -> Seq<char>
    decreases bytes.len(),
{
    if bytes.len() == 0 {
        Seq::empty()
    } else if bytes.len() == 1 {
        let b0 = bytes[0] as int;
        seq![base64_digit(b0 / 4), base64_digit((b0 % 4) * 16), '=', '=']
    } else if bytes.len() == 2 {
        let (b0, b1) = (bytes[0] as int, bytes[1] as int);
        seq![base64_digit(b0 / 4), base64_digit((b0 % 4) * 16 + b1 / 16), base64_digit((b1 % 16) * 4), '=']
    } else {
        let (b0, b1, b2) = (bytes[0] as int, bytes[1] as int, bytes[2] as int);
        seq![
            base64_digit(b0 / 4),
            base64_digit((b0 % 4) * 16 + b1 / 16),
            base64_digit((b1 % 16) * 4 + b2 / 64),
            base64_digit(b2 % 64),
        ] + base64_standard(bytes.skip(3))
    }
}

/// The bytes whose standard padded base64 is `text`, if there are any
/// (there is at most one such sequence: `lemma_base64_standard_injective`).
pub open spec fn base64_standard_decoded(text: Seq<char>) -> Option<Seq<u8>> {
    if exists|b: Seq<u8>| base64_standard(b) == text {
        Some(choose|b: Seq<u8>| base64_standard(b) == text)
    } else {
        None
    }
}

proof fn lemma_base64_digit_injective(x: int, y: int)
    requires
        0 <= x < 64,
        0 <= y < 64,
        base64_digit(x) == base64_digit(y),
    ensures
        x == y,
        base64_digit(x) != '=',
{
}

/// The first four digits of a non-empty byte sequence's base64.
proof fn lemma_base64_first_group(b: Seq<u8>)
    requires
        b.len() > 0,
    ensures
        base64_standard(b).len() >= 4,
        base64_standard(b)[0] == base64_digit(b[0] as int / 4),
        base64_standard(b)[1] == base64_digit(
            (b[0] as int % 4) * 16 + if b.len() > 1 {
                b[1] as int / 16
            } else {
                0
            },
        ),
        base64_standard(b)[2] == if b.len() == 1 {
            '='
        } else {
            base64_digit((b[1] as int % 16) * 4 + if b.len() > 2 {
                b[2] as int / 64
            } else {
                0
            })
        },
        base64_standard(b)[3] == if b.len() <= 2 {
            '='
        } else {
            base64_digit(b[2] as int % 64)
        },
{
}

/// The standard padded base64 of two byte sequences differs when they do:
/// base64 text stands for at most one byte sequence.
pub proof fn lemma_base64_standard_injective(a: Seq<u8>, b: Seq<u8>)
    requires
        base64_standard(a) == base64_standard(b),
    ensures
        a == b,
    decreases a.len(),
{
    let e = base64_standard(a);
    if a.len() == 0 || b.len() == 0 {
        if a.len() > 0 {
            lemma_base64_first_group(a);
        }
        if b.len() > 0 {
            lemma_base64_first_group(b);
        }
        assert(a =~= b);
    } else {
        lemma_base64_first_group(a);
        lemma_base64_first_group(b);
        let (a0, b0) = (a[0] as int, b[0] as int);
        lemma_base64_digit_injective(a0 / 4, b0 / 4);
        if a.len() == 1 || b.len() == 1 {
            if a.len() > 1 {
                lemma_base64_digit_injective((a0 % 4) * 16 + (a[1] as int) / 16, (b0 % 4) * 16);
                lemma_base64_digit_injective((a0 % 4) * 16 + (a[1] as int) / 16, 0);
            }
            if b.len() > 1 {
                lemma_base64_digit_injective((b0 % 4) * 16 + (b[1] as int) / 16, (a0 % 4) * 16);
                lemma_base64_digit_injective((b0 % 4) * 16 + (b[1] as int) / 16, 0);
            }
            assert(a.len() == 1 && b.len() == 1);
            lemma_base64_digit_injective((a0 % 4) * 16, (b0 % 4) * 16);
            assert(a =~= b);
        } else {
            let (a1, b1) = (a[1] as int, b[1] as int);
            lemma_base64_digit_injective((a0 % 4) * 16 + a1 / 16, (b0 % 4) * 16 + b1 / 16);
            if a.len() == 2 || b.len() == 2 {
                if a.len() > 2 {
                    lemma_base64_digit_injective((a[2] as int) % 64, 0);
                }
                if b.len() > 2 {
                    lemma_base64_digit_injective((b[2] as int) % 64, 0);
                }
                assert(a.len() == 2 && b.len() == 2);
                lemma_base64_digit_injective((a1 % 16) * 4, (b1 % 16) * 4);
                assert(a =~= b);
            } else {
                let (a2, b2) = (a[2] as int, b[2] as int);
                lemma_base64_digit_injective((a1 % 16) * 4 + a2 / 64, (b1 % 16) * 4 + b2 / 64);
                lemma_base64_digit_injective(a2 % 64, b2 % 64);
                assert(a0 == b0 && a1 == b1 && a2 == b2);
                assert(e.skip(4) =~= base64_standard(a.skip(3)));
                assert(base64_standard(b).skip(4) =~= base64_standard(b.skip(3)));
                lemma_base64_standard_injective(a.skip(3), b.skip(3));
                assert(a =~= a.take(3) + a.skip(3));
                assert(b =~= b.take(3) + b.skip(3));
                assert(a.take(3) =~= b.take(3));
            }
        }
    }
}

/// The bytes a padded base64 text decodes to are the ones it encodes.
pub proof fn lemma_base64_standard_decodes_encoding(b: Seq<u8>)
    ensures
        base64_standard_decoded(base64_standard(b)) == Some(b),
{
    let t = base64_standard(b);
    assert(exists|x: Seq<u8>| base64_standard(x) == t);
    let c = choose|x: Seq<u8>| base64_standard(x) == t;
    lemma_base64_standard_injective(c, b);
}

/// `base64::engine::general_purpose::STANDARD.decode`, its error dropped:
/// that engine requires canonical padding and no stray trailing bits, so it
/// decodes exactly the texts that are the padded base64 of some bytes.
#[verifier::external_body]
pub(crate) fn base64_decode(text: &str) -> (r: Option<Vec<u8>>)
    ensures
        match r {
            Some(b) => base64_standard(b@) == text@,
            None => forall|b: Seq<u8>| base64_standard(b) != text@,
        },
{
    base64::engine::general_purpose::STANDARD.decode(text).ok()
}

/// `base64::engine::general_purpose::STANDARD.encode`: padded base64 in the
/// standard alphabet.
#[verifier::external_body]
pub(crate) fn base64_encode(bytes: &[u8]) -> (r: String)
    ensures
        r@ == base64_standard(bytes@),
{
    base64::engine::general_purpose::STANDARD.encode(bytes)
}

/// How many payload bytes a preview shows.
pub const MAX_PREVIEW: usize = 256;

/// A short readable form of a payload: `<empty>`, or its first bytes as
/// text when they are UTF-8 and in base64 when not, with `...` when cut.
pub open spec fn preview_of(bytes: Seq<u8>) -> Seq<char> {
    if bytes.len() == 0 {
        "<empty>"@
    } else {
        let head = bytes.take(
            if bytes.len() < 256 {
                bytes.len() as int
            } else {
                256
            },
        );
        let shown = match utf8_decoded(head) {
            Some(t) => t,
            None => base64_standard(head),
        };
        if bytes.len() <= 256 {
            shown
        } else {
            shown + "..."@
        }
    }
}

/// A short readable form of a payload.
pub fn payload_preview(bytes: &[u8]) -> (r: String)
    ensures
        r@ == preview_of(bytes@),
{
    if bytes.len() == 0 {
        return text("<empty>");
    }
    let n = if bytes.len() < MAX_PREVIEW {
        bytes.len()
    } else {
        MAX_PREVIEW
    };
    let mut head: Vec<u8> = Vec::new();
    let mut i: usize = 0;
    while i < n
        invariant
            i <= n,
            n <= bytes@.len(),
            head@ == bytes@.take(i as int),
        decreases n - i,
    {
        head.push(bytes[i]);
        i += 1;
        assert(head@ =~= bytes@.take(i as int));
    }
    let shown = match decode_utf8(head.as_slice()) {
        Some(t) => t,
        None => base64_encode(head.as_slice()),
    };
    if bytes.len() <= MAX_PREVIEW {
        shown
    } else {
        concat(shown.as_str(), "...")
    }
}

// ---------------------------------------------------------------------------
// Bearer tokens
// ---------------------------------------------------------------------------

/// The token a header value carries: the trimmed value, without a
/// `Bearer ` prefix; nothing when blank.
pub open spec fn bearer_value(raw: Seq<char>) -> Option<Seq<char>> {
    let t = trim_seq(raw);
    if t.len() == 0 {
        None
    } else if seq_starts_with(t, "Bearer "@) {
        let token = trim_seq(t.skip(7));
        if token.len() == 0 {
            None
        } else {
            Some(token)
        }
    } else {
        Some(t)
    }
}

/// Reads a bearer token from a header value.
pub fn parse_bearer_value(raw: &str) -> (r: Option<String>)
    ensures
        opt_view(r) == bearer_value(raw@),
{
    proof {
        reveal_strlit("Bearer ");
    }
    let t = trim(raw);
    if t.as_str().unicode_len() == 0 {
        return None;
    }
    if starts_with(t.as_str(), "Bearer ") {
        let v = chars_of(t.as_str());
        let rest = slice_chars(v.as_slice(), 7, v.len());
        assert(rest@ =~= t@.skip(7));
        let r = string_of(rest.as_slice());
        let token = trim(r.as_str());
        if token.as_str().unicode_len() == 0 {
            None
        } else {
            Some(token)
        }
    } else {
        Some(t)
    }
}

// ---------------------------------------------------------------------------
// JSON values, as far as token validation reads them
// ---------------------------------------------------------------------------

/// A JSON value; a number is kept as its JSON text.
#[derive(Debug, PartialEq)]
pub enum JsonItem {
    Null,
    Bool(bool),
    Number(String),
    Str(String),
    Array(Vec<JsonItem>),
    /// An object's members, keys unique, in the object's order.
    Object(Vec<(String, JsonItem)>),
}

/// The value of member `key` of an object's members.
pub open spec fn member(members: Seq<(String, JsonItem)>, key: Seq<char>) -> Option<JsonItem>
    decreases members.len(),
{
    if members.len() == 0 {
        None
    } else if members[0].0@ == key {
        Some(members[0].1)
    } else {
        member(members.drop_first(), key)
    }
}

pub proof fn lemma_member_at(m: Seq<(String, JsonItem)>, k: int, key: Seq<char>)
    requires
        0 <= k < m.len(),
        m[k].0@ == key,
        forall|j: int| 0 <= j < k ==> m[j].0@ != key,
    ensures
        member(m, key) == Some(m[k].1),
    decreases k,
{
    if k > 0 {
        lemma_member_at(m.drop_first(), k - 1, key);
    }
}

pub proof fn lemma_member_absent(m: Seq<(String, JsonItem)>, key: Seq<char>)
    requires
        forall|j: int| 0 <= j < m.len() ==> m[j].0@ != key,
    ensures
        member(m, key) is None,
    decreases m.len(),
{
    if m.len() > 0 {
        lemma_member_absent(m.drop_first(), key);
    }
}

/// Adding a member at the end changes only the value of a key the object
/// did not have.
pub proof fn lemma_member_push(m: Seq<(String, JsonItem)>, e: (String, JsonItem), key: Seq<char>)
    ensures
        member(m.push(e), key) == (if member(m, key) is Some {
            member(m, key)
        } else if e.0@ == key {
            Some(e.1)
        } else {
            None
        }),
    decreases m.len(),
{
    if m.len() > 0 {
        assert(m.push(e)[0] == m[0]);
        assert(m.push(e).drop_first() =~= m.drop_first().push(e));
        lemma_member_push(m.drop_first(), e, key);
    } else {
        assert(m.push(e)[0] == e);
        assert(m.push(e).drop_first() =~= Seq::<(String, JsonItem)>::empty());
        assert(member(m.push(e).drop_first(), key) is None);
    }
}

/// Replacing the value of the first member with a key changes only what
/// that key gives.
pub proof fn lemma_member_replace(
    m: Seq<(String, JsonItem)>,
    i: int,
    e: (String, JsonItem),
    key: Seq<char>,
)
    requires
        0 <= i < m.len(),
        m[i].0@ == e.0@,
        forall|j: int| 0 <= j < i ==> m[j].0@ != e.0@,
    ensures
        member(m.update(i, e), key) == (if key == e.0@ {
            Some(e.1)
        } else {
            member(m, key)
        }),
    decreases i,
{
    if i > 0 {
        assert(m.update(i, e)[0] == m[0]);
        assert(m.update(i, e).drop_first() =~= m.drop_first().update(i - 1, e));
        lemma_member_replace(m.drop_first(), i - 1, e, key);
    } else {
        assert(m.update(0, e)[0] == e);
        assert(m.update(0, e).drop_first() =~= m.drop_first());
    }
}

/// `value.get(key)`: a member of an object, nothing for anything else.
pub open spec fn get(value: JsonItem, key: Seq<char>) -> Option<JsonItem> {
    match value {
        JsonItem::Object(m) => member(m@, key),
        _ => None,
    }
}

/// The value at a path of object keys (the JSON pointer `/k1/k2/...`).
pub open spec fn at_path(value: JsonItem, path: Seq<Seq<char>>) -> Option<JsonItem>
    decreases path.len(),
{
    if path.len() == 0 {
        Some(value)
    } else {
        match get(value, path[0]) {
            Some(v) => at_path(v, path.drop_first()),
            None => None,
        }
    }
}

pub open spec fn as_str(value: Option<JsonItem>) -> Option<Seq<char>> {
    match value {
        Some(JsonItem::Str(s)) => Some(s@),
        _ => None,
    }
}

pub fn get_member<'a>(value: &'a JsonItem, key: &str) -> (r: Option<&'a JsonItem>)
    ensures
        match r {
            Some(v) => get(*value, key@) == Some(*v),
            None => get(*value, key@) is None,
        },
{
    let members = match value {
        JsonItem::Object(m) => m,
        _ => {
            return None;
        },
    };
    let mut i: usize = 0;
    assert(members@.skip(0) =~= members@);
    assert(get(*value, key@) == member(members@, key@));
    while i < members.len()
        invariant
            i <= members@.len(),
            get(*value, key@) == member(members@, key@),
            member(members@, key@) == member(members@.skip(i as int), key@),
        decreases members@.len() - i,
    {
        assert(members@.skip(i as int)[0] == members@[i as int]);
        assert(members@.skip(i as int).drop_first() =~= members@.skip(i + 1));
        if text_eq(members[i].0.as_str(), key) {
            return Some(&members[i].1);
        }
        i += 1;
    }
    None
}

pub open spec fn strs_of(path: Seq<&str>) -> Seq<Seq<char>> {
    path.map_values(|s: &str| s@)
}

/// The value at a path of object keys.
pub fn value_at<'a>(value: &'a JsonItem, path: &[&str]) -> (r: Option<&'a JsonItem>)
    ensures
        match r {
            Some(v) => at_path(*value, strs_of(path@)) == Some(*v),
            None => at_path(*value, strs_of(path@)) is None,
        },
{
    let ghost p = strs_of(path@);
    let mut cur = value;
    let mut i: usize = 0;
    assert(p.skip(0) =~= p);
    while i < path.len()
        invariant
            i <= path@.len(),
            p == strs_of(path@),
            at_path(*value, p) == at_path(*cur, p.skip(i as int)),
        decreases path@.len() - i,
    {
        assert(p.skip(i as int)[0] == path@[i as int]@);
        assert(p.skip(i as int).drop_first() =~= p.skip(i + 1));
        match get_member(cur, path[i]) {
            Some(v) => {
                cur = v;
            },
            None => {
                return None;
            },
        }
        i += 1;
    }
    assert(p.skip(i as int) =~= Seq::<Seq<char>>::empty());
    Some(cur)
}

/// The first of `paths` at which `payload` holds a string.
pub open spec fn first_string(payload: JsonItem, paths: Seq<Seq<Seq<char>>>) -> Option<Seq<char>>
    decreases paths.len(),
{
    if paths.len() == 0 {
        None
    } else {
        match as_str(at_path(payload, paths[0])) {
            Some(s) => Some(s),
            None => first_string(payload, paths.drop_first()),
        }
    }
}

/// The first of `paths` at which `payload` holds anything.
pub open spec fn first_value(payload: JsonItem, paths: Seq<Seq<Seq<char>>>) -> Option<JsonItem>
    decreases paths.len(),
{
    if paths.len() == 0 {
        None
    } else {
        match at_path(payload, paths[0]) {
            Some(v) => Some(v),
            None => first_value(payload, paths.drop_first()),
        }
    }
}

pub open spec fn paths_of(paths: Seq<Vec<&str>>) -> Seq<Seq<Seq<char>>> {
    paths.map_values(|p: Vec<&str>| strs_of(p@))
}

/// The first string found at one of the paths.
pub fn first_string_at_paths(payload: &JsonItem, paths: &Vec<Vec<&str>>) -> (r: Option<String>)
    ensures
        opt_view(r) == first_string(*payload, paths_of(paths@)),
{
    let ghost ps = paths_of(paths@);
    let mut i: usize = 0;
    assert(ps.skip(0) =~= ps);
    while i < paths.len()
        invariant
            i <= paths@.len(),
            ps == paths_of(paths@),
            first_string(*payload, ps) == first_string(*payload, ps.skip(i as int)),
        decreases paths@.len() - i,
    {
        assert(ps.skip(i as int)[0] == strs_of(paths@[i as int]@));
        assert(ps.skip(i as int).drop_first() =~= ps.skip(i + 1));
        match value_at(payload, paths[i].as_slice()) {
            Some(JsonItem::Str(s)) => {
                return Some(s.clone());
            },
            _ => {},
        }
        i += 1;
    }
    None
}

/// The first value found at one of the paths.
pub fn first_value_at_paths<'a>(payload: &'a JsonItem, paths: &Vec<Vec<&str>>) -> (r: Option<
    &'a JsonItem,
>)
    ensures
        match r {
            Some(v) => first_value(*payload, paths_of(paths@)) == Some(*v),
            None => first_value(*payload, paths_of(paths@)) is None,
        },
{
    let ghost ps = paths_of(paths@);
    let mut i: usize = 0;
    assert(ps.skip(0) =~= ps);
    while i < paths.len()
        invariant
            i <= paths@.len(),
            ps == paths_of(paths@),
            first_value(*payload, ps) == first_value(*payload, ps.skip(i as int)),
        decreases paths@.len() - i,
    {
        assert(ps.skip(i as int)[0] == strs_of(paths@[i as int]@));
        assert(ps.skip(i as int).drop_first() =~= ps.skip(i + 1));
        match value_at(payload, paths[i].as_slice()) {
            Some(v) => {
                return Some(v);
            },
            None => {},
        }
        i += 1;
    }
    None
}

// ---------------------------------------------------------------------------
// Token validation
// ---------------------------------------------------------------------------

/// `a.eq_ignore_ascii_case(b)`.
pub fn ascii_case_eq(a: &str, b: &str) -> (r: bool)
    ensures
        r == eq_ignore_ascii_case(a@, b@),
{
    let v = chars_of(a);
    let w = chars_of(b);
    if v.len() != w.len() {
        return false;
    }
    let mut i: usize = 0;
    while i < v.len()
        invariant
            i <= v@.len(),
            v@ == a@,
            w@ == b@,
            v@.len() == w@.len(),
            forall|k: int|
                0 <= k < i ==> crate::text::ascii_lower(#[trigger] v@[k]) == crate::text::ascii_lower(
                    w@[k],
                ),
        decreases v@.len() - i,
    {
        if crate::text::char_ascii_lower(v[i]) != crate::text::char_ascii_lower(w[i]) {
            return false;
        }
        i += 1;
    }
    true
}

pub open spec fn bearer_of(value: Option<Seq<char>>) -> Option<Seq<char>> {
    match value {
        Some(v) => bearer_value(v),
        None => None,
    }
}

/// The bearer token of one entry of a header list: an entry whose `name`
/// (or, without one, `key`) is `authorization` in any case, read from its
/// `value`.
pub open spec fn header_entry_token(e: JsonItem) -> Option<Seq<char>> {
    let name = match get(e, "name"@) {
        Some(v) => Some(v),
        None => get(e, "key"@),
    };
    match as_str(name) {
        None => None,
        Some(n) => if !eq_ignore_ascii_case(n, "authorization"@) {
            None
        } else {
            bearer_of(as_str(get(e, "value"@)))
        },
    }
}

pub open spec fn first_entry_token(es: Seq<JsonItem>) -> Option<Seq<char>>
    decreases es.len(),
{
    if es.len() == 0 {
        None
    } else {
        match header_entry_token(es[0]) {
            Some(t) => Some(t),
            None => first_entry_token(es.drop_first()),
        }
    }
}

/// The bearer token in request headers: an `authorization` or
/// `Authorization` member of a header object, or the first authorization
/// entry of a header list.
pub open spec fn headers_token(headers: JsonItem) -> Option<Seq<char>> {
    match headers {
        JsonItem::Object(_) => {
            let lower = bearer_of(as_str(get(headers, "authorization"@)));
            if lower is Some {
                lower
            } else {
                bearer_of(as_str(get(headers, "Authorization"@)))
            }
        },
        JsonItem::Array(es) => first_entry_token(es@),
        _ => None,
    }
}

fn header_entry_token_exec(e: &JsonItem) -> (r: Option<String>)
    ensures
        opt_view(r) == header_entry_token(*e),
{
    let name = match get_member(e, "name") {
        Some(v) => Some(v),
        None => get_member(e, "key"),
    };
    let n = match name {
        Some(JsonItem::Str(n)) => n,
        _ => {
            return None;
        },
    };
    if !ascii_case_eq(n.as_str(), "authorization") {
        return None;
    }
    match get_member(e, "value") {
        Some(JsonItem::Str(v)) => parse_bearer_value(v.as_str()),
        _ => None,
    }
}

/// Finds the bearer token in request headers.
pub fn extract_bearer_from_headers(headers: &JsonItem) -> (r: Option<String>)
    ensures
        opt_view(r) == headers_token(*headers),
{
    match headers {
        JsonItem::Object(_) => {
            let lower = match get_member(headers, "authorization") {
                Some(JsonItem::Str(v)) => parse_bearer_value(v.as_str()),
                _ => None,
            };
            if lower.is_some() {
                return lower;
            }
            match get_member(headers, "Authorization") {
                Some(JsonItem::Str(v)) => parse_bearer_value(v.as_str()),
                _ => None,
            }
        },
        JsonItem::Array(es) => {
            let mut i: usize = 0;
            assert(es@.skip(0) =~= es@);
            assert(headers_token(*headers) == first_entry_token(es@));
            while i < es.len()
                invariant
                    i <= es@.len(),
                    headers_token(*headers) == first_entry_token(es@),
                    first_entry_token(es@) == first_entry_token(es@.skip(i as int)),
                decreases es@.len() - i,
            {
                assert(es@.skip(i as int)[0] == es@[i as int]);
                assert(es@.skip(i as int).drop_first() =~= es@.skip(i + 1));
                let t = header_entry_token_exec(&es[i]);
                if t.is_some() {
                    return t;
                }
                i += 1;
            }
            None
        },
        _ => None,
    }
}

/// Where a token is looked for first, in order.
pub open spec fn token_paths() -> Seq<Seq<Seq<char>>> {
    seq![
        seq!["token_validation"@, "token"@],
        seq!["auth"@, "token"@],
        seq!["bearer_token"@],
        seq!["token"@],
        seq!["access_token"@],
        seq!["authorization"@],
    ]
}

/// The bearer token of a request payload: the first string at one of the
/// token paths when it holds a token; else one from the `headers`; else one
/// from `metadata.authorization`.
pub open spec fn payload_token(payload: JsonItem) -> Option<Seq<char>> {
    let direct = bearer_of(first_string(payload, token_paths()));
    if direct is Some {
        direct
    } else {
        let from_headers = match get(payload, "headers"@) {
            Some(h) => headers_token(h),
            None => None,
        };
        if from_headers is Some {
            from_headers
        } else {
            bearer_of(as_str(at_path(payload, seq!["metadata"@, "authorization"@])))
        }
    }
}

fn path1<'a>(a: &'a str) -> (r: Vec<&'a str>)
    ensures
        strs_of(r@) == seq![a@],
{
    let mut v: Vec<&str> = Vec::new();
    v.push(a);
    assert(strs_of(v@) =~= seq![a@]);
    v
}

fn path2<'a>(a: &'a str, b: &'a str) -> (r: Vec<&'a str>)
    ensures
        strs_of(r@) == seq![a@, b@],
{
    let mut v: Vec<&str> = Vec::new();
    v.push(a);
    v.push(b);
    assert(strs_of(v@) =~= seq![a@, b@]);
    v
}

/// Finds the bearer token of a request payload.
pub fn extract_bearer_token(payload: &JsonItem) -> (r: Option<String>)
    ensures
        opt_view(r) == payload_token(*payload),
{
    let mut paths: Vec<Vec<&str>> = Vec::new();
    paths.push(path2("token_validation", "token"));
    paths.push(path2("auth", "token"));
    paths.push(path1("bearer_token"));
    paths.push(path1("token"));
    paths.push(path1("access_token"));
    paths.push(path1("authorization"));
    assert(paths_of(paths@) =~= token_paths());
    let direct = match first_string_at_paths(payload, &paths) {
        Some(v) => parse_bearer_value(v.as_str()),
        None => None,
    };
    if direct.is_some() {
        return direct;
    }
    let from_headers = match get_member(payload, "headers") {
        Some(h) => extract_bearer_from_headers(h),
        None => None,
    };
    if from_headers.is_some() {
        return from_headers;
    }
    let meta = path2("metadata", "authorization");
    match value_at(payload, meta.as_slice()) {
        Some(JsonItem::Str(v)) => parse_bearer_value(v.as_str()),
        _ => None,
    }
}

/// The strings of a JSON array, in order, when `v` is one made only of them.
pub open spec fn string_array(v: JsonItem, expected: Seq<Seq<char>>) -> bool {
    v matches JsonItem::Array(items) && items@.len() == expected.len() && forall|i: int|
        0 <= i < expected.len() ==> (#[trigger] items@[i] matches JsonItem::Str(s) && s@
            == expected[i])
}

pub open spec fn is_str() -> spec_fn(JsonItem) -> bool {
    |x: JsonItem| x is Str
}

/// A list of strings from a value: the words of a string, the strings of
/// an array, nothing from anything else.
pub open spec fn string_list(value: JsonItem) -> Seq<Seq<char>> {
    match value {
        JsonItem::Str(raw) => crate::text::words(raw@),
        JsonItem::Array(items) => items@.filter(is_str()).map_values(
            |x: JsonItem|
                match x {
                    JsonItem::Str(s) => s@,
                    _ => Seq::empty(),
                },
        ),
        _ => Seq::empty(),
    }
}

fn strings_to_array(v: Vec<String>) -> (r: JsonItem)
    ensures
        string_array(r, texts_of(v@)),
{
    let ghost tv = texts_of(v@);
    let mut items: Vec<JsonItem> = Vec::new();
    let total = v.len();
    let mut rest = v;
    let mut i: usize = 0;
    while i < total
        invariant
            total == tv.len(),
            i <= total,
            rest@.len() == total - i,
            forall|j: int| 0 <= j < rest@.len() ==> (#[trigger] rest@[j])@ == tv[i + j],
            items@.len() == i,
            forall|j: int|
                0 <= j < i ==> (#[trigger] items@[j] matches JsonItem::Str(s) && s@ == tv[j]),
        decreases total - i,
    {
        let ghost before = rest@;
        assert(before[0]@ == tv[i + 0]);
        let s = rest.remove(0);
        assert forall|j: int| 0 <= j < rest@.len() implies (#[trigger] rest@[j])@ == tv[i + 1
            + j] by {
            assert(rest@[j] == before[j + 1]);
            assert(before[j + 1]@ == tv[i + (j + 1)]);
        }
        items.push(JsonItem::Str(s));
        i += 1;
    }
    JsonItem::Array(items)
}

/// Normalizes an audience or scope list to an array of strings.
pub fn normalize_string_or_array(value: &JsonItem) -> (r: JsonItem)
    ensures
        string_array(r, string_list(*value)),
{
    match value {
        JsonItem::Str(raw) => {
            let words = crate::text::split_words(raw.as_str());
            strings_to_array(words)
        },
        JsonItem::Array(items) => {
            let ghost p = is_str();
            let ghost f = |x: JsonItem|
                match x {
                    JsonItem::Str(s) => s@,
                    _ => Seq::<char>::empty(),
                };
            let mut out: Vec<String> = Vec::new();
            let mut i: usize = 0;
            proof {
                crate::seqs::lemma_filter_empty(p);
                assert(items@.take(0) =~= Seq::<JsonItem>::empty());
                assert(texts_of(out@) =~= items@.take(0).filter(p).map_values(f));
            }
            while i < items.len()
                invariant
                    i <= items@.len(),
                    p == is_str(),
                    f == (|x: JsonItem|
                        match x {
                            JsonItem::Str(s) => s@,
                            _ => Seq::<char>::empty(),
                        }),
                    texts_of(out@) == items@.take(i as int).filter(p).map_values(f),
                decreases items@.len() - i,
            {
                proof {
                    crate::seqs::lemma_filter_step(items@, p, i as int);
                }
                match &items[i] {
                    JsonItem::Str(s) => {
                        let ghost before = texts_of(out@);
                        out.push(s.clone());
                        assert(texts_of(out@) =~= before.push(f(items@[i as int])));
                    },
                    _ => {},
                }
                i += 1;
                assert(texts_of(out@) =~= items@.take(i as int).filter(p).map_values(f));
            }
            proof {
                crate::seqs::lemma_take_all(items@);
            }
            strings_to_array(out)
        },
        _ => {
            let r = JsonItem::Array(Vec::new());
            assert(string_array(r, Seq::<Seq<char>>::empty()));
            r
        },
    }
}

/// Where an issuer is looked for, in order.
pub open spec fn issuer_paths() -> Seq<Seq<Seq<char>>> {
    seq![seq!["token_validation"@, "issuer"@], seq!["auth"@, "issuer"@], seq!["issuer"@]]
}

/// Where an audience is looked for, in order.
pub open spec fn audience_paths() -> Seq<Seq<Seq<char>>> {
    seq![seq!["token_validation"@, "audience"@], seq!["auth"@, "audience"@], seq!["audience"@]]
}

/// Where required scopes are looked for, in order.
pub open spec fn scope_paths() -> Seq<Seq<Seq<char>>> {
    seq![
        seq!["token_validation"@, "scopes"@],
        seq!["token_validation"@, "required_scopes"@],
        seq!["auth"@, "scopes"@],
        seq!["auth"@, "required_scopes"@],
        seq!["scopes"@],
    ]
}

/// A validation request, as the member names it has and what each holds.
pub open spec fn request_members_ok(members: Seq<(String, JsonItem)>, payload: JsonItem) -> bool {
    let token = payload_token(payload);
    let issuer = first_string(payload, issuer_paths());
    let audience = first_value(payload, audience_paths());
    let scopes = first_value(payload, scope_paths());
    &&& token is Some
    &&& members.len() == 1 + (if issuer is Some {
        1int
    } else {
        0
    }) + (if audience is Some {
        1int
    } else {
        0
    }) + (if scopes is Some {
        1int
    } else {
        0
    })
    &&& member(members, "token"@) matches Some(JsonItem::Str(t)) && t@ == token->0
    &&& match issuer {
        Some(i) => member(members, "issuer"@) matches Some(JsonItem::Str(x)) && x@ == i,
        None => member(members, "issuer"@) is None,
    }
    &&& match audience {
        Some(a) => member(members, "audience"@) matches Some(v) && string_array(v, string_list(a)),
        None => member(members, "audience"@) is None,
    }
    &&& match scopes {
        Some(sc) => member(members, "scopes"@) matches Some(v) && string_array(v, string_list(sc)),
        None => member(members, "scopes"@) is None,
    }
}

/// The request a token validator gets for a payload: its token, and the
/// issuer, audience and scopes it asks for; nothing without a token.
pub fn token_validation_request(payload: &JsonItem) -> (r: Option<JsonItem>)
    ensures
        match r {
            None => payload_token(*payload) is None,
            Some(v) => v matches JsonItem::Object(m) && request_members_ok(m@, *payload),
        },
{
    let token = match extract_bearer_token(payload) {
        Some(t) => t,
        None => {
            return None;
        },
    };
    proof {
        reveal_strlit("token");
        reveal_strlit("issuer");
        reveal_strlit("audience");
        reveal_strlit("scopes");
    }
    let ghost tv = token@;
    let mut members: Vec<(String, JsonItem)> = Vec::new();
    members.push((text("token"), JsonItem::Str(token)));
    let ghost mut ks: Seq<Seq<char>> = seq!["token"@];
    let mut ip: Vec<Vec<&str>> = Vec::new();
    ip.push(path2("token_validation", "issuer"));
    ip.push(path2("auth", "issuer"));
    ip.push(path1("issuer"));
    assert(paths_of(ip@) =~= issuer_paths());
    let issuer = first_string_at_paths(payload, &ip);
    let ghost issuer_at: int = members@.len() as int;
    match issuer {
        Some(i) => {
            members.push((text("issuer"), JsonItem::Str(i)));
            proof {
                ks = ks.push("issuer"@);
            }
        },
        None => {},
    }
    let mut ap: Vec<Vec<&str>> = Vec::new();
    ap.push(path2("token_validation", "audience"));
    ap.push(path2("auth", "audience"));
    ap.push(path1("audience"));
    assert(paths_of(ap@) =~= audience_paths());
    let audience = first_value_at_paths(payload, &ap);
    let ghost audience_at: int = members@.len() as int;
    match audience {
        Some(a) => {
            members.push((text("audience"), normalize_string_or_array(a)));
            proof {
                ks = ks.push("audience"@);
            }
        },
        None => {},
    }
    let mut sp: Vec<Vec<&str>> = Vec::new();
    sp.push(path2("token_validation", "scopes"));
    sp.push(path2("token_validation", "required_scopes"));
    sp.push(path2("auth", "scopes"));
    sp.push(path2("auth", "required_scopes"));
    sp.push(path1("scopes"));
    assert(paths_of(sp@) =~= scope_paths());
    let scopes = first_value_at_paths(payload, &sp);
    let ghost scopes_at: int = members@.len() as int;
    match scopes {
        Some(sc) => {
            members.push((text("scopes"), normalize_string_or_array(sc)));
            proof {
                ks = ks.push("scopes"@);
            }
        },
        None => {},
    }
    proof {
        let m = members@;
        assert(m.len() == ks.len());
        assert(forall|j: int| 0 <= j < m.len() ==> m[j].0@ == ks[j]);
        assert("token"@.len() == 5 && "issuer"@.len() == 6 && "audience"@.len() == 8
            && "scopes"@.len() == 6);
        assert("token"@ != "issuer"@ && "token"@ != "audience"@ && "token"@ != "scopes"@);
        assert("issuer"@[0] != "scopes"@[0] && "issuer"@ != "audience"@ && "audience"@
            != "scopes"@);
        assert(m[0].0@ == "token"@);
        lemma_member_at(m, 0, "token"@);
        if issuer is Some {
            assert(m[issuer_at].0@ == "issuer"@);
            lemma_member_at(m, issuer_at, "issuer"@);
        } else {
            lemma_member_absent(m, "issuer"@);
        }
        if audience is Some {
            assert(m[audience_at].0@ == "audience"@);
            lemma_member_at(m, audience_at, "audience"@);
        } else {
            lemma_member_absent(m, "audience"@);
        }
        if scopes is Some {
            assert(m[scopes_at].0@ == "scopes"@);
            lemma_member_at(m, scopes_at, "scopes"@);
        } else {
            lemma_member_absent(m, "scopes"@);
        }
        assert(request_members_ok(m, *payload));
    }
    Some(JsonItem::Object(members))
}

/// What a token validator answered.
pub enum TokenValidationDecision<'a> {
    /// The token is valid, with the claims the answer carries, if any.
    Allow(Option<&'a JsonItem>),
    /// The token is refused, for this reason.
    Deny(String),
}

pub open spec fn as_bool(value: Option<JsonItem>) -> Option<bool> {
    match value {
        Some(JsonItem::Bool(b)) => Some(b),
        _ => None,
    }
}

/// Whether a validator's answer accepts the token: its `valid`, else its
/// `ok`, as a boolean, and no when neither is one.
pub open spec fn answer_valid(output: JsonItem) -> bool {
    match as_bool(get(output, "valid"@)) {
        Some(b) => b,
        None => match as_bool(get(output, "ok"@)) {
            Some(b) => b,
            None => false,
        },
    }
}

/// Why an answer refuses the token: its `reason`, else its `error`, else a
/// default message.
pub open spec fn answer_reason(output: JsonItem) -> Seq<char> {
    match as_str(get(output, "reason"@)) {
        Some(r) => r,
        None => match as_str(get(output, "error"@)) {
            Some(e) => e,
            None => "invalid bearer token"@,
        },
    }
}

/// The claims an accepting answer carries: its `claims` object, else the
/// answer itself when it is an object with a `sub`.
pub open spec fn answer_claims(output: JsonItem) -> Option<JsonItem> {
    match get(output, "claims"@) {
        Some(JsonItem::Object(m)) => Some(JsonItem::Object(m)),
        _ => if output is Object && get(output, "sub"@) is Some {
            Some(output)
        } else {
            None
        },
    }
}

/// Judges a token validator's answer.
pub fn evaluate_token_validation_output(output: &JsonItem) -> (r: TokenValidationDecision<'_>)
    ensures
        match r {
            TokenValidationDecision::Deny(reason) => !answer_valid(*output) && reason@
                == answer_reason(*output),
            TokenValidationDecision::Allow(claims) => answer_valid(*output) && match claims {
                Some(c) => answer_claims(*output) == Some(*c),
                None => answer_claims(*output) is None,
            },
        },
{
    let valid = match get_member(output, "valid") {
        Some(JsonItem::Bool(b)) => *b,
        _ => match get_member(output, "ok") {
            Some(JsonItem::Bool(b)) => *b,
            _ => false,
        },
    };
    if !valid {
        let reason = match get_member(output, "reason") {
            Some(JsonItem::Str(r)) => r.clone(),
            _ => match get_member(output, "error") {
                Some(JsonItem::Str(e)) => e.clone(),
                _ => text("invalid bearer token"),
            },
        };
        return TokenValidationDecision::Deny(reason);
    }
    let claims = match get_member(output, "claims") {
        Some(c) => match c {
            JsonItem::Object(_) => Some(c),
            _ => None,
        },
        None => None,
    };
    if claims.is_some() {
        return TokenValidationDecision::Allow(claims);
    }
    let with_sub = match output {
        JsonItem::Object(_) => get_member(output, "sub").is_some(),
        _ => false,
    };
    if with_sub {
        TokenValidationDecision::Allow(Some(output))
    } else {
        TokenValidationDecision::Allow(None)
    }
}

} // verus!
