//! Setup forms: the questions a provider asks at setup, how answers are
//! checked against them, how a typed answer is read, and how a question is
//! put to the user.
use vstd::prelude::*;

use crate::host::{get, get_member, lemma_member_absent, lemma_member_at, member, JsonItem};
use crate::state_layout::{join_path, path_join};
use crate::text::{ascii_lowercase, chars_of, join, join_texts, texts_of, decimal, decimal_text, extend_chars, is_ws, seq_starts_with, starts_with, string_of, text, text_eq, to_ascii_lowercase};

verus! {

/// The kind of value a question asks for.
#[derive(Clone, Copy, Debug, PartialEq, Eq, Structural)]
pub enum QuestionKind {
    String,
    Boolean,
    Number,
    Integer,
    Enum,
    Other,
}

/// One setup question, as far as checking and asking it goes.
#[derive(Debug, PartialEq, Eq)]
pub struct SetupQuestion {
    pub id: String,
    pub kind: QuestionKind,
    pub title: String,
    pub description: Option<String>,
    pub required: bool,
    pub choices: Option<Vec<String>>,
    pub default_value: Option<String>,
    pub secret: bool,
    /// The pattern an answer must match, when the question constrains it.
    pub pattern: Option<String>,
}

/// The questions of a provider's setup form, in order.
#[derive(Debug, PartialEq, Eq)]
pub struct SetupForm {
    pub id: String,
    pub title: String,
    pub questions: Vec<SetupQuestion>,
}

// ---------------------------------------------------------------------------
// Patterns
// ---------------------------------------------------------------------------

/// The one pattern setup specs use: an `http` or `https` URL.
pub open spec fn url_pattern() -> Seq<char> {
    "^https?://\\S+"@
}

/// Whether an answer matches a pattern. For the URL pattern `^https?://\S+`
/// (anchored at its start only): the answer starts with `http://` or
/// `https://` and the character right after that prefix is there and is not
/// white space. Any other pattern is accepted.
pub open spec fn pattern_matches(value: Seq<char>, pattern: Seq<char>) -> bool {
    if pattern == url_pattern() {
        ||| seq_starts_with(value, "http://"@) && value.len() > 7 && !is_ws(value[7])
        ||| seq_starts_with(value, "https://"@) && value.len() > 8 && !is_ws(value[8])
    } else {
        true
    }
}

pub fn matches_pattern(value: &str, pattern: &str) -> (r: bool)
    ensures
        r == pattern_matches(value@, pattern@),
{
    if text_eq(pattern, "^https?://\\S+") {
        let v = chars_of(value);
        (starts_with(value, "http://") && v.len() > 7 && !crate::text::char_is_ws(v[7]))
            || (starts_with(value, "https://") && v.len() > 8 && !crate::text::char_is_ws(v[8]))
    } else {
        true
    }
}

// ---------------------------------------------------------------------------
// Checking answers
// ---------------------------------------------------------------------------

pub open spec fn missing_answer_message(q: SetupQuestion) -> Seq<char> {
    "missing required setup answer for '"@ + q.id@ + "'"@ + match q.description {
        Some(d) => " ("@ + d@ + ")"@,
        None => Seq::empty(),
    }
}

pub open spec fn pattern_message(q: SetupQuestion, pattern: Seq<char>) -> Seq<char> {
    "answer for '"@ + q.id@ + "' does not match pattern: "@ + pattern
}

/// What checking question `q` against the answers finds, if anything: a
/// required question without an answer (or with `null`), then a text answer
/// that does not match the question's pattern.
pub open spec fn question_problem(q: SetupQuestion, answers: Seq<(String, JsonItem)>) -> Option<
    Seq<char>,
> {
    let a = member(answers, q.id@);
    if q.required && (a is None || a == Some(JsonItem::Null)) {
        Some(missing_answer_message(q))
    } else {
        match (a, q.pattern) {
            (Some(JsonItem::Str(s)), Some(p)) => if pattern_matches(s@, p@) {
                None
            } else {
                Some(pattern_message(q, p@))
            },
            _ => None,
        }
    }
}

/// The first problem of the first `n` questions.
pub open spec fn first_problem(
    qs: Seq<SetupQuestion>,
    answers: Seq<(String, JsonItem)>,
    n: int,
) -> Option<Seq<char>>
    decreases n,
{
    if n <= 0 {
        None
    } else {
        match first_problem(qs, answers, n - 1) {
            Some(e) => Some(e),
            None => question_problem(qs[n - 1], answers),
        }
    }
}

/// Checks setup answers against a form: they must be an object, answer
/// every required question, and match each question's pattern; the first
/// problem is reported.
pub fn validate_answers_against_form_spec(spec: &SetupForm, answers: &JsonItem) -> (r: Result<
    (),
    String,
>)
    ensures
        match *answers {
            JsonItem::Object(m) => match first_problem(
                spec.questions@,
                m@,
                spec.questions@.len() as int,
            ) {
                None => r is Ok,
                Some(e) => r matches Err(x) && x@ == e,
            },
            _ => r matches Err(x) && x@ == "setup answers must be an object"@,
        },
{
    let members = match answers {
        JsonItem::Object(m) => m,
        _ => {
            return Err(text("setup answers must be an object"));
        },
    };
    let mut i: usize = 0;
    while i < spec.questions.len()
        invariant
            i <= spec.questions@.len(),
            *answers == JsonItem::Object(*members),
            first_problem(spec.questions@, members@, i as int) is None,
        decreases spec.questions@.len() - i,
    {
        let q = &spec.questions[i];
        let a = crate::host::get_member(answers, q.id.as_str());
        let missing = match a {
            None => true,
            Some(JsonItem::Null) => true,
            _ => false,
        };
        if q.required && missing {
            let mut v = chars_of("missing required setup answer for '");
            extend_chars(&mut v, q.id.as_str());
            extend_chars(&mut v, "'");
            match &q.description {
                Some(d) => {
                    extend_chars(&mut v, " (");
                    extend_chars(&mut v, d.as_str());
                    extend_chars(&mut v, ")");
                },
                None => {},
            }
            proof {
                lemma_problem_stays(spec.questions@, members@, i + 1, spec.questions@.len() as int);
            }
            return Err(string_of(v.as_slice()));
        }
        match (a, &q.pattern) {
            (Some(JsonItem::Str(s)), Some(p)) => {
                if !matches_pattern(s.as_str(), p.as_str()) {
                    let mut v = chars_of("answer for '");
                    extend_chars(&mut v, q.id.as_str());
                    extend_chars(&mut v, "' does not match pattern: ");
                    extend_chars(&mut v, p.as_str());
                    proof {
                        lemma_problem_stays(
                            spec.questions@,
                            members@,
                            i + 1,
                            spec.questions@.len() as int,
                        );
                    }
                    return Err(string_of(v.as_slice()));
                }
            },
            _ => {},
        }
        i += 1;
    }
    Ok(())
}

proof fn lemma_problem_stays(qs: Seq<SetupQuestion>, answers: Seq<(String, JsonItem)>, k: int, n: int)
    requires
        0 <= k <= n,
        first_problem(qs, answers, k) is Some,
    ensures
        first_problem(qs, answers, n) == first_problem(qs, answers, k),
    decreases n - k,
{
    if n > k {
        lemma_problem_stays(qs, answers, k, n - 1);
    }
}

/// Whether a form asks anything that must be answered.
/// A form that asks something that must be answered.
pub open spec fn requires_answers(f: SetupForm) -> bool {
    exists|i: int| 0 <= i < f.questions@.len() && (#[trigger] f.questions@[i]).required
}

/// Whether a form asks anything that must be answered.
pub fn has_required_questions(spec: Option<&SetupForm>) -> (r: bool)
    ensures
        r == match spec {
            Some(s) => requires_answers(*s),
            None => false,
        },
{
    match spec {
        None => false,
        Some(s) => {
            let mut i: usize = 0;
            while i < s.questions.len()
                invariant
                    spec == Some(s),
                    i <= s.questions@.len(),
                    forall|k: int| 0 <= k < i ==> !(#[trigger] s.questions@[k]).required,
                decreases s.questions@.len() - i,
            {
                if s.questions[i].required {
                    assert(s.questions@[i as int].required);
                    return true;
                }
                i += 1;
            }
            false
        },
    }
}

// ---------------------------------------------------------------------------
// Typed answers
// ---------------------------------------------------------------------------

pub open spec fn true_word(w: Seq<char>) -> bool {
    w == "true"@ || w == "yes"@ || w == "y"@ || w == "1"@ || w == "on"@
}

pub open spec fn false_word(w: Seq<char>) -> bool {
    w == "false"@ || w == "no"@ || w == "n"@ || w == "0"@ || w == "off"@
}

pub open spec fn all_digits(t: Seq<char>) -> bool {
    forall|i: int| 0 <= i < t.len() ==> '0' <= #[trigger] t[i] <= '9'
}

/// The value of a text of decimal digits.
pub open spec fn digits_value(t: Seq<char>) -> nat
    decreases t.len(),
{
    if t.len() == 0 {
        0
    } else {
        digits_value(t.drop_last()) * 10 + (t.last() as nat - '0' as nat) as nat
    }
}

/// The `i64` a text stands for (`str::parse::<i64>`): an optional sign,
/// then at least one decimal digit, within the range of `i64`.
pub open spec fn i64_text_value(t: Seq<char>) -> Option<int> {
    let (neg, digits) = if t.len() > 0 && (t[0] == '-' || t[0] == '+') {
        (t[0] == '-', t.drop_first())
    } else {
        (false, t)
    };
    if digits.len() == 0 || !all_digits(digits) {
        None
    } else {
        let v: int = if neg {
            -digits_value(digits)
        } else {
            digits_value(digits) as int
        };
        if i64::MIN <= v <= i64::MAX {
            Some(v)
        } else {
            None
        }
    }
}

/// The decimal text of an integer, with a `-` when it is negative.
pub open spec fn int_text(v: int) -> Seq<char> {
    if v < 0 {
        "-"@ + decimal((-v) as nat)
    } else {
        decimal(v as nat)
    }
}

/// Reads a text as an `i64`.
fn parse_i64(t: &str) -> (r: Option<i64>)
    ensures
        match r {
            Some(v) => i64_text_value(t@) == Some(v as int),
            None => i64_text_value(t@) is None,
        },
{
    let v = chars_of(t);
    let mut start: usize = 0;
    let mut neg = false;
    if v.len() > 0 && (v[0] == '-' || v[0] == '+') {
        neg = v[0] == '-';
        start = 1;
    }
    let ghost digits = if start == 1 {
        t@.drop_first()
    } else {
        t@
    };
    if start >= v.len() {
        return None;
    }
    // Accumulate the magnitude, saturating just past the largest magnitude.
    let limit: u128 = 9223372036854775808;
    let mut acc: u128 = 0;
    let mut i: usize = start;
    while i < v.len()
        invariant
            start <= i <= v@.len(),
            start < v@.len(),
            v@ == t@,
            start == 0 || start == 1,
            (start == 1) == (t@.len() > 0 && (t@[0] == '-' || t@[0] == '+')),
            neg == (start == 1 && t@[0] == '-'),
            limit == 9223372036854775808u128,
            digits == v@.skip(start as int),
            forall|k: int| start <= k < i ==> '0' <= #[trigger] v@[k] <= '9',
            acc as int == if digits_value(v@.subrange(start as int, i as int)) <= limit {
                digits_value(v@.subrange(start as int, i as int)) as int
            } else {
                limit + 1
            },
        decreases v@.len() - i,
    {
        let c = v[i];
        if !('0' <= c && c <= '9') {
            proof {
                assert(digits[i - start] == c);
                assert(!all_digits(digits));
            }
            return None;
        }
        let d: u128 = (c as u32 - '0' as u32) as u128;
        proof {
            assert(v@.subrange(start as int, i + 1).drop_last() =~= v@.subrange(
                start as int,
                i as int,
            ));
        }
        assert(acc * 10 + d <= 92233720368547758100u128) by (nonlinear_arith)
            requires
                acc <= 9223372036854775809u128,
                d <= 9,
        ;
        let next: u128 = acc * 10 + d;
        acc = if next <= limit {
            next
        } else {
            limit + 1
        };
        i += 1;
    }
    proof {
        assert(v@.subrange(start as int, v@.len() as int) =~= digits);
        assert(all_digits(digits));
    }
    if neg {
        if acc <= limit {
            let r: i128 = -(acc as i128);
            Some(r as i64)
        } else {
            None
        }
    } else {
        if acc < limit {
            Some(acc as i64)
        } else {
            None
        }
    }
}

/// What an answer to a question of `kind` reads as: a yes or no word as a
/// boolean for a boolean question (else the text), an integer as a number
/// for a number question, and the text for anything else. `None` for a
/// number question whose answer is not an integer: reading it as a
/// floating-point number is left to the caller.
pub fn parse_typed_value(kind: QuestionKind, input: &str) -> (r: Option<JsonItem>)
    ensures
        match kind {
            QuestionKind::Boolean => {
                let w = ascii_lowercase(input@);
                if true_word(w) {
                    r == Some(JsonItem::Bool(true))
                } else if false_word(w) {
                    r == Some(JsonItem::Bool(false))
                } else {
                    r matches Some(JsonItem::Str(s)) && s@ == input@
                }
            },
            QuestionKind::Number | QuestionKind::Integer => match i64_text_value(input@) {
                Some(v) => r matches Some(JsonItem::Number(n)) && n@ == int_text(v),
                None => r is None,
            },
            _ => r matches Some(JsonItem::Str(s)) && s@ == input@,
        },
{
    match kind {
        QuestionKind::Boolean => {
            let lower = to_ascii_lowercase(input);
            let w = lower.as_str();
            if text_eq(w, "true") || text_eq(w, "yes") || text_eq(w, "y") || text_eq(w, "1")
                || text_eq(w, "on") {
                Some(JsonItem::Bool(true))
            } else if text_eq(w, "false") || text_eq(w, "no") || text_eq(w, "n") || text_eq(w, "0")
                || text_eq(w, "off") {
                Some(JsonItem::Bool(false))
            } else {
                Some(JsonItem::Str(text(input)))
            }
        },
        QuestionKind::Number | QuestionKind::Integer => match parse_i64(input) {
            Some(n) => Some(JsonItem::Number(i64_text(n))),
            None => None,
        },
        _ => Some(JsonItem::Str(text(input))),
    }
}

fn i64_text(n: i64) -> (r: String)
    ensures
        r@ == int_text(n as int),
{
    if n < 0 {
        let m: u128 = (-(n as i128)) as u128;
        let d = decimal_text(m);
        let mut v = chars_of("-");
        let mut i: usize = 0;
        while i < d.len()
            invariant
                i <= d@.len(),
                v@ == "-"@ + d@.take(i as int),
            decreases d@.len() - i,
        {
            v.push(d[i]);
            i += 1;
            assert(v@ =~= "-"@ + d@.take(i as int));
        }
        assert(d@.take(d@.len() as int) =~= d@);
        string_of(v.as_slice())
    } else {
        let d = decimal_text(n as u128);
        string_of(d.as_slice())
    }
}

// ---------------------------------------------------------------------------
// Asking a question
// ---------------------------------------------------------------------------

pub open spec fn kind_suffix(kind: QuestionKind) -> Seq<char> {
    match kind {
        QuestionKind::Boolean => " [boolean]"@,
        QuestionKind::Number | QuestionKind::Integer => " [number]"@,
        QuestionKind::Enum => " [choice]"@,
        _ => Seq::empty(),
    }
}

/// The prompt for a question: its title, `*` when it is required, the kind
/// of answer, the default, then `: `.
pub open spec fn question_prompt(q: SetupQuestion) -> Seq<char> {
    q.title@ + (if q.required {
        "*"@
    } else {
        Seq::empty()
    }) + kind_suffix(q.kind) + match q.default_value {
        Some(d) => " [default: "@ + d@ + "]"@,
        None => Seq::empty(),
    } + ": "@
}

pub fn build_form_spec_prompt(question: &SetupQuestion) -> (r: String)
    ensures
        r@ == question_prompt(*question),
{
    let mut v = chars_of(question.title.as_str());
    if question.required {
        extend_chars(&mut v, "*");
    }
    match question.kind {
        QuestionKind::Boolean => extend_chars(&mut v, " [boolean]"),
        QuestionKind::Number | QuestionKind::Integer => extend_chars(&mut v, " [number]"),
        QuestionKind::Enum => extend_chars(&mut v, " [choice]"),
        _ => {},
    }
    match &question.default_value {
        Some(d) => {
            extend_chars(&mut v, " [default: ");
            extend_chars(&mut v, d.as_str());
            extend_chars(&mut v, "]");
        },
        None => {},
    }
    extend_chars(&mut v, ": ");
    let r = string_of(v.as_slice());
    proof {
        assert(r@ =~= question_prompt(*question));
    }
    r
}

/// What one answer typed at a question leads to.
#[derive(Debug, PartialEq)]
pub enum AnswerStep {
    /// The question is answered with this value.
    Answer(JsonItem),
    /// The question is left unanswered.
    Skip,
    /// The answer to a number question is not an integer: the caller reads
    /// this text as a floating-point number.
    ReadFloat(String),
    /// The answer is refused for the reason given; the question is asked
    /// again.
    AskAgain(String),
}

/// `step` is what the text `input` reads as for a question of `kind`.
pub open spec fn is_typed_step(kind: QuestionKind, input: Seq<char>, step: AnswerStep) -> bool {
    match kind {
        QuestionKind::Boolean => {
            let w = ascii_lowercase(input);
            if true_word(w) {
                step == AnswerStep::Answer(JsonItem::Bool(true))
            } else if false_word(w) {
                step == AnswerStep::Answer(JsonItem::Bool(false))
            } else {
                step matches AnswerStep::Answer(JsonItem::Str(s)) && s@ == input
            }
        },
        QuestionKind::Number | QuestionKind::Integer => match i64_text_value(input) {
            Some(v) => step matches AnswerStep::Answer(JsonItem::Number(n)) && n@ == int_text(v),
            None => step matches AnswerStep::ReadFloat(t) && t@ == input,
        },
        _ => step matches AnswerStep::Answer(JsonItem::Str(s)) && s@ == input,
    }
}

fn typed_step(kind: QuestionKind, input: &str) -> (r: AnswerStep)
    ensures
        is_typed_step(kind, input@, r),
{
    match parse_typed_value(kind, input) {
        Some(v) => AnswerStep::Answer(v),
        None => AnswerStep::ReadFloat(text(input)),
    }
}

/// The choice an answer picks by number: `n` from 1 up picks the n-th.
pub open spec fn picked_choice(choices: Seq<String>, answer: Seq<char>) -> Option<int> {
    match i64_text_value(answer) {
        Some(v) => if 1 <= v <= choices.len() {
            Some(v - 1)
        } else {
            None
        },
        None => None,
    }
}

/// What an answer typed at a question leads to. `trimmed` is the answer as
/// typed, trimmed; `normalized` is that answer as the question's kind
/// normalizes it. A blank answer takes the default, is refused when the
/// question is required, and leaves the question unanswered otherwise. An
/// answer must match the question's pattern; for a question with choices,
/// it picks a choice by its number or names one of them. A choice number
/// of 0 picks nothing.
pub fn answer_step(question: &SetupQuestion, trimmed: &str, normalized: &str) -> (r: AnswerStep)
    ensures
        trimmed@.len() == 0 ==> match question.default_value {
            Some(d) => is_typed_step(question.kind, d@, r),
            None => if question.required {
                r matches AnswerStep::AskAgain(m) && m@ == "  This field is required."@
            } else {
                r == AnswerStep::Skip
            },
        },
        trimmed@.len() > 0 ==> match question.pattern {
            Some(p) if !pattern_matches(normalized@, p@) => r matches AnswerStep::AskAgain(m) && m@
                == "  Invalid format. Expected pattern: "@ + p@,
            _ => match question.choices {
                Some(cs) if cs@.len() > 0 => match picked_choice(cs@, normalized@) {
                    Some(i) => r matches AnswerStep::Answer(JsonItem::Str(c)) && c@ == cs@[i]@,
                    None => if texts_of(cs@).contains(normalized@) {
                        is_typed_step(question.kind, normalized@, r)
                    } else {
                        r matches AnswerStep::AskAgain(m) && m@ == "  Invalid choice. Options: "@
                            + join_texts(texts_of(cs@), ", "@)
                    },
                },
                _ => is_typed_step(question.kind, normalized@, r),
            },
        },
{
    let typed = chars_of(trimmed);
    if typed.len() == 0 {
        return match &question.default_value {
            Some(d) => typed_step(question.kind, d.as_str()),
            None => if question.required {
                AnswerStep::AskAgain(text("  This field is required."))
            } else {
                AnswerStep::Skip
            },
        };
    }
    if let Some(p) = &question.pattern {
        if !matches_pattern(normalized, p.as_str()) {
            let mut m = chars_of("  Invalid format. Expected pattern: ");
            extend_chars(&mut m, p.as_str());
            return AnswerStep::AskAgain(string_of(m.as_slice()));
        }
    }
    if let Some(cs) = &question.choices {
        if cs.len() > 0 {
            if let Some(v) = parse_i64(normalized) {
                if 1 <= v && (v as u64) <= (cs.len() as u64) {
                    let i = (v - 1) as usize;
                    return AnswerStep::Answer(JsonItem::Str(cs[i].clone()));
                }
            }
            let mut found = false;
            let mut k: usize = 0;
            while k < cs.len()
                invariant
                    k <= cs@.len(),
                    found == exists|j: int| 0 <= j < k && cs@[j]@ == normalized@,
                decreases cs@.len() - k,
            {
                if text_eq(cs[k].as_str(), normalized) {
                    found = true;
                }
                k += 1;
            }
            proof {
                if found {
                    let j = choose|j: int| 0 <= j < cs@.len() && cs@[j]@ == normalized@;
                    assert(texts_of(cs@)[j] == normalized@);
                }
                if texts_of(cs@).contains(normalized@) {
                    let j = choose|j: int| 0 <= j < texts_of(cs@).len() && texts_of(cs@)[j] == normalized@;
                    assert(cs@[j]@ == normalized@);
                }
            }
            if !found {
                let mut m = chars_of("  Invalid choice. Options: ");
                let listed = join(cs, ", ");
                extend_chars(&mut m, listed.as_str());
                return AnswerStep::AskAgain(string_of(m.as_slice()));
            }
        }
    }
    typed_step(question.kind, normalized)
}

/// The name a provider is shown by while it is set up: its id without a
/// `messaging-` or `events-` prefix.
pub open spec fn display_provider(id: Seq<char>) -> Seq<char> {
    if seq_starts_with(id, "messaging-"@) {
        id.skip(10)
    } else if seq_starts_with(id, "events-"@) {
        id.skip(7)
    } else {
        id
    }
}

pub fn display_provider_name(provider_id: &str) -> (r: String)
    ensures
        r@ == display_provider(provider_id@),
{
    proof {
        reveal_strlit("messaging-");
        reveal_strlit("events-");
    }
    let v = chars_of(provider_id);
    if starts_with(provider_id, "messaging-") {
        let rest = crate::text::slice_chars(v.as_slice(), 10, v.len());
        assert(rest@ =~= provider_id@.skip(10));
        string_of(rest.as_slice())
    } else if starts_with(provider_id, "events-") {
        let rest = crate::text::slice_chars(v.as_slice(), 7, v.len());
        assert(rest@ =~= provider_id@.skip(7));
        string_of(rest.as_slice())
    } else {
        text(provider_id)
    }
}

// ---------------------------------------------------------------------------
// QA process nodes
// ---------------------------------------------------------------------------

/// What a QA process node asks a provider's QA component to do.
#[derive(Clone, Copy, Debug, PartialEq, Eq, Structural)]
pub enum QaMode {
    Setup,
    Remove,
    Upgrade,
    Default,
}

pub open spec fn qa_mode_named(m: Seq<char>) -> QaMode {
    if m == "remove"@ {
        QaMode::Remove
    } else if m == "upgrade"@ {
        QaMode::Upgrade
    } else if m == "default"@ {
        QaMode::Default
    } else {
        QaMode::Setup
    }
}

/// The mode name a node's configuration gives: its `mode` text, `setup`
/// when it has none.
pub open spec fn qa_mode_text(node_config: JsonItem) -> Seq<char> {
    match get(node_config, "mode"@) {
        Some(JsonItem::Str(m)) => m@,
        _ => "setup"@,
    }
}

/// The mode a QA process node runs in, with its name.
pub fn qa_node_mode(node_config: &JsonItem) -> (r: (QaMode, String))
    ensures
        r.1@ == qa_mode_text(*node_config),
        r.0 == qa_mode_named(qa_mode_text(*node_config)),
{
    let name = match get_member(node_config, "mode") {
        Some(JsonItem::Str(m)) => m.clone(),
        _ => text("setup"),
    };
    let n = name.as_str();
    let mode = if text_eq(n, "remove") {
        QaMode::Remove
    } else if text_eq(n, "upgrade") {
        QaMode::Upgrade
    } else if text_eq(n, "default") {
        QaMode::Default
    } else {
        QaMode::Setup
    };
    (mode, name)
}

/// The answers a node's configuration supplies, moved out of it.
pub fn take_supplied_answers(node_config: JsonItem) -> (r: Option<JsonItem>)
    ensures
        r == get(node_config, "answers"@),
{
    match node_config {
        JsonItem::Object(m) => {
            let ghost old_m = m@;
            let mut m = m;
            let mut i: usize = 0;
            while i < m.len()
                invariant
                    i <= m@.len(),
                    m@ == old_m,
                    forall|j: int| 0 <= j < i ==> m@[j].0@ != "answers"@,
                ensures
                    i <= m@.len(),
                    m@ == old_m,
                    forall|j: int| 0 <= j < i ==> m@[j].0@ != "answers"@,
                    i < m@.len() ==> m@[i as int].0@ == "answers"@,
                decreases m@.len() - i,
            {
                if text_eq(m[i].0.as_str(), "answers") {
                    break;
                }
                i += 1;
            }
            if i < m.len() {
                proof {
                    lemma_member_at(old_m, i as int, "answers"@);
                }
                let (_, v) = m.remove(i);
                Some(v)
            } else {
                proof {
                    lemma_member_absent(old_m, "answers"@);
                }
                None
            }
        },
        _ => None,
    }
}

/// `<root>/state/runtime/<tenant>/providers`, where provider configs live.
pub fn qa_providers_root(root: &str, tenant: &str) -> (r: String)
    ensures
        r@ == path_join(path_join(path_join(path_join(root@, "state"@), "runtime"@), tenant@), "providers"@),
{
    let a = join_path(root, "state");
    let b = join_path(a.as_str(), "runtime");
    let c = join_path(b.as_str(), tenant);
    join_path(c.as_str(), "providers")
}

/// What applying answers through a provider's QA component came to.
#[derive(Debug, PartialEq)]
pub enum QaApplyOutcome {
    /// The provider's new config.
    Applied(JsonItem),
    /// The provider does not take part in the QA contract.
    NotSupported,
    /// The component refused, with a code and message.
    Failed { code: String, message: String },
}

/// The output of a QA process node: `ok` with the config, mode and
/// provider; `skip` when the provider does not support QA; `error` with
/// the component's code and message.
pub fn qa_node_result(outcome: QaApplyOutcome, mode: &str, provider_id: &str) -> (r: JsonItem)
    ensures
        r matches JsonItem::Object(m) && match outcome {
            QaApplyOutcome::Applied(config) => m@.len() == 4 && m@[0].0@ == "status"@
                && crate::outcomes::is_str(m@[0].1, "ok"@) && m@[1].0@ == "config"@ && m@[1].1
                == config && m@[2].0@ == "mode"@ && crate::outcomes::is_str(m@[2].1, mode@) && m@[3].0@
                == "provider"@ && crate::outcomes::is_str(m@[3].1, provider_id@),
            QaApplyOutcome::NotSupported => m@.len() == 3 && m@[0].0@ == "status"@
                && crate::outcomes::is_str(m@[0].1, "skip"@) && m@[1].0@ == "reason"@
                && crate::outcomes::is_str(m@[1].1, "provider does not support QA contract"@)
                && m@[2].0@ == "provider"@ && crate::outcomes::is_str(m@[2].1, provider_id@),
            QaApplyOutcome::Failed { code, message } => m@.len() == 4 && m@[0].0@ == "status"@
                && crate::outcomes::is_str(m@[0].1, "error"@) && m@[1].0@ == "code"@
                && crate::outcomes::is_str(m@[1].1, code@) && m@[2].0@ == "message"@
                && crate::outcomes::is_str(m@[2].1, message@) && m@[3].0@ == "provider"@
                && crate::outcomes::is_str(m@[3].1, provider_id@),
        },
{
    let mut m: Vec<(String, JsonItem)> = Vec::new();
    match outcome {
        QaApplyOutcome::Applied(config) => {
            m.push((text("status"), JsonItem::Str(text("ok"))));
            m.push((text("config"), config));
            m.push((text("mode"), JsonItem::Str(text(mode))));
        },
        QaApplyOutcome::NotSupported => {
            m.push((text("status"), JsonItem::Str(text("skip"))));
            m.push(
                (text("reason"), JsonItem::Str(text("provider does not support QA contract"))),
            );
        },
        QaApplyOutcome::Failed { code, message } => {
            m.push((text("status"), JsonItem::Str(text("error"))));
            m.push((text("code"), JsonItem::Str(code)));
            m.push((text("message"), JsonItem::Str(message)));
        },
    }
    m.push((text("provider"), JsonItem::Str(text(provider_id))));
    JsonItem::Object(m)
}

} // verus!
