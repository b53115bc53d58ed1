use greentic_operator::host::JsonItem;
use greentic_operator::qa_form::{
    answer_step, AnswerStep, build_form_spec_prompt, display_provider_name, has_required_questions, matches_pattern,
    parse_typed_value, validate_answers_against_form_spec, QuestionKind, SetupForm, SetupQuestion,
};

fn question(id: &str, title: &str, required: bool) -> SetupQuestion {
    SetupQuestion {
        id: id.to_string(),
        kind: QuestionKind::String,
        title: title.to_string(),
        description: None,
        required,
        choices: None,
        default_value: None,
        secret: false,
        pattern: None,
    }
}

fn test_form_spec() -> SetupForm {
    let mut api_url = question("api_url", "API URL", true);
    api_url.pattern = Some(r"^https?://\S+".to_string());
    let mut token = question("token", "Token", true);
    token.secret = true;
    let mut optional = question("optional", "Optional Field", false);
    optional.default_value = Some("default_val".to_string());
    SetupForm {
        id: "test-setup".to_string(),
        title: "Test Setup".to_string(),
        questions: vec![api_url, token, optional],
    }
}

fn answers(pairs: &[(&str, &str)]) -> JsonItem {
    JsonItem::Object(
        pairs
            .iter()
            .map(|(k, v)| (k.to_string(), JsonItem::Str(v.to_string())))
            .collect(),
    )
}

#[test]
fn validates_required_answers() {
    let spec = test_form_spec();
    let answers = answers(&[("api_url", "https://example.com"), ("token", "abc")]);
    assert!(validate_answers_against_form_spec(&spec, &answers).is_ok());
}

#[test]
fn rejects_missing_required() {
    let spec = test_form_spec();
    let answers = answers(&[("api_url", "https://example.com")]);
    let err = validate_answers_against_form_spec(&spec, &answers).unwrap_err();
    assert!(err.contains("token"));
}

#[test]
fn rejects_invalid_url_pattern() {
    let spec = test_form_spec();
    let answers = answers(&[("api_url", "not-a-url"), ("token", "abc")]);
    let err = validate_answers_against_form_spec(&spec, &answers).unwrap_err();
    assert!(err.contains("pattern"));
}

#[test]
fn parse_typed_values() {
    assert_eq!(parse_typed_value(QuestionKind::Boolean, "true"), Some(JsonItem::Bool(true)));
    assert_eq!(parse_typed_value(QuestionKind::Boolean, "no"), Some(JsonItem::Bool(false)));
    assert_eq!(
        parse_typed_value(QuestionKind::Number, "42"),
        Some(JsonItem::Number("42".to_string()))
    );
    assert_eq!(
        parse_typed_value(QuestionKind::String, "hello"),
        Some(JsonItem::Str("hello".to_string()))
    );
}

#[test]
fn typed_values_at_the_edges() {
    assert_eq!(parse_typed_value(QuestionKind::Boolean, "OFF"), Some(JsonItem::Bool(false)));
    assert_eq!(
        parse_typed_value(QuestionKind::Boolean, "maybe"),
        Some(JsonItem::Str("maybe".to_string()))
    );
    assert_eq!(
        parse_typed_value(QuestionKind::Integer, "-9223372036854775808"),
        Some(JsonItem::Number("-9223372036854775808".to_string()))
    );
    assert_eq!(
        parse_typed_value(QuestionKind::Integer, "+007"),
        Some(JsonItem::Number("7".to_string()))
    );
    assert_eq!(parse_typed_value(QuestionKind::Number, "9223372036854775808"), None);
    assert_eq!(parse_typed_value(QuestionKind::Number, "1.5"), None);
    assert_eq!(parse_typed_value(QuestionKind::Number, "-"), None);
}

#[test]
fn answers_and_patterns() {
    let spec = test_form_spec();
    assert_eq!(
        validate_answers_against_form_spec(&spec, &JsonItem::Str("x".to_string())).unwrap_err(),
        "setup answers must be an object"
    );
    let with_null = JsonItem::Object(vec![
        ("api_url".to_string(), JsonItem::Null),
        ("token".to_string(), JsonItem::Str("abc".to_string())),
    ]);
    assert_eq!(
        validate_answers_against_form_spec(&spec, &with_null).unwrap_err(),
        "missing required setup answer for 'api_url'"
    );
    let mut described = test_form_spec();
    described.questions[1].description = Some("bot token".to_string());
    let answers = answers(&[("api_url", "https://example.com")]);
    assert_eq!(
        validate_answers_against_form_spec(&described, &answers).unwrap_err(),
        "missing required setup answer for 'token' (bot token)"
    );
    assert!(matches_pattern("https://a.io", r"^https?://\S+"));
    assert!(!matches_pattern("http://", r"^https?://\S+"));
    assert!(matches_pattern("https://a b", r"^https?://\S+"));
    assert!(matches_pattern("http://a", r"^https?://\S+"));
    assert!(!matches_pattern("https:// x", r"^https?://\S+"));
    assert!(!matches_pattern("ftp://example.com", r"^https?://\S+"));
    assert!(matches_pattern("anything", "^[a-z]+$"));
    assert!(has_required_questions(Some(&spec)));
    assert!(!has_required_questions(None));
}

#[test]
fn prompts_and_names() {
    let spec = test_form_spec();
    assert_eq!(build_form_spec_prompt(&spec.questions[0]), "API URL*: ");
    assert_eq!(
        build_form_spec_prompt(&spec.questions[2]),
        "Optional Field [default: default_val]: "
    );
    let mut flag = question("flag", "Enabled", false);
    flag.kind = QuestionKind::Boolean;
    assert_eq!(build_form_spec_prompt(&flag), "Enabled [boolean]: ");
    assert_eq!(display_provider_name("messaging-telegram"), "telegram");
    assert_eq!(display_provider_name("events-webhook"), "webhook");
    assert_eq!(display_provider_name("oauth-x"), "oauth-x");
}

use greentic_operator::qa_form::{
    qa_node_mode, qa_node_result, qa_providers_root, take_supplied_answers, QaApplyOutcome, QaMode,
};

fn node(members: Vec<(&str, JsonItem)>) -> JsonItem {
    JsonItem::Object(members.into_iter().map(|(k, v)| (k.to_string(), v)).collect())
}

#[test]
fn qa_process_nodes() {
    let config = node(vec![
        ("mode", JsonItem::Str("upgrade".to_string())),
        ("answers", node(vec![("token", JsonItem::Str("abc".to_string()))])),
    ]);
    assert_eq!(qa_node_mode(&config), (QaMode::Upgrade, "upgrade".to_string()));
    assert_eq!(qa_node_mode(&node(vec![])), (QaMode::Setup, "setup".to_string()));
    assert_eq!(
        qa_node_mode(&node(vec![("mode", JsonItem::Str("other".to_string()))])),
        (QaMode::Setup, "other".to_string())
    );
    assert_eq!(
        take_supplied_answers(config),
        Some(node(vec![("token", JsonItem::Str("abc".to_string()))]))
    );
    assert_eq!(take_supplied_answers(node(vec![])), None);
    assert_eq!(qa_providers_root("/b", "acme"), "/b/state/runtime/acme/providers");
    let skipped = qa_node_result(QaApplyOutcome::NotSupported, "setup", "telegram");
    assert_eq!(
        skipped,
        node(vec![
            ("status", JsonItem::Str("skip".to_string())),
            ("reason", JsonItem::Str("provider does not support QA contract".to_string())),
            ("provider", JsonItem::Str("telegram".to_string())),
        ])
    );
    let failed = qa_node_result(
        QaApplyOutcome::Failed { code: "bad".to_string(), message: "nope".to_string() },
        "setup",
        "telegram",
    );
    match failed {
        JsonItem::Object(m) => {
            assert_eq!(m[0].1, JsonItem::Str("error".to_string()));
            assert_eq!(m[1], ("code".to_string(), JsonItem::Str("bad".to_string())));
        }
        other => panic!("unexpected {other:?}"),
    }
}

#[test]
fn blank_answers_take_defaults_or_are_refused() {
    let mut q = question("port", "Port", true);
    q.kind = QuestionKind::Integer;
    assert_eq!(
        answer_step(&q, "", ""),
        AnswerStep::AskAgain("  This field is required.".to_string())
    );
    q.default_value = Some("8080".to_string());
    assert_eq!(answer_step(&q, "", ""), AnswerStep::Answer(JsonItem::Number("8080".to_string())));
    let optional = question("note", "Note", false);
    assert_eq!(answer_step(&optional, "", ""), AnswerStep::Skip);
}

#[test]
fn answers_are_checked_against_patterns_and_choices() {
    let mut url = question("api_url", "API URL", true);
    url.pattern = Some(r"^https?://\S+".to_string());
    assert_eq!(
        answer_step(&url, "ftp://x", "ftp://x"),
        AnswerStep::AskAgain(r"  Invalid format. Expected pattern: ^https?://\S+".to_string())
    );
    assert_eq!(
        answer_step(&url, "https://example.com", "https://example.com"),
        AnswerStep::Answer(JsonItem::Str("https://example.com".to_string()))
    );

    let mut mode = question("mode", "Mode", true);
    mode.kind = QuestionKind::Enum;
    mode.choices = Some(vec!["polling".to_string(), "webhook".to_string()]);
    assert_eq!(
        answer_step(&mode, "2", "2"),
        AnswerStep::Answer(JsonItem::Str("webhook".to_string()))
    );
    assert_eq!(
        answer_step(&mode, "polling", "polling"),
        AnswerStep::Answer(JsonItem::Str("polling".to_string()))
    );
    assert_eq!(
        answer_step(&mode, "3", "3"),
        AnswerStep::AskAgain("  Invalid choice. Options: polling, webhook".to_string())
    );
}

#[test]
fn number_answers_that_are_not_integers_are_read_as_floats() {
    let mut q = question("ratio", "Ratio", false);
    q.kind = QuestionKind::Number;
    assert_eq!(answer_step(&q, "0.5", "0.5"), AnswerStep::ReadFloat("0.5".to_string()));
    assert_eq!(answer_step(&q, "-3", "-3"), AnswerStep::Answer(JsonItem::Number("-3".to_string())));
    let mut flag = question("enabled", "Enabled", false);
    flag.kind = QuestionKind::Boolean;
    assert_eq!(answer_step(&flag, "Yes", "Yes"), AnswerStep::Answer(JsonItem::Bool(true)));
}
