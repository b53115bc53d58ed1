use greentic_operator::host::{
    evaluate_token_validation_output, extract_bearer_token, needs_secret_context,
    operation_event_metadata, parse_bearer_value, payload_preview, token_validation_request,
    value_at, JsonItem, OperationStatus, TokenValidationDecision,
};

fn s(v: &str) -> JsonItem {
    JsonItem::Str(v.to_string())
}

fn obj(members: Vec<(&str, JsonItem)>) -> JsonItem {
    JsonItem::Object(members.into_iter().map(|(k, v)| (k.to_string(), v)).collect())
}

fn str_at<'a>(value: &'a JsonItem, path: &[&str]) -> Option<&'a str> {
    match value_at(value, path) {
        Some(JsonItem::Str(text)) => Some(text.as_str()),
        _ => None,
    }
}

fn str_in_array_at<'a>(value: &'a JsonItem, path: &[&str], index: usize) -> Option<&'a str> {
    match value_at(value, path) {
        Some(JsonItem::Array(items)) => match items.get(index) {
            Some(JsonItem::Str(text)) => Some(text.as_str()),
            _ => None,
        },
        _ => None,
    }
}

#[test]
fn token_validation_request_extracts_bearer_and_requirements() {
    let payload = obj(vec![
        ("headers", obj(vec![("Authorization", s("Bearer token-123"))])),
        (
            "token_validation",
            obj(vec![
                ("issuer", s("https://issuer.example")),
                ("audience", JsonItem::Array(vec![s("api://svc")])),
                ("required_scopes", s("read write")),
            ]),
        ),
    ]);
    let request = token_validation_request(&payload).expect("request");
    assert_eq!(str_at(&request, &["token"]), Some("token-123"));
    assert_eq!(str_at(&request, &["issuer"]), Some("https://issuer.example"));
    assert_eq!(str_in_array_at(&request, &["audience"], 0), Some("api://svc"));
    assert_eq!(str_in_array_at(&request, &["scopes"], 0), Some("read"));
    assert_eq!(str_in_array_at(&request, &["scopes"], 1), Some("write"));
}

#[test]
fn token_validation_output_deny_when_invalid() {
    let output = obj(vec![
        ("valid", JsonItem::Bool(false)),
        ("reason", s("issuer mismatch")),
    ]);
    match evaluate_token_validation_output(&output) {
        TokenValidationDecision::Deny(reason) => {
            assert_eq!(reason, "issuer mismatch");
        }
        TokenValidationDecision::Allow(_) => panic!("expected deny"),
    }
}

#[test]
fn token_validation_output_allows_and_returns_claims() {
    let output = obj(vec![
        ("valid", JsonItem::Bool(true)),
        (
            "claims",
            obj(vec![
                ("sub", s("user-1")),
                ("scope", s("read write")),
                ("aud", JsonItem::Array(vec![s("api://svc")])),
            ]),
        ),
    ]);
    match evaluate_token_validation_output(&output) {
        TokenValidationDecision::Allow(Some(claims)) => {
            assert_eq!(str_at(claims, &["sub"]), Some("user-1"));
        }
        TokenValidationDecision::Allow(None) => panic!("expected claims"),
        TokenValidationDecision::Deny(reason) => panic!("unexpected deny: {reason}"),
    }
}

#[test]
fn token_validation_answer_defaults() {
    match evaluate_token_validation_output(&obj(vec![("ok", JsonItem::Bool(false))])) {
        TokenValidationDecision::Deny(reason) => assert_eq!(reason, "invalid bearer token"),
        TokenValidationDecision::Allow(_) => panic!("expected deny"),
    }
    match evaluate_token_validation_output(&obj(vec![
        ("valid", JsonItem::Null),
        ("error", s("expired")),
    ])) {
        TokenValidationDecision::Deny(reason) => assert_eq!(reason, "expired"),
        TokenValidationDecision::Allow(_) => panic!("expected deny"),
    }
    let with_sub = obj(vec![("ok", JsonItem::Bool(true)), ("sub", s("user-2"))]);
    match evaluate_token_validation_output(&with_sub) {
        TokenValidationDecision::Allow(Some(claims)) => {
            assert_eq!(str_at(claims, &["sub"]), Some("user-2"))
        }
        _ => panic!("expected the answer itself as claims"),
    }
    match evaluate_token_validation_output(&obj(vec![("valid", JsonItem::Bool(true))])) {
        TokenValidationDecision::Allow(None) => {}
        _ => panic!("expected no claims"),
    }
}

#[test]
fn bearer_tokens_come_from_headers_and_fields() {
    assert_eq!(parse_bearer_value("  Bearer abc  "), Some("abc".to_string()));
    assert_eq!(parse_bearer_value("Bearer    "), Some("Bearer".to_string()));
    assert_eq!(parse_bearer_value("Bearer \t "), Some("Bearer".to_string()));
    assert_eq!(parse_bearer_value("   "), None);
    assert_eq!(parse_bearer_value("raw-token"), Some("raw-token".to_string()));
    let lower = obj(vec![("headers", obj(vec![("authorization", s("Bearer t1"))]))]);
    assert_eq!(extract_bearer_token(&lower), Some("t1".to_string()));
    assert!(token_validation_request(&obj(vec![("body", s("x"))])).is_none());
}

#[test]
fn payload_preview_text_binary_and_long() {
    assert_eq!(payload_preview(b""), "<empty>");
    assert_eq!(payload_preview(b"hello"), "hello");
    assert_eq!(payload_preview(&[0xff, 0xfe]), "//4=");
    let long = vec![b'a'; 300];
    let preview = payload_preview(&long);
    assert_eq!(preview.len(), 259);
    assert!(preview.ends_with("..."));
    assert!(preview.starts_with(&"a".repeat(256)));
}

#[test]
fn secret_errors_are_recognised() {
    assert!(needs_secret_context("Secret Store Error: missing"));
    assert!(needs_secret_context("wrapped SecretsError"));
    assert!(!needs_secret_context("secretserror in lower case"));
    assert!(!needs_secret_context("plain failure"));
}

#[test]
fn operation_metadata_by_status() {
    let (severity, outcome, codes) = operation_event_metadata("op.done", OperationStatus::Failed);
    assert_eq!(severity, "error");
    assert_eq!(outcome.as_deref(), Some("error"));
    assert_eq!(codes, vec!["op.done".to_string(), "status.err".to_string()]);
    let (severity, outcome, codes) = operation_event_metadata("op.done", OperationStatus::Denied);
    assert_eq!(severity, "warn");
    assert_eq!(outcome.as_deref(), Some("denied"));
    assert_eq!(codes, vec!["op.done".to_string(), "status.denied".to_string()]);
    let (severity, outcome, codes) = operation_event_metadata("op.done", OperationStatus::Succeeded);
    assert_eq!(severity, "info");
    assert_eq!(outcome.as_deref(), Some("ok"));
    assert_eq!(codes, vec!["op.done".to_string()]);
}
