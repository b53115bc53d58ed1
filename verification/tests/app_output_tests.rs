use greentic_operator::host::JsonItem;
use greentic_operator::messaging_app::{
    classify_app_output, last_transcript_outputs, transcript_outputs, AppFlowOutput,
};

fn s(v: &str) -> JsonItem {
    JsonItem::Str(v.to_string())
}

fn obj(members: Vec<(&str, JsonItem)>) -> JsonItem {
    JsonItem::Object(members.into_iter().map(|(k, v)| (k.to_string(), v)).collect())
}

#[test]
fn parse_envelopes_payload_text_fallback() {
    let output = obj(vec![
        ("control", obj(vec![("routing", s("out"))])),
        ("payload", obj(vec![("text", s("Echo: received your message"))])),
        ("state_updates", obj(vec![])),
    ]);
    assert_eq!(
        classify_app_output(&output),
        Ok(AppFlowOutput::Text("Echo: received your message".to_string()))
    );
}

#[test]
fn parse_envelopes_direct_text_fallback() {
    let output = obj(vec![("text", s("simple reply"))]);
    assert_eq!(
        classify_app_output(&output),
        Ok(AppFlowOutput::Text("simple reply".to_string()))
    );
}

#[test]
fn app_outputs_by_shape() {
    let list = JsonItem::Array(vec![obj(vec![("id", s("a"))])]);
    assert!(matches!(classify_app_output(&list), Ok(AppFlowOutput::Envelopes(v)) if v.len() == 1));
    let events = obj(vec![("events", JsonItem::Array(vec![]))]);
    assert!(matches!(classify_app_output(&events), Ok(AppFlowOutput::Envelopes(v)) if v.is_empty()));
    let message = obj(vec![("message", obj(vec![("id", s("m"))]))]);
    assert!(matches!(classify_app_output(&message), Ok(AppFlowOutput::Message(_))));
    let card = obj(vec![(
        "renderedCard",
        obj(vec![("body", JsonItem::Array(vec![obj(vec![("text", s("Welcome"))])]))]),
    )]);
    match classify_app_output(&card) {
        Ok(AppFlowOutput::Card { title, .. }) => assert_eq!(title, "Welcome"),
        other => panic!("unexpected {other:?}"),
    }
    let untitled = obj(vec![("renderedCard", obj(vec![]))]);
    match classify_app_output(&untitled) {
        Ok(AppFlowOutput::Card { title, .. }) => assert_eq!(title, "Adaptive Card"),
        other => panic!("unexpected {other:?}"),
    }
    assert_eq!(classify_app_output(&s("raw")), Ok(AppFlowOutput::Text("raw".to_string())));
    assert_eq!(
        classify_app_output(&obj(vec![("renderedCard", JsonItem::Null)])),
        Err("app flow output did not produce envelope(s)".to_string())
    );
}

#[test]
fn transcript_lines_pick_outputs() {
    let lines = vec![
        None,
        Some(obj(vec![("outputs", JsonItem::Null)])),
        Some(obj(vec![("node_id", s("intro")), ("outputs", s("first"))])),
        Some(obj(vec![("node_id", s("card-2")), ("outputs", s("second"))])),
        Some(obj(vec![("node_id", s("other")), ("outputs", s("third"))])),
    ];
    assert_eq!(transcript_outputs(&lines, None), Some(&s("first")));
    assert_eq!(transcript_outputs(&lines, Some("card-2")), Some(&s("second")));
    assert_eq!(transcript_outputs(&lines, Some("missing")), Some(&s("first")));
    assert_eq!(last_transcript_outputs(&lines), Some(&s("third")));
    assert_eq!(transcript_outputs(&vec![None], None), None);
}
