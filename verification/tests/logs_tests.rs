use greentic_operator::logs::{choose_log_path, last_lines, log_candidates, tenant_log_file};
use greentic_operator::text::lines_of;

#[test]
fn log_candidates_prefer_the_service_log() {
    assert_eq!(
        log_candidates("/var/log/demo", "messaging", "demo"),
        vec![
            "/var/log/demo/messaging.log".to_string(),
            "/var/log/demo/messaging-demo.log".to_string(),
            "/var/log/demo/messaging.demo.log".to_string(),
        ]
    );
}

#[test]
fn tenant_log_file_is_under_tenant_and_team() {
    assert_eq!(
        tenant_log_file("/logs", "messaging", "demo", "default"),
        "/logs/demo.default/messaging.log"
    );
}

#[test]
fn choose_log_path_takes_first_existing_candidate() {
    let candidates = log_candidates("/logs", "messaging", "demo");
    assert_eq!(
        choose_log_path(&candidates, &vec![true, true, false], "/logs/demo.default/messaging.log"),
        "/logs/messaging.log"
    );
    assert_eq!(
        choose_log_path(&candidates, &vec![false, false, true], "/logs/demo.default/messaging.log"),
        "/logs/messaging.demo.log"
    );
    assert_eq!(
        choose_log_path(&candidates, &vec![false, false, false], "/logs/demo.default/messaging.log"),
        "/logs/demo.default/messaging.log"
    );
}

#[test]
fn lines_follow_str_lines() {
    for text in ["", "a", "a\n", "a\r\nb", "a\n\nb\n", "x\r", "\n", "a\rb\r\n"] {
        let expected: Vec<String> = text.lines().map(str::to_string).collect();
        assert_eq!(lines_of(text), expected, "lines of {text:?}");
    }
}

#[test]
fn last_lines_keeps_the_tail() {
    assert_eq!(last_lines("one\ntwo\nthree\n", 2), "two\nthree");
    assert_eq!(last_lines("one\r\ntwo", 5), "one\ntwo");
    assert_eq!(last_lines("one\ntwo", 0), "");
    assert_eq!(last_lines("", 3), "");
}
