use greentic_operator::state_promotion::{promotion_step, PromotionStep, RuntimeStatePromotionReport};

#[test]
fn promotion_steps_follow_destination_and_sessions_dir() {
    assert_eq!(promotion_step("/state/a/t/default/sessions/s1.json", true), PromotionStep::Skip);
    assert_eq!(
        promotion_step("/state/a/t/default/sessions/s1.json", false),
        PromotionStep::RewriteSession
    );
    assert_eq!(
        promotion_step("/state/a/t/default/provider-state/flow/k.json", false),
        PromotionStep::Copy
    );
    assert_eq!(promotion_step("/state/sessions-old/x.json", false), PromotionStep::Copy);
    assert_eq!(promotion_step("sessions", false), PromotionStep::RewriteSession);
}

#[test]
fn promotion_report_counts_copies_and_sessions() {
    let report = RuntimeStatePromotionReport::new("bundle-a", "bundle-b")
        .record(PromotionStep::Copy)
        .record(PromotionStep::Skip)
        .record(PromotionStep::RewriteSession);
    assert_eq!(report.copied_files(), 2);
    assert_eq!(report.rewritten_sessions(), 1);

    let nested = RuntimeStatePromotionReport::new("bundle-a", "bundle-b")
        .record(PromotionStep::RewriteSession);
    let total = report.absorb(&nested);
    assert_eq!(total.copied_files(), 3);
    assert_eq!(total.rewritten_sessions(), 2);
    assert_eq!(total.from_bundle_id(), "bundle-a");
    assert_eq!(total.to_bundle_id(), "bundle-b");
}
