use greentic_operator::runtime_core::ScopedStateKey;
use greentic_operator::session_index::{ReplyScope, SessionIndex, TenantContext};
use greentic_operator::store_updates::{
    duration_deadline_unix_ms, next_record_revision, session_update_attempt, state_scoped_key, state_write_attempt,
    StoreErrorCode, WriteAttempt, CAS_RETRY_LIMIT,
};

fn tenant() -> TenantContext {
    TenantContext {
        tenant_id: "tenant-a".to_string(),
        team_id: Some("team-a".to_string()),
        team: None,
        user_id: Some("user-a".to_string()),
        user: None,
    }
}

fn scope() -> ReplyScope {
    ReplyScope {
        conversation: "conv-1".to_string(),
        thread: Some("thread-1".to_string()),
        reply_to: None,
        correlation: None,
    }
}

#[test]
fn session_index_supports_lookup_and_waits() {
    let ctx = tenant();
    let mut index = SessionIndex::new();
    let key = index.record_new_session(&ctx, "s-1");
    assert_eq!(key, "rt::tenant-a::team-a::s-1");
    let runtime_key = index.runtime_key(&key).expect("known session");
    assert_eq!(runtime_key.tenant, "tenant-a");
    assert_eq!(runtime_key.team.as_deref(), Some("team-a"));
    assert_eq!(runtime_key.session_id, "s-1");
    assert_eq!(index.find_user_session(&ctx, "user-a"), Some(key.clone()));

    index.register_wait(&ctx, "user-a", &scope(), &key);
    assert_eq!(index.find_scoped_wait(&ctx, "user-a", &scope()), Some(key.clone()));
    assert_eq!(index.waits_for_user(&ctx, "user-a"), vec![key.clone()]);
    assert_eq!(index.find_user_session(&ctx, "user-a"), Some(key.clone()));

    let other_scope = ReplyScope { thread: None, ..scope() };
    assert_eq!(index.find_scoped_wait(&ctx, "user-a", &other_scope), None);
    assert_eq!(index.find_scoped_wait(&ctx, "user-b", &scope()), None);
}

#[test]
fn session_index_reset_reports_and_clears_entries() {
    let ctx = tenant();
    let mut index = SessionIndex::new();
    let key = index.record_new_session(&ctx, "s-1");
    index.register_wait(&ctx, "user-a", &scope(), &key);

    let report = index.reset();
    assert_eq!(report.session_locations, 1);
    assert_eq!(report.user_sessions, 1);
    assert_eq!(report.user_wait_entries, 1);
    assert_eq!(report.scope_entries, 1);

    assert_eq!(index.find_scoped_wait(&ctx, "user-a", &scope()), None);
    assert_eq!(index.find_user_session(&ctx, "user-a"), None);
    assert!(index.waits_for_user(&ctx, "user-a").is_empty());
    let recovered = index.runtime_key(&key).expect("store key still names the session");
    assert_eq!(recovered.session_id, "s-1");
    assert!(index.runtime_key("not-a-store-key").is_none());
}

#[test]
fn session_index_clears_waits_and_forgets_sessions() {
    let ctx = tenant();
    let mut index = SessionIndex::new();
    let first = index.record_new_session(&ctx, "s-1");
    let second = index.record_new_session(&ctx, "s-2");
    index.register_wait(&ctx, "user-a", &scope(), &first);
    let other_scope = ReplyScope { conversation: "conv-2".to_string(), ..scope() };
    index.register_wait(&ctx, "user-a", &other_scope, &second);
    let mut waits = index.waits_for_user(&ctx, "user-a");
    waits.sort();
    assert_eq!(waits, vec![first.clone(), second.clone()]);

    index.clear_wait(&ctx, "user-a", &scope());
    assert_eq!(index.find_scoped_wait(&ctx, "user-a", &scope()), None);
    assert_eq!(index.waits_for_user(&ctx, "user-a"), vec![second.clone()]);
    assert_eq!(index.find_user_session(&ctx, "user-a"), Some(second.clone()));

    index.forget_session(&second);
    assert_eq!(index.find_scoped_wait(&ctx, "user-a", &other_scope), None);
    assert!(index.waits_for_user(&ctx, "user-a").is_empty());
    assert_eq!(index.find_user_session(&ctx, "user-a"), None);
    let decoded = index.runtime_key(&second).expect("decoded from its text");
    assert_eq!(decoded.session_id, "s-2");

    let report = index.reset();
    assert_eq!(report.session_locations, 1);
    assert_eq!(report.user_sessions, 0);
    assert_eq!(report.user_wait_entries, 0);
    assert_eq!(report.scope_entries, 0);
}

#[test]
fn session_index_uses_team_and_user_fallbacks() {
    let ctx = TenantContext {
        tenant_id: "tenant-b".to_string(),
        team_id: None,
        team: Some("ops".to_string()),
        user_id: None,
        user: Some("bob".to_string()),
    };
    let mut index = SessionIndex::new();
    let key = index.record_new_session(&ctx, "abc");
    assert_eq!(key, "rt::tenant-b::ops::abc");
    assert_eq!(index.find_user_session(&ctx, "bob"), Some(key));

    let anonymous = TenantContext {
        tenant_id: "tenant-c".to_string(),
        team_id: None,
        team: None,
        user_id: None,
        user: None,
    };
    let key = index.record_new_session(&anonymous, "xyz");
    assert_eq!(key, "rt::tenant-c::_::xyz");
    assert_eq!(index.runtime_key(&key).expect("session").team, None);
}

#[test]
fn created_sessions_get_random_ids() {
    let ctx = tenant();
    let mut index = SessionIndex::new();
    let a = index.create_session(&ctx);
    let b = index.create_session(&ctx);
    assert!(a.starts_with("rt::tenant-a::team-a::"));
    assert_eq!(a.len(), "rt::tenant-a::team-a::".len() + 36);
    assert_ne!(a, b);
    assert_eq!(index.find_user_session(&ctx, "user-a"), Some(b));
}

#[test]
fn record_revisions_count_up_and_saturate() {
    assert_eq!(next_record_revision(None), 1);
    assert_eq!(next_record_revision(Some(4)), 5);
    assert_eq!(next_record_revision(Some(u64::MAX)), u64::MAX);
}

#[test]
fn session_updates_retry_until_the_limit() {
    assert_eq!(session_update_attempt(0, "s-1", true, true), WriteAttempt::Done);
    assert_eq!(session_update_attempt(0, "s-1", true, false), WriteAttempt::Retry);
    match session_update_attempt(CAS_RETRY_LIMIT - 1, "s-1", true, false) {
        WriteAttempt::Failed(e) => {
            assert_eq!(e.code, StoreErrorCode::Internal);
            assert_eq!(e.message, "session compare-and-set retry limit exceeded for s-1");
        }
        other => panic!("unexpected {other:?}"),
    }
    match session_update_attempt(1, "s-9", false, false) {
        WriteAttempt::Failed(e) => {
            assert_eq!(e.code, StoreErrorCode::NotFound);
            assert_eq!(e.message, "session s-9 not found");
        }
        other => panic!("unexpected {other:?}"),
    }
}

#[test]
fn state_writes_fall_back_and_retry() {
    let ctx = tenant();
    let key = state_scoped_key(&ctx, "flow", "a/b:c#d");
    assert_eq!(
        key,
        ScopedStateKey {
            tenant: "tenant-a".to_string(),
            team: Some("team-a".to_string()),
            scope: "flow".to_string(),
            key: "a_b_c_d".to_string(),
        }
    );
    assert_eq!(state_write_attempt(0, &key, Some(true)), WriteAttempt::Done);
    assert_eq!(state_write_attempt(0, &key, None), WriteAttempt::PutWithoutCompare);
    assert_eq!(state_write_attempt(1, &key, Some(false)), WriteAttempt::Retry);
    match state_write_attempt(2, &key, Some(false)) {
        WriteAttempt::Failed(e) => {
            assert_eq!(e.code, StoreErrorCode::Internal);
            assert_eq!(
                e.message,
                "state compare-and-set retry limit exceeded for tenant-a/flow/a_b_c_d"
            );
        }
        other => panic!("unexpected {other:?}"),
    }
}

#[test]
fn deadlines_add_ttl_and_refuse_overflow() {
    assert_eq!(duration_deadline_unix_ms(1_000, 500), Some(1_500));
    assert_eq!(duration_deadline_unix_ms(u64::MAX as u128, 0), Some(u64::MAX));
    assert_eq!(duration_deadline_unix_ms(u64::MAX as u128, 1), None);
    assert_eq!(duration_deadline_unix_ms(u128::MAX, 1), None);
}
