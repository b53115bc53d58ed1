//! How the session and state stores write through their providers: the
//! keys they write under, the revision a session record gets, and what each
//! compare-and-set attempt leads to.
use vstd::prelude::*;

use crate::runtime_core::ScopedStateKey;
use crate::runtime_store::{sanitize_state_key, sanitized_key};
use crate::session_index::{context_team, TenantContext};
use crate::static_routes::opt_view;
use crate::text::{chars_of, extend_chars, string_of};

verus! {

/// How many compare-and-set attempts a write makes before it gives up.
pub const CAS_RETRY_LIMIT: usize = 3;

/// The kind of a store failure.
#[derive(Clone, Copy, Debug, PartialEq, Eq, Structural)]
pub enum StoreErrorCode {
    NotFound,
    Internal,
}

/// A store failure: its kind and message.
#[derive(Debug, PartialEq, Eq)]
pub struct StoreError {
    pub code: StoreErrorCode,
    pub message: String,
}

/// What one compare-and-set attempt leads to.
#[derive(Debug, PartialEq, Eq)]
pub enum WriteAttempt {
    /// The value was written.
    Done,
    /// Another writer came first: read again and retry.
    Retry,
    /// The provider cannot compare: write the value without comparing.
    PutWithoutCompare,
    /// The write fails.
    Failed(StoreError),
}

/// The revision a session record gets when written over a record with the
/// given revision (1 for a new record; the count stops at its maximum).
pub open spec fn next_revision(existing: Option<u64>) -> u64 {
    match existing {
        Some(r) => if r == u64::MAX {
            r
        } else {
            (r + 1) as u64
        },
        None => 1,
    }
}

/// The revision of the record that replaces `existing`.
pub fn next_record_revision(existing: Option<u64>) -> (r: u64)
    ensures
        r == next_revision(existing),
{
    match existing {
        Some(r) => r.saturating_add(1),
        None => 1,
    }
}

/// The message of a session that is not there.
pub open spec fn session_missing_message(session_id: Seq<char>) -> Seq<char> {
    "session "@ + session_id + " not found"@
}

/// The message of a session update that kept losing the race.
pub open spec fn session_retry_message(session_id: Seq<char>) -> Seq<char> {
    "session compare-and-set retry limit exceeded for "@ + session_id
}

/// What attempt number `attempt` (from 0) of a session update leads to,
/// given whether the provider still had the record and whether the
/// compare-and-set on its revision went through.
pub fn session_update_attempt(attempt: usize, session_id: &str, found: bool, swapped: bool) -> (r:
    WriteAttempt)
    requires
        attempt < CAS_RETRY_LIMIT,
    ensures
        !found ==> (r matches WriteAttempt::Failed(e) && e.code == StoreErrorCode::NotFound
            && e.message@ == session_missing_message(session_id@)),
        found && swapped ==> r == WriteAttempt::Done,
        found && !swapped && attempt + 1 == CAS_RETRY_LIMIT ==> (r matches WriteAttempt::Failed(e)
            && e.code == StoreErrorCode::Internal && e.message@ == session_retry_message(
            session_id@,
        )),
        found && !swapped && attempt + 1 < CAS_RETRY_LIMIT ==> r == WriteAttempt::Retry,
{
    if !found {
        let mut m = chars_of("session ");
        extend_chars(&mut m, session_id);
        extend_chars(&mut m, " not found");
        return WriteAttempt::Failed(
            StoreError { code: StoreErrorCode::NotFound, message: string_of(m.as_slice()) },
        );
    }
    if swapped {
        WriteAttempt::Done
    } else if attempt + 1 == CAS_RETRY_LIMIT {
        let mut m = chars_of("session compare-and-set retry limit exceeded for ");
        extend_chars(&mut m, session_id);
        WriteAttempt::Failed(
            StoreError { code: StoreErrorCode::Internal, message: string_of(m.as_slice()) },
        )
    } else {
        WriteAttempt::Retry
    }
}

/// The message of a state write that kept losing the race.
pub open spec fn state_retry_message(key: ScopedStateKey) -> Seq<char> {
    "state compare-and-set retry limit exceeded for "@ + key.tenant@ + "/"@ + key.scope@ + "/"@
        + key.key@
}

/// What attempt number `attempt` (from 0) of a state write leads to, given
/// what the provider's compare-and-set answered: whether it wrote, or
/// `None` when it cannot compare.
pub fn state_write_attempt(attempt: usize, key: &ScopedStateKey, compared: Option<bool>) -> (r:
    WriteAttempt)
    requires
        attempt < CAS_RETRY_LIMIT,
    ensures
        compared == Some(true) ==> r == WriteAttempt::Done,
        compared is None ==> r == WriteAttempt::PutWithoutCompare,
        compared == Some(false) && attempt + 1 == CAS_RETRY_LIMIT ==> (r matches WriteAttempt::Failed(
            e,
        ) && e.code == StoreErrorCode::Internal && e.message@ == state_retry_message(*key)),
        compared == Some(false) && attempt + 1 < CAS_RETRY_LIMIT ==> r == WriteAttempt::Retry,
{
    match compared {
        Some(true) => WriteAttempt::Done,
        None => WriteAttempt::PutWithoutCompare,
        Some(false) => {
            if attempt + 1 == CAS_RETRY_LIMIT {
                let mut m = chars_of("state compare-and-set retry limit exceeded for ");
                extend_chars(&mut m, key.tenant.as_str());
                extend_chars(&mut m, "/");
                extend_chars(&mut m, key.scope.as_str());
                extend_chars(&mut m, "/");
                extend_chars(&mut m, key.key.as_str());
                WriteAttempt::Failed(
                    StoreError { code: StoreErrorCode::Internal, message: string_of(m.as_slice()) },
                )
            } else {
                WriteAttempt::Retry
            }
        },
    }
}

/// The key a state value of a context is kept under: the context's tenant
/// and team, the prefix as scope, and the key made safe as a file name.
pub fn state_scoped_key(ctx: &TenantContext, prefix: &str, key: &str) -> (r: ScopedStateKey)
    ensures
        r.tenant@ == ctx.tenant_id@,
        opt_view(r.team) == context_team(*ctx),
        r.scope@ == prefix@,
        r.key@ == sanitized_key(key@),
{
    let team = match &ctx.team_id {
        Some(t) => Some(t.clone()),
        None => match &ctx.team {
            Some(t) => Some(t.clone()),
            None => None,
        },
    };
    ScopedStateKey {
        tenant: ctx.tenant_id.clone(),
        team,
        scope: prefix.to_string(),
        key: sanitize_state_key(key),
    }
}

/// The time, in milliseconds since the Unix epoch, at which something that
/// lives `ttl_ms` from `now_ms` expires; nothing when that time does not fit
/// in 64 bits.
pub fn duration_deadline_unix_ms(now_ms: u128, ttl_ms: u128) -> (r: Option<u64>)
    ensures
        r == if now_ms + ttl_ms <= u64::MAX {
            Some((now_ms + ttl_ms) as u64)
        } else {
            None::<u64>
        },
{
    match now_ms.checked_add(ttl_ms) {
        Some(deadline) => if deadline <= 0xffff_ffff_ffff_ffffu128 {
            Some(deadline as u64)
        } else {
            None
        },
        None => None,
    }
}

} // verus!
