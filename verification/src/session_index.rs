//! What a session store keeps in memory beside its session provider: where
//! each session lives, each user's current session, the sessions each user
//! waits in, and the session waiting in each reply scope.
use vstd::prelude::*;

use crate::keyed_index::{
    copy_opt_text, keys_unique, lemma_lookup_entry, lemma_lookup_found, opt_text_eq, KeyText,
    KeyedIndex, LookupKey,
};
use crate::operations::new_uuid_v4_text;
use crate::runtime_core::SessionKey;
use crate::runtime_store::{decode_session_key, decoded_session_key, encode_session_key, encoded_session_key};
use crate::static_routes::opt_view;
use crate::text::text_eq;

verus! {

/// The tenant context of a session store call.
#[derive(Debug, PartialEq, Eq)]
pub struct TenantContext {
    pub tenant_id: String,
    pub team_id: Option<String>,
    pub team: Option<String>,
    pub user_id: Option<String>,
    pub user: Option<String>,
}

/// A context's team: its team id, else its team.
pub open spec fn context_team(ctx: TenantContext) -> Option<Seq<char>> {
    match ctx.team_id {
        Some(t) => Some(t@),
        None => opt_view(ctx.team),
    }
}

/// A context's user: its user id, else its user.
pub open spec fn context_user(ctx: TenantContext) -> Option<Seq<char>> {
    match ctx.user_id {
        Some(u) => Some(u@),
        None => opt_view(ctx.user),
    }
}

fn team_of(ctx: &TenantContext) -> (r: Option<String>)
    ensures
        opt_view(r) == context_team(*ctx),
{
    match &ctx.team_id {
        Some(t) => Some(t.clone()),
        None => copy_opt_text(&ctx.team),
    }
}

/// Where a reply is expected.
#[derive(Debug, PartialEq, Eq)]
pub struct ReplyScope {
    pub conversation: String,
    pub thread: Option<String>,
    pub reply_to: Option<String>,
    pub correlation: Option<String>,
}

/// A user within a tenant and team.
#[derive(Debug, PartialEq, Eq)]
pub struct UserLookupKey {
    pub tenant: String,
    pub team: Option<String>,
    pub user: String,
}

/// The texts of a user key.
pub open spec fn user_text(tenant: Seq<char>, team: Option<Seq<char>>, user: Seq<char>) -> KeyText {
    seq![Some(tenant), team, Some(user)]
}

/// The texts of a reply scope.
pub open spec fn scope_text(scope: ReplyScope) -> KeyText {
    seq![
        Some(scope.conversation@),
        opt_view(scope.thread),
        opt_view(scope.reply_to),
        opt_view(scope.correlation),
    ]
}

impl LookupKey for UserLookupKey {
    open spec fn key_view(&self) -> KeyText {
        user_text(self.tenant@, opt_view(self.team), self.user@)
    }

    fn same_key(&self, other: &Self) -> (r: bool) {
        let a = text_eq(self.tenant.as_str(), other.tenant.as_str());
        let b = opt_text_eq(&self.team, &other.team);
        let c = text_eq(self.user.as_str(), other.user.as_str());
        proof {
            let (x, y) = (self.key_view(), other.key_view());
            if !a {
                assert(x[0] != y[0]);
            } else if !b {
                assert(x[1] != y[1]);
            } else if !c {
                assert(x[2] != y[2]);
            } else {
                assert(x =~= y);
            }
        }
        a && b && c
    }

    fn copy_key(&self) -> (r: Self) {
        let r = UserLookupKey {
            tenant: self.tenant.clone(),
            team: copy_opt_text(&self.team),
            user: self.user.clone(),
        };
        proof {
            assert(r.key_view() =~= self.key_view());
        }
        r
    }
}

/// A user waiting for a reply in a reply scope.
#[derive(Debug, PartialEq, Eq)]
pub struct ScopeLookupKey {
    pub user: UserLookupKey,
    pub scope: ReplyScope,
}

impl LookupKey for ScopeLookupKey {
    open spec fn key_view(&self) -> KeyText {
        self.user.key_view() + scope_text(self.scope)
    }

    fn same_key(&self, other: &Self) -> (r: bool) {
        let u = self.user.same_key(&other.user);
        let a = text_eq(self.scope.conversation.as_str(), other.scope.conversation.as_str());
        let b = opt_text_eq(&self.scope.thread, &other.scope.thread);
        let c = opt_text_eq(&self.scope.reply_to, &other.scope.reply_to);
        let d = opt_text_eq(&self.scope.correlation, &other.scope.correlation);
        proof {
            let (x, y) = (self.key_view(), other.key_view());
            let (ux, uy) = (self.user.key_view(), other.user.key_view());
            if !u {
                let i = if ux[0] != uy[0] {
                    0int
                } else if ux[1] != uy[1] {
                    1int
                } else {
                    assert(ux[2] != uy[2]) by {
                        if ux[2] == uy[2] {
                            assert(ux =~= uy);
                        }
                    }
                    2int
                };
                assert(x[i] == ux[i] && y[i] == uy[i]);
            } else if !a {
                assert(x[3] != y[3]);
            } else if !b {
                assert(x[4] != y[4]);
            } else if !c {
                assert(x[5] != y[5]);
            } else if !d {
                assert(x[6] != y[6]);
            } else {
                assert(x =~= y);
            }
        }
        u && a && b && c && d
    }

    fn copy_key(&self) -> (r: Self) {
        let r = ScopeLookupKey {
            user: self.user.copy_key(),
            scope: copy_scope(&self.scope),
        };
        proof {
            assert(r.key_view() =~= self.key_view());
        }
        r
    }
}

/// A copy of a reply scope.
pub fn copy_scope(s: &ReplyScope) -> (r: ReplyScope)
    ensures
        scope_text(r) == scope_text(*s),
{
    let r = ReplyScope {
        conversation: s.conversation.clone(),
        thread: copy_opt_text(&s.thread),
        reply_to: copy_opt_text(&s.reply_to),
        correlation: copy_opt_text(&s.correlation),
    };
    proof {
        assert(scope_text(r) =~= scope_text(*s));
    }
    r
}

/// A user waiting in a session, named by the session's store key.
#[derive(Debug, PartialEq, Eq)]
pub struct WaitKey {
    pub user: UserLookupKey,
    pub session: String,
}

/// The texts of a wait: the user's, then the session's store key.
pub open spec fn wait_text(user: KeyText, session: Seq<char>) -> KeyText {
    user.push(Some(session))
}

impl LookupKey for WaitKey {
    open spec fn key_view(&self) -> KeyText {
        wait_text(self.user.key_view(), self.session@)
    }

    fn same_key(&self, other: &Self) -> (r: bool) {
        let u = self.user.same_key(&other.user);
        let s = text_eq(self.session.as_str(), other.session.as_str());
        proof {
            let (x, y) = (self.key_view(), other.key_view());
            let (ux, uy) = (self.user.key_view(), other.user.key_view());
            if !u {
                let i = if ux[0] != uy[0] {
                    0int
                } else if ux[1] != uy[1] {
                    1int
                } else {
                    assert(ux[2] != uy[2]) by {
                        if ux[2] == uy[2] {
                            assert(ux =~= uy);
                        }
                    }
                    2int
                };
                assert(x[i] == ux[i] && y[i] == uy[i]);
            } else if !s {
                assert(x[3] != y[3]);
            } else {
                assert(x =~= y);
            }
        }
        u && s
    }

    fn copy_key(&self) -> (r: Self) {
        let r = WaitKey { user: self.user.copy_key(), session: self.session.clone() };
        proof {
            assert(r.key_view() =~= self.key_view());
        }
        r
    }
}

/// The user key of a context and user.
pub fn session_user_lookup(ctx: &TenantContext, user: &str) -> (r: UserLookupKey)
    ensures
        r.key_view() == user_text(ctx.tenant_id@, context_team(*ctx), user@),
{
    UserLookupKey { tenant: ctx.tenant_id.clone(), team: team_of(ctx), user: user.to_string() }
}

/// The scope key of a context, user and reply scope.
pub fn session_scope_lookup(ctx: &TenantContext, user: &str, scope: &ReplyScope) -> (r:
    ScopeLookupKey)
    ensures
        r.key_view() == user_text(ctx.tenant_id@, context_team(*ctx), user@) + scope_text(*scope),
{
    ScopeLookupKey { user: session_user_lookup(ctx, user), scope: copy_scope(scope) }
}

/// The texts of a session key.
pub open spec fn session_key_text(k: SessionKey) -> (Seq<char>, Option<Seq<char>>, Seq<char>) {
    (k.tenant@, opt_view(k.team), k.session_id@)
}

/// A copy of a session key.
pub fn copy_session_key(k: &SessionKey) -> (r: SessionKey)
    ensures
        session_key_text(r) == session_key_text(*k),
{
    SessionKey {
        tenant: k.tenant.clone(),
        team: copy_opt_text(&k.team),
        session_id: k.session_id.clone(),
    }
}

/// How many entries each index held when they were cleared.
#[derive(Debug, PartialEq, Eq)]
pub struct RuntimeSessionIndexResetReport {
    pub session_locations: usize,
    pub user_sessions: usize,
    pub user_wait_entries: usize,
    pub scope_entries: usize,
}

/// The indexes of a session store.
pub struct SessionIndex {
    session_locations: KeyedIndex<String, SessionKey>,
    user_sessions: KeyedIndex<UserLookupKey, String>,
    user_waits: KeyedIndex<WaitKey, String>,
    scope_index: KeyedIndex<ScopeLookupKey, String>,
}

impl SessionIndex {
    /// The session key recorded for a store key.
    pub closed spec fn location(&self, store_key: Seq<char>) -> Option<SessionKey> {
        self.session_locations.lookup(seq![Some(store_key)])
    }

    /// The store key of a user's current session.
    pub closed spec fn user_session(&self, user: KeyText) -> Option<Seq<char>> {
        match self.user_sessions.lookup(user) {
            Some(k) => Some(k@),
            None => None,
        }
    }

    /// Whether a user waits in the session with this store key.
    pub closed spec fn waits_in(&self, user: KeyText, store_key: Seq<char>) -> bool {
        self.user_waits.lookup(wait_text(user, store_key)) is Some
    }

    /// The store key of the session waiting in a user's reply scope.
    pub closed spec fn scoped_wait(&self, scope: KeyText) -> Option<Seq<char>> {
        match self.scope_index.lookup(scope) {
            Some(k) => Some(k@),
            None => None,
        }
    }

    /// The number of store keys with a recorded location.
    pub closed spec fn location_count(&self) -> nat {
        self.session_locations.key_set().len()
    }

    /// The number of users with a current session.
    pub closed spec fn user_session_count(&self) -> nat {
        self.user_sessions.key_set().len()
    }

    /// The number of (user, session) waits.
    pub closed spec fn wait_count(&self) -> nat {
        self.user_waits.key_set().len()
    }

    /// The number of reply scopes with a waiting session.
    pub closed spec fn scope_count(&self) -> nat {
        self.scope_index.key_set().len()
    }

    /// Each wait is kept under its own session's store key.
    pub closed spec fn wf(&self) -> bool {
        forall|q: KeyText|
            #![trigger self.user_waits.lookup(q)]
            self.user_waits.lookup(q) is Some ==> q.len() > 0 && q.last() == Some(
                self.user_waits.lookup(q)->0@)
    }

    /// Indexes holding nothing.
    pub fn new() -> (r: Self)
        ensures
            r.wf(),
            forall|k: Seq<char>| #[trigger] r.location(k) is None,
            forall|u: KeyText| #[trigger] r.user_session(u) is None,
            forall|u: KeyText, k: Seq<char>| !#[trigger] r.waits_in(u, k),
            forall|s: KeyText| #[trigger] r.scoped_wait(s) is None,
    {
        SessionIndex {
            session_locations: KeyedIndex::new(),
            user_sessions: KeyedIndex::new(),
            user_waits: KeyedIndex::new(),
            scope_index: KeyedIndex::new(),
        }
    }

    /// Records where the session with this store key lives.
    pub fn register_runtime_key(&mut self, store_key: &str, runtime_key: &SessionKey)
        requires
            old(self).wf(),
        ensures
            final(self).wf(),
            final(self).location(store_key@) matches Some(k) && session_key_text(k)
                == session_key_text(*runtime_key),
            forall|k: Seq<char>|
                k != store_key@ ==> #[trigger] final(self).location(k) == old(self).location(k),
            forall|u: KeyText| #[trigger] final(self).user_session(u) == old(self).user_session(u),
            forall|u: KeyText, k: Seq<char>|
                #[trigger] final(self).waits_in(u, k) == old(self).waits_in(u, k),
            forall|s: KeyText| #[trigger] final(self).scoped_wait(s) == old(self).scoped_wait(s),
    {
        let key = store_key.to_string();
        let value = copy_session_key(runtime_key);
        self.session_locations.insert(key, value);
        proof {
            assert(final(self).location(store_key@) == Some(value));
            assert forall|k: Seq<char>| k != store_key@ implies #[trigger] final(self).location(k)
                == old(self).location(k) by {
                assert(seq![Some(k)][0] != seq![Some(store_key@)][0]);
            }
        }
    }

    /// The session key of a store key: the recorded one, else the one the
    /// store key's text names; `None` when neither gives one.
    pub fn runtime_key(&self, store_key: &str) -> (r: Option<SessionKey>)
        ensures
            match self.location(store_key@) {
                Some(k) => r matches Some(x) && session_key_text(x) == session_key_text(k),
                None => match r {
                    Some(x) => decoded_session_key(store_key@) == Some(session_key_text(x)),
                    None => decoded_session_key(store_key@) is None,
                },
            },
    {
        let key = store_key.to_string();
        match self.session_locations.get(&key) {
            Some(k) => Some(copy_session_key(k)),
            None => decode_session_key(store_key),
        }
    }

    /// Records a session the provider found: its store key, which is the
    /// text form of its session key, now leads to it.
    pub fn adopt_session(&mut self, runtime_key: &SessionKey) -> (r: String)
        requires
            old(self).wf(),
        ensures
            final(self).wf(),
            r@ == encoded_session_key(
                runtime_key.tenant@,
                opt_view(runtime_key.team),
                runtime_key.session_id@,
            ),
            final(self).location(r@) matches Some(k) && session_key_text(k) == session_key_text(
                *runtime_key,
            ),
            forall|k: Seq<char>|
                k != r@ ==> #[trigger] final(self).location(k) == old(self).location(k),
            forall|u: KeyText| #[trigger] final(self).user_session(u) == old(self).user_session(u),
            forall|u: KeyText, k: Seq<char>|
                #[trigger] final(self).waits_in(u, k) == old(self).waits_in(u, k),
            forall|s: KeyText| #[trigger] final(self).scoped_wait(s) == old(self).scoped_wait(s),
    {
        let store_key = encode_session_key(runtime_key);
        self.register_runtime_key(store_key.as_str(), runtime_key);
        store_key
    }

    /// Makes a session the current one of the context's user, when the
    /// context names a user.
    pub fn register_user_session(&mut self, ctx: &TenantContext, store_key: &str)
        requires
            old(self).wf(),
        ensures
            final(self).wf(),
            forall|k: Seq<char>| #[trigger] final(self).location(k) == old(self).location(k),
            forall|u: KeyText| #[trigger]
                final(self).user_session(u) == match context_user(*ctx) {
                    Some(user) => if u == user_text(ctx.tenant_id@, context_team(*ctx), user) {
                        Some(store_key@)
                    } else {
                        old(self).user_session(u)
                    },
                    None => old(self).user_session(u),
                },
            forall|u: KeyText, k: Seq<char>|
                #[trigger] final(self).waits_in(u, k) == old(self).waits_in(u, k),
            forall|s: KeyText| #[trigger] final(self).scoped_wait(s) == old(self).scoped_wait(s),
    {
        let user = match &ctx.user_id {
            Some(u) => Some(u.as_str()),
            None => match &ctx.user {
                Some(u) => Some(u.as_str()),
                None => None,
            },
        };
        if let Some(user) = user {
            let lookup = session_user_lookup(ctx, user);
            self.user_sessions.insert(lookup, store_key.to_string());
        }
    }

    /// Records a session the store just created for a context, under the
    /// given session id, and gives its store key.
    pub fn record_new_session(&mut self, ctx: &TenantContext, session_id: &str) -> (r: String)
        requires
            old(self).wf(),
        ensures
            final(self).wf(),
            r@ == encoded_session_key(ctx.tenant_id@, context_team(*ctx), session_id@),
            final(self).location(r@) matches Some(k) && session_key_text(k) == (
                ctx.tenant_id@,
                context_team(*ctx),
                session_id@,
            ),
            forall|k: Seq<char>|
                k != r@ ==> #[trigger] final(self).location(k) == old(self).location(k),
            forall|u: KeyText| #[trigger]
                final(self).user_session(u) == match context_user(*ctx) {
                    Some(user) => if u == user_text(ctx.tenant_id@, context_team(*ctx), user) {
                        Some(r@)
                    } else {
                        old(self).user_session(u)
                    },
                    None => old(self).user_session(u),
                },
            forall|u: KeyText, k: Seq<char>|
                #[trigger] final(self).waits_in(u, k) == old(self).waits_in(u, k),
            forall|s: KeyText| #[trigger] final(self).scoped_wait(s) == old(self).scoped_wait(s),
    {
        let runtime_key = SessionKey {
            tenant: ctx.tenant_id.clone(),
            team: team_of(ctx),
            session_id: session_id.to_string(),
        };
        let store_key = self.adopt_session(&runtime_key);
        self.register_user_session(ctx, store_key.as_str());
        store_key
    }

    /// Records a new session of a context under a fresh random session id
    /// and gives its store key.
    pub fn create_session(&mut self, ctx: &TenantContext) -> (r: String)
        requires
            old(self).wf(),
        ensures
            final(self).wf(),
            exists|id: Seq<char>|
                #![trigger encoded_session_key(ctx.tenant_id@, context_team(*ctx), id)]
                crate::operations::is_uuid_v4_text(id) && r@ == encoded_session_key(ctx.tenant_id@, context_team(*ctx), id)
                    && (final(self).location(r@) matches Some(k) && session_key_text(k) == (
                    ctx.tenant_id@,
                    context_team(*ctx),
                    id,
                )),
            forall|k: Seq<char>|
                k != r@ ==> #[trigger] final(self).location(k) == old(self).location(k),
            forall|u: KeyText| #[trigger]
                final(self).user_session(u) == match context_user(*ctx) {
                    Some(user) => if u == user_text(ctx.tenant_id@, context_team(*ctx), user) {
                        Some(r@)
                    } else {
                        old(self).user_session(u)
                    },
                    None => old(self).user_session(u),
                },
            forall|u: KeyText, k: Seq<char>|
                #[trigger] final(self).waits_in(u, k) == old(self).waits_in(u, k),
            forall|s: KeyText| #[trigger] final(self).scoped_wait(s) == old(self).scoped_wait(s),
    {
        let session_id = new_uuid_v4_text();
        self.record_new_session(ctx, session_id.as_str())
    }

    /// Records that `user` waits in the session `store_key` for a reply in
    /// `scope`: the session becomes the user's current one, one of the
    /// user's waits, and the one waiting in that scope.
    pub fn register_wait(
        &mut self,
        ctx: &TenantContext,
        user: &str,
        scope: &ReplyScope,
        store_key: &str,
    )
        requires
            old(self).wf(),
        ensures
            final(self).wf(),
            wait_registered(
                *old(self),
                *final(self),
                user_text(ctx.tenant_id@, context_team(*ctx), user@),
                scope_text(*scope),
                store_key@,
            ),
    {
        let ghost u = user_text(ctx.tenant_id@, context_team(*ctx), user@);
        let user_lookup = session_user_lookup(ctx, user);
        let wait = WaitKey { user: user_lookup.copy_key(), session: store_key.to_string() };
        let scope_lookup = session_scope_lookup(ctx, user, scope);
        self.user_sessions.insert(user_lookup, store_key.to_string());
        let ghost before_waits = self.user_waits;
        self.user_waits.insert(wait, store_key.to_string());
        self.scope_index.insert(scope_lookup, store_key.to_string());
        proof {
            assert forall|v: KeyText, k: Seq<char>| #[trigger]
                final(self).waits_in(v, k) == ((v == u && k == store_key@) || old(self).waits_in(v, k)) by {
                if wait_text(v, k) == wait_text(u, store_key@) {
                    assert(v =~= wait_text(v, k).drop_last());
                    assert(u =~= wait_text(u, store_key@).drop_last());
                    assert(wait_text(v, k).last() == Some(k));
                }
            }
            assert forall|q: KeyText| #![trigger self.user_waits.lookup(q)]
                self.user_waits.lookup(q) is Some implies q.len() > 0 && q.last() == Some(
                self.user_waits.lookup(q)->0@) by {
                if q != wait_text(u, store_key@) {
                    assert(self.user_waits.lookup(q) == before_waits.lookup(q));
                }
            }
        }
    }

    /// The session waiting in a user's reply scope, if the indexes know one.
    pub fn find_scoped_wait(&self, ctx: &TenantContext, user: &str, scope: &ReplyScope) -> (r:
        Option<String>)
        ensures
            match r {
                Some(k) => self.scoped_wait(
                    user_text(ctx.tenant_id@, context_team(*ctx), user@) + scope_text(*scope),
                ) == Some(k@),
                None => self.scoped_wait(
                    user_text(ctx.tenant_id@, context_team(*ctx), user@) + scope_text(*scope),
                ) is None,
            },
    {
        let lookup = session_scope_lookup(ctx, user, scope);
        match self.scope_index.get(&lookup) {
            Some(k) => Some(k.clone()),
            None => None,
        }
    }

    /// A user's current session, if the indexes know one.
    pub fn find_user_session(&self, ctx: &TenantContext, user: &str) -> (r: Option<String>)
        ensures
            match r {
                Some(k) => self.user_session(user_text(ctx.tenant_id@, context_team(*ctx), user@))
                    == Some(k@),
                None => self.user_session(
                    user_text(ctx.tenant_id@, context_team(*ctx), user@),
                ) is None,
            },
    {
        let lookup = session_user_lookup(ctx, user);
        match self.user_sessions.get(&lookup) {
            Some(k) => Some(k.clone()),
            None => None,
        }
    }

    /// The store keys of the sessions a user waits in, each once.
    pub fn waits_for_user(&self, ctx: &TenantContext, user: &str) -> (r: Vec<String>)
        requires
            self.wf(),
        ensures
            ({
                let u = user_text(ctx.tenant_id@, context_team(*ctx), user@);
                &&& forall|k: Seq<char>|
                    self.waits_in(u, k) <==> exists|i: int| 0 <= i < r@.len() && #[trigger] r@[i]@ == k
                &&& forall|i: int, j: int|
                    0 <= i < r@.len() && 0 <= j < r@.len() && i != j ==> #[trigger] r@[i]@
                        != #[trigger] r@[j]@
            }),
    {
        let ghost u = user_text(ctx.tenant_id@, context_team(*ctx), user@);
        let lookup = session_user_lookup(ctx, user);
        let ghost es = self.user_waits.entry_seq();
        let mut out: Vec<String> = Vec::new();
        let n = self.user_waits.len();
        let mut i: usize = 0;
        while i < n
            invariant
                n == es.len(),
                es == self.user_waits.entry_seq(),
                i <= n,
                lookup.key_view() == u,
                keys_unique(es),
                forall|q: KeyText|
                    #![trigger self.user_waits.lookup(q)]
                    self.user_waits.lookup(q) is Some ==> q.len() > 0 && q.last() == Some(
                self.user_waits.lookup(q)->0@),
                forall|a: int|
                    0 <= a < out@.len() ==> self.waits_in(u, #[trigger] out@[a]@),
                forall|j: int|
                    0 <= j < i && (#[trigger] es[j]).0.user.key_view() == u ==> exists|a: int|
                        0 <= a < out@.len() && out@[a]@ == es[j].1@,
                forall|a: int, b: int|
                    0 <= a < out@.len() && 0 <= b < out@.len() && a != b ==> #[trigger] out@[a]@
                        != #[trigger] out@[b]@,
                forall|a: int| 0 <= a < out@.len() ==> exists|j: int| 0 <= j < i && es[j].1@ == (#[trigger] out@[a])@ && es[j].0.user.key_view() == u,
            decreases n - i,
        {
            let e = self.user_waits.entry_at(i);
            let ghost before = out@;
            if e.0.user.same_key(&lookup) {
                proof {
                    lemma_lookup_entry(es, i as int);
                    let q = es[i as int].0.key_view();
                    assert(self.user_waits.lookup(q) == Some(es[i as int].1));
                    assert(q.last() == Some(es[i as int].0.session@));
                    assert(es[i as int].0.session@ == es[i as int].1@);
                    assert(q == wait_text(u, es[i as int].1@));
                    assert forall|a: int| 0 <= a < out@.len() implies out@[a]@ != es[i as int].1@ by {
                        let j = choose|j: int| 0 <= j < i && es[j].1@ == (#[trigger] out@[a])@ && es[j].0.user.key_view() == u;
                        if out@[a]@ == es[i as int].1@ {
                            lemma_lookup_entry(es, j);
                            let qj = es[j].0.key_view();
                            assert(self.user_waits.lookup(qj) == Some(es[j].1));
                            assert(qj.last() == Some(es[j].1@));
                            assert(qj =~= wait_text(u, es[j].1@));
                            assert(es[j].0.key_view() == es[i as int].0.key_view());
                        }
                    }
                }
                out.push(e.1.clone());
            }
            proof {
                assert forall|j: int|
                    0 <= j < i + 1 && (#[trigger] es[j]).0.user.key_view() == u implies exists|a: int|
                    0 <= a < out@.len() && out@[a]@ == es[j].1@ by {
                    if j == i {
                        assert(out@[out@.len() - 1]@ == es[j].1@);
                    } else {
                        let a = choose|a: int| 0 <= a < before.len() && before[a]@ == es[j].1@;
                        assert(out@[a] == before[a]);
                    }
                }
                assert forall|a: int| 0 <= a < out@.len() implies exists|j: int| 0 <= j < i + 1 && es[j].1@ == (#[trigger] out@[a])@ && es[j].0.user.key_view() == u by {
                    if a < before.len() {
                        assert(out@[a] == before[a]);
                        let j = choose|j: int| 0 <= j < i && es[j].1@ == (#[trigger] before[a])@ && es[j].0.user.key_view() == u;
                    } else {
                        assert(es[i as int].1@ == out@[a]@);
                    }
                }
            }
            i += 1;
        }
        proof {
            assert forall|k: Seq<char>|
                self.waits_in(u, k) implies exists|i: int| 0 <= i < out@.len() && #[trigger] out@[i]@ == k by {
                let q = wait_text(u, k);
                lemma_lookup_found(es, q);
                let j = choose|j: int|
                    0 <= j < es.len() && #[trigger] es[j].0.key_view() == q && crate::keyed_index::index_lookup(es, q)
                        == Some(es[j].1);
                assert(es[j].0.key_view() =~= wait_text(es[j].0.user.key_view(), es[j].0.session@));
                assert(es[j].0.user.key_view() =~= q.drop_last());
                assert(q.drop_last() =~= u);
                assert(q.last() == Some(es[j].1@));
                assert(q.last() == Some(k));
            }
        }
        out
    }

    /// Takes a user's wait in a reply scope out of the indexes: the scope no
    /// longer has a waiting session, and the user no longer waits in the
    /// session that was waiting there.
    pub fn clear_wait(&mut self, ctx: &TenantContext, user: &str, scope: &ReplyScope)
        requires
            old(self).wf(),
        ensures
            final(self).wf(),
            wait_cleared(
                *old(self),
                *final(self),
                user_text(ctx.tenant_id@, context_team(*ctx), user@),
                scope_text(*scope),
            ),
    {
        let ghost u = user_text(ctx.tenant_id@, context_team(*ctx), user@);
        let scope_lookup = session_scope_lookup(ctx, user, scope);
        let removed = self.scope_index.remove(&scope_lookup);
        if let Some(session_key) = removed {
            let wait = WaitKey { user: session_user_lookup(ctx, user), session: session_key };
            let ghost before_waits = self.user_waits;
            let ghost wk = wait.key_view();
            self.user_waits.remove(&wait);
            proof {
                assert forall|v: KeyText, k: Seq<char>| #[trigger]
                    final(self).waits_in(v, k) == (old(self).waits_in(v, k) && !(v == u
                        && old(self).scoped_wait(u + scope_text(*scope)) == Some(k))) by {
                    if wait_text(v, k) == wk {
                        assert(v =~= wait_text(v, k).drop_last());
                        assert(u =~= wk.drop_last());
                        assert(wait_text(v, k).last() == Some(k));
                    }
                }
            }
        }
    }

    /// Takes a session out of every index.
    pub fn forget_session(&mut self, store_key: &str)
        requires
            old(self).wf(),
        ensures
            final(self).wf(),
            session_forgotten(*old(self), *final(self), store_key@),
    {
        let key = store_key.to_string();
        self.session_locations.remove(&key);
        self.user_sessions.remove_value(store_key);
        let ghost before_waits = self.user_waits;
        self.user_waits.remove_value(store_key);
        self.scope_index.remove_value(store_key);
        proof {
            assert forall|k: Seq<char>| #[trigger] final(self).location(k) == if k == store_key@ {
                None
            } else {
                old(self).location(k)
            } by {
                if k != store_key@ {
                    assert(seq![Some(k)][0] != seq![Some(store_key@)][0]);
                }
            }
            assert forall|v: KeyText, k: Seq<char>| #[trigger]
                final(self).waits_in(v, k) == (old(self).waits_in(v, k) && k != store_key@) by {
                let q = wait_text(v, k);
                if let Some(x) = before_waits.lookup(q) {
                    assert(q.last() == Some(x@));
                    assert(q.last() == Some(k));
                }
            }
        }
    }

    /// Empties every index, reporting how many entries each held.
    pub fn reset(&mut self) -> (r: RuntimeSessionIndexResetReport)
        requires
            old(self).wf(),
        ensures
            final(self).wf(),
            r.session_locations == old(self).location_count(),
            r.user_sessions == old(self).user_session_count(),
            r.user_wait_entries == old(self).wait_count(),
            r.scope_entries == old(self).scope_count(),
            forall|k: Seq<char>| #[trigger] final(self).location(k) is None,
            forall|u: KeyText| #[trigger] final(self).user_session(u) is None,
            forall|u: KeyText, k: Seq<char>| !#[trigger] final(self).waits_in(u, k),
            forall|s: KeyText| #[trigger] final(self).scoped_wait(s) is None,
    {
        let report = RuntimeSessionIndexResetReport {
            session_locations: self.session_locations.key_count(),
            user_sessions: self.user_sessions.key_count(),
            user_wait_entries: self.user_waits.key_count(),
            scope_entries: self.scope_index.key_count(),
        };
        self.session_locations.clear();
        self.user_sessions.clear();
        self.user_waits.clear();
        self.scope_index.clear();
        report
    }
}

/// `after` is `before` once `user` waits in session `key` for a reply in
/// `scope`: the session is the user's current one, one of the user's waits
/// and the one waiting in that scope; nothing else changed.
pub open spec fn wait_registered(
    before: SessionIndex,
    after: SessionIndex,
    user: KeyText,
    scope: KeyText,
    key: Seq<char>,
) -> bool {
    &&& forall|k: Seq<char>| #[trigger] after.location(k) == before.location(k)
    &&& forall|v: KeyText| #[trigger]
        after.user_session(v) == if v == user {
            Some(key)
        } else {
            before.user_session(v)
        }
    &&& forall|v: KeyText, k: Seq<char>| #[trigger]
        after.waits_in(v, k) == ((v == user && k == key) || before.waits_in(v, k))
    &&& forall|s: KeyText| #[trigger]
        after.scoped_wait(s) == if s == user + scope {
            Some(key)
        } else {
            before.scoped_wait(s)
        }
}

/// `after` is `before` once the wait of `user` in `scope` is cleared: the
/// scope has no waiting session, and the user no longer waits in the session
/// that was waiting there; nothing else changed.
pub open spec fn wait_cleared(before: SessionIndex, after: SessionIndex, user: KeyText, scope: KeyText) -> bool {
    &&& forall|k: Seq<char>| #[trigger] after.location(k) == before.location(k)
    &&& forall|v: KeyText| #[trigger] after.user_session(v) == before.user_session(v)
    &&& forall|t: KeyText| #[trigger]
        after.scoped_wait(t) == if t == user + scope {
            None
        } else {
            before.scoped_wait(t)
        }
    &&& forall|v: KeyText, k: Seq<char>| #[trigger]
        after.waits_in(v, k) == (before.waits_in(v, k) && !(v == user && before.scoped_wait(
            user + scope,
        ) == Some(k)))
}

/// `after` is `before` with session `key` taken out of every index.
pub open spec fn session_forgotten(before: SessionIndex, after: SessionIndex, key: Seq<char>) -> bool {
    &&& forall|k: Seq<char>| #[trigger]
        after.location(k) == if k == key {
            None
        } else {
            before.location(k)
        }
    &&& forall|v: KeyText| #[trigger]
        after.user_session(v) == if before.user_session(v) == Some(key) {
            None
        } else {
            before.user_session(v)
        }
    &&& forall|v: KeyText, k: Seq<char>| #[trigger]
        after.waits_in(v, k) == (before.waits_in(v, k) && k != key)
    &&& forall|t: KeyText| #[trigger]
        after.scoped_wait(t) == if before.scoped_wait(t) == Some(key) {
            None
        } else {
            before.scoped_wait(t)
        }
}

/// Once a user waits in a session for a reply in a scope, looking up that
/// scope finds the session, the user's waits hold it and it is the user's
/// current session.
pub proof fn law_registered_wait_is_found(
    before: SessionIndex,
    after: SessionIndex,
    user: KeyText,
    scope: KeyText,
    key: Seq<char>,
)
    requires
        wait_registered(before, after, user, scope, key),
    ensures
        after.scoped_wait(user + scope) == Some(key),
        after.waits_in(user, key),
        after.user_session(user) == Some(key),
{
}

/// Clearing the wait just registered leaves the scope without a waiting
/// session and the user no longer waiting in that session, while the
/// session stays the user's current one.
pub proof fn law_cleared_wait_is_gone(
    before: SessionIndex,
    registered: SessionIndex,
    cleared: SessionIndex,
    user: KeyText,
    scope: KeyText,
    key: Seq<char>,
)
    requires
        wait_registered(before, registered, user, scope, key),
        wait_cleared(registered, cleared, user, scope),
    ensures
        cleared.scoped_wait(user + scope) is None,
        !cleared.waits_in(user, key),
        cleared.user_session(user) == Some(key),
{
    assert(registered.scoped_wait(user + scope) == Some(key));
    assert(registered.user_session(user) == Some(key));
}

/// A forgotten session is reachable from no index.
pub proof fn law_forgotten_session_is_unreachable(
    before: SessionIndex,
    after: SessionIndex,
    key: Seq<char>,
)
    requires
        session_forgotten(before, after, key),
    ensures
        after.location(key) is None,
        forall|v: KeyText| #[trigger] after.user_session(v) != Some(key),
        forall|v: KeyText| !#[trigger] after.waits_in(v, key),
        forall|t: KeyText| #[trigger] after.scoped_wait(t) != Some(key),
{
}

} // verus!
