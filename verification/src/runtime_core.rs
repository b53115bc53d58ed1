//! The runtime capability registry and the wiring plan that selects
//! providers, hook chains and subscriptions from it.
use vstd::prelude::*;

use crate::assoc::{assoc_find, assoc_insert, keys_strictly_sorted, lookup};
use crate::domains::Domain;
use crate::seqs::{deref_seq, lemma_deref_push, lemma_filter_step, lemma_take_all};
use crate::sorting::{int_then, lemma_filter_sorted, lemma_text_then_total, lemma_text_then_trans, sort_by_key, sorted_by_key, stably_sorted_from, text_then, SortKey};
use crate::text::{texts_of, chars_of, extend_chars, lex_le, order_texts, string_of, text, text_eq, TextOrder};

verus! {

broadcast use vstd::seq_lib::group_to_multiset_ensures;

pub const CAP_SESSION_PROVIDER_V1: &'static str = "greentic.cap.session.provider.v1";

pub const CAP_STATE_PROVIDER_V1: &'static str = "greentic.cap.state.provider.v1";

pub const CAP_TELEMETRY_PROVIDER_V1: &'static str = "greentic.cap.telemetry.provider.v1";

pub const CONTRACT_SESSION_PROVIDER_V1: &'static str = "greentic.contract.session.v1";

pub const CONTRACT_STATE_PROVIDER_V1: &'static str = "greentic.contract.state.v1";

pub const CONTRACT_TELEMETRY_PROVIDER_V1: &'static str = "greentic.contract.telemetry.v1";

#[derive(Clone, Copy, Debug, PartialEq, Eq, Structural)]
pub enum RuntimeLifecycleState {
    Discovered,
    Wired,
    Active,
    Failed,
}

#[derive(Clone, Copy, Debug, PartialEq, Eq, Structural)]
pub enum RuntimeHealthStatus {
    Unknown,
    Available,
    Degraded,
    Unavailable,
}

#[derive(Debug, PartialEq, Eq)]
pub struct RuntimeHealth {
    pub status: RuntimeHealthStatus,
    pub reason: Option<String>,
}

impl Clone for RuntimeHealth {
    fn clone(&self) -> (r: Self)
        ensures
            r == *self,
    {
        RuntimeHealth { status: self.status, reason: self.reason.clone() }
    }
}

impl Default for RuntimeHealth {
    fn default() -> (r: Self)
        ensures
            r.status == RuntimeHealthStatus::Unknown,
            r.reason is None,
    {
        RuntimeHealth { status: RuntimeHealthStatus::Unknown, reason: None }
    }
}

/// The environments, tenants and teams an offer is limited to; an empty
/// list means no limit.
#[derive(Debug, Default, PartialEq, Eq)]
pub struct RuntimeScope {
    pub envs: Vec<String>,
    pub tenants: Vec<String>,
    pub teams: Vec<String>,
}

/// The scope a capability is resolved for.
#[derive(Debug, Default, PartialEq, Eq)]
pub struct ResolveScope {
    pub env: Option<String>,
    pub tenant: Option<String>,
    pub team: Option<String>,
}

#[derive(Debug, PartialEq, Eq)]
pub struct RuntimeCapabilityDescriptor {
    pub capability_id: String,
    pub contract_id: String,
    pub provider_pack: String,
    pub domain: Domain,
    pub pack_path: String,
    pub entrypoint: String,
    pub component_ref: String,
    pub priority: i32,
    pub scope: RuntimeScope,
    pub applies_to_ops: Vec<String>,
    pub lifecycle_state: RuntimeLifecycleState,
    pub health: RuntimeHealth,
    pub requires_setup: bool,
    pub setup_qa_ref: Option<String>,
    pub stable_id: String,
}

#[derive(Debug, PartialEq, Eq)]
pub struct RuntimeHookDescriptor {
    pub offer_key: String,
    pub provider_pack: String,
    pub pack_path: String,
    pub stage: String,
    pub contract_id: String,
    pub entrypoint: String,
    pub priority: i32,
    pub lifecycle_state: RuntimeLifecycleState,
    pub health: RuntimeHealth,
}

impl Clone for RuntimeHookDescriptor {
    fn clone(&self) -> (r: Self)
        ensures
            r == *self,
    {
        RuntimeHookDescriptor {
            offer_key: self.offer_key.clone(),
            provider_pack: self.provider_pack.clone(),
            pack_path: self.pack_path.clone(),
            stage: self.stage.clone(),
            contract_id: self.contract_id.clone(),
            entrypoint: self.entrypoint.clone(),
            priority: self.priority,
            lifecycle_state: self.lifecycle_state,
            health: self.health.clone(),
        }
    }
}

#[derive(Debug, PartialEq, Eq)]
pub struct RuntimeSubscriptionDescriptor {
    pub offer_key: String,
    pub provider_pack: String,
    pub pack_path: String,
    pub contract_id: String,
    pub entrypoint: String,
    pub priority: i32,
    pub lifecycle_state: RuntimeLifecycleState,
    pub health: RuntimeHealth,
}

impl Clone for RuntimeSubscriptionDescriptor {
    fn clone(&self) -> (r: Self)
        ensures
            r == *self,
    {
        RuntimeSubscriptionDescriptor {
            offer_key: self.offer_key.clone(),
            provider_pack: self.provider_pack.clone(),
            pack_path: self.pack_path.clone(),
            contract_id: self.contract_id.clone(),
            entrypoint: self.entrypoint.clone(),
            priority: self.priority,
            lifecycle_state: self.lifecycle_state,
            health: self.health.clone(),
        }
    }
}

#[derive(Debug, PartialEq, Eq)]
pub struct RuntimeProviderRequirement {
    pub role_id: String,
    pub capability_id: String,
    pub contract_id: String,
    pub required: bool,
}

#[derive(Debug, PartialEq, Eq)]
pub struct RuntimeSelectedProvider {
    pub role_id: String,
    pub capability_id: String,
    pub contract_id: String,
    pub provider_pack: String,
    pub pack_path: String,
    pub entrypoint: String,
    pub component_ref: String,
    pub stable_id: String,
}

/// A capability offer bound to the request that resolved it.
#[derive(Debug, PartialEq, Eq)]
pub struct CapabilityBinding {
    pub cap_id: String,
    pub stable_id: String,
    pub pack_id: String,
    pub domain: Domain,
    pub pack_path: String,
    pub provider_component_ref: String,
    pub provider_op: String,
    pub version: String,
    pub requires_setup: bool,
    pub setup_qa_ref: Option<String>,
}

/// The key of a runtime session.
#[derive(Debug, PartialEq, Eq)]
pub struct SessionKey {
    pub tenant: String,
    pub team: Option<String>,
    pub session_id: String,
}

/// The key of a value a provider keeps in runtime state.
#[derive(Debug, PartialEq, Eq)]
pub struct ScopedStateKey {
    pub tenant: String,
    pub team: Option<String>,
    pub scope: String,
    pub key: String,
}

/// What an admin authorization hook decided.
#[derive(Debug, PartialEq, Eq)]
pub enum AuthorizationDecision {
    Allow,
    Deny { reason: String },
}

/// An admin action submitted for authorization.
#[derive(Debug, PartialEq, Eq)]
pub struct AdminAction {
    pub action: String,
    pub actor: String,
    pub resource: Option<String>,
}

// ---------------------------------------------------------------------------
// Orders
// ---------------------------------------------------------------------------

/// Offers are kept by capability, then priority, then stable id.
impl SortKey for RuntimeCapabilityDescriptor {
    open spec fn key_le(self, other: Self) -> bool {
        text_then(
            self.capability_id@,
            other.capability_id@,
            int_then(
                self.priority as int,
                other.priority as int,
                lex_le(self.stable_id@, other.stable_id@),
            ),
        )
    }

    proof fn lemma_key_le_total(a: Self, b: Self) {
        crate::text::lemma_lex_total(a.stable_id@, b.stable_id@);
        lemma_text_then_total(
            a.capability_id@,
            b.capability_id@,
            int_then(a.priority as int, b.priority as int, lex_le(a.stable_id@, b.stable_id@)),
            int_then(b.priority as int, a.priority as int, lex_le(b.stable_id@, a.stable_id@)),
        );
    }

    proof fn lemma_key_le_trans(a: Self, b: Self, c: Self) {
        if lex_le(a.stable_id@, b.stable_id@) && lex_le(b.stable_id@, c.stable_id@) {
            crate::text::lemma_lex_trans(a.stable_id@, b.stable_id@, c.stable_id@);
        }
        lemma_text_then_trans(
            a.capability_id@,
            b.capability_id@,
            c.capability_id@,
            int_then(a.priority as int, b.priority as int, lex_le(a.stable_id@, b.stable_id@)),
            int_then(b.priority as int, c.priority as int, lex_le(b.stable_id@, c.stable_id@)),
            int_then(a.priority as int, c.priority as int, lex_le(a.stable_id@, c.stable_id@)),
        );
    }

    fn key_le_exec(&self, other: &Self) -> (r: bool) {
        match order_texts(self.capability_id.as_str(), other.capability_id.as_str()) {
            TextOrder::Before => true,
            TextOrder::After => false,
            TextOrder::Same => {
                if self.priority < other.priority {
                    true
                } else if self.priority > other.priority {
                    false
                } else {
                    crate::text::text_le(self.stable_id.as_str(), other.stable_id.as_str())
                }
            },
        }
    }
}

/// Hooks are kept by stage, then contract, then priority, then offer key.
impl SortKey for RuntimeHookDescriptor {
    open spec fn key_le(self, other: Self) -> bool {
        text_then(
            self.stage@,
            other.stage@,
            text_then(
                self.contract_id@,
                other.contract_id@,
                int_then(
                    self.priority as int,
                    other.priority as int,
                    lex_le(self.offer_key@, other.offer_key@),
                ),
            ),
        )
    }

    proof fn lemma_key_le_total(a: Self, b: Self) {
        crate::text::lemma_lex_total(a.offer_key@, b.offer_key@);
        let ab = int_then(a.priority as int, b.priority as int, lex_le(a.offer_key@, b.offer_key@));
        let ba = int_then(b.priority as int, a.priority as int, lex_le(b.offer_key@, a.offer_key@));
        lemma_text_then_total(a.contract_id@, b.contract_id@, ab, ba);
        lemma_text_then_total(
            a.stage@,
            b.stage@,
            text_then(a.contract_id@, b.contract_id@, ab),
            text_then(b.contract_id@, a.contract_id@, ba),
        );
    }

    proof fn lemma_key_le_trans(a: Self, b: Self, c: Self) {
        if lex_le(a.offer_key@, b.offer_key@) && lex_le(b.offer_key@, c.offer_key@) {
            crate::text::lemma_lex_trans(a.offer_key@, b.offer_key@, c.offer_key@);
        }
        let ab = int_then(a.priority as int, b.priority as int, lex_le(a.offer_key@, b.offer_key@));
        let bc = int_then(b.priority as int, c.priority as int, lex_le(b.offer_key@, c.offer_key@));
        let ac = int_then(a.priority as int, c.priority as int, lex_le(a.offer_key@, c.offer_key@));
        if a.stage@ == b.stage@ && b.stage@ == c.stage@ {
            if text_then(a.contract_id@, b.contract_id@, ab) && text_then(
                b.contract_id@,
                c.contract_id@,
                bc,
            ) {
                lemma_text_then_trans(a.contract_id@, b.contract_id@, c.contract_id@, ab, bc, ac);
            }
        }
        lemma_text_then_trans(
            a.stage@,
            b.stage@,
            c.stage@,
            text_then(a.contract_id@, b.contract_id@, ab),
            text_then(b.contract_id@, c.contract_id@, bc),
            text_then(a.contract_id@, c.contract_id@, ac),
        );
    }

    fn key_le_exec(&self, other: &Self) -> (r: bool) {
        match order_texts(self.stage.as_str(), other.stage.as_str()) {
            TextOrder::Before => true,
            TextOrder::After => false,
            TextOrder::Same => match order_texts(
                self.contract_id.as_str(),
                other.contract_id.as_str(),
            ) {
                TextOrder::Before => true,
                TextOrder::After => false,
                TextOrder::Same => {
                    if self.priority < other.priority {
                        true
                    } else if self.priority > other.priority {
                        false
                    } else {
                        crate::text::text_le(self.offer_key.as_str(), other.offer_key.as_str())
                    }
                },
            },
        }
    }
}

/// Subscriptions are kept by contract, then priority, then offer key.
impl SortKey for RuntimeSubscriptionDescriptor {
    open spec fn key_le(self, other: Self) -> bool {
        text_then(
            self.contract_id@,
            other.contract_id@,
            int_then(
                self.priority as int,
                other.priority as int,
                lex_le(self.offer_key@, other.offer_key@),
            ),
        )
    }

    proof fn lemma_key_le_total(a: Self, b: Self) {
        crate::text::lemma_lex_total(a.offer_key@, b.offer_key@);
        lemma_text_then_total(
            a.contract_id@,
            b.contract_id@,
            int_then(a.priority as int, b.priority as int, lex_le(a.offer_key@, b.offer_key@)),
            int_then(b.priority as int, a.priority as int, lex_le(b.offer_key@, a.offer_key@)),
        );
    }

    proof fn lemma_key_le_trans(a: Self, b: Self, c: Self) {
        if lex_le(a.offer_key@, b.offer_key@) && lex_le(b.offer_key@, c.offer_key@) {
            crate::text::lemma_lex_trans(a.offer_key@, b.offer_key@, c.offer_key@);
        }
        lemma_text_then_trans(
            a.contract_id@,
            b.contract_id@,
            c.contract_id@,
            int_then(a.priority as int, b.priority as int, lex_le(a.offer_key@, b.offer_key@)),
            int_then(b.priority as int, c.priority as int, lex_le(b.offer_key@, c.offer_key@)),
            int_then(a.priority as int, c.priority as int, lex_le(a.offer_key@, c.offer_key@)),
        );
    }

    fn key_le_exec(&self, other: &Self) -> (r: bool) {
        match order_texts(self.contract_id.as_str(), other.contract_id.as_str()) {
            TextOrder::Before => true,
            TextOrder::After => false,
            TextOrder::Same => {
                if self.priority < other.priority {
                    true
                } else if self.priority > other.priority {
                    false
                } else {
                    crate::text::text_le(self.offer_key.as_str(), other.offer_key.as_str())
                }
            },
        }
    }
}

/// `(p1, k1)` goes no later than `(p2, k2)`: the smaller priority number
/// first, equal priorities by key.
pub open spec fn priority_first(p1: int, k1: Seq<char>, p2: int, k2: Seq<char>) -> bool {
    p1 < p2 || (p1 == p2 && lex_le(k1, k2))
}

/// Offers of one capability run by ascending priority number, then stable id.
pub open spec fn capabilities_by_priority(cs: Seq<RuntimeCapabilityDescriptor>) -> bool {
    forall|i: int, j: int|
        0 <= i < j < cs.len() && #[trigger] cs[i].capability_id@ == #[trigger] cs[j].capability_id@
            ==> priority_first(cs[i].priority as int, cs[i].stable_id@, cs[j].priority as int, cs[j].stable_id@)
}

/// Hooks of one stage and contract run by ascending priority number, then
/// offer key: the hook with the smaller number runs first.
pub open spec fn hooks_by_priority(hs: Seq<RuntimeHookDescriptor>) -> bool {
    forall|i: int, j: int|
        0 <= i < j < hs.len() && #[trigger] hs[i].stage@ == #[trigger] hs[j].stage@
            && hs[i].contract_id@ == hs[j].contract_id@ ==> priority_first(
            hs[i].priority as int,
            hs[i].offer_key@,
            hs[j].priority as int,
            hs[j].offer_key@,
        )
}

/// Subscriptions of one contract run by ascending priority number, then
/// offer key.
pub open spec fn subscriptions_by_priority(ss: Seq<RuntimeSubscriptionDescriptor>) -> bool {
    forall|i: int, j: int|
        0 <= i < j < ss.len() && #[trigger] ss[i].contract_id@ == #[trigger] ss[j].contract_id@
            ==> priority_first(ss[i].priority as int, ss[i].offer_key@, ss[j].priority as int, ss[j].offer_key@)
}

/// Capability offers kept in registry order run, per capability, by
/// ascending priority number, ties by stable id.
pub proof fn law_capabilities_run_by_priority(cs: Seq<RuntimeCapabilityDescriptor>)
    requires
        sorted_by_key(cs),
    ensures
        capabilities_by_priority(cs),
{
    assert forall|i: int, j: int|
        0 <= i < j < cs.len() && #[trigger] cs[i].capability_id@ == #[trigger] cs[j].capability_id@
            implies priority_first(cs[i].priority as int, cs[i].stable_id@, cs[j].priority as int, cs[j].stable_id@) by {
        assert(cs[i].key_le(cs[j]));
    }
}

/// Hooks kept in registry order run, per stage and contract, by ascending
/// priority number (the smaller number first), ties by offer key.
pub proof fn law_hooks_run_by_priority(hs: Seq<RuntimeHookDescriptor>)
    requires
        sorted_by_key(hs),
    ensures
        hooks_by_priority(hs),
{
    assert forall|i: int, j: int|
        0 <= i < j < hs.len() && #[trigger] hs[i].stage@ == #[trigger] hs[j].stage@
            && hs[i].contract_id@ == hs[j].contract_id@ implies priority_first(
            hs[i].priority as int,
            hs[i].offer_key@,
            hs[j].priority as int,
            hs[j].offer_key@,
        ) by {
        assert(hs[i].key_le(hs[j]));
    }
}

/// Subscriptions kept in registry order run, per contract, by ascending
/// priority number, ties by offer key.
pub proof fn law_subscriptions_run_by_priority(ss: Seq<RuntimeSubscriptionDescriptor>)
    requires
        sorted_by_key(ss),
    ensures
        subscriptions_by_priority(ss),
{
    assert forall|i: int, j: int|
        0 <= i < j < ss.len() && #[trigger] ss[i].contract_id@ == #[trigger] ss[j].contract_id@
            implies priority_first(ss[i].priority as int, ss[i].offer_key@, ss[j].priority as int, ss[j].offer_key@) by {
        assert(ss[i].key_le(ss[j]));
    }
}

// ---------------------------------------------------------------------------
// Offers as declared by pack manifests
// ---------------------------------------------------------------------------

/// A capability offer as a pack manifest declares it.
#[derive(Debug, PartialEq, Eq)]
pub struct CapabilityOffer {
    pub cap_id: String,
    pub version: String,
    pub pack_id: String,
    pub domain: Domain,
    pub pack_path: String,
    pub provider_op: String,
    pub provider_component_ref: String,
    pub priority: i32,
    pub envs: Vec<String>,
    pub tenants: Vec<String>,
    pub teams: Vec<String>,
    pub applies_to_ops: Vec<String>,
    pub requires_setup: bool,
    pub setup_qa_ref: Option<String>,
    pub stable_id: String,
}

#[derive(Clone, Copy, Debug, PartialEq, Eq, Structural)]
pub enum OfferKind {
    Capability,
    Hook,
    Subs,
}

/// A hook, subscription or capability offer of a pack.
#[derive(Debug, PartialEq, Eq)]
pub struct PackOffer {
    pub offer_key: String,
    pub kind: OfferKind,
    pub pack_id: String,
    pub pack_ref: String,
    pub stage: Option<String>,
    pub contract: Option<String>,
    pub provider_op: String,
    pub priority: i32,
}

pub open spec fn descriptor_of(o: CapabilityOffer) -> RuntimeCapabilityDescriptor {
    RuntimeCapabilityDescriptor {
        capability_id: o.cap_id,
        contract_id: o.version,
        provider_pack: o.pack_id,
        domain: o.domain,
        pack_path: o.pack_path,
        entrypoint: o.provider_op,
        component_ref: o.provider_component_ref,
        priority: o.priority,
        scope: RuntimeScope { envs: o.envs, tenants: o.tenants, teams: o.teams },
        applies_to_ops: o.applies_to_ops,
        lifecycle_state: RuntimeLifecycleState::Discovered,
        health: RuntimeHealth { status: RuntimeHealthStatus::Unknown, reason: None },
        requires_setup: o.requires_setup,
        setup_qa_ref: o.setup_qa_ref,
        stable_id: o.stable_id,
    }
}

/// The hook an offer declares: a hook offer with both a stage and a contract.
pub open spec fn hook_of(o: PackOffer) -> Option<RuntimeHookDescriptor> {
    if o.kind == OfferKind::Hook && o.stage is Some && o.contract is Some {
        Some(
            RuntimeHookDescriptor {
                offer_key: o.offer_key,
                provider_pack: o.pack_id,
                pack_path: o.pack_ref,
                stage: o.stage->0,
                contract_id: o.contract->0,
                entrypoint: o.provider_op,
                priority: o.priority,
                lifecycle_state: RuntimeLifecycleState::Discovered,
                health: RuntimeHealth { status: RuntimeHealthStatus::Unknown, reason: None },
            },
        )
    } else {
        None
    }
}

/// Whether a subscription's contract, `<none>` when the offer names none, is `c`.
pub open spec fn subscription_contract_is(o: PackOffer, c: Seq<char>) -> bool {
    match o.contract {
        Some(x) => x@ == c,
        None => c == "<none>"@,
    }
}

/// The subscription an offer declares, if it is a subscription offer.
pub open spec fn subscription_of(o: PackOffer, contract: String) -> Option<
    RuntimeSubscriptionDescriptor,
> {
    if o.kind == OfferKind::Subs {
        Some(
            RuntimeSubscriptionDescriptor {
                offer_key: o.offer_key,
                provider_pack: o.pack_id,
                pack_path: o.pack_ref,
                contract_id: contract,
                entrypoint: o.provider_op,
                priority: o.priority,
                lifecycle_state: RuntimeLifecycleState::Discovered,
                health: RuntimeHealth { status: RuntimeHealthStatus::Unknown, reason: None },
            },
        )
    } else {
        None
    }
}

/// The hooks that a sequence of offers declares, in order.
pub open spec fn hooks_of(s: Seq<PackOffer>) -> Seq<RuntimeHookDescriptor>
    decreases s.len(),
{
    if s.len() == 0 {
        Seq::empty()
    } else {
        let rest = hooks_of(s.drop_last());
        match hook_of(s.last()) {
            Some(h) => rest.push(h),
            None => rest,
        }
    }
}

/// `d` is the subscription that `o` declares.
pub open spec fn declared_by(o: PackOffer, d: RuntimeSubscriptionDescriptor) -> bool {
    &&& o.offer_key == d.offer_key
    &&& subscription_of(o, d.contract_id) == Some(d)
    &&& subscription_contract_is(o, d.contract_id@)
}

/// `s` holds, position for position, the subscriptions the offers `src`
/// declare.
pub open spec fn declares_each(src: Seq<PackOffer>, s: Seq<RuntimeSubscriptionDescriptor>) -> bool {
    &&& s.len() == src.len()
    &&& forall|i: int| 0 <= i < s.len() ==> declared_by(#[trigger] src[i], s[i])
}

/// `d` is declared by one of the offers of `src`.
pub open spec fn declared_by_some(src: Seq<PackOffer>, d: RuntimeSubscriptionDescriptor) -> bool {
    exists|j: int| 0 <= j < src.len() && declared_by(#[trigger] src[j], d)
}

/// The subscription offers of a sequence, in order.
pub open spec fn subscription_offers(s: Seq<PackOffer>) -> Seq<PackOffer> {
    s.filter(|o: PackOffer| o.kind == OfferKind::Subs)
}

// ---------------------------------------------------------------------------
// The registry
// ---------------------------------------------------------------------------

/// Capabilities, hooks and subscriptions discovered in a bundle, each kept
/// in the order of its sort key (see the `SortKey` impls above).
#[derive(Debug)]
pub struct RuntimeCapabilityRegistry {
    capabilities: Vec<RuntimeCapabilityDescriptor>,
    hooks: Vec<RuntimeHookDescriptor>,
    subscriptions: Vec<RuntimeSubscriptionDescriptor>,
}

pub open spec fn cap_id_is(id: Seq<char>) -> spec_fn(RuntimeCapabilityDescriptor) -> bool {
    |d: RuntimeCapabilityDescriptor| d.capability_id@ == id
}

pub open spec fn hook_pair_is(stage: Seq<char>, contract: Seq<char>) -> spec_fn(
    RuntimeHookDescriptor,
) -> bool {
    |h: RuntimeHookDescriptor| h.stage@ == stage && h.contract_id@ == contract
}

pub open spec fn sub_contract_is(contract: Seq<char>) -> spec_fn(
    RuntimeSubscriptionDescriptor,
) -> bool {
    |s: RuntimeSubscriptionDescriptor| s.contract_id@ == contract
}

impl RuntimeCapabilityRegistry {
    /// The capability offers, in registry order.
    pub closed spec fn capability_seq(&self) -> Seq<RuntimeCapabilityDescriptor> {
        self.capabilities@
    }

    /// The hooks, in registry order.
    pub closed spec fn hook_seq(&self) -> Seq<RuntimeHookDescriptor> {
        self.hooks@
    }

    /// The subscriptions, in registry order.
    pub closed spec fn subscription_seq(&self) -> Seq<RuntimeSubscriptionDescriptor> {
        self.subscriptions@
    }

    #[verifier::type_invariant]
    closed spec fn well_ordered(&self) -> bool {
        &&& sorted_by_key(self.capabilities@)
        &&& sorted_by_key(self.hooks@)
        &&& sorted_by_key(self.subscriptions@)
    }

    /// A registry holding the given descriptors, each list put in key order.
    pub fn from_descriptors(
        capabilities: Vec<RuntimeCapabilityDescriptor>,
        hooks: Vec<RuntimeHookDescriptor>,
        subscriptions: Vec<RuntimeSubscriptionDescriptor>,
    ) -> (r: Self)
        ensures
            sorted_by_key(r.capability_seq()),
            r.capability_seq().to_multiset() == capabilities@.to_multiset(),
            stably_sorted_from(r.capability_seq(), capabilities@),
            sorted_by_key(r.hook_seq()),
            r.hook_seq().to_multiset() == hooks@.to_multiset(),
            stably_sorted_from(r.hook_seq(), hooks@),
            sorted_by_key(r.subscription_seq()),
            r.subscription_seq().to_multiset() == subscriptions@.to_multiset(),
            stably_sorted_from(r.subscription_seq(), subscriptions@),
            capabilities_by_priority(r.capability_seq()),
            hooks_by_priority(r.hook_seq()),
            subscriptions_by_priority(r.subscription_seq()),
    {
        let r = RuntimeCapabilityRegistry {
            capabilities: sort_by_key(capabilities),
            hooks: sort_by_key(hooks),
            subscriptions: sort_by_key(subscriptions),
        };
        proof {
            law_capabilities_run_by_priority(r.capabilities@);
            law_hooks_run_by_priority(r.hooks@);
            law_subscriptions_run_by_priority(r.subscriptions@);
        }
        r
    }

    /// The registry of a bundle's declared offers: every capability offer,
    /// every hook offer with a stage and a contract, and every subscription
    /// offer (under the contract `<none>` when it names none).
    pub fn discover(capability_offers: Vec<CapabilityOffer>, pack_offers: Vec<PackOffer>) -> (r:
        Self)
        ensures
            sorted_by_key(r.capability_seq()),
            r.capability_seq().to_multiset() == capability_offers@.map_values(
                |o: CapabilityOffer| descriptor_of(o),
            ).to_multiset(),
            stably_sorted_from(
                r.capability_seq(),
                capability_offers@.map_values(|o: CapabilityOffer| descriptor_of(o)),
            ),
            sorted_by_key(r.hook_seq()),
            r.hook_seq().to_multiset() == hooks_of(pack_offers@).to_multiset(),
            stably_sorted_from(r.hook_seq(), hooks_of(pack_offers@)),
            sorted_by_key(r.subscription_seq()),
            r.subscription_seq().len() == subscription_offers(pack_offers@).len(),
            forall|i: int|
                0 <= i < r.subscription_seq().len() ==> declared_by_some(
                    subscription_offers(pack_offers@),
                    #[trigger] r.subscription_seq()[i],
                ),
            exists|s: Seq<RuntimeSubscriptionDescriptor>|
                #[trigger] declares_each(subscription_offers(pack_offers@), s) && stably_sorted_from(
                    r.subscription_seq(),
                    s,
                ),
            capabilities_by_priority(r.capability_seq()),
            hooks_by_priority(r.hook_seq()),
            subscriptions_by_priority(r.subscription_seq()),
    {
        let ghost orig_caps = capability_offers@;
        let mut capability_offers = capability_offers;
        let mut caps: Vec<RuntimeCapabilityDescriptor> = Vec::new();
        let n = capability_offers.len();
        let mut k: usize = 0;
        while capability_offers.len() > 0
            invariant
                n == orig_caps.len(),
                k <= orig_caps.len(),
                capability_offers@ == orig_caps.skip(k as int),
                caps@ == orig_caps.take(k as int).map_values(|o: CapabilityOffer| descriptor_of(o)),
            decreases capability_offers@.len(),
        {
            let o = capability_offers.remove(0);
            proof {
                assert(o == orig_caps[k as int]);
            }
            let d = RuntimeCapabilityDescriptor {
                capability_id: o.cap_id,
                contract_id: o.version,
                provider_pack: o.pack_id,
                domain: o.domain,
                pack_path: o.pack_path,
                entrypoint: o.provider_op,
                component_ref: o.provider_component_ref,
                priority: o.priority,
                scope: RuntimeScope { envs: o.envs, tenants: o.tenants, teams: o.teams },
                applies_to_ops: o.applies_to_ops,
                lifecycle_state: RuntimeLifecycleState::Discovered,
                health: RuntimeHealth { status: RuntimeHealthStatus::Unknown, reason: None },
                requires_setup: o.requires_setup,
                setup_qa_ref: o.setup_qa_ref,
                stable_id: o.stable_id,
            };
            caps.push(d);
            k += 1;
            proof {
                assert(caps@ =~= orig_caps.take(k as int).map_values(
                    |o: CapabilityOffer| descriptor_of(o),
                ));
                assert(capability_offers@ =~= orig_caps.skip(k as int));
            }
        }
        proof {
            lemma_take_all(orig_caps);
        }
        let ghost orig_offers = pack_offers@;
        let mut pack_offers = pack_offers;
        let mut hooks: Vec<RuntimeHookDescriptor> = Vec::new();
        let mut subs: Vec<RuntimeSubscriptionDescriptor> = Vec::new();
        let ghost mut sub_src: Seq<PackOffer> = Seq::empty();
        let n = pack_offers.len();
        let mut k: usize = 0;
        proof {
            crate::seqs::lemma_filter_empty(|o: PackOffer| o.kind == OfferKind::Subs);
            assert(orig_offers.take(0) =~= Seq::<PackOffer>::empty());
        }
        while pack_offers.len() > 0
            invariant
                n == orig_offers.len(),
                k <= orig_offers.len(),
                pack_offers@ == orig_offers.skip(k as int),
                hooks@ == hooks_of(orig_offers.take(k as int)),
                sub_src == subscription_offers(orig_offers.take(k as int)),
                subs@.len() == sub_src.len(),
                forall|i: int|
                    0 <= i < subs@.len() ==> subscription_of(
                        #[trigger] sub_src[i],
                        subs@[i].contract_id,
                    ) == Some(subs@[i]) && sub_src[i].offer_key == subs@[i].offer_key
                        && subscription_contract_is(sub_src[i], subs@[i].contract_id@),
            decreases pack_offers@.len(),
        {
            let o = pack_offers.remove(0);
            proof {
                assert(o == orig_offers[k as int]);
                assert(orig_offers.take(k + 1).drop_last() =~= orig_offers.take(k as int));
                crate::seqs::lemma_filter_step(
                    orig_offers,
                    |o: PackOffer| o.kind == OfferKind::Subs,
                    k as int,
                );
            }
            let ghost og = o;
            match o.kind {
                OfferKind::Hook => {
                    if o.stage.is_some() && o.contract.is_some() {
                        let stage = o.stage.unwrap();
                        let contract_id = o.contract.unwrap();
                        hooks.push(
                            RuntimeHookDescriptor {
                                offer_key: o.offer_key,
                                provider_pack: o.pack_id,
                                pack_path: o.pack_ref,
                                stage,
                                contract_id,
                                entrypoint: o.provider_op,
                                priority: o.priority,
                                lifecycle_state: RuntimeLifecycleState::Discovered,
                                health: RuntimeHealth {
                                    status: RuntimeHealthStatus::Unknown,
                                    reason: None,
                                },
                            },
                        );
                    }
                },
                OfferKind::Subs => {
                    let contract_id = match o.contract {
                        Some(c) => c,
                        None => text("<none>"),
                    };
                    let d = RuntimeSubscriptionDescriptor {
                        offer_key: o.offer_key,
                        provider_pack: o.pack_id,
                        pack_path: o.pack_ref,
                        contract_id,
                        entrypoint: o.provider_op,
                        priority: o.priority,
                        lifecycle_state: RuntimeLifecycleState::Discovered,
                        health: RuntimeHealth { status: RuntimeHealthStatus::Unknown, reason: None },
                    };
                    proof {
                        sub_src = sub_src.push(og);
                    }
                    subs.push(d);
                },
                OfferKind::Capability => {},
            }
            k += 1;
            proof {
                assert(pack_offers@ =~= orig_offers.skip(k as int));
            }
        }
        proof {
            lemma_take_all(orig_offers);
        }
        let sorted_subs = sort_by_key(subs);
        proof {
            let ss = sorted_subs@;
            assert(orig_offers.take(k as int) == orig_offers);
            let src = subscription_offers(orig_offers);
            assert(sub_src == src);
            assert forall|i: int| 0 <= i < ss.len() implies declared_by_some(
                src,
                #[trigger] ss[i],
            ) by {
                assert(ss.contains(ss[i]));
                assert(ss.to_multiset().count(ss[i]) > 0);
                assert(subs@.to_multiset().count(ss[i]) > 0);
                assert(subs@.contains(ss[i]));
                let j = choose|j: int| 0 <= j < subs@.len() && subs@[j] == ss[i];
                assert(subscription_of(sub_src[j], subs@[j].contract_id) == Some(subs@[j]));
                assert(src[j] == sub_src[j]);
                assert(declared_by(src[j], ss[i]));
            }
            assert(ss.len() == ss.to_multiset().len());
            assert(subs@.len() == subs@.to_multiset().len());
            assert(declares_each(src, subs@));
        }
        let r = RuntimeCapabilityRegistry {
            capabilities: sort_by_key(caps),
            hooks: sort_by_key(hooks),
            subscriptions: sorted_subs,
        };
        proof {
            law_capabilities_run_by_priority(r.capabilities@);
            law_hooks_run_by_priority(r.hooks@);
            law_subscriptions_run_by_priority(r.subscriptions@);
        }
        r
    }
}

// ---------------------------------------------------------------------------
// Matching offers against a request
// ---------------------------------------------------------------------------

pub open spec fn opt_text(o: Option<&str>) -> Option<Seq<char>> {
    match o {
        Some(s) => Some(s@),
        None => None,
    }
}

pub open spec fn opt_string(o: Option<String>) -> Option<Seq<char>> {
    match o {
        Some(s) => Some(s@),
        None => None,
    }
}

/// No contract asked for, or the offer's contract is the one asked for.
pub open spec fn contract_ok(contract_id: Seq<char>, requested: Option<Seq<char>>) -> bool {
    match requested {
        None => true,
        Some(r) => contract_id == r,
    }
}

/// An empty list admits everything; otherwise the current value must be listed.
pub open spec fn value_ok(values: Seq<String>, current: Option<Seq<char>>) -> bool {
    values.len() == 0 || (current is Some && exists|i: int|
        0 <= i < values.len() && (#[trigger] values[i])@ == current->0)
}

pub open spec fn scope_ok(scope: RuntimeScope, requested: ResolveScope) -> bool {
    &&& value_ok(scope.envs@, opt_string(requested.env))
    &&& value_ok(scope.tenants@, opt_string(requested.tenant))
    &&& value_ok(scope.teams@, opt_string(requested.team))
}

/// No operation asked for, an offer for every operation, or the operation is listed.
pub open spec fn op_ok(ops: Seq<String>, requested: Option<Seq<char>>) -> bool {
    requested is None || ops.len() == 0 || exists|i: int|
        0 <= i < ops.len() && (#[trigger] ops[i])@ == requested->0
}

/// The offers of `capability_id` that serve the request.
pub open spec fn offer_applies(
    capability_id: Seq<char>,
    contract_id: Option<Seq<char>>,
    scope: ResolveScope,
    op: Option<Seq<char>>,
) -> spec_fn(RuntimeCapabilityDescriptor) -> bool {
    |d: RuntimeCapabilityDescriptor|
        d.capability_id@ == capability_id && contract_ok(d.contract_id@, contract_id) && scope_ok(
            d.scope,
            scope,
        ) && op_ok(d.applies_to_ops@, op)
}

/// The first operation an offer applies to, if any.
pub open spec fn first_op_of(d: RuntimeCapabilityDescriptor) -> Option<Seq<char>> {
    if d.applies_to_ops@.len() > 0 {
        Some(d.applies_to_ops@[0]@)
    } else {
        None
    }
}

/// An offer needs setup in a scope when it requires setup and resolving its
/// own capability, contract and first operation there selects it.
pub open spec fn needs_setup_in(
    caps: Seq<RuntimeCapabilityDescriptor>,
    scope: ResolveScope,
) -> spec_fn(RuntimeCapabilityDescriptor) -> bool {
    |d: RuntimeCapabilityDescriptor|
        d.requires_setup && {
            let m = caps.filter(
                offer_applies(d.capability_id@, Some(d.contract_id@), scope, first_op_of(d)),
            );
            m.len() > 0 && m[0].stable_id@ == d.stable_id@
        }
}

pub open spec fn binding_of(d: RuntimeCapabilityDescriptor) -> CapabilityBinding {
    CapabilityBinding {
        cap_id: d.capability_id,
        stable_id: d.stable_id,
        pack_id: d.provider_pack,
        domain: d.domain,
        pack_path: d.pack_path,
        provider_component_ref: d.component_ref,
        provider_op: d.entrypoint,
        version: d.contract_id,
        requires_setup: d.requires_setup,
        setup_qa_ref: d.setup_qa_ref,
    }
}

fn contract_matches(contract_id: &str, requested: Option<&str>) -> (r: bool)
    ensures
        r == contract_ok(contract_id@, opt_text(requested)),
{
    match requested {
        None => true,
        Some(requested) => text_eq(contract_id, requested),
    }
}

fn value_matches(values: &Vec<String>, current: Option<&str>) -> (r: bool)
    ensures
        r == value_ok(values@, opt_text(current)),
{
    if values.len() == 0 {
        return true;
    }
    let cur = match current {
        Some(c) => c,
        None => {
            return false;
        },
    };
    let mut i: usize = 0;
    while i < values.len()
        invariant
            i <= values@.len(),
            opt_text(current) == Some(cur@),
            forall|k: int| 0 <= k < i ==> values@[k]@ != cur@,
        decreases values@.len() - i,
    {
        if text_eq(values[i].as_str(), cur) {
            assert(values@[i as int]@ == cur@);
            return true;
        }
        i += 1;
    }
    false
}

fn opt_as_str(o: &Option<String>) -> (r: Option<&str>)
    ensures
        opt_text(r) == opt_string(*o),
{
    match o {
        Some(s) => Some(s.as_str()),
        None => None,
    }
}

fn scope_matches(scope: &RuntimeScope, requested: &ResolveScope) -> (r: bool)
    ensures
        r == scope_ok(*scope, *requested),
{
    value_matches(&scope.envs, opt_as_str(&requested.env)) && value_matches(
        &scope.tenants,
        opt_as_str(&requested.tenant),
    ) && value_matches(&scope.teams, opt_as_str(&requested.team))
}

fn op_matches(applies_to_ops: &Vec<String>, requested_op: Option<&str>) -> (r: bool)
    ensures
        r == op_ok(applies_to_ops@, opt_text(requested_op)),
{
    let op = match requested_op {
        Some(op) => op,
        None => {
            return true;
        },
    };
    if applies_to_ops.len() == 0 {
        return true;
    }
    let mut i: usize = 0;
    while i < applies_to_ops.len()
        invariant
            i <= applies_to_ops@.len(),
            opt_text(requested_op) == Some(op@),
            forall|k: int| 0 <= k < i ==> applies_to_ops@[k]@ != op@,
        decreases applies_to_ops@.len() - i,
    {
        if text_eq(applies_to_ops[i].as_str(), op) {
            assert(applies_to_ops@[i as int]@ == op@);
            return true;
        }
        i += 1;
    }
    false
}

fn offer_serves(
    d: &RuntimeCapabilityDescriptor,
    capability_id: &str,
    contract_id: Option<&str>,
    scope: &ResolveScope,
    requested_op: Option<&str>,
) -> (r: bool)
    ensures
        r == offer_applies(capability_id@, opt_text(contract_id), *scope, opt_text(requested_op))(
            *d,
        ),
{
    text_eq(d.capability_id.as_str(), capability_id) && contract_matches(
        d.contract_id.as_str(),
        contract_id,
    ) && scope_matches(&d.scope, scope) && op_matches(&d.applies_to_ops, requested_op)
}

fn bind(d: &RuntimeCapabilityDescriptor) -> (r: CapabilityBinding)
    ensures
        r == binding_of(*d),
{
    CapabilityBinding {
        cap_id: d.capability_id.clone(),
        stable_id: d.stable_id.clone(),
        pack_id: d.provider_pack.clone(),
        domain: d.domain,
        pack_path: d.pack_path.clone(),
        provider_component_ref: d.component_ref.clone(),
        provider_op: d.entrypoint.clone(),
        version: d.contract_id.clone(),
        requires_setup: d.requires_setup,
        setup_qa_ref: d.setup_qa_ref.clone(),
    }
}

impl RuntimeCapabilityRegistry {
    /// The offers of one capability, best first.
    pub fn capability_offers(&self, capability_id: &str) -> (r: Vec<&RuntimeCapabilityDescriptor>)
        ensures
            deref_seq(r@) == self.capability_seq().filter(cap_id_is(capability_id@)),
            forall|i: int, j: int|
                0 <= i < j < r@.len() ==> priority_first(
                    r@[i].priority as int,
                    r@[i].stable_id@,
                    r@[j].priority as int,
                    r@[j].stable_id@,
                ),
    {
        let ghost p = cap_id_is(capability_id@);
        let ghost caps = self.capabilities@;
        let mut r: Vec<&RuntimeCapabilityDescriptor> = Vec::new();
        let mut i: usize = 0;
        proof {
            crate::seqs::lemma_filter_empty(p);
            assert(caps.take(0) =~= Seq::<RuntimeCapabilityDescriptor>::empty());
            assert(deref_seq(r@) =~= Seq::<RuntimeCapabilityDescriptor>::empty());
        }
        while i < self.capabilities.len()
            invariant
                i <= caps.len(),
                caps == self.capabilities@,
                p == cap_id_is(capability_id@),
                deref_seq(r@) == caps.take(i as int).filter(p),
            decreases caps.len() - i,
        {
            proof {
                lemma_filter_step(caps, p, i as int);
            }
            if text_eq(self.capabilities[i].capability_id.as_str(), capability_id) {
                proof {
                    lemma_deref_push(r@, &caps[i as int]);
                }
                r.push(&self.capabilities[i]);
            }
            i += 1;
        }
        proof {
            lemma_take_all(caps);
            use_type_invariant(self);
            lemma_filter_sorted(caps, p);
            law_capabilities_run_by_priority(caps.filter(p));
            assert forall|i: int, j: int| 0 <= i < j < r@.len() implies priority_first(
                r@[i].priority as int,
                r@[i].stable_id@,
                r@[j].priority as int,
                r@[j].stable_id@,
            ) by {
                assert(deref_seq(r@)[i] == caps.filter(p)[i]);
                assert(deref_seq(r@)[j] == caps.filter(p)[j]);
                assert(p(caps.filter(p)[i]) && p(caps.filter(p)[j]));
            }
        }
        r
    }

    /// Every capability offer, by capability and then best first.
    pub fn discovered_capabilities(&self) -> (r: Vec<&RuntimeCapabilityDescriptor>)
        ensures
            deref_seq(r@) == self.capability_seq(),
    {
        let mut r: Vec<&RuntimeCapabilityDescriptor> = Vec::new();
        let mut i: usize = 0;
        while i < self.capabilities.len()
            invariant
                i <= self.capabilities@.len(),
                deref_seq(r@) == self.capabilities@.take(i as int),
            decreases self.capabilities@.len() - i,
        {
            proof {
                lemma_deref_push(r@, &self.capabilities@[i as int]);
            }
            r.push(&self.capabilities[i]);
            i += 1;
            assert(deref_seq(r@) =~= self.capabilities@.take(i as int));
        }
        proof {
            lemma_take_all(self.capabilities@);
        }
        r
    }

    pub fn discovered_hook_count(&self) -> (r: usize)
        ensures
            r == self.hook_seq().len(),
    {
        self.hooks.len()
    }

    pub fn discovered_subscription_count(&self) -> (r: usize)
        ensures
            r == self.subscription_seq().len(),
    {
        self.subscriptions.len()
    }

    /// The best offer of `capability_id` that serves the contract, scope and
    /// operation asked for.
    pub fn resolve_capability(
        &self,
        capability_id: &str,
        contract_id: Option<&str>,
        scope: &ResolveScope,
        requested_op: Option<&str>,
    ) -> (r: Option<CapabilityBinding>)
        ensures
            ({
                let m = self.capability_seq().filter(
                    offer_applies(capability_id@, opt_text(contract_id), *scope, opt_text(requested_op)),
                );
                r == if m.len() > 0 {
                    Some(binding_of(m[0]))
                } else {
                    None
                }
            }),
    {
        let ghost p = offer_applies(
            capability_id@,
            opt_text(contract_id),
            *scope,
            opt_text(requested_op),
        );
        let ghost caps = self.capabilities@;
        let mut i: usize = 0;
        proof {
            crate::seqs::lemma_filter_empty(p);
            assert(caps.take(0) =~= Seq::<RuntimeCapabilityDescriptor>::empty());
        }
        while i < self.capabilities.len()
            invariant
                i <= caps.len(),
                caps == self.capabilities@,
                p == offer_applies(
                    capability_id@,
                    opt_text(contract_id),
                    *scope,
                    opt_text(requested_op),
                ),
                caps.take(i as int).filter(p).len() == 0,
            decreases caps.len() - i,
        {
            proof {
                lemma_filter_step(caps, p, i as int);
            }
            if offer_serves(&self.capabilities[i], capability_id, contract_id, scope, requested_op) {
                proof {
                    crate::seqs::lemma_filter_prefix_first(caps, p, i as int);
                }
                return Some(bind(&self.capabilities[i]));
            }
            i += 1;
        }
        proof {
            lemma_take_all(caps);
        }
        None
    }

    /// Every offer of `capability_id` that serves the request, best first.
    pub fn resolve_capability_chain(
        &self,
        capability_id: &str,
        contract_id: Option<&str>,
        scope: &ResolveScope,
        requested_op: Option<&str>,
    ) -> (r: Vec<CapabilityBinding>)
        ensures
            r@ == self.capability_seq().filter(
                offer_applies(capability_id@, opt_text(contract_id), *scope, opt_text(requested_op)),
            ).map_values(|d: RuntimeCapabilityDescriptor| binding_of(d)),
    {
        let ghost p = offer_applies(
            capability_id@,
            opt_text(contract_id),
            *scope,
            opt_text(requested_op),
        );
        let ghost caps = self.capabilities@;
        let mut r: Vec<CapabilityBinding> = Vec::new();
        let mut i: usize = 0;
        proof {
            crate::seqs::lemma_filter_empty(p);
            assert(caps.take(0) =~= Seq::<RuntimeCapabilityDescriptor>::empty());
            assert(r@ =~= Seq::<RuntimeCapabilityDescriptor>::empty().map_values(
                |d: RuntimeCapabilityDescriptor| binding_of(d),
            ));
        }
        while i < self.capabilities.len()
            invariant
                i <= caps.len(),
                caps == self.capabilities@,
                p == offer_applies(
                    capability_id@,
                    opt_text(contract_id),
                    *scope,
                    opt_text(requested_op),
                ),
                r@ == caps.take(i as int).filter(p).map_values(
                    |d: RuntimeCapabilityDescriptor| binding_of(d),
                ),
            decreases caps.len() - i,
        {
            proof {
                lemma_filter_step(caps, p, i as int);
            }
            if offer_serves(&self.capabilities[i], capability_id, contract_id, scope, requested_op) {
                r.push(bind(&self.capabilities[i]));
            }
            i += 1;
            assert(r@ =~= caps.take(i as int).filter(p).map_values(
                |d: RuntimeCapabilityDescriptor| binding_of(d),
            ));
        }
        proof {
            lemma_take_all(caps);
        }
        r
    }

    /// The offers that need setup for a scope: those that require setup and
    /// that resolving their own capability, contract and first operation in
    /// the scope selects, as bindings in registry order.
    pub fn setup_plan(&self, scope: &ResolveScope) -> (r: Vec<CapabilityBinding>)
        ensures
            r@ == self.capability_seq().filter(needs_setup_in(self.capability_seq(), *scope)).map_values(
                |d: RuntimeCapabilityDescriptor| binding_of(d),
            ),
    {
        let ghost caps = self.capabilities@;
        let ghost p = needs_setup_in(caps, *scope);
        let mut r: Vec<CapabilityBinding> = Vec::new();
        let mut i: usize = 0;
        proof {
            crate::seqs::lemma_filter_empty(p);
            assert(caps.take(0) =~= Seq::<RuntimeCapabilityDescriptor>::empty());
            assert(r@ =~= Seq::<RuntimeCapabilityDescriptor>::empty().map_values(
                |d: RuntimeCapabilityDescriptor| binding_of(d),
            ));
        }
        while i < self.capabilities.len()
            invariant
                i <= caps.len(),
                caps == self.capabilities@,
                caps == self.capability_seq(),
                p == needs_setup_in(caps, *scope),
                r@ == caps.take(i as int).filter(p).map_values(
                    |d: RuntimeCapabilityDescriptor| binding_of(d),
                ),
            decreases caps.len() - i,
        {
            proof {
                lemma_filter_step(caps, p, i as int);
            }
            let offer = &self.capabilities[i];
            if offer.requires_setup {
                let first_op = if offer.applies_to_ops.len() > 0 {
                    Some(offer.applies_to_ops[0].as_str())
                } else {
                    None
                };
                let resolved = self.resolve_capability(
                    offer.capability_id.as_str(),
                    Some(offer.contract_id.as_str()),
                    scope,
                    first_op,
                );
                let keep = match &resolved {
                    Some(b) => text_eq(b.stable_id.as_str(), offer.stable_id.as_str()),
                    None => false,
                };
                proof {
                    assert(opt_text(first_op) == first_op_of(caps[i as int]));
                }
                if keep {
                    r.push(bind(offer));
                }
            }
            i += 1;
            assert(r@ =~= caps.take(i as int).filter(p).map_values(
                |d: RuntimeCapabilityDescriptor| binding_of(d),
            ));
        }
        proof {
            lemma_take_all(caps);
        }
        r
    }

    /// The hooks registered for a stage and contract, in priority order.
    pub fn hook_chain(&self, stage: &str, contract_id: &str) -> (r: Vec<&RuntimeHookDescriptor>)
        ensures
            deref_seq(r@) == self.hook_seq().filter(hook_pair_is(stage@, contract_id@)),
            forall|i: int, j: int|
                0 <= i < j < r@.len() ==> priority_first(
                    r@[i].priority as int,
                    r@[i].offer_key@,
                    r@[j].priority as int,
                    r@[j].offer_key@,
                ),
    {
        let ghost p = hook_pair_is(stage@, contract_id@);
        let ghost hooks = self.hooks@;
        let mut r: Vec<&RuntimeHookDescriptor> = Vec::new();
        let mut i: usize = 0;
        proof {
            crate::seqs::lemma_filter_empty(p);
            assert(hooks.take(0) =~= Seq::<RuntimeHookDescriptor>::empty());
            assert(deref_seq(r@) =~= Seq::<RuntimeHookDescriptor>::empty());
        }
        while i < self.hooks.len()
            invariant
                i <= hooks.len(),
                hooks == self.hooks@,
                p == hook_pair_is(stage@, contract_id@),
                deref_seq(r@) == hooks.take(i as int).filter(p),
            decreases hooks.len() - i,
        {
            proof {
                lemma_filter_step(hooks, p, i as int);
            }
            if text_eq(self.hooks[i].stage.as_str(), stage) && text_eq(
                self.hooks[i].contract_id.as_str(),
                contract_id,
            ) {
                proof {
                    lemma_deref_push(r@, &hooks[i as int]);
                }
                r.push(&self.hooks[i]);
            }
            i += 1;
        }
        proof {
            lemma_take_all(hooks);
            use_type_invariant(self);
            lemma_filter_sorted(hooks, p);
            law_hooks_run_by_priority(hooks.filter(p));
            assert forall|i: int, j: int| 0 <= i < j < r@.len() implies priority_first(
                r@[i].priority as int,
                r@[i].offer_key@,
                r@[j].priority as int,
                r@[j].offer_key@,
            ) by {
                assert(deref_seq(r@)[i] == hooks.filter(p)[i]);
                assert(deref_seq(r@)[j] == hooks.filter(p)[j]);
                assert(p(hooks.filter(p)[i]) && p(hooks.filter(p)[j]));
            }
        }
        r
    }

    /// The subscriptions registered for a contract, in priority order.
    pub fn subscriptions(&self, contract_id: &str) -> (r: Vec<&RuntimeSubscriptionDescriptor>)
        ensures
            deref_seq(r@) == self.subscription_seq().filter(sub_contract_is(contract_id@)),
            forall|i: int, j: int|
                0 <= i < j < r@.len() ==> priority_first(
                    r@[i].priority as int,
                    r@[i].offer_key@,
                    r@[j].priority as int,
                    r@[j].offer_key@,
                ),
    {
        let ghost p = sub_contract_is(contract_id@);
        let ghost subs = self.subscriptions@;
        let mut r: Vec<&RuntimeSubscriptionDescriptor> = Vec::new();
        let mut i: usize = 0;
        proof {
            crate::seqs::lemma_filter_empty(p);
            assert(subs.take(0) =~= Seq::<RuntimeSubscriptionDescriptor>::empty());
            assert(deref_seq(r@) =~= Seq::<RuntimeSubscriptionDescriptor>::empty());
        }
        while i < self.subscriptions.len()
            invariant
                i <= subs.len(),
                subs == self.subscriptions@,
                p == sub_contract_is(contract_id@),
                deref_seq(r@) == subs.take(i as int).filter(p),
            decreases subs.len() - i,
        {
            proof {
                lemma_filter_step(subs, p, i as int);
            }
            if text_eq(self.subscriptions[i].contract_id.as_str(), contract_id) {
                proof {
                    lemma_deref_push(r@, &subs[i as int]);
                }
                r.push(&self.subscriptions[i]);
            }
            i += 1;
        }
        proof {
            lemma_take_all(subs);
            use_type_invariant(self);
            lemma_filter_sorted(subs, p);
            law_subscriptions_run_by_priority(subs.filter(p));
            assert forall|i: int, j: int| 0 <= i < j < r@.len() implies priority_first(
                r@[i].priority as int,
                r@[i].offer_key@,
                r@[j].priority as int,
                r@[j].offer_key@,
            ) by {
                assert(deref_seq(r@)[i] == subs.filter(p)[i]);
                assert(deref_seq(r@)[j] == subs.filter(p)[j]);
                assert(p(subs.filter(p)[i]) && p(subs.filter(p)[j]));
            }
        }
        r
    }
}

// ---------------------------------------------------------------------------
// The wiring plan
// ---------------------------------------------------------------------------

impl Clone for RuntimeSelectedProvider {
    fn clone(&self) -> (r: Self)
        ensures
            r == *self,
    {
        RuntimeSelectedProvider {
            role_id: self.role_id.clone(),
            capability_id: self.capability_id.clone(),
            contract_id: self.contract_id.clone(),
            provider_pack: self.provider_pack.clone(),
            pack_path: self.pack_path.clone(),
            entrypoint: self.entrypoint.clone(),
            component_ref: self.component_ref.clone(),
            stable_id: self.stable_id.clone(),
        }
    }
}

/// Providers chosen for each runtime role, hook chains by `stage:contract`,
/// subscriptions by contract, and what could not be wired.
#[derive(Debug, PartialEq, Eq)]
pub struct RuntimeWiringPlan {
    pub selected_providers: Vec<(String, RuntimeSelectedProvider)>,
    pub hook_chains: Vec<(String, Vec<RuntimeHookDescriptor>)>,
    pub subscriptions_by_contract: Vec<(String, Vec<RuntimeSubscriptionDescriptor>)>,
    pub warnings: Vec<String>,
    pub blocking_failures: Vec<String>,
}

impl Default for RuntimeCapabilityRegistry {
    fn default() -> (r: Self)
        ensures
            r.capability_seq().len() == 0,
            r.hook_seq().len() == 0,
            r.subscription_seq().len() == 0,
    {
        RuntimeCapabilityRegistry {
            capabilities: Vec::new(),
            hooks: Vec::new(),
            subscriptions: Vec::new(),
        }
    }
}

impl Default for RuntimeWiringPlan {
    fn default() -> (r: Self)
        ensures
            r.selected_providers@.len() == 0,
            r.hook_chains@.len() == 0,
            r.subscriptions_by_contract@.len() == 0,
            r.warnings@.len() == 0,
            r.blocking_failures@.len() == 0,
    {
        RuntimeWiringPlan {
            selected_providers: Vec::new(),
            hook_chains: Vec::new(),
            subscriptions_by_contract: Vec::new(),
            warnings: Vec::new(),
            blocking_failures: Vec::new(),
        }
    }
}

/// The key of a hook chain: `stage:contract`.
pub open spec fn chain_key(stage: Seq<char>, contract_id: Seq<char>) -> Seq<char> {
    stage + ":"@ + contract_id
}

fn chain_key_text(stage: &str, contract_id: &str) -> (r: String)
    ensures
        r@ == chain_key(stage@, contract_id@),
{
    let mut v = chars_of(stage);
    extend_chars(&mut v, ":");
    extend_chars(&mut v, contract_id);
    string_of(&v)
}

impl RuntimeWiringPlan {
    /// The provider selected for a role.
    pub fn selected_provider(&self, role_id: &str) -> (r: Option<&RuntimeSelectedProvider>)
        ensures
            match r {
                Some(p) => lookup(self.selected_providers@, role_id@) == Some(*p),
                None => lookup(self.selected_providers@, role_id@) is None,
            },
    {
        match assoc_find(&self.selected_providers, role_id) {
            Some(i) => Some(&self.selected_providers[i].1),
            None => None,
        }
    }

    /// The hook chain of a stage and contract; empty when none is wired.
    pub fn hook_chain(&self, stage: &str, contract_id: &str) -> (r: Vec<&RuntimeHookDescriptor>)
        ensures
            deref_seq(r@) == match lookup(self.hook_chains@, chain_key(stage@, contract_id@)) {
                Some(v) => v@,
                None => Seq::empty(),
            },
    {
        let key = chain_key_text(stage, contract_id);
        let mut r: Vec<&RuntimeHookDescriptor> = Vec::new();
        match assoc_find(&self.hook_chains, key.as_str()) {
            Some(i) => {
                let chain = &self.hook_chains[i].1;
                let mut k: usize = 0;
                while k < chain.len()
                    invariant
                        k <= chain@.len(),
                        deref_seq(r@) == chain@.take(k as int),
                    decreases chain@.len() - k,
                {
                    proof {
                        lemma_deref_push(r@, &chain@[k as int]);
                    }
                    r.push(&chain[k]);
                    k += 1;
                    assert(deref_seq(r@) =~= chain@.take(k as int));
                }
                proof {
                    lemma_take_all(chain@);
                }
            },
            None => {
                assert(deref_seq(r@) =~= Seq::<RuntimeHookDescriptor>::empty());
            },
        }
        r
    }

    /// The subscriptions wired for a contract; empty when none is wired.
    pub fn subscriptions(&self, contract_id: &str) -> (r: Vec<&RuntimeSubscriptionDescriptor>)
        ensures
            deref_seq(r@) == match lookup(self.subscriptions_by_contract@, contract_id@) {
                Some(v) => v@,
                None => Seq::empty(),
            },
    {
        let mut r: Vec<&RuntimeSubscriptionDescriptor> = Vec::new();
        match assoc_find(&self.subscriptions_by_contract, contract_id) {
            Some(i) => {
                let subs = &self.subscriptions_by_contract[i].1;
                let mut k: usize = 0;
                while k < subs.len()
                    invariant
                        k <= subs@.len(),
                        deref_seq(r@) == subs@.take(k as int),
                    decreases subs@.len() - k,
                {
                    proof {
                        lemma_deref_push(r@, &subs@[k as int]);
                    }
                    r.push(&subs[k]);
                    k += 1;
                    assert(deref_seq(r@) =~= subs@.take(k as int));
                }
                proof {
                    lemma_take_all(subs@);
                }
            },
            None => {
                assert(deref_seq(r@) =~= Seq::<RuntimeSubscriptionDescriptor>::empty());
            },
        }
        r
    }

    /// Whether `provider_pack` provides a subscription for the contract, or,
    /// when no contract is given, for any contract.
    #[verifier::loop_isolation(false)]
    pub fn has_subscription_provider(&self, provider_pack: &str, contract_id: Option<&str>) -> (r:
        bool)
        ensures
            r == match contract_id {
                Some(c) => match lookup(self.subscriptions_by_contract@, c@) {
                    Some(v) => exists|j: int|
                        0 <= j < v@.len() && (#[trigger] v@[j]).provider_pack@ == provider_pack@,
                    None => false,
                },
                None => exists|i: int, j: int|
                    0 <= i < self.subscriptions_by_contract@.len() && 0 <= j
                        < self.subscriptions_by_contract@[i].1@.len()
                        && (#[trigger] self.subscriptions_by_contract@[i].1@[j]).provider_pack@
                        == provider_pack@,
            },
    {
        match contract_id {
            Some(c) => {
                match assoc_find(&self.subscriptions_by_contract, c) {
                    Some(i) => {
                        let v = &self.subscriptions_by_contract[i].1;
                        let mut j: usize = 0;
                        while j < v.len()
                            invariant
                                j <= v@.len(),
                                forall|k: int| 0 <= k < j ==> v@[k].provider_pack@ != provider_pack@,
                            decreases v@.len() - j,
                        {
                            if text_eq(v[j].provider_pack.as_str(), provider_pack) {
                                assert(v@[j as int].provider_pack@ == provider_pack@);
                                return true;
                            }
                            j += 1;
                        }
                        false
                    },
                    None => false,
                }
            },
            None => {
                let all = &self.subscriptions_by_contract;
                let mut i: usize = 0;
                while i < all.len()
                    invariant
                        i <= all@.len(),
                        all == &self.subscriptions_by_contract,
                        contract_id is None,
                        forall|a: int, b: int|
                            0 <= a < i && 0 <= b < all@[a].1@.len() ==> (#[trigger] all@[a].1@[b]).provider_pack@
                                != provider_pack@,
                    decreases all@.len() - i,
                {
                    let v = &all[i].1;
                    let mut j: usize = 0;
                    while j < v.len()
                        invariant
                            j <= v@.len(),
                            v == &all@[i as int].1,
                            forall|k: int| 0 <= k < j ==> v@[k].provider_pack@ != provider_pack@,
                        decreases v@.len() - j,
                    {
                        if text_eq(v[j].provider_pack.as_str(), provider_pack) {
                            assert(all@[i as int].1@[j as int].provider_pack@ == provider_pack@);
                            return true;
                        }
                        j += 1;
                    }
                    i += 1;
                }
                false
            },
        }
    }
}

/// The roles the runtime looks for by default; none of them is required.
pub fn default_provider_requirements() -> (r: Vec<RuntimeProviderRequirement>)
    ensures
        r@.len() == 3,
        r@[0].role_id@ == "session"@ && r@[0].capability_id@ == CAP_SESSION_PROVIDER_V1@
            && r@[0].contract_id@ == CONTRACT_SESSION_PROVIDER_V1@ && !r@[0].required,
        r@[1].role_id@ == "state"@ && r@[1].capability_id@ == CAP_STATE_PROVIDER_V1@
            && r@[1].contract_id@ == CONTRACT_STATE_PROVIDER_V1@ && !r@[1].required,
        r@[2].role_id@ == "telemetry"@ && r@[2].capability_id@ == CAP_TELEMETRY_PROVIDER_V1@
            && r@[2].contract_id@ == CONTRACT_TELEMETRY_PROVIDER_V1@ && !r@[2].required,
{
    let mut r = Vec::new();
    r.push(
        RuntimeProviderRequirement {
            role_id: text("session"),
            capability_id: text(CAP_SESSION_PROVIDER_V1),
            contract_id: text(CONTRACT_SESSION_PROVIDER_V1),
            required: false,
        },
    );
    r.push(
        RuntimeProviderRequirement {
            role_id: text("state"),
            capability_id: text(CAP_STATE_PROVIDER_V1),
            contract_id: text(CONTRACT_STATE_PROVIDER_V1),
            required: false,
        },
    );
    r.push(
        RuntimeProviderRequirement {
            role_id: text("telemetry"),
            capability_id: text(CAP_TELEMETRY_PROVIDER_V1),
            contract_id: text(CONTRACT_TELEMETRY_PROVIDER_V1),
            required: false,
        },
    );
    r
}

/// Refuses to start while the wiring plan has blocking failures.
pub fn require_started(plan: &RuntimeWiringPlan) -> (r: Result<(), String>)
    ensures
        r is Ok <==> plan.blocking_failures@.len() == 0,
        r matches Err(m) ==> m@ == "runtime wiring has blocking failures: "@ + crate::text::join_texts(
            texts_of(plan.blocking_failures@),
            "; "@,
        ),
{
    if plan.blocking_failures.len() == 0 {
        Ok(())
    } else {
        let mut v = chars_of("runtime wiring has blocking failures: ");
        let joined = crate::text::join(&plan.blocking_failures, "; ");
        extend_chars(&mut v, joined.as_str());
        Err(string_of(&v))
    }
}

// ---------------------------------------------------------------------------
// Building the wiring plan
// ---------------------------------------------------------------------------

/// The first offer of a capability in registry order (its best offer).
pub open spec fn first_offer(caps: Seq<RuntimeCapabilityDescriptor>, capability_id: Seq<char>) -> Option<
    RuntimeCapabilityDescriptor,
> {
    let f = caps.filter(cap_id_is(capability_id));
    if f.len() > 0 {
        Some(f[0])
    } else {
        None
    }
}

pub open spec fn selection_of(
    req: RuntimeProviderRequirement,
    d: RuntimeCapabilityDescriptor,
) -> RuntimeSelectedProvider {
    RuntimeSelectedProvider {
        role_id: req.role_id,
        capability_id: d.capability_id,
        contract_id: req.contract_id,
        provider_pack: d.provider_pack,
        pack_path: d.pack_path,
        entrypoint: d.entrypoint,
        component_ref: d.component_ref,
        stable_id: d.stable_id,
    }
}

/// The provider chosen for `role`: the best offer for the last requirement
/// of that role whose capability has an offer.
pub open spec fn expected_selection(
    caps: Seq<RuntimeCapabilityDescriptor>,
    reqs: Seq<RuntimeProviderRequirement>,
    role: Seq<char>,
) -> Option<RuntimeSelectedProvider>
    decreases reqs.len(),
{
    if reqs.len() == 0 {
        None
    } else {
        let r = reqs.last();
        if r.role_id@ == role && first_offer(caps, r.capability_id@) is Some {
            Some(selection_of(r, first_offer(caps, r.capability_id@)->0))
        } else {
            expected_selection(caps, reqs.drop_last(), role)
        }
    }
}

pub open spec fn missing_message(req: RuntimeProviderRequirement) -> Seq<char> {
    "missing "@ + (if req.required {
        "required"@
    } else {
        "optional"@
    }) + " provider capability "@ + req.capability_id@
}

/// The messages for requirements (required or optional as asked) whose
/// capability has no offer, in requirement order.
pub open spec fn missing_messages(
    caps: Seq<RuntimeCapabilityDescriptor>,
    reqs: Seq<RuntimeProviderRequirement>,
    required: bool,
) -> Seq<Seq<char>>
    decreases reqs.len(),
{
    if reqs.len() == 0 {
        Seq::empty()
    } else {
        let rest = missing_messages(caps, reqs.drop_last(), required);
        let r = reqs.last();
        if r.required == required && first_offer(caps, r.capability_id@) is None {
            rest.push(missing_message(r))
        } else {
            rest
        }
    }
}

/// The last hook of `hooks` whose chain key is `k`.
pub open spec fn last_hook_for_key(hooks: Seq<RuntimeHookDescriptor>, k: Seq<char>) -> Option<
    RuntimeHookDescriptor,
>
    decreases hooks.len(),
{
    if hooks.len() == 0 {
        None
    } else if chain_key(hooks.last().stage@, hooks.last().contract_id@) == k {
        Some(hooks.last())
    } else {
        last_hook_for_key(hooks.drop_last(), k)
    }
}

/// The chain wired under key `k`: the hooks of the last (stage, contract)
/// pair, in registry order, whose key is `k`.
pub open spec fn expected_chain(hooks: Seq<RuntimeHookDescriptor>, k: Seq<char>) -> Option<
    Seq<RuntimeHookDescriptor>,
> {
    match last_hook_for_key(hooks, k) {
        Some(h) => Some(hooks.filter(hook_pair_is(h.stage@, h.contract_id@))),
        None => None,
    }
}

pub open spec fn agrees<T>(o: Option<Vec<T>>, e: Option<Seq<T>>) -> bool {
    match (o, e) {
        (Some(v), Some(s)) => v@ == s,
        (None, None) => true,
        _ => false,
    }
}

pub open spec fn has_contract(subs: Seq<RuntimeSubscriptionDescriptor>, c: Seq<char>) -> bool {
    exists|j: int| 0 <= j < subs.len() && (#[trigger] subs[j]).contract_id@ == c
}

pub open spec fn expected_subscriptions(subs: Seq<RuntimeSubscriptionDescriptor>, c: Seq<char>) -> Option<
    Seq<RuntimeSubscriptionDescriptor>,
> {
    if has_contract(subs, c) {
        Some(subs.filter(sub_contract_is(c)))
    } else {
        None
    }
}

fn missing_message_text(req: &RuntimeProviderRequirement) -> (r: String)
    ensures
        r@ == missing_message(*req),
{
    let mut v = chars_of("missing ");
    if req.required {
        extend_chars(&mut v, "required");
    } else {
        extend_chars(&mut v, "optional");
    }
    extend_chars(&mut v, " provider capability ");
    extend_chars(&mut v, req.capability_id.as_str());
    string_of(&v)
}

impl RuntimeCapabilityRegistry {
    /// The index of the best offer of a capability.
    fn first_offer_index(&self, capability_id: &str) -> (r: Option<usize>)
        ensures
            match r {
                Some(i) => i < self.capabilities@.len() && first_offer(
                    self.capabilities@,
                    capability_id@,
                ) == Some(self.capabilities@[i as int]),
                None => first_offer(self.capabilities@, capability_id@) is None,
            },
    {
        let ghost p = cap_id_is(capability_id@);
        let ghost caps = self.capabilities@;
        let mut i: usize = 0;
        proof {
            crate::seqs::lemma_filter_empty(p);
            assert(caps.take(0) =~= Seq::<RuntimeCapabilityDescriptor>::empty());
        }
        while i < self.capabilities.len()
            invariant
                i <= caps.len(),
                caps == self.capabilities@,
                p == cap_id_is(capability_id@),
                caps.take(i as int).filter(p).len() == 0,
            decreases caps.len() - i,
        {
            proof {
                lemma_filter_step(caps, p, i as int);
            }
            if text_eq(self.capabilities[i].capability_id.as_str(), capability_id) {
                proof {
                    crate::seqs::lemma_filter_prefix_first(caps, p, i as int);
                }
                return Some(i);
            }
            i += 1;
        }
        proof {
            lemma_take_all(caps);
        }
        None
    }

    /// The hooks of a stage and contract, copied.
    fn hooks_with_pair(&self, stage: &str, contract_id: &str) -> (r: Vec<RuntimeHookDescriptor>)
        ensures
            r@ == self.hooks@.filter(hook_pair_is(stage@, contract_id@)),
    {
        let ghost p = hook_pair_is(stage@, contract_id@);
        let ghost hooks = self.hooks@;
        let mut r: Vec<RuntimeHookDescriptor> = Vec::new();
        let mut i: usize = 0;
        proof {
            crate::seqs::lemma_filter_empty(p);
            assert(hooks.take(0) =~= Seq::<RuntimeHookDescriptor>::empty());
        }
        while i < self.hooks.len()
            invariant
                i <= hooks.len(),
                hooks == self.hooks@,
                p == hook_pair_is(stage@, contract_id@),
                r@ == hooks.take(i as int).filter(p),
            decreases hooks.len() - i,
        {
            proof {
                lemma_filter_step(hooks, p, i as int);
            }
            if text_eq(self.hooks[i].stage.as_str(), stage) && text_eq(
                self.hooks[i].contract_id.as_str(),
                contract_id,
            ) {
                r.push(self.hooks[i].clone());
            }
            i += 1;
        }
        proof {
            lemma_take_all(hooks);
        }
        r
    }

    /// The subscriptions of a contract, copied.
    fn subscriptions_with_contract(&self, contract_id: &str) -> (r: Vec<
        RuntimeSubscriptionDescriptor,
    >)
        ensures
            r@ == self.subscriptions@.filter(sub_contract_is(contract_id@)),
    {
        let ghost p = sub_contract_is(contract_id@);
        let ghost subs = self.subscriptions@;
        let mut r: Vec<RuntimeSubscriptionDescriptor> = Vec::new();
        let mut i: usize = 0;
        proof {
            crate::seqs::lemma_filter_empty(p);
            assert(subs.take(0) =~= Seq::<RuntimeSubscriptionDescriptor>::empty());
        }
        while i < self.subscriptions.len()
            invariant
                i <= subs.len(),
                subs == self.subscriptions@,
                p == sub_contract_is(contract_id@),
                r@ == subs.take(i as int).filter(p),
            decreases subs.len() - i,
        {
            proof {
                lemma_filter_step(subs, p, i as int);
            }
            if text_eq(self.subscriptions[i].contract_id.as_str(), contract_id) {
                r.push(self.subscriptions[i].clone());
            }
            i += 1;
        }
        proof {
            lemma_take_all(subs);
        }
        r
    }

    /// Selects a provider for each requirement and wires every hook chain and
    /// subscription of the registry.
    pub fn build_wiring_plan(&self, requirements: &Vec<RuntimeProviderRequirement>) -> (r:
        RuntimeWiringPlan)
        ensures
            keys_strictly_sorted(r.selected_providers@),
            forall|role: Seq<char>|
                #![trigger lookup(r.selected_providers@, role)]
                lookup(r.selected_providers@, role) == expected_selection(
                    self.capability_seq(),
                    requirements@,
                    role,
                ),
            texts_of(r.warnings@) == missing_messages(self.capability_seq(), requirements@, false),
            texts_of(r.blocking_failures@) == missing_messages(
                self.capability_seq(),
                requirements@,
                true,
            ),
            keys_strictly_sorted(r.hook_chains@),
            forall|k: Seq<char>|
                #![trigger lookup(r.hook_chains@, k)]
                agrees(lookup(r.hook_chains@, k), expected_chain(self.hook_seq(), k)),
            keys_strictly_sorted(r.subscriptions_by_contract@),
            forall|c: Seq<char>|
                #![trigger lookup(r.subscriptions_by_contract@, c)]
                agrees(
                    lookup(r.subscriptions_by_contract@, c),
                    expected_subscriptions(self.subscription_seq(), c),
                ),
    {
        let ghost caps = self.capabilities@;
        let ghost reqs = requirements@;
        let mut selected: Vec<(String, RuntimeSelectedProvider)> = Vec::new();
        let mut warnings: Vec<String> = Vec::new();
        let mut blocking: Vec<String> = Vec::new();
        let mut i: usize = 0;
        proof {
            assert(reqs.take(0) =~= Seq::<RuntimeProviderRequirement>::empty());
            assert(texts_of(warnings@) =~= Seq::<Seq<char>>::empty());
            assert(texts_of(blocking@) =~= Seq::<Seq<char>>::empty());
            assert forall|role: Seq<char>| #![trigger lookup(selected@, role)]
                lookup(selected@, role) == expected_selection(caps, reqs.take(0), role) by {
                crate::assoc::lemma_lookup_absent(selected@, role);
            }
        }
        while i < requirements.len()
            invariant
                i <= reqs.len(),
                reqs == requirements@,
                caps == self.capabilities@,
                keys_strictly_sorted(selected@),
                forall|role: Seq<char>|
                    #![trigger lookup(selected@, role)]
                    lookup(selected@, role) == expected_selection(caps, reqs.take(i as int), role),
                texts_of(warnings@) == missing_messages(caps, reqs.take(i as int), false),
                texts_of(blocking@) == missing_messages(caps, reqs.take(i as int), true),
            decreases reqs.len() - i,
        {
            let req = &requirements[i];
            proof {
                assert(reqs.take(i + 1).drop_last() =~= reqs.take(i as int));
                assert(reqs.take(i + 1).last() == reqs[i as int]);
            }
            match self.first_offer_index(req.capability_id.as_str()) {
                None => {
                    let message = missing_message_text(req);
                    if req.required {
                        blocking.push(message);
                    } else {
                        warnings.push(message);
                    }
                    proof {
                        assert(texts_of(warnings@) =~= missing_messages(
                            caps,
                            reqs.take(i + 1),
                            false,
                        ));
                        assert(texts_of(blocking@) =~= missing_messages(
                            caps,
                            reqs.take(i + 1),
                            true,
                        ));
                    }
                },
                Some(k) => {
                    let d = &self.capabilities[k];
                    let chosen = RuntimeSelectedProvider {
                        role_id: req.role_id.clone(),
                        capability_id: d.capability_id.clone(),
                        contract_id: req.contract_id.clone(),
                        provider_pack: d.provider_pack.clone(),
                        pack_path: d.pack_path.clone(),
                        entrypoint: d.entrypoint.clone(),
                        component_ref: d.component_ref.clone(),
                        stable_id: d.stable_id.clone(),
                    };
                    let ghost old_sel = selected@;
                    assoc_insert(&mut selected, req.role_id.clone(), chosen);
                    proof {
                        assert forall|role: Seq<char>| #![trigger lookup(selected@, role)]
                            lookup(selected@, role) == expected_selection(
                                caps,
                                reqs.take(i + 1),
                                role,
                            ) by {
                            assert(lookup(selected@, role) == if role == req.role_id@ {
                                Some(chosen)
                            } else {
                                lookup(old_sel, role)
                            });
                        }
                    }
                },
            }
            i += 1;
        }
        proof {
            lemma_take_all(reqs);
        }
        let hook_chains = self.wire_hook_chains();
        let subscriptions_by_contract = self.wire_subscriptions();
        RuntimeWiringPlan {
            selected_providers: selected,
            hook_chains,
            subscriptions_by_contract,
            warnings,
            blocking_failures: blocking,
        }
    }

    /// Every hook chain under its `stage:contract` key.
    fn wire_hook_chains(&self) -> (r: Vec<(String, Vec<RuntimeHookDescriptor>)>)
        ensures
            keys_strictly_sorted(r@),
            forall|k: Seq<char>|
                #![trigger lookup(r@, k)]
                agrees(lookup(r@, k), expected_chain(self.hooks@, k)),
    {
        let ghost hooks = self.hooks@;
        let mut chains: Vec<(String, Vec<RuntimeHookDescriptor>)> = Vec::new();
        let mut i: usize = 0;
        proof {
            assert forall|k: Seq<char>| #![trigger lookup(chains@, k)]
                agrees(
                    lookup(chains@, k),
                    match last_hook_for_key(hooks.take(0), k) {
                        Some(h) => Some(hooks.filter(hook_pair_is(h.stage@, h.contract_id@))),
                        None => None,
                    },
                ) by {
                crate::assoc::lemma_lookup_absent(chains@, k);
            }
        }
        while i < self.hooks.len()
            invariant
                i <= hooks.len(),
                hooks == self.hooks@,
                keys_strictly_sorted(chains@),
                forall|k: Seq<char>|
                    #![trigger lookup(chains@, k)]
                    agrees(
                        lookup(chains@, k),
                        match last_hook_for_key(hooks.take(i as int), k) {
                            Some(h) => Some(hooks.filter(hook_pair_is(h.stage@, h.contract_id@))),
                            None => None,
                        },
                    ),
            decreases hooks.len() - i,
        {
            let h = &self.hooks[i];
            proof {
                assert(hooks.take(i + 1).drop_last() =~= hooks.take(i as int));
                assert(hooks.take(i + 1).last() == hooks[i as int]);
            }
            let same_as_previous = i > 0 && text_eq(h.stage.as_str(), self.hooks[i - 1].stage.as_str())
                && text_eq(h.contract_id.as_str(), self.hooks[i - 1].contract_id.as_str());
            if same_as_previous {
                proof {
                    let prev = hooks[i - 1];
                    assert(hooks.take(i as int).last() == prev);
                    assert(hook_pair_is(prev.stage@, prev.contract_id@) == hook_pair_is(
                        h.stage@,
                        h.contract_id@,
                    ));
                }
            } else {
                let group = self.hooks_with_pair(h.stage.as_str(), h.contract_id.as_str());
                let key = chain_key_text(h.stage.as_str(), h.contract_id.as_str());
                let ghost old_chains = chains@;
                let ghost gv = group;
                assoc_insert(&mut chains, key, group);
                proof {
                    assert forall|k: Seq<char>| #![trigger lookup(chains@, k)]
                        agrees(
                            lookup(chains@, k),
                            match last_hook_for_key(hooks.take(i + 1), k) {
                                Some(h) => Some(
                                    hooks.filter(hook_pair_is(h.stage@, h.contract_id@)),
                                ),
                                None => None,
                            },
                        ) by {
                        assert(lookup(chains@, k) == if k == chain_key(h.stage@, h.contract_id@) {
                            Some(gv)
                        } else {
                            lookup(old_chains, k)
                        });
                    }
                }
            }
            i += 1;
        }
        proof {
            lemma_take_all(hooks);
        }
        chains
    }

    /// Every contract's subscriptions under the contract.
    fn wire_subscriptions(&self) -> (r: Vec<(String, Vec<RuntimeSubscriptionDescriptor>)>)
        ensures
            keys_strictly_sorted(r@),
            forall|c: Seq<char>|
                #![trigger lookup(r@, c)]
                agrees(lookup(r@, c), expected_subscriptions(self.subscriptions@, c)),
    {
        let ghost subs = self.subscriptions@;
        let mut out: Vec<(String, Vec<RuntimeSubscriptionDescriptor>)> = Vec::new();
        let mut i: usize = 0;
        proof {
            assert forall|c: Seq<char>| #![trigger lookup(out@, c)]
                agrees(
                    lookup(out@, c),
                    if has_contract(subs.take(0), c) {
                        Some(subs.filter(sub_contract_is(c)))
                    } else {
                        None
                    },
                ) by {
                crate::assoc::lemma_lookup_absent(out@, c);
            }
        }
        while i < self.subscriptions.len()
            invariant
                i <= subs.len(),
                subs == self.subscriptions@,
                keys_strictly_sorted(out@),
                forall|c: Seq<char>|
                    #![trigger lookup(out@, c)]
                    agrees(
                        lookup(out@, c),
                        if has_contract(subs.take(i as int), c) {
                            Some(subs.filter(sub_contract_is(c)))
                        } else {
                            None
                        },
                    ),
            decreases subs.len() - i,
        {
            let sub = &self.subscriptions[i];
            proof {
                assert forall|c: Seq<char>|
                    has_contract(subs.take(i + 1), c) == (has_contract(subs.take(i as int), c)
                        || subs[i as int].contract_id@ == c) by {
                    if has_contract(subs.take(i + 1), c) {
                        let j = choose|j: int|
                            0 <= j < subs.take(i + 1).len() && (#[trigger] subs.take(
                                i + 1,
                            )[j]).contract_id@ == c;
                        if j < i {
                            assert(subs.take(i as int)[j] == subs[j]);
                        }
                    }
                    if has_contract(subs.take(i as int), c) {
                        let j = choose|j: int|
                            0 <= j < subs.take(i as int).len() && (#[trigger] subs.take(
                                i as int,
                            )[j]).contract_id@ == c;
                        assert(subs.take(i + 1)[j] == subs[j]);
                    }
                    if subs[i as int].contract_id@ == c {
                        assert(subs.take(i + 1)[i as int] == subs[i as int]);
                    }
                }
            }
            let same_as_previous = i > 0 && text_eq(
                sub.contract_id.as_str(),
                self.subscriptions[i - 1].contract_id.as_str(),
            );
            if same_as_previous {
                proof {
                    assert(subs.take(i as int)[i - 1] == subs[i - 1]);
                }
            } else {
                let group = self.subscriptions_with_contract(sub.contract_id.as_str());
                let ghost old_out = out@;
                let ghost gv = group;
                assoc_insert(&mut out, sub.contract_id.clone(), group);
                proof {
                    assert forall|c: Seq<char>| #![trigger lookup(out@, c)]
                        agrees(
                            lookup(out@, c),
                            if has_contract(subs.take(i + 1), c) {
                                Some(subs.filter(sub_contract_is(c)))
                            } else {
                                None
                            },
                        ) by {
                        assert(lookup(out@, c) == if c == sub.contract_id@ {
                            Some(gv)
                        } else {
                            lookup(old_out, c)
                        });
                    }
                }
            }
            i += 1;
        }
        proof {
            lemma_take_all(subs);
        }
        out
    }
}

// ---------------------------------------------------------------------------
// Laws
// ---------------------------------------------------------------------------

/// Resolving a capability picks, among the offers that apply, one with the
/// lowest priority number, and among those the smallest stable id: no offer
/// that applies comes before the chosen one (registries keep their offers
/// in that order).
pub proof fn law_resolution_prefers_priority(
    registry: RuntimeCapabilityRegistry,
    capability_id: Seq<char>,
    contract_id: Option<Seq<char>>,
    scope: ResolveScope,
    op: Option<Seq<char>>,
    k: int,
)
    requires
        sorted_by_key(registry.capability_seq()),
        0 <= k < registry.capability_seq().len(),
        offer_applies(capability_id, contract_id, scope, op)(registry.capability_seq()[k]),
    ensures
        ({
            let caps = registry.capability_seq();
            let m = caps.filter(offer_applies(capability_id, contract_id, scope, op));
            &&& m.len() > 0
            &&& m[0].priority <= caps[k].priority
            &&& m[0].priority == caps[k].priority ==> lex_le(m[0].stable_id@, caps[k].stable_id@)
        }),
{
    let caps = registry.capability_seq();
    let p = offer_applies(capability_id, contract_id, scope, op);
    let i0 = crate::seqs::lemma_first_passing(caps, p, k);
    crate::seqs::lemma_filter_prefix_first(caps, p, i0);
    if i0 < k {
        assert(caps[i0].key_le(caps[k]));
    } else {
        crate::text::lemma_lex_refl(caps[k].stable_id@);
    }
}

} // verus!
