//! Desired subscriptions of a demo bundle: the request each one becomes,
//! and when ensuring them is refused.
use vstd::prelude::*;

use crate::operations::new_uuid_v4_text;
use crate::provider_health::{
    policy_refusal, reports_view, request_policy_decision, strs_view, RuntimeProviderHealthState,
};
use crate::text::{concat, text};

verus! {

/// The user a subscription acts for.
#[derive(Debug, PartialEq, Eq)]
pub struct DesiredSubscriptionUser {
    pub user_id: String,
    pub token_key: String,
}

/// A subscription a demo bundle wants to exist.
#[derive(Debug, PartialEq, Eq)]
pub struct DesiredSubscription {
    pub provider: String,
    pub resource: String,
    pub change_types: Vec<String>,
    pub notification_url: Option<String>,
    pub client_state: Option<String>,
    pub user: Option<DesiredSubscriptionUser>,
    pub binding_id: Option<String>,
}

/// A reference to the user a subscription acts for.
#[derive(Debug, PartialEq, Eq)]
pub struct AuthUserRef {
    pub user_id: String,
    pub token_key: String,
    pub tenant_id: Option<String>,
    pub email: Option<String>,
    pub display_name: Option<String>,
}

/// What a provider is asked to make sure of.
#[derive(Debug, PartialEq, Eq)]
pub struct SubscriptionEnsureRequest {
    pub binding_id: String,
    pub resource: Option<String>,
    pub change_types: Vec<String>,
    pub notification_url: Option<String>,
    pub client_state: Option<String>,
    pub user: Option<AuthUserRef>,
    pub expiration_target_unix_ms: Option<u64>,
}

fn clone_opt(s: &Option<String>) -> (r: Option<String>)
    ensures
        r == *s,
{
    match s {
        Some(x) => Some(x.clone()),
        None => None,
    }
}

fn clone_texts(v: &Vec<String>) -> (r: Vec<String>)
    ensures
        r@ == v@,
{
    let mut out: Vec<String> = Vec::new();
    let mut i: usize = 0;
    while i < v.len()
        invariant
            i <= v@.len(),
            out@ == v@.take(i as int),
        decreases v@.len() - i,
    {
        out.push(v[i].clone());
        i += 1;
        assert(out@ =~= v@.take(i as int));
    }
    assert(v@.take(v@.len() as int) =~= v@);
    out
}

/// The request for a desired subscription under `binding_id`: its
/// resource, its change types (`created` when it names none), its
/// notification URL, client state and user, with no expiration target.
pub fn to_request(entry: &DesiredSubscription, binding_id: &str) -> (r: SubscriptionEnsureRequest)
    ensures
        r.binding_id@ == binding_id@,
        r.resource == Some(entry.resource),
        if entry.change_types@.len() == 0 {
            r.change_types@.len() == 1 && r.change_types@[0]@ == "created"@
        } else {
            r.change_types@ == entry.change_types@
        },
        r.notification_url == entry.notification_url,
        r.client_state == entry.client_state,
        match entry.user {
            Some(u) => r.user matches Some(a) && a.user_id == u.user_id && a.token_key == u.token_key
                && a.tenant_id is None && a.email is None && a.display_name is None,
            None => r.user is None,
        },
        r.expiration_target_unix_ms is None,
{
    let change_types = if entry.change_types.len() == 0 {
        let mut v: Vec<String> = Vec::new();
        v.push(text("created"));
        v
    } else {
        clone_texts(&entry.change_types)
    };
    SubscriptionEnsureRequest {
        binding_id: text(binding_id),
        resource: Some(entry.resource.clone()),
        change_types,
        notification_url: clone_opt(&entry.notification_url),
        client_state: clone_opt(&entry.client_state),
        user: match &entry.user {
            Some(u) => Some(
                AuthUserRef {
                    user_id: u.user_id.clone(),
                    token_key: u.token_key.clone(),
                    tenant_id: None,
                    email: None,
                    display_name: None,
                },
            ),
            None => None,
        },
        expiration_target_unix_ms: None,
    }
}

/// The binding a desired subscription is ensured under: its own, or a
/// fresh random UUID when it names none.
pub fn binding_id_for(entry: &DesiredSubscription) -> (r: String)
    ensures
        match entry.binding_id {
            Some(b) => r == b,
            None => crate::operations::is_uuid_v4_text(r@),
        },
{
    match &entry.binding_id {
        Some(b) => b.clone(),
        None => new_uuid_v4_text(),
    }
}

/// Ensuring subscriptions needs the session, state and bundle providers and
/// runs up to degraded level 1; otherwise it is refused with the policy's
/// message.
pub fn subscriptions_policy_gate(health: &RuntimeProviderHealthState) -> (r: Result<(), String>)
    ensures
        ({
            let want = policy_refusal(
                health.degraded_level,
                health.safe_mode,
                reports_view(health.reports@),
                "subscriptions.ensure"@,
                crate::hooks::post_ingress_providers(),
                1,
            );
            match r {
                Ok(()) => want is None,
                Err(e) => want matches Some(x) && e@ == x.message,
            }
        }),
{
    let classes: [&str; 5] = ["session", "state", "bundle_source", "bundle_resolver", "bundle_fs"];
    proof {
        assert(strs_view(classes@) =~= crate::hooks::post_ingress_providers());
    }
    match request_policy_decision(health, "subscriptions.ensure", &classes, 1) {
        Ok(()) => Ok(()),
        Err(refusal) => Err(refusal.message),
    }
}

/// The error for a provider that offers no subscriptions.
pub fn no_subscription_offers(provider_id: &str) -> (r: String)
    ensures
        r@ == "provider "@ + provider_id@ + " does not advertise any subscription offers"@,
{
    let a = concat("provider ", provider_id);
    concat(a.as_str(), " does not advertise any subscription offers")
}

} // verus!
