//! The messages exchanged with messaging provider components.
use vstd::prelude::*;

use crate::host::{base64_encode, base64_standard, JsonItem, OperatorContext};
use crate::static_routes::opt_view;
use crate::text::text;

verus! {

/// An HTTP request handed to a provider's ingress, version 1.
#[derive(Debug, PartialEq, Eq)]
pub struct HttpInV1 {
    pub v: u32,
    pub provider: String,
    pub route: Option<String>,
    pub binding_id: Option<String>,
    pub tenant_hint: Option<String>,
    pub team_hint: Option<String>,
    pub method: String,
    pub path: String,
    pub query: Vec<(String, String)>,
    pub headers: Vec<(String, String)>,
    pub body_b64: String,
}

/// An HTTP response a provider's ingress produced, version 1.
#[derive(Debug, PartialEq)]
pub struct HttpOutV1 {
    pub v: u32,
    pub status: u16,
    pub headers: Vec<(String, String)>,
    pub body_b64: Option<String>,
    pub events: Vec<JsonItem>,
}

/// A request to render a message into a plan, version 1.
#[derive(Debug, PartialEq)]
pub struct RenderPlanInV1 {
    pub v: u32,
    pub message: JsonItem,
}

/// A request to encode a message by a plan, version 1.
#[derive(Debug, PartialEq)]
pub struct EncodeInV1 {
    pub v: u32,
    pub message: JsonItem,
    pub plan: JsonItem,
}

/// A provider's answer to an encode request, version 1.
#[derive(Debug, PartialEq)]
pub struct EncodeOutV1 {
    pub ok: bool,
    pub payload: Option<ProviderPayloadV1>,
    pub error: Option<String>,
}

/// What a provider sends: a content type, the body in base64 and metadata,
/// either as JSON text (`metadata_json`) or as a value (`metadata`).
#[derive(Debug, PartialEq)]
pub struct ProviderPayloadV1 {
    pub content_type: String,
    pub body_b64: String,
    pub metadata_json: Option<String>,
    pub metadata: Option<JsonItem>,
}

/// A request to send a payload through a provider, version 1.
#[derive(Debug, PartialEq)]
pub struct SendPayloadInV1 {
    pub v: u32,
    pub provider_type: String,
    pub payload: ProviderPayloadV1,
    pub tenant: TenantHint,
    pub reply_scope: Option<JsonItem>,
}

/// A render plan a provider produced.
#[derive(Debug, PartialEq, Eq)]
pub struct RenderPlanOutPlan {
    pub plan_json: String,
}

/// A provider's answer to a render-plan request, version 1.
#[derive(Debug, PartialEq, Eq)]
pub struct RenderPlanOutV1 {
    pub ok: bool,
    pub plan: Option<RenderPlanOutPlan>,
    pub error: Option<String>,
}

/// A provider's answer to a send request, version 1.
#[derive(Debug, PartialEq, Eq)]
pub struct SendPayloadOutV1 {
    pub ok: bool,
    pub message: Option<String>,
    pub retryable: bool,
}

/// The tenant, team, user and correlation that accompany outbound requests.
#[derive(Debug, PartialEq, Eq)]
pub struct TenantHint {
    pub tenant: String,
    pub team: Option<String>,
    pub user: Option<String>,
    pub correlation_id: Option<String>,
}

/// The tenant hint of an operator context: its tenant, team and
/// correlation id, and no user.
pub fn tenant_hint(ctx: &OperatorContext) -> (r: TenantHint)
    ensures
        r.tenant@ == ctx.tenant@,
        opt_view(r.team) == opt_view(ctx.team),
        r.user is None,
        opt_view(r.correlation_id) == opt_view(ctx.correlation_id),
{
    TenantHint {
        tenant: ctx.tenant.clone(),
        team: match &ctx.team {
            Some(t) => Some(t.clone()),
            None => None,
        },
        user: None,
        correlation_id: match &ctx.correlation_id {
            Some(c) => Some(c.clone()),
            None => None,
        },
    }
}

/// The ingress request for an HTTP call to a provider: version 1, the call's
/// parts as given and its body in base64.
pub fn build_ingress_request(
    provider: &str,
    route: Option<String>,
    method: &str,
    path: &str,
    headers: Vec<(String, String)>,
    query: Vec<(String, String)>,
    body: &[u8],
    binding_id: Option<String>,
    tenant_hint: Option<String>,
    team_hint: Option<String>,
) -> (r: HttpInV1)
    ensures
        r.v == 1,
        r.provider@ == provider@,
        r.route == route,
        r.binding_id == binding_id,
        r.tenant_hint == tenant_hint,
        r.team_hint == team_hint,
        r.method@ == method@,
        r.path@ == path@,
        r.query == query,
        r.headers == headers,
        r.body_b64@ == base64_standard(body@),
{
    HttpInV1 {
        v: 1,
        provider: text(provider),
        route,
        binding_id,
        tenant_hint,
        team_hint,
        method: text(method),
        path: text(path),
        query,
        headers,
        body_b64: base64_encode(body),
    }
}

/// The request to render `message` into a plan.
pub fn build_render_plan_input(message: JsonItem) -> (r: RenderPlanInV1)
    ensures
        r.v == 1,
        r.message == message,
{
    RenderPlanInV1 { v: 1, message }
}

/// The request to encode `message` by `plan`.
pub fn build_encode_input(message: JsonItem, plan: JsonItem) -> (r: EncodeInV1)
    ensures
        r.v == 1,
        r.message == message,
        r.plan == plan,
{
    EncodeInV1 { v: 1, message, plan }
}

/// The request to send `payload` through a provider of `provider_type` for
/// a tenant and team, with no user, correlation or reply scope.
pub fn build_send_payload(
    payload: ProviderPayloadV1,
    provider_type: String,
    tenant: String,
    team: Option<String>,
) -> (r: SendPayloadInV1)
    ensures
        r.v == 1,
        r.provider_type == provider_type,
        r.payload == payload,
        r.tenant.tenant == tenant,
        r.tenant.team == team,
        r.tenant.user is None,
        r.tenant.correlation_id is None,
        r.reply_scope is None,
{
    SendPayloadInV1 {
        v: 1,
        provider_type,
        payload,
        tenant: TenantHint { tenant, team, user: None, correlation_id: None },
        reply_scope: None,
    }
}

} // verus!
