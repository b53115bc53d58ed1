//! What the runtime reports about itself: the control plane's state (drain,
//! shutdown, the last control requests), readiness, and how delivering
//! runtime events to telemetry and observers went.
use vstd::prelude::*;

use crate::host::{get, get_member, JsonItem};
use crate::state_layout::{join_path, path_join};
use crate::static_routes::opt_view;
use crate::text::{ascii_lowercase, concat, decimal, decimal_text, extend_chars, string_of, text, text_eq, to_ascii_lowercase, trim, trim_seq};

verus! {

// ---------------------------------------------------------------------------
// Control state
// ---------------------------------------------------------------------------

/// A control request the runtime recorded: its action, when it came and its
/// payload as JSON text.
#[derive(Debug, PartialEq, Eq)]
pub struct RuntimeControlRequestReport {
    pub action: String,
    pub requested_at_unix_ms: u64,
    pub payload_json: String,
}

/// The runtime's control-plane state.
#[derive(Debug, PartialEq, Eq)]
pub struct RuntimeControlState {
    pub node_id: String,
    pub start_time_unix_ms: u64,
    pub draining: bool,
    pub is_leader: bool,
    pub log_level: Option<String>,
    pub shutdown_requested: bool,
    pub last_shutdown_request_unix_ms: Option<u64>,
    pub last_deployment_request: Option<RuntimeControlRequestReport>,
    pub last_config_publish: Option<RuntimeControlRequestReport>,
    pub last_cache_invalidate: Option<RuntimeControlRequestReport>,
}

impl RuntimeControlState {
    /// The state of a node that has just started: serving, leader, nothing requested.
    pub fn new(node_id: String, start_time_unix_ms: u64, log_level: Option<String>) -> (r: Self)
        ensures
            r.node_id == node_id,
            r.start_time_unix_ms == start_time_unix_ms,
            !r.draining,
            r.is_leader,
            r.log_level == log_level,
            !r.shutdown_requested,
            r.last_shutdown_request_unix_ms is None,
            r.last_deployment_request is None,
            r.last_config_publish is None,
            r.last_cache_invalidate is None,
    {
        RuntimeControlState {
            node_id,
            start_time_unix_ms,
            draining: false,
            is_leader: true,
            log_level,
            shutdown_requested: false,
            last_shutdown_request_unix_ms: None,
            last_deployment_request: None,
            last_config_publish: None,
            last_cache_invalidate: None,
        }
    }

    /// Starts or stops draining.
    pub fn set_draining(&mut self, draining: bool)
        ensures
            *final(self) == (RuntimeControlState { draining, ..*old(self) }),
    {
        self.draining = draining;
    }

    /// Records a shutdown request made at `requested_at_unix_ms`: the node
    /// drains and is marked for shutdown.
    pub fn request_shutdown(&mut self, requested_at_unix_ms: u64)
        ensures
            *final(self) == (RuntimeControlState {
                draining: true,
                shutdown_requested: true,
                last_shutdown_request_unix_ms: Some(requested_at_unix_ms),
                ..*old(self)
            }),
    {
        self.draining = true;
        self.shutdown_requested = true;
        self.last_shutdown_request_unix_ms = Some(requested_at_unix_ms);
    }

    /// Records the last deployment request.
    pub fn record_deployment_request(&mut self, report: RuntimeControlRequestReport)
        ensures
            *final(self) == (RuntimeControlState {
                last_deployment_request: Some(report),
                ..*old(self)
            }),
    {
        self.last_deployment_request = Some(report);
    }

    /// Records the last config publication.
    pub fn record_config_publish(&mut self, report: RuntimeControlRequestReport)
        ensures
            *final(self) == (RuntimeControlState { last_config_publish: Some(report), ..*old(self) }),
    {
        self.last_config_publish = Some(report);
    }

    /// Records the last cache invalidation.
    pub fn record_cache_invalidate(&mut self, report: RuntimeControlRequestReport)
        ensures
            *final(self) == (RuntimeControlState { last_cache_invalidate: Some(report), ..*old(self) }),
    {
        self.last_cache_invalidate = Some(report);
    }

    /// Sets the log level.
    pub fn set_log_level(&mut self, log_level: String)
        ensures
            *final(self) == (RuntimeControlState { log_level: Some(log_level), ..*old(self) }),
    {
        self.log_level = Some(log_level);
    }
}

/// A node is ready when it is not draining and direct execution is allowed
/// (its degraded level is below 3).
pub open spec fn node_ready(draining: bool, degraded_level: u8) -> bool {
    !draining && degraded_level < 3
}

/// Whether the node is ready to serve.
pub fn readiness(control: &RuntimeControlState, degraded_level: u8) -> (r: bool)
    ensures
        r == node_ready(control.draining, degraded_level),
{
    !control.draining && degraded_level < 3
}

/// After a shutdown request the node drains, so it is not ready whatever its
/// degraded level, and it is marked for shutdown.
pub proof fn law_shutdown_drains(before: RuntimeControlState, after: RuntimeControlState, at: u64, level: u8)
    requires
        after == (RuntimeControlState {
            draining: true,
            shutdown_requested: true,
            last_shutdown_request_unix_ms: Some(at),
            ..before
        }),
    ensures
        !node_ready(after.draining, level),
        after.shutdown_requested,
        after.node_id == before.node_id,
{
}

// ---------------------------------------------------------------------------
// Event delivery
// ---------------------------------------------------------------------------

/// Where a runtime event goes.
#[derive(Clone, Copy, Debug, PartialEq, Eq, Structural)]
pub enum EventDeliveryTarget {
    Telemetry,
    Observer,
}

/// How delivering an event went.
#[derive(Debug, PartialEq, Eq)]
pub enum EventDeliveryOutcome {
    Delivered,
    TimedOut,
    Failed(String),
}

/// Counts and last errors of event delivery.
#[derive(Debug, Default, PartialEq, Eq)]
pub struct RuntimeEventDeliveryReport {
    pub telemetry_failures: u64,
    pub telemetry_timeouts: u64,
    pub observer_failures: u64,
    pub observer_timeouts: u64,
    pub dropped_events: u64,
    pub last_dropped_event_type: Option<String>,
    pub last_telemetry_error: Option<String>,
    pub last_observer_error: Option<String>,
}

impl RuntimeEventDeliveryReport {
    /// Nothing counted yet.
    pub fn new() -> (r: Self)
        ensures
            r.telemetry_failures == 0 && r.telemetry_timeouts == 0 && r.observer_failures == 0
                && r.observer_timeouts == 0 && r.dropped_events == 0,
            r.last_dropped_event_type is None && r.last_telemetry_error is None
                && r.last_observer_error is None,
    {
        RuntimeEventDeliveryReport {
            telemetry_failures: 0,
            telemetry_timeouts: 0,
            observer_failures: 0,
            observer_timeouts: 0,
            dropped_events: 0,
            last_dropped_event_type: None,
            last_telemetry_error: None,
            last_observer_error: None,
        }
    }

    /// Counts how delivering an event to a target went: a timeout or a
    /// failure is counted for that target and becomes its last error; a
    /// delivery changes nothing.
    pub fn record(&mut self, target: EventDeliveryTarget, outcome: EventDeliveryOutcome)
        requires
            match (target, outcome) {
                (EventDeliveryTarget::Telemetry, EventDeliveryOutcome::TimedOut) => old(
                    self,
                ).telemetry_timeouts < u64::MAX,
                (EventDeliveryTarget::Telemetry, EventDeliveryOutcome::Failed(_)) => old(
                    self,
                ).telemetry_failures < u64::MAX,
                (EventDeliveryTarget::Observer, EventDeliveryOutcome::TimedOut) => old(
                    self,
                ).observer_timeouts < u64::MAX,
                (EventDeliveryTarget::Observer, EventDeliveryOutcome::Failed(_)) => old(
                    self,
                ).observer_failures < u64::MAX,
                _ => true,
            },
        ensures
            match (target, outcome) {
                (_, EventDeliveryOutcome::Delivered) => *final(self) == *old(self),
                (EventDeliveryTarget::Telemetry, EventDeliveryOutcome::TimedOut) => *final(self)
                    == (RuntimeEventDeliveryReport {
                    telemetry_timeouts: (old(self).telemetry_timeouts + 1) as u64,
                    last_telemetry_error: final(self).last_telemetry_error,
                    ..*old(self)
                }) && opt_view(final(self).last_telemetry_error) == Some(
                    "telemetry event delivery timed out"@,
                ),
                (EventDeliveryTarget::Telemetry, EventDeliveryOutcome::Failed(err)) => *final(self)
                    == (RuntimeEventDeliveryReport {
                    telemetry_failures: (old(self).telemetry_failures + 1) as u64,
                    last_telemetry_error: Some(err),
                    ..*old(self)
                }),
                (EventDeliveryTarget::Observer, EventDeliveryOutcome::TimedOut) => *final(self)
                    == (RuntimeEventDeliveryReport {
                    observer_timeouts: (old(self).observer_timeouts + 1) as u64,
                    last_observer_error: final(self).last_observer_error,
                    ..*old(self)
                }) && opt_view(final(self).last_observer_error) == Some(
                    "observer event delivery timed out"@,
                ),
                (EventDeliveryTarget::Observer, EventDeliveryOutcome::Failed(err)) => *final(self)
                    == (RuntimeEventDeliveryReport {
                    observer_failures: (old(self).observer_failures + 1) as u64,
                    last_observer_error: Some(err),
                    ..*old(self)
                }),
            },
    {
        match (target, outcome) {
            (EventDeliveryTarget::Telemetry, EventDeliveryOutcome::Delivered) => {},
            (EventDeliveryTarget::Telemetry, EventDeliveryOutcome::TimedOut) => {
                self.telemetry_timeouts = self.telemetry_timeouts + 1;
                self.last_telemetry_error = Some(text("telemetry event delivery timed out"));
            },
            (EventDeliveryTarget::Telemetry, EventDeliveryOutcome::Failed(err)) => {
                self.telemetry_failures = self.telemetry_failures + 1;
                self.last_telemetry_error = Some(err);
            },
            (EventDeliveryTarget::Observer, EventDeliveryOutcome::Delivered) => {},
            (EventDeliveryTarget::Observer, EventDeliveryOutcome::TimedOut) => {
                self.observer_timeouts = self.observer_timeouts + 1;
                self.last_observer_error = Some(text("observer event delivery timed out"));
            },
            (EventDeliveryTarget::Observer, EventDeliveryOutcome::Failed(err)) => {
                self.observer_failures = self.observer_failures + 1;
                self.last_observer_error = Some(err);
            },
        }
    }

    /// Counts an event dropped before delivery.
    pub fn record_drop(&mut self, event_type: &str)
        requires
            old(self).dropped_events < u64::MAX,
        ensures
            *final(self) == (RuntimeEventDeliveryReport {
                dropped_events: (old(self).dropped_events + 1) as u64,
                last_dropped_event_type: final(self).last_dropped_event_type,
                ..*old(self)
            }),
            opt_view(final(self).last_dropped_event_type) == Some(event_type@),
    {
        self.dropped_events = self.dropped_events + 1;
        self.last_dropped_event_type = Some(text(event_type));
    }
}

// ---------------------------------------------------------------------------
// Control requests
// ---------------------------------------------------------------------------

/// How much the operator logs.
#[derive(Clone, Copy, Debug, PartialEq, Eq, Structural)]
pub enum LogLevel {
    Trace,
    Debug,
    Info,
    Warn,
    Error,
}

/// The level a normalized name stands for (`warning` is `warn`).
pub open spec fn log_level_named(n: Seq<char>) -> Option<LogLevel> {
    if n == "trace"@ {
        Some(LogLevel::Trace)
    } else if n == "debug"@ {
        Some(LogLevel::Debug)
    } else if n == "info"@ {
        Some(LogLevel::Info)
    } else if n == "warn"@ || n == "warning"@ {
        Some(LogLevel::Warn)
    } else if n == "error"@ {
        Some(LogLevel::Error)
    } else {
        None
    }
}

/// Reads a requested log level: trimmed and lower-cased, it must name a
/// level; the normalized name is returned with it.
pub fn parse_log_level(level: &str) -> (r: Result<(LogLevel, String), String>)
    ensures
        ({
            let n = ascii_lowercase(trim_seq(level@));
            match r {
                Ok((l, name)) => log_level_named(n) == Some(l) && name@ == n,
                Err(e) => log_level_named(n) is None && e@ == "unsupported log level: "@ + level@,
            }
        }),
{
    let t = trim(level);
    let normalized = to_ascii_lowercase(t.as_str());
    let n = normalized.as_str();
    let l = if text_eq(n, "trace") {
        LogLevel::Trace
    } else if text_eq(n, "debug") {
        LogLevel::Debug
    } else if text_eq(n, "info") {
        LogLevel::Info
    } else if text_eq(n, "warn") || text_eq(n, "warning") {
        LogLevel::Warn
    } else if text_eq(n, "error") {
        LogLevel::Error
    } else {
        return Err(concat("unsupported log level: ", level));
    };
    Ok((l, normalized))
}

/// The scope a cache invalidation asks for: the payload's `scope` text,
/// `all` when it names none.
pub fn cache_invalidate_scope(payload: &JsonItem) -> (r: String)
    ensures
        r@ == match get(*payload, "scope"@) {
            Some(JsonItem::Str(s)) => s@,
            _ => "all"@,
        },
{
    match get_member(payload, "scope") {
        Some(JsonItem::Str(s)) => s.clone(),
        _ => text("all"),
    }
}

/// Whether a cache invalidation of `scope` clears the provider registry cache.
pub fn invalidates_provider_registry(scope: &str) -> (r: bool)
    ensures
        r == (scope@ == "all"@ || scope@ == "provider_registry"@),
{
    text_eq(scope, "all") || text_eq(scope, "provider_registry")
}

/// Whether a cache invalidation of `scope` clears the providers' contract caches.
pub fn invalidates_contracts(scope: &str) -> (r: bool)
    ensures
        r == (scope@ == "all"@ || scope@ == "contracts"@),
{
    text_eq(scope, "all") || text_eq(scope, "contracts")
}

/// `<bundle>/.greentic/cache/provider-registry`.
pub fn provider_registry_cache_dir(bundle_root: &str) -> (r: String)
    ensures
        r@ == path_join(path_join(path_join(bundle_root@, ".greentic"@), "cache"@), "provider-registry"@),
{
    let a = join_path(bundle_root, ".greentic");
    let b = join_path(a.as_str(), "cache");
    join_path(b.as_str(), "provider-registry")
}

/// Where a published config is kept: `latest.json` and `<time>.json` under
/// `<bundle>/state/runtime/control_plane/config_publish`.
pub fn config_publish_paths(bundle_root: &str, published_at_unix_ms: u64) -> (r: (String, String))
    ensures
        ({
            let root = path_join(
                path_join(path_join(path_join(bundle_root@, "state"@), "runtime"@), "control_plane"@),
                "config_publish"@,
            );
            &&& r.0@ == path_join(root, "latest.json"@)
            &&& r.1@ == path_join(root, decimal(published_at_unix_ms as nat) + ".json"@)
        }),
{
    let a = join_path(bundle_root, "state");
    let b = join_path(a.as_str(), "runtime");
    let c = join_path(b.as_str(), "control_plane");
    let root = join_path(c.as_str(), "config_publish");
    let latest = join_path(root.as_str(), "latest.json");
    let mut name = decimal_text(published_at_unix_ms as u128);
    extend_chars(&mut name, ".json");
    let n = string_of(name.as_slice());
    let history = join_path(root.as_str(), n.as_str());
    (latest, history)
}

} // verus!
