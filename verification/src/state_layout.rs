//! Where a bundle keeps its run directories, runtime state and logs.
//!
//! Paths are text; joining follows `PathBuf::push` on Unix: an absolute
//! segment replaces what came before, and a `/` is put between segments
//! unless the base is empty or already ends in one.
use vstd::prelude::*;

use crate::domains::{domain_label, domain_name, Domain};
use crate::text::{chars_of, decimal, decimal_text, extend_chars, is_ascii_alnum, string_of};

verus! {

/// `base` joined with `seg`.
pub open spec fn path_join(base: Seq<char>, seg: Seq<char>) -> Seq<char> {
    if seg.len() > 0 && seg[0] == '/' {
        seg
    } else if base.len() == 0 {
        seg
    } else if base.last() == '/' {
        base + seg
    } else {
        base + "/"@ + seg
    }
}

/// Joins a path segment onto a path.
pub fn join_path(base: &str, seg: &str) -> (r: String)
    ensures
        r@ == path_join(base@, seg@),
{
    let s = chars_of(seg);
    if s.len() > 0 && s[0] == '/' {
        return string_of(s.as_slice());
    }
    let mut v = chars_of(base);
    if v.len() > 0 && v[v.len() - 1] != '/' {
        v.push('/');
        assert(v@ =~= base@ + "/"@) by {
            reveal_strlit("/");
        }
    }
    extend_chars(&mut v, seg);
    string_of(v.as_slice())
}

/// Whether a character may stay in a path segment as it is.
pub open spec fn segment_safe(c: char) -> bool {
    is_ascii_alnum(c) || c == '.' || c == '-' || c == '_'
}

/// `value` with every character but ASCII letters, digits, `.`, `-` and `_`
/// replaced by `_`, and `_` for an empty value.
pub open spec fn sanitized_segment(value: Seq<char>) -> Seq<char> {
    if value.len() == 0 {
        "_"@
    } else {
        value.map_values(|c: char| if segment_safe(c) { c } else { '_' })
    }
}

/// Makes a value safe to use as one path segment.
pub fn sanitize_path_segment(value: &str) -> (r: String)
    ensures
        r@ == sanitized_segment(value@),
{
    let v = chars_of(value);
    if v.len() == 0 {
        proof {
            reveal_strlit("_");
        }
        return crate::text::text("_");
    }
    let mut out: Vec<char> = Vec::new();
    let mut i: usize = 0;
    while i < v.len()
        invariant
            i <= v@.len(),
            v@ == value@,
            out@ == value@.take(i as int).map_values(
                |c: char|
                    if segment_safe(c) {
                        c
                    } else {
                        '_'
                    },
            ),
        decreases v@.len() - i,
    {
        let c = v[i];
        let keep = ('0' <= c && c <= '9') || ('a' <= c && c <= 'z') || ('A' <= c && c <= 'Z')
            || c == '.' || c == '-' || c == '_';
        if keep {
            out.push(c);
        } else {
            out.push('_');
        }
        i += 1;
        assert(out@ =~= value@.take(i as int).map_values(
            |c: char|
                if segment_safe(c) {
                    c
                } else {
                    '_'
                },
        ));
    }
    assert(value@.take(value@.len() as int) =~= value@);
    string_of(out.as_slice())
}

/// `root/state/runtime/bundles/<bundle id, sanitized>`.
pub open spec fn bundle_state_root(root: Seq<char>, runtime_bundle_id: Seq<char>) -> Seq<char> {
    path_join(
        path_join(path_join(path_join(root, "state"@), "runtime"@), "bundles"@),
        sanitized_segment(runtime_bundle_id),
    )
}

/// The directory under which the runtime state of one bundle is kept.
pub fn runtime_bundle_state_root(root: &str, runtime_bundle_id: &str) -> (r: String)
    ensures
        r@ == bundle_state_root(root@, runtime_bundle_id@),
{
    let a = join_path(root, "state");
    let b = join_path(a.as_str(), "runtime");
    let c = join_path(b.as_str(), "bundles");
    let id = sanitize_path_segment(runtime_bundle_id);
    let d = join_path(c.as_str(), id.as_str());
    d
}

/// The text of a number.
fn number_text(n: u64) -> (r: String)
    ensures
        r@ == decimal(n as nat),
{
    let d = decimal_text(n as u128);
    string_of(d.as_slice())
}

/// `root/state/runs/<domain>/<pack>/<flow>/<timestamp>`.
pub open spec fn run_dir_path(
    root: Seq<char>,
    domain: Domain,
    pack_label: Seq<char>,
    flow_id: Seq<char>,
    timestamp: u64,
) -> Seq<char> {
    path_join(
        path_join(
            path_join(path_join(path_join(path_join(root, "state"@), "runs"@), domain_label(domain)), pack_label),
            flow_id,
        ),
        decimal(timestamp as nat),
    )
}

/// The run directory of a flow run started at `timestamp` (seconds since
/// the Unix epoch).
pub fn run_dir_at(root: &str, domain: Domain, pack_label: &str, flow_id: &str, timestamp: u64) -> (r:
    String)
    ensures
        r@ == run_dir_path(root@, domain, pack_label@, flow_id@, timestamp),
{
    let a = join_path(root, "state");
    let b = join_path(a.as_str(), "runs");
    let c = join_path(b.as_str(), domain_name(domain));
    let d = join_path(c.as_str(), pack_label);
    let e = join_path(d.as_str(), flow_id);
    let t = number_text(timestamp);
    let f = join_path(e.as_str(), t.as_str());
    f
}

/// `root/state/runtime/bundles/<bundle id, sanitized>/runs/<domain>/<pack>/<flow>/<timestamp>`.
pub open spec fn runtime_run_dir_path(
    root: Seq<char>,
    runtime_bundle_id: Seq<char>,
    domain: Domain,
    pack_label: Seq<char>,
    flow_id: Seq<char>,
    timestamp: u64,
) -> Seq<char> {
    path_join(
        path_join(
            path_join(
                path_join(path_join(bundle_state_root(root, runtime_bundle_id), "runs"@), domain_label(domain)),
                pack_label,
            ),
            flow_id,
        ),
        decimal(timestamp as nat),
    )
}

/// The run directory of a flow run of one runtime bundle, started at `timestamp`.
pub fn runtime_run_dir_at(
    root: &str,
    runtime_bundle_id: &str,
    domain: Domain,
    pack_label: &str,
    flow_id: &str,
    timestamp: u64,
) -> (r: String)
    ensures
        r@ == runtime_run_dir_path(root@, runtime_bundle_id@, domain, pack_label@, flow_id@, timestamp),
{
    let base = runtime_bundle_state_root(root, runtime_bundle_id);
    let b = join_path(base.as_str(), "runs");
    let c = join_path(b.as_str(), domain_name(domain));
    let d = join_path(c.as_str(), pack_label);
    let e = join_path(d.as_str(), flow_id);
    let t = number_text(timestamp);
    let f = join_path(e.as_str(), t.as_str());
    f
}

/// `root/state/logs/secrets/<action>-<timestamp>.log`.
pub open spec fn secrets_log_file(root: Seq<char>, action: Seq<char>, timestamp: u64) -> Seq<char> {
    path_join(
        path_join(path_join(path_join(root, "state"@), "logs"@), "secrets"@),
        action + "-"@ + decimal(timestamp as nat) + ".log"@,
    )
}

/// The log file of a secrets action run at `timestamp`.
pub fn secrets_log_path_at(root: &str, action: &str, timestamp: u64) -> (r: String)
    ensures
        r@ == secrets_log_file(root@, action@, timestamp),
{
    let a = join_path(root, "state");
    let b = join_path(a.as_str(), "logs");
    let c = join_path(b.as_str(), "secrets");
    let mut name = chars_of(action);
    extend_chars(&mut name, "-");
    let t = number_text(timestamp);
    extend_chars(&mut name, t.as_str());
    extend_chars(&mut name, ".log");
    let n = string_of(name.as_slice());
    let d = join_path(c.as_str(), n.as_str());
    d
}

/// `SystemTime::now().duration_since(UNIX_EPOCH)` in whole seconds, or the
/// text of its error (a clock set before the epoch). It reads the clock, so
/// nothing is promised of the value.
#[verifier::external_body]
fn timestamp_secs_raw() -> Result<u64, String> {
    match std::time::SystemTime::now().duration_since(std::time::UNIX_EPOCH) {
        Ok(d) => Ok(d.as_secs()),
        Err(err) => Err(err.to_string()),
    }
}

/// Seconds since the Unix epoch, or why the clock could not be read.
pub(crate) fn timestamp_secs() -> (r: Result<u64, String>)
    ensures
        r matches Err(e) ==> "timestamp error: "@.is_prefix_of(e@),
{
    match timestamp_secs_raw() {
        Ok(t) => Ok(t),
        Err(e) => {
            let m = crate::text::concat("timestamp error: ", e.as_str());
            Err(m)
        },
    }
}

/// The run directory of a flow run started now.
pub fn run_dir(root: &str, domain: Domain, pack_label: &str, flow_id: &str) -> (r: Result<
    String,
    String,
>)
    ensures
        r matches Ok(p) ==> exists|t: u64| p@ == run_dir_path(root@, domain, pack_label@, flow_id@, t),
        r matches Err(e) ==> "timestamp error: "@.is_prefix_of(e@),
{
    let t = match timestamp_secs() {
        Ok(t) => t,
        Err(e) => return Err(e),
    };
    let p = run_dir_at(root, domain, pack_label, flow_id, t);
    assert(p@ == run_dir_path(root@, domain, pack_label@, flow_id@, t));
    Ok(p)
}

/// The run directory of a flow run of one runtime bundle started now.
pub fn runtime_run_dir(
    root: &str,
    runtime_bundle_id: &str,
    domain: Domain,
    pack_label: &str,
    flow_id: &str,
) -> (r: Result<String, String>)
    ensures
        r matches Ok(p) ==> exists|t: u64|
            p@ == runtime_run_dir_path(root@, runtime_bundle_id@, domain, pack_label@, flow_id@, t),
        r matches Err(e) ==> "timestamp error: "@.is_prefix_of(e@),
{
    let t = match timestamp_secs() {
        Ok(t) => t,
        Err(e) => return Err(e),
    };
    let p = runtime_run_dir_at(root, runtime_bundle_id, domain, pack_label, flow_id, t);
    assert(p@ == runtime_run_dir_path(
        root@,
        runtime_bundle_id@,
        domain,
        pack_label@,
        flow_id@,
        t,
    ));
    Ok(p)
}

/// The log file of a secrets action run now.
pub fn secrets_log_path(root: &str, action: &str) -> (r: Result<String, String>)
    ensures
        r matches Ok(p) ==> exists|t: u64| p@ == secrets_log_file(root@, action@, t),
        r matches Err(e) ==> "timestamp error: "@.is_prefix_of(e@),
{
    let t = match timestamp_secs() {
        Ok(t) => t,
        Err(e) => return Err(e),
    };
    let p = secrets_log_path_at(root, action, t);
    assert(p@ == secrets_log_file(root@, action@, t));
    Ok(p)
}

/// A sanitized path segment is never empty, holds only ASCII letters,
/// digits, `.`, `-` and `_`, and sanitizing it again changes nothing.
pub proof fn law_sanitized_segment_is_safe(value: Seq<char>)
    ensures
        sanitized_segment(value).len() > 0,
        forall|i: int|
            0 <= i < sanitized_segment(value).len() ==> segment_safe(
                #[trigger] sanitized_segment(value)[i],
            ),
        sanitized_segment(sanitized_segment(value)) == sanitized_segment(value),
{
    let s = sanitized_segment(value);
    if value.len() == 0 {
        reveal_strlit("_");
        assert(segment_safe('_'));
        assert(s =~= seq!['_']);
        assert(sanitized_segment(s) =~= s);
    } else {
        assert(sanitized_segment(s) =~= s);
    }
}

} // verus!
