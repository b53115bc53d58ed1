//! How the local runtime store names things: the files that hold provider
//! state and sessions of a bundle, the state keys it accepts, and the text
//! form of session keys that the session store indexes by.
use vstd::prelude::*;

use crate::runtime_core::{ScopedStateKey, SessionKey};
use crate::state_layout::{bundle_state_root, join_path, path_join, runtime_bundle_state_root};
use crate::static_routes::opt_view;
use crate::text::{chars_of, concat, extend_chars, slice_chars, string_of, text, text_eq, texts_of};

verus! {

// ---------------------------------------------------------------------------
// State keys
// ---------------------------------------------------------------------------

pub open spec fn key_char(c: char) -> char {
    if c == '/' || c == '\\' || c == ':' || c == '#' {
        '_'
    } else {
        c
    }
}

/// A state key with path and scope separators (`/`, `\`, `:`, `#`) made `_`.
pub open spec fn sanitized_key(value: Seq<char>) -> Seq<char> {
    value.map_values(|c: char| key_char(c))
}

/// Makes a state key safe to use as a file name.
pub fn sanitize_state_key(value: &str) -> (r: String)
    ensures
        r@ == sanitized_key(value@),
{
    let v = chars_of(value);
    let mut out: Vec<char> = Vec::new();
    let mut i: usize = 0;
    while i < v.len()
        invariant
            i <= v@.len(),
            v@ == value@,
            out@ == value@.take(i as int).map_values(|c: char| key_char(c)),
        decreases v@.len() - i,
    {
        let c = v[i];
        if c == '/' || c == '\\' || c == ':' || c == '#' {
            out.push('_');
        } else {
            out.push(c);
        }
        i += 1;
        assert(out@ =~= value@.take(i as int).map_values(|c: char| key_char(c)));
    }
    assert(value@.take(value@.len() as int) =~= value@);
    string_of(out.as_slice())
}

// ---------------------------------------------------------------------------
// Files of the local store
// ---------------------------------------------------------------------------

pub open spec fn team_dir(team: Option<String>) -> Seq<char> {
    match team {
        Some(t) => t@,
        None => "default"@,
    }
}

/// `<tenant>/<team or default>/<kind>` under `base`.
pub open spec fn tenant_dir(base: Seq<char>, tenant: Seq<char>, team: Option<String>, kind: Seq<char>) -> Seq<
    char,
> {
    path_join(path_join(path_join(base, tenant), team_dir(team)), kind)
}

/// The file of a provider state value under a base directory.
pub open spec fn state_file(base: Seq<char>, key: ScopedStateKey) -> Seq<char> {
    path_join(
        path_join(tenant_dir(base, key.tenant@, key.team, "provider-state"@), key.scope@),
        key.key@ + ".json"@,
    )
}

/// The file of a session under a base directory.
pub open spec fn session_file(base: Seq<char>, key: SessionKey) -> Seq<char> {
    path_join(tenant_dir(base, key.tenant@, key.team, "sessions"@), key.session_id@ + ".json"@)
}

/// `<bundle root>/state/runtime`, where state was kept before it was kept per bundle.
pub open spec fn legacy_root(bundle_root: Seq<char>) -> Seq<char> {
    path_join(path_join(bundle_root, "state"@), "runtime"@)
}

fn team_text(team: &Option<String>) -> (r: &str)
    ensures
        r@ == team_dir(*team),
{
    match team {
        Some(t) => t.as_str(),
        None => "default",
    }
}

fn tenant_dir_text(base: &str, tenant: &str, team: &Option<String>, kind: &str) -> (r: String)
    ensures
        r@ == tenant_dir(base@, tenant@, *team, kind@),
{
    let a = join_path(base, tenant);
    let b = join_path(a.as_str(), team_text(team));
    join_path(b.as_str(), kind)
}

/// The file holding a provider state value of the active bundle.
pub fn state_path(bundle_root: &str, bundle_id: &str, key: &ScopedStateKey) -> (r: String)
    ensures
        r@ == state_file(bundle_state_root(bundle_root@, bundle_id@), *key),
{
    let base = runtime_bundle_state_root(bundle_root, bundle_id);
    let d = tenant_dir_text(base.as_str(), key.tenant.as_str(), &key.team, "provider-state");
    let s = join_path(d.as_str(), key.scope.as_str());
    let f = concat(key.key.as_str(), ".json");
    join_path(s.as_str(), f.as_str())
}

/// The file that held a provider state value before state was kept per bundle.
pub fn legacy_state_path(bundle_root: &str, key: &ScopedStateKey) -> (r: String)
    ensures
        r@ == state_file(legacy_root(bundle_root@), *key),
{
    let a = join_path(bundle_root, "state");
    let base = join_path(a.as_str(), "runtime");
    let d = tenant_dir_text(base.as_str(), key.tenant.as_str(), &key.team, "provider-state");
    let s = join_path(d.as_str(), key.scope.as_str());
    let f = concat(key.key.as_str(), ".json");
    join_path(s.as_str(), f.as_str())
}

/// The file holding a session of the active bundle.
pub fn session_path(bundle_root: &str, bundle_id: &str, key: &SessionKey) -> (r: String)
    ensures
        r@ == session_file(bundle_state_root(bundle_root@, bundle_id@), *key),
{
    let base = runtime_bundle_state_root(bundle_root, bundle_id);
    let d = tenant_dir_text(base.as_str(), key.tenant.as_str(), &key.team, "sessions");
    let f = concat(key.session_id.as_str(), ".json");
    join_path(d.as_str(), f.as_str())
}

/// The file that held a session before sessions were kept per bundle.
pub fn legacy_session_path(bundle_root: &str, key: &SessionKey) -> (r: String)
    ensures
        r@ == session_file(legacy_root(bundle_root@), *key),
{
    let a = join_path(bundle_root, "state");
    let base = join_path(a.as_str(), "runtime");
    let d = tenant_dir_text(base.as_str(), key.tenant.as_str(), &key.team, "sessions");
    let f = concat(key.session_id.as_str(), ".json");
    join_path(d.as_str(), f.as_str())
}

/// The two directories sessions of a tenant (and team) are searched in: the
/// active bundle's, then the one from before sessions were kept per bundle.
pub fn session_roots_for_lookup(
    bundle_root: &str,
    bundle_id: &str,
    tenant: &str,
    team: Option<&str>,
) -> (r: (String, String))
    ensures
        ({
            let t = match team {
                Some(x) => x@,
                None => "default"@,
            };
            &&& r.0@ == path_join(
                path_join(path_join(bundle_state_root(bundle_root@, bundle_id@), tenant@), t),
                "sessions"@,
            )
            &&& r.1@ == path_join(
                path_join(path_join(legacy_root(bundle_root@), tenant@), t),
                "sessions"@,
            )
        }),
{
    let team = match team {
        Some(x) => x,
        None => "default",
    };
    let base = runtime_bundle_state_root(bundle_root, bundle_id);
    let a = join_path(base.as_str(), tenant);
    let b = join_path(a.as_str(), team);
    let first = join_path(b.as_str(), "sessions");
    let s = join_path(bundle_root, "state");
    let l = join_path(s.as_str(), "runtime");
    let c = join_path(l.as_str(), tenant);
    let d = join_path(c.as_str(), team);
    let second = join_path(d.as_str(), "sessions");
    (first, second)
}

// ---------------------------------------------------------------------------
// Session keys as text
// ---------------------------------------------------------------------------

/// The text form of a session key: `rt::<tenant>::<team or _>::<session>`.
pub open spec fn encoded_session_key(tenant: Seq<char>, team: Option<Seq<char>>, session: Seq<char>) -> Seq<
    char,
> {
    "rt::"@ + tenant + "::"@ + match team {
        Some(t) => t,
        None => "_"@,
    } + "::"@ + session
}

/// Writes a session key as text.
pub fn encode_session_key(key: &SessionKey) -> (r: String)
    ensures
        r@ == encoded_session_key(key.tenant@, opt_view(key.team), key.session_id@),
{
    let mut v = chars_of("rt::");
    extend_chars(&mut v, key.tenant.as_str());
    extend_chars(&mut v, "::");
    match &key.team {
        Some(t) => extend_chars(&mut v, t.as_str()),
        None => extend_chars(&mut v, "_"),
    }
    extend_chars(&mut v, "::");
    extend_chars(&mut v, key.session_id.as_str());
    string_of(v.as_slice())
}

/// The first position from `k` on where `::` starts, or -1.
pub open spec fn first_sep(s: Seq<char>, k: int) -> int
    decreases s.len() - k,
{
    if k < 0 || k + 1 >= s.len() {
        -1
    } else if s[k] == ':' && s[k + 1] == ':' {
        k
    } else {
        first_sep(s, k + 1)
    }
}

pub proof fn lemma_first_sep_bound(s: Seq<char>, k: int)
    requires
        0 <= k,
    ensures
        first_sep(s, k) == -1 || (k <= first_sep(s, k) && first_sep(s, k) + 2 <= s.len()
            && s[first_sep(s, k)] == ':' && s[first_sep(s, k) + 1] == ':'),
    decreases s.len() - k,
{
    if k + 1 < s.len() && !(s[k] == ':' && s[k + 1] == ':') {
        lemma_first_sep_bound(s, k + 1);
    }
}

/// `s.split("::")`: the texts between non-overlapping occurrences of `::`,
/// found left to right.
pub open spec fn split_colons(s: Seq<char>) -> Seq<Seq<char>>
    decreases s.len(),
{
    let i = first_sep(s, 0);
    if i < 0 {
        seq![s]
    } else {
        proof {
            lemma_first_sep_bound(s, 0);
        }
        seq![s.take(i)] + split_colons(s.skip(i + 2))
    }
}

/// The session key a text form stands for: exactly four parts, the first `rt`.
pub open spec fn decoded_session_key(encoded: Seq<char>) -> Option<
    (Seq<char>, Option<Seq<char>>, Seq<char>),
> {
    let ps = split_colons(encoded);
    if ps.len() == 4 && ps[0] == "rt"@ {
        Some((ps[1], if ps[2] == "_"@ {
            None
        } else {
            Some(ps[2])
        }, ps[3]))
    } else {
        None
    }
}

/// Splits a text at each `::`.
pub fn split_double_colon(s: &str) -> (r: Vec<String>)
    ensures
        texts_of(r@) == split_colons(s@),
{
    let v = chars_of(s);
    let mut parts: Vec<String> = Vec::new();
    let mut start: usize = 0;
    let mut k: usize = 0;
    assert(s@.skip(0) =~= s@);
    proof {
        lemma_first_sep_shift(s@, 0);
    }
    while v.len() - k > 1
        invariant
            v@ == s@,
            start <= k <= v@.len(),
            texts_of(parts@) + split_colons(s@.skip(start as int)) == split_colons(s@),
            first_sep(s@.skip(start as int), 0) == if first_sep(s@, k as int) < 0 {
                -1
            } else {
                first_sep(s@, k as int) - start
            },
        decreases v@.len() - k,
    {
        if v[k] == ':' && v[k + 1] == ':' {
            let ghost rest = s@.skip(start as int);
            proof {
                lemma_first_sep_bound(rest, 0);
            }
            let piece = slice_chars(v.as_slice(), start, k);
            assert(piece@ =~= rest.take(k - start));
            let ghost before = texts_of(parts@);
            parts.push(string_of(piece.as_slice()));
            assert(rest.skip(k - start + 2) =~= s@.skip(k + 2));
            assert(texts_of(parts@) =~= before.push(piece@));
            assert(texts_of(parts@) + split_colons(s@.skip(k + 2)) =~= before + (seq![rest.take(
                k - start,
            )] + split_colons(rest.skip(k - start + 2))));
            k = k + 2;
            start = k;
            proof {
                lemma_first_sep_shift(s@, k as int);
            }
        } else {
            proof {
                lemma_first_sep_step(s@, start as int, k as int);
            }
            k += 1;
        }
    }
    let ghost rest = s@.skip(start as int);
    proof {
        lemma_first_sep_none(s@, k as int);
        assert(split_colons(rest) == seq![rest]);
    }
    let piece = slice_chars(v.as_slice(), start, v.len());
    assert(piece@ =~= rest);
    let ghost before = texts_of(parts@);
    parts.push(string_of(piece.as_slice()));
    assert(texts_of(parts@) =~= before + seq![rest]);
    parts
}

/// Searching from where a piece starts is searching in that piece.
proof fn lemma_first_sep_shift(s: Seq<char>, k: int)
    requires
        0 <= k <= s.len(),
    ensures
        first_sep(s.skip(k), 0) == if first_sep(s, k) < 0 {
            -1
        } else {
            first_sep(s, k) - k
        },
{
    lemma_first_sep_offset(s, k, 0);
}

proof fn lemma_first_sep_offset(s: Seq<char>, k: int, j: int)
    requires
        0 <= k <= s.len(),
        0 <= j,
    ensures
        first_sep(s.skip(k), j) == if first_sep(s, k + j) < 0 {
            -1
        } else {
            first_sep(s, k + j) - k
        },
    decreases s.len() - k - j,
{
    let t = s.skip(k);
    if j + 1 < t.len() {
        assert(t[j] == s[k + j]);
        assert(t[j + 1] == s[k + j + 1]);
        if !(t[j] == ':' && t[j + 1] == ':') {
            lemma_first_sep_offset(s, k, j + 1);
        }
    }
}

/// A position that starts no `::` does not change where the next one is.
proof fn lemma_first_sep_step(s: Seq<char>, start: int, k: int)
    requires
        0 <= start <= k,
        k + 1 < s.len(),
        !(s[k] == ':' && s[k + 1] == ':'),
        first_sep(s.skip(start), 0) == if first_sep(s, k) < 0 {
            -1
        } else {
            first_sep(s, k) - start
        },
    ensures
        first_sep(s.skip(start), 0) == if first_sep(s, k + 1) < 0 {
            -1
        } else {
            first_sep(s, k + 1) - start
        },
{
}

/// With fewer than two characters left there is no `::`.
proof fn lemma_first_sep_none(s: Seq<char>, k: int)
    requires
        0 <= k,
        k + 1 >= s.len(),
    ensures
        first_sep(s, k) == -1,
{
}

/// Reads a session key from its text form.
pub fn decode_session_key(encoded: &str) -> (r: Option<SessionKey>)
    ensures
        match r {
            Some(k) => decoded_session_key(encoded@) == Some(
                (k.tenant@, opt_view(k.team), k.session_id@),
            ),
            None => decoded_session_key(encoded@) is None,
        },
{
    proof {
        reveal_strlit("rt");
        reveal_strlit("_");
    }
    let parts = split_double_colon(encoded);
    if parts.len() != 4 || !text_eq(parts[0].as_str(), "rt") {
        proof {
            if parts@.len() == 4 {
                assert(texts_of(parts@)[0] == parts@[0]@);
            }
        }
        return None;
    }
    assert(texts_of(parts@)[1] == parts@[1]@);
    assert(texts_of(parts@)[2] == parts@[2]@);
    assert(texts_of(parts@)[3] == parts@[3]@);
    let team = if text_eq(parts[2].as_str(), "_") {
        None
    } else {
        Some(parts[2].clone())
    };
    Some(SessionKey { tenant: parts[1].clone(), team, session_id: parts[3].clone() })
}

// ---------------------------------------------------------------------------
// Laws
// ---------------------------------------------------------------------------

proof fn lemma_no_sep(s: Seq<char>, k: int)
    requires
        0 <= k,
        !s.contains(':'),
    ensures
        first_sep(s, k) == -1,
    decreases s.len() - k,
{
    if k + 1 < s.len() {
        assert(s[k] != ':');
        lemma_no_sep(s, k + 1);
    }
}

proof fn lemma_sep_after(a: Seq<char>, b: Seq<char>, k: int)
    requires
        0 <= k <= a.len(),
        !a.contains(':'),
    ensures
        first_sep(a + "::"@ + b, k) == a.len(),
    decreases a.len() - k,
{
    reveal_strlit("::");
    let s = a + "::"@ + b;
    if k < a.len() {
        assert(s[k] == a[k]);
        lemma_sep_after(a, b, k + 1);
    } else {
        assert(s[k] == ':' && s[k + 1] == ':');
    }
}

/// Splitting `a::b` where `a` holds no `:` gives `a` then the split of `b`.
proof fn lemma_split_front(a: Seq<char>, b: Seq<char>)
    requires
        !a.contains(':'),
    ensures
        split_colons(a + "::"@ + b) == seq![a] + split_colons(b),
{
    reveal_strlit("::");
    let s = a + "::"@ + b;
    lemma_sep_after(a, b, 0);
    assert(s.take(a.len() as int) =~= a);
    assert(s.skip(a.len() + 2int) =~= b);
}

/// Reading back the text form of a session key gives the key, when its
/// tenant, team and session id hold no `:` and its team is not `_`.
pub proof fn law_session_key_roundtrip(tenant: Seq<char>, team: Option<Seq<char>>, session: Seq<char>)
    requires
        !tenant.contains(':'),
        !session.contains(':'),
        team matches Some(t) ==> !t.contains(':') && t != "_"@,
    ensures
        decoded_session_key(encoded_session_key(tenant, team, session)) == Some(
            (tenant, team, session),
        ),
{
    reveal_strlit("rt::");
    reveal_strlit("rt");
    reveal_strlit("::");
    reveal_strlit("_");
    let t = match team {
        Some(x) => x,
        None => "_"@,
    };
    assert(!t.contains(':')) by {
        if team is None {
            assert(t =~= seq!['_']);
        }
    }
    assert(!"rt"@.contains(':')) by {
        assert("rt"@ =~= seq!['r', 't']);
    }
    let e = encoded_session_key(tenant, team, session);
    assert(e =~= "rt"@ + "::"@ + (tenant + "::"@ + (t + "::"@ + session)));
    lemma_split_front("rt"@, tenant + "::"@ + (t + "::"@ + session));
    lemma_split_front(tenant, t + "::"@ + session);
    lemma_split_front(t, session);
    lemma_no_sep(session, 0);
    let ps = split_colons(e);
    assert(ps =~= seq!["rt"@, tenant, t, session]);
}

/// A sanitized state key holds no `/`, `\`, `:` or `#`, keeps its length,
/// and sanitizing it again changes nothing.
pub proof fn law_sanitized_key_has_no_separators(value: Seq<char>)
    ensures
        sanitized_key(value).len() == value.len(),
        !sanitized_key(value).contains('/') && !sanitized_key(value).contains('\\')
            && !sanitized_key(value).contains(':') && !sanitized_key(value).contains('#'),
        sanitized_key(sanitized_key(value)) == sanitized_key(value),
{
    let s = sanitized_key(value);
    assert(sanitized_key(s) =~= s);
}

} // verus!
