//! Static asset routes that packs publish, checked against the operator's
//! reserved paths and matched against request paths.
use vstd::prelude::*;

use crate::assoc::{assoc_find, assoc_insert, keys_strictly_sorted, lookup};
use crate::domains::{domain_label, domain_name, Domain};
use crate::seqs::{lemma_map_multiset, lemma_take_all};
use crate::sorting::{int_then, sort_by_key, sorted_by_key, stably_sorted_from, SortKey};
use crate::text::{chars_of, concat, contains_char, decimal, decimal_text, extend_chars, join, join_texts, lemma_lex_total, lemma_lex_trans, lex_le, pieces, seq_ends_with, ends_with, texts_of, split_pieces, string_of, text, text_eq, text_le, trim, trim_chars, trim_seq};

verus! {

pub const EXT_STATIC_ROUTES_V1: &'static str = "greentic.static-routes.v1";

#[derive(Debug, PartialEq, Eq)]
pub enum RouteScopeSegment {
    Literal(String),
    Tenant,
    Team,
}

/// A route segment as the contracts see it.
pub enum SegmentView {
    Literal(Seq<char>),
    Tenant,
    Team,
}

impl View for RouteScopeSegment {
    type V = SegmentView;

    open spec fn view(&self) -> SegmentView {
        match self {
            RouteScopeSegment::Literal(s) => SegmentView::Literal(s@),
            RouteScopeSegment::Tenant => SegmentView::Tenant,
            RouteScopeSegment::Team => SegmentView::Team,
        }
    }
}

pub open spec fn segments_view(s: Seq<RouteScopeSegment>) -> Seq<SegmentView> {
    s.map_values(|x: RouteScopeSegment| x@)
}

impl Clone for RouteScopeSegment {
    fn clone(&self) -> (r: Self)
        ensures
            r == *self,
    {
        match self {
            RouteScopeSegment::Literal(s) => RouteScopeSegment::Literal(s.clone()),
            RouteScopeSegment::Tenant => RouteScopeSegment::Tenant,
            RouteScopeSegment::Team => RouteScopeSegment::Team,
        }
    }
}

#[derive(Clone, Copy, Debug, PartialEq, Eq, Structural)]
pub enum CacheStrategy {
    NoCaching,
    PublicMaxAge { max_age_seconds: u64 },
}

#[derive(Debug, PartialEq, Eq)]
pub struct StaticRouteDescriptor {
    pub route_id: String,
    pub pack_id: String,
    pub pack_path: String,
    pub public_path: String,
    pub source_root: String,
    pub index_file: Option<String>,
    pub spa_fallback: Option<String>,
    pub tenant_scoped: bool,
    pub team_scoped: bool,
    pub cache_strategy: CacheStrategy,
    pub route_segments: Vec<RouteScopeSegment>,
}

/// A route descriptor with its segments as a sequence.
pub struct StaticRouteView {
    pub route_id: Seq<char>,
    pub pack_id: Seq<char>,
    pub pack_path: Seq<char>,
    pub public_path: Seq<char>,
    pub source_root: Seq<char>,
    pub index_file: Option<Seq<char>>,
    pub spa_fallback: Option<Seq<char>>,
    pub tenant_scoped: bool,
    pub team_scoped: bool,
    pub cache_strategy: CacheStrategy,
    pub route_segments: Seq<SegmentView>,
}

pub open spec fn opt_view(o: Option<String>) -> Option<Seq<char>> {
    match o {
        Some(s) => Some(s@),
        None => None,
    }
}

impl View for StaticRouteDescriptor {
    type V = StaticRouteView;

    open spec fn view(&self) -> StaticRouteView {
        StaticRouteView {
            route_id: self.route_id@,
            pack_id: self.pack_id@,
            pack_path: self.pack_path@,
            public_path: self.public_path@,
            source_root: self.source_root@,
            index_file: opt_view(self.index_file),
            spa_fallback: opt_view(self.spa_fallback),
            tenant_scoped: self.tenant_scoped,
            team_scoped: self.team_scoped,
            cache_strategy: self.cache_strategy,
            route_segments: segments_view(self.route_segments@),
        }
    }
}

impl Clone for StaticRouteDescriptor {
    fn clone(&self) -> (r: Self)
        ensures
            r@ == self@,
    {
        let segments = self.route_segments.clone();
        assert(segments@ =~= self.route_segments@);
        StaticRouteDescriptor {
            route_id: self.route_id.clone(),
            pack_id: self.pack_id.clone(),
            pack_path: self.pack_path.clone(),
            public_path: self.public_path.clone(),
            source_root: self.source_root.clone(),
            index_file: self.index_file.clone(),
            spa_fallback: self.spa_fallback.clone(),
            tenant_scoped: self.tenant_scoped,
            team_scoped: self.team_scoped,
            cache_strategy: self.cache_strategy,
            route_segments: segments,
        }
    }
}

#[derive(Debug, Default, PartialEq, Eq)]
pub struct StaticRoutePlan {
    pub routes: Vec<StaticRouteDescriptor>,
    pub warnings: Vec<String>,
    pub blocking_failures: Vec<String>,
}

// ---------------------------------------------------------------------------
// Path text
// ---------------------------------------------------------------------------

/// How many copies of `c` end `s`.
pub open spec fn trailing_count(s: Seq<char>, c: char) -> nat
    decreases s.len(),
{
    if s.len() > 0 && s.last() == c {
        1 + trailing_count(s.drop_last(), c)
    } else {
        0
    }
}

/// `s.trim_end_matches(c)`.
pub open spec fn strip_trailing(s: Seq<char>, c: char) -> Seq<char> {
    s.take(s.len() - trailing_count(s, c))
}

/// A public path trimmed, with one leading `/` and no trailing `/` (but `/` itself).
pub open spec fn normalized_public_path(path: Seq<char>) -> Seq<char> {
    let t = trim_seq(path);
    let n = if t.len() > 0 && t[0] == '/' {
        t
    } else {
        seq!['/'] + t
    };
    if n.len() > 1 {
        strip_trailing(n, '/')
    } else {
        n
    }
}

/// `path` is `prefix`, or continues it (with trailing `/` dropped) past a `/`.
pub open spec fn has_path_prefix(path: Seq<char>, prefix: Seq<char>) -> bool {
    path == prefix || {
        let p = strip_trailing(prefix, '/');
        p.len() < path.len() && path.take(p.len() as int) == p && path[p.len() as int] == '/'
    }
}

pub open spec fn overlap(left: Seq<char>, right: Seq<char>) -> bool {
    has_path_prefix(left, right) || has_path_prefix(right, left)
}

proof fn lemma_trailing_count_bound(s: Seq<char>, c: char)
    ensures
        trailing_count(s, c) <= s.len(),
    decreases s.len(),
{
    if s.len() > 0 && s.last() == c {
        lemma_trailing_count_bound(s.drop_last(), c);
    }
}

fn strip_trailing_chars(v: &Vec<char>, c: char) -> (r: Vec<char>)
    ensures
        r@ == strip_trailing(v@, c),
{
    let n = v.len();
    let mut i: usize = 0;
    assert(v@.take(v@.len() as int) =~= v@);
    while i < n && v[n - 1 - i] == c
        invariant
            n == v@.len(),
            i <= n,
            trailing_count(v@, c) == i + trailing_count(v@.take(n - i), c),
        decreases n - i,
    {
        assert(v@.take(n - i).drop_last() =~= v@.take(n - (i + 1)));
        i += 1;
    }
    crate::text::slice_chars(v.as_slice(), 0, n - i)
}

/// `trim_end_matches(c)`.
pub fn strip_trailing_text(s: &str, c: char) -> (r: String)
    ensures
        r@ == strip_trailing(s@, c),
{
    let v = chars_of(s);
    let w = strip_trailing_chars(&v, c);
    string_of(w.as_slice())
}

/// Normalizes a public route path.
pub fn normalize_public_path(path: &str) -> (r: String)
    ensures
        r@ == normalized_public_path(path@),
{
    let v = chars_of(path);
    let t = trim_chars(v.as_slice());
    let n = if t.len() > 0 && t[0] == '/' {
        t
    } else {
        let mut n: Vec<char> = Vec::new();
        n.push('/');
        let mut i: usize = 0;
        while i < t.len()
            invariant
                i <= t@.len(),
                n@ == seq!['/'] + t@.take(i as int),
            decreases t@.len() - i,
        {
            n.push(t[i]);
            i += 1;
            assert(n@ =~= seq!['/'] + t@.take(i as int));
        }
        assert(t@.take(t@.len() as int) =~= t@);
        n
    };
    if n.len() > 1 {
        let w = strip_trailing_chars(&n, '/');
        string_of(w.as_slice())
    } else {
        string_of(n.as_slice())
    }
}

/// Whether `path` lies at or under `prefix`.
pub fn path_has_prefix(path: &str, prefix: &str) -> (r: bool)
    ensures
        r == has_path_prefix(path@, prefix@),
{
    if text_eq(path, prefix) {
        return true;
    }
    let pv = chars_of(path);
    let q = chars_of(prefix);
    let p = strip_trailing_chars(&q, '/');
    if p.len() >= pv.len() {
        return false;
    }
    let mut i: usize = 0;
    while i < p.len()
        invariant
            p@.len() < pv@.len(),
            pv@ == path@,
            p@ == strip_trailing(prefix@, '/'),
            path@ != prefix@,
            i <= p@.len(),
            forall|k: int| 0 <= k < i ==> pv@[k] == p@[k],
        decreases p@.len() - i,
    {
        if pv[i] != p[i] {
            assert(path@.take(p@.len() as int)[i as int] != p@[i as int]);
            return false;
        }
        i += 1;
    }
    assert(path@.take(p@.len() as int) =~= p@);
    pv[p.len()] == '/'
}

/// Whether either path lies at or under the other.
pub fn paths_overlap(left: &str, right: &str) -> (r: bool)
    ensures
        r == overlap(left@, right@),
{
    path_has_prefix(left, right) || path_has_prefix(right, left)
}

// ---------------------------------------------------------------------------
// Reserved routes
// ---------------------------------------------------------------------------

/// Paths the operator serves itself: exact paths and path prefixes.
#[derive(Debug, Default, PartialEq, Eq)]
pub struct ReservedRouteSet {
    exact_paths: Vec<(String, ())>,
    prefix_paths: Vec<(String, ())>,
}

impl ReservedRouteSet {
    /// The reserved exact paths.
    pub closed spec fn exact(&self) -> Set<Seq<char>> {
        Set::new(|k: Seq<char>| lookup(self.exact_paths@, k) is Some)
    }

    /// The reserved path prefixes.
    pub closed spec fn prefixes(&self) -> Set<Seq<char>> {
        Set::new(|k: Seq<char>| lookup(self.prefix_paths@, k) is Some)
    }

    pub closed spec fn wf(&self) -> bool {
        keys_strictly_sorted(self.exact_paths@) && keys_strictly_sorted(self.prefix_paths@)
    }

    /// `public_path`, normalized, is reserved or lies under a reserved prefix.
    pub open spec fn conflicts(&self, public_path: Seq<char>) -> bool {
        let n = normalized_public_path(public_path);
        self.exact().contains(n) || exists|p: Seq<char>|
            self.prefixes().contains(p) && #[trigger] has_path_prefix(n, p)
    }

    /// An empty set.
    pub fn new() -> (r: Self)
        ensures
            r.wf(),
            r.exact() == Set::<Seq<char>>::empty(),
            r.prefixes() == Set::<Seq<char>>::empty(),
    {
        let r = ReservedRouteSet { exact_paths: Vec::new(), prefix_paths: Vec::new() };
        proof {
            assert forall|k: Seq<char>| !r.exact().contains(k) by {
                crate::assoc::lemma_lookup_absent(r.exact_paths@, k);
            }
            assert forall|k: Seq<char>| !r.prefixes().contains(k) by {
                crate::assoc::lemma_lookup_absent(r.prefix_paths@, k);
            }
            assert(r.exact() =~= Set::<Seq<char>>::empty());
            assert(r.prefixes() =~= Set::<Seq<char>>::empty());
        }
        r
    }

    /// Reserves an exact path.
    pub fn insert_exact(&mut self, path: &str)
        requires
            old(self).wf(),
        ensures
            final(self).wf(),
            final(self).exact() == old(self).exact().insert(normalized_public_path(path@)),
            final(self).prefixes() == old(self).prefixes(),
    {
        let ghost before = self.exact();
        let n = normalize_public_path(path);
        let ghost nv = n@;
        assoc_insert(&mut self.exact_paths, n, ());
        assert(self.exact() =~= before.insert(nv));
    }

    /// Reserves every path under a prefix.
    pub fn insert_prefix(&mut self, path: &str)
        requires
            old(self).wf(),
        ensures
            final(self).wf(),
            final(self).prefixes() == old(self).prefixes().insert(normalized_public_path(path@)),
            final(self).exact() == old(self).exact(),
    {
        let ghost before = self.prefixes();
        let n = normalize_public_path(path);
        let ghost nv = n@;
        assoc_insert(&mut self.prefix_paths, n, ());
        assert(self.prefixes() =~= before.insert(nv));
    }

    /// Whether a public path collides with a reserved path or prefix.
    pub fn conflicts_with(&self, public_path: &str) -> (r: bool)
        ensures
            r == self.conflicts(public_path@),
    {
        let normalized = normalize_public_path(public_path);
        if assoc_find(&self.exact_paths, normalized.as_str()).is_some() {
            return true;
        }
        let mut i: usize = 0;
        while i < self.prefix_paths.len()
            invariant
                i <= self.prefix_paths@.len(),
                normalized@ == normalized_public_path(public_path@),
                forall|k: int|
                    0 <= k < i ==> !has_path_prefix(normalized@, #[trigger] self.prefix_paths@[k].0@),
            decreases self.prefix_paths@.len() - i,
        {
            if path_has_prefix(normalized.as_str(), self.prefix_paths[i].0.as_str()) {
                proof {
                    let p = self.prefix_paths@[i as int].0@;
                    assert forall|j: int| 0 <= j < i implies self.prefix_paths@[j].0@ != p by {}
                    crate::assoc::lemma_lookup_at(self.prefix_paths@, i as int, p);
                    assert(self.prefixes().contains(p));
                }
                return true;
            }
            i += 1;
        }
        proof {
            assert forall|p: Seq<char>| self.prefixes().contains(p) implies !has_path_prefix(
                normalized@,
                p,
            ) by {
                crate::assoc::lemma_lookup_some(self.prefix_paths@, p);
            }
        }
        false
    }
}

pub open spec fn operator_exact_paths() -> Set<Seq<char>> {
    set![
        normalized_public_path("/healthz"@),
        normalized_public_path("/readyz"@),
        normalized_public_path("/status"@),
        normalized_public_path("/runtime/drain"@),
        normalized_public_path("/runtime/resume"@),
        normalized_public_path("/runtime/shutdown"@),
        normalized_public_path("/deployments/stage"@),
        normalized_public_path("/deployments/warm"@),
        normalized_public_path("/deployments/activate"@),
        normalized_public_path("/deployments/rollback"@),
        normalized_public_path("/deployments/complete-drain"@),
        normalized_public_path("/config/publish"@),
        normalized_public_path("/cache/invalidate"@),
        normalized_public_path("/observability/log-level"@),
    ]
}

pub open spec fn ingress_prefixes(d: Domain) -> Set<Seq<char>> {
    set![
        normalized_public_path("/v1/"@ + domain_label(d) + "/ingress"@),
        normalized_public_path("/"@ + domain_label(d) + "/ingress"@),
    ]
}

pub open spec fn operator_prefix_paths() -> Set<Seq<char>> {
    set![
        normalized_public_path("/api/onboard"@),
        normalized_public_path("/runtime"@),
        normalized_public_path("/deployments"@),
        normalized_public_path("/config"@),
        normalized_public_path("/cache"@),
        normalized_public_path("/observability"@),
    ].union(ingress_prefixes(Domain::Messaging)).union(ingress_prefixes(Domain::Events)).union(
        ingress_prefixes(Domain::Secrets),
    ).union(ingress_prefixes(Domain::OAuth))
}

fn ingress_path(versioned: bool, domain: Domain) -> (r: String)
    ensures
        r@ == (if versioned {
            "/v1/"@
        } else {
            "/"@
        }) + domain_label(domain) + "/ingress"@,
{
    let mut v = if versioned {
        chars_of("/v1/")
    } else {
        chars_of("/")
    };
    extend_chars(&mut v, domain_name(domain));
    extend_chars(&mut v, "/ingress");
    string_of(v.as_slice())
}

impl ReservedRouteSet {
    fn insert_ingress_prefixes(&mut self, domain: Domain)
        requires
            old(self).wf(),
        ensures
            final(self).wf(),
            final(self).prefixes() == old(self).prefixes().union(ingress_prefixes(domain)),
            final(self).exact() == old(self).exact(),
    {
        let ghost before = self.prefixes();
        let a = ingress_path(true, domain);
        self.insert_prefix(a.as_str());
        let b = ingress_path(false, domain);
        self.insert_prefix(b.as_str());
        assert(self.prefixes() =~= before.union(ingress_prefixes(domain)));
    }

    /// The paths the operator itself serves: health, status, runtime control,
    /// deployment, config, cache and observability endpoints, onboarding, and
    /// each domain's ingress.
    pub fn operator_defaults() -> (r: Self)
        ensures
            r.wf(),
            r.exact() == operator_exact_paths(),
            r.prefixes() == operator_prefix_paths(),
    {
        let mut reserved = ReservedRouteSet::new();
        reserved.insert_exact("/healthz");
        reserved.insert_exact("/readyz");
        reserved.insert_exact("/status");
        reserved.insert_exact("/runtime/drain");
        reserved.insert_exact("/runtime/resume");
        reserved.insert_exact("/runtime/shutdown");
        reserved.insert_exact("/deployments/stage");
        reserved.insert_exact("/deployments/warm");
        reserved.insert_exact("/deployments/activate");
        reserved.insert_exact("/deployments/rollback");
        reserved.insert_exact("/deployments/complete-drain");
        reserved.insert_exact("/config/publish");
        reserved.insert_exact("/cache/invalidate");
        reserved.insert_exact("/observability/log-level");
        reserved.insert_prefix("/api/onboard");
        reserved.insert_prefix("/runtime");
        reserved.insert_prefix("/deployments");
        reserved.insert_prefix("/config");
        reserved.insert_prefix("/cache");
        reserved.insert_prefix("/observability");
        reserved.insert_ingress_prefixes(Domain::Messaging);
        reserved.insert_ingress_prefixes(Domain::Events);
        reserved.insert_ingress_prefixes(Domain::Secrets);
        reserved.insert_ingress_prefixes(Domain::OAuth);
        assert(reserved.exact() =~= operator_exact_paths());
        assert(reserved.prefixes() =~= operator_prefix_paths());
        reserved
    }
}

// ---------------------------------------------------------------------------
// Route segments
// ---------------------------------------------------------------------------

/// The segment a path piece stands for.
pub open spec fn segment_of(p: Seq<char>) -> SegmentView {
    if p == "{tenant}"@ {
        SegmentView::Tenant
    } else if p == "{team}"@ {
        SegmentView::Team
    } else {
        SegmentView::Literal(p)
    }
}

/// A piece with a brace that is no placeholder the router knows.
pub open spec fn unsupported_piece(p: Seq<char>) -> bool {
    p != "{tenant}"@ && p != "{team}"@ && (p.contains('{') || p.contains('}'))
}

pub open spec fn unsupported() -> spec_fn(Seq<char>) -> bool {
    |p: Seq<char>| unsupported_piece(p)
}

/// Some `{team}` comes before every `{tenant}`.
pub open spec fn team_before_tenant(segs: Seq<SegmentView>) -> bool {
    exists|i: int|
        0 <= i < segs.len() && #[trigger] segs[i] == SegmentView::Team && forall|j: int|
            0 <= j < i ==> segs[j] != SegmentView::Tenant
}

/// The segments of a public path, or the reason it is refused.
pub open spec fn route_segments_result(path: Seq<char>) -> Result<Seq<SegmentView>, Seq<char>> {
    let ps = pieces(path, '/');
    let bad = ps.filter(unsupported());
    let segs = ps.map_values(|p: Seq<char>| segment_of(p));
    if ps.len() == 0 {
        Err("public_path must not be /"@)
    } else if bad.len() > 0 {
        Err("unsupported public_path segment "@ + bad[0])
    } else if segs.contains(SegmentView::Team) && !segs.contains(SegmentView::Tenant) {
        Err("public_path uses {team} without {tenant}"@)
    } else if team_before_tenant(segs) {
        Err("public_path must place {team} after {tenant}"@)
    } else {
        Ok(segs)
    }
}

/// The position of the first segment equal to `target`, or the length.
fn first_position(segs: &Vec<RouteScopeSegment>, team: bool) -> (r: usize)
    ensures
        r <= segs@.len(),
        forall|j: int|
            0 <= j < r ==> segs@[j]@ != (if team {
                SegmentView::Team
            } else {
                SegmentView::Tenant
            }),
        r < segs@.len() ==> segs@[r as int]@ == (if team {
            SegmentView::Team
        } else {
            SegmentView::Tenant
        }),
{
    let mut i: usize = 0;
    while i < segs.len()
        invariant
            i <= segs@.len(),
            forall|j: int|
                0 <= j < i ==> segs@[j]@ != (if team {
                    SegmentView::Team
                } else {
                    SegmentView::Tenant
                }),
        decreases segs@.len() - i,
    {
        let hit = match &segs[i] {
            RouteScopeSegment::Team => team,
            RouteScopeSegment::Tenant => !team,
            RouteScopeSegment::Literal(_) => false,
        };
        if hit {
            return i;
        }
        i += 1;
    }
    i
}

/// Parses a public path into literal, `{tenant}` and `{team}` segments.
pub fn parse_route_segments(path: &str) -> (r: Result<Vec<RouteScopeSegment>, String>)
    ensures
        match r {
            Ok(v) => route_segments_result(path@) == Ok::<Seq<SegmentView>, Seq<char>>(
                segments_view(v@),
            ),
            Err(e) => route_segments_result(path@) == Err::<Seq<SegmentView>, Seq<char>>(e@),
        },
{
    proof {
        reveal_strlit("{tenant}");
        reveal_strlit("{team}");
        reveal_strlit("public_path must not be /");
        reveal_strlit("unsupported public_path segment ");
        reveal_strlit("public_path uses {team} without {tenant}");
        reveal_strlit("public_path must place {team} after {tenant}");
    }
    let parts = split_pieces(path, '/');
    let ghost ps = parts@.map_values(|x: String| x@);
    let ghost f = unsupported();
    let ghost sv = |p: Seq<char>| segment_of(p);
    if parts.len() == 0 {
        return Err(text("public_path must not be /"));
    }
    let mut parsed: Vec<RouteScopeSegment> = Vec::new();
    let mut i: usize = 0;
    proof {
        crate::seqs::lemma_filter_empty(f);
        assert(ps.take(0) =~= Seq::<Seq<char>>::empty());
    }
    while i < parts.len()
        invariant
            i <= parts@.len(),
            ps == parts@.map_values(|x: String| x@),
            ps == pieces(path@, '/'),
            f == unsupported(),
            sv == (|p: Seq<char>| segment_of(p)),
            ps.take(i as int).filter(f).len() == 0,
            segments_view(parsed@) == ps.take(i as int).map_values(sv),
        decreases parts@.len() - i,
    {
        let seg = parts[i].as_str();
        let ghost pv = ps[i as int];
        assert(seg@ == pv);
        proof {
            crate::seqs::lemma_filter_step(ps, f, i as int);
        }
        if text_eq(seg, "{tenant}") {
            parsed.push(RouteScopeSegment::Tenant);
        } else if text_eq(seg, "{team}") {
            parsed.push(RouteScopeSegment::Team);
        } else if contains_char(seg, '{') || contains_char(seg, '}') {
            proof {
                assert(f(pv));
                crate::seqs::lemma_filter_prefix_first(ps, f, i as int);
            }
            return Err(concat("unsupported public_path segment ", seg));
        } else {
            parsed.push(RouteScopeSegment::Literal(text(seg)));
        }
        proof {
            assert(parsed@.last()@ == segment_of(pv));
            assert(ps.take(i + 1) =~= ps.take(i as int).push(pv));
            assert(ps.take(i + 1).map_values(sv) =~= ps.take(i as int).map_values(sv).push(sv(pv)));
        }
        i += 1;
        assert(segments_view(parsed@) =~= ps.take(i as int).map_values(sv));
    }
    proof {
        lemma_take_all(ps);
    }
    let ghost segs = segments_view(parsed@);
    assert(segs =~= ps.map_values(sv));
    let team_pos = first_position(&parsed, true);
    let tenant_pos = first_position(&parsed, false);
    if team_pos < parsed.len() {
        if tenant_pos == parsed.len() {
            proof {
                assert(segs[team_pos as int] == SegmentView::Team);
                assert forall|j: int| 0 <= j < segs.len() implies segs[j]
                    != SegmentView::Tenant by {
                    assert(segs[j] == parsed@[j]@);
                }
            }
            return Err(text("public_path uses {team} without {tenant}"));
        }
        if team_pos <= tenant_pos {
            proof {
                assert(segs[team_pos as int] == SegmentView::Team);
                assert(segs[tenant_pos as int] == SegmentView::Tenant);
                assert forall|j: int| 0 <= j < team_pos implies segs[j]
                    != SegmentView::Tenant by {
                    assert(segs[j] == parsed@[j]@);
                }
                assert(team_before_tenant(segs));
            }
            return Err(text("public_path must place {team} after {tenant}"));
        }
        proof {
            assert(segs[tenant_pos as int] == SegmentView::Tenant);
            assert(segs.contains(SegmentView::Tenant));
            if team_before_tenant(segs) {
                let k = choose|k: int|
                    0 <= k < segs.len() && #[trigger] segs[k] == SegmentView::Team && forall|j: int|
                        0 <= j < k ==> segs[j] != SegmentView::Tenant;
                assert(segs[k] == parsed@[k]@);
                assert(k >= team_pos);
                assert(segs[tenant_pos as int] == parsed@[tenant_pos as int]@);
                assert(false);
            }
        }
    } else {
        proof {
            assert forall|j: int| 0 <= j < segs.len() implies segs[j] != SegmentView::Team by {
                assert(segs[j] == parsed@[j]@);
            }
            assert(!segs.contains(SegmentView::Team));
        }
    }
    Ok(parsed)
}

// ---------------------------------------------------------------------------
// Relative asset paths
// ---------------------------------------------------------------------------

pub open spec fn not_cur_dir() -> spec_fn(Seq<char>) -> bool {
    |p: Seq<char>| p != "."@
}

/// A relative asset path with `.` pieces and repeated `/` dropped; `None` for
/// an absolute path, one that climbs with `..`, or one that names nothing.
pub open spec fn relative_asset_path(path: Seq<char>) -> Option<Seq<char>> {
    let ps = pieces(path, '/');
    let kept = ps.filter(not_cur_dir());
    if path.len() > 0 && path[0] == '/' {
        None
    } else if ps.contains(".."@) {
        None
    } else if kept.len() == 0 {
        None
    } else {
        Some(join_texts(kept, "/"@))
    }
}

/// Normalizes a relative asset path.
pub fn normalize_relative_asset_path(path: &str) -> (r: Option<String>)
    ensures
        opt_view(r) == relative_asset_path(path@),
{
    proof {
        reveal_strlit(".");
        reveal_strlit("..");
    }
    let v = chars_of(path);
    if v.len() > 0 && v[0] == '/' {
        return None;
    }
    let parts = split_pieces(path, '/');
    let ghost ps = parts@.map_values(|x: String| x@);
    let ghost f = not_cur_dir();
    let mut kept: Vec<String> = Vec::new();
    let mut i: usize = 0;
    proof {
        crate::seqs::lemma_filter_empty(f);
        assert(ps.take(0) =~= Seq::<Seq<char>>::empty());
    }
    while i < parts.len()
        invariant
            i <= parts@.len(),
            ps == parts@.map_values(|x: String| x@),
            ps == pieces(path@, '/'),
            f == not_cur_dir(),
            forall|j: int| 0 <= j < i ==> ps[j] != ".."@,
            kept@.map_values(|x: String| x@) == ps.take(i as int).filter(f),
        decreases parts@.len() - i,
    {
        let piece = parts[i].as_str();
        assert(piece@ == ps[i as int]);
        proof {
            crate::seqs::lemma_filter_step(ps, f, i as int);
        }
        if text_eq(piece, "..") {
            proof {
                assert(ps[i as int] == ".."@);
                assert(ps.contains(".."@));
            }
            return None;
        }
        if !text_eq(piece, ".") {
            kept.push(text(piece));
        }
        i += 1;
        assert(kept@.map_values(|x: String| x@) =~= ps.take(i as int).filter(f));
    }
    proof {
        lemma_take_all(ps);
        assert(!ps.contains(".."@));
    }
    if kept.len() == 0 {
        return None;
    }
    Some(join(&kept, "/"))
}

/// An optional asset path normalized, or the reason it is refused.
pub open spec fn optional_asset_result(value: Option<Seq<char>>) -> Result<
    Option<Seq<char>>,
    Seq<char>,
> {
    match value {
        None => Ok(None),
        Some(v) => match relative_asset_path(v) {
            Some(n) => Ok(Some(n)),
            None => Err("invalid asset path "@ + v),
        },
    }
}

/// Normalizes an asset path that may be absent.
pub fn normalize_optional_relative_asset_path(value: Option<String>) -> (r: Result<
    Option<String>,
    String,
>)
    ensures
        match r {
            Ok(o) => optional_asset_result(opt_view(value)) == Ok::<
                Option<Seq<char>>,
                Seq<char>,
            >(opt_view(o)),
            Err(e) => optional_asset_result(opt_view(value)) == Err::<
                Option<Seq<char>>,
                Seq<char>,
            >(e@),
        },
{
    match value {
        Some(v) => match normalize_relative_asset_path(v.as_str()) {
            Some(n) => Ok(Some(n)),
            None => Err(concat("invalid asset path ", v.as_str())),
        },
        None => Ok(None),
    }
}

// ---------------------------------------------------------------------------
// Route records as packs declare them
// ---------------------------------------------------------------------------

/// The cache setting of a declared route.
pub struct StaticRouteCacheRecord {
    pub strategy: String,
    pub max_age_seconds: Option<u64>,
}

impl View for StaticRouteCacheRecord {
    type V = (Seq<char>, Option<u64>);

    open spec fn view(&self) -> (Seq<char>, Option<u64>) {
        (self.strategy@, self.max_age_seconds)
    }
}

/// A route as a pack's static-routes extension declares it.
pub struct StaticRouteRecord {
    pub id: Option<String>,
    pub public_path: String,
    pub source_root: String,
    pub index_file: Option<String>,
    pub spa_fallback: Option<String>,
    pub tenant: bool,
    pub team: bool,
    pub cache: Option<StaticRouteCacheRecord>,
}

pub struct StaticRouteRecordView {
    pub id: Option<Seq<char>>,
    pub public_path: Seq<char>,
    pub source_root: Seq<char>,
    pub index_file: Option<Seq<char>>,
    pub spa_fallback: Option<Seq<char>>,
    pub tenant: bool,
    pub team: bool,
    pub cache: Option<(Seq<char>, Option<u64>)>,
}

impl View for StaticRouteRecord {
    type V = StaticRouteRecordView;

    open spec fn view(&self) -> StaticRouteRecordView {
        StaticRouteRecordView {
            id: opt_view(self.id),
            public_path: self.public_path@,
            source_root: self.source_root@,
            index_file: opt_view(self.index_file),
            spa_fallback: opt_view(self.spa_fallback),
            tenant: self.tenant,
            team: self.team,
            cache: match self.cache {
                Some(c) => Some(c@),
                None => None,
            },
        }
    }
}

/// How a route is named in messages.
pub open spec fn route_label(id: Option<Seq<char>>) -> Seq<char> {
    match id {
        Some(x) => x,
        None => "<unnamed>"@,
    }
}

fn route_label_text<'a>(id: Option<&'a str>) -> (r: &'a str)
    ensures
        r@ == route_label(match id {
            Some(x) => Some(x@),
            None => None,
        }),
{
    match id {
        Some(x) => x,
        None => "<unnamed>",
    }
}

/// The opening of every message about one declared route.
pub open spec fn route_prefix(label: Seq<char>, pack_path: Seq<char>) -> Seq<char> {
    "static route "@ + label + " in "@ + pack_path
}

fn route_message(label: &str, pack_path: &str, tail: &str) -> (r: String)
    ensures
        r@ == route_prefix(label@, pack_path@) + tail@,
{
    let mut v = chars_of("static route ");
    extend_chars(&mut v, label);
    extend_chars(&mut v, " in ");
    extend_chars(&mut v, pack_path);
    extend_chars(&mut v, tail);
    string_of(v.as_slice())
}

/// The cache strategy a route declares, or the reason it is refused.
pub open spec fn cache_strategy_result(
    cache: Option<(Seq<char>, Option<u64>)>,
    pack_path: Seq<char>,
    route_id: Option<Seq<char>>,
) -> Result<CacheStrategy, Seq<char>> {
    match cache {
        None => Ok(CacheStrategy::NoCaching),
        Some((strategy, max_age)) => {
            let t = trim_seq(strategy);
            if t == ""@ || t == "none"@ {
                Ok(CacheStrategy::NoCaching)
            } else if t == "public-max-age"@ {
                match max_age {
                    Some(n) => Ok(CacheStrategy::PublicMaxAge { max_age_seconds: n }),
                    None => Err(
                        route_prefix(route_label(route_id), pack_path)
                            + " uses public-max-age without max_age_seconds"@,
                    ),
                }
            } else {
                Err(
                    route_prefix(route_label(route_id), pack_path)
                        + " uses unsupported cache.strategy "@ + t,
                )
            }
        },
    }
}

/// Reads the cache strategy of a declared route.
pub fn normalize_cache_strategy(
    cache: Option<&StaticRouteCacheRecord>,
    pack_path: &str,
    route_id: Option<&str>,
) -> (r: Result<CacheStrategy, String>)
    ensures
        ({
            let want = cache_strategy_result(
                match cache {
                    Some(c) => Some(c@),
                    None => None,
                },
                pack_path@,
                match route_id {
                    Some(x) => Some(x@),
                    None => None,
                },
            );
            match r {
                Ok(c) => want == Ok::<CacheStrategy, Seq<char>>(c),
                Err(e) => want == Err::<CacheStrategy, Seq<char>>(e@),
            }
        }),
{
    proof {
        reveal_strlit("");
        reveal_strlit("none");
        reveal_strlit("public-max-age");
    }
    let cache = match cache {
        Some(c) => c,
        None => {
            return Ok(CacheStrategy::NoCaching);
        },
    };
    let t = trim(cache.strategy.as_str());
    if text_eq(t.as_str(), "") || text_eq(t.as_str(), "none") {
        return Ok(CacheStrategy::NoCaching);
    }
    let label = route_label_text(route_id);
    if text_eq(t.as_str(), "public-max-age") {
        match cache.max_age_seconds {
            Some(n) => Ok(CacheStrategy::PublicMaxAge { max_age_seconds: n }),
            None => Err(
                route_message(label, pack_path, " uses public-max-age without max_age_seconds"),
            ),
        }
    } else {
        let tail = concat(" uses unsupported cache.strategy ", t.as_str());
        let r = route_message(label, pack_path, tail.as_str());
        assert(r@ =~= route_prefix(label@, pack_path@) + " uses unsupported cache.strategy "@
            + t@);
        Err(r)
    }
}

/// The route a record describes once checked and normalized, or the reason
/// it is refused.
pub open spec fn route_descriptor_result(
    pack_id: Seq<char>,
    pack_path: Seq<char>,
    idx: nat,
    rec: StaticRouteRecordView,
) -> Result<StaticRouteView, Seq<char>> {
    let pre = route_prefix(route_label(rec.id), pack_path);
    let pp = normalized_public_path(rec.public_path);
    if rec.team && !rec.tenant {
        Err(pre + " sets team=true but tenant=false"@)
    } else {
        match route_segments_result(pp) {
            Err(e) => Err(e),
            Ok(segs) => {
                if rec.tenant != segs.contains(SegmentView::Tenant) {
                    Err(pre + " has inconsistent tenant flag/public_path"@)
                } else if rec.team != segs.contains(SegmentView::Team) {
                    Err(pre + " has inconsistent team flag/public_path"@)
                } else {
                    match relative_asset_path(rec.source_root) {
                        None => Err(pre + " has invalid source_root "@ + rec.source_root),
                        Some(source_root) => match optional_asset_result(rec.index_file) {
                            Err(e) => Err(e),
                            Ok(index_file) => match optional_asset_result(rec.spa_fallback) {
                                Err(e) => Err(e),
                                Ok(spa_fallback) => match cache_strategy_result(
                                    rec.cache,
                                    pack_path,
                                    rec.id,
                                ) {
                                    Err(e) => Err(e),
                                    Ok(cache_strategy) => Ok(
                                        StaticRouteView {
                                            route_id: match rec.id {
                                                Some(x) => x,
                                                None => pack_id + "::"@ + decimal(idx),
                                            },
                                            pack_id,
                                            pack_path,
                                            public_path: pp,
                                            source_root,
                                            index_file,
                                            spa_fallback,
                                            tenant_scoped: rec.tenant,
                                            team_scoped: rec.team,
                                            cache_strategy,
                                            route_segments: segs,
                                        },
                                    ),
                                },
                            },
                        },
                    }
                }
            },
        }
    }
}

fn segments_contain(segs: &Vec<RouteScopeSegment>, team: bool) -> (r: bool)
    ensures
        r == segments_view(segs@).contains(
            if team {
                SegmentView::Team
            } else {
                SegmentView::Tenant
            },
        ),
{
    let p = first_position(segs, team);
    proof {
        let t = if team {
            SegmentView::Team
        } else {
            SegmentView::Tenant
        };
        let sv = segments_view(segs@);
        if p < segs@.len() {
            assert(sv[p as int] == t);
        } else {
            assert forall|j: int| 0 <= j < sv.len() implies sv[j] != t by {
                assert(sv[j] == segs@[j]@);
            }
        }
    }
    p < segs.len()
}

/// The id a route gets when its record names none: the pack id, `::` and
/// the route's position in the record list.
fn default_route_id(pack_id: &str, idx: usize) -> (r: String)
    ensures
        r@ == pack_id@ + "::"@ + decimal(idx as nat),
{
    let mut v = chars_of(pack_id);
    extend_chars(&mut v, "::");
    let d = decimal_text(idx as u128);
    let ghost before = v@;
    let mut i: usize = 0;
    while i < d.len()
        invariant
            i <= d@.len(),
            v@ == before + d@.take(i as int),
        decreases d@.len() - i,
    {
        v.push(d[i]);
        i += 1;
        assert(v@ =~= before + d@.take(i as int));
    }
    assert(d@.take(d@.len() as int) =~= d@);
    string_of(v.as_slice())
}

/// Checks a declared route and turns it into a descriptor.
pub fn normalize_route_descriptor(
    pack_id: &str,
    pack_path: &str,
    idx: usize,
    route: StaticRouteRecord,
) -> (r: Result<StaticRouteDescriptor, String>)
    ensures
        ({
            let want = route_descriptor_result(pack_id@, pack_path@, idx as nat, route@);
            match r {
                Ok(d) => want == Ok::<StaticRouteView, Seq<char>>(d@),
                Err(e) => want == Err::<StaticRouteView, Seq<char>>(e@),
            }
        }),
{
    let ghost rv = route@;
    let label = route_label_text(
        match &route.id {
            Some(x) => Some(x.as_str()),
            None => None,
        },
    );
    if route.team && !route.tenant {
        return Err(route_message(label, pack_path, " sets team=true but tenant=false"));
    }
    let public_path = normalize_public_path(route.public_path.as_str());
    let route_segments = match parse_route_segments(public_path.as_str()) {
        Ok(v) => v,
        Err(e) => {
            return Err(e);
        },
    };
    let uses_tenant = segments_contain(&route_segments, false);
    let uses_team = segments_contain(&route_segments, true);
    if route.tenant != uses_tenant {
        return Err(route_message(label, pack_path, " has inconsistent tenant flag/public_path"));
    }
    if route.team != uses_team {
        return Err(route_message(label, pack_path, " has inconsistent team flag/public_path"));
    }
    let source_root = match normalize_relative_asset_path(route.source_root.as_str()) {
        Some(s) => s,
        None => {
            let tail = concat(" has invalid source_root ", route.source_root.as_str());
            let m = route_message(label, pack_path, tail.as_str());
            assert(m@ =~= route_prefix(label@, pack_path@) + " has invalid source_root "@
                + route.source_root@);
            return Err(m);
        },
    };
    let index_file = match normalize_optional_relative_asset_path(route.index_file) {
        Ok(v) => v,
        Err(e) => {
            return Err(e);
        },
    };
    let spa_fallback = match normalize_optional_relative_asset_path(route.spa_fallback) {
        Ok(v) => v,
        Err(e) => {
            return Err(e);
        },
    };
    let cache_strategy = match normalize_cache_strategy(
        match &route.cache {
            Some(c) => Some(c),
            None => None,
        },
        pack_path,
        match &route.id {
            Some(x) => Some(x.as_str()),
            None => None,
        },
    ) {
        Ok(c) => c,
        Err(e) => {
            return Err(e);
        },
    };
    let route_id = match route.id {
        Some(x) => x,
        None => default_route_id(pack_id, idx),
    };
    let d = StaticRouteDescriptor {
        route_id,
        pack_id: text(pack_id),
        pack_path: text(pack_path),
        public_path,
        source_root,
        index_file,
        spa_fallback,
        tenant_scoped: route.tenant,
        team_scoped: route.team,
        cache_strategy,
        route_segments,
    };
    Ok(d)
}

// ---------------------------------------------------------------------------
// A pack's static-routes extension
// ---------------------------------------------------------------------------

/// The routes of the first `n` records, or the error of the first refused one.
pub open spec fn records_prefix_result(
    pack_id: Seq<char>,
    pack_path: Seq<char>,
    recs: Seq<StaticRouteRecordView>,
    n: nat,
) -> Result<Seq<StaticRouteView>, Seq<char>>
    decreases n,
{
    if n == 0 {
        Ok(Seq::empty())
    } else {
        match records_prefix_result(pack_id, pack_path, recs, (n - 1) as nat) {
            Err(e) => Err(e),
            Ok(done) => match route_descriptor_result(
                pack_id,
                pack_path,
                (n - 1) as nat,
                recs[n - 1],
            ) {
                Err(e) => Err(e),
                Ok(d) => Ok(done.push(d)),
            },
        }
    }
}

/// Once a prefix of the records is refused, every longer one is, for the same reason.
proof fn lemma_records_prefix_err(
    pack_id: Seq<char>,
    pack_path: Seq<char>,
    recs: Seq<StaticRouteRecordView>,
    n: nat,
    m: nat,
)
    requires
        n <= m,
        records_prefix_result(pack_id, pack_path, recs, n) is Err,
    ensures
        records_prefix_result(pack_id, pack_path, recs, m) == records_prefix_result(
            pack_id,
            pack_path,
            recs,
            n,
        ),
    decreases m - n,
{
    if n < m {
        lemma_records_prefix_err(pack_id, pack_path, recs, n, (m - 1) as nat);
    }
}

/// The routes a static-routes extension payload declares, or the reason the
/// payload is refused.
pub open spec fn extension_routes_result(
    pack_id: Seq<char>,
    pack_path: Seq<char>,
    schema_version: u32,
    recs: Seq<StaticRouteRecordView>,
) -> Result<Seq<StaticRouteView>, Seq<char>> {
    if schema_version != 1 {
        Err(
            "unsupported static-routes extension schema_version="@ + decimal(
                schema_version as nat,
            ) + " in "@ + pack_path,
        )
    } else {
        records_prefix_result(pack_id, pack_path, recs, recs.len())
    }
}

pub open spec fn routes_view(s: Seq<StaticRouteDescriptor>) -> Seq<StaticRouteView> {
    s.map_values(|r: StaticRouteDescriptor| r@)
}

pub open spec fn records_view(s: Seq<StaticRouteRecord>) -> Seq<StaticRouteRecordView> {
    s.map_values(|r: StaticRouteRecord| r@)
}

/// Checks the routes of a pack's static-routes extension payload.
pub fn routes_from_extension(
    pack_id: &str,
    pack_path: &str,
    schema_version: u32,
    records: Vec<StaticRouteRecord>,
) -> (r: Result<Vec<StaticRouteDescriptor>, String>)
    ensures
        ({
            let want = extension_routes_result(
                pack_id@,
                pack_path@,
                schema_version,
                records_view(records@),
            );
            match r {
                Ok(v) => want == Ok::<Seq<StaticRouteView>, Seq<char>>(routes_view(v@)),
                Err(e) => want == Err::<Seq<StaticRouteView>, Seq<char>>(e@),
            }
        }),
{
    if schema_version != 1 {
        let mut v = chars_of("unsupported static-routes extension schema_version=");
        let d = decimal_text(schema_version as u128);
        let ghost before = v@;
        let mut k: usize = 0;
        while k < d.len()
            invariant
                k <= d@.len(),
                v@ == before + d@.take(k as int),
            decreases d@.len() - k,
        {
            v.push(d[k]);
            k += 1;
            assert(v@ =~= before + d@.take(k as int));
        }
        assert(d@.take(d@.len() as int) =~= d@);
        extend_chars(&mut v, " in ");
        extend_chars(&mut v, pack_path);
        return Err(string_of(v.as_slice()));
    }
    let ghost recs = records_view(records@);
    let total = records.len();
    let mut rest = records;
    let mut routes: Vec<StaticRouteDescriptor> = Vec::new();
    let mut idx: usize = 0;
    assert(routes_view(routes@) =~= Seq::<StaticRouteView>::empty());
    while idx < total
        invariant
            total == recs.len(),
            recs == records_view(records@),
            schema_version == 1,
            idx <= total,
            rest@.len() == total - idx,
            forall|j: int| 0 <= j < rest@.len() ==> (#[trigger] rest@[j])@ == recs[idx + j],
            records_prefix_result(pack_id@, pack_path@, recs, idx as nat) == Ok::<
                Seq<StaticRouteView>,
                Seq<char>,
            >(routes_view(routes@)),
        decreases total - idx,
    {
        let ghost before = rest@;
        assert((before[0])@ == recs[idx + 0]);
        let route = rest.remove(0);
        assert(route@ == recs[idx as int]);
        assert forall|j: int| 0 <= j < rest@.len() implies (#[trigger] rest@[j])@ == recs[idx + 1
            + j] by {
            assert(rest@[j] == before[j + 1]);
            assert((before[j + 1])@ == recs[idx + (j + 1)]);
        }
        let ghost done = routes_view(routes@);
        match normalize_route_descriptor(pack_id, pack_path, idx, route) {
            Ok(d) => {
                routes.push(d);
                assert(routes_view(routes@) =~= done.push(d@));
            },
            Err(e) => {
                proof {
                    assert(records_prefix_result(pack_id@, pack_path@, recs, (idx + 1) as nat)
                        == Err::<Seq<StaticRouteView>, Seq<char>>(e@));
                    lemma_records_prefix_err(
                        pack_id@,
                        pack_path@,
                        recs,
                        (idx + 1) as nat,
                        total as nat,
                    );
                }
                return Err(e);
            },
        }
        idx += 1;
    }
    Ok(routes)
}

// ---------------------------------------------------------------------------
// Plan validation
// ---------------------------------------------------------------------------

/// The id of the last route before position `i` that claims `p`.
pub open spec fn last_claim(rv: Seq<StaticRouteView>, i: int, p: Seq<char>) -> Option<Seq<char>>
    decreases i,
{
    if i <= 0 {
        None
    } else if rv[i - 1].public_path == p {
        Some(rv[i - 1].route_id)
    } else {
        last_claim(rv, i - 1, p)
    }
}

pub open spec fn conflict_message(r: StaticRouteView) -> Seq<char> {
    "static route "@ + r.route_id + " conflicts with reserved operator path space at "@
        + r.public_path
}

pub open spec fn duplicate_message(r: StaticRouteView, existing: Seq<char>) -> Seq<char> {
    "static route "@ + r.route_id + " duplicates public_path "@ + r.public_path
        + " already claimed by "@ + existing
}

pub open spec fn overlap_message(l: StaticRouteView, r: StaticRouteView) -> Seq<char> {
    "static routes "@ + l.route_id + " ("@ + l.public_path + ") and "@ + r.route_id + " ("@
        + r.public_path + ") overlap ambiguously"@
}

/// What checking route `i` alone reports: a clash with reserved paths, then
/// a public path claimed before.
pub open spec fn claim_checks(rv: Seq<StaticRouteView>, reserved: ReservedRouteSet, i: int) -> Seq<
    Seq<char>,
> {
    (if reserved.conflicts(rv[i].public_path) {
        seq![conflict_message(rv[i])]
    } else {
        Seq::empty()
    }) + match last_claim(rv, i, rv[i].public_path) {
        Some(e) => seq![duplicate_message(rv[i], e)],
        None => Seq::empty(),
    }
}

/// What the checks of the first `n` routes report, in order.
pub open spec fn claim_messages(rv: Seq<StaticRouteView>, reserved: ReservedRouteSet, n: int) -> Seq<
    Seq<char>,
>
    decreases n,
{
    if n <= 0 {
        Seq::empty()
    } else {
        claim_messages(rv, reserved, n - 1) + claim_checks(rv, reserved, n - 1)
    }
}

/// The overlaps of route `i` with the routes after it and before `j`.
pub open spec fn overlap_row(rv: Seq<StaticRouteView>, i: int, j: int) -> Seq<Seq<char>>
    decreases j - i,
{
    if j <= i + 1 {
        Seq::empty()
    } else {
        overlap_row(rv, i, j - 1) + if overlap(rv[i].public_path, rv[j - 1].public_path) {
            seq![overlap_message(rv[i], rv[j - 1])]
        } else {
            Seq::empty()
        }
    }
}

/// The overlaps of every route before `n` with the routes after it.
pub open spec fn overlap_rows(rv: Seq<StaticRouteView>, n: int) -> Seq<Seq<char>>
    decreases n,
{
    if n <= 0 {
        Seq::empty()
    } else {
        overlap_rows(rv, n - 1) + overlap_row(rv, n - 1, rv.len() as int)
    }
}

/// Everything validation reports about a list of routes.
pub open spec fn plan_failures(rv: Seq<StaticRouteView>, reserved: ReservedRouteSet) -> Seq<
    Seq<char>,
> {
    claim_messages(rv, reserved, rv.len() as int) + overlap_rows(rv, rv.len() as int)
}

fn conflict_message_text(r: &StaticRouteDescriptor) -> (m: String)
    ensures
        m@ == conflict_message(r@),
{
    let mut v = chars_of("static route ");
    extend_chars(&mut v, r.route_id.as_str());
    extend_chars(&mut v, " conflicts with reserved operator path space at ");
    extend_chars(&mut v, r.public_path.as_str());
    string_of(v.as_slice())
}

fn duplicate_message_text(r: &StaticRouteDescriptor, existing: &str) -> (m: String)
    ensures
        m@ == duplicate_message(r@, existing@),
{
    let mut v = chars_of("static route ");
    extend_chars(&mut v, r.route_id.as_str());
    extend_chars(&mut v, " duplicates public_path ");
    extend_chars(&mut v, r.public_path.as_str());
    extend_chars(&mut v, " already claimed by ");
    extend_chars(&mut v, existing);
    string_of(v.as_slice())
}

fn overlap_message_text(l: &StaticRouteDescriptor, r: &StaticRouteDescriptor) -> (m: String)
    ensures
        m@ == overlap_message(l@, r@),
{
    let mut v = chars_of("static routes ");
    extend_chars(&mut v, l.route_id.as_str());
    extend_chars(&mut v, " (");
    extend_chars(&mut v, l.public_path.as_str());
    extend_chars(&mut v, ") and ");
    extend_chars(&mut v, r.route_id.as_str());
    extend_chars(&mut v, " (");
    extend_chars(&mut v, r.public_path.as_str());
    extend_chars(&mut v, ") overlap ambiguously");
    string_of(v.as_slice())
}

/// Checks a plan's routes against the reserved paths, against each other's
/// public paths, and for overlaps, and reports each finding as a blocking
/// failure.
pub fn validate_plan(plan: &mut StaticRoutePlan, reserved_routes: &ReservedRouteSet)
    ensures
        final(plan).routes == old(plan).routes,
        final(plan).warnings == old(plan).warnings,
        texts_of(final(plan).blocking_failures@) == texts_of(old(plan).blocking_failures@)
            + plan_failures(routes_view(old(plan).routes@), *reserved_routes),
{
    let ghost rv = routes_view(plan.routes@);
    let ghost start = texts_of(plan.blocking_failures@);
    let n = plan.routes.len();
    let mut seen: Vec<(String, String)> = Vec::new();
    let mut i: usize = 0;
    proof {
        assert forall|q: Seq<char>| #[trigger] opt_view(lookup(seen@, q)) == last_claim(rv, 0, q) by {
            crate::assoc::lemma_lookup_absent(seen@, q);
        }
        assert(texts_of(plan.blocking_failures@) =~= start + claim_messages(rv, *reserved_routes, 0));
    }
    while i < n
        invariant
            n == plan.routes@.len(),
            i <= n,
            plan.routes == old(plan).routes,
            plan.warnings == old(plan).warnings,
            rv == routes_view(plan.routes@),
            start == texts_of(old(plan).blocking_failures@),
            keys_strictly_sorted(seen@),
            forall|q: Seq<char>| #[trigger] opt_view(lookup(seen@, q)) == last_claim(rv, i as int, q),
            texts_of(plan.blocking_failures@) == start + claim_messages(
                rv,
                *reserved_routes,
                i as int,
            ),
        decreases n - i,
    {
        let ghost before = texts_of(plan.blocking_failures@);
        let ghost r = rv[i as int];
        assert(plan.routes@[i as int]@ == r);
        if reserved_routes.conflicts_with(plan.routes[i].public_path.as_str()) {
            let m = conflict_message_text(&plan.routes[i]);
            plan.blocking_failures.push(m);
        }
        let ghost mid = texts_of(plan.blocking_failures@);
        assert(mid == before + (if reserved_routes.conflicts(r.public_path) {
            seq![conflict_message(r)]
        } else {
            Seq::<Seq<char>>::empty()
        })) by {
            if reserved_routes.conflicts(r.public_path) {
                assert(mid =~= before + seq![conflict_message(r)]);
            } else {
                assert(mid =~= before + Seq::<Seq<char>>::empty());
            }
        }
        let existing = match assoc_find(&seen, plan.routes[i].public_path.as_str()) {
            Some(k) => Some(seen[k].1.clone()),
            None => None,
        };
        assert(opt_view(existing) == last_claim(rv, i as int, r.public_path));
        let ghost old_seen = seen@;
        assoc_insert(
            &mut seen,
            plan.routes[i].public_path.clone(),
            plan.routes[i].route_id.clone(),
        );
        proof {
            assert forall|q: Seq<char>| #[trigger]
                opt_view(lookup(seen@, q)) == last_claim(rv, i + 1, q) by {
                assert(lookup(seen@, q) == if q == r.public_path {
                    Some(plan.routes@[i as int].route_id)
                } else {
                    lookup(old_seen, q)
                });
                assert(opt_view(lookup(old_seen, q)) == last_claim(rv, i as int, q));
            }
        }
        match existing {
            Some(e) => {
                let m = duplicate_message_text(&plan.routes[i], e.as_str());
                plan.blocking_failures.push(m);
            },
            None => {},
        }
        proof {
            let tail = match last_claim(rv, i as int, r.public_path) {
                Some(e) => seq![duplicate_message(r, e)],
                None => Seq::<Seq<char>>::empty(),
            };
            assert(texts_of(plan.blocking_failures@) =~= mid + tail);
            assert(claim_messages(rv, *reserved_routes, i + 1) == claim_messages(
                rv,
                *reserved_routes,
                i as int,
            ) + claim_checks(rv, *reserved_routes, i as int));
            assert(texts_of(plan.blocking_failures@) =~= start + claim_messages(
                rv,
                *reserved_routes,
                i + 1,
            ));
        }
        i += 1;
    }
    let mut i: usize = 0;
    assert(texts_of(plan.blocking_failures@) =~= start + claim_messages(rv, *reserved_routes, n as int)
        + overlap_rows(rv, 0));
    while i < n
        invariant
            n == plan.routes@.len(),
            i <= n,
            plan.routes == old(plan).routes,
            plan.warnings == old(plan).warnings,
            rv == routes_view(plan.routes@),
            start == texts_of(old(plan).blocking_failures@),
            texts_of(plan.blocking_failures@) == start + claim_messages(
                rv,
                *reserved_routes,
                n as int,
            ) + overlap_rows(rv, i as int),
        decreases n - i,
    {
        let ghost row_start = texts_of(plan.blocking_failures@);
        let mut j: usize = i + 1;
        assert(row_start =~= row_start + overlap_row(rv, i as int, j as int));
        while j < n
            invariant
                n == plan.routes@.len(),
                i < j <= n,
                plan.routes == old(plan).routes,
                plan.warnings == old(plan).warnings,
                rv == routes_view(plan.routes@),
                texts_of(plan.blocking_failures@) == row_start + overlap_row(rv, i as int, j as int),
            decreases n - j,
        {
            let ghost before = texts_of(plan.blocking_failures@);
            assert(plan.routes@[i as int]@ == rv[i as int]);
            assert(plan.routes@[j as int]@ == rv[j as int]);
            if paths_overlap(plan.routes[i].public_path.as_str(), plan.routes[j].public_path.as_str()) {
                let m = overlap_message_text(&plan.routes[i], &plan.routes[j]);
                plan.blocking_failures.push(m);
                assert(texts_of(plan.blocking_failures@) =~= before + seq![
                    overlap_message(rv[i as int], rv[j as int]),
                ]);
            } else {
                assert(texts_of(plan.blocking_failures@) =~= before + Seq::<Seq<char>>::empty());
            }
            j += 1;
        }
        i += 1;
    }
    proof {
        assert(rv == routes_view(old(plan).routes@));
    }
}

// ---------------------------------------------------------------------------
// The active route table
// ---------------------------------------------------------------------------

/// Routes with more segments come first; among those with as many, public
/// paths in lexicographic order.
impl SortKey for StaticRouteDescriptor {
    open spec fn key_le(self, other: Self) -> bool {
        int_then(
            other.route_segments@.len() as int,
            self.route_segments@.len() as int,
            lex_le(self.public_path@, other.public_path@),
        )
    }

    proof fn lemma_key_le_total(a: Self, b: Self) {
        lemma_lex_total(a.public_path@, b.public_path@);
    }

    proof fn lemma_key_le_trans(a: Self, b: Self, c: Self) {
        if lex_le(a.public_path@, b.public_path@) && lex_le(b.public_path@, c.public_path@) {
            lemma_lex_trans(a.public_path@, b.public_path@, c.public_path@);
        }
    }

    fn key_le_exec(&self, other: &Self) -> (r: bool) {
        let a = self.route_segments.len();
        let b = other.route_segments.len();
        if a != b {
            a > b
        } else {
            text_le(self.public_path.as_str(), other.public_path.as_str())
        }
    }
}

/// Routes are tried more specific first: a route never comes before one
/// with more segments, and routes with as many segments come in ascending
/// order of public path.
pub open spec fn specific_routes_first(rs: Seq<StaticRouteDescriptor>) -> bool {
    forall|i: int, j: int|
        0 <= i < j < rs.len() ==> #[trigger] rs[i].route_segments@.len() >= #[trigger] rs[j].route_segments@.len()
            && (rs[i].route_segments@.len() == rs[j].route_segments@.len() ==> lex_le(
            rs[i].public_path@,
            rs[j].public_path@,
        ))
}

/// Routes kept in matching order are tried more specific first, and among
/// routes with as many segments, by ascending public path.
pub proof fn law_route_table_order(rs: Seq<StaticRouteDescriptor>)
    requires
        sorted_by_key(rs),
    ensures
        specific_routes_first(rs),
{
    assert forall|i: int, j: int| 0 <= i < j < rs.len() implies #[trigger] rs[i].route_segments@.len()
        >= #[trigger] rs[j].route_segments@.len() && (rs[i].route_segments@.len()
        == rs[j].route_segments@.len() ==> lex_le(rs[i].public_path@, rs[j].public_path@)) by {
        assert(rs[i].key_le(rs[j]));
    }
}

/// The routes being served, in the order requests are matched against them.
#[derive(Debug, PartialEq, Eq)]
pub struct ActiveRouteTable {
    routes: Vec<StaticRouteDescriptor>,
}

/// A request matched to a route, with the asset path under the route.
pub struct StaticRouteMatch<'a> {
    pub descriptor: &'a StaticRouteDescriptor,
    pub asset_path: String,
    pub request_is_directory: bool,
}

/// The request's segments fill the route's placeholders and equal its literals.
pub open spec fn segments_match(segs: Seq<SegmentView>, req: Seq<Seq<char>>) -> bool {
    &&& segs.len() <= req.len()
    &&& forall|k: int|
        0 <= k < segs.len() ==> match #[trigger] segs[k] {
            SegmentView::Literal(e) => e == req[k],
            _ => true,
        }
}

impl Default for ActiveRouteTable {
    fn default() -> (r: Self)
        ensures
            r.entries() == Seq::<StaticRouteDescriptor>::empty(),
    {
        ActiveRouteTable { routes: Vec::new() }
    }
}

impl ActiveRouteTable {
    /// The routes, in matching order.
    pub closed spec fn entries(&self) -> Seq<StaticRouteDescriptor> {
        self.routes@
    }

    /// The routes of a plan, more specific first.
    pub fn from_plan(plan: &StaticRoutePlan) -> (r: Self)
        ensures
            sorted_by_key(r.entries()),
            routes_view(r.entries()).to_multiset() == routes_view(plan.routes@).to_multiset(),
            exists|s: Seq<StaticRouteDescriptor>|
                #[trigger] routes_view(s) == routes_view(plan.routes@) && stably_sorted_from(
                    r.entries(),
                    s,
                ),
            specific_routes_first(r.entries()),
    {
        let mut copy: Vec<StaticRouteDescriptor> = Vec::new();
        let mut i: usize = 0;
        while i < plan.routes.len()
            invariant
                i <= plan.routes@.len(),
                routes_view(copy@) == routes_view(plan.routes@).take(i as int),
            decreases plan.routes@.len() - i,
        {
            let d = plan.routes[i].clone();
            let ghost before = copy@;
            copy.push(d);
            proof {
                assert(copy@ == before.push(d));
                assert(routes_view(copy@) =~= routes_view(before).push(d@));
                assert(routes_view(plan.routes@).take(i + 1) =~= routes_view(plan.routes@).take(
                    i as int,
                ).push(plan.routes@[i as int]@));
            }
            i += 1;
            assert(routes_view(copy@) =~= routes_view(plan.routes@).take(i as int));
        }
        assert(routes_view(plan.routes@).take(plan.routes@.len() as int) =~= routes_view(
            plan.routes@,
        ));
        let ghost unsorted = copy@;
        let routes = sort_by_key(copy);
        proof {
            lemma_map_multiset(routes@, unsorted, |r: StaticRouteDescriptor| r@);
            assert(routes_view(unsorted) == routes_view(plan.routes@));
        }
        proof {
            law_route_table_order(routes@);
        }
        ActiveRouteTable { routes }
    }

    /// The routes, in matching order.
    pub fn routes(&self) -> (r: &[StaticRouteDescriptor])
        ensures
            r@ == self.entries(),
    {
        self.routes.as_slice()
    }

    /// The first route whose segments the request path fills, with the rest of
    /// the path as the asset path.
    pub fn match_request<'a>(&'a self, request_path: &str) -> (r: Option<StaticRouteMatch<'a>>)
        ensures
            ({
                let req = pieces(request_path@, '/');
                let e = self.entries();
                match r {
                    None => forall|i: int|
                        0 <= i < e.len() ==> !segments_match(#[trigger] e[i]@.route_segments, req),
                    Some(m) => exists|i: int|
                        {
                            &&& 0 <= i < e.len()
                            &&& segments_match(#[trigger] e[i]@.route_segments, req)
                            &&& forall|j: int|
                                0 <= j < i ==> !segments_match(e[j]@.route_segments, req)
                            &&& *m.descriptor == e[i]
                            &&& m.asset_path@ == join_texts(
                                req.skip(e[i].route_segments@.len() as int),
                                "/"@,
                            )
                            &&& m.request_is_directory == seq_ends_with(request_path@, "/"@)
                        },
                }
            }),
    {
        let parts = split_pieces(request_path, '/');
        let ghost req = texts_of(parts@);
        let request_is_directory = ends_with(request_path, "/");
        let ghost e = self.routes@;
        let mut i: usize = 0;
        while i < self.routes.len()
            invariant
                i <= e.len(),
                e == self.routes@,
                req == texts_of(parts@),
                req == pieces(request_path@, '/'),
                request_is_directory == seq_ends_with(request_path@, "/"@),
                forall|j: int| 0 <= j < i ==> !segments_match(#[trigger] e[j]@.route_segments, req),
            decreases e.len() - i,
        {
            let d = &self.routes[i];
            let n = d.route_segments.len();
            if n <= parts.len() {
                let mut k: usize = 0;
                let mut matched = true;
                while k < n
                    invariant
                        k <= n,
                        n == d.route_segments@.len(),
                        n <= parts@.len(),
                        req == texts_of(parts@),
                        matched ==> forall|t: int|
                            0 <= t < k ==> match #[trigger] segments_view(d.route_segments@)[t] {
                                SegmentView::Literal(x) => x == req[t],
                                _ => true,
                            },
                        !matched ==> !segments_match(segments_view(d.route_segments@), req),
                    decreases n - k,
                {
                    let ghost sv = segments_view(d.route_segments@);
                    assert(sv[k as int] == d.route_segments@[k as int]@);
                    match &d.route_segments[k] {
                        RouteScopeSegment::Literal(expected) => {
                            if !text_eq(expected.as_str(), parts[k].as_str()) {
                                matched = false;
                            }
                        },
                        _ => {},
                    }
                    k += 1;
                }
                if matched {
                    let mut rest: Vec<String> = Vec::new();
                    let mut t: usize = n;
                    while t < parts.len()
                        invariant
                            n <= t <= parts@.len(),
                            req == texts_of(parts@),
                            texts_of(rest@) == req.subrange(n as int, t as int),
                        decreases parts@.len() - t,
                    {
                        let ghost before = rest@;
                        rest.push(parts[t].clone());
                        assert(req[t as int] == parts@[t as int]@);
                        assert(texts_of(rest@) =~= texts_of(before).push(parts@[t as int]@));
                        t += 1;
                        assert(texts_of(rest@) =~= req.subrange(n as int, t as int));
                    }
                    let asset_path = join(&rest, "/");
                    proof {
                        assert(req.subrange(n as int, req.len() as int) =~= req.skip(n as int));
                        assert(*d == e[i as int]);
                        assert(segments_match(e[i as int]@.route_segments, req));
                        assert(asset_path@ == join_texts(
                            req.skip(e[i as int].route_segments@.len() as int),
                            "/"@,
                        ));
                    }
                    return Some(StaticRouteMatch { descriptor: d, asset_path, request_is_directory });
                }
            }
            i += 1;
        }
        None
    }
}

/// The asset a match serves: the route's index file for a directory or an
/// empty asset path, the asset path otherwise.
pub fn resolve_asset_path(route_match: &StaticRouteMatch<'_>) -> (r: Option<String>)
    ensures
        opt_view(r) == if route_match.asset_path@.len() == 0 || route_match.request_is_directory {
            route_match.descriptor@.index_file
        } else {
            Some(route_match.asset_path@)
        },
{
    if route_match.asset_path.as_str().unicode_len() == 0 || route_match.request_is_directory {
        return match &route_match.descriptor.index_file {
            Some(f) => Some(f.clone()),
            None => None,
        };
    }
    Some(route_match.asset_path.clone())
}

/// The asset served when the resolved one is missing: the route's SPA fallback.
pub fn fallback_asset_path(route_match: &StaticRouteMatch<'_>) -> (r: Option<String>)
    ensures
        opt_view(r) == route_match.descriptor@.spa_fallback,
{
    match &route_match.descriptor.spa_fallback {
        Some(f) => Some(f.clone()),
        None => None,
    }
}

/// The `Cache-Control` header value a cache strategy asks for.
pub fn cache_control_value(strategy: &CacheStrategy) -> (r: Option<String>)
    ensures
        opt_view(r) == match *strategy {
            CacheStrategy::NoCaching => None,
            CacheStrategy::PublicMaxAge { max_age_seconds } => Some(
                "public, max-age="@ + decimal(max_age_seconds as nat),
            ),
        },
{
    match strategy {
        CacheStrategy::NoCaching => None,
        CacheStrategy::PublicMaxAge { max_age_seconds } => {
            let mut v = chars_of("public, max-age=");
            let d = decimal_text(*max_age_seconds as u128);
            let ghost before = v@;
            let mut k: usize = 0;
            while k < d.len()
                invariant
                    k <= d@.len(),
                    v@ == before + d@.take(k as int),
                decreases d@.len() - k,
            {
                v.push(d[k]);
                k += 1;
                assert(v@ =~= before + d@.take(k as int));
            }
            assert(d@.take(d@.len() as int) =~= d@);
            Some(string_of(v.as_slice()))
        },
    }
}

// ---------------------------------------------------------------------------
// Assembling a bundle's plan
// ---------------------------------------------------------------------------

/// What reading one pack gave: its routes, no static-routes extension, or an error.
pub open spec fn pack_outcome_view(o: Result<Option<Vec<StaticRouteDescriptor>>, String>) -> Result<
    Option<Seq<StaticRouteView>>,
    Seq<char>,
> {
    match o {
        Ok(Some(v)) => Ok(Some(routes_view(v@))),
        Ok(None) => Ok(None),
        Err(e) => Err(e@),
    }
}

pub open spec fn pack_outcomes_view(
    s: Seq<Result<Option<Vec<StaticRouteDescriptor>>, String>>,
) -> Seq<Result<Option<Seq<StaticRouteView>>, Seq<char>>> {
    s.map_values(|o: Result<Option<Vec<StaticRouteDescriptor>>, String>| pack_outcome_view(o))
}

/// The routes of the packs that declared some, in pack order.
pub open spec fn gathered_routes(os: Seq<Result<Option<Seq<StaticRouteView>>, Seq<char>>>) -> Seq<
    StaticRouteView,
>
    decreases os.len(),
{
    if os.len() == 0 {
        Seq::empty()
    } else {
        gathered_routes(os.drop_last()) + match os.last() {
            Ok(Some(v)) => v,
            _ => Seq::empty(),
        }
    }
}

/// The errors of the packs that could not be read, in pack order.
pub open spec fn gathered_errors(os: Seq<Result<Option<Seq<StaticRouteView>>, Seq<char>>>) -> Seq<
    Seq<char>,
>
    decreases os.len(),
{
    if os.len() == 0 {
        Seq::empty()
    } else {
        gathered_errors(os.drop_last()) + match os.last() {
            Err(e) => seq![e],
            _ => Seq::empty(),
        }
    }
}

/// The plan of a bundle from what reading each of its packs gave: the
/// declared routes in pack order, each read error as a blocking failure, then
/// what validation finds.
pub fn plan_from_pack_routes(
    outcomes: Vec<Result<Option<Vec<StaticRouteDescriptor>>, String>>,
    reserved_routes: &ReservedRouteSet,
) -> (r: StaticRoutePlan)
    ensures
        ({
            let os = pack_outcomes_view(outcomes@);
            &&& routes_view(r.routes@) == gathered_routes(os)
            &&& r.warnings@.len() == 0
            &&& texts_of(r.blocking_failures@) == gathered_errors(os) + plan_failures(
                gathered_routes(os),
                *reserved_routes,
            )
        }),
{
    let ghost os = pack_outcomes_view(outcomes@);
    let total = outcomes.len();
    let mut rest = outcomes;
    let mut plan = StaticRoutePlan {
        routes: Vec::new(),
        warnings: Vec::new(),
        blocking_failures: Vec::new(),
    };
    let mut idx: usize = 0;
    proof {
        assert(os.take(0) =~= Seq::<Result<Option<Seq<StaticRouteView>>, Seq<char>>>::empty());
        assert(routes_view(plan.routes@) =~= Seq::<StaticRouteView>::empty());
        assert(texts_of(plan.blocking_failures@) =~= Seq::<Seq<char>>::empty());
    }
    while idx < total
        invariant
            total == os.len(),
            os == pack_outcomes_view(outcomes@),
            idx <= total,
            rest@.len() == total - idx,
            forall|j: int|
                0 <= j < rest@.len() ==> pack_outcome_view(#[trigger] rest@[j]) == os[idx + j],
            routes_view(plan.routes@) == gathered_routes(os.take(idx as int)),
            texts_of(plan.blocking_failures@) == gathered_errors(os.take(idx as int)),
            plan.warnings@.len() == 0,
        decreases total - idx,
    {
        let ghost before = rest@;
        assert(pack_outcome_view(before[0]) == os[idx + 0]);
        let outcome = rest.remove(0);
        assert forall|j: int| 0 <= j < rest@.len() implies pack_outcome_view(#[trigger] rest@[j])
            == os[idx + 1 + j] by {
            assert(rest@[j] == before[j + 1]);
            assert(pack_outcome_view(before[j + 1]) == os[idx + (j + 1)]);
        }
        let ghost done_routes = routes_view(plan.routes@);
        let ghost done_errors = texts_of(plan.blocking_failures@);
        proof {
            assert(os.take(idx + 1).drop_last() =~= os.take(idx as int));
            assert(os.take(idx + 1).last() == os[idx as int]);
        }
        match outcome {
            Ok(Some(descriptors)) => {
                let mut k: usize = 0;
                while k < descriptors.len()
                    invariant
                        k <= descriptors@.len(),
                        routes_view(plan.routes@) == done_routes + routes_view(
                            descriptors@,
                        ).take(k as int),
                        texts_of(plan.blocking_failures@) == done_errors,
                        plan.warnings@.len() == 0,
                    decreases descriptors@.len() - k,
                {
                    let d = descriptors[k].clone();
                    let ghost b = plan.routes@;
                    plan.routes.push(d);
                    proof {
                        assert(plan.routes@ == b.push(d));
                        assert(routes_view(plan.routes@) =~= routes_view(b).push(d@));
                        assert(routes_view(descriptors@).take(k + 1) =~= routes_view(
                            descriptors@,
                        ).take(k as int).push(descriptors@[k as int]@));
                    }
                    k += 1;
                }
                assert(routes_view(descriptors@).take(descriptors@.len() as int) =~= routes_view(
                    descriptors@,
                ));
            },
            Ok(None) => {
                assert(routes_view(plan.routes@) =~= done_routes + Seq::<StaticRouteView>::empty());
            },
            Err(e) => {
                let ghost ev = e@;
                plan.blocking_failures.push(e);
                assert(texts_of(plan.blocking_failures@) =~= done_errors + seq![ev]);
                assert(routes_view(plan.routes@) =~= done_routes + Seq::<StaticRouteView>::empty());
            },
        }
        proof {
            if !(os[idx as int] is Err) {
                assert(texts_of(plan.blocking_failures@) =~= done_errors + Seq::<
                    Seq<char>,
                >::empty());
            }
        }
        idx += 1;
    }
    proof {
        lemma_take_all(os);
    }
    validate_plan(&mut plan, reserved_routes);
    plan
}

// ---------------------------------------------------------------------------
// Laws
// ---------------------------------------------------------------------------

proof fn lemma_claims_clean(rv: Seq<StaticRouteView>, reserved: ReservedRouteSet, n: int)
    requires
        claim_messages(rv, reserved, n).len() == 0,
    ensures
        forall|i: int| 0 <= i < n ==> (#[trigger] claim_checks(rv, reserved, i)).len() == 0,
    decreases n,
{
    if n > 0 {
        lemma_claims_clean(rv, reserved, n - 1);
    }
}

proof fn lemma_row_clean(rv: Seq<StaticRouteView>, i: int, j: int)
    requires
        overlap_row(rv, i, j).len() == 0,
    ensures
        forall|k: int| i < k < j ==> !overlap(rv[i].public_path, #[trigger] rv[k].public_path),
    decreases j - i,
{
    if j > i + 1 {
        lemma_row_clean(rv, i, j - 1);
    }
}

proof fn lemma_rows_clean(rv: Seq<StaticRouteView>, n: int)
    requires
        overlap_rows(rv, n).len() == 0,
    ensures
        forall|i: int| 0 <= i < n ==> (#[trigger] overlap_row(rv, i, rv.len() as int)).len() == 0,
    decreases n,
{
    if n > 0 {
        lemma_rows_clean(rv, n - 1);
    }
}

/// A plan that validation finds nothing wrong with is unambiguous: no route
/// lies in the reserved operator path space, no public path is claimed
/// twice, and no two routes overlap.
pub proof fn law_clean_plan_is_unambiguous(rv: Seq<StaticRouteView>, reserved: ReservedRouteSet)
    requires
        plan_failures(rv, reserved).len() == 0,
    ensures
        forall|i: int| 0 <= i < rv.len() ==> !reserved.conflicts(#[trigger] rv[i].public_path),
        forall|i: int| 0 <= i < rv.len() ==> (#[trigger] last_claim(rv, i, rv[i].public_path)) is None,
        forall|i: int, j: int|
            0 <= i < j < rv.len() ==> !overlap(#[trigger] rv[i].public_path, #[trigger] rv[j].public_path),
{
    let n = rv.len() as int;
    lemma_claims_clean(rv, reserved, n);
    lemma_rows_clean(rv, n);
    assert forall|i: int| 0 <= i < rv.len() implies !reserved.conflicts(#[trigger] rv[i].public_path) by {
        assert(claim_checks(rv, reserved, i).len() == 0);
    }
    assert forall|i: int| 0 <= i < rv.len() implies (#[trigger] last_claim(rv, i, rv[i].public_path)) is None by {
        assert(claim_checks(rv, reserved, i).len() == 0);
    }
    assert forall|i: int, j: int|
        0 <= i < j < rv.len() implies !overlap(#[trigger] rv[i].public_path, #[trigger] rv[j].public_path) by {
        assert(overlap_row(rv, i, rv.len() as int).len() == 0);
        lemma_row_clean(rv, i, rv.len() as int);
    }
}

} // verus!
