//! The messaging app pack of a tenant: where it is looked for, what its
//! manifest says, which of its flows runs, and which provider pack a
//! provider name stands for.
use vstd::prelude::*;

use crate::discovery::{cbor_decoded, decode_cbor, entry_value, map_get, CborItem};
use crate::host::{get, get_member, JsonItem};
use crate::state_layout::{join_path, path_join};
use crate::static_routes::opt_view;
use crate::text::{
    ascii_lower, chars_of, concat, eq_ignore_ascii_case, extend_chars, join, join_texts, string_of,
    text, text_eq, texts_of,
};

verus! {

/// A flow of an app pack and its kind.
#[derive(Debug, PartialEq, Eq)]
pub struct AppFlowInfo {
    pub id: String,
    pub kind: String,
}

/// An app pack's id and flows.
#[derive(Debug, PartialEq, Eq)]
pub struct AppPackInfo {
    pub pack_id: String,
    pub flows: Vec<AppFlowInfo>,
}

pub open spec fn flow_ids(flows: Seq<AppFlowInfo>) -> Seq<Seq<char>> {
    flows.map_values(|f: AppFlowInfo| f.id@)
}

// ---------------------------------------------------------------------------
// Where the app pack is
// ---------------------------------------------------------------------------

/// The places an app pack is looked for, in order: the override alone when
/// there is one; else the team's, the tenant's and the bundle's
/// `default.gtpack` under `packs`.
pub open spec fn app_pack_candidates(
    bundle: Seq<char>,
    tenant: Seq<char>,
    team: Option<Seq<char>>,
    override_path: Option<Seq<char>>,
) -> Seq<Seq<char>> {
    let packs = path_join(bundle, "packs"@);
    match override_path {
        Some(o) => seq![o],
        None => (match team {
            Some(t) => seq![path_join(path_join(path_join(packs, tenant), t), "default.gtpack"@)],
            None => Seq::empty(),
        }) + seq![
            path_join(path_join(packs, tenant), "default.gtpack"@),
            path_join(packs, "default.gtpack"@),
        ],
    }
}

pub open spec fn opt_str_view(o: Option<&str>) -> Option<Seq<char>> {
    match o {
        Some(s) => Some(s@),
        None => None,
    }
}

/// The paths to look for the app pack at, in order.
pub fn app_pack_candidate_paths(
    bundle: &str,
    tenant: &str,
    team: Option<&str>,
    override_path: Option<&str>,
) -> (r: Vec<String>)
    ensures
        texts_of(r@) == app_pack_candidates(
            bundle@,
            tenant@,
            opt_str_view(team),
            opt_str_view(override_path),
        ),
{
    let mut v: Vec<String> = Vec::new();
    if let Some(o) = override_path {
        v.push(text(o));
        assert(texts_of(v@) =~= seq![o@]);
        return v;
    }
    let packs = join_path(bundle, "packs");
    let tenant_dir = join_path(packs.as_str(), tenant);
    if let Some(t) = team {
        let team_dir = join_path(tenant_dir.as_str(), t);
        v.push(join_path(team_dir.as_str(), "default.gtpack"));
    }
    v.push(join_path(tenant_dir.as_str(), "default.gtpack"));
    v.push(join_path(packs.as_str(), "default.gtpack"));
    assert(texts_of(v@) =~= app_pack_candidates(
        bundle@,
        tenant@,
        opt_str_view(team),
        opt_str_view(override_path),
    ));
    v
}

/// The first candidate that exists, given which of them exist.
pub open spec fn first_existing(candidates: Seq<Seq<char>>, exists: Seq<bool>) -> Option<Seq<char>>
    decreases candidates.len(),
{
    if candidates.len() == 0 || exists.len() == 0 {
        None
    } else if exists[0] {
        Some(candidates[0])
    } else {
        first_existing(candidates.drop_first(), exists.drop_first())
    }
}

/// Picks the app pack among the candidates of `app_pack_candidate_paths`,
/// `exists[i]` telling whether candidate `i` exists.
pub fn resolve_app_pack_path(
    bundle: &str,
    tenant: &str,
    team: Option<&str>,
    override_path: Option<&str>,
    exists: &Vec<bool>,
) -> (r: Result<String, String>)
    requires
        exists@.len() == app_pack_candidates(
            bundle@,
            tenant@,
            opt_str_view(team),
            opt_str_view(override_path),
        ).len(),
    ensures
        ({
            let c = app_pack_candidates(
                bundle@,
                tenant@,
                opt_str_view(team),
                opt_str_view(override_path),
            );
            match r {
                Ok(p) => first_existing(c, exists@) == Some(p@),
                Err(e) => first_existing(c, exists@) is None && e@ == match override_path {
                    Some(o) => "APP_PACK_NOT_FOUND override path "@ + o@ + " does not exist"@,
                    None => "APP_PACK_NOT_FOUND; tried "@ + join_texts(c, ", "@),
                },
            }
        }),
{
    let candidates = app_pack_candidate_paths(bundle, tenant, team, override_path);
    let ghost c = texts_of(candidates@);
    let mut i: usize = 0;
    assert(c.skip(0) =~= c);
    assert(exists@.skip(0) =~= exists@);
    while i < candidates.len()
        invariant
            i <= c.len(),
            c == texts_of(candidates@),
            c == app_pack_candidates(
                bundle@,
                tenant@,
                opt_str_view(team),
                opt_str_view(override_path),
            ),
            exists@.len() == c.len(),
            first_existing(c, exists@) == first_existing(c.skip(i as int), exists@.skip(i as int)),
        decreases c.len() - i,
    {
        assert(c.skip(i as int)[0] == c[i as int]);
        assert(exists@.skip(i as int)[0] == exists@[i as int]);
        if exists[i] {
            return Ok(candidates[i].clone());
        }
        assert(c.skip(i as int).drop_first() =~= c.skip(i + 1));
        assert(exists@.skip(i as int).drop_first() =~= exists@.skip(i + 1));
        i += 1;
    }
    match override_path {
        Some(o) => {
            let mut v = chars_of("APP_PACK_NOT_FOUND override path ");
            extend_chars(&mut v, o);
            extend_chars(&mut v, " does not exist");
            Err(string_of(v.as_slice()))
        },
        None => {
            let j = join(&candidates, ", ");
            Err(concat("APP_PACK_NOT_FOUND; tried ", j.as_str()))
        },
    }
}

// ---------------------------------------------------------------------------
// Which flow runs
// ---------------------------------------------------------------------------

pub open spec fn is_messaging_kind() -> spec_fn(AppFlowInfo) -> bool {
    |f: AppFlowInfo| eq_ignore_ascii_case(f.kind@, "messaging"@)
}

/// The flow an app pack runs: the first one named `default`; else its only
/// messaging flow; else none, and the flows there are.
pub open spec fn selected_flow(flows: Seq<AppFlowInfo>) -> Option<int> {
    if exists|i: int| 0 <= i < flows.len() && flows[i].id@ == "default"@ {
        Some(
            choose|i: int|
                0 <= i < flows.len() && flows[i].id@ == "default"@ && forall|j: int|
                    0 <= j < i ==> flows[j].id@ != "default"@,
        )
    } else if flows.filter(is_messaging_kind()).len() == 1 {
        Some(
            choose|i: int| 0 <= i < flows.len() && is_messaging_kind()(flows[i]),
        )
    } else {
        None
    }
}

fn kind_is_messaging(kind: &str) -> (r: bool)
    ensures
        r == eq_ignore_ascii_case(kind@, "messaging"@),
{
    proof {
        reveal_strlit("messaging");
    }
    let v = chars_of(kind);
    let m = chars_of("messaging");
    if v.len() != m.len() {
        return false;
    }
    let mut i: usize = 0;
    while i < v.len()
        invariant
            i <= v@.len(),
            v@ == kind@,
            m@ == "messaging"@,
            v@.len() == m@.len(),
            forall|k: int| 0 <= k < i ==> ascii_lower(#[trigger] v@[k]) == ascii_lower(m@[k]),
        decreases v@.len() - i,
    {
        if crate::text::char_ascii_lower(v[i]) != crate::text::char_ascii_lower(m[i]) {
            return false;
        }
        i += 1;
    }
    true
}

/// Picks the flow an app pack runs.
pub fn select_app_flow(info: &AppPackInfo) -> (r: Result<&AppFlowInfo, String>)
    ensures
        match r {
            Ok(f) => exists|i: int|
                0 <= i < info.flows@.len() && selected_flow(info.flows@) == Some(i) && *f
                    == info.flows@[i],
            Err(e) => selected_flow(info.flows@) is None && e@
                == "APP_FLOW_NOT_RESOLVED; available flows: "@ + join_texts(
                flow_ids(info.flows@),
                ", "@,
            ),
        },
{
    proof {
        reveal_strlit("default");
    }
    let ghost fs = info.flows@;
    let mut i: usize = 0;
    while i < info.flows.len()
        invariant
            i <= fs.len(),
            fs == info.flows@,
            forall|j: int| 0 <= j < i ==> fs[j].id@ != "default"@,
        decreases fs.len() - i,
    {
        if text_eq(info.flows[i].id.as_str(), "default") {
            proof {
                let k = choose|k: int|
                    0 <= k < fs.len() && fs[k].id@ == "default"@ && forall|j: int|
                        0 <= j < k ==> fs[j].id@ != "default"@;
                if k < i {
                } else if k > i {
                    assert(fs[i as int].id@ == "default"@);
                }
                assert(k == i);
            }
            return Ok(&info.flows[i]);
        }
        i += 1;
    }
    let ghost p = is_messaging_kind();
    let mut count: usize = 0;
    let mut found: usize = 0;
    let mut k: usize = 0;
    proof {
        crate::seqs::lemma_filter_empty(p);
        assert(fs.take(0) =~= Seq::<AppFlowInfo>::empty());
    }
    while k < info.flows.len()
        invariant
            k <= fs.len(),
            fs == info.flows@,
            p == is_messaging_kind(),
            count as int == fs.take(k as int).filter(p).len(),
            count > 0 ==> found < k && p(fs[found as int]),
            count <= k,
        decreases fs.len() - k,
    {
        proof {
            crate::seqs::lemma_filter_step(fs, p, k as int);
        }
        if kind_is_messaging(info.flows[k].kind.as_str()) {
            if count == 0 {
                found = k;
            }
            count += 1;
        }
        k += 1;
    }
    proof {
        crate::seqs::lemma_take_all(fs);
    }
    if count == 1 {
        proof {
            let c = choose|i: int| 0 <= i < fs.len() && p(fs[i]);
            if c != found {
                lemma_two_pass(fs, p, c, found as int);
            }
        }
        return Ok(&info.flows[found]);
    }
    let mut ids: Vec<String> = Vec::new();
    let mut t: usize = 0;
    while t < info.flows.len()
        invariant
            t <= fs.len(),
            fs == info.flows@,
            texts_of(ids@) == flow_ids(fs).take(t as int),
        decreases fs.len() - t,
    {
        let ghost before = texts_of(ids@);
        let id = info.flows[t].id.clone();
        assert(flow_ids(fs)[t as int] == id@);
        ids.push(id);
        assert(texts_of(ids@) =~= before.push(id@));
        assert(flow_ids(fs).take(t + 1) =~= flow_ids(fs).take(t as int).push(id@));
        assert(texts_of(ids@) =~= flow_ids(fs).take(t + 1));
        t += 1;
    }
    assert(flow_ids(fs).take(fs.len() as int) =~= flow_ids(fs));
    let j = join(&ids, ", ");
    Err(concat("APP_FLOW_NOT_RESOLVED; available flows: ", j.as_str()))
}

/// Two different elements passing a test make the filtered sequence longer than one.
proof fn lemma_two_pass(s: Seq<AppFlowInfo>, p: spec_fn(AppFlowInfo) -> bool, a: int, b: int)
    requires
        0 <= a < s.len(),
        0 <= b < s.len(),
        a != b,
        p(s[a]),
        p(s[b]),
    ensures
        s.filter(p).len() >= 2,
{
    let lo = if a < b {
        a
    } else {
        b
    };
    let hi = if a < b {
        b
    } else {
        a
    };
    crate::seqs::lemma_filter_nonempty(s.take(hi), p);
    assert(s.take(hi)[lo] == s[lo]);
    crate::seqs::lemma_filter_step(s, p, hi);
    assert(s =~= s.take(hi + 1) + s.skip(hi + 1));
    Seq::filter_distributes_over_add(s.take(hi + 1), s.skip(hi + 1), p);
}

// ---------------------------------------------------------------------------
// What an app pack's manifest says
// ---------------------------------------------------------------------------

/// A text field that may be written as an index into the manifest's
/// `symbols` table `symbol_table`.
pub open spec fn text_or_symbol(value: CborItem, key: Seq<char>, symbol_table: Seq<char>) -> Option<
    Seq<char>,
> {
    match value {
        CborItem::Entries(map) => match entry_value(map@, key) {
            Some(CborItem::Text(t)) => Some(t@),
            Some(CborItem::Integer(idx)) => {
                let u = idx as usize;
                match entry_value(map@, "symbols"@) {
                    Some(CborItem::Entries(sym)) => match entry_value(sym@, symbol_table) {
                        Some(CborItem::Array(entries)) => if u < entries@.len() {
                            match entries@[u as int] {
                                CborItem::Text(t) => Some(t@),
                                _ => None,
                            }
                        } else {
                            None
                        },
                        _ => None,
                    },
                    _ => None,
                }
            },
            _ => None,
        },
        _ => None,
    }
}

/// Reads a text field that may be a symbol index.
pub fn extract_text_or_symbol(value: &CborItem, key: &str, symbol_table: &str) -> (r: Option<String>)
    ensures
        opt_view(r) == text_or_symbol(*value, key@, symbol_table@),
{
    let map = match value {
        CborItem::Entries(m) => m,
        _ => {
            return None;
        },
    };
    match map_get(map, key) {
        Some(CborItem::Text(t)) => Some(t.clone()),
        Some(CborItem::Integer(idx)) => {
            let u = *idx as usize;
            match map_get(map, "symbols") {
                Some(CborItem::Entries(sym)) => match map_get(sym, symbol_table) {
                    Some(CborItem::Array(entries)) => {
                        if u < entries.len() {
                            match &entries[u] {
                                CborItem::Text(t) => Some(t.clone()),
                                _ => None,
                            }
                        } else {
                            None
                        }
                    },
                    _ => None,
                },
                _ => None,
            }
        },
        _ => None,
    }
}

/// A text entry of a map.
pub open spec fn text_entry(map: Seq<(CborItem, CborItem)>, key: Seq<char>) -> Option<Seq<char>> {
    match entry_value(map, key) {
        Some(CborItem::Text(t)) => Some(t@),
        _ => None,
    }
}

fn text_entry_exec(map: &Vec<(CborItem, CborItem)>, key: &str) -> (r: Option<String>)
    ensures
        opt_view(r) == text_entry(map@, key@),
{
    match map_get(map, key) {
        Some(CborItem::Text(t)) => Some(t.clone()),
        _ => None,
    }
}

/// A flow entry of the manifest: its `id`, and the `kind` of its `flow` map
/// (or its own `kind` when it has no `flow` map), `messaging` by default.
pub open spec fn flow_entry(value: CborItem) -> Option<(Seq<char>, Seq<char>)> {
    match value {
        CborItem::Entries(map) => match text_entry(map@, "id"@) {
            None => None,
            Some(id) => {
                let kind = match entry_value(map@, "flow"@) {
                    Some(CborItem::Entries(flow)) => text_entry(flow@, "kind"@),
                    _ => text_entry(map@, "kind"@),
                };
                Some(
                    (
                        id,
                        match kind {
                            Some(k) => k,
                            None => "messaging"@,
                        },
                    ),
                )
            },
        },
        _ => None,
    }
}

/// Reads one flow entry of the manifest.
pub fn parse_flow_entry(value: &CborItem) -> (r: Option<AppFlowInfo>)
    ensures
        match r {
            Some(f) => flow_entry(*value) == Some((f.id@, f.kind@)),
            None => flow_entry(*value) is None,
        },
{
    let map = match value {
        CborItem::Entries(m) => m,
        _ => {
            return None;
        },
    };
    let id = match text_entry_exec(map, "id") {
        Some(id) => id,
        None => {
            return None;
        },
    };
    let kind = match map_get(map, "flow") {
        Some(CborItem::Entries(flow)) => text_entry_exec(flow, "kind"),
        _ => text_entry_exec(map, "kind"),
    };
    let kind = match kind {
        Some(k) => k,
        None => {
            proof {
                reveal_strlit("messaging");
            }
            text("messaging")
        },
    };
    Some(AppFlowInfo { id, kind })
}

/// The flows of a manifest: each readable entry of its `flows` array, in order.
pub open spec fn manifest_flows(value: CborItem) -> Seq<(Seq<char>, Seq<char>)> {
    match value {
        CborItem::Entries(map) => match entry_value(map@, "flows"@) {
            Some(CborItem::Array(entries)) => flow_entries(entries@),
            _ => Seq::empty(),
        },
        _ => Seq::empty(),
    }
}

pub open spec fn flow_entries(entries: Seq<CborItem>) -> Seq<(Seq<char>, Seq<char>)>
    decreases entries.len(),
{
    if entries.len() == 0 {
        Seq::empty()
    } else {
        flow_entries(entries.drop_last()) + match flow_entry(entries.last()) {
            Some(f) => seq![f],
            None => Seq::empty(),
        }
    }
}

pub open spec fn flows_view(flows: Seq<AppFlowInfo>) -> Seq<(Seq<char>, Seq<char>)> {
    flows.map_values(|f: AppFlowInfo| (f.id@, f.kind@))
}

/// Reads the flows of a manifest.
pub fn extract_flows(value: &CborItem) -> (r: Vec<AppFlowInfo>)
    ensures
        flows_view(r@) == manifest_flows(*value),
{
    let mut flows: Vec<AppFlowInfo> = Vec::new();
    let map = match value {
        CborItem::Entries(m) => m,
        _ => {
            assert(flows_view(flows@) =~= Seq::<(Seq<char>, Seq<char>)>::empty());
            return flows;
        },
    };
    let entries = match map_get(map, "flows") {
        Some(CborItem::Array(e)) => e,
        _ => {
            assert(flows_view(flows@) =~= Seq::<(Seq<char>, Seq<char>)>::empty());
            return flows;
        },
    };
    let mut i: usize = 0;
    assert(entries@.take(0) =~= Seq::<CborItem>::empty());
    assert(flows_view(flows@) =~= Seq::<(Seq<char>, Seq<char>)>::empty());
    while i < entries.len()
        invariant
            i <= entries@.len(),
            flows_view(flows@) == flow_entries(entries@.take(i as int)),
        decreases entries@.len() - i,
    {
        assert(entries@.take(i + 1).drop_last() =~= entries@.take(i as int));
        assert(entries@.take(i + 1).last() == entries@[i as int]);
        let ghost before = flows_view(flows@);
        match parse_flow_entry(&entries[i]) {
            Some(f) => {
                flows.push(f);
                assert(flows_view(flows@) =~= before.push(flows_view(flows@).last()));
            },
            None => {
                assert(flows_view(flows@) =~= before + Seq::<(Seq<char>, Seq<char>)>::empty());
            },
        }
        i += 1;
    }
    assert(entries@.take(entries@.len() as int) =~= entries@);
    flows
}

/// The app pack info of a decoded manifest, or why it names no pack:
/// `pack_path_text` is how the pack's path is shown in the message.
pub fn app_pack_info_from_manifest(value: &CborItem, pack_path_text: &str) -> (r: Result<
    AppPackInfo,
    String,
>)
    ensures
        match r {
            Ok(info) => text_or_symbol(*value, "pack_id"@, "pack_ids"@) == Some(info.pack_id@)
                && flows_view(info.flows@) == manifest_flows(*value),
            Err(e) => text_or_symbol(*value, "pack_id"@, "pack_ids"@) is None && e@
                == "pack manifest missing pack id in "@ + pack_path_text@,
        },
{
    let pack_id = match extract_text_or_symbol(value, "pack_id", "pack_ids") {
        Some(id) => id,
        None => {
            return Err(concat("pack manifest missing pack id in ", pack_path_text));
        },
    };
    let flows = extract_flows(value);
    Ok(AppPackInfo { pack_id, flows })
}

/// The app pack info of a pack's `manifest.cbor` bytes: the decoder's own
/// error when the bytes are not CBOR, else what the decoded manifest gives.
pub fn app_pack_info_from_manifest_bytes(manifest: &[u8], pack_path_text: &str) -> (r: Result<
    AppPackInfo,
    String,
>)
    ensures
        match cbor_decoded(manifest@) {
            None => r is Err,
            Some(v) => match r {
                Ok(info) => text_or_symbol(v, "pack_id"@, "pack_ids"@) == Some(info.pack_id@)
                    && flows_view(info.flows@) == manifest_flows(v),
                Err(e) => text_or_symbol(v, "pack_id"@, "pack_ids"@) is None && e@
                    == "pack manifest missing pack id in "@ + pack_path_text@,
            },
        },
{
    match decode_cbor(manifest) {
        Ok(value) => app_pack_info_from_manifest(&value, pack_path_text),
        Err(e) => Err(e),
    }
}

// ---------------------------------------------------------------------------
// What an app flow run produced
// ---------------------------------------------------------------------------

/// The outputs a transcript line records, when it parsed and they are not `null`.
pub open spec fn line_outputs(line: Option<JsonItem>) -> Option<JsonItem> {
    match line {
        Some(v) => match get(v, "outputs"@) {
            Some(o) => if o is Null {
                None
            } else {
                Some(o)
            },
            None => None,
        },
        None => None,
    }
}

/// The line was written by node `target`.
pub open spec fn line_node_is(line: Option<JsonItem>, target: Seq<char>) -> bool {
    line matches Some(v) && (get(v, "node_id"@) matches Some(JsonItem::Str(n)) && n@ == target)
}

/// The outputs of the first line among the first `n` that has some.
pub open spec fn first_outputs(lines: Seq<Option<JsonItem>>, n: int) -> Option<JsonItem>
    decreases n,
{
    if n <= 0 {
        None
    } else {
        match first_outputs(lines, n - 1) {
            Some(o) => Some(o),
            None => line_outputs(lines[n - 1]),
        }
    }
}

/// The outputs of the last line among the first `n` that has some.
pub open spec fn last_outputs(lines: Seq<Option<JsonItem>>, n: int) -> Option<JsonItem>
    decreases n,
{
    if n <= 0 {
        None
    } else {
        match line_outputs(lines[n - 1]) {
            Some(o) => Some(o),
            None => last_outputs(lines, n - 1),
        }
    }
}

/// The outputs of the last line among the first `n` that has some and was
/// written by node `target`.
pub open spec fn targeted_outputs(lines: Seq<Option<JsonItem>>, n: int, target: Seq<char>) -> Option<
    JsonItem,
>
    decreases n,
{
    if n <= 0 {
        None
    } else if line_outputs(lines[n - 1]) is Some && line_node_is(lines[n - 1], target) {
        line_outputs(lines[n - 1])
    } else {
        targeted_outputs(lines, n - 1, target)
    }
}

pub open spec fn deref_opt(r: Option<&JsonItem>) -> Option<JsonItem> {
    match r {
        Some(x) => Some(*x),
        None => None,
    }
}

fn outputs_of(line: &Option<JsonItem>) -> (r: Option<&JsonItem>)
    ensures
        deref_opt(r) == line_outputs(*line),
{
    match line {
        Some(v) => match get_member(v, "outputs") {
            Some(o) => match o {
                JsonItem::Null => None,
                _ => Some(o),
            },
            None => None,
        },
        None => None,
    }
}

/// The outputs an app flow's transcript yields, its lines parsed (`None`
/// for a line that is not JSON): those of the last line written by the
/// targeted card node, else those of the first line with outputs.
pub fn transcript_outputs<'a>(lines: &'a Vec<Option<JsonItem>>, target_node_id: Option<&str>) -> (r:
    Option<&'a JsonItem>)
    ensures
        deref_opt(r) == match target_node_id {
            Some(t) => match targeted_outputs(lines@, lines@.len() as int, t@) {
                Some(o) => Some(o),
                None => first_outputs(lines@, lines@.len() as int),
            },
            None => first_outputs(lines@, lines@.len() as int),
        },
{
    let mut first: Option<&JsonItem> = None;
    let mut targeted: Option<&JsonItem> = None;
    let mut i: usize = 0;
    while i < lines.len()
        invariant
            i <= lines@.len(),
            deref_opt(first) == first_outputs(lines@, i as int),
            match target_node_id {
                Some(t) => deref_opt(targeted) == targeted_outputs(lines@, i as int, t@),
                None => targeted is None,
            },
        decreases lines@.len() - i,
    {
        let o = outputs_of(&lines[i]);
        if o.is_some() {
            if first.is_none() {
                first = o;
            }
            match target_node_id {
                Some(t) => {
                    let is_target = match &lines[i] {
                        Some(v) => match get_member(v, "node_id") {
                            Some(JsonItem::Str(n)) => crate::text::text_eq(n.as_str(), t),
                            _ => false,
                        },
                        None => false,
                    };
                    if is_target {
                        targeted = o;
                    }
                },
                None => {},
            }
        }
        i += 1;
    }
    match targeted {
        Some(x) => Some(x),
        None => first,
    }
}

/// The outputs of the last transcript line that has some.
pub fn last_transcript_outputs(lines: &Vec<Option<JsonItem>>) -> (r: Option<&JsonItem>)
    ensures
        deref_opt(r) == last_outputs(lines@, lines@.len() as int),
{
    let mut last: Option<&JsonItem> = None;
    let mut i: usize = 0;
    while i < lines.len()
        invariant
            i <= lines@.len(),
            deref_opt(last) == last_outputs(lines@, i as int),
        decreases lines@.len() - i,
    {
        let o = outputs_of(&lines[i]);
        if o.is_some() {
            last = o;
        }
        i += 1;
    }
    last
}

/// What an app flow's output is to become.
#[derive(Debug, PartialEq)]
pub enum AppFlowOutput<'a> {
    /// A list of channel envelopes (the output, or its `events`).
    Envelopes(&'a Vec<JsonItem>),
    /// One channel envelope (its `message`).
    Message(&'a JsonItem),
    /// An adaptive card to reply with, titled by its first body text.
    Card { title: String, card: &'a JsonItem },
    /// A text to reply with.
    Text(String),
}

pub open spec fn as_text(j: Option<JsonItem>) -> Option<Seq<char>> {
    match j {
        Some(JsonItem::Str(s)) => Some(s@),
        _ => None,
    }
}

/// The title of a rendered card: the text of its first body element.
pub open spec fn card_title(card: JsonItem) -> Seq<char> {
    match get(card, "body"@) {
        Some(JsonItem::Array(items)) => if items@.len() > 0 {
            match as_text(get(items@[0], "text"@)) {
                Some(t) => t,
                None => "Adaptive Card"@,
            }
        } else {
            "Adaptive Card"@
        },
        _ => "Adaptive Card"@,
    }
}

/// The reply text of an output: its payload's `text`, its own `text`, or
/// the output itself when it is a string.
pub open spec fn reply_text(value: JsonItem) -> Option<Seq<char>> {
    match get(value, "payload"@) {
        Some(p) if as_text(get(p, "text"@)) is Some => as_text(get(p, "text"@)),
        _ => match as_text(get(value, "text"@)) {
            Some(t) => Some(t),
            None => as_text(Some(value)),
        },
    }
}

/// Reads an app flow's output: an array or an `events` array is a list of
/// envelopes, a `message` is one envelope, a non-null `renderedCard` is a
/// card reply, and a text (payload text, text, or a string) is a text
/// reply; anything else did not produce envelopes.
pub fn classify_app_output(value: &JsonItem) -> (r: Result<AppFlowOutput<'_>, String>)
    ensures
        match r {
            Ok(AppFlowOutput::Envelopes(items)) => *value == JsonItem::Array(*items) || (!(value is Array)
                && get(*value, "events"@) == Some(JsonItem::Array(*items))),
            Ok(AppFlowOutput::Message(m)) => !(value is Array) && !(get(*value, "events"@) matches Some(
                JsonItem::Array(_),
            )) && get(*value, "message"@) == Some(*m),
            Ok(AppFlowOutput::Card { title, card }) => !(value is Array) && !(get(*value, "events"@) matches Some(
                JsonItem::Array(_),
            )) && get(*value, "message"@) is None && get(*value, "renderedCard"@) == Some(*card)
                && !(card is Null) && title@ == card_title(*card),
            Ok(AppFlowOutput::Text(t)) => !(value is Array) && !(get(*value, "events"@) matches Some(
                JsonItem::Array(_),
            )) && get(*value, "message"@) is None && !(get(*value, "renderedCard"@) matches Some(c)
                && !(c is Null)) && reply_text(*value) == Some(t@),
            Err(e) => !(value is Array) && !(get(*value, "events"@) matches Some(JsonItem::Array(_)))
                && get(*value, "message"@) is None && !(get(*value, "renderedCard"@) matches Some(c)
                && !(c is Null)) && reply_text(*value) is None && e@
                == "app flow output did not produce envelope(s)"@,
        },
{
    if let JsonItem::Array(items) = value {
        return Ok(AppFlowOutput::Envelopes(items));
    }
    if let Some(JsonItem::Array(events)) = get_member(value, "events") {
        return Ok(AppFlowOutput::Envelopes(events));
    }
    if let Some(m) = get_member(value, "message") {
        return Ok(AppFlowOutput::Message(m));
    }
    match get_member(value, "renderedCard") {
        Some(card) => match card {
            JsonItem::Null => {},
            _ => {
                let title = match get_member(card, "body") {
                    Some(JsonItem::Array(items)) => if items.len() > 0 {
                        match get_member(&items[0], "text") {
                            Some(JsonItem::Str(t)) => t.clone(),
                            _ => text("Adaptive Card"),
                        }
                    } else {
                        text("Adaptive Card")
                    },
                    _ => text("Adaptive Card"),
                };
                return Ok(AppFlowOutput::Card { title, card });
            },
        },
        None => {},
    }
    let payload_text = match get_member(value, "payload") {
        Some(p) => match get_member(p, "text") {
            Some(JsonItem::Str(t)) => Some(t),
            _ => None,
        },
        None => None,
    };
    if let Some(t) = payload_text {
        return Ok(AppFlowOutput::Text(t.clone()));
    }
    if let Some(JsonItem::Str(t)) = get_member(value, "text") {
        return Ok(AppFlowOutput::Text(t.clone()));
    }
    if let JsonItem::Str(t) = value {
        return Ok(AppFlowOutput::Text(t.clone()));
    }
    Err(text("app flow output did not produce envelope(s)"))
}

} // verus!
