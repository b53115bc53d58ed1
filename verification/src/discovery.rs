//! Which provider packs a bundle holds, and under which ids.
//!
//! Reading directories and pack archives is left to the caller; this module
//! takes what was found and decides the provider ids, their order and the
//! domains present. Pack ids are read from a manifest's CBOR value, where an
//! id may be written directly or as an index into a symbol table.
use vstd::prelude::*;

use crate::domains::{domain_label, domain_name, Domain};
use crate::sorting::{sort_by_key, sorted_by_key, stably_sorted_from, SortKey};
use crate::state_layout::{join_path, path_join};
use crate::static_routes::opt_view;
use crate::text::{
    chars_of, decimal, decimal_text, extend_chars, lemma_text_lt_irrefl_pair, lemma_text_lt_total,
    lemma_text_lt_trans, order_texts, pieces, slice_chars, split_pieces, string_of, text,
    text_eq, text_lt, texts_of, TextOrder,
};

verus! {

// ---------------------------------------------------------------------------
// Manifest values
// ---------------------------------------------------------------------------

/// A CBOR value as far as pack id discovery looks into it.
pub enum CborItem {
    Text(String),
    Integer(i128),
    Array(Vec<CborItem>),
    /// A map's entries, in the map's order.
    Entries(Vec<(CborItem, CborItem)>),
    Other,
}

/// The value of the first entry whose key is the text `key`.
pub open spec fn entry_value(entries: Seq<(CborItem, CborItem)>, key: Seq<char>) -> Option<CborItem>
    decreases entries.len(),
{
    if entries.len() == 0 {
        None
    } else if entries[0].0 matches CborItem::Text(k) && k@ == key {
        Some(entries[0].1)
    } else {
        entry_value(entries.drop_first(), key)
    }
}

/// Looks up a text key among a map's entries.
pub fn map_get<'a>(entries: &'a Vec<(CborItem, CborItem)>, key: &str) -> (r: Option<&'a CborItem>)
    ensures
        match r {
            Some(v) => entry_value(entries@, key@) == Some(*v),
            None => entry_value(entries@, key@) is None,
        },
{
    let mut i: usize = 0;
    assert(entries@.skip(0) =~= entries@);
    while i < entries.len()
        invariant
            i <= entries@.len(),
            entry_value(entries@, key@) == entry_value(entries@.skip(i as int), key@),
        decreases entries@.len() - i,
    {
        assert(entries@.skip(i as int)[0] == entries@[i as int]);
        assert(entries@.skip(i as int).drop_first() =~= entries@.skip(i + 1));
        let hit = match &entries[i].0 {
            CborItem::Text(k) => text_eq(k.as_str(), key),
            _ => false,
        };
        if hit {
            return Some(&entries[i].1);
        }
        i += 1;
    }
    None
}

/// `s` without one trailing `s`, if it has one.
pub open spec fn singular(s: Seq<char>) -> Seq<char> {
    if s.len() > 0 && s.last() == 's' {
        s.drop_last()
    } else {
        s
    }
}

/// An integer as `Display` writes it.
pub open spec fn integer_text(n: int) -> Seq<char> {
    if n < 0 {
        "-"@ + decimal((-n) as nat)
    } else {
        decimal(n as nat)
    }
}

/// An index as a `usize`: itself when it fits, else the largest `usize`.
pub open spec fn index_as_usize(n: int) -> int {
    if 0 <= n <= usize::MAX {
        n
    } else {
        usize::MAX as int
    }
}

/// The symbol table under `key`, or under `key` without its plural `s`.
pub open spec fn symbol_array(symbols: Seq<(CborItem, CborItem)>, key: Seq<char>) -> Option<
    CborItem,
> {
    match entry_value(symbols, key) {
        Some(v) => Some(v),
        None => entry_value(symbols, singular(key)),
    }
}

/// The text a value stands for: a text is itself; an integer is the text at
/// that index of the symbol table when there is one, else the integer's
/// digits; anything else stands for nothing.
pub open spec fn resolved_symbol(
    value: CborItem,
    symbols: Option<Seq<(CborItem, CborItem)>>,
    symbol_key: Seq<char>,
) -> Option<Seq<char>> {
    match value {
        CborItem::Text(t) => Some(t@),
        CborItem::Integer(idx) => match symbols {
            None => Some(integer_text(idx as int)),
            Some(table) => match symbol_array(table, symbol_key) {
                Some(CborItem::Array(values)) => {
                    let u = index_as_usize(idx as int);
                    if u < values@.len() {
                        match values@[u] {
                            CborItem::Text(t) => Some(t@),
                            _ => Some(decimal(u as nat)),
                        }
                    } else {
                        Some(decimal(u as nat))
                    }
                },
                _ => Some(integer_text(idx as int)),
            },
        },
        _ => None,
    }
}

fn integer_text_exec(n: i128) -> (r: String)
    ensures
        r@ == integer_text(n as int),
{
    if n < 0 {
        let m: u128 = if n == i128::MIN {
            (i128::MAX as u128) + 1
        } else {
            (-n) as u128
        };
        let mut v = chars_of("-");
        let d = decimal_text(m);
        let ghost before = v@;
        let mut k: usize = 0;
        while k < d.len()
            invariant
                k <= d@.len(),
                v@ == before + d@.take(k as int),
            decreases d@.len() - k,
        {
            v.push(d[k]);
            k += 1;
            assert(v@ =~= before + d@.take(k as int));
        }
        assert(d@.take(d@.len() as int) =~= d@);
        string_of(v.as_slice())
    } else {
        let d = decimal_text(n as u128);
        string_of(d.as_slice())
    }
}

/// `s` without a trailing `s`.
fn singular_text(s: &str) -> (r: String)
    ensures
        r@ == singular(s@),
{
    let v = chars_of(s);
    if v.len() > 0 && v[v.len() - 1] == 's' {
        let w = slice_chars(v.as_slice(), 0, v.len() - 1);
        assert(w@ =~= s@.drop_last());
        string_of(w.as_slice())
    } else {
        string_of(v.as_slice())
    }
}

/// Resolves a manifest value to the text it stands for.
pub fn resolve_string_symbol(
    value: &CborItem,
    symbols: Option<&Vec<(CborItem, CborItem)>>,
    symbol_key: &str,
) -> (r: Option<String>)
    ensures
        opt_view(r) == resolved_symbol(
            *value,
            match symbols {
                Some(t) => Some(t@),
                None => None,
            },
            symbol_key@,
        ),
{
    match value {
        CborItem::Text(t) => Some(t.clone()),
        CborItem::Integer(idx) => {
            let table = match symbols {
                None => {
                    return Some(integer_text_exec(*idx));
                },
                Some(t) => t,
            };
            let first = map_get(table, symbol_key);
            let found = match first {
                Some(v) => Some(v),
                None => {
                    let s = singular_text(symbol_key);
                    map_get(table, s.as_str())
                },
            };
            match found {
                Some(CborItem::Array(values)) => {
                    let u: usize = if 0 <= *idx && *idx <= usize::MAX as i128 {
                        *idx as usize
                    } else {
                        usize::MAX
                    };
                    if u < values.len() {
                        match &values[u] {
                            CborItem::Text(t) => {
                                return Some(t.clone());
                            },
                            _ => {},
                        }
                    }
                    let d = decimal_text(u as u128);
                    Some(string_of(d.as_slice()))
                },
                _ => Some(integer_text_exec(*idx)),
            }
        },
        _ => None,
    }
}

/// The pack id a CBOR manifest declares: its `pack_id`, else the `pack_id`
/// of its `meta` map, each resolved through the `symbols` map's `pack_ids`
/// table.
pub open spec fn manifest_pack_id(value: CborItem) -> Option<Seq<char>> {
    match value {
        CborItem::Entries(map) => {
            let symbols = match entry_value(map@, "symbols"@) {
                Some(CborItem::Entries(s)) => Some(s@),
                _ => None,
            };
            let direct = match entry_value(map@, "pack_id"@) {
                Some(v) => resolved_symbol(v, symbols, "pack_ids"@),
                None => None,
            };
            if direct is Some {
                direct
            } else {
                match entry_value(map@, "meta"@) {
                    Some(CborItem::Entries(meta)) => match entry_value(meta@, "pack_id"@) {
                        Some(v) => resolved_symbol(v, symbols, "pack_ids"@),
                        None => None,
                    },
                    _ => None,
                }
            }
        },
        _ => None,
    }
}

/// Reads the pack id from a decoded CBOR manifest.
pub fn extract_pack_id_from_value(value: &CborItem) -> (r: Option<String>)
    ensures
        opt_view(r) == manifest_pack_id(*value),
{
    let map = match value {
        CborItem::Entries(m) => m,
        _ => {
            return None;
        },
    };
    let symbols = match map_get(map, "symbols") {
        Some(CborItem::Entries(s)) => Some(s),
        _ => None,
    };
    match map_get(map, "pack_id") {
        Some(v) => {
            let r = resolve_string_symbol(v, symbols, "pack_ids");
            if r.is_some() {
                return r;
            }
        },
        None => {},
    }
    match map_get(map, "meta") {
        Some(CborItem::Entries(meta)) => match map_get(meta, "pack_id") {
            Some(v) => resolve_string_symbol(v, symbols, "pack_ids"),
            None => None,
        },
        _ => None,
    }
}

/// `serde_cbor::Value`, a decoded CBOR value; the library only carries it
/// from the decoder to `cbor_item_of`.
#[verifier::external_type_specification]
#[verifier::external_body]
pub struct ExCborValue(serde_cbor::Value);

/// What `serde_cbor::from_slice::<serde_cbor::Value>` decodes `bytes` to,
/// each value then taken variant for variant into a `CborItem` (maps in
/// the decoded map's key order); nothing when the bytes are not CBOR.
pub uninterp spec fn cbor_decoded(bytes: Seq<u8>) -> Option<CborItem>;

/// `serde_cbor::Value` taken into a `CborItem`: text, integer, array and
/// map variant for variant, anything else as `Other`. Part of `decode_cbor`.
#[verifier::external_body]
fn cbor_item_of(value: serde_cbor::Value) -> CborItem {
    match value {
        serde_cbor::Value::Text(t) => CborItem::Text(t),
        serde_cbor::Value::Integer(i) => CborItem::Integer(i),
        serde_cbor::Value::Array(items) => CborItem::Array(items.into_iter().map(cbor_item_of).collect()),
        serde_cbor::Value::Map(m) => CborItem::Entries(
            m.into_iter().map(|(k, v)| (cbor_item_of(k), cbor_item_of(v))).collect(),
        ),
        _ => CborItem::Other,
    }
}

/// `serde_cbor::from_slice::<serde_cbor::Value>`, the value taken into a
/// `CborItem`; the decoder's error as text. The result is the name
/// `cbor_decoded` of the bytes: a function of the bytes alone.
#[verifier::external_body]
pub(crate) fn decode_cbor(bytes: &[u8]) -> (r: Result<CborItem, String>)
    ensures
        match r {
            Ok(v) => cbor_decoded(bytes@) == Some(v),
            Err(_) => cbor_decoded(bytes@) is None,
        },
{
    match serde_cbor::from_slice::<serde_cbor::Value>(bytes) {
        Ok(v) => Ok(cbor_item_of(v)),
        Err(e) => Err(e.to_string()),
    }
}

/// The pack id a decoded CBOR manifest gives, if the bytes decode.
pub open spec fn cbor_manifest_pack_id(bytes: Seq<u8>) -> Option<Seq<char>> {
    match cbor_decoded(bytes) {
        Some(v) => manifest_pack_id(v),
        None => None,
    }
}

/// The parts of a manifest that name its pack.
pub struct PackManifestForDiscovery {
    pub meta: Option<PackMetaForDiscovery>,
    pub pack_id: Option<String>,
}

pub struct PackMetaForDiscovery {
    pub pack_id: String,
}

/// The pack id a manifest names: its meta's, else its own.
pub fn extract_pack_id(parsed: PackManifestForDiscovery) -> (r: Option<String>)
    ensures
        opt_view(r) == match parsed.meta {
            Some(m) => Some(m.pack_id@),
            None => opt_view(parsed.pack_id),
        },
{
    if let Some(meta) = parsed.meta {
        return Some(meta.pack_id);
    }
    parsed.pack_id
}

/// The pack id of a pack file for discovery, from its archive's
/// `manifest.cbor` bytes (`cbor`, when it has that entry) and its JSON
/// manifest (`json`, when it has one and it parsed):
/// - CBOR bytes that do not decode are an error naming the file;
/// - the pack id the CBOR manifest gives, when it gives one;
/// - otherwise, when only CBOR manifests are accepted, the missing-CBOR
///   error for `path`;
/// - otherwise the pack id of the JSON manifest, or none without one.
pub fn manifest_pack_id_for_discovery(
    cbor: Option<&[u8]>,
    json: Option<PackManifestForDiscovery>,
    cbor_only: bool,
    path: &str,
) -> (r: Result<Option<String>, String>)
    ensures
        match cbor {
            Some(b) if cbor_decoded(b@) is None => r matches Err(e) && exists|t: Seq<char>|
                e@ == "failed to decode manifest.cbor in "@ + path@ + ": "@ + t,
            _ => {
                let from_cbor = match cbor {
                    Some(b) => cbor_manifest_pack_id(b@),
                    None => None,
                };
                match from_cbor {
                    Some(id) => r matches Ok(Some(x)) && x@ == id,
                    None => if cbor_only {
                        r matches Err(e) && e@ == missing_cbor_message(path@)
                    } else {
                        match json {
                            Some(m) => r matches Ok(x) && opt_view(x) == match m.meta {
                                Some(mm) => Some(mm.pack_id@),
                                None => opt_view(m.pack_id),
                            },
                            None => r == Ok::<Option<String>, String>(None),
                        }
                    },
                }
            },
        },
{
    if let Some(b) = cbor {
        match decode_cbor(b) {
            Err(err) => {
                let mut m = chars_of("failed to decode manifest.cbor in ");
                extend_chars(&mut m, path);
                extend_chars(&mut m, ": ");
                extend_chars(&mut m, err.as_str());
                assert(m@ == "failed to decode manifest.cbor in "@ + path@ + ": "@ + err@);
                return Err(string_of(m.as_slice()));
            },
            Ok(v) => {
                if let Some(id) = extract_pack_id_from_value(&v) {
                    return Ok(Some(id));
                }
            },
        }
    }
    if cbor_only {
        return Err(missing_cbor_error(path));
    }
    match json {
        Some(m) => Ok(extract_pack_id(m)),
        None => Ok(None),
    }
}

// ---------------------------------------------------------------------------
// Paths of packs
// ---------------------------------------------------------------------------

/// Component-wise order of paths, each component in text order, a path
/// before any path it is a prefix of (the order of `Path`).
pub open spec fn components_le(a: Seq<Seq<char>>, b: Seq<Seq<char>>) -> bool
    decreases a.len(),
{
    if a.len() == 0 {
        true
    } else if b.len() == 0 {
        false
    } else if a[0] != b[0] {
        text_lt(a[0], b[0])
    } else {
        components_le(a.drop_first(), b.drop_first())
    }
}

pub proof fn lemma_components_total(a: Seq<Seq<char>>, b: Seq<Seq<char>>)
    ensures
        components_le(a, b) || components_le(b, a),
    decreases a.len(),
{
    if a.len() > 0 && b.len() > 0 {
        if a[0] == b[0] {
            lemma_components_total(a.drop_first(), b.drop_first());
        } else {
            lemma_text_lt_total(a[0], b[0]);
        }
    }
}

pub proof fn lemma_components_trans(a: Seq<Seq<char>>, b: Seq<Seq<char>>, c: Seq<Seq<char>>)
    requires
        components_le(a, b),
        components_le(b, c),
    ensures
        components_le(a, c),
    decreases a.len(),
{
    if a.len() > 0 && b.len() > 0 && c.len() > 0 {
        if a[0] == b[0] && b[0] == c[0] {
            lemma_components_trans(a.drop_first(), b.drop_first(), c.drop_first());
        } else if a[0] != b[0] && b[0] != c[0] {
            lemma_text_lt_trans(a[0], b[0], c[0]);
            if a[0] == c[0] {
                lemma_text_lt_irrefl_pair(a[0], b[0]);
            }
        }
    }
}

/// The last index of `.` in `name`, or -1.
pub open spec fn last_dot(name: Seq<char>) -> int
    decreases name.len(),
{
    if name.len() == 0 {
        -1
    } else if name.last() == '.' {
        name.len() - 1
    } else {
        last_dot(name.drop_last())
    }
}

proof fn lemma_last_dot_bound(name: Seq<char>)
    ensures
        -1 <= last_dot(name) < name.len(),
        last_dot(name) >= 0 ==> name[last_dot(name)] == '.',
    decreases name.len(),
{
    if name.len() > 0 && name.last() != '.' {
        lemma_last_dot_bound(name.drop_last());
    }
}

pub open spec fn not_cur() -> spec_fn(Seq<char>) -> bool {
    |p: Seq<char>| p != "."@
}

/// The last component of a path, `None` for a path that ends in `..` or has none.
pub open spec fn file_name(path: Seq<char>) -> Option<Seq<char>> {
    let ps = pieces(path, '/').filter(not_cur());
    if ps.len() == 0 || ps.last() == ".."@ {
        None
    } else {
        Some(ps.last())
    }
}

/// The file name without its final extension, as `Path::file_stem` gives it.
pub open spec fn file_stem(path: Seq<char>) -> Option<Seq<char>> {
    match file_name(path) {
        None => None,
        Some(n) => if last_dot(n) <= 0 {
            Some(n)
        } else {
            Some(n.take(last_dot(n)))
        },
    }
}

/// The final extension of the file name, as `Path::extension` gives it.
pub open spec fn file_extension(path: Seq<char>) -> Option<Seq<char>> {
    match file_name(path) {
        None => None,
        Some(n) => if last_dot(n) <= 0 {
            None
        } else {
            Some(n.skip(last_dot(n) + 1))
        },
    }
}

/// The last component of a path.
pub fn path_file_name(path: &str) -> (r: Option<String>)
    ensures
        opt_view(r) == file_name(path@),
{
    proof {
        reveal_strlit(".");
        reveal_strlit("..");
    }
    let parts = split_pieces(path, '/');
    let ghost ps = texts_of(parts@);
    let ghost f = not_cur();
    let mut last: Option<usize> = None;
    let mut i: usize = 0;
    proof {
        crate::seqs::lemma_filter_empty(f);
        assert(ps.take(0) =~= Seq::<Seq<char>>::empty());
    }
    while i < parts.len()
        invariant
            i <= parts@.len(),
            ps == texts_of(parts@),
            ps == pieces(path@, '/'),
            f == not_cur(),
            match last {
                None => ps.take(i as int).filter(f).len() == 0,
                Some(k) => k < i && ps.take(i as int).filter(f).len() > 0 && ps.take(
                    i as int,
                ).filter(f).last() == ps[k as int],
            },
        decreases parts@.len() - i,
    {
        proof {
            crate::seqs::lemma_filter_step(ps, f, i as int);
        }
        assert(parts@[i as int]@ == ps[i as int]);
        if !text_eq(parts[i].as_str(), ".") {
            last = Some(i);
        }
        i += 1;
    }
    proof {
        crate::seqs::lemma_take_all(ps);
    }
    match last {
        None => None,
        Some(k) => {
            if text_eq(parts[k].as_str(), "..") {
                None
            } else {
                Some(parts[k].clone())
            }
        },
    }
}

fn last_dot_index(name: &Vec<char>) -> (r: Option<usize>)
    ensures
        match r {
            None => last_dot(name@) == -1,
            Some(k) => last_dot(name@) == k as int,
        },
{
    let mut i: usize = name.len();
    assert(name@.take(name@.len() as int) =~= name@);
    while i > 0
        invariant
            i <= name@.len(),
            last_dot(name@) == last_dot(name@.take(i as int)),
        decreases i,
    {
        assert(name@.take(i as int).last() == name@[i - 1]);
        if name[i - 1] == '.' {
            return Some(i - 1);
        }
        assert(name@.take(i as int).drop_last() =~= name@.take(i - 1));
        i -= 1;
    }
    None
}

/// The stem of a path's file name.
pub fn path_file_stem(path: &str) -> (r: Option<String>)
    ensures
        opt_view(r) == file_stem(path@),
{
    match path_file_name(path) {
        None => None,
        Some(n) => {
            let v = chars_of(n.as_str());
            proof {
                lemma_last_dot_bound(v@);
            }
            match last_dot_index(&v) {
                Some(k) => if k == 0 {
                    Some(n)
                } else {
                    let w = slice_chars(v.as_slice(), 0, k);
                    assert(w@ =~= n@.take(k as int));
                    Some(string_of(w.as_slice()))
                },
                None => Some(n),
            }
        },
    }
}

/// The final extension of a path's file name.
pub fn path_extension(path: &str) -> (r: Option<String>)
    ensures
        opt_view(r) == file_extension(path@),
{
    match path_file_name(path) {
        None => None,
        Some(n) => {
            let v = chars_of(n.as_str());
            proof {
                lemma_last_dot_bound(v@);
            }
            match last_dot_index(&v) {
                Some(k) => if k == 0 {
                    None
                } else {
                    assert(k < v@.len());
                    let w = slice_chars(v.as_slice(), k + 1, v.len());
                    assert(w@ =~= n@.skip(k + 1));
                    Some(string_of(w.as_slice()))
                },
                None => None,
            }
        },
    }
}

// ---------------------------------------------------------------------------
// Discovery results
// ---------------------------------------------------------------------------

/// Where a provider's id came from.
#[derive(Clone, Copy, Debug, PartialEq, Eq, Structural)]
pub enum ProviderIdSource {
    Manifest,
    Filename,
}

/// A provider pack found in a bundle.
#[derive(Debug, PartialEq, Eq)]
pub struct DetectedProvider {
    pub provider_id: String,
    pub domain: String,
    pub pack_path: String,
    pub id_source: ProviderIdSource,
}

pub struct DetectedProviderView {
    pub provider_id: Seq<char>,
    pub domain: Seq<char>,
    pub pack_path: Seq<char>,
    pub id_source: ProviderIdSource,
}

impl View for DetectedProvider {
    type V = DetectedProviderView;

    open spec fn view(&self) -> DetectedProviderView {
        DetectedProviderView {
            provider_id: self.provider_id@,
            domain: self.domain@,
            pack_path: self.pack_path@,
            id_source: self.id_source,
        }
    }
}

pub open spec fn providers_view(s: Seq<DetectedProvider>) -> Seq<DetectedProviderView> {
    s.map_values(|p: DetectedProvider| p@)
}

/// The domains a bundle has provider packs for.
#[derive(Clone, Copy, Debug, PartialEq, Eq, Structural)]
pub struct DetectedDomains {
    pub messaging: bool,
    pub events: bool,
    pub oauth: bool,
}

/// The provider packs of a bundle and the domains they cover.
#[derive(Debug, PartialEq, Eq)]
pub struct DiscoveryResult {
    pub domains: DetectedDomains,
    pub providers: Vec<DetectedProvider>,
}

/// How discovery reads manifests.
#[derive(Clone, Copy, Debug, Default, PartialEq, Eq, Structural)]
pub struct DiscoveryOptions {
    pub cbor_only: bool,
}

/// A regular file found in a domain's providers directory, with the pack id
/// its manifest declares, if it has one.
pub struct FoundPackFile {
    pub domain: Domain,
    pub path: String,
    pub manifest_pack_id: Option<String>,
}

pub struct FoundView {
    pub domain: Domain,
    pub path: Seq<char>,
    pub manifest_pack_id: Option<Seq<char>>,
}

impl View for FoundPackFile {
    type V = FoundView;

    open spec fn view(&self) -> FoundView {
        FoundView {
            domain: self.domain,
            path: self.path@,
            manifest_pack_id: opt_view(self.manifest_pack_id),
        }
    }
}

pub open spec fn found_view(s: Seq<FoundPackFile>) -> Seq<FoundView> {
    s.map_values(|f: FoundPackFile| f@)
}

pub open spec fn is_pack_file() -> spec_fn(FoundView) -> bool {
    |f: FoundView| file_extension(f.path) == Some("gtpack"@)
}

/// The provider a pack file stands for: its manifest's pack id, else its
/// file stem.
pub open spec fn provider_of(f: FoundView) -> DetectedProviderView {
    DetectedProviderView {
        provider_id: match f.manifest_pack_id {
            Some(id) => id,
            None => match file_stem(f.path) {
                Some(s) => s,
                None => Seq::empty(),
            },
        },
        domain: domain_label(f.domain),
        pack_path: f.path,
        id_source: if f.manifest_pack_id is Some {
            ProviderIdSource::Manifest
        } else {
            ProviderIdSource::Filename
        },
    }
}

impl SortKey for DetectedProvider {
    open spec fn key_le(self, other: Self) -> bool {
        components_le(pieces(self.pack_path@, '/'), pieces(other.pack_path@, '/'))
    }

    proof fn lemma_key_le_total(a: Self, b: Self) {
        lemma_components_total(pieces(a.pack_path@, '/'), pieces(b.pack_path@, '/'));
    }

    proof fn lemma_key_le_trans(a: Self, b: Self, c: Self) {
        lemma_components_trans(
            pieces(a.pack_path@, '/'),
            pieces(b.pack_path@, '/'),
            pieces(c.pack_path@, '/'),
        );
    }

    fn key_le_exec(&self, other: &Self) -> (r: bool) {
        let a = split_pieces(self.pack_path.as_str(), '/');
        let b = split_pieces(other.pack_path.as_str(), '/');
        let ghost av = texts_of(a@);
        let ghost bv = texts_of(b@);
        let mut i: usize = 0;
        assert(av.skip(0) =~= av);
        assert(bv.skip(0) =~= bv);
        while i < a.len() && i < b.len()
            invariant
                av == texts_of(a@),
                bv == texts_of(b@),
                av == pieces(self.pack_path@, '/'),
                bv == pieces(other.pack_path@, '/'),
                i <= a@.len(),
                i <= b@.len(),
                components_le(av, bv) == components_le(av.skip(i as int), bv.skip(i as int)),
            decreases a@.len() - i,
        {
            assert(av.skip(i as int)[0] == a@[i as int]@);
            assert(bv.skip(i as int)[0] == b@[i as int]@);
            match order_texts(a[i].as_str(), b[i].as_str()) {
                TextOrder::Before => {
                    return true;
                },
                TextOrder::After => {
                    return false;
                },
                TextOrder::Same => {},
            }
            assert(av.skip(i as int).drop_first() =~= av.skip(i + 1));
            assert(bv.skip(i as int).drop_first() =~= bv.skip(i + 1));
            i += 1;
        }
        i == a.len()
    }
}

/// Providers kept in discovery order come by pack path, compared
/// component by component (the order of `Path`).
pub proof fn law_providers_in_path_order(ps: Seq<DetectedProvider>)
    requires
        sorted_by_key(ps),
    ensures
        forall|i: int, j: int|
            0 <= i < j < ps.len() ==> components_le(
                pieces(#[trigger] ps[i].pack_path@, '/'),
                pieces(#[trigger] ps[j].pack_path@, '/'),
            ),
{
    assert forall|i: int, j: int| 0 <= i < j < ps.len() implies components_le(
        pieces(#[trigger] ps[i].pack_path@, '/'),
        pieces(#[trigger] ps[j].pack_path@, '/'),
    ) by {
        assert(ps[i].key_le(ps[j]));
    }
}

fn any_in_domain(providers: &Vec<DetectedProvider>, label: &str) -> (r: bool)
    ensures
        r == exists|i: int| 0 <= i < providers@.len() && providers@[i].domain@ == label@,
{
    let mut i: usize = 0;
    while i < providers.len()
        invariant
            i <= providers@.len(),
            forall|k: int| 0 <= k < i ==> providers@[k].domain@ != label@,
        decreases providers@.len() - i,
    {
        if text_eq(providers[i].domain.as_str(), label) {
            return true;
        }
        i += 1;
    }
    false
}

/// The discovery result of the files found in a bundle's providers
/// directories: the `.gtpack` files as providers, ordered by path, and the
/// domains they cover.
pub fn discover_from_found(found: Vec<FoundPackFile>) -> (r: DiscoveryResult)
    ensures
        sorted_by_key(r.providers@),
        providers_view(r.providers@).to_multiset() == found_view(found@).filter(
            is_pack_file(),
        ).map_values(|f: FoundView| provider_of(f)).to_multiset(),
        exists|s: Seq<DetectedProvider>|
            #[trigger] providers_view(s) == found_view(found@).filter(is_pack_file()).map_values(
                |f: FoundView| provider_of(f),
            ) && stably_sorted_from(r.providers@, s),
        r.domains.messaging == exists|i: int|
            0 <= i < r.providers@.len() && r.providers@[i].domain@ == "messaging"@,
        r.domains.events == exists|i: int|
            0 <= i < r.providers@.len() && r.providers@[i].domain@ == "events"@,
        r.domains.oauth == exists|i: int|
            0 <= i < r.providers@.len() && r.providers@[i].domain@ == "oauth"@,
        forall|i: int, j: int|
            0 <= i < j < r.providers@.len() ==> components_le(
                pieces(#[trigger] r.providers@[i].pack_path@, '/'),
                pieces(#[trigger] r.providers@[j].pack_path@, '/'),
            ),
{
    proof {
        reveal_strlit("gtpack");
    }
    let ghost fv = found_view(found@);
    let ghost p = is_pack_file();
    let mut providers: Vec<DetectedProvider> = Vec::new();
    let mut i: usize = 0;
    proof {
        crate::seqs::lemma_filter_empty(p);
        assert(fv.take(0) =~= Seq::<FoundView>::empty());
        assert(providers_view(providers@) =~= fv.take(0).filter(p).map_values(
            |f: FoundView| provider_of(f),
        ));
    }
    while i < found.len()
        invariant
            i <= fv.len(),
            fv == found_view(found@),
            p == is_pack_file(),
            providers_view(providers@) == fv.take(i as int).filter(p).map_values(
                |f: FoundView| provider_of(f),
            ),
        decreases fv.len() - i,
    {
        let f = &found[i];
        assert(fv[i as int] == f@);
        proof {
            crate::seqs::lemma_filter_step(fv, p, i as int);
        }
        let is_pack = match path_extension(f.path.as_str()) {
            Some(e) => text_eq(e.as_str(), "gtpack"),
            None => false,
        };
        if is_pack {
            let (provider_id, id_source) = match &f.manifest_pack_id {
                Some(id) => (id.clone(), ProviderIdSource::Manifest),
                None => {
                    let stem = match path_file_stem(f.path.as_str()) {
                        Some(s) => s,
                        None => String::new(),
                    };
                    (stem, ProviderIdSource::Filename)
                },
            };
            let d = DetectedProvider {
                provider_id,
                domain: text(domain_name(f.domain)),
                pack_path: f.path.clone(),
                id_source,
            };
            assert(d@ == provider_of(fv[i as int]));
            let ghost before = providers@;
            providers.push(d);
            assert(providers_view(providers@) =~= providers_view(before).push(d@));
        }
        i += 1;
        assert(providers_view(providers@) =~= fv.take(i as int).filter(p).map_values(
            |f: FoundView| provider_of(f),
        ));
    }
    proof {
        crate::seqs::lemma_take_all(fv);
    }
    let ghost unsorted = providers@;
    let sorted = sort_by_key(providers);
    proof {
        crate::seqs::lemma_map_multiset(sorted@, unsorted, |x: DetectedProvider| x@);
        assert(providers_view(unsorted) == fv.filter(p).map_values(|f: FoundView| provider_of(f)));
        law_providers_in_path_order(sorted@);
    }
    let domains = DetectedDomains {
        messaging: any_in_domain(&sorted, "messaging"),
        events: any_in_domain(&sorted, "events"),
        oauth: any_in_domain(&sorted, "oauth"),
    };
    DiscoveryResult { domains, providers: sorted }
}

/// Packs must be read as CBOR only when the bundle, or the root it is read
/// from, carries the demo marker file.
pub fn bundle_cbor_only(bundle_root_has_demo_marker: bool, bundle_read_root_has_demo_marker: bool) -> (r:
    bool)
    ensures
        r == (bundle_root_has_demo_marker || bundle_read_root_has_demo_marker),
{
    bundle_root_has_demo_marker || bundle_read_root_has_demo_marker
}

/// The marker file whose presence makes a bundle a demo bundle.
pub fn demo_marker_path(root: &str) -> (r: String)
    ensures
        r@ == path_join(root@, "greentic.demo.yaml"@),
{
    join_path(root, "greentic.demo.yaml")
}

/// The files discovery is persisted to for a tenant: the detected domains,
/// then the detected providers.
pub fn persisted_discovery_paths(root: &str, tenant: &str) -> (r: (String, String))
    ensures
        ({
            let base = path_join(path_join(path_join(root@, "state"@), "runtime"@), tenant@);
            r.0@ == path_join(base, "detected_domains.json"@) && r.1@ == path_join(
                base,
                "detected_providers.json"@,
            )
        }),
{
    let a = join_path(root, "state");
    let b = join_path(a.as_str(), "runtime");
    let c = join_path(b.as_str(), tenant);
    (
        join_path(c.as_str(), "detected_domains.json"),
        join_path(c.as_str(), "detected_providers.json"),
    )
}

/// The message for a demo pack that lacks a CBOR manifest.
pub open spec fn missing_cbor_message(path: Seq<char>) -> Seq<char> {
    "ERROR: demo packs must be CBOR-only (.gtpack must contain manifest.cbor). Rebuild the pack with greentic-pack build (do not use --dev). Missing in "@
        + path
}

pub fn missing_cbor_error(path: &str) -> (r: String)
    ensures
        r@ == missing_cbor_message(path@),
{
    crate::text::concat(
        "ERROR: demo packs must be CBOR-only (.gtpack must contain manifest.cbor). Rebuild the pack with greentic-pack build (do not use --dev). Missing in ",
        path,
    )
}

} // verus!
