//! Small decisions about a bundle's setup: which tenants it declares, where
//! subscription state lives, and which flow nodes run the QA wizard.
use vstd::prelude::*;

use crate::assoc::{assoc_insert, keys_strictly_sorted, lookup};
use crate::discovery::{file_name, file_stem};
use crate::domains::{domain_from_label, domain_from_str, domain_label, domain_name, Domain};
use crate::host::JsonItem;
use crate::state_layout::{join_path, path_join};

use crate::text::{contains_text, ends_with, seq_contains_text, seq_ends_with, text_eq, text_lt, texts_of};

verus! {

// ---------------------------------------------------------------------------
// Tenants
// ---------------------------------------------------------------------------

/// The tenant directories of a bundle for a domain: `<bundle>/<domain>/tenants`,
/// then `<bundle>/tenants`.
pub fn tenant_dirs(bundle: &str, domain: Domain) -> (r: (String, String))
    ensures
        r.0@ == path_join(path_join(bundle@, domain_label(domain)), "tenants"@),
        r.1@ == path_join(bundle@, "tenants"@),
{
    let a = join_path(bundle, domain_name(domain));
    (join_path(a.as_str(), "tenants"), join_path(bundle, "tenants"))
}

/// An entry of a tenants directory.
pub struct TenantEntry {
    pub path: String,
    pub is_dir: bool,
    pub is_file: bool,
}

/// The tenant an entry names: a directory by its name, a file by its stem.
pub open spec fn entry_tenant(path: Seq<char>, is_dir: bool, is_file: bool) -> Option<Seq<char>> {
    if is_dir {
        file_name(path)
    } else if is_file {
        file_stem(path)
    } else {
        None
    }
}

/// The tenants a directory listing names, once each, in order.
pub fn read_tenants(entries: &Vec<TenantEntry>) -> (r: Vec<String>)
    ensures
        tenants_of(texts_of(r@), entries@),
{
    let mut set: Vec<(String, ())> = Vec::new();
    let mut i: usize = 0;
    while i < entries.len()
        invariant
            i <= entries@.len(),
            keys_strictly_sorted(set@),
            forall|t: Seq<char>|
                #![trigger lookup(set@, t)]
                (lookup(set@, t) is Some) <==> exists|k: int|
                    0 <= k < i && entry_tenant(
                        entries@[k].path@,
                        entries@[k].is_dir,
                        entries@[k].is_file,
                    ) == Some(t),
        decreases entries@.len() - i,
    {
        let e = &entries[i];
        let name = if e.is_dir {
            crate::discovery::path_file_name(e.path.as_str())
        } else if e.is_file {
            crate::discovery::path_file_stem(e.path.as_str())
        } else {
            None
        };
        let ghost old_set = set@;
        match name {
            Some(n) => {
                let ghost nv = n@;
                assoc_insert(&mut set, n, ());
                proof {
                    assert forall|t: Seq<char>| #![trigger lookup(set@, t)]
                        (lookup(set@, t) is Some) <==> exists|k: int|
                            0 <= k < i + 1 && entry_tenant(
                                entries@[k].path@,
                                entries@[k].is_dir,
                                entries@[k].is_file,
                            ) == Some(t) by {
                        assert(lookup(old_set, t) is Some <==> exists|k: int|
                            0 <= k < i && entry_tenant(
                                entries@[k].path@,
                                entries@[k].is_dir,
                                entries@[k].is_file,
                            ) == Some(t));
                        if t != nv && exists|k: int|
                            0 <= k < i + 1 && entry_tenant(
                                entries@[k].path@,
                                entries@[k].is_dir,
                                entries@[k].is_file,
                            ) == Some(t) {
                            let k = choose|k: int|
                                0 <= k < i + 1 && entry_tenant(
                                    entries@[k].path@,
                                    entries@[k].is_dir,
                                    entries@[k].is_file,
                                ) == Some(t);
                            assert(k < i);
                        }
                    }
                }
            },
            None => {
                proof {
                    assert forall|t: Seq<char>| #![trigger lookup(set@, t)]
                        (lookup(set@, t) is Some) <==> exists|k: int|
                            0 <= k < i + 1 && entry_tenant(
                                entries@[k].path@,
                                entries@[k].is_dir,
                                entries@[k].is_file,
                            ) == Some(t) by {
                        if exists|k: int|
                            0 <= k < i + 1 && entry_tenant(
                                entries@[k].path@,
                                entries@[k].is_dir,
                                entries@[k].is_file,
                            ) == Some(t) {
                            let k = choose|k: int|
                                0 <= k < i + 1 && entry_tenant(
                                    entries@[k].path@,
                                    entries@[k].is_dir,
                                    entries@[k].is_file,
                                ) == Some(t);
                            assert(k < i);
                        }
                    }
                }
            },
        }
        i += 1;
    }
    let ghost sv = set@;
    let r = crate::assoc::keys_to_vec(set);
    proof {
        assert forall|t: Seq<char>| #[trigger] texts_of(r@).contains(t) <==> names_tenant(entries@, t) by {
            crate::assoc::lemma_lookup_iff_contains(sv, t);
        }
    }
    r
}

/// Some entry of a listing names tenant `t`.
pub open spec fn names_tenant(entries: Seq<TenantEntry>, t: Seq<char>) -> bool {
    exists|i: int|
        0 <= i < entries.len() && entry_tenant(entries[i].path@, entries[i].is_dir, entries[i].is_file)
            == Some(t)
}

/// `names` are the tenants a listing names, each once, in text order.
pub open spec fn tenants_of(names: Seq<Seq<char>>, entries: Seq<TenantEntry>) -> bool {
    &&& forall|i: int, j: int| 0 <= i < j < names.len() ==> text_lt(#[trigger] names[i], #[trigger] names[j])
    &&& forall|t: Seq<char>| #[trigger] names.contains(t) <==> names_tenant(entries, t)
}

/// The tenants of a bundle for a domain: those of the domain's tenants
/// directory if it exists, else those of the bundle's, else none.
pub fn discover_tenants(
    domain_listing: Option<&Vec<TenantEntry>>,
    general_listing: Option<&Vec<TenantEntry>>,
) -> (r: Vec<String>)
    ensures
        match domain_listing {
            Some(d) => tenants_of(texts_of(r@), d@),
            None => match general_listing {
                Some(g) => tenants_of(texts_of(r@), g@),
                None => r@.len() == 0,
            },
        },
{
    match domain_listing {
        Some(d) => read_tenants(d),
        None => match general_listing {
            Some(g) => read_tenants(g),
            None => Vec::new(),
        },
    }
}

// ---------------------------------------------------------------------------
// Subscriptions and QA nodes
// ---------------------------------------------------------------------------

/// Where subscription state of a bundle lives: `<bundle>/state/subscriptions`.
pub fn state_root(bundle: &str) -> (r: String)
    ensures
        r@ == path_join(path_join(bundle@, "state"@), "subscriptions"@),
{
    let a = join_path(bundle, "state");
    join_path(a.as_str(), "subscriptions")
}

/// Whether a flow node's component is a QA processor.
pub open spec fn qa_component(id: Seq<char>) -> bool {
    ||| id == "component-qa"@
    ||| id == "ai.greentic.component-qa"@
    ||| seq_ends_with(id, "/component-qa"@)
    ||| seq_contains_text(id, "qa.process"@)
}

/// Whether a node component identifier is a QA processor.
pub fn is_qa_process_node(component_id: &str) -> (r: bool)
    ensures
        r == qa_component(component_id@),
{
    text_eq(component_id, "component-qa") || text_eq(component_id, "ai.greentic.component-qa")
        || ends_with(component_id, "/component-qa") || contains_text(component_id, "qa.process")
}

// ---------------------------------------------------------------------------
// Providers input
// ---------------------------------------------------------------------------

/// The providers configured per domain by a `--setup-input` file.
#[derive(Debug, PartialEq)]
pub struct ProvidersInput {
    domain_providers: Vec<(Domain, Vec<(String, JsonItem)>)>,
}

/// `acc` with the providers of `d` set to `p`: in place when `d` is
/// already there, at the end when not.
pub open spec fn set_domain(
    acc: Seq<(Domain, Vec<(String, JsonItem)>)>,
    d: Domain,
    p: Vec<(String, JsonItem)>,
) -> Seq<(Domain, Vec<(String, JsonItem)>)> {
    if exists|i: int| 0 <= i < acc.len() && acc[i].0 == d {
        let i = choose|i: int| 0 <= i < acc.len() && acc[i].0 == d;
        acc.update(i, (d, p))
    } else {
        acc.push((d, p))
    }
}

/// Each domain occurs at most once.
pub open spec fn domains_unique(acc: Seq<(Domain, Vec<(String, JsonItem)>)>) -> bool {
    forall|i: int, j: int| 0 <= i < j < acc.len() ==> acc[i].0 != acc[j].0
}

pub open spec fn unknown_domain_message(key: Seq<char>) -> Seq<char> {
    "unknown domain '"@ + key + "' in providers input (expected messaging|events|secrets|oauth)"@
}

pub open spec fn domain_not_object_message(key: Seq<char>) -> Seq<char> {
    "providers for domain '"@ + key + "' must be an object"@
}

/// The providers of the first `n` members of a providers input, or the
/// first member's error.
pub open spec fn providers_upto(ms: Seq<(String, JsonItem)>, n: int) -> Result<
    Seq<(Domain, Vec<(String, JsonItem)>)>,
    Seq<char>,
>
    decreases n,
{
    if n <= 0 {
        Ok(Seq::empty())
    } else {
        match providers_upto(ms, n - 1) {
            Err(e) => Err(e),
            Ok(acc) => match domain_from_label(ms[n - 1].0@) {
                None => Err(unknown_domain_message(ms[n - 1].0@)),
                Some(d) => match ms[n - 1].1 {
                    JsonItem::Object(p) => Ok(set_domain(acc, d, p)),
                    _ => Err(domain_not_object_message(ms[n - 1].0@)),
                },
            },
        }
    }
}

proof fn lemma_providers_error_stays(ms: Seq<(String, JsonItem)>, k: int, m: int)
    requires
        0 <= k <= m,
        providers_upto(ms, k) is Err,
    ensures
        providers_upto(ms, m) == providers_upto(ms, k),
    decreases m - k,
{
    if m > k {
        lemma_providers_error_stays(ms, k, m - 1);
    }
}

/// What a providers input value gives: an object keyed by domain names,
/// each an object of providers; a later key naming the same domain replaces
/// an earlier one.
pub open spec fn providers_result(value: JsonItem) -> Result<
    Seq<(Domain, Vec<(String, JsonItem)>)>,
    Seq<char>,
> {
    match value {
        JsonItem::Object(ms) => providers_upto(ms@, ms@.len() as int),
        _ => Err("providers input must be an object keyed by domain names"@),
    }
}

fn set_domain_exec(acc: &mut Vec<(Domain, Vec<(String, JsonItem)>)>, d: Domain, p: Vec<(String, JsonItem)>)
    requires
        domains_unique(old(acc)@),
    ensures
        final(acc)@ == set_domain(old(acc)@, d, p),
        domains_unique(final(acc)@),
{
    let mut i: usize = 0;
    while i < acc.len()
        invariant
            i <= acc@.len(),
            acc@ == old(acc)@,
            forall|j: int| 0 <= j < i ==> acc@[j].0 != d,
        ensures
            i <= acc@.len(),
            acc@ == old(acc)@,
            forall|j: int| 0 <= j < i ==> acc@[j].0 != d,
            i < acc@.len() ==> acc@[i as int].0 == d,
        decreases acc@.len() - i,
    {
        if acc[i].0 == d {
            break;
        }
        i += 1;
    }
    if i < acc.len() {
        proof {
            let k = choose|k: int| 0 <= k < old(acc)@.len() && old(acc)@[k].0 == d;
            assert(k == i) by {
                if k != i as int {
                    assert(old(acc)@[k].0 == old(acc)@[i as int].0);
                }
            }
        }
        acc.set(i, (d, p));
    } else {
        acc.push((d, p));
    }
}

/// Reads the providers per domain from a providers input value.
pub fn parse_providers_value(value: JsonItem) -> (r: Result<
    Vec<(Domain, Vec<(String, JsonItem)>)>,
    String,
>)
    ensures
        match r {
            Ok(v) => providers_result(value) == Ok::<_, Seq<char>>(v@),
            Err(e) => providers_result(value) == Err::<Seq<(Domain, Vec<(String, JsonItem)>)>, _>(e@),
        },
{
    let members = match value {
        JsonItem::Object(ms) => ms,
        _ => {
            return Err(crate::text::text("providers input must be an object keyed by domain names"));
        },
    };
    let ghost ms = members@;
    let mut members = members;
    let mut result: Vec<(Domain, Vec<(String, JsonItem)>)> = Vec::new();
    let mut i: usize = 0;
    let n = members.len();
    assert(ms.skip(0) =~= ms);
    while members.len() > 0
        invariant
            n == ms.len(),
            i + members@.len() == n,
            members@ == ms.skip(i as int),
            providers_upto(ms, i as int) == Ok::<_, Seq<char>>(result@),
            providers_result(value) == providers_upto(ms, n as int),
            domains_unique(result@),
        decreases members@.len(),
    {
        let (key, entry) = members.remove(0);
        proof {
            assert(members@ =~= ms.skip(i + 1));
        }
        let domain = match domain_from_str(key.as_str()) {
            Some(d) => d,
            None => {
                let a = crate::text::concat("unknown domain '", key.as_str());
                proof {
                    lemma_providers_error_stays(ms, i + 1, n as int);
                }
                return Err(crate::text::concat(
                    a.as_str(),
                    "' in providers input (expected messaging|events|secrets|oauth)",
                ));
            },
        };
        let providers = match entry {
            JsonItem::Object(p) => p,
            _ => {
                let a = crate::text::concat("providers for domain '", key.as_str());
                proof {
                    lemma_providers_error_stays(ms, i + 1, n as int);
                }
                return Err(crate::text::concat(a.as_str(), "' must be an object"));
            },
        };
        set_domain_exec(&mut result, domain, providers);
        i += 1;
    }
    Ok(result)
}

impl ProvidersInput {
    /// The providers input a parsed `--setup-input` value describes.
    pub fn from_value(value: JsonItem) -> (r: Result<Self, String>)
        ensures
            match r {
                Ok(p) => providers_result(value) == Ok::<_, Seq<char>>(p.providers()),
                Err(e) => providers_result(value) == Err::<Seq<(Domain, Vec<(String, JsonItem)>)>, _>(e@),
            },
    {
        match parse_providers_value(value) {
            Ok(v) => Ok(ProvidersInput { domain_providers: v }),
            Err(e) => Err(e),
        }
    }

    pub closed spec fn providers(&self) -> Seq<(Domain, Vec<(String, JsonItem)>)> {
        self.domain_providers@
    }

    /// The providers configured for a domain.
    pub fn providers_for_domain(&self, domain: Domain) -> (r: Option<&Vec<(String, JsonItem)>>)
        ensures
            match r {
                Some(p) => exists|i: int|
                    0 <= i < self.providers().len() && self.providers()[i].0 == domain
                        && self.providers()[i].1 == *p,
                None => forall|i: int|
                    0 <= i < self.providers().len() ==> self.providers()[i].0 != domain,
            },
    {
        let mut i: usize = 0;
        while i < self.domain_providers.len()
            invariant
                i <= self.domain_providers@.len(),
                forall|j: int| 0 <= j < i ==> self.domain_providers@[j].0 != domain,
            decreases self.domain_providers@.len() - i,
        {
            if self.domain_providers[i].0 == domain {
                return Some(&self.domain_providers[i].1);
            }
            i += 1;
        }
        None
    }
}

} // verus!
