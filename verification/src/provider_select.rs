//! Which provider pack of a bundle serves a provider, and where a pack that
//! a hook dispatches to is looked for.
use vstd::prelude::*;

use crate::discovery::{file_name, path_file_name, providers_view, DetectedProvider, DetectedProviderView, DiscoveryResult};
use crate::state_layout::{join_path, path_join};
use crate::text::{chars_of, extend_chars, string_of, text, text_eq};

verus! {

/// A provider pack of a bundle: its id, file name, path and entry flows.
#[derive(Debug, PartialEq, Eq)]
pub struct ProviderPack {
    pub pack_id: String,
    pub file_name: String,
    pub path: String,
    pub entry_flows: Vec<String>,
}

/// A provider and the pack that serves it.
#[derive(Debug, PartialEq, Eq)]
pub struct ProviderComponent {
    pub provider_id: String,
    pub pack: ProviderPack,
}

/// The first detected provider whose pack is at `path`.
pub open spec fn first_provider_at(providers: Seq<DetectedProviderView>, path: Seq<char>) -> Option<
    DetectedProviderView,
>
    decreases providers.len(),
{
    if providers.len() == 0 {
        None
    } else if providers[0].pack_path == path {
        Some(providers[0])
    } else {
        first_provider_at(providers.drop_first(), path)
    }
}

/// A pack serves `provider` when its id is the provider, its file is
/// `<provider>.gtpack`, or discovery names the provider for its path.
pub open spec fn pack_serves(p: ProviderPack, providers: Seq<DetectedProviderView>, provider: Seq<
    char,
>) -> bool {
    ||| p.pack_id@ == provider
    ||| p.file_name@ == provider + ".gtpack"@
    ||| (first_provider_at(providers, p.path@) matches Some(d) && d.provider_id == provider)
}

/// The position of the first pack that serves `provider`.
pub open spec fn first_serving(
    packs: Seq<ProviderPack>,
    providers: Seq<DetectedProviderView>,
    provider: Seq<char>,
) -> Option<int>
    decreases packs.len(),
{
    if packs.len() == 0 {
        None
    } else if pack_serves(packs[0], providers, provider) {
        Some(0)
    } else {
        match first_serving(packs.drop_first(), providers, provider) {
            Some(i) => Some(i + 1),
            None => None,
        }
    }
}

proof fn lemma_first_serving_at(
    packs: Seq<ProviderPack>,
    providers: Seq<DetectedProviderView>,
    provider: Seq<char>,
    i: int,
)
    requires
        0 <= i < packs.len(),
        pack_serves(packs[i], providers, provider),
        forall|j: int| 0 <= j < i ==> !pack_serves(#[trigger] packs[j], providers, provider),
    ensures
        first_serving(packs, providers, provider) == Some(i),
    decreases i,
{
    if i > 0 {
        assert(!pack_serves(packs[0], providers, provider));
        lemma_first_serving_at(packs.drop_first(), providers, provider, i - 1);
    }
}

proof fn lemma_first_serving_none(
    packs: Seq<ProviderPack>,
    providers: Seq<DetectedProviderView>,
    provider: Seq<char>,
)
    requires
        forall|j: int| 0 <= j < packs.len() ==> !pack_serves(#[trigger] packs[j], providers, provider),
    ensures
        first_serving(packs, providers, provider) is None,
    decreases packs.len(),
{
    if packs.len() > 0 {
        assert(!pack_serves(packs[0], providers, provider));
        lemma_first_serving_none(packs.drop_first(), providers, provider);
    }
}

fn provider_at(providers: &Vec<DetectedProvider>, path: &str) -> (r: Option<usize>)
    ensures
        match r {
            Some(i) => i < providers@.len() && first_provider_at(providers_view(providers@), path@)
                == Some(providers@[i as int]@),
            None => first_provider_at(providers_view(providers@), path@) is None,
        },
{
    let ghost pv = providers_view(providers@);
    let mut i: usize = 0;
    assert(pv.skip(0) =~= pv);
    while i < providers.len()
        invariant
            i <= providers@.len(),
            pv == providers_view(providers@),
            first_provider_at(pv, path@) == first_provider_at(pv.skip(i as int), path@),
        decreases providers@.len() - i,
    {
        assert(pv.skip(i as int)[0] == providers@[i as int]@);
        assert(pv.skip(i as int).drop_first() =~= pv.skip(i + 1));
        if text_eq(providers[i].pack_path.as_str(), path) {
            return Some(i);
        }
        i += 1;
    }
    assert(pv.skip(i as int).len() == 0);
    None
}

fn serves(p: &ProviderPack, providers: &Vec<DetectedProvider>, provider: &str) -> (r: bool)
    ensures
        r == pack_serves(*p, providers_view(providers@), provider@),
{
    if text_eq(p.pack_id.as_str(), provider) {
        return true;
    }
    let mut want = chars_of(provider);
    extend_chars(&mut want, ".gtpack");
    let want = string_of(want.as_slice());
    if text_eq(p.file_name.as_str(), want.as_str()) {
        return true;
    }
    match provider_at(providers, p.path.as_str()) {
        Some(i) => text_eq(providers[i].provider_id.as_str(), provider),
        None => false,
    }
}

/// The message when no pack serves a provider.
pub open spec fn provider_not_found(provider: Seq<char>) -> Seq<char> {
    "provider pack not found for "@ + provider
}

/// The component of `provider`: the first of the bundle's provider packs
/// that serves it, with the provider's id.
#[verifier::loop_isolation(false)]
pub fn resolve_provider_component_with_roots(
    packs: Vec<ProviderPack>,
    discovery: &DiscoveryResult,
    provider: &str,
) -> (r: Result<ProviderComponent, String>)
    ensures
        match first_serving(packs@, providers_view(discovery.providers@), provider@) {
            Some(i) => r matches Ok(c) && c.provider_id@ == provider@ && c.pack == packs@[i],
            None => r matches Err(e) && e@ == provider_not_found(provider@),
        },
{
    let ghost all = packs@;
    let ghost pv = providers_view(discovery.providers@);
    let total = packs.len();
    let mut rest = packs;
    let mut k: usize = 0;
    assert(all.skip(0) =~= all);
    while rest.len() > 0
        invariant
            k <= all.len(),
            k + rest@.len() == all.len(),
            total == all.len(),
            rest@ == all.skip(k as int),
            forall|j: int| 0 <= j < k ==> !pack_serves(#[trigger] all[j], pv, provider@),
            pv == providers_view(discovery.providers@),
        decreases rest@.len(),
    {
        let p = rest.remove(0);
        assert(p == all[k as int]);
        assert(rest@ =~= all.skip(k + 1));
        if serves(&p, &discovery.providers, provider) {
            proof {
                lemma_first_serving_at(all, pv, provider@, k as int);
            }
            return Ok(ProviderComponent { provider_id: text(provider), pack: p });
        }
        k += 1;
    }
    proof {
        assert(k == all.len());
        lemma_first_serving_none(all, pv, provider@);
    }
    let mut m = chars_of("provider pack not found for ");
    extend_chars(&mut m, provider);
    Err(string_of(m.as_slice()))
}

/// Where the pack a hook dispatches to is looked for first: the target as
/// a path, then `<read root>/packs/<target>`, then
/// `<read root>/packs/<target>.gtpack`.
pub fn dispatch_pack_candidates(bundle_read_root: &str, target_pack: &str) -> (r: Vec<String>)
    ensures
        r@.len() == 3,
        r@[0]@ == target_pack@,
        r@[1]@ == path_join(path_join(bundle_read_root@, "packs"@), target_pack@),
        r@[2]@ == path_join(path_join(bundle_read_root@, "packs"@), target_pack@ + ".gtpack"@),
{
    let packs_root = join_path(bundle_read_root, "packs");
    let mut file = chars_of(target_pack);
    extend_chars(&mut file, ".gtpack");
    let file = string_of(file.as_slice());
    let mut r: Vec<String> = Vec::new();
    r.push(text(target_pack));
    r.push(join_path(packs_root.as_str(), target_pack));
    r.push(join_path(packs_root.as_str(), file.as_str()));
    r
}

/// The message when no pack of the bundle is the dispatch target.
pub fn dispatch_pack_not_found(target_pack: &str, packs_root: &str) -> (r: String)
    ensures
        r@ == "dispatch target pack "@ + target_pack@ + " not found under "@ + packs_root@,
{
    let mut m = chars_of("dispatch target pack ");
    extend_chars(&mut m, target_pack);
    extend_chars(&mut m, " not found under ");
    extend_chars(&mut m, packs_root);
    string_of(m.as_slice())
}

/// A pack offered by a hook offer: its file name is the last component of
/// its path, and it declares no entry flows; an error when the path has no
/// file name.
pub fn offer_pack(path: String, pack_id: String) -> (r: Result<ProviderPack, String>)
    ensures
        match file_name(path@) {
            Some(f) => r matches Ok(p) && p.pack_id@ == pack_id@ && p.file_name@ == f && p.path@
                == path@ && p.entry_flows@.len() == 0,
            None => r matches Err(e) && e@ == "invalid offer pack file name: "@ + path@,
        },
{
    match path_file_name(path.as_str()) {
        Some(f) => Ok(ProviderPack { pack_id, file_name: f, path, entry_flows: Vec::new() }),
        None => {
            let mut m = chars_of("invalid offer pack file name: ");
            extend_chars(&mut m, path.as_str());
            Err(string_of(m.as_slice()))
        },
    }
}

} // verus!
