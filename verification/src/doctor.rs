//! The checks `greentic-pack doctor` runs over a bundle's packs: which
//! domains, with which arguments, where the results are written, and which
//! demo packs a tenant's resolved manifest selects.
use vstd::prelude::*;

use crate::domains::{domain_label, domain_name, Domain};
use crate::state_layout::{join_path, path_join};
use crate::text::{
    chars_of, concat, decimal, decimal_text, ends_with, extend_chars, seq_ends_with, string_of,
    text, texts_of,
};

verus! {

/// How the doctor is run.
#[derive(Debug)]
pub struct DoctorOptions {
    pub tenant: Option<String>,
    pub team: Option<String>,
    pub strict: bool,
    pub validator_packs: Vec<String>,
}

/// The domains the doctor checks.
#[derive(Clone, Copy, Debug, PartialEq, Eq, Structural)]
pub enum DoctorScope {
    One(Domain),
    All,
}

/// The domains of a scope, in checking order.
pub open spec fn scope_domains(scope: DoctorScope) -> Seq<Domain> {
    match scope {
        DoctorScope::One(d) => seq![d],
        DoctorScope::All => seq![Domain::Messaging, Domain::Events, Domain::Secrets, Domain::OAuth],
    }
}

/// The domains a scope covers.
pub fn doctor_domains(scope: DoctorScope) -> (r: Vec<Domain>)
    ensures
        r@ == scope_domains(scope),
{
    let mut v: Vec<Domain> = Vec::new();
    match scope {
        DoctorScope::One(d) => {
            v.push(d);
        },
        DoctorScope::All => {
            v.push(Domain::Messaging);
            v.push(Domain::Events);
            v.push(Domain::Secrets);
            v.push(Domain::OAuth);
        },
    }
    assert(v@ =~= scope_domains(scope));
    v
}

/// The arguments of `greentic-pack` for checking one pack: `doctor`, the
/// pack, `--strict` when strict, then `--validator-pack` and each validator.
pub open spec fn doctor_args(pack_path: Seq<char>, validators: Seq<Seq<char>>, strict: bool) -> Seq<
    Seq<char>,
>
    decreases validators.len(),
{
    if validators.len() == 0 {
        seq!["doctor"@, pack_path] + if strict {
            seq!["--strict"@]
        } else {
            Seq::empty()
        }
    } else {
        doctor_args(pack_path, validators.drop_last(), strict) + seq![
            "--validator-pack"@,
            validators.last(),
        ]
    }
}

/// The command-line arguments that check one pack.
pub fn build_doctor_args(pack_path: &str, validator_packs: &Vec<String>, strict: bool) -> (r: Vec<
    String,
>)
    ensures
        texts_of(r@) == doctor_args(pack_path@, texts_of(validator_packs@), strict),
{
    let ghost vs = texts_of(validator_packs@);
    let mut args: Vec<String> = Vec::new();
    args.push(text("doctor"));
    args.push(text(pack_path));
    if strict {
        args.push(text("--strict"));
    }
    let mut i: usize = 0;
    assert(vs.take(0) =~= Seq::<Seq<char>>::empty());
    assert(texts_of(args@) =~= doctor_args(pack_path@, vs.take(0), strict));
    while i < validator_packs.len()
        invariant
            i <= validator_packs@.len(),
            vs == texts_of(validator_packs@),
            texts_of(args@) == doctor_args(pack_path@, vs.take(i as int), strict),
        decreases validator_packs@.len() - i,
    {
        let ghost before = texts_of(args@);
        args.push(text("--validator-pack"));
        args.push(validator_packs[i].clone());
        assert(vs.take(i + 1).drop_last() =~= vs.take(i as int));
        assert(texts_of(args@) =~= before + seq!["--validator-pack"@, vs[i as int]]);
        i += 1;
    }
    assert(vs.take(validator_packs@.len() as int) =~= vs);
    args
}

/// `root/state/resolved/<tenant>[.<team>].yaml`.
pub open spec fn resolved_manifest_file(root: Seq<char>, tenant: Seq<char>, team: Option<Seq<char>>) -> Seq<
    char,
> {
    let name = match team {
        Some(t) => tenant + "."@ + t + ".yaml"@,
        None => tenant + ".yaml"@,
    };
    path_join(path_join(path_join(root, "state"@), "resolved"@), name)
}

/// The resolved manifest of a tenant, or of one of its teams.
pub fn resolved_manifest_path(root: &str, tenant: &str, team: Option<&str>) -> (r: String)
    ensures
        r@ == resolved_manifest_file(
            root@,
            tenant@,
            match team {
                Some(t) => Some(t@),
                None => None,
            },
        ),
{
    let mut name = chars_of(tenant);
    match team {
        Some(t) => {
            extend_chars(&mut name, ".");
            extend_chars(&mut name, t);
            extend_chars(&mut name, ".yaml");
        },
        None => {
            extend_chars(&mut name, ".yaml");
        },
    }
    let n = string_of(name.as_slice());
    let a = join_path(root, "state");
    let b = join_path(a.as_str(), "resolved");
    join_path(b.as_str(), n.as_str())
}

/// `root/state/doctor/<timestamp>`.
pub open spec fn doctor_root_dir(root: Seq<char>, timestamp: u64) -> Seq<char> {
    path_join(path_join(path_join(root, "state"@), "doctor"@), decimal(timestamp as nat))
}

/// The directory of a doctor run started at `timestamp`.
pub fn doctor_root_at(root: &str, timestamp: u64) -> (r: String)
    ensures
        r@ == doctor_root_dir(root@, timestamp),
{
    let a = join_path(root, "state");
    let b = join_path(a.as_str(), "doctor");
    let d = decimal_text(timestamp as u128);
    let t = string_of(d.as_slice());
    join_path(b.as_str(), t.as_str())
}

/// The directory of a doctor run started now.
pub fn doctor_root(root: &str) -> (r: Result<String, String>)
    ensures
        r matches Ok(p) ==> exists|t: u64| p@ == doctor_root_dir(root@, t),
        r matches Err(e) ==> "timestamp error: "@.is_prefix_of(e@),
{
    let t = match crate::state_layout::timestamp_secs() {
        Ok(t) => t,
        Err(e) => return Err(e),
    };
    let p = doctor_root_at(root, t);
    assert(p@ == doctor_root_dir(root@, t));
    Ok(p)
}

/// `<base>/<domain>/<pack label>`: where one pack's output goes.
pub fn doctor_run_dir(base_dir: &str, domain: Domain, pack_label: &str) -> (r: String)
    ensures
        r@ == path_join(path_join(base_dir@, domain_label(domain)), pack_label@),
{
    let a = join_path(base_dir, domain_name(domain));
    join_path(a.as_str(), pack_label)
}

/// `<base>/<name>-summary.txt`.
pub fn summary_path(base_dir: &str, name: &str) -> (r: String)
    ensures
        r@ == path_join(base_dir@, name@ + "-summary.txt"@),
{
    let n = concat(name, "-summary.txt");
    join_path(base_dir, n.as_str())
}

/// The summary name of one pack's run: `<domain>-<pack label>`.
pub fn pack_summary_name(domain: Domain, pack_label: &str) -> (r: String)
    ensures
        r@ == domain_label(domain) + "-"@ + pack_label@,
{
    let mut v = chars_of(domain_name(domain));
    extend_chars(&mut v, "-");
    extend_chars(&mut v, pack_label);
    string_of(v.as_slice())
}

/// The summary written after a tenant's demo packs were checked.
pub fn demo_summary(tenant: &str, team: Option<&str>) -> (r: String)
    ensures
        r@ == "demo packs validated for tenant="@ + tenant@ + " team="@ + match team {
            Some(t) => t@,
            None => "none"@,
        } + "\n"@,
{
    let mut v = chars_of("demo packs validated for tenant=");
    extend_chars(&mut v, tenant);
    extend_chars(&mut v, " team=");
    match team {
        Some(t) => extend_chars(&mut v, t),
        None => extend_chars(&mut v, "none"),
    }
    extend_chars(&mut v, "\n");
    string_of(v.as_slice())
}

/// The demo packs a resolved manifest lists, as paths: only `.gtpack`
/// entries, absolute ones as they are and others under the read root.
pub open spec fn demo_pack_paths(read_root: Seq<char>, packs: Seq<Seq<char>>) -> Seq<Seq<char>>
    decreases packs.len(),
{
    if packs.len() == 0 {
        Seq::empty()
    } else {
        let p = packs.last();
        demo_pack_paths(read_root, packs.drop_last()) + if seq_ends_with(p, ".gtpack"@) {
            seq![
                if p.len() > 0 && p[0] == '/' {
                    p
                } else {
                    path_join(read_root, p)
                },
            ]
        } else {
            Seq::empty()
        }
    }
}

/// The manifest entries that are not `.gtpack` files, skipped with a warning.
pub open spec fn skipped_demo_packs(packs: Seq<Seq<char>>) -> Seq<Seq<char>>
    decreases packs.len(),
{
    if packs.len() == 0 {
        Seq::empty()
    } else {
        skipped_demo_packs(packs.drop_last()) + if seq_ends_with(packs.last(), ".gtpack"@) {
            Seq::empty()
        } else {
            seq![packs.last()]
        }
    }
}

/// Splits a resolved manifest's pack list into the pack paths to check and
/// the entries to skip.
pub fn select_demo_packs(bundle_read_root: &str, packs: &Vec<String>) -> (r: (Vec<String>, Vec<String>))
    ensures
        texts_of(r.0@) == demo_pack_paths(bundle_read_root@, texts_of(packs@)),
        texts_of(r.1@) == skipped_demo_packs(texts_of(packs@)),
{
    let ghost ps = texts_of(packs@);
    let mut selected: Vec<String> = Vec::new();
    let mut skipped: Vec<String> = Vec::new();
    let mut i: usize = 0;
    assert(ps.take(0) =~= Seq::<Seq<char>>::empty());
    while i < packs.len()
        invariant
            i <= packs@.len(),
            ps == texts_of(packs@),
            texts_of(selected@) == demo_pack_paths(bundle_read_root@, ps.take(i as int)),
            texts_of(skipped@) == skipped_demo_packs(ps.take(i as int)),
        decreases packs@.len() - i,
    {
        let p = packs[i].as_str();
        assert(ps.take(i + 1).drop_last() =~= ps.take(i as int));
        assert(ps.take(i + 1).last() == p@);
        let ghost sel = texts_of(selected@);
        let ghost skp = texts_of(skipped@);
        if ends_with(p, ".gtpack") {
            let v = chars_of(p);
            let full = if v.len() > 0 && v[0] == '/' {
                text(p)
            } else {
                join_path(bundle_read_root, p)
            };
            selected.push(full);
            assert(texts_of(selected@) =~= sel.push(full@));
            assert(texts_of(skipped@) =~= skp + Seq::<Seq<char>>::empty());
        } else {
            skipped.push(text(p));
            assert(texts_of(skipped@) =~= skp.push(p@));
            assert(texts_of(selected@) =~= sel + Seq::<Seq<char>>::empty());
        }
        i += 1;
    }
    assert(ps.take(packs@.len() as int) =~= ps);
    (selected, skipped)
}

/// The message of a pack the doctor found fault with.
pub fn doctor_failure_message(pack_path: &str) -> (r: String)
    ensures
        r@ == "greentic-pack doctor failed for "@ + pack_path@,
{
    concat("greentic-pack doctor failed for ", pack_path)
}

} // verus!
