use vstd::prelude::*;

use crate::text::{ascii_lower, chars_of, char_ascii_lower, text};

verus! {

/// The four provider domains a bundle can hold packs for.
#[derive(Clone, Copy, Debug, PartialEq, Eq, Structural)]
pub enum Domain {
    Messaging,
    Events,
    Secrets,
    OAuth,
}

pub open spec fn domain_label(domain: Domain) -> Seq<char> {
    match domain {
        Domain::Messaging => "messaging"@,
        Domain::Events => "events"@,
        Domain::Secrets => "secrets"@,
        Domain::OAuth => "oauth"@,
    }
}

/// The lower-case name of a domain.
pub fn domain_name(domain: Domain) -> (r: &'static str)
    ensures
        r@ == domain_label(domain),
{
    match domain {
        Domain::Messaging => "messaging",
        Domain::Events => "events",
        Domain::Secrets => "secrets",
        Domain::OAuth => "oauth",
    }
}

/// The name of a domain as an owned string.
pub fn domain_name_text(domain: Domain) -> (r: String)
    ensures
        r@ == domain_label(domain),
{
    text(domain_name(domain))
}

/// The domain whose name equals `value` up to ASCII case. For these four
/// names this is the same as comparing Unicode lower-case forms: no other
/// character lower-cases to one of their letters.
pub open spec fn domain_from_label(value: Seq<char>) -> Option<Domain> {
    let lower = value.map_values(|c: char| ascii_lower(c));
    if lower == "messaging"@ {
        Some(Domain::Messaging)
    } else if lower == "events"@ {
        Some(Domain::Events)
    } else if lower == "secrets"@ {
        Some(Domain::Secrets)
    } else if lower == "oauth"@ {
        Some(Domain::OAuth)
    } else {
        None
    }
}

/// Parses a domain name, ignoring case.
pub fn domain_from_str(value: &str) -> (r: Option<Domain>)
    ensures
        r == domain_from_label(value@),
{
    let v = chars_of(value);
    let mut lower: Vec<char> = Vec::new();
    let mut i: usize = 0;
    while i < v.len()
        invariant
            v@ == value@,
            i <= v@.len(),
            lower@ == value@.take(i as int).map_values(|c: char| ascii_lower(c)),
        decreases v@.len() - i,
    {
        lower.push(char_ascii_lower(v[i]));
        i += 1;
        assert(lower@ =~= value@.take(i as int).map_values(|c: char| ascii_lower(c)));
    }
    assert(value@.take(value@.len() as int) =~= value@);
    let s = crate::text::string_of(&lower);
    proof {
        reveal_strlit("messaging");
        reveal_strlit("events");
        reveal_strlit("secrets");
        reveal_strlit("oauth");
    }
    if crate::text::text_eq(s.as_str(), "messaging") {
        Some(Domain::Messaging)
    } else if crate::text::text_eq(s.as_str(), "events") {
        Some(Domain::Events)
    } else if crate::text::text_eq(s.as_str(), "secrets") {
        Some(Domain::Secrets)
    } else if crate::text::text_eq(s.as_str(), "oauth") {
        Some(Domain::OAuth)
    } else {
        None
    }
}

} // verus!
