//! Maps keyed by text, held as vectors of pairs in increasing key order
//! (the iteration order of a `BTreeMap<String, _>`). vstd's specification
//! of `BTreeMap` holds only for keys whose order vstd specifies
//! (`key_obeys_cmp_spec`), and it specifies none for `String`; so a map
//! with text keys is kept here, where its order and lookups are proved.
use vstd::prelude::*;

use crate::text::{
    lemma_lex_antisym, lemma_lex_total, lemma_lex_trans, lex_le, text_le, text_lt, texts_of,
};

verus! {

/// The value of the first entry whose key is `k`.
pub open spec fn lookup<V>(s: Seq<(String, V)>, k: Seq<char>) -> Option<V>
    decreases s.len(),
{
    if s.len() == 0 {
        None
    } else if s[0].0@ == k {
        Some(s[0].1)
    } else {
        lookup(s.drop_first(), k)
    }
}

/// Keys strictly increase, so no key occurs twice.
pub open spec fn keys_strictly_sorted<V>(s: Seq<(String, V)>) -> bool {
    forall|i: int, j: int| 0 <= i < j < s.len() ==> text_lt(#[trigger] s[i].0@, #[trigger] s[j].0@)
}

/// The keys of `s`, as characters.
pub open spec fn keys_of<V>(s: Seq<(String, V)>) -> Seq<Seq<char>> {
    s.map_values(|e: (String, V)| e.0@)
}

pub proof fn lemma_lookup_at<V>(s: Seq<(String, V)>, i: int, k: Seq<char>)
    requires
        0 <= i < s.len(),
        s[i].0@ == k,
        forall|j: int| 0 <= j < i ==> s[j].0@ != k,
    ensures
        lookup(s, k) == Some(s[i].1),
    decreases i,
{
    if i > 0 {
        lemma_lookup_at(s.drop_first(), i - 1, k);
    }
}

pub proof fn lemma_lookup_absent<V>(s: Seq<(String, V)>, k: Seq<char>)
    requires
        forall|j: int| 0 <= j < s.len() ==> s[j].0@ != k,
    ensures
        lookup(s, k) is None,
    decreases s.len(),
{
    if s.len() > 0 {
        lemma_lookup_absent(s.drop_first(), k);
    }
}

/// A present key is found at some index holding its value.
pub proof fn lemma_lookup_some<V>(s: Seq<(String, V)>, k: Seq<char>)
    requires
        lookup(s, k) is Some,
    ensures
        exists|i: int| 0 <= i < s.len() && s[i].0@ == k && lookup(s, k) == Some(s[i].1),
    decreases s.len(),
{
    if s[0].0@ != k {
        lemma_lookup_some(s.drop_first(), k);
        let i = choose|i: int|
            0 <= i < s.drop_first().len() && s.drop_first()[i].0@ == k && lookup(s.drop_first(), k)
                == Some(s.drop_first()[i].1);
        assert(s[i + 1].0@ == k);
    }
}

proof fn lemma_lookup_insert_other<V>(s: Seq<(String, V)>, p: int, e: (String, V), q: Seq<char>)
    requires
        0 <= p <= s.len(),
        e.0@ != q,
    ensures
        lookup(s.insert(p, e), q) == lookup(s, q),
    decreases p,
{
    let t = s.insert(p, e);
    if p == 0 {
        assert(t.drop_first() =~= s);
    } else {
        assert(t[0] == s[0]);
        if s[0].0@ != q {
            assert(t.drop_first() =~= s.drop_first().insert(p - 1, e));
            lemma_lookup_insert_other(s.drop_first(), p - 1, e, q);
        }
    }
}

proof fn lemma_lookup_update_other<V>(s: Seq<(String, V)>, p: int, e: (String, V), q: Seq<char>)
    requires
        0 <= p < s.len(),
        e.0@ != q,
        s[p].0@ != q,
    ensures
        lookup(s.update(p, e), q) == lookup(s, q),
    decreases p,
{
    let t = s.update(p, e);
    if p == 0 {
        assert(t.drop_first() =~= s.drop_first());
    } else {
        assert(t[0] == s[0]);
        if s[0].0@ != q {
            assert(t.drop_first() =~= s.drop_first().update(p - 1, e));
            lemma_lookup_update_other(s.drop_first(), p - 1, e, q);
        }
    }
}

/// The index of the entry for `k`, if any.
pub fn assoc_find<V>(s: &Vec<(String, V)>, k: &str) -> (r: Option<usize>)
    ensures
        match r {
            Some(i) => i < s@.len() && s@[i as int].0@ == k@ && lookup(s@, k@) == Some(
                s@[i as int].1,
            ),
            None => lookup(s@, k@) is None,
        },
{
    let mut i: usize = 0;
    while i < s.len()
        invariant
            i <= s@.len(),
            forall|j: int| 0 <= j < i ==> s@[j].0@ != k@,
        decreases s@.len() - i,
    {
        if crate::text::text_eq(s[i].0.as_str(), k) {
            proof {
                lemma_lookup_at(s@, i as int, k@);
            }
            return Some(i);
        }
        i += 1;
    }
    proof {
        lemma_lookup_absent(s@, k@);
    }
    None
}

/// Sets the value of `k` to `v`, keeping keys in order.
pub fn assoc_insert<V>(s: &mut Vec<(String, V)>, k: String, v: V)
    requires
        keys_strictly_sorted(old(s)@),
    ensures
        keys_strictly_sorted(final(s)@),
        forall|q: Seq<char>|
            #![trigger lookup(final(s)@, q)]
            lookup(final(s)@, q) == if q == k@ {
                Some(v)
            } else {
                lookup(old(s)@, q)
            },
{
    let ghost old_s = s@;
    let mut p: usize = 0;
    while p < s.len() && !text_le(k.as_str(), s[p].0.as_str())
        invariant
            s@ == old_s,
            p <= s@.len(),
            forall|j: int| 0 <= j < p ==> !lex_le(k@, #[trigger] s@[j].0@),
        decreases s@.len() - p,
    {
        p += 1;
    }
    proof {
        assert forall|j: int| 0 <= j < p implies text_lt(#[trigger] old_s[j].0@, k@) by {
            lemma_lex_total(k@, old_s[j].0@);
            if old_s[j].0@ == k@ {
                crate::text::lemma_lex_refl(k@);
            }
        }
    }
    let ghost kv = k@;
    if p < s.len() && crate::text::text_eq(s[p].0.as_str(), k.as_str()) {
        let ghost e = (k, v);
        s.set(p, (k, v));
        proof {
            assert(s@ == old_s.update(p as int, e));
            assert forall|q: Seq<char>| #![trigger lookup(s@, q)]
                lookup(s@, q) == if q == kv {
                    Some(v)
                } else {
                    lookup(old_s, q)
                } by {
                if q == kv {
                    lemma_lookup_at(s@, p as int, q);
                } else {
                    lemma_lookup_update_other(old_s, p as int, e, q);
                }
            }
        }
    } else {
        let ghost e = (k, v);
        s.insert(p, (k, v));
        proof {
            assert(s@ == old_s.insert(p as int, e));
            if p < old_s.len() {
                assert(lex_le(kv, old_s[p as int].0@));
            }
            assert forall|j: int| p < j < s@.len() implies text_lt(kv, #[trigger] s@[j].0@) by {
                assert(s@[j] == old_s[j - 1]);
                if j - 1 > p {
                    assert(text_lt(old_s[p as int].0@, old_s[j - 1].0@));
                    lemma_lex_trans(kv, old_s[p as int].0@, old_s[j - 1].0@);
                    if kv == old_s[j - 1].0@ {
                        lemma_lex_antisym(kv, old_s[p as int].0@);
                    }
                }
            }
            assert forall|i: int, j: int| 0 <= i < j < s@.len() implies text_lt(
                #[trigger] s@[i].0@,
                #[trigger] s@[j].0@,
            ) by {
                if i < p && j < p {
                    assert(s@[i] == old_s[i] && s@[j] == old_s[j]);
                } else if i < p && j == p {
                    assert(s@[i] == old_s[i]);
                } else if i < p {
                    assert(s@[i] == old_s[i] && s@[j] == old_s[j - 1]);
                    assert(text_lt(old_s[i].0@, kv));
                    assert(text_lt(kv, s@[j].0@));
                    lemma_lex_trans(old_s[i].0@, kv, old_s[j - 1].0@);
                    if old_s[i].0@ == old_s[j - 1].0@ {
                        lemma_lex_antisym(old_s[i].0@, kv);
                    }
                } else if i == p {
                } else {
                    assert(s@[i] == old_s[i - 1] && s@[j] == old_s[j - 1]);
                }
            }
            assert forall|q: Seq<char>| #![trigger lookup(s@, q)]
                lookup(s@, q) == if q == kv {
                    Some(v)
                } else {
                    lookup(old_s, q)
                } by {
                if q == kv {
                    assert forall|j: int| 0 <= j < p implies s@[j].0@ != q by {
                        assert(s@[j] == old_s[j]);
                    }
                    lemma_lookup_at(s@, p as int, q);
                } else {
                    lemma_lookup_insert_other(old_s, p as int, e, q);
                }
            }
        }
    }
}

/// A key is present exactly when some entry has it.
pub proof fn lemma_lookup_iff_contains<V>(s: Seq<(String, V)>, k: Seq<char>)
    ensures
        (lookup(s, k) is Some) <==> keys_of(s).contains(k),
    decreases s.len(),
{
    if s.len() > 0 {
        lemma_lookup_iff_contains(s.drop_first(), k);
        assert(keys_of(s.drop_first()) =~= keys_of(s).drop_first());
        assert(keys_of(s)[0] == s[0].0@);
        if keys_of(s).contains(k) && s[0].0@ != k {
            let i = choose|i: int| 0 <= i < keys_of(s).len() && keys_of(s)[i] == k;
            assert(keys_of(s.drop_first())[i - 1] == k);
        }
        if keys_of(s.drop_first()).contains(k) {
            let i = choose|i: int|
                0 <= i < keys_of(s.drop_first()).len() && keys_of(s.drop_first())[i] == k;
            assert(keys_of(s)[i + 1] == k);
        }
    }
}

/// The keys, in order.
pub fn keys_to_vec<V>(s: Vec<(String, V)>) -> (r: Vec<String>)
    ensures
        texts_of(r@) == keys_of(s@),
{
    let ghost sv = s@;
    let total = s.len();
    let mut rest = s;
    let mut out: Vec<String> = Vec::new();
    let mut i: usize = 0;
    while i < total
        invariant
            total == sv.len(),
            i <= total,
            rest@ == sv.skip(i as int),
            texts_of(out@) == keys_of(sv).take(i as int),
        decreases total - i,
    {
        let (k, _) = rest.remove(0);
        assert(k == sv[i as int].0);
        assert(rest@ =~= sv.skip(i + 1));
        let ghost before = texts_of(out@);
        let ghost kv = k@;
        out.push(k);
        assert(keys_of(sv)[i as int] == kv);
        assert(texts_of(out@) =~= before.push(kv));
        assert(keys_of(sv).take(i + 1) =~= keys_of(sv).take(i as int).push(kv));
        assert(texts_of(out@) =~= keys_of(sv).take(i + 1));
        i += 1;
    }
    assert(keys_of(sv).take(total as int) =~= keys_of(sv));
    out
}

} // verus!
