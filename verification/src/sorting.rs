use vstd::prelude::*;
use vstd::multiset::Multiset;

use crate::seqs::lemma_insert_multiset;
use crate::text::{lemma_text_lt_total, lemma_text_lt_trans, text_lt};

verus! {

broadcast use vstd::seq_lib::group_to_multiset_ensures;

/// A total preorder on the values of a type, with an executable test.
pub trait SortKey: Sized {
    spec fn key_le(self, other: Self) -> bool;

    proof fn lemma_key_le_total(a: Self, b: Self)
        ensures
            a.key_le(b) || b.key_le(a),
    ;

    proof fn lemma_key_le_trans(a: Self, b: Self, c: Self)
        requires
            a.key_le(b),
            b.key_le(c),
        ensures
            a.key_le(c),
    ;

    fn key_le_exec(&self, other: &Self) -> (r: bool)
        ensures
            r == self.key_le(*other),
    ;
}

/// Order on a text field, ties broken by `rest`.
pub open spec fn text_then(a: Seq<char>, b: Seq<char>, rest: bool) -> bool {
    text_lt(a, b) || (a == b && rest)
}

/// Order on an integer field, ties broken by `rest`.
pub open spec fn int_then(a: int, b: int, rest: bool) -> bool {
    a < b || (a == b && rest)
}

pub proof fn lemma_text_then_total(a: Seq<char>, b: Seq<char>, r_ab: bool, r_ba: bool)
    requires
        a == b ==> (r_ab || r_ba),
    ensures
        text_then(a, b, r_ab) || text_then(b, a, r_ba),
{
    lemma_text_lt_total(a, b);
}

pub proof fn lemma_text_then_trans(
    a: Seq<char>,
    b: Seq<char>,
    c: Seq<char>,
    r_ab: bool,
    r_bc: bool,
    r_ac: bool,
)
    requires
        text_then(a, b, r_ab),
        text_then(b, c, r_bc),
        (a == b && b == c && r_ab && r_bc) ==> r_ac,
    ensures
        text_then(a, c, r_ac),
{
    if text_lt(a, b) && text_lt(b, c) {
        lemma_text_lt_trans(a, b, c);
    }
}

/// Every element is at most every later element.
pub open spec fn sorted_by_key<T: SortKey>(s: Seq<T>) -> bool {
    forall|i: int, j: int| 0 <= i < j < s.len() ==> #[trigger] s[i].key_le(#[trigger] s[j])
}

/// `r` is `v` rearranged by `perm`: the element at `i` is the one that
/// was at `perm[i]`, no position is taken twice, and elements with equal
/// keys keep the order they had in `v`.
pub open spec fn stable_arrangement<T: SortKey>(r: Seq<T>, v: Seq<T>, perm: Seq<int>) -> bool {
    &&& perm.len() == r.len()
    &&& r.len() == v.len()
    &&& forall|i: int| 0 <= i < r.len() ==> 0 <= #[trigger] perm[i] < v.len() && r[i] == v[perm[i]]
    &&& forall|i: int, j: int| 0 <= i < j < r.len() ==> #[trigger] perm[i] != #[trigger] perm[j]
    &&& forall|i: int, j: int|
        0 <= i < j < r.len() && r[j].key_le(r[i]) ==> #[trigger] perm[i] < #[trigger] perm[j]
}

/// `r` holds the elements of `v` sorted by key, elements with equal keys in
/// the order they had in `v` (a stable sort).
pub open spec fn stably_sorted_from<T: SortKey>(r: Seq<T>, v: Seq<T>) -> bool {
    &&& sorted_by_key(r)
    &&& exists|perm: Seq<int>| #[trigger] stable_arrangement(r, v, perm)
}

/// Sorts `v` by its key, stably; the result holds the same elements.
pub fn sort_by_key<T: SortKey>(v: Vec<T>) -> (r: Vec<T>)
    ensures
        sorted_by_key(r@),
        r@.to_multiset() == v@.to_multiset(),
        stably_sorted_from(r@, v@),
{
    let ghost orig = v@;
    let mut v = v;
    let mut r: Vec<T> = Vec::new();
    let ghost mut perm: Seq<int> = Seq::empty();
    while v.len() > 0
        invariant
            sorted_by_key(r@),
            r@.to_multiset().add(v@.to_multiset()) == orig.to_multiset(),
            v@ == orig.take(v@.len() as int),
            v@.len() <= orig.len(),
            perm.len() == r@.len(),
            r@.len() + v@.len() == orig.len(),
            forall|i: int|
                0 <= i < r@.len() ==> v@.len() <= #[trigger] perm[i] < orig.len() && r@[i]
                    == orig[perm[i]],
            forall|i: int, j: int| 0 <= i < j < r@.len() ==> #[trigger] perm[i] != #[trigger] perm[j],
            forall|i: int, j: int|
                0 <= i < j < r@.len() && r@[j].key_le(r@[i]) ==> #[trigger] perm[i] < #[trigger] perm[j],
        decreases v@.len(),
    {
        let ghost before = v@;
        let x = v.pop().unwrap();
        let ghost m = v@.len() as int;
        proof {
            assert(before =~= v@.push(x));
            assert(x == orig[m]);
            assert(v@ =~= orig.take(m));
        }
        let mut p: usize = 0;
        while p < r.len() && !x.key_le_exec(&r[p])
            invariant
                p <= r@.len(),
                sorted_by_key(r@),
                forall|k: int| 0 <= k < p ==> !x.key_le(#[trigger] r@[k]),
            decreases r@.len() - p,
        {
            p += 1;
        }
        let ghost old_r = r@;
        let ghost old_perm = perm;
        proof {
            assert forall|k: int| 0 <= k < p implies #[trigger] old_r[k].key_le(x) by {
                T::lemma_key_le_total(x, old_r[k]);
            }
            assert forall|k: int| p <= k < old_r.len() implies x.key_le(#[trigger] old_r[k]) by {
                if k > p {
                    T::lemma_key_le_trans(x, old_r[p as int], old_r[k]);
                }
            }
            lemma_insert_multiset(old_r, p as int, x);
        }
        r.insert(p, x);
        proof {
            perm = old_perm.insert(p as int, m);
            assert(r@ == old_r.insert(p as int, x));
            assert forall|i: int| 0 <= i < r@.len() implies m <= #[trigger] perm[i] < orig.len()
                && r@[i] == orig[perm[i]] by {
                if i < p {
                    assert(perm[i] == old_perm[i]);
                } else if i > p {
                    assert(perm[i] == old_perm[i - 1]);
                }
            }
            assert forall|i: int, j: int| 0 <= i < j < r@.len() implies #[trigger] perm[i]
                != #[trigger] perm[j] by {
                if i < p && j < p {
                } else if i < p && j == p {
                    assert(perm[i] == old_perm[i]);
                } else if i < p {
                    assert(perm[i] == old_perm[i] && perm[j] == old_perm[j - 1]);
                } else if i == p {
                    assert(perm[j] == old_perm[j - 1]);
                } else {
                    assert(perm[i] == old_perm[i - 1] && perm[j] == old_perm[j - 1]);
                }
            }
            assert forall|i: int, j: int|
                0 <= i < j < r@.len() && r@[j].key_le(r@[i]) implies #[trigger] perm[i]
                < #[trigger] perm[j] by {
                if i < p && j < p {
                    assert(perm[i] == old_perm[i] && perm[j] == old_perm[j]);
                    assert(r@[i] == old_r[i] && r@[j] == old_r[j]);
                } else if i < p && j == p {
                    assert(r@[i] == old_r[i]);
                    assert(!x.key_le(old_r[i]));
                } else if i < p {
                    assert(perm[i] == old_perm[i] && perm[j] == old_perm[j - 1]);
                    assert(r@[i] == old_r[i] && r@[j] == old_r[j - 1]);
                } else if i == p {
                    assert(perm[j] == old_perm[j - 1]);
                } else {
                    assert(perm[i] == old_perm[i - 1] && perm[j] == old_perm[j - 1]);
                    assert(r@[i] == old_r[i - 1] && r@[j] == old_r[j - 1]);
                }
            }
            assert forall|i: int, j: int| 0 <= i < j < r@.len() implies #[trigger] r@[i].key_le(
                #[trigger] r@[j],
            ) by {
                if i < p && j < p {
                    assert(r@[i] == old_r[i] && r@[j] == old_r[j]);
                } else if i < p && j == p {
                } else if i < p {
                    assert(r@[i] == old_r[i] && r@[j] == old_r[j - 1]);
                    T::lemma_key_le_trans(old_r[i], x, old_r[j - 1]);
                } else if i == p {
                    assert(r@[j] == old_r[j - 1]);
                } else {
                    assert(r@[i] == old_r[i - 1] && r@[j] == old_r[j - 1]);
                }
            }
            assert(r@.to_multiset().add(v@.to_multiset()) =~= orig.to_multiset());
        }
    }
    proof {
        assert(v@.to_multiset() =~= Multiset::empty());
        assert(r@.to_multiset() =~= orig.to_multiset());
        assert(stable_arrangement(r@, orig, perm));
    }
    r
}

/// Keeping only some elements of a sorted sequence leaves it sorted.
pub proof fn lemma_filter_sorted<T: SortKey>(s: Seq<T>, p: spec_fn(T) -> bool)
    requires
        sorted_by_key(s),
    ensures
        sorted_by_key(s.filter(p)),
        forall|k: int| 0 <= k < s.filter(p).len() ==> p(#[trigger] s.filter(p)[k]),
    decreases s.len(),
{
    reveal(Seq::filter);
    if s.len() > 0 {
        let rest = s.drop_last();
        assert(sorted_by_key(rest)) by {
            assert forall|i: int, j: int| 0 <= i < j < rest.len() implies #[trigger] rest[i].key_le(
                #[trigger] rest[j],
            ) by {
                assert(rest[i] == s[i] && rest[j] == s[j]);
            }
        }
        lemma_filter_sorted(rest, p);
        let f = rest.filter(p);
        if p(s.last()) {
            assert forall|k: int| 0 <= k < f.len() implies #[trigger] f[k].key_le(s.last()) by {
                assert(f.contains(f[k]));
                rest.lemma_filter_contains_rev(p, f[k]);
                let m = choose|m: int| 0 <= m < rest.len() && rest[m] == f[k];
                assert(s[m] == f[k]);
                assert(s[s.len() - 1] == s.last());
            }
            assert(s.filter(p) == f.push(s.last()));
            assert(sorted_by_key(s.filter(p))) by {
                assert forall|i: int, j: int| 0 <= i < j < s.filter(p).len() implies #[trigger] s.filter(
                    p,
                )[i].key_le(#[trigger] s.filter(p)[j]) by {
                    if j == f.len() {
                        assert(s.filter(p)[i] == f[i]);
                    } else {
                        assert(s.filter(p)[i] == f[i] && s.filter(p)[j] == f[j]);
                    }
                }
            }
        } else {
            assert(s.filter(p) == f);
        }
    }
}

} // verus!
