use vstd::prelude::*;


verus! {

/// The values behind a sequence of references.
pub open spec fn deref_seq<T>(s: Seq<&T>) -> Seq<T> {
    s.map_values(|x: &T| *x)
}

pub proof fn lemma_filter_step<T>(s: Seq<T>, p: spec_fn(T) -> bool, i: int)
    requires
        0 <= i < s.len(),
    ensures
        s.take(i + 1).filter(p) == if p(s[i]) {
            s.take(i).filter(p).push(s[i])
        } else {
            s.take(i).filter(p)
        },
{
    reveal(Seq::filter);
    assert(s.take(i + 1).drop_last() =~= s.take(i));
    assert(s.take(i + 1).last() == s[i]);
}

/// When nothing before `i` passes and `s[i]` does, `s[i]` is the first that passes.
pub proof fn lemma_filter_prefix_first<T>(s: Seq<T>, p: spec_fn(T) -> bool, i: int)
    requires
        0 <= i < s.len(),
        s.take(i).filter(p).len() == 0,
        p(s[i]),
    ensures
        s.filter(p).len() > 0,
        s.filter(p)[0] == s[i],
{
    lemma_filter_step(s, p, i);
    assert(s.take(i + 1).filter(p) =~= seq![s[i]]);
    assert(s =~= s.take(i + 1) + s.skip(i + 1));
    assert(s.filter(p) == s.take(i + 1).filter(p) + s.skip(i + 1).filter(p)) by {
        Seq::filter_distributes_over_add(s.take(i + 1), s.skip(i + 1), p);
    }
}

/// Nothing passes the filter when no element passes.
pub proof fn lemma_filter_none<T>(s: Seq<T>, p: spec_fn(T) -> bool)
    requires
        forall|j: int| 0 <= j < s.len() ==> !p(#[trigger] s[j]),
    ensures
        s.filter(p).len() == 0,
    decreases s.len(),
{
    reveal(Seq::filter);
    if s.len() > 0 {
        lemma_filter_none(s.drop_last(), p);
    }
}

/// When `s[k]` passes, some element at or before `k` passes and nothing
/// before it does.
pub proof fn lemma_first_passing<T>(s: Seq<T>, p: spec_fn(T) -> bool, k: int) -> (i0: int)
    requires
        0 <= k < s.len(),
        p(s[k]),
    ensures
        0 <= i0 <= k,
        p(s[i0]),
        s.take(i0).filter(p).len() == 0,
    decreases k,
{
    if exists|j: int| 0 <= j < k && p(#[trigger] s[j]) {
        let j = choose|j: int| 0 <= j < k && p(#[trigger] s[j]);
        lemma_first_passing(s, p, j)
    } else {
        assert forall|j: int| 0 <= j < s.take(k).len() implies !p(#[trigger] s.take(k)[j]) by {
            assert(s.take(k)[j] == s[j]);
        }
        lemma_filter_none(s.take(k), p);
        k
    }
}

pub proof fn lemma_take_all<T>(s: Seq<T>)
    ensures
        s.take(s.len() as int) == s,
{
    assert(s.take(s.len() as int) =~= s);
}

pub proof fn lemma_filter_empty<T>(p: spec_fn(T) -> bool)
    ensures
        Seq::<T>::empty().filter(p) == Seq::<T>::empty(),
{
    reveal(Seq::filter);
    assert(Seq::<T>::empty().filter(p) =~= Seq::<T>::empty());
}

pub proof fn lemma_deref_push<T>(s: Seq<&T>, x: &T)
    ensures
        deref_seq(s.push(x)) == deref_seq(s).push(*x),
{
    assert(deref_seq(s.push(x)) =~= deref_seq(s).push(*x));
}


/// Inserting into a sequence inserts into its multiset.
pub proof fn lemma_insert_multiset<T>(s: Seq<T>, p: int, x: T)
    requires
        0 <= p <= s.len(),
    ensures
        s.insert(p, x).to_multiset() == s.to_multiset().insert(x),
{
    broadcast use vstd::seq_lib::group_to_multiset_ensures;

    let t = s.insert(p, x);
    assert(t.remove(p) =~= s);
    assert(t[p] == x);
    assert(t.to_multiset().remove(x) == s.to_multiset());
    assert(t.contains(x));
    assert(t.to_multiset().count(x) > 0);
    assert(t.to_multiset() =~= s.to_multiset().insert(x));
}

/// Sequences holding the same elements still do after mapping each element.
pub proof fn lemma_map_multiset<A, B>(a: Seq<A>, b: Seq<A>, f: spec_fn(A) -> B)
    requires
        a.to_multiset() == b.to_multiset(),
    ensures
        a.map_values(f).to_multiset() == b.map_values(f).to_multiset(),
    decreases a.len(),
{
    broadcast use vstd::seq_lib::group_to_multiset_ensures;

    if a.len() == 0 {
        assert(b.len() == b.to_multiset().len());
        assert(a.map_values(f) =~= Seq::<B>::empty());
        assert(b.map_values(f) =~= Seq::<B>::empty());
    } else {
        let x = a.last();
        let a0 = a.drop_last();
        assert(a =~= a0.push(x));
        assert(a.to_multiset().count(x) > 0);
        assert(b.contains(x));
        let k = choose|k: int| 0 <= k < b.len() && b[k] == x;
        let b0 = b.remove(k);
        assert(b0.to_multiset() == b.to_multiset().remove(x));
        assert(a0.to_multiset() =~= a.to_multiset().remove(x));
        lemma_map_multiset(a0, b0, f);
        assert(a.map_values(f) =~= a0.map_values(f).push(f(x)));
        assert(b.map_values(f) =~= b0.map_values(f).insert(k, f(x)));
        lemma_insert_multiset(b0.map_values(f), k, f(x));
    }
}

/// Something passes the filter exactly when some element passes the test.
pub proof fn lemma_filter_nonempty<T>(s: Seq<T>, p: spec_fn(T) -> bool)
    ensures
        s.filter(p).len() > 0 <==> exists|i: int| 0 <= i < s.len() && p(s[i]),
    decreases s.len(),
{
    reveal(Seq::filter);
    if s.len() > 0 {
        lemma_filter_nonempty(s.drop_last(), p);
        if exists|i: int| 0 <= i < s.len() && p(s[i]) {
            let i = choose|i: int| 0 <= i < s.len() && p(s[i]);
            if i < s.len() - 1 {
                assert(s.drop_last()[i] == s[i]);
            }
        }
        if exists|i: int| 0 <= i < s.drop_last().len() && p(s.drop_last()[i]) {
            let i = choose|i: int| 0 <= i < s.drop_last().len() && p(s.drop_last()[i]);
            assert(s[i] == s.drop_last()[i]);
        }
    }
}

} // verus!
