//! Small in-memory maps whose keys are made of texts: a vector of entries
//! in which no key occurs twice. vstd's `HashMap` and `BTreeMap`
//! specifications need keys whose hashing or order vstd specifies, which it
//! does not for `String` or for structs of texts; so these maps are kept
//! here, where lookups after each change are proved.
use vstd::prelude::*;

use crate::static_routes::opt_view;
use crate::text::text_eq;

verus! {

/// The texts a key is made of, each present or absent.
pub type KeyText = Seq<Option<Seq<char>>>;

/// A key that is compared by the texts it is made of.
pub trait LookupKey: Sized {
    spec fn key_view(&self) -> KeyText;

    fn same_key(&self, other: &Self) -> (r: bool)
        ensures
            r == (self.key_view() == other.key_view()),
    ;

    fn copy_key(&self) -> (r: Self)
        ensures
            r.key_view() == self.key_view(),
    ;
}

/// Whether two optional texts are equal.
pub fn opt_text_eq(a: &Option<String>, b: &Option<String>) -> (r: bool)
    ensures
        r == (opt_view(*a) == opt_view(*b)),
{
    match (a, b) {
        (Some(x), Some(y)) => text_eq(x.as_str(), y.as_str()),
        (None, None) => true,
        _ => false,
    }
}

/// A copy of an optional text.
pub fn copy_opt_text(a: &Option<String>) -> (r: Option<String>)
    ensures
        opt_view(r) == opt_view(*a),
{
    match a {
        Some(x) => Some(x.clone()),
        None => None,
    }
}

impl LookupKey for String {
    open spec fn key_view(&self) -> KeyText {
        seq![Some(self@)]
    }

    fn same_key(&self, other: &Self) -> (r: bool) {
        let r = text_eq(self.as_str(), other.as_str());
        proof {
            if !r {
                assert(self.key_view()[0] != other.key_view()[0]);
            } else {
                assert(self.key_view() =~= other.key_view());
            }
        }
        r
    }

    fn copy_key(&self) -> (r: Self) {
        let r = self.clone();
        proof {
            assert(r.key_view() =~= self.key_view());
        }
        r
    }
}

/// No key occurs twice.
pub open spec fn keys_unique<K: LookupKey, V>(s: Seq<(K, V)>) -> bool {
    forall|i: int, j: int|
        0 <= i < s.len() && 0 <= j < s.len() && i != j ==> #[trigger] s[i].0.key_view()
            != #[trigger] s[j].0.key_view()
}

/// Some entry has key `k`.
pub open spec fn has_key<K: LookupKey, V>(s: Seq<(K, V)>, k: KeyText) -> bool {
    exists|i: int| 0 <= i < s.len() && #[trigger] s[i].0.key_view() == k
}

/// The value of the entry with key `k`.
pub open spec fn index_lookup<K: LookupKey, V>(s: Seq<(K, V)>, k: KeyText) -> Option<V> {
    if has_key(s, k) {
        Some(s[choose|i: int| 0 <= i < s.len() && #[trigger] s[i].0.key_view() == k].1)
    } else {
        None
    }
}

/// An entry's value is what its key looks up.
pub proof fn lemma_lookup_entry<K: LookupKey, V>(s: Seq<(K, V)>, i: int)
    requires
        keys_unique(s),
        0 <= i < s.len(),
    ensures
        index_lookup(s, s[i].0.key_view()) == Some(s[i].1),
{
    let k = s[i].0.key_view();
    assert(has_key(s, k));
    let j = choose|j: int| 0 <= j < s.len() && #[trigger] s[j].0.key_view() == k;
    if j != i {
        assert(s[i].0.key_view() != s[j].0.key_view());
    }
}

/// A key that looks up a value belongs to an entry holding that value.
pub proof fn lemma_lookup_found<K: LookupKey, V>(s: Seq<(K, V)>, k: KeyText)
    requires
        index_lookup(s, k) is Some,
    ensures
        exists|i: int|
            0 <= i < s.len() && #[trigger] s[i].0.key_view() == k && index_lookup(s, k) == Some(
                s[i].1,
            ),
{
    let j = choose|j: int| 0 <= j < s.len() && #[trigger] s[j].0.key_view() == k;
    assert(s[j].0.key_view() == k);
}

/// The position of the entry with key `k`.
fn position_in<K: LookupKey, V>(entries: &Vec<(K, V)>, k: &K) -> (r: Option<usize>)
    ensures
        match r {
            Some(i) => i < entries@.len() && entries@[i as int].0.key_view()
                == k.key_view(),
            None => !has_key(entries@, k.key_view()),
        },
{
    let mut i: usize = 0;
    while i < entries.len()
        invariant
            i <= entries@.len(),
            forall|j: int| 0 <= j < i ==> #[trigger] entries@[j].0.key_view() != k.key_view(),
        decreases entries@.len() - i,
    {
        if entries[i].0.same_key(k) {
            return Some(i);
        }
        i += 1;
    }
    None
}

/// Entries held in a vector, no key twice.
pub struct KeyedIndex<K: LookupKey, V> {
    entries: Vec<(K, V)>,
}

impl<K: LookupKey, V> KeyedIndex<K, V> {
    /// The entries, in the order they were added.
    pub closed spec fn entry_seq(&self) -> Seq<(K, V)> {
        self.entries@
    }

    /// The value kept for key `k`.
    pub open spec fn lookup(&self, k: KeyText) -> Option<V> {
        index_lookup(self.entry_seq(), k)
    }

    /// The keys present.
    pub open spec fn key_set(&self) -> Set<KeyText> {
        Set::new(|k: KeyText| self.lookup(k) is Some)
    }

    #[verifier::type_invariant]
    closed spec fn unique(&self) -> bool {
        keys_unique(self.entries@)
    }

    /// An empty index.
    pub fn new() -> (r: Self)
        ensures
            forall|k: KeyText| #[trigger] r.lookup(k) is None,
            r.entry_seq().len() == 0,
    {
        KeyedIndex { entries: Vec::new() }
    }

    /// The value kept for `k`.
    pub fn get(&self, k: &K) -> (r: Option<&V>)
        ensures
            match r {
                Some(v) => self.lookup(k.key_view()) == Some(*v),
                None => self.lookup(k.key_view()) is None,
            },
    {
        proof {
            use_type_invariant(self);
        }
        match position_in(&self.entries, k) {
            Some(i) => {
                proof {
                    lemma_lookup_entry(self.entries@, i as int);
                }
                Some(&self.entries[i].1)
            },
            None => None,
        }
    }

    /// The number of entries.
    pub fn len(&self) -> (r: usize)
        ensures
            r == self.entry_seq().len(),
            keys_unique(self.entry_seq()),
    {
        proof {
            use_type_invariant(self);
        }
        self.entries.len()
    }

    /// The entry at position `i`; no key occurs twice among the entries.
    pub fn entry_at(&self, i: usize) -> (r: &(K, V))
        requires
            i < self.entry_seq().len(),
        ensures
            *r == self.entry_seq()[i as int],
            keys_unique(self.entry_seq()),
    {
        proof {
            use_type_invariant(self);
        }
        &self.entries[i]
    }

    /// The number of keys present.
    pub fn key_count(&self) -> (r: usize)
        ensures
            r == self.key_set().len(),
            self.key_set().finite(),
    {
        proof {
            use_type_invariant(self);
            let keys = self.entries@.map_values(|e: (K, V)| e.0.key_view());
            assert(keys.no_duplicates()) by {
                assert forall|i: int, j: int|
                    0 <= i < keys.len() && 0 <= j < keys.len() && i != j implies keys[i]
                    != keys[j] by {
                    assert(self.entries@[i].0.key_view() != self.entries@[j].0.key_view());
                }
            }
            keys.unique_seq_to_set();
            assert(keys.to_set() =~= self.key_set()) by {
                assert forall|k: KeyText| keys.to_set().contains(k) implies self.key_set().contains(
                    k,
                ) by {
                    let i = choose|i: int| 0 <= i < keys.len() && keys[i] == k;
                    assert(self.entries@[i].0.key_view() == k);
                }
                assert forall|k: KeyText| self.key_set().contains(k) implies keys.to_set().contains(
                    k,
                ) by {
                    lemma_lookup_found(self.entries@, k);
                    let i = choose|i: int|
                        0 <= i < self.entries@.len() && #[trigger] self.entries@[i].0.key_view()
                            == k && index_lookup(self.entries@, k) == Some(self.entries@[i].1);
                    assert(keys[i] == k);
                }
            }
        }
        self.entries.len()
    }

    /// Keeps `v` under `k`, in place of any value `k` had.
    pub fn insert(&mut self, k: K, v: V)
        ensures
            forall|q: KeyText| #[trigger]
                final(self).lookup(q) == if q == k.key_view() {
                    Some(v)
                } else {
                    old(self).lookup(q)
                },
    {
        proof {
            use_type_invariant(&*self);
        }
        let ghost s0 = self.entries@;
        let ghost kv = k.key_view();
        let ghost e = (k, v);
        let mut entries: Vec<(K, V)> = Vec::new();
        std::mem::swap(&mut entries, &mut self.entries);
        match position_in(&entries, &k) {
            Some(i) => {
                let ghost s1 = s0.update(i as int, e);
                entries.set(i, (k, v));
                proof {
                    assert(entries@ == s1);
                    assert forall|a: int, b: int|
                        0 <= a < s1.len() && 0 <= b < s1.len() && a != b implies #[trigger] s1[a].0.key_view()
                        != #[trigger] s1[b].0.key_view() by {
                        if a != i && b != i {
                            assert(s0[a].0.key_view() != s0[b].0.key_view());
                        } else if a == i {
                            assert(s0[i as int].0.key_view() != s0[b].0.key_view());
                        } else {
                            assert(s0[a].0.key_view() != s0[i as int].0.key_view());
                        }
                    }
                    assert forall|q: KeyText| #[trigger]
                        index_lookup(s1, q) == if q == kv {
                            Some(v)
                        } else {
                            index_lookup(s0, q)
                        } by {
                        if q == kv {
                            lemma_lookup_entry(s1, i as int);
                        } else {
                            if has_key(s1, q) {
                                let j = choose|j: int|
                                    0 <= j < s1.len() && #[trigger] s1[j].0.key_view() == q;
                                assert(j != i);
                                assert(s0[j] == s1[j]);
                                lemma_lookup_entry(s1, j);
                                lemma_lookup_entry(s0, j);
                            } else {
                                assert forall|j: int| 0 <= j < s0.len() implies #[trigger] s0[j].0.key_view()
                                    != q by {
                                    if j != i {
                                        assert(s1[j] == s0[j]);
                                    }
                                }
                            }
                        }
                    }
                }
            },
            None => {
                let ghost s1 = s0.push(e);
                entries.push((k, v));
                proof {
                    assert(entries@ == s1);
                    assert forall|a: int, b: int|
                        0 <= a < s1.len() && 0 <= b < s1.len() && a != b implies #[trigger] s1[a].0.key_view()
                        != #[trigger] s1[b].0.key_view() by {
                        if a < s0.len() && b < s0.len() {
                            assert(s0[a].0.key_view() != s0[b].0.key_view());
                        } else if a < s0.len() {
                            assert(s1[a] == s0[a]);
                        } else {
                            assert(s1[b] == s0[b]);
                        }
                    }
                    assert forall|q: KeyText| #[trigger]
                        index_lookup(s1, q) == if q == kv {
                            Some(v)
                        } else {
                            index_lookup(s0, q)
                        } by {
                        if q == kv {
                            lemma_lookup_entry(s1, s0.len() as int);
                        } else {
                            if has_key(s1, q) {
                                let j = choose|j: int|
                                    0 <= j < s1.len() && #[trigger] s1[j].0.key_view() == q;
                                assert(j < s0.len());
                                assert(s0[j] == s1[j]);
                                lemma_lookup_entry(s1, j);
                                lemma_lookup_entry(s0, j);
                            } else {
                                assert forall|j: int| 0 <= j < s0.len() implies #[trigger] s0[j].0.key_view()
                                    != q by {
                                    assert(s1[j] == s0[j]);
                                }
                            }
                        }
                    }
                }
            },
        }
        self.entries = entries;
    }

    /// Takes out the entry of `k`, giving its value.
    pub fn remove(&mut self, k: &K) -> (r: Option<V>)
        ensures
            r == old(self).lookup(k.key_view()),
            forall|q: KeyText| #[trigger]
                final(self).lookup(q) == if q == k.key_view() {
                    None
                } else {
                    old(self).lookup(q)
                },
    {
        proof {
            use_type_invariant(&*self);
        }
        let ghost s0 = self.entries@;
        let ghost kv = k.key_view();
        let mut entries: Vec<(K, V)> = Vec::new();
        std::mem::swap(&mut entries, &mut self.entries);
        match position_in(&entries, k) {
            Some(i) => {
                proof {
                    lemma_lookup_entry(s0, i as int);
                }
                let ghost s1 = s0.remove(i as int);
                let (_, v) = entries.remove(i);
                proof {
                    assert(entries@ == s1);
                    assert forall|a: int, b: int|
                        0 <= a < s1.len() && 0 <= b < s1.len() && a != b implies #[trigger] s1[a].0.key_view()
                        != #[trigger] s1[b].0.key_view() by {
                        let a0 = if a < i { a } else { a + 1 };
                        let b0 = if b < i { b } else { b + 1 };
                        assert(s1[a] == s0[a0] && s1[b] == s0[b0]);
                        assert(s0[a0].0.key_view() != s0[b0].0.key_view());
                    }
                    assert forall|q: KeyText| #[trigger]
                        index_lookup(s1, q) == if q == kv {
                            None
                        } else {
                            index_lookup(s0, q)
                        } by {
                        if has_key(s1, q) {
                            let j = choose|j: int|
                                0 <= j < s1.len() && #[trigger] s1[j].0.key_view() == q;
                            let j0 = if j < i { j } else { j + 1 };
                            assert(s1[j] == s0[j0]);
                            assert(j0 != i);
                            assert(s0[j0].0.key_view() != s0[i as int].0.key_view());
                            lemma_lookup_entry(s1, j);
                            lemma_lookup_entry(s0, j0);
                        } else if q != kv {
                            assert forall|j: int| 0 <= j < s0.len() implies #[trigger] s0[j].0.key_view()
                                != q by {
                                if j < i {
                                    assert(s1[j] == s0[j]);
                                } else if j > i {
                                    assert(s1[j - 1] == s0[j]);
                                }
                            }
                        }
                    }
                }
                self.entries = entries;
                Some(v)
            },
            None => {
                self.entries = entries;
                None
            },
        }
    }

    /// Empties the index.
    pub fn clear(&mut self)
        ensures
            forall|q: KeyText| #[trigger] final(self).lookup(q) is None,
    {
        self.entries = Vec::new();
    }
}

impl<K: LookupKey> KeyedIndex<K, String> {
    /// Takes out every entry whose value is `v`.
    pub fn remove_value(&mut self, v: &str)
        ensures
            forall|q: KeyText| #[trigger]
                final(self).lookup(q) == match old(self).lookup(q) {
                    Some(x) => if x@ == v@ {
                        None
                    } else {
                        Some(x)
                    },
                    None => None,
                },
    {
        proof {
            use_type_invariant(&*self);
        }
        let ghost s0 = self.entries@;
        let mut rest: Vec<(K, String)> = Vec::new();
        std::mem::swap(&mut rest, &mut self.entries);
        let mut kept: Vec<(K, String)> = Vec::new();
        let ghost mut from: Seq<int> = Seq::empty();
        let n = rest.len();
        let mut i: usize = 0;
        while i < n
            invariant
                n == s0.len(),
                i <= n,
                rest@ == s0.skip(i as int),
                keys_unique(s0),
                from.len() == kept@.len(),
                forall|a: int| 0 <= a < from.len() ==> 0 <= #[trigger] from[a] < i,
                forall|a: int, b: int| 0 <= a < b < from.len() ==> #[trigger] from[a] < #[trigger] from[b],
                forall|a: int| 0 <= a < from.len() ==> kept@[a] == s0[#[trigger] from[a]],
                forall|a: int| 0 <= a < from.len() ==> kept@[a].1@ != v@,
                forall|j: int|
                    0 <= j < i && #[trigger] s0[j].1@ != v@ ==> exists|a: int|
                        0 <= a < from.len() && from[a] == j,
            decreases n - i,
        {
            let ghost from_before = from;
            let e = rest.remove(0);
            assert(e == s0[i as int]);
            assert(rest@ =~= s0.skip(i + 1));
            if !text_eq(e.1.as_str(), v) {
                proof {
                    from = from.push(i as int);
                }
                kept.push(e);
            }
            proof {
                assert forall|j: int|
                    0 <= j < i + 1 && #[trigger] s0[j].1@ != v@ implies exists|a: int|
                    0 <= a < from.len() && from[a] == j by {
                    if j == i {
                        assert(from[from.len() - 1] == j);
                    } else {
                        let a = choose|a: int| 0 <= a < from_before.len() && from_before[a] == j;
                        assert(from[a] == from_before[a]);
                    }
                }
            }
            i += 1;
        }
        let ghost s1 = kept@;
        proof {
            assert forall|a: int, b: int|
                0 <= a < s1.len() && 0 <= b < s1.len() && a != b implies #[trigger] s1[a].0.key_view()
                != #[trigger] s1[b].0.key_view() by {
                assert(s1[a] == s0[from[a]] && s1[b] == s0[from[b]]);
                if a < b {
                    assert(from[a] < from[b]);
                } else {
                    assert(from[b] < from[a]);
                }
            }
            assert forall|q: KeyText| #[trigger]
                index_lookup(s1, q) == match index_lookup(s0, q) {
                    Some(x) => if x@ == v@ {
                        None
                    } else {
                        Some(x)
                    },
                    None => None,
                } by {
                if has_key(s1, q) {
                    let a = choose|a: int| 0 <= a < s1.len() && #[trigger] s1[a].0.key_view() == q;
                    assert(s1[a] == s0[from[a]]);
                    lemma_lookup_entry(s1, a);
                    lemma_lookup_entry(s0, from[a]);
                } else if has_key(s0, q) {
                    let j = choose|j: int| 0 <= j < s0.len() && #[trigger] s0[j].0.key_view() == q;
                    lemma_lookup_entry(s0, j);
                    if s0[j].1@ != v@ {
                        let a = choose|a: int| 0 <= a < from.len() && from[a] == j;
                        assert(s1[a] == s0[j]);
                        assert(s1[a].0.key_view() == q);
                    }
                }
            }
        }
        self.entries = kept;
    }
}

} // verus!
