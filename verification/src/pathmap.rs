//! An ordered map keyed by `RelPath`, compared by normalized form.
//!
//! The entries are kept in a vector sorted strictly by key, so iteration
//! visits them in key order, as an ordered map would. Inserting a key that
//! is already present replaces the value and keeps the stored key.
use vstd::prelude::*;

use crate::path::RelPath;
use crate::text::{
    compare_chars, lemma_seq_lt_asymmetric, lemma_seq_lt_irreflexive, lemma_seq_lt_total,
    lemma_seq_lt_transitive, seq_lt, KeyOrder,
};

verus! {

/// The keys of `s` increase strictly.
pub open spec fn sorted_entries<V>(s: Seq<(RelPath, V)>) -> bool {
    forall|i: int, j: int| 0 <= i < j < s.len() ==> seq_lt(#[trigger] s[i].0.key(), #[trigger] s[j].0.key())
}

/// The index of the first entry of `s` whose key is `k`, or -1.
pub open spec fn index_of_key<V>(s: Seq<(RelPath, V)>, k: Seq<char>) -> int
    decreases s.len(),
{
    if s.len() == 0 {
        -1
    } else if s[0].0.key() == k {
        0
    } else {
        let r = index_of_key(s.drop_first(), k);
        if r < 0 {
            -1
        } else {
            r + 1
        }
    }
}

/// The value stored under `k`, if any.
pub open spec fn lookup<V>(s: Seq<(RelPath, V)>, k: Seq<char>) -> Option<V> {
    let i = index_of_key(s, k);
    if i < 0 {
        None
    } else {
        Some(s[i].1)
    }
}

/// Whether `k` is a key of `s`.
pub open spec fn has_key<V>(s: Seq<(RelPath, V)>, k: Seq<char>) -> bool {
    index_of_key(s, k) >= 0
}

/// The key that the entry for `k` is stored under, when `s` has one.
pub open spec fn stored_key<V>(s: Seq<(RelPath, V)>, k: Seq<char>) -> RelPath {
    s[index_of_key(s, k)].0
}

/// The number of leading entries of `s` whose key is below `k`.
pub open spec fn lower_bound<V>(s: Seq<(RelPath, V)>, k: Seq<char>) -> int
    decreases s.len(),
{
    if s.len() == 0 {
        0
    } else if seq_lt(s[0].0.key(), k) {
        1 + lower_bound(s.drop_first(), k)
    } else {
        0
    }
}

/// `s` after inserting `v` under `key`: an existing entry with the same key
/// keeps its stored key and takes the new value; otherwise the entry goes
/// in key order.
pub open spec fn insert_entry<V>(s: Seq<(RelPath, V)>, key: RelPath, v: V) -> Seq<(RelPath, V)> {
    let i = index_of_key(s, key.key());
    if i >= 0 {
        s.update(i, (s[i].0, v))
    } else {
        s.insert(lower_bound(s, key.key()), (key, v))
    }
}

/// `s` without the entry whose key is `k`.
pub open spec fn remove_entry<V>(s: Seq<(RelPath, V)>, k: Seq<char>) -> Seq<(RelPath, V)> {
    let i = index_of_key(s, k);
    if i >= 0 {
        s.remove(i)
    } else {
        s
    }
}

pub proof fn lemma_index_of_key_bounds<V>(s: Seq<(RelPath, V)>, k: Seq<char>)
    ensures
        -1 <= index_of_key(s, k) < s.len(),
        index_of_key(s, k) >= 0 ==> s[index_of_key(s, k)].0.key() == k,
        forall|j: int| 0 <= j < index_of_key(s, k) ==> s[j].0.key() != k,
        index_of_key(s, k) < 0 ==> forall|j: int| 0 <= j < s.len() ==> s[j].0.key() != k,
    decreases s.len(),
{
    if s.len() > 0 && s[0].0.key() != k {
        lemma_index_of_key_bounds(s.drop_first(), k);
        assert forall|j: int| 0 < j < s.len() implies s[j] == s.drop_first()[j - 1] by {}
    }
}

/// In a sorted sequence, the entry with key `k` is the only one.
pub proof fn lemma_sorted_index<V>(s: Seq<(RelPath, V)>, i: int, k: Seq<char>)
    requires
        sorted_entries(s),
        0 <= i < s.len(),
        s[i].0.key() == k,
    ensures
        index_of_key(s, k) == i,
{
    lemma_index_of_key_bounds(s, k);
    let r = index_of_key(s, k);
    if r != i {
        if r < i {
            assert(seq_lt(s[r].0.key(), s[i].0.key()));
        } else if r > i {
            assert(seq_lt(s[i].0.key(), s[r].0.key()));
        }
        lemma_seq_lt_irreflexive(k);
    }
}

pub proof fn lemma_sorted_drop_first<V>(s: Seq<(RelPath, V)>)
    requires
        sorted_entries(s),
        s.len() > 0,
    ensures
        sorted_entries(s.drop_first()),
{
    assert forall|i: int, j: int| 0 <= i < j < s.drop_first().len() implies seq_lt(
        #[trigger] s.drop_first()[i].0.key(),
        #[trigger] s.drop_first()[j].0.key(),
    ) by {
        assert(s.drop_first()[i] == s[i + 1]);
        assert(s.drop_first()[j] == s[j + 1]);
    }
}

/// The lower bound splits a sorted sequence into keys below `k` and keys not below it.
pub proof fn lemma_lower_bound<V>(s: Seq<(RelPath, V)>, k: Seq<char>)
    requires
        sorted_entries(s),
    ensures
        0 <= lower_bound(s, k) <= s.len(),
        forall|j: int| 0 <= j < lower_bound(s, k) ==> seq_lt(#[trigger] s[j].0.key(), k),
        forall|j: int| lower_bound(s, k) <= j < s.len() ==> !seq_lt(#[trigger] s[j].0.key(), k),
    decreases s.len(),
{
    if s.len() > 0 {
        if seq_lt(s[0].0.key(), k) {
            lemma_sorted_drop_first(s);
            lemma_lower_bound(s.drop_first(), k);
            assert forall|j: int| 0 < j < s.len() implies s[j] == s.drop_first()[j - 1] by {}
        } else {
            assert forall|j: int| 0 <= j < s.len() implies !seq_lt(#[trigger] s[j].0.key(), k) by {
                if j > 0 && seq_lt(s[j].0.key(), k) {
                    assert(seq_lt(s[0].0.key(), s[j].0.key()));
                    lemma_seq_lt_transitive(s[0].0.key(), s[j].0.key(), k);
                }
            }
        }
    }
}

/// The set of keys and the value at each key decide a sorted sequence.
pub proof fn lemma_insert_sorted<V>(s: Seq<(RelPath, V)>, key: RelPath, v: V)
    requires
        sorted_entries(s),
    ensures
        sorted_entries(insert_entry(s, key, v)),
        insert_entry(s, key, v).len() == if has_key(s, key.key()) {
            s.len()
        } else {
            s.len() + 1
        },
        index_of_key(insert_entry(s, key, v), key.key()) >= 0,
        lookup(insert_entry(s, key, v), key.key()) == Some(v),
        forall|k: Seq<char>| k != key.key() ==> #[trigger] lookup(insert_entry(s, key, v), k) == lookup(s, k),
        forall|k: Seq<char>| #[trigger] has_key(insert_entry(s, key, v), k) <==> (has_key(s, k) || k == key.key()),
        stored_key(insert_entry(s, key, v), key.key()) == if has_key(s, key.key()) {
            stored_key(s, key.key())
        } else {
            key
        },
        forall|k: Seq<char>|
            k != key.key() && has_key(s, k) ==> #[trigger] stored_key(insert_entry(s, key, v), k) == stored_key(s, k),
{
    let k = key.key();
    let i = index_of_key(s, k);
    lemma_index_of_key_bounds(s, k);
    let r = insert_entry(s, key, v);
    if i >= 0 {
        assert forall|a: int, b: int| 0 <= a < b < r.len() implies seq_lt(
            #[trigger] r[a].0.key(),
            #[trigger] r[b].0.key(),
        ) by {
            assert(r[a].0 == s[a].0);
            assert(r[b].0 == s[b].0);
        }
        lemma_sorted_index(r, i, k);
        assert forall|k2: Seq<char>| k2 != k implies #[trigger] lookup(r, k2) == lookup(s, k2) && (has_key(s, k2)
            ==> stored_key(r, k2) == stored_key(s, k2)) by {
            lemma_index_of_key_bounds(s, k2);
            let j = index_of_key(s, k2);
            if j >= 0 {
                assert(r[j].0 == s[j].0);
                lemma_sorted_index(r, j, k2);
            } else {
                lemma_index_of_key_bounds(r, k2);
                let j2 = index_of_key(r, k2);
                if j2 >= 0 {
                    assert(r[j2].0 == s[j2].0);
                }
            }
        }
        assert forall|k2: Seq<char>| #[trigger] has_key(r, k2) <==> (has_key(s, k2) || k2 == k) by {
            lemma_index_of_key_bounds(s, k2);
            lemma_index_of_key_bounds(r, k2);
            let j = index_of_key(s, k2);
            let j2 = index_of_key(r, k2);
            if j >= 0 {
                assert(r[j].0 == s[j].0);
            }
            if j2 >= 0 {
                assert(r[j2].0 == s[j2].0);
            }
        }
    } else {
        let p = lower_bound(s, k);
        lemma_lower_bound(s, k);
        assert(r == s.insert(p, (key, v)));
        assert forall|j: int| p <= j < s.len() implies seq_lt(k, #[trigger] s[j].0.key()) by {
            lemma_seq_lt_total(k, s[j].0.key());
        }
        assert forall|a: int, b: int| 0 <= a < b < r.len() implies seq_lt(
            #[trigger] r[a].0.key(),
            #[trigger] r[b].0.key(),
        ) by {
            if b < p {
                assert(r[a] == s[a] && r[b] == s[b]);
            } else if b == p {
                assert(r[a] == s[a]);
            } else if a < p {
                assert(r[a] == s[a] && r[b] == s[b - 1]);
                lemma_seq_lt_transitive(s[a].0.key(), k, s[b - 1].0.key());
            } else if a == p {
                assert(r[b] == s[b - 1]);
            } else {
                assert(r[a] == s[a - 1] && r[b] == s[b - 1]);
            }
        }
        lemma_sorted_index(r, p, k);
        assert forall|k2: Seq<char>| k2 != k implies #[trigger] lookup(r, k2) == lookup(s, k2) && (has_key(s, k2)
            ==> stored_key(r, k2) == stored_key(s, k2)) by {
            lemma_index_of_key_bounds(s, k2);
            lemma_index_of_key_bounds(r, k2);
            let j = index_of_key(s, k2);
            let j2 = index_of_key(r, k2);
            if j >= 0 {
                let jj = if j < p { j } else { j + 1 };
                assert(r[jj] == s[j]);
                lemma_sorted_index(r, jj, k2);
            } else if j2 >= 0 {
                if j2 < p {
                    assert(r[j2] == s[j2]);
                } else if j2 > p {
                    assert(r[j2] == s[j2 - 1]);
                }
            }
        }
        assert forall|k2: Seq<char>| #[trigger] has_key(r, k2) <==> (has_key(s, k2) || k2 == k) by {
            lemma_index_of_key_bounds(s, k2);
            lemma_index_of_key_bounds(r, k2);
            let j = index_of_key(s, k2);
            let j2 = index_of_key(r, k2);
            if j >= 0 {
                let jj = if j < p { j } else { j + 1 };
                assert(r[jj] == s[j]);
            }
            if j2 >= 0 {
                if j2 < p {
                    assert(r[j2] == s[j2]);
                } else if j2 > p {
                    assert(r[j2] == s[j2 - 1]);
                }
            }
        }
    }
    assert forall|k2: Seq<char>| k2 != k && has_key(s, k2) implies #[trigger] stored_key(r, k2) == stored_key(s, k2) by {
        assert(lookup(r, k2) == lookup(s, k2));
    }
}

/// Removing an entry keeps a sequence sorted.
pub proof fn lemma_remove_sorted<V>(s: Seq<(RelPath, V)>, k: Seq<char>)
    requires
        sorted_entries(s),
    ensures
        sorted_entries(remove_entry(s, k)),
        !has_key(remove_entry(s, k), k),
        forall|k2: Seq<char>| k2 != k ==> #[trigger] lookup(remove_entry(s, k), k2) == lookup(s, k2),
{
    let i = index_of_key(s, k);
    lemma_index_of_key_bounds(s, k);
    let r = remove_entry(s, k);
    if i >= 0 {
        assert forall|a: int, b: int| 0 <= a < b < r.len() implies seq_lt(
            #[trigger] r[a].0.key(),
            #[trigger] r[b].0.key(),
        ) by {
            let aa = if a < i { a } else { a + 1 };
            let bb = if b < i { b } else { b + 1 };
            assert(r[a] == s[aa] && r[b] == s[bb]);
        }
        lemma_index_of_key_bounds(r, k);
        let j = index_of_key(r, k);
        if j >= 0 {
            let jj = if j < i { j } else { j + 1 };
            assert(r[j] == s[jj]);
            lemma_sorted_index(s, jj, k);
        }
        assert forall|k2: Seq<char>| k2 != k implies #[trigger] lookup(r, k2) == lookup(s, k2) by {
            lemma_index_of_key_bounds(s, k2);
            lemma_index_of_key_bounds(r, k2);
            let j1 = index_of_key(s, k2);
            let j2 = index_of_key(r, k2);
            if j1 >= 0 {
                let jj = if j1 < i { j1 } else { j1 - 1 };
                assert(r[jj] == s[j1]);
                lemma_sorted_index(r, jj, k2);
            } else if j2 >= 0 {
                let jj = if j2 < i { j2 } else { j2 + 1 };
                assert(r[j2] == s[jj]);
            }
        }
    }
}

/// Inserting a key above every key of a sorted sequence appends it.
pub proof fn lemma_insert_greatest<V>(s: Seq<(RelPath, V)>, key: RelPath, v: V)
    requires
        sorted_entries(s),
        forall|j: int| 0 <= j < s.len() ==> seq_lt(#[trigger] s[j].0.key(), key.key()),
    ensures
        insert_entry(s, key, v) == s.push((key, v)),
{
    let k = key.key();
    lemma_index_of_key_bounds(s, k);
    lemma_seq_lt_irreflexive(k);
    lemma_lower_bound(s, k);
    if lower_bound(s, k) < s.len() {
        assert(!seq_lt(s[lower_bound(s, k)].0.key(), k));
    }
    assert(s.insert(s.len() as int, (key, v)) =~= s.push((key, v)));
}

pub proof fn lemma_sorted_drop_last<V>(s: Seq<(RelPath, V)>)
    requires
        sorted_entries(s),
        s.len() > 0,
    ensures
        sorted_entries(s.drop_last()),
{
    assert forall|i: int, j: int| 0 <= i < j < s.drop_last().len() implies seq_lt(
        #[trigger] s.drop_last()[i].0.key(),
        #[trigger] s.drop_last()[j].0.key(),
    ) by {
        assert(s.drop_last()[i] == s[i]);
        assert(s.drop_last()[j] == s[j]);
    }
}

/// Two sorted sequences holding the same entries are the same sequence.
pub proof fn lemma_sorted_same_entries<V>(s: Seq<(RelPath, V)>, t: Seq<(RelPath, V)>)
    requires
        sorted_entries(s),
        sorted_entries(t),
        forall|x: (RelPath, V)| #[trigger] s.contains(x) <==> t.contains(x),
    ensures
        s == t,
    decreases s.len(),
{
    if s.len() == 0 {
        if t.len() > 0 {
            assert(t.contains(t[0]));
            assert(s.contains(t[0]));
        }
        assert(s =~= t);
    } else {
        assert(s.contains(s[0]));
        assert(t.contains(s[0]));
        let j = choose|j: int| 0 <= j < t.len() && t[j] == s[0];
        assert(t.contains(t[0]));
        assert(s.contains(t[0]));
        let i = choose|i: int| 0 <= i < s.len() && s[i] == t[0];
        if j > 0 {
            assert(seq_lt(t[0].0.key(), t[j].0.key()));
            if i == 0 {
                lemma_seq_lt_irreflexive(s[0].0.key());
            } else {
                assert(seq_lt(s[0].0.key(), s[i].0.key()));
                lemma_seq_lt_asymmetric(s[0].0.key(), s[i].0.key());
            }
        }
        assert(s[0] == t[0]);
        let s1 = s.drop_first();
        let t1 = t.drop_first();
        lemma_sorted_drop_first(s);
        lemma_sorted_drop_first(t);
        assert forall|x: (RelPath, V)| #[trigger] s1.contains(x) <==> t1.contains(x) by {
            if s1.contains(x) {
                let a = choose|a: int| 0 <= a < s1.len() && s1[a] == x;
                assert(s[a + 1] == x);
                assert(seq_lt(s[0].0.key(), x.0.key()));
                lemma_seq_lt_irreflexive(x.0.key());
                assert(s.contains(x));
                assert(t.contains(x));
                let b = choose|b: int| 0 <= b < t.len() && t[b] == x;
                assert(b != 0);
                assert(t1[b - 1] == x);
            }
            if t1.contains(x) {
                let a = choose|a: int| 0 <= a < t1.len() && t1[a] == x;
                assert(t[a + 1] == x);
                assert(seq_lt(t[0].0.key(), x.0.key()));
                lemma_seq_lt_irreflexive(x.0.key());
                assert(t.contains(x));
                assert(s.contains(x));
                let b = choose|b: int| 0 <= b < s.len() && s[b] == x;
                assert(b != 0);
                assert(s1[b - 1] == x);
            }
        }
        lemma_sorted_same_entries(s1, t1);
        assert(s =~= seq![s[0]] + s1);
        assert(t =~= seq![t[0]] + t1);
    }
}

/// An ordered map from paths (by normalized form) to values.
#[derive(Debug)]
pub struct PathMap<V> {
    items: Vec<(RelPath, V)>,
}

impl<V> View for PathMap<V> {
    type V = Seq<(RelPath, V)>;

    closed spec fn view(&self) -> Seq<(RelPath, V)> {
        self.items@
    }
}

impl<V> PathMap<V> {
    #[verifier::type_invariant]
    spec fn inv(self) -> bool {
        sorted_entries(self.items@)
    }

    pub fn new() -> (m: Self)
        ensures
            m@ == Seq::<(RelPath, V)>::empty(),
    {
        PathMap { items: Vec::new() }
    }

    pub fn len(&self) -> (n: usize)
        ensures
            n == self@.len(),
    {
        self.items.len()
    }

    pub fn is_empty(&self) -> (b: bool)
        ensures
            b == (self@.len() == 0),
    {
        self.items.len() == 0
    }

    /// The entries in key order.
    pub fn entries(&self) -> (r: &Vec<(RelPath, V)>)
        ensures
            r@ == self@,
            sorted_entries(self@),
    {
        proof {
            use_type_invariant(self);
        }
        &self.items
    }

    /// The position of the entry whose key is that of `key`.
    pub fn find(&self, key: &RelPath) -> (r: Option<usize>)
        ensures
            match r {
                Some(i) => i == index_of_key(self@, key.key()),
                None => index_of_key(self@, key.key()) == -1,
            },
    {
        proof {
            use_type_invariant(self);
            lemma_index_of_key_bounds(self@, key.key());
        }
        let k = key.key_chars();
        let mut lo: usize = 0;
        let mut hi: usize = self.items.len();
        while lo < hi
            invariant
                lo <= hi <= self.items@.len(),
                k@ == key.key(),
                sorted_entries(self.items@),
                forall|j: int| 0 <= j < lo ==> seq_lt(#[trigger] self.items@[j].0.key(), k@),
                forall|j: int| hi <= j < self.items@.len() ==> seq_lt(k@, #[trigger] self.items@[j].0.key()),
            decreases hi - lo,
        {
            let mid = lo + (hi - lo) / 2;
            let mk = self.items[mid].0.key_chars();
            match compare_chars(&mk, &k) {
                KeyOrder::Equal => {
                    proof {
                        lemma_sorted_index(self.items@, mid as int, k@);
                    }
                    return Some(mid);
                },
                KeyOrder::Less => {
                    proof {
                        assert forall|j: int| 0 <= j < mid + 1 implies seq_lt(
                            #[trigger] self.items@[j].0.key(),
                            k@,
                        ) by {
                            if j < mid {
                                lemma_seq_lt_transitive(self.items@[j].0.key(), mk@, k@);
                            }
                        }
                    }
                    lo = mid + 1;
                },
                KeyOrder::Greater => {
                    proof {
                        assert forall|j: int| mid <= j < self.items@.len() implies seq_lt(
                            k@,
                            #[trigger] self.items@[j].0.key(),
                        ) by {
                            if j > mid {
                                lemma_seq_lt_transitive(k@, mk@, self.items@[j].0.key());
                            }
                        }
                    }
                    hi = mid;
                },
            }
        }
        proof {
            let i = index_of_key(self.items@, k@);
            if i >= 0 {
                lemma_seq_lt_irreflexive(k@);
                if i < lo {
                    assert(seq_lt(self.items@[i].0.key(), k@));
                } else {
                    assert(seq_lt(k@, self.items@[i].0.key()));
                }
            }
        }
        None
    }

    /// The value stored under the key of `key`.
    pub fn get(&self, key: &RelPath) -> (r: Option<&V>)
        ensures
            match lookup(self@, key.key()) {
                Some(v) => r matches Some(x) && *x == v,
                None => r is None,
            },
            sorted_entries(self@),
    {
        proof {
            use_type_invariant(self);
            lemma_index_of_key_bounds(self@, key.key());
        }
        match self.find(key) {
            Some(i) => Some(&self.items[i].1),
            None => None,
        }
    }

    pub fn contains_key(&self, key: &RelPath) -> (b: bool)
        ensures
            b == has_key(self@, key.key()),
    {
        self.find(key).is_some()
    }

    /// Insert `value` under `key`; an existing entry keeps its key and takes the value.
    pub fn insert(&mut self, key: RelPath, value: V)
        ensures
            final(self)@ == insert_entry(old(self)@, key, value),
            sorted_entries(old(self)@),
            sorted_entries(final(self)@),
    {
        proof {
            use_type_invariant(&*self);
        }
        let k = key.key_chars();
        let mut i: usize = 0;
        assert(self.items@.skip(0) =~= self.items@);
        while i < self.items.len() && self.key_less_at(i, &k)
            invariant
                i <= self.items@.len(),
                k@ == key.key(),
                self.items@ == old(self)@,
                sorted_entries(self.items@),
                lower_bound(self.items@, k@) == i + lower_bound(self.items@.skip(i as int), k@),
            decreases self.items@.len() - i,
        {
            assert(self.items@.skip(i as int)[0] == self.items@[i as int]);
            assert(self.items@.skip(i as int).drop_first() =~= self.items@.skip(i + 1));
            i = i + 1;
        }
        proof {
            lemma_lower_bound(self.items@, k@);
            lemma_index_of_key_bounds(self.items@, k@);
            if i < self.items@.len() {
                assert(!seq_lt(self.items@.skip(i as int)[0].0.key(), k@)) by {
                    if seq_lt(self.items@.skip(i as int)[0].0.key(), k@) {
                        assert(self.items@.skip(i as int)[0] == self.items@[i as int]);
                    }
                }
            } else {
                assert(self.items@.skip(i as int).len() == 0);
            }
            assert(lower_bound(self.items@, k@) == i);
        }
        let ghost old_items = self.items@;
        let present = if i < self.items.len() {
            let ik = self.items[i].0.key_chars();
            compare_chars(&ik, &k) == KeyOrder::Equal
        } else {
            false
        };
        proof {
            if present {
                lemma_sorted_index(old_items, i as int, k@);
            } else {
                let j = index_of_key(old_items, k@);
                if j >= 0 {
                    lemma_seq_lt_irreflexive(k@);
                    if j < i {
                        assert(seq_lt(old_items[j].0.key(), k@));
                    } else if j > i {
                        lemma_seq_lt_total(k@, old_items[i as int].0.key());
                        assert(seq_lt(old_items[i as int].0.key(), old_items[j].0.key()));
                        lemma_seq_lt_asymmetric(old_items[i as int].0.key(), k@);
                        lemma_seq_lt_transitive(k@, old_items[i as int].0.key(), old_items[j].0.key());
                    }
                }
            }
            lemma_insert_sorted(old_items, key, value);
        }
        let mut items: Vec<(RelPath, V)> = Vec::new();
        std::mem::swap(&mut items, &mut self.items);
        if present {
            let stored = items[i].0.clone();
            items.set(i, (stored, value));
        } else {
            items.insert(i, (key, value));
        }
        self.items = items;
    }

    /// Whether the key at `i` is below `k`.
    fn key_less_at(&self, i: usize, k: &Vec<char>) -> (r: bool)
        requires
            i < self@.len(),
        ensures
            r == seq_lt(self@[i as int].0.key(), k@),
    {
        let ik = self.items[i].0.key_chars();
        compare_chars(&ik, k) == KeyOrder::Less
    }

    /// Remove the entry whose key is that of `key`, returning its value.
    pub fn remove(&mut self, key: &RelPath) -> (r: Option<V>)
        ensures
            final(self)@ == remove_entry(old(self)@, key.key()),
            r == lookup(old(self)@, key.key()),
            sorted_entries(old(self)@),
            sorted_entries(final(self)@),
    {
        proof {
            use_type_invariant(&*self);
            lemma_remove_sorted(self@, key.key());
            lemma_index_of_key_bounds(self@, key.key());
        }
        match self.find(key) {
            Some(i) => {
                let mut items: Vec<(RelPath, V)> = Vec::new();
                std::mem::swap(&mut items, &mut self.items);
                let (_k, v) = items.remove(i);
                self.items = items;
                Some(v)
            },
            None => None,
        }
    }
}

} // verus!
