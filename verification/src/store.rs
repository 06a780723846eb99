//! A small keyed store: at most one value per key, looked up by comparing keys.
//!
//! The store is viewed as a map from the view of a key to the view of its
//! value. It also exposes its entries as a sequence, in storage order, for
//! code that walks it.

use vstd::prelude::*;

verus! {

/// A type whose values serve as keys. Two values are the same key exactly when
/// their views are equal.
pub trait Key: View + Sized {
    fn same_key(&self, other: &Self) -> (r: bool)
        ensures
            r == (self@ == other@),
    ;
}

impl Key for Vec<u8> {
    fn same_key(&self, other: &Self) -> (r: bool) {
        let a = self.as_slice();
        let b = other.as_slice();
        if a.len() != b.len() {
            return false;
        }
        let mut i: usize = 0;
        while i < a.len()
            invariant
                a@ == self@,
                b@ == other@,
                a.len() == b.len(),
                i <= a.len(),
                forall|j: int| 0 <= j < i ==> a@[j] == b@[j],
            decreases a.len() - i,
        {
            if a[i] != b[i] {
                return false;
            }
            i = i + 1;
        }
        assert(a@ =~= b@);
        true
    }
}

impl Key for String {
    fn same_key(&self, other: &Self) -> (r: bool) {
        *self == *other
    }
}

/// Whether some entry of `s` has the key `k`.
pub open spec fn has_key<A, B>(s: Seq<(A, B)>, k: A) -> bool {
    exists|i: int| 0 <= i < s.len() && (#[trigger] s[i]).0 == k
}

/// Whether no two entries of `s` share a key.
pub open spec fn unique_keys<A, B>(s: Seq<(A, B)>) -> bool {
    forall|i: int, j: int| 0 <= i < j < s.len() ==> (#[trigger] s[i]).0 != (#[trigger] s[j]).0
}

/// The place of an entry of `s` with the key `k`.
pub open spec fn position<A, B>(s: Seq<(A, B)>, k: A) -> int {
    choose|i: int| 0 <= i < s.len() && (#[trigger] s[i]).0 == k
}

/// The map that sends each key of `s` to the value stored with it.
pub open spec fn as_map<A, B>(s: Seq<(A, B)>) -> Map<A, B> {
    Map::new(|k: A| has_key(s, k), |k: A| s[position(s, k)].1)
}

/// The keys of `s`, in order.
pub open spec fn keys_of<A, B>(s: Seq<(A, B)>) -> Seq<A> {
    s.map_values(|e: (A, B)| e.0)
}

/// Every entry of a sequence with unique keys is found in its map.
pub proof fn lemma_entry_in_map<A, B>(s: Seq<(A, B)>, i: int)
    requires
        unique_keys(s),
        0 <= i < s.len(),
    ensures
        as_map(s).contains_key(s[i].0),
        as_map(s)[s[i].0] == s[i].1,
{
    let p = position(s, s[i].0);
    assert(p == i);
}

/// The keys of the map are the keys of the sequence; with unique keys there are
/// as many as there are entries.
pub proof fn lemma_map_domain<A, B>(s: Seq<(A, B)>)
    ensures
        as_map(s).dom() == keys_of(s).to_set(),
        as_map(s).dom().finite(),
        unique_keys(s) ==> keys_of(s).no_duplicates() && as_map(s).dom().len() == s.len(),
{
    let keys = keys_of(s);
    assert forall|k: A| as_map(s).dom().contains(k) <==> keys.to_set().contains(k) by {
        if has_key(s, k) {
            assert(keys[position(s, k)] == k);
        }
    }
    assert(as_map(s).dom() =~= keys.to_set());
    vstd::seq_lib::seq_to_set_is_finite(keys);
    if unique_keys(s) {
        assert(keys.no_duplicates());
        keys.unique_seq_to_set();
    }
}

/// Appending an entry under a fresh key inserts it into the map.
pub proof fn lemma_push_entry<A, B>(s: Seq<(A, B)>, k: A, v: B)
    requires
        unique_keys(s),
        !has_key(s, k),
    ensures
        unique_keys(s.push((k, v))),
        as_map(s.push((k, v))) == as_map(s).insert(k, v),
{
    let t = s.push((k, v));
    assert(unique_keys(t));
    assert forall|x: A| as_map(t).contains_key(x) <==> as_map(s).insert(k, v).contains_key(x) by {
        if has_key(s, x) {
            assert(t[position(s, x)].0 == x);
        }
        if x == k {
            assert(t[s.len() as int].0 == k);
        }
    }
    assert forall|x: A| as_map(t).contains_key(x) implies as_map(t)[x] == as_map(s).insert(k, v)[x] by {
        let i = position(t, x);
        lemma_entry_in_map(t, i);
        if i < s.len() {
            lemma_entry_in_map(s, i);
        }
    }
}

/// Taking an entry out removes its key from the map.
pub proof fn lemma_remove_entry<A, B>(s: Seq<(A, B)>, i: int)
    requires
        unique_keys(s),
        0 <= i < s.len(),
    ensures
        unique_keys(s.remove(i)),
        !has_key(s.remove(i), s[i].0),
        as_map(s.remove(i)) == as_map(s).remove(s[i].0),
{
    let t = s.remove(i);
    let k = s[i].0;
    assert forall|a: int| 0 <= a < t.len() implies (#[trigger] t[a]) == s[if a < i {
        a
    } else {
        a + 1
    }] by {}
    assert(unique_keys(t));
    assert(!has_key(t, k));
    assert forall|x: A| as_map(t).contains_key(x) <==> as_map(s).remove(k).contains_key(x) by {
        if has_key(s, x) && x != k {
            let p = position(s, x);
            assert(t[if p < i {
                p
            } else {
                p - 1
            }].0 == x);
        }
    }
    assert forall|x: A| as_map(t).contains_key(x) implies as_map(t)[x] == as_map(s).remove(k)[x] by {
        let a = position(t, x);
        lemma_entry_in_map(t, a);
        lemma_entry_in_map(s, if a < i {
            a
        } else {
            a + 1
        });
    }
}

/// The views of a sequence of stored entries.
pub open spec fn entry_views<K: View, V: View>(s: Seq<(K, V)>) -> Seq<(K::V, V::V)> {
    s.map_values(|e: (K, V)| (e.0@, e.1@))
}

/// A store that holds at most one value for each key.
pub struct KeyedStore<K: Key, V: View> {
    entries: Vec<(K, V)>,
}

impl<K: Key, V: View> View for KeyedStore<K, V> {
    type V = Map<K::V, V::V>;

    closed spec fn view(&self) -> Map<K::V, V::V> {
        as_map(entry_views(self.entries@))
    }
}

impl<K: Key, V: View> KeyedStore<K, V> {
    #[verifier::type_invariant]
    spec fn distinct(self) -> bool {
        unique_keys(entry_views(self.entries@))
    }

    /// The entries of the store, in storage order.
    pub closed spec fn entries(&self) -> Seq<(K::V, V::V)> {
        entry_views(self.entries@)
    }

    /// The view of the store is the map of its entries.
    pub proof fn lemma_view(&self)
        ensures
            self@ == as_map(self.entries()),
    {
    }

    /// Every value of the map is the view of a stored value.
    pub proof fn lemma_value_stored(&self, k: K::V)
        requires
            self@.contains_key(k),
        ensures
            exists|v: V| #[trigger] v.view() == self@[k],
    {
        assert(self.entries@[position(self.entries(), k)].1.view() == self@[k]);
    }

    /// An empty store.
    pub fn new() -> (r: Self)
        ensures
            r@ == Map::<K::V, V::V>::empty(),
            r.entries() == Seq::<(K::V, V::V)>::empty(),
    {
        KeyedStore { entries: Vec::new() }
    }

    /// The number of entries. No two entries share a key.
    pub fn len(&self) -> (n: usize)
        ensures
            n == self.entries().len(),
            n == self@.dom().len(),
            self@.dom().finite(),
            unique_keys(self.entries()),
    {
        proof {
            use_type_invariant(self);
            lemma_map_domain(self.entries());
        }
        self.entries.len()
    }

    /// The key of the entry at place `i`.
    pub fn key_at(&self, i: usize) -> (k: &K)
        requires
            i < self.entries().len(),
        ensures
            k@ == self.entries()[i as int].0,
            self@.contains_key(k@),
    {
        proof {
            use_type_invariant(self);
            lemma_entry_in_map(self.entries(), i as int);
        }
        &self.entries[i].0
    }

    /// The value of the entry at place `i`.
    pub fn value_at(&self, i: usize) -> (v: &V)
        requires
            i < self.entries().len(),
        ensures
            v@ == self.entries()[i as int].1,
            self@[self.entries()[i as int].0] == v@,
    {
        proof {
            use_type_invariant(self);
            lemma_entry_in_map(self.entries(), i as int);
        }
        &self.entries[i].1
    }

    fn find(&self, key: &K) -> (r: Option<usize>)
        ensures
            match r {
                Some(i) => i < self.entries().len() && self.entries()[i as int].0 == key@,
                None => !has_key(self.entries(), key@),
            },
    {
        let mut i: usize = 0;
        while i < self.entries.len()
            invariant
                i <= self.entries.len(),
                forall|j: int| 0 <= j < i ==> (#[trigger] self.entries()[j]).0 != key@,
            decreases self.entries.len() - i,
        {
            if self.entries[i].0.same_key(key) {
                return Some(i);
            }
            i = i + 1;
        }
        None
    }

    /// Whether the store holds a value for `key`.
    pub fn contains_key(&self, key: &K) -> (r: bool)
        ensures
            r == self@.contains_key(key@),
    {
        self.find(key).is_some()
    }

    /// The value stored for `key`, if there is one.
    pub fn get(&self, key: &K) -> (r: Option<&V>)
        ensures
            match r {
                Some(v) => self@.contains_key(key@) && v@ == self@[key@],
                None => !self@.contains_key(key@),
            },
    {
        match self.find(key) {
            Some(i) => {
                proof {
                    use_type_invariant(self);
                    lemma_entry_in_map(self.entries(), i as int);
                }
                Some(&self.entries[i].1)
            },
            None => None,
        }
    }

    /// Takes the value stored for `key` out of the store, if there is one.
    pub fn remove(&mut self, key: &K) -> (r: Option<V>)
        ensures
            final(self)@ == old(self)@.remove(key@),
            match r {
                Some(v) => old(self)@.contains_key(key@) && v@ == old(self)@[key@],
                None => !old(self)@.contains_key(key@),
            },
    {
        proof {
            use_type_invariant(&*self);
        }
        match self.find(key) {
            Some(i) => {
                let mut entries: Vec<(K, V)> = Vec::new();
                std::mem::swap(&mut entries, &mut self.entries);
                let ghost before = entry_views(entries@);
                let entry = entries.remove(i);
                proof {
                    lemma_entry_in_map(before, i as int);
                    lemma_remove_entry(before, i as int);
                    assert(entry_views(entries@) =~= before.remove(i as int));
                }
                self.entries = entries;
                Some(entry.1)
            },
            None => None,
        }
    }

    /// Stores `value` for `key`, in place of any value stored for it before.
    pub fn insert(&mut self, key: K, value: V)
        ensures
            final(self)@ == old(self)@.insert(key@, value@),
    {
        let _ = self.remove(&key);
        proof {
            use_type_invariant(&*self);
        }
        let mut entries: Vec<(K, V)> = Vec::new();
        std::mem::swap(&mut entries, &mut self.entries);
        let ghost before = entry_views(entries@);
        entries.push((key, value));
        proof {
            assert(!as_map(before).contains_key(key@));
            lemma_push_entry(before, key@, value@);
            assert(entry_views(entries@) =~= before.push((key@, value@)));
        }
        self.entries = entries;
    }
}

} // verus!
