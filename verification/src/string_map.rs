//! A map keyed by strings, kept as a list of entries without repeated keys.
//!
//! The mathematical model of a map is the sequence of its entries, each a
//! key (as a sequence of characters) and a value. The order of the entries
//! is the order in which the keys were first inserted.

use vstd::prelude::*;

verus! {

/// `k` is the key of some entry of `s`.
pub open spec fn has_key<T>(s: Seq<(Seq<char>, T)>, k: Seq<char>) -> bool {
    exists|i: int| 0 <= i < s.len() && (#[trigger] s[i]).0 == k
}

/// An index at which `s` holds the key `k`, if there is one.
pub open spec fn position<T>(s: Seq<(Seq<char>, T)>, k: Seq<char>) -> int {
    choose|i: int| 0 <= i < s.len() && (#[trigger] s[i]).0 == k
}

/// No two entries of `s` have the same key.
pub open spec fn distinct_keys<T>(s: Seq<(Seq<char>, T)>) -> bool {
    forall|i: int, j: int| 0 <= i < j < s.len() ==> (#[trigger] s[i]).0 != (#[trigger] s[j]).0
}

/// The value that `s` holds under `k`.
pub open spec fn lookup<T>(s: Seq<(Seq<char>, T)>, k: Seq<char>) -> Option<T> {
    if has_key(s, k) {
        Some(s[position(s, k)].1)
    } else {
        None
    }
}

/// `s` with `v` under `k`: in place where `k` is present, at the end otherwise.
pub open spec fn put<T>(s: Seq<(Seq<char>, T)>, k: Seq<char>, v: T) -> Seq<(Seq<char>, T)> {
    if has_key(s, k) {
        s.update(position(s, k), (k, v))
    } else {
        s.push((k, v))
    }
}

/// `s` without the entry of `k`; the other entries keep their order.
pub open spec fn without<T>(s: Seq<(Seq<char>, T)>, k: Seq<char>) -> Seq<(Seq<char>, T)> {
    if has_key(s, k) {
        s.remove(position(s, k))
    } else {
        s
    }
}

/// The entries of `s` as a map from key to value.
pub open spec fn as_map<T>(s: Seq<(Seq<char>, T)>) -> Map<Seq<char>, T> {
    Map::new(|k: Seq<char>| has_key(s, k), |k: Seq<char>| s[position(s, k)].1)
}

/// With distinct keys, the position of the key of entry `i` is `i`.
pub proof fn lemma_position_of_entry<T>(s: Seq<(Seq<char>, T)>, i: int)
    requires
        distinct_keys(s),
        0 <= i < s.len(),
    ensures
        has_key(s, s[i].0),
        position(s, s[i].0) == i,
        lookup(s, s[i].0) == Some(s[i].1),
{
    let k = s[i].0;
    assert(has_key(s, k));
    let p = position(s, k);
    assert(0 <= p < s.len() && s[p].0 == k);
    if p < i {
        assert(s[p].0 != s[i].0);
    } else if i < p {
        assert(s[i].0 != s[p].0);
    }
}

/// What `put` does to the keys and to each lookup.
pub proof fn lemma_put<T>(s: Seq<(Seq<char>, T)>, k: Seq<char>, v: T)
    requires
        distinct_keys(s),
    ensures
        distinct_keys(put(s, k, v)),
        has_key(put(s, k, v), k),
        lookup(put(s, k, v), k) == Some(v),
        forall|k2: Seq<char>| k2 != k ==> has_key(put(s, k, v), k2) == has_key(s, k2),
        forall|k2: Seq<char>| k2 != k ==> lookup(put(s, k, v), k2) == lookup(s, k2),
        as_map(put(s, k, v)) == as_map(s).insert(k, v),
{
    let r = put(s, k, v);
    if has_key(s, k) {
        let p = position(s, k);
        assert(r.len() == s.len());
        assert(forall|i: int| 0 <= i < s.len() ==> (#[trigger] r[i]).0 == s[i].0);
        assert(distinct_keys(r)) by {
            assert forall|i: int, j: int| 0 <= i < j < r.len() implies (#[trigger] r[i]).0 != (
            #[trigger] r[j]).0 by {
                assert(s[i].0 != s[j].0);
            }
        }
        assert(r[p].0 == k);
        lemma_position_of_entry(r, p);
        assert forall|k2: Seq<char>| k2 != k implies has_key(r, k2) == has_key(s, k2) && lookup(
            r,
            k2,
        ) == lookup(s, k2) by {
            if has_key(s, k2) {
                let q = position(s, k2);
                assert(r[q].0 == k2);
                lemma_position_of_entry(r, q);
                assert(q != p);
            }
            if has_key(r, k2) {
                let q = position(r, k2);
                assert(s[q].0 == k2);
                lemma_position_of_entry(s, q);
            }
        }
    } else {
        let n = s.len() as int;
        assert(r.len() == n + 1);
        assert(forall|i: int| 0 <= i < n ==> (#[trigger] r[i]) == s[i]);
        assert(r[n] == (k, v));
        assert(distinct_keys(r)) by {
            assert forall|i: int, j: int| 0 <= i < j < r.len() implies (#[trigger] r[i]).0 != (
            #[trigger] r[j]).0 by {
                if j < n {
                    assert(s[i].0 != s[j].0);
                } else {
                    assert(s[i].0 != k);
                }
            }
        }
        lemma_position_of_entry(r, n);
        assert forall|k2: Seq<char>| k2 != k implies has_key(r, k2) == has_key(s, k2) && lookup(
            r,
            k2,
        ) == lookup(s, k2) by {
            if has_key(s, k2) {
                let q = position(s, k2);
                assert(r[q].0 == k2);
                lemma_position_of_entry(r, q);
            }
            if has_key(r, k2) {
                let q = position(r, k2);
                assert(q < n);
                assert(s[q].0 == k2);
                lemma_position_of_entry(s, q);
            }
        }
    }
    assert(as_map(r) =~= as_map(s).insert(k, v)) by {
        assert forall|k2: Seq<char>| #[trigger] as_map(r).contains_key(k2) implies as_map(r)[k2]
            == as_map(s).insert(k, v)[k2] by {
            if k2 != k {
                assert(lookup(r, k2) == lookup(s, k2));
            } else {
                assert(lookup(r, k) == Some(v));
            }
        }
    }
}

/// What `without` does to the keys and to each lookup.
pub proof fn lemma_without<T>(s: Seq<(Seq<char>, T)>, k: Seq<char>)
    requires
        distinct_keys(s),
    ensures
        distinct_keys(without(s, k)),
        !has_key(without(s, k), k),
        lookup(without(s, k), k) is None,
        forall|k2: Seq<char>| k2 != k ==> has_key(without(s, k), k2) == has_key(s, k2),
        forall|k2: Seq<char>| k2 != k ==> lookup(without(s, k), k2) == lookup(s, k2),
        as_map(without(s, k)) == as_map(s).remove(k),
{
    let r = without(s, k);
    if has_key(s, k) {
        let p = position(s, k);
        assert(r.len() == s.len() - 1);
        assert(forall|i: int| 0 <= i < p ==> (#[trigger] r[i]) == s[i]);
        assert(forall|i: int| p <= i < r.len() ==> (#[trigger] r[i]) == s[i + 1]);
        assert(distinct_keys(r)) by {
            assert forall|i: int, j: int| 0 <= i < j < r.len() implies (#[trigger] r[i]).0 != (
            #[trigger] r[j]).0 by {
                let si = if i < p {
                    i
                } else {
                    i + 1
                };
                let sj = if j < p {
                    j
                } else {
                    j + 1
                };
                assert(s[si].0 != s[sj].0);
            }
        }
        assert(!has_key(r, k)) by {
            if has_key(r, k) {
                let q = position(r, k);
                let sq = if q < p {
                    q
                } else {
                    q + 1
                };
                assert(s[sq].0 == k);
                lemma_position_of_entry(s, sq);
            }
        }
        assert forall|k2: Seq<char>| k2 != k implies has_key(r, k2) == has_key(s, k2) && lookup(
            r,
            k2,
        ) == lookup(s, k2) by {
            if has_key(s, k2) {
                let q = position(s, k2);
                assert(q != p);
                let rq = if q < p {
                    q
                } else {
                    q - 1
                };
                assert(r[rq].0 == k2);
                lemma_position_of_entry(r, rq);
            }
            if has_key(r, k2) {
                let q = position(r, k2);
                let sq = if q < p {
                    q
                } else {
                    q + 1
                };
                assert(s[sq].0 == k2);
                lemma_position_of_entry(s, sq);
            }
        }
    }
    assert(as_map(r) =~= as_map(s).remove(k)) by {
        assert forall|k2: Seq<char>| #[trigger] as_map(r).contains_key(k2) implies as_map(r)[k2]
            == as_map(s).remove(k)[k2] by {
            assert(lookup(r, k2) == lookup(s, k2));
        }
    }
}

/// A map from strings to values of type `V`.
pub struct StringMap<V> {
    pub items: Vec<(String, V)>,
}

impl<V: DeepView> View for StringMap<V> {
    type V = Map<Seq<char>, V::V>;

    open spec fn view(&self) -> Map<Seq<char>, V::V> {
        as_map(self.entries())
    }
}

impl<V: DeepView> DeepView for StringMap<V> {
    type V = Seq<(Seq<char>, V::V)>;

    open spec fn deep_view(&self) -> Seq<(Seq<char>, V::V)> {
        self.entries()
    }
}

impl<V: DeepView> StringMap<V> {
    /// The entries in the order in which they are kept.
    pub open spec fn entries(&self) -> Seq<(Seq<char>, V::V)> {
        self.items.deep_view()
    }

    /// No key occurs twice.
    pub open spec fn wf(&self) -> bool {
        distinct_keys(self.entries())
    }

    /// A map without entries.
    pub fn new() -> (res: Self)
        ensures
            res.wf(),
            res.entries() == Seq::<(Seq<char>, V::V)>::empty(),
    {
        let res = StringMap { items: Vec::new() };
        assert(res.entries() =~= Seq::<(Seq<char>, V::V)>::empty());
        res
    }

    /// The number of entries.
    pub fn len(&self) -> (res: usize)
        ensures
            res == self.entries().len(),
    {
        self.items.len()
    }

    /// Whether the map has no entries.
    pub fn is_empty(&self) -> (res: bool)
        ensures
            res == (self.entries().len() == 0),
    {
        self.items.len() == 0
    }

    /// The index of the first entry of `key`.
    pub fn find(&self, key: &String) -> (res: Option<usize>)
        ensures
            match res {
                Some(i) => {
                    &&& i < self.entries().len()
                    &&& self.entries()[i as int].0 == key@
                    &&& forall|j: int| 0 <= j < i ==> (#[trigger] self.entries()[j]).0 != key@
                },
                None => !has_key(self.entries(), key@),
            },
            self.wf() && res is Some ==> res->0 == position(self.entries(), key@),
            res is Some <==> has_key(self.entries(), key@),
    {
        let mut i: usize = 0;
        while i < self.items.len()
            invariant
                i <= self.items.len(),
                forall|j: int| 0 <= j < i ==> (#[trigger] self.entries()[j]).0 != key@,
            decreases self.items.len() - i,
        {
            if self.items[i].0 == *key {
                proof {
                    assert(self.entries()[i as int].0 == key@);
                    if self.wf() {
                        lemma_position_of_entry(self.entries(), i as int);
                    }
                }
                return Some(i);
            }
            assert(self.entries()[i as int].0 != key@);
            i += 1;
        }
        None
    }

    /// Whether `key` has an entry.
    pub fn contains_key(&self, key: &String) -> (res: bool)
        ensures
            res == has_key(self.entries(), key@),
    {
        self.find(key).is_some()
    }

    /// The value kept under `key`.
    pub fn get(&self, key: &String) -> (res: Option<&V>)
        requires
            self.wf(),
        ensures
            res.deep_view() == lookup(self.entries(), key@),
    {
        match self.find(key) {
            Some(i) => Some(&self.items[i].1),
            None => None,
        }
    }

    /// The key of entry `i`.
    pub fn key_at(&self, i: usize) -> (res: &String)
        requires
            i < self.entries().len(),
        ensures
            res@ == self.entries()[i as int].0,
    {
        &self.items[i].0
    }

    /// The value of entry `i`.
    pub fn value_at(&self, i: usize) -> (res: &V)
        requires
            i < self.entries().len(),
        ensures
            res.deep_view() == self.entries()[i as int].1,
    {
        &self.items[i].1
    }

    /// Whether no key occurs twice.
    pub fn has_distinct_keys(&self) -> (res: bool)
        ensures
            res == self.wf(),
    {
        let mut i: usize = 0;
        while i < self.items.len()
            invariant
                i <= self.items.len(),
                forall|a: int, b: int|
                    0 <= a < b < i ==> (#[trigger] self.entries()[a]).0 != (
                    #[trigger] self.entries()[b]).0,
            decreases self.items.len() - i,
        {
            let mut j: usize = 0;
            while j < i
                invariant
                    j <= i < self.items.len(),
                    forall|a: int|
                        0 <= a < j ==> (#[trigger] self.entries()[a]).0 != self.entries()[i as int].0,
                decreases i - j,
            {
                if self.items[j].0 == self.items[i].0 {
                    assert(self.entries()[j as int].0 == self.entries()[i as int].0);
                    return false;
                }
                j += 1;
            }
            i += 1;
        }
        true
    }

    /// The keys in the order of the entries.
    pub fn keys(&self) -> (res: Vec<String>)
        ensures
            res.deep_view() == Seq::new(self.entries().len(), |i: int| self.entries()[i].0),
    {
        let mut keys: Vec<String> = Vec::new();
        let mut i: usize = 0;
        while i < self.items.len()
            invariant
                i <= self.items.len(),
                keys.len() == i,
                forall|j: int| 0 <= j < i ==> (#[trigger] keys.deep_view()[j]) == self.entries()[j].0,
            decreases self.items.len() - i,
        {
            let key = self.items[i].0.clone();
            let ghost before = keys.deep_view();
            keys.push(key);
            assert(keys.deep_view() =~= before.push(key@));
            assert(self.entries()[i as int].0 == key@);
            i += 1;
        }
        assert(keys.deep_view() =~= Seq::new(
            self.entries().len(),
            |i: int| self.entries()[i].0,
        ));
        keys
    }

    /// Puts `value` under `key` and hands back the value that was there.
    pub fn insert(&mut self, key: String, value: V) -> (res: Option<V>)
        requires
            old(self).wf(),
        ensures
            final(self).wf(),
            final(self).entries() == put(old(self).entries(), key@, value.deep_view()),
            final(self)@ == old(self)@.insert(key@, value.deep_view()),
            res.deep_view() == lookup(old(self).entries(), key@),
    {
        proof {
            lemma_put(self.entries(), key@, value.deep_view());
        }
        let ghost before = self.entries();
        let ghost k = key@;
        let ghost v = value.deep_view();
        match self.find(&key) {
            Some(i) => {
                self.items.push((key, value));
                let replaced = self.items.swap_remove(i);
                assert(self.entries() =~= before.update(i as int, (k, v)));
                Some(replaced.1)
            },
            None => {
                self.items.push((key, value));
                assert(self.entries() =~= before.push((k, v)));
                None
            },
        }
    }

    /// Takes the entry of `key` out and hands back its value.
    pub fn remove(&mut self, key: &String) -> (res: Option<V>)
        requires
            old(self).wf(),
        ensures
            final(self).wf(),
            final(self).entries() == without(old(self).entries(), key@),
            final(self)@ == old(self)@.remove(key@),
            res.deep_view() == lookup(old(self).entries(), key@),
    {
        proof {
            lemma_without(self.entries(), key@);
        }
        let ghost before = self.entries();
        match self.find(key) {
            Some(i) => {
                let taken = self.items.remove(i);
                assert(self.entries() =~= before.remove(i as int));
                Some(taken.1)
            },
            None => None,
        }
    }

    /// Takes every entry out.
    pub fn clear(&mut self)
        ensures
            final(self).wf(),
            final(self).entries() == Seq::<(Seq<char>, V::V)>::empty(),
    {
        self.items.clear();
        assert(self.entries() =~= Seq::<(Seq<char>, V::V)>::empty());
    }
}

impl<V: DeepView + Copy> Clone for StringMap<V> {
    /// A map with the same entries in the same order.
    fn clone(&self) -> (res: Self)
        ensures
            res.entries() == self.entries(),
    {
        let mut items: Vec<(String, V)> = Vec::new();
        let mut i: usize = 0;
        while i < self.items.len()
            invariant
                i <= self.items.len(),
                items.deep_view() == self.entries().take(i as int),
            decreases self.items.len() - i,
        {
            let key = self.items[i].0.clone();
            let value = self.items[i].1;
            let ghost before = items.deep_view();
            items.push((key, value));
            assert(items.deep_view() =~= before.push((key@, value.deep_view())));
            assert(self.entries()[i as int] == (key@, value.deep_view()));
            assert(items.deep_view() =~= self.entries().take(i as int + 1));
            i += 1;
        }
        assert(self.entries().take(i as int) =~= self.entries());
        StringMap { items }
    }
}

} // verus!
