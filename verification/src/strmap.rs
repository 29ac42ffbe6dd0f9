//! A map keyed by strings, kept as a list of entries in insertion order.
use vstd::prelude::*;
use crate::text::str_eq;

verus! {

/// Values that can be copied with their whole content kept.
pub trait DeepCopy: DeepView + Sized {
    fn deep_copy(&self) -> (r: Self)
        ensures
            r.deep_view() == self.deep_view(),
    ;
}

impl DeepCopy for bool {
    fn deep_copy(&self) -> (r: bool) {
        *self
    }
}

impl DeepCopy for String {
    fn deep_copy(&self) -> (r: String) {
        self.clone()
    }
}

impl DeepCopy for Vec<String> {
    fn deep_copy(&self) -> (r: Vec<String>) {
        let mut r: Vec<String> = Vec::new();
        let mut i: usize = 0;
        while i < self.len()
            invariant
                i <= self.len(),
                r@.len() == i,
                forall|j: int| 0 <= j < i ==> #[trigger] r@[j]@ == self@[j]@,
            decreases self.len() - i,
        {
            r.push(self[i].clone());
            i = i + 1;
        }
        assert(r.deep_view() =~= self.deep_view());
        r
    }
}

/// The value of the first entry whose key is `k`.
pub open spec fn lookup<W>(s: Seq<(Seq<char>, W)>, k: Seq<char>) -> Option<W>
    decreases s.len(),
{
    if s.len() == 0 {
        None
    } else if s[0].0 == k {
        Some(s[0].1)
    } else {
        lookup(s.drop_first(), k)
    }
}

/// Index of the first entry whose key is `k`, if any.
pub open spec fn key_index<W>(s: Seq<(Seq<char>, W)>, k: Seq<char>) -> Option<int> {
    if exists|i: int| 0 <= i < s.len() && s[i].0 == k {
        Some(choose|i: int| 0 <= i < s.len() && s[i].0 == k && forall|j: int| 0 <= j < i ==> s[j].0 != k)
    } else {
        None
    }
}

/// `lookup` gives the value of the first entry with the key.
pub proof fn lemma_lookup_first<W>(s: Seq<(Seq<char>, W)>, k: Seq<char>, i: int)
    requires
        0 <= i <= s.len(),
        forall|j: int| 0 <= j < i ==> s[j].0 != k,
    ensures
        lookup(s, k) == lookup(s.skip(i), k),
        i < s.len() && s[i].0 == k ==> lookup(s, k) == Some(s[i].1),
        i == s.len() ==> lookup(s, k) is None,
    decreases i,
{
    if i > 0 {
        lemma_lookup_first(s.drop_first(), k, i - 1);
        assert(s.drop_first().skip(i - 1) =~= s.skip(i));
    } else {
        assert(s.skip(0) =~= s);
    }
    if i == s.len() {
        assert(s.skip(i).len() == 0);
    }
    if i < s.len() && s[i].0 == k {
        assert(s.skip(i)[0] == s[i]);
    }
}

/// `lookup` finds a key exactly when some entry holds it.
pub proof fn lemma_lookup_some<W>(s: Seq<(Seq<char>, W)>, k: Seq<char>)
    ensures
        lookup(s, k) is Some <==> exists|i: int| 0 <= i < s.len() && s[i].0 == k,
        lookup(s, k) matches Some(w) ==> exists|i: int| 0 <= i < s.len() && s[i] == (k, w),
    decreases s.len(),
{
    if s.len() > 0 {
        lemma_lookup_some(s.drop_first(), k);
        if s[0].0 != k {
            if exists|i: int| 0 <= i < s.len() && s[i].0 == k {
                let i = choose|i: int| 0 <= i < s.len() && s[i].0 == k;
                assert(s.drop_first()[i - 1].0 == k);
            }
            if lookup(s, k) is Some {
                let i = choose|i: int| 0 <= i < s.drop_first().len() && s.drop_first()[i] == (k, lookup(s, k)->0);
                assert(s[i + 1] == (k, lookup(s, k)->0));
            }
        }
    }
}

/// Replacing the first entry with key `k` changes only the lookup of `k`.
pub proof fn lemma_lookup_update_at<W>(s: Seq<(Seq<char>, W)>, k: Seq<char>, i: int, w: W, k2: Seq<char>)
    requires
        0 <= i < s.len(),
        s[i].0 == k,
        forall|j: int| 0 <= j < i ==> s[j].0 != k,
    ensures
        lookup(s.update(i, (k, w)), k2) == if k2 == k {
            Some(w)
        } else {
            lookup(s, k2)
        },
    decreases i,
{
    let u = s.update(i, (k, w));
    if i == 0 {
        assert(u.drop_first() =~= s.drop_first());
    } else {
        assert(u[0] == s[0]);
        assert(u.drop_first() =~= s.drop_first().update(i - 1, (k, w)));
        if s[0].0 != k2 {
            assert forall|j: int| 0 <= j < i - 1 implies s.drop_first()[j].0 != k by {
                assert(s.drop_first()[j] == s[j + 1]);
            }
            lemma_lookup_update_at(s.drop_first(), k, i - 1, w, k2);
        }
    }
}

/// Replacing the first entry with key `k` changes only the lookup of `k`.
pub proof fn lemma_lookup_update<W>(s: Seq<(Seq<char>, W)>, k: Seq<char>, i: int, w: W)
    requires
        0 <= i < s.len(),
        s[i].0 == k,
        forall|j: int| 0 <= j < i ==> s[j].0 != k,
    ensures
        forall|k2: Seq<char>|
            #[trigger] lookup(s.update(i, (k, w)), k2) == if k2 == k {
                Some(w)
            } else {
                lookup(s, k2)
            },
{
    assert forall|k2: Seq<char>|
        #[trigger] lookup(s.update(i, (k, w)), k2) == if k2 == k {
            Some(w)
        } else {
            lookup(s, k2)
        } by {
        lemma_lookup_update_at(s, k, i, w, k2);
    }
}

/// Appending an entry with a new key changes only the lookup of that key.
pub proof fn lemma_lookup_push_at<W>(s: Seq<(Seq<char>, W)>, k: Seq<char>, w: W, k2: Seq<char>)
    requires
        lookup(s, k) is None,
    ensures
        lookup(s.push((k, w)), k2) == if k2 == k {
            Some(w)
        } else {
            lookup(s, k2)
        },
    decreases s.len(),
{
    let u = s.push((k, w));
    if s.len() == 0 {
        assert(u.drop_first() =~= s);
    } else {
        assert(u[0] == s[0]);
        assert(u.drop_first() =~= s.drop_first().push((k, w)));
        if s[0].0 != k2 {
            lemma_lookup_push_at(s.drop_first(), k, w, k2);
        }
    }
}

/// Appending an entry with a new key changes only the lookup of that key.
pub proof fn lemma_lookup_push<W>(s: Seq<(Seq<char>, W)>, k: Seq<char>, w: W)
    requires
        lookup(s, k) is None,
    ensures
        forall|k2: Seq<char>|
            #[trigger] lookup(s.push((k, w)), k2) == if k2 == k {
                Some(w)
            } else {
                lookup(s, k2)
            },
{
    assert forall|k2: Seq<char>|
        #[trigger] lookup(s.push((k, w)), k2) == if k2 == k {
            Some(w)
        } else {
            lookup(s, k2)
        } by {
        lemma_lookup_push_at(s, k, w, k2);
    }
}

/// A map from strings to values: the value of a key is that of the first
/// entry that holds the key; `insert` keeps keys unique.
pub struct StrMap<V> {
    pub entries: Vec<(String, V)>,
}

/// The map that an entry list describes: each key to the value of its first entry.
pub open spec fn map_of<W>(s: Seq<(Seq<char>, W)>) -> Map<Seq<char>, W> {
    Map::new(|k: Seq<char>| lookup(s, k) is Some, |k: Seq<char>| lookup(s, k)->0)
}

/// The value of `k` in a map, if it holds `k`.
pub open spec fn map_get<W>(m: Map<Seq<char>, W>, k: Seq<char>) -> Option<W> {
    if m.dom().contains(k) {
        Some(m[k])
    } else {
        None
    }
}

impl<V: DeepView> View for StrMap<V> {
    type V = Map<Seq<char>, V::V>;

    open spec fn view(&self) -> Map<Seq<char>, V::V> {
        map_of(self.entries.deep_view())
    }
}

impl<V: DeepView> DeepView for StrMap<V> {
    type V = Map<Seq<char>, V::V>;

    open spec fn deep_view(&self) -> Map<Seq<char>, V::V> {
        self@
    }
}

impl<V: DeepView> StrMap<V> {
    /// The entries, each taken by its view.
    pub open spec fn entries_view(&self) -> Seq<(Seq<char>, V::V)> {
        self.entries.deep_view()
    }

    /// The value of key `k`.
    pub open spec fn spec_get(&self, k: Seq<char>) -> Option<V::V> {
        lookup(self.entries_view(), k)
    }

    /// An empty map.
    pub fn new() -> (m: Self)
        ensures
            m.entries_view() == Seq::<(Seq<char>, V::V)>::empty(),
            m@ == Map::<Seq<char>, V::V>::empty(),
    {
        let m = StrMap { entries: Vec::new() };
        assert(m@ =~= Map::<Seq<char>, V::V>::empty());
        m
    }

    /// Index of the first entry with key `key`.
    fn find(&self, key: &str) -> (r: Option<usize>)
        ensures
            match r {
                Some(i) => i < self.entries_view().len() && self.entries_view()[i as int].0 == key@ && forall|j: int|
                    0 <= j < i ==> self.entries_view()[j].0 != key@,
                None => forall|j: int| 0 <= j < self.entries_view().len() ==> self.entries_view()[j].0 != key@,
            },
    {
        let mut i: usize = 0;
        while i < self.entries.len()
            invariant
                i <= self.entries.len(),
                forall|j: int| 0 <= j < i ==> self.entries_view()[j].0 != key@,
            decreases self.entries.len() - i,
        {
            if str_eq(self.entries[i].0.as_str(), key) {
                return Some(i);
            }
            i = i + 1;
        }
        None
    }

    /// The value of `key`, if the map holds it.
    pub fn get(&self, key: &str) -> (r: Option<&V>)
        ensures
            match r {
                Some(v) => self.spec_get(key@) == Some(v.deep_view()),
                None => self.spec_get(key@) is None,
            },
    {
        let f = self.find(key);
        proof {
            match f {
                Some(i) => lemma_lookup_first(self.entries_view(), key@, i as int),
                None => lemma_lookup_first(self.entries_view(), key@, self.entries_view().len() as int),
            }
        }
        match f {
            Some(i) => Some(&self.entries[i].1),
            None => None,
        }
    }

    /// Whether the map holds `key`.
    pub fn contains_key(&self, key: &str) -> (r: bool)
        ensures
            r == self.spec_get(key@) is Some,
    {
        self.get(key).is_some()
    }

    /// Sets the value of `key`, replacing the entry that holds it or adding one at the end.
    pub fn insert(&mut self, key: String, value: V)
        ensures
            forall|k: Seq<char>|
                #[trigger] final(self).spec_get(k) == if k == key@ {
                    Some(value.deep_view())
                } else {
                    old(self).spec_get(k)
                },
            final(self)@ == old(self)@.insert(key@, value.deep_view()),
    {
        let ghost kv = key@;
        let ghost wv = value.deep_view();
        let ghost s = self.entries_view();
        let ghost m0 = self@;
        let f = self.find(key.as_str());
        match f {
            Some(i) => {
                self.entries.set(i, (key, value));
                proof {
                    assert(self.entries_view() =~= s.update(i as int, (kv, wv)));
                    lemma_lookup_update(s, kv, i as int, wv);
                }
            },
            None => {
                self.entries.push((key, value));
                proof {
                    assert(self.entries_view() =~= s.push((kv, wv)));
                    lemma_lookup_first(s, kv, s.len() as int);
                    lemma_lookup_push(s, kv, wv);
                }
            },
        }
        assert(self@ =~= m0.insert(kv, wv)) by {
            assert forall|k: Seq<char>| self@.dom().contains(k) <==> m0.insert(kv, wv).dom().contains(k) by {
                assert(self.spec_get(k) == if k == kv { Some(wv) } else { old(self).spec_get(k) });
            }
            assert forall|k: Seq<char>| self@.dom().contains(k) implies self@[k] == m0.insert(kv, wv)[k] by {
                assert(self.spec_get(k) == if k == kv { Some(wv) } else { old(self).spec_get(k) });
            }
        }
    }

    /// Whether the map holds no key.
    pub fn is_empty(&self) -> (r: bool)
        ensures
            r == (self.entries_view().len() == 0),
            r == forall|k: Seq<char>| #[trigger] self.spec_get(k) is None,
            r == (self@ == Map::<Seq<char>, V::V>::empty()),
    {
        proof {
            if self.entries_view().len() > 0 {
                let k0 = self.entries_view()[0].0;
                assert(self.spec_get(k0) is Some);
                assert(self@.dom().contains(k0));
                assert(!Map::<Seq<char>, V::V>::empty().dom().contains(k0));
            } else {
                assert forall|k: Seq<char>| #[trigger] self.spec_get(k) is None by {
                    lemma_lookup_some(self.entries_view(), k);
                }
                assert(self@ =~= Map::<Seq<char>, V::V>::empty());
            }
        }
        self.entries.len() == 0
    }
}

impl<V: DeepCopy> StrMap<V> {
    /// A copy of the map with the same entries.
    pub fn deep_copy_map(&self) -> (r: Self)
        ensures
            r.entries_view() == self.entries_view(),
            r@ == self@,
    {
        let mut entries: Vec<(String, V)> = Vec::new();
        let mut i: usize = 0;
        while i < self.entries.len()
            invariant
                i <= self.entries.len(),
                entries@.len() == i,
                forall|j: int| 0 <= j < i ==> #[trigger] entries@[j].deep_view() == self.entries@[j].deep_view(),
            decreases self.entries.len() - i,
        {
            let e = &self.entries[i];
            let k = e.0.clone();
            let v = e.1.deep_copy();
            entries.push((k, v));
            i = i + 1;
        }
        assert(entries.deep_view() =~= self.entries.deep_view());
        StrMap { entries }
    }
}

impl<V: DeepCopy> Clone for StrMap<V> {
    fn clone(&self) -> (r: Self)
        ensures
            r.entries_view() == self.entries_view(),
            r@ == self@,
    {
        self.deep_copy_map()
    }
}

impl<V: DeepCopy> DeepCopy for StrMap<V> {
    fn deep_copy(&self) -> (r: Self) {
        self.deep_copy_map()
    }
}


/// Appends an item to a vector, extending its deep view by the item's.
pub fn push_deep<T: DeepView>(v: &mut Vec<T>, x: T)
    ensures
        final(v).deep_view() == old(v).deep_view().push(x.deep_view()),
{
    let ghost xv = x.deep_view();
    v.push(x);
    assert(v.deep_view() =~= old(v).deep_view().push(xv)) by {
        assert forall|j: int| 0 <= j < v@.len() implies #[trigger] v.deep_view()[j] == old(v).deep_view().push(xv)[j] by {
            if j < old(v)@.len() {
                assert(v@[j] == old(v)@[j]);
            }
        }
    }
}

} // verus!
