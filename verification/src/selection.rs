//! A set of row indices, kept sorted.
use vstd::prelude::*;

verus! {

/// The items of `s` are strictly increasing.
pub open spec fn strictly_sorted(s: Seq<usize>) -> bool {
    forall|a: int, b: int| 0 <= a < b < s.len() ==> s[a] < s[b]
}

/// The indices of a finite set in increasing order.
pub open spec fn sorted_list(s: Set<usize>) -> Seq<usize> {
    choose|l: Seq<usize>| strictly_sorted(l) && l.to_set() == s
}

/// A strictly increasing list is determined by its set of items.
pub proof fn lemma_sorted_unique(a: Seq<usize>, b: Seq<usize>)
    requires
        strictly_sorted(a),
        strictly_sorted(b),
        a.to_set() == b.to_set(),
    ensures
        a == b,
    decreases a.len(),
{
    if a.len() == 0 {
        if b.len() > 0 {
            assert(b.to_set().contains(b[0]));
        }
        assert(a =~= b);
    } else {
        if b.len() == 0 {
            assert(a.to_set().contains(a[0]));
        }
        assert(a.to_set().contains(a[0]));
        assert(b.to_set().contains(b[0]));
        let i = choose|i: int| 0 <= i < a.len() && a[i] == b[0];
        let j = choose|j: int| 0 <= j < b.len() && b[j] == a[0];
        if i > 0 {
            assert(a[0] < a[i]);
        }
        if j > 0 {
            assert(b[0] < b[j]);
        }
        assert(a[0] == b[0]);
        let ra = a.drop_first();
        let rb = b.drop_first();
        assert(strictly_sorted(ra)) by {
            assert forall|x: int, y: int| 0 <= x < y < ra.len() implies ra[x] < ra[y] by {
                assert(ra[x] == a[x + 1] && ra[y] == a[y + 1]);
            }
        }
        assert(strictly_sorted(rb)) by {
            assert forall|x: int, y: int| 0 <= x < y < rb.len() implies rb[x] < rb[y] by {
                assert(rb[x] == b[x + 1] && rb[y] == b[y + 1]);
            }
        }
        assert(ra.to_set() =~= rb.to_set()) by {
            assert forall|v: usize| ra.to_set().contains(v) implies rb.to_set().contains(v) by {
                let x = choose|x: int| 0 <= x < ra.len() && ra[x] == v;
                assert(a[x + 1] == v && a[0] < v);
                assert(a.to_set().contains(v));
                let y = choose|y: int| 0 <= y < b.len() && b[y] == v;
                assert(y != 0);
                assert(rb[y - 1] == v);
            }
            assert forall|v: usize| rb.to_set().contains(v) implies ra.to_set().contains(v) by {
                let x = choose|x: int| 0 <= x < rb.len() && rb[x] == v;
                assert(b[x + 1] == v && b[0] < v);
                assert(b.to_set().contains(v));
                let y = choose|y: int| 0 <= y < a.len() && a[y] == v;
                assert(y != 0);
                assert(ra[y - 1] == v);
            }
        }
        lemma_sorted_unique(ra, rb);
        assert(a =~= b) by {
            assert forall|k: int| 0 <= k < a.len() implies a[k] == b[k] by {
                if k > 0 {
                    assert(a[k] == ra[k - 1] && b[k] == rb[k - 1]);
                }
            }
        }
    }
}

/// A set of indices, held as a strictly increasing list.
pub struct IndexSet {
    pub items: Vec<usize>,
}

impl View for IndexSet {
    type V = Set<usize>;

    open spec fn view(&self) -> Set<usize> {
        self.items@.to_set()
    }
}

impl IndexSet {
    /// The list is strictly increasing.
    pub open spec fn wf(&self) -> bool {
        strictly_sorted(self.items@)
    }

    /// Whether the list is strictly increasing.
    pub fn is_well_formed(&self) -> (r: bool)
        ensures
            r == self.wf(),
    {
        let mut i: usize = 1;
        if self.items.len() == 0 {
            return true;
        }
        while i < self.items.len()
            invariant
                1 <= i <= self.items@.len(),
                forall|a: int, b: int| 0 <= a < b < i ==> self.items@[a] < self.items@[b],
            decreases self.items.len() - i,
        {
            if self.items[i - 1] >= self.items[i] {
                return false;
            }
            proof {
                assert forall|a: int, b: int| 0 <= a < b < i + 1 implies self.items@[a] < self.items@[b] by {
                    if b == i && a < i - 1 {
                        assert(self.items@[a] < self.items@[i - 1]);
                    }
                }
            }
            i = i + 1;
        }
        true
    }

    /// The empty set.
    pub fn new() -> (s: IndexSet)
        ensures
            s.wf(),
            s@ == Set::<usize>::empty(),
            s.items@.len() == 0,
    {
        let s = IndexSet { items: Vec::new() };
        assert(s@ =~= Set::<usize>::empty());
        s
    }

    /// Position of the first item not below `x`.
    fn position(&self, x: usize) -> (p: usize)
        requires
            self.wf(),
        ensures
            p <= self.items@.len(),
            forall|a: int| 0 <= a < p ==> self.items@[a] < x,
            p < self.items@.len() ==> self.items@[p as int] >= x,
    {
        let mut p: usize = 0;
        while p < self.items.len() && self.items[p] < x
            invariant
                p <= self.items@.len(),
                forall|a: int| 0 <= a < p ==> self.items@[a] < x,
            decreases self.items.len() - p,
        {
            p = p + 1;
        }
        p
    }

    /// Whether the set holds `x`.
    pub fn contains(&self, x: &usize) -> (r: bool)
        requires
            self.wf(),
        ensures
            r == self@.contains(*x),
    {
        let p = self.position(*x);
        let r = p < self.items.len() && self.items[p] == *x;
        proof {
            if !r && self.items@.contains(*x) {
                let a = choose|a: int| 0 <= a < self.items@.len() && self.items@[a] == *x;
                if a < p {
                } else if a > p {
                    assert(self.items@[p as int] < self.items@[a]);
                }
            }
        }
        r
    }

    /// Whether the set is empty.
    pub fn is_empty(&self) -> (r: bool)
        ensures
            r == (self@ == Set::<usize>::empty()),
    {
        proof {
            if self.items@.len() > 0 {
                assert(self@.contains(self.items@[0]));
            } else {
                assert(self@ =~= Set::<usize>::empty());
            }
        }
        self.items.len() == 0
    }

    /// Number of indices in the set.
    pub fn len(&self) -> (n: usize)
        requires
            self.wf(),
        ensures
            n == self@.len(),
            self@.finite(),
    {
        proof {
            assert(self.items@.no_duplicates()) by {
                assert forall|a: int, b: int|
                    0 <= a < self.items@.len() && 0 <= b < self.items@.len() && a != b implies self.items@[a]
                    != self.items@[b] by {
                    if a < b {
                    } else {
                    }
                }
            }
            self.items@.unique_seq_to_set();
            self.items@.lemma_cardinality_of_set();
        }
        self.items.len()
    }

    /// Adds `x`; true when it was not in the set.
    pub fn insert(&mut self, x: usize) -> (r: bool)
        requires
            old(self).wf(),
        ensures
            final(self).wf(),
            final(self)@ == old(self)@.insert(x),
            r == !old(self)@.contains(x),
    {
        let p = self.position(x);
        if p < self.items.len() && self.items[p] == x {
            assert(self@ =~= old(self)@.insert(x));
            return false;
        }
        let ghost s = self.items@;
        self.items.insert(p, x);
        proof {
            assert(self.items@ =~= s.insert(p as int, x));
            assert forall|a: int, b: int| 0 <= a < b < self.items@.len() implies self.items@[a] < self.items@[b] by {
                if b < p {
                } else if a < p && b == p {
                } else if a < p {
                    assert(self.items@[b] == s[b - 1]);
                } else if a == p {
                    assert(self.items@[b] == s[b - 1]);
                } else {
                    assert(self.items@[a] == s[a - 1]);
                    assert(self.items@[b] == s[b - 1]);
                }
            }
            assert forall|y: usize| self@.contains(y) <==> old(self)@.insert(x).contains(y) by {
                if self@.contains(y) {
                    let a = choose|a: int| 0 <= a < self.items@.len() && self.items@[a] == y;
                    if a < p {
                        assert(s[a] == y);
                    } else if a > p {
                        assert(s[a - 1] == y);
                    }
                }
                if old(self)@.contains(y) {
                    let a = choose|a: int| 0 <= a < s.len() && s[a] == y;
                    if a < p {
                        assert(self.items@[a] == y);
                    } else {
                        assert(self.items@[a + 1] == y);
                    }
                }
                if y == x {
                    assert(self.items@[p as int] == x);
                }
            }
            assert(self@ =~= old(self)@.insert(x));
            if s.contains(x) {
                let a = choose|a: int| 0 <= a < s.len() && s[a] == x;
                if a < p {
                } else if a > p {
                    assert(s[p as int] < s[a]);
                }
            }
        }
        true
    }

    /// Removes `x`; true when it was in the set.
    pub fn remove(&mut self, x: &usize) -> (r: bool)
        requires
            old(self).wf(),
        ensures
            final(self).wf(),
            final(self)@ == old(self)@.remove(*x),
            r == old(self)@.contains(*x),
    {
        let p = self.position(*x);
        if p < self.items.len() && self.items[p] == *x {
            let ghost s = self.items@;
            self.items.remove(p);
            proof {
                assert(self.items@ =~= s.remove(p as int));
                assert forall|a: int, b: int| 0 <= a < b < self.items@.len() implies self.items@[a] < self.items@[b] by {
                    if b < p {
                    } else if a < p {
                        assert(self.items@[b] == s[b + 1]);
                    } else {
                        assert(self.items@[a] == s[a + 1]);
                        assert(self.items@[b] == s[b + 1]);
                    }
                }
                assert forall|y: usize| self@.contains(y) <==> old(self)@.remove(*x).contains(y) by {
                    if self@.contains(y) {
                        let a = choose|a: int| 0 <= a < self.items@.len() && self.items@[a] == y;
                        if a < p {
                            assert(s[a] == y);
                            assert(s[a] < s[p as int]);
                        } else {
                            assert(s[a + 1] == y);
                            assert(s[p as int] < s[a + 1]);
                        }
                    }
                    if old(self)@.remove(*x).contains(y) {
                        let a = choose|a: int| 0 <= a < s.len() && s[a] == y;
                        if a < p {
                            assert(self.items@[a] == y);
                        } else if a > p {
                            assert(self.items@[a - 1] == y);
                        }
                    }
                }
                assert(self@ =~= old(self)@.remove(*x));
            }
            true
        } else {
            proof {
                if self.items@.contains(*x) {
                    let a = choose|a: int| 0 <= a < self.items@.len() && self.items@[a] == *x;
                    if a < p {
                    } else if a > p {
                        assert(self.items@[p as int] < self.items@[a]);
                    }
                }
                assert(self@ =~= old(self)@.remove(*x));
            }
            false
        }
    }

    /// Removes every index.
    pub fn clear(&mut self)
        ensures
            final(self).wf(),
            final(self)@ == Set::<usize>::empty(),
            final(self).items@.len() == 0,
    {
        self.items.clear();
        assert(self@ =~= Set::<usize>::empty());
    }

    /// The indices in increasing order.
    pub fn sorted(&self) -> (v: Vec<usize>)
        requires
            self.wf(),
        ensures
            v@ == self.items@,
            v@ == sorted_list(self@),
            strictly_sorted(v@),
            v@.to_set() == self@,
    {
        proof {
            let l = sorted_list(self@);
            assert(strictly_sorted(self.items@) && self.items@.to_set() == self@);
            lemma_sorted_unique(l, self.items@);
        }
        let mut v: Vec<usize> = Vec::new();
        let mut i: usize = 0;
        while i < self.items.len()
            invariant
                i <= self.items@.len(),
                v@ == self.items@.take(i as int),
            decreases self.items.len() - i,
        {
            v.push(self.items[i]);
            i = i + 1;
            assert(v@ =~= self.items@.take(i as int));
        }
        assert(v@ =~= self.items@);
        v
    }
}

impl Clone for IndexSet {
    fn clone(&self) -> (r: Self)
        ensures
            r.items@ == self.items@,
    {
        IndexSet { items: self.items.clone() }
    }
}

} // verus!
