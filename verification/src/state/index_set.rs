//! A set of prefix indices, kept as a strictly increasing list.
use vstd::prelude::*;

verus! {

/// Every element of `s` is smaller than every later one.
pub open spec fn increasing(s: Seq<usize>) -> bool {
    forall|i: int, j: int| 0 <= i < j < s.len() ==> s[i] < s[j]
}

/// A set of indices. Its view is its elements in increasing order.
pub struct IndexSet {
    items: Vec<usize>,
}

impl View for IndexSet {
    type V = Seq<usize>;

    closed spec fn view(&self) -> Seq<usize> {
        self.items@
    }
}

/// Two increasing lists with the same elements are the same list.
pub proof fn lemma_increasing_unique(a: Seq<usize>, b: Seq<usize>)
    requires
        increasing(a),
        increasing(b),
        forall|x: usize| a.contains(x) <==> b.contains(x),
    ensures
        a == b,
    decreases a.len() + b.len(),
{
    if a.len() > 0 && b.len() > 0 {
        // the first elements are both the minimum
        assert(a.contains(a[0]));
        assert(b.contains(b[0]));
        let ka = choose|k: int| 0 <= k < b.len() && b[k] == a[0];
        let kb = choose|k: int| 0 <= k < a.len() && a[k] == b[0];
        assert(a[0] == b[0]) by {
            if ka > 0 {
                assert(b[0] < b[ka]);
                if kb > 0 {
                    assert(a[0] < a[kb]);
                }
            }
        }
        assert forall|x: usize| a.drop_first().contains(x) <==> b.drop_first().contains(x) by {
            if a.drop_first().contains(x) {
                let k = choose|k: int| 0 <= k < a.len() - 1 && a.drop_first()[k] == x;
                assert(a[k + 1] == x && a[0] < a[k + 1]);
                assert(a.contains(x));
                let m = choose|m: int| 0 <= m < b.len() && b[m] == x;
                assert(m != 0);
                assert(b.drop_first()[m - 1] == x);
            }
            if b.drop_first().contains(x) {
                let k = choose|k: int| 0 <= k < b.len() - 1 && b.drop_first()[k] == x;
                assert(b[k + 1] == x && b[0] < b[k + 1]);
                assert(b.contains(x));
                let m = choose|m: int| 0 <= m < a.len() && a[m] == x;
                assert(m != 0);
                assert(a.drop_first()[m - 1] == x);
            }
        }
        lemma_increasing_unique(a.drop_first(), b.drop_first());
        assert(a =~= seq![a[0]] + a.drop_first());
        assert(b =~= seq![b[0]] + b.drop_first());
    } else if a.len() > 0 {
        assert(a.contains(a[0]));
    } else if b.len() > 0 {
        assert(b.contains(b[0]));
    } else {
        assert(a =~= b);
    }
}

/// Removing an element just added (absent before) gives the set back.
pub proof fn lemma_insert_then_remove(before: Seq<usize>, mid: Seq<usize>, after: Seq<usize>, x: usize)
    requires
        increasing(before),
        increasing(mid),
        increasing(after),
        !before.contains(x),
        forall|y: usize| mid.contains(y) <==> (before.contains(y) || y == x),
        forall|y: usize| after.contains(y) <==> (mid.contains(y) && y != x),
    ensures
        after == before,
{
    lemma_increasing_unique(after, before);
}

/// Adding an element already present changes nothing.
pub proof fn lemma_insert_present(before: Seq<usize>, after: Seq<usize>, x: usize)
    requires
        increasing(before),
        increasing(after),
        before.contains(x),
        forall|y: usize| after.contains(y) <==> (before.contains(y) || y == x),
    ensures
        after == before,
{
    lemma_increasing_unique(after, before);
}

impl IndexSet {
    /// The list is strictly increasing: the invariant of every set.
    #[verifier::type_invariant]
    pub open spec fn wf(&self) -> bool {
        increasing(self@)
    }

    /// The empty set.
    pub fn new() -> (r: Self)
        ensures
            r@ == Seq::<usize>::empty(),
            r.wf(),
    {
        IndexSet { items: Vec::new() }
    }

    /// Whether `x` is in the set.
    pub fn contains(&self, x: &usize) -> (r: bool)
        ensures
            r == self@.contains(*x),
    {
        let mut k: usize = 0;
        while k < self.items.len()
            invariant
                k <= self.items.len(),
                forall|j: int| 0 <= j < k ==> self.items@[j] != *x,
            decreases self.items.len() - k,
        {
            if self.items[k] == *x {
                assert(self@[k as int] == *x);
                return true;
            }
            k = k + 1;
        }
        false
    }

    pub fn is_empty(&self) -> (r: bool)
        ensures
            r == (self@.len() == 0),
    {
        self.items.len() == 0
    }

    pub fn len(&self) -> (r: usize)
        ensures
            r == self@.len(),
    {
        self.items.len()
    }

    /// Empties the set.
    pub fn clear(&mut self)
        ensures
            final(self)@ == Seq::<usize>::empty(),
            final(self).wf(),
    {
        self.items = Vec::new();
    }

    /// Adds `x`; true when it was not there yet.
    pub fn insert(&mut self, x: usize) -> (r: bool)
        ensures
            final(self).wf(),
            forall|y: usize| final(self)@.contains(y) <==> (old(self)@.contains(y) || y == x),
            r == !old(self)@.contains(x),
    {
        proof {
            use_type_invariant(&*self);
        }
        let mut items: Vec<usize> = Vec::new();
        std::mem::swap(&mut items, &mut self.items);
        let mut p: usize = 0;
        while p < items.len() && items[p] < x
            invariant
                p <= items.len(),
                increasing(items@),
                forall|j: int| 0 <= j < p ==> items@[j] < x,
            decreases items.len() - p,
        {
            p = p + 1;
        }
        if p < items.len() && items[p] == x {
            assert(items@.contains(x));
            self.items = items;
            return false;
        }
        assert(!items@.contains(x)) by {
            if items@.contains(x) {
                let k = choose|k: int| 0 <= k < items@.len() && items@[k] == x;
                if k >= p {
                    assert(items@[p as int] <= items@[k]);
                }
            }
        }
        let ghost old_items = items@;
        items.insert(p, x);
        assert(items@ =~= old_items.insert(p as int, x));
        assert forall|i: int, j: int| 0 <= i < j < items@.len() implies items@[i]
            < items@[j] by {
            if j < p {
            } else if j == p {
                assert(old_items[i] < x);
            } else if i == p {
                assert(old_items[p as int] <= old_items[j - 1]);
                assert(x < old_items[p as int]);
            } else if i < p {
                assert(old_items[i] < x);
                assert(x < old_items[p as int] && old_items[p as int] <= old_items[j - 1]);
            } else {
            }
        }
        assert forall|y: usize| items@.contains(y) <==> (old_items.contains(y) || y == x) by {
            if items@.contains(y) {
                let k = choose|k: int| 0 <= k < items@.len() && items@[k] == y;
                if k < p {
                    assert(old_items[k] == y);
                } else if k > p {
                    assert(old_items[k - 1] == y);
                }
            }
            if old_items.contains(y) {
                let k = choose|k: int| 0 <= k < old_items.len() && old_items[k] == y;
                if k < p {
                    assert(items@[k] == y);
                } else {
                    assert(items@[k + 1] == y);
                }
            }
            if y == x {
                assert(items@[p as int] == x);
            }
        }
        self.items = items;
        true
    }

    /// Removes `x`; true when it was there.
    pub fn remove(&mut self, x: &usize) -> (r: bool)
        ensures
            final(self).wf(),
            forall|y: usize| final(self)@.contains(y) <==> (old(self)@.contains(y) && y != *x),
            r == old(self)@.contains(*x),
    {
        proof {
            use_type_invariant(&*self);
        }
        let mut items: Vec<usize> = Vec::new();
        std::mem::swap(&mut items, &mut self.items);
        let mut p: usize = 0;
        while p < items.len() && items[p] < *x
            invariant
                p <= items.len(),
                increasing(items@),
                forall|j: int| 0 <= j < p ==> items@[j] < *x,
            decreases items.len() - p,
        {
            p = p + 1;
        }
        if !(p < items.len() && items[p] == *x) {
            assert(!items@.contains(*x)) by {
                if items@.contains(*x) {
                    let k = choose|k: int| 0 <= k < items@.len() && items@[k] == *x;
                    if k > p {
                        assert(items@[p as int] < items@[k]);
                    }
                }
            }
            self.items = items;
            return false;
        }
        let ghost old_items = items@;
        items.remove(p);
        assert(items@ =~= old_items.remove(p as int));
        assert forall|y: usize| items@.contains(y) <==> (old_items.contains(y) && y != *x) by {
            if items@.contains(y) {
                let k = choose|k: int| 0 <= k < items@.len() && items@[k] == y;
                if k < p {
                    assert(old_items[k] == y);
                    assert(old_items[k] < old_items[p as int]);
                } else {
                    assert(old_items[k + 1] == y);
                    assert(old_items[p as int] < old_items[k + 1]);
                }
            }
            if old_items.contains(y) && y != *x {
                let k = choose|k: int| 0 <= k < old_items.len() && old_items[k] == y;
                if k < p {
                    assert(items@[k] == y);
                } else {
                    assert(k != p);
                    assert(items@[k - 1] == y);
                }
            }
        }
        self.items = items;
        true
    }

    /// The elements, in increasing order.
    pub fn to_vec(&self) -> (r: Vec<usize>)
        ensures
            r@ == self@,
    {
        self.items.clone()
    }
}

} // verus!
