use crate::algebra::matrix::copy_vec;
use crate::element::Element;
use crate::error::MathError;
use vstd::prelude::*;

verus! {

/// The sum of the integers of the first `k` elements of `s`.
pub open spec fn prefix_sum<N: Element>(s: Seq<N>, k: int) -> int
    decreases k,
{
    if k <= 0 {
        0
    } else {
        prefix_sum(s, k - 1) + s[k - 1].as_int()
    }
}

/// Whether `x` may stand before `y` in ascending order (or, with
/// `descending`, in descending order).
pub open spec fn in_order<N: Element>(x: N, y: N, descending: bool) -> bool {
    if descending {
        x.as_int() >= y.as_int()
    } else {
        x.as_int() <= y.as_int()
    }
}

/// Every element may stand before every later one.
pub open spec fn is_ordered<N: Element>(s: Seq<N>, descending: bool) -> bool {
    forall|i: int, j: int| 0 <= i < j < s.len() ==> in_order(#[trigger] s[i], #[trigger] s[j], descending)
}

proof fn lemma_swap_multiset<N>(s: Seq<N>, a: int, b: int)
    requires
        0 <= a < s.len(),
        0 <= b < s.len(),
    ensures
        s.update(a, s[b]).update(b, s[a]).to_multiset() == s.to_multiset(),
{
    broadcast use vstd::seq_lib::group_to_multiset_ensures, vstd::multiset::group_multiset_axioms;

    let m = s.to_multiset();
    let s1 = s.update(a, s[b]);
    assert(s1[b] == s[b]);
    assert(s.contains(s[a]));
    assert(m.count(s[a]) > 0);
    assert(s1.to_multiset() == m.insert(s[b]).remove(s[a]));
    assert(s1.update(b, s[a]).to_multiset() == s1.to_multiset().insert(s[a]).remove(s[b]));
    assert(s1.update(b, s[a]).to_multiset() =~= m);
}

/// A resizable sequence of numbers.
pub struct Vector<N> {
    values: Vec<N>,
}

impl<N> View for Vector<N> {
    type V = Seq<N>;

    closed spec fn view(&self) -> Seq<N> {
        self.values@
    }
}

impl<N: Copy> Vector<N> {
    /// An empty vector.
    pub fn new() -> (r: Vector<N>)
        ensures
            r@ == Seq::<N>::empty(),
    {
        Vector { values: Vec::new() }
    }

    /// A vector holding a copy of `val`.
    pub fn init(val: &Vec<N>) -> (r: Vector<N>)
        ensures
            r@ == val@,
    {
        Vector { values: copy_vec(val) }
    }

    /// The number of elements.
    pub fn size(&self) -> (r: usize)
        ensures
            r == self@.len(),
    {
        self.values.len()
    }

    /// Appends `val` at the end.
    pub fn push(&mut self, val: N)
        ensures
            final(self)@ == old(self)@.push(val),
    {
        self.values.push(val);
    }

    /// Removes the element at `index`, moving the later ones down.
    pub fn remove(&mut self, index: usize) -> (r: Result<(), MathError>)
        ensures
            r is Ok <==> index < old(self)@.len(),
            r is Ok ==> final(self)@ == old(self)@.remove(index as int),
            r is Err ==> r == Err::<(), MathError>(MathError::IndexOutOfBounds) && final(self)@ == old(self)@,
    {
        if index >= self.values.len() {
            return Err(MathError::IndexOutOfBounds);
        }
        self.values.remove(index);
        Ok(())
    }

    /// Removes and returns the last element, if any.
    pub fn pop(&mut self) -> (r: Option<N>)
        ensures
            match r {
                Some(v) => old(self)@.len() > 0 && v == old(self)@.last() && final(self)@ == old(self)@.drop_last(),
                None => old(self)@.len() == 0 && final(self)@ == old(self)@,
            },
    {
        self.values.pop()
    }

    /// Exchanges the elements at `a` and `b`.
    pub fn swap(&mut self, a: usize, b: usize) -> (r: Result<(), MathError>)
        ensures
            r is Ok <==> a < old(self)@.len() && b < old(self)@.len(),
            r is Ok ==> final(self)@ == old(self)@.update(a as int, old(self)@[b as int]).update(
                b as int,
                old(self)@[a as int],
            ),
            r is Err ==> r == Err::<(), MathError>(MathError::IndexOutOfBounds) && final(self)@ == old(self)@,
    {
        if a >= self.values.len() || b >= self.values.len() {
            return Err(MathError::IndexOutOfBounds);
        }
        let x: N = self.values[a];
        let y: N = self.values[b];
        self.values[a] = y;
        self.values[b] = x;
        Ok(())
    }

    /// Appends a copy of the elements of `other`, which is left as it was.
    pub fn append(&mut self, other: &Vector<N>)
        ensures
            final(self)@ == old(self)@ + other@,
    {
        let mut i: usize = 0;
        while i < other.values.len()
            invariant
                i <= other@.len(),
                self@ == old(self)@ + other@.subrange(0, i as int),
            decreases other@.len() - i,
        {
            self.values.push(other.values[i]);
            i = i + 1;
            assert(self@ =~= old(self)@ + other@.subrange(0, i as int));
        }
        assert(other@.subrange(0, i as int) =~= other@);
    }

    /// Removes every element.
    pub fn clear(&mut self)
        ensures
            final(self)@ == Seq::<N>::empty(),
    {
        self.values.clear();
    }

    /// The element at `idx`.
    pub fn el(&self, idx: usize) -> (r: Result<N, MathError>)
        ensures
            idx < self@.len() ==> r == Ok::<N, MathError>(self@[idx as int]),
            idx >= self@.len() ==> r == Err::<N, MathError>(MathError::IndexOutOfBounds),
    {
        if idx >= self.values.len() {
            return Err(MathError::IndexOutOfBounds);
        }
        Ok(self.values[idx])
    }

    /// Replaces the element at `idx` by `val`.
    pub fn set_el(&mut self, idx: usize, val: N) -> (r: Result<(), MathError>)
        ensures
            r is Ok <==> idx < old(self)@.len(),
            r is Ok ==> final(self)@ == old(self)@.update(idx as int, val),
            r is Err ==> r == Err::<(), MathError>(MathError::IndexOutOfBounds) && final(self)@ == old(self)@,
    {
        if idx >= self.values.len() {
            return Err(MathError::IndexOutOfBounds);
        }
        self.values[idx] = val;
        Ok(())
    }
}

impl<N: Element> Vector<N> {
    /// A vector of `size` copies of `v`.
    fn filled_with(size: usize, v: N) -> (r: Vector<N>)
        ensures
            r@ == Seq::new(size as nat, |i: int| v),
    {
        let mut values: Vec<N> = Vec::new();
        let mut i: usize = 0;
        while i < size
            invariant
                i <= size,
                values@ == Seq::new(i as nat, |k: int| v),
            decreases size - i,
        {
            values.push(v);
            i = i + 1;
            assert(values@ =~= Seq::new(i as nat, |k: int| v));
        }
        Vector { values }
    }

    /// A vector of `size` zeros.
    pub fn zeros(size: usize) -> (r: Vector<N>)
        ensures
            r@ == Seq::new(size as nat, |i: int| N::from_int(0)),
    {
        let z = N::zero();
        proof {
            crate::element::lemma_from_as_int(z);
        }
        Self::filled_with(size, z)
    }

    /// A vector of `size` ones.
    pub fn ones(size: usize) -> (r: Vector<N>)
        ensures
            r@ == Seq::new(size as nat, |i: int| N::from_int(1)),
    {
        let o = N::one();
        proof {
            crate::element::lemma_from_as_int(o);
        }
        Self::filled_with(size, o)
    }

    /// A vector of `size` values drawn at random from the closed range
    /// `[range[0], range[1]]`.
    pub fn random(size: usize, range: &[N; 2]) -> (r: Result<Vector<N>, MathError>)
        ensures
            r is Ok <==> range@[0].as_int() <= range@[1].as_int(),
            match r {
                Ok(v) => {
                    &&& v@.len() == size
                    &&& forall|i: int|
                        0 <= i < size ==> range@[0].as_int() <= (#[trigger] v@[i]).as_int() <= range@[1].as_int()
                },
                Err(e) => e == MathError::InvalidRange,
            },
    {
        let lo: N = range[0];
        let hi: N = range[1];
        if lo.greater(&hi) {
            return Err(MathError::InvalidRange);
        }
        let mut v = Vector::<N>::new();
        let mut i: usize = 0;
        while i < size
            invariant
                i <= size,
                lo == range@[0],
                hi == range@[1],
                lo.as_int() <= hi.as_int(),
                v@.len() == i,
                forall|k: int| 0 <= k < i ==> lo.as_int() <= (#[trigger] v@[k]).as_int() <= hi.as_int(),
            decreases size - i,
        {
            v.push(N::draw(lo, hi));
            i = i + 1;
        }
        Ok(v)
    }

    /// Reorders the elements so that each may stand before every later one
    /// in the chosen order, keeping the same elements.
    fn sort_in_order(&mut self, descending: bool)
        ensures
            is_ordered(final(self)@, descending),
            final(self)@.to_multiset() == old(self)@.to_multiset(),
    {
        let n = self.values.len();
        let mut i: usize = 0;
        while i < n
            invariant
                n == self@.len(),
                i <= n,
                self@.to_multiset() == old(self)@.to_multiset(),
                forall|a: int, b: int| 0 <= a < b < i ==> in_order(#[trigger] self@[a], #[trigger] self@[b], descending),
                forall|a: int, b: int| 0 <= a < i <= b < n ==> in_order(#[trigger] self@[a], #[trigger] self@[b], descending),
            decreases n - i,
        {
            let mut best: usize = i;
            let mut j: usize = i + 1;
            while j < n
                invariant
                    n == self@.len(),
                    i < n,
                    i <= best < n,
                    i < j <= n,
                    forall|k: int| i <= k < j ==> in_order(self@[best as int], #[trigger] self@[k], descending),
                decreases n - j,
            {
                let better = if descending {
                    self.values[j].greater(&self.values[best])
                } else {
                    self.values[best].greater(&self.values[j])
                };
                if better {
                    best = j;
                }
                j = j + 1;
            }
            let ghost before = self@;
            let x: N = self.values[i];
            let y: N = self.values[best];
            self.values[i] = y;
            self.values[best] = x;
            proof {
                assert(self@ == before.update(i as int, before[best as int]).update(best as int, before[i as int]));
                lemma_swap_multiset(before, i as int, best as int);
            }
            i = i + 1;
        }
    }

    /// Sorts the elements in ascending order.
    pub fn sort_min(&mut self)
        ensures
            is_ordered(final(self)@, false),
            final(self)@.to_multiset() == old(self)@.to_multiset(),
    {
        self.sort_in_order(false);
    }

    /// Sorts the elements in descending order.
    pub fn sort_max(&mut self)
        ensures
            is_ordered(final(self)@, true),
            final(self)@.to_multiset() == old(self)@.to_multiset(),
    {
        self.sort_in_order(true);
    }

    /// The largest element and the index of its first occurrence.
    pub fn max(&self) -> (r: (N, usize))
        requires
            self@.len() > 0,
        ensures
            r.1 < self@.len(),
            r.0 == self@[r.1 as int],
            forall|k: int| 0 <= k < self@.len() ==> (#[trigger] self@[k]).as_int() <= r.0.as_int(),
            forall|k: int| 0 <= k < r.1 ==> (#[trigger] self@[k]).as_int() < r.0.as_int(),
    {
        let mut i: usize = 0;
        let mut j: usize = 1;
        while j < self.values.len()
            invariant
                self@.len() > 0,
                i < j <= self@.len(),
                forall|k: int| 0 <= k < j ==> (#[trigger] self@[k]).as_int() <= self@[i as int].as_int(),
                forall|k: int| 0 <= k < i ==> (#[trigger] self@[k]).as_int() < self@[i as int].as_int(),
            decreases self@.len() - j,
        {
            if self.values[j].greater(&self.values[i]) {
                i = j;
            }
            j = j + 1;
        }
        (self.values[i], i)
    }

    /// The smallest element and the index of its first occurrence.
    pub fn min(&self) -> (r: (N, usize))
        requires
            self@.len() > 0,
        ensures
            r.1 < self@.len(),
            r.0 == self@[r.1 as int],
            forall|k: int| 0 <= k < self@.len() ==> (#[trigger] self@[k]).as_int() >= r.0.as_int(),
            forall|k: int| 0 <= k < r.1 ==> (#[trigger] self@[k]).as_int() > r.0.as_int(),
    {
        let mut i: usize = 0;
        let mut j: usize = 1;
        while j < self.values.len()
            invariant
                self@.len() > 0,
                i < j <= self@.len(),
                forall|k: int| 0 <= k < j ==> (#[trigger] self@[k]).as_int() >= self@[i as int].as_int(),
                forall|k: int| 0 <= k < i ==> (#[trigger] self@[k]).as_int() > self@[i as int].as_int(),
            decreases self@.len() - j,
        {
            if self.values[i].greater(&self.values[j]) {
                i = j;
            }
            j = j + 1;
        }
        (self.values[i], i)
    }

    /// The sum of the elements, accumulated from zero in index order. The
    /// mean of the elements is this sum divided by their count.
    pub fn sum(&self) -> (r: N)
        requires
            forall|k: int| 0 < k <= self@.len() ==> N::fits(#[trigger] prefix_sum(self@, k)),
        ensures
            r.as_int() == prefix_sum(self@, self@.len() as int),
    {
        let mut total: N = N::zero();
        let mut i: usize = 0;
        while i < self.values.len()
            invariant
                i <= self@.len(),
                forall|k: int| 0 < k <= self@.len() ==> N::fits(#[trigger] prefix_sum(self@, k)),
                total.as_int() == prefix_sum(self@, i as int),
            decreases self@.len() - i,
        {
            assert(N::fits(prefix_sum(self@, i + 1)));
            total = total.plus(self.values[i]);
            i = i + 1;
        }
        total
    }
}

} // verus!
