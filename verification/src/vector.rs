//! The fixed-length vector container that fields are built from.
//!
//! A [`Vector`] owns an ordered sequence of scalars whose length is fixed
//! when it is constructed; its view is the mathematical sequence of its
//! elements.  Elementwise arithmetic is provided for scalars that implement
//! [`ScalarSpace`].

use vstd::prelude::*;
use crate::algebra::ScalarSpace;

verus! {

/// The inner product of two equally long vectors: the sum of the pairwise
/// products of the first `m` coordinates.
pub open spec fn dot_spec<S: ScalarSpace>(x: Seq<S>, y: Seq<S>, m: nat) -> S
    decreases m,
{
    if m == 0 {
        S::szero()
    } else {
        dot_spec(x, y, (m - 1) as nat).sadd(x[m - 1].smul(y[m - 1]))
    }
}

/// A cross product in three dimensions.
pub trait OuterProduct: Sized {
    /// The relation an outer product satisfies: what `r` is for the
    /// operands `a` and `b`.
    spec fn is_cross_of(a: Self, b: Self, r: Self) -> bool;

    /// The vector perpendicular to `self` and `other`, by the right-hand
    /// rule.
    fn outer_product(&self, other: &Self) -> (r: Self)
        ensures
            Self::is_cross_of(*self, *other, r),
    ;
}

/// An ordered, fixed-length container of scalars with value semantics.
#[derive(Debug)]
pub struct Vector<S> {
    data: Vec<S>,
}

impl<S> View for Vector<S> {
    type V = Seq<S>;

    closed spec fn view(&self) -> Seq<S> {
        self.data@
    }
}

impl<S: Copy> Clone for Vector<S> {
    fn clone(&self) -> (r: Self)
        ensures
            r@ == self@,
    {
        let mut data: Vec<S> = Vec::new();
        let mut i: usize = 0;
        while i < self.data.len()
            invariant
                i <= self.data@.len(),
                data@ == self.data@.subrange(0, i as int),
            decreases self.data@.len() - i,
        {
            data.push(self.data[i]);
            proof {
                assert(data@ =~= self.data@.subrange(0, i + 1));
            }
            i = i + 1;
        }
        proof {
            assert(data@ =~= self.data@);
        }
        Vector { data }
    }
}

impl<S> Vector<S> {
    /// Wraps the given elements; the vector's length is theirs.
    pub fn new(data: Vec<S>) -> (r: Self)
        ensures
            r@ == data@,
    {
        Vector { data }
    }

    /// The number of elements.
    pub fn size(&self) -> (r: usize)
        ensures
            r == self@.len(),
    {
        self.data.len()
    }

    /// Gives the elements back.
    pub fn get_data(self) -> (r: Vec<S>)
        ensures
            r@ == self@,
    {
        self.data
    }

    /// Replaces the element at `i`.
    pub fn set(&mut self, i: usize, value: S)
        requires
            i < old(self)@.len(),
        ensures
            final(self)@ == old(self)@.update(i as int, value),
    {
        self.data[i] = value;
    }

    /// Lends the underlying storage to an in-place algorithm.
    pub(crate) fn data_mut(&mut self) -> (r: &mut Vec<S>)
        ensures
            r@ == old(self)@,
            final(self)@ == final(r)@,
    {
        &mut self.data
    }
}

impl<S: Copy> Vector<S> {
    /// The element at `i`.
    pub fn get(&self, i: usize) -> (r: S)
        requires
            i < self@.len(),
        ensures
            r == self@[i as int],
    {
        self.data[i]
    }
}

impl<S: ScalarSpace> Vector<S> {
    /// A vector of `n` zeros.
    pub fn zero(n: usize) -> (r: Self)
        ensures
            r@.len() == n,
            forall|i: int| 0 <= i < n ==> r@[i] == S::szero(),
    {
        let mut data: Vec<S> = Vec::new();
        let mut i: usize = 0;
        while i < n
            invariant
                i <= n,
                data@.len() == i,
                forall|t: int| 0 <= t < i ==> data@[t] == S::szero(),
            decreases n - i,
        {
            data.push(S::zero());
            i = i + 1;
        }
        Vector { data }
    }

    /// Elementwise negation.
    pub fn neg(&self) -> (r: Self)
        ensures
            r@.len() == self@.len(),
            forall|i: int| 0 <= i < self@.len() ==> r@[i] == self@[i].sneg(),
    {
        let mut data: Vec<S> = Vec::new();
        let mut i: usize = 0;
        while i < self.data.len()
            invariant
                i <= self@.len(),
                data@.len() == i,
                forall|t: int| 0 <= t < i ==> data@[t] == self@[t].sneg(),
            decreases self@.len() - i,
        {
            data.push(self.data[i].neg());
            i = i + 1;
        }
        Vector { data }
    }

    /// Elementwise addition of two vectors of equal length.
    pub fn add(&self, rhs: &Self) -> (r: Self)
        requires
            self@.len() == rhs@.len(),
        ensures
            r@.len() == self@.len(),
            forall|i: int| 0 <= i < self@.len() ==> r@[i] == self@[i].sadd(rhs@[i]),
    {
        let mut data: Vec<S> = Vec::new();
        let mut i: usize = 0;
        while i < self.data.len()
            invariant
                i <= self@.len(),
                self@.len() == rhs@.len(),
                data@.len() == i,
                forall|t: int| 0 <= t < i ==> data@[t] == self@[t].sadd(rhs@[t]),
            decreases self@.len() - i,
        {
            data.push(self.data[i].add(rhs.data[i]));
            i = i + 1;
        }
        Vector { data }
    }

    /// Elementwise subtraction of two vectors of equal length.
    pub fn sub(&self, rhs: &Self) -> (r: Self)
        requires
            self@.len() == rhs@.len(),
        ensures
            r@.len() == self@.len(),
            forall|i: int| 0 <= i < self@.len() ==> r@[i] == self@[i].ssub(rhs@[i]),
    {
        let mut data: Vec<S> = Vec::new();
        let mut i: usize = 0;
        while i < self.data.len()
            invariant
                i <= self@.len(),
                self@.len() == rhs@.len(),
                data@.len() == i,
                forall|t: int| 0 <= t < i ==> data@[t] == self@[t].ssub(rhs@[t]),
            decreases self@.len() - i,
        {
            data.push(self.data[i].sub(rhs.data[i]));
            i = i + 1;
        }
        Vector { data }
    }

    /// The inner product: the sum of the pairwise products.
    pub fn inner_product(&self, rhs: &Self) -> (r: S)
        requires
            self@.len() == rhs@.len(),
        ensures
            r == dot_spec(self@, rhs@, self@.len()),
    {
        let mut acc = S::zero();
        let mut i: usize = 0;
        while i < self.data.len()
            invariant
                i <= self@.len(),
                self@.len() == rhs@.len(),
                acc == dot_spec(self@, rhs@, i as nat),
            decreases self@.len() - i,
        {
            acc = acc.add(self.data[i].mul(rhs.data[i]));
            i = i + 1;
        }
        acc
    }

    /// Multiplies every element by the scalar `k`.
    pub fn scale(&self, k: S) -> (r: Self)
        ensures
            r@.len() == self@.len(),
            forall|i: int| 0 <= i < self@.len() ==> r@[i] == self@[i].smul(k),
    {
        let mut data: Vec<S> = Vec::new();
        let mut i: usize = 0;
        while i < self.data.len()
            invariant
                i <= self@.len(),
                data@.len() == i,
                forall|t: int| 0 <= t < i ==> data@[t] == self@[t].smul(k),
            decreases self@.len() - i,
        {
            data.push(self.data[i].mul(k));
            i = i + 1;
        }
        Vector { data }
    }
}

impl<S: ScalarSpace> OuterProduct for Vector<S> {
    open spec fn is_cross_of(a: Self, b: Self, r: Self) -> bool {
        if a@.len() == 3 && b@.len() == 3 {
            &&& r@.len() == 3
            &&& r@[0] == a@[1].smul(b@[2]).ssub(a@[2].smul(b@[1]))
            &&& r@[1] == a@[2].smul(b@[0]).ssub(a@[0].smul(b@[2]))
            &&& r@[2] == a@[0].smul(b@[1]).ssub(a@[1].smul(b@[0]))
        } else {
            r@.len() == 0
        }
    }

    fn outer_product(&self, other: &Self) -> (r: Self) {
        if self.data.len() != 3 || other.data.len() != 3 {
            return Vector { data: Vec::new() };
        }
        let mut data: Vec<S> = Vec::new();
        data.push(self.data[1].mul(other.data[2]).sub(self.data[2].mul(other.data[1])));
        data.push(self.data[2].mul(other.data[0]).sub(self.data[0].mul(other.data[2])));
        data.push(self.data[0].mul(other.data[1]).sub(self.data[1].mul(other.data[0])));
        Vector { data }
    }
}

} // verus!
