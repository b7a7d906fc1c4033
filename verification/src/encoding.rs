//! Carriers of encoded messages.

use vstd::prelude::*;
use vstd::arithmetic::div_mod::lemma_fundamental_div_mod;
use crate::dimensions::PlaintextCount;
use crate::tensor::{chunk, chunk_mut, lemma_chunk_bounds, lemma_pieces};

verus! {

/// One encoded message.
#[derive(Clone, Copy, Debug, PartialEq, Eq)]
pub struct Plaintext<T>(pub T);

/// A flat sequence of encoded messages, read either as one polynomial or as
/// successive sublists of equal length.
#[derive(Clone, Debug, PartialEq)]
pub struct PlaintextList<T> {
    tensor: Vec<T>,
}

impl<T> View for PlaintextList<T> {
    type V = Seq<T>;

    closed spec fn view(&self) -> Seq<T> {
        self.tensor@
    }
}

impl<T: Copy> PlaintextList<T> {
    /// A list of `count` plaintexts, all equal to `value`.
    pub fn allocate(value: T, count: PlaintextCount) -> (r: Self)
        ensures
            r@ == Seq::new(count.0 as nat, |i: int| value),
    {
        let mut tensor: Vec<T> = Vec::new();
        let mut i: usize = 0;
        while i < count.0
            invariant
                i <= count.0,
                tensor@.len() == i,
                forall|k: int| 0 <= k < i ==> tensor@[k] == value,
            decreases count.0 - i,
        {
            tensor.push(value);
            i = i + 1;
        }
        assert(tensor@ =~= Seq::new(count.0 as nat, |i: int| value));
        PlaintextList { tensor }
    }

    /// The list of the plaintexts of `cont`, in order.
    pub fn from_container(cont: Vec<T>) -> (r: Self)
        ensures
            r@ == cont@,
    {
        PlaintextList { tensor: cont }
    }

    /// Gives the plaintexts back.
    pub fn into_container(self) -> (r: Vec<T>)
        ensures
            r@ == self@,
    {
        self.tensor
    }

    /// The number of plaintexts.
    pub fn count(&self) -> (r: PlaintextCount)
        ensures
            r.0 == self@.len(),
    {
        PlaintextCount(self.tensor.len())
    }

    /// The plaintexts in order.
    pub fn plaintext_iter(&self) -> (r: &[T])
        ensures
            r@ == self@,
    {
        self.tensor.as_slice()
    }

    /// The plaintexts in order.
    pub fn as_slice(&self) -> (r: &[T])
        ensures
            r@ == self@,
    {
        self.tensor.as_slice()
    }

    /// The plaintexts in order, for writing.
    pub fn as_mut_slice(&mut self) -> (r: &mut [T])
        ensures
            r@ == old(self)@,
            final(self)@ == final(r)@,
    {
        self.tensor.as_mut_slice()
    }

    /// The sublist number `index` among the successive sublists of `count`
    /// plaintexts each, for writing.
    pub fn sublist_iter_mut(&mut self, count: PlaintextCount, index: usize) -> (r: &mut [T])
        requires
            count.0 > 0,
            old(self)@.len() % (count.0 as nat) == 0,
            index < old(self)@.len() / (count.0 as nat),
        ensures
            r@ == chunk(old(self)@, count.0 as int, index as int),
            r@.len() == count.0,
            final(r)@.len() == count.0 ==> final(self)@ == old(self)@.subrange(
                0,
                index * count.0,
            ) + final(r)@ + old(self)@.subrange((index + 1) * count.0, old(self)@.len() as int),
    {
        let size: usize = count.0;
        let total: usize = self.tensor.len();
        let pieces: usize = total / size;
        proof {
            lemma_pieces(total as int, size as int);
        }
        chunk_mut(self.tensor.as_mut_slice(), size, pieces, index)
    }

    /// The successive sublists of `count` plaintexts each.
    pub fn sublist_iter(&self, count: PlaintextCount) -> (r: Vec<PlaintextList<T>>)
        requires
            count.0 > 0,
            self@.len() % (count.0 as nat) == 0,
        ensures
            r@.len() == self@.len() / (count.0 as nat),
            forall|i: int|
                0 <= i < r@.len() ==> (#[trigger] r@[i])@ == chunk(self@, count.0 as int, i),
    {
        let size: usize = count.0;
        let total: usize = self.tensor.len();
        let pieces: usize = total / size;
        proof {
            lemma_fundamental_div_mod(total as int, size as int);
            assert(size * pieces == pieces * size) by (nonlinear_arith);
        }
        let mut lists: Vec<PlaintextList<T>> = Vec::new();
        let mut i: usize = 0;
        while i < pieces
            invariant
                size == count.0,
                total == self.tensor@.len(),
                total == pieces * size,
                i <= pieces,
                lists@.len() == i,
                forall|j: int|
                    0 <= j < i ==> (#[trigger] lists@[j])@ == chunk(self@, size as int, j),
            decreases pieces - i,
        {
            proof {
                lemma_chunk_bounds(size as int, pieces as int, i as int);
            }
            let lo: usize = i * size;
            let piece = vstd::slice::slice_subrange(self.tensor.as_slice(), lo, lo + size);
            let copy = vstd::slice::slice_to_vec(piece);
            lists.push(PlaintextList { tensor: copy });
            i = i + 1;
        }
        lists
    }
}

} // verus!
