//! Flat sequences read as lists of pieces of one length.

use vstd::prelude::*;

verus! {

/// Piece `i` of a flat sequence of pieces of `n` elements each.
pub open spec fn chunk<A>(s: Seq<A>, n: int, i: int) -> Seq<A> {
    s.subrange(i * n, (i + 1) * n)
}

/// Bounds of piece `p` inside a flat sequence of `count` pieces.
pub proof fn lemma_chunk_bounds(n: int, count: int, p: int)
    requires
        0 <= n,
        0 <= p < count,
    ensures
        0 <= p * n <= (p + 1) * n <= count * n,
        (p + 1) * n - p * n == n,
{
    assert(0 <= p * n <= (p + 1) * n <= count * n) by (nonlinear_arith)
        requires
            0 <= n,
            0 <= p < count,
    ;
    assert((p + 1) * n - p * n == n) by (nonlinear_arith);
}

/// Replacing piece `i` of a flat sequence leaves the other pieces as they
/// were.
pub proof fn lemma_chunk_update<A>(before: Seq<A>, after: Seq<A>, piece: Seq<A>, n: int, count: int, i: int)
    requires
        0 <= n,
        0 <= i < count,
        before.len() == count * n,
        piece.len() == n,
        after == before.subrange(0, i * n) + piece + before.subrange((i + 1) * n, count * n),
    ensures
        after.len() == before.len(),
        chunk(after, n, i) == piece,
        forall|j: int| 0 <= j < count && j != i ==> #[trigger] chunk(after, n, j) == chunk(before, n, j),
{
    lemma_chunk_bounds(n, count, i);
    assert(chunk(after, n, i) =~= piece);
    assert forall|j: int| 0 <= j < count && j != i implies #[trigger] chunk(after, n, j) == chunk(
        before,
        n,
        j,
    ) by {
        lemma_chunk_bounds(n, count, j);
        if j < i {
            assert((j + 1) * n <= i * n) by (nonlinear_arith)
                requires
                    j < i,
                    0 <= n,
            ;
        } else {
            assert((i + 1) * n <= j * n) by (nonlinear_arith)
                requires
                    i < j,
                    0 <= n,
            ;
        }
        assert(chunk(after, n, j) =~= chunk(before, n, j));
    }
}

/// Piece `i` of a flat sequence of `count` pieces of `n` elements, for
/// writing.
pub fn chunk_mut<A>(s: &mut [A], n: usize, count: usize, i: usize) -> (piece: &mut [A])
    requires
        old(s)@.len() == count * n,
        i < count,
    ensures
        piece@ == chunk(old(s)@, n as int, i as int),
        piece@.len() == n,
        final(piece)@.len() == n ==> final(s)@ == old(s)@.subrange(0, i * n) + final(piece)@ + old(
            s,
        )@.subrange((i + 1) * n, count * n),
{
    proof {
        lemma_chunk_bounds(n as int, count as int, i as int);
    }
    // Taking the length bounds the products of the dimensions below.
    let total: usize = s.len();
    let (head, rest) = s.split_at_mut(i * n);
    let (piece, tail) = rest.split_at_mut(n);
    proof {
        assert(piece@ =~= chunk(old(s)@, n as int, i as int));
        assert(tail@ =~= old(s)@.subrange((i + 1) * n, count * n));
    }
    piece
}

/// Piece `i` of a flat sequence of `count` pieces of `n` elements.
pub fn chunk_ref<A>(s: &[A], n: usize, count: usize, i: usize) -> (piece: &[A])
    requires
        s@.len() == count * n,
        i < count,
    ensures
        piece@ == chunk(s@, n as int, i as int),
        piece@.len() == n,
{
    proof {
        lemma_chunk_bounds(n as int, count as int, i as int);
    }
    // Taking the length bounds the products of the dimensions below.
    let total: usize = s.len();
    let lo: usize = i * n;
    vstd::slice::slice_subrange(s, lo, lo + n)
}

/// A vector of `len` elements, all equal to `value`.
pub fn filled<A: Copy>(value: A, len: usize) -> (r: Vec<A>)
    ensures
        r@ == Seq::new(len as nat, |i: int| value),
{
    let mut tensor: Vec<A> = Vec::new();
    let mut i: usize = 0;
    while i < len
        invariant
            i <= len,
            tensor@.len() == i,
            forall|k: int| 0 <= k < i ==> tensor@[k] == value,
        decreases len - i,
    {
        tensor.push(value);
        i = i + 1;
    }
    assert(tensor@ =~= Seq::new(len as nat, |i: int| value));
    tensor
}

/// `len` is `count` pieces of `n` elements, where it is a multiple of `n`.
pub proof fn lemma_pieces(len: int, n: int)
    requires
        n > 0,
        len >= 0,
        len % n == 0,
    ensures
        len == (len / n) * n,
        len / n >= 0,
{
    vstd::arithmetic::div_mod::lemma_fundamental_div_mod(len, n);
    assert(n * (len / n) == (len / n) * n) by (nonlinear_arith);
    vstd::arithmetic::div_mod::lemma_div_pos_is_pos(len, n);
}

} // verus!
