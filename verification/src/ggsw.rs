//! GGSW ciphertexts: level matrices of GLWE ciphertexts that carry a scalar
//! on their diagonals.
//!
//! A GGSW ciphertext of `l` levels for GLWE ciphertexts of `k + 1`
//! polynomials of `n` coefficients is a flat sequence of `l * (k + 1)` rows,
//! level 0 first. Row `r` of level matrix `level` is a GLWE ciphertext; the
//! scalar, scaled for the level, is added to the constant coefficient of
//! polynomial `r` of that row.

use vstd::prelude::*;
use vstd::arithmetic::power2::{pow2, lemma_pow2_strictly_increases};
use vstd::arithmetic::div_mod::{
    lemma_add_mod_noop_right, lemma_fundamental_div_mod_converse_div,
    lemma_fundamental_div_mod_converse_mod,
};
use crate::numeric::UnsignedInteger;
use crate::negacyclic::{ints, zeros, fill_with_element, fill_with_copy};
use crate::tensor::{chunk, chunk_mut, chunk_ref, lemma_chunk_update, filled, lemma_pieces};
use crate::polynomial::PolynomialSize;
use crate::dimensions::{GlweSize, DecompositionLevelCount, DecompositionBaseLog};

verus! {

/// The scalar `encoded` scaled for the level `level` of a decomposition in
/// base `2^base_log`: `encoded * 2^(q - base_log * (level + 1))`, over the
/// integers.
pub open spec fn gadget_shift<T: UnsignedInteger>(encoded: int, base_log: int, level: int) -> int {
    encoded * pow2((T::bits_spec() - base_log * (level + 1)) as nat)
}

/// The row `row` with `shift` added, modulo `m`, to the word at `at`.
pub open spec fn gadget_row(row: Seq<int>, at: int, shift: int, m: int) -> Seq<int> {
    row.update(at, (row[at] + shift) % m)
}

/// Every level of the decomposition leaves a shift of at least 0 and less
/// than `q` bits.
pub open spec fn valid_decomposition<T: UnsignedInteger>(base_log: int, levels: int) -> bool {
    levels == 0 || (1 <= base_log && base_log * levels <= T::bits_spec())
}

/// The word that is added on the diagonals of the level matrix `level`.
fn gadget_delta<T: UnsignedInteger>(encoded: T, base_log: usize, level: usize) -> (r: T)
    requires
        1 <= base_log,
        base_log * (level + 1) <= T::bits_spec(),
    ensures
        r.as_int() == gadget_shift::<T>(encoded.as_int(), base_log as int, level as int)
            % T::modulus(),
{
    proof {
        T::lemma_modulus();
        assert(base_log * (level + 1) >= level + 1) by (nonlinear_arith)
            requires
                base_log >= 1,
                level >= 0,
        ;
        lemma_pow2_strictly_increases(
            (T::bits_spec() - base_log * (level + 1)) as nat,
            T::bits_spec(),
        );
    }
    let shift: usize = T::bits() - base_log * (level + 1);
    encoded.wrapping_mul(T::one().shl(shift))
}

/// Adds the scaled scalar to the diagonal of every level matrix: in row
/// `r` of level matrix `level`, to the constant coefficient of polynomial
/// `r`.
pub fn add_gadget<T: UnsignedInteger>(
    tensor: &mut [T],
    encoded: T,
    base_log: usize,
    n: usize,
    size: usize,
    levels: usize,
)
    requires
        n > 0,
        size > 0,
        size * n <= usize::MAX,
        levels * size <= usize::MAX,
        old(tensor)@.len() == (levels * size) * (size * n),
        valid_decomposition::<T>(base_log as int, levels as int),
    ensures
        final(tensor)@.len() == old(tensor)@.len(),
        forall|row: int|
            0 <= row < levels * size ==> ints(#[trigger] chunk(final(tensor)@, size * n, row))
                == gadget_row(
                ints(chunk(old(tensor)@, size * n, row)),
                (row % (size as int)) * n,
                gadget_shift::<T>(encoded.as_int(), base_log as int, row / (size as int)),
                T::modulus(),
            ),
{
    let each: usize = size * n;
    let rows: usize = levels * size;
    let mut level: usize = 0;
    while level < levels
        invariant
            n > 0,
            size > 0,
            each == size * n,
            rows == levels * size,
            level <= levels,
            tensor@.len() == rows * each,
            old(tensor)@.len() == rows * each,
            valid_decomposition::<T>(base_log as int, levels as int),
            forall|row: int|
                0 <= row < level * size ==> ints(#[trigger] chunk(tensor@, each as int, row))
                    == gadget_row(
                    ints(chunk(old(tensor)@, each as int, row)),
                    (row % (size as int)) * n,
                    gadget_shift::<T>(encoded.as_int(), base_log as int, row / (size as int)),
                    T::modulus(),
                ),
            forall|row: int|
                level * size <= row < rows ==> #[trigger] chunk(tensor@, each as int, row)
                    == chunk(old(tensor)@, each as int, row),
        decreases levels - level,
    {
        proof {
            assert(base_log * (level + 1) <= base_log * levels) by (nonlinear_arith)
                requires
                    level < levels,
                    base_log >= 0,
            ;
            assert((level + 1) * size <= levels * size) by (nonlinear_arith)
                requires
                    level < levels,
                    size >= 0,
            ;
            assert((level + 1) * size == level * size + size) by (nonlinear_arith);
        }
        let delta: T = gadget_delta(encoded, base_log, level);
        let first: usize = level * size;
        let mut r: usize = 0;
        while r < size
            invariant
                n > 0,
                size > 0,
                each == size * n,
                rows == levels * size,
                level < levels,
                first == level * size,
                first + size <= rows,
                r <= size,
                tensor@.len() == rows * each,
                old(tensor)@.len() == rows * each,
                delta.as_int() == gadget_shift::<T>(
                    encoded.as_int(),
                    base_log as int,
                    level as int,
                ) % T::modulus(),
                forall|row: int|
                    0 <= row < first + r ==> ints(#[trigger] chunk(tensor@, each as int, row))
                        == gadget_row(
                        ints(chunk(old(tensor)@, each as int, row)),
                        (row % (size as int)) * n,
                        gadget_shift::<T>(encoded.as_int(), base_log as int, row / (size as int)),
                        T::modulus(),
                    ),
                forall|row: int|
                    first + r <= row < rows ==> #[trigger] chunk(tensor@, each as int, row)
                        == chunk(old(tensor)@, each as int, row),
            decreases size - r,
        {
            proof {
                assert(r * n + n <= size * n) by (nonlinear_arith)
                    requires
                        r < size,
                        n > 0,
                ;
            }
            let ghost before = tensor@;
            let index: usize = first + r;
            let row = chunk_mut(tensor, each, rows, index);
            let ghost row_before = row@;
            let at: usize = r * n;
            let word: T = row[at];
            row[at] = word.wrapping_add(delta);
            proof {
                let m = T::modulus();
                T::lemma_modulus();
                vstd::arithmetic::power2::lemma_pow2_pos(T::bits_spec());
                let shift = gadget_shift::<T>(encoded.as_int(), base_log as int, level as int);
                lemma_add_mod_noop_right(word.as_int(), shift, m);
                assert(ints(row@) =~= gadget_row(ints(row_before), at as int, shift, m));
                lemma_chunk_update(before, tensor@, row@, each as int, rows as int, index as int);
                lemma_fundamental_div_mod_converse_div(
                    index as int,
                    size as int,
                    level as int,
                    r as int,
                );
                lemma_fundamental_div_mod_converse_mod(
                    index as int,
                    size as int,
                    level as int,
                    r as int,
                );
            }
            r = r + 1;
        }
        level = level + 1;
    }
}

/// Row `i` of a list of trivial encryptions of zero: masks of zeros, and
/// sublist `i` of the noise as body.
pub open spec fn trivial_entry<T: UnsignedInteger>(noise: Seq<T>, n: int, k: int, i: int) -> Seq<
    int,
> {
    zeros((k * n) as nat) + ints(chunk(noise, n, i))
}

/// Overwrites each of the `count` ciphertexts of the flat `list` with a
/// trivial encryption of zero: every mask polynomial is zero, and the body is
/// the sublist of `noise` of the same index.
pub fn trivial_encrypt_zero_list_slice<T: UnsignedInteger>(
    list: &mut [T],
    noise: &[T],
    n: usize,
    k: usize,
    count: usize,
)
    requires
        k * n + n <= usize::MAX,
        noise@.len() == count * n,
        old(list)@.len() == count * (k * n + n),
    ensures
        final(list)@.len() == old(list)@.len(),
        forall|i: int|
            0 <= i < count ==> ints(#[trigger] chunk(final(list)@, k * n + n, i))
                == trivial_entry::<T>(noise@, n as int, k as int, i),
{
    let masks: usize = k * n;
    let size: usize = masks + n;
    let mut i: usize = 0;
    while i < count
        invariant
            i <= count,
            masks == k * n,
            size == k * n + n,
            noise@.len() == count * n,
            list@.len() == count * size,
            forall|j: int|
                0 <= j < i ==> ints(#[trigger] chunk(list@, size as int, j)) == trivial_entry::<T>(
                    noise@,
                    n as int,
                    k as int,
                    j,
                ),
        decreases count - i,
    {
        let ghost before = list@;
        let current = chunk_mut(list, size, count, i);
        let fresh = chunk_ref(noise, n, count, i);
        let (mask, body) = current.split_at_mut(masks);
        fill_with_element(mask, T::zero());
        fill_with_copy(body, fresh);
        proof {
            assert(ints(mask@ + body@) =~= zeros((k * n) as nat) + ints(fresh@));
            lemma_chunk_update(before, list@, current@, size as int, count as int, i as int);
        }
        i = i + 1;
    }
}

/// A GGSW ciphertext: level matrices, level 0 first, each of as many GLWE
/// ciphertexts as a GLWE ciphertext has polynomials, in one flat sequence.
#[derive(Clone, Debug, PartialEq)]
pub struct GgswCiphertext<T> {
    tensor: Vec<T>,
    poly_size: PolynomialSize,
    rlwe_size: GlweSize,
    decomp_base_log: DecompositionBaseLog,
}

impl<T> View for GgswCiphertext<T> {
    type V = Seq<T>;

    closed spec fn view(&self) -> Seq<T> {
        self.tensor@
    }
}

impl<T: Copy> GgswCiphertext<T> {
    /// The number of coefficients of each polynomial.
    pub closed spec fn size_spec(&self) -> nat {
        self.poly_size.0 as nat
    }

    /// The number of polynomials of each row, and of rows of each level
    /// matrix.
    pub closed spec fn glwe_size_spec(&self) -> nat {
        self.rlwe_size.0 as nat
    }

    /// The logarithm in base 2 of the decomposition base.
    pub closed spec fn base_log_spec(&self) -> nat {
        self.decomp_base_log.0 as nat
    }

    /// The number of words of each row.
    pub open spec fn row_len_spec(&self) -> nat {
        self.glwe_size_spec() * self.size_spec()
    }

    /// The number of words of each level matrix.
    pub open spec fn matrix_len_spec(&self) -> nat {
        self.glwe_size_spec() * self.row_len_spec()
    }

    /// The sequence holds a whole number of level matrices.
    pub open spec fn wf(&self) -> bool {
        &&& self.size_spec() > 0
        &&& self.glwe_size_spec() > 0
        &&& self.matrix_len_spec() <= usize::MAX
        &&& self@.len() % self.matrix_len_spec() == 0
    }

    /// The number of level matrices.
    pub open spec fn level_count_spec(&self) -> nat {
        self@.len() / self.matrix_len_spec()
    }

    /// A ciphertext of `decomp_level` level matrices for GLWE ciphertexts of
    /// `rlwe_size` polynomials of `poly_size` coefficients, all words equal to
    /// `value`.
    pub fn allocate(
        value: T,
        poly_size: PolynomialSize,
        rlwe_size: GlweSize,
        decomp_level: DecompositionLevelCount,
        decomp_base_log: DecompositionBaseLog,
    ) -> (r: Self)
        requires
            poly_size.0 > 0,
            rlwe_size.0 > 0,
            rlwe_size.0 * poly_size.0 <= usize::MAX,
            rlwe_size.0 * (rlwe_size.0 * poly_size.0) <= usize::MAX,
            decomp_level.0 * (rlwe_size.0 * (rlwe_size.0 * poly_size.0)) <= usize::MAX,
        ensures
            r.wf(),
            r.size_spec() == poly_size.0,
            r.glwe_size_spec() == rlwe_size.0,
            r.base_log_spec() == decomp_base_log.0,
            r.level_count_spec() == decomp_level.0,
            r@ == Seq::new(
                (decomp_level.0 * (rlwe_size.0 * (rlwe_size.0 * poly_size.0))) as nat,
                |i: int| value,
            ),
    {
        let row: usize = rlwe_size.0 * poly_size.0;
        let matrix: usize = rlwe_size.0 * row;
        proof {
            assert(matrix > 0) by (nonlinear_arith)
                requires
                    matrix == rlwe_size.0 * (rlwe_size.0 * poly_size.0),
                    rlwe_size.0 > 0,
                    poly_size.0 > 0,
            ;
            vstd::arithmetic::div_mod::lemma_mod_multiples_basic(
                decomp_level.0 as int,
                matrix as int,
            );
            vstd::arithmetic::div_mod::lemma_div_multiples_vanish(
                decomp_level.0 as int,
                matrix as int,
            );
            assert(decomp_level.0 * matrix == matrix * decomp_level.0) by (nonlinear_arith);
        }
        GgswCiphertext {
            tensor: filled(value, decomp_level.0 * matrix),
            poly_size,
            rlwe_size,
            decomp_base_log,
        }
    }

    /// The ciphertext whose level matrices are the successive runs of
    /// `rlwe_size * rlwe_size * poly_size` elements of `cont`.
    pub fn from_container(
        cont: Vec<T>,
        rlwe_size: GlweSize,
        poly_size: PolynomialSize,
        decomp_base_log: DecompositionBaseLog,
    ) -> (r: Self)
        requires
            poly_size.0 > 0,
            rlwe_size.0 > 0,
            rlwe_size.0 * (rlwe_size.0 * poly_size.0) <= usize::MAX,
            cont@.len() % ((rlwe_size.0 * (rlwe_size.0 * poly_size.0)) as nat) == 0,
        ensures
            r.wf(),
            r@ == cont@,
            r.size_spec() == poly_size.0,
            r.glwe_size_spec() == rlwe_size.0,
            r.base_log_spec() == decomp_base_log.0,
    {
        GgswCiphertext { tensor: cont, poly_size, rlwe_size, decomp_base_log }
    }

    /// Gives the flat sequence back.
    pub fn into_container(self) -> (r: Vec<T>)
        ensures
            r@ == self@,
    {
        self.tensor
    }

    /// The number of coefficients of each polynomial.
    pub fn polynomial_size(&self) -> (r: PolynomialSize)
        ensures
            r.0 == self.size_spec(),
    {
        self.poly_size
    }

    /// The number of polynomials of each row.
    pub fn glwe_size(&self) -> (r: GlweSize)
        ensures
            r.0 == self.glwe_size_spec(),
    {
        self.rlwe_size
    }

    /// The logarithm in base 2 of the decomposition base.
    pub fn decomposition_base_log(&self) -> (r: DecompositionBaseLog)
        ensures
            r.0 == self.base_log_spec(),
    {
        self.decomp_base_log
    }

    /// The number of level matrices.
    pub fn decomposition_level_count(&self) -> (r: DecompositionLevelCount)
        requires
            self.wf(),
        ensures
            r.0 == self.level_count_spec(),
            r.0 * self.matrix_len_spec() == self@.len(),
            (r.0 * self.glwe_size_spec()) * self.row_len_spec() == self@.len(),
            self.row_len_spec() <= usize::MAX,
    {
        proof {
            let size = self.glwe_size_spec() as int;
            let row = self.row_len_spec() as int;
            let matrix = self.matrix_len_spec() as int;
            assert(row > 0 && matrix >= row) by (nonlinear_arith)
                requires
                    row == size * self.size_spec(),
                    matrix == size * row,
                    size > 0,
                    self.size_spec() > 0,
            ;
            lemma_pieces(self@.len() as int, matrix);
            let levels = self@.len() as int / matrix;
            assert((levels * size) * row == levels * (size * row)) by (nonlinear_arith);
        }
        let row: usize = self.rlwe_size.0 * self.poly_size.0;
        DecompositionLevelCount(self.tensor.len() / (self.rlwe_size.0 * row))
    }

    /// The flat sequence of all rows.
    pub fn as_slice(&self) -> (r: &[T])
        ensures
            r@ == self@,
    {
        self.tensor.as_slice()
    }

    /// The flat sequence of all rows, for writing.
    pub fn as_mut_slice(&mut self) -> (r: &mut [T])
        ensures
            r@ == old(self)@,
            final(self)@ == final(r)@,
            final(self).size_spec() == old(self).size_spec(),
            final(self).glwe_size_spec() == old(self).glwe_size_spec(),
            final(self).base_log_spec() == old(self).base_log_spec(),
    {
        self.tensor.as_mut_slice()
    }
}

} // verus!
