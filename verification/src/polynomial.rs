//! Dense polynomials of `Z_{2^q}[X] / (X^N + 1)` and flat lists of them.

use vstd::prelude::*;
use crate::numeric::UnsignedInteger;
use vstd::arithmetic::div_mod::lemma_fundamental_div_mod;
use crate::negacyclic::{
    ints, bit_ints, add_mod, sub_mod, negacyclic_product, reduce, monomial_mul, monomial_div,
    multisum, list_sum, accumulate_product, accumulate_binary_product, accumulate_binary_multisum,
    accumulate_several, accumulate, fill_with_element, monic_monomial_mul, monic_monomial_div,
};

verus! {

/// The number of coefficients of a polynomial.
#[derive(Clone, Copy, Debug, PartialEq, Eq, Structural)]
pub struct PolynomialSize(pub usize);

/// The number of polynomials in a list.
#[derive(Clone, Copy, Debug, PartialEq, Eq, Structural)]
pub struct PolynomialCount(pub usize);

/// The degree of a monomial.
#[derive(Clone, Copy, Debug, PartialEq, Eq, Structural)]
pub struct MonomialDegree(pub usize);

/// One term of a polynomial: a coefficient and the degree it stands at.
#[derive(Clone, Copy, Debug, PartialEq, Eq)]
pub struct Monomial<T> {
    coefficient: T,
    degree: MonomialDegree,
}

impl<T: Copy> Monomial<T> {
    pub closed spec fn coefficient_spec(&self) -> T {
        self.coefficient
    }

    pub closed spec fn degree_spec(&self) -> MonomialDegree {
        self.degree
    }

    /// Builds the monomial `coefficient * X^degree`.
    pub fn from_container(coefficient: T, degree: MonomialDegree) -> (r: Self)
        ensures
            r.coefficient_spec() == coefficient,
            r.degree_spec() == degree,
    {
        Monomial { coefficient, degree }
    }

    pub fn get_coefficient(&self) -> (r: &T)
        ensures
            *r == self.coefficient_spec(),
    {
        &self.coefficient
    }

    pub fn set_coefficient(&mut self, coefficient: T)
        ensures
            final(self).coefficient_spec() == coefficient,
            final(self).degree_spec() == old(self).degree_spec(),
    {
        self.coefficient = coefficient;
    }

    pub fn degree(&self) -> (r: MonomialDegree)
        ensures
            r == self.degree_spec(),
    {
        self.degree
    }
}

/// A dense polynomial: coefficient `i` stands at degree `i`.
#[derive(Clone, Debug, PartialEq)]
pub struct Polynomial<T> {
    tensor: Vec<T>,
}

impl<T> View for Polynomial<T> {
    type V = Seq<T>;

    closed spec fn view(&self) -> Seq<T> {
        self.tensor@
    }
}

impl<T: Copy> Polynomial<T> {
    /// A polynomial of `coef_count` coefficients, all equal to `value`.
    pub fn allocate(value: T, coef_count: PolynomialSize) -> (r: Polynomial<T>)
        ensures
            r@ == Seq::new(coef_count.0 as nat, |i: int| value),
    {
        let mut tensor: Vec<T> = Vec::new();
        let mut i: usize = 0;
        while i < coef_count.0
            invariant
                i <= coef_count.0,
                tensor@.len() == i,
                forall|k: int| 0 <= k < i ==> tensor@[k] == value,
            decreases coef_count.0 - i,
        {
            tensor.push(value);
            i = i + 1;
        }
        assert(tensor@ =~= Seq::new(coef_count.0 as nat, |i: int| value));
        Polynomial { tensor }
    }

    /// The polynomial whose coefficients are `cont`, lowest degree first.
    pub fn from_container(cont: Vec<T>) -> (r: Self)
        ensures
            r@ == cont@,
    {
        Polynomial { tensor: cont }
    }

    /// Gives the coefficients back.
    pub fn into_container(self) -> (r: Vec<T>)
        ensures
            r@ == self@,
    {
        self.tensor
    }

    /// The number of coefficients.
    pub fn polynomial_size(&self) -> (r: PolynomialSize)
        ensures
            r.0 == self@.len(),
    {
        PolynomialSize(self.tensor.len())
    }

    /// The coefficients as a slice, lowest degree first.
    pub fn as_slice(&self) -> (r: &[T])
        ensures
            r@ == self@,
    {
        self.tensor.as_slice()
    }

    /// The coefficients as a mutable slice, lowest degree first.
    pub fn as_mut_slice(&mut self) -> (r: &mut [T])
        ensures
            r@ == old(self)@,
            final(self)@ == final(r)@,
    {
        self.tensor.as_mut_slice()
    }

    /// The monomials in order of increasing degree.
    pub fn monomial_iter(&self) -> (r: Vec<Monomial<T>>)
        ensures
            r@.len() == self@.len(),
            forall|i: int|
                0 <= i < self@.len() ==> (#[trigger] r@[i]).coefficient_spec() == self@[i]
                    && r@[i].degree_spec() == MonomialDegree(i as usize),
    {
        let n: usize = self.tensor.len();
        let mut monomials: Vec<Monomial<T>> = Vec::new();
        let mut i: usize = 0;
        while i < n
            invariant
                n == self.tensor@.len(),
                i <= n,
                monomials@.len() == i,
                forall|k: int|
                    0 <= k < i ==> (#[trigger] monomials@[k]).coefficient_spec()
                        == self.tensor@[k] && monomials@[k].degree_spec() == MonomialDegree(
                        k as usize,
                    ),
            decreases n - i,
        {
            monomials.push(Monomial::from_container(self.tensor[i], MonomialDegree(i)));
            i = i + 1;
        }
        monomials
    }

    /// The coefficients in order of increasing degree.
    pub fn coefficient_iter(&self) -> (r: &[T])
        ensures
            r@ == self@,
    {
        self.tensor.as_slice()
    }

    /// The monomial of the given degree.
    pub fn get_monomial(&self, degree: MonomialDegree) -> (r: Monomial<T>)
        requires
            degree.0 < self@.len(),
        ensures
            r.coefficient_spec() == self@[degree.0 as int],
            r.degree_spec() == degree,
    {
        Monomial::from_container(self.tensor[degree.0], degree)
    }

    /// Mutable access to the coefficients, in order of increasing degree: the
    /// element at index `i` is the coefficient of the monomial of degree `i`.
    pub fn monomial_iter_mut(&mut self) -> (r: &mut [T])
        ensures
            r@ == old(self)@,
            final(self)@ == final(r)@,
    {
        self.tensor.as_mut_slice()
    }

    /// Mutable access to the coefficients, in order of increasing degree.
    pub fn coefficient_iter_mut(&mut self) -> (r: &mut [T])
        ensures
            r@ == old(self)@,
            final(self)@ == final(r)@,
    {
        self.tensor.as_mut_slice()
    }

    /// Mutable access to the coefficient of the monomial of the given degree.
    pub fn get_mut_monomial(&mut self, degree: MonomialDegree) -> (r: &mut T)
        requires
            degree.0 < old(self)@.len(),
        ensures
            *r == old(self)@[degree.0 as int],
            final(self)@ == old(self)@.update(degree.0 as int, *final(r)),
    {
        &mut self.tensor[degree.0]
    }
}

/// A list of polynomials of one size, stored one after the other in a single
/// flat sequence.
#[derive(Clone, Debug, PartialEq)]
pub struct PolynomialList<T> {
    tensor: Vec<T>,
    poly_size: PolynomialSize,
}

impl<T> View for PolynomialList<T> {
    type V = Seq<T>;

    closed spec fn view(&self) -> Seq<T> {
        self.tensor@
    }
}

impl<T: Copy> PolynomialList<T> {
    /// The number of coefficients of each polynomial of the list.
    pub closed spec fn size_spec(&self) -> nat {
        self.poly_size.0 as nat
    }

    /// The flat sequence holds a whole number of polynomials.
    pub open spec fn wf(&self) -> bool {
        &&& self.size_spec() > 0
        &&& self@.len() % self.size_spec() == 0
    }

    /// The number of polynomials in the list.
    pub open spec fn count_spec(&self) -> nat {
        self@.len() / self.size_spec()
    }

    /// The list whose polynomials are the successive runs of `poly_size`
    /// elements of `cont`.
    pub fn from_container(cont: Vec<T>, poly_size: PolynomialSize) -> (r: Self)
        requires
            poly_size.0 > 0,
            cont@.len() % (poly_size.0 as nat) == 0,
        ensures
            r.wf(),
            r@ == cont@,
            r.size_spec() == poly_size.0,
    {
        PolynomialList { tensor: cont, poly_size }
    }

    /// Gives the flat sequence back.
    pub fn into_container(self) -> (r: Vec<T>)
        ensures
            r@ == self@,
    {
        self.tensor
    }

    /// The number of polynomials in the list.
    pub fn polynomial_count(&self) -> (r: PolynomialCount)
        requires
            self.wf(),
        ensures
            r.0 == self.count_spec(),
            r.0 * self.size_spec() == self@.len(),
    {
        proof {
            lemma_fundamental_div_mod(self@.len() as int, self.size_spec() as int);
            assert(self.size_spec() * (self@.len() / self.size_spec()) == (self@.len()
                / self.size_spec()) * self.size_spec()) by (nonlinear_arith);
        }
        PolynomialCount(self.tensor.len() / self.poly_size.0)
    }

    /// The number of coefficients of each polynomial of the list.
    pub fn polynomial_size(&self) -> (r: PolynomialSize)
        ensures
            r.0 == self.size_spec(),
    {
        self.poly_size
    }

    /// The flat sequence of all coefficients.
    pub fn as_slice(&self) -> (r: &[T])
        ensures
            r@ == self@,
    {
        self.tensor.as_slice()
    }

    /// The flat sequence of all coefficients, for writing. The length, and so
    /// the shape of the list, cannot change through it.
    pub fn as_mut_slice(&mut self) -> (r: &mut [T])
        ensures
            r@ == old(self)@,
            final(self)@ == final(r)@,
            final(self).size_spec() == old(self).size_spec(),
    {
        self.tensor.as_mut_slice()
    }
}

impl<T: UnsignedInteger> Polynomial<T> {
    /// Overwrites the polynomial with the product of `lhs` and `rhs` modulo
    /// `X^N + 1`.
    pub fn fill_with_wrapping_mul(&mut self, lhs: &Polynomial<T>, rhs: &Polynomial<T>)
        requires
            old(self)@.len() == lhs@.len(),
            old(self)@.len() == rhs@.len(),
        ensures
            final(self)@.len() == old(self)@.len(),
            ints(final(self)@) == reduce(
                negacyclic_product(ints(lhs@), ints(rhs@)),
                T::modulus(),
            ),
    {
        let out = self.tensor.as_mut_slice();
        fill_with_element(out, T::zero());
        accumulate_product(out, lhs.tensor.as_slice(), rhs.tensor.as_slice());
        proof {
            assert(ints(out@) =~= reduce(negacyclic_product(ints(lhs@), ints(rhs@)), T::modulus()));
        }
    }

    /// Overwrites the polynomial with the product of `poly` and the binary
    /// polynomial `bin_poly` modulo `X^N + 1`.
    pub fn fill_with_wrapping_binary_mul(
        &mut self,
        poly: &Polynomial<T>,
        bin_poly: &Polynomial<bool>,
    )
        requires
            old(self)@.len() == poly@.len(),
            old(self)@.len() == bin_poly@.len(),
        ensures
            final(self)@.len() == old(self)@.len(),
            ints(final(self)@) == reduce(
                negacyclic_product(ints(poly@), bit_ints(bin_poly@)),
                T::modulus(),
            ),
    {
        fill_with_element(self.tensor.as_mut_slice(), T::zero());
        self.update_with_wrapping_add_binary_mul(poly, bin_poly);
        proof {
            assert(ints(self@) =~= reduce(
                negacyclic_product(ints(poly@), bit_ints(bin_poly@)),
                T::modulus(),
            ));
        }
    }

    /// Adds to the polynomial the sum over `i` of the products of polynomial
    /// `i` of `coef_list` and binary polynomial `i` of `bin_list`, modulo
    /// `X^N + 1`.
    pub fn update_with_wrapping_add_binary_multisum(
        &mut self,
        coef_list: &PolynomialList<T>,
        bin_list: &PolynomialList<bool>,
    )
        requires
            coef_list.wf(),
            bin_list.wf(),
            coef_list.size_spec() == old(self)@.len(),
            bin_list.size_spec() == old(self)@.len(),
            coef_list@.len() == bin_list@.len(),
        ensures
            final(self)@.len() == old(self)@.len(),
            ints(final(self)@) == add_mod(
                ints(old(self)@),
                multisum(
                    ints(coef_list@),
                    bit_ints(bin_list@),
                    old(self)@.len() as int,
                    coef_list.count_spec() as int,
                ),
                T::modulus(),
            ),
    {
        let count = coef_list.polynomial_count();
        accumulate_binary_multisum(
            self.tensor.as_mut_slice(),
            coef_list.as_slice(),
            bin_list.as_slice(),
            count.0,
            false,
        );
    }

    /// Subtracts from the polynomial the sum over `i` of the products of
    /// polynomial `i` of `coef_list` and binary polynomial `i` of `bin_list`,
    /// modulo `X^N + 1`.
    pub fn update_with_wrapping_sub_binary_multisum(
        &mut self,
        coef_list: &PolynomialList<T>,
        bin_list: &PolynomialList<bool>,
    )
        requires
            coef_list.wf(),
            bin_list.wf(),
            coef_list.size_spec() == old(self)@.len(),
            bin_list.size_spec() == old(self)@.len(),
            coef_list@.len() == bin_list@.len(),
        ensures
            final(self)@.len() == old(self)@.len(),
            ints(final(self)@) == sub_mod(
                ints(old(self)@),
                multisum(
                    ints(coef_list@),
                    bit_ints(bin_list@),
                    old(self)@.len() as int,
                    coef_list.count_spec() as int,
                ),
                T::modulus(),
            ),
    {
        let count = coef_list.polynomial_count();
        accumulate_binary_multisum(
            self.tensor.as_mut_slice(),
            coef_list.as_slice(),
            bin_list.as_slice(),
            count.0,
            true,
        );
    }

    /// Adds to the polynomial the product of `polynomial` and the binary
    /// polynomial `bin_polynomial`, modulo `X^N + 1`.
    pub fn update_with_wrapping_add_binary_mul(
        &mut self,
        polynomial: &Polynomial<T>,
        bin_polynomial: &Polynomial<bool>,
    )
        requires
            old(self)@.len() == polynomial@.len(),
            old(self)@.len() == bin_polynomial@.len(),
        ensures
            final(self)@.len() == old(self)@.len(),
            ints(final(self)@) == add_mod(
                ints(old(self)@),
                negacyclic_product(ints(polynomial@), bit_ints(bin_polynomial@)),
                T::modulus(),
            ),
    {
        accumulate_binary_product(
            self.tensor.as_mut_slice(),
            polynomial.tensor.as_slice(),
            bin_polynomial.tensor.as_slice(),
            false,
        );
    }

    /// Subtracts from the polynomial the product of `polynomial` and the
    /// binary polynomial `bin_polynomial`, modulo `X^N + 1`.
    pub fn update_with_wrapping_sub_binary_mul(
        &mut self,
        polynomial: &Polynomial<T>,
        bin_polynomial: &Polynomial<bool>,
    )
        requires
            old(self)@.len() == polynomial@.len(),
            old(self)@.len() == bin_polynomial@.len(),
        ensures
            final(self)@.len() == old(self)@.len(),
            ints(final(self)@) == sub_mod(
                ints(old(self)@),
                negacyclic_product(ints(polynomial@), bit_ints(bin_polynomial@)),
                T::modulus(),
            ),
    {
        accumulate_binary_product(
            self.tensor.as_mut_slice(),
            polynomial.tensor.as_slice(),
            bin_polynomial.tensor.as_slice(),
            true,
        );
    }

    /// Adds `other` coefficient by coefficient.
    pub fn update_with_wrapping_add(&mut self, other: &Polynomial<T>)
        requires
            old(self)@.len() == other@.len(),
        ensures
            final(self)@.len() == old(self)@.len(),
            ints(final(self)@) == add_mod(ints(old(self)@), ints(other@), T::modulus()),
    {
        accumulate(self.tensor.as_mut_slice(), other.tensor.as_slice(), false);
    }

    /// Subtracts `other` coefficient by coefficient.
    pub fn update_with_wrapping_sub(&mut self, other: &Polynomial<T>)
        requires
            old(self)@.len() == other@.len(),
        ensures
            final(self)@.len() == old(self)@.len(),
            ints(final(self)@) == sub_mod(ints(old(self)@), ints(other@), T::modulus()),
    {
        accumulate(self.tensor.as_mut_slice(), other.tensor.as_slice(), true);
    }

    /// Multiplies the polynomial by `X^d` modulo `X^N + 1`, `d` being the
    /// given degree.
    pub fn update_with_wrapping_monic_monomial_mul(&mut self, monomial_degree: MonomialDegree)
        requires
            old(self)@.len() > 0,
        ensures
            final(self)@.len() == old(self)@.len(),
            ints(final(self)@) == reduce(
                monomial_mul(ints(old(self)@), monomial_degree.0 as int),
                T::modulus(),
            ),
    {
        monic_monomial_mul(self.tensor.as_mut_slice(), monomial_degree.0);
    }

    /// Divides the polynomial by `X^d` modulo `X^N + 1`, `d` being the given
    /// degree.
    pub fn update_with_wrapping_unit_monomial_div(&mut self, monomial_degree: MonomialDegree)
        requires
            old(self)@.len() > 0,
        ensures
            final(self)@.len() == old(self)@.len(),
            ints(final(self)@) == reduce(
                monomial_div(ints(old(self)@), monomial_degree.0 as int),
                T::modulus(),
            ),
    {
        monic_monomial_div(self.tensor.as_mut_slice(), monomial_degree.0);
    }

    /// Adds every polynomial of `coef_list` to the polynomial.
    pub fn update_with_wrapping_add_several(&mut self, coef_list: &PolynomialList<T>)
        requires
            coef_list.wf(),
            coef_list.size_spec() == old(self)@.len(),
        ensures
            final(self)@.len() == old(self)@.len(),
            ints(final(self)@) == add_mod(
                ints(old(self)@),
                list_sum(
                    ints(coef_list@),
                    old(self)@.len() as int,
                    coef_list.count_spec() as int,
                ),
                T::modulus(),
            ),
    {
        let count = coef_list.polynomial_count();
        accumulate_several(self.tensor.as_mut_slice(), coef_list.as_slice(), count.0, false);
    }

    /// Subtracts every polynomial of `coef_list` from the polynomial.
    pub fn update_with_wrapping_sub_several(&mut self, coef_list: &PolynomialList<T>)
        requires
            coef_list.wf(),
            coef_list.size_spec() == old(self)@.len(),
        ensures
            final(self)@.len() == old(self)@.len(),
            ints(final(self)@) == sub_mod(
                ints(old(self)@),
                list_sum(
                    ints(coef_list@),
                    old(self)@.len() as int,
                    coef_list.count_spec() as int,
                ),
                T::modulus(),
            ),
    {
        let count = coef_list.polynomial_count();
        accumulate_several(self.tensor.as_mut_slice(), coef_list.as_slice(), count.0, true);
    }
}

} // verus!
