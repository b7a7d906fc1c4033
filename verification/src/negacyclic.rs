//! Arithmetic in `Z_{2^q}[X] / (X^N + 1)` on coefficient slices.
//!
//! The mathematical model of a polynomial is the sequence of the integers that
//! its coefficients stand for. Products are stated over unreduced integers and
//! reduced modulo `2^q` only where a word is compared with them.

use vstd::prelude::*;
use vstd::arithmetic::div_mod::{
    lemma_add_mod_noop, lemma_sub_mod_noop, lemma_small_mod, lemma_fundamental_div_mod,
    lemma_fundamental_div_mod_converse_div, lemma_fundamental_div_mod_converse_mod,
};
use crate::numeric::UnsignedInteger;
use crate::tensor::{chunk, lemma_chunk_bounds};

verus! {

/// The integers that the words of `s` stand for.
pub open spec fn ints<T: UnsignedInteger>(s: Seq<T>) -> Seq<int> {
    Seq::new(s.len(), |i: int| s[i].as_int())
}

/// The coefficients of a binary polynomial, as 0 and 1.
pub open spec fn bit_ints(s: Seq<bool>) -> Seq<int> {
    Seq::new(s.len(), |i: int| if s[i] { 1int } else { 0int })
}

/// What `a[i]` contributes to coefficient `k` of `a * b` modulo `X^N + 1`:
/// the product with the one coefficient of `b` whose degree added to `i` is
/// `k` or `k + N`, negated in the second case.
pub open spec fn negacyclic_term(a: Seq<int>, b: Seq<int>, k: int, i: int) -> int {
    if i <= k {
        a[i] * b[k - i]
    } else {
        -(a[i] * b[a.len() + k - i])
    }
}

/// The contributions of `a[0..upto]` to coefficient `k` of the product.
pub open spec fn negacyclic_partial(a: Seq<int>, b: Seq<int>, k: int, upto: int) -> int
    decreases upto,
{
    if upto <= 0 {
        0
    } else {
        negacyclic_partial(a, b, k, upto - 1) + negacyclic_term(a, b, k, upto - 1)
    }
}

/// Coefficient `k` of `a * b` modulo `X^N + 1`, over the integers.
pub open spec fn negacyclic_coeff(a: Seq<int>, b: Seq<int>, k: int) -> int {
    negacyclic_partial(a, b, k, a.len() as int)
}

/// `a * b` modulo `X^N + 1`, over the integers.
pub open spec fn negacyclic_product(a: Seq<int>, b: Seq<int>) -> Seq<int> {
    Seq::new(a.len(), |k: int| negacyclic_coeff(a, b, k))
}

/// Coefficient-wise `x + y`, reduced modulo `m`.
pub open spec fn add_mod(x: Seq<int>, y: Seq<int>, m: int) -> Seq<int> {
    Seq::new(x.len(), |k: int| (x[k] + y[k]) % m)
}

/// Coefficient-wise `x - y`, reduced modulo `m`.
pub open spec fn sub_mod(x: Seq<int>, y: Seq<int>, m: int) -> Seq<int> {
    Seq::new(x.len(), |k: int| (x[k] - y[k]) % m)
}

/// `p` with the sign that a term carries: that of the accumulation, flipped
/// when the term wrapped around `X^N`.
spec fn oriented(sign: int, wrapped: bool, p: int) -> int {
    if (sign == 1) != wrapped {
        p
    } else {
        -p
    }
}

/// Value of coefficient `k` of an accumulator that started at `x0[k]`, once
/// the rows `0..i` of the schoolbook product and the columns `0..j` of row
/// `i` have been folded in with the given sign.
spec fn folded(
    x0: Seq<int>,
    a: Seq<int>,
    b: Seq<int>,
    sign: int,
    i: int,
    j: int,
    k: int,
) -> int {
    let n = a.len() as int;
    let column = if i <= k { k - i } else { n + k - i };
    x0[k] + oriented(sign, false, negacyclic_partial(a, b, k, i) + if column < j {
        negacyclic_term(a, b, k, i)
    } else {
        0
    })
}

/// Whether every coefficient of `out` holds its folded value.
spec fn is_folded<T: UnsignedInteger>(
    out: Seq<T>,
    x0: Seq<int>,
    a: Seq<int>,
    b: Seq<int>,
    sign: int,
    i: int,
    j: int,
) -> bool {
    &&& out.len() == a.len()
    &&& forall|k: int|
        0 <= k < out.len() ==> (#[trigger] out[k]).as_int() == folded(x0, a, b, sign, i, j, k)
            % T::modulus()
}

/// Index of the coefficient that the pair `(i, j)` lands on.
spec fn target(n: int, i: int, j: int) -> int {
    if i + j < n {
        i + j
    } else {
        i + j - n
    }
}

/// Folding the product of `a[i]` and `b[j]` into its target coefficient moves
/// the accumulator one column on.
proof fn lemma_fold_step<T: UnsignedInteger>(
    before: Seq<T>,
    after: Seq<T>,
    x0: Seq<int>,
    a: Seq<int>,
    b: Seq<int>,
    sign: int,
    i: int,
    j: int,
    product: int,
)
    requires
        0 <= i < a.len(),
        0 <= j < a.len(),
        a.len() == b.len(),
        x0.len() == a.len(),
        is_folded(before, x0, a, b, sign, i, j),
        after.len() == before.len(),
        product == (a[i] * b[j]) % T::modulus(),
        forall|k: int|
            0 <= k < before.len() && k != target(a.len() as int, i, j) ==> after[k] == before[k],
        after[target(a.len() as int, i, j)].as_int() == (before[target(
            a.len() as int,
            i,
            j,
        )].as_int() + oriented(sign, i + j >= a.len(), product)) % T::modulus(),
    ensures
        is_folded(after, x0, a, b, sign, i, j + 1),
{
    let n = a.len() as int;
    let m = T::modulus();
    let t = target(n, i, j);
    T::lemma_modulus();
    vstd::arithmetic::power2::lemma_pow2_pos(T::bits_spec());
    assert forall|k: int| 0 <= k < after.len() implies (#[trigger] after[k]).as_int() == folded(
        x0,
        a,
        b,
        sign,
        i,
        j + 1,
        k,
    ) % m by {
        let column = if i <= k { k - i } else { n + k - i };
        assert(before[k].as_int() == folded(x0, a, b, sign, i, j, k) % m);
        if k == t {
            assert(column == j);
            let f = folded(x0, a, b, sign, i, j, k);
            let p = a[i] * b[j];
            let c = oriented(sign, i + j >= n, p);
            assert(negacyclic_term(a, b, k, i) == if i + j < n { p } else { -p });
            assert(folded(x0, a, b, sign, i, j + 1, k) == f + c);
            lemma_add_mod_noop(f, p, m);
            lemma_sub_mod_noop(f, p, m);
            lemma_add_mod_noop(f % m, p % m, m);
            lemma_sub_mod_noop(f % m, p % m, m);
            vstd::arithmetic::div_mod::lemma_mod_twice(f, m);
            vstd::arithmetic::div_mod::lemma_mod_twice(p, m);
        } else {
            assert(column != j);
            assert(after[k] == before[k]);
        }
    }
}

/// A finished row is the start of the next one.
proof fn lemma_fold_row<T: UnsignedInteger>(
    out: Seq<T>,
    x0: Seq<int>,
    a: Seq<int>,
    b: Seq<int>,
    sign: int,
    i: int,
)
    requires
        0 <= i < a.len(),
        is_folded(out, x0, a, b, sign, i, a.len() as int),
    ensures
        is_folded(out, x0, a, b, sign, i + 1, 0),
{
    assert forall|k: int| 0 <= k < out.len() implies (#[trigger] out[k]).as_int() == folded(
        x0,
        a,
        b,
        sign,
        i + 1,
        0,
        k,
    ) % T::modulus() by {
        assert(out[k].as_int() == folded(x0, a, b, sign, i, a.len() as int, k) % T::modulus());
        assert(folded(x0, a, b, sign, i, a.len() as int, k) == folded(x0, a, b, sign, i + 1, 0, k));
    }
}

/// Folds `product`, the product of coefficient `i` of one factor and
/// coefficient `j` of the other, into the coefficient of `out` that the pair
/// lands on: added where the degrees stay below `N`, subtracted where they
/// wrap, and the other way round when `subtract` is set.
fn fold_term<T: UnsignedInteger>(out: &mut [T], i: usize, j: usize, product: T, subtract: bool)
    requires
        i < old(out)@.len(),
        j < old(out)@.len(),
    ensures
        final(out)@.len() == old(out)@.len(),
        forall|k: int|
            0 <= k < old(out)@.len() && k != target(old(out)@.len() as int, i as int, j as int)
                ==> final(out)@[k] == old(out)@[k],
        final(out)@[target(old(out)@.len() as int, i as int, j as int)].as_int() == (old(
            out,
        )@[target(old(out)@.len() as int, i as int, j as int)].as_int() + oriented(
            if subtract { -1int } else { 1int },
            i + j >= old(out)@.len(),
            product.as_int(),
        )) % T::modulus(),
{
    let n: usize = out.len();
    if j < n - i {
        let k: usize = i + j;
        let v: T = out[k];
        out[k] = if subtract { v.wrapping_sub(product) } else { v.wrapping_add(product) };
    } else {
        let k: usize = j - (n - i);
        let v: T = out[k];
        out[k] = if subtract { v.wrapping_add(product) } else { v.wrapping_sub(product) };
    }
}

/// The accumulator before any row is folded in.
proof fn lemma_fold_start<T: UnsignedInteger>(out: Seq<T>, a: Seq<int>, b: Seq<int>, sign: int)
    requires
        out.len() == a.len(),
    ensures
        is_folded(out, ints(out), a, b, sign, 0, 0),
{
    T::lemma_modulus();
    vstd::arithmetic::power2::lemma_pow2_pos(T::bits_spec());
    assert forall|k: int| 0 <= k < out.len() implies (#[trigger] out[k]).as_int() == folded(
        ints(out),
        a,
        b,
        sign,
        0,
        0,
        k,
    ) % T::modulus() by {
        out[k].lemma_as_int_range();
        lemma_small_mod(out[k].as_int() as nat, T::modulus() as nat);
    }
}

/// Adds to `out` the product of `poly` and the binary polynomial `bin`
/// modulo `X^N + 1`, or subtracts it when `subtract` is set.
pub fn accumulate_binary_product<T: UnsignedInteger>(
    out: &mut [T],
    poly: &[T],
    bin: &[bool],
    subtract: bool,
)
    requires
        old(out)@.len() == poly@.len(),
        old(out)@.len() == bin@.len(),
    ensures
        final(out)@.len() == old(out)@.len(),
        !subtract ==> ints(final(out)@) == add_mod(
            ints(old(out)@),
            negacyclic_product(ints(poly@), bit_ints(bin@)),
            T::modulus(),
        ),
        subtract ==> ints(final(out)@) == sub_mod(
            ints(old(out)@),
            negacyclic_product(ints(poly@), bit_ints(bin@)),
            T::modulus(),
        ),
{
    let n: usize = out.len();
    let ghost x0 = ints(out@);
    let ghost a = ints(poly@);
    let ghost b = bit_ints(bin@);
    let ghost sign = if subtract { -1int } else { 1int };
    proof {
        lemma_fold_start::<T>(out@, a, b, sign);
    }
    let mut i: usize = 0;
    while i < n
        invariant
            n == poly@.len(),
            n == bin@.len(),
            x0.len() == n,
            a == ints(poly@),
            b == bit_ints(bin@),
            sign == if subtract { -1int } else { 1int },
            i <= n,
            is_folded(out@, x0, a, b, sign, i as int, 0),
        decreases n - i,
    {
        let mut j: usize = 0;
        while j < n
            invariant
                n == poly@.len(),
                n == bin@.len(),
                x0.len() == n,
                a == ints(poly@),
                b == bit_ints(bin@),
                sign == if subtract { -1int } else { 1int },
                i < n,
                j <= n,
                is_folded(out@, x0, a, b, sign, i as int, j as int),
            decreases n - j,
        {
            let bit: T = T::cast_from_bool(bin[j]);
            let product: T = poly[i].wrapping_mul(bit);
            let ghost before = out@;
            fold_term(out, i, j, product, subtract);
            proof {
                lemma_fold_step::<T>(before, out@, x0, a, b, sign, i as int, j as int, product.as_int());
            }
            j = j + 1;
        }
        proof {
            lemma_fold_row::<T>(out@, x0, a, b, sign, i as int);
        }
        i = i + 1;
    }
    proof {
        lemma_fold_end::<T>(out@, x0, a, b, sign);
    }
}

/// Once every row is folded in, the accumulator holds the start value plus or
/// minus the product.
proof fn lemma_fold_end<T: UnsignedInteger>(
    out: Seq<T>,
    x0: Seq<int>,
    a: Seq<int>,
    b: Seq<int>,
    sign: int,
)
    requires
        x0.len() == a.len(),
        is_folded(out, x0, a, b, sign, a.len() as int, 0),
    ensures
        sign == 1 ==> ints(out) == add_mod(x0, negacyclic_product(a, b), T::modulus()),
        sign == -1 ==> ints(out) == sub_mod(x0, negacyclic_product(a, b), T::modulus()),
{
    let n = a.len() as int;
    let m = T::modulus();
    if sign == 1 {
        assert forall|k: int| 0 <= k < n implies #[trigger] ints(out)[k] == add_mod(
            x0,
            negacyclic_product(a, b),
            m,
        )[k] by {
            assert(out[k].as_int() == folded(x0, a, b, sign, n, 0, k) % m);
        }
        assert(ints(out) =~= add_mod(x0, negacyclic_product(a, b), m));
    }
    if sign == -1 {
        assert forall|k: int| 0 <= k < n implies #[trigger] ints(out)[k] == sub_mod(
            x0,
            negacyclic_product(a, b),
            m,
        )[k] by {
            assert(out[k].as_int() == folded(x0, a, b, sign, n, 0, k) % m);
        }
        assert(ints(out) =~= sub_mod(x0, negacyclic_product(a, b), m));
    }
}

/// Adds to `out` the product of `lhs` and `rhs` modulo `X^N + 1`.
pub fn accumulate_product<T: UnsignedInteger>(out: &mut [T], lhs: &[T], rhs: &[T])
    requires
        old(out)@.len() == lhs@.len(),
        old(out)@.len() == rhs@.len(),
    ensures
        final(out)@.len() == old(out)@.len(),
        ints(final(out)@) == add_mod(
            ints(old(out)@),
            negacyclic_product(ints(lhs@), ints(rhs@)),
            T::modulus(),
        ),
{
    let n: usize = out.len();
    let ghost x0 = ints(out@);
    let ghost a = ints(lhs@);
    let ghost b = ints(rhs@);
    proof {
        lemma_fold_start::<T>(out@, a, b, 1);
    }
    let mut i: usize = 0;
    while i < n
        invariant
            n == lhs@.len(),
            n == rhs@.len(),
            x0.len() == n,
            a == ints(lhs@),
            b == ints(rhs@),
            i <= n,
            is_folded(out@, x0, a, b, 1, i as int, 0),
        decreases n - i,
    {
        let mut j: usize = 0;
        while j < n
            invariant
                n == lhs@.len(),
                n == rhs@.len(),
                x0.len() == n,
                a == ints(lhs@),
                b == ints(rhs@),
                i < n,
                j <= n,
                is_folded(out@, x0, a, b, 1, i as int, j as int),
            decreases n - j,
        {
            let product: T = lhs[i].wrapping_mul(rhs[j]);
            let ghost before = out@;
            fold_term(out, i, j, product, false);
            proof {
                lemma_fold_step::<T>(before, out@, x0, a, b, 1, i as int, j as int, product.as_int());
            }
            j = j + 1;
        }
        proof {
            lemma_fold_row::<T>(out@, x0, a, b, 1, i as int);
        }
        i = i + 1;
    }
    proof {
        lemma_fold_end::<T>(out@, x0, a, b, 1);
    }
}

/// The sequence of `n` zeros.
pub open spec fn zeros(n: nat) -> Seq<int> {
    Seq::new(n, |k: int| 0int)
}

/// Sets every coefficient of `out` to `value`.
pub fn fill_with_element<T: UnsignedInteger>(out: &mut [T], value: T)
    ensures
        final(out)@ == Seq::new(old(out)@.len(), |k: int| value),
{
    let n: usize = out.len();
    let mut i: usize = 0;
    while i < n
        invariant
            out@.len() == n,
            i <= n,
            forall|k: int| 0 <= k < i ==> out@[k] == value,
        decreases n - i,
    {
        out[i] = value;
        i = i + 1;
    }
    assert(out@ =~= Seq::new(n as nat, |k: int| value));
}

/// Copies `source` over `out`.
pub fn fill_with_copy<T: UnsignedInteger>(out: &mut [T], source: &[T])
    requires
        old(out)@.len() == source@.len(),
    ensures
        final(out)@ == source@,
{
    let n: usize = out.len();
    let mut i: usize = 0;
    while i < n
        invariant
            out@.len() == n,
            source@.len() == n,
            i <= n,
            forall|k: int| 0 <= k < i ==> out@[k] == source@[k],
        decreases n - i,
    {
        out[i] = source[i];
        i = i + 1;
    }
    assert(out@ =~= source@);
}

/// Adds `other` to `out` coefficient by coefficient, or subtracts it when
/// `subtract` is set.
pub fn accumulate<T: UnsignedInteger>(out: &mut [T], other: &[T], subtract: bool)
    requires
        old(out)@.len() == other@.len(),
    ensures
        final(out)@.len() == old(out)@.len(),
        !subtract ==> ints(final(out)@) == add_mod(ints(old(out)@), ints(other@), T::modulus()),
        subtract ==> ints(final(out)@) == sub_mod(ints(old(out)@), ints(other@), T::modulus()),
{
    let n: usize = out.len();
    let ghost x0 = out@;
    let mut i: usize = 0;
    while i < n
        invariant
            out@.len() == n,
            other@.len() == n,
            x0.len() == n,
            i <= n,
            forall|k: int| i <= k < n ==> out@[k] == x0[k],
            forall|k: int|
                0 <= k < i ==> (#[trigger] out@[k]).as_int() == if subtract {
                    (x0[k].as_int() - other@[k].as_int()) % T::modulus()
                } else {
                    (x0[k].as_int() + other@[k].as_int()) % T::modulus()
                },
        decreases n - i,
    {
        let v: T = out[i];
        out[i] = if subtract { v.wrapping_sub(other[i]) } else { v.wrapping_add(other[i]) };
        i = i + 1;
    }
    proof {
        if subtract {
            assert(ints(out@) =~= sub_mod(ints(x0), ints(other@), T::modulus()));
        } else {
            assert(ints(out@) =~= add_mod(ints(x0), ints(other@), T::modulus()));
        }
    }
}

/// Coefficient `k` of `p * X^d` modulo `X^N + 1`: the coefficient of `p` that
/// lands on degree `k`, negated when it wrapped around `X^N` an odd number of
/// times.
pub open spec fn monomial_mul_coeff(p: Seq<int>, d: int, k: int) -> int {
    let n = p.len() as int;
    let i = (k - d) % n;
    if ((i + d) / n) % 2 == 0 {
        p[i]
    } else {
        -p[i]
    }
}

/// `p * X^d` modulo `X^N + 1`, over the integers.
pub open spec fn monomial_mul(p: Seq<int>, d: int) -> Seq<int> {
    Seq::new(p.len(), |k: int| monomial_mul_coeff(p, d, k))
}

/// Coefficient `k` of `p * X^(-d)` modulo `X^N + 1`.
pub open spec fn monomial_div_coeff(p: Seq<int>, d: int, k: int) -> int {
    let n = p.len() as int;
    let i = (k + d) % n;
    if ((i - d) / n) % 2 == 0 {
        p[i]
    } else {
        -p[i]
    }
}

/// `p * X^(-d)` modulo `X^N + 1`, over the integers.
pub open spec fn monomial_div(p: Seq<int>, d: int) -> Seq<int> {
    Seq::new(p.len(), |k: int| monomial_div_coeff(p, d, k))
}

/// Every coefficient reduced modulo `m`.
pub open spec fn reduce(x: Seq<int>, m: int) -> Seq<int> {
    Seq::new(x.len(), |k: int| x[k] % m)
}

/// `<[T]>::rotate_right`: the last `k` elements move to the front and the
/// others follow them, in their order. The call panics when `k` is larger
/// than the length, which the precondition leaves out.
pub assume_specification<V>[ <[V]>::rotate_right ](slice: &mut [V], k: usize)
    requires
        k <= old(slice)@.len(),
    ensures
        final(slice)@ == old(slice)@.subrange(old(slice)@.len() - k, old(slice)@.len() as int)
            + old(slice)@.subrange(0, old(slice)@.len() - k),
;

/// `<[T]>::rotate_left`: the first `mid` elements move to the end and the
/// others come before them, in their order. The call panics when `mid` is
/// larger than the length, which the precondition leaves out.
pub assume_specification<V>[ <[V]>::rotate_left ](slice: &mut [V], mid: usize)
    requires
        mid <= old(slice)@.len(),
    ensures
        final(slice)@ == old(slice)@.subrange(mid as int, old(slice)@.len() as int) + old(
            slice,
        )@.subrange(0, mid as int),
;

/// Negates the coefficients `lo..hi` of `out`.
pub fn negate_range<T: UnsignedInteger>(out: &mut [T], lo: usize, hi: usize)
    requires
        lo <= hi <= old(out)@.len(),
    ensures
        final(out)@.len() == old(out)@.len(),
        forall|k: int|
            lo <= k < hi ==> (#[trigger] final(out)@[k]).as_int() == (-old(out)@[k].as_int())
                % T::modulus(),
        forall|k: int|
            0 <= k < old(out)@.len() && !(lo <= k < hi) ==> final(out)@[k] == old(out)@[k],
{
    let ghost x0 = out@;
    let mut i: usize = lo;
    while i < hi
        invariant
            out@.len() == x0.len(),
            lo <= i <= hi,
            hi <= x0.len(),
            forall|k: int|
                lo <= k < i ==> (#[trigger] out@[k]).as_int() == (-x0[k].as_int()) % T::modulus(),
            forall|k: int| 0 <= k < x0.len() && !(lo <= k < i) ==> out@[k] == x0[k],
        decreases hi - i,
    {
        let v: T = out[i];
        out[i] = v.wrapping_neg();
        i = i + 1;
    }
}

/// Where coefficient `k` of `p * X^d` comes from, with `d = q * n + r`.
proof fn lemma_monomial_mul_index(n: int, d: int, k: int)
    requires
        n > 0,
        d >= 0,
        0 <= k < n,
    ensures
        k >= d % n ==> (k - d) % n == k - d % n && ((k - d % n) + d) / n == d / n,
        k < d % n ==> (k - d) % n == k - d % n + n && ((k - d % n + n) + d) / n == d / n + 1,
{
    let q = d / n;
    let r = d % n;
    lemma_fundamental_div_mod(d, n);
    assert(d == n * q + r);
    if k >= r {
        assert(k - d == (-q) * n + (k - r)) by (nonlinear_arith)
            requires
                d == n * q + r,
        ;
        lemma_fundamental_div_mod_converse_mod(k - d, n, -q, k - r);
        assert((k - r) + d == q * n + k) by (nonlinear_arith)
            requires
                d == n * q + r,
        ;
        lemma_fundamental_div_mod_converse_div((k - r) + d, n, q, k);
    } else {
        assert(k - d == (-q - 1) * n + (k - r + n)) by (nonlinear_arith)
            requires
                d == n * q + r,
        ;
        lemma_fundamental_div_mod_converse_mod(k - d, n, -q - 1, k - r + n);
        assert((k - r + n) + d == (q + 1) * n + k) by (nonlinear_arith)
            requires
                d == n * q + r,
        ;
        lemma_fundamental_div_mod_converse_div((k - r + n) + d, n, q + 1, k);
    }
}

/// Where coefficient `k` of `p * X^(-d)` comes from, with `d = q * n + r`.
proof fn lemma_monomial_div_index(n: int, d: int, k: int)
    requires
        n > 0,
        d >= 0,
        0 <= k < n,
    ensures
        k + d % n < n ==> (k + d) % n == k + d % n && ((k + d % n) - d) / n == -(d / n),
        k + d % n >= n ==> (k + d) % n == k + d % n - n && ((k + d % n - n) - d) / n == -(d / n)
            - 1,
{
    let q = d / n;
    let r = d % n;
    lemma_fundamental_div_mod(d, n);
    assert(d == n * q + r);
    if k + r < n {
        assert(k + d == q * n + (k + r)) by (nonlinear_arith)
            requires
                d == n * q + r,
        ;
        lemma_fundamental_div_mod_converse_mod(k + d, n, q, k + r);
        assert((k + r) - d == (-q) * n + k) by (nonlinear_arith)
            requires
                d == n * q + r,
        ;
        lemma_fundamental_div_mod_converse_div((k + r) - d, n, -q, k);
    } else {
        assert(k + d == (q + 1) * n + (k + r - n)) by (nonlinear_arith)
            requires
                d == n * q + r,
        ;
        lemma_fundamental_div_mod_converse_mod(k + d, n, q + 1, k + r - n);
        assert((k + r - n) - d == (-q - 1) * n + k) by (nonlinear_arith)
            requires
                d == n * q + r,
        ;
        lemma_fundamental_div_mod_converse_div((k + r - n) - d, n, -q - 1, k);
    }
}

/// Negating a word twice gives the word back.
proof fn lemma_double_negation(x: int, m: int)
    requires
        m > 0,
        0 <= x < m,
    ensures
        (-((-x) % m)) % m == x,
        x % m == x,
{
    lemma_sub_mod_noop(0, -x, m);
    lemma_small_mod(x as nat, m as nat);
    lemma_small_mod(0, m as nat);
}

/// Multiplies `out` by `X^degree` modulo `X^N + 1`.
pub fn monic_monomial_mul<T: UnsignedInteger>(out: &mut [T], degree: usize)
    requires
        old(out)@.len() > 0,
    ensures
        final(out)@.len() == old(out)@.len(),
        ints(final(out)@) == reduce(monomial_mul(ints(old(out)@), degree as int), T::modulus()),
{
    let n: usize = out.len();
    let ghost x0 = out@;
    let full_cycles_count: usize = degree / n;
    if full_cycles_count % 2 != 0 {
        negate_range(out, 0, n);
    }
    let ghost x1 = out@;
    let remaining_degree: usize = degree % n;
    out.rotate_right(remaining_degree);
    let ghost x2 = out@;
    negate_range(out, 0, remaining_degree);
    proof {
        let m = T::modulus();
        T::lemma_modulus();
        vstd::arithmetic::power2::lemma_pow2_pos(T::bits_spec());
        let p = ints(x0);
        assert forall|k: int| 0 <= k < n implies #[trigger] ints(out@)[k] == reduce(
            monomial_mul(p, degree as int),
            m,
        )[k] by {
            lemma_monomial_mul_index(n as int, degree as int, k);
            let i = (k - degree) % (n as int);
            assert(x2[k] == x1[i]);
            x0[i].lemma_as_int_range();
            lemma_double_negation(x0[i].as_int(), m);
        }
        assert(ints(out@) =~= reduce(monomial_mul(p, degree as int), m));
    }
}

/// Divides `out` by `X^degree` modulo `X^N + 1`.
pub fn monic_monomial_div<T: UnsignedInteger>(out: &mut [T], degree: usize)
    requires
        old(out)@.len() > 0,
    ensures
        final(out)@.len() == old(out)@.len(),
        ints(final(out)@) == reduce(monomial_div(ints(old(out)@), degree as int), T::modulus()),
{
    let n: usize = out.len();
    let ghost x0 = out@;
    let full_cycles_count: usize = degree / n;
    if full_cycles_count % 2 != 0 {
        negate_range(out, 0, n);
    }
    let ghost x1 = out@;
    let remaining_degree: usize = degree % n;
    out.rotate_left(remaining_degree);
    let ghost x2 = out@;
    negate_range(out, n - remaining_degree, n);
    proof {
        let m = T::modulus();
        T::lemma_modulus();
        vstd::arithmetic::power2::lemma_pow2_pos(T::bits_spec());
        let p = ints(x0);
        assert forall|k: int| 0 <= k < n implies #[trigger] ints(out@)[k] == reduce(
            monomial_div(p, degree as int),
            m,
        )[k] by {
            lemma_monomial_div_index(n as int, degree as int, k);
            let i = (k + degree) % (n as int);
            assert(x2[k] == x1[i]);
            x0[i].lemma_as_int_range();
            lemma_double_negation(x0[i].as_int(), m);
        }
        assert(ints(out@) =~= reduce(monomial_div(p, degree as int), m));
    }
}

/// Coefficient `k` of the sum of the products of the first `count` aligned
/// pairs of two flat lists, over the integers.
pub open spec fn multisum_coeff(coefs: Seq<int>, bins: Seq<int>, n: int, count: int, k: int) -> int
    decreases count,
{
    if count <= 0 {
        0
    } else {
        multisum_coeff(coefs, bins, n, count - 1, k) + negacyclic_coeff(
            chunk(coefs, n, count - 1),
            chunk(bins, n, count - 1),
            k,
        )
    }
}

/// The sum of the products of the first `count` aligned pairs of two flat
/// lists of polynomials of `n` coefficients, over the integers.
pub open spec fn multisum(coefs: Seq<int>, bins: Seq<int>, n: int, count: int) -> Seq<int> {
    Seq::new(n as nat, |k: int| multisum_coeff(coefs, bins, n, count, k))
}

/// Accumulating `c` on top of an accumulated `earlier` accumulates their sum,
/// `total`.
proof fn lemma_accumulated(
    x0: Seq<int>,
    before: Seq<int>,
    after: Seq<int>,
    earlier: Seq<int>,
    c: Seq<int>,
    total: Seq<int>,
    m: int,
    subtract: bool,
)
    requires
        m > 0,
        earlier.len() == x0.len(),
        c.len() == x0.len(),
        total.len() == x0.len(),
        forall|k: int| 0 <= k < x0.len() ==> #[trigger] total[k] == earlier[k] + c[k],
        !subtract ==> before == add_mod(x0, earlier, m) && after == add_mod(before, c, m),
        subtract ==> before == sub_mod(x0, earlier, m) && after == sub_mod(before, c, m),
    ensures
        !subtract ==> after == add_mod(x0, total, m),
        subtract ==> after == sub_mod(x0, total, m),
{
    assert forall|k: int| 0 <= k < x0.len() implies #[trigger] after[k] == if subtract {
        (x0[k] - total[k]) % m
    } else {
        (x0[k] + total[k]) % m
    } by {
        assert(total[k] == earlier[k] + c[k]);
        if subtract {
            assert(before[k] == (x0[k] - earlier[k]) % m);
            assert(after[k] == (before[k] - c[k]) % m);
            lemma_sub_mod_noop(x0[k] - earlier[k], c[k], m);
            lemma_sub_mod_noop(before[k], c[k], m);
            vstd::arithmetic::div_mod::lemma_mod_twice(x0[k] - earlier[k], m);
        } else {
            assert(before[k] == (x0[k] + earlier[k]) % m);
            assert(after[k] == (before[k] + c[k]) % m);
            lemma_add_mod_noop(x0[k] + earlier[k], c[k], m);
            lemma_add_mod_noop(before[k], c[k], m);
            vstd::arithmetic::div_mod::lemma_mod_twice(x0[k] + earlier[k], m);
        }
    }
    if subtract {
        assert(after =~= sub_mod(x0, total, m));
    } else {
        assert(after =~= add_mod(x0, total, m));
    }
}

/// Accumulating nothing leaves the words as they are.
proof fn lemma_accumulated_nothing<T: UnsignedInteger>(out: Seq<T>, nothing: Seq<int>)
    requires
        nothing.len() == out.len(),
        forall|k: int| 0 <= k < out.len() ==> #[trigger] nothing[k] == 0,
    ensures
        T::modulus() > 0,
        ints(out) == add_mod(ints(out), nothing, T::modulus()),
        ints(out) == sub_mod(ints(out), nothing, T::modulus()),
{
    T::lemma_modulus();
    vstd::arithmetic::power2::lemma_pow2_pos(T::bits_spec());
    let x0 = ints(out);
    assert forall|k: int| 0 <= k < out.len() implies (#[trigger] x0[k]) % T::modulus() == x0[k] by {
        out[k].lemma_as_int_range();
        lemma_small_mod(x0[k] as nat, T::modulus() as nat);
    }
    assert(x0 =~= add_mod(x0, nothing, T::modulus()));
    assert(x0 =~= sub_mod(x0, nothing, T::modulus()));
}

/// Adds to `out` the sum of the products of the `count` aligned pairs of
/// polynomials of the flat lists `coefs` and `bins`, or subtracts it when
/// `subtract` is set.
pub fn accumulate_binary_multisum<T: UnsignedInteger>(
    out: &mut [T],
    coefs: &[T],
    bins: &[bool],
    count: usize,
    subtract: bool,
)
    requires
        coefs@.len() == count * old(out)@.len(),
        bins@.len() == count * old(out)@.len(),
    ensures
        final(out)@.len() == old(out)@.len(),
        !subtract ==> ints(final(out)@) == add_mod(
            ints(old(out)@),
            multisum(ints(coefs@), bit_ints(bins@), old(out)@.len() as int, count as int),
            T::modulus(),
        ),
        subtract ==> ints(final(out)@) == sub_mod(
            ints(old(out)@),
            multisum(ints(coefs@), bit_ints(bins@), old(out)@.len() as int, count as int),
            T::modulus(),
        ),
{
    let n: usize = out.len();
    let ghost x0 = ints(out@);
    let ghost a = ints(coefs@);
    let ghost b = bit_ints(bins@);
    proof {
        lemma_accumulated_nothing::<T>(out@, multisum(a, b, n as int, 0));
    }
    // Taking the length bounds the products of the dimensions below.
    let total: usize = coefs.len();
    let mut p: usize = 0;
    while p < count
        invariant
            out@.len() == n,
            x0.len() == n,
            total == count * n,
            coefs@.len() == count * n,
            bins@.len() == count * n,
            a == ints(coefs@),
            b == bit_ints(bins@),
            p <= count,
            T::modulus() > 0,
            !subtract ==> ints(out@) == add_mod(x0, multisum(a, b, n as int, p as int), T::modulus()),
            subtract ==> ints(out@) == sub_mod(x0, multisum(a, b, n as int, p as int), T::modulus()),
        decreases count - p,
    {
        proof {
            lemma_chunk_bounds(n as int, count as int, p as int);
        }
        let lo: usize = p * n;
        let hi: usize = lo + n;
        let poly = vstd::slice::slice_subrange(coefs, lo, hi);
        let bin = vstd::slice::slice_subrange(bins, lo, hi);
        let ghost before = ints(out@);
        accumulate_binary_product(out, poly, bin, subtract);
        proof {
            assert(ints(poly@) =~= chunk(a, n as int, p as int));
            assert(bit_ints(bin@) =~= chunk(b, n as int, p as int));
            lemma_accumulated(
                x0,
                before,
                ints(out@),
                multisum(a, b, n as int, p as int),
                negacyclic_product(chunk(a, n as int, p as int), chunk(b, n as int, p as int)),
                multisum(a, b, n as int, p as int + 1),
                T::modulus(),
                subtract,
            );
        }
        p = p + 1;
    }
}

/// Coefficient `k` of the sum of the first `count` polynomials of a flat
/// list, over the integers.
pub open spec fn list_sum_coeff(coefs: Seq<int>, n: int, count: int, k: int) -> int
    decreases count,
{
    if count <= 0 {
        0
    } else {
        list_sum_coeff(coefs, n, count - 1, k) + chunk(coefs, n, count - 1)[k]
    }
}

/// The sum of the first `count` polynomials of a flat list of polynomials
/// of `n` coefficients, over the integers.
pub open spec fn list_sum(coefs: Seq<int>, n: int, count: int) -> Seq<int> {
    Seq::new(n as nat, |k: int| list_sum_coeff(coefs, n, count, k))
}

/// Adds to `out` each of the `count` polynomials of the flat list `coefs`, or
/// subtracts them when `subtract` is set.
pub fn accumulate_several<T: UnsignedInteger>(
    out: &mut [T],
    coefs: &[T],
    count: usize,
    subtract: bool,
)
    requires
        coefs@.len() == count * old(out)@.len(),
    ensures
        final(out)@.len() == old(out)@.len(),
        !subtract ==> ints(final(out)@) == add_mod(
            ints(old(out)@),
            list_sum(ints(coefs@), old(out)@.len() as int, count as int),
            T::modulus(),
        ),
        subtract ==> ints(final(out)@) == sub_mod(
            ints(old(out)@),
            list_sum(ints(coefs@), old(out)@.len() as int, count as int),
            T::modulus(),
        ),
{
    let n: usize = out.len();
    let ghost x0 = ints(out@);
    let ghost a = ints(coefs@);
    proof {
        lemma_accumulated_nothing::<T>(out@, list_sum(a, n as int, 0));
    }
    // Taking the length bounds the products of the dimensions below.
    let total: usize = coefs.len();
    let mut p: usize = 0;
    while p < count
        invariant
            out@.len() == n,
            x0.len() == n,
            total == count * n,
            coefs@.len() == count * n,
            a == ints(coefs@),
            p <= count,
            T::modulus() > 0,
            !subtract ==> ints(out@) == add_mod(x0, list_sum(a, n as int, p as int), T::modulus()),
            subtract ==> ints(out@) == sub_mod(x0, list_sum(a, n as int, p as int), T::modulus()),
        decreases count - p,
    {
        proof {
            lemma_chunk_bounds(n as int, count as int, p as int);
        }
        let lo: usize = p * n;
        let hi: usize = lo + n;
        let poly = vstd::slice::slice_subrange(coefs, lo, hi);
        let ghost before = ints(out@);
        accumulate(out, poly, subtract);
        proof {
            assert(ints(poly@) =~= chunk(a, n as int, p as int));
            lemma_accumulated(
                x0,
                before,
                ints(out@),
                list_sum(a, n as int, p as int),
                chunk(a, n as int, p as int),
                list_sum(a, n as int, p as int + 1),
                T::modulus(),
                subtract,
            );
        }
        p = p + 1;
    }
}

/// Two sequences of words that stand for the same integers are equal.
pub proof fn lemma_ints_injective<T: UnsignedInteger>(a: Seq<T>, b: Seq<T>)
    requires
        ints(a) == ints(b),
    ensures
        a == b,
{
    assert(a.len() == ints(a).len());
    assert(b.len() == ints(b).len());
    assert forall|k: int| 0 <= k < a.len() implies a[k] == b[k] by {
        assert(ints(a)[k] == a[k].as_int());
        assert(ints(b)[k] == b[k].as_int());
        T::lemma_as_int_injective(a[k], b[k]);
    }
    assert(a =~= b);
}

/// Multiplying a polynomial by `X^d` and dividing the result by `X^d`
/// gives the polynomial back, word for word.
pub proof fn lemma_monomial_div_undoes_mul<T: UnsignedInteger>(
    p: Seq<T>,
    multiplied: Seq<T>,
    divided: Seq<T>,
    d: int,
)
    requires
        p.len() > 0,
        d >= 0,
        ints(multiplied) == reduce(monomial_mul(ints(p), d), T::modulus()),
        ints(divided) == reduce(monomial_div(ints(multiplied), d), T::modulus()),
    ensures
        divided == p,
{
    let n = p.len() as int;
    let m = T::modulus();
    T::lemma_modulus();
    vstd::arithmetic::power2::lemma_pow2_pos(T::bits_spec());
    assert(ints(multiplied).len() == n);
    assert(ints(divided).len() == n);
    assert forall|k: int| 0 <= k < n implies #[trigger] ints(divided)[k] == ints(p)[k] by {
        let i = (k + d) % n;
        lemma_monomial_div_index(n, d, k);
        lemma_monomial_mul_index(n, d, i);
        assert((i - d) % n == k);
        assert(ints(divided)[k] == monomial_div_coeff(ints(multiplied), d, k) % m);
        assert(ints(multiplied)[i] == monomial_mul_coeff(ints(p), d, i) % m);
        p[k].lemma_as_int_range();
        lemma_double_negation(p[k].as_int(), m);
        vstd::arithmetic::div_mod::lemma_mod_twice(-p[k].as_int(), m);
    }
    assert(ints(divided) =~= ints(p));
    lemma_ints_injective(divided, p);
}

/// The product with a binary polynomial is the product with the polynomial
/// whose coefficients are the words 0 and 1 that its bits cast to.
pub proof fn lemma_binary_product_is_product<T: UnsignedInteger>(
    p: Seq<T>,
    bin: Seq<bool>,
    lifted: Seq<T>,
    binary_result: Seq<T>,
    result: Seq<T>,
)
    requires
        lifted.len() == bin.len(),
        forall|i: int|
            0 <= i < bin.len() ==> (#[trigger] lifted[i]).as_int() == if bin[i] {
                1int
            } else {
                0int
            },
        ints(binary_result) == reduce(negacyclic_product(ints(p), bit_ints(bin)), T::modulus()),
        ints(result) == reduce(negacyclic_product(ints(p), ints(lifted)), T::modulus()),
    ensures
        negacyclic_product(ints(p), bit_ints(bin)) == negacyclic_product(ints(p), ints(lifted)),
        binary_result == result,
{
    assert(ints(lifted) =~= bit_ints(bin));
    lemma_ints_injective(binary_result, result);
}

/// The integers of the two parts of a sequence of words whose integers are
/// a concatenation.
pub proof fn lemma_ints_split<T: UnsignedInteger>(s: Seq<T>, head: Seq<int>, tail: Seq<int>)
    requires
        ints(s) == head + tail,
    ensures
        s.len() == head.len() + tail.len(),
        ints(s.subrange(0, head.len() as int)) == head,
        ints(s.subrange(head.len() as int, s.len() as int)) == tail,
{
    assert(ints(s).len() == s.len());
    assert((head + tail).len() == head.len() + tail.len());
    let h = head.len() as int;
    assert forall|i: int| 0 <= i < h implies ints(s.subrange(0, h))[i] == head[i] by {
        assert(ints(s)[i] == (head + tail)[i]);
    }
    assert(ints(s.subrange(0, h)) =~= head);
    assert forall|i: int| 0 <= i < tail.len() implies ints(s.subrange(h, s.len() as int))[i]
        == tail[i] by {
        assert(ints(s)[h + i] == (head + tail)[h + i]);
    }
    assert(ints(s.subrange(h, s.len() as int)) =~= tail);
}

} // verus!
