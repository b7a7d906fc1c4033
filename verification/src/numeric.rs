//! Unsigned machine words seen as elements of the discretized torus.

use vstd::prelude::*;
use vstd::arithmetic::power2::{pow2, lemma2_to64, lemma2_to64_rest, lemma_pow2_strictly_increases};
use vstd::bits::{lemma_u8_shl_is_mul, lemma_u32_shl_is_mul, lemma_u64_shl_is_mul};

verus! {

/// The capability set of an unsigned word of `bits` bits: every value stands
/// for an integer in `[0, modulus)`, and all arithmetic is reduced modulo
/// `modulus == 2^bits`.
pub trait UnsignedInteger: Copy + Sized {
    /// Width of the word in bits.
    spec fn bits_spec() -> nat;

    /// The number of distinct values, `2^bits`.
    spec fn modulus() -> int;

    /// The integer that the word stands for.
    spec fn as_int(self) -> int;

    /// The modulus is the power of two of the width, which is a whole
    /// number of bytes, eight at most.
    proof fn lemma_modulus()
        ensures
            Self::modulus() == pow2(Self::bits_spec()),
            Self::modulus() >= 256,
            Self::bits_spec() >= 8,
            Self::bits_spec() % 8 == 0,
            Self::bits_spec() <= 64,
    ;

    /// A word stands for an integer below the modulus.
    proof fn lemma_as_int_range(self)
        ensures
            0 <= self.as_int() < Self::modulus(),
    ;

    /// Two words that stand for the same integer are the same word.
    proof fn lemma_as_int_injective(a: Self, b: Self)
        requires
            a.as_int() == b.as_int(),
        ensures
            a == b,
    ;

    /// The word of value 0.
    fn zero() -> (r: Self)
        ensures
            r.as_int() == 0,
    ;

    /// The word of value 1.
    fn one() -> (r: Self)
        ensures
            r.as_int() == 1,
    ;

    /// Width of the word in bits.
    fn bits() -> (r: usize)
        ensures
            r == Self::bits_spec(),
    ;

    /// 0 for `false`, 1 for `true`.
    fn cast_from_bool(b: bool) -> (r: Self)
        ensures
            r.as_int() == if b { 1int } else { 0int },
    ;

    /// The sum modulo `2^bits`.
    fn wrapping_add(self, rhs: Self) -> (r: Self)
        ensures
            r.as_int() == (self.as_int() + rhs.as_int()) % Self::modulus(),
    ;

    /// The difference modulo `2^bits`.
    fn wrapping_sub(self, rhs: Self) -> (r: Self)
        ensures
            r.as_int() == (self.as_int() - rhs.as_int()) % Self::modulus(),
    ;

    /// The product modulo `2^bits`.
    fn wrapping_mul(self, rhs: Self) -> (r: Self)
        ensures
            r.as_int() == (self.as_int() * rhs.as_int()) % Self::modulus(),
    ;

    /// The opposite modulo `2^bits`.
    fn wrapping_neg(self) -> (r: Self)
        ensures
            r.as_int() == (-self.as_int()) % Self::modulus(),
    ;

    /// Left shift that loses no bit.
    fn shl(self, shift: usize) -> (r: Self)
        requires
            shift < Self::bits_spec(),
            self.as_int() * pow2(shift as nat) < Self::modulus(),
        ensures
            r.as_int() == self.as_int() * pow2(shift as nat),
    ;

    /// The word whose little-endian bytes are `bytes`.
    fn from_le_byte_seq(bytes: &Vec<u8>) -> (r: Self)
        requires
            bytes@.len() * 8 == Self::bits_spec(),
        ensures
            r.as_int() == le_value(bytes@),
    ;
}

/// The integer whose little-endian base-256 digits are `bytes`.
pub open spec fn le_value(bytes: Seq<u8>) -> int
    decreases bytes.len(),
{
    if bytes.len() == 0 {
        0
    } else {
        bytes[0] as int + 256 * le_value(bytes.drop_first())
    }
}

/// A little-endian value of `n` bytes is below `2^(8n)`.
pub proof fn lemma_le_value_bound(bytes: Seq<u8>)
    ensures
        0 <= le_value(bytes) < pow2(8 * bytes.len()),
    decreases bytes.len(),
{
    if bytes.len() == 0 {
        lemma2_to64();
    } else {
        let rest = bytes.drop_first();
        lemma_le_value_bound(rest);
        vstd::arithmetic::power2::lemma_pow2_adds(8, 8 * rest.len());
        lemma2_to64();
        assert(8 * bytes.len() == 8 + 8 * rest.len());
        assert(pow2(8 * bytes.len()) == 256 * pow2(8 * rest.len()));
    }
}

/// Assembles at most eight bytes, least significant first.
pub fn le_bytes_to_u64(bytes: &Vec<u8>) -> (r: u64)
    requires
        bytes@.len() <= 8,
    ensures
        r as int == le_value(bytes@),
{
    let n: usize = bytes.len();
    let mut acc: u64 = 0;
    let mut i: usize = n;
    proof {
        lemma2_to64();
        assert(bytes@.subrange(n as int, n as int).len() == 0);
    }
    while i > 0
        invariant
            n == bytes@.len(),
            n <= 8,
            i <= n,
            acc as int == le_value(bytes@.subrange(i as int, n as int)),
        decreases i,
    {
        let ghost tail = bytes@.subrange(i as int, n as int);
        let ghost longer = bytes@.subrange(i as int - 1, n as int);
        proof {
            lemma_le_value_bound(tail);
            assert(longer.drop_first() =~= tail);
            assert(longer[0] == bytes@[i as int - 1]);
            assert(tail.len() <= 7);
            if tail.len() < 7 {
                lemma_pow2_strictly_increases(8 * tail.len(), 56);
            }
            lemma2_to64_rest();
            assert(pow2(56) == 0x100000000000000);
            assert(acc < 0x100000000000000);
        }
        i = i - 1;
        acc = acc * 256 + bytes[i] as u64;
    }
    assert(bytes@.subrange(0, n as int) =~= bytes@);
    acc
}

impl UnsignedInteger for u8 {
    open spec fn bits_spec() -> nat {
        8
    }

    open spec fn modulus() -> int {
        0x100
    }

    open spec fn as_int(self) -> int {
        self as int
    }

    /// The modulus is the power of two of the width, which is a whole
    /// number of bytes, eight at most.
    proof fn lemma_modulus() {
        lemma2_to64();
        lemma2_to64_rest();
    }

    /// A word stands for an integer below the modulus.
    proof fn lemma_as_int_range(self) {
    }

    /// Two words that stand for the same integer are the same word.
    proof fn lemma_as_int_injective(a: Self, b: Self) {
    }

    fn zero() -> (r: Self) {
        0
    }

    fn one() -> (r: Self) {
        1
    }

    fn bits() -> (r: usize) {
        8
    }

    fn cast_from_bool(b: bool) -> (r: Self) {
        if b {
            1
        } else {
            0
        }
    }

    fn wrapping_add(self, rhs: Self) -> (r: Self) {
        self.wrapping_add(rhs)
    }

    fn wrapping_sub(self, rhs: Self) -> (r: Self) {
        self.wrapping_sub(rhs)
    }

    fn wrapping_mul(self, rhs: Self) -> (r: Self) {
        self.wrapping_mul(rhs)
    }

    fn wrapping_neg(self) -> (r: Self) {
        let zero: u8 = 0;
        zero.wrapping_sub(self)
    }

    fn shl(self, shift: usize) -> (r: Self) {
        proof {
            lemma_u8_shl_is_mul(self, shift as u8);
        }
        self << shift
    }

    fn from_le_byte_seq(bytes: &Vec<u8>) -> (r: Self) {
        proof {
            lemma_le_value_bound(bytes@);
            lemma2_to64();
            lemma2_to64_rest();
        }
        let wide: u64 = le_bytes_to_u64(bytes);
        wide as u8
    }
}

impl UnsignedInteger for u32 {
    open spec fn bits_spec() -> nat {
        32
    }

    open spec fn modulus() -> int {
        0x1_0000_0000
    }

    open spec fn as_int(self) -> int {
        self as int
    }

    /// The modulus is the power of two of the width, which is a whole
    /// number of bytes, eight at most.
    proof fn lemma_modulus() {
        lemma2_to64();
        lemma2_to64_rest();
    }

    /// A word stands for an integer below the modulus.
    proof fn lemma_as_int_range(self) {
    }

    /// Two words that stand for the same integer are the same word.
    proof fn lemma_as_int_injective(a: Self, b: Self) {
    }

    fn zero() -> (r: Self) {
        0
    }

    fn one() -> (r: Self) {
        1
    }

    fn bits() -> (r: usize) {
        32
    }

    fn cast_from_bool(b: bool) -> (r: Self) {
        if b {
            1
        } else {
            0
        }
    }

    fn wrapping_add(self, rhs: Self) -> (r: Self) {
        self.wrapping_add(rhs)
    }

    fn wrapping_sub(self, rhs: Self) -> (r: Self) {
        self.wrapping_sub(rhs)
    }

    fn wrapping_mul(self, rhs: Self) -> (r: Self) {
        self.wrapping_mul(rhs)
    }

    fn wrapping_neg(self) -> (r: Self) {
        let zero: u32 = 0;
        zero.wrapping_sub(self)
    }

    fn shl(self, shift: usize) -> (r: Self) {
        proof {
            lemma_u32_shl_is_mul(self, shift as u32);
        }
        self << shift
    }

    fn from_le_byte_seq(bytes: &Vec<u8>) -> (r: Self) {
        proof {
            lemma_le_value_bound(bytes@);
            lemma2_to64();
            lemma2_to64_rest();
        }
        let wide: u64 = le_bytes_to_u64(bytes);
        wide as u32
    }
}

impl UnsignedInteger for u64 {
    open spec fn bits_spec() -> nat {
        64
    }

    open spec fn modulus() -> int {
        0x1_0000_0000_0000_0000
    }

    open spec fn as_int(self) -> int {
        self as int
    }

    /// The modulus is the power of two of the width, which is a whole
    /// number of bytes, eight at most.
    proof fn lemma_modulus() {
        lemma2_to64();
        lemma2_to64_rest();
    }

    /// A word stands for an integer below the modulus.
    proof fn lemma_as_int_range(self) {
    }

    /// Two words that stand for the same integer are the same word.
    proof fn lemma_as_int_injective(a: Self, b: Self) {
    }

    fn zero() -> (r: Self) {
        0
    }

    fn one() -> (r: Self) {
        1
    }

    fn bits() -> (r: usize) {
        64
    }

    fn cast_from_bool(b: bool) -> (r: Self) {
        if b {
            1
        } else {
            0
        }
    }

    fn wrapping_add(self, rhs: Self) -> (r: Self) {
        self.wrapping_add(rhs)
    }

    fn wrapping_sub(self, rhs: Self) -> (r: Self) {
        self.wrapping_sub(rhs)
    }

    fn wrapping_mul(self, rhs: Self) -> (r: Self) {
        self.wrapping_mul(rhs)
    }

    fn wrapping_neg(self) -> (r: Self) {
        let zero: u64 = 0;
        zero.wrapping_sub(self)
    }

    fn shl(self, shift: usize) -> (r: Self) {
        proof {
            lemma_u64_shl_is_mul(self, shift as u64);
        }
        self << shift
    }

    fn from_le_byte_seq(bytes: &Vec<u8>) -> (r: Self) {
        proof {
            lemma_le_value_bound(bytes@);
            lemma2_to64();
            lemma2_to64_rest();
        }
        let wide: u64 = le_bytes_to_u64(bytes);
        wide as u64
    }
}

/// The words that stand for elements of the torus: those of 32 and of 64
/// bits.
pub trait UnsignedTorus: UnsignedInteger {

}

impl UnsignedTorus for u32 {

}

impl UnsignedTorus for u64 {

}

} // verus!
