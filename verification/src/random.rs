//! Uniform samples drawn from the byte stream of a generator.

use vstd::prelude::*;
use crate::csprng::RandomGenerator;
use crate::numeric::{UnsignedInteger, le_value};
use crate::negacyclic::ints;

verus! {

/// A word uniform over its whole domain: the next `bits / 8` bytes of the
/// stream, the first of them the least significant.
pub fn random_uniform<T: UnsignedInteger>(generator: &mut RandomGenerator) -> (r: T)
    requires
        old(generator).wf(),
    ensures
        final(generator).wf(),
        final(generator).key_spec() == old(generator).key_spec(),
        r.as_int() == le_value(old(generator).outputs(0, T::bits_spec() / 8)),
        forall|n: nat|
            #[trigger] final(generator).output(n) == old(generator).output(n + T::bits_spec() / 8),
{
    proof {
        T::lemma_modulus();
    }
    let width: usize = T::bits() / 8;
    let mut bytes: Vec<u8> = Vec::new();
    let mut i: usize = 0;
    while i < width
        invariant
            width == T::bits_spec() / 8,
            width <= 8,
            i <= width,
            generator.wf(),
            generator.key_spec() == old(generator).key_spec(),
            bytes@ == old(generator).outputs(0, i as nat),
            forall|n: nat| #[trigger] generator.output(n) == old(generator).output((n + i) as nat),
        decreases width - i,
    {
        let ghost previous = *generator;
        let byte = generator.generate_next();
        bytes.push(byte);
        proof {
            assert(byte == previous.output(0));
            assert(bytes@ =~= old(generator).outputs(0, (i + 1) as nat));
            assert forall|n: nat| #[trigger]
                generator.output(n) == old(generator).output((n + i + 1) as nat) by {
                assert(generator.output(n) == previous.output(n + 1));
            }
        }
        i = i + 1;
    }
    T::from_le_byte_seq(&bytes)
}

/// A uniform bit: the lowest bit of the next byte of the stream.
pub fn random_uniform_boolean(generator: &mut RandomGenerator) -> (r: bool)
    requires
        old(generator).wf(),
    ensures
        final(generator).wf(),
        final(generator).key_spec() == old(generator).key_spec(),
        r == (old(generator).output(0) % 2 == 1),
        forall|n: nat| #[trigger] final(generator).output(n) == old(generator).output(n + 1),
{
    let byte = generator.generate_next();
    byte % 2 == 1
}

/// The word that a generator yields from the byte `from` of its stream on.
pub open spec fn uniform_word(generator: RandomGenerator, from: nat, width: nat) -> int {
    le_value(generator.outputs(from, width))
}

/// The `count` words that `fill_with_random_uniform` draws from a generator
/// whose stream stands `from` bytes further on, as integers.
pub open spec fn uniform_words<T: UnsignedInteger>(
    generator: RandomGenerator,
    from: nat,
    count: nat,
) -> Seq<int> {
    Seq::new(
        count,
        |k: int|
            uniform_word(
                generator,
                (from + k * (T::bits_spec() / 8)) as nat,
                T::bits_spec() / 8,
            ),
    )
}

/// A generator that has moved `skipped` bytes on draws the words that the
/// generator it came from draws `skipped` bytes later.
pub proof fn lemma_uniform_words_shift<T: UnsignedInteger>(
    origin: RandomGenerator,
    moved: RandomGenerator,
    skipped: nat,
    from: nat,
    count: nat,
)
    requires
        forall|n: nat| #[trigger] moved.output(n) == origin.output((n + skipped) as nat),
    ensures
        uniform_words::<T>(moved, from, count) == uniform_words::<T>(
            origin,
            from + skipped,
            count,
        ),
{
    let width = T::bits_spec() / 8;
    assert forall|k: int| 0 <= k < count implies uniform_words::<T>(moved, from, count)[k]
        == uniform_words::<T>(origin, from + skipped, count)[k] by {
        let at = (from + k * width) as nat;
        assert(moved.outputs(at, width) =~= origin.outputs(
            (from + skipped + k * width) as nat,
            width,
        )) by {
            assert forall|j: int| 0 <= j < width implies moved.outputs(at, width)[j]
                == origin.outputs((from + skipped + k * width) as nat, width)[j] by {
                assert(moved.output((at + j) as nat) == origin.output(
                    ((at + j) as nat + skipped) as nat,
                ));
            }
        }
    }
    assert(uniform_words::<T>(moved, from, count) =~= uniform_words::<T>(
        origin,
        from + skipped,
        count,
    ));
}

/// Fills `out` with uniform words, in order: word `k` is made of the bytes
/// `k * width .. (k + 1) * width` of the stream, `width` being the number of
/// bytes of a word.
pub fn fill_with_random_uniform<T: UnsignedInteger>(
    out: &mut [T],
    generator: &mut RandomGenerator,
)
    requires
        old(generator).wf(),
    ensures
        final(generator).wf(),
        final(generator).key_spec() == old(generator).key_spec(),
        final(out)@.len() == old(out)@.len(),
        ints(final(out)@) == uniform_words::<T>(*old(generator), 0, old(out)@.len()),
        forall|n: nat|
            #[trigger] final(generator).output(n) == old(generator).output(
                (n + old(out)@.len() * (T::bits_spec() / 8)) as nat,
            ),
{
    let n: usize = out.len();
    let ghost width = T::bits_spec() / 8;
    let mut i: usize = 0;
    while i < n
        invariant
            out@.len() == n,
            i <= n,
            width == T::bits_spec() / 8,
            generator.wf(),
            generator.key_spec() == old(generator).key_spec(),
            forall|k: int|
                0 <= k < i ==> (#[trigger] out@[k]).as_int() == uniform_word(
                    *old(generator),
                    (k * width) as nat,
                    width,
                ),
            forall|m: nat| #[trigger] generator.output(m) == old(generator).output((m + i * width) as nat),
        decreases n - i,
    {
        let ghost previous = *generator;
        let word: T = random_uniform(generator);
        out[i] = word;
        proof {
            assert(previous.outputs(0, width) =~= old(generator).outputs((i * width) as nat, width))
                by {
                assert forall|j: int| 0 <= j < width implies previous.outputs(0, width)[j] == old(
                    generator,
                ).outputs((i * width) as nat, width)[j] by {
                    assert(previous.output(j as nat) == old(generator).output(
                        (j + i * width) as nat,
                    ));
                }
            }
            assert((i + 1) * width == i * width + width) by (nonlinear_arith);
            assert forall|m: nat| #[trigger]
                generator.output(m) == old(generator).output((m + (i + 1) * width) as nat) by {
                assert(generator.output(m) == previous.output(m + width));
            }
        }
        i = i + 1;
    }
    proof {
        assert(ints(out@) =~= uniform_words::<T>(*old(generator), 0, n as nat));
    }
}

/// `count` uniform bits, one from each of the next `count` bytes of the
/// stream.
pub fn random_uniform_boolean_vec(count: usize, generator: &mut RandomGenerator) -> (r: Vec<bool>)
    requires
        old(generator).wf(),
    ensures
        final(generator).wf(),
        final(generator).key_spec() == old(generator).key_spec(),
        r@.len() == count,
        forall|k: int|
            0 <= k < count ==> #[trigger] r@[k] == (old(generator).output(k as nat) % 2 == 1),
        forall|n: nat| #[trigger] final(generator).output(n) == old(generator).output((n + count) as nat),
{
    let mut bits: Vec<bool> = Vec::new();
    let mut i: usize = 0;
    while i < count
        invariant
            i <= count,
            bits@.len() == i,
            generator.wf(),
            generator.key_spec() == old(generator).key_spec(),
            forall|k: int|
                0 <= k < i ==> #[trigger] bits@[k] == (old(generator).output(k as nat) % 2 == 1),
            forall|m: nat| #[trigger] generator.output(m) == old(generator).output((m + i) as nat),
        decreases count - i,
    {
        let ghost previous = *generator;
        let bit = random_uniform_boolean(generator);
        bits.push(bit);
        proof {
            assert(previous.output(0) == old(generator).output((0 + i) as nat));
            assert forall|m: nat| #[trigger]
                generator.output(m) == old(generator).output((m + i + 1) as nat) by {
                assert(generator.output(m) == previous.output(m + 1));
            }
        }
        i = i + 1;
    }
    bits
}

} // verus!
