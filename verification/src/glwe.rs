//! GLWE ciphertexts: the layout of mask and body, and encryption and
//! decryption on flat sequences of words.
//!
//! A ciphertext of `k` mask polynomials of `n` coefficients is a sequence of
//! `(k + 1) * n` words: the masks `A_1 .. A_k`, then the body `B`. Under the
//! binary key `s_1 .. s_k` it encrypts `M` with the noise `E` when
//! `B = E + sum_i A_i * s_i + M` modulo `X^n + 1`.

use vstd::prelude::*;
use vstd::arithmetic::div_mod::{
    lemma_add_mod_noop_right, lemma_sub_mod_noop, lemma_sub_mod_noop_right, lemma_small_mod,
};
use crate::numeric::UnsignedInteger;
use crate::csprng::RandomGenerator;
use crate::random::{uniform_words, fill_with_random_uniform, lemma_uniform_words_shift};
use crate::tensor::{chunk, chunk_mut, chunk_ref, lemma_chunk_update, filled, lemma_pieces};
use crate::polynomial::PolynomialSize;
use crate::dimensions::{GlweDimension, GlweSize, CiphertextCount};
use crate::negacyclic::{
    ints, bit_ints, add_mod, sub_mod, multisum, accumulate_binary_multisum, accumulate,
    fill_with_copy, lemma_ints_injective, lemma_ints_split,
};

verus! {

/// The body of an encryption of zero: the noise plus the products of the
/// masks and the key.
pub open spec fn zero_body<T: UnsignedInteger>(
    mask: Seq<int>,
    key: Seq<bool>,
    noise: Seq<T>,
    n: int,
    k: int,
) -> Seq<int> {
    add_mod(ints(noise), multisum(mask, bit_ints(key), n, k), T::modulus())
}

/// The encryption of zero that a generator whose stream stands `from` bytes
/// further on gives under `key` with the noise `noise`: uniform masks, then
/// the body.
pub open spec fn zero_encryption<T: UnsignedInteger>(
    generator: RandomGenerator,
    from: nat,
    key: Seq<bool>,
    noise: Seq<T>,
    n: int,
    k: int,
) -> Seq<int> {
    let mask = uniform_words::<T>(generator, from, (k * n) as nat);
    mask + zero_body::<T>(mask, key, noise, n, k)
}

/// The encryption of `message` that a generator whose stream stands `from`
/// bytes further on gives under `key` with the noise `noise`.
pub open spec fn encryption<T: UnsignedInteger>(
    generator: RandomGenerator,
    from: nat,
    key: Seq<bool>,
    noise: Seq<T>,
    message: Seq<T>,
    n: int,
    k: int,
) -> Seq<int> {
    let mask = uniform_words::<T>(generator, from, (k * n) as nat);
    mask + add_mod(zero_body::<T>(mask, key, noise, n, k), ints(message), T::modulus())
}

/// What decrypting `ciphertext` under `key` gives: the body minus the
/// products of the masks and the key.
pub open spec fn decryption<T: UnsignedInteger>(
    ciphertext: Seq<T>,
    key: Seq<bool>,
    n: int,
    k: int,
) -> Seq<int> {
    sub_mod(
        ints(ciphertext.subrange(k * n, k * n + n)),
        multisum(ints(ciphertext.subrange(0, k * n)), bit_ints(key), n, k),
        T::modulus(),
    )
}

/// Overwrites `ciphertext` with an encryption of zero under `key`: the body
/// takes the noise, the masks are drawn from the generator, and the products
/// of the masks and the key are added to the body.
pub fn encrypt_zero_slice<T: UnsignedInteger>(
    ciphertext: &mut [T],
    key: &[bool],
    noise: &[T],
    k: usize,
    generator: &mut RandomGenerator,
)
    requires
        old(generator).wf(),
        key@.len() == k * noise@.len(),
        old(ciphertext)@.len() == key@.len() + noise@.len(),
    ensures
        final(generator).wf(),
        final(generator).key_spec() == old(generator).key_spec(),
        final(ciphertext)@.len() == old(ciphertext)@.len(),
        ints(final(ciphertext)@) == zero_encryption::<T>(
            *old(generator),
            0,
            key@,
            noise@,
            noise@.len() as int,
            k as int,
        ),
        forall|m: nat|
            #[trigger] final(generator).output(m) == old(generator).output(
                (m + key@.len() * (T::bits_spec() / 8)) as nat,
            ),
{
    let (mask, body) = ciphertext.split_at_mut(key.len());
    fill_with_copy(body, noise);
    fill_with_random_uniform(mask, generator);
    accumulate_binary_multisum(body, mask, key, k, false);
    proof {
        assert(ints(mask@ + body@) =~= ints(mask@) + ints(body@));
    }
}

/// Overwrites `ciphertext` with an encryption of `encoded` under `key`.
pub fn encrypt_slice<T: UnsignedInteger>(
    ciphertext: &mut [T],
    key: &[bool],
    encoded: &[T],
    noise: &[T],
    k: usize,
    generator: &mut RandomGenerator,
)
    requires
        old(generator).wf(),
        key@.len() == k * noise@.len(),
        encoded@.len() == noise@.len(),
        old(ciphertext)@.len() == key@.len() + noise@.len(),
    ensures
        final(generator).wf(),
        final(generator).key_spec() == old(generator).key_spec(),
        final(ciphertext)@.len() == old(ciphertext)@.len(),
        ints(final(ciphertext)@) == encryption::<T>(
            *old(generator),
            0,
            key@,
            noise@,
            encoded@,
            noise@.len() as int,
            k as int,
        ),
        forall|m: nat|
            #[trigger] final(generator).output(m) == old(generator).output(
                (m + key@.len() * (T::bits_spec() / 8)) as nat,
            ),
{
    encrypt_zero_slice(ciphertext, key, noise, k, generator);
    let ghost zero = ciphertext@;
    let (mask, body) = ciphertext.split_at_mut(key.len());
    accumulate(body, encoded, false);
    proof {
        let n = noise@.len() as int;
        let words = uniform_words::<T>(*old(generator), 0, (k * n) as nat);
        lemma_ints_split(zero, words, zero_body::<T>(words, key@, noise@, n, k as int));
        assert(ints(mask@ + body@) =~= ints(mask@) + ints(body@));
    }
}

/// Overwrites `encoded` with the decryption of `ciphertext` under `key`: the
/// body, minus the products of the masks and the key.
pub fn decrypt_slice<T: UnsignedInteger>(
    encoded: &mut [T],
    ciphertext: &[T],
    key: &[bool],
    k: usize,
)
    requires
        key@.len() == k * old(encoded)@.len(),
        ciphertext@.len() == key@.len() + old(encoded)@.len(),
    ensures
        final(encoded)@.len() == old(encoded)@.len(),
        ints(final(encoded)@) == decryption::<T>(
            ciphertext@,
            key@,
            old(encoded)@.len() as int,
            k as int,
        ),
{
    let (mask, body) = ciphertext.split_at(key.len());
    fill_with_copy(encoded, body);
    accumulate_binary_multisum(encoded, mask, key, k, true);
}

/// Decrypting an encryption of `message` gives, word for word, the message
/// plus the noise that the encryption used; with a noise of zeros it gives
/// the message itself.
pub proof fn lemma_decrypt_encrypt<T: UnsignedInteger>(
    generator: RandomGenerator,
    from: nat,
    key: Seq<bool>,
    noise: Seq<T>,
    message: Seq<T>,
    n: int,
    k: int,
    ciphertext: Seq<T>,
    decrypted: Seq<T>,
)
    requires
        0 <= n,
        0 <= k,
        noise.len() == n,
        message.len() == n,
        ints(ciphertext) == encryption::<T>(generator, from, key, noise, message, n, k),
        ints(decrypted) == decryption::<T>(ciphertext, key, n, k),
    ensures
        ints(decrypted) == add_mod(ints(noise), ints(message), T::modulus()),
        (forall|i: int| 0 <= i < n ==> (#[trigger] noise[i]).as_int() == 0) ==> decrypted
            == message,
{
    let m = T::modulus();
    T::lemma_modulus();
    vstd::arithmetic::power2::lemma_pow2_pos(T::bits_spec());
    assert(0 <= k * n) by (nonlinear_arith)
        requires
            0 <= n,
            0 <= k,
    ;
    let mask = uniform_words::<T>(generator, from, (k * n) as nat);
    let sums = multisum(mask, bit_ints(key), n, k);
    let body = add_mod(zero_body::<T>(mask, key, noise, n, k), ints(message), m);
    lemma_ints_split(ciphertext, mask, body);
    assert(ciphertext.len() == k * n + n);
    assert forall|i: int| 0 <= i < n implies #[trigger] ints(decrypted)[i] == add_mod(
        ints(noise),
        ints(message),
        m,
    )[i] by {
        let e = ints(noise)[i];
        let s = sums[i];
        let msg = ints(message)[i];
        let b = body[i];
        assert(b == ((e + s) % m + msg) % m);
        assert(ints(decrypted)[i] == (b - s) % m);
        lemma_add_mod_noop_right(msg, e + s, m);
        lemma_sub_mod_noop(msg + e + s, s, m);
        lemma_sub_mod_noop_right(b, s, m);
    }
    assert(ints(decrypted) =~= add_mod(ints(noise), ints(message), m));
    if forall|i: int| 0 <= i < n ==> (#[trigger] noise[i]).as_int() == 0 {
        assert forall|i: int| 0 <= i < n implies #[trigger] ints(decrypted)[i] == ints(
            message,
        )[i] by {
            assert(noise[i].as_int() == 0);
            message[i].lemma_as_int_range();
            lemma_small_mod(message[i].as_int() as nat, m as nat);
        }
        assert(ints(decrypted) =~= ints(message));
        lemma_ints_injective(decrypted, message);
    }
}

/// Ciphertext `i` of a list that one generator encrypts in order: the
/// encryption of sublist `i` of `messages`, or of zero where there are no
/// messages, with sublist `i` of `noise`, its masks drawn after those of the
/// ciphertexts before it.
pub open spec fn list_entry<T: UnsignedInteger>(
    generator: RandomGenerator,
    key: Seq<bool>,
    noise: Seq<T>,
    messages: Option<Seq<T>>,
    n: int,
    k: int,
    i: int,
) -> Seq<int> {
    let from = (i * (k * n * (T::bits_spec() / 8))) as nat;
    match messages {
        Some(m) => encryption::<T>(generator, from, key, chunk(noise, n, i), chunk(m, n, i), n, k),
        None => zero_encryption::<T>(generator, from, key, chunk(noise, n, i), n, k),
    }
}

/// Overwrites each of the `count` ciphertexts of the flat `list` with the
/// encryption of the sublist of `encoded` of the same index, or of zero where
/// `encoded` is `None`, using the sublist of `noise` of the same index.
pub fn encrypt_list_slice<T: UnsignedInteger>(
    list: &mut [T],
    key: &[bool],
    encoded: Option<&[T]>,
    noise: &[T],
    n: usize,
    k: usize,
    count: usize,
    generator: &mut RandomGenerator,
)
    requires
        old(generator).wf(),
        key@.len() == k * n,
        noise@.len() == count * n,
        encoded is Some ==> encoded->0@.len() == count * n,
        old(list)@.len() == count * (k * n + n),
    ensures
        final(generator).wf(),
        final(generator).key_spec() == old(generator).key_spec(),
        final(list)@.len() == old(list)@.len(),
        forall|i: int|
            0 <= i < count ==> ints(#[trigger] chunk(final(list)@, k * n + n, i)) == list_entry::<
                T,
            >(
                *old(generator),
                key@,
                noise@,
                match encoded {
                    Some(e) => Some(e@),
                    None => None,
                },
                n as int,
                k as int,
                i,
            ),
        forall|m: nat|
            #[trigger] final(generator).output(m) == old(generator).output(
                (m + count * (k * n * (T::bits_spec() / 8))) as nat,
            ),
{
    if count == 0 {
        return ;
    }
    // Taking the length bounds the products of the dimensions below.
    let total: usize = list.len();
    proof {
        assert(k * n + n <= count * (k * n + n)) by (nonlinear_arith)
            requires
                count >= 1,
        ;
    }
    let size: usize = key.len() + n;
    let ghost width = T::bits_spec() / 8;
    let ghost stride = k * n * width;
    let ghost messages: Option<Seq<T>> = match encoded {
        Some(e) => Some(e@),
        None => None,
    };
    let mut i: usize = 0;
    while i < count
        invariant
            i <= count,
            generator.wf(),
            generator.key_spec() == old(generator).key_spec(),
            size == k * n + n,
            key@.len() == k * n,
            noise@.len() == count * n,
            encoded is Some ==> encoded->0@.len() == count * n,
            list@.len() == count * size,
            width == T::bits_spec() / 8,
            stride == k * n * width,
            messages == match encoded {
                Some(e) => Some(e@),
                None => None::<Seq<T>>,
            },
            forall|j: int|
                0 <= j < i ==> ints(#[trigger] chunk(list@, size as int, j)) == list_entry::<T>(
                    *old(generator),
                    key@,
                    noise@,
                    messages,
                    n as int,
                    k as int,
                    j,
                ),
            forall|m: nat|
                #[trigger] generator.output(m) == old(generator).output((m + i * stride) as nat),
        decreases count - i,
    {
        let ghost before = list@;
        let ghost previous = *generator;
        let current = chunk_mut(list, size, count, i);
        let fresh = chunk_ref(noise, n, count, i);
        match encoded {
            Some(e) => {
                let message = chunk_ref(e, n, count, i);
                encrypt_slice(current, key, message, fresh, k, generator);
            },
            None => {
                encrypt_zero_slice(current, key, fresh, k, generator);
            },
        }
        proof {
            lemma_chunk_update(before, list@, current@, size as int, count as int, i as int);
            lemma_uniform_words_shift::<T>(
                *old(generator),
                previous,
                (i * stride) as nat,
                0,
                (k * n) as nat,
            );
            assert(i * (k * n * width) == i * stride);
            assert((i + 1) * stride == i * stride + k * n * width) by (nonlinear_arith)
                requires
                    stride == k * n * width,
            ;
            assert(ints(chunk(list@, size as int, i as int)) == list_entry::<T>(
                *old(generator),
                key@,
                noise@,
                messages,
                n as int,
                k as int,
                i as int,
            ));
            assert forall|m: nat| #[trigger]
                generator.output(m) == old(generator).output((m + (i + 1) * stride) as nat) by {
                assert(generator.output(m) == previous.output((m + k * n * width) as nat));
            }
        }
        i = i + 1;
    }
}

/// Overwrites sublist `i` of `encoded` with the decryption of ciphertext `i`
/// of the flat `list`, for each of its `count` ciphertexts.
pub fn decrypt_list_slice<T: UnsignedInteger>(
    encoded: &mut [T],
    list: &[T],
    key: &[bool],
    n: usize,
    k: usize,
    count: usize,
)
    requires
        key@.len() == k * n,
        old(encoded)@.len() == count * n,
        list@.len() == count * (k * n + n),
    ensures
        final(encoded)@.len() == old(encoded)@.len(),
        forall|i: int|
            0 <= i < count ==> ints(#[trigger] chunk(final(encoded)@, n as int, i)) == decryption::<
                T,
            >(chunk(list@, k * n + n, i), key@, n as int, k as int),
{
    if count == 0 {
        return ;
    }
    // Taking the length bounds the products of the dimensions below.
    let total: usize = list.len();
    proof {
        assert(k * n + n <= count * (k * n + n)) by (nonlinear_arith)
            requires
                count >= 1,
        ;
    }
    let size: usize = key.len() + n;
    let mut i: usize = 0;
    while i < count
        invariant
            i <= count,
            size == k * n + n,
            key@.len() == k * n,
            encoded@.len() == count * n,
            list@.len() == count * size,
            forall|j: int|
                0 <= j < i ==> ints(#[trigger] chunk(encoded@, n as int, j)) == decryption::<T>(
                    chunk(list@, size as int, j),
                    key@,
                    n as int,
                    k as int,
                ),
        decreases count - i,
    {
        let ghost before = encoded@;
        let current = chunk_mut(encoded, n, count, i);
        let ciphertext = chunk_ref(list, size, count, i);
        decrypt_slice(current, ciphertext, key, k);
        proof {
            lemma_chunk_update(before, encoded@, current@, n as int, count as int, i as int);
        }
        i = i + 1;
    }
}

/// Decrypting an encryption of zero gives, word for word, the noise that
/// the encryption used.
pub proof fn lemma_decrypt_encrypt_zero<T: UnsignedInteger>(
    generator: RandomGenerator,
    from: nat,
    key: Seq<bool>,
    noise: Seq<T>,
    n: int,
    k: int,
    ciphertext: Seq<T>,
    decrypted: Seq<T>,
)
    requires
        0 <= n,
        0 <= k,
        noise.len() == n,
        ints(ciphertext) == zero_encryption::<T>(generator, from, key, noise, n, k),
        ints(decrypted) == decryption::<T>(ciphertext, key, n, k),
    ensures
        decrypted == noise,
{
    let m = T::modulus();
    T::lemma_modulus();
    vstd::arithmetic::power2::lemma_pow2_pos(T::bits_spec());
    assert(0 <= k * n) by (nonlinear_arith)
        requires
            0 <= n,
            0 <= k,
    ;
    let mask = uniform_words::<T>(generator, from, (k * n) as nat);
    let sums = multisum(mask, bit_ints(key), n, k);
    let body = zero_body::<T>(mask, key, noise, n, k);
    lemma_ints_split(ciphertext, mask, body);
    assert(ciphertext.len() == k * n + n);
    assert forall|i: int| 0 <= i < n implies #[trigger] ints(decrypted)[i] == ints(noise)[i] by {
        let e = ints(noise)[i];
        let s = sums[i];
        assert(body[i] == (e + s) % m);
        assert(ints(decrypted)[i] == (body[i] - s) % m);
        lemma_sub_mod_noop(e + s, s, m);
        lemma_sub_mod_noop_right(body[i], s, m);
        noise[i].lemma_as_int_range();
        lemma_small_mod(e as nat, m as nat);
    }
    assert(ints(decrypted) =~= ints(noise));
    lemma_ints_injective(decrypted, noise);
}

/// Decrypting a list of encryptions gives, word for word, the plaintexts
/// plus the noise that the encryptions used, whatever the key and the masks.
pub proof fn lemma_decrypt_encrypt_list<T: UnsignedInteger>(
    generator: RandomGenerator,
    key: Seq<bool>,
    noise: Seq<T>,
    messages: Seq<T>,
    n: int,
    k: int,
    count: int,
    list: Seq<T>,
    decrypted: Seq<T>,
)
    requires
        0 < n,
        0 <= k,
        0 <= count,
        noise.len() == count * n,
        messages.len() == count * n,
        decrypted.len() == count * n,
        forall|i: int|
            0 <= i < count ==> ints(#[trigger] chunk(list, k * n + n, i)) == list_entry::<T>(
                generator,
                key,
                noise,
                Some(messages),
                n,
                k,
                i,
            ),
        forall|i: int|
            0 <= i < count ==> ints(#[trigger] chunk(decrypted, n, i)) == decryption::<T>(
                chunk(list, k * n + n, i),
                key,
                n,
                k,
            ),
    ensures
        ints(decrypted) == add_mod(ints(noise), ints(messages), T::modulus()),
{
    let m = T::modulus();
    assert forall|p: int| 0 <= p < count * n implies #[trigger] ints(decrypted)[p] == add_mod(
        ints(noise),
        ints(messages),
        m,
    )[p] by {
        let i = p / n;
        let j = p % n;
        vstd::arithmetic::div_mod::lemma_fundamental_div_mod(p, n);
        assert(p == i * n + j) by (nonlinear_arith)
            requires
                p == n * i + j,
        ;
        assert(0 <= i < count) by (nonlinear_arith)
            requires
                p == i * n + j,
                0 <= j < n,
                0 <= p < count * n,
        ;
        crate::tensor::lemma_chunk_bounds(n, count, i);
        let from = (i * (k * n * (T::bits_spec() / 8))) as nat;
        assert(0 <= i * (k * n * (T::bits_spec() / 8))) by (nonlinear_arith)
            requires
                0 <= i,
                0 <= k,
                0 < n,
                0 <= T::bits_spec() / 8,
        ;
        assert(chunk(list, k * n + n, i) == chunk(list, k * n + n, i));
        assert(chunk(decrypted, n, i) == chunk(decrypted, n, i));
        lemma_decrypt_encrypt::<T>(
            generator,
            from,
            key,
            chunk(noise, n, i),
            chunk(messages, n, i),
            n,
            k,
            chunk(list, k * n + n, i),
            chunk(decrypted, n, i),
        );
        assert(ints(chunk(decrypted, n, i))[j] == ints(decrypted)[p]);
        assert(ints(chunk(noise, n, i))[j] == ints(noise)[p]);
        assert(ints(chunk(messages, n, i))[j] == ints(messages)[p]);
        assert(ints(chunk(decrypted, n, i))[j] == add_mod(
            ints(chunk(noise, n, i)),
            ints(chunk(messages, n, i)),
            m,
        )[j]);
    }
    assert(ints(decrypted) =~= add_mod(ints(noise), ints(messages), m));
}

/// A GLWE ciphertext: `k` mask polynomials followed by the body polynomial,
/// each of the same number of coefficients, in one flat sequence.
#[derive(Clone, Debug, PartialEq)]
pub struct GlweCiphertext<T> {
    tensor: Vec<T>,
    poly_size: PolynomialSize,
}

impl<T> View for GlweCiphertext<T> {
    type V = Seq<T>;

    closed spec fn view(&self) -> Seq<T> {
        self.tensor@
    }
}

impl<T: Copy> GlweCiphertext<T> {
    /// The number of coefficients of each polynomial.
    pub closed spec fn size_spec(&self) -> nat {
        self.poly_size.0 as nat
    }

    /// The sequence holds a whole number of polynomials, the body among them.
    pub open spec fn wf(&self) -> bool {
        &&& self.size_spec() > 0
        &&& self@.len() % self.size_spec() == 0
        &&& self@.len() >= self.size_spec()
    }

    /// The number of mask polynomials.
    pub open spec fn mask_count_spec(&self) -> nat {
        (self@.len() / self.size_spec() - 1) as nat
    }

    /// A ciphertext of `size` polynomials of `poly_size` coefficients, all
    /// equal to `value`.
    pub fn allocate(value: T, poly_size: PolynomialSize, size: GlweSize) -> (r: Self)
        requires
            poly_size.0 > 0,
            size.0 > 0,
            size.0 * poly_size.0 <= usize::MAX,
        ensures
            r.wf(),
            r.size_spec() == poly_size.0,
            r@ == Seq::new((size.0 * poly_size.0) as nat, |i: int| value),
            r.mask_count_spec() == size.0 - 1,
    {
        proof {
            vstd::arithmetic::div_mod::lemma_mod_multiples_basic(size.0 as int, poly_size.0 as int);
            vstd::arithmetic::div_mod::lemma_div_multiples_vanish(
                size.0 as int,
                poly_size.0 as int,
            );
            assert(size.0 * poly_size.0 >= poly_size.0) by (nonlinear_arith)
                requires
                    size.0 > 0,
            ;
            assert(size.0 * poly_size.0 == poly_size.0 * size.0) by (nonlinear_arith);
        }
        GlweCiphertext { tensor: filled(value, size.0 * poly_size.0), poly_size }
    }

    /// The ciphertext whose polynomials are the successive runs of
    /// `poly_size` elements of `cont`, the last of them the body.
    pub fn from_container(cont: Vec<T>, poly_size: PolynomialSize) -> (r: Self)
        requires
            poly_size.0 > 0,
            cont@.len() % (poly_size.0 as nat) == 0,
            cont@.len() >= poly_size.0,
        ensures
            r.wf(),
            r@ == cont@,
            r.size_spec() == poly_size.0,
    {
        GlweCiphertext { tensor: cont, poly_size }
    }

    /// Gives the flat sequence back.
    pub fn into_container(self) -> (r: Vec<T>)
        ensures
            r@ == self@,
    {
        self.tensor
    }

    /// The number of coefficients of each polynomial.
    pub fn polynomial_size(&self) -> (r: PolynomialSize)
        ensures
            r.0 == self.size_spec(),
    {
        self.poly_size
    }

    /// The number of polynomials, mask and body.
    pub fn size(&self) -> (r: GlweSize)
        requires
            self.wf(),
        ensures
            r.0 == self.mask_count_spec() + 1,
            r.0 * self.size_spec() == self@.len(),
    {
        proof {
            lemma_pieces(self@.len() as int, self.size_spec() as int);
            assert(self@.len() / self.size_spec() >= 1) by {
                vstd::arithmetic::div_mod::lemma_div_is_ordered(
                    self.size_spec() as int,
                    self@.len() as int,
                    self.size_spec() as int,
                );
                vstd::arithmetic::div_mod::lemma_div_basics(self.size_spec() as int);
            }
        }
        GlweSize(self.tensor.len() / self.poly_size.0)
    }

    /// The number of mask polynomials.
    pub fn mask_size(&self) -> (r: GlweDimension)
        requires
            self.wf(),
        ensures
            r.0 == self.mask_count_spec(),
            r.0 * self.size_spec() + self.size_spec() == self@.len(),
    {
        let size = self.size();
        proof {
            assert((size.0 - 1) * self.size_spec() + self.size_spec() == size.0 * self.size_spec())
                by (nonlinear_arith);
        }
        GlweDimension(size.0 - 1)
    }

    /// The flat sequence: masks, then body.
    pub fn as_slice(&self) -> (r: &[T])
        ensures
            r@ == self@,
    {
        self.tensor.as_slice()
    }

    /// The flat sequence, for writing.
    pub fn as_mut_slice(&mut self) -> (r: &mut [T])
        ensures
            r@ == old(self)@,
            final(self)@ == final(r)@,
            final(self).size_spec() == old(self).size_spec(),
    {
        self.tensor.as_mut_slice()
    }

    /// The body polynomial: the last `N` words.
    pub fn get_body(&self) -> (r: &[T])
        requires
            self.wf(),
        ensures
            r@ == self@.subrange(self@.len() - self.size_spec(), self@.len() as int),
    {
        let total: usize = self.tensor.len();
        vstd::slice::slice_subrange(self.tensor.as_slice(), total - self.poly_size.0, total)
    }

    /// The mask polynomials: all words before the body.
    pub fn get_mask(&self) -> (r: &[T])
        requires
            self.wf(),
        ensures
            r@ == self@.subrange(0, self@.len() - self.size_spec()),
    {
        let total: usize = self.tensor.len();
        vstd::slice::slice_subrange(self.tensor.as_slice(), 0, total - self.poly_size.0)
    }
}

/// A list of GLWE ciphertexts of one shape, one after the other in one flat
/// sequence.
#[derive(Clone, Debug, PartialEq)]
pub struct GlweList<T> {
    tensor: Vec<T>,
    rlwe_size: GlweSize,
    poly_size: PolynomialSize,
}

impl<T> View for GlweList<T> {
    type V = Seq<T>;

    closed spec fn view(&self) -> Seq<T> {
        self.tensor@
    }
}

impl<T: Copy> GlweList<T> {
    /// The number of coefficients of each polynomial.
    pub closed spec fn size_spec(&self) -> nat {
        self.poly_size.0 as nat
    }

    /// The number of polynomials of each ciphertext, mask and body.
    pub closed spec fn glwe_size_spec(&self) -> nat {
        self.rlwe_size.0 as nat
    }

    /// The number of words of each ciphertext.
    pub open spec fn ciphertext_len_spec(&self) -> nat {
        self.glwe_size_spec() * self.size_spec()
    }

    /// The sequence holds a whole number of ciphertexts.
    pub open spec fn wf(&self) -> bool {
        &&& self.size_spec() > 0
        &&& self.glwe_size_spec() > 0
        &&& self.ciphertext_len_spec() <= usize::MAX
        &&& self@.len() % self.ciphertext_len_spec() == 0
    }

    /// The number of ciphertexts.
    pub open spec fn count_spec(&self) -> nat {
        self@.len() / self.ciphertext_len_spec()
    }

    /// A list of `ciphertext_number` ciphertexts of `dimension` masks and a
    /// body of `poly_size` coefficients each, all words equal to `value`.
    pub fn allocate(
        value: T,
        poly_size: PolynomialSize,
        dimension: GlweDimension,
        ciphertext_number: CiphertextCount,
    ) -> (r: Self)
        requires
            poly_size.0 > 0,
            ciphertext_number.0 * ((dimension.0 + 1) * poly_size.0) <= usize::MAX,
            (dimension.0 + 1) * poly_size.0 <= usize::MAX,
        ensures
            r.wf(),
            r.size_spec() == poly_size.0,
            r.glwe_size_spec() == dimension.0 + 1,
            r.count_spec() == ciphertext_number.0,
            r@ == Seq::new(
                (ciphertext_number.0 * ((dimension.0 + 1) * poly_size.0)) as nat,
                |i: int| value,
            ),
    {
        proof {
            assert((dimension.0 + 1) * poly_size.0 >= dimension.0 + 1) by (nonlinear_arith)
                requires
                    poly_size.0 > 0,
            ;
        }
        let size: usize = dimension.0 + 1;
        let each: usize = size * poly_size.0;
        proof {
            assert(each > 0) by (nonlinear_arith)
                requires
                    each == size * poly_size.0,
                    size > 0,
                    poly_size.0 > 0,
            ;
            vstd::arithmetic::div_mod::lemma_mod_multiples_basic(
                ciphertext_number.0 as int,
                each as int,
            );
            vstd::arithmetic::div_mod::lemma_div_multiples_vanish(
                ciphertext_number.0 as int,
                each as int,
            );
            assert(ciphertext_number.0 * each == each * ciphertext_number.0) by (nonlinear_arith);
        }
        GlweList {
            tensor: filled(value, ciphertext_number.0 * each),
            rlwe_size: GlweSize(size),
            poly_size,
        }
    }

    /// The list whose ciphertexts are the successive runs of
    /// `(dimension + 1) * poly_size` elements of `cont`.
    pub fn from_container(cont: Vec<T>, dimension: GlweDimension, poly_size: PolynomialSize) -> (r:
        Self)
        requires
            poly_size.0 > 0,
            (dimension.0 + 1) * poly_size.0 <= usize::MAX,
            cont@.len() % (((dimension.0 + 1) * poly_size.0) as nat) == 0,
        ensures
            r.wf(),
            r@ == cont@,
            r.size_spec() == poly_size.0,
            r.glwe_size_spec() == dimension.0 + 1,
    {
        proof {
            assert((dimension.0 + 1) * poly_size.0 >= dimension.0 + 1) by (nonlinear_arith)
                requires
                    poly_size.0 > 0,
            ;
        }
        GlweList { tensor: cont, rlwe_size: GlweSize(dimension.0 + 1), poly_size }
    }

    /// Gives the flat sequence back.
    pub fn into_container(self) -> (r: Vec<T>)
        ensures
            r@ == self@,
    {
        self.tensor
    }

    /// The number of ciphertexts.
    pub fn ciphertext_count(&self) -> (r: CiphertextCount)
        requires
            self.wf(),
        ensures
            r.0 == self.count_spec(),
            r.0 * self.ciphertext_len_spec() == self@.len(),
    {
        proof {
            assert(self.ciphertext_len_spec() > 0) by (nonlinear_arith)
                requires
                    self.ciphertext_len_spec() == self.glwe_size_spec() * self.size_spec(),
                    self.glwe_size_spec() > 0,
                    self.size_spec() > 0,
            ;
            lemma_pieces(self@.len() as int, self.ciphertext_len_spec() as int);
        }
        CiphertextCount(self.tensor.len() / (self.rlwe_size.0 * self.poly_size.0))
    }

    /// The number of coefficients of each polynomial.
    pub fn polynomial_size(&self) -> (r: PolynomialSize)
        ensures
            r.0 == self.size_spec(),
    {
        self.poly_size
    }

    /// The number of polynomials of each ciphertext.
    pub fn glwe_size(&self) -> (r: GlweSize)
        ensures
            r.0 == self.glwe_size_spec(),
    {
        self.rlwe_size
    }

    /// The number of mask polynomials of each ciphertext.
    pub fn glwe_dimension(&self) -> (r: GlweDimension)
        requires
            self.wf(),
        ensures
            r.0 == self.glwe_size_spec() - 1,
    {
        GlweDimension(self.rlwe_size.0 - 1)
    }

    /// The flat sequence of all ciphertexts.
    pub fn as_slice(&self) -> (r: &[T])
        ensures
            r@ == self@,
    {
        self.tensor.as_slice()
    }

    /// The flat sequence of all ciphertexts, for writing.
    pub fn as_mut_slice(&mut self) -> (r: &mut [T])
        ensures
            r@ == old(self)@,
            final(self)@ == final(r)@,
            final(self).size_spec() == old(self).size_spec(),
            final(self).glwe_size_spec() == old(self).glwe_size_spec(),
    {
        self.tensor.as_mut_slice()
    }
}

} // verus!
