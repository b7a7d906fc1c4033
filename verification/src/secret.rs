//! Secret keys: the GLWE key, a list of binary polynomials, and the LWE key
//! that its bits flatten to.

use vstd::prelude::*;
use crate::numeric::UnsignedTorus;
use crate::csprng::RandomGenerator;
use crate::random::random_uniform_boolean_vec;
use crate::negacyclic::ints;
use crate::tensor::chunk;
use crate::polynomial::{PolynomialList, PolynomialSize};
use crate::dimensions::{GlweDimension, LweDimension};
use crate::encoding::{Plaintext, PlaintextList};
use crate::glwe::{
    GlweCiphertext, GlweList, encryption, zero_encryption, decryption, list_entry, encrypt_slice,
    encrypt_zero_slice, decrypt_slice, encrypt_list_slice, decrypt_list_slice,
};
use crate::ggsw::{
    GgswCiphertext, gadget_row, gadget_shift, valid_decomposition, trivial_entry, add_gadget,
    trivial_encrypt_zero_list_slice,
};

verus! {

/// An LWE secret key: a flat sequence of bits.
#[derive(Clone, Debug, PartialEq)]
pub struct LweSecretKey {
    tensor: Vec<bool>,
}

impl View for LweSecretKey {
    type V = Seq<bool>;

    closed spec fn view(&self) -> Seq<bool> {
        self.tensor@
    }
}

impl LweSecretKey {
    /// The key whose bits are `cont`.
    pub fn from_container(cont: Vec<bool>) -> (r: Self)
        ensures
            r@ == cont@,
    {
        LweSecretKey { tensor: cont }
    }

    /// The number of bits of the key.
    pub fn key_size(&self) -> (r: LweDimension)
        ensures
            r.0 == self@.len(),
    {
        LweDimension(self.tensor.len())
    }

    /// The bits of the key.
    pub fn as_slice(&self) -> (r: &[bool])
        ensures
            r@ == self@,
    {
        self.tensor.as_slice()
    }
}

/// A GLWE secret key: `k` binary polynomials of `N` coefficients each, one
/// after the other.
#[derive(Clone, Debug, PartialEq)]
pub struct GlweSecretKey {
    list: PolynomialList<bool>,
}

impl View for GlweSecretKey {
    type V = Seq<bool>;

    closed spec fn view(&self) -> Seq<bool> {
        self.list@
    }
}

impl GlweSecretKey {
    /// The number of coefficients of each polynomial of the key.
    pub closed spec fn size_spec(&self) -> nat {
        self.list.size_spec()
    }

    /// The key holds a whole number of polynomials.
    pub open spec fn wf(&self) -> bool {
        &&& self.size_spec() > 0
        &&& self@.len() % self.size_spec() == 0
    }

    /// The number of polynomials of the key.
    pub open spec fn key_size_spec(&self) -> nat {
        self@.len() / self.size_spec()
    }

    /// The polynomials of the key, as a list.
    pub closed spec fn list_spec(&self) -> PolynomialList<bool> {
        self.list
    }

    /// A key of `dimension` polynomials of `poly_size` coefficients, whose
    /// bits are drawn from the generator, one from each byte of its stream.
    pub fn generate(
        dimension: GlweDimension,
        poly_size: PolynomialSize,
        generator: &mut RandomGenerator,
    ) -> (r: Self)
        requires
            old(generator).wf(),
            poly_size.0 > 0,
            poly_size.0 * dimension.0 <= usize::MAX,
        ensures
            final(generator).wf(),
            final(generator).key_spec() == old(generator).key_spec(),
            r.wf(),
            r.size_spec() == poly_size.0,
            r.key_size_spec() == dimension.0,
            r@.len() == poly_size.0 * dimension.0,
            forall|i: int|
                0 <= i < r@.len() ==> #[trigger] r@[i] == (old(generator).output(i as nat) % 2
                    == 1),
            forall|n: nat|
                #[trigger] final(generator).output(n) == old(generator).output(
                    (n + poly_size.0 * dimension.0) as nat,
                ),
    {
        proof {
            vstd::arithmetic::div_mod::lemma_mod_multiples_basic(
                dimension.0 as int,
                poly_size.0 as int,
            );
            vstd::arithmetic::div_mod::lemma_div_multiples_vanish(
                dimension.0 as int,
                poly_size.0 as int,
            );
            assert(poly_size.0 * dimension.0 == dimension.0 * poly_size.0) by (nonlinear_arith);
        }
        let bits = random_uniform_boolean_vec(poly_size.0 * dimension.0, generator);
        GlweSecretKey { list: PolynomialList::from_container(bits, poly_size) }
    }

    /// The LWE key of the same bits, in the same order.
    pub fn into_lwe_secret_key(self) -> (r: LweSecretKey)
        ensures
            r@ == self@,
    {
        LweSecretKey::from_container(self.list.into_container())
    }

    /// The key whose polynomials are the successive runs of `poly_size` bits
    /// of `cont`.
    pub fn from_container(cont: Vec<bool>, poly_size: PolynomialSize) -> (r: Self)
        requires
            poly_size.0 > 0,
            cont@.len() % (poly_size.0 as nat) == 0,
        ensures
            r.wf(),
            r@ == cont@,
            r.size_spec() == poly_size.0,
    {
        GlweSecretKey { list: PolynomialList::from_container(cont, poly_size) }
    }

    /// The number of polynomials of the key: the number of mask polynomials
    /// of the ciphertexts that it encrypts.
    pub fn key_size(&self) -> (r: GlweDimension)
        requires
            self.wf(),
        ensures
            r.0 == self.key_size_spec(),
            r.0 * self.size_spec() == self@.len(),
    {
        let count = self.list.polynomial_count();
        GlweDimension(count.0)
    }

    /// The number of coefficients of each polynomial of the key.
    pub fn polynomial_size(&self) -> (r: PolynomialSize)
        ensures
            r.0 == self.size_spec(),
    {
        self.list.polynomial_size()
    }

    /// The polynomials of the key, as a list.
    pub fn as_polynomial_list(&self) -> (r: &PolynomialList<bool>)
        ensures
            *r == self.list_spec(),
            r@ == self@,
            r.size_spec() == self.size_spec(),
    {
        &self.list
    }

    /// The polynomials of the key, as a list, for writing. The key is the
    /// list as the caller leaves it.
    pub fn as_mut_polynomial_list(&mut self) -> (r: &mut PolynomialList<bool>)
        ensures
            *r == old(self).list_spec(),
            final(self).list_spec() == *final(r),
            final(self)@ == final(r)@,
            final(self).size_spec() == final(r).size_spec(),
    {
        &mut self.list
    }

    /// Encrypts the plaintexts `encoded`, read as one polynomial, into
    /// `encrypted`: the masks are drawn from the generator, and the body is
    /// `noise`, plus the products of the masks and the key, plus `encoded`.
    pub fn encrypt_glwe<T: UnsignedTorus>(
        &self,
        encrypted: &mut GlweCiphertext<T>,
        encoded: &PlaintextList<T>,
        noise: &[T],
        generator: &mut RandomGenerator,
    )
        requires
            self.wf(),
            old(encrypted).wf(),
            old(generator).wf(),
            old(encrypted).size_spec() == self.size_spec(),
            old(encrypted)@.len() == self@.len() + self.size_spec(),
            encoded@.len() == self.size_spec(),
            noise@.len() == self.size_spec(),
        ensures
            final(generator).wf(),
            final(generator).key_spec() == old(generator).key_spec(),
            final(encrypted).wf(),
            final(encrypted).size_spec() == old(encrypted).size_spec(),
            final(encrypted)@.len() == old(encrypted)@.len(),
            ints(final(encrypted)@) == encryption::<T>(
                *old(generator),
                0,
                self@,
                noise@,
                encoded@,
                self.size_spec() as int,
                self.key_size_spec() as int,
            ),
            forall|m: nat|
                #[trigger] final(generator).output(m) == old(generator).output(
                    (m + self@.len() * (T::bits_spec() / 8)) as nat,
                ),
    {
        let k = self.key_size();
        encrypt_slice(
            encrypted.as_mut_slice(),
            self.list.as_slice(),
            encoded.as_slice(),
            noise,
            k.0,
            generator,
        );
    }

    /// Encrypts zero into `encrypted`: the masks are drawn from the
    /// generator, and the body is `noise` plus the products of the masks and
    /// the key.
    pub fn encrypt_zero_glwe<T: UnsignedTorus>(
        &self,
        encrypted: &mut GlweCiphertext<T>,
        noise: &[T],
        generator: &mut RandomGenerator,
    )
        requires
            self.wf(),
            old(encrypted).wf(),
            old(generator).wf(),
            old(encrypted).size_spec() == self.size_spec(),
            old(encrypted)@.len() == self@.len() + self.size_spec(),
            noise@.len() == self.size_spec(),
        ensures
            final(generator).wf(),
            final(generator).key_spec() == old(generator).key_spec(),
            final(encrypted).wf(),
            final(encrypted).size_spec() == old(encrypted).size_spec(),
            final(encrypted)@.len() == old(encrypted)@.len(),
            ints(final(encrypted)@) == zero_encryption::<T>(
                *old(generator),
                0,
                self@,
                noise@,
                self.size_spec() as int,
                self.key_size_spec() as int,
            ),
            forall|m: nat|
                #[trigger] final(generator).output(m) == old(generator).output(
                    (m + self@.len() * (T::bits_spec() / 8)) as nat,
                ),
    {
        let k = self.key_size();
        encrypt_zero_slice(encrypted.as_mut_slice(), self.list.as_slice(), noise, k.0, generator);
    }

    /// Encrypts sublist `i` of `encoded` into ciphertext `i` of `encrypt`,
    /// with sublist `i` of `noise`, for every ciphertext of the list, in
    /// order.
    pub fn encrypt_glwe_list<T: UnsignedTorus>(
        &self,
        encrypt: &mut GlweList<T>,
        encoded: &PlaintextList<T>,
        noise: &[T],
        generator: &mut RandomGenerator,
    )
        requires
            self.wf(),
            old(encrypt).wf(),
            old(generator).wf(),
            old(encrypt).size_spec() == self.size_spec(),
            old(encrypt).glwe_size_spec() == self.key_size_spec() + 1,
            encoded@.len() == old(encrypt).count_spec() * self.size_spec(),
            noise@.len() == old(encrypt).count_spec() * self.size_spec(),
        ensures
            final(generator).wf(),
            final(generator).key_spec() == old(generator).key_spec(),
            final(encrypt).wf(),
            final(encrypt).size_spec() == old(encrypt).size_spec(),
            final(encrypt).glwe_size_spec() == old(encrypt).glwe_size_spec(),
            final(encrypt)@.len() == old(encrypt)@.len(),
            forall|i: int|
                0 <= i < old(encrypt).count_spec() ==> ints(
                    #[trigger] chunk(
                        final(encrypt)@,
                        old(encrypt).ciphertext_len_spec() as int,
                        i,
                    ),
                ) == list_entry::<T>(
                    *old(generator),
                    self@,
                    noise@,
                    Some(encoded@),
                    self.size_spec() as int,
                    self.key_size_spec() as int,
                    i,
                ),
    {
        let n = self.polynomial_size();
        let k = self.key_size();
        let count = encrypt.ciphertext_count();
        proof {
            assert((k.0 + 1) * n.0 == k.0 * n.0 + n.0) by (nonlinear_arith);
        }
        encrypt_list_slice(
            encrypt.as_mut_slice(),
            self.list.as_slice(),
            Some(encoded.as_slice()),
            noise,
            n.0,
            k.0,
            count.0,
            generator,
        );
    }

    /// Encrypts zero into every ciphertext of `encrypted`, in order, with
    /// sublist `i` of `noise` for ciphertext `i`.
    pub fn encrypt_zero_glwe_list<T: UnsignedTorus>(
        &self,
        encrypted: &mut GlweList<T>,
        noise: &[T],
        generator: &mut RandomGenerator,
    )
        requires
            self.wf(),
            old(encrypted).wf(),
            old(generator).wf(),
            old(encrypted).size_spec() == self.size_spec(),
            old(encrypted).glwe_size_spec() == self.key_size_spec() + 1,
            noise@.len() == old(encrypted).count_spec() * self.size_spec(),
        ensures
            final(generator).wf(),
            final(generator).key_spec() == old(generator).key_spec(),
            final(encrypted).wf(),
            final(encrypted).size_spec() == old(encrypted).size_spec(),
            final(encrypted).glwe_size_spec() == old(encrypted).glwe_size_spec(),
            final(encrypted)@.len() == old(encrypted)@.len(),
            forall|i: int|
                0 <= i < old(encrypted).count_spec() ==> ints(
                    #[trigger] chunk(
                        final(encrypted)@,
                        old(encrypted).ciphertext_len_spec() as int,
                        i,
                    ),
                ) == list_entry::<T>(
                    *old(generator),
                    self@,
                    noise@,
                    None,
                    self.size_spec() as int,
                    self.key_size_spec() as int,
                    i,
                ),
    {
        let n = self.polynomial_size();
        let k = self.key_size();
        let count = encrypted.ciphertext_count();
        proof {
            assert((k.0 + 1) * n.0 == k.0 * n.0 + n.0) by (nonlinear_arith);
        }
        encrypt_list_slice(
            encrypted.as_mut_slice(),
            self.list.as_slice(),
            None,
            noise,
            n.0,
            k.0,
            count.0,
            generator,
        );
    }

    /// Decrypts `encrypted` into `encoded`: the body, minus the products of
    /// the masks and the key.
    pub fn decrypt_glwe<T: UnsignedTorus>(
        &self,
        encoded: &mut PlaintextList<T>,
        encrypted: &GlweCiphertext<T>,
    )
        requires
            self.wf(),
            encrypted.wf(),
            encrypted.size_spec() == self.size_spec(),
            encrypted@.len() == self@.len() + self.size_spec(),
            old(encoded)@.len() == self.size_spec(),
        ensures
            final(encoded)@.len() == old(encoded)@.len(),
            ints(final(encoded)@) == decryption::<T>(
                encrypted@,
                self@,
                self.size_spec() as int,
                self.key_size_spec() as int,
            ),
    {
        let k = self.key_size();
        decrypt_slice(encoded.as_mut_slice(), encrypted.as_slice(), self.list.as_slice(), k.0);
    }

    /// Decrypts ciphertext `i` of `encrypted` into sublist `i` of `encoded`,
    /// for every ciphertext of the list.
    pub fn decrypt_glwe_list<T: UnsignedTorus>(
        &self,
        encoded: &mut PlaintextList<T>,
        encrypted: &GlweList<T>,
    )
        requires
            self.wf(),
            encrypted.wf(),
            encrypted.size_spec() == self.size_spec(),
            encrypted.glwe_size_spec() == self.key_size_spec() + 1,
            old(encoded)@.len() == encrypted.count_spec() * self.size_spec(),
        ensures
            final(encoded)@.len() == old(encoded)@.len(),
            forall|i: int|
                0 <= i < encrypted.count_spec() ==> ints(
                    #[trigger] chunk(final(encoded)@, self.size_spec() as int, i),
                ) == decryption::<T>(
                    chunk(encrypted@, encrypted.ciphertext_len_spec() as int, i),
                    self@,
                    self.size_spec() as int,
                    self.key_size_spec() as int,
                ),
    {
        let n = self.polynomial_size();
        let k = self.key_size();
        let count = encrypted.ciphertext_count();
        proof {
            assert((k.0 + 1) * n.0 == k.0 * n.0 + n.0) by (nonlinear_arith);
        }
        decrypt_list_slice(
            encoded.as_mut_slice(),
            encrypted.as_slice(),
            self.list.as_slice(),
            n.0,
            k.0,
            count.0,
        );
    }

    /// Encrypts the scalar `encoded` as a GGSW ciphertext: every row becomes
    /// an encryption of zero, row `i` with sublist `i` of `noise`, and the
    /// scalar scaled for the level is then added to the constant coefficient
    /// of the diagonal polynomial of each row.
    pub fn encrypt_constant_ggsw<T: UnsignedTorus>(
        &self,
        encrypted: &mut GgswCiphertext<T>,
        encoded: &Plaintext<T>,
        noise: &[T],
        generator: &mut RandomGenerator,
    )
        requires
            self.wf(),
            old(encrypted).wf(),
            old(generator).wf(),
            old(encrypted).size_spec() == self.size_spec(),
            old(encrypted).glwe_size_spec() == self.key_size_spec() + 1,
            noise@.len() == old(encrypted).level_count_spec() * old(encrypted).glwe_size_spec()
                * self.size_spec(),
            valid_decomposition::<T>(
                old(encrypted).base_log_spec() as int,
                old(encrypted).level_count_spec() as int,
            ),
        ensures
            final(generator).wf(),
            final(generator).key_spec() == old(generator).key_spec(),
            final(encrypted).wf(),
            final(encrypted).size_spec() == old(encrypted).size_spec(),
            final(encrypted).glwe_size_spec() == old(encrypted).glwe_size_spec(),
            final(encrypted).base_log_spec() == old(encrypted).base_log_spec(),
            final(encrypted)@.len() == old(encrypted)@.len(),
            forall|row: int|
                0 <= row < old(encrypted).level_count_spec() * old(encrypted).glwe_size_spec()
                    ==> ints(
                    #[trigger] chunk(final(encrypted)@, old(encrypted).row_len_spec() as int, row),
                ) == gadget_row(
                    list_entry::<T>(
                        *old(generator),
                        self@,
                        noise@,
                        None,
                        self.size_spec() as int,
                        self.key_size_spec() as int,
                        row,
                    ),
                    (row % (old(encrypted).glwe_size_spec() as int)) * self.size_spec(),
                    gadget_shift::<T>(
                        encoded.0.as_int(),
                        old(encrypted).base_log_spec() as int,
                        row / (old(encrypted).glwe_size_spec() as int),
                    ),
                    T::modulus(),
                ),
    {
        let n = self.polynomial_size();
        let k = self.key_size();
        let size = encrypted.glwe_size();
        let levels = encrypted.decomposition_level_count();
        let base_log = encrypted.decomposition_base_log();
        // Taking the length bounds the products of the dimensions below.
        let total: usize = encrypted.as_slice().len();
        proof {
            assert((k.0 + 1) * n.0 == k.0 * n.0 + n.0) by (nonlinear_arith);
            assert(levels.0 * size.0 <= (levels.0 * size.0) * (size.0 * n.0)) by (nonlinear_arith)
                requires
                    size.0 * n.0 >= 1,
            ;
        }
        let rows: usize = levels.0 * size.0;
        encrypt_list_slice(
            encrypted.as_mut_slice(),
            self.list.as_slice(),
            None,
            noise,
            n.0,
            k.0,
            rows,
            generator,
        );
        add_gadget(encrypted.as_mut_slice(), encoded.0, base_log.0, n.0, size.0, levels.0);
    }

    /// Encrypts the scalar `encoded` as a GGSW ciphertext whose masks are all
    /// zero: the body of row `i` is sublist `i` of `noise`, and the scalar
    /// scaled for the level is then added to the constant coefficient of the
    /// diagonal polynomial of each row.
    pub fn trivial_encrypt_constant_ggsw<T: UnsignedTorus>(
        &self,
        encrypted: &mut GgswCiphertext<T>,
        encoded: &Plaintext<T>,
        noise: &[T],
    )
        requires
            self.wf(),
            old(encrypted).wf(),
            old(encrypted).size_spec() == self.size_spec(),
            old(encrypted).glwe_size_spec() == self.key_size_spec() + 1,
            noise@.len() == old(encrypted).level_count_spec() * old(encrypted).glwe_size_spec()
                * self.size_spec(),
            valid_decomposition::<T>(
                old(encrypted).base_log_spec() as int,
                old(encrypted).level_count_spec() as int,
            ),
        ensures
            final(encrypted).wf(),
            final(encrypted).size_spec() == old(encrypted).size_spec(),
            final(encrypted).glwe_size_spec() == old(encrypted).glwe_size_spec(),
            final(encrypted).base_log_spec() == old(encrypted).base_log_spec(),
            final(encrypted)@.len() == old(encrypted)@.len(),
            forall|row: int|
                0 <= row < old(encrypted).level_count_spec() * old(encrypted).glwe_size_spec()
                    ==> ints(
                    #[trigger] chunk(final(encrypted)@, old(encrypted).row_len_spec() as int, row),
                ) == gadget_row(
                    trivial_entry::<T>(
                        noise@,
                        self.size_spec() as int,
                        self.key_size_spec() as int,
                        row,
                    ),
                    (row % (old(encrypted).glwe_size_spec() as int)) * self.size_spec(),
                    gadget_shift::<T>(
                        encoded.0.as_int(),
                        old(encrypted).base_log_spec() as int,
                        row / (old(encrypted).glwe_size_spec() as int),
                    ),
                    T::modulus(),
                ),
    {
        let n = self.polynomial_size();
        let k = self.key_size();
        let size = encrypted.glwe_size();
        let levels = encrypted.decomposition_level_count();
        let base_log = encrypted.decomposition_base_log();
        // Taking the length bounds the products of the dimensions below.
        let total: usize = encrypted.as_slice().len();
        proof {
            assert((k.0 + 1) * n.0 == k.0 * n.0 + n.0) by (nonlinear_arith);
            assert(levels.0 * size.0 <= (levels.0 * size.0) * (size.0 * n.0)) by (nonlinear_arith)
                requires
                    size.0 * n.0 >= 1,
            ;
        }
        let rows: usize = levels.0 * size.0;
        trivial_encrypt_zero_list_slice(encrypted.as_mut_slice(), noise, n.0, k.0, rows);
        add_gadget(encrypted.as_mut_slice(), encoded.0, base_log.0, n.0, size.0, levels.0);
    }
}

} // verus!
