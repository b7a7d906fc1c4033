//! A reproducible byte stream: AES-128 in counter mode.
//!
//! The stream of a key and a start counter is the concatenation of the AES
//! encryptions, under the key, of the counters `start`, `start + 1`, ...
//! (modulo `2^128`), each written as sixteen bytes, least significant first.

use vstd::prelude::*;
use aes_soft::cipher::generic_array::GenericArray;
use aes_soft::cipher::{BlockCipher, NewBlockCipher};
use aes_soft::Aes128;

verus! {

/// The AES-128 encryption of the sixteen-byte `block` under the sixteen-byte
/// `key`, as FIPS 197 defines it.
pub uninterp spec fn aes128_encrypt_block(key: Seq<u8>, block: Seq<u8>) -> Seq<u8>;

/// `aes_soft::Aes128::new` followed by `encrypt_block`: builds the cipher of
/// `key` and encrypts one block with it. Both calls take arrays of exactly
/// sixteen bytes, which the precondition grants; the result is the sixteen
/// bytes that AES-128 gives for that key and block.
#[allow(deprecated)]
#[verifier::external_body]
fn aes128_encrypt(key: &[u8], block: &[u8]) -> (out: Vec<u8>)
    requires
        key@.len() == 16,
        block@.len() == 16,
    ensures
        out@ == aes128_encrypt_block(key@, block@),
        out@.len() == 16,
{
    let cipher = Aes128::new(GenericArray::from_slice(key));
    let mut buffer = GenericArray::clone_from_slice(block);
    cipher.encrypt_block(&mut buffer);
    buffer.to_vec()
}

/// The `n` low base-256 digits of `x`, least significant first.
pub open spec fn le_bytes(x: nat, n: nat) -> Seq<u8>
    decreases n,
{
    if n == 0 {
        Seq::empty()
    } else {
        seq![(x % 256) as u8] + le_bytes(x / 256, (n - 1) as nat)
    }
}

/// The sixteen bytes of `x`, least significant first.
pub fn u128_to_le_bytes(x: u128) -> (r: Vec<u8>)
    ensures
        r@ == le_bytes(x as nat, 16),
        r@.len() == 16,
{
    let mut bytes: Vec<u8> = Vec::new();
    let mut rest: u128 = x;
    let mut i: usize = 0;
    while i < 16
        invariant
            i <= 16,
            bytes@.len() == i,
            bytes@ + le_bytes(rest as nat, (16 - i) as nat) == le_bytes(x as nat, 16),
        decreases 16 - i,
    {
        let ghost before = bytes@;
        bytes.push((rest % 256) as u8);
        proof {
            let tail = le_bytes((rest / 256) as nat, (16 - i - 1) as nat);
            assert(le_bytes(rest as nat, (16 - i) as nat) == seq![(rest % 256) as u8] + tail);
            assert(bytes@ + tail =~= before + (seq![(rest % 256) as u8] + tail));
        }
        rest = rest / 256;
        i = i + 1;
    }
    assert(bytes@ + le_bytes(rest as nat, 0) =~= bytes@);
    bytes
}

/// The counter `k` steps after `c`, modulo `2^128`.
pub open spec fn counter_add(c: u128, k: nat) -> u128 {
    ((c + k) % 0x1_0000_0000_0000_0000_0000_0000_0000_0000int) as u128
}

/// The encryption under `key` of the counter `c`.
pub open spec fn counter_block(key: Seq<u8>, c: u128) -> Seq<u8> {
    aes128_encrypt_block(key, le_bytes(c as nat, 16))
}

/// Byte `n` of the stream of `key` that starts at the counter `start`.
pub open spec fn stream_byte(key: Seq<u8>, start: u128, n: nat) -> u8 {
    counter_block(key, counter_add(start, n / 16))[(n % 16) as int]
}

/// Byte `j` of the concatenated encryptions of `messages` under `key`.
pub open spec fn many_byte(key: Seq<u8>, messages: Seq<u128>, j: int) -> u8 {
    counter_block(key, messages[j / 16])[j % 16]
}

/// Appends to `out` the encryption of `message` under `key`.
fn push_encrypted(out: &mut Vec<u8>, message: u128, key: &[u8])
    requires
        key@.len() == 16,
    ensures
        final(out)@ == old(out)@ + counter_block(key@, message),
        final(out)@.len() == old(out)@.len() + 16,
{
    let bytes = u128_to_le_bytes(message);
    let mut block = aes128_encrypt(key, bytes.as_slice());
    out.append(&mut block);
}

/// Encrypts eight messages under `key` and concatenates the eight blocks, in
/// the order of the arguments.
pub fn aes_encrypt_many(
    message_1: u128,
    message_2: u128,
    message_3: u128,
    message_4: u128,
    message_5: u128,
    message_6: u128,
    message_7: u128,
    message_8: u128,
    key: &[u8],
) -> (r: Vec<u8>)
    requires
        key@.len() == 16,
    ensures
        r@.len() == 128,
        forall|j: int|
            0 <= j < 128 ==> #[trigger] r@[j] == many_byte(
                key@,
                seq![
                    message_1,
                    message_2,
                    message_3,
                    message_4,
                    message_5,
                    message_6,
                    message_7,
                    message_8,
                ],
                j,
            ),
{
    let mut out: Vec<u8> = Vec::new();
    push_encrypted(&mut out, message_1, key);
    push_encrypted(&mut out, message_2, key);
    push_encrypted(&mut out, message_3, key);
    push_encrypted(&mut out, message_4, key);
    push_encrypted(&mut out, message_5, key);
    push_encrypted(&mut out, message_6, key);
    push_encrypted(&mut out, message_7, key);
    push_encrypted(&mut out, message_8, key);
    out
}

/// Moving the start of a stream eight counters on skips 128 bytes.
proof fn lemma_stream_shift(key: Seq<u8>, start: u128, n: nat)
    ensures
        stream_byte(key, counter_add(start, 8), n) == stream_byte(key, start, n + 128),
{
    assert((n + 128) / 16 == n / 16 + 8);
    assert((n + 128) % 16 == n % 16);
    assert(counter_add(counter_add(start, 8), n / 16) == counter_add(start, (n + 128) / 16));
}

/// Going back eight counters undoes going eight counters on.
proof fn lemma_counter_back(c: u128)
    ensures
        counter_add(
            counter_add(c, 8),
            (0x1_0000_0000_0000_0000_0000_0000_0000_0000int - 8) as nat,
        ) == c,
{
}

/// The eight blocks of a refill from the counter `c` are the next 128 bytes
/// of the stream that starts at `c`.
proof fn lemma_refill(key: Seq<u8>, c: u128, refill: Seq<u8>)
    requires
        refill.len() == 128,
        forall|j: int|
            0 <= j < 128 ==> #[trigger] refill[j] == many_byte(
                key,
                seq![
                    c,
                    vstd::wrapping::u128_specs::wrapping_add(c, 1),
                    vstd::wrapping::u128_specs::wrapping_add(c, 2),
                    vstd::wrapping::u128_specs::wrapping_add(c, 3),
                    vstd::wrapping::u128_specs::wrapping_add(c, 4),
                    vstd::wrapping::u128_specs::wrapping_add(c, 5),
                    vstd::wrapping::u128_specs::wrapping_add(c, 6),
                    vstd::wrapping::u128_specs::wrapping_add(c, 7),
                ],
                j,
            ),
    ensures
        forall|j: int| 0 <= j < 128 ==> #[trigger] refill[j] == stream_byte(key, c, j as nat),
{
    let messages = seq![
        c,
        vstd::wrapping::u128_specs::wrapping_add(c, 1),
        vstd::wrapping::u128_specs::wrapping_add(c, 2),
        vstd::wrapping::u128_specs::wrapping_add(c, 3),
        vstd::wrapping::u128_specs::wrapping_add(c, 4),
        vstd::wrapping::u128_specs::wrapping_add(c, 5),
        vstd::wrapping::u128_specs::wrapping_add(c, 6),
        vstd::wrapping::u128_specs::wrapping_add(c, 7),
    ];
    assert forall|i: int| 0 <= i < 8 implies #[trigger] messages[i] == counter_add(c, i as nat) by {
    }
    assert forall|j: int| 0 <= j < 128 implies #[trigger] refill[j] == stream_byte(
        key,
        c,
        j as nat,
    ) by {
        assert(refill[j] == many_byte(key, messages, j));
        assert(0 <= j / 16 < 8);
        assert(messages[j / 16] == counter_add(c, (j / 16) as nat));
    }
}

/// One byte further in a stream: the same group of 128 bytes, or the start
/// of the next one.
proof fn lemma_output_step(key: Seq<u8>, base: u128, offset: nat, next_base: u128, next_offset: nat)
    requires
        offset < 128,
        offset + 1 < 128 ==> next_base == base && next_offset == offset + 1,
        offset + 1 >= 128 ==> next_base == counter_add(base, 8) && next_offset == 0,
    ensures
        forall|n: nat|
            #[trigger] stream_byte(key, next_base, next_offset + n) == stream_byte(
                key,
                base,
                offset + n + 1,
            ),
{
    assert forall|n: nat| #[trigger]
        stream_byte(key, next_base, next_offset + n) == stream_byte(key, base, offset + n + 1) by {
        if offset + 1 >= 128 {
            lemma_stream_shift(key, base, n);
        }
    }
}

/// The pseudo-random byte generator: a key, a counter, and a buffer of the
/// 128 bytes that the last refill produced.
pub struct RandomGenerator {
    // The counter that the next refill starts from.
    state: u128,
    // The bytes of the last refill.
    generated: Vec<u8>,
    // The index in the buffer of the last byte that was handed out.
    generated_idx: usize,
    // The AES key, sixteen bytes.
    key: Vec<u8>,
}

impl RandomGenerator {
    /// The key of the stream.
    pub closed spec fn key_spec(&self) -> Seq<u8> {
        self.key@
    }

    /// The counter at which the 128-byte group of the next byte starts.
    pub closed spec fn base_spec(&self) -> u128 {
        if self.generated_idx < 127 {
            counter_add(self.state, (0x1_0000_0000_0000_0000_0000_0000_0000_0000int - 8) as nat)
        } else {
            self.state
        }
    }

    /// The place of the next byte within its 128-byte group.
    pub closed spec fn offset_spec(&self) -> nat {
        if self.generated_idx < 127 {
            (self.generated_idx + 1) as nat
        } else {
            0
        }
    }

    /// The buffer holds the bytes of the stream that it stands for.
    pub closed spec fn wf(&self) -> bool {
        &&& self.key@.len() == 16
        &&& self.generated@.len() == 128
        &&& self.generated_idx <= 127
        &&& self.generated_idx < 127 ==> forall|j: int|
            0 <= j < 128 ==> #[trigger] self.generated@[j] == stream_byte(
                self.key@,
                self.base_spec(),
                j as nat,
            )
    }

    /// The byte that the `n`-th call of `generate_next` from now returns,
    /// counting from 0.
    pub open spec fn output(&self, n: nat) -> u8 {
        stream_byte(self.key_spec(), self.base_spec(), self.offset_spec() + n)
    }

    /// The generator at the start of the stream of the key whose bytes, least
    /// significant first, are those of `key`, and of the counter `state`.
    pub fn new(key: u128, state: u128) -> (r: RandomGenerator)
        ensures
            r.wf(),
            r.key_spec() == le_bytes(key as nat, 16),
            r.base_spec() == state,
            r.offset_spec() == 0,
            forall|n: nat| #[trigger] r.output(n) == stream_byte(le_bytes(key as nat, 16), state, n),
    {
        let key_bytes = u128_to_le_bytes(key);
        let mut generated: Vec<u8> = Vec::new();
        let mut i: usize = 0;
        while i < 128
            invariant
                i <= 128,
                generated@.len() == i,
            decreases 128 - i,
        {
            generated.push(0u8);
            i = i + 1;
        }
        RandomGenerator { state, generated, generated_idx: 127, key: key_bytes }
    }

    /// The next byte of the stream.
    pub fn generate_next(&mut self) -> (r: u8)
        requires
            old(self).wf(),
        ensures
            final(self).wf(),
            final(self).key_spec() == old(self).key_spec(),
            r == old(self).output(0),
            final(self).base_spec() == if old(self).offset_spec() + 1 < 128 {
                old(self).base_spec()
            } else {
                counter_add(old(self).base_spec(), 8)
            },
            final(self).offset_spec() == if old(self).offset_spec() + 1 < 128 {
                old(self).offset_spec() + 1
            } else {
                0
            },
            forall|n: nat| #[trigger] final(self).output(n) == old(self).output(n + 1),
    {
        if self.generated_idx < 127 {
            // Some bytes of the buffer were not handed out yet.
            self.generated_idx = self.generated_idx + 1;
        } else {
            // The buffer is used up: fill it again and start from its first byte.
            let c: u128 = self.state;
            let refill = aes_encrypt_many(
                c,
                c.wrapping_add(1),
                c.wrapping_add(2),
                c.wrapping_add(3),
                c.wrapping_add(4),
                c.wrapping_add(5),
                c.wrapping_add(6),
                c.wrapping_add(7),
                self.key.as_slice(),
            );
            proof {
                lemma_refill(self.key@, c, refill@);
                lemma_counter_back(c);
            }
            self.generated = refill;
            self.update_state();
            self.generated_idx = 0;
        }
        proof {
            lemma_output_step(
                self.key@,
                old(self).base_spec(),
                old(self).offset_spec(),
                self.base_spec(),
                self.offset_spec(),
            );
        }
        self.generated[self.generated_idx]
    }

    /// The `count` bytes that the calls number `from`, `from + 1`, ... of
    /// `generate_next` from now return.
    pub open spec fn outputs(&self, from: nat, count: nat) -> Seq<u8> {
        Seq::new(count, |i: int| self.output((from + i) as nat))
    }

    /// Two generators that stand at the same place of the stream of the same
    /// key, as two generators made from one seed do, return the same bytes
    /// for ever.
    pub proof fn lemma_determinism(first: RandomGenerator, second: RandomGenerator, n: nat)
        requires
            first.key_spec() == second.key_spec(),
            first.base_spec() == second.base_spec(),
            first.offset_spec() == second.offset_spec(),
        ensures
            first.output(n) == second.output(n),
    {
    }

    /// The text that stands for a generator wherever one is printed: a fixed
    /// label, which shows neither the key nor the counter.
    pub fn to_string(&self) -> (r: String)
        ensures
            r@ == "RandomGenerator"@,
    {
        "RandomGenerator".to_owned()
    }

    /// Moves the counter past the eight blocks of a refill.
    fn update_state(&mut self)
        ensures
            final(self).state == counter_add(old(self).state, 8),
            final(self).generated == old(self).generated,
            final(self).generated_idx == old(self).generated_idx,
            final(self).key == old(self).key,
    {
        self.state = self.state.wrapping_add(8);
    }
}

} // verus!
