//! A streaming SHA-256 engine, proved against the definition in
//! [`crate::sha256_spec`].

use crate::sha256_lemmas::{
    lemma_bit_length_of_counter, lemma_byte_count_advance, lemma_byte_count_empty,
    lemma_final_blocks, lemma_hash_blocks_prefix,
};
use crate::sha256_spec::{
    add32, be_u64_bytes, be_word, block_at, byte_count, compress, digest_bytes, hash_blocks,
    padded, round, rounds, schedule_word, sha256_digest, spec_big_sigma0, spec_big_sigma1,
    spec_ch, spec_maj, spec_rotr, spec_small_sigma0, spec_small_sigma1, word_byte, working_of,
    zeros, Working, H_INIT, K,
};
use vstd::prelude::*;
use vstd::slice::slice_subrange;

verus! {

/// Rotates `x` right by `n` bit positions.
pub fn rotr(x: u32, n: u32) -> (r: u32)
    requires
        0 < n < 32,
    ensures
        r == spec_rotr(x, n),
{
    (x >> n) | (x << (32 - n))
}

/// For each bit position, the bit of `y` where `x` has a one and the bit of
/// `z` where `x` has a zero.
pub fn ch(x: u32, y: u32, z: u32) -> (r: u32)
    ensures
        r == spec_ch(x, y, z),
{
    (x & y) ^ (!x & z)
}

/// For each bit position, the value that at least two of `x`, `y`, `z` have.
pub fn maj(x: u32, y: u32, z: u32) -> (r: u32)
    ensures
        r == spec_maj(x, y, z),
{
    (x & y) ^ (x & z) ^ (y & z)
}

/// Rotations by 2, 13 and 22, combined by exclusive or.
pub fn big_sigma0(x: u32) -> (r: u32)
    ensures
        r == spec_big_sigma0(x),
{
    rotr(x, 2) ^ rotr(x, 13) ^ rotr(x, 22)
}

/// Rotations by 6, 11 and 25, combined by exclusive or.
pub fn big_sigma1(x: u32) -> (r: u32)
    ensures
        r == spec_big_sigma1(x),
{
    rotr(x, 6) ^ rotr(x, 11) ^ rotr(x, 25)
}

/// Rotations by 7 and 18 and a shift by 3, combined by exclusive or.
pub fn small_sigma0(x: u32) -> (r: u32)
    ensures
        r == spec_small_sigma0(x),
{
    rotr(x, 7) ^ rotr(x, 18) ^ (x >> 3)
}

/// Rotations by 17 and 19 and a shift by 10, combined by exclusive or.
pub fn small_sigma1(x: u32) -> (r: u32)
    ensures
        r == spec_small_sigma1(x),
{
    rotr(x, 17) ^ rotr(x, 19) ^ (x >> 10)
}

/// Adds modulo 2^32.
fn wrapping_sum(x: u32, y: u32) -> (r: u32)
    ensures
        r == add32(x, y),
{
    x.wrapping_add(y)
}

/// Reads four bytes as a big-endian 32-bit word.
fn load_be_word(b0: u8, b1: u8, b2: u8, b3: u8) -> (word: u32)
    ensures
        word == be_word(b0, b1, b2, b3),
{
    let word: u32 = ((b0 as u32) << 24) | ((b1 as u32) << 16) | ((b2 as u32) << 8) | (b3 as u32);
    assert(((b0 as u32) << 24) | ((b1 as u32) << 16) | ((b2 as u32) << 8) | (b3 as u32)
        == b0 * 0x100_0000 + b1 * 0x1_0000 + b2 * 0x100 + b3) by (bit_vector);
    word
}

/// The four bytes of `w`, most significant first.
fn store_be_word(w: u32) -> (out: [u8; 4])
    ensures
        forall|j: int| 0 <= j < 4 ==> #[trigger] out[j] == word_byte(w, j),
{
    let b0: u32 = w >> 24;
    let b1: u32 = (w >> 16) & 0xff;
    let b2: u32 = (w >> 8) & 0xff;
    let b3: u32 = w & 0xff;
    assert(w >> 24 == w / 0x100_0000 && w >> 24 < 0x100) by (bit_vector);
    assert((w >> 16) & 0xff == w / 0x1_0000 % 0x100) by (bit_vector);
    assert((w >> 8) & 0xff == w / 0x100 % 0x100) by (bit_vector);
    assert(w & 0xff == w % 0x100) by (bit_vector);
    [b0 as u8, b1 as u8, b2 as u8, b3 as u8]
}

/// The eight bytes of `x`, most significant first.
fn store_be_u64(x: u64) -> (out: [u8; 8])
    ensures
        out@ == be_u64_bytes(x),
{
    let b0: u64 = x >> 56;
    let b1: u64 = (x >> 48) & 0xff;
    let b2: u64 = (x >> 40) & 0xff;
    let b3: u64 = (x >> 32) & 0xff;
    let b4: u64 = (x >> 24) & 0xff;
    let b5: u64 = (x >> 16) & 0xff;
    let b6: u64 = (x >> 8) & 0xff;
    let b7: u64 = x & 0xff;
    assert(x >> 56 == x / 0x100_0000_0000_0000 && x >> 56 < 0x100) by (bit_vector);
    assert((x >> 48) & 0xff == x / 0x1_0000_0000_0000 % 0x100) by (bit_vector);
    assert((x >> 40) & 0xff == x / 0x100_0000_0000 % 0x100) by (bit_vector);
    assert((x >> 32) & 0xff == x / 0x1_0000_0000 % 0x100) by (bit_vector);
    assert((x >> 24) & 0xff == x / 0x100_0000 % 0x100) by (bit_vector);
    assert((x >> 16) & 0xff == x / 0x1_0000 % 0x100) by (bit_vector);
    assert((x >> 8) & 0xff == x / 0x100 % 0x100) by (bit_vector);
    assert(x & 0xff == x % 0x100) by (bit_vector);
    let out: [u8; 8] = [
        b0 as u8,
        b1 as u8,
        b2 as u8,
        b3 as u8,
        b4 as u8,
        b5 as u8,
        b6 as u8,
        b7 as u8,
    ];
    assert(out@ =~= be_u64_bytes(x)) by {
        reveal(be_u64_bytes);
    }
    out
}

/// Sets the bytes of `buffer` from position `from` up to `to` to zero.
fn zero_fill(buffer: &mut [u8; 64], from: usize, to: usize)
    requires
        from <= to <= 64,
    ensures
        forall|i: int|
            0 <= i < 64 ==> #[trigger] final(buffer)[i] == if from <= i < to {
                0u8
            } else {
                old(buffer)[i]
            },
{
    for j in from..to
        invariant
            from <= to <= 64,
            forall|i: int|
                0 <= i < 64 ==> #[trigger] buffer[i] == if from <= i < j {
                    0u8
                } else {
                    old(buffer)[i]
                },
    {
        buffer[j] = 0;
    }
}

/// Copies `count` bytes of `src`, from position `from` on, into `buffer` from
/// position `start` on.
fn copy_into_buffer(buffer: &mut [u8; 64], start: usize, src: &[u8], from: usize, count: usize)
    requires
        start + count <= 64,
        from + count <= src.len(),
    ensures
        forall|i: int|
            0 <= i < 64 ==> #[trigger] final(buffer)[i] == if start <= i < start + count {
                src@[from + i - start]
            } else {
                old(buffer)[i]
            },
{
    for j in 0..count
        invariant
            start + count <= 64,
            from + count <= src.len(),
            forall|i: int|
                0 <= i < 64 ==> #[trigger] buffer[i] == if start <= i < start + j {
                    src@[from + i - start]
                } else {
                    old(buffer)[i]
                },
    {
        buffer[start + j] = src[from + j];
    }
}

/// A SHA-256 computation in progress.
///
/// The engine is fed with [`Sha256::update`] and consumed by
/// [`Sha256::finalize`]; its view is the sequence of all bytes fed so far.
pub struct Sha256 {
    state: [u32; 8],
    buffer: [u8; 64],
    buffer_len: usize,
    total_len: u64,
    fed: Ghost<Seq<u8>>,
    blocks: Ghost<int>,
}

impl View for Sha256 {
    type V = Seq<u8>;

    /// All bytes fed to the engine so far, in order.
    closed spec fn view(&self) -> Seq<u8> {
        self.fed@
    }
}

impl Sha256 {
    /// The invariant of the engine: what has been fed is a number of whole
    /// blocks, which the chaining value covers, followed by the bytes in the
    /// buffer, fewer than a block; and the counter is the number of bytes
    /// fed, modulo 2^64.
    pub closed spec fn wf(&self) -> bool {
        let whole = self.blocks@;
        &&& 0 <= whole
        &&& self.buffer_len < 64
        &&& self.fed@.len() == 64 * whole + self.buffer_len
        &&& self.total_len == byte_count(self.fed@.len())
        &&& self.state@ == hash_blocks(self.fed@, whole)
        &&& forall|i: int|
            0 <= i < self.buffer_len ==> #[trigger] self.buffer[i] == self.fed@[64 * whole + i]
    }

    /// An engine that has been fed nothing.
    pub fn new() -> (hasher: Self)
        ensures
            hasher.wf(),
            hasher@ == Seq::<u8>::empty(),
    {
        proof {
            lemma_byte_count_empty();
        }
        Sha256 {
            state: H_INIT,
            buffer: [0u8; 64],
            buffer_len: 0,
            total_len: 0,
            fed: Ghost(Seq::empty()),
            blocks: Ghost(0),
        }
    }

    /// The schedule of a block: its sixteen words, then forty-eight more, each
    /// mixed from four earlier ones.
    fn create_message_schedule(block: &[u8]) -> (w: [u32; 64])
        requires
            block@.len() == 64,
        ensures
            forall|t: int| 0 <= t < 64 ==> #[trigger] w[t] == schedule_word(block@, t),
    {
        let mut w: [u32; 64] = [0u32; 64];
        for i in 0..16usize
            invariant
                block@.len() == 64,
                forall|t: int| 0 <= t < i ==> #[trigger] w[t] == schedule_word(block@, t),
        {
            w[i] = load_be_word(
                block[i * 4],
                block[i * 4 + 1],
                block[i * 4 + 2],
                block[i * 4 + 3],
            );
        }
        for i in 16..64usize
            invariant
                forall|t: int| 0 <= t < i ==> #[trigger] w[t] == schedule_word(block@, t),
        {
            let ghost before = w;
            let x: u32 = wrapping_sum(
                wrapping_sum(
                    wrapping_sum(small_sigma1(w[i - 2]), w[i - 7]),
                    small_sigma0(w[i - 15]),
                ),
                w[i - 16],
            );
            w[i] = x;
            assert forall|t: int| 0 <= t < i + 1 implies #[trigger] w[t] == schedule_word(
                block@,
                t,
            ) by {
                if t < i {
                    assert(w[t] == before[t]);
                } else {
                    assert(before[i - 2] == schedule_word(block@, i - 2));
                    assert(before[i - 7] == schedule_word(block@, i - 7));
                    assert(before[i - 15] == schedule_word(block@, i - 15));
                    assert(before[i - 16] == schedule_word(block@, i - 16));
                }
            }
        }
        w
    }

    /// Absorbs one 64-byte block into the chaining value.
    fn process_block(&mut self, block: &[u8])
        requires
            block@.len() == 64,
        ensures
            final(self).state@ == compress(old(self).state@, block@),
            final(self).buffer == old(self).buffer,
            final(self).buffer_len == old(self).buffer_len,
            final(self).total_len == old(self).total_len,
            final(self).fed == old(self).fed,
            final(self).blocks == old(self).blocks,
    {
        let w = Self::create_message_schedule(block);

        let mut a = self.state[0];
        let mut b = self.state[1];
        let mut c = self.state[2];
        let mut d = self.state[3];
        let mut e = self.state[4];
        let mut f = self.state[5];
        let mut g = self.state[6];
        let mut h = self.state[7];
        let ghost start = working_of(self.state@);

        for i in 0..64usize
            invariant
                forall|t: int| 0 <= t < 64 ==> #[trigger] w[t] == schedule_word(block@, t),
                (Working { a, b, c, d, e, f, g, h }) == rounds(start, block@, i as int),
        {
            let t1 = wrapping_sum(
                wrapping_sum(wrapping_sum(wrapping_sum(h, big_sigma1(e)), ch(e, f, g)), K[i]),
                w[i],
            );
            let t2 = wrapping_sum(big_sigma0(a), maj(a, b, c));
            proof {
                let v = Working { a, b, c, d, e, f, g, h };
                assert(w[i as int] == schedule_word(block@, i as int));
                assert(rounds(start, block@, i + 1) == round(v, K[i as int], w[i as int]));
            }
            h = g;
            g = f;
            f = e;
            e = wrapping_sum(d, t1);
            d = c;
            c = b;
            b = a;
            a = wrapping_sum(t1, t2);
        }

        let ghost before = self.state@;
        self.state[0] = wrapping_sum(self.state[0], a);
        self.state[1] = wrapping_sum(self.state[1], b);
        self.state[2] = wrapping_sum(self.state[2], c);
        self.state[3] = wrapping_sum(self.state[3], d);
        self.state[4] = wrapping_sum(self.state[4], e);
        self.state[5] = wrapping_sum(self.state[5], f);
        self.state[6] = wrapping_sum(self.state[6], g);
        self.state[7] = wrapping_sum(self.state[7], h);
        assert(self.state@ =~= compress(before, block@)) by {
            reveal(compress);
        }
    }

    /// Feeds `data` to the engine: afterwards it has absorbed what it had
    /// before, followed by `data`.
    pub fn update(&mut self, data: &[u8])
        requires
            old(self).wf(),
        ensures
            final(self).wf(),
            final(self)@ == old(self)@ + data@,
    {
        let ghost prior = self.fed@;
        let ghost full = prior + data@;
        let ghost whole = self.blocks@;
        proof {
            lemma_byte_count_advance(prior.len(), data.len());
            lemma_hash_blocks_prefix(prior, full, whole);
        }
        self.total_len = self.total_len.wrapping_add(data.len() as u64);
        self.fed = Ghost(full);
        let mut offset: usize = 0;

        if self.buffer_len > 0 {
            let needed = 64 - self.buffer_len;

            if data.len() >= needed {
                copy_into_buffer(&mut self.buffer, self.buffer_len, data, 0, needed);
                let block = self.buffer;
                assert(block@ =~= block_at(full, whole));
                self.process_block(&block);
                self.buffer_len = 0;
                self.blocks = Ghost(whole + 1);
                offset = needed;
            } else {
                copy_into_buffer(&mut self.buffer, self.buffer_len, data, 0, data.len());
                self.buffer_len += data.len();
                return ;
            }
        }

        while data.len() - offset >= 64
            invariant
                offset <= data.len(),
                full == prior + data@,
                self.fed@ == full,
                self.buffer_len == 0,
                0 <= self.blocks@,
                prior.len() + offset == 64 * self.blocks@,
                self.total_len == byte_count(full.len()),
                self.state@ == hash_blocks(full, self.blocks@),
            decreases data.len() - offset,
        {
            let block = slice_subrange(data, offset, offset + 64);
            assert(block@ =~= block_at(full, self.blocks@));
            self.process_block(block);
            self.blocks = Ghost(self.blocks@ + 1);
            offset += 64;
        }

        if offset < data.len() {
            let remaining = data.len() - offset;
            copy_into_buffer(&mut self.buffer, 0, data, offset, remaining);
            self.buffer_len = remaining;
        }
    }

    /// Appends the padding to what has been fed and absorbs the one or two
    /// blocks that it completes.
    fn absorb_padding(&mut self)
        requires
            old(self).wf(),
        ensures
            final(self).state@ == hash_blocks(
                padded(old(self)@),
                padded(old(self)@).len() as int / 64,
            ),
    {
        let ghost msg = self.fed@;
        let ghost whole = self.blocks@;
        let ghost rest = self.buffer_len as int;
        let ghost tail = msg.skip(64 * whole);
        let ghost p = padded(msg);
        proof {
            lemma_final_blocks(msg, whole, rest);
            lemma_hash_blocks_prefix(msg, p, whole);
            lemma_bit_length_of_counter(msg.len());
        }
        let bit_len = self.total_len.wrapping_mul(8);
        let length = store_be_u64(bit_len);
        assert(self.buffer@.take(rest) =~= tail);

        self.buffer[self.buffer_len] = 0x80;
        self.buffer_len += 1;

        if self.buffer_len > 56 {
            zero_fill(&mut self.buffer, self.buffer_len, 64);
            let block = self.buffer;
            assert(block@ =~= tail + seq![0x80u8] + zeros(63 - rest));
            self.process_block(&block);
            self.buffer_len = 0;
            assert(self.state@ == hash_blocks(p, whole + 1));
        }
        zero_fill(&mut self.buffer, self.buffer_len, 56);
        copy_into_buffer(&mut self.buffer, 56, &length, 0, 8);
        let block = self.buffer;
        proof {
            if rest < 56 {
                assert(block@ =~= tail + seq![0x80u8] + zeros(55 - rest) + length@);
            } else {
                assert(block@ =~= zeros(56) + length@);
            }
        }
        self.process_block(&block);
        proof {
            if rest < 56 {
                assert(self.state@ == hash_blocks(p, whole + 1));
            } else {
                assert(self.state@ == hash_blocks(p, whole + 2));
            }
        }
    }

    /// The chaining value as bytes: its eight words, each big-endian.
    fn digest(&self) -> (out: [u8; 32])
        ensures
            out@ == digest_bytes(self.state@),
    {
        let mut out = [0u8; 32];
        for i in 0..8usize
            invariant
                forall|k: int|
                    0 <= k < 4 * i ==> #[trigger] out[k] == word_byte(self.state[k / 4], k % 4),
        {
            let bytes = store_be_word(self.state[i]);
            out[4 * i] = bytes[0];
            out[4 * i + 1] = bytes[1];
            out[4 * i + 2] = bytes[2];
            out[4 * i + 3] = bytes[3];
        }
        assert(out@ =~= digest_bytes(self.state@));
        out
    }

    /// Pads what has been fed and gives the digest of it. The engine is
    /// consumed: a finished computation cannot be fed or finished again.
    pub fn finalize(self) -> (digest: [u8; 32])
        requires
            self.wf(),
        ensures
            digest@ == sha256_digest(self@),
    {
        let mut engine = self;
        engine.absorb_padding();
        engine.digest()
    }
}

/// The SHA-256 digest of `data`.
pub fn sha256(data: &[u8]) -> (digest: [u8; 32])
    ensures
        digest@ == sha256_digest(data@),
{
    let mut engine = Sha256::new();
    engine.update(data);
    assert(engine@ =~= data@);
    engine.finalize()
}

} // verus!
