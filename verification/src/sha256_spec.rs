//! The SHA-256 function of FIPS 180-4, written as mathematics over sequences
//! of bytes. Nothing here is executable; the engine is proved against it.

use vstd::prelude::*;

verus! {

/// The initial hash value: the first 32 bits of the fractional parts of the
/// square roots of the first eight primes.
pub const H_INIT: [u32; 8] = [
    0x6a09e667, 0xbb67ae85, 0x3c6ef372, 0xa54ff53a,
    0x510e527f, 0x9b05688c, 0x1f83d9ab, 0x5be0cd19,
];

/// The round constants: the first 32 bits of the fractional parts of the cube
/// roots of the first sixty-four primes.
pub const K: [u32; 64] = [
    0x428a2f98, 0x71374491, 0xb5c0fbcf, 0xe9b5dba5,
    0x3956c25b, 0x59f111f1, 0x923f82a4, 0xab1c5ed5,
    0xd807aa98, 0x12835b01, 0x243185be, 0x550c7dc3,
    0x72be5d74, 0x80deb1fe, 0x9bdc06a7, 0xc19bf174,
    0xe49b69c1, 0xefbe4786, 0x0fc19dc6, 0x240ca1cc,
    0x2de92c6f, 0x4a7484aa, 0x5cb0a9dc, 0x76f988da,
    0x983e5152, 0xa831c66d, 0xb00327c8, 0xbf597fc7,
    0xc6e00bf3, 0xd5a79147, 0x06ca6351, 0x14292967,
    0x27b70a85, 0x2e1b2138, 0x4d2c6dfc, 0x53380d13,
    0x650a7354, 0x766a0abb, 0x81c2c92e, 0x92722c85,
    0xa2bfe8a1, 0xa81a664b, 0xc24b8b70, 0xc76c51a3,
    0xd192e819, 0xd6990624, 0xf40e3585, 0x106aa070,
    0x19a4c116, 0x1e376c08, 0x2748774c, 0x34b0bcb5,
    0x391c0cb3, 0x4ed8aa4a, 0x5b9cca4f, 0x682e6ff3,
    0x748f82ee, 0x78a5636f, 0x84c87814, 0x8cc70208,
    0x90befffa, 0xa4506ceb, 0xbef9a3f7, 0xc67178f2,
];

/// Addition modulo 2^32.
pub open spec fn add32(x: u32, y: u32) -> u32 {
    ((x + y) % 0x1_0000_0000) as u32
}

/// `x` rotated right by `n` bit positions, for `0 < n < 32`.
pub open spec fn spec_rotr(x: u32, n: u32) -> u32 {
    (x >> n) | (x << ((32 - n) as u32))
}

/// Ch: each bit of `x` chooses between the bits of `y` and `z`.
pub open spec fn spec_ch(x: u32, y: u32, z: u32) -> u32 {
    (x & y) ^ (!x & z)
}

/// Maj: each bit is the majority of the three input bits.
pub open spec fn spec_maj(x: u32, y: u32, z: u32) -> u32 {
    (x & y) ^ (x & z) ^ (y & z)
}

/// The function written as a capital sigma with index 0.
pub open spec fn spec_big_sigma0(x: u32) -> u32 {
    spec_rotr(x, 2) ^ spec_rotr(x, 13) ^ spec_rotr(x, 22)
}

/// The function written as a capital sigma with index 1.
pub open spec fn spec_big_sigma1(x: u32) -> u32 {
    spec_rotr(x, 6) ^ spec_rotr(x, 11) ^ spec_rotr(x, 25)
}

/// The function written as a small sigma with index 0.
pub open spec fn spec_small_sigma0(x: u32) -> u32 {
    spec_rotr(x, 7) ^ spec_rotr(x, 18) ^ (x >> 3u32)
}

/// The function written as a small sigma with index 1.
pub open spec fn spec_small_sigma1(x: u32) -> u32 {
    spec_rotr(x, 17) ^ spec_rotr(x, 19) ^ (x >> 10u32)
}

/// The 32-bit word whose big-endian bytes are `b0 b1 b2 b3`.
pub open spec fn be_word(b0: u8, b1: u8, b2: u8, b3: u8) -> u32 {
    (b0 * 0x100_0000 + b1 * 0x1_0000 + b2 * 0x100 + b3) as u32
}

/// Byte `j` (0 is the most significant) of the big-endian form of `w`.
pub open spec fn word_byte(w: u32, j: int) -> u8 {
    if j == 0 {
        (w / 0x100_0000) as u8
    } else if j == 1 {
        (w / 0x1_0000 % 0x100) as u8
    } else if j == 2 {
        (w / 0x100 % 0x100) as u8
    } else {
        (w % 0x100) as u8
    }
}

/// Word `t` of the message schedule of a 64-byte block, for `t < 64`.
pub open spec fn schedule_word(block: Seq<u8>, t: int) -> u32
    decreases t,
{
    if t < 16 {
        be_word(block[4 * t], block[4 * t + 1], block[4 * t + 2], block[4 * t + 3])
    } else {
        add32(
            add32(
                add32(
                    spec_small_sigma1(schedule_word(block, t - 2)),
                    schedule_word(block, t - 7),
                ),
                spec_small_sigma0(schedule_word(block, t - 15)),
            ),
            schedule_word(block, t - 16),
        )
    }
}

/// The eight working variables of the compression function.
pub struct Working {
    pub a: u32,
    pub b: u32,
    pub c: u32,
    pub d: u32,
    pub e: u32,
    pub f: u32,
    pub g: u32,
    pub h: u32,
}

/// The working variables that a chaining value starts a block with.
pub open spec fn working_of(state: Seq<u32>) -> Working {
    Working {
        a: state[0],
        b: state[1],
        c: state[2],
        d: state[3],
        e: state[4],
        f: state[5],
        g: state[6],
        h: state[7],
    }
}

/// One round: mixes the round constant `k` and the schedule word `w` into `v`.
pub open spec fn round(v: Working, k: u32, w: u32) -> Working {
    let t1 = add32(add32(add32(add32(v.h, spec_big_sigma1(v.e)), spec_ch(v.e, v.f, v.g)), k), w);
    let t2 = add32(spec_big_sigma0(v.a), spec_maj(v.a, v.b, v.c));
    Working {
        a: add32(t1, t2),
        b: v.a,
        c: v.b,
        d: v.c,
        e: add32(v.d, t1),
        f: v.e,
        g: v.f,
        h: v.g,
    }
}

/// The working variables after the first `n` rounds over `block`, for `n <= 64`.
pub open spec fn rounds(start: Working, block: Seq<u8>, n: int) -> Working
    decreases n,
{
    if n <= 0 {
        start
    } else {
        round(rounds(start, block, n - 1), K[n - 1], schedule_word(block, n - 1))
    }
}

/// The compression function: the chaining value that follows `state` once
/// the 64-byte `block` has been absorbed.
#[verifier::opaque]
pub open spec fn compress(state: Seq<u32>, block: Seq<u8>) -> Seq<u32> {
    let v = rounds(working_of(state), block, 64);
    seq![
        add32(state[0], v.a),
        add32(state[1], v.b),
        add32(state[2], v.c),
        add32(state[3], v.d),
        add32(state[4], v.e),
        add32(state[5], v.f),
        add32(state[6], v.g),
        add32(state[7], v.h),
    ]
}

/// Block `i` of `bytes`: the 64 bytes from position `64 * i` on.
pub open spec fn block_at(bytes: Seq<u8>, i: int) -> Seq<u8> {
    bytes.subrange(64 * i, 64 * i + 64)
}

/// The chaining value after the first `n` blocks of `bytes` have been
/// absorbed, starting from the initial hash value.
pub open spec fn hash_blocks(bytes: Seq<u8>, n: int) -> Seq<u32>
    decreases n,
{
    if n <= 0 {
        H_INIT@
    } else {
        compress(hash_blocks(bytes, n - 1), block_at(bytes, n - 1))
    }
}

/// How many zero bytes the padding of a message of `len` bytes holds: the
/// least count that brings the length to 56 modulo 64 once the byte 0x80 has
/// been appended.
pub open spec fn zero_pad_len(len: nat) -> nat {
    ((119 - len % 64) % 64) as nat
}

/// `count` zero bytes.
pub open spec fn zeros(count: int) -> Seq<u8> {
    Seq::new(count as nat, |i: int| 0u8)
}

/// The eight bytes of `x`, most significant first.
#[verifier::opaque]
pub open spec fn be_u64_bytes(x: u64) -> Seq<u8> {
    seq![
        (x / 0x100_0000_0000_0000) as u8,
        (x / 0x1_0000_0000_0000 % 0x100) as u8,
        (x / 0x100_0000_0000 % 0x100) as u8,
        (x / 0x1_0000_0000 % 0x100) as u8,
        (x / 0x100_0000 % 0x100) as u8,
        (x / 0x1_0000 % 0x100) as u8,
        (x / 0x100 % 0x100) as u8,
        (x % 0x100) as u8,
    ]
}

/// The length in bytes of a message of `len` bytes, as a 64-bit counter
/// holds it: modulo 2^64.
#[verifier::opaque]
pub open spec fn byte_count(len: nat) -> u64 {
    (len % 0x1_0000_0000_0000_0000) as u64
}

/// The length in bits of a message of `len` bytes, as the 64-bit number that
/// the padding ends with. A message of 2^61 bytes or more is longer than the
/// standard provides for; for such a message the number wraps.
pub open spec fn bit_length(len: nat) -> u64 {
    ((len * 8) % 0x1_0000_0000_0000_0000) as u64
}

/// The padding that follows a message of `len` bytes: the byte 0x80, the zero
/// bytes, and the length of the message in bits as a 64-bit big-endian number.
#[verifier::opaque]
pub open spec fn padding(len: nat) -> Seq<u8> {
    seq![0x80u8] + zeros(zero_pad_len(len) as int) + be_u64_bytes(bit_length(len))
}

/// The message with its padding: a whole number of blocks.
pub open spec fn padded(msg: Seq<u8>) -> Seq<u8> {
    msg + padding(msg.len())
}

/// The 32 bytes of a chaining value: its eight words, each big-endian.
pub open spec fn digest_bytes(state: Seq<u32>) -> Seq<u8> {
    Seq::new(32, |i: int| word_byte(state[i / 4], i % 4))
}

/// The SHA-256 digest of `msg`.
pub open spec fn sha256_digest(msg: Seq<u8>) -> Seq<u8> {
    let p = padded(msg);
    digest_bytes(hash_blocks(p, p.len() as int / 64))
}

} // verus!
