//! Facts about the definition of SHA-256 that the engine's proofs rest on.

use crate::sha256_spec::{
    be_u64_bytes, bit_length, block_at, byte_count, hash_blocks, padded, padding, sha256_digest,
    zero_pad_len, zeros,
};
use vstd::prelude::*;

verus! {

/// The chaining value after `n` blocks depends on the first `64 * n` bytes
/// alone: two byte sequences that agree there give the same value.
pub proof fn lemma_hash_blocks_prefix(a: Seq<u8>, b: Seq<u8>, n: int)
    requires
        64 * n <= a.len(),
        64 * n <= b.len(),
        forall|i: int| 0 <= i < 64 * n ==> a[i] == b[i],
    ensures
        hash_blocks(a, n) == hash_blocks(b, n),
    decreases n,
{
    if n > 0 {
        lemma_hash_blocks_prefix(a, b, n - 1);
        assert(block_at(a, n - 1) =~= block_at(b, n - 1));
    }
}

/// Where each part of a padded message lies: the message, the byte 0x80, the
/// zero bytes, and the eight bytes of the length in bits. The whole is one
/// block longer than the whole blocks of the message where the last partial
/// block leaves room for nine bytes, and two blocks longer where it does not.
pub proof fn lemma_padded_layout(msg: Seq<u8>)
    ensures
        padded(msg).len() == msg.len() + 1 + zero_pad_len(msg.len()) + 8,
        padded(msg).len() == 64 * (msg.len() / 64) + (if msg.len() % 64 < 56 {
            64int
        } else {
            128int
        }),
        forall|i: int| 0 <= i < msg.len() ==> #[trigger] padded(msg)[i] == msg[i],
        padded(msg)[msg.len() as int] == 0x80,
        forall|i: int|
            msg.len() < i < padded(msg).len() - 8 ==> #[trigger] padded(msg)[i] == 0,
        forall|j: int|
            0 <= j < 8 ==> #[trigger] padded(msg)[padded(msg).len() - 8 + j] == be_u64_bytes(
                bit_length(msg.len()),
            )[j],
{
    let len = msg.len();
    let tail = be_u64_bytes(bit_length(len));
    reveal(padding);
    assert(padding(len) == seq![0x80u8] + zeros(zero_pad_len(len) as int) + tail);
    assert(tail.len() == 8) by {
        reveal(be_u64_bytes);
    }
    assert(padding(len).len() == 1 + zero_pad_len(len) + 8);
}

/// A counter that has counted nothing is zero.
pub proof fn lemma_byte_count_empty()
    ensures
        byte_count(0) == 0,
{
    reveal(byte_count);
}

/// Adding the length of new bytes to the counter, with wrapping, counts the
/// longer message.
pub proof fn lemma_byte_count_advance(len: nat, added: usize)
    ensures
        byte_count(len).wrapping_add(added as u64) == byte_count(len + added as nat),
{
    reveal(byte_count);
    let modulus = 0x1_0000_0000_0000_0000int;
    let counter = byte_count(len) as int;
    let q = len as int / modulus;
    assert(len == q * modulus + counter);
    if counter + added >= modulus {
        assert(len + added == (q + 1) * modulus + (counter + added - modulus));
        vstd::arithmetic::div_mod::lemma_fundamental_div_mod_converse(
            len + added,
            modulus,
            q + 1,
            counter + added - modulus,
        );
    } else {
        assert(len + added == q * modulus + (counter + added));
        vstd::arithmetic::div_mod::lemma_fundamental_div_mod_converse(
            len + added,
            modulus,
            q,
            counter + added,
        );
    }
}

/// The counter of an engine, times eight and wrapped to 64 bits, is the bit
/// length that the padding ends with.
pub proof fn lemma_bit_length_of_counter(len: nat)
    ensures
        byte_count(len).wrapping_mul(8) == bit_length(len),
{
    reveal(byte_count);
    let counter = byte_count(len);
    let q = len / 0x1_0000_0000_0000_0000;
    assert(len == q * 0x1_0000_0000_0000_0000 + counter);
    assert(len * 8 == (8 * q) * 0x1_0000_0000_0000_0000 + counter * 8);
    vstd::arithmetic::div_mod::lemma_mod_multiples_vanish(
        8 * q as int,
        counter * 8,
        0x1_0000_0000_0000_0000,
    );
}

/// The blocks that the padding completes. Where the bytes after the last
/// whole block of the message leave room for the byte 0x80 and the eight
/// bytes of the length, one block holds them all; where they do not, the
/// first block is filled up with zeros and a second one holds the length.
pub proof fn lemma_final_blocks(msg: Seq<u8>, whole: int, rest: int)
    requires
        0 <= whole,
        0 <= rest < 64,
        msg.len() == 64 * whole + rest,
    ensures
        ({
            let tail = msg.skip(64 * whole);
            let p = padded(msg);
            let length = be_u64_bytes(bit_length(msg.len()));
            if rest < 56 {
                &&& p.len() == 64 * (whole + 1)
                &&& block_at(p, whole) == tail + seq![0x80u8] + zeros(55 - rest) + length
            } else {
                &&& p.len() == 64 * (whole + 2)
                &&& block_at(p, whole) == tail + seq![0x80u8] + zeros(63 - rest)
                &&& block_at(p, whole + 1) == zeros(56) + length
            }
        }),
{
    let len = msg.len() as int;
    assert(len / 64 == whole && len % 64 == rest) by {
        vstd::arithmetic::div_mod::lemma_fundamental_div_mod_converse(len, 64, whole, rest);
    }
    let tail = msg.skip(64 * whole);
    let p = padded(msg);
    let length = be_u64_bytes(bit_length(msg.len()));
    lemma_padded_layout(msg);
    assert(length.len() == 8) by {
        reveal(be_u64_bytes);
    }
    if rest < 56 {
        let want = tail + seq![0x80u8] + zeros(55 - rest) + length;
        assert(want.len() == 64);
        assert forall|i: int| 0 <= i < 64 implies block_at(p, whole)[i] == want[i] by {
            let at = 64 * whole + i;
            if i < rest {
                assert(p[at] == msg[at]);
            } else if i == rest {
            } else if i < 56 {
                assert(p[at] == 0);
            } else {
                assert(p[p.len() - 8 + (i - 56)] == length[i - 56]);
            }
        }
        assert(block_at(p, whole) =~= want);
    } else {
        let first = tail + seq![0x80u8] + zeros(63 - rest);
        let second = zeros(56) + length;
        assert(first.len() == 64);
        assert(second.len() == 64);
        assert forall|i: int| 0 <= i < 64 implies block_at(p, whole)[i] == first[i] by {
            let at = 64 * whole + i;
            if i < rest {
                assert(p[at] == msg[at]);
            } else if i == rest {
            } else {
                assert(p[at] == 0);
            }
        }
        assert forall|i: int| 0 <= i < 64 implies block_at(p, whole + 1)[i] == second[i] by {
            let at = 64 * (whole + 1) + i;
            if i < 56 {
                assert(p[at] == 0);
            } else {
                assert(p[p.len() - 8 + (i - 56)] == length[i - 56]);
            }
        }
        assert(block_at(p, whole) =~= first);
        assert(block_at(p, whole + 1) =~= second);
    }
}

/// What an engine has absorbed once `pieces` have been fed to it one after
/// another, when it had absorbed `before` at the start: each update appends
/// its piece.
pub open spec fn absorbed(before: Seq<u8>, pieces: Seq<Seq<u8>>) -> Seq<u8>
    decreases pieces.len(),
{
    if pieces.len() == 0 {
        before
    } else {
        absorbed(before, pieces.drop_last()) + pieces.last()
    }
}

/// Hashing piece by piece is hashing the whole: an engine that is fed the
/// pieces of a message in order has absorbed the message, wherever the
/// pieces were cut, so that the digest it gives is the digest of the message
/// hashed in one call.
pub proof fn lemma_incremental_equivalence(pieces: Seq<Seq<u8>>)
    ensures
        absorbed(Seq::empty(), pieces) == pieces.flatten(),
        sha256_digest(absorbed(Seq::empty(), pieces)) == sha256_digest(pieces.flatten()),
    decreases pieces.len(),
{
    if pieces.len() == 0 {
        assert(pieces.flatten() =~= Seq::<u8>::empty());
    } else {
        let front = pieces.drop_last();
        lemma_incremental_equivalence(front);
        front.lemma_flatten_push(pieces.last());
        assert(front.push(pieces.last()) =~= pieces);
    }
}

} // verus!
