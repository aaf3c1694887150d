//! From entropy to a mnemonic phrase: the checksum that follows the entropy,
//! the 11-bit indices that the combined bits spell, and the words that the
//! indices select.

use crate::bits::{
    bit_at, bits_of, bits_value, lemma_bits_of_value_of_bits, lemma_bits_value_bound,
    lemma_value_bits_len, lemma_value_of_bits_of_value, value_bits, BitCursor,
};
use crate::entropy::valid_entropy_len;
use crate::sha256::sha256;
use crate::sha256_spec::sha256_digest;
use vstd::arithmetic::power2::lemma2_to64;
use vstd::prelude::*;
use vstd::string::StringExecFns;

verus! {

/// How many bits of the digest follow entropy of `entropy_len` bytes: one
/// for every 32 bits of entropy.
pub open spec fn checksum_len(entropy_len: nat) -> nat {
    entropy_len * 8 / 32
}

/// How many bits the combined stream has: those of the entropy and those of
/// the checksum.
pub open spec fn combined_len(entropy_len: nat) -> nat {
    entropy_len * 8 + checksum_len(entropy_len)
}

/// The byte that carries the checksum: the leading bits of the digest of
/// the entropy, followed by zeros.
pub open spec fn checksum_byte(entropy: Seq<u8>) -> u8 {
    sha256_digest(entropy)[0] & (0xffu8 << ((8 - checksum_len(entropy.len())) as u8))
}

/// The combined stream: the bits of the entropy, then the leading bits of
/// its digest.
pub open spec fn combined_bits(entropy: Seq<u8>) -> Seq<bool> {
    bits_of(entropy) + bits_of(sha256_digest(entropy)).take(checksum_len(entropy.len()) as int)
}

/// The numbers that `bits` spell when read eleven at a time. Bits after the
/// last full group are left out.
pub open spec fn split_chunks(bits: Seq<bool>) -> Seq<u16> {
    Seq::new(bits.len() / 11, |i: int| bits_value(bits.subrange(11 * i, 11 * i + 11)) as u16)
}

/// The stream that `indices` spell, eleven bits for each of them, the most
/// significant first.
pub open spec fn join_chunks(indices: Seq<u16>) -> Seq<bool> {
    Seq::new(11 * indices.len(), |k: int| value_bits(indices[k / 11] as nat, 11)[k % 11])
}

/// The words joined into one text, a single space between neighbours.
pub open spec fn join_words(words: Seq<Seq<char>>) -> Seq<char>
    decreases words.len(),
{
    if words.len() == 0 {
        Seq::empty()
    } else if words.len() == 1 {
        words[0]
    } else {
        join_words(words.drop_last()) + seq![' '] + words.last()
    }
}

/// The words that `indices` select from `wordlist`, in the order of the
/// indices.
pub open spec fn selected_words(indices: Seq<u16>, wordlist: Seq<&str>) -> Seq<Seq<char>> {
    Seq::new(indices.len(), |i: int| wordlist[indices[i] as int]@)
}

/// Whether every index is below `size`, the size of a word list.
pub open spec fn indices_in_range(indices: Seq<u16>, size: nat) -> bool {
    forall|i: int| 0 <= i < indices.len() ==> indices[i] < size
}

/// Why no mnemonic was made.
#[derive(Debug, Clone, Copy, PartialEq, Eq, Structural)]
pub enum MnemonicError {
    /// An index has no word: it is not below the size of the word list.
    IndexOutOfRange,
}

/// Masking a byte with the checksum mask keeps its leading `count` bits and
/// clears the others.
proof fn lemma_masked_bits(byte: u8, count: u8, j: u8)
    by (bit_vector)
    requires
        4 <= count <= 8,
        j < 8,
    ensures
        ((byte & (0xffu8 << ((8 - count) as u8))) >> ((7 - j) as u8)) & 1 == if j < count {
            (byte >> ((7 - j) as u8)) & 1
        } else {
            0
        },
{
}

/// The stream of entropy with its checksum byte: the combined stream, then
/// zeros up to the end of the last byte.
pub proof fn lemma_checksum_bits(entropy: Seq<u8>)
    requires
        valid_entropy_len(entropy.len()),
    ensures
        ({
            let with_checksum = entropy.push(checksum_byte(entropy));
            let total = combined_len(entropy.len()) as int;
            &&& bits_of(with_checksum).take(total) == combined_bits(entropy)
            &&& forall|k: int| total <= k < 8 * entropy.len() + 8 ==> !bit_at(with_checksum, k)
        }),
{
    let len = entropy.len() as int;
    let count = checksum_len(entropy.len()) as int;
    let digest = sha256_digest(entropy);
    let with_checksum = entropy.push(checksum_byte(entropy));
    let total = 8 * len + count;
    assert(digest.len() == 32);
    assert forall|k: int| 8 * len <= k < 8 * len + 8 implies bit_at(with_checksum, k) == (k - 8
        * len < count && bit_at(digest, k - 8 * len)) by {
        let j = k - 8 * len;
        assert(k / 8 == len && k % 8 == j);
        assert(j / 8 == 0 && j % 8 == j);
        lemma_masked_bits(digest[0], count as u8, j as u8);
    }
    assert forall|k: int| 0 <= k < 8 * len implies bit_at(with_checksum, k) == bit_at(
        entropy,
        k,
    ) by {
        assert(with_checksum[k / 8] == entropy[k / 8]);
    }
    assert(bits_of(with_checksum).take(total) =~= combined_bits(entropy));
}

/// Entropy of a supported size and its checksum fill a whole number of
/// 11-bit groups, between twelve and twenty-four of them, and the byte that
/// carries the checksum adds no further group.
pub proof fn lemma_chunk_count(entropy_len: nat)
    requires
        valid_entropy_len(entropy_len),
    ensures
        combined_len(entropy_len) == entropy_len * 8 + entropy_len * 8 / 32,
        combined_len(entropy_len) % 11 == 0,
        12 <= combined_len(entropy_len) / 11 <= 24,
        (8 * (entropy_len + 1)) / 11 == combined_len(entropy_len) / 11,
{
}

/// Reading a stream eleven bits at a time and spelling the numbers out
/// again gives the stream back, up to the end of its last full group.
pub proof fn lemma_join_split(bits: Seq<bool>)
    ensures
        join_chunks(split_chunks(bits)) == bits.take(11 * (bits.len() as int / 11)),
{
    let count = bits.len() as int / 11;
    let indices = split_chunks(bits);
    let joined = join_chunks(indices);
    assert forall|k: int| 0 <= k < 11 * count implies joined[k] == bits[k] by {
        let i = k / 11;
        let group = bits.subrange(11 * i, 11 * i + 11);
        lemma_bits_value_bound(group);
        lemma2_to64();
        lemma_bits_of_value_of_bits(group);
        assert(indices[i] as nat == bits_value(group));
        assert(group[k % 11] == bits[k]);
    }
    assert(joined =~= bits.take(11 * count));
}

/// Spelling indices below 2048 out as a stream and reading the stream
/// eleven bits at a time gives the indices back.
pub proof fn lemma_split_join(indices: Seq<u16>)
    requires
        indices_in_range(indices, 2048),
    ensures
        split_chunks(join_chunks(indices)) == indices,
{
    let joined = join_chunks(indices);
    assert(joined.len() == 11 * indices.len());
    assert forall|i: int| 0 <= i < indices.len() implies split_chunks(joined)[i] == indices[i] by {
        let group = joined.subrange(11 * i, 11 * i + 11);
        let spelled = value_bits(indices[i] as nat, 11);
        lemma_value_bits_len(indices[i] as nat, 11);
        assert forall|j: int| 0 <= j < 11 implies group[j] == spelled[j] by {
            let k = 11 * i + j;
            assert(k / 11 == i && k % 11 == j);
        }
        assert(group =~= spelled);
        lemma2_to64();
        lemma_value_of_bits_of_value(indices[i] as nat, 11);
    }
    assert(split_chunks(joined) =~= indices);
}

/// The indices read from entropy with its checksum byte spell the combined
/// stream exactly: no bit of it is left out, and none of the zeros that
/// fill the last byte is read.
pub proof fn lemma_indices_spell_combined_bits(entropy: Seq<u8>)
    requires
        valid_entropy_len(entropy.len()),
    ensures
        ({
            let indices = split_chunks(bits_of(entropy.push(checksum_byte(entropy))));
            &&& indices.len() == (entropy.len() * 8 + entropy.len() * 8 / 32) / 11
            &&& join_chunks(indices) == combined_bits(entropy)
        }),
{
    let stream = bits_of(entropy.push(checksum_byte(entropy)));
    lemma_chunk_count(entropy.len());
    lemma_checksum_bits(entropy);
    lemma_join_split(stream);
}

/// Appends to the entropy the byte that carries its checksum: the leading
/// bits of its SHA-256 digest, one for every 32 bits of entropy, followed
/// by zeros.
pub fn append_checksum(entropy: &mut Vec<u8>)
    requires
        valid_entropy_len(old(entropy)@.len()),
    ensures
        final(entropy)@ == old(entropy)@.push(checksum_byte(old(entropy)@)),
        bits_of(final(entropy)@).take(combined_len(old(entropy)@.len()) as int) == combined_bits(
            old(entropy)@,
        ),
        forall|k: int|
            combined_len(old(entropy)@.len()) <= k < 8 * old(entropy)@.len() + 8 ==> !bit_at(
                final(entropy)@,
                k,
            ),
{
    let digest = sha256(entropy.as_slice());
    let count = entropy.len() / 4;
    let mask: u8 = 0xffu8 << (8 - count as u8);
    proof {
        lemma_checksum_bits(entropy@);
    }
    entropy.push(digest[0] & mask);
}

/// Reads the stream eleven bits at a time, from its first bit on, and gives
/// the numbers that the groups spell. Bits after the last full group are
/// not read.
pub fn extract_11bit_chunks(data: &[u8]) -> (indices: Vec<u16>)
    ensures
        indices@ == split_chunks(bits_of(data@)),
        indices_in_range(indices@, 2048),
{
    let ghost bits = bits_of(data@);
    let mut cursor = BitCursor::new(data);
    let mut indices: Vec<u16> = Vec::new();
    loop
        invariant
            cursor.wf(),
            cursor.stream() == data@,
            bits == bits_of(data@),
            cursor.position() == 11 * indices@.len(),
            cursor.position() <= bits.len(),
            forall|i: int|
                0 <= i < indices@.len() ==> #[trigger] indices@[i] == bits_value(
                    bits.subrange(11 * i, 11 * i + 11),
                ),
            forall|i: int| 0 <= i < indices@.len() ==> #[trigger] indices@[i] < 2048,
        ensures
            bits.len() - 11 * indices@.len() < 11,
            forall|i: int|
                0 <= i < indices@.len() ==> #[trigger] indices@[i] == bits_value(
                    bits.subrange(11 * i, 11 * i + 11),
                ),
            forall|i: int| 0 <= i < indices@.len() ==> #[trigger] indices@[i] < 2048,
        decreases bits.len() - cursor.position(),
    {
        proof {
            lemma2_to64();
        }
        match cursor.read_bits(11) {
            Some(value) => {
                indices.push(value);
            },
            None => {
                break ;
            },
        }
    }
    assert(indices@ =~= split_chunks(bits));
    indices
}

/// Selects the word of each index and joins the words with single spaces.
/// An index that is not below the size of the word list has no word: then
/// no phrase is made.
pub fn indices_to_mnemonic(indices: &[u16], wordlist: &[&str]) -> (made: Result<
    String,
    MnemonicError,
>)
    ensures
        indices_in_range(indices@, wordlist@.len()) ==> (made matches Ok(phrase) && phrase@
            == join_words(selected_words(indices@, wordlist@))),
        !indices_in_range(indices@, wordlist@.len()) ==> made == Err::<String, MnemonicError>(
            MnemonicError::IndexOutOfRange,
        ),
{
    let mut phrase = String::new();
    for i in 0..indices.len()
        invariant
            forall|j: int| 0 <= j < i ==> indices@[j] < wordlist@.len(),
            phrase@ == join_words(selected_words(indices@.take(i as int), wordlist@)),
    {
        let index = indices[i] as usize;
        if index >= wordlist.len() {
            return Err(MnemonicError::IndexOutOfRange);
        }
        if i > 0 {
            phrase.push(' ');
        }
        phrase.append(wordlist[index]);
        proof {
            let before = selected_words(indices@.take(i as int), wordlist@);
            let after = selected_words(indices@.take(i + 1), wordlist@);
            assert(after.drop_last() =~= before);
            assert(after.last() == wordlist@[index as int]@);
        }
    }
    assert(indices@.take(indices.len() as int) =~= indices@);
    Ok(phrase)
}

} // verus!
