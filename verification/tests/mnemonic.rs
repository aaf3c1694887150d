use ed25519_keygen::{
    append_checksum, extract_11bit_chunks, indices_to_mnemonic, sha256, Entropy, MnemonicError,
};

/// A list of 2048 words that has the true words at the places that the
/// fixtures below select, and a stand-in at every other place.
fn wordlist() -> Vec<String> {
    let mut words: Vec<String> = (0..2048).map(|i| format!("word{}", i)).collect();
    let known: [(usize, &str); 8] = [
        (0, "abandon"),
        (1, "ability"),
        (2, "able"),
        (3, "about"),
        (4, "above"),
        (102, "art"),
        (2037, "wrong"),
        (2047, "zoo"),
    ];
    for (index, word) in known {
        words[index] = word.to_string();
    }
    words
}

fn phrase_of(entropy: &[u8]) -> String {
    let words = wordlist();
    let borrowed: Vec<&str> = words.iter().map(|word| word.as_str()).collect();
    let mut bytes = entropy.to_vec();
    append_checksum(&mut bytes);
    let indices = extract_11bit_chunks(&bytes);
    indices_to_mnemonic(&indices, &borrowed).unwrap()
}

/// The bits of the indices, eleven for each, most significant first.
fn bits_of_indices(indices: &[u16]) -> Vec<bool> {
    let mut bits = Vec::new();
    for index in indices {
        for place in (0..11).rev() {
            bits.push((index >> place) & 1 == 1);
        }
    }
    bits
}

/// The bits of the bytes, eight for each, most significant first.
fn bits_of_bytes(bytes: &[u8]) -> Vec<bool> {
    let mut bits = Vec::new();
    for byte in bytes {
        for place in (0..8).rev() {
            bits.push((byte >> place) & 1 == 1);
        }
    }
    bits
}

#[test]
fn sixteen_zero_bytes_give_the_known_phrase() {
    let mut bytes = vec![0u8; 16];
    assert_eq!(sha256(&bytes)[0] >> 4, 0x3);
    append_checksum(&mut bytes);
    let indices = extract_11bit_chunks(&bytes);
    assert_eq!(indices, vec![0, 0, 0, 0, 0, 0, 0, 0, 0, 0, 0, 3]);
    assert_eq!(
        phrase_of(&[0u8; 16]),
        "abandon abandon abandon abandon abandon abandon abandon abandon abandon abandon abandon about"
    );
}

#[test]
fn thirty_two_zero_bytes_give_the_known_phrase() {
    assert_eq!(
        phrase_of(&[0u8; 32]),
        "abandon abandon abandon abandon abandon abandon abandon abandon abandon abandon abandon abandon abandon abandon abandon abandon abandon abandon abandon abandon abandon abandon abandon art"
    );
}

#[test]
fn sixteen_bytes_of_ones_give_the_known_phrase() {
    assert_eq!(
        phrase_of(&[0xffu8; 16]),
        "zoo zoo zoo zoo zoo zoo zoo zoo zoo zoo zoo wrong"
    );
}

#[test]
fn checksum_byte_holds_the_leading_bits_of_the_digest() {
    let cases: [(usize, u8); 5] = [(16, 0x30), (20, 0xd8), (24, 0x9c), (28, 0x3a), (32, 0x66)];
    for (len, expected) in cases {
        let mut bytes = vec![0u8; len];
        append_checksum(&mut bytes);
        assert_eq!(bytes.len(), len + 1);
        assert_eq!(&bytes[..len], &vec![0u8; len][..]);
        assert_eq!(bytes[len], expected, "length {}", len);
    }
}

#[test]
fn checksum_bits_are_the_most_significant_bits_of_the_digest() {
    for len in [16usize, 20, 24, 28, 32] {
        let entropy: Vec<u8> = (0..len).map(|i| (i * 31 + 5) as u8).collect();
        let digest = sha256(&entropy);
        let mut bytes = entropy.clone();
        append_checksum(&mut bytes);
        let count = len * 8 / 32;
        let appended = bits_of_bytes(&bytes[len..]);
        let leading = bits_of_bytes(&digest[..1]);
        assert_eq!(&appended[..count], &leading[..count]);
        assert!(appended[count..].iter().all(|bit| !bit));
    }
}

#[test]
fn known_entropy_gives_known_indices() {
    let mut bytes = vec![0x7fu8; 16];
    append_checksum(&mut bytes);
    assert_eq!(bytes[16], 0x80);
    assert_eq!(
        extract_11bit_chunks(&bytes),
        vec![1019, 2015, 1790, 2039, 1983, 1533, 2031, 1919, 1019, 2015, 1790, 2040]
    );

    let mut bytes = vec![0x80u8; 16];
    append_checksum(&mut bytes);
    assert_eq!(bytes[16], 0x40);
    assert_eq!(
        extract_11bit_chunks(&bytes),
        vec![1028, 32, 257, 8, 64, 514, 16, 128, 1028, 32, 257, 4]
    );

    let mut bytes: Vec<u8> = (1..=20).collect();
    append_checksum(&mut bytes);
    assert_eq!(bytes[20], 0xe0);
    assert_eq!(
        extract_11bit_chunks(&bytes),
        vec![8, 128, 1544, 80, 771, 1056, 289, 523, 96, 835, 1054, 257, 137, 76, 668]
    );
}

#[test]
fn index_count_follows_the_entropy_length() {
    let cases: [(usize, usize); 5] = [(16, 12), (20, 15), (24, 18), (28, 21), (32, 24)];
    for (len, expected) in cases {
        let mut bytes = vec![0xa5u8; len];
        append_checksum(&mut bytes);
        let indices = extract_11bit_chunks(&bytes);
        assert_eq!(indices.len(), expected);
        assert_eq!(indices.len(), (len * 8 + len * 8 / 32) / 11);
        assert_eq!((len * 8 + len * 8 / 32) % 11, 0);
    }
}

#[test]
fn generated_entropy_gives_a_full_phrase() {
    let words = wordlist();
    let borrowed: Vec<&str> = words.iter().map(|word| word.as_str()).collect();
    let entropy = Entropy::generate(24).unwrap();
    let mut bytes = entropy.bytes;
    append_checksum(&mut bytes);
    let indices = extract_11bit_chunks(&bytes);
    let phrase = indices_to_mnemonic(&indices, &borrowed).unwrap();
    assert_eq!(phrase.split(' ').count(), 18);
}

#[test]
fn indices_are_below_2048() {
    let data: Vec<u8> = (0..=255u8).collect();
    let indices = extract_11bit_chunks(&data);
    assert_eq!(indices.len(), 256 * 8 / 11);
    assert!(indices.iter().all(|index| *index < 2048));
}

#[test]
fn short_streams_give_no_index() {
    assert_eq!(extract_11bit_chunks(&[]), Vec::<u16>::new());
    assert_eq!(extract_11bit_chunks(&[0xff]), Vec::<u16>::new());
    assert_eq!(extract_11bit_chunks(&[0xff, 0xe0]), vec![2047]);
    assert_eq!(extract_11bit_chunks(&[0x00, 0x20, 0x04]), vec![1, 1]);
}

#[test]
fn indices_spell_the_stream_they_were_read_from() {
    for len in [11usize, 17, 21, 25, 29, 33, 40] {
        let data: Vec<u8> = (0..len).map(|i| (i * 97 + 13) as u8).collect();
        let indices = extract_11bit_chunks(&data);
        let spelled = bits_of_indices(&indices);
        let stream = bits_of_bytes(&data);
        assert_eq!(spelled.len(), 11 * (len * 8 / 11));
        assert_eq!(&spelled[..], &stream[..spelled.len()]);
    }
}

#[test]
fn a_stream_of_whole_groups_is_spelled_in_full() {
    let data: Vec<u8> = (0..22).map(|i| (i * 53 + 7) as u8).collect();
    let indices = extract_11bit_chunks(&data);
    assert_eq!(indices.len(), 16);
    assert_eq!(bits_of_indices(&indices), bits_of_bytes(&data));
}

#[test]
fn words_are_joined_by_single_spaces() {
    let words = ["alpha", "beta", "gamma", "delta"];
    assert_eq!(indices_to_mnemonic(&[], &words), Ok(String::new()));
    assert_eq!(indices_to_mnemonic(&[2], &words), Ok("gamma".to_string()));
    assert_eq!(
        indices_to_mnemonic(&[3, 0, 0, 1], &words),
        Ok("delta alpha alpha beta".to_string())
    );
}

#[test]
fn an_index_without_a_word_is_out_of_range() {
    let words = ["alpha", "beta", "gamma", "delta"];
    assert_eq!(indices_to_mnemonic(&[4], &words), Err(MnemonicError::IndexOutOfRange));
    assert_eq!(indices_to_mnemonic(&[0, 1, 2047], &words), Err(MnemonicError::IndexOutOfRange));
    assert_eq!(indices_to_mnemonic(&[0], &[]), Err(MnemonicError::IndexOutOfRange));
}
