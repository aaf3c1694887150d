use ed25519_keygen::sha256::{big_sigma0, big_sigma1, ch, maj, rotr, small_sigma0, small_sigma1};
use ed25519_keygen::{sha256, to_hex, Sha256};

fn patterned(len: usize) -> Vec<u8> {
    (0..len).map(|i| (i * 7 + 3) as u8).collect()
}

#[test]
fn digest_of_empty_input() {
    assert_eq!(
        to_hex(&sha256(b"")),
        "e3b0c44298fc1c149afbf4c8996fb92427ae41e4649b934ca495991b7852b855"
    );
}

#[test]
fn digest_of_abc() {
    assert_eq!(
        to_hex(&sha256(b"abc")),
        "ba7816bf8f01cfea414140de5dae2223b00361a396177a9cb410ff61f20015ad"
    );
}

#[test]
fn digest_of_448_bit_message() {
    assert_eq!(
        to_hex(&sha256(b"abcdbcdecdefdefgefghfghighijhijkijkljklmklmnlmnomnopnopq")),
        "248d6a61d20638b8e5c026930c3e6039a33ce45964ff2167f6ecedd419db06c1"
    );
}

#[test]
fn digest_of_896_bit_message() {
    let message: &[u8] = b"abcdefghbcdefghicdefghijdefghijkefghijklfghijklmghijklmnhijklmnoijklmnopjklmnopqklmnopqrlmnopqrsmnopqrstnopqrstu";
    assert_eq!(
        to_hex(&sha256(message)),
        "cf5b16a778af8380036ce59e7b0492370b249b11e8f07a51afac45037afee9d1"
    );
}

#[test]
fn digest_of_a_million_letters() {
    let message = vec![b'a'; 1_000_000];
    assert_eq!(
        to_hex(&sha256(&message)),
        "cdc76e5c9914fb9281a1c7e284d73e67f1809a48a497200e046d39ccc7112cd0"
    );
}

#[test]
fn digest_is_thirty_two_bytes() {
    assert_eq!(sha256(b"abc").len(), 32);
    assert_eq!(sha256(b"abc")[0], 0xba);
    assert_eq!(sha256(b"abc")[31], 0xad);
}

#[test]
fn digests_around_the_padding_boundary() {
    let cases: [(usize, &str); 9] = [
        (55, "9f4390f8d30c2dd92ec9f095b65e2b9ae9b0a925a5258e241c9f1e910f734318"),
        (56, "b35439a4ac6f0948b6d6f9e3c6af0f5f590ce20f1bde7090ef7970686ec6738a"),
        (57, "f13b2d724659eb3bf47f2dd6af1accc87b81f09f59f2b75e5c0bed6589dfe8c6"),
        (63, "7d3e74a05d7db15bce4ad9ec0658ea98e3f06eeecf16b4c6fff2da457ddc2f34"),
        (64, "ffe054fe7ae0cb6dc65c3af9b61d5209f439851db43d0ba5997337df154668eb"),
        (65, "635361c48bb9eab14198e76ea8ab7f1a41685d6ad62aa9146d301d4f17eb0ae0"),
        (119, "31eba51c313a5c08226adf18d4a359cfdfd8d2e816b13f4af952f7ea6584dcfb"),
        (120, "2f3d335432c70b580af0e8e1b3674a7c020d683aa5f73aaaedfdc55af904c21c"),
        (128, "6836cf13bac400e9105071cd6af47084dfacad4e5e302c94bfed24e013afb73e"),
    ];
    for (len, expected) in cases {
        assert_eq!(to_hex(&sha256(&vec![b'a'; len])), expected, "length {}", len);
    }
}

#[test]
fn engine_fed_nothing_gives_digest_of_empty_input() {
    let engine = Sha256::new();
    assert_eq!(engine.finalize(), sha256(b""));
}

#[test]
fn empty_updates_change_nothing() {
    let mut engine = Sha256::new();
    engine.update(b"");
    engine.update(b"abc");
    engine.update(b"");
    assert_eq!(engine.finalize(), sha256(b"abc"));
}

#[test]
fn two_pieces_match_one_shot_at_every_cut() {
    let data = patterned(200);
    let whole = sha256(&data);
    for cut in 0..=data.len() {
        let mut engine = Sha256::new();
        engine.update(&data[..cut]);
        engine.update(&data[cut..]);
        assert_eq!(engine.finalize(), whole, "cut at {}", cut);
    }
}

#[test]
fn cuts_on_block_boundaries_match_one_shot() {
    let data = patterned(256);
    let whole = sha256(&data);
    let mut engine = Sha256::new();
    engine.update(&data[..64]);
    engine.update(&data[64..192]);
    engine.update(&data[192..]);
    assert_eq!(engine.finalize(), whole);
}

#[test]
fn three_pieces_match_one_shot() {
    let data = patterned(150);
    let whole = sha256(&data);
    for first in (0..=data.len()).step_by(13) {
        for second in (first..=data.len()).step_by(17) {
            let mut engine = Sha256::new();
            engine.update(&data[..first]);
            engine.update(&data[first..second]);
            engine.update(&data[second..]);
            assert_eq!(engine.finalize(), whole, "cuts at {} and {}", first, second);
        }
    }
}

#[test]
fn byte_by_byte_matches_one_shot() {
    let data = patterned(130);
    let mut engine = Sha256::new();
    for byte in &data {
        engine.update(&[*byte]);
    }
    assert_eq!(engine.finalize(), sha256(&data));
}

#[test]
fn a_partial_block_is_completed_by_a_later_update() {
    let data = patterned(64);
    let mut engine = Sha256::new();
    engine.update(&data[..40]);
    engine.update(&data[40..]);
    assert_eq!(
        to_hex(&engine.finalize()),
        to_hex(&sha256(&data))
    );
}

#[test]
fn rotation_moves_low_bits_to_the_top() {
    assert_eq!(rotr(0x12345678, 8), 0x78123456);
    assert_eq!(rotr(1, 1), 0x8000_0000);
    assert_eq!(rotr(0x8000_0000, 31), 1);
}

#[test]
fn choice_and_majority() {
    assert_eq!(ch(0xffff_0000, 0x1234_5678, 0x9abc_def0), 0x1234_def0);
    assert_eq!(ch(0, 0x1234_5678, 0x9abc_def0), 0x9abc_def0);
    assert_eq!(maj(0xff00_ff00, 0xffff_0000, 0x0000_ffff), 0xff00_ff00);
    assert_eq!(maj(0b1100, 0b1010, 0b0110), 0b1110);
}

#[test]
fn sigma_functions() {
    assert_eq!(big_sigma0(0x12345678), 0x66146474);
    assert_eq!(big_sigma1(0x12345678), 0x3561abda);
    assert_eq!(small_sigma0(0x12345678), 0xe7fce6ee);
    assert_eq!(small_sigma1(0x12345678), 0xa1f78649);
}

#[test]
fn hex_text_is_lowercase_with_two_digits_per_byte() {
    assert_eq!(to_hex(&[]), "");
    assert_eq!(to_hex(&[0x00]), "00");
    assert_eq!(to_hex(&[0x0a, 0xb0, 0xff, 0x09, 0x10]), "0ab0ff0910");
    assert_eq!(to_hex(&[0x01, 0x23, 0x45, 0x67, 0x89, 0xab, 0xcd, 0xef]), "0123456789abcdef");
}
