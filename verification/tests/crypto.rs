use authenticate_kerberos::bits::rotate_right;
use authenticate_kerberos::crypto;
use authenticate_kerberos::crypto::{
    cbc_cts_decrypt, cbc_cts_encrypt, cipher, decrypt, derive_from, encrypt, steal,
    string_to_key, unchain, unseal, unsteal, xor, TICKET_KEY_USAGE,
};
use authenticate_kerberos::fold::{gcd, n_fold};
use authenticate_kerberos::ones::ones_complement_add;

fn hex(bytes: &[u8]) -> String {
    bytes.iter().fold(String::new(), |mut text, byte| {
        text.push_str(&format!("{byte:02x}"));
        text
    })
}

fn bytes(hex: &str) -> Vec<u8> {
    (0..hex.len() / 2)
        .map(|i| u8::from_str_radix(&hex[2 * i..2 * i + 2], 16).expect("hex"))
        .collect()
}

#[test]
fn n_fold_matches_the_rfc_3961_vector() {
    // RFC 3961 Appendix A: 64-fold("012345") = be072631276b1955.
    assert_eq!(hex(&n_fold(b"012345", 8)), "be072631276b1955");
    // 56-fold("password") = 78a07b6caf85fa.
    assert_eq!(hex(&n_fold(b"password", 7)), "78a07b6caf85fa");
}

#[test]
fn n_fold_matches_the_other_rfc_3961_vectors() {
    assert_eq!(
        hex(&n_fold(b"Rough Consensus, and Running Code", 8)),
        "bb6ed30870b7f0e0"
    );
    assert_eq!(
        hex(&n_fold(b"password", 21)),
        "59e4a8ca7c0385c3c37b3f6d2000247cb6e6bd5b3e"
    );
    assert_eq!(
        hex(&n_fold(b"kerberos", 16)),
        "6b65726265726f737b9b5b2b93132b93"
    );
}

#[test]
fn ciphertext_stealing_is_its_own_inverse_at_every_length() {
    let cipher = cipher(&[7u8; 32]).expect("a key");
    for length in [16usize, 17, 31, 32, 33, 48, 61] {
        let plaintext: Vec<u8> = (0..length)
            .map(|byte| u8::try_from(byte).unwrap_or(0))
            .collect();
        let ciphertext = cbc_cts_encrypt(&cipher, &plaintext);

        assert_eq!(ciphertext.len(), length);
        assert_eq!(
            cbc_cts_decrypt(&cipher, &ciphertext).expect("plain"),
            plaintext
        );
    }
}

#[test]
fn a_message_sealed_under_a_key_decrypts_under_the_same_key() {
    let key = [9u8; 32];
    let message = encrypt(&key, TICKET_KEY_USAGE, [3u8; 16], b"the sealed ticket part")
        .expect("sealed");

    let plaintext = decrypt(&key, TICKET_KEY_USAGE, &message).expect("plain");

    assert_eq!(plaintext, b"the sealed ticket part");
}

#[test]
fn a_message_sealed_under_another_key_fails_its_checksum() {
    let message = encrypt(&[9u8; 32], TICKET_KEY_USAGE, [3u8; 16], b"secret").expect("sealed");

    let failure = decrypt(&[1u8; 32], TICKET_KEY_USAGE, &message).expect_err("refused");

    assert!(failure.message.contains("checksum does not match"));
}

#[test]
fn a_password_and_salt_derive_a_thirty_two_byte_key() {
    let key = string_to_key(b"correct horse", b"EXAMPLE.COMalice", 4096).expect("a key");
    let same = string_to_key(b"correct horse", b"EXAMPLE.COMalice", 4096).expect("a key");
    let other = string_to_key(b"battery staple", b"EXAMPLE.COMalice", 4096).expect("a key");

    assert_eq!(key.len(), 32);
    assert_eq!(key, same);
    assert_ne!(key, other);
}

#[test]
fn string_to_key_matches_the_rfc_3962_vectors() {
    // RFC 3962 Appendix B.
    assert_eq!(
        hex(&string_to_key(b"password", b"ATHENA.MIT.EDUraeburn", 1).expect("a key")),
        "fe697b52bc0d3ce14432ba036a92e65bbb52280990a2fa27883998d72af30161"
    );
    assert_eq!(
        hex(&string_to_key(b"password", b"ATHENA.MIT.EDUraeburn", 1200).expect("a key")),
        "55a6ac740ad17b4846941051e1e8b0a7548d93b0ab30a8bc3ff16280382b8c2a"
    );
}

#[test]
fn a_subkey_is_the_usage_and_variant_folded_and_encrypted() {
    let base = cipher(&[7u8; 32]).expect("a key");

    assert_eq!(
        crypto::derive(&base, 2, 0xaa),
        derive_from(&base, &[0, 0, 0, 2, 0xaa])
    );
    assert_ne!(crypto::derive(&base, 2, 0xaa), crypto::derive(&base, 2, 0x55));
    assert_ne!(crypto::derive(&base, 2, 0xaa), crypto::derive(&base, 3, 0xaa));
    assert_eq!(
        crypto::derive(&base, 0x0102_0304, 0x55),
        derive_from(&base, &[1, 2, 3, 4, 0x55])
    );
}

#[test]
fn aes_256_is_that_of_fips_197() {
    // FIPS 197 Appendix C.3; one block of ciphertext stealing is one block.
    let key = bytes("000102030405060708090a0b0c0d0e0f101112131415161718191a1b1c1d1e1f");
    let cipher = cipher(&key).expect("a key");
    let plaintext = bytes("00112233445566778899aabbccddeeff");
    let ciphertext = bytes("8ea2b7ca516745bfeafc49904b496089");

    assert_eq!(cbc_cts_encrypt(&cipher, &plaintext), ciphertext);
    assert_eq!(cbc_cts_decrypt(&cipher, &ciphertext).expect("plain"), plaintext);
}

#[test]
fn a_ciphertext_too_short_for_a_confounder_and_a_checksum_is_refused() {
    let failure = decrypt(&[7u8; 32], TICKET_KEY_USAGE, &[0u8; 27]).expect_err("refused");

    assert_eq!(
        failure.message,
        "the Kerberos ciphertext is too short to hold a confounder and its checksum"
    );
}

#[test]
fn a_key_of_another_length_is_refused() {
    let failure = decrypt(&[7u8; 16], TICKET_KEY_USAGE, &[0u8; 28]).expect_err("refused");

    assert_eq!(
        failure.message,
        "an aes256-cts-hmac-sha1-96 key is thirty-two bytes"
    );
    assert!(encrypt(&[7u8; 31], TICKET_KEY_USAGE, [0u8; 16], b"").is_err());
}

#[test]
fn a_ciphertext_under_one_block_is_refused() {
    let cipher = cipher(&[7u8; 32]).expect("a key");

    assert_eq!(
        cbc_cts_decrypt(&cipher, &[0u8; 15]).expect_err("refused").message,
        "the Kerberos ciphertext is shorter than one block"
    );
}

#[test]
fn a_changed_byte_fails_the_checksum_wherever_it_is() {
    let key = [9u8; 32];
    let message = encrypt(&key, TICKET_KEY_USAGE, [3u8; 16], b"the sealed ticket part")
        .expect("sealed");

    for index in 0..message.len() {
        let mut changed = message.clone();
        changed[index] ^= 1;
        assert!(decrypt(&key, TICKET_KEY_USAGE, &changed)
            .expect_err("refused")
            .message
            .contains("checksum does not match"));
    }
}

#[test]
fn a_message_for_another_usage_fails_its_checksum() {
    let key = [9u8; 32];
    let message = encrypt(&key, TICKET_KEY_USAGE, [3u8; 16], b"secret").expect("sealed");

    assert!(decrypt(&key, 3, &message).is_err());
}

#[test]
fn every_length_of_data_opens_to_itself() {
    let key = [4u8; 32];
    for length in 0..70 {
        let data: Vec<u8> = vec![length; usize::from(length)];
        let message = encrypt(&key, TICKET_KEY_USAGE, [8u8; 16], &data).expect("sealed");

        assert_eq!(message.len(), data.len() + 28);
        assert_eq!(decrypt(&key, TICKET_KEY_USAGE, &message).expect("plain"), data);
    }
}

#[test]
fn unsealing_compares_the_first_twelve_bytes_of_the_tag() {
    let plaintext: Vec<u8> = (0..20).collect();
    let tag: Vec<u8> = (100..120).collect();

    assert_eq!(
        unseal(&plaintext, &tag, &tag[..12]).expect("data"),
        vec![16, 17, 18, 19]
    );
    assert!(unseal(&plaintext, &tag, &tag[..11]).is_err());
    assert!(unseal(&plaintext, &tag, &tag[1..13]).is_err());
}

#[test]
fn unchaining_adds_the_ciphertext_block_before() {
    let decrypted = [0xf0u8; 32];
    let ciphertext = [0x0fu8; 32];
    let mut expected = vec![0xf0u8; 16];
    expected.extend([0xffu8; 16]);

    assert_eq!(unchain(&decrypted, &ciphertext), expected);
}

#[test]
fn stealing_swaps_and_cuts_the_last_two_blocks() {
    let mut chain = vec![1u8; 16];
    chain.extend([2u8; 16]);
    chain.extend([3u8; 16]);
    let mut expected = vec![1u8; 16];
    expected.extend([3u8; 16]);
    expected.extend([2u8; 5]);

    let data = steal(&chain[..32], &[3u8; 16], 37);

    assert_eq!(data, expected);
    assert_eq!(unsteal(&data, &[2u8; 16]), chain);
}

#[test]
fn xor_stops_where_the_shorter_ends() {
    let mut expected = [0xffu8; 16];
    expected[0] = 0x00;
    expected[1] = 0xf0;

    assert_eq!(xor([0xff; 16], &[0xff, 0x0f]), expected);
}

#[test]
fn a_rotation_brings_the_last_bits_to_the_front() {
    assert_eq!(rotate_right(&[0b0000_0001, 0b1000_0000], 1), vec![0, 0b1100_0000]);
    assert_eq!(rotate_right(&[0x12, 0x34], 13), rotate_right(&[0x12, 0x34], 29));
    assert_eq!(rotate_right(&[0x12, 0x34, 0x56], 8), vec![0x56, 0x12, 0x34]);
    assert_eq!(rotate_right(&[0xab], 0), vec![0xab]);
}

#[test]
fn a_carry_out_of_the_top_comes_round_to_the_bottom() {
    let mut sum = vec![0xff, 0xff];
    ones_complement_add(&mut sum, &[0x00, 0x01]);
    assert_eq!(sum, vec![0x00, 0x01]);

    let mut sum = vec![0xff, 0x00];
    ones_complement_add(&mut sum, &[0x00, 0xff]);
    assert_eq!(sum, vec![0xff, 0xff]);

    let mut sum = vec![0x80, 0xff];
    ones_complement_add(&mut sum, &[0x80, 0x00]);
    assert_eq!(sum, vec![0x01, 0x00]);
}

#[test]
fn the_greatest_common_divisor_is_euclids() {
    assert_eq!(gcd(16, 5), 1);
    assert_eq!(gcd(16, 8), 8);
    assert_eq!(gcd(12, 18), 6);
    assert_eq!(gcd(7, 0), 7);
    assert_eq!(gcd(0, 0), 0);
}

#[test]
fn a_fold_to_a_multiple_is_the_rotations_one_after_another() {
    for input in [&b"kerberos"[..], b"012345", b"x"] {
        for count in 1..5 {
            let mut rotations = Vec::new();
            for copy in 0..count {
                rotations.extend(rotate_right(input, 13 * copy));
            }
            assert_eq!(n_fold(input, count * input.len()), rotations);
        }
        assert_eq!(n_fold(input, input.len()), input);
        assert_eq!(rotate_right(input, 0), input);
    }
}

#[test]
fn a_message_is_twenty_eight_bytes_longer_than_what_it_holds() {
    for length in [0usize, 1, 15, 16, 17, 40] {
        let data = vec![4u8; length];
        let message = encrypt(&[9u8; 32], TICKET_KEY_USAGE, [3u8; 16], &data).expect("a key");

        assert_eq!(message.len(), length + 28);
        assert_eq!(
            decrypt(&[9u8; 32], TICKET_KEY_USAGE, &message).expect("plain"),
            data
        );
    }
}
