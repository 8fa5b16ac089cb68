use pahe_pipeline::hexcodec::{hex_encode, hex_decode};
use pahe_pipeline::decrypt::{decrypt_segment, decrypt_segment_hex_key};
use aes::cipher::block_padding::Pkcs7;
use aes::cipher::{BlockModeEncrypt, KeyIvInit};

#[test]
fn hex_encoding_is_two_lowercase_digits_per_byte() {
    assert_eq!(hex_encode(&vec![]), "");
    assert_eq!(hex_encode(&vec![0x00]), "00");
    assert_eq!(hex_encode(&vec![0x0f, 0xa0, 0xff]), "0fa0ff");
}

#[test]
fn hex_decoding_accepts_both_cases() {
    assert_eq!(hex_decode("0fa0ff"), Some(vec![0x0f, 0xa0, 0xff]));
    assert_eq!(hex_decode("0FA0FF"), Some(vec![0x0f, 0xa0, 0xff]));
    assert_eq!(hex_decode(""), Some(vec![]));
}

#[test]
fn hex_decoding_rejects_odd_or_foreign_input() {
    assert_eq!(hex_decode("abc"), None);
    assert_eq!(hex_decode("zz"), None);
}

#[test]
fn hex_round_trip_restores_the_bytes() {
    let key: Vec<u8> = (0u8..16).collect();
    let encoded = hex_encode(&key);
    assert_eq!(hex_decode(&encoded), Some(key));
}

fn encrypt_fixture(key: &[u8; 16], iv: &[u8; 16], plaintext: &[u8]) -> Vec<u8> {
    let mut buf = vec![0u8; plaintext.len() + 16];
    buf[..plaintext.len()].copy_from_slice(plaintext);
    let enc = cbc::Encryptor::<aes::Aes128>::new(key.into(), iv.into());
    let ct = enc.encrypt_padded::<Pkcs7>(&mut buf, plaintext.len()).expect("encrypt");
    // A stored segment carries its own IV in the first sixteen bytes.
    let mut stored = iv.to_vec();
    stored.extend_from_slice(ct);
    stored
}

#[test]
fn a_stored_segment_decrypts_to_its_plaintext() {
    let key = [0x42u8; 16];
    let iv = [0x24u8; 16];
    let plaintext = b"hello world! this is my plaintext.";
    let stored = encrypt_fixture(&key, &iv, plaintext);
    let out = decrypt_segment(&stored, &key.to_vec()).expect("decrypts");
    assert_eq!(out, plaintext);
}

#[test]
fn the_hex_form_of_the_key_decrypts_the_same() {
    let key = [0x42u8; 16];
    let iv = [0x24u8; 16];
    let plaintext = b"forty-two bytes of entirely plain text here..";
    let stored = encrypt_fixture(&key, &iv, plaintext);
    let key_hex = hex_encode(&key.to_vec());
    let out = decrypt_segment_hex_key(&stored, &key_hex).expect("decrypts");
    assert_eq!(out, plaintext);
}

#[test]
fn short_segments_and_bad_keys_are_rejected() {
    let key = vec![0u8; 16];
    assert_eq!(decrypt_segment(&vec![0u8; 15], &key), None);
    assert_eq!(decrypt_segment(&vec![0u8; 32], &vec![0u8; 5]), None);
    assert_eq!(decrypt_segment_hex_key(&vec![0u8; 32], "not hex"), None);
}

#[test]
fn tampered_padding_fails_the_decrypt() {
    let key = [7u8; 16];
    let iv = [9u8; 16];
    let mut stored = encrypt_fixture(&key, &iv, b"some payload");
    let last = stored.len() - 1;
    stored[last] ^= 0xff;
    assert_eq!(decrypt_segment(&stored, &key.to_vec()), None);
}
