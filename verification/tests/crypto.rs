use aes::cipher::block_padding::Pkcs7;
use aes::cipher::{BlockModeEncrypt, KeyIvInit};

use hls_downloader::crypto::{decrypt_payload, derive_iv};
use hls_downloader::hls_parser::EncryptionInfo;

fn encrypt(key: &[u8; 16], iv: &[u8; 16], plaintext: &[u8]) -> Vec<u8> {
    let enc = cbc::Encryptor::<aes::Aes128>::new(key.into(), iv.into());
    enc.encrypt_padded_vec::<Pkcs7>(plaintext)
}

fn descriptor(iv: Option<Vec<u8>>) -> EncryptionInfo {
    EncryptionInfo {
        key_url: "https://example.com/k.key".to_string(),
        method: "AES-128".to_string(),
        key_bytes: None,
        iv_bytes: iv,
    }
}

#[test]
fn derived_iv_is_zero_padded_big_endian_index() {
    let iv = derive_iv(5);
    let mut expected = vec![0u8; 12];
    expected.extend_from_slice(&[0, 0, 0, 5]);
    assert_eq!(iv, expected);
}

#[test]
fn derived_iv_spreads_over_four_bytes() {
    let iv = derive_iv(0x01020304);
    let mut expected = vec![0u8; 12];
    expected.extend_from_slice(&[1, 2, 3, 4]);
    assert_eq!(iv, expected);
}

#[test]
fn roundtrip_with_explicit_iv() {
    let key = [0x42u8; 16];
    let iv = [0x24u8; 16];
    let plaintext = b"exactly sixteen bytes? no, a bit more than one block".to_vec();
    let ciphertext = encrypt(&key, &iv, &plaintext);
    let enc = descriptor(Some(iv.to_vec()));
    let out = decrypt_payload(ciphertext, &Some(key.to_vec()), &Some(enc), 0).unwrap();
    assert_eq!(out, plaintext);
}

#[test]
fn roundtrip_with_index_derived_iv() {
    let key = [7u8; 16];
    let derived = derive_iv(5);
    let mut iv = [0u8; 16];
    iv.copy_from_slice(&derived);
    let plaintext = b"segment five payload".to_vec();
    let ciphertext = encrypt(&key, &iv, &plaintext);
    let enc = descriptor(None);
    let out = decrypt_payload(ciphertext, &Some(key.to_vec()), &Some(enc), 5).unwrap();
    assert_eq!(out, plaintext);
}

#[test]
fn wrong_iv_does_not_reproduce_plaintext() {
    let key = [7u8; 16];
    let iv = [9u8; 16];
    let plaintext = b"one block of data andmore padding".to_vec();
    let ciphertext = encrypt(&key, &iv, &plaintext);
    let enc = descriptor(Some(vec![0u8; 16]));
    match decrypt_payload(ciphertext, &Some(key.to_vec()), &Some(enc), 0) {
        Some(out) => assert_ne!(out, plaintext),
        None => {},
    }
}

#[test]
fn without_key_bytes_pass_through_verbatim() {
    let data = vec![1u8, 2, 3, 4];
    let out = decrypt_payload(data.clone(), &None, &None, 9).unwrap();
    assert_eq!(out, data);
}

#[test]
fn non_block_multiple_ciphertext_fails() {
    let key = [1u8; 16];
    let enc = descriptor(Some(vec![0u8; 16]));
    assert!(decrypt_payload(vec![1, 2, 3], &Some(key.to_vec()), &Some(enc), 0).is_none());
}
