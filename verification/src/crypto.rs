//! Segment decryption: AES-128-CBC with PKCS7 unpadding, and the HLS
//! convention for the implicit per-segment IV.

use vstd::prelude::*;

use aes::cipher::block_padding::Pkcs7;
use aes::cipher::{BlockModeDecrypt, KeyIvInit};

use crate::hls_parser::{EncryptionInfo, SpecEncryptionInfo};

verus! {

/// The implicit IV of a segment: 12 zero bytes followed by the segment index
/// as a big-endian 32-bit value (the index is truncated to 32 bits, as the
/// de facto HLS convention has it).
pub open spec fn spec_derive_iv(index: int) -> Seq<u8> {
    let x = index % 0x1_0000_0000;
    Seq::new(
        16,
        |i: int|
            if i < 12 {
                0u8
            } else if i == 12 {
                (x / 0x100_0000) as u8
            } else if i == 13 {
                ((x / 0x1_0000) % 0x100) as u8
            } else if i == 14 {
                ((x / 0x100) % 0x100) as u8
            } else {
                (x % 0x100) as u8
            },
    )
}

/// Derive the IV used for a segment with no explicit IV.
pub fn derive_iv(index: usize) -> (iv: Vec<u8>)
    ensures
        iv@ == spec_derive_iv(index as int),
        iv@.len() == 16,
{
    let wide: u64 = index as u64;
    let x: u64 = wide % 0x1_0000_0000;
    let mut iv: Vec<u8> = Vec::new();
    let mut i: usize = 0;
    while i < 12
        invariant
            0 <= i <= 12,
            iv@.len() == i,
            forall|j: int| 0 <= j < i ==> iv@[j] == 0u8,
        decreases 12 - i,
    {
        iv.push(0u8);
        i = i + 1;
    }
    iv.push((x / 0x100_0000) as u8);
    iv.push(((x / 0x1_0000) % 0x100) as u8);
    iv.push(((x / 0x100) % 0x100) as u8);
    iv.push((x % 0x100) as u8);
    proof {
        assert(x == (index as int) % 0x1_0000_0000);
        assert(iv@ =~= spec_derive_iv(index as int));
    }
    iv
}

/// What AES-128-CBC decryption with PKCS7 unpadding yields: a function of
/// key, IV and ciphertext alone; nothing exactly when the ciphertext length
/// is not a multiple of the block size or the padding is malformed.
pub uninterp spec fn aes128_cbc_decrypt_of(key: Seq<u8>, iv: Seq<u8>, data: Seq<u8>) -> Option<
    Seq<u8>,
>;

/// Relies on cbc::Decryptor<aes::Aes128>::decrypt_padded_vec with PKCS7
/// padding: deterministic in its three inputs, failing exactly on a
/// non-block-multiple length or bad padding.
#[verifier::external_body]
pub(crate) fn aes128_cbc_decrypt(key: &[u8], iv: &[u8], data: &[u8]) -> (r: Option<Vec<u8>>)
    requires
        key@.len() == 16,
        iv@.len() == 16,
    ensures
        r is Some <==> aes128_cbc_decrypt_of(key@, iv@, data@) is Some,
        r is Some ==> r.unwrap()@ == aes128_cbc_decrypt_of(key@, iv@, data@).unwrap(),
{
    let dec = match cbc::Decryptor::<aes::Aes128>::new_from_slices(key, iv) {
        Ok(d) => d,
        Err(_) => {
            return None;
        },
    };
    match dec.decrypt_padded_vec::<Pkcs7>(data) {
        Ok(v) => Some(v),
        Err(_) => None,
    }
}

/// What persisting a fetched segment writes: the AES-128-CBC decryption
/// under the explicit or derived IV when a key is present, the raw bytes
/// verbatim when none is.
pub open spec fn spec_decrypt_payload(
    data: Seq<u8>,
    key: Option<Seq<u8>>,
    enc: Option<SpecEncryptionInfo>,
    index: int,
) -> Option<Seq<u8>> {
    match (key, enc) {
        (Some(k), Some(e)) => {
            let iv = match e.iv_bytes {
                Some(v) => v,
                None => spec_derive_iv(index),
            };
            aes128_cbc_decrypt_of(k, iv, data)
        },
        _ => Some(data),
    }
}

/// Decrypt a fetched segment body if encryption is in force; `None` reports
/// a decryption failure (which is terminal for the segment).
pub fn decrypt_payload(
    data: Vec<u8>,
    key: &Option<Vec<u8>>,
    enc: &Option<EncryptionInfo>,
    index: usize,
) -> (r: Option<Vec<u8>>)
    requires
        (key matches Some(k) ==> k@.len() == 16),
        (enc matches Some(e) ==> (e.iv_bytes matches Some(v) ==> v@.len() == 16)),
    ensures
        r is Some <==> spec_decrypt_payload(
            data@,
            crate::hls_parser::opt_bytes_view(*key),
            crate::hls_parser::opt_enc_view(*enc),
            index as int,
        ) is Some,
        r is Some ==> r.unwrap()@ == spec_decrypt_payload(
            data@,
            crate::hls_parser::opt_bytes_view(*key),
            crate::hls_parser::opt_enc_view(*enc),
            index as int,
        ).unwrap(),
{
    match (key, enc) {
        (Some(k), Some(e)) => {
            let iv: Vec<u8> = match &e.iv_bytes {
                Some(v) => {
                    let mut c: Vec<u8> = Vec::new();
                    let mut i: usize = 0;
                    let n: usize = v.len();
                    while i < n
                        invariant
                            0 <= i <= n,
                            n == v@.len(),
                            c@ == v@.take(i as int),
                        decreases n - i,
                    {
                        c.push(v[i]);
                        proof {
                            assert(c@ =~= v@.take(i + 1));
                        }
                        i = i + 1;
                    }
                    proof {
                        assert(v@.take(n as int) =~= v@);
                    }
                    c
                },
                None => derive_iv(index),
            };
            aes128_cbc_decrypt(k.as_slice(), iv.as_slice(), data.as_slice())
        },
        _ => Some(data),
    }
}

} // verus!
