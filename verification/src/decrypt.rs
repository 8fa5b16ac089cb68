//! Segment decryption framing: the first sixteen stored bytes of a keyed
//! segment are its initialization vector, the remainder is ciphertext. The
//! block-cipher work itself is done by the `aes` and `cbc` crates; what they
//! return is named, and everything around the call is verified.

use vstd::prelude::*;
use crate::hexcodec::{hex_decode, valid_hex, hex_bytes_of, hex_chars_of, lemma_hex_round_trip};

verus! {

/// What AES-128-CBC decryption with PKCS#7 unpadding returns: a function of
/// the key, the initialization vector and the ciphertext alone, undefined
/// here beyond that; absence means a wrong-length input or bad padding.
pub uninterp spec fn aes128_cbc_plain(key: Seq<u8>, iv: Seq<u8>, ct: Seq<u8>) -> Option<Seq<u8>>;

/// Relies on cbc::Decryptor<aes::Aes128>: new_from_slices fails exactly on
/// key or IV slices that are not sixteen bytes, and decrypt_padded with
/// PKCS#7 unpadding is deterministic in the key, IV and ciphertext, failing
/// on malformed padding or a ciphertext that is not block-aligned.
#[verifier::external_body]
fn aes128_cbc_decrypt(key: &[u8], iv: &[u8], ct: &[u8]) -> (r: Option<Vec<u8>>)
    ensures
        r is Some ==> key@.len() == 16 && iv@.len() == 16,
        key@.len() == 16 && iv@.len() == 16 ==> {
            &&& (r is Some <==> aes128_cbc_plain(key@, iv@, ct@) is Some)
            &&& (r matches Some(v) ==> Some(v@) == aes128_cbc_plain(key@, iv@, ct@))
        },
{
    let dec = match <cbc::Decryptor<aes::Aes128> as aes::cipher::KeyIvInit>::new_from_slices(
        key,
        iv,
    ) {
        Ok(d) => d,
        Err(_) => return None,
    };
    let mut buf = ct.to_vec();
    aes::cipher::BlockModeDecrypt::decrypt_padded::<aes::cipher::block_padding::Pkcs7>(
        dec, &mut buf,
    ).ok().map(|pt| pt.to_vec())
}

/// The plaintext of one stored segment under a raw key: nothing for a
/// segment too short to carry an initialization vector or for a key of the
/// wrong length, else whatever the cipher yields.
pub open spec fn segment_plain(key: Seq<u8>, data: Seq<u8>) -> Option<Seq<u8>> {
    if data.len() < 16 || key.len() != 16 {
        None
    } else {
        aes128_cbc_plain(key, data.subrange(0, 16), data.subrange(16, data.len() as int))
    }
}

/// Decrypts one stored segment with a raw key, as `segment_plain` describes:
/// the leading sixteen bytes are the IV, the rest the ciphertext.
pub fn decrypt_segment(data: &Vec<u8>, key: &Vec<u8>) -> (r: Option<Vec<u8>>)
    ensures
        r is Some <==> segment_plain(key@, data@) is Some,
        r matches Some(v) ==> Some(v@) == segment_plain(key@, data@),
{
    if data.len() < 16 || key.len() != 16 {
        return None;
    }
    let iv = &data.as_slice()[0..16];
    let ct = &data.as_slice()[16..data.len()];
    proof {
        assert(iv@ =~= data@.subrange(0, 16));
        assert(ct@ =~= data@.subrange(16, data@.len() as int));
    }
    aes128_cbc_decrypt(key.as_slice(), iv, ct)
}

/// The plaintext of one stored segment under a hex-encoded key.
pub open spec fn segment_plain_hex(key_hex: Seq<char>, data: Seq<u8>) -> Option<Seq<u8>> {
    if valid_hex(key_hex) {
        segment_plain(hex_bytes_of(key_hex), data)
    } else {
        None
    }
}

/// Decrypts one stored segment with the key in its hex form, as the job
/// carries it: an undecodable key yields nothing.
pub fn decrypt_segment_hex_key(data: &Vec<u8>, key_hex: &str) -> (r: Option<Vec<u8>>)
    ensures
        r is Some <==> segment_plain_hex(key_hex@, data@) is Some,
        r matches Some(v) ==> Some(v@) == segment_plain_hex(key_hex@, data@),
{
    let key = match hex_decode(key_hex) {
        Some(k) => k,
        None => {
            return None;
        },
    };
    decrypt_segment(data, &key)
}

/// Law: carrying the key in hex form loses nothing — decrypting under the
/// encoded key is decrypting under the raw key.
pub proof fn lemma_hex_key_faithful(key: Seq<u8>, data: Seq<u8>)
    ensures
        segment_plain_hex(hex_chars_of(key), data) == segment_plain(key, data),
{
    lemma_hex_round_trip(key);
}

} // verus!
