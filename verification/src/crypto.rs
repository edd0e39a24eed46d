//! The outside hash and cipher primitives the codec relies on, each behind a
//! trusted wrapper whose contract names its result.

use vstd::prelude::*;

verus! {

/// The MurmurHash3 32-bit digest of the given bytes under the given seed.
pub uninterp spec fn murmur3_of(data: Seq<u8>, seed: u32) -> u32;

/// The SHA-256 digest of the given bytes.
pub uninterp spec fn sha256_of(data: Seq<u8>) -> Seq<u8>;

/// The AES-256-CBC ciphertext (PKCS7 padded) of the given plaintext under the
/// given key and IV.
pub uninterp spec fn aes256cbc_enc(data: Seq<u8>, key: Seq<u8>, iv: Seq<u8>) -> Seq<u8>;

/// The AES-256-CBC decryption (PKCS7 unpadded) of the given ciphertext under
/// the given key and IV.
pub uninterp spec fn aes256cbc_dec(data: Seq<u8>, key: Seq<u8>, iv: Seq<u8>) -> Seq<u8>;

/// Relies on murmur3::murmur3_32: the hash is a function of the bytes and the
/// seed alone. Reading from a byte slice cannot fail, so the unwrap cannot
/// panic.
#[verifier::external_body]
pub(crate) fn murmur3_hash(data: &Vec<u8>, seed: u32) -> (r: u32)
    ensures
        r == murmur3_of(data@, seed),
{
    let mut s: &[u8] = data.as_slice();
    murmur3::murmur3_32(&mut s, seed).unwrap()
}

/// Relies on acr::hash::sha256: a 32-byte digest, a function of the input
/// bytes alone. Reading an in-memory buffer over its full range cannot fail.
#[verifier::external_body]
pub(crate) fn sha256_digest(data: &Vec<u8>) -> (r: Vec<u8>)
    ensures
        r@ == sha256_of(data@),
        r@.len() == 32,
{
    let mut reader = dh::data::read(data.clone());
    let h = acr::hash::sha256(&mut reader, 0, data.len() as u64).unwrap();
    h.to_vec()
}

/// Relies on acr::encryption::aes256cbc::encrypt (libaes CBC with PKCS7
/// padding): the ciphertext is a function of plaintext, key and IV alone.
/// libaes panics on an IV shorter than 16 bytes, so that is required away.
#[verifier::external_body]
pub(crate) fn aes_encrypt(data: &Vec<u8>, key: &Vec<u8>, iv: &Vec<u8>) -> (r: Vec<u8>)
    requires
        key@.len() == 32,
        iv@.len() == 16,
    ensures
        r@ == aes256cbc_enc(data@, key@, iv@),
{
    let mut reader = dh::data::read(data.clone());
    let key_arr: [u8; 32] = key.as_slice().try_into().unwrap();
    let iv_arr: [u8; 16] = iv.as_slice().try_into().unwrap();
    acr::encryption::aes256cbc::encrypt(&mut reader, &key_arr, &iv_arr, 0, data.len() as u64)
        .unwrap()
}

/// Relies on acr::encryption::aes256cbc::decrypt (libaes CBC with PKCS7
/// padding): the plaintext is a function of ciphertext, key and IV alone, and
/// decryption inverts encryption under the same key and IV, as the cipher's
/// documentation shows. libaes panics on an IV shorter than 16 bytes, so that
/// is required away.
#[verifier::external_body]
pub(crate) fn aes_decrypt(data: &Vec<u8>, key: &Vec<u8>, iv: &Vec<u8>) -> (r: Vec<u8>)
    requires
        key@.len() == 32,
        iv@.len() == 16,
    ensures
        r@ == aes256cbc_dec(data@, key@, iv@),
        forall|p: Seq<u8>| data@ == aes256cbc_enc(p, key@, iv@) ==> r@ == p,
{
    let mut reader = dh::data::read(data.clone());
    let key_arr: [u8; 32] = key.as_slice().try_into().unwrap();
    let iv_arr: [u8; 16] = iv.as_slice().try_into().unwrap();
    acr::encryption::aes256cbc::decrypt(&mut reader, &key_arr, &iv_arr, 0, data.len() as u64)
        .unwrap()
}

/// Relies on String::from_utf8: it succeeds exactly on valid UTF-8 and
/// decodes it.
#[verifier::external_body]
pub(crate) fn bytes_to_string(v: Vec<u8>) -> (r: Option<String>)
    ensures
        r is Some <==> vstd::utf8::valid_utf8(v@),
        r matches Some(s) ==> s@ == vstd::utf8::decode_utf8(v@),
{
    match String::from_utf8(v) {
        Ok(s) => Some(s),
        Err(_) => None,
    }
}

} // verus!
