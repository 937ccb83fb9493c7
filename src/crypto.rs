//! The cryptographic primitives of the encrypted session, from outside crates.
use vstd::prelude::*;

use aes::cipher::{block_padding::Pkcs7, generic_array::GenericArray, BlockDecryptMut, BlockEncryptMut, KeyIvInit};
use num::bigint::RandBigInt;
use num::BigUint;
use rand::RngCore;

use crate::bigendian::be_value;

verus! {

/// What HKDF-SHA256 derives from a salt (none: the default salt), input key
/// material, info and an output length.
pub uninterp spec fn hkdf_sha256_of(salt: Option<Seq<u8>>, ikm: Seq<u8>, info: Seq<u8>, len: nat) -> Seq<u8>;

/// The AES-128-CBC ciphertext, with PKCS#7 padding, of `plain` under `key` and `iv`.
pub uninterp spec fn aes128_cbc_encrypt_of(key: Seq<u8>, iv: Seq<u8>, plain: Seq<u8>) -> Seq<u8>;

/// The plaintext that AES-128-CBC decryption and PKCS#7 unpadding give for
/// `cipher` under `key` and `iv`; `None` when the length or the padding is wrong.
pub uninterp spec fn aes128_cbc_decrypt_of(key: Seq<u8>, iv: Seq<u8>, cipher: Seq<u8>) -> Option<Seq<u8>>;

/// The view of an optional byte slice.
pub open spec fn opt_bytes(o: Option<&[u8]>) -> Option<Seq<u8>> {
    match o {
        Some(b) => Some(b@),
        None => None,
    }
}

/// Relies on `num::BigUint::modpow` (with `from_bytes_be` and `to_bytes_be`):
/// `(base ^ exponent) % modulus`, big-endian; it panics on a zero modulus.
#[verifier::external_body]
pub(crate) fn mod_pow(base: &[u8], exponent: &[u8], modulus: &[u8]) -> (r: Vec<u8>)
    requires
        be_value(modulus@) > 0,
    ensures
        be_value(r@) as int == vstd::arithmetic::power::pow(be_value(base@) as int, be_value(exponent@))
            % (be_value(modulus@) as int),
{
    let m = BigUint::from_bytes_be(modulus);
    BigUint::from_bytes_be(base).modpow(&BigUint::from_bytes_be(exponent), &m).to_bytes_be()
}

/// Relies on `num::bigint::RandBigInt::gen_biguint` over `rand::rngs::OsRng`:
/// a random number of `bits` bits at most, big-endian. Nothing is promised of it.
#[verifier::external_body]
pub(crate) fn random_biguint(bits: u64) -> (r: Vec<u8>) {
    rand::rngs::OsRng.gen_biguint(bits).to_bytes_be()
}

/// Relies on `rand::RngCore::fill_bytes` of `rand::rngs::OsRng`: `n` random bytes.
#[verifier::external_body]
pub(crate) fn random_bytes(n: usize) -> (r: Vec<u8>)
    ensures
        r@.len() == n,
{
    let mut buf = vec![0u8; n];
    rand::rngs::OsRng.fill_bytes(&mut buf);
    buf
}

/// Relies on `hkdf::Hkdf::<sha2::Sha256>::new` and `expand`: `len` bytes of
/// output key material; `expand` refuses a length above 255 times the
/// 32-byte hash size.
#[verifier::external_body]
pub(crate) fn hkdf_sha256(salt: Option<&[u8]>, ikm: &[u8], info: &[u8], len: usize) -> (r: Option<Vec<u8>>)
    ensures
        r is Some <==> len <= 255 * 32,
        r matches Some(k) ==> k@ == hkdf_sha256_of(opt_bytes(salt), ikm@, info@, len as nat) && k@.len() == len,
{
    let mut okm = vec![0u8; len];
    match hkdf::Hkdf::<sha2::Sha256>::new(salt, ikm).expand(info, &mut okm) {
        Ok(()) => Some(okm),
        Err(_) => None,
    }
}

/// Relies on `cbc::Encryptor::<aes::Aes128>::encrypt_padded_vec_mut::<Pkcs7>`:
/// the ciphertext, which `cbc::Decryptor` turns back into `plain` under the
/// same key and IV (the round trip that the cbc crate documents).
#[verifier::external_body]
pub(crate) fn aes128_cbc_encrypt(key: &[u8], iv: &[u8], plain: &[u8]) -> (r: Vec<u8>)
    requires
        key@.len() == 16,
        iv@.len() == 16,
    ensures
        r@ == aes128_cbc_encrypt_of(key@, iv@, plain@),
        aes128_cbc_decrypt_of(key@, iv@, r@) == Some(plain@),
{
    cbc::Encryptor::<aes::Aes128>::new(GenericArray::from_slice(key), GenericArray::from_slice(iv))
        .encrypt_padded_vec_mut::<Pkcs7>(plain)
}

/// Relies on `cbc::Decryptor::<aes::Aes128>::decrypt_padded_vec_mut::<Pkcs7>`:
/// the plaintext, or `None` on a length or padding error.
#[verifier::external_body]
pub(crate) fn aes128_cbc_decrypt(key: &[u8], iv: &[u8], cipher: &[u8]) -> (r: Option<Vec<u8>>)
    requires
        key@.len() == 16,
        iv@.len() == 16,
    ensures
        match r {
            Some(p) => aes128_cbc_decrypt_of(key@, iv@, cipher@) == Some(p@),
            None => aes128_cbc_decrypt_of(key@, iv@, cipher@) is None,
        },
{
    cbc::Decryptor::<aes::Aes128>::new(GenericArray::from_slice(key), GenericArray::from_slice(iv))
        .decrypt_padded_vec_mut::<Pkcs7>(cipher)
        .ok()
}

} // verus!
