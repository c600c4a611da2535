//! Trusted boundary around the cryptographic provider (the `openssl` crate)
//! and around UTF-8 decoding. Each function here wraps one provider
//! operation (for the HMAC, the provider's key-and-signer chain that makes
//! up one tag computation); everything built on top of these contracts is
//! verified.

use vstd::prelude::*;

use crate::errors::Error;

verus! {

/// Iterations of password-based key derivation. A fixed constant of the
/// vault format: any compliant implementation reproduces the same keys for
/// the same password and salt.
pub const PBKDF2_ROUNDS: usize = 8192;

/// The largest buffer the provider accepts in one call: it passes lengths as
/// C `int`s and panics on anything longer, so every wrapper here requires
/// its inputs to be within this bound.
pub const PROVIDER_INPUT_MAX: usize = 0x7fff_ffff;

/// Length in bytes of a MAC tag (HMAC-SHA256 output).
pub const MAC_LENGTH: usize = 32;

/// The block of key bytes that password-based derivation yields for a given
/// password and salt. Derivation is a pure function of the two (the rounds
/// and the hash primitive are fixed constants), which is what makes a
/// password-derived key reproducible across sessions.
pub uninterp spec fn kdf_of(password: Seq<u8>, salt: Seq<u8>) -> Seq<u8>;

/// What decrypting a ciphertext under a key and nonce yields: the recovered
/// plaintext, or nothing when the ciphertext is not a well-formed encryption
/// under that key and nonce.
pub uninterp spec fn cipher_dec(key: Seq<u8>, nonce: Seq<u8>, ciphertext: Seq<u8>) -> Option<
    Seq<u8>,
>;

/// The MAC tag over a message under an authentication key: a pure function
/// of the two.
pub uninterp spec fn mac_of(key: Seq<u8>, msg: Seq<u8>) -> Seq<u8>;

/// Relies on `openssl::rand::rand_bytes`: fills a buffer of the requested
/// length from a cryptographically secure random source, failing only when
/// that source is unavailable. It asserts the buffer length fits a C `int`,
/// so longer requests are excluded here. Nothing can be promised of the
/// bytes themselves.
#[verifier::external_body]
pub(crate) fn fill_random(n: usize) -> (r: Result<Vec<u8>, Error>)
    requires
        n <= PROVIDER_INPUT_MAX,
    ensures
        r matches Ok(v) ==> v@.len() == n,
        r matches Err(e) ==> e == Error::RngFailure,
{
    let mut buf = vec![0u8; n];
    match openssl::rand::rand_bytes(&mut buf) {
        Ok(()) => Ok(buf),
        Err(_) => Err(Error::RngFailure),
    }
}

/// Relies on `openssl::pkcs5::pbkdf2_hmac` (PBKDF2 with HMAC-SHA1): fills a
/// block of `KEY_COUNT * KEY_LENGTH` bytes deterministically from the
/// password, the salt, the fixed iteration count and the fixed hash
/// primitive; fails only on a catastrophic provider failure. Password and
/// salt lengths are handed to the provider as C `int`s, which panic on
/// longer inputs, so those are excluded here.
#[verifier::external_body]
pub(crate) fn pbkdf2_derive(password: &[u8], salt: &[u8]) -> (r: Result<Vec<u8>, Error>)
    requires
        password@.len() <= PROVIDER_INPUT_MAX,
        salt@.len() <= PROVIDER_INPUT_MAX,
    ensures
        r matches Ok(v) ==> v@ == kdf_of(password@, salt@) && v@.len() == crate::KEY_COUNT
            * crate::KEY_LENGTH,
        r matches Err(e) ==> e == Error::RngFailure,
{
    let mut out = vec![0u8; crate::KEY_COUNT * crate::KEY_LENGTH];
    match openssl::pkcs5::pbkdf2_hmac(
        password,
        salt,
        PBKDF2_ROUNDS,
        openssl::hash::MessageDigest::sha1(),
        &mut out,
    ) {
        Ok(()) => Ok(out),
        Err(_) => Err(Error::RngFailure),
    }
}

/// Relies on `openssl::symm::encrypt` with AES-256-CBC: the returned
/// ciphertext decrypts back to the plaintext under the same key and nonce
/// (decryption inverts encryption), which is all callers build on. The
/// plaintext length is handed to the provider as a C `int`, which panics on
/// longer inputs, so those are excluded here; the ciphertext, like any
/// buffer, fits in memory.
#[verifier::external_body]
pub(crate) fn aes_encrypt(key: &[u8], nonce: &[u8], plaintext: &[u8]) -> (r: Result<
    Vec<u8>,
    Error,
>)
    requires
        key@.len() == 32,
        nonce@.len() == 16,
        plaintext@.len() <= PROVIDER_INPUT_MAX,
    ensures
        r matches Ok(ct) ==> cipher_dec(key@, nonce@, ct@) == Some(plaintext@) && ct@.len()
            <= usize::MAX,
        r matches Err(e) ==> e == Error::RngFailure,
{
    match openssl::symm::encrypt(openssl::symm::Cipher::aes_256_cbc(), key, Some(nonce), plaintext)
    {
        Ok(ct) => Ok(ct),
        Err(_) => Err(Error::RngFailure),
    }
}

/// Relies on `openssl::symm::decrypt` with AES-256-CBC: returns the plaintext
/// exactly when the ciphertext is a well-formed encryption under the key and
/// nonce (`cipher_dec` names its result), and fails otherwise (for AES-CBC,
/// on bad padding). The ciphertext length is handed to the provider as a C
/// `int`, which panics on longer inputs, so those are excluded here.
#[verifier::external_body]
pub(crate) fn aes_decrypt(key: &[u8], nonce: &[u8], ciphertext: &[u8]) -> (r: Result<
    Vec<u8>,
    Error,
>)
    requires
        key@.len() == 32,
        nonce@.len() == 16,
        ciphertext@.len() <= PROVIDER_INPUT_MAX,
    ensures
        r matches Ok(pt) ==> cipher_dec(key@, nonce@, ciphertext@) == Some(pt@),
        r is Ok <==> cipher_dec(key@, nonce@, ciphertext@) is Some,
        r matches Err(e) ==> e == Error::AuthenticationFailure,
{
    match openssl::symm::decrypt(
        openssl::symm::Cipher::aes_256_cbc(),
        key,
        Some(nonce),
        ciphertext,
    ) {
        Ok(pt) => Ok(pt),
        Err(_) => Err(Error::AuthenticationFailure),
    }
}

/// Relies on `openssl::pkey::PKey::hmac` and `openssl::sign::Signer` with
/// SHA-256: the tag is a pure function of the key and the message (`mac_of`
/// names it), and HMAC-SHA256 tags are 32 bytes long. `PKey::hmac` asserts
/// the key length fits a C `int`, so longer keys are excluded here; the
/// message length is passed as `size_t` and needs no bound.
#[verifier::external_body]
pub(crate) fn hmac_tag(key: &[u8], msg: &[u8]) -> (r: Result<Vec<u8>, Error>)
    requires
        key@.len() <= PROVIDER_INPUT_MAX,
    ensures
        r matches Ok(t) ==> t@ == mac_of(key@, msg@) && t@.len() == MAC_LENGTH,
        r matches Err(e) ==> e == Error::RngFailure,
{
    let pkey = openssl::pkey::PKey::hmac(key).map_err(|_| Error::RngFailure)?;
    let mut signer = openssl::sign::Signer::new(openssl::hash::MessageDigest::sha256(), &pkey)
        .map_err(|_| Error::RngFailure)?;
    signer.update(msg).map_err(|_| Error::RngFailure)?;
    signer.sign_to_vec().map_err(|_| Error::RngFailure)
}

/// Relies on `openssl::memcmp::eq`: a constant-time byte comparison that
/// returns whether the two slices are equal; it panics on slices of unequal
/// length, so equal lengths are required here.
#[verifier::external_body]
pub(crate) fn ct_eq(a: &[u8], b: &[u8]) -> (r: bool)
    requires
        a@.len() == b@.len(),
    ensures
        r == (a@ == b@),
{
    openssl::memcmp::eq(a, b)
}

/// Relies on `String::from_utf8`: returns the string whose UTF-8 encoding is
/// the given bytes exactly when they are valid UTF-8, and fails otherwise.
#[verifier::external_body]
pub(crate) fn bytes_to_string(bytes: Vec<u8>) -> (r: Result<String, Error>)
    ensures
        r matches Ok(s) ==> vstd::utf8::valid_utf8(bytes@) && s@ == vstd::utf8::decode_utf8(
            bytes@,
        ),
        r is Ok <==> vstd::utf8::valid_utf8(bytes@),
        r matches Err(e) ==> e == Error::Serialization,
{
    match String::from_utf8(bytes) {
        Ok(s) => Ok(s),
        Err(_) => Err(Error::Serialization),
    }
}

} // verus!
