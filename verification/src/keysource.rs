//! Key-acquisition strategies: read raw key material from a key-file image,
//! derive it from a password against the vault's persisted salt, or generate
//! it fresh from a secure random source.

use vstd::prelude::*;

use crate::crypto;
use crate::errors::Error;
use crate::keys::KeyMaterial;
use crate::{KEY_COUNT, KEY_LENGTH};

verus! {

/// Where the session's key material comes from. Consumed once to produce a
/// `KeyMaterial`.
pub enum KeySource {
    /// The raw contents of a binary key file (read by the caller).
    File(Vec<u8>),
    /// Derive keys from this password and the vault's persisted salt.
    Password(String),
    /// Generate new keys from a secure random source.
    Generate,
}

/// The block of bytes that password-based derivation yields for a password
/// and a salt: a pure function of the two.
pub open spec fn password_block(password: Seq<char>, salt: Seq<u8>) -> Seq<u8> {
    crypto::kdf_of(vstd::utf8::encode_utf8(password), salt)
}

/// The two keys `k` carries are the two halves of the derivation block for
/// `password` and `salt`.
pub open spec fn password_derived(k: KeyMaterial, password: Seq<char>, salt: Seq<u8>) -> bool {
    &&& k.encryption@ == password_block(password, salt).subrange(0, KEY_LENGTH as int)
    &&& k.hmac@ == password_block(password, salt).subrange(
        KEY_LENGTH as int,
        (KEY_COUNT * KEY_LENGTH) as int,
    )
}

/// The two keys `k` carries are the two halves of the key-file image `data`.
pub open spec fn file_derived(k: KeyMaterial, data: Seq<u8>) -> bool {
    &&& k.encryption@ == data.subrange(0, KEY_LENGTH as int)
    &&& k.hmac@ == data.subrange(KEY_LENGTH as int, (KEY_COUNT * KEY_LENGTH) as int)
}

impl KeySource {
    /// Resolves this strategy into key material, given the vault's persisted
    /// salt.
    ///
    /// - `File`: succeeds exactly when the image holds at least two keys;
    ///   the first two key-lengths are read sequentially and anything after
    ///   them is ignored. A short image is a hard failure, never padded.
    /// - `Password`: fails with `MissingSalt` when the vault has no salt;
    ///   otherwise the keys are the two halves of one derivation block, so
    ///   the same password and salt always reproduce the same keys. A
    ///   password beyond what the provider can process is reported as a
    ///   provider failure.
    /// - `Generate`: draws both keys from the secure random source, failing
    ///   only on a catastrophic source failure.
    pub fn extract_keys(&self, salt: &Option<Vec<u8>>) -> (r: Result<KeyMaterial, Error>)
        requires
            salt matches Some(s) ==> s@.len() <= crypto::PROVIDER_INPUT_MAX,
        ensures
            r matches Ok(k) ==> k.wf(),
            self matches KeySource::File(data) ==> {
                &&& (r is Ok <==> data@.len() >= KEY_COUNT * KEY_LENGTH)
                &&& (r matches Ok(k) ==> file_derived(k, data@))
                &&& (r matches Err(e) ==> e == Error::Io)
            },
            self matches KeySource::Password(pw) ==> {
                &&& (salt is None ==> r == Err::<KeyMaterial, Error>(Error::MissingSalt))
                &&& (salt matches Some(s) ==> (r matches Ok(k) ==> password_derived(k, pw@, s@))
                    && (r matches Err(e) ==> e == Error::RngFailure))
            },
            self matches KeySource::Generate ==> (r matches Err(e) ==> e == Error::RngFailure),
    {
        match self {
            KeySource::Generate => {
                let encryption = crypto::fill_random(KEY_LENGTH)?;
                let hmac = crypto::fill_random(KEY_LENGTH)?;
                Ok(KeyMaterial { encryption, hmac })
            },
            KeySource::File(data) => KeyMaterial::from_bytes(data.as_slice()),
            KeySource::Password(password) => {
                match salt {
                    None => Err(Error::MissingSalt),
                    Some(salt_bytes) => {
                        let password_bytes = password.as_str().as_bytes();
                        if password_bytes.len() > crypto::PROVIDER_INPUT_MAX {
                            return Err(Error::RngFailure);
                        }
                        let block = crypto::pbkdf2_derive(
                            password_bytes,
                            salt_bytes.as_slice(),
                        )?;
                        let enc_part = vstd::slice::slice_subrange(
                            block.as_slice(),
                            0,
                            KEY_LENGTH,
                        );
                        let mac_part = vstd::slice::slice_subrange(
                            block.as_slice(),
                            KEY_LENGTH,
                            KEY_COUNT * KEY_LENGTH,
                        );
                        Ok(
                            KeyMaterial {
                                encryption: vstd::slice::slice_to_vec(enc_part),
                                hmac: vstd::slice::slice_to_vec(mac_part),
                            },
                        )
                    },
                }
            },
        }
    }
}

/// Key export/import: a key pair resolved from a `File` source over an
/// exported key image is byte-identical to the pair that was exported.
pub proof fn lemma_export_then_import(k: KeyMaterial, k2: KeyMaterial)
    requires
        k.wf(),
        file_derived(k2, k.export_view()),
    ensures
        k2.encryption@ == k.encryption@,
        k2.hmac@ == k.hmac@,
{
    crate::keys::lemma_key_export_import(k.encryption@, k.hmac@);
}

/// Salt stability: password-based derivation is deterministic. Any two key
/// pairs derived from the same password and the same persisted salt are
/// byte-identical.
pub proof fn lemma_password_determinism(
    k1: KeyMaterial,
    k2: KeyMaterial,
    password: Seq<char>,
    salt: Seq<u8>,
)
    requires
        password_derived(k1, password, salt),
        password_derived(k2, password, salt),
    ensures
        k1.encryption@ == k2.encryption@,
        k1.hmac@ == k2.hmac@,
{
}

} // verus!
