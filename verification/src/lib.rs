//! An encrypted, integrity-protected container ("vault") for named secret
//! values, unlocked by key material read from a key-file image, derived from
//! a password against the vault's persisted salt, or generated fresh from a
//! secure random source.
//!
//! The library works on plain values: a vault travels as its byte image, and
//! key files as their byte contents. Opening, reading and writing the files
//! themselves is the caller's concern.

use vstd::prelude::*;

mod crypto;
mod errors;
mod format;
mod keys;
mod keysource;
mod vault;

pub use errors::Error;
pub use format::{
    all_sizes_fit, entry_sizes_fit, lemma_vault_image_round_trip, parse_vault, ser_vault,
    VAULT_VERSION,
};
pub use keys::{lemma_key_export_import, KeyMaterial};
pub use keysource::{
    file_derived, lemma_export_then_import, lemma_password_determinism, password_derived,
    KeySource,
};
pub use vault::{entry_authentic, entry_plain, names_unique, EntryView, Vault, VaultEntry};

verus! {

/// Length in bytes of each symmetric key (encryption key and HMAC key).
pub const KEY_LENGTH: usize = 32;

/// Number of keys held by a `KeyMaterial` value.
pub const KEY_COUNT: usize = 2;

/// Length in bytes of the vault salt and of each entry's nonce (the AES-CBC
/// initialisation vector size).
pub const IV_SIZE: usize = 16;

/// The primary interface of the secure store: one vault and the session's
/// key material, owned exclusively for the manager's lifetime.
pub struct SecretsManager {
    pub vault: Vault,
    pub keys: KeyMaterial,
}

impl SecretsManager {
    /// The vault and the keys are well-formed.
    pub open spec fn wf(&self) -> bool {
        self.vault.wf() && self.keys.wf()
    }

    /// What retrieving `name` yields, as a pure function of the manager's
    /// state: the stored entry's plaintext decoded as text, or the error
    /// naming what failed.
    pub open spec fn retrieve_spec(&self, name: Seq<char>) -> Result<Seq<char>, Error> {
        if !self.vault.entry_map().contains_key(name) {
            Err(Error::NotFound)
        } else {
            match entry_plain(
                self.vault.entry_map()[name],
                self.keys.encryption@,
                self.keys.hmac@,
            ) {
                None => Err(Error::AuthenticationFailure),
                Some(pt) => if vstd::utf8::valid_utf8(pt) {
                    Ok(vstd::utf8::decode_utf8(pt))
                } else {
                    Err(Error::Serialization)
                },
            }
        }
    }

    /// Creates a new, empty vault with a fresh random salt and resolves the
    /// key source against it. The salt is established before any key
    /// derivation, so a password source works from the first moment. The
    /// caller must refuse to create a vault over an existing file.
    pub fn new(key_source: KeySource) -> (r: Result<SecretsManager, Error>)
        ensures
            r matches Ok(m) ==> m.wf() && m.vault.entry_map() == Map::<
                Seq<char>,
                EntryView,
            >::empty() && (m.vault.salt_view() matches Some(sv) && sv.len() == IV_SIZE),
            r matches Ok(m) ==> match key_source {
                KeySource::Password(pw) => (m.vault.salt_view() matches Some(sv)
                    && password_derived(m.keys, pw@, sv)),
                KeySource::File(d) => file_derived(m.keys, d@),
                KeySource::Generate => true,
            },
            r matches Err(e) ==> e == Error::RngFailure || (e == Error::Io && (
            key_source matches KeySource::File(d) && d@.len() < KEY_COUNT * KEY_LENGTH)),
            (key_source matches KeySource::File(d) && d@.len() < KEY_COUNT * KEY_LENGTH) ==> r
                is Err,
    {
        let salt = crypto::fill_random(IV_SIZE)?;
        let vault = Vault::empty(Some(salt));
        let keys = key_source.extract_keys(&vault.salt)?;
        Ok(SecretsManager { vault, keys })
    }

    /// Opens an existing vault from its byte image and resolves the key
    /// source against its persisted salt. Fails with `Serialization` when
    /// the image is not a well-formed vault; with `MissingSalt` when a
    /// password source meets a vault that never had a salt; with `Io` when a
    /// key-file image is shorter than two keys.
    pub fn load(data: &[u8], key_source: KeySource) -> (r: Result<SecretsManager, Error>)
        ensures
            r matches Ok(m) ==> m.wf() && parse_vault(data@) == Some(
                (m.vault.salt_view(), m.vault.entries_view()),
            ),
            r matches Ok(m) ==> match key_source {
                KeySource::Password(pw) => (m.vault.salt_view() matches Some(sv)
                    && password_derived(m.keys, pw@, sv)),
                KeySource::File(d) => file_derived(m.keys, d@),
                KeySource::Generate => true,
            },
            (parse_vault(data@) is None || (parse_vault(data@) matches Some(p) && !names_unique(
                p.1,
            ))) ==> r == Err::<SecretsManager, Error>(Error::Serialization),
            (parse_vault(data@) matches Some(p) && names_unique(p.1) && p.0 is None
                && key_source matches KeySource::Password(_)) ==> r == Err::<
                SecretsManager,
                Error,
            >(Error::MissingSalt),
            r matches Err(e) ==> e == Error::Serialization || e == Error::MissingSalt || e
                == Error::Io || e == Error::RngFailure,
            r == Err::<SecretsManager, Error>(Error::Serialization) ==> parse_vault(data@)
                is None || (parse_vault(data@) matches Some(p) && !names_unique(p.1)),
            r == Err::<SecretsManager, Error>(Error::MissingSalt) ==> (parse_vault(data@)
                matches Some(p) && p.0 is None) && key_source matches KeySource::Password(_),
            r == Err::<SecretsManager, Error>(Error::Io) ==> (key_source matches KeySource::File(
                d,
            ) && d@.len() < KEY_COUNT * KEY_LENGTH),
            (key_source matches KeySource::File(d) && d@.len() < KEY_COUNT * KEY_LENGTH) ==> r
                is Err,
            r == Err::<SecretsManager, Error>(Error::RngFailure) ==> (key_source matches
                KeySource::Password(_) || key_source matches KeySource::Generate),
    {
        let vault = Vault::from_bytes(data)?;
        let keys = key_source.extract_keys(&vault.salt)?;
        Ok(SecretsManager { vault, keys })
    }

    /// Serializes the vault (salt and entries) into its byte image; the
    /// caller persists it. Parsing the image yields the vault back, so
    /// nothing is lost between a save and the next load.
    pub fn save(&self) -> (r: Vec<u8>)
        requires
            self.wf(),
        ensures
            r@ == ser_vault(self.vault.salt_view(), self.vault.entries_view()),
    {
        self.vault.to_bytes()
    }

    /// Exports the session's key material in the flat key-file layout
    /// consumed by `KeySource::File`: encryption key bytes followed by
    /// authentication key bytes.
    pub fn export_keys(&self) -> (r: Vec<u8>)
        requires
            self.wf(),
        ensures
            r@ == self.keys.export_view(),
            r@.len() == KEY_COUNT * KEY_LENGTH,
    {
        self.keys.to_bytes()
    }

    /// Stores a serialized value (any byte string the caller's serializer
    /// produced) under `name`, replacing any prior entry of that name: the
    /// bytes are encrypted under a fresh random nonce and authenticated, and
    /// the new entry decrypts back to exactly the stored bytes. On failure
    /// (the random source only) the manager is unchanged.
    pub fn set_bytes(&mut self, name: &str, value: &[u8]) -> (r: Result<(), Error>)
        requires
            old(self).wf(),
        ensures
            final(self).wf(),
            r is Ok ==> (exists|ev: EntryView|
                {
                    &&& final(self).vault.entry_map() == old(self).vault.entry_map().insert(
                        name@,
                        ev,
                    )
                    &&& #[trigger] entry_plain(
                        ev,
                        old(self).keys.encryption@,
                        old(self).keys.hmac@,
                    ) == Some(value@)
                    &&& entry_sizes_fit(name@, ev)
                }),
            final(self).keys == old(self).keys,
            final(self).vault.salt_view() == old(self).vault.salt_view(),
            r matches Err(e) ==> e == Error::RngFailure && *final(self) == *old(self),
    {
        let entry = match vault::encrypt_entry(value, &self.keys) {
            Ok(entry) => entry,
            Err(e) => {
                return Err(e);
            },
        };
        let ghost ev = entry@;
        let name_bytes = name.as_bytes();
        proof {
            broadcast use vstd::slice::axiom_spec_len;

            assert(vstd::slice::spec_slice_len(name_bytes) == name_bytes@.len());
            assert(name_bytes@ == vstd::utf8::encode_utf8(name@));
            assert(entry_sizes_fit(name@, ev));
            assert(entry_plain(ev, self.keys.encryption@, self.keys.hmac@) == Some(value@));
        }
        self.vault.set_entry(name.to_owned(), entry);
        Ok(())
    }

    /// Stores a text value under `name`: its UTF-8 bytes go through
    /// `set_bytes`.
    pub fn set(&mut self, name: &str, value: &str) -> (r: Result<(), Error>)
        requires
            old(self).wf(),
        ensures
            final(self).wf(),
            r is Ok ==> (exists|ev: EntryView|
                {
                    &&& final(self).vault.entry_map() == old(self).vault.entry_map().insert(
                        name@,
                        ev,
                    )
                    &&& #[trigger] entry_plain(
                        ev,
                        old(self).keys.encryption@,
                        old(self).keys.hmac@,
                    ) == Some(vstd::utf8::encode_utf8(value@))
                    &&& entry_sizes_fit(name@, ev)
                }),
            final(self).keys == old(self).keys,
            final(self).vault.salt_view() == old(self).vault.salt_view(),
            r matches Err(e) ==> e == Error::RngFailure && *final(self) == *old(self),
    {
        self.set_bytes(name, value.as_bytes())
    }

    /// The serialized bytes retrieval yields for `name`, before any decoding
    /// by the caller's serializer.
    pub open spec fn retrieve_bytes_spec(&self, name: Seq<char>) -> Result<Seq<u8>, Error> {
        if !self.vault.entry_map().contains_key(name) {
            Err(Error::NotFound)
        } else {
            match entry_plain(
                self.vault.entry_map()[name],
                self.keys.encryption@,
                self.keys.hmac@,
            ) {
                None => Err(Error::AuthenticationFailure),
                Some(pt) => Ok(pt),
            }
        }
    }

    /// Retrieves the serialized bytes stored under `name`: fails with
    /// `NotFound` for an absent name and with `AuthenticationFailure` when
    /// the entry does not authenticate or decrypt (tamper or wrong key,
    /// deliberately not told apart). Apart from a failure of the
    /// cryptographic provider itself, the result is exactly
    /// `retrieve_bytes_spec`.
    pub fn retrieve_bytes(&self, name: &str) -> (r: Result<Vec<u8>, Error>)
        requires
            self.wf(),
        ensures
            r matches Ok(pt) ==> self.retrieve_bytes_spec(name@) == Ok::<Seq<u8>, Error>(pt@),
            r matches Err(e) ==> e == Error::RngFailure || self.retrieve_bytes_spec(name@)
                == Err::<Seq<u8>, Error>(e),
            !self.vault.entry_map().contains_key(name@) ==> r == Err::<Vec<u8>, Error>(
                Error::NotFound,
            ),
    {
        let owned: String = name.to_owned();
        match self.vault.get_entry(&owned) {
            None => Err(Error::NotFound),
            Some(entry) => vault::decrypt_entry(entry, &self.keys),
        }
    }

    /// Retrieves the text value stored under `name`: the stored bytes of
    /// `retrieve_bytes`, decoded as UTF-8, failing with `Serialization` when
    /// they are not valid text. Apart from a failure of the cryptographic
    /// provider itself, the result is exactly `retrieve_spec`.
    pub fn retrieve(&self, name: &str) -> (r: Result<String, Error>)
        requires
            self.wf(),
        ensures
            r matches Ok(s) ==> self.retrieve_spec(name@) == Ok::<Seq<char>, Error>(s@),
            r matches Err(e) ==> e == Error::RngFailure || self.retrieve_spec(name@) == Err::<
                Seq<char>,
                Error,
            >(e),
            !self.vault.entry_map().contains_key(name@) ==> r == Err::<String, Error>(
                Error::NotFound,
            ),
    {
        match self.retrieve_bytes(name) {
            Err(e) => Err(e),
            Ok(pt) => {
                let ghost ptv = pt@;
                match crypto::bytes_to_string(pt) {
                    Ok(s) => Ok(s),
                    Err(e) => Err(e),
                }
            },
        }
    }
}

/// Round trip of one secret: once an entry whose plaintext is the text
/// `value` stands under `name`, retrieving `name` yields exactly `value`.
/// Together with `set`'s contract this says that `retrieve(n)` after
/// `set(n, v)` returns `v`, whichever key source produced the keys.
pub proof fn lemma_set_then_retrieve(m: SecretsManager, name: Seq<char>, value: Seq<char>)
    requires
        m.wf(),
        m.vault.entry_map().contains_key(name),
        entry_plain(m.vault.entry_map()[name], m.keys.encryption@, m.keys.hmac@) == Some(
            vstd::utf8::encode_utf8(value),
        ),
    ensures
        m.retrieve_spec(name) == Ok::<Seq<char>, Error>(value),
{
    vstd::utf8::encode_utf8_valid_utf8(value);
    vstd::utf8::encode_utf8_decode_utf8(value);
}

/// Round trip of the whole store: a manager loaded from a saved image, with
/// key material equal to the saver's, retrieves every name exactly as the
/// saver would have.
pub proof fn lemma_save_load_retrieve(m1: SecretsManager, m2: SecretsManager, name: Seq<char>)
    requires
        m1.wf(),
        m2.wf(),
        all_sizes_fit(m1.vault.entries_view()),
        m1.vault.entries_view().len() < 0x1_0000_0000_0000_0000,
        parse_vault(ser_vault(m1.vault.salt_view(), m1.vault.entries_view())) == Some(
            (m2.vault.salt_view(), m2.vault.entries_view()),
        ),
        m2.keys.encryption@ == m1.keys.encryption@,
        m2.keys.hmac@ == m1.keys.hmac@,
    ensures
        m2.vault.entries_view() == m1.vault.entries_view(),
        m2.vault.salt_view() == m1.vault.salt_view(),
        m2.retrieve_spec(name) == m1.retrieve_spec(name),
{
    lemma_vault_image_round_trip(m1.vault.salt_view(), m1.vault.entries_view());
}

/// Tamper detection: an entry whose stored MAC is not the genuine MAC of its
/// nonce and ciphertext under the session's authentication key is never
/// decrypted; retrieval reports an authentication failure. Any bit flip in
/// the stored MAC, and any change to the nonce or ciphertext that changes
/// their MAC, falls under this.
pub proof fn lemma_tamper_detected(m: SecretsManager, name: Seq<char>)
    requires
        m.wf(),
        m.vault.entry_map().contains_key(name),
        !entry_authentic(m.vault.entry_map()[name], m.keys.hmac@),
    ensures
        m.retrieve_spec(name) == Err::<Seq<char>, Error>(Error::AuthenticationFailure),
{
}

} // verus!
