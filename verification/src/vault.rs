//! The vault: a persisted salt plus a mapping from secret name to an
//! authenticated-encryption record, with the per-entry encrypt and decrypt
//! routines (encrypt-then-MAC, authenticate-before-decrypt).

use vstd::prelude::*;

use crate::crypto;
use crate::errors::Error;
use crate::keys::KeyMaterial;
use crate::crypto::MAC_LENGTH;
use crate::IV_SIZE;

verus! {

/// One encrypted, authenticated secret record: a fresh random nonce, the
/// ciphertext of the serialized secret under the encryption key, and a MAC
/// over (nonce ++ ciphertext) under the authentication key.
pub struct VaultEntry {
    pub nonce: Vec<u8>,
    pub ciphertext: Vec<u8>,
    pub mac: Vec<u8>,
}

/// The mathematical image of a `VaultEntry`.
pub struct EntryView {
    pub nonce: Seq<u8>,
    pub ciphertext: Seq<u8>,
    pub mac: Seq<u8>,
}

impl EntryView {
    /// The nonce has the fixed nonce size and the MAC the fixed tag length.
    pub open spec fn wf(&self) -> bool {
        self.nonce.len() == IV_SIZE && self.mac.len() == MAC_LENGTH
    }
}

impl View for VaultEntry {
    type V = EntryView;

    open spec fn view(&self) -> EntryView {
        EntryView { nonce: self.nonce@, ciphertext: self.ciphertext@, mac: self.mac@ }
    }
}

/// What an entry's MAC is computed over: its nonce followed by its
/// ciphertext, so that a substituted nonce is detected as well.
pub open spec fn mac_input(e: EntryView) -> Seq<u8> {
    e.nonce + e.ciphertext
}

/// The entry's stored MAC is the genuine MAC of its nonce and ciphertext
/// under the authentication key.
pub open spec fn entry_authentic(e: EntryView, mac_key: Seq<u8>) -> bool {
    e.mac == crypto::mac_of(mac_key, mac_input(e))
}

/// What an entry decrypts to under a key pair: the plaintext exactly when
/// the entry is authentic and its ciphertext is a well-formed encryption
/// under the encryption key and the stored nonce; nothing otherwise.
pub open spec fn entry_plain(e: EntryView, enc_key: Seq<u8>, mac_key: Seq<u8>) -> Option<Seq<u8>> {
    if entry_authentic(e, mac_key) {
        crypto::cipher_dec(enc_key, e.nonce, e.ciphertext)
    } else {
        None
    }
}

/// Encrypts one plaintext into a fresh entry: draws a fresh random nonce,
/// encrypts under the encryption key, then MACs (nonce ++ ciphertext) under
/// the authentication key. The produced entry decrypts back to exactly the
/// given plaintext under the same key pair. A plaintext beyond what the
/// provider can process in one call is reported as a provider failure.
pub fn encrypt_entry(plaintext: &[u8], keys: &KeyMaterial) -> (r: Result<VaultEntry, Error>)
    requires
        keys.wf(),
    ensures
        r matches Ok(e) ==> e@.wf() && entry_plain(e@, keys.encryption@, keys.hmac@) == Some(
            plaintext@,
        ) && e@.ciphertext.len() <= usize::MAX,
        r matches Err(e) ==> e == Error::RngFailure,
{
    if plaintext.len() > crypto::PROVIDER_INPUT_MAX {
        return Err(Error::RngFailure);
    }
    let nonce = crypto::fill_random(IV_SIZE)?;
    let ciphertext = crypto::aes_encrypt(keys.encryption.as_slice(), nonce.as_slice(), plaintext)?;
    let mut mac_data = vstd::slice::slice_to_vec(nonce.as_slice());
    let mut ct_copy = vstd::slice::slice_to_vec(ciphertext.as_slice());
    mac_data.append(&mut ct_copy);
    let mac = crypto::hmac_tag(keys.hmac.as_slice(), mac_data.as_slice())?;
    let entry = VaultEntry { nonce, ciphertext, mac };
    proof {
        assert(mac_input(entry@) =~= mac_data@);
    }
    Ok(entry)
}

/// Decrypts one entry: recomputes the MAC over the stored nonce and
/// ciphertext, compares it to the stored MAC in constant time, and only on a
/// match decrypts (authenticate-before-decrypt). A MAC mismatch and an
/// undecryptable ciphertext are reported as the same authentication failure,
/// so a caller cannot tell tampering from a wrong key. A ciphertext beyond
/// what the provider can process in one call is reported as a provider
/// failure, never as an authentication verdict.
pub fn decrypt_entry(entry: &VaultEntry, keys: &KeyMaterial) -> (r: Result<Vec<u8>, Error>)
    requires
        keys.wf(),
        entry@.wf(),
    ensures
        r matches Ok(pt) ==> entry_plain(entry@, keys.encryption@, keys.hmac@) == Some(pt@),
        r matches Err(e) ==> e == Error::AuthenticationFailure || e == Error::RngFailure,
        r == Err::<Vec<u8>, Error>(Error::AuthenticationFailure) ==> entry_plain(
            entry@,
            keys.encryption@,
            keys.hmac@,
        ) is None,
{
    let mut mac_data = vstd::slice::slice_to_vec(entry.nonce.as_slice());
    let mut ct_copy = vstd::slice::slice_to_vec(entry.ciphertext.as_slice());
    mac_data.append(&mut ct_copy);
    proof {
        assert(mac_input(entry@) =~= mac_data@);
    }
    let expected = crypto::hmac_tag(keys.hmac.as_slice(), mac_data.as_slice())?;
    if !crypto::ct_eq(expected.as_slice(), entry.mac.as_slice()) {
        return Err(Error::AuthenticationFailure);
    }
    if entry.ciphertext.len() > crypto::PROVIDER_INPUT_MAX {
        return Err(Error::RngFailure);
    }
    match crypto::aes_decrypt(
        keys.encryption.as_slice(),
        entry.nonce.as_slice(),
        entry.ciphertext.as_slice(),
    ) {
        Ok(pt) => Ok(pt),
        Err(_) => Err(Error::AuthenticationFailure),
    }
}

/// The mapping a sequence of named entries denotes: later occurrences of a
/// name override earlier ones (the vault's invariant keeps names unique, so
/// in a well-formed vault there is nothing to override).
pub open spec fn map_of(s: Seq<(Seq<char>, EntryView)>) -> Map<Seq<char>, EntryView>
    decreases s.len(),
{
    if s.len() == 0 {
        Map::empty()
    } else {
        map_of(s.drop_last()).insert(s.last().0, s.last().1)
    }
}

/// No name occurs twice in the sequence.
pub open spec fn names_unique(s: Seq<(Seq<char>, EntryView)>) -> bool
    decreases s.len(),
{
    s.len() == 0 || (names_unique(s.drop_last()) && !map_of(s.drop_last()).contains_key(
        s.last().0,
    ))
}

/// A name is in the denoted mapping exactly when some element carries it.
pub proof fn lemma_map_of_contains(s: Seq<(Seq<char>, EntryView)>, n: Seq<char>)
    ensures
        map_of(s).contains_key(n) <==> exists|i: int| 0 <= i < s.len() && s[i].0 == n,
    decreases s.len(),
{
    if s.len() > 0 {
        lemma_map_of_contains(s.drop_last(), n);
        if s.last().0 == n {
            assert(s[s.len() - 1].0 == n);
        } else {
            if map_of(s).contains_key(n) {
                let i = choose|i: int| 0 <= i < s.drop_last().len() && s.drop_last()[i].0 == n;
                assert(s[i].0 == n);
            }
            if exists|i: int| 0 <= i < s.len() && s[i].0 == n {
                let i = choose|i: int| 0 <= i < s.len() && s[i].0 == n;
                assert(s.drop_last()[i].0 == n);
            }
        }
    }
}

/// Under uniqueness, two distinct positions carry distinct names.
pub proof fn lemma_unique_distinct(s: Seq<(Seq<char>, EntryView)>, i: int, j: int)
    requires
        names_unique(s),
        0 <= i < j < s.len(),
    ensures
        s[i].0 != s[j].0,
    decreases s.len(),
{
    if j == s.len() - 1 {
        lemma_map_of_contains(s.drop_last(), s[j].0);
        assert(s.drop_last()[i] == s[i]);
    } else {
        lemma_unique_distinct(s.drop_last(), i, j);
    }
}

/// Under uniqueness, the mapping sends each element's name to its entry.
pub proof fn lemma_map_of_index(s: Seq<(Seq<char>, EntryView)>, i: int)
    requires
        names_unique(s),
        0 <= i < s.len(),
    ensures
        map_of(s).contains_key(s[i].0),
        map_of(s)[s[i].0] == s[i].1,
    decreases s.len(),
{
    if i < s.len() - 1 {
        lemma_map_of_index(s.drop_last(), i);
        lemma_unique_distinct(s, i, s.len() - 1);
        assert(s.drop_last()[i] == s[i]);
    }
}

/// Removing the element at a position removes exactly its name from the
/// denoted mapping, and keeps the remaining names unique.
pub proof fn lemma_map_of_remove(s: Seq<(Seq<char>, EntryView)>, i: int)
    requires
        names_unique(s),
        0 <= i < s.len(),
    ensures
        names_unique(s.remove(i)),
        map_of(s.remove(i)) == map_of(s).remove(s[i].0),
    decreases s.len(),
{
    let n = s[i].0;
    if i == s.len() - 1 {
        assert(s.remove(i) =~= s.drop_last());
        lemma_map_of_contains(s.drop_last(), n);
        assert(map_of(s.drop_last()) =~= map_of(s).remove(n));
    } else {
        let t = s.remove(i);
        assert(t.drop_last() =~= s.drop_last().remove(i));
        assert(t.last() == s.last());
        lemma_map_of_remove(s.drop_last(), i);
        lemma_unique_distinct(s, i, s.len() - 1);
        assert(s.drop_last()[i] == s[i]);
        assert(!map_of(t.drop_last()).contains_key(t.last().0));
        assert(map_of(t) =~= map_of(s).remove(n));
    }
}

/// Appending a fresh name inserts exactly it into the denoted mapping, and
/// keeps the names unique.
pub proof fn lemma_map_of_push(s: Seq<(Seq<char>, EntryView)>, name: Seq<char>, e: EntryView)
    requires
        names_unique(s),
        !map_of(s).contains_key(name),
    ensures
        names_unique(s.push((name, e))),
        map_of(s.push((name, e))) == map_of(s).insert(name, e),
{
    assert(s.push((name, e)).drop_last() =~= s);
    assert(s.push((name, e)).last() == (name, e));
}

/// The (name, entry) images of a sequence of stored pairs.
pub open spec fn pairs_view(s: Seq<(String, VaultEntry)>) -> Seq<(Seq<char>, EntryView)> {
    Seq::new(s.len(), |i: int| (s[i].0@, s[i].1@))
}

/// The on-disk encrypted container: a persisted salt (generated once, at
/// vault creation, and never changed thereafter) and the named entries.
pub struct Vault {
    pub salt: Option<Vec<u8>>,
    pub entries: Vec<(String, VaultEntry)>,
}

impl Vault {
    /// The entries as a sequence of (name, entry image) pairs.
    pub open spec fn entries_view(&self) -> Seq<(Seq<char>, EntryView)> {
        pairs_view(self.entries@)
    }

    /// The persisted salt as bytes.
    pub open spec fn salt_view(&self) -> Option<Seq<u8>> {
        match self.salt {
            Some(v) => Some(v@),
            None => None,
        }
    }

    /// The mapping from secret name to stored entry.
    pub open spec fn entry_map(&self) -> Map<Seq<char>, EntryView> {
        map_of(self.entries_view())
    }

    /// A salt, when present, has the fixed salt size; entry names are
    /// unique; every entry is well-formed.
    pub open spec fn wf(&self) -> bool {
        &&& (self.salt_view() matches Some(s) ==> s.len() == IV_SIZE)
        &&& names_unique(self.entries_view())
        &&& forall|i: int|
            0 <= i < self.entries_view().len() ==> (#[trigger] self.entries_view()[i]).1.wf()
    }

    /// A new vault: no entries, and the salt the caller established.
    pub fn empty(salt: Option<Vec<u8>>) -> (r: Vault)
        requires
            salt matches Some(s) ==> s@.len() == IV_SIZE,
        ensures
            r.wf(),
            r.entry_map() == Map::<Seq<char>, EntryView>::empty(),
            r.salt_view() == match salt {
                Some(s) => Some(s@),
                None => None::<Seq<u8>>,
            },
            r.entries_view() == Seq::<(Seq<char>, EntryView)>::empty(),
    {
        let r = Vault { salt, entries: Vec::new() };
        proof {
            assert(r.entries_view() =~= Seq::<(Seq<char>, EntryView)>::empty());
        }
        r
    }

    /// The position of the entry named `name`, if any.
    fn find_index(&self, name: &String) -> (r: Option<usize>)
        ensures
            r matches Some(i) ==> i < self.entries_view().len() && self.entries_view()[
                i as int
            ].0 == name@,
            r is None ==> forall|j: int|
                0 <= j < self.entries_view().len() ==> (#[trigger] self.entries_view()[j]).0
                    != name@,
    {
        let mut i: usize = 0;
        while i < self.entries.len()
            invariant
                i <= self.entries@.len(),
                forall|j: int| 0 <= j < i ==> (#[trigger] self.entries_view()[j]).0 != name@,
            decreases self.entries@.len() - i,
        {
            if self.entries[i].0.eq(name) {
                return Some(i);
            }
            i += 1;
        }
        None
    }

    /// Looks an entry up by name: returns the stored entry exactly when the
    /// vault maps the name.
    pub fn get_entry(&self, name: &String) -> (r: Option<&VaultEntry>)
        requires
            self.wf(),
        ensures
            r matches Some(e) ==> self.entry_map().contains_key(name@) && e@ == self.entry_map()[
                name@
            ] && e@.wf(),
            r is None <==> !self.entry_map().contains_key(name@),
    {
        proof {
            lemma_map_of_contains(self.entries_view(), name@);
        }
        match self.find_index(name) {
            Some(i) => {
                proof {
                    lemma_map_of_index(self.entries_view(), i as int);
                }
                Some(&self.entries[i].1)
            },
            None => None,
        }
    }

    /// Stores `entry` under `name`, replacing any existing entry of that
    /// name: the vault's mapping afterwards is the old mapping with `name`
    /// bound to `entry`, and the salt is unchanged.
    pub fn set_entry(&mut self, name: String, entry: VaultEntry)
        requires
            old(self).wf(),
            entry@.wf(),
        ensures
            final(self).wf(),
            final(self).entry_map() == old(self).entry_map().insert(name@, entry@),
            final(self).salt_view() == old(self).salt_view(),
    {
        let ghost s0 = self.entries_view();
        let found = self.find_index(&name);
        match found {
            Some(i) => {
                proof {
                    lemma_map_of_remove(s0, i as int);
                }
                self.entries.remove(i);
                proof {
                    assert(self.entries_view() =~= s0.remove(i as int));
                    lemma_map_of_contains(s0.remove(i as int), name@);
                    if exists|j: int|
                        0 <= j < s0.remove(i as int).len() && s0.remove(i as int)[j].0 == name@ {
                        let j = choose|j: int|
                            0 <= j < s0.remove(i as int).len() && s0.remove(i as int)[j].0
                                == name@;
                        if j < i {
                            lemma_unique_distinct(s0, j, i as int);
                        } else {
                            lemma_unique_distinct(s0, i as int, j + 1);
                        }
                    }
                    lemma_map_of_push(s0.remove(i as int), name@, entry@);
                }
                let ghost s1 = self.entries_view();
                self.entries.push((name, entry));
                proof {
                    assert(self.entries_view() =~= s1.push((
                        self.entries@.last().0@,
                        self.entries@.last().1@,
                    )));
                    assert(map_of(self.entries_view()) =~= map_of(s0).insert(
                        self.entries_view().last().0,
                        self.entries_view().last().1,
                    ));
                }
            },
            None => {
                proof {
                    lemma_map_of_contains(s0, name@);
                    lemma_map_of_push(s0, name@, entry@);
                }
                let ghost s1 = self.entries_view();
                self.entries.push((name, entry));
                proof {
                    assert(self.entries_view() =~= s1.push((
                        self.entries@.last().0@,
                        self.entries@.last().1@,
                    )));
                }
            },
        }
    }
}

} // verus!
