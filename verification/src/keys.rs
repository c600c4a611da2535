//! Session key material: the pair of symmetric keys (encryption key and
//! authentication key), with export to and import from the flat binary key
//! file layout (encryption key bytes followed by authentication key bytes,
//! no header and no metadata).

use vstd::prelude::*;

use crate::errors::Error;
use crate::KEY_LENGTH;

verus! {

/// The pair of symmetric keys used for one session: `encryption` encrypts
/// entry plaintexts, `hmac` authenticates entry ciphertexts. Immutable once
/// constructed.
pub struct KeyMaterial {
    pub encryption: Vec<u8>,
    pub hmac: Vec<u8>,
}

impl KeyMaterial {
    /// Both keys have the fixed key length.
    pub open spec fn wf(&self) -> bool {
        self.encryption@.len() == KEY_LENGTH && self.hmac@.len() == KEY_LENGTH
    }

    /// The flat binary key-file image of this key material.
    pub open spec fn export_view(&self) -> Seq<u8> {
        self.encryption@ + self.hmac@
    }

    /// Serializes the key pair into the flat key-file layout: the encryption
    /// key's bytes followed by the authentication key's bytes.
    pub fn to_bytes(&self) -> (r: Vec<u8>)
        requires
            self.wf(),
        ensures
            r@ == self.export_view(),
            r@.len() == 2 * KEY_LENGTH,
    {
        let mut out = vstd::slice::slice_to_vec(self.encryption.as_slice());
        let mut rest = vstd::slice::slice_to_vec(self.hmac.as_slice());
        out.append(&mut rest);
        proof {
            assert(out@ =~= self.export_view());
        }
        out
    }

    /// Reconstructs a key pair from a key-file image: reads the encryption
    /// key from the first key-length bytes and the authentication key from
    /// the next, ignoring anything after them, exactly as sequential reads
    /// from the file would. An image shorter than two keys is a hard
    /// failure, never zero-padded.
    pub fn from_bytes(data: &[u8]) -> (r: Result<KeyMaterial, Error>)
        ensures
            r is Ok <==> data@.len() >= 2 * KEY_LENGTH,
            r matches Ok(k) ==> k.wf() && k.encryption@ == data@.subrange(0, KEY_LENGTH as int)
                && k.hmac@ == data@.subrange(KEY_LENGTH as int, 2 * KEY_LENGTH as int),
            r matches Err(e) ==> e == Error::Io,
    {
        if data.len() < 2 * KEY_LENGTH {
            return Err(Error::Io);
        }
        let enc_part = vstd::slice::slice_subrange(data, 0, KEY_LENGTH);
        let mac_part = vstd::slice::slice_subrange(data, KEY_LENGTH, 2 * KEY_LENGTH);
        Ok(
            KeyMaterial {
                encryption: vstd::slice::slice_to_vec(enc_part),
                hmac: vstd::slice::slice_to_vec(mac_part),
            },
        )
    }
}

/// Exporting a key pair and importing the image again reconstructs the same
/// keys: the two halves of `encryption ++ hmac` are `encryption` and `hmac`.
pub proof fn lemma_key_export_import(enc: Seq<u8>, mac: Seq<u8>)
    requires
        enc.len() == KEY_LENGTH,
        mac.len() == KEY_LENGTH,
    ensures
        (enc + mac).len() == 2 * KEY_LENGTH,
        (enc + mac).subrange(0, KEY_LENGTH as int) == enc,
        (enc + mac).subrange(KEY_LENGTH as int, 2 * KEY_LENGTH as int) == mac,
{
    assert((enc + mac).subrange(0, KEY_LENGTH as int) =~= enc);
    assert((enc + mac).subrange(KEY_LENGTH as int, 2 * KEY_LENGTH as int) =~= mac);
}

} // verus!
