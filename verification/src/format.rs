//! The vault's byte image: a version byte, the optional fixed-length salt,
//! and the entries as length-tagged records (name, nonce, ciphertext, MAC).
//! Serialization and parsing are verified against each other: parsing a
//! serialized vault yields the vault back.
//!
//! The layout is this library's own compact binary format, marked by the
//! leading version byte; it is the compatibility-sensitive surface of the
//! store, so any change to the tags, sizes or order below must come with a
//! new version byte.

use vstd::prelude::*;

use crate::crypto;
use crate::crypto::MAC_LENGTH;
use crate::errors::Error;
use crate::vault::{names_unique, EntryView, Vault, VaultEntry};
use crate::IV_SIZE;

verus! {

/// The version byte that opens every vault image.
pub const VAULT_VERSION: u8 = 1;

/// The little-endian image of a 64-bit length tag.
pub open spec fn le64(n: u64) -> Seq<u8> {
    seq![
        (n & 0xff) as u8,
        ((n >> 8) & 0xff) as u8,
        ((n >> 16) & 0xff) as u8,
        ((n >> 24) & 0xff) as u8,
        ((n >> 32) & 0xff) as u8,
        ((n >> 40) & 0xff) as u8,
        ((n >> 48) & 0xff) as u8,
        ((n >> 56) & 0xff) as u8,
    ]
}

/// The value a little-endian 8-byte tag denotes.
pub open spec fn le64_val(b: Seq<u8>) -> u64
    recommends
        b.len() == 8,
{
    (b[0] as u64) | ((b[1] as u64) << 8) | ((b[2] as u64) << 16) | ((b[3] as u64) << 24) | (
    (b[4] as u64) << 32) | ((b[5] as u64) << 40) | ((b[6] as u64) << 48) | ((b[7] as u64) << 56)
}

/// A length tag reads back as the length it was written from.
pub proof fn lemma_le64_round_trip(n: u64)
    ensures
        le64(n).len() == 8,
        le64_val(le64(n)) == n,
{
    assert((((n & 0xff) as u8) as u64) | ((((n >> 8) & 0xff) as u8) as u64) << 8 | ((((n >> 16)
        & 0xff) as u8) as u64) << 16 | ((((n >> 24) & 0xff) as u8) as u64) << 24 | ((((n >> 32)
        & 0xff) as u8) as u64) << 32 | ((((n >> 40) & 0xff) as u8) as u64) << 40 | ((((n >> 48)
        & 0xff) as u8) as u64) << 48 | ((((n >> 56) & 0xff) as u8) as u64) << 56 == n)
        by (bit_vector);
}

/// One entry's record: length-tagged name bytes, the fixed-size nonce, the
/// length-tagged ciphertext, and the fixed-size MAC.
pub open spec fn ser_entry(name: Seq<char>, e: EntryView) -> Seq<u8> {
    let nb = vstd::utf8::encode_utf8(name);
    le64(nb.len() as u64) + nb + e.nonce + le64(e.ciphertext.len() as u64) + e.ciphertext + e.mac
}

/// The entries' records, in order.
pub open spec fn ser_entries(s: Seq<(Seq<char>, EntryView)>) -> Seq<u8>
    decreases s.len(),
{
    if s.len() == 0 {
        Seq::empty()
    } else {
        ser_entry(s[0].0, s[0].1) + ser_entries(s.drop_first())
    }
}

/// The whole vault image: version byte, salt flag and salt, entry count,
/// entry records.
pub open spec fn ser_vault(salt: Option<Seq<u8>>, entries: Seq<(Seq<char>, EntryView)>) -> Seq<
    u8,
> {
    let head = match salt {
        None => seq![VAULT_VERSION, 0u8],
        Some(s) => seq![VAULT_VERSION, 1u8] + s,
    };
    head + le64(entries.len() as u64) + ser_entries(entries)
}

/// What parsing one entry record from the front of `b` yields: the named
/// entry and the remaining bytes, or nothing when the record is malformed.
pub open spec fn parse_entry(b: Seq<u8>) -> Option<((Seq<char>, EntryView), Seq<u8>)> {
    if b.len() < 8 {
        None
    } else {
        let nl = le64_val(b.subrange(0, 8)) as int;
        if b.len() < 8 + nl {
            None
        } else {
            let name_bytes = b.subrange(8, 8 + nl);
            if !vstd::utf8::valid_utf8(name_bytes) {
                None
            } else {
                let p1 = 8 + nl;
                if b.len() < p1 + IV_SIZE + 8 {
                    None
                } else {
                    let nonce = b.subrange(p1, p1 + IV_SIZE);
                    let p2 = p1 + IV_SIZE;
                    let cl = le64_val(b.subrange(p2, p2 + 8)) as int;
                    let p3 = p2 + 8;
                    if b.len() < p3 + cl + MAC_LENGTH {
                        None
                    } else {
                        let ct = b.subrange(p3, p3 + cl);
                        let p4 = p3 + cl;
                        let mac = b.subrange(p4, p4 + MAC_LENGTH);
                        Some(
                            (
                                (
                                    vstd::utf8::decode_utf8(name_bytes),
                                    EntryView { nonce, ciphertext: ct, mac },
                                ),
                                b.skip(p4 + MAC_LENGTH),
                            ),
                        )
                    }
                }
            }
        }
    }
}

/// What parsing exactly `n` entry records that consume all of `b` yields.
pub open spec fn parse_entries(b: Seq<u8>, n: nat) -> Option<Seq<(Seq<char>, EntryView)>>
    decreases n,
{
    if n == 0 {
        if b.len() == 0 {
            Some(Seq::empty())
        } else {
            None
        }
    } else {
        match parse_entry(b) {
            None => None,
            Some((pair, rest)) => match parse_entries(rest, (n - 1) as nat) {
                None => None,
                Some(s) => Some(seq![pair] + s),
            },
        }
    }
}

/// What parsing a whole vault image yields: the salt and the entries, or
/// nothing when the image is not a well-formed vault.
pub open spec fn parse_vault(b: Seq<u8>) -> Option<
    (Option<Seq<u8>>, Seq<(Seq<char>, EntryView)>),
> {
    if b.len() < 2 || b[0] != VAULT_VERSION {
        None
    } else if b[1] == 0u8 {
        if b.len() < 10 {
            None
        } else {
            let cnt = le64_val(b.subrange(2, 10));
            match parse_entries(b.skip(10), cnt as nat) {
                None => None,
                Some(s) => Some((None, s)),
            }
        }
    } else if b[1] == 1u8 {
        if b.len() < 2 + IV_SIZE + 8 {
            None
        } else {
            let salt = b.subrange(2, 2 + IV_SIZE);
            let cnt = le64_val(b.subrange(2 + IV_SIZE, 2 + IV_SIZE + 8));
            match parse_entries(b.skip(2 + IV_SIZE + 8), cnt as nat) {
                None => None,
                Some(s) => Some((Some(salt), s)),
            }
        }
    } else {
        None
    }
}

/// Entry record sizes that fit the length tags: true of every entry that
/// exists in memory, stated explicitly because the image's tags are 64 bits.
pub open spec fn entry_sizes_fit(name: Seq<char>, e: EntryView) -> bool {
    vstd::utf8::encode_utf8(name).len() < 0x1_0000_0000_0000_0000
        && e.ciphertext.len() < 0x1_0000_0000_0000_0000
}

/// Parsing one serialized record from the front of any byte stream yields
/// the record's entry and leaves the rest untouched.
pub proof fn lemma_parse_ser_entry(name: Seq<char>, e: EntryView, rest: Seq<u8>)
    requires
        e.wf(),
        entry_sizes_fit(name, e),
    ensures
        parse_entry(ser_entry(name, e) + rest) == Some(((name, e), rest)),
{
    let nb = vstd::utf8::encode_utf8(name);
    let b = ser_entry(name, e) + rest;
    lemma_le64_round_trip(nb.len() as u64);
    lemma_le64_round_trip(e.ciphertext.len() as u64);
    assert(b.subrange(0, 8) =~= le64(nb.len() as u64));
    let nl = nb.len() as int;
    assert(b.subrange(8, 8 + nl) =~= nb);
    vstd::utf8::encode_utf8_valid_utf8(name);
    vstd::utf8::encode_utf8_decode_utf8(name);
    let p1 = 8 + nl;
    assert(b.subrange(p1, p1 + IV_SIZE) =~= e.nonce);
    let p2 = p1 + IV_SIZE;
    assert(b.subrange(p2, p2 + 8) =~= le64(e.ciphertext.len() as u64));
    let p3 = p2 + 8;
    let cl = e.ciphertext.len() as int;
    assert(b.subrange(p3, p3 + cl) =~= e.ciphertext);
    let p4 = p3 + cl;
    assert(b.subrange(p4, p4 + MAC_LENGTH) =~= e.mac);
    assert(b.skip(p4 + MAC_LENGTH) =~= rest);
}

/// All sizes in a sequence of entries fit their length tags.
pub open spec fn all_sizes_fit(s: Seq<(Seq<char>, EntryView)>) -> bool {
    forall|i: int|
        0 <= i < s.len() ==> entry_sizes_fit(
            (#[trigger] s[i]).0,
            s[i].1,
        ) && s[i].1.wf()
}

/// Parsing the serialization of `n` entries yields those entries back.
pub proof fn lemma_parse_ser_entries(s: Seq<(Seq<char>, EntryView)>)
    requires
        all_sizes_fit(s),
    ensures
        parse_entries(ser_entries(s), s.len() as nat) == Some(s),
    decreases s.len(),
{
    if s.len() == 0 {
    } else {
        lemma_parse_ser_entry(s[0].0, s[0].1, ser_entries(s.drop_first()));
        assert(all_sizes_fit(s.drop_first()));
        lemma_parse_ser_entries(s.drop_first());
        assert(seq![s[0]] + s.drop_first() =~= s);
    }
}

/// Round trip of the persisted image: parsing a serialized vault yields the
/// salt and the entries it was serialized from, so saving and loading a
/// vault preserves its contents exactly.
#[verifier::rlimit(60)]
pub proof fn lemma_vault_image_round_trip(
    salt: Option<Seq<u8>>,
    entries: Seq<(Seq<char>, EntryView)>,
)
    requires
        all_sizes_fit(entries),
        entries.len() < 0x1_0000_0000_0000_0000,
        salt matches Some(s) ==> s.len() == IV_SIZE,
    ensures
        parse_vault(ser_vault(salt, entries)) == Some((salt, entries)),
{
    let b = ser_vault(salt, entries);
    lemma_le64_round_trip(entries.len() as u64);
    lemma_parse_ser_entries(entries);
    match salt {
        None => {
            assert(b[0] == VAULT_VERSION && b[1] == 0u8);
            assert(b.subrange(2, 10) =~= le64(entries.len() as u64));
            assert(b.skip(10) =~= ser_entries(entries));
        },
        Some(sv) => {
            assert(b[0] == VAULT_VERSION && b[1] == 1u8);
            assert(b.subrange(2, 2 + IV_SIZE) =~= sv);
            assert(b.subrange(2 + IV_SIZE, 2 + IV_SIZE + 8) =~= le64(entries.len() as u64));
            assert(b.skip(2 + IV_SIZE + 8) =~= ser_entries(entries));
        },
    }
}

/// Appending one entry extends the serialized records by that entry's
/// record.
proof fn lemma_ser_entries_push(s: Seq<(Seq<char>, EntryView)>, p: (Seq<char>, EntryView))
    ensures
        ser_entries(s.push(p)) == ser_entries(s) + ser_entry(p.0, p.1),
    decreases s.len(),
{
    if s.len() == 0 {
        assert(s.push(p).drop_first() =~= s);
        assert(ser_entries(s.push(p)) =~= ser_entries(s) + ser_entry(p.0, p.1));
    } else {
        assert(s.push(p).drop_first() =~= s.drop_first().push(p));
        lemma_ser_entries_push(s.drop_first(), p);
        assert(ser_entries(s.push(p)) =~= ser_entries(s) + ser_entry(p.0, p.1));
    }
}

/// Appends the little-endian image of `n`.
fn push_u64(out: &mut Vec<u8>, n: u64)
    ensures
        final(out)@ == old(out)@ + le64(n),
{
    out.push((n & 0xff) as u8);
    out.push(((n >> 8) & 0xff) as u8);
    out.push(((n >> 16) & 0xff) as u8);
    out.push(((n >> 24) & 0xff) as u8);
    out.push(((n >> 32) & 0xff) as u8);
    out.push(((n >> 40) & 0xff) as u8);
    out.push(((n >> 48) & 0xff) as u8);
    out.push(((n >> 56) & 0xff) as u8);
    proof {
        assert(out@ =~= old(out)@ + le64(n));
    }
}

/// Appends a copy of the given bytes.
fn push_bytes(out: &mut Vec<u8>, b: &[u8])
    ensures
        final(out)@ == old(out)@ + b@,
{
    let mut tmp = vstd::slice::slice_to_vec(b);
    out.append(&mut tmp);
}

/// Reads the little-endian 64-bit tag at `pos`.
fn read_u64(data: &[u8], pos: usize) -> (r: u64)
    requires
        pos as int + 8 <= data@.len(),
    ensures
        r == le64_val(data@.subrange(pos as int, pos as int + 8)),
{
    let dlen = data.len();
    proof {
        assert(pos + 8 <= dlen);
    }
    let b0 = *vstd::slice::slice_index_get(data, pos);
    let b1 = *vstd::slice::slice_index_get(data, pos + 1);
    let b2 = *vstd::slice::slice_index_get(data, pos + 2);
    let b3 = *vstd::slice::slice_index_get(data, pos + 3);
    let b4 = *vstd::slice::slice_index_get(data, pos + 4);
    let b5 = *vstd::slice::slice_index_get(data, pos + 5);
    let b6 = *vstd::slice::slice_index_get(data, pos + 6);
    let b7 = *vstd::slice::slice_index_get(data, pos + 7);
    let r = (b0 as u64) | ((b1 as u64) << 8) | ((b2 as u64) << 16) | ((b3 as u64) << 24) | ((
    b4 as u64) << 32) | ((b5 as u64) << 40) | ((b6 as u64) << 48) | ((b7 as u64) << 56);
    proof {
        let s = data@.subrange(pos as int, pos as int + 8);
        assert(s[0] == b0 && s[1] == b1 && s[2] == b2 && s[3] == b3 && s[4] == b4 && s[5] == b5
            && s[6] == b6 && s[7] == b7);
    }
    r
}

/// Copies the `n` bytes at `pos`.
fn read_vec(data: &[u8], pos: usize, n: usize) -> (r: Vec<u8>)
    requires
        pos as int + n as int <= data@.len(),
    ensures
        r@ == data@.subrange(pos as int, pos as int + n as int),
{
    let dlen = data.len();
    proof {
        assert(pos + n <= dlen);
    }
    vstd::slice::slice_to_vec(vstd::slice::slice_subrange(data, pos, pos + n))
}

/// Parses the entry record at `pos`, returning the named entry and the
/// position just past the record.
fn parse_entry_exec(data: &[u8], pos: usize) -> (r: Result<(String, VaultEntry, usize), Error>)
    requires
        pos <= data@.len(),
    ensures
        r matches Ok((name, e, newpos)) ==> parse_entry(data@.skip(pos as int)) == Some(
            ((name@, e@), data@.skip(newpos as int)),
        ) && pos < newpos <= data@.len() && e@.wf(),
        r is Err ==> parse_entry(data@.skip(pos as int)) is None,
        r matches Err(e) ==> e == Error::Serialization,
{
    let ghost b = data@.skip(pos as int);
    let len = data.len();
    if len - pos < 8 {
        return Err(Error::Serialization);
    }
    let nl64 = read_u64(data, pos);
    proof {
        assert(data@.subrange(pos as int, pos as int + 8) =~= b.subrange(0, 8));
    }
    let after_tag = pos + 8;
    if nl64 > (len - after_tag) as u64 {
        return Err(Error::Serialization);
    }
    let nl = nl64 as usize;
    let name_vec = read_vec(data, after_tag, nl);
    proof {
        assert(data@.subrange(after_tag as int, after_tag as int + nl as int) =~= b.subrange(
            8,
            8 + nl as int,
        ));
    }
    let name = match crypto::bytes_to_string(name_vec) {
        Ok(s) => s,
        Err(_) => {
            return Err(Error::Serialization);
        },
    };
    let p1 = after_tag + nl;
    if len - p1 < IV_SIZE {
        return Err(Error::Serialization);
    }
    let p2 = p1 + IV_SIZE;
    if len - p2 < 8 {
        return Err(Error::Serialization);
    }
    let nonce = read_vec(data, p1, IV_SIZE);
    proof {
        assert(data@.subrange(p1 as int, p1 as int + IV_SIZE as int) =~= b.subrange(
            8 + nl as int,
            8 + nl as int + IV_SIZE,
        ));
    }
    let cl64 = read_u64(data, p2);
    proof {
        assert(data@.subrange(p2 as int, p2 as int + 8) =~= b.subrange(
            8 + nl as int + IV_SIZE,
            8 + nl as int + IV_SIZE + 8,
        ));
    }
    let p3 = p2 + 8;
    if cl64 > (len - p3) as u64 {
        return Err(Error::Serialization);
    }
    let cl = cl64 as usize;
    let p4 = p3 + cl;
    if len - p4 < MAC_LENGTH {
        return Err(Error::Serialization);
    }
    let ct = read_vec(data, p3, cl);
    let mac = read_vec(data, p4, MAC_LENGTH);
    let newpos = p4 + MAC_LENGTH;
    let entry = VaultEntry { nonce, ciphertext: ct, mac };
    proof {
        let nli = nl as int;
        let q1 = 8 + nli;
        let q2 = q1 + IV_SIZE;
        let q3 = q2 + 8;
        let q4 = q3 + cl as int;
        assert(data@.subrange(p3 as int, p3 as int + cl as int) =~= b.subrange(q3, q3 + cl as int));
        assert(data@.subrange(p4 as int, p4 as int + MAC_LENGTH as int) =~= b.subrange(
            q4,
            q4 + MAC_LENGTH,
        ));
        assert(data@.skip(newpos as int) =~= b.skip(q4 + MAC_LENGTH));
    }
    Ok((name, entry, newpos))
}

/// Whether some stored pair already carries `name`.
fn contains_name(entries: &Vec<(String, VaultEntry)>, name: &String) -> (r: bool)
    ensures
        r <==> exists|j: int| 0 <= j < entries@.len() && (#[trigger] entries@[j]).0@ == name@,
{
    let mut i: usize = 0;
    while i < entries.len()
        invariant
            i <= entries@.len(),
            forall|j: int| 0 <= j < i ==> (#[trigger] entries@[j]).0@ != name@,
        decreases entries@.len() - i,
    {
        if entries[i].0.eq(name) {
            return true;
        }
        i += 1;
    }
    false
}

impl Vault {
    /// Serializes this vault into its byte image.
    pub fn to_bytes(&self) -> (r: Vec<u8>)
        requires
            self.wf(),
        ensures
            r@ == ser_vault(self.salt_view(), self.entries_view()),
    {
        let mut out: Vec<u8> = Vec::new();
        out.push(VAULT_VERSION);
        match &self.salt {
            None => out.push(0u8),
            Some(s) => {
                out.push(1u8);
                push_bytes(&mut out, s.as_slice());
            },
        }
        let count = self.entries.len();
        push_u64(&mut out, count as u64);
        let ghost head = out@;
        let mut i: usize = 0;
        while i < count
            invariant
                i <= count,
                count == self.entries@.len(),
                self.wf(),
                out@ == head + ser_entries(self.entries_view().take(i as int)),
            decreases count - i,
        {
            let ghost done = self.entries_view().take(i as int);
            let name_bytes = self.entries[i].0.as_str().as_bytes();
            push_u64(&mut out, name_bytes.len() as u64);
            push_bytes(&mut out, name_bytes);
            push_bytes(&mut out, self.entries[i].1.nonce.as_slice());
            push_u64(&mut out, self.entries[i].1.ciphertext.len() as u64);
            push_bytes(&mut out, self.entries[i].1.ciphertext.as_slice());
            push_bytes(&mut out, self.entries[i].1.mac.as_slice());
            proof {
                let p = self.entries_view()[i as int];
                lemma_ser_entries_push(done, p);
                assert(done.push(p) =~= self.entries_view().take(i as int + 1));
                assert(out@ =~= head + ser_entries(self.entries_view().take(i as int + 1)));
            }
            i += 1;
        }
        proof {
            assert(self.entries_view().take(count as int) =~= self.entries_view());
            assert(out@ =~= ser_vault(self.salt_view(), self.entries_view()));
        }
        out
    }

    /// Parses a vault from its byte image. Succeeds exactly when the image
    /// is a well-formed vault whose entry names are distinct, and then
    /// yields exactly the salt and entries the image holds.
    pub fn from_bytes(data: &[u8]) -> (r: Result<Vault, Error>)
        ensures
            r matches Ok(v) ==> v.wf() && parse_vault(data@) == Some(
                (v.salt_view(), v.entries_view()),
            ),
            r is Err ==> parse_vault(data@) is None || (parse_vault(data@) matches Some(p)
                && !names_unique(p.1)),
            r matches Err(e) ==> e == Error::Serialization,
    {
        let len = data.len();
        if len < 2 {
            return Err(Error::Serialization);
        }
        let version = *vstd::slice::slice_index_get(data, 0);
        if version != VAULT_VERSION {
            return Err(Error::Serialization);
        }
        let flag = *vstd::slice::slice_index_get(data, 1);
        let salt: Option<Vec<u8>>;
        let pos0: usize;
        if flag == 0 {
            if len < 10 {
                return Err(Error::Serialization);
            }
            salt = None;
            pos0 = 2;
        } else if flag == 1 {
            if len < 2 + IV_SIZE + 8 {
                return Err(Error::Serialization);
            }
            salt = Some(read_vec(data, 2, IV_SIZE));
            pos0 = 2 + IV_SIZE;
        } else {
            return Err(Error::Serialization);
        }
        let ghost sview: Option<Seq<u8>> = if flag == 1 {
            Some(data@.subrange(2, 2 + IV_SIZE as int))
        } else {
            None
        };
        let count = read_u64(data, pos0);
        let mut pos: usize = pos0 + 8;
        let ghost tail0 = data@.skip(pos as int);
        proof {
            if flag == 0 {
                assert(data@.subrange(2, 10) =~= data@.subrange(pos0 as int, pos0 as int + 8));
                assert(data@.skip(10) =~= tail0);
            } else {
                assert(data@.subrange(2 + IV_SIZE as int, 2 + IV_SIZE as int + 8)
                    =~= data@.subrange(pos0 as int, pos0 as int + 8));
                assert(data@.skip(2 + IV_SIZE as int + 8) =~= tail0);
            }
            assert(parse_vault(data@) == match parse_entries(tail0, count as nat) {
                None => None::<(Option<Seq<u8>>, Seq<(Seq<char>, EntryView)>)>,
                Some(s) => Some((sview, s)),
            });
        }
        let mut entries: Vec<(String, VaultEntry)> = Vec::new();
        let mut k: u64 = 0;
        proof {
            assert(crate::vault::pairs_view(entries@) =~= Seq::<(Seq<char>, EntryView)>::empty());
            match parse_entries(tail0, count as nat) {
                None => {},
                Some(s) => {
                    assert(crate::vault::pairs_view(entries@) + s =~= s);
                },
            }
        }
        while k < count
            invariant
                k <= count,
                pos <= data@.len(),
                crate::vault::names_unique(crate::vault::pairs_view(entries@)),
                forall|i: int|
                    0 <= i < crate::vault::pairs_view(entries@).len() ==> (
                    #[trigger] crate::vault::pairs_view(entries@)[i]).1.wf(),
                parse_entries(tail0, count as nat) == match parse_entries(
                    data@.skip(pos as int),
                    (count - k) as nat,
                ) {
                    None => None::<Seq<(Seq<char>, EntryView)>>,
                    Some(s) => Some(crate::vault::pairs_view(entries@) + s),
                },
                parse_vault(data@) == match parse_entries(tail0, count as nat) {
                    None => None::<(Option<Seq<u8>>, Seq<(Seq<char>, EntryView)>)>,
                    Some(s) => Some((sview, s)),
                },
            decreases count - k,
        {
            let ghost acc = crate::vault::pairs_view(entries@);
            let ghost left = (count - k) as nat;
            match parse_entry_exec(data, pos) {
                Err(e) => {
                    return Err(e);
                },
                Ok((name, entry, newpos)) => {
                    let ghost nv = name@;
                    let ghost ev = entry@;
                    proof {
                        assert(parse_entries(data@.skip(pos as int), left) == match parse_entries(
                            data@.skip(newpos as int),
                            (left - 1) as nat,
                        ) {
                            None => None::<Seq<(Seq<char>, EntryView)>>,
                            Some(s2) => Some(seq![(nv, ev)] + s2),
                        });
                    }
                    if contains_name(&entries, &name) {
                        proof {
                            let j = choose|j: int|
                                0 <= j < entries@.len() && (#[trigger] entries@[j]).0@ == name@;
                            assert(acc[j].0 == nv);
                            lemma_dup_in_result(
                                tail0,
                                count as nat,
                                acc,
                                data@.skip(pos as int),
                                left,
                                nv,
                                ev,
                                data@.skip(newpos as int),
                            );
                        }
                        return Err(Error::Serialization);
                    }
                    proof {
                        crate::vault::lemma_map_of_contains(acc, nv);
                        crate::vault::lemma_map_of_push(acc, nv, ev);
                    }
                    entries.push((name, entry));
                    pos = newpos;
                    k = k + 1;
                    proof {
                        assert(crate::vault::pairs_view(entries@) =~= acc.push((nv, ev)));
                        match parse_entries(data@.skip(pos as int), (count - k) as nat) {
                            None => {},
                            Some(s2) => {
                                assert(acc + (seq![(nv, ev)] + s2) =~= acc.push((nv, ev)) + s2);
                            },
                        }
                    }
                },
            }
        }
        if pos != len {
            proof {
                assert(data@.skip(pos as int).len() > 0);
            }
            return Err(Error::Serialization);
        }
        let v = Vault { salt, entries };
        proof {
            assert(data@.skip(pos as int) =~= Seq::<u8>::empty());
            match parse_entries(tail0, count as nat) {
                None => {
                    assert(false);
                },
                Some(s) => {
                    assert(crate::vault::pairs_view(entries@) + Seq::<(
                        Seq<char>,
                        EntryView,
                    )>::empty() =~= crate::vault::pairs_view(entries@));
                },
            }
            assert(v.entries_view() == crate::vault::pairs_view(entries@));
            assert(v.salt_view() == sview);
        }
        Ok(v)
    }
}

/// When a name about to be appended already occurs among the parsed prefix,
/// the image's full entry list (if the image parses at all) repeats a name.
proof fn lemma_dup_in_result(
    tail0: Seq<u8>,
    count: nat,
    acc: Seq<(Seq<char>, EntryView)>,
    here: Seq<u8>,
    left: nat,
    name: Seq<char>,
    e: EntryView,
    rest: Seq<u8>,
)
    requires
        parse_entries(tail0, count) == match parse_entries(here, left) {
            None => None::<Seq<(Seq<char>, EntryView)>>,
            Some(s) => Some(acc + s),
        },
        left > 0,
        parse_entry(here) == Some(((name, e), rest)),
        exists|j: int| 0 <= j < acc.len() && (#[trigger] acc[j]).0 == name,
    ensures
        parse_entries(tail0, count) is None || (parse_entries(tail0, count) matches Some(all)
            && !names_unique(all)),
{
    match parse_entries(here, left) {
        None => {},
        Some(s) => {
            let all = acc + s;
            match parse_entries(rest, (left - 1) as nat) {
                None => {},
                Some(s2) => {
                    let j = choose|j: int| 0 <= j < acc.len() && (#[trigger] acc[j]).0 == name;
                    assert(s == seq![(name, e)] + s2);
                    assert(all[acc.len() as int].0 == name);
                    assert(all[j].0 == name);
                    if names_unique(all) {
                        crate::vault::lemma_unique_distinct(all, j, acc.len() as int);
                    }
                },
            }
        },
    }
}

} // verus!
