//! Highest-level tests for the secure store.

use securestore::{Error, KeySource, SecretsManager};

/// Verify that basic storage and retrieval of secrets functions correctly.
#[test]
fn basic_store_retrieve() {
    // create a new secrets manager with a known secret so we don't need to
    // muck around with keyfiles later.
    let mut sman = SecretsManager::new(KeySource::Password("mysecret".to_string())).unwrap();

    // make sure that setting the same name twice keeps the latest value
    sman.set("foo", "bar").unwrap();
    sman.set("foo", "bar").unwrap();
    let data = sman.save();

    // do we get the same value back on retrieve?
    let retrieved: String = sman.retrieve("foo").unwrap();
    assert_eq!("bar", retrieved);

    // Now open the store from the saved image with the same settings and
    // make sure the data remains loadable.
    let sman2 = SecretsManager::load(&data, KeySource::Password("mysecret".to_string())).unwrap();
    let retrieved: String = sman2.retrieve("foo").unwrap();
    assert_eq!("bar", retrieved);
}

/// Round trip under all three key sources: a value stored, saved and loaded
/// again comes back equal.
#[test]
fn round_trip_all_key_sources() {
    // Generate, reopened through an exported key file image
    let mut m = SecretsManager::new(KeySource::Generate).unwrap();
    m.set("name", "value").unwrap();
    let keyfile = m.export_keys();
    let img = m.save();
    let m2 = SecretsManager::load(&img, KeySource::File(keyfile)).unwrap();
    assert_eq!(m2.retrieve("name").unwrap(), "value");

    // Password
    let mut m = SecretsManager::new(KeySource::Password("pw".to_string())).unwrap();
    m.set("name", "value").unwrap();
    let img = m.save();
    let m2 = SecretsManager::load(&img, KeySource::Password("pw".to_string())).unwrap();
    assert_eq!(m2.retrieve("name").unwrap(), "value");

    // File source from the start
    let keyfile = vec![7u8; 64];
    let mut m = SecretsManager::new(KeySource::File(keyfile.clone())).unwrap();
    m.set("name", "value").unwrap();
    let img = m.save();
    let m2 = SecretsManager::load(&img, KeySource::File(keyfile)).unwrap();
    assert_eq!(m2.retrieve("name").unwrap(), "value");
}

/// Flipping any byte of a stored entry's nonce, ciphertext or MAC makes
/// retrieval fail with an authentication error, never yield wrong plaintext.
#[test]
fn tamper_detection() {
    let keyfile = vec![9u8; 64];
    let mut m = SecretsManager::new(KeySource::File(keyfile.clone())).unwrap();
    m.set("k", "hello").unwrap();
    let img = m.save();

    // image layout: version, salt flag, 16 salt bytes, 8 count bytes, then
    // the single record: 8 name-tag bytes, 1 name byte, 16 nonce bytes,
    // 8 ciphertext-tag bytes, the ciphertext, 32 MAC bytes.
    let record_start = 2 + 16 + 8;
    let nonce_start = record_start + 8 + 1;
    let ct_start = nonce_start + 16 + 8;
    for i in (nonce_start..nonce_start + 16).chain(ct_start..img.len()) {
        let mut tampered = img.clone();
        tampered[i] ^= 0x01;
        let m2 = SecretsManager::load(&tampered, KeySource::File(keyfile.clone())).unwrap();
        match m2.retrieve("k") {
            Err(Error::AuthenticationFailure) => {}
            other => panic!("tampering at byte {} was not detected: {:?}", i, other),
        }
    }
}

/// A wrong key (wrong password) is reported exactly like tampering: a
/// generic authentication failure.
#[test]
fn wrong_password_fails_closed() {
    let mut m = SecretsManager::new(KeySource::Password("right".to_string())).unwrap();
    m.set("k", "v").unwrap();
    let img = m.save();
    let m2 = SecretsManager::load(&img, KeySource::Password("wrong".to_string())).unwrap();
    assert!(matches!(m2.retrieve("k"), Err(Error::AuthenticationFailure)));
}

/// Salt stability: the same password against the same stored salt always
/// derives byte-identical key material; a different password does not.
#[test]
fn salt_stability() {
    let m = SecretsManager::new(KeySource::Password("samepw".to_string())).unwrap();
    let img = m.save();
    let k1 = SecretsManager::load(&img, KeySource::Password("samepw".to_string()))
        .unwrap()
        .export_keys();
    let k2 = SecretsManager::load(&img, KeySource::Password("samepw".to_string()))
        .unwrap()
        .export_keys();
    let k3 = SecretsManager::load(&img, KeySource::Password("otherpw".to_string()))
        .unwrap()
        .export_keys();
    assert_eq!(k1, k2);
    assert_ne!(k1, k3);
}

/// Key export followed by a `File` source over the exported image
/// reconstructs identical key material.
#[test]
fn key_export_import() {
    let m = SecretsManager::new(KeySource::Generate).unwrap();
    let exported = m.export_keys();
    assert_eq!(exported.len(), 64);
    let img = m.save();
    let m2 = SecretsManager::load(&img, KeySource::File(exported.clone())).unwrap();
    assert_eq!(m2.export_keys(), exported);
}

/// Password derivation against a vault that never had a salt fails with
/// `MissingSalt`; no default salt is silently substituted.
#[test]
fn missing_salt_fails() {
    // a hand-written vault image: version 1, no salt, zero entries
    let mut img = vec![1u8, 0u8];
    img.extend_from_slice(&[0u8; 8]);
    let r = SecretsManager::load(&img, KeySource::Password("pw".to_string()));
    assert!(matches!(r, Err(Error::MissingSalt)));
    // the same image opens fine with a source that needs no salt
    assert!(SecretsManager::load(&img, KeySource::Generate).is_ok());
}

/// Scenario: create a vault, store `foo`, save it, export the keys, reopen
/// the saved image with the exported key file, and read `foo` back.
#[test]
fn generate_export_reload() {
    let mut m = SecretsManager::new(KeySource::Generate).unwrap();
    m.set("foo", "bar").unwrap();
    let img = m.save();
    let exported = m.export_keys();
    let m2 = SecretsManager::load(&img, KeySource::File(exported)).unwrap();
    assert_eq!(m2.retrieve("foo").unwrap(), "bar");
}

/// Loading something that is not a vault image fails with a typed error and
/// never panics.
#[test]
fn load_invalid_image_fails() {
    assert!(matches!(
        SecretsManager::load(&[], KeySource::Generate),
        Err(Error::Serialization)
    ));
    assert!(matches!(
        SecretsManager::load(&[0u8, 0u8, 3u8], KeySource::Generate),
        Err(Error::Serialization)
    ));
    let truncated = vec![1u8, 1u8, 0u8];
    assert!(matches!(
        SecretsManager::load(&truncated, KeySource::Generate),
        Err(Error::Serialization)
    ));
}

/// An image that repeats an entry name is rejected as malformed.
#[test]
fn duplicate_names_rejected() {
    let keyfile = vec![3u8; 64];
    let mut m = SecretsManager::new(KeySource::File(keyfile.clone())).unwrap();
    m.set("dup", "x").unwrap();
    let img = m.save();
    let record = &img[26..];
    let mut forged = img[..18].to_vec();
    forged.extend_from_slice(&[2u8, 0, 0, 0, 0, 0, 0, 0]);
    forged.extend_from_slice(record);
    forged.extend_from_slice(record);
    assert!(matches!(
        SecretsManager::load(&forged, KeySource::File(keyfile)),
        Err(Error::Serialization)
    ));
}

/// Retrieval of an absent name reports `NotFound`; a key-file image shorter
/// than two keys reports `Io`; a longer image is read sequentially and its
/// trailing bytes are ignored.
#[test]
fn error_variants() {
    let m = SecretsManager::new(KeySource::Generate).unwrap();
    assert!(matches!(m.retrieve("absent"), Err(Error::NotFound)));
    let short = vec![0u8; 10];
    assert!(matches!(
        SecretsManager::new(KeySource::File(short)),
        Err(Error::Io)
    ));
    let mut long = vec![5u8; 64];
    long.extend_from_slice(&[9u8; 7]);
    let m2 = SecretsManager::new(KeySource::File(long.clone())).unwrap();
    assert_eq!(m2.export_keys(), long[..64].to_vec());
}

/// The stored image never contains the plaintext: the entry really is
/// encrypted, and two freshly generated key pairs differ.
#[test]
fn encryption_is_real() {
    let mut m = SecretsManager::new(KeySource::Generate).unwrap();
    m.set("k", "supersecretvalue").unwrap();
    let img = m.save();
    assert!(!img
        .windows("supersecretvalue".len())
        .any(|w| w == "supersecretvalue".as_bytes()));

    let k1 = SecretsManager::new(KeySource::Generate).unwrap().export_keys();
    let k2 = SecretsManager::new(KeySource::Generate).unwrap().export_keys();
    assert_ne!(k1, k2);

    // a freshly created empty vault image is exactly the 26 header bytes:
    // version, salt flag, 16 salt bytes, 8 count bytes
    let empty_img = SecretsManager::new(KeySource::Generate).unwrap().save();
    assert_eq!(empty_img.len(), 26);
    assert_eq!(empty_img[0], 1);
    assert_eq!(empty_img[1], 1);
    assert_eq!(&empty_img[18..26], &[0u8; 8]);
}

/// Arbitrary serialized bytes round trip through the byte-level interface,
/// and retrieving a non-text value as text reports a decoding failure.
#[test]
fn binary_values_round_trip() {
    let mut m = SecretsManager::new(KeySource::Generate).unwrap();
    let value = vec![0u8, 159, 146, 150, 255];
    m.set_bytes("blob", &value).unwrap();
    let img = m.save();
    let m2 = SecretsManager::load(&img, KeySource::File(m.export_keys())).unwrap();
    assert_eq!(m2.retrieve_bytes("blob").unwrap(), value);
    assert!(matches!(m2.retrieve("blob"), Err(Error::Serialization)));
}

/// Password-derived keys are not the password bytes themselves: the
/// derivation really runs.
#[test]
fn derivation_is_real() {
    let m = SecretsManager::new(KeySource::Password("abcd".to_string())).unwrap();
    let keys = m.export_keys();
    assert_eq!(keys.len(), 64);
    assert!(!keys.windows(4).any(|w| w == b"abcd"));
}
