//! The error taxonomy of the vault library. Every failure is surfaced to the
//! caller as one of these kinds; none is retried internally.

use vstd::prelude::*;

verus! {

/// Why a vault operation failed.
#[derive(Clone, Copy, Debug, PartialEq, Eq, Structural)]
pub enum Error {
    /// A file could not be opened, read or written, including a key file
    /// shorter than the required length.
    Io,
    /// Password-based key derivation was attempted against a vault that has
    /// no persisted salt.
    MissingSalt,
    /// A stored entry's MAC does not match the recomputed MAC, or the
    /// ciphertext could not be decrypted: the data was tampered with or the
    /// key is wrong. The two are deliberately not told apart.
    AuthenticationFailure,
    /// No entry exists under the requested name.
    NotFound,
    /// A value or the vault image could not be encoded or decoded.
    Serialization,
    /// The secure random source (or the cryptographic provider) failed;
    /// treated as fatal by callers.
    RngFailure,
}

} // verus!
