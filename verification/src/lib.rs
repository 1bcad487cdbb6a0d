//! A role-based permission table and a delegated-authorization verifier
//! for a catalog registry. The authorization index is a fixed-capacity,
//! arena-hosted table of grant records bound to hashed (role, identity)
//! keys through a critbit trie, with freed slots recycled through an
//! intrusive free list; the verifier validates a co-submitted
//! raw-signature instruction byte for byte against a strict template.
use vstd::prelude::*;

pub mod access;
pub mod arena;
pub mod catalog;
pub mod codec;
pub mod critbit;
pub mod ed25519;
pub mod hashing;
pub mod store;
pub mod types;

verus! {

/// Failure taxonomy for every operation in this crate. Each operation
/// returns a typed failure and mutates nothing when it fails; nothing is
/// retried internally.
#[derive(Clone, Copy, Debug, PartialEq, Eq, Structural)]
pub enum ErrorCode {
    AccessDenied,
    InvalidURLHash,
    InvalidURLLength,
    InvalidParameters,
    InternalError,
    Overflow,
    OutOfSpace,
    IndexOutOfRange,
    NotFound,
    SigVerificationFailed,
}

} // verus!
