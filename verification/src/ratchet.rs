//! # Hybrid ratchet engine
//!
//! A self-contained, in-memory ratchet for forward secrecy, in two layers:
//! - an X25519 double ratchet: a key chain per direction, and a root key that a Diffie-Hellman
//!   step advances each time the peer opens a new sending chain;
//! - ML-KEM-1024 mixing: every message the sender can protect carries a fresh encapsulation to the
//!   peer's advertised ML-KEM key, and its secret is mixed into the message key.
//!
//! Messages may arrive out of order. A receiver that jumps over messages retains their keys (within
//! [`MAX_SKIP`] of a gap, [`MAX_SKIPPED_TOTAL`] in all), so stragglers still decrypt and a loss
//! costs only the lost messages. A number that is neither the expected next one nor in the store is
//! out of order: a duplicate or a replay. A new chain is turned to only by a message of it that opens,
//! so that a replay from an earlier chain cannot lead the session astray.

pub mod kdf;
pub mod laws;
pub mod model;
pub mod persist;
pub mod session;
pub mod store;
pub mod wire;

pub use crate::ratchet::kdf::{kem_decapsulate, kem_encapsulate, kem_keypair, x25519_keypair, x25519_shared};
pub use crate::ratchet::session::{AdvertisedKem, Session, SessionStart};
pub use crate::ratchet::store::SkippedKeys;
pub use crate::ratchet::wire::package_sender_key;
use vstd::prelude::*;

verus! {

/// KEM public key size (ML-KEM-1024).
pub const KEM_PK_LEN: usize = 1568;

/// KEM secret key size.
pub const KEM_SK_LEN: usize = 3168;

/// KEM ciphertext size.
pub const KEM_CT_LEN: usize = 1568;

/// Version byte of every message header.
pub const PKG_VERSION: u8 = 0x0A;

/// Version byte of a serialized session. The older `PKG_VERSION`, without the store, is read too.
pub const SESSION_VERSION: u8 = 0x0B;

/// Widest gap that is bridged in one skip.
pub const MAX_SKIP: u32 = 1000;

/// Most message keys that a session retains.
pub const MAX_SKIPPED_TOTAL: usize = 2000;

/// Why a message could not be decrypted.
#[derive(Debug, Clone, Copy, PartialEq, Eq, Structural)]
pub enum DecryptError {
    /// The package is no message.
    Malformed,
    /// The message number is neither the expected next one of its chain nor in the store
    /// (duplicate, replay, or a gap beyond [`MAX_SKIP`]), or the message is of another chain than
    /// the current one and does not open as the start of a new one.
    OutOfOrder,
    /// No session state or sending chain for this role yet.
    NoState,
    /// Authentication failed on the current chain or with a key of the store (wrong key, tampering,
    /// wrong KEM key).
    AuthFailed,
}

} // verus!
