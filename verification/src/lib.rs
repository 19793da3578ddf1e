//! VurnChat: the cryptographic core of the messenger and the decisions of its relay gateway.

pub mod bootstrap;
pub mod bytes;
pub mod cipher;
pub mod cli;
pub mod crypto;
pub mod delivered;
pub mod dht;
pub mod encoding;
pub mod events;
pub mod gateway;
pub mod identity;
pub mod mailbox;
pub mod ratchet;
pub mod signing;
pub mod text;
pub mod tls;

pub use crate::cipher::VurnCipher;
