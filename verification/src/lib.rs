//! Cryptographic and session core of a Secret Service keyring daemon:
//! key material, cipher primitives, the Diffie-Hellman session key, the
//! `[sx-aes-1]` exchange envelope and the prompt state machine.

pub mod error;
pub mod attribute_value;
pub mod crypto;
pub mod dh;
pub mod envelope;
pub mod key;
pub mod prompt;
pub mod secret_exchange;
pub mod text;
