//! Builds and signs the message that collects the balance of a version 3
//! wallet contract, and derives the wallet's address from its public key and
//! wallet id.
//!
//! The crate is layered, leaves first: bit strings ([`bits`]), the SHA-256
//! digest ([`digest`]) and Ed25519 keys ([`keys`]); cells with their builder
//! and reader ([`cell`]); the layout of addresses and amounts ([`layout`]);
//! the wallet's state and address ([`wallet`]); transfers and the signed body
//! ([`transfer`]); and the envelope that carries the body to the wallet
//! ([`message`]). The clock is read in [`clock`].

pub mod bits;
pub mod cell;
pub mod clock;
pub mod digest;
pub mod error;
pub mod keys;
pub mod layout;
pub mod message;
pub mod transfer;
pub mod wallet;

pub use cell::{Builder, Cell, Slice};
pub use clock::now;
pub use error::CollectorError;
pub use keys::KeyPair;
pub use layout::Address;
pub use message::{compute_deposit_address, create_message, CollectorMessageParams, Message};
pub use transfer::Gift;
pub use wallet::{InitData, StateInit};
