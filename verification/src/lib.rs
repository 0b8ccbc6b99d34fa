//! Protocol engine of an SSH authentication agent.
//!
//! The agent keeps private keys in memory and answers two kinds of request
//! over a framed byte stream: a listing of the public keys it holds, and a
//! signature over caller-supplied data made with one of those keys. This
//! crate holds the wire format, the identity store and the signing dispatch;
//! sockets and task scheduling are left to the embedding program.
//!
//! - [`wire`]: bytes, integers and strings on the wire, and the traits
//!   [`wire::Encode`] and [`wire::Decode`] for what is built from them.
//! - [`key`]: public keys, held as bytes in canonical form.
//! - [`sign`], [`signature`], [`messages`]: requests and responses.
//! - [`agent`]: frames, and the codec between byte buffers and messages.
//! - [`identity`], [`storage`]: the keys held, and the answers to requests.
//! - [`signer`]: the RSA primitive behind a narrow interface.
//! - [`connection`]: the life of one connection as a state machine.
//! - [`error`]: what can go wrong.
//!
//! Every executable function is verified against the contract it states.
//! The items that call into other crates are believed, not verified; each
//! says in its comment what it calls and what it claims.

pub mod agent;
pub mod connection;
pub mod error;
pub mod identity;
pub mod key;
pub mod messages;
pub mod sign;
pub mod signature;
pub mod signer;
pub mod storage;
pub mod wire;
