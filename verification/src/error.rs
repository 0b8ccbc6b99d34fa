//! Errors raised by the protocol engine.

use vstd::prelude::*;

verus! {

/// Everything that can go wrong while decoding, dispatching or encoding.
#[derive(Clone, Copy, Debug, PartialEq, Eq, Structural)]
pub enum AgentError {
    /// The transport under a connection failed.
    IOError,
    /// No held identity has the requested public key.
    KeyNotFound,
    /// The matching identity's key is not of a family the agent can sign with.
    UnsupportedKeyType,
    /// A message began with a tag that names no known variant.
    UnknownMessage,
    /// A message ended before all of its fields were read.
    Truncated,
    /// A text field did not hold UTF-8.
    InvalidText,
    /// A length does not fit in the width the wire format gives it.
    TooLong,
    /// A signature names an algorithm that is not known.
    UnknownAlgorithm,
    /// A public-key blob is not the encoding of a key.
    InvalidKey,
    /// The signing primitive refused the key or the data.
    SigningFailed,
}

impl AgentError {
    /// What the error says, for a log or a report.
    pub open spec fn spec_message(self) -> Seq<char> {
        match self {
            AgentError::IOError => "transport failed"@,
            AgentError::KeyNotFound => "identity not found"@,
            AgentError::UnsupportedKeyType => "key type not supported"@,
            AgentError::UnknownMessage => "unknown message tag"@,
            AgentError::Truncated => "message ends too early"@,
            AgentError::InvalidText => "text is not UTF-8"@,
            AgentError::TooLong => "length does not fit"@,
            AgentError::UnknownAlgorithm => "unknown signature algorithm"@,
            AgentError::InvalidKey => "not a public key"@,
            AgentError::SigningFailed => "signing failed"@,
        }
    }

    /// What the error says, for a log or a report.
    pub fn message(&self) -> (r: &'static str)
        ensures
            r@ == self.spec_message(),
    {
        match self {
            AgentError::IOError => "transport failed",
            AgentError::KeyNotFound => "identity not found",
            AgentError::UnsupportedKeyType => "key type not supported",
            AgentError::UnknownMessage => "unknown message tag",
            AgentError::Truncated => "message ends too early",
            AgentError::InvalidText => "text is not UTF-8",
            AgentError::TooLong => "length does not fit",
            AgentError::UnknownAlgorithm => "unknown signature algorithm",
            AgentError::InvalidKey => "not a public key",
            AgentError::SigningFailed => "signing failed",
        }
    }
}

} // verus!
