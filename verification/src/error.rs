//! Error taxonomy of the handshake core.

use vstd::prelude::*;

verus! {

/// Failure of a cryptographic operation.
#[derive(Clone, Copy, Debug, PartialEq, Eq)]
pub enum CryptoError {
    /// The authentication tag of a protected payload did not verify.
    AuthenticationFailure,
    /// The primitive was handed key material or input of a length it rejects.
    InvalidLength,
}

/// Everything that can go wrong while establishing a connection.
#[derive(Clone, Copy, Debug, PartialEq, Eq)]
pub enum Error {
    /// Invalid server name or address, or the local endpoint could not be
    /// bound. Raised before the handshake state machine starts.
    Configuration,
    /// The datagram transport failed while sending or receiving.
    Transport,
    /// The TLS engine could not start or continue the handshake.
    Handshake,
    /// Key derivation or packet protection failed.
    Crypto(CryptoError),
    /// Bytes on the wire, or a packet about to be written, break the framing
    /// rules.
    MalformedPacket,
}

impl Error {
    /// Whether the error concerns one datagram only, so that a receiver
    /// drops the datagram and keeps waiting instead of giving up.
    pub open spec fn spec_is_discardable(self) -> bool {
        self == Error::MalformedPacket || self == Error::Crypto(
            CryptoError::AuthenticationFailure,
        )
    }

    #[verifier::when_used_as_spec(spec_is_discardable)]
    pub fn is_discardable(self) -> (b: bool)
        ensures
            b == self.spec_is_discardable(),
    {
        match self {
            Error::MalformedPacket => true,
            Error::Crypto(CryptoError::AuthenticationFailure) => true,
            _ => false,
        }
    }
}

} // verus!
