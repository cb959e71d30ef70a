//! The ways in which an operation of this library can fail.

use vstd::prelude::*;

verus! {

/// Why an operation was refused. Every failure is final: the same inputs fail
/// the same way again.
#[derive(Clone, Copy, Debug, PartialEq, Eq, Structural)]
pub enum EnftError {
    /// Bytes that should spell a scalar or a group element do not.
    InvalidEncoding,
    /// An equality proof does not satisfy its three verification equations.
    ProofInvalid,
    /// A ciphertext does not carry a valid authentication tag for the key and
    /// nonce it was opened with.
    AuthenticationFailed,
    /// An image buffer disagrees with its own header, or a list of chunks
    /// with the image or the data that it is applied to.
    DimensionMismatch,
}

impl EnftError {
    /// The text that describes the failure.
    pub open spec fn message_text(self) -> Seq<char> {
        match self {
            EnftError::InvalidEncoding => "invalid encoding of a scalar or group element"@,
            EnftError::ProofInvalid => "equality proof rejected"@,
            EnftError::AuthenticationFailed => "ciphertext failed authentication"@,
            EnftError::DimensionMismatch => "image dimensions do not match"@,
        }
    }

    /// A short description of the failure.
    pub fn message(&self) -> (text: &'static str)
        ensures
            text@ == self.message_text(),
    {
        match self {
            EnftError::InvalidEncoding => "invalid encoding of a scalar or group element",
            EnftError::ProofInvalid => "equality proof rejected",
            EnftError::AuthenticationFailed => "ciphertext failed authentication",
            EnftError::DimensionMismatch => "image dimensions do not match",
        }
    }
}

} // verus!
