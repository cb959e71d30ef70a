//! Confidential transfer of images.
//!
//! A creator hides chosen parts of an image under a master key and publishes
//! the master key encrypted under the public key of a buyer. The holder can
//! later encrypt the master key again for the next buyer and prove, without
//! revealing it, that both encryptions hide the same key.

use vstd::prelude::*;

pub mod backend;
pub mod bytes;
pub mod chunks;
pub mod elgamal;
pub mod equality_proof;
pub mod error;
pub mod field;
pub mod group;
pub mod key_derive;
pub mod scalar;
pub mod utils;

verus! {

/// The encrypted part of an image.
#[derive(Clone, Debug, PartialEq, Eq)]
pub struct FullCipherText {
    /// The chunks whose bytes were encrypted, each by its row and column.
    pub pixels: Vec<(usize, usize)>,
    /// The nonce of the encryption.
    pub iv: [u8; 12],
    /// The encrypted bytes of the chunks, chunk after chunk in the order of
    /// `pixels`, followed by the authentication tag.
    pub data: Vec<u8>,
}

} // verus!
