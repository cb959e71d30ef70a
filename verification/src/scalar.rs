//! Scalars: the integers modulo the group order.

use crate::backend::{
    scalar_add, scalar_from_seed, scalar_mul, scalar_neg, scalar_random, scalar_reduce,
    scalar_sub, scalar_validate, seeded_scalar,
};
use crate::bytes::{copy_into, to_array};
use crate::error::EnftError;
use crate::field::{
    be_value, field_add, field_mul, field_neg, field_sub, group_order, is_reduced,
    lemma_be_value_injective, lemma_be_value_leading_zeros,
};
use rand::rngs::StdRng;
use vstd::prelude::*;

verus! {

/// The length of an encoded scalar.
pub const SCALAR_LENGTH: usize = 32;

/// An element of the scalar field: a private key, the randomness of an
/// encryption, or a response of a proof.
///
/// It is kept as its canonical encoding: 32 bytes that spell, most
/// significant byte first, a number below the group order. Its view is that
/// number.
#[derive(Clone, Copy, Debug, PartialEq, Eq)]
pub struct Scalar {
    bytes: [u8; 32],
}

impl View for Scalar {
    type V = int;

    open spec fn view(&self) -> int {
        be_value(self.encoding()) as int
    }
}

impl Scalar {
    /// The canonical encoding.
    pub closed spec fn encoding(self) -> Seq<u8> {
        self.bytes@
    }

    /// The encoding has 32 bytes and spells a number below the group order.
    #[verifier::type_invariant]
    pub open spec fn wf(self) -> bool {
        self.encoding().len() == 32 && is_reduced(self@)
    }

    /// Reads a scalar from its encoding. The bytes are refused unless there
    /// are 32 of them and they spell a number below the group order.
    pub fn from_bytes(bytes: &[u8]) -> (r: Result<Scalar, EnftError>)
        ensures
            r is Ok <==> bytes.len() == 32 && be_value(bytes@) < group_order(),
            r matches Ok(s) ==> s.wf() && s.encoding() == bytes@,
            r matches Err(e) ==> e == EnftError::InvalidEncoding,
    {
        if bytes.len() != SCALAR_LENGTH {
            return Err(EnftError::InvalidEncoding);
        }
        let array: [u8; 32] = to_array(bytes);
        match scalar_validate(&array) {
            Ok(_) => Ok(Scalar { bytes: array }),
            Err(_) => Err(EnftError::InvalidEncoding),
        }
    }

    /// The canonical encoding.
    pub fn to_bytes(&self) -> (bytes: [u8; 32])
        ensures
            bytes@ == self.encoding(),
    {
        self.bytes
    }

    /// Draws a scalar from `rng`.
    pub fn random(rng: &mut StdRng) -> (s: Scalar)
        ensures
            s.wf(),
    {
        let bytes = scalar_random(rng);
        Scalar { bytes }
    }

    /// The scalar that a generator started from `seed` yields first. The
    /// same seed always gives the same scalar.
    pub fn from_seed(seed: &[u8; 32]) -> (s: Scalar)
        ensures
            s.wf(),
            s.encoding() == seeded_scalar(seed@),
    {
        let bytes = scalar_from_seed(seed);
        Scalar { bytes }
    }

    /// Reads up to 64 bytes as a big-endian number and reduces it modulo the
    /// group order. Every number of that length is taken: none is rejected
    /// for being too large and nothing is drawn again. Longer inputs are
    /// refused.
    pub fn reduce(buffer: &[u8]) -> (r: Result<Scalar, EnftError>)
        ensures
            r is Ok <==> buffer.len() <= 64,
            r matches Ok(s) ==> s.wf() && s@ == be_value(buffer@) % (group_order() as nat),
            r matches Err(e) ==> e == EnftError::InvalidEncoding,
    {
        if buffer.len() > 64 {
            Err(EnftError::InvalidEncoding)
        } else if buffer.len() >= 48 {
            let bytes = scalar_reduce(buffer);
            Ok(Scalar { bytes })
        } else {
            let mut padded = [0u8; 48];
            let ghost zeros = padded@.subrange(0, 48 - buffer.len());
            copy_into(&mut padded, 48 - buffer.len(), buffer);
            proof {
                assert(padded@ =~= zeros + buffer@);
                lemma_be_value_leading_zeros(zeros, buffer@);
            }
            let bytes = scalar_reduce(padded.as_slice());
            Ok(Scalar { bytes })
        }
    }

    /// The sum of two scalars.
    pub fn add(&self, other: &Scalar) -> (s: Scalar)
        ensures
            s.wf(),
            s@ == field_add(self@, other@),
    {
        proof {
            use_type_invariant(self);
            use_type_invariant(other);
        }
        let bytes = scalar_add(&self.bytes, &other.bytes);
        Scalar { bytes }
    }

    /// The difference of two scalars.
    pub fn sub(&self, other: &Scalar) -> (s: Scalar)
        ensures
            s.wf(),
            s@ == field_sub(self@, other@),
    {
        proof {
            use_type_invariant(self);
            use_type_invariant(other);
        }
        let bytes = scalar_sub(&self.bytes, &other.bytes);
        Scalar { bytes }
    }

    /// The additive inverse of a scalar.
    pub fn neg(&self) -> (s: Scalar)
        ensures
            s.wf(),
            s@ == field_neg(self@),
    {
        proof {
            use_type_invariant(self);
        }
        let bytes = scalar_neg(&self.bytes);
        Scalar { bytes }
    }

    /// The product of two scalars.
    pub fn mul(&self, other: &Scalar) -> (s: Scalar)
        ensures
            s.wf(),
            s@ == field_mul(self@, other@),
    {
        proof {
            use_type_invariant(self);
            use_type_invariant(other);
        }
        let bytes = scalar_mul(&self.bytes, &other.bytes);
        Scalar { bytes }
    }

    /// A scalar is determined by its encoding, so reading back what
    /// `to_bytes` wrote gives the scalar again.
    pub proof fn lemma_encoding_determines(a: Scalar, b: Scalar)
        requires
            a.encoding() == b.encoding(),
        ensures
            a == b,
    {
        assert(a.bytes =~= b.bytes);
    }

    /// Scalars that stand for the same number are the same scalar.
    pub proof fn lemma_view_determines(a: Scalar, b: Scalar)
        requires
            a.wf(),
            b.wf(),
            a@ == b@,
        ensures
            a == b,
    {
        lemma_be_value_injective(a.bytes@, b.bytes@);
        assert(a.bytes =~= b.bytes);
    }
}

} // verus!
