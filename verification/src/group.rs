//! Elements of the group G1 of BLS12-381.

use crate::backend::{
    g1_add, g1_eq, g1_generator, g1_index, g1_is_encoding, g1_mul, g1_neg, g1_sub, g1_validate,
};
use crate::bytes::to_array;
use crate::error::EnftError;
use crate::field::{field_add, field_mul, field_neg, field_sub, is_reduced};
use crate::scalar::Scalar;
use vstd::prelude::*;

verus! {

/// The length of an encoded group element.
pub const G1_ELEMENT_BYTE_LENGTH: usize = 48;

/// An element of G1: a public key, the master key, or a commitment of a
/// proof.
///
/// It is kept as its compressed encoding of 48 bytes. G1 is generated by one
/// element and has prime order, so each element is a multiple `k` of the
/// generator for exactly one `k` below the group order. That `k`, the index,
/// is the view: adding elements adds their views, and multiplying an element
/// by a scalar multiplies its view, both modulo the group order. Nobody can
/// compute the index of a given element; it serves to state what the
/// operations do.
#[derive(Clone, Copy, Debug, PartialEq, Eq)]
pub struct GroupElement {
    bytes: [u8; 48],
}

impl View for GroupElement {
    type V = int;

    open spec fn view(&self) -> int {
        g1_index(self.encoding())
    }
}

impl GroupElement {
    /// The compressed encoding.
    pub closed spec fn encoding(self) -> Seq<u8> {
        self.bytes@
    }

    /// The bytes encode an element, whose index is below the group order.
    #[verifier::type_invariant]
    pub open spec fn wf(self) -> bool {
        &&& self.encoding().len() == 48
        &&& g1_is_encoding(self.encoding())
        &&& is_reduced(self@)
    }

    /// An element is determined by its encoding, so reading back what
    /// `to_bytes` wrote gives the element again.
    pub proof fn lemma_encoding_determines(a: GroupElement, b: GroupElement)
        requires
            a.encoding() == b.encoding(),
        ensures
            a == b,
    {
        assert(a.bytes =~= b.bytes);
    }

    /// The generator `g` of the group.
    pub fn generator() -> (g: GroupElement)
        ensures
            g.wf(),
            g@ == 1,
    {
        let bytes = g1_generator();
        GroupElement { bytes }
    }

    /// Reads an element from its compressed encoding. The bytes are refused
    /// unless there are 48 of them and they encode a point of the group.
    pub fn from_bytes(bytes: &[u8]) -> (r: Result<GroupElement, EnftError>)
        ensures
            r is Ok <==> bytes.len() == 48 && g1_is_encoding(bytes@),
            r matches Ok(p) ==> p.wf() && p.encoding() == bytes@,
            r matches Err(e) ==> e == EnftError::InvalidEncoding,
    {
        if bytes.len() != G1_ELEMENT_BYTE_LENGTH {
            return Err(EnftError::InvalidEncoding);
        }
        let array: [u8; 48] = to_array(bytes);
        match g1_validate(&array) {
            Ok(_) => Ok(GroupElement { bytes: array }),
            Err(_) => Err(EnftError::InvalidEncoding),
        }
    }

    /// The compressed encoding.
    pub fn to_bytes(&self) -> (bytes: [u8; 48])
        ensures
            bytes@ == self.encoding(),
    {
        self.bytes
    }

    /// The sum of two elements.
    pub fn add(&self, other: &GroupElement) -> (sum: GroupElement)
        ensures
            sum.wf(),
            sum@ == field_add(self@, other@),
    {
        proof {
            use_type_invariant(self);
            use_type_invariant(other);
        }
        let bytes = g1_add(&self.bytes, &other.bytes);
        GroupElement { bytes }
    }

    /// The difference of two elements.
    pub fn sub(&self, other: &GroupElement) -> (difference: GroupElement)
        ensures
            difference.wf(),
            difference@ == field_sub(self@, other@),
    {
        proof {
            use_type_invariant(self);
            use_type_invariant(other);
        }
        let bytes = g1_sub(&self.bytes, &other.bytes);
        GroupElement { bytes }
    }

    /// The inverse of the element.
    pub fn neg(&self) -> (inverse: GroupElement)
        ensures
            inverse.wf(),
            inverse@ == field_neg(self@),
    {
        proof {
            use_type_invariant(self);
        }
        let bytes = g1_neg(&self.bytes);
        GroupElement { bytes }
    }

    /// The element added to itself `k` times.
    pub fn mul(&self, k: &Scalar) -> (product: GroupElement)
        ensures
            product.wf(),
            product@ == field_mul(self@, k@),
    {
        proof {
            use_type_invariant(self);
            use_type_invariant(k);
        }
        let k_bytes = k.to_bytes();
        let bytes = g1_mul(&self.bytes, &k_bytes);
        GroupElement { bytes }
    }

    /// Whether two values are the same element of the group.
    pub fn equals(&self, other: &GroupElement) -> (same: bool)
        ensures
            same == (self@ == other@),
    {
        proof {
            use_type_invariant(self);
            use_type_invariant(other);
        }
        g1_eq(&self.bytes, &other.bytes)
    }
}

} // verus!
