//! Derivation of private keys.
//!
//! A key is derived either from a seed along a path of hardened indices, or
//! from a master key together with the identifiers of an application and a
//! user. Both ways are functions of their inputs alone.

use crate::backend::{
    hkdf_sha3_256, hkdf_sha3_256_okm, hmac_sha512_mac, hmac_sha512_tag, seeded_scalar,
};
use crate::bytes::{copy_into, to_array, u32_be_bytes, u32_to_be_bytes};
use crate::field::{be_value, group_order};
use crate::group::G1_ELEMENT_BYTE_LENGTH;
use crate::scalar::Scalar;
use vstd::prelude::*;
use vstd::slice::slice_subrange;

verus! {

/// The bit that marks an index of a path as hardened.
pub const HARDENED_BIT: u32 = 0x8000_0000;

/// The key under which the seed is hashed to begin a derivation: the bytes of
/// `bls12381 seed`.
pub open spec fn master_key_label() -> Seq<u8> {
    seq![0x62u8, 0x6c, 0x73, 0x31, 0x32, 0x33, 0x38, 0x31, 0x20, 0x73, 0x65, 0x65, 0x64]
}

/// The node at the root of the hierarchy of keys that `seed` spans.
pub open spec fn master_node(seed: Seq<u8>) -> Seq<u8> {
    hmac_sha512_tag(master_key_label(), seed)
}

/// The message that is hashed to step from the node `parent` to its hardened
/// child `index`: a zero byte, the left half of the parent, and the index
/// with its hardened bit set.
pub open spec fn child_message_bytes(parent: Seq<u8>, index: u32) -> Seq<u8> {
    seq![0u8] + parent.subrange(0, 32) + u32_be_bytes(index | HARDENED_BIT)
}

/// The hardened child `index` of the node `parent`. The right half of the
/// parent keys the hash.
pub open spec fn child_node(parent: Seq<u8>, index: u32) -> Seq<u8> {
    hmac_sha512_tag(parent.subrange(32, 64), child_message_bytes(parent, index))
}

/// The node reached from the master node of `seed` by stepping to one child
/// after another along `path`.
pub open spec fn derived_node(seed: Seq<u8>, path: Seq<u32>) -> Seq<u8>
    decreases path.len(),
{
    if path.len() == 0 {
        master_node(seed)
    } else {
        child_node(derived_node(seed, path.drop_last()), path.last())
    }
}

/// The encoding of the private key at the end of `path`: the scalar that the
/// left half of the node seeds.
pub open spec fn derived_key(seed: Seq<u8>, path: Seq<u32>) -> Seq<u8> {
    seeded_scalar(derived_node(seed, path).subrange(0, 32))
}

/// The number modulo the group order that `master_key`, `app_id` and
/// `user_id` derive: 48 bytes of HKDF output with `app_id` as salt and
/// `user_id` as info, read as a number and reduced.
pub open spec fn derived_private_key(
    master_key: Seq<u8>,
    app_id: Seq<u8>,
    user_id: Seq<u8>,
) -> int {
    let bytes = hkdf_sha3_256_okm(master_key, app_id, user_id, 48);
    (be_value(bytes) % (group_order() as nat)) as int
}

/// HMAC-SHA512 of `data` under `key`.
pub fn hmac_sha512(key: &[u8], data: &[u8]) -> (mac: [u8; 64])
    ensures
        mac@ == hmac_sha512_tag(key@, data@),
{
    hmac_sha512_mac(key, data)
}

/// The message that is hashed to step from the node `parent` to its hardened
/// child `index`.
pub fn child_message(parent: &[u8; 64], index: u32) -> (message: [u8; 37])
    ensures
        message@ == child_message_bytes(parent@, index),
{
    let index_bytes = u32_to_be_bytes(index | HARDENED_BIT);
    let mut message = [0u8; 37];
    copy_into(&mut message, 1, slice_subrange(parent.as_slice(), 0, 32));
    copy_into(&mut message, 33, index_bytes.as_slice());
    assert(message@ =~= child_message_bytes(parent@, index));
    message
}

/// Derives the private key at the end of `path` in the hierarchy that `seed`
/// spans. Every step is hardened, whether or not the index carries the
/// hardened bit. An empty path derives no key.
pub fn derive_key(seed: &[u8], path: &[u32]) -> (key: Option<Scalar>)
    ensures
        key is Some <==> path.len() > 0,
        key matches Some(k) ==> k.wf() && k.encoding() == derived_key(seed@, path@),
{
    if path.len() == 0 {
        return None;
    }
    let label: [u8; 13] = [
        0x62,
        0x6c,
        0x73,
        0x31,
        0x32,
        0x33,
        0x38,
        0x31,
        0x20,
        0x73,
        0x65,
        0x65,
        0x64,
    ];
    assert(label@ =~= master_key_label());
    let mut node = hmac_sha512(label.as_slice(), seed);
    let mut i: usize = 0;
    assert(path@.subrange(0, 0) =~= Seq::<u32>::empty());
    while i < path.len()
        invariant
            i <= path.len(),
            node@ == derived_node(seed@, path@.subrange(0, i as int)),
        decreases path.len() - i,
    {
        let data = child_message(&node, path[i]);
        node = hmac_sha512(slice_subrange(node.as_slice(), 32, 64), data.as_slice());
        i += 1;
        proof {
            let prefix = path@.subrange(0, i as int);
            assert(prefix.drop_last() =~= path@.subrange(0, i - 1));
            assert(prefix.last() == path@[i - 1]);
        }
    }
    assert(path@.subrange(0, i as int) =~= path@);
    let seed_bytes: [u8; 32] = to_array(slice_subrange(node.as_slice(), 0, 32));
    Some(Scalar::from_seed(&seed_bytes))
}

/// Derives the private key of the user `user_id` of the application `app_id`
/// from `master_key`. The key is the output of HKDF, reduced modulo the group
/// order; nothing is sampled and nothing retried.
pub fn derive_private_key(master_key: &[u8], app_id: &[u8], user_id: &[u8]) -> (key: Scalar)
    ensures
        key.wf(),
        key@ == derived_private_key(master_key@, app_id@, user_id@),
{
    let bytes = hkdf_sha3_256(master_key, app_id, user_id, G1_ELEMENT_BYTE_LENGTH);
    Scalar::reduce(bytes.as_slice()).unwrap()
}

} // verus!
