//! The boundary to the cryptographic primitives.
//!
//! Group and field arithmetic, hashing, key derivation, authenticated
//! encryption and random sampling are done by `fastcrypto`, `hmac-sha512` and
//! `rand`. Nothing in this module is proved: each function states what the
//! primitive it calls is relied upon to do, and the rest of the library is
//! verified against these statements.
//!
//! Values cross the boundary as plain bytes. A scalar is its 32-byte
//! big-endian encoding, whose meaning is `be_value`. A G1 element is its
//! 48-byte compressed encoding; its meaning is its index `g1_index`, the
//! number of times the generator is added to itself to reach it.

use crate::field::{
    be_value, field_add, field_mul, field_neg, field_sub, group_order, is_reduced,
};
use fastcrypto::aes::{Aes256Gcm, AesKey, Cipher, InitializationVector};
use fastcrypto::error::FastCryptoError;
use fastcrypto::groups::bls12381::{buffer_to_scalar_mod_r, G1Element, Scalar};
use fastcrypto::groups::{GroupElement, Scalar as ScalarOps};
use fastcrypto::hash::{Blake2b256, HashFunction};
use fastcrypto::hmac::HkdfIkm;
use fastcrypto::serde_helpers::ToFromByteArray;
use fastcrypto::traits::{Generate, ToFromBytes};
use rand::rngs::StdRng;
use rand::{Rng, SeedableRng};
use typenum::{U12, U32};
use vstd::prelude::*;

verus! {

/// The cryptographically secure generator `rand::rngs::StdRng`, from which
/// every random value of the library is drawn.
#[verifier::external_type_specification]
#[verifier::external_body]
pub struct ExStdRng(StdRng);

/// The error type of `fastcrypto`.
#[verifier::external_type_specification]
#[verifier::external_body]
pub struct ExFastCryptoError(FastCryptoError);

/// The longest plaintext, in bytes, that AES-GCM seals.
pub const MAX_PLAINTEXT_LEN: u64 = 0x10_0000_0000;

/// The most bytes that HKDF with SHA3-256 puts out: 255 blocks of 32.
pub const MAX_HKDF_OUTPUT_LEN: usize = 8160;

/// Whether 48 bytes are the compressed encoding of an element of G1, that is
/// whether `G1Element::from_byte_array` accepts them.
pub uninterp spec fn g1_is_encoding(bytes: Seq<u8>) -> bool;

/// The index of the G1 element with the given encoding: the one `k` with
/// `0 <= k < group_order()` for which the element is `k` times the generator.
/// G1 is cyclic of prime order, so each element has exactly one.
pub uninterp spec fn g1_index(encoding: Seq<u8>) -> int;

/// The BLAKE2b digest of 256 bits of `data`.
pub uninterp spec fn blake2b256_digest(data: Seq<u8>) -> Seq<u8>;

/// HMAC-SHA512 of `data` under `key`.
pub uninterp spec fn hmac_sha512_tag(key: Seq<u8>, data: Seq<u8>) -> Seq<u8>;

/// The first `len` bytes that HKDF with SHA3-256 derives from the keying
/// material `ikm` with the given salt and info.
pub uninterp spec fn hkdf_sha3_256_okm(ikm: Seq<u8>, salt: Seq<u8>, info: Seq<u8>, len: nat) -> Seq<
    u8,
>;

/// The encoding of the first scalar that `Scalar::rand` draws from a `StdRng`
/// started from `seed`.
pub uninterp spec fn seeded_scalar(seed: Seq<u8>) -> Seq<u8>;

/// The first AES-256 key that `AesKey::generate` draws from a `StdRng` started
/// from `seed`.
pub uninterp spec fn seeded_aes_key(seed: Seq<u8>) -> Seq<u8>;

/// What AES-256-GCM makes of `plaintext` under `key` and the nonce `iv`, with
/// no associated data: the encrypted bytes followed by the tag.
pub uninterp spec fn aes_gcm_sealed(key: Seq<u8>, iv: Seq<u8>, plaintext: Seq<u8>) -> Seq<u8>;

/// What AES-256-GCM recovers from `sealed` under `key` and the nonce `iv`:
/// the plaintext, or nothing where the tag does not verify.
pub uninterp spec fn aes_gcm_opened(key: Seq<u8>, iv: Seq<u8>, sealed: Seq<u8>) -> Option<Seq<u8>>;

/// `Scalar::from_byte_array`: accepts exactly the encodings of numbers below
/// the group order.
#[verifier::external_body]
pub(crate) fn scalar_validate(bytes: &[u8; 32]) -> (r: Result<(), FastCryptoError>)
    ensures
        r is Ok <==> be_value(bytes@) < group_order(),
{
    match Scalar::from_byte_array(bytes) {
        Ok(_) => Ok(()),
        Err(e) => Err(e),
    }
}

/// `+` of `Scalar`: addition modulo the group order.
#[verifier::external_body]
pub(crate) fn scalar_add(a: &[u8; 32], b: &[u8; 32]) -> (r: [u8; 32])
    requires
        be_value(a@) < group_order(),
        be_value(b@) < group_order(),
    ensures
        be_value(r@) == field_add(be_value(a@) as int, be_value(b@) as int),
{
    let a = Scalar::from_byte_array(a).unwrap();
    let b = Scalar::from_byte_array(b).unwrap();
    (a + b).to_byte_array()
}

/// `-` of `Scalar` with two operands: subtraction modulo the group order.
#[verifier::external_body]
pub(crate) fn scalar_sub(a: &[u8; 32], b: &[u8; 32]) -> (r: [u8; 32])
    requires
        be_value(a@) < group_order(),
        be_value(b@) < group_order(),
    ensures
        be_value(r@) == field_sub(be_value(a@) as int, be_value(b@) as int),
{
    let a = Scalar::from_byte_array(a).unwrap();
    let b = Scalar::from_byte_array(b).unwrap();
    (a - b).to_byte_array()
}

/// `-` of `Scalar` with one operand: the additive inverse modulo the group
/// order.
#[verifier::external_body]
pub(crate) fn scalar_neg(a: &[u8; 32]) -> (r: [u8; 32])
    requires
        be_value(a@) < group_order(),
    ensures
        be_value(r@) == field_neg(be_value(a@) as int),
{
    (-Scalar::from_byte_array(a).unwrap()).to_byte_array()
}

/// `*` of `Scalar`: multiplication modulo the group order.
#[verifier::external_body]
pub(crate) fn scalar_mul(a: &[u8; 32], b: &[u8; 32]) -> (r: [u8; 32])
    requires
        be_value(a@) < group_order(),
        be_value(b@) < group_order(),
    ensures
        be_value(r@) == field_mul(be_value(a@) as int, be_value(b@) as int),
{
    let a = Scalar::from_byte_array(a).unwrap();
    let b = Scalar::from_byte_array(b).unwrap();
    (a * b).to_byte_array()
}

/// `buffer_to_scalar_mod_r`: reads 48 to 64 bytes as a big-endian number and
/// reduces it modulo the group order.
#[verifier::external_body]
pub(crate) fn scalar_reduce(buffer: &[u8]) -> (r: [u8; 32])
    requires
        48 <= buffer.len() <= 64,
    ensures
        be_value(r@) == be_value(buffer@) % (group_order() as nat),
{
    buffer_to_scalar_mod_r(buffer).unwrap().to_byte_array()
}

/// `Scalar::rand`: some scalar, whichever the generator yields.
#[verifier::external_body]
pub(crate) fn scalar_random(rng: &mut StdRng) -> (r: [u8; 32])
    ensures
        be_value(r@) < group_order(),
{
    Scalar::rand(rng).to_byte_array()
}

/// `Scalar::rand` on a `StdRng` made by `StdRng::from_seed`: a scalar that
/// the seed determines.
#[verifier::external_body]
pub(crate) fn scalar_from_seed(seed: &[u8; 32]) -> (r: [u8; 32])
    ensures
        r@ == seeded_scalar(seed@),
        be_value(r@) < group_order(),
{
    let mut rng = StdRng::from_seed(*seed);
    Scalar::rand(&mut rng).to_byte_array()
}

/// `G1Element::from_byte_array`: accepts exactly the encodings of G1
/// elements, each of which has its index.
#[verifier::external_body]
pub(crate) fn g1_validate(bytes: &[u8; 48]) -> (r: Result<(), FastCryptoError>)
    ensures
        r is Ok <==> g1_is_encoding(bytes@),
        r is Ok ==> is_reduced(g1_index(bytes@)),
{
    match G1Element::from_byte_array(bytes) {
        Ok(_) => Ok(()),
        Err(e) => Err(e),
    }
}

/// `G1Element::generator`: the element of index 1.
#[verifier::external_body]
pub(crate) fn g1_generator() -> (r: [u8; 48])
    ensures
        g1_is_encoding(r@),
        g1_index(r@) == 1,
{
    G1Element::generator().to_byte_array()
}

/// `+` of `G1Element`: the group operation, which adds indices.
#[verifier::external_body]
pub(crate) fn g1_add(a: &[u8; 48], b: &[u8; 48]) -> (r: [u8; 48])
    requires
        g1_is_encoding(a@),
        g1_is_encoding(b@),
    ensures
        g1_is_encoding(r@),
        g1_index(r@) == field_add(g1_index(a@), g1_index(b@)),
{
    let a = G1Element::from_byte_array(a).unwrap();
    let b = G1Element::from_byte_array(b).unwrap();
    (a + b).to_byte_array()
}

/// `-` of `G1Element`: adds the inverse, which subtracts indices.
#[verifier::external_body]
pub(crate) fn g1_sub(a: &[u8; 48], b: &[u8; 48]) -> (r: [u8; 48])
    requires
        g1_is_encoding(a@),
        g1_is_encoding(b@),
    ensures
        g1_is_encoding(r@),
        g1_index(r@) == field_sub(g1_index(a@), g1_index(b@)),
{
    let a = G1Element::from_byte_array(a).unwrap();
    let b = G1Element::from_byte_array(b).unwrap();
    (a - b).to_byte_array()
}

/// `-` of `G1Element` with one operand: the inverse element, whose index is
/// the negated index.
#[verifier::external_body]
pub(crate) fn g1_neg(a: &[u8; 48]) -> (r: [u8; 48])
    requires
        g1_is_encoding(a@),
    ensures
        g1_is_encoding(r@),
        g1_index(r@) == field_neg(g1_index(a@)),
{
    (-G1Element::from_byte_array(a).unwrap()).to_byte_array()
}

/// `*` of `G1Element` by `Scalar`: adds the element to itself that many
/// times, which multiplies its index.
#[verifier::external_body]
pub(crate) fn g1_mul(a: &[u8; 48], k: &[u8; 32]) -> (r: [u8; 48])
    requires
        g1_is_encoding(a@),
        be_value(k@) < group_order(),
    ensures
        g1_is_encoding(r@),
        g1_index(r@) == field_mul(g1_index(a@), be_value(k@) as int),
{
    let a = G1Element::from_byte_array(a).unwrap();
    let k = Scalar::from_byte_array(k).unwrap();
    (a * k).to_byte_array()
}

/// `==` of `G1Element`: two elements are equal exactly if their indices are.
#[verifier::external_body]
pub(crate) fn g1_eq(a: &[u8; 48], b: &[u8; 48]) -> (r: bool)
    requires
        g1_is_encoding(a@),
        g1_is_encoding(b@),
    ensures
        r == (g1_index(a@) == g1_index(b@)),
{
    G1Element::from_byte_array(a).unwrap() == G1Element::from_byte_array(b).unwrap()
}

/// `Blake2b256::digest`.
#[verifier::external_body]
pub(crate) fn blake2b256(data: &[u8]) -> (r: [u8; 32])
    ensures
        r@ == blake2b256_digest(data@),
{
    Blake2b256::digest(data).digest
}

/// `hmac_sha512::HMAC::mac`, which takes the message first and the key
/// second.
#[verifier::external_body]
pub(crate) fn hmac_sha512_mac(key: &[u8], data: &[u8]) -> (r: [u8; 64])
    ensures
        r@ == hmac_sha512_tag(key@, data@),
{
    hmac_sha512::HMAC::mac(data, key)
}

/// `fastcrypto::hmac::hkdf_sha3_256`, which puts out as many bytes as asked
/// for, up to 255 blocks.
#[verifier::external_body]
pub(crate) fn hkdf_sha3_256(ikm: &[u8], salt: &[u8], info: &[u8], len: usize) -> (r: Vec<u8>)
    requires
        len <= MAX_HKDF_OUTPUT_LEN,
    ensures
        r@ == hkdf_sha3_256_okm(ikm@, salt@, info@, len as nat),
        r.len() == len,
{
    let ikm = HkdfIkm::from_bytes(ikm).unwrap();
    fastcrypto::hmac::hkdf_sha3_256(&ikm, salt, info, len).unwrap()
}

/// `AesKey::generate` on a `StdRng` made by `StdRng::from_seed`: a key that
/// the seed determines.
#[verifier::external_body]
pub(crate) fn aes_key_from_seed(seed: &[u8; 32]) -> (r: [u8; 32])
    ensures
        r@ == seeded_aes_key(seed@),
{
    let mut rng = StdRng::from_seed(*seed);
    let key = AesKey::<U32>::generate(&mut rng);
    key.as_bytes().try_into().unwrap()
}

/// `InitializationVector::generate`: 12 bytes, whichever the generator
/// yields.
#[verifier::external_body]
pub(crate) fn random_nonce(rng: &mut StdRng) -> (r: [u8; 12]) {
    let iv = InitializationVector::<U12>::generate(rng);
    iv.as_bytes().try_into().unwrap()
}

/// `Rng::gen_range` on `0..bound`: some number below the bound.
#[verifier::external_body]
pub(crate) fn random_below(rng: &mut StdRng, bound: u32) -> (r: u32)
    requires
        bound > 0,
    ensures
        r < bound,
{
    rng.gen_range(0..bound)
}

/// `Cipher::encrypt` of `Aes256Gcm` with a 12-byte nonce: the sealed bytes,
/// 16 longer than the plaintext, which `Cipher::decrypt` opens to the
/// plaintext again.
#[verifier::external_body]
pub(crate) fn aes_gcm_encrypt(key: &[u8; 32], iv: &[u8; 12], plaintext: &[u8]) -> (r: Vec<u8>)
    requires
        plaintext.len() <= MAX_PLAINTEXT_LEN,
    ensures
        r@ == aes_gcm_sealed(key@, iv@, plaintext@),
        r.len() == plaintext.len() + 16,
        aes_gcm_opened(key@, iv@, r@) == Some(plaintext@),
{
    let cipher = Aes256Gcm::<U12>::new(AesKey::<U32>::from_bytes(key).unwrap());
    let iv = InitializationVector::<U12>::from_bytes(iv).unwrap();
    cipher.encrypt(&iv, plaintext)
}

/// `Cipher::decrypt` of `Aes256Gcm` with a 12-byte nonce: the plaintext, or an
/// error where the tag does not verify.
#[verifier::external_body]
pub(crate) fn aes_gcm_decrypt(key: &[u8; 32], iv: &[u8; 12], sealed: &[u8]) -> (r: Result<
    Vec<u8>,
    FastCryptoError,
>)
    ensures
        r matches Ok(plaintext) ==> aes_gcm_opened(key@, iv@, sealed@) == Some(plaintext@),
        r is Err ==> aes_gcm_opened(key@, iv@, sealed@) is None,
{
    let cipher = Aes256Gcm::<U12>::new(AesKey::<U32>::from_bytes(key).unwrap());
    let iv = InitializationVector::<U12>::from_bytes(iv).unwrap();
    cipher.decrypt(&iv, sealed)
}

} // verus!
