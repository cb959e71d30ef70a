//! ElGamal encryption of a group element under a public key.
//!
//! A key pair is a scalar `sk` and the element `pk = g * sk`. To encrypt the
//! element `m` under `pk`, a scalar `r` is drawn; the encryption is the pair
//! of `g * r` and `pk * r + m`. Whoever knows `sk` takes `sk` times the first
//! from the second and is left with `m`.

use crate::field::{
    congruent, field_add, field_mul, field_sub, is_reduced, lemma_field_add_congruent,
    lemma_field_mul_congruent, lemma_field_ops_congruent, lemma_field_sub_congruent,
    lemma_reduced_is_fixed,
};
use crate::group::GroupElement;
use crate::scalar::Scalar;
use rand::rngs::StdRng;
use vstd::arithmetic::mul::lemma_mul_is_commutative;
use vstd::prelude::*;

verus! {

/// A group element hidden under a public key.
#[derive(Clone, Copy, Debug, PartialEq, Eq)]
pub struct ElGamalEncryption {
    /// `g * r`, for the randomness `r` of the encryption.
    pub ephemeral: GroupElement,
    /// `pk * r + m`, for the public key `pk` and the plaintext `m`.
    pub ciphertext: GroupElement,
}

impl ElGamalEncryption {
    /// Both parts are elements of the group.
    pub open spec fn wf(self) -> bool {
        self.ephemeral.wf() && self.ciphertext.wf()
    }

    /// Whether this is the encryption of the element of index `plaintext`
    /// under the public key of index `public_key` with randomness
    /// `randomness`.
    pub open spec fn encrypts(self, plaintext: int, public_key: int, randomness: int) -> bool {
        &&& self.ephemeral@ == field_mul(1, randomness)
        &&& self.ciphertext@ == field_add(field_mul(public_key, randomness), plaintext)
    }

    /// The index of the element that the holder of `secret_key` reads out of
    /// this encryption.
    pub open spec fn decrypted(self, secret_key: int) -> int {
        field_sub(self.ciphertext@, field_mul(self.ephemeral@, secret_key))
    }
}

/// The index of the public key that belongs to the secret key `secret_key`.
pub open spec fn public_key_of(secret_key: int) -> int {
    field_mul(1, secret_key)
}

/// The public key `g * sk` that belongs to the secret key `sk`.
pub fn public_key(secret_key: &Scalar) -> (pk: GroupElement)
    ensures
        pk.wf(),
        pk@ == public_key_of(secret_key@),
        pk@ == secret_key@,
{
    proof {
        use_type_invariant(secret_key);
        lemma_reduced_is_fixed(secret_key@);
    }
    GroupElement::generator().mul(secret_key)
}

/// Draws a secret key and computes its public key.
pub fn generate_key_pair(rng: &mut StdRng) -> (pair: (Scalar, GroupElement))
    ensures
        pair.0.wf(),
        pair.1.wf(),
        pair.1@ == public_key_of(pair.0@),
{
    let secret_key = Scalar::random(rng);
    let pk = public_key(&secret_key);
    (secret_key, pk)
}

/// Encrypts `plaintext` under `pk` with the given randomness.
pub fn encrypt_with(plaintext: &GroupElement, pk: &GroupElement, randomness: &Scalar) -> (enc:
    ElGamalEncryption)
    ensures
        enc.wf(),
        enc.encrypts(plaintext@, pk@, randomness@),
{
    let ephemeral = GroupElement::generator().mul(randomness);
    let ciphertext = pk.mul(randomness).add(plaintext);
    ElGamalEncryption { ephemeral, ciphertext }
}

/// Encrypts `plaintext` under `pk` with randomness drawn from `rng`.
pub fn encrypt(plaintext: &GroupElement, pk: &GroupElement, rng: &mut StdRng) -> (enc:
    ElGamalEncryption)
    ensures
        enc.wf(),
        exists|r: int| is_reduced(r) && enc.encrypts(plaintext@, pk@, r),
{
    let randomness = Scalar::random(rng);
    let enc = encrypt_with(plaintext, pk, &randomness);
    assert(is_reduced(randomness@) && enc.encrypts(plaintext@, pk@, randomness@));
    enc
}

/// Encrypts under `new_pk` a plaintext that the caller already knows,
/// usually from decrypting an earlier encryption. It is `encrypt` under
/// another name.
pub fn reencrypt(plaintext: &GroupElement, new_pk: &GroupElement, rng: &mut StdRng) -> (enc:
    ElGamalEncryption)
    ensures
        enc.wf(),
        exists|r: int| is_reduced(r) && enc.encrypts(plaintext@, new_pk@, r),
{
    encrypt(plaintext, new_pk, rng)
}

/// Reads the plaintext out of `enc` with the secret key: the ciphertext less
/// `secret_key` times the ephemeral element. This always gives an element;
/// whether it is the one that was encrypted depends on the key being the
/// right one.
pub fn decrypt(enc: &ElGamalEncryption, secret_key: &Scalar) -> (plaintext: GroupElement)
    ensures
        plaintext.wf(),
        plaintext@ == enc.decrypted(secret_key@),
{
    enc.ciphertext.sub(&enc.ephemeral.mul(secret_key))
}

/// Decryption undoes encryption: what was encrypted under the public key of
/// `secret_key`, with whatever randomness, is what `secret_key` decrypts.
pub proof fn lemma_decrypt_inverts_encrypt(
    enc: ElGamalEncryption,
    plaintext: GroupElement,
    secret_key: int,
    randomness: int,
)
    requires
        plaintext.wf(),
        enc.encrypts(plaintext@, public_key_of(secret_key), randomness),
    ensures
        enc.decrypted(secret_key) == plaintext@,
{
    let m = plaintext@;
    let pk = public_key_of(secret_key);
    lemma_field_ops_congruent(1, secret_key);
    lemma_field_ops_congruent(1, randomness);
    assert(congruent(pk, secret_key));
    assert(congruent(enc.ephemeral@, randomness));
    lemma_field_mul_congruent(pk, randomness, secret_key, randomness);
    lemma_field_add_congruent(field_mul(pk, randomness), m, secret_key * randomness, m);
    lemma_field_mul_congruent(enc.ephemeral@, secret_key, randomness, secret_key);
    lemma_field_sub_congruent(
        enc.ciphertext@,
        field_mul(enc.ephemeral@, secret_key),
        secret_key * randomness + m,
        randomness * secret_key,
    );
    lemma_mul_is_commutative(secret_key, randomness);
    lemma_reduced_is_fixed(m);
}

/// Re-encryption keeps the plaintext: an encryption under one key and a
/// later one of the same plaintext under another key decrypt, each with its
/// own secret key, to the same element, the plaintext.
pub proof fn lemma_reencryption_preserves_plaintext(
    first: ElGamalEncryption,
    second: ElGamalEncryption,
    plaintext: GroupElement,
    first_secret_key: int,
    second_secret_key: int,
    first_randomness: int,
    second_randomness: int,
)
    requires
        plaintext.wf(),
        first.encrypts(plaintext@, public_key_of(first_secret_key), first_randomness),
        second.encrypts(plaintext@, public_key_of(second_secret_key), second_randomness),
    ensures
        second.decrypted(second_secret_key) == first.decrypted(first_secret_key),
        first.decrypted(first_secret_key) == plaintext@,
{
    lemma_decrypt_inverts_encrypt(first, plaintext, first_secret_key, first_randomness);
    lemma_decrypt_inverts_encrypt(second, plaintext, second_secret_key, second_randomness);
}

} // verus!
