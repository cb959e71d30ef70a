//! Proofs that two ElGamal encryptions hide the same element.
//!
//! When the holder of an encrypted element passes it on, the element is
//! encrypted again under the public key of the receiver. The proof shows,
//! without revealing the element, that the new encryption hides what the old
//! one hid, and that its maker knew the secret key of the old one and the
//! randomness of the new one. It is a Chaum-Pedersen proof made
//! non-interactive: the challenge is a hash of everything public.

use crate::backend::{blake2b256, blake2b256_digest};
use crate::bytes::append;
use crate::elgamal::{encrypt_with, public_key, public_key_of, ElGamalEncryption};
use crate::error::EnftError;
use crate::field::{
    be_value, congruent, field_add, field_mul, field_sub, group_order,
    lemma_field_add_congruent, lemma_field_mul_congruent, lemma_field_ops_congruent,
    lemma_field_sub_congruent, lemma_reduced_is_fixed,
};
use crate::group::GroupElement;
use crate::scalar::Scalar;
use rand::rngs::StdRng;
use vstd::arithmetic::div_mod::lemma_mod_equivalence;
use vstd::prelude::*;

verus! {

/// A proof that two encrypted master keys are consistent with respect to the
/// same master key.
#[derive(Clone, Copy, Debug, PartialEq, Eq)]
pub struct EqualityProof {
    /// The response for the secret key: `sk * c + alpha`.
    pub s1: Scalar,
    /// The response for the randomness: `r2 * c + beta`.
    pub s2: Scalar,
    /// The commitment `g * alpha`.
    pub u1: GroupElement,
    /// The commitment `g * beta`.
    pub u2: GroupElement,
    /// The commitment `prev.ephemeral * alpha - pk2 * beta`.
    pub v: GroupElement,
}

/// What a transfer hands to the receiver and the public.
#[derive(Clone, Copy, Debug, PartialEq, Eq)]
pub struct Transfer {
    /// The public key of the sender, under which the element was encrypted
    /// so far.
    pub sender_pk: GroupElement,
    /// The element, encrypted under the public key of the receiver.
    pub new_enc: ElGamalEncryption,
    /// The proof that the new encryption hides what the old one hid.
    pub proof: EqualityProof,
}

/// The bytes that are hashed into the challenge: the encodings of the two
/// public keys, of both parts of the old and of the new encryption, and of
/// the three commitments, in this order.
pub open spec fn transcript(
    pk1: GroupElement,
    pk2: GroupElement,
    enc1: ElGamalEncryption,
    enc2: ElGamalEncryption,
    a1: GroupElement,
    a2: GroupElement,
    a3: GroupElement,
) -> Seq<u8> {
    pk1.encoding() + pk2.encoding() + enc1.ephemeral.encoding() + enc1.ciphertext.encoding()
        + enc2.ephemeral.encoding() + enc2.ciphertext.encoding() + a1.encoding() + a2.encoding()
        + a3.encoding()
}

/// The challenge of a proof: the digest of the transcript, read as a number
/// and reduced modulo the group order.
pub open spec fn challenge(
    pk1: GroupElement,
    pk2: GroupElement,
    enc1: ElGamalEncryption,
    enc2: ElGamalEncryption,
    a1: GroupElement,
    a2: GroupElement,
    a3: GroupElement,
) -> int {
    (be_value(blake2b256_digest(transcript(pk1, pk2, enc1, enc2, a1, a2, a3))) % (
    group_order() as nat)) as int
}

impl EqualityProof {
    /// All five parts are valid.
    pub open spec fn wf(self) -> bool {
        self.s1.wf() && self.s2.wf() && self.u1.wf() && self.u2.wf() && self.v.wf()
    }

    /// The challenge that belongs to this proof for the given statement.
    pub open spec fn challenge(
        self,
        pk1: GroupElement,
        pk2: GroupElement,
        prev_enc: ElGamalEncryption,
        new_enc: ElGamalEncryption,
    ) -> int {
        challenge(pk1, pk2, prev_enc, new_enc, self.u1, self.u2, self.v)
    }

    /// Whether the commitments are those that the blinding scalars `alpha`
    /// and `beta` give: `g * alpha`, `g * beta` and
    /// `prev.ephemeral * alpha - pk2 * beta`.
    pub open spec fn commits_to(
        self,
        pk2: GroupElement,
        prev_enc: ElGamalEncryption,
        alpha: int,
        beta: int,
    ) -> bool {
        &&& self.u1@ == field_mul(1, alpha)
        &&& self.u2@ == field_mul(1, beta)
        &&& self.v@ == field_sub(field_mul(prev_enc.ephemeral@, alpha), field_mul(pk2@, beta))
    }

    /// Whether the responses are those that answer the challenge `c`:
    /// `secret_key * c + alpha` and `randomness * c + beta`.
    pub open spec fn responds_to(
        self,
        c: int,
        secret_key: int,
        randomness: int,
        alpha: int,
        beta: int,
    ) -> bool {
        &&& self.s1@ == field_add(field_mul(secret_key, c), alpha)
        &&& self.s2@ == field_add(field_mul(randomness, c), beta)
    }

    /// Whether this is the proof that the holder of `secret_key` and
    /// `randomness` makes for the statement with the blinding scalars `alpha`
    /// and `beta`.
    pub open spec fn made_from(
        self,
        pk1: GroupElement,
        pk2: GroupElement,
        prev_enc: ElGamalEncryption,
        new_enc: ElGamalEncryption,
        secret_key: int,
        randomness: int,
        alpha: int,
        beta: int,
    ) -> bool {
        &&& self.commits_to(pk2, prev_enc, alpha, beta)
        &&& self.responds_to(
            self.challenge(pk1, pk2, prev_enc, new_enc),
            secret_key,
            randomness,
            alpha,
            beta,
        )
    }

    /// Whether the three equations of verification hold for the challenge
    /// `c`: `g * s1 == pk1 * c + u1`, `g * s2 == new.ephemeral * c + u2` and
    /// `prev.ephemeral * s1 - pk2 * s2 == (prev.ciphertext - new.ciphertext) * c + v`.
    pub open spec fn satisfies(
        self,
        pk1: GroupElement,
        pk2: GroupElement,
        prev_enc: ElGamalEncryption,
        new_enc: ElGamalEncryption,
        c: int,
    ) -> bool {
        &&& field_mul(1, self.s1@) == field_add(field_mul(pk1@, c), self.u1@)
        &&& field_mul(1, self.s2@) == field_add(field_mul(new_enc.ephemeral@, c), self.u2@)
        &&& field_sub(field_mul(prev_enc.ephemeral@, self.s1@), field_mul(pk2@, self.s2@))
            == field_add(
            field_mul(field_sub(prev_enc.ciphertext@, new_enc.ciphertext@), c),
            self.v@,
        )
    }

    /// Whether the proof is accepted: the three equations hold for the
    /// challenge that belongs to the proof.
    pub open spec fn verifies(
        self,
        pk1: GroupElement,
        pk2: GroupElement,
        prev_enc: ElGamalEncryption,
        new_enc: ElGamalEncryption,
    ) -> bool {
        self.satisfies(pk1, pk2, prev_enc, new_enc, self.challenge(pk1, pk2, prev_enc, new_enc))
    }
}

/// Computes the challenge for a statement and three commitments. Prover and
/// verifier both call this function, so they hash the same bytes in the same
/// order.
pub fn fiat_shamir_challenge(
    pk1: &GroupElement,
    pk2: &GroupElement,
    enc1: &ElGamalEncryption,
    enc2: &ElGamalEncryption,
    a1: GroupElement,
    a2: GroupElement,
    a3: GroupElement,
) -> (c: Scalar)
    ensures
        c.wf(),
        c@ == challenge(*pk1, *pk2, *enc1, *enc2, a1, a2, a3),
{
    let mut message: Vec<u8> = Vec::new();
    append(&mut message, pk1.to_bytes().as_slice());
    append(&mut message, pk2.to_bytes().as_slice());
    append(&mut message, enc1.ephemeral.to_bytes().as_slice());
    append(&mut message, enc1.ciphertext.to_bytes().as_slice());
    append(&mut message, enc2.ephemeral.to_bytes().as_slice());
    append(&mut message, enc2.ciphertext.to_bytes().as_slice());
    append(&mut message, a1.to_bytes().as_slice());
    append(&mut message, a2.to_bytes().as_slice());
    append(&mut message, a3.to_bytes().as_slice());
    assert(message@ =~= transcript(*pk1, *pk2, *enc1, *enc2, a1, a2, a3));
    let digest = blake2b256(message.as_slice());
    Scalar::reduce(digest.as_slice()).unwrap()
}

/// The three commitments that the blinding scalars `alpha` and `beta` give.
pub fn commit(
    pk2: &GroupElement,
    prev_enc: &ElGamalEncryption,
    alpha: &Scalar,
    beta: &Scalar,
) -> (commitments: (GroupElement, GroupElement, GroupElement))
    ensures
        commitments.0.wf() && commitments.1.wf() && commitments.2.wf(),
        commitments.0@ == field_mul(1, alpha@),
        commitments.1@ == field_mul(1, beta@),
        commitments.2@ == field_sub(
            field_mul(prev_enc.ephemeral@, alpha@),
            field_mul(pk2@, beta@),
        ),
{
    let g = GroupElement::generator();
    let u1 = g.mul(alpha);
    let u2 = g.mul(beta);
    let v = prev_enc.ephemeral.mul(alpha).sub(&pk2.mul(beta));
    (u1, u2, v)
}

/// The two responses that answer the challenge `c`.
pub fn respond(
    c: &Scalar,
    secret_key: &Scalar,
    randomness: &Scalar,
    alpha: &Scalar,
    beta: &Scalar,
) -> (responses: (Scalar, Scalar))
    ensures
        responses.0.wf() && responses.1.wf(),
        responses.0@ == field_add(field_mul(secret_key@, c@), alpha@),
        responses.1@ == field_add(field_mul(randomness@, c@), beta@),
{
    let s1 = secret_key.mul(c).add(alpha);
    let s2 = randomness.mul(c).add(beta);
    (s1, s2)
}

/// Makes the proof for the statement with the given blinding scalars.
/// `secret_key` is the secret key of `pk1` and `randomness` the randomness of
/// `new_enc`.
pub fn prove_with(
    pk1: &GroupElement,
    pk2: &GroupElement,
    prev_enc: &ElGamalEncryption,
    new_enc: &ElGamalEncryption,
    secret_key: &Scalar,
    randomness: &Scalar,
    alpha: &Scalar,
    beta: &Scalar,
) -> (proof: EqualityProof)
    ensures
        proof.wf(),
        proof.made_from(*pk1, *pk2, *prev_enc, *new_enc, secret_key@, randomness@, alpha@, beta@),
{
    let (u1, u2, v) = commit(pk2, prev_enc, alpha, beta);
    let c = fiat_shamir_challenge(pk1, pk2, prev_enc, new_enc, u1, u2, v);
    let (s1, s2) = respond(&c, secret_key, randomness, alpha, beta);
    EqualityProof { s1, s2, u1, u2, v }
}

/// Makes the proof for the statement, with blinding scalars drawn from
/// `rng`.
pub fn prove(
    pk1: &GroupElement,
    pk2: &GroupElement,
    prev_enc: &ElGamalEncryption,
    new_enc: &ElGamalEncryption,
    secret_key: &Scalar,
    randomness: &Scalar,
    rng: &mut StdRng,
) -> (proof: EqualityProof)
    ensures
        proof.wf(),
        exists|alpha: int, beta: int|
            proof.made_from(
                *pk1,
                *pk2,
                *prev_enc,
                *new_enc,
                secret_key@,
                randomness@,
                alpha,
                beta,
            ),
{
    let alpha = Scalar::random(rng);
    let beta = Scalar::random(rng);
    let proof = prove_with(pk1, pk2, prev_enc, new_enc, secret_key, randomness, &alpha, &beta);
    assert(proof.made_from(
        *pk1,
        *pk2,
        *prev_enc,
        *new_enc,
        secret_key@,
        randomness@,
        alpha@,
        beta@,
    ));
    proof
}

/// Checks the three equations of verification for the challenge `c`.
pub fn check_equations(
    pk1: &GroupElement,
    pk2: &GroupElement,
    prev_enc: &ElGamalEncryption,
    new_enc: &ElGamalEncryption,
    proof: &EqualityProof,
    c: &Scalar,
) -> (r: Result<(), EnftError>)
    ensures
        r is Ok <==> proof.satisfies(*pk1, *pk2, *prev_enc, *new_enc, c@),
        r matches Err(e) ==> e == EnftError::ProofInvalid,
{
    let g = GroupElement::generator();
    if !g.mul(&proof.s1).equals(&pk1.mul(c).add(&proof.u1)) {
        return Err(EnftError::ProofInvalid);
    }
    if !g.mul(&proof.s2).equals(&new_enc.ephemeral.mul(c).add(&proof.u2)) {
        return Err(EnftError::ProofInvalid);
    }
    let left = prev_enc.ephemeral.mul(&proof.s1).sub(&pk2.mul(&proof.s2));
    let right = prev_enc.ciphertext.sub(&new_enc.ciphertext).mul(c).add(&proof.v);
    if !left.equals(&right) {
        return Err(EnftError::ProofInvalid);
    }
    Ok(())
}

/// Checks a proof against its statement. The challenge is computed anew from
/// the statement and the commitments, and the proof is accepted only if all
/// three equations hold for it; otherwise it is rejected as a whole.
pub fn verify(
    pk1: &GroupElement,
    pk2: &GroupElement,
    prev_enc: &ElGamalEncryption,
    new_enc: &ElGamalEncryption,
    proof: &EqualityProof,
) -> (r: Result<(), EnftError>)
    ensures
        r is Ok <==> proof.verifies(*pk1, *pk2, *prev_enc, *new_enc),
        r matches Err(e) ==> e == EnftError::ProofInvalid,
{
    let c = fiat_shamir_challenge(pk1, pk2, prev_enc, new_enc, proof.u1, proof.u2, proof.v);
    check_equations(pk1, pk2, prev_enc, new_enc, proof, &c)
}

/// Passes an encrypted element on: encrypts `plaintext` under the public key
/// of the receiver and proves that the new encryption hides what `prev_enc`
/// hides. `sender_sk` is the secret key under whose public key `prev_enc`
/// was made. If `prev_enc` does encrypt `plaintext` under that key, the proof
/// verifies.
pub fn transfer(
    plaintext: &GroupElement,
    prev_enc: &ElGamalEncryption,
    receiver_pk: &GroupElement,
    sender_sk: &Scalar,
    rng: &mut StdRng,
) -> (out: Transfer)
    ensures
        out.sender_pk.wf(),
        out.new_enc.wf(),
        out.proof.wf(),
        out.sender_pk@ == public_key_of(sender_sk@),
        exists|r: int, alpha: int, beta: int|
            {
                &&& out.new_enc.encrypts(plaintext@, receiver_pk@, r)
                &&& #[trigger] out.proof.made_from(
                    out.sender_pk,
                    *receiver_pk,
                    *prev_enc,
                    out.new_enc,
                    sender_sk@,
                    r,
                    alpha,
                    beta,
                )
            },
        forall|r: int| #[trigger]
            prev_enc.encrypts(plaintext@, out.sender_pk@, r) ==> out.proof.verifies(
                out.sender_pk,
                *receiver_pk,
                *prev_enc,
                out.new_enc,
            ),
{
    let sender_pk = public_key(sender_sk);
    let randomness = Scalar::random(rng);
    let new_enc = encrypt_with(plaintext, receiver_pk, &randomness);
    let alpha = Scalar::random(rng);
    let beta = Scalar::random(rng);
    let proof = prove_with(
        &sender_pk,
        receiver_pk,
        prev_enc,
        &new_enc,
        sender_sk,
        &randomness,
        &alpha,
        &beta,
    );
    let out = Transfer { sender_pk, new_enc, proof };
    assert(out.new_enc.encrypts(plaintext@, receiver_pk@, randomness@));
    assert(out.proof.made_from(
        out.sender_pk,
        *receiver_pk,
        *prev_enc,
        out.new_enc,
        sender_sk@,
        randomness@,
        alpha@,
        beta@,
    ));
    assert forall|r: int| #[trigger]
        prev_enc.encrypts(plaintext@, sender_pk@, r) implies proof.verifies(
        sender_pk,
        *receiver_pk,
        *prev_enc,
        new_enc,
    ) by {
        lemma_honest_proof_verifies(
            proof,
            sender_pk,
            *receiver_pk,
            *prev_enc,
            new_enc,
            plaintext@,
            sender_sk@,
            r,
            randomness@,
            alpha@,
            beta@,
        );
    }
    out
}

/// An honest proof is accepted. If `prev_enc` and `new_enc` encrypt the same
/// element, the first under the public key of `secret_key` and the second
/// under `pk2` with `new_randomness`, then the proof made from `secret_key`
/// and `new_randomness`, with whatever blinding scalars, verifies.
pub proof fn lemma_honest_proof_verifies(
    proof: EqualityProof,
    pk1: GroupElement,
    pk2: GroupElement,
    prev_enc: ElGamalEncryption,
    new_enc: ElGamalEncryption,
    plaintext: int,
    secret_key: int,
    prev_randomness: int,
    new_randomness: int,
    alpha: int,
    beta: int,
)
    requires
        pk1@ == public_key_of(secret_key),
        prev_enc.encrypts(plaintext, pk1@, prev_randomness),
        new_enc.encrypts(plaintext, pk2@, new_randomness),
        proof.made_from(pk1, pk2, prev_enc, new_enc, secret_key, new_randomness, alpha, beta),
    ensures
        proof.verifies(pk1, pk2, prev_enc, new_enc),
{
    let c = proof.challenge(pk1, pk2, prev_enc, new_enc);
    let sk = secret_key;
    let r1 = prev_randomness;
    let r2 = new_randomness;
    let m = plaintext;
    let key2 = pk2@;
    // What each public value is congruent to, in terms of the secrets.
    lemma_field_ops_congruent(1, sk);
    lemma_field_ops_congruent(1, r1);
    lemma_field_ops_congruent(1, r2);
    lemma_field_ops_congruent(1, alpha);
    lemma_field_ops_congruent(1, beta);
    assert(congruent(pk1@, sk));
    assert(congruent(prev_enc.ephemeral@, r1));
    assert(congruent(new_enc.ephemeral@, r2));
    assert(congruent(proof.u1@, alpha));
    assert(congruent(proof.u2@, beta));
    lemma_field_mul_congruent(pk1@, r1, sk, r1);
    lemma_field_add_congruent(field_mul(pk1@, r1), m, sk * r1, m);
    assert(congruent(prev_enc.ciphertext@, sk * r1 + m));
    lemma_field_mul_congruent(key2, r2, key2, r2);
    lemma_field_add_congruent(field_mul(key2, r2), m, key2 * r2, m);
    assert(congruent(new_enc.ciphertext@, key2 * r2 + m));
    lemma_field_mul_congruent(prev_enc.ephemeral@, alpha, r1, alpha);
    lemma_field_mul_congruent(key2, beta, key2, beta);
    lemma_field_sub_congruent(
        field_mul(prev_enc.ephemeral@, alpha),
        field_mul(key2, beta),
        r1 * alpha,
        key2 * beta,
    );
    assert(congruent(proof.v@, r1 * alpha - key2 * beta));
    lemma_field_mul_congruent(sk, c, sk, c);
    lemma_field_add_congruent(field_mul(sk, c), alpha, sk * c, alpha);
    assert(congruent(proof.s1@, sk * c + alpha));
    lemma_field_mul_congruent(r2, c, r2, c);
    lemma_field_add_congruent(field_mul(r2, c), beta, r2 * c, beta);
    assert(congruent(proof.s2@, r2 * c + beta));

    // First equation.
    lemma_field_mul_congruent(1, proof.s1@, 1, sk * c + alpha);
    lemma_field_mul_congruent(pk1@, c, sk, c);
    lemma_field_add_congruent(field_mul(pk1@, c), proof.u1@, sk * c, alpha);
    assert(1 * (sk * c + alpha) == sk * c + alpha);

    // Second equation.
    lemma_field_mul_congruent(1, proof.s2@, 1, r2 * c + beta);
    lemma_field_mul_congruent(new_enc.ephemeral@, c, r2, c);
    lemma_field_add_congruent(field_mul(new_enc.ephemeral@, c), proof.u2@, r2 * c, beta);
    assert(1 * (r2 * c + beta) == r2 * c + beta);

    // Third equation.
    lemma_field_mul_congruent(prev_enc.ephemeral@, proof.s1@, r1, sk * c + alpha);
    lemma_field_mul_congruent(key2, proof.s2@, key2, r2 * c + beta);
    lemma_field_sub_congruent(
        field_mul(prev_enc.ephemeral@, proof.s1@),
        field_mul(key2, proof.s2@),
        r1 * (sk * c + alpha),
        key2 * (r2 * c + beta),
    );
    lemma_field_sub_congruent(
        prev_enc.ciphertext@,
        new_enc.ciphertext@,
        sk * r1 + m,
        key2 * r2 + m,
    );
    lemma_field_mul_congruent(
        field_sub(prev_enc.ciphertext@, new_enc.ciphertext@),
        c,
        (sk * r1 + m) - (key2 * r2 + m),
        c,
    );
    lemma_field_add_congruent(
        field_mul(field_sub(prev_enc.ciphertext@, new_enc.ciphertext@), c),
        proof.v@,
        ((sk * r1 + m) - (key2 * r2 + m)) * c,
        r1 * alpha - key2 * beta,
    );
    assert(r1 * (sk * c + alpha) == (sk * r1) * c + r1 * alpha) by (nonlinear_arith);
    assert(key2 * (r2 * c + beta) == (key2 * r2) * c + key2 * beta) by (nonlinear_arith);
    assert(((sk * r1 + m) - (key2 * r2 + m)) * c == (sk * r1) * c - (key2 * r2) * c)
        by (nonlinear_arith);
}

/// The challenge is a function of the transcript: two computations over the
/// same public keys, encryptions and commitments give the same scalar.
pub proof fn lemma_challenge_deterministic(
    first: Scalar,
    second: Scalar,
    pk1: GroupElement,
    pk2: GroupElement,
    enc1: ElGamalEncryption,
    enc2: ElGamalEncryption,
    a1: GroupElement,
    a2: GroupElement,
    a3: GroupElement,
)
    requires
        first.wf(),
        second.wf(),
        first@ == challenge(pk1, pk2, enc1, enc2, a1, a2, a3),
        second@ == challenge(pk1, pk2, enc1, enc2, a1, a2, a3),
    ensures
        first == second,
{
    Scalar::lemma_view_determines(first, second);
}

/// A changed response is rejected. The challenge does not depend on the
/// responses, so a proof that differs from an accepted one in `s1` or `s2`
/// alone fails the first or the second equation.
pub proof fn lemma_changed_response_is_rejected(
    accepted: EqualityProof,
    changed: EqualityProof,
    pk1: GroupElement,
    pk2: GroupElement,
    prev_enc: ElGamalEncryption,
    new_enc: ElGamalEncryption,
)
    requires
        accepted.wf(),
        changed.wf(),
        accepted.verifies(pk1, pk2, prev_enc, new_enc),
        changed.u1 == accepted.u1,
        changed.u2 == accepted.u2,
        changed.v == accepted.v,
        changed.s1 != accepted.s1 || changed.s2 != accepted.s2,
    ensures
        !changed.verifies(pk1, pk2, prev_enc, new_enc),
{
    lemma_reduced_is_fixed(accepted.s1@);
    lemma_reduced_is_fixed(accepted.s2@);
    lemma_reduced_is_fixed(changed.s1@);
    lemma_reduced_is_fixed(changed.s2@);
    if changed.s1 != accepted.s1 {
        if changed.s1@ == accepted.s1@ {
            Scalar::lemma_view_determines(changed.s1, accepted.s1);
        }
    } else {
        if changed.s2@ == accepted.s2@ {
            Scalar::lemma_view_determines(changed.s2, accepted.s2);
        }
    }
}

/// A proof for encryptions of different elements is accepted for one
/// challenge at most. If `prev_enc` hides `prev_plaintext` and `new_enc`
/// hides `new_plaintext`, and the proof verifies, then the challenge times
/// the difference of the plaintexts is a value that the statement and the
/// commitments fix. The challenge is the digest of these, so where the
/// plaintexts differ the digest must hit the one value that fits.
pub proof fn lemma_accepted_proof_fixes_challenge(
    proof: EqualityProof,
    pk1: GroupElement,
    pk2: GroupElement,
    prev_enc: ElGamalEncryption,
    new_enc: ElGamalEncryption,
    prev_plaintext: int,
    new_plaintext: int,
    secret_key: int,
    prev_randomness: int,
    new_randomness: int,
)
    requires
        pk1@ == public_key_of(secret_key),
        prev_enc.encrypts(prev_plaintext, pk1@, prev_randomness),
        new_enc.encrypts(new_plaintext, pk2@, new_randomness),
        proof.verifies(pk1, pk2, prev_enc, new_enc),
    ensures
        field_mul(prev_plaintext - new_plaintext, proof.challenge(pk1, pk2, prev_enc, new_enc))
            == field_sub(
            field_sub(field_mul(prev_randomness, proof.u1@), field_mul(pk2@, proof.u2@)),
            proof.v@,
        ),
{
    let c = proof.challenge(pk1, pk2, prev_enc, new_enc);
    let sk = secret_key;
    let r1 = prev_randomness;
    let r2 = new_randomness;
    let m1 = prev_plaintext;
    let m2 = new_plaintext;
    let key2 = pk2@;
    let a = proof.u1@;
    let b = proof.u2@;
    let v = proof.v@;
    // What the statement is congruent to, in terms of the secrets.
    lemma_field_ops_congruent(1, sk);
    lemma_field_ops_congruent(1, r1);
    lemma_field_ops_congruent(1, r2);
    assert(congruent(pk1@, sk));
    assert(congruent(prev_enc.ephemeral@, r1));
    assert(congruent(new_enc.ephemeral@, r2));
    lemma_field_mul_congruent(pk1@, r1, sk, r1);
    lemma_field_add_congruent(field_mul(pk1@, r1), m1, sk * r1, m1);
    lemma_field_mul_congruent(key2, r2, key2, r2);
    lemma_field_add_congruent(field_mul(key2, r2), m2, key2 * r2, m2);

    // The first two equations say what the responses are congruent to.
    lemma_field_ops_congruent(1, proof.s1@);
    lemma_field_mul_congruent(pk1@, c, sk, c);
    lemma_field_add_congruent(field_mul(pk1@, c), a, sk * c, a);
    assert(1 * proof.s1@ == proof.s1@);
    assert(congruent(proof.s1@, sk * c + a));
    lemma_field_ops_congruent(1, proof.s2@);
    lemma_field_mul_congruent(new_enc.ephemeral@, c, r2, c);
    lemma_field_add_congruent(field_mul(new_enc.ephemeral@, c), b, r2 * c, b);
    assert(1 * proof.s2@ == proof.s2@);
    assert(congruent(proof.s2@, r2 * c + b));

    // Both sides of the third equation.
    let left = r1 * (sk * c + a) - key2 * (r2 * c + b);
    let right = ((sk * r1 + m1) - (key2 * r2 + m2)) * c + v;
    lemma_field_mul_congruent(prev_enc.ephemeral@, proof.s1@, r1, sk * c + a);
    lemma_field_mul_congruent(key2, proof.s2@, key2, r2 * c + b);
    lemma_field_sub_congruent(
        field_mul(prev_enc.ephemeral@, proof.s1@),
        field_mul(key2, proof.s2@),
        r1 * (sk * c + a),
        key2 * (r2 * c + b),
    );
    lemma_field_sub_congruent(
        prev_enc.ciphertext@,
        new_enc.ciphertext@,
        sk * r1 + m1,
        key2 * r2 + m2,
    );
    lemma_field_mul_congruent(
        field_sub(prev_enc.ciphertext@, new_enc.ciphertext@),
        c,
        (sk * r1 + m1) - (key2 * r2 + m2),
        c,
    );
    lemma_field_add_congruent(
        field_mul(field_sub(prev_enc.ciphertext@, new_enc.ciphertext@), c),
        v,
        ((sk * r1 + m1) - (key2 * r2 + m2)) * c,
        v,
    );
    assert(congruent(left, right));

    // What is left when the equal parts are taken away.
    let wanted = (m1 - m2) * c;
    let fixed = (r1 * a - key2 * b) - v;
    assert(r1 * (sk * c + a) == (sk * r1) * c + r1 * a) by (nonlinear_arith);
    assert(key2 * (r2 * c + b) == (key2 * r2) * c + key2 * b) by (nonlinear_arith);
    assert(((sk * r1 + m1) - (key2 * r2 + m2)) * c == (sk * r1) * c - (key2 * r2) * c + (m1 - m2)
        * c) by (nonlinear_arith);
    assert(fixed - wanted == left - right);
    lemma_mod_equivalence(left, right, group_order());
    lemma_mod_equivalence(fixed, wanted, group_order());
    assert(congruent(fixed, wanted));
    lemma_field_mul_congruent(r1, a, r1, a);
    lemma_field_mul_congruent(key2, b, key2, b);
    lemma_field_sub_congruent(field_mul(r1, a), field_mul(key2, b), r1 * a, key2 * b);
    lemma_field_sub_congruent(
        field_sub(field_mul(r1, a), field_mul(key2, b)),
        v,
        r1 * a - key2 * b,
        v,
    );
}

} // verus!
