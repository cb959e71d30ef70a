use enft::elgamal::{
    decrypt, encrypt, encrypt_with, generate_key_pair, public_key, reencrypt, ElGamalEncryption,
};
use enft::group::GroupElement;
use enft::scalar::Scalar;
use rand::rngs::StdRng;
use rand::SeedableRng;

fn generator_times(n: u8) -> GroupElement {
    let mut bytes = [0u8; 32];
    bytes[31] = n;
    GroupElement::generator().mul(&Scalar::from_bytes(&bytes).unwrap())
}

#[test]
fn public_key_is_generator_times_secret_key() {
    let mut rng = StdRng::from_seed([1u8; 32]);
    let sk = Scalar::random(&mut rng);
    assert_eq!(public_key(&sk), GroupElement::generator().mul(&sk));
}

#[test]
fn generated_key_pair_belongs_together() {
    let mut rng = StdRng::from_seed([2u8; 32]);
    let (sk, pk) = generate_key_pair(&mut rng);
    assert_eq!(pk, public_key(&sk));
    let (other_sk, other_pk) = generate_key_pair(&mut rng);
    assert_ne!(sk, other_sk);
    assert_ne!(pk, other_pk);
}

#[test]
fn encrypt_with_computes_both_parts() {
    let mut rng = StdRng::from_seed([3u8; 32]);
    let (_, pk) = generate_key_pair(&mut rng);
    let r = Scalar::random(&mut rng);
    let m = generator_times(42);
    let enc = encrypt_with(&m, &pk, &r);
    assert_eq!(enc.ephemeral, GroupElement::generator().mul(&r));
    assert_eq!(enc.ciphertext, pk.mul(&r).add(&m));
}

#[test]
fn decrypt_computes_ciphertext_less_ephemeral_times_key() {
    let enc = ElGamalEncryption { ephemeral: generator_times(3), ciphertext: generator_times(50) };
    let mut bytes = [0u8; 32];
    bytes[31] = 4;
    let sk = Scalar::from_bytes(&bytes).unwrap();
    assert_eq!(decrypt(&enc, &sk), generator_times(38));
}

#[test]
fn decrypt_inverts_encrypt() {
    let mut rng = StdRng::from_seed([4u8; 32]);
    for n in 0..5u8 {
        let (sk, pk) = generate_key_pair(&mut rng);
        let m = generator_times(n);
        let enc = encrypt(&m, &pk, &mut rng);
        assert_eq!(decrypt(&enc, &sk), m);
    }
}

#[test]
fn decrypt_with_another_key_gives_another_element() {
    let mut rng = StdRng::from_seed([5u8; 32]);
    let (_, pk) = generate_key_pair(&mut rng);
    let (other_sk, _) = generate_key_pair(&mut rng);
    let m = generator_times(9);
    let enc = encrypt(&m, &pk, &mut rng);
    assert_ne!(decrypt(&enc, &other_sk), m);
}

#[test]
fn encryptions_of_one_plaintext_differ() {
    let mut rng = StdRng::from_seed([6u8; 32]);
    let (_, pk) = generate_key_pair(&mut rng);
    let m = generator_times(9);
    let first = encrypt(&m, &pk, &mut rng);
    let second = encrypt(&m, &pk, &mut rng);
    assert_ne!(first, second);
    assert_ne!(first.ephemeral, second.ephemeral);
}

#[test]
fn reencryption_preserves_the_plaintext() {
    let mut rng = StdRng::from_seed([7u8; 32]);
    let (sk_a, pk_a) = generate_key_pair(&mut rng);
    let (sk_b, pk_b) = generate_key_pair(&mut rng);
    let m = generator_times(77);
    let first = encrypt(&m, &pk_a, &mut rng);
    let second = reencrypt(&decrypt(&first, &sk_a), &pk_b, &mut rng);
    assert_eq!(decrypt(&second, &sk_b), decrypt(&first, &sk_a));
    assert_eq!(decrypt(&second, &sk_b), m);
}

#[test]
fn master_key_reaches_the_buyer() {
    let mut rng = StdRng::from_seed([8u8; 32]);
    let sk_m = Scalar::random(&mut rng);
    let pk_m = public_key(&sk_m);
    let (sk_b, pk_b) = generate_key_pair(&mut rng);
    let enc = encrypt(&pk_m, &pk_b, &mut rng);
    assert_eq!(decrypt(&enc, &sk_b), pk_m);
}

#[test]
fn decrypt_inverts_encrypt_at_the_edges() {
    let zero = Scalar::from_bytes(&[0u8; 32]).unwrap();
    let top = Scalar::from_bytes(
        &hex::decode("73eda753299d7d483339d80809a1d80553bda402fffe5bfeffffffff00000000").unwrap(),
    )
    .unwrap();
    let identity = generator_times(0);
    for sk in [zero, top] {
        let pk = public_key(&sk);
        for r in [zero, top] {
            for m in [identity, generator_times(1), generator_times(200)] {
                let enc = encrypt_with(&m, &pk, &r);
                assert_eq!(decrypt(&enc, &sk), m);
            }
        }
    }
    assert_eq!(public_key(&zero), identity);
}
