use enft::elgamal::public_key;
use enft::key_derive::{derive_key, derive_private_key, hmac_sha512, HARDENED_BIT};
use enft::scalar::Scalar;
use fastcrypto::groups::bls12381::{buffer_to_scalar_mod_r, Scalar as BlsScalar};
use fastcrypto::groups::Scalar as ScalarOps;
use fastcrypto::hmac::{hkdf_sha3_256, HkdfIkm};
use fastcrypto::serde_helpers::ToFromByteArray;
use fastcrypto::traits::ToFromBytes;
use rand::rngs::StdRng;
use rand::SeedableRng;

fn reference_key(seed: &[u8], path: &[u32]) -> [u8; 32] {
    let mut node = hmac_sha512::HMAC::mac(seed, b"bls12381 seed");
    let mut data = [0u8; 37];
    for i in path {
        let hardened_index = 0x80000000 | i;
        let (left, right) = node.split_at(32);
        data[1..33].copy_from_slice(left);
        data[33..37].copy_from_slice(&hardened_index.to_be_bytes());
        node = hmac_sha512::HMAC::mac(&data, right);
    }
    let mut rng = StdRng::from_seed(node[0..32].try_into().unwrap());
    BlsScalar::rand(&mut rng).to_byte_array()
}

#[test]
fn hmac_sha512_matches_a_published_vector() {
    let mac = hmac_sha512(b"Jefe", b"what do ya want for nothing?");
    let expected = hex::decode(
        "164b7a7bfcf819e2e395fbe73b56e0a387bd64222e831fd610270cd7ea250554\
         9758bf75c05a994a6d034f65f8f0e6fdcaeab1a34d4a6b4b636e070a38bce737",
    )
    .unwrap();
    assert_eq!(mac.to_vec(), expected);
}

#[test]
fn hmac_sha512_matches_a_second_published_vector() {
    let mac = hmac_sha512(&[0x0bu8; 20], b"Hi There");
    let expected = hex::decode(
        "87aa7cdea5ef619d4ff0b4241a1d6cb02379f4e2ce4ec2787ad0b30545e17cde\
         daa833b7d6b8a702038b274eaea3f4e4be9d914eeb61f1702e696c203a126854",
    )
    .unwrap();
    assert_eq!(mac.to_vec(), expected);
}

#[test]
fn hmac_sha512_tells_key_from_data() {
    assert_ne!(hmac_sha512(b"key", b"data"), hmac_sha512(b"data", b"key"));
}

#[test]
fn derive_key_follows_the_path() {
    let seed = [9u8; 64];
    let path = [94, 784, 0, 0, 0];
    let key = derive_key(&seed, &path).unwrap();
    assert_eq!(key.to_bytes(), reference_key(&seed, &path));
}

#[test]
fn derive_key_with_one_step() {
    let seed: Vec<u8> = (0..64u8).collect();
    let key = derive_key(&seed, &[7]).unwrap();
    assert_eq!(key.to_bytes(), reference_key(&seed, &[7]));
    assert_ne!(key.to_bytes(), reference_key(&seed, &[]));
}

#[test]
fn derive_key_refuses_the_empty_path() {
    assert_eq!(derive_key(&[9u8; 64], &[]), None);
    assert_eq!(derive_key(&[], &[]), None);
}

#[test]
fn derive_key_hardens_every_index() {
    let seed = [3u8; 64];
    let plain = derive_key(&seed, &[94, 784, 1]).unwrap();
    let hardened =
        derive_key(&seed, &[94 | HARDENED_BIT, 784 | HARDENED_BIT, 1 | HARDENED_BIT]).unwrap();
    assert_eq!(plain, hardened);
    assert_eq!(HARDENED_BIT, 0x8000_0000);
}

#[test]
fn derive_key_is_deterministic_and_separates_paths() {
    let seed = [5u8; 64];
    let first = derive_key(&seed, &[94, 784, 0, 0, 0]).unwrap();
    assert_eq!(first, derive_key(&seed, &[94, 784, 0, 0, 0]).unwrap());
    assert_ne!(first, derive_key(&seed, &[94, 784, 0, 0, 1]).unwrap());
    assert_ne!(first, derive_key(&seed, &[94, 784, 0, 0]).unwrap());
    assert_ne!(first, derive_key(&seed, &[784, 94, 0, 0, 0]).unwrap());
    assert_ne!(first, derive_key(&[6u8; 64], &[94, 784, 0, 0, 0]).unwrap());
}

#[test]
fn derive_key_takes_large_indices() {
    let seed = [1u8; 32];
    let path = [0x7fff_ffff, 0x0102_0304, 0xffff_ffff];
    let key = derive_key(&seed, &path).unwrap();
    assert_eq!(key.to_bytes(), reference_key(&seed, &path));
}

#[test]
fn derive_private_key_reduces_the_derived_bytes() {
    let master = [7u8; 32];
    let bytes = hkdf_sha3_256(&HkdfIkm::from_bytes(&master).unwrap(), b"app", b"user", 48).unwrap();
    let expected = buffer_to_scalar_mod_r(&bytes).unwrap().to_byte_array();
    assert_eq!(derive_private_key(&master, b"app", b"user").to_bytes(), expected);
}

#[test]
fn derive_private_key_tells_salt_from_info() {
    let master = [7u8; 32];
    let key = derive_private_key(&master, b"app", b"user");
    assert_eq!(key, derive_private_key(&master, b"app", b"user"));
    assert_ne!(key, derive_private_key(&master, b"user", b"app"));
    assert_ne!(key, derive_private_key(&master, b"app", b"other"));
    assert_ne!(key, derive_private_key(&[8u8; 32], b"app", b"user"));
}

#[test]
fn proptest_derive_key() {
    let mut rng = StdRng::from_seed([17u8; 32]);
    for _ in 0..32 {
        let bytes: [u8; 32] = Scalar::random(&mut rng).to_bytes();
        let sk = derive_private_key(&bytes, &[0, 0, 0, 0], &[0, 0, 0, 0]);
        let pk = public_key(&sk);
        assert!(Scalar::from_bytes(&sk.to_bytes()).is_ok());
        assert_eq!(pk, enft::group::GroupElement::generator().mul(&sk));
    }
}

#[test]
fn derive_private_key_takes_keys_of_any_length() {
    let short = derive_private_key(&[], &[], &[]);
    let long = derive_private_key(&[1u8; 100], &[2u8; 300], &[3u8; 5]);
    assert_ne!(short, long);
    let bytes = hkdf_sha3_256(&HkdfIkm::from_bytes(&[]).unwrap(), &[], &[], 48).unwrap();
    assert_eq!(short.to_bytes(), buffer_to_scalar_mod_r(&bytes).unwrap().to_byte_array());
}

#[test]
fn child_message_is_zero_left_half_and_hardened_index() {
    let parent: [u8; 64] = core::array::from_fn(|i| i as u8 + 100);
    let message = enft::key_derive::child_message(&parent, 5);
    assert_eq!(message[0], 0);
    assert_eq!(&message[1..33], &parent[..32]);
    assert_eq!(&message[33..], &[0x80, 0, 0, 5]);
    let large = enft::key_derive::child_message(&parent, 0x0102_0304);
    assert_eq!(&large[33..], &[0x81, 2, 3, 4]);
    let hardened = enft::key_derive::child_message(&parent, 0x8000_0005);
    assert_eq!(hardened, message);
}
