use enft::chunks::{CHUNK_BYTES, CHUNK_SIZE};
use enft::elgamal::generate_key_pair;
use enft::error::EnftError;
use enft::group::GroupElement;
use enft::utils::{
    choose_chunks, encrypt_image, encrypt_selection, image_dimensions, load_and_sample_image,
    load_image, msk_to_cipher, recover_image, restore_image, sample_image, select_chunks,
    PreprocessedImage, SAMPLING_RATE,
};
use enft::FullCipherText;
use fastcrypto::aes::{Aes256Gcm, AesKey, Cipher, InitializationVector};
use fastcrypto::hash::{Blake2b256, HashFunction};
use fastcrypto::traits::{Generate, ToFromBytes};
use rand::rngs::StdRng;
use rand::{Rng, SeedableRng};
use typenum::{U12, U32};

fn synthetic_pixels(width: u32, height: u32) -> Vec<u8> {
    let count = 4 * width as usize * height as usize;
    (0..count).map(|i| (i * 31 % 251) as u8 + 1).collect()
}

fn synthetic_image(width: u32, height: u32) -> Vec<u8> {
    load_image(width, height, &synthetic_pixels(width, height)).unwrap().data
}

fn reference_sample(data: &[u8], width: usize, chunks: &[(usize, usize)]) -> (Vec<u8>, Vec<u8>) {
    let mut obfuscated_image = data.to_vec();
    let mut selected_values = vec![];
    for (i, j) in chunks {
        for ii in i * CHUNK_SIZE..(i + 1) * CHUNK_SIZE {
            for jj in j * CHUNK_SIZE..(j + 1) * CHUNK_SIZE {
                let pixel_idx = ii * width + jj;
                for k in 4 * pixel_idx + 8..4 * pixel_idx + 12 {
                    selected_values.push(data[k]);
                    obfuscated_image[k] = 0;
                }
            }
        }
    }
    (selected_values, obfuscated_image)
}

fn reference_recover(
    obfuscated_image: &[u8],
    width: usize,
    chunks: &[(usize, usize)],
    plaintext: &[u8],
) -> Vec<u8> {
    let mut recovered = obfuscated_image.to_vec();
    let mut pt_idx = 0;
    for (i, j) in chunks.iter() {
        for ii in i * CHUNK_SIZE..(i + 1) * CHUNK_SIZE {
            for jj in j * CHUNK_SIZE..(j + 1) * CHUNK_SIZE {
                let pixel_idx = ii * width + jj;
                for k in 4 * pixel_idx + 8..4 * pixel_idx + 12 {
                    recovered[k] = plaintext[pt_idx];
                    pt_idx += 1;
                }
            }
        }
    }
    recovered
}

fn master_key(seed: u8) -> GroupElement {
    let mut rng = StdRng::from_seed([seed; 32]);
    generate_key_pair(&mut rng).1
}

fn sealed_sample(
    width: u32,
    height: u32,
    seed: u8,
) -> (Vec<u8>, PreprocessedImage, FullCipherText, GroupElement) {
    let mut rng = StdRng::from_seed([seed; 32]);
    let msk = master_key(seed);
    let pixels = synthetic_pixels(width, height);
    let original = load_image(width, height, &pixels).unwrap().data;
    let mut sample = load_and_sample_image(width, height, &pixels, &mut rng).unwrap();
    while sample.selected_coordinates.is_empty() {
        sample = load_and_sample_image(width, height, &pixels, &mut rng).unwrap();
    }
    let ciphertext = encrypt_selection(
        &msk_to_cipher(&msk),
        sample.selected_coordinates.clone(),
        &sample.selected_values,
        &mut rng,
    );
    (original, sample, ciphertext, msk)
}

#[test]
fn chunk_constants() {
    assert_eq!(CHUNK_SIZE, 100);
    assert_eq!(CHUNK_BYTES, 4 * CHUNK_SIZE * CHUNK_SIZE);
    assert_eq!(enft::chunks::CHUNK_ROW_BYTES, 4 * CHUNK_SIZE);
    assert_eq!(enft::chunks::HEADER_LENGTH, 8);
    assert_eq!(enft::utils::SAMPLING_RATE, 5);
}

#[test]
fn load_image_puts_the_header_before_the_pixels() {
    let pixels: Vec<u8> = (1..25).collect();
    let image = load_image(3, 2, &pixels).unwrap();
    assert_eq!(image.width(), 3);
    assert_eq!(image.height(), 2);
    assert_eq!(&image.data[..8], &[0, 0, 0, 3, 0, 0, 0, 2]);
    assert_eq!(&image.data[8..], &pixels[..]);
}

#[test]
fn load_image_writes_big_endian_dimensions() {
    let image = load_image(0x0102, 1, &vec![0u8; 4 * 0x0102]).unwrap();
    assert_eq!(&image.data[..8], &[0, 0, 1, 2, 0, 0, 0, 1]);
    let empty = load_image(0x0a0b0c0d, 0, &[]).unwrap();
    assert_eq!(empty.data, vec![0x0a, 0x0b, 0x0c, 0x0d, 0, 0, 0, 0]);
}

#[test]
fn load_image_refuses_a_wrong_number_of_pixels() {
    assert_eq!(load_image(3, 2, &[0u8; 23]), Err(EnftError::DimensionMismatch));
    assert_eq!(load_image(3, 2, &[0u8; 25]), Err(EnftError::DimensionMismatch));
    assert_eq!(load_image(3, 2, &[0u8; 28]), Err(EnftError::DimensionMismatch));
    assert_eq!(load_image(0, 0, &[0u8; 4]), Err(EnftError::DimensionMismatch));
    assert_eq!(load_image(u32::MAX, u32::MAX, &[0u8; 4]), Err(EnftError::DimensionMismatch));
    assert!(load_image(0, 7, &[]).is_ok());
}

#[test]
fn image_dimensions_reads_the_header() {
    let data = synthetic_image(7, 5);
    assert_eq!(image_dimensions(&data), Some((7, 5)));
    assert_eq!(image_dimensions(&[0, 0, 0, 0, 0, 0, 0, 0]), Some((0, 0)));
    assert_eq!(image_dimensions(&[0, 0, 1, 0, 0, 0, 0, 0]), Some((256, 0)));
}

#[test]
fn image_dimensions_refuses_what_is_no_image() {
    let data = synthetic_image(7, 5);
    assert_eq!(image_dimensions(&data[..data.len() - 1]), None);
    assert_eq!(image_dimensions(&data[..7]), None);
    assert_eq!(image_dimensions(&[]), None);
    let mut longer = data.clone();
    longer.extend_from_slice(&[0, 0, 0, 0]);
    assert_eq!(image_dimensions(&longer), None);
    let mut wider = data.clone();
    wider[3] = 8;
    assert_eq!(image_dimensions(&wider), None);
}

#[test]
fn sample_image_takes_the_chunks_out() {
    let data = synthetic_image(250, 230);
    let chunks = [(0usize, 1usize), (1, 0)];
    let sample = sample_image(&data, &chunks).unwrap();
    let (values, hidden) = reference_sample(&data, 250, &chunks);
    assert_eq!(sample.selected_coordinates, chunks.to_vec());
    assert_eq!(sample.selected_values.len(), 2 * CHUNK_BYTES);
    assert_eq!(sample.selected_values, values);
    assert_eq!(sample.obfuscated_image, hidden);
    assert_ne!(sample.obfuscated_image, data);
}

#[test]
fn sample_image_zeroes_exactly_the_chunk() {
    let data = synthetic_image(250, 230);
    let sample = sample_image(&data, &[(1, 1)]).unwrap();
    for k in 0..data.len() {
        let inside = k >= 8 && {
            let pixel = (k - 8) / 4;
            let (row, col) = (pixel / 250, pixel % 250);
            (100..200).contains(&row) && (100..200).contains(&col)
        };
        let expected = if inside { 0 } else { data[k] };
        assert_eq!(sample.obfuscated_image[k], expected);
    }
    assert_eq!(sample.selected_values[0], data[8 + 4 * (100 * 250 + 100)]);
    assert_eq!(sample.selected_values[400], data[8 + 4 * (101 * 250 + 100)]);
    assert_eq!(sample.selected_values[CHUNK_BYTES - 1], data[8 + 4 * (199 * 250 + 199) + 3]);
}

#[test]
fn sample_image_with_no_chunks_changes_nothing() {
    let data = synthetic_image(120, 130);
    let sample = sample_image(&data, &[]).unwrap();
    assert_eq!(sample.obfuscated_image, data);
    assert!(sample.selected_values.is_empty());
    assert!(sample.selected_coordinates.is_empty());
}

#[test]
fn sample_image_takes_a_chunk_twice() {
    let data = synthetic_image(100, 100);
    let sample = sample_image(&data, &[(0, 0), (0, 0)]).unwrap();
    assert_eq!(sample.selected_values.len(), 2 * CHUNK_BYTES);
    assert_eq!(&sample.selected_values[..CHUNK_BYTES], &data[8..]);
    assert_eq!(&sample.selected_values[CHUNK_BYTES..], &data[8..]);
    assert_eq!(&sample.obfuscated_image[..8], &data[..8]);
    assert!(sample.obfuscated_image[8..].iter().all(|b| *b == 0));
}

#[test]
fn sample_image_refuses_chunks_outside_the_image() {
    let data = synthetic_image(250, 230);
    assert_eq!(sample_image(&data, &[(2, 0)]), Err(EnftError::DimensionMismatch));
    assert_eq!(sample_image(&data, &[(0, 2)]), Err(EnftError::DimensionMismatch));
    assert_eq!(sample_image(&data, &[(0, 0), (1, 1), (5, 5)]), Err(EnftError::DimensionMismatch));
    assert_eq!(sample_image(&data, &[(usize::MAX, 0)]), Err(EnftError::DimensionMismatch));
    let small = synthetic_image(99, 300);
    assert_eq!(sample_image(&small, &[(0, 0)]), Err(EnftError::DimensionMismatch));
}

#[test]
fn sample_image_refuses_what_is_no_image() {
    let data = synthetic_image(100, 100);
    assert_eq!(sample_image(&data[..data.len() - 4], &[]), Err(EnftError::DimensionMismatch));
    assert_eq!(sample_image(&[], &[]), Err(EnftError::DimensionMismatch));
}

#[test]
fn choose_chunks_stays_in_the_grid_in_raster_order() {
    let mut rng = StdRng::from_seed([1u8; 32]);
    let chunks = choose_chunks(30, 40, &mut rng);
    assert!(!chunks.is_empty());
    assert!(chunks.len() < 30 * 40);
    for (i, j) in &chunks {
        assert!(*i < 30 && *j < 40);
    }
    for pair in chunks.windows(2) {
        assert!(pair[0] < pair[1]);
    }
    assert!(choose_chunks(0, 40, &mut rng).is_empty());
    assert!(choose_chunks(30, 0, &mut rng).is_empty());
}

#[test]
fn choose_chunks_selects_about_one_in_five() {
    let mut rng = StdRng::from_seed([2u8; 32]);
    let chunks = choose_chunks(100, 100, &mut rng);
    assert!(chunks.len() > 1500 && chunks.len() < 2500);
    let mut again = StdRng::from_seed([2u8; 32]);
    assert_eq!(choose_chunks(100, 100, &mut again), chunks);
}

#[test]
fn load_and_sample_image_is_a_sample_of_the_image() {
    let mut rng = StdRng::from_seed([3u8; 32]);
    let pixels = synthetic_pixels(450, 350);
    let data = load_image(450, 350, &pixels).unwrap().data;
    let mut sample = load_and_sample_image(450, 350, &pixels, &mut rng).unwrap();
    while sample.selected_coordinates.is_empty() {
        sample = load_and_sample_image(450, 350, &pixels, &mut rng).unwrap();
    }
    for (i, j) in &sample.selected_coordinates {
        assert!(*i < 3 && *j < 4);
    }
    let (values, hidden) = reference_sample(&data, 450, &sample.selected_coordinates);
    assert_eq!(sample.selected_values, values);
    assert_eq!(sample.obfuscated_image, hidden);
    assert_eq!(sample, sample_image(&data, &sample.selected_coordinates).unwrap());
}

#[test]
fn load_and_sample_image_leaves_small_images_alone() {
    let mut rng = StdRng::from_seed([4u8; 32]);
    let pixels = synthetic_pixels(99, 500);
    let sample = load_and_sample_image(99, 500, &pixels, &mut rng).unwrap();
    assert!(sample.selected_coordinates.is_empty());
    assert_eq!(&sample.obfuscated_image[8..], &pixels[..]);
}

#[test]
fn load_and_sample_image_refuses_a_wrong_number_of_pixels() {
    let mut rng = StdRng::from_seed([5u8; 32]);
    assert_eq!(
        load_and_sample_image(100, 100, &[0u8; 39_999], &mut rng),
        Err(EnftError::DimensionMismatch)
    );
}

#[test]
fn restore_image_puts_the_values_back() {
    let data = synthetic_image(250, 230);
    let chunks = [(1usize, 1usize), (0, 0)];
    let sample = sample_image(&data, &chunks).unwrap();
    let restored =
        restore_image(&sample.obfuscated_image, &chunks, &sample.selected_values).unwrap();
    assert_eq!(restored, data);
}

#[test]
fn restore_image_writes_values_in_the_order_of_the_chunks() {
    let hidden = sample_image(&synthetic_image(200, 100), &[(0, 0), (0, 1)]).unwrap();
    let mut values = vec![1u8; CHUNK_BYTES];
    values.extend_from_slice(&vec![2u8; CHUNK_BYTES]);
    let restored = restore_image(&hidden.obfuscated_image, &[(0, 1), (0, 0)], &values).unwrap();
    assert_eq!(
        restored,
        reference_recover(&hidden.obfuscated_image, 200, &[(0, 1), (0, 0)], &values)
    );
    assert_eq!(restored[8], 2);
    assert_eq!(restored[8 + 4 * 100], 1);
    assert_eq!(restored[8 + 4 * 99 + 3], 2);
}

#[test]
fn restore_image_lets_the_later_of_two_equal_chunks_decide() {
    let data = synthetic_image(100, 100);
    let mut values = vec![1u8; CHUNK_BYTES];
    values.extend_from_slice(&vec![2u8; CHUNK_BYTES]);
    let restored = restore_image(&data, &[(0, 0), (0, 0)], &values).unwrap();
    assert_eq!(&restored[..8], &data[..8]);
    assert!(restored[8..].iter().all(|b| *b == 2));
}

#[test]
fn restore_image_refuses_mismatched_input() {
    let data = synthetic_image(250, 230);
    let values = vec![0u8; CHUNK_BYTES];
    assert_eq!(restore_image(&data, &[(2, 0)], &values), Err(EnftError::DimensionMismatch));
    assert_eq!(restore_image(&data, &[(0, 2)], &values), Err(EnftError::DimensionMismatch));
    assert_eq!(
        restore_image(&data, &[(0, 0)], &values[..CHUNK_BYTES - 1]),
        Err(EnftError::DimensionMismatch)
    );
    assert_eq!(restore_image(&data, &[(0, 0), (0, 1)], &values), Err(EnftError::DimensionMismatch));
    assert_eq!(restore_image(&data, &[], &values), Err(EnftError::DimensionMismatch));
    assert_eq!(restore_image(&data[..100], &[], &[]), Err(EnftError::DimensionMismatch));
    assert_eq!(restore_image(&data, &[], &[]), Ok(data.clone()));
}

#[test]
fn cipher_of_a_master_key_is_derived_from_its_digest() {
    let msk = master_key(40);
    let mut rng = StdRng::from_seed(Blake2b256::digest(msk.to_bytes()).digest);
    let key: AesKey<U32> = AesKey::generate(&mut rng);
    let reference = Aes256Gcm::<U12>::new(key);
    let iv = [5u8; 12];
    let reference_iv = InitializationVector::<U12>::from_bytes(&iv).unwrap();
    let plaintext = b"selected bytes of an image";
    let sealed = msk_to_cipher(&msk).encrypt(&iv, plaintext);
    assert_eq!(sealed, reference.encrypt(&reference_iv, plaintext));
    assert_eq!(sealed.len(), plaintext.len() + 16);
    assert_eq!(reference.decrypt(&reference_iv, &sealed).unwrap(), plaintext.to_vec());
}

#[test]
fn cipher_round_trips() {
    let cipher = msk_to_cipher(&master_key(41));
    let iv = [9u8; 12];
    for len in [0usize, 1, 15, 16, 17, 1000] {
        let plaintext: Vec<u8> = (0..len).map(|i| i as u8).collect();
        let sealed = cipher.encrypt(&iv, &plaintext);
        assert_eq!(sealed.len(), len + 16);
        assert_eq!(cipher.decrypt(&iv, &sealed), Ok(plaintext));
    }
}

#[test]
fn cipher_depends_on_master_key_and_nonce() {
    let cipher = msk_to_cipher(&master_key(42));
    let other = msk_to_cipher(&master_key(43));
    let sealed = cipher.encrypt(&[1u8; 12], b"plaintext");
    assert_eq!(sealed, msk_to_cipher(&master_key(42)).encrypt(&[1u8; 12], b"plaintext"));
    assert_ne!(sealed, cipher.encrypt(&[2u8; 12], b"plaintext"));
    assert_ne!(sealed, other.encrypt(&[1u8; 12], b"plaintext"));
    assert_eq!(other.decrypt(&[1u8; 12], &sealed), Err(EnftError::AuthenticationFailed));
    assert_eq!(cipher.decrypt(&[2u8; 12], &sealed), Err(EnftError::AuthenticationFailed));
}

#[test]
fn cipher_refuses_what_is_too_short_for_a_tag() {
    let cipher = msk_to_cipher(&master_key(44));
    assert_eq!(cipher.decrypt(&[0u8; 12], &[]), Err(EnftError::AuthenticationFailed));
    assert_eq!(cipher.decrypt(&[0u8; 12], &[0u8; 15]), Err(EnftError::AuthenticationFailed));
    let sealed = cipher.encrypt(&[0u8; 12], b"plaintext");
    assert_eq!(
        cipher.decrypt(&[0u8; 12], &sealed[..sealed.len() - 1]),
        Err(EnftError::AuthenticationFailed)
    );
}

#[test]
fn encrypt_selection_seals_the_values_under_a_fresh_nonce() {
    let mut rng = StdRng::from_seed([45u8; 32]);
    let cipher = msk_to_cipher(&master_key(45));
    let values = vec![7u8; 1234];
    let first = encrypt_selection(&cipher, vec![(0, 1), (2, 3)], &values, &mut rng);
    let second = encrypt_selection(&cipher, vec![(0, 1), (2, 3)], &values, &mut rng);
    assert_eq!(first.pixels, vec![(0, 1), (2, 3)]);
    assert_eq!(first.data, cipher.encrypt(&first.iv, &values));
    assert_eq!(cipher.decrypt(&first.iv, &first.data), Ok(values));
    assert_ne!(first.iv, second.iv);
    assert_ne!(first.data, second.data);
}

#[test]
fn recover_image_gives_the_original_back() {
    let (original, sample, ciphertext, msk) = sealed_sample(300, 200, 50);
    assert!(!sample.selected_coordinates.is_empty());
    assert_ne!(sample.obfuscated_image, original);
    let recovered = recover_image(&sample.obfuscated_image, ciphertext, msk).unwrap();
    assert_eq!(recovered, original);
}

#[test]
fn recover_image_gives_the_original_back_with_rows_and_columns_left_over() {
    let (original, sample, ciphertext, msk) = sealed_sample(333, 275, 51);
    assert!(!sample.selected_coordinates.is_empty());
    let recovered = recover_image(&sample.obfuscated_image, ciphertext, msk).unwrap();
    assert_eq!(recovered, original);
}

#[test]
fn recover_image_with_every_chunk_selected() {
    let msk = master_key(52);
    let mut rng = StdRng::from_seed([52u8; 32]);
    let original = synthetic_image(200, 200);
    let chunks = vec![(0, 0), (0, 1), (1, 0), (1, 1)];
    let sample = sample_image(&original, &chunks).unwrap();
    assert!(sample.obfuscated_image[8..].iter().all(|b| *b == 0));
    let ciphertext =
        encrypt_selection(&msk_to_cipher(&msk), chunks, &sample.selected_values, &mut rng);
    assert_eq!(recover_image(&sample.obfuscated_image, ciphertext, msk), Ok(original));
}

#[test]
fn recover_image_detects_a_flipped_bit() {
    let (_, sample, ciphertext, msk) = sealed_sample(300, 200, 53);
    let len = ciphertext.data.len();
    for position in [0, 1, len / 2, len - 17, len - 16, len - 1] {
        for bit in [0u8, 7] {
            let mut tampered = ciphertext.clone();
            tampered.data[position] ^= 1 << bit;
            assert_eq!(
                recover_image(&sample.obfuscated_image, tampered, msk),
                Err(EnftError::AuthenticationFailed)
            );
        }
    }
}

#[test]
fn recover_image_detects_a_changed_nonce_or_length() {
    let (_, sample, ciphertext, msk) = sealed_sample(300, 200, 54);
    let mut other_nonce = ciphertext.clone();
    other_nonce.iv[0] ^= 1;
    assert_eq!(
        recover_image(&sample.obfuscated_image, other_nonce, msk),
        Err(EnftError::AuthenticationFailed)
    );
    let mut shorter = ciphertext.clone();
    shorter.data.pop();
    assert_eq!(
        recover_image(&sample.obfuscated_image, shorter, msk),
        Err(EnftError::AuthenticationFailed)
    );
    let mut longer = ciphertext.clone();
    longer.data.push(0);
    assert_eq!(
        recover_image(&sample.obfuscated_image, longer, msk),
        Err(EnftError::AuthenticationFailed)
    );
}

#[test]
fn recover_image_refuses_another_master_key() {
    let (_, sample, ciphertext, msk) = sealed_sample(300, 200, 55);
    let other = msk.add(&GroupElement::generator());
    assert_eq!(
        recover_image(&sample.obfuscated_image, ciphertext, other),
        Err(EnftError::AuthenticationFailed)
    );
}

#[test]
fn recover_image_refuses_chunks_that_do_not_fit() {
    let (_, sample, ciphertext, msk) = sealed_sample(300, 200, 56);
    let mut fewer = ciphertext.clone();
    fewer.pixels.pop();
    assert_eq!(
        recover_image(&sample.obfuscated_image, fewer, msk),
        Err(EnftError::DimensionMismatch)
    );
    let mut outside = ciphertext.clone();
    outside.pixels[0] = (2, 0);
    assert_eq!(
        recover_image(&sample.obfuscated_image, outside, msk),
        Err(EnftError::DimensionMismatch)
    );
    let smaller = synthetic_image(100, 100);
    assert_eq!(recover_image(&smaller[..50], ciphertext, msk), Err(EnftError::DimensionMismatch));
}

#[test]
fn recover_image_checks_the_tag_before_the_dimensions() {
    let (_, sample, ciphertext, msk) = sealed_sample(300, 200, 57);
    let mut tampered = ciphertext.clone();
    tampered.data[3] ^= 0x10;
    tampered.pixels.push((9, 9));
    assert_eq!(recover_image(&[], tampered, msk), Err(EnftError::AuthenticationFailed));
    assert_eq!(sample.selected_coordinates, ciphertext.pixels);
}

#[test]
fn error_messages_differ() {
    let all = [
        EnftError::InvalidEncoding,
        EnftError::ProofInvalid,
        EnftError::AuthenticationFailed,
        EnftError::DimensionMismatch,
    ];
    for (i, a) in all.iter().enumerate() {
        assert!(!a.message().is_empty());
        for b in all.iter().skip(i + 1) {
            assert_ne!(a, b);
            assert_ne!(a.message(), b.message());
        }
    }
}

#[test]
fn encrypt_image_hides_what_recover_image_brings_back() {
    let mut rng = StdRng::from_seed([60u8; 32]);
    let msk = master_key(60);
    let pixels = synthetic_pixels(400, 300);
    let original = load_image(400, 300, &pixels).unwrap().data;
    let (mut hidden, mut ciphertext) = encrypt_image(400, 300, &pixels, &msk, &mut rng).unwrap();
    while ciphertext.pixels.is_empty() {
        (hidden, ciphertext) = encrypt_image(400, 300, &pixels, &msk, &mut rng).unwrap();
    }
    let (values, expected) = reference_sample(&original, 400, &ciphertext.pixels);
    assert_eq!(hidden, expected);
    assert_ne!(hidden, original);
    assert_eq!(ciphertext.data, msk_to_cipher(&msk).encrypt(&ciphertext.iv, &values));
    for pair in ciphertext.pixels.windows(2) {
        assert!(pair[0] < pair[1]);
    }
    assert_eq!(recover_image(&hidden, ciphertext, msk), Ok(original));
}

#[test]
fn encrypt_image_refuses_a_wrong_number_of_pixels() {
    let mut rng = StdRng::from_seed([61u8; 32]);
    let msk = master_key(61);
    assert_eq!(
        encrypt_image(100, 100, &[0u8; 40_004], &msk, &mut rng),
        Err(EnftError::DimensionMismatch)
    );
    assert!(encrypt_image(0, 0, &[], &msk, &mut rng).is_ok());
}

#[test]
fn load_and_sample_image_selects_no_more_than_the_image_holds() {
    let mut rng = StdRng::from_seed([62u8; 32]);
    let pixels = synthetic_pixels(199, 399);
    for _ in 0..20 {
        let sample = load_and_sample_image(199, 399, &pixels, &mut rng).unwrap();
        assert!(sample.selected_values.len() <= pixels.len());
        assert!(sample.selected_coordinates.len() <= 3);
        assert_eq!(sample.selected_values.len(), sample.selected_coordinates.len() * CHUNK_BYTES);
    }
}

#[test]
fn select_chunks_takes_the_chunks_whose_draw_is_zero() {
    assert_eq!(select_chunks(2, &[0, 1, 1, 0, 0]), vec![(0, 0), (1, 1), (2, 0)]);
    assert_eq!(select_chunks(3, &[4, 0, 0, 1, 2, 0]), vec![(0, 1), (0, 2), (1, 2)]);
    assert_eq!(select_chunks(1, &[0, 0, 3, 0]), vec![(0, 0), (1, 0), (3, 0)]);
    assert_eq!(select_chunks(4, &[0, 0, 0, 0]), vec![(0, 0), (0, 1), (0, 2), (0, 3)]);
}

#[test]
fn select_chunks_takes_nothing_without_zeros_draws_or_columns() {
    assert!(select_chunks(3, &[1, 2, 3, 4, 1, u32::MAX]).is_empty());
    assert!(select_chunks(3, &[]).is_empty());
    assert!(select_chunks(0, &[0, 0, 0]).is_empty());
}

#[test]
fn choose_chunks_selects_by_one_draw_for_each_chunk() {
    for (rows, cols) in [(7usize, 9usize), (1, 1), (12, 3), (3, 12)] {
        let mut rng = StdRng::from_seed([70u8; 32]);
        let chunks = choose_chunks(rows, cols, &mut rng);
        let mut reference = StdRng::from_seed([70u8; 32]);
        let draws: Vec<u32> =
            (0..rows * cols).map(|_| reference.gen_range(0..SAMPLING_RATE)).collect();
        assert_eq!(chunks, select_chunks(cols, &draws));
        let expected: Vec<(usize, usize)> = (0..rows * cols)
            .filter(|k| draws[*k] == 0)
            .map(|k| (k / cols, k % cols))
            .collect();
        assert_eq!(chunks, expected);
        // Nothing more was drawn than one number for each chunk.
        assert_eq!(rng.gen_range(0..1000u32), reference.gen_range(0..1000u32));
    }
}
