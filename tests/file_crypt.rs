use aes::{Aes256, BlockDecrypt, NewBlockCipher};
use block_modes::block_padding::Pkcs7;
use block_modes::{BlockMode, Cbc};
use file_crypt::cipher::{decrypt, encrypt, pkcs7_pad_vec, pkcs7_unpad_vec};
use file_crypt::error::CryptError;
use file_crypt::key::password_to_key;
use file_crypt::transform::{output_path, process_content, status_message, transform, Mode};
use generic_array::GenericArray;

const ZERO_IV: [u8; 16] = [0u8; 16];

fn sample(len: usize) -> Vec<u8> {
    (0..len).map(|i| (i * 37 + 11) as u8).collect()
}

#[test]
fn round_trip_over_many_lengths() {
    let key = password_to_key("correct horse battery staple");
    for len in 0..70 {
        let plain = sample(len);
        let cipher = encrypt(&key, &ZERO_IV, &plain);
        assert_eq!(decrypt(&key, &ZERO_IV, &cipher), Ok(plain));
    }
}

#[test]
fn round_trip_with_nonzero_iv_and_empty_passphrase() {
    let key = password_to_key("");
    let iv = [7u8; 16];
    let plain = b"sixteen byte msg".to_vec();
    let cipher = encrypt(&key, &iv, &plain);
    assert_eq!(cipher.len(), 32);
    assert_eq!(decrypt(&key, &iv, &cipher), Ok(plain));
}

#[test]
fn ciphertext_length_invariant() {
    let key = password_to_key("p");
    for len in 0..50usize {
        let expected = if len % 16 != 0 { len + (16 - len % 16) } else { len + 16 };
        assert_eq!(encrypt(&key, &ZERO_IV, &sample(len)).len(), expected);
    }
    assert_eq!(encrypt(&key, &ZERO_IV, &sample(5)).len(), 16);
    assert_eq!(encrypt(&key, &ZERO_IV, &sample(16)).len(), 32);
    assert_eq!(encrypt(&key, &ZERO_IV, &sample(17)).len(), 32);
}

#[test]
fn key_is_deterministic_and_empty_is_zero() {
    assert_eq!(password_to_key("hunter2"), password_to_key("hunter2"));
    assert_eq!(password_to_key(""), [0u8; 32]);
}

#[test]
fn key_folds_bytes_modulo_32() {
    let mut expected = [0u8; 32];
    expected[0] = b'a';
    expected[1] = b'b';
    expected[2] = b'c';
    assert_eq!(password_to_key("abc"), expected);

    // 33 bytes: the last byte lands on slot 0 again.
    let long = "0123456789abcdef0123456789abcdefZ";
    let key = password_to_key(long);
    assert_eq!(key[0], b'0' ^ b'Z');
    assert_eq!(key[1], b'1');
    assert_eq!(key[31], b'f');

    // Multi-byte characters are folded by their UTF-8 bytes.
    let key = password_to_key("é");
    assert_eq!(key[0], 0xC3);
    assert_eq!(key[1], 0xA9);
}

#[test]
fn key_collision_for_repeated_block() {
    let block = "ABCDEFGHIJKLMNOPQRSTUVWXYZ012345";
    assert_eq!(block.len(), 32);
    let short = "secret";
    let padded = format!("{}{}{}", short, block, block);
    assert_eq!(password_to_key(short), password_to_key(&padded));
    let doubled = format!("{}{}", block, block);
    assert_eq!(password_to_key(&doubled), [0u8; 32]);
    assert_ne!(password_to_key(block), [0u8; 32]);
}

#[test]
fn decrypt_rejects_length_not_multiple_of_block() {
    let key = password_to_key("secret");
    assert_eq!(decrypt(&key, &ZERO_IV, &sample(17)), Err(CryptError::DecryptError));
    assert_eq!(decrypt(&key, &ZERO_IV, &sample(15)), Err(CryptError::DecryptError));
    assert_eq!(decrypt(&key, &ZERO_IV, &sample(1)), Err(CryptError::DecryptError));
}

#[test]
fn decrypt_rejects_empty_input() {
    let key = password_to_key("secret");
    assert_eq!(decrypt(&key, &ZERO_IV, &[]), Err(CryptError::DecryptError));
}

#[test]
fn decrypt_with_wrong_key_fails() {
    let right = password_to_key("secret");
    let wrong = password_to_key("Secret");
    let cipher = encrypt(&right, &ZERO_IV, b"hello");
    assert_eq!(decrypt(&wrong, &ZERO_IV, &cipher), Err(CryptError::DecryptError));
}

#[test]
fn decrypt_of_tampered_last_block_fails() {
    let key = password_to_key("secret");
    let mut cipher = encrypt(&key, &ZERO_IV, b"hello world");
    cipher[15] ^= 0x5a;
    assert_eq!(decrypt(&key, &ZERO_IV, &cipher), Err(CryptError::DecryptError));
}

#[test]
fn end_to_end_hello_secret() {
    let path = "notes.txt";
    let encrypted = process_content(b"hello", "secret", Mode::Encrypt).unwrap();
    assert_eq!(encrypted.len(), 16);
    let enc_path = output_path(path, Mode::Encrypt);
    assert_eq!(enc_path, "notes.txt_Encrypt");
    let decrypted = process_content(&encrypted, "secret", Mode::Decrypt).unwrap();
    assert_eq!(decrypted, b"hello".to_vec());
    let dec_path = output_path(&enc_path, Mode::Decrypt);
    assert_eq!(dec_path, "notes.txt_Encrypt_Decrypt");
}

#[test]
fn empty_input_encrypts_to_one_padding_block() {
    let key = password_to_key("anything");
    let encrypted = process_content(&[], "anything", Mode::Encrypt).unwrap();
    assert_eq!(encrypted.len(), 16);
    // Undo the cipher by hand: the single block is sixteen bytes of value 16.
    let cipher = Aes256::new(GenericArray::from_slice(&key));
    let mut block = GenericArray::clone_from_slice(&encrypted);
    cipher.decrypt_block(&mut block);
    assert_eq!(block.as_slice(), &[16u8; 16]);
    assert_eq!(process_content(&encrypted, "anything", Mode::Decrypt), Ok(Vec::new()));
}

#[test]
fn aes256_known_answer_through_encrypt() {
    let key: [u8; 32] = core::array::from_fn(|i| i as u8);
    let plain: Vec<u8> = (0..16u8).map(|i| i * 0x11).collect();
    let cipher = encrypt(&key, &ZERO_IV, &plain);
    let expected_first: [u8; 16] = [
        0x8e, 0xa2, 0xb7, 0xca, 0x51, 0x67, 0x45, 0xbf, 0xea, 0xfc, 0x49, 0x90, 0x4b, 0x49, 0x60,
        0x89,
    ];
    assert_eq!(&cipher[..16], &expected_first);
}

#[test]
fn matches_block_modes_cbc_pkcs7() {
    let key = password_to_key("compatibility");
    let iv = [3u8; 16];
    for len in [0usize, 1, 5, 15, 16, 17, 31, 32, 100] {
        let plain = sample(len);
        let ours = encrypt(&key, &iv, &plain);
        let theirs = Cbc::<Aes256, Pkcs7>::new_from_slices(&key, &iv).unwrap().encrypt_vec(&plain);
        assert_eq!(ours, theirs);
        let back = Cbc::<Aes256, Pkcs7>::new_from_slices(&key, &iv).unwrap().decrypt_vec(&ours).unwrap();
        assert_eq!(back, plain);
    }
}

#[test]
fn transform_dispatches_on_mode() {
    let key = password_to_key("k");
    let plain = sample(20);
    let enc = transform(Mode::Encrypt, &key, &ZERO_IV, &plain).unwrap();
    assert_eq!(enc, encrypt(&key, &ZERO_IV, &plain));
    assert_eq!(transform(Mode::Decrypt, &key, &ZERO_IV, &enc), Ok(plain));
    assert_eq!(transform(Mode::Decrypt, &key, &ZERO_IV, &sample(20)), Err(CryptError::DecryptError));
}

#[test]
fn pkcs7_padding_values() {
    assert_eq!(pkcs7_pad_vec(&[]), vec![16u8; 16]);
    let mut expected = b"hello".to_vec();
    expected.extend_from_slice(&[11u8; 11]);
    assert_eq!(pkcs7_pad_vec(b"hello"), expected);
    let aligned = sample(16);
    let padded = pkcs7_pad_vec(&aligned);
    assert_eq!(padded.len(), 32);
    assert_eq!(&padded[16..], &[16u8; 16]);
}

#[test]
fn pkcs7_unpad_validation() {
    assert_eq!(pkcs7_unpad_vec(vec![]), None);
    let mut good = sample(13);
    good.extend_from_slice(&[3, 3, 3]);
    assert_eq!(pkcs7_unpad_vec(good), Some(sample(13)));
    let mut zero = sample(15);
    zero.push(0);
    assert_eq!(pkcs7_unpad_vec(zero), None);
    assert_eq!(pkcs7_unpad_vec(vec![17u8; 32]), None);
    let mut mismatch = vec![4u8; 16];
    mismatch[13] = 9;
    assert_eq!(pkcs7_unpad_vec(mismatch), None);
    assert_eq!(pkcs7_unpad_vec(vec![16u8; 16]), Some(Vec::new()));
}

#[test]
fn status_message_and_labels() {
    assert_eq!(Mode::Encrypt.label(), "Encrypt");
    assert_eq!(Mode::Decrypt.label(), "Decrypt");
    assert_eq!(Mode::default(), Mode::Encrypt);
    assert_eq!(
        status_message(Mode::Encrypt, "a.txt_Encrypt"),
        "Encrypted file saved as: a.txt_Encrypt"
    );
    assert_eq!(
        status_message(Mode::Decrypt, "a.txt_Encrypt_Decrypt"),
        "Decrypted file saved as: a.txt_Encrypt_Decrypt"
    );
    assert_eq!(output_path("a.txt", Mode::Decrypt), "a.txt_Decrypt");
}
