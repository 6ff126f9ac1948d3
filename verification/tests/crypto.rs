use rand::rngs::OsRng;
use rand::RngCore;
use tetris::curve25519::{decrypt, encrypt, encrypt_with_key, DecryptError, EncryptError};

use crypto::curve25519::curve25519_base;

#[test]
fn it_works() {
    let mut secret_key = [0u8; 32];
    OsRng.fill_bytes(&mut secret_key[..]);

    let public_key = curve25519_base(&secret_key[..]);

    let encrypted_message = encrypt(&public_key, b"Just a test").ok().unwrap();

    let decrypted_message = decrypt(&secret_key, &encrypted_message[..]).ok().unwrap();

    assert_eq!(decrypted_message, b"Just a test".to_vec());

    {
        // Corrupt the ephemeral public key
        let mut corrupt_1 = encrypted_message.clone();
        corrupt_1[3] ^= 1;
        assert!(decrypt(&secret_key, &corrupt_1[..]).is_err());
    }

    {
        // Corrupt the tag
        let mut corrupt_2 = encrypted_message.clone();
        corrupt_2[35] ^= 1;
        assert!(decrypt(&secret_key, &corrupt_2[..]).is_err());
    }

    {
        // Corrupt the message
        let mut corrupt_3 = encrypted_message.clone();
        corrupt_3[50] ^= 1;
        assert!(decrypt(&secret_key, &corrupt_3[..]).is_err());
    }
}

#[test]
fn sealed_message_layout() {
    let secret = [7u8; 32];
    let public_key = curve25519_base(&secret[..]);
    let ephemeral = [9u8; 32];
    let out = encrypt_with_key(&public_key, &ephemeral, b"abc");
    assert_eq!(out.len(), 48 + 3);
    assert_eq!(&out[0..32], &curve25519_base(&ephemeral[..])[..]);
    assert_ne!(&out[48..], b"abc");
    assert_eq!(decrypt(&secret, &out).ok().unwrap(), b"abc".to_vec());
}

#[test]
fn same_key_same_output() {
    let public_key = curve25519_base(&[1u8; 32][..]);
    let a = encrypt_with_key(&public_key, &[2u8; 32], b"hello");
    let b = encrypt_with_key(&public_key, &[2u8; 32], b"hello");
    let c = encrypt_with_key(&public_key, &[3u8; 32], b"hello");
    assert_eq!(a, b);
    assert_ne!(a, c);
}

#[test]
fn short_message_is_malformed() {
    let secret = [1u8; 32];
    assert!(matches!(decrypt(&secret, &[0u8; 47]), Err(DecryptError::Malformed)));
    assert!(matches!(decrypt(&secret, &[]), Err(DecryptError::Malformed)));
}

#[test]
fn wrong_key_is_invalid() {
    let public_key = curve25519_base(&[4u8; 32][..]);
    let out = encrypt(&public_key, b"secret").ok().unwrap();
    assert!(matches!(decrypt(&[5u8; 32], &out), Err(DecryptError::Invalid)));
    assert!(matches!(decrypt(&[4u8; 32], &out), Ok(_)));
}

#[test]
fn empty_message_round_trip() {
    let secret = [8u8; 32];
    let public_key = curve25519_base(&secret[..]);
    let out = encrypt(&public_key, b"").ok().unwrap();
    assert_eq!(out.len(), 48);
    assert_eq!(decrypt(&secret, &out).ok().unwrap(), Vec::<u8>::new());
    let e: Result<Vec<u8>, EncryptError> = Ok(out);
    assert!(e.is_ok());
}
