use chacha20poly1305::aead::Aead;
use chacha20poly1305::{ChaCha20Poly1305, Key, KeyInit, Nonce};
use peerchat::crypto::{decrypt_message, encrypt_message, get_encryption_key, CryptoError};
use peerchat::ids::{PeerId, TopicId};
use peerchat::wire::MessageBody;

fn topic(b: u8) -> TopicId {
    TopicId::new(vec![b; 32])
}

fn peer(b: u8) -> PeerId {
    PeerId::new(vec![b; 32])
}

fn encrypt_parts(text: &str, t: &TopicId) -> (Vec<u8>, Vec<u8>) {
    let m = encrypt_message(text, peer(1), t, 42).unwrap();
    match m.body {
        MessageBody::EncryptedMessage {
            ciphertext, nonce, ..
        } => (ciphertext, nonce),
        _ => panic!("encrypt_message produced the wrong variant"),
    }
}

#[test]
fn key_is_deterministic_and_topic_bound() {
    let a = get_encryption_key(&topic(7));
    let b = get_encryption_key(&topic(7));
    let c = get_encryption_key(&topic(8));
    assert_eq!(a, b);
    assert_ne!(a, c);
    assert_eq!(a.len(), 32);
    // the key is a hash, not the topic bytes themselves
    assert_ne!(a, vec![7u8; 32]);
}

#[test]
fn encrypt_decrypt_round_trip() {
    let t = topic(3);
    let text = "hello, chat! \u{00e9}\u{4e16}\u{754c}";
    let (ct, nonce) = encrypt_parts(text, &t);
    assert_ne!(ct, text.as_bytes().to_vec());
    let got = decrypt_message(&ct, &nonce, &t).unwrap();
    assert_eq!(got, text);
}

#[test]
fn empty_text_round_trip() {
    let t = topic(9);
    let (ct, nonce) = encrypt_parts("", &t);
    assert_eq!(ct.len(), 16);
    let got = decrypt_message(&ct, &nonce, &t).unwrap();
    assert_eq!(got, "");
}

#[test]
fn tampering_any_ciphertext_bit_fails() {
    let t = topic(5);
    let (ct, nonce) = encrypt_parts("attack at dawn", &t);
    for byte in 0..ct.len() {
        for bit in 0..8 {
            let mut bad = ct.clone();
            bad[byte] ^= 1u8 << bit;
            let r = decrypt_message(&bad, &nonce, &t);
            assert!(matches!(r, Err(CryptoError::Authentication)));
        }
    }
}

#[test]
fn tampering_any_nonce_bit_fails() {
    let t = topic(5);
    let (ct, nonce) = encrypt_parts("attack at dawn", &t);
    for byte in 0..nonce.len() {
        for bit in 0..8 {
            let mut bad = nonce.clone();
            bad[byte] ^= 1u8 << bit;
            let r = decrypt_message(&ct, &bad, &t);
            assert!(r.is_err());
        }
    }
}

#[test]
fn cross_topic_decryption_fails() {
    let t_a = topic(1);
    let t_b = topic(2);
    let (ct, nonce) = encrypt_parts("secret", &t_a);
    let r = decrypt_message(&ct, &nonce, &t_b);
    assert!(matches!(r, Err(CryptoError::Authentication)));
    assert!(decrypt_message(&ct, &nonce, &t_a).is_ok());
}

#[test]
fn non_text_plaintext_gives_encoding_error() {
    let t = topic(6);
    let key = get_encryption_key(&t);
    let cipher = ChaCha20Poly1305::new(Key::from_slice(&key));
    let nonce = [9u8; 12];
    // authentic ciphertext whose plaintext is not valid UTF-8
    let ct = cipher
        .encrypt(Nonce::from_slice(&nonce), &[0xff, 0xfe, 0x80][..])
        .unwrap();
    let r = decrypt_message(&ct, &nonce, &t);
    assert!(matches!(r, Err(CryptoError::Encoding)));
}

#[test]
fn truncated_ciphertext_fails() {
    let t = topic(4);
    let (ct, nonce) = encrypt_parts("some message", &t);
    let r = decrypt_message(&ct[..ct.len() - 1], &nonce, &t);
    assert!(r.is_err());
    let r2 = decrypt_message(&[], &nonce, &t);
    assert!(r2.is_err());
}
