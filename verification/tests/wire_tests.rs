use peerchat::ids::PeerId;
use peerchat::wire::{Message, MessageBody};

fn peer(b: u8) -> PeerId {
    PeerId::new(vec![b; 32])
}

#[test]
fn about_me_round_trip() {
    let m = Message::new(MessageBody::AboutMe {
        from: peer(9),
        name: "alice \u{00e9}".to_string(),
    });
    let bytes = m.to_vec();
    let back = Message::from_bytes(&bytes).unwrap();
    assert_eq!(back.nonce, m.nonce);
    match back.body {
        MessageBody::AboutMe { from, name } => {
            assert_eq!(from.bytes, vec![9u8; 32]);
            assert_eq!(name, "alice \u{00e9}");
        }
        _ => panic!("wrong variant"),
    }
}

#[test]
fn encrypted_message_round_trip() {
    let m = Message::new(MessageBody::EncryptedMessage {
        from: peer(1),
        id: 0x1122334455667788,
        ciphertext: vec![0xde, 0xad, 0xbe, 0xef],
        nonce: vec![7u8; 12],
    });
    let bytes = m.to_vec();
    let back = Message::from_bytes(&bytes).unwrap();
    match back.body {
        MessageBody::EncryptedMessage {
            from,
            id,
            ciphertext,
            nonce,
        } => {
            assert_eq!(from.bytes, vec![1u8; 32]);
            assert_eq!(id, 0x1122334455667788);
            assert_eq!(ciphertext, vec![0xde, 0xad, 0xbe, 0xef]);
            assert_eq!(nonce, vec![7u8; 12]);
        }
        _ => panic!("wrong variant"),
    }
}

#[test]
fn delete_message_round_trip() {
    let m = Message::new(MessageBody::DeleteMessage {
        from: peer(2),
        id: 99,
    });
    let bytes = m.to_vec();
    // layout: 16 nonce bytes, tag, 32 sender bytes, 8 id bytes
    assert_eq!(bytes.len(), 57);
    assert_eq!(bytes[16], 3);
    assert_eq!(&bytes[17..49], &[2u8; 32][..]);
    assert_eq!(&bytes[49..57], &99u64.to_le_bytes()[..]);
    let back = Message::from_bytes(&bytes).unwrap();
    match back.body {
        MessageBody::DeleteMessage { from, id } => {
            assert_eq!(from.bytes, vec![2u8; 32]);
            assert_eq!(id, 99);
        }
        _ => panic!("wrong variant"),
    }
}

#[test]
fn outer_nonce_is_fresh_per_envelope() {
    let a = Message::new(MessageBody::DeleteMessage {
        from: peer(1),
        id: 1,
    });
    let b = Message::new(MessageBody::DeleteMessage {
        from: peer(1),
        id: 1,
    });
    assert_eq!(a.nonce.len(), 16);
    assert_eq!(b.nonce.len(), 16);
    // random outer padding makes equal bodies differ on the wire
    assert_ne!(a.nonce, b.nonce);
    assert_ne!(a.to_vec(), b.to_vec());
}

#[test]
fn truncated_input_fails() {
    let m = Message::new(MessageBody::DeleteMessage {
        from: peer(2),
        id: 99,
    });
    let bytes = m.to_vec();
    for cut in 0..49 {
        assert!(Message::from_bytes(&bytes[..cut]).is_err());
    }
}

#[test]
fn unknown_tag_fails() {
    let m = Message::new(MessageBody::DeleteMessage {
        from: peer(2),
        id: 99,
    });
    let mut bytes = m.to_vec();
    bytes[16] = 200;
    assert!(Message::from_bytes(&bytes).is_err());
    bytes[16] = 0;
    assert!(Message::from_bytes(&bytes).is_err());
}

#[test]
fn delete_with_trailing_bytes_fails() {
    let m = Message::new(MessageBody::DeleteMessage {
        from: peer(2),
        id: 99,
    });
    let mut bytes = m.to_vec();
    bytes.push(0);
    assert!(Message::from_bytes(&bytes).is_err());
}

#[test]
fn invalid_name_text_fails() {
    let m = Message::new(MessageBody::AboutMe {
        from: peer(3),
        name: "bob".to_string(),
    });
    let mut bytes = m.to_vec();
    // overwrite the name with an invalid UTF-8 byte
    let last = bytes.len() - 1;
    bytes[last] = 0xff;
    assert!(Message::from_bytes(&bytes).is_err());
}

#[test]
fn encrypted_message_too_short_fails() {
    let m = Message::new(MessageBody::EncryptedMessage {
        from: peer(1),
        id: 5,
        ciphertext: vec![],
        nonce: vec![0u8; 12],
    });
    let bytes = m.to_vec();
    assert_eq!(bytes.len(), 69);
    assert!(Message::from_bytes(&bytes).is_ok());
    assert!(Message::from_bytes(&bytes[..68]).is_err());
}
