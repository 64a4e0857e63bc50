use peerchat::ids::TopicId;
use peerchat::ticket::Ticket;

fn topic(b: u8) -> TopicId {
    TopicId::new(vec![b; 32])
}

#[test]
fn ticket_round_trip_two_peers() {
    let t = Ticket {
        topic: topic(0xAB),
        endpoints: vec![vec![1, 2, 3], vec![4, 5, 6, 7, 8]],
    };
    let text = t.encode();
    let back = Ticket::decode(&text).unwrap();
    assert_eq!(back.topic.bytes, vec![0xAB; 32]);
    assert_eq!(back.endpoints, vec![vec![1, 2, 3], vec![4, 5, 6, 7, 8]]);
}

#[test]
fn ticket_round_trip_no_peers() {
    let t = Ticket {
        topic: topic(0),
        endpoints: vec![],
    };
    let text = t.encode();
    let back = Ticket::decode(&text).unwrap();
    assert_eq!(back.topic.bytes, vec![0u8; 32]);
    assert!(back.endpoints.is_empty());
}

#[test]
fn ticket_round_trip_empty_address() {
    let t = Ticket {
        topic: topic(1),
        endpoints: vec![vec![], vec![9]],
    };
    let text = t.encode();
    let back = Ticket::decode(&text).unwrap();
    assert_eq!(back.endpoints, vec![vec![], vec![9]]);
}

#[test]
fn encoded_ticket_is_lowercase_base32() {
    let t = Ticket {
        topic: topic(0xC4),
        endpoints: vec![vec![0xff, 0x00, 0x10]],
    };
    let text = t.encode();
    assert!(!text.is_empty());
    for c in text.chars() {
        assert!(
            ('a'..='z').contains(&c) || ('2'..='7').contains(&c),
            "unexpected character {:?} in ticket token",
            c
        );
    }
}

#[test]
fn all_zero_ticket_has_known_token() {
    // 32 zero topic bytes and a zero count serialize to 40 zero bytes;
    // 320 bits of zeros are 64 base-32 digits of 'a'
    let t = Ticket {
        topic: topic(0),
        endpoints: vec![],
    };
    let expected: String = std::iter::repeat('a').take(64).collect();
    assert_eq!(t.encode(), expected);
}

#[test]
fn decode_accepts_uppercase() {
    let t = Ticket {
        topic: topic(0x11),
        endpoints: vec![vec![42]],
    };
    let text = t.encode().to_ascii_uppercase();
    let back = Ticket::decode(&text).unwrap();
    assert_eq!(back.topic.bytes, vec![0x11; 32]);
    assert_eq!(back.endpoints, vec![vec![42]]);
}

#[test]
fn decode_rejects_bad_base32() {
    assert!(Ticket::decode("not base32 at all!!!").is_err());
    assert!(Ticket::decode("0189").is_err());
    assert!(Ticket::decode("\u{00e9}\u{00e9}").is_err());
}

#[test]
fn decode_rejects_short_payload() {
    // valid base 32, but the payload is far too short for a ticket
    assert!(Ticket::decode("mzxw6").is_err());
    assert!(Ticket::decode("").is_err());
}

#[test]
fn decode_rejects_truncated_address_list() {
    let t = Ticket {
        topic: topic(7),
        endpoints: vec![vec![1, 2, 3, 4]],
    };
    let mut bytes = t.to_bytes();
    // claim one more address than is present
    bytes[32] = 2;
    let forged = Ticket::from_bytes(&bytes);
    assert!(forged.is_err());
}

#[test]
fn byte_round_trip() {
    let t = Ticket {
        topic: topic(0x33),
        endpoints: vec![vec![10; 40], vec![]],
    };
    let bytes = t.to_bytes();
    let back = Ticket::from_bytes(&bytes).unwrap();
    assert_eq!(back.topic.bytes, vec![0x33; 32]);
    assert_eq!(back.endpoints, vec![vec![10; 40], vec![]]);
}
