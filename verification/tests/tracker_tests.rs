use peerchat::crypto::encrypt_message;
use peerchat::history::UiMessage;
use peerchat::ids::{PeerId, TopicId};
use peerchat::tracker::Tracker;
use peerchat::wire::{Message, MessageBody};

fn topic(b: u8) -> TopicId {
    TopicId::new(vec![b; 32])
}

fn peer(b: u8) -> PeerId {
    PeerId::new(vec![b; 32])
}

fn fresh_tracker() -> Tracker {
    Tracker::new(peer(0), "me".to_string(), topic(1))
}

fn chat(from: u8, id: u64) -> Message {
    Message::new(MessageBody::EncryptedMessage {
        from: peer(from),
        id,
        ciphertext: vec![1, 2, 3],
        nonce: vec![0u8; 12],
    })
}

fn delete(from: u8, id: u64) -> Message {
    Message::new(MessageBody::DeleteMessage {
        from: peer(from),
        id,
    })
}

fn announce(from: u8, name: &str) -> Message {
    Message::new(MessageBody::AboutMe {
        from: peer(from),
        name: name.to_string(),
    })
}

#[test]
fn authorized_delete_is_applied() {
    let mut tr = fresh_tracker();
    // ownership table: 42 -> peer X (2)
    tr.handle_message(chat(2, 42));
    let evs = tr.handle_message(delete(2, 42));
    assert_eq!(evs.len(), 1);
    assert!(matches!(evs[0], UiMessage::Delete(42)));
}

#[test]
fn delete_from_wrong_peer_is_dropped() {
    let mut tr = fresh_tracker();
    tr.handle_message(chat(2, 42));
    // peer Y (3) may not delete X's message
    let evs = tr.handle_message(delete(3, 42));
    assert!(evs.is_empty());
    // the entry is still there: X can still delete
    let evs2 = tr.handle_message(delete(2, 42));
    assert_eq!(evs2.len(), 1);
}

#[test]
fn delete_of_unknown_id_is_dropped() {
    let mut tr = fresh_tracker();
    let evs = tr.handle_message(delete(2, 99));
    assert!(evs.is_empty());
}

#[test]
fn duplicate_delete_is_idempotent() {
    let mut tr = fresh_tracker();
    tr.handle_message(chat(2, 42));
    let evs = tr.handle_message(delete(2, 42));
    assert_eq!(evs.len(), 1);
    // the owner entry is gone: the second request finds nothing
    let evs2 = tr.handle_message(delete(2, 42));
    assert!(evs2.is_empty());
}

#[test]
fn ownership_is_last_write_wins() {
    let mut tr = fresh_tracker();
    tr.handle_message(chat(2, 7));
    tr.handle_message(chat(3, 7));
    // owner is now Y (3): X's delete is dropped, Y's is applied
    assert!(tr.handle_message(delete(2, 7)).is_empty());
    let evs = tr.handle_message(delete(3, 7));
    assert_eq!(evs.len(), 1);
    assert!(matches!(evs[0], UiMessage::Delete(7)));
}

#[test]
fn announce_emits_joined_notice() {
    let mut tr = fresh_tracker();
    let evs = tr.handle_message(announce(2, "alice"));
    assert_eq!(evs.len(), 1);
    match &evs[0] {
        UiMessage::System(s) => assert_eq!(s, "alice joined the chat"),
        _ => panic!("expected a system notice"),
    }
}

#[test]
fn own_announce_is_silent() {
    let mut tr = fresh_tracker();
    let evs = tr.handle_message(announce(0, "me again"));
    assert!(evs.is_empty());
}

#[test]
fn own_chat_is_not_redisplayed() {
    let mut tr = fresh_tracker();
    let evs = tr.handle_message(chat(0, 5));
    assert!(evs.is_empty());
    // but ownership was still recorded: the local peer can delete it
    let evs2 = tr.handle_message(delete(0, 5));
    assert_eq!(evs2.len(), 1);
}

#[test]
fn valid_chat_is_decrypted_and_attributed() {
    let t = topic(1);
    let mut tr = Tracker::new(peer(0), "me".to_string(), t.duplicate());
    tr.handle_message(announce(2, "alice"));
    let m = encrypt_message("hi there", peer(2), &t, 77).unwrap();
    let evs = tr.handle_message(m);
    assert_eq!(evs.len(), 1);
    match &evs[0] {
        UiMessage::Chat(c) => {
            assert_eq!(c.id, 77);
            assert_eq!(c.sender, "alice");
            assert_eq!(c.content, "hi there");
            assert!(c.encrypted);
        }
        _ => panic!("expected a chat event"),
    }
}

#[test]
fn unknown_sender_gets_short_label() {
    let t = topic(1);
    let mut tr = Tracker::new(peer(0), "me".to_string(), t.duplicate());
    let m = encrypt_message("hello", peer(0xAB), &t, 8).unwrap();
    let evs = tr.handle_message(m);
    assert_eq!(evs.len(), 1);
    match &evs[0] {
        UiMessage::Chat(c) => assert_eq!(c.sender, "ababababab"),
        _ => panic!("expected a chat event"),
    }
}

#[test]
fn undecryptable_chat_yields_notice_not_crash() {
    let t = topic(1);
    let wrong = topic(9);
    let mut tr = Tracker::new(peer(0), "me".to_string(), t.duplicate());
    tr.handle_message(announce(2, "alice"));
    // encrypted for another topic: authentication must fail here
    let m = encrypt_message("psst", peer(2), &wrong, 12).unwrap();
    let evs = tr.handle_message(m);
    assert_eq!(evs.len(), 1);
    match &evs[0] {
        UiMessage::System(s) => {
            assert_eq!(s, "Failed to decrypt message from alice: authentication failed")
        }
        _ => panic!("expected a system notice"),
    }
}

#[test]
fn announce_updates_name_last_write_wins() {
    let t = topic(1);
    let mut tr = Tracker::new(peer(0), "me".to_string(), t.duplicate());
    tr.handle_message(announce(2, "alice"));
    tr.handle_message(announce(2, "alicia"));
    let m = encrypt_message("renamed", peer(2), &t, 13).unwrap();
    let evs = tr.handle_message(m);
    match &evs[0] {
        UiMessage::Chat(c) => assert_eq!(c.sender, "alicia"),
        _ => panic!("expected a chat event"),
    }
}
