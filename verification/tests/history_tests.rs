use peerchat::history::{App, ChatMessage, Mode, UiMessage};

fn chat(id: u64, text: &str) -> UiMessage {
    UiMessage::Chat(ChatMessage {
        id,
        sender: "x".to_string(),
        content: text.to_string(),
        encrypted: true,
    })
}

fn chat_ids(app: &App) -> Vec<u64> {
    app.messages
        .iter()
        .filter_map(|m| match m {
            UiMessage::Chat(c) => Some(c.id),
            _ => None,
        })
        .collect()
}

#[test]
fn new_app_is_empty_and_pinned() {
    let app = App::new();
    assert!(app.input.is_empty());
    assert!(app.messages.is_empty());
    assert!(app.mode == Mode::Insert);
    assert!(app.my_sent_ids.is_empty());
    assert_eq!(app.scroll_offset, 0);
}

#[test]
fn history_is_bounded_with_batch_trim() {
    let mut app = App::new();
    for i in 0..1000u64 {
        app.add_message(chat(i, "m"));
        assert!(app.messages.len() <= 1000);
    }
    assert_eq!(app.messages.len(), 1000);
    // the insert that crosses the cap drops exactly the 100 oldest
    app.add_message(chat(1000, "m"));
    assert_eq!(app.messages.len(), 901);
    let ids = chat_ids(&app);
    assert_eq!(ids.first(), Some(&100));
    assert_eq!(ids.last(), Some(&1000));
    for i in 1001..2000u64 {
        app.add_message(chat(i, "m"));
        assert!(app.messages.len() <= 1000);
    }
}

#[test]
fn delete_removes_all_matching_and_appends_notice() {
    let mut app = App::new();
    app.add_message(chat(1, "a"));
    app.add_message(chat(2, "b"));
    app.add_message(chat(1, "a again"));
    app.add_message(UiMessage::Delete(1));
    let ids = chat_ids(&app);
    assert_eq!(ids, vec![2]);
    match app.messages.last().unwrap() {
        UiMessage::System(s) => assert_eq!(s, "A message was deleted."),
        _ => panic!("expected the deletion notice"),
    }
    assert_eq!(app.messages.len(), 2);
}

#[test]
fn delete_removes_id_from_sent_queue() {
    let mut app = App::new();
    app.record_sent(5);
    app.record_sent(6);
    app.add_message(UiMessage::Delete(5));
    assert_eq!(app.my_sent_ids, vec![6]);
}

#[test]
fn scroll_up_clamps_to_oldest() {
    let mut app = App::new();
    for i in 0..5u64 {
        app.add_message(chat(i, "m"));
    }
    app.scroll_up(10);
    assert_eq!(app.scroll_offset, 4);
    app.scroll_up(1);
    assert_eq!(app.scroll_offset, 4);
}

#[test]
fn scroll_down_clamps_to_zero() {
    let mut app = App::new();
    for i in 0..5u64 {
        app.add_message(chat(i, "m"));
    }
    app.scroll_up(3);
    assert_eq!(app.scroll_offset, 3);
    app.scroll_down(100);
    assert_eq!(app.scroll_offset, 0);
    app.scroll_down(1);
    assert_eq!(app.scroll_offset, 0);
}

#[test]
fn scroll_up_on_empty_history_stays_at_zero() {
    let mut app = App::new();
    app.scroll_up(1);
    assert_eq!(app.scroll_offset, 0);
}

#[test]
fn self_delete_flow() {
    let mut app = App::new();
    app.add_message(chat(99, "my words"));
    app.record_sent(99);
    let got = app.delete_most_recent_own();
    assert_eq!(got, Some(99));
    assert!(chat_ids(&app).is_empty());
    assert!(app.my_sent_ids.is_empty());
    match app.messages.last().unwrap() {
        UiMessage::System(s) => assert_eq!(s, "A message was deleted."),
        _ => panic!("expected the deletion notice"),
    }
    // a second attempt finds nothing and only leaves a local notice
    let got2 = app.delete_most_recent_own();
    assert_eq!(got2, None);
    match app.messages.last().unwrap() {
        UiMessage::System(s) => assert_eq!(s, "No messages to delete."),
        _ => panic!("expected the empty-queue notice"),
    }
}

#[test]
fn self_delete_takes_most_recent_first() {
    let mut app = App::new();
    app.add_message(chat(1, "one"));
    app.record_sent(1);
    app.add_message(chat(2, "two"));
    app.record_sent(2);
    assert_eq!(app.delete_most_recent_own(), Some(2));
    assert_eq!(chat_ids(&app), vec![1]);
    assert_eq!(app.delete_most_recent_own(), Some(1));
    assert!(chat_ids(&app).is_empty());
    assert_eq!(app.delete_most_recent_own(), None);
}
