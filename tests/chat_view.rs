use gossip_chat::chat::ChatView;
use gossip_chat::session::{Command, Event, SessionError};

#[test]
fn events_fill_the_view() {
    let mut v = ChatView::new();
    v.apply_event(Event::TicketReady { ticket: "v1abc".to_string() });
    v.apply_event(Event::MessageReceived { text: "hello".to_string() });
    v.apply_event(Event::PeerJoined);
    v.apply_event(Event::MessageReceived { text: "Ticket: not a ticket".to_string() });
    v.apply_event(Event::SessionError { kind: SessionError::JoinFailed });
    assert_eq!(v.ticket.as_deref(), Some("v1abc"));
    assert_eq!(v.messages, vec!["hello".to_string(), "Ticket: not a ticket".to_string()]);
    assert_eq!(v.last_error, Some(SessionError::JoinFailed));
}

#[test]
fn long_ticket_is_cut_short() {
    let mut v = ChatView::new();
    assert!(v.ticket_label().is_none());
    v.ticket = Some("v1000102030405060708090a0b0c0d0e0f".to_string());
    assert_eq!(v.ticket_label().unwrap(), "v1000102030405060708090a0...");
    v.ticket = Some("v1000102030405060708090a".to_string());
    assert_eq!(v.ticket_label().unwrap(), "v1000102030405060708090a");
    v.ticket = Some("v1000102030405060708090ab".to_string());
    assert_eq!(v.ticket_label().unwrap(), "v1000102030405060708090ab");
}

#[test]
fn submitted_input_becomes_pending() {
    let mut v = ChatView::new();
    v.submit_input();
    assert!(v.pending_messages.is_empty());
    v.input = "hi there".to_string();
    v.submit_input();
    assert_eq!(v.pending_messages, vec!["hi there".to_string()]);
    assert!(v.input.is_empty());
    assert_eq!(v.take_pending().as_deref(), Some("hi there"));
    assert!(v.pending_messages.is_empty());
    assert!(v.take_pending().is_none());
}

#[test]
fn join_command_trims_the_ticket() {
    let mut v = ChatView::new();
    assert!(v.join_command().is_none());
    v.join_token = "  v1abcd \n".to_string();
    match v.join_command() {
        Some(Command::Join { ticket }) => assert_eq!(ticket, "v1abcd"),
        other => panic!("unexpected {:?}", other),
    }
    assert!(matches!(v.create_command(), Command::Open { topic: None }));
}

#[test]
fn chat_shows_once_start_is_accepted() {
    let mut v = ChatView::new();
    v.start_sent(false);
    assert!(!v.is_chatting);
    v.start_sent(true);
    assert!(v.is_chatting);
    v.start_sent(false);
    assert!(v.is_chatting);
}

#[test]
fn full_command_queue_reports_backpressure() {
    let (tx, _rx) = tokio::sync::mpsc::channel::<Command>(2);
    let mut v = ChatView::new();
    for text in ["a", "b", "c"] {
        v.input = text.to_string();
        v.submit_input();
        let msg = v.take_pending().unwrap();
        match tx.try_send(Command::Send { text: msg }) {
            Ok(()) => {}
            Err(tokio::sync::mpsc::error::TrySendError::Full(Command::Send { text })) => v.send_refused(text),
            Err(e) => panic!("unexpected {:?}", e),
        }
    }
    assert_eq!(v.pending_messages, vec!["c".to_string()]);
}

#[test]
fn refused_message_is_kept_ahead_of_later_ones() {
    let mut v = ChatView::new();
    v.input = "first".to_string();
    v.submit_input();
    let first = v.take_pending().unwrap();
    v.send_refused(first);
    v.input = "second".to_string();
    v.submit_input();
    assert_eq!(v.pending_messages, vec!["first".to_string(), "second".to_string()]);
    assert_eq!(v.take_pending().as_deref(), Some("first"));
    assert_eq!(v.take_pending().as_deref(), Some("second"));
    assert!(v.take_pending().is_none());
}

fn sample_events() -> Vec<Event> {
    vec![
        Event::PeerJoined,
        Event::TicketReady { ticket: "v1aa".to_string() },
        Event::MessageReceived { text: "one".to_string() },
        Event::PeerLeft,
        Event::MessageReceived { text: "two".to_string() },
        Event::TicketReady { ticket: "v1bb".to_string() },
        Event::MessageReceived { text: "three".to_string() },
    ]
}

#[test]
fn batches_of_events_show_the_same() {
    let mut whole = ChatView::new();
    whole.apply_events(sample_events());
    let mut split = ChatView::new();
    let mut es = sample_events();
    let rest = es.split_off(3);
    split.apply_events(es);
    split.apply_events(rest);
    let mut single = ChatView::new();
    for e in sample_events() {
        single.apply_events(vec![e]);
    }
    let expected = vec!["one".to_string(), "two".to_string(), "three".to_string()];
    for v in [&whole, &split, &single] {
        assert_eq!(v.messages, expected);
        assert_eq!(v.ticket.as_deref(), Some("v1bb"));
    }
}

#[test]
fn typed_token_is_kept_as_typed() {
    let mut v = ChatView::new();
    assert!(v.typed_token().is_none());
    v.join_token = "  v1ab ".to_string();
    assert_eq!(v.typed_token().as_deref(), Some("  v1ab "));
    v.join_token = "   ".to_string();
    assert_eq!(v.typed_token().as_deref(), Some("   "));
}

#[test]
fn join_command_trims_unicode_white_space() {
    let mut v = ChatView::new();
    v.join_token = "\u{3000}\tv1ab\u{a0}".to_string();
    match v.join_command() {
        Some(Command::Join { ticket }) => assert_eq!(ticket, "v1ab"),
        other => panic!("unexpected {:?}", other),
    }
    v.join_token = " v1 ab ".to_string();
    match v.join_command() {
        Some(Command::Join { ticket }) => assert_eq!(ticket, "v1 ab"),
        other => panic!("unexpected {:?}", other),
    }
}

#[test]
fn start_sent_changes_nothing_else() {
    let mut v = ChatView::new();
    v.join_token = "tok".to_string();
    v.ticket = Some("v1cc".to_string());
    v.start_sent(true);
    assert!(v.is_chatting);
    assert_eq!(v.join_token, "tok");
    assert_eq!(v.ticket.as_deref(), Some("v1cc"));
}
