use gossip_chat::session::{Action, Command, Event, Notification, Phase, SessionError, Supervisor};
use gossip_chat::ticket::Ticket;

fn fresh() -> Vec<u8> {
    vec![42; 32]
}

fn running_creator() -> Supervisor {
    let mut s = Supervisor::new();
    s.handle_command(Command::Open { topic: None }, fresh());
    s.on_subscribed(vec![5, 6, 7]);
    assert_eq!(s.phase(), Phase::Running);
    s
}

#[test]
fn create_emits_ticket_for_subscribed_topic() {
    let mut s = Supervisor::new();
    let a = s.handle_command(Command::Open { topic: None }, fresh());
    let subscribed = match a {
        Action::Subscribe { topic, bootstrap } => {
            assert!(bootstrap.is_empty());
            topic
        }
        other => panic!("unexpected {:?}", other),
    };
    assert_eq!(subscribed, fresh());
    assert_eq!(s.phase(), Phase::Starting);
    let a = s.on_subscribed(vec![5, 6, 7]);
    let ticket = match a {
        Action::Emit { event: Event::TicketReady { ticket } } => ticket,
        other => panic!("unexpected {:?}", other),
    };
    let decoded = Ticket::decode(&ticket).unwrap();
    assert_eq!(decoded.topic, subscribed);
    assert_eq!(decoded.bootstrap, vec![vec![5, 6, 7]]);
    // a second subscription notice emits nothing more
    assert!(matches!(s.on_subscribed(vec![1]), Action::Nothing));
}

#[test]
fn open_with_given_topic() {
    let mut s = Supervisor::new();
    let a = s.handle_command(Command::Open { topic: Some(vec![3; 32]) }, fresh());
    assert!(matches!(a, Action::Subscribe { ref topic, .. } if *topic == vec![3; 32]));
}

#[test]
fn join_with_malformed_ticket_fails() {
    let mut s = Supervisor::new();
    let a = s.handle_command(Command::Join { ticket: "not-a-real-ticket".to_string() }, fresh());
    assert!(matches!(a, Action::Emit { event: Event::SessionError { kind: SessionError::JoinFailed } }));
    assert_eq!(s.phase(), Phase::Stopped);
    assert!(matches!(s.on_subscribed(vec![1]), Action::Nothing));
    assert_eq!(s.phase(), Phase::Stopped);
}

#[test]
fn join_with_valid_ticket_subscribes() {
    let text = Ticket { topic: vec![8; 32], bootstrap: vec![vec![1, 2]] }.encode();
    let mut s = Supervisor::new();
    let a = s.handle_command(Command::Join { ticket: text }, fresh());
    match a {
        Action::Subscribe { topic, bootstrap } => {
            assert_eq!(topic, vec![8; 32]);
            assert_eq!(bootstrap, vec![vec![1, 2]]);
        }
        other => panic!("unexpected {:?}", other),
    }
    assert!(matches!(s.on_subscribed(vec![9]), Action::Nothing));
    assert_eq!(s.phase(), Phase::Running);
}

#[test]
fn join_without_reachable_peer_fails() {
    let text = Ticket { topic: vec![8; 32], bootstrap: vec![] }.encode();
    let mut s = Supervisor::new();
    s.handle_command(Command::Join { ticket: text }, fresh());
    let a = s.on_subscribe_failed();
    assert!(matches!(a, Action::Emit { event: Event::SessionError { kind: SessionError::JoinFailed } }));
    assert_eq!(s.phase(), Phase::Stopped);
}

#[test]
fn create_without_transport_fails() {
    let mut s = Supervisor::new();
    s.handle_command(Command::Open { topic: None }, fresh());
    let a = s.on_subscribe_failed();
    assert!(matches!(
        a,
        Action::Emit { event: Event::SessionError { kind: SessionError::TransportUnavailable } }
    ));
}

#[test]
fn send_before_join_is_not_active() {
    let s = Supervisor::new();
    assert_eq!(s.send("hi".to_string()), Err(SessionError::NotActive));
    let mut s = Supervisor::new();
    let a = s.handle_command(Command::Send { text: "hi".to_string() }, fresh());
    assert!(matches!(a, Action::Emit { event: Event::SessionError { kind: SessionError::NotActive } }));
    assert_eq!(s.phase(), Phase::Idle);
}

#[test]
fn second_start_is_rejected() {
    let mut s = running_creator();
    let a = s.handle_command(Command::Open { topic: None }, vec![1; 32]);
    assert!(matches!(a, Action::Emit { event: Event::SessionError { kind: SessionError::AlreadyStarted } }));
    let text = Ticket { topic: vec![8; 32], bootstrap: vec![] }.encode();
    let a = s.handle_command(Command::Join { ticket: text }, vec![1; 32]);
    assert!(matches!(a, Action::Emit { event: Event::SessionError { kind: SessionError::AlreadyStarted } }));
    assert_eq!(s.phase(), Phase::Running);
    // still publishing on the first room
    assert!(matches!(s.handle_command(Command::Send { text: "x".to_string() }, fresh()), Action::Publish { .. }));
}

#[test]
fn sends_publish_in_order() {
    let mut s = running_creator();
    let texts = ["one", "two", "three", "four"];
    let mut published = Vec::new();
    for t in texts {
        match s.handle_command(Command::Send { text: t.to_string() }, fresh()) {
            Action::Publish { text } => published.push(text),
            other => panic!("unexpected {:?}", other),
        }
    }
    assert_eq!(published, vec!["one", "two", "three", "four"]);
}

#[test]
fn relay_keeps_every_event_in_order() {
    let s = running_creator();
    let ns = vec![
        Notification::PeerJoined,
        Notification::Message { text: "a".to_string() },
        Notification::Other,
        Notification::Message { text: "b".to_string() },
        Notification::PeerLeft,
    ];
    let mut relay = vec![Event::PeerLeft];
    s.relay(ns, &mut relay);
    assert_eq!(relay.len(), 5);
    assert!(matches!(relay[0], Event::PeerLeft));
    assert!(matches!(relay[1], Event::PeerJoined));
    assert!(matches!(&relay[2], Event::MessageReceived { text } if text == "a"));
    assert!(matches!(&relay[3], Event::MessageReceived { text } if text == "b"));
    assert!(matches!(relay[4], Event::PeerLeft));
}

#[test]
fn notifications_before_running_are_dropped() {
    let s = Supervisor::new();
    assert!(s.on_notification(Notification::PeerJoined).is_none());
    let r = running_creator();
    assert!(r.on_notification(Notification::Other).is_none());
    assert!(matches!(r.on_notification(Notification::PeerLeft), Some(Event::PeerLeft)));
}

#[test]
fn closing_commands_drains_then_stops() {
    let mut s = running_creator();
    s.on_commands_closed();
    assert_eq!(s.phase(), Phase::Draining);
    assert!(matches!(s.on_notification(Notification::PeerJoined), Some(Event::PeerJoined)));
    // sends queued before the close are still flushed
    assert!(matches!(
        s.handle_command(Command::Send { text: "queued".to_string() }, fresh()),
        Action::Publish { ref text } if text == "queued"
    ));
    s.finish_drain();
    assert_eq!(s.phase(), Phase::Stopped);
    assert!(matches!(
        s.handle_command(Command::Send { text: "late".to_string() }, fresh()),
        Action::Emit { event: Event::SessionError { kind: SessionError::NotActive } }
    ));
    let mut idle = Supervisor::new();
    idle.on_commands_closed();
    assert_eq!(idle.phase(), Phase::Stopped);
}

#[test]
fn transport_failure_stops_running_session() {
    let mut s = running_creator();
    let a = s.on_transport_failure();
    assert!(matches!(
        a,
        Action::Emit { event: Event::SessionError { kind: SessionError::TransportUnavailable } }
    ));
    assert_eq!(s.phase(), Phase::Stopped);
    assert!(matches!(s.on_transport_failure(), Action::Nothing));
}
