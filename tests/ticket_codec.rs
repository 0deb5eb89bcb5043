use gossip_chat::ticket::{Ticket, TicketError};

fn topic_bytes() -> Vec<u8> {
    (0u8..32).collect()
}

#[test]
fn round_trip_with_peers() {
    let t = Ticket { topic: topic_bytes(), bootstrap: vec![vec![1, 2, 3], vec![], vec![0xff; 300]] };
    let text = t.encode();
    let back = Ticket::decode(&text).unwrap();
    assert_eq!(back.topic, t.topic);
    assert_eq!(back.bootstrap, t.bootstrap);
}

#[test]
fn round_trip_without_peers() {
    let t = Ticket { topic: vec![9; 32], bootstrap: vec![] };
    let back = Ticket::decode(&t.encode()).unwrap();
    assert_eq!(back.topic, vec![9; 32]);
    assert!(back.bootstrap.is_empty());
}

#[test]
fn encoding_is_exact() {
    let t = Ticket { topic: topic_bytes(), bootstrap: vec![vec![0xab]] };
    let expected = String::from("v1000102030405060708090a0b0c0d0e0f101112131415161718191a1b1c1d1e1f0001ab");
    assert_eq!(t.encode(), expected);
}

#[test]
fn encoding_is_printable_without_whitespace() {
    let t = Ticket { topic: vec![0xfe; 32], bootstrap: vec![vec![10, 32, 13], vec![0; 5]] };
    let text = t.encode();
    assert!(text.chars().all(|c| c.is_ascii_graphic()));
}

#[test]
fn decode_rejects_arbitrary_text() {
    assert_eq!(Ticket::decode("not-a-real-ticket").unwrap_err(), TicketError::Malformed);
    assert_eq!(Ticket::decode("").unwrap_err(), TicketError::Malformed);
    assert_eq!(Ticket::decode("v").unwrap_err(), TicketError::Malformed);
    assert_eq!(Ticket::decode("vx00").unwrap_err(), TicketError::Malformed);
}

#[test]
fn decode_reports_unknown_version() {
    let text = Ticket { topic: vec![1; 32], bootstrap: vec![] }.encode();
    let other = format!("v2{}", &text[2..]);
    assert_eq!(Ticket::decode(&other).unwrap_err(), TicketError::UnsupportedVersion);
    assert_eq!(Ticket::decode("v9").unwrap_err(), TicketError::UnsupportedVersion);
}

#[test]
fn decode_rejects_bad_layout() {
    let text = Ticket { topic: vec![1; 32], bootstrap: vec![vec![7, 7]] }.encode();
    // odd number of digits
    assert_eq!(Ticket::decode(&text[..text.len() - 1]).unwrap_err(), TicketError::Malformed);
    // peer frame longer than what follows
    assert_eq!(Ticket::decode(&text[..text.len() - 2]).unwrap_err(), TicketError::Malformed);
    // topic too short
    assert_eq!(Ticket::decode("v10102").unwrap_err(), TicketError::Malformed);
    // upper-case digits are not part of the alphabet
    let lettered = Ticket { topic: vec![0xab; 32], bootstrap: vec![] }.encode();
    assert!(Ticket::decode(&lettered).is_ok());
    let upper = lettered.to_uppercase().replacen('V', "v", 1);
    assert_eq!(Ticket::decode(&upper).unwrap_err(), TicketError::Malformed);
}
