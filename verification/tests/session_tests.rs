use chat_server::header::MessageHeader;
use chat_server::roster::SharedClients;
use chat_server::session::{
    build_server_frame, classify_frame, duplicate_username_reply, empty_message_reply,
    join_broadcast, leave_broadcast, process_login, session_step, who_reply_frame, LoginOutcome,
    MessageTypes, Reaction, SessionStep,
};
use chat_server::codec::FrameError;

fn login_header(name: &str) -> MessageHeader {
    let mut h = MessageHeader::new();
    h.set_message_type(0);
    h.set_version_num(3);
    h.set_source_username(name).unwrap();
    h.calculate_header_checksum();
    h
}

fn message_header(source: &str, dest: &str, packet: u16, body: &Vec<u8>) -> MessageHeader {
    let mut h = MessageHeader::new();
    h.set_message_type(4);
    h.set_version_num(3);
    h.set_packet_num(packet);
    h.set_source_username(source).unwrap();
    h.set_dest_username(dest).unwrap();
    h.set_data_packet_length(body.len() as u16);
    h.calculate_data_checksum(body);
    h.calculate_header_checksum();
    h
}

// Two clients claim the same name: the first is admitted with a LOGIN
// reply, the second gets the exact error body, and the roster holds one.
#[test]
fn test_duplicate_login() {
    let mut roster = SharedClients::new();
    let first = process_login(&mut roster, &login_header("alice"), 1);
    match first {
        LoginOutcome::Admitted { username, reply } => {
            assert_eq!(username, "alice");
            assert_eq!(reply.get_message_type(), 0);
            assert_eq!(reply.get_version_num(), 3);
            assert_eq!(reply.get_source_username().unwrap(), "server");
            assert_eq!(reply.get_dest_username().unwrap(), "alice");
            assert_eq!(reply.get_data_packet_length(), 0);
            assert!(reply.verify_header_checksum());
        },
        _ => panic!("first login should be admitted"),
    }
    let second = process_login(&mut roster, &login_header("alice"), 2);
    match second {
        LoginOutcome::Rejected { username, reply, reply_body } => {
            assert_eq!(username, "alice");
            assert_eq!(reply.get_message_type(), 1);
            assert_eq!(reply_body, b"Error. Username already in the system.".to_vec());
            assert_eq!(
                reply.get_data_packet_length() as usize,
                "Error. Username already in the system.".len()
            );
            assert!(reply.verify_data_checksum(&reply_body));
            assert!(reply.verify_header_checksum());
        },
        _ => panic!("second login should be rejected"),
    }
    assert_eq!(roster.entries.len(), 1);
    assert_eq!(roster.lookup_user("alice"), Some(1));
}

// A first frame that is not LOGIN is closed without a reply.
#[test]
fn test_login_wrong_type() {
    let mut roster = SharedClients::new();
    let mut h = login_header("alice");
    h.set_message_type(4);
    h.calculate_header_checksum();
    assert!(matches!(process_login(&mut roster, &h, 1), LoginOutcome::NotLogin));
    assert_eq!(roster.entries.len(), 0);
}

// An empty or unreadable claimed name is refused.
#[test]
fn test_login_bad_username() {
    let mut roster = SharedClients::new();
    let h = login_header("");
    assert!(matches!(process_login(&mut roster, &h, 1), LoginOutcome::BadUsername));
    let mut bad = login_header("x");
    bad.0[3] = 0xff;
    bad.0[4] = 0xfe;
    assert!(matches!(process_login(&mut roster, &bad, 1), LoginOutcome::BadUsername));
    assert_eq!(roster.entries.len(), 0);
}

// Broadcast fan-out reaches everyone but the sender.
#[test]
fn test_broadcast_excludes_sender() {
    let mut roster = SharedClients::new();
    roster.add_user("a", 1).unwrap();
    roster.add_user("b", 2).unwrap();
    roster.add_user("c", 3).unwrap();
    assert_eq!(roster.recipients_excluding("a"), vec![2, 3]);
    assert_eq!(roster.recipients_excluding("b"), vec![1, 3]);
    assert_eq!(roster.recipients_excluding("nobody"), vec![1, 2, 3]);
}

// The roster listing names everyone, each name followed by ", ".
#[test]
fn test_logged_in_users_listing() {
    let mut roster = SharedClients::new();
    roster.add_user("a", 1).unwrap();
    roster.add_user("b", 2).unwrap();
    roster.add_user("c", 3).unwrap();
    assert_eq!(roster.get_logged_in_users(), "a, b, c, ");
}

// Removing a user frees the name; removing again yields nothing.
#[test]
fn test_remove_user() {
    let mut roster = SharedClients::new();
    roster.add_user("a", 1).unwrap();
    roster.add_user("b", 2).unwrap();
    assert_eq!(roster.remove_user("a"), Some(1));
    assert_eq!(roster.remove_user("a"), None);
    assert_eq!(roster.lookup_user("a"), None);
    assert_eq!(roster.entries.len(), 1);
    assert!(roster.add_user("a", 4).is_ok());
}

// A sound chat message is confirmed before it is forwarded.
#[test]
fn test_classify_sound_message() {
    let body: Vec<u8> = b"hi".to_vec();
    let h = message_header("a", "all", 9, &body);
    match classify_frame(&h, Some(&body)) {
        Reaction::AckThenForward { packet_num, dest } => {
            assert_eq!(packet_num, 9);
            assert_eq!(dest, "all");
        },
        _ => panic!("a sound message is confirmed and forwarded"),
    }
}

// A unicast message names its destination for the forward.
#[test]
fn test_classify_unicast() {
    let body: Vec<u8> = b"hello".to_vec();
    let h = message_header("alice", "bob", 7, &body);
    match classify_frame(&h, Some(&body)) {
        Reaction::AckThenForward { packet_num, dest } => {
            assert_eq!(packet_num, 7);
            assert_eq!(dest, "bob");
        },
        _ => panic!("a sound unicast is confirmed and forwarded"),
    }
}

// A corrupted body digest draws a NACK echoing the packet number, and
// nothing is forwarded.
#[test]
fn test_classify_bad_body_checksum() {
    let body: Vec<u8> = b"X".to_vec();
    let other: Vec<u8> = b"Y".to_vec();
    let h = message_header("a", "all", 9, &other);
    match classify_frame(&h, Some(&body)) {
        Reaction::NackMessage { packet_num } => assert_eq!(packet_num, 9),
        _ => panic!("a corrupted body draws a NACK"),
    }
}

// A bodyless chat message draws an error reply.
#[test]
fn test_classify_empty_message() {
    let mut h = MessageHeader::new();
    h.set_message_type(4);
    h.calculate_header_checksum();
    assert!(matches!(classify_frame(&h, None), Reaction::RejectEmptyMessage));
}

// LOGIN on an active session, WHO, DISCONNECT and the ignored types.
#[test]
fn test_classify_other_types() {
    let mut h = MessageHeader::new();
    h.set_message_type(0);
    assert!(matches!(classify_frame(&h, None), Reaction::RejectLogin));
    h.set_message_type(2);
    assert!(matches!(classify_frame(&h, None), Reaction::WhoReply));
    h.set_message_type(5);
    assert!(matches!(classify_frame(&h, None), Reaction::DisconnectNotice));
    for t in [1u8, 3, 6, 7, 200] {
        h.set_message_type(t);
        assert!(matches!(classify_frame(&h, None), Reaction::Ignore));
    }
}

// A read error ends the session silently; DISCONNECT announces the leave.
#[test]
fn test_session_step_termination() {
    match session_step(Err(FrameError::UnexpectedEof)) {
        SessionStep::Terminate { announce_leave } => assert!(!announce_leave),
        _ => panic!("a failed read terminates"),
    }
    match session_step(Err(FrameError::BadHeaderChecksum)) {
        SessionStep::Terminate { announce_leave } => assert!(!announce_leave),
        _ => panic!("a desynchronized stream terminates"),
    }
    let mut h = MessageHeader::new();
    h.set_message_type(5);
    match session_step(Ok((h, None))) {
        SessionStep::Terminate { announce_leave } => assert!(announce_leave),
        _ => panic!("a disconnect terminates with an announcement"),
    }
    let mut w = MessageHeader::new();
    w.set_message_type(2);
    assert!(matches!(session_step(Ok((w, None))), SessionStep::Continue(Reaction::WhoReply)));
}

// The join and leave announcements carry the exact room texts.
#[test]
fn test_join_and_leave_broadcasts() {
    let (h, body) = join_broadcast("alice");
    assert_eq!(body, b"User: alice entered the room.".to_vec());
    assert_eq!(h.get_message_type(), 4);
    assert_eq!(h.get_source_username().unwrap(), "server");
    assert_eq!(h.get_dest_username().unwrap(), "all");
    assert_eq!(h.get_data_packet_length() as usize, body.len());
    assert!(h.verify_data_checksum(&body));
    assert!(h.verify_header_checksum());
    let (h2, body2) = leave_broadcast("a");
    assert_eq!(body2, b"User: a disconnected from the room.".to_vec());
    assert!(h2.verify_data_checksum(&body2));
    assert!(h2.verify_header_checksum());
}

// The WHO reply wraps the roster listing with a digest and checksum.
#[test]
fn test_who_reply() {
    let mut roster = SharedClients::new();
    roster.add_user("a", 1).unwrap();
    roster.add_user("b", 2).unwrap();
    roster.add_user("c", 3).unwrap();
    let listing = roster.get_logged_in_users();
    let (h, body) = who_reply_frame("a", listing.as_str()).unwrap();
    assert_eq!(body, b"a, b, c, ".to_vec());
    assert_eq!(h.get_message_type(), 2);
    assert_eq!(h.get_dest_username().unwrap(), "a");
    assert_eq!(h.get_data_packet_length() as usize, body.len());
    assert!(h.verify_data_checksum(&body));
    assert!(h.verify_header_checksum());
    let mut names: Vec<&str> = body_names(&listing);
    names.sort();
    assert_eq!(names, vec!["a", "b", "c"]);
}

fn body_names(listing: &str) -> Vec<&str> {
    listing.split(", ").filter(|s| !s.is_empty()).collect()
}

// A listing too long for the 16-bit length field yields no WHO reply.
#[test]
fn test_who_reply_oversize_listing() {
    let listing = "x".repeat(70000);
    assert!(who_reply_frame("a", listing.as_str()).is_none());
    let fits = "x".repeat(100);
    assert!(who_reply_frame("a", fits.as_str()).is_some());
}

// ACK and NACK frames echo the client's packet number.
#[test]
fn test_verification_frames() {
    let ack = build_server_frame(MessageTypes::Ack, 7, "alice", None);
    assert_eq!(ack.get_message_type(), 3);
    assert_eq!(ack.get_packet_num(), 7);
    assert_eq!(ack.get_dest_username().unwrap(), "alice");
    assert_eq!(ack.get_data_packet_length(), 0);
    assert!(ack.verify_header_checksum());
    let nack = build_server_frame(MessageTypes::Nack, 9, "alice", None);
    assert_eq!(nack.get_message_type(), 6);
    assert_eq!(nack.get_packet_num(), 9);
    assert!(nack.verify_header_checksum());
}

// The error replies carry their exact texts.
#[test]
fn test_error_reply_texts() {
    let (_, dup) = duplicate_username_reply("alice");
    assert_eq!(dup, b"Error. Username already in the system.".to_vec());
    let (_, empty) = empty_message_reply("alice");
    assert_eq!(
        empty,
        b"The message you sent contains no content. It will not be forwarded.".to_vec()
    );
}

// Wire codes map to message types and back; unknown codes to nothing.
#[test]
fn test_message_type_codes() {
    assert!(matches!(MessageTypes::from_u8(0), Some(MessageTypes::Login)));
    assert!(matches!(MessageTypes::from_u8(4), Some(MessageTypes::Message)));
    assert!(matches!(MessageTypes::from_u8(6), Some(MessageTypes::Nack)));
    assert!(MessageTypes::from_u8(7).is_none());
    for t in [
        MessageTypes::Login,
        MessageTypes::Error,
        MessageTypes::Who,
        MessageTypes::Ack,
        MessageTypes::Message,
        MessageTypes::Disconnect,
        MessageTypes::Nack,
    ] {
        assert!(matches!(MessageTypes::from_u8(t.as_u8()), Some(u) if u == t));
    }
}
