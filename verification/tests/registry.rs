use meet::service::{P2pRoom, P2pRoomService, Participant};
use meet::{MessagePayload, WebSocketMessage};

fn offer(recipient: &str, sender: &str, payload: &str) -> WebSocketMessage {
    WebSocketMessage {
        recipient: recipient.to_string(),
        payload: MessagePayload::Offer { sender: sender.to_string(), payload: payload.to_string() },
    }
}

fn sorted(mut names: Vec<String>) -> Vec<String> {
    names.sort();
    names
}

#[test]
fn joiners_are_told_who_else_is_there() {
    let mut service: P2pRoomService<u32> = P2pRoomService::new();
    {
        let first = service.join_room("room1", Participant::new("alice".to_string(), 1));
        assert_eq!(*first.sender, 1);
        assert_eq!(first.frame, r#"{"recipient":"alice","payload":{"peers":{"names":[]}}}"#);
    }
    {
        let second = service.join_room("room1", Participant::new("bob".to_string(), 2));
        assert_eq!(*second.sender, 2);
        assert_eq!(second.frame, r#"{"recipient":"bob","payload":{"peers":{"names":["alice"]}}}"#);
    }
    let later = service.send_room_peers("room1", "alice").expect("alice is in the room");
    assert_eq!(*later.sender, 1);
    assert_eq!(later.frame, r#"{"recipient":"alice","payload":{"peers":{"names":["bob"]}}}"#);
}

#[test]
fn relay_hands_the_envelope_over_unchanged() {
    let mut service: P2pRoomService<u32> = P2pRoomService::new();
    let _ = service.join_room("room1", Participant::new("alice".to_string(), 1));
    let _ = service.join_room("room1", Participant::new("bob".to_string(), 2));
    let delivery = service
        .relay_message("room1", offer("bob", "alice", "SDP..."))
        .expect("bob is in the room");
    assert_eq!(*delivery.sender, 2);
    assert_eq!(
        delivery.frame,
        r#"{"recipient":"bob","payload":{"offer":{"sender":"alice","payload":"SDP..."}}}"#
    );
}

#[test]
fn relay_reaches_the_connection_that_joined() {
    let mut service: P2pRoomService<u32> = P2pRoomService::new();
    let _ = service.join_room("lobby", Participant::new("carol".to_string(), 7));
    let delivery = service.relay_message("lobby", offer("carol", "dave", "x"));
    let delivery = delivery.expect("exactly one frame is owed");
    assert_eq!(*delivery.sender, 7);
    assert_eq!(
        delivery.frame,
        r#"{"recipient":"carol","payload":{"offer":{"sender":"dave","payload":"x"}}}"#
    );
}

#[test]
fn others_are_everyone_but_oneself() {
    let mut room: P2pRoom<u32> = P2pRoom::new();
    room.add_participant(Participant::new("a".to_string(), 1));
    room.add_participant(Participant::new("b".to_string(), 2));
    room.add_participant(Participant::new("c".to_string(), 3));
    let others = room.find_other_participant_names("a");
    assert!(!others.contains(&"a".to_string()));
    assert_eq!(sorted(others), vec!["b".to_string(), "c".to_string()]);
    assert_eq!(room.find_other_participant_names("b"), vec!["a".to_string(), "c".to_string()]);
    assert_eq!(
        room.find_other_participant_names("nobody"),
        vec!["a".to_string(), "b".to_string(), "c".to_string()]
    );
}

#[test]
fn all_names_come_in_joining_order() {
    let mut room: P2pRoom<u32> = P2pRoom::new();
    assert_eq!(room.find_all_participant_names(), Vec::<String>::new());
    room.add_participant(Participant::new("zoe".to_string(), 1));
    room.add_participant(Participant::new("adam".to_string(), 2));
    assert_eq!(room.find_all_participant_names(), vec!["zoe".to_string(), "adam".to_string()]);
}

#[test]
fn nothing_is_relayed_to_someone_who_left() {
    let mut service: P2pRoomService<u32> = P2pRoomService::new();
    let _ = service.join_room("room1", Participant::new("alice".to_string(), 1));
    let _ = service.join_room("room1", Participant::new("bob".to_string(), 2));
    service.leave_room("room1", "bob");
    assert!(service.relay_message("room1", offer("bob", "alice", "x")).is_none());
    let still = service.relay_message("room1", offer("alice", "bob", "x"));
    assert_eq!(*still.expect("alice stayed").sender, 1);
}

#[test]
fn relay_to_an_unknown_room_does_nothing() {
    let mut service: P2pRoomService<u32> = P2pRoomService::new();
    assert!(service.relay_message("nowhere", offer("bob", "alice", "x")).is_none());
    let _ = service.join_room("room1", Participant::new("bob".to_string(), 2));
    assert!(service.relay_message("nowhere", offer("bob", "alice", "x")).is_none());
    assert!(service.send_room_peers("nowhere", "bob").is_none());
    let known = service.relay_message("room1", offer("bob", "alice", "x"));
    assert_eq!(*known.expect("bob is in room1").sender, 2);
}

#[test]
fn relay_to_an_unknown_name_does_nothing() {
    let mut service: P2pRoomService<u32> = P2pRoomService::new();
    let _ = service.join_room("room1", Participant::new("bob".to_string(), 2));
    assert!(service.relay_message("room1", offer("carol", "bob", "x")).is_none());
    assert!(service.send_room_peers("room1", "carol").is_none());
}

#[test]
fn many_joins_to_a_new_room_lose_nobody() {
    let names = ["n0", "n1", "n2", "n3", "n4", "n5", "n6", "n7", "n8", "n9"];
    let orders: [[usize; 10]; 3] = [
        [0, 1, 2, 3, 4, 5, 6, 7, 8, 9],
        [9, 8, 7, 6, 5, 4, 3, 2, 1, 0],
        [3, 7, 0, 9, 1, 5, 8, 2, 6, 4],
    ];
    for order in orders {
        let mut service: P2pRoomService<usize> = P2pRoomService::new();
        for &i in order.iter() {
            let _ = service.join_room("fresh", Participant::new(names[i].to_string(), i));
        }
        let roster = service.send_room_peers("fresh", "n0").expect("n0 joined");
        let value: serde_json::Value = serde_json::from_str(&roster.frame).expect("JSON");
        let listed = value["payload"]["peers"]["names"].as_array().expect("a list of names");
        let listed: Vec<String> =
            listed.iter().map(|name| name.as_str().expect("a name").to_string()).collect();
        let expected: Vec<String> = names[1..].iter().map(|name| name.to_string()).collect();
        assert_eq!(sorted(listed), expected);
        for (i, name) in names.iter().enumerate() {
            let delivery = service.relay_message("fresh", offer(name, "x", "y"));
            assert_eq!(*delivery.expect("everyone is in").sender, i);
        }
    }
}

#[test]
fn a_taken_name_keeps_its_first_holder() {
    let mut service: P2pRoomService<u32> = P2pRoomService::new();
    let _ = service.join_room("room1", Participant::new("alice".to_string(), 1));
    let _ = service.join_room("room1", Participant::new("bob".to_string(), 2));
    {
        let again = service.join_room("room1", Participant::new("alice".to_string(), 99));
        assert_eq!(*again.sender, 1);
        assert_eq!(again.frame, r#"{"recipient":"alice","payload":{"peers":{"names":["bob"]}}}"#);
    }
    let delivery = service.relay_message("room1", offer("alice", "bob", "x"));
    assert_eq!(*delivery.expect("alice is in").sender, 1);
    let roster = service.send_room_peers("room1", "bob").expect("bob is in");
    assert_eq!(roster.frame, r#"{"recipient":"bob","payload":{"peers":{"names":["alice"]}}}"#);
}

#[test]
fn a_taken_name_in_a_room_is_a_no_op() {
    let mut room: P2pRoom<u32> = P2pRoom::new();
    room.add_participant(Participant::new("a".to_string(), 1));
    room.add_participant(Participant::new("a".to_string(), 2));
    assert_eq!(room.find_all_participant_names(), vec!["a".to_string()]);
    let delivery = room.message_participant(offer("a", "b", "x"));
    assert_eq!(*delivery.expect("a is in").sender, 1);
}

#[test]
fn removal_is_idempotent() {
    let mut room: P2pRoom<u32> = P2pRoom::new();
    room.add_participant(Participant::new("a".to_string(), 1));
    room.add_participant(Participant::new("b".to_string(), 2));
    room.add_participant(Participant::new("c".to_string(), 3));
    room.remove_participant("b");
    assert_eq!(room.find_all_participant_names(), vec!["a".to_string(), "c".to_string()]);
    room.remove_participant("b");
    assert_eq!(room.find_all_participant_names(), vec!["a".to_string(), "c".to_string()]);
    room.remove_participant("nobody");
    assert_eq!(room.find_all_participant_names(), vec!["a".to_string(), "c".to_string()]);
    assert!(room.message_participant(offer("b", "a", "x")).is_none());
    assert_eq!(*room.message_participant(offer("c", "a", "x")).expect("c is in").sender, 3);
}

#[test]
fn leaving_an_unknown_room_or_name_changes_nothing() {
    let mut service: P2pRoomService<u32> = P2pRoomService::new();
    service.leave_room("nowhere", "alice");
    let _ = service.join_room("room1", Participant::new("alice".to_string(), 1));
    service.leave_room("nowhere", "alice");
    service.leave_room("room1", "nobody");
    let delivery = service.relay_message("room1", offer("alice", "bob", "x"));
    assert_eq!(*delivery.expect("alice is in").sender, 1);
}

#[test]
fn a_room_outlives_its_last_occupant() {
    let mut service: P2pRoomService<u32> = P2pRoomService::new();
    let _ = service.join_room("room1", Participant::new("alice".to_string(), 1));
    service.leave_room("room1", "alice");
    assert!(service.send_room_peers("room1", "alice").is_none());
    let back = service.join_room("room1", Participant::new("alice".to_string(), 5));
    assert_eq!(*back.sender, 5);
    assert_eq!(back.frame, r#"{"recipient":"alice","payload":{"peers":{"names":[]}}}"#);
}

#[test]
fn rooms_are_apart() {
    let mut service: P2pRoomService<u32> = P2pRoomService::new();
    let _ = service.join_room("red", Participant::new("alice".to_string(), 1));
    let _ = service.join_room("blue", Participant::new("alice".to_string(), 2));
    let _ = service.join_room("blue", Participant::new("bob".to_string(), 3));
    assert_eq!(*service.relay_message("red", offer("alice", "x", "y")).expect("in red").sender, 1);
    assert_eq!(*service.relay_message("blue", offer("alice", "x", "y")).expect("in blue").sender, 2);
    assert!(service.relay_message("red", offer("bob", "x", "y")).is_none());
    service.leave_room("blue", "alice");
    assert_eq!(*service.relay_message("red", offer("alice", "x", "y")).expect("in red").sender, 1);
    assert!(service.relay_message("blue", offer("alice", "x", "y")).is_none());
}

#[test]
fn a_participant_frames_for_its_own_endpoint() {
    let participant = Participant::new("erin".to_string(), 42u32);
    assert_eq!(participant.name, "erin");
    let delivery = participant.send_message(WebSocketMessage {
        recipient: "erin".to_string(),
        payload: MessagePayload::Echo { message: "hi".to_string() },
    });
    assert_eq!(*delivery.sender, 42);
    assert_eq!(delivery.frame, r#"{"recipient":"erin","payload":{"echo":{"message":"hi"}}}"#);
}
