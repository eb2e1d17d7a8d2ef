use meet::wire::{array, frame, join, list, member, object, payload, record, tagged, Field};
use meet::{MessagePayload, WebSocketMessage};

fn strings(items: &[&str]) -> Vec<String> {
    items.iter().map(|s| s.to_string()).collect()
}

fn message(recipient: &str, payload: MessagePayload) -> WebSocketMessage {
    WebSocketMessage { recipient: recipient.to_string(), payload }
}

#[test]
fn parts_are_joined_by_single_commas() {
    assert_eq!(join(&strings(&[])), "");
    assert_eq!(join(&strings(&["1"])), "1");
    assert_eq!(join(&strings(&["1", "2", "3"])), "1,2,3");
    assert_eq!(join(&strings(&["", ""])), ",");
}

#[test]
fn arrays_and_objects_are_compact() {
    assert_eq!(array(&strings(&[])), "[]");
    assert_eq!(array(&strings(&["\"a\"", "\"b\""])), r#"["a","b"]"#);
    assert_eq!(object(&strings(&[])), "{}");
    assert_eq!(member("\"k\"", "1"), r#""k":1"#);
    assert_eq!(object(&vec![member("\"k\"", "1"), member("\"l\"", "[]")]), r#"{"k":1,"l":[]}"#);
}

#[test]
fn a_record_quotes_its_keys() {
    let fields = vec![
        Field { key: "a", value: Some("1".to_string()) },
        Field { key: "b\"c", value: Some("true".to_string()) },
    ];
    assert_eq!(record(fields), Some(r#"{"a":1,"b\"c":true}"#.to_string()));
    assert_eq!(record(Vec::new()), Some("{}".to_string()));
}

#[test]
fn a_record_with_a_missing_value_is_missing() {
    let fields = vec![
        Field { key: "a", value: Some("1".to_string()) },
        Field { key: "b", value: None },
    ];
    assert_eq!(record(fields), None);
    assert_eq!(tagged("kind", vec![Field { key: "b", value: None }]), None);
}

#[test]
fn a_list_quotes_each_item() {
    assert_eq!(list(&strings(&[])), Some("[]".to_string()));
    assert_eq!(list(&strings(&["a", "b c", "d\"e"])), Some(r#"["a","b c","d\"e"]"#.to_string()));
}

#[test]
fn a_payload_is_tagged_with_its_kind() {
    assert_eq!(
        tagged("kind", vec![Field { key: "x", value: Some("0".to_string()) }]),
        Some(r#"{"kind":{"x":0}}"#.to_string())
    );
    assert_eq!(
        payload(&MessagePayload::Answer { sender: "bob".to_string(), payload: "sdp".to_string() }),
        Some(r#"{"answer":{"sender":"bob","payload":"sdp"}}"#.to_string())
    );
}

#[test]
fn every_kind_has_its_frame() {
    assert_eq!(
        frame(&message(
            "bob",
            MessagePayload::Offer { sender: "alice".to_string(), payload: "SDP...".to_string() }
        )),
        r#"{"recipient":"bob","payload":{"offer":{"sender":"alice","payload":"SDP..."}}}"#
    );
    assert_eq!(
        frame(&message(
            "alice",
            MessagePayload::Answer { sender: "bob".to_string(), payload: "v=0".to_string() }
        )),
        r#"{"recipient":"alice","payload":{"answer":{"sender":"bob","payload":"v=0"}}}"#
    );
    assert_eq!(
        frame(&message(
            "alice",
            MessagePayload::Candidate { sender: "bob".to_string(), payload: "c".to_string() }
        )),
        r#"{"recipient":"alice","payload":{"candidate":{"sender":"bob","payload":"c"}}}"#
    );
    assert_eq!(
        frame(&message("carol", MessagePayload::Peers { names: strings(&["alice", "bob"]) })),
        r#"{"recipient":"carol","payload":{"peers":{"names":["alice","bob"]}}}"#
    );
    assert_eq!(
        frame(&message("carol", MessagePayload::Peers { names: Vec::new() })),
        r#"{"recipient":"carol","payload":{"peers":{"names":[]}}}"#
    );
    assert_eq!(
        frame(&message("carol", MessagePayload::Echo { message: "ping".to_string() })),
        r#"{"recipient":"carol","payload":{"echo":{"message":"ping"}}}"#
    );
    assert_eq!(
        frame(&message(
            "carol",
            MessagePayload::File {
                sender: "dave".to_string(),
                file_name: "a.txt".to_string(),
                file_size: 1024,
            }
        )),
        r#"{"recipient":"carol","payload":{"file":{"sender":"dave","fileName":"a.txt","fileSize":1024}}}"#
    );
}

#[test]
fn strings_are_escaped() {
    let text = frame(&message(
        "a\"b",
        MessagePayload::Echo { message: "line\nbreak\\ and \u{1} and \u{e9}".to_string() },
    ));
    assert_eq!(
        text,
        "{\"recipient\":\"a\\\"b\",\"payload\":{\"echo\":{\"message\":\"line\\nbreak\\\\ and \\u0001 and \u{e9}\"}}}"
    );
}

#[test]
fn integers_are_written_in_decimal() {
    let size_of = |file_size: i64| {
        frame(&message(
            "c",
            MessagePayload::File { sender: "d".to_string(), file_name: "f".to_string(), file_size },
        ))
    };
    assert_eq!(
        size_of(0),
        r#"{"recipient":"c","payload":{"file":{"sender":"d","fileName":"f","fileSize":0}}}"#
    );
    assert_eq!(
        size_of(-42),
        r#"{"recipient":"c","payload":{"file":{"sender":"d","fileName":"f","fileSize":-42}}}"#
    );
    assert_eq!(
        size_of(i64::MAX),
        r#"{"recipient":"c","payload":{"file":{"sender":"d","fileName":"f","fileSize":9223372036854775807}}}"#
    );
    assert_eq!(
        size_of(i64::MIN),
        r#"{"recipient":"c","payload":{"file":{"sender":"d","fileName":"f","fileSize":-9223372036854775808}}}"#
    );
}

#[test]
fn a_frame_reads_back_as_json() {
    let text = frame(&message(
        "bob \"the\" builder",
        MessagePayload::File {
            sender: "al\\ice".to_string(),
            file_name: "tab\there.bin".to_string(),
            file_size: -7,
        },
    ));
    let value: serde_json::Value = serde_json::from_str(&text).expect("a frame is JSON");
    assert_eq!(value["recipient"].as_str(), Some("bob \"the\" builder"));
    let file = &value["payload"]["file"];
    assert_eq!(file["sender"].as_str(), Some("al\\ice"));
    assert_eq!(file["fileName"].as_str(), Some("tab\there.bin"));
    assert_eq!(file["fileSize"].as_i64(), Some(-7));
    assert_eq!(value.as_object().map(|o| o.len()), Some(2));
    assert_eq!(value["payload"].as_object().map(|o| o.len()), Some(1));
}
