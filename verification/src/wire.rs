//! The wire form of a message: compact JSON text, one object per frame.
//!
//! The punctuation of objects and arrays is composed and proved here. The
//! text of a single string or integer is left to `serde_json`, so escaping
//! follows that crate to the letter.

use vstd::prelude::*;
use vstd::string::StringExecFns;
use crate::handlers::{MessagePayload, MessageView, PayloadView, WebSocketMessage};
use crate::text::texts;

verus! {

/// The JSON text that `serde_json` writes for a string, or `None` where it
/// reports an error.
pub uninterp spec fn json_string(text: Seq<char>) -> Option<Seq<char>>;

/// The JSON text that `serde_json` writes for a signed integer, or `None`
/// where it reports an error.
pub uninterp spec fn json_integer(value: i64) -> Option<Seq<char>>;

/// The characters of an optional string.
pub open spec fn text_of(s: Option<String>) -> Option<Seq<char>> {
    match s {
        Some(s) => Some(s@),
        None => None,
    }
}

/// Calls `serde_json::to_string` on a string slice. The contract claims only
/// that the outcome is a function of the characters handed in: the same text
/// is always written the same way.
#[verifier::external_body]
fn quote(text: &str) -> (quoted: Option<String>)
    ensures
        text_of(quoted) == json_string(text@),
{
    serde_json::to_string(text).ok()
}

/// Calls `serde_json::to_string` on an `i64`. The contract claims only that
/// the outcome is a function of the number handed in.
#[verifier::external_body]
fn number(value: i64) -> (written: Option<String>)
    ensures
        text_of(written) == json_integer(value),
{
    serde_json::to_string(&value).ok()
}

/// The parts, separated by single commas.
pub open spec fn comma_separated(parts: Seq<Seq<char>>) -> Seq<char>
    decreases parts.len(),
{
    if parts.len() == 0 {
        Seq::empty()
    } else if parts.len() == 1 {
        parts[0]
    } else {
        comma_separated(parts.drop_last()) + seq![','] + parts.last()
    }
}

/// A JSON array of items that are JSON text already.
pub open spec fn array_text(items: Seq<Seq<char>>) -> Seq<char> {
    seq!['['] + comma_separated(items) + seq![']']
}

/// One member of a JSON object: a key that is a JSON string already, a colon,
/// and a value that is JSON text already.
pub open spec fn member_text(key: Seq<char>, value: Seq<char>) -> Seq<char> {
    key + seq![':'] + value
}

/// A JSON object of members that are JSON text already.
pub open spec fn object_text(members: Seq<Seq<char>>) -> Seq<char> {
    seq!['{'] + comma_separated(members) + seq!['}']
}

/// Joins pieces of text with commas.
pub fn join(parts: &Vec<String>) -> (joined: String)
    ensures
        joined@ == comma_separated(texts(parts@)),
{
    let mut joined = String::new();
    let mut i: usize = 0;
    while i < parts.len()
        invariant
            i <= parts.len(),
            joined@ == comma_separated(texts(parts@).take(i as int)),
        decreases parts.len() - i,
    {
        proof {
            reveal_strlit(",");
            let all = texts(parts@);
            assert(all.take(i + 1).drop_last() =~= all.take(i as int));
            assert(all.take(i + 1).last() == parts@[i as int]@);
            assert(seq![','] =~= ","@);
        }
        if i > 0 {
            joined.append(",");
        }
        joined.append(parts[i].as_str());
        i += 1;
    }
    proof {
        assert(texts(parts@).take(parts.len() as int) =~= texts(parts@));
    }
    joined
}

/// Writes a JSON array around items that are JSON text already.
pub fn array(items: &Vec<String>) -> (written: String)
    ensures
        written@ == array_text(texts(items@)),
{
    proof {
        reveal_strlit("[");
        reveal_strlit("]");
        assert(seq!['['] =~= "["@);
        assert(seq![']'] =~= "]"@);
    }
    let mut written = String::new();
    written.append("[");
    let inner = join(items);
    written.append(inner.as_str());
    written.append("]");
    written
}

/// Writes a key, a colon and a value, both JSON text already.
pub fn member(key: &str, value: &str) -> (written: String)
    ensures
        written@ == member_text(key@, value@),
{
    proof {
        reveal_strlit(":");
        assert(seq![':'] =~= ":"@);
    }
    let mut written = String::new();
    written.append(key);
    written.append(":");
    written.append(value);
    written
}

/// Writes a JSON object around members that are JSON text already.
pub fn object(members: &Vec<String>) -> (written: String)
    ensures
        written@ == object_text(texts(members@)),
{
    proof {
        reveal_strlit("{");
        reveal_strlit("}");
        assert(seq!['{'] =~= "{"@);
        assert(seq!['}'] =~= "}"@);
    }
    let mut written = String::new();
    written.append("{");
    let inner = join(members);
    written.append(inner.as_str());
    written.append("}");
    written
}

/// A field of a record before it is written: its key as plain text, and the
/// JSON text of its value, or `None` where the value could not be written.
pub struct Field<'a> {
    pub key: &'a str,
    pub value: Option<String>,
}

/// A field as contracts see it.
pub struct FieldView {
    pub key: Seq<char>,
    pub value: Option<Seq<char>>,
}

impl<'a> View for Field<'a> {
    type V = FieldView;

    open spec fn view(&self) -> FieldView {
        FieldView { key: self.key@, value: text_of(self.value) }
    }
}

/// The views of a sequence of fields.
pub open spec fn field_views(fields: Seq<Field<'_>>) -> Seq<FieldView> {
    fields.map_values(|f: Field<'_>| f@)
}

/// The member that a field becomes: its key quoted as a JSON string, then its
/// value. `None` where either is missing.
pub open spec fn field_text(field: FieldView) -> Option<Seq<char>> {
    match (json_string(field.key), field.value) {
        (Some(key), Some(value)) => Some(member_text(key, value)),
        _ => None,
    }
}

/// The JSON object with the given fields in the given order, or `None` where
/// one of them could not be written.
pub open spec fn record_text(fields: Seq<FieldView>) -> Option<Seq<char>> {
    if forall|i: int| 0 <= i < fields.len() ==> field_text(#[trigger] fields[i]) is Some {
        Some(object_text(fields.map_values(|f: FieldView| field_text(f).unwrap())))
    } else {
        None
    }
}

/// The JSON array of the given strings, or `None` where one of them could not
/// be written.
pub open spec fn list_text(items: Seq<Seq<char>>) -> Option<Seq<char>> {
    if forall|i: int| 0 <= i < items.len() ==> json_string(#[trigger] items[i]) is Some {
        Some(array_text(items.map_values(|t: Seq<char>| json_string(t).unwrap())))
    } else {
        None
    }
}

/// The record `{"<kind>":{...}}` that stands for a payload.
pub open spec fn tagged_text(kind: Seq<char>, fields: Seq<FieldView>) -> Option<Seq<char>> {
    record_text(seq![FieldView { key: kind, value: record_text(fields) }])
}

/// The JSON text of a payload: an object with one member, named after the
/// kind in lower case, that holds the kind's fields.
pub open spec fn payload_text(payload: PayloadView) -> Option<Seq<char>> {
    match payload {
        PayloadView::Offer { sender, payload } => tagged_text(
            "offer"@,
            seq![
                FieldView { key: "sender"@, value: json_string(sender) },
                FieldView { key: "payload"@, value: json_string(payload) },
            ],
        ),
        PayloadView::Answer { sender, payload } => tagged_text(
            "answer"@,
            seq![
                FieldView { key: "sender"@, value: json_string(sender) },
                FieldView { key: "payload"@, value: json_string(payload) },
            ],
        ),
        PayloadView::Candidate { sender, payload } => tagged_text(
            "candidate"@,
            seq![
                FieldView { key: "sender"@, value: json_string(sender) },
                FieldView { key: "payload"@, value: json_string(payload) },
            ],
        ),
        PayloadView::Peers { names } => tagged_text(
            "peers"@,
            seq![FieldView { key: "names"@, value: list_text(names) }],
        ),
        PayloadView::Echo { message } => tagged_text(
            "echo"@,
            seq![FieldView { key: "message"@, value: json_string(message) }],
        ),
        PayloadView::File { sender, file_name, file_size } => tagged_text(
            "file"@,
            seq![
                FieldView { key: "sender"@, value: json_string(sender) },
                FieldView { key: "fileName"@, value: json_string(file_name) },
                FieldView { key: "fileSize"@, value: json_integer(file_size) },
            ],
        ),
    }
}

/// The frame that carries a message: the envelope with its recipient and its
/// payload, or the empty object where the message could not be written.
pub open spec fn frame_text(message: MessageView) -> Seq<char> {
    match record_text(
        seq![
            FieldView { key: "recipient"@, value: json_string(message.recipient) },
            FieldView { key: "payload"@, value: payload_text(message.payload) },
        ],
    ) {
        Some(text) => text,
        None => "{}"@,
    }
}

/// Writes the JSON object with the given fields, in order.
pub fn record(fields: Vec<Field<'_>>) -> (written: Option<String>)
    ensures
        text_of(written) == record_text(field_views(fields@)),
{
    let ghost views = field_views(fields@);
    let mut members: Vec<String> = Vec::new();
    let mut i: usize = 0;
    while i < fields.len()
        invariant
            i <= fields.len(),
            views == field_views(fields@),
            members@.len() == i,
            forall|j: int| 0 <= j < i ==> field_text(#[trigger] views[j]) == Some(members@[j]@),
        decreases fields.len() - i,
    {
        let field = &fields[i];
        assert(views[i as int] == field@);
        let key = quote(field.key);
        match (key, &field.value) {
            (Some(key), Some(value)) => {
                members.push(member(key.as_str(), value.as_str()));
            },
            _ => {
                assert(field_text(views[i as int]) is None);
                return None;
            },
        }
        i += 1;
    }
    proof {
        assert(texts(members@) =~= views.map_values(|f: FieldView| field_text(f).unwrap()));
    }
    Some(object(&members))
}

/// Writes the JSON array of the given strings.
pub fn list(items: &Vec<String>) -> (written: Option<String>)
    ensures
        text_of(written) == list_text(texts(items@)),
{
    let ghost plain = texts(items@);
    let mut quoted: Vec<String> = Vec::new();
    let mut i: usize = 0;
    while i < items.len()
        invariant
            i <= items.len(),
            plain == texts(items@),
            quoted@.len() == i,
            forall|j: int| 0 <= j < i ==> json_string(#[trigger] plain[j]) == Some(quoted@[j]@),
        decreases items.len() - i,
    {
        assert(plain[i as int] == items@[i as int]@);
        match quote(items[i].as_str()) {
            Some(q) => {
                quoted.push(q);
            },
            None => {
                assert(json_string(plain[i as int]) is None);
                return None;
            },
        }
        i += 1;
    }
    proof {
        assert(texts(quoted@) =~= plain.map_values(|t: Seq<char>| json_string(t).unwrap()));
    }
    Some(array(&quoted))
}

/// Writes the record `{"<kind>":{...}}` of a payload.
pub fn tagged(kind: &str, fields: Vec<Field<'_>>) -> (written: Option<String>)
    ensures
        text_of(written) == tagged_text(kind@, field_views(fields@)),
{
    let inner = record(fields);
    let outer = vec![Field { key: kind, value: inner }];
    proof {
        assert(field_views(outer@) =~= seq![
            FieldView { key: kind@, value: record_text(field_views(fields@)) },
        ]);
    }
    record(outer)
}

/// Writes a payload as JSON text.
pub fn payload(body: &MessagePayload) -> (written: Option<String>)
    ensures
        text_of(written) == payload_text(body@),
{
    match body {
        MessagePayload::Offer { sender, payload } => {
            let fields = vec![
                Field { key: "sender", value: quote(sender.as_str()) },
                Field { key: "payload", value: quote(payload.as_str()) },
            ];
            proof {
                assert(field_views(fields@) =~= seq![
                    FieldView { key: "sender"@, value: json_string(sender@) },
                    FieldView { key: "payload"@, value: json_string(payload@) },
                ]);
            }
            tagged("offer", fields)
        },
        MessagePayload::Answer { sender, payload } => {
            let fields = vec![
                Field { key: "sender", value: quote(sender.as_str()) },
                Field { key: "payload", value: quote(payload.as_str()) },
            ];
            proof {
                assert(field_views(fields@) =~= seq![
                    FieldView { key: "sender"@, value: json_string(sender@) },
                    FieldView { key: "payload"@, value: json_string(payload@) },
                ]);
            }
            tagged("answer", fields)
        },
        MessagePayload::Candidate { sender, payload } => {
            let fields = vec![
                Field { key: "sender", value: quote(sender.as_str()) },
                Field { key: "payload", value: quote(payload.as_str()) },
            ];
            proof {
                assert(field_views(fields@) =~= seq![
                    FieldView { key: "sender"@, value: json_string(sender@) },
                    FieldView { key: "payload"@, value: json_string(payload@) },
                ]);
            }
            tagged("candidate", fields)
        },
        MessagePayload::Peers { names } => {
            let fields = vec![Field { key: "names", value: list(names) }];
            proof {
                assert(field_views(fields@) =~= seq![
                    FieldView { key: "names"@, value: list_text(texts(names@)) },
                ]);
            }
            tagged("peers", fields)
        },
        MessagePayload::Echo { message } => {
            let fields = vec![Field { key: "message", value: quote(message.as_str()) }];
            proof {
                assert(field_views(fields@) =~= seq![
                    FieldView { key: "message"@, value: json_string(message@) },
                ]);
            }
            tagged("echo", fields)
        },
        MessagePayload::File { sender, file_name, file_size } => {
            let fields = vec![
                Field { key: "sender", value: quote(sender.as_str()) },
                Field { key: "fileName", value: quote(file_name.as_str()) },
                Field { key: "fileSize", value: number(*file_size) },
            ];
            proof {
                assert(field_views(fields@) =~= seq![
                    FieldView { key: "sender"@, value: json_string(sender@) },
                    FieldView { key: "fileName"@, value: json_string(file_name@) },
                    FieldView { key: "fileSize"@, value: json_integer(*file_size) },
                ]);
            }
            tagged("file", fields)
        },
    }
}

/// Writes the frame that carries a message. A message that cannot be written
/// goes out as the empty object.
pub fn frame(message: &WebSocketMessage) -> (written: String)
    ensures
        written@ == frame_text(message@),
{
    let fields = vec![
        Field { key: "recipient", value: quote(message.recipient.as_str()) },
        Field { key: "payload", value: payload(&message.payload) },
    ];
    proof {
        assert(field_views(fields@) =~= seq![
            FieldView { key: "recipient"@, value: json_string(message.recipient@) },
            FieldView { key: "payload"@, value: payload_text(message.payload@) },
        ]);
    }
    match record(fields) {
        Some(text) => text,
        None => "{}".to_owned(),
    }
}

} // verus!
