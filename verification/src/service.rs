//! Rooms, their participants, and the registry that routes to them.
//!
//! Nothing here writes to a connection. An operation that owes a client a
//! frame returns a [`Delivery`]: the endpoint to write to and the text to
//! write. The endpoint type `S` is the caller's; the registry owns each
//! endpoint from the join to the departure of its participant and never
//! looks inside.

use vstd::prelude::*;
use crate::handlers::{MessagePayload, MessageView, PayloadView, WebSocketMessage};
use crate::roster::{
    after_join, after_leave, all_distinct, distinct, has_name, joined, left,
    lemma_joined_distinct, lemma_joined_has_name, lemma_joined_holder, lemma_joined_keeps_others,
    lemma_left_absent, lemma_left_at, lemma_left_distinct, lemma_left_is_gone,
    lemma_left_keeps_others, lemma_others_are_the_rest, lemma_sender_at, names_of, not_named,
    others, recipient_of, room_at, sender_of, Seat,
};
use crate::text::{same_text, texts};
use crate::wire::{frame, frame_text};

verus! {

/// One connected client: a name, unique within its room, and the outbound
/// endpoint of its connection.
#[derive(Debug)]
pub struct Participant<S> {
    pub name: String,
    sender: S,
}

/// One frame owed to one client.
pub struct Delivery<'a, S> {
    /// Where to write.
    pub sender: &'a S,
    /// What to write: one whole text frame.
    pub frame: String,
}

/// A delivery as contracts see it.
pub struct DeliveryView<S> {
    pub sender: S,
    pub frame: Seq<char>,
}

impl<'a, S> View for Delivery<'a, S> {
    type V = DeliveryView<S>;

    open spec fn view(&self) -> DeliveryView<S> {
        DeliveryView { sender: *self.sender, frame: self.frame@ }
    }
}

/// What an optional delivery looks like to contracts.
pub open spec fn sent<S>(delivery: Option<Delivery<'_, S>>) -> Option<DeliveryView<S>> {
    match delivery {
        Some(d) => Some(d@),
        None => None,
    }
}

/// What sending `message` within a room comes to: one frame for the endpoint
/// registered under the recipient's name, or nothing where nobody carries
/// that name.
pub open spec fn delivered<S>(seats: Seq<Seat<S>>, message: MessageView) -> Option<
    DeliveryView<S>,
> {
    match sender_of(seats, message.recipient) {
        Some(sender) => Some(DeliveryView { sender, frame: frame_text(message) }),
        None => None,
    }
}

/// What relaying `message` into the room called `code` comes to. An unknown
/// room delivers nothing.
pub open spec fn relayed<S>(
    rooms: Map<Seq<char>, Seq<Seat<S>>>,
    code: Seq<char>,
    message: MessageView,
) -> Option<DeliveryView<S>> {
    delivered(room_at(rooms, code), message)
}

/// A message relayed to a client right after its join arrives: exactly one
/// frame is owed, it is the message's, and it goes to the endpoint the client
/// joined with. Where the name was taken before the join, it goes to the
/// name's first holder instead.
pub proof fn lemma_relay_after_join<S>(
    rooms: Map<Seq<char>, Seq<Seat<S>>>,
    code: Seq<char>,
    name: Seq<char>,
    sender: S,
    message: MessageView,
)
    requires
        distinct(room_at(rooms, code)),
        message.recipient == name,
    ensures
        relayed(after_join(rooms, code, name, sender), code, message) == Some(
            DeliveryView {
                sender: match recipient_of(rooms, code, name) {
                    Some(first) => first,
                    None => sender,
                },
                frame: frame_text(message),
            },
        ),
{
    lemma_joined_holder(room_at(rooms, code), name, sender);
}

/// A message relayed to a client that has left its room is dropped.
pub proof fn lemma_relay_after_leave<S>(
    rooms: Map<Seq<char>, Seq<Seat<S>>>,
    code: Seq<char>,
    name: Seq<char>,
    message: MessageView,
)
    requires
        message.recipient == name,
    ensures
        relayed::<S>(after_leave(rooms, code, name), code, message) is None,
{
    if rooms.contains_key(code) {
        lemma_left_is_gone(rooms[code], name);
    }
}

/// A message relayed into a room that does not exist is dropped.
pub proof fn lemma_relay_unknown_room<S>(
    rooms: Map<Seq<char>, Seq<Seat<S>>>,
    code: Seq<char>,
    message: MessageView,
)
    requires
        !rooms.contains_key(code),
    ensures
        relayed::<S>(rooms, code, message) is None,
{
}

/// Rooms are apart: a join or a departure in one room changes nothing about
/// what a relay into another room comes to.
pub proof fn lemma_rooms_are_apart<S>(
    rooms: Map<Seq<char>, Seq<Seat<S>>>,
    code: Seq<char>,
    name: Seq<char>,
    sender: S,
    elsewhere: Seq<char>,
    message: MessageView,
)
    requires
        elsewhere != code,
    ensures
        relayed(after_join(rooms, code, name, sender), elsewhere, message) == relayed(
            rooms,
            elsewhere,
            message,
        ),
        relayed(after_leave(rooms, code, name), elsewhere, message) == relayed(
            rooms,
            elsewhere,
            message,
        ),
{
}

/// Within a room, a join or a departure under one name changes nothing about
/// what a relay to another name comes to.
pub proof fn lemma_others_are_undisturbed<S>(
    rooms: Map<Seq<char>, Seq<Seat<S>>>,
    code: Seq<char>,
    name: Seq<char>,
    sender: S,
    message: MessageView,
)
    requires
        distinct(room_at(rooms, code)),
        message.recipient != name,
    ensures
        relayed(after_join(rooms, code, name, sender), code, message) == relayed(
            rooms,
            code,
            message,
        ),
        relayed(after_leave(rooms, code, name), code, message) == relayed(rooms, code, message),
{
    lemma_joined_keeps_others(room_at(rooms, code), name, sender, message.recipient);
    lemma_left_keeps_others(room_at(rooms, code), name, message.recipient);
    if !rooms.contains_key(code) {
        assert(room_at(after_leave(rooms, code, name), code) == room_at(rooms, code));
    }
}

/// The message that tells `name` who else is in the room.
pub open spec fn peers_message<S>(seats: Seq<Seat<S>>, name: Seq<char>) -> MessageView {
    MessageView { recipient: name, payload: PayloadView::Peers { names: others(seats, name) } }
}

impl<S> View for Participant<S> {
    type V = Seat<S>;

    closed spec fn view(&self) -> Seat<S> {
        Seat { name: self.name@, sender: self.sender }
    }
}

impl<S> Participant<S> {
    pub fn new(name: String, sender: S) -> (participant: Self)
        ensures
            participant@ == (Seat { name: name@, sender }),
    {
        Self { name, sender }
    }

    /// Frames `message` for this participant's connection.
    pub fn send_message(&self, message: WebSocketMessage) -> (delivery: Delivery<'_, S>)
        ensures
            delivery@ == (DeliveryView { sender: self@.sender, frame: frame_text(message@) }),
    {
        Delivery { sender: &self.sender, frame: frame(&message) }
    }
}

/// The participants of one room, in the order they joined.
#[derive(Debug)]
pub struct P2pRoom<S> {
    participants: Vec<Participant<S>>,
}

impl<S> View for P2pRoom<S> {
    type V = Seq<Seat<S>>;

    closed spec fn view(&self) -> Seq<Seat<S>> {
        seats_of(self.participants@)
    }
}

/// The participants as contracts see them.
spec fn seats_of<S>(participants: Seq<Participant<S>>) -> Seq<Seat<S>> {
    participants.map_values(|p: Participant<S>| p@)
}

/// Where the participant called `name` is kept, if anyone is.
fn position_of<S>(participants: &Vec<Participant<S>>, name: &str) -> (found: Option<usize>)
    ensures
        match found {
            Some(i) => i < participants@.len() && seats_of(participants@)[i as int].name == name@,
            None => !has_name(seats_of(participants@), name@),
        },
{
    let mut i: usize = 0;
    while i < participants.len()
        invariant
            i <= participants.len(),
            forall|j: int| 0 <= j < i ==> (#[trigger] seats_of(participants@)[j]).name != name@,
        decreases participants.len() - i,
    {
        if same_text(participants[i].name.as_str(), name) {
            return Some(i);
        }
        i += 1;
    }
    None
}

impl<S> P2pRoom<S> {
    /// Names are unique within the room.
    #[verifier::type_invariant]
    spec fn unrepeated(&self) -> bool {
        distinct(seats_of(self.participants@))
    }

    pub fn new() -> (room: Self)
        ensures
            room@ == Seq::<Seat<S>>::empty(),
    {
        let participants: Vec<Participant<S>> = Vec::new();
        assert(seats_of(participants@) =~= Seq::<Seat<S>>::empty());
        Self { participants }
    }

    /// Seats `participant` under its name. Where the name is taken, the room
    /// stays as it is and the newcomer's endpoint is dropped.
    pub fn add_participant(&mut self, participant: Participant<S>)
        ensures
            final(self)@ == joined(old(self)@, participant@.name, participant@.sender),
            distinct(final(self)@),
    {
        proof {
            use_type_invariant(&*self);
            lemma_joined_distinct(self@, participant@.name, participant@.sender);
        }
        let mut participants: Vec<Participant<S>> = Vec::new();
        assert(seats_of(participants@) =~= Seq::<Seat<S>>::empty());
        std::mem::swap(&mut participants, &mut self.participants);
        if position_of(&participants, participant.name.as_str()).is_none() {
            participants.push(participant);
            assert(seats_of(participants@) =~= old(self)@.push(participant@));
        }
        self.participants = participants;
    }

    /// Removes the participant called `name`, if there is one.
    pub fn remove_participant(&mut self, name: &str)
        ensures
            final(self)@ == left(old(self)@, name@),
            distinct(final(self)@),
    {
        proof {
            use_type_invariant(&*self);
            lemma_left_distinct(self@, name@);
        }
        let mut participants: Vec<Participant<S>> = Vec::new();
        assert(seats_of(participants@) =~= Seq::<Seat<S>>::empty());
        std::mem::swap(&mut participants, &mut self.participants);
        match position_of(&participants, name) {
            Some(i) => {
                proof {
                    lemma_left_at(old(self)@, i as int);
                }
                participants.remove(i);
                assert(seats_of(participants@) =~= old(self)@.remove(i as int));
            },
            None => {
                proof {
                    lemma_left_absent(old(self)@, name@);
                }
            },
        }
        self.participants = participants;
    }

    /// Frames `message` for the participant it is addressed to. A message to
    /// a name that nobody in the room carries is dropped.
    pub fn message_participant(&self, message: WebSocketMessage) -> (delivery: Option<
        Delivery<'_, S>,
    >)
        ensures
            sent(delivery) == delivered(self@, message@),
    {
        proof {
            use_type_invariant(self);
        }
        match position_of(&self.participants, message.recipient.as_str()) {
            Some(i) => {
                proof {
                    lemma_sender_at(self@, i as int);
                }
                Some(self.participants[i].send_message(message))
            },
            None => None,
        }
    }

    /// The names of all participants, in joining order.
    pub fn find_all_participant_names(&self) -> (names: Vec<String>)
        ensures
            texts(names@) == names_of(self@),
    {
        let mut names: Vec<String> = Vec::new();
        let mut i: usize = 0;
        while i < self.participants.len()
            invariant
                i <= self.participants.len(),
                texts(names@) == names_of(self@.take(i as int)),
            decreases self.participants.len() - i,
        {
            names.push(self.participants[i].name.clone());
            proof {
                let seen = self@.take(i as int);
                assert(self@.take(i + 1) =~= seen.push(self@[i as int]));
                assert(texts(names@) =~= names_of(seen).push(self@[i as int].name));
                assert(names_of(seen.push(self@[i as int])) =~= names_of(seen).push(
                    self@[i as int].name,
                ));
            }
            i += 1;
        }
        assert(self@.take(self@.len() as int) =~= self@);
        names
    }

    /// The names of all participants but `my_name`, in joining order: the
    /// list never holds `my_name`, and as a set it is the room's names
    /// without it.
    pub fn find_other_participant_names(&self, my_name: &str) -> (names: Vec<String>)
        ensures
            texts(names@) == others(self@, my_name@),
            !texts(names@).contains(my_name@),
            texts(names@).to_set() == names_of(self@).to_set().remove(my_name@),
    {
        proof {
            lemma_others_are_the_rest(self@, my_name@);
        }
        let mut names: Vec<String> = Vec::new();
        let mut i: usize = 0;
        assert(self@.take(0) =~= Seq::<Seat<S>>::empty());
        assert(others(Seq::<Seat<S>>::empty(), my_name@) =~= Seq::<Seq<char>>::empty()) by {
            reveal(Seq::filter);
        }
        while i < self.participants.len()
            invariant
                i <= self.participants.len(),
                texts(names@) == others(self@.take(i as int), my_name@),
            decreases self.participants.len() - i,
        {
            let ghost seen = self@.take(i as int);
            let ghost seat = self@[i as int];
            proof {
                assert(self@.take(i + 1) =~= seen.push(seat));
                seen.lemma_filter_push(seat, not_named(my_name@));
            }
            if !same_text(self.participants[i].name.as_str(), my_name) {
                names.push(self.participants[i].name.clone());
                proof {
                    assert(left(seen.push(seat), my_name@) == left(seen, my_name@).push(seat));
                    assert(names_of(left(seen, my_name@).push(seat)) =~= names_of(
                        left(seen, my_name@),
                    ).push(seat.name));
                    assert(texts(names@) =~= others(seen, my_name@).push(seat.name));
                }
            }
            i += 1;
        }
        assert(self@.take(self@.len() as int) =~= self@);
        names
    }
}

/// The registry: every room, under its code.
pub struct P2pRoomService<S> {
    room_map: Vec<(String, P2pRoom<S>)>,
}

/// The codes of the rooms, in the order the rooms were made.
spec fn codes_of<S>(entries: Seq<(String, P2pRoom<S>)>) -> Seq<Seq<char>> {
    entries.map_values(|entry: (String, P2pRoom<S>)| entry.0@)
}

/// The rooms as contracts see them: each room's occupants under its code.
spec fn rooms_of<S>(entries: Seq<(String, P2pRoom<S>)>) -> Map<Seq<char>, Seq<Seat<S>>> {
    Map::new(
        |code: Seq<char>| codes_of(entries).contains(code),
        |code: Seq<char>| entries[codes_of(entries).index_of(code)].1@,
    )
}

/// No two rooms share a code, and names are unique within each room.
spec fn orderly<S>(entries: Seq<(String, P2pRoom<S>)>) -> bool {
    &&& codes_of(entries).no_duplicates()
    &&& forall|i: int| 0 <= i < entries.len() ==> distinct((#[trigger] entries[i]).1@)
}

/// Each entry is the room that the view shows under the entry's code.
proof fn lemma_entry<S>(entries: Seq<(String, P2pRoom<S>)>, i: int)
    requires
        codes_of(entries).no_duplicates(),
        0 <= i < entries.len(),
    ensures
        rooms_of(entries).contains_key(entries[i].0@),
        rooms_of(entries)[entries[i].0@] == entries[i].1@,
{
    let codes = codes_of(entries);
    assert(codes[i] == entries[i].0@);
    assert(codes.contains(codes[i]));
    let k = codes.index_of(codes[i]);
    assert(codes[k] == codes[i]);
}

/// Orderly entries show rooms with unrepeated names.
proof fn lemma_orderly_rooms<S>(entries: Seq<(String, P2pRoom<S>)>)
    requires
        orderly(entries),
    ensures
        all_distinct(rooms_of(entries)),
{
    let codes = codes_of(entries);
    assert forall|code: Seq<char>| rooms_of(entries).contains_key(code) implies distinct(
        #[trigger] rooms_of(entries)[code],
    ) by {
        let i = codes.index_of(code);
        assert(0 <= i < codes.len() && codes[i] == code);
        lemma_entry(entries, i);
    }
}

/// What changing the room kept at `i`, and nothing else, does to the view.
proof fn lemma_room_changed<S>(
    before: Seq<(String, P2pRoom<S>)>,
    after: Seq<(String, P2pRoom<S>)>,
    i: int,
)
    requires
        orderly(before),
        0 <= i < before.len(),
        after.len() == before.len(),
        after[i].0@ == before[i].0@,
        distinct(after[i].1@),
        forall|j: int| 0 <= j < before.len() && j != i ==> after[j] == before[j],
    ensures
        orderly(after),
        rooms_of(after) == rooms_of(before).insert(before[i].0@, after[i].1@),
{
    assert(codes_of(after) =~= codes_of(before));
    let code = before[i].0@;
    let codes = codes_of(before);
    assert(codes[i] == code);
    let expected = rooms_of(before).insert(code, after[i].1@);
    assert forall|k: Seq<char>| expected.contains_key(k) implies #[trigger] rooms_of(after)[k]
        == expected[k] by {
        let j = codes.index_of(k);
        assert(codes.contains(k));
        assert(0 <= j < codes.len() && codes[j] == k);
    }
    assert(rooms_of(after) =~= expected);
    assert forall|j: int| 0 <= j < after.len() implies distinct((#[trigger] after[j]).1@) by {
        if j != i {
            assert(after[j] == before[j]);
        }
    }
}

/// What adding an empty room under a new code does to the view.
proof fn lemma_room_added<S>(
    before: Seq<(String, P2pRoom<S>)>,
    after: Seq<(String, P2pRoom<S>)>,
    code: Seq<char>,
)
    requires
        orderly(before),
        !codes_of(before).contains(code),
        after.len() == before.len() + 1,
        after[before.len() as int].0@ == code,
        after[before.len() as int].1@ == Seq::<Seat<S>>::empty(),
        forall|j: int| 0 <= j < before.len() ==> after[j] == before[j],
    ensures
        orderly(after),
        rooms_of(after) == rooms_of(before).insert(code, Seq::<Seat<S>>::empty()),
{
    let old_codes = codes_of(before);
    let new_codes = codes_of(after);
    let last = before.len() as int;
    assert(new_codes =~= old_codes.push(code));
    assert forall|a: int, b: int|
        0 <= a < new_codes.len() && 0 <= b < new_codes.len() && a != b implies new_codes[a]
        != new_codes[b] by {
        if a < last {
            assert(old_codes[a] == new_codes[a]);
            assert(old_codes.contains(old_codes[a]));
        }
        if b < last {
            assert(old_codes[b] == new_codes[b]);
            assert(old_codes.contains(old_codes[b]));
        }
    }
    assert forall|j: int| 0 <= j < after.len() implies distinct((#[trigger] after[j]).1@) by {
        if j < last {
            assert(after[j] == before[j]);
        }
    }
    let expected = rooms_of(before).insert(code, Seq::<Seat<S>>::empty());
    assert forall|k: Seq<char>| #[trigger] expected.contains_key(k) implies rooms_of(
        after,
    ).contains_key(k) && rooms_of(after)[k] == expected[k] by {
        if k == code {
            assert(new_codes[last] == k);
            lemma_entry(after, last);
        } else {
            let j = old_codes.index_of(k);
            assert(old_codes.contains(k));
            assert(0 <= j < last && old_codes[j] == k);
            assert(new_codes[j] == k);
            lemma_entry(after, j);
            assert(after[j] == before[j]);
        }
    }
    assert forall|k: Seq<char>| rooms_of(after).contains_key(k) implies expected.contains_key(
        k,
    ) by {
        let j = new_codes.index_of(k);
        assert(0 <= j < new_codes.len() && new_codes[j] == k);
        if j < last {
            assert(old_codes[j] == k);
        }
    }
    assert(rooms_of(after) =~= expected);
}

/// Where the room called `room_code` is kept, if it exists.
fn room_position<S>(entries: &Vec<(String, P2pRoom<S>)>, room_code: &str) -> (found: Option<usize>)
    ensures
        match found {
            Some(i) => i < entries@.len() && entries@[i as int].0@ == room_code@,
            None => !codes_of(entries@).contains(room_code@),
        },
{
    let mut i: usize = 0;
    while i < entries.len()
        invariant
            i <= entries.len(),
            forall|j: int| 0 <= j < i ==> (#[trigger] codes_of(entries@)[j]) != room_code@,
        decreases entries.len() - i,
    {
        if same_text(entries[i].0.as_str(), room_code) {
            return Some(i);
        }
        i += 1;
    }
    None
}

impl<S> View for P2pRoomService<S> {
    type V = Map<Seq<char>, Seq<Seat<S>>>;

    closed spec fn view(&self) -> Map<Seq<char>, Seq<Seat<S>>> {
        rooms_of(self.room_map@)
    }
}

impl<S> P2pRoomService<S> {
    /// There is one room per code, and names are unique within each room.
    #[verifier::type_invariant]
    spec fn kept_orderly(&self) -> bool {
        orderly(self.room_map@)
    }

    pub fn new() -> (service: Self)
        ensures
            service@ == Map::<Seq<char>, Seq<Seat<S>>>::empty(),
    {
        let room_map: Vec<(String, P2pRoom<S>)> = Vec::new();
        assert(rooms_of(room_map@) =~= Map::<Seq<char>, Seq<Seat<S>>>::empty());
        Self { room_map }
    }

    /// Seats `participant` in the room called `room_code`, making the room if
    /// need be, and frames the list of the others for whoever now holds the
    /// participant's name in that room: the newcomer, or, where the name was
    /// taken, its first holder.
    pub fn join_room(&mut self, room_code: &str, participant: Participant<S>) -> (delivery:
        Delivery<'_, S>)
        ensures
            final(self)@ == after_join(
                old(self)@,
                room_code@,
                participant@.name,
                participant@.sender,
            ),
            all_distinct(final(self)@),
            Some(delivery@) == relayed(
                final(self)@,
                room_code@,
                peers_message(room_at(final(self)@, room_code@), participant@.name),
            ),
    {
        proof {
            use_type_invariant(&*self);
        }
        let mut entries: Vec<(String, P2pRoom<S>)> = Vec::new();
        assert(codes_of(entries@) =~= Seq::<Seq<char>>::empty());
        std::mem::swap(&mut entries, &mut self.room_map);
        let i = match room_position(&entries, room_code) {
            Some(i) => {
                proof {
                    lemma_entry(entries@, i as int);
                    assert(rooms_of(entries@) =~= rooms_of(entries@).insert(
                        room_code@,
                        room_at(old(self)@, room_code@),
                    ));
                }
                i
            },
            None => {
                entries.push((room_code.to_owned(), P2pRoom::new()));
                proof {
                    lemma_room_added(old(self).room_map@, entries@, room_code@);
                }
                entries.len() - 1
            },
        };
        let name = participant.name.clone();
        let ghost found = entries@;
        proof {
            lemma_entry(found, i as int);
        }
        entries[i].1.add_participant(participant);
        proof {
            lemma_room_changed(found, entries@, i as int);
            lemma_entry(entries@, i as int);
            lemma_orderly_rooms(entries@);
            assert(rooms_of(entries@) =~= after_join(
                old(self)@,
                room_code@,
                participant@.name,
                participant@.sender,
            ));
            lemma_joined_has_name(
                room_at(old(self)@, room_code@),
                participant@.name,
                participant@.sender,
            );
        }
        self.room_map = entries;
        let room = &self.room_map[i].1;
        let names = room.find_other_participant_names(name.as_str());
        let message = WebSocketMessage { recipient: name, payload: MessagePayload::Peers { names } };
        room.message_participant(message).unwrap()
    }

    /// Removes `name` from the room called `room_code`. Nothing happens where
    /// the room or the name is unknown, and nobody is told.
    pub fn leave_room(&mut self, room_code: &str, name: &str)
        ensures
            final(self)@ == after_leave(old(self)@, room_code@, name@),
            all_distinct(final(self)@),
    {
        proof {
            use_type_invariant(&*self);
            lemma_orderly_rooms(self.room_map@);
        }
        let mut entries: Vec<(String, P2pRoom<S>)> = Vec::new();
        assert(codes_of(entries@) =~= Seq::<Seq<char>>::empty());
        std::mem::swap(&mut entries, &mut self.room_map);
        match room_position(&entries, room_code) {
            Some(i) => {
                proof {
                    lemma_entry(entries@, i as int);
                }
                entries[i].1.remove_participant(name);
                proof {
                    lemma_room_changed(old(self).room_map@, entries@, i as int);
                    lemma_orderly_rooms(entries@);
                }
            },
            None => {},
        }
        self.room_map = entries;
    }

    /// Frames `message` for the participant it is addressed to in the room
    /// called `room_code`. A message to an unknown room or name is dropped.
    pub fn relay_message(&self, room_code: &str, message: WebSocketMessage) -> (delivery: Option<
        Delivery<'_, S>,
    >)
        ensures
            sent(delivery) == relayed(self@, room_code@, message@),
            !self@.contains_key(room_code@) ==> delivery is None,
    {
        proof {
            use_type_invariant(self);
        }
        match room_position(&self.room_map, room_code) {
            Some(i) => {
                proof {
                    lemma_entry(self.room_map@, i as int);
                }
                self.room_map[i].1.message_participant(message)
            },
            None => None,
        }
    }

    /// Frames, for `name` in the room called `room_code`, the list of the
    /// others in that room. Nothing is framed where the room or the name is
    /// unknown.
    pub fn send_room_peers(&self, room_code: &str, name: &str) -> (delivery: Option<
        Delivery<'_, S>,
    >)
        ensures
            sent(delivery) == relayed(
                self@,
                room_code@,
                peers_message(room_at(self@, room_code@), name@),
            ),
    {
        proof {
            use_type_invariant(self);
        }
        match room_position(&self.room_map, room_code) {
            Some(i) => {
                proof {
                    lemma_entry(self.room_map@, i as int);
                }
                let room = &self.room_map[i].1;
                let names = room.find_other_participant_names(name);
                let message = WebSocketMessage {
                    recipient: name.to_owned(),
                    payload: MessagePayload::Peers { names },
                };
                room.message_participant(message)
            },
            None => None,
        }
    }
}

} // verus!
