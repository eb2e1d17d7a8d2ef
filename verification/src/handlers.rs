//! The messages that cross the relay and what a connection does with the
//! frames it receives.

use std::ops::ControlFlow;
use vstd::prelude::*;
use crate::roster::Seat;
use crate::service::{relayed, sent, Delivery, DeliveryView, P2pRoomService, Participant};
use crate::text::texts;

verus! {

/// The body of a request to join a room.
pub struct JoinRoomRequest {
    pub name: String,
    pub sdp: String,
}

/// The (empty) answer to a room request.
pub struct RoomResponse {}

/// The (empty) answer to a connection request.
pub struct P2pConnectionResponse {}

/// An addressed message: the relay reads `recipient` and nothing else.
#[derive(Clone, Debug)]
pub struct WebSocketMessage {
    pub recipient: String,
    pub payload: MessagePayload,
}

/// What a message carries. The relay builds `Peers` itself and passes every
/// other kind through untouched.
#[derive(Clone, Debug)]
pub enum MessagePayload {
    Offer { sender: String, payload: String },
    Answer { sender: String, payload: String },
    Candidate { sender: String, payload: String },
    Peers { names: Vec<String> },
    Echo { message: String },
    File { sender: String, file_name: String, file_size: i64 },
}

/// A message as contracts see it.
pub struct MessageView {
    pub recipient: Seq<char>,
    pub payload: PayloadView,
}

/// A payload as contracts see it.
pub enum PayloadView {
    Offer { sender: Seq<char>, payload: Seq<char> },
    Answer { sender: Seq<char>, payload: Seq<char> },
    Candidate { sender: Seq<char>, payload: Seq<char> },
    Peers { names: Seq<Seq<char>> },
    Echo { message: Seq<char> },
    File { sender: Seq<char>, file_name: Seq<char>, file_size: i64 },
}

impl View for MessagePayload {
    type V = PayloadView;

    open spec fn view(&self) -> PayloadView {
        match self {
            MessagePayload::Offer { sender, payload } => PayloadView::Offer {
                sender: sender@,
                payload: payload@,
            },
            MessagePayload::Answer { sender, payload } => PayloadView::Answer {
                sender: sender@,
                payload: payload@,
            },
            MessagePayload::Candidate { sender, payload } => PayloadView::Candidate {
                sender: sender@,
                payload: payload@,
            },
            MessagePayload::Peers { names } => PayloadView::Peers { names: texts(names@) },
            MessagePayload::Echo { message } => PayloadView::Echo { message: message@ },
            MessagePayload::File { sender, file_name, file_size } => PayloadView::File {
                sender: sender@,
                file_name: file_name@,
                file_size: *file_size,
            },
        }
    }
}

impl View for WebSocketMessage {
    type V = MessageView;

    open spec fn view(&self) -> MessageView {
        MessageView { recipient: self.recipient@, payload: self.payload@ }
    }
}

/// One frame read from a connection, as far as the relay tells frames apart.
pub enum Inbound {
    /// A text frame that decoded to a message.
    Message(WebSocketMessage),
    /// A text frame that did not decode.
    Malformed,
    /// The close frame.
    Close,
    /// Any other frame: binary, ping, pong.
    Other,
}

/// Whether reading goes on after a frame: every frame but the close frame
/// keeps the connection.
pub open spec fn flow_after(msg: Inbound) -> ControlFlow<(), ()> {
    match msg {
        Inbound::Close => ControlFlow::Break(()),
        _ => ControlFlow::Continue(()),
    }
}

/// What a frame read in the room called `room` makes the relay send: a
/// decoded message is relayed to its recipient, and nothing else sends
/// anything.
pub open spec fn sent_after<S>(
    rooms: Map<Seq<char>, Seq<Seat<S>>>,
    room: Seq<char>,
    msg: Inbound,
) -> Option<DeliveryView<S>> {
    match msg {
        Inbound::Message(message) => relayed(rooms, room, message@),
        _ => None,
    }
}

/// Handles one frame read from a connection in the room called `room`, and
/// says whether to go on reading.
pub fn process_message<'a, S>(
    msg: Inbound,
    room: &str,
    room_service: &'a P2pRoomService<S>,
) -> (outcome: (ControlFlow<(), ()>, Option<Delivery<'a, S>>))
    ensures
        outcome.0 == flow_after(msg),
        sent(outcome.1) == sent_after(room_service@, room@, msg),
{
    match msg {
        Inbound::Message(message) => {
            let delivery = room_service.relay_message(room, message);
            (ControlFlow::Continue(()), delivery)
        },
        Inbound::Close => (ControlFlow::Break(()), None),
        _ => (ControlFlow::Continue(()), None),
    }
}

/// Where a connection stands.
#[derive(Clone, Copy, Debug, PartialEq, Eq, Structural)]
pub enum SocketPhase {
    /// Accepted; the opening ping is not through yet.
    Opening,
    /// In its room, reading frames.
    Joined,
    /// Over.
    Closed,
}

/// What can happen to a connection.
pub enum SocketEvent<S> {
    /// The opening ping could not be sent.
    PingFailed,
    /// The opening ping went out; here is the connection's outbound endpoint.
    PingSent(S),
    /// A frame was read and handled, with this verdict on reading further.
    Processed(ControlFlow<(), ()>),
    /// Reading ended without a close frame: an error, or the end of the stream.
    ReadEnded,
    /// The pause that follows a join is over.
    DelayElapsed,
}

/// What the connection's owner is to do with the registry next.
pub enum SocketAction<S> {
    /// Join the room with this participant.
    Join(Participant<S>),
    /// Send the participant the list of the others in its room.
    SendPeers,
    /// Leave the room.
    Leave,
    /// Nothing.
    Idle,
}

/// An action as contracts see it.
pub enum ActionView<S> {
    Join(Seat<S>),
    SendPeers,
    Leave,
    Idle,
}

impl<S> View for SocketAction<S> {
    type V = ActionView<S>;

    open spec fn view(&self) -> ActionView<S> {
        match self {
            SocketAction::Join(participant) => ActionView::Join(participant@),
            SocketAction::SendPeers => ActionView::SendPeers,
            SocketAction::Leave => ActionView::Leave,
            SocketAction::Idle => ActionView::Idle,
        }
    }
}

/// The phase that follows `phase` on `event`. A connection joins once its
/// ping is out, and closes when the ping fails, when a frame's verdict is to
/// stop, or when reading ends. Whatever else happens changes nothing.
pub open spec fn next_phase<S>(phase: SocketPhase, event: SocketEvent<S>) -> SocketPhase {
    match (phase, event) {
        (SocketPhase::Opening, SocketEvent::PingFailed) => SocketPhase::Closed,
        (SocketPhase::Opening, SocketEvent::PingSent(_)) => SocketPhase::Joined,
        (SocketPhase::Joined, SocketEvent::Processed(ControlFlow::Break(_))) => SocketPhase::Closed,
        (SocketPhase::Joined, SocketEvent::ReadEnded) => SocketPhase::Closed,
        _ => phase,
    }
}

/// The action that `event` calls for in `phase`, for the connection of the
/// client called `name`.
pub open spec fn action_on<S>(
    phase: SocketPhase,
    event: SocketEvent<S>,
    name: Seq<char>,
) -> ActionView<S> {
    match (phase, event) {
        (SocketPhase::Opening, SocketEvent::PingSent(sender)) => ActionView::Join(
            Seat { name, sender },
        ),
        (SocketPhase::Joined, SocketEvent::Processed(ControlFlow::Break(_))) => ActionView::Leave,
        (SocketPhase::Joined, SocketEvent::ReadEnded) => ActionView::Leave,
        (SocketPhase::Joined, SocketEvent::DelayElapsed) => ActionView::SendPeers,
        _ => ActionView::Idle,
    }
}

/// One client's connection: which room it asked for, under which name, and
/// how far it has come.
pub struct Socket {
    room: String,
    name: String,
    phase: SocketPhase,
}

impl Socket {
    /// The code of the room this connection asked for.
    pub closed spec fn room_code(&self) -> Seq<char> {
        self.room@
    }

    /// The name this connection goes by.
    pub closed spec fn client_name(&self) -> Seq<char> {
        self.name@
    }

    /// How far this connection has come.
    pub closed spec fn current(&self) -> SocketPhase {
        self.phase
    }

    /// A connection that was just accepted.
    pub fn new(room: String, name: String) -> (socket: Self)
        ensures
            socket.room_code() == room@,
            socket.client_name() == name@,
            socket.current() == SocketPhase::Opening,
    {
        Self { room, name, phase: SocketPhase::Opening }
    }

    pub fn room(&self) -> (room: &str)
        ensures
            room@ == self.room_code(),
    {
        self.room.as_str()
    }

    pub fn name(&self) -> (name: &str)
        ensures
            name@ == self.client_name(),
    {
        self.name.as_str()
    }

    pub fn phase(&self) -> (phase: SocketPhase)
        ensures
            phase == self.current(),
    {
        self.phase
    }
}

/// Advances a connection by one event and says what to do with the registry.
pub fn handle_socket<S>(socket: &mut Socket, event: SocketEvent<S>) -> (action: SocketAction<S>)
    ensures
        final(socket).room_code() == old(socket).room_code(),
        final(socket).client_name() == old(socket).client_name(),
        final(socket).current() == next_phase(old(socket).current(), event),
        action@ == action_on(old(socket).current(), event, old(socket).client_name()),
{
    match socket.phase {
        SocketPhase::Opening => match event {
            SocketEvent::PingFailed => {
                socket.phase = SocketPhase::Closed;
                SocketAction::Idle
            },
            SocketEvent::PingSent(sender) => {
                socket.phase = SocketPhase::Joined;
                SocketAction::Join(Participant::new(socket.name.clone(), sender))
            },
            _ => SocketAction::Idle,
        },
        SocketPhase::Joined => match event {
            SocketEvent::Processed(ControlFlow::Break(_)) => {
                socket.phase = SocketPhase::Closed;
                SocketAction::Leave
            },
            SocketEvent::ReadEnded => {
                socket.phase = SocketPhase::Closed;
                SocketAction::Leave
            },
            SocketEvent::DelayElapsed => SocketAction::SendPeers,
            _ => SocketAction::Idle,
        },
        SocketPhase::Closed => SocketAction::Idle,
    }
}

} // verus!
