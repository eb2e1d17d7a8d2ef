//! A signaling relay for peer-to-peer connections: rooms, their participants,
//! and the routing of addressed messages between them.

pub mod handlers;
pub mod roster;
pub mod service;
pub mod text;
pub mod util;
pub mod wire;

pub use handlers::{
    handle_socket, process_message, Inbound, JoinRoomRequest, MessagePayload,
    P2pConnectionResponse, RoomResponse, Socket, SocketAction, SocketEvent, SocketPhase,
    WebSocketMessage,
};
pub use service::{Delivery, P2pRoom, P2pRoomService, Participant};
