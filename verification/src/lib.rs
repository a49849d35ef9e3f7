//! The decision core of a WebRTC signaling server: rooms, members, and the
//! server's answer to every client request, with the messages it sends.

pub mod room;
pub mod message;
pub mod state;
pub mod signaling;
pub mod handler;
pub mod laws;
