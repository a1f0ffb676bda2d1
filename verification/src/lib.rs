//! A verified client-side core for the Socket.IO v4 protocol over
//! Engine.IO v4, transported over WebSocket.
//!
//! The crate holds the message codec (wire frames to packets and back, with
//! a proved round-trip law), the ack-id allocation and correlation
//! registry, the subscriber table, and the session state machine that
//! drives the handshake, ping/pong liveness and namespace lifecycle.
//! Transport I/O, timers and user callbacks live outside the library and
//! talk to it through plain values: frames come in as bytes, and every
//! transition hands back the list of actions the caller must perform.

pub mod byte_scan;
pub mod errors;
pub mod models;
pub mod codec;
pub mod frames;
pub mod codec_laws;
pub mod ack_awaiters;
pub mod connection;
pub mod event_subscribers;
pub mod session;
pub mod sid;
pub mod url;
pub mod rpc_models;
