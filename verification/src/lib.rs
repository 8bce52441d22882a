//! Protocol engine of a client for a DVR / IP-camera control and media
//! protocol: the control-message codec, the login and stream-start session
//! state machine, the media demultiplexer with its RTP-style packetizer, and
//! a minimal RTSP-like responder. Nothing here touches a socket: callers read
//! and write, and hand this crate bytes.

pub mod frames;
pub mod header;
pub mod media;
pub mod rtsp;
pub mod session;
pub mod text;
pub mod wire;
