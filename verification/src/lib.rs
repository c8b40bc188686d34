//! Client-side codec and handshake sequencer for the MAX! Cube home-automation
//! gateway's line-oriented, base64-framed binary protocol.
//!
//! The crate decodes metadata (`M`), status (`L`) and pairing-announcement (`N`)
//! lines into typed room and device records, encodes configuration and pairing
//! command lines, and drives the small reception state machine that consumes the
//! initial handshake. All decoding and encoding is pure and verified; the
//! transport (sockets, timeouts) is a caller concern.

pub mod b64;
pub mod error;
pub mod laws;
pub mod messages;
pub mod reader;
pub mod session;
pub mod wire;
