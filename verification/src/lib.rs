//! Authentication broker for a client/server handshake protocol.
//!
//! The broker issues short-lived server ids, delegates identity checks to an
//! ordered chain of pluggable authentication providers, and mints access
//! tokens that gate a binary WebSocket session.  The binary message codec and
//! the per-connection authorization state machine live here as well.

pub mod auth;
pub mod backend;
pub mod digits;
pub mod headers;
pub mod idmap;
pub mod ids;
pub mod message;
pub mod socket;
pub mod text;
