//! A small chat relay: a per-connection command dispatcher for a
//! field-oriented request/response protocol, and a hub that fans shouts out
//! to every connected client.

pub mod codec;
pub mod text;

pub mod client;
pub mod peer_credentials;
pub mod server;

pub use codec::{decode_relay, encode_messages};
pub use text::bytes_eq;
