//! A small HTTP/1.1 server core: request parsing, routing by path, response
//! serialization and the per-connection state machine, with the byte-level
//! behaviour of each stated in contracts.

pub mod buffer;
pub mod clock;
pub mod connection;
pub mod readback;
pub mod request;
pub mod response;
pub mod router;
pub mod serialize;
pub mod text;
pub mod wire;
