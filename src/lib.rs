//! A small in-memory key/value cache speaking a RESP-style protocol: the
//! frame codec, the command layer, the store and the read buffer of a
//! connection, each with its contract.

pub mod error;
pub mod command;
pub mod encode;
pub mod frame;
pub mod laws;
pub mod server;
pub mod storage;
pub mod text;

use vstd::prelude::*;

verus! {

/// Address that the server binds and that clients connect to.
pub const SOCKET_ADDR: &'static str = "127.0.0.1:6379";

} // verus!
