//! A minimal networked key-value store: the wire protocol, the per-connection
//! buffer, the storage engine and the dispatch of commands against it.
//!
//! Nothing here touches a socket. The connection types take the bytes that a
//! read returned and give back the bytes to write, so that the transport can
//! be any stream.
pub mod buffer;
pub mod client;
pub mod executor;
pub mod handler;
pub mod protocol;
pub mod storage;
pub mod text;

pub use client::Client;
pub use handler::ConnectionHandler;
pub use protocol::{Command, Parser, Response, Writer};
pub use storage::{Storage, StorageOptions};

use vstd::prelude::*;

verus! {

/// The port that the server listens on unless it is told another.
pub const DEFAULT_PORT: &'static str = "6555";

} // verus!
