//! A gRPC transport over a local byte stream: HTTP/2 frames are written and read with
//! `http2parse`, header blocks with `hpack`, and the decisions of the client and of the server
//! are made here.
use vstd::prelude::*;

pub mod bench;
pub mod client;
pub mod exchange;
pub mod frame;
pub mod header_block;
pub mod http2;
pub mod names;
pub mod server;
pub mod stream;
pub mod transfer;
