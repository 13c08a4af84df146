//! A synchronous HTTP/1.x server core: request head parsing, response
//! framing, routing and WebSocket framing, with their contracts proved.
use vstd::prelude::*;

pub mod extras;
pub mod handlers;
pub mod http;
pub mod route;
pub mod server;
pub mod thread;
pub mod util;
pub mod websocket;

verus! {

} // verus!
