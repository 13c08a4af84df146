//! WebSocket framing, messages and the accept-key hash.
use vstd::prelude::*;

pub mod frame;
pub mod handshake;
pub mod message;
pub mod sha1;

verus! {

} // verus!
