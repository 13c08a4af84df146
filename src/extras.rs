//! Extras built on the core: a broker that serves WebSocket sessions.
use vstd::prelude::*;

pub mod websocket_app;

verus! {

} // verus!
