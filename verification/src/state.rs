//! What the compositor state expects of the backend that hosts it, and
//! the state attached to each connected client.

use vstd::prelude::*;

verus! {

/// What every backend implementation (hardware or windowed) provides to
/// the compositor.
pub trait Backend {
    /// The name of the seat this backend runs on.
    fn seat_name(&self) -> String;
}

/// State attached to each connected client. The compositor keeps no
/// per-client bookkeeping beyond the connection itself.
#[derive(Debug, Clone, Copy, PartialEq, Eq, Structural)]
pub struct ClientState;

} // verus!
