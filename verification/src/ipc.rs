//! The compositor's side of its small IPC protocol: clients ask which
//! workspace is active. The wire transport lives outside the library;
//! the manager and the handler contract stand here.

use vstd::prelude::*;

verus! {

/// Manages the IPC global that clients bind to.
#[derive(Debug, Clone, Copy, PartialEq, Eq, Structural)]
pub struct MagmaIpcManager;

/// What the compositor answers IPC clients.
pub trait MagmaIpcHandler {
    /// The index of the currently active workspace.
    fn active_workspace(&self) -> u32;
}

} // verus!
