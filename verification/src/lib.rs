//! Verified core of a compositor's output backend: device hot-plug tracking,
//! display-mode selection, buffer-format feedback negotiation, a swapchain
//! with damage-driven frame scheduling, and session pause/resume handling.
//!
//! All device I/O stays outside this crate; the library is a state machine
//! over plain values, driven by typed events, and every transition carries a
//! contract.

pub mod backend;
pub mod binarytree;
pub mod config;
pub mod device;
pub mod feedback;
pub mod format;
pub mod ipc;
pub mod mode;
pub mod state;
pub mod surface;
pub mod swapchain;
pub mod tiling;
pub mod workspace;
