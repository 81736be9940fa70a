//! The decisions of a tiling window manager's entity systems.
//!
//! Each system reads a snapshot of the world as plain values and answers with the commands that
//! the world is to carry out. Reading the snapshot and carrying out the commands is left to the
//! program around this library.
use vstd::prelude::*;

pub mod animation;
pub mod commands;
pub mod dispatch;
pub mod displays;
pub mod events;
pub mod geometry;
pub mod launch;
pub mod laws;
pub mod layout;
pub mod orphans;
pub mod scalar;
pub mod sequences;
pub mod setup;
pub mod strip;
pub mod text;
pub mod timeouts;
pub mod windows;
pub mod world;

verus! {

/// An entity of the world, by its bits.
pub type Entity = u64;

/// A physical display.
pub type DisplayId = u32;

/// A workspace of a display.
pub type WorkspaceId = u64;

/// A window, as the window server numbers it.
pub type WindowId = i32;

} // verus!
