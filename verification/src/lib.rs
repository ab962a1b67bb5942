//! Core logic of a desktop file manager: directory scanning with a
//! deterministic sort order, a bounded cancellable filename search,
//! clipboard state with collision-avoiding paste planning, progress
//! accounting for background transfers, and the conflict-resolution
//! state machine that coordinates a paste worker with an interactive
//! user interface.
pub mod clipboard;
pub mod colors;
pub mod config;
pub mod drives;
pub mod file_ops;
pub mod loader;
pub mod paste_worker;
pub mod pinned;
pub mod scanner;
pub mod search;
pub mod text;
