//! Verified core of mplug, a Lua plugin manager and runtime daemon for
//! MangoWM Wayland compositors.

pub mod text;
pub mod manifest;
pub mod logging;
pub mod plugins;
pub mod sorting;
pub mod listing;
pub mod timers;
pub mod commands;
pub mod ipc;
pub mod events;
pub mod laws;
