//! A minimal tiling window manager core: workspaces of windows, an
//! equal-column tiling layout, the workspace key bindings and the event
//! dispatcher that turns display events into window-system commands.
pub mod config;
pub mod error;
pub mod keys;
pub mod layout;
pub mod wm;
pub mod workspace;
