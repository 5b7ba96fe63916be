//! Core logic of layernotes: note files, slugs, paths, configuration
//! choices, IPC commands and the bookkeeping of notes across monitors.

pub mod text;
pub mod slug;
pub mod paths;
pub mod note_file;
pub mod config;
pub mod ipc;
pub mod geometry;
pub mod outputs;
pub mod order;
pub mod notes;
pub mod reload;
pub mod session;
pub mod gesture;
pub mod watch;
pub mod theme;
