//! Verified core of the klyppd screen-clip manager.

pub mod text;
pub mod r2;
pub mod paths;
pub mod settings;
pub mod recorder;
pub mod editor;
pub mod server;
pub mod hotkey;
pub mod window;
pub mod library;
pub mod watcher;
