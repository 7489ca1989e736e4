//! A dual-panel terminal file manager's core: panels and sorting, SSH
//! config parsing, sessions, the transfer queue and conflict handling,
//! key bindings, dialogs and notifications.
pub mod text;
pub mod rounding;
pub mod seq_facts;
pub mod paths;
pub mod filesystem;
pub mod tui;
pub mod connection;
pub mod transfer;
pub mod config;
pub mod errors;
pub mod logging;
pub mod terminal;
