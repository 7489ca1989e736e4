//! Dialogs built on lists.
pub mod list;
