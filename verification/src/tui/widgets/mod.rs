//! The state behind the screen's widgets.
pub mod dialog;
pub mod file_list;
pub mod search_view;
