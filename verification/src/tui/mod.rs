//! Terminal-interface state: key bindings, panels, sorting, dialogs,
//! notifications and the search view.
pub mod dialog;
pub mod keys;
pub mod input;
pub mod notifications;
pub mod sort;
pub mod status;
pub mod transfer_list;
pub mod panels;
pub mod widgets;
