//! The parts of the window: what each of them does with a message.

pub mod app;
pub mod directory_list;
pub mod entry;
pub mod keys;
pub mod panel;
pub mod panel_laws;
pub mod paste;
pub mod search;
pub mod window;
pub mod window_laws;
