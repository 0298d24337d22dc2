//! Small, general purpose file manager: the decisions behind the window.

pub mod audio;
pub mod clipboard;
pub mod component;
pub mod config;
pub mod layout;
mod natural;
pub mod ops;
pub mod path;
pub mod path_title;
pub mod place;
pub mod text;
pub mod transfer;
