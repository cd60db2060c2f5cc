//! Application state core of a small desktop code editor: the action
//! vocabulary and its bounded bus, the key binding table, the lazily loaded
//! file tree and the manager of open documents.

pub mod strs;
pub mod paths;
pub mod util;
pub mod action;
pub mod bus;
pub mod keymap;
pub mod file_tree;
pub mod documents;
pub mod tree;
pub mod tool_bar;
pub mod menu_bar;
pub mod status_bar;
pub mod window;
pub mod font;
pub mod ui;
pub mod hl;
pub mod app_state;
pub mod text;
