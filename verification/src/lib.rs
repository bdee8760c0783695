//! Page layout, navigation, favorites and hook routing for a wallpaper picker.

pub mod config;
pub mod filesystem;
pub mod hooks;
pub mod lex;
pub mod path;
pub mod path_list;
pub mod text;
pub mod utils;
pub mod state;
pub mod ui;
