pub mod text;
pub mod path;
pub mod action;
pub mod git;
pub mod theme;
pub mod session;
pub mod template;
pub mod dialog;
pub mod diff;
pub mod buffer;
pub mod lsp;
pub mod frame;
pub mod ui;
pub mod config;
pub mod font;
pub mod input;
pub mod fileview;
pub mod highlight;
pub mod tree;
pub mod terminal_state;
pub mod adapter;
pub mod urls;
pub mod utf16;
pub mod commit;
