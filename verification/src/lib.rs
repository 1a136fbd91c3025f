//! Core logic of a two-panel text-mode file manager, with machine-checked contracts.

pub mod archive;
pub mod archive_read;
pub mod asciitable;
pub mod attributes;
pub mod assoc;
pub mod b64;
pub mod bookmarks;
pub mod compare;
pub mod dialog;
pub mod config;
pub mod dbf;
pub mod dirtree;
pub mod editor;
pub mod envlist;
pub mod file_ops;
pub mod filefind;
pub mod help;
pub mod history;
pub mod keys;
pub mod menu;
pub mod numfmt;
pub mod panel;
pub mod screensaver;
pub mod paths;
pub mod splitfile;
pub mod tetris;
pub mod text;
pub mod theme;
pub mod themeedit;
pub mod types;
pub mod usermenu;
pub mod uucode;
pub mod viewer;
pub mod wildcard;
