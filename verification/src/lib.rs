//! Verified core of the zugluft fan-control tool.

pub mod chars;
pub mod hw;
pub mod text_edit;
pub mod keys;
pub mod assoc;
pub mod table;
pub mod stores;
pub mod config;
pub mod toml_doc;
pub mod config_file;
pub mod ui;
pub mod ipc;
pub mod cli;
pub mod service;
