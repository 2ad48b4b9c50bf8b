//! Editor logic for Line 6 HX-family pedals.

pub mod text;
pub mod hex;
pub mod update;
pub mod import;
pub mod wire;
pub mod routing;
pub mod editor;
pub mod backup;
pub mod cli;
pub mod dto;
pub mod history;
pub mod json;
pub mod json_text;
pub mod backup_json;
pub mod stream;
pub mod grid;
pub mod catalog;
pub mod picker;
pub mod route;
pub mod error;
