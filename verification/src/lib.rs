//! Verified core of MCPanel.

pub mod commands;
pub mod db;
pub mod error;
pub mod fixture;
pub mod import;
pub mod json;
pub mod lifecycle;
pub mod process;
pub mod protocol;
pub mod secrets;
pub mod server;
pub mod state;
pub mod stream;
pub mod strmap;
pub mod text;
