//! Verified core of the `lst` list and note manager.

pub mod text;
pub mod lines;
pub mod list;
pub mod markdown;
pub mod edit;
pub mod paths;
pub mod places;
pub mod sync;
pub mod storage;
pub mod status;
pub mod server;
pub mod server_config;
pub mod crypto;
pub mod config;
pub mod parse;
pub mod commands;
pub mod frontends;
pub mod cli;
pub mod syncd;
pub mod list_ops;
pub mod notes;
pub mod resolve;
pub mod sorted;
pub mod theme;
pub mod auth;
