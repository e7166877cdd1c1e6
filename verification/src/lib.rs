//! Hypomnema: heading-aware Markdown chunking, search-request handling and
//! vault control-plane rules, with their contracts proved by Verus.

pub mod text;
pub mod chunk;
pub mod diagnostics;
pub mod control_plane;
pub mod api;
pub mod config;
pub mod logging;
pub mod events;
pub mod embedding;
pub mod indexer;
pub mod legacy_state_migration;
pub mod cli;
pub mod client_text;
pub mod paths;
pub mod walk;
