//! Package management for a game-server workspace: version constraints,
//! classification of archive contents, an integrity cache, content hashing and
//! the ledger of installed packages.

pub mod build;
pub mod cache;
pub mod cli;
pub mod commands;
pub mod compiler;
pub mod names;
pub mod package;
pub mod paths;
pub mod result;
pub mod security;
pub mod text;
pub mod utils;
