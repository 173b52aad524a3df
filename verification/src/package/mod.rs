//! Packages: versions, releases, the classification of their files, the
//! ledger of what is installed and the decisions of an installation.

pub mod archive;
pub mod assets;
pub mod config_manager;
pub mod downloader;
pub mod lock;
pub mod manager;
pub mod version;
pub mod workspace;
