//! The compiler: where it comes from and how it is unpacked.

pub mod config;
pub mod downloader;
pub mod manager;
