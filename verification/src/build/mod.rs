//! The build configuration of a workspace.

pub mod config;
