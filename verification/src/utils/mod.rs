//! What the commands share.

pub mod process;
