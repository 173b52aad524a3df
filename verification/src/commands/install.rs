//! Installing the compiler.

use vstd::prelude::*;

verus! {

/// The version of the compiler that is installed where none is named.
pub const DEFAULT_COMPILER_VERSION: &'static str = "v3.10.11";

/// Decides what an installation of the compiler installs.
#[derive(Debug, Clone, Copy, Default)]
pub struct InstallCommand {}

impl InstallCommand {
    /// The command; it holds no state.
    pub fn new() -> (r: InstallCommand) {
        InstallCommand {  }
    }

    /// The version to install: the one named, or the default.
    pub fn execute_compiler(&self, version: Option<String>) -> (r: String)
        ensures
            match version {
                Some(v) => r@ == v@,
                None => r@ == DEFAULT_COMPILER_VERSION@,
            },
    {
        match version {
            Some(v) => v,
            None => DEFAULT_COMPILER_VERSION.to_owned(),
        }
    }
}

} // verus!
