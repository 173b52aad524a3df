//! Setting a project up.

use crate::result::OpenCliError;
use vstd::prelude::*;

verus! {

/// Decides whether a project may be set up.
#[derive(Debug, Clone, Copy, Default)]
pub struct SetupCommand {}

impl SetupCommand {
    /// The command; it holds no state.
    pub fn new() -> (r: SetupCommand) {
        SetupCommand {  }
    }

    /// Whether the configuration may be written, given whether one exists.
    ///
    /// Fails with a `Config` error where a configuration exists and `force`
    /// is not set.
    pub fn execute(&self, force: bool, config_exists: bool) -> (r: Result<(), OpenCliError>)
        ensures
            r is Ok <==> (force || !config_exists),
            r matches Err(e) ==> e is Config && e.message()
                == "opencli.toml already exists. Use --force to overwrite."@,
    {
        if config_exists && !force {
            Err(OpenCliError::config("opencli.toml already exists. Use --force to overwrite."))
        } else {
            Ok(())
        }
    }
}

} // verus!
