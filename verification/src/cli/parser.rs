//! Checks on what the user wrote.

use crate::result::{join2, OpenCliError};
use vstd::prelude::*;

verus! {

/// Checks arguments of the command line.
#[derive(Debug, Clone, Copy)]
pub struct CliParser {}

impl CliParser {
    /// The path of a configuration file, given whether something exists
    /// there and whether it is a file.
    ///
    /// Fails with `NotFound` where nothing exists at the path, and with a
    /// `Config` error where what exists is no file.
    pub fn validate_config_path(path: &str, exists: bool, is_file: bool) -> (r: Result<
        String,
        OpenCliError,
    >)
        ensures
            !exists ==> (r matches Err(e) && e is NotFound && e.message()
                == "Config file not found: "@ + path@),
            exists && !is_file ==> (r matches Err(e) && e is Config && e.message()
                == "Path is not a file"@),
            exists && is_file ==> (r matches Ok(p) && p@ == path@),
    {
        if !exists {
            return Err(OpenCliError::NotFound(join2("Config file not found: ", path)));
        }
        if !is_file {
            return Err(OpenCliError::config("Path is not a file"));
        }
        Ok(path.to_owned())
    }

    /// A port number: any but 0.
    ///
    /// Fails with a `Config` error on 0.
    pub fn validate_port(port: u16) -> (r: Result<u16, OpenCliError>)
        ensures
            port != 0 ==> r == Ok::<u16, OpenCliError>(port),
            port == 0 ==> (r matches Err(e) && e is Config && e.message()
                == "Port must be between 1 and 65535"@),
    {
        if port >= 1 {
            Ok(port)
        } else {
            Err(OpenCliError::config("Port must be between 1 and 65535"))
        }
    }
}

} // verus!
