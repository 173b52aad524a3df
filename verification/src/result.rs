//! The error type of the crate.

use vstd::prelude::*;
use vstd::string::StringExecFns;

verus! {

/// What can go wrong, by category. Each variant carries a message for the
/// user.
#[derive(Debug, Clone)]
pub enum OpenCliError {
    /// A failure of the file system or of the operating system.
    Io(String),
    /// A network, extraction or hashing failure.
    Process(String),
    /// A malformed version, constraint, pattern or target.
    Config(String),
    /// A failure of the game server.
    Server(String),
    /// A missing release, version, asset, file or executable.
    NotFound(String),
    /// The ledger or the configuration could not be read.
    TomlParse(String),
    /// The ledger or the configuration could not be written.
    TomlSerialize(String),
    /// The auxiliary JSON configuration could not be read or written.
    JsonError(String),
}

impl OpenCliError {
    /// The message for a compiler that is not where it should be.
    pub const COMPILER_NOT_FOUND: &'static str = "Compiler binary not found";

    /// The message for a download that failed.
    pub const DOWNLOAD_FAILED: &'static str = "Download failed";

    /// The message for an archive that could not be unpacked.
    pub const EXTRACTION_FAILED: &'static str = "Extraction failed";

    /// The message for a configuration that cannot be read.
    pub const INVALID_CONFIG: &'static str = "Invalid configuration format";

    /// The message for a server that did not start.
    pub const SERVER_START_FAILED: &'static str = "Failed to start server";

    /// The message that the error carries.
    pub open spec fn message(self) -> Seq<char> {
        match self {
            OpenCliError::Io(m) => m@,
            OpenCliError::Process(m) => m@,
            OpenCliError::Config(m) => m@,
            OpenCliError::Server(m) => m@,
            OpenCliError::NotFound(m) => m@,
            OpenCliError::TomlParse(m) => m@,
            OpenCliError::TomlSerialize(m) => m@,
            OpenCliError::JsonError(m) => m@,
        }
    }

    /// What stands before the message when the error is shown.
    pub open spec fn label(self) -> Seq<char> {
        match self {
            OpenCliError::Io(_) => "IO error: "@,
            OpenCliError::Process(_) => "Process error: "@,
            OpenCliError::Config(_) => "Config error: "@,
            OpenCliError::Server(_) => "Server error: "@,
            OpenCliError::NotFound(_) => "Not found: "@,
            OpenCliError::TomlParse(_) => "TOML parse error: "@,
            OpenCliError::TomlSerialize(_) => "TOML serialize error: "@,
            OpenCliError::JsonError(_) => "JSON error: "@,
        }
    }

    /// A `Process` error with the given message.
    pub fn process(msg: &str) -> (e: Self)
        ensures
            e is Process,
            e.message() == msg@,
    {
        OpenCliError::Process(String::from_str(msg))
    }

    /// A `Config` error with the given message.
    pub fn config(msg: &str) -> (e: Self)
        ensures
            e is Config,
            e.message() == msg@,
    {
        OpenCliError::Config(String::from_str(msg))
    }

    /// A `Server` error with the given message.
    pub fn server(msg: &str) -> (e: Self)
        ensures
            e is Server,
            e.message() == msg@,
    {
        OpenCliError::Server(String::from_str(msg))
    }

    /// A `NotFound` error with the given message.
    pub fn not_found(msg: &str) -> (e: Self)
        ensures
            e is NotFound,
            e.message() == msg@,
    {
        OpenCliError::NotFound(String::from_str(msg))
    }

    /// The error as it is shown to the user: the category's label, then the
    /// message.
    pub fn to_string(&self) -> (s: String)
        ensures
            s@ == self.label() + self.message(),
    {
        let (label, m) = match self {
            OpenCliError::Io(m) => ("IO error: ", m),
            OpenCliError::Process(m) => ("Process error: ", m),
            OpenCliError::Config(m) => ("Config error: ", m),
            OpenCliError::Server(m) => ("Server error: ", m),
            OpenCliError::NotFound(m) => ("Not found: ", m),
            OpenCliError::TomlParse(m) => ("TOML parse error: ", m),
            OpenCliError::TomlSerialize(m) => ("TOML serialize error: ", m),
            OpenCliError::JsonError(m) => ("JSON error: ", m),
        };
        String::from_str(label).concat(m.as_str())
    }
}

/// `head` followed by `tail`, as a new string.
pub fn join2(head: &str, tail: &str) -> (s: String)
    ensures
        s@ == head@ + tail@,
{
    String::from_str(head).concat(tail)
}

} // verus!
