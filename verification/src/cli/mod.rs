//! The commands of the tool as values: what the user asked for, before
//! anything is done about it.

pub mod parser;

use crate::commands::CommandType;
use vstd::prelude::*;

verus! {

/// What the user asked the tool to do.
#[derive(Debug, Clone)]
pub struct Cli {
    command: Commands,
}

/// The commands of the tool.
#[derive(Debug, Clone)]
pub enum Commands {
    /// Run the server.
    Run { server_path: Option<String> },
    /// Build the project.
    Build { config: Option<String>, verbose: bool, force_download: bool, update_config: bool },
    /// Set the project up with a default configuration.
    Setup { force: bool },
    /// Install a component.
    Install { component: InstallComponent },
    /// Manage packages.
    Package { action: PackageAction },
}

/// What can be installed.
#[derive(Debug, Clone)]
pub enum InstallComponent {
    Compiler { version: Option<String>, force: bool },
}

/// What can be done with packages.
#[derive(Debug, Clone)]
pub enum PackageAction {
    /// Install one package, written `owner/repo` or `owner/repo=version`, or
    /// all declared packages.
    Install { package: Option<String>, target: Option<String> },
    Remove { package: String },
    List,
    Check,
    /// Update one package, or all of them.
    Update { package: Option<String>, all: bool },
}

/// What a command comes to: a command of the tool itself, or an action on
/// packages.
#[derive(Debug, Clone)]
pub enum Dispatch {
    Command(CommandType),
    Package(PackageAction),
}

impl Cli {
    /// The command that was asked for.
    pub closed spec fn asked(&self) -> Commands {
        self.command
    }

    /// The request to run `command`.
    pub fn new(command: Commands) -> (r: Cli)
        ensures
            r.asked() == command,
    {
        Cli { command }
    }

    /// The command that was asked for.
    pub fn command(&self) -> (r: &Commands)
        ensures
            *r == self.asked(),
    {
        &self.command
    }

    /// What the command comes to.
    pub fn execute(self) -> (r: Dispatch)
        ensures
            match self.asked() {
                Commands::Run { server_path } => r == Dispatch::Command(
                    CommandType::Run { server_path },
                ),
                Commands::Build { config, verbose, force_download, update_config } => r
                    == Dispatch::Command(
                    CommandType::Build { config, verbose, force_download, update_config },
                ),
                Commands::Setup { force } => r == Dispatch::Command(CommandType::Setup { force }),
                Commands::Install { component: InstallComponent::Compiler { version, force } } => r
                    == Dispatch::Command(CommandType::InstallCompiler { version, force }),
                Commands::Package { action } => r == Dispatch::Package(action),
            },
    {
        match self.command {
            Commands::Run { server_path } => Dispatch::Command(CommandType::Run { server_path }),
            Commands::Build { config, verbose, force_download, update_config } => Dispatch::Command(
                CommandType::Build { config, verbose, force_download, update_config },
            ),
            Commands::Setup { force } => Dispatch::Command(CommandType::Setup { force }),
            Commands::Install { component } => match component {
                InstallComponent::Compiler { version, force } => Dispatch::Command(
                    CommandType::InstallCompiler { version, force },
                ),
            },
            Commands::Package { action } => Dispatch::Package(action),
        }
    }
}

} // verus!
