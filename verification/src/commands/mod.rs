//! The commands of the tool and what they decide before they act.

pub mod compile;
pub mod install;
pub mod setup;

use crate::build::config::PackageTarget;
use crate::cli::PackageAction;
use crate::package::workspace::{parse_target, target_named};
use crate::text::{chars_of, find_char, index_of_char, string_of};
use vstd::prelude::*;

verus! {

/// A command of the tool itself.
#[derive(Debug, Clone)]
pub enum CommandType {
    Run { server_path: Option<String> },
    Build { config: Option<String>, verbose: bool, force_download: bool, update_config: bool },
    Setup { force: bool },
    InstallCompiler { version: Option<String>, force: bool },
}

/// What an action on packages asks of the package manager.
#[derive(Debug, Clone)]
pub enum PackageRequest {
    /// Install one package, under a constraint if one was written.
    Install { repo: String, version: Option<String>, target: Option<PackageTarget> },
    /// Install every declared package.
    InstallAll,
    Remove { repo: String },
    List,
    Check,
    Update { repo: String },
    /// Nothing was named: there is nothing to do but to say so.
    Nothing,
}

/// Turns what the user asked for into commands.
#[derive(Debug, Clone, Copy, Default)]
pub struct CommandExecutor {}

/// The first index at or after `i` that does not hold `c`.
pub open spec fn skip_char(s: Seq<char>, c: char, i: int) -> int
    decreases s.len() - i,
{
    if 0 <= i < s.len() && s[i] == c {
        skip_char(s, c, i + 1)
    } else {
        i
    }
}

/// The least `j >= lo` such that everything in `s[j..hi]` is `c`.
pub open spec fn skip_char_back(s: Seq<char>, c: char, lo: int, hi: int) -> int
    decreases hi - lo,
{
    if lo < hi <= s.len() && s[hi - 1] == c {
        skip_char_back(s, c, lo, hi - 1)
    } else {
        hi
    }
}

/// `s` without the characters `c` at its beginning and at its end.
pub open spec fn trim_matches(s: Seq<char>, c: char) -> Seq<char> {
    let lo = skip_char(s, c, 0);
    s.subrange(lo, skip_char_back(s, c, lo, s.len() as int))
}

/// The repository and the version that a package argument names: what stands
/// before the first `=` and what stands behind it, without the quotes around
/// it; the whole argument and no version where there is no `=`.
pub open spec fn package_argument(arg: Seq<char>) -> (Seq<char>, Option<Seq<char>>) {
    let k = index_of_char(arg, '=', 0);
    if 0 <= k < arg.len() {
        (
            arg.subrange(0, k),
            Some(trim_matches(trim_matches(arg.subrange(k + 1, arg.len() as int), '"'), '\'')),
        )
    } else {
        (arg, None)
    }
}

fn trim_char(s: &[char], c: char) -> (r: Vec<char>)
    ensures
        r@ == trim_matches(s@, c),
{
    let mut lo: usize = 0;
    while lo < s.len() && s[lo] == c
        invariant
            lo <= s.len(),
            skip_char(s@, c, 0) == skip_char(s@, c, lo as int),
        decreases s.len() - lo,
    {
        lo += 1;
    }
    let mut hi: usize = s.len();
    while hi > lo && s[hi - 1] == c
        invariant
            lo <= hi <= s.len(),
            skip_char_back(s@, c, lo as int, s.len() as int) == skip_char_back(
                s@,
                c,
                lo as int,
                hi as int,
            ),
        decreases hi - lo,
    {
        hi -= 1;
    }
    crate::text::slice_of(s, lo, hi)
}

impl CommandExecutor {
    /// The executor; it holds no state.
    pub fn new() -> (r: CommandExecutor) {
        CommandExecutor {  }
    }

    /// The command to run the server.
    pub fn run_server(&self, server_path: Option<String>) -> (r: CommandType)
        ensures
            r == (CommandType::Run { server_path }),
    {
        CommandType::Run { server_path }
    }

    /// The command to build the project.
    pub fn build_project(
        &self,
        config: Option<String>,
        verbose: bool,
        force_download: bool,
        update_config: bool,
    ) -> (r: CommandType)
        ensures
            r == (CommandType::Build { config, verbose, force_download, update_config }),
    {
        CommandType::Build { config, verbose, force_download, update_config }
    }

    /// The command to set the project up.
    pub fn setup_project(&self, force: bool) -> (r: CommandType)
        ensures
            r == (CommandType::Setup { force }),
    {
        CommandType::Setup { force }
    }

    /// The command to install the compiler.
    pub fn install_compiler(&self, version: Option<String>, force: bool) -> (r: CommandType)
        ensures
            r == (CommandType::InstallCompiler { version, force }),
    {
        CommandType::InstallCompiler { version, force }
    }

    /// The repository and the version that a package argument names.
    pub fn parse_package_argument(&self, arg: &str) -> (r: (String, Option<String>))
        ensures
            r.0@ == package_argument(arg@).0,
            match r.1 {
                Some(v) => package_argument(arg@).1 == Some(v@),
                None => package_argument(arg@).1 is None,
            },
    {
        let chars = chars_of(arg);
        let s = chars.as_slice();
        let k = find_char(s, '=', 0);
        if k < s.len() {
            let rest = &s[k + 1..s.len()];
            let unquoted = trim_char(rest, '"');
            let version = trim_char(unquoted.as_slice(), '\'');
            (string_of(&s[0..k]), Some(string_of(version.as_slice())))
        } else {
            (arg.to_owned(), None)
        }
    }

    /// What an action on packages asks of the package manager. A target
    /// that names neither folder counts as no target.
    pub fn handle_package_action(&self, action: PackageAction) -> (r: PackageRequest)
        ensures
            match action {
                PackageAction::Install { package: Some(arg), target } => r matches PackageRequest::Install {
                    repo,
                    version,
                    target: t,
                } && repo@ == package_argument(arg@).0 && (match version {
                    Some(v) => package_argument(arg@).1 == Some(v@),
                    None => package_argument(arg@).1 is None,
                }) && t == (match target {
                    Some(text) => target_named(text@),
                    None => None,
                }),
                PackageAction::Install { package: None, .. } => r is InstallAll,
                PackageAction::Remove { package } => r matches PackageRequest::Remove { repo }
                    && repo@ == package@,
                PackageAction::List => r is List,
                PackageAction::Check => r is Check,
                PackageAction::Update { package, all } => if all {
                    r is InstallAll
                } else {
                    match package {
                        Some(p) => r matches PackageRequest::Update { repo } && repo@ == p@,
                        None => r is Nothing,
                    }
                },
            },
    {
        match action {
            PackageAction::Install { package, target } => match package {
                Some(arg) => {
                    let (repo, version) = self.parse_package_argument(arg.as_str());
                    let target = match target {
                        Some(text) => parse_target(text.as_str()),
                        None => None,
                    };
                    PackageRequest::Install { repo, version, target }
                },
                None => PackageRequest::InstallAll,
            },
            PackageAction::Remove { package } => PackageRequest::Remove { repo: package },
            PackageAction::List => PackageRequest::List,
            PackageAction::Check => PackageRequest::Check,
            PackageAction::Update { package, all } => if all {
                PackageRequest::InstallAll
            } else {
                match package {
                    Some(repo) => PackageRequest::Update { repo },
                    None => PackageRequest::Nothing,
                }
            },
        }
    }
}

} // verus!
