//! The folders of a workspace.

use crate::build::config::PackageTarget;
use crate::names::texts;
use crate::paths::{join, join_path};
use crate::result::{join2, OpenCliError};
use crate::text::{chars_of, lowercase, same, to_lowercase};
use vstd::prelude::*;

verus! {

/// Knows where the folders of a workspace are.
#[derive(Debug, Clone)]
pub struct WorkspaceDetector {
    root_path: String,
}

/// The folders of a workspace.
#[derive(Debug, Clone)]
pub struct WorkspaceInfo {
    pub root: String,
    pub components: String,
    pub plugins: String,
}

/// The target that a text names, in whatever case: `components` or
/// `plugins`.
pub open spec fn target_named(text: Seq<char>) -> Option<PackageTarget> {
    if lowercase(text) == "components"@ {
        Some(PackageTarget::Components)
    } else if lowercase(text) == "plugins"@ {
        Some(PackageTarget::Plugins)
    } else {
        None
    }
}

/// The target that a text names.
pub fn parse_target(text: &str) -> (r: Option<PackageTarget>)
    ensures
        r == target_named(text@),
{
    let chars = chars_of(text);
    let lower = to_lowercase(chars.as_slice());
    let components = chars_of("components");
    let plugins = chars_of("plugins");
    if same(lower.as_slice(), components.as_slice()) {
        Some(PackageTarget::Components)
    } else if same(lower.as_slice(), plugins.as_slice()) {
        Some(PackageTarget::Plugins)
    } else {
        None
    }
}

impl WorkspaceDetector {
    /// The root of the workspace.
    pub closed spec fn root(&self) -> Seq<char> {
        self.root_path@
    }

    /// For the workspace with the given root.
    pub fn new(root_path: &str) -> (r: WorkspaceDetector)
        ensures
            r.root() == root_path@,
    {
        WorkspaceDetector { root_path: root_path.to_owned() }
    }

    /// The folder for components: `components` in the root.
    pub fn detect_components_folder(&self) -> (r: String)
        ensures
            r@ == join_path(self.root(), "components"@),
    {
        join(self.root_path.as_str(), "components")
    }

    /// The folder for plugins: `plugins` in the root.
    pub fn detect_plugins_folder(&self) -> (r: String)
        ensures
            r@ == join_path(self.root(), "plugins"@),
    {
        join(self.root_path.as_str(), "plugins")
    }

    /// The folder of the target that `target` names.
    ///
    /// Fails with a `Config` error where the text names no target.
    pub fn get_target_folder(&self, target: &str) -> (r: Result<String, OpenCliError>)
        ensures
            match target_named(target@) {
                Some(PackageTarget::Components) => r matches Ok(p) && p@ == join_path(
                    self.root(),
                    "components"@,
                ),
                Some(PackageTarget::Plugins) => r matches Ok(p) && p@ == join_path(
                    self.root(),
                    "plugins"@,
                ),
                None => r matches Err(e) && e is Config && e.message()
                    == "Unknown target folder: "@ + target@,
            },
    {
        match parse_target(target) {
            Some(PackageTarget::Components) => Ok(self.detect_components_folder()),
            Some(PackageTarget::Plugins) => Ok(self.detect_plugins_folder()),
            None => Err(OpenCliError::Config(join2("Unknown target folder: ", target))),
        }
    }

    /// The folders that a workspace must have, in the order in which they
    /// are made: that for components, then that for plugins.
    pub fn ensure_workspace_structure(&self) -> (r: Vec<String>)
        ensures
            texts(r@) == seq![
                join_path(self.root(), "components"@),
                join_path(self.root(), "plugins"@),
            ],
    {
        let mut out: Vec<String> = Vec::new();
        out.push(self.detect_components_folder());
        out.push(self.detect_plugins_folder());
        assert(texts(out@) =~= seq![
            join_path(self.root(), "components"@),
            join_path(self.root(), "plugins"@),
        ]);
        out
    }

    /// The folders of the workspace.
    pub fn get_workspace_info(&self) -> (r: WorkspaceInfo)
        ensures
            r.root@ == self.root(),
            r.components@ == join_path(self.root(), "components"@),
            r.plugins@ == join_path(self.root(), "plugins"@),
    {
        WorkspaceInfo {
            root: self.root_path.clone(),
            components: join(self.root_path.as_str(), "components"),
            plugins: join(self.root_path.as_str(), "plugins"),
        }
    }
}

impl WorkspaceInfo {
    /// The folder of a target.
    pub open spec fn folder(&self, target: PackageTarget) -> Seq<char> {
        match target {
            PackageTarget::Components => self.components@,
            PackageTarget::Plugins => self.plugins@,
        }
    }

    /// The folder of the target that `target` names.
    ///
    /// Fails with a `Config` error where the text names no target.
    pub fn get_target_path(&self, target: &str) -> (r: Result<&String, OpenCliError>)
        ensures
            match target_named(target@) {
                Some(t) => r matches Ok(p) && p@ == self.folder(t),
                None => r matches Err(e) && e is Config && e.message()
                    == "Invalid target: "@ + target@,
            },
    {
        match parse_target(target) {
            Some(PackageTarget::Components) => Ok(&self.components),
            Some(PackageTarget::Plugins) => Ok(&self.plugins),
            None => Err(OpenCliError::Config(join2("Invalid target: ", target))),
        }
    }

    /// What is to be done with a workspace whose root exists or not: an
    /// error without its root.
    ///
    /// Fails with `NotFound` where the root does not exist.
    pub fn validate(&self, root_exists: bool) -> (r: Result<(), OpenCliError>)
        ensures
            r is Ok <==> root_exists,
            r matches Err(e) ==> e is NotFound && e.message() == "Workspace root not found"@,
    {
        if root_exists {
            Ok(())
        } else {
            Err(OpenCliError::not_found("Workspace root not found"))
        }
    }
}

} // verus!
