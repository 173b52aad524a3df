//! What a workspace declares: how it is built and which packages it uses.

use crate::result::OpenCliError;
use crate::text::same_str;
use vstd::prelude::*;

verus! {

/// Where the binaries of a package are installed.
#[derive(Debug, Clone, Copy, PartialEq, Eq, Structural)]
pub enum PackageTarget {
    Components,
    Plugins,
}

/// The include paths of a build.
#[derive(Debug, Clone)]
pub struct BuildIncludes {
    pub paths: Vec<String>,
}

/// The arguments handed to the compiler.
#[derive(Debug, Clone)]
pub struct BuildArgs {
    pub args: Vec<String>,
}

/// How a workspace is built.
#[derive(Debug, Clone)]
pub struct Build {
    pub entry_file: String,
    pub output_file: String,
    pub compiler_version: String,
    pub includes: Option<BuildIncludes>,
    pub args: Option<BuildArgs>,
}

/// What a workspace says of one package: a version constraint, and
/// optionally where its binaries go.
#[derive(Debug, Clone)]
pub enum PackageSpec {
    Simple(String),
    Detailed { version: String, target: Option<PackageTarget> },
}

impl PackageSpec {
    /// The version constraint, as written.
    pub fn version(&self) -> (r: &str)
        ensures
            r@ == self.version_text(),
    {
        match self {
            PackageSpec::Simple(version) => version.as_str(),
            PackageSpec::Detailed { version, .. } => version.as_str(),
        }
    }

    /// The version or constraint that the declaration asks for.
    pub open spec fn version_text(&self) -> Seq<char> {
        match self {
            PackageSpec::Simple(version) => version@,
            PackageSpec::Detailed { version, .. } => version@,
        }
    }

    /// The target that the declaration names, `None` where it names none.
    pub open spec fn target_of(&self) -> Option<PackageTarget> {
        match self {
            PackageSpec::Simple(_) => None,
            PackageSpec::Detailed { target, .. } => *target,
        }
    }

    /// Where the binaries go, where the workspace says so.
    pub fn target(&self) -> (r: Option<PackageTarget>)
        ensures
            r == self.target_of(),
    {
        match self {
            PackageSpec::Simple(_) => None,
            PackageSpec::Detailed { target, .. } => *target,
        }
    }

    /// A declaration of a version alone.
    pub fn new_simple(version: &str) -> (r: PackageSpec)
        ensures
            r.version_text() == version@,
            r.target_of() is None,
            r is Simple,
    {
        PackageSpec::Simple(version.to_owned())
    }

    /// A declaration of a version and, where given, a target.
    pub fn new_detailed(version: &str, target: Option<PackageTarget>) -> (r: PackageSpec)
        ensures
            r.version_text() == version@,
            r.target_of() == target,
            r is Detailed,
    {
        PackageSpec::Detailed { version: version.to_owned(), target }
    }
}

/// A declared package: its name and what the workspace says of it.
#[derive(Debug, Clone)]
pub struct PackageEntry {
    pub name: String,
    pub spec: PackageSpec,
}

/// The configuration of a workspace. The package table holds each name once.
#[derive(Debug, Clone)]
pub struct BuildConfig {
    pub build: Build,
    pub packages: Option<Vec<PackageEntry>>,
}

/// No name occurs twice.
pub open spec fn distinct_names(entries: Seq<PackageEntry>) -> bool {
    forall|i: int, j: int|
        0 <= i < j < entries.len() ==> (#[trigger] entries[i]).name@ != (#[trigger] entries[j]).name@
}

/// The index of the first entry named `name`.
pub fn find_entry(entries: &Vec<PackageEntry>, name: &str) -> (r: Option<usize>)
    ensures
        match r {
            Some(i) => i < entries.len() && entries[i as int].name@ == name@ && forall|k: int|
                0 <= k < i ==> entries[k].name@ != name@,
            None => forall|k: int| 0 <= k < entries.len() ==> entries[k].name@ != name@,
        },
{
    let mut i: usize = 0;
    while i < entries.len()
        invariant
            i <= entries.len(),
            forall|k: int| 0 <= k < i ==> entries[k].name@ != name@,
        decreases entries.len() - i,
    {
        if same_str(entries[i].name.as_str(), name) {
            return Some(i);
        }
        i += 1;
    }
    None
}

impl BuildConfig {
    /// The configuration is well formed: no package is declared twice.
    pub open spec fn wf(&self) -> bool {
        self.packages matches Some(entries) ==> distinct_names(entries@)
    }

    /// The declared packages; none where the table is missing.
    pub open spec fn entries(&self) -> Seq<PackageEntry> {
        match self.packages {
            Some(entries) => entries@,
            None => Seq::empty(),
        }
    }

    /// `name` is declared.
    pub open spec fn declares(&self, name: Seq<char>) -> bool {
        exists|i: int| 0 <= i < self.entries().len() && self.entries()[i].name@ == name
    }

    /// Checks that the entry file, the output file and the compiler version
    /// are given. Fails with a `Config` error where one of them is empty.
    pub fn validate(&self) -> (r: Result<(), OpenCliError>)
        ensures
            r is Ok <==> self.build.entry_file@.len() > 0 && self.build.output_file@.len() > 0
                && self.build.compiler_version@.len() > 0,
            r matches Err(e) ==> e is Config && e.message() == (if self.build.entry_file@.len()
                == 0 {
                "Entry file cannot be empty"@
            } else if self.build.output_file@.len() == 0 {
                "Output file cannot be empty"@
            } else {
                "Compiler version cannot be empty"@
            }),
    {
        if self.build.entry_file.as_str().is_empty() {
            return Err(OpenCliError::config("Entry file cannot be empty"));
        }
        if self.build.output_file.as_str().is_empty() {
            return Err(OpenCliError::config("Output file cannot be empty"));
        }
        if self.build.compiler_version.as_str().is_empty() {
            return Err(OpenCliError::config("Compiler version cannot be empty"));
        }
        Ok(())
    }

    /// Declares the package `name`, replacing what was said of it before.
    pub fn add_package(&mut self, name: String, spec: PackageSpec)
        requires
            old(self).wf(),
        ensures
            final(self).wf(),
            final(self).build == old(self).build,
            final(self).packages is Some,
            final(self).declares(name@),
            forall|i: int|
                0 <= i < final(self).entries().len() && final(self).entries()[i].name@ == name@
                    ==> final(self).entries()[i].spec == spec,
            forall|i: int|
                0 <= i < old(self).entries().len() && old(self).entries()[i].name@ != name@
                    ==> final(self).entries().contains(old(self).entries()[i]),
            forall|i: int|
                0 <= i < final(self).entries().len() && final(self).entries()[i].name@ != name@
                    ==> old(self).entries().contains(final(self).entries()[i]),
    {
        let mut entries = match self.packages.take() {
            Some(entries) => entries,
            None => Vec::new(),
        };
        let ghost before = entries@;
        match find_entry(&entries, name.as_str()) {
            Some(i) => {
                let ghost n = name@;
                entries.set(i, PackageEntry { name, spec });
                proof {
                    assert forall|k: int|
                        0 <= k < before.len() && before[k].name@ != n implies entries@.contains(
                        before[k],
                    ) by {
                        assert(entries@[k] == before[k]);
                    }
                    assert forall|k: int|
                        0 <= k < entries@.len() && entries@[k].name@ != n implies before.contains(
                        entries@[k],
                    ) by {
                        assert(entries@[k] == before[k]);
                    }
                    assert(entries@[i as int].name@ == n);
                }
            },
            None => {
                let ghost n = name@;
                entries.push(PackageEntry { name, spec });
                proof {
                    assert forall|k: int|
                        0 <= k < before.len() && before[k].name@ != n implies entries@.contains(
                        before[k],
                    ) by {
                        assert(entries@[k] == before[k]);
                    }
                    assert forall|k: int|
                        0 <= k < entries@.len() && entries@[k].name@ != n implies before.contains(
                        entries@[k],
                    ) by {
                        assert(entries@[k] == before[k]);
                    }
                    assert(entries@[before.len() as int].name@ == n);
                }
            },
        }
        self.packages = Some(entries);
    }

    /// Takes the package `name` out of the table. Returns whether it was
    /// declared.
    pub fn remove_package(&mut self, name: &str) -> (r: bool)
        requires
            old(self).wf(),
        ensures
            final(self).wf(),
            final(self).build == old(self).build,
            r == old(self).declares(name@),
            !final(self).declares(name@),
            final(self).packages is Some == old(self).packages is Some,
            forall|i: int|
                0 <= i < old(self).entries().len() && old(self).entries()[i].name@ != name@
                    ==> final(self).entries().contains(old(self).entries()[i]),
            forall|i: int|
                0 <= i < final(self).entries().len() ==> old(self).entries().contains(
                    final(self).entries()[i],
                ),
    {
        match self.packages.take() {
            Some(mut entries) => {
                let ghost before = entries@;
                let found = find_entry(&entries, name);
                let r = match found {
                    Some(i) => {
                        entries.remove(i);
                        proof {
                            let p = i as int;
                            assert forall|k: int| 0 <= k < entries@.len() implies (
                            #[trigger] entries@[k]).name@ != name@ && before.contains(entries@[k]) by {
                                if k < p {
                                    assert(entries@[k] == before[k]);
                                } else {
                                    assert(entries@[k] == before[k + 1]);
                                }
                            }
                            assert forall|k: int|
                                0 <= k < before.len() && before[k].name@
                                    != name@ implies entries@.contains(before[k]) by {
                                if k < p {
                                    assert(entries@[k] == before[k]);
                                } else {
                                    assert(entries@[k - 1] == before[k]);
                                }
                            }
                            assert forall|a: int, b: int| 0 <= a < b < entries@.len() implies (
                            #[trigger] entries@[a]).name@ != (#[trigger] entries@[b]).name@ by {
                                let a0 = if a < p { a } else { a + 1 };
                                let b0 = if b < p { b } else { b + 1 };
                                assert(entries@[a] == before[a0] && entries@[b] == before[b0]);
                            }
                        }
                        true
                    },
                    None => {
                        proof {
                            assert forall|k: int|
                                0 <= k < before.len() implies entries@.contains(before[k]) by {
                                assert(entries@[k] == before[k]);
                            }
                        }
                        false
                    },
                };
                self.packages = Some(entries);
                r
            },
            None => false,
        }
    }

    /// Whether no package is declared twice: what a configuration read from
    /// elsewhere has to be checked for before packages are added or removed.
    pub fn is_well_formed(&self) -> (r: bool)
        ensures
            r == self.wf(),
    {
        match &self.packages {
            None => true,
            Some(entries) => {
                let mut j: usize = 0;
                while j < entries.len()
                    invariant
                        self.packages == Some(*entries),
                        j <= entries@.len(),
                        forall|a: int, b: int|
                            0 <= a < b < j ==> (#[trigger] entries@[a]).name@ != (
                            #[trigger] entries@[b]).name@,
                    decreases entries.len() - j,
                {
                    let mut i: usize = 0;
                    while i < j
                        invariant
                            self.packages == Some(*entries),
                            i <= j < entries@.len(),
                            forall|a: int|
                                0 <= a < i ==> (#[trigger] entries@[a]).name@
                                    != entries@[j as int].name@,
                        decreases j - i,
                    {
                        if same_str(entries[i].name.as_str(), entries[j].name.as_str()) {
                            return false;
                        }
                        i += 1;
                    }
                    j += 1;
                }
                true
            },
        }
    }

    /// The declared packages, `None` where the configuration has no table of
    /// packages.
    pub fn get_packages(&self) -> (r: Option<&Vec<PackageEntry>>)
        ensures
            match r {
                Some(entries) => self.packages == Some(*entries),
                None => self.packages is None,
            },
    {
        self.packages.as_ref()
    }

    /// The include paths of the build; none where the configuration names
    /// none.
    pub fn get_include_paths(&self) -> (r: Vec<String>)
        ensures
            match self.build.includes {
                Some(inc) => crate::names::texts(r@) == crate::names::texts(inc.paths@),
                None => r@.len() == 0,
            },
    {
        match &self.build.includes {
            Some(inc) => {
                let mut out: Vec<String> = Vec::new();
                let mut i: usize = 0;
                while i < inc.paths.len()
                    invariant
                        i <= inc.paths.len(),
                        out.len() == i,
                        forall|k: int| 0 <= k < i ==> out[k]@ == inc.paths[k]@,
                    decreases inc.paths.len() - i,
                {
                    out.push(inc.paths[i].clone());
                    i += 1;
                }
                assert(crate::names::texts(out@) =~= crate::names::texts(inc.paths@));
                out
            },
            None => Vec::new(),
        }
    }
}

impl Default for BuildConfig {
    /// The configuration that a new workspace starts with.
    fn default() -> (r: BuildConfig)
        ensures
            r.wf(),
            r.packages is None,
            r.build.entry_file@ == "gamemode.pwn"@,
            r.build.output_file@ == "gamemode.amx"@,
            r.build.compiler_version@ == "v3.10.11"@,
            r.build.includes matches Some(inc) && crate::names::texts(inc.paths@) == seq![
                "include"@,
                "qawno/include"@,
            ],
            r.build.args matches Some(a) && crate::names::texts(a.args@) == seq![
                "-d3"@,
                "-;+"@,
                "-(+"@,
                "-\\+"@,
                "-Z+"@,
            ],
    {
        let mut paths: Vec<String> = Vec::new();
        paths.push("include".to_owned());
        paths.push("qawno/include".to_owned());
        assert(crate::names::texts(paths@) =~= seq!["include"@, "qawno/include"@]);
        let mut args: Vec<String> = Vec::new();
        args.push("-d3".to_owned());
        args.push("-;+".to_owned());
        args.push("-(+".to_owned());
        args.push("-\\+".to_owned());
        args.push("-Z+".to_owned());
        assert(crate::names::texts(args@) =~= seq!["-d3"@, "-;+"@, "-(+"@, "-\\+"@, "-Z+"@]);
        BuildConfig {
            build: Build {
                entry_file: "gamemode.pwn".to_owned(),
                output_file: "gamemode.amx".to_owned(),
                compiler_version: "v3.10.11".to_owned(),
                includes: Some(BuildIncludes { paths }),
                args: Some(BuildArgs { args }),
            },
            packages: None,
        }
    }
}

} // verus!
