//! The decisions of installing, removing, updating and checking packages.
//!
//! Nothing here touches the disk or the network. Each operation is cut into
//! the decisions it makes, and each decision is a function from what is known
//! to what is to be done: whether a package has to be installed at all, which
//! files are copied where, what is hashed, which records the cache and the
//! ledger get, and what a check says of a package.

use crate::build::config::{find_entry, BuildConfig, PackageTarget};
use crate::cache::{entry_text, refusal, storable, without, CacheManager};
use crate::names::{append_names, is_sorted_set_of, sort_dedup, texts};
use crate::package::config_manager::ConfigManager;
use crate::package::downloader::{file_name, file_name_of, PackageDownloader, PackageFiles};
use crate::package::lock::{InstalledPackage, InstalledView, PackageLock};
use crate::package::version::{parse_constraint, VersionConstraint};
use crate::package::workspace::WorkspaceDetector;
use crate::paths::{join, join_path};
use crate::result::{join2, OpenCliError};
use crate::security::{argon2_phc, hash_outcome, phc_check, sha256, check_ok, SecurityManager};
use crate::text::{
    chars_of, contains, has, lowercase, push_all, same_str, string_of, to_lowercase,
};
use vstd::prelude::*;

verus! {

/// How an installation begins.
#[derive(Debug, Clone)]
pub enum InstallStart {
    /// The ledger has the package already, in this version: there is nothing
    /// to do.
    AlreadyInstalled(String),
    /// The package is to be resolved against this constraint.
    Resolve(VersionConstraint),
}

/// A file to copy.
#[derive(Debug, Clone)]
pub struct CopyOp {
    pub from: String,
    pub to: String,
}

/// What an installation copies, and the list of what is installed by it.
#[derive(Debug, Clone)]
pub struct InstallFiles {
    /// The copies, in the order in which they are made.
    pub copies: Vec<CopyOp>,
    /// The destinations, sorted, each once.
    pub installed: Vec<String>,
}

/// An installed file and what it holds.
#[derive(Debug, Clone)]
pub struct FileContent {
    pub path: String,
    pub content: Vec<u8>,
}

/// What the removal of a package asks for.
#[derive(Debug, Clone)]
pub struct RemovalPlan {
    /// The files to delete.
    pub files: Vec<String>,
    /// The names whose records leave the cache: the file names of the files
    /// that have one.
    pub cache_names: Vec<String>,
    /// Whether the package's plugins leave the list of legacy plugins.
    pub legacy_plugins: bool,
}

/// What an update of a package asks for: the removal of the installed
/// version, where there is one, and then an installation.
#[derive(Debug, Clone)]
pub struct UpdatePlan {
    /// Whether the package is installed, and so removed first.
    pub installed: bool,
    /// The files of the installed version, which its removal deletes.
    pub files: Vec<String>,
    /// The constraint to install under, as the configuration declares it.
    pub version: String,
    /// The target that the configuration declares.
    pub target: Option<PackageTarget>,
}

/// A package to install from the configuration.
#[derive(Debug, Clone)]
pub struct DeclaredPackage {
    pub repo: String,
    pub version: String,
    pub target: Option<PackageTarget>,
}

/// What a check says of a package.
#[derive(Debug, Clone, Copy, PartialEq, Eq, Structural)]
pub enum PackageStatus {
    Valid,
    MissingFiles,
    HashMismatch,
    HashFailed,
}

/// A copy as a pair of texts: from, to.
pub type Copy = (Seq<char>, Seq<char>);

/// The copies of a list.
pub open spec fn copies_of(ops: Seq<CopyOp>) -> Seq<Copy> {
    Seq::new(ops.len(), |i: int| (ops[i].from@, ops[i].to@))
}

/// Where the binary named `name` goes when no target is given: to the
/// components folder if its name holds `omp` or `component`, in whatever
/// case, and to the plugins folder if not.
pub open spec fn auto_target(name: Seq<char>) -> PackageTarget {
    let lower = lowercase(name);
    if contains(lower, "omp"@) || contains(lower, "component"@) {
        PackageTarget::Components
    } else {
        PackageTarget::Plugins
    }
}

/// The copies of `files` into `folder`, each under its own file name, in the
/// order of the files. A path without a file name is passed over.
pub open spec fn copies_into(files: Seq<Seq<char>>, folder: Seq<char>) -> Seq<Copy>
    decreases files.len(),
{
    if files.len() == 0 {
        Seq::empty()
    } else {
        let rest = copies_into(files.drop_last(), folder);
        let f = files.last();
        if file_name(f).len() > 0 {
            rest.push((f, join_path(folder, file_name(f))))
        } else {
            rest
        }
    }
}

/// The copies of `files`, each into the folder that its name asks for.
pub open spec fn copies_by_name(files: Seq<Seq<char>>, components: Seq<char>, plugins: Seq<char>) -> Seq<
    Copy,
>
    decreases files.len(),
{
    if files.len() == 0 {
        Seq::empty()
    } else {
        let rest = copies_by_name(files.drop_last(), components, plugins);
        let f = files.last();
        let folder = match auto_target(file_name(f)) {
            PackageTarget::Components => components,
            PackageTarget::Plugins => plugins,
        };
        if file_name(f).len() > 0 {
            rest.push((f, join_path(folder, file_name(f))))
        } else {
            rest
        }
    }
}

/// `first` if it is not empty, `second` otherwise.
pub open spec fn first_or(first: Seq<Seq<char>>, second: Seq<Seq<char>>) -> Seq<Seq<char>> {
    if first.len() > 0 {
        first
    } else {
        second
    }
}

/// The copies of an installation. Include files go to the first include
/// path, if there is one; root binaries go to the root of the workspace; the
/// binaries of the target, or the unclassified ones where the target has
/// none, go to the folder of the target. Without a target, the component
/// binaries, or the unclassified ones where there are none, go each to the
/// folder that its name asks for.
pub open spec fn planned_copies(
    includes: Seq<Seq<char>>,
    binaries: Seq<Seq<char>>,
    root_binaries: Seq<Seq<char>>,
    component_binaries: Seq<Seq<char>>,
    plugin_binaries: Seq<Seq<char>>,
    target: Option<PackageTarget>,
    include_paths: Seq<Seq<char>>,
    root: Seq<char>,
    components: Seq<char>,
    plugins: Seq<char>,
) -> Seq<Copy> {
    let for_includes = if include_paths.len() > 0 {
        copies_into(includes, include_paths[0])
    } else {
        Seq::empty()
    };
    let for_roots = copies_into(root_binaries, root);
    let for_binaries = match target {
        Some(PackageTarget::Components) => copies_into(
            first_or(component_binaries, binaries),
            components,
        ),
        Some(PackageTarget::Plugins) => copies_into(first_or(plugin_binaries, binaries), plugins),
        None => copies_by_name(first_or(component_binaries, binaries), components, plugins),
    };
    for_includes + for_roots + for_binaries
}

/// The destinations of a list of copies.
pub open spec fn destinations(copies: Seq<Copy>) -> Seq<Seq<char>> {
    Seq::new(copies.len(), |i: int| copies[i].1)
}

/// What is hashed for a package: for each file its content and then its path
/// in UTF-8, one after the other.
pub open spec fn combined(files: Seq<FileContent>) -> Seq<u8>
    decreases files.len(),
{
    if files.len() == 0 {
        Seq::empty()
    } else {
        combined(files.drop_last()) + files.last().content@ + vstd::utf8::encode_utf8(files.last().path@)
    }
}

/// The text of the cache after the hash has been stored under the file name
/// of each of the files that has one, and whether all of it could be stored:
/// storing stops at the first name that cannot be stored.
pub open spec fn after_storing(text: Option<Seq<char>>, files: Seq<Seq<char>>, hash: Seq<char>) -> (
    Option<Seq<char>>,
    bool,
)
    decreases files.len(),
{
    if files.len() == 0 {
        (text, true)
    } else {
        let before = after_storing(text, files.drop_last(), hash);
        let name = file_name(files.last());
        if !before.1 {
            before
        } else if name.len() == 0 {
            before
        } else if storable(name) && storable(hash) {
            let t = match before.0 {
                Some(t) => t,
                None => Seq::empty(),
            };
            (Some(t + entry_text(name, hash)), true)
        } else {
            (before.0, false)
        }
    }
}

/// The text of the cache after the records of each of the names have been
/// taken out, one name after the other. A cache without a file stays so.
pub open spec fn after_removing(text: Option<Seq<char>>, names: Seq<Seq<char>>) -> Option<Seq<char>>
    decreases names.len(),
{
    if names.len() == 0 {
        text
    } else {
        match after_removing(text, names.drop_last()) {
            Some(c) => Some(without(c, names.last())),
            None => None,
        }
    }
}

/// The message with which storing stops, `None` where the hash can be stored
/// under the file name of each of the files that has one.
pub open spec fn storing_failure(files: Seq<Seq<char>>, hash: Seq<char>) -> Option<Seq<char>>
    decreases files.len(),
{
    if files.len() == 0 {
        None
    } else {
        let name = file_name(files.last());
        match storing_failure(files.drop_last(), hash) {
            Some(m) => Some(m),
            None => if name.len() == 0 || (storable(name) && storable(hash)) {
                None
            } else {
                Some(refusal(name))
            },
        }
    }
}

/// The file names of the files that have one, in their order.
pub open spec fn file_names(files: Seq<Seq<char>>) -> Seq<Seq<char>>
    decreases files.len(),
{
    if files.len() == 0 {
        Seq::empty()
    } else if file_name(files.last()).len() > 0 {
        file_names(files.drop_last()).push(file_name(files.last()))
    } else {
        file_names(files.drop_last())
    }
}

/// What a check says of a package whose files are all there or not, and for
/// which a hash has been computed or not.
pub open spec fn status_of(
    stored_hash: Seq<char>,
    files_exist: bool,
    computed: Result<Seq<char>, ()>,
) -> PackageStatus {
    if !files_exist {
        PackageStatus::MissingFiles
    } else {
        match computed {
            Ok(h) => if h == stored_hash {
                PackageStatus::Valid
            } else {
                PackageStatus::HashMismatch
            },
            Err(_) => PackageStatus::HashFailed,
        }
    }
}

/// How the installation of `repo` begins, given the ledger and the
/// constraint asked for: with nothing to do where the ledger has the package,
/// whatever the constraint; with the constraint otherwise, `*` where none is
/// given; `None` where the constraint is no constraint.
pub open spec fn install_start(
    ledger: Map<Seq<char>, InstalledView>,
    repo: Seq<char>,
    version_spec: Option<Seq<char>>,
) -> Option<Option<crate::package::version::ConstraintView>> {
    if ledger.dom().contains(repo) {
        Some(None)
    } else {
        match parse_constraint(
            match version_spec {
                Some(s) => s,
                None => "*"@,
            },
        ) {
            Some(c) => Some(Some(c)),
            None => None,
        }
    }
}

/// The path with its extension replaced by `ext`: what follows the last `.`
/// of its file name, a `.` at the very beginning of the name apart. A path
/// without a file name stays as it is; a file name without an extension gets
/// one.
pub open spec fn with_extension(path: Seq<char>, ext: Seq<char>) -> Seq<char> {
    let name = file_name(path);
    let dot = last_dot(name, name.len() as int);
    if name.len() == 0 {
        path
    } else if dot > 0 {
        path.subrange(0, path.len() - name.len() + dot) + seq!['.'] + ext
    } else {
        path + seq!['.'] + ext
    }
}

/// The index of the last `.` of `name[..i]`, -1 where there is none.
pub open spec fn last_dot(name: Seq<char>, i: int) -> int
    decreases i,
{
    if i <= 0 || i > name.len() {
        -1
    } else if name[i - 1] == '.' {
        i - 1
    } else {
        last_dot(name, i - 1)
    }
}

/// The name of the scratch folder of a repository: its name with `_` for
/// each `/`.
pub open spec fn scratch_name(repo: Seq<char>) -> Seq<char> {
    Seq::new(repo.len(), |i: int| if repo[i] == '/' { '_' } else { repo[i] })
}

/// The path with another extension.
pub fn replace_extension(path: &str, ext: &str) -> (r: String)
    ensures
        r@ == with_extension(path@, ext@),
{
    let p = chars_of(path);
    let e = chars_of(ext);
    let name = file_name_of(p.as_slice());
    if name.len() == 0 {
        return string_of(p.as_slice());
    }
    let mut i: usize = name.len();
    while i > 0 && name[i - 1] != '.'
        invariant
            i <= name.len(),
            last_dot(name@, name@.len() as int) == last_dot(name@, i as int),
        decreases i,
    {
        i -= 1;
    }
    let mut out: Vec<char> = Vec::new();
    if i > 1 {
        let keep = p.len() - name.len() + (i - 1);
        push_all(&mut out, &p.as_slice()[0..keep]);
    } else {
        push_all(&mut out, p.as_slice());
    }
    out.push('.');
    push_all(&mut out, e.as_slice());
    assert(out@ =~= with_extension(path@, ext@));
    string_of(out.as_slice())
}

/// Appends the copies of `files` into `folder`.
fn plan_into(copies: &mut Vec<CopyOp>, files: &Vec<String>, folder: &str)
    ensures
        copies_of(final(copies)@) == copies_of(old(copies)@) + copies_into(
            texts(files@),
            folder@,
        ),
{
    let ghost start = copies_of(copies@);
    let ghost all = texts(files@);
    let mut i: usize = 0;
    assert(start + copies_into(all.take(0), folder@) =~= start);
    while i < files.len()
        invariant
            i <= files.len(),
            all == texts(files@),
            copies_of(copies@) == start + copies_into(all.take(i as int), folder@),
        decreases files.len() - i,
    {
        proof {
            assert(all.take(i + 1).drop_last() =~= all.take(i as int));
            assert(all.take(i + 1).last() == files@[i as int]@);
        }
        let path = chars_of(files[i].as_str());
        let name = file_name_of(path.as_slice());
        if name.len() > 0 {
            let name_text = string_of(name.as_slice());
            let ghost before = copies_of(copies@);
            copies.push(CopyOp { from: files[i].clone(), to: join(folder, name_text.as_str()) });
            assert(copies_of(copies@) =~= before.push(
                (files@[i as int]@, join_path(folder@, name@)),
            ));
            assert(start + copies_into(all.take(i as int), folder@).push(
                (files@[i as int]@, join_path(folder@, name@)),
            ) =~= (start + copies_into(all.take(i as int), folder@)).push(
                (files@[i as int]@, join_path(folder@, name@)),
            ));
        }
        i += 1;
    }
    assert(all.take(files.len() as int) =~= all);
}

/// The decisions of the package operations, and what they work with.
#[derive(Debug, Clone)]
pub struct PackageManager {
    downloader: PackageDownloader,
    workspace: WorkspaceDetector,
    security: SecurityManager,
    cache: CacheManager,
    config_manager: ConfigManager,
    config_path: String,
    lock_path: String,
}

impl PackageManager {
    /// The path of the workspace's configuration.
    pub closed spec fn config_file(&self) -> Seq<char> {
        self.config_path@
    }

    /// The path of the ledger.
    pub closed spec fn lock_file(&self) -> Seq<char> {
        self.lock_path@
    }

    /// The cache of the workspace.
    pub closed spec fn cache_view(&self) -> CacheManager {
        self.cache
    }

    /// The folders of the workspace.
    pub closed spec fn workspace_view(&self) -> WorkspaceDetector {
        self.workspace
    }

    /// The path of the server's own configuration file.
    pub closed spec fn legacy_file(&self) -> Seq<char> {
        self.config_manager.path()
    }

    /// For the workspace with the given root and configuration file. The
    /// ledger lies beside the configuration, with the extension `lock`.
    pub fn new(workspace_root: &str, config_path: &str) -> (r: PackageManager)
        ensures
            r.config_file() == config_path@,
            r.lock_file() == with_extension(config_path@, "lock"@),
            r.cache_view().path() == join_path(workspace_root@, "cache.txt"@),
            r.cache_view().text() is None,
            r.workspace_view().root() == workspace_root@,
            r.legacy_file() == join_path(workspace_root@, "config.json"@),
    {
        PackageManager {
            downloader: PackageDownloader::new(),
            workspace: WorkspaceDetector::new(workspace_root),
            security: SecurityManager::new(),
            cache: CacheManager::new(workspace_root),
            config_manager: ConfigManager::new(workspace_root),
            config_path: config_path.to_owned(),
            lock_path: replace_extension(config_path, "lock"),
        }
    }

    /// The path of the build configuration.
    pub fn config_path(&self) -> (r: &str)
        ensures
            r@ == self.config_file(),
    {
        self.config_path.as_str()
    }

    /// The path of the ledger.
    pub fn lock_path(&self) -> (r: &str)
        ensures
            r@ == self.lock_file(),
    {
        self.lock_path.as_str()
    }

    /// What decides on releases and their files.
    pub fn downloader(&self) -> (r: &PackageDownloader)
        ensures
            *r == (PackageDownloader {  }),
    {
        &self.downloader
    }

    /// What knows the folders of the workspace.
    pub fn workspace(&self) -> (r: &WorkspaceDetector)
        ensures
            *r == self.workspace_view(),
    {
        &self.workspace
    }

    /// What hashes and verifies.
    pub fn security(&self) -> (r: &SecurityManager)
        ensures
            *r == (SecurityManager {  }),
    {
        &self.security
    }

    /// What keeps the list of legacy plugins in the server's own
    /// configuration file.
    pub fn config_manager(&self) -> (r: &ConfigManager)
        ensures
            r.path() == self.legacy_file(),
    {
        &self.config_manager
    }

    /// The image of the cache file.
    pub fn cache(&self) -> (r: &CacheManager)
        ensures
            *r == self.cache_view(),
    {
        &self.cache
    }

    /// Takes `content` as the text of the cache file; `None` says that the
    /// file does not exist.
    pub fn load_cache(&mut self, content: Option<String>)
        ensures
            final(self).config_file() == old(self).config_file(),
            final(self).lock_file() == old(self).lock_file(),
            final(self).workspace_view() == old(self).workspace_view(),
            final(self).legacy_file() == old(self).legacy_file(),
            final(self).cache_view().path() == old(self).cache_view().path(),
            match content {
                Some(c) => final(self).cache_view().text() == Some(c@),
                None => final(self).cache_view().text() is None,
            },
    {
        self.cache.load(content);
    }

    /// How the installation of `repo` begins. A package that the ledger has
    /// is not installed again, whatever constraint is asked for.
    ///
    /// Fails with a `Config` error where the package is not installed and
    /// the constraint is no constraint.
    pub fn install_package(&self, lock: &PackageLock, repo: &str, version_spec: Option<&str>) -> (r:
        Result<InstallStart, OpenCliError>)
        requires
            lock.wf(),
        ensures
            match install_start(
                lock@,
                repo@,
                match version_spec {
                    Some(s) => Some(s@),
                    None => None,
                },
            ) {
                Some(None) => r matches Ok(InstallStart::AlreadyInstalled(v)) && v@
                    == lock@[repo@].version,
                Some(Some(c)) => r matches Ok(InstallStart::Resolve(x)) && x@ == c,
                None => r matches Err(e) && e is Config && e.message()
                    == "Invalid version constraint: "@ + (match version_spec {
                    Some(s) => s@,
                    None => "*"@,
                }),
            },
    {
        match lock.get_installed_version(repo) {
            Some(v) => Ok(InstallStart::AlreadyInstalled(v.to_owned())),
            None => {
                let spec = match version_spec {
                    Some(s) => s,
                    None => "*",
                };
                match VersionConstraint::parse(spec) {
                    Ok(c) => Ok(InstallStart::Resolve(c)),
                    Err(e) => Err(e),
                }
            },
        }
    }

    /// Where a binary goes when no target is given.
    pub fn detect_binary_target(&self, binary_path: &str) -> (r: PackageTarget)
        ensures
            r == auto_target(file_name(binary_path@)),
    {
        let path = chars_of(binary_path);
        let name = file_name_of(path.as_slice());
        let lower = to_lowercase(name.as_slice());
        let omp = chars_of("omp");
        let component = chars_of("component");
        if has(lower.as_slice(), omp.as_slice()) || has(lower.as_slice(), component.as_slice()) {
            PackageTarget::Components
        } else {
            PackageTarget::Plugins
        }
    }

    /// What the installation of the files of a package copies, and the
    /// sorted list of what it installs.
    pub fn install_package_files(
        &self,
        package_files: &PackageFiles,
        target: Option<PackageTarget>,
        include_paths: &Vec<String>,
    ) -> (r: InstallFiles)
        ensures
            copies_of(r.copies@) == planned_copies(
                texts(package_files.includes@),
                texts(package_files.binaries@),
                texts(package_files.root_binaries@),
                texts(package_files.component_binaries@),
                texts(package_files.plugin_binaries@),
                target,
                texts(include_paths@),
                self.workspace_view().root(),
                join_path(self.workspace_view().root(), "components"@),
                join_path(self.workspace_view().root(), "plugins"@),
            ),
            is_sorted_set_of(texts(r.installed@), destinations(copies_of(r.copies@))),
    {
        let info = self.workspace.get_workspace_info();
        let mut copies: Vec<CopyOp> = Vec::new();
        assert(copies_of(copies@) =~= Seq::<Copy>::empty());
        if include_paths.len() > 0 {
            plan_into(&mut copies, &package_files.includes, include_paths[0].as_str());
            assert(texts(include_paths@)[0] == include_paths@[0]@);
        }
        let ghost for_includes = copies_of(copies@);
        assert(for_includes =~= if include_paths@.len() > 0 {
            copies_into(texts(package_files.includes@), texts(include_paths@)[0])
        } else {
            Seq::<Copy>::empty()
        });
        plan_into(&mut copies, &package_files.root_binaries, info.root.as_str());
        let component_files = if package_files.component_binaries.len() > 0 {
            &package_files.component_binaries
        } else {
            &package_files.binaries
        };
        let plugin_files = if package_files.plugin_binaries.len() > 0 {
            &package_files.plugin_binaries
        } else {
            &package_files.binaries
        };
        assert(texts(component_files@) == first_or(
            texts(package_files.component_binaries@),
            texts(package_files.binaries@),
        ));
        assert(texts(plugin_files@) == first_or(
            texts(package_files.plugin_binaries@),
            texts(package_files.binaries@),
        ));
        match target {
            Some(PackageTarget::Components) => {
                plan_into(&mut copies, component_files, info.components.as_str());
            },
            Some(PackageTarget::Plugins) => {
                plan_into(&mut copies, plugin_files, info.plugins.as_str());
            },
            None => {
                let ghost start = copies_of(copies@);
                let ghost all = texts(component_files@);
                let ghost cf = info.components@;
                let ghost pf = info.plugins@;
                let mut i: usize = 0;
                assert(start + copies_by_name(all.take(0), cf, pf) =~= start);
                while i < component_files.len()
                    invariant
                        i <= component_files.len(),
                        all == texts(component_files@),
                        cf == info.components@,
                        pf == info.plugins@,
                        copies_of(copies@) == start + copies_by_name(all.take(i as int), cf, pf),
                    decreases component_files.len() - i,
                {
                    proof {
                        assert(all.take(i + 1).drop_last() =~= all.take(i as int));
                        assert(all.take(i + 1).last() == component_files@[i as int]@);
                    }
                    let path = chars_of(component_files[i].as_str());
                    let name = file_name_of(path.as_slice());
                    if name.len() > 0 {
                        let folder = match self.detect_binary_target(component_files[i].as_str()) {
                            PackageTarget::Components => info.components.as_str(),
                            PackageTarget::Plugins => info.plugins.as_str(),
                        };
                        let name_text = string_of(name.as_slice());
                        let ghost before = copies_of(copies@);
                        let ghost op = (component_files@[i as int]@, join_path(folder@, name@));
                        copies.push(
                            CopyOp {
                                from: component_files[i].clone(),
                                to: join(folder, name_text.as_str()),
                            },
                        );
                        assert(copies_of(copies@) =~= before.push(op));
                        assert(start + copies_by_name(all.take(i as int), cf, pf).push(op) =~= (
                        start + copies_by_name(all.take(i as int), cf, pf)).push(op));
                    }
                    i += 1;
                }
                assert(all.take(component_files.len() as int) =~= all);
            },
        }
        let mut targets: Vec<String> = Vec::new();
        let mut k: usize = 0;
        while k < copies.len()
            invariant
                k <= copies.len(),
                targets@.len() == k,
                forall|j: int| 0 <= j < k ==> (#[trigger] targets@[j])@ == copies@[j].to@,
            decreases copies.len() - k,
        {
            targets.push(copies[k].to.clone());
            k += 1;
        }
        assert(texts(targets@) =~= destinations(copies_of(copies@)));
        let installed = sort_dedup(&targets);
        InstallFiles { copies, installed }
    }

    /// What is hashed for a package: the content and the path of each of its
    /// files, one after the other.
    pub fn combined_content(&self, files: &Vec<FileContent>) -> (r: Vec<u8>)
        ensures
            r@ == combined(files@),
    {
        let mut out: Vec<u8> = Vec::new();
        let mut i: usize = 0;
        assert(out@ =~= combined(files@.take(0)));
        while i < files.len()
            invariant
                i <= files.len(),
                out@ == combined(files@.take(i as int)),
            decreases files.len() - i,
        {
            proof {
                assert(files@.take(i + 1).drop_last() =~= files@.take(i as int));
                assert(files@.take(i + 1).last() == files@[i as int]);
            }
            let ghost before = out@;
            let content = files[i].content.as_slice();
            let mut a: usize = 0;
            while a < content.len()
                invariant
                    a <= content.len(),
                    out@ == before + content@.take(a as int),
                decreases content.len() - a,
            {
                out.push(content[a]);
                assert(out@ =~= before + content@.take(a + 1));
                a += 1;
            }
            assert(content@.take(content.len() as int) =~= content@);
            let ghost mid = out@;
            let path = files[i].path.as_str().as_bytes();
            let mut b: usize = 0;
            while b < path.len()
                invariant
                    b <= path.len(),
                    out@ == mid + path@.take(b as int),
                decreases path.len() - b,
            {
                out.push(path[b]);
                assert(out@ =~= mid + path@.take(b + 1));
                b += 1;
            }
            assert(path@.take(path.len() as int) =~= path@);
            i += 1;
        }
        assert(files@.take(files.len() as int) =~= files@);
        out
    }

    /// The hash of a package: of the fingerprint of the content and the paths
    /// of its files, under a fresh salt. Whatever the salt is, a hash that
    /// comes back verifies against that fingerprint.
    pub fn compute_package_hash(&self, files: &Vec<FileContent>) -> (r: Result<String, OpenCliError>)
        ensures
            exists|salt: Seq<char>|
                hash_outcome(
                    #[trigger] argon2_phc(sha256(combined(files@)), salt),
                    "Failed to hash content: "@,
                    r,
                ),
            r matches Ok(h) ==> phc_check(sha256(combined(files@)), h@) == check_ok(true),
    {
        let content = self.combined_content(files);
        let fingerprint = self.security.fingerprint(content.as_slice());
        self.security.hash_file_content(fingerprint.as_slice())
    }

    /// Remembers the hash of a package in the cache, under the file name of
    /// each of its files that has one.
    ///
    /// Fails with a `Config` error at the first file name, or at the hash,
    /// that the cache cannot hold; what was stored before stays.
    pub fn update_cache(&mut self, installed_files: &Vec<String>, hash: &str) -> (r: Result<
        (),
        OpenCliError,
    >)
        ensures
            final(self).config_file() == old(self).config_file(),
            final(self).lock_file() == old(self).lock_file(),
            final(self).workspace_view() == old(self).workspace_view(),
            final(self).legacy_file() == old(self).legacy_file(),
            final(self).cache_view().path() == old(self).cache_view().path(),
            final(self).cache_view().text() == after_storing(
                old(self).cache_view().text(),
                texts(installed_files@),
                hash@,
            ).0,
            r is Ok <==> after_storing(
                old(self).cache_view().text(),
                texts(installed_files@),
                hash@,
            ).1,
            match storing_failure(texts(installed_files@), hash@) {
                Some(m) => r matches Err(e) && e is Config && e.message() == m,
                None => r is Ok,
            },
    {
        let ghost start = self.cache.text();
        let ghost all = texts(installed_files@);
        let mut i: usize = 0;
        while i < installed_files.len()
            invariant
                i <= installed_files.len(),
                all == texts(installed_files@),
                self.config_file() == old(self).config_file(),
                self.lock_file() == old(self).lock_file(),
                self.workspace_view() == old(self).workspace_view(),
                self.legacy_file() == old(self).legacy_file(),
                self.cache_view().path() == old(self).cache_view().path(),
                start == old(self).cache_view().text(),
                after_storing(start, all.take(i as int), hash@) == (self.cache_view().text(), true),
                storing_failure(all.take(i as int), hash@) is None,
            decreases installed_files.len() - i,
        {
            proof {
                assert(all.take(i + 1).drop_last() =~= all.take(i as int));
                assert(all.take(i + 1).last() == installed_files@[i as int]@);
            }
            let path = chars_of(installed_files[i].as_str());
            let name = file_name_of(path.as_slice());
            if name.len() > 0 {
                let name_text = string_of(name.as_slice());
                match self.cache.store_hash(name_text.as_str(), hash) {
                    Ok(()) => {},
                    Err(e) => {
                        proof {
                            lemma_storing_stops(start, all, hash@, i + 1);
                            lemma_failure_stays(all, hash@, i + 1);
                        }
                        return Err(e);
                    },
                }
            }
            i += 1;
        }
        assert(all.take(installed_files.len() as int) =~= all);
        Ok(())
    }

    /// Records an installation whose files are in place and hashed: remembers
    /// the hash in the cache under the file name of each file, and then enters
    /// the package in the ledger as installed now.
    ///
    /// Fails with a `Config` error where the cache cannot hold one of the file
    /// names or the hash; the ledger is then as it was.
    pub fn record_install(
        &mut self,
        lock: &mut PackageLock,
        repo: &str,
        tag: &str,
        target: Option<PackageTarget>,
        installed_files: &Vec<String>,
        hash: &str,
    ) -> (r: Result<(), OpenCliError>)
        requires
            old(lock).wf(),
        ensures
            final(lock).wf(),
            final(self).config_file() == old(self).config_file(),
            final(self).lock_file() == old(self).lock_file(),
            final(self).workspace_view() == old(self).workspace_view(),
            final(self).legacy_file() == old(self).legacy_file(),
            final(self).cache_view().path() == old(self).cache_view().path(),
            final(self).cache_view().text() == after_storing(
                old(self).cache_view().text(),
                texts(installed_files@),
                hash@,
            ).0,
            r is Ok <==> after_storing(
                old(self).cache_view().text(),
                texts(installed_files@),
                hash@,
            ).1,
            r is Err ==> final(lock)@ == old(lock)@,
            match storing_failure(texts(installed_files@), hash@) {
                Some(m) => r matches Err(e) && e is Config && e.message() == m,
                None => r is Ok,
            },
            r is Ok ==> exists|installed_at: Seq<char>|
                final(lock)@ == #[trigger] old(lock)@.insert(
                    repo@,
                    InstalledView {
                        version: tag@,
                        target,
                        hash: hash@,
                        installed_at,
                        files: texts(installed_files@),
                    },
                ),
    {
        match self.update_cache(installed_files, hash) {
            Ok(()) => {},
            Err(e) => {
                return Err(e);
            },
        }
        let mut files: Vec<String> = Vec::new();
        append_names(&mut files, installed_files);
        assert(texts(files@) =~= texts(installed_files@));
        lock.add_package(repo.to_owned(), tag.to_owned(), target, hash.to_owned(), files);
        Ok(())
    }

    /// What the removal of `repo` asks for, `None` where the package is not
    /// installed and nothing is to be done.
    pub fn remove_package(&self, lock: &PackageLock, repo: &str) -> (r: Option<RemovalPlan>)
        requires
            lock.wf(),
        ensures
            match r {
                Some(plan) => lock@.dom().contains(repo@) && texts(plan.files@)
                    == lock@[repo@].files && texts(plan.cache_names@) == file_names(
                    lock@[repo@].files,
                ) && plan.legacy_plugins == (lock@[repo@].target == Some(PackageTarget::Plugins)),
                None => !lock@.dom().contains(repo@),
            },
    {
        match lock.get_package(repo) {
            Some(package) => {
                let ghost all = texts(package.files@);
                let mut files: Vec<String> = Vec::new();
                let mut names: Vec<String> = Vec::new();
                let mut i: usize = 0;
                assert(texts(names@) =~= file_names(all.take(0)));
                while i < package.files.len()
                    invariant
                        i <= package.files.len(),
                        all == texts(package.files@),
                        texts(files@) == all.take(i as int),
                        texts(names@) == file_names(all.take(i as int)),
                    decreases package.files.len() - i,
                {
                    proof {
                        assert(all.take(i + 1).drop_last() =~= all.take(i as int));
                        assert(all.take(i + 1).last() == package.files@[i as int]@);
                    }
                    let ghost fb = texts(files@);
                    files.push(package.files[i].clone());
                    assert(texts(files@) =~= fb.push(package.files@[i as int]@));
                    assert(fb.push(package.files@[i as int]@) =~= all.take(i + 1));
                    let path = chars_of(package.files[i].as_str());
                    let name = file_name_of(path.as_slice());
                    if name.len() > 0 {
                        let ghost nb = texts(names@);
                        names.push(string_of(name.as_slice()));
                        assert(texts(names@) =~= nb.push(name@));
                    }
                    i += 1;
                }
                assert(all.take(package.files.len() as int) =~= all);
                let legacy_plugins = match package.target {
                    Some(PackageTarget::Plugins) => true,
                    _ => false,
                };
                Some(RemovalPlan { files, cache_names: names, legacy_plugins })
            },
            None => None,
        }
    }

    /// Records a removal whose files are gone: takes the records of the file
    /// names of the package out of the cache, and its entry out of the
    /// ledger. Returns what the ledger had recorded, `None` where the package
    /// was not installed; nothing changes then.
    pub fn record_removal(&mut self, lock: &mut PackageLock, repo: &str) -> (r: Option<
        InstalledPackage,
    >)
        requires
            old(lock).wf(),
        ensures
            final(lock).wf(),
            final(lock)@ == old(lock)@.remove(repo@),
            final(self).config_file() == old(self).config_file(),
            final(self).lock_file() == old(self).lock_file(),
            final(self).workspace_view() == old(self).workspace_view(),
            final(self).legacy_file() == old(self).legacy_file(),
            final(self).cache_view().path() == old(self).cache_view().path(),
            match r {
                Some(p) => old(lock)@.dom().contains(repo@) && p@ == old(lock)@[repo@]
                    && final(self).cache_view().text() == after_removing(
                    old(self).cache_view().text(),
                    file_names(p@.files),
                ),
                None => !old(lock)@.dom().contains(repo@) && final(self).cache_view().text()
                    == old(self).cache_view().text(),
            },
    {
        match lock.remove_package(repo) {
            Some(package) => {
                let ghost start = self.cache.text();
                let ghost all = texts(package.files@);
                let mut i: usize = 0;
                while i < package.files.len()
                    invariant
                        i <= package.files.len(),
                        all == texts(package.files@),
                        self.config_file() == old(self).config_file(),
                        self.lock_file() == old(self).lock_file(),
                        self.workspace_view() == old(self).workspace_view(),
                        self.legacy_file() == old(self).legacy_file(),
                        self.cache_view().path() == old(self).cache_view().path(),
                        start == old(self).cache_view().text(),
                        self.cache_view().text() == after_removing(
                            start,
                            file_names(all.take(i as int)),
                        ),
                    decreases package.files.len() - i,
                {
                    proof {
                        assert(all.take(i + 1).drop_last() =~= all.take(i as int));
                        assert(all.take(i + 1).last() == package.files@[i as int]@);
                    }
                    let path = chars_of(package.files[i].as_str());
                    let name = file_name_of(path.as_slice());
                    if name.len() > 0 {
                        let ghost before = file_names(all.take(i as int));
                        let name_text = string_of(name.as_slice());
                        self.cache.remove_hash(name_text.as_str());
                        assert(before.push(name@).drop_last() =~= before);
                    }
                    i += 1;
                }
                assert(all.take(package.files.len() as int) =~= all);
                Some(package)
            },
            None => None,
        }
    }

    /// What a check says of a package, given whether all its files are there
    /// and the hash computed for them, if any was.
    pub fn check_package(
        &self,
        package: &InstalledPackage,
        files_exist: bool,
        computed: &Result<String, OpenCliError>,
    ) -> (r: PackageStatus)
        ensures
            r == status_of(
                package.hash@,
                files_exist,
                match computed {
                    Ok(h) => Ok(h@),
                    Err(_) => Err(()),
                },
            ),
    {
        if !files_exist {
            PackageStatus::MissingFiles
        } else {
            match computed {
                Ok(h) => if same_str(h.as_str(), package.hash.as_str()) {
                    PackageStatus::Valid
                } else {
                    PackageStatus::HashMismatch
                },
                Err(_) => PackageStatus::HashFailed,
            }
        }
    }

    /// Whether a check found every package valid.
    pub fn check_packages(&self, statuses: &Vec<PackageStatus>) -> (r: bool)
        ensures
            r == forall|i: int| 0 <= i < statuses@.len() ==> statuses@[i] == PackageStatus::Valid,
    {
        let mut i: usize = 0;
        while i < statuses.len()
            invariant
                i <= statuses.len(),
                forall|k: int| 0 <= k < i ==> statuses@[k] == PackageStatus::Valid,
            decreases statuses.len() - i,
        {
            match statuses[i] {
                PackageStatus::Valid => {},
                _ => {
                    return false;
                },
            }
            i += 1;
        }
        true
    }

    /// What the update of `repo` asks for: the installed version is removed,
    /// where there is one, and the package is then installed under the
    /// constraint that the configuration declares.
    ///
    /// Fails with `NotFound` where the configuration declares no packages
    /// or not this one, and with a `Config` error where the declared
    /// constraint is no constraint.
    pub fn update_package(&self, config: &BuildConfig, lock: &PackageLock, repo: &str) -> (r: Result<
        UpdatePlan,
        OpenCliError,
    >)
        requires
            lock.wf(),
            config.wf(),
        ensures
            !config.declares(repo@) ==> (r matches Err(e) && e is NotFound && e.message() == (
            if config.packages is None {
                "No packages installed"@
            } else {
                "Package "@ + repo@ + " not found"@
            })),
            config.declares(repo@) ==> ({
                let i = choose|i: int|
                    0 <= i < config.entries().len() && config.entries()[i].name@ == repo@;
                let spec = config.entries()[i].spec;
                match parse_constraint(spec.version_text()) {
                    Some(_) => r matches Ok(plan) && plan.version@ == spec.version_text()
                        && plan.target == spec.target_of() && plan.installed
                        == lock@.dom().contains(repo@) && texts(plan.files@) == (
                    if lock@.dom().contains(repo@) {
                        lock@[repo@].files
                    } else {
                        Seq::empty()
                    }),
                    None => r matches Err(e) && e is Config && e.message()
                        == "Invalid version constraint: "@ + spec.version_text(),
                }
            }),
    {
        let entries = match &config.packages {
            Some(entries) => entries,
            None => {
                return Err(OpenCliError::not_found("No packages installed"));
            },
        };
        let i = match find_entry(entries, repo) {
            Some(i) => i,
            None => {
                let head = join2("Package ", repo);
                return Err(OpenCliError::NotFound(join2(head.as_str(), " not found")));
            },
        };
        let spec = &entries[i].spec;
        proof {
            let j = choose|j: int|
                0 <= j < config.entries().len() && config.entries()[j].name@ == repo@;
            assert(config.entries()[i as int].name@ == repo@);
            if j != i {
                if j < i {
                    assert(config.entries()[j].name@ != config.entries()[i as int].name@);
                } else {
                    assert(config.entries()[i as int].name@ != config.entries()[j].name@);
                }
            }
        }
        match VersionConstraint::parse(spec.version()) {
            Ok(_) => {},
            Err(e) => {
                return Err(e);
            },
        }
        let mut files: Vec<String> = Vec::new();
        let mut installed = false;
        match lock.get_package(repo) {
            Some(package) => {
                installed = true;
                let mut k: usize = 0;
                while k < package.files.len()
                    invariant
                        k <= package.files.len(),
                        files@.len() == k,
                        forall|j: int| 0 <= j < k ==> (#[trigger] files@[j])@ == package.files@[j]@,
                    decreases package.files.len() - k,
                {
                    files.push(package.files[k].clone());
                    k += 1;
                }
                assert(texts(files@) =~= texts(package.files@));
            },
            None => {
                assert(texts(files@) =~= Seq::<Seq<char>>::empty());
            },
        }
        Ok(UpdatePlan { installed, files, version: spec.version().to_owned(), target: spec.target() })
    }

    /// The packages that the configuration declares, in its order: what
    /// installing all of them installs, one after the other, a failure of
    /// one not keeping the next from being tried.
    pub fn install_all_packages(&self, config: &BuildConfig) -> (r: Vec<DeclaredPackage>)
        ensures
            r@.len() == config.entries().len(),
            forall|i: int|
                0 <= i < r@.len() ==> (#[trigger] r@[i]).repo@ == config.entries()[i].name@
                    && r@[i].version@ == config.entries()[i].spec.version_text() && r@[i].target
                    == config.entries()[i].spec.target_of(),
    {
        let mut out: Vec<DeclaredPackage> = Vec::new();
        match &config.packages {
            Some(entries) => {
                let mut i: usize = 0;
                while i < entries.len()
                    invariant
                        i <= entries.len(),
                        entries@ == config.entries(),
                        out@.len() == i,
                        forall|k: int|
                            0 <= k < i ==> (#[trigger] out@[k]).repo@ == entries@[k].name@
                                && out@[k].version@ == entries@[k].spec.version_text()
                                && out@[k].target == entries@[k].spec.target_of(),
                    decreases entries.len() - i,
                {
                    out.push(
                        DeclaredPackage {
                            repo: entries[i].name.clone(),
                            version: entries[i].spec.version().to_owned(),
                            target: entries[i].spec.target(),
                        },
                    );
                    i += 1;
                }
            },
            None => {},
        }
        out
    }

    /// The name of the scratch folder of a repository.
    pub fn get_temp_dir(&self, repo: &str) -> (r: String)
        ensures
            r@ == scratch_name(repo@),
    {
        let chars = chars_of(repo);
        let mut out: Vec<char> = Vec::new();
        let mut i: usize = 0;
        while i < chars.len()
            invariant
                i <= chars.len(),
                chars@ == repo@,
                out@ == scratch_name(repo@).take(i as int),
            decreases chars.len() - i,
        {
            out.push(if chars[i] == '/' { '_' } else { chars[i] });
            assert(out@ =~= scratch_name(repo@).take(i + 1));
            i += 1;
        }
        assert(scratch_name(repo@).take(chars.len() as int) =~= scratch_name(repo@));
        string_of(out.as_slice())
    }
}

/// Once storing has stopped at a file, the files after it change nothing.
/// A failure to store under one of the first names is the failure for the
/// whole list.
proof fn lemma_failure_stays(files: Seq<Seq<char>>, hash: Seq<char>, k: int)
    requires
        0 <= k <= files.len(),
        storing_failure(files.take(k), hash) is Some,
    ensures
        storing_failure(files, hash) == storing_failure(files.take(k), hash),
    decreases files.len() - k,
{
    if k < files.len() {
        assert(files.take(k + 1).drop_last() =~= files.take(k));
        lemma_failure_stays(files, hash, k + 1);
    } else {
        assert(files.take(k) =~= files);
    }
}

proof fn lemma_storing_stops(text: Option<Seq<char>>, files: Seq<Seq<char>>, hash: Seq<char>, k: int)
    requires
        0 <= k <= files.len(),
        !after_storing(text, files.take(k), hash).1,
    ensures
        after_storing(text, files, hash) == after_storing(text, files.take(k), hash),
    decreases files.len() - k,
{
    if k < files.len() {
        assert(files.take(k + 1).drop_last() =~= files.take(k));
        lemma_storing_stops(text, files, hash, k + 1);
    } else {
        assert(files.take(k) =~= files);
    }
}

/// A package that has been installed is not installed again: once the
/// ledger holds a record for a name, an installation of that name begins
/// with nothing to do, whatever constraint is asked for and whatever the
/// record says.
pub proof fn lemma_installed_is_not_installed_again(
    ledger: Map<Seq<char>, InstalledView>,
    repo: Seq<char>,
    record: InstalledView,
    version_spec: Option<Seq<char>>,
)
    ensures
        install_start(ledger.insert(repo, record), repo, version_spec) == Some(
            None::<crate::package::version::ConstraintView>,
        ),
{
}

/// A package that has been removed is installed anew: once the ledger
/// holds no record for a name, an installation of that name begins with
/// the constraint that is asked for, or fails because that is none.
pub proof fn lemma_removed_is_installed_anew(
    ledger: Map<Seq<char>, InstalledView>,
    repo: Seq<char>,
    version_spec: Option<Seq<char>>,
)
    ensures
        install_start(ledger.remove(repo), repo, version_spec) != Some(
            None::<crate::package::version::ConstraintView>,
        ),
{
}

} // verus!
