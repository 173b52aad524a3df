//! Releases and their files: which release a constraint selects, what kind of
//! asset a name denotes, and how the files taken out of an archive are sorted
//! into what gets installed where.

use crate::build::config::PackageTarget;
use crate::names::{is_sorted_set_of, sort_dedup, texts};
use crate::package::version::{
    is_latest, parse_version, precedes, satisfies, ConstraintView, Version, VersionConstraint,
    VersionView,
};
use crate::result::{join2, OpenCliError};
use crate::text::{
    chars_of, contains, ends_with, find_char, has, has_suffix, lemma_index_of_char, lowercase,
    push_all, slice_of, string_of, to_lowercase,
};
use vstd::prelude::*;

verus! {

/// A file attached to a release.
#[derive(Debug, Clone)]
pub struct GitHubAsset {
    pub name: String,
    pub download_url: String,
    pub size: u64,
}

/// A published release: its tag and its assets.
#[derive(Debug, Clone)]
pub struct GitHubRelease {
    pub tag_name: String,
    pub assets: Vec<GitHubAsset>,
}

/// A file taken out of an archive: where it was written, and the path it had
/// inside the archive.
#[derive(Debug, Clone)]
pub struct ExtractedFile {
    pub path: String,
    pub archive_path: String,
}

/// The files of a package by what they are for. Each list is sorted and holds
/// no path twice once a classification has produced it.
#[derive(Debug, Clone)]
pub struct PackageFiles {
    pub includes: Vec<String>,
    pub binaries: Vec<String>,
    pub root_binaries: Vec<String>,
    pub component_binaries: Vec<String>,
    pub plugin_binaries: Vec<String>,
}

/// What a file is for.
#[derive(Debug, Clone, Copy, PartialEq, Eq, Structural)]
pub enum Bucket {
    /// An include file.
    Include,
    /// A binary that belongs in the root of the workspace.
    Root,
    /// A binary for the components folder.
    Component,
    /// A binary for the plugins folder.
    Plugin,
    /// A binary of which nothing says where it goes.
    Unclassified,
}

/// The folders whose presence in an archive says what its files are for.
#[derive(Debug, Clone, Copy, PartialEq, Eq, Structural)]
pub enum Marker {
    /// `components` or `component`.
    Components,
    /// `qawno`.
    Qawno,
    /// `plugins`.
    Plugins,
    /// `pawno`.
    Pawno,
}

/// What kind of archive a file name denotes.
#[derive(Debug, Clone, Copy, PartialEq, Eq, Structural)]
pub enum ArchiveKind {
    Zip,
    TarGz,
    /// Recognised as an archive, but not one that can be unpacked.
    Rar,
}

/// What is done with an asset of a release.
#[derive(Debug, Clone, Copy, PartialEq, Eq, Structural)]
pub enum AssetKind {
    /// Unpacked, and its files classified.
    Archive(ArchiveKind),
    /// Taken as an include file.
    Include,
    /// Taken as a binary.
    Binary,
    /// Downloaded and otherwise ignored.
    Other,
}

/// Where the last component of the path `p[..i]` begins: behind the last `/`
/// before `i`, or at 0.
pub open spec fn name_start(p: Seq<char>, i: int) -> int
    decreases i,
{
    if 0 < i <= p.len() && p[i - 1] != '/' {
        name_start(p, i - 1)
    } else {
        i
    }
}

/// The last component of a path: what follows its last `/`.
pub open spec fn file_name(p: Seq<char>) -> Seq<char> {
    p.subrange(name_start(p, p.len() as int), p.len() as int)
}

/// The name is that of an include file.
pub open spec fn is_include(name: Seq<char>) -> bool {
    ends_with(name, ".inc"@)
}

/// The name is that of a binary.
pub open spec fn is_binary(name: Seq<char>) -> bool {
    ends_with(name, ".dll"@) || ends_with(name, ".so"@) || ends_with(name, ".dylib"@)
}

/// The name is that of a core library: it holds `amx`, `lib` or `log-core`,
/// in whatever case.
pub open spec fn is_core(name: Seq<char>) -> bool {
    let lower = lowercase(name);
    contains(lower, "amx"@) || contains(lower, "lib"@) || contains(lower, "log-core"@)
}

/// `path` taken from the root of the archive: with `sep` before it.
pub open spec fn rooted(path: Seq<char>, sep: char) -> Seq<char> {
    seq![sep] + path
}

/// A folder name between two separators.
pub open spec fn folder_pattern(folder: Seq<char>, sep: char) -> Seq<char> {
    seq![sep] + folder + seq![sep]
}

/// The lower-case path `lower` leads through the folder `folder`, with `/` or
/// with `\` as the separator.
pub open spec fn holds_folder(lower: Seq<char>, folder: Seq<char>) -> bool {
    contains(rooted(lower, '/'), folder_pattern(folder, '/')) || contains(
        rooted(lower, '\\'),
        folder_pattern(folder, '\\'),
    )
}

/// The path leads through the folder `folder`, in whatever case.
pub open spec fn in_folder(path: Seq<char>, folder: Seq<char>) -> bool {
    holds_folder(lowercase(path), folder)
}

/// The path leads through a folder of the marker.
pub open spec fn under(path: Seq<char>, marker: Marker) -> bool {
    match marker {
        Marker::Components => in_folder(path, "components"@) || in_folder(path, "component"@),
        Marker::Qawno => in_folder(path, "qawno"@),
        Marker::Plugins => in_folder(path, "plugins"@),
        Marker::Pawno => in_folder(path, "pawno"@),
    }
}

/// Some entry of the archive leads through a folder of the marker.
pub open spec fn any_under(structure: Seq<Seq<char>>, marker: Marker) -> bool {
    exists|i: int| 0 <= i < structure.len() && under(#[trigger] structure[i], marker)
}

/// A file passes the marker: the archive has no folder of the marker at all,
/// or the file lies in one.
pub open spec fn passes(archive_path: Seq<char>, structure: Seq<Seq<char>>, marker: Marker) -> bool {
    !any_under(structure, marker) || under(archive_path, marker)
}

/// What a file is for, `None` where it is not installed.
///
/// The rules, in order. A file without a name is dropped. An include file is
/// taken if it passes the marker of the target (`qawno` for components,
/// `pawno` for plugins), and always where no target is given. A binary with
/// the name of a core library goes to the root. Any other binary goes to the
/// bucket of the target if it passes the target's marker; where no target is
/// given, the folder it lies in decides, and a binary in neither folder is
/// unclassified. Every other file is dropped.
pub open spec fn bucket_of(
    path: Seq<char>,
    archive_path: Seq<char>,
    structure: Seq<Seq<char>>,
    target: Option<PackageTarget>,
) -> Option<Bucket> {
    let name = file_name(path);
    if name.len() == 0 {
        None
    } else if is_include(name) {
        match target {
            Some(PackageTarget::Components) => if passes(archive_path, structure, Marker::Qawno) {
                Some(Bucket::Include)
            } else {
                None
            },
            Some(PackageTarget::Plugins) => if passes(archive_path, structure, Marker::Pawno) {
                Some(Bucket::Include)
            } else {
                None
            },
            None => Some(Bucket::Include),
        }
    } else if is_binary(name) {
        if is_core(name) {
            Some(Bucket::Root)
        } else {
            match target {
                Some(PackageTarget::Components) => if passes(
                    archive_path,
                    structure,
                    Marker::Components,
                ) {
                    Some(Bucket::Component)
                } else {
                    None
                },
                Some(PackageTarget::Plugins) => if passes(
                    archive_path,
                    structure,
                    Marker::Plugins,
                ) {
                    Some(Bucket::Plugin)
                } else {
                    None
                },
                None => if in_folder(archive_path, "components"@) {
                    Some(Bucket::Component)
                } else if in_folder(archive_path, "plugins"@) || in_folder(
                    archive_path,
                    "plugin"@,
                ) {
                    Some(Bucket::Plugin)
                } else {
                    Some(Bucket::Unclassified)
                },
            }
        }
    } else {
        None
    }
}

/// The paths of the files that go to bucket `b`, in the order of the files.
pub open spec fn chosen(
    files: Seq<ExtractedFile>,
    structure: Seq<Seq<char>>,
    target: Option<PackageTarget>,
    b: Bucket,
) -> Seq<Seq<char>>
    decreases files.len(),
{
    if files.len() == 0 {
        Seq::empty()
    } else {
        let rest = chosen(files.drop_last(), structure, target, b);
        let f = files.last();
        if bucket_of(f.path@, f.archive_path@, structure, target) == Some(b) {
            rest.push(f.path@)
        } else {
            rest
        }
    }
}

impl PackageFiles {
    /// No files at all.
    pub fn new() -> (r: PackageFiles)
        ensures
            r.includes@.len() == 0,
            r.binaries@.len() == 0,
            r.root_binaries@.len() == 0,
            r.component_binaries@.len() == 0,
            r.plugin_binaries@.len() == 0,
    {
        PackageFiles {
            includes: Vec::new(),
            binaries: Vec::new(),
            root_binaries: Vec::new(),
            component_binaries: Vec::new(),
            plugin_binaries: Vec::new(),
        }
    }

    /// The paths of one bucket.
    pub open spec fn bucket(&self, b: Bucket) -> Seq<Seq<char>> {
        match b {
            Bucket::Include => texts(self.includes@),
            Bucket::Root => texts(self.root_binaries@),
            Bucket::Component => texts(self.component_binaries@),
            Bucket::Plugin => texts(self.plugin_binaries@),
            Bucket::Unclassified => texts(self.binaries@),
        }
    }

    /// Each bucket holds, sorted and each once, the paths of the files that
    /// the rules send to it.
    pub open spec fn classifies(
        &self,
        files: Seq<ExtractedFile>,
        structure: Seq<Seq<char>>,
        target: Option<PackageTarget>,
    ) -> bool {
        forall|b: Bucket| #[trigger]
            is_sorted_set_of(self.bucket(b), chosen(files, structure, target, b))
    }

    /// Whether no bucket holds a file.
    pub fn is_empty(&self) -> (r: bool)
        ensures
            r == (forall|b: Bucket| (#[trigger] self.bucket(b)).len() == 0),
    {
        let r = self.includes.len() == 0 && self.binaries.len() == 0 && self.root_binaries.len()
            == 0 && self.component_binaries.len() == 0 && self.plugin_binaries.len() == 0;
        proof {
            if r {
                assert forall|b: Bucket| (#[trigger] self.bucket(b)).len() == 0 by {}
            } else {
                assert(self.bucket(Bucket::Include).len() == self.includes.len());
                assert(self.bucket(Bucket::Unclassified).len() == self.binaries.len());
                assert(self.bucket(Bucket::Root).len() == self.root_binaries.len());
                assert(self.bucket(Bucket::Component).len() == self.component_binaries.len());
                assert(self.bucket(Bucket::Plugin).len() == self.plugin_binaries.len());
            }
        }
        r
    }
}

/// The last component of a path.
pub fn file_name_of(path: &[char]) -> (r: Vec<char>)
    ensures
        r@ == file_name(path@),
        r@.len() <= path@.len(),
        name_start(path@, path@.len() as int) == path@.len() - r@.len(),
{
    let mut i: usize = path.len();
    while i > 0 && path[i - 1] != '/'
        invariant
            i <= path.len(),
            name_start(path@, path.len() as int) == name_start(path@, i as int),
        decreases i,
    {
        i -= 1;
    }
    slice_of(path, i, path.len())
}

pub(crate) fn name_is_include(name: &[char]) -> (r: bool)
    ensures
        r == is_include(name@),
{
    let p = chars_of(".inc");
    has_suffix(name, p.as_slice())
}

fn name_is_binary(name: &[char]) -> (r: bool)
    ensures
        r == is_binary(name@),
{
    let dll = chars_of(".dll");
    let so = chars_of(".so");
    let dylib = chars_of(".dylib");
    has_suffix(name, dll.as_slice()) || has_suffix(name, so.as_slice()) || has_suffix(
        name,
        dylib.as_slice(),
    )
}

fn name_is_core(name: &[char]) -> (r: bool)
    ensures
        r == is_core(name@),
{
    let lower = to_lowercase(name);
    let amx = chars_of("amx");
    let lib = chars_of("lib");
    let log_core = chars_of("log-core");
    has(lower.as_slice(), amx.as_slice()) || has(lower.as_slice(), lib.as_slice()) || has(
        lower.as_slice(),
        log_core.as_slice(),
    )
}

fn holds_with(lower: &[char], folder: &[char], sep: char) -> (r: bool)
    ensures
        r == contains(rooted(lower@, sep), folder_pattern(folder@, sep)),
{
    let mut hay: Vec<char> = Vec::new();
    hay.push(sep);
    push_all(&mut hay, lower);
    let mut pattern: Vec<char> = Vec::new();
    pattern.push(sep);
    push_all(&mut pattern, folder);
    pattern.push(sep);
    assert(hay@ =~= rooted(lower@, sep));
    assert(pattern@ =~= folder_pattern(folder@, sep));
    has(hay.as_slice(), pattern.as_slice())
}

/// Whether the lower-case path leads through the folder.
fn holds(lower: &[char], folder: &str) -> (r: bool)
    ensures
        r == holds_folder(lower@, folder@),
{
    let f = chars_of(folder);
    holds_with(lower, f.as_slice(), '/') || holds_with(lower, f.as_slice(), '\\')
}

/// Whether the lower-case form `lower` of a path leads through a folder of
/// the marker.
fn is_under(lower: &[char], marker: Marker, path: Ghost<Seq<char>>) -> (r: bool)
    requires
        lower@ == lowercase(path@),
    ensures
        r == under(path@, marker),
{
    match marker {
        Marker::Components => holds(lower, "components") || holds(lower, "component"),
        Marker::Qawno => holds(lower, "qawno"),
        Marker::Plugins => holds(lower, "plugins"),
        Marker::Pawno => holds(lower, "pawno"),
    }
}

/// Whether some entry of the archive leads through a folder of the marker.
fn has_marker(structure: &Vec<Vec<char>>, marker: Marker, paths: Ghost<Seq<Seq<char>>>) -> (r:
    bool)
    requires
        structure@.len() == paths@.len(),
        forall|i: int| 0 <= i < paths@.len() ==> (#[trigger] structure@[i])@ == lowercase(paths@[i]),
    ensures
        r == any_under(paths@, marker),
{
    let mut i: usize = 0;
    while i < structure.len()
        invariant
            i <= structure.len(),
            structure@.len() == paths@.len(),
            forall|k: int|
                0 <= k < paths@.len() ==> (#[trigger] structure@[k])@ == lowercase(paths@[k]),
            forall|k: int| 0 <= k < i ==> !under(#[trigger] paths@[k], marker),
        decreases structure.len() - i,
    {
        if is_under(structure[i].as_slice(), marker, Ghost(paths@[i as int])) {
            return true;
        }
        i += 1;
    }
    false
}

/// Which markers the archive has.
struct Markers {
    components: bool,
    qawno: bool,
    plugins: bool,
    pawno: bool,
}

impl Markers {
    spec fn of(self, structure: Seq<Seq<char>>) -> bool {
        &&& self.components == any_under(structure, Marker::Components)
        &&& self.qawno == any_under(structure, Marker::Qawno)
        &&& self.plugins == any_under(structure, Marker::Plugins)
        &&& self.pawno == any_under(structure, Marker::Pawno)
    }
}

fn markers_of(archive_structure: &Vec<String>) -> (r: Markers)
    ensures
        r.of(texts(archive_structure@)),
{
    let mut lowered: Vec<Vec<char>> = Vec::new();
    let mut i: usize = 0;
    while i < archive_structure.len()
        invariant
            i <= archive_structure.len(),
            lowered@.len() == i,
            forall|k: int| 0 <= k < i ==> (#[trigger] lowered@[k])@ == lowercase(
                archive_structure@[k]@,
            ),
        decreases archive_structure.len() - i,
    {
        let chars = chars_of(archive_structure[i].as_str());
        lowered.push(to_lowercase(chars.as_slice()));
        i += 1;
    }
    let ghost paths = texts(archive_structure@);
    Markers {
        components: has_marker(&lowered, Marker::Components, Ghost(paths)),
        qawno: has_marker(&lowered, Marker::Qawno, Ghost(paths)),
        plugins: has_marker(&lowered, Marker::Plugins, Ghost(paths)),
        pawno: has_marker(&lowered, Marker::Pawno, Ghost(paths)),
    }
}

/// What one file is for.
fn classify(
    file: &ExtractedFile,
    markers: &Markers,
    target: Option<PackageTarget>,
    structure: Ghost<Seq<Seq<char>>>,
) -> (r: Option<Bucket>)
    requires
        markers.of(structure@),
    ensures
        r == bucket_of(file.path@, file.archive_path@, structure@, target),
{
    let path = chars_of(file.path.as_str());
    let name = file_name_of(path.as_slice());
    if name.len() == 0 {
        return None;
    }
    let archive = chars_of(file.archive_path.as_str());
    let lower = to_lowercase(archive.as_slice());
    let ghost ap = file.archive_path@;
    if name_is_include(name.as_slice()) {
        match target {
            Some(PackageTarget::Components) => if !markers.qawno || is_under(
                lower.as_slice(),
                Marker::Qawno,
                Ghost(ap),
            ) {
                Some(Bucket::Include)
            } else {
                None
            },
            Some(PackageTarget::Plugins) => if !markers.pawno || is_under(
                lower.as_slice(),
                Marker::Pawno,
                Ghost(ap),
            ) {
                Some(Bucket::Include)
            } else {
                None
            },
            None => Some(Bucket::Include),
        }
    } else if name_is_binary(name.as_slice()) {
        if name_is_core(name.as_slice()) {
            Some(Bucket::Root)
        } else {
            match target {
                Some(PackageTarget::Components) => if !markers.components || is_under(
                    lower.as_slice(),
                    Marker::Components,
                    Ghost(ap),
                ) {
                    Some(Bucket::Component)
                } else {
                    None
                },
                Some(PackageTarget::Plugins) => if !markers.plugins || is_under(
                    lower.as_slice(),
                    Marker::Plugins,
                    Ghost(ap),
                ) {
                    Some(Bucket::Plugin)
                } else {
                    None
                },
                None => if holds(lower.as_slice(), "components") {
                    Some(Bucket::Component)
                } else if holds(lower.as_slice(), "plugins") || holds(lower.as_slice(), "plugin") {
                    Some(Bucket::Plugin)
                } else {
                    Some(Bucket::Unclassified)
                },
            }
        }
    } else {
        None
    }
}

proof fn lemma_chosen_step(
    files: Seq<ExtractedFile>,
    structure: Seq<Seq<char>>,
    target: Option<PackageTarget>,
    b: Bucket,
    i: int,
)
    requires
        0 <= i < files.len(),
    ensures
        chosen(files.take(i + 1), structure, target, b) == if bucket_of(
            files[i].path@,
            files[i].archive_path@,
            structure,
            target,
        ) == Some(b) {
            chosen(files.take(i), structure, target, b).push(files[i].path@)
        } else {
            chosen(files.take(i), structure, target, b)
        },
{
    assert(files.take(i + 1).drop_last() =~= files.take(i));
    assert(files.take(i + 1).last() == files[i]);
}

/// A path is chosen for a bucket exactly if some file with that path goes to
/// the bucket.
pub proof fn lemma_chosen_contains(
    files: Seq<ExtractedFile>,
    structure: Seq<Seq<char>>,
    target: Option<PackageTarget>,
    b: Bucket,
    path: Seq<char>,
)
    ensures
        chosen(files, structure, target, b).contains(path) <==> exists|i: int|
            0 <= i < files.len() && (#[trigger] files[i]).path@ == path && bucket_of(
                files[i].path@,
                files[i].archive_path@,
                structure,
                target,
            ) == Some(b),
    decreases files.len(),
{
    let here = chosen(files, structure, target, b);
    if files.len() > 0 {
        let front = files.drop_last();
        let rest = chosen(front, structure, target, b);
        let f = files.last();
        let takes = bucket_of(f.path@, f.archive_path@, structure, target) == Some(b);
        lemma_chosen_contains(front, structure, target, b, path);
        if here.contains(path) {
            let k = choose|k: int| 0 <= k < here.len() && here[k] == path;
            if takes && k == rest.len() {
                assert(files[files.len() - 1].path@ == path);
            } else {
                assert(rest[k] == path);
                let i = choose|i: int|
                    0 <= i < front.len() && (#[trigger] front[i]).path@ == path && bucket_of(
                        front[i].path@,
                        front[i].archive_path@,
                        structure,
                        target,
                    ) == Some(b);
                assert(files[i] == front[i]);
            }
        }
        if exists|i: int|
            0 <= i < files.len() && (#[trigger] files[i]).path@ == path && bucket_of(
                files[i].path@,
                files[i].archive_path@,
                structure,
                target,
            ) == Some(b) {
            let i = choose|i: int|
                0 <= i < files.len() && (#[trigger] files[i]).path@ == path && bucket_of(
                    files[i].path@,
                    files[i].archive_path@,
                    structure,
                    target,
                ) == Some(b);
            if i == files.len() - 1 {
                assert(here[rest.len() as int] == path);
            } else {
                assert(front[i] == files[i]);
                assert(rest.contains(path));
                let k = choose|k: int| 0 <= k < rest.len() && rest[k] == path;
                assert(here[k] == path);
            }
        }
    }
}

/// The name of a binary is not empty, and is not the name of an include
/// file.
pub proof fn lemma_binary_name(name: Seq<char>)
    requires
        is_binary(name),
    ensures
        name.len() > 0,
        !is_include(name),
{
    reveal_strlit(".inc");
    reveal_strlit(".dll");
    reveal_strlit(".so");
    reveal_strlit(".dylib");
    let n = name.len() as int;
    if is_include(name) {
        assert(name.subrange(n - 4, n)[3] == 'c');
        if ends_with(name, ".dll"@) {
            assert(name.subrange(n - 4, n)[3] == 'l');
        } else if ends_with(name, ".so"@) {
            assert(name.subrange(n - 3, n)[2] == 'o');
        } else {
            assert(name.subrange(n - 6, n)[5] == 'b');
        }
    }
}

/// A binary with the name of a core library is installed in the root of the
/// workspace, whatever the target and whatever folder it lies in.
pub proof fn lemma_core_binary_goes_to_root(
    files: Seq<ExtractedFile>,
    structure: Seq<Seq<char>>,
    target: Option<PackageTarget>,
    sorted: PackageFiles,
    i: int,
)
    requires
        sorted.classifies(files, structure, target),
        0 <= i < files.len(),
        is_binary(file_name(files[i].path@)),
        is_core(file_name(files[i].path@)),
    ensures
        sorted.bucket(Bucket::Root).contains(files[i].path@),
{
    lemma_chosen_contains(files, structure, target, Bucket::Root, files[i].path@);
    lemma_binary_name(file_name(files[i].path@));
    assert(is_sorted_set_of(
        sorted.bucket(Bucket::Root),
        chosen(files, structure, target, Bucket::Root),
    ));
}

/// The release platform's two parts of a repository name.
#[derive(Debug, Clone)]
pub struct RepoName {
    pub owner: String,
    pub name: String,
}

/// A repository name is an owner and a name with one `/` between them, both
/// non-empty.
pub open spec fn repo_parts(repo: Seq<char>) -> Option<(Seq<char>, Seq<char>)> {
    let k = crate::text::index_of_char(repo, '/', 0);
    if 0 < k < repo.len() - 1 && !repo.subrange(k + 1, repo.len() as int).contains('/') {
        Some((repo.subrange(0, k), repo.subrange(k + 1, repo.len() as int)))
    } else {
        None
    }
}

/// What kind of archive the file name denotes, `None` where it is no archive.
pub open spec fn archive_kind_of(name: Seq<char>) -> Option<ArchiveKind> {
    if ends_with(name, ".zip"@) {
        Some(ArchiveKind::Zip)
    } else if ends_with(name, ".tar.gz"@) || ends_with(name, ".tgz"@) {
        Some(ArchiveKind::TarGz)
    } else if ends_with(name, ".rar"@) {
        Some(ArchiveKind::Rar)
    } else {
        None
    }
}

/// What is done with an asset of the given name.
pub open spec fn asset_kind_of(name: Seq<char>) -> AssetKind {
    match archive_kind_of(name) {
        Some(kind) => AssetKind::Archive(kind),
        None => if is_include(name) {
            AssetKind::Include
        } else if is_binary(name) {
            AssetKind::Binary
        } else {
            AssetKind::Other
        },
    }
}

/// The version that the tag of a release spells, `None` where it spells
/// none.
pub open spec fn tag_version(release: GitHubRelease) -> Option<VersionView> {
    parse_version(release.tag_name@)
}

/// The tag of release `i` is a version that the constraint admits.
pub open spec fn admitted(releases: Seq<GitHubRelease>, c: ConstraintView, i: int) -> bool {
    0 <= i < releases.len() && match tag_version(releases[i]) {
        Some(v) => satisfies(c, v),
        None => false,
    }
}

/// Release `k` carries the newest admitted version: no admitted release is
/// newer, and every admitted release after it is older.
pub open spec fn is_newest_admitted(releases: Seq<GitHubRelease>, c: ConstraintView, k: int) -> bool {
    &&& admitted(releases, c, k)
    &&& forall|j: int| #[trigger]
        admitted(releases, c, j) ==> !precedes(
            tag_version(releases[k])->0,
            tag_version(releases[j])->0,
        )
    &&& forall|j: int|
        k < j && #[trigger] admitted(releases, c, j) ==> precedes(
            tag_version(releases[j])->0,
            tag_version(releases[k])->0,
        )
}

/// Release `i` is the one that the constraint selects: the first release
/// whose tag spells the newest admitted version, suffix included.
pub open spec fn selects(releases: Seq<GitHubRelease>, c: ConstraintView, i: int) -> bool {
    exists|k: int|
        #![trigger is_newest_admitted(releases, c, k)]
        is_newest_admitted(releases, c, k) && 0 <= i <= k && tag_version(releases[i])
            == tag_version(releases[k]) && forall|j: int|
            0 <= j < i ==> tag_version(#[trigger] releases[j]) != tag_version(releases[k])
}

/// No release has a tag that is a version which the constraint admits.
pub open spec fn none_admitted(releases: Seq<GitHubRelease>, c: ConstraintView) -> bool {
    forall|i: int| !#[trigger] admitted(releases, c, i)
}

/// `candidates` are the versions that the tags of the releases spell, in the
/// order of the releases, and `origin[k]` is where `candidates[k]` came from.
spec fn parsed_tags(releases: Seq<GitHubRelease>, candidates: Seq<Version>, origin: Seq<usize>) -> bool {
    &&& candidates.len() == origin.len()
    &&& forall|k: int|
        0 <= k < origin.len() ==> (#[trigger] origin[k]) < releases.len() && tag_version(
            releases[origin[k] as int],
        ) == Some(candidates[k]@)
    &&& forall|j: int, k: int| 0 <= j < k < origin.len() ==> origin[j] < origin[k]
    &&& forall|i: int|
        0 <= i < releases.len() && tag_version(#[trigger] releases[i]) is Some ==> exists|k: int|
            0 <= k < origin.len() && #[trigger] origin[k] == i
}

/// The newest admitted candidate comes from the release with the newest
/// admitted version.
proof fn lemma_newest_candidate(
    releases: Seq<GitHubRelease>,
    candidates: Seq<Version>,
    origin: Seq<usize>,
    c: ConstraintView,
    best: int,
)
    requires
        parsed_tags(releases, candidates, origin),
        is_latest(c, candidates, best),
    ensures
        is_newest_admitted(releases, c, origin[best] as int),
{
    let k = origin[best] as int;
    assert forall|j: int| #[trigger] admitted(releases, c, j) implies !precedes(
        tag_version(releases[k])->0,
        tag_version(releases[j])->0,
    ) && (k < j ==> precedes(tag_version(releases[j])->0, tag_version(releases[k])->0)) by {
        assert(tag_version(releases[j]) is Some);
        let t = choose|t: int| 0 <= t < origin.len() && #[trigger] origin[t] == j;
        assert(satisfies(c, candidates[t]@));
        if k < j {
            if t <= best {
                if t < best {
                    assert(origin[t] < origin[best]);
                }
            }
            assert(best < t);
        }
    }
}

/// Where no candidate is admitted, no release is.
proof fn lemma_no_candidate(
    releases: Seq<GitHubRelease>,
    candidates: Seq<Version>,
    origin: Seq<usize>,
    c: ConstraintView,
)
    requires
        parsed_tags(releases, candidates, origin),
        forall|j: int| 0 <= j < candidates.len() ==> !satisfies(c, #[trigger] candidates[j]@),
    ensures
        none_admitted(releases, c),
{
    assert forall|i: int| !#[trigger] admitted(releases, c, i) by {
        if 0 <= i < releases.len() && tag_version(releases[i]) is Some {
            let t = choose|t: int| 0 <= t < origin.len() && #[trigger] origin[t] == i;
            assert(!satisfies(c, candidates[t]@));
        }
    }
}

/// The downloader's part that decides: it makes no request itself.
#[derive(Debug, Clone, Copy, Default)]
pub struct PackageDownloader {}

impl PackageDownloader {
    /// The downloader; it holds no state.
    pub fn new() -> (r: PackageDownloader) {
        PackageDownloader {  }
    }

    /// Splits a repository name into owner and name.
    ///
    /// Fails with a `Config` error where the text is not of the form
    /// `owner/name`.
    pub fn parse_repo(&self, repo: &str) -> (r: Result<RepoName, OpenCliError>)
        ensures
            match r {
                Ok(parts) => repo_parts(repo@) == Some((parts.owner@, parts.name@)),
                Err(e) => repo_parts(repo@) is None && e is Config && e.message()
                    == "Invalid GitHub repository format: "@ + repo@,
            },
    {
        let chars = chars_of(repo);
        let s = chars.as_slice();
        let k = find_char(s, '/', 0);
        if k > 0 && k < s.len() && k < s.len() - 1 {
            let tail = &s[k + 1..s.len()];
            let more = find_char(tail, '/', 0);
            proof {
                lemma_index_of_char(tail@, '/', 0);
            }
            if more == tail.len() {
                return Ok(RepoName { owner: string_of(&s[0..k]), name: string_of(tail) });
            }
        }
        Err(OpenCliError::Config(join2("Invalid GitHub repository format: ", repo)))
    }

    /// What kind of archive the file name denotes.
    pub fn archive_kind(&self, filename: &str) -> (r: Option<ArchiveKind>)
        ensures
            r == archive_kind_of(filename@),
    {
        let name = chars_of(filename);
        let zip = chars_of(".zip");
        let tar_gz = chars_of(".tar.gz");
        let tgz = chars_of(".tgz");
        let rar = chars_of(".rar");
        if has_suffix(name.as_slice(), zip.as_slice()) {
            Some(ArchiveKind::Zip)
        } else if has_suffix(name.as_slice(), tar_gz.as_slice()) || has_suffix(
            name.as_slice(),
            tgz.as_slice(),
        ) {
            Some(ArchiveKind::TarGz)
        } else if has_suffix(name.as_slice(), rar.as_slice()) {
            Some(ArchiveKind::Rar)
        } else {
            None
        }
    }

    /// Whether the file name is that of an archive.
    pub fn is_archive(&self, filename: &str) -> (r: bool)
        ensures
            r == archive_kind_of(filename@) is Some,
    {
        self.archive_kind(filename).is_some()
    }

    /// What is done with an asset of the given name.
    pub fn asset_kind(&self, name: &str) -> (r: AssetKind)
        ensures
            r == asset_kind_of(name@),
    {
        match self.archive_kind(name) {
            Some(kind) => AssetKind::Archive(kind),
            None => {
                let chars = chars_of(name);
                if name_is_include(chars.as_slice()) {
                    AssetKind::Include
                } else if name_is_binary(chars.as_slice()) {
                    AssetKind::Binary
                } else {
                    AssetKind::Other
                }
            },
        }
    }

    /// Files a binary that came as an asset of its own: in the root if it has
    /// the name of a core library, among the unclassified binaries if not.
    /// A path without a file name is not filed.
    pub fn categorize_binary(&self, file_path: &str, package_files: &mut PackageFiles)
        ensures
            final(package_files).includes == old(package_files).includes,
            final(package_files).component_binaries == old(package_files).component_binaries,
            final(package_files).plugin_binaries == old(package_files).plugin_binaries,
            file_name(file_path@).len() == 0 ==> *final(package_files) == *old(package_files),
            file_name(file_path@).len() > 0 && is_core(file_name(file_path@)) ==> final(package_files).binaries == old(package_files).binaries && texts(
                final(package_files).root_binaries@,
            ) == texts(old(package_files).root_binaries@).push(file_path@),
            file_name(file_path@).len() > 0 && !is_core(file_name(file_path@)) ==> final(package_files).root_binaries == old(package_files).root_binaries && texts(
                final(package_files).binaries@,
            ) == texts(old(package_files).binaries@).push(file_path@),
    {
        let path = chars_of(file_path);
        let name = file_name_of(path.as_slice());
        if name.len() == 0 {
            return ;
        }
        if name_is_core(name.as_slice()) {
            package_files.root_binaries.push(file_path.to_owned());
            assert(texts(package_files.root_binaries@) =~= texts(
                old(package_files).root_binaries@,
            ).push(file_path@));
        } else {
            package_files.binaries.push(file_path.to_owned());
            assert(texts(package_files.binaries@) =~= texts(old(package_files).binaries@).push(
                file_path@,
            ));
        }
    }

    /// Files a binary by the folder it had in its archive, as a
    /// classification without a target does.
    pub fn categorize_binary_by_path(
        &self,
        file_path: &str,
        archive_path: &str,
        package_files: &mut PackageFiles,
    )
        ensures
            final(package_files).includes == old(package_files).includes,
            ({
                let name = file_name(file_path@);
                let b = if name.len() == 0 {
                    None
                } else if is_core(name) {
                    Some(Bucket::Root)
                } else if in_folder(archive_path@, "components"@) {
                    Some(Bucket::Component)
                } else if in_folder(archive_path@, "plugins"@) || in_folder(
                    archive_path@,
                    "plugin"@,
                ) {
                    Some(Bucket::Plugin)
                } else {
                    Some(Bucket::Unclassified)
                };
                forall|other: Bucket|
                    (#[trigger] final(package_files).bucket(other)) == if Some(other) == b {
                        old(package_files).bucket(other).push(file_path@)
                    } else {
                        old(package_files).bucket(other)
                    }
            }),
    {
        let path = chars_of(file_path);
        let name = file_name_of(path.as_slice());
        if name.len() == 0 {
            return ;
        }
        let archive = chars_of(archive_path);
        let lower = to_lowercase(archive.as_slice());
        if name_is_core(name.as_slice()) {
            package_files.root_binaries.push(file_path.to_owned());
            assert(texts(package_files.root_binaries@) =~= texts(
                old(package_files).root_binaries@,
            ).push(file_path@));
        } else if holds(lower.as_slice(), "components") {
            package_files.component_binaries.push(file_path.to_owned());
            assert(texts(package_files.component_binaries@) =~= texts(
                old(package_files).component_binaries@,
            ).push(file_path@));
        } else if holds(lower.as_slice(), "plugins") || holds(lower.as_slice(), "plugin") {
            package_files.plugin_binaries.push(file_path.to_owned());
            assert(texts(package_files.plugin_binaries@) =~= texts(
                old(package_files).plugin_binaries@,
            ).push(file_path@));
        } else {
            package_files.binaries.push(file_path.to_owned());
            assert(texts(package_files.binaries@) =~= texts(old(package_files).binaries@).push(
                file_path@,
            ));
        }
    }

    /// Sorts the files taken out of an archive into what gets installed
    /// where. `archive_structure` holds the paths of all entries of the
    /// archive, folders included.
    pub fn filter_files_by_target(
        &self,
        all_files: &Vec<ExtractedFile>,
        archive_structure: &Vec<String>,
        target: Option<PackageTarget>,
    ) -> (r: PackageFiles)
        ensures
            r.classifies(all_files@, texts(archive_structure@), target),
    {
        let markers = markers_of(archive_structure);
        let ghost st = texts(archive_structure@);
        let mut includes: Vec<String> = Vec::new();
        let mut binaries: Vec<String> = Vec::new();
        let mut root: Vec<String> = Vec::new();
        let mut components: Vec<String> = Vec::new();
        let mut plugins: Vec<String> = Vec::new();
        let mut i: usize = 0;
        while i < all_files.len()
            invariant
                i <= all_files.len(),
                markers.of(st),
                texts(includes@) == chosen(all_files@.take(i as int), st, target, Bucket::Include),
                texts(binaries@) == chosen(
                    all_files@.take(i as int),
                    st,
                    target,
                    Bucket::Unclassified,
                ),
                texts(root@) == chosen(all_files@.take(i as int), st, target, Bucket::Root),
                texts(components@) == chosen(
                    all_files@.take(i as int),
                    st,
                    target,
                    Bucket::Component,
                ),
                texts(plugins@) == chosen(all_files@.take(i as int), st, target, Bucket::Plugin),
            decreases all_files.len() - i,
        {
            let file = &all_files[i];
            proof {
                lemma_chosen_step(all_files@, st, target, Bucket::Include, i as int);
                lemma_chosen_step(all_files@, st, target, Bucket::Unclassified, i as int);
                lemma_chosen_step(all_files@, st, target, Bucket::Root, i as int);
                lemma_chosen_step(all_files@, st, target, Bucket::Component, i as int);
                lemma_chosen_step(all_files@, st, target, Bucket::Plugin, i as int);
            }
            let ghost before = (
                texts(includes@),
                texts(binaries@),
                texts(root@),
                texts(components@),
                texts(plugins@),
            );
            match classify(file, &markers, target, Ghost(st)) {
                Some(Bucket::Include) => {
                    includes.push(file.path.clone());
                    assert(texts(includes@) =~= before.0.push(file.path@));
                },
                Some(Bucket::Unclassified) => {
                    binaries.push(file.path.clone());
                    assert(texts(binaries@) =~= before.1.push(file.path@));
                },
                Some(Bucket::Root) => {
                    root.push(file.path.clone());
                    assert(texts(root@) =~= before.2.push(file.path@));
                },
                Some(Bucket::Component) => {
                    components.push(file.path.clone());
                    assert(texts(components@) =~= before.3.push(file.path@));
                },
                Some(Bucket::Plugin) => {
                    plugins.push(file.path.clone());
                    assert(texts(plugins@) =~= before.4.push(file.path@));
                },
                None => {},
            }
            i += 1;
        }
        assert(all_files@.take(all_files.len() as int) == all_files@);
        let r = PackageFiles {
            includes: sort_dedup(&includes),
            binaries: sort_dedup(&binaries),
            root_binaries: sort_dedup(&root),
            component_binaries: sort_dedup(&components),
            plugin_binaries: sort_dedup(&plugins),
        };
        assert forall|b: Bucket| #[trigger]
            is_sorted_set_of(r.bucket(b), chosen(all_files@, st, target, b)) by {}
        r
    }

    /// The release that the constraint selects: the first one whose tag
    /// spells the newest admitted version.
    ///
    /// Fails with `NotFound` where no tag is a version that the constraint
    /// admits.
    pub fn find_matching_version<'a>(
        &self,
        releases: &'a Vec<GitHubRelease>,
        constraint: &VersionConstraint,
    ) -> (r: Result<&'a GitHubRelease, OpenCliError>)
        ensures
            match r {
                Ok(release) => exists|i: int|
                    selects(releases@, constraint@, i) && *release == #[trigger] releases@[i],
                Err(e) => none_admitted(releases@, constraint@) && e is NotFound && e.message()
                    == "No matching version found for constraint"@,
            },
    {
        let mut candidates: Vec<Version> = Vec::new();
        let mut origin: Vec<usize> = Vec::new();
        let mut i: usize = 0;
        while i < releases.len()
            invariant
                i <= releases.len(),
                parsed_tags(releases@.take(i as int), candidates@, origin@),
            decreases releases.len() - i,
        {
            let ghost o = origin@;
            let ghost front = releases@.take(i as int);
            let ghost next = releases@.take(i + 1);
            assert(forall|k: int| 0 <= k < i ==> front[k] == next[k]);
            match Version::parse(releases[i].tag_name.as_str()) {
                Ok(v) => {
                    candidates.push(v);
                    origin.push(i);
                    proof {
                        assert forall|t: int|
                            0 <= t < next.len() && tag_version(
                                #[trigger] next[t],
                            ) is Some implies exists|k: int|
                            0 <= k < origin@.len() && #[trigger] origin@[k] == t by {
                            if t < i {
                                assert(tag_version(front[t]) is Some);
                                let k = choose|k: int| 0 <= k < o.len() && #[trigger] o[k] == t;
                                assert(origin@[k] == t);
                            } else {
                                assert(origin@[o.len() as int] == t);
                            }
                        }
                    }
                },
                Err(_) => {
                    proof {
                        assert forall|t: int|
                            0 <= t < next.len() && tag_version(
                                #[trigger] next[t],
                            ) is Some implies exists|k: int|
                            0 <= k < origin@.len() && #[trigger] origin@[k] == t by {
                            assert(front[t] == next[t]);
                            assert(tag_version(front[t]) is Some);
                        }
                    }
                },
            }
            i += 1;
        }
        assert(releases@.take(releases.len() as int) == releases@);
        match constraint.latest_matching_index(candidates.as_slice()) {
            Some(best) => {
                proof {
                    lemma_newest_candidate(
                        releases@,
                        candidates@,
                        origin@,
                        constraint@,
                        best as int,
                    );
                }
                let last = origin[best];
                let mut j: usize = 0;
                while j < last
                    invariant
                        j <= last < releases.len(),
                        best < candidates.len(),
                        is_newest_admitted(releases@, constraint@, last as int),
                        tag_version(releases@[last as int]) == Some(candidates@[best as int]@),
                        forall|t: int|
                            0 <= t < j ==> tag_version(#[trigger] releases@[t]) != tag_version(
                                releases@[last as int],
                            ),
                    decreases last - j,
                {
                    match Version::parse(releases[j].tag_name.as_str()) {
                        Ok(v) => {
                            if v == candidates[best] {
                                assert(selects(releases@, constraint@, j as int));
                                return Ok(&releases[j]);
                            }
                        },
                        Err(_) => {},
                    }
                    j += 1;
                }
                assert(selects(releases@, constraint@, last as int));
                Ok(&releases[last])
            },
            None => {
                proof {
                    lemma_no_candidate(releases@, candidates@, origin@, constraint@);
                }
                Err(OpenCliError::not_found("No matching version found for constraint"))
            },
        }
    }
}

} // verus!
