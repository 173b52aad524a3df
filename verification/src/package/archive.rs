//! Reading archives: the entries of a zip or a gzipped tar archive held in
//! memory, and what unpacking them into a folder writes.

use crate::build::config::PackageTarget;
use crate::names::texts;
use crate::package::downloader::{ArchiveKind, ExtractedFile, PackageDownloader, PackageFiles};
use crate::paths::{join, join_path};
use crate::result::{join2, OpenCliError};
use flate2::read::GzDecoder;
use std::io::{Cursor, Read};
use tar::Archive;
use vstd::prelude::*;
use zip::ZipArchive;

verus! {

/// The step at which the reader of an archive failed.
#[derive(Debug, Clone, Copy, PartialEq, Eq, Structural)]
pub enum Step {
    /// Opening the archive.
    Open,
    /// Finding an entry.
    Entry,
    /// Reading the path of an entry.
    Path,
    /// Reading the data of an entry.
    Read,
}

/// Why the reader of an archive failed: at which step, and the reader's own
/// message.
#[derive(Debug, Clone)]
pub struct ReadError {
    pub step: Step,
    pub message: String,
}

/// A failure as a mathematical value.
pub type Failure = (Step, Seq<char>);

impl View for ReadError {
    type V = Failure;

    open spec fn view(&self) -> Failure {
        (self.step, self.message@)
    }
}

/// The failure to open an archive, with the reader's message.
pub fn open_failure(message: String) -> (r: ReadError)
    ensures
        r@ == (Step::Open, message@),
{
    ReadError { step: Step::Open, message }
}

/// The failure to find an entry, with the reader's message.
pub fn entry_failure(message: String) -> (r: ReadError)
    ensures
        r@ == (Step::Entry, message@),
{
    ReadError { step: Step::Entry, message }
}

/// The failure to read the path of an entry, with the reader's message.
pub fn path_failure(message: String) -> (r: ReadError)
    ensures
        r@ == (Step::Path, message@),
{
    ReadError { step: Step::Path, message }
}

/// The failure to read the data of an entry, with the reader's message.
pub fn read_failure(message: String) -> (r: ReadError)
    ensures
        r@ == (Step::Read, message@),
{
    ReadError { step: Step::Read, message }
}

/// An entry as the archive's reader hands it out: its path where that is
/// text, a flag, and its data. The flag of an entry of a zip archive says
/// that it is a folder; that of an entry of a tar archive says that it is a
/// regular file.
#[derive(Debug, Clone)]
pub struct RawEntry {
    pub path: Option<String>,
    pub flag: bool,
    pub data: Vec<u8>,
}

/// A raw entry as a mathematical value.
pub type Raw = (Option<Seq<char>>, bool, Seq<u8>);

impl View for RawEntry {
    type V = Raw;

    open spec fn view(&self) -> Raw {
        (
            match self.path {
                Some(p) => Some(p@),
                None => None,
            },
            self.flag,
            self.data@,
        )
    }
}

/// An entry of an archive.
#[derive(Debug, Clone)]
pub struct ArchiveEntry {
    /// The path inside the archive.
    pub path: String,
    /// Whether the entry is a file with data to write.
    pub is_file: bool,
    /// Whether the entry is a folder to create.
    pub is_dir: bool,
    pub data: Vec<u8>,
}

/// An entry as a mathematical value.
pub struct EntryView {
    pub path: Seq<char>,
    pub is_file: bool,
    pub is_dir: bool,
    pub data: Seq<u8>,
}

impl View for ArchiveEntry {
    type V = EntryView;

    open spec fn view(&self) -> EntryView {
        EntryView { path: self.path@, is_file: self.is_file, is_dir: self.is_dir, data: self.data@ }
    }
}

/// A file to write.
#[derive(Debug, Clone)]
pub struct FileWrite {
    pub path: String,
    pub data: Vec<u8>,
}

/// What unpacking an archive comes to.
#[derive(Debug, Clone)]
pub struct Extraction {
    /// The folders to create, in the order of the archive.
    pub dirs: Vec<String>,
    /// The files to write, in the order of the archive.
    pub writes: Vec<FileWrite>,
    /// The files by what they are for.
    pub files: PackageFiles,
}

/// How many entries the zip archive in `bytes` has, or the message of the
/// error with which it is refused.
pub uninterp spec fn zip_count(bytes: Seq<u8>) -> Result<nat, Seq<char>>;

/// The entry with the given index of the zip archive in `bytes`, or the
/// step and the message of the error with which it cannot be read.
pub uninterp spec fn zip_item(bytes: Seq<u8>, index: nat) -> Result<Raw, Failure>;

/// How many entries the gzipped tar archive in `bytes` has, or the message of
/// the error with which it is refused.
pub uninterp spec fn tar_count(bytes: Seq<u8>) -> Result<nat, Seq<char>>;

/// The entry with the given index of the gzipped tar archive in `bytes`,
/// `None` where the archive has no such entry, or the step and the message
/// of the error with which it cannot be read.
pub uninterp spec fn tar_item(bytes: Seq<u8>, index: nat) -> Result<Option<Raw>, Failure>;

/// A count that was read.
pub open spec fn count_ok(n: nat) -> Result<nat, Seq<char>> {
    Ok(n)
}

/// A count that could not be read.
pub open spec fn count_err(m: Seq<char>) -> Result<nat, Seq<char>> {
    Err(m)
}

/// An entry that was read.
pub open spec fn item_ok(e: Raw) -> Result<Raw, Failure> {
    Ok(e)
}

/// An entry that could not be read.
pub open spec fn item_err(f: Failure) -> Result<Raw, Failure> {
    Err(f)
}

/// An entry that was looked for, and read where it was there.
pub open spec fn sought_ok(e: Option<Raw>) -> Result<Option<Raw>, Failure> {
    Ok(e)
}

/// An entry that was looked for and could not be read.
pub open spec fn sought_err(f: Failure) -> Result<Option<Raw>, Failure> {
    Err(f)
}

/// `ZipArchive::new` on the bytes and `len`: the number of entries, or the
/// error's message. It depends on the bytes alone.
#[verifier::external_body]
fn zip_len(bytes: &[u8]) -> (r: Result<usize, String>)
    ensures
        r matches Ok(n) ==> zip_count(bytes@) == count_ok(n as nat),
        r matches Err(m) ==> zip_count(bytes@) == count_err(m@),
{
    ZipArchive::new(Cursor::new(bytes)).map(|a| a.len()).map_err(|e| e.to_string())
}

/// `ZipArchive::by_index` on the archive in the bytes: the name of the entry,
/// whether it is a folder, and its data; or the message of the error, and
/// whether it came from opening the archive, from `by_index`, from the name
/// or from reading the data. It depends on the bytes and the index alone.
#[verifier::external_body]
fn zip_entry(bytes: &[u8], index: usize) -> (r: Result<RawEntry, ReadError>)
    ensures
        r matches Ok(e) ==> zip_item(bytes@, index as nat) == item_ok(e@),
        r matches Err(f) ==> zip_item(bytes@, index as nat) == item_err(f@),
{
    let mut archive = ZipArchive::new(Cursor::new(bytes)).map_err(|e| open_failure(e.to_string()))?;
    let mut file = archive.by_index(index).map_err(|e| entry_failure(e.to_string()))?;
    let path = file.name().map_err(|e| path_failure(e.to_string()))?.to_string();
    let flag = file.is_dir();
    let mut data = Vec::new();
    file.read_to_end(&mut data).map_err(|e| read_failure(e.to_string()))?;
    Ok(RawEntry { path: Some(path), flag, data })
}

/// `Archive::entries` on the gunzipped bytes, counted: the number of entries,
/// or the error's message. It depends on the bytes alone.
#[verifier::external_body]
fn tar_len(bytes: &[u8]) -> (r: Result<usize, String>)
    ensures
        r matches Ok(n) ==> tar_count(bytes@) == count_ok(n as nat),
        r matches Err(m) ==> tar_count(bytes@) == count_err(m@),
{
    Archive::new(GzDecoder::new(bytes)).entries().map(|entries| entries.count()).map_err(
        |e| e.to_string(),
    )
}

/// The entry with the given index of `Archive::entries` on the gunzipped
/// bytes: its path where that is text, whether it is a regular file, and its
/// data; `None` where the archive has no such entry; or the message of the
/// error, and whether it came from `entries`, from the entry, from its path
/// or from reading its data. It depends on the bytes and the index alone.
#[verifier::external_body]
fn tar_entry(bytes: &[u8], index: usize) -> (r: Result<Option<RawEntry>, ReadError>)
    ensures
        r matches Ok(e) ==> tar_item(bytes@, index as nat) == sought_ok(sought(e)),
        r matches Err(f) ==> tar_item(bytes@, index as nat) == sought_err(f@),
{
    let mut archive = Archive::new(GzDecoder::new(bytes));
    let mut entries = archive.entries().map_err(|e| open_failure(e.to_string()))?;
    let found = entries.nth(index).transpose().map_err(|e| entry_failure(e.to_string()))?;
    let Some(mut entry) = found else {
        return Ok(None);
    };
    let path = entry.path().map_err(|e| path_failure(e.to_string()))?.to_str().map(String::from);
    let flag = entry.header().entry_type().is_file();
    let mut data = Vec::new();
    entry.read_to_end(&mut data).map_err(|e| read_failure(e.to_string()))?;
    Ok(Some(RawEntry { path, flag, data }))
}

/// What was looked for and found, as a mathematical value.
pub open spec fn sought(e: Option<RawEntry>) -> Option<Raw> {
    match e {
        Some(raw) => Some(raw@),
        None => None,
    }
}

/// What stands before the reader's message in the message of an error.
pub open spec fn step_label(kind: ArchiveKind, step: Step) -> Seq<char> {
    match kind {
        ArchiveKind::Zip => match step {
            Step::Open => "Invalid ZIP archive: "@,
            Step::Entry => "ZIP extraction error: "@,
            Step::Path => "ZIP extraction error: "@,
            Step::Read => "ZIP read error: "@,
        },
        _ => match step {
            Step::Open => "TAR extraction error: "@,
            Step::Entry => "TAR entry error: "@,
            Step::Path => "TAR path error: "@,
            Step::Read => "TAR read error: "@,
        },
    }
}

/// How many entries an archive of the given kind has. An archive that cannot
/// be unpacked has none.
pub open spec fn count_of(kind: ArchiveKind, bytes: Seq<u8>) -> Result<nat, Seq<char>> {
    match kind {
        ArchiveKind::Zip => match zip_count(bytes) {
            Ok(n) => Ok(n),
            Err(m) => Err(step_label(kind, Step::Open) + m),
        },
        ArchiveKind::TarGz => match tar_count(bytes) {
            Ok(n) => Ok(n),
            Err(m) => Err(step_label(kind, Step::Open) + m),
        },
        ArchiveKind::Rar => Ok(0),
    }
}

/// What a raw entry of an archive of the given kind is. A path that is no
/// text counts as the empty path.
pub open spec fn entry_of(kind: ArchiveKind, raw: Raw) -> EntryView {
    let path = match raw.0 {
        Some(p) => p,
        None => Seq::empty(),
    };
    match kind {
        ArchiveKind::Zip => EntryView { path, is_file: !raw.1, is_dir: raw.1, data: raw.2 },
        _ => EntryView { path, is_file: raw.1, is_dir: false, data: raw.2 },
    }
}

/// The entry with the given index of an archive of the given kind, or the
/// message of the error with which it cannot be read.
pub open spec fn item_of(kind: ArchiveKind, bytes: Seq<u8>, index: nat) -> Result<
    EntryView,
    Seq<char>,
> {
    match kind {
        ArchiveKind::Zip => match zip_item(bytes, index) {
            Ok(raw) => Ok(entry_of(kind, raw)),
            Err(f) => Err(step_label(kind, f.0) + f.1),
        },
        _ => match tar_item(bytes, index) {
            Ok(Some(raw)) => Ok(entry_of(kind, raw)),
            Ok(None) => Err("TAR entry error: no such entry"@),
            Err(f) => Err(step_label(kind, f.0) + f.1),
        },
    }
}

/// The first `n` entries of an archive, or the message of the first error.
pub open spec fn first_entries(kind: ArchiveKind, bytes: Seq<u8>, n: nat) -> Result<
    Seq<EntryView>,
    Seq<char>,
>
    decreases n,
{
    if n == 0 {
        Ok(Seq::empty())
    } else {
        match first_entries(kind, bytes, (n - 1) as nat) {
            Err(m) => Err(m),
            Ok(front) => match item_of(kind, bytes, (n - 1) as nat) {
                Ok(e) => Ok(front.push(e)),
                Err(m) => Err(m),
            },
        }
    }
}

/// The entries of an archive, or the message of the error with which it
/// cannot be read.
pub open spec fn listing(kind: ArchiveKind, bytes: Seq<u8>) -> Result<Seq<EntryView>, Seq<char>> {
    match count_of(kind, bytes) {
        Ok(n) => first_entries(kind, bytes, n),
        Err(m) => Err(m),
    }
}

/// The views of a list of entries.
pub open spec fn views(entries: Seq<ArchiveEntry>) -> Seq<EntryView> {
    Seq::new(entries.len(), |i: int| entries[i]@)
}

/// The paths of all entries, in their order.
pub open spec fn structure_of(entries: Seq<EntryView>) -> Seq<Seq<char>> {
    Seq::new(entries.len(), |i: int| entries[i].path)
}

/// The folders to create in `dir`, in the order of the entries.
pub open spec fn dirs_of(entries: Seq<EntryView>, dir: Seq<char>) -> Seq<Seq<char>>
    decreases entries.len(),
{
    if entries.len() == 0 {
        Seq::empty()
    } else if entries.last().is_dir {
        dirs_of(entries.drop_last(), dir).push(join_path(dir, entries.last().path))
    } else {
        dirs_of(entries.drop_last(), dir)
    }
}

/// The files to write in `dir`, each with its data, in the order of the
/// entries.
pub open spec fn writes_of(entries: Seq<EntryView>, dir: Seq<char>) -> Seq<(Seq<char>, Seq<u8>)>
    decreases entries.len(),
{
    if entries.len() == 0 {
        Seq::empty()
    } else if entries.last().is_file {
        writes_of(entries.drop_last(), dir).push(
            (join_path(dir, entries.last().path), entries.last().data),
        )
    } else {
        writes_of(entries.drop_last(), dir)
    }
}

/// The writes of a list as pairs of path and data.
pub open spec fn write_pairs(writes: Seq<FileWrite>) -> Seq<(Seq<char>, Seq<u8>)> {
    Seq::new(writes.len(), |i: int| (writes[i].path@, writes[i].data@))
}

/// The extracted files match the files among the entries: one for each, in
/// their order, with the path it is written to and the path it had.
pub open spec fn extracted_from(files: Seq<ExtractedFile>, entries: Seq<EntryView>, dir: Seq<char>) -> bool {
    &&& files.len() == writes_of(entries, dir).len()
    &&& forall|i: int|
        0 <= i < files.len() ==> (#[trigger] files[i]).path@ == writes_of(entries, dir)[i].0
    &&& archive_paths(files) == file_paths(entries)
}

/// The paths that extracted files had in their archive.
pub open spec fn archive_paths(files: Seq<ExtractedFile>) -> Seq<Seq<char>> {
    Seq::new(files.len(), |i: int| files[i].archive_path@)
}

/// The paths of the files among the entries, in their order.
pub open spec fn file_paths(entries: Seq<EntryView>) -> Seq<Seq<char>>
    decreases entries.len(),
{
    if entries.len() == 0 {
        Seq::empty()
    } else if entries.last().is_file {
        file_paths(entries.drop_last()).push(entries.last().path)
    } else {
        file_paths(entries.drop_last())
    }
}

/// What stands before the reader's message in the message of an error.
fn label_of(kind: ArchiveKind, step: Step) -> (r: &'static str)
    ensures
        r@ == step_label(kind, step),
{
    match kind {
        ArchiveKind::Zip => match step {
            Step::Open => "Invalid ZIP archive: ",
            Step::Entry => "ZIP extraction error: ",
            Step::Path => "ZIP extraction error: ",
            Step::Read => "ZIP read error: ",
        },
        _ => match step {
            Step::Open => "TAR extraction error: ",
            Step::Entry => "TAR entry error: ",
            Step::Path => "TAR path error: ",
            Step::Read => "TAR read error: ",
        },
    }
}

/// How many entries the archive has.
fn count_entries(kind: ArchiveKind, bytes: &[u8]) -> (r: Result<usize, String>)
    ensures
        match r {
            Ok(n) => count_of(kind, bytes@) == count_ok(n as nat),
            Err(m) => count_of(kind, bytes@) == count_err(m@),
        },
{
    let counted = match kind {
        ArchiveKind::Zip => zip_len(bytes),
        ArchiveKind::TarGz => tar_len(bytes),
        ArchiveKind::Rar => {
            return Ok(0);
        },
    };
    match counted {
        Ok(n) => Ok(n),
        Err(m) => Err(join2(label_of(kind, Step::Open), m.as_str())),
    }
}

/// The entry that a raw entry of an archive of the given kind is.
fn entry_from(kind: ArchiveKind, raw: RawEntry) -> (r: ArchiveEntry)
    ensures
        r@ == entry_of(kind, raw@),
{
    let path = match raw.path {
        Some(p) => p,
        None => String::new(),
    };
    match kind {
        ArchiveKind::Zip => ArchiveEntry { path, is_file: !raw.flag, is_dir: raw.flag, data: raw.data },
        _ => ArchiveEntry { path, is_file: raw.flag, is_dir: false, data: raw.data },
    }
}

/// The entry with the given index.
fn entry_at(kind: ArchiveKind, bytes: &[u8], index: usize) -> (r: Result<ArchiveEntry, String>)
    ensures
        match r {
            Ok(e) => item_of(kind, bytes@, index as nat) == Ok::<EntryView, Seq<char>>(e@),
            Err(m) => item_of(kind, bytes@, index as nat) == Err::<EntryView, Seq<char>>(m@),
        },
{
    let read = match kind {
        ArchiveKind::Zip => match zip_entry(bytes, index) {
            Ok(raw) => Ok(Some(raw)),
            Err(f) => Err(f),
        },
        _ => tar_entry(bytes, index),
    };
    match read {
        Ok(Some(raw)) => Ok(entry_from(kind, raw)),
        Ok(None) => Err("TAR entry error: no such entry".to_owned()),
        Err(f) => Err(join2(label_of(kind, f.step), f.message.as_str())),
    }
}

/// The entries of an archive held in memory.
///
/// Fails with a `Process` error, which carries the reader's message, where
/// the archive or one of its entries cannot be read.
pub fn read_archive(kind: ArchiveKind, bytes: &[u8]) -> (r: Result<Vec<ArchiveEntry>, OpenCliError>)
    ensures
        match listing(kind, bytes@) {
            Ok(entries) => r matches Ok(v) && views(v@) == entries,
            Err(m) => r matches Err(e) && e is Process && e.message() == m,
        },
{
    let n = match count_entries(kind, bytes) {
        Ok(n) => n,
        Err(m) => {
            return Err(OpenCliError::Process(m));
        },
    };
    let mut out: Vec<ArchiveEntry> = Vec::new();
    let mut i: usize = 0;
    assert(views(out@) =~= Seq::<EntryView>::empty());
    while i < n
        invariant
            i <= n,
            count_of(kind, bytes@) == count_ok(n as nat),
            first_entries(kind, bytes@, i as nat) == Ok::<Seq<EntryView>, Seq<char>>(views(out@)),
        decreases n - i,
    {
        match entry_at(kind, bytes, i) {
            Ok(e) => {
                let ghost before = views(out@);
                let ghost ev = e@;
                out.push(e);
                assert(views(out@) =~= before.push(ev));
            },
            Err(m) => {
                proof {
                    lemma_first_error(kind, bytes@, (i + 1) as nat, n as nat);
                }
                return Err(OpenCliError::Process(m));
            },
        }
        i += 1;
    }
    Ok(out)
}

/// An error among the first `k` entries is the error of any longer listing.
proof fn lemma_first_error(kind: ArchiveKind, bytes: Seq<u8>, k: nat, n: nat)
    requires
        k <= n,
        first_entries(kind, bytes, k) is Err,
    ensures
        first_entries(kind, bytes, n) == first_entries(kind, bytes, k),
    decreases n - k,
{
    if k < n {
        lemma_first_error(kind, bytes, k, (n - 1) as nat);
    }
}

impl PackageDownloader {
    /// What unpacking the entries of an archive into `extract_dir` creates
    /// and writes, and the files by what they are for.
    pub fn extract_entries(
        &self,
        entries: &Vec<ArchiveEntry>,
        extract_dir: &str,
        target: Option<PackageTarget>,
    ) -> (r: Extraction)
        ensures
            texts(r.dirs@) == dirs_of(views(entries@), extract_dir@),
            write_pairs(r.writes@) == writes_of(views(entries@), extract_dir@),
            exists|files: Seq<ExtractedFile>|
                extracted_from(files, views(entries@), extract_dir@) && #[trigger] r.files.classifies(
                    files,
                    structure_of(views(entries@)),
                    target,
                ),
    {
        let ghost all = views(entries@);
        let ghost dir = extract_dir@;
        let mut dirs: Vec<String> = Vec::new();
        let mut writes: Vec<FileWrite> = Vec::new();
        let mut files: Vec<ExtractedFile> = Vec::new();
        let mut structure: Vec<String> = Vec::new();
        let mut i: usize = 0;
        assert(texts(dirs@) =~= dirs_of(all.take(0), dir));
        assert(write_pairs(writes@) =~= writes_of(all.take(0), dir));
        assert(archive_paths(files@) =~= file_paths(all.take(0)));
        assert(texts(structure@) =~= structure_of(all.take(0)));
        while i < entries.len()
            invariant
                i <= entries.len(),
                all == views(entries@),
                dir == extract_dir@,
                texts(dirs@) == dirs_of(all.take(i as int), dir),
                write_pairs(writes@) == writes_of(all.take(i as int), dir),
                extracted_from(files@, all.take(i as int), dir),
                texts(structure@) == structure_of(all.take(i as int)),
            decreases entries.len() - i,
        {
            proof {
                assert(all.take(i + 1).drop_last() =~= all.take(i as int));
                assert(all.take(i + 1).last() == entries@[i as int]@);
            }
            let entry = &entries[i];
            let path = join(extract_dir, entry.path.as_str());
            let ghost sb = texts(structure@);
            structure.push(entry.path.clone());
            assert(texts(structure@) =~= sb.push(entry.path@));
            assert(sb.push(entry.path@) =~= structure_of(all.take(i + 1)));
            if entry.is_dir {
                let ghost db = texts(dirs@);
                dirs.push(path.clone());
                assert(texts(dirs@) =~= db.push(path@));
            }
            if entry.is_file {
                let ghost wb = write_pairs(writes@);
                let ghost fb = files@;
                let ghost ab = archive_paths(files@);
                let mut data: Vec<u8> = Vec::new();
                let mut k: usize = 0;
                while k < entry.data.len()
                    invariant
                        k <= entry.data.len(),
                        data@ == entry.data@.take(k as int),
                    decreases entry.data.len() - k,
                {
                    data.push(entry.data[k]);
                    assert(data@ =~= entry.data@.take(k + 1));
                    k += 1;
                }
                assert(entry.data@.take(entry.data.len() as int) =~= entry.data@);
                writes.push(FileWrite { path: path.clone(), data });
                assert(write_pairs(writes@) =~= wb.push((path@, entry.data@)));
                files.push(ExtractedFile { path, archive_path: entry.path.clone() });
                assert(archive_paths(files@) =~= ab.push(entry.path@));
                assert forall|j: int| 0 <= j < files@.len() implies (#[trigger] files@[j]).path@
                    == writes_of(all.take(i + 1), dir)[j].0 by {
                    if j < fb.len() {
                        assert(files@[j] == fb[j]);
                    }
                }
            }
            i += 1;
        }
        assert(all.take(entries.len() as int) =~= all);
        let sorted = self.filter_files_by_target(&files, &structure, target);
        let ghost found = files@;
        let r = Extraction { dirs, writes, files: sorted };
        assert(extracted_from(found, views(entries@), extract_dir@) && r.files.classifies(
            found,
            structure_of(views(entries@)),
            target,
        ));
        r
    }

    /// What unpacking an archive held in memory into `extract_dir` creates
    /// and writes, and its files by what they are for. An archive of a kind
    /// that cannot be unpacked yields nothing.
    ///
    /// Fails with a `Process` error where the archive cannot be read.
    pub fn extract_archive(
        &self,
        kind: ArchiveKind,
        bytes: &[u8],
        extract_dir: &str,
        target: Option<PackageTarget>,
    ) -> (r: Result<Extraction, OpenCliError>)
        ensures
            match listing(kind, bytes@) {
                Ok(entries) => r matches Ok(x) && texts(x.dirs@) == dirs_of(entries, extract_dir@)
                    && write_pairs(x.writes@) == writes_of(entries, extract_dir@) && exists|
                    files: Seq<ExtractedFile>,
                |
                    extracted_from(files, entries, extract_dir@) && #[trigger] x.files.classifies(
                        files,
                        structure_of(entries),
                        target,
                    ),
                Err(m) => r matches Err(e) && e is Process && e.message() == m,
            },
    {
        match read_archive(kind, bytes) {
            Ok(entries) => Ok(self.extract_entries(&entries, extract_dir, target)),
            Err(e) => Err(e),
        }
    }
}

} // verus!
