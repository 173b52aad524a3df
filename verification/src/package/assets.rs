//! The assets of a release: what fetching them puts into the scratch folder,
//! and what the files in them are for.

use crate::build::config::PackageTarget;
use crate::names::{append_names, texts};
use crate::package::archive::{
    dirs_of, extracted_from, listing, structure_of, write_pairs, writes_of, EntryView, FileWrite,
};
use crate::package::downloader::{
    asset_kind_of, file_name, is_core, is_include, name_is_include, AssetKind, Bucket,
    ExtractedFile, PackageDownloader, PackageFiles,
};
use crate::paths::{join, join_path};
use crate::result::OpenCliError;
use crate::text::chars_of;
use vstd::prelude::*;

verus! {

/// An asset of a release as it was fetched: its name and its bytes.
#[derive(Debug, Clone)]
pub struct FetchedAsset {
    pub name: String,
    pub data: Vec<u8>,
}

/// What the assets of a release come to.
#[derive(Debug, Clone)]
pub struct Download {
    /// The folders to create, in the order of the assets.
    pub dirs: Vec<String>,
    /// The files to write, in the order of the assets: each asset itself,
    /// and after an archive the files in it.
    pub writes: Vec<FileWrite>,
    /// The files by what they are for.
    pub files: PackageFiles,
}

/// An entry of the listing of a repository at a tag.
#[derive(Debug, Clone)]
pub struct RepoItem {
    pub name: String,
    /// Whether the entry is a file.
    pub is_file: bool,
    pub download_url: Option<String>,
}

/// A file to fetch from an address and to write to a path.
#[derive(Debug, Clone)]
pub struct Fetch {
    pub url: String,
    pub path: String,
}

/// The entries of an asset that is an archive, or the reason why it cannot
/// be read; `None` for an asset that is no archive.
pub open spec fn asset_listing(a: FetchedAsset) -> Option<Result<Seq<EntryView>, Seq<char>>> {
    match asset_kind_of(a.name@) {
        AssetKind::Archive(kind) => Some(listing(kind, a.data@)),
        _ => None,
    }
}

/// Why the first archive among the assets that cannot be read cannot be
/// read; `None` where each can.
pub open spec fn first_failure(assets: Seq<FetchedAsset>) -> Option<Seq<char>>
    decreases assets.len(),
{
    if assets.len() == 0 {
        None
    } else {
        match first_failure(assets.drop_last()) {
            Some(m) => Some(m),
            None => match asset_listing(assets.last()) {
                Some(Err(m)) => Some(m),
                _ => None,
            },
        }
    }
}

/// The folders that one asset asks for in `dir`.
pub open spec fn asset_dirs(a: FetchedAsset, dir: Seq<char>) -> Seq<Seq<char>> {
    match asset_listing(a) {
        Some(Ok(entries)) => dirs_of(entries, dir),
        _ => Seq::empty(),
    }
}

/// The files that one asset writes in `dir`: itself under its name, then the
/// files in it where it is an archive.
pub open spec fn asset_writes(a: FetchedAsset, dir: Seq<char>) -> Seq<(Seq<char>, Seq<u8>)> {
    let own = seq![(join_path(dir, a.name@), a.data@)];
    match asset_listing(a) {
        Some(Ok(entries)) => own + writes_of(entries, dir),
        _ => own,
    }
}

/// The folders that the assets ask for, in their order.
pub open spec fn all_dirs(assets: Seq<FetchedAsset>, dir: Seq<char>) -> Seq<Seq<char>>
    decreases assets.len(),
{
    if assets.len() == 0 {
        Seq::empty()
    } else {
        all_dirs(assets.drop_last(), dir) + asset_dirs(assets.last(), dir)
    }
}

/// The files that the assets write, in their order.
pub open spec fn all_writes(assets: Seq<FetchedAsset>, dir: Seq<char>) -> Seq<(Seq<char>, Seq<u8>)>
    decreases assets.len(),
{
    if assets.len() == 0 {
        Seq::empty()
    } else {
        all_writes(assets.drop_last(), dir) + asset_writes(assets.last(), dir)
    }
}

/// The one path `path` in bucket `to`, and nothing in any other.
pub open spec fn holds_only(part: PackageFiles, to: Bucket, path: Seq<char>) -> bool {
    forall|b: Bucket| #[trigger]
        part.bucket(b) == if b == to {
            seq![path]
        } else {
            Seq::<Seq<char>>::empty()
        }
}

/// No path in any bucket.
pub open spec fn holds_nothing(part: PackageFiles) -> bool {
    forall|b: Bucket| (#[trigger] part.bucket(b)).len() == 0
}

/// `part` holds what the asset `a`, fetched into `dir`, adds to the files of
/// a package. An archive adds the files in it, classified for the target. An
/// include file adds itself. A binary adds itself, to the root where it has
/// the name of a core library and to the unclassified binaries where not.
/// Any other asset adds nothing.
pub open spec fn part_of(
    part: PackageFiles,
    a: FetchedAsset,
    dir: Seq<char>,
    target: Option<PackageTarget>,
) -> bool {
    let path = join_path(dir, a.name@);
    match asset_kind_of(a.name@) {
        AssetKind::Archive(kind) => match listing(kind, a.data@) {
            Ok(entries) => exists|files: Seq<ExtractedFile>|
                extracted_from(files, entries, dir) && #[trigger] part.classifies(
                    files,
                    structure_of(entries),
                    target,
                ),
            Err(_) => false,
        },
        AssetKind::Include => holds_only(part, Bucket::Include, path),
        AssetKind::Binary => if file_name(path).len() == 0 {
            holds_nothing(part)
        } else if is_core(file_name(path)) {
            holds_only(part, Bucket::Root, path)
        } else {
            holds_only(part, Bucket::Unclassified, path)
        },
        AssetKind::Other => holds_nothing(part),
    }
}

/// The paths of bucket `b` of each part, one part after the other.
pub open spec fn gathered(parts: Seq<PackageFiles>, b: Bucket) -> Seq<Seq<char>>
    decreases parts.len(),
{
    if parts.len() == 0 {
        Seq::empty()
    } else {
        gathered(parts.drop_last(), b) + parts.last().bucket(b)
    }
}

/// Each bucket of `files` holds what the parts hold in it, in their order.
pub open spec fn gathers(files: PackageFiles, parts: Seq<PackageFiles>) -> bool {
    forall|b: Bucket| #[trigger] files.bucket(b) == gathered(parts, b)
}

/// `parts` holds, for each asset in turn, what it adds.
pub open spec fn parts_of(
    parts: Seq<PackageFiles>,
    assets: Seq<FetchedAsset>,
    dir: Seq<char>,
    target: Option<PackageTarget>,
) -> bool {
    &&& parts.len() == assets.len()
    &&& forall|i: int|
        0 <= i < parts.len() ==> part_of(#[trigger] parts[i], assets[i], dir, target)
}

/// The include files of a listing that can be fetched, each with the path it
/// is written to in `dir`, in the order of the listing.
pub open spec fn repo_includes(items: Seq<RepoItem>, dir: Seq<char>) -> Seq<(Seq<char>, Seq<char>)>
    decreases items.len(),
{
    if items.len() == 0 {
        Seq::empty()
    } else {
        let rest = repo_includes(items.drop_last(), dir);
        let item = items.last();
        match item.download_url {
            Some(url) if item.is_file && is_include(item.name@) => rest.push(
                (url@, join_path(dir, item.name@)),
            ),
            _ => rest,
        }
    }
}

/// The fetches of a list as pairs of address and path.
pub open spec fn fetch_pairs(fetches: Seq<Fetch>) -> Seq<(Seq<char>, Seq<char>)> {
    Seq::new(fetches.len(), |i: int| (fetches[i].url@, fetches[i].path@))
}

/// The paths of the fetches of a list.
pub open spec fn fetch_paths(fetches: Seq<Fetch>) -> Seq<Seq<char>> {
    Seq::new(fetches.len(), |i: int| fetches[i].path@)
}

/// A failure among the first assets is the failure of the whole list.
proof fn lemma_failure_stays(assets: Seq<FetchedAsset>, k: int)
    requires
        0 <= k <= assets.len(),
        first_failure(assets.take(k)) is Some,
    ensures
        first_failure(assets) == first_failure(assets.take(k)),
    decreases assets.len() - k,
{
    if k < assets.len() {
        assert(assets.take(k + 1).drop_last() =~= assets.take(k));
        lemma_failure_stays(assets, k + 1);
    } else {
        assert(assets.take(k) =~= assets);
    }
}

fn copy_bytes(data: &Vec<u8>) -> (r: Vec<u8>)
    ensures
        r@ == data@,
{
    let mut out: Vec<u8> = Vec::new();
    let mut k: usize = 0;
    while k < data.len()
        invariant
            k <= data.len(),
            out@ == data@.take(k as int),
        decreases data.len() - k,
    {
        out.push(data[k]);
        assert(out@ =~= data@.take(k + 1));
        k += 1;
    }
    assert(data@.take(data.len() as int) =~= data@);
    out
}

fn append_writes(to: &mut Vec<FileWrite>, from: &Vec<FileWrite>)
    ensures
        write_pairs(final(to)@) == write_pairs(old(to)@) + write_pairs(from@),
{
    let mut i: usize = 0;
    assert(write_pairs(to@) =~= write_pairs(old(to)@) + write_pairs(from@.take(0)));
    while i < from.len()
        invariant
            i <= from.len(),
            write_pairs(to@) == write_pairs(old(to)@) + write_pairs(from@.take(i as int)),
        decreases from.len() - i,
    {
        let ghost before = write_pairs(to@);
        let w = &from[i];
        to.push(FileWrite { path: w.path.clone(), data: copy_bytes(&w.data) });
        assert(write_pairs(to@) =~= before.push((w.path@, w.data@)));
        assert(write_pairs(from@.take(i + 1)) =~= write_pairs(from@.take(i as int)).push(
            (w.path@, w.data@),
        ));
        assert(write_pairs(to@) =~= write_pairs(old(to)@) + write_pairs(from@.take(i + 1)));
        i += 1;
    }
    assert(from@.take(from.len() as int) =~= from@);
}

/// Adds the files of `part` to those of `total`, bucket by bucket.
fn absorb(total: &mut PackageFiles, part: &PackageFiles)
    ensures
        forall|b: Bucket| #[trigger]
            final(total).bucket(b) == old(total).bucket(b) + part.bucket(b),
{
    append_names(&mut total.includes, &part.includes);
    append_names(&mut total.binaries, &part.binaries);
    append_names(&mut total.root_binaries, &part.root_binaries);
    append_names(&mut total.component_binaries, &part.component_binaries);
    append_names(&mut total.plugin_binaries, &part.plugin_binaries);
}

impl PackageDownloader {
    /// What one fetched asset adds to the files of a package.
    ///
    /// Fails with a `Process` error where the asset is an archive that
    /// cannot be read.
    pub fn asset_files(
        &self,
        asset: &FetchedAsset,
        temp_dir: &str,
        target: Option<PackageTarget>,
        dirs: &mut Vec<String>,
        writes: &mut Vec<FileWrite>,
    ) -> (r: Result<PackageFiles, OpenCliError>)
        ensures
            match asset_listing(*asset) {
                Some(Err(m)) => r matches Err(e) && e is Process && e.message() == m,
                _ => r matches Ok(part) && part_of(part, *asset, temp_dir@, target),
            },
            r is Ok ==> texts(final(dirs)@) == texts(old(dirs)@) + asset_dirs(*asset, temp_dir@),
            r is Ok ==> write_pairs(final(writes)@) == write_pairs(old(writes)@) + asset_writes(
                *asset,
                temp_dir@,
            ),
    {
        let path = join(temp_dir, asset.name.as_str());
        let ghost wb = write_pairs(writes@);
        let ghost own = seq![(path@, asset.data@)];
        let mut part = PackageFiles::new();
        match self.asset_kind(asset.name.as_str()) {
            AssetKind::Archive(kind) => {
                match self.extract_archive(kind, asset.data.as_slice(), temp_dir, target) {
                    Ok(x) => {
                        writes.push(FileWrite { path, data: copy_bytes(&asset.data) });
                        assert(write_pairs(writes@) =~= wb + own);
                        append_names(dirs, &x.dirs);
                        append_writes(writes, &x.writes);
                        assert(write_pairs(writes@) =~= wb + (own + write_pairs(x.writes@)));
                        Ok(x.files)
                    },
                    Err(e) => Err(e),
                }
            },
            AssetKind::Include => {
                writes.push(FileWrite { path: path.clone(), data: copy_bytes(&asset.data) });
                assert(write_pairs(writes@) =~= wb + own);
                assert(texts(dirs@) =~= texts(old(dirs)@) + Seq::<Seq<char>>::empty());
                part.includes.push(path);
                assert(texts(part.includes@) =~= seq![path@]);
                assert(holds_only(part, Bucket::Include, path@)) by {
                    assert forall|b: Bucket| #[trigger]
                        part.bucket(b) =~= if b == Bucket::Include {
                            seq![path@]
                        } else {
                            Seq::<Seq<char>>::empty()
                        } by {}
                }
                Ok(part)
            },
            AssetKind::Binary => {
                writes.push(FileWrite { path: path.clone(), data: copy_bytes(&asset.data) });
                assert(write_pairs(writes@) =~= wb + own);
                assert(texts(dirs@) =~= texts(old(dirs)@) + Seq::<Seq<char>>::empty());
                let ghost empty = part;
                self.categorize_binary(path.as_str(), &mut part);
                proof {
                    let name = file_name(path@);
                    if name.len() == 0 {
                        assert(holds_nothing(part));
                    } else if is_core(name) {
                        assert(texts(part.root_binaries@) =~= seq![path@]);
                        assert forall|b: Bucket| #[trigger]
                            part.bucket(b) =~= if b == Bucket::Root {
                                seq![path@]
                            } else {
                                Seq::<Seq<char>>::empty()
                            } by {}
                    } else {
                        assert(texts(part.binaries@) =~= seq![path@]);
                        assert forall|b: Bucket| #[trigger]
                            part.bucket(b) =~= if b == Bucket::Unclassified {
                                seq![path@]
                            } else {
                                Seq::<Seq<char>>::empty()
                            } by {}
                    }
                }
                Ok(part)
            },
            AssetKind::Other => {
                writes.push(FileWrite { path, data: copy_bytes(&asset.data) });
                assert(write_pairs(writes@) =~= wb + own);
                assert(texts(dirs@) =~= texts(old(dirs)@) + Seq::<Seq<char>>::empty());
                assert(holds_nothing(part));
                Ok(part)
            },
        }
    }

    /// What the fetched assets of a release put into the scratch folder
    /// `temp_dir`, and the files of the package by what they are for: those
    /// of each asset in turn. Where the result holds no file at all, the
    /// include files of the repository stand in for the assets.
    ///
    /// Fails with a `Process` error where an archive among the assets cannot
    /// be read, with the reason of the first such archive.
    pub fn download_package(
        &self,
        assets: &Vec<FetchedAsset>,
        temp_dir: &str,
        target: Option<PackageTarget>,
    ) -> (r: Result<Download, OpenCliError>)
        ensures
            match first_failure(assets@) {
                Some(m) => r matches Err(e) && e is Process && e.message() == m,
                None => r matches Ok(d) && texts(d.dirs@) == all_dirs(assets@, temp_dir@)
                    && write_pairs(d.writes@) == all_writes(assets@, temp_dir@) && exists|
                    parts: Seq<PackageFiles>,
                |
                    parts_of(parts, assets@, temp_dir@, target) && #[trigger] gathers(
                        d.files,
                        parts,
                    ),
            },
    {
        let mut dirs: Vec<String> = Vec::new();
        let mut writes: Vec<FileWrite> = Vec::new();
        let mut files = PackageFiles::new();
        let ghost mut parts: Seq<PackageFiles> = Seq::empty();
        let mut i: usize = 0;
        assert(texts(dirs@) =~= all_dirs(assets@.take(0), temp_dir@));
        assert(write_pairs(writes@) =~= all_writes(assets@.take(0), temp_dir@));
        assert(gathers(files, parts)) by {
            assert forall|b: Bucket| #[trigger] files.bucket(b) =~= gathered(parts, b) by {}
        }
        while i < assets.len()
            invariant
                i <= assets.len(),
                first_failure(assets@.take(i as int)) is None,
                texts(dirs@) == all_dirs(assets@.take(i as int), temp_dir@),
                write_pairs(writes@) == all_writes(assets@.take(i as int), temp_dir@),
                parts_of(parts, assets@.take(i as int), temp_dir@, target),
                gathers(files, parts),
            decreases assets.len() - i,
        {
            proof {
                assert(assets@.take(i + 1).drop_last() =~= assets@.take(i as int));
                assert(assets@.take(i + 1).last() == assets@[i as int]);
            }
            match self.asset_files(&assets[i], temp_dir, target, &mut dirs, &mut writes) {
                Ok(part) => {
                    let ghost before = files;
                    let ghost earlier = parts;
                    absorb(&mut files, &part);
                    proof {
                        parts = parts.push(part);
                        assert(parts.drop_last() =~= earlier);
                        assert forall|b: Bucket| #[trigger]
                            files.bucket(b) == gathered(parts, b) by {
                            assert(before.bucket(b) == gathered(earlier, b));
                        }
                        assert forall|j: int| 0 <= j < parts.len() implies part_of(
                            #[trigger] parts[j],
                            assets@.take(i + 1)[j],
                            temp_dir@,
                            target,
                        ) by {
                            if j < i {
                                assert(parts[j] == earlier[j]);
                                assert(assets@.take(i + 1)[j] == assets@.take(i as int)[j]);
                            }
                        }
                    }
                },
                Err(e) => {
                    proof {
                        lemma_failure_stays(assets@, i + 1);
                    }
                    return Err(e);
                },
            }
            i += 1;
        }
        assert(assets@.take(assets.len() as int) =~= assets@);
        let d = Download { dirs, writes, files };
        assert(first_failure(assets@) is None);
        assert(texts(d.dirs@) == all_dirs(assets@, temp_dir@));
        assert(write_pairs(d.writes@) == all_writes(assets@, temp_dir@));
        assert(parts_of(parts, assets@, temp_dir@, target) && gathers(d.files, parts));
        Ok(d)
    }

    /// The include files to fetch from the listing of the repository into
    /// `temp_dir`, for a release whose assets held no file. Their paths join
    /// the include files of `package_files`.
    pub fn download_repo_content(
        &self,
        items: &Vec<RepoItem>,
        temp_dir: &str,
        package_files: &mut PackageFiles,
    ) -> (r: Vec<Fetch>)
        ensures
            fetch_pairs(r@) == repo_includes(items@, temp_dir@),
            texts(final(package_files).includes@) == texts(old(package_files).includes@)
                + fetch_paths(r@),
            final(package_files).binaries == old(package_files).binaries,
            final(package_files).root_binaries == old(package_files).root_binaries,
            final(package_files).component_binaries == old(package_files).component_binaries,
            final(package_files).plugin_binaries == old(package_files).plugin_binaries,
    {
        let mut out: Vec<Fetch> = Vec::new();
        let mut i: usize = 0;
        assert(fetch_pairs(out@) =~= repo_includes(items@.take(0), temp_dir@));
        assert(texts(package_files.includes@) =~= texts(old(package_files).includes@)
            + fetch_paths(out@));
        while i < items.len()
            invariant
                i <= items.len(),
                fetch_pairs(out@) == repo_includes(items@.take(i as int), temp_dir@),
                texts(package_files.includes@) == texts(old(package_files).includes@)
                    + fetch_paths(out@),
                package_files.binaries == old(package_files).binaries,
                package_files.root_binaries == old(package_files).root_binaries,
                package_files.component_binaries == old(package_files).component_binaries,
                package_files.plugin_binaries == old(package_files).plugin_binaries,
            decreases items.len() - i,
        {
            proof {
                assert(items@.take(i + 1).drop_last() =~= items@.take(i as int));
                assert(items@.take(i + 1).last() == items@[i as int]);
            }
            let item = &items[i];
            let name = chars_of(item.name.as_str());
            if item.is_file {
                if name_is_include(name.as_slice()) {
                    if let Some(url) = &item.download_url {
                        let path = join(temp_dir, item.name.as_str());
                        let ghost pb = fetch_pairs(out@);
                        let ghost fb = fetch_paths(out@);
                        let ghost ib = texts(package_files.includes@);
                        out.push(Fetch { url: url.clone(), path: path.clone() });
                        package_files.includes.push(path);
                        assert(fetch_pairs(out@) =~= pb.push((url@, path@)));
                        assert(fetch_paths(out@) =~= fb.push(path@));
                        assert(texts(package_files.includes@) =~= ib.push(path@));
                        assert(texts(package_files.includes@) =~= texts(
                            old(package_files).includes@,
                        ) + fetch_paths(out@));
                    }
                }
            }
            i += 1;
        }
        assert(items@.take(items.len() as int) =~= items@);
        out
    }
}

} // verus!
