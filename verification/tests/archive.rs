use flate2::write::GzEncoder;
use flate2::Compression;
use opencli::build::config::PackageTarget;
use opencli::package::archive::read_archive;
use opencli::package::assets::{FetchedAsset, RepoItem};
use opencli::package::downloader::{ArchiveKind, PackageDownloader, PackageFiles};
use opencli::result::OpenCliError;
use std::io::{Cursor, Write};
use zip::write::SimpleFileOptions;
use zip::ZipWriter;

fn sample_zip() -> Vec<u8> {
    let mut writer = ZipWriter::new(Cursor::new(Vec::new()));
    let options = SimpleFileOptions::default();
    writer.add_directory("components/", options).unwrap();
    writer.start_file("components/foo.dll", options).unwrap();
    writer.write_all(b"FOO").unwrap();
    writer.start_file("plugins/bar.dll", options).unwrap();
    writer.write_all(b"BARBAR").unwrap();
    writer.start_file("qawno/include/a.inc", options).unwrap();
    writer.write_all(b"native a();").unwrap();
    writer.finish().unwrap().into_inner()
}

fn sample_tar_gz() -> Vec<u8> {
    let mut builder = tar::Builder::new(GzEncoder::new(Vec::new(), Compression::default()));
    let mut dir = tar::Header::new_gnu();
    dir.set_entry_type(tar::EntryType::Directory);
    dir.set_size(0);
    dir.set_mode(0o755);
    builder.append_data(&mut dir, "pkg/plugins/", &[][..]).unwrap();
    let mut header = tar::Header::new_gnu();
    header.set_size(4);
    header.set_mode(0o644);
    builder.append_data(&mut header, "pkg/plugins/bar.so", &b"BAR!"[..]).unwrap();
    let mut header = tar::Header::new_gnu();
    header.set_size(2);
    header.set_mode(0o644);
    builder.append_data(&mut header, "pkg/readme.md", &b"hi"[..]).unwrap();
    builder.into_inner().unwrap().finish().unwrap()
}

#[test]
fn zip_entries_are_read_in_order() {
    let entries = read_archive(ArchiveKind::Zip, &sample_zip()).unwrap();
    let seen: Vec<(&str, bool, bool, &[u8])> =
        entries.iter().map(|e| (e.path.as_str(), e.is_file, e.is_dir, e.data.as_slice())).collect();
    assert_eq!(
        seen,
        vec![
            ("components/", false, true, &b""[..]),
            ("components/foo.dll", true, false, &b"FOO"[..]),
            ("plugins/bar.dll", true, false, &b"BARBAR"[..]),
            ("qawno/include/a.inc", true, false, &b"native a();"[..]),
        ]
    );
}

#[test]
fn tar_entries_are_read_in_order() {
    let entries = read_archive(ArchiveKind::TarGz, &sample_tar_gz()).unwrap();
    let seen: Vec<(&str, bool, bool, &[u8])> =
        entries.iter().map(|e| (e.path.as_str(), e.is_file, e.is_dir, e.data.as_slice())).collect();
    assert_eq!(
        seen,
        vec![
            ("pkg/plugins/", false, false, &b""[..]),
            ("pkg/plugins/bar.so", true, false, &b"BAR!"[..]),
            ("pkg/readme.md", true, false, &b"hi"[..]),
        ]
    );
}

#[test]
fn broken_archives_are_process_errors() {
    for kind in [ArchiveKind::Zip, ArchiveKind::TarGz] {
        match read_archive(kind, b"this is no archive").unwrap_err() {
            OpenCliError::Process(m) => assert!(!m.is_empty()),
            other => panic!("{other:?}"),
        }
    }
    assert!(read_archive(ArchiveKind::Rar, b"whatever").unwrap().is_empty());
}

#[test]
fn unpacking_a_zip_for_components() {
    let d = PackageDownloader::new();
    let x = d.extract_archive(ArchiveKind::Zip, &sample_zip(), "tmp", Some(PackageTarget::Components)).unwrap();
    assert_eq!(x.dirs, vec!["tmp/components/"]);
    let writes: Vec<(&str, &[u8])> = x.writes.iter().map(|w| (w.path.as_str(), w.data.as_slice())).collect();
    assert_eq!(
        writes,
        vec![
            ("tmp/components/foo.dll", &b"FOO"[..]),
            ("tmp/plugins/bar.dll", &b"BARBAR"[..]),
            ("tmp/qawno/include/a.inc", &b"native a();"[..]),
        ]
    );
    assert_eq!(x.files.component_binaries, vec!["tmp/components/foo.dll"]);
    assert!(x.files.plugin_binaries.is_empty());
    assert_eq!(x.files.includes, vec!["tmp/qawno/include/a.inc"]);
}

#[test]
fn unpacking_a_tar_for_plugins() {
    let d = PackageDownloader::new();
    let x = d.extract_archive(ArchiveKind::TarGz, &sample_tar_gz(), "tmp/", Some(PackageTarget::Plugins)).unwrap();
    assert!(x.dirs.is_empty());
    assert_eq!(x.writes.len(), 2);
    assert_eq!(x.files.plugin_binaries, vec!["tmp/pkg/plugins/bar.so"]);
    assert!(x.files.includes.is_empty());
    assert!(d.extract_archive(ArchiveKind::Zip, b"junk", "tmp", None).is_err());
    let nothing = d.extract_archive(ArchiveKind::Rar, b"junk", "tmp", None).unwrap();
    assert!(nothing.writes.is_empty() && nothing.files.is_empty());
}

fn asset(name: &str, data: &[u8]) -> FetchedAsset {
    FetchedAsset { name: name.to_string(), data: data.to_vec() }
}

#[test]
fn assets_of_a_release() {
    let d = PackageDownloader::new();
    let zip = sample_zip();
    let assets = vec![
        asset("notes.txt", b"n"),
        asset("extra.inc", b"i"),
        asset("pkg.zip", &zip),
        asset("libhelper.so", b"l"),
        asset("streamer.dll", b"s"),
        asset("old.rar", b"r"),
    ];
    let got = d.download_package(&assets, "tmp", Some(PackageTarget::Plugins)).unwrap();
    assert_eq!(got.dirs, vec!["tmp/components/"]);
    let writes: Vec<&str> = got.writes.iter().map(|w| w.path.as_str()).collect();
    assert_eq!(
        writes,
        vec![
            "tmp/notes.txt",
            "tmp/extra.inc",
            "tmp/pkg.zip",
            "tmp/components/foo.dll",
            "tmp/plugins/bar.dll",
            "tmp/qawno/include/a.inc",
            "tmp/libhelper.so",
            "tmp/streamer.dll",
            "tmp/old.rar",
        ]
    );
    assert_eq!(got.writes[2].data, zip);
    assert_eq!(got.writes[4].data, b"BARBAR");
    assert_eq!(got.files.includes, vec!["tmp/extra.inc", "tmp/qawno/include/a.inc"]);
    assert_eq!(got.files.plugin_binaries, vec!["tmp/plugins/bar.dll"]);
    assert!(got.files.component_binaries.is_empty());
    assert_eq!(got.files.root_binaries, vec!["tmp/libhelper.so"]);
    assert_eq!(got.files.binaries, vec!["tmp/streamer.dll"]);
}

#[test]
fn a_broken_archive_among_the_assets_fails_the_download() {
    let d = PackageDownloader::new();
    let assets = vec![asset("a.inc", b"i"), asset("bad.zip", b"junk"), asset("worse.tgz", b"junk")];
    let first = d.download_package(&assets, "tmp", None).unwrap_err();
    let alone = d.extract_archive(ArchiveKind::Zip, b"junk", "tmp", None).unwrap_err();
    assert!(matches!(first, OpenCliError::Process(_)));
    assert_eq!(first.to_string(), alone.to_string());
    let nothing = d.download_package(&vec![asset("readme.md", b"")], "tmp", None).unwrap();
    assert!(nothing.files.is_empty());
    assert_eq!(nothing.writes.len(), 1);
    assert!(d.download_package(&vec![], "tmp", None).unwrap().writes.is_empty());
}

#[test]
fn include_files_of_the_repository_stand_in() {
    let d = PackageDownloader::new();
    let item = |name: &str, is_file: bool, url: Option<&str>| RepoItem {
        name: name.to_string(),
        is_file,
        download_url: url.map(|u| u.to_string()),
    };
    let items = vec![
        item("a.inc", true, Some("u/a")),
        item("dir.inc", false, Some("u/dir")),
        item("b.inc", true, None),
        item("readme.md", true, Some("u/r")),
        item("c.inc", true, Some("u/c")),
    ];
    let mut files = PackageFiles::new();
    files.includes.push("seen.inc".to_string());
    let fetches = d.download_repo_content(&items, "tmp", &mut files);
    let pairs: Vec<(&str, &str)> = fetches.iter().map(|f| (f.url.as_str(), f.path.as_str())).collect();
    assert_eq!(pairs, vec![("u/a", "tmp/a.inc"), ("u/c", "tmp/c.inc")]);
    assert_eq!(files.includes, vec!["seen.inc", "tmp/a.inc", "tmp/c.inc"]);
    assert!(files.binaries.is_empty() && files.root_binaries.is_empty());
}

#[test]
fn errors_of_the_readers_say_where_they_arose() {
    let zip = read_archive(ArchiveKind::Zip, b"this is no archive").unwrap_err().to_string();
    assert!(zip.starts_with("Process error: Invalid ZIP archive: "), "{zip}");
    assert!(zip.len() > "Process error: Invalid ZIP archive: ".len());
    let tar = read_archive(ArchiveKind::TarGz, b"this is no archive").unwrap_err().to_string();
    assert!(tar.starts_with("Process error: TAR entry error: "), "{tar}");
    let mut cut = sample_zip();
    cut.truncate(cut.len() - 30);
    assert!(read_archive(ArchiveKind::Zip, &cut).is_err());
}
