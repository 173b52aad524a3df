use opencli::build::config::PackageTarget;
use opencli::package::downloader::{
    file_name_of, ArchiveKind, AssetKind, ExtractedFile, GitHubAsset, GitHubRelease,
    PackageDownloader, PackageFiles,
};
use opencli::package::version::VersionConstraint;
use opencli::result::OpenCliError;

fn file(path: &str, archive_path: &str) -> ExtractedFile {
    ExtractedFile { path: path.to_string(), archive_path: archive_path.to_string() }
}

fn classify(files: &[(&str, &str)], structure: &[&str], target: Option<PackageTarget>) -> PackageFiles {
    let files: Vec<ExtractedFile> = files.iter().map(|(p, a)| file(p, a)).collect();
    let structure: Vec<String> = structure.iter().map(|s| s.to_string()).collect();
    PackageDownloader::new().filter_files_by_target(&files, &structure, target)
}

fn release(tag: &str) -> GitHubRelease {
    GitHubRelease {
        tag_name: tag.to_string(),
        assets: vec![GitHubAsset { name: format!("{tag}.zip"), download_url: String::new(), size: 1 }],
    }
}

#[test]
fn components_target_takes_component_folder_only() {
    let r = classify(
        &[("tmp/components/foo.dll", "components/foo.dll"), ("tmp/plugins/bar.dll", "plugins/bar.dll")],
        &["components/", "components/foo.dll", "plugins/", "plugins/bar.dll"],
        Some(PackageTarget::Components),
    );
    assert_eq!(r.component_binaries, vec!["tmp/components/foo.dll"]);
    assert!(r.plugin_binaries.is_empty());
    assert!(r.binaries.is_empty());
    assert!(r.root_binaries.is_empty());
    assert!(r.includes.is_empty());
}

#[test]
fn plugins_target_takes_plugin_folder_only() {
    let r = classify(
        &[("t/pkg/components/foo.so", "pkg/components/foo.so"), ("t/pkg/Plugins/bar.so", "pkg/Plugins/bar.so")],
        &["pkg/components/foo.so", "pkg/Plugins/bar.so"],
        Some(PackageTarget::Plugins),
    );
    assert_eq!(r.plugin_binaries, vec!["t/pkg/Plugins/bar.so"]);
    assert!(r.component_binaries.is_empty());
}

#[test]
fn without_marker_folder_all_binaries_go_to_the_target() {
    let r = classify(
        &[("t/a.dll", "a.dll"), ("t/sub/b.so", "sub/b.so")],
        &["a.dll", "sub/b.so"],
        Some(PackageTarget::Components),
    );
    assert_eq!(r.component_binaries, vec!["t/a.dll", "t/sub/b.so"]);
    let r = classify(&[("t/a.dll", "a.dll")], &["a.dll"], Some(PackageTarget::Plugins));
    assert_eq!(r.plugin_binaries, vec!["t/a.dll"]);
}

#[test]
fn core_libraries_go_to_the_root_whatever_the_target() {
    for target in [Some(PackageTarget::Components), Some(PackageTarget::Plugins), None] {
        let r = classify(
            &[
                ("t/plugins/pawn-AMX.dll", "plugins/pawn-AMX.dll"),
                ("t/components/libfoo.so", "components/libfoo.so"),
                ("t/x/Log-Core.dylib", "x/Log-Core.dylib"),
            ],
            &["plugins/pawn-AMX.dll", "components/libfoo.so", "x/Log-Core.dylib"],
            target,
        );
        assert_eq!(
            r.root_binaries,
            vec!["t/components/libfoo.so", "t/plugins/pawn-AMX.dll", "t/x/Log-Core.dylib"]
        );
        assert!(r.component_binaries.is_empty() && r.plugin_binaries.is_empty() && r.binaries.is_empty());
    }
}

#[test]
fn a_name_without_core_pattern_follows_the_folder_rules() {
    let r = classify(
        &[("t/plugins/omp-server.dll", "plugins/omp-server.dll")],
        &["plugins/omp-server.dll"],
        Some(PackageTarget::Plugins),
    );
    assert!(r.root_binaries.is_empty());
    assert_eq!(r.plugin_binaries, vec!["t/plugins/omp-server.dll"]);
}

#[test]
fn includes_follow_the_marker_of_the_target() {
    let files = [("t/qawno/include/a.inc", "qawno/include/a.inc"), ("t/pawno/include/b.inc", "pawno/include/b.inc"), ("t/c.inc", "c.inc")];
    let structure = ["qawno/include/a.inc", "pawno/include/b.inc", "c.inc"];
    let r = classify(&files, &structure, Some(PackageTarget::Components));
    assert_eq!(r.includes, vec!["t/qawno/include/a.inc"]);
    let r = classify(&files, &structure, Some(PackageTarget::Plugins));
    assert_eq!(r.includes, vec!["t/pawno/include/b.inc"]);
    let r = classify(&files, &structure, None);
    assert_eq!(r.includes, vec!["t/c.inc", "t/pawno/include/b.inc", "t/qawno/include/a.inc"]);
    let r = classify(&[("t/c.inc", "c.inc")], &["c.inc"], Some(PackageTarget::Components));
    assert_eq!(r.includes, vec!["t/c.inc"]);
}

#[test]
fn no_target_sorts_binaries_by_folder() {
    let r = classify(
        &[
            ("t/components/a.dll", "components/a.dll"),
            ("t/plugin/b.dll", "plugin/b.dll"),
            ("t/plugins/c.dll", "plugins/c.dll"),
            ("t/other/d.dll", "other/d.dll"),
            ("t/component/e.dll", "component/e.dll"),
            ("t/readme.txt", "readme.txt"),
        ],
        &[],
        None,
    );
    assert_eq!(r.component_binaries, vec!["t/components/a.dll"]);
    assert_eq!(r.plugin_binaries, vec!["t/plugin/b.dll", "t/plugins/c.dll"]);
    assert_eq!(r.binaries, vec!["t/component/e.dll", "t/other/d.dll"]);
}

#[test]
fn buckets_are_sorted_and_hold_each_path_once() {
    let r = classify(
        &[("t/b.inc", "b.inc"), ("t/a.inc", "a.inc"), ("t/b.inc", "x/b.inc"), ("t/B.inc", "B.inc")],
        &[],
        None,
    );
    assert_eq!(r.includes, vec!["t/B.inc", "t/a.inc", "t/b.inc"]);
}

#[test]
fn backslash_folders_count_too() {
    let r = classify(
        &[("t/foo.dll", "pkg\\components\\foo.dll"), ("t/bar.dll", "pkg\\other\\bar.dll")],
        &["pkg\\components\\foo.dll", "pkg\\other\\bar.dll"],
        Some(PackageTarget::Components),
    );
    assert_eq!(r.component_binaries, vec!["t/foo.dll"]);
}

#[test]
fn file_names_are_what_follows_the_last_slash() {
    let name = |p: &str| -> String {
        let chars: Vec<char> = p.chars().collect();
        file_name_of(&chars).iter().collect()
    };
    assert_eq!(name("a/b/c.dll"), "c.dll");
    assert_eq!(name("c.dll"), "c.dll");
    assert_eq!(name("a/b/"), "");
    assert_eq!(name(""), "");
}

#[test]
fn categorize_binary_files_by_name() {
    let d = PackageDownloader::new();
    let mut files = PackageFiles::new();
    assert!(files.is_empty());
    d.categorize_binary("t/amxmodx.dll", &mut files);
    d.categorize_binary("t/streamer.so", &mut files);
    d.categorize_binary("t/dir/", &mut files);
    assert_eq!(files.root_binaries, vec!["t/amxmodx.dll"]);
    assert_eq!(files.binaries, vec!["t/streamer.so"]);
    assert!(!files.is_empty());
}

#[test]
fn categorize_binary_by_its_archive_path() {
    let d = PackageDownloader::new();
    let mut files = PackageFiles::new();
    d.categorize_binary_by_path("t/a.dll", "x/components/a.dll", &mut files);
    d.categorize_binary_by_path("t/b.dll", "x/plugin/b.dll", &mut files);
    d.categorize_binary_by_path("t/c.dll", "c.dll", &mut files);
    d.categorize_binary_by_path("t/libd.dll", "x/components/libd.dll", &mut files);
    assert_eq!(files.component_binaries, vec!["t/a.dll"]);
    assert_eq!(files.plugin_binaries, vec!["t/b.dll"]);
    assert_eq!(files.binaries, vec!["t/c.dll"]);
    assert_eq!(files.root_binaries, vec!["t/libd.dll"]);
}

#[test]
fn archive_and_asset_kinds() {
    let d = PackageDownloader::new();
    assert_eq!(d.archive_kind("a.zip"), Some(ArchiveKind::Zip));
    assert_eq!(d.archive_kind("a.tar.gz"), Some(ArchiveKind::TarGz));
    assert_eq!(d.archive_kind("a.tgz"), Some(ArchiveKind::TarGz));
    assert_eq!(d.archive_kind("a.rar"), Some(ArchiveKind::Rar));
    assert_eq!(d.archive_kind("a.ZIP"), None);
    assert!(d.is_archive("x.rar") && !d.is_archive("x.inc"));
    assert_eq!(d.asset_kind("pkg.zip"), AssetKind::Archive(ArchiveKind::Zip));
    assert_eq!(d.asset_kind("a.inc"), AssetKind::Include);
    assert_eq!(d.asset_kind("a.so"), AssetKind::Binary);
    assert_eq!(d.asset_kind("a.dylib"), AssetKind::Binary);
    assert_eq!(d.asset_kind("README.md"), AssetKind::Other);
}

#[test]
fn parse_repo_wants_owner_and_name() {
    let d = PackageDownloader::new();
    let r = d.parse_repo("owner/repo").unwrap();
    assert_eq!((r.owner.as_str(), r.name.as_str()), ("owner", "repo"));
    for bad in ["", "owner", "/repo", "owner/", "a/b/c", "/"] {
        assert!(matches!(d.parse_repo(bad).unwrap_err(), OpenCliError::Config(_)), "{bad}");
    }
}

#[test]
fn find_matching_version_selects_newest_admitted_release() {
    let d = PackageDownloader::new();
    let releases = vec![release("v1.0.0"), release("nightly"), release("v1.4.2"), release("v2.0.0"), release("1.4.2")];
    let c = VersionConstraint::parse("^1.0.0").unwrap();
    assert_eq!(d.find_matching_version(&releases, &c).unwrap().tag_name, "v1.4.2");
    let any = VersionConstraint::parse("*").unwrap();
    assert_eq!(d.find_matching_version(&releases, &any).unwrap().tag_name, "v2.0.0");
    let none = VersionConstraint::parse(">=3.0.0").unwrap();
    assert!(matches!(d.find_matching_version(&releases, &none).unwrap_err(), OpenCliError::NotFound(_)));
    assert!(d.find_matching_version(&vec![], &any).is_err());
}

#[test]
fn find_matching_version_takes_first_release_of_the_last_newest_version() {
    let d = PackageDownloader::new();
    let releases = vec![release("v1.0.0-b"), release("v1.0.0-a"), release("r1.0.0-b")];
    let any = VersionConstraint::parse("*").unwrap();
    let found = d.find_matching_version(&releases, &any).unwrap();
    assert_eq!(found.tag_name, "v1.0.0-b");
}
