use opencli::build::config::{BuildConfig, PackageSpec, PackageTarget};
use opencli::package::downloader::PackageFiles;
use opencli::package::lock::{InstalledPackage, PackageLock};
use opencli::package::manager::{
    replace_extension, FileContent, InstallStart, PackageManager, PackageStatus,
};
use opencli::result::OpenCliError;

fn s(text: &str) -> String {
    text.to_string()
}

fn manager() -> PackageManager {
    PackageManager::new("ws", "ws/opencli.toml")
}

fn files(includes: &[&str], binaries: &[&str], root: &[&str], components: &[&str], plugins: &[&str]) -> PackageFiles {
    let v = |x: &[&str]| x.iter().map(|p| p.to_string()).collect::<Vec<_>>();
    PackageFiles {
        includes: v(includes),
        binaries: v(binaries),
        root_binaries: v(root),
        component_binaries: v(components),
        plugin_binaries: v(plugins),
    }
}

fn copies(plan: &opencli::package::manager::InstallFiles) -> Vec<(String, String)> {
    plan.copies.iter().map(|c| (c.from.clone(), c.to.clone())).collect()
}

#[test]
fn paths_of_a_new_manager() {
    let m = manager();
    assert_eq!(m.config_path(), "ws/opencli.toml");
    assert_eq!(m.lock_path(), "ws/opencli.lock");
    assert_eq!(m.cache().cache_file(), "ws/cache.txt");
    assert_eq!(m.config_manager().config_path(), "ws/config.json");
    assert_eq!(m.workspace().get_workspace_info().plugins, "ws/plugins");
}

#[test]
fn extension_is_replaced_or_added() {
    assert_eq!(replace_extension("a/b.toml", "lock"), "a/b.lock");
    assert_eq!(replace_extension("a/b", "lock"), "a/b.lock");
    assert_eq!(replace_extension("a.d/b", "lock"), "a.d/b.lock");
    assert_eq!(replace_extension("a/b.tar.gz", "lock"), "a/b.tar.lock");
    assert_eq!(replace_extension("a/.hidden", "lock"), "a/.hidden.lock");
    assert_eq!(replace_extension("a/", "lock"), "a/");
    assert_eq!(replace_extension("", "lock"), "");
}

#[test]
fn installing_twice_is_a_no_op_the_second_time() {
    let m = manager();
    let mut lock = PackageLock::new();
    match m.install_package(&lock, "o/r", Some("^1.0.0")).unwrap() {
        InstallStart::Resolve(c) => assert!(c.matches(&opencli::package::version::Version::new(1, 2, 0))),
        other => panic!("{other:?}"),
    }
    lock.add_package_at(s("o/r"), s("v1.2.0"), None, s("h"), vec![], s("t"));
    for spec in [Some("^1.0.0"), Some("^2.0.0"), Some("not a constraint"), None] {
        match m.install_package(&lock, "o/r", spec).unwrap() {
            InstallStart::AlreadyInstalled(v) => assert_eq!(v, "v1.2.0"),
            other => panic!("{other:?}"),
        }
    }
    assert_eq!(lock.list_packages().len(), 1);
}

#[test]
fn install_defaults_to_any_version_and_rejects_bad_constraints() {
    let m = manager();
    let lock = PackageLock::new();
    match m.install_package(&lock, "o/r", None).unwrap() {
        InstallStart::Resolve(c) => assert!(c.matches(&opencli::package::version::Version::new(0, 0, 0))),
        other => panic!("{other:?}"),
    }
    let err = m.install_package(&lock, "o/r", Some("=>x")).unwrap_err();
    assert!(matches!(err, OpenCliError::Config(_)));
}

#[test]
fn binaries_without_target_go_by_their_name() {
    let m = manager();
    assert_eq!(m.detect_binary_target("t/omp-thing.dll"), PackageTarget::Components);
    assert_eq!(m.detect_binary_target("t/MyComponent.so"), PackageTarget::Components);
    assert_eq!(m.detect_binary_target("t/components/streamer.so"), PackageTarget::Plugins);
    assert_eq!(m.detect_binary_target(""), PackageTarget::Plugins);
}

#[test]
fn install_plan_for_components() {
    let m = manager();
    let pf = files(&["t/a.inc"], &["t/loose.dll"], &["t/libx.dll"], &["t/c/comp.dll"], &["t/p/plug.dll"]);
    let plan = m.install_package_files(&pf, Some(PackageTarget::Components), &vec![s("inc"), s("other")]);
    assert_eq!(
        copies(&plan),
        vec![
            (s("t/a.inc"), s("inc/a.inc")),
            (s("t/libx.dll"), s("ws/libx.dll")),
            (s("t/c/comp.dll"), s("ws/components/comp.dll")),
        ]
    );
    assert_eq!(plan.installed, vec!["inc/a.inc", "ws/components/comp.dll", "ws/libx.dll"]);
}

#[test]
fn install_plan_for_plugins_falls_back_to_loose_binaries() {
    let m = manager();
    let pf = files(&["t/a.inc"], &["t/loose.dll"], &[], &["t/c/comp.dll"], &[]);
    let plan = m.install_package_files(&pf, Some(PackageTarget::Plugins), &vec![]);
    assert_eq!(copies(&plan), vec![(s("t/loose.dll"), s("ws/plugins/loose.dll"))]);
    assert_eq!(plan.installed, vec!["ws/plugins/loose.dll"]);
}

#[test]
fn install_plan_without_target() {
    let m = manager();
    let pf = files(&[], &["t/omp-x.dll", "t/y.dll"], &[], &[], &["t/p/plug.dll"]);
    let plan = m.install_package_files(&pf, None, &vec![s("inc")]);
    assert_eq!(
        copies(&plan),
        vec![(s("t/omp-x.dll"), s("ws/components/omp-x.dll")), (s("t/y.dll"), s("ws/plugins/y.dll"))]
    );
    let pf = files(&[], &["t/y.dll"], &[], &["t/same.dll", "u/same.dll"], &[]);
    let plan = m.install_package_files(&pf, None, &vec![]);
    assert_eq!(plan.copies.len(), 2);
    assert_eq!(plan.installed, vec!["ws/plugins/same.dll"]);
}

#[test]
fn combined_content_is_content_then_path_of_each_file() {
    let m = manager();
    let files = vec![
        FileContent { path: s("a/é"), content: vec![1, 2] },
        FileContent { path: s("b"), content: vec![] },
        FileContent { path: s(""), content: vec![9] },
    ];
    let mut want = vec![1u8, 2];
    want.extend_from_slice("a/é".as_bytes());
    want.extend_from_slice(b"b");
    want.push(9);
    assert_eq!(m.combined_content(&files), want);
    assert!(m.combined_content(&vec![]).is_empty());
}

#[test]
fn package_hash_verifies_against_the_combined_fingerprint() {
    let m = manager();
    let files = vec![FileContent { path: s("ws/plugins/a.so"), content: b"binary".to_vec() }];
    let hash = m.compute_package_hash(&files).unwrap();
    let fp = m.security().fingerprint(&m.combined_content(&files));
    assert!(m.security().verify_fingerprint(&fp, &hash).unwrap());
    let other = m.compute_package_hash(&files).unwrap();
    assert_ne!(hash, other);
}

#[test]
fn cache_gets_the_hash_under_each_file_name() {
    let mut m = manager();
    m.update_cache(&vec![s("ws/plugins/a.so"), s("ws/dir/"), s("inc/b.inc")], "H").unwrap();
    assert_eq!(m.cache().content(), Some("a.so\nargon2:H\nb.inc\nargon2:H\n"));
    assert_eq!(m.cache().get_hash("b.inc"), Some(s("H")));
    let err = m.update_cache(&vec![s("x/c.so"), s("x/bad\nname"), s("x/d.so")], "H2").unwrap_err();
    assert!(matches!(err, OpenCliError::Config(_)));
    assert_eq!(m.cache().content(), Some("a.so\nargon2:H\nb.inc\nargon2:H\nc.so\nargon2:H2\n"));
    m.load_cache(None);
    assert!(m.update_cache(&vec![s("x/c.so")], "").is_err());
    assert!(m.cache().content().is_none());
}

#[test]
fn removal_plan() {
    let m = manager();
    let mut lock = PackageLock::new();
    assert!(m.remove_package(&lock, "o/r").is_none());
    lock.add_package_at(s("o/r"), s("v1"), Some(PackageTarget::Plugins), s("h"), vec![s("ws/plugins/a.so"), s("inc/b.inc"), s("odd/")], s("t"));
    lock.add_package_at(s("x/y"), s("v1"), Some(PackageTarget::Components), s("h"), vec![s("c.dll")], s("t"));
    let plan = m.remove_package(&lock, "o/r").unwrap();
    assert_eq!(plan.files, vec!["ws/plugins/a.so", "inc/b.inc", "odd/"]);
    assert_eq!(plan.cache_names, vec!["a.so", "b.inc"]);
    assert!(plan.legacy_plugins);
    assert!(!m.remove_package(&lock, "x/y").unwrap().legacy_plugins);
}

#[test]
fn check_verdicts() {
    let m = manager();
    let package = InstalledPackage { version: s("v1"), target: None, hash: s("H"), installed_at: s("t"), files: vec![] };
    assert_eq!(m.check_package(&package, false, &Ok(s("H"))), PackageStatus::MissingFiles);
    assert_eq!(m.check_package(&package, true, &Ok(s("H"))), PackageStatus::Valid);
    assert_eq!(m.check_package(&package, true, &Ok(s("other"))), PackageStatus::HashMismatch);
    assert_eq!(m.check_package(&package, true, &Err(OpenCliError::process("x"))), PackageStatus::HashFailed);
    assert!(m.check_packages(&vec![]));
    assert!(m.check_packages(&vec![PackageStatus::Valid, PackageStatus::Valid]));
    assert!(!m.check_packages(&vec![PackageStatus::Valid, PackageStatus::HashMismatch]));
}

#[test]
fn update_plan() {
    let m = manager();
    let mut config = BuildConfig::default();
    let mut lock = PackageLock::new();
    assert!(matches!(m.update_package(&config, &lock, "o/r").unwrap_err(), OpenCliError::NotFound(_)));
    config.add_package(s("o/r"), PackageSpec::new_detailed("^1.0.0", Some(PackageTarget::Plugins)));
    config.add_package(s("bad/one"), PackageSpec::new_simple("=>"));
    assert!(matches!(m.update_package(&config, &lock, "x/y").unwrap_err(), OpenCliError::NotFound(_)));
    assert!(matches!(m.update_package(&config, &lock, "bad/one").unwrap_err(), OpenCliError::Config(_)));
    let plan = m.update_package(&config, &lock, "o/r").unwrap();
    assert!(plan.files.is_empty());
    assert!(!plan.installed);
    assert_eq!(plan.version, "^1.0.0");
    assert_eq!(plan.target, Some(PackageTarget::Plugins));
    lock.add_package_at(s("o/r"), s("v1"), None, s("h"), vec![s("f1"), s("f2")], s("t"));
    let plan = m.update_package(&config, &lock, "o/r").unwrap();
    assert!(plan.installed);
    assert_eq!(plan.files, vec!["f1", "f2"]);
}

#[test]
fn install_all_lists_declared_packages() {
    let m = manager();
    let mut config = BuildConfig::default();
    assert!(m.install_all_packages(&config).is_empty());
    config.add_package(s("a/a"), PackageSpec::new_simple("1.0.0"));
    config.add_package(s("b/b"), PackageSpec::new_detailed("*", Some(PackageTarget::Components)));
    let all = m.install_all_packages(&config);
    assert_eq!(all.len(), 2);
    assert_eq!((all[0].repo.as_str(), all[0].version.as_str(), all[0].target), ("a/a", "1.0.0", None));
    assert_eq!((all[1].repo.as_str(), all[1].version.as_str(), all[1].target), ("b/b", "*", Some(PackageTarget::Components)));
}

#[test]
fn scratch_folder_name() {
    let m = manager();
    assert_eq!(m.get_temp_dir("owner/repo"), "owner_repo");
    assert_eq!(m.get_temp_dir("a/b/c"), "a_b_c");
    assert_eq!(m.get_temp_dir(""), "");
}

#[test]
fn an_installation_is_recorded_in_cache_and_ledger() {
    let mut m = manager();
    let mut lock = PackageLock::new();
    let files = vec![s("ws/plugins/a.so"), s("inc/b.inc")];
    m.record_install(&mut lock, "o/r", "v1.2.0", Some(PackageTarget::Plugins), &files, "H").unwrap();
    assert_eq!(m.cache().content(), Some("a.so\nargon2:H\nb.inc\nargon2:H\n"));
    let package = lock.get_package("o/r").unwrap();
    assert_eq!(package.version, "v1.2.0");
    assert_eq!(package.target, Some(PackageTarget::Plugins));
    assert_eq!(package.hash, "H");
    assert_eq!(package.files, files);
    assert!(!package.installed_at.is_empty());
    assert!(matches!(m.install_package(&lock, "o/r", Some("^9")).unwrap(), InstallStart::AlreadyInstalled(_)));
    let err = m.record_install(&mut lock, "x/y", "v1", None, &vec![s("a\nb")], "H").unwrap_err();
    assert!(matches!(err, OpenCliError::Config(_)));
    assert!(!lock.is_package_installed("x/y"));
    assert_eq!(lock.list_packages().len(), 1);
}

#[test]
fn a_removal_is_recorded_in_cache_and_ledger() {
    let mut m = manager();
    let mut lock = PackageLock::new();
    m.record_install(&mut lock, "o/r", "v1", None, &vec![s("ws/plugins/a.so"), s("inc/b.inc")], "H").unwrap();
    m.record_install(&mut lock, "x/y", "v2", None, &vec![s("ws/components/c.so")], "K").unwrap();
    assert!(m.record_removal(&mut lock, "no/such").is_none());
    assert_eq!(lock.list_packages().len(), 2);
    assert_eq!(m.cache().count_cache(), 3);
    let removed = m.record_removal(&mut lock, "o/r").unwrap();
    assert_eq!(removed.version, "v1");
    assert_eq!(removed.files, vec!["ws/plugins/a.so", "inc/b.inc"]);
    assert!(!lock.is_package_installed("o/r"));
    assert!(lock.is_package_installed("x/y"));
    assert_eq!(m.cache().content(), Some("c.so\nargon2:K\n"));
    assert!(matches!(m.install_package(&lock, "o/r", None).unwrap(), InstallStart::Resolve(_)));
}

#[test]
fn errors_carry_their_messages() {
    let m = manager();
    let mut config = BuildConfig::default();
    let lock = PackageLock::new();
    assert_eq!(m.update_package(&config, &lock, "o/r").unwrap_err().to_string(), "Not found: No packages installed");
    config.add_package(s("a/b"), PackageSpec::new_simple("nonsense"));
    assert_eq!(m.update_package(&config, &lock, "o/r").unwrap_err().to_string(), "Not found: Package o/r not found");
    assert_eq!(
        m.update_package(&config, &lock, "a/b").unwrap_err().to_string(),
        "Config error: Invalid version constraint: nonsense"
    );
    assert_eq!(
        m.install_package(&lock, "a/b", Some("^")).unwrap_err().to_string(),
        "Config error: Invalid version constraint: ^"
    );
    let mut m = manager();
    assert_eq!(
        m.update_cache(&vec![s("x/ok.so"), s("x/bad\nname")], "H").unwrap_err().to_string(),
        "Config error: store_hash: Invalid filename - must not be empty or contain newlines"
    );
    assert_eq!(
        m.update_cache(&vec![s("dir/"), s("x/ok.so")], "").unwrap_err().to_string(),
        "Config error: store_hash: Invalid hash format - must not be empty or contain newlines"
    );
}
