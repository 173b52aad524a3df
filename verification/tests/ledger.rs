use opencli::build::config::{BuildConfig, PackageSpec, PackageTarget};
use opencli::package::lock::{InstalledPackage, LockEntry, PackageLock};
use opencli::result::OpenCliError;

fn s(text: &str) -> String {
    text.to_string()
}

#[test]
fn add_get_remove() {
    let mut lock = PackageLock::new();
    assert!(!lock.is_package_installed("o/r"));
    lock.add_package_at(s("o/r"), s("v1.0.0"), Some(PackageTarget::Plugins), s("h"), vec![s("plugins/a.so")], s("2024-01-01T00:00:00+00:00"));
    assert!(lock.is_package_installed("o/r"));
    assert_eq!(lock.get_installed_version("o/r"), Some("v1.0.0"));
    let p = lock.get_package("o/r").unwrap();
    assert_eq!(p.hash, "h");
    assert_eq!(p.target, Some(PackageTarget::Plugins));
    assert_eq!(p.files, vec!["plugins/a.so"]);
    assert_eq!(p.installed_at, "2024-01-01T00:00:00+00:00");
    let removed = lock.remove_package("o/r").unwrap();
    assert_eq!(removed.version, "v1.0.0");
    assert!(!lock.is_package_installed("o/r"));
    assert!(lock.remove_package("o/r").is_none());
    assert!(lock.get_package("o/r").is_none());
    assert!(lock.get_installed_version("o/r").is_none());
}

#[test]
fn adding_again_replaces_the_record() {
    let mut lock = PackageLock::new();
    lock.add_package_at(s("a/a"), s("v1"), None, s("h1"), vec![], s("t1"));
    lock.add_package_at(s("b/b"), s("v1"), None, s("h2"), vec![], s("t1"));
    lock.add_package_at(s("a/a"), s("v2"), Some(PackageTarget::Components), s("h3"), vec![s("f")], s("t2"));
    assert_eq!(lock.list_packages().len(), 2);
    assert_eq!(lock.list_packages()[0].name, "a/a");
    assert_eq!(lock.get_installed_version("a/a"), Some("v2"));
    assert_eq!(lock.get_package("a/a").unwrap().installed_at, "t2");
    assert_eq!(lock.get_installed_version("b/b"), Some("v1"));
    assert!(lock.is_well_formed());
}

#[test]
fn add_package_stamps_the_time() {
    let mut lock = PackageLock::new();
    lock.add_package(s("o/r"), s("v1.2.3"), None, s("h"), vec![s("x")]);
    let p = lock.get_package("o/r").unwrap();
    assert_eq!(p.version, "v1.2.3");
    assert!(p.installed_at.len() >= 20);
    assert!(p.installed_at.contains('T'));
}

#[test]
fn a_ledger_with_a_name_twice_is_not_well_formed() {
    let package = InstalledPackage { version: s("v1"), target: None, hash: s("h"), installed_at: s("t"), files: vec![] };
    let lock = PackageLock {
        installed: vec![
            LockEntry { name: s("a"), package: package.clone() },
            LockEntry { name: s("b"), package: package.clone() },
            LockEntry { name: s("a"), package },
        ],
    };
    assert!(!lock.is_well_formed());
}

#[test]
fn build_config_defaults_and_validation() {
    let mut config = BuildConfig::default();
    assert_eq!(config.build.entry_file, "gamemode.pwn");
    assert_eq!(config.build.output_file, "gamemode.amx");
    assert_eq!(config.build.compiler_version, "v3.10.11");
    assert_eq!(config.get_include_paths(), vec!["include", "qawno/include"]);
    assert_eq!(config.build.args.as_ref().unwrap().args, vec!["-d3", "-;+", "-(+", "-\\+", "-Z+"]);
    assert!(config.validate().is_ok());
    config.build.output_file = String::new();
    assert!(matches!(config.validate().unwrap_err(), OpenCliError::Config(_)));
    config.build.output_file = s("x.amx");
    config.build.entry_file = String::new();
    assert!(config.validate().is_err());
    config.build.entry_file = s("x.pwn");
    config.build.compiler_version = String::new();
    assert!(config.validate().is_err());
    config.build.includes = None;
    assert!(config.get_include_paths().is_empty());
}

#[test]
fn build_config_packages() {
    let mut config = BuildConfig::default();
    assert!(!config.remove_package("o/r"));
    config.add_package(s("o/r"), PackageSpec::new_simple("^1.0.0"));
    config.add_package(s("p/q"), PackageSpec::new_detailed("~2.1.0", Some(PackageTarget::Plugins)));
    config.add_package(s("o/r"), PackageSpec::new_simple("^2.0.0"));
    let packages = config.packages.as_ref().unwrap();
    assert_eq!(packages.len(), 2);
    assert_eq!(packages[0].spec.version(), "^2.0.0");
    assert_eq!(packages[0].spec.target(), None);
    assert_eq!(packages[1].spec.version(), "~2.1.0");
    assert_eq!(packages[1].spec.target(), Some(PackageTarget::Plugins));
    assert!(config.remove_package("o/r"));
    assert!(!config.remove_package("o/r"));
    assert_eq!(config.packages.as_ref().unwrap().len(), 1);
}

#[test]
fn defaults() {
    let config = BuildConfig::default();
    assert_eq!(config.get_include_paths(), vec!["include", "qawno/include"]);
    assert_eq!(config.build.args.unwrap().args, vec!["-d3", "-;+", "-(+", "-\\+", "-Z+"]);
    assert!(config.packages.is_none());
    assert!(PackageLock::default().list_packages().is_empty());
    assert!(PackageLock::default().is_well_formed());
}
