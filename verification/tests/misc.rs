use opencli::build::config::PackageTarget;
use opencli::cli::parser::CliParser;
use opencli::cli::{Cli, Commands, Dispatch, InstallComponent, PackageAction};
use opencli::commands::compile::BuildCommand;
use opencli::commands::install::InstallCommand;
use opencli::commands::setup::SetupCommand;
use opencli::commands::{CommandExecutor, CommandType, PackageRequest};
use opencli::compiler::config::{CompilerConfig, Platform, PlatformConfig};
use opencli::compiler::downloader::{CompilerDownloader, GitHubAsset};
use opencli::compiler::manager::{CompilerManager, ExtractionMethod};
use opencli::names::{contains_name, sort_dedup};
use opencli::package::config_manager::ConfigManager;
use opencli::package::lock::{InstalledPackage, PackageLock};
use opencli::package::workspace::{parse_target, WorkspaceDetector};
use opencli::paths::join;
use opencli::result::OpenCliError;
use opencli::text::{chars_of, decimal_of, find, less, string_of, to_lowercase, trim};
use opencli::build::config::{BuildConfig, PackageSpec};
use opencli::utils::process::{Probe, ProcessManager};

fn s(text: &str) -> String {
    text.to_string()
}

fn v(items: &[&str]) -> Vec<String> {
    items.iter().map(|x| x.to_string()).collect()
}

#[test]
fn text_primitives() {
    assert_eq!(string_of(&chars_of("héllo")), "héllo");
    assert_eq!(string_of(&trim(&chars_of(" \t x y\u{a0}\n"))), "x y");
    assert_eq!(string_of(&trim(&chars_of("   "))), "");
    assert_eq!(string_of(&to_lowercase(&chars_of("AbC-Z[É"))), "abc-z[É");
    assert_eq!(string_of(&decimal_of(0)), "0");
    assert_eq!(string_of(&decimal_of(4294967295)), "4294967295");
    assert_eq!(string_of(&decimal_of(1005)), "1005");
    assert_eq!(find(&chars_of("abcabc"), &chars_of("ca")), Some(2));
    assert_eq!(find(&chars_of("abc"), &chars_of("")), Some(0));
    assert_eq!(find(&chars_of("abc"), &chars_of("abcd")), None);
    assert!(less(&chars_of("a"), &chars_of("ab")));
    assert!(less(&chars_of("B"), &chars_of("a")));
    assert!(!less(&chars_of("a"), &chars_of("a")));
    assert!(!less(&chars_of("b"), &chars_of("ab")));
}

#[test]
fn names_are_sorted_and_deduplicated() {
    assert_eq!(sort_dedup(&v(&["b", "a", "b", "", "ab", "a"])), v(&["", "a", "ab", "b"]));
    assert!(sort_dedup(&vec![]).is_empty());
    assert!(contains_name(&v(&["a", "b"]), "b"));
    assert!(!contains_name(&v(&["a", "b"]), "c"));
}

#[test]
fn paths_are_joined_with_one_slash() {
    assert_eq!(join("a", "b"), "a/b");
    assert_eq!(join("a/", "b"), "a/b");
    assert_eq!(join("", "b"), "b");
    assert_eq!(join("a", "/b"), "/b");
    assert_eq!(join("a", ""), "a/");
}

#[test]
fn errors_show_their_category() {
    assert_eq!(OpenCliError::config("bad").to_string(), "Config error: bad");
    assert_eq!(OpenCliError::process("bad").to_string(), "Process error: bad");
    assert_eq!(OpenCliError::server("bad").to_string(), "Server error: bad");
    assert_eq!(OpenCliError::not_found("x").to_string(), "Not found: x");
    assert_eq!(OpenCliError::Io(s("e")).to_string(), "IO error: e");
    assert_eq!(OpenCliError::TomlParse(s("e")).to_string(), "TOML parse error: e");
    assert_eq!(OpenCliError::TomlSerialize(s("e")).to_string(), "TOML serialize error: e");
    assert_eq!(OpenCliError::JsonError(s("e")).to_string(), "JSON error: e");
    assert_eq!(OpenCliError::COMPILER_NOT_FOUND, "Compiler binary not found");
    assert_eq!(OpenCliError::DOWNLOAD_FAILED, "Download failed");
    assert_eq!(OpenCliError::EXTRACTION_FAILED, "Extraction failed");
    assert_eq!(OpenCliError::INVALID_CONFIG, "Invalid configuration format");
    assert_eq!(OpenCliError::SERVER_START_FAILED, "Failed to start server");
}

#[test]
fn workspace_folders() {
    let w = WorkspaceDetector::new("ws");
    assert_eq!(w.detect_components_folder(), "ws/components");
    assert_eq!(w.detect_plugins_folder(), "ws/plugins");
    assert_eq!(w.get_target_folder("Components").unwrap(), "ws/components");
    assert_eq!(w.get_target_folder("PLUGINS").unwrap(), "ws/plugins");
    assert!(matches!(w.get_target_folder("plugin").unwrap_err(), OpenCliError::Config(_)));
    let info = w.get_workspace_info();
    assert_eq!((info.root.as_str(), info.components.as_str(), info.plugins.as_str()), ("ws", "ws/components", "ws/plugins"));
    assert_eq!(info.get_target_path("components").unwrap(), "ws/components");
    assert_eq!(info.get_target_path("Plugins").unwrap(), "ws/plugins");
    assert!(matches!(info.get_target_path("").unwrap_err(), OpenCliError::Config(_)));
    assert!(info.validate(true).is_ok());
    assert!(matches!(info.validate(false).unwrap_err(), OpenCliError::NotFound(_)));
    assert_eq!(parse_target("components"), Some(PackageTarget::Components));
    assert_eq!(parse_target("nope"), None);
}

#[test]
fn legacy_plugin_names() {
    let c = ConfigManager::new("ws");
    assert_eq!(c.config_path(), "ws/config.json");
    assert_eq!(c.extract_binary_name_from_path("ws/plugins/streamer.so"), Some(s("streamer")));
    assert_eq!(c.extract_binary_name_from_path("ws/plugins/Streamer.DLL"), Some(s("Streamer.DLL")));
    assert_eq!(c.extract_binary_name_from_path("ws/plugins/a.dll.dll"), Some(s("a")));
    assert_eq!(c.extract_binary_name_from_path("ws/plugins/a.so.dll"), Some(s("a")));
    assert_eq!(c.extract_binary_name_from_path("ws/plugins/a.dll.so"), Some(s("a.dll")));
    assert_eq!(c.extract_binary_name_from_path("ws/components/streamer.so"), None);
    assert_eq!(c.extract_binary_name_from_path("ws/plugins/libfoo.so"), None);
    assert_eq!(c.extract_binary_name_from_path("ws/plugins/readme.txt"), None);
    assert_eq!(c.extract_binary_name_from_path("ws/plugins/"), None);
    assert_eq!(c.plugin_names_of(&v(&["p/plugins/b.so", "x.inc", "p/plugins/a.dll"])), v(&["b", "a"]));
}

#[test]
fn legacy_plugin_lists() {
    let c = ConfigManager::new("ws");
    assert_eq!(c.merge_plugin_arrays(&v(&["b", "a"]), &v(&["c", "a"])), v(&["a", "b", "c"]));
    assert_eq!(c.remove_plugins_from_array(&v(&["c", "a", "b", "a"]), &v(&["a", "x"])), v(&["c", "b"]));
    let mut lock = PackageLock::new();
    assert_eq!(c.update_legacy_plugins(Some(&v(&["z"])), &lock), None);
    lock.add_package_at(s("o/r"), s("v1"), Some(PackageTarget::Plugins), s("h"), v(&["ws/plugins/streamer.so", "inc/a.inc"]), s("t"));
    lock.add_package_at(s("o/c"), s("v1"), Some(PackageTarget::Components), s("h"), v(&["ws/plugins/other.so"]), s("t"));
    lock.add_package_at(s("o/p"), s("v1"), Some(PackageTarget::Plugins), s("h"), v(&["ws/plugins/crash.so", "ws/plugins/streamer.so"]), s("t"));
    assert_eq!(c.extract_legacy_plugin_names(&lock), v(&["crash", "streamer"]));
    assert_eq!(c.update_legacy_plugins(Some(&v(&["z", "crash"])), &lock), Some(v(&["crash", "streamer", "z"])));
    assert_eq!(c.update_legacy_plugins(None, &lock), Some(v(&["crash", "streamer"])));
    let package = InstalledPackage { version: s("v1"), target: Some(PackageTarget::Plugins), hash: s("h"), installed_at: s("t"), files: v(&["ws/plugins/crash.so"]) };
    assert_eq!(c.remove_legacy_plugin_advanced(&v(&["z", "crash"]), &package), Some(v(&["z"])));
    assert_eq!(c.remove_legacy_plugin_advanced(&v(&["z"]), &package), None);
}

#[test]
fn command_line_checks() {
    assert_eq!(CliParser::validate_port(1).unwrap(), 1);
    assert_eq!(CliParser::validate_port(65535).unwrap(), 65535);
    assert!(matches!(CliParser::validate_port(0).unwrap_err(), OpenCliError::Config(_)));
    assert_eq!(CliParser::validate_config_path("a.toml", true, true).unwrap(), "a.toml");
    assert!(matches!(CliParser::validate_config_path("a.toml", false, false).unwrap_err(), OpenCliError::NotFound(_)));
    assert!(matches!(CliParser::validate_config_path("a", true, false).unwrap_err(), OpenCliError::Config(_)));
}

#[test]
fn commands_are_dispatched() {
    match Cli::new(Commands::Setup { force: true }).execute() {
        Dispatch::Command(CommandType::Setup { force }) => assert!(force),
        other => panic!("{other:?}"),
    }
    match Cli::new(Commands::Install { component: InstallComponent::Compiler { version: Some(s("v1")), force: false } }).execute() {
        Dispatch::Command(CommandType::InstallCompiler { version, force }) => {
            assert_eq!(version, Some(s("v1")));
            assert!(!force);
        }
        other => panic!("{other:?}"),
    }
    match Cli::new(Commands::Package { action: PackageAction::List }).execute() {
        Dispatch::Package(PackageAction::List) => {}
        other => panic!("{other:?}"),
    }
    let e = CommandExecutor::new();
    assert!(matches!(e.run_server(None), CommandType::Run { server_path: None }));
    assert!(matches!(e.build_project(None, true, false, true), CommandType::Build { verbose: true, force_download: false, update_config: true, .. }));
    assert!(matches!(e.setup_project(false), CommandType::Setup { force: false }));
    assert!(matches!(e.install_compiler(None, true), CommandType::InstallCompiler { force: true, .. }));
}

#[test]
fn package_actions_become_requests() {
    let e = CommandExecutor::new();
    assert_eq!(e.parse_package_argument("o/r"), (s("o/r"), None));
    assert_eq!(e.parse_package_argument("o/r=^1.2.0"), (s("o/r"), Some(s("^1.2.0"))));
    assert_eq!(e.parse_package_argument("o/r=\"'1.0'\""), (s("o/r"), Some(s("1.0"))));
    assert_eq!(e.parse_package_argument("o/r=a=b"), (s("o/r"), Some(s("a=b"))));
    assert_eq!(e.parse_package_argument("o/r="), (s("o/r"), Some(s(""))));
    match e.handle_package_action(PackageAction::Install { package: Some(s("o/r=1.0")), target: Some(s("Plugins")) }) {
        PackageRequest::Install { repo, version, target } => {
            assert_eq!((repo.as_str(), version.as_deref(), target), ("o/r", Some("1.0"), Some(PackageTarget::Plugins)));
        }
        other => panic!("{other:?}"),
    }
    match e.handle_package_action(PackageAction::Install { package: Some(s("o/r")), target: Some(s("elsewhere")) }) {
        PackageRequest::Install { version, target, .. } => assert_eq!((version, target), (None, None)),
        other => panic!("{other:?}"),
    }
    assert!(matches!(e.handle_package_action(PackageAction::Install { package: None, target: None }), PackageRequest::InstallAll));
    assert!(matches!(e.handle_package_action(PackageAction::Remove { package: s("o/r") }), PackageRequest::Remove { .. }));
    assert!(matches!(e.handle_package_action(PackageAction::List), PackageRequest::List));
    assert!(matches!(e.handle_package_action(PackageAction::Check), PackageRequest::Check));
    assert!(matches!(e.handle_package_action(PackageAction::Update { package: Some(s("o/r")), all: true }), PackageRequest::InstallAll));
    assert!(matches!(e.handle_package_action(PackageAction::Update { package: Some(s("o/r")), all: false }), PackageRequest::Update { .. }));
    assert!(matches!(e.handle_package_action(PackageAction::Update { package: None, all: false }), PackageRequest::Nothing));
}

#[test]
fn setup_install_and_build_decisions() {
    assert!(SetupCommand::new().execute(false, false).is_ok());
    assert!(SetupCommand::new().execute(true, true).is_ok());
    assert!(matches!(SetupCommand::new().execute(false, true).unwrap_err(), OpenCliError::Config(_)));
    assert_eq!(InstallCommand::new().execute_compiler(None), "v3.10.11");
    assert_eq!(InstallCommand::new().execute_compiler(Some(s("v3.10.10"))), "v3.10.10");
    let b = BuildCommand::new();
    assert_eq!(b.process_args(&v(&["-O1", "-d3", "-O2", "-;+", "-Ox", "-d2"])), (v(&["-O1", "-d3", "-;+", "-d2"]), true));
    assert_eq!(b.process_args(&v(&["-O2", "-Z+"])), (v(&["-O2", "-Z+"]), false));
    assert_eq!(b.process_args(&vec![]), (vec![], false));
}

#[test]
fn compiler_decisions() {
    let platform = |name: &str| PlatformConfig { match_pattern: s(name), method: s("zip"), binary: s("pawncc"), paths: vec![] };
    let config = CompilerConfig { darwin: None, linux: Some(platform("linux")), windows: Some(platform("windows")) };
    assert_eq!(config.get_platform_config(Platform::Linux).unwrap().match_pattern, "linux");
    assert_eq!(config.get_platform_config(Platform::Windows).unwrap().match_pattern, "windows");
    assert!(config.get_platform_config(Platform::MacOs).is_none());
    assert!(config.get_platform_config(Platform::Other).is_none());
    let m = CompilerManager::new();
    assert_eq!(m.extraction_method("zip").unwrap(), ExtractionMethod::Zip);
    assert_eq!(m.extraction_method("tgz").unwrap(), ExtractionMethod::Tgz);
    assert!(matches!(m.extraction_method("rar").unwrap_err(), OpenCliError::Config(_)));
    assert!(!m.get_compiler_path(true, false, Some(true)));
    assert!(m.get_compiler_path(true, true, Some(true)));
    assert!(m.get_compiler_path(true, false, Some(false)));
    assert!(m.get_compiler_path(true, false, None));
    assert!(m.get_compiler_path(false, false, Some(true)));
    assert!(m.installed("p", true).is_ok());
    assert!(matches!(m.installed("p", false).unwrap_err(), OpenCliError::NotFound(_)));
}

#[test]
fn compiler_assets_are_found_by_pattern() {
    let d = CompilerDownloader::new();
    assert_eq!(d.get_release_assets("v3.10.11"), ("openmultiplayer", "compiler"));
    assert_eq!(d.get_release_assets("v3.10.10"), ("pawn-lang", "compiler"));
    let asset = |name: &str| GitHubAsset { name: s(name), download_url: s("u") };
    let assets = vec![asset("notes.txt"), asset("pawnc-3.10-linux.tar.gz"), asset("pawnc-3.10-macos.zip"), asset("pawnc-3.10-windows.zip")];
    assert_eq!(d.find_matching_asset(&assets, "windows").unwrap().name, "pawnc-3.10-windows.zip");
    assert_eq!(d.find_matching_asset(&assets, "darwin").unwrap().name, "pawnc-3.10-macos.zip");
    assert_eq!(d.find_matching_asset(&assets, "pawnc").unwrap().name, "pawnc-3.10-linux.tar.gz");
    assert_eq!(d.find_matching_asset(&assets, r"^notes\.").unwrap().name, "notes.txt");
    assert_eq!(d.find_matching_asset(&assets, "windows").unwrap().name.contains("windows"), true);
    assert!(matches!(d.find_matching_asset(&assets, "freebsd").unwrap_err(), OpenCliError::NotFound(_)));
    assert!(matches!(d.find_matching_asset(&assets, "(").unwrap_err(), OpenCliError::Config(_)));
    assert!(matches!(d.find_matching_asset(&vec![], "(").unwrap_err(), OpenCliError::Config(_)));
    assert!(matches!(d.find_matching_asset(&vec![], "x").unwrap_err(), OpenCliError::NotFound(_)));
}

#[test]
fn server_executable_candidates() {
    let p = ProcessManager::new();
    assert_eq!(p.server_binaries(false), vec!["omp-server", "./omp-server", "omp-server.exe"]);
    assert_eq!(p.server_binaries(true), vec!["omp-server.exe", "./omp-server.exe", ".\\omp-server.exe", "omp-server"]);
    assert_eq!(p.candidate_path("dir", "./omp-server"), "dir/omp-server");
    assert_eq!(p.candidate_path("dir", ".\\omp-server.exe"), "dir/omp-server.exe");
    assert_eq!(p.candidate_path("dir", "omp-server"), "dir/omp-server");
}

#[test]
fn declared_packages_and_workspace_folders() {
    let mut config = BuildConfig::default();
    let before = config.get_packages().map(|p| p.len());
    config.add_package(s("o/r"), PackageSpec::new_simple("1.0.0"));
    let packages = config.get_packages().unwrap();
    assert_eq!(packages.len(), before.unwrap_or(0) + 1);
    assert_eq!(packages[packages.len() - 1].name, "o/r");
    assert_eq!(WorkspaceDetector::new("ws").ensure_workspace_structure(), v(&["ws/components", "ws/plugins"]));
}

#[test]
fn the_server_executable_is_searched_for() {
    let p = ProcessManager::new();
    let probe = |in_dir: bool, as_given: bool, on_path: Option<&str>| Probe { in_dir, as_given, on_path: on_path.map(|x| x.to_string()) };
    assert_eq!(p.find_executable("pawncc", Some(s("/usr/bin/pawncc"))).unwrap(), "/usr/bin/pawncc");
    assert_eq!(p.find_executable("pawncc", None).unwrap_err().to_string(), "Not found: Executable not found: pawncc");
    assert_eq!(p.exec_server(Some(s("/srv/omp")), true, "dir", false, &vec![]).unwrap(), "/srv/omp");
    assert_eq!(
        p.exec_server(Some(s("/srv/omp")), false, "dir", false, &vec![probe(true, true, None)]).unwrap_err().to_string(),
        "Not found: Custom server path not found: /srv/omp"
    );
    let near = vec![probe(false, false, Some("/bin/omp-server")), probe(true, true, None), probe(true, false, None)];
    assert_eq!(p.exec_server(None, false, "dir", false, &near).unwrap(), "dir/omp-server");
    let given = vec![probe(false, false, Some("/bin/omp-server")), probe(false, true, None), probe(true, false, None)];
    assert_eq!(p.exec_server(None, false, "dir", false, &given).unwrap(), "./omp-server");
    let path = vec![probe(false, false, None), probe(false, false, Some("/bin/b")), probe(false, false, Some("/bin/c"))];
    assert_eq!(p.exec_server(None, false, "dir", false, &path).unwrap(), "/bin/b");
    let windows = vec![probe(false, false, None), probe(false, false, None), probe(true, false, None), probe(true, false, None)];
    assert_eq!(p.exec_server(None, false, "dir", true, &windows).unwrap(), "dir/omp-server.exe");
    assert_eq!(
        p.exec_server(None, false, "dir", false, &vec![]).unwrap_err().to_string(),
        "Not found: omp-server executable not found.\nLooked for: [\"omp-server\", \"./omp-server\", \"omp-server.exe\"]\nCurrent directory: dir"
    );
    let looked = format!("{:?}", p.server_binaries(true));
    let message = p.exec_server(None, false, "d", true, &vec![probe(false, false, None)]).unwrap_err().to_string();
    assert_eq!(message, format!("Not found: omp-server executable not found.\nLooked for: {looked}\nCurrent directory: d"));
}

#[test]
fn files_of_the_compiler_are_found_by_pattern() {
    let m = CompilerManager::new();
    let paths = v(&["pawnc-3.10/readme.txt", "pawnc-3.10/bin/pawncc", "pawnc-3.10/lib/libpawnc.so", "bin/pawncc"]);
    assert_eq!(m.find_matching_path(&paths, r"bin/pawncc$").unwrap(), Some(1));
    assert_eq!(m.find_matching_path(&paths, r"^bin/").unwrap(), Some(3));
    assert_eq!(m.find_matching_path(&paths, r"libpawnc\.(so|dylib)").unwrap(), Some(2));
    assert_eq!(m.find_matching_path(&paths, r"pawndisasm").unwrap(), None);
    assert_eq!(m.find_matching_path(&vec![], r".").unwrap(), None);
    let err = m.find_matching_path(&paths, "(").unwrap_err();
    assert!(matches!(err, OpenCliError::Config(_)));
    assert!(err.to_string().starts_with("Config error: Invalid path pattern: "));
}

#[test]
fn a_configuration_that_declares_a_package_twice_is_not_well_formed() {
    let mut config = BuildConfig::default();
    assert!(config.is_well_formed());
    config.add_package(s("o/r"), PackageSpec::new_simple("1.0.0"));
    config.add_package(s("o/r"), PackageSpec::new_simple("2.0.0"));
    assert!(config.is_well_formed());
    assert_eq!(config.get_packages().unwrap().len(), 1);
    let entry = config.get_packages().unwrap()[0].clone();
    config.packages.as_mut().unwrap().push(entry);
    assert!(!config.is_well_formed());
}
