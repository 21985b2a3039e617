use myco::deps::changes::DepsChange;
use myco::errors::MycoError;
use myco::event_loop::{check_unhandled, start_loop};
use myco::inspector::frames::{FrameReader, ReadResult, Frame};
use myco::manifest_edit::{apply_deps_changes, set_package_version, try_apply_deps_changes, try_set_package_version};
use myco::modules::{locate_module, ImportProbe, ModuleRecord};
use myco::package_name::PackageName;
use myco::package_version::PackageVersion;
use myco::myco_toml::PackageDefinition;
use myco::path::strip_unc_prefix;
use myco::registry_edit::{try_update_registry_text, update_registry_text};

#[test]
fn verbatim_prefixes_are_stripped() {
    assert_eq!(strip_unc_prefix(r"\\?\C:\test\file.txt".to_string(), true), r"C:\test\file.txt");
    assert_eq!(strip_unc_prefix(r"C:\test\file.txt".to_string(), true), r"C:\test\file.txt");
    assert_eq!(strip_unc_prefix(r"\\?\UNC\server\share\file.txt".to_string(), true), r"\\server\share\file.txt");
    assert_eq!(strip_unc_prefix(r"\\?\pipe\x".to_string(), true), r"\\pipe\x");
    assert_eq!(strip_unc_prefix("/usr/lib".to_string(), true), "/usr/lib");
    assert_eq!(strip_unc_prefix(r"\\?\C:\test\file.txt".to_string(), false), r"\\?\C:\test\file.txt");
}

fn name(s: &str) -> PackageName {
    PackageName::from_str(s).unwrap()
}

fn version(s: &str) -> PackageVersion {
    PackageVersion::from_str(s).unwrap()
}

#[test]
fn dependency_changes_keep_the_layout() {
    let text = "# my project\n[package]\nname = \"app\"\n\n[deps]\n\"@a/x\" = \"1.0.0\"\n";
    let changes = vec![DepsChange::SetVersion(name("@a/y"), version("2.0.0")), DepsChange::Remove(name("@a/x"))];
    let out = apply_deps_changes(&changes, text).unwrap();
    assert!(out.starts_with("# my project\n[package]\nname = \"app\"\n"));
    assert!(out.contains("\"@a/y\" = \"2.0.0\""));
    assert!(!out.contains("@a/x"));
    let emptied = apply_deps_changes(&vec![DepsChange::Remove(name("@a/x"))], text).unwrap();
    assert!(!emptied.contains("[deps]"));
    match apply_deps_changes(&changes, "deps = [") {
        Err(MycoError::Internal { message }) => assert!(message.starts_with("Invalid TOML: ")),
        other => panic!("unexpected {:?}", other),
    }
    assert!(try_apply_deps_changes(&changes, "[package]\nname = \"app\"\n").is_none());
    let replaced = apply_deps_changes(&changes, "deps = 1\n").unwrap();
    assert!(replaced.contains("@a/y") && replaced.contains("2.0.0") && !replaced.contains("deps = 1"));
}

#[test]
fn package_version_is_written_in_place() {
    let text = "[package]\nname = \"app\"\nversion = \"1.0.0\" # current\n";
    let out = set_package_version(text, &version("1.1.0")).unwrap();
    assert!(out.contains("version = \"1.1.0\""));
    assert!(out.contains("name = \"app\""));
    assert!(try_set_package_version("[deps]\n", &version("1.1.0")).is_none());
    assert!(matches!(try_set_package_version("[[", &version("1.1.0")), Some(Err(MycoError::Internal { .. }))));
}

#[test]
fn event_loop_start_and_rounds() {
    let mut receiver = Some(7u32);
    assert_eq!(start_loop(true, &mut receiver).unwrap(), 7);
    assert!(receiver.is_none());
    match start_loop(true, &mut receiver) {
        Err(MycoError::EventLoop { message }) => assert_eq!(message, "Op receiver already taken"),
        other => panic!("unexpected {:?}", other),
    }
    let mut kept = Some(1u32);
    match start_loop(false, &mut kept) {
        Err(MycoError::EventLoop { message }) => assert_eq!(message, "Failed to get isolate state"),
        other => panic!("unexpected {:?}", other),
    }
    assert_eq!(kept, Some(1));
    assert!(check_unhandled(None).is_ok());
    match check_unhandled(Some("Error: boom\n    at main.ts:1:1".to_string())) {
        Err(MycoError::UnhandledError { message }) => assert_eq!(message, "Error: boom\n    at main.ts:1:1"),
        other => panic!("unexpected {:?}", other),
    }
}

#[test]
fn modules_are_located_and_recorded() {
    let missing = ImportProbe { exists: false, is_dir: false, index_exists: vec![] };
    match locate_module("./x", "/app/x", &missing) {
        Err(MycoError::ModuleNotFound { specifier, resolved_path }) => {
            assert_eq!((specifier.as_str(), resolved_path.as_str()), ("./x", "/app/x"))
        }
        other => panic!("unexpected {:?}", other),
    }
    let file = ImportProbe { exists: true, is_dir: false, index_exists: vec![] };
    assert_eq!(locate_module("./x.ts", "/app/x.ts", &file).unwrap(), "/app/x.ts");
    let dir = ImportProbe { exists: true, is_dir: true, index_exists: vec![false, false, true, true] };
    assert_eq!(locate_module("./lib", "/app/lib", &dir).unwrap(), "/app/lib/index.js");
    let empty = ImportProbe { exists: true, is_dir: true, index_exists: vec![false, false, false, false] };
    match locate_module("./lib", "/app/lib", &empty) {
        Err(MycoError::ModuleNotFound { resolved_path, .. }) => {
            assert_eq!(resolved_path, "/app/lib (directory with no index file)")
        }
        other => panic!("unexpected {:?}", other),
    }
    let mut record = ModuleRecord::new();
    record.record("/app/main.ts".to_string());
    assert_eq!(record.path_of("file:///app/main.ts").unwrap(), "/app/main.ts");
    assert!(record.path_of("file:///app/other.ts").is_none());
}

#[test]
fn control_frame_mid_fragment_keeps_the_message() {
    let bytes = vec![0x01, 0x02, b'H', b'e', 0x89, 0x01, b'p', 0x80, 0x03, b'l', b'l', b'o'];
    let mut reader = FrameReader::new(bytes);
    match reader.next_message() {
        ReadResult::Message(Frame::Ping(p)) => assert_eq!(p, b"p".to_vec()),
        other => panic!("unexpected {:?}", other),
    }
    match reader.next_message() {
        ReadResult::Message(Frame::Text(t)) => assert_eq!(t, "Hello"),
        other => panic!("unexpected {:?}", other),
    }
}

fn package(n: &str, v: &str) -> PackageDefinition {
    PackageDefinition {
        name: n.to_string(),
        version: version(v),
        description: None,
        author: None,
        license: None,
        pre_pack: None,
        packaged_files: None,
    }
}

const INDEX: &str = "[[namespace]]\nname = \"@myco\"\n\n[[namespace.package]]\nname = \"@myco/core\"\nversions = [{ version = \"0.1.0\", integrity = \"sha512-a\" }]\n";

#[test]
fn registry_index_gets_the_new_version() {
    let out = update_registry_text(INDEX, &package("@myco/core", "0.2.0"), "sha512-b").unwrap();
    assert!(out.contains("version = \"0.1.0\""));
    assert!(out.contains("version = \"0.2.0\""));
    assert!(out.contains("integrity = \"sha512-b\""));
    assert!(out.starts_with("[[namespace]]\nname = \"@myco\"\n"));
    match update_registry_text(INDEX, &package("@myco/core", "0.1.0"), "x") {
        Err(MycoError::VersionExists { version }) => assert_eq!(version, "0.1.0"),
        other => panic!("unexpected {:?}", other),
    }
    match update_registry_text(INDEX, &package("@myco/new", "1.0.0"), "x") {
        Err(MycoError::InvalidRegistryFormat { message }) => assert_eq!(message, "versions should be an inline array"),
        other => panic!("unexpected {:?}", other),
    }
    assert!(matches!(update_registry_text("[[", &package("@myco/core", "1.0.0"), "x"), Err(MycoError::RegistryParse { .. })));
    let unnamed = "[[namespace]]\nother = 1\n";
    assert!(try_update_registry_text(unnamed, &package("@myco/core", "1.0.0"), "x").is_none());
}

#[test]
fn session_ids_are_written_as_json_strings() {
    let body = myco::inspector::endpoint::json_list_body(9229, "x\"y\n\u{1}");
    assert!(body.contains("\"id\":\"x\\\"y\\n\\u0001\""));
}
