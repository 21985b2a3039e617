use myco::capabilities::Capability;
use myco::deps::install::{archive_source, check_archive, choose_lockfile, ArchiveSource, InstallFrom};
use myco::deps::location::Location;
use myco::deps::lockfile::LockFile;
use myco::deps::registry::ResolvedVersion;
use myco::deps::report::{Piece, Tone};
use myco::errors::MycoError;
use myco::capabilities::{resolve_target, Access, CapabilityRegistry, Target};
use myco::grants::{request_dir, request_file, ParentProbe, PathProbe};
use myco::integrity::calculate_integrity;
use myco::myco_toml::{MycoToml, PackageDefinition};
use myco::package_name::PackageName;
use myco::package_version::PackageVersion;
use myco::publish::{
    package_directory, plan_is_blocked, plan_registry_update, publish_target, IndexNamespace, IndexPackage, KeyText, RegistryIndex,
};
use myco::text_map::TextMap;

fn text(s: &str) -> KeyText {
    KeyText::Text(s.to_string())
}

fn package(name: &str, version: &str) -> PackageDefinition {
    PackageDefinition {
        name: name.to_string(),
        version: PackageVersion::from_str(version).unwrap(),
        description: None,
        author: None,
        license: None,
        pre_pack: None,
        packaged_files: None,
    }
}

fn index() -> RegistryIndex {
    RegistryIndex {
        namespaces: Some(vec![
            IndexNamespace { name: text("@other"), packages: None },
            IndexNamespace {
                name: text("@myco"),
                packages: Some(vec![
                    IndexPackage { name: text("@myco/zero"), versions: None },
                    IndexPackage {
                        name: text("@myco/core"),
                        versions: Some(vec![KeyText::NotText, text("0.1.0"), text("0.2.0")]),
                    },
                ]),
            },
        ]),
    }
}

#[test]
fn plan_appends_to_the_matching_package() {
    let edit = plan_registry_update(&index(), &package("@myco/core", "0.3.0"), "sha512-x").unwrap();
    assert_eq!((edit.namespace, edit.package), (1, 1));
    assert_eq!(edit.version, "0.3.0");
    assert_eq!(edit.integrity, "sha512-x");
}

#[test]
fn plan_refuses_a_listed_version() {
    match plan_registry_update(&index(), &package("@myco/core", "v0.2.0"), "i") {
        Err(MycoError::VersionExists { version }) => assert_eq!(version, "0.2.0"),
        other => panic!("unexpected {:?}", other),
    }
}

#[test]
fn plan_reports_each_malformed_table() {
    let message = |r: Result<_, MycoError>| match r {
        Err(MycoError::InvalidRegistryFormat { message }) => message,
        other => panic!("unexpected {:?}", other.map(|_: myco::publish::IndexEdit| ())),
    };
    let bad_root = RegistryIndex { namespaces: None };
    assert_eq!(
        message(plan_registry_update(&bad_root, &package("@myco/core", "1.0.0"), "i")),
        "namespace should be an array of tables"
    );
    assert_eq!(
        message(plan_registry_update(&index(), &package("@other/thing", "1.0.0"), "i")),
        "package should be an array of tables"
    );
    assert_eq!(
        message(plan_registry_update(&index(), &package("@myco/zero", "1.0.0"), "i")),
        "versions should be an inline array"
    );
    // A package or namespace that the index lacks is created without an
    // inline `versions` array, so it is refused the same way.
    assert_eq!(
        message(plan_registry_update(&index(), &package("@myco/new", "1.0.0"), "i")),
        "versions should be an inline array"
    );
    assert_eq!(
        message(plan_registry_update(&index(), &package("@fresh/new", "1.0.0"), "i")),
        "versions should be an inline array"
    );
}

#[test]
fn missing_keys_before_a_match_block_the_plan() {
    let blocked = RegistryIndex {
        namespaces: Some(vec![
            IndexNamespace { name: KeyText::Missing, packages: None },
            IndexNamespace { name: text("@myco"), packages: Some(vec![]) },
        ]),
    };
    assert!(plan_is_blocked(&blocked, &package("@myco/core", "1.0.0")));
    let after_match = RegistryIndex {
        namespaces: Some(vec![
            IndexNamespace {
                name: text("@myco"),
                packages: Some(vec![IndexPackage {
                    name: text("@myco/core"),
                    versions: Some(vec![text("1.0.0"), KeyText::Missing]),
                }]),
            },
            IndexNamespace { name: KeyText::Missing, packages: None },
        ]),
    };
    assert!(!plan_is_blocked(&after_match, &package("@myco/core", "1.0.0")));
    assert!(plan_is_blocked(&after_match, &package("@myco/core", "2.0.0")));
    assert!(!plan_is_blocked(&index(), &package("@myco/core", "0.3.0")));
}

#[test]
fn plan_checks_the_package_name_first() {
    match plan_registry_update(&RegistryIndex { namespaces: None }, &package("plain", "1.0.0"), "i") {
        Err(MycoError::InvalidPackageName { .. }) => {}
        other => panic!("unexpected {:?}", other),
    }
}

fn manifest_with(package: Option<PackageDefinition>, registries: Option<Vec<(&str, Location)>>) -> MycoToml {
    MycoToml {
        package,
        run: None,
        registries: registries.map(|list| {
            let mut m = TextMap::new();
            for (k, v) in list {
                m.insert(k.to_string(), v);
            }
            m
        }),
        deps: None,
        tsconfig: None,
    }
}

#[test]
fn publish_target_walks_the_manifest() {
    let regs = || {
        Some(vec![
            ("local", Location::Path { path: "/srv/registry.toml".to_string() }),
            ("remote", Location::Url("https://example.com/registry.toml".to_string())),
        ])
    };
    assert!(matches!(publish_target(&manifest_with(None, regs()), "local"), Err(MycoError::NoPackageDefinition)));
    let p = || Some(package("@a/b", "1.0.0"));
    assert!(matches!(publish_target(&manifest_with(p(), None), "local"), Err(MycoError::NoRegistries)));
    match publish_target(&manifest_with(p(), regs()), "missing") {
        Err(MycoError::RegistryNotFound { name }) => assert_eq!(name, "missing"),
        other => panic!("unexpected {:?}", other),
    }
    assert!(matches!(
        publish_target(&manifest_with(p(), regs()), "remote"),
        Err(MycoError::UrlRegistryNotSupported)
    ));
    assert_eq!(publish_target(&manifest_with(p(), regs()), "local").unwrap(), "/srv/registry.toml");
}

#[test]
fn package_directory_sits_beside_the_index() {
    assert_eq!(package_directory("/srv/registry.toml", "@a/b", true), "/srv/@a/b/");
    assert_eq!(package_directory("/srv/reg", "@a/b", false), "/srv/reg/@a/b/");
}

fn pin(n: &str, v: &str, integrity: &str) -> ResolvedVersion {
    ResolvedVersion {
        name: PackageName::from_str(n).unwrap(),
        version: PackageVersion::from_str(v).unwrap(),
        pack_url: Location::Url(format!("https://r/{}/{}.zip", n, v)),
        toml_url: Location::Url(format!("https://r/{}/{}.toml", n, v)),
        integrity: integrity.to_string(),
    }
}

#[test]
fn choosing_the_lockfile() {
    let resolved = LockFile { package: vec![pin("@a/x", "1.0.0", "i")] };
    let same = LockFile { package: vec![pin("@a/x", "1.0.0", "i")] };
    let older = LockFile { package: vec![pin("@a/x", "0.9.0", "i")] };
    assert_eq!(choose_lockfile(&resolved, None, true).unwrap(), InstallFrom::Resolved);
    assert!(matches!(choose_lockfile(&resolved, None, false), Err(MycoError::LockfileLoad)));
    assert_eq!(choose_lockfile(&resolved, Some(&same), false).unwrap(), InstallFrom::Existing);
    match choose_lockfile(&resolved, Some(&older), false) {
        Err(MycoError::LockfileMismatch { diff }) => {
            assert_eq!(diff.diffs.len(), 1);
            assert!(diff.new.is_empty() && diff.removed.is_empty());
        }
        other => panic!("unexpected {:?}", other),
    }
}

#[test]
fn archives_are_checked_against_their_pin() {
    let bytes = b"archive bytes";
    let good = pin("@a/x", "1.0.0", &calculate_integrity(bytes));
    assert!(check_archive(&good, bytes).is_ok());
    let bad = pin("@a/x", "1.0.0", "sha512-nope");
    match check_archive(&bad, bytes) {
        Err(MycoError::IntegrityMismatch { package, expected, actual }) => {
            assert_eq!(package, "@a/x");
            assert_eq!(expected, "sha512-nope");
            assert_eq!(actual, calculate_integrity(bytes));
        }
        other => panic!("unexpected {:?}", other),
    }
}

#[test]
fn archive_sources() {
    match archive_source(&Location::Path { path: "/r/a.zip".to_string() }) {
        ArchiveSource::ReadFile { path, shown } => assert_eq!((path.as_str(), shown.as_str()), ("/r/a.zip", "/r/a.zip")),
        other => panic!("unexpected {:?}", other),
    }
    match archive_source(&Location::Url("file:///r/b.zip".to_string())) {
        ArchiveSource::ReadFile { path, shown } => {
            assert_eq!((path.as_str(), shown.as_str()), ("/r/b.zip", "file:///r/b.zip"))
        }
        other => panic!("unexpected {:?}", other),
    }
    match archive_source(&Location::Url("https://r/c.zip".to_string())) {
        ArchiveSource::Download { url } => assert_eq!(url, "https://r/c.zip"),
        other => panic!("unexpected {:?}", other),
    }
}

fn probe(exists: bool, is_file: bool, is_dir: bool, err: Option<&str>, mode: Option<u32>) -> PathProbe {
    PathProbe { exists, is_file, is_dir, access_error: err.map(|e| e.to_string()), mode }
}

type Cap = Capability<(), ()>;

#[test]
fn file_requests() {
    let file = probe(true, true, false, None, Some(0o644));
    let r: Result<Cap, String> = request_file(Access::Read, "a.txt".to_string(), &file, &None);
    assert!(matches!(r, Ok(Capability::ReadFile(p)) if p == "a.txt"));
    let dir = probe(true, false, true, None, None);
    let r: Result<Cap, String> = request_file(Access::Read, "d".to_string(), &dir, &None);
    assert_eq!(r.unwrap_err(), "Path is not a file: d");
    let r: Result<Cap, String> = request_file(Access::Write, "d".to_string(), &dir, &None);
    assert_eq!(r.unwrap_err(), "Path is a directory, not a file: d");
    let missing = probe(false, false, false, None, None);
    let r: Result<Cap, String> = request_file(Access::Write, "n".to_string(), &missing, &None);
    assert_eq!(r.unwrap_err(), "Invalid file path: no parent directory");
    let gone = Some(ParentProbe { shown: "/x".to_string(), probe: missing });
    let r: Result<Cap, String> = request_file(Access::Read, "n".to_string(), &probe(false, false, false, None, None), &gone);
    assert_eq!(r.unwrap_err(), "Parent directory does not exist: /x");
    let locked = Some(ParentProbe { shown: "/y".to_string(), probe: probe(true, false, true, Some("denied"), None) });
    let r: Result<Cap, String> =
        request_file(Access::Write, "n".to_string(), &probe(false, false, false, None, None), &locked);
    assert_eq!(r.unwrap_err(), "Cannot access parent directory '/y': denied");
    let fine = Some(ParentProbe { shown: "/z".to_string(), probe: probe(true, false, true, None, None) });
    let r: Result<Cap, String> =
        request_file(Access::Write, "n".to_string(), &probe(false, false, false, None, None), &fine);
    assert!(matches!(r, Ok(Capability::WriteFile(p)) if p == "n"));
    let r: Result<Cap, String> = request_file(Access::Exec, "t".to_string(), &file, &None);
    assert_eq!(r.unwrap_err(), "File is not executable: t");
    let tool = probe(true, true, false, None, Some(0o755));
    let r: Result<Cap, String> = request_file(Access::Exec, "t".to_string(), &tool, &None);
    assert!(matches!(r, Ok(Capability::ExecFile(p)) if p == "t"));
    let r: Result<Cap, String> =
        request_file(Access::Exec, "t".to_string(), &probe(false, false, false, None, None), &None);
    assert_eq!(r.unwrap_err(), "File does not exist: t");
    let r: Result<Cap, String> =
        request_file(Access::Read, "s".to_string(), &probe(true, true, false, Some("io"), None), &None);
    assert_eq!(r.unwrap_err(), "Cannot access file 's': io");
}

#[test]
fn dir_requests() {
    let dir = probe(true, false, true, None, None);
    let r: Result<Cap, String> = request_dir(Access::Read, "d".to_string(), &dir);
    assert!(matches!(r, Ok(Capability::ReadDir(p)) if p == "d"));
    let r: Result<Cap, String> = request_dir(Access::Exec, "d".to_string(), &dir);
    assert!(matches!(r, Ok(Capability::ExecDir(p)) if p == "d"));
    let r: Result<Cap, String> = request_dir(Access::Write, "f".to_string(), &probe(true, true, false, None, None));
    assert_eq!(r.unwrap_err(), "Path is not a directory: f");
    let r: Result<Cap, String> = request_dir(Access::Write, "g".to_string(), &probe(false, false, false, None, None));
    assert_eq!(r.unwrap_err(), "Directory does not exist: g");
    let shut = probe(true, false, true, Some("denied"), None);
    let r: Result<Cap, String> = request_dir(Access::Read, "h".to_string(), &shut);
    assert_eq!(r.unwrap_err(), "Cannot read directory 'h': denied");
    let r: Result<Cap, String> = request_dir(Access::Write, "h".to_string(), &shut);
    assert_eq!(r.unwrap_err(), "Cannot access directory 'h': denied");
}

fn render(pieces: &[Piece]) -> String {
    pieces
        .iter()
        .map(|p| match p.tone {
            Tone::Plain => p.text.clone(),
            Tone::Red => format!("[r]{}", p.text),
            Tone::Green => format!("[g]{}", p.text),
        })
        .collect()
}

#[test]
fn lockfile_difference_report() {
    let a = LockFile { package: vec![pin("@a/x", "1.0.0", "i"), pin("@a/gone", "1.0.0", "g")] };
    let b = LockFile { package: vec![pin("@a/x", "1.1.0", "i"), pin("@a/new", "2.0.0", "n")] };
    let text = render(&a.diff(&b).describe());
    assert_eq!(
        text,
        "Package changes:\n  @a/x:\n    version: [r]1.0.0 -> [g]1.1.0\n    pack_url: [r]https://r/@a/x/1.0.0.zip -> [g]https://r/@a/x/1.1.0.zip\n    toml_url: [r]https://r/@a/x/1.0.0.toml -> [g]https://r/@a/x/1.1.0.toml\n\nNew packages:\n  [g]@a/new [g]2.0.0\n\nRemoved packages:\n  [r]@a/gone [r]1.0.0\n"
    );
    assert_eq!(render(&a.diff(&a).describe()), "No changes detected\n");
}

#[test]
fn a_granted_request_reaches_what_was_asked() {
    let mut registry: CapabilityRegistry<(), ()> = CapabilityRegistry::new();
    let file = probe(true, true, false, None, Some(0o644));
    let cap: Cap = request_file(Access::Write, "/data/out.txt".to_string(), &file, &None).unwrap();
    let token = registry.register(cap);
    match resolve_target(&registry, &token, None, Access::Write) {
        Ok(Target::File(f)) => assert_eq!(f, "/data/out.txt"),
        other => panic!("unexpected {:?}", other),
    }
    assert!(resolve_target(&registry, &token, Some("x".to_string()), Access::Write).is_err());
    let dir = probe(true, false, true, None, None);
    let cap: Cap = request_dir(Access::Read, "/data".to_string(), &dir).unwrap();
    let token = registry.register(cap);
    match resolve_target(&registry, &token, Some("a/b".to_string()), Access::Read) {
        Ok(Target::InDir { dir, path }) => assert_eq!((dir.as_str(), path.as_str()), ("/data", "a/b")),
        other => panic!("unexpected {:?}", other),
    }
}
