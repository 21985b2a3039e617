use myco::myco_toml::MycoToml;
use myco::text_map::TextMap;
use myco::deps::changes::{add_change, latest_version, remove_change, DepsChange};
use myco::deps::location::Location;
use myco::deps::lockfile::{dedup_by_name, same_pins, LockFile, VisitQueue};
use myco::deps::registry::{Registry, RegistryNamespace, RegistryPackage, ResolvedVersion, VersionEntry};
use myco::errors::MycoError;
use myco::package_name::PackageName;
use myco::package_version::PackageVersion;

fn name(s: &str) -> PackageName {
    PackageName::from_str(s).unwrap()
}

fn version(s: &str) -> PackageVersion {
    PackageVersion::from_str(s).unwrap()
}

fn entry(v: &str, integrity: &str) -> VersionEntry {
    VersionEntry { version: version(v), integrity: integrity.to_string() }
}

fn registry() -> Registry {
    Registry {
        namespace: vec![
            RegistryNamespace {
                name: "@a".to_string(),
                package: Some(vec![RegistryPackage { name: name("@a/one"), versions: vec![entry("1.0.0", "i1")] }]),
                namespace: Some(vec![RegistryNamespace {
                    name: "@a.b".to_string(),
                    package: Some(vec![RegistryPackage {
                        name: name("@a.b/deep"),
                        versions: vec![entry("0.1.0", "d1"), entry("0.2.0", "d2")],
                    }]),
                    namespace: None,
                }]),
            },
            RegistryNamespace {
                name: "@z".to_string(),
                package: Some(vec![RegistryPackage { name: name("@a/one"), versions: vec![entry("9.9.9", "shadowed")] }]),
                namespace: None,
            },
        ],
    }
}

#[test]
fn registry_finds_nested_packages_first_match_wins() {
    let reg = registry();
    let loc = Location::Url("https://example.com/registry/index.toml".to_string());
    let deep = reg.resolve_package(&loc, &name("@a.b/deep")).unwrap().unwrap();
    assert_eq!(deep.versions.len(), 2);
    let one = reg.resolve_package(&loc, &name("@a/one")).unwrap().unwrap();
    assert_eq!(one.versions[0].integrity, "i1");
    assert!(reg.resolve_package(&loc, &name("@nope/x")).unwrap().is_none());
}

#[test]
fn resolve_version_pins_urls() {
    let reg = registry();
    let loc = Location::Url("https://example.com/registry/index.toml".to_string());
    let v = reg.resolve_version(&loc, &name("@a.b/deep"), &version("0.2.0"), false).unwrap().unwrap();
    assert_eq!(v.pack_url.to_string(), "https://example.com/registry/@a.b/deep/0.2.0.zip");
    assert_eq!(v.toml_url.to_string(), "https://example.com/registry/@a.b/deep/0.2.0.toml");
    assert_eq!(v.integrity, "d2");
    assert!(reg.resolve_version(&loc, &name("@a.b/deep"), &version("0.3.0"), false).unwrap().is_none());
}

#[test]
fn path_locations_join_under_the_registry_directory() {
    let reg = registry();
    let loc = Location::Path { path: "/srv/reg/index.toml".to_string() };
    let v = reg.resolve_version(&loc, &name("@a/one"), &version("1.0.0"), true).unwrap().unwrap();
    assert_eq!(v.pack_url.to_string(), "/srv/reg/@a/one/1.0.0.zip");
    let dir = Location::Path { path: "/srv/reg".to_string() };
    let v = reg.resolve_version(&dir, &name("@a/one"), &version("1.0.0"), false).unwrap().unwrap();
    assert_eq!(v.toml_url.to_string(), "/srv/reg/@a/one/1.0.0.toml");
}

#[test]
fn invalid_urls_are_reported() {
    let loc = Location::Url("not a url".to_string());
    match loc.join("x", false) {
        Err(MycoError::InvalidUrl { url }) => assert_eq!(url, "x"),
        other => panic!("unexpected {:?}", other),
    }
}

#[test]
fn latest_version_picks_the_greatest_last_among_equals() {
    let p = RegistryPackage {
        name: name("@a/x"),
        versions: vec![entry("1.0.0", "a"), entry("2.0.0-beta", "b"), entry("1.5.0", "c"), entry("2.0.0-beta", "d")],
    };
    assert_eq!(latest_version(&p), Some(3));
    let empty = RegistryPackage { name: name("@a/x"), versions: vec![] };
    assert_eq!(latest_version(&empty), None);
}

fn with_registry() -> MycoToml {
    let mut registries = TextMap::new();
    registries.insert("main".to_string(), Location::Path { path: "/r/index.toml".to_string() });
    MycoToml { package: None, run: None, registries: Some(registries), deps: None, tsconfig: None }
}

#[test]
fn add_needs_a_registry() {
    let none = MycoToml { package: None, run: None, registries: None, deps: None, tsconfig: None };
    assert!(matches!(add_change(&none, &name("@a/x"), None), Err(MycoError::NoRegistries)));
}

#[test]
fn add_change_selects_latest_or_reports_missing() {
    let p = RegistryPackage { name: name("@a/x"), versions: vec![entry("1.0.0", "a"), entry("1.2.0", "b")] };
    match add_change(&with_registry(), &name("@a/x"), Some(p)).unwrap().as_slice() {
        [DepsChange::SetVersion(n, v)] => {
            assert_eq!(n.to_string(), "@a/x");
            assert_eq!(v.to_string(), "1.2.0");
        }
        _ => panic!(),
    }
    match add_change(&with_registry(), &name("@a/x"), None) {
        Err(MycoError::PackageNotFound { package }) => assert_eq!(package, "@a/x"),
        _ => panic!(),
    }
    let empty = RegistryPackage { name: name("@a/y"), versions: vec![] };
    match add_change(&with_registry(), &name("@a/x"), Some(empty)) {
        Err(MycoError::PackageNotFound { package }) => assert_eq!(package, "@a/y"),
        _ => panic!(),
    }
}

#[test]
fn remove_change_needs_the_dependency() {
    let deps = vec![(name("@a/x"), version("1.0.0"))];
    assert!(matches!(remove_change(&deps, name("@a/x")).unwrap().as_slice(), [DepsChange::Remove(_)]));
    match remove_change(&deps, name("@a/y")) {
        Err(MycoError::PackageNotFound { package }) => assert_eq!(package, "@a/y"),
        _ => panic!(),
    }
}

fn pin(n: &str, v: &str, integrity: &str) -> ResolvedVersion {
    ResolvedVersion {
        name: name(n),
        version: version(v),
        pack_url: Location::Url(format!("https://r/{}/{}.zip", n, v)),
        toml_url: Location::Url(format!("https://r/{}/{}.toml", n, v)),
        integrity: integrity.to_string(),
    }
}

#[test]
fn lockfile_diff_lists_changes_new_and_removed() {
    let old = LockFile { package: vec![pin("@a/x", "1.0.0", "i"), pin("@a/y", "1.0.0", "j")] };
    let new = LockFile { package: vec![pin("@a/x", "1.1.0", "i"), pin("@a/z", "2.0.0", "k")] };
    let d = old.diff(&new);
    assert_eq!(d.diffs.len(), 1);
    let change = &d.diffs[0];
    assert_eq!(change.name.to_string(), "@a/x");
    let (a, b) = change.version.as_ref().unwrap();
    assert_eq!((a.to_string(), b.to_string()), ("1.0.0".to_string(), "1.1.0".to_string()));
    assert!(change.integrity.is_none());
    assert!(change.pack_url.is_some());
    assert_eq!(d.new.len(), 1);
    assert_eq!(d.new[0].name.to_string(), "@a/z");
    assert_eq!(d.removed.len(), 1);
    assert_eq!(d.removed[0].name.to_string(), "@a/y");
}

#[test]
fn lockfile_diff_with_itself_is_empty() {
    let l = LockFile { package: vec![pin("@a/x", "1.0.0", "i"), pin("@a/x", "1.0.1", "j")] };
    let d = l.diff(&l);
    assert!(d.diffs.is_empty() && d.new.is_empty() && d.removed.is_empty());
    assert!(same_pins(&l.package, &l.package));
    assert!(!same_pins(&l.package, &vec![pin("@a/x", "1.0.0", "i")]));
}

#[test]
fn dedup_keeps_first_per_name() {
    let out = dedup_by_name(vec![pin("@a/x", "1.0.0", "i"), pin("@a/y", "1.0.0", "j"), pin("@a/x", "2.0.0", "k")]);
    assert_eq!(out.len(), 2);
    assert_eq!(out[0].version.to_string(), "1.0.0");
    assert_eq!(out[1].name.to_string(), "@a/y");
}

#[test]
fn visit_queue_pops_unvisited_from_the_end() {
    let mut q = VisitQueue::new(vec![pin("@a/x", "1.0.0", "i"), pin("@a/y", "1.0.0", "j")]);
    assert_eq!(q.next().unwrap().name.to_string(), "@a/y");
    q.push(pin("@a/y", "2.0.0", "k"));
    assert_eq!(q.next().unwrap().name.to_string(), "@a/x");
    assert!(q.next().is_none());
}

#[test]
fn resolved_version_diff_is_none_when_equal() {
    let a = pin("@a/x", "1.0.0", "i");
    assert!(a.diff(&pin("@a/x", "1.0.0", "i")).is_none());
    let d = a.diff(&pin("@a/x", "1.0.0", "other")).unwrap();
    assert_eq!(d.integrity, Some(("i".to_string(), "other".to_string())));
    assert!(d.version.is_none());
}
