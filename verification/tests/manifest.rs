use myco::package_name::PackageName;
use myco::package_version::PackageVersion;

#[test]
fn test_package_name_from_str() {
    let package_name = PackageName::from_str("@myco/core").unwrap();
    assert_eq!(package_name.namespaces, vec!["myco".to_owned()]);
    assert_eq!(package_name.name, "core".to_owned());
}

#[test]
fn test_package_name_to_string() {
    let package_name = PackageName {
        namespaces: vec!["myco".to_owned()],
        name: "core".to_owned(),
    };
    assert_eq!(package_name.to_string(), "@myco/core".to_owned());
}

#[test]
fn test_package_name_multiple_namespaces_from_str() {
    let package_name = PackageName::from_str("@myco.core/ops").unwrap();
    assert_eq!(package_name.namespaces, vec!["myco".to_owned(), "core".to_owned()]);
    assert_eq!(package_name.name, "ops".to_owned());
}

#[test]
fn test_package_name_multiple_namespaces_to_string() {
    let package_name = PackageName {
        namespaces: vec!["myco".to_owned(), "core".to_owned()],
        name: "ops".to_owned(),
    };
    assert_eq!(package_name.to_string(), "@myco.core/ops".to_owned());
}

#[test]
fn test_converting_back_and_forth() {
    let initial = "@myco.core/ops";
    let package_name = PackageName::from_str(initial).unwrap();
    let package_name = package_name.to_string();
    assert_eq!(package_name, initial);
}

#[test]
fn test_version_from_str() {
    assert_eq!(
        PackageVersion::from_str("1.2.3").unwrap(),
        PackageVersion { major: 1, minor: 2, patch: 3, prerelease: None }
    );
    assert_eq!(
        PackageVersion::from_str("v1.2.3").unwrap(),
        PackageVersion { major: 1, minor: 2, patch: 3, prerelease: None }
    );
    assert_eq!(
        PackageVersion::from_str("1.2.3-alpha").unwrap(),
        PackageVersion { major: 1, minor: 2, patch: 3, prerelease: Some("alpha".to_string()) }
    );
    assert_eq!(
        PackageVersion::from_str("v1.2.3-alpha").unwrap(),
        PackageVersion { major: 1, minor: 2, patch: 3, prerelease: Some("alpha".to_string()) }
    );
}

#[test]
fn test_display() {
    let versions_to_test = vec!["1.2.3", "1.2.3-alpha"];
    for version in versions_to_test {
        assert_eq!(version, PackageVersion::from_str(version).unwrap().to_string());
    }
}

#[test]
fn test_version_from_str_invalid() {
    assert!(PackageVersion::from_str("1.2").is_err());
    assert!(PackageVersion::from_str("1.2.a").is_err());
}

#[test]
fn test_ordering_versions() {
    assert!(PackageVersion::from_str("1.2.3").unwrap() < PackageVersion::from_str("1.2.4").unwrap());
    assert!(PackageVersion::from_str("1.2.3").unwrap() < PackageVersion::from_str("1.3.0").unwrap());
    assert!(PackageVersion::from_str("1.2.3").unwrap() < PackageVersion::from_str("2.0.0").unwrap());
    assert!(PackageVersion::from_str("1.2.3").unwrap() < PackageVersion::from_str("1.2.4-alpha").unwrap());
    assert_eq!(PackageVersion::from_str("1.2.3").unwrap(), PackageVersion::from_str("1.2.3").unwrap());
    assert!(PackageVersion::from_str("1.2.3-alpha").unwrap() > PackageVersion::from_str("1.2.2").unwrap());
    assert!(PackageVersion::from_str("1.2.3-alpha").unwrap() < PackageVersion::from_str("1.2.3").unwrap());
    assert!(PackageVersion::from_str("1.2.3-alpha").unwrap() < PackageVersion::from_str("1.2.3-beta").unwrap());
    assert!(PackageVersion::from_str("1.2.3-alpha").unwrap() < PackageVersion::from_str("1.2.3-beta").unwrap());
    assert_eq!(PackageVersion::from_str("1.2.3-alpha").unwrap(), PackageVersion::from_str("1.2.3-alpha").unwrap());
}
