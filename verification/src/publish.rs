//! Publishing a package to a path registry: where it goes, and how the
//! registry index changes.
use vstd::prelude::*;

use crate::deps::location::{join_spec, Location, LocationModel};
use crate::errors::MycoError;
use crate::myco_toml::{MycoToml, PackageDefinition};
use crate::package_name::{namespaces_text, parse_package_name, PackageName};
use crate::package_version::version_text;
use crate::text::{concat_str, same_text};

verus! {

/// What a registry index holds under one key of a table: nothing, a value
/// that is not a string, or a string. A `versions` entry that is not an inline
/// table counts as `NotText`.
#[derive(Debug)]
pub enum KeyText {
    Missing,
    NotText,
    Text(String),
}

/// A `[[namespace.package]]` table: its `name` and, where `versions` is an
/// inline array, the `version` key of each entry.
#[derive(Debug)]
pub struct IndexPackage {
    pub name: KeyText,
    pub versions: Option<Vec<KeyText>>,
}

/// A `[[namespace]]` table: its `name` and, unless `package` is there and is
/// not an array of tables, its packages (none where the key is absent).
#[derive(Debug)]
pub struct IndexNamespace {
    pub name: KeyText,
    pub packages: Option<Vec<IndexPackage>>,
}

/// A registry index: its namespaces, unless `namespace` is there and is not an
/// array of tables (none where the key is absent).
#[derive(Debug)]
pub struct RegistryIndex {
    pub namespaces: Option<Vec<IndexNamespace>>,
}

/// The change to make to a registry index: append `{ version, integrity }` to
/// the versions of package `package` of namespace `namespace`.
#[derive(Debug)]
pub struct IndexEdit {
    pub namespace: usize,
    pub package: usize,
    pub version: String,
    pub integrity: String,
}

/// Anything whose table has a key that the index is searched by.
pub trait Keyed {
    spec fn key_of(&self) -> KeyText;

    fn key(&self) -> (r: &KeyText)
        ensures
            *r == self.key_of(),
    ;
}

impl Keyed for KeyText {
    open spec fn key_of(&self) -> KeyText {
        *self
    }

    fn key(&self) -> (r: &KeyText) {
        self
    }
}

impl Keyed for IndexPackage {
    open spec fn key_of(&self) -> KeyText {
        self.name
    }

    fn key(&self) -> (r: &KeyText) {
        &self.name
    }
}

impl Keyed for IndexNamespace {
    open spec fn key_of(&self) -> KeyText {
        self.name
    }

    fn key(&self) -> (r: &KeyText) {
        &self.name
    }
}

/// The keys of a list of tables.
pub open spec fn keys_of<T: Keyed>(s: Seq<T>) -> Seq<KeyText> {
    Seq::new(s.len(), |i: int| s[i].key_of())
}

/// Whether a key holds the string `t`.
pub open spec fn is_text(k: KeyText, t: Seq<char>) -> bool {
    k matches KeyText::Text(s) && s@ == t
}

/// How a first-match search over keys ends.
pub enum Scan {
    /// The first key that holds the string, at this index.
    Found(int),
    /// No key holds it.
    Absent,
    /// A key is missing before any match: reading it fails.
    Stuck,
}

/// Searching keys in order for the first that holds `t`; a missing key on the
/// way stops the search.
pub open spec fn scan(keys: Seq<KeyText>, t: Seq<char>) -> Scan
    decreases keys.len(),
{
    if keys.len() == 0 {
        Scan::Absent
    } else if keys[0] is Missing {
        Scan::Stuck
    } else if is_text(keys[0], t) {
        Scan::Found(0)
    } else {
        match scan(keys.drop_first(), t) {
            Scan::Found(i) => Scan::Found(i + 1),
            other => other,
        }
    }
}

/// A found index points at a key that holds the string.
pub proof fn lemma_scan_found(keys: Seq<KeyText>, t: Seq<char>)
    ensures
        scan(keys, t) matches Scan::Found(i) ==> 0 <= i < keys.len() && is_text(keys[i], t),
    decreases keys.len(),
{
    if keys.len() > 0 {
        lemma_scan_found(keys.drop_first(), t);
    }
}

/// The search stops at the first key that decides it: a found index holds the
/// string and every key before it is present and holds something else; an
/// absent result means every key is present and none holds it; a stuck search
/// met a missing key before any key holding the string.
pub proof fn law_scan_first_match(keys: Seq<KeyText>, t: Seq<char>)
    ensures
        scan(keys, t) matches Scan::Found(i) ==> 0 <= i < keys.len() && is_text(keys[i], t) && forall|j: int|
            0 <= j < i ==> !(#[trigger] keys[j] is Missing) && !is_text(keys[j], t),
        scan(keys, t) is Absent ==> forall|j: int|
            0 <= j < keys.len() ==> !(#[trigger] keys[j] is Missing) && !is_text(keys[j], t),
        scan(keys, t) is Stuck ==> exists|i: int|
            0 <= i < keys.len() && #[trigger] keys[i] is Missing && forall|j: int|
                0 <= j < i ==> !(#[trigger] keys[j] is Missing) && !is_text(keys[j], t),
    decreases keys.len(),
{
    if keys.len() > 0 {
        let rest = keys.drop_first();
        law_scan_first_match(rest, t);
        assert forall|i: int| 0 < i < keys.len() implies keys[i] == #[trigger] rest[i - 1] by {}
        if keys[0] is Missing {
            assert(keys[0] is Missing);
        } else if !is_text(keys[0], t) {
            match scan(rest, t) {
                Scan::Found(i) => {
                    assert(keys[i + 1] == rest[i]);
                    assert forall|j: int| 0 <= j < i + 1 implies !(#[trigger] keys[j] is Missing) && !is_text(keys[j], t) by {
                        if j > 0 {
                            assert(keys[j] == rest[j - 1]);
                        }
                    }
                },
                Scan::Absent => {
                    assert forall|j: int| 0 <= j < keys.len() implies !(#[trigger] keys[j] is Missing) && !is_text(keys[j], t) by {
                        if j > 0 {
                            assert(keys[j] == rest[j - 1]);
                        }
                    }
                },
                Scan::Stuck => {
                    let i = choose|i: int|
                        0 <= i < rest.len() && #[trigger] rest[i] is Missing && forall|j: int|
                            0 <= j < i ==> !(#[trigger] rest[j] is Missing) && !is_text(rest[j], t);
                    assert(keys[i + 1] == rest[i]);
                    assert forall|j: int| 0 <= j < i + 1 implies !(#[trigger] keys[j] is Missing) && !is_text(keys[j], t) by {
                        if j > 0 {
                            assert(keys[j] == rest[j - 1]);
                        }
                    }
                },
            }
        }
    }
}

/// `s` with its found index moved up by `k`.
pub open spec fn shift(s: Scan, k: int) -> Scan {
    match s {
        Scan::Found(i) => Scan::Found(i + k),
        other => other,
    }
}

/// The exec outcome of a search.
pub enum Found {
    At(usize),
    Nowhere,
    Blocked,
}

/// The search as it runs: the `Scan` it gives.
pub open spec fn found_scan(f: Found) -> Scan {
    match f {
        Found::At(i) => Scan::Found(i as int),
        Found::Nowhere => Scan::Absent,
        Found::Blocked => Scan::Stuck,
    }
}

/// Finds the first item whose key holds `t`.
pub fn find_first<T: Keyed>(items: &Vec<T>, t: &str) -> (r: Found)
    ensures
        found_scan(r) == scan(keys_of(items@), t@),
        r matches Found::At(i) ==> i < items@.len(),
{
    let ghost keys = keys_of(items@);
    let mut i: usize = 0;
    proof {
        assert(keys.skip(0) =~= keys);
    }
    while i < items.len()
        invariant
            i <= items.len(),
            keys == keys_of(items@),
            scan(keys, t@) == shift(scan(keys.skip(i as int), t@), i as int),
        decreases items.len() - i,
    {
        let k = items[i].key();
        proof {
            assert(keys.skip(i as int)[0] == keys[i as int]);
            assert(keys.skip(i as int).drop_first() =~= keys.skip(i + 1));
        }
        match k {
            KeyText::Missing => {
                return Found::Blocked;
            },
            KeyText::Text(s) => {
                if same_text(s.as_str(), t) {
                    return Found::At(i);
                }
            },
            KeyText::NotText => {},
        }
        i = i + 1;
    }
    proof {
        assert(keys.skip(i as int).len() == 0);
    }
    Found::Nowhere
}

/// How publishing a version changes an index, before it is written.
pub enum PlanOutcome {
    /// Append the version to package `1` of namespace `0`.
    Edit(int, int),
    /// The package name does not parse; the text the parser reports.
    BadName(Seq<char>),
    /// `namespace` is not an array of tables.
    BadNamespaces,
    /// The namespace's `package` is not an array of tables.
    BadPackages,
    /// The package's `versions` is not an inline array. A package or
    /// namespace that the index lacks is created with `versions` as an array
    /// of tables, so it ends here too.
    BadVersions,
    /// The version is listed already.
    Exists,
    /// Reading a missing `name` or `version` key fails.
    Stuck,
}

/// The outcome of adding version `version` of package `name` to `index`.
pub open spec fn plan_outcome(index: &RegistryIndex, name: Seq<char>, version: Seq<char>) -> PlanOutcome {
    match parse_package_name(name) {
        Err(t) => PlanOutcome::BadName(t),
        Ok((ns, _)) => match index.namespaces {
            None => PlanOutcome::BadNamespaces,
            Some(list) => match scan(keys_of(list@), namespaces_text(ns)) {
                Scan::Stuck => PlanOutcome::Stuck,
                Scan::Absent => PlanOutcome::BadVersions,
                Scan::Found(i) => match list@[i].packages {
                    None => PlanOutcome::BadPackages,
                    Some(pk) => match scan(keys_of(pk@), name) {
                        Scan::Stuck => PlanOutcome::Stuck,
                        Scan::Absent => PlanOutcome::BadVersions,
                        Scan::Found(j) => match pk@[j].versions {
                            None => PlanOutcome::BadVersions,
                            Some(vs) => match scan(keys_of(vs@), version) {
                                Scan::Stuck => PlanOutcome::Stuck,
                                Scan::Found(_) => PlanOutcome::Exists,
                                Scan::Absent => PlanOutcome::Edit(i, j),
                            },
                        },
                    },
                },
            },
        },
    }
}

/// Decides how to record `package` with `integrity` in a registry index:
/// which package entry gets the new version, or why the index cannot take it.
pub fn plan_registry_update(index: &RegistryIndex, package: &PackageDefinition, integrity: &str) -> (r: Result<IndexEdit, MycoError>)
    requires
        !(plan_outcome(index, package.name@, version_text(package.version@)) is Stuck),
    ensures
        match (r, plan_outcome(index, package.name@, version_text(package.version@))) {
            (Ok(e), PlanOutcome::Edit(i, j)) => e.namespace == i && e.package == j && e.version@ == version_text(
                package.version@,
            ) && e.integrity@ == integrity@,
            (Err(MycoError::InvalidPackageName { name }), PlanOutcome::BadName(t)) => name@ == t,
            (Err(MycoError::InvalidRegistryFormat { message }), PlanOutcome::BadNamespaces) => message@
                == "namespace should be an array of tables"@,
            (Err(MycoError::InvalidRegistryFormat { message }), PlanOutcome::BadPackages) => message@
                == "package should be an array of tables"@,
            (Err(MycoError::InvalidRegistryFormat { message }), PlanOutcome::BadVersions) => message@
                == "versions should be an inline array"@,
            (Err(MycoError::VersionExists { version }), PlanOutcome::Exists) => version@ == version_text(
                package.version@,
            ),
            _ => false,
        },
{
    let version = package.version.to_string();
    let name = match PackageName::from_str(package.name.as_str()) {
        Ok(n) => n,
        Err(e) => {
            return Err(e);
        },
    };
    let versions_message = "versions should be an inline array";
    let namespaces = match &index.namespaces {
        None => {
            return Err(MycoError::InvalidRegistryFormat { message: "namespace should be an array of tables".to_string() });
        },
        Some(list) => list,
    };
    let ns_name = name.namespaces_to_string();
    let i = match find_first(namespaces, ns_name.as_str()) {
        Found::At(i) => i,
        Found::Nowhere => {
            return Err(MycoError::InvalidRegistryFormat { message: versions_message.to_string() });
        },
        Found::Blocked => {
            return Err(MycoError::Internal { message: "unreadable namespace".to_string() });
        },
    };
    let packages = match &namespaces[i].packages {
        None => {
            return Err(MycoError::InvalidRegistryFormat { message: "package should be an array of tables".to_string() });
        },
        Some(p) => p,
    };
    let j = match find_first(packages, package.name.as_str()) {
        Found::At(j) => j,
        Found::Nowhere => {
            return Err(MycoError::InvalidRegistryFormat { message: versions_message.to_string() });
        },
        Found::Blocked => {
            return Err(MycoError::Internal { message: "unreadable package".to_string() });
        },
    };
    let versions = match &packages[j].versions {
        None => {
            return Err(MycoError::InvalidRegistryFormat { message: versions_message.to_string() });
        },
        Some(v) => v,
    };
    match find_first(versions, version.as_str()) {
        Found::At(_) => Err(MycoError::VersionExists { version }),
        Found::Blocked => Err(MycoError::Internal { message: "unreadable version".to_string() }),
        Found::Nowhere => Ok(IndexEdit { namespace: i, package: j, version, integrity: integrity.to_string() }),
    }
}

/// Whether recording `package` would read a `name` or `version` key that
/// the index lacks, which `plan_registry_update` does not take.
pub fn plan_is_blocked(index: &RegistryIndex, package: &PackageDefinition) -> (r: bool)
    ensures
        r == (plan_outcome(index, package.name@, version_text(package.version@)) is Stuck),
{
    let version = package.version.to_string();
    let name = match PackageName::from_str(package.name.as_str()) {
        Ok(n) => n,
        Err(_) => {
            return false;
        },
    };
    let namespaces = match &index.namespaces {
        None => {
            return false;
        },
        Some(list) => list,
    };
    let ns_name = name.namespaces_to_string();
    let i = match find_first(namespaces, ns_name.as_str()) {
        Found::At(i) => i,
        Found::Nowhere => {
            return false;
        },
        Found::Blocked => {
            return true;
        },
    };
    let packages = match &namespaces[i].packages {
        None => {
            return false;
        },
        Some(p) => p,
    };
    let j = match find_first(packages, package.name.as_str()) {
        Found::At(j) => j,
        Found::Nowhere => {
            return false;
        },
        Found::Blocked => {
            return true;
        },
    };
    match &packages[j].versions {
        None => false,
        Some(v) => match find_first(v, version.as_str()) {
            Found::Blocked => true,
            _ => false,
        },
    }
}

/// Where publishing goes, as the manifest says: the path of the named
/// registry's index.
pub fn publish_target(myco_toml: &MycoToml, registry_name: &str) -> (r: Result<String, MycoError>)
    requires
        myco_toml.wf(),
    ensures
        myco_toml.package is None ==> (r matches Err(MycoError::NoPackageDefinition)),
        myco_toml.package is Some ==> match myco_toml.registries {
            None => r matches Err(MycoError::NoRegistries),
            Some(m) => if !m.as_map().contains_key(registry_name@) {
                r matches Err(MycoError::RegistryNotFound { name }) && name@ == registry_name@
            } else {
                match m.as_map()[registry_name@]@ {
                    LocationModel::Url(_) => r matches Err(MycoError::UrlRegistryNotSupported),
                    LocationModel::Path(p) => r matches Ok(s) && s@ == p,
                }
            },
        },
{
    if myco_toml.package.is_none() {
        return Err(MycoError::NoPackageDefinition);
    }
    let registries = match &myco_toml.registries {
        None => {
            return Err(MycoError::NoRegistries);
        },
        Some(m) => m,
    };
    match registries.get(registry_name) {
        None => Err(MycoError::RegistryNotFound { name: registry_name.to_string() }),
        Some(Location::Url(_)) => Err(MycoError::UrlRegistryNotSupported),
        Some(Location::Path { path }) => Ok(path.clone()),
    }
}

/// The directory a package's files are copied to: `<name>/` next to the
/// registry index (inside it, where the registry path is a directory).
/// `registry_is_file` says whether the registry path names an existing file.
pub fn package_directory(registry_path: &str, package_name: &str, registry_is_file: bool) -> (r: String)
    ensures
        join_spec(LocationModel::Path(registry_path@), package_name@ + "/"@, registry_is_file) == Some(
            LocationModel::Path(r@),
        ),
{
    let loc = Location::Path { path: registry_path.to_string() };
    let rel = concat_str(package_name, "/");
    match loc.join(rel.as_str(), registry_is_file) {
        Ok(Location::Path { path }) => path,
        Ok(Location::Url(u)) => u,
        Err(_) => String::new(),
    }
}

} // verus!
