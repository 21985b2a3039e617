//! Registries: nested namespaces of packages, each with its published
//! versions, and what a package name and version resolve to.
use vstd::prelude::*;

use crate::deps::location::{join_spec, Location, LocationModel};
use crate::errors::MycoError;
use crate::package_name::PackageName;
use crate::package_version::{same_version, version_order, version_text, PackageVersion, VersionModel};
use crate::text::{concat_str, Order3};

verus! {

/// One published version of a package and the integrity of its archive.
#[derive(Debug)]
pub struct VersionEntry {
    pub version: PackageVersion,
    pub integrity: String,
}

impl View for VersionEntry {
    type V = (VersionModel, Seq<char>);

    open spec fn view(&self) -> (VersionModel, Seq<char>) {
        (self.version@, self.integrity@)
    }
}

impl VersionEntry {
    /// A copy of this entry.
    pub fn duplicate(&self) -> (r: Self)
        ensures
            r@ == self@,
    {
        VersionEntry { version: self.version.duplicate(), integrity: self.integrity.clone() }
    }
}

/// The views of a sequence of entries.
pub open spec fn entries_view(s: Seq<VersionEntry>) -> Seq<(VersionModel, Seq<char>)> {
    Seq::new(s.len(), |i: int| s[i]@)
}

/// A package in a registry and its published versions.
#[derive(Debug)]
pub struct RegistryPackage {
    pub name: PackageName,
    pub versions: Vec<VersionEntry>,
}

/// What a `RegistryPackage` holds.
pub struct PackageModel {
    pub name: (Seq<Seq<char>>, Seq<char>),
    pub versions: Seq<(VersionModel, Seq<char>)>,
}

impl View for RegistryPackage {
    type V = PackageModel;

    open spec fn view(&self) -> PackageModel {
        PackageModel {
            name: self.name.name_view(),
            versions: entries_view(self.versions@),
        }
    }
}

impl RegistryPackage {
    /// A copy of this package.
    pub fn duplicate(&self) -> (r: Self)
        ensures
            r@ == self@,
    {
        let mut versions: Vec<VersionEntry> = Vec::new();
        let mut i: usize = 0;
        while i < self.versions.len()
            invariant
                i <= self.versions@.len(),
                versions@.len() == i,
                forall|k: int| 0 <= k < i ==> (#[trigger] versions@[k])@ == self.versions@[k]@,
            decreases self.versions@.len() - i,
        {
            versions.push(self.versions[i].duplicate());
            i = i + 1;
        }
        proof {
            assert(entries_view(versions@) =~= entries_view(self.versions@));
        }
        RegistryPackage { name: self.name.duplicate(), versions }
    }
}

/// A namespace of a registry: its packages and its sub-namespaces.
#[derive(Debug)]
pub struct RegistryNamespace {
    pub name: String,
    pub package: Option<Vec<RegistryPackage>>,
    pub namespace: Option<Vec<RegistryNamespace>>,
}

/// A registry: its top-level namespaces.
#[derive(Debug)]
pub struct Registry {
    pub namespace: Vec<RegistryNamespace>,
}

/// The first package of `ps` with the name `n`.
pub open spec fn first_named(ps: Seq<RegistryPackage>, n: (Seq<Seq<char>>, Seq<char>)) -> Option<
    RegistryPackage,
>
    decreases ps.len(),
{
    if ps.len() == 0 {
        None
    } else if ps[0].name.name_view() == n {
        Some(ps[0])
    } else {
        first_named(ps.drop_first(), n)
    }
}

/// The package named `n` in a namespace: its own packages are searched first,
/// in order, then its sub-namespaces, in order and depth first.
pub open spec fn ns_find(ns: RegistryNamespace, n: (Seq<Seq<char>>, Seq<char>)) -> Option<
    RegistryPackage,
>
    decreases ns, 0nat,
{
    let here = match ns.package {
        Some(ps) => first_named(ps@, n),
        None => None,
    };
    match here {
        Some(p) => Some(p),
        None => match ns.namespace {
            Some(c) => list_find(c@, n),
            None => None,
        },
    }
}

/// The package named `n` in the first of the namespaces that has one.
pub open spec fn list_find(l: Seq<RegistryNamespace>, n: (Seq<Seq<char>>, Seq<char>)) -> Option<
    RegistryPackage,
>
    decreases l, 1nat,
{
    if l.len() == 0 {
        None
    } else {
        match ns_find(l[0], n) {
            Some(p) => Some(p),
            None => list_find(l.drop_first(), n),
        }
    }
}

/// Looking a package up by name finds that package: what the search of a list
/// of packages returns is one of them and has the name asked for, and when it
/// returns nothing, none of them has that name.
pub proof fn law_first_named_has_name(ps: Seq<RegistryPackage>, n: (Seq<Seq<char>>, Seq<char>))
    ensures
        first_named(ps, n) matches Some(p) ==> p.name.name_view() == n && ps.contains(p),
        first_named(ps, n) is None ==> forall|i: int| 0 <= i < ps.len() ==> (#[trigger] ps[i]).name.name_view() != n,
    decreases ps.len(),
{
    if ps.len() > 0 {
        let rest = ps.drop_first();
        law_first_named_has_name(rest, n);
        assert forall|i: int| 0 < i < ps.len() implies ps[i] == #[trigger] rest[i - 1] by {}
        if let Some(p) = first_named(rest, n) {
            if ps[0].name.name_view() != n {
                let k = choose|k: int| 0 <= k < rest.len() && rest[k] == p;
                assert(ps[k + 1] == p);
            }
        }
        if first_named(ps, n) is None {
            assert forall|i: int| 0 <= i < ps.len() implies (#[trigger] ps[i]).name.name_view() != n by {
                if i > 0 {
                    assert(ps[i] == rest[i - 1]);
                }
            }
        }
    }
}

/// A package found in a namespace, or in a list of namespaces, has the name
/// asked for.
pub proof fn law_namespace_find_has_name(ns: RegistryNamespace, n: (Seq<Seq<char>>, Seq<char>))
    ensures
        ns_find(ns, n) matches Some(p) ==> p.name.name_view() == n,
    decreases ns, 0nat,
{
    if let Some(ps) = ns.package {
        law_first_named_has_name(ps@, n);
    }
    if let Some(c) = ns.namespace {
        law_list_find_has_name(c@, n);
    }
}

/// See `law_namespace_find_has_name`.
pub proof fn law_list_find_has_name(l: Seq<RegistryNamespace>, n: (Seq<Seq<char>>, Seq<char>))
    ensures
        list_find(l, n) matches Some(p) ==> p.name.name_view() == n,
    decreases l, 1nat,
{
    if l.len() > 0 {
        law_namespace_find_has_name(l[0], n);
        law_list_find_has_name(l.drop_first(), n);
    }
}

/// The view of an optional package.
pub open spec fn opt_package(o: Option<RegistryPackage>) -> Option<PackageModel> {
    match o {
        Some(p) => Some(p@),
        None => None,
    }
}

impl RegistryNamespace {
    /// The package named `package_name` in this namespace or below it.
    pub fn resolve_package(&self, location: &Location, package_name: &PackageName) -> (r: Result<
        Option<RegistryPackage>,
        MycoError,
    >)
        ensures
            r matches Ok(o) && opt_package(o) == opt_package(
                ns_find(*self, package_name.name_view()),
            ),
        decreases self,
    {
        let ghost n = package_name.name_view();
        match &self.package {
            Some(packages) => {
                let mut i: usize = 0;
                proof {
                    assert(packages@.skip(0) =~= packages@);
                }
                while i < packages.len()
                    invariant
                        i <= packages@.len(),
                        n == package_name.name_view(),
                        self.package == Some(*packages),
                        first_named(packages@, n) == first_named(packages@.skip(i as int), n),
                    decreases packages@.len() - i,
                {
                    proof {
                        assert(packages@.skip(i as int).drop_first() =~= packages@.skip(i + 1));
                        assert(packages@.skip(i as int)[0] == packages@[i as int]);
                    }
                    if packages[i].name.same(package_name) {
                        let found = packages[i].duplicate();
                        proof {
                            assert(first_named(packages@, n) == Some(packages@[i as int]));
                        }
                        return Ok(Some(found));
                    }
                    i = i + 1;
                }
                proof {
                    assert(packages@.skip(i as int).len() == 0);
                    assert(first_named(packages@, n) is None);
                }
            },
            None => {},
        }
        proof {
            assert(ns_find(*self, n) == match self.namespace {
                Some(c) => list_find(c@, n),
                None => None,
            });
        }
        match &self.namespace {
            Some(namespaces) => {
                let mut i: usize = 0;
                proof {
                    assert(namespaces@.skip(0) =~= namespaces@);
                }
                while i < namespaces.len()
                    invariant
                        i <= namespaces@.len(),
                        n == package_name.name_view(),
                        ns_find(*self, n) == list_find(namespaces@.skip(i as int), n),
                        self.namespace == Some(*namespaces),
                    decreases namespaces@.len() - i,
                {
                    proof {
                        assert(namespaces@.skip(i as int).drop_first() =~= namespaces@.skip(i + 1));
                        assert(namespaces@.skip(i as int)[0] == namespaces@[i as int]);
                        assert(decreases_to!(*self => namespaces@[i as int]));
                    }
                    let found = namespaces[i].resolve_package(location, package_name);
                    match found {
                        Ok(Some(p)) => {
                            return Ok(Some(p));
                        },
                        _ => {},
                    }
                    i = i + 1;
                }
                proof {
                    assert(namespaces@.skip(i as int).len() == 0);
                }
                Ok(None)
            },
            None => Ok(None),
        }
    }
}

impl Registry {
    /// The package named `package_name`, from the first namespace that has it.
    pub fn resolve_package(&self, location: &Location, package_name: &PackageName) -> (r: Result<
        Option<RegistryPackage>,
        MycoError,
    >)
        ensures
            r matches Ok(o) && opt_package(o) == opt_package(
                list_find(self.namespace@, package_name.name_view()),
            ),
    {
        let ghost n = package_name.name_view();
        let mut i: usize = 0;
        proof {
            assert(self.namespace@.skip(0) =~= self.namespace@);
        }
        while i < self.namespace.len()
            invariant
                i <= self.namespace@.len(),
                n == package_name.name_view(),
                list_find(self.namespace@, n) == list_find(self.namespace@.skip(i as int), n),
            decreases self.namespace@.len() - i,
        {
            proof {
                assert(self.namespace@.skip(i as int).drop_first() =~= self.namespace@.skip(i + 1));
                assert(self.namespace@.skip(i as int)[0] == self.namespace@[i as int]);
            }
            let found = self.namespace[i].resolve_package(location, package_name);
            match found {
                Ok(Some(p)) => {
                    return Ok(Some(p));
                },
                _ => {},
            }
            i = i + 1;
        }
        proof {
            assert(self.namespace@.skip(i as int).len() == 0);
        }
        Ok(None)
    }
}

// ---------------------------------------------------------------------------
// Resolved versions
// ---------------------------------------------------------------------------

/// A version of a package pinned to the URLs of its archive and manifest.
#[derive(Debug)]
pub struct ResolvedVersion {
    pub name: PackageName,
    pub version: PackageVersion,
    pub pack_url: Location,
    pub toml_url: Location,
    pub integrity: String,
}

/// What a `ResolvedVersion` holds.
pub struct ResolvedModel {
    pub name: (Seq<Seq<char>>, Seq<char>),
    pub version: VersionModel,
    pub pack_url: LocationModel,
    pub toml_url: LocationModel,
    pub integrity: Seq<char>,
}

impl View for ResolvedVersion {
    type V = ResolvedModel;

    open spec fn view(&self) -> ResolvedModel {
        ResolvedModel {
            name: self.name.name_view(),
            version: self.version@,
            pack_url: self.pack_url@,
            toml_url: self.toml_url@,
            integrity: self.integrity@,
        }
    }
}

/// The pinned version of an entry found at `location`: its archive is
/// `<version>.zip` and its manifest `<version>.toml` there; `None` when either
/// URL is invalid.
pub open spec fn resolved_spec(
    name: (Seq<Seq<char>>, Seq<char>),
    location: LocationModel,
    entry: (VersionModel, Seq<char>),
    location_is_file: bool,
) -> Option<ResolvedModel> {
    let pack = join_spec(location, version_text(entry.0) + ".zip"@, location_is_file);
    let toml = join_spec(location, version_text(entry.0) + ".toml"@, location_is_file);
    match (pack, toml) {
        (Some(p), Some(t)) => Some(
            ResolvedModel { name, version: entry.0, pack_url: p, toml_url: t, integrity: entry.1 },
        ),
        _ => None,
    }
}

impl ResolvedVersion {
    /// Pins `version_entry` of the package `name` found at `location`;
    /// `location_is_file` says whether a path location names an existing file.
    pub fn new(name: PackageName, location: &Location, version_entry: &VersionEntry, location_is_file: bool) -> (r: Result<Self, MycoError>)
        ensures
            match r {
                Ok(v) => resolved_spec(name.name_view(), location@, version_entry@, location_is_file)
                    == Some(v@),
                Err(e) => resolved_spec(name.name_view(), location@, version_entry@, location_is_file) is None
                    && e is InvalidUrl,
            },
    {
        let text = version_entry.version.to_string();
        let pack = concat_str(text.as_str(), ".zip");
        let pack_url = match location.join(pack.as_str(), location_is_file) {
            Ok(l) => l,
            Err(e) => {
                return Err(e);
            },
        };
        let toml = concat_str(text.as_str(), ".toml");
        let toml_url = match location.join(toml.as_str(), location_is_file) {
            Ok(l) => l,
            Err(e) => {
                return Err(e);
            },
        };
        Ok(ResolvedVersion {
            name,
            version: version_entry.version.duplicate(),
            pack_url,
            toml_url,
            integrity: version_entry.integrity.clone(),
        })
    }

    /// A copy of this resolved version.
    pub fn duplicate(&self) -> (r: Self)
        ensures
            r@ == self@,
    {
        ResolvedVersion {
            name: self.name.duplicate(),
            version: self.version.duplicate(),
            pack_url: self.pack_url.duplicate(),
            toml_url: self.toml_url.duplicate(),
            integrity: self.integrity.clone(),
        }
    }

    /// Whether two resolved versions agree in every field.
    pub fn same(&self, other: &Self) -> (r: bool)
        ensures
            r == (self@ == other@),
    {
        self.name.same(&other.name) && self.version.same(&other.version) && self.pack_url.same(
            &other.pack_url,
        ) && self.toml_url.same(&other.toml_url) && self.integrity.eq(&other.integrity)
    }

    /// What changed between this pin and `other`: `None` when they agree,
    /// else each differing field with its old and new value (under this pin's name).
    pub fn diff(&self, other: &ResolvedVersion) -> (r: Option<ResolvedVersionDiff>)
        ensures
            match r {
                None => self@ == other@,
                Some(d) => self@ != other@ && d@ == diff_spec(self@, other@),
            },
    {
        if self.same(other) {
            return None;
        }
        let version = if !self.version.same(&other.version) {
            Some((self.version.duplicate(), other.version.duplicate()))
        } else {
            None
        };
        let pack_url = if !self.pack_url.same(&other.pack_url) {
            Some((self.pack_url.duplicate(), other.pack_url.duplicate()))
        } else {
            None
        };
        let toml_url = if !self.toml_url.same(&other.toml_url) {
            Some((self.toml_url.duplicate(), other.toml_url.duplicate()))
        } else {
            None
        };
        let integrity = if !self.integrity.eq(&other.integrity) {
            Some((self.integrity.clone(), other.integrity.clone()))
        } else {
            None
        };
        Some(ResolvedVersionDiff { name: self.name.duplicate(), version, pack_url, toml_url, integrity })
    }
}

/// The fields in which two pins differ, each with its old and new value.
#[derive(Debug)]
pub struct ResolvedVersionDiff {
    pub name: PackageName,
    pub version: Option<(PackageVersion, PackageVersion)>,
    pub pack_url: Option<(Location, Location)>,
    pub toml_url: Option<(Location, Location)>,
    pub integrity: Option<(String, String)>,
}

/// What a `ResolvedVersionDiff` holds.
pub struct DiffModel {
    pub name: (Seq<Seq<char>>, Seq<char>),
    pub version: Option<(VersionModel, VersionModel)>,
    pub pack_url: Option<(LocationModel, LocationModel)>,
    pub toml_url: Option<(LocationModel, LocationModel)>,
    pub integrity: Option<(Seq<char>, Seq<char>)>,
}

impl View for ResolvedVersionDiff {
    type V = DiffModel;

    open spec fn view(&self) -> DiffModel {
        DiffModel {
            name: self.name.name_view(),
            version: match self.version {
                Some((a, b)) => Some((a@, b@)),
                None => None,
            },
            pack_url: match self.pack_url {
                Some((a, b)) => Some((a@, b@)),
                None => None,
            },
            toml_url: match self.toml_url {
                Some((a, b)) => Some((a@, b@)),
                None => None,
            },
            integrity: match self.integrity {
                Some((a, b)) => Some((a@, b@)),
                None => None,
            },
        }
    }
}

/// The difference between two pins: each field that differs, old then new.
pub open spec fn diff_spec(a: ResolvedModel, b: ResolvedModel) -> DiffModel {
    DiffModel {
        name: a.name,
        version: if a.version != b.version {
            Some((a.version, b.version))
        } else {
            None
        },
        pack_url: if a.pack_url != b.pack_url {
            Some((a.pack_url, b.pack_url))
        } else {
            None
        },
        toml_url: if a.toml_url != b.toml_url {
            Some((a.toml_url, b.toml_url))
        } else {
            None
        },
        integrity: if a.integrity != b.integrity {
            Some((a.integrity, b.integrity))
        } else {
            None
        },
    }
}

/// The first entry of `vs` with the version `v`.
pub open spec fn find_version(vs: Seq<VersionEntry>, v: VersionModel) -> Option<VersionEntry>
    decreases vs.len(),
{
    if vs.len() == 0 {
        None
    } else if vs[0].version@ == v {
        Some(vs[0])
    } else {
        find_version(vs.drop_first(), v)
    }
}

/// Picking a version entry finds the first entry with that version: the entry
/// returned is in the list, has the version asked for, and no earlier entry
/// has it; when nothing is returned, no entry has it.
pub proof fn law_find_version_first(vs: Seq<VersionEntry>, v: VersionModel)
    ensures
        find_version(vs, v) matches Some(e) ==> exists|i: int|
            0 <= i < vs.len() && #[trigger] vs[i] == e && e.version@ == v && forall|j: int|
                0 <= j < i ==> (#[trigger] vs[j]).version@ != v,
        find_version(vs, v) is None ==> forall|i: int| 0 <= i < vs.len() ==> (#[trigger] vs[i]).version@ != v,
    decreases vs.len(),
{
    if vs.len() > 0 {
        let rest = vs.drop_first();
        law_find_version_first(rest, v);
        assert forall|i: int| 0 < i < vs.len() implies vs[i] == #[trigger] rest[i - 1] by {}
        if vs[0].version@ == v {
            assert(vs[0] == find_version(vs, v)->Some_0);
        } else if let Some(e) = find_version(rest, v) {
            let k = choose|k: int|
                0 <= k < rest.len() && #[trigger] rest[k] == e && e.version@ == v && forall|j: int|
                    0 <= j < k ==> (#[trigger] rest[j]).version@ != v;
            assert(vs[k + 1] == e);
            assert forall|j: int| 0 <= j < k + 1 implies (#[trigger] vs[j]).version@ != v by {
                if j > 0 {
                    assert(vs[j] == rest[j - 1]);
                }
            }
        }
        if find_version(vs, v) is None {
            assert forall|i: int| 0 <= i < vs.len() implies (#[trigger] vs[i]).version@ != v by {
                if i > 0 {
                    assert(vs[i] == rest[i - 1]);
                }
            }
        }
    }
}

/// What resolving `name` at `version` in a registry found at `location` gives:
/// `Some(None)` when the registry lacks the package or the version, `None` when
/// a URL on the way is invalid. The package's files live under `<name>/`.
pub open spec fn resolve_version_spec(
    reg: Registry,
    location: LocationModel,
    name: (Seq<Seq<char>>, Seq<char>),
    version: VersionModel,
    location_is_file: bool,
) -> Option<Option<ResolvedModel>> {
    match list_find(reg.namespace@, name) {
        None => Some(None),
        Some(p) => match find_version(p.versions@, version) {
            None => Some(None),
            Some(e) => match join_spec(
                location,
                crate::package_name::package_name_text(p.name.namespaces_view(), p.name.name@)
                    + "/"@,
                location_is_file,
            ) {
                None => None,
                Some(package_location) => match resolved_spec(
                    p.name.name_view(),
                    package_location,
                    e@,
                    false,
                ) {
                    None => None,
                    Some(r) => Some(Some(r)),
                },
            },
        },
    }
}

impl Registry {
    /// Pins `version` of `package_name` from this registry, found at
    /// `location`; `location_is_file` says whether a path location names an
    /// existing file. The package's directory is named with a trailing `/`,
    /// which never names an existing file, so it is joined as a directory.
    pub fn resolve_version(
        &self,
        location: &Location,
        package_name: &PackageName,
        version: &PackageVersion,
        location_is_file: bool,
    ) -> (r: Result<Option<ResolvedVersion>, MycoError>)
        ensures
            match r {
                Ok(Some(v)) => resolve_version_spec(*self, location@, package_name.name_view(), version@, location_is_file) == Some(Some(v@)),
                Ok(None) => resolve_version_spec(*self, location@, package_name.name_view(), version@, location_is_file) == Some(Option::<ResolvedModel>::None),
                Err(e) => resolve_version_spec(*self, location@, package_name.name_view(), version@, location_is_file) is None && e is InvalidUrl,
            },
    {
        let resolved = self.resolve_package(location, package_name);
        let package = match resolved {
            Ok(Some(p)) => p,
            _ => {
                return Ok(None);
            },
        };
        let ghost found = list_find(self.namespace@, package_name.name_view()).unwrap();
        let mut i: usize = 0;
        proof {
            assert(package.versions@.skip(0) =~= package.versions@);
            assert(opt_package(Some(package)) == opt_package(list_find(self.namespace@, package_name.name_view())));
            lemma_find_version_views(found.versions@, package.versions@, version@);
        }
        while i < package.versions.len()
            invariant
                i <= package.versions@.len(),
                find_version(package.versions@, version@) == find_version(package.versions@.skip(i as int), version@),
                list_find(self.namespace@, package_name.name_view()) == Some(found),
                package@ == found@,
                match (find_version(found.versions@, version@), find_version(package.versions@, version@)) {
                    (Some(x), Some(y)) => x@ == y@,
                    (None, None) => true,
                    _ => false,
                },
            decreases package.versions@.len() - i,
        {
            proof {
                assert(package.versions@.skip(i as int).drop_first() =~= package.versions@.skip(i + 1));
                assert(package.versions@.skip(i as int)[0] == package.versions@[i as int]);
            }
            if package.versions[i].version.same(version) {
                let text = package.name.to_string();
                let dir = concat_str(text.as_str(), "/");
                let package_location = match location.join(dir.as_str(), location_is_file) {
                    Ok(l) => l,
                    Err(e) => {
                        return Err(e);
                    },
                };
                let name = package.name.duplicate();
                let v = ResolvedVersion::new(name, &package_location, &package.versions[i], false);
                return match v {
                    Ok(v) => Ok(Some(v)),
                    Err(e) => Err(e),
                };
            }
            i = i + 1;
        }
        proof {
            assert(package.versions@.skip(i as int).len() == 0);
        }
        Ok(None)
    }
}

/// Finding a version among entries depends only on the entries' views.
proof fn lemma_find_version_views(a: Seq<VersionEntry>, b: Seq<VersionEntry>, v: VersionModel)
    requires
        entries_view(a) == entries_view(b),
    ensures
        match (find_version(a, v), find_version(b, v)) {
            (Some(x), Some(y)) => x@ == y@,
            (None, None) => true,
            _ => false,
        },
    decreases a.len(),
{
    assert(a.len() == entries_view(a).len());
    if a.len() > 0 {
        assert(a[0]@ == entries_view(a)[0]);
        assert(b[0]@ == entries_view(b)[0]);
        assert(entries_view(a.drop_first()) =~= entries_view(b.drop_first())) by {
            assert forall|k: int| 0 <= k < a.len() - 1 implies #[trigger] entries_view(a.drop_first())[k]
                == entries_view(b.drop_first())[k] by {
                assert(entries_view(a)[k + 1] == entries_view(b)[k + 1]);
            }
        }
        lemma_find_version_views(a.drop_first(), b.drop_first(), v);
    }
}

} // verus!
