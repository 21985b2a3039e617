//! Changes to a manifest's `[deps]` table: which version `add` and `update`
//! pick, and when `remove` applies.
use vstd::prelude::*;

use crate::deps::registry::{entries_view, RegistryPackage};
use crate::errors::MycoError;
use crate::myco_toml::MycoToml;
use crate::package_name::{package_name_text, PackageName};
use crate::package_version::{
    law_version_order_antisymmetric, law_version_order_transitive, version_order, PackageVersion,
    VersionModel,
};
use crate::text::Order3;

verus! {

/// One change to the `[deps]` table.
#[derive(Debug)]
pub enum DepsChange {
    SetVersion(PackageName, PackageVersion),
    Remove(PackageName),
}

/// What a `DepsChange` holds.
pub enum ChangeModel {
    SetVersion((Seq<Seq<char>>, Seq<char>), VersionModel),
    Remove((Seq<Seq<char>>, Seq<char>)),
}

impl View for DepsChange {
    type V = ChangeModel;

    open spec fn view(&self) -> ChangeModel {
        match self {
            DepsChange::SetVersion(n, v) => ChangeModel::SetVersion(n.name_view(), v@),
            DepsChange::Remove(n) => ChangeModel::Remove(n.name_view()),
        }
    }
}

/// Index of the greatest of `vs` as `Iterator::max` picks it: scanning in
/// order, a later version replaces the current pick unless the pick is greater,
/// so among equal greatest versions the last wins.
pub open spec fn latest_index(vs: Seq<VersionModel>) -> int
    decreases vs.len(),
{
    if vs.len() <= 1 {
        0
    } else {
        let i = latest_index(vs.drop_last());
        if version_order(vs[i], vs.last()) == Order3::Greater {
            i
        } else {
            vs.len() - 1
        }
    }
}

/// The greatest version is one that no version of the list exceeds.
pub proof fn law_latest_is_greatest(vs: Seq<VersionModel>)
    requires
        vs.len() > 0,
    ensures
        0 <= latest_index(vs) < vs.len(),
        forall|j: int| 0 <= j < vs.len() ==> version_order(#[trigger] vs[j], vs[latest_index(vs)]) != Order3::Greater,
    decreases vs.len(),
{
    if vs.len() > 1 {
        let init = vs.drop_last();
        law_latest_is_greatest(init);
        let i = latest_index(init);
        let last = vs.last();
        law_version_order_antisymmetric(init[i], last);
        assert forall|j: int| 0 <= j < vs.len() implies version_order(#[trigger] vs[j], vs[latest_index(vs)]) != Order3::Greater by {
            law_version_order_antisymmetric(vs[j], vs[latest_index(vs)]);
            if j < vs.len() - 1 {
                assert(vs[j] == init[j]);
                assert(version_order(init[j], init[i]) != Order3::Greater);
                law_version_order_antisymmetric(init[j], init[i]);
                if version_order(init[i], last) != Order3::Greater {
                    law_version_order_antisymmetric(init[j], last);
                    if version_order(init[j], init[i]) == Order3::Less && version_order(init[i], last) == Order3::Less {
                        law_version_order_transitive(init[j], init[i], last);
                    }
                }
            } else {
                law_version_order_antisymmetric(last, last);
            }
        }
    } else {
        law_version_order_antisymmetric(vs[0], vs[0]);
    }
}

/// The versions of a package's entries.
pub open spec fn entry_versions(p: RegistryPackage) -> Seq<VersionModel> {
    Seq::new(p.versions@.len(), |i: int| p.versions@[i].version@)
}

/// Index of the greatest version among `package`'s entries, if it has any.
pub fn latest_version(package: &RegistryPackage) -> (r: Option<usize>)
    ensures
        match r {
            Some(i) => package.versions@.len() > 0 && i < package.versions@.len() && i
                == latest_index(entry_versions(*package)),
            None => package.versions@.len() == 0,
        },
{
    let n: usize = package.versions.len();
    if n == 0 {
        return None;
    }
    let ghost vs = entry_versions(*package);
    let mut best: usize = 0;
    let mut i: usize = 1;
    while i < n
        invariant
            n == package.versions@.len(),
            vs == entry_versions(*package),
            1 <= i <= n,
            best == latest_index(vs.take(i as int)),
            best < i,
        decreases n - i,
    {
        proof {
            let t = vs.take(i + 1);
            assert(t.drop_last() =~= vs.take(i as int));
            assert(t[best as int] == vs[best as int]);
            assert(t.last() == vs[i as int]);
        }
        if package.versions[best].version.order(&package.versions[i].version) != Order3::Greater {
            best = i;
        }
        i = i + 1;
    }
    proof {
        assert(vs.take(n as int) =~= vs);
    }
    Some(best)
}

/// The change that `add` makes for `requested` once its registry package has
/// been looked up in the manifest's registries: `NoRegistries` when the
/// manifest names none; else the greatest published version of the package
/// found, or `PackageNotFound` when no registry has it or it has no versions.
pub fn add_change(myco_toml: &MycoToml, requested: &PackageName, resolved: Option<RegistryPackage>) -> (r: Result<
    Vec<DepsChange>,
    MycoError,
>)
    ensures
        myco_toml.registries is None ==> (r matches Err(MycoError::NoRegistries)),
        myco_toml.registries is Some ==> match resolved {
            None => r matches Err(MycoError::PackageNotFound { package }) && package@
                == package_name_text(requested.namespaces_view(), requested.name@),
            Some(p) => if p.versions@.len() == 0 {
                r matches Err(MycoError::PackageNotFound { package }) && package@
                    == package_name_text(p.name.namespaces_view(), p.name.name@)
            } else {
                r matches Ok(changes) && changes@.len() == 1 && changes@[0]@ == ChangeModel::SetVersion(
                    p.name.name_view(),
                    p.versions@[latest_index(entry_versions(p))].version@,
                )
            },
        },
{
    if myco_toml.registries.is_none() {
        return Err(MycoError::NoRegistries);
    }
    match resolved {
        None => Err(MycoError::PackageNotFound { package: requested.to_string() }),
        Some(p) => match latest_version(&p) {
            None => Err(MycoError::PackageNotFound { package: p.name.to_string() }),
            Some(i) => {
                let version = p.versions[i].version.duplicate();
                let mut changes: Vec<DepsChange> = Vec::new();
                changes.push(DepsChange::SetVersion(p.name, version));
                Ok(changes)
            },
        },
    }
}

/// Whether `deps` has an entry named `n`.
pub open spec fn has_dep(deps: Seq<(PackageName, PackageVersion)>, n: (Seq<Seq<char>>, Seq<char>)) -> bool {
    exists|i: int| 0 <= i < deps.len() && (#[trigger] deps[i]).0.name_view() == n
}

/// The change that `remove` makes: removing `package` when the table has it,
/// `PackageNotFound` otherwise.
pub fn remove_change(deps: &Vec<(PackageName, PackageVersion)>, package: PackageName) -> (r: Result<
    Vec<DepsChange>,
    MycoError,
>)
    ensures
        if has_dep(deps@, package.name_view()) {
            r matches Ok(changes) && changes@.len() == 1 && changes@[0]@ == ChangeModel::Remove(
                package.name_view(),
            )
        } else {
            r matches Err(MycoError::PackageNotFound { package: p }) && p@ == package_name_text(
                package.namespaces_view(),
                package.name@,
            )
        },
{
    let mut i: usize = 0;
    while i < deps.len()
        invariant
            i <= deps@.len(),
            forall|j: int| 0 <= j < i ==> (#[trigger] deps@[j]).0.name_view() != package.name_view(),
        decreases deps@.len() - i,
    {
        if deps[i].0.same(&package) {
            let mut changes: Vec<DepsChange> = Vec::new();
            changes.push(DepsChange::Remove(package));
            return Ok(changes);
        }
        i = i + 1;
    }
    Err(MycoError::PackageNotFound { package: package.to_string() })
}

} // verus!
