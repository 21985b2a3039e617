//! `myco.toml` and `workspace.toml`: a project's package definition, scripts,
//! registries and dependencies, and a workspace's members.
use vstd::prelude::*;

use crate::deps::location::{Location, LocationModel};
use crate::name_table::NameTable;
use crate::package_version::{version_text, PackageVersion, VersionModel};
use crate::text_map::TextMap;

verus! {

/// How a dependency is specified: a published version, or another member of
/// the same workspace.
#[derive(Debug)]
pub enum DependencyVersion {
    Version(PackageVersion),
    Workspace { workspace: bool },
}

/// What a `DependencyVersion` holds.
pub enum DependencyModel {
    Version(VersionModel),
    Workspace(bool),
}

impl View for DependencyVersion {
    type V = DependencyModel;

    open spec fn view(&self) -> DependencyModel {
        match self {
            DependencyVersion::Version(v) => DependencyModel::Version(v@),
            DependencyVersion::Workspace { workspace } => DependencyModel::Workspace(*workspace),
        }
    }
}

/// The text a dependency specification is shown as.
pub open spec fn dependency_text(d: DependencyModel) -> Seq<char> {
    match d {
        DependencyModel::Version(v) => version_text(v),
        DependencyModel::Workspace(_) => "workspace"@,
    }
}

impl DependencyVersion {
    /// The specification as text: the version, or `workspace`.
    pub fn to_string(&self) -> (r: String)
        ensures
            r@ == dependency_text(self@),
    {
        match self {
            DependencyVersion::Version(v) => v.to_string(),
            DependencyVersion::Workspace { .. } => "workspace".to_owned(),
        }
    }

    /// Whether this names another workspace member.
    pub fn is_workspace(&self) -> (r: bool)
        ensures
            r == (self@ is Workspace),
    {
        match self {
            DependencyVersion::Workspace { .. } => true,
            _ => false,
        }
    }

    /// A copy of this specification.
    pub fn duplicate(&self) -> (r: Self)
        ensures
            r@ == self@,
    {
        match self {
            DependencyVersion::Version(v) => DependencyVersion::Version(v.duplicate()),
            DependencyVersion::Workspace { workspace } => DependencyVersion::Workspace {
                workspace: *workspace,
            },
        }
    }
}

/// The `[package]` table.
#[derive(Debug)]
pub struct PackageDefinition {
    pub name: String,
    pub version: PackageVersion,
    pub description: Option<String>,
    pub author: Option<String>,
    pub license: Option<String>,
    pub pre_pack: Option<String>,
    pub packaged_files: Option<Vec<String>>,
}

/// A project manifest. `tsconfig` holds each compiler option as JSON text.
#[derive(Debug)]
pub struct MycoToml {
    pub package: Option<PackageDefinition>,
    pub run: Option<TextMap<String>>,
    pub registries: Option<TextMap<Location>>,
    pub deps: Option<NameTable<DependencyVersion>>,
    pub tsconfig: Option<TextMap<String>>,
}

impl MycoToml {
    /// Every table keeps its keys sorted and unique.
    pub open spec fn wf(&self) -> bool {
        &&& self.run matches Some(m) ==> m.wf()
        &&& self.registries matches Some(m) ==> m.wf()
        &&& self.deps matches Some(m) ==> m.wf()
        &&& self.tsconfig matches Some(m) ==> m.wf()
    }

    /// The dependency table in name order; empty when there is none.
    pub open spec fn deps_entries(&self) -> Seq<((Seq<Seq<char>>, Seq<char>), DependencyModel)> {
        match self.deps {
            Some(m) => Seq::new(m.key_seq().len(), |i: int| (m.key_seq()[i], m.value_seq()[i]@)),
            None => Seq::empty(),
        }
    }

    /// The published-version dependencies, in name order.
    pub open spec fn version_deps(&self) -> Seq<((Seq<Seq<char>>, Seq<char>), VersionModel)> {
        pinned(self.deps_entries())
    }

    /// The locations of the registries, in the order of their names.
    pub open spec fn registry_list(&self) -> Seq<LocationModel> {
        match self.registries {
            Some(m) => Seq::new(m.value_seq().len(), |i: int| m.value_seq()[i]@),
            None => Seq::empty(),
        }
    }

    /// The dependencies that name a published version, in name order, as the
    /// resolver walks them.
    pub fn clone_deps(&self) -> (r: Vec<(crate::package_name::PackageName, PackageVersion)>)
        requires
            self.wf(),
        ensures
            Seq::new(r@.len(), |i: int| (r@[i].0.name_view(), r@[i].1@)) == self.version_deps(),
    {
        let mut out: Vec<(crate::package_name::PackageName, PackageVersion)> = Vec::new();
        match &self.deps {
            None => {
                proof {
                    assert(Seq::new(out@.len(), |i: int| (out@[i].0.name_view(), out@[i].1@)) =~= self.version_deps());
                }
                out
            },
            Some(m) => {
                let ghost all = self.deps_entries();
                let mut i: usize = 0;
                while i < m.len()
                    invariant
                        m.wf(),
                        self.deps == Some(*m),
                        all == self.deps_entries(),
                        i <= m.key_seq().len(),
                        Seq::new(out@.len(), |k: int| (out@[k].0.name_view(), out@[k].1@)) == pinned(all.take(i as int)),
                    decreases m.key_seq().len() - i,
                {
                    proof {
                        m.lemma_entries();
                        assert(all.take(i + 1).drop_last() =~= all.take(i as int));
                        assert(all.take(i + 1).last() == all[i as int]);
                    }
                    let ghost before = out@;
                    match m.value_at(i) {
                        DependencyVersion::Version(v) => {
                            let name = m.key_at(i).duplicate();
                            out.push((name, v.duplicate()));
                            proof {
                                assert(Seq::new(out@.len(), |k: int| (out@[k].0.name_view(), out@[k].1@)) =~= Seq::new(
                                    before.len(),
                                    |k: int| (before[k].0.name_view(), before[k].1@),
                                ).push(
                                    (all[i as int].0, v@),
                                ));
                            }
                        },
                        DependencyVersion::Workspace { .. } => {},
                    }
                    i = i + 1;
                }
                proof {
                    assert(all.take(i as int) =~= all);
                }
                out
            },
        }
    }

    /// The locations of the registries, in the order of their names.
    pub fn registry_locations(&self) -> (r: Vec<Location>)
        requires
            self.wf(),
        ensures
            Seq::new(r@.len(), |i: int| r@[i]@) == self.registry_list(),
    {
        let mut out: Vec<Location> = Vec::new();
        match &self.registries {
            None => {
                proof {
                    assert(Seq::new(out@.len(), |i: int| out@[i]@) =~= self.registry_list());
                }
                out
            },
            Some(m) => {
                let mut i: usize = 0;
                while i < m.len()
                    invariant
                        m.wf(),
                        self.registries == Some(*m),
                        i <= m.key_seq().len(),
                        out@.len() == i,
                        forall|k: int| 0 <= k < i ==> (#[trigger] out@[k])@ == m.value_seq()[k]@,
                    decreases m.key_seq().len() - i,
                {
                    proof {
                        m.lemma_entries();
                    }
                    out.push(m.value_at(i).duplicate());
                    i = i + 1;
                }
                proof {
                    m.lemma_entries();
                    assert(Seq::new(out@.len(), |i: int| out@[i]@) =~= self.registry_list());
                }
                out
            },
        }
    }

    /// Whether the `[run]` table defines `script`.
    pub fn has_script(&self, script: &str) -> (r: bool)
        requires
            self.wf(),
        ensures
            r == (self.run matches Some(m) && m.as_map().contains_key(script@)),
    {
        match &self.run {
            Some(m) => m.get(script).is_some(),
            None => false,
        }
    }
}

/// The entries that name a published version.
pub open spec fn pinned(s: Seq<((Seq<Seq<char>>, Seq<char>), DependencyModel)>) -> Seq<((Seq<Seq<char>>, Seq<char>), VersionModel)>
    decreases s.len(),
{
    if s.len() == 0 {
        Seq::empty()
    } else {
        let rest = pinned(s.drop_last());
        match s.last().1 {
            DependencyModel::Version(v) => rest.push((s.last().0, v)),
            DependencyModel::Workspace(_) => rest,
        }
    }
}

/// The `[workspace]` table.
#[derive(Debug)]
pub struct WorkspaceDefinition {
    pub members: Vec<String>,
}

/// A workspace manifest.
#[derive(Debug)]
pub struct WorkspaceManifest {
    pub workspace: WorkspaceDefinition,
    pub run: Option<TextMap<String>>,
    pub registries: Option<TextMap<Location>>,
    pub deps: Option<NameTable<DependencyVersion>>,
    pub tsconfig: Option<TextMap<String>>,
}

} // verus!
