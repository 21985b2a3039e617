//! Workspaces: member lookup, which members a script runs in, how members'
//! dependencies on each other are resolved, and which dependencies are
//! resolved centrally.
use vstd::prelude::*;

use crate::errors::MycoError;
use crate::myco_local::MycoLocalToml;
use crate::myco_toml::{DependencyModel, DependencyVersion, MycoToml, WorkspaceManifest};
use crate::name_table::NameTable;
use crate::package_name::{package_name_text, PackageName};
use crate::text::{append_str, opt_text, same_text, str_chars, string_from_chars};

verus! {

/// A member of a workspace: its name, its directory and its manifest.
#[derive(Debug)]
pub struct WorkspaceMember {
    pub name: String,
    pub path: String,
    pub manifest: MycoToml,
}

/// A workspace: its root directory, its manifest and its members, in the
/// order the manifest lists them.
#[derive(Debug)]
pub struct Workspace {
    pub root: String,
    pub manifest: WorkspaceManifest,
    pub members: Vec<WorkspaceMember>,
}

/// A member's name: its package name, or else the path it is listed under.
pub open spec fn member_name_spec(member_path: Seq<char>, manifest: MycoToml) -> Seq<char> {
    match manifest.package {
        Some(p) => p.name@,
        None => member_path,
    }
}

/// The name a member listed under `member_path` goes by.
pub fn member_name(member_path: &str, manifest: &MycoToml) -> (r: String)
    ensures
        r@ == member_name_spec(member_path@, *manifest),
{
    match &manifest.package {
        Some(p) => p.name.clone(),
        None => member_path.to_owned(),
    }
}

/// Index of the first member whose name is `name`.
pub open spec fn member_index(members: Seq<WorkspaceMember>, name: Seq<char>) -> Option<int>
    decreases members.len(),
{
    if members.len() == 0 {
        None
    } else if members.last().name@ == name && member_index(members.drop_last(), name) is None {
        Some(members.len() - 1)
    } else {
        member_index(members.drop_last(), name)
    }
}

/// Index of the first member whose package is named `name`.
pub open spec fn package_index(members: Seq<WorkspaceMember>, name: Seq<char>) -> Option<int>
    decreases members.len(),
{
    if members.len() == 0 {
        None
    } else if (members.last().manifest.package matches Some(p) && p.name@ == name)
        && package_index(members.drop_last(), name) is None {
        Some(members.len() - 1)
    } else {
        package_index(members.drop_last(), name)
    }
}

/// Looking a member up by name finds the first member with that name, and
/// finds nothing only when no member has it.
pub proof fn law_member_index_first(members: Seq<WorkspaceMember>, name: Seq<char>)
    ensures
        member_index(members, name) matches Some(i) ==> 0 <= i < members.len() && members[i].name@ == name
            && forall|j: int| 0 <= j < i ==> (#[trigger] members[j]).name@ != name,
        member_index(members, name) is None ==> forall|j: int| 0 <= j < members.len() ==> (#[trigger] members[j]).name@ != name,
    decreases members.len(),
{
    if members.len() > 0 {
        let init = members.drop_last();
        law_member_index_first(init, name);
        assert forall|j: int| 0 <= j < init.len() implies members[j] == #[trigger] init[j] by {}
        assert(members[members.len() - 1] == members.last());
        if member_index(init, name) is None && members.last().name@ == name {
            assert forall|j: int| 0 <= j < members.len() - 1 implies (#[trigger] members[j]).name@ != name by {
                assert(members[j] == init[j]);
            }
        }
        if let Some(i) = member_index(init, name) {
            assert forall|j: int| 0 <= j < i implies (#[trigger] members[j]).name@ != name by {
                assert(members[j] == init[j]);
            }
            assert(members[i] == init[i]);
        }
        if member_index(members, name) is None {
            assert forall|j: int| 0 <= j < members.len() implies (#[trigger] members[j]).name@ != name by {
                if j < init.len() {
                    assert(members[j] == init[j]);
                }
            }
        }
    }
}

/// Looking a member up by package name finds the first member whose package
/// has that name, and finds nothing only when none has.
pub proof fn law_package_index_first(members: Seq<WorkspaceMember>, name: Seq<char>)
    ensures
        package_index(members, name) matches Some(i) ==> 0 <= i < members.len() && (members[i].manifest.package matches Some(
            p,
        ) && p.name@ == name) && forall|j: int|
            0 <= j < i ==> !((#[trigger] members[j]).manifest.package matches Some(p) && p.name@ == name),
        package_index(members, name) is None ==> forall|j: int|
            0 <= j < members.len() ==> !((#[trigger] members[j]).manifest.package matches Some(p) && p.name@ == name),
    decreases members.len(),
{
    if members.len() > 0 {
        let init = members.drop_last();
        law_package_index_first(init, name);
        assert forall|j: int| 0 <= j < init.len() implies members[j] == #[trigger] init[j] by {}
        assert(members[members.len() - 1] == members.last());
        if package_index(init, name) is None && (members.last().manifest.package matches Some(p) && p.name@ == name) {
            assert forall|j: int| 0 <= j < members.len() - 1 implies !((#[trigger] members[j]).manifest.package matches Some(p)
                && p.name@ == name) by {
                assert(members[j] == init[j]);
            }
        }
        if let Some(i) = package_index(init, name) {
            assert forall|j: int| 0 <= j < i implies !((#[trigger] members[j]).manifest.package matches Some(p)
                && p.name@ == name) by {
                assert(members[j] == init[j]);
            }
            assert(members[i] == init[i]);
        }
        if package_index(members, name) is None {
            assert forall|j: int| 0 <= j < members.len() implies !((#[trigger] members[j]).manifest.package matches Some(p)
                && p.name@ == name) by {
                if j < init.len() {
                    assert(members[j] == init[j]);
                }
            }
        }
    }
}

impl Workspace {
    /// The first member named `name`.
    pub fn get_member(&self, name: &str) -> (r: Option<&WorkspaceMember>)
        ensures
            match member_index(self.members@, name@) {
                Some(i) => r == Some(&self.members@[i]),
                None => r is None,
            },
    {
        let mut i: usize = 0;
        while i < self.members.len()
            invariant
                i <= self.members@.len(),
                member_index(self.members@.take(i as int), name@) is None,
            decreases self.members@.len() - i,
        {
            proof {
                assert(self.members@.take(i + 1).drop_last() =~= self.members@.take(i as int));
            }
            if same_text(self.members[i].name.as_str(), name) {
                proof {
                    lemma_member_index_prefix(self.members@, i + 1, name@);
                }
                return Some(&self.members[i]);
            }
            i = i + 1;
        }
        proof {
            assert(self.members@.take(i as int) =~= self.members@);
        }
        None
    }

    /// The names of all members, in order.
    pub fn member_names(&self) -> (r: Vec<String>)
        ensures
            r@.len() == self.members@.len(),
            forall|i: int| 0 <= i < r@.len() ==> (#[trigger] r@[i])@ == self.members@[i].name@,
    {
        let mut out: Vec<String> = Vec::new();
        let mut i: usize = 0;
        while i < self.members.len()
            invariant
                i <= self.members@.len(),
                out@.len() == i,
                forall|k: int| 0 <= k < i ==> (#[trigger] out@[k])@ == self.members@[k].name@,
            decreases self.members@.len() - i,
        {
            out.push(self.members[i].name.clone());
            i = i + 1;
        }
        out
    }

    /// The first member whose package is named `name`.
    pub fn find_member_by_name(&self, name: &str) -> (r: Option<&WorkspaceMember>)
        ensures
            match package_index(self.members@, name@) {
                Some(i) => r == Some(&self.members@[i]),
                None => r is None,
            },
    {
        let mut i: usize = 0;
        while i < self.members.len()
            invariant
                i <= self.members@.len(),
                package_index(self.members@.take(i as int), name@) is None,
            decreases self.members@.len() - i,
        {
            proof {
                assert(self.members@.take(i + 1).drop_last() =~= self.members@.take(i as int));
            }
            let found = match &self.members[i].manifest.package {
                Some(p) => same_text(p.name.as_str(), name),
                None => false,
            };
            if found {
                proof {
                    lemma_package_index_prefix(self.members@, i + 1, name@);
                }
                return Some(&self.members[i]);
            }
            i = i + 1;
        }
        proof {
            assert(self.members@.take(i as int) =~= self.members@);
        }
        None
    }
}

proof fn lemma_member_index_prefix(m: Seq<WorkspaceMember>, k: int, name: Seq<char>)
    requires
        0 < k <= m.len(),
        member_index(m.take(k - 1), name) is None,
        m[k - 1].name@ == name,
    ensures
        member_index(m, name) == Some(k - 1),
    decreases m.len(),
{
    if k < m.len() {
        assert(m.drop_last().take(k - 1) =~= m.take(k - 1));
        assert(m.drop_last()[k - 1] == m[k - 1]);
        lemma_member_index_prefix(m.drop_last(), k, name);
    } else {
        assert(m.drop_last() =~= m.take(k - 1));
    }
}

proof fn lemma_package_index_prefix(m: Seq<WorkspaceMember>, k: int, name: Seq<char>)
    requires
        0 < k <= m.len(),
        package_index(m.take(k - 1), name) is None,
        m[k - 1].manifest.package matches Some(p) && p.name@ == name,
    ensures
        package_index(m, name) == Some(k - 1),
    decreases m.len(),
{
    if k < m.len() {
        assert(m.drop_last().take(k - 1) =~= m.take(k - 1));
        assert(m.drop_last()[k - 1] == m[k - 1]);
        lemma_package_index_prefix(m.drop_last(), k, name);
    } else {
        assert(m.drop_last() =~= m.take(k - 1));
    }
}

/// Whether a member's manifest defines `script`.
pub fn member_has_script(member: &WorkspaceMember, script: &str) -> (r: bool)
    requires
        member.manifest.wf(),
    ensures
        r == (member.manifest.run matches Some(m) && m.as_map().contains_key(script@)),
{
    member.manifest.has_script(script)
}

/// The member package a workspace dependency names: `@local/<name>` names
/// `<name>`; any other dependency name is taken whole.
pub open spec fn local_package_spec(dep: Seq<char>) -> Seq<char> {
    if dep.len() >= 7 && dep.take(7) == "@local/"@ {
        dep.skip(7)
    } else {
        dep
    }
}

/// The member package a workspace dependency named `dep` stands for.
pub fn local_package_name(dep: &str) -> (r: String)
    ensures
        r@ == local_package_spec(dep@),
{
    let d = str_chars(dep);
    let p = str_chars("@local/");
    proof {
        reveal_strlit("@local/");
    }
    if crate::text::starts_with_chars(d.as_slice(), p.as_slice()) {
        let rest = crate::text::slice_chars(d.as_slice(), 7, d.len());
        proof {
            assert(rest@ =~= d@.skip(7));
        }
        return string_from_chars(rest.as_slice());
    }
    string_from_chars(d.as_slice())
}

/// The relative path from `from` to `to`, when there is one.
pub uninterp spec fn relative_path_spec(to: Seq<char>, from: Seq<char>) -> Option<Seq<char>>;

/// Calls `pathdiff::diff_paths(to, from)`. Trusted: the outcome depends on
/// the two paths alone, which the name `relative_path_spec` records.
#[verifier::external_body]
fn diff_paths(to: &str, from: &str) -> (r: Option<String>)
    ensures
        opt_text(r) == relative_path_spec(to@, from@),
{
    pathdiff::diff_paths(to, from).map(|p| p.to_string_lossy().into_owned())
}

/// The message for a relative path that cannot be computed.
pub open spec fn no_relative_path_text(from: Seq<char>, to: Seq<char>) -> Seq<char> {
    "Could not calculate relative path from "@ + from + " to "@ + to
}

/// The path from member directory `from` to member directory `to`.
pub fn calculate_relative_path(from: &str, to: &str) -> (r: Result<String, MycoError>)
    ensures
        match relative_path_spec(to@, from@) {
            Some(p) => r matches Ok(s) && s@ == p,
            None => r matches Err(MycoError::Internal { message }) && message@ == no_relative_path_text(from@, to@),
        },
{
    match diff_paths(to, from) {
        Some(p) => Ok(p),
        None => {
            let mut m: Vec<char> = Vec::new();
            append_str(&mut m, "Could not calculate relative path from ");
            append_str(&mut m, from);
            append_str(&mut m, " to ");
            append_str(&mut m, to);
            proof {
                assert(m@ =~= no_relative_path_text(from@, to@));
            }
            Err(MycoError::Internal { message: string_from_chars(m.as_slice()) })
        },
    }
}

/// The message for a workspace dependency that names no member.
pub open spec fn missing_member_text(dep: Seq<char>, package: Seq<char>) -> Seq<char> {
    "Workspace dependency '"@ + dep + "' (resolved to '"@ + package
        + "') not found in workspace members"@
}

/// Why a member's workspace dependencies cannot be mapped.
pub enum LocalFailure {
    /// No member has the package (reported as a dependency-resolution error).
    Missing(Seq<char>),
    /// No relative path leads to the member (reported as an internal error).
    NoPath(Seq<char>),
}

/// The paths that the workspace dependencies among `entries` resolve to from
/// the member directory `from`: each `{ workspace = true }` dependency maps
/// its name to the relative path of the member whose package it names
/// (`@local/<name>` naming `<name>`). The first dependency that cannot be
/// mapped decides the failure.
pub open spec fn local_resolves(
    entries: Seq<((Seq<Seq<char>>, Seq<char>), DependencyModel)>,
    members: Seq<WorkspaceMember>,
    from: Seq<char>,
) -> Result<Map<Seq<char>, Seq<char>>, LocalFailure>
    decreases entries.len(),
{
    if entries.len() == 0 {
        Ok(Map::empty())
    } else {
        match local_resolves(entries.drop_last(), members, from) {
            Err(e) => Err(e),
            Ok(m) => {
                let (n, d) = entries.last();
                match d {
                    DependencyModel::Version(_) => Ok(m),
                    DependencyModel::Workspace(_) => {
                        let dep = package_name_text(n.0, n.1);
                        let pkg = local_package_spec(dep);
                        match package_index(members, pkg) {
                            None => Err(LocalFailure::Missing(missing_member_text(dep, pkg))),
                            Some(t) => match relative_path_spec(members[t].path@, from) {
                                None => Err(
                                    LocalFailure::NoPath(no_relative_path_text(from, members[t].path@)),
                                ),
                                Some(rel) => Ok(m.insert(dep, rel)),
                            },
                        }
                    },
                }
            },
        }
    }
}

proof fn lemma_local_resolves_prefix_err(
    entries: Seq<((Seq<Seq<char>>, Seq<char>), DependencyModel)>,
    members: Seq<WorkspaceMember>,
    from: Seq<char>,
    k: int,
)
    requires
        0 <= k <= entries.len(),
        local_resolves(entries.take(k), members, from) is Err,
    ensures
        local_resolves(entries, members, from) == local_resolves(entries.take(k), members, from),
    decreases entries.len(),
{
    if k == entries.len() {
        assert(entries.take(k) =~= entries);
    } else {
        assert(entries.drop_last().take(k) =~= entries.take(k));
        lemma_local_resolves_prefix_err(entries.drop_last(), members, from, k);
    }
}

/// Whether a local manifest's table holds exactly the resolutions of `m`.
pub open spec fn mirrors(t: MycoLocalToml, m: Map<Seq<char>, Seq<char>>) -> bool {
    forall|k: Seq<char>| #[trigger] t.resolve_map().contains_key(k) == m.contains_key(k) && (
    m.contains_key(k) ==> t.resolve_map()[k]@ == m[k])
}

/// Whether any of `entries` is a workspace dependency.
pub open spec fn has_workspace_dep(entries: Seq<((Seq<Seq<char>>, Seq<char>), DependencyModel)>) -> bool {
    exists|i: int| 0 <= i < entries.len() && (#[trigger] entries[i]).1 is Workspace
}

#[verifier::spinoff_prover]
#[verifier::rlimit(30)]
/// The local manifest a member needs for its workspace dependencies:
/// `None` when it has none, else a table from each such dependency's name to
/// the relative path of the member it names.
pub fn member_local_manifest(workspace: &Workspace, member: &WorkspaceMember) -> (r: Result<Option<MycoLocalToml>, MycoError>)
    requires
        member.manifest.wf(),
    ensures
        match local_resolves(member.manifest.deps_entries(), workspace.members@, member.path@) {
            Ok(m) => r matches Ok(o) && if has_workspace_dep(member.manifest.deps_entries()) {
                o matches Some(t) && t.wf() && mirrors(t, m)
            } else {
                o is None
            },
            Err(LocalFailure::Missing(text)) => r matches Err(MycoError::DependencyResolution { message })
                && message@ == text,
            Err(LocalFailure::NoPath(text)) => r matches Err(MycoError::Internal { message })
                && message@ == text,
        },
{
    let mut local = MycoLocalToml::default();
    let mut any = false;
    let ghost entries = member.manifest.deps_entries();
    match &member.manifest.deps {
        None => {
            proof {
                assert(entries.len() == 0);
                assert(!has_workspace_dep(entries));
                assert(local_resolves(entries, workspace.members@, member.path@) == Ok::<Map<Seq<char>, Seq<char>>, LocalFailure>(Map::empty()));
            }
            return Ok(None);
        },
        Some(deps) => {
            let mut i: usize = 0;
            while i < deps.len()
                invariant
                    deps.wf(),
                    member.manifest.deps == Some(*deps),
                    entries == member.manifest.deps_entries(),
                    i <= deps.key_seq().len(),
                    local.wf(),
                    any == has_workspace_dep(entries.take(i as int)),
                    any ==> local.resolve is Some,
                    local_resolves(entries.take(i as int), workspace.members@, member.path@) is Ok,
                    mirrors(local, local_resolves(entries.take(i as int), workspace.members@, member.path@)->Ok_0),
                decreases deps.key_seq().len() - i,
            {
                proof {
                    deps.lemma_entries();
                    assert(entries.take(i + 1).drop_last() =~= entries.take(i as int));
                    assert(entries.take(i + 1).last() == entries[i as int]);
                    assert(has_workspace_dep(entries.take(i + 1)) == (has_workspace_dep(entries.take(i as int)) || entries[i as int].1 is Workspace)) by {
                        if has_workspace_dep(entries.take(i + 1)) {
                            let k = choose|k: int| 0 <= k < entries.take(i + 1).len() && (#[trigger] entries.take(i + 1)[k]).1 is Workspace;
                            if k < i {
                                assert(entries.take(i as int)[k] == entries.take(i + 1)[k]);
                            }
                        }
                        if has_workspace_dep(entries.take(i as int)) {
                            let k = choose|k: int| 0 <= k < entries.take(i as int).len() && (#[trigger] entries.take(i as int)[k]).1 is Workspace;
                            assert(entries.take(i + 1)[k] == entries.take(i as int)[k]);
                        }
                        if entries[i as int].1 is Workspace {
                            assert(entries.take(i + 1)[i as int] == entries[i as int]);
                        }
                    }
                }
                let ghost before = local.resolve_map();
                let ghost m0 = local_resolves(entries.take(i as int), workspace.members@, member.path@)->Ok_0;
                if deps.value_at(i).is_workspace() {
                    any = true;
                    let dep = deps.key_at(i).to_string();
                    let pkg = local_package_name(dep.as_str());
                    match workspace.find_member_by_name(pkg.as_str()) {
                        Some(target) => {
                            let rel = match calculate_relative_path(member.path.as_str(), target.path.as_str()) {
                                Ok(p) => p,
                                Err(e) => {
                                    proof {
                                        lemma_local_resolves_prefix_err(entries, workspace.members@, member.path@, i + 1);
                                    }
                                    return Err(e);
                                },
                            };
                            let ghost relv = rel@;
                            local.add_resolve(dep, rel);
                            proof {
                                let m1 = m0.insert(dep@, relv);
                                assert(local_resolves(entries.take(i + 1), workspace.members@, member.path@) == Ok::<Map<Seq<char>, Seq<char>>, LocalFailure>(m1));
                                assert forall|k: Seq<char>| #[trigger] local.resolve_map().contains_key(k) == m1.contains_key(k)
                                    && (m1.contains_key(k) ==> local.resolve_map()[k]@ == m1[k]) by {
                                    if k != dep@ {
                                        assert(before.contains_key(k) == m0.contains_key(k));
                                    }
                                }
                                assert(mirrors(local, m1));
                            }
                        },
                        None => {
                            let mut m: Vec<char> = Vec::new();
                            append_str(&mut m, "Workspace dependency '");
                            append_str(&mut m, dep.as_str());
                            append_str(&mut m, "' (resolved to '");
                            append_str(&mut m, pkg.as_str());
                            append_str(&mut m, "') not found in workspace members");
                            proof {
                                assert(m@ =~= missing_member_text(dep@, pkg@));
                                lemma_local_resolves_prefix_err(entries, workspace.members@, member.path@, i + 1);
                            }
                            return Err(MycoError::DependencyResolution { message: string_from_chars(m.as_slice()) });
                        },
                    }
                } else {
                    proof {
                        assert(entries[i as int].1 == deps.value_seq()[i as int]@);
                        assert(entries[i as int].1 is Version);
                        assert(local_resolves(entries.take(i + 1), workspace.members@, member.path@) == Ok::<Map<Seq<char>, Seq<char>>, LocalFailure>(m0));
                    }
                }
                i = i + 1;
            }
            proof {
                deps.lemma_entries();
                assert(entries.take(i as int) =~= entries);
                assert(has_workspace_dep(entries) == any);
            }
            if any {
                Ok(Some(local))
            } else {
                Ok(None)
            }
        },
    }
}

// ---------------------------------------------------------------------------
// Dependencies resolved centrally
// ---------------------------------------------------------------------------

/// The published-version dependencies among `entries`, as a table.
pub open spec fn external_map(entries: Seq<((Seq<Seq<char>>, Seq<char>), DependencyModel)>) -> Map<
    (Seq<Seq<char>>, Seq<char>),
    DependencyModel,
>
    decreases entries.len(),
{
    if entries.len() == 0 {
        Map::empty()
    } else {
        let m = external_map(entries.drop_last());
        match entries.last().1 {
            DependencyModel::Version(_) => m.insert(entries.last().0, entries.last().1),
            DependencyModel::Workspace(_) => m,
        }
    }
}

/// Keeping the published-version dependencies keeps exactly those: every
/// entry kept is a published version that one of the entries gives for its
/// name, and every name with a published-version entry is kept.
pub proof fn law_external_map_keeps_versions(entries: Seq<((Seq<Seq<char>>, Seq<char>), DependencyModel)>)
    ensures
        forall|k: (Seq<Seq<char>>, Seq<char>)| #[trigger] external_map(entries).dom().contains(k) ==> {
            &&& external_map(entries)[k] is Version
            &&& exists|i: int| 0 <= i < entries.len() && #[trigger] entries[i] == (k, external_map(entries)[k])
        },
        forall|i: int|
            0 <= i < entries.len() && (#[trigger] entries[i]).1 is Version ==> external_map(entries).dom().contains(
                entries[i].0,
            ),
    decreases entries.len(),
{
    if entries.len() > 0 {
        let init = entries.drop_last();
        law_external_map_keeps_versions(init);
        let last = entries.len() - 1;
        assert(entries[last] == entries.last());
        assert forall|i: int| 0 <= i < init.len() implies entries[i] == #[trigger] init[i] by {}
        let m = external_map(entries);
        assert forall|k: (Seq<Seq<char>>, Seq<char>)| #[trigger] m.dom().contains(k) implies {
            &&& m[k] is Version
            &&& exists|i: int| 0 <= i < entries.len() && #[trigger] entries[i] == (k, m[k])
        } by {
            if entries.last().1 is Version && k == entries.last().0 {
                assert(entries[last] == (k, m[k]));
            } else {
                let i = choose|i: int| 0 <= i < init.len() && #[trigger] init[i] == (k, external_map(init)[k]);
                assert(entries[i] == (k, m[k]));
            }
        }
        assert forall|i: int| 0 <= i < entries.len() && (#[trigger] entries[i]).1 is Version implies m.dom().contains(
            entries[i].0,
        ) by {
            if i < init.len() {
                assert(entries[i] == init[i]);
            }
        }
    }
}

/// The dependencies that the workspace resolves at its root: every member's
/// published-version dependencies, a later member's entry replacing an
/// earlier one of the same name.
pub open spec fn aggregated(members: Seq<WorkspaceMember>) -> Map<(Seq<Seq<char>>, Seq<char>), DependencyModel>
    decreases members.len(),
{
    if members.len() == 0 {
        Map::empty()
    } else {
        aggregated(members.drop_last()).union_prefer_right(
            external_map(members.last().manifest.deps_entries()),
        )
    }
}

/// The root resolves each name some member depends on at a published version,
/// and nothing else: every name a member gives a published version is there,
/// every entry there is a published version one member gives for its name,
/// and a member's entry wins over those of the members before it.
pub proof fn law_aggregated_covers_members(members: Seq<WorkspaceMember>)
    ensures
        forall|i: int, k: (Seq<Seq<char>>, Seq<char>)|
            0 <= i < members.len() && #[trigger] external_map(members[i].manifest.deps_entries()).dom().contains(k)
                ==> aggregated(members).dom().contains(k),
        forall|k: (Seq<Seq<char>>, Seq<char>)| #[trigger] aggregated(members).dom().contains(k) ==> {
            &&& aggregated(members)[k] is Version
            &&& exists|i: int|
                0 <= i < members.len() && #[trigger] external_map(members[i].manifest.deps_entries()).dom().contains(k)
                    && external_map(members[i].manifest.deps_entries())[k] == aggregated(members)[k]
        },
        members.len() > 0 ==> forall|k: (Seq<Seq<char>>, Seq<char>)|
            #[trigger] external_map(members.last().manifest.deps_entries()).dom().contains(k) ==> aggregated(members)[k]
                == external_map(members.last().manifest.deps_entries())[k],
    decreases members.len(),
{
    if members.len() > 0 {
        let init = members.drop_last();
        law_aggregated_covers_members(init);
        let last = members.len() - 1;
        assert(members[last] == members.last());
        assert forall|i: int| 0 <= i < init.len() implies members[i] == #[trigger] init[i] by {}
        let em = external_map(members.last().manifest.deps_entries());
        law_external_map_keeps_versions(members.last().manifest.deps_entries());
        let a = aggregated(members);
        assert forall|i: int, k: (Seq<Seq<char>>, Seq<char>)|
            0 <= i < members.len() && #[trigger] external_map(members[i].manifest.deps_entries()).dom().contains(k)
                implies a.dom().contains(k) by {
            if i < init.len() {
                assert(members[i] == init[i]);
            }
        }
        assert forall|k: (Seq<Seq<char>>, Seq<char>)| #[trigger] a.dom().contains(k) implies {
            &&& a[k] is Version
            &&& exists|i: int|
                0 <= i < members.len() && #[trigger] external_map(members[i].manifest.deps_entries()).dom().contains(k)
                    && external_map(members[i].manifest.deps_entries())[k] == a[k]
        } by {
            if em.dom().contains(k) {
                assert(external_map(members[last].manifest.deps_entries()).dom().contains(k));
            } else {
                let i = choose|i: int|
                    0 <= i < init.len() && #[trigger] external_map(init[i].manifest.deps_entries()).dom().contains(k)
                        && external_map(init[i].manifest.deps_entries())[k] == aggregated(init)[k];
                assert(members[i] == init[i]);
                assert(external_map(members[i].manifest.deps_entries()).dom().contains(k));
            }
        }
    }
}

/// A table's entries by their views.
pub open spec fn table_view(t: NameTable<DependencyVersion>) -> Map<(Seq<Seq<char>>, Seq<char>), DependencyModel> {
    t.as_map().map_values(|v: DependencyVersion| v@)
}

/// Adds the published-version entries of `from` to `into`, replacing entries of the same name.
fn add_external(into: &mut NameTable<DependencyVersion>, from: &NameTable<DependencyVersion>)
    requires
        old(into).wf(),
        from.wf(),
    ensures
        final(into).wf(),
        table_view(*final(into)) == table_view(*old(into)).union_prefer_right(
            external_map(Seq::new(from.key_seq().len(), |i: int| (from.key_seq()[i], from.value_seq()[i]@))),
        ),
{
    let ghost entries = Seq::new(from.key_seq().len(), |i: int| (from.key_seq()[i], from.value_seq()[i]@));
    let ghost start = table_view(*into);
    let mut i: usize = 0;
    proof {
        assert(entries.take(0) =~= Seq::<((Seq<Seq<char>>, Seq<char>), DependencyModel)>::empty());
        assert(start.union_prefer_right(Map::empty()) =~= start);
    }
    while i < from.len()
        invariant
            from.wf(),
            into.wf(),
            i <= from.key_seq().len(),
            entries == Seq::new(from.key_seq().len(), |i: int| (from.key_seq()[i], from.value_seq()[i]@)),
            table_view(*into) == start.union_prefer_right(external_map(entries.take(i as int))),
        decreases from.key_seq().len() - i,
    {
        proof {
            assert(entries.take(i + 1).drop_last() =~= entries.take(i as int));
            assert(entries.take(i + 1).last() == entries[i as int]);
        }
        let v = from.value_at(i);
        if !v.is_workspace() {
            let ghost before = *into;
            let k = from.key_at(i).duplicate();
            let ghost kv = k.name_view();
            let d = v.duplicate();
            let ghost dv = d@;
            into.insert(k, d);
            proof {
                assert(table_view(*into) =~= table_view(before).insert(kv, dv));
                assert(start.union_prefer_right(external_map(entries.take(i + 1))) =~= start.union_prefer_right(
                    external_map(entries.take(i as int)),
                ).insert(kv, dv));
            }
        }
        i = i + 1;
    }
    proof {
        assert(entries.take(i as int) =~= entries);
    }
}

/// The dependencies the workspace resolves at its root, across all members.
pub fn aggregate_external_deps(members: &Vec<WorkspaceMember>) -> (r: NameTable<DependencyVersion>)
    requires
        forall|i: int| 0 <= i < members@.len() ==> (#[trigger] members@[i]).manifest.wf(),
    ensures
        r.wf(),
        table_view(r) == aggregated(members@),
{
    let mut out: NameTable<DependencyVersion> = NameTable::new();
    let mut i: usize = 0;
    proof {
        assert(table_view(out) =~= Map::<(Seq<Seq<char>>, Seq<char>), DependencyModel>::empty());
        assert(members@.take(0) =~= Seq::<WorkspaceMember>::empty());
    }
    while i < members.len()
        invariant
            i <= members@.len(),
            out.wf(),
            forall|j: int| 0 <= j < members@.len() ==> (#[trigger] members@[j]).manifest.wf(),
            table_view(out) == aggregated(members@.take(i as int)),
        decreases members@.len() - i,
    {
        proof {
            assert(members@.take(i + 1).drop_last() =~= members@.take(i as int));
            assert(members@.take(i + 1).last() == members@[i as int]);
        }
        match &members[i].manifest.deps {
            Some(d) => {
                add_external(&mut out, d);
                proof {
                    assert(members@[i as int].manifest.deps_entries() == Seq::new(
                        d.key_seq().len(),
                        |k: int| (d.key_seq()[k], d.value_seq()[k]@),
                    ));
                }
            },
            None => {
                proof {
                    assert(members@[i as int].manifest.deps_entries().len() == 0);
                    assert(table_view(out).union_prefer_right(Map::empty()) =~= table_view(out));
                }
            },
        }
        i = i + 1;
    }
    proof {
        assert(members@.take(i as int) =~= members@);
    }
    out
}

/// A member's dependencies without its workspace dependencies, or `None` when
/// it has no published-version dependency left.
pub fn external_deps(deps: &Option<NameTable<DependencyVersion>>) -> (r: Option<NameTable<DependencyVersion>>)
    requires
        deps matches Some(d) ==> d.wf(),
    ensures
        match deps {
            None => r is None,
            Some(d) => {
                let m = external_map(Seq::new(d.key_seq().len(), |i: int| (d.key_seq()[i], d.value_seq()[i]@)));
                if m.dom().len() == 0 {
                    r is None
                } else {
                    r matches Some(t) && t.wf() && table_view(t) == m
                }
            },
        },
{
    match deps {
        None => None,
        Some(d) => {
            let mut t: NameTable<DependencyVersion> = NameTable::new();
            proof {
                assert(table_view(t) =~= Map::<(Seq<Seq<char>>, Seq<char>), DependencyModel>::empty());
            }
            add_external(&mut t, d);
            let ghost m = external_map(Seq::new(d.key_seq().len(), |i: int| (d.key_seq()[i], d.value_seq()[i]@)));
            proof {
                assert(Map::<(Seq<Seq<char>>, Seq<char>), DependencyModel>::empty().union_prefer_right(m) =~= m);
                t.lemma_entries();
                lemma_external_map_finite(Seq::new(d.key_seq().len(), |i: int| (d.key_seq()[i], d.value_seq()[i]@)));
            }
            if t.len() == 0 {
                proof {
                    assert(m.dom() =~= Set::<(Seq<Seq<char>>, Seq<char>)>::empty());
                }
                None
            } else {
                proof {
                    let k0 = t.key_seq()[0];
                    assert(t.as_map().contains_key(k0));
                    assert(m.dom().contains(k0));
                    assert(m.dom().len() > 0);
                }
                Some(t)
            }
        },
    }
}

proof fn lemma_external_map_finite(entries: Seq<((Seq<Seq<char>>, Seq<char>), DependencyModel)>)
    ensures
        external_map(entries).dom().finite(),
    decreases entries.len(),
{
    if entries.len() > 0 {
        lemma_external_map_finite(entries.drop_last());
    }
}

// ---------------------------------------------------------------------------
// Running a script across members
// ---------------------------------------------------------------------------

/// Which members a workspace script runs in, and which requested packages
/// lack it.
pub struct ScriptPlan {
    /// Indices of the members to run in, in order.
    pub members: Vec<usize>,
    /// Requested packages that do not define the script.
    pub missing_script: Vec<String>,
}

/// The message for a requested package that no member is.
pub open spec fn unknown_package_text(name: Seq<char>) -> Seq<char> {
    "Package '"@ + name + "' not found in workspace"@
}

/// Whether a member defines `script`.
pub open spec fn defines(m: WorkspaceMember, script: Seq<char>) -> bool {
    m.manifest.run matches Some(t) && t.as_map().contains_key(script)
}

/// The texts of a list of strings.
pub open spec fn texts(v: Seq<String>) -> Seq<Seq<char>> {
    Seq::new(v.len(), |i: int| v[i]@)
}

/// The members that named packages run a script in: for each name, in order,
/// the member it names when that member defines the script.
pub open spec fn named_runners(ms: Seq<WorkspaceMember>, names: Seq<Seq<char>>, script: Seq<char>) -> Seq<usize>
    decreases names.len(),
{
    if names.len() == 0 {
        Seq::empty()
    } else {
        let before = named_runners(ms, names.drop_last(), script);
        match member_index(ms, names.last()) {
            Some(i) => if defines(ms[i], script) {
                before.push(i as usize)
            } else {
                before
            },
            None => before,
        }
    }
}

/// The named packages that are members but do not define the script, in order.
pub open spec fn named_without_script(ms: Seq<WorkspaceMember>, names: Seq<Seq<char>>, script: Seq<char>) -> Seq<Seq<char>>
    decreases names.len(),
{
    if names.len() == 0 {
        Seq::empty()
    } else {
        let before = named_without_script(ms, names.drop_last(), script);
        match member_index(ms, names.last()) {
            Some(i) => if defines(ms[i], script) {
                before
            } else {
                before.push(names.last())
            },
            None => before,
        }
    }
}

/// Whether `name` names a member that does not define `script`.
pub open spec fn names_member_without(ms: Seq<WorkspaceMember>, name: Seq<char>, script: Seq<char>) -> bool {
    member_index(ms, name) matches Some(i) && !defines(ms[i], script)
}

/// With package filters, every named member lands on one side: it is run in
/// when it defines the script and listed as missing it when it does not; each
/// member run in defines the script and is named by a filter, and each name
/// listed as missing is a filter naming a member without the script.
pub proof fn law_filters_split_members(ms: Seq<WorkspaceMember>, names: Seq<Seq<char>>, script: Seq<char>)
    requires
        ms.len() <= usize::MAX,
    ensures
        forall|f: int|
            0 <= f < names.len() && #[trigger] member_index(ms, names[f]) is Some ==> (if defines(
                ms[member_index(ms, names[f])->Some_0],
                script,
            ) {
                named_runners(ms, names, script).contains(member_index(ms, names[f])->Some_0 as usize)
            } else {
                named_without_script(ms, names, script).contains(names[f])
            }),
        forall|k: int|
            0 <= k < named_runners(ms, names, script).len() ==> exists|f: int|
                0 <= f < names.len() && #[trigger] member_index(ms, names[f]) == Some(
                    (#[trigger] named_runners(ms, names, script)[k]) as int,
                ) && defines(ms[named_runners(ms, names, script)[k] as int], script),
        forall|k: int|
            #![trigger named_without_script(ms, names, script)[k]]
            0 <= k < named_without_script(ms, names, script).len() ==> exists|f: int|
                #![trigger names[f]]
                0 <= f < names.len() && names[f] == named_without_script(ms, names, script)[k]
                    && names_member_without(ms, names[f], script),
    decreases names.len(),
{
    if names.len() > 0 {
        let init = names.drop_last();
        law_filters_split_members(ms, init, script);
        let last = names.len() - 1;
        assert(names[last] == names.last());
        assert forall|f: int| 0 <= f < init.len() implies names[f] == #[trigger] init[f] by {}
        let r = named_runners(ms, names, script);
        let rb = named_runners(ms, init, script);
        let w = named_without_script(ms, names, script);
        let wb = named_without_script(ms, init, script);
        assert forall|f: int|
            0 <= f < names.len() && #[trigger] member_index(ms, names[f]) is Some implies (if defines(
                ms[member_index(ms, names[f])->Some_0],
                script,
            ) {
                r.contains(member_index(ms, names[f])->Some_0 as usize)
            } else {
                w.contains(names[f])
            }) by {
            let i = member_index(ms, names[f])->Some_0;
            law_member_index_first(ms, names[f]);
            if f < init.len() {
                assert(names[f] == init[f]);
                assert(member_index(ms, init[f]) == Some(i));
                if defines(ms[i], script) {
                    let k = choose|k: int| 0 <= k < rb.len() && rb[k] == i as usize;
                    assert(r[k] == rb[k]);
                } else {
                    let k = choose|k: int| 0 <= k < wb.len() && wb[k] == init[f];
                    assert(w[k] == wb[k]);
                }
            } else {
                if defines(ms[i], script) {
                    assert(r[r.len() - 1] == i as usize);
                } else {
                    assert(w[w.len() - 1] == names[f]);
                }
            }
        }
        assert forall|k: int| 0 <= k < r.len() implies exists|f: int|
            0 <= f < names.len() && #[trigger] member_index(ms, names[f]) == Some((#[trigger] r[k]) as int) && defines(
                ms[r[k] as int],
                script,
            ) by {
            if k < rb.len() {
                assert(r[k] == rb[k]);
                let f = choose|f: int|
                    0 <= f < init.len() && #[trigger] member_index(ms, init[f]) == Some((#[trigger] rb[k]) as int) && defines(
                        ms[rb[k] as int],
                        script,
                    );
                assert(names[f] == init[f]);
            } else {
                law_member_index_first(ms, names.last());
                let i = member_index(ms, names.last())->Some_0;
                assert(r[k] == i as usize);
                assert(member_index(ms, names[last]) == Some(r[k] as int));
            }
        }
        assert forall|k: int| #![trigger w[k]] 0 <= k < w.len() implies exists|f: int|
            #![trigger names[f]]
            0 <= f < names.len() && names[f] == w[k] && names_member_without(ms, names[f], script) by {
            if k < wb.len() {
                assert(w[k] == wb[k]);
                let f = choose|f: int|
                    #![trigger init[f]]
                    0 <= f < init.len() && init[f] == wb[k] && names_member_without(ms, init[f], script);
                assert(names[f] == init[f]);
            } else {
                assert(names[last] == w[k]);
                assert(member_index(ms, names[last]) is Some && !defines(ms[member_index(ms, names[last])->Some_0], script));
                assert(names_member_without(ms, names[last], script));
            }
        }
    }
}

/// Plans a workspace script run. Without filters it runs in every member that
/// defines the script, in order. With filters it runs in each named member
/// that defines it, in the order named, noting those that do not; a name that
/// is no member is an error.
pub fn plan_script(workspace: &Workspace, script: &str, package_filters: &Vec<String>) -> (r: Result<ScriptPlan, MycoError>)
    requires
        forall|i: int| 0 <= i < workspace.members@.len() ==> (#[trigger] workspace.members@[i]).manifest.wf(),
    ensures
        match r {
            Ok(plan) => {
                &&& forall|k: int| 0 <= k < plan.members@.len() ==> (#[trigger] plan.members@[k]) < workspace.members@.len()
                    && defines(workspace.members@[plan.members@[k] as int], script@)
                &&& package_filters@.len() == 0 ==> {
                    &&& plan.missing_script@.len() == 0
                    &&& forall|i: int| 0 <= i < workspace.members@.len() ==> (defines(#[trigger] workspace.members@[i], script@)
                        <==> plan.members@.contains(i as usize))
                    &&& forall|a: int, b: int| 0 <= a < b < plan.members@.len() ==> plan.members@[a] < plan.members@[b]
                }
                &&& package_filters@.len() > 0 ==> forall|f: int| 0 <= f < package_filters@.len() ==>
                    member_index(workspace.members@, (#[trigger] package_filters@[f])@) is Some
                &&& package_filters@.len() > 0 ==> plan.members@ == named_runners(
                    workspace.members@,
                    texts(package_filters@),
                    script@,
                )
                &&& package_filters@.len() > 0 ==> texts(plan.missing_script@) == named_without_script(
                    workspace.members@,
                    texts(package_filters@),
                    script@,
                )
            },
            Err(e) => package_filters@.len() > 0 && exists|f: int| 0 <= f < package_filters@.len()
                && member_index(workspace.members@, (#[trigger] package_filters@[f])@) is None
                && (e matches MycoError::Internal { message } && message@ == unknown_package_text(package_filters@[f]@)),
        },
{
    let mut members: Vec<usize> = Vec::new();
    let mut missing_script: Vec<String> = Vec::new();
    if package_filters.len() == 0 {
        let mut i: usize = 0;
        while i < workspace.members.len()
            invariant
                i <= workspace.members@.len(),
                forall|j: int| 0 <= j < workspace.members@.len() ==> (#[trigger] workspace.members@[j]).manifest.wf(),
                forall|k: int| 0 <= k < members@.len() ==> (#[trigger] members@[k]) < i
                    && defines(workspace.members@[members@[k] as int], script@),
                forall|j: int| 0 <= j < i ==> (defines(#[trigger] workspace.members@[j], script@) <==> members@.contains(j as usize)),
                forall|a: int, b: int| 0 <= a < b < members@.len() ==> members@[a] < members@[b],
                missing_script@.len() == 0,
            decreases workspace.members@.len() - i,
        {
            let ghost before = members@;
            if member_has_script(&workspace.members[i], script) {
                members.push(i);
                proof {
                    assert forall|j: int| 0 <= j < i + 1 implies (defines(#[trigger] workspace.members@[j], script@) <==> members@.contains(j as usize)) by {
                        if j < i {
                            if before.contains(j as usize) {
                                let k = choose|k: int| 0 <= k < before.len() && before[k] == j as usize;
                                assert(members@[k] == j as usize);
                            }
                            if members@.contains(j as usize) {
                                let k = choose|k: int| 0 <= k < members@.len() && members@[k] == j as usize;
                                if k < before.len() {
                                    assert(before[k] == j as usize);
                                }
                            }
                        } else {
                            assert(members@[before.len() as int] == i);
                        }
                    }
                }
            } else {
                proof {
                    assert forall|j: int| 0 <= j < i + 1 implies (defines(#[trigger] workspace.members@[j], script@) <==> members@.contains(j as usize)) by {
                        if j == i {
                            if members@.contains(j as usize) {
                                let k = choose|k: int| 0 <= k < members@.len() && members@[k] == j as usize;
                            }
                        }
                    }
                }
            }
            i = i + 1;
        }
        return Ok(ScriptPlan { members, missing_script });
    }
    let mut f: usize = 0;
    while f < package_filters.len()
        invariant
            f <= package_filters@.len(),
            package_filters@.len() > 0,
            forall|j: int| 0 <= j < workspace.members@.len() ==> (#[trigger] workspace.members@[j]).manifest.wf(),
            forall|k: int| 0 <= k < members@.len() ==> (#[trigger] members@[k]) < workspace.members@.len()
                && defines(workspace.members@[members@[k] as int], script@),
            forall|g: int| 0 <= g < f ==> member_index(workspace.members@, (#[trigger] package_filters@[g])@) is Some,
            members@ == named_runners(workspace.members@, texts(package_filters@).take(f as int), script@),
            texts(missing_script@) == named_without_script(workspace.members@, texts(package_filters@).take(f as int), script@),
        decreases package_filters@.len() - f,
    {
        let ghost names = texts(package_filters@);
        proof {
            assert(names.take(f + 1).drop_last() =~= names.take(f as int));
            assert(names.take(f + 1).last() == package_filters@[f as int]@);
        }
        let name = package_filters[f].as_str();
        let found = workspace.get_member(name);
        match found {
            Some(m) => {
                proof {
                    lemma_member_index_bounds(workspace.members@, name@);
                }
                if member_has_script(m, script) {
                    members.push(idx_of(workspace, name));
                } else {
                    let ghost before = missing_script@;
                    missing_script.push(package_filters[f].clone());
                    proof {
                        assert(texts(missing_script@) =~= texts(before).push(package_filters@[f as int]@));
                    }
                }
            },
            None => {
                let mut msg: Vec<char> = Vec::new();
                append_str(&mut msg, "Package '");
                append_str(&mut msg, name);
                append_str(&mut msg, "' not found in workspace");
                proof {
                    assert(msg@ =~= unknown_package_text(package_filters@[f as int]@));
                }
                return Err(MycoError::Internal { message: string_from_chars(msg.as_slice()) });
            },
        }
        f = f + 1;
    }
    proof {
        assert(texts(package_filters@).take(f as int) =~= texts(package_filters@));
    }
    Ok(ScriptPlan { members, missing_script })
}

proof fn lemma_member_index_bounds(m: Seq<WorkspaceMember>, name: Seq<char>)
    ensures
        member_index(m, name) matches Some(i) ==> 0 <= i < m.len() && m[i].name@ == name,
    decreases m.len(),
{
    if m.len() > 0 {
        lemma_member_index_bounds(m.drop_last(), name);
        if let Some(i) = member_index(m.drop_last(), name) {
            assert(m[i] == m.drop_last()[i]);
        }
    }
}

/// The index of the first member named `name`, which must exist.
fn idx_of(workspace: &Workspace, name: &str) -> (r: usize)
    requires
        member_index(workspace.members@, name@) is Some,
    ensures
        member_index(workspace.members@, name@) == Some(r as int),
{
    let mut i: usize = 0;
    while i < workspace.members.len()
        invariant
            i <= workspace.members@.len(),
            member_index(workspace.members@, name@) is Some,
            member_index(workspace.members@.take(i as int), name@) is None,
        decreases workspace.members@.len() - i,
    {
        proof {
            assert(workspace.members@.take(i + 1).drop_last() =~= workspace.members@.take(i as int));
        }
        if same_text(workspace.members[i].name.as_str(), name) {
            proof {
                lemma_member_index_prefix(workspace.members@, i + 1, name@);
            }
            return i;
        }
        i = i + 1;
    }
    proof {
        assert(workspace.members@.take(i as int) =~= workspace.members@);
    }
    0
}

} // verus!
