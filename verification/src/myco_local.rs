//! `.myco/myco-local.toml`: local overrides that resolve package names to paths.
use vstd::prelude::*;

use crate::text_map::TextMap;

verus! {

/// The local manifest: an optional table from package names to paths.
#[derive(Debug)]
pub struct MycoLocalToml {
    pub resolve: Option<TextMap<String>>,
}

impl MycoLocalToml {
    /// The table, when present, keeps its keys sorted and unique.
    pub open spec fn wf(&self) -> bool {
        self.resolve matches Some(m) ==> m.wf()
    }

    /// The resolutions as a map; an absent table resolves nothing.
    pub open spec fn resolve_map(&self) -> Map<Seq<char>, String> {
        match self.resolve {
            Some(m) => m.as_map(),
            None => Map::empty(),
        }
    }

    /// A copy of the resolutions, empty when there is no table.
    pub fn clone_resolve(&self) -> (r: TextMap<String>)
        requires
            self.wf(),
        ensures
            r.wf(),
            r.as_map() == self.resolve_map(),
    {
        match &self.resolve {
            Some(m) => m.duplicate(),
            None => TextMap::new(),
        }
    }

    /// The resolutions, empty when there is no table.
    pub fn into_resolve(self) -> (r: TextMap<String>)
        requires
            self.wf(),
        ensures
            r.wf(),
            r.as_map() == self.resolve_map(),
    {
        match self.resolve {
            Some(m) => m,
            None => TextMap::new(),
        }
    }

    /// The path that `package_name` resolves to.
    pub fn get_resolve_path(&self, package_name: &str) -> (r: Option<&String>)
        requires
            self.wf(),
        ensures
            match r {
                Some(p) => self.resolve_map().contains_key(package_name@) && self.resolve_map()[package_name@]
                    == *p,
                None => !self.resolve_map().contains_key(package_name@),
            },
    {
        match &self.resolve {
            Some(m) => m.get(package_name),
            None => None,
        }
    }

    /// Resolves `package_name` to `path`, creating the table if needed.
    pub fn add_resolve(&mut self, package_name: String, path: String)
        requires
            old(self).wf(),
        ensures
            final(self).wf(),
            final(self).resolve is Some,
            final(self).resolve_map() == old(self).resolve_map().insert(package_name@, path),
    {
        if self.resolve.is_none() {
            self.resolve = Some(TextMap::new());
        }
        match &mut self.resolve {
            Some(m) => m.insert(package_name, path),
            None => {},
        }
    }

    /// Drops the resolution of `package_name`, returning the path it had.
    pub fn remove_resolve(&mut self, package_name: &str) -> (r: Option<String>)
        requires
            old(self).wf(),
        ensures
            final(self).wf(),
            final(self).resolve is Some <==> old(self).resolve is Some,
            final(self).resolve_map() == old(self).resolve_map().remove(package_name@),
            match r {
                Some(p) => old(self).resolve_map().contains_key(package_name@)
                    && old(self).resolve_map()[package_name@] == p,
                None => !old(self).resolve_map().contains_key(package_name@),
            },
    {
        match &mut self.resolve {
            Some(m) => m.remove(package_name),
            None => {
                proof {
                    assert(Map::<Seq<char>, String>::empty().remove(package_name@) =~= Map::empty());
                }
                None
            },
        }
    }
}

impl Default for MycoLocalToml {
    fn default() -> (r: Self)
        ensures
            r.resolve is None,
    {
        MycoLocalToml { resolve: None }
    }
}

/// A resolution that was added is read back, and other names keep theirs.
pub proof fn law_resolve_read_after_add(
    before: Map<Seq<char>, String>,
    name: Seq<char>,
    path: String,
    other: Seq<char>,
)
    requires
        other != name,
    ensures
        before.insert(name, path).contains_key(name),
        before.insert(name, path)[name] == path,
        before.insert(name, path).contains_key(other) == before.contains_key(other),
        before.contains_key(other) ==> before.insert(name, path)[other] == before[other],
{
}

/// After a removal the name resolves to nothing, and other names keep theirs.
pub proof fn law_resolve_removed(before: Map<Seq<char>, String>, name: Seq<char>, other: Seq<char>)
    requires
        other != name,
    ensures
        !before.remove(name).contains_key(name),
        before.remove(name).contains_key(other) == before.contains_key(other),
        before.contains_key(other) ==> before.remove(name)[other] == before[other],
{
}

} // verus!
