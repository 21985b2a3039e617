//! Edits to the text of `myco.toml` that keep its layout: dependency changes
//! and a new package version.
use vstd::prelude::*;

use toml_edit::Document;

use crate::deps::changes::{ChangeModel, DepsChange};
use crate::errors::MycoError;
use crate::package_name::package_name_text;
use crate::package_version::{version_text, PackageVersion};
use crate::text::concat_str;
use crate::toml_doc::{
    doc_text, drop_entry, drop_key, has_key, holds_table, others_kept, parse_document, print_document, put_empty_table,
    put_string, table_entries, table_is_empty, toml_parse_error, toml_table_entries, toml_top_keys, top_keys,
};

verus! {

/// The `[deps]` entries after the changes, in order: a set version writes the
/// version's text under the package's name, a removal drops the name.
pub open spec fn changed_entries(m: Map<Seq<char>, Option<Seq<char>>>, changes: Seq<ChangeModel>) -> Map<
    Seq<char>,
    Option<Seq<char>>,
>
    decreases changes.len(),
{
    if changes.len() == 0 {
        m
    } else {
        let before = changed_entries(m, changes.drop_last());
        match changes.last() {
            ChangeModel::SetVersion(n, v) => before.insert(package_name_text(n.0, n.1), Some(version_text(v))),
            ChangeModel::Remove(n) => before.remove(package_name_text(n.0, n.1)),
        }
    }
}

/// The entry name a change is about.
pub open spec fn change_key(c: ChangeModel) -> Seq<char> {
    match c {
        ChangeModel::SetVersion(n, _) => package_name_text(n.0, n.1),
        ChangeModel::Remove(n) => package_name_text(n.0, n.1),
    }
}

proof fn lemma_untouched_kept(m: Map<Seq<char>, Option<Seq<char>>>, changes: Seq<ChangeModel>, k: Seq<char>)
    requires
        forall|i: int| 0 <= i < changes.len() ==> #[trigger] change_key(changes[i]) != k,
    ensures
        changed_entries(m, changes).contains_key(k) == m.contains_key(k),
        m.contains_key(k) ==> changed_entries(m, changes)[k] == m[k],
    decreases changes.len(),
{
    if changes.len() > 0 {
        let init = changes.drop_last();
        assert forall|i: int| 0 <= i < init.len() implies #[trigger] change_key(init[i]) != k by {
            assert(init[i] == changes[i]);
        }
        lemma_untouched_kept(m, init, k);
        assert(change_key(changes[changes.len() - 1]) != k);
        assert(changes[changes.len() - 1] == changes.last());
    }
}

/// The last change about a name decides its entry, and names no change is
/// about keep their entries: after a set the name holds the version set,
/// after a removal it holds nothing.
pub proof fn law_last_change_decides(m: Map<Seq<char>, Option<Seq<char>>>, changes: Seq<ChangeModel>)
    ensures
        forall|k: Seq<char>|
            (forall|i: int| 0 <= i < changes.len() ==> #[trigger] change_key(changes[i]) != k) ==> (
            #[trigger] changed_entries(m, changes).contains_key(k) == m.contains_key(k) && (m.contains_key(k)
                ==> changed_entries(m, changes)[k] == m[k])),
        forall|i: int|
            0 <= i < changes.len() && (forall|j: int|
                i < j < changes.len() ==> change_key(#[trigger] changes[j]) != change_key(changes[i])) ==> match #[trigger] changes[i] {
                ChangeModel::SetVersion(n, v) => changed_entries(m, changes).contains_key(change_key(changes[i]))
                    && changed_entries(m, changes)[change_key(changes[i])] == Some(version_text(v)),
                ChangeModel::Remove(_) => !changed_entries(m, changes).contains_key(change_key(changes[i])),
            },
    decreases changes.len(),
{
    if changes.len() > 0 {
        let init = changes.drop_last();
        law_last_change_decides(m, init);
        let last = changes.len() - 1;
        assert(changes[last] == changes.last());
        assert forall|i: int| 0 <= i < init.len() implies changes[i] == #[trigger] init[i] by {}
        let r = changed_entries(m, changes);
        let b = changed_entries(m, init);
        assert forall|k: Seq<char>|
            (forall|i: int| 0 <= i < changes.len() ==> #[trigger] change_key(changes[i]) != k) implies (
            #[trigger] r.contains_key(k) == m.contains_key(k) && (m.contains_key(k) ==> r[k] == m[k])) by {
            assert(change_key(changes[last]) != k);
            lemma_untouched_kept(m, changes, k);
        }
        assert forall|i: int|
            0 <= i < changes.len() && (forall|j: int|
                i < j < changes.len() ==> change_key(#[trigger] changes[j]) != change_key(changes[i])) implies match #[trigger] changes[i] {
                ChangeModel::SetVersion(n, v) => r.contains_key(change_key(changes[i])) && r[change_key(changes[i])]
                    == Some(version_text(v)),
                ChangeModel::Remove(_) => !r.contains_key(change_key(changes[i])),
            } by {
            if i < last {
                assert(changes[i] == init[i]);
                assert forall|j: int| i < j < init.len() implies change_key(#[trigger] init[j]) != change_key(init[i]) by {
                    assert(changes[j] == init[j]);
                }
                assert(change_key(changes[last]) != change_key(changes[i]));
            }
        }
    }
}

/// The views of a list of changes.
pub open spec fn changes_view(v: Seq<DepsChange>) -> Seq<ChangeModel> {
    Seq::new(v.len(), |i: int| v[i]@)
}

/// The entries of a top-level table of a text, or none where it holds none.
pub open spec fn entries_or_empty(text: Seq<char>, key: Seq<char>) -> Map<Seq<char>, Option<Seq<char>>> {
    match toml_table_entries(text, key) {
        Some(m) => m,
        None => Map::empty(),
    }
}

/// The message for text that is no TOML document.
pub open spec fn invalid_toml_text(e: Seq<char>) -> Seq<char> {
    "Invalid TOML: "@ + e
}

/// A document keeps every top-level key and table of `text` but `key`.
pub open spec fn keeps_rest_of(d: Document, text: Seq<char>, key: Seq<char>) -> bool {
    &&& forall|k: Seq<char>| k != key ==> #[trigger] table_entries(d, k) == toml_table_entries(text, k)
    &&& forall|k: Seq<char>| k != key ==> (#[trigger] top_keys(d).contains(k) == toml_top_keys(text).contains(k))
}

fn invalid_toml(e: String) -> (r: MycoError)
    ensures
        r matches MycoError::Internal { message } && message@ == invalid_toml_text(e@),
{
    MycoError::Internal { message: concat_str("Invalid TOML: ", e.as_str()) }
}

/// Applies dependency changes to the text of a manifest, keeping its layout:
/// a `deps` that is no table is replaced by an empty one, each change sets or
/// removes its entry, and a `deps` left empty is removed. The manifest must
/// have a `deps` key: reading one that is absent fails.
pub fn apply_deps_changes(changes: &Vec<DepsChange>, toml: &str) -> (r: Result<String, MycoError>)
    requires
        toml_parse_error(toml@) is None ==> toml_top_keys(toml@).contains("deps"@),
    ensures
        toml_parse_error(toml@) matches Some(e) ==> (r matches Err(MycoError::Internal { message }) && message@
            == invalid_toml_text(e)),
        toml_parse_error(toml@) is None ==> (r matches Ok(s) && exists|d: Document|
            #[trigger] doc_text(d) == s@ && keeps_rest_of(d, toml@, "deps"@) && ({
                let end = changed_entries(entries_or_empty(toml@, "deps"@), changes_view(changes@));
                if end.dom().is_empty() {
                    !top_keys(d).contains("deps"@) && table_entries(d, "deps"@) is None
                } else {
                    top_keys(d).contains("deps"@) && table_entries(d, "deps"@) == Some(end)
                }
            })),
{
    let mut doc = match parse_document(toml) {
        Ok(d) => d,
        Err(e) => {
            return Err(invalid_toml(e));
        },
    };
    proof {
        reveal_strlit("deps");
    }
    let ghost start = entries_or_empty(toml@, "deps"@);
    if !holds_table(&doc, "deps") {
        put_empty_table(&mut doc, "deps");
    }
    proof {
        assert(table_entries(doc, "deps"@) == Some(start));
    }
    let mut i: usize = 0;
    while i < changes.len()
        invariant
            i <= changes@.len(),
            start == entries_or_empty(toml@, "deps"@),
            top_keys(doc).contains("deps"@),
            table_entries(doc, "deps"@) == Some(changed_entries(start, changes_view(changes@).take(i as int))),
            keeps_rest_of(doc, toml@, "deps"@),
        decreases changes@.len() - i,
    {
        let ghost before = doc;
        proof {
            assert(changes_view(changes@).take(i + 1).drop_last() =~= changes_view(changes@).take(i as int));
            assert(changes_view(changes@).take(i + 1).last() == changes@[i as int]@);
        }
        match &changes[i] {
            DepsChange::SetVersion(name, version) => {
                let n = name.to_string();
                let v = version.to_string();
                put_string(&mut doc, "deps", n.as_str(), v.as_str());
            },
            DepsChange::Remove(name) => {
                let n = name.to_string();
                drop_entry(&mut doc, "deps", n.as_str());
            },
        }
        proof {
            assert forall|k: Seq<char>| k != "deps"@ implies #[trigger] table_entries(doc, k) == toml_table_entries(
                toml@,
                k,
            ) by {
                assert(table_entries(doc, k) == table_entries(before, k));
            }
            assert forall|k: Seq<char>| k != "deps"@ implies (#[trigger] top_keys(doc).contains(k)
                == toml_top_keys(toml@).contains(k)) by {
                assert(top_keys(doc).contains(k) == top_keys(before).contains(k));
            }
        }
        i = i + 1;
    }
    proof {
        assert(changes_view(changes@).take(changes@.len() as int) =~= changes_view(changes@));
    }
    if table_is_empty(&doc, "deps") {
        let ghost before = doc;
        drop_key(&mut doc, "deps");
        proof {
            assert forall|k: Seq<char>| k != "deps"@ implies #[trigger] table_entries(doc, k) == toml_table_entries(
                toml@,
                k,
            ) by {
                assert(table_entries(doc, k) == table_entries(before, k));
            }
            assert forall|k: Seq<char>| k != "deps"@ implies (#[trigger] top_keys(doc).contains(k)
                == toml_top_keys(toml@).contains(k)) by {
                assert(top_keys(doc).contains(k) == top_keys(before).contains(k));
            }
        }
    }
    let s = print_document(&doc);
    proof {
        assert(doc_text(doc) == s@);
    }
    Ok(s)
}

/// Applies dependency changes where the manifest has a `deps` key to read;
/// `None` (nothing applied) where it parses and has none.
pub fn try_apply_deps_changes(changes: &Vec<DepsChange>, toml: &str) -> (r: Option<Result<String, MycoError>>)
    ensures
        (r is None) == (toml_parse_error(toml@) is None && !toml_top_keys(toml@).contains("deps"@)),
        toml_parse_error(toml@) matches Some(e) ==> (r matches Some(Err(MycoError::Internal { message }))
            && message@ == invalid_toml_text(e)),
        toml_parse_error(toml@) is None && toml_top_keys(toml@).contains("deps"@) ==> (r matches Some(Ok(s))
            && exists|d: Document|
            #[trigger] doc_text(d) == s@ && keeps_rest_of(d, toml@, "deps"@) && ({
                let end = changed_entries(entries_or_empty(toml@, "deps"@), changes_view(changes@));
                if end.dom().is_empty() {
                    !top_keys(d).contains("deps"@) && table_entries(d, "deps"@) is None
                } else {
                    top_keys(d).contains("deps"@) && table_entries(d, "deps"@) == Some(end)
                }
            })),
{
    match parse_document(toml) {
        Err(e) => Some(Err(invalid_toml(e))),
        Ok(d) => {
            if has_key(&d, "deps") {
                Some(apply_deps_changes(changes, toml))
            } else {
                None
            }
        },
    }
}

/// Writes `version` as the package version into the text of a manifest,
/// keeping its layout: a `package` that is no table is replaced by an empty
/// one first. The manifest must have a `package` key: reading one that is
/// absent fails.
pub fn set_package_version(toml: &str, version: &PackageVersion) -> (r: Result<String, MycoError>)
    requires
        toml_parse_error(toml@) is None ==> toml_top_keys(toml@).contains("package"@),
    ensures
        toml_parse_error(toml@) matches Some(e) ==> (r matches Err(MycoError::Internal { message }) && message@
            == invalid_toml_text(e)),
        toml_parse_error(toml@) is None ==> (r matches Ok(s) && exists|d: Document|
            #[trigger] doc_text(d) == s@ && keeps_rest_of(d, toml@, "package"@) && top_keys(d).contains("package"@)
                && table_entries(d, "package"@) == Some(
                entries_or_empty(toml@, "package"@).insert("version"@, Some(version_text(version@))),
            )),
{
    let mut doc = match parse_document(toml) {
        Ok(d) => d,
        Err(e) => {
            return Err(invalid_toml(e));
        },
    };
    proof {
        reveal_strlit("package");
        reveal_strlit("version");
    }
    let ghost start = doc;
    if !holds_table(&doc, "package") {
        put_empty_table(&mut doc, "package");
    }
    let ghost mid = doc;
    let v = version.to_string();
    put_string(&mut doc, "package", "version", v.as_str());
    proof {
        assert forall|k: Seq<char>| k != "package"@ implies #[trigger] table_entries(doc, k) == toml_table_entries(
            toml@,
            k,
        ) by {
            assert(table_entries(doc, k) == table_entries(mid, k));
            assert(table_entries(mid, k) == table_entries(start, k));
        }
        assert forall|k: Seq<char>| k != "package"@ implies (#[trigger] top_keys(doc).contains(k)
            == toml_top_keys(toml@).contains(k)) by {
            assert(top_keys(doc).contains(k) == top_keys(mid).contains(k));
            assert(top_keys(mid).contains(k) == top_keys(start).contains(k));
        }
    }
    let s = print_document(&doc);
    Ok(s)
}

/// Writes the package version where the manifest has a `package` key to
/// read; `None` (nothing written) where it parses and has none.
pub fn try_set_package_version(toml: &str, version: &PackageVersion) -> (r: Option<Result<String, MycoError>>)
    ensures
        (r is None) == (toml_parse_error(toml@) is None && !toml_top_keys(toml@).contains("package"@)),
        toml_parse_error(toml@) matches Some(e) ==> (r matches Some(Err(MycoError::Internal { message }))
            && message@ == invalid_toml_text(e)),
        toml_parse_error(toml@) is None && toml_top_keys(toml@).contains("package"@) ==> (r matches Some(Ok(s))
            && exists|d: Document|
            #[trigger] doc_text(d) == s@ && keeps_rest_of(d, toml@, "package"@) && top_keys(d).contains("package"@)
                && table_entries(d, "package"@) == Some(
                entries_or_empty(toml@, "package"@).insert("version"@, Some(version_text(version@))),
            )),
{
    match parse_document(toml) {
        Err(e) => Some(Err(invalid_toml(e))),
        Ok(d) => {
            if has_key(&d, "package") {
                Some(set_package_version(toml, version))
            } else {
                None
            }
        },
    }
}

} // verus!
