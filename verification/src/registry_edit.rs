//! Recording a published version in the text of a registry index, keeping
//! its layout.
use vstd::prelude::*;

use toml_edit::{Decor, Document, InlineTable};

use crate::errors::MycoError;
use crate::myco_toml::PackageDefinition;
use crate::package_name::parse_package_name;
use crate::package_version::version_text;
use crate::publish::{
    is_text, keys_of, plan_is_blocked, plan_outcome, plan_registry_update, scan, IndexEdit, IndexNamespace,
    IndexPackage, KeyText, Keyed, PlanOutcome, RegistryIndex, Scan,
};
use crate::toml_doc::{
    doc_text, last_integrity, parse_document, print_document, registry_view, toml_parse_error, toml_registry_view,
    KeyModel, NamespaceView, PackageView,
};

verus! {

/// What a key holds, as the view records it.
pub open spec fn key_model(k: KeyText) -> KeyModel {
    match k {
        KeyText::Missing => None,
        KeyText::NotText => Some(None),
        KeyText::Text(s) => Some(Some(s@)),
    }
}

pub open spec fn package_model(p: IndexPackage) -> PackageView {
    (
        key_model(p.name),
        match p.versions {
            None => None,
            Some(v) => Some(Seq::new(v@.len(), |c: int| key_model(v@[c]))),
        },
    )
}

pub open spec fn namespace_model(n: IndexNamespace) -> NamespaceView {
    (
        key_model(n.name),
        match n.packages {
            None => None,
            Some(p) => Some(Seq::new(p@.len(), |b: int| package_model(p@[b]))),
        },
    )
}

/// What an index holds, as the view records it.
pub open spec fn index_model(x: RegistryIndex) -> Option<Seq<NamespaceView>> {
    match x.namespaces {
        None => None,
        Some(l) => Some(Seq::new(l@.len(), |a: int| namespace_model(l@[a]))),
    }
}

/// The view with version `v` appended to package `pkg` of namespace `ns`.
pub open spec fn pushed(view: Option<Seq<NamespaceView>>, ns: int, pkg: int, v: KeyModel) -> Option<Seq<NamespaceView>> {
    let l = view->0;
    let n = l[ns];
    let ps = n.1->0;
    let p = ps[pkg];
    Some(l.update(ns, (n.0, Some(ps.update(pkg, (p.0, Some(p.1->0.push(v))))))))
}

/// Whether package `pkg` of namespace `ns` has an inline `versions` array.
pub open spec fn has_versions(view: Option<Seq<NamespaceView>>, ns: int, pkg: int) -> bool {
    &&& view is Some
    &&& 0 <= ns < view->0.len()
    &&& view->0[ns].1 is Some
    &&& 0 <= pkg < view->0[ns].1->0.len()
    &&& view->0[ns].1->0[pkg].1 is Some
}

/// The number of namespaces (`Table::get`, `Item::as_array_of_tables`,
/// `ArrayOfTables::len`). Trusted: `None` where `namespace` is no array of
/// tables, none where it is absent, as the view records.
#[verifier::external_body]
fn namespace_count(d: &Document) -> (r: Option<usize>)
    ensures
        match registry_view(*d) {
            None => r is None,
            Some(v) => r matches Some(n) && n == v.len(),
        },
{
    match d.get("namespace") {
        None => Some(0),
        Some(i) => i.as_array_of_tables().map(|a| a.len()),
    }
}

/// The `name` of namespace `i`. Trusted: as the view records.
#[verifier::external_body]
fn namespace_name(d: &Document, i: usize) -> (r: KeyText)
    requires
        registry_view(*d) is Some,
        i < registry_view(*d)->0.len(),
    ensures
        key_model(r) == registry_view(*d)->0[i as int].0,
{
    let t = d.get("namespace").and_then(|x| x.as_array_of_tables()).and_then(|a| a.get(i));
    match t.and_then(|t| t.get("name")) {
        None => KeyText::Missing,
        Some(item) => item.as_str().map_or(KeyText::NotText, |s| KeyText::Text(s.to_string())),
    }
}

/// The number of packages of namespace `i`. Trusted: `None` where `package`
/// is no array of tables, none where it is absent, as the view records.
#[verifier::external_body]
fn package_count(d: &Document, i: usize) -> (r: Option<usize>)
    requires
        registry_view(*d) is Some,
        i < registry_view(*d)->0.len(),
    ensures
        match registry_view(*d)->0[i as int].1 {
            None => r is None,
            Some(p) => r matches Some(n) && n == p.len(),
        },
{
    let t = d.get("namespace").and_then(|x| x.as_array_of_tables()).and_then(|a| a.get(i));
    match t.and_then(|t| t.get("package")) {
        None => Some(0),
        Some(item) => item.as_array_of_tables().map(|a| a.len()),
    }
}

/// The `name` of package `j` of namespace `i`. Trusted: as the view records.
#[verifier::external_body]
fn package_name(d: &Document, i: usize, j: usize) -> (r: KeyText)
    requires
        registry_view(*d) is Some,
        i < registry_view(*d)->0.len(),
        registry_view(*d)->0[i as int].1 is Some,
        j < registry_view(*d)->0[i as int].1->0.len(),
    ensures
        key_model(r) == registry_view(*d)->0[i as int].1->0[j as int].0,
{
    let t = d.get("namespace").and_then(|x| x.as_array_of_tables()).and_then(|a| a.get(i));
    let p = t.and_then(|t| t.get("package")).and_then(|x| x.as_array_of_tables()).and_then(|a| a.get(j));
    match p.and_then(|p| p.get("name")) {
        None => KeyText::Missing,
        Some(item) => item.as_str().map_or(KeyText::NotText, |s| KeyText::Text(s.to_string())),
    }
}

/// The number of entries of the `versions` of package `j` of namespace `i`.
/// Trusted: `None` where `versions` is no inline array, as the view records.
#[verifier::external_body]
fn version_count(d: &Document, i: usize, j: usize) -> (r: Option<usize>)
    requires
        registry_view(*d) is Some,
        i < registry_view(*d)->0.len(),
        registry_view(*d)->0[i as int].1 is Some,
        j < registry_view(*d)->0[i as int].1->0.len(),
    ensures
        match registry_view(*d)->0[i as int].1->0[j as int].1 {
            None => r is None,
            Some(v) => r matches Some(n) && n == v.len(),
        },
{
    let t = d.get("namespace").and_then(|x| x.as_array_of_tables()).and_then(|a| a.get(i));
    let p = t.and_then(|t| t.get("package")).and_then(|x| x.as_array_of_tables()).and_then(|a| a.get(j));
    p.and_then(|p| p.get("versions")).and_then(|x| x.as_value()).and_then(|v| v.as_array()).map(|a| a.len())
}

/// The `version` of entry `k` of the versions of package `j` of namespace
/// `i`. Trusted: as the view records.
#[verifier::external_body]
fn version_key(d: &Document, i: usize, j: usize, k: usize) -> (r: KeyText)
    requires
        has_versions(registry_view(*d), i as int, j as int),
        k < registry_view(*d)->0[i as int].1->0[j as int].1->0.len(),
    ensures
        key_model(r) == registry_view(*d)->0[i as int].1->0[j as int].1->0[k as int],
{
    let t = d.get("namespace").and_then(|x| x.as_array_of_tables()).and_then(|a| a.get(i));
    let p = t.and_then(|t| t.get("package")).and_then(|x| x.as_array_of_tables()).and_then(|a| a.get(j));
    let e = p.and_then(|p| p.get("versions")).and_then(|x| x.as_value()).and_then(|v| v.as_array()).and_then(|a| a.get(k));
    match e.and_then(|v| v.as_inline_table()) {
        None => KeyText::NotText,
        Some(it) => it.get("version").map_or(KeyText::Missing, |v| v.as_str().map_or(KeyText::NotText, |s| KeyText::Text(s.to_string()))),
    }
}

/// Appends `{ version, integrity }` to the versions of package `j` of
/// namespace `i` (`InlineTable::insert`, `Array::push`). Trusted: the view
/// gains that version, and the new last entry holds that integrity.
#[verifier::external_body]
fn push_version(d: &mut Document, i: usize, j: usize, version: &str, integrity: &str)
    requires
        has_versions(registry_view(*old(d)), i as int, j as int),
    ensures
        registry_view(*final(d)) == pushed(registry_view(*old(d)), i as int, j as int, Some(Some(version@))),
        last_integrity(*final(d), i as int, j as int) == Some(Some(integrity@)),
{
    let t = d.get_mut("namespace").and_then(|x| x.as_array_of_tables_mut()).and_then(|a| a.get_mut(i));
    let p = t.and_then(|t| t.get_mut("package")).and_then(|x| x.as_array_of_tables_mut()).and_then(|a| a.get_mut(j));
    if let Some(arr) = p.and_then(|p| p.get_mut("versions")).and_then(|x| x.as_value_mut()).and_then(|v| v.as_array_mut()) {
        let mut entry = InlineTable::new();
        entry.insert("version", version.into());
        entry.insert("integrity", integrity.into());
        arr.push(entry);
    }
}

/// Lays the versions of package `j` of namespace `i` out one per line with a
/// trailing comma (`Value::decor_mut`, `Array::set_trailing_comma`,
/// `Array::set_trailing`). Trusted: only the layout changes.
#[verifier::external_body]
fn lay_out_versions(d: &mut Document, i: usize, j: usize)
    ensures
        registry_view(*final(d)) == registry_view(*old(d)),
        forall|a: int, b: int| #[trigger] last_integrity(*final(d), a, b) == last_integrity(*old(d), a, b),
{
    let t = d.get_mut("namespace").and_then(|x| x.as_array_of_tables_mut()).and_then(|a| a.get_mut(i));
    let p = t.and_then(|t| t.get_mut("package")).and_then(|x| x.as_array_of_tables_mut()).and_then(|a| a.get_mut(j));
    if let Some(arr) = p.and_then(|p| p.get_mut("versions")).and_then(|x| x.as_value_mut()).and_then(|v| v.as_array_mut()) {
        for value in arr.iter_mut() {
            *value.decor_mut() = Decor::new("\n    ", "");
        }
        arr.set_trailing_comma(true);
        arr.set_trailing("\n");
    }
}

fn read_versions(d: &Document, i: usize, j: usize) -> (r: Option<Vec<KeyText>>)
    requires
        registry_view(*d) is Some,
        i < registry_view(*d)->0.len(),
        registry_view(*d)->0[i as int].1 is Some,
        j < registry_view(*d)->0[i as int].1->0.len(),
    ensures
        package_model(IndexPackage { name: KeyText::Missing, versions: r }).1
            == registry_view(*d)->0[i as int].1->0[j as int].1,
{
    match version_count(d, i, j) {
        None => None,
        Some(c) => {
            let ghost vs = registry_view(*d)->0[i as int].1->0[j as int].1->0;
            let mut out: Vec<KeyText> = Vec::new();
            let mut k: usize = 0;
            while k < c
                invariant
                    k <= c,
                    c == vs.len(),
                    has_versions(registry_view(*d), i as int, j as int),
                    vs == registry_view(*d)->0[i as int].1->0[j as int].1->0,
                    out@.len() == k,
                    forall|e: int| 0 <= e < k ==> key_model(#[trigger] out@[e]) == vs[e],
                decreases c - k,
            {
                out.push(version_key(d, i, j, k));
                k = k + 1;
            }
            proof {
                assert(Seq::new(out@.len(), |e: int| key_model(out@[e])) =~= vs);
            }
            Some(out)
        },
    }
}

fn read_packages(d: &Document, i: usize) -> (r: Option<Vec<IndexPackage>>)
    requires
        registry_view(*d) is Some,
        i < registry_view(*d)->0.len(),
    ensures
        namespace_model(IndexNamespace { name: KeyText::Missing, packages: r }).1 == registry_view(*d)->0[i as int].1,
{
    match package_count(d, i) {
        None => None,
        Some(m) => {
            let ghost ps = registry_view(*d)->0[i as int].1->0;
            let mut out: Vec<IndexPackage> = Vec::new();
            let mut j: usize = 0;
            while j < m
                invariant
                    j <= m,
                    m == ps.len(),
                    registry_view(*d) is Some,
                    i < registry_view(*d)->0.len(),
                    registry_view(*d)->0[i as int].1 == Some(ps),
                    out@.len() == j,
                    forall|b: int| 0 <= b < j ==> package_model(#[trigger] out@[b]) == ps[b],
                decreases m - j,
            {
                let name = package_name(d, i, j);
                let versions = read_versions(d, i, j);
                let p = IndexPackage { name, versions };
                proof {
                    assert(package_model(p) == ps[j as int]);
                }
                out.push(p);
                j = j + 1;
            }
            proof {
                assert(Seq::new(out@.len(), |b: int| package_model(out@[b])) =~= ps);
            }
            Some(out)
        },
    }
}

/// Reads a registry index document into the index the plan works on.
fn read_index(d: &Document) -> (r: RegistryIndex)
    ensures
        index_model(r) == registry_view(*d),
{
    let n = match namespace_count(d) {
        None => {
            return RegistryIndex { namespaces: None };
        },
        Some(n) => n,
    };
    let ghost v = registry_view(*d)->0;
    let mut list: Vec<IndexNamespace> = Vec::new();
    let mut i: usize = 0;
    while i < n
        invariant
            i <= n,
            registry_view(*d) == Some(v),
            n == v.len(),
            list@.len() == i,
            forall|a: int| 0 <= a < i ==> namespace_model(#[trigger] list@[a]) == v[a],
        decreases n - i,
    {
        let name = namespace_name(d, i);
        let packages = read_packages(d, i);
        let ns = IndexNamespace { name, packages };
        proof {
            assert(namespace_model(ns) == v[i as int]);
        }
        list.push(ns);
        i = i + 1;
    }
    proof {
        assert(Seq::new(list@.len(), |a: int| namespace_model(list@[a])) =~= v);
    }
    RegistryIndex { namespaces: Some(list) }
}

proof fn lemma_scan_by_model(k1: Seq<KeyText>, k2: Seq<KeyText>, t: Seq<char>)
    requires
        k1.len() == k2.len(),
        forall|a: int| 0 <= a < k1.len() ==> key_model(#[trigger] k1[a]) == key_model(k2[a]),
    ensures
        scan(k1, t) == scan(k2, t),
    decreases k1.len(),
{
    if k1.len() > 0 {
        assert(key_model(k1[0]) == key_model(k2[0]));
        lemma_scan_by_model(k1.drop_first(), k2.drop_first(), t);
        assert(is_text(k1[0], t) == is_text(k2[0], t));
    }
}

proof fn lemma_keys_by_model<T: Keyed>(l1: Seq<T>, l2: Seq<T>)
    requires
        l1.len() == l2.len(),
        forall|a: int| 0 <= a < l1.len() ==> key_model((#[trigger] l1[a]).key_of()) == key_model(l2[a].key_of()),
    ensures
        forall|t: Seq<char>| #[trigger] scan(keys_of(l1), t) == scan(keys_of(l2), t),
{
    assert forall|t: Seq<char>| #[trigger] scan(keys_of(l1), t) == scan(keys_of(l2), t) by {
        assert forall|a: int| 0 <= a < keys_of(l1).len() implies key_model(#[trigger] keys_of(l1)[a]) == key_model(
            keys_of(l2)[a],
        ) by {
            assert(keys_of(l1)[a] == l1[a].key_of());
            assert(keys_of(l2)[a] == l2[a].key_of());
        }
        lemma_scan_by_model(keys_of(l1), keys_of(l2), t);
    }
}

/// Two indexes that read alike are planned alike.
proof fn lemma_plan_by_model(x: RegistryIndex, y: RegistryIndex, name: Seq<char>, version: Seq<char>)
    requires
        index_model(x) == index_model(y),
    ensures
        plan_outcome(&x, name, version) == plan_outcome(&y, name, version),
{
    match (x.namespaces, y.namespaces) {
        (Some(l1), Some(l2)) => {
            assert(l1@.len() == index_model(x)->0.len());
            assert(l2@.len() == index_model(y)->0.len());
            assert forall|a: int| 0 <= a < l1@.len() implies namespace_model(#[trigger] l1@[a]) == namespace_model(
                l2@[a],
            ) by {
                assert(index_model(x)->0[a] == namespace_model(l1@[a]));
                assert(index_model(y)->0[a] == namespace_model(l2@[a]));
            }
            lemma_keys_by_model(l1@, l2@);
            match parse_package_name(name) {
                Ok((ns, _)) => {
                    let nst = crate::package_name::namespaces_text(ns);
                    match scan(keys_of(l1@), nst) {
                        Scan::Found(i) => {
                            assert(scan(keys_of(l2@), nst) == Scan::Found(i));
                            crate::publish::lemma_scan_found(keys_of(l1@), nst);
                            let n1 = l1@[i];
                            let n2 = l2@[i];
                            assert(namespace_model(n1) == namespace_model(n2));
                            match (n1.packages, n2.packages) {
                                (Some(p1), Some(p2)) => {
                                    assert(p1@.len() == namespace_model(n1).1->0.len());
                                    assert(p2@.len() == namespace_model(n2).1->0.len());
                                    assert forall|b: int| 0 <= b < p1@.len() implies package_model(
                                        #[trigger] p1@[b],
                                    ) == package_model(p2@[b]) by {
                                        assert(namespace_model(n1).1->0[b] == package_model(p1@[b]));
                                        assert(namespace_model(n2).1->0[b] == package_model(p2@[b]));
                                    }
                                    lemma_keys_by_model(p1@, p2@);
                                    match scan(keys_of(p1@), name) {
                                        Scan::Found(j) => {
                                            crate::publish::lemma_scan_found(keys_of(p1@), name);
                                            let q1 = p1@[j];
                                            let q2 = p2@[j];
                                            assert(package_model(q1) == package_model(q2));
                                            match (q1.versions, q2.versions) {
                                                (Some(v1), Some(v2)) => {
                                                    assert(v1@.len() == package_model(q1).1->0.len());
                                                    assert(v2@.len() == package_model(q2).1->0.len());
                                                    assert forall|c: int| 0 <= c < v1@.len() implies key_model(
                                                        (#[trigger] v1@[c]).key_of(),
                                                    ) == key_model(v2@[c].key_of()) by {
                                                        assert(package_model(q1).1->0[c] == key_model(v1@[c]));
                                                        assert(package_model(q2).1->0[c] == key_model(v2@[c]));
                                                    }
                                                    lemma_keys_by_model(v1@, v2@);
                                                    assert(scan(keys_of(v1@), version) == scan(keys_of(v2@), version));
                                                },
                                                _ => {},
                                            }
                                        },
                                        _ => {},
                                    }
                                },
                                _ => {},
                            }
                        },
                        _ => {},
                    }
                },
                Err(_) => {},
            }
        },
        _ => {},
    }
}

/// What recording `package` with `integrity` in the index text `index`
/// gives, for text that parses: read as `x`, the index's plan decides. An edit
/// prints a document whose view has the version appended to the planned
/// package, with that integrity; each refusal of the plan is its error.
pub open spec fn registry_update_outcome(
    index: Seq<char>,
    package: PackageDefinition,
    integrity: Seq<char>,
    r: Result<String, MycoError>,
) -> bool {
    exists|x: RegistryIndex|
    #[trigger] index_model(x) == toml_registry_view(index) && match (
        r,
        plan_outcome(&x, package.name@, version_text(package.version@)),
    ) {
        (Ok(s), PlanOutcome::Edit(i, j)) => exists|d: Document|
            #[trigger] doc_text(d) == s@ && registry_view(d) == pushed(
                toml_registry_view(index),
                i,
                j,
                Some(Some(version_text(package.version@))),
            ) && last_integrity(d, i, j) == Some(Some(integrity)),
        (Err(MycoError::InvalidPackageName { name }), PlanOutcome::BadName(t)) => name@ == t,
        (Err(MycoError::InvalidRegistryFormat { message }), PlanOutcome::BadNamespaces) => message@
            == "namespace should be an array of tables"@,
        (Err(MycoError::InvalidRegistryFormat { message }), PlanOutcome::BadPackages) => message@
            == "package should be an array of tables"@,
        (Err(MycoError::InvalidRegistryFormat { message }), PlanOutcome::BadVersions) => message@
            == "versions should be an inline array"@,
        (Err(MycoError::VersionExists { version }), PlanOutcome::Exists) => version@ == version_text(
            package.version@,
        ),
        _ => false,
    }
}

/// Records `package` with `integrity` in the text of a registry index,
/// keeping its layout: the index is read as `plan_registry_update` reads it,
/// and where the plan is an edit, the version is appended to the package's
/// versions, laid out one per line. Text that is no TOML document is a parse
/// error; the plan's errors are returned as they are.
pub fn update_registry_text(index: &str, package: &PackageDefinition, integrity: &str) -> (r: Result<
    String,
    MycoError,
>)
    requires
        forall|x: RegistryIndex|
            #![trigger index_model(x)]
            index_model(x) == toml_registry_view(index@) ==> !(plan_outcome(
                &x,
                package.name@,
                version_text(package.version@),
            ) is Stuck),
    ensures
        toml_parse_error(index@) matches Some(e) ==> (r matches Err(MycoError::RegistryParse { message })
            && message@ == e),
        toml_parse_error(index@) is None ==> registry_update_outcome(index@, *package, integrity@, r),
{
    let mut doc = match parse_document(index) {
        Ok(d) => d,
        Err(e) => {
            return Err(MycoError::RegistryParse { message: e });
        },
    };
    let x = read_index(&doc);
    let edit = plan_registry_update(&x, package, integrity);
    match edit {
        Err(e) => Err(e),
        Ok(IndexEdit { namespace, package: p, version, integrity: integ }) => {
            proof {
                lemma_edit_has_versions(&x, package.name@, version_text(package.version@));
            }
            let ghost before = doc;
            push_version(&mut doc, namespace, p, version.as_str(), integ.as_str());
            lay_out_versions(&mut doc, namespace, p);
            let s = print_document(&doc);
            proof {
                assert(doc_text(doc) == s@);
            }
            Ok(s)
        },
    }
}

/// Where the plan is an edit, the package it names has an inline versions
/// array.
proof fn lemma_edit_has_versions(x: &RegistryIndex, name: Seq<char>, version: Seq<char>)
    ensures
        plan_outcome(x, name, version) matches PlanOutcome::Edit(i, j) ==> has_versions(index_model(*x), i, j),
{
    if let PlanOutcome::Edit(i, j) = plan_outcome(x, name, version) {
        let l = x.namespaces->0;
        if let Ok((ns, _)) = parse_package_name(name) {
            crate::publish::lemma_scan_found(keys_of(l@), crate::package_name::namespaces_text(ns));
            let pk = l@[i].packages->0;
            crate::publish::lemma_scan_found(keys_of(pk@), name);
            assert(index_model(*x)->0[i] == namespace_model(l@[i]));
            assert(namespace_model(l@[i]).1->0[j] == package_model(pk@[j]));
        }
    }
}

/// Records `package` in the text of a registry index where its plan reads no
/// missing key; `None` (nothing recorded) where it would.
pub fn try_update_registry_text(index: &str, package: &PackageDefinition, integrity: &str) -> (r: Option<
    Result<String, MycoError>,
>)
    ensures
        toml_parse_error(index@) matches Some(e) ==> (r matches Some(Err(MycoError::RegistryParse { message }))
            && message@ == e),
        (r is None) == (toml_parse_error(index@) is None && exists|x: RegistryIndex|
            #[trigger] index_model(x) == toml_registry_view(index@) && plan_outcome(
                &x,
                package.name@,
                version_text(package.version@),
            ) is Stuck),
        toml_parse_error(index@) is None ==> (r matches Some(res) ==> registry_update_outcome(
            index@,
            *package,
            integrity@,
            res,
        )),
{
    match parse_document(index) {
        Err(e) => Some(Err(MycoError::RegistryParse { message: e })),
        Ok(doc) => {
            let x = read_index(&doc);
            if plan_is_blocked(&x, package) {
                None
            } else {
                proof {
                    assert forall|y: RegistryIndex|
                        #![trigger index_model(y)]
                        index_model(y) == toml_registry_view(index@) implies !(plan_outcome(
                        &y,
                        package.name@,
                        version_text(package.version@),
                    ) is Stuck) by {
                        lemma_plan_by_model(x, y, package.name@, version_text(package.version@));
                    }
                }
                let res = update_registry_text(index, package, integrity);
                proof {
                    assert(!exists|y: RegistryIndex|
                        #[trigger] index_model(y) == toml_registry_view(index@) && plan_outcome(
                            &y,
                            package.name@,
                            version_text(package.version@),
                        ) is Stuck);
                }
                Some(res)
            }
        },
    }
}

} // verus!
