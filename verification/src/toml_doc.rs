//! TOML documents edited in place with `toml_edit`, so that the layout and
//! comments of a manifest survive an edit. What the logic reads of a document
//! is its top-level keys and the string entries of its top-level tables.
use vstd::prelude::*;

use toml_edit::{Document, Item, Table};

verus! {

#[verifier::external_type_specification]
#[verifier::external_body]
pub struct ExDocument(Document);

/// The message of the error `toml_edit` reports for text that is not a TOML
/// document, or `None` where the text parses.
pub uninterp spec fn toml_parse_error(text: Seq<char>) -> Option<Seq<char>>;

/// The top-level keys of the document a text parses as.
pub uninterp spec fn toml_top_keys(text: Seq<char>) -> Set<Seq<char>>;

/// The entries of the top-level table `key` of the document a text parses as,
/// each with its text where it is a string; `None` where `key` holds no table.
pub uninterp spec fn toml_table_entries(text: Seq<char>, key: Seq<char>) -> Option<Map<Seq<char>, Option<Seq<char>>>>;

/// What a key of an index table holds: nothing, a value that is no string, or
/// a string.
pub type KeyModel = Option<Option<Seq<char>>>;

/// A package table: its `name`, and the `version` of each entry of its
/// `versions` where that is an inline array (an entry that is no inline table
/// holds no string).
pub type PackageView = (KeyModel, Option<Seq<KeyModel>>);

/// A namespace table: its `name`, and its packages unless `package` is there
/// and is no array of tables.
pub type NamespaceView = (KeyModel, Option<Seq<PackageView>>);

/// The namespaces of a registry index document, unless `namespace` is there
/// and is no array of tables (an absent key holds none).
pub uninterp spec fn registry_view(d: Document) -> Option<Seq<NamespaceView>>;

/// The registry view of the document a text parses as.
pub uninterp spec fn toml_registry_view(text: Seq<char>) -> Option<Seq<NamespaceView>>;

/// The `integrity` of the last version entry of package `pkg` of namespace
/// `ns` of a registry index document.
pub uninterp spec fn last_integrity(d: Document, ns: int, pkg: int) -> KeyModel;

/// The top-level keys of a document.
pub uninterp spec fn top_keys(d: Document) -> Set<Seq<char>>;

/// The entries of the top-level table `key` of a document, each with its text
/// where it is a string; `None` where `key` holds no table.
pub uninterp spec fn table_entries(d: Document, key: Seq<char>) -> Option<Map<Seq<char>, Option<Seq<char>>>>;

/// The text a document prints as.
pub uninterp spec fn doc_text(d: Document) -> Seq<char>;

/// Every top-level table but `key` is as it was, and so is every other key.
pub open spec fn others_kept(before: Document, after: Document, key: Seq<char>) -> bool {
    &&& forall|k: Seq<char>| k != key ==> table_entries(after, k) == table_entries(before, k)
    &&& forall|k: Seq<char>| k != key ==> (top_keys(after).contains(k) == top_keys(before).contains(k))
}

/// Calls `str::parse::<toml_edit::Document>`. Trusted: it fails exactly on
/// text that is no TOML document, with the error's message; a document it
/// gives holds the keys and tables of the text (the names record both).
#[verifier::external_body]
pub(crate) fn parse_document(text: &str) -> (r: Result<Document, String>)
    ensures
        match r {
            Err(e) => toml_parse_error(text@) == Some(e@),
            Ok(d) => toml_parse_error(text@) is None && top_keys(d) == toml_top_keys(text@) && registry_view(d)
                == toml_registry_view(text@) && forall|k: Seq<char>|
                #[trigger] table_entries(d, k) == toml_table_entries(text@, k),
        },
{
    text.parse::<Document>().map_err(|e| e.to_string())
}

/// Calls `Table::contains_key` on the document's root. Trusted: it tells
/// whether the key is at the top level.
#[verifier::external_body]
pub(crate) fn has_key(d: &Document, key: &str) -> (r: bool)
    ensures
        r == top_keys(*d).contains(key@),
{
    d.contains_key(key)
}

/// Calls `Item::as_table` on the item under `key`. Trusted: it tells whether
/// `key` holds a table.
#[verifier::external_body]
pub(crate) fn holds_table(d: &Document, key: &str) -> (r: bool)
    ensures
        r == table_entries(*d, key@) is Some,
{
    d.get(key).and_then(|i| i.as_table()).is_some()
}

/// Puts a new empty table under `key` (`doc[key] = Item::Table(Table::new())`).
/// Trusted: `key` then holds an empty table; nothing else changes.
#[verifier::external_body]
pub(crate) fn put_empty_table(d: &mut Document, key: &str)
    ensures
        table_entries(*final(d), key@) == Some(Map::<Seq<char>, Option<Seq<char>>>::empty()),
        top_keys(*final(d)).contains(key@),
        others_kept(*old(d), *final(d), key@),
{
    d[key] = Item::Table(Table::new());
}

/// Sets `entry` of the table under `table` to the string `value`
/// (`doc[table][entry] = toml_edit::value(value)`). Trusted: the entry then
/// holds that string, the table's other entries and everything else stay.
#[verifier::external_body]
pub(crate) fn put_string(d: &mut Document, table: &str, entry: &str, value: &str)
    requires
        table_entries(*old(d), table@) is Some,
    ensures
        table_entries(*final(d), table@) == Some(table_entries(*old(d), table@)->0.insert(entry@, Some(value@))),
        top_keys(*final(d)) == top_keys(*old(d)),
        others_kept(*old(d), *final(d), table@),
{
    d[table][entry] = toml_edit::value(value);
}

/// Removes `entry` from the table under `table` (`Table::remove`). Trusted:
/// the entry is gone, the table's other entries and everything else stay.
#[verifier::external_body]
pub(crate) fn drop_entry(d: &mut Document, table: &str, entry: &str)
    requires
        table_entries(*old(d), table@) is Some,
    ensures
        table_entries(*final(d), table@) == Some(table_entries(*old(d), table@)->0.remove(entry@)),
        top_keys(*final(d)) == top_keys(*old(d)),
        others_kept(*old(d), *final(d), table@),
{
    if let Some(t) = d[table].as_table_mut() {
        t.remove(entry);
    }
}

/// Calls `Table::is_empty` on the table under `table`. Trusted: it tells
/// whether the table has no entries.
#[verifier::external_body]
pub(crate) fn table_is_empty(d: &Document, table: &str) -> (r: bool)
    requires
        table_entries(*d, table@) is Some,
    ensures
        r == table_entries(*d, table@)->0.dom().is_empty(),
{
    d[table].as_table().map(|t| t.is_empty()).unwrap_or(false)
}

/// Removes the top-level `key` (`Table::remove` on the root). Trusted: the key
/// and its table are gone; everything else stays.
#[verifier::external_body]
pub(crate) fn drop_key(d: &mut Document, key: &str)
    ensures
        !top_keys(*final(d)).contains(key@),
        table_entries(*final(d), key@) is None,
        others_kept(*old(d), *final(d), key@),
{
    d.remove(key);
}

/// Prints the document (`Document::to_string`). Trusted: the text is what the
/// name `doc_text` records.
#[verifier::external_body]
pub(crate) fn print_document(d: &Document) -> (r: String)
    ensures
        r@ == doc_text(*d),
{
    d.to_string()
}

} // verus!
