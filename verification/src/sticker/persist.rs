//! What is written back to the configuration for the loaded packs, and
//! how the configuration text is updated with it.
use vstd::prelude::*;
use toml_edit::{value, ArrayOfTables, DocumentMut, Item, Table, TomlError};
use super::fetch::{browseable, to_browseable_url};
use super::registry::Registry;
use super::weburl::{WebUrl, opt_text};

verus! {

/// The `[[sticker.packs]]` entries for the registry, in its order: each
/// pack's shareable folder address and its label.
pub fn persisted_entries(registry: &Registry) -> (r: Vec<(WebUrl, Option<String>)>)
    ensures
        r@.len() == registry@.len(),
        forall|i: int|
            0 <= i < r@.len() ==> (#[trigger] r@[i]).0@ == browseable(registry@[i].base_url@)
                && opt_text(r@[i].1) == opt_text(registry@[i].label),
{
    let packs = registry.iter();
    let n = packs.len();
    let mut out: Vec<(WebUrl, Option<String>)> = Vec::new();
    let mut i: usize = 0;
    while i < n
        invariant
            n == packs@.len(),
            n == registry@.len(),
            forall|j: int| 0 <= j < n ==> *packs@[j] == registry@[j],
            i <= n,
            out@.len() == i,
            forall|j: int|
                0 <= j < i ==> (#[trigger] out@[j]).0@ == browseable(registry@[j].base_url@)
                    && opt_text(out@[j].1) == opt_text(registry@[j].label),
        decreases n - i,
    {
        let p = packs[i];
        let label = match &p.label {
            Some(l) => Some(l.clone()),
            None => None,
        };
        out.push((to_browseable_url(&p.base_url), label));
        i = i + 1;
    }
    out
}

#[verifier::external_type_specification]
#[verifier::external_body]
pub struct ExDocumentMut(toml_edit::DocumentMut);

#[verifier::external_type_specification]
#[verifier::external_body]
pub struct ExTomlError(toml_edit::TomlError);

#[verifier::external_type_specification]
#[verifier::external_body]
pub struct ExTable(toml_edit::Table);

#[verifier::external_type_specification]
#[verifier::external_body]
pub struct ExArrayOfTables(toml_edit::ArrayOfTables);

/// The document `toml_edit` parses a TOML text into; `None` where the text
/// is not a TOML document. Documents are taken as what they hold (entries
/// in order, comments and layout), not as where they lie in memory.
pub uninterp spec fn toml_document(text: Seq<char>) -> Option<DocumentMut>;

/// The top-level keys of a document that hold an item, each with whether
/// that item is a table (standard or inline).
pub uninterp spec fn doc_keys(doc: DocumentMut) -> Map<Seq<char>, bool>;

/// The tables of the array of tables at `doc[table][key]`, each by the
/// strings it holds; `None` where that item is not an array of tables.
pub uninterp spec fn doc_array(doc: DocumentMut, table: Seq<char>, key: Seq<char>) -> Option<Seq<Map<Seq<char>, Seq<char>>>>;

/// The document with the entry at the key path `path` (a top-level key, or
/// a table's key and a key inside that table) taken out, everything else
/// as it was; the document itself where it has no such entry (a key left
/// holding no item counts as no entry and is taken out too).
pub uninterp spec fn doc_without(doc: DocumentMut, path: Seq<Seq<char>>) -> DocumentMut;

/// The key path of the entry `key` of the table `table`.
pub open spec fn entry_path(table: Seq<char>, key: Seq<char>) -> Seq<Seq<char>> {
    seq![table, key]
}

/// The text of a document, as its `Display` writes it.
pub uninterp spec fn doc_text(doc: DocumentMut) -> Seq<char>;

/// Calls `DocumentMut::new`, which makes a document with no keys.
#[verifier::external_body]
fn new_document() -> (r: DocumentMut)
    ensures
        doc_keys(r).dom() == Set::<Seq<char>>::empty(),
{
    DocumentMut::new()
}

/// Parses a TOML text with `DocumentMut`'s `FromStr`, which fails exactly
/// where the text is not a TOML document.
#[verifier::external_body]
fn parse_document(text: &str) -> (r: Result<DocumentMut, TomlError>)
    ensures
        match r {
            Ok(d) => toml_document(text@) == Some(d),
            Err(_) => toml_document(text@) is None,
        },
{
    text.parse::<DocumentMut>()
}

/// Calls `Table::get` on the document's root and `Item::is_table_like` on
/// what it finds: `None` where the key holds no item.
#[verifier::external_body]
fn key_is_table_like(doc: &DocumentMut, key: &str) -> (r: Option<bool>)
    ensures
        r == if doc_keys(*doc).dom().contains(key@) {
            Some(doc_keys(*doc)[key@])
        } else {
            None
        },
{
    doc.get(key).map(Item::is_table_like)
}

/// Sets `doc[key]` to a new empty table (the root table's `IndexMut`): the
/// key now holds a table with no entries, and everything but that key
/// stays as it was.
#[verifier::external_body]
fn put_empty_table(doc: &mut DocumentMut, key: &str)
    ensures
        doc_keys(*final(doc)) == doc_keys(*old(doc)).insert(key@, true),
        forall|k: Seq<char>| #[trigger] doc_without(*final(doc), entry_path(key@, k)) == *final(doc),
        doc_without(*final(doc), seq![key@]) == doc_without(*old(doc), seq![key@]),
{
    doc[key] = Item::Table(Table::new());
}

/// Sets `doc[table][key]` to an array of tables. `Item`'s `IndexMut` panics
/// where `doc[table]` is not a table (standard or inline), which the
/// `requires` rules out. The entry is replaced where it was there and added
/// last where it was not; the top-level keys and every other entry stay as
/// they are.
#[verifier::external_body]
fn put_array_of_tables(doc: &mut DocumentMut, table: &str, key: &str, items: ArrayOfTables)
    requires
        doc_keys(*old(doc)).dom().contains(table@),
        doc_keys(*old(doc))[table@],
    ensures
        doc_keys(*final(doc)) == doc_keys(*old(doc)),
        doc_array(*final(doc), table@, key@) == Some(array_tables(items)),
        doc_without(*final(doc), entry_path(table@, key@)) == doc_without(*old(doc), entry_path(table@, key@)),
{
    doc[table][key] = Item::ArrayOfTables(items);
}

/// The keys of a table that hold a string, each with its string.
pub uninterp spec fn table_texts(table: Table) -> Map<Seq<char>, Seq<char>>;

/// The tables of an array of tables, in order, each by the strings it holds.
pub uninterp spec fn array_tables(items: ArrayOfTables) -> Seq<Map<Seq<char>, Seq<char>>>;

/// Calls `Table::new`, which makes a table with no keys.
#[verifier::external_body]
fn new_table() -> (r: Table)
    ensures
        table_texts(r).dom() == Set::<Seq<char>>::empty(),
{
    Table::new()
}

/// Sets `table[key]` to a string value (the table's `IndexMut` adds the key
/// where it is missing and replaces its item where it is there).
#[verifier::external_body]
fn put_text(table: &mut Table, key: &str, text: &str)
    ensures
        table_texts(*final(table)) == table_texts(*old(table)).insert(key@, text@),
{
    table[key] = value(text);
}

/// Calls `ArrayOfTables::new`, which makes an empty array.
#[verifier::external_body]
fn new_array_of_tables() -> (r: ArrayOfTables)
    ensures
        array_tables(r).len() == 0,
{
    ArrayOfTables::new()
}

/// Calls `ArrayOfTables::push`, which adds the table at the end.
#[verifier::external_body]
fn push_table(items: &mut ArrayOfTables, table: Table)
    ensures
        array_tables(*final(items)) == array_tables(*old(items)).push(table_texts(table)),
{
    items.push(table);
}

/// The text of a document (its `Display`), which keeps the comments and
/// layout of the text it was parsed from.
#[verifier::external_body]
fn document_text(doc: &DocumentMut) -> (r: String)
    ensures
        r@ == doc_text(*doc),
{
    doc.to_string()
}

/// Why the configuration text could not be updated.
#[derive(Debug)]
pub enum EditError {
    /// The existing configuration is not valid TOML.
    Parse(TomlError),
    /// The existing configuration's `sticker` entry is not a table.
    StickerNotATable,
}

/// The strings of the `[[sticker.packs]]` table for one entry: its `url`
/// and, where it has one, its `label`.
pub open spec fn pack_table(url: Seq<char>, label: Option<Seq<char>>) -> Map<Seq<char>, Seq<char>> {
    let t = Map::<Seq<char>, Seq<char>>::empty().insert("url"@, url);
    match label {
        Some(l) => t.insert("label"@, l),
        None => t,
    }
}

/// The strings of the `[[sticker.packs]]` tables for the entries, in order.
pub open spec fn pack_tables(entries: Seq<(WebUrl, Option<String>)>) -> Seq<Map<Seq<char>, Seq<char>>> {
    Seq::new(entries.len(), |i: int| pack_table(entries[i].0@.serialized, opt_text(entries[i].1)))
}

/// `text` is the text of the document `d0` with its `sticker` table (added,
/// empty, where `d0` has no `sticker` entry) holding `tables` as its `packs`
/// array of tables, and nothing else changed.
pub open spec fn packs_saved(text: Seq<char>, d0: DocumentMut, tables: Seq<Map<Seq<char>, Seq<char>>>) -> bool {
    let s = "sticker"@;
    let path = entry_path(s, "packs"@);
    exists|d: DocumentMut|
        {
            &&& #[trigger] doc_text(d) == text
            &&& doc_keys(d) == doc_keys(d0).insert(s, true)
            &&& doc_array(d, s, "packs"@) == Some(tables)
            &&& if doc_keys(d0).dom().contains(s) {
                doc_without(d, path) == doc_without(d0, path)
            } else {
                doc_without(doc_without(d, path), seq![s]) == doc_without(d0, seq![s])
            }
        }
}

/// `text` is the text of a new document (one with no keys) with a
/// `sticker` table holding `tables` as its `packs` array of tables.
pub open spec fn packs_saved_new(text: Seq<char>, tables: Seq<Map<Seq<char>, Seq<char>>>) -> bool {
    exists|d0: DocumentMut| doc_keys(d0).dom() == Set::<Seq<char>>::empty() && #[trigger] packs_saved(text, d0, tables)
}

/// The `[[sticker.packs]]` array of tables for the entries: one table per
/// entry, in order, with its `url` and, where it has one, its `label`.
fn packs_array(entries: &Vec<(WebUrl, Option<String>)>) -> (r: ArrayOfTables)
    ensures
        array_tables(r) == pack_tables(entries@),
        array_tables(r).len() == entries@.len(),
        forall|i: int|
            0 <= i < entries@.len() ==> #[trigger] array_tables(r)[i] == pack_table(
                entries@[i].0@.serialized,
                opt_text(entries@[i].1),
            ),
{
    let mut items = new_array_of_tables();
    let n = entries.len();
    let mut i: usize = 0;
    while i < n
        invariant
            n == entries@.len(),
            i <= n,
            array_tables(items).len() == i,
            forall|j: int|
                0 <= j < i ==> #[trigger] array_tables(items)[j] == pack_table(
                    entries@[j].0@.serialized,
                    opt_text(entries@[j].1),
                ),
        decreases n - i,
    {
        let mut t = new_table();
        put_text(&mut t, "url", entries[i].0.as_str());
        match &entries[i].1 {
            Some(label) => put_text(&mut t, "label", label.as_str()),
            None => {},
        }
        assert(table_texts(t) =~= pack_table(entries@[i as int].0@.serialized, opt_text(entries@[i as int].1)));
        push_table(&mut items, t);
        i = i + 1;
    }
    assert(array_tables(items) =~= pack_tables(entries@));
    items
}

/// The configuration text `existing` with its `[[sticker.packs]]` entries
/// replaced by one table per entry, in order (its `url`, and its `label`
/// where it has one), everything else kept as it was (an empty text starts
/// a new document; a missing `[sticker]` table is added).
///
/// Fails with `Parse` where a non-empty `existing` is not TOML, and with
/// `StickerNotATable` where its `sticker` entry is something other than a
/// table.
pub fn packs_config_text(existing: &str, entries: &Vec<(WebUrl, Option<String>)>) -> (r: Result<String, EditError>)
    ensures
        existing@.len() == 0 ==> (r matches Ok(t) && packs_saved_new(t@, pack_tables(entries@))),
        existing@.len() > 0 ==> match toml_document(existing@) {
            None => r matches Err(EditError::Parse(_)),
            Some(d0) => if doc_keys(d0).dom().contains("sticker"@) && !doc_keys(d0)["sticker"@] {
                r matches Err(EditError::StickerNotATable)
            } else {
                r matches Ok(t) && packs_saved(t@, d0, pack_tables(entries@))
            },
        },
{
    let mut doc = if existing.unicode_len() == 0 {
        new_document()
    } else {
        match parse_document(existing) {
            Ok(d) => d,
            Err(e) => return Err(EditError::Parse(e)),
        }
    };
    let ghost d0 = doc;
    let sticker = "sticker";
    let packs = "packs";
    proof {
        reveal_strlit("sticker");
        reveal_strlit("packs");
    }
    match key_is_table_like(&doc, sticker) {
        Some(true) => {},
        Some(false) => return Err(EditError::StickerNotATable),
        None => put_empty_table(&mut doc, sticker),
    }
    let ghost d1 = doc;
    let items = packs_array(entries);
    put_array_of_tables(&mut doc, sticker, packs, items);
    let text = document_text(&doc);
    proof {
        let path = entry_path(sticker@, packs@);
        if !doc_keys(d0).dom().contains(sticker@) {
            assert(doc_without(d1, path) == d1);
        }
        assert(doc_keys(doc) == doc_keys(d0).insert(sticker@, true));
        assert(packs_saved(text@, d0, pack_tables(entries@)));
        if existing@.len() == 0 {
            assert(doc_keys(d0).dom() == Set::<Seq<char>>::empty());
            assert(packs_saved_new(text@, pack_tables(entries@)));
        }
    }
    Ok(text)
}

} // verus!
