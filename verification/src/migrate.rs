//! Migration of a user's `config.toml` to the current schema, preserving
//! the user's values, comments and layout.
//!
//! Two mechanisms: a chain of versioned steps for non-additive changes, and
//! a reconciliation that copies every section or key present in the
//! annotated default document but missing from the user's file, with its
//! comments. The steps: v1 → v2 drops the deprecated `workspace.include`;
//! v2 → v3 moves `[chunking]`, `[image]`, `[pdf]` and `[indexing]` under
//! `[ingest]`; v3 → v4 mirrors `workspace.root` into a default
//! `[[workspace.sources]]` entry; v4 → v5 moves the image OCR engine into a
//! shared `[ingest.ocr]`. The default document, written in the version 2
//! layout, is brought through the same steps before it is compared.
//! Finally the file is stamped with the current `schema_version`. The TOML
//! documents are edited with `toml_edit`; this module decides what to edit
//! and records each change.

use vstd::prelude::*;
use crate::config::str_eq;
use crate::text::{chars_of, string_from_chars};

verus! {

/// The config schema version this library writes.
pub const CURRENT_SCHEMA_VERSION: u32 = 5;

#[verifier::external_type_specification]
#[verifier::external_body]
pub struct ExDocumentMut(toml_edit::DocumentMut);

#[verifier::external_type_specification]
#[verifier::external_body]
pub struct ExTable(toml_edit::Table);

/// The shape of a TOML item: a table (with its entries in order), an
/// integer value, or any other value (string, float, array, inline table,
/// array of tables, ...).
pub enum TomlNode {
    Table(Seq<(Seq<char>, TomlNode)>),
    Integer(i64),
    Other,
}

/// The entries a `toml_edit::Table` iterates, in order: each key with the
/// shape of its item. (`toml_edit` skips empty placeholder items when it
/// iterates or looks a key up; they are not entries.)
pub uninterp spec fn table_entries(t: toml_edit::Table) -> Seq<(Seq<char>, TomlNode)>;

/// The entries of a document's root table.
pub uninterp spec fn document_entries(d: toml_edit::DocumentMut) -> Seq<(Seq<char>, TomlNode)>;

/// The root entries of `text` parsed by `toml_edit`, or `None` when it is
/// not valid TOML.
pub uninterp spec fn parsed_toml(text: Seq<char>) -> Option<Seq<(Seq<char>, TomlNode)>>;

/// The header prefix of the table reached from `t` through the keys of
/// `path` (each step `Table::get`, then `Item::as_table`): the prefix of
/// that table's `Table::decor`, when it holds a text (`Decor::prefix`,
/// `RawString::as_str`); `None` when there is no such table, it has no
/// prefix, or the prefix is a span of a parsed source.
pub uninterp spec fn header_prefix_at(t: toml_edit::Table, path: Seq<Seq<char>>) -> Option<Seq<char>>;

/// The decoration of the key reached from `t` through the non-empty `path`
/// (each step but the last `Table::get` then `Item::as_table`, the last
/// `Table::key`): the prefix and suffix texts of its `Key::leaf_decor`,
/// each `None` when unset or a span of a parsed source; `None` when there
/// is no such key or `path` is empty.
pub uninterp spec fn key_decor_at(t: toml_edit::Table, path: Seq<Seq<char>>) -> Option<
    (Option<Seq<char>>, Option<Seq<char>>),
>;

/// The decoration of the item reached from `t` through `path` (the table
/// `t` itself for the empty path): the prefix and suffix texts of a
/// value's `Value::decor` or a table's `Table::decor`, each `None` when
/// unset or a span of a parsed source; `None` when there is no such item
/// or it is an array of tables.
pub uninterp spec fn item_decor_at(t: toml_edit::Table, path: Seq<Seq<char>>) -> Option<
    (Option<Seq<char>>, Option<Seq<char>>),
>;

/// `key_decor_at` of a document's root table.
pub uninterp spec fn document_key_decor_at(d: toml_edit::DocumentMut, path: Seq<Seq<char>>) -> Option<
    (Option<Seq<char>>, Option<Seq<char>>),
>;

/// `item_decor_at` of a document's root table.
pub uninterp spec fn document_item_decor_at(d: toml_edit::DocumentMut, path: Seq<Seq<char>>) -> Option<
    (Option<Seq<char>>, Option<Seq<char>>),
>;

/// `document_key_decor_at` of the document `toml_edit` parses from `text`.
pub uninterp spec fn parsed_key_decor(text: Seq<char>, path: Seq<Seq<char>>) -> Option<
    (Option<Seq<char>>, Option<Seq<char>>),
>;

/// `document_item_decor_at` of the document `toml_edit` parses from `text`.
pub uninterp spec fn parsed_item_decor(text: Seq<char>, path: Seq<Seq<char>>) -> Option<
    (Option<Seq<char>>, Option<Seq<char>>),
>;

/// `document_first_key_prefix` of the document `toml_edit` parses from
/// `text`.
pub uninterp spec fn parsed_first_key_prefix(text: Seq<char>) -> Option<Seq<char>>;

/// The text `toml_edit` renders for a document (`DocumentMut`'s `Display`).
pub uninterp spec fn document_text(d: toml_edit::DocumentMut) -> Seq<char>;

/// `header_prefix_at` of a document's root table (`DocumentMut::as_table`).
pub uninterp spec fn document_header_prefix_at(d: toml_edit::DocumentMut, path: Seq<Seq<char>>) -> Option<Seq<char>>;

/// The prefix of the decoration of the key of a table's first entry, in
/// `Table::iter` order (`Key::leaf_decor`, `Decor::prefix`,
/// `RawString::as_str`): `None` when the table has no entry, the prefix is
/// unset, or it is a span of a parsed source.
pub uninterp spec fn first_key_prefix(t: toml_edit::Table) -> Option<Seq<char>>;

/// `first_key_prefix` of a document's root table.
pub uninterp spec fn document_first_key_prefix(d: toml_edit::DocumentMut) -> Option<Seq<char>>;

/// Index of the entry with key `k` (keys of a table are distinct), or -1.
pub open spec fn find_key(es: Seq<(Seq<char>, TomlNode)>, k: Seq<char>) -> int
    decreases es.len(),
{
    if es.len() == 0 {
        -1
    } else if es.last().0 == k {
        es.len() - 1
    } else {
        find_key(es.drop_last(), k)
    }
}

/// The node under key `k`.
pub open spec fn node_at(es: Seq<(Seq<char>, TomlNode)>, k: Seq<char>) -> TomlNode {
    es[find_key(es, k)].1
}

/// Parse `text` as a TOML document (`str::parse::<toml_edit::DocumentMut>`).
#[verifier::external_body]
fn parse_document(text: &str) -> (res: Option<toml_edit::DocumentMut>)
    ensures
        match res {
            Some(d) => {
                &&& parsed_toml(text@) == Some(document_entries(d))
                &&& document_first_key_prefix(d) == parsed_first_key_prefix(text@)
                &&& forall|p: Seq<Seq<char>>| #[trigger]
                    document_key_decor_at(d, p) == parsed_key_decor(text@, p)
                &&& forall|p: Seq<Seq<char>>| #[trigger]
                    document_item_decor_at(d, p) == parsed_item_decor(text@, p)
            },
            None => parsed_toml(text@) is None,
        },
{
    text.parse::<toml_edit::DocumentMut>().ok()
}

/// The root table of a document (`DocumentMut::as_table`).
#[verifier::external_body]
fn root_table(doc: &toml_edit::DocumentMut) -> (res: &toml_edit::Table)
    ensures
        table_entries(*res) == document_entries(*doc),
        forall|p: Seq<Seq<char>>| #[trigger] item_decor_at(*res, p) == document_item_decor_at(*doc, p),
{
    doc.as_table()
}

/// The root table of a document, for editing (`DocumentMut::as_table_mut`).
#[verifier::external_body]
fn root_table_mut(doc: &mut toml_edit::DocumentMut) -> (res: &mut toml_edit::Table)
    ensures
        table_entries(*res) == document_entries(*old(doc)),
        document_entries(*final(doc)) == table_entries(*final(res)),
        document_first_key_prefix(*final(doc)) == first_key_prefix(*final(res)),
        first_key_prefix(*res) == document_first_key_prefix(*old(doc)),
        forall|p: Seq<Seq<char>>| #[trigger] key_decor_at(*res, p) == document_key_decor_at(*old(doc), p),
        forall|p: Seq<Seq<char>>| #[trigger] item_decor_at(*res, p) == document_item_decor_at(*old(doc), p),
        forall|p: Seq<Seq<char>>| #[trigger]
            document_key_decor_at(*final(doc), p) == key_decor_at(*final(res), p),
        forall|p: Seq<Seq<char>>| #[trigger]
            document_item_decor_at(*final(doc), p) == item_decor_at(*final(res), p),
        forall|p: Seq<Seq<char>>| #[trigger]
            document_header_prefix_at(*final(doc), p) == header_prefix_at(*final(res), p),
{
    doc.as_table_mut()
}

/// The document's text (`DocumentMut`'s `Display`), named `document_text`.
/// That the text parses back to the same entries is not stated: the
/// encoder hides implicit tables left without entries and writes
/// decoration prefixes verbatim (`encode.rs`, `visit_table`).
#[verifier::external_body]
fn render_document(doc: &toml_edit::DocumentMut) -> (res: String)
    ensures
        res@ == document_text(*doc),
{
    doc.to_string()
}

/// The keys of a table, in order (`Table::iter`); they are distinct, being
/// the keys of the table's `IndexMap`, which compares keys by their text.
#[verifier::external_body]
fn entry_list(t: &toml_edit::Table) -> (res: Vec<String>)
    ensures
        res@.len() == table_entries(*t).len(),
        forall|i: int| 0 <= i < res@.len() ==> (#[trigger] res@[i])@ == table_entries(*t)[i].0,
        forall|i: int, j: int| 0 <= i < j < res@.len() ==> (#[trigger] res@[i])@ != (#[trigger] res@[j])@,
{
    t.iter().map(|(k, _)| k.to_string()).collect()
}

/// Whether `key` is present, and if so whether its item is a table
/// (`Table::get`).
#[verifier::external_body]
fn lookup(t: &toml_edit::Table, key: &str) -> (res: Option<bool>)
    ensures
        match res {
            None => find_key(table_entries(*t), key@) < 0,
            Some(b) => find_key(table_entries(*t), key@) >= 0 && b == (node_at(table_entries(*t), key@) is Table),
        },
{
    t.get(key).map(toml_edit::Item::is_table)
}

/// The integer under `key`, if there is one (`Table::get`, `Item::as_integer`).
#[verifier::external_body]
fn integer_at(t: &toml_edit::Table, key: &str) -> (res: Option<i64>)
    ensures
        res == (if find_key(table_entries(*t), key@) >= 0 {
            match node_at(table_entries(*t), key@) {
                TomlNode::Integer(v) => Some(v),
                _ => None,
            }
        } else {
            None
        }),
{
    t.get(key).and_then(toml_edit::Item::as_integer)
}

/// The table under `key` (`Table::get`, `Item::as_table`).
#[verifier::external_body]
fn sub_table<'a>(t: &'a toml_edit::Table, key: &str) -> (res: &'a toml_edit::Table)
    requires
        find_key(table_entries(*t), key@) >= 0,
        node_at(table_entries(*t), key@) is Table,
    ensures
        table_entries(*res) == node_at(table_entries(*t), key@)->Table_0,
        forall|p: Seq<Seq<char>>| #[trigger] item_decor_at(*res, p) == item_decor_at(*t, seq![key@] + p),
{
    t.get(key).and_then(toml_edit::Item::as_table).unwrap()
}

/// The table under `key`, for editing in place (`Table::get_mut`,
/// `Item::as_table_mut`): the very table found under `key`, so the header
/// prefixes below it are those below `key`, before and after the edit, and
/// no other header prefix changes.
#[verifier::external_body]
fn sub_table_mut<'a>(t: &'a mut toml_edit::Table, key: &str) -> (res: &'a mut toml_edit::Table)
    requires
        find_key(table_entries(*old(t)), key@) >= 0,
        node_at(table_entries(*old(t)), key@) is Table,
    ensures
        table_entries(*res) == node_at(table_entries(*old(t)), key@)->Table_0,
        table_entries(*final(t)) == table_entries(*old(t)).update(
            find_key(table_entries(*old(t)), key@),
            (key@, TomlNode::Table(table_entries(*final(res)))),
        ),
        forall|p: Seq<Seq<char>>| #[trigger]
            header_prefix_at(*res, p) == header_prefix_at(*old(t), seq![key@] + p),
        forall|p: Seq<Seq<char>>| #[trigger]
            header_prefix_at(*final(t), seq![key@] + p) == header_prefix_at(*final(res), p),
        forall|p: Seq<Seq<char>>|
            (p.len() == 0 || p[0] != key@) ==> #[trigger] header_prefix_at(*final(t), p) == header_prefix_at(
                *old(t),
                p,
            ),
        first_key_prefix(*final(t)) == first_key_prefix(*old(t)),
        forall|p: Seq<Seq<char>>| #[trigger] item_decor_at(*res, p) == item_decor_at(*old(t), seq![key@] + p),
        forall|p: Seq<Seq<char>>|
            p.len() > 0 ==> #[trigger] key_decor_at(*res, p) == key_decor_at(*old(t), seq![key@] + p),
        forall|p: Seq<Seq<char>>| #[trigger]
            item_decor_at(*final(t), seq![key@] + p) == item_decor_at(*final(res), p),
        forall|p: Seq<Seq<char>>|
            p.len() > 0 ==> #[trigger] key_decor_at(*final(t), seq![key@] + p) == key_decor_at(*final(res), p),
        key_decor_at(*final(t), seq![key@]) == key_decor_at(*old(t), seq![key@]),
        forall|p: Seq<Seq<char>>|
            (p.len() == 0 || p[0] != key@) ==> #[trigger] item_decor_at(*final(t), p) == item_decor_at(*old(t), p),
        forall|p: Seq<Seq<char>>|
            (p.len() == 0 || p[0] != key@) ==> #[trigger] key_decor_at(*final(t), p) == key_decor_at(*old(t), p),
{
    t.get_mut(key).and_then(toml_edit::Item::as_table_mut).unwrap()
}

/// Append a copy of `reference`'s item under `key`, its decoration
/// (comments) and everything below it included, to `user`, which has no
/// such key (`Item::clone`, `Table::insert`; a leftover empty placeholder
/// under `key` is dropped first with `Table::remove`, so the new entry
/// comes last). The new key itself is made by `Table::insert` with the
/// default decoration; the rest of `user` keeps its decoration.
#[verifier::external_body]
fn copy_entry(user: &mut toml_edit::Table, reference: &toml_edit::Table, key: &str)
    requires
        find_key(table_entries(*reference), key@) >= 0,
        find_key(table_entries(*old(user)), key@) < 0,
    ensures
        table_entries(*final(user)) == table_entries(*old(user)).push(
            (key@, node_at(table_entries(*reference), key@)),
        ),
        forall|p: Seq<Seq<char>>| #[trigger]
            item_decor_at(*final(user), seq![key@] + p) == item_decor_at(*reference, seq![key@] + p),
        table_entries(*old(user)).len() > 0 ==> first_key_prefix(*final(user)) == first_key_prefix(*old(user)),
        forall|p: Seq<Seq<char>>|
            (p.len() == 0 || p[0] != key@) ==> #[trigger] item_decor_at(*final(user), p) == item_decor_at(*old(user), p),
        forall|p: Seq<Seq<char>>|
            (p.len() == 0 || p[0] != key@) ==> #[trigger] key_decor_at(*final(user), p) == key_decor_at(*old(user), p),
{
    let item = reference[key].clone();
    user.remove(key);
    user.insert(key, item);
}

/// The entries after moving the entry under `key` of `es` into the table
/// under `dest`, as its last entry.
pub open spec fn move_into_spec(es: Seq<(Seq<char>, TomlNode)>, key: Seq<char>, dest: Seq<char>) -> Seq<
    (Seq<char>, TomlNode),
> {
    let node = node_at(es, key);
    let u = es.remove(find_key(es, key));
    let g = find_key(u, dest);
    u.update(g, (dest, TomlNode::Table(u[g].1->Table_0.push((key, node)))))
}

/// Move the entry under `key` into the table under `dest`, as its last
/// entry (`Table::remove`, `Item::as_table_mut`, `Table::insert`; a
/// leftover empty placeholder under `key` in `dest` is dropped first). The
/// item keeps its decoration and everything below it; the key itself is
/// made by `Table::insert` with the default decoration; entries under
/// other keys keep theirs, and the first key stays first unless it moves.
#[verifier::external_body]
fn move_into_table(t: &mut toml_edit::Table, key: &str, dest: &str)
    requires
        key@ != dest@,
        find_key(table_entries(*old(t)), key@) >= 0,
        find_key(table_entries(*old(t)), dest@) >= 0,
        node_at(table_entries(*old(t)), dest@) is Table,
        find_key(node_at(table_entries(*old(t)), dest@)->Table_0, key@) < 0,
    ensures
        table_entries(*final(t)) == move_into_spec(table_entries(*old(t)), key@, dest@),
        find_key(table_entries(*old(t)), key@) != 0 ==> first_key_prefix(*final(t)) == first_key_prefix(*old(t)),
        forall|p: Seq<Seq<char>>|
            (p.len() == 0 || (p[0] != key@ && p[0] != dest@)) ==> #[trigger] key_decor_at(*final(t), p)
                == key_decor_at(*old(t), p),
        forall|p: Seq<Seq<char>>|
            (p.len() == 0 || (p[0] != key@ && p[0] != dest@)) ==> #[trigger] item_decor_at(*final(t), p)
                == item_decor_at(*old(t), p),
        forall|q: Seq<Seq<char>>| #[trigger]
            item_decor_at(*final(t), seq![dest@] + seq![key@] + q) == item_decor_at(*old(t), seq![key@] + q),
{
    let item = t.remove(key).unwrap_or_default();
    if let Some(d) = t.get_mut(dest).and_then(toml_edit::Item::as_table_mut) {
        d.remove(key);
        d.insert(key, item);
    }
}

/// Add an empty table under `key`, which `t` lacks, as the last entry
/// (`Table::new`, `Table::insert`; a leftover empty placeholder is dropped
/// first). Everything else keeps its decoration.
#[verifier::external_body]
fn insert_empty_table(t: &mut toml_edit::Table, key: &str)
    requires
        find_key(table_entries(*old(t)), key@) < 0,
    ensures
        table_entries(*final(t)) == table_entries(*old(t)).push((key@, TomlNode::Table(seq![]))),
        table_entries(*old(t)).len() > 0 ==> first_key_prefix(*final(t)) == first_key_prefix(*old(t)),
        forall|p: Seq<Seq<char>>|
            (p.len() == 0 || p[0] != key@) ==> #[trigger] key_decor_at(*final(t), p) == key_decor_at(*old(t), p),
        forall|p: Seq<Seq<char>>|
            (p.len() == 0 || p[0] != key@) ==> #[trigger] item_decor_at(*final(t), p) == item_decor_at(*old(t), p),
{
    t.remove(key);
    t.insert(key, toml_edit::Item::Table(toml_edit::Table::new()));
}

/// Add, as the last entry under `key` (which `t` lacks), an array of one
/// table holding `id_key = id` and a copy of the item under `copy_key`
/// (`Table::new`, `Table::insert`, `toml_edit::value`, `Item::clone`,
/// `ArrayOfTables::push`). Everything else keeps its decoration.
#[verifier::external_body]
fn add_table_array(t: &mut toml_edit::Table, key: &str, id_key: &str, id: &str, copy_key: &str)
    requires
        find_key(table_entries(*old(t)), key@) < 0,
        find_key(table_entries(*old(t)), copy_key@) >= 0,
    ensures
        table_entries(*final(t)) == table_entries(*old(t)).push((key@, TomlNode::Other)),
        table_entries(*old(t)).len() > 0 ==> first_key_prefix(*final(t)) == first_key_prefix(*old(t)),
        forall|p: Seq<Seq<char>>|
            (p.len() == 0 || p[0] != key@) ==> #[trigger] key_decor_at(*final(t), p) == key_decor_at(*old(t), p),
        forall|p: Seq<Seq<char>>|
            (p.len() == 0 || p[0] != key@) ==> #[trigger] item_decor_at(*final(t), p) == item_decor_at(*old(t), p),
{
    let mut entry = toml_edit::Table::new();
    entry.insert(id_key, toml_edit::value(id));
    entry.insert(copy_key, t[copy_key].clone());
    let mut array = toml_edit::ArrayOfTables::new();
    array.push(entry);
    t.remove(key);
    t.insert(key, toml_edit::Item::ArrayOfTables(array));
}

/// A copy of a table, entries and decoration included (`Table::clone`).
#[verifier::external_body]
fn clone_table(t: &toml_edit::Table) -> (res: toml_edit::Table)
    ensures
        table_entries(res) == table_entries(*t),
        forall|p: Seq<Seq<char>>| #[trigger] item_decor_at(res, p) == item_decor_at(*t, p),
{
    t.clone()
}

/// A copy of a document, entries and decoration included
/// (`DocumentMut::clone`).
#[verifier::external_body]
fn clone_document(d: &toml_edit::DocumentMut) -> (res: toml_edit::DocumentMut)
    ensures
        document_entries(res) == document_entries(*d),
        forall|p: Seq<Seq<char>>| #[trigger] document_item_decor_at(res, p) == document_item_decor_at(*d, p),
{
    d.clone()
}

/// Remove the entry under `key`; true when there was one (`Table::remove`).
/// Keys being distinct, the key is then gone; everything else keeps its
/// decoration.
#[verifier::external_body]
fn remove_key(t: &mut toml_edit::Table, key: &str) -> (res: bool)
    ensures
        res == (find_key(table_entries(*old(t)), key@) >= 0),
        res ==> table_entries(*final(t)) == table_entries(*old(t)).remove(find_key(table_entries(*old(t)), key@)),
        res ==> find_key(table_entries(*final(t)), key@) < 0,
        !res ==> table_entries(*final(t)) == table_entries(*old(t)),
        forall|p: Seq<Seq<char>>|
            (p.len() == 0 || p[0] != key@) ==> #[trigger] key_decor_at(*final(t), p) == key_decor_at(*old(t), p),
        forall|p: Seq<Seq<char>>|
            (p.len() == 0 || p[0] != key@) ==> #[trigger] item_decor_at(*final(t), p) == item_decor_at(*old(t), p),
{
    t.remove(key).is_some_and(|item| !item.is_none())
}

/// Set `key` to the integer `v`: in place when the key is present (its key
/// and the rest of the table keep their decoration; the new value has the
/// default one), else as a new last entry (`Table::get_mut` /
/// `Table::insert`, `toml_edit::value`).
#[verifier::external_body]
fn set_integer(t: &mut toml_edit::Table, key: &str, v: i64)
    ensures
        table_entries(*final(t)) == (if find_key(table_entries(*old(t)), key@) >= 0 {
            table_entries(*old(t)).update(find_key(table_entries(*old(t)), key@), (key@, TomlNode::Integer(v)))
        } else {
            table_entries(*old(t)).push((key@, TomlNode::Integer(v)))
        }),
        table_entries(*old(t)).len() > 0 ==> first_key_prefix(*final(t)) == first_key_prefix(*old(t)),
        find_key(table_entries(*old(t)), key@) >= 0 ==> key_decor_at(*final(t), seq![key@]) == key_decor_at(
            *old(t),
            seq![key@],
        ),
        forall|p: Seq<Seq<char>>|
            (p.len() == 0 || p[0] != key@) ==> #[trigger] key_decor_at(*final(t), p) == key_decor_at(*old(t), p),
        forall|p: Seq<Seq<char>>|
            (p.len() == 0 || p[0] != key@) ==> #[trigger] item_decor_at(*final(t), p) == item_decor_at(*old(t), p),
{
    match t.get_mut(key) {
        Some(item) => *item = toml_edit::value(v),
        None => {
            t.remove(key);
            t.insert(key, toml_edit::value(v));
        },
    }
}

/// Put `prefix` before the table's header (`Table::decor_mut`,
/// `Decor::set_prefix`). Entries and the headers of the tables below are
/// unchanged.
#[verifier::external_body]
fn set_header_prefix(t: &mut toml_edit::Table, prefix: &str)
    ensures
        table_entries(*final(t)) == table_entries(*old(t)),
        header_prefix_at(*final(t), seq![]) == Some(prefix@),
        forall|p: Seq<Seq<char>>| p.len() > 0 ==> #[trigger] header_prefix_at(*final(t), p) == header_prefix_at(*old(t), p),
        first_key_prefix(*final(t)) == first_key_prefix(*old(t)),
{
    t.decor_mut().set_prefix(prefix);
}

/// Put `prefix` before the first key of the table, if any
/// (`Table::iter_mut`, `KeyMut::leaf_decor_mut`, `Decor::set_prefix`).
/// Entries and table headers are unchanged.
#[verifier::external_body]
fn set_first_key_prefix(t: &mut toml_edit::Table, prefix: &str)
    ensures
        table_entries(*final(t)) == table_entries(*old(t)),
        table_entries(*old(t)).len() > 0 ==> first_key_prefix(*final(t)) == Some(prefix@),
        forall|p: Seq<Seq<char>>| #[trigger] header_prefix_at(*final(t), p) == header_prefix_at(*old(t), p),
{
    if let Some((mut key, _)) = t.iter_mut().next() {
        key.leaf_decor_mut().set_prefix(prefix);
    }
}

/// The comment placed above the header of the default section at `path`.
pub open spec fn section_comment_spec(path: Seq<char>) -> Option<Seq<char>> {
    if path == "workspace"@ {
        Some("# 색인 대상 워크스페이스."@)
    } else if path == "storage"@ {
        Some("# XDG 저장 경로(데이터/sqlite/벡터/에셋/모델)."@)
    } else if path == "indexing"@ {
        Some("# 병렬도 + 파일시스템 watch."@)
    } else if path == "chunking"@ {
        Some("# 청크 크기·오버랩·heading 존중."@)
    } else if path == "models"@ {
        Some("# embedding / llm / nli 모델."@)
    } else if path == "models.embedding"@ {
        Some("# 다국어 sentence embedding. dim 불일치 시 검색 0건."@)
    } else if path == "models.llm"@ {
        Some("# Ollama host:port + 모델."@)
    } else if path == "models.nli"@ {
        Some("# NLI(groundedness) 모델."@)
    } else if path == "search"@ {
        Some("# 검색 기본 k·stale 기준·fusion."@)
    } else if path == "rag"@ {
        Some("# 답변 생성: prompt 템플릿·score gate·NLI."@)
    } else if path == "image"@ {
        Some("# 이미지 OCR + 캡션(기본 off, asset 당 모델 호출 비용)."@)
    } else if path == "image.ocr"@ {
        Some("# 이미지 OCR(기본 off)."@)
    } else if path == "image.caption"@ {
        Some("# 이미지 캡션(기본 off)."@)
    } else if path == "ui"@ {
        Some("# TUI 팔레트·role 스타일."@)
    } else if path == "ingest"@ {
        Some("# ingest 정책(code skip 등)."@)
    } else if path == "ingest.code"@ {
        Some("# code ingest skip 정책(.gitignore 자동 honor)."@)
    } else if path == "pdf"@ {
        Some("# PDF ingest. scanned PDF OCR 은 기본 off(page 당 cost)."@)
    } else if path == "pdf.ocr"@ {
        Some("# scanned PDF page-단위 OCR(기본 off)."@)
    } else if path == "logging"@ {
        Some("# ingest 로그(기본 on, ~/.local/state/kebab/logs)."@)
    } else {
        None
    }
}

/// The comment placed above the header of the default section at `path`.
pub fn section_comment(path: &str) -> (res: Option<&'static str>)
    ensures
        match res {
            Some(c) => section_comment_spec(path@) == Some(c@),
            None => section_comment_spec(path@) is None,
        },
{
    if str_eq(path, "workspace") {
        Some("# 색인 대상 워크스페이스.")
    } else if str_eq(path, "storage") {
        Some("# XDG 저장 경로(데이터/sqlite/벡터/에셋/모델).")
    } else if str_eq(path, "indexing") {
        Some("# 병렬도 + 파일시스템 watch.")
    } else if str_eq(path, "chunking") {
        Some("# 청크 크기·오버랩·heading 존중.")
    } else if str_eq(path, "models") {
        Some("# embedding / llm / nli 모델.")
    } else if str_eq(path, "models.embedding") {
        Some("# 다국어 sentence embedding. dim 불일치 시 검색 0건.")
    } else if str_eq(path, "models.llm") {
        Some("# Ollama host:port + 모델.")
    } else if str_eq(path, "models.nli") {
        Some("# NLI(groundedness) 모델.")
    } else if str_eq(path, "search") {
        Some("# 검색 기본 k·stale 기준·fusion.")
    } else if str_eq(path, "rag") {
        Some("# 답변 생성: prompt 템플릿·score gate·NLI.")
    } else if str_eq(path, "image") {
        Some("# 이미지 OCR + 캡션(기본 off, asset 당 모델 호출 비용).")
    } else if str_eq(path, "image.ocr") {
        Some("# 이미지 OCR(기본 off).")
    } else if str_eq(path, "image.caption") {
        Some("# 이미지 캡션(기본 off).")
    } else if str_eq(path, "ui") {
        Some("# TUI 팔레트·role 스타일.")
    } else if str_eq(path, "ingest") {
        Some("# ingest 정책(code skip 등).")
    } else if str_eq(path, "ingest.code") {
        Some("# code ingest skip 정책(.gitignore 자동 honor).")
    } else if str_eq(path, "pdf") {
        Some("# PDF ingest. scanned PDF OCR 은 기본 off(page 당 cost).")
    } else if str_eq(path, "pdf.ocr") {
        Some("# scanned PDF page-단위 OCR(기본 off).")
    } else if str_eq(path, "logging") {
        Some("# ingest 로그(기본 on, ~/.local/state/kebab/logs).")
    } else {
        None
    }
}

/// The text put before the first entry of the default document: what
/// the file is, the accepted path forms and how to migrate it, followed by
/// a blank line.
pub open spec fn file_header() -> Seq<char> {
    "# kebab config — `~/.config/kebab/config.toml`.\n#\n# `workspace.root` accepts: 절대 / tilde(~) / env(${VAR}) / 상대 경로.\n#   상대 경로의 base 는 cwd 가 아니라 THIS config 파일의 디렉토리.\n#\n# 처리 가능한 형식 (extractor 가 자동 결정 — config 에 명시할 수 없음):\n#   • Markdown: .md\n#   • 이미지:   .png .jpg .jpeg  (OCR + caption)\n#   • PDF:      .pdf\n#\n# 런타임 override: `KEBAB_*` env (예: KEBAB_WORKSPACE_ROOT=/tmp kebab ingest).\n#\n# 이 파일은 `kebab config migrate` 로 새 스키마에 맞춰 갱신할 수 있다\n# (빠진 섹션 추가 + 손본 값·주석 보존).\n\n"@
}

/// The file header (see `file_header`).
fn header_prefix() -> (res: &'static str)
    ensures
        res@ == file_header(),
{
    "# kebab config — `~/.config/kebab/config.toml`.\n#\n# `workspace.root` accepts: 절대 / tilde(~) / env(${VAR}) / 상대 경로.\n#   상대 경로의 base 는 cwd 가 아니라 THIS config 파일의 디렉토리.\n#\n# 처리 가능한 형식 (extractor 가 자동 결정 — config 에 명시할 수 없음):\n#   • Markdown: .md\n#   • 이미지:   .png .jpg .jpeg  (OCR + caption)\n#   • PDF:      .pdf\n#\n# 런타임 override: `KEBAB_*` env (예: KEBAB_WORKSPACE_ROOT=/tmp kebab ingest).\n#\n# 이 파일은 `kebab config migrate` 로 새 스키마에 맞춰 갱신할 수 있다\n# (빠진 섹션 추가 + 손본 값·주석 보존).\n\n"
}

/// What a migration change did.
#[derive(PartialEq, Eq, Structural, Clone, Copy, Debug)]
pub enum ChangeKind {
    /// A missing section was added from the defaults.
    AddedSection,
    /// A missing key was added from the defaults.
    AddedKey,
    /// A deprecated key was removed.
    RemovedDeprecated,
    /// A section or key moved to its new place.
    Moved,
}

/// One change made by a migration.
#[derive(Debug)]
pub struct MigrationChange {
    pub kind: ChangeKind,
    /// Dotted path, e.g. `ingest.code` or `workspace.include`.
    pub path: String,
    /// One-line description for people and the wire.
    pub detail: String,
}

/// The mathematical form of a change.
pub struct ChangeView {
    pub kind: ChangeKind,
    pub path: Seq<char>,
    pub detail: Seq<char>,
}

impl View for MigrationChange {
    type V = ChangeView;

    open spec fn view(&self) -> ChangeView {
        ChangeView { kind: self.kind, path: self.path@, detail: self.detail@ }
    }
}

pub open spec fn changes_view(v: Seq<MigrationChange>) -> Seq<ChangeView> {
    v.map_values(|c: MigrationChange| c@)
}

/// Result of migrating one document.
#[derive(Debug)]
pub struct MigrationOutcome {
    pub from_schema_version: u32,
    pub to_schema_version: u32,
    pub changes: Vec<MigrationChange>,
    /// The migrated document's text (the input itself when nothing could be
    /// parsed).
    pub new_text: String,
}

impl MigrationOutcome {
    /// Whether the migration changed anything.
    pub fn changed(&self) -> (res: bool)
        ensures
            res == (self.changes@.len() > 0),
    {
        self.changes.len() > 0
    }
}

/// `prefix.key`, or `key` at the top level.
pub open spec fn dotted(prefix: Seq<char>, key: Seq<char>) -> Seq<char> {
    if prefix.len() == 0 {
        key
    } else {
        prefix + "."@ + key
    }
}

/// `s` without its leading `"# "` repetitions.
pub open spec fn trim_comment_marks(s: Seq<char>) -> Seq<char>
    decreases s.len(),
{
    if s.len() >= 2 && s[0] == '#' && s[1] == ' ' {
        trim_comment_marks(s.skip(2))
    } else {
        s
    }
}

/// The description of an addition at `path`: its section comment without
/// the comment marks, or `"{key} 추가"`.
pub open spec fn added_detail(path: Seq<char>, key: Seq<char>) -> Seq<char> {
    match section_comment_spec(path) {
        Some(c) => trim_comment_marks(c),
        None => key + " 추가"@,
    }
}

/// The change recording the addition of `node` at `path`.
pub open spec fn addition(path: Seq<char>, key: Seq<char>, node: TomlNode) -> ChangeView {
    ChangeView {
        kind: if node is Table {
            ChangeKind::AddedSection
        } else {
            ChangeKind::AddedKey
        },
        path,
        detail: added_detail(path, key),
    }
}

/// A key present at `j` is found, at `j` or later.
pub proof fn lemma_find_key_exists(es: Seq<(Seq<char>, TomlNode)>, k: Seq<char>, j: int)
    requires
        0 <= j < es.len(),
        es[j].0 == k,
    ensures
        j <= find_key(es, k) < es.len(),
    decreases es.len(),
{
    if es.last().0 != k {
        lemma_find_key_exists(es.drop_last(), k, j);
    }
}

pub proof fn lemma_find_key_range(es: Seq<(Seq<char>, TomlNode)>, k: Seq<char>)
    ensures
        -1 <= find_key(es, k) < es.len(),
        find_key(es, k) >= 0 ==> es[find_key(es, k)].0 == k,
    decreases es.len(),
{
    if es.len() > 0 && es.last().0 != k {
        lemma_find_key_range(es.drop_last(), k);
    }
}

/// Reconciliation of the user entries `u` against the reference entries
/// `r` under `prefix`, after the first `k` reference keys: the user entries
/// and the changes so far. A reference key missing from the user table is
/// copied (its section comment and all) and recorded, but for the
/// top-level `schema_version`, which the version stamp handles; a key that
/// is a table on both sides is reconciled recursively; any other present
/// key is left as the user wrote it.
pub open spec fn reconcile_fold(
    r: Seq<(Seq<char>, TomlNode)>,
    u: Seq<(Seq<char>, TomlNode)>,
    prefix: Seq<char>,
    k: int,
) -> (Seq<(Seq<char>, TomlNode)>, Seq<ChangeView>)
    decreases r, k,
{
    if k <= 0 || k > r.len() {
        (u, seq![])
    } else {
        let (u1, c1) = reconcile_fold(r, u, prefix, k - 1);
        let key = r[k - 1].0;
        let node = node_at(r, key);
        let path = dotted(prefix, key);
        let i = find_key(u1, key);
        if i < 0 {
            (
                u1.push((key, node)),
                if path == "schema_version"@ {
                    c1
                } else {
                    c1.push(addition(path, key, node))
                },
            )
        } else if node is Table && u1[i].1 is Table {
            proof {
                lemma_find_key_exists(r, key, k - 1);
                let e = r[find_key(r, key)];
                assert(decreases_to!(r => e));
                assert(decreases_to!(e => e.1));
                assert(decreases_to!(e.1 => e.1->Table_0));
            }
            let (uc, cc) = reconcile_fold(node->Table_0, u1[i].1->Table_0, path, node->Table_0.len() as int);
            (u1.update(i, (key, TomlNode::Table(uc))), c1 + cc)
        } else {
            (u1, c1)
        }
    }
}

/// Full reconciliation of `u` against `r` under `prefix`.
pub open spec fn reconcile_spec(
    r: Seq<(Seq<char>, TomlNode)>,
    u: Seq<(Seq<char>, TomlNode)>,
    prefix: Seq<char>,
) -> (Seq<(Seq<char>, TomlNode)>, Seq<ChangeView>) {
    reconcile_fold(r, u, prefix, r.len() as int)
}

fn dotted_path(prefix: &str, key: &str) -> (res: String)
    ensures
        res@ == dotted(prefix@, key@),
{
    let p = chars_of(prefix);
    if p.len() == 0 {
        String::from_str(key)
    } else {
        let mut s = String::from_str(prefix);
        s.append(".");
        s.append(key);
        s
    }
}

fn trim_marks(s: &str) -> (res: String)
    ensures
        res@ == trim_comment_marks(s@),
{
    let c = chars_of(s);
    let mut i: usize = 0;
    proof {
        assert(c@.skip(0) =~= c@);
    }
    while c.len() - i >= 2 && c[i] == '#' && c[i + 1] == ' '
        invariant
            c@ == s@,
            i <= c@.len(),
            trim_comment_marks(s@) == trim_comment_marks(c@.skip(i as int)),
        decreases c@.len() - i,
    {
        proof {
            let t = c@.skip(i as int);
            assert(t[0] == '#' && t[1] == ' ');
            assert(t.skip(2) =~= c@.skip(i + 2));
        }
        i = i + 2;
    }
    let mut out: Vec<char> = Vec::new();
    let mut k: usize = i;
    while k < c.len()
        invariant
            i <= k <= c@.len(),
            out@ == c@.subrange(i as int, k as int),
        decreases c@.len() - k,
    {
        out.push(c[k]);
        proof {
            assert(c@.subrange(i as int, k + 1) =~= c@.subrange(i as int, k as int).push(c@[k as int]));
        }
        k = k + 1;
    }
    proof {
        let t = c@.skip(i as int);
        assert(c@.subrange(i as int, c@.len() as int) =~= t);
        if t.len() >= 2 {
            assert(t[0] == c@[i as int] && t[1] == c@[i + 1]);
        }
    }
    string_from_chars(&out)
}

fn addition_detail(path: &str, key: &str) -> (res: String)
    ensures
        res@ == added_detail(path@, key@),
{
    match section_comment(path) {
        Some(c) => trim_marks(c),
        None => {
            let mut s = String::from_str(key);
            s.append(" 추가");
            s
        },
    }
}

/// The key path `p` leads to an entry of the entries `es`, through tables.
pub open spec fn path_in(es: Seq<(Seq<char>, TomlNode)>, p: Seq<Seq<char>>) -> bool
    decreases p.len(),
{
    if p.len() == 0 {
        true
    } else {
        let i = find_key(es, p[0]);
        0 <= i < es.len() && (p.len() == 1 || (es[i].1 is Table && path_in(es[i].1->Table_0, p.drop_first())))
    }
}

proof fn lemma_path_in_cons(es: Seq<(Seq<char>, TomlNode)>, k: Seq<char>, q: Seq<Seq<char>>)
    ensures
        path_in(es, seq![k] + q) == {
            let i = find_key(es, k);
            0 <= i < es.len() && (q.len() == 0 || (es[i].1 is Table && path_in(es[i].1->Table_0, q)))
        },
{
    let p = seq![k] + q;
    assert(p[0] == k);
    assert(p.drop_first() =~= q);
}

/// Two entry lists that agree on the entry of `p[0]` agree on `p`.
proof fn lemma_path_in_head(es1: Seq<(Seq<char>, TomlNode)>, es2: Seq<(Seq<char>, TomlNode)>, p: Seq<Seq<char>>)
    requires
        p.len() > 0,
        find_key(es1, p[0]) == find_key(es2, p[0]),
        0 <= find_key(es1, p[0]) < es1.len() ==> find_key(es1, p[0]) < es2.len() && es1[find_key(es1, p[0])]
            == es2[find_key(es1, p[0])],
        0 <= find_key(es2, p[0]) < es2.len() ==> find_key(es2, p[0]) < es1.len(),
    ensures
        path_in(es1, p) == path_in(es2, p),
{
}

/// Reconciling the first `i` reference keys leaves the entry of any other
/// key where it was.
proof fn lemma_fold_untouched(
    r: Seq<(Seq<char>, TomlNode)>,
    u: Seq<(Seq<char>, TomlNode)>,
    prefix: Seq<char>,
    i: int,
    k: Seq<char>,
)
    requires
        0 <= i <= r.len(),
        forall|j: int| 0 <= j < i ==> #[trigger] r[j].0 != k,
    ensures
        u.len() <= reconcile_fold(r, u, prefix, i).0.len(),
        find_key(reconcile_fold(r, u, prefix, i).0, k) == find_key(u, k),
        0 <= find_key(u, k) < u.len() ==> reconcile_fold(r, u, prefix, i).0[find_key(u, k)] == u[find_key(u, k)],
    decreases i,
{
    lemma_find_key_range(u, k);
    if i > 0 {
        lemma_fold_untouched(r, u, prefix, i - 1, k);
        let u1 = reconcile_fold(r, u, prefix, i - 1).0;
        let key = r[i - 1].0;
        let node = node_at(r, key);
        let ii = find_key(u1, key);
        lemma_find_key_range(u1, key);
        lemma_find_key_range(u1, k);
        if ii < 0 {
            lemma_find_key_push(u1, key, node, k);
        } else if node is Table && u1[ii].1 is Table {
            let uc = reconcile_fold(
                node->Table_0,
                u1[ii].1->Table_0,
                dotted(prefix, key),
                node->Table_0.len() as int,
            ).0;
            lemma_find_key_update(u1, ii, TomlNode::Table(uc), k);
        }
    }
}

/// Copy into `user` every entry of `reference` it lacks, recursing into
/// tables present on both sides, and record the additions in `changes`
/// (see `reconcile_spec`). Values the user has are never touched.
pub fn reconcile(
    reference: &toml_edit::Table,
    user: &mut toml_edit::Table,
    prefix_path: &str,
    changes: &mut Vec<MigrationChange>,
)
    ensures
        table_entries(*final(user)) == reconcile_spec(table_entries(*reference), table_entries(*old(user)), prefix_path@).0,
        changes_view(final(changes)@) == changes_view(old(changes)@) + reconcile_spec(
            table_entries(*reference),
            table_entries(*old(user)),
            prefix_path@,
        ).1,
        forall|p: Seq<Seq<char>>|
            path_in(table_entries(*old(user)), p) ==> #[trigger] key_decor_at(*final(user), p) == key_decor_at(
                *old(user),
                p,
            ),
        forall|p: Seq<Seq<char>>|
            path_in(table_entries(*old(user)), p) ==> #[trigger] item_decor_at(*final(user), p) == item_decor_at(
                *old(user),
                p,
            ),
        forall|p: Seq<Seq<char>>|
            path_in(table_entries(*final(user)), p) && !path_in(table_entries(*old(user)), p)
                ==> #[trigger] item_decor_at(*final(user), p) == item_decor_at(*reference, p),
        table_entries(*old(user)).len() > 0 ==> first_key_prefix(*final(user)) == first_key_prefix(*old(user)),
    decreases table_entries(*reference),
{
    let ghost r = table_entries(*reference);
    let ghost u0 = table_entries(*user);
    let ghost c0 = changes_view(changes@);
    let keys = entry_list(reference);
    let mut i: usize = 0;
    while i < keys.len()
        invariant
            i <= keys@.len(),
            keys@.len() == r.len(),
            r == table_entries(*reference),
            forall|j: int| 0 <= j < keys@.len() ==> (#[trigger] keys@[j])@ == r[j].0,
            forall|j1: int, j2: int| 0 <= j1 < j2 < keys@.len() ==> (#[trigger] keys@[j1])@ != (#[trigger] keys@[j2])@,
            u0 == table_entries(*old(user)),
            u0.len() > 0 ==> first_key_prefix(*user) == first_key_prefix(*old(user)),
            forall|p: Seq<Seq<char>>|
                path_in(u0, p) ==> #[trigger] key_decor_at(*user, p) == key_decor_at(*old(user), p),
            forall|p: Seq<Seq<char>>|
                path_in(u0, p) ==> #[trigger] item_decor_at(*user, p) == item_decor_at(*old(user), p),
            forall|p: Seq<Seq<char>>|
                path_in(table_entries(*user), p) && !path_in(u0, p) ==> #[trigger] item_decor_at(*user, p)
                    == item_decor_at(*reference, p),
            table_entries(*user) == reconcile_fold(r, u0, prefix_path@, i as int).0,
            changes_view(changes@) == c0 + reconcile_fold(r, u0, prefix_path@, i as int).1,
        decreases keys@.len() - i,
    {
        let key = keys[i].as_str();
        let path = dotted_path(prefix_path, key);
        let ghost (u1, c1) = reconcile_fold(r, u0, prefix_path@, i as int);
        proof {
            lemma_find_key_range(r, key@);
            lemma_find_key_exists(r, key@, i as int);
            lemma_find_key_range(u1, key@);
            assert forall|j: int| 0 <= j < i implies #[trigger] r[j].0 != key@ by {
                assert(keys@[j]@ == r[j].0);
            }
            lemma_fold_untouched(r, u0, prefix_path@, i as int, key@);
            lemma_find_key_range(u0, key@);
        }
        let ghost cur = *user;
        let ghost mut sub0 = *user;
        let ghost mut sub1 = *user;
        let ghost mut recursed = false;
        let ghost mut rs0 = *reference;
        match lookup(user, key) {
            None => {
                copy_entry(user, reference, key);
                if !str_eq(path.as_str(), "schema_version") {
                    let ref_is_table = match lookup(reference, key) {
                        Some(b) => b,
                        None => false,
                    };
                    let kind = if ref_is_table {
                        ChangeKind::AddedSection
                    } else {
                        ChangeKind::AddedKey
                    };
                    let detail = addition_detail(path.as_str(), key);
                    let ghost before = changes@;
                    changes.push(MigrationChange { kind, path, detail });
                    proof {
                        assert(changes_view(changes@) =~= changes_view(before).push(
                            addition(dotted(prefix_path@, key@), key@, node_at(r, key@)),
                        ));
                    }
                }
            },
            Some(user_is_table) => {
                let ref_is_table = match lookup(reference, key) {
                    Some(b) => b,
                    None => false,
                };
                if ref_is_table && user_is_table {
                    let rs = sub_table(reference, key);
                    proof {
                        let e = r[find_key(r, key@)];
                        assert(decreases_to!(r => e));
                        assert(decreases_to!(e => e.1));
                        assert(decreases_to!(e.1 => e.1->Table_0));
                    }
                    let us = sub_table_mut(user, key);
                    proof {
                        sub0 = *us;
                        rs0 = *rs;
                    }
                    reconcile(rs, us, path.as_str(), changes);
                    proof {
                        sub1 = *us;
                        recursed = true;
                    }
                }
            },
        }
        proof {
            assert(reconcile_fold(r, u0, prefix_path@, i + 1) == {
                let key = r[i as int].0;
                let node = node_at(r, key);
                let path = dotted(prefix_path@, key);
                let ii = find_key(u1, key);
                if ii < 0 {
                    (
                        u1.push((key, node)),
                        if path == "schema_version"@ {
                            c1
                        } else {
                            c1.push(addition(path, key, node))
                        },
                    )
                } else if node is Table && u1[ii].1 is Table {
                    let (uc, cc) = reconcile_fold(
                        node->Table_0,
                        u1[ii].1->Table_0,
                        path,
                        node->Table_0.len() as int,
                    );
                    (u1.update(ii, (key, TomlNode::Table(uc))), c1 + cc)
                } else {
                    (u1, c1)
                }
            });
            assert(changes_view(changes@) =~= c0 + reconcile_fold(r, u0, prefix_path@, i + 1).1);
            let k = key@;
            let ue = table_entries(*user);
            let ii = find_key(u1, k);
            assert forall|p: Seq<Seq<char>>| path_in(u0, p) implies #[trigger] key_decor_at(*user, p)
                == key_decor_at(*old(user), p) by {
                if p.len() > 0 && p[0] == k {
                    let q = p.drop_first();
                    assert(p =~= seq![k] + q);
                    lemma_path_in_cons(u0, k, q);
                    if recursed && q.len() > 0 {
                        assert(key_decor_at(*user, seq![k] + q) == key_decor_at(sub1, q));
                        assert(key_decor_at(sub0, q) == key_decor_at(cur, seq![k] + q));
                        assert(path_in(table_entries(sub0), q));
                    }
                }
            }
            assert forall|p: Seq<Seq<char>>| path_in(u0, p) implies #[trigger] item_decor_at(*user, p)
                == item_decor_at(*old(user), p) by {
                if p.len() > 0 && p[0] == k {
                    let q = p.drop_first();
                    assert(p =~= seq![k] + q);
                    lemma_path_in_cons(u0, k, q);
                    if recursed {
                        assert(item_decor_at(*user, seq![k] + q) == item_decor_at(sub1, q));
                        assert(item_decor_at(sub0, q) == item_decor_at(cur, seq![k] + q));
                        assert(path_in(table_entries(sub0), q));
                    }
                }
            }
            assert forall|p: Seq<Seq<char>>| path_in(ue, p) && !path_in(u0, p) implies #[trigger] item_decor_at(
                *user,
                p,
            ) == item_decor_at(*reference, p) by {
                if p.len() > 0 && p[0] == k {
                    let q = p.drop_first();
                    assert(p =~= seq![k] + q);
                    lemma_path_in_cons(u0, k, q);
                    lemma_path_in_cons(ue, k, q);
                    lemma_path_in_cons(u1, k, q);
                    if recursed {
                        lemma_find_key_update(u1, ii, TomlNode::Table(table_entries(sub1)), k);
                        assert(item_decor_at(*user, seq![k] + q) == item_decor_at(sub1, q));
                        assert(item_decor_at(rs0, q) == item_decor_at(*reference, seq![k] + q));
                    } else if ii < 0 {
                    } else {
                    }
                } else if p.len() > 0 {
                    lemma_find_key_range(u1, p[0]);
                    if ii < 0 {
                        lemma_find_key_push(u1, k, node_at(r, k), p[0]);
                    } else if recursed {
                        lemma_find_key_update(u1, ii, TomlNode::Table(table_entries(sub1)), p[0]);
                    }
                    lemma_path_in_head(ue, u1, p);
                }
            }
        }
        i = i + 1;
    }
}


/// The header prefix at `path` below a table with entries `es` once its
/// sections are annotated under `prefix`, `before` being the prefix there
/// beforehand: the table at a one-key path `[k]` whose dotted path has a
/// section comment `c` gets `"\n" + c + "\n"`; deeper paths follow the
/// same rule inside the sub-table; every other prefix stays.
pub open spec fn annotated_prefix(
    es: Seq<(Seq<char>, TomlNode)>,
    prefix: Seq<char>,
    path: Seq<Seq<char>>,
    before: Option<Seq<char>>,
) -> Option<Seq<char>>
    decreases path.len(),
{
    if path.len() == 0 {
        before
    } else {
        let k = path[0];
        let i = find_key(es, k);
        if 0 <= i < es.len() && es[i].1 is Table {
            let sub_path = dotted(prefix, k);
            if path.len() == 1 {
                match section_comment_spec(sub_path) {
                    Some(c) => Some("\n"@ + c + "\n"@),
                    None => before,
                }
            } else {
                annotated_prefix(es[i].1->Table_0, sub_path, path.drop_first(), before)
            }
        } else {
            before
        }
    }
}

/// `annotated_prefix` for the paths through the first `n` entries; other
/// paths keep `before`.
pub open spec fn annotated_upto(
    es: Seq<(Seq<char>, TomlNode)>,
    prefix: Seq<char>,
    path: Seq<Seq<char>>,
    before: Option<Seq<char>>,
    n: int,
) -> Option<Seq<char>> {
    if path.len() > 0 && find_key(es, path[0]) < n {
        annotated_prefix(es, prefix, path, before)
    } else {
        before
    }
}

/// Put each default section's comment above its header, recursively
/// (see `section_comment`). Only decoration changes: the entries stay, and
/// the header prefixes become those of `annotated_prefix`.
fn annotate_table(table: &mut toml_edit::Table, prefix_path: &str)
    ensures
        table_entries(*final(table)) == table_entries(*old(table)),
        forall|p: Seq<Seq<char>>| #[trigger]
            header_prefix_at(*final(table), p) == annotated_prefix(
                table_entries(*old(table)),
                prefix_path@,
                p,
                header_prefix_at(*old(table), p),
            ),
        first_key_prefix(*final(table)) == first_key_prefix(*old(table)),
    decreases table_entries(*old(table)),
{
    let ghost es = table_entries(*table);
    let keys = entry_list(table);
    let mut i: usize = 0;
    while i < keys.len()
        invariant
            i <= keys@.len(),
            keys@.len() == es.len(),
            es == table_entries(*old(table)),
            forall|j: int| 0 <= j < keys@.len() ==> (#[trigger] keys@[j])@ == es[j].0,
            forall|j1: int, j2: int| 0 <= j1 < j2 < keys@.len() ==> (#[trigger] keys@[j1])@ != (#[trigger] keys@[j2])@,
            table_entries(*table) == es,
            first_key_prefix(*table) == first_key_prefix(*old(table)),
            forall|p: Seq<Seq<char>>| #[trigger]
                header_prefix_at(*table, p) == annotated_upto(
                    es,
                    prefix_path@,
                    p,
                    header_prefix_at(*old(table), p),
                    i as int,
                ),
        decreases keys@.len() - i,
    {
        let key = keys[i].as_str();
        proof {
            lemma_find_key_range(es, key@);
            lemma_find_key_exists(es, key@, i as int);
            if find_key(es, key@) != i {
                let f = find_key(es, key@);
                assert(keys@[f]@ == es[f].0);
            }
            assert(find_key(es, key@) == i);
        }
        let ghost cur = *table;
        if let Some(true) = lookup(table, key) {
            let path = dotted_path(prefix_path, key);
            let ghost e = es[find_key(es, key@)];
            let sub = sub_table_mut(table, key);
            let ghost sub0 = *sub;
            match section_comment(path.as_str()) {
                Some(c) => {
                    let mut p = String::from_str("\n");
                    p.append(c);
                    p.append("\n");
                    set_header_prefix(sub, p.as_str());
                },
                None => {},
            }
            let ghost sub1 = *sub;
            proof {
                assert(decreases_to!(es => e));
                assert(decreases_to!(e => e.1));
                assert(decreases_to!(e.1 => e.1->Table_0));
            }
            annotate_table(sub, path.as_str());
            proof {
                assert(es.update(find_key(es, key@), (key@, TomlNode::Table(e.1->Table_0))) =~= es);
                assert forall|q: Seq<Seq<char>>| #[trigger]
                    header_prefix_at(*table, q) == annotated_upto(
                        es,
                        prefix_path@,
                        q,
                        header_prefix_at(*old(table), q),
                        i + 1,
                    ) by {
                    if q.len() > 0 && q[0] == key@ {
                        let r = q.drop_first();
                        assert(q =~= seq![key@] + r);
                        assert(header_prefix_at(*table, seq![key@] + r) == header_prefix_at(*sub, r));
                        assert(header_prefix_at(sub0, r) == header_prefix_at(cur, seq![key@] + r));
                        assert(header_prefix_at(cur, q) == header_prefix_at(*old(table), q));
                        if r.len() == 0 {
                            assert(annotated_prefix(e.1->Table_0, path@, r, header_prefix_at(sub1, r))
                                == header_prefix_at(sub1, r));
                        } else {
                            assert(header_prefix_at(sub1, r) == header_prefix_at(sub0, r));
                            assert(q.drop_first() =~= r);
                        }
                    } else {
                        assert(header_prefix_at(*table, q) == header_prefix_at(cur, q));
                        if q.len() > 0 {
                            lemma_find_key_range(es, q[0]);
                            if find_key(es, q[0]) == i {
                                assert(es[i as int].0 == q[0]);
                            }
                        }
                    }
                }
            }
        } else {
            proof {
                assert forall|q: Seq<Seq<char>>| #[trigger]
                    header_prefix_at(*table, q) == annotated_upto(
                        es,
                        prefix_path@,
                        q,
                        header_prefix_at(*old(table), q),
                        i + 1,
                    ) by {
                    if q.len() > 0 {
                        lemma_find_key_range(es, q[0]);
                    }
                }
            }
        }
        i = i + 1;
    }
    proof {
        assert forall|q: Seq<Seq<char>>| #[trigger]
            header_prefix_at(*table, q) == annotated_prefix(
                es,
                prefix_path@,
                q,
                header_prefix_at(*old(table), q),
            ) by {
            if q.len() > 0 {
                lemma_find_key_range(es, q[0]);
            }
        }
    }
}

/// The default document: `defaults_text` (the serialized default
/// configuration) parsed, with the file header before its first entry and
/// each section's comment above its header; `None` when the text is not
/// valid TOML.
pub fn annotated_default_document(defaults_text: &str) -> (res: Option<toml_edit::DocumentMut>)
    ensures
        match res {
            Some(d) => {
                &&& parsed_toml(defaults_text@) == Some(document_entries(d))
                &&& document_entries(d).len() > 0 ==> document_first_key_prefix(d) == Some(file_header())
                &&& forall|p: Seq<Seq<char>>|
                    section_prefix(document_entries(d), p) is Some ==> #[trigger] document_header_prefix_at(d, p)
                        == section_prefix(document_entries(d), p)
            },
            None => parsed_toml(defaults_text@) is None,
        },
{
    let mut doc = match parse_document(defaults_text) {
        Some(d) => d,
        None => return None,
    };
    let ghost es = document_entries(doc);
    let root = root_table_mut(&mut doc);
    set_first_key_prefix(root, header_prefix());
    let ghost r1 = *root;
    annotate_table(root, "");
    proof {
        assert forall|p: Seq<Seq<char>>|
            section_prefix(es, p) is Some implies #[trigger] document_header_prefix_at(doc, p) == section_prefix(es, p) by {
            lemma_annotated_prefix_or(es, ""@, p, header_prefix_at(r1, p));
        }
    }
    Some(doc)
}

/// The comment-bearing header prefix that annotating gives the section at
/// `path` of the default entries `es`, if any.
pub open spec fn section_prefix(es: Seq<(Seq<char>, TomlNode)>, path: Seq<Seq<char>>) -> Option<Seq<char>> {
    annotated_prefix(es, ""@, path, None)
}

/// Annotating sets a prefix exactly where it sets one with no prior
/// prefix; elsewhere the prior prefix stays.
proof fn lemma_annotated_prefix_or(
    es: Seq<(Seq<char>, TomlNode)>,
    prefix: Seq<char>,
    path: Seq<Seq<char>>,
    before: Option<Seq<char>>,
)
    ensures
        annotated_prefix(es, prefix, path, before) == match annotated_prefix(es, prefix, path, None) {
            Some(x) => Some(x),
            None => before,
        },
    decreases path.len(),
{
    if path.len() > 1 {
        let i = find_key(es, path[0]);
        if 0 <= i < es.len() && es[i].1 is Table {
            lemma_annotated_prefix_or(es[i].1->Table_0, dotted(prefix, path[0]), path.drop_first(), before);
        }
    }
}

/// The description of the `workspace.include` removal.
pub open spec fn include_removal_detail() -> Seq<char> {
    "p9-fb-25: 처리 형식은 extractor 가 자동 결정 — 더 이상 사용 안 함."@
}

/// Step v1 → v2 on the root entries: drop the deprecated
/// `workspace.include`, recording the removal.
pub open spec fn step_1_to_2_spec(es: Seq<(Seq<char>, TomlNode)>) -> (Seq<(Seq<char>, TomlNode)>, Seq<ChangeView>) {
    let w = find_key(es, "workspace"@);
    if w >= 0 && es[w].1 is Table {
        let ws = es[w].1->Table_0;
        let j = find_key(ws, "include"@);
        if j >= 0 {
            (
                es.update(w, ("workspace"@, TomlNode::Table(ws.remove(j)))),
                seq![
                    ChangeView {
                        kind: ChangeKind::RemovedDeprecated,
                        path: "workspace.include"@,
                        detail: include_removal_detail(),
                    },
                ],
            )
        } else {
            (es, seq![])
        }
    } else {
        (es, seq![])
    }
}

/// `p` runs through `a` then `b`.
pub open spec fn under(p: Seq<Seq<char>>, a: Seq<char>, b: Seq<char>) -> bool {
    p.len() >= 2 && p[0] == a && p[1] == b
}

/// The key paths the version steps leave alone: everything but the
/// relocated sections (old and new places), `[ingest]`, and
/// `workspace.include` / `workspace.sources`.
pub open spec fn untouched_by_steps(p: Seq<Seq<char>>) -> bool {
    p.len() == 0 || (p[0] != "chunking"@ && p[0] != "image"@ && p[0] != "pdf"@ && p[0] != "indexing"@ && p[0]
        != "ingest"@ && !under(p, "workspace"@, "include"@) && !under(p, "workspace"@, "sources"@))
}

/// The description of a section relocated under `[ingest]`.
pub open spec fn moved_detail(k: Seq<char>) -> Seq<char> {
    "ingest."@ + k + " 로 이동"@
}

/// v2 → v3 for one top-level section `k`: a table `k` moves under
/// `[ingest]` (created when missing) unless `[ingest]` already holds a `k`
/// or is not a table.
pub open spec fn relocate_spec(es: Seq<(Seq<char>, TomlNode)>, k: Seq<char>) -> (Seq<(Seq<char>, TomlNode)>, Seq<ChangeView>) {
    let i = find_key(es, k);
    let change = seq![ChangeView { kind: ChangeKind::Moved, path: k, detail: moved_detail(k) }];
    if !(0 <= i < es.len() && es[i].1 is Table) {
        (es, seq![])
    } else {
        let g = find_key(es, "ingest"@);
        if g < 0 {
            (move_into_spec(es.push(("ingest"@, TomlNode::Table(seq![]))), k, "ingest"@), change)
        } else if es[g].1 is Table && find_key(es[g].1->Table_0, k) < 0 {
            (move_into_spec(es, k, "ingest"@), change)
        } else {
            (es, seq![])
        }
    }
}

/// v2 → v3: `[chunking]`, `[image]`, `[pdf]` and `[indexing]` move under
/// `[ingest]`.
pub open spec fn step_2_to_3_spec(es: Seq<(Seq<char>, TomlNode)>) -> (Seq<(Seq<char>, TomlNode)>, Seq<ChangeView>) {
    let (e1, c1) = relocate_spec(es, "chunking"@);
    let (e2, c2) = relocate_spec(e1, "image"@);
    let (e3, c3) = relocate_spec(e2, "pdf"@);
    let (e4, c4) = relocate_spec(e3, "indexing"@);
    (e4, c1 + c2 + c3 + c4)
}

/// The description of the default source added by v3 → v4.
pub open spec fn sources_detail() -> Seq<char> {
    "workspace.root 를 default source 로 미러링"@
}

/// v3 → v4: a workspace with a `root` and no `sources` gains
/// `[[workspace.sources]]`, one source `id = "default"` with that root.
pub open spec fn step_3_to_4_spec(es: Seq<(Seq<char>, TomlNode)>) -> (Seq<(Seq<char>, TomlNode)>, Seq<ChangeView>) {
    let w = find_key(es, "workspace"@);
    if 0 <= w < es.len() && es[w].1 is Table {
        let ws = es[w].1->Table_0;
        if find_key(ws, "root"@) >= 0 && find_key(ws, "sources"@) < 0 {
            (
                es.update(w, ("workspace"@, TomlNode::Table(ws.push(("sources"@, TomlNode::Other))))),
                seq![
                    ChangeView {
                        kind: ChangeKind::AddedSection,
                        path: "workspace.sources"@,
                        detail: sources_detail(),
                    },
                ],
            )
        } else {
            (es, seq![])
        }
    } else {
        (es, seq![])
    }
}

/// The description of the OCR engine moved by v4 → v5.
pub open spec fn shared_ocr_detail() -> Seq<char> {
    "공유 [ingest.ocr] 로 이동"@
}

/// v4 → v5: the image OCR `engine` moves into a shared `[ingest.ocr]`,
/// when `[ingest]` has no `ocr` yet.
pub open spec fn step_4_to_5_spec(es: Seq<(Seq<char>, TomlNode)>) -> (Seq<(Seq<char>, TomlNode)>, Seq<ChangeView>) {
    let g = find_key(es, "ingest"@);
    if 0 <= g < es.len() && es[g].1 is Table {
        let ing = es[g].1->Table_0;
        let i = find_key(ing, "image"@);
        if find_key(ing, "ocr"@) < 0 && 0 <= i < ing.len() && ing[i].1 is Table {
            let im = ing[i].1->Table_0;
            let o = find_key(im, "ocr"@);
            if 0 <= o < im.len() && im[o].1 is Table {
                let oc = im[o].1->Table_0;
                let e = find_key(oc, "engine"@);
                if 0 <= e < oc.len() {
                    let ing1 = ing.push(("ocr"@, TomlNode::Table(seq![("engine"@, oc[e].1)])));
                    let ing2 = ing1.update(
                        i,
                        ("image"@, TomlNode::Table(im.update(o, ("ocr"@, TomlNode::Table(oc.remove(e)))))),
                    );
                    (
                        es.update(g, ("ingest"@, TomlNode::Table(ing2))),
                        seq![
                            ChangeView {
                                kind: ChangeKind::Moved,
                                path: "ingest.image.ocr.engine"@,
                                detail: shared_ocr_detail(),
                            },
                        ],
                    )
                } else {
                    (es, seq![])
                }
            } else {
                (es, seq![])
            }
        } else {
            (es, seq![])
        }
    } else {
        (es, seq![])
    }
}

/// The steps from schema version `from` to the current one.
pub open spec fn steps_spec(es: Seq<(Seq<char>, TomlNode)>, from: u32) -> (Seq<(Seq<char>, TomlNode)>, Seq<ChangeView>) {
    let (a, ca) = if from < 2 {
        step_1_to_2_spec(es)
    } else {
        (es, seq![])
    };
    let (b, cb) = if from < 3 {
        step_2_to_3_spec(a)
    } else {
        (a, seq![])
    };
    let (c, cc) = if from < 4 {
        step_3_to_4_spec(b)
    } else {
        (b, seq![])
    };
    let (d, cd) = if from < 5 {
        step_4_to_5_spec(c)
    } else {
        (c, seq![])
    };
    (d, ca + cb + cc + cd)
}

proof fn lemma_step_1_to_2_keeps_first(es: Seq<(Seq<char>, TomlNode)>)
    requires
        es.len() > 0,
    ensures
        step_1_to_2_spec(es).0.len() == es.len(),
        step_1_to_2_spec(es).0[0].0 == es[0].0,
{
    lemma_find_key_range(es, "workspace"@);
}

/// v1 → v2: remove the deprecated `workspace.include` (idempotent).
pub fn step_1_to_2(doc: &mut toml_edit::DocumentMut, changes: &mut Vec<MigrationChange>)
    ensures
        document_entries(*final(doc)) == step_1_to_2_spec(document_entries(*old(doc))).0,
        changes_view(final(changes)@) == changes_view(old(changes)@) + step_1_to_2_spec(
            document_entries(*old(doc)),
        ).1,
        document_first_key_prefix(*final(doc)) == document_first_key_prefix(*old(doc)),
        forall|p: Seq<Seq<char>>|
            !under(p, "workspace"@, "include"@) ==> #[trigger] document_key_decor_at(*final(doc), p)
                == document_key_decor_at(*old(doc), p),
        forall|p: Seq<Seq<char>>|
            !under(p, "workspace"@, "include"@) ==> #[trigger] document_item_decor_at(*final(doc), p)
                == document_item_decor_at(*old(doc), p),
{
    let ghost es = document_entries(*doc);
    let ghost c0 = changes_view(changes@);
    let root = root_table_mut(doc);
    let ghost r0 = *root;
    proof {
        lemma_find_key_range(es, "workspace"@);
    }
    if let Some(true) = lookup(root, "workspace") {
        let ghost ws0 = node_at(es, "workspace"@)->Table_0;
        let ws = sub_table_mut(root, "workspace");
        let ghost w0 = *ws;
        proof {
            lemma_find_key_range(ws0, "include"@);
        }
        let removed = remove_key(ws, "include");
        let ghost w1 = *ws;
        if removed {
            let ghost before = changes@;
            changes.push(
                MigrationChange {
                    kind: ChangeKind::RemovedDeprecated,
                    path: String::from_str("workspace.include"),
                    detail: String::from_str("p9-fb-25: 처리 형식은 extractor 가 자동 결정 — 더 이상 사용 안 함."),
                },
            );
            proof {
                assert(changes_view(changes@) =~= changes_view(before) + step_1_to_2_spec(es).1);
            }
        } else {
            proof {
                assert(changes_view(changes@) =~= c0 + step_1_to_2_spec(es).1);
            }
        }
        proof {
            let k = "workspace"@;
            assert forall|p: Seq<Seq<char>>| !under(p, k, "include"@) implies #[trigger] key_decor_at(*root, p)
                == key_decor_at(r0, p) by {
                if p.len() > 0 && p[0] == k {
                    let q = p.drop_first();
                    assert(p =~= seq![k] + q);
                    if q.len() > 0 {
                        assert(q[0] != "include"@);
                        assert(key_decor_at(*root, seq![k] + q) == key_decor_at(w1, q));
                        assert(key_decor_at(w0, q) == key_decor_at(r0, seq![k] + q));
                    }
                }
            }
            assert forall|p: Seq<Seq<char>>| !under(p, k, "include"@) implies #[trigger] item_decor_at(*root, p)
                == item_decor_at(r0, p) by {
                if p.len() > 0 && p[0] == k {
                    let q = p.drop_first();
                    assert(p =~= seq![k] + q);
                    assert(item_decor_at(*root, seq![k] + q) == item_decor_at(w1, q));
                    assert(item_decor_at(w0, q) == item_decor_at(r0, seq![k] + q));
                }
            }
        }
    } else {
        proof {
            assert(changes_view(changes@) =~= c0 + step_1_to_2_spec(es).1);
        }
    }
    proof {
        assert forall|p: Seq<Seq<char>>| !under(p, "workspace"@, "include"@) implies #[trigger] document_key_decor_at(
            *doc,
            p,
        ) == document_key_decor_at(*old(doc), p) by {
            assert(key_decor_at(r0, p) == document_key_decor_at(*old(doc), p));
        }
        assert forall|p: Seq<Seq<char>>| !under(p, "workspace"@, "include"@) implies #[trigger] document_item_decor_at(
            *doc,
            p,
        ) == document_item_decor_at(*old(doc), p) by {
            assert(item_decor_at(r0, p) == document_item_decor_at(*old(doc), p));
        }
    }
}

proof fn lemma_relocate_first(es: Seq<(Seq<char>, TomlNode)>, k: Seq<char>)
    requires
        k != "ingest"@,
        es.len() > 0,
        es[0].0 != k,
        es[0].0 != "ingest"@,
    ensures
        relocate_spec(es, k).0.len() > 0,
        relocate_spec(es, k).0[0] == es[0],
{
    let i = find_key(es, k);
    lemma_find_key_range(es, k);
    lemma_find_key_range(es, "ingest"@);
    if 0 <= i < es.len() && es[i].1 is Table {
        let g = find_key(es, "ingest"@);
        let e1 = if g < 0 {
            es.push(("ingest"@, TomlNode::Table(seq![])))
        } else {
            es
        };
        if g < 0 || (es[g].1 is Table && find_key(es[g].1->Table_0, k) < 0) {
            if g < 0 {
                lemma_find_key_push(es, "ingest"@, TomlNode::Table(seq![]), k);
            }
            lemma_find_key_range(e1, k);
            let i1 = find_key(e1, k);
            assert(e1[i1].0 == k);
            assert(e1[0] == es[0]);
            assert(i1 != 0);
            let u = e1.remove(i1);
            assert(u.len() == e1.len() - 1);
            lemma_find_key_range(u, "ingest"@);
            assert(u[0] == es[0]);
            if g < 0 {
                lemma_find_key_exists(e1, "ingest"@, es.len() as int);
            }
            lemma_find_key_range(e1, "ingest"@);
            let gi = find_key(e1, "ingest"@);
            assert(e1[gi].0 == "ingest"@);
            let idx = if gi < i1 {
                gi
            } else {
                gi - 1
            };
            assert(u[idx] == e1[gi]);
            lemma_find_key_exists(u, "ingest"@, idx);
            let gg = find_key(u, "ingest"@);
            assert(u[gg].0 == "ingest"@);
            assert(gg != 0);
            let r = move_into_spec(e1, k, "ingest"@);
            assert(r == u.update(gg, ("ingest"@, TomlNode::Table(u[gg].1->Table_0.push((k, node_at(e1, k)))))));
            assert(r[0] == u[0]);
            if g >= 0 {
                assert(relocate_spec(es, k).0 == r);
            } else {
                assert(relocate_spec(es, k).0 == r);
            }
        }
    }
}

/// Move the top-level section `k` under `[ingest]` (see `relocate_spec`).
fn relocate(root: &mut toml_edit::Table, k: &str, changes: &mut Vec<MigrationChange>)
    requires
        k@ != "ingest"@,
    ensures
        table_entries(*final(root)) == relocate_spec(table_entries(*old(root)), k@).0,
        changes_view(final(changes)@) == changes_view(old(changes)@) + relocate_spec(table_entries(*old(root)), k@).1,
        (table_entries(*old(root)).len() > 0 && table_entries(*old(root))[0].0 != k@) ==> first_key_prefix(
            *final(root),
        ) == first_key_prefix(*old(root)),
        forall|p: Seq<Seq<char>>|
            (p.len() == 0 || (p[0] != k@ && p[0] != "ingest"@)) ==> #[trigger] key_decor_at(*final(root), p)
                == key_decor_at(*old(root), p),
        forall|p: Seq<Seq<char>>|
            (p.len() == 0 || (p[0] != k@ && p[0] != "ingest"@)) ==> #[trigger] item_decor_at(*final(root), p)
                == item_decor_at(*old(root), p),
{
    let ghost es = table_entries(*root);
    let ghost c0 = changes_view(changes@);
    proof {
        lemma_find_key_range(es, k@);
        lemma_find_key_range(es, "ingest"@);
        reveal_strlit("ingest");
    }
    if let Some(true) = lookup(root, k) {
        let moved = match lookup(root, "ingest") {
            None => {
                insert_empty_table(root, "ingest");
                proof {
                    let e1 = es.push(("ingest"@, TomlNode::Table(seq![])));
                    lemma_find_key_push(es, "ingest"@, TomlNode::Table(seq![]), k@);
                    lemma_find_key_push(es, "ingest"@, TomlNode::Table(seq![]), "ingest"@);
                    lemma_find_key_range(e1, k@);
                    assert(find_key(seq![], k@) < 0);
                }
                move_into_table(root, k, "ingest");
                true
            },
            Some(true) => {
                let has = lookup(sub_table(root, "ingest"), k);
                if has.is_none() {
                    move_into_table(root, k, "ingest");
                    true
                } else {
                    false
                }
            },
            Some(false) => false,
        };
        if moved {
            let mut d = String::from_str("ingest.");
            d.append(k);
            d.append(" 로 이동");
            let ghost before = changes@;
            changes.push(MigrationChange { kind: ChangeKind::Moved, path: String::from_str(k), detail: d });
            proof {
                assert(changes_view(changes@) =~= changes_view(before) + relocate_spec(es, k@).1);
            }
        } else {
            proof {
                assert(changes_view(changes@) =~= c0 + relocate_spec(es, k@).1);
            }
        }
    } else {
        proof {
            assert(changes_view(changes@) =~= c0 + relocate_spec(es, k@).1);
        }
    }
}

/// v2 → v3: move `[chunking]`, `[image]`, `[pdf]` and `[indexing]` under
/// `[ingest]`, keeping their values and comments.
pub fn step_2_to_3(doc: &mut toml_edit::DocumentMut, changes: &mut Vec<MigrationChange>)
    ensures
        document_entries(*final(doc)) == step_2_to_3_spec(document_entries(*old(doc))).0,
        changes_view(final(changes)@) == changes_view(old(changes)@) + step_2_to_3_spec(
            document_entries(*old(doc)),
        ).1,
        (document_entries(*old(doc)).len() > 0 && untouched_by_steps(seq![document_entries(*old(doc))[0].0]))
            ==> document_first_key_prefix(*final(doc)) == document_first_key_prefix(*old(doc)) && document_entries(
            *final(doc),
        ).len() > 0 && document_entries(*final(doc))[0].0 == document_entries(*old(doc))[0].0,
        forall|p: Seq<Seq<char>>|
            untouched_by_steps(p) ==> #[trigger] document_key_decor_at(*final(doc), p) == document_key_decor_at(
                *old(doc),
                p,
            ),
        forall|p: Seq<Seq<char>>|
            untouched_by_steps(p) ==> #[trigger] document_item_decor_at(*final(doc), p) == document_item_decor_at(
                *old(doc),
                p,
            ),
{
    let ghost es = document_entries(*doc);
    let ghost c0 = changes_view(changes@);
    let root = root_table_mut(doc);
    let ghost r0 = *root;
    proof {
        reveal_strlit("chunking");
        reveal_strlit("image");
        reveal_strlit("pdf");
        reveal_strlit("indexing");
        reveal_strlit("ingest");
    }
    proof {
        reveal_strlit("chunking");
        reveal_strlit("ingest");
        assert("chunking"@.len() != "ingest"@.len() || "chunking"@[0] != "ingest"@[0]);
    }
    relocate(root, "chunking", changes);
    let ghost r1 = *root;
    proof {
        reveal_strlit("image");
        reveal_strlit("ingest");
        assert("image"@.len() != "ingest"@.len() || "image"@[0] != "ingest"@[0]);
    }
    relocate(root, "image", changes);
    let ghost r2 = *root;
    proof {
        reveal_strlit("pdf");
        reveal_strlit("ingest");
        assert("pdf"@.len() != "ingest"@.len() || "pdf"@[0] != "ingest"@[0]);
    }
    relocate(root, "pdf", changes);
    let ghost r3 = *root;
    proof {
        reveal_strlit("indexing");
        reveal_strlit("ingest");
        assert("indexing"@.len() != "ingest"@.len() || "indexing"@[0] != "ingest"@[0]);
    }
    relocate(root, "indexing", changes);
    proof {
        let (e1, c1) = relocate_spec(es, "chunking"@);
        let (e2, c2) = relocate_spec(e1, "image"@);
        let (e3, c3) = relocate_spec(e2, "pdf"@);
        let (e4, c4) = relocate_spec(e3, "indexing"@);
        assert(changes_view(changes@) =~= c0 + (c1 + c2 + c3 + c4));
        if es.len() > 0 && untouched_by_steps(seq![es[0].0]) {
            assert(seq![es[0].0][0] == es[0].0);
            assert("chunking"@.len() != "ingest"@.len() || "chunking"@[0] != "ingest"@[0]);
            assert("image"@.len() != "ingest"@.len() || "image"@[0] != "ingest"@[0]);
            assert("pdf"@.len() != "ingest"@.len() || "pdf"@[0] != "ingest"@[0]);
            assert("indexing"@.len() != "ingest"@.len() || "indexing"@[0] != "ingest"@[0]);
            lemma_relocate_first(es, "chunking"@);
            lemma_relocate_first(e1, "image"@);
            lemma_relocate_first(e2, "pdf"@);
            lemma_relocate_first(e3, "indexing"@);
        }
        assert forall|p: Seq<Seq<char>>| untouched_by_steps(p) implies #[trigger] key_decor_at(*root, p)
            == key_decor_at(r0, p) by {
            assert(key_decor_at(r1, p) == key_decor_at(r0, p));
            assert(key_decor_at(r2, p) == key_decor_at(r1, p));
            assert(key_decor_at(r3, p) == key_decor_at(r2, p));
        }
        assert forall|p: Seq<Seq<char>>| untouched_by_steps(p) implies #[trigger] item_decor_at(*root, p)
            == item_decor_at(r0, p) by {
            assert(item_decor_at(r1, p) == item_decor_at(r0, p));
            assert(item_decor_at(r2, p) == item_decor_at(r1, p));
            assert(item_decor_at(r3, p) == item_decor_at(r2, p));
        }
    }
}


/// The node under key `k`, if `es` has one.
pub open spec fn entry_node(es: Seq<(Seq<char>, TomlNode)>, k: Seq<char>) -> Option<TomlNode> {
    if find_key(es, k) >= 0 {
        Some(es[find_key(es, k)].1)
    } else {
        None
    }
}

/// The node under `k` inside the `[ingest]` table, if there is one.
pub open spec fn ingest_node(es: Seq<(Seq<char>, TomlNode)>, k: Seq<char>) -> Option<TomlNode> {
    match entry_node(es, "ingest"@) {
        Some(TomlNode::Table(t)) => entry_node(t, k),
        _ => None,
    }
}

/// `[ingest]` is missing or a table.
pub open spec fn ingest_open(es: Seq<(Seq<char>, TomlNode)>) -> bool {
    entry_node(es, "ingest"@) is None || entry_node(es, "ingest"@) matches Some(TomlNode::Table(_))
}

proof fn lemma_entry_at(es: Seq<(Seq<char>, TomlNode)>, k: Seq<char>, j: int)
    requires
        distinct_keys(es),
        0 <= j < es.len(),
        es[j].0 == k,
    ensures
        entry_node(es, k) == Some(es[j].1),
{
    lemma_find_key_exists(es, k, j);
    lemma_find_key_range(es, k);
}

proof fn lemma_entry_none(es: Seq<(Seq<char>, TomlNode)>, k: Seq<char>)
    requires
        forall|j: int| 0 <= j < es.len() ==> (#[trigger] es[j]).0 != k,
    ensures
        entry_node(es, k) is None,
{
    lemma_find_key_range(es, k);
}

proof fn lemma_entry_remove(es: Seq<(Seq<char>, TomlNode)>, i: int, k: Seq<char>)
    requires
        distinct_keys(es),
        0 <= i < es.len(),
        es[i].0 != k,
    ensures
        distinct_keys(es.remove(i)),
        entry_node(es.remove(i), k) == entry_node(es, k),
{
    let u = es.remove(i);
    assert forall|a: int, b: int| 0 <= a < b < u.len() implies #[trigger] u[a].0 != #[trigger] u[b].0 by {
        let a1 = if a < i { a } else { a + 1 };
        let b1 = if b < i { b } else { b + 1 };
        assert(u[a] == es[a1] && u[b] == es[b1]);
    }
    lemma_find_key_range(es, k);
    if find_key(es, k) >= 0 {
        let j = find_key(es, k);
        let idx = if j < i { j } else { j - 1 };
        assert(u[idx] == es[j]);
        lemma_entry_at(u, k, idx);
    } else {
        assert forall|j: int| 0 <= j < u.len() implies (#[trigger] u[j]).0 != k by {
            let j1 = if j < i { j } else { j + 1 };
            assert(u[j] == es[j1]);
            if es[j1].0 == k {
                lemma_entry_at(es, k, j1);
            }
        }
        lemma_entry_none(u, k);
    }
}

proof fn lemma_entry_update(es: Seq<(Seq<char>, TomlNode)>, g: int, n: TomlNode, k: Seq<char>)
    requires
        distinct_keys(es),
        0 <= g < es.len(),
    ensures
        distinct_keys(es.update(g, (es[g].0, n))),
        entry_node(es.update(g, (es[g].0, n)), k) == (if es[g].0 == k {
            Some(n)
        } else {
            entry_node(es, k)
        }),
{
    let v = es.update(g, (es[g].0, n));
    assert forall|a: int, b: int| 0 <= a < b < v.len() implies #[trigger] v[a].0 != #[trigger] v[b].0 by {
        assert(v[a].0 == es[a].0 && v[b].0 == es[b].0);
    }
    lemma_find_key_update(es, g, n, k);
    lemma_find_key_range(es, k);
    if es[g].0 == k {
        lemma_entry_at(v, k, g);
    } else if find_key(es, k) >= 0 {
        assert(v[find_key(es, k)] == es[find_key(es, k)]);
    }
}

proof fn lemma_entry_push(es: Seq<(Seq<char>, TomlNode)>, k2: Seq<char>, n: TomlNode, k: Seq<char>)
    ensures
        entry_node(es.push((k2, n)), k) == (if k == k2 {
            Some(n)
        } else {
            entry_node(es, k)
        }),
        distinct_keys(es) && entry_node(es, k2) is None ==> distinct_keys(es.push((k2, n))),
{
    let p = es.push((k2, n));
    lemma_find_key_push(es, k2, n, k);
    lemma_find_key_range(es, k);
    if k != k2 && find_key(es, k) >= 0 {
        assert(p[find_key(es, k)] == es[find_key(es, k)]);
    }
    if distinct_keys(es) && entry_node(es, k2) is None {
        assert forall|a: int, b: int| 0 <= a < b < p.len() implies #[trigger] p[a].0 != #[trigger] p[b].0 by {
            if b == es.len() {
                assert(p[a] == es[a]);
                if es[a].0 == k2 {
                    lemma_entry_at(es, k2, a);
                }
            } else {
                assert(p[a] == es[a] && p[b] == es[b]);
            }
        }
    }
}

/// What `relocate_spec(es, k2)` does to the top-level entry and the
/// `[ingest]` entry under another key `k`, and to `k2` itself when it moves.
proof fn lemma_relocate_entries(es: Seq<(Seq<char>, TomlNode)>, k2: Seq<char>, k: Seq<char>)
    requires
        distinct_keys(es),
        k2 != "ingest"@,
        k != "ingest"@,
    ensures
        ({
            let (e, c) = relocate_spec(es, k2);
            &&& distinct_keys(e)
            &&& ingest_open(es) ==> ingest_open(e)
            &&& k != k2 ==> entry_node(e, k) == entry_node(es, k) && ingest_node(e, k) == ingest_node(es, k)
            &&& (k == k2 && ingest_open(es) && ingest_node(es, k) is None && entry_node(es, k) matches Some(
                TomlNode::Table(_),
            )) ==> {
                &&& entry_node(e, k) is None
                &&& ingest_node(e, k) == entry_node(es, k)
                &&& c == seq![ChangeView { kind: ChangeKind::Moved, path: k, detail: moved_detail(k) }]
            }
        }),
{
    let ing = "ingest"@;
    lemma_find_key_range(es, k2);
    lemma_find_key_range(es, ing);
    let i0 = find_key(es, k2);
    let g0 = find_key(es, ing);
    let moves = 0 <= i0 < es.len() && es[i0].1 is Table && (g0 < 0 || (es[g0].1 is Table && find_key(
        es[g0].1->Table_0,
        k2,
    ) < 0));
    if moves {
        let es1 = if g0 < 0 {
            es.push((ing, TomlNode::Table(seq![])))
        } else {
            es
        };
        lemma_entry_push(es, ing, TomlNode::Table(seq![]), k2);
        lemma_entry_push(es, ing, TomlNode::Table(seq![]), k);
        lemma_entry_push(es, ing, TomlNode::Table(seq![]), ing);
        assert(distinct_keys(es1));
        assert(entry_node(es1, k2) == entry_node(es, k2));
        assert(entry_node(es1, k) == entry_node(es, k));
        let t = match entry_node(es1, ing) {
            Some(TomlNode::Table(t)) => t,
            _ => seq![],
        };
        assert(entry_node(es1, ing) == Some(TomlNode::Table(t)));
        lemma_find_key_range(es1, k2);
        let i = find_key(es1, k2);
        let node = es1[i].1;
        assert(node == es[i0].1);
        let u = es1.remove(i);
        lemma_entry_remove(es1, i, ing);
        if k != k2 {
            lemma_entry_remove(es1, i, k);
        }
        lemma_find_key_removed(es1, k2);
        lemma_find_key_range(u, k2);
        lemma_find_key_range(u, ing);
        let g = find_key(u, ing);
        assert(u[g].1 == TomlNode::Table(t));
        let t2 = t.push((k2, node));
        let e = u.update(g, (ing, TomlNode::Table(t2)));
        assert(e == move_into_spec(es1, k2, ing));
        assert(relocate_spec(es, k2).0 == e);
        assert(u[g].0 == ing);
        lemma_entry_update(u, g, TomlNode::Table(t2), k);
        lemma_entry_update(u, g, TomlNode::Table(t2), ing);
        lemma_entry_update(u, g, TomlNode::Table(t2), k2);
        lemma_entry_push(t, k2, node, k);
        assert(entry_node(e, ing) == Some(TomlNode::Table(t2)));
        if g0 < 0 {
            lemma_entry_none(seq![], k);
            lemma_entry_none(seq![], k2);
        }
    }
}

/// Migrating from below version 3 relocates `[chunking]`, `[image]`,
/// `[pdf]` and `[indexing]`: each that is a table, while `[ingest]` is a
/// table without that key or is missing, leaves the top level, appears
/// under `[ingest]` with the same contents, and is recorded as a `Moved`
/// change with its name as the path.
pub proof fn lemma_step_2_to_3_relocates(es: Seq<(Seq<char>, TomlNode)>, k: Seq<char>)
    requires
        k == "chunking"@ || k == "image"@ || k == "pdf"@ || k == "indexing"@,
        distinct_keys(es),
        entry_node(es, k) matches Some(TomlNode::Table(_)),
        ingest_open(es),
        ingest_node(es, k) is None,
    ensures
        entry_node(step_2_to_3_spec(es).0, k) is None,
        ingest_node(step_2_to_3_spec(es).0, k) == entry_node(es, k),
        exists|j: int|
            0 <= j < step_2_to_3_spec(es).1.len() && (#[trigger] step_2_to_3_spec(es).1[j]).kind
                == ChangeKind::Moved && step_2_to_3_spec(es).1[j].path == k,
{
    reveal_strlit("chunking");
    reveal_strlit("image");
    reveal_strlit("pdf");
    reveal_strlit("indexing");
    reveal_strlit("ingest");
    let ing = "ingest"@;
    assert("chunking"@.len() != ing.len() || "chunking"@[0] != ing[0]);
    assert("image"@.len() != ing.len() || "image"@[0] != ing[0]);
    assert("pdf"@.len() != ing.len() || "pdf"@[0] != ing[0]);
    assert("indexing"@.len() != ing.len() || "indexing"@[0] != ing[0]);
    assert(k != ing);
    let (e1, c1) = relocate_spec(es, "chunking"@);
    let (e2, c2) = relocate_spec(e1, "image"@);
    let (e3, c3) = relocate_spec(e2, "pdf"@);
    let (e4, c4) = relocate_spec(e3, "indexing"@);
    lemma_relocate_entries(es, "chunking"@, k);
    lemma_relocate_entries(e1, "image"@, k);
    lemma_relocate_entries(e2, "pdf"@, k);
    lemma_relocate_entries(e3, "indexing"@, k);
    let moved = ChangeView { kind: ChangeKind::Moved, path: k, detail: moved_detail(k) };
    let all = c1 + c2 + c3 + c4;
    assert(step_2_to_3_spec(es).1 == all);
    if k == "chunking"@ {
        assert(c1 == seq![moved]);
        assert(all[0] == moved);
    } else if k == "image"@ {
        assert(c2 == seq![moved]);
        assert(all[c1.len() as int] == moved);
    } else if k == "pdf"@ {
        assert(c3 == seq![moved]);
        assert(all[(c1.len() + c2.len()) as int] == moved);
    } else {
        assert(c4 == seq![moved]);
        assert(all[(c1.len() + c2.len() + c3.len()) as int] == moved);
    }
}
/// v3 → v4: a workspace with a `root` and no `sources` gains
/// `[[workspace.sources]]` with one source, `id = "default"` and a copy of
/// the root.
pub fn step_3_to_4(doc: &mut toml_edit::DocumentMut, changes: &mut Vec<MigrationChange>)
    ensures
        document_entries(*final(doc)) == step_3_to_4_spec(document_entries(*old(doc))).0,
        changes_view(final(changes)@) == changes_view(old(changes)@) + step_3_to_4_spec(
            document_entries(*old(doc)),
        ).1,
        document_first_key_prefix(*final(doc)) == document_first_key_prefix(*old(doc)),
        forall|p: Seq<Seq<char>>|
            !under(p, "workspace"@, "sources"@) ==> #[trigger] document_key_decor_at(*final(doc), p)
                == document_key_decor_at(*old(doc), p),
        forall|p: Seq<Seq<char>>|
            !under(p, "workspace"@, "sources"@) ==> #[trigger] document_item_decor_at(*final(doc), p)
                == document_item_decor_at(*old(doc), p),
{
    let ghost es = document_entries(*doc);
    let ghost c0 = changes_view(changes@);
    let root = root_table_mut(doc);
    let ghost r0 = *root;
    proof {
        lemma_find_key_range(es, "workspace"@);
    }
    if let Some(true) = lookup(root, "workspace") {
        let ws = sub_table_mut(root, "workspace");
        let ghost w0 = *ws;
        let has_root = lookup(ws, "root").is_some();
        let has_sources = lookup(ws, "sources").is_some();
        if has_root && !has_sources {
            add_table_array(ws, "sources", "id", "default", "root");
            let ghost before = changes@;
            changes.push(
                MigrationChange {
                    kind: ChangeKind::AddedSection,
                    path: String::from_str("workspace.sources"),
                    detail: String::from_str("workspace.root 를 default source 로 미러링"),
                },
            );
            proof {
                assert(changes_view(changes@) =~= changes_view(before) + step_3_to_4_spec(es).1);
            }
        } else {
            proof {
                assert(changes_view(changes@) =~= c0 + step_3_to_4_spec(es).1);
            }
        }
        let ghost w1 = *ws;
        proof {
            let k = "workspace"@;
            assert forall|p: Seq<Seq<char>>| !under(p, k, "sources"@) implies #[trigger] key_decor_at(*root, p)
                == key_decor_at(r0, p) by {
                if p.len() > 0 && p[0] == k {
                    let q = p.drop_first();
                    assert(p =~= seq![k] + q);
                    if q.len() > 0 {
                        assert(key_decor_at(*root, seq![k] + q) == key_decor_at(w1, q));
                        assert(key_decor_at(w0, q) == key_decor_at(r0, seq![k] + q));
                    }
                }
            }
            assert forall|p: Seq<Seq<char>>| !under(p, k, "sources"@) implies #[trigger] item_decor_at(*root, p)
                == item_decor_at(r0, p) by {
                if p.len() > 0 && p[0] == k {
                    let q = p.drop_first();
                    assert(p =~= seq![k] + q);
                    assert(item_decor_at(*root, seq![k] + q) == item_decor_at(w1, q));
                    assert(item_decor_at(w0, q) == item_decor_at(r0, seq![k] + q));
                }
            }
        }
    } else {
        proof {
            assert(changes_view(changes@) =~= c0 + step_3_to_4_spec(es).1);
        }
    }
    proof {
        assert forall|p: Seq<Seq<char>>| !under(p, "workspace"@, "sources"@) implies #[trigger] document_key_decor_at(
            *doc,
            p,
        ) == document_key_decor_at(*old(doc), p) by {
            assert(key_decor_at(r0, p) == document_key_decor_at(*old(doc), p));
        }
        assert forall|p: Seq<Seq<char>>| !under(p, "workspace"@, "sources"@) implies #[trigger] document_item_decor_at(
            *doc,
            p,
        ) == document_item_decor_at(*old(doc), p) by {
            assert(item_decor_at(r0, p) == document_item_decor_at(*old(doc), p));
        }
    }
}

/// v4 → v5: move the image OCR `engine` into a shared `[ingest.ocr]`, when
/// `[ingest]` has no `ocr` yet.
pub fn step_4_to_5(doc: &mut toml_edit::DocumentMut, changes: &mut Vec<MigrationChange>)
    ensures
        document_entries(*final(doc)) == step_4_to_5_spec(document_entries(*old(doc))).0,
        changes_view(final(changes)@) == changes_view(old(changes)@) + step_4_to_5_spec(
            document_entries(*old(doc)),
        ).1,
        document_first_key_prefix(*final(doc)) == document_first_key_prefix(*old(doc)),
        forall|p: Seq<Seq<char>>|
            (p.len() == 0 || p[0] != "ingest"@) ==> #[trigger] document_key_decor_at(*final(doc), p)
                == document_key_decor_at(*old(doc), p),
        forall|p: Seq<Seq<char>>|
            (p.len() == 0 || p[0] != "ingest"@) ==> #[trigger] document_item_decor_at(*final(doc), p)
                == document_item_decor_at(*old(doc), p),
{
    let ghost es = document_entries(*doc);
    let ghost c0 = changes_view(changes@);
    let root = root_table_mut(doc);
    let ghost r0 = *root;
    let ghost mut done = false;
    proof {
        lemma_find_key_range(es, "ingest"@);
        reveal_strlit("ocr");
        reveal_strlit("image");
        reveal_strlit("engine");
    }
    if let Some(true) = lookup(root, "ingest") {
        let ing = sub_table_mut(root, "ingest");
        let ghost ig = table_entries(*ing);
        proof {
            lemma_find_key_range(ig, "ocr"@);
            lemma_find_key_range(ig, "image"@);
        }
        if lookup(ing, "ocr").is_none() {
            if let Some(true) = lookup(ing, "image") {
                let im_r = sub_table(ing, "image");
                let ghost im = table_entries(*im_r);
                proof {
                    lemma_find_key_range(im, "ocr"@);
                }
                if let Some(true) = lookup(im_r, "ocr") {
                    let oc_r = sub_table(im_r, "ocr");
                    let ghost oc = table_entries(*oc_r);
                    proof {
                        lemma_find_key_range(oc, "engine"@);
                    }
                    if lookup(oc_r, "engine").is_some() {
                        let snap = clone_table(oc_r);
                        insert_empty_table(ing, "ocr");
                        proof {
                            lemma_find_key_push(ig, "ocr"@, TomlNode::Table(seq![]), "ocr"@);
                            lemma_find_key_push(ig, "ocr"@, TomlNode::Table(seq![]), "image"@);
                            assert(find_key(seq![], "engine"@) < 0);
                        }
                        {
                            let shared = sub_table_mut(ing, "ocr");
                            copy_entry(shared, &snap, "engine");
                        }
                        let ghost ig1 = table_entries(*ing);
                        proof {
                            assert(ig1 =~= ig.push(("ocr"@, TomlNode::Table(seq![("engine"@, node_at(oc, "engine"@))]))));
                            lemma_find_key_push(ig, "ocr"@, TomlNode::Table(seq![("engine"@, node_at(oc, "engine"@))]), "image"@);
                        }
                        {
                            let img = sub_table_mut(ing, "image");
                            let io = sub_table_mut(img, "ocr");
                            remove_key(io, "engine");
                        }
                        let ghost before = changes@;
                        changes.push(
                            MigrationChange {
                                kind: ChangeKind::Moved,
                                path: String::from_str("ingest.image.ocr.engine"),
                                detail: String::from_str("공유 [ingest.ocr] 로 이동"),
                            },
                        );
                        proof {
                            done = true;
                            assert(changes_view(changes@) =~= changes_view(before) + step_4_to_5_spec(es).1);
                        }
                    }
                }
            }
        }
    }
    proof {
        if !done {
            assert(changes_view(changes@) =~= c0 + step_4_to_5_spec(es).1);
        }
        assert forall|p: Seq<Seq<char>>| (p.len() == 0 || p[0] != "ingest"@) implies #[trigger] document_key_decor_at(
            *doc,
            p,
        ) == document_key_decor_at(*old(doc), p) by {
            assert(key_decor_at(r0, p) == document_key_decor_at(*old(doc), p));
        }
        assert forall|p: Seq<Seq<char>>| (p.len() == 0 || p[0] != "ingest"@) implies #[trigger] document_item_decor_at(
            *doc,
            p,
        ) == document_item_decor_at(*old(doc), p) by {
            assert(item_decor_at(r0, p) == document_item_decor_at(*old(doc), p));
        }
    }
}

/// Apply the steps from schema version `from` to the current one.
fn run_steps(doc: &mut toml_edit::DocumentMut, from: u32, changes: &mut Vec<MigrationChange>)
    ensures
        document_entries(*final(doc)) == steps_spec(document_entries(*old(doc)), from).0,
        changes_view(final(changes)@) == changes_view(old(changes)@) + steps_spec(document_entries(*old(doc)), from).1,
        (document_entries(*old(doc)).len() > 0 && untouched_by_steps(seq![document_entries(*old(doc))[0].0]))
            ==> document_first_key_prefix(*final(doc)) == document_first_key_prefix(*old(doc))
            && document_entries(*final(doc)).len() > 0,
        forall|p: Seq<Seq<char>>|
            untouched_by_steps(p) ==> #[trigger] document_key_decor_at(*final(doc), p) == document_key_decor_at(
                *old(doc),
                p,
            ),
        forall|p: Seq<Seq<char>>|
            untouched_by_steps(p) ==> #[trigger] document_item_decor_at(*final(doc), p) == document_item_decor_at(
                *old(doc),
                p,
            ),
{
    let ghost es = document_entries(*doc);
    let ghost d0 = *doc;
    let ghost c0 = changes_view(changes@);
    if from < 2 {
        step_1_to_2(doc, changes);
    }
    let ghost d1 = *doc;
    if from < 3 {
        step_2_to_3(doc, changes);
    }
    let ghost d2 = *doc;
    if from < 4 {
        step_3_to_4(doc, changes);
    }
    let ghost d3 = *doc;
    if from < 5 {
        step_4_to_5(doc, changes);
    }
    proof {
        let (a, ca) = if from < 2 {
            step_1_to_2_spec(es)
        } else {
            (es, seq![])
        };
        let (b, cb) = if from < 3 {
            step_2_to_3_spec(a)
        } else {
            (a, seq![])
        };
        let (c, cc) = if from < 4 {
            step_3_to_4_spec(b)
        } else {
            (b, seq![])
        };
        let (d, cd) = if from < 5 {
            step_4_to_5_spec(c)
        } else {
            (c, seq![])
        };
        assert(document_entries(d1) == a);
        assert(document_entries(d2) == b);
        assert(document_entries(d3) == c);
        assert(changes_view(changes@) =~= c0 + (ca + cb + cc + cd));
        if es.len() > 0 && untouched_by_steps(seq![es[0].0]) {
            if from < 2 {
                lemma_step_1_to_2_keeps_first(es);
            }
            assert(a.len() > 0 && a[0].0 == es[0].0);
            assert(document_first_key_prefix(d1) == document_first_key_prefix(d0));
            assert(document_first_key_prefix(d2) == document_first_key_prefix(d1));
            assert(b.len() > 0);
            lemma_find_key_range(b, "workspace"@);
            assert(c.len() == b.len());
            lemma_find_key_range(c, "ingest"@);
            assert(d.len() == c.len());
        }
        assert forall|p: Seq<Seq<char>>| untouched_by_steps(p) implies #[trigger] document_key_decor_at(*doc, p)
            == document_key_decor_at(d0, p) by {
            assert(document_key_decor_at(d1, p) == document_key_decor_at(d0, p));
            assert(document_key_decor_at(d2, p) == document_key_decor_at(d1, p));
            assert(document_key_decor_at(d3, p) == document_key_decor_at(d2, p));
        }
        assert forall|p: Seq<Seq<char>>| untouched_by_steps(p) implies #[trigger] document_item_decor_at(*doc, p)
            == document_item_decor_at(d0, p) by {
            assert(document_item_decor_at(d1, p) == document_item_decor_at(d0, p));
            assert(document_item_decor_at(d2, p) == document_item_decor_at(d1, p));
            assert(document_item_decor_at(d3, p) == document_item_decor_at(d2, p));
        }
    }
}

/// The integer under `key`, if any.
pub open spec fn int_entry(es: Seq<(Seq<char>, TomlNode)>, key: Seq<char>) -> Option<i64> {
    if find_key(es, key) >= 0 {
        match node_at(es, key) {
            TomlNode::Integer(v) => Some(v),
            _ => None,
        }
    } else {
        None
    }
}

/// The schema version a file declares (an absent or non-integer
/// `schema_version` reads as 1; the integer is truncated to 32 bits).
pub open spec fn declared_version(es: Seq<(Seq<char>, TomlNode)>) -> u32 {
    match int_entry(es, "schema_version"@) {
        Some(v) => v as u32,
        None => 1,
    }
}

/// The changes migrating the root entries `es` against the reference
/// entries `r`: the version steps, then the reconciliation.
pub open spec fn migration_changes(es: Seq<(Seq<char>, TomlNode)>, r: Seq<(Seq<char>, TomlNode)>) -> Seq<ChangeView> {
    let (stepped, c1) = steps_spec(es, declared_version(es));
    c1 + reconcile_spec(current_reference(r), stepped, seq![]).1
}

/// The default entries `r`, written in the version 2 layout, brought to the
/// current one.
pub open spec fn current_reference(r: Seq<(Seq<char>, TomlNode)>) -> Seq<(Seq<char>, TomlNode)> {
    steps_spec(r, 2).0
}

/// The decoration a migrated document `d` keeps: parsed from `text` into
/// the entries `es`, stepped to `stepped` and migrated to `migrated`
/// against `reference`. Paths the version steps move or create (see
/// `untouched_by_steps`) are left out.
///
/// - The first key keeps the comment and spacing before it.
/// - Every key and item the steps kept keeps its decoration (comments,
///   spacing, table headers), except the value under the top-level
///   `schema_version`, which the version stamp may replace.
/// - Every item added from `reference` carries the reference's decoration.
pub open spec fn keeps_decoration(
    d: toml_edit::DocumentMut,
    text: Seq<char>,
    es: Seq<(Seq<char>, TomlNode)>,
    stepped: Seq<(Seq<char>, TomlNode)>,
    migrated: Seq<(Seq<char>, TomlNode)>,
    reference: toml_edit::DocumentMut,
) -> bool {
    &&& es.len() > 0 && untouched_by_steps(seq![es[0].0]) ==> document_first_key_prefix(d)
        == parsed_first_key_prefix(text)
    &&& forall|p: Seq<Seq<char>>|
        path_in(stepped, p) && untouched_by_steps(p) && (p.len() <= 1 || p[0] != "schema_version"@)
            ==> #[trigger] document_key_decor_at(d, p) == parsed_key_decor(text, p)
    &&& forall|p: Seq<Seq<char>>|
        path_in(stepped, p) && untouched_by_steps(p) && (p.len() == 0 || p[0] != "schema_version"@)
            ==> #[trigger] document_item_decor_at(d, p) == parsed_item_decor(text, p)
    &&& forall|p: Seq<Seq<char>>|
        path_in(migrated, p) && !path_in(stepped, p) && untouched_by_steps(p) && (p.len() == 0 || p[0]
            != "schema_version"@) ==> #[trigger] document_item_decor_at(d, p) == document_item_decor_at(reference, p)
}

/// Migrate a user's config text against the annotated default document
/// `reference`: apply the version steps from the file's declared
/// `schema_version`, reconcile, and stamp the current version. The new
/// text renders a document holding the migrated entries and the user's
/// decoration (see `keeps_decoration`). A text that is not valid TOML comes
/// back unchanged, as version 1, with no changes.
pub fn migrate_document(text: &str, reference: &toml_edit::DocumentMut) -> (res: MigrationOutcome)
    ensures
        res.to_schema_version == CURRENT_SCHEMA_VERSION,
        match parsed_toml(text@) {
            None => res.from_schema_version == 1 && res.changes@.len() == 0 && res.new_text@ == text@,
            Some(es) => {
                &&& res.from_schema_version == declared_version(es)
                &&& changes_view(res.changes@) == migration_changes(es, document_entries(*reference))
                &&& exists|d: toml_edit::DocumentMut|
                    #![trigger document_text(d)]
                    document_entries(d) == migrated_entries(es, document_entries(*reference)) && document_text(d)
                        == res.new_text@ && keeps_decoration(
                        d,
                        text@,
                        es,
                        steps_spec(es, declared_version(es)).0,
                        migrated_entries(es, document_entries(*reference)),
                        *reference,
                    )
            },
        },
{
    let mut doc = match parse_document(text) {
        Some(d) => d,
        None => {
            return MigrationOutcome {
                from_schema_version: 1,
                to_schema_version: CURRENT_SCHEMA_VERSION,
                changes: Vec::new(),
                new_text: String::from_str(text),
            };
        },
    };
    let ghost es = document_entries(doc);
    let ghost d0 = doc;
    let from: u32 = match integer_at(root_table(&doc), "schema_version") {
        Some(v) => #[verifier::truncate] (v as u32),
        None => 1,
    };
    let mut changes: Vec<MigrationChange> = Vec::new();
    proof {
        assert(from == declared_version(es));
        assert(changes_view(changes@) =~= Seq::<ChangeView>::empty());
    }
    run_steps(&mut doc, from, &mut changes);
    let ghost stepped = steps_spec(es, from);
    assert(document_entries(doc) == stepped.0);
    assert(changes_view(changes@) =~= stepped.1);
    let ghost d1 = doc;
    let mut current_ref = clone_document(reference);
    let mut scratch: Vec<MigrationChange> = Vec::new();
    run_steps(&mut current_ref, 2, &mut scratch);
    let ghost r5 = current_reference(document_entries(*reference));
    let ghost mut u0: toml_edit::Table = vstd::pervasive::arbitrary();
    let ghost mut u1: toml_edit::Table = vstd::pervasive::arbitrary();
    let ghost mut rtv: toml_edit::Table = vstd::pervasive::arbitrary();
    {
        let root = root_table_mut(&mut doc);
        let rt = root_table(&current_ref);
        proof {
            u0 = *root;
            rtv = *rt;
        }
        reconcile(rt, root, "", &mut changes);
        proof {
            u1 = *root;
        }
    }
    let ghost d2 = doc;
    proof {
        reveal_strlit("");
        assert(""@ =~= Seq::<char>::empty());
        assert(changes_view(changes@) =~= stepped.1 + reconcile_spec(r5, stepped.0, seq![]).1);
        assert(changes_view(changes@) =~= migration_changes(es, document_entries(*reference)));
    }
    let current: u32 = match integer_at(root_table(&doc), "schema_version") {
        Some(v) => #[verifier::truncate] (v as u32),
        None => 0,
    };
    let ghost mut s0: toml_edit::Table = vstd::pervasive::arbitrary();
    let ghost mut s1: toml_edit::Table = vstd::pervasive::arbitrary();
    let ghost stamped = current != CURRENT_SCHEMA_VERSION;
    if current != CURRENT_SCHEMA_VERSION {
        let root = root_table_mut(&mut doc);
        proof {
            s0 = *root;
        }
        set_integer(root, "schema_version", 5);
        proof {
            s1 = *root;
        }
    }
    proof {
        assert(document_entries(doc) == migrated_entries(es, document_entries(*reference)));
        let sv = "schema_version"@;
        let st = stepped.0;
        let rec = document_entries(d2);
        let mig = document_entries(doc);
        assert(table_entries(u0) == st);
        // the first key
        if es.len() > 0 && untouched_by_steps(seq![es[0].0]) {
            assert(st.len() > 0);
            assert(rec.len() >= st.len()) by {
                lemma_reconcile_keeps_user_entries(r5, st, ""@);
            }
        }
        // kept keys and items
        assert forall|p: Seq<Seq<char>>|
            path_in(st, p) && untouched_by_steps(p) && (p.len() <= 1 || p[0] != sv) implies #[trigger] document_key_decor_at(
                doc,
                p,
            ) == parsed_key_decor(text@, p) by {
            assert(document_key_decor_at(d1, p) == document_key_decor_at(d0, p));
            assert(key_decor_at(u0, p) == document_key_decor_at(d1, p));
            assert(key_decor_at(u1, p) == key_decor_at(u0, p));
            assert(document_key_decor_at(d2, p) == key_decor_at(u1, p));
            if stamped {
                assert(key_decor_at(s0, p) == document_key_decor_at(d2, p));
                assert(document_key_decor_at(doc, p) == key_decor_at(s1, p));
                if p.len() > 0 && p[0] == sv {
                    assert(p =~= seq![sv]);
                    lemma_find_key_range(st, sv);
                    lemma_reconcile_keeps_user_entries(r5, st, ""@);
                    lemma_find_key_exists(rec, sv, find_key(st, sv));
                }
            }
        }
        assert forall|p: Seq<Seq<char>>|
            path_in(st, p) && untouched_by_steps(p) && (p.len() == 0 || p[0] != sv) implies #[trigger] document_item_decor_at(
                doc,
                p,
            ) == parsed_item_decor(text@, p) by {
            assert(document_item_decor_at(d1, p) == document_item_decor_at(d0, p));
            assert(item_decor_at(u0, p) == document_item_decor_at(d1, p));
            assert(item_decor_at(u1, p) == item_decor_at(u0, p));
            assert(document_item_decor_at(d2, p) == item_decor_at(u1, p));
            if stamped {
                assert(item_decor_at(s0, p) == document_item_decor_at(d2, p));
                assert(document_item_decor_at(doc, p) == item_decor_at(s1, p));
            }
        }
        // added items
        assert forall|p: Seq<Seq<char>>|
            path_in(mig, p) && !path_in(st, p) && untouched_by_steps(p) && (p.len() == 0 || p[0] != sv) implies #[trigger] document_item_decor_at(
                doc,
                p,
            ) == document_item_decor_at(*reference, p) by {
            if p.len() > 0 {
                lemma_find_key_range(rec, sv);
                lemma_find_key_range(rec, p[0]);
                if stamped {
                    if find_key(rec, sv) >= 0 {
                        lemma_find_key_update(rec, find_key(rec, sv), TomlNode::Integer(5), p[0]);
                    } else {
                        lemma_find_key_push(rec, sv, TomlNode::Integer(5), p[0]);
                    }
                }
                lemma_path_in_head(mig, rec, p);
            }
            assert(document_item_decor_at(current_ref, p) == document_item_decor_at(*reference, p));
            assert(item_decor_at(rtv, p) == document_item_decor_at(current_ref, p));
            assert(item_decor_at(u1, p) == item_decor_at(rtv, p));
            assert(document_item_decor_at(d2, p) == item_decor_at(u1, p));
            if stamped {
                assert(item_decor_at(s0, p) == document_item_decor_at(d2, p));
                assert(document_item_decor_at(doc, p) == item_decor_at(s1, p));
            }
        }
        assert(keeps_decoration(doc, text@, es, st, mig, *reference));
    }
    let new_text = render_document(&doc);
    MigrationOutcome { from_schema_version: from, to_schema_version: CURRENT_SCHEMA_VERSION, changes, new_text }
}


/// Every one of the first `k` reference keys is present in `u`, and a key
/// that is a table on both sides is covered recursively.
pub open spec fn covers(
    r: Seq<(Seq<char>, TomlNode)>,
    u: Seq<(Seq<char>, TomlNode)>,
    k: int,
) -> bool
    decreases r, k,
{
    if k <= 0 || k > r.len() {
        true
    } else {
        let key = r[k - 1].0;
        let node = node_at(r, key);
        &&& covers(r, u, k - 1)
        &&& find_key(u, key) >= 0
        &&& (node is Table && node_at(u, key) is Table ==> {
            proof {
                lemma_find_key_exists(r, key, k - 1);
                let e = r[find_key(r, key)];
                assert(decreases_to!(r => e));
                assert(decreases_to!(e => e.1));
                assert(decreases_to!(e.1 => e.1->Table_0));
            }
            covers(node->Table_0, node_at(u, key)->Table_0, node->Table_0.len() as int)
        })
    }
}

proof fn lemma_find_key_push(u: Seq<(Seq<char>, TomlNode)>, k2: Seq<char>, n: TomlNode, k: Seq<char>)
    ensures
        find_key(u.push((k2, n)), k) == (if k == k2 {
            u.len() as int
        } else {
            find_key(u, k)
        }),
{
    assert(u.push((k2, n)).drop_last() =~= u);
}

proof fn lemma_find_key_update(u: Seq<(Seq<char>, TomlNode)>, i: int, n: TomlNode, k: Seq<char>)
    requires
        0 <= i < u.len(),
    ensures
        find_key(u.update(i, (u[i].0, n)), k) == find_key(u, k),
    decreases u.len(),
{
    let v = u.update(i, (u[i].0, n));
    if i < u.len() - 1 {
        assert(v.drop_last() =~= u.drop_last().update(i, (u[i].0, n)));
        lemma_find_key_update(u.drop_last(), i, n, k);
    } else {
        assert(v.drop_last() =~= u.drop_last());
    }
}

proof fn lemma_covers_at(r: Seq<(Seq<char>, TomlNode)>, u: Seq<(Seq<char>, TomlNode)>, m: int, j: int)
    requires
        covers(r, u, m),
        0 <= j < m <= r.len(),
    ensures
        covers(r, u, j + 1),
    decreases m,
{
    if j + 1 < m {
        lemma_covers_at(r, u, m - 1, j);
    }
}

/// Covering holds when the entries under the first `m` reference keys are
/// found with the same nodes.
proof fn lemma_covers_stable(
    r: Seq<(Seq<char>, TomlNode)>,
    u1: Seq<(Seq<char>, TomlNode)>,
    u2: Seq<(Seq<char>, TomlNode)>,
    m: int,
)
    requires
        covers(r, u1, m),
        0 <= m <= r.len(),
        forall|j: int|
            0 <= j < m ==> find_key(u2, #[trigger] r[j].0) >= 0 && node_at(u2, r[j].0) == node_at(u1, r[j].0),
    ensures
        covers(r, u2, m),
    decreases m,
{
    if m > 0 {
        lemma_covers_stable(r, u1, u2, m - 1);
        let key = r[m - 1].0;
        assert(find_key(u2, key) >= 0 && node_at(u2, key) == node_at(u1, key));
    }
}

/// Any entries cover themselves.
proof fn lemma_covers_self(r: Seq<(Seq<char>, TomlNode)>, k: int)
    requires
        0 <= k <= r.len(),
    ensures
        covers(r, r, k),
    decreases r, k,
{
    if k > 0 {
        lemma_covers_self(r, k - 1);
        let key = r[k - 1].0;
        lemma_find_key_exists(r, key, k - 1);
        let node = node_at(r, key);
        if node is Table {
            let e = r[find_key(r, key)];
            assert(decreases_to!(r => e));
            assert(decreases_to!(e => e.1));
            assert(decreases_to!(e.1 => e.1->Table_0));
            lemma_covers_self(node->Table_0, node->Table_0.len() as int);
        }
    }
}

/// Reconciling entries that already cover the reference changes nothing.
proof fn lemma_reconcile_covered(
    r: Seq<(Seq<char>, TomlNode)>,
    u: Seq<(Seq<char>, TomlNode)>,
    p: Seq<char>,
    k: int,
)
    requires
        covers(r, u, k),
        0 <= k <= r.len(),
    ensures
        reconcile_fold(r, u, p, k) == (u, Seq::<ChangeView>::empty()),
    decreases r, k,
{
    if k > 0 {
        lemma_reconcile_covered(r, u, p, k - 1);
        let key = r[k - 1].0;
        let node = node_at(r, key);
        let i = find_key(u, key);
        lemma_find_key_range(u, key);
        lemma_find_key_exists(r, key, k - 1);
        if node is Table && u[i].1 is Table {
            let e = r[find_key(r, key)];
            assert(decreases_to!(r => e));
            assert(decreases_to!(e => e.1));
            assert(decreases_to!(e.1 => e.1->Table_0));
            let path = dotted(p, key);
            lemma_reconcile_covered(node->Table_0, u[i].1->Table_0, path, node->Table_0.len() as int);
            assert(u.update(i, (key, TomlNode::Table(u[i].1->Table_0))) =~= u);
        }
        assert(Seq::<ChangeView>::empty() + Seq::<ChangeView>::empty() =~= Seq::<ChangeView>::empty());
    }
}

/// After the first `k` reference keys, the reconciled entries cover them.
proof fn lemma_reconcile_covers(
    r: Seq<(Seq<char>, TomlNode)>,
    u: Seq<(Seq<char>, TomlNode)>,
    p: Seq<char>,
    k: int,
)
    requires
        0 <= k <= r.len(),
    ensures
        covers(r, reconcile_fold(r, u, p, k).0, k),
    decreases r, k,
{
    if k > 0 {
        lemma_reconcile_covers(r, u, p, k - 1);
        let (u1, c1) = reconcile_fold(r, u, p, k - 1);
        let key = r[k - 1].0;
        let node = node_at(r, key);
        let path = dotted(p, key);
        let i = find_key(u1, key);
        lemma_find_key_range(u1, key);
        lemma_find_key_exists(r, key, k - 1);
        let u2 = reconcile_fold(r, u, p, k).0;
        assert forall|j: int| 0 <= j < k - 1 implies find_key(u1, #[trigger] r[j].0) >= 0 by {
            lemma_covers_at(r, u1, k - 1, j);
        }
        if i < 0 {
            assert(u2 == u1.push((key, node)));
            assert forall|j: int|
                0 <= j < k - 1 implies find_key(u2, #[trigger] r[j].0) >= 0 && node_at(u2, r[j].0) == node_at(
                u1,
                r[j].0,
            ) by {
                let kj = r[j].0;
                assert(find_key(u1, kj) >= 0);
                lemma_find_key_range(u1, kj);
                lemma_find_key_push(u1, key, node, kj);
                assert(kj != key);
                assert(u2[find_key(u1, kj)] == u1[find_key(u1, kj)]);
            }
            lemma_covers_stable(r, u1, u2, k - 1);
            lemma_find_key_push(u1, key, node, key);
            if node is Table {
                lemma_covers_self(node->Table_0, node->Table_0.len() as int);
            }
        } else if node is Table && u1[i].1 is Table {
            let e = r[find_key(r, key)];
            assert(decreases_to!(r => e));
            assert(decreases_to!(e => e.1));
            assert(decreases_to!(e.1 => e.1->Table_0));
            let rc = node->Table_0;
            let (uc, cc) = reconcile_fold(rc, u1[i].1->Table_0, path, rc.len() as int);
            assert(u2 == u1.update(i, (key, TomlNode::Table(uc))));
            lemma_reconcile_covers(rc, u1[i].1->Table_0, path, rc.len() as int);
            assert forall|j: int|
                0 <= j < k - 1 implies find_key(u2, #[trigger] r[j].0) >= 0 && node_at(u2, r[j].0) == node_at(
                u1,
                r[j].0,
            ) by {
                let kj = r[j].0;
                lemma_covers_at(r, u1, k - 1, j);
                assert(find_key(u1, kj) >= 0);
                lemma_find_key_update(u1, i, TomlNode::Table(uc), kj);
                assert(find_key(u2, kj) == find_key(u1, kj));
                if kj == key {
                    lemma_covers_at(r, u1, k - 1, j);
                    assert(covers(r, u1, j + 1));
                    assert(node_at(u1, key) is Table);
                    assert(covers(rc, node_at(u1, key)->Table_0, rc.len() as int));
                    lemma_reconcile_covered(rc, u1[i].1->Table_0, path, rc.len() as int);
                    assert(uc == u1[i].1->Table_0);
                    assert(TomlNode::Table(uc) == u1[i].1);
                    assert(u2[i] == u1[i]);
                    assert(find_key(u1, kj) == i);
                    assert(node_at(u2, kj) == node_at(u1, kj));
                } else {
                    lemma_find_key_range(u1, kj);
                    let f = find_key(u1, kj);
                    assert(f != i);
                    assert(u2[f] == u1[f]);
                    assert(node_at(u2, kj) == node_at(u1, kj));
                }
                assert(find_key(u2, kj) >= 0 && node_at(u2, kj) == node_at(u1, kj));
            }
            lemma_covers_stable(r, u1, u2, k - 1);
            lemma_find_key_update(u1, i, TomlNode::Table(uc), key);
        } else {
            assert(u2 == u1);
        }
    }
}

/// Reconciliation is idempotent: reconciling its own result against the
/// same reference adds nothing, records no change, and leaves the entries
/// as they are.
pub proof fn lemma_reconcile_idempotent(
    r: Seq<(Seq<char>, TomlNode)>,
    u: Seq<(Seq<char>, TomlNode)>,
    p: Seq<char>,
)
    ensures
        reconcile_spec(r, reconcile_spec(r, u, p).0, p) == (reconcile_spec(r, u, p).0, Seq::<ChangeView>::empty()),
{
    lemma_reconcile_covers(r, u, p, r.len() as int);
    lemma_reconcile_covered(r, reconcile_spec(r, u, p).0, p, r.len() as int);
}


/// Reconciliation never touches what the user wrote: every user entry keeps
/// its place and key, a value keeps its item, and a table stays a table
/// (only gaining missing entries); new entries come after them.
pub proof fn lemma_reconcile_keeps_user_entries(
    r: Seq<(Seq<char>, TomlNode)>,
    u: Seq<(Seq<char>, TomlNode)>,
    p: Seq<char>,
)
    ensures
        u.len() <= reconcile_spec(r, u, p).0.len(),
        forall|j: int|
            0 <= j < u.len() ==> {
                &&& (#[trigger] reconcile_spec(r, u, p).0[j]).0 == u[j].0
                &&& u[j].1 is Table ==> reconcile_spec(r, u, p).0[j].1 is Table
                &&& !(u[j].1 is Table) ==> reconcile_spec(r, u, p).0[j].1 == u[j].1
            },
{
    lemma_reconcile_fold_keeps(r, u, p, r.len() as int);
}

proof fn lemma_reconcile_fold_keeps(
    r: Seq<(Seq<char>, TomlNode)>,
    u: Seq<(Seq<char>, TomlNode)>,
    p: Seq<char>,
    k: int,
)
    requires
        0 <= k <= r.len(),
    ensures
        u.len() <= reconcile_fold(r, u, p, k).0.len(),
        forall|j: int|
            0 <= j < u.len() ==> {
                &&& (#[trigger] reconcile_fold(r, u, p, k).0[j]).0 == u[j].0
                &&& u[j].1 is Table ==> reconcile_fold(r, u, p, k).0[j].1 is Table
                &&& !(u[j].1 is Table) ==> reconcile_fold(r, u, p, k).0[j].1 == u[j].1
            },
    decreases k,
{
    if k > 0 {
        lemma_reconcile_fold_keeps(r, u, p, k - 1);
        let u1 = reconcile_fold(r, u, p, k - 1).0;
        let key = r[k - 1].0;
        lemma_find_key_range(u1, key);
    }
}

/// Keys of a TOML table are distinct.
pub open spec fn distinct_keys(es: Seq<(Seq<char>, TomlNode)>) -> bool {
    forall|i: int, j: int| 0 <= i < j < es.len() ==> #[trigger] es[i].0 != #[trigger] es[j].0
}

proof fn lemma_find_key_removed(es: Seq<(Seq<char>, TomlNode)>, k: Seq<char>)
    requires
        distinct_keys(es),
        find_key(es, k) >= 0,
    ensures
        find_key(es.remove(find_key(es, k)), k) < 0,
{
    let f = find_key(es, k);
    let rest = es.remove(f);
    lemma_find_key_range(es, k);
    lemma_find_key_range(rest, k);
    if find_key(rest, k) >= 0 {
        let g = find_key(rest, k);
        if g < f {
            assert(rest[g] == es[g]);
        } else {
            assert(rest[g] == es[g + 1]);
        }
    }
}

/// The v1 → v2 step is idempotent on a well-formed document: once
/// `workspace.include` is gone, the step removes and records nothing.
pub proof fn lemma_step_1_to_2_idempotent(es: Seq<(Seq<char>, TomlNode)>)
    requires
        distinct_keys(es),
        find_key(es, "workspace"@) >= 0 && node_at(es, "workspace"@) is Table ==> distinct_keys(
            node_at(es, "workspace"@)->Table_0,
        ),
    ensures
        step_1_to_2_spec(step_1_to_2_spec(es).0) == (step_1_to_2_spec(es).0, Seq::<ChangeView>::empty()),
{
    let w = find_key(es, "workspace"@);
    lemma_find_key_range(es, "workspace"@);
    if w >= 0 && es[w].1 is Table {
        let ws = es[w].1->Table_0;
        let j = find_key(ws, "include"@);
        if j >= 0 {
            let es2 = es.update(w, ("workspace"@, TomlNode::Table(ws.remove(j))));
            lemma_find_key_update(es, w, TomlNode::Table(ws.remove(j)), "workspace"@);
            lemma_find_key_removed(ws, "include"@);
            assert(es2[w].1->Table_0 == ws.remove(j));
        }
    }
}

/// The version stamp: `schema_version = 5` unless the file already reads
/// as version 5.
pub open spec fn stamp(es: Seq<(Seq<char>, TomlNode)>) -> Seq<(Seq<char>, TomlNode)> {
    let current: u32 = match int_entry(es, "schema_version"@) {
        Some(v) => v as u32,
        None => 0,
    };
    if current != CURRENT_SCHEMA_VERSION {
        if find_key(es, "schema_version"@) >= 0 {
            es.update(find_key(es, "schema_version"@), ("schema_version"@, TomlNode::Integer(5)))
        } else {
            es.push(("schema_version"@, TomlNode::Integer(5)))
        }
    } else {
        es
    }
}

/// The root entries of a migrated document before it is rendered: the
/// steps, the reconciliation against `r`, the stamp.
pub open spec fn migrated_entries(es: Seq<(Seq<char>, TomlNode)>, r: Seq<(Seq<char>, TomlNode)>) -> Seq<
    (Seq<char>, TomlNode),
> {
    stamp(reconcile_spec(current_reference(r), steps_spec(es, declared_version(es)).0, seq![]).0)
}

proof fn lemma_covers_stable_or_value(
    r: Seq<(Seq<char>, TomlNode)>,
    u1: Seq<(Seq<char>, TomlNode)>,
    u2: Seq<(Seq<char>, TomlNode)>,
    m: int,
)
    requires
        covers(r, u1, m),
        0 <= m <= r.len(),
        forall|j: int|
            0 <= j < m ==> find_key(u2, #[trigger] r[j].0) >= 0 && (node_at(u2, r[j].0) == node_at(u1, r[j].0)
                || !(node_at(u2, r[j].0) is Table)),
    ensures
        covers(r, u2, m),
    decreases m,
{
    if m > 0 {
        lemma_covers_stable_or_value(r, u1, u2, m - 1);
        let key = r[m - 1].0;
        assert(find_key(u2, key) >= 0);
    }
}

/// Migration is idempotent on the document's entries: migrating the
/// migrated entries again (against the same defaults) records no change.
pub proof fn lemma_migration_idempotent(es: Seq<(Seq<char>, TomlNode)>, r: Seq<(Seq<char>, TomlNode)>)
    ensures
        migration_changes(migrated_entries(es, r), r) == Seq::<ChangeView>::empty(),
        declared_version(migrated_entries(es, r)) == CURRENT_SCHEMA_VERSION,
{
    let r0 = r;
    let r = current_reference(r0);
    let sv = "schema_version"@;
    let x = reconcile_spec(r, steps_spec(es, declared_version(es)).0, seq![]).0;
    let y = stamp(x);
    lemma_reconcile_covers(r, steps_spec(es, declared_version(es)).0, seq![], r.len() as int);
    lemma_find_key_range(x, sv);
    let current: u32 = match int_entry(x, sv) {
        Some(v) => v as u32,
        None => 0,
    };
    if current != CURRENT_SCHEMA_VERSION {
        if find_key(x, sv) >= 0 {
            lemma_find_key_update(x, find_key(x, sv), TomlNode::Integer(5), sv);
        } else {
            lemma_find_key_push(x, sv, TomlNode::Integer(5), sv);
        }
        assert(int_entry(y, sv) == Some(5i64));
    }
    assert(declared_version(y) == CURRENT_SCHEMA_VERSION);
    assert forall|j: int|
        0 <= j < r.len() implies find_key(y, #[trigger] r[j].0) >= 0 && (node_at(y, r[j].0) == node_at(x, r[j].0)
            || !(node_at(y, r[j].0) is Table)) by {
        let kj = r[j].0;
        lemma_covers_at(r, x, r.len() as int, j);
        assert(find_key(x, kj) >= 0);
        lemma_find_key_range(x, kj);
        if current != CURRENT_SCHEMA_VERSION {
            if find_key(x, sv) >= 0 {
                lemma_find_key_update(x, find_key(x, sv), TomlNode::Integer(5), kj);
                if kj != sv {
                    assert(y[find_key(x, kj)] == x[find_key(x, kj)]);
                }
            } else {
                lemma_find_key_push(x, sv, TomlNode::Integer(5), kj);
                assert(y[find_key(x, kj)] == x[find_key(x, kj)]);
            }
        }
    }
    lemma_covers_stable_or_value(r, x, y, r.len() as int);
    lemma_reconcile_covered(r, y, seq![], r.len() as int);
    assert(steps_spec(y, 5).0 == y);
    assert(steps_spec(y, 5).1 =~= Seq::<ChangeView>::empty());
    assert(Seq::<ChangeView>::empty() + Seq::<ChangeView>::empty() =~= Seq::<ChangeView>::empty());
    assert(migration_changes(y, r0) =~= Seq::<ChangeView>::empty());
}

} // verus!
