//! The calls into `toml_edit` that reading a `Makefile.toml` makes.
//!
//! A parsed document is opaque to the verifier. What the parser reads of it
//! is named by [`document_entries`]; the functions here state their results
//! over that name, and parsing ties the name to the parsed text through
//! [`toml_document`].

use vstd::prelude::*;

use toml_edit::{DocumentMut, Item, TomlError, Value as V};

use self::ItemKind as K;

verus! {

#[verifier::external_type_specification]
#[verifier::external_body]
pub struct ExDocumentMut(DocumentMut);

#[verifier::external_type_specification]
#[verifier::external_body]
pub struct ExTomlError(TomlError);

/// The variant of a TOML item (`Item`, and `Value` inside `Item::Value`).
#[derive(Debug, Clone, Copy, PartialEq, Eq)]
pub enum ItemKind {
    /// `Item::None`, an empty slot.
    Empty,
    String,
    Integer,
    Float,
    Boolean,
    Datetime,
    Array,
    InlineTable,
    Table,
    ArrayOfTables,
}

/// What the parser reads of one top-level item of a document.
pub struct TomlEntry {
    /// The variant of the item.
    pub kind: ItemKind,
    /// `Item::as_str()`: the text when the item is a string value.
    pub text: Option<Seq<char>>,
    /// `Item::as_table()` when the item is a `[table]`: each of its present
    /// keys, with `Item::as_str()` of the value under it.
    pub fields: Option<Map<Seq<char>, Option<Seq<char>>>>,
    /// `Array::len()` when the item is an array value.
    pub len: Option<nat>,
    /// When the item is an inline table: each key that `InlineTable::get`
    /// finds, with `Value::as_str()` of the value under it.
    pub inline: Option<Map<Seq<char>, Option<Seq<char>>>>,
}

/// How the parts of an entry go with its kind: `as_str` gives text exactly
/// for a string, `as_table` a table exactly for a `[table]`, and likewise
/// for arrays and inline tables; an `Item::None` slot is never an entry.
pub open spec fn entry_shape(e: TomlEntry) -> bool {
    &&& e.kind != ItemKind::Empty
    &&& (e.text is Some <==> e.kind == ItemKind::String)
    &&& (e.fields is Some <==> e.kind == ItemKind::Table)
    &&& (e.len is Some <==> e.kind == ItemKind::Array)
    &&& (e.inline is Some <==> e.kind == ItemKind::InlineTable)
}

/// Every entry of `entries` has the shape [`entry_shape`] describes.
pub open spec fn entries_shaped(entries: Map<Seq<char>, TomlEntry>) -> bool {
    forall|k: Seq<char>| #[trigger] entries.contains_key(k) ==> entry_shape(entries[k])
}

/// The present top-level items of a parsed document, by key
/// (`Table::get` does not return `Item::None` slots).
pub uninterp spec fn document_entries(doc: DocumentMut) -> Map<Seq<char>, TomlEntry>;

/// What `DocumentMut::from_str` makes of `content`: `None` when `content`
/// is not a valid TOML document, else the entries of the document.
pub uninterp spec fn toml_document(content: Seq<char>) -> Option<Map<Seq<char>, TomlEntry>>;

/// Variant of the top-level item `key`, if present.
pub open spec fn entry_kind(entries: Map<Seq<char>, TomlEntry>, key: Seq<char>) -> Option<ItemKind> {
    if entries.contains_key(key) {
        Some(entries[key].kind)
    } else {
        None
    }
}

/// Text of the top-level item `key`, if it is present and a string.
pub open spec fn entry_text(entries: Map<Seq<char>, TomlEntry>, key: Seq<char>) -> Option<Seq<char>> {
    if entries.contains_key(key) {
        entries[key].text
    } else {
        None
    }
}

/// Length of the top-level item `key`, if it is present and an array.
pub open spec fn entry_len(entries: Map<Seq<char>, TomlEntry>, key: Seq<char>) -> Option<nat> {
    if entries.contains_key(key) {
        entries[key].len
    } else {
        None
    }
}

/// The top-level item `key`, if it is present and an inline table holding
/// `field`: `Some` of the text of that field's value (`None` inside when the
/// value is no string).
pub open spec fn inline_field(
    entries: Map<Seq<char>, TomlEntry>,
    key: Seq<char>,
    field: Seq<char>,
) -> Option<Option<Seq<char>>> {
    if entries.contains_key(key) {
        match entries[key].inline {
            Some(f) => if f.contains_key(field) {
                Some(f[field])
            } else {
                None
            },
            None => None,
        }
    } else {
        None
    }
}

/// Text of `key` inside the top-level `[table]`, if both are present and
/// the value is a string.
pub open spec fn table_text(
    entries: Map<Seq<char>, TomlEntry>,
    table: Seq<char>,
    key: Seq<char>,
) -> Option<Seq<char>> {
    if entries.contains_key(table) {
        match entries[table].fields {
            Some(fields) => if fields.contains_key(key) {
                fields[key]
            } else {
                None
            },
            None => None,
        }
    } else {
        None
    }
}

/// `DocumentMut::from_str`: parses `content` as a TOML document. It fails
/// exactly when `content` is not valid TOML; the document it returns is the
/// one [`toml_document`] names for `content`, and each of its items has the
/// parts its kind gives it (`Item::as_str`, `as_table`, `as_array` and
/// `as_inline_table` each answer for one kind only).
#[verifier::external_body]
pub(crate) fn parse_document(content: &str) -> (res: Result<DocumentMut, TomlError>)
    ensures
        res is Ok <==> toml_document(content@) is Some,
        res matches Ok(doc) ==> toml_document(content@) == Some(document_entries(doc)),
        res matches Ok(doc) ==> entries_shaped(document_entries(doc)),
{
    content.parse::<DocumentMut>()
}

/// `Table::get` on the root table, then the variant of the item found.
#[verifier::external_body]
pub(crate) fn top_item_kind(doc: &DocumentMut, key: &str) -> (res: Option<ItemKind>)
    ensures
        res == entry_kind(document_entries(*doc), key@),
{
    let item = doc.get(key)?;
    Some(match item {
        Item::None => K::Empty,
        Item::Table(_) => K::Table,
        Item::ArrayOfTables(_) => K::ArrayOfTables,
        Item::Value(V::String(_)) => K::String,
        Item::Value(V::Integer(_)) => K::Integer,
        Item::Value(V::Float(_)) => K::Float,
        Item::Value(V::Boolean(_)) => K::Boolean,
        Item::Value(V::Datetime(_)) => K::Datetime,
        Item::Value(V::Array(_)) => K::Array,
        Item::Value(V::InlineTable(_)) => K::InlineTable,
    })
}

/// `Table::get` on the root table, then `Item::as_str` of the item found.
#[verifier::external_body]
pub(crate) fn top_item_str(doc: &DocumentMut, key: &str) -> (res: Option<String>)
    ensures
        crate::text::opt_view(res) == entry_text(document_entries(*doc), key@),
{
    Some(doc.get(key)?.as_str()?.to_string())
}

/// `Table::get` on the root table, `Item::as_table`, `Table::get` in that
/// table, then `Item::as_str` of the item found.
#[verifier::external_body]
pub(crate) fn table_item_str(doc: &DocumentMut, table: &str, key: &str) -> (res: Option<String>)
    ensures
        crate::text::opt_view(res) == table_text(document_entries(*doc), table@, key@),
{
    let inner = doc.get(table)?.as_table()?;
    Some(inner.get(key)?.as_str()?.to_string())
}

/// `Table::get` on the root table, `Item::as_array`, then `Array::len`.
#[verifier::external_body]
pub(crate) fn top_array_len(doc: &DocumentMut, key: &str) -> (res: Option<usize>)
    ensures
        match res {
            Some(n) => entry_len(document_entries(*doc), key@) == Some(n as nat),
            None => entry_len(document_entries(*doc), key@) is None,
        },
{
    Some(doc.get(key)?.as_array()?.len())
}

/// `Table::get` on the root table, `Item::as_inline_table`,
/// `InlineTable::get` of `field`, then `Value::as_str` of the value found.
#[verifier::external_body]
pub(crate) fn top_inline_field(doc: &DocumentMut, key: &str, field: &str) -> (res: Option<
    Option<String>,
>)
    ensures
        match res {
            Some(v) => inline_field(document_entries(*doc), key@, field@) == Some(
                crate::text::opt_view(v),
            ),
            None => inline_field(document_entries(*doc), key@, field@) is None,
        },
{
    let value = doc.get(key)?.as_inline_table()?.get(field)?;
    Some(value.as_str().map(String::from))
}

} // verus!
