//! TOML documents, as the `toml` crate parses and writes them.

use toml::de::{DeTable, DeValue};
use vstd::prelude::*;

use crate::text::{same_text, signed_decimal};

verus! {

/// A key of a table inside a document with its value, which is `None` where it is no 64-bit integer.
pub type NumberEntry = (Seq<char>, Option<i64>);

/// The model of a [`Field`].
pub enum Content {
    Integer(Option<i64>),
    Boolean(bool),
    Text(Seq<char>),
    Table(Seq<NumberEntry>),
}

/// A key of a document with its value.
pub type Entry = (Seq<char>, Content);

/// A value of a document.
#[derive(Debug)]
pub enum Field {
    /// An integer, or `None` for one beyond 64 bits and for a value of another kind.
    Integer(Option<i64>),
    Boolean(bool),
    Text(String),
    /// A table, of whose values those that are no 64-bit integers are `None`.
    Table(Vec<(String, Option<i64>)>),
}

impl View for Field {
    type V = Content;

    open spec fn view(&self) -> Content {
        match *self {
            Field::Integer(n) => Content::Integer(n),
            Field::Boolean(b) => Content::Boolean(b),
            Field::Text(text) => Content::Text(text@),
            Field::Table(items) => Content::Table(numbers_in(items@)),
        }
    }
}

/// The entries that a sequence of keys and numbers holds.
pub open spec fn numbers_in(items: Seq<(String, Option<i64>)>) -> Seq<NumberEntry> {
    items.map_values(|item: (String, Option<i64>)| (item.0@, item.1))
}

/// The entries that a sequence of keys and values holds.
pub open spec fn entries_in(items: Seq<(String, Field)>) -> Seq<Entry> {
    items.map_values(|item: (String, Field)| (item.0@, item.1@))
}

/// A map of the `toml` crate; `toml::Table` is one from strings to values.
#[verifier::external_type_specification]
#[verifier::external_body]
#[verifier::reject_recursive_types(K)]
#[verifier::reject_recursive_types(V)]
pub struct ExMap<K, V>(toml::map::Map<K, V>);

/// A value of the `toml` crate.
#[verifier::external_type_specification]
#[verifier::external_body]
pub struct ExValue(toml::Value);

/// Why the `toml` crate could not parse a text.
#[verifier::external_type_specification]
#[verifier::external_body]
pub struct ExParseError(toml::de::Error);

/// Why the `toml` crate could not write a value.
#[verifier::external_type_specification]
#[verifier::external_body]
pub struct ExWriteError(toml::ser::Error);

/// The entries of a table, in its own order.
pub uninterp spec fn entries(table: toml::Table) -> Seq<Entry>;

/// The entries of the document that `toml::de::DeTable::parse` reads from a text, or nothing where
/// it fails.
pub uninterp spec fn parsed(text: Seq<char>) -> Option<Seq<Entry>>;

/// Whether `toml::from_str` can decode every value of a text, whatever is made of it.
pub uninterp spec fn decodable(text: Seq<char>) -> bool;

/// The value under `key`, if it is there.
pub open spec fn value_of<T>(doc: Seq<(Seq<char>, T)>, key: Seq<char>) -> Option<T>
    decreases doc.len(),
{
    if doc.len() == 0 {
        None
    } else if doc.last().0 == key {
        Some(doc.last().1)
    } else {
        value_of(doc.drop_last(), key)
    }
}

/// The value under a key is that of the last entry with this key.
proof fn lemma_value_of<T>(doc: Seq<(Seq<char>, T)>, key: Seq<char>, i: int)
    requires
        -1 <= i < doc.len(),
        i >= 0 ==> doc[i].0 == key,
        forall|k: int| i < k < doc.len() ==> (#[trigger] doc[k]).0 != key,
    ensures
        value_of(doc, key) == (if i >= 0 {
            Some(doc[i].1)
        } else {
            None
        }),
    decreases doc.len(),
{
    if i < doc.len() - 1 {
        assert(doc[doc.len() - 1].0 != key);
        let front = doc.drop_last();
        assert forall|k: int| i < k < front.len() implies (#[trigger] front[k]).0 != key by {
            assert(front[k] == doc[k]);
        }
        lemma_value_of(front, key, i);
    }
}

/// Where the last entry with a key is, if there is one.
fn find<T>(items: &[(String, T)], key: &str) -> (found: Option<usize>)
    ensures
        found matches Some(i) ==> i < items@.len() && items@[i as int].0@ == key@,
        forall|k: int|
            (if found is Some {
                found->0 as int
            } else {
                -1
            }) < k < items@.len() ==> (#[trigger] items@[k]).0@ != key@,
{
    let mut i = items.len();
    while i > 0
        invariant
            i <= items@.len(),
            forall|k: int| i <= k < items@.len() ==> (#[trigger] items@[k]).0@ != key@,
        decreases i,
    {
        i -= 1;
        if same_text(items[i].0.as_str(), key) {
            return Some(i);
        }
    }
    None
}

/// The value under `key` of a document, if it is there.
pub(crate) fn lookup<'a>(items: &'a [(String, Field)], key: &str) -> (res: Option<&'a Field>)
    ensures
        match res {
            Some(field) => value_of(entries_in(items@), key@) == Some(field@),
            None => value_of(entries_in(items@), key@) is None,
        },
{
    let ghost doc = entries_in(items@);
    match find(items, key) {
        Some(i) => {
            proof {
                lemma_value_of(doc, key@, i as int);
            }
            Some(&items[i].1)
        },
        None => {
            proof {
                lemma_value_of(doc, key@, -1);
            }
            None
        },
    }
}

/// The value under `key` of a table inside a document, if it is there.
pub(crate) fn lookup_number(items: &[(String, Option<i64>)], key: &str) -> (res: Option<
    Option<i64>,
>)
    ensures
        res == value_of(numbers_in(items@), key@),
{
    let ghost doc = numbers_in(items@);
    match find(items, key) {
        Some(i) => {
            proof {
                lemma_value_of(doc, key@, i as int);
            }
            Some(items[i].1)
        },
        None => {
            proof {
                lemma_value_of(doc, key@, -1);
            }
            None
        },
    }
}

/// Whether a key can stand in a document without quotes: ASCII letters, digits, `_` and `-`.
pub open spec fn is_bare(key: Seq<char>) -> bool {
    &&& key.len() > 0
    &&& forall|i: int|
        0 <= i < key.len() ==> {
            ||| 0x30 <= #[trigger] key[i] as int <= 0x39
            ||| 0x41 <= key[i] as int <= 0x5a
            ||| 0x61 <= key[i] as int <= 0x7a
            ||| key[i] == '_'
            ||| key[i] == '-'
        }
}

/// Whether every entry of a table has a bare key and a 64-bit integer for its value.
pub open spec fn all_numbers(items: Seq<NumberEntry>) -> bool {
    forall|i: int| 0 <= i < items.len() ==> is_bare((#[trigger] items[i]).0) && items[i].1 is Some
}

/// Whether a value is a 64-bit integer, a boolean, a text of bare characters, or a table of such
/// integers under bare keys that is not empty.
pub open spec fn is_simple(value: Content) -> bool {
    match value {
        Content::Integer(n) => n is Some,
        Content::Boolean(_) => true,
        Content::Text(text) => is_bare(text),
        Content::Table(items) => items.len() > 0 && all_numbers(items),
    }
}

/// Whether every entry has a bare key and a simple value, and tables come last, behind something
/// else.
pub open spec fn all_simple(doc: Seq<Entry>) -> bool {
    &&& forall|i: int|
        0 <= i < doc.len() ==> is_bare((#[trigger] doc[i]).0) && is_simple(doc[i].1)
    &&& forall|i: int, j: int|
        0 <= i < j < doc.len() && (#[trigger] doc[i]).1 is Table ==> (#[trigger] doc[j]).1 is Table
    &&& doc.len() > 0 ==> !(doc[0].1 is Table)
}

/// How a boolean is written.
pub open spec fn boolean_text(b: bool) -> Seq<char> {
    if b {
        seq!['t', 'r', 'u', 'e']
    } else {
        seq!['f', 'a', 'l', 's', 'e']
    }
}

/// One line of `key = value`.
pub open spec fn line(key: Seq<char>, value: Seq<char>) -> Seq<char> {
    key + seq![' ', '=', ' '] + value + seq!['\n']
}

/// One line for each entry of a table.
pub open spec fn number_lines(items: Seq<NumberEntry>) -> Seq<char>
    decreases items.len(),
{
    if items.len() == 0 {
        Seq::empty()
    } else {
        number_lines(items.drop_last()) + line(
            items.last().0,
            signed_decimal(items.last().1->0 as int),
        )
    }
}

/// How an entry is written: in one line, or, for a table, behind an empty line, under a header of
/// its own.
pub open spec fn entry_text(entry: Entry) -> Seq<char> {
    match entry.1 {
        Content::Integer(n) => line(entry.0, signed_decimal(n->0 as int)),
        Content::Boolean(b) => line(entry.0, boolean_text(b)),
        Content::Text(text) => line(entry.0, seq!['"'] + text + seq!['"']),
        Content::Table(items) => seq!['\n', '['] + entry.0 + seq![']', '\n'] + number_lines(items),
    }
}

/// How a simple document is written: entry by entry.
pub open spec fn document_text(doc: Seq<Entry>) -> Seq<char>
    decreases doc.len(),
{
    if doc.len() == 0 {
        Seq::empty()
    } else {
        document_text(doc.drop_last()) + entry_text(doc.last())
    }
}

/// `toml::de::DeTable::parse`: the document's own keys with their values, in order; what it reads,
/// and whether it fails, depends on the text alone. The crate hands integers out as digits and a
/// base, which `i64::from_str_radix` turns into a number, as it does inside the crate. Integers
/// beyond 64 bits and values that the library has no use for are told apart from absent ones only.
#[verifier::external_body]
pub(crate) fn parse_document(text: &str) -> (res: Result<Vec<(String, Field)>, toml::de::Error>)
    ensures
        res is Ok == parsed(text@) is Some,
        res matches Ok(items) ==> entries_in(items@) == parsed(text@)->0,
{
    let integer = |value| match value {
        DeValue::Integer(n) => i64::from_str_radix(n.as_str(), n.radix()).ok(),
        _ => None,
    };
    let field = |value| match value {
        DeValue::Boolean(b) => Field::Boolean(b),
        DeValue::String(s) => Field::Text(s.into()),
        DeValue::Table(items) => Field::Table(
            items.into_iter().map(|(k, v)| (k.to_string(), integer(v.into_inner()))).collect(),
        ),
        other => Field::Integer(integer(other)),
    };
    Ok(DeTable::parse(text)?.into_inner().into_iter()
        .map(|(k, v)| (k.to_string(), field(v.into_inner()))).collect())
}

/// `toml::from_str` into serde's `IgnoredAny`: whether the text is a document all of whose values
/// can be decoded, which depends on the text alone. An integer or a float beyond the widest type
/// cannot.
#[verifier::external_body]
pub(crate) fn decodes(text: &str) -> (yes: bool)
    ensures
        yes == decodable(text@),
{
    toml::from_str::<serde::de::IgnoredAny>(text).is_ok()
}

/// `toml::Table::new`: a table without entries.
#[verifier::external_body]
pub(crate) fn new_table() -> (table: toml::Table)
    ensures
        entries(table) == Seq::<Entry>::empty(),
{
    toml::Table::new()
}

/// A value to be written.
pub enum NewValue {
    Integer(i64),
    Boolean(bool),
    Text(String),
    Table(toml::Table),
}

/// The entries of a table as those of a table inside a document.
pub open spec fn inner_entries(doc: Seq<Entry>) -> Seq<NumberEntry> {
    doc.map_values(
        |entry: Entry|
            (
                entry.0,
                match entry.1 {
                    Content::Integer(n) => n,
                    _ => None,
                },
            ),
    )
}

impl NewValue {
    /// The value as it stands in a document.
    pub open spec fn content(self) -> Content {
        match self {
            NewValue::Integer(n) => Content::Integer(Some(n)),
            NewValue::Boolean(b) => Content::Boolean(b),
            NewValue::Text(text) => Content::Text(text@),
            NewValue::Table(table) => Content::Table(inner_entries(entries(table))),
        }
    }
}

/// `toml::Table::insert` of a key that is not there yet: the entry comes behind the others, as the
/// crate's feature `preserve_order` has it.
#[verifier::external_body]
pub(crate) fn insert(table: &mut toml::Table, key: &str, value: NewValue)
    requires
        value_of(entries(*old(table)), key@) is None,
    ensures
        entries(*final(table)) == entries(*old(table)).push((key@, value.content())),
{
    let value = match value {
        NewValue::Integer(n) => toml::Value::Integer(n),
        NewValue::Boolean(b) => toml::Value::Boolean(b),
        NewValue::Text(text) => toml::Value::String(text),
        NewValue::Table(table) => toml::Value::Table(table),
    };
    table.insert(key.to_owned(), value);
}

/// `toml::to_string_pretty` of a table with bare keys and simple values: it writes one line for each
/// entry and a section for each table, the same entries are parsed back from that text, and all of
/// them can be decoded.
#[verifier::external_body]
pub(crate) fn write_table(table: &toml::Table) -> (res: Result<String, toml::ser::Error>)
    requires
        all_simple(entries(*table)),
    ensures
        res is Ok,
        res->Ok_0@ == document_text(entries(*table)),
        parsed(res->Ok_0@) == Some(entries(*table)),
        decodable(res->Ok_0@),
{
    toml::to_string_pretty(table)
}

} // verus!
