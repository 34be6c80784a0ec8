//! Tables of settings, as `toml` has them.

use vstd::prelude::*;

verus! {

/// A table of `toml`.
#[verifier::external_type_specification]
#[verifier::external_body]
#[verifier::reject_recursive_types(K)]
#[verifier::reject_recursive_types(V)]
pub struct ExTable<K, V>(toml::map::Map<K, V>);

/// A value of `toml`.
#[verifier::external_type_specification]
#[verifier::external_body]
pub struct ExValue(toml::Value);

/// The values that a table holds, each under its key.
pub uninterp spec fn entries(table: toml::Table) -> Map<Seq<char>, toml::Value>;

/// The values of the table that `toml` reads from a file, or the words in which
/// it says what is wrong with the file.
pub uninterp spec fn file_entries(text: Seq<char>) -> Result<
    Map<Seq<char>, toml::Value>,
    Seq<char>,
>;

/// The values that a value holds, if it is a table.
pub uninterp spec fn value_entries(value: toml::Value) -> Option<Map<Seq<char>, toml::Value>>;

/// The value under a key, if there is one.
pub open spec fn value_under(
    m: Map<Seq<char>, toml::Value>,
    key: Seq<char>,
) -> Option<toml::Value> {
    if m.contains_key(key) {
        Some(m[key])
    } else {
        None
    }
}

/// The view of what a reader gave: the values of a table, or words.
pub open spec fn entries_or_words(r: Result<toml::Table, String>) -> Result<
    Map<Seq<char>, toml::Value>,
    Seq<char>,
> {
    match r {
        Ok(table) => Ok(entries(table)),
        Err(words) => Err(words@),
    }
}

/// The values of a table that may be absent.
pub open spec fn opt_entries(r: Option<toml::Table>) -> Option<Map<Seq<char>, toml::Value>> {
    match r {
        Some(table) => Some(entries(table)),
        None => None,
    }
}

/// `toml::from_str` into a `toml::Table`, its error taken as the text that it
/// displays.
#[verifier::external_body]
pub(crate) fn read_table(text: &str) -> (r: Result<toml::Table, String>)
    ensures
        entries_or_words(r) == file_entries(text@),
{
    toml::from_str(text).map_err(|e| e.to_string())
}

/// `toml::Table::new`: a table without entries.
#[verifier::external_body]
pub(crate) fn new_table() -> (table: toml::Table)
    ensures
        (entries(table) == Map::<Seq<char>, toml::Value>::empty()),
{
    toml::Table::new()
}

/// `get` of a `toml::Table`, of which a copy is given.
#[verifier::external_body]
pub(crate) fn get(table: &toml::Table, key: &str) -> (r: Option<toml::Value>)
    ensures
        r == value_under(entries(*table), key@),
{
    table.get(key).cloned()
}

/// `contains_key` of a `toml::Table`.
#[verifier::external_body]
pub(crate) fn contains_key(table: &toml::Table, key: &str) -> (r: bool)
    ensures
        r == entries(*table).contains_key(key@),
{
    table.contains_key(key)
}

/// `insert` of a `toml::Table`: the value takes the place of one that is there
/// under the key.
#[verifier::external_body]
pub(crate) fn insert(table: &mut toml::Table, key: &str, value: toml::Value)
    ensures
        entries(*final(table)) == entries(*old(table)).insert(key@, value),
{
    table.insert(key.to_string(), value);
}

/// The table that a `toml::Value` is, if it is the variant `Table`.
#[verifier::external_body]
pub(crate) fn into_table(value: toml::Value) -> (r: Option<toml::Table>)
    ensures
        opt_entries(r) == value_entries(value),
{
    match value {
        toml::Value::Table(table) => Some(table),
        _ => None,
    }
}

} // verus!
