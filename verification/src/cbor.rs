//! CBOR data items, one level at a time.
//!
//! A data item is kept as its own bytes. [`read_item`] says what kind of item
//! some bytes hold, and [`read_parts`] gives the items inside it, again as
//! bytes.

use ciborium::Value;
use vstd::prelude::*;

verus! {

/// What kind of data item some bytes hold. A text or a byte string comes with
/// its value.
pub enum Item {
    Null,
    Int,
    Bytes(Vec<u8>),
    Text(String),
    Array,
    Dict,
    Tag,
    /// A boolean or a floating-point number.
    Other,
}

/// The mathematical content of an [`Item`].
pub enum ItemView {
    Null,
    Int,
    Bytes(Seq<u8>),
    Text(Seq<char>),
    Array,
    Dict,
    Tag,
    Other,
}

impl View for Item {
    type V = ItemView;

    open spec fn view(&self) -> ItemView {
        match self {
            Item::Null => ItemView::Null,
            Item::Int => ItemView::Int,
            Item::Bytes(b) => ItemView::Bytes(b@),
            Item::Text(t) => ItemView::Text(t@),
            Item::Array => ItemView::Array,
            Item::Dict => ItemView::Dict,
            Item::Tag => ItemView::Tag,
            Item::Other => ItemView::Other,
        }
    }
}

/// The kind of the first data item in some bytes, or the words in which
/// `ciborium` says that there is none.
pub uninterp spec fn item_at(bytes: Seq<u8>) -> Result<ItemView, Seq<char>>;

/// The encodings of the items that the first data item in some bytes directly
/// holds: the elements of an array, the keys and values of a map in turn, or
/// what a tag stands before. Empty for any other item.
pub uninterp spec fn parts_at(bytes: Seq<u8>) -> Seq<Seq<u8>>;

/// The view of a reading.
pub open spec fn item_or_words(r: Result<Item, String>) -> Result<ItemView, Seq<char>> {
    match r {
        Ok(item) => Ok(item@),
        Err(e) => Err(e@),
    }
}

/// The views of the parts of an item.
pub open spec fn part_bytes(parts: Seq<Vec<u8>>) -> Seq<Seq<u8>> {
    parts.map_values(|p: Vec<u8>| p@)
}

/// `ciborium::from_reader` into a `ciborium::Value`, of which the kind is kept,
/// and the value of a text or a byte string. An error is taken as the text that it displays.
#[verifier::external_body]
pub(crate) fn read_item(bytes: &[u8]) -> (r: Result<Item, String>)
    ensures
        item_or_words(r) == item_at(bytes@),
{
    let value: Value = ciborium::from_reader(bytes).map_err(|e| e.to_string())?;
    Ok(match value {
        Value::Null => Item::Null,
        Value::Integer(_) => Item::Int,
        Value::Bytes(b) => Item::Bytes(b),
        Value::Text(t) => Item::Text(t),
        Value::Array(_) => Item::Array,
        Value::Map(_) => Item::Dict,
        Value::Tag(_, _) => Item::Tag,
        _ => Item::Other,
    })
}

/// `ciborium::from_reader` into a `ciborium::Value`, of which the items inside
/// are kept, each as the bytes that `ciborium::into_writer` gives for it. A
/// vector takes every byte that is written to it, so no writing fails.
#[verifier::external_body]
pub(crate) fn read_parts(bytes: &[u8]) -> (parts: Vec<Vec<u8>>)
    ensures
        part_bytes(parts@) == parts_at(bytes@),
{
    let own = |v: &Value| {
        let mut out = Vec::new();
        ciborium::into_writer(v, &mut out).expect("a vector takes every byte");
        out
    };
    match ciborium::from_reader(bytes) {
        Ok(Value::Array(items)) => items.iter().map(own).collect(),
        Ok(Value::Map(entries)) => entries.iter().flat_map(|(k, v)| [own(k), own(v)]).collect(),
        Ok(Value::Tag(_, item)) => vec![own(&item)],
        _ => Vec::new(),
    }
}

/// The integer that `ciborium` reads from the first data item in some bytes, if
/// it is one: a number, or a big number in a byte string, whatever tags stand
/// before it.
pub uninterp spec fn int_at(bytes: Seq<u8>) -> Option<i128>;

/// `ciborium::from_reader` into an `i128`, its error left out.
#[verifier::external_body]
pub(crate) fn read_integer(bytes: &[u8]) -> (n: Option<i128>)
    ensures
        n == int_at(bytes@),
{
    ciborium::from_reader(bytes).ok()
}

/// A value that is written into a map.
pub enum Field {
    Null,
    Int(i64),
    Bytes(Vec<u8>),
    Text(String),
    Texts(Vec<String>),
}

/// The mathematical content of a [`Field`].
pub enum FieldView {
    Null,
    Int(int),
    Bytes(Seq<u8>),
    Text(Seq<char>),
    Texts(Seq<Seq<char>>),
}

impl View for Field {
    type V = FieldView;

    open spec fn view(&self) -> FieldView {
        match self {
            Field::Null => FieldView::Null,
            Field::Int(n) => FieldView::Int(*n as int),
            Field::Bytes(b) => FieldView::Bytes(b@),
            Field::Text(t) => FieldView::Text(t@),
            Field::Texts(ts) => FieldView::Texts(crate::text::texts(ts@)),
        }
    }
}

/// The views of the entries of a map.
pub open spec fn entries_view(entries: Seq<(String, Field)>) -> Seq<(Seq<char>, FieldView)> {
    entries.map_values(|e: (String, Field)| (e.0@, e.1@))
}

/// What `ciborium` writes for a map of texts to fields.
pub uninterp spec fn map_of(entries: Seq<(Seq<char>, FieldView)>) -> Seq<u8>;

/// Whether some bytes read back as a field.
pub open spec fn reads_as(bytes: Seq<u8>, field: FieldView) -> bool {
    match field {
        FieldView::Null => item_at(bytes) == Ok::<ItemView, Seq<char>>(ItemView::Null),
        FieldView::Int(n) => {
            &&& item_at(bytes) == Ok::<ItemView, Seq<char>>(ItemView::Int)
            &&& int_at(bytes) matches Some(m) && m == n
        },
        FieldView::Bytes(b) => item_at(bytes) == Ok::<ItemView, Seq<char>>(ItemView::Bytes(b)),
        FieldView::Text(t) => item_at(bytes) == Ok::<ItemView, Seq<char>>(ItemView::Text(t)),
        FieldView::Texts(ts) => {
            &&& item_at(bytes) == Ok::<ItemView, Seq<char>>(ItemView::Array)
            &&& parts_at(bytes).len() == ts.len()
            &&& forall|i: int|
                0 <= i < ts.len() ==> item_at(#[trigger] parts_at(bytes)[i]) == Ok::<
                    ItemView,
                    Seq<char>,
                >(ItemView::Text(ts[i]))
        },
    }
}

/// Whether some bytes read back as a map with these entries, in this order.
pub open spec fn reads_as_map(bytes: Seq<u8>, entries: Seq<(Seq<char>, FieldView)>) -> bool {
    &&& item_at(bytes) == Ok::<ItemView, Seq<char>>(ItemView::Dict)
    &&& parts_at(bytes).len() == 2 * entries.len()
    &&& forall|i: int|
        0 <= i < entries.len() ==> {
            &&& reads_as(parts_at(bytes)[2 * i], FieldView::Text((#[trigger] entries[i]).0))
            &&& reads_as(parts_at(bytes)[2 * i + 1], entries[i].1)
        }
}

/// `ciborium::into_writer` of a `ciborium::Value` map with these entries, in
/// this order. `ciborium::from_reader` gives the entries back. Writing to a
/// vector does not fail.
#[verifier::external_body]
pub(crate) fn write_map(entries: Vec<(String, Field)>) -> (bytes: Vec<u8>)
    ensures
        bytes@ == map_of(entries_view(entries@)),
        reads_as_map(bytes@, entries_view(entries@)),
{
    let value = |f: Field| match f {
        Field::Null => Value::Null,
        Field::Int(n) => Value::Integer(n.into()),
        Field::Bytes(b) => Value::Bytes(b),
        Field::Text(t) => Value::Text(t),
        Field::Texts(ts) => Value::Array(ts.into_iter().map(Value::Text).collect()),
    };
    let map = entries.into_iter().map(|(k, f)| (Value::Text(k), value(f))).collect();
    let mut out = Vec::new();
    ciborium::into_writer(&Value::Map(map), &mut out).expect("a vector takes every byte");
    out
}

} // verus!
