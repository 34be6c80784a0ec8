//! Bringing the catalog and Stripe's prices together.
//!
//! For each plan, [`first_step`], [`after_price`] and [`after_ensured`] go from
//! what Stripe says to the next thing to ask of it, and end with a [`Change`].
//! The changes are written into the catalog file by [`rewrite`].

use crate::catalog::Sku;
use crate::payments::ExistingPrice;
use crate::text::{join2, join3, same};
use toml_edit::{DocumentMut, RawString};
use vstd::prelude::*;
use vstd::string::*;

verus! {

/// A catalog file that is being edited, as `toml_edit` has it.
#[verifier::external_type_specification]
#[verifier::external_body]
pub struct ExDocumentMut(toml_edit::DocumentMut);

/// What a document holds under a key in each table of an array of tables: a
/// text, or none if there is no text. There are no tables if there is no such
/// array.
pub uninterp spec fn table_texts(
    doc: toml_edit::DocumentMut,
    array: Seq<char>,
    key: Seq<char>,
) -> Seq<Option<Seq<char>>>;

/// The margins of the value that a document holds under a key in each table of
/// an array of tables, or none if there is no value: what is written between
/// the equals sign and the value, and between the value and the end of the
/// line, comments among it. A margin that was never set is none, too.
pub uninterp spec fn table_margins(
    doc: toml_edit::DocumentMut,
    array: Seq<char>,
    key: Seq<char>,
) -> Seq<Option<(Option<Seq<char>>, Option<Seq<char>>)>>;

/// What a document holds besides the values under a key in the tables of an
/// array: the document as a file, with an empty text, whose margins were never
/// set, assigned to that key in each of the tables.
pub uninterp spec fn surroundings(
    doc: toml_edit::DocumentMut,
    array: Seq<char>,
    key: Seq<char>,
) -> Seq<char>;

/// Whether a document is one that comes from reading a file, and from the edits
/// below with margins that a file can have.
pub uninterp spec fn comes_from_file(doc: toml_edit::DocumentMut) -> bool;

/// A document as a file.
pub uninterp spec fn printed(doc: toml_edit::DocumentMut) -> Seq<char>;

/// The document that `toml_edit` reads from a file, or the words in which it
/// says what is wrong with the file.
pub uninterp spec fn parsed(text: Seq<char>) -> Result<toml_edit::DocumentMut, Seq<char>>;

/// The view of what a reader gave: a document, or words.
pub open spec fn document_or_words(r: Result<DocumentMut, String>) -> Result<
    toml_edit::DocumentMut,
    Seq<char>,
> {
    match r {
        Ok(doc) => Ok(doc),
        Err(words) => Err(words@),
    }
}

/// `toml_edit`'s `FromStr` of a `DocumentMut`, its error taken as the text that
/// it displays.
#[verifier::external_body]
fn read_document(text: &str) -> (r: Result<DocumentMut, String>)
    ensures
        document_or_words(r) == parsed(text@),
        r matches Ok(doc) ==> comes_from_file(doc),
{
    text.parse::<DocumentMut>().map_err(|e| e.to_string())
}

/// Whether a file reads as holding the texts of a document.
pub open spec fn reads_as_texts_of(text: Seq<char>, doc: toml_edit::DocumentMut) -> bool {
    &&& parsed(text) is Ok
    &&& forall|array: Seq<char>, key: Seq<char>| #[trigger]
        table_texts(parsed(text)->Ok_0, array, key) == table_texts(doc, array, key)
}

/// `toml_edit`'s `Display` of a `DocumentMut`. `FromStr` reads the texts of the
/// document back from the file, if the document comes from one: a document
/// that was put together otherwise can hold tables out of order, or margins
/// that are no white space and no comment.
#[verifier::external_body]
fn print_document(doc: &DocumentMut) -> (text: String)
    ensures
        text@ == printed(*doc),
        comes_from_file(*doc) ==> reads_as_texts_of(text@, *doc),
{
    doc.to_string()
}

/// Whether an array has so many tables.
pub open spec fn has_tables(n: usize, doc: toml_edit::DocumentMut, array: Seq<char>) -> bool {
    &&& forall|key: Seq<char>| #[trigger] table_texts(doc, array, key).len() == n
    &&& forall|key: Seq<char>| #[trigger] table_margins(doc, array, key).len() == n
}

/// `toml_edit::ArrayOfTables::len` of an array of a document.
#[verifier::external_body]
fn table_count(doc: &DocumentMut, array: &str) -> (n: usize)
    ensures
        has_tables(n, *doc, array@),
{
    doc.get(array).and_then(|item| item.as_array_of_tables()).map_or(0, |tables| tables.len())
}

/// `toml_edit::Item::as_str` of what a table of an array of a document has under
/// a key.
#[verifier::external_body]
fn text_in_table(doc: &DocumentMut, array: &str, i: usize, key: &str) -> (r: Option<String>)
    requires
        i < table_texts(*doc, array@, key@).len(),
    ensures
        crate::text::opt_text(r) == table_texts(*doc, array@, key@)[i as int],
{
    let tables = doc.get(array).and_then(|item| item.as_array_of_tables());
    let item = tables.and_then(|tables| tables.get(i)).and_then(|table| table.get(key));
    item.and_then(|item| item.as_str()).map(|text| text.to_string())
}

/// The view of margins.
pub open spec fn margin_texts(r: Option<(Option<String>, Option<String>)>) -> Option<
    (Option<Seq<char>>, Option<Seq<char>>),
> {
    match r {
        Some((before, behind)) => Some(
            (crate::text::opt_text(before), crate::text::opt_text(behind)),
        ),
        None => None,
    }
}

/// Whether a text is white space that can stand on a line of a file.
pub open spec fn is_blank(s: Seq<char>) -> bool {
    forall|i: int| 0 <= i < s.len() ==> #[trigger] s[i] == ' ' || s[i] == '\t'
}

/// Whether a text can stand at the end of a line of a file: white space, and
/// then perhaps a comment, without control characters but tabs.
pub open spec fn is_trailer(s: Seq<char>) -> bool {
    forall|i: int|
        0 <= i < s.len() ==> {
            ||| #[trigger] s[i] == ' '
            ||| s[i] == '\t'
            ||| ' ' <= s[i] && s[i] != '\x7f' && s.take(i + 1).contains('#')
        }
}

/// Whether margins are such that a file can have.
pub open spec fn are_plain(m: Option<(Option<Seq<char>>, Option<Seq<char>>)>) -> bool {
    match m {
        Some((before, behind)) => {
            &&& before matches Some(s) ==> is_blank(s)
            &&& behind matches Some(s) ==> is_trailer(s)
        },
        None => true,
    }
}

/// `toml_edit::Decor::prefix` and `Decor::suffix` of the value that a table of an
/// array of a document has under a key, each as text. A document that comes
/// from a file has white space before a value, and white space and comments
/// behind it.
#[verifier::external_body]
fn margins_in_table(doc: &DocumentMut, array: &str, i: usize, key: &str) -> (r: Option<
    (Option<String>, Option<String>),
>)
    requires
        i < table_margins(*doc, array@, key@).len(),
    ensures
        margin_texts(r) == table_margins(*doc, array@, key@)[i as int],
        comes_from_file(*doc) ==> are_plain(margin_texts(r)),
{
    let tables = doc.get(array).and_then(|item| item.as_array_of_tables());
    let item = tables.and_then(|tables| tables.get(i)).and_then(|table| table.get(key));
    let decor = item.and_then(|item| item.as_value()).map(|value| value.decor())?;
    let text = |raw: Option<&RawString>| raw.and_then(|raw| raw.as_str()).map(str::to_string);
    Some((text(decor.prefix()), text(decor.suffix())))
}

/// Whether two documents hold the same texts, with the same margins, but for
/// those under a key in the tables of an array.
pub open spec fn differ_only_in(
    a: toml_edit::DocumentMut,
    b: toml_edit::DocumentMut,
    array: Seq<char>,
    key: Seq<char>,
) -> bool {
    &&& forall|x: Seq<char>, k: Seq<char>|
        !(x == array && k == key) ==> #[trigger] table_texts(a, x, k) == table_texts(b, x, k)
    &&& forall|x: Seq<char>, k: Seq<char>|
        !(x == array && k == key) ==> #[trigger] table_margins(a, x, k) == table_margins(b, x, k)
}

/// Assigns a `toml_edit::value` of a text to a key of a table of an array of a
/// document, through `IndexMut` of `toml_edit::Table`. The key keeps its place
/// if it is there already, and is the table's last one if not. The margins of
/// the value are not set.
#[verifier::external_body]
fn assign_in_table(doc: &mut DocumentMut, array: &str, i: usize, key: &str, text: &str)
    requires
        i < table_texts(*old(doc), array@, key@).len(),
    ensures
        table_texts(*final(doc), array@, key@) == table_texts(*old(doc), array@, key@).update(
            i as int,
            Some(text@),
        ),
        table_margins(*final(doc), array@, key@) == table_margins(*old(doc), array@, key@).update(
            i as int,
            Some((None, None)),
        ),
        differ_only_in(*final(doc), *old(doc), array@, key@),
        surroundings(*final(doc), array@, key@) == surroundings(*old(doc), array@, key@),
        comes_from_file(*old(doc)) ==> comes_from_file(*final(doc)),
{
    let tables = doc.get_mut(array).and_then(|item| item.as_array_of_tables_mut());
    if let Some(table) = tables.and_then(|tables| tables.get_mut(i)) {
        table[key] = toml_edit::value(text);
    }
}

/// `toml_edit::Decor::set_prefix` of the value that a table of an array of a
/// document has under a key.
#[verifier::external_body]
fn set_margin_before(doc: &mut DocumentMut, array: &str, i: usize, key: &str, text: &str)
    requires
        i < table_margins(*old(doc), array@, key@).len(),
        table_margins(*old(doc), array@, key@)[i as int] is Some,
    ensures
        table_texts(*final(doc), array@, key@) == table_texts(*old(doc), array@, key@),
        table_margins(*final(doc), array@, key@) == table_margins(*old(doc), array@, key@).update(
            i as int,
            Some((Some(text@), (table_margins(*old(doc), array@, key@)[i as int]->Some_0).1)),
        ),
        differ_only_in(*final(doc), *old(doc), array@, key@),
        surroundings(*final(doc), array@, key@) == surroundings(*old(doc), array@, key@),
        comes_from_file(*old(doc)) && is_blank(text@) ==> comes_from_file(*final(doc)),
{
    let tables = doc.get_mut(array).and_then(|item| item.as_array_of_tables_mut());
    let item = tables.and_then(|tables| tables.get_mut(i)).and_then(|table| table.get_mut(key));
    if let Some(value) = item.and_then(|item| item.as_value_mut()) {
        value.decor_mut().set_prefix(text);
    }
}

/// `toml_edit::Decor::set_suffix` of the value that a table of an array of a
/// document has under a key.
#[verifier::external_body]
fn set_margin_behind(doc: &mut DocumentMut, array: &str, i: usize, key: &str, text: &str)
    requires
        i < table_margins(*old(doc), array@, key@).len(),
        table_margins(*old(doc), array@, key@)[i as int] is Some,
    ensures
        table_texts(*final(doc), array@, key@) == table_texts(*old(doc), array@, key@),
        table_margins(*final(doc), array@, key@) == table_margins(*old(doc), array@, key@).update(
            i as int,
            Some(((table_margins(*old(doc), array@, key@)[i as int]->Some_0).0, Some(text@))),
        ),
        differ_only_in(*final(doc), *old(doc), array@, key@),
        surroundings(*final(doc), array@, key@) == surroundings(*old(doc), array@, key@),
        comes_from_file(*old(doc)) && is_trailer(text@) ==> comes_from_file(*final(doc)),
{
    let tables = doc.get_mut(array).and_then(|item| item.as_array_of_tables_mut());
    let item = tables.and_then(|tables| tables.get_mut(i)).and_then(|table| table.get_mut(key));
    if let Some(value) = item.and_then(|item| item.as_value_mut()) {
        value.decor_mut().set_suffix(text);
    }
}

/// The margins of a value, after a text was put in its place: those that were
/// there, if there was a value, and margins that were never set if not.
pub open spec fn kept_margins(m: Option<(Option<Seq<char>>, Option<Seq<char>>)>) -> Option<
    (Option<Seq<char>>, Option<Seq<char>>),
> {
    match m {
        Some(_) => m,
        None => Some((None, None)),
    }
}

/// Puts a text under a key of a table of an array. The margins of a value that
/// is there already stay.
fn set_text_in_table(doc: &mut DocumentMut, array: &str, i: usize, key: &str, text: &str)
    requires
        i < table_texts(*old(doc), array@, key@).len(),
        i < table_margins(*old(doc), array@, key@).len(),
    ensures
        table_texts(*final(doc), array@, key@) == table_texts(*old(doc), array@, key@).update(
            i as int,
            Some(text@),
        ),
        table_margins(*final(doc), array@, key@) == table_margins(*old(doc), array@, key@).update(
            i as int,
            kept_margins(table_margins(*old(doc), array@, key@)[i as int]),
        ),
        differ_only_in(*final(doc), *old(doc), array@, key@),
        surroundings(*final(doc), array@, key@) == surroundings(*old(doc), array@, key@),
        comes_from_file(*old(doc)) ==> comes_from_file(*final(doc)),
{
    let margins = margins_in_table(doc, array, i, key);
    assign_in_table(doc, array, i, key, text);
    let ghost assigned = table_margins(*doc, array@, key@);
    if let Some((before, behind)) = margins {
        if let Some(s) = before {
            set_margin_before(doc, array, i, key, &s);
        }
        if let Some(s) = behind {
            set_margin_behind(doc, array, i, key, &s);
        }
    }
    assert(table_margins(*doc, array@, key@) =~= assigned.update(
        i as int,
        kept_margins(table_margins(*old(doc), array@, key@)[i as int]),
    ));
}

/// The price identifiers of some plans, after that of each plan with an
/// identifier was set.
pub open spec fn with_price(
    ids: Seq<Option<Seq<char>>>,
    prices: Seq<Option<Seq<char>>>,
    sku_id: Seq<char>,
    price_id: Seq<char>,
) -> Seq<Option<Seq<char>>> {
    Seq::new(
        prices.len(),
        |i: int|
            if ids[i] == Some(sku_id) {
                Some(price_id)
            } else {
                prices[i]
            },
    )
}

/// The margins of the price identifiers of some plans, after the identifier of
/// each plan with an identifier was set: those that were there before, if it had
/// one.
pub open spec fn margins_with_price(
    ids: Seq<Option<Seq<char>>>,
    margins: Seq<Option<(Option<Seq<char>>, Option<Seq<char>>)>>,
    sku_id: Seq<char>,
) -> Seq<Option<(Option<Seq<char>>, Option<Seq<char>>)>> {
    Seq::new(
        margins.len(),
        |i: int|
            if ids[i] == Some(sku_id) {
                kept_margins(margins[i])
            } else {
                margins[i]
            },
    )
}

proof fn lemma_keys_differ()
    ensures
        "id"@ != "stripe_price_id"@,
{
    reveal_strlit("id");
    reveal_strlit("stripe_price_id");
    assert("id"@.len() != "stripe_price_id"@.len());
}

/// Sets the price identifier of the plan with an identifier. The white space and
/// the comment beside it stay, and so does all else that the document holds.
pub fn set_price_id(doc: &mut DocumentMut, sku_id: &str, price_id: &str)
    ensures
        table_texts(*final(doc), "sku"@, "stripe_price_id"@) == with_price(
            table_texts(*old(doc), "sku"@, "id"@),
            table_texts(*old(doc), "sku"@, "stripe_price_id"@),
            sku_id@,
            price_id@,
        ),
        table_margins(*final(doc), "sku"@, "stripe_price_id"@) == margins_with_price(
            table_texts(*old(doc), "sku"@, "id"@),
            table_margins(*old(doc), "sku"@, "stripe_price_id"@),
            sku_id@,
        ),
        differ_only_in(*final(doc), *old(doc), "sku"@, "stripe_price_id"@),
        surroundings(*final(doc), "sku"@, "stripe_price_id"@) == surroundings(
            *old(doc),
            "sku"@,
            "stripe_price_id"@,
        ),
        comes_from_file(*old(doc)) ==> comes_from_file(*final(doc)),
{
    let total: usize = table_count(doc, "sku");
    let ghost ids = table_texts(*doc, "sku"@, "id"@);
    let ghost prices = table_texts(*doc, "sku"@, "stripe_price_id"@);
    let ghost margins = table_margins(*doc, "sku"@, "stripe_price_id"@);
    proof {
        lemma_keys_differ();
        assert(ids.len() == total);
        assert(prices.len() == total);
        assert(margins.len() == total);
    }
    for i in 0..total
        invariant
            "id"@ != "stripe_price_id"@,
            ids == table_texts(*old(doc), "sku"@, "id"@),
            prices == table_texts(*old(doc), "sku"@, "stripe_price_id"@),
            margins == table_margins(*old(doc), "sku"@, "stripe_price_id"@),
            ids.len() == total,
            prices.len() == total,
            margins.len() == total,
            differ_only_in(*doc, *old(doc), "sku"@, "stripe_price_id"@),
            surroundings(*doc, "sku"@, "stripe_price_id"@) == surroundings(
                *old(doc),
                "sku"@,
                "stripe_price_id"@,
            ),
            comes_from_file(*old(doc)) ==> comes_from_file(*doc),
            table_texts(*doc, "sku"@, "stripe_price_id"@).len() == total,
            table_margins(*doc, "sku"@, "stripe_price_id"@).len() == total,
            forall|j: int|
                0 <= j < i ==> table_texts(*doc, "sku"@, "stripe_price_id"@)[j] == with_price(
                    ids,
                    prices,
                    sku_id@,
                    price_id@,
                )[j],
            forall|j: int|
                i <= j < total ==> table_texts(*doc, "sku"@, "stripe_price_id"@)[j] == prices[j],
            forall|j: int|
                0 <= j < i ==> table_margins(*doc, "sku"@, "stripe_price_id"@)[j]
                    == margins_with_price(ids, margins, sku_id@)[j],
            forall|j: int|
                i <= j < total ==> table_margins(*doc, "sku"@, "stripe_price_id"@)[j]
                    == margins[j],
    {
        assert(table_texts(*doc, "sku"@, "id"@) == ids);
        let id = text_in_table(doc, "sku", i, "id");
        let found = match &id {
            Some(id) => same(id, sku_id),
            None => false,
        };
        if found {
            set_text_in_table(doc, "sku", i, "stripe_price_id", price_id);
        }
    }
    assert(table_texts(*doc, "sku"@, "stripe_price_id"@) =~= with_price(
        ids,
        prices,
        sku_id@,
        price_id@,
    ));
    assert(table_margins(*doc, "sku"@, "stripe_price_id"@) =~= margins_with_price(
        ids,
        margins,
        sku_id@,
    ));
}

/// A price identifier for a plan.
#[derive(Debug)]
pub struct PriceChange {
    pub sku_id: String,
    pub price_id: String,
}

/// The price identifiers of some plans, after some changes.
pub open spec fn with_changes(
    ids: Seq<Option<Seq<char>>>,
    prices: Seq<Option<Seq<char>>>,
    changes: Seq<PriceChange>,
) -> Seq<Option<Seq<char>>>
    decreases changes.len(),
{
    if changes.len() == 0 {
        prices
    } else {
        with_price(
            ids,
            with_changes(ids, prices, changes.drop_last()),
            changes.last().sku_id@,
            changes.last().price_id@,
        )
    }
}

/// The margins of the price identifiers of some plans, after some changes.
pub open spec fn margins_with_changes(
    ids: Seq<Option<Seq<char>>>,
    margins: Seq<Option<(Option<Seq<char>>, Option<Seq<char>>)>>,
    changes: Seq<PriceChange>,
) -> Seq<Option<(Option<Seq<char>>, Option<Seq<char>>)>>
    decreases changes.len(),
{
    if changes.len() == 0 {
        margins
    } else {
        margins_with_price(
            ids,
            margins_with_changes(ids, margins, changes.drop_last()),
            changes.last().sku_id@,
        )
    }
}

/// Whether a document is another one with some changes of price identifiers, and
/// no others.
pub open spec fn is_changed(
    doc: toml_edit::DocumentMut,
    was: toml_edit::DocumentMut,
    changes: Seq<PriceChange>,
) -> bool {
    &&& table_texts(doc, "sku"@, "stripe_price_id"@) == with_changes(
        table_texts(was, "sku"@, "id"@),
        table_texts(was, "sku"@, "stripe_price_id"@),
        changes,
    )
    &&& table_margins(doc, "sku"@, "stripe_price_id"@) == margins_with_changes(
        table_texts(was, "sku"@, "id"@),
        table_margins(was, "sku"@, "stripe_price_id"@),
        changes,
    )
    &&& differ_only_in(doc, was, "sku"@, "stripe_price_id"@)
    &&& surroundings(doc, "sku"@, "stripe_price_id"@) == surroundings(
        was,
        "sku"@,
        "stripe_price_id"@,
    )
}

/// Writes price identifiers into a catalog file. Without any there is nothing
/// to write. The new file reads as the old one does, but for the price
/// identifiers; the comments and the white space stay.
pub fn rewrite(text: &str, changes: &Vec<PriceChange>) -> (r: Result<Option<String>, String>)
    ensures
        match parsed(text@) {
            Err(words) => r is Err && r->Err_0@ == words,
            Ok(was) => {
                &&& r is Ok
                &&& r->Ok_0 is None <==> changes@.len() == 0
                &&& r->Ok_0 matches Some(out) ==> exists|doc: toml_edit::DocumentMut|
                    out@ == #[trigger] printed(doc) && is_changed(doc, was, changes@)
                        && reads_as_texts_of(out@, doc)
            },
        },
{
    let mut doc = match read_document(text) {
        Ok(d) => d,
        Err(words) => return Err(words),
    };
    if changes.len() == 0 {
        return Ok(None);
    }
    let ghost was = doc;
    let ghost all = changes@;
    let total: usize = changes.len();
    proof {
        lemma_keys_differ();
    }
    for i in 0..total
        invariant
            "id"@ != "stripe_price_id"@,
            all == changes@,
            total == all.len(),
            comes_from_file(doc),
            is_changed(doc, was, all.take(i as int)),
    {
        assert(table_texts(doc, "sku"@, "id"@) == table_texts(was, "sku"@, "id"@));
        assert(all.take(i + 1).drop_last() =~= all.take(i as int));
        set_price_id(&mut doc, &changes[i].sku_id, &changes[i].price_id);
    }
    assert(all.take(all.len() as int) =~= all);
    let out = print_document(&doc);
    Ok(Some(out))
}

/// What reconciling a plan with Stripe did to its price identifier.
#[derive(Debug)]
pub enum Change {
    /// It names a good price already.
    Unchanged,
    /// It was empty, and is filled in.
    Filled(String),
    /// It named a price that is no longer good, and names another now.
    Updated { old: String, new: String },
}

/// What to ask of Stripe first.
#[derive(Debug)]
pub enum FirstStep {
    /// Look up the price that the catalog names.
    RetrievePrice(String),
    /// There is none: make sure of the product and the price.
    Ensure,
}

/// What to ask of Stripe first about a plan.
pub open spec fn first_step_of(sku: Sku) -> FirstStep {
    if sku.stripe_price_id@.len() == 0 {
        FirstStep::Ensure
    } else {
        FirstStep::RetrievePrice(sku.stripe_price_id)
    }
}

/// What follows the look at the price that the catalog names.
pub open spec fn step_after_price(sku: Sku, existing: Option<ExistingPrice>) -> AfterPrice {
    match existing {
        Some(p) => if crate::payments::still_good(p, sku) {
            AfterPrice::Unchanged
        } else {
            AfterPrice::Ensure { old_exists: true }
        },
        None => AfterPrice::Ensure { old_exists: false },
    }
}

/// What follows once the product has a price of the right amount.
pub open spec fn step_after_ensured(sku: Sku, old_exists: bool, price: String) -> AfterEnsured {
    if sku.stripe_price_id@.len() == 0 {
        AfterEnsured::Done(Change::Filled(price))
    } else if price@ == sku.stripe_price_id@ {
        AfterEnsured::Done(Change::Unchanged)
    } else if old_exists {
        AfterEnsured::Archive {
            price_id: sku.stripe_price_id,
            change: Change::Updated { old: sku.stripe_price_id, new: price },
        }
    } else {
        AfterEnsured::Done(Change::Updated { old: sku.stripe_price_id, new: price })
    }
}

/// The change that a step comes to.
pub open spec fn change_in(step: AfterEnsured) -> Change {
    match step {
        AfterEnsured::Done(change) => change,
        AfterEnsured::Archive { change, .. } => change,
    }
}

/// The price identifier to be written for a plan, if it changed.
pub open spec fn change_to_write(sku: Sku, change: Change) -> Option<PriceChange> {
    match change {
        Change::Unchanged => None,
        Change::Filled(id) => Some(PriceChange { sku_id: sku.id, price_id: id }),
        Change::Updated { new, .. } => Some(PriceChange { sku_id: sku.id, price_id: new }),
    }
}

/// The price identifier of a plan in the catalog, once what is to be written was
/// written.
pub open spec fn price_then(sku: Sku, written: Option<PriceChange>) -> Seq<char> {
    match written {
        Some(change) => change.price_id@,
        None => sku.stripe_price_id@,
    }
}

/// After a plan was reconciled the catalog names the price that it was
/// reconciled with, under the plan's own identifier, and nothing is written if
/// it did so before.
pub proof fn lemma_catalog_names_the_ensured_price(sku: Sku, old_exists: bool, price: String)
    ensures
        ({
            let written = change_to_write(
                sku,
                change_in(step_after_ensured(sku, old_exists, price)),
            );
            &&& price_then(sku, written) == price@
            &&& written matches Some(change) ==> change.sku_id@ == sku.id@
            &&& price@.len() > 0 ==> (written is None <==> price@ == sku.stripe_price_id@)
        }),
{
}

/// A price is archived exactly if the catalog named it, Stripe has it, and
/// another takes its place. The price that a plan is sold at is never archived.
pub proof fn lemma_superseded_price_is_archived(sku: Sku, old_exists: bool, price: String)
    ensures
        ({
            let step = step_after_ensured(sku, old_exists, price);
            &&& step is Archive <==> old_exists && sku.stripe_price_id@.len() > 0
                && sku.stripe_price_id@ != price@
            &&& step matches AfterEnsured::Archive { price_id, .. } ==> price_id@
                == sku.stripe_price_id@ && price_id@ != price@
            &&& change_in(step) matches Change::Updated { old, new } ==> old@
                == sku.stripe_price_id@ && new@ == price@ && old@ != new@
            &&& change_in(step) is Filled ==> sku.stripe_price_id@.len() == 0
        }),
{
}

/// A changed amount or currency leads to another price, and so does a price that
/// is archived or gone. A price that is as the plan says is left alone.
pub proof fn lemma_changed_plan_gets_another_price(sku: Sku, p: ExistingPrice)
    ensures
        p.unit_amount != Some(sku.amount_cents) ==> step_after_price(sku, Some(p)) == (
        AfterPrice::Ensure { old_exists: true }),
        p.currency@ != sku.currency@ ==> step_after_price(sku, Some(p)) == (AfterPrice::Ensure {
            old_exists: true,
        }),
        !p.active ==> step_after_price(sku, Some(p)) == (AfterPrice::Ensure { old_exists: true }),
        p.active && p.unit_amount == Some(sku.amount_cents) && p.currency@ == sku.currency@
            ==> step_after_price(sku, Some(p)) is Unchanged,
        step_after_price(sku, None) == (AfterPrice::Ensure { old_exists: false }),
{
}

/// A plan that names no price is given one, and one that names a price has that
/// price looked at first.
pub proof fn lemma_named_price_is_looked_at(sku: Sku)
    ensures
        first_step_of(sku) is Ensure <==> sku.stripe_price_id@.len() == 0,
        first_step_of(sku) matches FirstStep::RetrievePrice(id) ==> id@ == sku.stripe_price_id@,
{
}

/// What to ask of Stripe first about a plan.
pub fn first_step(sku: &Sku) -> (r: FirstStep)
    ensures
        r == first_step_of(*sku),
        r == if sku.stripe_price_id@.len() == 0 {
            FirstStep::Ensure
        } else {
            FirstStep::RetrievePrice(sku.stripe_price_id)
        },
{
    if sku.stripe_price_id.as_str().is_empty() {
        FirstStep::Ensure
    } else {
        FirstStep::RetrievePrice(sku.stripe_price_id.clone())
    }
}

/// What follows the look at the price that the catalog names.
#[derive(Debug)]
pub enum AfterPrice {
    /// It is good: there is nothing to do.
    Unchanged,
    /// Make sure of the product and the price.
    Ensure { old_exists: bool },
}

/// What follows the look at the price that the catalog names. Stripe may have
/// no such price.
pub fn after_price(sku: &Sku, existing: &Option<ExistingPrice>) -> (r: AfterPrice)
    ensures
        r == step_after_price(*sku, *existing),
        r == match *existing {
            Some(p) => if crate::payments::still_good(p, *sku) {
                AfterPrice::Unchanged
            } else {
                AfterPrice::Ensure { old_exists: true }
            },
            None => AfterPrice::Ensure { old_exists: false },
        },
        r is Unchanged <==> (*existing matches Some(p) && p.active && p.unit_amount == Some(
            sku.amount_cents,
        ) && p.currency@ == sku.currency@),
        r matches AfterPrice::Ensure { old_exists } ==> old_exists == (*existing is Some),
{
    match existing {
        Some(p) => if p.is_good_for(sku) {
            AfterPrice::Unchanged
        } else {
            AfterPrice::Ensure { old_exists: true }
        },
        None => AfterPrice::Ensure { old_exists: false },
    }
}

/// What follows once the product has a price of the right amount.
#[derive(Debug)]
pub enum AfterEnsured {
    Done(Change),
    /// Archive the old price, so that nobody can buy at it. The change is the
    /// one given.
    Archive { price_id: String, change: Change },
}

/// What follows once the product has a price of the right amount. A price that
/// it takes the place of is archived, if there is one.
pub fn after_ensured(sku: &Sku, old_exists: bool, price: String) -> (r: AfterEnsured)
    ensures
        r == step_after_ensured(*sku, old_exists, price),
        r == if sku.stripe_price_id@.len() == 0 {
            AfterEnsured::Done(Change::Filled(price))
        } else if price@ == sku.stripe_price_id@ {
            AfterEnsured::Done(Change::Unchanged)
        } else if old_exists {
            AfterEnsured::Archive {
                price_id: sku.stripe_price_id,
                change: Change::Updated { old: sku.stripe_price_id, new: price },
            }
        } else {
            AfterEnsured::Done(Change::Updated { old: sku.stripe_price_id, new: price })
        },
{
    if sku.stripe_price_id.as_str().is_empty() {
        return AfterEnsured::Done(Change::Filled(price));
    }
    if same(&price, &sku.stripe_price_id) {
        return AfterEnsured::Done(Change::Unchanged);
    }
    let change = Change::Updated { old: sku.stripe_price_id.clone(), new: price };
    if old_exists {
        AfterEnsured::Archive { price_id: sku.stripe_price_id.clone(), change }
    } else {
        AfterEnsured::Done(change)
    }
}

/// The price identifier to be written for a plan, if it changed.
pub fn price_change(sku: &Sku, change: &Change) -> (r: Option<PriceChange>)
    ensures
        r == change_to_write(*sku, *change),
        match *change {
            Change::Unchanged => r is None,
            Change::Filled(id) => r == Some(PriceChange { sku_id: sku.id, price_id: id }),
            Change::Updated { old, new } => r == Some(
                PriceChange { sku_id: sku.id, price_id: new },
            ),
        },
{
    match change {
        Change::Unchanged => None,
        Change::Filled(id) => Some(PriceChange { sku_id: sku.id.clone(), price_id: id.clone() }),
        Change::Updated { old: _, new } => Some(
            PriceChange { sku_id: sku.id.clone(), price_id: new.clone() },
        ),
    }
}

/// A text with spaces behind it, up to a width.
pub open spec fn padded(s: Seq<char>, width: nat) -> Seq<char>
    decreases width - s.len(),
{
    if s.len() < width {
        padded(s.push(' '), width)
    } else {
        s
    }
}

fn pad(s: &str, width: usize) -> (r: String)
    ensures
        r@ == padded(s@, width as nat),
{
    let mut r = s.to_owned();
    let mut n: usize = s.unicode_len();
    while n < width
        invariant
            n == r@.len(),
            padded(r@, width as nat) == padded(s@, width as nat),
        decreases width - n,
    {
        r.push(' ');
        n = n + 1;
    }
    r
}

/// A row of the report: the plan, what happened, and its price identifier.
pub open spec fn report_row(
    sku: Seq<char>,
    status: Seq<char>,
    price: Seq<char>,
) -> Seq<char> {
    padded(sku, 32) + " "@ + padded(status, 8) + (" "@ + price)
}

/// The words for a change.
pub open spec fn change_words(sku: Sku, change: Change) -> Seq<char> {
    match change {
        Change::Unchanged => report_row(sku.id@, "ok"@, sku.stripe_price_id@),
        Change::Filled(id) => report_row(sku.id@, "set"@, id@),
        Change::Updated { old, new } => report_row(
            sku.id@,
            "updated"@,
            new@ + " (was "@ + (old@ + ")"@),
        ),
    }
}

fn row(sku: &str, status: &str, price: &str) -> (r: String)
    ensures
        r@ == report_row(sku@, status@, price@),
{
    let a = pad(sku, 32);
    let b = pad(status, 8);
    let mut r = join3(&a, " ", &b);
    r.append(&join2(" ", price));
    r
}

/// A change in words.
pub fn describe(sku: &Sku, change: &Change) -> (r: String)
    ensures
        r@ == change_words(*sku, *change),
{
    match change {
        Change::Unchanged => row(&sku.id, "ok", &sku.stripe_price_id),
        Change::Filled(id) => row(&sku.id, "set", id),
        Change::Updated { old, new } => {
            let mut price = join2(new, " (was ");
            price.append(&join2(old, ")"));
            row(&sku.id, "updated", &price)
        },
    }
}

/// Changes reach only the plans that they name: a plan that none of them names
/// keeps its price identifier.
pub proof fn lemma_unnamed_plans_keep_their_price(
    ids: Seq<Option<Seq<char>>>,
    prices: Seq<Option<Seq<char>>>,
    changes: Seq<PriceChange>,
    i: int,
)
    requires
        0 <= i < prices.len(),
        forall|j: int|
            0 <= j < changes.len() ==> ids[i] != Some((#[trigger] changes[j]).sku_id@),
    ensures
        with_changes(ids, prices, changes).len() == prices.len(),
        with_changes(ids, prices, changes)[i] == prices[i],
    decreases changes.len(),
{
    if changes.len() > 0 {
        let rest = changes.drop_last();
        assert forall|j: int| 0 <= j < rest.len() implies ids[i] != Some(
            (#[trigger] rest[j]).sku_id@,
        ) by {
            assert(rest[j] == changes[j]);
        }
        lemma_unnamed_plans_keep_their_price(ids, prices, rest, i);
        assert(ids[i] != Some(changes[changes.len() - 1].sku_id@));
    }
}

/// The last change that names a plan decides: it gets that price identifier.
pub proof fn lemma_last_change_decides(
    ids: Seq<Option<Seq<char>>>,
    prices: Seq<Option<Seq<char>>>,
    changes: Seq<PriceChange>,
    last: PriceChange,
    i: int,
)
    requires
        0 <= i < prices.len(),
        ids[i] == Some(last.sku_id@),
    ensures
        with_changes(ids, prices, changes.push(last))[i] == Some(last.price_id@),
{
    lemma_changes_keep_length(ids, prices, changes);
    assert(changes.push(last).drop_last() =~= changes);
}

/// Where a plan had a price identifier in the file, what is written beside it
/// stays, whatever the changes.
pub proof fn lemma_margins_stay(
    ids: Seq<Option<Seq<char>>>,
    margins: Seq<Option<(Option<Seq<char>>, Option<Seq<char>>)>>,
    changes: Seq<PriceChange>,
    i: int,
)
    requires
        0 <= i < margins.len(),
        margins[i] is Some,
    ensures
        margins_with_changes(ids, margins, changes).len() == margins.len(),
        margins_with_changes(ids, margins, changes)[i] == margins[i],
    decreases changes.len(),
{
    if changes.len() > 0 {
        lemma_margins_stay(ids, margins, changes.drop_last(), i);
    }
}

proof fn lemma_changes_keep_length(
    ids: Seq<Option<Seq<char>>>,
    prices: Seq<Option<Seq<char>>>,
    changes: Seq<PriceChange>,
)
    ensures
        with_changes(ids, prices, changes).len() == prices.len(),
    decreases changes.len(),
{
    if changes.len() > 0 {
        lemma_changes_keep_length(ids, prices, changes.drop_last());
    }
}

/// After a price identifier was set, exactly the plans with that identifier have
/// it, each plan has the place that it had, and the others have what they had.
pub proof fn lemma_only_the_named_plan_changes(
    ids: Seq<Option<Seq<char>>>,
    prices: Seq<Option<Seq<char>>>,
    margins: Seq<Option<(Option<Seq<char>>, Option<Seq<char>>)>>,
    sku_id: Seq<char>,
    price_id: Seq<char>,
    i: int,
)
    requires
        0 <= i < prices.len(),
        margins.len() == prices.len(),
    ensures
        with_price(ids, prices, sku_id, price_id).len() == prices.len(),
        ids[i] == Some(sku_id) ==> with_price(ids, prices, sku_id, price_id)[i] == Some(price_id),
        ids[i] != Some(sku_id) ==> with_price(ids, prices, sku_id, price_id)[i] == prices[i],
        margins_with_price(ids, margins, sku_id).len() == margins.len(),
        ids[i] != Some(sku_id) || margins[i] is Some ==> margins_with_price(ids, margins, sku_id)[i]
            == margins[i],
        ids[i] == Some(sku_id) ==> margins_with_price(ids, margins, sku_id)[i] is Some,
{
}

/// To set a price identifier twice comes to setting it once, and a plan's last
/// identifier is the one that was set last.
pub proof fn lemma_price_is_set_once(
    ids: Seq<Option<Seq<char>>>,
    prices: Seq<Option<Seq<char>>>,
    sku_id: Seq<char>,
    first: Seq<char>,
    second: Seq<char>,
)
    ensures
        with_price(ids, with_price(ids, prices, sku_id, first), sku_id, second) == with_price(
            ids,
            prices,
            sku_id,
            second,
        ),
{
    assert(with_price(ids, with_price(ids, prices, sku_id, first), sku_id, second) =~= with_price(
        ids,
        prices,
        sku_id,
        second,
    ));
}

/// A padded text is the text with spaces behind it, and has the width, if it is
/// not wider by itself.
pub proof fn lemma_padded(s: Seq<char>, width: nat)
    ensures
        padded(s, width).len() == if s.len() < width {
            width
        } else {
            s.len()
        },
        padded(s, width).take(s.len() as int) == s,
        forall|i: int| s.len() <= i < padded(s, width).len() ==> padded(s, width)[i] == ' ',
    decreases width - s.len(),
{
    if s.len() < width {
        lemma_padded(s.push(' '), width);
        assert(padded(s, width).take(s.len() as int) =~= s.push(' ').take(s.len() as int));
        assert(padded(s, width).take(s.len() as int + 1) == s.push(' '));
        assert(padded(s, width)[s.len() as int] == padded(s, width).take(s.len() as int + 1)[s.len()
            as int]);
    }
    assert(s.take(s.len() as int) =~= s);
    assert(padded(s, width).take(s.len() as int) =~= s);
}

/// The row of a plan in the report begins with the plan and ends with the price
/// that it is sold at then, and the one before if there was another.
pub proof fn lemma_report_names_plan_and_price(sku: Sku, change: Change)
    ensures
        sku.id@.is_prefix_of(change_words(sku, change)),
        change is Unchanged ==> sku.stripe_price_id@.is_suffix_of(change_words(sku, change)),
        change matches Change::Filled(id) ==> id@.is_suffix_of(change_words(sku, change)),
        change matches Change::Updated { old, new } ==> (new@ + " (was "@ + old@ + ")"@).is_suffix_of(
            change_words(sku, change),
        ),
{
    let words = change_words(sku, change);
    lemma_padded(sku.id@, 32);
    assert(words.take(sku.id@.len() as int) =~= padded(sku.id@, 32).take(sku.id@.len() as int));
    match change {
        Change::Unchanged => {
            let p = sku.stripe_price_id@;
            assert(words.skip(words.len() - p.len()) =~= p);
        },
        Change::Filled(id) => {
            assert(words.skip(words.len() - id@.len()) =~= id@);
        },
        Change::Updated { old, new } => {
            let p = new@ + " (was "@ + old@ + ")"@;
            assert(p =~= new@ + " (was "@ + (old@ + ")"@));
            assert(words.skip(words.len() - p.len()) =~= p);
        },
    }
}

/// A file that was changed has another price identifier only where a change
/// names the plan. Every other text stays, in this array and in any other, and so
/// does what is around the values.
pub proof fn lemma_changes_touch_only_prices(
    doc: toml_edit::DocumentMut,
    was: toml_edit::DocumentMut,
    changes: Seq<PriceChange>,
    array: Seq<char>,
    key: Seq<char>,
    i: int,
)
    requires
        is_changed(doc, was, changes),
        0 <= i < table_texts(was, "sku"@, "stripe_price_id"@).len(),
    ensures
        array != "sku"@ || key != "stripe_price_id"@ ==> table_texts(doc, array, key)
            == table_texts(was, array, key),
        (forall|j: int|
            0 <= j < changes.len() ==> table_texts(was, "sku"@, "id"@)[i] != Some(
                (#[trigger] changes[j]).sku_id@,
            )) ==> table_texts(doc, "sku"@, "stripe_price_id"@)[i] == table_texts(
            was,
            "sku"@,
            "stripe_price_id"@,
        )[i],
        changes.len() > 0 && table_texts(was, "sku"@, "id"@)[i] == Some(changes.last().sku_id@)
            ==> table_texts(doc, "sku"@, "stripe_price_id"@)[i] == Some(changes.last().price_id@),
        table_texts(doc, "sku"@, "stripe_price_id"@).len() == table_texts(
            was,
            "sku"@,
            "stripe_price_id"@,
        ).len(),
        surroundings(doc, "sku"@, "stripe_price_id"@) == surroundings(
            was,
            "sku"@,
            "stripe_price_id"@,
        ),
{
    let ids = table_texts(was, "sku"@, "id"@);
    let prices = table_texts(was, "sku"@, "stripe_price_id"@);
    lemma_changes_keep_length(ids, prices, changes);
    if forall|j: int| 0 <= j < changes.len() ==> ids[i] != Some((#[trigger] changes[j]).sku_id@) {
        lemma_unnamed_plans_keep_their_price(ids, prices, changes, i);
    }
    if changes.len() > 0 && ids[i] == Some(changes.last().sku_id@) {
        lemma_last_change_decides(ids, prices, changes.drop_last(), changes.last(), i);
        assert(changes.drop_last().push(changes.last()) =~= changes);
    }
}

/// The report says of each plan whether it was left, set or updated, and of an
/// update what it took the place of.
pub proof fn lemma_report_says_what_happened(sku: Sku, id: String, old: String)
    ensures
        change_words(sku, Change::Unchanged) == padded(sku.id@, 32) + " "@ + padded("ok"@, 8) + (
        " "@ + sku.stripe_price_id@),
        change_words(sku, Change::Filled(id)) == padded(sku.id@, 32) + " "@ + padded("set"@, 8) + (
        " "@ + id@),
        change_words(sku, Change::Updated { old, new: id }) == padded(sku.id@, 32) + " "@ + padded(
            "updated"@,
            8,
        ) + (" "@ + (id@ + " (was "@ + (old@ + ")"@))),
{
}

} // verus!
