//! The license claims, and their place in a license blob.
//!
//! A blob is
//!
//! ```text
//! base64( BLOB_MAGIC || BLOB_VERSION || cbor(SignedBlob) )
//! ```
//!
//! where [`SignedBlob`] holds the CBOR of the claims, and an Ed25519 signature
//! over exactly those bytes. Both are CBOR maps with text keys. A reader looks
//! its fields up by name: it ignores the order of the entries, and entries
//! that it does not know. All timestamps are Unix seconds.

use crate::cbor::{read_integer, read_item, read_parts, write_map, Field, FieldView, Item, ItemView};
use crate::text::{clone_texts, same};
use vstd::prelude::*;
use vstd::string::*;

verus! {

/// The version byte of the blob format.
pub const BLOB_VERSION: u8 = 1;

/// The version of the claims inside a blob.
pub const CLAIMS_VERSION: u8 = 1;

/// The four bytes that every blob starts with: `OPLB`.
pub const BLOB_MAGIC: [u8; 4] = [79, 80, 76, 66];

/// The claims of a license, in CBOR, with the signature over them.
#[derive(Debug)]
pub struct SignedBlob {
    pub claims_cbor: Vec<u8>,
    pub signature: Vec<u8>,
}

/// The mathematical content of a [`SignedBlob`].
pub struct SignedBlobView {
    pub claims_cbor: Seq<u8>,
    pub signature: Seq<u8>,
}

impl View for SignedBlob {
    type V = SignedBlobView;

    open spec fn view(&self) -> SignedBlobView {
        SignedBlobView { claims_cbor: self.claims_cbor@, signature: self.signature@ }
    }
}

/// What a license says.
#[derive(Debug)]
pub struct Claims {
    /// The version of this set of fields.
    pub v: u8,
    /// Identifies the license in the ledger: the hexadecimal digits of a
    /// version 4 UUID.
    pub license_id: String,
    pub customer: String,
    pub email: String,
    /// The marketed tier, a free-form label.
    pub tier: String,
    /// The product line that the license is for.
    pub product: String,
    pub issued_at: i64,
    /// `None` for a license that does not expire.
    pub expires_at: Option<i64>,
    /// The features that the license unlocks.
    pub features: Vec<String>,
    /// `None` for no limit.
    pub max_orgs: Option<u32>,
    /// `None` for no limit.
    pub max_seats: Option<u32>,
    /// A note for the ledger.
    pub note: String,
}

/// The mathematical content of [`Claims`].
#[verifier::ext_equal]
pub struct ClaimsView {
    pub v: u8,
    pub license_id: Seq<char>,
    pub customer: Seq<char>,
    pub email: Seq<char>,
    pub tier: Seq<char>,
    pub product: Seq<char>,
    pub issued_at: i64,
    pub expires_at: Option<i64>,
    pub features: Seq<Seq<char>>,
    pub max_orgs: Option<u32>,
    pub max_seats: Option<u32>,
    pub note: Seq<char>,
}

impl View for Claims {
    type V = ClaimsView;

    open spec fn view(&self) -> ClaimsView {
        ClaimsView {
            v: self.v,
            license_id: self.license_id@,
            customer: self.customer@,
            email: self.email@,
            tier: self.tier@,
            product: self.product@,
            issued_at: self.issued_at,
            expires_at: self.expires_at,
            features: crate::text::texts(self.features@),
            max_orgs: self.max_orgs,
            max_seats: self.max_seats,
            note: self.note@,
        }
    }
}

/// How many tags may stand before a data item. `ciborium` reads no deeper
/// nesting than this.
pub const MAX_TAGS: u16 = 256;

/// A data item without the tags before it.
pub open spec fn untagged(bytes: Seq<u8>, depth: nat) -> Seq<u8>
    decreases depth,
{
    if depth > 0 && crate::cbor::item_at(bytes) == Ok::<ItemView, Seq<char>>(
        ItemView::Tag,
    ) && crate::cbor::parts_at(bytes).len() == 1 {
        untagged(crate::cbor::parts_at(bytes)[0], (depth - 1) as nat)
    } else {
        bytes
    }
}

/// What a data item holds, whatever tags stand before it.
pub open spec fn plain_item(bytes: Seq<u8>) -> Result<ItemView, Seq<char>> {
    crate::cbor::item_at(untagged(bytes, MAX_TAGS as nat))
}

/// The items inside a data item, whatever tags stand before it.
pub open spec fn plain_parts(bytes: Seq<u8>) -> Seq<Seq<u8>> {
    crate::cbor::parts_at(untagged(bytes, MAX_TAGS as nat))
}

/// The longest key of an entry, in bytes. `ciborium` reads no longer names than
/// this.
pub const MAX_KEY_BYTES: usize = 4096;

/// Whether a data item can be the key of an entry: a text, or a byte string,
/// that is not too long.
pub open spec fn is_key(bytes: Seq<u8>) -> bool {
    match plain_item(bytes) {
        Ok(ItemView::Text(t)) => vstd::utf8::encode_utf8(t).len() <= MAX_KEY_BYTES,
        Ok(ItemView::Bytes(b)) => b.len() <= MAX_KEY_BYTES,
        _ => false,
    }
}

/// Whether a data item spells a name.
pub open spec fn key_is(bytes: Seq<u8>, name: Seq<char>) -> bool {
    match plain_item(bytes) {
        Ok(ItemView::Text(t)) => t == name,
        Ok(ItemView::Bytes(b)) => b == vstd::utf8::encode_utf8(name),
        _ => false,
    }
}

/// The values under a name among the first `n` entries of a map. The parts are
/// the keys and values of the map in turn.
pub open spec fn values_at(parts: Seq<Seq<u8>>, name: Seq<char>, n: nat) -> Seq<Seq<u8>>
    decreases n,
{
    if n == 0 {
        Seq::empty()
    } else {
        let before = values_at(parts, name, (n - 1) as nat);
        if key_is(parts[2 * (n - 1)], name) {
            before.push(parts[2 * (n - 1) + 1])
        } else {
            before
        }
    }
}

/// The values under a name in a map.
pub open spec fn field_values(parts: Seq<Seq<u8>>, name: Seq<char>) -> Seq<Seq<u8>> {
    values_at(parts, name, parts.len() / 2)
}

/// A text that a data item holds.
pub open spec fn as_text(bytes: Seq<u8>) -> Option<Seq<char>> {
    match plain_item(bytes) {
        Ok(ItemView::Text(t)) => Some(t),
        _ => None,
    }
}

/// A number between two bounds that a data item holds.
pub open spec fn as_int(bytes: Seq<u8>, low: int, high: int) -> Option<int> {
    match crate::cbor::int_at(bytes) {
        Some(n) if low <= n <= high => Some(n as int),
        _ => None,
    }
}

/// A number or nothing, as null, that a data item holds.
pub open spec fn as_opt_int(bytes: Seq<u8>, low: int, high: int) -> Option<Option<int>> {
    if crate::cbor::item_at(bytes) == Ok::<ItemView, Seq<char>>(
        ItemView::Null,
    ) {
        Some(None)
    } else {
        match as_int(bytes, low, high) {
            Some(n) => Some(Some(n)),
            None => None,
        }
    }
}

/// The texts that a data item holds. An empty byte string counts as no texts.
pub open spec fn as_texts(bytes: Seq<u8>) -> Option<Seq<Seq<char>>> {
    match plain_item(bytes) {
        Ok(ItemView::Array) => {
            if forall|i: int| 0 <= i < plain_parts(bytes).len() ==> as_text(
                #[trigger] plain_parts(bytes)[i],
            ) is Some {
                Some(plain_parts(bytes).map_values(|p: Seq<u8>| as_text(p).unwrap()))
            } else {
                None
            }
        },
        Ok(ItemView::Bytes(b)) if b.len() == 0 => Some(Seq::empty()),
        _ => None,
    }
}

/// The bytes that a data item holds, as a byte string or as an array of
/// numbers.
pub open spec fn as_bytes(bytes: Seq<u8>) -> Option<Seq<u8>> {
    match plain_item(bytes) {
        Ok(ItemView::Bytes(b)) => Some(b),
        Ok(ItemView::Array) => {
            if forall|i: int| 0 <= i < plain_parts(bytes).len() ==> as_int(
                #[trigger] plain_parts(bytes)[i],
                0,
                255,
            ) is Some {
                Some(plain_parts(bytes).map_values(|p: Seq<u8>| as_int(p, 0, 255).unwrap() as u8))
            } else {
                None
            }
        },
        _ => None,
    }
}

/// What is said of a field that is not there.
pub open spec fn missing(name: Seq<char>) -> Seq<char> {
    "missing field `"@ + name + "`"@
}

/// What is said of a field that is there more than once.
pub open spec fn duplicate(name: Seq<char>) -> Seq<char> {
    "duplicate field `"@ + name + "`"@
}

/// What is said of a field that holds something of another type.
pub open spec fn mistyped(name: Seq<char>) -> Seq<char> {
    "invalid type in field `"@ + name + "`"@
}

/// The value of a field, read in some way.
pub open spec fn field<T>(
    parts: Seq<Seq<u8>>,
    name: Seq<char>,
    absent: Option<T>,
    read: spec_fn(Seq<u8>) -> Option<T>,
) -> Result<T, Seq<char>> {
    let found = field_values(parts, name);
    if found.len() == 0 {
        match absent {
            Some(x) => Ok(x),
            None => Err(missing(name)),
        }
    } else if found.len() > 1 {
        Err(duplicate(name))
    } else {
        match read(found[0]) {
            Some(x) => Ok(x),
            None => Err(mistyped(name)),
        }
    }
}

/// What is said of a data item that is no map.
pub open spec fn no_map() -> Seq<char> {
    "invalid type, expected a map"@
}

/// What is said of a map with a key that spells no name.
pub open spec fn bad_key() -> Seq<char> {
    "invalid type, expected str or bytes as a key"@
}

/// The entries of a map, as its keys and values in turn.
pub open spec fn map_parts(bytes: Seq<u8>) -> Result<Seq<Seq<u8>>, Seq<char>> {
    match plain_item(bytes) {
        Err(e) => Err(e),
        Ok(ItemView::Dict) => {
            let parts = plain_parts(bytes);
            if forall|i: int| 0 <= i < parts.len() / 2 ==> is_key(#[trigger] parts[2 * i]) {
                Ok(parts)
            } else {
                Err(bad_key())
            }
        },
        Ok(_) => Err(no_map()),
    }
}

/// The claims that the entries of a map hold. A field may be left out where
/// a default is given.
pub open spec fn claims_in(p: Seq<Seq<u8>>) -> Result<ClaimsView, Seq<char>> {
    let none: Option<Seq<char>> = None;
    let empty: Option<Seq<char>> = Some(Seq::empty());
    let text = |b: Seq<u8>| as_text(b);
    let stamp = |b: Seq<u8>| as_int(b, i64::MIN as int, i64::MAX as int);
    let opt_stamp = |b: Seq<u8>| as_opt_int(b, i64::MIN as int, i64::MAX as int);
    let limit = |b: Seq<u8>| as_opt_int(b, 0, u32::MAX as int);
    let v = field(p, "v"@, None, |b: Seq<u8>| as_int(b, 0, 255));
    let license_id = field(p, "license_id"@, none, text);
    let customer = field(p, "customer"@, none, text);
    let email = field(p, "email"@, none, text);
    let tier = field(p, "tier"@, none, text);
    let product = field(p, "product"@, empty, text);
    let issued_at = field(p, "issued_at"@, None, stamp);
    let expires_at = field(p, "expires_at"@, Some(None), opt_stamp);
    let features = field(p, "features"@, Some(Seq::empty()), |b: Seq<u8>| as_texts(b));
    let max_orgs = field(p, "max_orgs"@, Some(None), limit);
    let max_seats = field(p, "max_seats"@, Some(None), limit);
    let note = field(p, "note"@, empty, text);
    if v is Err {
        Err(v->Err_0)
    } else if license_id is Err {
        Err(license_id->Err_0)
    } else if customer is Err {
        Err(customer->Err_0)
    } else if email is Err {
        Err(email->Err_0)
    } else if tier is Err {
        Err(tier->Err_0)
    } else if product is Err {
        Err(product->Err_0)
    } else if issued_at is Err {
        Err(issued_at->Err_0)
    } else if expires_at is Err {
        Err(expires_at->Err_0)
    } else if features is Err {
        Err(features->Err_0)
    } else if max_orgs is Err {
        Err(max_orgs->Err_0)
    } else if max_seats is Err {
        Err(max_seats->Err_0)
    } else if note is Err {
        Err(note->Err_0)
    } else {
        Ok(
            ClaimsView {
                v: v->Ok_0 as u8,
                license_id: license_id->Ok_0,
                customer: customer->Ok_0,
                email: email->Ok_0,
                tier: tier->Ok_0,
                product: product->Ok_0,
                issued_at: issued_at->Ok_0 as i64,
                expires_at: opt_i64(expires_at->Ok_0),
                features: features->Ok_0,
                max_orgs: opt_u32(max_orgs->Ok_0),
                max_seats: opt_u32(max_seats->Ok_0),
                note: note->Ok_0,
            },
        )
    }
}

/// A number that may be absent, as an `i64`.
pub open spec fn opt_i64(n: Option<int>) -> Option<i64> {
    match n {
        Some(x) => Some(x as i64),
        None => None,
    }
}

/// A number that may be absent, as a `u32`.
pub open spec fn opt_u32(n: Option<int>) -> Option<u32> {
    match n {
        Some(x) => Some(x as u32),
        None => None,
    }
}

/// The claims that some CBOR holds, or what is wrong with it.
pub open spec fn claims_of(bytes: Seq<u8>) -> Result<ClaimsView, Seq<char>> {
    match map_parts(bytes) {
        Ok(parts) => claims_in(parts),
        Err(e) => Err(e),
    }
}

/// The envelope that the entries of a map hold.
pub open spec fn blob_in(p: Seq<Seq<u8>>) -> Result<SignedBlobView, Seq<char>> {
    let bytes = |b: Seq<u8>| as_bytes(b);
    let c = field(p, "c"@, None, bytes);
    let s = field(p, "s"@, None, bytes);
    if c is Err {
        Err(c->Err_0)
    } else if s is Err {
        Err(s->Err_0)
    } else {
        Ok(SignedBlobView { claims_cbor: c->Ok_0, signature: s->Ok_0 })
    }
}

/// The envelope that some CBOR holds, or what is wrong with it.
pub open spec fn blob_of(bytes: Seq<u8>) -> Result<SignedBlobView, Seq<char>> {
    match map_parts(bytes) {
        Ok(parts) => blob_in(parts),
        Err(e) => Err(e),
    }
}

fn untag(bytes: Vec<u8>, depth: u16) -> (r: Vec<u8>)
    ensures
        r@ == untagged(bytes@, depth as nat),
    decreases depth,
{
    if depth > 0 {
        if let Ok(Item::Tag) = read_item(&bytes) {
            let mut parts = read_parts(&bytes);
            let ghost all = parts@;
            if parts.len() == 1 {
                match parts.pop() {
                    Some(inner) => {
                        assert(crate::cbor::part_bytes(all)[0] == inner@);
                        return untag(inner, depth - 1);
                    },
                    None => {},
                }
            }
        }
    }
    bytes
}

fn copy_bytes(bytes: &[u8]) -> (r: Vec<u8>)
    ensures
        r@ == bytes@,
{
    vstd::slice::slice_to_vec(bytes)
}

fn read_plain(bytes: &[u8]) -> (r: Result<Item, String>)
    ensures
        crate::cbor::item_or_words(r) == plain_item(bytes@),
{
    let inner = untag(copy_bytes(bytes), MAX_TAGS);
    read_item(&inner)
}

fn read_plain_parts(bytes: &[u8]) -> (r: Vec<Vec<u8>>)
    ensures
        crate::cbor::part_bytes(r@) == plain_parts(bytes@),
{
    let inner = untag(copy_bytes(bytes), MAX_TAGS);
    read_parts(&inner)
}

/// Whether two rows of bytes are the same.
pub fn same_bytes(a: &[u8], b: &[u8]) -> (r: bool)
    ensures
        r == (a@ == b@),
{
    if a.len() != b.len() {
        return false;
    }
    for i in 0..a.len()
        invariant
            a@.len() == b@.len(),
            forall|j: int| 0 <= j < i ==> a@[j] == b@[j],
    {
        if a[i] != b[i] {
            return false;
        }
    }
    assert(a@ =~= b@);
    true
}

/// Where a name stands among the entries of a map.
enum Found {
    Missing,
    One(usize),
    Many,
}

fn spells(key: &[u8], name: &str) -> (r: (bool, bool))
    ensures
        r.0 == is_key(key@),
        r.1 == key_is(key@, name@),
{
    match read_plain(key) {
        Ok(Item::Text(t)) => (t.as_str().as_bytes().len() <= MAX_KEY_BYTES, same(&t, name)),
        Ok(Item::Bytes(b)) => (b.len() <= MAX_KEY_BYTES, same_bytes(&b, name.as_bytes())),
        _ => (false, false),
    }
}

fn find(parts: &Vec<Vec<u8>>, name: &str) -> (r: Found)
    ensures
        ({
            let p = crate::cbor::part_bytes(parts@);
            let found = field_values(p, name@);
            match r {
                Found::Missing => found.len() == 0,
                Found::One(i) => found.len() == 1 && i < p.len() && found[0] == p[i as int],
                Found::Many => found.len() > 1,
            }
        }),
{
    let ghost p = crate::cbor::part_bytes(parts@);
    let mut r = Found::Missing;
    let total = parts.len();
    for i in 0..total / 2
        invariant
            p == crate::cbor::part_bytes(parts@),
            total == parts@.len(),
            ({
                let found = values_at(p, name@, i as nat);
                match r {
                    Found::Missing => found.len() == 0,
                    Found::One(k) => found.len() == 1 && k < p.len() && found[0] == p[k as int],
                    Found::Many => found.len() > 1,
                }
            }),
    {
        assert(p[2 * i] == parts@[2 * i]@);
        if spells(&parts[2 * i], name).1 {
            r =
            match r {
                Found::Missing => Found::One(2 * i + 1),
                _ => Found::Many,
            };
        }
    }
    r
}

fn say(before: &str, name: &str) -> (r: String)
    ensures
        r@ == before@ + name@ + "`"@,
{
    let mut r = before.to_owned();
    r.append(name);
    r.append("`");
    r
}

fn read_text(bytes: &[u8]) -> (r: Option<String>)
    ensures
        crate::text::opt_text(r) == as_text(bytes@),
{
    match read_plain(bytes) {
        Ok(Item::Text(t)) => Some(t),
        _ => None,
    }
}

fn read_int(bytes: &[u8], low: i128, high: i128) -> (r: Option<i128>)
    ensures
        match r {
            Some(n) => as_int(bytes@, low as int, high as int) == Some(n as int),
            None => as_int(bytes@, low as int, high as int) is None,
        },
{
    match read_integer(bytes) {
        Some(n) => if low <= n && n <= high {
            Some(n)
        } else {
            None
        },
        None => None,
    }
}

fn read_texts(bytes: &[u8]) -> (r: Option<Vec<String>>)
    ensures
        match r {
            Some(ts) => as_texts(bytes@) == Some(crate::text::texts(ts@)),
            None => as_texts(bytes@) is None,
        },
{
    match read_plain(bytes) {
        Ok(Item::Array) => {
            let parts = read_plain_parts(bytes);
            let ghost p = plain_parts(bytes@);
            let mut ts: Vec<String> = Vec::new();
            for i in 0..parts.len()
                invariant
                    p == crate::cbor::part_bytes(parts@),
                    p == plain_parts(bytes@),
                    plain_item(bytes@) == Ok::<ItemView, Seq<char>>(ItemView::Array),
                    ts@.len() == i,
                    forall|j: int|
                        0 <= j < i ==> as_text(#[trigger] p[j]) == Some(ts@[j]@),
            {
                assert(p[i as int] == parts@[i as int]@);
                match read_text(&parts[i]) {
                    Some(t) => ts.push(t),
                    None => {
                        assert(as_text(p[i as int]) is None);
                        return None;
                    },
                }
            }
            assert(p.map_values(|b: Seq<u8>| as_text(b).unwrap()) =~= crate::text::texts(ts@));
            Some(ts)
        },
        Ok(Item::Bytes(b)) => if b.len() == 0 {
            let ts: Vec<String> = Vec::new();
            assert(crate::text::texts(ts@) =~= Seq::empty());
            Some(ts)
        } else {
            None
        },
        _ => None,
    }
}

fn read_bytes(bytes: &[u8]) -> (r: Option<Vec<u8>>)
    ensures
        match r {
            Some(b) => as_bytes(bytes@) == Some(b@),
            None => as_bytes(bytes@) is None,
        },
{
    match read_plain(bytes) {
        Ok(Item::Bytes(b)) => Some(b),
        Ok(Item::Array) => {
            let parts = read_plain_parts(bytes);
            let ghost p = plain_parts(bytes@);
            let mut out: Vec<u8> = Vec::new();
            for i in 0..parts.len()
                invariant
                    p == crate::cbor::part_bytes(parts@),
                    p == plain_parts(bytes@),
                    plain_item(bytes@) == Ok::<ItemView, Seq<char>>(ItemView::Array),
                    out@.len() == i,
                    forall|j: int|
                        0 <= j < i ==> as_int(#[trigger] p[j], 0, 255) == Some(out@[j] as int),
            {
                assert(p[i as int] == parts@[i as int]@);
                match read_int(&parts[i], 0, 255) {
                    Some(n) => out.push(n as u8),
                    None => {
                        assert(as_int(p[i as int], 0, 255) is None);
                        return None;
                    },
                }
            }
            assert(p.map_values(|b: Seq<u8>| as_int(b, 0, 255).unwrap() as u8) =~= out@);
            Some(out)
        },
        _ => None,
    }
}

/// The view of a text that was looked up.
spec fn text_or_words(r: Result<String, String>) -> Result<Seq<char>, Seq<char>> {
    match r {
        Ok(t) => Ok(t@),
        Err(e) => Err(e@),
    }
}

fn text_field(parts: &Vec<Vec<u8>>, name: &str, required: bool) -> (r: Result<String, String>)
    ensures
        text_or_words(r) == field(
            crate::cbor::part_bytes(parts@),
            name@,
            if required {
                None
            } else {
                Some(Seq::empty())
            },
            |b: Seq<u8>| as_text(b),
        ),
{
    match find(parts, name) {
        Found::Missing => if required {
            Err(say("missing field `", name))
        } else {
            Ok(String::new())
        },
        Found::Many => Err(say("duplicate field `", name)),
        Found::One(i) => {
            assert(crate::cbor::part_bytes(parts@)[i as int] == parts@[i as int]@);
            match read_text(&parts[i]) {
                Some(t) => Ok(t),
                None => Err(say("invalid type in field `", name)),
            }
        },
    }
}

spec fn int_or_words(r: Result<i128, String>) -> Result<int, Seq<char>> {
    match r {
        Ok(n) => Ok(n as int),
        Err(e) => Err(e@),
    }
}

fn int_field(parts: &Vec<Vec<u8>>, name: &str, low: i128, high: i128) -> (r: Result<i128, String>)
    ensures
        int_or_words(r) == field(
            crate::cbor::part_bytes(parts@),
            name@,
            None,
            |b: Seq<u8>| as_int(b, low as int, high as int),
        ),
        r matches Ok(n) ==> low <= n <= high,
{
    match find(parts, name) {
        Found::Missing => Err(say("missing field `", name)),
        Found::Many => Err(say("duplicate field `", name)),
        Found::One(i) => {
            assert(crate::cbor::part_bytes(parts@)[i as int] == parts@[i as int]@);
            match read_int(&parts[i], low, high) {
                Some(n) => Ok(n),
                None => Err(say("invalid type in field `", name)),
            }
        },
    }
}

spec fn opt_int_or_words(r: Result<Option<i128>, String>) -> Result<Option<int>, Seq<char>> {
    match r {
        Ok(Some(n)) => Ok(Some(n as int)),
        Ok(None) => Ok(None),
        Err(e) => Err(e@),
    }
}

fn opt_int_field(parts: &Vec<Vec<u8>>, name: &str, low: i128, high: i128) -> (r: Result<
    Option<i128>,
    String,
>)
    ensures
        opt_int_or_words(r) == field(
            crate::cbor::part_bytes(parts@),
            name@,
            Some(None),
            |b: Seq<u8>| as_opt_int(b, low as int, high as int),
        ),
        r matches Ok(Some(n)) ==> low <= n <= high,
{
    match find(parts, name) {
        Found::Missing => Ok(None),
        Found::Many => Err(say("duplicate field `", name)),
        Found::One(i) => {
            assert(crate::cbor::part_bytes(parts@)[i as int] == parts@[i as int]@);
            if let Ok(Item::Null) = read_item(&parts[i]) {
                return Ok(None);
            }
            match read_int(&parts[i], low, high) {
                Some(n) => Ok(Some(n)),
                None => Err(say("invalid type in field `", name)),
            }
        },
    }
}

spec fn texts_or_words(r: Result<Vec<String>, String>) -> Result<Seq<Seq<char>>, Seq<char>> {
    match r {
        Ok(ts) => Ok(crate::text::texts(ts@)),
        Err(e) => Err(e@),
    }
}

fn texts_field(parts: &Vec<Vec<u8>>, name: &str) -> (r: Result<Vec<String>, String>)
    ensures
        texts_or_words(r) == field(
            crate::cbor::part_bytes(parts@),
            name@,
            Some(Seq::empty()),
            |b: Seq<u8>| as_texts(b),
        ),
{
    match find(parts, name) {
        Found::Missing => {
            let ts: Vec<String> = Vec::new();
            assert(crate::text::texts(ts@) =~= Seq::empty());
            Ok(ts)
        },
        Found::Many => Err(say("duplicate field `", name)),
        Found::One(i) => {
            assert(crate::cbor::part_bytes(parts@)[i as int] == parts@[i as int]@);
            match read_texts(&parts[i]) {
                Some(ts) => Ok(ts),
                None => Err(say("invalid type in field `", name)),
            }
        },
    }
}

fn bytes_field(parts: &Vec<Vec<u8>>, name: &str) -> (r: Result<Vec<u8>, String>)
    ensures
        crate::encoding::bytes_or_words(r) == field(
            crate::cbor::part_bytes(parts@),
            name@,
            None,
            |b: Seq<u8>| as_bytes(b),
        ),
{
    match find(parts, name) {
        Found::Missing => Err(say("missing field `", name)),
        Found::Many => Err(say("duplicate field `", name)),
        Found::One(i) => {
            assert(crate::cbor::part_bytes(parts@)[i as int] == parts@[i as int]@);
            match read_bytes(&parts[i]) {
                Some(b) => Ok(b),
                None => Err(say("invalid type in field `", name)),
            }
        },
    }
}

spec fn parts_or_words(r: Result<Vec<Vec<u8>>, String>) -> Result<Seq<Seq<u8>>, Seq<char>> {
    match r {
        Ok(parts) => Ok(crate::cbor::part_bytes(parts@)),
        Err(e) => Err(e@),
    }
}

fn read_map(bytes: &[u8]) -> (r: Result<Vec<Vec<u8>>, String>)
    ensures
        parts_or_words(r) == map_parts(bytes@),
{
    match read_plain(bytes) {
        Err(e) => Err(e),
        Ok(Item::Dict) => {
            let parts = read_plain_parts(bytes);
            let ghost p = plain_parts(bytes@);
            let total = parts.len();
            for i in 0..total / 2
                invariant
                    plain_item(bytes@) == Ok::<ItemView, Seq<char>>(ItemView::Dict),
                    p == plain_parts(bytes@),
                    p == crate::cbor::part_bytes(parts@),
                    total == parts@.len(),
                    forall|j: int| 0 <= j < i ==> is_key(#[trigger] p[2 * j]),
            {
                assert(p[2 * i] == parts@[2 * i]@);
                if !spells(&parts[2 * i], "").0 {
                    assert(!is_key(p[2 * i]));
                    return Err("invalid type, expected str or bytes as a key".to_owned());
                }
            }
            Ok(parts)
        },
        Ok(_) => Err("invalid type, expected a map".to_owned()),
    }
}

/// The view of claims that were read.
pub open spec fn claims_or_words(r: Result<Claims, String>) -> Result<ClaimsView, Seq<char>> {
    match r {
        Ok(c) => Ok(c@),
        Err(e) => Err(e@),
    }
}

fn narrow_i64(n: Option<i128>) -> (r: Option<i64>)
    requires
        n matches Some(x) ==> i64::MIN <= x <= i64::MAX,
    ensures
        match n {
            Some(x) => r == Some(x as i64),
            None => r is None,
        },
{
    match n {
        Some(x) => Some(x as i64),
        None => None,
    }
}

fn narrow_u32(n: Option<i128>) -> (r: Option<u32>)
    requires
        n matches Some(x) ==> 0 <= x <= u32::MAX,
    ensures
        match n {
            Some(x) => r == Some(x as u32),
            None => r is None,
        },
{
    match n {
        Some(x) => Some(x as u32),
        None => None,
    }
}

impl Claims {
    /// Reads claims from CBOR. Fields that it does not know are ignored.
    pub fn from_cbor(bytes: &[u8]) -> (r: Result<Claims, String>)
        ensures
            claims_or_words(r) == claims_of(bytes@),
    {
        let p = match read_map(bytes) {
            Ok(x) => x,
            Err(e) => return Err(e),
        };
        let v = match int_field(&p, "v", 0, 255) {
            Ok(x) => x,
            Err(e) => return Err(e),
        };
        let license_id = match text_field(&p, "license_id", true) {
            Ok(x) => x,
            Err(e) => return Err(e),
        };
        let customer = match text_field(&p, "customer", true) {
            Ok(x) => x,
            Err(e) => return Err(e),
        };
        let email = match text_field(&p, "email", true) {
            Ok(x) => x,
            Err(e) => return Err(e),
        };
        let tier = match text_field(&p, "tier", true) {
            Ok(x) => x,
            Err(e) => return Err(e),
        };
        let product = match text_field(&p, "product", false) {
            Ok(x) => x,
            Err(e) => return Err(e),
        };
        let issued_at = match int_field(&p, "issued_at", i64::MIN as i128, i64::MAX as i128) {
            Ok(x) => x,
            Err(e) => return Err(e),
        };
        let expires_at = match opt_int_field(
            &p,
            "expires_at",
            i64::MIN as i128,
            i64::MAX as i128,
        ) {
            Ok(x) => x,
            Err(e) => return Err(e),
        };
        let features = match texts_field(&p, "features") {
            Ok(x) => x,
            Err(e) => return Err(e),
        };
        let max_orgs = match opt_int_field(&p, "max_orgs", 0, u32::MAX as i128) {
            Ok(x) => x,
            Err(e) => return Err(e),
        };
        let max_seats = match opt_int_field(&p, "max_seats", 0, u32::MAX as i128) {
            Ok(x) => x,
            Err(e) => return Err(e),
        };
        let note = match text_field(&p, "note", false) {
            Ok(x) => x,
            Err(e) => return Err(e),
        };
        Ok(
            Claims {
                v: v as u8,
                license_id,
                customer,
                email,
                tier,
                product,
                issued_at: issued_at as i64,
                expires_at: narrow_i64(expires_at),
                features,
                max_orgs: narrow_u32(max_orgs),
                max_seats: narrow_u32(max_seats),
                note,
            },
        )
    }
}

/// The entries of the CBOR map that claims are written as.
pub open spec fn claims_entries(c: ClaimsView) -> Seq<(Seq<char>, FieldView)> {
    seq![
        ("v"@, FieldView::Int(c.v as int)),
        ("license_id"@, FieldView::Text(c.license_id)),
        ("customer"@, FieldView::Text(c.customer)),
        ("email"@, FieldView::Text(c.email)),
        ("tier"@, FieldView::Text(c.tier)),
        ("product"@, FieldView::Text(c.product)),
        ("issued_at"@, FieldView::Int(c.issued_at as int)),
        (
            "expires_at"@,
            match c.expires_at {
                Some(t) => FieldView::Int(t as int),
                None => FieldView::Null,
            },
        ),
        ("features"@, FieldView::Texts(c.features)),
        (
            "max_orgs"@,
            match c.max_orgs {
                Some(n) => FieldView::Int(n as int),
                None => FieldView::Null,
            },
        ),
        (
            "max_seats"@,
            match c.max_seats {
                Some(n) => FieldView::Int(n as int),
                None => FieldView::Null,
            },
        ),
        ("note"@, FieldView::Text(c.note)),
    ]
}

/// The CBOR that claims are written as.
pub open spec fn claims_cbor(c: ClaimsView) -> Seq<u8> {
    crate::cbor::map_of(claims_entries(c))
}

/// The entries of the CBOR map that an envelope is written as.
pub open spec fn blob_entries(b: SignedBlobView) -> Seq<(Seq<char>, FieldView)> {
    seq![("c"@, FieldView::Bytes(b.claims_cbor)), ("s"@, FieldView::Bytes(b.signature))]
}

/// The CBOR that an envelope is written as.
pub open spec fn blob_cbor(b: SignedBlobView) -> Seq<u8> {
    crate::cbor::map_of(blob_entries(b))
}

proof fn lemma_values_none(p: Seq<Seq<u8>>, name: Seq<char>, n: nat)
    requires
        forall|i: int| 0 <= i < n ==> !key_is(#[trigger] p[2 * i], name),
    ensures
        values_at(p, name, n) == Seq::<Seq<u8>>::empty(),
    decreases n,
{
    if n > 0 {
        lemma_values_none(p, name, (n - 1) as nat);
        assert(!key_is(p[2 * (n - 1)], name));
    }
}

proof fn lemma_values_one(p: Seq<Seq<u8>>, name: Seq<char>, n: nat, at: int)
    requires
        0 <= at < n,
        key_is(p[2 * at], name),
        forall|i: int| 0 <= i < n && i != at ==> !key_is(#[trigger] p[2 * i], name),
    ensures
        values_at(p, name, n) == seq![p[2 * at + 1]],
    decreases n,
{
    if at == n - 1 {
        lemma_values_none(p, name, (n - 1) as nat);
        assert(Seq::<Seq<u8>>::empty().push(p[2 * at + 1]) =~= seq![p[2 * at + 1]]);
    } else {
        lemma_values_one(p, name, (n - 1) as nat, at);
        assert(!key_is(p[2 * (n - 1)], name));
    }
}

/// No character takes more than four bytes.
proof fn lemma_utf8_length(s: Seq<char>)
    ensures
        vstd::utf8::encode_utf8(s).len() <= 4 * s.len(),
    decreases s.len(),
{
    if s.len() > 0 {
        lemma_utf8_length(s.drop_first());
    }
}

/// The keys of a map that was written spell the names that it was written
/// with.
proof fn lemma_written_keys(bytes: Seq<u8>, entries: Seq<(Seq<char>, FieldView)>)
    requires
        crate::cbor::reads_as_map(bytes, entries),
        forall|i: int| 0 <= i < entries.len() ==> (#[trigger] entries[i]).0.len() <= 1024,
    ensures
        map_parts(bytes) == Ok::<Seq<Seq<u8>>, Seq<char>>(crate::cbor::parts_at(bytes)),
        forall|i: int, name: Seq<char>|
            0 <= i < entries.len() ==> (#[trigger] key_is(
                crate::cbor::parts_at(bytes)[2 * i],
                name,
            ) <==> entries[i].0 == name),
{
    let p = crate::cbor::parts_at(bytes);
    assert(untagged(bytes, MAX_TAGS as nat) == bytes);
    assert forall|i: int| 0 <= i < p.len() / 2 implies is_key(#[trigger] p[2 * i]) by {
        let e = entries[i];
        assert(untagged(p[2 * i], MAX_TAGS as nat) == p[2 * i]);
        lemma_utf8_length(e.0);
    }
    assert forall|i: int, name: Seq<char>| 0 <= i < entries.len() implies (#[trigger] key_is(
        p[2 * i],
        name,
    ) <==> entries[i].0 == name) by {
        let e = entries[i];
        assert(untagged(p[2 * i], MAX_TAGS as nat) == p[2 * i]);
    }
}

/// In a map that was written, a name that occurs once leads to its field.
proof fn lemma_written_field(bytes: Seq<u8>, entries: Seq<(Seq<char>, FieldView)>, at: int)
    requires
        crate::cbor::reads_as_map(bytes, entries),
        forall|i: int| 0 <= i < entries.len() ==> (#[trigger] entries[i]).0.len() <= 1024,
        0 <= at < entries.len(),
        forall|i: int| 0 <= i < entries.len() && i != at ==> (#[trigger] entries[i]).0 != entries[at].0,
    ensures
        field_values(crate::cbor::parts_at(bytes), entries[at].0) == seq![
            crate::cbor::parts_at(bytes)[2 * at + 1],
        ],
        crate::cbor::reads_as(crate::cbor::parts_at(bytes)[2 * at + 1], entries[at].1),
{
    let p = crate::cbor::parts_at(bytes);
    let name = entries[at].0;
    lemma_written_keys(bytes, entries);
    assert(key_is(p[2 * at], name));
    assert forall|i: int| 0 <= i < entries.len() && i != at implies !key_is(
        #[trigger] p[2 * i],
        name,
    ) by {
        let e = entries[i];
    }
    lemma_values_one(p, name, entries.len(), at);
}

/// What a field that reads back as something gives under each reading.
proof fn lemma_reads_as(b: Seq<u8>, f: FieldView)
    requires
        crate::cbor::reads_as(b, f),
    ensures
        match f {
            FieldView::Null => forall|low: int, high: int|
                #[trigger] as_opt_int(b, low, high) == Some(None::<int>),
            FieldView::Int(n) => forall|low: int, high: int|
                low <= n <= high ==> #[trigger] as_int(b, low, high) == Some(n) && as_opt_int(
                    b,
                    low,
                    high,
                ) == Some(Some(n)),
            FieldView::Bytes(x) => as_bytes(b) == Some(x),
            FieldView::Text(t) => as_text(b) == Some(t),
            FieldView::Texts(ts) => as_texts(b) == Some(ts),
        },
{
    assert(untagged(b, MAX_TAGS as nat) == b);
    if let FieldView::Texts(ts) = f {
        let p = crate::cbor::parts_at(b);
        assert forall|i: int| 0 <= i < p.len() implies as_text(#[trigger] p[i]) == Some(ts[i]) by {
            assert(untagged(p[i], MAX_TAGS as nat) == p[i]);
        }
        assert(p.map_values(|x: Seq<u8>| as_text(x).unwrap()) =~= ts);
    }
}

/// The length and the first character of a name, which tell apart the names
/// of the claims.
spec fn shape(name: Seq<char>) -> (nat, char) {
    (name.len(), name[0])
}

/// The names of the claims are short, and differ.
proof fn lemma_claim_names_differ(c: ClaimsView)
    ensures
        forall|i: int, j: int|
            0 <= i < 12 && 0 <= j < 12 && i != j ==> (#[trigger] claims_entries(c)[i]).0 != (
            #[trigger] claims_entries(c)[j]).0,
        forall|i: int| 0 <= i < 12 ==> (#[trigger] claims_entries(c)[i]).0.len() <= 1024,
{
    let e = claims_entries(c);
    reveal_strlit("v");
    reveal_strlit("license_id");
    reveal_strlit("customer");
    reveal_strlit("email");
    reveal_strlit("tier");
    reveal_strlit("product");
    reveal_strlit("issued_at");
    reveal_strlit("expires_at");
    reveal_strlit("features");
    reveal_strlit("max_orgs");
    reveal_strlit("max_seats");
    reveal_strlit("note");
    assert(e[0].0 == "v"@ && shape(e[0].0) == (1nat, 'v'));
    assert(e[1].0 == "license_id"@ && shape(e[1].0) == (10nat, 'l'));
    assert(e[2].0 == "customer"@ && shape(e[2].0) == (8nat, 'c'));
    assert(e[3].0 == "email"@ && shape(e[3].0) == (5nat, 'e'));
    assert(e[4].0 == "tier"@ && shape(e[4].0) == (4nat, 't'));
    assert(e[5].0 == "product"@ && shape(e[5].0) == (7nat, 'p'));
    assert(e[6].0 == "issued_at"@ && shape(e[6].0) == (9nat, 'i'));
    assert(e[7].0 == "expires_at"@ && shape(e[7].0) == (10nat, 'e'));
    assert(e[8].0 == "features"@ && shape(e[8].0) == (8nat, 'f'));
    assert(e[9].0 == "max_orgs"@ && shape(e[9].0) == (8nat, 'm'));
    assert(e[10].0 == "max_seats"@ && shape(e[10].0) == (9nat, 'm'));
    assert(e[11].0 == "note"@ && shape(e[11].0) == (4nat, 'n'));
    assert forall|i: int, j: int| 0 <= i < j < 12 implies (#[trigger] e[i]).0 != (
    #[trigger] e[j]).0 by {
        assert(shape(e[i].0) != shape(e[j].0));
    }
}

/// Claims that were written are read back.
pub proof fn lemma_claims_read_back(bytes: Seq<u8>, c: ClaimsView)
    requires
        crate::cbor::reads_as_map(bytes, claims_entries(c)),
    ensures
        claims_of(bytes) == Ok::<ClaimsView, Seq<char>>(c),
{
    let e = claims_entries(c);
    let p = crate::cbor::parts_at(bytes);
    lemma_claim_names_differ(c);
    lemma_written_keys(bytes, e);
    assert forall|at: int| 0 <= at < 12 implies {
        &&& field_values(p, (#[trigger] e[at]).0) == seq![p[2 * at + 1]]
        &&& crate::cbor::reads_as(p[2 * at + 1], e[at].1)
    } by {
        lemma_written_field(bytes, e, at);
    }
    assert forall|at: int| 0 <= at < 12 implies match (#[trigger] e[at]).1 {
        FieldView::Null => forall|low: int, high: int|
            #[trigger] as_opt_int(p[2 * at + 1], low, high) == Some(None::<int>),
        FieldView::Int(n) => forall|low: int, high: int|
            low <= n <= high ==> #[trigger] as_int(p[2 * at + 1], low, high) == Some(n)
                && as_opt_int(p[2 * at + 1], low, high) == Some(Some(n)),
        FieldView::Bytes(x) => as_bytes(p[2 * at + 1]) == Some(x),
        FieldView::Text(t) => as_text(p[2 * at + 1]) == Some(t),
        FieldView::Texts(ts) => as_texts(p[2 * at + 1]) == Some(ts),
    } by {
        lemma_reads_as(p[2 * at + 1], e[at].1);
    }
    assert(e[0].0 == "v"@ && e[1].0 == "license_id"@ && e[2].0 == "customer"@ && e[3].0 == "email"@
        && e[4].0 == "tier"@ && e[5].0 == "product"@ && e[6].0 == "issued_at"@ && e[7].0
        == "expires_at"@ && e[8].0 == "features"@ && e[9].0 == "max_orgs"@ && e[10].0
        == "max_seats"@ && e[11].0 == "note"@);
    assert(claims_in(p) == Ok::<ClaimsView, Seq<char>>(c));
}

/// An envelope that was written is read back.
pub proof fn lemma_blob_reads_back(bytes: Seq<u8>, b: SignedBlobView)
    requires
        crate::cbor::reads_as_map(bytes, blob_entries(b)),
    ensures
        blob_of(bytes) == Ok::<SignedBlobView, Seq<char>>(b),
{
    let e = blob_entries(b);
    let p = crate::cbor::parts_at(bytes);
    reveal_strlit("c");
    reveal_strlit("s");
    assert("c"@[0] != "s"@[0]);
    lemma_written_keys(bytes, e);
    lemma_written_field(bytes, e, 0);
    lemma_written_field(bytes, e, 1);
    lemma_reads_as(p[1], e[0].1);
    lemma_reads_as(p[3], e[1].1);
    assert(blob_in(p) == Ok::<SignedBlobView, Seq<char>>(b));
}

fn entry(name: &str, field: Field) -> (r: (String, Field))
    ensures
        r.0@ == name@,
        r.1 == field,
{
    (name.to_owned(), field)
}

fn text_entry(name: &str, text: &String) -> (r: (String, Field))
    ensures
        r.0@ == name@,
        r.1@ == FieldView::Text(text@),
{
    (name.to_owned(), Field::Text(text.clone()))
}

fn limit_field(n: Option<u32>) -> (r: Field)
    ensures
        r@ == match n {
            Some(x) => FieldView::Int(x as int),
            None => FieldView::Null,
        },
{
    match n {
        Some(x) => Field::Int(x as i64),
        None => Field::Null,
    }
}

impl Claims {
    /// Writes the claims as CBOR.
    pub fn to_cbor(&self) -> (bytes: Vec<u8>)
        ensures
            bytes@ == claims_cbor(self@),
            claims_of(bytes@) == Ok::<ClaimsView, Seq<char>>(self@),
    {
        let mut entries: Vec<(String, Field)> = Vec::new();
        entries.push(entry("v", Field::Int(self.v as i64)));
        entries.push(text_entry("license_id", &self.license_id));
        entries.push(text_entry("customer", &self.customer));
        entries.push(text_entry("email", &self.email));
        entries.push(text_entry("tier", &self.tier));
        entries.push(text_entry("product", &self.product));
        entries.push(entry("issued_at", Field::Int(self.issued_at)));
        let expires = match self.expires_at {
            Some(t) => Field::Int(t),
            None => Field::Null,
        };
        entries.push(entry("expires_at", expires));
        entries.push(entry("features", Field::Texts(clone_texts(&self.features))));
        entries.push(entry("max_orgs", limit_field(self.max_orgs)));
        entries.push(entry("max_seats", limit_field(self.max_seats)));
        entries.push(text_entry("note", &self.note));
        assert(crate::cbor::entries_view(entries@) =~= claims_entries(self@));
        let bytes = write_map(entries);
        proof {
            lemma_claims_read_back(bytes@, self@);
        }
        bytes
    }
}

impl SignedBlob {
    /// Reads an envelope from CBOR. Fields that it does not know are ignored.
    pub fn from_cbor(bytes: &[u8]) -> (r: Result<SignedBlob, String>)
        ensures
            match r {
                Ok(b) => blob_of(bytes@) == Ok::<SignedBlobView, Seq<char>>(b@),
                Err(e) => blob_of(bytes@) == Err::<SignedBlobView, Seq<char>>(e@),
            },
    {
        let p = match read_map(bytes) {
            Ok(x) => x,
            Err(e) => return Err(e),
        };
        let claims_cbor = match bytes_field(&p, "c") {
            Ok(x) => x,
            Err(e) => return Err(e),
        };
        let signature = match bytes_field(&p, "s") {
            Ok(x) => x,
            Err(e) => return Err(e),
        };
        Ok(SignedBlob { claims_cbor, signature })
    }

    /// Writes the envelope as CBOR.
    pub fn to_cbor(self) -> (bytes: Vec<u8>)
        ensures
            bytes@ == blob_cbor(self@),
            blob_of(bytes@) == Ok::<SignedBlobView, Seq<char>>(self@),
    {
        let ghost view = self@;
        let mut entries: Vec<(String, Field)> = Vec::new();
        entries.push(entry("c", Field::Bytes(self.claims_cbor)));
        entries.push(entry("s", Field::Bytes(self.signature)));
        assert(crate::cbor::entries_view(entries@) =~= blob_entries(view));
        let bytes = write_map(entries);
        proof {
            lemma_blob_reads_back(bytes@, view);
        }
        bytes
    }
}

/// The names of the claims.
pub open spec fn is_claim_name(name: Seq<char>) -> bool {
    ||| name == "v"@
    ||| name == "license_id"@
    ||| name == "customer"@
    ||| name == "email"@
    ||| name == "tier"@
    ||| name == "product"@
    ||| name == "issued_at"@
    ||| name == "expires_at"@
    ||| name == "features"@
    ||| name == "max_orgs"@
    ||| name == "max_seats"@
    ||| name == "note"@
}

/// Two maps that agree on the values under each claim name hold the same
/// claims, or are wrong in the same way. What else they hold, and the order of
/// their entries, makes no difference.
pub proof fn lemma_claims_depend_on_named_values(p: Seq<Seq<u8>>, q: Seq<Seq<u8>>)
    requires
        forall|name: Seq<char>| #[trigger] is_claim_name(name) ==> field_values(p, name) == field_values(q, name),
    ensures
        claims_in(p) == claims_in(q),
{
    assert(is_claim_name("v"@) && is_claim_name("license_id"@) && is_claim_name("customer"@)
        && is_claim_name("email"@) && is_claim_name("tier"@) && is_claim_name("product"@)
        && is_claim_name("issued_at"@) && is_claim_name("expires_at"@) && is_claim_name(
        "features"@,
    ) && is_claim_name("max_orgs"@) && is_claim_name("max_seats"@) && is_claim_name("note"@));
}

proof fn lemma_values_of_extended(p: Seq<Seq<u8>>, more: Seq<Seq<u8>>, name: Seq<char>, n: nat)
    requires
        2 * n <= p.len(),
    ensures
        values_at(p + more, name, n) == values_at(p, name, n),
    decreases n,
{
    if n > 0 {
        lemma_values_of_extended(p, more, name, (n - 1) as nat);
        assert((p + more)[2 * (n - 1)] == p[2 * (n - 1)]);
        assert((p + more)[2 * (n - 1) + 1] == p[2 * (n - 1) + 1]);
    }
}

/// An entry whose key is no claim name is ignored: appended to the entries of
/// a map, it changes nothing about the claims that are read.
pub proof fn lemma_unknown_claim_ignored(p: Seq<Seq<u8>>, key: Seq<u8>, value: Seq<u8>)
    requires
        p.len() % 2 == 0,
        forall|name: Seq<char>| #[trigger] is_claim_name(name) ==> !key_is(key, name),
    ensures
        claims_in(p + seq![key, value]) == claims_in(p),
{
    let q = p + seq![key, value];
    assert forall|name: Seq<char>| #[trigger] is_claim_name(name) implies field_values(q, name)
        == field_values(p, name) by {
        let n = p.len() / 2;
        assert(q.len() / 2 == n + 1);
        assert(q[2 * n as int] == key);
        lemma_values_of_extended(p, seq![key, value], name, n);
    }
    lemma_claims_depend_on_named_values(p, q);
}

/// Each claim is written under its own name, as it is: a limit or an expiry that
/// is absent is written as null.
pub proof fn lemma_claims_have_their_names(c: ClaimsView)
    ensures
        ({
            let e = claims_entries(c);
            &&& e.len() == 12
            &&& e[0] == ("v"@, FieldView::Int(c.v as int))
            &&& e[1] == ("license_id"@, FieldView::Text(c.license_id))
            &&& e[2] == ("customer"@, FieldView::Text(c.customer))
            &&& e[3] == ("email"@, FieldView::Text(c.email))
            &&& e[4] == ("tier"@, FieldView::Text(c.tier))
            &&& e[5] == ("product"@, FieldView::Text(c.product))
            &&& e[6] == ("issued_at"@, FieldView::Int(c.issued_at as int))
            &&& e[7].0 == "expires_at"@
            &&& c.expires_at is Some ==> e[7].1 == FieldView::Int(c.expires_at->0 as int)
            &&& c.expires_at is None ==> e[7].1 == FieldView::Null
            &&& e[8] == ("features"@, FieldView::Texts(c.features))
            &&& e[9].0 == "max_orgs"@
            &&& c.max_orgs is Some ==> e[9].1 == FieldView::Int(c.max_orgs->0 as int)
            &&& c.max_orgs is None ==> e[9].1 == FieldView::Null
            &&& e[10].0 == "max_seats"@
            &&& c.max_seats is Some ==> e[10].1 == FieldView::Int(c.max_seats->0 as int)
            &&& c.max_seats is None ==> e[10].1 == FieldView::Null
            &&& e[11] == ("note"@, FieldView::Text(c.note))
        }),
{
}

/// An envelope is written as the claims and the signature, each under its own
/// letter.
pub proof fn lemma_envelope_has_its_names(b: SignedBlobView)
    ensures
        blob_entries(b).len() == 2,
        blob_entries(b)[0] == ("c"@, FieldView::Bytes(b.claims_cbor)),
        blob_entries(b)[1] == ("s"@, FieldView::Bytes(b.signature)),
{
}

/// The values under a name are those behind each key that spells the name, in
/// order.
pub proof fn lemma_values_are_those_of_the_name(
    parts: Seq<Seq<u8>>,
    name: Seq<char>,
    n: nat,
) -> (at: Seq<int>)
    ensures
        crate::routes::places(at, n as int, |i: int| key_is(parts[2 * i], name)),
        at.len() == values_at(parts, name, n).len(),
        forall|k: int|
            0 <= k < at.len() ==> values_at(parts, name, n)[k] == parts[2 * (#[trigger] at[k]) + 1],
    decreases n,
{
    let holds = |i: int| key_is(parts[2 * i], name);
    if n == 0 {
        Seq::empty()
    } else {
        let before = lemma_values_are_those_of_the_name(parts, name, (n - 1) as nat);
        crate::routes::lemma_places_grow(before, n - 1, holds);
        if key_is(parts[2 * (n - 1)], name) {
            assert(holds(n - 1));
            before.push(n - 1)
        } else {
            assert(!holds(n - 1));
            before
        }
    }
}

/// A field that is there once is read; one that is not there has its default, if
/// it has one, and is missing otherwise; one that is there twice is refused.
pub proof fn lemma_fields_occur_once<T>(
    parts: Seq<Seq<u8>>,
    name: Seq<char>,
    absent: Option<T>,
    read: spec_fn(Seq<u8>) -> Option<T>,
)
    ensures
        ({
            let found = field_values(parts, name);
            let r = field(parts, name, absent, read);
            &&& found.len() == 0 && absent is Some ==> r == Ok::<T, Seq<char>>(absent->0)
            &&& found.len() == 0 && absent is None ==> r == Err::<T, Seq<char>>(
                "missing field `"@ + name + "`"@,
            )
            &&& found.len() >= 2 ==> r == Err::<T, Seq<char>>("duplicate field `"@ + name + "`"@)
            &&& found.len() == 1 && read(found[0]) is Some ==> r == Ok::<T, Seq<char>>(
                read(found[0])->0,
            )
            &&& found.len() == 1 && read(found[0]) is None ==> r == Err::<T, Seq<char>>(
                "invalid type in field `"@ + name + "`"@,
            )
        }),
{
}

/// Whether the value under a name, which must be there, is read as a text.
pub open spec fn text_under(p: Seq<Seq<u8>>, name: Seq<char>, t: Seq<char>) -> bool {
    field_values(p, name).len() == 1 && as_text(field_values(p, name)[0]) == Some(t)
}

/// Whether the value under a name is read as a text, or is not there while the
/// text is empty.
pub open spec fn text_or_none_under(p: Seq<Seq<u8>>, name: Seq<char>, t: Seq<char>) -> bool {
    text_under(p, name, t) || (field_values(p, name).len() == 0 && t.len() == 0)
}

/// Whether the value under a name is a number between two bounds, or null, or
/// not there.
pub open spec fn limit_under(
    p: Seq<Seq<u8>>,
    name: Seq<char>,
    low: int,
    high: int,
    n: Option<int>,
) -> bool {
    ||| field_values(p, name).len() == 0 && n is None
    ||| {
        &&& field_values(p, name).len() == 1
        &&& {
            let b = field_values(p, name)[0];
            let null = crate::cbor::item_at(b) == Ok::<ItemView, Seq<char>>(ItemView::Null);
            &&& null <==> n is None
            &&& n is Some ==> low <= n->0 <= high && crate::cbor::int_at(b) is Some
                && crate::cbor::int_at(b)->0 == n->0
        }
    }
}

/// Claims that are read say what stands under their names in the map, each in
/// its own field and within its bounds. The version, the identifier, the
/// customer, the email, the tier and the time of issue must be there.
pub proof fn lemma_claims_are_read_by_name(p: Seq<Seq<u8>>)
    ensures
        claims_in(p) matches Ok(c) ==> {
            &&& field_values(p, "v"@).len() == 1
            &&& crate::cbor::int_at(field_values(p, "v"@)[0]) is Some
            &&& crate::cbor::int_at(field_values(p, "v"@)[0])->0 == c.v
            &&& text_under(p, "license_id"@, c.license_id)
            &&& text_under(p, "customer"@, c.customer)
            &&& text_under(p, "email"@, c.email)
            &&& text_under(p, "tier"@, c.tier)
            &&& text_or_none_under(p, "product"@, c.product)
            &&& field_values(p, "issued_at"@).len() == 1
            &&& crate::cbor::int_at(field_values(p, "issued_at"@)[0]) is Some
            &&& crate::cbor::int_at(field_values(p, "issued_at"@)[0])->0 == c.issued_at
            &&& limit_under(
                p,
                "expires_at"@,
                i64::MIN as int,
                i64::MAX as int,
                match c.expires_at {
                    Some(t) => Some(t as int),
                    None => None,
                },
            )
            &&& {
                ||| field_values(p, "features"@).len() == 0 && c.features.len() == 0
                ||| field_values(p, "features"@).len() == 1 && as_texts(
                    field_values(p, "features"@)[0],
                ) == Some(c.features)
            }
            &&& limit_under(
                p,
                "max_orgs"@,
                0,
                u32::MAX as int,
                match c.max_orgs {
                    Some(n) => Some(n as int),
                    None => None,
                },
            )
            &&& limit_under(
                p,
                "max_seats"@,
                0,
                u32::MAX as int,
                match c.max_seats {
                    Some(n) => Some(n as int),
                    None => None,
                },
            )
            &&& text_or_none_under(p, "note"@, c.note)
        },
{
}

/// A map in which each claim stands once and is of its type holds claims.
pub proof fn lemma_well_typed_claims_are_read(p: Seq<Seq<u8>>)
    requires
        field_values(p, "v"@).len() == 1 && as_int(field_values(p, "v"@)[0], 0, 255) is Some,
        field_values(p, "license_id"@).len() == 1 && as_text(field_values(p, "license_id"@)[0])
            is Some,
        field_values(p, "customer"@).len() == 1 && as_text(field_values(p, "customer"@)[0]) is Some,
        field_values(p, "email"@).len() == 1 && as_text(field_values(p, "email"@)[0]) is Some,
        field_values(p, "tier"@).len() == 1 && as_text(field_values(p, "tier"@)[0]) is Some,
        field_values(p, "product"@).len() == 0 || field_values(p, "product"@).len() == 1 && as_text(
            field_values(p, "product"@)[0],
        ) is Some,
        field_values(p, "issued_at"@).len() == 1 && as_int(
            field_values(p, "issued_at"@)[0],
            i64::MIN as int,
            i64::MAX as int,
        ) is Some,
        field_values(p, "expires_at"@).len() == 0 || field_values(p, "expires_at"@).len() == 1
            && as_opt_int(field_values(p, "expires_at"@)[0], i64::MIN as int, i64::MAX as int)
            is Some,
        field_values(p, "features"@).len() == 0 || field_values(p, "features"@).len() == 1
            && as_texts(field_values(p, "features"@)[0]) is Some,
        field_values(p, "max_orgs"@).len() == 0 || field_values(p, "max_orgs"@).len() == 1
            && as_opt_int(field_values(p, "max_orgs"@)[0], 0, u32::MAX as int) is Some,
        field_values(p, "max_seats"@).len() == 0 || field_values(p, "max_seats"@).len() == 1
            && as_opt_int(field_values(p, "max_seats"@)[0], 0, u32::MAX as int) is Some,
        field_values(p, "note"@).len() == 0 || field_values(p, "note"@).len() == 1 && as_text(
            field_values(p, "note"@)[0],
        ) is Some,
    ensures
        claims_in(p) is Ok,
{
}

/// A name is spelled as a text or as the bytes of that text, and no key is
/// longer than 4096 bytes.
pub proof fn lemma_keys_spell_names(bytes: Seq<u8>, name: Seq<char>)
    ensures
        plain_item(bytes) == Ok::<ItemView, Seq<char>>(ItemView::Text(name)) ==> key_is(bytes, name),
        plain_item(bytes) == Ok::<ItemView, Seq<char>>(
            ItemView::Bytes(vstd::utf8::encode_utf8(name)),
        ) ==> key_is(bytes, name),
        key_is(bytes, name) ==> plain_item(bytes) == Ok::<ItemView, Seq<char>>(ItemView::Text(name))
            || plain_item(bytes) == Ok::<ItemView, Seq<char>>(
            ItemView::Bytes(vstd::utf8::encode_utf8(name)),
        ),
        key_is(bytes, name) ==> (is_key(bytes) <==> vstd::utf8::encode_utf8(name).len() <= 4096),
{
}

/// A tag before a data item makes no difference to what the item holds.
pub proof fn lemma_tags_are_skipped(bytes: Seq<u8>, depth: nat)
    requires
        depth > 0,
    ensures
        crate::cbor::item_at(bytes) != Ok::<ItemView, Seq<char>>(ItemView::Tag) ==> untagged(
            bytes,
            depth,
        ) == bytes,
        crate::cbor::item_at(bytes) == Ok::<ItemView, Seq<char>>(ItemView::Tag)
            && crate::cbor::parts_at(bytes).len() == 1 ==> untagged(bytes, depth) == untagged(
            crate::cbor::parts_at(bytes)[0],
            (depth - 1) as nat,
        ),
        crate::cbor::item_at(bytes) != Ok::<ItemView, Seq<char>>(ItemView::Tag) ==> plain_item(
            bytes,
        ) == crate::cbor::item_at(bytes) && plain_parts(bytes) == crate::cbor::parts_at(bytes),
        plain_item(bytes) == crate::cbor::item_at(untagged(bytes, 256)),
        plain_parts(bytes) == crate::cbor::parts_at(untagged(bytes, 256)),
{
}

/// Texts are read one for one from an array, and bytes from a byte string or
/// one for one from an array of numbers that fit.
pub proof fn lemma_lists_are_read_one_for_one(bytes: Seq<u8>)
    ensures
        as_text(bytes) is Some ==> plain_item(bytes) == Ok::<ItemView, Seq<char>>(
            ItemView::Text(as_text(bytes)->0),
        ),
        as_texts(bytes) is Some && plain_item(bytes) == Ok::<ItemView, Seq<char>>(ItemView::Array)
            ==> as_texts(bytes)->0.len() == plain_parts(bytes).len() && forall|i: int|
            0 <= i < plain_parts(bytes).len() ==> as_text(#[trigger] plain_parts(bytes)[i]) == Some(
                as_texts(bytes)->0[i],
            ),
        as_texts(bytes) is Some && plain_item(bytes) != Ok::<ItemView, Seq<char>>(ItemView::Array)
            ==> as_texts(bytes)->0.len() == 0 && plain_item(bytes) is Ok && plain_item(bytes)->Ok_0
            is Bytes,
        as_bytes(bytes) is Some && plain_item(bytes) == Ok::<ItemView, Seq<char>>(ItemView::Array)
            ==> as_bytes(bytes)->0.len() == plain_parts(bytes).len() && forall|i: int|
            0 <= i < plain_parts(bytes).len() ==> as_int(#[trigger] plain_parts(bytes)[i], 0, 255)
                == Some(as_bytes(bytes)->0[i] as int),
        as_bytes(bytes) is Some && plain_item(bytes) != Ok::<ItemView, Seq<char>>(ItemView::Array)
            ==> plain_item(bytes) == Ok::<ItemView, Seq<char>>(
            ItemView::Bytes(as_bytes(bytes)->0),
        ),
{
}

/// A map is read as its keys and values, if every key can be one, and nothing
/// but a map is.
pub proof fn lemma_only_maps_have_entries(bytes: Seq<u8>)
    ensures
        map_parts(bytes) is Ok <==> plain_item(bytes) == Ok::<ItemView, Seq<char>>(ItemView::Dict)
            && forall|i: int|
            0 <= i < plain_parts(bytes).len() / 2 ==> is_key(#[trigger] plain_parts(bytes)[2 * i]),
        map_parts(bytes) matches Ok(parts) ==> parts == plain_parts(bytes),
        claims_of(bytes) is Ok ==> map_parts(bytes) is Ok && claims_of(bytes) == claims_in(
            plain_parts(bytes),
        ),
        blob_of(bytes) matches Ok(b) ==> {
            let p = plain_parts(bytes);
            &&& map_parts(bytes) is Ok
            &&& field_values(p, "c"@).len() == 1
            &&& field_values(p, "s"@).len() == 1
            &&& as_bytes(field_values(p, "c"@)[0]) == Some(b.claims_cbor)
            &&& as_bytes(field_values(p, "s"@)[0]) == Some(b.signature)
        },
{
}

/// Claims and envelopes are seen as they are, field by field.
pub proof fn lemma_claims_are_seen_as_they_are(c: Claims, b: SignedBlob)
    ensures
        c@.v == c.v,
        c@.license_id == c.license_id@,
        c@.customer == c.customer@,
        c@.email == c.email@,
        c@.tier == c.tier@,
        c@.product == c.product@,
        c@.issued_at == c.issued_at,
        c@.expires_at == c.expires_at,
        c@.features == crate::text::texts(c.features@),
        c@.max_orgs == c.max_orgs,
        c@.max_seats == c.max_seats,
        c@.note == c.note@,
        b@.claims_cbor == b.claims_cbor@,
        b@.signature == b.signature@,
{
}

} // verus!
