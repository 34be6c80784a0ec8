//! Writing, reading and verifying license blobs.

use crate::claims::{same_bytes, Claims, ClaimsView, SignedBlob, SignedBlobView, BLOB_MAGIC, BLOB_VERSION};
use crate::encoding::{base64_decode, base64_encode};
use crate::keys::{SigningKey, VerifyingKey, KEY_LENGTH, SIGNATURE_LENGTH};
use crate::text::{join2, join3, trim, write_decimal};
use vstd::prelude::*;
use vstd::string::*;

verus! {

/// What can go wrong with a key.
#[derive(Debug)]
pub enum Error {
    /// The file was not read, for this reason.
    ReadKey { path: String, reason: String },
    /// The file does not have the length of a key.
    KeyLength { path: String, len: usize },
    /// The bytes are no public key.
    VerifyingKey,
}

/// The mathematical content of an [`Error`].
pub enum ErrorView {
    ReadKey { path: Seq<char>, reason: Seq<char> },
    KeyLength { path: Seq<char>, len: nat },
    VerifyingKey,
}

impl View for Error {
    type V = ErrorView;

    open spec fn view(&self) -> ErrorView {
        match self {
            Error::ReadKey { path, reason } => ErrorView::ReadKey { path: path@, reason: reason@ },
            Error::KeyLength { path, len } => ErrorView::KeyLength { path: path@, len: *len as nat },
            Error::VerifyingKey => ErrorView::VerifyingKey,
        }
    }
}

/// The words for an error.
pub open spec fn error_words(e: ErrorView) -> Seq<char> {
    match e {
        ErrorView::ReadKey { path, reason } => "read "@ + path,
        ErrorView::KeyLength { path, len } => "key at "@ + path + " is "@ + (crate::text::decimal(
            len,
        ) + " bytes, expected 32"@),
        ErrorView::VerifyingKey => "invalid verifying key"@,
    }
}

impl Error {
    /// The error in words.
    pub fn to_string(&self) -> (r: String)
        ensures
            r@ == error_words(self@),
    {
        match self {
            Error::ReadKey { path, reason: _ } => join2("read ", path),
            Error::KeyLength { path, len } => {
                let number = write_decimal(*len as u64);
                let tail = join2(&number, " bytes, expected 32");
                let head = join3("key at ", path, " is ");
                join2(&head, &tail)
            },
            Error::VerifyingKey => "invalid verifying key".to_owned(),
        }
    }
}

/// Why a blob was not accepted.
#[derive(Debug)]
pub enum DecodeError {
    /// It is no blob of a known version, with what is wrong in words.
    Malformed(String),
    /// It is a blob, but its signature verifies under none of the keys.
    BadSignature,
}

/// The mathematical content of a [`DecodeError`].
pub enum DecodeErrorView {
    Malformed(Seq<char>),
    BadSignature,
}

impl View for DecodeError {
    type V = DecodeErrorView;

    open spec fn view(&self) -> DecodeErrorView {
        match self {
            DecodeError::Malformed(words) => DecodeErrorView::Malformed(words@),
            DecodeError::BadSignature => DecodeErrorView::BadSignature,
        }
    }
}

/// The words for a blob that was not accepted.
pub open spec fn decode_error_words(e: DecodeErrorView) -> Seq<char> {
    match e {
        DecodeErrorView::Malformed(words) => "malformed license blob: "@ + words,
        DecodeErrorView::BadSignature => "license signature did not verify"@,
    }
}

impl DecodeError {
    /// The error in words.
    pub fn to_string(&self) -> (r: String)
        ensures
            r@ == decode_error_words(self@),
    {
        match self {
            DecodeError::Malformed(words) => join2("malformed license blob: ", words),
            DecodeError::BadSignature => "license signature did not verify".to_owned(),
        }
    }
}

/// The longest blob that is read, in bytes of its base64 text. A real one is
/// well below a quarter of this.
pub const MAX_BLOB_B64_LEN: usize = 16384;

/// The bytes that a blob is the base64 of.
pub open spec fn envelope(b: SignedBlobView) -> Seq<u8> {
    BLOB_MAGIC@ + seq![BLOB_VERSION] + crate::claims::blob_cbor(b)
}

/// The claims in CBOR, signed with a private key.
pub open spec fn signed(c: ClaimsView, seed: Seq<u8>) -> SignedBlobView {
    let cbor = crate::claims::claims_cbor(c);
    SignedBlobView { claims_cbor: cbor, signature: crate::keys::signature_of(seed, cbor) }
}

/// The blob that says some claims, signed with a private key.
pub open spec fn blob_text(c: ClaimsView, seed: Seq<u8>) -> Seq<char> {
    crate::encoding::base64_of(envelope(signed(c, seed)))
}

/// The raw bytes of some public keys.
pub open spec fn raw_keys(keys: Seq<VerifyingKey>) -> Seq<Seq<u8>> {
    keys.map_values(|k: VerifyingKey| k@)
}

/// Whether a signature on a message verifies under at least one of some keys.
pub open spec fn verifies_under_any(
    keys: Seq<Seq<u8>>,
    message: Seq<u8>,
    signature: Seq<u8>,
) -> bool {
    exists|k: Seq<u8>| #[trigger]
        keys.contains(k) && crate::keys::strictly_verifies(k, message, signature)
}

/// A blob that is malformed, in these words.
pub open spec fn malformed(words: Seq<char>) -> Result<ClaimsView, DecodeErrorView> {
    Err(DecodeErrorView::Malformed(words))
}

/// What an envelope is accepted as, under some public keys.
pub open spec fn verified(b: SignedBlobView, keys: Seq<Seq<u8>>) -> Result<
    ClaimsView,
    DecodeErrorView,
> {
    if b.signature.len() != SIGNATURE_LENGTH {
        malformed("signature length "@ + crate::text::decimal(b.signature.len()) + ", expected 64"@)
    } else if !verifies_under_any(keys, b.claims_cbor, b.signature) {
        Err(DecodeErrorView::BadSignature)
    } else {
        match crate::claims::claims_of(b.claims_cbor) {
            Ok(c) => Ok(c),
            Err(e) => malformed("claims cbor: "@ + e),
        }
    }
}

/// What the bytes of a blob are accepted as, under some public keys.
pub open spec fn opened(bytes: Seq<u8>, keys: Seq<Seq<u8>>) -> Result<ClaimsView, DecodeErrorView> {
    if bytes.len() < 5 {
        malformed("blob too short"@)
    } else if bytes.take(4) != BLOB_MAGIC@ {
        malformed("magic mismatch"@)
    } else if bytes[4] != BLOB_VERSION {
        malformed("unsupported version "@ + crate::text::decimal(bytes[4] as nat) + ", expected 1"@)
    } else {
        match crate::claims::blob_of(bytes.skip(5)) {
            Ok(b) => verified(b, keys),
            Err(e) => malformed("envelope cbor: "@ + e),
        }
    }
}

/// What a blob is accepted as, under some public keys.
pub open spec fn decoded(text: Seq<char>, keys: Seq<Seq<u8>>) -> Result<
    ClaimsView,
    DecodeErrorView,
> {
    let text = crate::text::trimmed(text);
    if vstd::utf8::encode_utf8(text).len() > MAX_BLOB_B64_LEN {
        malformed("blob too large"@)
    } else {
        match crate::encoding::base64_reading(text) {
            Ok(bytes) => opened(bytes, keys),
            Err(e) => malformed("base64: "@ + e),
        }
    }
}

/// The view of what a reader of blobs gives.
pub open spec fn claims_or_error(r: Result<Claims, DecodeError>) -> Result<
    ClaimsView,
    DecodeErrorView,
> {
    match r {
        Ok(c) => Ok(c@),
        Err(e) => Err(e@),
    }
}

/// Checks the signature of an envelope, and reads the claims in it.
pub fn verify_signed(blob: &SignedBlob, keys: &[VerifyingKey]) -> (r: Result<Claims, DecodeError>)
    ensures
        claims_or_error(r) == verified(blob@, raw_keys(keys@)),
{
    if blob.signature.len() != SIGNATURE_LENGTH {
        let number = write_decimal(blob.signature.len() as u64);
        return Err(DecodeError::Malformed(join3("signature length ", &number, ", expected 64")));
    }
    let ghost raw = raw_keys(keys@);
    let mut accepted = false;
    for i in 0..keys.len()
        invariant
            raw == raw_keys(keys@),
            accepted ==> verifies_under_any(raw, blob.claims_cbor@, blob.signature@),
            !accepted ==> forall|j: int|
                0 <= j < i ==> !crate::keys::strictly_verifies(
                    #[trigger] raw[j],
                    blob.claims_cbor@,
                    blob.signature@,
                ),
    {
        if keys[i].verify_strict(&blob.claims_cbor, &blob.signature) {
            accepted = true;
            assert(raw[i as int] == keys@[i as int]@);
            assert(raw.contains(raw[i as int]));
        }
    }
    if !accepted {
        return Err(DecodeError::BadSignature);
    }
    match Claims::from_cbor(&blob.claims_cbor) {
        Ok(c) => Ok(c),
        Err(e) => Err(DecodeError::Malformed(join2("claims cbor: ", &e))),
    }
}

/// Verifies the bytes of a blob, and reads the claims in it.
pub fn verify_envelope(bytes: &[u8], keys: &[VerifyingKey]) -> (r: Result<Claims, DecodeError>)
    ensures
        claims_or_error(r) == opened(bytes@, raw_keys(keys@)),
{
    if bytes.len() < 5 {
        return Err(DecodeError::Malformed("blob too short".to_owned()));
    }
    let magic = vstd::slice::slice_subrange(bytes, 0, 4);
    assert(magic@ =~= bytes@.take(4));
    if !same_bytes(magic, &BLOB_MAGIC) {
        return Err(DecodeError::Malformed("magic mismatch".to_owned()));
    }
    let version = bytes[4];
    if version != BLOB_VERSION {
        let number = write_decimal(version as u64);
        return Err(DecodeError::Malformed(join3("unsupported version ", &number, ", expected 1")));
    }
    let cbor = vstd::slice::slice_subrange(bytes, 5, bytes.len());
    assert(cbor@ =~= bytes@.skip(5));
    match SignedBlob::from_cbor(cbor) {
        Ok(blob) => verify_signed(&blob, keys),
        Err(e) => Err(DecodeError::Malformed(join2("envelope cbor: ", &e))),
    }
}

/// Reads a blob, which any one of the keys may have signed. An application
/// can so trust the root key and the shop's web key at once. No keys at all
/// accept nothing.
pub fn decode_and_verify_any(b64: &str, verifying_keys: &[VerifyingKey]) -> (r: Result<
    Claims,
    DecodeError,
>)
    ensures
        claims_or_error(r) == decoded(b64@, raw_keys(verifying_keys@)),
{
    let b64 = trim(b64);
    if b64.as_bytes().len() > MAX_BLOB_B64_LEN {
        return Err(DecodeError::Malformed("blob too large".to_owned()));
    }
    match base64_decode(b64) {
        Ok(bytes) => verify_envelope(&bytes, verifying_keys),
        Err(e) => Err(DecodeError::Malformed(join2("base64: ", &e))),
    }
}

/// Reads a blob that must be signed with the one given key.
pub fn decode_and_verify(b64: &str, verifying_key: &VerifyingKey) -> (r: Result<
    Claims,
    DecodeError,
>)
    ensures
        claims_or_error(r) == decoded(b64@, seq![verifying_key@]),
{
    let keys = [*verifying_key];
    assert(raw_keys(keys@) =~= seq![verifying_key@]);
    decode_and_verify_any(b64, &keys)
}

/// Whether a blob reads as some claims under any keys that include a given
/// one.
pub open spec fn reads_as_signed(text: Seq<char>, c: ClaimsView, public: Seq<u8>) -> bool {
    forall|keys: Seq<Seq<u8>>| #[trigger]
        keys.contains(public) ==> decoded(text, keys) == Ok::<ClaimsView, DecodeErrorView>(c)
}

/// Whether a blob reads as some claims under any keys one of which verifies the
/// signature of a private key on them, and is refused for its signature under
/// any other keys.
pub open spec fn opens_by_signature(text: Seq<char>, c: ClaimsView, seed: Seq<u8>) -> bool {
    let b = signed(c, seed);
    forall|keys: Seq<Seq<u8>>| #[trigger]
        decoded(text, keys) == if verifies_under_any(keys, b.claims_cbor, b.signature) {
            Ok::<ClaimsView, DecodeErrorView>(c)
        } else {
            Err::<ClaimsView, DecodeErrorView>(DecodeErrorView::BadSignature)
        }
}

/// Writes a blob: signs the claims, and wraps them up. Whoever holds the
/// signer's public key, among others or alone, reads the claims back from it.
/// Keys none of which verifies the signature refuse it. The exceptions are a
/// blob that is longer than what is read, and a signature that strict
/// verification rejects whoever made it.
pub fn encode(claims: &Claims, signing_key: &SigningKey) -> (r: Result<String, Error>)
    ensures
        r is Ok,
        r->Ok_0@ == blob_text(claims@, signing_key@),
        r->Ok_0@.len() <= MAX_BLOB_B64_LEN && !crate::keys::has_neutral_commitment(
            signed(claims@, signing_key@).signature,
        ) ==> reads_as_signed(
            r->Ok_0@,
            claims@,
            crate::keys::public_key_of(signing_key@),
        ),
        r->Ok_0@.len() <= MAX_BLOB_B64_LEN ==> opens_by_signature(
            r->Ok_0@,
            claims@,
            signing_key@,
        ),
{
    let claims_cbor = claims.to_cbor();
    let signature = signing_key.sign(&claims_cbor);
    let blob = SignedBlob { claims_cbor, signature };
    let ghost b = blob@;
    let mut bytes: Vec<u8> = Vec::new();
    for i in 0..4
        invariant
            bytes@ == BLOB_MAGIC@.take(i as int),
    {
        bytes.push(BLOB_MAGIC[i]);
        assert(BLOB_MAGIC@.take(i as int).push(BLOB_MAGIC@[i as int]) =~= BLOB_MAGIC@.take(i + 1));
    }
    bytes.push(BLOB_VERSION);
    let mut cbor = blob.to_cbor();
    let ghost tail = cbor@;
    bytes.append(&mut cbor);
    proof {
        assert(BLOB_MAGIC@.take(4) =~= BLOB_MAGIC@);
        assert(bytes@ =~= envelope(b));
        assert(bytes@.take(4) =~= BLOB_MAGIC@);
        assert(bytes@.skip(5) =~= tail);
    }
    let text = base64_encode(&bytes);
    proof {
        lemma_base64_is_ascii(text@);
        crate::text::lemma_trimmed_unchanged(text@);
        assert(crate::text::trimmed(text@) == text@);
        let public = crate::keys::public_key_of(signing_key@);
        if text@.len() <= MAX_BLOB_B64_LEN {
            assert forall|keys: Seq<Seq<u8>>| #[trigger]
                decoded(text@, keys) == if verifies_under_any(keys, b.claims_cbor, b.signature) {
                    Ok::<ClaimsView, DecodeErrorView>(claims@)
                } else {
                    Err::<ClaimsView, DecodeErrorView>(DecodeErrorView::BadSignature)
                } by {
                assert(decoded(text@, keys) == opened(bytes@, keys));
                assert(opened(bytes@, keys) == verified(b, keys));
            }
            assert(opens_by_signature(text@, claims@, signing_key@));
        }
        if text@.len() <= MAX_BLOB_B64_LEN && !crate::keys::has_neutral_commitment(b.signature) {
            assert forall|keys: Seq<Seq<u8>>| #[trigger] keys.contains(public) implies decoded(
                text@,
                keys,
            ) == Ok::<ClaimsView, DecodeErrorView>(claims@) by {
                assert(verifies_under_any(keys, b.claims_cbor, b.signature));
            }
        }
    }
    Ok(text)
}

proof fn lemma_base64_is_ascii(text: Seq<char>)
    requires
        crate::encoding::all_base64(text),
    ensures
        vstd::utf8::encode_utf8(text).len() == text.len(),
        text.len() > 0 ==> !crate::text::is_white_space(text[0]) && !crate::text::is_white_space(
            text.last(),
        ),
{
    assert forall|i: int| 0 <= i < text.len() implies (#[trigger] text[i] as u32) < 128 by {
        assert(crate::encoding::is_base64_char(text[i]));
    }
    if text.len() > 0 {
        assert(crate::encoding::is_base64_char(text[0]));
        assert(crate::encoding::is_base64_char(text.last()));
    }
    vstd::utf8::is_ascii_chars_encode_utf8(text);
}

/// A key that is added, or keys in another order, never make an accepted blob
/// unacceptable, nor change what it says.
pub proof fn lemma_more_keys_accept_as_much(text: Seq<char>, keys: Seq<Seq<u8>>, more: Seq<Seq<u8>>)
    requires
        forall|k: Seq<u8>| #[trigger] keys.contains(k) ==> more.contains(k),
        decoded(text, keys) is Ok,
    ensures
        decoded(text, more) == decoded(text, keys),
{
    let t = crate::text::trimmed(text);
    let bytes = crate::encoding::base64_reading(t)->Ok_0;
    let b = crate::claims::blob_of(bytes.skip(5))->Ok_0;
    assert(verifies_under_any(keys, b.claims_cbor, b.signature));
    let k = choose|k: Seq<u8>| #[trigger]
        keys.contains(k) && crate::keys::strictly_verifies(k, b.claims_cbor, b.signature);
    assert(more.contains(k));
}

/// Which keys are held decides, not how they are listed: the same keys in
/// another order, or listed twice, give the same answer to every text.
pub proof fn lemma_listing_of_keys_is_irrelevant(
    text: Seq<char>,
    keys: Seq<Seq<u8>>,
    others: Seq<Seq<u8>>,
)
    requires
        forall|k: Seq<u8>| keys.contains(k) <==> others.contains(k),
    ensures
        decoded(text, keys) == decoded(text, others),
{
    assert forall|m: Seq<u8>, s: Seq<u8>|
        verifies_under_any(keys, m, s) == verifies_under_any(others, m, s) by {
        if verifies_under_any(keys, m, s) {
            let k = choose|k: Seq<u8>| #[trigger]
                keys.contains(k) && crate::keys::strictly_verifies(k, m, s);
            assert(others.contains(k));
        }
        if verifies_under_any(others, m, s) {
            let k = choose|k: Seq<u8>| #[trigger]
                others.contains(k) && crate::keys::strictly_verifies(k, m, s);
            assert(keys.contains(k));
        }
    }
}

/// Without keys no text is accepted. One that is well formed down to its
/// signature is refused for the signature.
pub proof fn lemma_no_keys_accept_nothing(text: Seq<char>, keys: Seq<Seq<u8>>)
    ensures
        decoded(text, Seq::empty()) is Err,
        decoded(text, keys) is Ok ==> decoded(text, Seq::empty()) == Err::<
            ClaimsView,
            DecodeErrorView,
        >(DecodeErrorView::BadSignature),
{
    assert forall|m: Seq<u8>, s: Seq<u8>| !verifies_under_any(Seq::empty(), m, s) by {}
}

/// A text that is too long is refused, whatever it holds and whatever keys are
/// held.
pub proof fn lemma_too_long_is_malformed(text: Seq<char>, keys: Seq<Seq<u8>>)
    requires
        vstd::utf8::encode_utf8(crate::text::trimmed(text)).len() > MAX_BLOB_B64_LEN,
    ensures
        decoded(text, keys) == malformed("blob too large"@),
{
}

/// White space around a blob makes no difference.
pub proof fn lemma_white_space_is_ignored(
    before: Seq<char>,
    text: Seq<char>,
    after: Seq<char>,
    keys: Seq<Seq<u8>>,
)
    requires
        forall|i: int| 0 <= i < before.len() ==> crate::text::is_white_space(before[i]),
        forall|i: int| 0 <= i < after.len() ==> crate::text::is_white_space(after[i]),
    ensures
        decoded(before + text + after, keys) == decoded(text, keys),
{
    crate::text::lemma_trimmed_padded(before, text, after);
}

/// What is accepted says the claims whose bytes were signed, and at least one
/// of the keys verifies them.
pub proof fn lemma_accepted_is_signed(bytes: Seq<u8>, keys: Seq<Seq<u8>>)
    requires
        opened(bytes, keys) is Ok,
    ensures
        crate::claims::blob_of(bytes.skip(5)) is Ok,
        ({
            let b = crate::claims::blob_of(bytes.skip(5))->Ok_0;
            &&& b.signature.len() == SIGNATURE_LENGTH
            &&& verifies_under_any(keys, b.claims_cbor, b.signature)
            &&& crate::claims::claims_of(b.claims_cbor) == Ok::<ClaimsView, Seq<char>>(
                opened(bytes, keys)->Ok_0,
            )
        }),
{
}

/// A blob that one private key signed is refused for its signature under keys
/// none of which verifies that signature, such as the public key of another.
pub proof fn lemma_foreign_keys_are_refused(
    text: Seq<char>,
    c: ClaimsView,
    seed: Seq<u8>,
    keys: Seq<Seq<u8>>,
)
    requires
        opens_by_signature(text, c, seed),
        forall|k: Seq<u8>| #[trigger]
            keys.contains(k) ==> !crate::keys::strictly_verifies(
                k,
                signed(c, seed).claims_cbor,
                signed(c, seed).signature,
            ),
    ensures
        decoded(text, keys) == Err::<ClaimsView, DecodeErrorView>(DecodeErrorView::BadSignature),
{
}

/// The bytes of a key, out of what was read from a file: the bytes of the
/// file, or the reason why there are none.
pub fn read_key_bytes(path: &str, read: Result<Vec<u8>, String>) -> (r: Result<[u8; 32], Error>)
    ensures
        match read {
            Err(reason) => r is Err && r->Err_0@ == (ErrorView::ReadKey {
                path: path@,
                reason: reason@,
            }),
            Ok(bytes) => if bytes@.len() == KEY_LENGTH {
                r is Ok && r->Ok_0@ == bytes@
            } else {
                r is Err && r->Err_0@ == (ErrorView::KeyLength {
                    path: path@,
                    len: bytes@.len(),
                })
            },
        },
{
    let bytes = match read {
        Ok(b) => b,
        Err(reason) => return Err(Error::ReadKey { path: path.to_owned(), reason }),
    };
    if bytes.len() != KEY_LENGTH {
        return Err(Error::KeyLength { path: path.to_owned(), len: bytes.len() });
    }
    let mut key = [0u8; 32];
    for i in 0..32
        invariant
            bytes@.len() == 32,
            forall|j: int| 0 <= j < i ==> key@[j] == bytes@[j],
    {
        key[i] = bytes[i];
    }
    assert(key@ =~= bytes@);
    Ok(key)
}

/// A public key, out of what was read from a file.
pub fn load_verifying_key(path: &str, read: Result<Vec<u8>, String>) -> (r: Result<
    VerifyingKey,
    Error,
>)
    ensures
        match read {
            Err(reason) => r is Err && r->Err_0@ == (ErrorView::ReadKey {
                path: path@,
                reason: reason@,
            }),
            Ok(bytes) => if bytes@.len() != KEY_LENGTH {
                r is Err && r->Err_0@ == (ErrorView::KeyLength {
                    path: path@,
                    len: bytes@.len(),
                })
            } else if crate::keys::is_public_key(bytes@) {
                r is Ok && r->Ok_0@ == bytes@
            } else {
                r is Err && r->Err_0@ == ErrorView::VerifyingKey
            },
        },
{
    let key = match read_key_bytes(path, read) {
        Ok(k) => k,
        Err(e) => return Err(e),
    };
    match VerifyingKey::from_bytes(&key) {
        Some(k) => Ok(k),
        None => Err(Error::VerifyingKey),
    }
}

/// A private key, out of what was read from a file.
pub fn load_signing_key(path: &str, read: Result<Vec<u8>, String>) -> (r: Result<
    SigningKey,
    Error,
>)
    ensures
        match read {
            Err(reason) => r is Err && r->Err_0@ == (ErrorView::ReadKey {
                path: path@,
                reason: reason@,
            }),
            Ok(bytes) => if bytes@.len() == KEY_LENGTH {
                r is Ok && r->Ok_0@ == bytes@
            } else {
                r is Err && r->Err_0@ == (ErrorView::KeyLength {
                    path: path@,
                    len: bytes@.len(),
                })
            },
        },
{
    match read_key_bytes(path, read) {
        Ok(k) => Ok(SigningKey::from_bytes(&k)),
        Err(e) => Err(e),
    }
}

/// A blob is the base64 of four magic bytes, a version and the signed claims,
/// and what is signed is the claims as they are written.
pub proof fn lemma_blob_layout(c: ClaimsView, seed: Seq<u8>)
    ensures
        ({
            let b = signed(c, seed);
            let bytes = envelope(b);
            &&& blob_text(c, seed) == crate::encoding::base64_of(bytes)
            &&& bytes.take(4) == BLOB_MAGIC@
            &&& bytes[0] == 79 && bytes[1] == 80 && bytes[2] == 76 && bytes[3] == 66
            &&& bytes[4] == 1
            &&& bytes.skip(5) == crate::claims::blob_cbor(b)
            &&& b.claims_cbor == crate::claims::claims_cbor(c)
            &&& b.signature == crate::keys::signature_of(seed, b.claims_cbor)
        }),
{
    let b = signed(c, seed);
    let bytes = envelope(b);
    assert(BLOB_MAGIC@.len() == 4);
    assert(bytes.take(4) =~= BLOB_MAGIC@);
    assert(bytes.skip(5) =~= crate::claims::blob_cbor(b));
}

/// An envelope is accepted exactly if its signature has 64 bytes and verifies
/// under one of the keys on claims that can be read. It is refused for the
/// signature exactly if that has 64 bytes and verifies under none.
pub proof fn lemma_only_signed_claims_are_accepted(b: SignedBlobView, keys: Seq<Seq<u8>>)
    ensures
        ({
            let good = exists|k: Seq<u8>| #[trigger]
                keys.contains(k) && crate::keys::strictly_verifies(k, b.claims_cbor, b.signature);
            &&& verified(b, keys) is Ok <==> b.signature.len() == 64 && good
                && crate::claims::claims_of(b.claims_cbor) is Ok
            &&& verified(b, keys) is Ok ==> verified(b, keys)->Ok_0 == crate::claims::claims_of(
                b.claims_cbor,
            )->Ok_0
            &&& verified(b, keys) == Err::<ClaimsView, DecodeErrorView>(
                DecodeErrorView::BadSignature,
            ) <==> b.signature.len() == 64 && !good
        }),
{
}

/// Bytes are opened only behind the magic bytes and version 1.
pub proof fn lemma_only_known_blobs_are_opened(bytes: Seq<u8>, keys: Seq<Seq<u8>>)
    ensures
        ({
            let known = bytes.len() >= 5 && bytes.take(4) == BLOB_MAGIC@ && bytes[4] == 1
                && crate::claims::blob_of(bytes.skip(5)) is Ok;
            &&& known ==> opened(bytes, keys) == verified(
                crate::claims::blob_of(bytes.skip(5))->Ok_0,
                keys,
            )
            &&& !known ==> opened(bytes, keys) is Err && opened(bytes, keys)->Err_0 is Malformed
        }),
{
}

/// A text is decoded only if it is no longer than the limit without the white
/// space around it, and is base64; it says what its bytes say.
pub proof fn lemma_only_short_base64_is_decoded(text: Seq<char>, keys: Seq<Seq<u8>>)
    ensures
        ({
            let t = crate::text::trimmed(text);
            let readable = vstd::utf8::encode_utf8(t).len() <= 16384
                && crate::encoding::base64_reading(t) is Ok;
            &&& readable ==> decoded(text, keys) == opened(
                crate::encoding::base64_reading(t)->Ok_0,
                keys,
            )
            &&& !readable ==> decoded(text, keys) is Err && decoded(text, keys)->Err_0 is Malformed
        }),
{
}

/// A malformed blob is told from one with a bad signature in words that repeat
/// what is wrong.
pub proof fn lemma_decode_errors_in_words(words: Seq<char>)
    ensures
        words.is_suffix_of(decode_error_words(DecodeErrorView::Malformed(words))),
        "malformed license blob: "@.is_prefix_of(
            decode_error_words(DecodeErrorView::Malformed(words)),
        ),
        decode_error_words(DecodeErrorView::BadSignature) != decode_error_words(
            DecodeErrorView::Malformed(words),
        ),
{
    let all = decode_error_words(DecodeErrorView::Malformed(words));
    let start = "malformed license blob: "@;
    assert(all.subrange(all.len() - words.len(), all.len() as int) =~= words);
    assert(all.subrange(0, start.len() as int) =~= start);
    reveal_strlit("malformed license blob: ");
    reveal_strlit("license signature did not verify");
    assert(all[0] == 'm');
}

/// A key file that is wrong is named in the words for it.
pub proof fn lemma_key_errors_name_the_file(path: Seq<char>, reason: Seq<char>, len: nat)
    ensures
        path.is_suffix_of(error_words(ErrorView::ReadKey { path, reason })),
        exists|before: Seq<char>, after: Seq<char>| error_words(
            ErrorView::KeyLength { path, len },
        ) == #[trigger] (before + path + after) && crate::text::decimal(len).is_prefix_of(
            after.skip(4),
        ),
{
    let read = error_words(ErrorView::ReadKey { path, reason });
    assert(read.subrange(read.len() - path.len(), read.len() as int) =~= path);
    let n = crate::text::decimal(len);
    let before = "key at "@;
    let tail = n + " bytes, expected 32"@;
    let after = " is "@ + tail;
    assert(error_words(ErrorView::KeyLength { path, len }) =~= before + path + after);
    reveal_strlit(" is ");
    assert(after.skip(4) =~= tail);
    assert(tail.subrange(0, n.len() as int) =~= n);
}

} // verus!
