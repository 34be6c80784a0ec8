//! The offline issuer: key files, licenses for a ledger, and verifying.

use crate::claims::Claims;
use crate::codec::{decode_and_verify, Error};
use crate::dates::{end_of_day, time_of};
use crate::issue::{issue_with, random_bytes, IssueParams, IssueParamsView, Issued};
use crate::keys::{SigningKey, VerifyingKey};
use crate::paths::join_path;
use crate::text::{clone_texts, join, join2, join3, trim, write_decimal, write_int};
use vstd::prelude::*;
use vstd::string::*;

verus! {

/// What can go wrong in the issuer.
#[derive(Debug)]
pub enum IssuerError {
    /// There are key files already, and nobody said to overwrite them.
    KeysExist { private: String, public: String },
    /// The expiry is no date, for this reason.
    BadExpiry { text: String, reason: String },
    /// The blob was not accepted, for this reason.
    VerificationFailed(String),
    /// The license could not be minted.
    Issue(Error),
}

/// The words for an error.
pub open spec fn issuer_error_words(e: IssuerError) -> Seq<char> {
    match e {
        IssuerError::KeysExist { private, public } => private@ + " or "@ + public@
            + " already exists; pass --force to overwrite (DANGEROUS — invalidates every license signed with the old key)"@,
        IssuerError::BadExpiry { text, .. } => "parse --expires "@ + text@
            + " (want YYYY-MM-DD)"@,
        IssuerError::VerificationFailed(reason) => "verification failed: "@ + reason@,
        IssuerError::Issue(e) => crate::codec::error_words(e@),
    }
}

impl IssuerError {
    /// The error in words.
    pub fn to_string(&self) -> (r: String)
        ensures
            r@ == issuer_error_words(*self),
    {
        match self {
            IssuerError::KeysExist { private, public } => {
                let both = join3(private, " or ", public);
                join2(
                    &both,
                    " already exists; pass --force to overwrite (DANGEROUS — invalidates every license signed with the old key)",
                )
            },
            IssuerError::BadExpiry { text, .. } => join3(
                "parse --expires ",
                text,
                " (want YYYY-MM-DD)",
            ),
            IssuerError::VerificationFailed(reason) => join2("verification failed: ", reason),
            IssuerError::Issue(e) => e.to_string(),
        }
    }
}

/// The two keys that a product can have: the root key, which stays offline, and
/// the web key, which the shop signs with and which can be replaced.
#[derive(Debug, Clone, Copy)]
pub enum KeyRole {
    Root,
    Web,
}

/// The directory of a product's keys.
pub open spec fn key_dir(base: Seq<char>, product: Seq<char>) -> Seq<char> {
    crate::paths::joined_path(base, product)
}

/// The file name of a private key.
pub open spec fn private_name(role: KeyRole) -> Seq<char> {
    match role {
        KeyRole::Root => "private.bin"@,
        KeyRole::Web => "web-private.bin"@,
    }
}

/// The file name of a public key.
pub open spec fn public_name(role: KeyRole) -> Seq<char> {
    match role {
        KeyRole::Root => "public.bin"@,
        KeyRole::Web => "web-public.bin"@,
    }
}

/// The file of a product's private key.
pub open spec fn private_path(base: Seq<char>, product: Seq<char>, role: KeyRole) -> Seq<char> {
    crate::paths::joined_path(key_dir(base, product), private_name(role))
}

/// The file of a product's public key.
pub open spec fn public_path(base: Seq<char>, product: Seq<char>, role: KeyRole) -> Seq<char> {
    crate::paths::joined_path(key_dir(base, product), public_name(role))
}

/// The file of a product's private key, below a directory of keys.
pub fn private_key_path(base: &str, product: &str, role: KeyRole) -> (r: String)
    ensures
        r@ == private_path(base@, product@, role),
{
    let dir = join_path(base, product);
    match role {
        KeyRole::Root => join_path(&dir, "private.bin"),
        KeyRole::Web => join_path(&dir, "web-private.bin"),
    }
}

/// The file of a product's public key, below a directory of keys.
pub fn public_key_path(base: &str, product: &str, role: KeyRole) -> (r: String)
    ensures
        r@ == public_path(base@, product@, role),
{
    let dir = join_path(base, product);
    match role {
        KeyRole::Root => join_path(&dir, "public.bin"),
        KeyRole::Web => join_path(&dir, "web-public.bin"),
    }
}

/// Where the files of a new pair of keys go.
#[derive(Debug)]
pub struct KeyFiles {
    pub directory: String,
    pub private: String,
    pub public: String,
}

/// Where the files of a product's new pair of keys go.
pub fn key_files(product: &str, role: KeyRole) -> (r: KeyFiles)
    ensures
        are_files_of(r, product@, role),
        r.directory@ == key_dir("keys"@, product@),
        r.private@ == private_path("keys"@, product@, role),
        r.public@ == public_path("keys"@, product@, role),
{
    KeyFiles {
        directory: join_path("keys", product),
        private: private_key_path("keys", product, role),
        public: public_key_path("keys", product, role),
    }
}

/// A file to be written. It may hold a private key, so it has no `Debug`.
pub struct NewFile {
    pub path: String,
    pub contents: Vec<u8>,
    /// Whether only its owner may read it, even where a file of that name was
    /// open to others before.
    pub owner_only: bool,
}

/// A new pair of keys, as the files that hold it.
pub struct Keygen {
    pub private: NewFile,
    pub public: NewFile,
}

/// Refuses to overwrite key files, unless it is told to.
pub fn check_overwrite(files: &KeyFiles, private_exists: bool, public_exists: bool, force: bool) -> (r:
    Result<(), IssuerError>)
    ensures
        match r {
            Ok(()) => force || !(private_exists || public_exists),
            Err(e) => !force && (private_exists || public_exists) && e == (IssuerError::KeysExist {
                private: files.private,
                public: files.public,
            }),
        },
{
    if (private_exists || public_exists) && !force {
        return Err(
            IssuerError::KeysExist {
                private: files.private.clone(),
                public: files.public.clone(),
            },
        );
    }
    Ok(())
}

/// Whether two files hold the pair of keys that a seed gives, the private one
/// for its owner alone.
pub open spec fn is_pair(pair: Keygen, files: KeyFiles, seed: Seq<u8>) -> bool {
    &&& pair.private.path == files.private
    &&& pair.private.contents@ == seed
    &&& pair.private.owner_only
    &&& pair.public.path == files.public
    &&& pair.public.contents@ == crate::keys::public_key_of(seed)
    &&& crate::keys::is_public_key(pair.public.contents@)
    &&& pair.public.contents@.len() == 32
    &&& !pair.public.owner_only
}

fn bytes_of(key: [u8; 32]) -> (r: Vec<u8>)
    ensures
        r@ == key@,
{
    let mut r: Vec<u8> = Vec::new();
    for i in 0..32
        invariant
            r@ == key@.take(i as int),
    {
        r.push(key[i]);
        assert(key@.take(i as int).push(key@[i as int]) =~= key@.take(i + 1));
    }
    assert(key@.take(32) =~= key@);
    r
}

/// The pair of keys that a seed gives, as files.
pub fn keygen_with(files: KeyFiles, seed: [u8; 32]) -> (pair: Keygen)
    ensures
        is_pair(pair, files, seed@),
{
    let signing = SigningKey::from_bytes(&seed);
    let public = signing.verifying_key().to_bytes();
    Keygen {
        private: NewFile {
            path: files.private,
            contents: bytes_of(signing.to_bytes()),
            owner_only: true,
        },
        public: NewFile { path: files.public, contents: bytes_of(public), owner_only: false },
    }
}

/// A new pair of keys, drawn at random. Existing key files are overwritten only
/// if that is asked for.
pub fn keygen(files: KeyFiles, private_exists: bool, public_exists: bool, force: bool) -> (r:
    Result<Keygen, IssuerError>)
    ensures
        r is Err <==> !force && (private_exists || public_exists),
        r matches Err(e) ==> e == (IssuerError::KeysExist {
            private: files.private,
            public: files.public,
        }),
        r is Ok ==> exists|seed: Seq<u8>|
            seed.len() == 32 && #[trigger] is_pair(r->Ok_0, files, seed),
{
    match check_overwrite(&files, private_exists, public_exists, force) {
        Ok(()) => {},
        Err(e) => return Err(e),
    }
    let seed: [u8; 32] = random_bytes();
    let pair = keygen_with(files, seed);
    assert(seed@.len() == 32);
    let r: Result<Keygen, IssuerError> = Ok(pair);
    assert(is_pair(r->Ok_0, files, seed@));
    r
}

/// What is said of a new pair of keys.
pub fn keygen_report(files: &KeyFiles) -> (r: String)
    ensures
        r@ == "Wrote private key: "@ + files.private@ + "\nWrote public key:  "@ + (files.public@
            + "\n\nCopy "@ + files.public@)
            + " into your application's license verifier and rebuild.\n"@,
{
    let mut r = join3("Wrote private key: ", &files.private, "\nWrote public key:  ");
    r.append(&join3(&files.public, "\n\nCopy ", &files.public));
    r.append(" into your application's license verifier and rebuild.\n");
    r
}

/// The file of the private key to sign with.
pub open spec fn signing_file(product: Seq<char>, named: Option<String>) -> Seq<char> {
    match named {
        Some(path) => path@,
        None => private_path("keys"@, product, KeyRole::Root),
    }
}

/// The file of the public key to verify with.
pub open spec fn verifying_file(product: Seq<char>, named: Option<String>) -> Seq<char> {
    match named {
        Some(path) => path@,
        None => public_path("keys"@, product, KeyRole::Root),
    }
}

/// The ledger file.
pub open spec fn ledger_path(product: Seq<char>, named: Option<String>) -> Seq<char> {
    match named {
        Some(path) => path@,
        None => crate::paths::joined_path("ledger"@, product + ".jsonl"@),
    }
}

/// Whether these are where the files of a product's new pair of keys go.
pub open spec fn are_files_of(files: KeyFiles, product: Seq<char>, role: KeyRole) -> bool {
    &&& files.directory@ == key_dir("keys"@, product)
    &&& files.private@ == private_path("keys"@, product, role)
    &&& files.public@ == public_path("keys"@, product, role)
}

/// The root keys of a product are looked for where a new pair is written, unless
/// others are named: what is named is used, in each case.
pub proof fn lemma_keys_are_found_where_they_were_written(
    files: KeyFiles,
    product: Seq<char>,
    path: String,
)
    requires
        are_files_of(files, product, KeyRole::Root),
    ensures
        signing_file(product, None) == files.private@,
        verifying_file(product, None) == files.public@,
        files.private@ != files.public@,
        files.directory@ == crate::paths::joined_path("keys"@, product),
        signing_file(product, Some(path)) == path@,
        verifying_file(product, Some(path)) == path@,
        ledger_path(product, Some(path)) == path@,
{
    lemma_key_files_are_apart("keys"@, product);
}

/// Each product has a ledger of its own, in the directory of the ledgers.
pub proof fn lemma_products_have_ledgers_of_their_own(a: Seq<char>, b: Seq<char>)
    requires
        a.len() > 0 && a[0] != '/',
        b.len() > 0 && b[0] != '/',
    ensures
        ledger_path(a, None) == "ledger/"@ + a + ".jsonl"@,
        ledger_path(a, None) == ledger_path(b, None) ==> a == b,
{
    reveal_strlit("ledger");
    reveal_strlit("/");
    reveal_strlit("ledger/");
    assert("ledger"@.last() != '/');
    assert("ledger/"@ =~= "ledger"@ + "/"@);
    let x = a + ".jsonl"@;
    let y = b + ".jsonl"@;
    assert(x[0] == a[0] && y[0] == b[0]);
    assert(ledger_path(a, None) =~= "ledger/"@ + a + ".jsonl"@);
    assert(ledger_path(b, None) =~= "ledger/"@ + b + ".jsonl"@);
    if ledger_path(a, None) == ledger_path(b, None) {
        let n = "ledger/"@.len() as int;
        assert(ledger_path(a, None).subrange(n, n + a.len()) =~= a);
        assert(ledger_path(b, None).subrange(n, n + b.len()) =~= b);
    }
}

/// The file of the private key to sign with: the one that was named, or the
/// product's root key.
pub fn signing_key_file(product: &str, named: Option<String>) -> (r: String)
    ensures
        r@ == signing_file(product@, named),
        r@ == match named {
            Some(path) => path@,
            None => private_path("keys"@, product@, KeyRole::Root),
        },
{
    match named {
        Some(path) => path,
        None => private_key_path("keys", product, KeyRole::Root),
    }
}

/// The file of the public key to verify with: the one that was named, or the
/// product's root key.
pub fn verifying_key_file(product: &str, named: Option<String>) -> (r: String)
    ensures
        r@ == verifying_file(product@, named),
        r@ == match named {
            Some(path) => path@,
            None => public_path("keys"@, product@, KeyRole::Root),
        },
{
    match named {
        Some(path) => path,
        None => public_key_path("keys", product, KeyRole::Root),
    }
}

/// The ledger file: the one that was named, or the product's.
pub fn ledger_file(product: &str, named: Option<String>) -> (r: String)
    ensures
        r@ == ledger_path(product@, named),
        r@ == match named {
            Some(path) => path@,
            None => crate::paths::joined_path("ledger"@, product@ + ".jsonl"@),
        },
{
    match named {
        Some(path) => path,
        None => {
            let name = join2(product, ".jsonl");
            join_path("ledger", &name)
        },
    }
}

/// Whether an error says that a text is no date, for a reason.
pub open spec fn is_bad_expiry(e: IssuerError, of: Seq<char>, words: Seq<char>) -> bool {
    e matches IssuerError::BadExpiry { text, reason } && text@ == of && reason@ == words
}

/// When a license ends that is to run to a date: at the end of that day in UTC.
/// Without a date it does not end.
pub fn expiry(expires: Option<String>) -> (r: Result<Option<i64>, IssuerError>)
    ensures
        match expires {
            None => r == Ok::<Option<i64>, IssuerError>(None),
            Some(text) => match crate::dates::day_in(text@, crate::dates::DATE_FORMAT@) {
                Ok(day) => r matches Ok(Some(t)) && t == crate::dates::last_second_of(day as int),
                Err(words) => r matches Err(e) && is_bad_expiry(e, text@, words),
            },
        },
{
    match expires {
        None => Ok(None),
        Some(text) => match end_of_day(&text) {
            Ok(t) => Ok(Some(t)),
            Err(reason) => Err(IssuerError::BadExpiry { text, reason }),
        },
    }
}

/// A point in time in words, or the number of its seconds where it has none.
pub open spec fn time_words(seconds: i64) -> Seq<char> {
    match crate::dates::rfc3339_at(seconds) {
        Some(text) => text,
        None => crate::text::decimal_int(seconds as int),
    }
}

fn time_text(seconds: i64) -> (r: String)
    ensures
        r@ == time_words(seconds),
{
    match time_of(seconds) {
        Some(text) => text,
        None => write_int(seconds),
    }
}

/// What the ledger keeps of a license.
#[derive(Debug)]
pub struct LedgerRow {
    pub issued_at: String,
    pub license_id: String,
    pub customer: String,
    pub email: String,
    pub product: String,
    pub tier: String,
    pub expires_at: Option<String>,
    pub features: Vec<String>,
    pub max_orgs: Option<u32>,
    pub max_seats: Option<u32>,
    pub note: String,
}

/// Whether a row of the ledger records some claims.
pub open spec fn records(row: LedgerRow, c: Claims) -> bool {
    &&& row.issued_at@ == time_words(c.issued_at)
    &&& row.license_id == c.license_id
    &&& row.customer == c.customer
    &&& row.email == c.email
    &&& row.product == c.product
    &&& row.tier == c.tier
    &&& crate::text::opt_text(row.expires_at) == match c.expires_at {
        Some(t) => crate::dates::rfc3339_at(t),
        None => None,
    }
    &&& row.features@ == c.features@
    &&& row.max_orgs == c.max_orgs
    &&& row.max_seats == c.max_seats
    &&& row.note == c.note
}

impl LedgerRow {
    /// The row for a license.
    pub fn from_claims(c: &Claims) -> (row: LedgerRow)
        ensures
            records(row, *c),
    {
        let expires_at = match c.expires_at {
            Some(t) => time_of(t),
            None => None,
        };
        LedgerRow {
            issued_at: time_text(c.issued_at),
            license_id: c.license_id.clone(),
            customer: c.customer.clone(),
            email: c.email.clone(),
            product: c.product.clone(),
            tier: c.tier.clone(),
            expires_at,
            features: clone_texts(&c.features),
            max_orgs: c.max_orgs,
            max_seats: c.max_seats,
            note: c.note.clone(),
        }
    }
}

/// A limit in words.
pub open spec fn limit_words(limit: Option<u32>) -> Seq<char> {
    match limit {
        Some(n) => crate::text::decimal(n as nat),
        None => "unlimited"@,
    }
}

fn limit_text(limit: Option<u32>) -> (r: String)
    ensures
        r@ == limit_words(limit),
{
    match limit {
        Some(n) => write_decimal(n as u64),
        None => "unlimited".to_owned(),
    }
}

/// An expiry in words.
pub open spec fn expiry_words(expires_at: Option<i64>) -> Seq<char> {
    match expires_at {
        Some(t) => time_words(t),
        None => "lifetime"@,
    }
}

/// A license in words, for the issuer.
pub open spec fn summary_words(c: Claims, ledger: Seq<char>) -> Seq<char> {
    "\nIssued license "@ + c.license_id@ + " for "@ + (c.customer@ + " <"@ + c.email@) + (
    ">\n  product:    "@ + c.product@) + ("\n  tier:       "@ + c.tier@) + ("\n  expires:    "@
        + expiry_words(c.expires_at)) + ("\n  features:   "@ + crate::text::joined(
        crate::text::texts(c.features@),
        ", "@,
    )) + ("\n  max_orgs:   "@ + limit_words(c.max_orgs)) + ("\n  max_seats:  "@ + limit_words(
        c.max_seats,
    )) + ("\n  ledger:     "@ + ledger + "\n"@)
}

/// A license in words, for the issuer.
pub fn summary(c: &Claims, ledger: &str) -> (r: String)
    ensures
        r@ == summary_words(*c, ledger@),
{
    let expires = match c.expires_at {
        Some(t) => time_text(t),
        None => "lifetime".to_owned(),
    };
    let features = join(&c.features, ", ");
    let orgs = limit_text(c.max_orgs);
    let seats = limit_text(c.max_seats);
    let mut r = join3("\nIssued license ", &c.license_id, " for ");
    r.append(&join3(&c.customer, " <", &c.email));
    r.append(&join2(">\n  product:    ", &c.product));
    r.append(&join2("\n  tier:       ", &c.tier));
    r.append(&join2("\n  expires:    ", &expires));
    r.append(&join2("\n  features:   ", &features));
    r.append(&join2("\n  max_orgs:   ", &orgs));
    r.append(&join2("\n  max_seats:  ", &seats));
    r.append(&join3("\n  ledger:     ", ledger, "\n"));
    r
}

/// What the issuer is asked for.
#[derive(Debug)]
pub struct IssueRequest {
    pub product: String,
    pub customer: String,
    pub email: String,
    pub tier: String,
    /// A date, or none for a license that does not end.
    pub expires: Option<String>,
    pub features: Vec<String>,
    pub max_orgs: Option<u32>,
    pub max_seats: Option<u32>,
    pub note: String,
}

/// A license with its row for the ledger, what goes to the standard output and
/// what goes to the standard error.
#[derive(Debug)]
pub struct IssueReport {
    pub issued: Issued,
    pub row: LedgerRow,
    pub stdout: String,
    pub stderr: String,
}

/// When the license that was asked for ends.
pub open spec fn requested_expiry(q: IssueRequest) -> Option<i64> {
    match q.expires {
        None => None,
        Some(text) => match crate::dates::day_in(text@, crate::dates::DATE_FORMAT@) {
            Ok(day) => Some(crate::dates::last_second_of(day as int) as i64),
            Err(_) => None,
        },
    }
}

/// Why the date that was asked for is none.
pub open spec fn expiry_problem(q: IssueRequest) -> Option<Seq<char>> {
    match q.expires {
        None => None,
        Some(text) => match crate::dates::day_in(text@, crate::dates::DATE_FORMAT@) {
            Ok(_) => None,
            Err(words) => Some(words),
        },
    }
}

/// What the license that was asked for says.
pub open spec fn requested(q: IssueRequest) -> IssueParamsView {
    IssueParamsView {
        product: q.product@,
        customer: q.customer@,
        email: q.email@,
        tier: q.tier@,
        expires_at: requested_expiry(q),
        features: crate::text::texts(q.features@),
        max_orgs: q.max_orgs,
        max_seats: q.max_seats,
        note: q.note@,
    }
}

/// Whether a report is on the license that was asked for: the ledger records
/// what was signed, and the blob stands alone on the standard output.
pub open spec fn is_report(
    report: IssueReport,
    q: IssueRequest,
    ledger: Seq<char>,
    now: i64,
    random: Seq<u8>,
    seed: Seq<u8>,
) -> bool {
    &&& crate::issue::is_license(
        report.issued,
        crate::issue::issued_claims(requested(q), now, crate::issue::license_id_of(random)),
        seed,
    )
    &&& records(report.row, report.issued.claims)
    &&& report.stdout@ == report.issued.blob@ + "\n"@
    &&& report.stderr@ == summary_words(report.issued.claims, ledger)
}

/// Issues a license whose identifier comes from the given random bytes.
pub fn issue_license_with(
    q: IssueRequest,
    ledger: &str,
    now: i64,
    random: [u8; 16],
    key: &SigningKey,
) -> (r: Result<IssueReport, IssuerError>)
    ensures
        match r {
            Ok(report) => expiry_problem(q) is None && is_report(
                report,
                q,
                ledger@,
                now,
                random@,
                key@,
            ),
            Err(e) => expiry_problem(q) matches Some(words) && is_bad_expiry(
                e,
                q.expires->0@,
                words,
            ),
        },
{
    let expires_at = match expiry(q.expires) {
        Ok(t) => t,
        Err(e) => return Err(e),
    };
    let params = IssueParams {
        product: q.product,
        customer: q.customer,
        email: q.email,
        tier: q.tier,
        expires_at,
        features: q.features,
        max_orgs: q.max_orgs,
        max_seats: q.max_seats,
        note: q.note,
    };
    assert(params@ =~= requested(q));
    let issued = match issue_with(params, now, random, key) {
        Ok(x) => x,
        Err(e) => return Err(IssuerError::Issue(e)),
    };
    let row = LedgerRow::from_claims(&issued.claims);
    let stdout = join2(&issued.blob, "\n");
    let stderr = summary(&issued.claims, ledger);
    Ok(IssueReport { issued, row, stdout, stderr })
}

/// Issues a license.
pub fn issue_license(q: IssueRequest, ledger: &str, now: i64, key: &SigningKey) -> (r: Result<
    IssueReport,
    IssuerError,
>)
    ensures
        match r {
            Ok(report) => expiry_problem(q) is None && exists|random: Seq<u8>|
                random.len() == 16 && #[trigger] is_report(report, q, ledger@, now, random, key@),
            Err(e) => expiry_problem(q) matches Some(words) && is_bad_expiry(
                e,
                q.expires->0@,
                words,
            ),
        },
{
    let random: [u8; 16] = random_bytes();
    assert(random@.len() == 16);
    issue_license_with(q, ledger, now, random, key)
}

/// Verifies a blob against a public key, and gives the claims in it.
pub fn verify(raw: &str, key: &VerifyingKey) -> (r: Result<Claims, IssuerError>)
    ensures
        match crate::codec::decoded(raw@, seq![key@]) {
            Ok(c) => r matches Ok(claims) && claims@ == c,
            Err(e) => r matches Err(IssuerError::VerificationFailed(words)) && words@
                == crate::codec::decode_error_words(e),
        },
{
    match decode_and_verify(raw, key) {
        Ok(claims) => Ok(claims),
        Err(e) => Err(IssuerError::VerificationFailed(e.to_string())),
    }
}

/// A license that is issued with the private key of a new pair is verified by
/// the public key of that pair: it says what was asked for.
pub proof fn lemma_issued_is_verified(
    pair: Keygen,
    files: KeyFiles,
    seed: Seq<u8>,
    report: IssueReport,
    q: IssueRequest,
    ledger: Seq<char>,
    now: i64,
    random: Seq<u8>,
)
    requires
        is_pair(pair, files, seed),
        is_report(report, q, ledger, now, random, pair.private.contents@),
        report.issued.blob@.len() <= crate::codec::MAX_BLOB_B64_LEN,
        !crate::keys::has_neutral_commitment(
            crate::codec::signed(report.issued.claims@, seed).signature,
        ),
    ensures
        crate::codec::decoded(report.issued.blob@, seq![pair.public.contents@]) == Ok::<
            crate::claims::ClaimsView,
            crate::codec::DecodeErrorView,
        >(
            crate::issue::issued_claims(requested(q), now, crate::issue::license_id_of(random)),
        ),
{
    let keys = seq![pair.public.contents@];
    assert(keys[0] == crate::keys::public_key_of(seed));
    assert(keys.contains(crate::keys::public_key_of(seed)));
}

/// The keys of a product lie in the directory of that name, the root key and
/// the web key apart, and the private keys apart from the public ones.
pub proof fn lemma_key_files_are_apart(base: Seq<char>, product: Seq<char>)
    ensures
        ({
            let dir = crate::paths::joined_path(base, product);
            &&& private_path(base, product, KeyRole::Root) == crate::paths::joined_path(
                dir,
                "private.bin"@,
            )
            &&& private_path(base, product, KeyRole::Web) == crate::paths::joined_path(
                dir,
                "web-private.bin"@,
            )
            &&& public_path(base, product, KeyRole::Root) == crate::paths::joined_path(
                dir,
                "public.bin"@,
            )
            &&& public_path(base, product, KeyRole::Web) == crate::paths::joined_path(
                dir,
                "web-public.bin"@,
            )
        }),
        private_path(base, product, KeyRole::Root) != private_path(base, product, KeyRole::Web),
        public_path(base, product, KeyRole::Root) != public_path(base, product, KeyRole::Web),
        private_path(base, product, KeyRole::Root) != public_path(base, product, KeyRole::Root),
        private_path(base, product, KeyRole::Web) != public_path(base, product, KeyRole::Web),
{
    let dir = crate::paths::joined_path(base, product);
    reveal_strlit("private.bin");
    reveal_strlit("web-private.bin");
    reveal_strlit("public.bin");
    reveal_strlit("web-public.bin");
    crate::paths::lemma_joined_path(dir, "private.bin"@);
    crate::paths::lemma_joined_path(dir, "web-private.bin"@);
    crate::paths::lemma_joined_path(dir, "public.bin"@);
    crate::paths::lemma_joined_path(dir, "web-public.bin"@);
}

/// A new pair of keys is written as the seed, for its owner alone, and the
/// public key of that seed, each to its own file.
pub proof fn lemma_pair_is_the_seeds(pair: Keygen, files: KeyFiles, seed: Seq<u8>)
    requires
        is_pair(pair, files, seed),
    ensures
        pair.private.path@ == files.private@,
        pair.private.contents@ == seed,
        pair.private.owner_only,
        pair.public.path@ == files.public@,
        pair.public.contents@ == crate::keys::public_key_of(seed),
        !pair.public.owner_only,
{
}

/// The ledger records a license as it is: every claim in its own column, and the
/// times in words.
pub proof fn lemma_ledger_records_every_claim(row: LedgerRow, c: Claims)
    requires
        records(row, c),
    ensures
        row.issued_at@ == time_words(c.issued_at),
        row.license_id@ == c.license_id@,
        row.customer@ == c.customer@,
        row.email@ == c.email@,
        row.product@ == c.product@,
        row.tier@ == c.tier@,
        c.expires_at is None ==> row.expires_at is None,
        c.expires_at is Some ==> crate::text::opt_text(row.expires_at) == crate::dates::rfc3339_at(
            c.expires_at->0,
        ),
        row.features@ == c.features@,
        row.max_orgs == c.max_orgs,
        row.max_seats == c.max_seats,
        row.note@ == c.note@,
{
}

/// Two licenses with the same row in the ledger were given to the same customer,
/// for the same product and with the same limits.
pub proof fn lemma_rows_tell_licenses_apart(row: LedgerRow, a: Claims, b: Claims)
    requires
        records(row, a),
        records(row, b),
    ensures
        a.license_id@ == b.license_id@,
        a.customer@ == b.customer@,
        a.email@ == b.email@,
        a.product@ == b.product@,
        a.tier@ == b.tier@,
        a.features@ == b.features@,
        a.max_orgs == b.max_orgs,
        a.max_seats == b.max_seats,
        a.note@ == b.note@,
{
}

/// A point in time is told as RFC 3339 has it where that can be, and by the
/// number of its seconds elsewhere.
pub proof fn lemma_times_in_words(t: i64)
    ensures
        crate::dates::rfc3339_at(t) is Some ==> time_words(t) == crate::dates::rfc3339_at(t)->0,
        crate::dates::rfc3339_at(t) is None ==> crate::text::written_int(time_words(t)) == Some(
            t as int,
        ),
        expiry_words(Some(t)) == time_words(t),
        expiry_words(None) == "lifetime"@,
{
    crate::text::lemma_int_reads_back(t as int);
}

/// A limit is told as its number, so that different limits are told apart, and
/// its absence as no limit.
pub proof fn lemma_limits_in_words(limit: Option<u32>)
    ensures
        limit is None <==> limit_words(limit) == "unlimited"@,
        limit is Some ==> crate::text::digits_value(limit_words(limit)) == limit->0
            && crate::text::all_digits(limit_words(limit)),
{
    if limit is Some {
        crate::text::lemma_decimal_reads_back(limit->0 as nat);
        reveal_strlit("unlimited");
        assert(crate::text::is_digit(limit_words(limit)[0]));
    }
}

proof fn lemma_is_a_line(
    text: Seq<char>,
    before: Seq<char>,
    label: Seq<char>,
    value: Seq<char>,
    after: Seq<char>,
)
    requires
        after.len() > 0,
        after[0] == '\n',
        text == before + (label + value) + after,
    ensures
        crate::mail::has_line(text, label, value),
{
    reveal_strlit("\n");
    let rest = after.skip(1);
    assert(text =~= before + (label + value + "\n"@ + rest));
}

proof fn lemma_lines(
    first: Seq<char>,
    l1: Seq<char>,
    v1: Seq<char>,
    l2: Seq<char>,
    v2: Seq<char>,
    l3: Seq<char>,
    v3: Seq<char>,
    l4: Seq<char>,
    v4: Seq<char>,
    l5: Seq<char>,
    v5: Seq<char>,
    l6: Seq<char>,
    v6: Seq<char>,
    l7: Seq<char>,
    v7: Seq<char>,
    last: Seq<char>,
)
    requires
        l2.len() > 0 && l2[0] == '\n',
        l3.len() > 0 && l3[0] == '\n',
        l4.len() > 0 && l4[0] == '\n',
        l5.len() > 0 && l5[0] == '\n',
        l6.len() > 0 && l6[0] == '\n',
        l7.len() > 0 && l7[0] == '\n',
        last.len() > 0 && last[0] == '\n',
    ensures
        ({
            let text = first + (l1 + v1) + (l2 + v2) + (l3 + v3) + (l4 + v4) + (l5 + v5) + (l6 + v6)
                + (l7 + v7 + last);
            &&& crate::mail::has_line(text, l1, v1)
            &&& crate::mail::has_line(text, l2, v2)
            &&& crate::mail::has_line(text, l3, v3)
            &&& crate::mail::has_line(text, l4, v4)
            &&& crate::mail::has_line(text, l5, v5)
            &&& crate::mail::has_line(text, l6, v6)
            &&& crate::mail::has_line(text, l7, v7)
        }),
{
    let a1 = first;
    let a2 = a1 + (l1 + v1);
    let a3 = a2 + (l2 + v2);
    let a4 = a3 + (l3 + v3);
    let a5 = a4 + (l4 + v4);
    let a6 = a5 + (l5 + v5);
    let a7 = a6 + (l6 + v6);
    let text = a7 + (l7 + v7 + last);
    let r7 = last;
    let r6 = (l7 + v7) + r7;
    let r5 = (l6 + v6) + r6;
    let r4 = (l5 + v5) + r5;
    let r3 = (l4 + v4) + r4;
    let r2 = (l3 + v3) + r3;
    let r1 = (l2 + v2) + r2;
    lemma_step(a7, l7 + v7, r7);
    assert(text == a7 + (l7 + v7) + r7);
    lemma_is_a_line(text, a7, l7, v7, r7);
    lemma_step(a6, l6 + v6, r6);
    assert(text == a6 + (l6 + v6) + r6);
    lemma_is_a_line(text, a6, l6, v6, r6);
    lemma_step(a5, l5 + v5, r5);
    assert(text == a5 + (l5 + v5) + r5);
    lemma_is_a_line(text, a5, l5, v5, r5);
    lemma_step(a4, l4 + v4, r4);
    assert(text == a4 + (l4 + v4) + r4);
    lemma_is_a_line(text, a4, l4, v4, r4);
    lemma_step(a3, l3 + v3, r3);
    assert(text == a3 + (l3 + v3) + r3);
    lemma_is_a_line(text, a3, l3, v3, r3);
    lemma_step(a2, l2 + v2, r2);
    assert(text == a2 + (l2 + v2) + r2);
    lemma_is_a_line(text, a2, l2, v2, r2);
    lemma_step(a1, l1 + v1, r1);
    assert(text == a1 + (l1 + v1) + r1);
    lemma_is_a_line(text, a1, l1, v1, r1);
}

proof fn lemma_step(a: Seq<char>, b: Seq<char>, c: Seq<char>)
    ensures
        a + b + c == a + (b + c),
{
    assert(a + b + c =~= a + (b + c));
}

/// The issuer is told all of a license, each claim on a line of its own behind
/// its name, and the ledger that it went to.
pub proof fn lemma_summary_tells_the_license(c: Claims, ledger: Seq<char>)
    ensures
        ({
            let text = summary_words(c, ledger);
            &&& crate::mail::has_line(text, "  tier:       "@, c.tier@)
            &&& crate::mail::has_line(text, "  expires:    "@, expiry_words(c.expires_at))
            &&& crate::mail::has_line(
                text,
                "  features:   "@,
                crate::text::joined(crate::text::texts(c.features@), ", "@),
            )
            &&& crate::mail::has_line(text, "  max_orgs:   "@, limit_words(c.max_orgs))
            &&& crate::mail::has_line(text, "  max_seats:  "@, limit_words(c.max_seats))
            &&& crate::mail::has_line(text, "  ledger:     "@, ledger)
            &&& crate::mail::has_line(text, "  product:    "@, c.product@)
            &&& crate::mail::has_line(
                text,
                "Issued license "@,
                c.license_id@ + " for "@ + c.customer@ + " <"@ + c.email@ + ">"@,
            )
        }),
{
    let text = summary_words(c, ledger);
    let features = crate::text::joined(crate::text::texts(c.features@), ", "@);
    let head = "\nIssued license "@ + c.license_id@ + " for "@ + (c.customer@ + " <"@ + c.email@);
    let l1 = ">\n  product:    "@;
    let l2 = "\n  tier:       "@;
    let l3 = "\n  expires:    "@;
    let l4 = "\n  features:   "@;
    let l5 = "\n  max_orgs:   "@;
    let l6 = "\n  max_seats:  "@;
    let l7 = "\n  ledger:     "@;
    assert(l2[0] == '\n' && l2 =~= "\n"@ + "  tier:       "@) by {
        reveal_strlit("\n  tier:       ");
        reveal_strlit("\n");
        reveal_strlit("  tier:       ");
    }
    assert(l3[0] == '\n' && l3 =~= "\n"@ + "  expires:    "@) by {
        reveal_strlit("\n  expires:    ");
        reveal_strlit("\n");
        reveal_strlit("  expires:    ");
    }
    assert(l4[0] == '\n' && l4 =~= "\n"@ + "  features:   "@) by {
        reveal_strlit("\n  features:   ");
        reveal_strlit("\n");
        reveal_strlit("  features:   ");
    }
    assert(l5[0] == '\n' && l5 =~= "\n"@ + "  max_orgs:   "@) by {
        reveal_strlit("\n  max_orgs:   ");
        reveal_strlit("\n");
        reveal_strlit("  max_orgs:   ");
    }
    assert(l6[0] == '\n' && l6 =~= "\n"@ + "  max_seats:  "@) by {
        reveal_strlit("\n  max_seats:  ");
        reveal_strlit("\n");
        reveal_strlit("  max_seats:  ");
    }
    assert(l7[0] == '\n' && l7 =~= "\n"@ + "  ledger:     "@) by {
        reveal_strlit("\n  ledger:     ");
        reveal_strlit("\n");
        reveal_strlit("  ledger:     ");
    }
    assert(l1 =~= ">\n"@ + "  product:    "@) by {
        reveal_strlit(">\n  product:    ");
        reveal_strlit(">\n");
        reveal_strlit("  product:    ");
    }
    assert("\n"@.len() == 1 && "\n"@[0] == '\n') by {
        reveal_strlit("\n");
    }
    lemma_lines(
        head,
        l1,
        c.product@,
        l2,
        c.tier@,
        l3,
        expiry_words(c.expires_at),
        l4,
        features,
        l5,
        limit_words(c.max_orgs),
        l6,
        limit_words(c.max_seats),
        l7,
        ledger,
        "\n"@,
    );
    lemma_shorter_label(text, ">\n"@, "  product:    "@, c.product@);
    lemma_shorter_label(text, "\n"@, "  tier:       "@, c.tier@);
    lemma_shorter_label(text, "\n"@, "  expires:    "@, expiry_words(c.expires_at));
    lemma_shorter_label(text, "\n"@, "  features:   "@, features);
    lemma_shorter_label(text, "\n"@, "  max_orgs:   "@, limit_words(c.max_orgs));
    lemma_shorter_label(text, "\n"@, "  max_seats:  "@, limit_words(c.max_seats));
    lemma_shorter_label(text, "\n"@, "  ledger:     "@, ledger);
    let after = c.product@ + (l2 + c.tier@) + (l3 + expiry_words(c.expires_at)) + (l4 + features) + (
    l5 + limit_words(c.max_orgs)) + (l6 + limit_words(c.max_seats)) + (l7 + ledger + "\n"@);
    assert("\nIssued license "@ =~= "\n"@ + "Issued license "@) by {
        reveal_strlit("\nIssued license ");
        reveal_strlit("\n");
        reveal_strlit("Issued license ");
    }
    assert(l1 =~= ">"@ + "\n  product:    "@) by {
        reveal_strlit(">\n  product:    ");
        reveal_strlit(">");
        reveal_strlit("\n  product:    ");
    }
    assert("\n  product:    "@ =~= "\n"@ + "  product:    "@) by {
        reveal_strlit("\n  product:    ");
        reveal_strlit("\n");
        reveal_strlit("  product:    ");
    }
    lemma_tail(
        head,
        l1,
        c.product@,
        l2 + c.tier@,
        l3 + expiry_words(c.expires_at),
        l4 + features,
        l5 + limit_words(c.max_orgs),
        l6 + limit_words(c.max_seats),
        l7 + ledger + "\n"@,
    );
    lemma_head(
        "\n"@,
        "Issued license "@,
        c.license_id@,
        " for "@,
        c.customer@,
        " <"@,
        c.email@,
        ">"@,
        "  product:    "@,
        after,
    );
}

proof fn lemma_shorter_label(text: Seq<char>, start: Seq<char>, label: Seq<char>, value: Seq<char>)
    requires
        crate::mail::has_line(text, start + label, value),
    ensures
        crate::mail::has_line(text, label, value),
{
    let (before, after) = choose|before: Seq<char>, after: Seq<char>|
        text == #[trigger] (before + (start + label + value + "\n"@ + after));
    assert(text =~= (before + start) + (label + value + "\n"@ + after));
}

proof fn lemma_tail(
    head: Seq<char>,
    label: Seq<char>,
    value: Seq<char>,
    a: Seq<char>,
    b: Seq<char>,
    c: Seq<char>,
    d: Seq<char>,
    e: Seq<char>,
    f: Seq<char>,
)
    ensures
        head + (label + value) + a + b + c + d + e + f == head + label + (value + a + b + c + d + e
            + f),
{
    assert(head + (label + value) + a + b + c + d + e + f =~= head + label + (value + a + b + c + d
        + e + f));
}

proof fn lemma_head(
    line: Seq<char>,
    label: Seq<char>,
    id: Seq<char>,
    whose: Seq<char>,
    customer: Seq<char>,
    open: Seq<char>,
    email: Seq<char>,
    close: Seq<char>,
    next: Seq<char>,
    after: Seq<char>,
)
    requires
        line == "\n"@,
    ensures
        crate::mail::has_line(
            (line + label) + id + whose + (customer + open + email) + (close + (line + next))
                + after,
            label,
            id + whose + customer + open + email + close,
        ),
{
    let text = (line + label) + id + whose + (customer + open + email) + (close + (line + next))
        + after;
    let value = id + whose + customer + open + email + close;
    let rest = next + after;
    assert(text =~= line + (label + value + "\n"@ + rest));
}

/// What is asked for is what the license says: each field as it is, and the
/// expiry as the last second of the day that was named, if one was.
pub proof fn lemma_request_is_kept(q: IssueRequest)
    ensures
        ({
            let p = requested(q);
            &&& p.product == q.product@
            &&& p.customer == q.customer@
            &&& p.email == q.email@
            &&& p.tier == q.tier@
            &&& p.features == crate::text::texts(q.features@)
            &&& p.max_orgs == q.max_orgs
            &&& p.max_seats == q.max_seats
            &&& p.note == q.note@
            &&& q.expires is None ==> p.expires_at is None && expiry_problem(q) is None
            &&& q.expires is Some ==> match crate::dates::day_in(q.expires->0@, "%Y-%m-%d"@) {
                Ok(day) => expiry_problem(q) is None && p.expires_at is Some && p.expires_at->0 == (
                day - 719163) * 86400 + 86399,
                Err(words) => expiry_problem(q) == Some(words),
            }
        }),
{
}

/// The report on a license that was asked for has the license on the standard
/// output, alone on its line; the license says what was asked for, and the
/// ledger and the summary say what the license does.
pub proof fn lemma_report_is_on_the_license(
    report: IssueReport,
    q: IssueRequest,
    ledger: Seq<char>,
    now: i64,
    random: Seq<u8>,
    seed: Seq<u8>,
)
    requires
        is_report(report, q, ledger, now, random, seed),
    ensures
        report.stdout@ == report.issued.blob@ + "\n"@,
        report.stderr@ == summary_words(report.issued.claims, ledger),
        records(report.row, report.issued.claims),
        report.issued.claims.product@ == q.product@,
        report.issued.claims.customer@ == q.customer@,
        report.issued.claims.email@ == q.email@,
        report.issued.claims.tier@ == q.tier@,
        report.issued.claims.max_orgs == q.max_orgs,
        report.issued.claims.max_seats == q.max_seats,
        report.issued.claims.note@ == q.note@,
        report.issued.claims.issued_at == now,
        report.issued.claims.expires_at == requested_expiry(q),
        report.issued.blob@ == crate::codec::blob_text(report.issued.claims@, seed),
        report.issued.blob@.len() <= crate::codec::MAX_BLOB_B64_LEN
            ==> crate::codec::opens_by_signature(report.issued.blob@, report.issued.claims@, seed),
{
}

/// A date that is none is named in the error, with the reason.
pub proof fn lemma_bad_expiry_names_the_text(e: IssuerError, of: Seq<char>, words: Seq<char>)
    ensures
        is_bad_expiry(e, of, words) ==> e is BadExpiry && e->text@ == of && e->BadExpiry_reason@
            == words,
{
}

/// What went wrong is told with the files, the date or the reason that it is
/// about.
pub proof fn lemma_issuer_errors_in_words(e: IssuerError)
    ensures
        match e {
            IssuerError::KeysExist { private, public } => (private@ + " or "@
                + public@).is_prefix_of(issuer_error_words(e)),
            IssuerError::BadExpiry { text, .. } => crate::text::occurs_in(
                text@ + " (want YYYY-MM-DD)"@,
                issuer_error_words(e),
            ),
            IssuerError::VerificationFailed(reason) => reason@.is_suffix_of(issuer_error_words(e)),
            IssuerError::Issue(inner) => issuer_error_words(e) == crate::codec::error_words(inner@),
        },
{
    let words = issuer_error_words(e);
    match e {
        IssuerError::KeysExist { private, public } => {
            let both = private@ + " or "@ + public@;
            assert(words.subrange(0, both.len() as int) =~= both);
        },
        IssuerError::BadExpiry { text, .. } => {
            let needle = text@ + " (want YYYY-MM-DD)"@;
            crate::text::lemma_occurs_last("parse --expires "@, needle);
            assert(words =~= "parse --expires "@ + needle);
        },
        IssuerError::VerificationFailed(reason) => {
            assert(words.subrange(words.len() - reason@.len(), words.len() as int) =~= reason@);
        },
        IssuerError::Issue(_) => {},
    }
}

} // verus!
