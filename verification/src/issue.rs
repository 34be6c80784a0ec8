//! Minting licenses.

use crate::claims::{Claims, ClaimsView, CLAIMS_VERSION};
use crate::codec::{encode, Error, MAX_BLOB_B64_LEN};
use crate::encoding::hex_encode;
use crate::keys::SigningKey;
use rand::RngCore;
use vstd::prelude::*;

verus! {

/// What a license is to say. The time of issue and the identifier are not
/// among it: they are stamped when the license is minted.
#[derive(Debug)]
pub struct IssueParams {
    pub product: String,
    pub customer: String,
    pub email: String,
    pub tier: String,
    pub expires_at: Option<i64>,
    pub features: Vec<String>,
    pub max_orgs: Option<u32>,
    pub max_seats: Option<u32>,
    pub note: String,
}

/// The mathematical content of [`IssueParams`].
#[verifier::ext_equal]
pub struct IssueParamsView {
    pub product: Seq<char>,
    pub customer: Seq<char>,
    pub email: Seq<char>,
    pub tier: Seq<char>,
    pub expires_at: Option<i64>,
    pub features: Seq<Seq<char>>,
    pub max_orgs: Option<u32>,
    pub max_seats: Option<u32>,
    pub note: Seq<char>,
}

impl View for IssueParams {
    type V = IssueParamsView;

    open spec fn view(&self) -> IssueParamsView {
        IssueParamsView {
            product: self.product@,
            customer: self.customer@,
            email: self.email@,
            tier: self.tier@,
            expires_at: self.expires_at,
            features: crate::text::texts(self.features@),
            max_orgs: self.max_orgs,
            max_seats: self.max_seats,
            note: self.note@,
        }
    }
}

/// A license that was minted: its blob, and what it says.
#[derive(Debug)]
pub struct Issued {
    pub blob: String,
    pub claims: Claims,
}

/// Sixteen bytes as those of a version 4 UUID: the version and the variant
/// stand in the high bits of two of them.
pub open spec fn uuid_bytes(random: Seq<u8>) -> Seq<u8> {
    random.update(6, (random[6] % 16 + 64) as u8).update(8, (random[8] % 64 + 128) as u8)
}

/// The identifier that some random bytes give.
pub open spec fn license_id_of(random: Seq<u8>) -> Seq<char> {
    crate::encoding::hex_of(uuid_bytes(random))
}

/// The claims of a license that is minted with an identifier at a time.
pub open spec fn issued_claims(p: IssueParamsView, now: i64, license_id: Seq<char>) -> ClaimsView {
    ClaimsView {
        v: CLAIMS_VERSION,
        license_id,
        customer: p.customer,
        email: p.email,
        tier: p.tier,
        product: p.product,
        issued_at: now,
        expires_at: p.expires_at,
        features: p.features,
        max_orgs: p.max_orgs,
        max_seats: p.max_seats,
        note: p.note,
    }
}

/// `rand::rngs::OsRng`, through `RngCore::fill_bytes`: bytes from the
/// operating system's source of randomness. They may be any. Without such a
/// source the call panics.
#[verifier::external_body]
pub(crate) fn random_bytes<const N: usize>() -> (bytes: [u8; N]) {
    let mut bytes = [0u8; N];
    rand::rngs::OsRng.fill_bytes(&mut bytes);
    bytes
}

/// The identifier of a license: the hexadecimal digits of a version 4 UUID.
pub fn license_id(random: [u8; 16]) -> (id: String)
    ensures
        id@ == license_id_of(random@),
        id@.len() == 32,
{
    let mut bytes = random;
    bytes[6] = bytes[6] % 16 + 64;
    bytes[8] = bytes[8] % 64 + 128;
    assert(bytes@ =~= uuid_bytes(random@));
    hex_encode(&bytes)
}

/// Whether what was minted is the license for some parameters, signed with a
/// private key.
pub open spec fn is_license(issued: Issued, c: ClaimsView, seed: Seq<u8>) -> bool {
    &&& issued.claims@ == c
    &&& issued.blob@ == crate::codec::blob_text(c, seed)
    &&& issued.blob@.len() <= MAX_BLOB_B64_LEN && !crate::keys::has_neutral_commitment(
        crate::codec::signed(c, seed).signature,
    ) ==> crate::codec::reads_as_signed(issued.blob@, c, crate::keys::public_key_of(seed))
    &&& issued.blob@.len() <= MAX_BLOB_B64_LEN ==> crate::codec::opens_by_signature(
        issued.blob@,
        c,
        seed,
    )
}

/// Whether claims say what was asked for, field by field, at a time.
pub open spec fn says_what_was_asked(c: Claims, p: IssueParams, now: i64) -> bool {
    &&& c.v == CLAIMS_VERSION
    &&& c.product == p.product
    &&& c.customer == p.customer
    &&& c.email == p.email
    &&& c.tier == p.tier
    &&& c.issued_at == now
    &&& c.expires_at == p.expires_at
    &&& c.features == p.features
    &&& c.max_orgs == p.max_orgs
    &&& c.max_seats == p.max_seats
    &&& c.note == p.note
}

/// Mints a license whose identifier comes from the given random bytes.
pub fn issue_with(
    params: IssueParams,
    now_unix: i64,
    random: [u8; 16],
    signing_key: &SigningKey,
) -> (r: Result<Issued, Error>)
    ensures
        r is Ok,
        is_license(
            r->Ok_0,
            issued_claims(params@, now_unix, license_id_of(random@)),
            signing_key@,
        ),
        says_what_was_asked(r->Ok_0.claims, params, now_unix),
        r->Ok_0.claims.product@ == params.product@,
        r->Ok_0.claims.customer@ == params.customer@,
        r->Ok_0.claims.email@ == params.email@,
        r->Ok_0.claims.tier@ == params.tier@,
        r->Ok_0.claims.expires_at == params.expires_at,
        r->Ok_0.claims.features@ == params.features@,
        r->Ok_0.claims.max_orgs == params.max_orgs,
        r->Ok_0.claims.max_seats == params.max_seats,
        r->Ok_0.claims.note@ == params.note@,
        r->Ok_0.claims.issued_at == now_unix,
        r->Ok_0.claims.v == CLAIMS_VERSION,
        r->Ok_0.claims.license_id@ == license_id_of(random@),
        r->Ok_0.blob@.len() <= MAX_BLOB_B64_LEN ==> crate::codec::opens_by_signature(
            r->Ok_0.blob@,
            r->Ok_0.claims@,
            signing_key@,
        ),
{
    let claims = Claims {
        v: CLAIMS_VERSION,
        license_id: license_id(random),
        customer: params.customer,
        email: params.email,
        tier: params.tier,
        product: params.product,
        issued_at: now_unix,
        expires_at: params.expires_at,
        features: params.features,
        max_orgs: params.max_orgs,
        max_seats: params.max_seats,
        note: params.note,
    };
    let blob = match encode(&claims, signing_key) {
        Ok(b) => b,
        Err(e) => return Err(e),
    };
    Ok(Issued { blob, claims })
}

/// Mints a license, with an identifier drawn at random.
pub fn issue(params: IssueParams, now_unix: i64, signing_key: &SigningKey) -> (r: Result<
    Issued,
    Error,
>)
    ensures
        r is Ok,
        exists|random: Seq<u8>|
            random.len() == 16 && #[trigger] is_license(
                r->Ok_0,
                issued_claims(params@, now_unix, license_id_of(random)),
                signing_key@,
            ),
        says_what_was_asked(r->Ok_0.claims, params, now_unix),
        r->Ok_0.claims.max_orgs == params.max_orgs,
        r->Ok_0.claims.max_seats == params.max_seats,
        r->Ok_0.claims.expires_at == params.expires_at,
        r->Ok_0.claims.features@ == params.features@,
{
    let random: [u8; 16] = random_bytes();
    let r = issue_with(params, now_unix, random, signing_key);
    assert(random@.len() == 16);
    r
}

/// An identifier is that of a version 4 UUID: 32 digits, with a 4 in the
/// thirteenth place and one of 8, 9, a and b in the seventeenth.
pub proof fn lemma_license_id_is_uuid(random: Seq<u8>)
    requires
        random.len() == 16,
    ensures
        license_id_of(random).len() == 32,
        license_id_of(random)[12] == '4',
        "89ab"@.contains(license_id_of(random)[16]),
{
    let b = uuid_bytes(random);
    assert(b[6] as int / 16 == 4);
    let high = b[8] as int / 16;
    assert(8 <= high <= 11);
    reveal_strlit("89ab");
    assert("89ab"@[0] == '8' && "89ab"@[1] == '9' && "89ab"@[2] == 'a' && "89ab"@[3] == 'b');
    assert("89ab"@[high - 8] == license_id_of(random)[16]);
}

/// A license says what it was asked to say, each thing under its own name, and
/// says so to whoever verifies it: the claims that its blob opens to are these.
pub proof fn lemma_license_says_what_was_asked(
    issued: Issued,
    p: IssueParamsView,
    now: i64,
    id: Seq<char>,
    seed: Seq<u8>,
    keys: Seq<Seq<u8>>,
)
    requires
        is_license(issued, issued_claims(p, now, id), seed),
        issued.blob@.len() <= MAX_BLOB_B64_LEN,
        crate::codec::decoded(issued.blob@, keys) is Ok,
    ensures
        ({
            let c = crate::codec::decoded(issued.blob@, keys)->Ok_0;
            &&& c.customer == p.customer
            &&& c.email == p.email
            &&& c.product == p.product
            &&& c.tier == p.tier
            &&& c.expires_at == p.expires_at
            &&& c.features == p.features
            &&& c.max_orgs == p.max_orgs
            &&& c.max_seats == p.max_seats
            &&& c.note == p.note
            &&& c.issued_at == now
            &&& c.license_id == id
            &&& c.v == 1
            &&& issued.claims@ == c
        }),
{
}

/// Two licenses say the same exactly if they were asked to say the same, at the
/// same time, under the same identifier.
pub proof fn lemma_licenses_differ_as_requests_do(
    p: IssueParamsView,
    now: i64,
    id: Seq<char>,
    q: IssueParamsView,
    later: i64,
    other: Seq<char>,
)
    ensures
        issued_claims(p, now, id) == issued_claims(q, later, other) <==> p == q && now == later
            && id == other,
{
    if issued_claims(p, now, id) == issued_claims(q, later, other) {
        assert(p =~= q);
    }
}

/// A limit that is raised, lowered or taken away is so in the license, and
/// nothing else in it changes.
pub proof fn lemma_limits_are_kept_apart(
    p: IssueParamsView,
    now: i64,
    id: Seq<char>,
    orgs: Option<u32>,
    seats: Option<u32>,
)
    ensures
        issued_claims(IssueParamsView { max_orgs: orgs, max_seats: seats, ..p }, now, id) == (
        ClaimsView { max_orgs: orgs, max_seats: seats, ..issued_claims(p, now, id) }),
{
}

/// Different random bytes give different identifiers, but for the six bits that
/// say which version of a UUID it is.
pub proof fn lemma_identifiers_follow_the_bytes(a: Seq<u8>, b: Seq<u8>, i: int)
    requires
        a.len() == 16,
        b.len() == 16,
        0 <= i < 16,
        i != 6,
        i != 8,
        a[i] != b[i],
    ensures
        license_id_of(a) != license_id_of(b),
{
    let x = license_id_of(a);
    let y = license_id_of(b);
    assert(uuid_bytes(a)[i] == a[i] && uuid_bytes(b)[i] == b[i]);
    assert((2 * i) / 2 == i && (2 * i) % 2 == 0 && (2 * i + 1) / 2 == i && (2 * i + 1) % 2 == 1);
    if x == y {
        assert(x[2 * i] == y[2 * i] && x[2 * i + 1] == y[2 * i + 1]);
        crate::text::lemma_digits_differ(a[i] as int / 16, b[i] as int / 16);
        crate::text::lemma_digits_differ(a[i] as int % 16, b[i] as int % 16);
        assert(a[i] as int == 16 * (a[i] as int / 16) + a[i] as int % 16);
        assert(b[i] as int == 16 * (b[i] as int / 16) + b[i] as int % 16);
    }
}

} // verus!
