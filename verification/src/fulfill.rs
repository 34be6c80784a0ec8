//! Fulfillment: from a paid checkout session to a stored license.
//!
//! The steps between the shop's outside calls are the functions here. Each
//! takes what a call gave, and says what comes next: the result, or the next
//! call. A visit to the success page goes
//!
//! 1. [`after_stored`], on the license stored for the session, if any;
//! 2. [`after_cache`], on what is remembered of the session;
//! 3. [`after_retrieved`], on what Stripe says of the session;
//! 4. [`after_stored_again`], on the license stored by then, if any;
//! 5. [`after_insert`], on the row that holds after the insertion.
//!
//! A report from Stripe brings the session along, and starts with
//! [`after_report`] in place of the first three.

use crate::cache::NegEntry;
use crate::catalog::{Catalog, Sku};
use crate::claims::ClaimsView;
use crate::codec::{Error, MAX_BLOB_B64_LEN};
use crate::db::{inserted_or_existing, StoredLicense};
use crate::issue::{issue_with, random_bytes, IssueParamsView};
use crate::mail::PurchaseNotice;
use crate::payments::{Payment, PaymentView, SessionInfo, SessionInfoView};
use crate::state::SigningKeys;
use crate::text::{chars_of, join2, join3, write_decimal};
use vstd::prelude::*;
use vstd::string::*;

verus! {

/// How a fulfillment ends.
#[derive(Debug)]
pub enum FulfillOutcome {
    /// The license is there.
    Ready(StoredLicense),
    /// There is no license yet: the session is not paid, or its payment is not
    /// the one for its plan.
    Pending,
    /// There is no such session.
    LookupFailed,
}

/// Why a fulfillment cannot go on.
#[derive(Debug)]
pub enum FulfillError {
    MissingSku,
    UnknownSku,
    NoSigningKey(String),
    Issue(Error),
    RowVanished,
}

impl FulfillError {
    /// The error in words. The session's identifier is not among them, since
    /// whoever has it can see the license.
    pub fn to_string(&self) -> (r: String)
        ensures
            r@ == match *self {
                FulfillError::MissingSku => "checkout session missing sku metadata"@,
                FulfillError::UnknownSku => "unknown sku in session metadata"@,
                FulfillError::NoSigningKey(category) => "no signing key for category "@ + category@,
                FulfillError::Issue(e) => crate::codec::error_words(e@),
                FulfillError::RowVanished => "row vanished after insert"@,
            },
    {
        match self {
            FulfillError::MissingSku => "checkout session missing sku metadata".to_owned(),
            FulfillError::UnknownSku => "unknown sku in session metadata".to_owned(),
            FulfillError::NoSigningKey(category) => join2("no signing key for category ", category),
            FulfillError::Issue(e) => e.to_string(),
            FulfillError::RowVanished => "row vanished after insert".to_owned(),
        }
    }
}

/// The longest name of a customer that goes into a license, in characters.
pub const MAX_NAME_LEN: usize = 200;

/// A control character.
pub open spec fn is_control(c: char) -> bool {
    c <= '\u{1f}' || '\u{7f}' <= c <= '\u{9f}'
}

/// A text without its control characters.
pub open spec fn without_controls(s: Seq<char>) -> Seq<char>
    decreases s.len(),
{
    if s.len() == 0 {
        Seq::empty()
    } else if is_control(s.last()) {
        without_controls(s.drop_last())
    } else {
        without_controls(s.drop_last()).push(s.last())
    }
}

/// What is left of a name that somebody typed: no control characters, and not
/// too many others.
pub open spec fn sanitized(s: Seq<char>) -> Seq<char> {
    let clean = without_controls(s);
    if clean.len() > MAX_NAME_LEN {
        clean.take(MAX_NAME_LEN as int)
    } else {
        clean
    }
}

/// Cleans a name that somebody typed.
pub fn sanitize(s: &str) -> (r: String)
    ensures
        r@ == sanitized(s@),
{
    let cs = chars_of(s);
    let mut clean = String::new();
    for i in 0..cs.len()
        invariant
            cs@ == s@,
            clean@ == without_controls(s@.take(i as int)),
    {
        assert(s@.take(i + 1).drop_last() =~= s@.take(i as int));
        let c = cs[i];
        if !(c <= '\u{1f}' || ('\u{7f}' <= c && c <= '\u{9f}')) {
            clean.push(c);
        }
    }
    assert(s@.take(s@.len() as int) =~= s@);
    if clean.as_str().unicode_len() > MAX_NAME_LEN {
        let head = clean.as_str().substring_char(0, MAX_NAME_LEN);
        assert(head@ =~= clean@.take(MAX_NAME_LEN as int));
        head.to_owned()
    } else {
        clean
    }
}

proof fn lemma_without_controls(s: Seq<char>)
    ensures
        forall|i: int|
            0 <= i < without_controls(s).len() ==> !is_control(#[trigger] without_controls(s)[i]),
    decreases s.len(),
{
    if s.len() > 0 {
        let before = without_controls(s.drop_last());
        lemma_without_controls(s.drop_last());
        assert forall|i: int| 0 <= i < without_controls(s).len() implies !is_control(
            #[trigger] without_controls(s)[i],
        ) by {
            if i < before.len() {
                assert(without_controls(s)[i] == before[i]);
            }
        }
    }
}

proof fn lemma_nothing_to_strip(s: Seq<char>)
    requires
        forall|i: int| 0 <= i < s.len() ==> !is_control(#[trigger] s[i]),
    ensures
        without_controls(s) == s,
    decreases s.len(),
{
    if s.len() > 0 {
        assert forall|i: int| 0 <= i < s.drop_last().len() implies !is_control(
            #[trigger] s.drop_last()[i],
        ) by {
            assert(s.drop_last()[i] == s[i]);
        }
        lemma_nothing_to_strip(s.drop_last());
        assert(s.drop_last().push(s.last()) =~= s);
    } else {
        assert(without_controls(s) =~= s);
    }
}

/// A cleaned name has no control characters and is not too long. Cleaning it
/// again changes nothing.
pub proof fn lemma_sanitized(s: Seq<char>)
    ensures
        sanitized(s).len() <= MAX_NAME_LEN,
        forall|i: int| 0 <= i < sanitized(s).len() ==> !is_control(#[trigger] sanitized(s)[i]),
        sanitized(sanitized(s)) == sanitized(s),
{
    lemma_without_controls(s);
    assert forall|i: int| 0 <= i < sanitized(s).len() implies !is_control(
        #[trigger] sanitized(s)[i],
    ) by {
        assert(sanitized(s)[i] == without_controls(s)[i]);
    }
    lemma_nothing_to_strip(sanitized(s));
}

/// Two digits.
pub open spec fn two_digits(n: nat) -> Seq<char> {
    if n < 10 {
        "0"@ + crate::text::decimal(n)
    } else {
        crate::text::decimal(n)
    }
}

/// An amount of money, as the whole and the hundredths.
pub open spec fn money(cents: i64) -> Seq<char> {
    let size = if cents < 0 {
        -(cents as int)
    } else {
        cents as int
    } as nat;
    (if cents < 0 {
        "-"@
    } else {
        ""@
    }) + crate::text::decimal(size / 100) + ("."@ + two_digits(size % 100))
}

/// The price of a plan in words: its label, or its currency and amount.
pub open spec fn label_of(sku: Sku) -> Seq<char> {
    if sku.price_label@.len() == 0 {
        sku.currency@ + " "@ + money(sku.amount_cents)
    } else {
        sku.price_label@
    }
}

fn write_money(cents: i64) -> (r: String)
    ensures
        r@ == money(cents),
{
    let size: u64 = if cents < 0 {
        (-(cents as i128)) as u64
    } else {
        cents as u64
    };
    let sign: &str = if cents < 0 {
        "-"
    } else {
        ""
    };
    let whole = write_decimal(size / 100);
    let part = write_decimal(size % 100);
    let hundredths = if size % 100 < 10 {
        join2("0", &part)
    } else {
        part
    };
    let head = join2(sign, &whole);
    let tail = join2(".", &hundredths);
    join2(&head, &tail)
}

/// The price of a plan in words.
pub fn price_label(sku: &Sku) -> (r: String)
    ensures
        r@ == label_of(*sku),
{
    if sku.price_label.as_str().is_empty() {
        let amount = write_money(sku.amount_cents);
        join3(&sku.currency, " ", &amount)
    } else {
        sku.price_label.clone()
    }
}

/// Who a license is for: the company, or the name if there is none.
pub open spec fn customer_of(s: SessionInfoView) -> Seq<char> {
    sanitized(
        match s.company {
            Some(c) => c,
            None => match s.name {
                Some(n) => n,
                None => Seq::empty(),
            },
        },
    )
}

/// Where a license is sent.
pub open spec fn email_of(s: SessionInfoView) -> Seq<char> {
    match s.email {
        Some(e) => e,
        None => Seq::empty(),
    }
}

fn customer(s: &SessionInfo) -> (r: String)
    ensures
        r@ == customer_of(s@),
{
    match &s.company {
        Some(c) => sanitize(c),
        None => match &s.name {
            Some(n) => sanitize(n),
            None => {
                let r = String::new();
                assert(r@ =~= sanitized(Seq::empty()));
                r
            },
        },
    }
}

/// What a license for a session says.
pub open spec fn license_params(sku: Sku, s: SessionInfoView, now: i64) -> IssueParamsView {
    IssueParamsView {
        product: sku.category@,
        customer: customer_of(s),
        email: email_of(s),
        tier: sku.tier@,
        expires_at: match sku.term {
            crate::catalog::Term::Lifetime => None,
            crate::catalog::Term::Days(d) => Some(
                (now + d * crate::catalog::DAY_SECONDS) as i64,
            ),
        },
        features: crate::text::texts(sku.features@),
        max_orgs: sku.max_orgs,
        max_seats: sku.max_seats,
        note: "web:"@ + s.id,
    }
}

/// A license that was minted for a session, and what goes with it.
#[derive(Debug)]
pub struct Minted {
    pub record: StoredLicense,
    pub expires_at: Option<i64>,
    pub product_display: String,
    pub price_label: String,
}

/// Whether a record holds a license with some claims, signed with a private
/// key: whoever has the public key reads the claims from its blob.
pub open spec fn holds_license(r: StoredLicense, c: ClaimsView, seed: Seq<u8>) -> bool {
    &&& r.license_id@ == c.license_id
    &&& r.product@ == c.product
    &&& r.customer@ == c.customer
    &&& r.email@ == c.email
    &&& r.issued_at == c.issued_at
    &&& r.blob@ == crate::codec::blob_text(c, seed)
    &&& r.blob@.len() <= MAX_BLOB_B64_LEN && !crate::keys::has_neutral_commitment(
        crate::codec::signed(c, seed).signature,
    ) ==> crate::codec::reads_as_signed(r.blob@, c, crate::keys::public_key_of(seed))
    &&& r.blob@.len() <= MAX_BLOB_B64_LEN ==> crate::codec::opens_by_signature(r.blob@, c, seed)
}

/// Whether a license was minted for a session, with the key of the plan's
/// category.
pub open spec fn is_minted(
    m: Minted,
    sku: Sku,
    s: SessionInfoView,
    seed: Seq<u8>,
    now: i64,
    random: Seq<u8>,
) -> bool {
    let c = crate::issue::issued_claims(
        license_params(sku, s, now),
        now,
        crate::issue::license_id_of(random),
    );
    &&& m.record.stripe_session_id@ == s.id
    &&& m.record.sku@ == sku.id@
    &&& holds_license(m.record, c, seed)
    &&& m.expires_at == c.expires_at
    &&& m.product_display@ == sku.display_name@
    &&& m.price_label@ == label_of(sku)
}

/// A session that is paid.
pub struct PaidSession {
    session: SessionInfo,
    payment: Payment,
    by_visit: bool,
}

impl PaidSession {
    /// The session.
    pub closed spec fn session(&self) -> SessionInfoView {
        self.session@
    }

    /// What was paid in it.
    pub closed spec fn payment(&self) -> PaymentView {
        self.payment@
    }

    /// Whether a visit to the success page brought it up, and not a report.
    pub closed spec fn by_visit(&self) -> bool {
        self.by_visit
    }

    #[verifier::type_invariant]
    spec fn is_paid(self) -> bool {
        self.session.paid
    }

    /// The identifier of the session, under which its license is stored.
    pub fn id(&self) -> (r: &str)
        ensures
            r@ == self.session().id,
    {
        &self.session.id
    }

    /// Every session of this type is paid.
    pub fn paid(&self) -> (r: bool)
        ensures
            r,
            self.session().paid,
    {
        proof {
            use_type_invariant(self);
        }
        self.session.paid
    }
}

/// The result of a fulfillment, and what else is to be done.
#[derive(Debug)]
pub struct Finished {
    pub outcome: FulfillOutcome,
    /// What to remember of the session.
    pub remember: Option<NegEntry>,
    /// What to tell by email.
    pub notice: Option<PurchaseNotice>,
}

/// The result that a stored license is.
pub open spec fn ready(stored: StoredLicense) -> Finished {
    Finished { outcome: FulfillOutcome::Ready(stored), remember: None, notice: None }
}

/// The result that there is no license yet.
pub open spec fn pending(remember: Option<NegEntry>) -> Finished {
    Finished { outcome: FulfillOutcome::Pending, remember, notice: None }
}

/// The result that there is no such session.
pub open spec fn lookup_failed(remember: Option<NegEntry>) -> Finished {
    Finished { outcome: FulfillOutcome::LookupFailed, remember, notice: None }
}

/// What comes next, or the result.
#[derive(Debug)]
pub enum Next<T> {
    Finish(Finished),
    Go(T),
}

/// Next, what is remembered of the session is looked up.
#[derive(Debug)]
pub struct ConsultCache {}

/// Next, Stripe is asked about the session.
#[derive(Debug)]
pub struct RetrieveSession {}

/// What comes after the stored license was looked up.
pub open spec fn is_after_stored(r: Next<ConsultCache>, stored: Option<StoredLicense>) -> bool {
    match stored {
        Some(lic) => r == Next::<ConsultCache>::Finish(ready(lic)),
        None => r is Go,
    }
}

/// A license that is stored already is the result, whatever is remembered of
/// the session.
pub fn after_stored(stored: Option<StoredLicense>) -> (r: Next<ConsultCache>)
    ensures
        is_after_stored(r, stored),
{
    match stored {
        Some(lic) => Next::Finish(
            Finished { outcome: FulfillOutcome::Ready(lic), remember: None, notice: None },
        ),
        None => Next::Go(ConsultCache {  }),
    }
}

/// What comes after it was looked up what is remembered of the session.
pub open spec fn is_after_cache(r: Next<RetrieveSession>, remembered: Option<NegEntry>) -> bool {
    match remembered {
        Some(NegEntry::Unpaid) => r == Next::<RetrieveSession>::Finish(pending(None)),
        Some(NegEntry::NotFound) => r == Next::<RetrieveSession>::Finish(lookup_failed(None)),
        None => r is Go,
    }
}

/// A session that could not be fulfilled a moment ago is answered as it was
/// then. Only of others Stripe is asked.
pub fn after_cache(remembered: Option<NegEntry>) -> (r: Next<RetrieveSession>)
    ensures
        is_after_cache(r, remembered),
{
    match remembered {
        Some(NegEntry::Unpaid) => Next::Finish(
            Finished { outcome: FulfillOutcome::Pending, remember: None, notice: None },
        ),
        Some(NegEntry::NotFound) => Next::Finish(
            Finished { outcome: FulfillOutcome::LookupFailed, remember: None, notice: None },
        ),
        None => Next::Go(RetrieveSession {  }),
    }
}

/// What comes after Stripe was asked about the session.
pub open spec fn is_after_retrieved(
    r: Next<PaidSession>,
    found: Option<(SessionInfo, Payment)>,
) -> bool {
    match found {
        None => r == Next::<PaidSession>::Finish(lookup_failed(Some(NegEntry::NotFound))),
        Some((session, payment)) => if session.paid {
            r matches Next::Go(p) && p.session() == session@ && p.payment() == payment@
                && p.by_visit()
        } else {
            r == Next::<PaidSession>::Finish(pending(Some(NegEntry::Unpaid)))
        },
    }
}

/// A session that Stripe does not know is the result, and remembered. One that
/// is not paid is pending, and remembered.
pub fn after_retrieved(found: Option<(SessionInfo, Payment)>) -> (r: Next<PaidSession>)
    ensures
        is_after_retrieved(r, found),
{
    match found {
        None => Next::Finish(
            Finished {
                outcome: FulfillOutcome::LookupFailed,
                remember: Some(NegEntry::NotFound),
                notice: None,
            },
        ),
        Some((session, payment)) => {
            if session.paid {
                Next::Go(PaidSession { session, payment, by_visit: true })
            } else {
                Next::Finish(
                    Finished {
                        outcome: FulfillOutcome::Pending,
                        remember: Some(NegEntry::Unpaid),
                        notice: None,
                    },
                )
            }
        },
    }
}

/// What comes after Stripe reported a session.
pub open spec fn is_after_report(
    r: Next<PaidSession>,
    session: SessionInfo,
    payment: Payment,
) -> bool {
    if session.paid {
        r matches Next::Go(p) && p.session() == session@ && p.payment() == payment@
            && !p.by_visit()
    } else {
        r == Next::<PaidSession>::Finish(pending(None))
    }
}

/// A session that Stripe reports, but that is not paid, is pending.
pub fn after_report(session: SessionInfo, payment: Payment) -> (r: Next<PaidSession>)
    ensures
        is_after_report(r, session, payment),
{
    if session.paid {
        Next::Go(PaidSession { session, payment, by_visit: false })
    } else {
        Next::Finish(Finished { outcome: FulfillOutcome::Pending, remember: None, notice: None })
    }
}

/// The shop as fulfillment sees it.
pub struct Shop<'a> {
    pub catalog: &'a Catalog,
    pub signing: &'a SigningKeys,
    /// Whether its Stripe key moves real money.
    pub live: bool,
}

/// Why no license can be minted for a session.
pub open spec fn mint_problem(shop: Shop, s: SessionInfoView) -> Option<FulfillError> {
    match s.sku {
        None => Some(FulfillError::MissingSku),
        Some(id) => match crate::catalog::sku_with(shop.catalog.skus@, id) {
            None => Some(FulfillError::UnknownSku),
            Some(sku) => if shop.signing.key_of(sku.category@) is None {
                Some(FulfillError::NoSigningKey(sku.category))
            } else {
                None
            },
        },
    }
}

/// The plan that a session is for.
pub open spec fn sku_of_session(shop: Shop, s: SessionInfoView) -> Sku {
    crate::catalog::sku_with(shop.catalog.skus@, s.sku->0)->0
}

/// Whether a license is minted for a session: its payment is the one for its
/// plan.
pub open spec fn is_payable(shop: Shop, s: SessionInfoView, p: PaymentView) -> bool {
    crate::payments::pays_for(p, sku_of_session(shop, s), shop.live)
}

/// What a session is remembered as while there is no license for it.
pub open spec fn unpaid_if(by_visit: bool) -> Option<NegEntry> {
    if by_visit {
        Some(NegEntry::Unpaid)
    } else {
        None
    }
}

/// Whether the license for a session could be dated at a time, if its plan is
/// one of the shop's.
pub open spec fn can_date(shop: Shop, s: SessionInfoView, now: int) -> bool {
    match s.sku {
        Some(id) => crate::catalog::sku_with(shop.catalog.skus@, id) matches Some(sku)
            ==> crate::catalog::expiry_fits(sku.term, now),
        None => true,
    }
}

impl PaidSession {
    /// Whether the license for the session could be dated at a time.
    pub fn can_be_dated(&self, shop: &Shop, now: i64) -> (r: bool)
        ensures
            r == can_date(*shop, self.session(), now as int),
    {
        match &self.session.sku {
            Some(id) => match shop.catalog.by_id(id) {
                Some(sku) => sku.can_date(now),
                None => true,
            },
            None => true,
        }
    }
}

/// With an accepted catalog, the license for every session can be dated, at every
/// time up to a hundred years before the last second that there is.
pub proof fn lemma_sessions_can_be_dated(shop: Shop, s: SessionInfoView, now: i64)
    requires
        crate::catalog::valid_catalog(*shop.catalog),
        now <= i64::MAX - crate::catalog::MAX_TERM_DAYS * crate::catalog::DAY_SECONDS,
    ensures
        can_date(shop, s, now as int),
{
    crate::catalog::lemma_accepted_terms_fit(*shop.catalog, now);
    if let Some(id) = s.sku {
        crate::catalog::lemma_sku_with_is_listed(shop.catalog.skus@, id);
    }
}

/// What comes after the stored license of a paid session was looked up again, if
/// the random bytes are those given.
pub open spec fn is_after_stored_again(
    r: Result<Next<Minted>, FulfillError>,
    shop: Shop,
    paid: PaidSession,
    stored: Option<StoredLicense>,
    now: i64,
    random: Seq<u8>,
) -> bool {
    match stored {
        Some(lic) => r == Ok::<Next<Minted>, FulfillError>(Next::Finish(ready(lic))),
        None => match mint_problem(shop, paid.session()) {
            Some(e) => r == Err::<Next<Minted>, FulfillError>(e),
            None => if is_payable(shop, paid.session(), paid.payment()) {
                r matches Ok(Next::Go(m)) && is_minted(
                    m,
                    sku_of_session(shop, paid.session()),
                    paid.session(),
                    shop.signing.key_of(sku_of_session(shop, paid.session()).category@)->0,
                    now,
                    random,
                )
            } else {
                r == Ok::<Next<Minted>, FulfillError>(
                    Next::Finish(pending(unpaid_if(paid.by_visit()))),
                )
            },
        },
    }
}

/// A license that was stored in the meantime is the result. Otherwise a license
/// is minted and stored next, with an identifier from the given random bytes,
/// unless the payment is not the one for the plan: then the session stays
/// pending.
pub fn after_stored_again_with(
    shop: &Shop,
    paid: PaidSession,
    stored: Option<StoredLicense>,
    now: i64,
    random: [u8; 16],
) -> (r: Result<Next<Minted>, FulfillError>)
    requires
        stored is None ==> can_date(*shop, paid.session(), now as int),
    ensures
        is_after_stored_again(r, *shop, paid, stored, now, random@),
{
    if let Some(lic) = stored {
        return Ok(
            Next::Finish(
                Finished { outcome: FulfillOutcome::Ready(lic), remember: None, notice: None },
            ),
        );
    }
    let session = paid.session;
    let sku_id = match &session.sku {
        Some(id) => id,
        None => return Err(FulfillError::MissingSku),
    };
    let sku = match shop.catalog.by_id(sku_id) {
        Some(s) => s,
        None => return Err(FulfillError::UnknownSku),
    };
    let key = match shop.signing.get(&sku.category) {
        Some(k) => k,
        None => return Err(FulfillError::NoSigningKey(sku.category.clone())),
    };
    if !paid.payment.matches(sku, shop.live) {
        let remember = if paid.by_visit {
            Some(NegEntry::Unpaid)
        } else {
            None
        };
        return Ok(
            Next::Finish(Finished { outcome: FulfillOutcome::Pending, remember, notice: None }),
        );
    }
    let email = match &session.email {
        Some(e) => e.clone(),
        None => String::new(),
    };
    let customer = customer(&session);
    let note = join2("web:", &session.id);
    let params = sku.to_issue_params(customer.clone(), email.clone(), now, note);
    assert(email@ =~= email_of(session@));
    assert(params@ =~= license_params(*sku, session@, now));
    let issued = match issue_with(params, now, random, key) {
        Ok(x) => x,
        Err(e) => return Err(FulfillError::Issue(e)),
    };
    let record = StoredLicense {
        stripe_session_id: session.id,
        license_id: issued.claims.license_id.clone(),
        product: sku.category.clone(),
        sku: sku.id.clone(),
        customer,
        email,
        blob: issued.blob,
        issued_at: now,
    };
    Ok(
        Next::Go(
            Minted {
                record,
                expires_at: issued.claims.expires_at,
                product_display: sku.display_name.clone(),
                price_label: price_label(sku),
            },
        ),
    )
}

/// As [`after_stored_again_with`], with an identifier drawn at random.
pub fn after_stored_again(
    shop: &Shop,
    paid: PaidSession,
    stored: Option<StoredLicense>,
    now: i64,
) -> (r: Result<Next<Minted>, FulfillError>)
    requires
        stored is None ==> can_date(*shop, paid.session(), now as int),
    ensures
        exists|random: Seq<u8>|
            random.len() == 16 && #[trigger] is_after_stored_again(
                r,
                *shop,
                paid,
                stored,
                now,
                random,
            ),
{
    let random: [u8; 16] = random_bytes();
    assert(random@.len() == 16);
    after_stored_again_with(shop, paid, stored, now, random)
}

/// Whether a notice tells of a license that was stored.
pub open spec fn is_notice(n: PurchaseNotice, m: Minted, stored: StoredLicense) -> bool {
    &&& n.buyer_email == stored.email
    &&& n.customer == stored.customer
    &&& n.product_display == m.product_display
    &&& n.license_id == stored.license_id
    &&& n.license_blob == stored.blob
    &&& n.expires_at == m.expires_at
    &&& n.price_label == m.price_label
}

/// Whether a fulfillment ended as it should after an insertion.
pub open spec fn ends_with_row(
    r: Result<Finished, FulfillError>,
    minted: Minted,
    rows_affected: u64,
    row: Option<StoredLicense>,
) -> bool {
    match row {
        None => r == Err::<Finished, FulfillError>(FulfillError::RowVanished),
        Some(stored) => r matches Ok(f) && f.outcome == FulfillOutcome::Ready(stored) && f.remember
            is None && match f.notice {
            Some(n) => rows_affected == 1 && is_notice(n, minted, stored),
            None => rows_affected != 1,
        },
    }
}

/// The license that is stored for the session is the result: the one that was
/// minted, or one that came before it. Only of one that was inserted just now
/// the emails tell, so that no sale is told of twice.
pub fn after_insert(minted: Minted, rows_affected: u64, row: Option<StoredLicense>) -> (r: Result<
    Finished,
    FulfillError,
>)
    ensures
        ends_with_row(r, minted, rows_affected, row),
{
    match inserted_or_existing(rows_affected, row) {
        Err(_) => Err(FulfillError::RowVanished),
        Ok((stored, inserted)) => {
            let notice = if inserted {
                Some(
                    PurchaseNotice {
                        buyer_email: stored.email.clone(),
                        customer: stored.customer.clone(),
                        product_display: minted.product_display,
                        license_id: stored.license_id.clone(),
                        license_blob: stored.blob.clone(),
                        expires_at: minted.expires_at,
                        price_label: minted.price_label,
                    },
                )
            } else {
                None
            };
            Ok(Finished { outcome: FulfillOutcome::Ready(stored), remember: None, notice })
        },
    }
}

/// The stored licenses by session, after an insertion that gives way to an
/// existing row.
pub open spec fn with_row(
    table: Map<Seq<char>, StoredLicense>,
    rec: StoredLicense,
) -> Map<Seq<char>, StoredLicense> {
    if table.contains_key(rec.stripe_session_id@) {
        table
    } else {
        table.insert(rec.stripe_session_id@, rec)
    }
}

/// How many rows such an insertion writes.
pub open spec fn rows_written(table: Map<Seq<char>, StoredLicense>, rec: StoredLicense) -> u64 {
    if table.contains_key(rec.stripe_session_id@) {
        0
    } else {
        1
    }
}

/// The license that is stored for a session, if any.
pub open spec fn row_of(
    table: Map<Seq<char>, StoredLicense>,
    id: Seq<char>,
) -> Option<StoredLicense> {
    if table.contains_key(id) {
        Some(table[id])
    } else {
        None
    }
}

/// What a fulfillment starts from.
pub enum Call {
    /// Stripe reports a session.
    Report { session: SessionInfo, payment: Payment },
    /// A visitor comes back from a session, of which something may be
    /// remembered, and of which Stripe says what it finds.
    Visit {
        id: Seq<char>,
        remembered: Option<NegEntry>,
        found: Option<(SessionInfo, Payment)>,
    },
}

/// The session that is fulfilled.
pub open spec fn session_of(call: Call) -> Seq<char> {
    match call {
        Call::Report { session, .. } => session.id@,
        Call::Visit { id, .. } => id,
    }
}

/// The shop at a moment: a time, and the random bytes that are drawn then.
pub struct Moment {
    pub now: i64,
    pub random: Seq<u8>,
}

/// Whether a fulfillment that nothing comes between ends with a result, and
/// leaves a table behind, if these are the next steps of a paid session.
pub open spec fn ends_after(
    next: Result<Next<Minted>, FulfillError>,
    id: Seq<char>,
    table: Map<Seq<char>, StoredLicense>,
    r: Result<Finished, FulfillError>,
    after: Map<Seq<char>, StoredLicense>,
) -> bool {
    match next {
        Err(e) => r == Err::<Finished, FulfillError>(e) && after == table,
        Ok(Next::Finish(f)) => r == Ok::<Finished, FulfillError>(f) && after == table,
        Ok(Next::Go(m)) => after == with_row(table, m.record) && ends_with_row(
            r,
            m,
            rows_written(table, m.record),
            row_of(after, id),
        ),
    }
}

/// Whether the steps from a session on, of which it is known whether it is paid,
/// end with a result, and leave a table behind.
pub open spec fn runs_from(
    next: Next<PaidSession>,
    shop: Shop,
    at: Moment,
    table: Map<Seq<char>, StoredLicense>,
    r: Result<Finished, FulfillError>,
    after: Map<Seq<char>, StoredLicense>,
) -> bool {
    match next {
        Next::Finish(f) => r == Ok::<Finished, FulfillError>(f) && after == table,
        Next::Go(paid) => {
            let id = paid.session().id;
            exists|n: Result<Next<Minted>, FulfillError>| #[trigger]
                is_after_stored_again(n, shop, paid, row_of(table, id), at.now, at.random)
                    && ends_after(n, id, table, r, after)
        },
    }
}

/// Whether Stripe, where it is asked about a session, answers with that session.
pub open spec fn is_answered(call: Call) -> bool {
    call matches Call::Visit { id, found: Some((session, _)), .. } ==> session.id@ == id
}

/// Whether a fulfillment that nothing comes between, made of the steps of this
/// module, ends with a result, and leaves a table behind.
pub open spec fn runs(
    shop: Shop,
    call: Call,
    at: Moment,
    table: Map<Seq<char>, StoredLicense>,
    r: Result<Finished, FulfillError>,
    after: Map<Seq<char>, StoredLicense>,
) -> bool {
    let id = session_of(call);
    match call {
        Call::Report { session, payment } => exists|n: Next<PaidSession>| #[trigger]
            is_after_report(n, session, payment) && runs_from(n, shop, at, table, r, after),
        Call::Visit { remembered, found, .. } => {
            exists|a: Next<ConsultCache>, b: Next<RetrieveSession>, c: Next<PaidSession>|
                {
                    &&& #[trigger] is_after_stored(a, row_of(table, id))
                    &&& #[trigger] is_after_cache(b, remembered)
                    &&& #[trigger] is_after_retrieved(c, found)
                    &&& match (a, b) {
                        (Next::Finish(f), _) => r == Ok::<Finished, FulfillError>(f) && after
                            == table,
                        (Next::Go(_), Next::Finish(f)) => r == Ok::<Finished, FulfillError>(f)
                            && after == table,
                        (Next::Go(_), Next::Go(_)) => runs_from(c, shop, at, table, r, after),
                    }
                }
        },
    }
}

/// A session that Stripe reports as not paid is pending. Nothing is stored, and
/// nobody is told.
pub proof fn lemma_unpaid_is_pending(
    shop: Shop,
    session: SessionInfo,
    payment: Payment,
    at: Moment,
    table: Map<Seq<char>, StoredLicense>,
    r: Result<Finished, FulfillError>,
    after: Map<Seq<char>, StoredLicense>,
)
    requires
        !session.paid,
        runs(shop, Call::Report { session, payment }, at, table, r, after),
    ensures
        r == Ok::<Finished, FulfillError>(pending(None)),
        after == table,
{
}

/// A fulfillment changes no license that is stored, and stores at most one: for
/// the session that it is of.
pub proof fn lemma_rows_stay(
    shop: Shop,
    call: Call,
    at: Moment,
    table: Map<Seq<char>, StoredLicense>,
    r: Result<Finished, FulfillError>,
    after: Map<Seq<char>, StoredLicense>,
    other: Seq<char>,
)
    requires
        runs(shop, call, at, table, r, after),
        is_answered(call),
    ensures
        table.contains_key(other) ==> row_of(after, other) == row_of(table, other),
        other != session_of(call) ==> row_of(after, other) == row_of(table, other),
{
}

/// A session is fulfilled once. Where a fulfillment ended with a license, that
/// license is stored for the session. As long as it is, every later fulfillment
/// of the session, if paid, ends with the same license, changes nothing that is
/// stored, and tells nobody.
pub proof fn lemma_fulfilled_once(
    shop: Shop,
    call: Call,
    at: Moment,
    table: Map<Seq<char>, StoredLicense>,
    first: Finished,
    after: Map<Seq<char>, StoredLicense>,
    later_shop: Shop,
    later_call: Call,
    later: Moment,
    later_table: Map<Seq<char>, StoredLicense>,
    second: Result<Finished, FulfillError>,
    last: Map<Seq<char>, StoredLicense>,
)
    requires
        runs(shop, call, at, table, Ok(first), after),
        is_answered(call),
        first.outcome is Ready,
        session_of(later_call) == session_of(call),
        later_call matches Call::Report { session, .. } ==> session.paid,
        row_of(later_table, session_of(call)) == row_of(after, session_of(call)),
        runs(later_shop, later_call, later, later_table, second, last),
    ensures
        row_of(after, session_of(call)) == Some(first.outcome->Ready_0),
        second == Ok::<Finished, FulfillError>(ready(first.outcome->Ready_0)),
        last == later_table,
{
}

/// Two fulfillments of a session may both find no license, and both mint one.
/// Both then end with the one that was stored first, and the second tells
/// nobody.
pub proof fn lemma_first_license_stays(
    table: Map<Seq<char>, StoredLicense>,
    first: Minted,
    second: Minted,
    a: Finished,
    b: Finished,
)
    requires
        first.record.stripe_session_id@ == second.record.stripe_session_id@,
        ({
            let id = first.record.stripe_session_id@;
            let then = with_row(table, first.record);
            let now = with_row(then, second.record);
            &&& ends_with_row(Ok(a), first, rows_written(table, first.record), Some(then[id]))
            &&& ends_with_row(Ok(b), second, rows_written(then, second.record), Some(now[id]))
        }),
    ensures
        b.outcome == a.outcome,
        b.notice is None,
        !table.contains_key(first.record.stripe_session_id@) ==> a.outcome == FulfillOutcome::Ready(
            first.record,
        ) && a.notice is Some,
        table.contains_key(first.record.stripe_session_id@) ==> a.notice is None,
{
}

/// A name without control characters that is not too long stays as it is. A
/// control character is taken out wherever it stands, and what is around it
/// stays, in its order.
pub proof fn lemma_only_controls_are_taken_out(before: Seq<char>, c: char, after: Seq<char>)
    requires
        c <= '\u{1f}' || '\u{7f}' <= c <= '\u{9f}',
    ensures
        sanitized(before + seq![c] + after) == sanitized(before + after),
        (before + after).len() <= 200 && (forall|i: int|
            #![trigger (before + after)[i]]
            0 <= i < (before + after).len() ==> !((before + after)[i] <= '\u{1f}' || '\u{7f}' <= (
            before + after)[i] <= '\u{9f}')) ==> sanitized(before + after) == before + after,
{
    lemma_without_one(before, c, after);
    let s = before + after;
    if s.len() <= 200 && (forall|i: int|
        #![trigger s[i]]
        0 <= i < s.len() ==> !(s[i] <= '\u{1f}' || '\u{7f}' <= s[i] <= '\u{9f}')) {
        lemma_nothing_to_strip(s);
    }
}

proof fn lemma_without_one(before: Seq<char>, c: char, after: Seq<char>)
    requires
        is_control(c),
    ensures
        without_controls(before + seq![c] + after) == without_controls(before + after),
    decreases after.len(),
{
    let s = before + seq![c] + after;
    let t = before + after;
    if after.len() == 0 {
        assert(s.drop_last() =~= before);
        assert(t =~= before);
        assert(s.last() == c);
    } else {
        lemma_without_one(before, c, after.drop_last());
        assert(s.drop_last() =~= before + seq![c] + after.drop_last());
        assert(t.drop_last() =~= before + after.drop_last());
        assert(s.last() == after.last() && t.last() == after.last());
    }
}

/// The license is in the name of the company, if one was typed, and of the buyer
/// if not; it is sent to the buyer's address.
pub proof fn lemma_license_is_the_buyers(s: SessionInfoView)
    ensures
        s.company matches Some(c) ==> customer_of(s) == sanitized(c),
        s.company is None ==> (s.name matches Some(n) ==> customer_of(s) == sanitized(n)),
        s.company is None && s.name is None ==> customer_of(s).len() == 0,
        s.email matches Some(e) ==> email_of(s) == e,
        s.email is None ==> email_of(s).len() == 0,
{
}

/// What is minted is the license for the plan that was bought, to the one who
/// bought it: its record, and the claims that its blob opens to, say the plan's
/// product, tier, features and limits, the buyer, the session, the time, and an
/// expiry as far off as the plan's term.
pub proof fn lemma_minted_license_is_the_plans(
    m: Minted,
    sku: Sku,
    s: SessionInfoView,
    seed: Seq<u8>,
    now: i64,
    random: Seq<u8>,
    keys: Seq<Seq<u8>>,
)
    requires
        is_minted(m, sku, s, seed, now, random),
        crate::catalog::expiry_fits(sku.term, now as int),
        m.record.blob@.len() <= MAX_BLOB_B64_LEN,
        crate::codec::decoded(m.record.blob@, keys) is Ok,
    ensures
        m.record.stripe_session_id@ == s.id,
        m.record.product@ == sku.category@,
        m.record.sku@ == sku.id@,
        m.record.issued_at == now,
        m.record.email@ == email_of(s),
        m.record.customer@ == customer_of(s),
        m.product_display@ == sku.display_name@,
        sku.price_label@.len() > 0 ==> m.price_label@ == sku.price_label@,
        ({
            let c = crate::codec::decoded(m.record.blob@, keys)->Ok_0;
            &&& c.license_id == m.record.license_id@
            &&& c.product == sku.category@
            &&& c.customer == m.record.customer@
            &&& c.email == m.record.email@
            &&& c.tier == sku.tier@
            &&& c.features == crate::text::texts(sku.features@)
            &&& c.max_orgs == sku.max_orgs
            &&& c.max_seats == sku.max_seats
            &&& c.note == "web:"@ + s.id
            &&& c.issued_at == now
            &&& c.expires_at == m.expires_at
        }),
        sku.term is Lifetime <==> m.expires_at is None,
        sku.term matches crate::catalog::Term::Days(d) ==> (m.expires_at matches Some(t) && t - now
            == d * 86400),
{
}

/// A paid session for a plan of the shop, paid with the plan's price in its
/// currency and in the shop's own mode, real or test, is minted a license. One
/// that was paid with anything else stays pending, and no error comes of it.
pub proof fn lemma_right_payment_is_minted(
    r: Result<Next<Minted>, FulfillError>,
    shop: Shop,
    paid: PaidSession,
    sku: Sku,
    now: i64,
    random: Seq<u8>,
)
    requires
        is_after_stored_again(r, shop, paid, None, now, random),
        paid.session().sku matches Some(id) && crate::catalog::sku_with(shop.catalog.skus@, id)
            == Some(sku),
        shop.signing.key_of(sku.category@) is Some,
    ensures
        r is Ok,
        r->Ok_0 is Go <==> paid.payment().livemode == shop.live && paid.payment().amount_total
            == Some(sku.amount_cents) && paid.payment().currency == Some(sku.currency@),
        r->Ok_0 matches Next::Go(m) ==> is_minted(
            m,
            sku,
            paid.session(),
            shop.signing.key_of(sku.category@)->0,
            now,
            random,
        ),
        r->Ok_0 matches Next::Finish(f) ==> f.outcome is Pending && f.notice is None,
{
}

/// Nothing is minted for a session that is for no plan of the shop, or for a plan
/// without a key: that is an error, whatever was paid.
pub proof fn lemma_no_plan_no_license(
    r: Result<Next<Minted>, FulfillError>,
    shop: Shop,
    paid: PaidSession,
    now: i64,
    random: Seq<u8>,
)
    requires
        is_after_stored_again(r, shop, paid, None, now, random),
    ensures
        paid.session().sku is None ==> r == Err::<Next<Minted>, FulfillError>(
            FulfillError::MissingSku,
        ),
        paid.session().sku matches Some(id) ==> (crate::catalog::sku_with(shop.catalog.skus@, id)
            is None ==> r == Err::<Next<Minted>, FulfillError>(FulfillError::UnknownSku)),
        r matches Ok(Next::Go(m)) ==> exists|k: int|
            0 <= k < shop.catalog.skus@.len() && (#[trigger] shop.catalog.skus@[k]).id@
                == m.record.sku@ && paid.session().sku == Some(m.record.sku@),
{
    if let Some(id) = paid.session().sku {
        crate::catalog::lemma_sku_with_is_listed(shop.catalog.skus@, id);
    }
}

/// The price of a plan without a label is its currency and its amount: the
/// hundredths are two digits, and together with the whole they are the amount.
pub proof fn lemma_price_in_words(sku: Sku, whole: nat, hundredths: nat)
    requires
        sku.price_label@.len() == 0,
        sku.amount_cents == 100 * whole + hundredths,
        hundredths < 100,
    ensures
        label_of(sku) == sku.currency@ + " "@ + crate::text::decimal(whole) + "."@ + two_digits(
            hundredths,
        ),
        two_digits(hundredths).len() == 2,
        crate::text::digits_value(two_digits(hundredths)) == hundredths,
{
    let size = sku.amount_cents as nat;
    assert(size / 100 == whole && size % 100 == hundredths);
    reveal_strlit("");
    reveal_strlit("0");
    assert(label_of(sku) =~= sku.currency@ + " "@ + crate::text::decimal(whole) + "."@ + two_digits(
        hundredths,
    ));
    crate::text::lemma_decimal_reads_back(hundredths);
    let d = crate::text::decimal(hundredths);
    if hundredths < 10 {
        let t = two_digits(hundredths);
        assert(d.len() == 1);
        assert(t.drop_last() =~= "0"@);
        assert(t.drop_last().drop_last() =~= Seq::<char>::empty());
        reveal_with_fuel(crate::text::digits_value, 3);
        assert(d.drop_last() =~= Seq::<char>::empty());
    } else {
        reveal_with_fuel(crate::text::in_base, 2);
        assert(hundredths / 10 < 10);
    }
}

/// A stored license is the answer to a visit at once. What is remembered of a
/// session is the answer next, and only then Stripe is asked.
pub proof fn lemma_visit_answers(
    a: Next<ConsultCache>,
    stored: Option<StoredLicense>,
    b: Next<RetrieveSession>,
    remembered: Option<NegEntry>,
)
    requires
        is_after_stored(a, stored),
        is_after_cache(b, remembered),
    ensures
        a is Go <==> stored is None,
        a matches Next::Finish(f) ==> f.outcome == FulfillOutcome::Ready(stored->0) && f.remember
            is None && f.notice is None,
        b is Go <==> remembered is None,
        b matches Next::Finish(f) ==> f.remember is None && f.notice is None && (f.outcome
            is Pending <==> remembered->0 is Unpaid) && (f.outcome is LookupFailed
            <==> remembered->0 is NotFound),
{
}

/// Only a paid session goes on. One that Stripe does not know is remembered as
/// such, one that is not paid as that, where a visit brought it up; a report of
/// an unpaid session leaves nothing behind.
pub proof fn lemma_only_paid_sessions_go_on(
    c: Next<PaidSession>,
    found: Option<(SessionInfo, Payment)>,
    d: Next<PaidSession>,
    session: SessionInfo,
    payment: Payment,
)
    requires
        is_after_retrieved(c, found),
        is_after_report(d, session, payment),
    ensures
        c is Go <==> found is Some && (found->0).0.paid,
        c matches Next::Go(p) ==> p.session() == (found->0).0@ && p.payment() == (found->0).1@
            && p.by_visit(),
        c matches Next::Finish(f) ==> f.notice is None && (found is None ==> f.outcome
            is LookupFailed && f.remember == Some(NegEntry::NotFound)) && (found is Some
            ==> f.outcome is Pending && f.remember == Some(NegEntry::Unpaid)),
        d is Go <==> session.paid,
        d matches Next::Go(p) ==> p.session() == session@ && p.payment() == payment@
            && !p.by_visit(),
        d matches Next::Finish(f) ==> f.outcome is Pending && f.remember is None && f.notice
            is None,
{
}

/// A license that was stored in the meantime is the answer, whatever was paid.
/// A payment that is not the plan's leaves the session pending, which is
/// remembered exactly if a visit brought it up.
pub proof fn lemma_stored_meanwhile_or_pending(
    r: Result<Next<Minted>, FulfillError>,
    shop: Shop,
    paid: PaidSession,
    stored: Option<StoredLicense>,
    now: i64,
    random: Seq<u8>,
)
    requires
        is_after_stored_again(r, shop, paid, stored, now, random),
    ensures
        stored is Some ==> (r matches Ok(Next::Finish(f)) && f.outcome == FulfillOutcome::Ready(
            stored->0,
        ) && f.remember is None && f.notice is None),
        stored is None ==> (r matches Ok(Next::Finish(f)) ==> f.outcome is Pending && f.notice
            is None && (f.remember is Some <==> paid.by_visit()) && (paid.by_visit()
            ==> f.remember == Some(NegEntry::Unpaid))),
{
}

/// A license is signed with the key of the category of the plan that was
/// bought, and its blob is that of the claims that it says.
pub proof fn lemma_minted_with_the_categorys_key(
    r: Result<Next<Minted>, FulfillError>,
    shop: Shop,
    paid: PaidSession,
    now: i64,
    random: Seq<u8>,
)
    requires
        is_after_stored_again(r, shop, paid, None, now, random),
    ensures
        r matches Ok(Next::Go(m)) ==> {
            &&& shop.signing.key_of(m.record.product@) is Some
            &&& exists|c: crate::claims::ClaimsView| #[trigger]
                crate::codec::blob_text(c, shop.signing.key_of(m.record.product@)->0)
                    == m.record.blob@ && c.license_id == m.record.license_id@ && c.product
                    == m.record.product@ && c.customer == m.record.customer@ && c.email
                    == m.record.email@ && c.issued_at == now && c.expires_at == m.expires_at
        },
{
    if let Ok(Next::Go(m)) = r {
        let s = paid.session();
        let sku = sku_of_session(shop, s);
        let c = crate::issue::issued_claims(
            license_params(sku, s, now),
            now,
            crate::issue::license_id_of(random),
        );
        let seed = shop.signing.key_of(sku.category@)->0;
        assert(m.record.product@ == sku.category@);
        assert(crate::codec::blob_text(c, seed) == m.record.blob@);
    }
}

/// Whoever is told of a sale is told of the license that is stored, to the buyer
/// and the customer in its row, and only where its row was written just now.
pub proof fn lemma_notice_tells_of_the_row(
    r: Result<Finished, FulfillError>,
    m: Minted,
    rows_affected: u64,
    row: Option<StoredLicense>,
)
    requires
        ends_with_row(r, m, rows_affected, row),
    ensures
        r is Ok <==> row is Some,
        r matches Err(e) ==> e is RowVanished,
        r matches Ok(f) ==> {
            &&& f.outcome == FulfillOutcome::Ready(row->0)
            &&& f.remember is None
            &&& f.notice is Some <==> rows_affected == 1
            &&& f.notice is Some ==> {
                let n = f.notice->0;
                &&& n.buyer_email@ == row->0.email@
                &&& n.customer@ == row->0.customer@
                &&& n.product_display@ == m.product_display@
                &&& n.license_id@ == row->0.license_id@
                &&& n.license_blob@ == row->0.blob@
                &&& n.expires_at == m.expires_at
                &&& n.price_label@ == m.price_label@
            }
        },
{
}

/// An insertion stores a license for a session that has none, and changes
/// nothing else.
pub proof fn lemma_insertion_gives_way(
    table: Map<Seq<char>, StoredLicense>,
    rec: StoredLicense,
    other: Seq<char>,
)
    ensures
        row_of(table, rec.stripe_session_id@) is None ==> row_of(
            with_row(table, rec),
            rec.stripe_session_id@,
        ) == Some(rec),
        row_of(table, other) is Some ==> row_of(with_row(table, rec), other) == row_of(table, other),
        other != rec.stripe_session_id@ ==> row_of(with_row(table, rec), other) == row_of(
            table,
            other,
        ),
        rows_written(table, rec) == 1 <==> row_of(table, rec.stripe_session_id@) is None,
        rows_written(table, rec) <= 1,
        row_of(table, other) is Some <==> table.contains_key(other),
        row_of(table, other) is Some ==> row_of(table, other)->0 == table[other],
{
}

/// A session that a visit brings up, of which nothing is remembered, or that
/// Stripe reports.
pub open spec fn brought_up(session: SessionInfo, payment: Payment, visit: bool) -> Call {
    if visit {
        Call::Visit { id: session.id@, remembered: None, found: Some((session, payment)) }
    } else {
        Call::Report { session, payment }
    }
}

/// A session that was paid as its plan asks, and has no license yet, gets one
/// that is stored for it, whether a report or a visit brings it up. The buyer is
/// told of it.
pub proof fn lemma_paid_session_gets_a_license(
    shop: Shop,
    session: SessionInfo,
    payment: Payment,
    visit: bool,
    sku: Sku,
    at: Moment,
    table: Map<Seq<char>, StoredLicense>,
    r: Result<Finished, FulfillError>,
    after: Map<Seq<char>, StoredLicense>,
)
    requires
        runs(shop, brought_up(session, payment, visit), at, table, r, after),
        !table.contains_key(session.id@),
        session.paid,
        session@.sku matches Some(id) && crate::catalog::sku_with(shop.catalog.skus@, id) == Some(
            sku,
        ),
        shop.signing.key_of(sku.category@) is Some,
        payment@.livemode == shop.live,
        payment@.amount_total == Some(sku.amount_cents),
        payment@.currency == Some(sku.currency@),
    ensures
        r is Ok,
        r->Ok_0.outcome is Ready,
        r->Ok_0.notice is Some,
        after.contains_key(session.id@),
        after == table.insert(session.id@, r->Ok_0.outcome->Ready_0),
        r->Ok_0.outcome->Ready_0.sku@ == sku.id@,
        r->Ok_0.outcome->Ready_0.product@ == sku.category@,
        r->Ok_0.outcome->Ready_0.email@ == email_of(session@),
        r->Ok_0.notice->0.license_blob@ == r->Ok_0.outcome->Ready_0.blob@,
        r->Ok_0.notice->0.buyer_email@ == email_of(session@),
{
}

/// A session that is not paid as its plan asks gets no license: nothing is
/// stored, and nobody is told.
pub proof fn lemma_unpaid_session_gets_nothing(
    shop: Shop,
    session: SessionInfo,
    payment: Payment,
    visit: bool,
    at: Moment,
    table: Map<Seq<char>, StoredLicense>,
    r: Result<Finished, FulfillError>,
    after: Map<Seq<char>, StoredLicense>,
)
    requires
        runs(shop, brought_up(session, payment, visit), at, table, r, after),
        !table.contains_key(session.id@),
        !session.paid || session@.sku is None || payment@.livemode != shop.live
            || payment@.amount_total is None || payment@.currency is None,
    ensures
        after == table,
        r matches Ok(f) ==> f.outcome is Pending && f.notice is None,
{
}

/// What a license can be minted for is a session for a plan of the shop that has
/// a key.
pub proof fn lemma_what_can_be_minted(shop: Shop, s: SessionInfoView)
    ensures
        mint_problem(shop, s) is None <==> s.sku is Some && crate::catalog::sku_with(
            shop.catalog.skus@,
            s.sku->0,
        ) is Some && shop.signing.key_of(sku_of_session(shop, s).category@) is Some,
        mint_problem(shop, s) matches Some(FulfillError::NoSigningKey(category)) ==> category
            == sku_of_session(shop, s).category,
        mint_problem(shop, s) is Some && s.sku is Some ==> !(mint_problem(shop, s)->0
            is MissingSku),
        s.sku is Some ==> sku_of_session(shop, s) == crate::catalog::sku_with(
            shop.catalog.skus@,
            s.sku->0,
        )->0,
{
}

/// Control characters are those below the space, and those from delete to the
/// end of the second block of them.
pub proof fn lemma_control_characters(c: char)
    ensures
        is_control(c) <==> (c as u32) < 32 || 127 <= c as u32 <= 159,
{
}

/// A name without control characters is kept up to 200 characters.
pub proof fn lemma_clean_names_are_kept(s: Seq<char>)
    requires
        forall|i: int| 0 <= i < s.len() ==> !is_control(#[trigger] s[i]),
    ensures
        s.len() <= 200 ==> sanitized(s) == s,
        s.len() > 200 ==> sanitized(s) == s.take(200),
{
    lemma_nothing_to_strip(s);
}

/// A negative amount is told as the positive one behind a minus sign.
pub proof fn lemma_negative_money(cents: i64)
    requires
        0 < cents,
    ensures
        money((-cents) as i64) == "-"@ + money(cents),
{
    reveal_strlit("");
    assert(""@ =~= Seq::<char>::empty());
    let rest = crate::text::decimal((cents as nat) / 100) + ("."@ + two_digits((cents as nat) % 100));
    assert(money(cents) =~= rest);
    assert(money((-cents) as i64) =~= "-"@ + rest);
}

} // verus!
