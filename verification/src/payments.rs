//! What the shop asks of Stripe, and what it reads in the answers.

use crate::catalog::Sku;
use crate::text::{clone_opt, join2, join3, parse_i64, same, split_at_each, starts_with, strip_prefix};
use stripe_shared::CheckoutSessionPaymentStatus as Status;
use stripe_webhook::{EventObject, Webhook};
use vstd::prelude::*;
use vstd::string::*;

verus! {

/// A field that the shop added to the checkout page.
#[derive(Debug)]
pub struct CustomField {
    pub key: String,
    /// What the buyer typed, if it is a text field.
    pub value: Option<String>,
}

/// The mathematical content of a [`CustomField`].
pub struct CustomFieldView {
    pub key: Seq<char>,
    pub value: Option<Seq<char>>,
}

impl View for CustomField {
    type V = CustomFieldView;

    open spec fn view(&self) -> CustomFieldView {
        CustomFieldView { key: self.key@, value: crate::text::opt_text(self.value) }
    }
}

/// Whether a session is paid, in the words of Stripe.
#[derive(Debug, Clone, Copy)]
pub enum PaymentStatus {
    Paid,
    Unpaid,
    /// There is nothing to pay.
    NoPaymentRequired,
    /// A word that `stripe_shared` does not know.
    Unknown,
}

/// What Stripe says of a checkout session.
#[derive(Debug)]
pub struct Session {
    pub id: String,
    pub payment_status: PaymentStatus,
    /// What Stripe knows of the customer.
    pub email: Option<String>,
    pub name: Option<String>,
    pub custom_fields: Vec<CustomField>,
    /// What the metadata holds under `sku`.
    pub sku: Option<String>,
    pub url: Option<String>,
    pub livemode: bool,
    pub amount_total: Option<i64>,
    /// A lower-case ISO code.
    pub currency: Option<String>,
}

/// The mathematical content of a [`Session`].
pub struct SessionView {
    pub id: Seq<char>,
    pub payment_status: PaymentStatus,
    pub email: Option<Seq<char>>,
    pub name: Option<Seq<char>>,
    pub custom_fields: Seq<CustomFieldView>,
    pub sku: Option<Seq<char>>,
    pub url: Option<Seq<char>>,
    pub livemode: bool,
    pub amount_total: Option<i64>,
    pub currency: Option<Seq<char>>,
}

/// The mathematical content of some custom fields.
pub open spec fn field_views(fields: Seq<CustomField>) -> Seq<CustomFieldView> {
    fields.map_values(|f: CustomField| f@)
}

impl View for Session {
    type V = SessionView;

    open spec fn view(&self) -> SessionView {
        SessionView {
            id: self.id@,
            payment_status: self.payment_status,
            email: crate::text::opt_text(self.email),
            name: crate::text::opt_text(self.name),
            custom_fields: field_views(self.custom_fields@),
            sku: crate::text::opt_text(self.sku),
            url: crate::text::opt_text(self.url),
            livemode: self.livemode,
            amount_total: self.amount_total,
            currency: crate::text::opt_text(self.currency),
        }
    }
}

/// What fulfillment reads of a checkout session.
#[derive(Debug)]
pub struct SessionInfo {
    pub id: String,
    pub paid: bool,
    pub sku: Option<String>,
    pub email: Option<String>,
    pub name: Option<String>,
    /// What the buyer typed as the company.
    pub company: Option<String>,
    pub url: Option<String>,
}

/// The mathematical content of a [`SessionInfo`].
pub struct SessionInfoView {
    pub id: Seq<char>,
    pub paid: bool,
    pub sku: Option<Seq<char>>,
    pub email: Option<Seq<char>>,
    pub name: Option<Seq<char>>,
    pub company: Option<Seq<char>>,
    pub url: Option<Seq<char>>,
}

impl View for SessionInfo {
    type V = SessionInfoView;

    open spec fn view(&self) -> SessionInfoView {
        SessionInfoView {
            id: self.id@,
            paid: self.paid,
            sku: crate::text::opt_text(self.sku),
            email: crate::text::opt_text(self.email),
            name: crate::text::opt_text(self.name),
            company: crate::text::opt_text(self.company),
            url: crate::text::opt_text(self.url),
        }
    }
}

/// What was paid in a checkout session.
#[derive(Debug)]
pub struct Payment {
    /// Whether it was real money.
    pub livemode: bool,
    /// In the smallest unit of the currency.
    pub amount_total: Option<i64>,
    pub currency: Option<String>,
}

/// The mathematical content of a [`Payment`].
pub struct PaymentView {
    pub livemode: bool,
    pub amount_total: Option<i64>,
    pub currency: Option<Seq<char>>,
}

impl View for Payment {
    type V = PaymentView;

    open spec fn view(&self) -> PaymentView {
        PaymentView {
            livemode: self.livemode,
            amount_total: self.amount_total,
            currency: crate::text::opt_text(self.currency),
        }
    }
}

/// What a buyer typed into the first field with a key.
pub open spec fn typed(fields: Seq<CustomFieldView>, key: Seq<char>) -> Option<Seq<char>>
    decreases fields.len(),
{
    if fields.len() == 0 {
        None
    } else if fields[0].key == key {
        fields[0].value
    } else {
        typed(fields.drop_first(), key)
    }
}

fn find_typed(fields: &Vec<CustomField>, key: &str) -> (r: Option<String>)
    ensures
        crate::text::opt_text(r) == typed(field_views(fields@), key@),
{
    let ghost all = field_views(fields@);
    assert(all.skip(0) =~= all);
    for i in 0..fields.len()
        invariant
            all == field_views(fields@),
            typed(all.skip(i as int), key@) == typed(all, key@),
    {
        assert(all.skip(i as int)[0] == fields@[i as int]@);
        assert(all.skip(i as int).drop_first() =~= all.skip(i + 1));
        if same(&fields[i].key, key) {
            return clone_opt(&fields[i].value);
        }
    }
    None
}

/// What fulfillment reads of a checkout session. One with nothing to pay
/// counts as paid.
pub open spec fn info_of(s: SessionView) -> SessionInfoView {
    SessionInfoView {
        id: s.id,
        paid: s.payment_status is Paid || s.payment_status is NoPaymentRequired,
        sku: s.sku,
        email: s.email,
        name: s.name,
        company: typed(s.custom_fields, "company"@),
        url: s.url,
    }
}

/// What was paid in a checkout session.
pub open spec fn payment_of(s: SessionView) -> PaymentView {
    PaymentView { livemode: s.livemode, amount_total: s.amount_total, currency: s.currency }
}

/// A checkout session as `stripe_shared` has it.
#[verifier::external_type_specification]
#[verifier::external_body]
pub struct ExCheckoutSession(stripe_shared::CheckoutSession);

/// What a checkout session holds in the fields that the shop reads, and in its
/// metadata under a key.
pub uninterp spec fn session_contents(
    s: stripe_shared::CheckoutSession,
    key: Seq<char>,
) -> SessionView;

/// The fields of a `stripe_shared::CheckoutSession` that the shop reads, each as
/// it is; of the metadata, the value under a key.
#[verifier::external_body]
fn plain_session(s: &stripe_shared::CheckoutSession, key: &str) -> (r: Session)
    ensures
        r@ == session_contents(*s, key@),
{
    let s = s.clone();
    let (email, name) = s.customer_details.map_or((None, None), |d| (d.email, d.name));
    Session {
        id: s.id.to_string(), email, name, url: s.url, livemode: s.livemode,
        payment_status: match s.payment_status {
            Status::Paid => PaymentStatus::Paid, Status::Unpaid => PaymentStatus::Unpaid,
            Status::NoPaymentRequired => PaymentStatus::NoPaymentRequired,
            _ => PaymentStatus::Unknown,
        },
        custom_fields: s.custom_fields.into_iter().map(|f| CustomField {
            key: f.key, value: f.text.and_then(|t| t.value),
        }).collect(),
        sku: s.metadata.and_then(|mut m| m.remove(key)),
        amount_total: s.amount_total, currency: s.currency.map(|c| c.to_string()),
    }
}

impl SessionInfo {
    /// What fulfillment reads of a checkout session.
    pub fn from_plain(s: &Session) -> (r: SessionInfo)
        ensures
            r@ == info_of(s@),
            r.id@ == s.id@,
            r.paid <==> s.payment_status is Paid || s.payment_status is NoPaymentRequired,
            crate::text::opt_text(r.sku) == crate::text::opt_text(s.sku),
            crate::text::opt_text(r.email) == crate::text::opt_text(s.email),
            crate::text::opt_text(r.name) == crate::text::opt_text(s.name),
            crate::text::opt_text(r.url) == crate::text::opt_text(s.url),
    {
        SessionInfo {
            id: s.id.clone(),
            paid: match s.payment_status {
                PaymentStatus::Paid | PaymentStatus::NoPaymentRequired => true,
                PaymentStatus::Unpaid | PaymentStatus::Unknown => false,
            },
            sku: clone_opt(&s.sku),
            email: clone_opt(&s.email),
            name: clone_opt(&s.name),
            company: find_typed(&s.custom_fields, "company"),
            url: clone_opt(&s.url),
        }
    }
}

impl Payment {
    /// What was paid in a checkout session.
    pub fn from_plain(s: &Session) -> (r: Payment)
        ensures
            r@ == payment_of(s@),
            r.livemode == s.livemode,
            r.amount_total == s.amount_total,
            crate::text::opt_text(r.currency) == crate::text::opt_text(s.currency),
    {
        Payment {
            livemode: s.livemode,
            amount_total: s.amount_total,
            currency: clone_opt(&s.currency),
        }
    }
}

impl SessionInfo {
    /// What fulfillment reads of a checkout session, and what was paid in it.
    pub fn from_session(s: &stripe_shared::CheckoutSession) -> (r: (SessionInfo, Payment))
        ensures
            r.0@ == info_of(session_contents(*s, "sku"@)),
            r.1@ == payment_of(session_contents(*s, "sku"@)),
    {
        let plain = plain_session(s, "sku");
        (SessionInfo::from_plain(&plain), Payment::from_plain(&plain))
    }
}

/// An event that Stripe reports.
#[derive(Debug)]
pub enum WebhookEvent {
    /// A checkout was completed.
    SessionCompleted(Session),
    /// A payment came in some time after the checkout.
    PaymentSucceeded(Session),
    Other,
}

/// The mathematical content of a [`WebhookEvent`].
pub enum WebhookEventView {
    SessionCompleted(SessionView),
    PaymentSucceeded(SessionView),
    Other,
}

impl View for WebhookEvent {
    type V = WebhookEventView;

    open spec fn view(&self) -> WebhookEventView {
        match self {
            WebhookEvent::SessionCompleted(s) => WebhookEventView::SessionCompleted(s@),
            WebhookEvent::PaymentSucceeded(s) => WebhookEventView::PaymentSucceeded(s@),
            WebhookEvent::Other => WebhookEventView::Other,
        }
    }
}

/// The view of a report: an event, or words.
pub open spec fn event_or_words(r: Result<WebhookEvent, String>) -> Result<
    WebhookEventView,
    Seq<char>,
> {
    match r {
        Ok(event) => Ok(event@),
        Err(words) => Err(words@),
    }
}

/// The event that `stripe_webhook` reads from a report at a time, with the value
/// that a session's metadata holds under a key, or the words in which it says
/// what is wrong with the report or its signature.
pub uninterp spec fn reported_event(
    body: Seq<char>,
    signature: Seq<char>,
    secret: Seq<char>,
    now: i64,
    key: Seq<char>,
) -> Result<WebhookEventView, Seq<char>>;

/// The last piece of a list that begins with a prefix.
pub open spec fn last_with_prefix(list: Seq<Seq<char>>, prefix: Seq<char>) -> Option<Seq<char>>
    decreases list.len(),
{
    if list.len() == 0 {
        None
    } else if prefix.is_prefix_of(list.last()) {
        Some(list.last())
    } else {
        last_with_prefix(list.drop_last(), prefix)
    }
}

/// The time that a signature header gives: the last one, if there are several.
pub open spec fn signature_time(signature: Seq<char>) -> Option<i64> {
    match last_with_prefix(crate::text::pieces(signature, ','), "t="@) {
        Some(piece) => crate::text::written_i64(piece.skip(2)),
        None => None,
    }
}

/// Whether the time that a signature header gives is so long before a time that
/// the seconds between them cannot be told.
pub open spec fn is_too_old(signature: Seq<char>, now: int) -> bool {
    signature_time(signature) matches Some(t) && now - t > i64::MAX
}

/// `stripe_webhook::Webhook::construct_event_with_timestamp`, its event taken by
/// the session that it is about, and its error by the text that it displays.
/// The call takes the difference of the two times, which must not overflow.
#[verifier::external_body]
fn construct_event(body: &str, signature: &str, secret: &str, now: i64, key: &str) -> (r: Result<
    WebhookEvent,
    String,
>)
    requires
        now >= 0,
        !is_too_old(signature@, now as int),
    ensures
        event_or_words(r) == reported_event(body@, signature@, secret@, now, key@),
{
    match Webhook::construct_event_with_timestamp(body, signature, secret, now) {
        Ok(event) => Ok(match event.data.object {
            EventObject::CheckoutSessionCompleted(s) => WebhookEvent::SessionCompleted(
                plain_session(&s, key),
            ),
            EventObject::CheckoutSessionAsyncPaymentSucceeded(s) => WebhookEvent::PaymentSucceeded(
                plain_session(&s, key),
            ),
            _ => WebhookEvent::Other,
        }),
        Err(e) => Err(e.to_string()),
    }
}

fn too_old(signature: &str, now: i64) -> (r: bool)
    requires
        now >= 0,
    ensures
        r == is_too_old(signature@, now as int),
{
    let parts = split_at_each(signature, ',');
    let ghost all = crate::text::texts(parts@);
    let mut n: usize = parts.len();
    proof {
        assert(all.take(all.len() as int) =~= all);
        reveal_strlit("t=");
    }
    while n > 0
        invariant
            now >= 0,
            "t="@.len() == 2,
            all == crate::text::texts(parts@),
            all == crate::text::pieces(signature@, ','),
            n <= all.len(),
            last_with_prefix(all, "t="@) == last_with_prefix(all.take(n as int), "t="@),
        decreases n,
    {
        assert(all.take(n as int).last() == parts@[n - 1]@);
        assert(all.take(n as int).drop_last() =~= all.take(n - 1));
        if let Some(number) = strip_prefix(&parts[n - 1], "t=") {
            return match parse_i64(number) {
                Some(t) => t < 0 && now > i64::MAX + t,
                None => false,
            };
        }
        n = n - 1;
    }
    false
}

/// What the shop does on a report from Stripe.
#[derive(Debug)]
pub enum WebhookStep {
    /// Refuse it: it is not signed.
    MissingSignature,
    /// Refuse it: its signature, its time or its content is wrong.
    BadSignature,
    /// Accept it, and do nothing.
    Ignore,
    /// Fulfill a session.
    Fulfill { session: SessionInfo, payment: Payment },
}

/// Whether the shop does the right thing on what was read from a report.
pub open spec fn is_step_for(
    step: WebhookStep,
    event: Result<WebhookEventView, Seq<char>>,
) -> bool {
    match event {
        Err(_) => step is BadSignature,
        Ok(WebhookEventView::Other) => step is Ignore,
        Ok(WebhookEventView::SessionCompleted(s)) => step matches WebhookStep::Fulfill {
            session,
            payment,
        } && session@ == info_of(s) && payment@ == payment_of(s),
        Ok(WebhookEventView::PaymentSucceeded(s)) => step matches WebhookStep::Fulfill {
            session,
            payment,
        } && session@ == info_of(s) && payment@ == payment_of(s),
    }
}

/// What the shop does on what was read from a report.
pub fn webhook_step(event: Result<WebhookEvent, String>) -> (step: WebhookStep)
    ensures
        is_step_for(step, event_or_words(event)),
{
    match event {
        Err(_) => WebhookStep::BadSignature,
        Ok(WebhookEvent::Other) => WebhookStep::Ignore,
        Ok(WebhookEvent::SessionCompleted(s)) => WebhookStep::Fulfill {
            session: SessionInfo::from_plain(&s),
            payment: Payment::from_plain(&s),
        },
        Ok(WebhookEvent::PaymentSucceeded(s)) => WebhookStep::Fulfill {
            session: SessionInfo::from_plain(&s),
            payment: Payment::from_plain(&s),
        },
    }
}

/// Whether the shop does the right thing on a report from Stripe.
pub open spec fn is_step_on(
    step: WebhookStep,
    signature: Option<Seq<char>>,
    body: Seq<char>,
    secret: Seq<char>,
    now: i64,
) -> bool {
    match signature {
        None => step is MissingSignature,
        Some(sig) => if is_too_old(sig, now as int) {
            step is BadSignature
        } else {
            is_step_for(step, reported_event(body, sig, secret, now, "sku"@))
        },
    }
}

/// Nothing is fulfilled on a report that is not signed, or that cannot be read
/// as one signed with the shop's secret; what is fulfilled is the session in the
/// report.
pub proof fn lemma_only_signed_reports_are_fulfilled(
    step: WebhookStep,
    signature: Option<Seq<char>>,
    body: Seq<char>,
    secret: Seq<char>,
    now: i64,
)
    requires
        is_step_on(step, signature, body, secret, now),
    ensures
        step is MissingSignature <==> signature is None,
        step matches WebhookStep::Fulfill { session, payment } ==> {
            let event = reported_event(body, signature->0, secret, now, "sku"@);
            &&& event is Ok
            &&& !(event->Ok_0 is Other)
            &&& event->Ok_0 matches WebhookEventView::SessionCompleted(s) ==> session@ == info_of(s)
                && payment@ == payment_of(s)
            &&& event->Ok_0 matches WebhookEventView::PaymentSucceeded(s) ==> session@ == info_of(s)
                && payment@ == payment_of(s)
        },
{
}

/// What the shop does on a report from Stripe: nothing is fulfilled unless the
/// report is signed with the shop's secret, a short while ago.
pub fn webhook(signature: Option<&str>, body: &str, secret: &str, now: i64) -> (step: WebhookStep)
    requires
        now >= 0,
    ensures
        is_step_on(
            step,
            match signature {
                Some(sig) => Some(sig@),
                None => None,
            },
            body@,
            secret@,
            now,
        ),
        match signature {
            None => step is MissingSignature,
            Some(sig) => if is_too_old(sig@, now as int) {
                step is BadSignature
            } else {
                is_step_for(step, reported_event(body@, sig@, secret@, now, "sku"@))
            },
        },
{
    match signature {
        None => WebhookStep::MissingSignature,
        Some(sig) => {
            if too_old(sig, now) {
                return WebhookStep::BadSignature;
            }
            webhook_step(construct_event(body, sig, secret, now, "sku"))
        },
    }
}

/// Whether an API key moves real money.
pub open spec fn is_live_key(api_key: Seq<char>) -> bool {
    "sk_live_"@.is_prefix_of(api_key) || "rk_live_"@.is_prefix_of(api_key)
}

/// Whether an API key moves real money.
pub fn live_key(api_key: &str) -> (r: bool)
    ensures
        r == is_live_key(api_key@),
{
    starts_with(api_key, "sk_live_") || starts_with(api_key, "rk_live_")
}

/// Whether a payment is the one for a plan: real money under a live key and
/// test money under a test key, and the plan's price in its currency.
pub open spec fn pays_for(p: PaymentView, sku: Sku, live: bool) -> bool {
    &&& p.livemode == live
    &&& p.amount_total == Some(sku.amount_cents)
    &&& p.currency == Some(sku.currency@)
}

impl Payment {
    /// Whether the payment is the one for a plan.
    pub fn matches(&self, sku: &Sku, live: bool) -> (r: bool)
        ensures
            r == pays_for(self@, *sku, live),
            r <==> self.livemode == live && self.amount_total == Some(sku.amount_cents) && (
            self.currency matches Some(c) && c@ == sku.currency@),
    {
        let right_amount = match self.amount_total {
            Some(n) => n == sku.amount_cents,
            None => false,
        };
        let right_currency = match &self.currency {
            Some(c) => same(c, &sku.currency),
            None => false,
        };
        self.livemode == live && right_amount && right_currency
    }
}

/// A checkout session to be created.
#[derive(Debug)]
pub struct CheckoutRequest {
    pub price_id: String,
    pub quantity: u64,
    /// Goes into the metadata under `sku`.
    pub sku_id: String,
    /// The key and the label of the field that asks for the company.
    pub company_key: &'static str,
    pub company_label: &'static str,
    pub success_url: String,
    pub cancel_url: String,
}

/// Whether a checkout session is the one for one piece of a plan.
pub open spec fn is_checkout_of(r: CheckoutRequest, base_url: Seq<char>, sku: Sku) -> bool {
    &&& r.price_id == sku.stripe_price_id
    &&& r.quantity == 1
    &&& r.sku_id == sku.id
    &&& r.company_key@ == "company"@
    &&& r.company_label@ == "Company name"@
    &&& r.success_url@ == base_url + "/success?session_id={CHECKOUT_SESSION_ID}"@
    &&& r.cancel_url@ == base_url + "/"@
}

/// The checkout session for one piece of a plan. The buyer comes back to the
/// success page with the session's identifier, which Stripe fills in.
pub fn checkout_request(base_url: &str, sku: &Sku) -> (r: CheckoutRequest)
    ensures
        is_checkout_of(r, base_url@, *sku),
        r.price_id@ == sku.stripe_price_id@,
        r.quantity == 1,
        r.sku_id@ == sku.id@,
        r.success_url@ == base_url@ + "/success?session_id={CHECKOUT_SESSION_ID}"@,
        r.cancel_url@ == base_url@ + "/"@,
{
    CheckoutRequest {
        price_id: sku.stripe_price_id.clone(),
        quantity: 1,
        sku_id: sku.id.clone(),
        company_key: "company",
        company_label: "Company name",
        success_url: join2(base_url, "/success?session_id={CHECKOUT_SESSION_ID}"),
        cancel_url: join2(base_url, "/"),
    }
}

/// Whether a response code says that there is no such thing.
pub fn is_not_found(status: u16) -> (r: bool)
    ensures
        r == (status == 404),
{
    status == 404
}

/// The query that finds the product of a plan.
pub fn product_query(sku_id: &str) -> (r: String)
    ensures
        r@ == "metadata['sku']:'"@ + sku_id@ + "'"@,
{
    join3("metadata['sku']:'", sku_id, "'")
}

/// The product to use: the first that was found, if any was.
pub fn found_product(ids: Vec<String>) -> (r: Option<String>)
    ensures
        r == if ids@.len() > 0 {
            Some(ids@[0])
        } else {
            None
        },
{
    if ids.len() > 0 {
        Some(ids[0].clone())
    } else {
        None
    }
}

/// What Stripe says of a price that the catalog names.
#[derive(Debug)]
pub struct ExistingPrice {
    pub unit_amount: Option<i64>,
    /// A lower-case ISO code.
    pub currency: String,
    pub active: bool,
}

/// Whether a price is still good for a plan.
pub open spec fn still_good(p: ExistingPrice, sku: Sku) -> bool {
    p.active && p.unit_amount == Some(sku.amount_cents) && p.currency@ == sku.currency@
}

impl ExistingPrice {
    /// Whether the price is still good for a plan.
    pub fn is_good_for(&self, sku: &Sku) -> (r: bool)
        ensures
            r == still_good(*self, *sku),
            r <==> self.active && self.unit_amount == Some(sku.amount_cents) && self.currency@
                == sku.currency@,
    {
        let right_amount = match self.unit_amount {
            Some(n) => n == sku.amount_cents,
            None => false,
        };
        self.active && right_amount && same(&self.currency, &sku.currency)
    }
}

/// An active price of a product.
#[derive(Debug)]
pub struct ListedPrice {
    pub id: String,
    pub unit_amount: Option<i64>,
    pub currency: String,
    pub recurring: bool,
}

/// Whether a price is a one-time price of an amount.
pub open spec fn is_one_time(p: ListedPrice, amount: i64, currency: Seq<char>) -> bool {
    p.unit_amount == Some(amount) && p.currency@ == currency && !p.recurring
}

/// The identifier of the first one-time price of an amount.
pub open spec fn one_time_price(
    prices: Seq<ListedPrice>,
    amount: i64,
    currency: Seq<char>,
) -> Option<String>
    decreases prices.len(),
{
    if prices.len() == 0 {
        None
    } else if is_one_time(prices[0], amount, currency) {
        Some(prices[0].id)
    } else {
        one_time_price(prices.drop_first(), amount, currency)
    }
}

/// The price to use, if the product has it already.
pub fn found_price(prices: &Vec<ListedPrice>, amount: i64, currency: &str) -> (r: Option<String>)
    ensures
        r == one_time_price(prices@, amount, currency@),
{
    assert(prices@.skip(0) =~= prices@);
    for i in 0..prices.len()
        invariant
            one_time_price(prices@.skip(i as int), amount, currency@) == one_time_price(
                prices@,
                amount,
                currency@,
            ),
    {
        assert(prices@.skip(i as int).drop_first() =~= prices@.skip(i + 1));
        let right_amount = match prices[i].unit_amount {
            Some(n) => n == amount,
            None => false,
        };
        if right_amount && same(&prices[i].currency, currency) && !prices[i].recurring {
            return Some(prices[i].id.clone());
        }
    }
    None
}

/// Who pays what the checkout asks for gets the license: the price of a plan,
/// times the pieces that the checkout session is for, in the plan's currency,
/// with real money where the shop takes real money and test money where it
/// takes test money, is the payment for the plan.
pub proof fn lemma_charged_is_accepted(
    request: CheckoutRequest,
    base_url: Seq<char>,
    sku: Sku,
    p: PaymentView,
    live: bool,
)
    requires
        is_checkout_of(request, base_url, sku),
        p.amount_total matches Some(n) && n == request.quantity * sku.amount_cents,
        p.currency == Some(sku.currency@),
        p.livemode == live,
    ensures
        pays_for(p, sku, live),
{
}

/// A payment that is accepted for a plan is one of that plan's price, in its
/// currency and in the shop's mode. So it is accepted for two plans, or in two
/// shops, only if these agree in all three, and then it is accepted for both.
pub proof fn lemma_accepted_payments_agree(
    p: PaymentView,
    sku: Sku,
    live: bool,
    other: Sku,
    other_live: bool,
)
    requires
        pays_for(p, sku, live),
    ensures
        pays_for(p, other, other_live) <==> other.amount_cents == sku.amount_cents
            && other.currency@ == sku.currency@ && other_live == live,
        p.livemode == live,
        p.amount_total == Some(sku.amount_cents),
        p.currency == Some(sku.currency@),
{
}

/// A change of what was paid, of the currency or of the mode makes an accepted
/// payment unacceptable.
pub proof fn lemma_changed_payment_is_refused(
    p: PaymentView,
    changed: PaymentView,
    sku: Sku,
    live: bool,
)
    requires
        pays_for(p, sku, live),
    ensures
        pays_for(changed, sku, live) <==> changed.amount_total == p.amount_total
            && changed.currency == p.currency && changed.livemode == p.livemode,
{
}

/// A price that is kept for a plan sells it for what is accepted as its payment.
/// One of any other amount, lower or higher, of another currency, or one that
/// is archived, is not kept.
pub proof fn lemma_kept_price_is_the_plans(p: ExistingPrice, sku: Sku, paid: PaymentView, live: bool)
    requires
        paid.amount_total == p.unit_amount,
        paid.currency == Some(p.currency@),
        paid.livemode == live,
    ensures
        still_good(p, sku) <==> p.active && pays_for(paid, sku, live),
        p.unit_amount != Some(sku.amount_cents) ==> !still_good(p, sku),
        p.currency@ != sku.currency@ ==> !still_good(p, sku),
        !p.active ==> !still_good(p, sku),
        p.active && p.unit_amount == Some(sku.amount_cents) && p.currency@ == sku.currency@
            ==> still_good(p, sku),
{
}

/// The price that a product is found to have is a one-time price of the amount
/// and the currency that were looked for, and the first such. It is not found
/// only if there is none.
pub proof fn lemma_found_price_is_right(prices: Seq<ListedPrice>, amount: i64, currency: Seq<char>)
    ensures
        match one_time_price(prices, amount, currency) {
            Some(id) => exists|k: int|
                #![trigger prices[k]]
                {
                    &&& 0 <= k < prices.len()
                    &&& prices[k].id == id
                    &&& prices[k].unit_amount == Some(amount)
                    &&& prices[k].currency@ == currency
                    &&& !prices[k].recurring
                    &&& forall|j: int|
                        0 <= j < k ==> (#[trigger] prices[j]).unit_amount != Some(amount)
                            || prices[j].currency@ != currency || prices[j].recurring
                },
            None => forall|j: int|
                0 <= j < prices.len() ==> (#[trigger] prices[j]).unit_amount != Some(amount)
                    || prices[j].currency@ != currency || prices[j].recurring,
        },
    decreases prices.len(),
{
    if prices.len() > 0 {
        let rest = prices.drop_first();
        assert forall|j: int| 0 < j < prices.len() implies #[trigger] prices[j] == rest[j - 1] by {}
        if is_one_time(prices[0], amount, currency) {
            assert(prices[0].id == one_time_price(prices, amount, currency)->0);
        } else {
            lemma_found_price_is_right(rest, amount, currency);
            if let Some(id) = one_time_price(rest, amount, currency) {
                let k = choose|k: int|
                    #![trigger rest[k]]
                    {
                        &&& 0 <= k < rest.len()
                        &&& rest[k].id == id
                        &&& rest[k].unit_amount == Some(amount)
                        &&& rest[k].currency@ == currency
                        &&& !rest[k].recurring
                        &&& forall|j: int|
                            0 <= j < k ==> (#[trigger] rest[j]).unit_amount != Some(amount)
                                || rest[j].currency@ != currency || rest[j].recurring
                    };
                assert(prices[k + 1] == rest[k]);
            }
        }
    }
}

/// A price that was found for a plan once is good for it the next time, as long
/// as nobody archives it: to reconcile twice changes nothing the second time.
pub proof fn lemma_found_price_stays_good(listed: ListedPrice, again: ExistingPrice, sku: Sku)
    requires
        is_one_time(listed, sku.amount_cents, sku.currency@),
        again.active,
        again.unit_amount == listed.unit_amount,
        again.currency@ == listed.currency@,
    ensures
        still_good(again, sku),
{
}

/// The company of a session is what was typed into the first field with that
/// key, whatever the other fields hold.
pub proof fn lemma_company_is_the_first_typed(s: SessionView, i: int)
    requires
        0 <= i < s.custom_fields.len(),
        s.custom_fields[i].key == "company"@,
        forall|j: int| 0 <= j < i ==> (#[trigger] s.custom_fields[j]).key != "company"@,
    ensures
        info_of(s).company == s.custom_fields[i].value,
{
    lemma_typed_first(s.custom_fields, "company"@, i);
}

proof fn lemma_typed_first(fields: Seq<CustomFieldView>, key: Seq<char>, i: int)
    requires
        0 <= i < fields.len(),
        fields[i].key == key,
        forall|j: int| 0 <= j < i ==> (#[trigger] fields[j]).key != key,
    ensures
        typed(fields, key) == fields[i].value,
    decreases i,
{
    if i > 0 {
        assert(fields[0].key != key);
        assert forall|j: int| 0 <= j < i - 1 implies (#[trigger] fields.drop_first()[j]).key
            != key by {
            assert(fields.drop_first()[j] == fields[j + 1]);
        }
        lemma_typed_first(fields.drop_first(), key, i - 1);
    }
}

/// A session without a field for the company has no company.
pub proof fn lemma_no_field_no_company(s: SessionView)
    requires
        forall|j: int|
            0 <= j < s.custom_fields.len() ==> (#[trigger] s.custom_fields[j]).key != "company"@,
    ensures
        info_of(s).company is None,
{
    lemma_typed_none(s.custom_fields, "company"@);
}

proof fn lemma_typed_none(fields: Seq<CustomFieldView>, key: Seq<char>)
    requires
        forall|j: int| 0 <= j < fields.len() ==> (#[trigger] fields[j]).key != key,
    ensures
        typed(fields, key) is None,
    decreases fields.len(),
{
    if fields.len() > 0 {
        assert(fields[0].key != key);
        assert forall|j: int| 0 <= j < fields.drop_first().len() implies (
        #[trigger] fields.drop_first()[j]).key != key by {
            assert(fields.drop_first()[j] == fields[j + 1]);
        }
        lemma_typed_none(fields.drop_first(), key);
    }
}

/// What is read of a session is what the session holds, field by field. It is
/// paid if it is, or if there is nothing to pay; otherwise it is not.
pub proof fn lemma_session_is_read_as_it_is(s: SessionView)
    ensures
        info_of(s).id == s.id,
        info_of(s).sku == s.sku,
        info_of(s).email == s.email,
        info_of(s).name == s.name,
        info_of(s).url == s.url,
        s.payment_status is Paid ==> info_of(s).paid,
        s.payment_status is NoPaymentRequired ==> info_of(s).paid,
        s.payment_status is Unpaid ==> !info_of(s).paid,
        s.payment_status is Unknown ==> !info_of(s).paid,
        payment_of(s).livemode == s.livemode,
        payment_of(s).amount_total == s.amount_total,
        payment_of(s).currency == s.currency,
{
}

/// A report leads to a fulfillment exactly if it is of a completed checkout or
/// of a payment that came in later, and then to that of the session in it. A
/// report that is not accepted leads to none.
pub proof fn lemma_reports_are_fulfilled(
    step: WebhookStep,
    event: Result<WebhookEventView, Seq<char>>,
    s: SessionView,
)
    requires
        is_step_for(step, event),
    ensures
        step is Fulfill <==> (event matches Ok(e) && !(e is Other)),
        step is BadSignature <==> event is Err,
        !(step is MissingSignature),
        event == Ok::<WebhookEventView, Seq<char>>(WebhookEventView::SessionCompleted(s))
            || event == Ok::<WebhookEventView, Seq<char>>(WebhookEventView::PaymentSucceeded(s))
            ==> (step matches WebhookStep::Fulfill { session, payment } && session@ == info_of(s)
            && payment@ == payment_of(s)),
{
}

/// Keys that begin as Stripe's live keys do move real money, and those that
/// begin as its test keys do not, whatever follows.
pub proof fn lemma_live_keys(rest: Seq<char>)
    ensures
        is_live_key("sk_live_"@ + rest),
        is_live_key("rk_live_"@ + rest),
        !is_live_key("sk_test_"@ + rest),
        !is_live_key("rk_test_"@ + rest),
{
    reveal_strlit("sk_live_");
    reveal_strlit("rk_live_");
    reveal_strlit("sk_test_");
    reveal_strlit("rk_test_");
    assert(("sk_live_"@ + rest).take(8) =~= "sk_live_"@);
    assert(("rk_live_"@ + rest).take(8) =~= "rk_live_"@);
    assert(("sk_test_"@ + rest)[3] == 't');
    assert(("rk_test_"@ + rest)[3] == 't');
    assert("sk_live_"@[3] == 'l');
    assert("rk_live_"@[3] == 'l');
}

/// The last time in a signature header counts, and a header without one has
/// none.
pub proof fn lemma_last_time_counts(signature: Seq<char>, k: int)
    requires
        0 <= k < crate::text::pieces(signature, ',').len(),
        "t="@.is_prefix_of(crate::text::pieces(signature, ',')[k]),
        forall|j: int|
            k < j < crate::text::pieces(signature, ',').len() ==> !"t="@.is_prefix_of(
                #[trigger] crate::text::pieces(signature, ',')[j],
            ),
    ensures
        signature_time(signature) == crate::text::written_i64(
            crate::text::pieces(signature, ',')[k].skip(2),
        ),
{
    lemma_last_at(crate::text::pieces(signature, ','), "t="@, k);
}

proof fn lemma_last_at(list: Seq<Seq<char>>, prefix: Seq<char>, k: int)
    requires
        0 <= k < list.len(),
        prefix.is_prefix_of(list[k]),
        forall|j: int| k < j < list.len() ==> !prefix.is_prefix_of(#[trigger] list[j]),
    ensures
        last_with_prefix(list, prefix) == Some(list[k]),
    decreases list.len(),
{
    if k < list.len() - 1 {
        assert(!prefix.is_prefix_of(list[list.len() - 1]));
        let rest = list.drop_last();
        assert forall|j: int| k < j < rest.len() implies !prefix.is_prefix_of(
            #[trigger] rest[j],
        ) by {
            assert(rest[j] == list[j]);
        }
        lemma_last_at(rest, prefix, k);
    }
}

/// A time is too old only if more seconds have passed since than a number of
/// type `i64` can tell, so that no time since Unix time began is.
pub proof fn lemma_only_ancient_times_are_too_old(signature: Seq<char>, now: i64)
    requires
        now >= 0,
    ensures
        is_too_old(signature, now as int) <==> signature_time(signature) is Some && now
            - signature_time(signature)->0 > i64::MAX,
        is_too_old(signature, now as int) ==> signature_time(signature)->0 < 0,
{
}

/// A one-time price is one of the amount and the currency that does not recur.
pub proof fn lemma_one_time_prices(p: ListedPrice, amount: i64, currency: Seq<char>)
    ensures
        is_one_time(p, amount, currency) <==> !p.recurring && p.unit_amount is Some
            && p.unit_amount->0 == amount && p.currency@ == currency,
{
}

/// A session and its payment are seen as they are, field by field.
pub proof fn lemma_sessions_are_seen_as_they_are(i: SessionInfo, p: Payment, s: Session)
    ensures
        i@.id == i.id@ && i@.paid == i.paid,
        i@.sku == crate::text::opt_text(i.sku) && i@.email == crate::text::opt_text(i.email),
        i@.name == crate::text::opt_text(i.name) && i@.company == crate::text::opt_text(i.company),
        p@.livemode == p.livemode && p@.amount_total == p.amount_total && p@.currency
            == crate::text::opt_text(p.currency),
        s@.id == s.id@ && s@.payment_status == s.payment_status && s@.livemode == s.livemode,
        s@.amount_total == s.amount_total && s@.currency == crate::text::opt_text(s.currency),
        s@.email == crate::text::opt_text(s.email) && s@.name == crate::text::opt_text(s.name),
        s@.sku == crate::text::opt_text(s.sku) && s@.url == crate::text::opt_text(s.url),
        s@.custom_fields.len() == s.custom_fields@.len(),
        forall|k: int|
            0 <= k < s.custom_fields@.len() ==> s@.custom_fields[k].key == (
            #[trigger] s.custom_fields@[k]).key@ && s@.custom_fields[k].value
                == crate::text::opt_text(s.custom_fields@[k].value),
{
}

/// A checkout asks for the plan's price, once, and for the company under the
/// key by which it is read later. The session is for the plan, and brings the
/// buyer back to the shop.
pub proof fn lemma_checkout_is_for_one_piece(
    r: CheckoutRequest,
    base_url: Seq<char>,
    sku: Sku,
    s: SessionView,
)
    requires
        is_checkout_of(r, base_url, sku),
    ensures
        r.price_id@ == sku.stripe_price_id@,
        r.quantity == 1,
        r.sku_id@ == sku.id@,
        r.company_key@ == "company"@,
        r.company_label@ == "Company name"@,
        info_of(s).company == typed(s.custom_fields, r.company_key@),
        r.success_url@ == base_url + "/success?session_id={CHECKOUT_SESSION_ID}"@,
        r.cancel_url@ == base_url + "/"@,
        info_of(s).paid <==> s.payment_status is Paid || s.payment_status is NoPaymentRequired,
{
}

} // verus!
