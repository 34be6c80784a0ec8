use signet::cache::NegEntry;
use signet::catalog::{
    parse, AnalyticsConfig, Catalog, CatalogFile, CategoryConfig, FooterLinkConfig, PageConfig,
    ShopConfig, SkuConfig,
};
use signet::codec::decode_and_verify;
use signet::db::{inserted_or_existing, pool_plan, StoredLicense};
use signet::fulfill::{
    after_cache, after_insert, after_report, after_retrieved, after_stored, after_stored_again,
    after_stored_again_with, price_label, sanitize, Finished, FulfillError, FulfillOutcome, Next,
    PaidSession, Shop,
};
use signet::keys::SigningKey;
use signet::payments::{Payment, SessionInfo};
use signet::state::SigningKeys;

fn text_of(t: &toml::Table, key: &str) -> Option<String> {
    t.get(key).map(|v| v.as_str().unwrap().to_string())
}

fn tables(t: &toml::Table, key: &str) -> Vec<toml::Table> {
    match t.get(key) {
        Some(v) => v.as_array().unwrap().iter().map(|x| x.as_table().unwrap().clone()).collect(),
        None => vec![],
    }
}

fn limit_of(t: &toml::Table, key: &str) -> Option<u32> {
    t.get(key).map(|v| u32::try_from(v.as_integer().unwrap()).unwrap())
}

fn flag_of(t: &toml::Table, key: &str) -> bool {
    t.get(key).is_some_and(|v| v.as_bool().unwrap())
}

/// A catalog file, with what it leaves out at its default.
fn catalog_file(text: &str) -> CatalogFile {
    let root: toml::Table = text.parse().unwrap();
    let shop = match root.get("shop") {
        Some(v) => {
            let t = v.as_table().unwrap();
            ShopConfig {
                title: text_of(t, "title").unwrap_or(ShopConfig::default().title),
                payment_notice: text_of(t, "payment_notice"),
            }
        }
        None => ShopConfig::default(),
    };
    CatalogFile {
        shop,
        category: tables(&root, "category")
            .iter()
            .map(|t| CategoryConfig {
                id: text_of(t, "id").unwrap(),
                name: text_of(t, "name").unwrap(),
                description: text_of(t, "description"),
                url: text_of(t, "url"),
            })
            .collect(),
        sku: tables(&root, "sku")
            .iter()
            .map(|t| SkuConfig {
                id: text_of(t, "id").unwrap(),
                stripe_price_id: text_of(t, "stripe_price_id").unwrap_or_default(),
                category: text_of(t, "category").unwrap(),
                display_name: text_of(t, "display_name").unwrap(),
                description: text_of(t, "description"),
                url: text_of(t, "url"),
                price_label: text_of(t, "price_label").unwrap_or_default(),
                amount_cents: t["amount_cents"].as_integer().unwrap(),
                currency: text_of(t, "currency").unwrap(),
                tier: text_of(t, "tier").unwrap(),
                features: t.get("features").map_or(vec![], |v| {
                    v.as_array().unwrap().iter().map(|f| f.as_str().unwrap().to_string()).collect()
                }),
                max_orgs: limit_of(t, "max_orgs"),
                max_seats: limit_of(t, "max_seats"),
                term: text_of(t, "term").unwrap(),
            })
            .collect(),
        footer_link: tables(&root, "footer_link")
            .iter()
            .map(|t| FooterLinkConfig {
                title: text_of(t, "title").unwrap(),
                url: text_of(t, "url").unwrap(),
            })
            .collect(),
        page: tables(&root, "page")
            .iter()
            .map(|t| PageConfig {
                slug: text_of(t, "slug").unwrap(),
                title: text_of(t, "title").unwrap(),
                footer: flag_of(t, "footer"),
            })
            .collect(),
        analytics: root.get("analytics").map(|v| {
            let t = v.as_table().unwrap();
            AnalyticsConfig {
                src: text_of(t, "src").unwrap(),
                entity: text_of(t, "entity"),
                module: flag_of(t, "module"),
            }
        }),
    }
}

const CATALOG: &str = r#"
[[category]]
id = "acme"
name = "Acme"

[[category]]
id = "globex"
name = "Globex"

[[sku]]
id = "acme-business-annual"
category = "acme"
display_name = "Acme Business (annual)"
amount_cents = 49900
currency = "eur"
tier = "business"
features = ["orgs", "saml", "linux_auth"]
max_orgs = 50
max_seats = 200
term = "365d"

[[sku]]
id = "globex-pro-annual"
category = "globex"
display_name = "Globex Pro (annual)"
amount_cents = 29900
currency = "eur"
tier = "pro"
features = ["observability"]
term = "365d"
"#;

fn test_catalog() -> Catalog {
    parse(catalog_file(CATALOG)).unwrap()
}

/// Distinct signing keys, so that a product mix-up is detectable.
fn test_keys() -> SigningKeys {
    let mut keys = SigningKeys::new();
    keys.insert("acme".into(), SigningKey::from_bytes(&[9u8; 32]));
    keys.insert("globex".into(), SigningKey::from_bytes(&[11u8; 32]));
    keys
}

fn paid_session(id: &str, sku: &str) -> SessionInfo {
    SessionInfo {
        id: id.into(),
        paid: true,
        sku: Some(sku.into()),
        email: Some("buyer@acme.example".into()),
        name: Some("Jane Buyer".into()),
        company: Some("Acme GmbH".into()),
        url: None,
    }
}

fn payment(amount: i64) -> Payment {
    Payment { livemode: false, amount_total: Some(amount), currency: Some("eur".into()) }
}

/// Stored licenses, with one for each session at most.
struct Db {
    rows: Vec<StoredLicense>,
    emails: usize,
}

impl Db {
    fn get(&self, session: &str) -> Option<StoredLicense> {
        self.rows.iter().find(|r| r.stripe_session_id == session).cloned()
    }

    fn insert(&mut self, rec: StoredLicense) -> u64 {
        if self.get(&rec.stripe_session_id).is_some() {
            0
        } else {
            self.rows.push(rec);
            1
        }
    }

    fn finish(&mut self, f: Finished) -> FulfillOutcome {
        if f.notice.is_some() {
            self.emails += 1;
        }
        f.outcome
    }

    fn fulfill_paid(&mut self, session: SessionInfo, payment: Payment) -> FulfillOutcome {
        let (catalog, signing) = (test_catalog(), test_keys());
        let shop = Shop { catalog: &catalog, signing: &signing, live: false };
        let id = session.id.clone();
        let paid = match after_report(session, payment) {
            Next::Finish(f) => return self.finish(f),
            Next::Go(p) => p,
        };
        let stored = self.get(&id);
        let minted = match after_stored_again(&shop, paid, stored, 1_700_000_000).unwrap() {
            Next::Finish(f) => return self.finish(f),
            Next::Go(m) => m,
        };
        let rows = self.insert(minted.record.clone());
        let row = self.get(&id);
        let f = after_insert(minted, rows, row).unwrap();
        self.finish(f)
    }
}

fn db() -> Db {
    Db { rows: vec![], emails: 0 }
}

fn ready(o: FulfillOutcome) -> StoredLicense {
    match o {
        FulfillOutcome::Ready(r) => r,
        _ => panic!("expected Ready"),
    }
}

#[test]
fn paid_session_mints_once_and_is_stable() {
    let mut db = db();
    let rec = ready(db.fulfill_paid(paid_session("cs_1", "acme-business-annual"), payment(49900)));
    // The company custom field is the license identity, not the billing name.
    assert_eq!(rec.customer, "Acme GmbH");
    assert_eq!(rec.email, "buyer@acme.example");
    let blob = rec.blob;

    // Second call for the same session returns the identical stored blob.
    let second = db.fulfill_paid(paid_session("cs_1", "acme-business-annual"), payment(49900));
    assert_eq!(ready(second).blob, blob);
    assert_eq!(db.emails, 1);
}

#[test]
fn unpaid_session_is_pending() {
    let mut s = paid_session("cs_2", "acme-business-annual");
    s.paid = false;
    assert!(matches!(
        db().fulfill_paid(s, payment(49900)),
        FulfillOutcome::Pending
    ));
}

#[test]
fn licenses_are_signed_per_product_and_do_not_cross_verify() {
    let keys = test_keys();
    let acme_key = keys.get("acme").unwrap().verifying_key();
    let globex_key = keys.get("globex").unwrap().verifying_key();

    let mut db = db();
    let f = ready(db.fulfill_paid(paid_session("cs_f", "acme-business-annual"), payment(49900)));
    let s = ready(db.fulfill_paid(paid_session("cs_s", "globex-pro-annual"), payment(29900)));

    assert_eq!(f.product, "acme");
    assert_eq!(s.product, "globex");

    // Each blob verifies against its own product key only.
    assert!(decode_and_verify(&f.blob, &acme_key).is_ok());
    assert!(
        decode_and_verify(&f.blob, &globex_key).is_err(),
        "acme license must not verify with globex key"
    );
    assert!(decode_and_verify(&s.blob, &globex_key).is_ok());
    assert!(
        decode_and_verify(&s.blob, &acme_key).is_err(),
        "globex license must not verify with acme key"
    );
}

fn rec(session: &str, license: &str) -> StoredLicense {
    StoredLicense {
        stripe_session_id: session.into(),
        license_id: license.into(),
        product: "acme".into(),
        sku: "acme-business-annual".into(),
        customer: "Acme".into(),
        email: "a@b.c".into(),
        blob: format!("blob-for-{license}"),
        issued_at: 1_000_000,
    }
}

#[test]
fn insert_or_get_is_idempotent_on_session_id() {
    let mut db = db();
    let rows = db.insert(rec("cs_1", "lic_a"));
    let (first, inserted) = inserted_or_existing(rows, db.get("cs_1")).unwrap();
    assert_eq!(first.license_id, "lic_a");
    assert!(inserted, "first insert is fresh");
    let rows = db.insert(rec("cs_1", "lic_b"));
    let (second, inserted) = inserted_or_existing(rows, db.get("cs_1")).unwrap();
    assert_eq!(second.license_id, "lic_a");
    assert_eq!(second.blob, "blob-for-lic_a");
    assert!(!inserted, "second call must not insert");
    assert!(inserted_or_existing(1, None).is_err());
}

fn go(session: SessionInfo, p: Payment) -> PaidSession {
    match after_retrieved(Some((session, p))) {
        Next::Go(p) => p,
        Next::Finish(f) => panic!("expected a paid session, got {f:?}"),
    }
}

#[test]
fn a_license_says_what_was_bought() {
    let (catalog, signing) = (test_catalog(), test_keys());
    let shop = Shop { catalog: &catalog, signing: &signing, live: false };
    let paid = go(paid_session("cs_9", "acme-business-annual"), payment(49900));
    assert!(paid.paid());
    let minted = match after_stored_again_with(&shop, paid, None, 1_700_000_000, [2; 16]) {
        Ok(Next::Go(m)) => m,
        other => panic!("expected a license, got {other:?}"),
    };
    assert_eq!(minted.record.stripe_session_id, "cs_9");
    assert_eq!(minted.record.license_id, "02020202020242028202020202020202");
    assert_eq!(minted.record.sku, "acme-business-annual");
    assert_eq!(minted.record.issued_at, 1_700_000_000);
    assert_eq!(minted.expires_at, Some(1_700_000_000 + 365 * 86_400));
    assert_eq!(minted.product_display, "Acme Business (annual)");
    assert_eq!(minted.price_label, "eur 499.00");
    let key = signing.get("acme").unwrap().verifying_key();
    let claims = decode_and_verify(&minted.record.blob, &key).unwrap();
    assert_eq!(claims.customer, "Acme GmbH");
    assert_eq!(claims.email, "buyer@acme.example");
    assert_eq!(claims.tier, "business");
    assert_eq!(claims.product, "acme");
    assert_eq!(claims.features, ["orgs", "saml", "linux_auth"]);
    assert_eq!(claims.max_orgs, Some(50));
    assert_eq!(claims.max_seats, Some(200));
    assert_eq!(claims.note, "web:cs_9");
    assert_eq!(claims.expires_at, minted.expires_at);
}

#[test]
fn a_wrong_payment_holds_the_license_off() {
    let (catalog, signing) = (test_catalog(), test_keys());
    let shop = Shop { catalog: &catalog, signing: &signing, live: false };
    let wrong = |p: Payment| {
        let paid = go(paid_session("cs_1", "acme-business-annual"), p);
        match after_stored_again(&shop, paid, None, 0) {
            Ok(Next::Finish(f)) => {
                assert!(matches!(f.outcome, FulfillOutcome::Pending));
                assert_eq!(f.remember, Some(NegEntry::Unpaid));
                assert!(f.notice.is_none());
            }
            other => panic!("expected to hold off, got {other:?}"),
        }
    };
    wrong(payment(49899));
    wrong(payment(0));
    wrong(Payment { livemode: true, ..payment(49900) });
    wrong(Payment { currency: Some("usd".into()), ..payment(49900) });
    wrong(Payment { currency: None, ..payment(49900) });
    wrong(Payment { amount_total: None, ..payment(49900) });
}

#[test]
fn a_report_that_is_held_off_is_not_remembered() {
    let (catalog, signing) = (test_catalog(), test_keys());
    let shop = Shop { catalog: &catalog, signing: &signing, live: true };
    let paid = match after_report(paid_session("cs_1", "acme-business-annual"), payment(49900)) {
        Next::Go(p) => p,
        Next::Finish(f) => panic!("expected a paid session, got {f:?}"),
    };
    match after_stored_again(&shop, paid, None, 0) {
        Ok(Next::Finish(f)) => assert_eq!(f.remember, None),
        other => panic!("expected to hold off, got {other:?}"),
    }
}

#[test]
fn a_session_that_cannot_be_fulfilled_is_an_error() {
    let (catalog, signing) = (test_catalog(), test_keys());
    let shop = Shop { catalog: &catalog, signing: &signing, live: false };
    let fail = |s: SessionInfo, shop: &Shop| match after_stored_again(shop, go(s, payment(49900)), None, 0) {
        Err(e) => e.to_string(),
        Ok(x) => panic!("expected an error, got {x:?}"),
    };
    let mut s = paid_session("cs_1", "acme-business-annual");
    s.sku = None;
    assert_eq!(fail(s, &shop), "checkout session missing sku metadata");
    assert_eq!(fail(paid_session("cs_1", "nope"), &shop), "unknown sku in session metadata");
    let no_keys = SigningKeys::new();
    let shop = Shop { catalog: &catalog, signing: &no_keys, live: false };
    assert_eq!(
        fail(paid_session("cs_1", "acme-business-annual"), &shop),
        "no signing key for category acme"
    );
    assert_eq!(FulfillError::RowVanished.to_string(), "row vanished after insert");
}

#[test]
fn what_is_stored_wins_over_what_is_remembered() {
    match after_stored(Some(rec("cs_1", "lic_a"))) {
        Next::Finish(f) => assert_eq!(ready(f.outcome).license_id, "lic_a"),
        Next::Go(_) => panic!("expected the stored license"),
    }
    assert!(matches!(after_stored(None), Next::Go(_)));
    match after_cache(Some(NegEntry::Unpaid)) {
        Next::Finish(f) => assert!(matches!(f.outcome, FulfillOutcome::Pending)),
        Next::Go(_) => panic!("expected to be pending"),
    }
    match after_cache(Some(NegEntry::NotFound)) {
        Next::Finish(f) => assert!(matches!(f.outcome, FulfillOutcome::LookupFailed)),
        Next::Go(_) => panic!("expected no such session"),
    }
    assert!(matches!(after_cache(None), Next::Go(_)));
}

#[test]
fn sessions_that_stripe_does_not_know_are_remembered() {
    match after_retrieved(None) {
        Next::Finish(f) => {
            assert!(matches!(f.outcome, FulfillOutcome::LookupFailed));
            assert_eq!(f.remember, Some(NegEntry::NotFound));
        }
        Next::Go(_) => panic!("expected no such session"),
    }
    let mut s = paid_session("cs_1", "acme-business-annual");
    s.paid = false;
    match after_retrieved(Some((s, payment(49900)))) {
        Next::Finish(f) => {
            assert!(matches!(f.outcome, FulfillOutcome::Pending));
            assert_eq!(f.remember, Some(NegEntry::Unpaid));
        }
        Next::Go(_) => panic!("expected to be pending"),
    }
}

#[test]
fn a_license_stored_in_the_meantime_is_the_result() {
    let (catalog, signing) = (test_catalog(), test_keys());
    let shop = Shop { catalog: &catalog, signing: &signing, live: false };
    let paid = go(paid_session("cs_1", "nope"), payment(1));
    match after_stored_again(&shop, paid, Some(rec("cs_1", "lic_a")), 0) {
        Ok(Next::Finish(f)) => assert_eq!(ready(f.outcome).license_id, "lic_a"),
        other => panic!("expected the stored license, got {other:?}"),
    }
}

#[test]
fn the_notice_tells_of_the_stored_license() {
    let (catalog, signing) = (test_catalog(), test_keys());
    let shop = Shop { catalog: &catalog, signing: &signing, live: false };
    let minted = |id| match after_stored_again(&shop, go(paid_session(id, "acme-business-annual"), payment(49900)), None, 7) {
        Ok(Next::Go(m)) => m,
        other => panic!("expected a license, got {other:?}"),
    };
    let m = minted("cs_1");
    let row = m.record.clone();
    let f = after_insert(m, 1, Some(row.clone())).unwrap();
    let n = f.notice.unwrap();
    assert_eq!(n.buyer_email, "buyer@acme.example");
    assert_eq!(n.customer, "Acme GmbH");
    assert_eq!(n.product_display, "Acme Business (annual)");
    assert_eq!(n.license_id, row.license_id);
    assert_eq!(n.license_blob, row.blob);
    assert_eq!(n.expires_at, Some(7 + 365 * 86_400));
    assert_eq!(n.price_label, "eur 499.00");
    assert!(after_insert(minted("cs_1"), 0, Some(row)).unwrap().notice.is_none());
    assert!(matches!(
        after_insert(minted("cs_1"), 1, None),
        Err(FulfillError::RowVanished)
    ));
}

#[test]
fn names_are_cleaned() {
    assert_eq!(sanitize("Acme\r\nBcc: x@y.z\u{7f}\u{85}"), "AcmeBcc: x@y.z");
    assert_eq!(sanitize("Ünïcode GmbH"), "Ünïcode GmbH");
    assert_eq!(sanitize(&"x".repeat(500)), "x".repeat(200));
    assert_eq!(sanitize(&format!("\n{}", "ä".repeat(200))), "ä".repeat(200));
    assert_eq!(sanitize(""), "");
}

#[test]
fn the_customer_is_the_company_or_the_name() {
    let mut db = db();
    let mut s = paid_session("cs_1", "acme-business-annual");
    s.company = Some("Acme\tGmbH".into());
    assert_eq!(ready(db.fulfill_paid(s, payment(49900))).customer, "AcmeGmbH");
    let mut s = paid_session("cs_2", "acme-business-annual");
    s.company = None;
    assert_eq!(ready(db.fulfill_paid(s, payment(49900))).customer, "Jane Buyer");
    let mut s = paid_session("cs_3", "acme-business-annual");
    s.company = None;
    s.name = None;
    s.email = None;
    let r = ready(db.fulfill_paid(s, payment(49900)));
    assert_eq!(r.customer, "");
    assert_eq!(r.email, "");
}

#[test]
fn prices_have_a_label() {
    let mut cat = test_catalog();
    assert_eq!(price_label(&cat.skus[0]), "eur 499.00");
    cat.skus[0].amount_cents = 5;
    assert_eq!(price_label(&cat.skus[0]), "eur 0.05");
    cat.skus[0].amount_cents = 123456;
    assert_eq!(price_label(&cat.skus[0]), "eur 1234.56");
    cat.skus[0].amount_cents = -150;
    assert_eq!(price_label(&cat.skus[0]), "eur -1.50");
    cat.skus[0].price_label = "EUR 499 / year".into();
    assert_eq!(price_label(&cat.skus[0]), "EUR 499 / year");
}

#[test]
fn a_database_in_memory_has_one_connection() {
    let memory = pool_plan("sqlite::memory:");
    assert_eq!(memory.max_connections, 1);
    assert!(!memory.write_ahead_log);
    let file = pool_plan("sqlite://shop.db");
    assert_eq!(file.max_connections, 5);
    assert!(file.write_ahead_log);
    assert_eq!(file.busy_timeout_seconds, 5);
}

#[test]
fn a_stored_license_needs_no_date() {
    let (catalog, signing) = (test_catalog(), test_keys());
    let shop = Shop { catalog: &catalog, signing: &signing, live: false };
    let mut table = db();
    let first = ready(table.fulfill_paid(paid_session("cs_d", "acme-business-annual"), payment(49900)));
    let paid = go(paid_session("cs_d", "acme-business-annual"), payment(49900));
    assert!(paid.can_be_dated(&shop, 1_700_000_000));
    assert!(!paid.can_be_dated(&shop, i64::MAX));
    match after_stored_again(&shop, paid, Some(first.clone()), i64::MAX) {
        Ok(Next::Finish(f)) => {
            assert!(f.notice.is_none());
            let again = ready(f.outcome);
            assert_eq!(again.blob, first.blob);
            assert_eq!(again.license_id, first.license_id);
        }
        other => panic!("expected the stored license, got {other:?}"),
    }
    assert!(go(paid_session("cs_e", "no-such-plan"), payment(1)).can_be_dated(&shop, i64::MAX));
}
