use std::collections::hash_map::DefaultHasher;
use std::hash::{Hash, Hasher};
use signet::catalog::{
    parse, AnalyticsConfig, Catalog, CatalogFile, CategoryConfig, FooterLinkConfig, PageConfig,
    ShopConfig, SkuConfig,
};
use signet::content::{page_exists, render, render_markdown, safe_slug};
use signet::db::StoredLicense;
use signet::fulfill::FulfillOutcome;
use signet::payments::{
    live_key, webhook, webhook_step, CustomField, Payment, PaymentStatus, Session, SessionInfo, WebhookEvent,
    WebhookStep,
};
use signet::routes::{
    after_checkout, after_webhook, analytics_origin, category_groups, category_page,
    check_session_id, checkout, chrome, content_security_policy, is_valid_session_id, page_view,
    payment_notice, security_headers, success, success_download, theme_pref, webhook_refusal,
    DownloadReply, SuccessReply,
};
use signet::static_assets::{asset_name, etag, etag_for, mime_for, reply, AssetReply};
use stripe_webhook::Webhook;

fn text_of(t: &toml::Table, key: &str) -> Option<String> {
    t.get(key).map(|v| v.as_str().unwrap().to_string())
}

fn tables(t: &toml::Table, key: &str) -> Vec<toml::Table> {
    match t.get(key) {
        Some(v) => v.as_array().unwrap().iter().map(|x| x.as_table().unwrap().clone()).collect(),
        None => vec![],
    }
}

fn limit_of(t: &toml::Table, key: &str) -> Option<u32> {
    t.get(key).map(|v| u32::try_from(v.as_integer().unwrap()).unwrap())
}

fn flag_of(t: &toml::Table, key: &str) -> bool {
    t.get(key).is_some_and(|v| v.as_bool().unwrap())
}

/// A catalog file, with what it leaves out at its default.
fn catalog_file(text: &str) -> CatalogFile {
    let root: toml::Table = text.parse().unwrap();
    let shop = match root.get("shop") {
        Some(v) => {
            let t = v.as_table().unwrap();
            ShopConfig {
                title: text_of(t, "title").unwrap_or(ShopConfig::default().title),
                payment_notice: text_of(t, "payment_notice"),
            }
        }
        None => ShopConfig::default(),
    };
    CatalogFile {
        shop,
        category: tables(&root, "category")
            .iter()
            .map(|t| CategoryConfig {
                id: text_of(t, "id").unwrap(),
                name: text_of(t, "name").unwrap(),
                description: text_of(t, "description"),
                url: text_of(t, "url"),
            })
            .collect(),
        sku: tables(&root, "sku")
            .iter()
            .map(|t| SkuConfig {
                id: text_of(t, "id").unwrap(),
                stripe_price_id: text_of(t, "stripe_price_id").unwrap_or_default(),
                category: text_of(t, "category").unwrap(),
                display_name: text_of(t, "display_name").unwrap(),
                description: text_of(t, "description"),
                url: text_of(t, "url"),
                price_label: text_of(t, "price_label").unwrap_or_default(),
                amount_cents: t["amount_cents"].as_integer().unwrap(),
                currency: text_of(t, "currency").unwrap(),
                tier: text_of(t, "tier").unwrap(),
                features: t.get("features").map_or(vec![], |v| {
                    v.as_array().unwrap().iter().map(|f| f.as_str().unwrap().to_string()).collect()
                }),
                max_orgs: limit_of(t, "max_orgs"),
                max_seats: limit_of(t, "max_seats"),
                term: text_of(t, "term").unwrap(),
            })
            .collect(),
        footer_link: tables(&root, "footer_link")
            .iter()
            .map(|t| FooterLinkConfig {
                title: text_of(t, "title").unwrap(),
                url: text_of(t, "url").unwrap(),
            })
            .collect(),
        page: tables(&root, "page")
            .iter()
            .map(|t| PageConfig {
                slug: text_of(t, "slug").unwrap(),
                title: text_of(t, "title").unwrap(),
                footer: flag_of(t, "footer"),
            })
            .collect(),
        analytics: root.get("analytics").map(|v| {
            let t = v.as_table().unwrap();
            AnalyticsConfig {
                src: text_of(t, "src").unwrap(),
                entity: text_of(t, "entity"),
                module: flag_of(t, "module"),
            }
        }),
    }
}

const CATALOG: &str = r#"
[shop]
title = "Test Shop"

[[category]]
id = "acme"
name = "Acme Corp"

[[sku]]
id = "acme-annual"
stripe_price_id = "price_x"
category = "acme"
display_name = "Acme Annual"
amount_cents = 49900
currency = "eur"
tier = "business"
term = "365d"

[[page]]
slug = "terms"
title = "Terms"
"#;

fn catalog(text: &str) -> Catalog {
    parse(catalog_file(text)).unwrap()
}

#[test]
fn index_lists_categories() {
    let cat = catalog(CATALOG);
    let groups = category_groups(&cat, None);
    assert_eq!(groups.len(), 1);
    assert_eq!(groups[0].name, "Acme Corp");
    assert_eq!(groups[0].skus[0].display_name, "Acme Annual");
}

#[test]
fn category_known_and_unknown() {
    let cat = catalog(CATALOG);
    assert_eq!(category_page(&cat, "acme").unwrap().name, "Acme Corp");
    let missing = category_page(&cat, "nope").unwrap_err();
    assert_eq!(missing.status, 404);
    assert_eq!(missing.text, "unknown category");
}

#[test]
fn page_not_in_catalog_is_404() {
    let cat = catalog(CATALOG);
    let read = |_: &str| Some("# Text".to_string());
    let e = page_view(&cat, "content", "unknown", &read).unwrap_err();
    assert_eq!(e.status, 404);
    assert_eq!(e.text, "unknown page");
}

#[test]
fn page_without_markdown_is_404() {
    // "terms" is in the catalog but there is no terms.md.
    let cat = catalog(CATALOG);
    let read = |_: &str| None;
    let e = page_view(&cat, "content", "terms", &read).unwrap_err();
    assert_eq!(e.status, 404);
    assert_eq!(e.text, "page has no content");
}

#[test]
fn page_with_markdown_renders() {
    let cat = catalog(CATALOG);
    let read = |path: &str| match path {
        "content/terms.md" => Some("# Terms\n\nBody text.".to_string()),
        _ => None,
    };
    let page = page_view(&cat, "content", "terms", &read).unwrap();
    assert_eq!(page.title, "Terms");
    assert!(page.body.contains("<h1>Terms</h1>"));
    assert!(page.body.contains("Body text."));
}

#[test]
fn checkout_unknown_sku_is_400() {
    let cat = catalog(CATALOG);
    let e = checkout(&cat, "http://x", "nope").unwrap_err();
    assert_eq!(e.status, 400);
    assert!(e.text.contains("unknown product"));
}

#[test]
fn success_rejects_invalid_session_ids() {
    let over_long = format!("cs_{}", "a".repeat(300));
    // "nope": no prefix; "cs_bad$id": illegal char; "cs_": too short.
    for bad in ["nope", "cs_bad$id", "cs_", over_long.as_str()] {
        let e = check_session_id(bad).unwrap_err();
        assert_eq!(e.status, 400, "id {bad:?}");
        assert!(e.text.contains("invalid session id"));
    }
}

#[test]
fn success_download_rejects_invalid_session_id() {
    assert_eq!(check_session_id("nope").unwrap_err().status, 400);
}

#[test]
fn webhook_missing_and_bad_signature() {
    let step = webhook(None, "{}", "wh", 1_700_000_000);
    let missing = webhook_refusal(&step).unwrap();
    assert_eq!(missing.status, 400);
    assert!(missing.text.contains("missing signature"));

    let step = webhook(Some("t=1,v1=deadbeef"), "{}", "wh", 1_700_000_000);
    let bad = webhook_refusal(&step).unwrap();
    assert_eq!(bad.status, 400);
    assert!(bad.text.contains("bad signature"));
}

#[test]
fn security_headers_present() {
    let headers = security_headers(&catalog(CATALOG));
    let get = |name: &str| headers.iter().find(|h| h.name == name).unwrap().value.clone();
    assert_eq!(get("x-content-type-options"), "nosniff");
    assert_eq!(get("referrer-policy"), "no-referrer");
    let csp = get("content-security-policy");
    assert!(csp.contains("default-src 'self'"));
    assert!(csp.contains("form-action 'self' https://checkout.stripe.com"));
    assert!(csp.contains("frame-ancestors 'none'"));
}

#[test]
fn csp_reflects_analytics_config() {
    let with_analytics =
        format!("{CATALOG}\n[analytics]\nsrc = \"https://plausible.example/js/script.js\"\n");
    let csp = content_security_policy(&catalog(&with_analytics).analytics);
    assert!(csp.contains("script-src 'self' https://plausible.example"));
    assert!(csp.contains("connect-src 'self' https://plausible.example"));

    let csp = content_security_policy(&catalog(CATALOG).analytics);
    assert!(!csp.contains("plausible"));
    assert_eq!(
        csp,
        "default-src 'self'; img-src 'self' data:; base-uri 'none'; script-src 'self'; \
         connect-src 'self'; form-action 'self' https://checkout.stripe.com; \
         frame-ancestors 'none'"
    );
}

#[test]
fn theme_cookie_selects_palette() {
    assert_eq!(theme_pref(Some("license_theme=dark")), "dark");
    assert_eq!(theme_pref(Some("license_theme=bogus")), "system");
}

#[test]
fn the_first_theme_cookie_decides() {
    assert_eq!(theme_pref(None), "system");
    assert_eq!(theme_pref(Some("")), "system");
    assert_eq!(theme_pref(Some("a=b;  license_theme=light ; x=y")), "light");
    assert_eq!(theme_pref(Some("license_theme=dark; license_theme=light")), "dark");
    assert_eq!(theme_pref(Some("license_theme=x; license_theme=light")), "system");
    assert_eq!(theme_pref(Some("my_license_theme=light")), "system");
}

#[test]
fn origins_of_scripts() {
    assert_eq!(analytics_origin("https://a.b/c").as_deref(), Some("https://a.b"));
    assert_eq!(analytics_origin("https://a.b:8443/c/d").as_deref(), Some("https://a.b:8443"));
    assert_eq!(analytics_origin("https://a.b").as_deref(), Some("https://a.b"));
    assert_eq!(analytics_origin("https:///c"), None);
    assert_eq!(analytics_origin("http://a.b/c"), None);
}

#[test]
fn session_ids_have_a_shape() {
    assert!(is_valid_session_id("cs_1"));
    assert!(is_valid_session_id("cs_test_aB9_"));
    assert!(is_valid_session_id(&format!("cs_{}", "a".repeat(252))));
    assert!(!is_valid_session_id(&format!("cs_{}", "a".repeat(253))));
    assert!(!is_valid_session_id("cs_ä"));
    assert!(!is_valid_session_id("cs_a-b"));
    assert!(!is_valid_session_id("ds_abc"));
    assert!(check_session_id("cs_1").is_ok());
}

const FOOTER: &str = r#"
[[page]]
slug = "terms"
title = "Terms"
footer = true

[[page]]
slug = "privacy"
title = "Privacy"
footer = true

[[page]]
slug = "hidden"
title = "Hidden"

[[footer_link]]
title = "Home"
url = "https://x.example"

[analytics]
src = "https://a.b/c.js"
entity = "e"
module = true
"#;

#[test]
fn the_footer_links_to_pages_that_exist() {
    let cat = catalog(FOOTER);
    let is_file = |path: &str| path != "c/privacy.md";
    let ch = chrome(&cat, "c", Some("license_theme=light"), &is_file);
    assert_eq!(ch.theme, "light");
    let links: Vec<(&str, &str)> =
        ch.links.iter().map(|l| (l.title.as_str(), l.href.as_str())).collect();
    assert_eq!(links, [("Terms", "/p/terms"), ("Home", "https://x.example")]);
    let a = ch.analytics.unwrap();
    assert_eq!(a.src, "https://a.b/c.js");
    assert_eq!(a.entity.as_deref(), Some("e"));
    assert!(a.module);
    assert_eq!(
        ch.notice.as_deref(),
        Some("Payments are processed by Stripe, which collects your email, company name and payment details.")
    );
}

#[test]
fn the_payment_notice_can_be_replaced_or_hidden() {
    assert!(payment_notice(&None).unwrap().starts_with("Payments are processed by Stripe"));
    assert_eq!(payment_notice(&Some("mine".into())).as_deref(), Some("mine"));
    assert_eq!(payment_notice(&Some(String::new())), None);
}

#[test]
fn categories_without_plans_are_not_shown() {
    let cat = catalog(
        r#"
[[category]]
id = "b"
name = "B"

[[category]]
id = "empty"
name = "Empty"

[[category]]
id = "a"
name = "A"

[[sku]]
id = "a1"
category = "a"
display_name = "A1"
amount_cents = 1
currency = "eur"
tier = "t"
term = "1d"

[[sku]]
id = "b1"
category = "b"
display_name = "B1"
description = "first"
price_label = "EUR 1"
amount_cents = 1
currency = "eur"
tier = "t"
term = "1d"

[[sku]]
id = "a2"
category = "a"
display_name = "A2"
amount_cents = 1
currency = "eur"
tier = "t"
term = "1d"
"#,
    );
    let groups = category_groups(&cat, None);
    let ids: Vec<&str> = groups.iter().map(|g| g.id.as_str()).collect();
    assert_eq!(ids, ["b", "a"]);
    let plans: Vec<&str> = groups[1].skus.iter().map(|s| s.id.as_str()).collect();
    assert_eq!(plans, ["a1", "a2"]);
    assert_eq!(groups[0].skus[0].description.as_deref(), Some("first"));
    assert_eq!(groups[0].skus[0].price_label, "EUR 1");
    assert_eq!(category_groups(&cat, Some("a")).len(), 1);
    assert!(category_page(&cat, "empty").is_err());
}

#[test]
fn a_checkout_leads_back_to_the_shop() {
    let cat = catalog(CATALOG);
    let q = checkout(&cat, "https://buy.example", "acme-annual").unwrap();
    assert_eq!(q.price_id, "price_x");
    assert_eq!(q.quantity, 1);
    assert_eq!(q.sku_id, "acme-annual");
    assert_eq!(q.company_key, "company");
    assert_eq!(q.company_label, "Company name");
    assert_eq!(
        q.success_url,
        "https://buy.example/success?session_id={CHECKOUT_SESSION_ID}"
    );
    assert_eq!(q.cancel_url, "https://buy.example/");
    assert_eq!(after_checkout(Some(Some("u".into()))).unwrap(), "u");
    assert_eq!(after_checkout(Some(None)).unwrap_err().text, "stripe returned no url");
    let e = after_checkout(None).unwrap_err();
    assert_eq!((e.status, e.text), (502, "could not start checkout"));
}

fn license() -> StoredLicense {
    StoredLicense {
        stripe_session_id: "cs_1".into(),
        license_id: "l".into(),
        product: "acme".into(),
        sku: "acme-annual".into(),
        customer: "c".into(),
        email: "e".into(),
        blob: "BLOB".into(),
        issued_at: 0,
    }
}

#[test]
fn the_success_page_shows_how_it_went() {
    match success("cs_1".into(), Some(FulfillOutcome::Ready(license()))) {
        SuccessReply::Page { pending, session_id, blob, product } => {
            assert!(!pending);
            assert_eq!(session_id, "cs_1");
            assert_eq!(blob, "BLOB");
            assert_eq!(product, "acme");
        }
        other => panic!("expected the license, got {other:?}"),
    }
    assert!(matches!(
        success("cs_1".into(), Some(FulfillOutcome::Pending)),
        SuccessReply::Page { pending: true, .. }
    ));
    assert!(matches!(
        success("cs_1".into(), Some(FulfillOutcome::LookupFailed)),
        SuccessReply::ErrorPage { status: 404, title: "Checkout session not found", .. }
    ));
    assert!(matches!(
        success("cs_1".into(), None),
        SuccessReply::Plain(p) if p.status == 500 && p.text == "fulfillment error"
    ));
}

#[test]
fn the_license_can_be_downloaded() {
    match success_download("cs_1", Some(FulfillOutcome::Ready(license()))) {
        DownloadReply::File { disposition, blob } => {
            assert_eq!(disposition, "attachment; filename=\"acme-license.txt\"");
            assert_eq!(blob, "BLOB");
        }
        other => panic!("expected the license, got {other:?}"),
    }
    for outcome in [FulfillOutcome::Pending, FulfillOutcome::LookupFailed] {
        assert!(matches!(
            success_download("cs_1", Some(outcome)),
            DownloadReply::Redirect(url) if url == "/success?session_id=cs_1"
        ));
    }
    assert!(matches!(
        success_download("cs_1", None),
        DownloadReply::Plain(p) if p.status == 500 && p.text == "download error"
    ));
}

const SECRET: &str = "whsec_test";

fn event(kind: &str, object: &str) -> String {
    format!(
        "{{\"id\":\"evt_1\",\"object\":\"event\",\"api_version\":\"2017-05-25\",\
         \"created\":1492774577,\"livemode\":false,\"pending_webhooks\":1,\
         \"data\":{{\"object\":{object}}},\"type\":\"{kind}\"}}"
    )
}

#[test]
fn other_events_are_ignored() {
    let body = event(
        "account.external_account.created",
        "{\"object\":\"bank_account\",\"country\":\"us\",\"currency\":\"usd\",\"id\":\"ba_test\",\
         \"last4\":\"6789\",\"status\":\"verified\"}",
    );
    let now = 1_700_000_000;
    let sig = Webhook::generate_test_header(&body, SECRET, Some(now));
    let step = webhook(Some(&sig), &body, SECRET, now);
    assert!(matches!(step, WebhookStep::Ignore), "got {step:?}");
    assert!(webhook_refusal(&step).is_none());

    let late = webhook(Some(&sig), &body, SECRET, now + 301);
    assert!(matches!(late, WebhookStep::BadSignature));
    let wrong_secret = webhook(Some(&sig), &body, "whsec_other", now);
    assert!(matches!(wrong_secret, WebhookStep::BadSignature));
    let wrong_body = webhook(Some(&sig), "{}", SECRET, now);
    assert!(matches!(wrong_body, WebhookStep::BadSignature));
}

const SESSION: &str = r#"{
  "id": "cs_test_1", "object": "checkout.session", "created": 1700000000, "expires_at": 1700003600,
  "automatic_tax": {"enabled": false}, "custom_text": {}, "livemode": false, "mode": "payment",
  "payment_method_types": ["card"], "payment_status": "paid", "shipping_options": [],
  "amount_total": 49900, "currency": "eur", "url": null,
  "customer_details": {"email": "buyer@acme.example", "name": "Jane Buyer"},
  "custom_fields": [{
    "key": "company", "label": {"custom": "Company name", "type": "custom"}, "optional": false,
    "type": "text", "text": {"value": "Acme GmbH"}
  }],
  "metadata": {"other": "x", "sku": "acme-annual"}
}"#;

#[test]
fn a_signed_report_of_a_paid_session_is_fulfilled() {
    let now = 1_700_000_000;
    for kind in ["checkout.session.completed", "checkout.session.async_payment_succeeded"] {
        let body = event(kind, SESSION);
        let sig = Webhook::generate_test_header(&body, SECRET, Some(now));
        match webhook(Some(&sig), &body, SECRET, now + 300) {
            WebhookStep::Fulfill { session, payment } => {
                assert_eq!(session.id, "cs_test_1");
                assert!(session.paid);
                assert_eq!(session.sku.as_deref(), Some("acme-annual"));
                assert_eq!(session.email.as_deref(), Some("buyer@acme.example"));
                assert_eq!(session.name.as_deref(), Some("Jane Buyer"));
                assert_eq!(session.company.as_deref(), Some("Acme GmbH"));
                assert_eq!(session.url, None);
                assert!(!payment.livemode);
                assert_eq!(payment.amount_total, Some(49900));
                assert_eq!(payment.currency.as_deref(), Some("eur"));
            }
            other => panic!("expected to fulfill, got {other:?}"),
        }
    }
}

#[test]
fn sessions_are_read_as_stripe_has_them() {
    let body = event("checkout.session.completed", SESSION);
    let read = match Webhook::insecure(&body).unwrap().data.object {
        stripe_webhook::EventObject::CheckoutSessionCompleted(s) => SessionInfo::from_session(&s),
        _ => panic!("expected a completed session"),
    };
    assert_eq!(read.0.company.as_deref(), Some("Acme GmbH"));
    assert_eq!(read.1.amount_total, Some(49900));
}

#[test]
fn times_that_are_too_far_apart_are_refused() {
    let sig = Webhook::generate_test_header("{}", SECRET, Some(i64::MIN));
    assert!(matches!(
        webhook(Some(&sig), "{}", SECRET, 1_700_000_000),
        WebhookStep::BadSignature
    ));
    // At the beginning of time a moment before it is a moment ago.
    let body = event("checkout.session.completed", SESSION);
    for (t, fulfilled) in [(-1, true), (-299, true), (-302, false)] {
        let sig = Webhook::generate_test_header(&body, SECRET, Some(t));
        let step = webhook(Some(&sig), &body, SECRET, 1);
        assert_eq!(matches!(step, WebhookStep::Fulfill { .. }), fulfilled, "{t}");
    }
}

fn session(status: PaymentStatus) -> Session {
    Session {
        id: "cs_1".into(),
        payment_status: status,
        email: Some("e@x.y".into()),
        name: Some("Jane".into()),
        custom_fields: vec![
            CustomField { key: "vat".into(), value: Some("1".into()) },
            CustomField { key: "company".into(), value: Some("Acme".into()) },
            CustomField { key: "company".into(), value: Some("Other".into()) },
        ],
        sku: Some("acme-annual".into()),
        url: Some("u".into()),
        livemode: true,
        amount_total: Some(49900),
        currency: Some("eur".into()),
    }
}

#[test]
fn sessions_are_read() {
    let info = SessionInfo::from_plain(&session(PaymentStatus::Paid));
    assert_eq!(info.id, "cs_1");
    assert!(info.paid);
    assert_eq!(info.sku.as_deref(), Some("acme-annual"));
    assert_eq!(info.email.as_deref(), Some("e@x.y"));
    assert_eq!(info.name.as_deref(), Some("Jane"));
    assert_eq!(info.company.as_deref(), Some("Acme"));
    assert_eq!(info.url.as_deref(), Some("u"));
    assert!(SessionInfo::from_plain(&session(PaymentStatus::NoPaymentRequired)).paid);
    assert!(!SessionInfo::from_plain(&session(PaymentStatus::Unpaid)).paid);
    assert!(!SessionInfo::from_plain(&session(PaymentStatus::Unknown)).paid);
    let mut s = session(PaymentStatus::Paid);
    s.custom_fields[1].value = None;
    assert_eq!(SessionInfo::from_plain(&s).company, None);
    let p = Payment::from_plain(&session(PaymentStatus::Paid));
    assert!(p.livemode);
    assert_eq!(p.amount_total, Some(49900));
    assert_eq!(p.currency.as_deref(), Some("eur"));
}

#[test]
fn completed_checkouts_are_fulfilled() {
    for event in [
        WebhookEvent::SessionCompleted(session(PaymentStatus::Paid)),
        WebhookEvent::PaymentSucceeded(session(PaymentStatus::Paid)),
    ] {
        match webhook_step(Ok(event)) {
            WebhookStep::Fulfill { session, payment } => {
                assert_eq!(session.id, "cs_1");
                assert_eq!(payment.amount_total, Some(49900));
            }
            other => panic!("expected to fulfill, got {other:?}"),
        }
    }
    assert!(matches!(webhook_step(Ok(WebhookEvent::Other)), WebhookStep::Ignore));
    assert!(matches!(webhook_step(Err("x".into())), WebhookStep::BadSignature));
    assert_eq!(after_webhook(true).status, 200);
    let e = after_webhook(false);
    assert_eq!((e.status, e.text), (500, "fulfill error"));
}

#[test]
fn live_keys_are_told_from_test_keys() {
    assert!(live_key("sk_live_x"));
    assert!(live_key("rk_live_x"));
    assert!(!live_key("sk_test_x"));
    assert!(!live_key("rk_test_live_"));
}

#[test]
fn markdown_has_tables_and_strikethrough() {
    assert_eq!(render_markdown("~~no~~"), "<p><del>no</del></p>\n");
    assert!(render_markdown("|a|b|\n|-|-|\n|1|2|\n").contains("<table>"));
    let read = |path: &str| Some(path.to_string());
    assert_eq!(render("d", "terms", &read).as_deref(), Some("<p>d/terms.md</p>\n"));
    assert_eq!(render("d", "../terms", &read), None);
    assert_eq!(render("d", "", &read), None);
}

#[test]
fn only_safe_slugs_are_looked_for() {
    assert!(safe_slug("terms-2"));
    for bad in ["", "Terms", "a/b", "..", "a.b", "ä"] {
        assert!(!safe_slug(bad));
        assert!(!page_exists("d", bad, &|_: &str| true));
    }
    assert!(page_exists("d/", "terms", &|path: &str| path == "d/terms.md"));
    assert!(!page_exists("d", "terms", &|_: &str| false));
}

#[test]
fn static_files_are_named_and_typed() {
    assert_eq!(asset_name("/static/app.css"), "app.css");
    assert_eq!(asset_name("/static//static/app.css"), "app.css");
    assert_eq!(asset_name("/static/static/x"), "static/x");
    assert_eq!(asset_name("app.css"), "app.css");
    assert_eq!(mime_for("a.css"), "text/css; charset=utf-8");
    assert_eq!(mime_for("a.js"), "text/javascript; charset=utf-8");
    assert_eq!(mime_for("a.svg"), "image/svg+xml");
    assert_eq!(mime_for("a.css.map"), "application/octet-stream");
}

#[test]
fn an_unchanged_file_is_not_sent_again() {
    assert_eq!(etag(0xbeef), "\"beef\"");
    assert_eq!(etag(0), "\"0\"");
    let tag = etag_for(b"body {}");
    assert_eq!(tag, etag_for(b"body {}"));
    assert_ne!(tag, etag_for(b"body { }"));
    assert_ne!(etag_for(b""), etag_for(b"\0"));
    // On a machine with eight-byte words, this is how std hashes a slice.
    let mut hasher = DefaultHasher::new();
    b"body {}"[..].hash(&mut hasher);
    assert_eq!(tag, format!("\"{:x}\"", hasher.finish()));
    assert!(matches!(reply("a.css", None, None), AssetReply::NotFound));
    assert!(matches!(
        reply("a.css", Some(tag.clone()), Some(tag.clone())),
        AssetReply::NotModified { etag } if etag == tag
    ));
    for held in [None, Some("\"x\"".to_string())] {
        assert!(matches!(
            reply("a.css", Some(tag.clone()), held),
            AssetReply::Found { mime: "text/css; charset=utf-8", etag } if etag == tag
        ));
    }
}
