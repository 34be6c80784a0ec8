use signet::catalog::{
    default_path, parse, parse_term, AnalyticsConfig, Catalog, CatalogError, CatalogFile,
    CategoryConfig, FooterLinkConfig, PageConfig, ShopConfig, SkuConfig, Term, TermProblem,
};
use std::str::FromStr;
use stripe_types::Currency;

fn text_of(t: &toml::Table, key: &str) -> Option<String> {
    t.get(key).map(|v| v.as_str().unwrap().to_string())
}

fn tables(t: &toml::Table, key: &str) -> Vec<toml::Table> {
    match t.get(key) {
        Some(v) => v.as_array().unwrap().iter().map(|x| x.as_table().unwrap().clone()).collect(),
        None => vec![],
    }
}

fn limit_of(t: &toml::Table, key: &str) -> Option<u32> {
    t.get(key).map(|v| u32::try_from(v.as_integer().unwrap()).unwrap())
}

fn flag_of(t: &toml::Table, key: &str) -> bool {
    t.get(key).is_some_and(|v| v.as_bool().unwrap())
}

/// A catalog file, with what it leaves out at its default.
fn catalog_file(text: &str) -> CatalogFile {
    let root: toml::Table = text.parse().unwrap();
    let shop = match root.get("shop") {
        Some(v) => {
            let t = v.as_table().unwrap();
            ShopConfig {
                title: text_of(t, "title").unwrap_or(ShopConfig::default().title),
                payment_notice: text_of(t, "payment_notice"),
            }
        }
        None => ShopConfig::default(),
    };
    CatalogFile {
        shop,
        category: tables(&root, "category")
            .iter()
            .map(|t| CategoryConfig {
                id: text_of(t, "id").unwrap(),
                name: text_of(t, "name").unwrap(),
                description: text_of(t, "description"),
                url: text_of(t, "url"),
            })
            .collect(),
        sku: tables(&root, "sku")
            .iter()
            .map(|t| SkuConfig {
                id: text_of(t, "id").unwrap(),
                stripe_price_id: text_of(t, "stripe_price_id").unwrap_or_default(),
                category: text_of(t, "category").unwrap(),
                display_name: text_of(t, "display_name").unwrap(),
                description: text_of(t, "description"),
                url: text_of(t, "url"),
                price_label: text_of(t, "price_label").unwrap_or_default(),
                amount_cents: t["amount_cents"].as_integer().unwrap(),
                currency: text_of(t, "currency").unwrap(),
                tier: text_of(t, "tier").unwrap(),
                features: t.get("features").map_or(vec![], |v| {
                    v.as_array().unwrap().iter().map(|f| f.as_str().unwrap().to_string()).collect()
                }),
                max_orgs: limit_of(t, "max_orgs"),
                max_seats: limit_of(t, "max_seats"),
                term: text_of(t, "term").unwrap(),
            })
            .collect(),
        footer_link: tables(&root, "footer_link")
            .iter()
            .map(|t| FooterLinkConfig {
                title: text_of(t, "title").unwrap(),
                url: text_of(t, "url").unwrap(),
            })
            .collect(),
        page: tables(&root, "page")
            .iter()
            .map(|t| PageConfig {
                slug: text_of(t, "slug").unwrap(),
                title: text_of(t, "title").unwrap(),
                footer: flag_of(t, "footer"),
            })
            .collect(),
        analytics: root.get("analytics").map(|v| {
            let t = v.as_table().unwrap();
            AnalyticsConfig {
                src: text_of(t, "src").unwrap(),
                entity: text_of(t, "entity"),
                module: flag_of(t, "module"),
            }
        }),
    }
}

fn parsed(text: &str) -> Result<Catalog, CatalogError> {
    parse(catalog_file(text))
}

const SAMPLE: &str = r#"
[shop]
title = "Test Shop"

[[category]]
id = "acme"
name = "Acme"
description = "IAM"
url = "https://acme.example"

[[sku]]
id = "acme-annual"
category = "acme"
display_name = "Acme (annual)"
description = "Annual plan"
url = "https://acme.example/annual"
price_label = "EUR 499 / year"
amount_cents = 49900
currency = "eur"
tier = "business"
features = ["orgs", "saml"]
max_orgs = 50
term = "365d"

[[sku]]
id = "acme-lifetime"
category = "acme"
display_name = "Acme (lifetime)"
amount_cents = 149900
currency = "eur"
tier = "business"
term = "lifetime"
"#;

#[test]
fn parses_and_converts() {
    let cat = parsed(SAMPLE).unwrap();
    assert_eq!(cat.shop.title, "Test Shop");
    assert_eq!(cat.skus.len(), 2);
    assert_eq!(
        cat.category_ids().into_iter().collect::<Vec<_>>(),
        vec!["acme"]
    );

    let acme = cat.categories.iter().find(|c| c.id == "acme").unwrap();
    assert_eq!(acme.name, "Acme");
    assert_eq!(acme.description.as_deref(), Some("IAM"));
    assert_eq!(acme.url.as_deref(), Some("https://acme.example"));

    let annual = cat.by_id("acme-annual").unwrap();
    assert_eq!(Currency::from_str(&annual.currency).unwrap(), Currency::EUR);
    assert_eq!(annual.description.as_deref(), Some("Annual plan"));
    let p = annual.to_issue_params("Acme".into(), "a@b.c".into(), 1_000_000, "web".into());
    assert_eq!(p.product, "acme");
    assert_eq!(p.features, vec!["orgs", "saml"]);
    assert_eq!(p.max_orgs, Some(50));
    assert_eq!(p.expires_at, Some(1_000_000 + 365 * 86_400));

    // Optional fields default to None when omitted.
    let life = cat.by_id("acme-lifetime").unwrap();
    assert_eq!(life.description, None);
    let lp = life.to_issue_params("Acme".into(), "a@b.c".into(), 0, String::new());
    assert_eq!(lp.expires_at, None);
}

#[test]
fn default_title_when_shop_omitted() {
    let cat = parsed(
        r#"
[[category]]
id = "p"
name = "P"

[[sku]]
id = "x"
category = "p"
display_name = "X"
amount_cents = 100
currency = "eur"
tier = "t"
term = "lifetime"
"#,
    )
    .unwrap();
    assert_eq!(cat.shop.title, "License Shop");
}

#[test]
fn rejects_duplicate_ids() {
    let dup = r#"
[[category]]
id = "p"
name = "P"

[[sku]]
id = "x"
category = "p"
display_name = "X"
amount_cents = 100
currency = "eur"
tier = "t"
term = "lifetime"

[[sku]]
id = "x"
category = "p"
display_name = "X2"
amount_cents = 100
currency = "eur"
tier = "t"
term = "lifetime"
"#;
    assert!(parsed(dup).is_err());
}

#[test]
fn rejects_sku_with_undefined_category() {
    let bad = r#"
[[category]]
id = "acme"
name = "Acme"

[[sku]]
id = "x"
category = "globex"
display_name = "X"
amount_cents = 100
currency = "eur"
tier = "t"
term = "lifetime"
"#;
    assert!(parsed(bad).is_err());
}

#[test]
fn rejects_reserved_or_non_slug_category_id() {
    let reserved = r#"
[[category]]
id = "success"
name = "Nope"
"#;
    assert!(parsed(reserved).is_err());
    let non_slug = r#"
[[category]]
id = "Acme Cloud"
name = "Nope"
"#;
    assert!(parsed(non_slug).is_err());
}

#[test]
fn rejects_duplicate_category_ids() {
    let bad = r#"
[[category]]
id = "acme"
name = "Acme"

[[category]]
id = "acme"
name = "Acme 2"
"#;
    assert!(parsed(bad).is_err());
}

#[test]
fn rejects_unknown_currency() {
    let bad = r#"
[[category]]
id = "p"
name = "P"

[[sku]]
id = "x"
category = "p"
display_name = "X"
amount_cents = 100
currency = "zzz"
tier = "t"
term = "lifetime"
"#;
    assert!(parsed(bad).is_err());
}

#[test]
fn ensure_provisioned_requires_price_ids() {
    let unprovisioned = r#"
[[category]]
id = "p"
name = "P"

[[sku]]
id = "x"
category = "p"
display_name = "X"
amount_cents = 100
currency = "eur"
tier = "t"
term = "lifetime"
"#;
    let cat = parsed(unprovisioned).unwrap();
    assert!(cat.ensure_provisioned().is_err());

    let provisioned = r#"
[[category]]
id = "p"
name = "P"

[[sku]]
id = "x"
stripe_price_id = "price_x"
category = "p"
display_name = "X"
amount_cents = 100
currency = "eur"
tier = "t"
term = "lifetime"
"#;
    let cat = parsed(provisioned).unwrap();
    assert!(cat.ensure_provisioned().is_ok());
}

#[test]
fn rejects_bad_term() {
    let bad = r#"
[[category]]
id = "p"
name = "P"

[[sku]]
id = "x"
category = "p"
display_name = "X"
amount_cents = 100
currency = "eur"
tier = "t"
term = "banana"
"#;
    assert!(parsed(bad).is_err());
}

fn file() -> CatalogFile {
    catalog_file(SAMPLE)
}

fn error(f: CatalogFile) -> String {
    parse(f).unwrap_err().to_string()
}

#[test]
fn every_problem_of_a_catalog_is_named() {
    let mut f = file();
    f.category[0].id = String::new();
    assert_eq!(error(f), "a [[category]] has an empty id");

    let mut f = file();
    f.category.push(CategoryConfig {
        id: "acme".into(),
        name: String::new(),
        description: None,
        url: None,
    });
    assert_eq!(error(f), "duplicate category id \"acme\"");

    let mut f = file();
    f.category[0].name = String::new();
    assert_eq!(error(f), "category \"acme\" has an empty name");

    let mut f = file();
    f.category[0].id = "Acme".into();
    assert_eq!(
        error(f),
        "category id \"Acme\" must be a slug (lowercase letters, digits, hyphens)"
    );

    for reserved in ["checkout", "success", "webhook", "static"] {
        let mut f = file();
        f.category[0].id = reserved.into();
        assert_eq!(
            error(f),
            format!("category id \"{reserved}\" is reserved (collides with a route)")
        );
    }

    let mut f = file();
    f.sku[1].id = String::new();
    assert_eq!(error(f), "a [[sku]] has an empty id");

    let mut f = file();
    f.sku[1].id = "acme-annual".into();
    assert_eq!(error(f), "duplicate sku id \"acme-annual\"");

    let mut f = file();
    f.sku[0].category = "globex".into();
    assert_eq!(
        error(f),
        "sku \"acme-annual\": category \"globex\" is not defined by any [[category]]"
    );

    let mut f = file();
    f.sku[0].currency = "EUR".into();
    assert_eq!(
        error(f),
        "sku \"acme-annual\": unknown currency \"EUR\" (use a lowercase ISO code like \"eur\")"
    );

    for amount in [0, -5] {
        let mut f = file();
        f.sku[0].amount_cents = amount;
        assert_eq!(
            error(f),
            format!("sku \"acme-annual\": amount_cents must be positive, got {amount}")
        );
    }

    let mut f = file();
    f.sku[0].term = " banana ".into();
    assert_eq!(
        error(f),
        "sku \"acme-annual\" term: term must be \"lifetime\" or \"<days>d\", got \"banana\""
    );
    let mut f = file();
    f.sku[0].term = "-3d".into();
    assert_eq!(error(f), "sku \"acme-annual\" term: term days must be positive, got -3");
    let mut f = file();
    f.sku[0].term = "36501d".into();
    assert_eq!(
        error(f),
        "sku \"acme-annual\" term: term days must be at most 36500, got 36501"
    );

    for slug in ["", "Terms", "a/b"] {
        let mut f = file();
        f.page.push(PageConfig { slug: slug.into(), title: "T".into(), footer: true });
        assert_eq!(
            error(f),
            format!("page slug \"{slug}\" must be a slug (lowercase letters, digits, hyphens)")
        );
    }
    let mut f = file();
    f.page.push(PageConfig { slug: "terms".into(), title: "T".into(), footer: true });
    f.page.push(PageConfig { slug: "terms".into(), title: "T".into(), footer: true });
    assert_eq!(error(f), "duplicate page slug \"terms\"");
    let mut f = file();
    f.page.push(PageConfig { slug: "terms".into(), title: String::new(), footer: true });
    assert_eq!(error(f), "page \"terms\" has an empty title");

    let mut f = file();
    f.footer_link.push(FooterLinkConfig { title: "T".into(), url: String::new() });
    assert_eq!(error(f), "a [[footer_link]] needs a non-empty title and url");

    let mut f = file();
    f.analytics = Some(AnalyticsConfig { src: "http://x".into(), entity: None, module: false });
    assert_eq!(error(f), "[analytics] src must be an https URL, got \"http://x\"");
}

#[test]
fn the_first_problem_is_named() {
    let mut f = file();
    f.category[0].name = String::new();
    f.sku[0].id = String::new();
    f.page.push(PageConfig { slug: String::new(), title: String::new(), footer: false });
    assert!(matches!(parse(f), Err(CatalogError::CategoryWithoutName(id)) if id == "acme"));
}

#[test]
fn terms_are_read_leniently() {
    assert!(matches!(parse_term("lifetime"), Ok(Term::Lifetime)));
    assert!(matches!(parse_term(" LifeTime\n"), Ok(Term::Lifetime)));
    assert!(matches!(parse_term("365d"), Ok(Term::Days(365))));
    assert!(matches!(parse_term("365"), Ok(Term::Days(365))));
    assert!(matches!(parse_term("+5d"), Ok(Term::Days(5))));
    assert!(matches!(parse_term("36500d"), Ok(Term::Days(36500))));
    assert!(matches!(parse_term("0d"), Err(TermProblem::NotPositive(0))));
    assert!(matches!(parse_term("36501d"), Err(TermProblem::TooLong(36501))));
    assert!(matches!(parse_term(""), Err(TermProblem::NotATerm)));
    assert!(matches!(parse_term("365dd"), Err(TermProblem::NotATerm)));
    assert!(matches!(
        parse_term("99999999999999999999d"),
        Err(TermProblem::NotATerm)
    ));
}

#[test]
fn category_ids_are_sorted() {
    let mut f = file();
    for id in ["zeta", "beta", "acme-2", "0"] {
        f.category.push(CategoryConfig {
            id: id.into(),
            name: "N".into(),
            description: None,
            url: None,
        });
    }
    assert_eq!(parse(f).unwrap().category_ids(), ["0", "acme", "acme-2", "beta", "zeta"]);
}

#[test]
fn missing_price_ids_are_listed() {
    let cat = parsed(SAMPLE).unwrap();
    let e = cat.ensure_provisioned().unwrap_err();
    assert_eq!(e.skus, ["acme-annual", "acme-lifetime"]);
    assert_eq!(
        e.to_string(),
        "SKU(s) missing stripe_price_id: acme-annual, acme-lifetime (run `signet-shop provision-stripe`)"
    );
}

#[test]
fn plans_and_pages_are_found_by_name() {
    let mut f = file();
    f.page.push(PageConfig { slug: "terms".into(), title: "Terms".into(), footer: true });
    let cat = parse(f).unwrap();
    assert_eq!(cat.by_id("acme-lifetime").unwrap().amount_cents, 149900);
    assert!(cat.by_id("acme").is_none());
    assert_eq!(cat.page("terms").unwrap().title, "Terms");
    assert!(cat.page("privacy").is_none());
}

#[test]
fn terms_can_be_dated_until_the_end_of_time() {
    let cat = parsed(SAMPLE).unwrap();
    let annual = cat.by_id("acme-annual").unwrap();
    assert!(annual.can_date(1_700_000_000));
    assert!(annual.can_date(i64::MAX - 365 * 86_400));
    assert!(!annual.can_date(i64::MAX - 365 * 86_400 + 1));
    assert!(cat.by_id("acme-lifetime").unwrap().can_date(i64::MAX));
}

#[test]
fn catalog_path_has_a_default() {
    assert_eq!(default_path(None), "./catalog.toml");
    assert_eq!(default_path(Some("/etc/c.toml".into())), "/etc/c.toml");
}
