use signet::catalog::{Sku, Term};
use signet::payments::{
    found_price, found_product, is_not_found, product_query, ExistingPrice, ListedPrice,
};
use signet::provision::{
    after_ensured, after_price, describe, first_step, price_change, rewrite, set_price_id,
    AfterEnsured, AfterPrice, Change, FirstStep, PriceChange,
};

#[test]
fn set_price_id_preserves_comments_and_only_touches_match() {
    let src = r#"[[sku]]
id = "a"
stripe_price_id = ""        # fill me in
amount_cents = 100

[[sku]]
id = "b"
stripe_price_id = "price_keep"
amount_cents = 200
"#;
    let mut doc = src.parse::<toml_edit::DocumentMut>().unwrap();
    set_price_id(&mut doc, "a", "price_new");
    let out = doc.to_string();

    // The matched sku got the new id, keeping its trailing comment/alignment.
    assert!(
        out.contains(r#"stripe_price_id = "price_new"        # fill me in"#),
        "got:\n{out}"
    );
    // The other sku is untouched.
    assert!(out.contains(r#"stripe_price_id = "price_keep""#));
    // Nothing else moved.
    assert!(out.contains("amount_cents = 100"));
    assert!(out.contains("amount_cents = 200"));
}

#[test]
fn set_price_id_inserts_when_field_absent() {
    let src = "[[sku]]\nid = \"a\"\namount_cents = 100\n";
    let mut doc = src.parse::<toml_edit::DocumentMut>().unwrap();
    set_price_id(&mut doc, "a", "price_x");
    assert!(doc.to_string().contains(r#"stripe_price_id = "price_x""#));
}

#[test]
fn a_document_without_plans_stays_as_it_is() {
    for src in ["", "sku = 1\n", "[sku]\nid = \"a\"\n", "[[page]]\nid = \"a\"\n"] {
        let mut doc = src.parse::<toml_edit::DocumentMut>().unwrap();
        set_price_id(&mut doc, "a", "price_x");
        assert_eq!(doc.to_string(), src);
    }
}

fn change(sku: &str, price: &str) -> PriceChange {
    PriceChange { sku_id: sku.into(), price_id: price.into() }
}

#[test]
fn a_file_is_rewritten_only_where_it_changes() {
    let src = "# shop\n[[sku]]\nid = \"a\"\nstripe_price_id = 'p1' # one\n\n[[sku]]\nid = \"b\"\n";
    assert_eq!(rewrite(src, &vec![]).unwrap(), None);
    assert_eq!(
        rewrite(src, &vec![change("a", "p2")]).unwrap().unwrap(),
        "# shop\n[[sku]]\nid = \"a\"\nstripe_price_id = \"p2\" # one\n\n[[sku]]\nid = \"b\"\n"
    );
    let out = rewrite(src, &vec![change("a", "p2"), change("b", "p3"), change("a", "p4")])
        .unwrap()
        .unwrap();
    assert!(out.contains("\"p4\" # one"));
    assert!(out.contains("id = \"b\"\nstripe_price_id = \"p3\"\n"));
    assert!(!out.contains("p2"));
    assert!(rewrite("[[sku", &vec![]).is_err());
}

fn sku(price_id: &str) -> Sku {
    Sku {
        id: "acme-annual".into(),
        stripe_price_id: price_id.into(),
        category: "acme".into(),
        display_name: "Acme (annual)".into(),
        description: None,
        url: None,
        price_label: String::new(),
        amount_cents: 49900,
        currency: "eur".into(),
        tier: "business".into(),
        features: vec![],
        max_orgs: None,
        max_seats: None,
        term: Term::Lifetime,
    }
}

fn existing(amount: Option<i64>, currency: &str, active: bool) -> Option<ExistingPrice> {
    Some(ExistingPrice { unit_amount: amount, currency: currency.into(), active })
}

#[test]
fn a_good_price_is_left_alone() {
    assert!(matches!(first_step(&sku("")), FirstStep::Ensure));
    assert!(matches!(first_step(&sku("p1")), FirstStep::RetrievePrice(id) if id == "p1"));
    assert!(matches!(
        after_price(&sku("p1"), &existing(Some(49900), "eur", true)),
        AfterPrice::Unchanged
    ));
    for p in [
        existing(Some(49900), "eur", false),
        existing(Some(49901), "eur", true),
        existing(None, "eur", true),
        existing(Some(49900), "usd", true),
    ] {
        assert!(matches!(
            after_price(&sku("p1"), &p),
            AfterPrice::Ensure { old_exists: true }
        ));
    }
    assert!(matches!(
        after_price(&sku("p1"), &None),
        AfterPrice::Ensure { old_exists: false }
    ));
}

#[test]
fn a_superseded_price_is_archived_if_it_exists() {
    assert!(matches!(
        after_ensured(&sku(""), false, "p2".into()),
        AfterEnsured::Done(Change::Filled(id)) if id == "p2"
    ));
    assert!(matches!(
        after_ensured(&sku("p1"), true, "p1".into()),
        AfterEnsured::Done(Change::Unchanged)
    ));
    match after_ensured(&sku("p1"), true, "p2".into()) {
        AfterEnsured::Archive { price_id, change: Change::Updated { old, new } } => {
            assert_eq!(price_id, "p1");
            assert_eq!(old, "p1");
            assert_eq!(new, "p2");
        }
        other => panic!("expected to archive, got {other:?}"),
    }
    assert!(matches!(
        after_ensured(&sku("p1"), false, "p2".into()),
        AfterEnsured::Done(Change::Updated { .. })
    ));
}

#[test]
fn changes_are_recorded_and_described() {
    assert!(price_change(&sku("p1"), &Change::Unchanged).is_none());
    let c = price_change(&sku(""), &Change::Filled("p2".into())).unwrap();
    assert_eq!((c.sku_id.as_str(), c.price_id.as_str()), ("acme-annual", "p2"));
    let updated = Change::Updated { old: "p1".into(), new: "p2".into() };
    assert_eq!(price_change(&sku("p1"), &updated).unwrap().price_id, "p2");

    assert_eq!(
        describe(&sku("p1"), &Change::Unchanged),
        format!("{:<32} {:<8} {}", "acme-annual", "ok", "p1")
    );
    assert_eq!(
        describe(&sku(""), &Change::Filled("p2".into())),
        format!("{:<32} {:<8} {}", "acme-annual", "set", "p2")
    );
    assert_eq!(
        describe(&sku("p1"), &updated),
        format!("{:<32} {:<8} {} (was {})", "acme-annual", "updated", "p2", "p1")
    );
}

fn listed(id: &str, amount: i64, currency: &str, recurring: bool) -> ListedPrice {
    ListedPrice {
        id: id.into(),
        unit_amount: Some(amount),
        currency: currency.into(),
        recurring,
    }
}

#[test]
fn products_and_prices_are_reused() {
    assert_eq!(product_query("acme"), "metadata['sku']:'acme'");
    assert_eq!(found_product(vec!["a".into(), "b".into()]).as_deref(), Some("a"));
    assert_eq!(found_product(vec![]), None);
    let prices = vec![
        listed("p1", 4900, "usd", false),
        listed("p2", 4900, "eur", true),
        listed("p3", 4900, "eur", false),
        listed("p4", 4900, "eur", false),
    ];
    assert_eq!(found_price(&prices, 4900, "eur").as_deref(), Some("p3"));
    assert_eq!(found_price(&prices, 4901, "eur"), None);
    assert!(is_not_found(404));
    assert!(!is_not_found(500));
}

#[test]
fn what_stands_beside_a_price_stays() {
    let src = "[shop]\ntitle = \"T\" # shop\n\n# plans\n[[sku]]\n  id   = 'a'\n  stripe_price_id\t=\t\"\"\t# c \u{e9}\n  amount_cents = 1_00\n[sku.meta]\nn = 1\n\n[[sku]]\nid = \"b\"\nstripe_price_id=\"x\"#y\n# end\n";
    let changes = vec![change("a", "p1"), change("b", "p2")];
    let out = rewrite(src, &changes).unwrap().unwrap();
    let expected = src.replace("\t\"\"\t#", "\t\"p1\"\t#").replace("=\"x\"#y", "=\"p2\"#y");
    assert_eq!(out, expected);
    // Setting again what is there gives the same file.
    assert_eq!(rewrite(&out, &changes).unwrap().unwrap(), out);
}

#[test]
fn the_rewritten_file_reads_back_with_the_new_prices() {
    let src = "[[sku]]\nid = \"a\"\n\n[other]\nk = 1\n\n[[sku]]\nid = \"b\"\nstripe_price_id = 7 # no text\n\n[[sku]]\nid = \"c\"\n[sku.stripe_price_id]\nx = 1\n";
    let odd = "q\"\\\n\t\u{7f}'";
    let out = rewrite(src, &vec![change("a", odd), change("b", "p2"), change("c", "p3")])
        .unwrap()
        .unwrap();
    let doc = out.parse::<toml_edit::DocumentMut>().unwrap();
    let prices: Vec<&str> = doc["sku"]
        .as_array_of_tables()
        .unwrap()
        .iter()
        .map(|t| t["stripe_price_id"].as_str().unwrap())
        .collect();
    assert_eq!(prices, [odd, "p2", "p3"]);
    assert!(out.contains("\"p2\" # no text"));
    assert_eq!(doc["other"]["k"].as_integer(), Some(1));
}
