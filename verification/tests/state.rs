use signet::catalog::{
    parse, CatalogFile, CategoryConfig, ShopConfig,
};
use signet::keys::SigningKey;
use signet::state::{load_signing_keys, needed_keys, KeyFile, KeyProblem, KeyRead, SigningKeys};
use signet::text::{
    contains, cut_at_either, ends_with, eq_ignore_ascii_case, join, parse_i64, split_at_each,
    starts_with, strip_prefix, trim, trim_end_slashes, write_decimal, write_hex, write_int,
};

fn read(category: &str, bytes: Result<Vec<u8>, String>) -> KeyRead {
    KeyRead {
        file: KeyFile { category: category.into(), path: format!("keys/{category}") },
        read: bytes,
    }
}

#[test]
fn every_category_needs_its_web_key() {
    let category = |id: &str| CategoryConfig {
        id: id.into(),
        name: "N".into(),
        description: None,
        url: None,
    };
    let catalog = parse(CatalogFile {
        shop: ShopConfig::default(),
        category: vec![category("globex"), category("acme")],
        sku: vec![],
        footer_link: vec![],
        page: vec![],
        analytics: None,
    })
    .unwrap();
    let files: Vec<(String, String)> =
        needed_keys("./keys", &catalog).into_iter().map(|f| (f.category, f.path)).collect();
    assert_eq!(
        files,
        [
            ("acme".to_string(), "./keys/acme/web-private.bin".to_string()),
            ("globex".to_string(), "./keys/globex/web-private.bin".to_string()),
        ]
    );
}

#[test]
fn keys_are_loaded_for_each_category() {
    let keys = load_signing_keys(vec![read("a", Ok(vec![1; 32])), read("b", Ok(vec![2; 32]))])
        .unwrap_or_else(|e| panic!("{e:?}"));
    assert_eq!(keys.get("a").unwrap().to_bytes(), [1; 32]);
    assert_eq!(keys.get("b").unwrap().to_bytes(), [2; 32]);
    assert!(keys.get("c").is_none());
}

#[test]
fn a_missing_key_stops_the_shop() {
    let fail = |reads| match load_signing_keys(reads) {
        Err(e) => e,
        Ok(_) => panic!("expected an error"),
    };
    let e = fail(vec![read("a", Err("gone".into())), read("b", Ok(vec![]))]);
    assert_eq!(e.to_string(), "read signing key keys/a");
    assert!(matches!(e, KeyProblem::Unreadable { .. }));
    let e = fail(vec![read("a", Ok(vec![0; 32])), read("b", Ok(vec![0; 33]))]);
    assert_eq!(e.to_string(), "keys/b is not 32 bytes");
    assert!(matches!(e, KeyProblem::WrongLength { .. }));
}

#[test]
fn a_second_key_takes_the_place_of_the_first() {
    let mut keys = SigningKeys::new();
    keys.insert("a".into(), SigningKey::from_bytes(&[1; 32]));
    keys.insert("a".into(), SigningKey::from_bytes(&[2; 32]));
    assert_eq!(keys.get("a").unwrap().to_bytes(), [2; 32]);
}

#[test]
fn texts_are_searched_and_cut() {
    assert!(starts_with("abc", "ab") && !starts_with("abc", "b") && starts_with("", ""));
    assert!(ends_with("abc", "bc") && !ends_with("bc", "abc"));
    assert!(contains("abcabd", "abd") && contains("x", "") && !contains("ab", "abc"));
    assert_eq!(strip_prefix("abc", "ab"), Some("c"));
    assert_eq!(strip_prefix("abc", "x"), None);
    assert_eq!(cut_at_either("host:80/x", '/', ':'), "host");
    assert_eq!(cut_at_either("host", '/', ':'), "host");
    assert_eq!(split_at_each("a;b;;c", ';'), ["a", "b", "", "c"]);
    assert_eq!(split_at_each("", ';'), [""]);
    assert_eq!(trim(" \u{a0}a b\n"), "a b");
    assert_eq!(trim(" \t "), "");
    assert_eq!(trim_end_slashes("/a//"), "/a");
    assert!(eq_ignore_ascii_case("LifeTime", "lifetime") && !eq_ignore_ascii_case("Ä", "ä"));
    assert_eq!(join(&vec!["a".into(), "b".into()], ", "), "a, b");
    assert_eq!(join(&vec![], ", "), "");
}

#[test]
fn numbers_are_written_and_read() {
    assert_eq!(write_decimal(0), "0");
    assert_eq!(write_decimal(u64::MAX), "18446744073709551615");
    assert_eq!(write_hex(0xdead_beef), "deadbeef");
    assert_eq!(write_int(i64::MIN), "-9223372036854775808");
    assert_eq!(parse_i64("-9223372036854775808"), Some(i64::MIN));
    assert_eq!(parse_i64("9223372036854775807"), Some(i64::MAX));
    assert_eq!(parse_i64("9223372036854775808"), None);
    assert_eq!(parse_i64("+007"), Some(7));
    for bad in ["", "+", "-", "1 ", "1d", "١"] {
        assert_eq!(parse_i64(bad), None);
    }
}
