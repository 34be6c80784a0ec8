use polymail::ProviderConfig;
use signet::mail::{
    after_attempt, base_email_table, blank_as_none, email_overrides, format_expiry, to_address,
    Address, AfterAttempt, Attempt, EmailConfig, EmailKind, EmailVariables, MailError, MailService,
    Provider, PurchaseNotice, Setting, SmtpTls,
};

fn notice() -> PurchaseNotice {
    PurchaseNotice {
        buyer_email: "buyer@acme.example".into(),
        customer: "Acme GmbH".into(),
        product_display: "Acme Business (annual)".into(),
        license_id: "lic_123".into(),
        license_blob: "SIGNET.blob.here".into(),
        expires_at: Some(1_700_000_000),
        price_label: "EUR 499 / year".into(),
    }
}

fn service() -> MailService {
    MailService {
        from: Address { email: "shop@example.com".into(), name: Some("Example Shop".into()) },
        operator: Some(Address { email: "ops@example.com".into(), name: None }),
        provider: Provider::Lettermint { token: "test-token".into() },
    }
}

/// A getter over a fixed map, standing in for the environment.
fn env(pairs: &[(&str, &str)]) -> impl Fn(&str) -> Option<String> {
    let map: std::collections::HashMap<String, String> =
        pairs.iter().map(|(k, v)| (k.to_string(), v.to_string())).collect();
    move |k: &str| map.get(k).cloned()
}

/// The settings that a file and the environment give.
fn load(base: &str, get: &impl Fn(&str) -> Option<String>) -> Option<toml::Table> {
    EmailConfig::load("catalog.toml", Some(base), get).unwrap()
}

fn text(t: &toml::Table, key: &str) -> Option<String> {
    t.get(key).map(|v| v.as_str().unwrap().to_string())
}

fn config(t: &toml::Table, provider: Provider) -> EmailConfig {
    EmailConfig::new(
        t.get("enabled").map(|v| v.as_bool().unwrap()),
        text(t, "from_address"),
        text(t, "from_name"),
        text(t, "operator_address"),
        text(t, "operator_name"),
        provider,
    )
}

fn polymail_provider(t: &toml::Table) -> ProviderConfig {
    toml::Value::Table(t.clone()).try_into().unwrap()
}

#[test]
fn load_disabled_when_no_provider() {
    assert!(load("", &env(&[])).is_none());
    assert!(EmailConfig::load("catalog.toml", None, &env(&[])).unwrap().is_none());
}

#[test]
fn load_env_only_lettermint() {
    let get = env(&[
        ("SIGNET_EMAIL__PROVIDER", "lettermint"),
        ("SIGNET_EMAIL__TOKEN", "lm_secret"),
        ("SIGNET_EMAIL__FROM_ADDRESS", "shop@example.com"),
        ("SIGNET_EMAIL__OPERATOR_ADDRESS", "ops@example.com"),
    ]);
    let t = load("", &get).unwrap();
    match polymail_provider(&t) {
        ProviderConfig::Lettermint { token } => assert_eq!(token, "lm_secret"),
        _ => panic!("expected lettermint provider"),
    }
    let cfg = config(&t, Provider::Lettermint { token: "lm_secret".into() });
    assert!(cfg.enabled);
    assert_eq!(cfg.from_address.as_deref(), Some("shop@example.com"));
    assert_eq!(cfg.operator_address.as_deref(), Some("ops@example.com"));
}

#[test]
fn load_smtp_parses_port_and_tls_from_env() {
    let get = env(&[
        ("SIGNET_EMAIL__PROVIDER", "smtp"),
        ("SIGNET_EMAIL__HOST", "smtp.example.com"),
        ("SIGNET_EMAIL__PORT", "587"),
        ("SIGNET_EMAIL__TLS", "start_tls"),
        ("SIGNET_EMAIL__USER", "u"),
        ("SIGNET_EMAIL__PASS", "p"),
        ("SIGNET_EMAIL__FROM_ADDRESS", "shop@example.com"),
    ]);
    match polymail_provider(&load("", &get).unwrap()) {
        ProviderConfig::Smtp { host, port, tls, user, pass } => {
            assert_eq!(host, "smtp.example.com");
            assert_eq!(port, Some(587));
            assert_eq!(tls, polymail::provider::smtp::SmtpTls::StartTls);
            assert_eq!(user.as_deref(), Some("u"));
            assert_eq!(pass.as_deref(), Some("p"));
        }
        _ => panic!("expected smtp provider"),
    }
}

#[test]
fn env_overrides_toml_secret() {
    // Base [email] table with a blank token; env fills it (env wins).
    let base =
        "[email]\nfrom_address = \"shop@example.com\"\nprovider = \"lettermint\"\ntoken = \"\"\n";
    let t = load(base, &env(&[("SIGNET_EMAIL__TOKEN", "lm_from_env")])).unwrap();
    match polymail_provider(&t) {
        ProviderConfig::Lettermint { token } => assert_eq!(token, "lm_from_env"),
        _ => panic!("expected lettermint provider"),
    }
    assert_eq!(text(&t, "from_address").as_deref(), Some("shop@example.com"));
}

fn email_config(from_address: Option<&str>, provider: Provider) -> EmailConfig {
    EmailConfig {
        enabled: true,
        from_address: from_address.map(|s| s.to_string()),
        from_name: None,
        operator_address: None,
        operator_name: None,
        provider,
    }
}

#[test]
fn from_config_rejects_missing_from_address() {
    let cfg = email_config(None, Provider::Lettermint { token: "tok".into() });
    assert!(MailService::from_config(cfg).is_err());
}

#[test]
fn from_config_rejects_empty_lettermint_token() {
    let cfg = email_config(Some("shop@example.com"), Provider::Lettermint { token: "".into() });
    assert!(MailService::from_config(cfg).is_err());
}

#[test]
fn from_config_builds_smtp_and_lettermint() {
    let smtp = email_config(
        Some("shop@example.com"),
        Provider::Smtp {
            host: "smtp.example.com".into(),
            port: Some(587),
            tls: SmtpTls::StartTls,
            user: Some("u".into()),
            pass: Some("p".into()),
        },
    );
    assert!(MailService::from_config(smtp).is_ok());

    let lettermint = EmailConfig {
        enabled: true,
        from_address: Some("shop@example.com".into()),
        from_name: Some("Shop".into()),
        operator_address: Some("ops@example.com".into()),
        operator_name: None,
        provider: Provider::Lettermint { token: "tok".into() },
    };
    let svc = MailService::from_config(lettermint).unwrap_or_else(|e| panic!("{e:?}"));
    assert_eq!(svc.from.email, "shop@example.com");
    assert_eq!(svc.from.name.as_deref(), Some("Shop"));
    let operator = svc.operator.unwrap();
    assert_eq!(operator.email, "ops@example.com");
    assert_eq!(operator.name, None);
}

#[test]
fn license_email_carries_key_and_expiry() {
    let svc = service();
    let email = svc.build_license_email(&notice());
    assert_eq!(email.subject, "Your Acme Business (annual) license");
    assert_eq!(email.from.email, "shop@example.com");
    assert_eq!(email.to.email, "buyer@acme.example");
    assert!(email.body.contains("SIGNET.blob.here"));
    assert!(email.body.contains("lic_123"));
    assert!(email.body.contains("2023-11-14")); // 1_700_000_000 -> 2023-11-14
}

#[test]
fn lifetime_license_shows_no_expiry() {
    let svc = service();
    let mut n = notice();
    n.expires_at = None;
    let email = svc.build_license_email(&n);
    assert!(email.body.contains("Lifetime (no expiry)"));
}

#[test]
fn operator_email_addresses_operator() {
    let svc = service();
    let email = svc.build_operator_email(svc.operator.as_ref().unwrap(), &notice());
    assert_eq!(email.subject, "New license sold: Acme Business (annual)");
    assert_eq!(email.to.email, "ops@example.com");
    assert!(email.body.contains("Acme GmbH"));
    assert!(email.body.contains("buyer@acme.example"));
    assert!(email.body.contains("EUR 499 / year"));
}

#[test]
fn emails_read_as_they_should() {
    let emails = service().purchase_emails(&notice());
    let license = emails.license.unwrap();
    assert_eq!(
        license.body,
        "Hi,\n\nthank you for your purchase. Your Acme Business (annual) license is below.\n\n\
         License key:\nSIGNET.blob.here\n\nLicense ID: lic_123\nExpires:    2023-11-14\n\n\
         Keep this key safe; it is your proof of license.\n"
    );
    assert_eq!(license.to.name.as_deref(), Some("Acme GmbH"));
    let operator = emails.operator.unwrap();
    assert_eq!(
        operator.body,
        "A new license was sold.\n\nProduct:     Acme Business (annual)\nCustomer:    Acme GmbH\n\
         Buyer email: buyer@acme.example\nPrice:       EUR 499 / year\nLicense ID:  lic_123\n\
         Expires:     2023-11-14\n"
    );
}

#[test]
fn no_address_no_email() {
    let mut n = notice();
    n.buyer_email = String::new();
    n.customer = String::new();
    let emails = service().purchase_emails(&n);
    assert!(emails.license.is_none());
    assert!(emails.operator.unwrap().body.contains("Buyer email: (none)\n"));
    let mut svc = service();
    svc.operator = None;
    assert!(svc.purchase_emails(&notice()).operator.is_none());
}

#[test]
fn an_empty_name_is_none() {
    assert_eq!(to_address("a@b.c".into(), Some("".into())).name, None);
    assert_eq!(to_address("a@b.c".into(), Some("A".into())).name.as_deref(), Some("A"));
    assert_eq!(blank_as_none(Some(String::new())), None);
    assert_eq!(blank_as_none(Some("x".into())).as_deref(), Some("x"));
    let cfg = EmailConfig::new(
        None,
        Some("".into()),
        Some("".into()),
        None,
        None,
        Provider::Lettermint { token: "t".into() },
    );
    assert!(cfg.enabled);
    assert_eq!(cfg.from_address, None);
    assert_eq!(cfg.from_name, None);
}

#[test]
fn expiries_in_words() {
    assert_eq!(format_expiry(None), "Lifetime (no expiry)");
    assert_eq!(format_expiry(Some(0)), "1970-01-01");
    assert_eq!(format_expiry(Some(i64::MAX)), "unknown");
}

fn variables() -> EmailVariables {
    EmailVariables {
        from_address: None,
        from_name: None,
        operator_address: None,
        operator_name: None,
        provider: None,
        token: None,
        host: None,
        tls: None,
        user: None,
        pass: None,
        port: None,
        enabled: None,
    }
}

#[test]
fn the_environment_is_typed() {
    let mut v = variables();
    v.port = Some("587x".into());
    let e = email_overrides(v).err().unwrap();
    assert_eq!(e.to_string(), "SIGNET_EMAIL__PORT is not a valid port: \"587x\"");
    assert!(matches!(e, MailError::BadPort(_)));

    for (word, on) in [("1", true), ("true", true), ("yes", true), ("on", true), ("off", false)] {
        let mut v = variables();
        v.enabled = Some(word.into());
        let list = email_overrides(v).unwrap();
        assert_eq!(list.len(), 1);
        assert_eq!(list[0].key, "enabled");
        assert!(matches!(list[0].setting, Setting::Boolean(b) if b == on));
    }
    let mut v = variables();
    v.from_name = Some("Shop".into());
    v.port = Some("-1".into());
    let list = email_overrides(v).unwrap();
    assert_eq!(list[0].key, "from_name");
    assert!(matches!(&list[0].setting, Setting::Text(t) if t == "Shop"));
    assert!(matches!(list[1].setting, Setting::Integer(-1)));
    assert!(email_overrides(variables()).unwrap().is_empty());
}

#[test]
fn wrong_settings_in_words() {
    let words = |cfg| match MailService::from_config(cfg) {
        Err(e) => e.to_string(),
        Ok(_) => panic!("expected an error"),
    };
    assert_eq!(
        words(email_config(None, Provider::Lettermint { token: "".into() })),
        "email is enabled but from_address is not set"
    );
    assert_eq!(
        words(email_config(Some("a@b.c"), Provider::Lettermint { token: "".into() })),
        "lettermint provider selected but token is empty (set SIGNET_EMAIL__TOKEN)"
    );
}

#[test]
fn the_license_email_is_tried_twice_at_most() {
    assert_eq!(after_attempt(EmailKind::License, 1, Attempt::Sent), AfterAttempt::Done);
    assert_eq!(after_attempt(EmailKind::License, 1, Attempt::FailedForNow), AfterAttempt::Retry);
    assert_eq!(after_attempt(EmailKind::License, 1, Attempt::Failed), AfterAttempt::GiveUp);
    assert_eq!(after_attempt(EmailKind::License, 2, Attempt::Sent), AfterAttempt::Done);
    assert_eq!(after_attempt(EmailKind::License, 2, Attempt::FailedForNow), AfterAttempt::GiveUp);
    assert_eq!(after_attempt(EmailKind::Operator, 1, Attempt::FailedForNow), AfterAttempt::GiveUp);
}

#[test]
fn the_section_of_the_file_is_picked_out() {
    let file = "[shop]\ntitle = \"T\"\n\n[email]\nprovider = \"smtp\"\nport = 25\n";
    let t = base_email_table("catalog.toml", Some(file)).unwrap();
    assert_eq!(t.len(), 2);
    assert_eq!(t["provider"].as_str(), Some("smtp"));
    assert_eq!(t["port"].as_integer(), Some(25));
    assert!(base_email_table("catalog.toml", Some("[shop]\n")).unwrap().is_empty());
    assert!(base_email_table("catalog.toml", None).unwrap().is_empty());

    let e = base_email_table("catalog.toml", Some("email = 1\n")).unwrap_err();
    assert_eq!(e.to_string(), "[email] in catalog.toml must be a table");
    let e = base_email_table("catalog.toml", Some("[email\n")).unwrap_err();
    assert_eq!(e.to_string(), "parse catalog.toml");
    assert!(matches!(e, MailError::BadFile { reason, .. } if !reason.is_empty()));
}

#[test]
fn the_environment_wins_over_the_file() {
    let file = "[email]\nprovider = \"smtp\"\nhost = \"a\"\nport = 25\nenabled = false\n";
    let get = env(&[
        ("SIGNET_EMAIL__PORT", "587"),
        ("SIGNET_EMAIL__ENABLED", "on"),
        ("SIGNET_EMAIL__USER", "u"),
    ]);
    let t = load(file, &get).unwrap();
    assert_eq!(t.len(), 5);
    assert_eq!(t["provider"].as_str(), Some("smtp"));
    assert_eq!(t["host"].as_str(), Some("a"));
    assert_eq!(t["port"].as_integer(), Some(587));
    assert_eq!(t["enabled"].as_bool(), Some(true));
    assert_eq!(t["user"].as_str(), Some("u"));
    // A file that cannot be read is told of before a wrong port.
    let bad_port = env(&[("SIGNET_EMAIL__PORT", "x")]);
    assert!(matches!(
        EmailConfig::load("c", Some("["), &bad_port),
        Err(MailError::BadFile { path, .. }) if path == "c"
    ));
    assert!(matches!(EmailConfig::load("c", None, &bad_port), Err(MailError::BadPort(_))));
    // Without a provider the other settings count for nothing.
    assert!(load("[email]\nhost = \"a\"\n", &env(&[])).is_none());
}
