use signet::claims::Claims;
use signet::dates::{date_of, end_of_day, last_second, time_of};
use signet::issuer::{
    check_overwrite, expiry, issue_license, issue_license_with, key_files, keygen, keygen_report,
    keygen_with, ledger_file, private_key_path, public_key_path, signing_key_file, summary, verify,
    verifying_key_file, IssueReport, IssueRequest, IssuerError, KeyRole, LedgerRow,
};
use signet::keys::{SigningKey, VerifyingKey};
use signet::paths::join_path;

fn request() -> IssueRequest {
    IssueRequest {
        product: "acme".into(),
        customer: "Acme GmbH".into(),
        email: "a@acme.example".into(),
        tier: "business".into(),
        expires: None,
        features: vec![],
        max_orgs: None,
        max_seats: None,
        note: String::new(),
    }
}

fn key() -> SigningKey {
    SigningKey::from_bytes(&[9u8; 32])
}

fn issued(q: IssueRequest) -> IssueReport {
    issue_license(q, "ledger/acme.jsonl", 1_700_000_000, &key()).unwrap()
}

#[test]
fn keygen_writes_keypair_with_restricted_private() {
    let files = key_files("acme", KeyRole::Root);
    assert_eq!(files.directory, "keys/acme");
    let pair = keygen(files, false, false, false).unwrap();
    assert_eq!(pair.private.path, "keys/acme/private.bin");
    assert_eq!(pair.public.path, "keys/acme/public.bin");
    assert!(pair.private.owner_only);
    assert_eq!(pair.private.contents.len(), 32);
    assert_eq!(pair.public.contents.len(), 32);
}

#[test]
fn keygen_refuses_overwrite_without_force() {
    for (private, public) in [(true, true), (true, false), (false, true)] {
        let e = keygen(key_files("acme", KeyRole::Root), private, public, false).err().unwrap();
        assert_eq!(
            e.to_string(),
            "keys/acme/private.bin or keys/acme/public.bin already exists; pass --force to \
             overwrite (DANGEROUS — invalidates every license signed with the old key)"
        );
        assert!(e.to_string().contains("already exists"));
        assert!(keygen(key_files("acme", KeyRole::Root), private, public, true).is_ok());
    }
    assert!(check_overwrite(&key_files("acme", KeyRole::Root), false, false, false).is_ok());
}

#[test]
fn keygen_web_writes_web_named_keys() {
    let pair = keygen(key_files("acme", KeyRole::Web), false, false, false).unwrap();
    assert_eq!(pair.private.path, "keys/acme/web-private.bin");
    assert_eq!(pair.public.path, "keys/acme/web-public.bin");
}

#[test]
fn two_pairs_of_keys_differ() {
    let a = keygen(key_files("acme", KeyRole::Root), false, false, false).unwrap();
    let b = keygen(key_files("acme", KeyRole::Root), false, false, false).unwrap();
    assert_ne!(a.private.contents, b.private.contents);
}

#[test]
fn a_pair_of_keys_belongs_together() {
    let files = key_files("acme", KeyRole::Root);
    assert_eq!(
        keygen_report(&files),
        "Wrote private key: keys/acme/private.bin\nWrote public key:  keys/acme/public.bin\n\n\
         Copy keys/acme/public.bin into your application's license verifier and rebuild.\n"
    );
    let pair = keygen_with(files, [9; 32]);
    assert_eq!(pair.private.contents, [9; 32]);
    assert_eq!(pair.public.contents, key().verifying_key().to_bytes());
}

#[test]
fn issue_prints_blob_and_appends_ledger() {
    let mut q = request();
    q.features = vec!["orgs".into()];
    q.expires = Some("2027-07-05".into());
    let report = issued(q);

    let lines: Vec<&str> = report.stdout.trim().lines().collect();
    assert_eq!(lines.len(), 1);
    assert!(!lines[0].is_empty());
    assert_eq!(lines[0], report.issued.blob);

    assert!(report.stderr.contains("Issued license"));
    assert!(!report.stdout.contains("Issued license"));

    assert_eq!(ledger_file("acme", None), "ledger/acme.jsonl");
    assert_eq!(report.row.license_id, report.issued.claims.license_id);
    assert_eq!(report.row.issued_at, "2023-11-14T22:13:20+00:00");
    assert_eq!(report.row.expires_at.as_deref(), Some("2027-07-05T23:59:59+00:00"));
    assert_eq!(report.row.features, ["orgs"]);
}

#[test]
fn issue_lifetime_when_no_expiry() {
    let report = issued(request());
    assert!(report.stderr.contains("lifetime"));
    assert_eq!(report.issued.claims.expires_at, None);
    assert_eq!(report.row.expires_at, None);
}

#[test]
fn issue_rejects_bad_expiry() {
    let mut q = request();
    q.expires = Some("not-a-date".into());
    let e = issue_license(q, "ledger/acme.jsonl", 0, &key()).unwrap_err();
    assert!(e.to_string().contains("date"));
    assert_eq!(
        e.to_string(),
        "parse --expires not-a-date (want YYYY-MM-DD)"
    );
    assert!(matches!(
        e,
        IssuerError::BadExpiry { text, reason }
            if text == "not-a-date" && reason == "input contains invalid characters"
    ));
}

#[test]
fn verify_roundtrips_issued_blob() {
    let mut q = request();
    q.features = vec!["orgs".into()];
    let report = issued(q);
    let claims = verify(&report.issued.blob, &key().verifying_key()).unwrap();
    assert_eq!(claims.customer, "Acme GmbH");
    assert_eq!(claims.product, "acme");
    let claims = verify(&report.stdout, &key().verifying_key()).unwrap();
    assert_eq!(claims.customer, "Acme GmbH");
}

#[test]
fn verify_rejects_tampered_blob() {
    let blob = issued(request()).issued.blob;
    let mut bytes = blob.into_bytes();
    let mid = bytes.len() / 2;
    bytes[mid] = if bytes[mid] == b'A' { b'B' } else { b'A' };
    let tampered = String::from_utf8(bytes).unwrap();
    let e = verify(&tampered, &key().verifying_key()).unwrap_err();
    assert!(e.to_string().contains("verification failed"));
}

#[test]
fn a_license_runs_to_the_end_of_its_day() {
    assert_eq!(expiry(Some("1970-01-01".into())).unwrap(), Some(86_399));
    assert_eq!(expiry(Some("2023-11-14".into())).unwrap(), Some(1_700_006_399));
    assert_eq!(expiry(Some("1969-12-31".into())).unwrap(), Some(-1));
    assert_eq!(expiry(None).unwrap(), None);
    assert!(expiry(Some("2023-02-30".into())).is_err());
    assert!(expiry(Some("2023-11-14 ".into())).is_err());
    assert_eq!(end_of_day("2000-02-29").unwrap(), 951_868_799);
    assert_eq!(last_second(719_163), 86_399);
    assert_eq!(last_second(719_164), 86_399 + 86_400);
}

#[test]
fn times_in_words() {
    assert_eq!(date_of(1_700_000_000).as_deref(), Some("2023-11-14"));
    assert_eq!(date_of(-1).as_deref(), Some("1969-12-31"));
    assert_eq!(date_of(i64::MAX), None);
    assert_eq!(time_of(0).as_deref(), Some("1970-01-01T00:00:00+00:00"));
    assert_eq!(time_of(i64::MIN), None);
}

fn claims() -> Claims {
    Claims {
        v: 1,
        license_id: "id".into(),
        customer: "Acme GmbH".into(),
        email: "a@acme.example".into(),
        tier: "business".into(),
        product: "acme".into(),
        issued_at: i64::MAX,
        expires_at: Some(i64::MAX),
        features: vec!["orgs".into(), "saml".into()],
        max_orgs: Some(50),
        max_seats: None,
        note: "n".into(),
    }
}

#[test]
fn the_ledger_records_the_claims() {
    let row = LedgerRow::from_claims(&claims());
    assert_eq!(row.issued_at, "9223372036854775807");
    assert_eq!(row.expires_at, None);
    assert_eq!(row.license_id, "id");
    assert_eq!(row.customer, "Acme GmbH");
    assert_eq!(row.email, "a@acme.example");
    assert_eq!(row.product, "acme");
    assert_eq!(row.tier, "business");
    assert_eq!(row.features, ["orgs", "saml"]);
    assert_eq!(row.max_orgs, Some(50));
    assert_eq!(row.max_seats, None);
    assert_eq!(row.note, "n");
}

#[test]
fn the_summary_shows_the_license() {
    assert_eq!(
        summary(&claims(), "ledger/acme.jsonl"),
        "\nIssued license id for Acme GmbH <a@acme.example>\n  product:    acme\n  tier:       business\n  \
         expires:    9223372036854775807\n  features:   orgs, saml\n  max_orgs:   50\n  \
         max_seats:  unlimited\n  ledger:     ledger/acme.jsonl\n"
    );
    let mut c = claims();
    c.expires_at = Some(0);
    assert!(summary(&c, "l").contains("  expires:    1970-01-01T00:00:00+00:00\n"));
}

#[test]
fn what_is_asked_for_is_signed() {
    let mut q = request();
    q.expires = Some("2027-07-05".into());
    q.features = vec!["orgs".into()];
    q.max_orgs = Some(3);
    q.note = "renewal".into();
    let report = issue_license_with(q, "l", 5, [0; 16], &key()).unwrap();
    let c = verify(&report.issued.blob, &key().verifying_key()).unwrap();
    assert_eq!(c.license_id, "00000000000040008000000000000000");
    assert_eq!(c.issued_at, 5);
    assert_eq!(c.expires_at, Some(1_814_831_999));
    assert_eq!(c.features, ["orgs"]);
    assert_eq!(c.max_orgs, Some(3));
    assert_eq!(c.note, "renewal");
}

#[test]
fn files_are_named_after_the_product() {
    assert_eq!(signing_key_file("acme", None), "keys/acme/private.bin");
    assert_eq!(signing_key_file("acme", Some("k".into())), "k");
    assert_eq!(verifying_key_file("acme", None), "keys/acme/public.bin");
    assert_eq!(verifying_key_file("acme", Some("k".into())), "k");
    assert_eq!(ledger_file("acme", Some("l".into())), "l");
    assert_eq!(private_key_path("/k/", "a", KeyRole::Web), "/k/a/web-private.bin");
    assert_eq!(public_key_path("k", "a", KeyRole::Root), "k/a/public.bin");
    assert_eq!(join_path("keys", "/abs"), "/abs");
    assert_eq!(join_path("", "x"), "x");
    assert_eq!(join_path("keys", ""), "keys/");
}

#[test]
fn a_new_pair_signs_and_verifies() {
    let pair = keygen(key_files("acme", KeyRole::Root), false, false, false).unwrap();
    let private: [u8; 32] = pair.private.contents.as_slice().try_into().unwrap();
    let public: [u8; 32] = pair.public.contents.as_slice().try_into().unwrap();
    let report = issue_license(request(), "l", 1, &SigningKey::from_bytes(&private)).unwrap();
    let key = VerifyingKey::from_bytes(&public).unwrap();
    assert_eq!(verify(&report.stdout, &key).unwrap().tier, "business");
}
