use signet::claims::BLOB_VERSION;
use signet::codec::decode_and_verify;
use signet::issue::{issue, issue_with, license_id, IssueParams};
use signet::keys::SigningKey;

fn test_key() -> SigningKey {
    SigningKey::from_bytes(&[7u8; 32])
}

fn params() -> IssueParams {
    IssueParams {
        product: "acme".into(),
        customer: "Acme GmbH".into(),
        email: "admin@acme.example".into(),
        tier: "business".into(),
        expires_at: Some(1_800_000_000),
        features: vec!["orgs".into(), "saml".into()],
        max_orgs: Some(50),
        max_seats: None,
        note: "web".into(),
    }
}

#[test]
fn issue_roundtrips_and_stamps_metadata() {
    let key = test_key();
    let issued = issue(params(), 1_700_000_000, &key).unwrap();

    let verified = decode_and_verify(&issued.blob, &key.verifying_key()).unwrap();
    assert_eq!(verified.product, "acme");
    assert_eq!(verified.issued_at, 1_700_000_000);
    assert_eq!(verified.expires_at, Some(1_800_000_000));
    assert_eq!(verified.features, vec!["orgs", "saml"]);
    assert_eq!(verified.max_orgs, Some(50));
    assert_eq!(verified.v, BLOB_VERSION);
    assert_eq!(issued.claims.license_id.len(), 32); // hex of 16 bytes
}

#[test]
fn license_ids_are_uuids() {
    assert_eq!(license_id([0u8; 16]), "00000000000040008000000000000000");
    assert_eq!(license_id([0xff; 16]), "ffffffffffff4fffbfffffffffffffff");
    let mut bytes = [0u8; 16];
    bytes[0] = 0xa5;
    bytes[15] = 0x0c;
    assert_eq!(license_id(bytes), "a500000000004000800000000000000c");
}

#[test]
fn two_licenses_have_different_ids() {
    let key = test_key();
    let a = issue(params(), 0, &key).unwrap();
    let b = issue(params(), 0, &key).unwrap();
    assert_ne!(a.claims.license_id, b.claims.license_id);
}

#[test]
fn the_blob_is_signed_over_the_claims() {
    let key = test_key();
    let a = issue_with(params(), 5, [1; 16], &key).unwrap();
    let b = issue_with(params(), 5, [1; 16], &key).unwrap();
    assert_eq!(a.blob, b.blob);
    assert_eq!(a.claims.license_id, "01010101010141018101010101010101");
    let other = SigningKey::from_bytes(&[8u8; 32]);
    assert!(decode_and_verify(&a.blob, &other.verifying_key()).is_err());
}
