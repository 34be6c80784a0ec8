use base64::engine::general_purpose::STANDARD;
use base64::Engine;
use ciborium::Value;
use signet::claims::{Claims, SignedBlob, BLOB_MAGIC, BLOB_VERSION, CLAIMS_VERSION};
use signet::codec::{
    decode_and_verify, decode_and_verify_any, encode, load_signing_key, load_verifying_key,
    read_key_bytes, verify_envelope, verify_signed, DecodeError, Error, MAX_BLOB_B64_LEN,
};
use signet::keys::{SigningKey, VerifyingKey};

fn test_claims() -> Claims {
    Claims {
        v: CLAIMS_VERSION,
        license_id: "abc123".into(),
        customer: "Acme GmbH".into(),
        email: "admin@acme.example".into(),
        tier: "business".into(),
        product: "acme".into(),
        issued_at: 1_700_000_000,
        expires_at: None,
        features: vec![],
        max_orgs: None,
        max_seats: None,
        note: String::new(),
    }
}

/// The blob around some claims and a signature, however wrong they are.
fn envelope(claims_cbor: Vec<u8>, signature: Vec<u8>) -> String {
    let mut bytes = BLOB_MAGIC.to_vec();
    bytes.push(BLOB_VERSION);
    bytes.extend(SignedBlob { claims_cbor, signature }.to_cbor());
    STANDARD.encode(bytes)
}

fn cbor(value: &Value) -> Vec<u8> {
    let mut out = Vec::new();
    ciborium::into_writer(value, &mut out).unwrap();
    out
}

fn text(s: &str) -> Value {
    Value::Text(s.to_string())
}

/// The claims of `test_claims` as the entries of a CBOR map.
fn claim_entries() -> Vec<(Value, Value)> {
    vec![
        (text("v"), Value::from(1)),
        (text("license_id"), text("abc123")),
        (text("customer"), text("Acme GmbH")),
        (text("email"), text("admin@acme.example")),
        (text("tier"), text("business")),
        (text("product"), text("acme")),
        (text("issued_at"), Value::from(1_700_000_000i64)),
        (text("expires_at"), Value::Null),
        (text("features"), Value::Array(vec![])),
        (text("max_orgs"), Value::Null),
        (text("max_seats"), Value::Null),
        (text("note"), text("")),
    ]
}

fn signed_map(entries: Vec<(Value, Value)>, signer: &SigningKey) -> String {
    let claims_cbor = cbor(&Value::Map(entries));
    let signature = signer.sign(&claims_cbor);
    envelope(claims_cbor, signature)
}

#[test]
fn verify_any_accepts_second_key() {
    let signer = SigningKey::from_bytes(&[9u8; 32]);
    let other = SigningKey::from_bytes(&[1u8; 32]);
    let blob = encode(&test_claims(), &signer).unwrap();

    let keys = [other.verifying_key(), signer.verifying_key()];
    let claims = decode_and_verify_any(&blob, &keys).unwrap();
    assert_eq!(claims.customer, "Acme GmbH");
}

#[test]
fn verify_any_rejects_when_no_key_matches() {
    let signer = SigningKey::from_bytes(&[9u8; 32]);
    let other = SigningKey::from_bytes(&[1u8; 32]);
    let blob = encode(&test_claims(), &signer).unwrap();

    let keys = [other.verifying_key()];
    assert!(matches!(
        decode_and_verify_any(&blob, &keys),
        Err(DecodeError::BadSignature)
    ));
    assert!(matches!(
        decode_and_verify_any(&blob, &[]),
        Err(DecodeError::BadSignature)
    ));
}

#[test]
fn oversized_input_rejected_before_decoding() {
    let key = SigningKey::from_bytes(&[9u8; 32]);
    let huge = "A".repeat(MAX_BLOB_B64_LEN + 1);
    assert!(matches!(
        decode_and_verify(&huge, &key.verifying_key()),
        Err(DecodeError::Malformed(_))
    ));
}

#[test]
fn tampered_signature_is_bad_signature() {
    let signer = SigningKey::from_bytes(&[9u8; 32]);
    let mut bytes = STANDARD
        .decode(encode(&test_claims(), &signer).unwrap())
        .unwrap();
    *bytes.last_mut().unwrap() ^= 0x01;
    assert!(matches!(
        decode_and_verify(&STANDARD.encode(bytes), &signer.verifying_key()),
        Err(DecodeError::BadSignature)
    ));
}

#[test]
fn wrong_magic_is_malformed() {
    let signer = SigningKey::from_bytes(&[9u8; 32]);
    let mut bytes = STANDARD
        .decode(encode(&test_claims(), &signer).unwrap())
        .unwrap();
    bytes[0] = b'X';
    assert!(matches!(
        decode_and_verify(&STANDARD.encode(bytes), &signer.verifying_key()),
        Err(DecodeError::Malformed(_))
    ));
}

#[test]
fn unsupported_version_is_malformed() {
    let signer = SigningKey::from_bytes(&[9u8; 32]);
    let mut bytes = STANDARD
        .decode(encode(&test_claims(), &signer).unwrap())
        .unwrap();
    bytes[BLOB_MAGIC.len()] = 99;
    assert!(matches!(
        decode_and_verify(&STANDARD.encode(bytes), &signer.verifying_key()),
        Err(DecodeError::Malformed(m)) if m.contains("version")
    ));
}

#[test]
fn truncated_blob_is_malformed() {
    let signer = SigningKey::from_bytes(&[9u8; 32]);
    assert!(matches!(
        decode_and_verify(&STANDARD.encode(b"OPL"), &signer.verifying_key()),
        Err(DecodeError::Malformed(_))
    ));
}

#[test]
fn non_base64_is_malformed() {
    let signer = SigningKey::from_bytes(&[9u8; 32]);
    assert!(matches!(
        decode_and_verify("!!! not base64 !!!", &signer.verifying_key()),
        Err(DecodeError::Malformed(_))
    ));
}

#[test]
fn wrong_signature_length_is_malformed() {
    let signer = SigningKey::from_bytes(&[9u8; 32]);
    let b64 = envelope(test_claims().to_cbor(), vec![0u8; 10]);
    assert!(matches!(
        decode_and_verify(&b64, &signer.verifying_key()),
        Err(DecodeError::Malformed(m)) if m.contains("signature length")
    ));
}

#[test]
fn unknown_claim_field_is_ignored() {
    let signer = SigningKey::from_bytes(&[9u8; 32]);
    let mut entries = claim_entries();
    entries.push((text("x"), Value::from(7)));
    let b64 = signed_map(entries, &signer);

    let c = test_claims();
    let claims = decode_and_verify(&b64, &signer.verifying_key()).unwrap();
    assert_eq!(claims.license_id, c.license_id);
    assert_eq!(claims.customer, c.customer);
}

#[test]
fn full_roundtrip_all_fields() {
    let signer = SigningKey::from_bytes(&[9u8; 32]);
    let claims = Claims {
        v: CLAIMS_VERSION,
        license_id: "lic-9".into(),
        customer: "Globex".into(),
        email: "ops@globex.example".into(),
        tier: "enterprise".into(),
        product: "globex".into(),
        issued_at: 1_700_000_000,
        expires_at: Some(1_900_000_000),
        features: vec!["sso".into(), "audit".into(), "export".into()],
        max_orgs: Some(5),
        max_seats: Some(250),
        note: "renewal, net-30".into(),
    };
    let got =
        decode_and_verify(&encode(&claims, &signer).unwrap(), &signer.verifying_key()).unwrap();
    assert_eq!(got.v, claims.v);
    assert_eq!(got.license_id, claims.license_id);
    assert_eq!(got.customer, claims.customer);
    assert_eq!(got.email, claims.email);
    assert_eq!(got.tier, claims.tier);
    assert_eq!(got.product, claims.product);
    assert_eq!(got.issued_at, claims.issued_at);
    assert_eq!(got.expires_at, claims.expires_at);
    assert_eq!(got.features, claims.features);
    assert_eq!(got.max_orgs, claims.max_orgs);
    assert_eq!(got.max_seats, claims.max_seats);
    assert_eq!(got.note, claims.note);

    let lifetime = Claims {
        expires_at: None,
        ..claims
    };
    let got = decode_and_verify(
        &encode(&lifetime, &signer).unwrap(),
        &signer.verifying_key(),
    )
    .unwrap();
    assert_eq!(got.expires_at, None);
    assert_eq!(got.features, lifetime.features);
}

#[test]
fn malformed_blobs_say_what_is_wrong() {
    let signer = SigningKey::from_bytes(&[9u8; 32]);
    let key = signer.verifying_key();
    let words = |b64: &str| match decode_and_verify(b64, &key) {
        Err(DecodeError::Malformed(m)) => m,
        other => panic!("expected a malformed blob, got {other:?}"),
    };
    assert_eq!(words(&"A".repeat(16385)), "blob too large");
    assert_eq!(words(&STANDARD.encode(b"OPL")), "blob too short");
    assert_eq!(words(&STANDARD.encode(b"OPLB")), "blob too short");
    assert_eq!(words(&STANDARD.encode(b"XPLB\x01")), "magic mismatch");
    assert_eq!(
        words(&STANDARD.encode(b"OPLB\x63")),
        "unsupported version 99, expected 1"
    );
    assert!(words(&STANDARD.encode(b"OPLB\x01")).starts_with("envelope cbor: "));
    assert!(words("!!!").starts_with("base64: "));
    assert_eq!(
        words(&envelope(vec![], vec![0u8; 10])),
        "signature length 10, expected 64"
    );
    let no_claims = b"\xf6".to_vec();
    let signature = signer.sign(&no_claims);
    assert!(words(&envelope(no_claims, signature)).starts_with("claims cbor: "));
    let mut entries = claim_entries();
    entries.remove(2);
    assert_eq!(
        words(&signed_map(entries, &signer)),
        "claims cbor: missing field `customer`"
    );
    let mut entries = claim_entries();
    entries.push((text("tier"), text("pro")));
    assert_eq!(
        words(&signed_map(entries, &signer)),
        "claims cbor: duplicate field `tier`"
    );
    let mut entries = claim_entries();
    entries[0].1 = Value::from(256);
    assert_eq!(
        words(&signed_map(entries, &signer)),
        "claims cbor: invalid type in field `v`"
    );
}

#[test]
fn errors_in_words() {
    assert_eq!(
        DecodeError::Malformed("x".into()).to_string(),
        "malformed license blob: x"
    );
    assert_eq!(
        DecodeError::BadSignature.to_string(),
        "license signature did not verify"
    );
    assert_eq!(
        Error::KeyLength { path: "k".into(), len: 7 }.to_string(),
        "key at k is 7 bytes, expected 32"
    );
    assert_eq!(
        Error::ReadKey { path: "k".into(), reason: "gone".into() }.to_string(),
        "read k"
    );
    assert_eq!(Error::VerifyingKey.to_string(), "invalid verifying key");
}

#[test]
fn order_of_claims_is_irrelevant_and_defaults_apply() {
    let signer = SigningKey::from_bytes(&[9u8; 32]);
    let mut entries = claim_entries();
    entries.reverse();
    let claims = decode_and_verify(&signed_map(entries, &signer), &signer.verifying_key()).unwrap();
    assert_eq!(claims.license_id, "abc123");
    assert_eq!(claims.issued_at, 1_700_000_000);

    let required = ["v", "license_id", "customer", "email", "tier", "issued_at"];
    let entries: Vec<(Value, Value)> = claim_entries()
        .into_iter()
        .filter(|(k, _)| required.contains(&k.as_text().unwrap()))
        .collect();
    let claims = decode_and_verify(&signed_map(entries, &signer), &signer.verifying_key()).unwrap();
    assert_eq!(claims.product, "");
    assert_eq!(claims.expires_at, None);
    assert!(claims.features.is_empty());
    assert_eq!(claims.max_orgs, None);
    assert_eq!(claims.note, "");
}

#[test]
fn claims_have_the_documented_encoding() {
    let mut c = test_claims();
    c.expires_at = Some(-1);
    c.features = vec!["a".into()];
    c.max_seats = Some(300);
    let bytes = c.to_cbor();
    let mut entries = claim_entries();
    entries[7].1 = Value::from(-1);
    entries[8].1 = Value::Array(vec![text("a")]);
    entries[10].1 = Value::from(300);
    assert_eq!(bytes, cbor(&Value::Map(entries)));
    assert_eq!(&bytes[..4], &[0xac, 0x61, b'v', 0x01]);

    let blob = SignedBlob { claims_cbor: vec![1, 2], signature: vec![3] }.to_cbor();
    assert_eq!(
        blob,
        [0xa2, 0x61, b'c', 0x42, 1, 2, 0x61, b's', 0x41, 3]
    );
    let back = SignedBlob::from_cbor(&blob).unwrap();
    assert_eq!(back.claims_cbor, [1, 2]);
    assert_eq!(back.signature, [3]);
}

#[test]
fn white_space_around_a_blob_is_ignored() {
    let signer = SigningKey::from_bytes(&[9u8; 32]);
    let blob = encode(&test_claims(), &signer).unwrap();
    let padded = format!(" \n\t{blob}\u{3000}\r\n");
    assert_eq!(
        decode_and_verify(&padded, &signer.verifying_key()).unwrap().license_id,
        "abc123"
    );
}

#[test]
fn more_keys_accept_as_much() {
    let signer = SigningKey::from_bytes(&[9u8; 32]);
    let other = SigningKey::from_bytes(&[1u8; 32]);
    let blob = encode(&test_claims(), &signer).unwrap();
    for keys in [
        vec![signer.verifying_key()],
        vec![signer.verifying_key(), other.verifying_key()],
        vec![other.verifying_key(), signer.verifying_key(), other.verifying_key()],
    ] {
        assert_eq!(decode_and_verify_any(&blob, &keys).unwrap().email, "admin@acme.example");
    }
}

#[test]
fn the_parts_of_a_blob_can_be_verified_alone() {
    let signer = SigningKey::from_bytes(&[9u8; 32]);
    let keys = [signer.verifying_key()];
    let bytes = STANDARD.decode(encode(&test_claims(), &signer).unwrap()).unwrap();
    assert_eq!(verify_envelope(&bytes, &keys).unwrap().tier, "business");
    let blob = SignedBlob::from_cbor(&bytes[5..]).unwrap();
    assert_eq!(verify_signed(&blob, &keys).unwrap().tier, "business");
    assert!(matches!(verify_signed(&blob, &[]), Err(DecodeError::BadSignature)));
}

#[test]
fn keys_load_from_32_bytes() {
    let signer = SigningKey::from_bytes(&[9u8; 32]);
    let public = signer.verifying_key().to_bytes();
    assert_ne!(public, [9u8; 32]);
    let loaded = load_signing_key("k", Ok(vec![9u8; 32])).unwrap_or_else(|e| panic!("{e:?}"));
    assert_eq!(loaded.to_bytes(), [9u8; 32]);
    assert_eq!(loaded.verifying_key().to_bytes(), public);
    let loaded = load_verifying_key("k", Ok(public.to_vec())).unwrap_or_else(|e| panic!("{e:?}"));
    assert_eq!(loaded.to_bytes(), public);
    assert!(matches!(
        load_signing_key("k", Ok(vec![0; 31])),
        Err(Error::KeyLength { len: 31, .. })
    ));
    assert!(matches!(
        read_key_bytes("k", Err("no such file".into())),
        Err(Error::ReadKey { .. })
    ));
    // 2 is the ordinate of no point of the curve.
    let mut no_point = [0u8; 32];
    no_point[0] = 2;
    assert!(VerifyingKey::from_bytes(&no_point).is_none());
    assert!(matches!(
        load_verifying_key("k", Ok(no_point.to_vec())),
        Err(Error::VerifyingKey)
    ));
}

#[test]
fn signatures_are_those_of_ed25519() {
    let signer = SigningKey::from_bytes(&[9u8; 32]);
    let sig = signer.sign(b"message");
    assert_eq!(sig.len(), 64);
    assert!(signer.verifying_key().verify_strict(b"message", &sig));
    assert!(!signer.verifying_key().verify_strict(b"massage", &sig));
    assert!(!signer.verifying_key().verify_strict(b"message", &sig[..63]));
}

#[test]
fn a_foreign_key_is_a_bad_signature() {
    let (ours, theirs) = (SigningKey::from_bytes(&[5; 32]), SigningKey::from_bytes(&[6; 32]));
    let blob = encode(&test_claims(), &ours).unwrap();
    assert!(decode_and_verify(&blob, &ours.verifying_key()).is_ok());
    assert!(matches!(
        decode_and_verify(&blob, &theirs.verifying_key()),
        Err(DecodeError::BadSignature)
    ));
}

#[test]
fn keys_of_a_map_are_short() {
    let signer = SigningKey::from_bytes(&[5; 32]);
    for (length, accepted) in [(4096, true), (4097, false)] {
        let mut entries = claim_entries();
        entries.push((text(&"k".repeat(length)), Value::Null));
        let blob = signed_map(entries, &signer);
        let r = decode_and_verify(&blob, &signer.verifying_key());
        assert_eq!(r.is_ok(), accepted, "{length}");
    }
}

#[test]
fn numbers_may_be_big_numbers_with_zeros_before_them() {
    let signer = SigningKey::from_bytes(&[5; 32]);
    let mut digits = vec![0; 20];
    digits.push(7);
    let big = Value::Tag(2, Box::new(Value::Bytes(digits)));
    let mut entries = claim_entries();
    entries.retain(|(k, _)| *k != text("max_seats"));
    entries.push((text("max_seats"), big));
    let blob = signed_map(entries, &signer);
    let claims = decode_and_verify(&blob, &signer.verifying_key()).unwrap();
    assert_eq!(claims.max_seats, Some(7));
}
