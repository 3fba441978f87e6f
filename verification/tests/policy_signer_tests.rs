use predicate_authorityd::policy_signer::{
    canonicalize_json, generate_keypair, is_signed_policy, parse_public_key_hex, parse_signed_policy,
    public_key_fingerprint, sign_policy, verify_policy_signature, PolicySignatureError, PublicKey,
};

const SAMPLE_POLICY: &str = r#"{
    "rules": [
        {
            "name": "allow-browser",
            "effect": "allow",
            "principals": ["agent:*"],
            "actions": ["browser.*"],
            "resources": ["https://*"]
        }
    ]
}"#;

fn fresh_key() -> (Vec<u8>, PublicKey) {
    let (signing_hex, verifying_hex) = generate_keypair();
    let secret = hex::decode(signing_hex).unwrap();
    let public = parse_public_key_hex(&verifying_hex).unwrap();
    (secret, public)
}

#[test]
fn test_generate_keypair() {
    let (signing_hex, verifying_hex) = generate_keypair();

    assert_eq!(signing_hex.len(), 64);
    assert_eq!(verifying_hex.len(), 64);

    let public_key = parse_public_key_hex(&verifying_hex).unwrap();
    assert!(public_key_fingerprint(&public_key).len() == 8);
}

#[test]
fn test_sign_and_verify() {
    let (secret, verifying_key) = fresh_key();
    let signed = sign_policy(SAMPLE_POLICY, &secret).unwrap();
    assert!(verify_policy_signature(&signed, &verifying_key).is_ok());
}

#[test]
fn test_verification_fails_with_wrong_key() {
    let (secret, _) = fresh_key();
    let (_, wrong_key) = fresh_key();
    let signed = sign_policy(SAMPLE_POLICY, &secret).unwrap();
    let result = verify_policy_signature(&signed, &wrong_key);
    assert!(matches!(result, Err(PolicySignatureError::VerificationFailed)));
}

#[test]
fn test_verification_fails_with_tampered_policy() {
    let (secret, verifying_key) = fresh_key();
    let mut signed = sign_policy(SAMPLE_POLICY, &secret).unwrap();
    signed.policy = r#"{"rules": []}"#.to_string();
    let result = verify_policy_signature(&signed, &verifying_key);
    assert!(matches!(result, Err(PolicySignatureError::VerificationFailed)));
}

#[test]
fn test_parse_signed_policy() {
    let (secret, _) = fresh_key();
    let signed = sign_policy(SAMPLE_POLICY, &secret).unwrap();
    let json_str = format!(r#"{{"policy":{},"signature":"{}"}}"#, signed.policy, signed.signature);
    let parsed = parse_signed_policy(&json_str).unwrap();
    assert_eq!(signed.signature, parsed.signature);
}

#[test]
fn test_is_signed_policy() {
    let unsigned = r#"{"rules": []}"#;
    assert!(!is_signed_policy(unsigned));

    let signed = r#"{"policy": {"rules": []}, "signature": "abc123"}"#;
    assert!(is_signed_policy(signed));

    let partial = r#"{"signature": "abc123"}"#;
    assert!(!is_signed_policy(partial));
}

#[test]
fn test_canonicalize_json_deterministic() {
    let policy1 = r#"{"b": 2, "a": 1}"#;
    let policy2 = r#"{"a": 1, "b": 2}"#;

    let canonical1 = canonicalize_json(policy1).unwrap();
    let canonical2 = canonicalize_json(policy2).unwrap();

    assert_eq!(canonical1, canonicalize_json(policy1).unwrap());
    assert_eq!(canonical2, canonicalize_json(policy2).unwrap());
}

#[test]
fn test_parse_public_key_hex() {
    let (_, verifying_hex) = generate_keypair();
    let result = parse_public_key_hex(&verifying_hex);
    assert!(result.is_ok());
}

#[test]
fn test_parse_invalid_public_key() {
    let result = parse_public_key_hex("abcd");
    assert!(matches!(result, Err(PolicySignatureError::InvalidPublicKey(_))));

    let result = parse_public_key_hex("xyz123");
    assert!(matches!(result, Err(PolicySignatureError::InvalidPublicKey(_))));
}

#[test]
fn public_key_error_messages() {
    match parse_public_key_hex("abcd") {
        Err(e) => assert_eq!(e.to_string(), "Invalid public key: expected 32 bytes, got 2"),
        Ok(_) => panic!("short key accepted"),
    }
    match parse_public_key_hex("xyz123") {
        Err(PolicySignatureError::InvalidPublicKey(m)) => assert!(m.starts_with("invalid hex: ")),
        _ => panic!("bad hex accepted"),
    }
}

#[test]
fn signed_policy_file_errors() {
    assert!(matches!(parse_signed_policy(r#"{"policy": {}}"#), Err(PolicySignatureError::MissingSignature)));
    assert!(matches!(parse_signed_policy(r#"{"signature": "x"}"#), Err(PolicySignatureError::MissingPolicyContent)));
    assert!(matches!(parse_signed_policy(r#"{"policy": {}, "signature": 5}"#), Err(PolicySignatureError::JsonError(_))));
    assert!(matches!(parse_signed_policy("not json"), Err(PolicySignatureError::JsonError(_))));
    let parsed = parse_signed_policy(r#"{"policy": {"rules": [ ]}, "signature": "c2ln"}"#).unwrap();
    assert_eq!(parsed.policy, r#"{"rules":[]}"#);
    assert_eq!(parsed.signature, "c2ln");
}

#[test]
fn malformed_signatures_are_refused() {
    let (secret, public) = fresh_key();
    let mut signed = sign_policy(SAMPLE_POLICY, &secret).unwrap();
    signed.signature = "c2ln".to_string();
    match verify_policy_signature(&signed, &public) {
        Err(PolicySignatureError::InvalidSignatureFormat(m)) => assert_eq!(m, "signature error"),
        other => panic!("unexpected: {:?}", other),
    }
    signed.signature = "!!!".to_string();
    assert!(matches!(verify_policy_signature(&signed, &public), Err(PolicySignatureError::InvalidSignatureFormat(_))));
    assert!(matches!(sign_policy("{oops", &secret), Err(PolicySignatureError::JsonError(_))));
}

#[test]
fn signature_is_deterministic_and_key_matches_secret() {
    let secret = vec![7u8; 32];
    let a = sign_policy(SAMPLE_POLICY, &secret).unwrap();
    let b = sign_policy(SAMPLE_POLICY, &secret).unwrap();
    assert_eq!(a.signature, b.signature);
    let public = PublicKey::from_secret(&secret);
    assert!(verify_policy_signature(&a, &public).is_ok());
    assert_eq!(public.to_bytes().len(), 32);
}
