use base64::engine::general_purpose::URL_SAFE_NO_PAD;
use base64::Engine;
use predicate_authorityd::bridge::{
    IdentityProviderType, LocalIdpBridge, LocalIdpBridgeConfig, TokenValidationError,
};
use predicate_authorityd::models::{PrincipalRef, StateEvidence};
use predicate_authorityd::okta::{
    audience_of, decode_jwt_parts, fetch_failed, find_claim, jwks_uri_from_discovery, retry_backoff_ms,
    split_words, string_collection_of, usable_kids, ClaimValue, JwksCache, JwksSource, OktaBridgeConfig,
    OktaIdentityBridge,
};

fn token(header: &str, payload: &str) -> String {
    format!(
        "{}.{}.{}",
        URL_SAFE_NO_PAD.encode(header.as_bytes()),
        URL_SAFE_NO_PAD.encode(payload.as_bytes()),
        URL_SAFE_NO_PAD.encode(b"sig")
    )
}

fn config() -> OktaBridgeConfig {
    let mut c = OktaBridgeConfig::default();
    c.issuer = "https://okta.example.com".to_string();
    c.audience = "api://authority".to_string();
    c
}

fn bridge() -> OktaIdentityBridge {
    OktaIdentityBridge::new(config()).unwrap()
}

const HEADER: &str = r#"{"alg":"RS256","kid":"k1"}"#;

fn payload(extra: &str) -> String {
    format!(
        r#"{{"iss":"https://okta.example.com","aud":"api://authority","sub":"agent:x","exp":2000,"iat":900{}}}"#,
        extra
    )
}

fn text(s: &str) -> ClaimValue {
    ClaimValue { text: Some(s.to_string()), integer: None, items: None }
}

#[test]
fn test_decode_jwt_parts() {
    let header = URL_SAFE_NO_PAD.encode(r#"{"alg":"HS256","typ":"JWT"}"#.as_bytes());
    let payload = URL_SAFE_NO_PAD.encode(r#"{"sub":"test","iss":"issuer"}"#.as_bytes());
    let signature = URL_SAFE_NO_PAD.encode(b"fake_signature");

    let token = format!("{}.{}.{}", header, payload, signature);

    let (h, p) = decode_jwt_parts(&token).unwrap();

    assert_eq!(find_claim(&h, "alg").unwrap().text.as_deref(), Some("HS256"));
    assert_eq!(find_claim(&p, "sub").unwrap().text.as_deref(), Some("test"));
}

#[test]
fn test_normalize_audience() {
    let aud = text("api://test");
    assert_eq!(audience_of(Some(&aud)), vec!["api://test".to_string()]);

    let aud = ClaimValue {
        text: None,
        integer: None,
        items: Some(vec![Some("api://test".to_string()), Some("api://other".to_string())]),
    };
    assert_eq!(
        audience_of(Some(&aud)),
        vec!["api://test".to_string(), "api://other".to_string()]
    );

    assert!(audience_of(None).is_empty());
}

#[test]
fn decode_rejects_wrong_segment_count_and_bad_encoding() {
    assert!(matches!(decode_jwt_parts("a.b"), Err(TokenValidationError::InvalidFormat)));
    assert!(matches!(decode_jwt_parts("a.b.c.d"), Err(TokenValidationError::InvalidFormat)));
    assert!(matches!(decode_jwt_parts("abcde.e30.x"), Err(TokenValidationError::InvalidEncoding)));
    assert!(matches!(decode_jwt_parts("e30.bm90IGpzb24.x"), Err(TokenValidationError::InvalidEncoding)));
}

#[test]
fn valid_token_passes() {
    let t = token(HEADER, &payload(""));
    let claims = bridge().validate_token_claims_at(&t, 1000, &Ok(true)).unwrap();
    assert_eq!(claims.issuer, "https://okta.example.com");
    assert_eq!(claims.subject, "agent:x");
    assert_eq!(claims.audience, vec!["api://authority".to_string()]);
    assert_eq!(claims.claims.len(), 5);
}

#[test]
fn algorithm_checks() {
    let t = token(r#"{"alg":"None"}"#, &payload(""));
    assert!(matches!(bridge().validate_token_claims_at(&t, 1000, &Ok(true)), Err(TokenValidationError::AlgorithmNone)));
    let t = token(r#"{"alg":"HS256"}"#, &payload(""));
    assert!(matches!(bridge().validate_token_claims_at(&t, 1000, &Ok(true)), Err(TokenValidationError::AlgorithmNotAllowed)));
    let t = token(r#"{"typ":"JWT"}"#, &payload(""));
    assert!(matches!(bridge().validate_token_claims_at(&t, 1000, &Ok(true)), Err(TokenValidationError::MissingAlgorithm)));
}

#[test]
fn issuer_and_audience_checks() {
    let t = token(HEADER, r#"{"aud":"api://authority","sub":"a","exp":2000,"iat":900}"#);
    assert!(matches!(bridge().validate_token_claims_at(&t, 1000, &Ok(true)), Err(TokenValidationError::MissingIssuer)));
    let t = token(HEADER, r#"{"iss":"https://evil","aud":"api://authority","sub":"a","exp":2000,"iat":900}"#);
    assert!(matches!(bridge().validate_token_claims_at(&t, 1000, &Ok(true)), Err(TokenValidationError::IssuerMismatch)));
    let t = token(HEADER, r#"{"iss":"https://okta.example.com","aud":["x","y"],"sub":"a","exp":2000,"iat":900}"#);
    assert!(matches!(bridge().validate_token_claims_at(&t, 1000, &Ok(true)), Err(TokenValidationError::AudienceMismatch)));
}

#[test]
fn subject_and_time_checks() {
    let t = token(HEADER, r#"{"iss":"https://okta.example.com","aud":"api://authority","sub":"  ","exp":2000,"iat":900}"#);
    match bridge().validate_token_claims_at(&t, 1000, &Ok(true)) {
        Err(TokenValidationError::EmptyClaim(c)) => assert_eq!(c, "sub"),
        other => panic!("unexpected: {:?}", other),
    }
    let t = token(HEADER, &payload(""));
    assert!(matches!(bridge().validate_token_claims_at(&t, 2031, &Ok(true)), Err(TokenValidationError::Expired)));
    assert!(bridge().validate_token_claims_at(&t, 2030, &Ok(true)).is_ok());
    assert!(matches!(bridge().validate_token_claims_at(&t, 869, &Ok(true)), Err(TokenValidationError::IssuedInFuture)));
    let t = token(HEADER, &payload(r#","nbf":1100"#));
    assert!(matches!(bridge().validate_token_claims_at(&t, 1000, &Ok(true)), Err(TokenValidationError::NotYetValid)));
    let t = token(HEADER, r#"{"iss":"https://okta.example.com","aud":"api://authority","sub":"a","iat":900}"#);
    match bridge().validate_token_claims_at(&t, 1000, &Ok(true)) {
        Err(TokenValidationError::MissingClaim(c)) => assert_eq!(c, "exp"),
        other => panic!("unexpected: {:?}", other),
    }
}

#[test]
fn tenant_scope_role_guards() {
    let mut c = config();
    c.allowed_tenants = vec!["tenant-a".to_string()];
    c.required_scopes = vec!["authority:check".to_string()];
    c.required_roles = vec!["ops".to_string()];
    let b = OktaIdentityBridge::new(c).unwrap();
    let t = token(HEADER, &payload(r#","tenant_id":"tenant-b""#));
    assert!(matches!(b.validate_token_claims_at(&t, 1000, &Ok(true)), Err(TokenValidationError::TenantNotAllowed)));
    let t = token(HEADER, &payload(""));
    match b.validate_token_claims_at(&t, 1000, &Ok(true)) {
        Err(TokenValidationError::MissingClaim(c)) => assert_eq!(c, "tenant_id"),
        other => panic!("unexpected: {:?}", other),
    }
    let t = token(HEADER, &payload(r#","tenant_id":"tenant-a","scope":"read write""#));
    assert!(matches!(b.validate_token_claims_at(&t, 1000, &Ok(true)), Err(TokenValidationError::MissingScope)));
    let t = token(HEADER, &payload(r#","tenant_id":"tenant-a","scope":"read authority:check","groups":["dev"]"#));
    assert!(matches!(b.validate_token_claims_at(&t, 1000, &Ok(true)), Err(TokenValidationError::MissingRole)));
    let t = token(HEADER, &payload(r#","tenant_id":"tenant-a","scope":"read authority:check","groups":["dev","ops"]"#));
    assert!(b.validate_token_claims_at(&t, 1000, &Ok(true)).is_ok());
}

#[test]
fn key_id_checks_when_jwks_enabled() {
    let mut c = config();
    c.enable_jwks_validation = true;
    assert!(OktaIdentityBridge::new(c.clone()).is_err());
    c.jwks_url = Some("https://okta.example.com/keys".to_string());
    let b = OktaIdentityBridge::new(c).unwrap();
    let t = token(HEADER, &payload(""));
    assert!(b.validate_token_claims_at(&t, 1000, &Ok(true)).is_ok());
    match b.validate_token_claims_at(&t, 1000, &Ok(false)) {
        Err(TokenValidationError::KeyNotFound(k)) => assert_eq!(k, "k1"),
        other => panic!("unexpected: {:?}", other),
    }
    let fetch = Err(TokenValidationError::JwksFetchFailed("HTTP 500".to_string()));
    assert!(matches!(b.validate_token_claims_at(&t, 1000, &fetch), Err(TokenValidationError::JwksFetchFailed(_))));
    let t = token(r#"{"alg":"RS256"}"#, &payload(""));
    assert!(matches!(b.validate_token_claims_at(&t, 1000, &Ok(true)), Err(TokenValidationError::MissingKid)));
    // without key validation the lookup outcome is not consulted
    let t = token(HEADER, &payload(""));
    assert!(bridge().validate_token_claims_at(&t, 1000, &Ok(false)).is_ok());
}

#[test]
fn local_idp_token_validates_as_okta_token() {
    let idp = LocalIdpBridge::new(LocalIdpBridgeConfig::default());
    let subject = PrincipalRef::new("agent:test");
    let state = StateEvidence::new("web", "state123");
    let minted = idp.exchange_token_at(&subject, &state, 1000);
    let mut c = OktaBridgeConfig::default();
    c.issuer = "http://localhost/predicate-local-idp".to_string();
    c.audience = "api://predicate-authority".to_string();
    c.allowed_signing_algs = vec!["HS256".to_string()];
    let b = OktaIdentityBridge::new(c).unwrap();
    let claims = b.validate_token_claims_at(&minted.access_token, 1100, &Ok(true)).unwrap();
    assert_eq!(claims.subject, "agent:test");
    assert!(matches!(b.validate_token_claims_at(&minted.access_token, 1400, &Ok(true)), Err(TokenValidationError::Expired)));
}

#[test]
fn okta_exchange_is_marked_okta() {
    let subject = PrincipalRef::new("agent:test");
    let state = StateEvidence::new("web", "state123");
    let r = bridge().exchange_token_at(&subject, &state, 1000);
    assert_eq!(r.provider, IdentityProviderType::Okta);
    assert!(r.access_token.starts_with("oidc."));
    assert_eq!(r.expires_at_epoch_s, 1300);
}

#[test]
fn whitespace_words_and_collections() {
    let chars: Vec<char> = "  read\twrite  admin ".chars().collect();
    assert_eq!(split_words(&chars), vec!["read".to_string(), "write".to_string(), "admin".to_string()]);
    let blank = text("   ");
    assert!(string_collection_of(Some(&blank)).is_empty());
    let arr = ClaimValue { text: None, integer: None, items: Some(vec![Some("".to_string()), None, Some("a".to_string())]) };
    assert_eq!(string_collection_of(Some(&arr)), vec!["a".to_string()]);
}

#[test]
fn jwks_helpers() {
    assert!(matches!(usable_kids(&None), Err(TokenValidationError::JwksMissingKeys)));
    assert!(matches!(usable_kids(&Some(vec![None, Some("".to_string())])), Err(TokenValidationError::JwksNoUsableKeys)));
    assert_eq!(usable_kids(&Some(vec![Some("k1".to_string()), None])).unwrap(), vec!["k1".to_string()]);
    let cache = JwksCache::refreshed(vec!["k1".to_string()], 1000, 0);
    assert_eq!(cache.expires_at_epoch_s, 1001);
    assert!(cache.has_fresh_key(&"k1".to_string(), 1001));
    assert!(!cache.has_fresh_key(&"k1".to_string(), 1002));
    assert!(!cache.has_fresh_key(&"k2".to_string(), 1000));
    match fetch_failed(&TokenValidationError::JwksMissingKeys) {
        TokenValidationError::JwksFetchFailed(m) => assert_eq!(m, "JWKS response missing keys array"),
        other => panic!("unexpected: {:?}", other),
    }
    assert_eq!(retry_backoff_ms(100, 0), 100);
    assert_eq!(retry_backoff_ms(100, 3), 800);
    assert_eq!(retry_backoff_ms(u64::MAX, 1), u64::MAX);
    assert!(matches!(jwks_uri_from_discovery(Some(" ".to_string())), Err(TokenValidationError::NoJwksEndpoint)));
    assert_eq!(jwks_uri_from_discovery(Some("https://k".to_string())).unwrap(), "https://k");
    let mut c = config();
    assert!(matches!(c.jwks_source(), Err(TokenValidationError::NoJwksEndpoint)));
    c.jwks_url = Some(" ".to_string());
    c.discovery_url = Some("https://d".to_string());
    assert!(matches!(c.jwks_source(), Ok(JwksSource::Discovery(d)) if d == "https://d"));
}
