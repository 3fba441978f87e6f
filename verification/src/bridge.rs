//! Identity bridges: exchange a principal and its state evidence for an
//! access token, locally (a hash), through an OIDC or Entra issuer (a
//! deterministic token bound to the issuer), or from a local identity
//! provider (an HS256-signed JWT).
use vstd::prelude::*;

use crate::ledger::{json_str, member, push_json_str, push_member, push_str_member, signed_decimal, signed_decimal_chars};
use crate::mandate::{hs256_jwt_text, sha256_hex_of};
use crate::models::{PrincipalRef, StateEvidence};
use crate::policy::opt_view;
use crate::text::{append_chars, append_str, chars_of, owned, string_from_chars};

verus! {

broadcast use vstd::string::group_string_axioms;

/// Identity provider type.
#[derive(Debug, Clone, Copy, PartialEq, Eq, Structural)]
pub enum IdentityProviderType {
    Local,
    LocalIdp,
    Oidc,
    Entra,
    Okta,
}

/// Token exchange result.
#[derive(Debug, Clone)]
pub struct TokenExchangeResult {
    pub access_token: String,
    pub expires_at_epoch_s: i64,
    pub token_type: String,
    pub provider: IdentityProviderType,
}

/// The default token type, "Bearer".
pub fn default_bearer() -> (r: String)
    ensures
        r@ == "Bearer"@,
{
    owned("Bearer")
}

/// Why a token was refused.
#[derive(Debug, Clone)]
pub enum TokenValidationError {
    InvalidFormat,
    InvalidEncoding,
    MissingAlgorithm,
    AlgorithmNone,
    AlgorithmNotAllowed,
    MissingIssuer,
    IssuerMismatch,
    AudienceMismatch,
    MissingClaim(String),
    EmptyClaim(String),
    Expired,
    NotYetValid,
    IssuedInFuture,
    TenantNotAllowed,
    MissingScope,
    MissingRole,
    MissingKid,
    KeyNotFound(String),
    JwksFetchFailed(String),
    JwksMissingKeys,
    JwksNoUsableKeys,
    NoJwksEndpoint,
}

/// A token validation error as a value: its kind and its detail text.
pub enum TokenErrorView {
    InvalidFormat,
    InvalidEncoding,
    MissingAlgorithm,
    AlgorithmNone,
    AlgorithmNotAllowed,
    MissingIssuer,
    IssuerMismatch,
    AudienceMismatch,
    MissingClaim(Seq<char>),
    EmptyClaim(Seq<char>),
    Expired,
    NotYetValid,
    IssuedInFuture,
    TenantNotAllowed,
    MissingScope,
    MissingRole,
    MissingKid,
    KeyNotFound(Seq<char>),
    JwksFetchFailed(Seq<char>),
    JwksMissingKeys,
    JwksNoUsableKeys,
    NoJwksEndpoint,
}

impl View for TokenValidationError {
    type V = TokenErrorView;

    open spec fn view(&self) -> TokenErrorView {
        match self {
            TokenValidationError::InvalidFormat => TokenErrorView::InvalidFormat,
            TokenValidationError::InvalidEncoding => TokenErrorView::InvalidEncoding,
            TokenValidationError::MissingAlgorithm => TokenErrorView::MissingAlgorithm,
            TokenValidationError::AlgorithmNone => TokenErrorView::AlgorithmNone,
            TokenValidationError::AlgorithmNotAllowed => TokenErrorView::AlgorithmNotAllowed,
            TokenValidationError::MissingIssuer => TokenErrorView::MissingIssuer,
            TokenValidationError::IssuerMismatch => TokenErrorView::IssuerMismatch,
            TokenValidationError::AudienceMismatch => TokenErrorView::AudienceMismatch,
            TokenValidationError::MissingClaim(c) => TokenErrorView::MissingClaim(c@),
            TokenValidationError::EmptyClaim(c) => TokenErrorView::EmptyClaim(c@),
            TokenValidationError::Expired => TokenErrorView::Expired,
            TokenValidationError::NotYetValid => TokenErrorView::NotYetValid,
            TokenValidationError::IssuedInFuture => TokenErrorView::IssuedInFuture,
            TokenValidationError::TenantNotAllowed => TokenErrorView::TenantNotAllowed,
            TokenValidationError::MissingScope => TokenErrorView::MissingScope,
            TokenValidationError::MissingRole => TokenErrorView::MissingRole,
            TokenValidationError::MissingKid => TokenErrorView::MissingKid,
            TokenValidationError::KeyNotFound(k) => TokenErrorView::KeyNotFound(k@),
            TokenValidationError::JwksFetchFailed(m) => TokenErrorView::JwksFetchFailed(m@),
            TokenValidationError::JwksMissingKeys => TokenErrorView::JwksMissingKeys,
            TokenValidationError::JwksNoUsableKeys => TokenErrorView::JwksNoUsableKeys,
            TokenValidationError::NoJwksEndpoint => TokenErrorView::NoJwksEndpoint,
        }
    }
}

/// The message of a token validation error.
pub open spec fn token_error_text(e: TokenValidationError) -> Seq<char> {
    match e {
        TokenValidationError::InvalidFormat => "Token must be a 3-segment JWT"@,
        TokenValidationError::InvalidEncoding => "Token segment is not valid base64url JSON"@,
        TokenValidationError::MissingAlgorithm => "Token header missing required algorithm: alg"@,
        TokenValidationError::AlgorithmNone => "Token algorithm 'none' is not allowed"@,
        TokenValidationError::AlgorithmNotAllowed => "Token algorithm is not in allowlist"@,
        TokenValidationError::MissingIssuer => "Token missing required issuer claim: iss"@,
        TokenValidationError::IssuerMismatch => "Token issuer mismatch"@,
        TokenValidationError::AudienceMismatch => "Token audience mismatch"@,
        TokenValidationError::MissingClaim(c) => "Token missing required claim: "@ + c@,
        TokenValidationError::EmptyClaim(c) => "Token claim is empty: "@ + c@,
        TokenValidationError::Expired => "Token is expired"@,
        TokenValidationError::NotYetValid => "Token not yet valid (nbf)"@,
        TokenValidationError::IssuedInFuture => "Token issued-at time is in the future"@,
        TokenValidationError::TenantNotAllowed => "Token tenant is not in configured allow-list"@,
        TokenValidationError::MissingScope => "Token missing required scope"@,
        TokenValidationError::MissingRole => "Token missing required role/group"@,
        TokenValidationError::MissingKid => "Token header missing required key id: kid"@,
        TokenValidationError::KeyNotFound(k) => "No JWKS key found for kid: "@ + k@,
        TokenValidationError::JwksFetchFailed(m) => "JWKS fetch failed: "@ + m@,
        TokenValidationError::JwksMissingKeys => "JWKS response missing keys array"@,
        TokenValidationError::JwksNoUsableKeys => "JWKS response contains no usable kid entries"@,
        TokenValidationError::NoJwksEndpoint => "No JWKS endpoint configured"@,
    }
}

/// A fixed text followed by a detail.
fn with_detail(prefix: &str, detail: &String) -> (r: String)
    ensures
        r@ == prefix@ + detail@,
{
    let mut m: Vec<char> = Vec::new();
    append_str(&mut m, prefix);
    append_str(&mut m, detail.as_str());
    string_from_chars(m.as_slice())
}

impl TokenValidationError {
    /// A copy of the error.
    pub fn duplicate(&self) -> (r: Self)
        ensures
            r@ == self@,
    {
        match self {
            TokenValidationError::InvalidFormat => TokenValidationError::InvalidFormat,
            TokenValidationError::InvalidEncoding => TokenValidationError::InvalidEncoding,
            TokenValidationError::MissingAlgorithm => TokenValidationError::MissingAlgorithm,
            TokenValidationError::AlgorithmNone => TokenValidationError::AlgorithmNone,
            TokenValidationError::AlgorithmNotAllowed => TokenValidationError::AlgorithmNotAllowed,
            TokenValidationError::MissingIssuer => TokenValidationError::MissingIssuer,
            TokenValidationError::IssuerMismatch => TokenValidationError::IssuerMismatch,
            TokenValidationError::AudienceMismatch => TokenValidationError::AudienceMismatch,
            TokenValidationError::MissingClaim(c) => TokenValidationError::MissingClaim(c.clone()),
            TokenValidationError::EmptyClaim(c) => TokenValidationError::EmptyClaim(c.clone()),
            TokenValidationError::Expired => TokenValidationError::Expired,
            TokenValidationError::NotYetValid => TokenValidationError::NotYetValid,
            TokenValidationError::IssuedInFuture => TokenValidationError::IssuedInFuture,
            TokenValidationError::TenantNotAllowed => TokenValidationError::TenantNotAllowed,
            TokenValidationError::MissingScope => TokenValidationError::MissingScope,
            TokenValidationError::MissingRole => TokenValidationError::MissingRole,
            TokenValidationError::MissingKid => TokenValidationError::MissingKid,
            TokenValidationError::KeyNotFound(k) => TokenValidationError::KeyNotFound(k.clone()),
            TokenValidationError::JwksFetchFailed(m) => TokenValidationError::JwksFetchFailed(m.clone()),
            TokenValidationError::JwksMissingKeys => TokenValidationError::JwksMissingKeys,
            TokenValidationError::JwksNoUsableKeys => TokenValidationError::JwksNoUsableKeys,
            TokenValidationError::NoJwksEndpoint => TokenValidationError::NoJwksEndpoint,
        }
    }

    /// The error's message.
    pub fn to_string(&self) -> (r: String)
        ensures
            r@ == token_error_text(*self),
    {
        match self {
            TokenValidationError::InvalidFormat => owned("Token must be a 3-segment JWT"),
            TokenValidationError::InvalidEncoding => owned("Token segment is not valid base64url JSON"),
            TokenValidationError::MissingAlgorithm => owned("Token header missing required algorithm: alg"),
            TokenValidationError::AlgorithmNone => owned("Token algorithm 'none' is not allowed"),
            TokenValidationError::AlgorithmNotAllowed => owned("Token algorithm is not in allowlist"),
            TokenValidationError::MissingIssuer => owned("Token missing required issuer claim: iss"),
            TokenValidationError::IssuerMismatch => owned("Token issuer mismatch"),
            TokenValidationError::AudienceMismatch => owned("Token audience mismatch"),
            TokenValidationError::MissingClaim(c) => with_detail("Token missing required claim: ", c),
            TokenValidationError::EmptyClaim(c) => with_detail("Token claim is empty: ", c),
            TokenValidationError::Expired => owned("Token is expired"),
            TokenValidationError::NotYetValid => owned("Token not yet valid (nbf)"),
            TokenValidationError::IssuedInFuture => owned("Token issued-at time is in the future"),
            TokenValidationError::TenantNotAllowed => owned("Token tenant is not in configured allow-list"),
            TokenValidationError::MissingScope => owned("Token missing required scope"),
            TokenValidationError::MissingRole => owned("Token missing required role/group"),
            TokenValidationError::MissingKid => owned("Token header missing required key id: kid"),
            TokenValidationError::KeyNotFound(k) => with_detail("No JWKS key found for kid: ", k),
            TokenValidationError::JwksFetchFailed(m) => with_detail("JWKS fetch failed: ", m),
            TokenValidationError::JwksMissingKeys => owned("JWKS response missing keys array"),
            TokenValidationError::JwksNoUsableKeys => owned("JWKS response contains no usable kid entries"),
            TokenValidationError::NoJwksEndpoint => owned("No JWKS endpoint configured"),
        }
    }
}

// ---------------------------------------------------------------------------
// Configurations
// ---------------------------------------------------------------------------

/// OIDC bridge configuration.
#[derive(Debug, Clone)]
pub struct OidcBridgeConfig {
    pub issuer: String,
    pub client_id: String,
    pub audience: String,
    pub token_ttl_seconds: i64,
}

/// Entra bridge configuration.
#[derive(Debug, Clone)]
pub struct EntraBridgeConfig {
    pub tenant_id: String,
    pub client_id: String,
    pub audience: String,
    pub token_ttl_seconds: i64,
}

/// Local identity provider configuration.
#[derive(Debug, Clone)]
pub struct LocalIdpBridgeConfig {
    pub issuer: String,
    pub audience: String,
    pub signing_key: String,
    pub token_ttl_seconds: i64,
}

impl LocalIdpBridgeConfig {
    /// The development defaults.
    pub fn default_config() -> (r: Self)
        ensures
            r.issuer@ == "http://localhost/predicate-local-idp"@,
            r.audience@ == "api://predicate-authority"@,
            r.signing_key@ == "predicate-local-idp-dev-key"@,
            r.token_ttl_seconds == 300,
    {
        LocalIdpBridgeConfig {
            issuer: owned("http://localhost/predicate-local-idp"),
            audience: owned("api://predicate-authority"),
            signing_key: owned("predicate-local-idp-dev-key"),
            token_ttl_seconds: 300,
        }
    }
}

impl Default for LocalIdpBridgeConfig {
    fn default() -> (r: Self)
        ensures
            r.issuer@ == "http://localhost/predicate-local-idp"@,
            r.audience@ == "api://predicate-authority"@,
            r.signing_key@ == "predicate-local-idp-dev-key"@,
            r.token_ttl_seconds == 300,
    {
        Self::default_config()
    }
}

// ---------------------------------------------------------------------------
// Hash-based bridges
// ---------------------------------------------------------------------------

/// `a + b`, held to the range of `i64`.
pub open spec fn sat_add(a: i64, b: i64) -> i64 {
    if a + b > i64::MAX {
        i64::MAX
    } else if a + b < i64::MIN {
        i64::MIN
    } else {
        (a + b) as i64
    }
}

/// `a + b`, held to the range of `i64`.
fn saturating_sum(a: i64, b: i64) -> (r: i64)
    ensures
        r == sat_add(a, b),
{
    if b > 0 && a > i64::MAX - b {
        i64::MAX
    } else if b < 0 && a < i64::MIN - b {
        i64::MIN
    } else {
        a + b
    }
}

/// Texts joined by '|'.
pub open spec fn bar_join(items: Seq<Seq<char>>) -> Seq<char>
    decreases items.len(),
{
    if items.len() == 0 {
        Seq::empty()
    } else if items.len() == 1 {
        items[0]
    } else {
        bar_join(items.drop_last()) + "|"@ + items.last()
    }
}

/// Lowercase hex SHA-256 of texts joined by '|'.
fn hash_of_fields(items: &Vec<Vec<char>>) -> (r: String)
    ensures
        r@ == sha256_hex_of(bar_join(items@.map_values(|v: Vec<char>| v@))),
{
    let ghost views = items@.map_values(|v: Vec<char>| v@);
    let mut seed: Vec<char> = Vec::new();
    let mut i: usize = 0;
    assert(views.subrange(0, 0) =~= Seq::<Seq<char>>::empty());
    while i < items.len()
        invariant
            i <= items@.len(),
            views == items@.map_values(|v: Vec<char>| v@),
            seed@ == bar_join(views.subrange(0, i as int)),
        decreases items@.len() - i,
    {
        assert(views.subrange(0, i + 1).drop_last() =~= views.subrange(0, i as int));
        if i > 0 {
            append_str(&mut seed, "|");
        }
        append_chars(&mut seed, items[i].as_slice());
        assert(views[i as int] == items@[i as int]@);
        assert(seed@ =~= bar_join(views.subrange(0, i + 1)));
        i = i + 1;
    }
    assert(views.subrange(0, items@.len() as int) =~= views);
    let t = string_from_chars(seed.as_slice());
    crate::mandate::sha256_hex(t.as_str())
}

/// A prefix followed by a text.
fn prefixed(prefix: &str, s: String) -> (r: String)
    ensures
        r@ == prefix@ + s@,
{
    let mut m: Vec<char> = Vec::new();
    append_str(&mut m, prefix);
    append_str(&mut m, s.as_str());
    string_from_chars(m.as_slice())
}

/// The token of the local bridge.
pub open spec fn local_token(principal: Seq<char>, state_hash: Seq<char>, expires: i64) -> Seq<char> {
    "local."@ + sha256_hex_of(bar_join(seq![principal, state_hash, signed_decimal(expires as int)]))
}

/// Local identity bridge (development mode).
pub struct LocalIdentityBridge {
    pub token_ttl_seconds: i64,
}

impl LocalIdentityBridge {
    /// A bridge issuing tokens for `token_ttl_seconds`.
    pub fn new(token_ttl_seconds: i64) -> (r: Self)
        ensures
            r.token_ttl_seconds == token_ttl_seconds,
    {
        LocalIdentityBridge { token_ttl_seconds }
    }

    /// The local token of a principal at time `now`.
    pub fn exchange_token_at(&self, subject: &PrincipalRef, state_evidence: &StateEvidence, now: i64) -> (r: TokenExchangeResult)
        ensures
            r.expires_at_epoch_s == sat_add(now, self.token_ttl_seconds),
            r.access_token@ == local_token(subject.principal_id@, state_evidence.state_hash@, r.expires_at_epoch_s),
            r.token_type@ == "Bearer"@,
            r.provider == IdentityProviderType::Local,
    {
        let expires_at = saturating_sum(now, self.token_ttl_seconds);
        let mut fields: Vec<Vec<char>> = Vec::new();
        fields.push(chars_of(subject.principal_id.as_str()));
        fields.push(chars_of(state_evidence.state_hash.as_str()));
        fields.push(signed_decimal_chars(expires_at));
        let ghost views = fields@.map_values(|v: Vec<char>| v@);
        assert(views =~= seq![subject.principal_id@, state_evidence.state_hash@, signed_decimal(expires_at as int)]);
        let h = hash_of_fields(&fields);
        TokenExchangeResult {
            access_token: prefixed("local.", h),
            expires_at_epoch_s: expires_at,
            token_type: default_bearer(),
            provider: IdentityProviderType::Local,
        }
    }

    /// The local token of a principal, now.
    pub fn exchange_token(&self, subject: &PrincipalRef, state_evidence: &StateEvidence) -> (r: TokenExchangeResult)
        ensures
            r.provider == IdentityProviderType::Local,
            exists|now: i64|
                {
                    &&& r.expires_at_epoch_s == #[trigger] sat_add(now, self.token_ttl_seconds)
                    &&& r.access_token@ == local_token(subject.principal_id@, state_evidence.state_hash@, r.expires_at_epoch_s)
                    &&& r.token_type@ == "Bearer"@
                },
    {
        let now = crate::ledger::now_epoch_seconds();
        let r = self.exchange_token_at(subject, state_evidence, now);
        assert(r.expires_at_epoch_s == sat_add(now, self.token_ttl_seconds));
        r
    }
}

/// The token of the OIDC bridge.
pub open spec fn oidc_token(c: OidcBridgeConfig, principal: Seq<char>, state_hash: Seq<char>, expires: i64) -> Seq<char> {
    "oidc."@ + sha256_hex_of(bar_join(seq![c.issuer@, c.client_id@, c.audience@, principal, state_hash, signed_decimal(expires as int)]))
}

/// The refreshed token of the OIDC bridge.
pub open spec fn oidc_refresh_token(c: OidcBridgeConfig, refresh: Seq<char>, principal: Seq<char>, state_hash: Seq<char>, expires: i64) -> Seq<char> {
    "oidc-refresh."@ + sha256_hex_of(bar_join(seq![refresh, c.issuer@, principal, state_hash, signed_decimal(expires as int)]))
}

/// Generic OIDC identity bridge.
pub struct OidcIdentityBridge {
    pub config: OidcBridgeConfig,
}

impl OidcIdentityBridge {
    /// A bridge for the configured issuer.
    pub fn new(config: OidcBridgeConfig) -> (r: Self)
        ensures
            r.config == config,
    {
        OidcIdentityBridge { config }
    }

    /// The issuer-bound token of a principal at time `now`.
    pub fn exchange_token_at(&self, subject: &PrincipalRef, state_evidence: &StateEvidence, now: i64) -> (r: TokenExchangeResult)
        ensures
            r.expires_at_epoch_s == sat_add(now, self.config.token_ttl_seconds),
            r.access_token@ == oidc_token(self.config, subject.principal_id@, state_evidence.state_hash@, r.expires_at_epoch_s),
            r.token_type@ == "Bearer"@,
            r.provider == IdentityProviderType::Oidc,
    {
        let expires_at = saturating_sum(now, self.config.token_ttl_seconds);
        let mut fields: Vec<Vec<char>> = Vec::new();
        fields.push(chars_of(self.config.issuer.as_str()));
        fields.push(chars_of(self.config.client_id.as_str()));
        fields.push(chars_of(self.config.audience.as_str()));
        fields.push(chars_of(subject.principal_id.as_str()));
        fields.push(chars_of(state_evidence.state_hash.as_str()));
        fields.push(signed_decimal_chars(expires_at));
        let ghost views = fields@.map_values(|v: Vec<char>| v@);
        assert(views =~= seq![
            self.config.issuer@,
            self.config.client_id@,
            self.config.audience@,
            subject.principal_id@,
            state_evidence.state_hash@,
            signed_decimal(expires_at as int),
        ]);
        let h = hash_of_fields(&fields);
        TokenExchangeResult {
            access_token: prefixed("oidc.", h),
            expires_at_epoch_s: expires_at,
            token_type: default_bearer(),
            provider: IdentityProviderType::Oidc,
        }
    }

    /// The issuer-bound token of a principal, now.
    pub fn exchange_token(&self, subject: &PrincipalRef, state_evidence: &StateEvidence) -> (r: TokenExchangeResult)
        ensures
            r.provider == IdentityProviderType::Oidc,
            exists|now: i64|
                {
                    &&& r.expires_at_epoch_s == #[trigger] sat_add(now, self.config.token_ttl_seconds)
                    &&& r.access_token@ == oidc_token(self.config, subject.principal_id@, state_evidence.state_hash@, r.expires_at_epoch_s)
                    &&& r.token_type@ == "Bearer"@
                },
    {
        let now = crate::ledger::now_epoch_seconds();
        let r = self.exchange_token_at(subject, state_evidence, now);
        assert(r.expires_at_epoch_s == sat_add(now, self.config.token_ttl_seconds));
        r
    }

    /// A token refreshed from `refresh_token` at time `now`.
    pub fn refresh_token_at(&self, refresh_token: &str, subject: &PrincipalRef, state_evidence: &StateEvidence, now: i64) -> (r: TokenExchangeResult)
        ensures
            r.expires_at_epoch_s == sat_add(now, self.config.token_ttl_seconds),
            r.access_token@ == oidc_refresh_token(self.config, refresh_token@, subject.principal_id@, state_evidence.state_hash@, r.expires_at_epoch_s),
            r.token_type@ == "Bearer"@,
            r.provider == IdentityProviderType::Oidc,
    {
        let expires_at = saturating_sum(now, self.config.token_ttl_seconds);
        let mut fields: Vec<Vec<char>> = Vec::new();
        fields.push(chars_of(refresh_token));
        fields.push(chars_of(self.config.issuer.as_str()));
        fields.push(chars_of(subject.principal_id.as_str()));
        fields.push(chars_of(state_evidence.state_hash.as_str()));
        fields.push(signed_decimal_chars(expires_at));
        let ghost views = fields@.map_values(|v: Vec<char>| v@);
        assert(views =~= seq![
            refresh_token@,
            self.config.issuer@,
            subject.principal_id@,
            state_evidence.state_hash@,
            signed_decimal(expires_at as int),
        ]);
        let h = hash_of_fields(&fields);
        TokenExchangeResult {
            access_token: prefixed("oidc-refresh.", h),
            expires_at_epoch_s: expires_at,
            token_type: default_bearer(),
            provider: IdentityProviderType::Oidc,
        }
    }

    /// A token refreshed from `refresh_token`, now.
    pub fn refresh_token(&self, refresh_token: &str, subject: &PrincipalRef, state_evidence: &StateEvidence) -> (r: TokenExchangeResult)
        ensures
            r.provider == IdentityProviderType::Oidc,
            exists|now: i64|
                {
                    &&& r.expires_at_epoch_s == #[trigger] sat_add(now, self.config.token_ttl_seconds)
                    &&& r.access_token@ == oidc_refresh_token(self.config, refresh_token@, subject.principal_id@, state_evidence.state_hash@, r.expires_at_epoch_s)
                    &&& r.token_type@ == "Bearer"@
                },
    {
        let now = crate::ledger::now_epoch_seconds();
        let r = self.refresh_token_at(refresh_token, subject, state_evidence, now);
        assert(r.expires_at_epoch_s == sat_add(now, self.config.token_ttl_seconds));
        r
    }
}

/// The Entra issuer of a tenant.
pub open spec fn entra_issuer(tenant: Seq<char>) -> Seq<char> {
    "https://login.microsoftonline.com/"@ + tenant + "/v2.0"@
}

/// Microsoft Entra identity bridge: an OIDC bridge for the tenant's issuer.
pub struct EntraIdentityBridge {
    pub inner: OidcIdentityBridge,
}

impl EntraIdentityBridge {
    /// A bridge for the tenant's v2.0 issuer.
    pub fn new(config: EntraBridgeConfig) -> (r: Self)
        ensures
            r.inner.config.issuer@ == entra_issuer(config.tenant_id@),
            r.inner.config.client_id == config.client_id,
            r.inner.config.audience == config.audience,
            r.inner.config.token_ttl_seconds == config.token_ttl_seconds,
    {
        let mut iss: Vec<char> = Vec::new();
        append_str(&mut iss, "https://login.microsoftonline.com/");
        append_str(&mut iss, config.tenant_id.as_str());
        append_str(&mut iss, "/v2.0");
        let oidc_config = OidcBridgeConfig {
            issuer: string_from_chars(iss.as_slice()),
            client_id: config.client_id,
            audience: config.audience,
            token_ttl_seconds: config.token_ttl_seconds,
        };
        EntraIdentityBridge { inner: OidcIdentityBridge::new(oidc_config) }
    }

    /// The OIDC token for the tenant's issuer at time `now`, marked Entra.
    pub fn exchange_token_at(&self, subject: &PrincipalRef, state_evidence: &StateEvidence, now: i64) -> (r: TokenExchangeResult)
        ensures
            r.expires_at_epoch_s == sat_add(now, self.inner.config.token_ttl_seconds),
            r.access_token@ == oidc_token(self.inner.config, subject.principal_id@, state_evidence.state_hash@, r.expires_at_epoch_s),
            r.token_type@ == "Bearer"@,
            r.provider == IdentityProviderType::Entra,
    {
        let mut result = self.inner.exchange_token_at(subject, state_evidence, now);
        result.provider = IdentityProviderType::Entra;
        result
    }

    /// The OIDC token for the tenant's issuer, now, marked Entra.
    pub fn exchange_token(&self, subject: &PrincipalRef, state_evidence: &StateEvidence) -> (r: TokenExchangeResult)
        ensures
            r.provider == IdentityProviderType::Entra,
            exists|now: i64|
                {
                    &&& r.expires_at_epoch_s == #[trigger] sat_add(now, self.inner.config.token_ttl_seconds)
                    &&& r.access_token@ == oidc_token(self.inner.config, subject.principal_id@, state_evidence.state_hash@, r.expires_at_epoch_s)
                    &&& r.token_type@ == "Bearer"@
                },
    {
        let now = crate::ledger::now_epoch_seconds();
        let r = self.exchange_token_at(subject, state_evidence, now);
        assert(r.expires_at_epoch_s == sat_add(now, self.inner.config.token_ttl_seconds));
        r
    }
}

// ---------------------------------------------------------------------------
// Local identity provider
// ---------------------------------------------------------------------------

/// The header of a local identity provider token, keys in order.
pub open spec fn idp_header_json() -> Seq<char> {
    "{"@ + member("alg"@, json_str("HS256"@)) + ","@ + member("kid"@, json_str("predicate-local-idp-dev"@))
        + ","@ + member("typ"@, json_str("JWT"@)) + "}"@
}

/// A JSON string or `null`.
pub open spec fn json_opt_str(o: Option<Seq<char>>) -> Seq<char> {
    match o {
        Some(s) => json_str(s),
        None => "null"@,
    }
}

/// The payload of a local identity provider token, keys in order.
pub open spec fn idp_payload_json(
    c: LocalIdpBridgeConfig,
    subject: PrincipalRef,
    state: StateEvidence,
    expires: i64,
    now: i64,
    kind: Seq<char>,
    refresh_hash: Option<Seq<char>>,
) -> Seq<char> {
    "{"@ + member("aud"@, json_str(c.audience@)) + ","@ + member("exp"@, signed_decimal(expires as int)) + ","@
        + member("iat"@, signed_decimal(now as int)) + ","@ + member("iss"@, json_str(c.issuer@)) + ","@ + member(
        "refresh_token_hash"@,
        json_opt_str(refresh_hash),
    ) + ","@ + member("session_id"@, json_opt_str(opt_view(subject.session_id))) + ","@ + member(
        "state_hash"@,
        json_str(state.state_hash@),
    ) + ","@ + member("state_source"@, json_str(state.source@)) + ","@ + member(
        "sub"@,
        json_str(subject.principal_id@),
    ) + ","@ + member("tenant_id"@, json_opt_str(opt_view(subject.tenant_id))) + ","@ + member(
        "token_kind"@,
        json_str(kind),
    ) + "}"@
}

/// Appends a JSON string or `null`.
fn push_json_opt_str(out: &mut Vec<char>, o: &Option<String>)
    ensures
        final(out)@ == old(out)@ + json_opt_str(opt_view(*o)),
{
    match o {
        Some(s) => push_json_str(out, s.as_str()),
        None => append_str(out, "null"),
    }
}

/// Local identity provider bridge: HS256 JWTs signed with a local key.
pub struct LocalIdpBridge {
    pub config: LocalIdpBridgeConfig,
}

impl LocalIdpBridge {
    /// A provider with the given configuration.
    pub fn new(config: LocalIdpBridgeConfig) -> (r: Self)
        ensures
            r.config == config,
    {
        LocalIdpBridge { config }
    }

    /// A signed token for the principal, of the given kind, expiring at
    /// `expires_at`, issued at `now`.
    fn mint_token(
        &self,
        subject: &PrincipalRef,
        state_evidence: &StateEvidence,
        expires_at_epoch_s: i64,
        now: i64,
        grant_kind: &str,
        refresh_token: Option<&str>,
    ) -> (r: String)
        ensures
            r@ == hs256_jwt_text(
                self.config.signing_key@,
                idp_header_json(),
                idp_payload_json(
                    self.config,
                    *subject,
                    *state_evidence,
                    expires_at_epoch_s,
                    now,
                    grant_kind@,
                    match refresh_token {
                        Some(t) => Some(sha256_hex_of(t@)),
                        None => None,
                    },
                ),
            ),
    {
        let mut header: Vec<char> = Vec::new();
        append_str(&mut header, "{");
        push_str_member(&mut header, "alg", "HS256");
        append_str(&mut header, ",");
        push_str_member(&mut header, "kid", "predicate-local-idp-dev");
        append_str(&mut header, ",");
        push_str_member(&mut header, "typ", "JWT");
        append_str(&mut header, "}");
        assert(header@ =~= idp_header_json());
        let refresh_hash: Option<String> = match refresh_token {
            Some(t) => Some(crate::mandate::sha256_hex(t)),
            None => None,
        };
        let mut p: Vec<char> = Vec::new();
        append_str(&mut p, "{");
        push_str_member(&mut p, "aud", self.config.audience.as_str());
        append_str(&mut p, ",");
        let e = signed_decimal_chars(expires_at_epoch_s);
        push_member(&mut p, "exp", e.as_slice());
        append_str(&mut p, ",");
        let n = signed_decimal_chars(now);
        push_member(&mut p, "iat", n.as_slice());
        append_str(&mut p, ",");
        push_str_member(&mut p, "iss", self.config.issuer.as_str());
        append_str(&mut p, ",");
        let mut v1: Vec<char> = Vec::new();
        push_json_opt_str(&mut v1, &refresh_hash);
        push_member(&mut p, "refresh_token_hash", v1.as_slice());
        append_str(&mut p, ",");
        let mut v2: Vec<char> = Vec::new();
        push_json_opt_str(&mut v2, &subject.session_id);
        push_member(&mut p, "session_id", v2.as_slice());
        append_str(&mut p, ",");
        push_str_member(&mut p, "state_hash", state_evidence.state_hash.as_str());
        append_str(&mut p, ",");
        push_str_member(&mut p, "state_source", state_evidence.source.as_str());
        append_str(&mut p, ",");
        push_str_member(&mut p, "sub", subject.principal_id.as_str());
        append_str(&mut p, ",");
        let mut v3: Vec<char> = Vec::new();
        push_json_opt_str(&mut v3, &subject.tenant_id);
        push_member(&mut p, "tenant_id", v3.as_slice());
        append_str(&mut p, ",");
        push_str_member(&mut p, "token_kind", grant_kind);
        append_str(&mut p, "}");
        let ghost rh = match refresh_token {
            Some(t) => Some(sha256_hex_of(t@)),
            None => None,
        };
        assert(opt_view(refresh_hash) == rh);
        assert(p@ =~= idp_payload_json(self.config, *subject, *state_evidence, expires_at_epoch_s, now, grant_kind@, rh));
        let header_text = string_from_chars(header.as_slice());
        let payload_text = string_from_chars(p.as_slice());
        crate::mandate::hs256_jwt(self.config.signing_key.as_str(), header_text.as_str(), payload_text.as_str())
    }

    /// An access token for the principal at time `now`.
    pub fn exchange_token_at(&self, subject: &PrincipalRef, state_evidence: &StateEvidence, now: i64) -> (r: TokenExchangeResult)
        ensures
            r.expires_at_epoch_s == sat_add(now, self.config.token_ttl_seconds),
            r.access_token@ == hs256_jwt_text(
                self.config.signing_key@,
                idp_header_json(),
                idp_payload_json(self.config, *subject, *state_evidence, r.expires_at_epoch_s, now, "access"@, None),
            ),
            r.token_type@ == "Bearer"@,
            r.provider == IdentityProviderType::LocalIdp,
    {
        let expires_at = saturating_sum(now, self.config.token_ttl_seconds);
        let token = self.mint_token(subject, state_evidence, expires_at, now, "access", None);
        TokenExchangeResult {
            access_token: token,
            expires_at_epoch_s: expires_at,
            token_type: default_bearer(),
            provider: IdentityProviderType::LocalIdp,
        }
    }

    /// An access token for the principal, now.
    pub fn exchange_token(&self, subject: &PrincipalRef, state_evidence: &StateEvidence) -> (r: TokenExchangeResult)
        ensures
            r.provider == IdentityProviderType::LocalIdp,
            exists|now: i64|
                {
                    &&& r.expires_at_epoch_s == #[trigger] sat_add(now, self.config.token_ttl_seconds)
                    &&& r.access_token@ == hs256_jwt_text(
                        self.config.signing_key@,
                        idp_header_json(),
                        idp_payload_json(self.config, *subject, *state_evidence, r.expires_at_epoch_s, now, "access"@, None),
                    )
                    &&& r.token_type@ == "Bearer"@
                },
    {
        let now = crate::ledger::now_epoch_seconds();
        let r = self.exchange_token_at(subject, state_evidence, now);
        assert(r.expires_at_epoch_s == sat_add(now, self.config.token_ttl_seconds));
        r
    }

    /// A refreshed access token at time `now`: it carries the SHA-256 of
    /// the refresh token.
    pub fn refresh_token_at(&self, refresh_token: &str, subject: &PrincipalRef, state_evidence: &StateEvidence, now: i64) -> (r: TokenExchangeResult)
        ensures
            r.expires_at_epoch_s == sat_add(now, self.config.token_ttl_seconds),
            r.access_token@ == hs256_jwt_text(
                self.config.signing_key@,
                idp_header_json(),
                idp_payload_json(
                    self.config,
                    *subject,
                    *state_evidence,
                    r.expires_at_epoch_s,
                    now,
                    "refresh_access"@,
                    Some(sha256_hex_of(refresh_token@)),
                ),
            ),
            r.token_type@ == "Bearer"@,
            r.provider == IdentityProviderType::LocalIdp,
    {
        let expires_at = saturating_sum(now, self.config.token_ttl_seconds);
        let token = self.mint_token(subject, state_evidence, expires_at, now, "refresh_access", Some(refresh_token));
        TokenExchangeResult {
            access_token: token,
            expires_at_epoch_s: expires_at,
            token_type: default_bearer(),
            provider: IdentityProviderType::LocalIdp,
        }
    }

    /// A refreshed access token, now.
    pub fn refresh_token(&self, refresh_token: &str, subject: &PrincipalRef, state_evidence: &StateEvidence) -> (r: TokenExchangeResult)
        ensures
            r.provider == IdentityProviderType::LocalIdp,
            exists|now: i64|
                {
                    &&& r.expires_at_epoch_s == #[trigger] sat_add(now, self.config.token_ttl_seconds)
                    &&& r.access_token@ == hs256_jwt_text(
                        self.config.signing_key@,
                        idp_header_json(),
                        idp_payload_json(
                            self.config,
                            *subject,
                            *state_evidence,
                            r.expires_at_epoch_s,
                            now,
                            "refresh_access"@,
                            Some(sha256_hex_of(refresh_token@)),
                        ),
                    )
                    &&& r.token_type@ == "Bearer"@
                },
    {
        let now = crate::ledger::now_epoch_seconds();
        let r = self.refresh_token_at(refresh_token, subject, state_evidence, now);
        assert(r.expires_at_epoch_s == sat_add(now, self.config.token_ttl_seconds));
        r
    }
}

} // verus!
