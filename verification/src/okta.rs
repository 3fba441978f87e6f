//! Okta token validation: the claims of a three-segment JWT checked against
//! the bridge configuration (signing algorithm, key id, issuer, audience,
//! required claims, subject, validity window, tenant, scopes and roles).
//! Fetching the signing keys is the caller's part: the validation takes the
//! outcome of the key lookup as an argument.
use vstd::prelude::*;

use crate::bridge::{
    IdentityProviderType, OidcBridgeConfig, OidcIdentityBridge, TokenErrorView, TokenExchangeResult,
    TokenValidationError, oidc_token, sat_add,
};
use crate::mandate::opt_bytes;
use crate::models::{PrincipalRef, StateEvidence};
use crate::policy::{clone_strings, has_label, opt_view};
use crate::text::{
    append_str, chars_of, eq_str, lowercase, owned, split_chars, split_on, string_from_chars, string_views,
    to_lowercase, trim_chars, trim_str, trimmed, whitespace, is_whitespace,
};

verus! {

broadcast use vstd::string::group_string_axioms;

// ---------------------------------------------------------------------------
// Claims
// ---------------------------------------------------------------------------

/// A claim as the validation reads it.
#[derive(Debug, Clone)]
pub struct ClaimValue {
    /// Its text, when the claim is a JSON string.
    pub text: Option<String>,
    /// Its value, when the claim is a JSON number that fits in `i64`.
    pub integer: Option<i64>,
    /// Its items, when the claim is a JSON array: the text of each item
    /// that is a string.
    pub items: Option<Vec<Option<String>>>,
}

/// A claim as a value.
pub struct ClaimView {
    pub text: Option<Seq<char>>,
    pub integer: Option<i64>,
    pub items: Option<Seq<Option<Seq<char>>>>,
}

/// The texts of optional strings.
pub open spec fn opt_texts(v: Seq<Option<String>>) -> Seq<Option<Seq<char>>> {
    v.map_values(|o: Option<String>| opt_view(o))
}

impl View for ClaimValue {
    type V = ClaimView;

    open spec fn view(&self) -> ClaimView {
        ClaimView {
            text: opt_view(self.text),
            integer: self.integer,
            items: match self.items {
                Some(v) => Some(opt_texts(v@)),
                None => None,
            },
        }
    }
}

/// The members of a claims object as values.
pub open spec fn claims_view(m: Seq<(String, ClaimValue)>) -> Seq<(Seq<char>, ClaimView)> {
    m.map_values(|p: (String, ClaimValue)| (p.0@, p.1@))
}

/// The first member named `name`.
pub open spec fn claim_named(m: Seq<(Seq<char>, ClaimView)>, name: Seq<char>) -> Option<ClaimView>
    decreases m.len(),
{
    if m.len() == 0 {
        None
    } else if m[0].0 == name {
        Some(m[0].1)
    } else {
        claim_named(m.drop_first(), name)
    }
}

/// The text of a claim that is a string.
pub open spec fn text_claim(c: Option<ClaimView>) -> Option<Seq<char>> {
    match c {
        Some(v) => v.text,
        None => None,
    }
}

/// The value of a claim that is an integer.
pub open spec fn int_claim(c: Option<ClaimView>) -> Option<i64> {
    match c {
        Some(v) => v.integer,
        None => None,
    }
}

/// Empty or whitespace only.
pub open spec fn blank(s: Seq<char>) -> bool {
    trimmed(s).len() == 0
}

/// The member named `name`, if any.
pub fn find_claim<'a>(m: &'a Vec<(String, ClaimValue)>, name: &str) -> (r: Option<&'a ClaimValue>)
    ensures
        match r {
            Some(c) => claim_named(claims_view(m@), name@) == Some(c@),
            None => claim_named(claims_view(m@), name@) is None,
        },
{
    let ghost v = claims_view(m@);
    let mut i: usize = 0;
    assert(v.subrange(0, v.len() as int) =~= v);
    while i < m.len()
        invariant
            i <= m@.len(),
            v == claims_view(m@),
            claim_named(v, name@) == claim_named(v.subrange(i as int, v.len() as int), name@),
        decreases m@.len() - i,
    {
        assert(v.subrange(i as int, v.len() as int).drop_first() =~= v.subrange(i + 1, v.len() as int));
        assert(v.subrange(i as int, v.len() as int)[0] == v[i as int]);
        assert(v[i as int] == (m@[i as int].0@, m@[i as int].1@));
        let key = chars_of(m[i].0.as_str());
        if eq_str(key.as_slice(), name) {
            return Some(&m[i].1);
        }
        i = i + 1;
    }
    None
}

/// Whether `s` is empty or whitespace only.
pub fn is_blank(s: &str) -> (r: bool)
    ensures
        r == blank(s@),
{
    trim_str(s).len() == 0
}

// ---------------------------------------------------------------------------
// Decoding
// ---------------------------------------------------------------------------

/// The bytes a padded URL-safe base64 text decodes to, if any.
pub uninterp spec fn base64url_padded_decoded(text: Seq<char>) -> Option<Seq<u8>>;

/// `base64::engine::general_purpose::URL_SAFE.decode`: the bytes of a padded
/// URL-safe base64 text, or `None` when it is not one. Claimed: a function
/// of the text alone.
#[verifier::external_body]
fn base64url_padded_decode(text: &str) -> (r: Option<Vec<u8>>)
    ensures
        opt_bytes(r) == base64url_padded_decoded(text@),
{
    base64::Engine::decode(&base64::engine::general_purpose::URL_SAFE, text).ok()
}

/// The members of the JSON object held by `data`, if it holds one.
pub uninterp spec fn json_object_members(data: Seq<u8>) -> Option<Seq<(Seq<char>, ClaimView)>>;

/// `serde_json::from_slice::<serde_json::Value>` followed by `as_object`:
/// the members of the object in the parser's order, each value read with
/// `as_str`, `as_i64` and `as_array` (and `as_str` on each item). Claimed:
/// a function of the bytes alone.
#[verifier::external_body]
fn parse_json_object(data: &[u8]) -> (r: Option<Vec<(String, ClaimValue)>>)
    ensures
        match r {
            Some(m) => json_object_members(data@) == Some(claims_view(m@)),
            None => json_object_members(data@) is None,
        },
{
    let v: serde_json::Value = serde_json::from_slice(data).ok()?;
    Some(v.as_object()?.iter().map(|(k, x)| (k.clone(), ClaimValue {
        text: x.as_str().map(String::from),
        integer: x.as_i64(),
        items: x.as_array().map(|a| a.iter().map(|e| e.as_str().map(String::from)).collect()),
    })).collect())
}

/// The padding that completes a base64 text of `n` characters, if any does.
pub open spec fn padding_for(n: nat) -> Option<Seq<char>> {
    if n % 4 == 0 {
        Some(Seq::empty())
    } else if n % 4 == 2 {
        Some("=="@)
    } else if n % 4 == 3 {
        Some("="@)
    } else {
        None
    }
}

/// The claims object a token segment encodes, if it encodes one.
pub open spec fn decoded_segment(seg: Seq<char>) -> Option<Seq<(Seq<char>, ClaimView)>> {
    match padding_for(seg.len()) {
        Some(p) => match base64url_padded_decoded(seg + p) {
            Some(b) => json_object_members(b),
            None => None,
        },
        None => None,
    }
}

/// Decodes one segment of a token: padded, base64url-decoded, parsed as a
/// JSON object.
fn decode_jwt_segment(segment: &[char]) -> (r: Result<Vec<(String, ClaimValue)>, TokenValidationError>)
    ensures
        match r {
            Ok(m) => decoded_segment(segment@) == Some(claims_view(m@)),
            Err(e) => decoded_segment(segment@) is None && e@ == TokenErrorView::InvalidEncoding,
        },
{
    let rem = segment.len() % 4;
    let mut padded: Vec<char> = Vec::new();
    crate::text::append_chars(&mut padded, segment);
    if rem == 2 {
        append_str(&mut padded, "==");
    } else if rem == 3 {
        append_str(&mut padded, "=");
    } else if rem == 1 {
        return Err(TokenValidationError::InvalidEncoding);
    }
    proof {
        reveal_strlit("==");
        reveal_strlit("=");
        if rem == 0 {
            assert(padded@ =~= segment@ + Seq::<char>::empty());
        }
    }
    let text = string_from_chars(padded.as_slice());
    match base64url_padded_decode(text.as_str()) {
        Some(bytes) => match parse_json_object(bytes.as_slice()) {
            Some(m) => Ok(m),
            None => Err(TokenValidationError::InvalidEncoding),
        },
        None => Err(TokenValidationError::InvalidEncoding),
    }
}

/// The header and payload a token decodes to: `InvalidFormat` unless it
/// has three `.`-separated segments, `InvalidEncoding` unless its first
/// two segments decode.
pub open spec fn jwt_parts(token: Seq<char>) -> Result<
    (Seq<(Seq<char>, ClaimView)>, Seq<(Seq<char>, ClaimView)>),
    TokenErrorView,
> {
    let parts = split_on(token, '.');
    if parts.len() != 3 {
        Err(TokenErrorView::InvalidFormat)
    } else {
        match (decoded_segment(parts[0]), decoded_segment(parts[1])) {
            (Some(h), Some(p)) => Ok((h, p)),
            _ => Err(TokenErrorView::InvalidEncoding),
        }
    }
}

/// Splits a token into its decoded header and payload claims.
pub fn decode_jwt_parts(token: &str) -> (r: Result<
    (Vec<(String, ClaimValue)>, Vec<(String, ClaimValue)>),
    TokenValidationError,
>)
    ensures
        match r {
            Ok((h, p)) => jwt_parts(token@) == Ok::<_, TokenErrorView>((claims_view(h@), claims_view(p@))),
            Err(e) => jwt_parts(token@) == Err::<(Seq<(Seq<char>, ClaimView)>, Seq<(Seq<char>, ClaimView)>), _>(e@),
        },
{
    let chars = chars_of(token);
    let segments = split_chars(chars.as_slice(), '.');
    if segments.len() != 3 {
        return Err(TokenValidationError::InvalidFormat);
    }
    assert(segments@[0]@ == split_on(token@, '.')[0]);
    assert(segments@[1]@ == split_on(token@, '.')[1]);
    let header = decode_jwt_segment(segments[0].as_slice())?;
    let payload = decode_jwt_segment(segments[1].as_slice())?;
    Ok((header, payload))
}

// ---------------------------------------------------------------------------
// Claim collections
// ---------------------------------------------------------------------------

/// The claim of an optional reference, as a value.
pub open spec fn opt_claim(c: Option<&ClaimValue>) -> Option<ClaimView> {
    match c {
        Some(v) => Some(v@),
        None => None,
    }
}

/// The non-empty texts among array items, in order.
pub open spec fn nonempty_texts(items: Seq<Option<Seq<char>>>) -> Seq<Seq<char>>
    decreases items.len(),
{
    if items.len() == 0 {
        Seq::empty()
    } else {
        let rest = nonempty_texts(items.drop_last());
        match items.last() {
            Some(t) => if t.len() > 0 {
                rest.push(t)
            } else {
                rest
            },
            None => rest,
        }
    }
}

/// The maximal runs of non-whitespace characters of `s`, in order (what
/// `str::split_whitespace` yields).
pub open spec fn words(s: Seq<char>) -> Seq<Seq<char>>
    decreases s.len(),
{
    if s.len() == 0 {
        Seq::empty()
    } else if whitespace(s.last()) {
        words(s.drop_last())
    } else if s.len() >= 2 && !whitespace(s[s.len() - 2]) {
        let w = words(s.drop_last());
        w.update(w.len() - 1, w.last().push(s.last()))
    } else {
        words(s.drop_last()).push(seq![s.last()])
    }
}

/// The audiences of an `aud` claim: a non-blank string, or the non-empty
/// strings of an array.
pub open spec fn audience_list(c: Option<ClaimView>) -> Seq<Seq<char>> {
    match c {
        Some(v) => match v.text {
            Some(t) => if !blank(t) {
                seq![t]
            } else {
                Seq::empty()
            },
            None => match v.items {
                Some(items) => nonempty_texts(items),
                None => Seq::empty(),
            },
        },
        None => Seq::empty(),
    }
}

/// The entries of a scope or role claim: the words of a non-blank string,
/// or the non-empty strings of an array.
pub open spec fn string_collection(c: Option<ClaimView>) -> Seq<Seq<char>> {
    match c {
        Some(v) => match v.text {
            Some(t) => if !blank(t) {
                words(t)
            } else {
                Seq::empty()
            },
            None => match v.items {
                Some(items) => nonempty_texts(items),
                None => Seq::empty(),
            },
        },
        None => Seq::empty(),
    }
}

/// The non-empty texts among array items.
fn nonempty_items(items: &Vec<Option<String>>) -> (r: Vec<String>)
    ensures
        string_views(r@) == nonempty_texts(opt_texts(items@)),
{
    let ghost all = opt_texts(items@);
    let mut out: Vec<String> = Vec::new();
    let mut i: usize = 0;
    assert(all.subrange(0, 0) =~= Seq::<Option<Seq<char>>>::empty());
    while i < items.len()
        invariant
            i <= items@.len(),
            all == opt_texts(items@),
            string_views(out@) == nonempty_texts(all.subrange(0, i as int)),
        decreases items@.len() - i,
    {
        assert(all.subrange(0, i + 1).drop_last() =~= all.subrange(0, i as int));
        assert(all.subrange(0, i + 1).last() == opt_view(items@[i as int]));
        match &items[i] {
            Some(t) => {
                if t.as_str().unicode_len() > 0 {
                    out.push(t.clone());
                    assert(string_views(out@) =~= nonempty_texts(all.subrange(0, i as int)).push(t@));
                }
            },
            None => {},
        }
        i = i + 1;
    }
    assert(all.subrange(0, items@.len() as int) =~= all);
    out
}

/// The words of `s`.
pub fn split_words(s: &[char]) -> (r: Vec<String>)
    ensures
        string_views(r@) == words(s@),
{
    let mut done: Vec<String> = Vec::new();
    let mut cur: Vec<char> = Vec::new();
    let mut i: usize = 0;
    assert(s@.subrange(0, 0) =~= Seq::<char>::empty());
    while i < s.len()
        invariant
            i <= s@.len(),
            words(s@.subrange(0, i as int)) == (if cur@.len() > 0 {
                string_views(done@).push(cur@)
            } else {
                string_views(done@)
            }),
            cur@.len() > 0 <==> (i > 0 && !whitespace(s@[i - 1])),
        decreases s@.len() - i,
    {
        let ghost pre = s@.subrange(0, i as int);
        let ghost next = s@.subrange(0, i + 1);
        assert(next.drop_last() =~= pre);
        assert(next.last() == s@[i as int]);
        if i > 0 {
            assert(next[next.len() - 2] == s@[i - 1]);
        }
        let c = s[i];
        if is_whitespace(c) {
            if cur.len() > 0 {
                done.push(string_from_chars(cur.as_slice()));
                cur = Vec::new();
            }
            assert(words(next) == words(pre));
        } else {
            if cur.len() > 0 {
                let ghost w = words(pre);
                assert(w == string_views(done@).push(cur@));
                cur.push(c);
                assert(words(next) =~= string_views(done@).push(cur@));
            } else {
                cur.push(c);
                assert(cur@ =~= seq![c]);
                assert(words(next) =~= string_views(done@).push(cur@));
            }
        }
        i = i + 1;
    }
    assert(s@.subrange(0, s@.len() as int) =~= s@);
    if cur.len() > 0 {
        done.push(string_from_chars(cur.as_slice()));
    }
    proof {
        assert(string_views(done@) == words(s@));
    }
    done
}

/// The audiences of an `aud` claim.
pub fn audience_of(c: Option<&ClaimValue>) -> (r: Vec<String>)
    ensures
        string_views(r@) == audience_list(opt_claim(c)),
{
    match c {
        Some(v) => match &v.text {
            Some(t) => {
                if !is_blank(t.as_str()) {
                    let mut out: Vec<String> = Vec::new();
                    out.push(t.clone());
                    assert(string_views(out@) =~= seq![t@]);
                    out
                } else {
                    Vec::new()
                }
            },
            None => match &v.items {
                Some(items) => nonempty_items(items),
                None => Vec::new(),
            },
        },
        None => Vec::new(),
    }
}

/// The entries of a scope or role claim.
pub fn string_collection_of(c: Option<&ClaimValue>) -> (r: Vec<String>)
    ensures
        string_views(r@) == string_collection(opt_claim(c)),
{
    match c {
        Some(v) => match &v.text {
            Some(t) => {
                if !is_blank(t.as_str()) {
                    let cs = chars_of(t.as_str());
                    split_words(cs.as_slice())
                } else {
                    Vec::new()
                }
            },
            None => match &v.items {
                Some(items) => nonempty_items(items),
                None => Vec::new(),
            },
        },
        None => Vec::new(),
    }
}

// ---------------------------------------------------------------------------
// Configuration
// ---------------------------------------------------------------------------

/// Okta bridge configuration. The key-fetch timeout and the first retry
/// backoff are held in milliseconds.
#[derive(Debug, Clone)]
pub struct OktaBridgeConfig {
    pub issuer: String,
    pub client_id: String,
    pub audience: String,
    pub token_ttl_seconds: i64,
    pub required_claims: Vec<String>,
    pub allowed_signing_algs: Vec<String>,
    pub clock_skew_leeway_seconds: i64,
    pub tenant_claim: String,
    pub scope_claim: String,
    pub role_claim: String,
    pub allowed_tenants: Vec<String>,
    pub required_scopes: Vec<String>,
    pub required_roles: Vec<String>,
    pub enable_jwks_validation: bool,
    pub jwks_url: Option<String>,
    pub discovery_url: Option<String>,
    pub jwks_cache_ttl_seconds: i64,
    pub jwks_timeout_ms: u64,
    pub jwks_max_retries: u32,
    pub jwks_backoff_initial_ms: u64,
}

/// The configuration holds the defaults.
pub open spec fn okta_defaults(r: OktaBridgeConfig) -> bool {
    &&& r.issuer@ == Seq::<char>::empty()
    &&& r.client_id@ == Seq::<char>::empty()
    &&& r.audience@ == Seq::<char>::empty()
    &&& r.token_ttl_seconds == 300
    &&& string_views(r.required_claims@) == seq!["sub"@]
    &&& string_views(r.allowed_signing_algs@) == seq!["RS256"@]
    &&& r.clock_skew_leeway_seconds == 30
    &&& r.tenant_claim@ == "tenant_id"@
    &&& r.scope_claim@ == "scope"@
    &&& r.role_claim@ == "groups"@
    &&& r.allowed_tenants@.len() == 0
    &&& r.required_scopes@.len() == 0
    &&& r.required_roles@.len() == 0
    &&& !r.enable_jwks_validation
    &&& r.jwks_url is None
    &&& r.discovery_url is None
    &&& r.jwks_cache_ttl_seconds == 300
    &&& r.jwks_timeout_ms == 1000
    &&& r.jwks_max_retries == 1
    &&& r.jwks_backoff_initial_ms == 100
}

/// A list holding one string.
fn one_string(s: &str) -> (r: Vec<String>)
    ensures
        string_views(r@) == seq![s@],
{
    let mut v: Vec<String> = Vec::new();
    v.push(owned(s));
    assert(string_views(v@) =~= seq![s@]);
    v
}

impl OktaBridgeConfig {
    /// The defaults: `sub` required, RS256 only, 30 s leeway, tenant in
    /// `tenant_id`, scopes in `scope`, roles in `groups`, no key checks.
    pub fn default_config() -> (r: Self)
        ensures
            okta_defaults(r),
    {
        let r = OktaBridgeConfig {
            issuer: String::new(),
            client_id: String::new(),
            audience: String::new(),
            token_ttl_seconds: 300,
            required_claims: one_string("sub"),
            allowed_signing_algs: one_string("RS256"),
            clock_skew_leeway_seconds: 30,
            tenant_claim: owned("tenant_id"),
            scope_claim: owned("scope"),
            role_claim: owned("groups"),
            allowed_tenants: Vec::new(),
            required_scopes: Vec::new(),
            required_roles: Vec::new(),
            enable_jwks_validation: false,
            jwks_url: None,
            discovery_url: None,
            jwks_cache_ttl_seconds: 300,
            jwks_timeout_ms: 1000,
            jwks_max_retries: 1,
            jwks_backoff_initial_ms: 100,
        };
        r
    }

    /// The clock-skew leeway, never negative.
    pub open spec fn leeway(&self) -> int {
        if self.clock_skew_leeway_seconds > 0 {
            self.clock_skew_leeway_seconds as int
        } else {
            0
        }
    }
}

impl Default for OktaBridgeConfig {
    fn default() -> (r: Self)
        ensures
            okta_defaults(r),
    {
        Self::default_config()
    }
}

/// The claims of a token that passed validation.
#[derive(Debug, Clone)]
pub struct OktaTokenClaims {
    pub issuer: String,
    pub subject: String,
    pub audience: Vec<String>,
    pub claims: Vec<(String, ClaimValue)>,
}

// ---------------------------------------------------------------------------
// Validation rules
// ---------------------------------------------------------------------------

/// Claims as values.
pub type ClaimsView = Seq<(Seq<char>, ClaimView)>;

/// Why the header is refused, if it is: no string `alg`, `alg` `none` in
/// any case, or an algorithm outside the allow-list.
pub open spec fn header_refusal(cfg: OktaBridgeConfig, h: ClaimsView) -> Option<TokenErrorView> {
    match text_claim(claim_named(h, "alg"@)) {
        None => Some(TokenErrorView::MissingAlgorithm),
        Some(alg) => if lowercase(alg) == "none"@ {
            Some(TokenErrorView::AlgorithmNone)
        } else if !string_views(cfg.allowed_signing_algs@).contains(alg) {
            Some(TokenErrorView::AlgorithmNotAllowed)
        } else {
            None
        },
    }
}

/// The key id to look up when key validation is on (`None` when it is
/// off), or `MissingKid` when the header names none or a blank one.
pub open spec fn kid_to_check(cfg: OktaBridgeConfig, h: ClaimsView) -> Result<Option<Seq<char>>, TokenErrorView> {
    if !cfg.enable_jwks_validation {
        Ok(None)
    } else {
        match text_claim(claim_named(h, "kid"@)) {
            Some(k) => if blank(k) {
                Err(TokenErrorView::MissingKid)
            } else {
                Ok(Some(k))
            },
            None => Err(TokenErrorView::MissingKid),
        }
    }
}

/// The first required claim that is missing, or a blank string.
pub open spec fn required_claims_refusal(p: ClaimsView, names: Seq<Seq<char>>) -> Option<TokenErrorView>
    decreases names.len(),
{
    if names.len() == 0 {
        None
    } else {
        match required_claims_refusal(p, names.drop_last()) {
            Some(e) => Some(e),
            None => {
                let c = claim_named(p, names.last());
                if c is None {
                    Some(TokenErrorView::MissingClaim(names.last()))
                } else if text_claim(c) matches Some(t) && blank(t) {
                    Some(TokenErrorView::EmptyClaim(names.last()))
                } else {
                    None
                }
            },
        }
    }
}

/// Why the validity window refuses the token at `now`, if it does: `exp`
/// and `iat` must be integers; expiry before `now - leeway`, not-before or
/// issued-at after `now + leeway` refuse.
pub open spec fn temporal_refusal(p: ClaimsView, now: i64, leeway: int) -> Option<TokenErrorView> {
    match int_claim(claim_named(p, "exp"@)) {
        None => Some(TokenErrorView::MissingClaim("exp"@)),
        Some(exp) => match int_claim(claim_named(p, "iat"@)) {
            None => Some(TokenErrorView::MissingClaim("iat"@)),
            Some(iat) => if exp < now - leeway {
                Some(TokenErrorView::Expired)
            } else if int_claim(claim_named(p, "nbf"@)) matches Some(nbf) && nbf > now + leeway {
                Some(TokenErrorView::NotYetValid)
            } else if iat > now + leeway {
                Some(TokenErrorView::IssuedInFuture)
            } else {
                None
            },
        },
    }
}

/// Every item of `req` is in `have`.
pub open spec fn all_present(req: Seq<Seq<char>>, have: Seq<Seq<char>>) -> bool {
    forall|i: int| 0 <= i < req.len() ==> have.contains(#[trigger] req[i])
}

/// Why the tenant, scope and role guards refuse the payload, if they do.
pub open spec fn guards_refusal(cfg: OktaBridgeConfig, p: ClaimsView) -> Option<TokenErrorView> {
    let tenants = string_views(cfg.allowed_tenants@);
    let tenant = text_claim(claim_named(p, cfg.tenant_claim@));
    if tenants.len() > 0 && !(tenant matches Some(t) && !blank(t)) {
        Some(TokenErrorView::MissingClaim(cfg.tenant_claim@))
    } else if tenants.len() > 0 && !tenants.contains(tenant.unwrap()) {
        Some(TokenErrorView::TenantNotAllowed)
    } else if !all_present(
        string_views(cfg.required_scopes@),
        string_collection(claim_named(p, cfg.scope_claim@)),
    ) {
        Some(TokenErrorView::MissingScope)
    } else if !all_present(
        string_views(cfg.required_roles@),
        string_collection(claim_named(p, cfg.role_claim@)),
    ) {
        Some(TokenErrorView::MissingRole)
    } else {
        None
    }
}

/// Why the payload is refused at `now`, if it is, checking in order the
/// issuer, the audience, the required claims, the subject, the validity
/// window and the guards.
pub open spec fn payload_refusal(cfg: OktaBridgeConfig, p: ClaimsView, now: i64) -> Option<TokenErrorView> {
    match text_claim(claim_named(p, "iss"@)) {
        None => Some(TokenErrorView::MissingIssuer),
        Some(iss) => if iss != cfg.issuer@ {
            Some(TokenErrorView::IssuerMismatch)
        } else if !audience_list(claim_named(p, "aud"@)).contains(cfg.audience@) {
            Some(TokenErrorView::AudienceMismatch)
        } else {
            match required_claims_refusal(p, string_views(cfg.required_claims@)) {
                Some(e) => Some(e),
                None => match text_claim(claim_named(p, "sub"@)) {
                    None => Some(TokenErrorView::MissingClaim("sub"@)),
                    Some(sub) => if blank(sub) {
                        Some(TokenErrorView::EmptyClaim("sub"@))
                    } else {
                        match temporal_refusal(p, now, cfg.leeway()) {
                            Some(e) => Some(e),
                            None => guards_refusal(cfg, p),
                        }
                    },
                },
            }
        },
    }
}

/// The outcome of a key lookup as a value.
pub open spec fn lookup_view(l: Result<bool, TokenValidationError>) -> Result<bool, TokenErrorView> {
    match l {
        Ok(b) => Ok(b),
        Err(e) => Err(e@),
    }
}

/// Why a token is refused at `now`, given the outcome of looking up its
/// key id (whether the key set holds it, or why it could not be had).
pub open spec fn okta_refusal(
    cfg: OktaBridgeConfig,
    token: Seq<char>,
    now: i64,
    lookup: Result<bool, TokenErrorView>,
) -> Option<TokenErrorView> {
    match jwt_parts(token) {
        Err(e) => Some(e),
        Ok((h, p)) => match header_refusal(cfg, h) {
            Some(e) => Some(e),
            None => match kid_to_check(cfg, h) {
                Err(e) => Some(e),
                Ok(Some(kid)) => match lookup {
                    Err(e) => Some(e),
                    Ok(found) => if !found {
                        Some(TokenErrorView::KeyNotFound(kid))
                    } else {
                        payload_refusal(cfg, p, now)
                    },
                },
                Ok(None) => payload_refusal(cfg, p, now),
            },
        },
    }
}

/// The claims a validated payload gives: issuer, subject, audiences and
/// every member.
pub open spec fn validated_claims(c: OktaTokenClaims, p: ClaimsView) -> bool {
    &&& text_claim(claim_named(p, "iss"@)) == Some(c.issuer@)
    &&& text_claim(claim_named(p, "sub"@)) == Some(c.subject@)
    &&& string_views(c.audience@) == audience_list(claim_named(p, "aud"@))
    &&& claims_view(c.claims@) == p
}

// ---------------------------------------------------------------------------
// Validation steps
// ---------------------------------------------------------------------------

/// An error whose view is `e`.
pub open spec fn refused_with<T>(r: Result<T, TokenValidationError>, e: TokenErrorView) -> bool {
    r matches Err(x) && x@ == e
}

/// The text of a string claim, if the member is a string.
fn claim_text<'a>(m: &'a Vec<(String, ClaimValue)>, name: &str) -> (r: Option<&'a String>)
    ensures
        opt_view(match r { Some(t) => Some(*t), None => None }) == text_claim(claim_named(claims_view(m@), name@)),
{
    match find_claim(m, name) {
        Some(c) => match &c.text {
            Some(t) => Some(t),
            None => None,
        },
        None => None,
    }
}

/// The value of an integer claim, if the member is one.
fn claim_integer(m: &Vec<(String, ClaimValue)>, name: &str) -> (r: Option<i64>)
    ensures
        r == int_claim(claim_named(claims_view(m@), name@)),
{
    match find_claim(m, name) {
        Some(c) => c.integer,
        None => None,
    }
}

/// Whether every item of `req` is in `have`.
fn all_in(req: &Vec<String>, have: &Vec<String>) -> (r: bool)
    ensures
        r == all_present(string_views(req@), string_views(have@)),
{
    let mut i: usize = 0;
    while i < req.len()
        invariant
            i <= req@.len(),
            forall|j: int| 0 <= j < i ==> string_views(have@).contains(#[trigger] string_views(req@)[j]),
        decreases req@.len() - i,
    {
        if !has_label(have, &req[i]) {
            assert(string_views(req@)[i as int] == req@[i as int]@);
            return false;
        }
        assert(string_views(req@)[i as int] == req@[i as int]@);
        i = i + 1;
    }
    true
}

/// Lemma: once a prefix of the required claims is refused, the whole list
/// is refused for the same reason.
proof fn lemma_refusal_persists(p: ClaimsView, names: Seq<Seq<char>>, k: int)
    requires
        0 <= k <= names.len(),
        required_claims_refusal(p, names.subrange(0, k)) is Some,
    ensures
        required_claims_refusal(p, names) == required_claims_refusal(p, names.subrange(0, k)),
    decreases names.len() - k,
{
    if k < names.len() {
        assert(names.subrange(0, k + 1).drop_last() =~= names.subrange(0, k));
        lemma_refusal_persists(p, names, k + 1);
    } else {
        assert(names.subrange(0, k) =~= names);
    }
}

/// Checks the required claims in order.
fn check_required_claims(p: &Vec<(String, ClaimValue)>, names: &Vec<String>) -> (r: Result<(), TokenValidationError>)
    ensures
        match required_claims_refusal(claims_view(p@), string_views(names@)) {
            Some(e) => refused_with(r, e),
            None => r is Ok,
        },
{
    let ghost pv = claims_view(p@);
    let ghost all = string_views(names@);
    let mut i: usize = 0;
    assert(all.subrange(0, 0) =~= Seq::<Seq<char>>::empty());
    while i < names.len()
        invariant
            i <= names@.len(),
            pv == claims_view(p@),
            all == string_views(names@),
            required_claims_refusal(pv, all.subrange(0, i as int)) is None,
        decreases names@.len() - i,
    {
        assert(all.subrange(0, i + 1).drop_last() =~= all.subrange(0, i as int));
        assert(all.subrange(0, i + 1).last() == names@[i as int]@);
        let name = &names[i];
        match find_claim(p, name.as_str()) {
            None => {
                proof {
                    lemma_refusal_persists(pv, all, i + 1);
                }
                return Err(TokenValidationError::MissingClaim(name.clone()));
            },
            Some(c) => {
                match &c.text {
                    Some(t) => {
                        if is_blank(t.as_str()) {
                            proof {
                                lemma_refusal_persists(pv, all, i + 1);
                            }
                            return Err(TokenValidationError::EmptyClaim(name.clone()));
                        }
                    },
                    None => {},
                }
            },
        }
        i = i + 1;
    }
    assert(all.subrange(0, names@.len() as int) =~= all);
    Ok(())
}

/// Checks the validity window at `now` with a leeway that is not negative.
fn check_temporal(p: &Vec<(String, ClaimValue)>, now: i64, leeway: i64) -> (r: Result<(), TokenValidationError>)
    requires
        leeway >= 0,
    ensures
        match temporal_refusal(claims_view(p@), now, leeway as int) {
            Some(e) => refused_with(r, e),
            None => r is Ok,
        },
{
    let exp = match claim_integer(p, "exp") {
        Some(x) => x,
        None => return Err(TokenValidationError::MissingClaim(owned("exp"))),
    };
    let iat = match claim_integer(p, "iat") {
        Some(x) => x,
        None => return Err(TokenValidationError::MissingClaim(owned("iat"))),
    };
    let nbf = claim_integer(p, "nbf");
    let low: i128 = now as i128 - leeway as i128;
    let high: i128 = now as i128 + leeway as i128;
    if (exp as i128) < low {
        return Err(TokenValidationError::Expired);
    }
    match nbf {
        Some(n) => {
            if (n as i128) > high {
                return Err(TokenValidationError::NotYetValid);
            }
        },
        None => {},
    }
    if (iat as i128) > high {
        return Err(TokenValidationError::IssuedInFuture);
    }
    Ok(())
}

impl OktaBridgeConfig {
    /// Checks the tenant, scope and role guards.
    fn check_guards(&self, p: &Vec<(String, ClaimValue)>) -> (r: Result<(), TokenValidationError>)
        ensures
            match guards_refusal(*self, claims_view(p@)) {
                Some(e) => refused_with(r, e),
                None => r is Ok,
            },
    {
        if self.allowed_tenants.len() > 0 {
            match claim_text(p, self.tenant_claim.as_str()) {
                Some(t) => {
                    if is_blank(t.as_str()) {
                        return Err(TokenValidationError::MissingClaim(self.tenant_claim.clone()));
                    }
                    if !has_label(&self.allowed_tenants, t) {
                        return Err(TokenValidationError::TenantNotAllowed);
                    }
                },
                None => {
                    return Err(TokenValidationError::MissingClaim(self.tenant_claim.clone()));
                },
            }
        }
        let scopes = string_collection_of(find_claim(p, self.scope_claim.as_str()));
        if !all_in(&self.required_scopes, &scopes) {
            return Err(TokenValidationError::MissingScope);
        }
        let roles = string_collection_of(find_claim(p, self.role_claim.as_str()));
        if !all_in(&self.required_roles, &roles) {
            return Err(TokenValidationError::MissingRole);
        }
        Ok(())
    }
}

// ---------------------------------------------------------------------------
// The bridge
// ---------------------------------------------------------------------------

/// The configuration asks for key validation but names no place to fetch
/// the keys from.
pub open spec fn jwks_unreachable(cfg: OktaBridgeConfig) -> bool {
    cfg.enable_jwks_validation && cfg.jwks_url is None && cfg.discovery_url is None
}

/// Okta identity bridge: OIDC token exchange marked Okta, and validation of
/// Okta-issued tokens.
pub struct OktaIdentityBridge {
    pub config: OktaBridgeConfig,
    pub inner: OidcIdentityBridge,
}

impl OktaIdentityBridge {
    /// A bridge for the configuration; refused when key validation is on
    /// without a JWKS or discovery URL.
    pub fn new(config: OktaBridgeConfig) -> (r: Result<Self, String>)
        ensures
            jwks_unreachable(config) <==> r is Err,
            r matches Err(m) ==> m@ == "Okta JWKS validation is enabled but no jwks_url/discovery_url configured"@,
            r matches Ok(b) ==> b.config == config && b.inner.config.issuer == config.issuer
                && b.inner.config.client_id == config.client_id && b.inner.config.audience == config.audience
                && b.inner.config.token_ttl_seconds == config.token_ttl_seconds,
    {
        if config.enable_jwks_validation && config.jwks_url.is_none() && config.discovery_url.is_none() {
            return Err(owned("Okta JWKS validation is enabled but no jwks_url/discovery_url configured"));
        }
        let oidc_config = OidcBridgeConfig {
            issuer: config.issuer.clone(),
            client_id: config.client_id.clone(),
            audience: config.audience.clone(),
            token_ttl_seconds: config.token_ttl_seconds,
        };
        Ok(OktaIdentityBridge { config, inner: OidcIdentityBridge::new(oidc_config) })
    }

    /// The OIDC token for the configured issuer at time `now`, marked Okta.
    pub fn exchange_token_at(&self, subject: &PrincipalRef, state_evidence: &StateEvidence, now: i64) -> (r: TokenExchangeResult)
        ensures
            r.expires_at_epoch_s == sat_add(now, self.inner.config.token_ttl_seconds),
            r.access_token@ == oidc_token(self.inner.config, subject.principal_id@, state_evidence.state_hash@, r.expires_at_epoch_s),
            r.token_type@ == "Bearer"@,
            r.provider == IdentityProviderType::Okta,
    {
        let mut result = self.inner.exchange_token_at(subject, state_evidence, now);
        result.provider = IdentityProviderType::Okta;
        result
    }

    /// The OIDC token for the configured issuer, now, marked Okta.
    pub fn exchange_token(&self, subject: &PrincipalRef, state_evidence: &StateEvidence) -> (r: TokenExchangeResult)
        ensures
            r.provider == IdentityProviderType::Okta,
            exists|now: i64|
                {
                    &&& r.expires_at_epoch_s == #[trigger] sat_add(now, self.inner.config.token_ttl_seconds)
                    &&& r.access_token@ == oidc_token(self.inner.config, subject.principal_id@, state_evidence.state_hash@, r.expires_at_epoch_s)
                    &&& r.token_type@ == "Bearer"@
                },
    {
        let now = crate::ledger::now_epoch_seconds();
        let r = self.exchange_token_at(subject, state_evidence, now);
        assert(r.expires_at_epoch_s == sat_add(now, self.inner.config.token_ttl_seconds));
        r
    }

    /// The header checks: algorithm, then (when key validation is on) the
    /// key id to look up.
    pub fn check_header(&self, header: &Vec<(String, ClaimValue)>) -> (r: Result<Option<String>, TokenValidationError>)
        ensures
            match header_refusal(self.config, claims_view(header@)) {
                Some(e) => refused_with(r, e),
                None => match kid_to_check(self.config, claims_view(header@)) {
                    Ok(k) => r matches Ok(x) && opt_view(x) == k,
                    Err(e) => refused_with(r, e),
                },
            },
    {
        let alg = match claim_text(header, "alg") {
            Some(a) => a,
            None => return Err(TokenValidationError::MissingAlgorithm),
        };
        let low = to_lowercase(alg.as_str());
        let lc = chars_of(low.as_str());
        if eq_str(lc.as_slice(), "none") {
            return Err(TokenValidationError::AlgorithmNone);
        }
        if !has_label(&self.config.allowed_signing_algs, alg) {
            return Err(TokenValidationError::AlgorithmNotAllowed);
        }
        if !self.config.enable_jwks_validation {
            return Ok(None);
        }
        match claim_text(header, "kid") {
            Some(k) => {
                if is_blank(k.as_str()) {
                    Err(TokenValidationError::MissingKid)
                } else {
                    Ok(Some(k.clone()))
                }
            },
            None => Err(TokenValidationError::MissingKid),
        }
    }

    /// The payload checks at `now`: issuer, audience, required claims,
    /// subject, validity window, tenant, scopes and roles.
    pub fn check_payload(&self, payload: &Vec<(String, ClaimValue)>, now: i64) -> (r: Result<OktaTokenClaims, TokenValidationError>)
        ensures
            match payload_refusal(self.config, claims_view(payload@), now) {
                Some(e) => refused_with(r, e),
                None => r matches Ok(c) && validated_claims(c, claims_view(payload@)),
            },
    {
        let issuer = match claim_text(payload, "iss") {
            Some(i) => i,
            None => return Err(TokenValidationError::MissingIssuer),
        };
        if *issuer != self.config.issuer {
            return Err(TokenValidationError::IssuerMismatch);
        }
        let audiences = audience_of(find_claim(payload, "aud"));
        if !has_label(&audiences, &self.config.audience) {
            return Err(TokenValidationError::AudienceMismatch);
        }
        check_required_claims(payload, &self.config.required_claims)?;
        let subject = match claim_text(payload, "sub") {
            Some(s) => s,
            None => return Err(TokenValidationError::MissingClaim(owned("sub"))),
        };
        if is_blank(subject.as_str()) {
            return Err(TokenValidationError::EmptyClaim(owned("sub")));
        }
        let leeway: i64 = if self.config.clock_skew_leeway_seconds > 0 {
            self.config.clock_skew_leeway_seconds
        } else {
            0
        };
        check_temporal(payload, now, leeway)?;
        self.config.check_guards(payload)?;
        Ok(OktaTokenClaims {
            issuer: issuer.clone(),
            subject: subject.clone(),
            audience: audiences,
            claims: clone_claims(payload),
        })
    }

    /// Validates a token at `now`, given the outcome of looking up its key
    /// id in the signing keys (used only when key validation is on).
    pub fn validate_token_claims_at(
        &self,
        token: &str,
        now: i64,
        key_lookup: &Result<bool, TokenValidationError>,
    ) -> (r: Result<OktaTokenClaims, TokenValidationError>)
        ensures
            match okta_refusal(self.config, token@, now, lookup_view(*key_lookup)) {
                Some(e) => refused_with(r, e),
                None => r matches Ok(c) && jwt_parts(token@) matches Ok((h, p)) && validated_claims(c, p),
            },
    {
        let (header, payload) = decode_jwt_parts(token)?;
        match self.check_header(&header)? {
            Some(kid) => match key_lookup {
                Ok(found) => {
                    if !*found {
                        return Err(TokenValidationError::KeyNotFound(kid));
                    }
                },
                Err(e) => return Err(e.duplicate()),
            },
            None => {},
        }
        self.check_payload(&payload, now)
    }

    /// Validates a token at `now_epoch_s`, or at the current time when none
    /// is given.
    pub fn validate_token_claims(
        &self,
        token: &str,
        now_epoch_s: Option<i64>,
        key_lookup: &Result<bool, TokenValidationError>,
    ) -> (r: Result<OktaTokenClaims, TokenValidationError>)
        ensures
            exists|now: i64| {
                &&& (now_epoch_s matches Some(n) ==> now == n)
                &&& match #[trigger] okta_refusal(self.config, token@, now, lookup_view(*key_lookup)) {
                    Some(e) => refused_with(r, e),
                    None => r matches Ok(c) && jwt_parts(token@) matches Ok((h, p)) && validated_claims(c, p),
                }
            },
    {
        let now = match now_epoch_s {
            Some(n) => n,
            None => crate::ledger::now_epoch_seconds(),
        };
        self.validate_token_claims_at(token, now, key_lookup)
    }
}

/// A copy of a claims list.
fn clone_claims(m: &Vec<(String, ClaimValue)>) -> (r: Vec<(String, ClaimValue)>)
    ensures
        claims_view(r@) == claims_view(m@),
{
    let mut out: Vec<(String, ClaimValue)> = Vec::new();
    let mut i: usize = 0;
    while i < m.len()
        invariant
            i <= m@.len(),
            claims_view(out@) =~= claims_view(m@).subrange(0, i as int),
        decreases m@.len() - i,
    {
        let c = clone_claim(&m[i].1);
        let ghost before = out@;
        out.push((m[i].0.clone(), c));
        assert(claims_view(out@) =~= claims_view(before).push((m@[i as int].0@, m@[i as int].1@)));
        i = i + 1;
    }
    assert(claims_view(m@).subrange(0, m@.len() as int) =~= claims_view(m@));
    out
}

/// A copy of one claim.
fn clone_claim(c: &ClaimValue) -> (r: ClaimValue)
    ensures
        r@ == c@,
{
    let items = match &c.items {
        Some(v) => {
            let mut out: Vec<Option<String>> = Vec::new();
            let mut i: usize = 0;
            while i < v.len()
                invariant
                    i <= v@.len(),
                    opt_texts(out@) =~= opt_texts(v@).subrange(0, i as int),
                decreases v@.len() - i,
            {
                let x = match &v[i] {
                    Some(t) => Some(t.clone()),
                    None => None,
                };
                let ghost before = out@;
                out.push(x);
                assert(opt_view(x) == opt_view(v@[i as int]));
                assert(opt_texts(out@) =~= opt_texts(before).push(opt_view(v@[i as int])));
                i = i + 1;
            }
            assert(opt_texts(v@).subrange(0, v@.len() as int) =~= opt_texts(v@));
            Some(out)
        },
        None => None,
    };
    let text = match &c.text {
        Some(t) => Some(t.clone()),
        None => None,
    };
    ClaimValue { text, integer: c.integer, items }
}

// ---------------------------------------------------------------------------
// Signing keys
// ---------------------------------------------------------------------------

/// Key ids fetched from the JWKS endpoint, and the time until which they
/// answer lookups.
#[derive(Debug, Clone)]
pub struct JwksCache {
    pub expires_at_epoch_s: i64,
    pub kids: Vec<String>,
}

impl JwksCache {
    /// Whether the cache answers for `kid` at `now`: still fresh, and
    /// holding the key.
    pub fn has_fresh_key(&self, kid: &String, now: i64) -> (r: bool)
        ensures
            r == (now <= self.expires_at_epoch_s && string_views(self.kids@).contains(kid@)),
    {
        now <= self.expires_at_epoch_s && has_label(&self.kids, kid)
    }

    /// A cache of freshly fetched key ids, answering until `now` plus the
    /// time to live (at least one second).
    pub fn refreshed(kids: Vec<String>, now: i64, ttl_seconds: i64) -> (r: Self)
        ensures
            r.kids == kids,
            r.expires_at_epoch_s == sat_add(now, if ttl_seconds > 1 { ttl_seconds } else { 1 }),
    {
        let ttl: i64 = if ttl_seconds > 1 {
            ttl_seconds
        } else {
            1
        };
        let expires = if now > i64::MAX - ttl {
            i64::MAX
        } else {
            now + ttl
        };
        JwksCache { expires_at_epoch_s: expires, kids }
    }
}

/// The usable key ids of a JWKS response, given the `kid` of each entry of
/// its `keys` array (`None` when there is no such array): the non-empty
/// ones; `JwksMissingKeys` without the array, `JwksNoUsableKeys` when none
/// is usable.
pub fn usable_kids(key_ids: &Option<Vec<Option<String>>>) -> (r: Result<Vec<String>, TokenValidationError>)
    ensures
        match key_ids {
            None => refused_with(r, TokenErrorView::JwksMissingKeys),
            Some(ids) => if nonempty_texts(opt_texts(ids@)).len() == 0 {
                refused_with(r, TokenErrorView::JwksNoUsableKeys)
            } else {
                r matches Ok(k) && string_views(k@) == nonempty_texts(opt_texts(ids@))
            },
        },
{
    match key_ids {
        None => Err(TokenValidationError::JwksMissingKeys),
        Some(ids) => {
            let kids = nonempty_items(ids);
            if kids.len() == 0 {
                Err(TokenValidationError::JwksNoUsableKeys)
            } else {
                Ok(kids)
            }
        },
    }
}

/// The error reported once every fetch attempt failed: `JwksFetchFailed`
/// with the message of the last failure.
pub fn fetch_failed(last: &TokenValidationError) -> (r: TokenValidationError)
    ensures
        r@ == TokenErrorView::JwksFetchFailed(crate::bridge::token_error_text(*last)),
{
    TokenValidationError::JwksFetchFailed(last.to_string())
}

/// The pause before retry `k` (counted from zero): the first backoff
/// doubled `k` times, held to the range of `u64`.
pub open spec fn backoff_after(initial_ms: u64, k: nat) -> int
    decreases k,
{
    if k == 0 {
        initial_ms as int
    } else {
        let b = backoff_after(initial_ms, (k - 1) as nat);
        if 2 * b > u64::MAX {
            u64::MAX as int
        } else {
            2 * b
        }
    }
}

/// The pause before retry `k`, in milliseconds.
pub fn retry_backoff_ms(initial_ms: u64, k: u32) -> (r: u64)
    ensures
        r == backoff_after(initial_ms, k as nat),
{
    let mut b: u64 = initial_ms;
    let mut i: u32 = 0;
    while i < k
        invariant
            i <= k,
            b == backoff_after(initial_ms, i as nat),
        decreases k - i,
    {
        b = if b > u64::MAX / 2 {
            u64::MAX
        } else {
            2 * b
        };
        i = i + 1;
    }
    b
}

/// Where the signing keys are fetched from.
#[derive(Debug, Clone)]
pub enum JwksSource {
    /// The configured JWKS URL.
    Direct(String),
    /// The JWKS URL named by the discovery document at this URL.
    Discovery(String),
}

impl OktaBridgeConfig {
    /// Where to fetch the signing keys: a non-blank JWKS URL, else a
    /// non-blank discovery URL, else `NoJwksEndpoint`.
    pub fn jwks_source(&self) -> (r: Result<JwksSource, TokenValidationError>)
        ensures
            match (self.jwks_url, self.discovery_url) {
                (Some(u), _) if !blank(u@) => r matches Ok(JwksSource::Direct(x)) && x@ == u@,
                (_, Some(d)) if !blank(d@) => r matches Ok(JwksSource::Discovery(x)) && x@ == d@,
                _ => refused_with(r, TokenErrorView::NoJwksEndpoint),
            },
    {
        match &self.jwks_url {
            Some(u) => {
                if !is_blank(u.as_str()) {
                    return Ok(JwksSource::Direct(u.clone()));
                }
            },
            None => {},
        }
        match &self.discovery_url {
            Some(d) => {
                if !is_blank(d.as_str()) {
                    Ok(JwksSource::Discovery(d.clone()))
                } else {
                    Err(TokenValidationError::NoJwksEndpoint)
                }
            },
            None => Err(TokenValidationError::NoJwksEndpoint),
        }
    }
}

/// The JWKS URL of a discovery document, given its `jwks_uri` member when
/// that is a string: `NoJwksEndpoint` when missing or blank.
pub fn jwks_uri_from_discovery(jwks_uri: Option<String>) -> (r: Result<String, TokenValidationError>)
    ensures
        match jwks_uri {
            Some(u) if !blank(u@) => r == Ok::<String, TokenValidationError>(u),
            _ => refused_with(r, TokenErrorView::NoJwksEndpoint),
        },
{
    match jwks_uri {
        Some(u) => {
            if is_blank(u.as_str()) {
                Err(TokenValidationError::NoJwksEndpoint)
            } else {
                Ok(u)
            }
        },
        None => Err(TokenValidationError::NoJwksEndpoint),
    }
}

} // verus!
