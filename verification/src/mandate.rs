//! Mandate signing and verification: JWT tokens signed with ES256 (ECDSA
//! P-256) or HS256 (HMAC-SHA256), a key ring with staged rotation, and a
//! delegation chain hash that ties every derived mandate to its parent.
use vstd::prelude::*;
use vstd::utf8::{decode_utf8, encode_utf8, valid_utf8};

use crate::ledger::{
    escape_char, hex_digit_char, hex_encode, hex_lower, json_escape, json_str, member, push_json_str, push_member, push_str_member, sha256,
    sha256_digest, signed_decimal, signed_decimal_chars,
};
use crate::models::{scope_view, scopes_view, ActionRequest, MandateClaims, ScopeSpec, SignedMandate};
use crate::policy::opt_view;
use crate::text::{
    append_chars, append_str, chars_of, decimal, decimal_chars, digit_char, occurs_at, owned, slice_chars, split_chars,
    split_on, string_from_chars,
};

verus! {

broadcast use vstd::string::group_string_axioms;

// ---------------------------------------------------------------------------
// Algorithms
// ---------------------------------------------------------------------------

/// Signing algorithm.
#[derive(Debug, Clone, Copy, PartialEq, Eq, Structural)]
pub enum SigningAlgorithm {
    ES256,
    HS256,
}

/// The JWT name of an algorithm.
pub open spec fn alg_name(a: SigningAlgorithm) -> Seq<char> {
    match a {
        SigningAlgorithm::ES256 => "ES256"@,
        SigningAlgorithm::HS256 => "HS256"@,
    }
}

impl SigningAlgorithm {
    /// The JWT name of the algorithm.
    pub fn as_str(&self) -> (r: &'static str)
        ensures
            r@ == alg_name(*self),
    {
        proof {
            reveal_strlit("ES256");
            reveal_strlit("HS256");
        }
        match self {
            SigningAlgorithm::ES256 => "ES256",
            SigningAlgorithm::HS256 => "HS256",
        }
    }
}

// ---------------------------------------------------------------------------
// Outside primitives
// ---------------------------------------------------------------------------

/// The URL-safe base64 encoding of `data`, without padding.
pub uninterp spec fn base64url(data: Seq<u8>) -> Seq<char>;

/// A character of the URL-safe base64 alphabet.
pub open spec fn url_safe_char(c: char) -> bool {
    ('A' <= c <= 'Z') || ('a' <= c <= 'z') || ('0' <= c <= '9') || c == '-' || c == '_'
}

/// Every character of `t` is of the URL-safe base64 alphabet.
pub open spec fn url_safe_text(t: Seq<char>) -> bool {
    forall|i: int| 0 <= i < t.len() ==> url_safe_char(#[trigger] t[i])
}

/// `base64::engine::general_purpose::URL_SAFE_NO_PAD.encode`: the URL-safe
/// base64 text of `data` without padding. Claimed: the result is a
/// function of `data` alone and uses only the URL-safe alphabet.
#[verifier::external_body]
fn base64url_encode(data: &[u8]) -> (r: String)
    ensures
        r@ == base64url(data@),
        forall|i: int| 0 <= i < r@.len() ==> url_safe_char(#[trigger] r@[i]),
{
    base64::Engine::encode(&base64::engine::general_purpose::URL_SAFE_NO_PAD, data)
}

/// The decoding gave back exactly `b`.
pub open spec fn decodes_to(r: Option<Vec<u8>>, b: Seq<u8>) -> bool {
    r matches Some(v) && v@ == b
}

/// The bytes an unpadded URL-safe base64 text decodes to, if any.
pub uninterp spec fn base64url_decoded(text: Seq<char>) -> Option<Seq<u8>>;

/// The bytes of an optional vector.
pub open spec fn opt_bytes(r: Option<Vec<u8>>) -> Option<Seq<u8>> {
    match r {
        Some(v) => Some(v@),
        None => None,
    }
}

/// `base64::engine::general_purpose::URL_SAFE_NO_PAD.decode`: the bytes of
/// an unpadded URL-safe base64 text, or `None` when it is not one.
/// Claimed: a function of the text alone, and decoding the encoding of
/// some bytes gives those bytes back.
#[verifier::external_body]
fn base64url_decode(text: &str) -> (r: Option<Vec<u8>>)
    ensures
        opt_bytes(r) == base64url_decoded(text@),
        forall|b: Seq<u8>| text@ == #[trigger] base64url(b) ==> decodes_to(r, b),
{
    base64::Engine::decode(&base64::engine::general_purpose::URL_SAFE_NO_PAD, text).ok()
}

/// The HMAC-SHA256 tag of `data` under `key`.
pub uninterp spec fn hmac_sha256_tag(key: Seq<u8>, data: Seq<u8>) -> Seq<u8>;

/// `hmac::Hmac::<sha2::Sha256>`: keyed with `key` (any length is accepted),
/// fed `data`, finalized; the 32-byte tag.
#[verifier::external_body]
pub(crate) fn hmac_sha256(key: &[u8], data: &[u8]) -> (r: Vec<u8>)
    ensures
        r@ == hmac_sha256_tag(key@, data@),
        r@.len() == 32,
{
    let mut mac = <hmac::Hmac<sha2::Sha256> as hmac::Mac>::new_from_slice(key).unwrap();
    hmac::Mac::update(&mut mac, data);
    hmac::Mac::finalize(mac).into_bytes().to_vec()
}

/// Whether 32 bytes are a valid P-256 secret scalar (nonzero, below the
/// group order).
pub uninterp spec fn p256_scalar_accepted(scalar: Seq<u8>) -> bool;

/// `p256::ecdsa::SigningKey::from_bytes` succeeds: whether 32 bytes form a
/// valid secret scalar. Claimed: a function of the bytes alone.
#[verifier::external_body]
fn p256_scalar_ok(scalar: &[u8]) -> (r: bool)
    requires
        scalar@.len() == 32,
    ensures
        r == p256_scalar_accepted(scalar@),
{
    p256::ecdsa::SigningKey::from_bytes(p256::elliptic_curve::generic_array::GenericArray::from_slice(scalar)).is_ok()
}

/// The ES256 signature of `msg` under the secret scalar, as 64 bytes r||s.
pub uninterp spec fn es256_signature(scalar: Seq<u8>, msg: Seq<u8>) -> Seq<u8>;

/// Whether `sig` is a valid ES256 signature of `msg` for the public key of
/// the secret scalar.
pub uninterp spec fn es256_valid(scalar: Seq<u8>, msg: Seq<u8>, sig: Seq<u8>) -> bool;

/// `p256::ecdsa::SigningKey::sign` (deterministic RFC 6979 ECDSA) with the
/// key of an accepted scalar, serialized with `Signature::to_bytes`.
/// Claimed: 64 bytes, a function of scalar and message, and accepted by
/// the matching verification.
#[verifier::external_body]
fn es256_sign(scalar: &[u8], msg: &[u8]) -> (r: Vec<u8>)
    requires
        scalar@.len() == 32,
        p256_scalar_accepted(scalar@),
    ensures
        r@ == es256_signature(scalar@, msg@),
        r@.len() == 64,
        es256_valid(scalar@, msg@, r@),
{
    let key = p256::ecdsa::SigningKey::from_bytes(p256::elliptic_curve::generic_array::GenericArray::from_slice(scalar)).unwrap();
    let sig: p256::ecdsa::Signature = p256::ecdsa::signature::Signer::sign(&key, msg);
    sig.to_bytes().to_vec()
}

/// `p256::ecdsa::Signature::from_slice` followed by
/// `VerifyingKey::verify` with the public key of an accepted scalar:
/// false when the bytes are not a signature or do not verify.
#[verifier::external_body]
fn es256_verify(scalar: &[u8], msg: &[u8], sig: &[u8]) -> (r: bool)
    requires
        scalar@.len() == 32,
        p256_scalar_accepted(scalar@),
    ensures
        r == es256_valid(scalar@, msg@, sig@),
{
    let key = p256::ecdsa::SigningKey::from_bytes(p256::elliptic_curve::generic_array::GenericArray::from_slice(scalar)).unwrap();
    match p256::ecdsa::Signature::from_slice(sig) {
        Ok(s) => p256::ecdsa::signature::Verifier::verify(key.verifying_key(), msg, &s).is_ok(),
        Err(_) => false,
    }
}

/// `String::from_utf8`: the text of UTF-8 bytes, `None` when they are not
/// valid UTF-8.
#[verifier::external_body]
fn utf8_text(bytes: Vec<u8>) -> (r: Option<String>)
    ensures
        r is Some <==> valid_utf8(bytes@),
        r matches Some(s) ==> s@ == decode_utf8(bytes@),
{
    String::from_utf8(bytes).ok()
}

// ---------------------------------------------------------------------------
// Hashes
// ---------------------------------------------------------------------------

/// Lowercase hex of the SHA-256 of a text's UTF-8 bytes.
pub open spec fn sha256_hex_of(s: Seq<char>) -> Seq<char> {
    hex_lower(sha256_digest(encode_utf8(s)))
}

/// Lowercase hex of the SHA-256 of `s`: 64 characters.
pub(crate) fn sha256_hex(s: &str) -> (r: String)
    ensures
        r@ == sha256_hex_of(s@),
        r@.len() == 64,
{
    let d = sha256(s.as_bytes());
    proof {
        lemma_hex_len(d@);
    }
    hex_encode(d.as_slice())
}

/// Lemma: a hex rendering has two digits per byte.
proof fn lemma_hex_len(data: Seq<u8>)
    ensures
        hex_lower(data).len() == 2 * data.len(),
    decreases data.len(),
{
    if data.len() > 0 {
        lemma_hex_len(data.drop_last());
    }
}


// ---------------------------------------------------------------------------
// JSON of the header and the claims
// ---------------------------------------------------------------------------

/// The JWT header: `{"alg":..,"kid":..,"typ":"JWT"}`, members in key order.
#[verifier::opaque]
pub open spec fn header_json(alg: Seq<char>, kid: Seq<char>) -> Seq<char> {
    "{"@ + member("alg"@, json_str(alg)) + ","@ + member("kid"@, json_str(kid)) + ","@ + member(
        "typ"@,
        json_str("JWT"@),
    ) + "}"@
}

/// One scope as a JSON object.
pub open spec fn scope_json(sc: ScopeSpec) -> Seq<char> {
    "{"@ + member("action"@, json_str(sc.action@)) + ","@ + member("resource"@, json_str(sc.resource@))
        + "}"@
}

/// The comma-separated JSON objects of scopes.
pub open spec fn scopes_json(v: Seq<ScopeSpec>) -> Seq<char>
    decreases v.len(),
{
    if v.len() == 0 {
        Seq::empty()
    } else if v.len() == 1 {
        scope_json(v[0])
    } else {
        scopes_json(v.drop_last()) + ","@ + scope_json(v.last())
    }
}

/// `,"key":"value"` when the text is present.
pub open spec fn opt_text_member(key: Seq<char>, v: Option<String>) -> Seq<char> {
    match v {
        Some(x) => ","@ + member(key, json_str(x@)),
        None => Seq::empty(),
    }
}

/// `,"key":n` when the number is present.
pub open spec fn opt_int_member(key: Seq<char>, v: Option<i64>) -> Seq<char> {
    match v {
        Some(x) => ","@ + member(key, signed_decimal(x as int)),
        None => Seq::empty(),
    }
}

/// The leading members of the claims, up to the state hash.
pub open spec fn claims_head(c: MandateClaims) -> Seq<char> {
    "{"@ + member("mandate_id"@, json_str(c.mandate_id@)) + ","@ + member(
        "principal_id"@,
        json_str(c.principal_id@),
    ) + ","@ + member("action"@, json_str(c.action@)) + ","@ + member(
        "resource"@,
        json_str(c.resource@),
    ) + (if c.scopes@.len() > 0 {
        ","@ + member("scopes"@, "["@ + scopes_json(c.scopes@) + "]"@)
    } else {
        Seq::empty()
    }) + ","@ + member("intent_hash"@, json_str(c.intent_hash@)) + ","@ + member(
        "state_hash"@,
        json_str(c.state_hash@),
    )
}

/// The middle members: times and delegation.
pub open spec fn claims_middle(c: MandateClaims) -> Seq<char> {
    ","@ + member("issued_at_epoch_s"@, signed_decimal(c.issued_at_epoch_s as int)) + ","@ + member(
        "expires_at_epoch_s"@,
        signed_decimal(c.expires_at_epoch_s as int),
    ) + opt_text_member("delegated_by"@, c.delegated_by) + opt_text_member(
        "parent_mandate_id"@,
        c.parent_mandate_id,
    ) + ","@ + member("delegation_depth"@, decimal(c.delegation_depth as nat)) + opt_text_member(
        "delegation_chain_hash"@,
        c.delegation_chain_hash,
    )
}

/// The trailing standard JWT members and the closing brace.
pub open spec fn claims_tail(c: MandateClaims) -> Seq<char> {
    opt_text_member("iss"@, c.iss) + opt_text_member("aud"@, c.aud) + opt_text_member("sub"@, c.sub)
        + opt_int_member("iat"@, c.iat) + opt_int_member("exp"@, c.exp) + opt_int_member(
        "nbf"@,
        c.nbf,
    ) + opt_text_member("jti"@, c.jti) + "}"@
}

/// The JSON of the claims as the token carries them: members in
/// declaration order, an empty scope list and absent options omitted.
#[verifier::opaque]
pub open spec fn claims_json(c: MandateClaims) -> Seq<char> {
    claims_head(c) + claims_middle(c) + claims_tail(c)
}

/// Appends `,"key":"value"` when the text is present.
fn push_opt_text(out: &mut Vec<char>, key: &str, v: &Option<String>)
    ensures
        final(out)@ == old(out)@ + opt_text_member(key@, *v),
{
    let ghost base = out@;
    match v {
        Some(x) => {
            append_str(out, ",");
            push_str_member(out, key, x.as_str());
            assert(out@ =~= base + opt_text_member(key@, *v));
        },
        None => {
            assert(out@ =~= base + opt_text_member(key@, *v));
        },
    }
}

/// Appends `,"key":n` when the number is present.
fn push_opt_int(out: &mut Vec<char>, key: &str, v: Option<i64>)
    ensures
        final(out)@ == old(out)@ + opt_int_member(key@, v),
{
    let ghost base = out@;
    match v {
        Some(x) => {
            append_str(out, ",");
            let d = signed_decimal_chars(x);
            push_member(out, key, d.as_slice());
            assert(out@ =~= base + opt_int_member(key@, v));
        },
        None => {
            assert(out@ =~= base + opt_int_member(key@, v));
        },
    }
}

/// Appends one scope object.
fn push_scope(out: &mut Vec<char>, sc: &ScopeSpec)
    ensures
        final(out)@ == old(out)@ + scope_json(*sc),
{
    let ghost base = out@;
    append_str(out, "{");
    push_str_member(out, "action", sc.action.as_str());
    append_str(out, ",");
    push_str_member(out, "resource", sc.resource.as_str());
    append_str(out, "}");
    assert(out@ =~= base + scope_json(*sc));
}

/// The header JSON.
fn header_json_chars(alg: &str, kid: &str) -> (r: Vec<char>)
    ensures
        r@ == header_json(alg@, kid@),
{
    let mut out: Vec<char> = Vec::new();
    append_str(&mut out, "{");
    push_str_member(&mut out, "alg", alg);
    append_str(&mut out, ",");
    push_str_member(&mut out, "kid", kid);
    append_str(&mut out, ",");
    push_str_member(&mut out, "typ", "JWT");
    append_str(&mut out, "}");
    proof {
        reveal(header_json);
    }
    assert(out@ =~= header_json(alg@, kid@));
    out
}

/// The leading members of the claims.
#[verifier::rlimit(60)]
fn claims_head_chars(c: &MandateClaims) -> (r: Vec<char>)
    ensures
        r@ == claims_head(*c),
{
    let mut out: Vec<char> = Vec::new();
    append_str(&mut out, "{");
    push_str_member(&mut out, "mandate_id", c.mandate_id.as_str());
    append_str(&mut out, ",");
    push_str_member(&mut out, "principal_id", c.principal_id.as_str());
    append_str(&mut out, ",");
    push_str_member(&mut out, "action", c.action.as_str());
    append_str(&mut out, ",");
    push_str_member(&mut out, "resource", c.resource.as_str());
    let ghost before_scopes = out@;
    if c.scopes.len() > 0 {
        let mut list: Vec<char> = Vec::new();
        append_str(&mut list, "[");
        let mut i: usize = 0;
        assert(c.scopes@.subrange(0, 0) =~= Seq::<ScopeSpec>::empty());
        while i < c.scopes.len()
            invariant
                i <= c.scopes@.len(),
                list@ == "["@ + scopes_json(c.scopes@.subrange(0, i as int)),
            decreases c.scopes@.len() - i,
        {
            let ghost prev = list@;
            assert(c.scopes@.subrange(0, i + 1).drop_last() =~= c.scopes@.subrange(0, i as int));
            if i > 0 {
                append_str(&mut list, ",");
            }
            push_scope(&mut list, &c.scopes[i]);
            assert(list@ =~= "["@ + scopes_json(c.scopes@.subrange(0, i + 1)));
            i = i + 1;
        }
        assert(c.scopes@.subrange(0, c.scopes@.len() as int) =~= c.scopes@);
        append_str(&mut list, "]");
        append_str(&mut out, ",");
        push_member(&mut out, "scopes", list.as_slice());
    }
    append_str(&mut out, ",");
    push_str_member(&mut out, "intent_hash", c.intent_hash.as_str());
    append_str(&mut out, ",");
    push_str_member(&mut out, "state_hash", c.state_hash.as_str());
    assert(out@ =~= claims_head(*c));
    out
}

/// Appends the middle members of the claims.
#[verifier::rlimit(60)]
fn push_claims_middle(out: &mut Vec<char>, c: &MandateClaims)
    ensures
        final(out)@ == old(out)@ + claims_middle(*c),
{
    let ghost h = out@;
    append_str(out, ",");
    let d1 = signed_decimal_chars(c.issued_at_epoch_s);
    push_member(out, "issued_at_epoch_s", d1.as_slice());
    append_str(out, ",");
    let d2 = signed_decimal_chars(c.expires_at_epoch_s);
    push_member(out, "expires_at_epoch_s", d2.as_slice());
    push_opt_text(out, "delegated_by", &c.delegated_by);
    push_opt_text(out, "parent_mandate_id", &c.parent_mandate_id);
    append_str(out, ",");
    let d3 = decimal_chars(c.delegation_depth as u64);
    push_member(out, "delegation_depth", d3.as_slice());
    push_opt_text(out, "delegation_chain_hash", &c.delegation_chain_hash);
    assert(out@ =~= h + claims_middle(*c));
}

/// Appends the trailing members of the claims.
#[verifier::rlimit(60)]
fn push_claims_tail(out: &mut Vec<char>, c: &MandateClaims)
    ensures
        final(out)@ == old(out)@ + claims_tail(*c),
{
    let ghost m = out@;
    push_opt_text(out, "iss", &c.iss);
    push_opt_text(out, "aud", &c.aud);
    push_opt_text(out, "sub", &c.sub);
    push_opt_int(out, "iat", c.iat);
    push_opt_int(out, "exp", c.exp);
    push_opt_int(out, "nbf", c.nbf);
    push_opt_text(out, "jti", &c.jti);
    append_str(out, "}");
    assert(out@ =~= m + claims_tail(*c));
}

/// The JSON of the claims.
pub fn claims_json_text(c: &MandateClaims) -> (r: String)
    ensures
        r@ == claims_json(*c),
{
    let mut out = claims_head_chars(c);
    push_claims_middle(&mut out, c);
    push_claims_tail(&mut out, c);
    proof {
        reveal(claims_json);
    }
    assert(out@ =~= claims_json(*c));
    string_from_chars(out.as_slice())
}


/// An HS256 JWT: the encoded header and payload, and the encoded
/// HMAC-SHA256 of both under the key, joined by dots.
pub open spec fn hs256_jwt_text(key: Seq<char>, header: Seq<char>, payload: Seq<char>) -> Seq<char> {
    let input = base64url(encode_utf8(header)) + "."@ + base64url(encode_utf8(payload));
    input + "."@ + base64url(hmac_sha256_tag(encode_utf8(key), encode_utf8(input)))
}

/// Builds an HS256 JWT from a header's and a payload's JSON.
pub(crate) fn hs256_jwt(key: &str, header: &str, payload: &str) -> (r: String)
    ensures
        r@ == hs256_jwt_text(key@, header@, payload@),
{
    let eh = base64url_encode(header.as_bytes());
    let ep = base64url_encode(payload.as_bytes());
    let mut input: Vec<char> = chars_of(eh.as_str());
    append_str(&mut input, ".");
    append_str(&mut input, ep.as_str());
    let input_text = string_from_chars(input.as_slice());
    let tag = hmac_sha256(key.as_bytes(), input_text.as_str().as_bytes());
    let sig = base64url_encode(tag.as_slice());
    let mut token = input;
    append_str(&mut token, ".");
    append_str(&mut token, sig.as_str());
    string_from_chars(token.as_slice())
}

// ---------------------------------------------------------------------------
// Key ring
// ---------------------------------------------------------------------------

/// The key id of a secret: the first 16 hex digits of the SHA-256 of
/// "mandate-signing:" followed by the secret.
pub open spec fn key_id_of(secret: Seq<char>) -> Seq<char> {
    sha256_hex_of("mandate-signing:"@ + secret).subrange(0, 16)
}

/// Whether a secret yields an ES256 key: the SHA-256 of its bytes, or
/// failing that the SHA-256 of that digest, is a valid scalar.
pub open spec fn es256_derivable(secret: Seq<char>) -> bool {
    p256_scalar_accepted(sha256_digest(encode_utf8(secret))) || p256_scalar_accepted(
        sha256_digest(sha256_digest(encode_utf8(secret))),
    )
}

/// The ES256 scalar derived from a secret.
pub open spec fn es256_scalar_of(secret: Seq<char>) -> Seq<u8> {
    let d = sha256_digest(encode_utf8(secret));
    if p256_scalar_accepted(d) {
        d
    } else {
        sha256_digest(d)
    }
}

/// Key material of one key id.
pub struct KeyMaterial {
    kid: String,
    secret: Vec<u8>,
    scalar: Vec<u8>,
}

impl KeyMaterial {
    /// The key id.
    pub closed spec fn spec_kid(&self) -> Seq<char> {
        self.kid@
    }

    /// The secret's bytes (the HS256 key).
    pub closed spec fn spec_secret(&self) -> Seq<u8> {
        self.secret@
    }

    /// The ES256 secret scalar.
    pub closed spec fn spec_scalar(&self) -> Seq<u8> {
        self.scalar@
    }

    /// The scalar is a valid P-256 secret.
    pub closed spec fn usable(&self) -> bool {
        self.scalar@.len() == 32 && p256_scalar_accepted(self.scalar@)
    }
}

/// The key ids of a key ring, in order.
pub open spec fn kids_of(keys: Seq<KeyMaterial>) -> Seq<Seq<char>> {
    keys.map_values(|k: KeyMaterial| k.spec_kid())
}

/// The position of the first key with the given id.
pub open spec fn key_index(keys: Seq<KeyMaterial>, kid: Seq<char>) -> Option<int>
    decreases keys.len(),
{
    if keys.len() == 0 {
        None
    } else {
        match key_index(keys.drop_last(), kid) {
            Some(i) => Some(i),
            None => if keys.last().spec_kid() == kid {
                Some(keys.len() - 1)
            } else {
                None
            },
        }
    }
}

/// Lemma: the first position of a key id, when there is one, holds it and
/// no earlier position does.
proof fn lemma_key_index(keys: Seq<KeyMaterial>, kid: Seq<char>)
    ensures
        match key_index(keys, kid) {
            Some(i) => 0 <= i < keys.len() && keys[i].spec_kid() == kid && forall|j: int|
                0 <= j < i ==> keys[j].spec_kid() != kid,
            None => forall|j: int| 0 <= j < keys.len() ==> keys[j].spec_kid() != kid,
        },
    decreases keys.len(),
{
    if keys.len() > 0 {
        lemma_key_index(keys.drop_last(), kid);
        assert forall|j: int| 0 <= j < keys.len() - 1 implies keys.drop_last()[j] == keys[j] by {}
    }
}

/// Builds the key material of a secret.
fn material_from_secret(secret: &str) -> (k: KeyMaterial)
    requires
        es256_derivable(secret@),
    ensures
        k.spec_kid() == key_id_of(secret@),
        k.spec_secret() == encode_utf8(secret@),
        k.spec_scalar() == es256_scalar_of(secret@),
        k.usable(),
        plain_text(k.spec_kid()),
{
    let mut pre: Vec<char> = Vec::new();
    append_str(&mut pre, "mandate-signing:");
    append_str(&mut pre, secret);
    let seed = string_from_chars(pre.as_slice());
    let h = sha256_hex(seed.as_str());
    let hc = chars_of(h.as_str());
    let kid_chars = slice_chars(hc.as_slice(), 0, 16);
    let kid = string_from_chars(kid_chars.as_slice());
    let bytes = secret.as_bytes();
    let d1 = sha256(bytes);
    let scalar = if p256_scalar_ok(d1.as_slice()) {
        d1
    } else {
        sha256(d1.as_slice())
    };
    let mut secret_vec: Vec<u8> = Vec::new();
    let mut i: usize = 0;
    while i < bytes.len()
        invariant
            i <= bytes@.len(),
            secret_vec@ == bytes@.subrange(0, i as int),
        decreases bytes@.len() - i,
    {
        secret_vec.push(bytes[i]);
        i = i + 1;
        assert(secret_vec@ =~= bytes@.subrange(0, i as int));
    }
    assert(bytes@.subrange(0, bytes@.len() as int) =~= bytes@);
    assert(kid@ =~= key_id_of(secret@));
    proof {
        lemma_hex_plain(sha256_digest(encode_utf8(seed@)));
        assert forall|i: int| 0 <= i < kid@.len() implies #[trigger] plain_char(kid@[i]) by {
            assert(kid@[i] == h@[i]);
        }
    }
    KeyMaterial { kid, secret: secret_vec, scalar }
}

/// Key lifecycle status.
#[derive(Debug, Clone)]
pub struct KeyLifecycleStatus {
    pub active_kid: String,
    pub next_kid: Option<String>,
    pub verification_kids: Vec<String>,
    pub signing_alg: String,
}

/// Local mandate signer with key lifecycle management.
pub struct LocalMandateSigner {
    ttl_seconds: i64,
    signing_alg: SigningAlgorithm,
    allow_legacy_hs256_verify: bool,
    token_issuer: String,
    token_audience: String,
    active_kid: String,
    next_kid: Option<String>,
    keys: Vec<KeyMaterial>,
}

impl LocalMandateSigner {
    /// Lifetime of issued mandates, in seconds.
    pub closed spec fn spec_ttl(&self) -> int {
        self.ttl_seconds as int
    }

    /// The signing algorithm.
    pub closed spec fn spec_alg(&self) -> SigningAlgorithm {
        self.signing_alg
    }

    /// Whether HS256 tokens are verified while signing with ES256.
    pub closed spec fn spec_allow_legacy(&self) -> bool {
        self.allow_legacy_hs256_verify
    }

    /// The issuer written into tokens.
    pub closed spec fn spec_issuer(&self) -> Seq<char> {
        self.token_issuer@
    }

    /// The audience written into tokens.
    pub closed spec fn spec_audience(&self) -> Seq<char> {
        self.token_audience@
    }

    /// The id of the key that signs.
    pub closed spec fn spec_active(&self) -> Seq<char> {
        self.active_kid@
    }

    /// The id of the staged key, if any.
    pub closed spec fn spec_next(&self) -> Option<Seq<char>> {
        opt_view(self.next_kid)
    }

    /// The key ring.
    pub closed spec fn spec_keys(&self) -> Seq<KeyMaterial> {
        self.keys@
    }

    /// The key ids that verify.
    pub open spec fn spec_kids(&self) -> Set<Seq<char>> {
        kids_of(self.spec_keys()).to_set()
    }

    /// The key material of the active key.
    pub open spec fn active_key(&self) -> KeyMaterial {
        self.spec_keys()[key_index(self.spec_keys(), self.spec_active()).unwrap()]
    }

    /// Internal consistency: a positive lifetime, distinct key ids, usable
    /// keys, and the active and staged ids in the ring.
    pub closed spec fn well_formed(&self) -> bool {
        &&& self.ttl_seconds > 0
        &&& kids_of(self.keys@).no_duplicates()
        &&& forall|i: int| 0 <= i < self.keys@.len() ==> (#[trigger] self.keys@[i]).usable()
        &&& key_index(self.keys@, self.active_kid@) is Some
        &&& (self.next_kid matches Some(n) ==> key_index(self.keys@, n@) is Some)
    }

    /// A well-formed signer issues mandates for a positive lifetime.
    pub proof fn lemma_ttl_positive(&self)
        requires
            self.well_formed(),
        ensures
            self.spec_ttl() > 0,
    {
    }

    /// A signer for one secret. Issuer and audience default to
    /// "predicate-authorityd" and "predicate-authority".
    pub fn new(
        secret_key: &str,
        ttl_seconds: i64,
        signing_alg: SigningAlgorithm,
        allow_legacy_hs256_verify: bool,
        token_issuer: Option<&str>,
        token_audience: Option<&str>,
    ) -> (r: Self)
        requires
            ttl_seconds > 0,
            es256_derivable(secret_key@),
        ensures
            r.well_formed(),
            r.spec_ttl() == ttl_seconds,
            r.spec_alg() == signing_alg,
            r.spec_allow_legacy() == allow_legacy_hs256_verify,
            r.spec_issuer() == (match token_issuer {
                Some(i) => i@,
                None => "predicate-authorityd"@,
            }),
            r.spec_audience() == (match token_audience {
                Some(a) => a@,
                None => "predicate-authority"@,
            }),
            r.spec_active() == key_id_of(secret_key@),
            plain_text(r.spec_active()),
            r.spec_next() is None,
            r.spec_keys().len() == 1,
            r.spec_keys()[0].spec_kid() == key_id_of(secret_key@),
            r.spec_keys()[0].spec_secret() == encode_utf8(secret_key@),
            r.spec_keys()[0].spec_scalar() == es256_scalar_of(secret_key@),
    {
        let material = material_from_secret(secret_key);
        let kid = material.kid.clone();
        let mut keys: Vec<KeyMaterial> = Vec::new();
        keys.push(material);
        let issuer = match token_issuer {
            Some(i) => owned(i),
            None => owned("predicate-authorityd"),
        };
        let audience = match token_audience {
            Some(a) => owned(a),
            None => owned("predicate-authority"),
        };
        proof {
            assert(kids_of(keys@) =~= seq![kid@]);
            assert(keys@.drop_last() =~= Seq::<KeyMaterial>::empty());
            reveal_with_fuel(key_index, 2);
        }
        LocalMandateSigner {
            ttl_seconds,
            signing_alg,
            allow_legacy_hs256_verify,
            token_issuer: issuer,
            token_audience: audience,
            active_kid: kid,
            next_kid: None,
            keys,
        }
    }

    /// Like `new`, but `None` when the lifetime is not positive or the
    /// secret yields no ES256 key (where `new` has no result).
    pub fn try_new(
        secret_key: &str,
        ttl_seconds: i64,
        signing_alg: SigningAlgorithm,
        allow_legacy_hs256_verify: bool,
        token_issuer: Option<&str>,
        token_audience: Option<&str>,
    ) -> (r: Option<Self>)
        ensures
            r is Some <==> (ttl_seconds > 0 && es256_derivable(secret_key@)),
            r matches Some(s) ==> s.well_formed() && s.spec_active() == key_id_of(secret_key@)
                && s.spec_ttl() == ttl_seconds && s.spec_alg() == signing_alg && plain_text(s.spec_active()),
    {
        if ttl_seconds <= 0 {
            return None;
        }
        let d1 = sha256(secret_key.as_bytes());
        if !p256_scalar_ok(d1.as_slice()) {
            let d2 = sha256(d1.as_slice());
            if !p256_scalar_ok(d2.as_slice()) {
                return None;
            }
        }
        Some(Self::new(secret_key, ttl_seconds, signing_alg, allow_legacy_hs256_verify, token_issuer, token_audience))
    }

    /// The position of a key id in the ring.
    fn find_key(&self, kid: &str) -> (r: Option<usize>)
        ensures
            match r {
                Some(i) => key_index(self.keys@, kid@) == Some(i as int),
                None => key_index(self.keys@, kid@) is None,
            },
    {
        let k = chars_of(kid);
        let mut i: usize = 0;
        while i < self.keys.len()
            invariant
                i <= self.keys@.len(),
                k@ == kid@,
                key_index(self.keys@.subrange(0, i as int), kid@) is None,
            decreases self.keys@.len() - i,
        {
            let ghost pre = self.keys@.subrange(0, i as int);
            assert(self.keys@.subrange(0, i + 1).drop_last() =~= pre);
            let c = chars_of(self.keys[i].kid.as_str());
            if crate::text::chars_eq(c.as_slice(), k.as_slice()) {
                proof {
                    lemma_key_index_prefix(self.keys@, i as int + 1, kid@);
                }
                return Some(i);
            }
            i = i + 1;
        }
        assert(self.keys@.subrange(0, self.keys@.len() as int) =~= self.keys@);
        None
    }
}

/// Lemma: a key id first found in a prefix is first found there in the
/// whole ring too.
proof fn lemma_key_index_prefix(keys: Seq<KeyMaterial>, n: int, kid: Seq<char>)
    requires
        0 <= n <= keys.len(),
        key_index(keys.subrange(0, n), kid) is Some,
    ensures
        key_index(keys, kid) == key_index(keys.subrange(0, n), kid),
    decreases keys.len() - n,
{
    if n < keys.len() {
        assert(keys.subrange(0, n + 1).drop_last() =~= keys.subrange(0, n));
        lemma_key_index_prefix(keys, n + 1, kid);
    } else {
        assert(keys.subrange(0, n) =~= keys);
    }
}


// ---------------------------------------------------------------------------
// Ordering of key ids
// ---------------------------------------------------------------------------

/// Lexicographic order of texts by character code, as `String`'s `Ord`
/// orders them.
pub open spec fn text_lt(a: Seq<char>, b: Seq<char>) -> bool
    decreases a.len(),
{
    if b.len() == 0 {
        false
    } else if a.len() == 0 {
        true
    } else if a[0] < b[0] {
        true
    } else if a[0] > b[0] {
        false
    } else {
        text_lt(a.drop_first(), b.drop_first())
    }
}

/// Lemma: the order is irreflexive.
proof fn lemma_text_lt_irreflexive(a: Seq<char>)
    ensures
        !text_lt(a, a),
    decreases a.len(),
{
    if a.len() > 0 {
        lemma_text_lt_irreflexive(a.drop_first());
    }
}

/// Lemma: the order is transitive.
proof fn lemma_text_lt_transitive(a: Seq<char>, b: Seq<char>, c: Seq<char>)
    requires
        text_lt(a, b),
        text_lt(b, c),
    ensures
        text_lt(a, c),
    decreases a.len(),
{
    if a.len() > 0 && b.len() > 0 && c.len() > 0 && a[0] == b[0] && b[0] == c[0] {
        lemma_text_lt_transitive(a.drop_first(), b.drop_first(), c.drop_first());
    }
}

/// Lemma: two distinct texts are ordered one way or the other.
proof fn lemma_text_lt_total(a: Seq<char>, b: Seq<char>)
    requires
        a != b,
    ensures
        text_lt(a, b) || text_lt(b, a),
    decreases a.len(),
{
    if a.len() > 0 && b.len() > 0 && a[0] == b[0] {
        if a.drop_first() == b.drop_first() {
            assert(a =~= seq![a[0]] + a.drop_first());
            assert(b =~= seq![b[0]] + b.drop_first());
        }
        lemma_text_lt_total(a.drop_first(), b.drop_first());
    } else if a.len() > 0 && b.len() > 0 {
        assert(a[0] != b[0]);
    } else if a.len() == 0 && b.len() == 0 {
        assert(a =~= b);
    }
}

/// Whether `a` orders before `b`.
pub(crate) fn text_less(a: &[char], b: &[char]) -> (r: bool)
    ensures
        r == text_lt(a@, b@),
{
    let mut i: usize = 0;
    assert(a@.skip(0) =~= a@);
    assert(b@.skip(0) =~= b@);
    while i < a.len() && i < b.len()
        invariant
            i <= a@.len(),
            i <= b@.len(),
            text_lt(a@, b@) == text_lt(a@.skip(i as int), b@.skip(i as int)),
        decreases a@.len() - i,
    {
        let x = a[i];
        let y = b[i];
        if x < y {
            return true;
        }
        if x > y {
            return false;
        }
        assert(a@.skip(i as int).drop_first() =~= a@.skip(i + 1));
        assert(b@.skip(i as int).drop_first() =~= b@.skip(i + 1));
        i = i + 1;
    }
    i < b.len()
}

/// Strictly increasing.
pub open spec fn strictly_sorted(v: Seq<Seq<char>>) -> bool {
    forall|i: int, j: int| 0 <= i < j < v.len() ==> text_lt(#[trigger] v[i], #[trigger] v[j])
}

/// Inserts `x` into a strictly sorted list that lacks it, keeping it
/// strictly sorted.
fn insert_sorted(v: &mut Vec<String>, x: String)
    requires
        strictly_sorted(crate::text::string_views(old(v)@)),
        !crate::text::string_views(old(v)@).contains(x@),
    ensures
        strictly_sorted(crate::text::string_views(final(v)@)),
        crate::text::string_views(final(v)@).to_set() == crate::text::string_views(old(v)@).to_set().insert(x@),
        final(v)@.len() == old(v)@.len() + 1,
{
    let ghost sv = crate::text::string_views(v@);
    let xc = chars_of(x.as_str());
    let mut pos: usize = 0;
    while pos < v.len()
        invariant
            pos <= v@.len(),
            sv == crate::text::string_views(v@),
            xc@ == x@,
            !sv.contains(x@),
            forall|k: int| 0 <= k < pos ==> text_lt(#[trigger] sv[k], x@),
        ensures
            pos <= v@.len(),
            forall|k: int| 0 <= k < pos ==> text_lt(#[trigger] sv[k], x@),
            pos < v@.len() ==> text_lt(x@, sv[pos as int]),
        decreases v@.len() - pos,
    {
        let c = chars_of(v[pos].as_str());
        if text_less(xc.as_slice(), c.as_slice()) {
            break;
        }
        proof {
            assert(sv[pos as int] == c@);
            assert(sv[pos as int] != x@);
            lemma_text_lt_total(sv[pos as int], x@);
        }
        pos = pos + 1;
    }
    // Every element from `pos` on is above `x`.
    proof {
        if pos < v@.len() {
            assert forall|k: int| pos <= k < sv.len() implies text_lt(x@, #[trigger] sv[k]) by {
                if k > pos {
                    lemma_text_lt_transitive(x@, sv[pos as int], sv[k]);
                }
            }
        }
    }
    let ghost before = v@;
    v.insert(pos, x);
    proof {
        let nv = crate::text::string_views(v@);
        assert(nv =~= sv.insert(pos as int, x@));
        assert forall|i: int, j: int| 0 <= i < j < nv.len() implies text_lt(#[trigger] nv[i], #[trigger] nv[j]) by {
            if j < pos {
            } else if j == pos {
            } else if i < pos {
                lemma_text_lt_transitive(nv[i], x@, nv[j]);
            } else if i == pos {
            } else {
            }
        }
        assert forall|t: Seq<char>| nv.to_set().contains(t) <==> sv.to_set().insert(x@).contains(t) by {
            if t == x@ {
                assert(nv[pos as int] == x@);
            }
            if sv.contains(t) {
                let k = choose|k: int| 0 <= k < sv.len() && sv[k] == t;
                if k < pos {
                    assert(nv[k] == t);
                } else {
                    assert(nv[k + 1] == t);
                }
            }
            if nv.contains(t) {
                let k = choose|k: int| 0 <= k < nv.len() && nv[k] == t;
                if k < pos {
                    assert(sv[k] == t);
                } else if k > pos {
                    assert(sv[k - 1] == t);
                }
            }
        }
        assert(nv.to_set() =~= sv.to_set().insert(x@));
    }
}


/// Lemma: a key id has a position exactly when the ring holds it.
proof fn lemma_key_index_contains(keys: Seq<KeyMaterial>, kid: Seq<char>)
    ensures
        key_index(keys, kid) is Some <==> kids_of(keys).contains(kid),
{
    lemma_key_index(keys, kid);
    match key_index(keys, kid) {
        Some(i) => {
            assert(kids_of(keys)[i] == kid);
        },
        None => {
            if kids_of(keys).contains(kid) {
                let j = choose|j: int| 0 <= j < kids_of(keys).len() && kids_of(keys)[j] == kid;
                assert(keys[j].spec_kid() == kid);
            }
        },
    }
}

impl LocalMandateSigner {
    /// The key lifecycle status: active and staged key ids, the verifying
    /// key ids in ascending order, and the algorithm's name.
    pub fn key_lifecycle_status(&self) -> (r: KeyLifecycleStatus)
        requires
            self.well_formed(),
        ensures
            r.active_kid@ == self.spec_active(),
            opt_view(r.next_kid) == self.spec_next(),
            r.signing_alg@ == alg_name(self.spec_alg()),
            strictly_sorted(crate::text::string_views(r.verification_kids@)),
            crate::text::string_views(r.verification_kids@).to_set() == self.spec_kids(),
            r.verification_kids@.len() == self.spec_keys().len(),
    {
        let mut kids: Vec<String> = Vec::new();
        let mut i: usize = 0;
        let ghost all = kids_of(self.keys@);
        while i < self.keys.len()
            invariant
                i <= self.keys@.len(),
                all == kids_of(self.keys@),
                all.no_duplicates(),
                kids@.len() == i,
                strictly_sorted(crate::text::string_views(kids@)),
                crate::text::string_views(kids@).to_set() == all.subrange(0, i as int).to_set(),
            decreases self.keys@.len() - i,
        {
            let kid = self.keys[i].kid.clone();
            proof {
                assert(all[i as int] == kid@);
                if crate::text::string_views(kids@).contains(kid@) {
                    assert(crate::text::string_views(kids@).to_set().contains(kid@));
                    assert(all.subrange(0, i as int).contains(kid@));
                    let j = choose|j: int| 0 <= j < i && all.subrange(0, i as int)[j] == kid@;
                    assert(all[j] == all[i as int]);
                }
            }
            insert_sorted(&mut kids, kid);
            proof {
                assert(all.subrange(0, i + 1) =~= all.subrange(0, i as int).push(all[i as int]));
                lemma_push_to_set(all.subrange(0, i as int), all[i as int]);
            }
            i = i + 1;
        }
        assert(all.subrange(0, self.keys@.len() as int) =~= all);
        let alg = owned(self.signing_alg.as_str());
        KeyLifecycleStatus {
            active_kid: self.active_kid.clone(),
            next_kid: crate::models::clone_opt_string(&self.next_kid),
            verification_kids: kids,
            signing_alg: alg,
        }
    }

    /// Like `stage_next_signing_key`, but `None`, with the signer
    /// unchanged, when the secret yields no ES256 key (where
    /// `stage_next_signing_key` has no result).
    pub fn try_stage_next_signing_key(&mut self, secret_key: &str) -> (r: Option<String>)
        requires
            old(self).well_formed(),
        ensures
            final(self).well_formed(),
            r is Some <==> es256_derivable(secret_key@),
            r is None ==> *final(self) == *old(self),
            r matches Some(k) ==> k@ == key_id_of(secret_key@) && final(self).spec_next() == Some(k@)
                && final(self).spec_active() == old(self).spec_active() && final(self).spec_kids()
                == old(self).spec_kids().insert(k@),
    {
        let d1 = sha256(secret_key.as_bytes());
        if !p256_scalar_ok(d1.as_slice()) {
            let d2 = sha256(d1.as_slice());
            if !p256_scalar_ok(d2.as_slice()) {
                return None;
            }
        }
        Some(self.stage_next_signing_key(secret_key))
    }

    /// Stages a new signing key: it verifies at once and signs once
    /// activated. Returns its key id.
    pub fn stage_next_signing_key(&mut self, secret_key: &str) -> (r: String)
        requires
            old(self).well_formed(),
            es256_derivable(secret_key@),
        ensures
            final(self).well_formed(),
            r@ == key_id_of(secret_key@),
            final(self).spec_next() == Some(r@),
            final(self).spec_active() == old(self).spec_active(),
            final(self).spec_kids() == old(self).spec_kids().insert(r@),
            final(self).spec_ttl() == old(self).spec_ttl(),
            final(self).spec_alg() == old(self).spec_alg(),
            final(self).spec_allow_legacy() == old(self).spec_allow_legacy(),
            final(self).spec_issuer() == old(self).spec_issuer(),
            final(self).spec_audience() == old(self).spec_audience(),
            ({
                let k = final(self).spec_keys()[key_index(final(self).spec_keys(), r@).unwrap()];
                &&& k.spec_secret() == encode_utf8(secret_key@)
                &&& k.spec_scalar() == es256_scalar_of(secret_key@)
            }),
    {
        let material = material_from_secret(secret_key);
        let kid = material.kid.clone();
        let ghost old_keys = self.keys@;
        let found = self.find_key(kid.as_str());
        proof {
            lemma_key_index(old_keys, kid@);
            lemma_key_index_contains(old_keys, self.active_kid@);
            match opt_view(self.next_kid) {
                Some(n) => {
                    lemma_key_index_contains(old_keys, n);
                },
                None => {},
            }
        }
        match found {
            Some(i) => {
                self.keys.set(i, material);
                proof {
                    assert(kids_of(self.keys@) =~= kids_of(old_keys));
                    lemma_key_index_unchanged_kids(old_keys, self.keys@, kid@);
                    lemma_key_index_unchanged_kids(old_keys, self.keys@, self.active_kid@);
                    match opt_view(self.next_kid) {
                        Some(n) => {
                            lemma_key_index_unchanged_kids(old_keys, self.keys@, n);
                        },
                        None => {},
                    }
                    assert(kids_of(self.keys@).to_set() =~= kids_of(old_keys).to_set().insert(kid@)) by {
                        assert(kids_of(old_keys)[i as int] == kid@);
                    }
                }
            },
            None => {
                self.keys.push(material);
                proof {
                    assert(kids_of(self.keys@) =~= kids_of(old_keys).push(kid@));
                    assert(!kids_of(old_keys).contains(kid@)) by {
                        lemma_key_index_contains(old_keys, kid@);
                    }
                    assert(self.keys@.drop_last() =~= old_keys);
                    lemma_key_index_contains(self.keys@, self.active_kid@);
                    lemma_key_index_contains(self.keys@, kid@);
                    match opt_view(self.next_kid) {
                        Some(n) => {
                            lemma_key_index_contains(self.keys@, n);
                        },
                        None => {},
                    }
                    lemma_push_to_set(kids_of(old_keys), kid@);
                }
            },
        }
        self.next_kid = Some(kid.clone());
        kid
    }

    /// Makes the staged key the signing key; an error when none is staged.
    pub fn activate_staged_signing_key(&mut self) -> (r: Result<String, &'static str>)
        requires
            old(self).well_formed(),
        ensures
            final(self).well_formed(),
            final(self).spec_keys() == old(self).spec_keys(),
            final(self).spec_ttl() == old(self).spec_ttl(),
            final(self).spec_alg() == old(self).spec_alg(),
            final(self).spec_allow_legacy() == old(self).spec_allow_legacy(),
            final(self).spec_issuer() == old(self).spec_issuer(),
            final(self).spec_audience() == old(self).spec_audience(),
            match old(self).spec_next() {
                Some(k) => r matches Ok(a) && a@ == k && final(self).spec_active() == k
                    && final(self).spec_next() is None,
                None => r matches Err(m) && m@ == "No staged signing key to activate"@
                    && final(self).spec_active() == old(self).spec_active()
                    && final(self).spec_next() is None,
            },
    {
        proof {
            reveal_strlit("No staged signing key to activate");
        }
        match &self.next_kid {
            Some(kid) => {
                let k = kid.clone();
                self.active_kid = k.clone();
                self.next_kid = None;
                Ok(k)
            },
            None => Err("No staged signing key to activate"),
        }
    }

    /// Removes a verification key; refused (false) for the active and the
    /// staged key, false when the id is unknown.
    pub fn retire_verification_key(&mut self, kid: &str) -> (r: bool)
        requires
            old(self).well_formed(),
        ensures
            final(self).well_formed(),
            r == (kid@ != old(self).spec_active() && old(self).spec_next() != Some(kid@)
                && old(self).spec_kids().contains(kid@)),
            r ==> final(self).spec_kids() == old(self).spec_kids().remove(kid@),
            !r ==> final(self).spec_keys() == old(self).spec_keys(),
            final(self).spec_kids().contains(final(self).spec_active()),
            final(self).active_key() == old(self).active_key(),
            final(self).spec_active() == old(self).spec_active(),
            final(self).spec_next() == old(self).spec_next(),
            final(self).spec_ttl() == old(self).spec_ttl(),
            final(self).spec_alg() == old(self).spec_alg(),
            final(self).spec_allow_legacy() == old(self).spec_allow_legacy(),
            final(self).spec_issuer() == old(self).spec_issuer(),
            final(self).spec_audience() == old(self).spec_audience(),
    {
        proof {
            lemma_key_index_contains(self.keys@, self.active_kid@);
        }
        let k = chars_of(kid);
        let a = chars_of(self.active_kid.as_str());
        if crate::text::chars_eq(k.as_slice(), a.as_slice()) {
            return false;
        }
        match &self.next_kid {
            Some(n) => {
                let nc = chars_of(n.as_str());
                if crate::text::chars_eq(k.as_slice(), nc.as_slice()) {
                    return false;
                }
            },
            None => {},
        }
        let ghost old_keys = self.keys@;
        proof {
            lemma_key_index_contains(old_keys, kid@);
        }
        match self.find_key(kid) {
            Some(i) => {
                proof {
                    lemma_key_index(old_keys, kid@);
                }
                self.keys.remove(i);
                proof {
                    let ok = kids_of(old_keys);
                    let nk = kids_of(self.keys@);
                    assert(nk =~= ok.remove(i as int));
                    assert forall|t: Seq<char>| nk.to_set().contains(t) <==> ok.to_set().remove(kid@).contains(t) by {
                        if nk.contains(t) {
                            let j = choose|j: int| 0 <= j < nk.len() && nk[j] == t;
                            if j < i {
                                assert(ok[j] == t);
                                assert(t != kid@);
                            } else {
                                assert(ok[j + 1] == t);
                                assert(ok[i as int] == kid@);
                                assert(j + 1 != i);
                                assert(t != kid@);
                            }
                        }
                        if ok.contains(t) && t != kid@ {
                            let j = choose|j: int| 0 <= j < ok.len() && ok[j] == t;
                            if j < i {
                                assert(nk[j] == t);
                            } else {
                                assert(j != i);
                                assert(nk[j - 1] == t);
                            }
                        }
                    }
                    assert(nk.to_set() =~= ok.to_set().remove(kid@));
                    lemma_key_index_contains(old_keys, self.active_kid@);
                    lemma_key_index_contains(self.keys@, self.active_kid@);
                    assert(nk.to_set().contains(self.active_kid@));
                    match opt_view(self.next_kid) {
                        Some(n) => {
                            lemma_key_index_contains(old_keys, n);
                            lemma_key_index_contains(self.keys@, n);
                            assert(nk.to_set().contains(n));
                        },
                        None => {},
                    }
                    assert(nk.no_duplicates()) by {
                        assert forall|x: int, y: int| 0 <= x < y < nk.len() implies nk[x] != nk[y] by {
                            let ox = if x < i { x } else { x + 1 };
                            let oy = if y < i { y } else { y + 1 };
                            assert(nk[x] == ok[ox]);
                            assert(nk[y] == ok[oy]);
                        }
                    }
                    lemma_key_index(old_keys, self.active_kid@);
                    lemma_key_index(self.keys@, self.active_kid@);
                    let oj = key_index(old_keys, self.active_kid@).unwrap();
                    let nx = key_index(self.keys@, self.active_kid@).unwrap();
                    let ox = if nx < i { nx } else { nx + 1 };
                    assert(self.keys@[nx] == old_keys[ox]);
                    assert(ok[ox] == self.active_kid@ && ok[oj] == self.active_kid@);
                    assert(ox == oj);
                }
                true
            },
            None => false,
        }
    }
}

/// Lemma: pushing onto a sequence adds the element to its set.
proof fn lemma_push_to_set(s: Seq<Seq<char>>, x: Seq<char>)
    ensures
        s.push(x).to_set() == s.to_set().insert(x),
{
    assert forall|t: Seq<char>| s.push(x).to_set().contains(t) <==> s.to_set().insert(x).contains(t) by {
        if t == x {
            assert(s.push(x)[s.len() as int] == x);
        }
        if s.contains(t) {
            let k = choose|k: int| 0 <= k < s.len() && s[k] == t;
            assert(s.push(x)[k] == t);
        }
        if s.push(x).contains(t) {
            let k = choose|k: int| 0 <= k < s.push(x).len() && s.push(x)[k] == t;
            if k < s.len() {
                assert(s[k] == t);
            }
        }
    }
    assert(s.push(x).to_set() =~= s.to_set().insert(x));
}

/// Lemma: replacing key material without changing ids keeps every
/// position.
proof fn lemma_key_index_unchanged_kids(a: Seq<KeyMaterial>, b: Seq<KeyMaterial>, kid: Seq<char>)
    requires
        kids_of(a) == kids_of(b),
    ensures
        key_index(a, kid) == key_index(b, kid),
    decreases a.len(),
{
    assert(a.len() == kids_of(a).len());
    assert(b.len() == kids_of(b).len());
    if a.len() > 0 {
        assert(kids_of(a.drop_last()) =~= kids_of(a).drop_last());
        assert(kids_of(b.drop_last()) =~= kids_of(b).drop_last());
        assert(kids_of(a)[a.len() - 1] == kids_of(b)[b.len() - 1]);
        lemma_key_index_unchanged_kids(a.drop_last(), b.drop_last(), kid);
    }
}


// ---------------------------------------------------------------------------
// Issuing
// ---------------------------------------------------------------------------

/// The text, or "none" when absent.
pub open spec fn or_none(o: Option<Seq<char>>) -> Seq<char> {
    match o {
        Some(x) => x,
        None => "none"@,
    }
}

/// The seed of a mandate id.
pub open spec fn mandate_seed(
    request: ActionRequest,
    intent_hash: Seq<char>,
    delegated_by: Option<Seq<char>>,
    parent_id: Option<Seq<char>>,
    depth: nat,
    now: int,
) -> Seq<char> {
    request.principal.principal_id@ + "|"@ + request.action_spec.action@ + "|"@
        + request.action_spec.resource@ + "|"@ + intent_hash + "|"@ + request.state_evidence.state_hash@
        + "|"@ + or_none(delegated_by) + "|"@ + or_none(parent_id) + "|"@ + decimal(depth) + "|"@
        + signed_decimal(now) + "|"@ + signed_decimal(now)
}

/// The parent's chain hash, or "root".
pub open spec fn parent_chain_of(parent: Option<MandateClaims>) -> Seq<char> {
    match parent {
        Some(p) => match p.delegation_chain_hash {
            Some(h) => h@,
            None => "root"@,
        },
        None => "root"@,
    }
}

/// The parent's mandate id, or "none".
pub open spec fn parent_id_of(parent: Option<MandateClaims>) -> Seq<char> {
    match parent {
        Some(p) => p.mandate_id@,
        None => "none"@,
    }
}

/// The seed of a delegation chain hash, from the claims and the parent.
pub open spec fn chain_seed(c: MandateClaims, parent: Option<MandateClaims>) -> Seq<char> {
    parent_chain_of(parent) + "|"@ + parent_id_of(parent) + "|"@ + or_none(opt_view(c.delegated_by))
        + "|"@ + decimal(c.delegation_depth as nat) + "|"@ + c.mandate_id@ + "|"@ + c.principal_id@
        + "|"@ + c.action@ + "|"@ + c.resource@ + "|"@ + c.intent_hash@ + "|"@ + c.state_hash@
}

/// The delegation chain hash the claims must carry under `parent`.
pub open spec fn expected_chain_hash(c: MandateClaims, parent: Option<MandateClaims>) -> Seq<char> {
    sha256_hex_of(chain_seed(c, parent))
}

/// The claims of an optional mandate.
pub open spec fn claims_of(m: Option<&SignedMandate>) -> Option<MandateClaims> {
    match m {
        Some(x) => Some(x.claims),
        None => None,
    }
}

/// The claims `issue` writes for a request at time `now`.
#[verifier::opaque]
pub open spec fn issued_claims(
    s: LocalMandateSigner,
    request: ActionRequest,
    parent: Option<MandateClaims>,
    now: i64,
    c: MandateClaims,
) -> bool {
    let intent_hash = sha256_hex_of(request.action_spec.intent@);
    let delegated_by = match parent {
        Some(p) => Some(p.principal_id@),
        None => None,
    };
    let parent_id = match parent {
        Some(p) => Some(p.mandate_id@),
        None => None,
    };
    let depth: nat = match parent {
        Some(p) => (p.delegation_depth + 1) as nat,
        None => 0,
    };
    let expires = if now + s.spec_ttl() > i64::MAX { i64::MAX as int } else { now + s.spec_ttl() };
    let mid = sha256_hex_of(mandate_seed(request, intent_hash, delegated_by, parent_id, depth, now as int)).subrange(0, 24);
    &&& c.mandate_id@ == mid
    &&& c.principal_id@ == request.principal.principal_id@
    &&& c.action@ == request.action_spec.action@
    &&& c.resource@ == request.action_spec.resource@
    &&& crate::models::scopes_view(c.scopes@) == crate::models::scopes_view(request.action_spec.scopes@)
    &&& c.intent_hash@ == intent_hash
    &&& c.state_hash@ == request.state_evidence.state_hash@
    &&& c.issued_at_epoch_s == now
    &&& c.expires_at_epoch_s == expires
    &&& opt_view(c.delegated_by) == delegated_by
    &&& opt_view(c.parent_mandate_id) == parent_id
    &&& c.delegation_depth == depth
    &&& opt_view(c.delegation_chain_hash) == Some(expected_chain_hash(c, parent))
    &&& opt_view(c.iss) == Some(s.spec_issuer())
    &&& opt_view(c.aud) == Some(s.spec_audience())
    &&& opt_view(c.sub) == Some(request.principal.principal_id@)
    &&& c.iat == Some(now)
    &&& c.exp == Some(expires as i64)
    &&& c.nbf == Some(now)
    &&& opt_view(c.jti) == Some(mid)
}

/// The signing input of a token: encoded header, a dot, encoded claims.
pub open spec fn signing_input(alg: SigningAlgorithm, kid: Seq<char>, c: MandateClaims) -> Seq<char> {
    base64url(encode_utf8(header_json(alg_name(alg), kid))) + "."@ + base64url(encode_utf8(claims_json(c)))
}

/// The token the signer writes for claims: the signing input, a dot and
/// the URL-safe base64 of the signature over it with the active key.
pub open spec fn signed_token_text(s: LocalMandateSigner, c: MandateClaims) -> Seq<char> {
    let input = signing_input(s.spec_alg(), s.spec_active(), c);
    input + "."@ + base64url(signature_of(s.spec_alg(), s.active_key(), input))
}

/// A token and its encoded signature as the signer writes them for
/// claims: the signing input, a dot and the URL-safe base64 of the
/// signature over it with the active key (for ES256, 64 bytes that
/// verify with that key).
pub open spec fn signed_token(s: LocalMandateSigner, c: MandateClaims, token: Seq<char>, signature: Seq<char>) -> bool {
    let input = signing_input(s.spec_alg(), s.spec_active(), c);
    let sig = signature_of(s.spec_alg(), s.active_key(), input);
    &&& signature == base64url(sig)
    &&& token == input + "."@ + signature
    &&& url_safe_text(base64url(encode_utf8(header_json(alg_name(s.spec_alg()), s.spec_active()))))
    &&& url_safe_text(base64url(encode_utf8(claims_json(c))))
    &&& url_safe_text(signature)
    &&& (s.spec_alg() == SigningAlgorithm::ES256 ==> sig.len() == 64 && es256_valid(
        s.active_key().spec_scalar(),
        encode_utf8(input),
        sig,
    ))
}

/// The signature bytes over a signing input with a key.
pub open spec fn signature_of(alg: SigningAlgorithm, key: KeyMaterial, input: Seq<char>) -> Seq<u8> {
    match alg {
        SigningAlgorithm::HS256 => hmac_sha256_tag(key.spec_secret(), encode_utf8(input)),
        SigningAlgorithm::ES256 => es256_signature(key.spec_scalar(), encode_utf8(input)),
    }
}

/// Appends a text followed by '|'.
fn push_field(out: &mut Vec<char>, s: &str)
    ensures
        final(out)@ == old(out)@ + s@ + "|"@,
{
    append_str(out, s);
    append_str(out, "|");
}

/// Appends the text, or "none", followed by '|'.
fn push_opt_field(out: &mut Vec<char>, o: &Option<String>)
    ensures
        final(out)@ == old(out)@ + or_none(opt_view(*o)) + "|"@,
{
    match o {
        Some(x) => push_field(out, x.as_str()),
        None => push_field(out, "none"),
    }
}

/// Computes the delegation chain hash of claims under a parent.
fn compute_chain_hash_for(c: &MandateClaims, parent: Option<&MandateClaims>) -> (r: String)
    ensures
        r@ == expected_chain_hash(*c, match parent {
            Some(p) => Some(*p),
            None => None,
        }),
{
    let mut seed: Vec<char> = Vec::new();
    match parent {
        Some(p) => {
            match &p.delegation_chain_hash {
                Some(h) => push_field(&mut seed, h.as_str()),
                None => push_field(&mut seed, "root"),
            }
            push_field(&mut seed, p.mandate_id.as_str());
        },
        None => {
            push_field(&mut seed, "root");
            push_field(&mut seed, "none");
        },
    }
    push_opt_field(&mut seed, &c.delegated_by);
    let d = decimal_chars(c.delegation_depth as u64);
    append_chars(&mut seed, d.as_slice());
    append_str(&mut seed, "|");
    push_field(&mut seed, c.mandate_id.as_str());
    push_field(&mut seed, c.principal_id.as_str());
    push_field(&mut seed, c.action.as_str());
    push_field(&mut seed, c.resource.as_str());
    push_field(&mut seed, c.intent_hash.as_str());
    append_str(&mut seed, c.state_hash.as_str());
    let ghost pc = match parent {
        Some(p) => Some(*p),
        None => None,
    };
    assert(seed@ =~= chain_seed(*c, pc));
    let t = string_from_chars(seed.as_slice());
    sha256_hex(t.as_str())
}

impl LocalMandateSigner {
    /// Signs claims with the active key: the token (header, claims and
    /// signature, each URL-safe base64, joined by dots) and the encoded
    /// signature.
    pub(crate) fn sign_claims(&self, claims: &MandateClaims) -> (r: (String, String))
        requires
            self.well_formed(),
        ensures
            signed_token(*self, *claims, r.0@, r.1@),
    {
        let idx = self.find_key(self.active_kid.as_str());
        proof {
            lemma_key_index(self.keys@, self.active_kid@);
        }
        let i = match idx {
            Some(i) => i,
            None => 0,
        };
        let key = &self.keys[i];
        let header = header_json_chars(self.signing_alg.as_str(), self.active_kid.as_str());
        let header_text = string_from_chars(header.as_slice());
        let payload = claims_json_text(claims);
        let enc_header = base64url_encode(header_text.as_str().as_bytes());
        let enc_payload = base64url_encode(payload.as_str().as_bytes());
        let mut input: Vec<char> = chars_of(enc_header.as_str());
        append_str(&mut input, ".");
        append_str(&mut input, enc_payload.as_str());
        let input_text = string_from_chars(input.as_slice());
        let sig_bytes = match self.signing_alg {
            SigningAlgorithm::HS256 => hmac_sha256(key.secret.as_slice(), input_text.as_str().as_bytes()),
            SigningAlgorithm::ES256 => {
                proof {
                    assert(self.keys@[i as int].usable());
                }
                es256_sign(key.scalar.as_slice(), input_text.as_str().as_bytes())
            },
        };
        let signature = base64url_encode(sig_bytes.as_slice());
        let mut token = input;
        append_str(&mut token, ".");
        append_str(&mut token, signature.as_str());
        (string_from_chars(token.as_slice()), signature)
    }

    /// Issues a signed mandate for a request at time `now`: the claims of
    /// the request, linked to the parent mandate when there is one, valid
    /// for the signer's lifetime.
    pub fn issue_at(&self, request: &ActionRequest, parent_mandate: Option<&SignedMandate>, now: i64) -> (r: SignedMandate)
        requires
            self.well_formed(),
            parent_mandate matches Some(p) ==> p.claims.delegation_depth < u32::MAX,
        ensures
            issued_claims(*self, *request, claims_of(parent_mandate), now, r.claims),
            signed_token(*self, r.claims, r.token@, r.signature@),
    {
        let ghost parent_claims = claims_of(parent_mandate);
        let expires_at: i64 = if now > i64::MAX - self.ttl_seconds { i64::MAX } else { now + self.ttl_seconds };
        let intent_hash = sha256_hex(request.action_spec.intent.as_str());
        let (delegated_by, parent_mandate_id, delegation_depth) = match parent_mandate {
            Some(p) => (Some(p.claims.principal_id.clone()), Some(p.claims.mandate_id.clone()), p.claims.delegation_depth + 1),
            None => (None, None, 0u32),
        };
        // Mandate id.
        let mut seed: Vec<char> = Vec::new();
        push_field(&mut seed, request.principal.principal_id.as_str());
        push_field(&mut seed, request.action_spec.action.as_str());
        push_field(&mut seed, request.action_spec.resource.as_str());
        push_field(&mut seed, intent_hash.as_str());
        push_field(&mut seed, request.state_evidence.state_hash.as_str());
        push_opt_field(&mut seed, &delegated_by);
        push_opt_field(&mut seed, &parent_mandate_id);
        let d = decimal_chars(delegation_depth as u64);
        append_chars(&mut seed, d.as_slice());
        append_str(&mut seed, "|");
        let t1 = signed_decimal_chars(now);
        append_chars(&mut seed, t1.as_slice());
        append_str(&mut seed, "|");
        append_chars(&mut seed, t1.as_slice());
        assert(seed@ =~= mandate_seed(*request, intent_hash@, opt_view(delegated_by), opt_view(parent_mandate_id), delegation_depth as nat, now as int));
        let seed_text = string_from_chars(seed.as_slice());
        let full_id = sha256_hex(seed_text.as_str());
        let id_chars = chars_of(full_id.as_str());
        let id_prefix = slice_chars(id_chars.as_slice(), 0, 24);
        let mandate_id = string_from_chars(id_prefix.as_slice());
        let mut claims = MandateClaims {
            mandate_id: mandate_id.clone(),
            principal_id: request.principal.principal_id.clone(),
            action: request.action_spec.action.clone(),
            resource: request.action_spec.resource.clone(),
            scopes: crate::models::clone_scopes(&request.action_spec.scopes),
            intent_hash,
            state_hash: request.state_evidence.state_hash.clone(),
            issued_at_epoch_s: now,
            expires_at_epoch_s: expires_at,
            delegated_by,
            parent_mandate_id,
            delegation_depth,
            delegation_chain_hash: None,
            iss: Some(self.token_issuer.clone()),
            aud: Some(self.token_audience.clone()),
            sub: Some(request.principal.principal_id.clone()),
            iat: Some(now),
            exp: Some(expires_at),
            nbf: Some(now),
            jti: Some(mandate_id),
        };
        let parent_ref = match parent_mandate {
            Some(p) => Some(&p.claims),
            None => None,
        };
        let chain = compute_chain_hash_for(&claims, parent_ref);
        proof {
            assert(chain_seed(claims, parent_claims) == chain_seed(MandateClaims { delegation_chain_hash: Some(chain), ..claims }, parent_claims));
        }
        claims.delegation_chain_hash = Some(chain);
        let (token, signature) = self.sign_claims(&claims);
        proof {
            reveal(issued_claims);
        }
        SignedMandate { token, claims, signature }
    }

    /// Issues a signed mandate stamped with the current time.
    pub fn issue(&self, request: &ActionRequest, parent_mandate: Option<&SignedMandate>) -> (r: SignedMandate)
        requires
            self.well_formed(),
            parent_mandate matches Some(p) ==> p.claims.delegation_depth < u32::MAX,
        ensures
            exists|now: i64| #[trigger] issued_claims(*self, *request, claims_of(parent_mandate), now, r.claims),
            signed_token(*self, r.claims, r.token@, r.signature@),
    {
        let now = crate::ledger::now_epoch_seconds();
        self.issue_at(request, parent_mandate, now)
    }

    /// Whether a mandate's delegation chain is consistent with its parent
    /// (or, without one, that it is a root mandate).
    pub fn verify_delegation(&self, mandate: &SignedMandate, parent_mandate: Option<&SignedMandate>) -> (r: bool)
        ensures
            r == delegation_ok(mandate.claims, claims_of(parent_mandate)),
    {
        let claims = &mandate.claims;
        let chain_hash = match &claims.delegation_chain_hash {
            Some(h) => h,
            None => return false,
        };
        match parent_mandate {
            None => {
                if claims.delegation_depth != 0 || claims.delegated_by.is_some() {
                    return false;
                }
                let expected = compute_chain_hash_for(claims, None);
                proof {
                    lemma_utf8_injective(expected@, chain_hash@);
                }
                constant_time_eq(expected.as_str().as_bytes(), chain_hash.as_str().as_bytes())
            },
            Some(parent) => {
                let parent_claims = &parent.claims;
                match &claims.delegated_by {
                    Some(d) => {
                        let dc = chars_of(d.as_str());
                        let pc = chars_of(parent_claims.principal_id.as_str());
                        if !crate::text::chars_eq(dc.as_slice(), pc.as_slice()) {
                            return false;
                        }
                    },
                    None => return false,
                }
                if claims.delegation_depth as u64 != parent_claims.delegation_depth as u64 + 1 {
                    return false;
                }
                let expected = compute_chain_hash_for(claims, Some(parent_claims));
                proof {
                    lemma_utf8_injective(expected@, chain_hash@);
                }
                constant_time_eq(expected.as_str().as_bytes(), chain_hash.as_str().as_bytes())
            },
        }
    }
}

/// Lemma: texts with the same UTF-8 bytes are the same text.
proof fn lemma_utf8_injective(a: Seq<char>, b: Seq<char>)
    ensures
        (encode_utf8(a) == encode_utf8(b)) == (a == b),
{
    vstd::utf8::encode_utf8_decode_utf8(a);
    vstd::utf8::encode_utf8_decode_utf8(b);
}

/// The delegation chain of the claims is consistent with the parent.
pub open spec fn delegation_ok(c: MandateClaims, parent: Option<MandateClaims>) -> bool {
    match c.delegation_chain_hash {
        None => false,
        Some(h) => {
            &&& match parent {
                None => c.delegation_depth == 0 && c.delegated_by is None,
                Some(p) => opt_view(c.delegated_by) == Some(p.principal_id@) && c.delegation_depth
                    == p.delegation_depth + 1,
            }
            &&& h@ == expected_chain_hash(c, parent)
        },
    }
}

/// Compares two byte strings in time that depends only on their length.
pub fn constant_time_eq(a: &[u8], b: &[u8]) -> (r: bool)
    ensures
        r == (a@ == b@),
{
    if a.len() != b.len() {
        return false;
    }
    let mut result: u8 = 0;
    let mut i: usize = 0;
    assert(a@.subrange(0, 0) =~= b@.subrange(0, 0));
    while i < a.len()
        invariant
            i <= a@.len(),
            a@.len() == b@.len(),
            (result == 0) == (a@.subrange(0, i as int) == b@.subrange(0, i as int)),
        decreases a@.len() - i,
    {
        let x = a[i];
        let y = b[i];
        let prev = result;
        result = result | (x ^ y);
        assert((prev | (x ^ y)) == 0 <==> (prev == 0 && x == y)) by (bit_vector);
        proof {
            assert(a@.subrange(0, i + 1) =~= a@.subrange(0, i as int).push(x));
            assert(b@.subrange(0, i + 1) =~= b@.subrange(0, i as int).push(y));
            if a@.subrange(0, i + 1) == b@.subrange(0, i + 1) {
                assert(a@.subrange(0, i + 1)[i as int] == b@.subrange(0, i + 1)[i as int]);
                assert(a@.subrange(0, i as int) =~= a@.subrange(0, i + 1).drop_last());
                assert(b@.subrange(0, i as int) =~= b@.subrange(0, i + 1).drop_last());
            }
        }
        i = i + 1;
    }
    assert(a@.subrange(0, a@.len() as int) =~= a@);
    assert(b@.subrange(0, b@.len() as int) =~= b@);
    result == 0
}


// ---------------------------------------------------------------------------
// Reading claims back
// ---------------------------------------------------------------------------

/// The literal `lit` at `pos`: the position after it.
fn read_lit(s: &[char], pos: usize, lit: &str) -> (r: Option<usize>)
    requires
        pos <= s@.len(),
    ensures
        r == (if occurs_at(s@, lit@, pos as int) { Some((pos + lit@.len()) as usize) } else { None::<usize> }),
        r matches Some(p) ==> pos <= p <= s@.len() && p == pos + lit@.len(),
{
    let l = chars_of(lit);
    if l.len() > s.len() - pos {
        return None;
    }
    if crate::text::matches_at(s, l.as_slice(), pos) {
        Some(pos + l.len())
    } else {
        None
    }
}

/// The value of a hex digit character (either case).
pub open spec fn hex_digit_value(c: char) -> Option<u32> {
    if '0' <= c && c <= '9' {
        Some((c as u32 - '0' as u32) as u32)
    } else if 'a' <= c && c <= 'f' {
        Some((c as u32 - 'a' as u32 + 10) as u32)
    } else if 'A' <= c && c <= 'F' {
        Some((c as u32 - 'A' as u32 + 10) as u32)
    } else {
        None
    }
}

/// The value of one hex digit.
fn hex_value(c: char) -> (r: Option<u32>)
    ensures
        r == hex_digit_value(c),
        r matches Some(v) ==> v < 16,
{
    if '0' <= c && c <= '9' {
        Some(c as u32 - '0' as u32)
    } else if 'a' <= c && c <= 'f' {
        Some(c as u32 - 'a' as u32 + 10)
    } else if 'A' <= c && c <= 'F' {
        Some(c as u32 - 'A' as u32 + 10)
    } else {
        None
    }
}

/// Escaping distributes over concatenation.
proof fn lemma_json_escape_append(a: Seq<char>, b: Seq<char>)
    ensures
        json_escape(a + b) == json_escape(a) + json_escape(b),
    decreases b.len(),
{
    if b.len() == 0 {
        assert(a + b =~= a);
        assert(json_escape(b) =~= Seq::<char>::empty());
        assert(json_escape(a) + json_escape(b) =~= json_escape(a));
    } else {
        lemma_json_escape_append(a, b.drop_last());
        assert((a + b).drop_last() =~= a + b.drop_last());
        assert((a + b).last() == b.last());
        assert(json_escape(a) + json_escape(b) =~= json_escape(a) + json_escape(b.drop_last()) + escape_char(
            b.last(),
        ));
    }
}

/// Where the escape of the `k`-th character of `t` lies in a JSON string
/// literal of `t` written at `pos`.
proof fn lemma_escape_at(s: Seq<char>, pos: int, t: Seq<char>, k: int)
    requires
        occurs_at(s, json_str(t), pos),
        0 <= k < t.len(),
    ensures
        ({
            let a = pos + 1 + json_escape(t.take(k)).len();
            let e = escape_char(t[k]);
            &&& a + e.len() < s.len()
            &&& s.subrange(a, a + e.len()) == e
            &&& json_escape(t.take(k + 1)).len() == json_escape(t.take(k)).len() + e.len()
        }),
{
    let x = t.take(k);
    let y = t.skip(k + 1);
    let e = escape_char(t[k]);
    assert(t.take(k + 1).drop_last() =~= x);
    assert(t =~= t.take(k + 1) + y);
    lemma_json_escape_append(t.take(k + 1), y);
    let je = json_escape(t);
    assert(je == json_escape(x) + e + json_escape(y));
    let a = pos + 1 + json_escape(x).len();
    let js = json_str(t);
    assert(js =~= seq!['"'] + je + seq!['"']);
    assert forall|j: int| 0 <= j < e.len() implies #[trigger] s.subrange(a, a + e.len())[j] == e[j] by {
        assert(s.subrange(pos, pos + js.len())[1 + json_escape(x).len() + j] == js[1 + json_escape(x).len() + j]);
        assert(je[json_escape(x).len() + j] == e[j]);
    }
    assert(s.subrange(a, a + e.len()) =~= e);
}

/// The closing quote of a JSON string literal of `t` written at `pos`.
proof fn lemma_closing_quote(s: Seq<char>, pos: int, t: Seq<char>)
    requires
        occurs_at(s, json_str(t), pos),
    ensures
        pos + 1 + json_escape(t).len() < s.len(),
        s[pos + 1 + json_escape(t).len()] == '"',
        s[pos] == '"',
        json_str(t).len() == json_escape(t).len() + 2,
{
    let js = json_str(t);
    assert(js =~= seq!['"'] + json_escape(t) + seq!['"']);
    assert(s.subrange(pos, pos + js.len())[js.len() - 1] == js[js.len() - 1]);
    assert(s.subrange(pos, pos + js.len())[0] == js[0]);
}

/// The hex digit characters read back.
proof fn lemma_hex_digit_round_trip(d: nat)
    requires
        d < 16,
    ensures
        hex_digit_value(hex_digit_char(d)) == Some(d as u32),
{
}

/// A JSON string literal at `pos`: its text and the position after it.
/// Escapes of control characters (`\u00XX`) and the short escapes are
/// decoded; other `\u` escapes are refused. A literal written as
/// `json_str` writes it is read back whole.
fn read_json_string(s: &[char], pos: usize) -> (r: Option<(String, usize)>)
    requires
        pos <= s@.len(),
    ensures
        r matches Some((_, p)) ==> pos <= p <= s@.len(),
        forall|t: Seq<char>| #[trigger] occurs_at(s@, json_str(t), pos as int) ==> (r matches Some((x, p)) && x@ == t
            && p == pos + json_str(t).len()),
{
    let ghost has = exists|t: Seq<char>| #[trigger] occurs_at(s@, json_str(t), pos as int);
    let ghost t = choose|t: Seq<char>| #[trigger] occurs_at(s@, json_str(t), pos as int);
    proof {
        if has {
            lemma_closing_quote(s@, pos as int, t);
            assert forall|u: Seq<char>| #[trigger] occurs_at(s@, json_str(u), pos as int) implies u == t by {
                lemma_json_str_unique(s@, pos as int, u, t);
            }
        }
    }
    if pos >= s.len() || s[pos] != '"' {
        return None;
    }
    let mut out: Vec<char> = Vec::new();
    let mut i: usize = pos + 1;
    let ghost mut k: int = 0;
    assert(t.take(0) =~= Seq::<char>::empty());
    assert(json_escape(Seq::<char>::empty()) =~= Seq::<char>::empty());
    while i < s.len()
        invariant
            pos < i <= s@.len(),
            has ==> occurs_at(s@, json_str(t), pos as int),
            has == exists|u: Seq<char>| #[trigger] occurs_at(s@, json_str(u), pos as int),
            has ==> pos + 1 + json_escape(t).len() < s@.len(),
            has ==> i <= pos + 1 + json_escape(t).len(),
            has ==> s@[pos + 1 + json_escape(t).len()] == '"',
            has ==> (forall|u: Seq<char>| #[trigger] occurs_at(s@, json_str(u), pos as int) ==> u == t),
            has ==> json_str(t).len() == json_escape(t).len() + 2,
            has ==> 0 <= k <= t.len() && i == pos + 1 + json_escape(t.take(k)).len() && out@ == t.take(k),
        decreases s@.len() - i,
    {
        let ghost e: Seq<char> = if has && k < t.len() {
            escape_char(t[k])
        } else {
            Seq::empty()
        };
        proof {
            if has {
                if k < t.len() {
                    lemma_escape_at(s@, pos as int, t, k);
                    assert(s@[i as int] == s@.subrange(i as int, i + e.len())[0]);
                    if e.len() > 1 {
                        assert(s@[i + 1] == s@.subrange(i as int, i + e.len())[1]);
                    }
                    if e.len() > 5 {
                        assert(s@[i + 2] == s@.subrange(i as int, i + e.len())[2]);
                        assert(s@[i + 3] == s@.subrange(i as int, i + e.len())[3]);
                        assert(s@[i + 4] == s@.subrange(i as int, i + e.len())[4]);
                        assert(s@[i + 5] == s@.subrange(i as int, i + e.len())[5]);
                        lemma_hex_digit_round_trip((t[k] as u32 / 16) as nat);
                        lemma_hex_digit_round_trip((t[k] as u32 % 16) as nat);
                    }
                    assert(t.take(k + 1) =~= t.take(k).push(t[k]));
                    lemma_escape_not_quote(t[k]);
                    lemma_escape_prefix_len(t, k + 1);
                } else {
                    assert(t.take(k) =~= t);
                }
            }
        }
        let c = s[i];
        if c == '"' {
            return Some((string_from_chars(out.as_slice()), i + 1));
        } else if c == '\\' {
            if i + 1 >= s.len() {
                return None;
            }
            let e = s[i + 1];
            if e == '"' {
                out.push('"');
            } else if e == '\\' {
                out.push('\\');
            } else if e == '/' {
                out.push('/');
            } else if e == 'b' {
                out.push('\u{8}');
            } else if e == 'f' {
                out.push('\u{c}');
            } else if e == 'n' {
                out.push('\n');
            } else if e == 'r' {
                out.push('\r');
            } else if e == 't' {
                out.push('\t');
            } else if e == 'u' {
                if s.len() - i < 6 {
                    return None;
                }
                if s[i + 2] != '0' || s[i + 3] != '0' {
                    return None;
                }
                let hi = hex_value(s[i + 4]);
                let lo = hex_value(s[i + 5]);
                match (hi, lo) {
                    (Some(h), Some(l)) => {
                        let v: u8 = (h * 16 + l) as u8;
                        proof {
                            if has {
                                let x = t[k] as u32;
                                assert(h == x / 16);
                                assert(l == x % 16);
                                assert(h * 16 + l == x);
                                assert(v == x);
                            }
                        }
                        if v >= 0x20 {
                            return None;
                        }
                        let vc = v as char;
                        proof {
                            if has {
                                let x = t[k] as u32;
                                vstd::utf8::char_u32_cast(t[k], x);
                                assert(vc == (x as char));
                                assert(vc == t[k]);
                            }
                        }
                        out.push(vc);
                    },
                    _ => return None,
                }
                i = i + 4;
            } else {
                return None;
            }
            i = i + 2;
            proof {
                k = k + 1;
            }
        } else {
            out.push(c);
            i = i + 1;
            proof {
                k = k + 1;
            }
        }
    }
    None
}

/// Two character escapes written at the same place are of one character.
proof fn lemma_escape_injective(s: Seq<char>, a: int, x: char, y: char)
    requires
        occurs_at(s, escape_char(x), a),
        occurs_at(s, escape_char(y), a),
    ensures
        x == y,
{
    let ex = escape_char(x);
    let ey = escape_char(y);
    assert(s[a] == s.subrange(a, a + ex.len())[0]);
    assert(s[a] == s.subrange(a, a + ey.len())[0]);
    if ex.len() > 1 && ey.len() > 1 {
        assert(s[a + 1] == s.subrange(a, a + ex.len())[1]);
        assert(s[a + 1] == s.subrange(a, a + ey.len())[1]);
    }
    if ex.len() == 6 && ey.len() == 6 {
        assert(s[a + 4] == s.subrange(a, a + ex.len())[4]);
        assert(s[a + 4] == s.subrange(a, a + ey.len())[4]);
        assert(s[a + 5] == s.subrange(a, a + ex.len())[5]);
        assert(s[a + 5] == s.subrange(a, a + ey.len())[5]);
        lemma_hex_digit_round_trip((x as u32 / 16) as nat);
        lemma_hex_digit_round_trip((x as u32 % 16) as nat);
        lemma_hex_digit_round_trip((y as u32 / 16) as nat);
        lemma_hex_digit_round_trip((y as u32 % 16) as nat);
        assert(x as u32 == y as u32);
    }
}

/// Two JSON string literals written at the same place agree on their
/// first `k` characters.
proof fn lemma_json_str_prefix_agree(s: Seq<char>, pos: int, u: Seq<char>, t: Seq<char>, k: int)
    requires
        occurs_at(s, json_str(u), pos),
        occurs_at(s, json_str(t), pos),
        0 <= k <= u.len(),
        k <= t.len(),
    ensures
        u.take(k) == t.take(k),
    decreases k,
{
    if k > 0 {
        lemma_json_str_prefix_agree(s, pos, u, t, k - 1);
        lemma_escape_at(s, pos, u, k - 1);
        lemma_escape_at(s, pos, t, k - 1);
        let a = pos + 1 + json_escape(u.take(k - 1)).len();
        assert(occurs_at(s, escape_char(u[k - 1]), a));
        assert(occurs_at(s, escape_char(t[k - 1]), a));
        lemma_escape_injective(s, a, u[k - 1], t[k - 1]);
        assert(u.take(k) =~= u.take(k - 1).push(u[k - 1]));
        assert(t.take(k) =~= t.take(k - 1).push(t[k - 1]));
    } else {
        assert(u.take(0) =~= t.take(0));
    }
}

/// The escape of a prefix is no longer than the escape of the whole.
proof fn lemma_escape_prefix_len(t: Seq<char>, k: int)
    requires
        0 <= k <= t.len(),
    ensures
        json_escape(t.take(k)).len() <= json_escape(t).len(),
{
    assert(t =~= t.take(k) + t.skip(k));
    lemma_json_escape_append(t.take(k), t.skip(k));
}

/// An escape never begins with a quote.
proof fn lemma_escape_not_quote(x: char)
    ensures
        escape_char(x).len() > 0,
        escape_char(x)[0] != '"',
{
}

/// A JSON string literal at a position has one text.
proof fn lemma_json_str_unique(s: Seq<char>, pos: int, u: Seq<char>, t: Seq<char>)
    requires
        occurs_at(s, json_str(u), pos),
        occurs_at(s, json_str(t), pos),
    ensures
        u == t,
{
    lemma_closing_quote(s, pos, u);
    lemma_closing_quote(s, pos, t);
    if u.len() < t.len() {
        let k = u.len() as int;
        lemma_json_str_prefix_agree(s, pos, u, t, k);
        assert(u.take(k) =~= u);
        lemma_escape_at(s, pos, t, k);
        lemma_escape_not_quote(t[k]);
        let a = pos + 1 + json_escape(t.take(k)).len();
        assert(s[a] == s.subrange(a, a + escape_char(t[k]).len())[0]);
    } else if t.len() < u.len() {
        let k = t.len() as int;
        lemma_json_str_prefix_agree(s, pos, u, t, k);
        assert(t.take(k) =~= t);
        lemma_escape_at(s, pos, u, k);
        lemma_escape_not_quote(u[k]);
        let a = pos + 1 + json_escape(u.take(k)).len();
        assert(s[a] == s.subrange(a, a + escape_char(u[k]).len())[0]);
    } else {
        lemma_json_str_prefix_agree(s, pos, u, t, u.len() as int);
        assert(u.take(u.len() as int) =~= u);
        assert(t.take(t.len() as int) =~= t);
    }
}

/// An ASCII decimal digit.
pub open spec fn is_digit(c: char) -> bool {
    '0' <= c && c <= '9'
}

/// The value of a run of decimal digits.
pub open spec fn digits_val(d: Seq<char>) -> nat
    decreases d.len(),
{
    if d.len() == 0 {
        0
    } else {
        digits_val(d.drop_last()) * 10 + (d.last() as u32 - '0' as u32) as nat
    }
}

/// `x` is written at `pos` as `signed_decimal` writes it, and no digit
/// follows.
pub open spec fn number_at(s: Seq<char>, pos: int, x: i64) -> bool {
    let t = signed_decimal(x as int);
    occurs_at(s, t, pos) && (pos + t.len() == s.len() || !is_digit(s[pos + t.len()]))
}

/// A digit character is a digit worth its number.
proof fn lemma_digit_char_value(d: nat)
    requires
        d < 10,
    ensures
        is_digit(digit_char(d)),
        (digit_char(d) as u32 - '0' as u32) as nat == d,
{
}

/// The decimal text of `n` is a non-empty run of digits worth `n`.
proof fn lemma_decimal_digits(n: nat)
    ensures
        decimal(n).len() >= 1,
        forall|i: int| 0 <= i < decimal(n).len() ==> #[trigger] is_digit(decimal(n)[i]),
        digits_val(decimal(n)) == n,
    decreases n,
{
    lemma_digit_char_value(n % 10);
    if n >= 10 {
        lemma_decimal_digits(n / 10);
        let d = decimal(n);
        assert(d.drop_last() =~= decimal(n / 10));
        assert(d.last() == digit_char(n % 10));
        assert(digits_val(d) == digits_val(decimal(n / 10)) * 10 + (digit_char(n % 10) as u32 - '0' as u32) as nat);
        assert((n / 10) * 10 + n % 10 == n) by (nonlinear_arith);
        assert forall|i: int| 0 <= i < d.len() implies #[trigger] is_digit(d[i]) by {
            if i < d.len() - 1 {
                assert(d[i] == decimal(n / 10)[i]);
            }
        }
    } else {
        assert(decimal(n) =~= seq![digit_char(n)]);
        assert(decimal(n).drop_last() =~= Seq::<char>::empty());
        assert(digits_val(Seq::<char>::empty()) == 0);
        assert(digits_val(decimal(n)) == digits_val(decimal(n).drop_last()) * 10 + (digit_char(n) as u32 - '0' as u32) as nat);
    }
}

/// A prefix of a digit run is worth no more than the run.
proof fn lemma_digits_prefix_le(d: Seq<char>, k: int)
    requires
        0 <= k <= d.len(),
        forall|i: int| 0 <= i < d.len() ==> #[trigger] is_digit(d[i]),
    ensures
        digits_val(d.take(k)) <= digits_val(d),
    decreases d.len() - k,
{
    if k < d.len() {
        lemma_digits_prefix_le(d, k + 1);
        assert(d.take(k + 1).drop_last() =~= d.take(k));
    } else {
        assert(d.take(k) =~= d);
    }
}

/// One number is written at a position.
proof fn lemma_number_unique(s: Seq<char>, pos: int, x: i64, y: i64)
    requires
        number_at(s, pos, x),
        number_at(s, pos, y),
    ensures
        x == y,
{
    let ax: nat = if x < 0 { (-(x as int)) as nat } else { x as nat };
    let ay: nat = if y < 0 { (-(y as int)) as nat } else { y as nat };
    lemma_decimal_digits(ax);
    lemma_decimal_digits(ay);
    let tx = signed_decimal(x as int);
    let ty = signed_decimal(y as int);
    assert(s[pos] == s.subrange(pos, pos + tx.len())[0]);
    assert(s[pos] == s.subrange(pos, pos + ty.len())[0]);
    let sx: int = if x < 0 { 1 } else { 0 };
    let sy: int = if y < 0 { 1 } else { 0 };
    let dx = decimal(ax);
    let dy = decimal(ay);
    assert(is_digit(dx[0]));
    assert(is_digit(dy[0]));
    assert(tx[0] == (if x < 0 { '-' } else { dx[0] }));
    assert(ty[0] == (if y < 0 { '-' } else { dy[0] }));
    assert(sx == sy);
    assert forall|i: int| 0 <= i < dx.len() implies s[pos + sx + i] == #[trigger] dx[i] by {
        assert(s.subrange(pos, pos + tx.len())[sx + i] == tx[sx + i]);
    }
    assert forall|i: int| 0 <= i < dy.len() implies s[pos + sy + i] == #[trigger] dy[i] by {
        assert(s.subrange(pos, pos + ty.len())[sy + i] == ty[sy + i]);
    }
    if dx.len() < dy.len() {
        assert(is_digit(dy[dx.len() as int]));
    } else if dy.len() < dx.len() {
        assert(is_digit(dx[dy.len() as int]));
    } else {
        assert(dx =~= dy);
    }
}

/// A JSON integer (optional minus, decimal digits) at `pos` that fits an
/// `i64`. A number written as `signed_decimal` writes it, with no digit
/// after it, is read back.
fn read_i64(s: &[char], pos: usize) -> (r: Option<(i64, usize)>)
    requires
        pos <= s@.len(),
    ensures
        r matches Some((_, p)) ==> pos <= p <= s@.len(),
        forall|x: i64| #[trigger] number_at(s@, pos as int, x) ==> r == Some(
            (x, (pos + signed_decimal(x as int).len()) as usize),
        ),
        forall|x: i64| #[trigger] number_at(s@, pos as int, x) ==> (r matches Some((_, p)) && p == pos
            + signed_decimal(x as int).len()),
{
    let ghost has = exists|x: i64| #[trigger] number_at(s@, pos as int, x);
    let ghost x = choose|x: i64| #[trigger] number_at(s@, pos as int, x);
    let ghost ax: nat = if x < 0 { (-(x as int)) as nat } else { x as nat };
    let ghost dd = decimal(ax);
    let ghost sx: int = if x < 0 { 1 } else { 0 };
    proof {
        if has {
            lemma_decimal_digits(ax);
            let tx = signed_decimal(x as int);
            assert(s@[pos as int] == s@.subrange(pos as int, pos + tx.len())[0]);
            assert(is_digit(dd[0]));
            assert(tx[0] == (if x < 0 { '-' } else { dd[0] }));
            assert(tx.len() == sx + dd.len());
            assert forall|i: int| 0 <= i < dd.len() implies s@[pos + sx + i] == #[trigger] dd[i] by {
                assert(s@.subrange(pos as int, pos + tx.len())[sx + i] == tx[sx + i]);
            }
            assert forall|y: i64| #[trigger] number_at(s@, pos as int, y) implies y == x by {
                lemma_number_unique(s@, pos as int, x, y);
            }
        }
    }
    let mut i = pos;
    let neg = i < s.len() && s[i] == '-';
    if neg {
        i = i + 1;
    }
    let start = i;
    proof {
        if has {
            assert(start == pos + sx);
        }
    }
    let mut mag: u64 = 0;
    assert(dd.take(0) =~= Seq::<char>::empty());
    while i < s.len() && '0' <= s[i] && s[i] <= '9'
        invariant
            pos <= start <= i <= s@.len(),
            has == exists|y: i64| #[trigger] number_at(s@, pos as int, y),
            has ==> start == pos + sx,
            has ==> start + dd.len() <= s@.len(),
            has ==> dd.len() >= 1,
            has ==> ax <= 9223372036854775808,
            has ==> (forall|k: int| 0 <= k < dd.len() ==> #[trigger] is_digit(dd[k])),
            has ==> digits_val(dd) == ax,
            has ==> (forall|k: int| 0 <= k < dd.len() ==> s@[start + k] == #[trigger] dd[k]),
            has ==> (start + dd.len() == s@.len() || !is_digit(s@[start + dd.len()])),
            has ==> i - start <= dd.len() && mag == digits_val(dd.take(i - start)),
        decreases s@.len() - i,
    {
        let d = (s[i] as u32 - '0' as u32) as u64;
        proof {
            if has {
                let m = i - start;
                assert(m < dd.len());
                assert(dd.take(m + 1).drop_last() =~= dd.take(m));
                assert(dd.take(m + 1).last() == dd[m]);
                lemma_digits_prefix_le(dd, m + 1);
                assert(mag * 10 + d == digits_val(dd.take(m + 1)));
                assert(mag * 10 + d <= u64::MAX);
                assert(!(mag > (u64::MAX - d) / 10)) by (nonlinear_arith)
                    requires
                        mag * 10 + d <= u64::MAX,
                        d <= 9,
                ;
            }
        }
        if mag > (u64::MAX - d) / 10 {
            return None;
        }
        mag = mag * 10 + d;
        i = i + 1;
    }
    proof {
        if has {
            if i - start < dd.len() {
                assert(s@[i as int] == dd[i - start]);
                assert(is_digit(dd[i - start]));
            }
            assert(i - start == dd.len());
            assert(dd.take(dd.len() as int) =~= dd);
        }
    }
    if i == start {
        return None;
    }
    if neg {
        if mag > 9223372036854775808u64 {
            None
        } else if mag == 9223372036854775808u64 {
            Some((i64::MIN, i))
        } else {
            Some((-(mag as i64), i))
        }
    } else if mag > i64::MAX as u64 {
        None
    } else {
        Some((mag as i64, i))
    }
}

/// A concatenation occurs where its first part does and its second part
/// follows.
proof fn lemma_occurs_concat(s: Seq<char>, a: Seq<char>, b: Seq<char>, pos: int)
    ensures
        occurs_at(s, a + b, pos) == (occurs_at(s, a, pos) && occurs_at(s, b, pos + a.len())),
{
    if occurs_at(s, a + b, pos) {
        assert(s.subrange(pos, pos + a.len()) =~= a) by {
            assert forall|i: int| 0 <= i < a.len() implies s.subrange(pos, pos + a.len())[i] == a[i] by {
                assert(s.subrange(pos, pos + (a + b).len())[i] == (a + b)[i]);
            }
        }
        assert(s.subrange(pos + a.len(), pos + a.len() + b.len()) =~= b) by {
            assert forall|i: int| 0 <= i < b.len() implies s.subrange(pos + a.len(), pos + a.len() + b.len())[i] == b[i] by {
                assert(s.subrange(pos, pos + (a + b).len())[a.len() + i] == (a + b)[a.len() + i]);
            }
        }
    }
    if occurs_at(s, a, pos) && occurs_at(s, b, pos + a.len()) {
        assert(s.subrange(pos, pos + (a + b).len()) =~= a + b) by {
            assert forall|i: int| 0 <= i < (a + b).len() implies s.subrange(pos, pos + (a + b).len())[i] == (a + b)[i] by {
                if i < a.len() {
                    assert(s.subrange(pos, pos + a.len())[i] == a[i]);
                } else {
                    assert(s.subrange(pos + a.len(), pos + a.len() + b.len())[i - a.len()] == b[i - a.len()]);
                }
            }
        }
    }
}

/// `"key":"text"` (after `prefix`) at `pos`: a prefix followed by a JSON
/// string literal is read back.
fn read_text_member(s: &[char], pos: usize, member_prefix: &str) -> (r: Option<(String, usize)>)
    requires
        pos <= s@.len(),
    ensures
        r matches Some((_, p)) ==> pos <= p <= s@.len(),
        forall|t: Seq<char>| #[trigger] occurs_at(s@, member_prefix@ + json_str(t), pos as int) ==> (r matches Some(
            (x, p),
        ) && x@ == t && p == pos + member_prefix@.len() + json_str(t).len()),
{
    match read_lit(s, pos, member_prefix) {
        Some(p) => {
            let r = read_json_string(s, p);
            proof {
                assert forall|t: Seq<char>| #[trigger] occurs_at(s@, member_prefix@ + json_str(t), pos as int) implies (r matches Some(
                    (x, q),
                ) && x@ == t && q == pos + member_prefix@.len() + json_str(t).len()) by {
                    lemma_occurs_concat(s@, member_prefix@, json_str(t), pos as int);
                    assert(occurs_at(s@, json_str(t), p as int));
                }
            }
            r
        },
        None => {
            proof {
                assert forall|t: Seq<char>| #[trigger] occurs_at(s@, member_prefix@ + json_str(t), pos as int) implies false by {
                    lemma_occurs_concat(s@, member_prefix@, json_str(t), pos as int);
                }
            }
            None
        },
    }
}

/// `,"key":"text"` at `pos` when the key is there: read back when the
/// prefix and a JSON string literal are there; nothing read, and the
/// position kept, when the prefix is not.
fn read_opt_text(s: &[char], pos: usize, member_prefix: &str) -> (r: Option<(Option<String>, usize)>)
    requires
        pos <= s@.len(),
    ensures
        r matches Some((_, p)) ==> pos <= p <= s@.len(),
        forall|t: Seq<char>| #[trigger] occurs_at(s@, member_prefix@ + json_str(t), pos as int) ==> (r matches Some(
            (Some(x), p),
        ) && x@ == t && p == pos + member_prefix@.len() + json_str(t).len()),
        !occurs_at(s@, member_prefix@, pos as int) ==> (r matches Some((None, p)) && p == pos),
{
    match read_lit(s, pos, member_prefix) {
        Some(p) => {
            let v = read_json_string(s, p);
            proof {
                assert forall|t: Seq<char>| #[trigger] occurs_at(s@, member_prefix@ + json_str(t), pos as int) implies (v matches Some(
                    (x, q),
                ) && x@ == t && q == pos + member_prefix@.len() + json_str(t).len()) by {
                    lemma_occurs_concat(s@, member_prefix@, json_str(t), pos as int);
                    assert(occurs_at(s@, json_str(t), p as int));
                }
            }
            match v {
                Some((v, q)) => Some((Some(v), q)),
                None => None,
            }
        },
        None => {
            proof {
                assert forall|t: Seq<char>| #[trigger] occurs_at(s@, member_prefix@ + json_str(t), pos as int) implies false by {
                    lemma_occurs_concat(s@, member_prefix@, json_str(t), pos as int);
                }
            }
            Some((None, pos))
        },
    }
}

/// `,"key":n` at `pos` when the key is there: read back when the prefix
/// and a number are there; nothing read, and the position kept, when the
/// prefix is not.
fn read_opt_int(s: &[char], pos: usize, member_prefix: &str) -> (r: Option<(Option<i64>, usize)>)
    requires
        pos <= s@.len(),
    ensures
        r matches Some((_, p)) ==> pos <= p <= s@.len(),
        forall|x: i64| #[trigger] number_at(s@, pos + member_prefix@.len(), x) ==> occurs_at(
            s@,
            member_prefix@,
            pos as int,
        ) ==> r == Some((Some(x), (pos + member_prefix@.len() + signed_decimal(x as int).len()) as usize)),
        forall|x: i64| #[trigger] number_at(s@, pos + member_prefix@.len(), x) ==> occurs_at(
            s@,
            member_prefix@,
            pos as int,
        ) ==> (r matches Some((_, p)) && p == pos + member_prefix@.len() + signed_decimal(x as int).len()),
        !occurs_at(s@, member_prefix@, pos as int) ==> (r matches Some((None, p)) && p == pos),
{
    match read_lit(s, pos, member_prefix) {
        Some(p) => {
            let v = read_i64(s, p);
            proof {
                assert forall|x: i64| #[trigger] number_at(s@, pos + member_prefix@.len(), x) implies v == Some(
                    (x, (p + signed_decimal(x as int).len()) as usize),
                ) && (v matches Some((_, q)) && q == p + signed_decimal(x as int).len()) by {
                    assert(number_at(s@, p as int, x));
                }
            }
            match v {
                Some((v, q)) => Some((Some(v), q)),
                None => None,
            }
        },
        None => Some((None, pos)),
    }
}

/// A character that JSON writes as itself.
pub open spec fn plain_char(c: char) -> bool {
    c != '"' && c != '\\' && c as u32 >= 0x20
}

/// A text of plain characters is its own escape.
proof fn lemma_plain_escape(t: Seq<char>)
    requires
        forall|i: int| 0 <= i < t.len() ==> #[trigger] plain_char(t[i]),
    ensures
        json_escape(t) == t,
    decreases t.len(),
{
    if t.len() > 0 {
        lemma_plain_escape(t.drop_last());
        assert(plain_char(t[t.len() - 1]));
        assert(t.drop_last().push(t.last()) =~= t);
    } else {
        assert(json_escape(t) =~= t);
    }
}

/// The JSON list of scopes.
pub open spec fn scope_list_json(v: Seq<ScopeSpec>) -> Seq<char> {
    "["@ + scopes_json(v) + "]"@
}

/// A scope object: its two members after their literal prefixes.
proof fn lemma_scope_json_form(sc: ScopeSpec)
    ensures
        scope_json(sc) == "{\"action\":"@ + json_str(sc.action@) + ",\"resource\":"@ + json_str(sc.resource@) + "}"@,
{
    reveal_strlit("{\"action\":");
    reveal_strlit(",\"resource\":");
    reveal_strlit("{");
    reveal_strlit(",");
    reveal_strlit(":");
    reveal_strlit("}");
    reveal_strlit("action");
    reveal_strlit("resource");
    lemma_plain_escape("action"@);
    lemma_plain_escape("resource"@);
    assert(json_str("action"@) =~= seq!['"', 'a', 'c', 't', 'i', 'o', 'n', '"']);
    assert(json_str("resource"@) =~= seq!['"', 'r', 'e', 's', 'o', 'u', 'r', 'c', 'e', '"']);
    assert(scope_json(sc) =~= "{\"action\":"@ + json_str(sc.action@) + ",\"resource\":"@ + json_str(sc.resource@) + "}"@);
}

/// The JSON of scopes depends on their texts only.
proof fn lemma_scopes_json_views(v: Seq<ScopeSpec>, w: Seq<ScopeSpec>)
    requires
        scopes_view(v) == scopes_view(w),
    ensures
        scopes_json(v) == scopes_json(w),
    decreases v.len(),
{
    assert(v.len() == scopes_view(v).len());
    assert(w.len() == scopes_view(w).len());
    if v.len() > 0 {
        assert(scopes_view(v)[v.len() - 1] == scopes_view(w)[w.len() - 1]);
        assert(scopes_view(v.drop_last()) =~= scopes_view(w.drop_last())) by {
            assert forall|i: int| 0 <= i < v.len() - 1 implies scopes_view(v.drop_last())[i] == scopes_view(w.drop_last())[i] by {
                assert(scopes_view(v)[i] == scopes_view(w)[i]);
            }
        }
        lemma_scopes_json_views(v.drop_last(), w.drop_last());
        if v.len() == 1 {
            assert(scope_view(v[0]) == scope_view(w[0]));
        }
    }
}

/// The JSON of the first `k + 1` scopes extends that of the first `k`.
proof fn lemma_scopes_json_step(v: Seq<ScopeSpec>, k: int)
    requires
        0 <= k < v.len(),
    ensures
        scopes_json(v.take(k + 1)) == (if k == 0 { Seq::<char>::empty() } else { scopes_json(v.take(k)) + ","@ })
            + scope_json(v[k]),
{
    reveal_strlit(",");
    assert(v.take(k + 1).drop_last() =~= v.take(k));
    assert(v.take(k + 1).last() == v[k]);
    if k == 0 {
        assert(v.take(1)[0] == v[0]);
        assert(Seq::<char>::empty() + scope_json(v[0]) =~= scope_json(v[0]));
    }
}

/// Where the `k`-th scope of a list written at `pos` lies.
#[verifier::rlimit(60)]
proof fn lemma_scope_at(s: Seq<char>, pos: int, v: Seq<ScopeSpec>, k: int)
    requires
        occurs_at(s, scope_list_json(v), pos),
        0 <= k < v.len(),
    ensures
        ({
            let lead = "["@ + (if k == 0 { Seq::<char>::empty() } else { scopes_json(v.take(k)) + ","@ });
            &&& occurs_at(s, lead, pos)
            &&& occurs_at(s, scope_json(v[k]), pos + lead.len())
            &&& k + 1 == v.len() ==> occurs_at(s, "]"@, pos + lead.len() + scope_json(v[k]).len())
            &&& k + 1 < v.len() ==> occurs_at(s, ","@, pos + lead.len() + scope_json(v[k]).len())
            &&& lead.len() + scope_json(v[k]).len() == 1 + scopes_json(v.take(k + 1)).len()
        }),
    decreases v.len() - k,
{
    let inner = if k == 0 { Seq::<char>::empty() } else { scopes_json(v.take(k)) + ","@ };
    let lead = "["@ + inner;
    let sj = scope_json(v[k]);
    lemma_scopes_json_step(v, k);
    reveal_strlit("[");
    reveal_strlit("]");
    reveal_strlit(",");
    assert(scopes_json(v.take(k + 1)) == inner + sj);
    assert(lead.len() + sj.len() == 1 + scopes_json(v.take(k + 1)).len());
    if k + 1 == v.len() {
        assert(v.take(k + 1) =~= v);
        assert(scope_list_json(v) =~= lead + sj + "]"@);
        lemma_occurs_concat(s, lead + sj, "]"@, pos);
        lemma_occurs_concat(s, lead, sj, pos);
        assert(occurs_at(s, lead, pos));
        assert(occurs_at(s, sj, pos + lead.len()));
        assert(occurs_at(s, "]"@, pos + lead.len() + sj.len()));
    } else {
        lemma_scope_at(s, pos, v, k + 1);
        lemma_scopes_json_step(v, k + 1);
        let lead2 = "["@ + (scopes_json(v.take(k + 1)) + ","@);
        assert(lead2 =~= lead + sj + ","@);
        assert(occurs_at(s, lead2, pos));
        lemma_occurs_concat(s, lead + sj, ","@, pos);
        lemma_occurs_concat(s, lead, sj, pos);
        assert(occurs_at(s, lead, pos));
        assert(occurs_at(s, sj, pos + lead.len()));
        assert(occurs_at(s, ","@, pos + lead.len() + sj.len()));
    }
}

/// Two scope lists written at the same place hold the same texts.
#[verifier::rlimit(40)]
proof fn lemma_scopes_unique(s: Seq<char>, pos: int, v: Seq<ScopeSpec>, w: Seq<ScopeSpec>)
    requires
        occurs_at(s, scope_list_json(v), pos),
        occurs_at(s, scope_list_json(w), pos),
        v.len() > 0,
        w.len() > 0,
    ensures
        scopes_view(v) == scopes_view(w),
{
    let n = if v.len() < w.len() { v.len() as int } else { w.len() as int };
    lemma_scopes_prefix_agree(s, pos, v, w, n);
    reveal_strlit("]");
    reveal_strlit(",");
    if v.len() < w.len() {
        lemma_scope_at(s, pos, v, n - 1);
        lemma_scope_at(s, pos, w, n - 1);
        lemma_scope_json_views_one(v[n - 1], w[n - 1]);
        assert(s[pos + 1 + scopes_json(v.take(n)).len()] == s.subrange(pos + 1 + scopes_json(v.take(n)).len(), pos + 2 + scopes_json(v.take(n)).len())[0]);
        lemma_scopes_json_views(v.take(n), w.take(n));
        assert(s[pos + 1 + scopes_json(w.take(n)).len()] == s.subrange(pos + 1 + scopes_json(w.take(n)).len(), pos + 2 + scopes_json(w.take(n)).len())[0]);
    } else if w.len() < v.len() {
        lemma_scope_at(s, pos, v, n - 1);
        lemma_scope_at(s, pos, w, n - 1);
        lemma_scope_json_views_one(v[n - 1], w[n - 1]);
        assert(s[pos + 1 + scopes_json(v.take(n)).len()] == s.subrange(pos + 1 + scopes_json(v.take(n)).len(), pos + 2 + scopes_json(v.take(n)).len())[0]);
        lemma_scopes_json_views(v.take(n), w.take(n));
        assert(s[pos + 1 + scopes_json(w.take(n)).len()] == s.subrange(pos + 1 + scopes_json(w.take(n)).len(), pos + 2 + scopes_json(w.take(n)).len())[0]);
    } else {
        assert(v.take(n) =~= v);
        assert(w.take(n) =~= w);
    }
}

/// A scope's JSON depends on its texts only.
proof fn lemma_scope_json_views_one(a: ScopeSpec, b: ScopeSpec)
    ensures
        scope_view(a) == scope_view(b) ==> scope_json(a) == scope_json(b),
{
}

/// Two scope objects written at the same place hold the same texts.
#[verifier::rlimit(40)]
proof fn lemma_scope_unique_at(s: Seq<char>, at: int, a: ScopeSpec, b: ScopeSpec)
    requires
        occurs_at(s, scope_json(a), at),
        occurs_at(s, scope_json(b), at),
    ensures
        scope_view(a) == scope_view(b),
{
    lemma_scope_json_form(a);
    lemma_scope_json_form(b);
    let l1 = "{\"action\":"@;
    let l2 = ",\"resource\":"@;
    let va = json_str(a.action@);
    let wa = json_str(b.action@);
    let vr = json_str(a.resource@);
    let wr = json_str(b.resource@);
    assert(scope_json(a) =~= l1 + va + (l2 + vr + "}"@));
    assert(scope_json(b) =~= l1 + wa + (l2 + wr + "}"@));
    lemma_occurs_concat(s, l1 + va, l2 + vr + "}"@, at);
    lemma_occurs_concat(s, l1 + wa, l2 + wr + "}"@, at);
    lemma_occurs_concat(s, l1, va, at);
    lemma_occurs_concat(s, l1, wa, at);
    lemma_json_str_unique(s, at + l1.len(), a.action@, b.action@);
    let at2 = at + l1.len() + va.len();
    lemma_occurs_concat(s, l2, vr + "}"@, at2);
    lemma_occurs_concat(s, l2, wr + "}"@, at2);
    assert(l2 + vr + "}"@ =~= l2 + (vr + "}"@));
    assert(l2 + wr + "}"@ =~= l2 + (wr + "}"@));
    lemma_occurs_concat(s, vr, "}"@, at2 + l2.len());
    lemma_occurs_concat(s, wr, "}"@, at2 + l2.len());
    lemma_json_str_unique(s, at2 + l2.len(), a.resource@, b.resource@);
}

/// Two scope lists written at the same place agree on their first `k`
/// scopes.
proof fn lemma_scopes_prefix_agree(s: Seq<char>, pos: int, v: Seq<ScopeSpec>, w: Seq<ScopeSpec>, k: int)
    requires
        occurs_at(s, scope_list_json(v), pos),
        occurs_at(s, scope_list_json(w), pos),
        0 <= k <= v.len(),
        k <= w.len(),
    ensures
        scopes_view(v.take(k)) == scopes_view(w.take(k)),
    decreases k,
{
    if k == 0 {
        assert(scopes_view(v.take(0)) =~= scopes_view(w.take(0)));
    } else {
        let j = k - 1;
        lemma_scopes_prefix_agree(s, pos, v, w, j);
        lemma_scope_at(s, pos, v, j);
        lemma_scope_at(s, pos, w, j);
        if j > 0 {
            lemma_scopes_json_views(v.take(j), w.take(j));
        }
        let lead = "["@ + (if j == 0 { Seq::<char>::empty() } else { scopes_json(v.take(j)) + ","@ });
        lemma_scope_unique_at(s, pos + lead.len(), v[j], w[j]);
        assert(scopes_view(v.take(k)) =~= scopes_view(v.take(j)).push(scope_view(v[j])));
        assert(scopes_view(w.take(k)) =~= scopes_view(w.take(j)).push(scope_view(w[j])));
    }
}

/// Where the parts of the `k`-th scope of a list written at `pos` lie,
/// reading on from just after the scopes before it.
#[verifier::rlimit(60)]
proof fn lemma_scope_iter(s: Seq<char>, pos: int, v: Seq<ScopeSpec>, k: int, p: int)
    requires
        occurs_at(s, scope_list_json(v), pos),
        0 <= k < v.len(),
        p == pos + 1 + (if k == 0 { 0 } else { scopes_json(v.take(k)).len() }),
    ensures
        ({
            let l1 = "{\"action\":"@;
            let l2 = ",\"resource\":"@;
            let va = json_str(v[k].action@);
            let vr = json_str(v[k].resource@);
            let p1 = if k == 0 { p } else { p + 1 };
            let e = p1 + l1.len() + va.len() + l2.len() + vr.len() + 1;
            &&& k > 0 ==> occurs_at(s, ","@, p) && ","@.len() == 1
            &&& occurs_at(s, l1 + va, p1)
            &&& occurs_at(s, l2 + vr, p1 + l1.len() + va.len())
            &&& occurs_at(s, "}"@, p1 + l1.len() + va.len() + l2.len() + vr.len())
            &&& "}"@.len() == 1
            &&& e == pos + 1 + scopes_json(v.take(k + 1)).len()
            &&& e > p
            &&& k + 1 < v.len() ==> !occurs_at(s, "]"@, e)
            &&& k + 1 == v.len() ==> occurs_at(s, "]"@, e) && e + 1 == pos + scope_list_json(v).len()
        }),
{
    reveal_strlit("[");
    reveal_strlit("]");
    reveal_strlit(",");
    reveal_strlit("}");
    let lead = "["@ + (if k == 0 { Seq::<char>::empty() } else { scopes_json(v.take(k)) + ","@ });
    let sc = v[k];
    lemma_scope_at(s, pos, v, k);
    lemma_scope_json_form(sc);
    if k > 0 {
        let inner = scopes_json(v.take(k));
        assert(lead =~= ("["@ + inner) + ","@);
        lemma_occurs_concat(s, "["@ + inner, ","@, pos);
        assert(lead.len() == 1 + inner.len() + 1);
    } else {
        assert(lead =~= "["@);
    }
    let l1 = "{\"action\":"@;
    let l2 = ",\"resource\":"@;
    let va = json_str(sc.action@);
    let vr = json_str(sc.resource@);
    let p1 = pos + lead.len();
    assert(scope_json(sc) =~= (l1 + va) + ((l2 + vr) + "}"@));
    lemma_occurs_concat(s, l1 + va, (l2 + vr) + "}"@, p1);
    lemma_occurs_concat(s, l2 + vr, "}"@, p1 + l1.len() + va.len());
    let e = p1 + scope_json(sc).len();
    if k + 1 < v.len() {
        assert(s[e] == s.subrange(e, e + 1)[0]);
        assert(!occurs_at(s, "]"@, e)) by {
            if occurs_at(s, "]"@, e) {
                assert(s.subrange(e, e + 1)[0] == ']');
            }
        }
    } else {
        assert(v.take(k + 1) =~= v);
    }
}

/// A list of scope objects `[{"action":..,"resource":..},..]` at `pos`.
/// A non-empty list written as `scope_list_json` writes it is read back.
#[verifier::rlimit(100)]
fn read_scopes(s: &[char], pos: usize) -> (r: Option<(Vec<ScopeSpec>, usize)>)
    requires
        pos <= s@.len(),
    ensures
        r matches Some((_, p)) ==> pos <= p <= s@.len(),
        forall|v: Seq<ScopeSpec>| v.len() > 0 && #[trigger] occurs_at(s@, scope_list_json(v), pos as int) ==> (r matches Some(
            (out, p),
        ) && scopes_view(out@) == scopes_view(v) && p == pos + scope_list_json(v).len()),
{
    let ghost has = exists|v: Seq<ScopeSpec>| v.len() > 0 && #[trigger] occurs_at(s@, scope_list_json(v), pos as int);
    let ghost v = choose|v: Seq<ScopeSpec>| v.len() > 0 && #[trigger] occurs_at(s@, scope_list_json(v), pos as int);
    proof {
        reveal_strlit("[");
        reveal_strlit("]");
        reveal_strlit(",");
        reveal_strlit("}");
        if has {
            assert forall|w: Seq<ScopeSpec>| w.len() > 0 && #[trigger] occurs_at(s@, scope_list_json(w), pos as int) implies scopes_view(
                w,
            ) == scopes_view(v) && scope_list_json(w).len() == scope_list_json(v).len() by {
                lemma_scopes_unique(s@, pos as int, w, v);
                lemma_scopes_json_views(w, v);
            }
            lemma_scope_at(s@, pos as int, v, 0);
            lemma_occurs_concat(s@, "["@, Seq::<char>::empty(), pos as int);
            assert("["@ + Seq::<char>::empty() =~= "["@);
        }
    }
    let mut p = match read_lit(s, pos, "[") {
        Some(p) => p,
        None => return None,
    };
    let mut out: Vec<ScopeSpec> = Vec::new();
    let ghost mut k: int = 0;
    proof {
        if has {
            assert(scopes_view(out@) =~= scopes_view(v.take(0)));
        }
    }
    loop
        invariant
            pos <= p <= s@.len(),
            has == exists|w: Seq<ScopeSpec>| w.len() > 0 && #[trigger] occurs_at(s@, scope_list_json(w), pos as int),
            has ==> v.len() > 0 && occurs_at(s@, scope_list_json(v), pos as int),
            has ==> (forall|w: Seq<ScopeSpec>| w.len() > 0 && #[trigger] occurs_at(s@, scope_list_json(w), pos as int) ==> scopes_view(w) == scopes_view(v) && scope_list_json(w).len() == scope_list_json(v).len()),
            has ==> 0 <= k < v.len() && out@.len() == k && scopes_view(out@) == scopes_view(v.take(k)) && p == pos + 1 + (if k == 0 { 0 } else { scopes_json(v.take(k)).len() }),
        decreases s@.len() - p,
    {
        let start = p;
        let ghost sc = v[k];
        proof {
            reveal_strlit("]");
            if has {
                lemma_scope_iter(s@, pos as int, v, k, p as int);
            }
        }
        if out.len() > 0 {
            p = match read_lit(s, p, ",") {
                Some(q) => q,
                None => return None,
            };
        }
        let (action, q) = match read_text_member(s, p, "{\"action\":") {
            Some(x) => x,
            None => return None,
        };
        let (resource, q2) = match read_text_member(s, q, ",\"resource\":") {
            Some(x) => x,
            None => return None,
        };
        p = match read_lit(s, q2, "}") {
            Some(x) => x,
            None => return None,
        };
        let ghost prev = out@;
        out.push(ScopeSpec { action, resource });
        proof {
            if has {
                assert(scopes_view(out@) =~= scopes_view(prev).push(scope_view(sc)));
                assert(scopes_view(v.take(k + 1)) =~= scopes_view(v.take(k)).push(scope_view(v[k])));
                if k + 1 == v.len() {
                    assert(v.take(k + 1) =~= v);
                }
            }
        }
        if p <= start {
            return None;
        }
        if let Some(e) = read_lit(s, p, "]") {
            return Some((out, e));
        }
        proof {
            k = k + 1;
        }
    }
}

/// `,"key":`, which leads every member of the claims after the first.
pub open spec fn key_prefix(k: Seq<char>) -> Seq<char> {
    ","@ + json_str(k) + ":"@
}

/// `x` begins with `p`.
pub open spec fn starts_with(x: Seq<char>, p: Seq<char>) -> bool {
    p.len() <= x.len() && x.subrange(0, p.len() as int) == p
}

/// Every character of `k` is written as itself inside a JSON string.
pub open spec fn plain_text(k: Seq<char>) -> bool {
    forall|i: int| 0 <= i < k.len() ==> #[trigger] plain_char(k[i])
}

/// The key of the `i`-th member of the claims, in declaration order.
pub open spec fn claim_key(i: int) -> Seq<char> {
    if i == 0 {
        "mandate_id"@
    } else if i == 1 {
        "principal_id"@
    } else if i == 2 {
        "action"@
    } else if i == 3 {
        "resource"@
    } else if i == 4 {
        "scopes"@
    } else if i == 5 {
        "intent_hash"@
    } else if i == 6 {
        "state_hash"@
    } else if i == 7 {
        "issued_at_epoch_s"@
    } else if i == 8 {
        "expires_at_epoch_s"@
    } else if i == 9 {
        "delegated_by"@
    } else if i == 10 {
        "parent_mandate_id"@
    } else if i == 11 {
        "delegation_depth"@
    } else if i == 12 {
        "delegation_chain_hash"@
    } else if i == 13 {
        "iss"@
    } else if i == 14 {
        "aud"@
    } else if i == 15 {
        "sub"@
    } else if i == 16 {
        "iat"@
    } else if i == 17 {
        "exp"@
    } else if i == 18 {
        "nbf"@
    } else {
        "jti"@
    }
}

/// Length, first and second character of the `i`-th key: no two keys
/// share all three.
pub open spec fn key_mark(i: int) -> (int, char, char) {
    if i == 0 {
        (10, 'm', 'a')
    } else if i == 1 {
        (12, 'p', 'r')
    } else if i == 2 {
        (6, 'a', 'c')
    } else if i == 3 {
        (8, 'r', 'e')
    } else if i == 4 {
        (6, 's', 'c')
    } else if i == 5 {
        (11, 'i', 'n')
    } else if i == 6 {
        (10, 's', 't')
    } else if i == 7 {
        (17, 'i', 's')
    } else if i == 8 {
        (18, 'e', 'x')
    } else if i == 9 {
        (12, 'd', 'e')
    } else if i == 10 {
        (17, 'p', 'a')
    } else if i == 11 {
        (16, 'd', 'e')
    } else if i == 12 {
        (21, 'd', 'e')
    } else if i == 13 {
        (3, 'i', 's')
    } else if i == 14 {
        (3, 'a', 'u')
    } else if i == 15 {
        (3, 's', 'u')
    } else if i == 16 {
        (3, 'i', 'a')
    } else if i == 17 {
        (3, 'e', 'x')
    } else if i == 18 {
        (3, 'n', 'b')
    } else {
        (3, 'j', 't')
    }
}

/// The JSON string of an optional text.
pub open spec fn opt_json_str(o: Option<String>) -> Option<Seq<char>> {
    match o {
        Some(x) => Some(json_str(x@)),
        None => None,
    }
}

/// The decimal of an optional number.
pub open spec fn opt_decimal(o: Option<i64>) -> Option<Seq<char>> {
    match o {
        Some(x) => Some(signed_decimal(x as int)),
        None => None,
    }
}

/// The JSON value of the `i`-th member of the claims; `None` where the
/// member is omitted.
pub open spec fn claim_value(c: MandateClaims, i: int) -> Option<Seq<char>> {
    if i == 0 {
        Some(json_str(c.mandate_id@))
    } else if i == 1 {
        Some(json_str(c.principal_id@))
    } else if i == 2 {
        Some(json_str(c.action@))
    } else if i == 3 {
        Some(json_str(c.resource@))
    } else if i == 4 {
        if c.scopes@.len() > 0 {
            Some(scope_list_json(c.scopes@))
        } else {
            None
        }
    } else if i == 5 {
        Some(json_str(c.intent_hash@))
    } else if i == 6 {
        Some(json_str(c.state_hash@))
    } else if i == 7 {
        Some(signed_decimal(c.issued_at_epoch_s as int))
    } else if i == 8 {
        Some(signed_decimal(c.expires_at_epoch_s as int))
    } else if i == 9 {
        opt_json_str(c.delegated_by)
    } else if i == 10 {
        opt_json_str(c.parent_mandate_id)
    } else if i == 11 {
        Some(decimal(c.delegation_depth as nat))
    } else if i == 12 {
        opt_json_str(c.delegation_chain_hash)
    } else if i == 13 {
        opt_json_str(c.iss)
    } else if i == 14 {
        opt_json_str(c.aud)
    } else if i == 15 {
        opt_json_str(c.sub)
    } else if i == 16 {
        opt_decimal(c.iat)
    } else if i == 17 {
        opt_decimal(c.exp)
    } else if i == 18 {
        opt_decimal(c.nbf)
    } else {
        opt_json_str(c.jti)
    }
}

/// The `i`-th member with its leading comma; empty where it is omitted.
pub open spec fn claim_seg(c: MandateClaims, i: int) -> Seq<char> {
    match claim_value(c, i) {
        Some(v) => key_prefix(claim_key(i)) + v,
        None => Seq::empty(),
    }
}

/// The claims' JSON from the `i`-th member to the closing brace.
pub open spec fn claims_from(c: MandateClaims, i: int) -> Seq<char>
    decreases 20 - i,
{
    if i >= 20 {
        "}"@
    } else {
        claim_seg(c, i) + claims_from(c, i + 1)
    }
}

/// The member prefix that the reader is handed for the `i`-th member.
pub open spec fn member_lit(i: int) -> Seq<char> {
    if i == 1 {
        ",\"principal_id\":"@
    } else if i == 2 {
        ",\"action\":"@
    } else if i == 3 {
        ",\"resource\":"@
    } else if i == 4 {
        ",\"scopes\":"@
    } else if i == 5 {
        ",\"intent_hash\":"@
    } else if i == 6 {
        ",\"state_hash\":"@
    } else if i == 7 {
        ",\"issued_at_epoch_s\":"@
    } else if i == 8 {
        ",\"expires_at_epoch_s\":"@
    } else if i == 9 {
        ",\"delegated_by\":"@
    } else if i == 10 {
        ",\"parent_mandate_id\":"@
    } else if i == 11 {
        ",\"delegation_depth\":"@
    } else if i == 12 {
        ",\"delegation_chain_hash\":"@
    } else if i == 13 {
        ",\"iss\":"@
    } else if i == 14 {
        ",\"aud\":"@
    } else if i == 15 {
        ",\"sub\":"@
    } else if i == 16 {
        ",\"iat\":"@
    } else if i == 17 {
        ",\"exp\":"@
    } else if i == 18 {
        ",\"nbf\":"@
    } else {
        ",\"jti\":"@
    }
}

/// Each key is plain text, and its mark is its length and first two
/// characters.
proof fn lemma_key_facts(i: int)
    requires
        0 <= i < 20,
    ensures
        plain_text(claim_key(i)),
        claim_key(i).len() >= 2,
        (claim_key(i).len() as int, claim_key(i)[0], claim_key(i)[1]) == key_mark(i),
{
    if i == 0 {
        reveal_strlit("mandate_id");
    } else if i == 1 {
        reveal_strlit("principal_id");
    } else if i == 2 {
        reveal_strlit("action");
    } else if i == 3 {
        reveal_strlit("resource");
    } else if i == 4 {
        reveal_strlit("scopes");
    } else if i == 5 {
        reveal_strlit("intent_hash");
    } else if i == 6 {
        reveal_strlit("state_hash");
    } else if i == 7 {
        reveal_strlit("issued_at_epoch_s");
    } else if i == 8 {
        reveal_strlit("expires_at_epoch_s");
    } else if i == 9 {
        reveal_strlit("delegated_by");
    } else if i == 10 {
        reveal_strlit("parent_mandate_id");
    } else if i == 11 {
        reveal_strlit("delegation_depth");
    } else if i == 12 {
        reveal_strlit("delegation_chain_hash");
    } else if i == 13 {
        reveal_strlit("iss");
    } else if i == 14 {
        reveal_strlit("aud");
    } else if i == 15 {
        reveal_strlit("sub");
    } else if i == 16 {
        reveal_strlit("iat");
    } else if i == 17 {
        reveal_strlit("exp");
    } else if i == 18 {
        reveal_strlit("nbf");
    } else {
        reveal_strlit("jti");
    }
}

/// A member prefix is a comma, the quoted key and a colon.
proof fn lemma_key_prefix_form(k: Seq<char>)
    requires
        plain_text(k),
    ensures
        key_prefix(k) == seq![',', '"'] + k + seq!['"', ':'],
{
    lemma_plain_escape(k);
    reveal_strlit(",");
    reveal_strlit(":");
    assert(key_prefix(k) =~= seq![',', '"'] + k + seq!['"', ':']);
}

/// A text cannot begin with the prefixes of two different keys.
proof fn lemma_keys_exclusive(x: Seq<char>, k1: Seq<char>, k2: Seq<char>)
    requires
        plain_text(k1),
        plain_text(k2),
        k1 != k2,
        starts_with(x, key_prefix(k1)),
    ensures
        !starts_with(x, key_prefix(k2)),
{
    lemma_key_prefix_form(k1);
    lemma_key_prefix_form(k2);
    let a = key_prefix(k1);
    let b = key_prefix(k2);
    if starts_with(x, b) {
        assert forall|i: int| 0 <= i < a.len() && i < b.len() implies a[i] == b[i] by {
            assert(x.subrange(0, a.len() as int)[i] == x[i]);
            assert(x.subrange(0, b.len() as int)[i] == x[i]);
        }
        if k1.len() == k2.len() {
            assert forall|i: int| 0 <= i < k1.len() implies k1[i] == k2[i] by {
                assert(a[i + 2] == k1[i]);
                assert(b[i + 2] == k2[i]);
            }
            assert(k1 =~= k2);
        } else if k1.len() < k2.len() {
            let n = k1.len() as int;
            assert(a[n + 2] == '"');
            assert(b[n + 2] == k2[n]);
            assert(plain_char(k2[n]));
        } else {
            let n = k2.len() as int;
            assert(b[n + 2] == '"');
            assert(a[n + 2] == k1[n]);
            assert(plain_char(k1[n]));
        }
    }
}

/// What follows the `j`-th member from the `i`-th on begins with a comma or
/// the closing brace, and never with the prefix of the `j`-th key.
proof fn lemma_claims_lead(c: MandateClaims, i: int, j: int)
    requires
        0 <= j < 20,
        1 <= i <= 20,
        forall|m: int| i <= m < 20 ==> key_mark(m) != key_mark(j),
    ensures
        !starts_with(claims_from(c, i), key_prefix(claim_key(j))),
        claims_from(c, i).len() > 0,
        claims_from(c, i)[0] == ',' || claims_from(c, i)[0] == '}',
    decreases 20 - i,
{
    lemma_key_facts(j);
    lemma_key_prefix_form(claim_key(j));
    let x = claims_from(c, i);
    if i >= 20 {
        reveal_strlit("}");
    } else {
        lemma_claims_lead(c, i + 1, j);
        let rest = claims_from(c, i + 1);
        match claim_value(c, i) {
            Some(v) => {
                lemma_key_facts(i);
                assert(claim_key(i) != claim_key(j)) by {
                    if claim_key(i) == claim_key(j) {
                        assert(key_mark(i) == key_mark(j));
                    }
                }
                lemma_key_prefix_form(claim_key(i));
                let kp = key_prefix(claim_key(i));
                assert(x =~= kp + (v + rest));
                assert(x.subrange(0, kp.len() as int) =~= kp);
                lemma_keys_exclusive(x, claim_key(i), claim_key(j));
                assert(x[0] == kp[0]);
            },
            None => {
                assert(x =~= rest);
            },
        }
    }
}

/// A text that does not begin with `k`, written at `p` up to the end of
/// `s`, leaves `k` absent at `p`.
proof fn lemma_not_led(s: Seq<char>, rest: Seq<char>, p: int, k: Seq<char>)
    requires
        occurs_at(s, rest, p),
        p + rest.len() == s.len(),
        !starts_with(rest, k),
    ensures
        !occurs_at(s, k, p),
{
    if occurs_at(s, k, p) {
        assert(rest.subrange(0, k.len() as int) =~= k) by {
            assert forall|i: int| 0 <= i < k.len() implies rest.subrange(0, k.len() as int)[i] == k[i] by {
                assert(s.subrange(p, p + rest.len())[i] == s[p + i]);
                assert(s.subrange(p, p + k.len())[i] == s[p + i]);
            }
        }
    }
}

/// A number followed by a comma or a closing brace is read whole.
proof fn lemma_number_here(s: Seq<char>, q: int, x: i64, rest: Seq<char>)
    requires
        occurs_at(s, signed_decimal(x as int), q),
        occurs_at(s, rest, q + signed_decimal(x as int).len()),
        rest.len() > 0,
        rest[0] == ',' || rest[0] == '}',
    ensures
        number_at(s, q, x),
{
    let e = q + signed_decimal(x as int).len();
    assert(s.subrange(e, e + rest.len())[0] == s[e]);
}

/// One step through the claims: the `i`-th member, then the rest.
proof fn lemma_claims_step(s: Seq<char>, c: MandateClaims, i: int, p: int)
    requires
        1 <= i < 20,
        occurs_at(s, claims_from(c, i), p),
        p + claims_from(c, i).len() == s.len(),
    ensures
        occurs_at(s, claim_seg(c, i), p),
        occurs_at(s, claims_from(c, i + 1), p + claim_seg(c, i).len()),
        p + claim_seg(c, i).len() + claims_from(c, i + 1).len() == s.len(),
{
    lemma_occurs_concat(s, claim_seg(c, i), claims_from(c, i + 1), p);
}

/// The prefix the reader is handed for a member is that member's prefix.
proof fn lemma_member_lit(i: int)
    requires
        1 <= i < 20,
    ensures
        key_prefix(claim_key(i)) == member_lit(i),
{
    lemma_key_facts(i);
    lemma_key_prefix_form(claim_key(i));
    let k = claim_key(i);
    if i == 1 {
        reveal_strlit("principal_id");
        reveal_strlit(",\"principal_id\":");
    } else if i == 2 {
        reveal_strlit("action");
        reveal_strlit(",\"action\":");
    } else if i == 3 {
        reveal_strlit("resource");
        reveal_strlit(",\"resource\":");
    } else if i == 4 {
        reveal_strlit("scopes");
        reveal_strlit(",\"scopes\":");
    } else if i == 5 {
        reveal_strlit("intent_hash");
        reveal_strlit(",\"intent_hash\":");
    } else if i == 6 {
        reveal_strlit("state_hash");
        reveal_strlit(",\"state_hash\":");
    } else if i == 7 {
        reveal_strlit("issued_at_epoch_s");
        reveal_strlit(",\"issued_at_epoch_s\":");
    } else if i == 8 {
        reveal_strlit("expires_at_epoch_s");
        reveal_strlit(",\"expires_at_epoch_s\":");
    } else if i == 9 {
        reveal_strlit("delegated_by");
        reveal_strlit(",\"delegated_by\":");
    } else if i == 10 {
        reveal_strlit("parent_mandate_id");
        reveal_strlit(",\"parent_mandate_id\":");
    } else if i == 11 {
        reveal_strlit("delegation_depth");
        reveal_strlit(",\"delegation_depth\":");
    } else if i == 12 {
        reveal_strlit("delegation_chain_hash");
        reveal_strlit(",\"delegation_chain_hash\":");
    } else if i == 13 {
        reveal_strlit("iss");
        reveal_strlit(",\"iss\":");
    } else if i == 14 {
        reveal_strlit("aud");
        reveal_strlit(",\"aud\":");
    } else if i == 15 {
        reveal_strlit("sub");
        reveal_strlit(",\"sub\":");
    } else if i == 16 {
        reveal_strlit("iat");
        reveal_strlit(",\"iat\":");
    } else if i == 17 {
        reveal_strlit("exp");
        reveal_strlit(",\"exp\":");
    } else if i == 18 {
        reveal_strlit("nbf");
        reveal_strlit(",\"nbf\":");
    } else {
        reveal_strlit("jti");
        reveal_strlit(",\"jti\":");
    }
    assert(key_prefix(k) =~= member_lit(i));
}

/// An optional text member, as `claim_seg` writes it.
proof fn lemma_opt_text_seg(k: Seq<char>, o: Option<String>)
    ensures
        (match opt_json_str(o) {
            Some(v) => key_prefix(k) + v,
            None => Seq::empty(),
        }) == opt_text_member(k, o),
{
    match o {
        Some(x) => {
            assert(key_prefix(k) + json_str(x@) =~= opt_text_member(k, o));
        },
        None => {},
    }
}

/// An optional number member, as `claim_seg` writes it.
proof fn lemma_opt_int_seg(k: Seq<char>, o: Option<i64>)
    ensures
        (match opt_decimal(o) {
            Some(v) => key_prefix(k) + v,
            None => Seq::empty(),
        }) == opt_int_member(k, o),
{
    match o {
        Some(x) => {
            assert(key_prefix(k) + signed_decimal(x as int) =~= opt_int_member(k, o));
        },
        None => {},
    }
}

/// A member after a comma is its prefix and its value.
proof fn lemma_member_seg(x: Seq<char>, k: Seq<char>, v: Seq<char>)
    ensures
        x + ","@ + member(k, v) == x + (key_prefix(k) + v),
        ","@ + member(k, v) == key_prefix(k) + v,
{
    assert(x + ","@ + member(k, v) =~= x + (key_prefix(k) + v));
    assert(","@ + member(k, v) =~= key_prefix(k) + v);
}

/// Concatenation regroups to the right.
proof fn lemma_regroup(x: Seq<char>, a: Seq<char>, r: Seq<char>)
    ensures
        x + a + r == x + (a + r),
{
    vstd::seq_lib::lemma_concat_associative(x, a, r);
}

/// The trailing members of the claims are the members from the iss on.
proof fn lemma_claims_tail_from(c: MandateClaims)
    ensures
        claims_tail(c) == claims_from(c, 13),
{
    lemma_opt_text_seg("iss"@, c.iss);
    lemma_opt_text_seg("aud"@, c.aud);
    lemma_opt_text_seg("sub"@, c.sub);
    lemma_opt_int_seg("iat"@, c.iat);
    lemma_opt_int_seg("exp"@, c.exp);
    lemma_opt_int_seg("nbf"@, c.nbf);
    lemma_opt_text_seg("jti"@, c.jti);
    let a1 = opt_text_member("iss"@, c.iss);
    let a2 = a1 + opt_text_member("aud"@, c.aud);
    let a3 = a2 + opt_text_member("sub"@, c.sub);
    let a4 = a3 + opt_int_member("iat"@, c.iat);
    let a5 = a4 + opt_int_member("exp"@, c.exp);
    let a6 = a5 + opt_int_member("nbf"@, c.nbf);
    let a7 = a6 + opt_text_member("jti"@, c.jti);
    assert(claims_tail(c) == a7 + "}"@);
    assert(claims_from(c, 20) == "}"@);
    assert(claims_from(c, 19) == claim_seg(c, 19) + claims_from(c, 20));
    lemma_regroup(a6, claim_seg(c, 19), claims_from(c, 20));
    assert(claims_from(c, 18) == claim_seg(c, 18) + claims_from(c, 19));
    lemma_regroup(a5, claim_seg(c, 18), claims_from(c, 19));
    assert(claims_from(c, 17) == claim_seg(c, 17) + claims_from(c, 18));
    lemma_regroup(a4, claim_seg(c, 17), claims_from(c, 18));
    assert(claims_from(c, 16) == claim_seg(c, 16) + claims_from(c, 17));
    lemma_regroup(a3, claim_seg(c, 16), claims_from(c, 17));
    assert(claims_from(c, 15) == claim_seg(c, 15) + claims_from(c, 16));
    lemma_regroup(a2, claim_seg(c, 15), claims_from(c, 16));
    assert(claims_from(c, 14) == claim_seg(c, 14) + claims_from(c, 15));
    lemma_regroup(a1, claim_seg(c, 14), claims_from(c, 15));
    assert(claims_from(c, 13) == claim_seg(c, 13) + claims_from(c, 14));
}

/// The middle members of the claims, then the rest, are the members from
/// the issue time on.
proof fn lemma_claims_middle_from(c: MandateClaims)
    ensures
        claims_middle(c) + claims_from(c, 13) == claims_from(c, 7),
{
    lemma_opt_text_seg("delegated_by"@, c.delegated_by);
    lemma_opt_text_seg("parent_mandate_id"@, c.parent_mandate_id);
    lemma_opt_text_seg("delegation_chain_hash"@, c.delegation_chain_hash);
    let sd7 = signed_decimal(c.issued_at_epoch_s as int);
    let sd8 = signed_decimal(c.expires_at_epoch_s as int);
    let d11 = decimal(c.delegation_depth as nat);
    let m1 = ","@ + member("issued_at_epoch_s"@, sd7);
    lemma_member_seg(Seq::empty(), "issued_at_epoch_s"@, sd7);
    let m2 = m1 + ","@ + member("expires_at_epoch_s"@, sd8);
    lemma_member_seg(m1, "expires_at_epoch_s"@, sd8);
    let m3 = m2 + opt_text_member("delegated_by"@, c.delegated_by);
    let m4 = m3 + opt_text_member("parent_mandate_id"@, c.parent_mandate_id);
    let m5 = m4 + ","@ + member("delegation_depth"@, d11);
    lemma_member_seg(m4, "delegation_depth"@, d11);
    let m6 = m5 + opt_text_member("delegation_chain_hash"@, c.delegation_chain_hash);
    assert(claims_middle(c) == m6);
    assert(claims_from(c, 12) == claim_seg(c, 12) + claims_from(c, 13));
    lemma_regroup(m5, claim_seg(c, 12), claims_from(c, 13));
    assert(claims_from(c, 11) == claim_seg(c, 11) + claims_from(c, 12));
    lemma_regroup(m4, claim_seg(c, 11), claims_from(c, 12));
    assert(claims_from(c, 10) == claim_seg(c, 10) + claims_from(c, 11));
    lemma_regroup(m3, claim_seg(c, 10), claims_from(c, 11));
    assert(claims_from(c, 9) == claim_seg(c, 9) + claims_from(c, 10));
    lemma_regroup(m2, claim_seg(c, 9), claims_from(c, 10));
    assert(claims_from(c, 8) == claim_seg(c, 8) + claims_from(c, 9));
    lemma_regroup(m1, claim_seg(c, 8), claims_from(c, 9));
    assert(claims_from(c, 7) == claim_seg(c, 7) + claims_from(c, 8));
}

/// The leading members of the claims, then the rest, are the first member
/// and the members from the second on.
proof fn lemma_claims_head_from(c: MandateClaims)
    ensures
        claims_head(c) + claims_from(c, 7) == "{"@ + member("mandate_id"@, json_str(c.mandate_id@))
            + claims_from(c, 1),
{
    let h0 = "{"@ + member("mandate_id"@, json_str(c.mandate_id@));
    let h1 = h0 + ","@ + member("principal_id"@, json_str(c.principal_id@));
    lemma_member_seg(h0, "principal_id"@, json_str(c.principal_id@));
    let h2 = h1 + ","@ + member("action"@, json_str(c.action@));
    lemma_member_seg(h1, "action"@, json_str(c.action@));
    let h3 = h2 + ","@ + member("resource"@, json_str(c.resource@));
    lemma_member_seg(h2, "resource"@, json_str(c.resource@));
    let sc = if c.scopes@.len() > 0 {
        ","@ + member("scopes"@, "["@ + scopes_json(c.scopes@) + "]"@)
    } else {
        Seq::empty()
    };
    let h4 = h3 + sc;
    lemma_member_seg(Seq::empty(), "scopes"@, "["@ + scopes_json(c.scopes@) + "]"@);
    assert(sc == claim_seg(c, 4));
    let h5 = h4 + ","@ + member("intent_hash"@, json_str(c.intent_hash@));
    lemma_member_seg(h4, "intent_hash"@, json_str(c.intent_hash@));
    let h6 = h5 + ","@ + member("state_hash"@, json_str(c.state_hash@));
    lemma_member_seg(h5, "state_hash"@, json_str(c.state_hash@));
    assert(claims_head(c) == h6);
    assert(claims_from(c, 6) == claim_seg(c, 6) + claims_from(c, 7));
    lemma_regroup(h5, claim_seg(c, 6), claims_from(c, 7));
    assert(claims_from(c, 5) == claim_seg(c, 5) + claims_from(c, 6));
    lemma_regroup(h4, claim_seg(c, 5), claims_from(c, 6));
    assert(claims_from(c, 4) == claim_seg(c, 4) + claims_from(c, 5));
    lemma_regroup(h3, claim_seg(c, 4), claims_from(c, 5));
    assert(claims_from(c, 3) == claim_seg(c, 3) + claims_from(c, 4));
    lemma_regroup(h2, claim_seg(c, 3), claims_from(c, 4));
    assert(claims_from(c, 2) == claim_seg(c, 2) + claims_from(c, 3));
    lemma_regroup(h1, claim_seg(c, 2), claims_from(c, 3));
    assert(claims_from(c, 1) == claim_seg(c, 1) + claims_from(c, 2));
    lemma_regroup(h0, claim_seg(c, 1), claims_from(c, 2));
}

/// The claims' JSON is the first member and then the members from the
/// second on.
proof fn lemma_claims_json_from(c: MandateClaims)
    ensures
        claims_json(c) == "{\"mandate_id\":"@ + json_str(c.mandate_id@) + claims_from(c, 1),
{
    reveal(claims_json);
    lemma_key_facts(0);
    lemma_plain_escape("mandate_id"@);
    reveal_strlit("mandate_id");
    reveal_strlit("{\"mandate_id\":");
    reveal_strlit("{");
    reveal_strlit(":");
    assert("{\"mandate_id\":"@ =~= "{"@ + json_str("mandate_id"@) + ":"@);
    lemma_claims_tail_from(c);
    lemma_claims_middle_from(c);
    lemma_claims_head_from(c);
    let m = claims_middle(c);
    lemma_regroup(claims_head(c), m, claims_from(c, 13));
    assert("{"@ + member("mandate_id"@, json_str(c.mandate_id@)) =~= "{\"mandate_id\":"@ + json_str(c.mandate_id@));
}

/// Claims whose texts, scopes and numbers agree have the same JSON.
proof fn lemma_claims_json_views(a: MandateClaims, b: MandateClaims)
    requires
        a.mandate_id@ == b.mandate_id@,
        a.principal_id@ == b.principal_id@,
        a.action@ == b.action@,
        a.resource@ == b.resource@,
        scopes_view(a.scopes@) == scopes_view(b.scopes@),
        a.intent_hash@ == b.intent_hash@,
        a.state_hash@ == b.state_hash@,
        a.issued_at_epoch_s == b.issued_at_epoch_s,
        a.expires_at_epoch_s == b.expires_at_epoch_s,
        opt_view(a.delegated_by) == opt_view(b.delegated_by),
        opt_view(a.parent_mandate_id) == opt_view(b.parent_mandate_id),
        a.delegation_depth == b.delegation_depth,
        opt_view(a.delegation_chain_hash) == opt_view(b.delegation_chain_hash),
        opt_view(a.iss) == opt_view(b.iss),
        opt_view(a.aud) == opt_view(b.aud),
        opt_view(a.sub) == opt_view(b.sub),
        a.iat == b.iat,
        a.exp == b.exp,
        a.nbf == b.nbf,
        opt_view(a.jti) == opt_view(b.jti),
    ensures
        claims_json(a) == claims_json(b),
{
    reveal(claims_json);
    lemma_scopes_json_views(a.scopes@, b.scopes@);
    assert(a.scopes@.len() == scopes_view(a.scopes@).len());
    assert(b.scopes@.len() == scopes_view(b.scopes@).len());
    lemma_opt_view_member("delegated_by"@, a.delegated_by, b.delegated_by);
    lemma_opt_view_member("parent_mandate_id"@, a.parent_mandate_id, b.parent_mandate_id);
    lemma_opt_view_member("delegation_chain_hash"@, a.delegation_chain_hash, b.delegation_chain_hash);
    lemma_opt_view_member("iss"@, a.iss, b.iss);
    lemma_opt_view_member("aud"@, a.aud, b.aud);
    lemma_opt_view_member("sub"@, a.sub, b.sub);
    lemma_opt_view_member("jti"@, a.jti, b.jti);
    assert(claims_head(a) == claims_head(b));
    assert(claims_middle(a) == claims_middle(b));
    assert(claims_tail(a) == claims_tail(b));
}

/// An optional text member depends on the text only.
proof fn lemma_opt_view_member(k: Seq<char>, a: Option<String>, b: Option<String>)
    requires
        opt_view(a) == opt_view(b),
    ensures
        opt_text_member(k, a) == opt_text_member(k, b),
{
    match a {
        Some(x) => {
            assert(b is Some);
        },
        None => {
            assert(b is None);
        },
    }
}

/// What follows a member begins with a comma or the closing brace.
proof fn lemma_claims_first(c: MandateClaims, i: int)
    requires
        1 <= i <= 20,
    ensures
        claims_from(c, i).len() > 0,
        claims_from(c, i)[0] == ',' || claims_from(c, i)[0] == '}',
    decreases 20 - i,
{
    if i >= 20 {
        reveal_strlit("}");
    } else {
        lemma_claims_first(c, i + 1);
        let rest = claims_from(c, i + 1);
        match claim_value(c, i) {
            Some(v) => {
                lemma_key_facts(i);
                lemma_key_prefix_form(claim_key(i));
                let kp = key_prefix(claim_key(i));
                assert(claims_from(c, i) =~= kp + (v + rest));
                assert(claims_from(c, i)[0] == kp[0]);
            },
            None => {
                assert(claims_from(c, i) =~= rest);
            },
        }
    }
}

/// A text member of the claims, where the rest of them is written at `p`.
proof fn lemma_text_at(s: Seq<char>, c: MandateClaims, i: int, p: int, t: Seq<char>)
    requires
        1 <= i < 20,
        claim_value(c, i) == Some(json_str(t)),
        occurs_at(s, claims_from(c, i), p),
        p + claims_from(c, i).len() == s.len(),
    ensures
        occurs_at(s, member_lit(i) + json_str(t), p),
        occurs_at(s, claims_from(c, i + 1), p + member_lit(i).len() + json_str(t).len()),
        p + member_lit(i).len() + json_str(t).len() + claims_from(c, i + 1).len() == s.len(),
{
    lemma_claims_step(s, c, i, p);
    lemma_member_lit(i);
}

/// A number member of the claims, where the rest of them is written at
/// `p`.
proof fn lemma_int_at(s: Seq<char>, c: MandateClaims, i: int, p: int, x: i64)
    requires
        1 <= i < 20,
        claim_value(c, i) == Some(signed_decimal(x as int)),
        occurs_at(s, claims_from(c, i), p),
        p + claims_from(c, i).len() == s.len(),
    ensures
        occurs_at(s, member_lit(i), p),
        number_at(s, p + member_lit(i).len(), x),
        occurs_at(s, claims_from(c, i + 1), p + member_lit(i).len() + signed_decimal(x as int).len()),
        p + member_lit(i).len() + signed_decimal(x as int).len() + claims_from(c, i + 1).len() == s.len(),
{
    lemma_claims_step(s, c, i, p);
    lemma_member_lit(i);
    lemma_occurs_concat(s, member_lit(i), signed_decimal(x as int), p);
    lemma_claims_first(c, i + 1);
    lemma_number_here(s, p + member_lit(i).len(), x, claims_from(c, i + 1));
}

/// No two keys of the claims share a mark.
proof fn lemma_marks_distinct(i: int)
    requires
        0 <= i < 20,
    ensures
        forall|m: int| i < m < 20 ==> key_mark(m) != key_mark(i),
{
}

/// An optional text member of the claims, where the rest of them is
/// written at `p`: the member, or no trace of its prefix.
proof fn lemma_opt_text_at(s: Seq<char>, c: MandateClaims, i: int, p: int, o: Option<String>)
    requires
        1 <= i < 20,
        claim_value(c, i) == opt_json_str(o),
        occurs_at(s, claims_from(c, i), p),
        p + claims_from(c, i).len() == s.len(),
    ensures
        match o {
            Some(x) => occurs_at(s, member_lit(i) + json_str(x@), p) && occurs_at(
                s,
                claims_from(c, i + 1),
                p + member_lit(i).len() + json_str(x@).len(),
            ) && p + member_lit(i).len() + json_str(x@).len() + claims_from(c, i + 1).len() == s.len(),
            None => !occurs_at(s, member_lit(i), p) && occurs_at(s, claims_from(c, i + 1), p) && p
                + claims_from(c, i + 1).len() == s.len(),
        },
{
    lemma_claims_step(s, c, i, p);
    lemma_member_lit(i);
    if o is None {
        lemma_marks_distinct(i);
        lemma_claims_lead(c, i + 1, i);
        assert(claims_from(c, i) =~= claims_from(c, i + 1));
        lemma_not_led(s, claims_from(c, i + 1), p, member_lit(i));
    }
}

/// An optional number member of the claims, where the rest of them is
/// written at `p`: the member, or no trace of its prefix.
proof fn lemma_opt_int_at(s: Seq<char>, c: MandateClaims, i: int, p: int, o: Option<i64>)
    requires
        1 <= i < 20,
        claim_value(c, i) == opt_decimal(o),
        occurs_at(s, claims_from(c, i), p),
        p + claims_from(c, i).len() == s.len(),
    ensures
        match o {
            Some(x) => occurs_at(s, member_lit(i), p) && number_at(s, p + member_lit(i).len(), x)
                && occurs_at(s, claims_from(c, i + 1), p + member_lit(i).len() + signed_decimal(x as int).len())
                && p + member_lit(i).len() + signed_decimal(x as int).len() + claims_from(c, i + 1).len() == s.len(),
            None => !occurs_at(s, member_lit(i), p) && occurs_at(s, claims_from(c, i + 1), p) && p
                + claims_from(c, i + 1).len() == s.len(),
        },
{
    match o {
        Some(x) => {
            lemma_int_at(s, c, i, p, x);
        },
        None => {
            lemma_claims_step(s, c, i, p);
            lemma_member_lit(i);
            lemma_marks_distinct(i);
            lemma_claims_lead(c, i + 1, i);
            assert(claims_from(c, i) =~= claims_from(c, i + 1));
            lemma_not_led(s, claims_from(c, i + 1), p, member_lit(i));
        },
    }
}

/// Two values of the `i`-th member written at the same place, each
/// followed by what follows it in its claims, are the same text.
#[verifier::rlimit(40)]
proof fn lemma_value_unique(s: Seq<char>, a: MandateClaims, b: MandateClaims, i: int, q: int, va: Seq<char>, vb: Seq<char>)
    requires
        1 <= i < 20,
        claim_value(a, i) == Some(va),
        claim_value(b, i) == Some(vb),
        occurs_at(s, va, q),
        occurs_at(s, vb, q),
        occurs_at(s, claims_from(a, i + 1), q + va.len()),
        occurs_at(s, claims_from(b, i + 1), q + vb.len()),
    ensures
        va == vb,
{
    lemma_claims_first(a, i + 1);
    lemma_claims_first(b, i + 1);
    if i == 4 {
        lemma_scopes_unique(s, q, a.scopes@, b.scopes@);
        lemma_scopes_json_views(a.scopes@, b.scopes@);
    } else if i == 7 {
        lemma_number_here(s, q, a.issued_at_epoch_s, claims_from(a, i + 1));
        lemma_number_here(s, q, b.issued_at_epoch_s, claims_from(b, i + 1));
        lemma_number_unique(s, q, a.issued_at_epoch_s, b.issued_at_epoch_s);
    } else if i == 8 {
        lemma_number_here(s, q, a.expires_at_epoch_s, claims_from(a, i + 1));
        lemma_number_here(s, q, b.expires_at_epoch_s, claims_from(b, i + 1));
        lemma_number_unique(s, q, a.expires_at_epoch_s, b.expires_at_epoch_s);
    } else if i == 11 {
        let x: i64 = a.delegation_depth as i64;
        let y: i64 = b.delegation_depth as i64;
        assert(signed_decimal(x as int) == va);
        assert(signed_decimal(y as int) == vb);
        lemma_number_here(s, q, x, claims_from(a, i + 1));
        lemma_number_here(s, q, y, claims_from(b, i + 1));
        lemma_number_unique(s, q, x, y);
    } else if 16 <= i <= 18 {
        let oa = if i == 16 { a.iat } else if i == 17 { a.exp } else { a.nbf };
        let ob = if i == 16 { b.iat } else if i == 17 { b.exp } else { b.nbf };
        assert(opt_decimal(oa) == Some(va));
        assert(opt_decimal(ob) == Some(vb));
        let x = oa->Some_0;
        let y = ob->Some_0;
        lemma_number_here(s, q, x, claims_from(a, i + 1));
        lemma_number_here(s, q, y, claims_from(b, i + 1));
        lemma_number_unique(s, q, x, y);
    } else {
        let ta: Seq<char> = if i == 1 {
            a.principal_id@
        } else if i == 2 {
            a.action@
        } else if i == 3 {
            a.resource@
        } else if i == 5 {
            a.intent_hash@
        } else if i == 6 {
            a.state_hash@
        } else {
            let o = if i == 9 {
                a.delegated_by
            } else if i == 10 {
                a.parent_mandate_id
            } else if i == 12 {
                a.delegation_chain_hash
            } else if i == 13 {
                a.iss
            } else if i == 14 {
                a.aud
            } else if i == 15 {
                a.sub
            } else {
                a.jti
            };
            o->Some_0@
        };
        let tb: Seq<char> = if i == 1 {
            b.principal_id@
        } else if i == 2 {
            b.action@
        } else if i == 3 {
            b.resource@
        } else if i == 5 {
            b.intent_hash@
        } else if i == 6 {
            b.state_hash@
        } else {
            let o = if i == 9 {
                b.delegated_by
            } else if i == 10 {
                b.parent_mandate_id
            } else if i == 12 {
                b.delegation_chain_hash
            } else if i == 13 {
                b.iss
            } else if i == 14 {
                b.aud
            } else if i == 15 {
                b.sub
            } else {
                b.jti
            };
            o->Some_0@
        };
        assert(va == json_str(ta));
        assert(vb == json_str(tb));
        lemma_json_str_unique(s, q, ta, tb);
    }
}

/// Two claims whose members from the `i`-th on are written at the same
/// place, up to the end of `s`, give those members the same values.
proof fn lemma_claims_from_unique(s: Seq<char>, a: MandateClaims, b: MandateClaims, i: int, p: int)
    requires
        1 <= i <= 20,
        occurs_at(s, claims_from(a, i), p),
        occurs_at(s, claims_from(b, i), p),
        p + claims_from(a, i).len() == s.len(),
        p + claims_from(b, i).len() == s.len(),
    ensures
        forall|m: int| i <= m < 20 ==> claim_value(a, m) == claim_value(b, m),
    decreases 20 - i,
{
    if i < 20 {
        lemma_claims_step(s, a, i, p);
        lemma_claims_step(s, b, i, p);
        let kp = key_prefix(claim_key(i));
        match (claim_value(a, i), claim_value(b, i)) {
            (Some(va), Some(vb)) => {
                lemma_occurs_concat(s, kp, va, p);
                lemma_occurs_concat(s, kp, vb, p);
                lemma_value_unique(s, a, b, i, p + kp.len(), va, vb);
            },
            (Some(va), None) => {
                lemma_occurs_concat(s, kp, va, p);
                lemma_marks_distinct(i);
                lemma_claims_lead(b, i + 1, i);
                lemma_not_led(s, claims_from(b, i + 1), p, kp);
            },
            (None, Some(vb)) => {
                lemma_occurs_concat(s, kp, vb, p);
                lemma_marks_distinct(i);
                lemma_claims_lead(a, i + 1, i);
                lemma_not_led(s, claims_from(a, i + 1), p, kp);
            },
            (None, None) => {},
        }
        lemma_claims_from_unique(s, a, b, i + 1, p + claim_seg(a, i).len());
    }
}

/// The JSON string of a text determines the text.
proof fn lemma_json_str_injective(u: Seq<char>, t: Seq<char>)
    requires
        json_str(u) == json_str(t),
    ensures
        u == t,
{
    let s = json_str(u);
    assert(s.subrange(0, s.len() as int) =~= s);
    lemma_json_str_unique(s, 0, u, t);
}

/// The decimal of a number determines the number.
proof fn lemma_decimal_injective(x: i64, y: i64)
    requires
        signed_decimal(x as int) == signed_decimal(y as int),
    ensures
        x == y,
{
    let s = signed_decimal(x as int);
    assert(s.subrange(0, s.len() as int) =~= s);
    lemma_number_unique(s, 0, x, y);
}

/// The JSON string of an optional text determines the text.
proof fn lemma_opt_json_str_injective(a: Option<String>, b: Option<String>)
    requires
        opt_json_str(a) == opt_json_str(b),
    ensures
        opt_view(a) == opt_view(b),
{
    if a is Some && b is Some {
        lemma_json_str_injective(a->Some_0@, b->Some_0@);
    }
}

/// The decimal of an optional number determines the number.
proof fn lemma_opt_decimal_injective(a: Option<i64>, b: Option<i64>)
    requires
        opt_decimal(a) == opt_decimal(b),
    ensures
        a == b,
{
    if a is Some && b is Some {
        lemma_decimal_injective(a->Some_0, b->Some_0);
    }
}

/// The JSON of claims determines them: claims with the same JSON have the
/// same texts, scopes and numbers.
pub proof fn law_claims_json_determines_claims(a: MandateClaims, b: MandateClaims)
    requires
        claims_json(a) == claims_json(b),
    ensures
        a.mandate_id@ == b.mandate_id@,
        a.principal_id@ == b.principal_id@,
        a.action@ == b.action@,
        a.resource@ == b.resource@,
        scopes_view(a.scopes@) == scopes_view(b.scopes@),
        a.intent_hash@ == b.intent_hash@,
        a.state_hash@ == b.state_hash@,
        a.issued_at_epoch_s == b.issued_at_epoch_s,
        a.expires_at_epoch_s == b.expires_at_epoch_s,
        opt_view(a.delegated_by) == opt_view(b.delegated_by),
        opt_view(a.parent_mandate_id) == opt_view(b.parent_mandate_id),
        a.delegation_depth == b.delegation_depth,
        opt_view(a.delegation_chain_hash) == opt_view(b.delegation_chain_hash),
        opt_view(a.iss) == opt_view(b.iss),
        opt_view(a.aud) == opt_view(b.aud),
        opt_view(a.sub) == opt_view(b.sub),
        a.iat == b.iat,
        a.exp == b.exp,
        a.nbf == b.nbf,
        opt_view(a.jti) == opt_view(b.jti),
{
    let s = claims_json(a);
    let lit = "{\"mandate_id\":"@;
    lemma_claims_json_from(a);
    lemma_claims_json_from(b);
    assert(s.subrange(0, s.len() as int) =~= s);
    lemma_occurs_concat(s, lit + json_str(a.mandate_id@), claims_from(a, 1), 0);
    lemma_occurs_concat(s, lit + json_str(b.mandate_id@), claims_from(b, 1), 0);
    lemma_occurs_concat(s, lit, json_str(a.mandate_id@), 0);
    lemma_occurs_concat(s, lit, json_str(b.mandate_id@), 0);
    lemma_json_str_unique(s, lit.len() as int, a.mandate_id@, b.mandate_id@);
    let p: int = (lit.len() + json_str(a.mandate_id@).len()) as int;
    lemma_claims_from_unique(s, a, b, 1, p);
    assert(claim_value(a, 1) == claim_value(b, 1));
    lemma_json_str_injective(a.principal_id@, b.principal_id@);
    assert(claim_value(a, 2) == claim_value(b, 2));
    lemma_json_str_injective(a.action@, b.action@);
    assert(claim_value(a, 3) == claim_value(b, 3));
    lemma_json_str_injective(a.resource@, b.resource@);
    assert(claim_value(a, 4) == claim_value(b, 4));
    if a.scopes@.len() > 0 {
        let t = scope_list_json(a.scopes@);
        assert(t.subrange(0, t.len() as int) =~= t);
        lemma_scopes_unique(t, 0, a.scopes@, b.scopes@);
    } else {
        assert(scopes_view(a.scopes@) =~= scopes_view(b.scopes@));
    }
    assert(claim_value(a, 5) == claim_value(b, 5));
    lemma_json_str_injective(a.intent_hash@, b.intent_hash@);
    assert(claim_value(a, 6) == claim_value(b, 6));
    lemma_json_str_injective(a.state_hash@, b.state_hash@);
    assert(claim_value(a, 7) == claim_value(b, 7));
    lemma_decimal_injective(a.issued_at_epoch_s, b.issued_at_epoch_s);
    assert(claim_value(a, 8) == claim_value(b, 8));
    lemma_decimal_injective(a.expires_at_epoch_s, b.expires_at_epoch_s);
    assert(claim_value(a, 9) == claim_value(b, 9));
    lemma_opt_json_str_injective(a.delegated_by, b.delegated_by);
    assert(claim_value(a, 10) == claim_value(b, 10));
    lemma_opt_json_str_injective(a.parent_mandate_id, b.parent_mandate_id);
    assert(claim_value(a, 11) == claim_value(b, 11));
    let x: i64 = a.delegation_depth as i64;
    let y: i64 = b.delegation_depth as i64;
    assert(signed_decimal(x as int) == signed_decimal(y as int));
    lemma_decimal_injective(x, y);
    assert(claim_value(a, 12) == claim_value(b, 12));
    lemma_opt_json_str_injective(a.delegation_chain_hash, b.delegation_chain_hash);
    assert(claim_value(a, 13) == claim_value(b, 13));
    lemma_opt_json_str_injective(a.iss, b.iss);
    assert(claim_value(a, 14) == claim_value(b, 14));
    lemma_opt_json_str_injective(a.aud, b.aud);
    assert(claim_value(a, 15) == claim_value(b, 15));
    lemma_opt_json_str_injective(a.sub, b.sub);
    assert(claim_value(a, 16) == claim_value(b, 16));
    lemma_opt_decimal_injective(a.iat, b.iat);
    assert(claim_value(a, 17) == claim_value(b, 17));
    lemma_opt_decimal_injective(a.exp, b.exp);
    assert(claim_value(a, 18) == claim_value(b, 18));
    lemma_opt_decimal_injective(a.nbf, b.nbf);
    assert(claim_value(a, 19) == claim_value(b, 19));
    lemma_opt_json_str_injective(a.jti, b.jti);
}

/// Reads the leading members of claims, up to the state hash: where `s`
/// is the JSON of `c`, their values and the position that follows them.
fn read_claims_head(s: &[char], c: Ghost<MandateClaims>) -> (r: Option<
    (String, String, String, String, Vec<ScopeSpec>, String, String, usize),
>)
    ensures
        r matches Some((_, _, _, _, _, _, _, p)) ==> p <= s@.len(),
        claims_json(c@) == s@ ==> (r matches Some((m, pr, a, re, sc, ih, sh, p)) && m@ == c@.mandate_id@
            && pr@ == c@.principal_id@ && a@ == c@.action@ && re@ == c@.resource@ && scopes_view(sc@)
            == scopes_view(c@.scopes@) && ih@ == c@.intent_hash@ && sh@ == c@.state_hash@ && occurs_at(
            s@,
            claims_from(c@, 7),
            p as int,
        ) && p + claims_from(c@, 7).len() == s@.len()),
{
    let ghost has = claims_json(c@) == s@;
    let ghost c = c@;
    proof {
        if has {
            lemma_claims_json_from(c);
            lemma_occurs_concat(s@, "{\"mandate_id\":"@ + json_str(c.mandate_id@), claims_from(c, 1), 0);
            assert(s@.subrange(0, s@.len() as int) =~= s@);
        }
    }
    let (mandate_id, p) = read_text_member(s, 0, "{\"mandate_id\":")?;
    proof {
        if has {
            lemma_text_at(s@, c, 1, p as int, c.principal_id@);
        }
    }
    let (principal_id, p) = read_text_member(s, p, ",\"principal_id\":")?;
    proof {
        if has {
            lemma_text_at(s@, c, 2, p as int, c.action@);
        }
    }
    let (action, p) = read_text_member(s, p, ",\"action\":")?;
    proof {
        if has {
            lemma_text_at(s@, c, 3, p as int, c.resource@);
        }
    }
    let (resource, p) = read_text_member(s, p, ",\"resource\":")?;
    proof {
        if has {
            lemma_claims_step(s@, c, 4, p as int);
            lemma_member_lit(4);
            if c.scopes@.len() > 0 {
                lemma_occurs_concat(s@, member_lit(4), scope_list_json(c.scopes@), p as int);
            } else {
                lemma_marks_distinct(4);
                lemma_claims_lead(c, 5, 4);
                assert(claims_from(c, 4) =~= claims_from(c, 5));
                lemma_not_led(s@, claims_from(c, 5), p as int, member_lit(4));
            }
        }
    }
    let (scopes, p) = match read_lit(s, p, ",\"scopes\":") {
        Some(q) => read_scopes(s, q)?,
        None => (Vec::new(), p),
    };
    proof {
        if has {
            assert(scopes_view(scopes@) == scopes_view(c.scopes@)) by {
                if c.scopes@.len() == 0 {
                    assert(scopes_view(scopes@) =~= scopes_view(c.scopes@));
                }
            }
            lemma_text_at(s@, c, 5, p as int, c.intent_hash@);
        }
    }
    let (intent_hash, p) = read_text_member(s, p, ",\"intent_hash\":")?;
    proof {
        if has {
            lemma_text_at(s@, c, 6, p as int, c.state_hash@);
        }
    }
    let (state_hash, p) = read_text_member(s, p, ",\"state_hash\":")?;
    Some((mandate_id, principal_id, action, resource, scopes, intent_hash, state_hash, p))
}

/// Reads the middle members of claims at `p`, from the issue time to the
/// delegation depth: where the members of `c` from the issue time on are
/// written there up to the end of `s`, their values and the position that
/// follows them.
fn read_claims_middle(s: &[char], p: usize, c: Ghost<MandateClaims>) -> (r: Option<
    (i64, i64, Option<String>, Option<String>, u32, usize),
>)
    requires
        p <= s@.len(),
    ensures
        r matches Some((_, _, _, _, _, q)) ==> q <= s@.len(),
        occurs_at(s@, claims_from(c@, 7), p as int) && p + claims_from(c@, 7).len() == s@.len() ==> (r matches Some(
            (ia, ea, db, pm, dd, q),
        ) && ia == c@.issued_at_epoch_s && ea == c@.expires_at_epoch_s && opt_view(db) == opt_view(
            c@.delegated_by,
        ) && opt_view(pm) == opt_view(c@.parent_mandate_id) && dd == c@.delegation_depth && occurs_at(
            s@,
            claims_from(c@, 12),
            q as int,
        ) && q + claims_from(c@, 12).len() == s@.len()),
{
    let ghost has = occurs_at(s@, claims_from(c@, 7), p as int) && p + claims_from(c@, 7).len() == s@.len();
    let ghost c = c@;
    proof {
        if has {
            lemma_int_at(s@, c, 7, p as int, c.issued_at_epoch_s);
        }
    }
    let p = read_lit(s, p, ",\"issued_at_epoch_s\":")?;
    let (issued_at_epoch_s, p) = read_i64(s, p)?;
    proof {
        if has {
            lemma_int_at(s@, c, 8, p as int, c.expires_at_epoch_s);
        }
    }
    let p = read_lit(s, p, ",\"expires_at_epoch_s\":")?;
    let (expires_at_epoch_s, p) = read_i64(s, p)?;
    proof {
        if has {
            lemma_opt_text_at(s@, c, 9, p as int, c.delegated_by);
        }
    }
    let (delegated_by, p) = read_opt_text(s, p, ",\"delegated_by\":")?;
    proof {
        if has {
            lemma_opt_text_at(s@, c, 10, p as int, c.parent_mandate_id);
        }
    }
    let (parent_mandate_id, p) = read_opt_text(s, p, ",\"parent_mandate_id\":")?;
    let ghost cd: i64 = c.delegation_depth as i64;
    proof {
        if has {
            assert(signed_decimal(cd as int) == decimal(c.delegation_depth as nat));
            lemma_int_at(s@, c, 11, p as int, cd);
        }
    }
    let p = read_lit(s, p, ",\"delegation_depth\":")?;
    let (depth, p) = read_i64(s, p)?;
    if depth < 0 || depth > u32::MAX as i64 {
        return None;
    }
    Some((issued_at_epoch_s, expires_at_epoch_s, delegated_by, parent_mandate_id, depth as u32, p))
}

/// Reads the trailing members of claims at `p`, from the delegation chain
/// hash to the closing brace: where the members of `c` from the chain hash
/// on are written there up to the end of `s`, their values.
fn read_claims_tail(s: &[char], p: usize, c: Ghost<MandateClaims>) -> (r: Option<
    (Option<String>, Option<String>, Option<String>, Option<String>, Option<i64>, Option<i64>, Option<i64>, Option<String>),
>)
    requires
        p <= s@.len(),
    ensures
        occurs_at(s@, claims_from(c@, 12), p as int) && p + claims_from(c@, 12).len() == s@.len() ==> (r matches Some(
            (ch, iss, aud, sub, iat, exp, nbf, jti),
        ) && opt_view(ch) == opt_view(c@.delegation_chain_hash) && opt_view(iss) == opt_view(c@.iss)
            && opt_view(aud) == opt_view(c@.aud) && opt_view(sub) == opt_view(c@.sub) && iat == c@.iat
            && exp == c@.exp && nbf == c@.nbf && opt_view(jti) == opt_view(c@.jti)),
{
    let ghost has = occurs_at(s@, claims_from(c@, 12), p as int) && p + claims_from(c@, 12).len() == s@.len();
    let ghost c = c@;
    proof {
        if has {
            lemma_opt_text_at(s@, c, 12, p as int, c.delegation_chain_hash);
        }
    }
    let (delegation_chain_hash, p) = read_opt_text(s, p, ",\"delegation_chain_hash\":")?;
    proof {
        if has {
            lemma_opt_text_at(s@, c, 13, p as int, c.iss);
        }
    }
    let (iss, p) = read_opt_text(s, p, ",\"iss\":")?;
    proof {
        if has {
            lemma_opt_text_at(s@, c, 14, p as int, c.aud);
        }
    }
    let (aud, p) = read_opt_text(s, p, ",\"aud\":")?;
    proof {
        if has {
            lemma_opt_text_at(s@, c, 15, p as int, c.sub);
        }
    }
    let (sub, p) = read_opt_text(s, p, ",\"sub\":")?;
    proof {
        if has {
            lemma_opt_int_at(s@, c, 16, p as int, c.iat);
            match c.iat {
                Some(x) => {
                    assert(number_at(s@, p + ",\"iat\":"@.len(), x));
                },
                None => {},
            }
        }
    }
    let (iat, p) = read_opt_int(s, p, ",\"iat\":")?;
    proof {
        if has {
            lemma_opt_int_at(s@, c, 17, p as int, c.exp);
            match c.exp {
                Some(x) => {
                    assert(number_at(s@, p + ",\"exp\":"@.len(), x));
                },
                None => {},
            }
        }
    }
    let (exp, p) = read_opt_int(s, p, ",\"exp\":")?;
    proof {
        if has {
            lemma_opt_int_at(s@, c, 18, p as int, c.nbf);
            match c.nbf {
                Some(x) => {
                    assert(number_at(s@, p + ",\"nbf\":"@.len(), x));
                },
                None => {},
            }
        }
    }
    let (nbf, p) = read_opt_int(s, p, ",\"nbf\":")?;
    proof {
        if has {
            lemma_opt_text_at(s@, c, 19, p as int, c.jti);
        }
    }
    let (jti, p) = read_opt_text(s, p, ",\"jti\":")?;
    proof {
        if has {
            assert(claims_from(c, 20) == "}"@);
        }
    }
    let _end = read_lit(s, p, "}")?;
    Some((delegation_chain_hash, iss, aud, sub, iat, exp, nbf, jti))
}

/// Reads claims written in the order and form `claims_json` writes them:
/// where `s` is the JSON of some claims, it gives claims with that JSON.
fn read_claims(s: &[char]) -> (r: Option<MandateClaims>)
    ensures
        (exists|c: MandateClaims| claims_json(c) == s@) ==> (r matches Some(d) && claims_json(d) == s@),
{
    let ghost c = choose|c: MandateClaims| claims_json(c) == s@;
    let (mandate_id, principal_id, action, resource, scopes, intent_hash, state_hash, p) = read_claims_head(
        s,
        Ghost(c),
    )?;
    let (issued_at_epoch_s, expires_at_epoch_s, delegated_by, parent_mandate_id, delegation_depth, p) =
        read_claims_middle(s, p, Ghost(c))?;
    let (delegation_chain_hash, iss, aud, sub, iat, exp, nbf, jti) = read_claims_tail(s, p, Ghost(c))?;
    let d = MandateClaims {
        mandate_id,
        principal_id,
        action,
        resource,
        scopes,
        intent_hash,
        state_hash,
        issued_at_epoch_s,
        expires_at_epoch_s,
        delegated_by,
        parent_mandate_id,
        delegation_depth,
        delegation_chain_hash,
        iss,
        aud,
        sub,
        iat,
        exp,
        nbf,
        jti,
    };
    proof {
        if claims_json(c) == s@ {
            lemma_claims_json_views(d, c);
        }
    }
    Some(d)
}

/// The claims whose JSON is exactly `text`, as `claims_json` writes it;
/// `None` for any other text.
pub fn parse_claims(text: &str) -> (r: Option<MandateClaims>)
    ensures
        r matches Some(c) ==> claims_json(c) == text@,
        (exists|c: MandateClaims| claims_json(c) == text@) ==> r is Some,
{
    let chars = chars_of(text);
    match read_claims(chars.as_slice()) {
        Some(c) => {
            let again = claims_json_text(&c);
            let ac = chars_of(again.as_str());
            if crate::text::chars_eq(ac.as_slice(), chars.as_slice()) {
                Some(c)
            } else {
                None
            }
        },
        None => None,
    }
}


// ---------------------------------------------------------------------------
// Verifying
// ---------------------------------------------------------------------------

/// The `alg` and `kid` string members of a JSON header.
pub uninterp spec fn jwt_header_fields(data: Seq<u8>) -> Option<(Seq<char>, Option<Seq<char>>)>;

/// The texts of header fields as read.
pub open spec fn header_fields_view(r: Option<(String, Option<String>)>) -> Option<(Seq<char>, Option<Seq<char>>)> {
    match r {
        Some((a, k)) => Some((a@, opt_view(k))),
        None => None,
    }
}

/// `serde_json::from_slice::<serde_json::Value>` on the header bytes, then
/// its `alg` member as a string (required) and its `kid` member as a
/// string (when there is one). Claimed: a function of the bytes alone.
#[verifier::external_body]
fn parse_header_fields(data: &[u8]) -> (r: Option<(String, Option<String>)>)
    ensures
        match r {
            Some((a, k)) => jwt_header_fields(data@) == Some((a@, opt_view(k))),
            None => jwt_header_fields(data@) is None,
        },
        forall|a: Seq<char>, k: Seq<char>|
            plain_text(a) && plain_text(k) && data@ == #[trigger] encode_utf8(header_json(a, k))
                ==> header_fields_view(r) == Some((a, Some(k))),
{
    let v: serde_json::Value = serde_json::from_slice(data).ok()?;
    let alg = v.get("alg")?.as_str()?.to_string();
    let kid = v.get("kid").and_then(|k| k.as_str()).map(|x| x.to_string());
    Some((alg, kid))
}

/// Lemma: splitting text with a separator and then a separator-free part
/// adds that part as the last piece.
proof fn lemma_split_then(x: Seq<char>, sep: char, y: Seq<char>)
    requires
        !y.contains(sep),
    ensures
        split_on(x + seq![sep] + y, sep) == split_on(x, sep).push(y),
    decreases y.len(),
{
    let t = x + seq![sep] + y;
    if y.len() == 0 {
        assert(t =~= x.push(sep));
        assert(t.drop_last() =~= x);
        assert(y =~= Seq::<char>::empty());
        assert(split_on(t, sep) == split_on(t.drop_last(), sep).push(Seq::<char>::empty()));
    } else {
        let y0 = y.drop_last();
        assert(!y0.contains(sep)) by {
            if y0.contains(sep) {
                let i = choose|i: int| 0 <= i < y0.len() && y0[i] == sep;
                assert(y[i] == sep);
            }
        }
        lemma_split_then(x, sep, y0);
        assert(t.drop_last() =~= x + seq![sep] + y0);
        assert(t.last() == y.last());
        assert(y.last() != sep) by {
            assert(y[y.len() - 1] == y.last());
        }
        let rest = split_on(x, sep).push(y0);
        assert(split_on(t.drop_last(), sep) == rest);
        assert(rest.last() == y0);
        assert(y0.push(y.last()) =~= y);
        assert(split_on(t, sep) == rest.update(rest.len() - 1, rest.last().push(t.last())));
        assert(rest.update(rest.len() - 1, y) =~= split_on(x, sep).push(y));
    }
}

/// Lemma: a text without the separator splits into itself.
proof fn lemma_split_none(y: Seq<char>, sep: char)
    requires
        !y.contains(sep),
    ensures
        split_on(y, sep) == seq![y],
    decreases y.len(),
{
    if y.len() > 0 {
        let y0 = y.drop_last();
        assert(!y0.contains(sep)) by {
            if y0.contains(sep) {
                let i = choose|i: int| 0 <= i < y0.len() && y0[i] == sep;
                assert(y[i] == sep);
            }
        }
        lemma_split_none(y0, sep);
        assert(y.last() != sep) by {
            assert(y[y.len() - 1] == y.last());
        }
        assert(y0.push(y.last()) =~= y);
        assert(seq![y0].update(0, y0.push(y.last())) =~= seq![y]);
    } else {
        assert(y =~= Seq::<char>::empty());
    }
}

/// Lemma: URL-safe text holds no dot.
proof fn lemma_url_safe_no_dot(t: Seq<char>)
    requires
        url_safe_text(t),
    ensures
        !t.contains('.'),
{
    if t.contains('.') {
        let i = choose|i: int| 0 <= i < t.len() && t[i] == '.';
        assert(url_safe_char(t[i]));
    }
}

/// Lemma: three dot-free parts joined by dots split back into them.
proof fn lemma_split_three(a: Seq<char>, b: Seq<char>, d: Seq<char>)
    requires
        !a.contains('.'),
        !b.contains('.'),
        !d.contains('.'),
    ensures
        split_on(a + "."@ + b + "."@ + d, '.') == seq![a, b, d],
{
    reveal_strlit(".");
    assert("."@ =~= seq!['.']);
    lemma_split_none(a, '.');
    lemma_split_then(a, '.', b);
    lemma_split_then(a + seq!['.'] + b, '.', d);
    assert(seq![a].push(b).push(d) =~= seq![a, b, d]);
}

/// Lemma: a token the signer writes splits into its encoded header,
/// encoded claims and encoded signature.
proof fn lemma_signed_token_parts(s: LocalMandateSigner, c: MandateClaims, token: Seq<char>, g: Seq<char>)
    requires
        signed_token(s, c, token, g),
    ensures
        split_on(token, '.') == seq![
            base64url(encode_utf8(header_json(alg_name(s.spec_alg()), s.spec_active()))),
            base64url(encode_utf8(claims_json(c))),
            g,
        ],
{
    let hs = base64url(encode_utf8(header_json(alg_name(s.spec_alg()), s.spec_active())));
    let ps = base64url(encode_utf8(claims_json(c)));
    lemma_url_safe_no_dot(hs);
    lemma_url_safe_no_dot(ps);
    lemma_url_safe_no_dot(g);
    assert(token == hs + "."@ + ps + "."@ + g);
    lemma_split_three(hs, ps, g);
}

/// Lemma: lowercase hex is plain text.
proof fn lemma_hex_plain(data: Seq<u8>)
    ensures
        plain_text(hex_lower(data)),
    decreases data.len(),
{
    if data.len() > 0 {
        lemma_hex_plain(data.drop_last());
        let h = hex_lower(data.drop_last());
        let d1 = data.last() as nat / 16;
        let d2 = data.last() as nat % 16;
        let c1 = hex_digit_char(d1);
        let c2 = hex_digit_char(d2);
        assert(plain_char(c1) && plain_char(c2)) by {
            assert(d1 < 16 && d2 < 16);
        }
        let r = hex_lower(data);
        assert(r == h.push(c1).push(c2));
        assert forall|i: int| 0 <= i < r.len() implies #[trigger] plain_char(r[i]) by {
            if i < h.len() {
                assert(r[i] == h[i]);
            }
        }
    }
}

/// Lemma: algorithm names are plain text.
proof fn lemma_alg_name_plain(a: SigningAlgorithm)
    ensures
        plain_text(alg_name(a)),
        alg_name(a) == "ES256"@ <==> a == SigningAlgorithm::ES256,
        alg_name(a) == "HS256"@ <==> a == SigningAlgorithm::HS256,
{
    reveal_strlit("ES256");
    reveal_strlit("HS256");
    assert("ES256"@ != "HS256"@) by {
        assert("ES256"@[0] != "HS256"@[0]);
    }
}

/// Whether key `k` is a candidate for the key id named in the header.
pub open spec fn kid_matches(kid: Option<Seq<char>>, k: KeyMaterial) -> bool {
    match kid {
        Some(x) => k.spec_kid() == x,
        None => true,
    }
}

/// Whether the signature bytes verify the signing input under the named
/// algorithm with some candidate key: ES256 needs 64 bytes that verify
/// with the key's public key; HS256 (refused when signing with ES256
/// without the legacy allowance) needs the key's HMAC tag.
pub open spec fn signature_accepted(
    s: LocalMandateSigner,
    alg: Seq<char>,
    kid: Option<Seq<char>>,
    input: Seq<u8>,
    sig: Seq<u8>,
) -> bool {
    let keys = s.spec_keys();
    if alg == "ES256"@ {
        sig.len() == 64 && exists|i: int|
            0 <= i < keys.len() && kid_matches(kid, keys[i]) && #[trigger] es256_valid(
                keys[i].spec_scalar(),
                input,
                sig,
            )
    } else if alg == "HS256"@ {
        (s.spec_allow_legacy() || s.spec_alg() == SigningAlgorithm::HS256) && exists|i: int|
            0 <= i < keys.len() && kid_matches(kid, keys[i]) && #[trigger] hmac_sha256_tag(
                keys[i].spec_secret(),
                input,
            ) == sig
    } else {
        false
    }
}

/// The claims are valid at `now`: not expired (by `exp`, else the expiry
/// time), not issued or valid only in the future, delegation fields
/// consistent, and a chain hash present.
pub open spec fn claims_valid_at(c: MandateClaims, now: i64) -> bool {
    let effective_exp = match c.exp {
        Some(e) => e,
        None => c.expires_at_epoch_s,
    };
    &&& effective_exp >= now
    &&& (c.iat matches Some(iat) ==> iat <= now)
    &&& (c.nbf matches Some(nbf) ==> nbf <= now)
    &&& (c.delegation_depth == 0 ==> c.delegated_by is None)
    &&& (c.delegation_depth > 0 ==> c.delegated_by is Some)
    &&& c.delegation_chain_hash is Some
}

/// Whether the claims are valid at `now`.
pub fn claims_valid_for_epoch(claims: &MandateClaims, now_epoch: i64) -> (r: bool)
    ensures
        r == claims_valid_at(*claims, now_epoch),
{
    let effective_exp = match claims.exp {
        Some(e) => e,
        None => claims.expires_at_epoch_s,
    };
    if effective_exp < now_epoch {
        return false;
    }
    if let Some(iat) = claims.iat {
        if iat > now_epoch {
            return false;
        }
    }
    if let Some(nbf) = claims.nbf {
        if nbf > now_epoch {
            return false;
        }
    }
    if claims.delegation_depth == 0 && claims.delegated_by.is_some() {
        return false;
    }
    if claims.delegation_depth > 0 && claims.delegated_by.is_none() {
        return false;
    }
    claims.delegation_chain_hash.is_some()
}

/// The token has three parts, a readable header naming an algorithm, and
/// a signature over the first two parts that verifies.
pub open spec fn token_signature_ok(s: LocalMandateSigner, token: Seq<char>) -> bool {
    let parts = split_on(token, '.');
    parts.len() == 3 && match base64url_decoded(parts[0]) {
        Some(hb) => match jwt_header_fields(hb) {
            Some((alg, kid)) => match base64url_decoded(parts[2]) {
                Some(sig) => signature_accepted(s, alg, kid, encode_utf8(parts[0] + "."@ + parts[1]), sig),
                None => false,
            },
            None => false,
        },
        None => false,
    }
}

/// What `verify_at` answers for `token` at `now`: nothing without a valid
/// signature; a mandate only for a signed token whose payload is the JSON
/// of claims valid at `now`; and one for every such token.
pub open spec fn verified_at(s: LocalMandateSigner, token: Seq<char>, now: i64, r: Option<SignedMandate>) -> bool {
    let parts = split_on(token, '.');
    &&& !token_signature_ok(s, token) ==> r is None
    &&& r matches Some(m) ==> {
        &&& token_signature_ok(s, token)
        &&& base64url_decoded(parts[1]) matches Some(pb) && valid_utf8(pb) && claims_json(m.claims) == decode_utf8(pb)
        &&& claims_valid_at(m.claims, now)
        &&& m.token@ == token
        &&& m.signature@ == parts[2]
    }
    &&& token_accepted_at(s, token, now) ==> r is Some
}

/// The text of a token's payload: its second part, decoded from base64url,
/// when that gives UTF-8.
pub open spec fn token_claims_text(token: Seq<char>) -> Option<Seq<char>> {
    match base64url_decoded(split_on(token, '.')[1]) {
        Some(pb) => if valid_utf8(pb) {
            Some(decode_utf8(pb))
        } else {
            None
        },
        None => None,
    }
}

/// A token that the signer accepts at `now`: a valid signature, and a
/// payload that is the JSON of claims valid at `now`.
pub open spec fn token_accepted_at(s: LocalMandateSigner, token: Seq<char>, now: i64) -> bool {
    &&& token_signature_ok(s, token)
    &&& token_claims_text(token) matches Some(t)
    &&& exists|c: MandateClaims| #[trigger] claims_json(c) == t && claims_valid_at(c, now)
}

impl LocalMandateSigner {
    /// Lemma: the signature the signer writes over its own signing input
    /// is accepted for its algorithm and active key id.
    proof fn lemma_own_signature_accepted(&self, c: MandateClaims, token: Seq<char>, g: Seq<char>)
        requires
            self.well_formed(),
            signed_token(*self, c, token, g),
        ensures
            ({
                let input = signing_input(self.spec_alg(), self.spec_active(), c);
                let sig = signature_of(self.spec_alg(), self.active_key(), input);
                &&& g == base64url(sig)
                &&& signature_accepted(*self, alg_name(self.spec_alg()), Some(self.spec_active()), encode_utf8(input), sig)
            }),
    {
        lemma_alg_name_plain(self.spec_alg());
        lemma_key_index(self.keys@, self.active_kid@);
        let i = key_index(self.keys@, self.active_kid@).unwrap();
        assert(self.active_key() == self.keys@[i]);
        assert(kid_matches(Some(self.spec_active()), self.keys@[i]));
    }

    /// Whether the encoded signature verifies the signing input.
    fn verify_signature(&self, alg: &str, signing_input: &[u8], encoded_signature: &str, kid: &Option<String>) -> (r: bool)
        requires
            self.well_formed(),
        ensures
            r == (base64url_decoded(encoded_signature@) matches Some(sig) && signature_accepted(
                *self,
                alg@,
                opt_view(*kid),
                signing_input@,
                sig,
            )),
            forall|b: Seq<u8>| encoded_signature@ == #[trigger] base64url(b) ==> base64url_decoded(encoded_signature@)
                == Some(b),
    {
        let sig = match base64url_decode(encoded_signature) {
            Some(b) => b,
            None => return false,
        };
        assert forall|b: Seq<u8>| encoded_signature@ == #[trigger] base64url(b) implies sig@ == b by {}
        let a = chars_of(alg);
        let kid_chars: Option<Vec<char>> = match kid {
            Some(k) => Some(chars_of(k.as_str())),
            None => None,
        };
        proof {
            reveal_strlit("ES256");
            reveal_strlit("HS256");
        }
        assert("ES256"@ != "HS256"@) by {
            assert("ES256"@[0] != "HS256"@[0]);
        }
        let is_es = crate::text::eq_str(a.as_slice(), "ES256");
        let is_hs = crate::text::eq_str(a.as_slice(), "HS256");
        if is_es {
            if sig.len() != 64 {
                return false;
            }
        } else if is_hs {
            if !self.allow_legacy_hs256_verify && self.signing_alg != SigningAlgorithm::HS256 {
                return false;
            }
        } else {
            return false;
        }
        let mut i: usize = 0;
        while i < self.keys.len()
            invariant
                i <= self.keys@.len(),
                self.well_formed(),
                a@ == alg@,
                is_es == (alg@ == "ES256"@),
                is_hs == (alg@ == "HS256"@),
                is_es || is_hs,
                is_es ==> sig@.len() == 64,
                is_hs ==> (self.allow_legacy_hs256_verify || self.signing_alg == SigningAlgorithm::HS256),
                base64url_decoded(encoded_signature@) == Some(sig@),
                forall|b: Seq<u8>| encoded_signature@ == #[trigger] base64url(b) ==> sig@ == b,
                match kid_chars {
                    Some(kc) => opt_view(*kid) == Some(kc@),
                    None => kid is None,
                },
                forall|j: int| 0 <= j < i ==> !(kid_matches(opt_view(*kid), #[trigger] self.keys@[j]) && (if is_es {
                    es256_valid(self.keys@[j].spec_scalar(), signing_input@, sig@)
                } else {
                    hmac_sha256_tag(self.keys@[j].spec_secret(), signing_input@) == sig@
                })),
            decreases self.keys@.len() - i,
        {
            let key = &self.keys[i];
            let candidate = match &kid_chars {
                Some(kc) => {
                    let kk = chars_of(key.kid.as_str());
                    crate::text::chars_eq(kk.as_slice(), kc.as_slice())
                },
                None => true,
            };
            if candidate {
                let ok = if is_es {
                    proof {
                        assert(self.keys@[i as int].usable());
                    }
                    es256_verify(key.scalar.as_slice(), signing_input, sig.as_slice())
                } else {
                    let expected = hmac_sha256(key.secret.as_slice(), signing_input);
                    constant_time_eq(expected.as_slice(), sig.as_slice())
                };
                if ok {
                    proof {
                        assert(kid_matches(opt_view(*kid), self.keys@[i as int]));
                        assert(self.spec_keys() == self.keys@);
                        if is_es {
                            assert(es256_valid(self.keys@[i as int].spec_scalar(), signing_input@, sig@));
                            assert(alg@ == "ES256"@);
                        } else {
                            assert(hmac_sha256_tag(self.keys@[i as int].spec_secret(), signing_input@) == sig@);
                            assert(alg@ == "HS256"@);
                            assert(alg@ != "ES256"@);
                        }
                        assert(signature_accepted(*self, alg@, opt_view(*kid), signing_input@, sig@));
                    }
                    return true;
                }
            }
            i = i + 1;
        }
        false
    }

    /// Verifies a token at time `now`: three dot-separated parts, a header
    /// naming the algorithm (and key id), a signature that verifies, and
    /// claims that read back and are valid at `now`.
    pub fn verify_at(&self, token: &str, now: i64) -> (r: Option<SignedMandate>)
        requires
            self.well_formed(),
        ensures
            !token_signature_ok(*self, token@) ==> r is None,
            r matches Some(m) ==> {
                let parts = split_on(token@, '.');
                &&& token_signature_ok(*self, token@)
                &&& base64url_decoded(parts[1]) matches Some(pb) && valid_utf8(pb) && claims_json(m.claims)
                    == decode_utf8(pb)
                &&& claims_valid_at(m.claims, now)
                &&& m.token@ == token@
                &&& m.signature@ == parts[2]
            },
            token_accepted_at(*self, token@, now) ==> r is Some,
            forall|c: MandateClaims, g: Seq<char>|
                plain_text(self.spec_active()) && #[trigger] signed_token(*self, c, token@, g) && claims_valid_at(c, now)
                    ==> (r matches Some(m) && claims_json(m.claims) == claims_json(c)),
            forall|c: MandateClaims, g: Seq<char>|
                plain_text(self.spec_active()) && #[trigger] signed_token(*self, c, token@, g) && !claims_valid_at(c, now)
                    ==> r is None,
    {
        let ghost has = exists|c: MandateClaims, g: Seq<char>|
            plain_text(self.spec_active()) && #[trigger] signed_token(*self, c, token@, g) && claims_valid_at(c, now);
        let ghost cg = choose|c: MandateClaims, g: Seq<char>|
            plain_text(self.spec_active()) && #[trigger] signed_token(*self, c, token@, g) && claims_valid_at(c, now);
        let ghost c0 = cg.0;
        let ghost g0 = cg.1;
        let ghost hs = base64url(encode_utf8(header_json(alg_name(self.spec_alg()), self.spec_active())));
        let ghost ps = base64url(encode_utf8(claims_json(c0)));
        proof {
            if has {
                lemma_signed_token_parts(*self, c0, token@, g0);
            }
        }
        let tc = chars_of(token);
        let parts = split_chars(tc.as_slice(), '.');
        if parts.len() != 3 {
            return None;
        }
        let p0 = string_from_chars(parts[0].as_slice());
        let p1 = string_from_chars(parts[1].as_slice());
        let p2 = string_from_chars(parts[2].as_slice());
        let header_bytes = match base64url_decode(p0.as_str()) {
            Some(b) => b,
            None => return None,
        };
        proof {
            if has {
                lemma_alg_name_plain(self.spec_alg());
                assert(header_bytes@ == encode_utf8(header_json(alg_name(self.spec_alg()), self.spec_active())));
            }
        }
        let (alg, kid) = match parse_header_fields(header_bytes.as_slice()) {
            Some(x) => x,
            None => return None,
        };
        let mut input: Vec<char> = Vec::new();
        append_chars(&mut input, parts[0].as_slice());
        append_str(&mut input, ".");
        append_chars(&mut input, parts[1].as_slice());
        let input_text = string_from_chars(input.as_slice());
        proof {
            if has {
                assert(input_text@ == hs + "."@ + ps);
                assert(p2@ == g0);
                self.lemma_own_signature_accepted(c0, token@, g0);
            }
        }
        if !self.verify_signature(alg.as_str(), input_text.as_str().as_bytes(), p2.as_str(), &kid) {
            return None;
        }
        let payload = match base64url_decode(p1.as_str()) {
            Some(b) => b,
            None => return None,
        };
        proof {
            if has {
                vstd::utf8::encode_utf8_valid_utf8(claims_json(c0));
                vstd::utf8::encode_utf8_decode_utf8(claims_json(c0));
            }
        }
        let ghost payload_bytes = payload@;
        let text = match utf8_text(payload) {
            Some(t) => t,
            None => return None,
        };
        let claims = match parse_claims(text.as_str()) {
            Some(c) => c,
            None => return None,
        };
        proof {
            assert forall|c: MandateClaims| #[trigger] claims_json(c) == text@ implies claims_valid_at(claims, now)
                == claims_valid_at(c, now) by {
                law_claims_json_determines_claims(claims, c);
            }
        }
        if !claims_valid_for_epoch(&claims, now) {
            return None;
        }
        proof {
            assert forall|c: MandateClaims, g: Seq<char>|
                plain_text(self.spec_active()) && #[trigger] signed_token(*self, c, token@, g)
                    implies claims_json(claims) == claims_json(c) && claims_valid_at(claims, now) == claims_valid_at(c, now) by {
                lemma_signed_token_parts(*self, c, token@, g);
                assert(p1@ == base64url(encode_utf8(claims_json(c))));
                vstd::utf8::encode_utf8_decode_utf8(claims_json(c));
                law_claims_json_determines_claims(claims, c);
            }
        }
        Some(SignedMandate { token: owned(token), claims, signature: p2 })
    }

    /// Verifies a token at the current time.
    pub fn verify(&self, token: &str) -> (r: Option<SignedMandate>)
        requires
            self.well_formed(),
        ensures
            r matches Some(m) ==> m.token@ == token@ && exists|now: i64| #[trigger] claims_valid_at(m.claims, now),
            !token_signature_ok(*self, token@) ==> r is None,
            exists|now: i64| #[trigger] verified_at(*self, token@, now, r),
    {
        let now = crate::ledger::now_epoch_seconds();
        let r = self.verify_at(token, now);
        assert(verified_at(*self, token@, now, r));
        r
    }
}

/// A root mandate issued by the signer carries a consistent delegation
/// chain: verifying it without a parent succeeds.
pub proof fn law_issued_root_verifies(
    s: LocalMandateSigner,
    request: ActionRequest,
    now: i64,
    c: MandateClaims,
)
    requires
        issued_claims(s, request, None, now, c),
    ensures
        delegation_ok(c, None),
{
    reveal(issued_claims);
}

/// A mandate issued under a parent carries a consistent delegation chain:
/// verifying it against that parent succeeds, and it is one level deeper.
pub proof fn law_issued_child_verifies(
    s: LocalMandateSigner,
    request: ActionRequest,
    parent: MandateClaims,
    now: i64,
    c: MandateClaims,
)
    requires
        issued_claims(s, request, Some(parent), now, c),
    ensures
        delegation_ok(c, Some(parent)),
        c.delegation_depth == parent.delegation_depth + 1,
        opt_view(c.parent_mandate_id) == Some(parent.mandate_id@),
{
    reveal(issued_claims);
}

} // verus!
