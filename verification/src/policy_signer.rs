//! Policy signatures with Ed25519. A signed policy file is a JSON object
//! with a `policy` member (the policy itself) and a `signature` member (the
//! standard base64 encoding of the Ed25519 signature of the policy's
//! compact JSON text). Keys are held as their 32 raw bytes.
use vstd::prelude::*;

use crate::ledger::{hex_encode, hex_lower, sha256, sha256_digest};
use crate::policy::opt_view;
use crate::text::{append_str, chars_of, decimal, decimal_chars, owned, string_from_chars};

verus! {

broadcast use vstd::string::group_string_axioms;

// ---------------------------------------------------------------------------
// Errors
// ---------------------------------------------------------------------------

/// Why signing or verifying a policy failed.
#[derive(Debug)]
pub enum PolicySignatureError {
    InvalidSignatureFormat(String),
    InvalidPublicKey(String),
    VerificationFailed,
    MissingSignature,
    MissingPolicyContent,
    JsonError(String),
}

/// A policy signature error as a value.
pub enum SignatureErrorView {
    InvalidSignatureFormat(Seq<char>),
    InvalidPublicKey(Seq<char>),
    VerificationFailed,
    MissingSignature,
    MissingPolicyContent,
    JsonError(Seq<char>),
}

impl View for PolicySignatureError {
    type V = SignatureErrorView;

    open spec fn view(&self) -> SignatureErrorView {
        match self {
            PolicySignatureError::InvalidSignatureFormat(m) => SignatureErrorView::InvalidSignatureFormat(m@),
            PolicySignatureError::InvalidPublicKey(m) => SignatureErrorView::InvalidPublicKey(m@),
            PolicySignatureError::VerificationFailed => SignatureErrorView::VerificationFailed,
            PolicySignatureError::MissingSignature => SignatureErrorView::MissingSignature,
            PolicySignatureError::MissingPolicyContent => SignatureErrorView::MissingPolicyContent,
            PolicySignatureError::JsonError(m) => SignatureErrorView::JsonError(m@),
        }
    }
}

/// The message of a policy signature error.
pub open spec fn signature_error_text(e: SignatureErrorView) -> Seq<char> {
    match e {
        SignatureErrorView::InvalidSignatureFormat(m) => "Invalid signature format: "@ + m,
        SignatureErrorView::InvalidPublicKey(m) => "Invalid public key: "@ + m,
        SignatureErrorView::VerificationFailed => "Signature verification failed"@,
        SignatureErrorView::MissingSignature => "Missing signature in signed policy"@,
        SignatureErrorView::MissingPolicyContent => "Missing policy content in signed policy"@,
        SignatureErrorView::JsonError(m) => "JSON serialization error: "@ + m,
    }
}

/// A fixed text followed by a detail.
fn with_detail(prefix: &str, detail: &String) -> (r: String)
    ensures
        r@ == prefix@ + detail@,
{
    let mut m: Vec<char> = Vec::new();
    append_str(&mut m, prefix);
    append_str(&mut m, detail.as_str());
    string_from_chars(m.as_slice())
}

impl PolicySignatureError {
    /// The error's message.
    pub fn to_string(&self) -> (r: String)
        ensures
            r@ == signature_error_text(self@),
    {
        match self {
            PolicySignatureError::InvalidSignatureFormat(m) => with_detail("Invalid signature format: ", m),
            PolicySignatureError::InvalidPublicKey(m) => with_detail("Invalid public key: ", m),
            PolicySignatureError::VerificationFailed => owned("Signature verification failed"),
            PolicySignatureError::MissingSignature => owned("Missing signature in signed policy"),
            PolicySignatureError::MissingPolicyContent => owned("Missing policy content in signed policy"),
            PolicySignatureError::JsonError(m) => with_detail("JSON serialization error: ", m),
        }
    }
}

/// An error whose view is `e`.
pub open spec fn refused_with<T>(r: Result<T, PolicySignatureError>, e: SignatureErrorView) -> bool {
    r matches Err(x) && x@ == e
}

// ---------------------------------------------------------------------------
// Outside primitives
// ---------------------------------------------------------------------------

/// The compact JSON text of the JSON value in `text`, or the parser's
/// message when `text` holds none.
pub uninterp spec fn json_compact(text: Seq<char>) -> Result<Seq<char>, Seq<char>>;

/// `serde_json::from_str::<serde_json::Value>` then `serde_json::to_string`:
/// the compact JSON text of the value (keys in the map's order), or the
/// parse error's message. Claimed: a function of the text alone.
#[verifier::external_body]
fn json_compact_text(text: &str) -> (r: Result<String, String>)
    ensures
        match r {
            Ok(c) => json_compact(text@) == Ok::<Seq<char>, Seq<char>>(c@),
            Err(m) => json_compact(text@) == Err::<Seq<char>, Seq<char>>(m@),
        },
{
    let v: serde_json::Value = serde_json::from_str(text).map_err(|e| e.to_string())?;
    serde_json::to_string(&v).map_err(|e| e.to_string())
}

/// The members of a signed policy file: the compact text of its `policy`
/// member, and its `signature` member read as a string (or the message
/// saying why it is not one); the parser's message when the text is not
/// JSON.
pub uninterp spec fn signed_policy_json(content: Seq<char>) -> Result<
    (Option<Seq<char>>, Option<Result<Seq<char>, Seq<char>>>),
    Seq<char>,
>;

/// The view of an optional string-or-message.
pub open spec fn opt_result_view(o: Option<Result<String, String>>) -> Option<Result<Seq<char>, Seq<char>>> {
    match o {
        Some(Ok(s)) => Some(Ok(s@)),
        Some(Err(m)) => Some(Err(m@)),
        None => None,
    }
}

/// `serde_json::from_str::<serde_json::Value>`, then its `policy` member
/// (written back with `to_string`) and its `signature` member read with
/// `serde_json::from_value::<String>`. Claimed: a function of the text
/// alone.
#[verifier::external_body]
fn read_signed_policy_json(content: &str) -> (r: Result<(Option<String>, Option<Result<String, String>>), String>)
    ensures
        match r {
            Ok((p, s)) => signed_policy_json(content@) == Ok::<_, Seq<char>>((opt_view(p), opt_result_view(s))),
            Err(m) => signed_policy_json(content@) == Err::<(Option<Seq<char>>, Option<Result<Seq<char>, Seq<char>>>), _>(m@),
        },
{
    let v: serde_json::Value = serde_json::from_str(content).map_err(|e| e.to_string())?;
    let policy = v.get("policy").map(|p| p.to_string());
    let sig = v.get("signature").map(|s| serde_json::from_value::<String>(s.clone()).map_err(|e| e.to_string()));
    Ok((policy, sig))
}

/// The standard base64 encoding of `data`, with padding.
pub uninterp spec fn base64_standard(data: Seq<u8>) -> Seq<char>;

/// `base64::engine::general_purpose::STANDARD.encode`. Claimed: a function
/// of the bytes alone.
#[verifier::external_body]
fn base64_encode(data: &[u8]) -> (r: String)
    ensures
        r@ == base64_standard(data@),
{
    base64::Engine::encode(&base64::engine::general_purpose::STANDARD, data)
}

/// The decoding gave back exactly `b`.
pub open spec fn decoded_as(r: Result<Vec<u8>, String>, b: Seq<u8>) -> bool {
    r matches Ok(x) && x@ == b
}

/// The bytes of a standard base64 text, or the decoder's message.
pub uninterp spec fn base64_standard_decoding(text: Seq<char>) -> Result<Seq<u8>, Seq<char>>;

/// `base64::engine::general_purpose::STANDARD.decode`, the error written
/// with `to_string`. Claimed: a function of the text alone, and decoding
/// the encoding of some bytes gives those bytes back.
#[verifier::external_body]
fn base64_decode(text: &str) -> (r: Result<Vec<u8>, String>)
    ensures
        match r {
            Ok(b) => base64_standard_decoding(text@) == Ok::<Seq<u8>, Seq<char>>(b@),
            Err(m) => base64_standard_decoding(text@) == Err::<Seq<u8>, Seq<char>>(m@),
        },
        forall|b: Seq<u8>| text@ == #[trigger] base64_standard(b) ==> decoded_as(r, b),
{
    base64::Engine::decode(&base64::engine::general_purpose::STANDARD, text).map_err(|e| e.to_string())
}

/// The bytes of a hex text, or the decoder's message.
pub uninterp spec fn hex_decoding(text: Seq<char>) -> Result<Seq<u8>, Seq<char>>;

/// `hex::decode`, the error written with `to_string`. Claimed: a function
/// of the text alone.
#[verifier::external_body]
fn hex_decode(text: &str) -> (r: Result<Vec<u8>, String>)
    ensures
        match r {
            Ok(b) => hex_decoding(text@) == Ok::<Seq<u8>, Seq<char>>(b@),
            Err(m) => hex_decoding(text@) == Err::<Seq<u8>, Seq<char>>(m@),
        },
{
    hex::decode(text).map_err(|e| e.to_string())
}

/// The Ed25519 public key of a 32-byte secret key.
pub uninterp spec fn ed25519_public_of(secret: Seq<u8>) -> Seq<u8>;

/// The Ed25519 signature of `msg` under a 32-byte secret key.
pub uninterp spec fn ed25519_signature(secret: Seq<u8>, msg: Seq<u8>) -> Seq<u8>;

/// Whether `sig` is a valid Ed25519 signature of `msg` under `public`.
pub uninterp spec fn ed25519_accepts(public: Seq<u8>, msg: Seq<u8>, sig: Seq<u8>) -> bool;

/// Why 32 bytes are not an Ed25519 public key (the point does not
/// decompress), if they are not.
pub uninterp spec fn ed25519_key_refusal(public: Seq<u8>) -> Option<Seq<char>>;

/// `ed25519_dalek::SigningKey::from_bytes(..).verifying_key().to_bytes()`:
/// the public key of a secret key. Claimed: a function of the secret, 32
/// bytes that are a valid public key.
#[verifier::external_body]
fn ed25519_public_key(secret: &[u8]) -> (r: Vec<u8>)
    requires
        secret@.len() == 32,
    ensures
        r@ == ed25519_public_of(secret@),
        r@.len() == 32,
        ed25519_key_refusal(r@) is None,
{
    let bytes: [u8; 32] = secret.try_into().unwrap();
    ed25519_dalek::SigningKey::from_bytes(&bytes).verifying_key().to_bytes().to_vec()
}

/// `ed25519_dalek::SigningKey::sign` (deterministic Ed25519) with the key
/// of a 32-byte secret, as `Signature::to_bytes`: 64 bytes, a function of
/// the secret and the message.
#[verifier::external_body]
fn ed25519_sign(secret: &[u8], msg: &[u8]) -> (r: Vec<u8>)
    requires
        secret@.len() == 32,
    ensures
        r@ == ed25519_signature(secret@, msg@),
        r@.len() == 64,
{
    let bytes: [u8; 32] = secret.try_into().unwrap();
    ed25519_dalek::Signer::sign(&ed25519_dalek::SigningKey::from_bytes(&bytes), msg).to_bytes().to_vec()
}

/// `ed25519_dalek::VerifyingKey::from_bytes`: `None` when the bytes are a
/// public key, else the error written with `to_string`.
#[verifier::external_body]
fn ed25519_check_key(public: &[u8]) -> (r: Option<String>)
    requires
        public@.len() == 32,
    ensures
        opt_view(r) == ed25519_key_refusal(public@),
{
    let bytes: [u8; 32] = public.try_into().unwrap();
    ed25519_dalek::VerifyingKey::from_bytes(&bytes).err().map(|e| e.to_string())
}

/// `ed25519_dalek::Verifier::verify` with a public key and a 64-byte
/// signature. Claimed: a function of its arguments, and a signature made
/// with a secret key is accepted under that key's public key.
#[verifier::external_body]
fn ed25519_verify(public: &[u8], msg: &[u8], sig: &[u8]) -> (r: bool)
    requires
        public@.len() == 32,
        ed25519_key_refusal(public@) is None,
        sig@.len() == 64,
    ensures
        r == ed25519_accepts(public@, msg@, sig@),
        forall|s: Seq<u8>|
            s.len() == 32 && public@ == #[trigger] ed25519_public_of(s) && sig@ == ed25519_signature(s, msg@) ==> r,
{
    let pk: [u8; 32] = public.try_into().unwrap();
    let sg: [u8; 64] = sig.try_into().unwrap();
    let key = ed25519_dalek::VerifyingKey::from_bytes(&pk).unwrap();
    ed25519_dalek::Verifier::verify(&key, msg, &ed25519_dalek::Signature::from_bytes(&sg)).is_ok()
}

/// `ed25519_dalek::SigningKey::generate(&mut rand::thread_rng()).to_bytes()`:
/// a fresh random 32-byte secret key.
#[verifier::external_body]
fn random_ed25519_secret() -> (r: Vec<u8>)
    ensures
        r@.len() == 32,
{
    ed25519_dalek::SigningKey::generate(&mut rand::thread_rng()).to_bytes().to_vec()
}

// ---------------------------------------------------------------------------
// Signing and verifying
// ---------------------------------------------------------------------------

/// The text a policy's signature is made over: its compact JSON text.
pub fn canonicalize_json(policy_json: &str) -> (r: Result<String, PolicySignatureError>)
    ensures
        match json_compact(policy_json@) {
            Ok(c) => r matches Ok(x) && x@ == c,
            Err(m) => refused_with(r, SignatureErrorView::JsonError(m)),
        },
{
    match json_compact_text(policy_json) {
        Ok(c) => Ok(c),
        Err(m) => Err(PolicySignatureError::JsonError(m)),
    }
}

/// A signed policy: the policy's JSON text and the base64 signature of its
/// compact text.
#[derive(Debug, Clone)]
pub struct SignedPolicy {
    pub policy: String,
    pub signature: String,
}

/// An Ed25519 public key: 32 bytes that decompress to a curve point.
#[derive(Debug, Clone)]
pub struct PublicKey {
    bytes: Vec<u8>,
}

impl PublicKey {
    /// The key's bytes.
    pub closed spec fn spec_bytes(&self) -> Seq<u8> {
        self.bytes@
    }

    /// 32 bytes that are a public key.
    pub closed spec fn wf(&self) -> bool {
        self.bytes@.len() == 32 && ed25519_key_refusal(self.bytes@) is None
    }

    /// The public key of a 32-byte secret key.
    pub fn from_secret(secret: &[u8]) -> (r: Self)
        requires
            secret@.len() == 32,
        ensures
            r.wf(),
            r.spec_bytes() == ed25519_public_of(secret@),
    {
        PublicKey { bytes: ed25519_public_key(secret) }
    }

    /// The key's bytes.
    pub fn to_bytes(&self) -> (r: Vec<u8>)
        ensures
            r@ == self.spec_bytes(),
    {
        let mut out: Vec<u8> = Vec::new();
        let mut i: usize = 0;
        while i < self.bytes.len()
            invariant
                i <= self.bytes@.len(),
                out@ =~= self.bytes@.subrange(0, i as int),
            decreases self.bytes@.len() - i,
        {
            out.push(self.bytes[i]);
            i = i + 1;
        }
        assert(self.bytes@.subrange(0, self.bytes@.len() as int) =~= self.bytes@);
        out
    }
}

/// The UTF-8 bytes of a text.
pub open spec fn utf8(s: Seq<char>) -> Seq<u8> {
    vstd::utf8::encode_utf8(s)
}

/// The signature text of a policy under a secret key, when its JSON text
/// parses.
pub open spec fn policy_signature_text(secret: Seq<u8>, policy_json: Seq<char>) -> Option<Seq<char>> {
    match json_compact(policy_json) {
        Ok(c) => Some(base64_standard(ed25519_signature(secret, utf8(c)))),
        Err(_) => None,
    }
}

/// Signs a policy (its JSON text) with a 32-byte secret key: the signature
/// is made over the compact JSON text and written in standard base64.
pub fn sign_policy(policy_json: &str, signing_key: &[u8]) -> (r: Result<SignedPolicy, PolicySignatureError>)
    requires
        signing_key@.len() == 32,
    ensures
        match json_compact(policy_json@) {
            Ok(c) => r matches Ok(sp) && sp.policy@ == policy_json@ && Some(sp.signature@) == policy_signature_text(
                signing_key@,
                policy_json@,
            ) && ed25519_signature(signing_key@, utf8(c)).len() == 64,
            Err(m) => refused_with(r, SignatureErrorView::JsonError(m)),
        },
{
    let canonical = canonicalize_json(policy_json)?;
    let sig = ed25519_sign(signing_key, canonical.as_str().as_bytes());
    Ok(SignedPolicy { policy: owned(policy_json), signature: base64_encode(sig.as_slice()) })
}

/// Why a signed policy does not verify under `public`, if it does not: its
/// policy text must parse, its signature decode to 64 bytes, and those
/// bytes be a valid signature of the compact text.
pub open spec fn verification_refusal(policy: Seq<char>, signature: Seq<char>, public: Seq<u8>) -> Option<SignatureErrorView> {
    match json_compact(policy) {
        Err(m) => Some(SignatureErrorView::JsonError(m)),
        Ok(c) => match base64_standard_decoding(signature) {
            Err(m) => Some(SignatureErrorView::InvalidSignatureFormat(m)),
            Ok(sig) => if sig.len() != 64 {
                Some(SignatureErrorView::InvalidSignatureFormat("signature error"@))
            } else if !ed25519_accepts(public, utf8(c), sig) {
                Some(SignatureErrorView::VerificationFailed)
            } else {
                None
            },
        },
    }
}

/// Verifies a signed policy against a public key.
pub fn verify_policy_signature(signed_policy: &SignedPolicy, public_key: &PublicKey) -> (r: Result<(), PolicySignatureError>)
    requires
        public_key.wf(),
    ensures
        match verification_refusal(signed_policy.policy@, signed_policy.signature@, public_key.spec_bytes()) {
            Some(e) => refused_with(r, e),
            None => r is Ok,
        },
        forall|secret: Seq<u8>|
            secret.len() == 32 && public_key.spec_bytes() == #[trigger] ed25519_public_of(secret) && Some(
                signed_policy.signature@,
            ) == policy_signature_text(secret, signed_policy.policy@) && (json_compact(signed_policy.policy@) matches Ok(
                c,
            ) && ed25519_signature(secret, utf8(c)).len() == 64) ==> r is Ok,
{
    let canonical = canonicalize_json(signed_policy.policy.as_str())?;
    let sig = match base64_decode(signed_policy.signature.as_str()) {
        Ok(b) => b,
        Err(m) => return Err(PolicySignatureError::InvalidSignatureFormat(m)),
    };
    if sig.len() != 64 {
        return Err(PolicySignatureError::InvalidSignatureFormat(owned("signature error")));
    }
    if ed25519_verify(public_key.bytes.as_slice(), canonical.as_str().as_bytes(), sig.as_slice()) {
        Ok(())
    } else {
        Err(PolicySignatureError::VerificationFailed)
    }
}

// ---------------------------------------------------------------------------
// Keys and files
// ---------------------------------------------------------------------------

/// Why a hex text is not a public key, if it is not.
pub open spec fn public_key_refusal(text: Seq<char>) -> Option<Seq<char>> {
    match hex_decoding(text) {
        Err(m) => Some("invalid hex: "@ + m),
        Ok(b) => if b.len() != 32 {
            Some("expected 32 bytes, got "@ + decimal(b.len()))
        } else {
            ed25519_key_refusal(b)
        },
    }
}

/// Parses a public key from its hex text.
pub fn parse_public_key_hex(hex_str: &str) -> (r: Result<PublicKey, PolicySignatureError>)
    ensures
        match public_key_refusal(hex_str@) {
            Some(m) => refused_with(r, SignatureErrorView::InvalidPublicKey(m)),
            None => r matches Ok(k) && k.wf() && hex_decoding(hex_str@) == Ok::<Seq<u8>, Seq<char>>(k.spec_bytes()),
        },
{
    let bytes = match hex_decode(hex_str) {
        Ok(b) => b,
        Err(m) => return Err(PolicySignatureError::InvalidPublicKey(with_detail("invalid hex: ", &m))),
    };
    if bytes.len() != 32 {
        let n = decimal_chars(bytes.len() as u64);
        let mut m: Vec<char> = Vec::new();
        append_str(&mut m, "expected 32 bytes, got ");
        crate::text::append_chars(&mut m, n.as_slice());
        return Err(PolicySignatureError::InvalidPublicKey(string_from_chars(m.as_slice())));
    }
    match ed25519_check_key(bytes.as_slice()) {
        Some(m) => Err(PolicySignatureError::InvalidPublicKey(m)),
        None => Ok(PublicKey { bytes }),
    }
}

/// What a signed policy file gives: a missing signature, a missing policy,
/// a signature that is not a string, or text that is not JSON refuse it.
pub open spec fn signed_policy_refusal(content: Seq<char>) -> Option<SignatureErrorView> {
    match signed_policy_json(content) {
        Err(m) => Some(SignatureErrorView::JsonError(m)),
        Ok((p, sig)) => if sig is None {
            Some(SignatureErrorView::MissingSignature)
        } else if p is None {
            Some(SignatureErrorView::MissingPolicyContent)
        } else {
            match sig {
                Some(Err(m)) => Some(SignatureErrorView::JsonError(m)),
                _ => None,
            }
        },
    }
}

/// Parses a signed policy file.
pub fn parse_signed_policy(content: &str) -> (r: Result<SignedPolicy, PolicySignatureError>)
    ensures
        match signed_policy_refusal(content@) {
            Some(e) => refused_with(r, e),
            None => r matches Ok(sp) && signed_policy_json(content@) == Ok::<_, Seq<char>>(
                (Some(sp.policy@), Some(Ok::<Seq<char>, Seq<char>>(sp.signature@))),
            ),
        },
{
    let (policy, sig) = match read_signed_policy_json(content) {
        Ok(x) => x,
        Err(m) => return Err(PolicySignatureError::JsonError(m)),
    };
    let sig = match sig {
        Some(s) => s,
        None => return Err(PolicySignatureError::MissingSignature),
    };
    let policy = match policy {
        Some(p) => p,
        None => return Err(PolicySignatureError::MissingPolicyContent),
    };
    match sig {
        Ok(signature) => Ok(SignedPolicy { policy, signature }),
        Err(m) => Err(PolicySignatureError::JsonError(m)),
    }
}

/// Whether the text is JSON with both a `policy` and a `signature` member.
pub fn is_signed_policy(content: &str) -> (r: bool)
    ensures
        r == (signed_policy_json(content@) matches Ok((p, s)) && p is Some && s is Some),
{
    match read_signed_policy_json(content) {
        Ok((p, s)) => p.is_some() && s.is_some(),
        Err(_) => false,
    }
}

/// A fresh key pair: the hex texts of a random secret key and of its
/// public key.
pub fn generate_keypair() -> (r: (String, String))
    ensures
        exists|secret: Seq<u8>|
            secret.len() == 32 && r.0@ == hex_lower(secret) && r.1@ == hex_lower(#[trigger] ed25519_public_of(secret)),
{
    let secret = random_ed25519_secret();
    let public = ed25519_public_key(secret.as_slice());
    (hex_encode(secret.as_slice()), hex_encode(public.as_slice()))
}

/// The fingerprint of a public key: the hex text of the first four bytes
/// of its SHA-256 digest.
pub fn public_key_fingerprint(public_key: &PublicKey) -> (r: String)
    ensures
        r@ == hex_lower(sha256_digest(public_key.spec_bytes()).take(4)),
{
    let digest = sha256(public_key.bytes.as_slice());
    let mut head: Vec<u8> = Vec::new();
    let mut i: usize = 0;
    while i < 4
        invariant
            i <= 4,
            digest@.len() == 32,
            head@ =~= digest@.take(i as int),
        decreases 4 - i,
    {
        head.push(digest[i]);
        i = i + 1;
    }
    hex_encode(head.as_slice())
}

} // verus!
