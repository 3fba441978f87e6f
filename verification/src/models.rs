//! Core data models: policy rules, authorization requests and decisions,
//! mandates, proof events, delegation and execution messages.
use vstd::prelude::*;

use std::collections::HashMap;

use crate::text::{append_chars, append_str, decimal, decimal_chars, owned, string_from_chars};

verus! {

broadcast use vstd::string::group_string_axioms;

/// Policy effect: allow or deny.
#[derive(Debug, Clone, Copy, PartialEq, Eq, Structural)]
pub enum PolicyEffect {
    Allow,
    Deny,
}

/// Verification signal status.
#[derive(Debug, Clone, Copy, PartialEq, Eq, Structural)]
pub enum VerificationStatus {
    Passed,
    Failed,
    Skipped,
}

/// Authorization decision reason.
#[derive(Debug, Clone, Copy, PartialEq, Eq, Structural)]
pub enum AuthorizationReason {
    Allowed,
    NoMatchingPolicy,
    ExplicitDeny,
    MissingRequiredVerification,
    MaxDelegationDepthExceeded,
    InvalidMandate,
    RateLimitExceeded,
}

/// The snake_case name under which a reason is displayed and serialized.
pub open spec fn reason_text(r: AuthorizationReason) -> Seq<char> {
    match r {
        AuthorizationReason::Allowed => "allowed"@,
        AuthorizationReason::NoMatchingPolicy => "no_matching_policy"@,
        AuthorizationReason::ExplicitDeny => "explicit_deny"@,
        AuthorizationReason::MissingRequiredVerification => "missing_required_verification"@,
        AuthorizationReason::MaxDelegationDepthExceeded => "max_delegation_depth_exceeded"@,
        AuthorizationReason::InvalidMandate => "invalid_mandate"@,
        AuthorizationReason::RateLimitExceeded => "rate_limit_exceeded"@,
    }
}

impl AuthorizationReason {
    /// The displayed name of the reason.
    pub fn to_string(&self) -> (s: String)
        ensures
            s@ == reason_text(*self),
    {
        match self {
            AuthorizationReason::Allowed => owned("allowed"),
            AuthorizationReason::NoMatchingPolicy => owned("no_matching_policy"),
            AuthorizationReason::ExplicitDeny => owned("explicit_deny"),
            AuthorizationReason::MissingRequiredVerification => owned(
                "missing_required_verification",
            ),
            AuthorizationReason::MaxDelegationDepthExceeded => owned(
                "max_delegation_depth_exceeded",
            ),
            AuthorizationReason::InvalidMandate => owned("invalid_mandate"),
            AuthorizationReason::RateLimitExceeded => owned("rate_limit_exceeded"),
        }
    }
}

/// Principal reference.
#[derive(Debug, Clone)]
pub struct PrincipalRef {
    pub principal_id: String,
    pub tenant_id: Option<String>,
    pub session_id: Option<String>,
}

impl PrincipalRef {
    /// A principal with no tenant and no session.
    pub fn new(principal_id: &str) -> (r: Self)
        ensures
            r.principal_id@ == principal_id@,
            r.tenant_id is None,
            r.session_id is None,
    {
        PrincipalRef { principal_id: owned(principal_id), tenant_id: None, session_id: None }
    }
}

/// A single scope: an action and a resource pattern.
#[derive(Debug, Clone)]
pub struct ScopeSpec {
    pub action: String,
    pub resource: String,
}

/// The (action, resource) text of a scope.
pub open spec fn scope_view(s: ScopeSpec) -> (Seq<char>, Seq<char>) {
    (s.action@, s.resource@)
}

/// The (action, resource) texts of a list of scopes.
pub open spec fn scopes_view(v: Seq<ScopeSpec>) -> Seq<(Seq<char>, Seq<char>)> {
    v.map_values(|s: ScopeSpec| scope_view(s))
}

impl ScopeSpec {
    /// A scope for `action` on `resource`.
    pub fn new(action: &str, resource: &str) -> (r: Self)
        ensures
            r.action@ == action@,
            r.resource@ == resource@,
    {
        ScopeSpec { action: owned(action), resource: owned(resource) }
    }

    /// A copy of the scope.
    pub fn duplicate(&self) -> (r: Self)
        ensures
            scope_view(r) == scope_view(*self),
    {
        ScopeSpec { action: self.action.clone(), resource: self.resource.clone() }
    }
}

/// Copies a list of scopes.
pub fn clone_scopes(v: &Vec<ScopeSpec>) -> (r: Vec<ScopeSpec>)
    ensures
        scopes_view(r@) == scopes_view(v@),
{
    let mut r: Vec<ScopeSpec> = Vec::new();
    let mut i: usize = 0;
    while i < v.len()
        invariant
            i <= v.len(),
            r@.len() == i,
            forall|k: int| 0 <= k < i ==> scope_view(#[trigger] r@[k]) == scope_view(v@[k]),
        decreases v.len() - i,
    {
        r.push(v[i].duplicate());
        i = i + 1;
    }
    assert(scopes_view(r@) =~= scopes_view(v@));
    r
}

/// The scopes a primary (action, resource) pair with an optional scope list
/// stands for: the list when it is non-empty, else the pair alone.
pub open spec fn effective_scopes(
    action: Seq<char>,
    resource: Seq<char>,
    scopes: Seq<ScopeSpec>,
) -> Seq<(Seq<char>, Seq<char>)> {
    if scopes.len() == 0 {
        seq![(action, resource)]
    } else {
        scopes_view(scopes)
    }
}

/// Action specification: a single scope or several.
#[derive(Debug, Clone)]
pub struct ActionSpec {
    pub action: String,
    pub resource: String,
    pub intent: String,
    pub scopes: Vec<ScopeSpec>,
}

impl ActionSpec {
    /// A single-scope action specification.
    pub fn single(action: &str, resource: &str, intent: &str) -> (r: Self)
        ensures
            r.action@ == action@,
            r.resource@ == resource@,
            r.intent@ == intent@,
            r.scopes@.len() == 0,
    {
        ActionSpec {
            action: owned(action),
            resource: owned(resource),
            intent: owned(intent),
            scopes: Vec::new(),
        }
    }

    /// A multi-scope action specification; its primary action and resource
    /// are those of the first scope (empty when there is none).
    pub fn multi(scopes: Vec<ScopeSpec>, intent: &str) -> (r: Self)
        ensures
            scopes_view(r.scopes@) == scopes_view(scopes@),
            r.intent@ == intent@,
            scopes@.len() > 0 ==> r.action@ == scopes@[0].action@ && r.resource@
                == scopes@[0].resource@,
            scopes@.len() == 0 ==> r.action@.len() == 0 && r.resource@.len() == 0,
    {
        let (primary_action, primary_resource) = if scopes.len() > 0 {
            (scopes[0].action.clone(), scopes[0].resource.clone())
        } else {
            (String::new(), String::new())
        };
        ActionSpec {
            action: primary_action,
            resource: primary_resource,
            intent: owned(intent),
            scopes,
        }
    }

    /// All scopes: the scope list, or the primary pair when it is empty.
    pub fn all_scopes(&self) -> (r: Vec<ScopeSpec>)
        ensures
            scopes_view(r@) == effective_scopes(self.action@, self.resource@, self.scopes@),
    {
        if self.scopes.len() == 0 {
            let mut v: Vec<ScopeSpec> = Vec::new();
            v.push(ScopeSpec { action: self.action.clone(), resource: self.resource.clone() });
            assert(scopes_view(v@) =~= seq![(self.action@, self.resource@)]);
            v
        } else {
            clone_scopes(&self.scopes)
        }
    }

    /// Whether the specification carries a scope list.
    pub fn is_multi_scope(&self) -> (r: bool)
        ensures
            r == (self.scopes@.len() > 0),
    {
        self.scopes.len() > 0
    }
}

/// Single verification signal.
#[derive(Debug, Clone)]
pub struct VerificationSignal {
    pub label: String,
    pub status: VerificationStatus,
    pub required: bool,
    pub reason: Option<String>,
}

/// Collection of verification signals.
#[derive(Debug, Clone)]
pub struct VerificationEvidence {
    pub schema_version: String,
    pub signals: Vec<VerificationSignal>,
    pub verified: bool,
}

impl VerificationEvidence {
    /// Empty evidence under schema "v1", marked verified.
    pub fn empty() -> (r: Self)
        ensures
            r.schema_version@ == "v1"@,
            r.signals@.len() == 0,
            r.verified,
    {
        VerificationEvidence { schema_version: owned("v1"), signals: Vec::new(), verified: true }
    }
}

/// Evidence about the state an action was decided on. A floating-point
/// confidence is not carried: no decision reads it.
#[derive(Debug, Clone)]
pub struct StateEvidence {
    pub source: String,
    pub state_hash: String,
    pub schema_version: String,
}

impl StateEvidence {
    /// Evidence from `source` with the given state hash, schema "v1".
    pub fn new(source: &str, state_hash: &str) -> (r: Self)
        ensures
            r.source@ == source@,
            r.state_hash@ == state_hash@,
            r.schema_version@ == "v1"@,
    {
        StateEvidence { source: owned(source), state_hash: owned(state_hash), schema_version: owned("v1") }
    }
}

/// Full action request for authorization.
#[derive(Debug, Clone)]
pub struct ActionRequest {
    pub principal: PrincipalRef,
    pub action_spec: ActionSpec,
    pub state_evidence: StateEvidence,
    pub verification_evidence: VerificationEvidence,
}

/// Policy rule definition.
#[derive(Debug, Clone)]
pub struct PolicyRule {
    pub name: String,
    pub effect: PolicyEffect,
    pub principals: Vec<String>,
    pub actions: Vec<String>,
    pub resources: Vec<String>,
    pub required_labels: Vec<String>,
    pub max_delegation_depth: Option<u32>,
    /// Headers to inject for http.fetch actions (values may hold
    /// `${VAR}` / `${VAR:-default}` references).
    pub inject_headers: Option<HashMap<String, String>>,
    /// Headers read from files for http.fetch actions.
    pub inject_headers_from_file: Option<HashMap<String, String>>,
    /// Environment variables to inject for cli.exec actions.
    pub inject_env: Option<HashMap<String, String>>,
    /// Environment variables read from files for cli.exec actions.
    pub inject_env_from_file: Option<HashMap<String, String>>,
}

/// Mandate claims (JWT payload).
#[derive(Debug, Clone)]
pub struct MandateClaims {
    pub mandate_id: String,
    pub principal_id: String,
    pub action: String,
    pub resource: String,
    pub scopes: Vec<ScopeSpec>,
    pub intent_hash: String,
    pub state_hash: String,
    pub issued_at_epoch_s: i64,
    pub expires_at_epoch_s: i64,
    pub delegated_by: Option<String>,
    pub parent_mandate_id: Option<String>,
    pub delegation_depth: u32,
    pub delegation_chain_hash: Option<String>,
    pub iss: Option<String>,
    pub aud: Option<String>,
    pub sub: Option<String>,
    pub iat: Option<i64>,
    pub exp: Option<i64>,
    pub nbf: Option<i64>,
    pub jti: Option<String>,
}

impl MandateClaims {
    /// All scopes: the scope list, or the primary pair when it is empty.
    pub fn all_scopes(&self) -> (r: Vec<ScopeSpec>)
        ensures
            scopes_view(r@) == effective_scopes(self.action@, self.resource@, self.scopes@),
    {
        if self.scopes.len() == 0 {
            let mut v: Vec<ScopeSpec> = Vec::new();
            v.push(ScopeSpec { action: self.action.clone(), resource: self.resource.clone() });
            assert(scopes_view(v@) =~= seq![(self.action@, self.resource@)]);
            v
        } else {
            clone_scopes(&self.scopes)
        }
    }

    /// Whether the mandate carries a scope list.
    pub fn is_multi_scope(&self) -> (r: bool)
        ensures
            r == (self.scopes@.len() > 0),
    {
        self.scopes.len() > 0
    }
}

/// Signed mandate: token, claims and signature.
#[derive(Debug, Clone)]
pub struct SignedMandate {
    pub token: String,
    pub claims: MandateClaims,
    pub signature: String,
}

/// Two claims agree on every field (scopes by their text).
pub open spec fn same_claims(a: MandateClaims, b: MandateClaims) -> bool {
    &&& a.mandate_id == b.mandate_id
    &&& a.principal_id == b.principal_id
    &&& a.action == b.action
    &&& a.resource == b.resource
    &&& scopes_view(a.scopes@) == scopes_view(b.scopes@)
    &&& a.intent_hash == b.intent_hash
    &&& a.state_hash == b.state_hash
    &&& a.issued_at_epoch_s == b.issued_at_epoch_s
    &&& a.expires_at_epoch_s == b.expires_at_epoch_s
    &&& a.delegated_by == b.delegated_by
    &&& a.parent_mandate_id == b.parent_mandate_id
    &&& a.delegation_depth == b.delegation_depth
    &&& a.delegation_chain_hash == b.delegation_chain_hash
    &&& a.iss == b.iss
    &&& a.aud == b.aud
    &&& a.sub == b.sub
    &&& a.iat == b.iat
    &&& a.exp == b.exp
    &&& a.nbf == b.nbf
    &&& a.jti == b.jti
}

impl MandateClaims {
    /// A copy of the claims.
    pub fn duplicate(&self) -> (r: Self)
        ensures
            same_claims(r, *self),
    {
        MandateClaims {
            mandate_id: self.mandate_id.clone(),
            principal_id: self.principal_id.clone(),
            action: self.action.clone(),
            resource: self.resource.clone(),
            scopes: clone_scopes(&self.scopes),
            intent_hash: self.intent_hash.clone(),
            state_hash: self.state_hash.clone(),
            issued_at_epoch_s: self.issued_at_epoch_s,
            expires_at_epoch_s: self.expires_at_epoch_s,
            delegated_by: clone_opt_string(&self.delegated_by),
            parent_mandate_id: clone_opt_string(&self.parent_mandate_id),
            delegation_depth: self.delegation_depth,
            delegation_chain_hash: clone_opt_string(&self.delegation_chain_hash),
            iss: clone_opt_string(&self.iss),
            aud: clone_opt_string(&self.aud),
            sub: clone_opt_string(&self.sub),
            iat: self.iat,
            exp: self.exp,
            nbf: self.nbf,
            jti: clone_opt_string(&self.jti),
        }
    }
}

impl SignedMandate {
    /// A copy of the mandate.
    pub fn clone_signed(&self) -> (r: Self)
        ensures
            r.token == self.token,
            r.signature == self.signature,
            same_claims(r.claims, self.claims),
    {
        SignedMandate { token: self.token.clone(), claims: self.claims.duplicate(), signature: self.signature.clone() }
    }
}

/// Authorization decision.
#[derive(Debug, Clone)]
pub struct AuthorizationDecision {
    pub allowed: bool,
    pub reason: AuthorizationReason,
    pub mandate: Option<SignedMandate>,
    pub violated_rule: Option<String>,
    pub missing_labels: Vec<String>,
}

/// Proof event for audit logging.
#[derive(Debug, Clone)]
pub struct ProofEvent {
    pub event_type: String,
    pub principal_id: String,
    pub action: String,
    pub resource: String,
    pub reason: AuthorizationReason,
    pub allowed: bool,
    pub mandate_id: Option<String>,
    pub emitted_at_epoch_s: i64,
    /// Authorization latency in microseconds.
    pub latency_us: Option<u64>,
    /// Unique event identifier.
    pub event_id: Option<String>,
    /// SHA-256 chain hash: H(prev_chain_hash || ":" || canonical_event_json).
    pub chain_hash: Option<String>,
}

/// Scope authorization result (multi-scope responses).
#[derive(Debug, Clone)]
pub struct ScopeAuthorizationResult {
    pub action: String,
    pub resource: String,
    pub matched_rule: Option<String>,
}

/// Sidecar authorize request: a single action/resource or a scope list.
#[derive(Debug, Clone)]
pub struct SidecarAuthorizeRequest {
    pub principal: String,
    pub action: String,
    pub resource: String,
    pub scopes: Vec<ScopeSpec>,
    pub intent_hash: Option<String>,
    pub labels: Vec<String>,
}

/// The scopes a sidecar request asks for.
pub open spec fn request_scopes(r: SidecarAuthorizeRequest) -> Seq<(Seq<char>, Seq<char>)> {
    if r.scopes@.len() > 0 {
        scopes_view(r.scopes@)
    } else if r.action@.len() > 0 {
        seq![(r.action@, r.resource@)]
    } else {
        Seq::empty()
    }
}

impl SidecarAuthorizeRequest {
    /// All scopes of the request (the list, the single pair, or none).
    pub fn all_scopes(&self) -> (r: Vec<ScopeSpec>)
        ensures
            scopes_view(r@) == request_scopes(*self),
    {
        if self.scopes.len() > 0 {
            clone_scopes(&self.scopes)
        } else if !self.action.as_str().is_empty() {
            let mut v: Vec<ScopeSpec> = Vec::new();
            v.push(ScopeSpec { action: self.action.clone(), resource: self.resource.clone() });
            assert(scopes_view(v@) =~= seq![(self.action@, self.resource@)]);
            v
        } else {
            let v: Vec<ScopeSpec> = Vec::new();
            assert(scopes_view(v@) =~= Seq::<(Seq<char>, Seq<char>)>::empty());
            v
        }
    }

    /// Whether the request carries a scope list.
    pub fn is_multi_scope(&self) -> (r: bool)
        ensures
            r == (self.scopes@.len() > 0),
    {
        self.scopes.len() > 0
    }

    /// Accepts a request that names an action or a scope list.
    pub fn validate(&self) -> (r: Result<(), &'static str>)
        ensures
            r is Ok <==> (self.scopes@.len() > 0 || self.action@.len() > 0),
            r matches Err(m) ==> m@ == "either 'action' or 'scopes' must be provided"@,
    {
        if self.scopes.len() == 0 && self.action.as_str().is_empty() {
            return Err("either 'action' or 'scopes' must be provided");
        }
        Ok(())
    }
}

/// Sidecar authorize response.
#[derive(Debug, Clone)]
pub struct SidecarAuthorizeResponse {
    pub allowed: bool,
    pub reason: String,
    pub mandate_id: Option<String>,
    pub mandate_token: Option<String>,
    pub violated_rule: Option<String>,
    pub missing_labels: Vec<String>,
    pub scopes_authorized: Vec<ScopeAuthorizationResult>,
}

/// A copy of `o`.
pub fn clone_opt_string(o: &Option<String>) -> (r: Option<String>)
    ensures
        r == *o,
{
    match o {
        Some(s) => Some(s.clone()),
        None => None,
    }
}

impl SidecarAuthorizeResponse {
    /// The wire response for a decision: the reason's name, the mandate's
    /// id and token, and one authorized-scope entry per mandate scope, each
    /// carrying the decision's violated rule.
    pub fn from_decision(decision: AuthorizationDecision) -> (r: Self)
        ensures
            r.allowed == decision.allowed,
            r.reason@ == reason_text(decision.reason),
            r.mandate_id == (match decision.mandate {
                Some(m) => Some(m.claims.mandate_id),
                None => None,
            }),
            r.mandate_token == (match decision.mandate {
                Some(m) => Some(m.token),
                None => None,
            }),
            r.violated_rule == decision.violated_rule,
            r.missing_labels == decision.missing_labels,
            match decision.mandate {
                Some(m) => {
                    let sc = effective_scopes(
                        m.claims.action@,
                        m.claims.resource@,
                        m.claims.scopes@,
                    );
                    &&& r.scopes_authorized@.len() == sc.len()
                    &&& forall|i: int|
                        0 <= i < sc.len() ==> {
                            &&& (#[trigger] r.scopes_authorized@[i]).action@ == sc[i].0
                            &&& r.scopes_authorized@[i].resource@ == sc[i].1
                            &&& r.scopes_authorized@[i].matched_rule == decision.violated_rule
                        }
                },
                None => r.scopes_authorized@.len() == 0,
            },
    {
        let mut scopes_authorized: Vec<ScopeAuthorizationResult> = Vec::new();
        let mut mandate_id: Option<String> = None;
        let mut mandate_token: Option<String> = None;
        match &decision.mandate {
            Some(m) => {
                let all = m.claims.all_scopes();
                let ghost sc = effective_scopes(
                    m.claims.action@,
                    m.claims.resource@,
                    m.claims.scopes@,
                );
                let mut i: usize = 0;
                while i < all.len()
                    invariant
                        i <= all@.len(),
                        scopes_view(all@) == sc,
                        scopes_authorized@.len() == i,
                        forall|k: int|
                            0 <= k < i ==> {
                                &&& (#[trigger] scopes_authorized@[k]).action@ == sc[k].0
                                &&& scopes_authorized@[k].resource@ == sc[k].1
                                &&& scopes_authorized@[k].matched_rule == decision.violated_rule
                            },
                    decreases all@.len() - i,
                {
                    assert(scope_view(all@[i as int]) == sc[i as int]);
                    scopes_authorized.push(
                        ScopeAuthorizationResult {
                            action: all[i].action.clone(),
                            resource: all[i].resource.clone(),
                            matched_rule: clone_opt_string(&decision.violated_rule),
                        },
                    );
                    i = i + 1;
                }
                mandate_id = Some(m.claims.mandate_id.clone());
                mandate_token = Some(m.token.clone());
            },
            None => {},
        }
        SidecarAuthorizeResponse {
            allowed: decision.allowed,
            reason: decision.reason.to_string(),
            mandate_id,
            mandate_token,
            violated_rule: decision.violated_rule,
            missing_labels: decision.missing_labels,
            scopes_authorized,
        }
    }
}

// --- Delegation ---

/// Request to delegate authority from a parent mandate to a child agent.
#[derive(Debug, Clone)]
pub struct DelegateRequest {
    pub parent_mandate_token: String,
    pub target_agent_id: String,
    pub requested_action: String,
    pub requested_resource: String,
    pub intent_hash: String,
    pub ttl_seconds: Option<u64>,
}

/// Successful delegation response.
#[derive(Debug, Clone)]
pub struct DelegateResponse {
    pub mandate_token: String,
    pub mandate_id: String,
    pub expires_at: u64,
    pub delegation_depth: u32,
    pub delegation_chain_hash: String,
}

/// Error codes for delegation failures.
#[derive(Debug, Clone, Copy, PartialEq, Eq, Structural)]
pub enum DelegateErrorCode {
    InvalidParentMandate,
    ParentMandateExpired,
    ParentMandateRevoked,
    DelegationExceedsScope,
    MaxDelegationDepthExceeded,
    SigningFailed,
}

/// The SCREAMING_SNAKE_CASE name of a delegation error code.
pub open spec fn delegate_code_text(c: DelegateErrorCode) -> Seq<char> {
    match c {
        DelegateErrorCode::InvalidParentMandate => "INVALID_PARENT_MANDATE"@,
        DelegateErrorCode::ParentMandateExpired => "PARENT_MANDATE_EXPIRED"@,
        DelegateErrorCode::ParentMandateRevoked => "PARENT_MANDATE_REVOKED"@,
        DelegateErrorCode::DelegationExceedsScope => "DELEGATION_EXCEEDS_SCOPE"@,
        DelegateErrorCode::MaxDelegationDepthExceeded => "MAX_DELEGATION_DEPTH_EXCEEDED"@,
        DelegateErrorCode::SigningFailed => "SIGNING_FAILED"@,
    }
}

impl DelegateErrorCode {
    /// The displayed name of the code.
    pub fn to_string(&self) -> (s: String)
        ensures
            s@ == delegate_code_text(*self),
    {
        match self {
            DelegateErrorCode::InvalidParentMandate => owned("INVALID_PARENT_MANDATE"),
            DelegateErrorCode::ParentMandateExpired => owned("PARENT_MANDATE_EXPIRED"),
            DelegateErrorCode::ParentMandateRevoked => owned("PARENT_MANDATE_REVOKED"),
            DelegateErrorCode::DelegationExceedsScope => owned("DELEGATION_EXCEEDS_SCOPE"),
            DelegateErrorCode::MaxDelegationDepthExceeded => owned(
                "MAX_DELEGATION_DEPTH_EXCEEDED",
            ),
            DelegateErrorCode::SigningFailed => owned("SIGNING_FAILED"),
        }
    }
}

/// Delegation error response.
#[derive(Debug, Clone)]
pub struct DelegateError {
    pub code: DelegateErrorCode,
    pub message: String,
}

impl DelegateError {
    /// An error with the given code and message.
    pub fn new(code: DelegateErrorCode, message: &str) -> (r: Self)
        ensures
            r.code == code,
            r.message@ == message@,
    {
        DelegateError { code, message: owned(message) }
    }

    /// The parent mandate failed validation.
    pub fn invalid_parent_mandate(detail: &str) -> (r: Self)
        ensures
            r.code == DelegateErrorCode::InvalidParentMandate,
            r.message@ == "Parent mandate validation failed: "@ + detail@,
    {
        let mut m: Vec<char> = Vec::new();
        append_str(&mut m, "Parent mandate validation failed: ");
        append_str(&mut m, detail);
        DelegateError {
            code: DelegateErrorCode::InvalidParentMandate,
            message: string_from_chars(m.as_slice()),
        }
    }

    /// The parent mandate has expired.
    pub fn parent_expired() -> (r: Self)
        ensures
            r.code == DelegateErrorCode::ParentMandateExpired,
            r.message@ == "Parent mandate has expired"@,
    {
        Self::new(DelegateErrorCode::ParentMandateExpired, "Parent mandate has expired")
    }

    /// The parent mandate has been revoked.
    pub fn parent_revoked() -> (r: Self)
        ensures
            r.code == DelegateErrorCode::ParentMandateRevoked,
            r.message@ == "Parent mandate has been revoked"@,
    {
        Self::new(DelegateErrorCode::ParentMandateRevoked, "Parent mandate has been revoked")
    }

    /// The requested scope exceeds the parent's scope.
    pub fn scope_exceeded(
        parent_action: &str,
        parent_resource: &str,
        requested_action: &str,
        requested_resource: &str,
    ) -> (r: Self)
        ensures
            r.code == DelegateErrorCode::DelegationExceedsScope,
            r.message@ == "Requested scope ("@ + requested_action@ + ", "@ + requested_resource@
                + ") exceeds parent scope ("@ + parent_action@ + ", "@ + parent_resource@ + ")"@,
    {
        let mut m: Vec<char> = Vec::new();
        append_str(&mut m, "Requested scope (");
        append_str(&mut m, requested_action);
        append_str(&mut m, ", ");
        append_str(&mut m, requested_resource);
        append_str(&mut m, ") exceeds parent scope (");
        append_str(&mut m, parent_action);
        append_str(&mut m, ", ");
        append_str(&mut m, parent_resource);
        append_str(&mut m, ")");
        DelegateError {
            code: DelegateErrorCode::DelegationExceedsScope,
            message: string_from_chars(m.as_slice()),
        }
    }

    /// The delegation would exceed the maximum depth; the message names the
    /// depth the new mandate would have.
    pub fn max_depth_exceeded(current_depth: u32, max_depth: u32) -> (r: Self)
        ensures
            r.code == DelegateErrorCode::MaxDelegationDepthExceeded,
            r.message@ == "Current delegation depth "@ + decimal((current_depth + 1) as nat)
                + " would exceed maximum depth "@ + decimal(max_depth as nat),
    {
        let next: u64 = current_depth as u64 + 1;
        let mut m: Vec<char> = Vec::new();
        append_str(&mut m, "Current delegation depth ");
        let d1 = decimal_chars(next);
        append_chars(&mut m, d1.as_slice());
        append_str(&mut m, " would exceed maximum depth ");
        let d2 = decimal_chars(max_depth as u64);
        append_chars(&mut m, d2.as_slice());
        DelegateError {
            code: DelegateErrorCode::MaxDelegationDepthExceeded,
            message: string_from_chars(m.as_slice()),
        }
    }

    /// Signing the derived mandate failed.
    pub fn signing_failed(detail: &str) -> (r: Self)
        ensures
            r.code == DelegateErrorCode::SigningFailed,
            r.message@ == "Failed to sign derived mandate: "@ + detail@,
    {
        let mut m: Vec<char> = Vec::new();
        append_str(&mut m, "Failed to sign derived mandate: ");
        append_str(&mut m, detail);
        DelegateError {
            code: DelegateErrorCode::SigningFailed,
            message: string_from_chars(m.as_slice()),
        }
    }
}

// --- Execution ---

/// Action-specific execution payloads.
#[derive(Debug, Clone)]
pub enum ExecutePayload {
    FileWrite { content: String, create: bool, append: bool },
    FileDelete { recursive: bool },
    CliExec { command: String, args: Vec<String>, cwd: Option<String>, timeout_ms: Option<u64> },
    HttpFetch { method: String, headers: Option<HashMap<String, String>>, body: Option<String> },
    EnvRead { keys: Vec<String> },
}

/// Execute request.
#[derive(Debug, Clone)]
pub struct ExecuteRequest {
    pub mandate_id: String,
    pub action: String,
    pub resource: String,
    pub payload: Option<ExecutePayload>,
}

/// Directory entry of an fs.list result.
#[derive(Debug, Clone)]
pub struct DirectoryEntry {
    pub name: String,
    pub entry_type: String,
    pub size: u64,
    pub modified: Option<u64>,
}

/// Action-specific execution results.
#[derive(Debug, Clone)]
pub enum ExecuteResult {
    FileRead { content: String, size: u64, content_hash: String },
    FileWrite { bytes_written: u64, content_hash: String },
    FileList { entries: Vec<DirectoryEntry>, total_entries: usize },
    FileDelete { paths_removed: usize },
    CliExec { exit_code: i32, stdout: String, stderr: String, duration_ms: u64 },
    HttpFetch { status_code: u16, headers: HashMap<String, String>, body: String, body_hash: String },
    EnvRead { values: HashMap<String, String> },
}

/// Execute response.
#[derive(Debug, Clone)]
pub struct ExecuteResponse {
    pub success: bool,
    pub result: Option<ExecuteResult>,
    pub error: Option<String>,
    pub audit_id: String,
    pub evidence_hash: Option<String>,
}

/// Execution error codes.
#[derive(Debug, Clone, Copy, PartialEq, Eq, Structural)]
pub enum ExecuteErrorCode {
    MandateNotFound,
    MandateExpired,
    ActionMismatch,
    ResourceMismatch,
    ExecutionFailed,
    UnsupportedAction,
    InvalidPayload,
}

/// The snake_case name of an execution error code.
pub open spec fn execute_code_text(c: ExecuteErrorCode) -> Seq<char> {
    match c {
        ExecuteErrorCode::MandateNotFound => "mandate_not_found"@,
        ExecuteErrorCode::MandateExpired => "mandate_expired"@,
        ExecuteErrorCode::ActionMismatch => "action_mismatch"@,
        ExecuteErrorCode::ResourceMismatch => "resource_mismatch"@,
        ExecuteErrorCode::ExecutionFailed => "execution_failed"@,
        ExecuteErrorCode::UnsupportedAction => "unsupported_action"@,
        ExecuteErrorCode::InvalidPayload => "invalid_payload"@,
    }
}

impl ExecuteErrorCode {
    /// The displayed name of the code.
    pub fn to_string(&self) -> (s: String)
        ensures
            s@ == execute_code_text(*self),
    {
        match self {
            ExecuteErrorCode::MandateNotFound => owned("mandate_not_found"),
            ExecuteErrorCode::MandateExpired => owned("mandate_expired"),
            ExecuteErrorCode::ActionMismatch => owned("action_mismatch"),
            ExecuteErrorCode::ResourceMismatch => owned("resource_mismatch"),
            ExecuteErrorCode::ExecutionFailed => owned("execution_failed"),
            ExecuteErrorCode::UnsupportedAction => owned("unsupported_action"),
            ExecuteErrorCode::InvalidPayload => owned("invalid_payload"),
        }
    }
}

}
