//! Chain delegation: deriving a mandate from a parent mandate, with scope
//! narrowing, a depth limit, revocation, and a lifetime capped to what is
//! left of the parent's.
use vstd::prelude::*;

use crate::desktop::{join_comma, join_with_comma};
use crate::mandate::{
    claims_json, claims_valid_at, delegation_ok, issued_claims, law_claims_json_determines_claims, plain_text,
    signed_token, signed_token_text, token_accepted_at,
    token_claims_text, token_signature_ok, LocalMandateSigner,
};
use crate::models::{
    scopes_view, ActionRequest, ActionSpec, DelegateError, DelegateErrorCode, DelegateRequest,
    DelegateResponse, MandateClaims, PrincipalRef, SignedMandate, StateEvidence,
    VerificationEvidence,
};
use crate::subset::{
    is_scope_subset, is_scope_subset_of_any, pattern_subset, scope_within_any, scopes_stable, subset_decided,
};
use crate::text::{append_str, chars_of, decimal, owned, string_from_chars, string_views};

verus! {

broadcast use vstd::string::group_string_axioms;

/// Maximum delegation depth when the policy sets none.
pub const DEFAULT_MAX_DELEGATION_DEPTH: u32 = 5;

/// Delegation state: the signer, the depth limit and the revoked mandate
/// ids.
pub struct DelegationState {
    pub mandate_signer: LocalMandateSigner,
    pub max_delegation_depth: u32,
    revoked_mandate_ids: Vec<String>,
}

impl DelegationState {
    /// The signer.
    pub closed spec fn spec_signer(&self) -> LocalMandateSigner {
        self.mandate_signer
    }

    /// The depth limit.
    pub closed spec fn spec_max_depth(&self) -> u32 {
        self.max_delegation_depth
    }

    /// The revoked mandate ids.
    pub closed spec fn spec_revoked(&self) -> Set<Seq<char>> {
        string_views(self.revoked_mandate_ids@).to_set()
    }

    /// State with the default depth limit and nothing revoked.
    pub fn new(mandate_signer: LocalMandateSigner) -> (r: Self)
        ensures
            r.spec_signer() == mandate_signer,
            r.spec_max_depth() == DEFAULT_MAX_DELEGATION_DEPTH,
            r.spec_revoked() == Set::<Seq<char>>::empty(),
    {
        let r = DelegationState {
            mandate_signer,
            max_delegation_depth: DEFAULT_MAX_DELEGATION_DEPTH,
            revoked_mandate_ids: Vec::new(),
        };
        assert(r.spec_revoked() =~= Set::<Seq<char>>::empty());
        r
    }

    /// The same state with another depth limit.
    pub fn with_max_depth(self, max_depth: u32) -> (r: Self)
        ensures
            r.spec_signer() == self.spec_signer(),
            r.spec_max_depth() == max_depth,
            r.spec_revoked() == self.spec_revoked(),
    {
        let mut s = self;
        s.max_delegation_depth = max_depth;
        s
    }

    /// Whether a mandate id has been revoked.
    pub fn is_mandate_revoked(&self, mandate_id: &str) -> (r: bool)
        ensures
            r == self.spec_revoked().contains(mandate_id@),
    {
        let k = chars_of(mandate_id);
        let ghost v = string_views(self.revoked_mandate_ids@);
        let mut i: usize = 0;
        while i < self.revoked_mandate_ids.len()
            invariant
                i <= self.revoked_mandate_ids@.len(),
                v == string_views(self.revoked_mandate_ids@),
                k@ == mandate_id@,
                forall|j: int| 0 <= j < i ==> v[j] != mandate_id@,
            decreases self.revoked_mandate_ids@.len() - i,
        {
            let c = chars_of(self.revoked_mandate_ids[i].as_str());
            if crate::text::chars_eq(c.as_slice(), k.as_slice()) {
                assert(v[i as int] == mandate_id@);
                return true;
            }
            i = i + 1;
        }
        false
    }

    /// Adds a mandate id to the revoked set.
    pub fn revoke_mandate(&mut self, mandate_id: &str)
        ensures
            final(self).spec_revoked() == old(self).spec_revoked().insert(mandate_id@),
            final(self).spec_signer() == old(self).spec_signer(),
            final(self).spec_max_depth() == old(self).spec_max_depth(),
    {
        let ghost before = string_views(self.revoked_mandate_ids@);
        self.revoked_mandate_ids.push(owned(mandate_id));
        proof {
            assert(string_views(self.revoked_mandate_ids@) =~= before.push(mandate_id@));
            lemma_push_set(before, mandate_id@);
        }
    }

    /// Adds a batch of mandate ids to the revoked set.
    pub fn update_revoked_mandates(&mut self, mandate_ids: &Vec<String>)
        ensures
            final(self).spec_revoked() == old(self).spec_revoked().union(string_views(mandate_ids@).to_set()),
            final(self).spec_signer() == old(self).spec_signer(),
            final(self).spec_max_depth() == old(self).spec_max_depth(),
    {
        let ghost ids = string_views(mandate_ids@);
        let ghost start = self.spec_revoked();
        let mut i: usize = 0;
        assert(ids.subrange(0, 0).to_set() =~= Set::<Seq<char>>::empty());
        assert(start.union(Set::<Seq<char>>::empty()) =~= start);
        while i < mandate_ids.len()
            invariant
                i <= mandate_ids@.len(),
                ids == string_views(mandate_ids@),
                self.spec_revoked() == start.union(ids.subrange(0, i as int).to_set()),
                self.spec_signer() == old(self).spec_signer(),
                self.spec_max_depth() == old(self).spec_max_depth(),
            decreases mandate_ids@.len() - i,
        {
            self.revoke_mandate(mandate_ids[i].as_str());
            proof {
                assert(ids.subrange(0, i + 1) =~= ids.subrange(0, i as int).push(ids[i as int]));
                lemma_push_set(ids.subrange(0, i as int), ids[i as int]);
                assert(self.spec_revoked() =~= start.union(ids.subrange(0, i + 1).to_set()));
            }
            i = i + 1;
        }
        assert(ids.subrange(0, ids.len() as int) =~= ids);
    }

    /// Empties the revoked set.
    pub fn clear_revoked_mandates(&mut self)
        ensures
            final(self).spec_revoked() == Set::<Seq<char>>::empty(),
            final(self).spec_signer() == old(self).spec_signer(),
            final(self).spec_max_depth() == old(self).spec_max_depth(),
    {
        self.revoked_mandate_ids = Vec::new();
        assert(self.spec_revoked() =~= Set::<Seq<char>>::empty());
    }
}

/// Lemma: pushing onto a sequence adds the element to its set.
proof fn lemma_push_set(s: Seq<Seq<char>>, x: Seq<char>)
    ensures
        s.push(x).to_set() == s.to_set().insert(x),
{
    assert forall|t: Seq<char>| s.push(x).to_set().contains(t) <==> s.to_set().insert(x).contains(t) by {
        if t == x {
            assert(s.push(x)[s.len() as int] == x);
        }
        if s.contains(t) {
            let k = choose|k: int| 0 <= k < s.len() && s[k] == t;
            assert(s.push(x)[k] == t);
        }
        if s.push(x).contains(t) {
            let k = choose|k: int| 0 <= k < s.push(x).len() && s.push(x)[k] == t;
            if k < s.len() {
                assert(s[k] == t);
            }
        }
    }
    assert(s.push(x).to_set() =~= s.to_set().insert(x));
}

// ---------------------------------------------------------------------------
// The delegation decision
// ---------------------------------------------------------------------------

/// The requested scope lies within the parent's: within one of its scopes
/// when it has a list, else within its action and resource.
pub open spec fn parent_scope_ok(parent: MandateClaims, action: Seq<char>, resource: Seq<char>) -> bool {
    if parent.scopes@.len() > 0 {
        scope_within_any(scopes_view(parent.scopes@), action, resource)
    } else {
        pattern_subset(parent.action@, action) && pattern_subset(parent.resource@, resource)
    }
}

/// Every subset check against the parent's scope is decided: none rests
/// on glob matching of a backslash.
pub open spec fn parent_scope_stable(parent: MandateClaims, action: Seq<char>, resource: Seq<char>) -> bool {
    if parent.scopes@.len() > 0 {
        scopes_stable(scopes_view(parent.scopes@), action, resource)
    } else {
        subset_decided(parent.action@, action) && subset_decided(parent.resource@, resource)
    }
}

/// The parent's actions and resources as an error message shows them: a
/// bracketed, comma-separated list for a scope list.
pub open spec fn parent_display(parent: MandateClaims) -> (Seq<char>, Seq<char>) {
    if parent.scopes@.len() > 0 {
        (
            "["@ + join_comma(scope_actions(parent.scopes@)) + "]"@,
            "["@ + join_comma(scope_resources(parent.scopes@)) + "]"@,
        )
    } else {
        (parent.action@, parent.resource@)
    }
}

/// Seconds left of the parent's lifetime, none when it has passed.
pub open spec fn remaining_ttl(parent: MandateClaims, now: i64) -> int {
    if parent.expires_at_epoch_s - now > 0 {
        parent.expires_at_epoch_s - now
    } else {
        0
    }
}

/// The derived lifetime: the requested one (else all that is left),
/// capped to what is left of the parent's.
pub open spec fn capped_ttl(parent: MandateClaims, requested: Option<u64>, now: i64) -> int {
    let left = remaining_ttl(parent, now);
    match requested {
        Some(t) => if t < left { t as int } else { left },
        None => left,
    }
}

/// The error a delegation from a verified parent meets, if any, in the
/// order the checks run: revocation, expiry, scope, depth.
pub open spec fn delegation_refusal(
    parent: MandateClaims,
    revoked: bool,
    request: DelegateRequest,
    max_depth: u32,
    now: i64,
) -> Option<(DelegateErrorCode, Seq<char>)> {
    if revoked {
        Some((DelegateErrorCode::ParentMandateRevoked, "Parent mandate has been revoked"@))
    } else if parent.expires_at_epoch_s < now {
        Some((DelegateErrorCode::ParentMandateExpired, "Parent mandate has expired"@))
    } else if !parent_scope_ok(parent, request.requested_action@, request.requested_resource@) {
        let d = parent_display(parent);
        Some((
            DelegateErrorCode::DelegationExceedsScope,
            "Requested scope ("@ + request.requested_action@ + ", "@ + request.requested_resource@
                + ") exceeds parent scope ("@ + d.0 + ", "@ + d.1 + ")"@,
        ))
    } else if parent.delegation_depth + 1 > max_depth {
        Some((
            DelegateErrorCode::MaxDelegationDepthExceeded,
            "Current delegation depth "@ + decimal((parent.delegation_depth + 1) as nat)
                + " would exceed maximum depth "@ + decimal(max_depth as nat),
        ))
    } else {
        None
    }
}

/// The text of an error.
pub open spec fn error_view(e: DelegateError) -> (DelegateErrorCode, Seq<char>) {
    (e.code, e.message@)
}

/// The actions of scopes, in order.
pub open spec fn scope_actions(v: Seq<crate::models::ScopeSpec>) -> Seq<Seq<char>> {
    v.map_values(|s: crate::models::ScopeSpec| s.action@)
}

/// The resources of scopes, in order.
pub open spec fn scope_resources(v: Seq<crate::models::ScopeSpec>) -> Seq<Seq<char>> {
    v.map_values(|s: crate::models::ScopeSpec| s.resource@)
}

/// The actions of scopes.
fn actions_of(scopes: &Vec<crate::models::ScopeSpec>) -> (r: Vec<String>)
    ensures
        string_views(r@) == scope_actions(scopes@),
{
    let mut out: Vec<String> = Vec::new();
    let mut i: usize = 0;
    while i < scopes.len()
        invariant
            i <= scopes@.len(),
            string_views(out@) == scope_actions(scopes@.subrange(0, i as int)),
        decreases scopes@.len() - i,
    {
        let ghost prev = out@;
        let x = scopes[i].action.clone();
        out.push(x);
        proof {
            assert(string_views(out@) =~= string_views(prev).push(x@));
            assert(scopes@.subrange(0, i + 1) =~= scopes@.subrange(0, i as int).push(scopes@[i as int]));
            assert(scope_actions(scopes@.subrange(0, i + 1)) =~= scope_actions(scopes@.subrange(0, i as int)).push(
                scopes@[i as int].action@,
            ));
        }
        i = i + 1;
    }
    assert(scopes@.subrange(0, scopes@.len() as int) =~= scopes@);
    out
}

/// The resources of scopes.
fn resources_of(scopes: &Vec<crate::models::ScopeSpec>) -> (r: Vec<String>)
    ensures
        string_views(r@) == scope_resources(scopes@),
{
    let mut out: Vec<String> = Vec::new();
    let mut i: usize = 0;
    while i < scopes.len()
        invariant
            i <= scopes@.len(),
            string_views(out@) == scope_resources(scopes@.subrange(0, i as int)),
        decreases scopes@.len() - i,
    {
        let ghost prev = out@;
        let x = scopes[i].resource.clone();
        out.push(x);
        proof {
            assert(string_views(out@) =~= string_views(prev).push(x@));
            assert(scopes@.subrange(0, i + 1) =~= scopes@.subrange(0, i as int).push(scopes@[i as int]));
            assert(scope_resources(scopes@.subrange(0, i + 1)) =~= scope_resources(scopes@.subrange(0, i as int)).push(
                scopes@[i as int].resource@,
            ));
        }
        i = i + 1;
    }
    assert(scopes@.subrange(0, scopes@.len() as int) =~= scopes@);
    out
}

/// A bracketed, comma-separated list.
fn bracketed(items: &Vec<String>) -> (r: String)
    ensures
        r@ == "["@ + join_comma(string_views(items@)) + "]"@,
{
    let j = join_with_comma(items);
    let mut out: Vec<char> = Vec::new();
    append_str(&mut out, "[");
    append_str(&mut out, j.as_str());
    append_str(&mut out, "]");
    string_from_chars(out.as_slice())
}

/// Checks a delegation from a verified parent mandate: the granted
/// lifetime, or the error of the first check that fails.
pub fn check_delegation(
    parent: &MandateClaims,
    revoked: bool,
    request: &DelegateRequest,
    max_depth: u32,
    now: i64,
) -> (r: Result<u64, DelegateError>)
    ensures
        parent_scope_stable(*parent, request.requested_action@, request.requested_resource@) ==> match delegation_refusal(
            *parent,
            revoked,
            *request,
            max_depth,
            now,
        ) {
            Some(err) => r matches Err(e) && error_view(e) == err,
            None => r matches Ok(t) && t == capped_ttl(*parent, request.ttl_seconds, now),
        },
        revoked ==> (r matches Err(e) && error_view(e) == (
            DelegateErrorCode::ParentMandateRevoked,
            "Parent mandate has been revoked"@,
        )),
        r matches Ok(t) ==> !revoked && parent.expires_at_epoch_s >= now && parent.delegation_depth + 1 <= max_depth
            && t == capped_ttl(*parent, request.ttl_seconds, now),
{
    if revoked {
        return Err(DelegateError::parent_revoked());
    }
    if parent.expires_at_epoch_s < now {
        return Err(DelegateError::parent_expired());
    }
    let scope_valid = if parent.is_multi_scope() {
        let all = parent.all_scopes();
        is_scope_subset_of_any(&all, request.requested_action.as_str(), request.requested_resource.as_str())
    } else {
        is_scope_subset(
            parent.action.as_str(),
            parent.resource.as_str(),
            request.requested_action.as_str(),
            request.requested_resource.as_str(),
        )
    };
    if !scope_valid {
        let (pa, pr) = if parent.is_multi_scope() {
            let acts = actions_of(&parent.scopes);
            let ress = resources_of(&parent.scopes);
            (bracketed(&acts), bracketed(&ress))
        } else {
            (parent.action.clone(), parent.resource.clone())
        };
        return Err(DelegateError::scope_exceeded(
            pa.as_str(),
            pr.as_str(),
            request.requested_action.as_str(),
            request.requested_resource.as_str(),
        ));
    }
    if parent.delegation_depth as u64 + 1 > max_depth as u64 {
        return Err(DelegateError::max_depth_exceeded(parent.delegation_depth, max_depth));
    }
    // expires >= now here, so the difference fits.
    let left: u64 = if parent.expires_at_epoch_s > now {
        (parent.expires_at_epoch_s as i128 - now as i128) as u64
    } else {
        0
    };
    let requested = match request.ttl_seconds {
        Some(t) => t,
        None => left,
    };
    Ok(if requested < left { requested } else { left })
}

/// The claims with their expiry lowered to `cap` when that comes first.
pub open spec fn with_expiry_cap(c: MandateClaims, cap: int) -> MandateClaims {
    if cap < c.expires_at_epoch_s {
        MandateClaims { expires_at_epoch_s: cap as i64, exp: Some(cap as i64), ..c }
    } else {
        c
    }
}

/// A derived mandate: issued under the parent at `now`, its expiry
/// lowered to `now + ttl` when that comes first, and its token signed
/// over the claims it carries.
pub fn issue_derived_mandate(
    signer: &LocalMandateSigner,
    request: &ActionRequest,
    parent_mandate: &SignedMandate,
    ttl_seconds: u64,
    now: i64,
) -> (r: SignedMandate)
    requires
        signer.well_formed(),
        parent_mandate.claims.delegation_depth < u32::MAX,
        0 <= now,
        now + ttl_seconds <= i64::MAX,
    ensures
        exists|c: MandateClaims|
            #[trigger] issued_claims(*signer, *request, Some(parent_mandate.claims), now, c) && r.claims
                == with_expiry_cap(c, now + ttl_seconds),
        signed_token(*signer, r.claims, r.token@, r.signature@),
{
    let mut mandate = signer.issue_at(request, Some(parent_mandate), now);
    let ghost c = mandate.claims;
    let capped = now + ttl_seconds as i64;
    if capped < mandate.claims.expires_at_epoch_s {
        mandate.claims.expires_at_epoch_s = capped;
        mandate.claims.exp = Some(capped);
        let (token, signature) = signer.sign_claims(&mandate.claims);
        mandate.token = token;
        mandate.signature = signature;
    }
    assert(mandate.claims == with_expiry_cap(c, now + ttl_seconds));
    mandate
}

/// The action request a delegation issues for: the target agent, the
/// requested (single) scope and intent, delegation state evidence, and
/// verified empty evidence.
pub fn derived_action_request(request: &DelegateRequest) -> (r: ActionRequest)
    ensures
        r.principal.principal_id@ == request.target_agent_id@,
        r.action_spec.action@ == request.requested_action@,
        r.action_spec.resource@ == request.requested_resource@,
        r.action_spec.intent@ == request.intent_hash@,
        r.action_spec.scopes@.len() == 0,
        r.state_evidence.source@ == "delegation"@,
        r.state_evidence.state_hash@ == request.intent_hash@,
        r.verification_evidence.verified,
{
    ActionRequest {
        principal: PrincipalRef::new(request.target_agent_id.as_str()),
        action_spec: ActionSpec {
            action: request.requested_action.clone(),
            resource: request.requested_resource.clone(),
            intent: request.intent_hash.clone(),
            scopes: Vec::new(),
        },
        state_evidence: StateEvidence::new("delegation", request.intent_hash.as_str()),
        verification_evidence: VerificationEvidence::empty(),
    }
}

/// The action request a delegation issues for, by the texts a mandate is
/// made of: the target agent, the requested (single) scope and intent, and
/// the intent as state hash.
pub open spec fn delegation_request_of(ar: ActionRequest, request: DelegateRequest) -> bool {
    &&& ar.principal.principal_id@ == request.target_agent_id@
    &&& ar.action_spec.action@ == request.requested_action@
    &&& ar.action_spec.resource@ == request.requested_resource@
    &&& ar.action_spec.intent@ == request.intent_hash@
    &&& ar.action_spec.scopes@.len() == 0
    &&& ar.state_evidence.state_hash@ == request.intent_hash@
}

/// A granted delegation's answer: the mandate issued under the parent at
/// `now` for the request, its expiry capped to the granted lifetime, and
/// signed over the claims it carries; the answer gives its token, id,
/// expiry, depth and chain hash.
pub open spec fn delegated_response(
    s: LocalMandateSigner,
    request: DelegateRequest,
    parent: MandateClaims,
    now: i64,
    resp: DelegateResponse,
) -> bool {
    exists|ar: ActionRequest, c: MandateClaims| {
        let d = with_expiry_cap(c, now + capped_ttl(parent, request.ttl_seconds, now));
        &&& delegation_request_of(ar, request)
        &&& #[trigger] issued_claims(s, ar, Some(parent), now, c)
        &&& resp.mandate_token@ == signed_token_text(s, d)
        &&& resp.mandate_id@ == d.mandate_id@
        &&& resp.expires_at as int == d.expires_at_epoch_s as int
        &&& resp.delegation_depth == d.delegation_depth
        &&& resp.delegation_chain_hash@ == (match d.delegation_chain_hash {
            Some(h) => h@,
            None => Seq::<char>::empty(),
        })
    }
}

impl DelegationState {
    /// Handles a delegation request at time `now`: verifies the parent
    /// token, checks revocation, expiry, scope and depth, and issues the
    /// derived mandate with its lifetime capped.
    pub fn delegate_at(&self, request: &DelegateRequest, now: i64) -> (r: Result<DelegateResponse, DelegateError>)
        requires
            self.spec_signer().well_formed(),
            now >= 0,
        ensures
            !token_signature_ok(self.spec_signer(), request.parent_mandate_token@) ==> (r matches Err(e)
                && e.code == DelegateErrorCode::InvalidParentMandate
                && e.message@ == "Parent mandate validation failed: signature verification failed"@),
            r matches Ok(resp) ==> resp.delegation_depth >= 1 && resp.delegation_depth <= self.spec_max_depth(),
            !token_accepted_at(self.spec_signer(), request.parent_mandate_token@, now) ==> (r matches Err(e)
                && e.code == DelegateErrorCode::InvalidParentMandate
                && e.message@ == "Parent mandate validation failed: signature verification failed"@),
            forall|c: MandateClaims, g: Seq<char>|
                plain_text(self.spec_signer().spec_active()) && #[trigger] signed_token(
                    self.spec_signer(),
                    c,
                    request.parent_mandate_token@,
                    g,
                ) && claims_valid_at(c, now) && self.spec_revoked().contains(c.mandate_id@) ==> (r matches Err(e)
                    && e.code == DelegateErrorCode::ParentMandateRevoked
                    && e.message@ == "Parent mandate has been revoked"@),
            token_accepted_at(self.spec_signer(), request.parent_mandate_token@, now) ==> exists|pc: MandateClaims|
                token_claims_text(request.parent_mandate_token@) == Some(#[trigger] claims_json(pc)) && claims_valid_at(
                    pc,
                    now,
                ) && match delegation_refusal(
                    pc,
                    self.spec_revoked().contains(pc.mandate_id@),
                    *request,
                    self.spec_max_depth(),
                    now,
                ) {
                    Some(err) => parent_scope_stable(pc, request.requested_action@, request.requested_resource@) ==> (r matches Err(e) && error_view(e) == err),
                    None => parent_scope_stable(pc, request.requested_action@, request.requested_resource@) ==> (r matches Ok(resp) && resp.delegation_depth == pc.delegation_depth + 1 && resp.expires_at
                        <= now + capped_ttl(pc, request.ttl_seconds, now) && delegated_response(
                        self.spec_signer(),
                        *request,
                        pc,
                        now,
                        resp,
                    )),
                },
    {
        proof {
            reveal_strlit("signature verification failed");
            reveal_strlit("Parent mandate validation failed: ");
            reveal_strlit("Parent mandate validation failed: signature verification failed");
        }
        let parent = match self.mandate_signer.verify_at(request.parent_mandate_token.as_str(), now) {
            Some(m) => m,
            None => {
                let e = DelegateError::invalid_parent_mandate("signature verification failed");
                assert(e.message@ =~= "Parent mandate validation failed: signature verification failed"@);
                return Err(e);
            },
        };
        proof {
            assert forall|c: MandateClaims, g: Seq<char>|
                plain_text(self.spec_signer().spec_active()) && #[trigger] signed_token(
                    self.spec_signer(),
                    c,
                    request.parent_mandate_token@,
                    g,
                ) && claims_valid_at(c, now) implies parent.claims.mandate_id@ == c.mandate_id@ by {
                law_claims_json_determines_claims(parent.claims, c);
            }
        }
        let revoked = self.is_mandate_revoked(parent.claims.mandate_id.as_str());
        proof {
            assert(token_claims_text(request.parent_mandate_token@) == Some(claims_json(parent.claims)));
            assert(claims_valid_at(parent.claims, now));
        }
        let ttl = match check_delegation(&parent.claims, revoked, request, self.max_delegation_depth, now) {
            Ok(t) => t,
            Err(e) => return Err(e),
        };
        let action_request = derived_action_request(request);
        let derived = issue_derived_mandate(&self.mandate_signer, &action_request, &parent, ttl, now);
        proof {
            let c = choose|c: MandateClaims|
                #[trigger] issued_claims(self.mandate_signer, action_request, Some(parent.claims), now, c)
                    && derived.claims == with_expiry_cap(c, now + ttl);
            reveal(issued_claims);
            self.mandate_signer.lemma_ttl_positive();
            assert(derived.claims.delegation_depth == parent.claims.delegation_depth + 1);
            assert(derived.claims.expires_at_epoch_s <= now + ttl);
        }
        let chain = match &derived.claims.delegation_chain_hash {
            Some(h) => h.clone(),
            None => String::new(),
        };
        Ok(DelegateResponse {
            mandate_token: derived.token.clone(),
            mandate_id: derived.claims.mandate_id.clone(),
            expires_at: derived.claims.expires_at_epoch_s as u64,
            delegation_depth: derived.claims.delegation_depth,
            delegation_chain_hash: chain,
        })
    }
}

/// Answer of the delegation endpoint: the response on success, the error
/// otherwise (each serialised on its own, without a wrapper).
#[derive(Debug, Clone)]
pub enum DelegateResult {
    Success(DelegateResponse),
    Error(DelegateError),
}

impl DelegateResult {
    /// The answer for the outcome of a delegation.
    pub fn from_outcome(r: Result<DelegateResponse, DelegateError>) -> (d: Self)
        ensures
            match r {
                Ok(x) => d == DelegateResult::Success(x),
                Err(e) => d == DelegateResult::Error(e),
            },
    {
        match r {
            Ok(x) => DelegateResult::Success(x),
            Err(e) => DelegateResult::Error(e),
        }
    }
}

/// The HTTP status of a delegation answer: 200 on success, 401 for an
/// invalid or expired parent, 403 for a revoked parent or a scope or depth
/// violation, 500 for a signing failure.
pub fn delegate_status(r: &Result<DelegateResponse, DelegateError>) -> (s: u16)
    ensures
        s == match r {
            Ok(_) => 200u16,
            Err(e) => match e.code {
                DelegateErrorCode::InvalidParentMandate => 401u16,
                DelegateErrorCode::ParentMandateExpired => 401u16,
                DelegateErrorCode::ParentMandateRevoked => 403u16,
                DelegateErrorCode::DelegationExceedsScope => 403u16,
                DelegateErrorCode::MaxDelegationDepthExceeded => 403u16,
                DelegateErrorCode::SigningFailed => 500u16,
            },
        },
{
    match r {
        Ok(_) => 200,
        Err(e) => match e.code {
            DelegateErrorCode::InvalidParentMandate => 401,
            DelegateErrorCode::ParentMandateExpired => 401,
            DelegateErrorCode::ParentMandateRevoked => 403,
            DelegateErrorCode::DelegationExceedsScope => 403,
            DelegateErrorCode::MaxDelegationDepthExceeded => 403,
            DelegateErrorCode::SigningFailed => 500,
        },
    }
}

/// A delegation never widens authority: when it is granted, the requested
/// scope lies within the parent's, the parent is neither revoked nor
/// expired, and the new depth stays within the limit.
pub proof fn law_granted_delegation_narrows(
    parent: MandateClaims,
    revoked: bool,
    request: DelegateRequest,
    max_depth: u32,
    now: i64,
)
    requires
        delegation_refusal(parent, revoked, request, max_depth, now) is None,
    ensures
        parent_scope_ok(parent, request.requested_action@, request.requested_resource@),
        !revoked,
        parent.expires_at_epoch_s >= now,
        parent.delegation_depth + 1 <= max_depth,
{
}

/// The derived lifetime never outlasts the parent.
pub proof fn law_derived_ttl_capped(parent: MandateClaims, requested: Option<u64>, now: i64)
    ensures
        capped_ttl(parent, requested, now) <= remaining_ttl(parent, now),
        0 <= capped_ttl(parent, requested, now),
        requested matches Some(t) ==> capped_ttl(parent, requested, now) <= t,
{
}


/// A parent with a scope list grants a delegation (when it is neither
/// revoked nor expired and the depth limit allows one more level)
/// exactly when some one of its listed scopes holds both the requested
/// action and the requested resource: any scope may grant, not only the
/// primary one.
pub proof fn law_scope_list_grants_by_any_scope(
    parent: MandateClaims,
    revoked: bool,
    request: DelegateRequest,
    max_depth: u32,
    now: i64,
)
    requires
        parent.scopes@.len() > 0,
        !revoked,
        parent.expires_at_epoch_s >= now,
        parent.delegation_depth + 1 <= max_depth,
    ensures
        (delegation_refusal(parent, revoked, request, max_depth, now) is None) <==> exists|i: int|
            0 <= i < parent.scopes@.len() && pattern_subset(
                #[trigger] parent.scopes@[i].action@,
                request.requested_action@,
            ) && pattern_subset(parent.scopes@[i].resource@, request.requested_resource@),
        delegation_refusal(parent, revoked, request, max_depth, now) matches Some(e) ==> e.0
            == DelegateErrorCode::DelegationExceedsScope,
{
    let sv = scopes_view(parent.scopes@);
    if exists|i: int|
        0 <= i < parent.scopes@.len() && pattern_subset(
            #[trigger] parent.scopes@[i].action@,
            request.requested_action@,
        ) && pattern_subset(parent.scopes@[i].resource@, request.requested_resource@) {
        let i = choose|i: int|
            0 <= i < parent.scopes@.len() && pattern_subset(
                #[trigger] parent.scopes@[i].action@,
                request.requested_action@,
            ) && pattern_subset(parent.scopes@[i].resource@, request.requested_resource@);
        assert(sv[i] == (parent.scopes@[i].action@, parent.scopes@[i].resource@));
        assert(pattern_subset(sv[i].0, request.requested_action@) && pattern_subset(sv[i].1, request.requested_resource@));
        assert(scope_within_any(sv, request.requested_action@, request.requested_resource@));
    } else {
        if scope_within_any(sv, request.requested_action@, request.requested_resource@) {
            let i = choose|i: int|
                0 <= i < sv.len() && pattern_subset(#[trigger] sv[i].0, request.requested_action@)
                    && pattern_subset(sv[i].1, request.requested_resource@);
            assert(sv[i] == (parent.scopes@[i].action@, parent.scopes@[i].resource@));
            assert(pattern_subset(parent.scopes@[i].action@, request.requested_action@));
        }
    }
}

/// A parent without a scope list grants a delegation (when it is neither
/// revoked nor expired and the depth limit allows one more level) exactly
/// when its own action and resource hold the requested ones.
pub proof fn law_single_scope_grants_by_primary(
    parent: MandateClaims,
    revoked: bool,
    request: DelegateRequest,
    max_depth: u32,
    now: i64,
)
    requires
        parent.scopes@.len() == 0,
        !revoked,
        parent.expires_at_epoch_s >= now,
        parent.delegation_depth + 1 <= max_depth,
    ensures
        (delegation_refusal(parent, revoked, request, max_depth, now) is None) <==> (pattern_subset(
            parent.action@,
            request.requested_action@,
        ) && pattern_subset(parent.resource@, request.requested_resource@)),
{
}

/// When no text involved holds a backslash, the scope check of a
/// delegation is decided on every system, so `check_delegation` answers
/// exactly as `delegation_refusal` says, for a scope list or a single
/// scope alike.
pub proof fn law_scope_check_decided_without_backslash(parent: MandateClaims, action: Seq<char>, resource: Seq<char>)
    requires
        !action.contains('\\'),
        !resource.contains('\\'),
        !parent.action@.contains('\\'),
        !parent.resource@.contains('\\'),
        forall|i: int| 0 <= i < parent.scopes@.len() ==> !(#[trigger] parent.scopes@[i]).action@.contains('\\')
            && !parent.scopes@[i].resource@.contains('\\'),
    ensures
        parent_scope_stable(parent, action, resource),
{
    let sv = scopes_view(parent.scopes@);
    assert forall|i: int| 0 <= i < sv.len() implies subset_decided(#[trigger] sv[i].0, action) && subset_decided(
        sv[i].1,
        resource,
    ) by {
        assert(sv[i] == (parent.scopes@[i].action@, parent.scopes@[i].resource@));
        assert(!parent.scopes@[i].action@.contains('\\'));
    }
}

} // verus!
