//! The decision core of the authorize endpoint: every scope of a request is
//! evaluated against the policy on its own, and the request is allowed
//! only when all of its scopes are.
use vstd::prelude::*;

use crate::desktop::join_comma;
use crate::ledger::InMemoryProofLedger;
use crate::mandate::{issued_claims, signed_token, LocalMandateSigner};
use crate::models::{
    reason_text, request_scopes, scopes_view, ActionRequest, ActionSpec, AuthorizationDecision,
    AuthorizationReason, PrincipalRef, ScopeAuthorizationResult, ScopeSpec, SidecarAuthorizeRequest,
    SidecarAuthorizeResponse, SignedMandate, StateEvidence, VerificationEvidence,
};
use crate::policy::{clone_strings, opt_view, outcome_of, policy_decision, rules_stable, PolicyEngine};
use crate::text::{
    append_chars, append_str, chars_of, decimal, decimal_chars, owned, string_from_chars,
    string_views,
};

verus! {

/// What the scope loop has gathered so far: whether every scope was
/// allowed, the first denial (its text and violated rule, and whether an
/// explicit deny rule gave it), the missing
/// labels of every denied scope, and the allowed scopes with their
/// matching rule.
pub struct ScopeTally {
    pub all_allowed: bool,
    pub first_denial: Option<(Seq<char>, Option<Seq<char>>)>,
    pub first_explicit: bool,
    pub missing: Seq<Seq<char>>,
    pub authorized: Seq<(Seq<char>, Seq<char>, Option<Seq<char>>)>,
}

/// The text of a scope's denial: the reason's name followed by the scope.
pub open spec fn denial_text(reason: AuthorizationReason, action: Seq<char>, resource: Seq<char>) -> Seq<char> {
    reason_text(reason) + " (action: "@ + action + ", resource: "@ + resource + ")"@
}

/// The tally of the first scopes of a request, each evaluated against the
/// policy with the request's principal and labels.
pub open spec fn tally_scopes(engine: PolicyEngine, principal: Seq<char>, labels: Seq<Seq<char>>, scopes: Seq<(Seq<char>, Seq<char>)>) -> ScopeTally
    decreases scopes.len(),
{
    if scopes.len() == 0 {
        ScopeTally {
            all_allowed: true,
            first_denial: None,
            first_explicit: false,
            missing: Seq::empty(),
            authorized: Seq::empty(),
        }
    } else {
        let prev = tally_scopes(engine, principal, labels, scopes.drop_last());
        let sc = scopes.last();
        let o = policy_decision(
            engine.spec_rules(),
            engine.spec_ssrf(),
            principal,
            sc.0,
            sc.1,
            labels,
            engine.spec_home(),
        );
        if o.0 {
            ScopeTally {
                all_allowed: prev.all_allowed,
                first_denial: prev.first_denial,
                first_explicit: prev.first_explicit,
                missing: prev.missing,
                authorized: prev.authorized.push((sc.0, sc.1, o.2)),
            }
        } else {
            ScopeTally {
                all_allowed: false,
                first_denial: match prev.first_denial {
                    Some(d) => Some(d),
                    None => Some((denial_text(o.1, sc.0, sc.1), o.2)),
                },
                first_explicit: match prev.first_denial {
                    Some(d) => prev.first_explicit,
                    None => o.1 == AuthorizationReason::ExplicitDeny,
                },
                missing: prev.missing + o.3,
                authorized: prev.authorized,
            }
        }
    }
}

/// The result of evaluating every scope of a request.
pub struct ScopeEvaluation {
    pub all_allowed: bool,
    pub first_denial_reason: Option<String>,
    pub first_violated_rule: Option<String>,
    pub first_denial_explicit: bool,
    pub missing_labels: Vec<String>,
    pub scopes_authorized: Vec<ScopeAuthorizationResult>,
}

/// The (action, resource, matched rule) text of authorized scopes.
pub open spec fn authorized_view(v: Seq<ScopeAuthorizationResult>) -> Seq<(Seq<char>, Seq<char>, Option<Seq<char>>)> {
    v.map_values(|s: ScopeAuthorizationResult| (s.action@, s.resource@, opt_view(s.matched_rule)))
}

/// The evaluation carries exactly the tally `t`.
pub open spec fn evaluation_is(e: ScopeEvaluation, t: ScopeTally) -> bool {
    &&& e.all_allowed == t.all_allowed
    &&& match t.first_denial {
        Some(d) => opt_view(e.first_denial_reason) == Some(d.0) && opt_view(e.first_violated_rule) == d.1
            && e.first_denial_explicit == t.first_explicit,
        None => e.first_denial_reason is None && e.first_violated_rule is None,
    }
    &&& string_views(e.missing_labels@) == t.missing
    &&& authorized_view(e.scopes_authorized@) == t.authorized
}

/// Lemma: a tally is all-allowed exactly when it records no denial.
proof fn lemma_tally_denial(engine: PolicyEngine, principal: Seq<char>, labels: Seq<Seq<char>>, scopes: Seq<(Seq<char>, Seq<char>)>)
    ensures
        tally_scopes(engine, principal, labels, scopes).all_allowed
            <==> tally_scopes(engine, principal, labels, scopes).first_denial is None,
    decreases scopes.len(),
{
    if scopes.len() > 0 {
        lemma_tally_denial(engine, principal, labels, scopes.drop_last());
    }
}

/// Every scope of the request is decided for every rule: no pattern
/// match it needs rests on glob matching of a backslash.
pub open spec fn scopes_policy_stable(engine: PolicyEngine, principal: Seq<char>, scopes: Seq<(Seq<char>, Seq<char>)>) -> bool {
    forall|j: int| 0 <= j < scopes.len() ==> #[trigger] rules_stable(
        engine.spec_rules(),
        principal,
        scopes[j].0,
        scopes[j].1,
        engine.spec_home(),
    )
}

/// Evaluates every scope of the request on its own (with the request's
/// principal, intent and labels) against the policy.
pub fn evaluate_scopes(engine: &PolicyEngine, request: &SidecarAuthorizeRequest, scopes: &Vec<ScopeSpec>) -> (r: ScopeEvaluation)
    ensures
        scopes_policy_stable(*engine, request.principal@, crate::models::scopes_view(scopes@)) ==> evaluation_is(
            r,
            tally_scopes(*engine, request.principal@, string_views(request.labels@), crate::models::scopes_view(scopes@)),
        ),
        r.all_allowed <==> r.first_denial_reason is None,
{
    let ghost sv = crate::models::scopes_view(scopes@);
    let ghost labels = string_views(request.labels@);
    let ghost st = scopes_policy_stable(*engine, request.principal@, sv);
    let mut all_allowed = true;
    let mut first_denial_reason: Option<String> = None;
    let mut first_violated_rule: Option<String> = None;
    let mut first_denial_explicit = false;
    let mut missing_labels: Vec<String> = Vec::new();
    let mut scopes_authorized: Vec<ScopeAuthorizationResult> = Vec::new();
    let mut i: usize = 0;
    assert(string_views(missing_labels@) =~= Seq::<Seq<char>>::empty());
    assert(authorized_view(scopes_authorized@) =~= Seq::<(Seq<char>, Seq<char>, Option<Seq<char>>)>::empty());
    assert(sv.subrange(0, 0) =~= Seq::<(Seq<char>, Seq<char>)>::empty());
    while i < scopes.len()
        invariant
            i <= scopes@.len(),
            sv == crate::models::scopes_view(scopes@),
            labels == string_views(request.labels@),
            st == scopes_policy_stable(*engine, request.principal@, sv),
            all_allowed <==> first_denial_reason is None,
            st ==> evaluation_is(
                ScopeEvaluation {
                    all_allowed,
                    first_denial_reason,
                    first_violated_rule,
                    first_denial_explicit,
                    missing_labels,
                    scopes_authorized,
                },
                tally_scopes(*engine, request.principal@, labels, sv.subrange(0, i as int)),
            ),
        decreases scopes@.len() - i,
    {
        let ghost prefix = sv.subrange(0, i as int);
        assert(sv.subrange(0, i + 1).drop_last() =~= prefix);
        let scope = &scopes[i];
        let single = SidecarAuthorizeRequest {
            principal: request.principal.clone(),
            action: scope.action.clone(),
            resource: scope.resource.clone(),
            scopes: Vec::new(),
            intent_hash: crate::models::clone_opt_string(&request.intent_hash),
            labels: clone_strings(&request.labels),
        };
        let result = engine.evaluate(&single);
        let ghost t_prev = tally_scopes(*engine, request.principal@, labels, prefix);
        let ghost t_next = tally_scopes(*engine, request.principal@, labels, sv.subrange(0, i + 1));
        let ghost o = policy_decision(
            engine.spec_rules(),
            engine.spec_ssrf(),
            request.principal@,
            scope.action@,
            scope.resource@,
            labels,
            engine.spec_home(),
        );
        proof {
            assert(sv.subrange(0, i + 1).last() == (scope.action@, scope.resource@));
            assert(sv[i as int] == (scope.action@, scope.resource@));
            if st {
                assert(rules_stable(engine.spec_rules(), request.principal@, sv[i as int].0, sv[i as int].1, engine.spec_home()));
                assert(outcome_of(result) == o);
            }
        }
        let ghost old_authorized = scopes_authorized@;
        if result.allowed {
            let matched = crate::models::clone_opt_string(&result.matched_rule);
            scopes_authorized.push(ScopeAuthorizationResult {
                action: scope.action.clone(),
                resource: scope.resource.clone(),
                matched_rule: matched,
            });
            proof {
                assert(authorized_view(scopes_authorized@) =~= authorized_view(old_authorized).push(
                    (scope.action@, scope.resource@, opt_view(result.matched_rule)),
                ));
                if st {
                    assert(t_next.authorized == authorized_view(scopes_authorized@));
                }
            }
        } else {
            all_allowed = false;
            if first_denial_reason.is_none() {
                let mut text: Vec<char> = chars_of(result.reason.to_string().as_str());
                append_str(&mut text, " (action: ");
                append_chars(&mut text, chars_of(scope.action.as_str()).as_slice());
                append_str(&mut text, ", resource: ");
                append_chars(&mut text, chars_of(scope.resource.as_str()).as_slice());
                append_str(&mut text, ")");
                first_denial_reason = Some(string_from_chars(text.as_slice()));
                first_violated_rule = crate::models::clone_opt_string(&result.matched_rule);
                first_denial_explicit = match result.reason {
                    AuthorizationReason::ExplicitDeny => true,
                    _ => false,
                };
            }
            let ghost before = missing_labels@;
            let extra = clone_strings(&result.missing_labels);
            let mut k: usize = 0;
            while k < extra.len()
                invariant
                    k <= extra@.len(),
                    missing_labels@ == before + extra@.subrange(0, k as int),
                decreases extra@.len() - k,
            {
                missing_labels.push(extra[k].clone());
                k = k + 1;
                assert(missing_labels@ =~= before + extra@.subrange(0, k as int));
            }
            assert(extra@.subrange(0, extra@.len() as int) =~= extra@);
            proof {
                assert(string_views(missing_labels@) =~= string_views(before) + string_views(result.missing_labels@));
                if st {
                    assert(t_next.missing == string_views(missing_labels@));
                }
            }
        }
        i = i + 1;
    }
    assert(sv.subrange(0, scopes@.len() as int) =~= sv);
    proof {
        if st {
            lemma_tally_denial(*engine, request.principal@, labels, sv);
        }
    }
    ScopeEvaluation {
        all_allowed,
        first_denial_reason,
        first_violated_rule,
        first_denial_explicit,
        missing_labels,
        scopes_authorized,
    }
}


// ---------------------------------------------------------------------------
// Answers
// ---------------------------------------------------------------------------

/// A denial with only a reason.
pub open spec fn bare_denial(r: SidecarAuthorizeResponse, reason: Seq<char>) -> bool {
    &&& !r.allowed
    &&& r.reason@ == reason
    &&& r.mandate_id is None
    &&& r.mandate_token is None
    &&& r.violated_rule is None
    &&& r.missing_labels@.len() == 0
    &&& r.scopes_authorized@.len() == 0
}

/// A denial carrying only a reason.
fn denial(reason: String) -> (r: SidecarAuthorizeResponse)
    ensures
        bare_denial(r, reason@),
{
    SidecarAuthorizeResponse {
        allowed: false,
        reason,
        mandate_id: None,
        mandate_token: None,
        violated_rule: None,
        missing_labels: Vec::new(),
        scopes_authorized: Vec::new(),
    }
}

/// The answer to a request that names neither an action nor scopes
/// (status 400).
pub fn invalid_request_response(message: &str) -> (r: SidecarAuthorizeResponse)
    ensures
        bare_denial(r, "INVALID_REQUEST: "@ + message@),
{
    let mut m: Vec<char> = Vec::new();
    append_str(&mut m, "INVALID_REQUEST: ");
    append_str(&mut m, message);
    denial(string_from_chars(m.as_slice()))
}

/// The answer when a bearer token is required and missing (status 401).
pub fn missing_token_response() -> (r: SidecarAuthorizeResponse)
    ensures
        bare_denial(r, "MISSING_AUTHORIZATION"@),
{
    denial(owned("MISSING_AUTHORIZATION"))
}

/// The answer when the bearer token does not validate (status 401).
pub fn invalid_token_response(error: &str) -> (r: SidecarAuthorizeResponse)
    ensures
        bare_denial(r, "INVALID_TOKEN: "@ + error@),
{
    let mut m: Vec<char> = Vec::new();
    append_str(&mut m, "INVALID_TOKEN: ");
    append_str(&mut m, error);
    denial(string_from_chars(m.as_slice()))
}

/// The action and resource an audit event records for a request: the
/// request's own, or `multi-scope[n]` and the scopes' actions joined by
/// commas.
pub open spec fn audit_subject_of(request: SidecarAuthorizeRequest, scopes: Seq<(Seq<char>, Seq<char>)>) -> (Seq<char>, Seq<char>) {
    if request.scopes@.len() > 0 {
        (
            "multi-scope["@ + decimal(scopes.len()) + "]"@,
            join_with(scopes.map_values(|p: (Seq<char>, Seq<char>)| p.0), ","@),
        )
    } else {
        (request.action@, request.resource@)
    }
}

/// Items joined by a separator.
pub open spec fn join_with(items: Seq<Seq<char>>, sep: Seq<char>) -> Seq<char>
    decreases items.len(),
{
    if items.len() == 0 {
        Seq::empty()
    } else if items.len() == 1 {
        items[0]
    } else {
        join_with(items.drop_last(), sep) + sep + items.last()
    }
}

/// The audit action and resource of a request with the given scopes.
pub fn audit_subject(request: &SidecarAuthorizeRequest, scopes: &Vec<ScopeSpec>) -> (r: (String, String))
    ensures
        (r.0@, r.1@) == audit_subject_of(*request, scopes_view(scopes@)),
{
    if request.scopes.len() > 0 {
        let mut a: Vec<char> = Vec::new();
        append_str(&mut a, "multi-scope[");
        let d = decimal_chars(scopes.len() as u64);
        append_chars(&mut a, d.as_slice());
        append_str(&mut a, "]");
        let ghost acts = scopes_view(scopes@).map_values(|p: (Seq<char>, Seq<char>)| p.0);
        let mut j: Vec<char> = Vec::new();
        let mut i: usize = 0;
        assert(acts.subrange(0, 0) =~= Seq::<Seq<char>>::empty());
        while i < scopes.len()
            invariant
                i <= scopes@.len(),
                acts == scopes_view(scopes@).map_values(|p: (Seq<char>, Seq<char>)| p.0),
                j@ == join_with(acts.subrange(0, i as int), ","@),
            decreases scopes@.len() - i,
        {
            assert(acts.subrange(0, i + 1).drop_last() =~= acts.subrange(0, i as int));
            if i > 0 {
                append_str(&mut j, ",");
            }
            append_str(&mut j, scopes[i].action.as_str());
            assert(acts[i as int] == scopes[i as int].action@);
            assert(j@ =~= join_with(acts.subrange(0, i + 1), ","@));
            i = i + 1;
        }
        assert(acts.subrange(0, scopes@.len() as int) =~= acts);
        (string_from_chars(a.as_slice()), string_from_chars(j.as_slice()))
    } else {
        (request.action.clone(), request.resource.clone())
    }
}

/// The answer of the authorize endpoint: its HTTP status, the response,
/// and the mandate issued (to keep for execution).
pub struct AuthorizeAnswer {
    pub status: u16,
    pub response: SidecarAuthorizeResponse,
    pub mandate: Option<SignedMandate>,
}

/// Lemma: a tally that is not all-allowed has at least one scope.
proof fn lemma_tally_empty(engine: PolicyEngine, principal: Seq<char>, labels: Seq<Seq<char>>, scopes: Seq<(Seq<char>, Seq<char>)>)
    ensures
        tally_scopes(engine, principal, labels, scopes).authorized.len() + (if tally_scopes(
            engine,
            principal,
            labels,
            scopes,
        ).all_allowed {
            0int
        } else {
            1int
        }) <= scopes.len() + 1,
        tally_scopes(engine, principal, labels, scopes).all_allowed ==> tally_scopes(
            engine,
            principal,
            labels,
            scopes,
        ).authorized.len() == scopes.len(),
        tally_scopes(engine, principal, labels, scopes).all_allowed ==> tally_scopes(
            engine,
            principal,
            labels,
            scopes,
        ).missing.len() == 0,
    decreases scopes.len(),
{
    if scopes.len() > 0 {
        lemma_tally_empty(engine, principal, labels, scopes.drop_last());
    }
}

/// The action request a mandate for an authorize request is issued for,
/// by the texts a mandate is made of: the principal; with scopes, all of
/// them and the first one's action and resource, else the request's own;
/// the intent hash (empty when absent); the action as state hash.
pub open spec fn authorize_request_of(ar: ActionRequest, request: SidecarAuthorizeRequest) -> bool {
    &&& ar.principal.principal_id@ == request.principal@
    &&& ar.action_spec.intent@ == (match request.intent_hash {
        Some(h) => h@,
        None => Seq::<char>::empty(),
    })
    &&& (if request.scopes@.len() > 0 {
        &&& scopes_view(ar.action_spec.scopes@) == scopes_view(request.scopes@)
        &&& ar.action_spec.action@ == request.scopes@[0].action@
        &&& ar.action_spec.resource@ == request.scopes@[0].resource@
    } else {
        &&& ar.action_spec.scopes@.len() == 0
        &&& ar.action_spec.action@ == request.action@
        &&& ar.action_spec.resource@ == request.resource@
    })
    &&& ar.state_evidence.state_hash@ == ar.action_spec.action@
}

/// Decides an authorize request at time `now` after any token check:
/// validates it, evaluates every scope, records the decision (with its
/// latency) in the ledger, issues a mandate when allowed and a signer is
/// configured, and builds the response (200 allowed, 403 denied, 400
/// invalid).
pub fn authorize_at(
    engine: &PolicyEngine,
    ledger: &mut InMemoryProofLedger,
    signer: Option<&LocalMandateSigner>,
    request: &SidecarAuthorizeRequest,
    latency_us: u64,
    now: i64,
) -> (r: AuthorizeAnswer)
    requires
        old(ledger).well_formed(),
        old(ledger).spec_total() < u64::MAX,
        old(ledger).spec_stats().total_latency_us + latency_us <= u64::MAX,
        signer matches Some(s) ==> s.well_formed(),
    ensures
        final(ledger).well_formed(),
        !(request.scopes@.len() > 0 || request.action@.len() > 0) ==> {
            &&& r.status == 400
            &&& bare_denial(r.response, "INVALID_REQUEST: either 'action' or 'scopes' must be provided"@)
            &&& r.mandate is None
            &&& final(ledger).spec_total() == old(ledger).spec_total()
        },
        (request.scopes@.len() > 0 || request.action@.len() > 0) ==> {
            let t = tally_scopes(*engine, request.principal@, string_views(request.labels@), request_scopes(*request));
            let subject = audit_subject_of(*request, request_scopes(*request));
            let stored = final(ledger).spec_events().last();
            let st = scopes_policy_stable(*engine, request.principal@, request_scopes(*request));
            &&& r.status == (if r.response.allowed { 200u16 } else { 403u16 })
            &&& (st ==> r.response.allowed == t.all_allowed)
            &&& (st && t.all_allowed ==> r.response.reason@ == "allowed"@ && r.response.violated_rule is None
                && r.response.missing_labels@.len() == 0 && authorized_view(r.response.scopes_authorized@)
                == t.authorized)
            &&& (st && !t.all_allowed ==> (t.first_denial matches Some(d) && r.response.reason@ == (if request.scopes@.len()
                > 0 || !t.first_explicit {
                d.0
            } else {
                "explicit_deny"@
            }) && opt_view(
                r.response.violated_rule,
            ) == d.1 && string_views(r.response.missing_labels@) == t.missing
                && r.response.scopes_authorized@.len() == 0 && r.response.mandate_id is None))
            &&& (r.mandate is Some <==> (r.response.allowed && signer is Some))
            &&& (r.mandate matches Some(m) ==> r.response.mandate_id == Some(m.claims.mandate_id)
                && r.response.mandate_token == Some(m.token))
            &&& (r.mandate is None ==> r.response.mandate_id is None && r.response.mandate_token is None)
            &&& (r.mandate matches Some(m) ==> signer matches Some(s) && signed_token(*s, m.claims, m.token@, m.signature@)
                && exists|ar: ActionRequest| authorize_request_of(ar, *request) && #[trigger] issued_claims(
                *s,
                ar,
                None,
                now,
                m.claims,
            ))
            &&& final(ledger).spec_total() == old(ledger).spec_total() + 1
            &&& stored.principal_id@ == request.principal@
            &&& stored.action@ == subject.0
            &&& stored.resource@ == subject.1
            &&& stored.allowed == r.response.allowed
            &&& stored.reason == (if r.response.allowed { AuthorizationReason::Allowed } else { AuthorizationReason::ExplicitDeny })
            &&& stored.latency_us == Some(latency_us)
        },
{
    match request.validate() {
        Ok(()) => {},
        Err(e) => {
            proof {
                reveal_strlit("INVALID_REQUEST: ");
                reveal_strlit("either 'action' or 'scopes' must be provided");
                reveal_strlit("INVALID_REQUEST: either 'action' or 'scopes' must be provided");
                assert("INVALID_REQUEST: "@ + e@ =~= "INVALID_REQUEST: either 'action' or 'scopes' must be provided"@);
            }
            return AuthorizeAnswer { status: 400, response: invalid_request_response(e), mandate: None };
        },
    }
    let request_scope_list = request.all_scopes();
    let is_multi = request.is_multi_scope();
    let eval = evaluate_scopes(engine, request, &request_scope_list);
    let ghost t = tally_scopes(*engine, request.principal@, string_views(request.labels@), request_scopes(*request));
    proof {
        lemma_tally_empty(*engine, request.principal@, string_views(request.labels@), request_scopes(*request));
    }
    let (audit_action, audit_resource) = audit_subject(request, &request_scope_list);
    let reason = if eval.all_allowed { AuthorizationReason::Allowed } else { AuthorizationReason::ExplicitDeny };
    ledger.record_decision_with_latency(
        request.principal.as_str(),
        audit_action.as_str(),
        audit_resource.as_str(),
        eval.all_allowed,
        reason,
        None,
        Some(latency_us),
    );
    let mut mandate: Option<SignedMandate> = None;
    if eval.all_allowed {
        match signer {
            Some(s) => {
                let intent = match &request.intent_hash {
                    Some(h) => h.clone(),
                    None => String::new(),
                };
                let action_spec = if is_multi {
                    ActionSpec::multi(crate::models::clone_scopes(&request_scope_list), intent.as_str())
                } else {
                    ActionSpec::single(request.action.as_str(), request.resource.as_str(), intent.as_str())
                };
                let state_evidence = StateEvidence::new("authorize", action_spec.action.as_str());
                let action_request = ActionRequest {
                    principal: PrincipalRef::new(request.principal.as_str()),
                    action_spec,
                    state_evidence,
                    verification_evidence: VerificationEvidence {
                        schema_version: String::new(),
                        signals: Vec::new(),
                        verified: false,
                    },
                };
                proof {
                    if is_multi {
                        let v = action_request.action_spec.scopes@;
                        assert(scopes_view(v)[0] == scopes_view(request.scopes@)[0]);
                    }
                    assert(authorize_request_of(action_request, *request));
                }
                mandate = Some(s.issue_at(&action_request, None, now));
            },
            None => {},
        }
    }
    let decision = AuthorizationDecision {
        allowed: eval.all_allowed,
        reason,
        mandate: match &mandate {
            Some(m) => Some(m.clone_signed()),
            None => None,
        },
        violated_rule: crate::models::clone_opt_string(&eval.first_violated_rule),
        missing_labels: clone_strings(&eval.missing_labels),
    };
    let mut response = SidecarAuthorizeResponse::from_decision(decision);
    if eval.all_allowed && eval.scopes_authorized.len() > 0 {
        response.scopes_authorized = eval.scopes_authorized;
    }
    if !eval.all_allowed && (is_multi || !eval.first_denial_explicit) {
        match eval.first_denial_reason {
            Some(d) => {
                response.reason = d;
            },
            None => {},
        }
    }
    let status: u16 = if response.allowed { 200 } else { 403 };
    proof {
        assert(request_scopes(*request).len() > 0);
        if scopes_policy_stable(*engine, request.principal@, request_scopes(*request)) {
            assert(eval.all_allowed == t.all_allowed);
            assert(t.all_allowed ==> response.reason@ == "allowed"@);
            assert(t.all_allowed ==> authorized_view(response.scopes_authorized@) == t.authorized);
            assert(!t.all_allowed ==> string_views(response.missing_labels@) == t.missing);
            assert(t.all_allowed ==> response.missing_labels@.len() == 0);
            assert(!t.all_allowed && !is_multi && t.first_explicit ==> response.reason@ == "explicit_deny"@);
        }
    }
    AuthorizeAnswer { status, response, mandate }
}

} // verus!
