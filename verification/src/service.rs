//! What the daemon's management endpoints answer: the bearer token of a
//! request, the Prometheus metrics text, and the status and message of
//! each identity, queue and chain endpoint outcome.
use vstd::prelude::*;

use crate::identity::TaskIdentityRecord;
use crate::ledger::DecisionStats;
use crate::text::{
    append_chars, append_str, chars_of, decimal, decimal_chars, is_prefix, lowercase, owned, string_from_chars,
    to_lowercase, trim_chars, trimmed,
};

verus! {

broadcast use vstd::string::group_string_axioms;

/// The answer of an identity, queue or chain endpoint when the local
/// identity registry is not enabled.
pub const REGISTRY_DISABLED: &'static str = "Local identity registry not enabled";

/// The token of an `Authorization` header: what follows a leading
/// `bearer ` (in any case), trimmed.
pub open spec fn bearer_token_of(header: Option<Seq<char>>) -> Option<Seq<char>> {
    match header {
        Some(h) => if is_prefix("bearer "@, lowercase(h)) && h.len() >= 7 {
            Some(trimmed(h.subrange(7, h.len() as int)))
        } else {
            None
        },
        None => None,
    }
}

/// The bearer token of a request's `Authorization` header, if any.
pub fn extract_bearer_token(header: Option<&str>) -> (r: Option<String>)
    ensures
        match r {
            Some(t) => bearer_token_of(match header { Some(h) => Some(h@), None => None }) == Some(t@),
            None => bearer_token_of(match header { Some(h) => Some(h@), None => None }) is None,
        },
{
    match header {
        Some(h) => {
            let low = to_lowercase(h);
            let lc = chars_of(low.as_str());
            let hc = chars_of(h);
            if crate::text::starts_with_str(lc.as_slice(), "bearer ") && hc.len() >= 7 {
                let rest = crate::text::slice_chars(hc.as_slice(), 7, hc.len());
                let t = trim_chars(rest.as_slice());
                Some(string_from_chars(t.as_slice()))
            } else {
                None
            }
        },
        None => None,
    }
}

/// The metrics lines of denials by reason, in order.
pub open spec fn denial_lines(v: Seq<(String, u64)>) -> Seq<char>
    decreases v.len(),
{
    if v.len() == 0 {
        Seq::empty()
    } else {
        denial_lines(v.drop_last()) + "predicate_authority_denials_by_reason{reason=\""@ + v.last().0@ + "\"} "@
            + decimal(v.last().1 as nat) + "\n"@
    }
}

/// The Prometheus metrics text: uptime, decisions by result, denials by
/// reason, and the number of policy rules.
pub open spec fn metrics_text_of(uptime_s: u64, stats: DecisionStats, rule_count: usize) -> Seq<char> {
    "# HELP predicate_authority_uptime_seconds Sidecar uptime in seconds\n"@
        + "# TYPE predicate_authority_uptime_seconds counter\n"@ + "predicate_authority_uptime_seconds "@ + decimal(
        uptime_s as nat,
    ) + "\n"@ + "# HELP predicate_authority_decisions_total Total authorization decisions\n"@
        + "# TYPE predicate_authority_decisions_total counter\n"@
        + "predicate_authority_decisions_total{result=\"allowed\"} "@ + decimal(stats.total_allowed as nat) + "\n"@
        + "predicate_authority_decisions_total{result=\"denied\"} "@ + decimal(stats.total_denied as nat) + "\n"@
        + "# HELP predicate_authority_denials_by_reason Denials by reason\n"@
        + "# TYPE predicate_authority_denials_by_reason counter\n"@ + denial_lines(stats.denied_by_reason@)
        + "# HELP predicate_authority_policy_rules Number of policy rules\n"@
        + "# TYPE predicate_authority_policy_rules gauge\n"@ + "predicate_authority_policy_rules "@ + decimal(
        rule_count as nat,
    ) + "\n"@
}

/// The Prometheus metrics text.
pub fn metrics_text(uptime_s: u64, stats: &DecisionStats, rule_count: usize) -> (r: String)
    ensures
        r@ == metrics_text_of(uptime_s, *stats, rule_count),
{
    let mut out: Vec<char> = Vec::new();
    append_str(&mut out, "# HELP predicate_authority_uptime_seconds Sidecar uptime in seconds\n");
    append_str(&mut out, "# TYPE predicate_authority_uptime_seconds counter\n");
    append_str(&mut out, "predicate_authority_uptime_seconds ");
    append_chars(&mut out, decimal_chars(uptime_s).as_slice());
    append_str(&mut out, "\n");
    append_str(&mut out, "# HELP predicate_authority_decisions_total Total authorization decisions\n");
    append_str(&mut out, "# TYPE predicate_authority_decisions_total counter\n");
    append_str(&mut out, "predicate_authority_decisions_total{result=\"allowed\"} ");
    append_chars(&mut out, decimal_chars(stats.total_allowed).as_slice());
    append_str(&mut out, "\n");
    append_str(&mut out, "predicate_authority_decisions_total{result=\"denied\"} ");
    append_chars(&mut out, decimal_chars(stats.total_denied).as_slice());
    append_str(&mut out, "\n");
    append_str(&mut out, "# HELP predicate_authority_denials_by_reason Denials by reason\n");
    append_str(&mut out, "# TYPE predicate_authority_denials_by_reason counter\n");
    let ghost head = out@;
    let v = &stats.denied_by_reason;
    let mut i: usize = 0;
    assert(v@.subrange(0, 0) =~= Seq::<(String, u64)>::empty());
    assert(out@ =~= head + denial_lines(v@.subrange(0, 0)));
    while i < v.len()
        invariant
            i <= v@.len(),
            out@ == head + denial_lines(v@.subrange(0, i as int)),
        decreases v@.len() - i,
    {
        assert(v@.subrange(0, i + 1).drop_last() =~= v@.subrange(0, i as int));
        assert(v@.subrange(0, i + 1).last() == v@[i as int]);
        append_str(&mut out, "predicate_authority_denials_by_reason{reason=\"");
        append_str(&mut out, v[i].0.as_str());
        append_str(&mut out, "\"} ");
        append_chars(&mut out, decimal_chars(v[i].1).as_slice());
        append_str(&mut out, "\n");
        assert(out@ =~= head + denial_lines(v@.subrange(0, i + 1)));
        i = i + 1;
    }
    assert(v@.subrange(0, v@.len() as int) =~= v@);
    append_str(&mut out, "# HELP predicate_authority_policy_rules Number of policy rules\n");
    append_str(&mut out, "# TYPE predicate_authority_policy_rules gauge\n");
    append_str(&mut out, "predicate_authority_policy_rules ");
    append_chars(&mut out, decimal_chars(rule_count as u64).as_slice());
    append_str(&mut out, "\n");
    string_from_chars(out.as_slice())
}

/// How a policy reload request is let through, before its rules are read.
#[derive(Debug, Clone, Copy, PartialEq, Eq, Structural)]
pub enum ReloadAccess {
    /// The rules are replaced.
    Allowed,
    /// The endpoint is switched off (403).
    Disabled,
    /// A reload secret is set and the request's bearer token is not it (401).
    Unauthorized,
}

/// The access rule of the reload endpoint: off when disabled; with a
/// secret, only a request whose bearer token equals the secret passes.
pub open spec fn reload_access_of(
    disabled: bool,
    secret: Option<Seq<char>>,
    header: Option<Seq<char>>,
) -> ReloadAccess {
    if disabled {
        ReloadAccess::Disabled
    } else {
        match secret {
            None => ReloadAccess::Allowed,
            Some(s) => match bearer_token_of(header) {
                Some(t) => if t == s {
                    ReloadAccess::Allowed
                } else {
                    ReloadAccess::Unauthorized
                },
                None => ReloadAccess::Unauthorized,
            },
        }
    }
}

/// Decides whether a policy reload request may replace the rules.
pub fn reload_access(disabled: bool, secret: Option<&str>, header: Option<&str>) -> (r: ReloadAccess)
    ensures
        r == reload_access_of(
            disabled,
            match secret { Some(s) => Some(s@), None => None },
            match header { Some(h) => Some(h@), None => None },
        ),
{
    if disabled {
        return ReloadAccess::Disabled;
    }
    match secret {
        None => ReloadAccess::Allowed,
        Some(s) => match extract_bearer_token(header) {
            Some(t) => {
                if crate::text::str_eq(t.as_str(), s) {
                    ReloadAccess::Allowed
                } else {
                    ReloadAccess::Unauthorized
                }
            },
            None => ReloadAccess::Unauthorized,
        },
    }
}

/// A reload with a secret set passes only with that secret as bearer token.
pub proof fn law_reload_needs_the_secret(secret: Seq<char>, header: Option<Seq<char>>)
    ensures
        reload_access_of(false, Some(secret), header) == ReloadAccess::Allowed ==> bearer_token_of(header)
            == Some(secret),
        reload_access_of(true, Some(secret), header) == ReloadAccess::Disabled,
{
}

/// An endpoint's answer: HTTP status, success, and an error message.
#[derive(Debug, Clone)]
pub struct EndpointOutcome {
    pub status: u16,
    pub success: bool,
    pub error: Option<String>,
}

/// The answer when the identity registry is not enabled: 503.
pub fn registry_disabled() -> (r: EndpointOutcome)
    ensures
        r.status == 503 && !r.success && (r.error matches Some(m) && m@ == REGISTRY_DISABLED@),
{
    EndpointOutcome { status: 503, success: false, error: Some(owned(REGISTRY_DISABLED)) }
}

/// The answer to issuing an identity: 200, or 400 with the refusal.
pub fn identity_issue_outcome(result: &Result<TaskIdentityRecord, &'static str>) -> (r: EndpointOutcome)
    ensures
        match result {
            Ok(_) => r.status == 200 && r.success && r.error is None,
            Err(m) => r.status == 400 && !r.success && (r.error matches Some(x) && x@ == m@),
        },
{
    match result {
        Ok(_) => EndpointOutcome { status: 200, success: true, error: None },
        Err(m) => EndpointOutcome { status: 400, success: false, error: Some(owned(m)) },
    }
}

/// The answer to revoking an identity: 200, or 404 when there is none.
pub fn identity_revoke_outcome(revoked: bool) -> (r: EndpointOutcome)
    ensures
        revoked ==> r.status == 200 && r.success && r.error is None,
        !revoked ==> r.status == 404 && !r.success && (r.error matches Some(x) && x@ == "Identity not found"@),
{
    if revoked {
        EndpointOutcome { status: 200, success: true, error: None }
    } else {
        EndpointOutcome { status: 404, success: false, error: Some(owned("Identity not found")) }
    }
}

/// The answer to requeueing an item: 200, or 404 when there is no such
/// quarantined item.
pub fn requeue_outcome(requeued: bool) -> (r: EndpointOutcome)
    ensures
        requeued ==> r.status == 200 && r.success && r.error is None,
        !requeued ==> r.status == 404 && !r.success && (r.error matches Some(x) && x@
            == "Queue item not found or not quarantined"@),
{
    if requeued {
        EndpointOutcome { status: 200, success: true, error: None }
    } else {
        EndpointOutcome { status: 404, success: false, error: Some(owned("Queue item not found or not quarantined")) }
    }
}

/// The message of a flush: how many items were flushed.
pub fn flush_message(scanned: usize) -> (r: String)
    ensures
        r@ == "Flushed "@ + decimal(scanned as nat) + " items"@,
{
    let mut out: Vec<char> = Vec::new();
    append_str(&mut out, "Flushed ");
    append_chars(&mut out, decimal_chars(scanned as u64).as_slice());
    append_str(&mut out, " items");
    string_from_chars(out.as_slice())
}

/// The message of a policy reload: how many rules were loaded.
pub fn reload_message(rule_count: usize) -> (r: String)
    ensures
        r@ == "Loaded "@ + decimal(rule_count as nat) + " rules"@,
{
    let mut out: Vec<char> = Vec::new();
    append_str(&mut out, "Loaded ");
    append_chars(&mut out, decimal_chars(rule_count as u64).as_slice());
    append_str(&mut out, " rules");
    string_from_chars(out.as_slice())
}

/// The message of a chain verification.
pub fn chain_verify_message(valid: bool) -> (r: &'static str)
    ensures
        valid ==> r@ == "Chain integrity verified"@,
        !valid ==> r@ == "TAMPERING DETECTED: Chain integrity check failed"@,
{
    if valid {
        "Chain integrity verified"
    } else {
        "TAMPERING DETECTED: Chain integrity check failed"
    }
}

} // verus!
