//! The daemon's startup rules: which settings combinations are refused,
//! how the SSRF allow-list from the command line, the configuration and
//! the policy file combine, when a policy file name turns on audit mode,
//! when a control-plane client is built, and what a sync snapshot changes.
use vstd::prelude::*;

use crate::control_plane::{revocation_views, AuthoritySyncSnapshot, RevocationCache};
use crate::models::PolicyRule;
use crate::policy::{has_label, PolicyEngine};
use crate::text::{
    append_chars, append_str, chars_of, contains_seq, contains_str, lowercase, owned,
    string_from_chars, string_views, to_lowercase,
};
use crate::ledger::{signed_decimal, signed_decimal_chars};

verus! {

broadcast use vstd::string::group_string_axioms;

/// The signing key of the local identity provider when none is configured.
pub const DEV_SIGNING_KEY: &'static str = "predicate-local-idp-dev-key";

/// Identity tokens must live at least as long as the mandates issued with
/// them.
pub open spec fn ttl_refusal(idp_token_ttl_s: i64, mandate_ttl_s: i64) -> Option<Seq<char>> {
    if idp_token_ttl_s < mandate_ttl_s {
        Some(
            "idp_token_ttl_s ("@ + signed_decimal(idp_token_ttl_s as int) + ") must be >= mandate_ttl_s ("@
                + signed_decimal(mandate_ttl_s as int) + ")"@,
        )
    } else {
        None
    }
}

/// Checks the time-to-live settings.
pub fn validate_ttls(idp_token_ttl_s: i64, mandate_ttl_s: i64) -> (r: Result<(), String>)
    ensures
        match ttl_refusal(idp_token_ttl_s, mandate_ttl_s) {
            Some(m) => r matches Err(x) && x@ == m,
            None => r is Ok,
        },
{
    if idp_token_ttl_s < mandate_ttl_s {
        let mut m: Vec<char> = Vec::new();
        append_str(&mut m, "idp_token_ttl_s (");
        append_chars(&mut m, signed_decimal_chars(idp_token_ttl_s).as_slice());
        append_str(&mut m, ") must be >= mandate_ttl_s (");
        append_chars(&mut m, signed_decimal_chars(mandate_ttl_s).as_slice());
        append_str(&mut m, ")");
        return Err(string_from_chars(m.as_slice()));
    }
    Ok(())
}

/// The identity mode is one of the local ones.
pub open spec fn local_identity(identity_mode: Seq<char>) -> bool {
    identity_mode == "local"@ || identity_mode == "local-idp"@
}

/// A cloud-connected daemon may use a local identity only when the local
/// fallback is allowed explicitly.
pub open spec fn fallback_refusal(mode: Seq<char>, identity_mode: Seq<char>, allow_local_fallback: bool) -> Option<Seq<char>> {
    if mode == "cloud_connected"@ && local_identity(identity_mode) && !allow_local_fallback {
        Some(
            "cloud_connected mode with "@ + identity_mode
                + " identity requires explicit --allow-local-fallback. Without this flag, implicit local fallback is denied for security."@,
        )
    } else {
        None
    }
}

/// Checks the local-fallback rule.
pub fn validate_local_fallback(mode: &str, identity_mode: &str, allow_local_fallback: bool) -> (r: Result<(), String>)
    ensures
        match fallback_refusal(mode@, identity_mode@, allow_local_fallback) {
            Some(m) => r matches Err(x) && x@ == m,
            None => r is Ok,
        },
{
    let m = chars_of(mode);
    let i = chars_of(identity_mode);
    let local = crate::text::eq_str(i.as_slice(), "local") || crate::text::eq_str(i.as_slice(), "local-idp");
    if crate::text::eq_str(m.as_slice(), "cloud_connected") && local && !allow_local_fallback {
        let mut out: Vec<char> = Vec::new();
        append_str(&mut out, "cloud_connected mode with ");
        append_str(&mut out, identity_mode);
        append_str(
            &mut out,
            " identity requires explicit --allow-local-fallback. Without this flag, implicit local fallback is denied for security.",
        );
        return Err(string_from_chars(out.as_slice()));
    }
    Ok(())
}

/// Which settings of an external identity provider are given: issuer (or
/// tenant), client id, audience.
#[derive(Debug, Clone, Copy)]
pub struct ProviderSettings {
    pub has_issuer: bool,
    pub has_client_id: bool,
    pub has_audience: bool,
}

/// All three settings are given.
pub open spec fn complete(s: ProviderSettings) -> bool {
    s.has_issuer && s.has_client_id && s.has_audience
}

/// An OIDC, Entra or Okta identity mode needs its three settings.
pub open spec fn provider_refusal(
    identity_mode: Seq<char>,
    oidc: ProviderSettings,
    entra: ProviderSettings,
    okta: ProviderSettings,
) -> Option<Seq<char>> {
    if identity_mode == "oidc"@ && !complete(oidc) {
        Some("identity-mode=oidc requires --oidc-issuer, --oidc-client-id, and --oidc-audience"@)
    } else if identity_mode == "entra"@ && !complete(entra) {
        Some("identity-mode=entra requires --entra-tenant-id, --entra-client-id, and --entra-audience"@)
    } else if identity_mode == "okta"@ && !complete(okta) {
        Some("identity-mode=okta requires --okta-issuer, --okta-client-id, and --okta-audience"@)
    } else {
        None
    }
}

/// Checks the settings the identity mode needs.
pub fn validate_provider_settings(
    identity_mode: &str,
    oidc: ProviderSettings,
    entra: ProviderSettings,
    okta: ProviderSettings,
) -> (r: Result<(), String>)
    ensures
        match provider_refusal(identity_mode@, oidc, entra, okta) {
            Some(m) => r matches Err(x) && x@ == m,
            None => r is Ok,
        },
{
    let i = chars_of(identity_mode);
    if crate::text::eq_str(i.as_slice(), "oidc") && !(oidc.has_issuer && oidc.has_client_id && oidc.has_audience) {
        return Err(owned("identity-mode=oidc requires --oidc-issuer, --oidc-client-id, and --oidc-audience"));
    }
    if crate::text::eq_str(i.as_slice(), "entra") && !(entra.has_issuer && entra.has_client_id && entra.has_audience) {
        return Err(owned("identity-mode=entra requires --entra-tenant-id, --entra-client-id, and --entra-audience"));
    }
    if crate::text::eq_str(i.as_slice(), "okta") && !(okta.has_issuer && okta.has_client_id && okta.has_audience) {
        return Err(owned("identity-mode=okta requires --okta-issuer, --okta-client-id, and --okta-audience"));
    }
    Ok(())
}

/// A policy file whose name (in lowercase) mentions `audit`, `dry-run` or
/// `dryrun` runs the engine in audit mode.
pub open spec fn audit_named(path: Seq<char>) -> bool {
    let l = lowercase(path);
    contains_seq(l, "audit"@) || contains_seq(l, "dry-run"@) || contains_seq(l, "dryrun"@)
}

/// Whether the policy file name asks for audit mode.
pub fn audit_mode_from_policy_path(path: &str) -> (r: bool)
    ensures
        r == audit_named(path@),
{
    let l = to_lowercase(path);
    let c = chars_of(l.as_str());
    contains_str(c.as_slice(), "audit") || contains_str(c.as_slice(), "dry-run") || contains_str(c.as_slice(), "dryrun")
}

/// The SSRF allow-list: the configured entries, or, when there are none,
/// the policy file's; otherwise the policy file's entries not yet listed
/// are added in order.
pub open spec fn merged_allow_list(configured: Seq<Seq<char>>, from_policy: Seq<Seq<char>>) -> Seq<Seq<char>>
    decreases from_policy.len(),
{
    if configured.len() == 0 {
        from_policy
    } else if from_policy.len() == 0 {
        configured
    } else {
        let before = merged_allow_list(configured, from_policy.drop_last());
        if before.contains(from_policy.last()) {
            before
        } else {
            before.push(from_policy.last())
        }
    }
}

/// Merges the SSRF allow-list of the policy file into the configured one.
pub fn merge_ssrf_allow_list(configured: Vec<String>, from_policy: Vec<String>) -> (r: Vec<String>)
    ensures
        string_views(r@) == merged_allow_list(string_views(configured@), string_views(from_policy@)),
{
    if configured.len() == 0 {
        return from_policy;
    }
    let ghost conf = string_views(configured@);
    let ghost pol = string_views(from_policy@);
    let mut out = configured;
    let mut i: usize = 0;
    assert(pol.subrange(0, 0) =~= Seq::<Seq<char>>::empty());
    while i < from_policy.len()
        invariant
            i <= from_policy@.len(),
            conf.len() > 0,
            pol == string_views(from_policy@),
            string_views(out@) == merged_allow_list(conf, pol.subrange(0, i as int)),
        decreases from_policy@.len() - i,
    {
        assert(pol.subrange(0, i + 1).drop_last() =~= pol.subrange(0, i as int));
        assert(pol.subrange(0, i + 1).last() == from_policy@[i as int]@);
        if !has_label(&out, &from_policy[i]) {
            let ghost before = out@;
            out.push(from_policy[i].clone());
            assert(string_views(out@) =~= string_views(before).push(from_policy@[i as int]@));
        }
        i = i + 1;
    }
    assert(pol.subrange(0, pol.len() as int) =~= pol);
    out
}

/// What becomes of the control plane at startup: in cloud-connected mode a
/// client is built when URL, tenant and project are all given; when one is
/// missing the daemon refuses to start unless failing open.
pub open spec fn control_plane_plan_of(
    mode: Seq<char>,
    has_url: bool,
    has_tenant: bool,
    has_project: bool,
    fail_open: bool,
) -> Result<bool, Seq<char>> {
    if mode != "cloud_connected"@ {
        Ok(false)
    } else if has_url && has_tenant && has_project {
        Ok(true)
    } else if fail_open {
        Ok(false)
    } else {
        Err("Missing required control-plane configuration"@)
    }
}

/// Whether to build a control-plane client (`Ok(true)`), go on without one
/// (`Ok(false)`), or refuse to start.
pub fn control_plane_plan(mode: &str, has_url: bool, has_tenant: bool, has_project: bool, fail_open: bool) -> (r: Result<bool, String>)
    ensures
        match control_plane_plan_of(mode@, has_url, has_tenant, has_project, fail_open) {
            Ok(b) => r == Ok::<bool, String>(b),
            Err(m) => r matches Err(x) && x@ == m,
        },
{
    let m = chars_of(mode);
    if !crate::text::eq_str(m.as_slice(), "cloud_connected") {
        return Ok(false);
    }
    if has_url && has_tenant && has_project {
        Ok(true)
    } else if fail_open {
        Ok(false)
    } else {
        Err(owned("Missing required control-plane configuration"))
    }
}

/// What a failure to build the control-plane client means: nothing when
/// failing open, else a refusal to start.
pub fn control_plane_client_failure(fail_open: bool) -> (r: Result<(), String>)
    ensures
        fail_open <==> r is Ok,
        r matches Err(x) ==> x@ == "Control-plane initialization failed and fail_open is disabled"@,
{
    if fail_open {
        Ok(())
    } else {
        Err(owned("Control-plane initialization failed and fail_open is disabled"))
    }
}

/// Applies a sync snapshot received at `now`: when it reports a change,
/// the revocation cache takes its revocations, the engine takes the rules
/// of its policy document (when it has one with a rules array, parsed by
/// the caller), and the current sync token becomes the snapshot's; when it
/// reports none, nothing changes.
pub fn apply_sync_snapshot_at(
    snapshot: &AuthoritySyncSnapshot,
    policy_rules: Option<Vec<PolicyRule>>,
    cache: &mut RevocationCache,
    engine: &mut PolicyEngine,
    current_token: &mut Option<String>,
    now: i64,
)
    requires
        old(cache).wf(),
    ensures
        final(cache).wf(),
        snapshot.changed ==> {
            &&& final(cache).spec_revocations() == revocation_views(snapshot.revocations@)
            &&& final(cache).spec_mandates() == Seq::<Seq<char>>::empty()
            &&& final(cache).spec_last_updated() == Some(now)
            &&& *final(current_token) == Some(snapshot.sync_token)
            &&& match policy_rules {
                Some(rs) => final(engine).spec_rules() == rs@,
                None => final(engine).spec_rules() == old(engine).spec_rules(),
            }
        },
        !snapshot.changed ==> *final(cache) == *old(cache) && *final(current_token) == *old(current_token)
            && final(engine).spec_rules() == old(engine).spec_rules(),
        final(engine).spec_ssrf() == old(engine).spec_ssrf(),
        final(engine).spec_audit() == old(engine).spec_audit(),
        final(engine).spec_home() == old(engine).spec_home(),
{
    if !snapshot.changed {
        return;
    }
    let none: Vec<String> = Vec::new();
    cache.update_from_full_snapshot_at(&snapshot.revocations, &none, now);
    assert(crate::control_plane::distinct(string_views(none@)) =~= Seq::<Seq<char>>::empty());
    match policy_rules {
        Some(rs) => engine.replace_rules(rs),
        None => {},
    }
    *current_token = Some(snapshot.sync_token.clone());
}

} // verus!
