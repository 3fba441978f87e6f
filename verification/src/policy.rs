//! Policy engine: evaluates authorization requests against an ordered list
//! of rules with glob patterns for principals, actions and resources.
//!
//! Evaluation is fail-closed and first-match-wins: SSRF protection (when
//! enabled) acts as an implicit deny; otherwise the first rule whose
//! principal, action and resource patterns all match decides; a matching
//! ALLOW rule still denies when required verification labels are missing;
//! no matching rule means deny.
use vstd::prelude::*;

use std::collections::HashMap;

use crate::glob_match::{
    glob_compile_and_match, glob_pattern_compiles, glob_pattern_matches, glob_stable, pattern_decided, patterns_stable,
    plain_literal,
};
use crate::models::{
    AuthorizationDecision, AuthorizationReason, PolicyEffect, PolicyRule, SidecarAuthorizeRequest,
};
use crate::paths::{normalize_path_with_home, normalized_path};
use crate::secrets::{missing_in, pair_views, push_missing_refs, EnvSnapshot};
use crate::ssrf::{resource_block, SsrfProtection};
use crate::text::{
    append_chars, append_str, chars_of, eq_str, is_prefix, starts_with_str, string_from_chars,
    string_views,
};

verus! {

broadcast use vstd::string::group_string_axioms;

/// A policy pattern matches a value: `*` matches everything, a plain
/// literal its equal text, any other pattern matches as a glob when it
/// compiles.
pub open spec fn pattern_matches(pattern: Seq<char>, value: Seq<char>) -> bool {
    if pattern == seq!['*'] {
        true
    } else if plain_literal(pattern) {
        pattern == value
    } else {
        glob_pattern_compiles(pattern) && glob_pattern_matches(pattern, value)
    }
}

/// Matches a glob pattern against a value (`*` matches everything; a
/// pattern the glob crate rejects matches nothing).
pub fn matches_pattern(pattern: &str, value: &str) -> (r: bool)
    ensures
        pattern_decided(pattern@, value@) ==> r == pattern_matches(pattern@, value@),
        pattern@ == seq!['*'] ==> r,
{
    let p = chars_of(pattern);
    proof {
        reveal_strlit("*");
        assert("*"@ =~= seq!['*']);
    }
    if eq_str(p.as_slice(), "*") {
        return true;
    }
    match glob_compile_and_match(pattern, value) {
        Some(m) => m,
        None => false,
    }
}

/// Some pattern of the list matches the value.
pub open spec fn any_pattern_matches(patterns: Seq<String>, value: Seq<char>) -> bool {
    exists|i: int| 0 <= i < patterns.len() && #[trigger] pattern_matches(patterns[i]@, value)
}

/// Whether some pattern of the list matches the value.
pub fn any_matches(patterns: &Vec<String>, value: &str) -> (r: bool)
    ensures
        patterns_stable(patterns@, value@) ==> r == any_pattern_matches(patterns@, value@),
{
    let mut i: usize = 0;
    while i < patterns.len()
        invariant
            i <= patterns@.len(),
            patterns_stable(patterns@, value@) ==> forall|j: int| 0 <= j < i ==> !#[trigger] pattern_matches(patterns@[j]@, value@),
        decreases patterns@.len() - i,
    {
        proof {
            if patterns_stable(patterns@, value@) {
                assert(pattern_decided(patterns@[i as int]@, value@));
            }
        }
        if matches_pattern(patterns[i].as_str(), value) {
            return true;
        }
        i = i + 1;
    }
    false
}

/// The resource text that rules are matched against: for `fs.*` actions
/// the normalized path, otherwise the resource as given.
pub open spec fn match_resource(
    action: Seq<char>,
    resource: Seq<char>,
    home: Option<Seq<char>>,
) -> Seq<char> {
    if is_prefix("fs."@, action) {
        normalized_path(resource, home)
    } else {
        resource
    }
}

/// A rule matches a request: some principal, some action and some resource
/// pattern match.
pub open spec fn rule_matches(
    rule: PolicyRule,
    principal: Seq<char>,
    action: Seq<char>,
    resource: Seq<char>,
    home: Option<Seq<char>>,
) -> bool {
    &&& any_pattern_matches(rule.principals@, principal)
    &&& any_pattern_matches(rule.actions@, action)
    &&& any_pattern_matches(rule.resources@, match_resource(action, resource, home))
}

/// Every pattern of the rule is decided against the text it is matched
/// against: none rests on glob matching of a backslash.
pub open spec fn rule_stable(
    rule: PolicyRule,
    principal: Seq<char>,
    action: Seq<char>,
    resource: Seq<char>,
    home: Option<Seq<char>>,
) -> bool {
    &&& patterns_stable(rule.principals@, principal)
    &&& patterns_stable(rule.actions@, action)
    &&& patterns_stable(rule.resources@, match_resource(action, resource, home))
}

/// Every rule is stable for the request.
pub open spec fn rules_stable(
    rules: Seq<PolicyRule>,
    principal: Seq<char>,
    action: Seq<char>,
    resource: Seq<char>,
    home: Option<Seq<char>>,
) -> bool {
    forall|i: int| 0 <= i < rules.len() ==> #[trigger] rule_stable(rules[i], principal, action, resource, home)
}

/// Index of the first rule at or after `k` that matches.
pub open spec fn first_match_from(
    rules: Seq<PolicyRule>,
    k: int,
    principal: Seq<char>,
    action: Seq<char>,
    resource: Seq<char>,
    home: Option<Seq<char>>,
) -> Option<int>
    decreases rules.len() - k,
{
    if k < 0 || k >= rules.len() {
        None
    } else if rule_matches(rules[k], principal, action, resource, home) {
        Some(k)
    } else {
        first_match_from(rules, k + 1, principal, action, resource, home)
    }
}

/// Required labels that are not among the passed labels, in rule order.
pub open spec fn missing_of(required: Seq<Seq<char>>, passed: Seq<Seq<char>>) -> Seq<Seq<char>>
    decreases required.len(),
{
    if required.len() == 0 {
        Seq::empty()
    } else {
        let m = missing_of(required.drop_last(), passed);
        if passed.contains(required.last()) {
            m
        } else {
            m.push(required.last())
        }
    }
}

/// Outcome of an evaluation: allowed, reason, matched rule, missing labels.
pub type Outcome = (bool, AuthorizationReason, Option<Seq<char>>, Seq<Seq<char>>);

/// The decision of the rules alone (no SSRF check).
pub open spec fn rules_decision(
    rules: Seq<PolicyRule>,
    principal: Seq<char>,
    action: Seq<char>,
    resource: Seq<char>,
    labels: Seq<Seq<char>>,
    home: Option<Seq<char>>,
) -> Outcome {
    match first_match_from(rules, 0, principal, action, resource, home) {
        None => (false, AuthorizationReason::NoMatchingPolicy, None, Seq::empty()),
        Some(i) => {
            let rule = rules[i];
            match rule.effect {
                PolicyEffect::Deny => (
                    false,
                    AuthorizationReason::ExplicitDeny,
                    Some(rule.name@),
                    Seq::empty(),
                ),
                PolicyEffect::Allow => {
                    let miss = missing_of(string_views(rule.required_labels@), labels);
                    if miss.len() > 0 {
                        (
                            false,
                            AuthorizationReason::MissingRequiredVerification,
                            Some(rule.name@),
                            miss,
                        )
                    } else {
                        (true, AuthorizationReason::Allowed, Some(rule.name@), Seq::empty())
                    }
                },
            }
        },
    }
}

/// The full decision: SSRF protection first, then the rules.
pub open spec fn policy_decision(
    rules: Seq<PolicyRule>,
    ssrf: Option<SsrfProtection>,
    principal: Seq<char>,
    action: Seq<char>,
    resource: Seq<char>,
    labels: Seq<Seq<char>>,
    home: Option<Seq<char>>,
) -> Outcome {
    let blocked = match ssrf {
        Some(p) => resource_block(p, resource),
        None => None,
    };
    match blocked {
        Some(reason) => (
            false,
            AuthorizationReason::ExplicitDeny,
            Some("ssrf-protection: "@ + reason),
            Seq::empty(),
        ),
        None => rules_decision(rules, principal, action, resource, labels, home),
    }
}

/// Result of matching a request against the rules.
#[derive(Debug, Clone)]
pub struct PolicyMatchResult {
    pub allowed: bool,
    pub reason: AuthorizationReason,
    pub matched_rule: Option<String>,
    pub missing_labels: Vec<String>,
}

/// The outcome a result reports.
pub open spec fn outcome_of(r: PolicyMatchResult) -> Outcome {
    (
        r.allowed,
        r.reason,
        match r.matched_rule {
            Some(m) => Some(m@),
            None => None,
        },
        string_views(r.missing_labels@),
    )
}

/// Text of an optional string.
pub open spec fn opt_view(o: Option<String>) -> Option<Seq<char>> {
    match o {
        Some(s) => Some(s@),
        None => None,
    }
}

/// The text of a home directory option.
pub open spec fn home_view(h: Option<String>) -> Option<Seq<char>> {
    opt_view(h)
}

/// A copy of a list of strings.
pub fn clone_strings(v: &Vec<String>) -> (r: Vec<String>)
    ensures
        r@ == v@,
{
    let mut r: Vec<String> = Vec::new();
    let mut i: usize = 0;
    while i < v.len()
        invariant
            i <= v@.len(),
            r@ == v@.subrange(0, i as int),
        decreases v@.len() - i,
    {
        r.push(v[i].clone());
        i = i + 1;
    }
    assert(v@.subrange(0, v@.len() as int) =~= v@);
    r
}

/// Optional copy of a string map.
fn clone_opt_map(m: &Option<HashMap<String, String>>) -> (r: Option<HashMap<String, String>>)
    ensures
        match (m, r) {
            (Some(a), Some(b)) => a@ == b@,
            (None, None) => true,
            _ => false,
        },
{
    match m {
        Some(a) => Some(a.clone()),
        None => None,
    }
}

impl PolicyRule {
    /// A copy of the rule.
    pub fn duplicate(&self) -> (r: PolicyRule)
        ensures
            r.name@ == self.name@,
            r.effect == self.effect,
            r.principals@ == self.principals@,
            r.actions@ == self.actions@,
            r.resources@ == self.resources@,
            r.required_labels@ == self.required_labels@,
            r.max_delegation_depth == self.max_delegation_depth,
            r.inject_headers is Some == self.inject_headers is Some,
            r.inject_env is Some == self.inject_env is Some,
    {
        PolicyRule {
            name: self.name.clone(),
            effect: self.effect,
            principals: clone_strings(&self.principals),
            actions: clone_strings(&self.actions),
            resources: clone_strings(&self.resources),
            required_labels: clone_strings(&self.required_labels),
            max_delegation_depth: self.max_delegation_depth,
            inject_headers: clone_opt_map(&self.inject_headers),
            inject_headers_from_file: clone_opt_map(&self.inject_headers_from_file),
            inject_env: clone_opt_map(&self.inject_env),
            inject_env_from_file: clone_opt_map(&self.inject_env_from_file),
        }
    }
}

/// Two rules agree on everything evaluation reads.
pub open spec fn same_rule(a: PolicyRule, b: PolicyRule) -> bool {
    &&& a.name@ == b.name@
    &&& a.effect == b.effect
    &&& a.principals@ == b.principals@
    &&& a.actions@ == b.actions@
    &&& a.resources@ == b.resources@
    &&& a.required_labels@ == b.required_labels@
    &&& a.max_delegation_depth == b.max_delegation_depth
    &&& a.inject_headers is Some == b.inject_headers is Some
    &&& a.inject_env is Some == b.inject_env is Some
}

/// `s` lists the values of the optional map, one per key, in some order:
/// nothing for an absent map.
pub open spec fn lists_values(m: Option<HashMap<String, String>>, s: Seq<Seq<char>>) -> bool {
    match m {
        None => s.len() == 0,
        Some(m) => {
            &&& s.len() == m@.dom().len()
            &&& forall|i: int| #![trigger s[i]] 0 <= i < s.len() ==> exists|k: String| #[trigger] m@.dom().contains(k) && m@[k]@ == s[i]
            &&& forall|k: String| #[trigger] m@.dom().contains(k) ==> exists|i: int| 0 <= i < s.len() && s[i] == m@[k]@
        },
    }
}

/// `HashMap::values`, collected: each value of the map once per key, in
/// the map's own order, which depends on its hasher and is left open here.
#[verifier::external_body]
fn map_values(m: &HashMap<String, String>) -> (r: Vec<String>)
    ensures
        lists_values(Some(*m), string_views(r@)),
{
    m.values().cloned().collect()
}

/// The values of an optional map (none for an absent map).
fn opt_map_values(m: &Option<HashMap<String, String>>) -> (r: Vec<String>)
    ensures
        lists_values(*m, string_views(r@)),
{
    match m {
        Some(x) => map_values(x),
        None => {
            let v: Vec<String> = Vec::new();
            assert(string_views(v@) =~= Seq::<Seq<char>>::empty());
            v
        },
    }
}

/// A walk of the rules' secret templates: for each rule, its header
/// templates and its environment templates, each listed in some order.
pub open spec fn is_template_walk(rules: Seq<PolicyRule>, walk: Seq<(Seq<Seq<char>>, Seq<Seq<char>>)>) -> bool {
    &&& walk.len() == rules.len()
    &&& forall|i: int| 0 <= i < rules.len() ==> lists_values(#[trigger] rules[i].inject_headers, walk[i].0) && lists_values(rules[i].inject_env, walk[i].1)
}

/// `(rule name, variable)` for each unset required variable that the
/// walked templates reference: rule by rule, header templates first.
pub open spec fn walk_missing(
    rules: Seq<PolicyRule>,
    walk: Seq<(Seq<Seq<char>>, Seq<Seq<char>>)>,
    vars: Seq<(String, String)>,
) -> Seq<(Seq<char>, Seq<char>)>
    decreases rules.len(),
{
    if rules.len() == 0 || walk.len() == 0 {
        Seq::empty()
    } else {
        walk_missing(rules.drop_last(), walk.drop_last(), vars) + missing_in(rules.last().name@, walk.last().0, vars)
            + missing_in(rules.last().name@, walk.last().1, vars)
    }
}

/// Policy engine holding the ordered rules, the audit-mode flag, the
/// optional SSRF protection and the home directory used to expand `~/`.
pub struct PolicyEngine {
    rules: Vec<PolicyRule>,
    audit_mode: bool,
    ssrf_protection: Option<SsrfProtection>,
    home_dir: Option<String>,
}

impl PolicyEngine {
    /// The rules, in evaluation order.
    pub closed spec fn spec_rules(&self) -> Seq<PolicyRule> {
        self.rules@
    }

    /// The SSRF protection in force, if any.
    pub closed spec fn spec_ssrf(&self) -> Option<SsrfProtection> {
        self.ssrf_protection
    }

    /// Whether audit mode is on.
    pub closed spec fn spec_audit(&self) -> bool {
        self.audit_mode
    }

    /// The home directory used to expand `~/` in `fs.*` resources.
    pub closed spec fn spec_home(&self) -> Option<Seq<char>> {
        home_view(self.home_dir)
    }

    /// An engine with no rules, default SSRF protection and audit mode off.
    pub fn new() -> (r: Self)
        ensures
            r.spec_rules().len() == 0,
            r.spec_ssrf() matches Some(p) && p.spec_is_default(),
            !r.spec_audit(),
            r.spec_home() is None,
    {
        PolicyEngine {
            rules: Vec::new(),
            audit_mode: false,
            ssrf_protection: Some(SsrfProtection::new()),
            home_dir: None,
        }
    }

    /// An engine with the given rules, default SSRF protection, audit off.
    pub fn with_rules(rules: Vec<PolicyRule>) -> (r: Self)
        ensures
            r.spec_rules() == rules@,
            r.spec_ssrf() matches Some(p) && p.spec_is_default(),
            !r.spec_audit(),
            r.spec_home() is None,
    {
        PolicyEngine {
            rules,
            audit_mode: false,
            ssrf_protection: Some(SsrfProtection::new()),
            home_dir: None,
        }
    }

    /// Sets the home directory used to expand `~/` in `fs.*` resources.
    pub fn set_home_dir(&mut self, home: Option<String>)
        ensures
            final(self).spec_home() == home_view(home),
            final(self).spec_rules() == old(self).spec_rules(),
            final(self).spec_ssrf() == old(self).spec_ssrf(),
            final(self).spec_audit() == old(self).spec_audit(),
    {
        self.home_dir = home;
    }

    /// Enables, replaces or (with `None`) disables SSRF protection.
    pub fn set_ssrf_protection(&mut self, protection: Option<SsrfProtection>)
        ensures
            final(self).spec_ssrf() == protection,
            final(self).spec_rules() == old(self).spec_rules(),
            final(self).spec_audit() == old(self).spec_audit(),
            final(self).spec_home() == old(self).spec_home(),
    {
        self.ssrf_protection = protection;
    }

    /// Whether SSRF protection is enabled.
    pub fn has_ssrf_protection(&self) -> (r: bool)
        ensures
            r == self.spec_ssrf() is Some,
    {
        self.ssrf_protection.is_some()
    }

    /// Turns audit (dry-run) mode on or off.
    pub fn set_audit_mode(&mut self, enabled: bool)
        ensures
            final(self).spec_audit() == enabled,
            final(self).spec_rules() == old(self).spec_rules(),
            final(self).spec_ssrf() == old(self).spec_ssrf(),
            final(self).spec_home() == old(self).spec_home(),
    {
        self.audit_mode = enabled;
    }

    /// Whether audit mode is on.
    pub fn is_audit_mode(&self) -> (r: bool)
        ensures
            r == self.spec_audit(),
    {
        self.audit_mode
    }

    /// Replaces all rules.
    pub fn replace_rules(&mut self, rules: Vec<PolicyRule>)
        ensures
            final(self).spec_rules() == rules@,
            final(self).spec_ssrf() == old(self).spec_ssrf(),
            final(self).spec_audit() == old(self).spec_audit(),
            final(self).spec_home() == old(self).spec_home(),
    {
        self.rules = rules;
    }

    /// Number of rules.
    pub fn rule_count(&self) -> (r: usize)
        ensures
            r == self.spec_rules().len(),
    {
        self.rules.len()
    }

    /// Every `(rule name, variable)` for which a rule's header or
    /// environment template references a required variable that `env`
    /// lacks. Rules are taken in order, header templates before
    /// environment templates; within a map the templates come in the map's
    /// own order, so the contract holds for some such walk.
    pub fn get_missing_secret_references(&self, env: &EnvSnapshot) -> (r: Vec<(String, String)>)
        ensures
            exists|walk: Seq<(Seq<Seq<char>>, Seq<Seq<char>>)>| #[trigger] is_template_walk(self.spec_rules(), walk)
                && pair_views(r@) == walk_missing(self.spec_rules(), walk, env.vars@),
    {
        let ghost rules = self.rules@;
        let ghost mut walk: Seq<(Seq<Seq<char>>, Seq<Seq<char>>)> = Seq::empty();
        let mut out: Vec<(String, String)> = Vec::new();
        let mut i: usize = 0;
        assert(pair_views(out@) =~= Seq::<(Seq<char>, Seq<char>)>::empty());
        while i < self.rules.len()
            invariant
                i <= rules.len(),
                rules == self.rules@,
                walk.len() == i,
                forall|k: int| 0 <= k < i ==> lists_values(#[trigger] rules[k].inject_headers, walk[k].0) && lists_values(rules[k].inject_env, walk[k].1),
                pair_views(out@) == walk_missing(rules.take(i as int), walk, env.vars@),
            decreases rules.len() - i,
        {
            let rule = &self.rules[i];
            let headers = opt_map_values(&rule.inject_headers);
            let env_templates = opt_map_values(&rule.inject_env);
            push_missing_refs(&mut out, &rule.name, &headers, env);
            push_missing_refs(&mut out, &rule.name, &env_templates, env);
            proof {
                let ghost old_walk = walk;
                walk = walk.push((string_views(headers@), string_views(env_templates@)));
                assert(rules.take(i + 1).drop_last() =~= rules.take(i as int));
                assert(walk.drop_last() =~= old_walk);
                assert(rules.take(i + 1).last() == rules[i as int]);
                assert forall|k: int| 0 <= k < i + 1 implies lists_values(#[trigger] rules[k].inject_headers, walk[k].0) && lists_values(rules[k].inject_env, walk[k].1) by {
                    if k < i {
                        assert(walk[k] == old_walk[k]);
                    }
                }
            }
            i = i + 1;
        }
        assert(rules.take(rules.len() as int) =~= rules);
        assert(is_template_walk(self.spec_rules(), walk));
        out
    }

    /// A copy of all rules.
    pub fn get_rules(&self) -> (r: Vec<PolicyRule>)
        ensures
            r@.len() == self.spec_rules().len(),
            forall|i: int| 0 <= i < r@.len() ==> same_rule(#[trigger] r@[i], self.spec_rules()[i]),
    {
        let mut out: Vec<PolicyRule> = Vec::new();
        let mut i: usize = 0;
        while i < self.rules.len()
            invariant
                i <= self.rules@.len(),
                out@.len() == i,
                forall|k: int| 0 <= k < i ==> same_rule(#[trigger] out@[k], self.rules@[k]),
            decreases self.rules@.len() - i,
        {
            out.push(self.rules[i].duplicate());
            i = i + 1;
        }
        out
    }

    /// Evaluates a request with the labels it carries.
    pub fn evaluate(&self, request: &SidecarAuthorizeRequest) -> (r: PolicyMatchResult)
        ensures
            rules_stable(self.spec_rules(), request.principal@, request.action@, request.resource@, self.spec_home())
                ==> outcome_of(r) == policy_decision(
                self.spec_rules(),
                self.spec_ssrf(),
                request.principal@,
                request.action@,
                request.resource@,
                string_views(request.labels@),
                self.spec_home(),
            ),
    {
        self.evaluate_with_labels(request, &request.labels)
    }

    /// Whether rule `rule` matches the request.
    fn matches_rule(&self, rule: &PolicyRule, request: &SidecarAuthorizeRequest) -> (r: bool)
        ensures
            rule_stable(*rule, request.principal@, request.action@, request.resource@, self.spec_home()) ==> r
                == rule_matches(
                *rule,
                request.principal@,
                request.action@,
                request.resource@,
                self.spec_home(),
            ),
    {
        let principal_matches = any_matches(&rule.principals, request.principal.as_str());
        let action_matches = any_matches(&rule.actions, request.action.as_str());
        let action = chars_of(request.action.as_str());
        proof {
            reveal_strlit("fs.");
        }
        let normalized_resource = if starts_with_str(action.as_slice(), "fs.") {
            let home: Option<&str> = match &self.home_dir {
                Some(h) => Some(h.as_str()),
                None => None,
            };
            normalize_path_with_home(request.resource.as_str(), home)
        } else {
            request.resource.clone()
        };
        let resource_matches = any_matches(&rule.resources, normalized_resource.as_str());
        principal_matches && action_matches && resource_matches
    }

    /// Evaluates a request with explicit verification labels.
    pub fn evaluate_with_labels(
        &self,
        request: &SidecarAuthorizeRequest,
        passed_labels: &Vec<String>,
    ) -> (r: PolicyMatchResult)
        ensures
            rules_stable(self.spec_rules(), request.principal@, request.action@, request.resource@, self.spec_home())
                ==> outcome_of(r) == policy_decision(
                self.spec_rules(),
                self.spec_ssrf(),
                request.principal@,
                request.action@,
                request.resource@,
                string_views(passed_labels@),
                self.spec_home(),
            ),
    {
        match &self.ssrf_protection {
            Some(ssrf) => {
                match ssrf.check_resource(request.resource.as_str()) {
                    Some(reason) => {
                        let mut m: Vec<char> = Vec::new();
                        append_str(&mut m, "ssrf-protection: ");
                        let rv = chars_of(reason.as_str());
                        append_chars(&mut m, rv.as_slice());
                        let missing: Vec<String> = Vec::new();
                        assert(string_views(missing@) =~= Seq::<Seq<char>>::empty());
                        return PolicyMatchResult {
                            allowed: false,
                            reason: AuthorizationReason::ExplicitDeny,
                            matched_rule: Some(string_from_chars(m.as_slice())),
                            missing_labels: missing,
                        };
                    },
                    None => {},
                }
            },
            None => {},
        }
        let ghost principal = request.principal@;
        let ghost action = request.action@;
        let ghost resource = request.resource@;
        let ghost home = self.spec_home();
        let mut i: usize = 0;
        while i < self.rules.len()
            invariant
                i <= self.rules@.len(),
                rules_stable(self.rules@, principal, action, resource, home) ==> first_match_from(self.rules@, 0, principal, action, resource, home)
                    == first_match_from(self.rules@, i as int, principal, action, resource, home),
                principal == request.principal@,
                action == request.action@,
                resource == request.resource@,
                home == self.spec_home(),
                match self.spec_ssrf() {
                    Some(p) => resource_block(p, resource) is None,
                    None => true,
                },
            decreases self.rules@.len() - i,
        {
            let rule = &self.rules[i];
            proof {
                if rules_stable(self.rules@, principal, action, resource, home) {
                    assert(rule_stable(self.rules@[i as int], principal, action, resource, home));
                }
            }
            if self.matches_rule(rule, request) {
                match rule.effect {
                    PolicyEffect::Deny => {
                        let missing: Vec<String> = Vec::new();
                        assert(string_views(missing@) =~= Seq::<Seq<char>>::empty());
                        return PolicyMatchResult {
                            allowed: false,
                            reason: AuthorizationReason::ExplicitDeny,
                            matched_rule: Some(rule.name.clone()),
                            missing_labels: missing,
                        };
                    },
                    PolicyEffect::Allow => {
                        let missing = missing_labels(&rule.required_labels, passed_labels);
                        if missing.len() > 0 {
                            return PolicyMatchResult {
                                allowed: false,
                                reason: AuthorizationReason::MissingRequiredVerification,
                                matched_rule: Some(rule.name.clone()),
                                missing_labels: missing,
                            };
                        }
                        return PolicyMatchResult {
                            allowed: true,
                            reason: AuthorizationReason::Allowed,
                            matched_rule: Some(rule.name.clone()),
                            missing_labels: missing,
                        };
                    },
                }
            }
            i = i + 1;
        }
        let missing: Vec<String> = Vec::new();
        assert(string_views(missing@) =~= Seq::<Seq<char>>::empty());
        PolicyMatchResult {
            allowed: false,
            reason: AuthorizationReason::NoMatchingPolicy,
            matched_rule: None,
            missing_labels: missing,
        }
    }
}

/// Whether the label list holds `label`.
pub(crate) fn has_label(labels: &Vec<String>, label: &String) -> (r: bool)
    ensures
        r == string_views(labels@).contains(label@),
{
    let mut i: usize = 0;
    while i < labels.len()
        invariant
            i <= labels@.len(),
            forall|j: int| 0 <= j < i ==> labels@[j]@ != label@,
        decreases labels@.len() - i,
    {
        if labels[i] == *label {
            assert(string_views(labels@)[i as int] == label@);
            return true;
        }
        i = i + 1;
    }
    proof {
        if string_views(labels@).contains(label@) {
            let j = choose|j: int|
                0 <= j < string_views(labels@).len() && string_views(labels@)[j] == label@;
            assert(labels@[j]@ == label@);
        }
    }
    false
}

/// Required labels that are missing from the passed labels, in order.
pub fn missing_labels(required: &Vec<String>, passed: &Vec<String>) -> (r: Vec<String>)
    ensures
        string_views(r@) == missing_of(string_views(required@), string_views(passed@)),
{
    let mut out: Vec<String> = Vec::new();
    let mut i: usize = 0;
    let ghost req = string_views(required@);
    let ghost pas = string_views(passed@);
    while i < required.len()
        invariant
            i <= required@.len(),
            req == string_views(required@),
            pas == string_views(passed@),
            string_views(out@) == missing_of(req.subrange(0, i as int), pas),
        decreases required@.len() - i,
    {
        let ghost pre = req.subrange(0, i as int);
        assert(req.subrange(0, i + 1).drop_last() =~= pre);
        assert(req.subrange(0, i + 1).last() == required@[i as int]@);
        if !has_label(passed, &required[i]) {
            out.push(required[i].clone());
            assert(string_views(out@) =~= missing_of(pre, pas).push(required@[i as int]@));
        }
        i = i + 1;
    }
    assert(req.subrange(0, req.len() as int) =~= req);
    out
}

impl AuthorizationDecision {
    /// The decision a match result stands for: the violated rule is the
    /// matched rule when the request is denied; no mandate is attached.
    pub fn from_match_result(result: PolicyMatchResult) -> (r: AuthorizationDecision)
        ensures
            r.allowed == result.allowed,
            r.reason == result.reason,
            r.mandate is None,
            r.violated_rule == (if result.allowed {
                None
            } else {
                result.matched_rule
            }),
            r.missing_labels@ == result.missing_labels@,
    {
        AuthorizationDecision {
            allowed: result.allowed,
            reason: result.reason,
            mandate: None,
            violated_rule: if !result.allowed {
                result.matched_rule
            } else {
                None
            },
            missing_labels: result.missing_labels,
        }
    }
}

/// Lemma: what `first_match_from` finds is the first matching rule at or
/// after `k`; `None` means no rule from `k` on matches.
pub proof fn lemma_first_match(
    rules: Seq<PolicyRule>,
    k: int,
    principal: Seq<char>,
    action: Seq<char>,
    resource: Seq<char>,
    home: Option<Seq<char>>,
)
    requires
        0 <= k,
    ensures
        match first_match_from(rules, k, principal, action, resource, home) {
            Some(i) => k <= i < rules.len() && rule_matches(
                rules[i],
                principal,
                action,
                resource,
                home,
            ) && forall|j: int|
                k <= j < i ==> !#[trigger] rule_matches(rules[j], principal, action, resource, home),
            None => forall|j: int|
                k <= j < rules.len() ==> !#[trigger] rule_matches(
                    rules[j],
                    principal,
                    action,
                    resource,
                    home,
                ),
        },
    decreases rules.len() - k,
{
    if k < rules.len() {
        lemma_first_match(rules, k + 1, principal, action, resource, home);
    }
}

/// Lemma: a label is missing exactly when it is required and not passed.
pub proof fn lemma_missing_of(required: Seq<Seq<char>>, passed: Seq<Seq<char>>)
    ensures
        missing_of(required, passed).len() == 0 <==> forall|j: int|
            0 <= j < required.len() ==> passed.contains(#[trigger] required[j]),
    decreases required.len(),
{
    if required.len() > 0 {
        lemma_missing_of(required.drop_last(), passed);
        if missing_of(required, passed).len() == 0 {
            assert forall|j: int| 0 <= j < required.len() implies passed.contains(
                #[trigger] required[j],
            ) by {
                if j < required.len() - 1 {
                    assert(required.drop_last()[j] == required[j]);
                }
            }
        } else {
            if passed.contains(required.last()) {
                let m = missing_of(required.drop_last(), passed);
                assert(m.len() > 0);
                let j = choose|j: int|
                    0 <= j < required.drop_last().len() && !passed.contains(
                        #[trigger] required.drop_last()[j],
                    );
                assert(required[j] == required.drop_last()[j]);
            }
        }
    }
}

/// Fail-closed: an allowed outcome means SSRF protection did not block the
/// resource, and the first rule matching the request is an ALLOW rule
/// whose required labels were all passed.
pub proof fn law_allowed_needs_first_matching_allow_rule(
    rules: Seq<PolicyRule>,
    ssrf: Option<SsrfProtection>,
    principal: Seq<char>,
    action: Seq<char>,
    resource: Seq<char>,
    labels: Seq<Seq<char>>,
    home: Option<Seq<char>>,
)
    requires
        policy_decision(rules, ssrf, principal, action, resource, labels, home).0,
    ensures
        match ssrf {
            Some(p) => resource_block(p, resource) is None,
            None => true,
        },
        exists|i: int|
            0 <= i < rules.len() && #[trigger] rule_matches(
                rules[i],
                principal,
                action,
                resource,
                home,
            ) && rules[i].effect == PolicyEffect::Allow && (forall|j: int|
                0 <= j < i ==> !#[trigger] rule_matches(rules[j], principal, action, resource, home))
                && (forall|l: int|
                0 <= l < rules[i].required_labels@.len() ==> labels.contains(
                    #[trigger] rules[i].required_labels@[l]@,
                )),
{
    lemma_first_match(rules, 0, principal, action, resource, home);
    let i = first_match_from(rules, 0, principal, action, resource, home).unwrap();
    let req = string_views(rules[i].required_labels@);
    lemma_missing_of(req, labels);
    assert forall|l: int| 0 <= l < rules[i].required_labels@.len() implies labels.contains(
        #[trigger] rules[i].required_labels@[l]@,
    ) by {
        assert(req[l] == rules[i].required_labels@[l]@);
    }
}

/// Without rules nothing is allowed: the answer is "no matching policy"
/// unless SSRF protection denies first.
pub proof fn law_no_rules_denies(
    ssrf: Option<SsrfProtection>,
    principal: Seq<char>,
    action: Seq<char>,
    resource: Seq<char>,
    labels: Seq<Seq<char>>,
    home: Option<Seq<char>>,
)
    ensures
        !policy_decision(Seq::empty(), ssrf, principal, action, resource, labels, home).0,
        (match ssrf {
            Some(p) => resource_block(p, resource) is None,
            None => true,
        }) ==> policy_decision(Seq::empty(), ssrf, principal, action, resource, labels, home)
            == (false, AuthorizationReason::NoMatchingPolicy, Option::<Seq<char>>::None, Seq::<
            Seq<char>,
        >::empty()),
{
}

/// First match wins: when the first rule matching the request is a DENY
/// rule the request is denied with an explicit deny naming that rule,
/// whatever later rules say.
pub proof fn law_first_matching_deny_wins(
    rules: Seq<PolicyRule>,
    ssrf: Option<SsrfProtection>,
    principal: Seq<char>,
    action: Seq<char>,
    resource: Seq<char>,
    labels: Seq<Seq<char>>,
    home: Option<Seq<char>>,
    i: int,
)
    requires
        0 <= i < rules.len(),
        rule_matches(rules[i], principal, action, resource, home),
        rules[i].effect == PolicyEffect::Deny,
        forall|j: int| 0 <= j < i ==> !#[trigger] rule_matches(rules[j], principal, action, resource, home),
    ensures
        !policy_decision(rules, ssrf, principal, action, resource, labels, home).0,
        policy_decision(rules, ssrf, principal, action, resource, labels, home).1
            == AuthorizationReason::ExplicitDeny,
{
    lemma_first_match(rules, 0, principal, action, resource, home);
    let f = first_match_from(rules, 0, principal, action, resource, home);
    match f {
        Some(k) => {
            if k < i {
            } else if k > i {
            }
        },
        None => {},
    }
}

/// SSRF protection is an implicit deny placed before every rule: a blocked
/// resource is denied explicitly, with the protection's reason, whatever
/// the rules allow.
pub proof fn law_ssrf_block_overrides_rules(
    rules: Seq<PolicyRule>,
    p: SsrfProtection,
    principal: Seq<char>,
    action: Seq<char>,
    resource: Seq<char>,
    labels: Seq<Seq<char>>,
    home: Option<Seq<char>>,
)
    requires
        resource_block(p, resource) is Some,
    ensures
        policy_decision(rules, Some(p), principal, action, resource, labels, home) == (
            false,
            AuthorizationReason::ExplicitDeny,
            Some("ssrf-protection: "@ + resource_block(p, resource).unwrap()),
            Seq::<Seq<char>>::empty(),
        ),
{
}

/// A matching ALLOW rule that comes first denies when a required
/// verification label was not passed, and names the missing labels.
pub proof fn law_missing_label_denies(
    rules: Seq<PolicyRule>,
    ssrf: Option<SsrfProtection>,
    principal: Seq<char>,
    action: Seq<char>,
    resource: Seq<char>,
    labels: Seq<Seq<char>>,
    home: Option<Seq<char>>,
    i: int,
    l: int,
)
    requires
        match ssrf {
            Some(p) => resource_block(p, resource) is None,
            None => true,
        },
        0 <= i < rules.len(),
        rule_matches(rules[i], principal, action, resource, home),
        rules[i].effect == PolicyEffect::Allow,
        forall|j: int| 0 <= j < i ==> !#[trigger] rule_matches(rules[j], principal, action, resource, home),
        0 <= l < rules[i].required_labels@.len(),
        !labels.contains(rules[i].required_labels@[l]@),
    ensures
        policy_decision(rules, ssrf, principal, action, resource, labels, home).1
            == AuthorizationReason::MissingRequiredVerification,
        !policy_decision(rules, ssrf, principal, action, resource, labels, home).0,
{
    lemma_first_match(rules, 0, principal, action, resource, home);
    let f = first_match_from(rules, 0, principal, action, resource, home);
    match f {
        Some(k) => {
            if k < i {
            } else if k > i {
            }
        },
        None => {},
    }
    let req = string_views(rules[i].required_labels@);
    lemma_missing_of(req, labels);
    assert(req[l] == rules[i].required_labels@[l]@);
}

}
