//! Checks of the execution proxy: does a requested action and resource stay
//! within what a mandate authorized, and which policy rule supplies the
//! secrets to inject.
use vstd::prelude::*;

use crate::glob_match::{
    glob_compile_and_match, glob_pattern_compiles, glob_pattern_matches, glob_stable, pattern_decided, patterns_stable,
    plain_literal,
};
use crate::ledger::InMemoryProofLedger;
use crate::models::{
    AuthorizationReason, ExecuteRequest, ExecuteResponse, ExecuteResult, PolicyEffect, PolicyRule,
    SignedMandate,
};
use crate::policy::{same_rule, PolicyEngine};
use crate::text::{
    append_chars, append_str, chars_eq, chars_of, contains_char, decimal, decimal_chars,
    ends_with_str, eq_str, is_prefix, is_suffix, owned, replace_all, replace_all_chars, slice_chars,
    starts_with, string_from_chars, trim_end_char,
};

verus! {

broadcast use vstd::string::group_string_axioms;

/// Glob matching for rule lookup: `*` matches everything, a plain
/// literal its equal text, a compiled pattern matches as a glob, a pattern
/// the crate rejects only matches itself.
pub open spec fn lookup_glob_matches(pattern: Seq<char>, value: Seq<char>) -> bool {
    if pattern == seq!['*'] {
        true
    } else if plain_literal(pattern) {
        pattern == value
    } else if glob_pattern_compiles(pattern) {
        glob_pattern_matches(pattern, value)
    } else {
        pattern == value
    }
}

/// Glob matching for rule lookup.
pub fn glob_matches(pattern: &str, value: &str) -> (r: bool)
    ensures
        pattern_decided(pattern@, value@) ==> r == lookup_glob_matches(pattern@, value@),
        pattern@ == seq!['*'] ==> r,
{
    let p = chars_of(pattern);
    proof {
        reveal_strlit("*");
        assert("*"@ =~= seq!['*']);
    }
    if eq_str(p.as_slice(), "*") {
        return true;
    }
    match glob_compile_and_match(pattern, value) {
        Some(m) => m,
        None => {
            let v = chars_of(value);
            chars_eq(p.as_slice(), v.as_slice())
        },
    }
}

/// An authorized action covers an actual one: equal texts, or a
/// `prefix.*` pattern and an action in the `prefix.` family (`fs.*`
/// covers `fs.read` but neither `fs` nor `fsx.read`).
pub open spec fn action_covers(authorized: Seq<char>, actual: Seq<char>) -> bool {
    if authorized == actual {
        true
    } else if is_suffix(".*"@, authorized) {
        let family = authorized.subrange(0, authorized.len() - 1);
        is_prefix(family, actual)
    } else {
        false
    }
}

/// Whether an authorized action covers the actual one.
pub fn actions_match(authorized: &str, actual: &str) -> (r: bool)
    ensures
        r == action_covers(authorized@, actual@),
{
    let a = chars_of(authorized);
    let b = chars_of(actual);
    if chars_eq(a.as_slice(), b.as_slice()) {
        return true;
    }
    if ends_with_str(a.as_slice(), ".*") {
        proof {
            reveal_strlit(".*");
        }
        let family = slice_chars(a.as_slice(), 0, a.len() - 1);
        return starts_with(b.as_slice(), family.as_slice());
    }
    false
}

/// One character more of a path in comparison form: a slash right after
/// a slash is dropped, and a slash right after `/.` drops that dot.
pub open spec fn path_step(o: Seq<char>, c: char) -> Seq<char> {
    if c == '/' && o.len() > 0 && o.last() == '/' {
        o
    } else if c == '/' && o.len() > 1 && o.last() == '.' && o[o.len() - 2] == '/' {
        o.drop_last()
    } else {
        o.push(c)
    }
}

/// A path with runs of slashes collapsed and `/./` segments removed,
/// read left to right.
pub open spec fn path_fold(s: Seq<char>) -> Seq<char>
    decreases s.len(),
{
    if s.len() == 0 {
        Seq::empty()
    } else {
        path_step(path_fold(s.drop_last()), s.last())
    }
}

/// The comparison form of a path: runs of slashes collapsed, `/./`
/// segments removed, trailing slashes dropped.
pub open spec fn compare_form(path: Seq<char>) -> Seq<char> {
    trim_end_char(path_fold(path), '/')
}

/// A path with no `//` and no `/./` in it.
pub open spec fn clean_path(s: Seq<char>) -> bool {
    &&& forall|i: int| 0 <= i < s.len() - 1 ==> !(#[trigger] s[i] == '/' && s[i + 1] == '/')
    &&& forall|i: int| 0 <= i < s.len() - 2 ==> !(#[trigger] s[i] == '/' && s[i + 1] == '.' && s[i + 2] == '/')
}

/// Lemma: folding yields a clean path.
proof fn lemma_fold_clean(s: Seq<char>)
    ensures
        clean_path(path_fold(s)),
    decreases s.len(),
{
    if s.len() > 0 {
        lemma_fold_clean(s.drop_last());
        let o = path_fold(s.drop_last());
        let r = path_fold(s);
        assert(r == path_step(o, s.last()));
        if !(s.last() == '/' && o.len() > 0 && o.last() == '/') && !(s.last() == '/' && o.len() > 1 && o.last()
            == '.' && o[o.len() - 2] == '/') {
            assert(r =~= o.push(s.last()));
            assert forall|i: int| 0 <= i < r.len() - 1 implies !(#[trigger] r[i] == '/' && r[i + 1] == '/') by {
                if i < r.len() - 2 {
                    assert(r[i] == o[i] && r[i + 1] == o[i + 1]);
                }
            }
            assert forall|i: int| 0 <= i < r.len() - 2 implies !(#[trigger] r[i] == '/' && r[i + 1] == '.' && r[i + 2] == '/') by {
                if i < r.len() - 3 {
                    assert(r[i] == o[i] && r[i + 1] == o[i + 1] && r[i + 2] == o[i + 2]);
                }
            }
        } else if !(s.last() == '/' && o.len() > 0 && o.last() == '/') {
            assert(r =~= o.drop_last());
            assert forall|i: int| 0 <= i < r.len() - 1 implies !(#[trigger] r[i] == '/' && r[i + 1] == '/') by {
                assert(r[i] == o[i] && r[i + 1] == o[i + 1]);
            }
            assert forall|i: int| 0 <= i < r.len() - 2 implies !(#[trigger] r[i] == '/' && r[i + 1] == '.' && r[i + 2] == '/') by {
                assert(r[i] == o[i] && r[i + 1] == o[i + 1] && r[i + 2] == o[i + 2]);
            }
        }
    }
}

/// Lemma: a prefix of a clean path is clean.
proof fn lemma_clean_prefix(s: Seq<char>, n: int)
    requires
        clean_path(s),
        0 <= n <= s.len(),
    ensures
        clean_path(s.subrange(0, n)),
{
    let t = s.subrange(0, n);
    assert forall|i: int| 0 <= i < t.len() - 1 implies !(#[trigger] t[i] == '/' && t[i + 1] == '/') by {
        assert(t[i] == s[i] && t[i + 1] == s[i + 1]);
    }
    assert forall|i: int| 0 <= i < t.len() - 2 implies !(#[trigger] t[i] == '/' && t[i + 1] == '.' && t[i + 2] == '/') by {
        assert(t[i] == s[i] && t[i + 1] == s[i + 1] && t[i + 2] == s[i + 2]);
    }
}

/// Lemma: folding leaves a clean path as it is.
proof fn lemma_fold_clean_fixed(s: Seq<char>)
    requires
        clean_path(s),
    ensures
        path_fold(s) == s,
    decreases s.len(),
{
    if s.len() > 0 {
        let o = s.drop_last();
        lemma_clean_prefix(s, s.len() - 1);
        assert(o =~= s.subrange(0, s.len() - 1));
        lemma_fold_clean_fixed(o);
        if s.last() == '/' && o.len() > 0 && o.last() == '/' {
            assert(s[s.len() - 2] == '/');
        }
        if s.last() == '/' && o.len() > 1 && o.last() == '.' && o[o.len() - 2] == '/' {
            assert(s[s.len() - 3] == '/' && s[s.len() - 2] == '.');
        }
        assert(o.push(s.last()) =~= s);
    }
}

/// Lemma: trimming trailing `c` gives a prefix that does not end in `c`.
proof fn lemma_trim_end(s: Seq<char>, c: char)
    ensures
        trim_end_char(s, c).len() <= s.len(),
        trim_end_char(s, c) == s.subrange(0, trim_end_char(s, c).len() as int),
        trim_end_char(s, c).len() > 0 ==> trim_end_char(s, c).last() != c,
    decreases s.len(),
{
    if s.len() > 0 && s.last() == c {
        lemma_trim_end(s.drop_last(), c);
        let t = trim_end_char(s.drop_last(), c);
        assert(s.drop_last().subrange(0, t.len() as int) =~= s.subrange(0, t.len() as int));
    } else {
        assert(s.subrange(0, s.len() as int) =~= s);
    }
}

/// Normalizing a path twice gives what normalizing it once gives.
pub proof fn law_compare_form_idempotent(path: Seq<char>)
    ensures
        compare_form(compare_form(path)) == compare_form(path),
{
    let o = path_fold(path);
    let u = compare_form(path);
    lemma_fold_clean(path);
    lemma_trim_end(o, '/');
    lemma_clean_prefix(o, u.len() as int);
    lemma_fold_clean_fixed(u);
    if u.len() > 0 {
        assert(trim_end_char(u, '/') == u);
    } else {
        assert(trim_end_char(u, '/') == u);
    }
}

/// Normalizes a path for comparison.
pub fn normalize_path(path: &str) -> (r: String)
    ensures
        r@ == compare_form(path@),
{
    let p = chars_of(path);
    let mut o: Vec<char> = Vec::new();
    let mut i: usize = 0;
    while i < p.len()
        invariant
            i <= p@.len(),
            o@ == path_fold(p@.subrange(0, i as int)),
        decreases p@.len() - i,
    {
        let c = p[i];
        proof {
            assert(p@.subrange(0, i + 1).drop_last() =~= p@.subrange(0, i as int));
        }
        let n = o.len();
        if c == '/' && n > 0 && o[n - 1] == '/' {
        } else if c == '/' && n > 1 && o[n - 1] == '.' && o[n - 2] == '/' {
            o.pop();
        } else {
            o.push(c);
        }
        i = i + 1;
    }
    proof {
        assert(p@.subrange(0, p@.len() as int) =~= p@);
    }
    let mut end: usize = o.len();
    assert(o@.subrange(0, o@.len() as int) =~= o@);
    while end > 0 && o[end - 1] == '/'
        invariant
            end <= o@.len(),
            trim_end_char(o@, '/') == trim_end_char(o@.subrange(0, end as int), '/'),
        decreases end,
    {
        let ghost pre = o@.subrange(0, end as int);
        assert(pre.drop_last() =~= o@.subrange(0, end - 1));
        end = end - 1;
    }
    let kept = slice_chars(o.as_slice(), 0, end);
    string_from_chars(kept.as_slice())
}

/// An authorized resource covers an actual one: equal comparison forms,
/// or, when the authorized text holds `*`, its comparison form matches the
/// actual comparison form as a glob.
pub open spec fn resource_covers(authorized: Seq<char>, actual: Seq<char>) -> bool {
    let na = compare_form(authorized);
    let nb = compare_form(actual);
    if na == nb {
        true
    } else if authorized.contains('*') {
        glob_pattern_compiles(na) && glob_pattern_matches(na, nb)
    } else {
        false
    }
}

/// The resource outcome does not rest on glob matching of a backslash:
/// the authorized text holds no `*` (only equality decides), or neither
/// comparison form holds a backslash.
pub open spec fn resource_decided(authorized: Seq<char>, actual: Seq<char>) -> bool {
    !authorized.contains('*') || glob_stable(compare_form(authorized), compare_form(actual))
}

/// Whether an authorized resource covers the actual one.
pub fn resources_match(authorized: &str, actual: &str) -> (r: bool)
    ensures
        resource_decided(authorized@, actual@) ==> r == resource_covers(authorized@, actual@),
        compare_form(authorized@) == compare_form(actual@) ==> r,
{
    let norm_auth = normalize_path(authorized);
    let norm_actual = normalize_path(actual);
    let na = chars_of(norm_auth.as_str());
    let nb = chars_of(norm_actual.as_str());
    if chars_eq(na.as_slice(), nb.as_slice()) {
        return true;
    }
    let a = chars_of(authorized);
    if contains_char(a.as_slice(), '*') {
        match glob_compile_and_match(norm_auth.as_str(), norm_actual.as_str()) {
            Some(m) => return m,
            None => {},
        }
    }
    false
}

/// Some pattern of the list matches for rule lookup.
pub open spec fn any_lookup_match(patterns: Seq<String>, value: Seq<char>) -> bool {
    exists|i: int| 0 <= i < patterns.len() && #[trigger] lookup_glob_matches(patterns[i]@, value)
}

/// Whether some pattern matches for rule lookup.
fn any_lookup_matches(patterns: &Vec<String>, value: &str) -> (r: bool)
    ensures
        patterns_stable(patterns@, value@) ==> r == any_lookup_match(patterns@, value@),
{
    let mut i: usize = 0;
    while i < patterns.len()
        invariant
            i <= patterns@.len(),
            patterns_stable(patterns@, value@) ==> forall|j: int| 0 <= j < i ==> !#[trigger] lookup_glob_matches(patterns@[j]@, value@),
        decreases patterns@.len() - i,
    {
        proof {
            if patterns_stable(patterns@, value@) {
                assert(pattern_decided(patterns@[i as int]@, value@));
            }
        }
        if glob_matches(patterns[i].as_str(), value) {
            return true;
        }
        i = i + 1;
    }
    false
}

/// A rule supplies secrets for an execution: an ALLOW rule whose action
/// and resource patterns match and that has headers or environment to
/// inject.
pub open spec fn injects_for(rule: PolicyRule, action: Seq<char>, resource: Seq<char>) -> bool {
    &&& rule.effect == PolicyEffect::Allow
    &&& any_lookup_match(rule.actions@, action)
    &&& any_lookup_match(rule.resources@, resource)
    &&& (rule.inject_headers is Some || rule.inject_env is Some)
}

/// Every action and resource pattern of the rules is decided against the
/// action and the resource.
pub open spec fn lookup_stable(rules: Seq<PolicyRule>, action: Seq<char>, resource: Seq<char>) -> bool {
    forall|i: int| 0 <= i < rules.len() ==> patterns_stable((#[trigger] rules[i]).actions@, action)
        && patterns_stable(rules[i].resources@, resource)
}

/// The first rule of the engine that supplies secrets for the request.
pub fn find_matching_rule(engine: &PolicyEngine, request: &ExecuteRequest) -> (r: Option<
    PolicyRule,
>)
    ensures
        lookup_stable(engine.spec_rules(), request.action@, request.resource@) ==> match r {
            Some(rule) => exists|i: int|
                0 <= i < engine.spec_rules().len() && same_rule(rule, engine.spec_rules()[i])
                    && injects_for(engine.spec_rules()[i], request.action@, request.resource@)
                    && forall|j: int|
                    0 <= j < i ==> !#[trigger] injects_for(
                        engine.spec_rules()[j],
                        request.action@,
                        request.resource@,
                    ),
            None => forall|j: int|
                0 <= j < engine.spec_rules().len() ==> !#[trigger] injects_for(
                    engine.spec_rules()[j],
                    request.action@,
                    request.resource@,
                ),
        },
{
    let rules = engine.get_rules();
    let mut i: usize = 0;
    while i < rules.len()
        invariant
            i <= rules@.len(),
            rules@.len() == engine.spec_rules().len(),
            forall|k: int| 0 <= k < rules@.len() ==> same_rule(#[trigger] rules@[k], engine.spec_rules()[k]),
            lookup_stable(engine.spec_rules(), request.action@, request.resource@) ==> forall|j: int|
                0 <= j < i ==> !#[trigger] injects_for(
                    engine.spec_rules()[j],
                    request.action@,
                    request.resource@,
                ),
        decreases rules@.len() - i,
    {
        let rule = &rules[i];
        assert(same_rule(rules@[i as int], engine.spec_rules()[i as int]));
        if rule.effect == PolicyEffect::Allow {
            let action_matches = any_lookup_matches(&rule.actions, request.action.as_str());
            let resource_matches = any_lookup_matches(&rule.resources, request.resource.as_str());
            if action_matches && resource_matches {
                if rule.inject_headers.is_some() || rule.inject_env.is_some() {
                    return Some(rule.duplicate());
                }
            }
        }
        i = i + 1;
    }
    None
}


// ---------------------------------------------------------------------------
// Mandates kept for execution
// ---------------------------------------------------------------------------

/// The first stored entry for a mandate id.
pub open spec fn entry_for(entries: Seq<(SignedMandate, bool)>, id: Seq<char>) -> Option<(SignedMandate, bool)>
    decreases entries.len(),
{
    if entries.len() == 0 {
        None
    } else if entries[0].0.claims.mandate_id@ == id {
        Some(entries[0])
    } else {
        entry_for(entries.drop_first(), id)
    }
}

/// Mandates issued by the authorize endpoint, kept by mandate id for the
/// execute endpoint, each with whether it has been executed.
pub struct MandateStore {
    entries: Vec<(SignedMandate, bool)>,
}

impl MandateStore {
    /// The stored mandate (and executed flag) for an id.
    pub closed spec fn spec_get(&self, id: Seq<char>) -> Option<(SignedMandate, bool)> {
        entry_for(self.entries@, id)
    }

    /// An empty store.
    pub fn new() -> (r: Self)
        ensures
            forall|id: Seq<char>| r.spec_get(id) is None,
    {
        MandateStore { entries: Vec::new() }
    }

    /// The position of the first entry for an id.
    fn position(&self, id: &str) -> (r: Option<usize>)
        ensures
            match r {
                Some(i) => i < self.entries@.len() && self.entries@[i as int].0.claims.mandate_id@ == id@
                    && entry_for(self.entries@, id@) == Some(self.entries@[i as int])
                    && forall|j: int| 0 <= j < i ==> self.entries@[j].0.claims.mandate_id@ != id@,
                None => entry_for(self.entries@, id@) is None,
            },
    {
        let k = chars_of(id);
        let mut i: usize = 0;
        assert(self.entries@.skip(0) =~= self.entries@);
        while i < self.entries.len()
            invariant
                i <= self.entries@.len(),
                k@ == id@,
                forall|j: int| 0 <= j < i ==> self.entries@[j].0.claims.mandate_id@ != id@,
                entry_for(self.entries@, id@) == entry_for(self.entries@.skip(i as int), id@),
            decreases self.entries@.len() - i,
        {
            assert(self.entries@.skip(i as int).drop_first() =~= self.entries@.skip(i + 1));
            let c = chars_of(self.entries[i].0.claims.mandate_id.as_str());
            if chars_eq(c.as_slice(), k.as_slice()) {
                return Some(i);
            }
            i = i + 1;
        }
        None
    }

    /// Keeps a mandate under its id (replacing one kept before), not yet
    /// executed.
    pub fn store(&mut self, mandate: SignedMandate)
        ensures
            final(self).spec_get(mandate.claims.mandate_id@) == Some((mandate, false)),
            forall|id: Seq<char>| id != mandate.claims.mandate_id@ ==> final(self).spec_get(id) == old(self).spec_get(id),
    {
        let ghost id = mandate.claims.mandate_id@;
        let ghost before = self.entries@;
        match self.position(mandate.claims.mandate_id.as_str()) {
            Some(i) => {
                self.entries.set(i, (mandate, false));
                proof {
                    lemma_entry_update(before, i as int, (mandate, false));
                }
            },
            None => {
                self.entries.push((mandate, false));
                proof {
                    lemma_entry_push(before, (mandate, false));
                }
            },
        }
    }

    /// The mandate kept under an id.
    pub fn get(&self, mandate_id: &str) -> (r: Option<&SignedMandate>)
        ensures
            match self.spec_get(mandate_id@) {
                Some(e) => r matches Some(m) && *m == e.0,
                None => r is None,
            },
    {
        match self.position(mandate_id) {
            Some(i) => Some(&self.entries[i].0),
            None => None,
        }
    }

    /// Whether the mandate kept under an id has been executed.
    pub fn is_executed(&self, mandate_id: &str) -> (r: bool)
        ensures
            r == (self.spec_get(mandate_id@) matches Some(e) && e.1),
    {
        match self.position(mandate_id) {
            Some(i) => self.entries[i].1,
            None => false,
        }
    }

    /// Marks the mandate kept under an id as executed.
    pub fn mark_executed(&mut self, mandate_id: &str)
        ensures
            match old(self).spec_get(mandate_id@) {
                Some(e) => final(self).spec_get(mandate_id@) == Some((e.0, true)),
                None => final(self).spec_get(mandate_id@) is None,
            },
            forall|id: Seq<char>| id != mandate_id@ ==> final(self).spec_get(id) == old(self).spec_get(id),
    {
        let ghost before = self.entries@;
        match self.position(mandate_id) {
            Some(i) => {
                let (m, _executed) = self.entries.remove(i);
                self.entries.insert(i, (m, true));
                proof {
                    assert(self.entries@ =~= before.update(i as int, (before[i as int].0, true)));
                    lemma_entry_update(before, i as int, (before[i as int].0, true));
                }
            },
            None => {},
        }
    }
}

/// Lemma: replacing the first entry for an id changes only that id.
proof fn lemma_entry_update(v: Seq<(SignedMandate, bool)>, i: int, e: (SignedMandate, bool))
    requires
        0 <= i < v.len(),
        e.0.claims.mandate_id@ == v[i].0.claims.mandate_id@,
        forall|j: int| 0 <= j < i ==> v[j].0.claims.mandate_id@ != v[i].0.claims.mandate_id@,
    ensures
        entry_for(v.update(i, e), e.0.claims.mandate_id@) == Some(e),
        forall|id: Seq<char>| id != e.0.claims.mandate_id@ ==> entry_for(v.update(i, e), id) == entry_for(v, id),
    decreases i,
{
    let w = v.update(i, e);
    if i == 0 {
        assert(w.drop_first() =~= v.drop_first());
    } else {
        assert(w.drop_first() =~= v.drop_first().update(i - 1, e));
        lemma_entry_update(v.drop_first(), i - 1, e);
        assert forall|id: Seq<char>| id != e.0.claims.mandate_id@ implies entry_for(w, id) == entry_for(v, id) by {
            assert(w[0] == v[0]);
            assert(entry_for(w.drop_first(), id) == entry_for(v.drop_first(), id));
        }
    }
}

/// Lemma: appending an entry for a new id adds only that id.
proof fn lemma_entry_push(v: Seq<(SignedMandate, bool)>, e: (SignedMandate, bool))
    requires
        entry_for(v, e.0.claims.mandate_id@) is None,
    ensures
        entry_for(v.push(e), e.0.claims.mandate_id@) == Some(e),
        forall|id: Seq<char>| id != e.0.claims.mandate_id@ ==> entry_for(v.push(e), id) == entry_for(v, id),
    decreases v.len(),
{
    let w = v.push(e);
    if v.len() == 0 {
        assert(w.drop_first() =~= Seq::<(SignedMandate, bool)>::empty());
        assert forall|id: Seq<char>| id != e.0.claims.mandate_id@ implies entry_for(w, id) == entry_for(v, id) by {
            assert(entry_for(w.drop_first(), id) is None);
        }
    } else {
        assert(w[0] == v[0]);
        assert(w.drop_first() =~= v.drop_first().push(e));
        lemma_entry_push(v.drop_first(), e);
        assert forall|id: Seq<char>| id != e.0.claims.mandate_id@ implies entry_for(w, id) == entry_for(v, id) by {
            assert(entry_for(w.drop_first(), id) == entry_for(v.drop_first(), id));
        }
    }
}

// ---------------------------------------------------------------------------
// The execution gate
// ---------------------------------------------------------------------------

/// A stored mandate has expired at `now`.
pub open spec fn mandate_expired(m: SignedMandate, now: i64) -> bool {
    m.claims.expires_at_epoch_s < now
}

/// Why an execution is refused before it runs, with its HTTP status, in
/// the order the checks run: no mandate, expired, action, resource.
pub open spec fn execution_refusal(stored: Option<SignedMandate>, request: ExecuteRequest, now: i64) -> Option<(u16, Seq<char>)> {
    match stored {
        None => Some((404u16, "Mandate not found"@)),
        Some(m) => if mandate_expired(m, now) {
            Some((403u16, "Mandate expired"@))
        } else if !action_covers(m.claims.action@, request.action@) {
            Some((
                403u16,
                "Action '"@ + request.action@ + "' not authorized by mandate (authorized: '"@
                    + m.claims.action@ + "')"@,
            ))
        } else if !resource_covers(m.claims.resource@, request.resource@) {
            Some((
                403u16,
                "Resource '"@ + request.resource@ + "' not in mandate scope (authorized: '"@
                    + m.claims.resource@ + "')"@,
            ))
        } else {
            None
        },
    }
}

/// Whether the checks reach an answer the same on every system: every
/// refusal before the resource check, and the resource check where its
/// outcome does not rest on glob matching of a backslash.
pub open spec fn execution_decided(stored: Option<SignedMandate>, request: ExecuteRequest, now: i64) -> bool {
    match stored {
        None => true,
        Some(m) => mandate_expired(m, now) || !action_covers(m.claims.action@, request.action@) || resource_decided(
            m.claims.resource@,
            request.resource@,
        ),
    }
}

/// Checks an execution request against the mandate kept for it: the
/// mandate to act under, or the status and message of the refusal.
pub fn check_execution<'a>(store: &'a MandateStore, request: &ExecuteRequest, now: i64) -> (r: Result<&'a SignedMandate, (u16, String)>)
    ensures
        ({
            let stored = match store.spec_get(request.mandate_id@) {
                Some(e) => Some(e.0),
                None => None,
            };
            &&& execution_decided(stored, *request, now) ==> match execution_refusal(stored, *request, now) {
                Some((code, msg)) => r matches Err((c, m)) && c == code && m@ == msg,
                None => r matches Ok(m) && Some(*m) == stored,
            }
            &&& !execution_decided(stored, *request, now) ==> ((r matches Ok(m) && Some(*m) == stored) || (r matches Err(
                (c, m),
            ) && c == 403 && m@ == "Resource '"@ + request.resource@ + "' not in mandate scope (authorized: '"@
                + stored->Some_0.claims.resource@ + "')"@))
        }),
{
    proof {
        reveal_strlit("Mandate not found");
        reveal_strlit("Mandate expired");
    }
    let m = match store.get(request.mandate_id.as_str()) {
        Some(m) => m,
        None => return Err((404, owned("Mandate not found"))),
    };
    if m.claims.expires_at_epoch_s < now {
        return Err((403, owned("Mandate expired")));
    }
    if !actions_match(m.claims.action.as_str(), request.action.as_str()) {
        let mut msg: Vec<char> = Vec::new();
        append_str(&mut msg, "Action '");
        append_str(&mut msg, request.action.as_str());
        append_str(&mut msg, "' not authorized by mandate (authorized: '");
        append_str(&mut msg, m.claims.action.as_str());
        append_str(&mut msg, "')");
        return Err((403, string_from_chars(msg.as_slice())));
    }
    if !resources_match(m.claims.resource.as_str(), request.resource.as_str()) {
        let mut msg: Vec<char> = Vec::new();
        append_str(&mut msg, "Resource '");
        append_str(&mut msg, request.resource.as_str());
        append_str(&mut msg, "' not in mandate scope (authorized: '");
        append_str(&mut msg, m.claims.resource.as_str());
        append_str(&mut msg, "')");
        return Err((403, string_from_chars(msg.as_slice())));
    }
    Ok(m)
}

/// The response of a refused or failed execution.
pub fn failure_response(error: String, audit_id: String) -> (r: ExecuteResponse)
    ensures
        !r.success,
        r.result is None,
        r.error == Some(error),
        r.audit_id == audit_id,
        r.evidence_hash is None,
{
    ExecuteResponse { success: false, result: None, error: Some(error), audit_id, evidence_hash: None }
}

/// The response of a successful execution.
pub fn success_response(result: ExecuteResult, audit_id: String, evidence_hash: String) -> (r: ExecuteResponse)
    ensures
        r.success,
        r.result == Some(result),
        r.error is None,
        r.audit_id == audit_id,
        r.evidence_hash == Some(evidence_hash),
{
    ExecuteResponse { success: true, result: Some(result), error: None, audit_id, evidence_hash: Some(evidence_hash) }
}

/// The audit id of an execution: `exec_<events held>_<millis mod 10^8>`.
pub open spec fn audit_id_text(events: nat, millis: int) -> Seq<char> {
    "exec_"@ + decimal(events) + "_"@ + decimal((millis % 100_000_000) as nat)
}

/// Records an execution in the ledger (as principal `execute:<id>`,
/// allowed exactly when it succeeded) and returns its audit id, stamped
/// with the current time.
pub fn record_execution(
    ledger: &mut InMemoryProofLedger,
    mandate_id: &str,
    action: &str,
    resource: &str,
    success: bool,
) -> (r: String)
    requires
        old(ledger).well_formed(),
        old(ledger).spec_total() < u64::MAX,
    ensures
        final(ledger).well_formed(),
        final(ledger).spec_total() == old(ledger).spec_total() + 1,
        ({
            let stored = final(ledger).spec_events().last();
            &&& stored.principal_id@ == "execute:"@ + mandate_id@
            &&& stored.action@ == action@
            &&& stored.resource@ == resource@
            &&& stored.allowed == success
            &&& stored.reason == (if success { AuthorizationReason::Allowed } else { AuthorizationReason::ExplicitDeny })
            &&& crate::policy::opt_view(stored.mandate_id) == Some(mandate_id@)
        }),
        exists|millis: i64| r@ == #[trigger] audit_id_text(final(ledger).spec_events().len(), millis as int),
{
    let reason = if success { AuthorizationReason::Allowed } else { AuthorizationReason::ExplicitDeny };
    let mut principal: Vec<char> = Vec::new();
    append_str(&mut principal, "execute:");
    append_str(&mut principal, mandate_id);
    let principal_text = string_from_chars(principal.as_slice());
    ledger.record_decision_with_latency(principal_text.as_str(), action, resource, success, reason, Some(owned(mandate_id)), None);
    let count = ledger.event_count();
    let millis = crate::ledger::now_epoch_millis();
    let rem: i64 = millis % 100_000_000;
    let m: u64 = if rem < 0 { (rem + 100_000_000) as u64 } else { rem as u64 };
    let mut out: Vec<char> = Vec::new();
    append_str(&mut out, "exec_");
    let d1 = decimal_chars(count as u64);
    append_chars(&mut out, d1.as_slice());
    append_str(&mut out, "_");
    let d2 = decimal_chars(m);
    append_chars(&mut out, d2.as_slice());
    assert(out@ =~= audit_id_text(ledger.spec_events().len(), millis as int));
    string_from_chars(out.as_slice())
}


/// Rule lookup for secret injection matches a pattern that holds glob
/// syntax exactly as the glob crate does, and agrees with the policy
/// engine's matching on every pattern the crate accepts (or that is `*`
/// or a plain literal).
pub proof fn law_lookup_matches_as_glob(pattern: Seq<char>, value: Seq<char>)
    ensures
        pattern != seq!['*'] && !plain_literal(pattern) && glob_pattern_compiles(pattern) ==> lookup_glob_matches(
            pattern,
            value,
        ) == glob_pattern_matches(pattern, value),
        pattern == seq!['*'] ==> lookup_glob_matches(pattern, value),
        plain_literal(pattern) ==> (lookup_glob_matches(pattern, value) <==> pattern == value),
        (pattern == seq!['*'] || plain_literal(pattern) || glob_pattern_compiles(pattern)) ==> lookup_glob_matches(
            pattern,
            value,
        ) == crate::policy::pattern_matches(pattern, value),
{
    if pattern == seq!['*'] {
        assert(pattern[0] == '*');
        assert(pattern.contains('*'));
    }
}

} // verus!
