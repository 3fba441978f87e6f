//! Secret template substitution for policy-driven secret injection.
//!
//! Templates reference variables as `${NAME}` (required) or
//! `${NAME:-default}` (optional, with a default); a name is a letter or
//! `_` followed by letters, digits or `_`. References are found left to
//! right without overlap. Variable values come from an environment
//! snapshot that the caller takes of the process environment.
use vstd::prelude::*;

use crate::text::{
    append_chars, append_str, replace_all, replace_all_chars, slice_chars, string_from_chars,
    string_views, to_vec,
};

verus! {

broadcast use vstd::string::group_string_axioms;

/// A name character at the start of a name: ASCII letter or `_`.
pub open spec fn name_start(c: char) -> bool {
    ('A' <= c && c <= 'Z') || ('a' <= c && c <= 'z') || c == '_'
}

/// A name character after the first: ASCII letter, digit or `_`.
pub open spec fn name_char(c: char) -> bool {
    name_start(c) || ('0' <= c && c <= '9')
}

/// Length of the run of name characters starting at `pos`.
pub open spec fn name_run(s: Seq<char>, pos: int) -> nat
    decreases s.len() - pos,
{
    if pos < 0 || pos >= s.len() || !name_char(s[pos]) {
        0
    } else {
        1 + name_run(s, pos + 1)
    }
}

/// Index of the first `}` at or after `pos`.
pub open spec fn close_from(s: Seq<char>, pos: int) -> Option<int>
    decreases s.len() - pos,
{
    if pos < 0 || pos >= s.len() {
        None
    } else if s[pos] == '}' {
        Some(pos)
    } else {
        close_from(s, pos + 1)
    }
}

/// A reference found in a template: start, end (exclusive), name and
/// optional default.
pub type EnvRef = (int, int, Seq<char>, Option<Seq<char>>);

/// The reference that starts at `i`, if one does: `${`, a name, then `}`
/// or `:-`, a default without `}`, and `}`.
pub open spec fn ref_at(s: Seq<char>, i: int) -> Option<(int, Seq<char>, Option<Seq<char>>)> {
    if 0 <= i && i + 2 < s.len() && s[i] == '$' && s[i + 1] == '{' && name_start(s[i + 2]) {
        let j = i + 2 + name_run(s, i + 2);
        let name = s.subrange(i + 2, j);
        if j < s.len() && s[j] == '}' {
            Some((j + 1, name, None))
        } else if j + 1 < s.len() && s[j] == ':' && s[j + 1] == '-' {
            match close_from(s, j + 2) {
                Some(m) => Some((m + 1, name, Some(s.subrange(j + 2, m)))),
                None => None,
            }
        } else {
            None
        }
    } else {
        None
    }
}

/// All references from `i` on, leftmost first, without overlap.
pub open spec fn refs_from(s: Seq<char>, i: int) -> Seq<EnvRef>
    decreases s.len() - i,
{
    if i < 0 || i >= s.len() {
        Seq::empty()
    } else {
        match ref_at(s, i) {
            Some((e, n, d)) => if e > i && e <= s.len() {
                seq![(i, e, n, d)] + refs_from(s, e)
            } else {
                Seq::empty()
            },
            None => refs_from(s, i + 1),
        }
    }
}

/// All references of a template.
pub open spec fn template_refs(s: Seq<char>) -> Seq<EnvRef> {
    refs_from(s, 0)
}

/// Snapshot of environment variables: name/value pairs; the first pair
/// with a name gives its value.
#[derive(Debug, Clone)]
pub struct EnvSnapshot {
    pub vars: Vec<(String, String)>,
}

/// The value of `name` in a snapshot, if present.
pub open spec fn env_lookup(vars: Seq<(String, String)>, name: Seq<char>) -> Option<Seq<char>>
    decreases vars.len(),
{
    if vars.len() == 0 {
        None
    } else if vars[0].0@ == name {
        Some(vars[0].1@)
    } else {
        env_lookup(vars.drop_first(), name)
    }
}

/// Error of a substitution.
#[derive(Debug, Clone)]
pub enum SecretSubstitutionError {
    /// Required variables that are not set, joined with ", ".
    MissingEnvVar(String),
    /// Substitution failed for another reason.
    SubstitutionFailed(String),
}

/// The displayed text of a substitution error.
pub open spec fn secret_error_text(e: SecretSubstitutionError) -> Seq<char> {
    match e {
        SecretSubstitutionError::MissingEnvVar(m) => "Missing environment variable: "@ + m@,
        SecretSubstitutionError::SubstitutionFailed(m) => "Environment variable substitution failed: "@
            + m@,
    }
}

impl SecretSubstitutionError {
    /// The displayed text of the error.
    pub fn to_string(&self) -> (s: String)
        ensures
            s@ == secret_error_text(*self),
    {
        let mut m: Vec<char> = Vec::new();
        match self {
            SecretSubstitutionError::MissingEnvVar(x) => {
                append_str(&mut m, "Missing environment variable: ");
                append_str(&mut m, x.as_str());
            },
            SecretSubstitutionError::SubstitutionFailed(x) => {
                append_str(&mut m, "Environment variable substitution failed: ");
                append_str(&mut m, x.as_str());
            },
        }
        string_from_chars(m.as_slice())
    }
}

/// Names joined with ", ".
pub open spec fn join_names(names: Seq<Seq<char>>) -> Seq<char>
    decreases names.len(),
{
    if names.len() == 0 {
        Seq::empty()
    } else if names.len() == 1 {
        names[0]
    } else {
        join_names(names.drop_last()) + ", "@ + names.last()
    }
}

/// Applies the references in order: each one found in the template has
/// every occurrence of its full text in the text so far replaced by the
/// variable's value, or by its default when the variable is unset;
/// unset variables without a default are collected instead.
pub open spec fn apply_refs(
    template: Seq<char>,
    refs: Seq<EnvRef>,
    vars: Seq<(String, String)>,
) -> (Seq<char>, Seq<Seq<char>>)
    decreases refs.len(),
{
    if refs.len() == 0 {
        (template, Seq::empty())
    } else {
        let prev = apply_refs(template, refs.drop_last(), vars);
        let r = refs.last();
        let full = template.subrange(r.0, r.1);
        match env_lookup(vars, r.2) {
            Some(v) => (replace_all(prev.0, full, v), prev.1),
            None => match r.3 {
                Some(d) => (replace_all(prev.0, full, d), prev.1),
                None => (prev.0, prev.1.push(r.2)),
            },
        }
    }
}

/// Result of substituting a template.
pub open spec fn substitution(template: Seq<char>, vars: Seq<(String, String)>) -> Result<
    Seq<char>,
    Seq<char>,
> {
    let out = apply_refs(template, template_refs(template), vars);
    if out.1.len() > 0 {
        Err(join_names(out.1))
    } else {
        Ok(out.0)
    }
}

// ---------------------------------------------------------------------------
// Scanner
// ---------------------------------------------------------------------------

/// Whether `c` may start a name.
fn is_name_start(c: char) -> (r: bool)
    ensures
        r == name_start(c),
{
    ('A' <= c && c <= 'Z') || ('a' <= c && c <= 'z') || c == '_'
}

/// Whether `c` may continue a name.
fn is_name_char(c: char) -> (r: bool)
    ensures
        r == name_char(c),
{
    is_name_start(c) || ('0' <= c && c <= '9')
}

/// Lemma: a run of name characters ends at the first other character.
proof fn lemma_name_run(s: Seq<char>, pos: int, end: int)
    requires
        0 <= pos <= end <= s.len(),
        forall|j: int| pos <= j < end ==> #[trigger] name_char(s[j]),
        end >= s.len() || !name_char(s[end]),
    ensures
        name_run(s, pos) == end - pos,
    decreases end - pos,
{
    if pos < end {
        lemma_name_run(s, pos + 1, end);
    }
}

/// Lemma: the first `}` found by a scan.
proof fn lemma_close_from(s: Seq<char>, pos: int, m: int)
    requires
        0 <= pos <= m < s.len(),
        s[m] == '}',
        forall|j: int| pos <= j < m ==> s[j] != '}',
    ensures
        close_from(s, pos) == Some(m),
    decreases m - pos,
{
    if pos < m {
        lemma_close_from(s, pos + 1, m);
    }
}

/// Lemma: no `}` from `pos` on.
proof fn lemma_close_none(s: Seq<char>, pos: int)
    requires
        0 <= pos,
        forall|j: int| pos <= j < s.len() ==> s[j] != '}',
    ensures
        close_from(s, pos) is None,
    decreases s.len() - pos,
{
    if pos < s.len() {
        lemma_close_none(s, pos + 1);
    }
}

/// The reference starting at `i`, if any.
fn ref_at_exec(s: &[char], i: usize) -> (r: Option<(usize, Vec<char>, Option<Vec<char>>)>)
    ensures
        match ref_at(s@, i as int) {
            Some((e, n, d)) => r matches Some((e2, n2, d2)) && e2 as int == e && n2@ == n && e
                <= s.len() && e > i && match d {
                Some(dv) => d2 matches Some(x) && x@ == dv,
                None => d2 is None,
            },
            None => r is None,
        },
{
    if !(i < s.len() && s.len() - i > 2 && s[i] == '$' && s[i + 1] == '{' && is_name_start(s[i + 2])) {
        return None;
    }
    let mut j: usize = i + 2;
    while j < s.len() && is_name_char(s[j])
        invariant
            i + 2 <= j <= s.len(),
            forall|k: int| i + 2 <= k < j ==> #[trigger] name_char(s@[k]),
        decreases s.len() - j,
    {
        j = j + 1;
    }
    proof {
        lemma_name_run(s@, i + 2, j as int);
    }
    let name = slice_chars(s, i + 2, j);
    if j < s.len() && s[j] == '}' {
        return Some((j + 1, name, None));
    }
    if j < s.len() && s.len() - j > 1 && s[j] == ':' && s[j + 1] == '-' {
        let mut m: usize = j + 2;
        while m < s.len() && s[m] != '}'
            invariant
                j + 2 <= m <= s.len(),
                forall|k: int| j + 2 <= k < m ==> s@[k] != '}',
            decreases s.len() - m,
        {
            m = m + 1;
        }
        if m < s.len() {
            proof {
                lemma_close_from(s@, j + 2, m as int);
            }
            let d = slice_chars(s, j + 2, m);
            return Some((m + 1, name, Some(d)));
        } else {
            proof {
                lemma_close_none(s@, j + 2);
            }
            return None;
        }
    }
    None
}

/// A reference as found by the scanner.
pub struct FoundRef {
    pub start: usize,
    pub end: usize,
    pub name: Vec<char>,
    pub default: Option<Vec<char>>,
}

/// The specification view of a found reference.
pub open spec fn found_view(f: FoundRef) -> EnvRef {
    (
        f.start as int,
        f.end as int,
        f.name@,
        match f.default {
            Some(d) => Some(d@),
            None => None,
        },
    )
}

/// All references of a template, leftmost first, without overlap.
pub fn scan_refs(s: &[char]) -> (r: Vec<FoundRef>)
    ensures
        r@.len() == template_refs(s@).len(),
        forall|k: int| 0 <= k < r@.len() ==> found_view(#[trigger] r@[k]) == template_refs(s@)[k],
        forall|k: int|
            0 <= k < r@.len() ==> (#[trigger] r@[k]).start < r@[k].end && r@[k].end <= s.len(),
{
    let mut out: Vec<FoundRef> = Vec::new();
    let mut i: usize = 0;
    while i < s.len()
        invariant
            i <= s.len(),
            out@.len() + refs_from(s@, i as int).len() == template_refs(s@).len(),
            forall|k: int| 0 <= k < out@.len() ==> found_view(#[trigger] out@[k]) == template_refs(s@)[k],
            forall|k: int| 0 <= k < refs_from(s@, i as int).len() ==> #[trigger] refs_from(s@, i as int)[k] == template_refs(s@)[out@.len() + k],
            forall|k: int|
                0 <= k < out@.len() ==> (#[trigger] out@[k]).start < out@[k].end && out@[k].end
                    <= s.len(),
        decreases s.len() - i,
    {
        match ref_at_exec(s, i) {
            Some((e, n, d)) => {
                let ghost rest = refs_from(s@, e as int);
                assert(refs_from(s@, i as int) == seq![found_view(FoundRef { start: i, end: e, name: n, default: d })] + rest);
                assert(refs_from(s@, i as int)[0] == template_refs(s@)[out@.len() as int]);
                assert forall|k: int| 0 <= k < rest.len() implies #[trigger] rest[k] == template_refs(s@)[out@.len() + 1 + k] by {
                    assert(refs_from(s@, i as int)[k + 1] == rest[k]);
                }
                out.push(FoundRef { start: i, end: e, name: n, default: d });
                i = e;
            },
            None => {
                i = i + 1;
            },
        }
    }
    out
}

/// Whether the template holds at least one reference.
pub fn has_env_var_references(template: &str) -> (r: bool)
    ensures
        r == (template_refs(template@).len() > 0),
{
    let s = crate::text::chars_of(template);
    let refs = scan_refs(s.as_slice());
    refs.len() > 0
}

/// Names of all references, in order.
pub fn extract_env_var_names(template: &str) -> (r: Vec<String>)
    ensures
        r@.len() == template_refs(template@).len(),
        forall|k: int| 0 <= k < r@.len() ==> (#[trigger] r@[k])@ == template_refs(template@)[k].2,
{
    let s = crate::text::chars_of(template);
    let refs = scan_refs(s.as_slice());
    let mut out: Vec<String> = Vec::new();
    let mut k: usize = 0;
    while k < refs.len()
        invariant
            k <= refs@.len(),
            refs@.len() == template_refs(template@).len(),
            forall|j: int| 0 <= j < refs@.len() ==> found_view(#[trigger] refs@[j]) == template_refs(template@)[j],
            out@.len() == k,
            forall|j: int| 0 <= j < k ==> (#[trigger] out@[j])@ == template_refs(template@)[j].2,
        decreases refs@.len() - k,
    {
        assert(found_view(refs@[k as int]) == template_refs(template@)[k as int]);
        out.push(string_from_chars(refs[k].name.as_slice()));
        k = k + 1;
    }
    out
}

impl EnvSnapshot {
    /// The value of `name`, if set.
    pub fn lookup(&self, name: &[char]) -> (r: Option<Vec<char>>)
        ensures
            match env_lookup(self.vars@, name@) {
                Some(v) => r matches Some(x) && x@ == v,
                None => r is None,
            },
    {
        let mut i: usize = 0;
        assert(self.vars@.subrange(0, self.vars@.len() as int) =~= self.vars@);
        while i < self.vars.len()
            invariant
                i <= self.vars@.len(),
                env_lookup(self.vars@, name@) == env_lookup(self.vars@.subrange(i as int, self.vars@.len() as int), name@),
            decreases self.vars@.len() - i,
        {
            let ghost tail = self.vars@.subrange(i as int, self.vars@.len() as int);
            assert(tail.drop_first() =~= self.vars@.subrange(i + 1, self.vars@.len() as int));
            let n = crate::text::chars_of(self.vars[i].0.as_str());
            if crate::text::chars_eq(n.as_slice(), name) {
                return Some(crate::text::chars_of(self.vars[i].1.as_str()));
            }
            i = i + 1;
        }
        None
    }
}

/// Names of required variables that are unset, in order of reference.
pub open spec fn missing_required(refs: Seq<EnvRef>, vars: Seq<(String, String)>) -> Seq<Seq<char>>
    decreases refs.len(),
{
    if refs.len() == 0 {
        Seq::empty()
    } else {
        let prev = missing_required(refs.drop_last(), vars);
        let r = refs.last();
        if r.3 is None && env_lookup(vars, r.2) is None {
            prev.push(r.2)
        } else {
            prev
        }
    }
}

/// Lemma: the names that substitution collects are the missing required
/// ones.
proof fn lemma_apply_missing(template: Seq<char>, refs: Seq<EnvRef>, vars: Seq<(String, String)>)
    ensures
        apply_refs(template, refs, vars).1 == missing_required(refs, vars),
    decreases refs.len(),
{
    if refs.len() > 0 {
        lemma_apply_missing(template, refs.drop_last(), vars);
    }
}

/// Validation finds no missing variable exactly when substitution
/// succeeds, and the names it finds are the ones substitution reports.
pub proof fn law_validation_agrees_with_substitution(template: Seq<char>, vars: Seq<(String, String)>)
    ensures
        missing_required(template_refs(template), vars).len() == 0 <==> substitution(template, vars) is Ok,
        substitution(template, vars) matches Err(names) ==> names == join_names(
            missing_required(template_refs(template), vars),
        ),
{
    lemma_apply_missing(template, template_refs(template), vars);
}

/// Names of referenced required variables that the snapshot lacks.
pub fn validate_env_vars(template: &str, env: &EnvSnapshot) -> (r: Vec<String>)
    ensures
        string_views(r@) == missing_required(template_refs(template@), env.vars@),
{
    let s = crate::text::chars_of(template);
    let refs = scan_refs(s.as_slice());
    let ghost all = template_refs(template@);
    let mut out: Vec<String> = Vec::new();
    let mut k: usize = 0;
    while k < refs.len()
        invariant
            k <= refs@.len(),
            all == template_refs(template@),
            refs@.len() == all.len(),
            forall|j: int| 0 <= j < refs@.len() ==> found_view(#[trigger] refs@[j]) == all[j],
            string_views(out@) == missing_required(all.subrange(0, k as int), env.vars@),
        decreases refs@.len() - k,
    {
        assert(all.subrange(0, k + 1).drop_last() =~= all.subrange(0, k as int));
        assert(found_view(refs@[k as int]) == all[k as int]);
        let r = &refs[k];
        if r.default.is_none() {
            match env.lookup(r.name.as_slice()) {
                None => {
                    out.push(string_from_chars(r.name.as_slice()));
                    assert(string_views(out@) =~= missing_required(all.subrange(0, k as int), env.vars@).push(r.name@));
                },
                Some(_) => {},
            }
        }
        k = k + 1;
    }
    assert(all.subrange(0, all.len() as int) =~= all);
    out
}

/// `(owner, variable)` for each unset required variable referenced by the
/// templates, template by template and in order of reference.
pub open spec fn missing_in(owner: Seq<char>, templates: Seq<Seq<char>>, vars: Seq<(String, String)>) -> Seq<
    (Seq<char>, Seq<char>),
>
    decreases templates.len(),
{
    if templates.len() == 0 {
        Seq::empty()
    } else {
        missing_in(owner, templates.drop_last(), vars) + missing_required(
            template_refs(templates.last()),
            vars,
        ).map_values(|v: Seq<char>| (owner, v))
    }
}

/// The characters of each pair of strings.
pub open spec fn pair_views(v: Seq<(String, String)>) -> Seq<(Seq<char>, Seq<char>)> {
    v.map_values(|p: (String, String)| (p.0@, p.1@))
}

/// Appends `(owner, variable)` for each unset required variable referenced
/// by the templates.
pub fn push_missing_refs(
    out: &mut Vec<(String, String)>,
    owner: &String,
    templates: &Vec<String>,
    env: &EnvSnapshot,
)
    ensures
        pair_views(final(out)@) == pair_views(old(out)@) + missing_in(owner@, string_views(templates@), env.vars@),
{
    let ghost base = pair_views(out@);
    let ghost ts = string_views(templates@);
    let mut t: usize = 0;
    while t < templates.len()
        invariant
            t <= templates@.len(),
            ts == string_views(templates@),
            pair_views(out@) == base + missing_in(owner@, ts.take(t as int), env.vars@),
        decreases templates@.len() - t,
    {
        assert(ts.take(t + 1).drop_last() =~= ts.take(t as int));
        let ms = validate_env_vars(templates[t].as_str(), env);
        let ghost mid = pair_views(out@);
        let ghost mapped = string_views(ms@).map_values(|v: Seq<char>| (owner@, v));
        let mut j: usize = 0;
        while j < ms.len()
            invariant
                j <= ms@.len(),
                mapped == string_views(ms@).map_values(|v: Seq<char>| (owner@, v)),
                pair_views(out@) == mid + mapped.take(j as int),
            decreases ms@.len() - j,
        {
            let ghost prev = out@;
            let o = owner.clone();
            let v = ms[j].clone();
            out.push((o, v));
            assert(pair_views(out@) =~= pair_views(prev).push((owner@, ms@[j as int]@)));
            assert(mapped[j as int] == (owner@, string_views(ms@)[j as int]));
            assert(mapped.take(j + 1) =~= mapped.take(j as int).push(mapped[j as int]));
            assert(pair_views(out@) =~= mid + mapped.take(j + 1));
            j = j + 1;
        }
        assert(mapped.take(ms@.len() as int) =~= mapped);
        assert(ts.take(t + 1).last() == templates@[t as int]@);
        assert(pair_views(out@) =~= base + missing_in(owner@, ts.take(t + 1), env.vars@));
        t = t + 1;
    }
    assert(ts.take(templates@.len() as int) =~= ts);
}

/// Substitutes the references of a template from an environment snapshot.
/// Fails, naming every unset required variable (joined with ", "), when
/// any required variable is unset.
pub fn substitute_env_vars(template: &str, env: &EnvSnapshot) -> (r: Result<String, SecretSubstitutionError>)
    ensures
        match substitution(template@, env.vars@) {
            Ok(out) => r matches Ok(x) && x@ == out,
            Err(names) => r matches Err(SecretSubstitutionError::MissingEnvVar(m)) && m@ == names,
        },
{
    let s = crate::text::chars_of(template);
    let refs = scan_refs(s.as_slice());
    let ghost all = template_refs(template@);
    let mut result: Vec<char> = to_vec(s.as_slice());
    let mut errors: Vec<Vec<char>> = Vec::new();
    let mut k: usize = 0;
    while k < refs.len()
        invariant
            k <= refs@.len(),
            s@ == template@,
            all == template_refs(template@),
            refs@.len() == all.len(),
            forall|j: int| 0 <= j < refs@.len() ==> found_view(#[trigger] refs@[j]) == all[j],
            forall|j: int|
                0 <= j < refs@.len() ==> (#[trigger] refs@[j]).start < refs@[j].end && refs@[j].end
                    <= s.len(),
            result@ == apply_refs(template@, all.subrange(0, k as int), env.vars@).0,
            errors@.len() == apply_refs(template@, all.subrange(0, k as int), env.vars@).1.len(),
            forall|j: int| 0 <= j < errors@.len() ==> (#[trigger] errors@[j])@ == apply_refs(template@, all.subrange(0, k as int), env.vars@).1[j],
        decreases refs@.len() - k,
    {
        assert(all.subrange(0, k + 1).drop_last() =~= all.subrange(0, k as int));
        assert(found_view(refs@[k as int]) == all[k as int]);
        let r = &refs[k];
        let full = slice_chars(s.as_slice(), r.start, r.end);
        match env.lookup(r.name.as_slice()) {
            Some(v) => {
                result = replace_all_chars(result.as_slice(), full.as_slice(), v.as_slice());
            },
            None => {
                match &r.default {
                    Some(d) => {
                        result = replace_all_chars(result.as_slice(), full.as_slice(), d.as_slice());
                    },
                    None => {
                        errors.push(to_vec(r.name.as_slice()));
                    },
                }
            },
        }
        k = k + 1;
    }
    assert(all.subrange(0, all.len() as int) =~= all);
    if errors.len() > 0 {
        let ghost names = apply_refs(template@, all, env.vars@).1;
        let mut joined: Vec<char> = Vec::new();
        let mut e: usize = 0;
        while e < errors.len()
            invariant
                e <= errors@.len(),
                errors@.len() == names.len(),
                forall|j: int| 0 <= j < errors@.len() ==> (#[trigger] errors@[j])@ == names[j],
                joined@ == join_names(names.subrange(0, e as int)),
            decreases errors@.len() - e,
        {
            assert(names.subrange(0, e + 1).drop_last() =~= names.subrange(0, e as int));
            if e > 0 {
                append_str(&mut joined, ", ");
            } else {
                assert(names.subrange(0, 1)[0] == names[0]);
            }
            append_chars(&mut joined, errors[e].as_slice());
            e = e + 1;
        }
        assert(names.subrange(0, names.len() as int) =~= names);
        return Err(SecretSubstitutionError::MissingEnvVar(string_from_chars(joined.as_slice())));
    }
    Ok(string_from_chars(result.as_slice()))
}

/// Substitutes every template of a list of (key, template) entries; the
/// first failing entry's error is returned.
pub fn substitute_env_vars_in_map(
    templates: &Vec<(String, String)>,
    env: &EnvSnapshot,
) -> (r: Result<Vec<(String, String)>, SecretSubstitutionError>)
    ensures
        match r {
            Ok(out) => out@.len() == templates@.len() && forall|k: int|
                0 <= k < out@.len() ==> (#[trigger] out@[k]).0@ == templates@[k].0@ && substitution(
                    templates@[k].1@,
                    env.vars@,
                ) == Ok::<Seq<char>, Seq<char>>(out@[k].1@),
            Err(e) => exists|k: int|
                0 <= k < templates@.len() && (forall|j: int|
                    0 <= j < k ==> #[trigger] substitution(templates@[j].1@, env.vars@) is Ok) && match substitution(
                    #[trigger] templates@[k].1@,
                    env.vars@,
                ) {
                    Err(names) => e matches SecretSubstitutionError::MissingEnvVar(m) && m@ == names,
                    Ok(_) => false,
                },
        },
{
    let mut out: Vec<(String, String)> = Vec::new();
    let mut k: usize = 0;
    while k < templates.len()
        invariant
            k <= templates@.len(),
            out@.len() == k,
            forall|j: int|
                0 <= j < k ==> (#[trigger] out@[j]).0@ == templates@[j].0@ && substitution(
                    templates@[j].1@,
                    env.vars@,
                ) == Ok::<Seq<char>, Seq<char>>(out@[j].1@),
        decreases templates@.len() - k,
    {
        match substitute_env_vars(templates[k].1.as_str(), env) {
            Ok(v) => {
                out.push((templates[k].0.clone(), v));
            },
            Err(e) => {
                assert forall|j: int| 0 <= j < k implies #[trigger] substitution(templates@[j].1@, env.vars@) is Ok by {
                    assert(out@[j].0@ == templates@[j].0@);
                }
                return Err(e);
            },
        }
        k = k + 1;
    }
    Ok(out)
}


/// A variable name as templates write it: an ASCII letter or `_`, then
/// ASCII letters, digits or `_`.
pub open spec fn env_name(n: Seq<char>) -> bool {
    &&& n.len() > 0
    &&& ('A' <= n[0] <= 'Z') || ('a' <= n[0] <= 'z') || n[0] == '_'
    &&& forall|k: int|
        0 < k < n.len() ==> ('A' <= #[trigger] n[k] <= 'Z') || ('a' <= n[k] <= 'z') || ('0' <= n[k] <= '9')
            || n[k] == '_'
}

/// `${name}` as a template writes it.
pub open spec fn reference_text(n: Seq<char>) -> Seq<char> {
    seq!['$', '{'] + n + seq!['}']
}

/// Lemma: the name run over a written name stops at its closing brace.
proof fn lemma_name_run_over(s: Seq<char>, i: int, n: Seq<char>, k: int)
    requires
        env_name(n),
        0 <= i,
        i + n.len() + 3 <= s.len(),
        s.subrange(i, i + n.len() + 3) == reference_text(n),
        0 <= k <= n.len(),
    ensures
        name_run(s, i + 2 + k) == n.len() - k,
    decreases n.len() - k,
{
    let t = reference_text(n);
    assert(s[i + 2 + k] == t[2 + k]);
    if k == n.len() {
        assert(t[2 + k] == '}');
    } else {
        assert(t[2 + k] == n[k]);
        lemma_name_run_over(s, i, n, k + 1);
    }
}

/// Wherever the scan stands at `${name}` for a well-formed name, a
/// required reference to that name is found there: names may hold lower
/// and upper case letters, digits and `_`.
pub proof fn law_reference_recognized(s: Seq<char>, i: int, n: Seq<char>)
    requires
        env_name(n),
        0 <= i,
        i + n.len() + 3 <= s.len(),
        s.subrange(i, i + n.len() + 3) == reference_text(n),
    ensures
        ref_at(s, i) == Some((i + n.len() + 3, n, None::<Seq<char>>)),
{
    let t = reference_text(n);
    assert(s[i] == t[0] && s[i + 1] == t[1] && s[i + 2] == t[2]);
    assert(t[2] == n[0]);
    lemma_name_run_over(s, i, n, 0);
    let j = i + 2 + n.len();
    assert(s[j] == t[(2 + n.len()) as int]);
    assert(s.subrange(i + 2, j) =~= n) by {
        assert forall|k: int| 0 <= k < n.len() implies s.subrange(i + 2, j)[k] == n[k] by {
            assert(s[i + 2 + k] == t[2 + k]);
        }
    }
}

/// A template that is a single `${name}` reference substitutes to the
/// variable's value when it is set, and reports the name as missing when
/// it is not.
pub proof fn law_single_reference_substitutes(n: Seq<char>, vars: Seq<(String, String)>)
    requires
        env_name(n),
    ensures
        template_refs(reference_text(n)) == seq![(0int, (n.len() + 3) as int, n, None::<Seq<char>>)],
        match env_lookup(vars, n) {
            Some(v) => substitution(reference_text(n), vars) == Ok::<Seq<char>, Seq<char>>(v),
            None => substitution(reference_text(n), vars) == Err::<Seq<char>, Seq<char>>(n),
        },
{
    let t = reference_text(n);
    assert(t.subrange(0, t.len() as int) =~= t);
    law_reference_recognized(t, 0, n);
    assert(refs_from(t, t.len() as int) == Seq::<EnvRef>::empty());
    let refs = template_refs(t);
    assert(refs =~= seq![(0int, (n.len() + 3) as int, n, None::<Seq<char>>)]);
    assert(refs.drop_last() =~= Seq::<EnvRef>::empty());
    let full = t.subrange(0, t.len() as int);
    assert(full =~= t);
    assert(apply_refs(t, Seq::<EnvRef>::empty(), vars) == (t, Seq::<Seq<char>>::empty()));
    assert(refs.last() == (0int, (n.len() + 3) as int, n, None::<Seq<char>>));
    assert(t.len() == n.len() + 3);
    match env_lookup(vars, n) {
        Some(v) => {
            assert(t.subrange(t.len() as int, t.len() as int) =~= Seq::<char>::empty());
            assert(replace_all(Seq::<char>::empty(), t, v) == Seq::<char>::empty());
            assert(replace_all(t, t, v) =~= v);
            assert(apply_refs(t, refs, vars) == (v, Seq::<Seq<char>>::empty()));
        },
        None => {
            let names = seq![n];
            assert(Seq::<Seq<char>>::empty().push(n) =~= names);
            assert(join_names(names) == n);
            assert(apply_refs(t, refs, vars) == (t, names));
        },
    }
}

}
