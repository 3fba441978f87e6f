//! Scope subset validation for delegation.
//!
//! Decides whether a requested scope (action, resource) stays within a
//! parent's scope, so that a delegation chain can only narrow authority:
//!
//! - exact match: `"browser.click"` is within `"browser.click"`;
//! - wildcard narrowing: `"browser.click"` is within `"browser.*"`;
//! - a wildcard is not within a specific pattern: `"browser.*"` is not
//!   within `"browser.click"`;
//! - the universal wildcard `"*"` holds everything.
use vstd::prelude::*;

use crate::glob_match::{
    glob_compile_and_match, glob_outcome, glob_pattern_compiles, glob_pattern_matches, glob_stable,
    has_glob_wildcards,
};
use crate::text::{chars_eq, chars_of, contains_char, eq_str, split_chars, split_on};
use crate::models::{scopes_view, ScopeSpec};
use crate::policy::pattern_matches;

verus! {

/// The universal wildcard `*`.
pub open spec fn star() -> Seq<char> {
    seq!['*']
}

/// A dot-separated segment of a requested pattern lies within the
/// parent's segment at the same position: the parent's is the bare `*`,
/// or the two are the same text.
pub open spec fn segment_compatible(parent_seg: Seq<char>, requested_seg: Seq<char>) -> bool {
    parent_seg == star() || parent_seg == requested_seg
}

/// The requested wildcard pattern admits nothing the parent does not, by
/// its structure: neither holds a character class, each parent segment is
/// a bare `*` or equals the requested segment at its position, and the
/// requested pattern has extra trailing segments only where the parent's
/// last segment is a bare `*` (which also matches dots).
pub open spec fn wildcard_narrower_or_equal(parent: Seq<char>, requested: Seq<char>) -> bool {
    let ps = split_on(parent, '.');
    let rs = split_on(requested, '.');
    &&& !parent.contains('[')
    &&& !requested.contains('[')
    &&& ps.len() <= rs.len()
    &&& (ps.len() < rs.len() ==> ps.len() > 0 && ps.last() == star())
    &&& forall|i: int| 0 <= i < ps.len() ==> #[trigger] segment_compatible(ps[i], rs[i])
}

/// A requested pattern lies within a parent pattern.
pub open spec fn pattern_subset(parent: Seq<char>, requested: Seq<char>) -> bool {
    if parent == star() {
        true
    } else if parent == requested {
        true
    } else if has_glob_wildcards(requested) && !has_glob_wildcards(parent) {
        false
    } else if has_glob_wildcards(parent) {
        &&& glob_pattern_compiles(parent)
        &&& glob_pattern_matches(parent, requested)
        &&& (has_glob_wildcards(requested) ==> wildcard_narrower_or_equal(parent, requested))
    } else {
        false
    }
}

/// The subset decision has one answer on every system: it does not
/// reach the glob crate (the parent is `*`, equals the request, or holds
/// no wildcard), or neither text holds a backslash.
pub open spec fn subset_decided(parent: Seq<char>, requested: Seq<char>) -> bool {
    parent == star() || parent == requested || !has_glob_wildcards(parent) || glob_stable(parent, requested)
}

/// What a granted subset shows on every system, whatever the glob crate
/// answers: the parent is `*` or equal to the request, or it holds a
/// wildcard and a requested wildcard pattern lies within it by structure.
pub open spec fn pattern_subset_shape(parent: Seq<char>, requested: Seq<char>) -> bool {
    parent == star() || parent == requested || (has_glob_wildcards(parent) && (has_glob_wildcards(requested)
        ==> wildcard_narrower_or_equal(parent, requested)))
}

/// The universal wildcard holds a `*`.
pub proof fn lemma_star_is_wildcard()
    ensures
        star().contains('*'),
        has_glob_wildcards(star()),
        "*"@ == star(),
{
    assert(star()[0] == '*');
    reveal_strlit("*");
    assert("*"@ =~= star());
}

/// Whether `p` holds one of the glob metacharacters `*`, `?`, `[`.
pub fn has_glob_wildcards_exec(p: &[char]) -> (r: bool)
    ensures
        r == has_glob_wildcards(p@),
{
    contains_char(p, '*') || contains_char(p, '?') || contains_char(p, '[')
}

/// Number of segments that hold a `*`.
pub open spec fn star_segments(segs: Seq<Seq<char>>) -> nat
    decreases segs.len(),
{
    if segs.len() == 0 {
        0
    } else {
        star_segments(segs.drop_last()) + (if segs.last().contains('*') { 1nat } else { 0nat })
    }
}

/// The views of the segments.
pub open spec fn segment_views(segs: Seq<Vec<char>>) -> Seq<Seq<char>> {
    segs.map_values(|v: Vec<char>| v@)
}

/// Number of segments that hold a `*`.
fn count_star_segments(segs: &Vec<Vec<char>>) -> (n: usize)
    ensures
        n == star_segments(segment_views(segs@)),
        n <= segs@.len(),
{
    let ghost all = segment_views(segs@);
    let mut n: usize = 0;
    let mut i: usize = 0;
    while i < segs.len()
        invariant
            i <= segs@.len(),
            all == segment_views(segs@),
            n == star_segments(all.take(i as int)),
            n <= i,
        decreases segs@.len() - i,
    {
        assert(all.take(i + 1).drop_last() =~= all.take(i as int));
        assert(all.take(i + 1).last() == segs@[i as int]@);
        if contains_char(segs[i].as_slice(), '*') {
            n = n + 1;
        }
        i = i + 1;
    }
    assert(all.take(segs@.len() as int) =~= all);
    n
}

/// Compares two wildcard patterns segment by segment: is `requested`
/// narrower than or equal to `parent`?
pub fn is_wildcard_narrower_or_equal(parent: &[char], requested: &[char]) -> (r: bool)
    ensures
        r == wildcard_narrower_or_equal(parent@, requested@),
{
    let parent_segments = split_chars(parent, '.');
    let requested_segments = split_chars(requested, '.');
    let ghost ps = split_on(parent@, '.');
    let ghost rs = split_on(requested@, '.');

    // Fewer segments with more wildcards is broader.
    if requested_segments.len() < parent_segments.len() {
        let parent_wildcards = count_star_segments(&parent_segments);
        let requested_wildcards = count_star_segments(&requested_segments);
        if requested_wildcards > parent_wildcards {
            assert(!(ps.len() <= rs.len()));
            return false;
        }
    }
    if contains_char(parent, '[') || contains_char(requested, '[') {
        return false;
    }
    if parent_segments.len() < requested_segments.len() {
        let n = parent_segments.len();
        if n == 0 {
            return false;
        }
        proof {
            lemma_star_is_wildcard();
            assert(parent_segments@[n - 1]@ == ps.last());
        }
        if !eq_str(parent_segments[n - 1].as_slice(), "*") {
            return false;
        }
    }
    let mut i: usize = 0;
    while i < parent_segments.len()
        invariant
            i <= parent_segments@.len(),
            ps == split_on(parent@, '.'),
            rs == split_on(requested@, '.'),
            parent_segments@.len() == ps.len(),
            requested_segments@.len() == rs.len(),
            forall|k: int| 0 <= k < ps.len() ==> #[trigger] parent_segments@[k]@ == ps[k],
            forall|k: int| 0 <= k < rs.len() ==> #[trigger] requested_segments@[k]@ == rs[k],
            i <= rs.len(),
            forall|k: int| 0 <= k < i ==> #[trigger] segment_compatible(ps[k], rs[k]),
        decreases parent_segments@.len() - i,
    {
        if i >= requested_segments.len() {
            assert(!(ps.len() <= rs.len()));
            return false;
        }
        let parent_seg = parent_segments[i].as_slice();
        let requested_seg = requested_segments[i].as_slice();
        assert(parent_segments@[i as int]@ == ps[i as int]);
        assert(requested_segments@[i as int]@ == rs[i as int]);
        proof {
            lemma_star_is_wildcard();
        }
        if !eq_str(parent_seg, "*") && !chars_eq(parent_seg, requested_seg) {
            assert(!segment_compatible(ps[i as int], rs[i as int]));
            return false;
        }
        i = i + 1;
    }
    true
}

/// Core subset decision shared by actions and resources.
pub fn is_pattern_subset(parent_pattern: &str, requested_pattern: &str) -> (r: bool)
    ensures
        subset_decided(parent_pattern@, requested_pattern@) ==> r == pattern_subset(parent_pattern@, requested_pattern@),
        !has_glob_wildcards(parent_pattern@) ==> r == (parent_pattern@ == requested_pattern@),
        r ==> pattern_subset_shape(parent_pattern@, requested_pattern@),
{
    let parent = chars_of(parent_pattern);
    let requested = chars_of(requested_pattern);
    proof {
        lemma_star_is_wildcard();
    }
    if eq_str(parent.as_slice(), "*") {
        return true;
    }
    if chars_eq(parent.as_slice(), requested.as_slice()) {
        return true;
    }
    let requested_has_wildcard = has_glob_wildcards_exec(requested.as_slice());
    let parent_has_wildcard = has_glob_wildcards_exec(parent.as_slice());
    if requested_has_wildcard && !parent_has_wildcard {
        return false;
    }
    if parent_has_wildcard {
        match glob_compile_and_match(parent_pattern, requested_pattern) {
            Some(true) => {
                if requested_has_wildcard {
                    return is_wildcard_narrower_or_equal(parent.as_slice(), requested.as_slice());
                }
                return true;
            },
            _ => {},
        }
    }
    false
}

/// Whether `requested_action` is a valid subset of `parent_action`.
pub fn is_action_subset(parent_action: &str, requested_action: &str) -> (r: bool)
    ensures
        subset_decided(parent_action@, requested_action@) ==> r == pattern_subset(parent_action@, requested_action@),
        !has_glob_wildcards(parent_action@) ==> r == (parent_action@ == requested_action@),
        r ==> pattern_subset_shape(parent_action@, requested_action@),
{
    is_pattern_subset(parent_action, requested_action)
}

/// Whether `requested_resource` is a valid subset of `parent_resource`.
pub fn is_resource_subset(parent_resource: &str, requested_resource: &str) -> (r: bool)
    ensures
        subset_decided(parent_resource@, requested_resource@) ==> r == pattern_subset(parent_resource@, requested_resource@),
        !has_glob_wildcards(parent_resource@) ==> r == (parent_resource@ == requested_resource@),
        r ==> pattern_subset_shape(parent_resource@, requested_resource@),
{
    is_pattern_subset(parent_resource, requested_resource)
}

/// Whether both the requested action and the requested resource lie within
/// the parent's scope.
pub fn is_scope_subset(
    parent_action: &str,
    parent_resource: &str,
    requested_action: &str,
    requested_resource: &str,
) -> (r: bool)
    ensures
        subset_decided(parent_action@, requested_action@) && subset_decided(parent_resource@, requested_resource@) ==> r
            == (pattern_subset(parent_action@, requested_action@) && pattern_subset(
            parent_resource@,
            requested_resource@,
        )),
        r ==> pattern_subset_shape(parent_action@, requested_action@) && pattern_subset_shape(
            parent_resource@,
            requested_resource@,
        ),
{
    is_action_subset(parent_action, requested_action) && is_resource_subset(
        parent_resource,
        requested_resource,
    )
}


/// The requested scope lies within at least one of the parent's scopes.
pub open spec fn scope_within_any(parents: Seq<(Seq<char>, Seq<char>)>, action: Seq<char>, resource: Seq<char>) -> bool {
    exists|i: int|
        0 <= i < parents.len() && pattern_subset(#[trigger] parents[i].0, action) && pattern_subset(
            parents[i].1,
            resource,
        )
}

/// Every subset check against the parent scopes is decided.
pub open spec fn scopes_stable(parents: Seq<(Seq<char>, Seq<char>)>, action: Seq<char>, resource: Seq<char>) -> bool {
    forall|i: int| 0 <= i < parents.len() ==> subset_decided(#[trigger] parents[i].0, action) && subset_decided(
        parents[i].1,
        resource,
    )
}

/// Some parent scope holds the requested one by the structure that
/// `pattern_subset_shape` states.
pub open spec fn scope_shape_within_any(parents: Seq<(Seq<char>, Seq<char>)>, action: Seq<char>, resource: Seq<char>) -> bool {
    exists|i: int|
        0 <= i < parents.len() && pattern_subset_shape(#[trigger] parents[i].0, action) && pattern_subset_shape(
            parents[i].1,
            resource,
        )
}

/// Whether the requested scope lies within at least one parent scope.
pub fn is_scope_subset_of_any(parent_scopes: &Vec<ScopeSpec>, requested_action: &str, requested_resource: &str) -> (r: bool)
    ensures
        scopes_stable(scopes_view(parent_scopes@), requested_action@, requested_resource@) ==> r == scope_within_any(
            scopes_view(parent_scopes@),
            requested_action@,
            requested_resource@,
        ),
        r ==> scope_shape_within_any(scopes_view(parent_scopes@), requested_action@, requested_resource@),
{
    let ghost sv = scopes_view(parent_scopes@);
    let mut i: usize = 0;
    while i < parent_scopes.len()
        invariant
            i <= parent_scopes@.len(),
            sv == scopes_view(parent_scopes@),
            scopes_stable(sv, requested_action@, requested_resource@) ==> forall|j: int| 0 <= j < i ==> !(pattern_subset(#[trigger] sv[j].0, requested_action@) && pattern_subset(
                sv[j].1,
                requested_resource@,
            )),
        decreases parent_scopes@.len() - i,
    {
        let sc = &parent_scopes[i];
        assert(sv[i as int] == (sc.action@, sc.resource@));
        if is_scope_subset(sc.action.as_str(), sc.resource.as_str(), requested_action, requested_resource) {
            proof {
                if scopes_stable(sv, requested_action@, requested_resource@) {
                    assert(subset_decided(sv[i as int].0, requested_action@));
                    assert(pattern_subset(sv[i as int].0, requested_action@));
                }
                assert(pattern_subset_shape(sv[i as int].0, requested_action@));
            }
            return true;
        }
        proof {
            if scopes_stable(sv, requested_action@, requested_resource@) {
                assert(subset_decided(sv[i as int].0, requested_action@));
            }
        }
        i = i + 1;
    }
    false
}

/// Every pattern lies within itself.
pub proof fn law_subset_reflexive(p: Seq<char>)
    ensures
        pattern_subset(p, p),
{
}

/// The universal wildcard holds every requested pattern.
pub proof fn law_universal_wildcard_holds_all(requested: Seq<char>)
    ensures
        pattern_subset(star(), requested),
{
}

/// A wildcard request never lies within a literal parent other than
/// itself: delegation cannot widen a specific scope.
pub proof fn law_no_wildcard_escalation(parent: Seq<char>, requested: Seq<char>)
    requires
        has_glob_wildcards(requested),
        !has_glob_wildcards(parent),
    ensures
        !pattern_subset(parent, requested),
{
    assert(star().contains('*')) by {
        assert(star()[0] == '*');
    }
    if parent == requested {
    }
}

/// A literal request that lies within a parent pattern is matched by that
/// pattern as the policy engine matches rules, provided the glob crate
/// behaves as stated of literal patterns: what a delegate may ask for, the
/// parent's pattern authorizes.
pub proof fn law_literal_subset_is_matched(parent: Seq<char>, requested: Seq<char>)
    requires
        pattern_subset(parent, requested),
        !has_glob_wildcards(requested),
        glob_outcome(requested, requested) == Some(true),
    ensures
        pattern_matches(parent, requested),
{
}

}
