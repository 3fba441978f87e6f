//! Glob matching through the `glob` crate.
//!
//! The library matches principals, actions and resources with Unix-shell
//! style patterns compiled by `glob::Pattern` under its default options.
//! What the crate computes is named here and stated only through the facts
//! its source plainly shows.
use vstd::prelude::*;

verus! {

/// Whether `glob::Pattern::new` accepts `pattern` (a pattern without a
/// backslash).
pub uninterp spec fn glob_pattern_compiles(pattern: Seq<char>) -> bool;

/// Whether the compiled `pattern` matches `value` under the default
/// `glob::MatchOptions` (what `glob::Pattern::matches` returns), for texts
/// without a backslash.
pub uninterp spec fn glob_pattern_matches(pattern: Seq<char>, value: Seq<char>) -> bool;

/// The pattern holds a glob metacharacter: `*`, `?` or `[`.
pub open spec fn has_glob_wildcards(p: Seq<char>) -> bool {
    p.contains('*') || p.contains('?') || p.contains('[')
}

/// What compiling `pattern` and matching it against `value` yields:
/// `None` when the pattern is rejected.
pub open spec fn glob_outcome(pattern: Seq<char>, value: Seq<char>) -> Option<bool> {
    if glob_pattern_compiles(pattern) {
        Some(glob_pattern_matches(pattern, value))
    } else {
        None
    }
}

/// Neither text holds a backslash. `glob` treats `/` and `\\` as the same
/// separator on Windows only (its `chars_eq` and `path::is_separator`), so
/// only on such texts is what it computes the same on every machine.
pub open spec fn glob_stable(pattern: Seq<char>, value: Seq<char>) -> bool {
    !pattern.contains('\\') && !value.contains('\\')
}

/// A pattern of plain literal characters: no `*`, `?`, `[`, `/` or `\\`.
/// On every system it matches exactly the equal text.
pub open spec fn plain_literal(pattern: Seq<char>) -> bool {
    !has_glob_wildcards(pattern) && !pattern.contains('/') && !pattern.contains('\\')
}

/// Matching `pattern` against `value` has one answer on every system:
/// the pattern is `*` or a plain literal, or neither text holds a
/// backslash.
pub open spec fn pattern_decided(pattern: Seq<char>, value: Seq<char>) -> bool {
    pattern == seq!['*'] || plain_literal(pattern) || glob_stable(pattern, value)
}

/// Every pattern of a list is decided against the value.
pub open spec fn patterns_stable(patterns: Seq<String>, value: Seq<char>) -> bool {
    forall|i: int| 0 <= i < patterns.len() ==> #[trigger] pattern_decided(patterns[i]@, value)
}

/// Calls `glob::Pattern::new(pattern)` and, when it succeeds,
/// `glob::Pattern::matches(value)` on the result.
///
/// Claimed of the crate, where neither text holds a backslash: the result
/// is the named outcome. Claimed for every text: a pattern without `*`,
/// `?`, `[`, `/` or `\\` compiles to literal characters that match the
/// equal string only (default options are case sensitive, and no
/// separator takes part); the pattern `*` compiles to a single
/// any-sequence token that matches every string. Not claimed: the outcome
/// where a backslash occurs, which differs between Windows and other
/// systems.
#[verifier::external_body]
pub(crate) fn glob_compile_and_match(pattern: &str, value: &str) -> (r: Option<bool>)
    ensures
        glob_stable(pattern@, value@) ==> r == (if glob_pattern_compiles(pattern@) {
            Some(glob_pattern_matches(pattern@, value@))
        } else {
            None
        }),
        !has_glob_wildcards(pattern@) && !pattern@.contains('/') && !pattern@.contains('\\') ==> r == Some(
            pattern@ == value@,
        ),
        pattern@ == seq!['*'] ==> r == Some(true),
{
    match glob::Pattern::new(pattern) {
        Ok(p) => Some(p.matches(value)),
        Err(_) => None,
    }
}

}
