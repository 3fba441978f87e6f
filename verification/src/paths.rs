//! Path normalization used before matching `fs.*` resources, so that
//! `.`/`..` components and repeated slashes cannot smuggle a path past a
//! policy pattern.
use vstd::prelude::*;

use crate::text::{
    append_chars, chars_eq, chars_of, eq_str, is_prefix, slice_chars, split_chars, split_on,
    starts_with_str, string_from_chars, to_vec,
};

verus! {

broadcast use vstd::string::group_string_axioms;

/// The parent-directory component `..`.
pub open spec fn dotdot() -> Seq<char> {
    seq!['.', '.']
}

/// The current-directory component `.`.
pub open spec fn dot() -> Seq<char> {
    seq!['.']
}

/// Resolves slash-separated segments as `Path::components` and
/// `PathBuf::pop` do: empty and `.` segments are skipped, `..` drops the
/// last kept segment (never going above the start).
pub open spec fn resolve_segments(segs: Seq<Seq<char>>) -> Seq<Seq<char>>
    decreases segs.len(),
{
    if segs.len() == 0 {
        Seq::empty()
    } else {
        let st = resolve_segments(segs.drop_last());
        let last = segs.last();
        if last.len() == 0 || last == dot() {
            st
        } else if last == dotdot() {
            if st.len() > 0 {
                st.drop_last()
            } else {
                st
            }
        } else {
            st.push(last)
        }
    }
}

/// Segments joined with `/`.
pub open spec fn join_segments(segs: Seq<Seq<char>>) -> Seq<char>
    decreases segs.len(),
{
    if segs.len() == 0 {
        Seq::empty()
    } else if segs.len() == 1 {
        segs[0]
    } else {
        join_segments(segs.drop_last()) + seq!['/'] + segs.last()
    }
}

/// The normalized text of an (already home-expanded) path: rooted paths
/// keep their leading `/`; an empty relative result is `.`.
pub open spec fn normalized_text(expanded: Seq<char>) -> Seq<char> {
    let st = resolve_segments(split_on(expanded, '/'));
    if expanded.len() > 0 && expanded[0] == '/' {
        seq!['/'] + join_segments(st)
    } else if st.len() == 0 {
        dot()
    } else {
        join_segments(st)
    }
}

/// A leading `~/` (or a lone `~`) replaced by the home directory, as
/// `PathBuf::from(home).push(rest)` does; unchanged without a home.
pub open spec fn home_expanded(path: Seq<char>, home: Option<Seq<char>>) -> Seq<char> {
    if is_prefix(seq!['~', '/'], path) {
        match home {
            Some(h) => {
                let rest = path.subrange(2, path.len() as int);
                if rest.len() > 0 && rest[0] == '/' {
                    rest
                } else if h.len() == 0 {
                    rest
                } else {
                    h + seq!['/'] + rest
                }
            },
            None => path,
        }
    } else if path == seq!['~'] {
        match home {
            Some(h) => h,
            None => path,
        }
    } else {
        path
    }
}

/// The normalized form of `path` given the home directory.
pub open spec fn normalized_path(path: Seq<char>, home: Option<Seq<char>>) -> Seq<char> {
    normalized_text(home_expanded(path, home))
}

/// Lemma: one step of `resolve_segments` over a growing prefix.
proof fn lemma_resolve_step(segs: Seq<Seq<char>>, i: int)
    requires
        0 <= i < segs.len(),
    ensures
        resolve_segments(segs.subrange(0, i + 1)) == ({
            let st = resolve_segments(segs.subrange(0, i));
            let last = segs[i];
            if last.len() == 0 || last == dot() {
                st
            } else if last == dotdot() {
                if st.len() > 0 {
                    st.drop_last()
                } else {
                    st
                }
            } else {
                st.push(last)
            }
        }),
{
    assert(segs.subrange(0, i + 1).drop_last() =~= segs.subrange(0, i));
}

/// Resolves the segments of `p` and joins what is kept.
fn resolve_and_join(p: &[char]) -> (r: (Vec<char>, usize))
    ensures
        r.0@ == join_segments(resolve_segments(split_on(p@, '/'))),
        r.1 == resolve_segments(split_on(p@, '/')).len(),
{
    let segs = split_chars(p, '/');
    let ghost all = split_on(p@, '/');
    let mut st: Vec<Vec<char>> = Vec::new();
    let mut i: usize = 0;
    let dd = chars_of("..");
    let d = chars_of(".");
    proof {
        reveal_strlit("..");
        reveal_strlit(".");
        assert(dd@ =~= dotdot());
        assert(d@ =~= dot());
        assert(all.subrange(0, 0) =~= Seq::<Seq<char>>::empty());
    }
    while i < segs.len()
        invariant
            i <= segs@.len(),
            all == split_on(p@, '/'),
            segs@.len() == all.len(),
            forall|k: int| 0 <= k < all.len() ==> #[trigger] segs@[k]@ == all[k],
            dd@ == dotdot(),
            d@ == dot(),
            st@.len() == resolve_segments(all.subrange(0, i as int)).len(),
            forall|k: int|
                0 <= k < st@.len() ==> #[trigger] st@[k]@ == resolve_segments(
                    all.subrange(0, i as int),
                )[k],
        decreases segs@.len() - i,
    {
        proof {
            lemma_resolve_step(all, i as int);
        }
        let seg = segs[i].as_slice();
        assert(seg@ == all[i as int]);
        if seg.len() == 0 || chars_eq(seg, d.as_slice()) {
        } else if chars_eq(seg, dd.as_slice()) {
            if st.len() > 0 {
                st.pop();
            }
        } else {
            st.push(to_vec(seg));
        }
        i = i + 1;
    }
    assert(all.subrange(0, all.len() as int) =~= all);
    let ghost kept = resolve_segments(all);
    // Join the kept segments with '/'.
    let mut out: Vec<char> = Vec::new();
    let mut k: usize = 0;
    assert(kept.subrange(0, 0) =~= Seq::<Seq<char>>::empty());
    while k < st.len()
        invariant
            k <= st@.len(),
            st@.len() == kept.len(),
            forall|j: int| 0 <= j < st@.len() ==> #[trigger] st@[j]@ == kept[j],
            out@ == join_segments(kept.subrange(0, k as int)),
        decreases st@.len() - k,
    {
        let ghost pre = kept.subrange(0, k as int);
        assert(kept.subrange(0, k + 1).drop_last() =~= pre);
        if k > 0 {
            out.push('/');
        } else {
            assert(kept.subrange(0, 1)[0] == kept[0]);
        }
        append_chars(&mut out, st[k].as_slice());
        k = k + 1;
    }
    assert(kept.subrange(0, kept.len() as int) =~= kept);
    let n = st.len();
    (out, n)
}

/// Normalizes an already home-expanded path.
fn normalize_expanded(p: &[char]) -> (r: String)
    ensures
        r@ == normalized_text(p@),
{
    let (joined, kept) = resolve_and_join(p);
    if p.len() > 0 && p[0] == '/' {
        let mut out: Vec<char> = Vec::new();
        out.push('/');
        append_chars(&mut out, joined.as_slice());
        assert(out@ =~= seq!['/'] + joined@);
        string_from_chars(out.as_slice())
    } else if kept == 0 {
        let mut out: Vec<char> = Vec::new();
        out.push('.');
        assert(out@ =~= dot());
        string_from_chars(out.as_slice())
    } else {
        string_from_chars(joined.as_slice())
    }
}

/// Expands a leading `~/` or a lone `~` with the home directory.
fn expand_home(path: &[char], home: Option<&str>) -> (r: Vec<char>)
    ensures
        r@ == home_expanded(path@, match home {
            Some(h) => Some(h@),
            None => None,
        }),
{
    proof {
        reveal_strlit("~/");
        reveal_strlit("~");
        assert("~/"@ =~= seq!['~', '/']);
        assert("~"@ =~= seq!['~']);
    }
    if starts_with_str(path, "~/") {
        match home {
            Some(h) => {
                let rest = slice_chars(path, 2, path.len());
                if rest.len() > 0 && rest[0] == '/' {
                    rest
                } else {
                    let hv = chars_of(h);
                    if hv.len() == 0 {
                        rest
                    } else {
                        let mut out = hv;
                        out.push('/');
                        append_chars(&mut out, rest.as_slice());
                        out
                    }
                }
            },
            None => to_vec(path),
        }
    } else if eq_str(path, "~") {
        match home {
            Some(h) => chars_of(h),
            None => to_vec(path),
        }
    } else {
        to_vec(path)
    }
}

/// Normalizes a file path against traversal: `.` and `..` components are
/// resolved (never above the root), repeated slashes collapse, a leading
/// `~/` expands to `home` when one is given; an empty result is `.`.
pub fn normalize_path_with_home(path: &str, home: Option<&str>) -> (r: String)
    ensures
        r@ == normalized_path(path@, match home {
            Some(h) => Some(h@),
            None => None,
        }),
{
    let p = chars_of(path);
    let expanded = expand_home(p.as_slice(), home);
    normalize_expanded(expanded.as_slice())
}

/// Normalizes a file path with no home directory available.
pub fn normalize_path(path: &str) -> (r: String)
    ensures
        r@ == normalized_path(path@, None),
{
    normalize_path_with_home(path, None)
}

/// Lemma: splitting around an inserted separator splits each side.
pub proof fn lemma_split_concat(a: Seq<char>, b: Seq<char>, sep: char)
    ensures
        split_on(a + seq![sep] + b, sep) == split_on(a, sep) + split_on(b, sep),
    decreases b.len(),
{
    let whole = a + seq![sep] + b;
    if b.len() == 0 {
        assert(whole.drop_last() =~= a);
        assert(split_on(b, sep) == seq![Seq::<char>::empty()]);
        assert(split_on(a, sep).push(Seq::<char>::empty()) =~= split_on(a, sep) + seq![
            Seq::<char>::empty(),
        ]);
    } else {
        let b2 = b.drop_last();
        lemma_split_concat(a, b2, sep);
        assert(whole.drop_last() =~= a + seq![sep] + b2);
        assert(whole.last() == b.last());
        lemma_split_nonempty(b2, sep);
        lemma_split_nonempty(a, sep);
        let sa = split_on(a, sep);
        let sb2 = split_on(b2, sep);
        if b.last() == sep {
            assert((sa + sb2).push(Seq::<char>::empty()) =~= sa + sb2.push(Seq::<char>::empty()));
        } else {
            let rest = sa + sb2;
            assert(rest.last() == sb2.last());
            assert(rest.update(rest.len() - 1, rest.last().push(b.last())) =~= sa + sb2.update(
                sb2.len() - 1,
                sb2.last().push(b.last()),
            ));
        }
    }
}

/// Lemma: `split_on` always yields at least one segment.
pub proof fn lemma_split_nonempty(s: Seq<char>, sep: char)
    ensures
        split_on(s, sep).len() >= 1,
    decreases s.len(),
{
    if s.len() > 0 {
        lemma_split_nonempty(s.drop_last(), sep);
    }
}

/// Lemma: text without the separator is a single segment.
pub proof fn lemma_split_no_sep(s: Seq<char>, sep: char)
    requires
        !s.contains(sep),
    ensures
        split_on(s, sep) == seq![s],
    decreases s.len(),
{
    if s.len() > 0 {
        let t = s.drop_last();
        assert(!t.contains(sep)) by {
            if t.contains(sep) {
                let j = choose|j: int| 0 <= j < t.len() && t[j] == sep;
                assert(s[j] == sep);
            }
        }
        lemma_split_no_sep(t, sep);
        assert(s.last() != sep) by {
            assert(s[s.len() - 1] == s.last());
        }
        assert(t.push(s.last()) =~= s);
        assert(split_on(t, sep).last() == t);
        assert(seq![t].update(0, t.push(s.last())) =~= seq![s]);
    } else {
        assert(s =~= Seq::<char>::empty());
    }
}

/// Lemma: no segment of a split holds the separator.
pub proof fn lemma_split_segments_lack_sep(s: Seq<char>, sep: char)
    ensures
        forall|k: int|
            0 <= k < split_on(s, sep).len() ==> !(#[trigger] split_on(s, sep)[k]).contains(sep),
    decreases s.len(),
{
    if s.len() > 0 {
        let t = s.drop_last();
        lemma_split_segments_lack_sep(t, sep);
        lemma_split_nonempty(t, sep);
        let rest = split_on(t, sep);
        if s.last() != sep {
            let seg = rest.last().push(s.last());
            assert(!seg.contains(sep)) by {
                if seg.contains(sep) {
                    let j = choose|j: int| 0 <= j < seg.len() && seg[j] == sep;
                    if j < seg.len() - 1 {
                        assert(rest.last()[j] == sep);
                        assert(rest.last() == rest[rest.len() - 1]);
                    }
                }
            }
        }
    }
}

/// A segment kept by resolution: non-empty, not `.` or `..`, no `/`.
pub open spec fn kept_segment(seg: Seq<char>) -> bool {
    seg.len() > 0 && seg != dot() && seg != dotdot() && !seg.contains('/')
}

/// Lemma: resolution keeps only proper segments.
pub proof fn lemma_resolve_kept(segs: Seq<Seq<char>>)
    requires
        forall|k: int| 0 <= k < segs.len() ==> !(#[trigger] segs[k]).contains('/'),
    ensures
        forall|k: int|
            0 <= k < resolve_segments(segs).len() ==> kept_segment(
                #[trigger] resolve_segments(segs)[k],
            ),
    decreases segs.len(),
{
    if segs.len() > 0 {
        let t = segs.drop_last();
        assert forall|k: int| 0 <= k < t.len() implies !(#[trigger] t[k]).contains('/') by {
            assert(t[k] == segs[k]);
        }
        lemma_resolve_kept(t);
        assert(segs.last() == segs[segs.len() - 1]);
        let st = resolve_segments(t);
        let r = resolve_segments(segs);
        let last = segs.last();
        assert(segs.drop_last() == t);
        assert forall|k: int| 0 <= k < r.len() implies kept_segment(#[trigger] r[k]) by {
            if last.len() == 0 || last == dot() {
                assert(r == st);
            } else if last == dotdot() {
                if st.len() > 0 {
                    assert(r == st.drop_last());
                    assert(r[k] == st[k]);
                } else {
                    assert(r == st);
                }
            } else {
                assert(r == st.push(last));
                if k < st.len() {
                    assert(r[k] == st[k]);
                }
            }
        }
    }
}

/// Lemma: splitting joined proper segments gives them back.
pub proof fn lemma_split_join(st: Seq<Seq<char>>)
    requires
        st.len() > 0,
        forall|k: int| 0 <= k < st.len() ==> kept_segment(#[trigger] st[k]),
    ensures
        split_on(join_segments(st), '/') == st,
    decreases st.len(),
{
    if st.len() == 1 {
        assert(kept_segment(st[0]));
        lemma_split_no_sep(st[0], '/');
        assert(st =~= seq![st[0]]);
    } else {
        let t = st.drop_last();
        assert forall|k: int| 0 <= k < t.len() implies kept_segment(#[trigger] t[k]) by {
            assert(t[k] == st[k]);
        }
        lemma_split_join(t);
        assert(kept_segment(st[st.len() - 1]));
        lemma_split_no_sep(st.last(), '/');
        lemma_split_concat(join_segments(t), st.last(), '/');
        assert(t + seq![st.last()] =~= st);
    }
}

/// Traversal cannot survive normalization: no segment of a normalized path
/// is `..`, whatever the input and the home directory.
pub proof fn law_normalized_has_no_parent_segment(path: Seq<char>, home: Option<Seq<char>>)
    ensures
        forall|k: int|
            0 <= k < split_on(normalized_path(path, home), '/').len() ==> #[trigger] split_on(
                normalized_path(path, home),
                '/',
            )[k] != dotdot(),
{
    let e = home_expanded(path, home);
    let segs = split_on(e, '/');
    lemma_split_segments_lack_sep(e, '/');
    lemma_resolve_kept(segs);
    let st = resolve_segments(segs);
    let out = normalized_path(path, home);
    if e.len() > 0 && e[0] == '/' {
        if st.len() > 0 {
            lemma_split_join(st);
            lemma_split_concat(Seq::empty(), join_segments(st), '/');
            assert(Seq::<char>::empty() + seq!['/'] + join_segments(st) =~= out);
            assert(split_on(Seq::<char>::empty(), '/') == seq![Seq::<char>::empty()]);
        } else {
            assert(out =~= Seq::<char>::empty() + seq!['/'] + Seq::<char>::empty());
            lemma_split_concat(Seq::empty(), Seq::empty(), '/');
            assert(split_on(Seq::<char>::empty(), '/') == seq![Seq::<char>::empty()]);
        }
        assert forall|k: int| 0 <= k < split_on(out, '/').len() implies #[trigger] split_on(
            out,
            '/',
        )[k] != dotdot() by {
            if k > 0 {
                if st.len() > 0 {
                    assert(kept_segment(st[k - 1]));
                }
            } else {
                assert(dotdot().len() == 2);
            }
        }
    } else if st.len() == 0 {
        assert(!dot().contains('/')) by {
            assert(dot().len() == 1);
            if dot().contains('/') {
                let j = choose|j: int| 0 <= j < dot().len() && dot()[j] == '/';
            }
        }
        lemma_split_no_sep(dot(), '/');
        assert(dot() != dotdot()) by {
            assert(dot().len() != dotdot().len());
        }
    } else {
        lemma_split_join(st);
    }
}


/// Lemma: resolving proper segments after others appends them.
proof fn lemma_resolve_append_kept(x: Seq<Seq<char>>, st: Seq<Seq<char>>)
    requires
        forall|k: int| 0 <= k < st.len() ==> kept_segment(#[trigger] st[k]),
    ensures
        resolve_segments(x + st) == resolve_segments(x) + st,
    decreases st.len(),
{
    if st.len() == 0 {
        assert(x + st =~= x);
        assert(resolve_segments(x) + st =~= resolve_segments(x));
    } else {
        let t = st.drop_last();
        assert forall|k: int| 0 <= k < t.len() implies kept_segment(#[trigger] t[k]) by {
            assert(t[k] == st[k]);
        }
        lemma_resolve_append_kept(x, t);
        assert((x + st).drop_last() =~= x + t);
        assert((x + st).last() == st.last());
        assert(kept_segment(st[st.len() - 1]));
        let last = st.last();
        assert(last != dot() && last != dotdot() && last.len() > 0);
        assert((resolve_segments(x) + t).push(last) =~= resolve_segments(x) + st);
    }
}

/// Lemma: the joined text of proper segments starts with the first
/// segment's first character.
proof fn lemma_join_first(st: Seq<Seq<char>>)
    requires
        st.len() > 0,
        forall|k: int| 0 <= k < st.len() ==> kept_segment(#[trigger] st[k]),
    ensures
        join_segments(st).len() > 0,
        join_segments(st)[0] == st[0][0],
    decreases st.len(),
{
    assert(kept_segment(st[0]));
    if st.len() > 1 {
        let t = st.drop_last();
        assert forall|k: int| 0 <= k < t.len() implies kept_segment(#[trigger] t[k]) by {
            assert(t[k] == st[k]);
        }
        lemma_join_first(t);
        assert(t[0] == st[0]);
    }
}

/// Normalizing a path twice gives what normalizing it once gives (with no
/// home directory to expand); the result is never empty, a rooted path
/// stays rooted, and apart from the root `/` itself every component after
/// the first is a proper name (so no `//`, no `.` or `..`, no trailing
/// slash), the first being empty (rooted), `.` (nothing left) or a name.
pub proof fn law_normalized_path_idempotent(path: Seq<char>)
    ensures
        normalized_path(normalized_path(path, None), None) == normalized_path(path, None),
        normalized_path(path, None).len() > 0,
        path.len() > 0 && path[0] == '/' ==> normalized_path(path, None)[0] == '/',
        ({
            let parts = split_on(normalized_path(path, None), '/');
            &&& parts.len() > 0
            &&& parts[0].len() == 0 || parts[0] == dot() || kept_segment(parts[0])
            &&& normalized_path(path, None) != seq!['/'] ==> forall|k: int|
                0 < k < parts.len() ==> kept_segment(#[trigger] parts[k])
        }),
{
    let e = home_expanded(path, None);
    assert(e == path);
    let segs = split_on(e, '/');
    lemma_split_segments_lack_sep(e, '/');
    lemma_resolve_kept(segs);
    let st = resolve_segments(segs);
    let out = normalized_path(path, None);
    assert(home_expanded(out, None) == out);
    let empty = Seq::<Seq<char>>::empty();
    lemma_resolve_append_kept(empty, st);
    assert(empty + st =~= st);
    assert(resolve_segments(empty) == empty);
    assert(empty + st == st);
    if e.len() > 0 && e[0] == '/' {
        assert(out == seq!['/'] + join_segments(st));
        assert(out =~= Seq::<char>::empty() + seq!['/'] + join_segments(st));
        lemma_split_concat(Seq::empty(), join_segments(st), '/');
        assert(split_on(Seq::<char>::empty(), '/') == seq![Seq::<char>::empty()]);
        let first = seq![Seq::<char>::empty()];
        assert(resolve_segments(first) == empty) by {
            assert(first.drop_last() =~= empty);
        }
        if st.len() > 0 {
            lemma_split_join(st);
            lemma_resolve_append_kept(first, st);
            assert(resolve_segments(split_on(out, '/')) == st);
        } else {
            assert(join_segments(st) == Seq::<char>::empty());
            assert(split_on(Seq::<char>::empty(), '/') == seq![Seq::<char>::empty()]);
            let two = seq![Seq::<char>::empty()] + seq![Seq::<char>::empty()];
            assert(split_on(out, '/') == two);
            assert(two.drop_last() =~= first);
            assert(resolve_segments(two) == empty);
        }
        assert(out[0] == '/');
        assert(normalized_text(out) =~= seq!['/'] + join_segments(st));
    } else if st.len() == 0 {
        assert(out == dot());
        assert(!dot().contains('/')) by {
            if dot().contains('/') {
                let j = choose|j: int| 0 <= j < dot().len() && dot()[j] == '/';
            }
        }
        lemma_split_no_sep(dot(), '/');
        let one = seq![dot()];
        assert(one.drop_last() =~= empty);
        assert(resolve_segments(one) == empty);
        assert(out[0] == '.');
    } else {
        assert(out == join_segments(st));
        lemma_split_join(st);
        lemma_resolve_append_kept(empty, st);
        lemma_join_first(st);
        assert(kept_segment(st[0]));
        assert(st[0][0] != '/') by {
            assert(st[0].contains('/') == false);
            if st[0][0] == '/' {
                assert(st[0].contains('/'));
            }
        }
    }
}

}
