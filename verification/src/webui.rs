//! Web UI decisions: which requests need the access token, where the token
//! is taken from, how static files are cached and which embedded file a
//! request path names.
use vstd::prelude::*;

use crate::models::ProofEvent;
use crate::policy_loader::{is_yaml_file, is_yaml_path};
use crate::text::{
    chars_eq, chars_of, contains_char, ends_with_str, eq_str, is_prefix, is_suffix, owned, slice_chars,
    split_on, split_chars, starts_with_str, string_from_chars, trim_start_char,
};

verus! {

broadcast use vstd::string::group_string_axioms;

/// State of the Web UI authentication: the expected token.
#[derive(Clone)]
pub struct WebUiAuthState {
    pub token: String,
}

/// A path the browser loads after the authenticated page: the assets
/// directory or a script, style, image or font file.
pub open spec fn static_asset(path: Seq<char>) -> bool {
    is_prefix("/ui/assets/"@, path) || is_suffix(".js"@, path) || is_suffix(".css"@, path)
        || is_suffix(".ico"@, path) || is_suffix(".png"@, path) || is_suffix(".jpg"@, path)
        || is_suffix(".svg"@, path) || is_suffix(".woff"@, path) || is_suffix(".woff2"@, path)
}

/// Whether a path is a static asset served without authentication.
pub fn is_static_asset(path: &str) -> (r: bool)
    ensures
        r == static_asset(path@),
{
    let p = chars_of(path);
    let s = p.as_slice();
    starts_with_str(s, "/ui/assets/") || ends_with_str(s, ".js") || ends_with_str(s, ".css")
        || ends_with_str(s, ".ico") || ends_with_str(s, ".png") || ends_with_str(s, ".jpg")
        || ends_with_str(s, ".svg") || ends_with_str(s, ".woff") || ends_with_str(s, ".woff2")
}

/// The first `token=` value among the `&`-separated query pairs.
pub open spec fn query_token_from(pairs: Seq<Seq<char>>) -> Option<Seq<char>>
    decreases pairs.len(),
{
    if pairs.len() == 0 {
        None
    } else if is_prefix("token="@, pairs[0]) {
        Some(pairs[0].subrange(6, pairs[0].len() as int))
    } else {
        query_token_from(pairs.drop_first())
    }
}

/// The token a request carries: from an `Authorization: Bearer <token>`
/// header first, else from the first `token=` query pair.
pub open spec fn request_token(header: Option<Seq<char>>, query: Option<Seq<char>>) -> Option<
    Seq<char>,
> {
    match header {
        Some(h) if is_prefix("Bearer "@, h) => Some(h.subrange(7, h.len() as int)),
        _ => match query {
            Some(q) => query_token_from(split_on(q, '&')),
            None => None,
        },
    }
}

/// Text of an optional `&str`.
pub open spec fn opt_str_view(o: Option<&str>) -> Option<Seq<char>> {
    match o {
        Some(s) => Some(s@),
        None => None,
    }
}

/// The token of a request, given its `Authorization` header value (when
/// it is readable text) and its query string.
pub fn extract_token(auth_header: Option<&str>, query: Option<&str>) -> (r: Option<String>)
    ensures
        match request_token(opt_str_view(auth_header), opt_str_view(query)) {
            Some(t) => r matches Some(x) && x@ == t,
            None => r is None,
        },
{
    proof {
        reveal_strlit("Bearer ");
        reveal_strlit("token=");
    }
    match auth_header {
        Some(h) => {
            let hv = chars_of(h);
            if starts_with_str(hv.as_slice(), "Bearer ") {
                let t = slice_chars(hv.as_slice(), 7, hv.len());
                return Some(string_from_chars(t.as_slice()));
            }
        },
        None => {},
    }
    match query {
        Some(q) => {
            let qv = chars_of(q);
            let pairs = split_chars(qv.as_slice(), '&');
            let ghost all = split_on(q@, '&');
            let mut i: usize = 0;
            assert(all.subrange(0, all.len() as int) =~= all);
            assert(request_token(opt_str_view(auth_header), opt_str_view(query)) == query_token_from(all));
            while i < pairs.len()
                invariant
                    i <= pairs@.len(),
                    request_token(opt_str_view(auth_header), opt_str_view(query)) == query_token_from(all),
                    pairs@.len() == all.len(),
                    all == split_on(q@, '&'),
                    forall|k: int| 0 <= k < all.len() ==> #[trigger] pairs@[k]@ == all[k],
                    query_token_from(all) == query_token_from(all.subrange(i as int, all.len() as int)),
                decreases pairs@.len() - i,
            {
                let ghost tail = all.subrange(i as int, all.len() as int);
                assert(tail.drop_first() =~= all.subrange(i + 1, all.len() as int));
                assert(tail[0] == pairs@[i as int]@);
                let pair = pairs[i].as_slice();
                proof {
                    reveal_strlit("token=");
                }
                if starts_with_str(pair, "token=") {
                    let t = slice_chars(pair, 6, pair.len());
                    return Some(string_from_chars(t.as_slice()));
                }
                i = i + 1;
            }
            assert(all.subrange(all.len() as int, all.len() as int) =~= Seq::<Seq<char>>::empty());
            None
        },
        None => None,
    }
}

/// Outcome of the Web UI authentication check.
#[derive(Debug, Clone, Copy, PartialEq, Eq, Structural)]
pub enum WebUiAccess {
    /// Serve the request.
    Allow,
    /// A token was given but is wrong (401).
    InvalidToken,
    /// No token was given (401).
    MissingToken,
}

/// The access decision: static assets pass; otherwise the request's token
/// must equal the expected one.
pub open spec fn access_decision(
    path: Seq<char>,
    header: Option<Seq<char>>,
    query: Option<Seq<char>>,
    expected: Seq<char>,
) -> WebUiAccess {
    if static_asset(path) {
        WebUiAccess::Allow
    } else {
        match request_token(header, query) {
            Some(t) => if t == expected {
                WebUiAccess::Allow
            } else {
                WebUiAccess::InvalidToken
            },
            None => WebUiAccess::MissingToken,
        }
    }
}

/// The 401 message for a refused request.
pub open spec fn access_message(a: WebUiAccess) -> Seq<char> {
    match a {
        WebUiAccess::Allow => Seq::empty(),
        WebUiAccess::InvalidToken => "Invalid token. Check terminal for correct access URL."@,
        WebUiAccess::MissingToken => "Authorization required. Access the Web UI via the URL printed in terminal."@,
    }
}

impl WebUiAccess {
    /// The text answered with a refusal (empty for `Allow`).
    pub fn message(&self) -> (r: &'static str)
        ensures
            r@ == access_message(*self),
    {
        proof {
            reveal_strlit("");
        }
        match self {
            WebUiAccess::Allow => "",
            WebUiAccess::InvalidToken => "Invalid token. Check terminal for correct access URL.",
            WebUiAccess::MissingToken => "Authorization required. Access the Web UI via the URL printed in terminal.",
        }
    }
}

impl WebUiAuthState {
    /// Decides whether a request to `path` with the given `Authorization`
    /// header and query string is served.
    pub fn check(&self, path: &str, auth_header: Option<&str>, query: Option<&str>) -> (r: WebUiAccess)
        ensures
            r == access_decision(path@, opt_str_view(auth_header), opt_str_view(query), self.token@),
    {
        if is_static_asset(path) {
            return WebUiAccess::Allow;
        }
        match extract_token(auth_header, query) {
            Some(token) => {
                if token == self.token {
                    WebUiAccess::Allow
                } else {
                    WebUiAccess::InvalidToken
                }
            },
            None => WebUiAccess::MissingToken,
        }
    }
}

/// A refused request is one without the right token on a non-asset path:
/// a wrong token never passes.
pub proof fn law_wrong_token_never_passes(
    path: Seq<char>,
    header: Option<Seq<char>>,
    query: Option<Seq<char>>,
    expected: Seq<char>,
)
    requires
        !static_asset(path),
        request_token(header, query) != Some(expected),
    ensures
        access_decision(path, header, query, expected) != WebUiAccess::Allow,
{
}

/// Cache policy for a static file: HTML always revalidates; names with a
/// dot and a `-` or `_` look hashed and are immutable; others cache an
/// hour.
pub open spec fn cache_control(path: Seq<char>) -> Seq<char> {
    if is_suffix(".html"@, path) {
        "no-cache"@
    } else if path.contains('.') && (path.contains('-') || path.contains('_')) {
        "public, max-age=31536000, immutable"@
    } else {
        "public, max-age=3600"@
    }
}

/// The Cache-Control value for a static file.
pub fn cache_control_for(path: &str) -> (r: &'static str)
    ensures
        r@ == cache_control(path@),
{
    let p = chars_of(path);
    if ends_with_str(p.as_slice(), ".html") {
        "no-cache"
    } else if contains_char(p.as_slice(), '.') && (contains_char(p.as_slice(), '-')
        || contains_char(p.as_slice(), '_')) {
        "public, max-age=31536000, immutable"
    } else {
        "public, max-age=3600"
    }
}

/// `s` without leading repetitions of the literal `lit` (non-empty).
pub open spec fn trim_start_lit(s: Seq<char>, lit: Seq<char>) -> Seq<char>
    decreases s.len(),
{
    if lit.len() > 0 && is_prefix(lit, s) {
        trim_start_lit(s.subrange(lit.len() as int, s.len() as int), lit)
    } else {
        s
    }
}

/// The embedded file a request path names: leading `/ui/` repetitions,
/// then `/ui` repetitions, then slashes are dropped; an empty name is
/// `index.html`.
pub open spec fn static_file_name(raw: Seq<char>) -> Seq<char> {
    let p = trim_start_char(trim_start_lit(trim_start_lit(raw, "/ui/"@), "/ui"@), '/');
    if p.len() == 0 {
        "index.html"@
    } else {
        p
    }
}

/// Drops leading repetitions of `lit`.
fn trim_start_lit_exec(s: &[char], lit: &str) -> (r: Vec<char>)
    requires
        lit@.len() > 0,
    ensures
        r@ == trim_start_lit(s@, lit@),
{
    let l = chars_of(lit);
    let mut i: usize = 0;
    assert(s@.subrange(0, s@.len() as int) =~= s@);
    while i < s.len() && crate::text::matches_at(s, l.as_slice(), i)
        invariant
            i <= s.len(),
            l@ == lit@,
            l@.len() > 0,
            trim_start_lit(s@, lit@) == trim_start_lit(s@.subrange(i as int, s@.len() as int), lit@),
        decreases s.len() - i,
    {
        let ghost rest = s@.subrange(i as int, s@.len() as int);
        assert(rest.subrange(0, l@.len() as int) =~= s@.subrange(i as int, i + l@.len()));
        assert(rest.subrange(l@.len() as int, rest.len() as int) =~= s@.subrange(
            i + l@.len(),
            s@.len() as int,
        ));
        i = i + l.len();
    }
    let ghost rest = s@.subrange(i as int, s@.len() as int);
    if i < s.len() {
        assert(!is_prefix(l@, rest)) by {
            if is_prefix(l@, rest) {
                assert(rest.subrange(0, l@.len() as int) =~= s@.subrange(i as int, i + l@.len()));
            }
        }
    }
    slice_chars(s, i, s.len())
}

/// The embedded file name for a request path.
pub fn static_path(raw_path: &str) -> (r: String)
    ensures
        r@ == static_file_name(raw_path@),
{
    proof {
        reveal_strlit("/ui/");
        reveal_strlit("/ui");
    }
    let raw = chars_of(raw_path);
    let a = trim_start_lit_exec(raw.as_slice(), "/ui/");
    let b = trim_start_lit_exec(a.as_slice(), "/ui");
    let mut i: usize = 0;
    assert(b@.subrange(0, b@.len() as int) =~= b@);
    while i < b.len() && b[i] == '/'
        invariant
            i <= b@.len(),
            trim_start_char(b@, '/') == trim_start_char(b@.subrange(i as int, b@.len() as int), '/'),
        decreases b@.len() - i,
    {
        assert(b@.subrange(i as int, b@.len() as int).drop_first() =~= b@.subrange(
            i + 1,
            b@.len() as int,
        ));
        i = i + 1;
    }
    let c = slice_chars(b.as_slice(), i, b.len());
    if c.len() == 0 {
        crate::text::owned("index.html")
    } else {
        string_from_chars(c.as_slice())
    }
}

/// The Content-Type of the raw policy file: YAML for `.yaml`/`.yml`
/// files, plain text otherwise.
pub fn policy_content_type(path: &str) -> (r: &'static str)
    ensures
        r@ == (if is_yaml_path(path@) {
            "text/yaml; charset=utf-8"@
        } else {
            "text/plain; charset=utf-8"@
        }),
{
    if is_yaml_file(path) {
        "text/yaml; charset=utf-8"
    } else {
        "text/plain; charset=utf-8"
    }
}

// ---------------------------------------------------------------------------
// Live feed
// ---------------------------------------------------------------------------

/// A decision as the Web UI's live feed shows it.
#[derive(Debug, Clone)]
pub struct WebUiAuthEvent {
    pub principal_id: String,
    pub action: String,
    pub resource: String,
    /// `ALLOW` or `DENY`.
    pub result: String,
    /// Latency in microseconds (0 when the event has none).
    pub latency_us: u64,
    /// Unix time of the decision, in seconds.
    pub timestamp: i64,
}

/// `w` is the feed entry of the proof event `e`.
pub open spec fn shows(w: WebUiAuthEvent, e: ProofEvent) -> bool {
    &&& w.principal_id@ == e.principal_id@
    &&& w.action@ == e.action@
    &&& w.resource@ == e.resource@
    &&& w.result@ == (if e.allowed { "ALLOW"@ } else { "DENY"@ })
    &&& w.latency_us == (match e.latency_us {
        Some(l) => l,
        None => 0u64,
    })
    &&& w.timestamp == e.emitted_at_epoch_s
}

impl WebUiAuthEvent {
    /// The feed entry of a proof event.
    pub fn from_proof_event(e: &ProofEvent) -> (w: Self)
        ensures
            shows(w, *e),
    {
        WebUiAuthEvent {
            principal_id: e.principal_id.clone(),
            action: e.action.clone(),
            resource: e.resource.clone(),
            result: if e.allowed {
                owned("ALLOW")
            } else {
                owned("DENY")
            },
            latency_us: match e.latency_us {
                Some(l) => l,
                None => 0,
            },
            timestamp: e.emitted_at_epoch_s,
        }
    }
}

/// How many events were added since the last poll.
pub open spec fn unseen(current_count: usize, last_seen: usize) -> int {
    if current_count > last_seen {
        current_count - last_seen
    } else {
        0
    }
}

/// The feed entries of the events added since the last poll, oldest
/// first. `recent` holds the newest events, newest first; at most that
/// many entries are given.
pub fn feed_events(recent: &Vec<ProofEvent>, current_count: usize, last_seen: usize) -> (r: Vec<
    WebUiAuthEvent,
>)
    ensures
        r@.len() == (if unseen(current_count, last_seen) < recent@.len() {
            unseen(current_count, last_seen)
        } else {
            recent@.len() as int
        }),
        forall|k: int| 0 <= k < r@.len() ==> shows(#[trigger] r@[k], recent@[r@.len() - 1 - k]),
{
    let new_count: usize = if current_count > last_seen {
        current_count - last_seen
    } else {
        0
    };
    let n: usize = if new_count < recent.len() {
        new_count
    } else {
        recent.len()
    };
    let mut out: Vec<WebUiAuthEvent> = Vec::new();
    let mut k: usize = 0;
    while k < n
        invariant
            k <= n,
            n <= recent@.len(),
            out@.len() == k,
            forall|j: int| 0 <= j < k ==> shows(#[trigger] out@[j], recent@[n - 1 - j]),
        decreases n - k,
    {
        out.push(WebUiAuthEvent::from_proof_event(&recent[n - 1 - k]));
        k = k + 1;
    }
    out
}

} // verus!
