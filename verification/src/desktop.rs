//! Logic of the desktop companion: sidecar launch arguments, the sidecar's
//! base URL, and rule drafts edited as comma-separated text.
use vstd::prelude::*;

use crate::models::{PolicyEffect, PolicyRule};
use crate::text::{
    append_chars, append_str, chars_of, contains_char, decimal, decimal_chars, owned, starts_with_str,
    string_from_chars, string_views, trim_chars, trim_str, trimmed, lead_ws, trail_ws, whitespace,
};

verus! {

broadcast use vstd::string::group_string_axioms;

/// Settings for launching the sidecar.
#[derive(Debug, Clone)]
pub struct LaunchConfig<'a> {
    pub config_path: &'a str,
    pub policy_path: &'a str,
    pub host: &'a str,
    pub port: &'a str,
    pub web_ui: bool,
    pub audit_mode: bool,
    pub reload_secret: &'a str,
}

/// `flag` followed by `value` when the (trimmed) value is non-empty.
pub open spec fn opt_pair(flag: Seq<char>, value: Seq<char>) -> Seq<Seq<char>> {
    if value.len() > 0 {
        seq![flag, value]
    } else {
        Seq::empty()
    }
}

/// `flag` alone when `on`.
pub open spec fn opt_flag(flag: Seq<char>, on: bool) -> Seq<Seq<char>> {
    if on {
        seq![flag]
    } else {
        Seq::empty()
    }
}

/// The arguments for a launch: config and policy file (when given), host
/// and port, the web UI and audit flags, the reload secret (when given).
pub open spec fn sidecar_args(cfg: LaunchConfig) -> Seq<Seq<char>> {
    opt_pair("--config"@, trimmed(cfg.config_path@)) + opt_pair(
        "--policy-file"@,
        trimmed(cfg.policy_path@),
    ) + seq!["--host"@, trimmed(cfg.host@), "--port"@, trimmed(cfg.port@)] + opt_flag(
        "--web-ui"@,
        cfg.web_ui,
    ) + opt_flag("--audit-mode"@, cfg.audit_mode) + opt_pair(
        "--policy-reload-secret"@,
        trimmed(cfg.reload_secret@),
    )
}

/// Appends the owned form of `s`.
fn push_text(args: &mut Vec<String>, s: &[char])
    ensures
        string_views(final(args)@) == string_views(old(args)@).push(s@),
{
    args.push(string_from_chars(s));
    assert(string_views(args@) =~= string_views(old(args)@).push(s@));
}

/// Appends the literal `s`.
fn push_lit(args: &mut Vec<String>, s: &str)
    ensures
        string_views(final(args)@) == string_views(old(args)@).push(s@),
{
    args.push(owned(s));
    assert(string_views(args@) =~= string_views(old(args)@).push(s@));
}

/// Command-line arguments for the sidecar (global options before the
/// subcommand). Fails when the trimmed host or port is empty.
pub fn build_sidecar_args(cfg: LaunchConfig<'_>) -> (r: Result<Vec<String>, String>)
    ensures
        trimmed(cfg.host@).len() == 0 ==> (r matches Err(e) && e@ == "host is empty"@),
        trimmed(cfg.host@).len() > 0 && trimmed(cfg.port@).len() == 0 ==> (r matches Err(e) && e@
            == "port is empty"@),
        trimmed(cfg.host@).len() > 0 && trimmed(cfg.port@).len() > 0 ==> (r matches Ok(v)
            && string_views(v@) == sidecar_args(cfg)),
{
    let mut args: Vec<String> = Vec::new();
    let config = trim_str(cfg.config_path);
    let ghost a0 = string_views(args@);
    assert(a0 =~= Seq::<Seq<char>>::empty());
    if config.len() > 0 {
        push_lit(&mut args, "--config");
        push_text(&mut args, config.as_slice());
    }
    let policy = trim_str(cfg.policy_path);
    if policy.len() > 0 {
        push_lit(&mut args, "--policy-file");
        push_text(&mut args, policy.as_slice());
    }
    let host = trim_str(cfg.host);
    if host.len() == 0 {
        return Err(owned("host is empty"));
    }
    let port = trim_str(cfg.port);
    if port.len() == 0 {
        return Err(owned("port is empty"));
    }
    push_lit(&mut args, "--host");
    push_text(&mut args, host.as_slice());
    push_lit(&mut args, "--port");
    push_text(&mut args, port.as_slice());
    if cfg.web_ui {
        push_lit(&mut args, "--web-ui");
    }
    if cfg.audit_mode {
        push_lit(&mut args, "--audit-mode");
    }
    let secret = trim_str(cfg.reload_secret);
    if secret.len() > 0 {
        push_lit(&mut args, "--policy-reload-secret");
        push_text(&mut args, secret.as_slice());
    }
    assert(string_views(args@) =~= sidecar_args(cfg));
    Ok(args)
}

/// The sidecar's base URL: `http://` + trimmed host + `:` + trimmed port.
pub fn base_url(host: &str, port: &str) -> (r: String)
    ensures
        r@ == "http://"@ + trimmed(host@) + ":"@ + trimmed(port@),
{
    let mut m: Vec<char> = Vec::new();
    append_str(&mut m, "http://");
    let h = trim_str(host);
    append_chars(&mut m, h.as_slice());
    append_str(&mut m, ":");
    let p = trim_str(port);
    append_chars(&mut m, p.as_slice());
    string_from_chars(m.as_slice())
}

// ---------------------------------------------------------------------------
// Sidecar probes
// ---------------------------------------------------------------------------

/// Reply of `GET /health`.
#[derive(Debug, Clone)]
pub struct HealthResponse {
    pub status: String,
    pub mode: String,
    pub uptime_s: u64,
}

/// Reply of `GET /status`.
#[derive(Debug, Clone)]
pub struct StatusResponse {
    pub status: String,
    pub mode: String,
    pub identity_mode: String,
    pub uptime_s: u64,
    pub rule_count: usize,
    pub total_allowed: u64,
    pub total_denied: u64,
    pub event_count: usize,
}

/// Reply of `POST /policy/reload`.
#[derive(Debug, Clone)]
pub struct PolicyReloadResponse {
    pub success: bool,
    pub rule_count: usize,
    pub message: String,
}

/// The URL of a sidecar endpoint: the base URL followed by `path`.
pub fn endpoint_url(host: &str, port: &str, path: &str) -> (r: String)
    ensures
        r@ == "http://"@ + trimmed(host@) + ":"@ + trimmed(port@) + path@,
{
    let base = base_url(host, port);
    let mut m = chars_of(base.as_str());
    append_str(&mut m, path);
    string_from_chars(m.as_slice())
}

/// A 2xx HTTP status.
pub open spec fn is_success_status(code: u16) -> bool {
    200 <= code < 300
}

/// The failure of a probe such as `GET /health` answered with a status:
/// none for a 2xx status, else `"{request} -> {status_line}"`.
pub fn probe_failure(request: &str, status_code: u16, status_line: &str) -> (r: Option<String>)
    ensures
        is_success_status(status_code) ==> r is None,
        !is_success_status(status_code) ==> (r matches Some(m) && m@ == request@ + " -> "@ + status_line@),
{
    if 200 <= status_code && status_code < 300 {
        return None;
    }
    let mut m = chars_of(request);
    append_str(&mut m, " -> ");
    append_str(&mut m, status_line);
    Some(string_from_chars(m.as_slice()))
}

/// The failure of a policy reload answered with a status and a body: a
/// 401 asks for the bearer secret; another non-2xx status names the
/// status and the body.
pub fn reload_failure(status_code: u16, status_line: &str, text: &str) -> (r: Option<String>)
    ensures
        status_code == 401 ==> (r matches Some(m) && m@
            == "401 Unauthorized: policy reload requires a matching bearer secret ("@ + text@ + ")"@),
        status_code != 401 && !is_success_status(status_code) ==> (r matches Some(m) && m@
            == "POST /policy/reload -> "@ + status_line@ + ": "@ + text@),
        is_success_status(status_code) ==> r is None,
{
    if status_code == 401 {
        let mut m: Vec<char> = Vec::new();
        append_str(&mut m, "401 Unauthorized: policy reload requires a matching bearer secret (");
        append_str(&mut m, text);
        append_str(&mut m, ")");
        return Some(string_from_chars(m.as_slice()));
    }
    if 200 <= status_code && status_code < 300 {
        return None;
    }
    let mut m: Vec<char> = Vec::new();
    append_str(&mut m, "POST /policy/reload -> ");
    append_str(&mut m, status_line);
    append_str(&mut m, ": ");
    append_str(&mut m, text);
    Some(string_from_chars(m.as_slice()))
}

/// The `Authorization` header of a policy reload: `Bearer ` and the
/// trimmed secret, when the secret is not blank.
pub fn reload_authorization(secret: Option<&str>) -> (r: Option<String>)
    ensures
        match secret {
            Some(s) => if trimmed(s@).len() > 0 {
                r matches Some(h) && h@ == "Bearer "@ + trimmed(s@)
            } else {
                r is None
            },
            None => r is None,
        },
{
    match secret {
        Some(s) => {
            let t = trim_str(s);
            if t.len() == 0 {
                None
            } else {
                let mut m: Vec<char> = Vec::new();
                append_str(&mut m, "Bearer ");
                append_chars(&mut m, t.as_slice());
                Some(string_from_chars(m.as_slice()))
            }
        },
        None => None,
    }
}

/// An argument as the command preview shows it: quoted when it holds a
/// space.
pub open spec fn shown_arg(a: Seq<char>) -> Seq<char> {
    if a.contains(' ') {
        "\""@ + a + "\""@
    } else {
        a
    }
}

/// The arguments, each preceded by a space.
pub open spec fn shown_args(args: Seq<Seq<char>>) -> Seq<char>
    decreases args.len(),
{
    if args.len() == 0 {
        Seq::empty()
    } else {
        shown_args(args.drop_last()) + " "@ + shown_arg(args.last())
    }
}

/// The launch command as the companion previews it: the trimmed binary
/// path, the arguments, and `run`.
pub fn launch_command_preview(binary: &str, args: &Vec<String>) -> (r: String)
    ensures
        r@ == trimmed(binary@) + shown_args(string_views(args@)) + " run"@,
{
    let mut out = trim_str(binary);
    let ghost base = out@;
    let ghost views = string_views(args@);
    let mut i: usize = 0;
    while i < args.len()
        invariant
            i <= args@.len(),
            views == string_views(args@),
            out@ == base + shown_args(views.take(i as int)),
        decreases args@.len() - i,
    {
        assert(views.take(i + 1).drop_last() =~= views.take(i as int));
        let a = chars_of(args[i].as_str());
        append_str(&mut out, " ");
        if contains_char(a.as_slice(), ' ') {
            append_str(&mut out, "\"");
            append_chars(&mut out, a.as_slice());
            append_str(&mut out, "\"");
        } else {
            append_chars(&mut out, a.as_slice());
        }
        assert(out@ =~= base + shown_args(views.take(i + 1)));
        i = i + 1;
    }
    assert(views.take(args@.len() as int) =~= views);
    append_str(&mut out, " run");
    string_from_chars(out.as_slice())
}

/// The probe line of a health reply.
pub open spec fn health_text(h: HealthResponse) -> Seq<char> {
    "GET /health \u{2192} "@ + h.status@ + "  mode="@ + h.mode@ + "  uptime="@ + decimal(h.uptime_s as nat) + "s"@
}

/// The probe line of a status reply.
pub open spec fn status_text(s: StatusResponse) -> Seq<char> {
    "GET /status \u{2192} rules="@ + decimal(s.rule_count as nat) + " allowed="@ + decimal(s.total_allowed as nat)
        + " denied="@ + decimal(s.total_denied as nat) + " events="@ + decimal(s.event_count as nat)
}

/// The line shown for a health reply.
pub fn health_line(h: &HealthResponse) -> (r: String)
    ensures
        r@ == health_text(*h),
{
    let mut m: Vec<char> = Vec::new();
    append_str(&mut m, "GET /health \u{2192} ");
    append_str(&mut m, h.status.as_str());
    append_str(&mut m, "  mode=");
    append_str(&mut m, h.mode.as_str());
    append_str(&mut m, "  uptime=");
    append_chars(&mut m, decimal_chars(h.uptime_s).as_slice());
    append_str(&mut m, "s");
    string_from_chars(m.as_slice())
}

/// The line shown when the health probe failed.
pub fn health_error_line(error: &str) -> (r: String)
    ensures
        r@ == "GET /health \u{2192} error: "@ + error@,
{
    let mut m: Vec<char> = Vec::new();
    append_str(&mut m, "GET /health \u{2192} error: ");
    append_str(&mut m, error);
    string_from_chars(m.as_slice())
}

/// The line shown for a status reply.
pub fn status_line(s: &StatusResponse) -> (r: String)
    ensures
        r@ == status_text(*s),
{
    let mut m: Vec<char> = Vec::new();
    append_str(&mut m, "GET /status \u{2192} rules=");
    append_chars(&mut m, decimal_chars(s.rule_count as u64).as_slice());
    append_str(&mut m, " allowed=");
    append_chars(&mut m, decimal_chars(s.total_allowed).as_slice());
    append_str(&mut m, " denied=");
    append_chars(&mut m, decimal_chars(s.total_denied).as_slice());
    append_str(&mut m, " events=");
    append_chars(&mut m, decimal_chars(s.event_count as u64).as_slice());
    string_from_chars(m.as_slice())
}

/// How many probe lines the history keeps.
pub const STATUS_HISTORY_MAX: usize = 50;

/// The history after adding a line: the newest lines, at most
/// `STATUS_HISTORY_MAX` of them.
pub open spec fn history_after(h: Seq<Seq<char>>, line: Seq<char>) -> Seq<Seq<char>> {
    let pushed = h.push(line);
    if pushed.len() > STATUS_HISTORY_MAX {
        pushed.subrange(pushed.len() - STATUS_HISTORY_MAX, pushed.len() as int)
    } else {
        pushed
    }
}

/// The probe lines on display: the latest health and status lines and the
/// history of changes, each stamped with the second it was seen.
#[derive(Debug, Clone)]
pub struct ProbeDisplay {
    pub health_line: String,
    pub status_line: String,
    pub history: Vec<String>,
}

/// A line answers the health probe.
pub open spec fn is_health_text(msg: Seq<char>) -> bool {
    crate::text::is_prefix("GET /health"@, msg)
}

/// The history entry of a changed line.
pub open spec fn history_entry(ts: u64, tag: Seq<char>, msg: Seq<char>) -> Seq<char> {
    decimal(ts as nat) + " "@ + tag + " "@ + msg
}

impl ProbeDisplay {
    /// Nothing received yet: both lines show a dash.
    pub fn new() -> (r: Self)
        ensures
            r.health_line@ == "\u{2014}"@,
            r.status_line@ == "\u{2014}"@,
            r.history@.len() == 0,
    {
        ProbeDisplay { health_line: owned("\u{2014}"), status_line: owned("\u{2014}"), history: Vec::new() }
    }

    /// Adds a line to the history, dropping the oldest beyond the limit.
    fn push_history(&mut self, entry: String)
        requires
            old(self).history@.len() <= STATUS_HISTORY_MAX,
        ensures
            string_views(final(self).history@) == history_after(string_views(old(self).history@), entry@),
            final(self).history@.len() <= STATUS_HISTORY_MAX,
            final(self).health_line == old(self).health_line,
            final(self).status_line == old(self).status_line,
    {
        let ghost before = string_views(self.history@);
        self.history.push(entry);
        assert(string_views(self.history@) =~= before.push(entry@));
        if self.history.len() > STATUS_HISTORY_MAX {
            let ghost pushed = string_views(self.history@);
            self.history.remove(0);
            assert(string_views(self.history@) =~= pushed.subrange(1, pushed.len() as int));
        }
    }

    /// Takes a probe line received at `ts`: a health line replaces the
    /// health line, any other the status line; a line that differs from
    /// the one it replaces is added to the history, tagged.
    pub fn receive(&mut self, msg: String, ts: u64)
        requires
            old(self).history@.len() <= STATUS_HISTORY_MAX,
        ensures
            final(self).history@.len() <= STATUS_HISTORY_MAX,
            is_health_text(msg@) ==> {
                &&& final(self).health_line@ == msg@
                &&& final(self).status_line == old(self).status_line
                &&& string_views(final(self).history@) == (if old(self).health_line@ != msg@ {
                    history_after(string_views(old(self).history@), history_entry(ts, "[health]"@, msg@))
                } else {
                    string_views(old(self).history@)
                })
            },
            !is_health_text(msg@) ==> {
                &&& final(self).status_line@ == msg@
                &&& final(self).health_line == old(self).health_line
                &&& string_views(final(self).history@) == (if old(self).status_line@ != msg@ {
                    history_after(string_views(old(self).history@), history_entry(ts, "[status]"@, msg@))
                } else {
                    string_views(old(self).history@)
                })
            },
    {
        let m = chars_of(msg.as_str());
        let health = starts_with_str(m.as_slice(), "GET /health");
        let tag = if health { "[health]" } else { "[status]" };
        let current = if health { self.health_line.as_str() } else { self.status_line.as_str() };
        if !crate::text::str_eq(current, msg.as_str()) {
            let mut e: Vec<char> = decimal_chars(ts);
            append_str(&mut e, " ");
            append_str(&mut e, tag);
            append_str(&mut e, " ");
            append_chars(&mut e, m.as_slice());
            self.push_history(string_from_chars(e.as_slice()));
        }
        if health {
            self.health_line = msg;
        } else {
            self.status_line = msg;
        }
    }
}

// ---------------------------------------------------------------------------
// Rule drafts
// ---------------------------------------------------------------------------

/// A rule as edited in the desktop form: lists are comma- or
/// newline-separated text.
#[derive(Debug, Clone)]
pub struct RuleDraft {
    pub name: String,
    pub allow: bool,
    pub principals: String,
    pub actions: String,
    pub resources: String,
}

/// `c` separates list items: a comma or a line feed.
pub open spec fn list_sep(c: char) -> bool {
    c == ',' || c == '\n'
}

/// The pieces of `s` between separators, empty ones included.
pub open spec fn split_list_raw(s: Seq<char>) -> Seq<Seq<char>>
    decreases s.len(),
{
    if s.len() == 0 {
        seq![Seq::<char>::empty()]
    } else {
        let rest = split_list_raw(s.drop_last());
        if list_sep(s.last()) {
            rest.push(Seq::<char>::empty())
        } else {
            rest.update(rest.len() - 1, rest.last().push(s.last()))
        }
    }
}

/// The trimmed, non-empty pieces, in order.
pub open spec fn kept_items(pieces: Seq<Seq<char>>) -> Seq<Seq<char>>
    decreases pieces.len(),
{
    if pieces.len() == 0 {
        Seq::empty()
    } else {
        let p = kept_items(pieces.drop_last());
        let t = trimmed(pieces.last());
        if t.len() > 0 {
            p.push(t)
        } else {
            p
        }
    }
}

/// The list items of a draft field.
pub open spec fn list_items(s: Seq<char>) -> Seq<Seq<char>> {
    kept_items(split_list_raw(s))
}

/// Items joined with ", ".
pub open spec fn join_comma(items: Seq<Seq<char>>) -> Seq<char>
    decreases items.len(),
{
    if items.len() == 0 {
        Seq::empty()
    } else if items.len() == 1 {
        items[0]
    } else {
        join_comma(items.drop_last()) + ", "@ + items.last()
    }
}

/// Joins strings with ", ".
pub fn join_with_comma(items: &Vec<String>) -> (r: String)
    ensures
        r@ == join_comma(string_views(items@)),
{
    let ghost v = string_views(items@);
    let mut out: Vec<char> = Vec::new();
    let mut i: usize = 0;
    assert(v.subrange(0, 0) =~= Seq::<Seq<char>>::empty());
    while i < items.len()
        invariant
            i <= items@.len(),
            v == string_views(items@),
            out@ == join_comma(v.subrange(0, i as int)),
        decreases items@.len() - i,
    {
        assert(v.subrange(0, i + 1).drop_last() =~= v.subrange(0, i as int));
        if i > 0 {
            append_str(&mut out, ", ");
        } else {
            assert(v.subrange(0, 1)[0] == v[0]);
        }
        let c = chars_of(items[i].as_str());
        append_chars(&mut out, c.as_slice());
        i = i + 1;
    }
    assert(v.subrange(0, v.len() as int) =~= v);
    string_from_chars(out.as_slice())
}

/// Lemma: one step of `split_list_raw` over a growing prefix.
proof fn lemma_split_list_step(s: Seq<char>, i: int)
    requires
        0 <= i < s.len(),
    ensures
        split_list_raw(s.subrange(0, i + 1)) == (if list_sep(s[i]) {
            split_list_raw(s.subrange(0, i)).push(Seq::<char>::empty())
        } else {
            let rest = split_list_raw(s.subrange(0, i));
            rest.update(rest.len() - 1, rest.last().push(s[i]))
        }),
{
    let t = s.subrange(0, i + 1);
    assert(t.drop_last() =~= s.subrange(0, i));
}

/// Lemma: `split_list_raw` yields at least one piece.
proof fn lemma_split_list_nonempty(s: Seq<char>)
    ensures
        split_list_raw(s).len() >= 1,
    decreases s.len(),
{
    if s.len() > 0 {
        lemma_split_list_nonempty(s.drop_last());
    }
}

/// The list items of `s`: pieces between commas and line feeds, trimmed,
/// empty ones dropped.
pub fn split_list(s: &str) -> (r: Vec<String>)
    ensures
        string_views(r@) == list_items(s@),
{
    let c = chars_of(s);
    let mut pieces: Vec<Vec<char>> = Vec::new();
    let mut cur: Vec<char> = Vec::new();
    let mut i: usize = 0;
    assert(c@.subrange(0, 0) =~= Seq::<char>::empty());
    while i < c.len()
        invariant
            i <= c@.len(),
            split_list_raw(c@.subrange(0, i as int)).len() == pieces@.len() + 1,
            forall|k: int|
                0 <= k < pieces@.len() ==> #[trigger] pieces@[k]@ == split_list_raw(
                    c@.subrange(0, i as int),
                )[k],
            cur@ == split_list_raw(c@.subrange(0, i as int)).last(),
        decreases c@.len() - i,
    {
        proof {
            lemma_split_list_step(c@, i as int);
            lemma_split_list_nonempty(c@.subrange(0, i as int));
        }
        if c[i] == ',' || c[i] == '\n' {
            let finished = cur;
            pieces.push(finished);
            cur = Vec::new();
        } else {
            cur.push(c[i]);
        }
        i = i + 1;
    }
    pieces.push(cur);
    assert(c@.subrange(0, c@.len() as int) =~= c@);
    let ghost raw = split_list_raw(s@);
    let mut out: Vec<String> = Vec::new();
    let mut k: usize = 0;
    assert(raw.subrange(0, 0) =~= Seq::<Seq<char>>::empty());
    while k < pieces.len()
        invariant
            k <= pieces@.len(),
            raw == split_list_raw(s@),
            pieces@.len() == raw.len(),
            forall|j: int| 0 <= j < pieces@.len() ==> #[trigger] pieces@[j]@ == raw[j],
            string_views(out@) == kept_items(raw.subrange(0, k as int)),
        decreases pieces@.len() - k,
    {
        assert(raw.subrange(0, k + 1).drop_last() =~= raw.subrange(0, k as int));
        assert(pieces@[k as int]@ == raw[k as int]);
        let t = trim_chars(pieces[k].as_slice());
        if t.len() > 0 {
            let ghost before = string_views(out@);
            out.push(string_from_chars(t.as_slice()));
            assert(string_views(out@) =~= before.push(t@));
        }
        k = k + 1;
    }
    assert(raw.subrange(0, raw.len() as int) =~= raw);
    out
}

/// A rule with the given name, effect and lists and nothing else set.
pub open spec fn plain_rule(
    r: PolicyRule,
    name: Seq<char>,
    effect: PolicyEffect,
    principals: Seq<Seq<char>>,
    actions: Seq<Seq<char>>,
    resources: Seq<Seq<char>>,
) -> bool {
    &&& r.name@ == name
    &&& r.effect == effect
    &&& string_views(r.principals@) == principals
    &&& string_views(r.actions@) == actions
    &&& string_views(r.resources@) == resources
    &&& r.required_labels@.len() == 0
    &&& r.max_delegation_depth is None
    &&& r.inject_headers is None
    &&& r.inject_headers_from_file is None
    &&& r.inject_env is None
    &&& r.inject_env_from_file is None
}

/// What a draft converts to: an error when the trimmed name is empty or a
/// list has no item, else a plain rule.
pub open spec fn draft_ok(d: RuleDraft) -> bool {
    &&& trimmed(d.name@).len() > 0
    &&& list_items(d.principals@).len() > 0
    &&& list_items(d.actions@).len() > 0
    &&& list_items(d.resources@).len() > 0
}

impl RuleDraft {
    /// An allow rule for any agent on browser actions over HTTPS, unnamed.
    pub fn default_draft() -> (r: Self)
        ensures
            r.name@.len() == 0,
            r.allow,
            r.principals@ == "agent:*"@,
            r.actions@ == "browser.*"@,
            r.resources@ == "https://*"@,
    {
        RuleDraft {
            name: String::new(),
            allow: true,
            principals: owned("agent:*"),
            actions: owned("browser.*"),
            resources: owned("https://*"),
        }
    }

    /// The draft of an existing rule: lists joined with ", ".
    pub fn from_rule(r: &PolicyRule) -> (d: Self)
        ensures
            d.name@ == r.name@,
            d.allow == (r.effect == PolicyEffect::Allow),
            d.principals@ == join_comma(string_views(r.principals@)),
            d.actions@ == join_comma(string_views(r.actions@)),
            d.resources@ == join_comma(string_views(r.resources@)),
    {
        RuleDraft {
            name: r.name.clone(),
            allow: r.effect == PolicyEffect::Allow,
            principals: join_with_comma(&r.principals),
            actions: join_with_comma(&r.actions),
            resources: join_with_comma(&r.resources),
        }
    }

    /// Converts the draft into a rule.
    pub fn to_rule(&self) -> (r: Result<PolicyRule, String>)
        ensures
            trimmed(self.name@).len() == 0 ==> (r matches Err(e) && e@ == "rule name is empty"@),
            trimmed(self.name@).len() > 0 && !draft_ok(*self) ==> (r matches Err(e) && e@
                == "rule \""@ + trimmed(self.name@)
                + "\": principals, actions, and resources must each have at least one entry"@),
            draft_ok(*self) ==> (r matches Ok(rule) && plain_rule(
                rule,
                trimmed(self.name@),
                if self.allow {
                    PolicyEffect::Allow
                } else {
                    PolicyEffect::Deny
                },
                list_items(self.principals@),
                list_items(self.actions@),
                list_items(self.resources@),
            )),
    {
        let name = trim_str(self.name.as_str());
        if name.len() == 0 {
            return Err(owned("rule name is empty"));
        }
        let principals = split_list(self.principals.as_str());
        let actions = split_list(self.actions.as_str());
        let resources = split_list(self.resources.as_str());
        if principals.len() == 0 || actions.len() == 0 || resources.len() == 0 {
            let mut m: Vec<char> = Vec::new();
            append_str(&mut m, "rule \"");
            append_chars(&mut m, name.as_slice());
            append_str(
                &mut m,
                "\": principals, actions, and resources must each have at least one entry",
            );
            return Err(string_from_chars(m.as_slice()));
        }
        Ok(
            PolicyRule {
                name: string_from_chars(name.as_slice()),
                effect: if self.allow {
                    PolicyEffect::Allow
                } else {
                    PolicyEffect::Deny
                },
                principals,
                actions,
                resources,
                required_labels: Vec::new(),
                max_delegation_depth: None,
                inject_headers: None,
                inject_headers_from_file: None,
                inject_env: None,
                inject_env_from_file: None,
            },
        )
    }
}

/// The error a draft that is not ready gives.
pub open spec fn draft_error(d: RuleDraft) -> Seq<char> {
    if trimmed(d.name@).len() == 0 {
        "rule name is empty"@
    } else {
        "rule \""@ + trimmed(d.name@) + "\": principals, actions, and resources must each have at least one entry"@
    }
}

/// `rule` is the rule a ready draft converts to.
pub open spec fn draft_rule(rule: PolicyRule, d: RuleDraft) -> bool {
    plain_rule(
        rule,
        trimmed(d.name@),
        if d.allow {
            PolicyEffect::Allow
        } else {
            PolicyEffect::Deny
        },
        list_items(d.principals@),
        list_items(d.actions@),
        list_items(d.resources@),
    )
}

/// Converts every draft; the first failing draft's error is returned.
pub fn drafts_to_rules(drafts: &Vec<RuleDraft>) -> (r: Result<Vec<PolicyRule>, String>)
    ensures
        (forall|k: int| 0 <= k < drafts@.len() ==> #[trigger] draft_ok(drafts@[k])) ==> (r matches Ok(
            v,
        ) && v@.len() == drafts@.len()),
        (exists|k: int| 0 <= k < drafts@.len() && !#[trigger] draft_ok(drafts@[k])) ==> r is Err,
        match r {
            Ok(v) => v@.len() == drafts@.len() && forall|k: int|
                0 <= k < v@.len() ==> #[trigger] draft_rule(v@[k], drafts@[k]),
            Err(e) => exists|k: int|
                0 <= k < drafts@.len() && !#[trigger] draft_ok(drafts@[k]) && (forall|j: int|
                    0 <= j < k ==> draft_ok(drafts@[j])) && e@ == draft_error(drafts@[k]),
        },
{
    let mut out: Vec<PolicyRule> = Vec::new();
    let mut i: usize = 0;
    while i < drafts.len()
        invariant
            i <= drafts@.len(),
            out@.len() == i,
            forall|k: int| 0 <= k < i ==> #[trigger] draft_ok(drafts@[k]),
            forall|k: int| 0 <= k < i ==> #[trigger] draft_rule(out@[k], drafts@[k]),
        decreases drafts@.len() - i,
    {
        match drafts[i].to_rule() {
            Ok(rule) => {
                out.push(rule);
                assert(draft_rule(out@[i as int], drafts@[i as int]));
            },
            Err(e) => {
                assert(e@ == draft_error(drafts@[i as int]));
                return Err(e);
            },
        }
        i = i + 1;
    }
    Ok(out)
}

/// A one-pattern plain rule.
fn simple_rule(name: &str, effect: PolicyEffect, principal: &str, action: &str, resource: &str) -> (r:
    PolicyRule)
    ensures
        plain_rule(r, name@, effect, seq![principal@], seq![action@], seq![resource@]),
{
    let mut p: Vec<String> = Vec::new();
    p.push(owned(principal));
    let mut a: Vec<String> = Vec::new();
    a.push(owned(action));
    let mut res: Vec<String> = Vec::new();
    res.push(owned(resource));
    assert(string_views(p@) =~= seq![principal@]);
    assert(string_views(a@) =~= seq![action@]);
    assert(string_views(res@) =~= seq![resource@]);
    PolicyRule {
        name: owned(name),
        effect,
        principals: p,
        actions: a,
        resources: res,
        required_labels: Vec::new(),
        max_delegation_depth: None,
        inject_headers: None,
        inject_headers_from_file: None,
        inject_env: None,
        inject_env_from_file: None,
    }
}

/// Named starter policies: 0 allows browser actions over HTTPS and denies
/// admin actions; 1 allows browser actions over HTTPS only; any other
/// index is empty.
pub fn template_rules(index: usize) -> (r: Vec<PolicyRule>)
    ensures
        index == 0 ==> r@.len() == 2 && plain_rule(
            r@[0],
            "allow-browser-https"@,
            PolicyEffect::Allow,
            seq!["agent:*"@],
            seq!["browser.*"@],
            seq!["https://*"@],
        ) && plain_rule(
            r@[1],
            "deny-admin"@,
            PolicyEffect::Deny,
            seq!["agent:*"@],
            seq!["admin.*"@],
            seq!["*"@],
        ),
        index == 1 ==> r@.len() == 1 && plain_rule(
            r@[0],
            "allow-browser-only"@,
            PolicyEffect::Allow,
            seq!["agent:*"@],
            seq!["browser.*"@],
            seq!["https://*"@],
        ),
        index > 1 ==> r@.len() == 0,
{
    let mut v: Vec<PolicyRule> = Vec::new();
    if index == 0 {
        v.push(simple_rule("allow-browser-https", PolicyEffect::Allow, "agent:*", "browser.*", "https://*"));
        v.push(simple_rule("deny-admin", PolicyEffect::Deny, "agent:*", "admin.*", "*"));
    } else if index == 1 {
        v.push(simple_rule("allow-browser-only", PolicyEffect::Allow, "agent:*", "browser.*", "https://*"));
    }
    v
}


/// A list item that survives a round trip through a draft field: not
/// empty, with no whitespace at either end, and free of separators.
pub open spec fn plain_item(t: Seq<char>) -> bool {
    &&& t.len() > 0
    &&& lead_ws(t) == 0
    &&& trail_ws(t) == 0
    &&& !t.contains(',')
    &&& !t.contains('\n')
}

/// Lemma: splitting around a separator splits each side.
proof fn lemma_split_list_concat(a: Seq<char>, b: Seq<char>)
    ensures
        split_list_raw(a + seq![','] + b) == split_list_raw(a) + split_list_raw(b),
    decreases b.len(),
{
    let whole = a + seq![','] + b;
    if b.len() == 0 {
        assert(whole.drop_last() =~= a);
        assert(split_list_raw(a).push(Seq::<char>::empty()) =~= split_list_raw(a) + seq![Seq::<char>::empty()]);
    } else {
        let b2 = b.drop_last();
        lemma_split_list_concat(a, b2);
        assert(whole.drop_last() =~= a + seq![','] + b2);
        assert(whole.last() == b.last());
        lemma_split_list_nonempty(b2);
        let sa = split_list_raw(a);
        let sb2 = split_list_raw(b2);
        if list_sep(b.last()) {
            assert((sa + sb2).push(Seq::<char>::empty()) =~= sa + sb2.push(Seq::<char>::empty()));
        } else {
            let rest = sa + sb2;
            assert(rest.last() == sb2.last());
            assert(rest.update(rest.len() - 1, rest.last().push(b.last())) =~= sa + sb2.update(
                sb2.len() - 1,
                sb2.last().push(b.last()),
            ));
        }
    }
}

/// Lemma: text without separators is one piece.
proof fn lemma_split_list_single(s: Seq<char>)
    requires
        !s.contains(','),
        !s.contains('\n'),
    ensures
        split_list_raw(s) == seq![s],
    decreases s.len(),
{
    if s.len() > 0 {
        let t = s.drop_last();
        assert(!t.contains(',') && !t.contains('\n')) by {
            if t.contains(',') {
                let j = choose|j: int| 0 <= j < t.len() && t[j] == ',';
                assert(s[j] == ',');
            }
            if t.contains('\n') {
                let j = choose|j: int| 0 <= j < t.len() && t[j] == '\n';
                assert(s[j] == '\n');
            }
        }
        lemma_split_list_single(t);
        assert(!list_sep(s.last())) by {
            assert(s[s.len() - 1] == s.last());
        }
        assert(t.push(s.last()) =~= s);
        assert(seq![t].update(0, t.push(s.last())) =~= seq![s]);
    } else {
        assert(s =~= Seq::<char>::empty());
    }
}

/// Lemma: keeping pieces distributes over concatenation.
proof fn lemma_kept_concat(p: Seq<Seq<char>>, q: Seq<Seq<char>>)
    ensures
        kept_items(p + q) == kept_items(p) + kept_items(q),
    decreases q.len(),
{
    if q.len() == 0 {
        assert(p + q =~= p);
        assert(kept_items(p) + kept_items(q) =~= kept_items(p));
    } else {
        lemma_kept_concat(p, q.drop_last());
        assert((p + q).drop_last() =~= p + q.drop_last());
        assert((p + q).last() == q.last());
        let t = trimmed(q.last());
        if t.len() > 0 {
            assert((kept_items(p) + kept_items(q.drop_last())).push(t) =~= kept_items(p) + kept_items(q.drop_last()).push(t));
        }
    }
}

/// Lemma: an item without whitespace at its ends is its own trim, also
/// after a leading space.
proof fn lemma_trim_space(t: Seq<char>)
    requires
        t.len() > 0,
        lead_ws(t) == 0,
        trail_ws(t) == 0,
    ensures
        trimmed(seq![' '] + t) == t,
        trimmed(t) == t,
{
    assert(t.subrange(0, t.len() as int) =~= t);
    let u = seq![' '] + t;
    assert(u.drop_first() =~= t);
    assert(whitespace(' '));
    assert(lead_ws(u) == 1);
    assert(u.last() == t.last());
    assert(!whitespace(t.last())) by {
        if whitespace(t.last()) {
            assert(trail_ws(t) >= 1);
        }
    }
    assert(trail_ws(u) == 0);
    assert(u.subrange(1, u.len() as int) =~= t);
}

/// Items joined with ", " split back into the same items, when each is
/// non-empty, already trimmed and free of separators: a rule's lists
/// survive being shown in a draft and read back.
pub proof fn law_draft_list_round_trip(v: Seq<Seq<char>>)
    requires
        forall|k: int| 0 <= k < v.len() ==> plain_item(#[trigger] v[k]),
    ensures
        list_items(join_comma(v)) == v,
    decreases v.len(),
{
    if v.len() == 0 {
        assert(split_list_raw(Seq::<char>::empty()) == seq![Seq::<char>::empty()]);
        assert(trimmed(Seq::<char>::empty()) == Seq::<char>::empty()) by {
            assert(lead_ws(Seq::<char>::empty()) == 0);
        }
        let one = seq![Seq::<char>::empty()];
        assert(one.drop_last() =~= Seq::<Seq<char>>::empty());
        assert(one.last() == Seq::<char>::empty());
        assert(kept_items(Seq::<Seq<char>>::empty()) == Seq::<Seq<char>>::empty());
        assert(kept_items(one) =~= v);
    } else if v.len() == 1 {
        assert(plain_item(v[0]));
        lemma_split_list_single(v[0]);
        lemma_trim_space(v[0]);
        let one = seq![v[0]];
        assert(one.drop_last() =~= Seq::<Seq<char>>::empty());
        assert(one.last() == v[0]);
        assert(kept_items(Seq::<Seq<char>>::empty()) == Seq::<Seq<char>>::empty());
        assert(kept_items(one) =~= seq![v[0]]);
        assert(v =~= seq![v[0]]);
    } else {
        let w = v.drop_last();
        assert forall|k: int| 0 <= k < w.len() implies plain_item(#[trigger] w[k]) by {
            assert(w[k] == v[k]);
        }
        law_draft_list_round_trip(w);
        let last = v.last();
        assert(plain_item(v[v.len() - 1]));
        reveal_strlit(", ");
        assert(join_comma(v) =~= join_comma(w) + seq![','] + (seq![' '] + last));
        lemma_split_list_concat(join_comma(w), seq![' '] + last);
        let sl = seq![' '] + last;
        assert(!sl.contains(',') && !sl.contains('\n')) by {
            if sl.contains(',') {
                let j = choose|j: int| 0 <= j < sl.len() && sl[j] == ',';
                assert(j > 0);
                assert(last[j - 1] == ',');
            }
            if sl.contains('\n') {
                let j = choose|j: int| 0 <= j < sl.len() && sl[j] == '\n';
                assert(j > 0);
                assert(last[j - 1] == '\n');
            }
        }
        lemma_split_list_single(sl);
        lemma_kept_concat(split_list_raw(join_comma(w)), seq![sl]);
        lemma_trim_space(last);
        let one = seq![sl];
        assert(one.drop_last() =~= Seq::<Seq<char>>::empty());
        assert(one.last() == sl);
        assert(kept_items(Seq::<Seq<char>>::empty()) == Seq::<Seq<char>>::empty());
        assert(kept_items(one) =~= seq![last]);
        assert(w + seq![last] =~= v);
    }
}

}
