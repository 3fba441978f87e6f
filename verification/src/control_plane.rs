//! Control-plane synchronization: the client's settings and counters, the
//! requests it makes (endpoint URLs, long-poll query, replay-protection
//! headers), what it does with each reply, audit and metering records, and
//! the cache of remote revocations. Sending the requests is the
//! application's part; it hands every reply back to the functions here.
use vstd::prelude::*;

use crate::ledger::{hex_encode, hex_lower, sha256, sha256_digest, signed_decimal, signed_decimal_chars};
use crate::mandate::{hmac_sha256, hmac_sha256_tag};
use crate::models::{reason_text, ProofEvent};
use crate::policy::{has_label, opt_view};
use crate::text::string_views;
use crate::text::{
    append_chars, append_str, chars_of, decimal, decimal_chars, digit_char, ends_with_str, owned,
    starts_with_str, string_from_chars, trim_end_char, trimmed,
};

verus! {

broadcast use vstd::string::group_string_axioms;

// ---------------------------------------------------------------------------
// Settings and counters
// ---------------------------------------------------------------------------

/// Control-plane client settings. Timeouts and the first retry backoff are
/// held in milliseconds.
#[derive(Debug, Clone)]
pub struct ControlPlaneConfig {
    pub base_url: String,
    pub tenant_id: String,
    pub project_id: String,
    pub api_key: Option<String>,
    pub timeout_ms: u64,
    pub max_retries: u32,
    pub backoff_initial_ms: u64,
    pub fail_open: bool,
    pub sync_enabled: bool,
    pub sync_wait_timeout_ms: u64,
    pub sync_poll_interval_ms: u64,
    pub sync_project_id: Option<String>,
    pub sync_environment: Option<String>,
    pub replay_signing_secret: Option<String>,
}

/// The settings hold the defaults.
pub open spec fn control_plane_defaults(c: ControlPlaneConfig) -> bool {
    &&& c.base_url@ == "https://api.predicate.systems"@
    &&& c.tenant_id@ == Seq::<char>::empty() && c.project_id@ == Seq::<char>::empty()
    &&& c.api_key is None
    &&& c.timeout_ms == 2000 && c.max_retries == 2 && c.backoff_initial_ms == 200
    &&& c.fail_open && !c.sync_enabled
    &&& c.sync_wait_timeout_ms == 15000 && c.sync_poll_interval_ms == 200
    &&& c.sync_project_id is None && c.sync_environment is None && c.replay_signing_secret is None
}

impl ControlPlaneConfig {
    /// The public control plane, 2 s timeout, two retries from 200 ms,
    /// fail-open, sync off with a 15 s wait and 200 ms polling.
    pub fn default_config() -> (r: Self)
        ensures
            control_plane_defaults(r),
    {
        ControlPlaneConfig {
            base_url: owned("https://api.predicate.systems"),
            tenant_id: String::new(),
            project_id: String::new(),
            api_key: None,
            timeout_ms: 2000,
            max_retries: 2,
            backoff_initial_ms: 200,
            fail_open: true,
            sync_enabled: false,
            sync_wait_timeout_ms: 15000,
            sync_poll_interval_ms: 200,
            sync_project_id: None,
            sync_environment: None,
            replay_signing_secret: None,
        }
    }
}

impl Default for ControlPlaneConfig {
    fn default() -> (r: Self)
        ensures
            control_plane_defaults(r),
    {
        Self::default_config()
    }
}

/// Counters of the client's exchanges with the control plane.
#[derive(Debug, Clone)]
pub struct ControlPlaneStats {
    pub audit_push_success_count: u64,
    pub audit_push_failure_count: u64,
    pub usage_push_success_count: u64,
    pub usage_push_failure_count: u64,
    pub sync_success_count: u64,
    pub sync_failure_count: u64,
    pub last_push_error: Option<String>,
    pub last_sync_token: Option<String>,
}

impl ControlPlaneStats {
    /// All counters zero, nothing recorded.
    pub fn empty() -> (r: Self)
        ensures
            r.audit_push_success_count == 0 && r.audit_push_failure_count == 0,
            r.usage_push_success_count == 0 && r.usage_push_failure_count == 0,
            r.sync_success_count == 0 && r.sync_failure_count == 0,
            r.last_push_error is None && r.last_sync_token is None,
    {
        ControlPlaneStats {
            audit_push_success_count: 0,
            audit_push_failure_count: 0,
            usage_push_success_count: 0,
            usage_push_failure_count: 0,
            sync_success_count: 0,
            sync_failure_count: 0,
            last_push_error: None,
            last_sync_token: None,
        }
    }
}

/// One more, held at the largest count.
pub open spec fn incremented(n: u64) -> u64 {
    if n < u64::MAX {
        (n + 1) as u64
    } else {
        n
    }
}

/// One more, held at the largest count.
fn increment(n: u64) -> (r: u64)
    ensures
        r == incremented(n),
{
    if n < u64::MAX {
        n + 1
    } else {
        n
    }
}

// ---------------------------------------------------------------------------
// Text helpers
// ---------------------------------------------------------------------------

/// Decimal rendering of `n`.
fn decimal_chars_wide(n: u128) -> (r: Vec<char>)
    ensures
        r@ == decimal(n as nat),
    decreases n,
{
    let d = n % 10;
    let c = if d == 0 { '0' }
        else if d == 1 { '1' }
        else if d == 2 { '2' }
        else if d == 3 { '3' }
        else if d == 4 { '4' }
        else if d == 5 { '5' }
        else if d == 6 { '6' }
        else if d == 7 { '7' }
        else if d == 8 { '8' }
        else { '9' };
    if n < 10 {
        let mut v: Vec<char> = Vec::new();
        v.push(c);
        v
    } else {
        let mut v = decimal_chars_wide(n / 10);
        v.push(c);
        v
    }
}

/// A byte that URL encoding leaves as it is: ASCII letters and digits,
/// `-`, `.`, `_`, `~`.
pub open spec fn unreserved_byte(b: u8) -> bool {
    (48 <= b <= 57) || (65 <= b <= 90) || (97 <= b <= 122) || b == 45 || b == 46 || b == 95 || b == 126
}

/// The uppercase hex digit for `d < 16`.
pub open spec fn upper_hex_char(d: nat) -> char {
    if d < 10 {
        digit_char(d)
    } else if d == 10 {
        'A'
    } else if d == 11 {
        'B'
    } else if d == 12 {
        'C'
    } else if d == 13 {
        'D'
    } else if d == 14 {
        'E'
    } else {
        'F'
    }
}

/// Percent-encoding of bytes: unreserved bytes as they are, every other
/// byte as `%` and two uppercase hex digits.
pub open spec fn percent_encoded(bytes: Seq<u8>) -> Seq<char>
    decreases bytes.len(),
{
    if bytes.len() == 0 {
        Seq::empty()
    } else {
        let b = bytes.last();
        percent_encoded(bytes.drop_last()) + if unreserved_byte(b) {
            seq![b as char]
        } else {
            seq!['%', upper_hex_char(b as nat / 16), upper_hex_char(b as nat % 16)]
        }
    }
}

/// `urlencoding::encode`: percent-encodes every byte of the UTF-8 text
/// except ASCII letters, digits and `-`, `_`, `.`, `~`, with uppercase hex.
#[verifier::external_body]
fn url_encode(s: &str) -> (r: String)
    ensures
        r@ == percent_encoded(vstd::utf8::encode_utf8(s@)),
{
    urlencoding::encode(s).into_owned()
}

/// A number of milliseconds as seconds the way a decimal number prints:
/// the whole seconds, then a point and the fraction without trailing
/// zeros, when there is one.
pub open spec fn seconds_text(ms: u64) -> Seq<char> {
    let whole = decimal(ms as nat / 1000);
    let f = ms as nat % 1000;
    if f == 0 {
        whole
    } else if f % 100 == 0 {
        whole + seq!['.', digit_char(f / 100)]
    } else if f % 10 == 0 {
        whole + seq!['.', digit_char(f / 100), digit_char((f / 10) % 10)]
    } else {
        whole + seq!['.', digit_char(f / 100), digit_char((f / 10) % 10), digit_char(f % 10)]
    }
}

/// The ASCII digit of `d < 10`.
fn digit(d: u64) -> (c: char)
    requires
        d < 10,
    ensures
        c == digit_char(d as nat),
{
    if d == 0 { '0' }
    else if d == 1 { '1' }
    else if d == 2 { '2' }
    else if d == 3 { '3' }
    else if d == 4 { '4' }
    else if d == 5 { '5' }
    else if d == 6 { '6' }
    else if d == 7 { '7' }
    else if d == 8 { '8' }
    else { '9' }
}

/// Milliseconds written as seconds.
fn seconds_chars(ms: u64) -> (r: Vec<char>)
    ensures
        r@ == seconds_text(ms),
{
    let mut out = decimal_chars(ms / 1000);
    let f = ms % 1000;
    if f != 0 {
        out.push('.');
        out.push(digit(f / 100));
        if f % 100 != 0 {
            out.push(digit((f / 10) % 10));
            if f % 10 != 0 {
                out.push(digit(f % 10));
            }
        }
    }
    out
}

/// `s` without its trailing run of `c`.
fn trim_trailing(s: &[char], c: char) -> (r: Vec<char>)
    ensures
        r@ == trim_end_char(s@, c),
{
    let mut end: usize = s.len();
    assert(s@.subrange(0, s@.len() as int) =~= s@);
    while end > 0 && s[end - 1] == c
        invariant
            end <= s@.len(),
            trim_end_char(s@, c) == trim_end_char(s@.subrange(0, end as int), c),
        decreases end,
    {
        assert(s@.subrange(0, end as int).drop_last() =~= s@.subrange(0, end - 1));
        end = end - 1;
    }
    crate::text::slice_chars(s, 0, end)
}

// ---------------------------------------------------------------------------
// The client
// ---------------------------------------------------------------------------

/// A URL whose scheme is HTTP or HTTPS.
pub open spec fn http_url(u: Seq<char>) -> bool {
    crate::text::is_prefix("http://"@, u) || crate::text::is_prefix("https://"@, u)
}

/// One query parameter, `key=value` with the value URL-encoded.
pub open spec fn query_param(key: Seq<char>, value: Seq<char>) -> Seq<char> {
    key + "="@ + percent_encoded(vstd::utf8::encode_utf8(value))
}

/// The value given, else the configured one.
pub open spec fn given_or(given: Option<Seq<char>>, configured: Option<Seq<char>>) -> Option<Seq<char>> {
    match given {
        Some(g) => Some(g),
        None => configured,
    }
}

/// An optional parameter: present when its value is not blank.
pub open spec fn optional_param(key: Seq<char>, value: Option<Seq<char>>) -> Seq<char> {
    match value {
        Some(v) => if trimmed(v).len() > 0 {
            "&"@ + query_param(key, v)
        } else {
            Seq::empty()
        },
        None => Seq::empty(),
    }
}

/// The long-poll request path: tenant, wait timeout (seconds) and poll
/// interval always; the current token, project and environment when not
/// blank (project and environment default to the configured ones).
pub open spec fn authority_updates_path_text(
    c: ControlPlaneConfig,
    current_token: Option<Seq<char>>,
    wait_timeout_ms: Option<u64>,
    poll_interval_ms: Option<u64>,
    project_id: Option<Seq<char>>,
    environment: Option<Seq<char>>,
) -> Seq<char> {
    let wait = match wait_timeout_ms {
        Some(w) => w,
        None => c.sync_wait_timeout_ms,
    };
    let poll = match poll_interval_ms {
        Some(p) => p,
        None => c.sync_poll_interval_ms,
    };
    "/v1/sync/authority-updates?"@ + query_param("tenant_id"@, c.tenant_id@) + "&"@ + query_param(
        "wait_timeout_s"@,
        seconds_text(wait),
    ) + "&"@ + query_param("poll_interval_ms"@, decimal(poll as nat)) + optional_param(
        "current_token"@,
        current_token,
    ) + optional_param("project_id"@, given_or(project_id, opt_view(c.sync_project_id))) + optional_param(
        "environment"@,
        given_or(environment, opt_view(c.sync_environment)),
    )
}

/// The replay-protection nonce: the hex text of the first 16 bytes of the
/// SHA-256 of `tenant|path|nanos`.
pub open spec fn replay_nonce(tenant: Seq<char>, path: Seq<char>, nanos: u128) -> Seq<char> {
    hex_lower(sha256_digest(vstd::utf8::encode_utf8(tenant + "|"@ + path + "|"@ + decimal(nanos as nat))).take(16))
}

/// The idempotency token: the hex text of the first 16 bytes of the
/// SHA-256 of `nonce|timestamp|path`.
pub open spec fn idempotency_token(nonce: Seq<char>, timestamp: Seq<char>, path: Seq<char>) -> Seq<char> {
    hex_lower(sha256_digest(vstd::utf8::encode_utf8(nonce + "|"@ + timestamp + "|"@ + path)).take(16))
}

/// The request signature: the hex text of the HMAC-SHA256, under the
/// secret, of `nonce:timestamp:POST:path`.
pub open spec fn replay_signature(secret: Seq<char>, nonce: Seq<char>, timestamp: Seq<char>, path: Seq<char>) -> Seq<char> {
    hex_lower(
        hmac_sha256_tag(
            vstd::utf8::encode_utf8(secret),
            vstd::utf8::encode_utf8(nonce + ":"@ + timestamp + ":POST:"@ + path),
        ),
    )
}

/// The replay-protection headers of a request to `path` sent at `secs`
/// (`nanos` in nanoseconds): nonce, timestamp, idempotency token, and the
/// signature when a signing secret is configured.
pub open spec fn replay_headers_text(c: ControlPlaneConfig, path: Seq<char>, secs: u64, nanos: u128) -> Seq<(Seq<char>, Seq<char>)> {
    let nonce = replay_nonce(c.tenant_id@, path, nanos);
    let ts = decimal(secs as nat);
    let base = seq![
        ("X-PA-Nonce"@, nonce),
        ("X-PA-Timestamp"@, ts),
        ("X-PA-Idempotency-Token"@, idempotency_token(nonce, ts, path)),
    ];
    match c.replay_signing_secret {
        Some(secret) => base.push(("X-PA-Signature"@, replay_signature(secret@, nonce, ts, path))),
        None => base,
    }
}

/// The texts of header pairs.
pub open spec fn header_views(v: Seq<(String, String)>) -> Seq<(Seq<char>, Seq<char>)> {
    v.map_values(|p: (String, String)| (p.0@, p.1@))
}

/// The first `n` bytes.
fn prefix_bytes(v: &Vec<u8>, n: usize) -> (r: Vec<u8>)
    requires
        n <= v@.len(),
    ensures
        r@ == v@.take(n as int),
{
    let mut out: Vec<u8> = Vec::new();
    let mut i: usize = 0;
    while i < n
        invariant
            i <= n <= v@.len(),
            out@ =~= v@.take(i as int),
        decreases n - i,
    {
        out.push(v[i]);
        i = i + 1;
    }
    out
}

/// The hex text of the first 16 bytes of the SHA-256 of a text.
fn short_digest(text: &Vec<char>) -> (r: String)
    ensures
        r@ == hex_lower(sha256_digest(vstd::utf8::encode_utf8(text@)).take(16)),
{
    let s = string_from_chars(text.as_slice());
    let d = sha256(s.as_str().as_bytes());
    let head = prefix_bytes(&d, 16);
    hex_encode(head.as_slice())
}

/// Control-plane client state: its settings and counters.
pub struct ControlPlaneClient {
    pub config: ControlPlaneConfig,
    pub stats: ControlPlaneStats,
}

impl ControlPlaneClient {
    /// A client for the settings; refused unless the base URL is HTTP or
    /// HTTPS.
    pub fn new(config: ControlPlaneConfig) -> (r: Result<Self, String>)
        ensures
            http_url(config.base_url@) <==> r is Ok,
            r matches Err(m) ==> m@ == "base_url must use http or https scheme"@,
            r matches Ok(c) ==> c.config == config && c.stats.audit_push_success_count == 0
                && c.stats.audit_push_failure_count == 0 && c.stats.sync_success_count == 0
                && c.stats.sync_failure_count == 0 && c.stats.last_push_error is None,
    {
        let u = chars_of(config.base_url.as_str());
        if !starts_with_str(u.as_slice(), "http://") && !starts_with_str(u.as_slice(), "https://") {
            return Err(owned("base_url must use http or https scheme"));
        }
        Ok(ControlPlaneClient { config, stats: ControlPlaneStats::empty() })
    }

    /// The full URL of an endpoint: the base URL without trailing slashes,
    /// then the path.
    pub fn endpoint_url(&self, path: &str) -> (r: String)
        ensures
            r@ == trim_end_char(self.config.base_url@, '/') + path@,
    {
        let b = chars_of(self.config.base_url.as_str());
        let mut out = trim_trailing(b.as_slice(), '/');
        append_str(&mut out, path);
        string_from_chars(out.as_slice())
    }

    /// The `Authorization` header value, when an API key is configured.
    pub fn authorization_header(&self) -> (r: Option<String>)
        ensures
            match self.config.api_key {
                Some(k) => r matches Some(h) && h@ == "Bearer "@ + k@,
                None => r is None,
            },
    {
        match &self.config.api_key {
            Some(k) => {
                let mut out: Vec<char> = Vec::new();
                append_str(&mut out, "Bearer ");
                append_str(&mut out, k.as_str());
                Some(string_from_chars(out.as_slice()))
            },
            None => None,
        }
    }

    /// The long-poll request path for authority updates.
    pub fn authority_updates_path(
        &self,
        current_token: Option<&str>,
        wait_timeout_ms: Option<u64>,
        poll_interval_ms: Option<u64>,
        project_id: Option<&str>,
        environment: Option<&str>,
    ) -> (r: String)
        ensures
            r@ == authority_updates_path_text(
                self.config,
                match current_token { Some(t) => Some(t@), None => None },
                wait_timeout_ms,
                poll_interval_ms,
                match project_id { Some(p) => Some(p@), None => None },
                match environment { Some(e) => Some(e@), None => None },
            ),
    {
        let wait = match wait_timeout_ms {
            Some(w) => w,
            None => self.config.sync_wait_timeout_ms,
        };
        let poll = match poll_interval_ms {
            Some(p) => p,
            None => self.config.sync_poll_interval_ms,
        };
        let mut out: Vec<char> = Vec::new();
        append_str(&mut out, "/v1/sync/authority-updates?");
        push_param(&mut out, "tenant_id", self.config.tenant_id.as_str());
        append_str(&mut out, "&");
        let w = string_from_chars(seconds_chars(wait).as_slice());
        push_param(&mut out, "wait_timeout_s", w.as_str());
        append_str(&mut out, "&");
        let p = string_from_chars(decimal_chars(poll).as_slice());
        push_param(&mut out, "poll_interval_ms", p.as_str());
        push_optional_param(&mut out, "current_token", current_token);
        let proj: Option<&str> = match project_id {
            Some(x) => Some(x),
            None => match &self.config.sync_project_id {
                Some(x) => Some(x.as_str()),
                None => None,
            },
        };
        push_optional_param(&mut out, "project_id", proj);
        let env: Option<&str> = match environment {
            Some(x) => Some(x),
            None => match &self.config.sync_environment {
                Some(x) => Some(x.as_str()),
                None => None,
            },
        };
        push_optional_param(&mut out, "environment", env);
        string_from_chars(out.as_slice())
    }

    /// The replay-protection headers of a request to `path` sent at `secs`
    /// seconds (`nanos` nanoseconds) since the epoch.
    pub fn replay_headers_at(&self, path: &str, secs: u64, nanos: u128) -> (r: Vec<(String, String)>)
        ensures
            header_views(r@) == replay_headers_text(self.config, path@, secs, nanos),
    {
        let mut seed: Vec<char> = Vec::new();
        append_str(&mut seed, self.config.tenant_id.as_str());
        append_str(&mut seed, "|");
        append_str(&mut seed, path);
        append_str(&mut seed, "|");
        let nd = decimal_chars_wide(nanos);
        append_chars(&mut seed, nd.as_slice());
        let nonce = short_digest(&seed);
        let ts = string_from_chars(decimal_chars(secs).as_slice());
        let mut iseed: Vec<char> = Vec::new();
        append_str(&mut iseed, nonce.as_str());
        append_str(&mut iseed, "|");
        append_str(&mut iseed, ts.as_str());
        append_str(&mut iseed, "|");
        append_str(&mut iseed, path);
        let token = short_digest(&iseed);
        let mut headers: Vec<(String, String)> = Vec::new();
        headers.push((owned("X-PA-Nonce"), nonce.clone()));
        headers.push((owned("X-PA-Timestamp"), ts.clone()));
        headers.push((owned("X-PA-Idempotency-Token"), token));
        match &self.config.replay_signing_secret {
            Some(secret) => {
                let mut msg: Vec<char> = Vec::new();
                append_str(&mut msg, nonce.as_str());
                append_str(&mut msg, ":");
                append_str(&mut msg, ts.as_str());
                append_str(&mut msg, ":POST:");
                append_str(&mut msg, path);
                let m = string_from_chars(msg.as_slice());
                let tag = hmac_sha256(secret.as_str().as_bytes(), m.as_str().as_bytes());
                headers.push((owned("X-PA-Signature"), hex_encode(tag.as_slice())));
            },
            None => {},
        }
        proof {
            let base = seq![
                ("X-PA-Nonce"@, nonce@),
                ("X-PA-Timestamp"@, ts@),
                ("X-PA-Idempotency-Token"@, idempotency_token(nonce@, ts@, path@)),
            ];
            if self.config.replay_signing_secret is Some {
                assert(header_views(headers@) =~= base.push(
                    ("X-PA-Signature"@, replay_signature(self.config.replay_signing_secret->Some_0@, nonce@, ts@, path@)),
                ));
            } else {
                assert(header_views(headers@) =~= base);
            }
        }
        headers
    }

    /// Records the outcome of pushing audit events: on failure the error is
    /// kept, and the push counts as delivered only when failing open.
    pub fn record_audit_push(&mut self, outcome: Result<(), String>) -> (r: bool)
        ensures
            final(self).config == old(self).config,
            match outcome {
                Ok(()) => r && final(self).stats == (ControlPlaneStats {
                    audit_push_success_count: incremented(old(self).stats.audit_push_success_count),
                    last_push_error: None,
                    ..old(self).stats
                }),
                Err(e) => r == old(self).config.fail_open && final(self).stats == (ControlPlaneStats {
                    audit_push_failure_count: incremented(old(self).stats.audit_push_failure_count),
                    last_push_error: Some(e),
                    ..old(self).stats
                }),
            },
    {
        match outcome {
            Ok(()) => {
                self.stats.audit_push_success_count = increment(self.stats.audit_push_success_count);
                self.stats.last_push_error = None;
                true
            },
            Err(e) => {
                self.stats.audit_push_failure_count = increment(self.stats.audit_push_failure_count);
                self.stats.last_push_error = Some(e);
                self.config.fail_open
            },
        }
    }

    /// Records the outcome of pushing usage records, as for audit events.
    pub fn record_usage_push(&mut self, outcome: Result<(), String>) -> (r: bool)
        ensures
            final(self).config == old(self).config,
            match outcome {
                Ok(()) => r && final(self).stats == (ControlPlaneStats {
                    usage_push_success_count: incremented(old(self).stats.usage_push_success_count),
                    last_push_error: None,
                    ..old(self).stats
                }),
                Err(e) => r == old(self).config.fail_open && final(self).stats == (ControlPlaneStats {
                    usage_push_failure_count: incremented(old(self).stats.usage_push_failure_count),
                    last_push_error: Some(e),
                    ..old(self).stats
                }),
            },
    {
        match outcome {
            Ok(()) => {
                self.stats.usage_push_success_count = increment(self.stats.usage_push_success_count);
                self.stats.last_push_error = None;
                true
            },
            Err(e) => {
                self.stats.usage_push_failure_count = increment(self.stats.usage_push_failure_count);
                self.stats.last_push_error = Some(e);
                self.config.fail_open
            },
        }
    }
}

/// Appends `key=value` with the value URL-encoded.
fn push_param(out: &mut Vec<char>, key: &str, value: &str)
    ensures
        final(out)@ == old(out)@ + query_param(key@, value@),
{
    append_str(out, key);
    append_str(out, "=");
    let e = url_encode(value);
    append_str(out, e.as_str());
}

/// Appends `&key=value` when the value is given and not blank.
fn push_optional_param(out: &mut Vec<char>, key: &str, value: Option<&str>)
    ensures
        final(out)@ == old(out)@ + optional_param(key@, match value { Some(v) => Some(v@), None => None }),
{
    match value {
        Some(v) => {
            if crate::text::trim_str(v).len() > 0 {
                append_str(out, "&");
                push_param(out, key, v);
            }
        },
        None => {},
    }
}

// ---------------------------------------------------------------------------
// Sync snapshots
// ---------------------------------------------------------------------------

/// A revocation published by the control plane.
#[derive(Debug, Clone)]
pub struct RemoteRevocation {
    pub revocation_id: String,
    pub revocation_type: String,
    pub principal_id: Option<String>,
    pub intent_hash: Option<String>,
    pub tags: Vec<String>,
    pub reason: Option<String>,
    pub created_at: String,
}

/// A revocation as a value.
pub struct RevocationView {
    pub revocation_id: Seq<char>,
    pub revocation_type: Seq<char>,
    pub principal_id: Option<Seq<char>>,
    pub intent_hash: Option<Seq<char>>,
    pub tags: Seq<Seq<char>>,
    pub reason: Option<Seq<char>>,
    pub created_at: Seq<char>,
}

impl View for RemoteRevocation {
    type V = RevocationView;

    open spec fn view(&self) -> RevocationView {
        RevocationView {
            revocation_id: self.revocation_id@,
            revocation_type: self.revocation_type@,
            principal_id: opt_view(self.principal_id),
            intent_hash: opt_view(self.intent_hash),
            tags: string_views(self.tags@),
            reason: opt_view(self.reason),
            created_at: self.created_at@,
        }
    }
}

/// A copy of a list of strings.
fn copy_strings(v: &Vec<String>) -> (r: Vec<String>)
    ensures
        string_views(r@) == string_views(v@),
{
    let mut out: Vec<String> = Vec::new();
    let mut i: usize = 0;
    while i < v.len()
        invariant
            i <= v@.len(),
            string_views(out@) =~= string_views(v@).subrange(0, i as int),
        decreases v@.len() - i,
    {
        let ghost before = out@;
        out.push(v[i].clone());
        assert(string_views(out@) =~= string_views(before).push(v@[i as int]@));
        i = i + 1;
    }
    assert(string_views(v@).subrange(0, v@.len() as int) =~= string_views(v@));
    out
}

/// A copy of an optional string.
fn copy_opt(o: &Option<String>) -> (r: Option<String>)
    ensures
        r == *o,
{
    match o {
        Some(s) => Some(s.clone()),
        None => None,
    }
}

impl RemoteRevocation {
    /// A copy of the revocation.
    pub fn duplicate(&self) -> (r: Self)
        ensures
            r@ == self@,
    {
        RemoteRevocation {
            revocation_id: self.revocation_id.clone(),
            revocation_type: self.revocation_type.clone(),
            principal_id: copy_opt(&self.principal_id),
            intent_hash: copy_opt(&self.intent_hash),
            tags: copy_strings(&self.tags),
            reason: copy_opt(&self.reason),
            created_at: self.created_at.clone(),
        }
    }
}

/// An authority sync snapshot; the policy document is held as its JSON
/// text.
#[derive(Debug, Clone)]
pub struct AuthoritySyncSnapshot {
    pub changed: bool,
    pub sync_token: String,
    pub tenant_id: String,
    pub project_id: Option<String>,
    pub environment: Option<String>,
    pub policy_id: Option<String>,
    pub policy_revision: Option<i64>,
    pub policy_document: Option<String>,
    pub revocations: Vec<RemoteRevocation>,
    pub revoked_mandate_ids: Vec<String>,
}

/// The snapshot is the empty one: nothing changed, nothing carried.
pub open spec fn empty_snapshot(s: AuthoritySyncSnapshot) -> bool {
    &&& !s.changed && s.sync_token@ == Seq::<char>::empty() && s.tenant_id@ == Seq::<char>::empty()
    &&& s.project_id is None && s.environment is None && s.policy_id is None
    &&& s.policy_revision is None && s.policy_document is None
    &&& s.revocations@.len() == 0 && s.revoked_mandate_ids@.len() == 0
}

impl AuthoritySyncSnapshot {
    /// The empty snapshot.
    pub fn empty() -> (r: Self)
        ensures
            empty_snapshot(r),
    {
        AuthoritySyncSnapshot {
            changed: false,
            sync_token: String::new(),
            tenant_id: String::new(),
            project_id: None,
            environment: None,
            policy_id: None,
            policy_revision: None,
            policy_document: None,
            revocations: Vec::new(),
            revoked_mandate_ids: Vec::new(),
        }
    }
}

impl ControlPlaneClient {
    /// Records the outcome of a long poll: a snapshot is counted and its
    /// token kept; a failure is counted and kept, and answered with the
    /// empty snapshot when failing open, else with the error.
    pub fn record_sync(&mut self, outcome: Result<AuthoritySyncSnapshot, String>) -> (r: Result<AuthoritySyncSnapshot, String>)
        ensures
            final(self).config == old(self).config,
            match outcome {
                Ok(snap) => r == Ok::<AuthoritySyncSnapshot, String>(snap) && final(self).stats == (ControlPlaneStats {
                    sync_success_count: incremented(old(self).stats.sync_success_count),
                    last_sync_token: Some(snap.sync_token),
                    ..old(self).stats
                }),
                Err(e) => final(self).stats == (ControlPlaneStats {
                    sync_failure_count: incremented(old(self).stats.sync_failure_count),
                    last_push_error: Some(e),
                    ..old(self).stats
                }) && if old(self).config.fail_open {
                    r matches Ok(s) && empty_snapshot(s)
                } else {
                    r == Err::<AuthoritySyncSnapshot, String>(e)
                },
            },
    {
        match outcome {
            Ok(snap) => {
                self.stats.sync_success_count = increment(self.stats.sync_success_count);
                self.stats.last_sync_token = Some(snap.sync_token.clone());
                Ok(snap)
            },
            Err(e) => {
                self.stats.sync_failure_count = increment(self.stats.sync_failure_count);
                self.stats.last_push_error = Some(e.clone());
                if self.config.fail_open {
                    Ok(AuthoritySyncSnapshot::empty())
                } else {
                    Err(e)
                }
            },
        }
    }
}

// ---------------------------------------------------------------------------
// Audit and metering records
// ---------------------------------------------------------------------------

/// An audit event as the control plane receives it.
#[derive(Debug, Clone)]
pub struct AuditEventEnvelope {
    pub event_id: String,
    pub tenant_id: String,
    pub principal_id: String,
    pub action: String,
    pub resource: String,
    pub allowed: bool,
    pub reason: String,
    pub mandate_id: Option<String>,
    pub timestamp: String,
    pub trace_id: Option<String>,
}

/// The RFC 3339 text of a Unix time in seconds, when it is in range.
pub uninterp spec fn rfc3339_at(secs: i64) -> Option<Seq<char>>;

/// `chrono::DateTime::from_timestamp(secs, 0)` then `to_rfc3339`: the UTC
/// date and time of a Unix time, `None` out of range. Claimed: a function
/// of the seconds alone.
#[verifier::external_body]
fn rfc3339_of(secs: i64) -> (r: Option<String>)
    ensures
        opt_view(r) == rfc3339_at(secs),
{
    chrono::DateTime::from_timestamp(secs, 0).map(|dt| dt.to_rfc3339())
}

/// `chrono::Utc::now().to_rfc3339()`: the current date and time. Claimed:
/// the text is not empty.
#[verifier::external_body]
fn now_rfc3339() -> (r: String)
    ensures
        r@.len() > 0,
{
    chrono::Utc::now().to_rfc3339()
}

/// How a boolean prints.
pub open spec fn bool_text(b: bool) -> Seq<char> {
    if b {
        "true"@
    } else {
        "false"@
    }
}

/// The event id of an audit envelope: `evt_` and the hex text of the first
/// 8 bytes of the SHA-256 of `principal|action|resource|time|allowed|reason`.
pub open spec fn envelope_event_id(e: ProofEvent) -> Seq<char> {
    let seed = e.principal_id@ + "|"@ + e.action@ + "|"@ + e.resource@ + "|"@ + signed_decimal(
        e.emitted_at_epoch_s as int,
    ) + "|"@ + bool_text(e.allowed) + "|"@ + reason_text(e.reason);
    "evt_"@ + hex_lower(sha256_digest(vstd::utf8::encode_utf8(seed)).take(8))
}

impl AuditEventEnvelope {
    /// The envelope of a proof event for a tenant and an optional trace.
    pub fn from_proof_event(event: &ProofEvent, tenant_id: &str, trace_id: Option<&str>) -> (r: Self)
        ensures
            r.event_id@ == envelope_event_id(*event),
            r.tenant_id@ == tenant_id@,
            r.principal_id@ == event.principal_id@,
            r.action@ == event.action@,
            r.resource@ == event.resource@,
            r.allowed == event.allowed,
            r.reason@ == reason_text(event.reason),
            r.mandate_id == event.mandate_id,
            r.timestamp@ == (match rfc3339_at(event.emitted_at_epoch_s) {
                Some(t) => t,
                None => Seq::<char>::empty(),
            }),
            opt_view(r.trace_id) == (match trace_id {
                Some(t) => Some(t@),
                None => None,
            }),
    {
        let timestamp = match rfc3339_of(event.emitted_at_epoch_s) {
            Some(t) => t,
            None => String::new(),
        };
        let mut seed: Vec<char> = Vec::new();
        append_str(&mut seed, event.principal_id.as_str());
        append_str(&mut seed, "|");
        append_str(&mut seed, event.action.as_str());
        append_str(&mut seed, "|");
        append_str(&mut seed, event.resource.as_str());
        append_str(&mut seed, "|");
        let t = signed_decimal_chars(event.emitted_at_epoch_s);
        append_chars(&mut seed, t.as_slice());
        append_str(&mut seed, "|");
        if event.allowed {
            append_str(&mut seed, "true");
        } else {
            append_str(&mut seed, "false");
        }
        append_str(&mut seed, "|");
        let reason = event.reason.to_string();
        append_str(&mut seed, reason.as_str());
        let s = string_from_chars(seed.as_slice());
        let d = sha256(s.as_str().as_bytes());
        let head = prefix_bytes(&d, 8);
        let hx = hex_encode(head.as_slice());
        let mut id: Vec<char> = Vec::new();
        append_str(&mut id, "evt_");
        append_str(&mut id, hx.as_str());
        AuditEventEnvelope {
            event_id: string_from_chars(id.as_slice()),
            tenant_id: owned(tenant_id),
            principal_id: event.principal_id.clone(),
            action: event.action.clone(),
            resource: event.resource.clone(),
            allowed: event.allowed,
            reason,
            mandate_id: copy_opt(&event.mandate_id),
            timestamp,
            trace_id: match trace_id {
                Some(t) => Some(owned(t)),
                None => None,
            },
        }
    }
}

/// A metering record.
#[derive(Debug, Clone)]
pub struct UsageCreditRecord {
    pub tenant_id: String,
    pub project_id: String,
    pub action_type: String,
    pub credits: i64,
    pub timestamp: String,
}

impl UsageCreditRecord {
    /// A record of `credits` authority checks, stamped now.
    pub fn authority_check(tenant_id: &str, project_id: &str, credits: i64) -> (r: Self)
        ensures
            r.tenant_id@ == tenant_id@,
            r.project_id@ == project_id@,
            r.action_type@ == "authority_check"@,
            r.credits == credits,
            r.timestamp@.len() > 0,
    {
        UsageCreditRecord {
            tenant_id: owned(tenant_id),
            project_id: owned(project_id),
            action_type: owned("authority_check"),
            credits,
            timestamp: now_rfc3339(),
        }
    }
}

// ---------------------------------------------------------------------------
// Revocation cache
// ---------------------------------------------------------------------------

/// The views of revocations.
pub open spec fn revocation_views(v: Seq<RemoteRevocation>) -> Seq<RevocationView> {
    v.map_values(|r: RemoteRevocation| r@)
}

/// The last revocation naming the principal (a later one replaces an
/// earlier one).
pub open spec fn principal_revocation(revs: Seq<RevocationView>, p: Seq<char>) -> Option<RevocationView>
    decreases revs.len(),
{
    if revs.len() == 0 {
        None
    } else if revs.last().principal_id == Some(p) {
        Some(revs.last())
    } else {
        principal_revocation(revs.drop_last(), p)
    }
}

/// The last revocation naming the intent hash.
pub open spec fn intent_revocation(revs: Seq<RevocationView>, h: Seq<char>) -> Option<RevocationView>
    decreases revs.len(),
{
    if revs.len() == 0 {
        None
    } else if revs.last().intent_hash == Some(h) {
        Some(revs.last())
    } else {
        intent_revocation(revs.drop_last(), h)
    }
}

/// How often `t` occurs in `tags`.
pub open spec fn occurrences(tags: Seq<Seq<char>>, t: Seq<char>) -> nat
    decreases tags.len(),
{
    if tags.len() == 0 {
        0
    } else {
        occurrences(tags.drop_last(), t) + if tags.last() == t {
            1nat
        } else {
            0nat
        }
    }
}

/// The revocations filed under a tag, in order: each once for every time
/// it carries the tag.
pub open spec fn tag_revocations(revs: Seq<RevocationView>, t: Seq<char>) -> Seq<RevocationView>
    decreases revs.len(),
{
    if revs.len() == 0 {
        Seq::empty()
    } else {
        tag_revocations(revs.drop_last(), t) + Seq::new(occurrences(revs.last().tags, t), |i: int| revs.last())
    }
}

/// The revocations filed under each of the tags asked for, tag after tag.
pub open spec fn tags_revocations(revs: Seq<RevocationView>, tags: Seq<Seq<char>>) -> Seq<RevocationView>
    decreases tags.len(),
{
    if tags.len() == 0 {
        Seq::empty()
    } else {
        tags_revocations(revs, tags.drop_last()) + tag_revocations(revs, tags.last())
    }
}

/// The items without repeats, first occurrences kept.
pub open spec fn distinct(s: Seq<Seq<char>>) -> Seq<Seq<char>>
    decreases s.len(),
{
    if s.len() == 0 {
        Seq::empty()
    } else if distinct(s.drop_last()).contains(s.last()) {
        distinct(s.drop_last())
    } else {
        distinct(s.drop_last()).push(s.last())
    }
}

/// The principals the revocations name, in order.
pub open spec fn principal_keys(revs: Seq<RevocationView>) -> Seq<Seq<char>>
    decreases revs.len(),
{
    if revs.len() == 0 {
        Seq::empty()
    } else {
        match revs.last().principal_id {
            Some(p) => principal_keys(revs.drop_last()).push(p),
            None => principal_keys(revs.drop_last()),
        }
    }
}

/// The intent hashes the revocations name, in order.
pub open spec fn intent_keys(revs: Seq<RevocationView>) -> Seq<Seq<char>>
    decreases revs.len(),
{
    if revs.len() == 0 {
        Seq::empty()
    } else {
        match revs.last().intent_hash {
            Some(h) => intent_keys(revs.drop_last()).push(h),
            None => intent_keys(revs.drop_last()),
        }
    }
}

/// Every tag the revocations carry, in order.
pub open spec fn tag_keys(revs: Seq<RevocationView>) -> Seq<Seq<char>>
    decreases revs.len(),
{
    if revs.len() == 0 {
        Seq::empty()
    } else {
        tag_keys(revs.drop_last()) + revs.last().tags
    }
}

/// Counts over the revocation cache.
#[derive(Debug, Clone)]
pub struct RevocationCacheStats {
    pub principal_count: usize,
    pub intent_count: usize,
    pub tag_count: usize,
    pub mandate_id_count: usize,
    pub last_updated: Option<i64>,
}

/// The revocations of the last snapshot, and the revoked mandate ids.
pub struct RevocationCache {
    revocations: Vec<RemoteRevocation>,
    mandate_ids: Vec<String>,
    last_updated: Option<i64>,
}

/// Adds a text to a list unless the list holds it.
fn add_distinct(v: &mut Vec<String>, s: &String)
    ensures
        string_views(final(v)@) == if string_views(old(v)@).contains(s@) {
            string_views(old(v)@)
        } else {
            string_views(old(v)@).push(s@)
        },
{
    if !has_label(v, s) {
        let ghost before = v@;
        v.push(s.clone());
        assert(string_views(v@) =~= string_views(before).push(s@));
    }
}

/// The distinct texts of a list, first occurrences kept.
fn distinct_strings(v: &Vec<String>) -> (r: Vec<String>)
    ensures
        string_views(r@) == distinct(string_views(v@)),
{
    let ghost all = string_views(v@);
    let mut out: Vec<String> = Vec::new();
    let mut i: usize = 0;
    assert(all.subrange(0, 0) =~= Seq::<Seq<char>>::empty());
    while i < v.len()
        invariant
            i <= v@.len(),
            all == string_views(v@),
            string_views(out@) == distinct(all.subrange(0, i as int)),
        decreases v@.len() - i,
    {
        assert(all.subrange(0, i + 1).drop_last() =~= all.subrange(0, i as int));
        assert(all.subrange(0, i + 1).last() == v@[i as int]@);
        add_distinct(&mut out, &v[i]);
        i = i + 1;
    }
    assert(all.subrange(0, all.len() as int) =~= all);
    out
}

/// Lemma: the distinct items are no more than the items.
proof fn lemma_distinct_len(s: Seq<Seq<char>>)
    ensures
        distinct(s).len() <= s.len(),
    decreases s.len(),
{
    if s.len() > 0 {
        lemma_distinct_len(s.drop_last());
    }
}

impl RevocationCache {
    /// The cached revocations.
    pub closed spec fn spec_revocations(&self) -> Seq<RevocationView> {
        revocation_views(self.revocations@)
    }

    /// The revoked mandate ids, without repeats.
    pub closed spec fn spec_mandates(&self) -> Seq<Seq<char>> {
        string_views(self.mandate_ids@)
    }

    /// When the cache was last replaced.
    pub closed spec fn spec_last_updated(&self) -> Option<i64> {
        self.last_updated
    }

    /// No mandate id is held twice.
    pub closed spec fn wf(&self) -> bool {
        self.spec_mandates().no_duplicates()
    }

    /// An empty cache.
    pub fn new() -> (r: Self)
        ensures
            r.wf(),
            r.spec_revocations() == Seq::<RevocationView>::empty(),
            r.spec_mandates() == Seq::<Seq<char>>::empty(),
            r.spec_last_updated() is None,
    {
        let r = RevocationCache { revocations: Vec::new(), mandate_ids: Vec::new(), last_updated: None };
        assert(r.spec_revocations() =~= Seq::<RevocationView>::empty());
        assert(r.spec_mandates() =~= Seq::<Seq<char>>::empty());
        r
    }

    /// Replaces the cache with a snapshot taken at `now`: its revocations
    /// and its revoked mandate ids (without repeats).
    pub fn update_from_full_snapshot_at(&mut self, revocations: &Vec<RemoteRevocation>, revoked_mandate_ids: &Vec<String>, now: i64)
        ensures
            final(self).wf(),
            final(self).spec_revocations() == revocation_views(revocations@),
            final(self).spec_mandates() == distinct(string_views(revoked_mandate_ids@)),
            final(self).spec_last_updated() == Some(now),
    {
        let mut revs: Vec<RemoteRevocation> = Vec::new();
        let mut i: usize = 0;
        while i < revocations.len()
            invariant
                i <= revocations@.len(),
                revocation_views(revs@) =~= revocation_views(revocations@).subrange(0, i as int),
            decreases revocations@.len() - i,
        {
            let ghost before = revs@;
            revs.push(revocations[i].duplicate());
            assert(revocation_views(revs@) =~= revocation_views(before).push(revocations@[i as int]@));
            i = i + 1;
        }
        assert(revocation_views(revocations@).subrange(0, revocations@.len() as int) =~= revocation_views(revocations@));
        self.revocations = revs;
        self.mandate_ids = distinct_strings(revoked_mandate_ids);
        self.last_updated = Some(now);
        proof {
            lemma_distinct_no_duplicates(string_views(revoked_mandate_ids@));
        }
    }

    /// Replaces the cache with a snapshot taken now.
    pub fn update_from_full_snapshot(&mut self, revocations: &Vec<RemoteRevocation>, revoked_mandate_ids: &Vec<String>)
        ensures
            final(self).wf(),
            final(self).spec_revocations() == revocation_views(revocations@),
            final(self).spec_mandates() == distinct(string_views(revoked_mandate_ids@)),
            final(self).spec_last_updated() is Some,
    {
        let now = crate::ledger::now_epoch_seconds();
        self.update_from_full_snapshot_at(revocations, revoked_mandate_ids, now);
    }

    /// Replaces the cache with a snapshot of revocations only.
    pub fn update_from_snapshot(&mut self, revocations: &Vec<RemoteRevocation>)
        ensures
            final(self).wf(),
            final(self).spec_revocations() == revocation_views(revocations@),
            final(self).spec_mandates() == Seq::<Seq<char>>::empty(),
            final(self).spec_last_updated() is Some,
    {
        let none: Vec<String> = Vec::new();
        self.update_from_full_snapshot(revocations, &none);
        assert(distinct(string_views(none@)) =~= Seq::<Seq<char>>::empty());
    }

    /// The revocation of a principal, if any (the last one naming it).
    pub fn is_principal_revoked(&self, principal_id: &str) -> (r: Option<RemoteRevocation>)
        ensures
            match principal_revocation(self.spec_revocations(), principal_id@) {
                Some(v) => r matches Some(x) && x@ == v,
                None => r is None,
            },
    {
        let ghost all = self.spec_revocations();
        let mut n: usize = self.revocations.len();
        assert(all.subrange(0, all.len() as int) =~= all);
        while n > 0
            invariant
                n <= self.revocations@.len(),
                all == revocation_views(self.revocations@),
                principal_revocation(all, principal_id@) == principal_revocation(all.subrange(0, n as int), principal_id@),
            decreases n,
        {
            assert(all.subrange(0, n as int).drop_last() =~= all.subrange(0, n - 1));
            assert(all.subrange(0, n as int).last() == self.revocations@[n - 1]@);
            match &self.revocations[n - 1].principal_id {
                Some(p) => {
                    let pc = chars_of(p.as_str());
                    if crate::text::eq_str(pc.as_slice(), principal_id) {
                        return Some(self.revocations[n - 1].duplicate());
                    }
                },
                None => {},
            }
            n = n - 1;
        }
        None
    }

    /// The revocation of an intent hash, if any (the last one naming it).
    pub fn is_intent_revoked(&self, intent_hash: &str) -> (r: Option<RemoteRevocation>)
        ensures
            match intent_revocation(self.spec_revocations(), intent_hash@) {
                Some(v) => r matches Some(x) && x@ == v,
                None => r is None,
            },
    {
        let ghost all = self.spec_revocations();
        let mut n: usize = self.revocations.len();
        assert(all.subrange(0, all.len() as int) =~= all);
        while n > 0
            invariant
                n <= self.revocations@.len(),
                all == revocation_views(self.revocations@),
                intent_revocation(all, intent_hash@) == intent_revocation(all.subrange(0, n as int), intent_hash@),
            decreases n,
        {
            assert(all.subrange(0, n as int).drop_last() =~= all.subrange(0, n - 1));
            assert(all.subrange(0, n as int).last() == self.revocations@[n - 1]@);
            match &self.revocations[n - 1].intent_hash {
                Some(h) => {
                    let hc = chars_of(h.as_str());
                    if crate::text::eq_str(hc.as_slice(), intent_hash) {
                        return Some(self.revocations[n - 1].duplicate());
                    }
                },
                None => {},
            }
            n = n - 1;
        }
        None
    }
}

/// Lemma: distinct items hold no repeats.
proof fn lemma_distinct_no_duplicates(s: Seq<Seq<char>>)
    ensures
        distinct(s).no_duplicates(),
    decreases s.len(),
{
    if s.len() > 0 {
        lemma_distinct_no_duplicates(s.drop_last());
        let d = distinct(s.drop_last());
        if !d.contains(s.last()) {
            assert forall|i: int, j: int| 0 <= i < d.push(s.last()).len() && 0 <= j < d.push(s.last()).len() && i != j implies d.push(s.last())[i] != d.push(s.last())[j] by {
                if i < d.len() && j < d.len() {
                } else if i == d.len() {
                    assert(d.push(s.last())[j] == d[j]);
                } else {
                    assert(d.push(s.last())[i] == d[i]);
                }
            }
        }
    }
}

/// Which key of a revocation a count is over.
#[derive(Debug, Clone, Copy)]
enum RevocationKey {
    Principal,
    Intent,
    Tag,
}

/// The keys of the given kind that the revocations carry, in order.
spec fn keys_of(revs: Seq<RevocationView>, k: RevocationKey) -> Seq<Seq<char>> {
    match k {
        RevocationKey::Principal => principal_keys(revs),
        RevocationKey::Intent => intent_keys(revs),
        RevocationKey::Tag => tag_keys(revs),
    }
}

impl RevocationCache {
    /// The revocations filed under each of the tags, tag after tag.
    pub fn are_tags_revoked(&self, tags: &Vec<String>) -> (r: Vec<RemoteRevocation>)
        ensures
            revocation_views(r@) == tags_revocations(self.spec_revocations(), string_views(tags@)),
    {
        let ghost revs = self.spec_revocations();
        let ghost ts = string_views(tags@);
        let mut out: Vec<RemoteRevocation> = Vec::new();
        let mut i: usize = 0;
        assert(ts.subrange(0, 0) =~= Seq::<Seq<char>>::empty());
        while i < tags.len()
            invariant
                i <= tags@.len(),
                revs == revocation_views(self.revocations@),
                ts == string_views(tags@),
                revocation_views(out@) == tags_revocations(revs, ts.subrange(0, i as int)),
            decreases tags@.len() - i,
        {
            assert(ts.subrange(0, i + 1).drop_last() =~= ts.subrange(0, i as int));
            assert(ts.subrange(0, i + 1).last() == tags@[i as int]@);
            let ghost base = revocation_views(out@);
            let t = &tags[i];
            let mut j: usize = 0;
            assert(revs.subrange(0, 0) =~= Seq::<RevocationView>::empty());
            assert(base + tag_revocations(revs.subrange(0, 0), t@) =~= base);
            while j < self.revocations.len()
                invariant
                    j <= self.revocations@.len(),
                    revs == revocation_views(self.revocations@),
                    revocation_views(out@) == base + tag_revocations(revs.subrange(0, j as int), t@),
                decreases self.revocations@.len() - j,
            {
                let rev = &self.revocations[j];
                let ghost mid = revocation_views(out@);
                let ghost rtags = string_views(rev.tags@);
                let mut k: usize = 0;
                assert(rtags.subrange(0, 0) =~= Seq::<Seq<char>>::empty());
                assert(mid + Seq::new(occurrences(rtags.subrange(0, 0), t@), |x: int| rev@) =~= mid);
                while k < rev.tags.len()
                    invariant
                        k <= rev.tags@.len(),
                        rtags == string_views(rev.tags@),
                        revocation_views(out@) == mid + Seq::new(occurrences(rtags.subrange(0, k as int), t@), |x: int| rev@),
                    decreases rev.tags@.len() - k,
                {
                    assert(rtags.subrange(0, k + 1).drop_last() =~= rtags.subrange(0, k as int));
                    assert(rtags.subrange(0, k + 1).last() == rev.tags@[k as int]@);
                    if rev.tags[k] == *t {
                        let ghost before = out@;
                        let ghost n = occurrences(rtags.subrange(0, k as int), t@);
                        out.push(rev.duplicate());
                        assert(revocation_views(out@) =~= revocation_views(before).push(rev@));
                        assert(Seq::new(n + 1, |x: int| rev@) =~= Seq::new(n, |x: int| rev@).push(rev@));
                        assert(revocation_views(out@) =~= mid + Seq::new(n + 1, |x: int| rev@));
                    }
                    k = k + 1;
                }
                assert(rtags.subrange(0, rtags.len() as int) =~= rtags);
                assert(revs.subrange(0, j + 1).drop_last() =~= revs.subrange(0, j as int));
                assert(revs.subrange(0, j + 1).last() == rev@);
                assert(revocation_views(out@) =~= base + tag_revocations(revs.subrange(0, j + 1), t@));
                j = j + 1;
            }
            assert(revs.subrange(0, revs.len() as int) =~= revs);
            i = i + 1;
        }
        assert(ts.subrange(0, ts.len() as int) =~= ts);
        out
    }

    /// Whether the mandate id is revoked.
    pub fn is_mandate_revoked(&self, mandate_id: &str) -> (r: bool)
        ensures
            r == self.spec_mandates().contains(mandate_id@),
    {
        let id = owned(mandate_id);
        has_label(&self.mandate_ids, &id)
    }

    /// Revokes a mandate id.
    pub fn revoke_mandate(&mut self, mandate_id: &str)
        requires
            old(self).wf(),
        ensures
            final(self).wf(),
            final(self).spec_mandates() == if old(self).spec_mandates().contains(mandate_id@) {
                old(self).spec_mandates()
            } else {
                old(self).spec_mandates().push(mandate_id@)
            },
            final(self).spec_revocations() == old(self).spec_revocations(),
            final(self).spec_last_updated() == old(self).spec_last_updated(),
    {
        let id = owned(mandate_id);
        let ghost before = self.spec_mandates();
        add_distinct(&mut self.mandate_ids, &id);
        proof {
            if !before.contains(mandate_id@) {
                let after = before.push(mandate_id@);
                assert forall|i: int, j: int| 0 <= i < after.len() && 0 <= j < after.len() && i != j implies after[i] != after[j] by {
                    if i < before.len() && j < before.len() {
                    } else if i == before.len() {
                        assert(after[j] == before[j]);
                    } else {
                        assert(after[i] == before[i]);
                    }
                }
            }
        }
    }

    /// Revokes each of the mandate ids.
    pub fn revoke_mandates(&mut self, mandate_ids: &Vec<String>)
        requires
            old(self).wf(),
        ensures
            final(self).wf(),
            forall|m: Seq<char>| #[trigger] final(self).spec_mandates().contains(m) <==> (old(self).spec_mandates().contains(m)
                || string_views(mandate_ids@).contains(m)),
            final(self).spec_revocations() == old(self).spec_revocations(),
            final(self).spec_last_updated() == old(self).spec_last_updated(),
    {
        let mut i: usize = 0;
        while i < mandate_ids.len()
            invariant
                i <= mandate_ids@.len(),
                self.wf(),
                forall|m: Seq<char>| #[trigger] self.spec_mandates().contains(m) <==> (old(self).spec_mandates().contains(m)
                    || string_views(mandate_ids@).subrange(0, i as int).contains(m)),
                self.spec_revocations() == old(self).spec_revocations(),
                self.spec_last_updated() == old(self).spec_last_updated(),
            decreases mandate_ids@.len() - i,
        {
            let ghost prev = self.spec_mandates();
            let ghost views = string_views(mandate_ids@);
            let ghost pre = views.subrange(0, i as int);
            let ghost post = views.subrange(0, i + 1);
            let ghost x = mandate_ids@[i as int]@;
            self.revoke_mandate(mandate_ids[i].as_str());
            assert(post =~= pre.push(x));
            assert forall|m: Seq<char>| #[trigger] self.spec_mandates().contains(m) <==> (old(self).spec_mandates().contains(m)
                || post.contains(m)) by {
                if post.contains(m) && !pre.contains(m) {
                    let k = choose|k: int| 0 <= k < post.len() && #[trigger] post[k] == m;
                    if k < pre.len() {
                        assert(pre[k] == m);
                    }
                }
                if pre.contains(m) {
                    let k = choose|k: int| 0 <= k < pre.len() && #[trigger] pre[k] == m;
                    assert(post[k] == m);
                }
                if self.spec_mandates().contains(m) && !prev.contains(m) {
                    assert(post[i as int] == x);
                }
                if prev.contains(m) && !prev.contains(x) {
                    let k = choose|k: int| 0 <= k < prev.len() && #[trigger] prev[k] == m;
                    assert(prev.push(x)[k] == m);
                }
                if m == x && !prev.contains(m) {
                    assert(prev.push(m)[prev.len() as int] == m);
                }
            }
            i = i + 1;
        }
        assert(string_views(mandate_ids@).subrange(0, mandate_ids@.len() as int) =~= string_views(mandate_ids@));
    }

    /// How many mandate ids are revoked.
    pub fn revoked_mandate_count(&self) -> (r: usize)
        ensures
            r == self.spec_mandates().len(),
    {
        self.mandate_ids.len()
    }

    /// The keys of one kind the cached revocations carry.
    fn collect_keys(&self, k: RevocationKey) -> (r: Vec<String>)
        ensures
            string_views(r@) == keys_of(self.spec_revocations(), k),
    {
        let ghost revs = self.spec_revocations();
        let mut out: Vec<String> = Vec::new();
        let mut i: usize = 0;
        assert(revs.subrange(0, 0) =~= Seq::<RevocationView>::empty());
        while i < self.revocations.len()
            invariant
                i <= self.revocations@.len(),
                revs == revocation_views(self.revocations@),
                string_views(out@) == keys_of(revs.subrange(0, i as int), k),
            decreases self.revocations@.len() - i,
        {
            assert(revs.subrange(0, i + 1).drop_last() =~= revs.subrange(0, i as int));
            assert(revs.subrange(0, i + 1).last() == self.revocations@[i as int]@);
            let rev = &self.revocations[i];
            let ghost before = out@;
            match k {
                RevocationKey::Principal => {
                    match &rev.principal_id {
                        Some(p) => {
                            out.push(p.clone());
                            assert(string_views(out@) =~= string_views(before).push(p@));
                        },
                        None => {},
                    }
                },
                RevocationKey::Intent => {
                    match &rev.intent_hash {
                        Some(h) => {
                            out.push(h.clone());
                            assert(string_views(out@) =~= string_views(before).push(h@));
                        },
                        None => {},
                    }
                },
                RevocationKey::Tag => {
                    let mut j: usize = 0;
                    while j < rev.tags.len()
                        invariant
                            j <= rev.tags@.len(),
                            string_views(out@) =~= string_views(before) + string_views(rev.tags@).subrange(0, j as int),
                        decreases rev.tags@.len() - j,
                    {
                        let ghost b2 = out@;
                        out.push(rev.tags[j].clone());
                        assert(string_views(out@) =~= string_views(b2).push(rev.tags@[j as int]@));
                        j = j + 1;
                    }
                    assert(string_views(rev.tags@).subrange(0, rev.tags@.len() as int) =~= string_views(rev.tags@));
                },
            }
            i = i + 1;
        }
        assert(revs.subrange(0, revs.len() as int) =~= revs);
        out
    }

    /// The counts: distinct principals, intents and tags of the cached
    /// revocations, revoked mandate ids, and the time of the last update.
    pub fn stats(&self) -> (r: RevocationCacheStats)
        ensures
            r.principal_count == distinct(principal_keys(self.spec_revocations())).len(),
            r.intent_count == distinct(intent_keys(self.spec_revocations())).len(),
            r.tag_count == distinct(tag_keys(self.spec_revocations())).len(),
            r.mandate_id_count == self.spec_mandates().len(),
            r.last_updated == self.spec_last_updated(),
    {
        let p = distinct_strings(&self.collect_keys(RevocationKey::Principal));
        let h = distinct_strings(&self.collect_keys(RevocationKey::Intent));
        let t = distinct_strings(&self.collect_keys(RevocationKey::Tag));
        RevocationCacheStats {
            principal_count: p.len(),
            intent_count: h.len(),
            tag_count: t.len(),
            mandate_id_count: self.mandate_ids.len(),
            last_updated: self.last_updated,
        }
    }

    /// The counts as a tuple: principals, intents, tags, last update.
    pub fn stats_legacy(&self) -> (r: (usize, usize, usize, Option<i64>))
        ensures
            r.0 == distinct(principal_keys(self.spec_revocations())).len(),
            r.1 == distinct(intent_keys(self.spec_revocations())).len(),
            r.2 == distinct(tag_keys(self.spec_revocations())).len(),
            r.3 == self.spec_last_updated(),
    {
        let s = self.stats();
        (s.principal_count, s.intent_count, s.tag_count, s.last_updated)
    }
}

impl Default for RevocationCache {
    fn default() -> (r: Self)
        ensures
            r.wf(),
            r.spec_revocations() == Seq::<RevocationView>::empty(),
            r.spec_mandates() == Seq::<Seq<char>>::empty(),
            r.spec_last_updated() is None,
    {
        Self::new()
    }
}

} // verus!
