//! In-memory proof ledger: records authorization decisions in a SHA-256
//! hash chain, `H(prev_hash || ":" || canonical_event_json)`, starting from
//! the genesis hash `H("predicate:genesis")`, so that tampering with a
//! recorded event is evident when the chain is verified.
use vstd::prelude::*;
use vstd::utf8::encode_utf8;

use crate::models::{reason_text, AuthorizationReason, ProofEvent};
use crate::policy::opt_view;
use crate::text::{append_chars, append_str, chars_of, decimal, decimal_chars, owned, string_from_chars};

verus! {

broadcast use vstd::string::group_string_axioms;

// ---------------------------------------------------------------------------
// Hashing and hex encoding
// ---------------------------------------------------------------------------

/// The SHA-256 digest of `data`.
pub uninterp spec fn sha256_digest(data: Seq<u8>) -> Seq<u8>;

/// `sha2::Sha256::digest`: the SHA-256 digest of `data`, 32 bytes.
#[verifier::external_body]
pub(crate) fn sha256(data: &[u8]) -> (r: Vec<u8>)
    ensures
        r@ == sha256_digest(data@),
        r@.len() == 32,
{
    <sha2::Sha256 as sha2::Digest>::digest(data).to_vec()
}

/// Lowercase hex digit for `d < 16`.
pub open spec fn hex_digit_char(d: nat) -> char {
    if d < 10 {
        ((d + '0' as nat) as u32) as char
    } else {
        ((d - 10 + 'a' as nat) as u32) as char
    }
}

/// Lowercase hex encoding: two digits per byte, high nibble first.
pub open spec fn hex_lower(data: Seq<u8>) -> Seq<char>
    decreases data.len(),
{
    if data.len() == 0 {
        Seq::empty()
    } else {
        hex_lower(data.drop_last()).push(hex_digit_char(data.last() as nat / 16)).push(
            hex_digit_char(data.last() as nat % 16),
        )
    }
}

/// `hex::encode`: lowercase hex encoding of `data`.
#[verifier::external_body]
pub(crate) fn hex_encode(data: &[u8]) -> (r: String)
    ensures
        r@ == hex_lower(data@),
{
    hex::encode(data)
}

/// The chain hash linking an event to its predecessor.
pub open spec fn chain_hash_of(prev: Seq<char>, event_json: Seq<char>) -> Seq<char> {
    hex_lower(sha256_digest(encode_utf8(prev + ":"@ + event_json)))
}

/// The genesis hash: hex of SHA-256 of "predicate:genesis".
pub open spec fn genesis_hash() -> Seq<char> {
    hex_lower(sha256_digest(encode_utf8("predicate:genesis"@)))
}

/// Computes the genesis hash.
pub fn compute_genesis_hash() -> (r: String)
    ensures
        r@ == genesis_hash(),
{
    let s = "predicate:genesis";
    let d = sha256(s.as_bytes());
    hex_encode(d.as_slice())
}

/// Computes the chain hash of an event's canonical JSON after `prev`.
pub fn compute_chain_hash(prev_hash: &str, event_json: &str) -> (r: String)
    ensures
        r@ == chain_hash_of(prev_hash@, event_json@),
{
    let mut pre: Vec<char> = Vec::new();
    append_str(&mut pre, prev_hash);
    append_str(&mut pre, ":");
    append_str(&mut pre, event_json);
    let s = string_from_chars(pre.as_slice());
    let d = sha256(s.as_str().as_bytes());
    hex_encode(d.as_slice())
}

// ---------------------------------------------------------------------------
// Canonical JSON of an event
// ---------------------------------------------------------------------------

/// JSON escape of one character, as serde_json writes strings.
pub open spec fn escape_char(c: char) -> Seq<char> {
    if c == '"' {
        seq!['\\', '"']
    } else if c == '\\' {
        seq!['\\', '\\']
    } else if c == '\u{8}' {
        seq!['\\', 'b']
    } else if c == '\u{c}' {
        seq!['\\', 'f']
    } else if c == '\n' {
        seq!['\\', 'n']
    } else if c == '\r' {
        seq!['\\', 'r']
    } else if c == '\t' {
        seq!['\\', 't']
    } else if (c as u32) < 0x20 {
        seq!['\\', 'u', '0', '0', hex_digit_char((c as u32 / 16) as nat), hex_digit_char((c as u32 % 16) as nat)]
    } else {
        seq![c]
    }
}

/// JSON escape of a text.
pub open spec fn json_escape(s: Seq<char>) -> Seq<char>
    decreases s.len(),
{
    if s.len() == 0 {
        Seq::empty()
    } else {
        json_escape(s.drop_last()) + escape_char(s.last())
    }
}

/// A JSON string literal.
pub open spec fn json_str(s: Seq<char>) -> Seq<char> {
    seq!['"'] + json_escape(s) + seq!['"']
}

/// Decimal rendering of a signed integer.
pub open spec fn signed_decimal(i: int) -> Seq<char> {
    if i < 0 {
        seq!['-'] + decimal((-i) as nat)
    } else {
        decimal(i as nat)
    }
}

/// A JSON object member `"key":value`.
pub open spec fn member(key: Seq<char>, value: Seq<char>) -> Seq<char> {
    json_str(key) + ":"@ + value
}

/// The always-present leading members of an event, with the opening brace.
pub open spec fn core_members(e: ProofEvent) -> Seq<char> {
    "{"@ + member("event_type"@, json_str(e.event_type@)) + ","@ + member(
        "principal_id"@,
        json_str(e.principal_id@),
    ) + ","@ + member("action"@, json_str(e.action@)) + ","@ + member(
        "resource"@,
        json_str(e.resource@),
    ) + ","@ + member("reason"@, json_str(reason_text(e.reason))) + ","@ + member(
        "allowed"@,
        if e.allowed {
            "true"@
        } else {
            "false"@
        },
    )
}

/// An optional string field: `,"key":"value"` when present.
pub open spec fn opt_str_field(key: Seq<char>, v: Option<String>) -> Seq<char> {
    match v {
        Some(s) => ","@ + member(key, json_str(s@)),
        None => Seq::empty(),
    }
}

/// The optional latency field.
pub open spec fn latency_field(l: Option<u64>) -> Seq<char> {
    match l {
        Some(v) => ","@ + member("latency_us"@, decimal(v as nat)),
        None => Seq::empty(),
    }
}

/// The canonical JSON of an event without its chain hash: members in
/// declaration order, absent optional members omitted.
#[verifier::opaque]
pub open spec fn event_json(e: ProofEvent) -> Seq<char> {
    core_members(e) + opt_str_field("mandate_id"@, e.mandate_id) + ","@ + member(
        "emitted_at_epoch_s"@,
        signed_decimal(e.emitted_at_epoch_s as int),
    ) + latency_field(e.latency_us) + opt_str_field("event_id"@, e.event_id) + "}"@
}

/// Appends the JSON escape of `s`.
fn push_escaped(out: &mut Vec<char>, s: &[char])
    ensures
        final(out)@ == old(out)@ + json_escape(s@),
{
    let ghost base = out@;
    let mut i: usize = 0;
    assert(s@.subrange(0, 0) =~= Seq::<char>::empty());
    while i < s.len()
        invariant
            i <= s@.len(),
            out@ == base + json_escape(s@.subrange(0, i as int)),
        decreases s@.len() - i,
    {
        let c = s[i];
        let ghost pre = out@;
        assert(s@.subrange(0, i + 1).drop_last() =~= s@.subrange(0, i as int));
        if c == '"' {
            out.push('\\');
            out.push('"');
        } else if c == '\\' {
            out.push('\\');
            out.push('\\');
        } else if c == '\u{8}' {
            out.push('\\');
            out.push('b');
        } else if c == '\u{c}' {
            out.push('\\');
            out.push('f');
        } else if c == '\n' {
            out.push('\\');
            out.push('n');
        } else if c == '\r' {
            out.push('\\');
            out.push('r');
        } else if c == '\t' {
            out.push('\\');
            out.push('t');
        } else if (c as u32) < 0x20 {
            out.push('\\');
            out.push('u');
            out.push('0');
            out.push('0');
            out.push(hex_digit((c as u32 / 16) as u8));
            out.push(hex_digit((c as u32 % 16) as u8));
        } else {
            out.push(c);
        }
        assert(out@ =~= pre + escape_char(c));
        i = i + 1;
    }
    assert(s@.subrange(0, s@.len() as int) =~= s@);
}

/// Lowercase hex digit for `d < 16`.
fn hex_digit(d: u8) -> (c: char)
    requires
        d < 16,
    ensures
        c == hex_digit_char(d as nat),
{
    if d < 10 {
        ((d as u32 + '0' as u32) as u8) as char
    } else {
        ((d as u32 - 10 + 'a' as u32) as u8) as char
    }
}

/// Appends a JSON string literal.
pub(crate) fn push_json_str(out: &mut Vec<char>, s: &str)
    ensures
        final(out)@ == old(out)@ + json_str(s@),
{
    let ghost base = out@;
    out.push('"');
    let c = chars_of(s);
    push_escaped(out, c.as_slice());
    out.push('"');
    assert(out@ =~= base + json_str(s@));
}

/// Appends `"key":` and the value text.
pub(crate) fn push_member(out: &mut Vec<char>, key: &str, value: &[char])
    ensures
        final(out)@ == old(out)@ + member(key@, value@),
{
    let ghost base = out@;
    push_json_str(out, key);
    append_str(out, ":");
    append_chars(out, value);
    assert(out@ =~= base + member(key@, value@));
}

/// Appends `"key":` and the value as a JSON string.
pub(crate) fn push_str_member(out: &mut Vec<char>, key: &str, value: &str)
    ensures
        final(out)@ == old(out)@ + member(key@, json_str(value@)),
{
    let mut v: Vec<char> = Vec::new();
    push_json_str(&mut v, value);
    assert(v@ =~= json_str(value@));
    push_member(out, key, v.as_slice());
}

/// The leading members of an event.
fn core_members_chars(e: &ProofEvent) -> (r: Vec<char>)
    ensures
        r@ == core_members(*e),
{
    let mut out: Vec<char> = Vec::new();
    append_str(&mut out, "{");
    let ghost s0 = out@;
    push_str_member(&mut out, "event_type", e.event_type.as_str());
    let ghost s1 = out@;
    append_str(&mut out, ",");
    push_str_member(&mut out, "principal_id", e.principal_id.as_str());
    let ghost s2 = out@;
    append_str(&mut out, ",");
    push_str_member(&mut out, "action", e.action.as_str());
    let ghost s3 = out@;
    append_str(&mut out, ",");
    push_str_member(&mut out, "resource", e.resource.as_str());
    let ghost s4 = out@;
    append_str(&mut out, ",");
    let reason = e.reason.to_string();
    push_str_member(&mut out, "reason", reason.as_str());
    let ghost s5 = out@;
    append_str(&mut out, ",");
    let b = if e.allowed {
        chars_of("true")
    } else {
        chars_of("false")
    };
    push_member(&mut out, "allowed", b.as_slice());
    out
}

/// Decimal rendering of a signed integer.
pub(crate) fn signed_decimal_chars(i: i64) -> (r: Vec<char>)
    ensures
        r@ == signed_decimal(i as int),
{
    if i < 0 {
        let mag: u64 = if i == i64::MIN {
            9223372036854775808u64
        } else {
            (-i) as u64
        };
        let mut out: Vec<char> = Vec::new();
        out.push('-');
        let d = decimal_chars(mag);
        append_chars(&mut out, d.as_slice());
        assert(out@ =~= seq!['-'] + decimal((-(i as int)) as nat));
        out
    } else {
        decimal_chars(i as u64)
    }
}

/// The canonical JSON of an event (its chain hash left out).
pub fn canonical_event_json(e: &ProofEvent) -> (r: String)
    ensures
        r@ == event_json(*e),
{
    let mut out = core_members_chars(e);
    let ghost a = out@;
    let mut opt: Vec<char> = Vec::new();
    match &e.mandate_id {
        Some(m) => {
            append_str(&mut opt, ",");
            push_str_member(&mut opt, "mandate_id", m.as_str());
        },
        None => {},
    }
    assert(opt@ =~= opt_str_field("mandate_id"@, e.mandate_id));
    append_chars(&mut out, opt.as_slice());
    append_str(&mut out, ",");
    let ts = signed_decimal_chars(e.emitted_at_epoch_s);
    push_member(&mut out, "emitted_at_epoch_s", ts.as_slice());
    let mut lat: Vec<char> = Vec::new();
    match e.latency_us {
        Some(l) => {
            append_str(&mut lat, ",");
            let d = decimal_chars(l);
            push_member(&mut lat, "latency_us", d.as_slice());
        },
        None => {},
    }
    assert(lat@ =~= latency_field(e.latency_us));
    append_chars(&mut out, lat.as_slice());
    let mut idf: Vec<char> = Vec::new();
    match &e.event_id {
        Some(x) => {
            append_str(&mut idf, ",");
            push_str_member(&mut idf, "event_id", x.as_str());
        },
        None => {},
    }
    assert(idf@ =~= opt_str_field("event_id"@, e.event_id));
    append_chars(&mut out, idf.as_slice());
    append_str(&mut out, "}");
    proof {
        reveal(event_json);
    }
    string_from_chars(out.as_slice())
}

/// Lemma: the canonical JSON does not depend on the chain hash.
proof fn lemma_json_ignores_chain_hash(a: ProofEvent, b: ProofEvent)
    requires
        a.event_type == b.event_type,
        a.principal_id == b.principal_id,
        a.action == b.action,
        a.resource == b.resource,
        a.reason == b.reason,
        a.allowed == b.allowed,
        a.mandate_id == b.mandate_id,
        a.emitted_at_epoch_s == b.emitted_at_epoch_s,
        a.latency_us == b.latency_us,
        a.event_id == b.event_id,
    ensures
        event_json(a) == event_json(b),
{
    reveal(event_json);
    assert(core_members(a) == core_members(b));
}

// ---------------------------------------------------------------------------
// Event identifiers and time
// ---------------------------------------------------------------------------

/// `uuid::Uuid::new_v4().as_u128()`: a random version-4 UUID as a
/// big-endian 128-bit value. Nothing is claimed of its value.
#[verifier::external_body]
pub(crate) fn random_uuid_value() -> (r: u128) {
    uuid::Uuid::new_v4().as_u128()
}

/// `chrono::Utc::now().timestamp()`: the current Unix time in seconds.
/// Nothing is claimed of its value.
#[verifier::external_body]
pub(crate) fn now_epoch_seconds() -> (r: i64) {
    chrono::Utc::now().timestamp()
}

/// `chrono::Utc::now().timestamp_millis()`: the current Unix time in
/// milliseconds. Nothing is claimed of its value.
#[verifier::external_body]
pub(crate) fn now_epoch_millis() -> (r: i64) {
    chrono::Utc::now().timestamp_millis()
}

/// The `n` low hex digits of `x`, most significant first.
pub open spec fn hex_fixed(x: nat, n: nat) -> Seq<char>
    decreases n,
{
    if n == 0 {
        Seq::empty()
    } else {
        hex_fixed(x / 16, (n - 1) as nat).push(hex_digit_char(x % 16))
    }
}

/// The event id derived from a UUID value: `evt_` and the first sixteen
/// hex digits of the UUID (its high 64 bits).
pub open spec fn event_id_text(uuid: u128) -> Seq<char> {
    "evt_"@ + hex_fixed(uuid as nat / 0x1_0000_0000_0000_0000, 16)
}

/// The `n` low hex digits of `x`.
pub(crate) fn hex_fixed_chars(x: u64, n: usize) -> (r: Vec<char>)
    requires
        n <= 16,
    ensures
        r@ == hex_fixed(x as nat, n as nat),
    decreases n,
{
    if n == 0 {
        return Vec::new();
    }
    let mut v = hex_fixed_chars(x / 16, n - 1);
    v.push(hex_digit((x % 16) as u8));
    v
}

/// The event id for a UUID value.
pub fn event_id_from_uuid(uuid: u128) -> (r: String)
    ensures
        r@ == event_id_text(uuid),
{
    let hi: u64 = (uuid / 0x1_0000_0000_0000_0000u128) as u64;
    let mut out: Vec<char> = Vec::new();
    append_str(&mut out, "evt_");
    let h = hex_fixed_chars(hi, 16);
    append_chars(&mut out, h.as_slice());
    string_from_chars(out.as_slice())
}

/// A fresh random event id: the id of some UUID value.
pub fn generate_event_id() -> (r: String)
    ensures
        exists|u: u128| r@ == #[trigger] event_id_text(u),
{
    event_id_from_uuid(random_uuid_value())
}

// ---------------------------------------------------------------------------
// Statistics
// ---------------------------------------------------------------------------

/// Statistics about authorization decisions.
#[derive(Debug, Clone)]
pub struct DecisionStats {
    pub total_allowed: u64,
    pub total_denied: u64,
    /// Denials per reason name, in order of first occurrence.
    pub denied_by_reason: Vec<(String, u64)>,
    pub total_latency_us: u64,
    pub latency_count: u64,
    pub min_latency_us: Option<u64>,
    pub max_latency_us: Option<u64>,
    pub headers_injected: u64,
    pub headers_injected_from_file: u64,
    pub env_vars_injected: u64,
    pub env_vars_injected_from_file: u64,
}

/// The denial count for a reason name: the first entry's count, else 0.
pub open spec fn reason_count(v: Seq<(String, u64)>, key: Seq<char>) -> nat
    decreases v.len(),
{
    if v.len() == 0 {
        0
    } else if v[0].0@ == key {
        v[0].1 as nat
    } else {
        reason_count(v.drop_first(), key)
    }
}

/// Sum of all per-reason counts.
pub open spec fn reason_total(v: Seq<(String, u64)>) -> nat
    decreases v.len(),
{
    if v.len() == 0 {
        0
    } else {
        v[0].1 as nat + reason_total(v.drop_first())
    }
}

impl DecisionStats {
    /// All counters zero, no latency seen.
    pub fn empty() -> (r: Self)
        ensures
            r.total_allowed == 0 && r.total_denied == 0 && r.denied_by_reason@.len() == 0,
            r.total_latency_us == 0 && r.latency_count == 0,
            r.min_latency_us is None && r.max_latency_us is None,
            r.headers_injected == 0 && r.headers_injected_from_file == 0,
            r.env_vars_injected == 0 && r.env_vars_injected_from_file == 0,
    {
        DecisionStats {
            total_allowed: 0,
            total_denied: 0,
            denied_by_reason: Vec::new(),
            total_latency_us: 0,
            latency_count: 0,
            min_latency_us: None,
            max_latency_us: None,
            headers_injected: 0,
            headers_injected_from_file: 0,
            env_vars_injected: 0,
            env_vars_injected_from_file: 0,
        }
    }

    /// Average latency in microseconds, when any latency was recorded.
    pub fn avg_latency_us(&self) -> (r: Option<u64>)
        ensures
            self.latency_count > 0 ==> r == Some((self.total_latency_us / self.latency_count) as u64),
            self.latency_count == 0 ==> r is None,
    {
        if self.latency_count > 0 {
            Some(self.total_latency_us / self.latency_count)
        } else {
            None
        }
    }

    /// A copy of the statistics.
    pub fn duplicate(&self) -> (r: Self)
        ensures
            r.total_allowed == self.total_allowed,
            r.total_denied == self.total_denied,
            r.denied_by_reason@.len() == self.denied_by_reason@.len(),
            forall|k: int| 0 <= k < r.denied_by_reason@.len() ==> (#[trigger] r.denied_by_reason@[k]).0@ == self.denied_by_reason@[k].0@ && r.denied_by_reason@[k].1 == self.denied_by_reason@[k].1,
            r.total_latency_us == self.total_latency_us,
            r.latency_count == self.latency_count,
            r.min_latency_us == self.min_latency_us,
            r.max_latency_us == self.max_latency_us,
            r.headers_injected == self.headers_injected,
            r.headers_injected_from_file == self.headers_injected_from_file,
            r.env_vars_injected == self.env_vars_injected,
            r.env_vars_injected_from_file == self.env_vars_injected_from_file,
    {
        let mut d: Vec<(String, u64)> = Vec::new();
        let mut i: usize = 0;
        while i < self.denied_by_reason.len()
            invariant
                i <= self.denied_by_reason@.len(),
                d@.len() == i,
                forall|k: int| 0 <= k < i ==> (#[trigger] d@[k]).0@ == self.denied_by_reason@[k].0@ && d@[k].1 == self.denied_by_reason@[k].1,
            decreases self.denied_by_reason@.len() - i,
        {
            d.push((self.denied_by_reason[i].0.clone(), self.denied_by_reason[i].1));
            i = i + 1;
        }
        DecisionStats {
            total_allowed: self.total_allowed,
            total_denied: self.total_denied,
            denied_by_reason: d,
            total_latency_us: self.total_latency_us,
            latency_count: self.latency_count,
            min_latency_us: self.min_latency_us,
            max_latency_us: self.max_latency_us,
            headers_injected: self.headers_injected,
            headers_injected_from_file: self.headers_injected_from_file,
            env_vars_injected: self.env_vars_injected,
            env_vars_injected_from_file: self.env_vars_injected_from_file,
        }
    }

    /// Counts one decision: allowed or denied (by reason), and its
    /// latency when one was measured.
    pub fn note_decision(&mut self, allowed: bool, reason: AuthorizationReason, latency: Option<u64>)
        requires
            old(self).total_allowed + old(self).total_denied < u64::MAX,
            reason_total(old(self).denied_by_reason@) == old(self).total_denied,
            old(self).latency_count < u64::MAX,
            latency matches Some(l) ==> old(self).total_latency_us + l <= u64::MAX,
        ensures
            allowed ==> final(self).total_allowed == old(self).total_allowed + 1
                && final(self).total_denied == old(self).total_denied,
            !allowed ==> final(self).total_denied == old(self).total_denied + 1
                && final(self).total_allowed == old(self).total_allowed
                && reason_count(final(self).denied_by_reason@, reason_text(reason))
                == reason_count(old(self).denied_by_reason@, reason_text(reason)) + 1,
            reason_total(final(self).denied_by_reason@) == final(self).total_denied,
            forall|other: Seq<char>| (allowed || other != reason_text(reason)) ==>
                reason_count(final(self).denied_by_reason@, other)
                == reason_count(old(self).denied_by_reason@, other),
            match latency {
                Some(l) => {
                    &&& final(self).total_latency_us == old(self).total_latency_us + l
                    &&& final(self).latency_count == old(self).latency_count + 1
                    &&& final(self).min_latency_us == Some(match old(self).min_latency_us {
                        Some(m) => if m < l { m } else { l },
                        None => l,
                    })
                    &&& final(self).max_latency_us == Some(match old(self).max_latency_us {
                        Some(m) => if m > l { m } else { l },
                        None => l,
                    })
                },
                None => {
                    &&& final(self).total_latency_us == old(self).total_latency_us
                    &&& final(self).latency_count == old(self).latency_count
                    &&& final(self).min_latency_us == old(self).min_latency_us
                    &&& final(self).max_latency_us == old(self).max_latency_us
                },
            },
            final(self).headers_injected == old(self).headers_injected,
            final(self).headers_injected_from_file == old(self).headers_injected_from_file,
            final(self).env_vars_injected == old(self).env_vars_injected,
            final(self).env_vars_injected_from_file == old(self).env_vars_injected_from_file,
    {
        if allowed {
            self.total_allowed = self.total_allowed + 1;
        } else {
            self.total_denied = self.total_denied + 1;
            let key = reason.to_string();
            bump_reason(&mut self.denied_by_reason, key);
        }
        match latency {
            Some(l) => {
                self.total_latency_us = self.total_latency_us + l;
                self.latency_count = self.latency_count + 1;
                self.min_latency_us = Some(match self.min_latency_us {
                    Some(m) => if m < l { m } else { l },
                    None => l,
                });
                self.max_latency_us = Some(match self.max_latency_us {
                    Some(m) => if m > l { m } else { l },
                    None => l,
                });
            },
            None => {},
        }
    }

    /// The denial count for a reason name.
    pub fn denied_for(&self, key: &str) -> (r: u64)
        ensures
            r as nat == reason_count(self.denied_by_reason@, key@),
    {
        let k = chars_of(key);
        let mut i: usize = 0;
        assert(self.denied_by_reason@.subrange(0, self.denied_by_reason@.len() as int) =~= self.denied_by_reason@);
        while i < self.denied_by_reason.len()
            invariant
                i <= self.denied_by_reason@.len(),
                k@ == key@,
                reason_count(self.denied_by_reason@, key@) == reason_count(self.denied_by_reason@.subrange(i as int, self.denied_by_reason@.len() as int), key@),
            decreases self.denied_by_reason@.len() - i,
        {
            let ghost tail = self.denied_by_reason@.subrange(i as int, self.denied_by_reason@.len() as int);
            assert(tail.drop_first() =~= self.denied_by_reason@.subrange(i + 1, self.denied_by_reason@.len() as int));
            let n = chars_of(self.denied_by_reason[i].0.as_str());
            if crate::text::chars_eq(n.as_slice(), k.as_slice()) {
                return self.denied_by_reason[i].1;
            }
            i = i + 1;
        }
        0
    }
}

/// Lemma: bumping the first entry of a key adds one to that key's count
/// and to the total, and leaves other keys' counts alone.
proof fn lemma_bump(v: Seq<(String, u64)>, w: Seq<(String, u64)>, i: int, key: Seq<char>)
    requires
        0 <= i < v.len(),
        v[i].0@ == key,
        forall|j: int| 0 <= j < i ==> v[j].0@ != key,
        w.len() == v.len(),
        w[i].0@ == key,
        w[i].1 == v[i].1 + 1,
        forall|j: int| 0 <= j < v.len() && j != i ==> #[trigger] w[j] == v[j],
    ensures
        reason_count(w, key) == reason_count(v, key) + 1,
        reason_total(w) == reason_total(v) + 1,
        forall|other: Seq<char>| other != key ==> reason_count(w, other) == reason_count(v, other),
    decreases i,
{
    if i == 0 {
        assert forall|j: int| 0 <= j < v.drop_first().len() implies #[trigger] w.drop_first()[j] == v.drop_first()[j] by {
            assert(w[j + 1] == v[j + 1]);
        }
        assert(w.drop_first() =~= v.drop_first());
        assert forall|other: Seq<char>| other != key implies reason_count(w, other) == reason_count(v, other) by {
            assert(w[0].0@ != other);
            assert(v[0].0@ != other);
        }
    } else {
        assert forall|j: int| 0 <= j < v.drop_first().len() && j != i - 1 implies #[trigger] w.drop_first()[j] == v.drop_first()[j] by {
            assert(w[j + 1] == v[j + 1]);
        }
        assert(w[0] == v[0]);
        assert(v[0].0@ != key);
        lemma_bump(v.drop_first(), w.drop_first(), i - 1, key);
        assert forall|other: Seq<char>| other != key implies reason_count(w, other) == reason_count(v, other) by {
            if v[0].0@ == other {
            } else {
                assert(reason_count(w.drop_first(), other) == reason_count(v.drop_first(), other));
            }
        }
    }
}

/// Lemma: appending an entry for a new key.
proof fn lemma_append_new(v: Seq<(String, u64)>, e: (String, u64), key: Seq<char>)
    requires
        e.0@ == key,
        forall|j: int| 0 <= j < v.len() ==> v[j].0@ != key,
    ensures
        reason_count(v.push(e), key) == e.1,
        reason_total(v.push(e)) == reason_total(v) + e.1,
        forall|other: Seq<char>| other != key ==> reason_count(v.push(e), other) == reason_count(v, other),
    decreases v.len(),
{
    let pushed = v.push(e);
    if v.len() > 0 {
        assert(pushed[0] == v[0]);
        assert(pushed.drop_first() =~= v.drop_first().push(e));
        lemma_append_new(v.drop_first(), e, key);
        assert(reason_total(pushed) == v[0].1 + reason_total(v.drop_first().push(e)));
        assert forall|other: Seq<char>| other != key implies reason_count(pushed, other) == reason_count(v, other) by {
            if v[0].0@ == other {
            } else {
                assert(reason_count(v.drop_first().push(e), other) == reason_count(v.drop_first(), other));
            }
        }
    } else {
        assert(pushed[0] == e);
        assert(pushed.drop_first() =~= Seq::<(String, u64)>::empty());
        assert(reason_total(pushed.drop_first()) == 0);
        assert(reason_total(v) == 0);
        assert forall|other: Seq<char>| other != key implies reason_count(pushed, other) == reason_count(v, other) by {
            assert(reason_count(pushed.drop_first(), other) == 0);
        }
    }
}

/// Lemma: a key with no entry counts zero.
proof fn lemma_absent_zero(v: Seq<(String, u64)>, key: Seq<char>)
    requires
        forall|j: int| 0 <= j < v.len() ==> v[j].0@ != key,
    ensures
        reason_count(v, key) == 0,
    decreases v.len(),
{
    if v.len() > 0 {
        assert(v[0].0@ != key);
        lemma_absent_zero(v.drop_first(), key);
    }
}

/// Lemma: the count of any key is at most the total.
proof fn lemma_count_le_total(v: Seq<(String, u64)>, key: Seq<char>)
    ensures
        reason_count(v, key) <= reason_total(v),
    decreases v.len(),
{
    if v.len() > 0 {
        lemma_count_le_total(v.drop_first(), key);
    }
}

/// Adds one denial for `key`.
fn bump_reason(v: &mut Vec<(String, u64)>, key: String)
    requires
        reason_total(old(v)@) < u64::MAX,
    ensures
        reason_count(final(v)@, key@) == reason_count(old(v)@, key@) + 1,
        reason_total(final(v)@) == reason_total(old(v)@) + 1,
        forall|other: Seq<char>| other != key@ ==> reason_count(final(v)@, other) == reason_count(old(v)@, other),
{
    let k = chars_of(key.as_str());
    let mut i: usize = 0;
    while i < v.len()
        invariant
            i <= v@.len(),
            v@ == old(v)@,
            k@ == key@,
            reason_total(old(v)@) < u64::MAX,
            forall|j: int| 0 <= j < i ==> v@[j].0@ != key@,
        decreases v@.len() - i,
    {
        let n = chars_of(v[i].0.as_str());
        if crate::text::chars_eq(n.as_slice(), k.as_slice()) {
            proof {
                lemma_count_le_total(v@, key@);
                lemma_bump_bound(v@, i as int, key@);
            }
            let count = v[i].1 + 1;
            let name = v[i].0.clone();
            let ghost before = v@;
            v.set(i, (name, count));
            proof {
                lemma_bump(before, v@, i as int, key@);
            }
            return;
        }
        i = i + 1;
    }
    proof {
        lemma_append_new(v@, (key, 1u64), key@);
        lemma_absent_zero(v@, key@);
    }
    v.push((key, 1));
}

/// Lemma: an entry's count is bounded by the total.
proof fn lemma_bump_bound(v: Seq<(String, u64)>, i: int, key: Seq<char>)
    requires
        0 <= i < v.len(),
    ensures
        v[i].1 <= reason_total(v),
    decreases i,
{
    if i > 0 {
        lemma_bump_bound(v.drop_first(), i - 1, key);
    }
}

// ---------------------------------------------------------------------------
// The ledger
// ---------------------------------------------------------------------------

/// Chain head information for verification.
#[derive(Debug, Clone)]
pub struct ChainHead {
    pub chain_hash: String,
    pub event_count: u64,
    pub last_event_id: Option<String>,
    pub last_event_timestamp: Option<i64>,
    pub genesis_hash: String,
}

/// The events chain from `start`: each one carries the hash of the
/// previous hash and its own canonical JSON.
pub open spec fn chain_ok(events: Seq<ProofEvent>, start: Seq<char>) -> bool
    decreases events.len(),
{
    if events.len() == 0 {
        true
    } else {
        match events[0].chain_hash {
            Some(h) => h@ == chain_hash_of(start, event_json(events[0])) && chain_ok(
                events.drop_first(),
                h@,
            ),
            None => false,
        }
    }
}

impl ProofEvent {
    /// A copy of the event.
    pub fn duplicate(&self) -> (r: ProofEvent)
        ensures
            r == *self,
    {
        ProofEvent {
            event_type: self.event_type.clone(),
            principal_id: self.principal_id.clone(),
            action: self.action.clone(),
            resource: self.resource.clone(),
            reason: self.reason,
            allowed: self.allowed,
            mandate_id: crate::models::clone_opt_string(&self.mandate_id),
            emitted_at_epoch_s: self.emitted_at_epoch_s,
            latency_us: self.latency_us,
            event_id: crate::models::clone_opt_string(&self.event_id),
            chain_hash: crate::models::clone_opt_string(&self.chain_hash),
        }
    }
}

/// In-memory proof ledger with a hash chain.
pub struct InMemoryProofLedger {
    events: Vec<ProofEvent>,
    stats: DecisionStats,
    chain_head: String,
    genesis_hash: String,
    base_hash: String,
    total_events: u64,
    max_events: usize,
}

impl InMemoryProofLedger {
    /// Events currently held, oldest first.
    pub closed spec fn spec_events(&self) -> Seq<ProofEvent> {
        self.events@
    }

    /// The current chain head hash.
    pub closed spec fn spec_head(&self) -> Seq<char> {
        self.chain_head@
    }

    /// The hash the oldest held event was linked to: the genesis hash
    /// until events are dropped for capacity, then the hash of the last
    /// dropped event.
    pub closed spec fn spec_base(&self) -> Seq<char> {
        self.base_hash@
    }

    /// Events recorded since creation or the last clear.
    pub closed spec fn spec_total(&self) -> nat {
        self.total_events as nat
    }

    /// Capacity before the oldest tenth is dropped.
    pub closed spec fn spec_capacity(&self) -> nat {
        self.max_events as nat
    }

    /// The statistics.
    pub closed spec fn spec_stats(&self) -> DecisionStats {
        self.stats
    }

    /// Internal consistency of the ledger.
    pub closed spec fn well_formed(&self) -> bool {
        &&& self.genesis_hash@ == genesis_hash()
        &&& (self.events@.len() == 0 ==> self.chain_head@ == genesis_hash())
        &&& (self.events@.len() > 0 ==> (self.events@.last().chain_hash matches Some(h) && h@
            == self.chain_head@))
        &&& self.events@.len() <= self.total_events
        &&& self.events@.len() <= (if self.max_events > 0 { self.max_events as nat } else { 1 })
        &&& chain_ok(self.events@, self.base_hash@)
        &&& (self.events@.len() == 0 ==> self.base_hash@ == self.chain_head@)
        &&& (self.events@.len() == self.total_events ==> self.base_hash@ == genesis_hash())
        &&& self.stats.total_allowed + self.stats.total_denied == self.total_events
        &&& reason_total(self.stats.denied_by_reason@) == self.stats.total_denied
        &&& self.stats.latency_count <= self.total_events
    }

    /// A ledger holding up to `max_events` events before dropping the
    /// oldest tenth (and at least one).
    pub fn with_capacity(max_events: usize) -> (r: Self)
        ensures
            r.well_formed(),
            r.spec_events().len() == 0,
            r.spec_total() == 0,
            r.spec_head() == genesis_hash(),
            r.spec_capacity() == max_events,
    {
        let genesis = compute_genesis_hash();
        InMemoryProofLedger {
            events: Vec::new(),
            stats: DecisionStats::empty(),
            chain_head: genesis.clone(),
            base_hash: genesis.clone(),
            genesis_hash: genesis,
            total_events: 0,
            max_events,
        }
    }

    /// A ledger with the default capacity of 10000 events.
    pub fn new() -> (r: Self)
        ensures
            r.well_formed(),
            r.spec_events().len() == 0,
            r.spec_total() == 0,
            r.spec_head() == genesis_hash(),
            r.spec_capacity() == 10000,
    {
        Self::with_capacity(10_000)
    }

    /// Records an event: fills in a fresh event id when it has none, links
    /// it into the chain, updates the statistics, and stores it (dropping
    /// the oldest tenth, and at least one, first when full).
    pub fn record(&mut self, event: ProofEvent)
        requires
            old(self).well_formed(),
            old(self).spec_total() < u64::MAX,
            event.latency_us matches Some(l) ==> old(self).spec_stats().total_latency_us + l <= u64::MAX,
        ensures
            final(self).well_formed(),
            final(self).spec_total() == old(self).spec_total() + 1,
            final(self).spec_capacity() == old(self).spec_capacity(),
            ({
                let kept = old(self).spec_events().subrange(
                    evict_count(old(self).spec_events().len(), old(self).spec_capacity()) as int,
                    old(self).spec_events().len() as int,
                );
                let stored = final(self).spec_events().last();
                &&& final(self).spec_events().len() == kept.len() + 1
                &&& final(self).spec_events().drop_last() == kept
                &&& stored.event_type@ == event.event_type@
                &&& stored.principal_id@ == event.principal_id@
                &&& stored.action@ == event.action@
                &&& stored.resource@ == event.resource@
                &&& stored.reason == event.reason
                &&& stored.allowed == event.allowed
                &&& opt_view(stored.mandate_id) == opt_view(event.mandate_id)
                &&& stored.emitted_at_epoch_s == event.emitted_at_epoch_s
                &&& stored.latency_us == event.latency_us
                &&& stored.event_id is Some
                &&& (event.event_id matches Some(x) ==> opt_view(stored.event_id) == Some(x@))
                &&& stored.chain_hash matches Some(h) && h@ == chain_hash_of(
                    old(self).spec_head(),
                    event_json(stored),
                )
                &&& final(self).spec_head() == chain_hash_of(old(self).spec_head(), event_json(stored))
            }),
            event.allowed ==> final(self).spec_stats().total_allowed == old(self).spec_stats().total_allowed + 1
                && final(self).spec_stats().total_denied == old(self).spec_stats().total_denied,
            !event.allowed ==> final(self).spec_stats().total_denied == old(self).spec_stats().total_denied + 1
                && final(self).spec_stats().total_allowed == old(self).spec_stats().total_allowed
                && reason_count(final(self).spec_stats().denied_by_reason@, reason_text(event.reason))
                == reason_count(old(self).spec_stats().denied_by_reason@, reason_text(event.reason)) + 1,
            forall|other: Seq<char>| (event.allowed || other != reason_text(event.reason)) ==>
                reason_count(final(self).spec_stats().denied_by_reason@, other)
                == reason_count(old(self).spec_stats().denied_by_reason@, other),
            match event.latency_us {
                Some(l) => {
                    &&& final(self).spec_stats().total_latency_us == old(self).spec_stats().total_latency_us + l
                    &&& final(self).spec_stats().latency_count == old(self).spec_stats().latency_count + 1
                    &&& final(self).spec_stats().min_latency_us == Some(match old(self).spec_stats().min_latency_us {
                        Some(m) => if m < l { m } else { l },
                        None => l,
                    })
                    &&& final(self).spec_stats().max_latency_us == Some(match old(self).spec_stats().max_latency_us {
                        Some(m) => if m > l { m } else { l },
                        None => l,
                    })
                },
                None => {
                    &&& final(self).spec_stats().total_latency_us == old(self).spec_stats().total_latency_us
                    &&& final(self).spec_stats().latency_count == old(self).spec_stats().latency_count
                    &&& final(self).spec_stats().min_latency_us == old(self).spec_stats().min_latency_us
                    &&& final(self).spec_stats().max_latency_us == old(self).spec_stats().max_latency_us
                },
            },
    {
        let mut event = event;
        if event.event_id.is_none() {
            event.event_id = Some(generate_event_id());
        }
        event.chain_hash = None;
        let json = canonical_event_json(&event);
        let hash = compute_chain_hash(self.chain_head.as_str(), json.as_str());
        let ghost unlinked = event;
        event.chain_hash = Some(hash.clone());
        proof {
            lemma_json_ignores_chain_hash(event, unlinked);
        }
        let ghost old_events = self.events@;
        let ghost old_head = self.chain_head@;
        let ghost old_base = self.base_hash@;
        let k = evict_count_exec(self.events.len(), self.max_events);
        if k > 0 {
            proof {
                lemma_chain_suffix(old_events, old_base, k as int);
            }
            self.base_hash = match &self.events[k - 1].chain_hash {
                Some(h) => h.clone(),
                None => self.base_hash.clone(),
            };
        }
        self.chain_head = hash;
        self.stats.note_decision(event.allowed, event.reason, event.latency_us);
        self.total_events = self.total_events + 1;
        let ghost linked = event;
        push_bounded(&mut self.events, k, event);
        proof {
            let kept = self.events@.drop_last();
            assert(self.events@ =~= kept.push(linked));
            assert(kept == old_events.subrange(k as int, old_events.len() as int));
            if k == 0 {
                assert(kept =~= old_events);
            } else {
                if kept.len() > 0 {
                    assert(kept.last() == old_events.last());
                }
            }
            lemma_chain_push(kept, self.base_hash@, old_head, linked);
        }
    }

    /// Creates and records an event from authorization parameters.
    pub fn record_decision(
        &mut self,
        principal_id: &str,
        action: &str,
        resource: &str,
        allowed: bool,
        reason: AuthorizationReason,
        mandate_id: Option<String>,
    )
        requires
            old(self).well_formed(),
            old(self).spec_total() < u64::MAX,
        ensures
            final(self).well_formed(),
            final(self).spec_total() == old(self).spec_total() + 1,
            final(self).spec_capacity() == old(self).spec_capacity(),
            ({
                let kept = old(self).spec_events().subrange(
                    evict_count(old(self).spec_events().len(), old(self).spec_capacity()) as int,
                    old(self).spec_events().len() as int,
                );
                let stored = final(self).spec_events().last();
                &&& final(self).spec_events().len() == kept.len() + 1
                &&& final(self).spec_events().drop_last() == kept
                &&& stored.event_type@ == (if allowed { "authorization_allowed"@ } else { "authorization_denied"@ })
                &&& stored.principal_id@ == principal_id@
                &&& stored.action@ == action@
                &&& stored.resource@ == resource@
                &&& stored.reason == reason
                &&& stored.allowed == allowed
                &&& opt_view(stored.mandate_id) == opt_view(mandate_id)
                &&& stored.latency_us == None::<u64>
                &&& stored.event_id is Some
                &&& final(self).spec_head() == chain_hash_of(old(self).spec_head(), event_json(stored))
            }),
            allowed ==> final(self).spec_stats().total_allowed == old(self).spec_stats().total_allowed + 1
                && final(self).spec_stats().total_denied == old(self).spec_stats().total_denied,
            !allowed ==> final(self).spec_stats().total_denied == old(self).spec_stats().total_denied + 1
                && final(self).spec_stats().total_allowed == old(self).spec_stats().total_allowed,
    {
        self.record_decision_with_latency(principal_id, action, resource, allowed, reason, mandate_id, None);
    }

    /// Creates and records an event with latency tracking, stamped with the
    /// current time.
    pub fn record_decision_with_latency(
        &mut self,
        principal_id: &str,
        action: &str,
        resource: &str,
        allowed: bool,
        reason: AuthorizationReason,
        mandate_id: Option<String>,
        latency_us: Option<u64>,
    )
        requires
            old(self).well_formed(),
            old(self).spec_total() < u64::MAX,
            latency_us matches Some(l) ==> old(self).spec_stats().total_latency_us + l <= u64::MAX,
        ensures
            final(self).well_formed(),
            final(self).spec_total() == old(self).spec_total() + 1,
            final(self).spec_capacity() == old(self).spec_capacity(),
            ({
                let kept = old(self).spec_events().subrange(
                    evict_count(old(self).spec_events().len(), old(self).spec_capacity()) as int,
                    old(self).spec_events().len() as int,
                );
                let stored = final(self).spec_events().last();
                &&& final(self).spec_events().len() == kept.len() + 1
                &&& final(self).spec_events().drop_last() == kept
                &&& stored.event_type@ == (if allowed { "authorization_allowed"@ } else { "authorization_denied"@ })
                &&& stored.principal_id@ == principal_id@
                &&& stored.action@ == action@
                &&& stored.resource@ == resource@
                &&& stored.reason == reason
                &&& stored.allowed == allowed
                &&& opt_view(stored.mandate_id) == opt_view(mandate_id)
                &&& stored.latency_us == latency_us
                &&& stored.event_id is Some
                &&& final(self).spec_head() == chain_hash_of(old(self).spec_head(), event_json(stored))
            }),
            allowed ==> final(self).spec_stats().total_allowed == old(self).spec_stats().total_allowed + 1
                && final(self).spec_stats().total_denied == old(self).spec_stats().total_denied,
            !allowed ==> final(self).spec_stats().total_denied == old(self).spec_stats().total_denied + 1
                && final(self).spec_stats().total_allowed == old(self).spec_stats().total_allowed,
    {
        let event = ProofEvent {
            event_type: if allowed {
                owned("authorization_allowed")
            } else {
                owned("authorization_denied")
            },
            principal_id: owned(principal_id),
            action: owned(action),
            resource: owned(resource),
            reason,
            allowed,
            mandate_id,
            emitted_at_epoch_s: now_epoch_seconds(),
            latency_us,
            event_id: None,
            chain_hash: None,
        };
        self.record(event);
    }

    /// A copy of the statistics.
    pub fn stats(&self) -> (r: DecisionStats)
        ensures
            r.total_allowed == self.spec_stats().total_allowed,
            r.total_denied == self.spec_stats().total_denied,
            r.total_latency_us == self.spec_stats().total_latency_us,
            r.latency_count == self.spec_stats().latency_count,
            r.min_latency_us == self.spec_stats().min_latency_us,
            r.max_latency_us == self.spec_stats().max_latency_us,
            r.headers_injected == self.spec_stats().headers_injected,
            r.headers_injected_from_file == self.spec_stats().headers_injected_from_file,
            r.env_vars_injected == self.spec_stats().env_vars_injected,
            r.env_vars_injected_from_file == self.spec_stats().env_vars_injected_from_file,
            r.denied_by_reason@.len() == self.spec_stats().denied_by_reason@.len(),
    {
        self.stats.duplicate()
    }

    /// Counts secret injections for metrics.
    pub fn record_injection(
        &mut self,
        headers_from_env: usize,
        headers_from_file: usize,
        env_vars_from_env: usize,
        env_vars_from_file: usize,
    )
        requires
            old(self).well_formed(),
            old(self).spec_stats().headers_injected + headers_from_env <= u64::MAX,
            old(self).spec_stats().headers_injected_from_file + headers_from_file <= u64::MAX,
            old(self).spec_stats().env_vars_injected + env_vars_from_env <= u64::MAX,
            old(self).spec_stats().env_vars_injected_from_file + env_vars_from_file <= u64::MAX,
        ensures
            final(self).well_formed(),
            final(self).spec_events() == old(self).spec_events(),
            final(self).spec_total() == old(self).spec_total(),
            final(self).spec_stats().headers_injected == old(self).spec_stats().headers_injected + headers_from_env,
            final(self).spec_stats().headers_injected_from_file == old(self).spec_stats().headers_injected_from_file + headers_from_file,
            final(self).spec_stats().env_vars_injected == old(self).spec_stats().env_vars_injected + env_vars_from_env,
            final(self).spec_stats().env_vars_injected_from_file == old(self).spec_stats().env_vars_injected_from_file + env_vars_from_file,
    {
        self.stats.headers_injected = self.stats.headers_injected + headers_from_env as u64;
        self.stats.headers_injected_from_file = self.stats.headers_injected_from_file + headers_from_file as u64;
        self.stats.env_vars_injected = self.stats.env_vars_injected + env_vars_from_env as u64;
        self.stats.env_vars_injected_from_file = self.stats.env_vars_injected_from_file + env_vars_from_file as u64;
    }

    /// Number of events held.
    pub fn event_count(&self) -> (r: usize)
        ensures
            r == self.spec_events().len(),
    {
        self.events.len()
    }

    /// The chain head: current hash, total events, last event's id and
    /// time, genesis hash.
    pub fn chain_head(&self) -> (r: ChainHead)
        requires
            self.well_formed(),
        ensures
            r.chain_hash@ == self.spec_head(),
            r.event_count == self.spec_total(),
            r.genesis_hash@ == genesis_hash(),
            self.spec_events().len() == 0 ==> r.last_event_id is None && r.last_event_timestamp is None,
            self.spec_events().len() > 0 ==> opt_view(r.last_event_id) == opt_view(self.spec_events().last().event_id)
                && r.last_event_timestamp == Some(self.spec_events().last().emitted_at_epoch_s),
    {
        let n = self.events.len();
        let (last_id, last_ts) = if n > 0 {
            (crate::models::clone_opt_string(&self.events[n - 1].event_id), Some(self.events[n - 1].emitted_at_epoch_s))
        } else {
            (None, None)
        };
        ChainHead {
            chain_hash: self.chain_head.clone(),
            event_count: self.total_events,
            last_event_id: last_id,
            last_event_timestamp: last_ts,
            genesis_hash: self.genesis_hash.clone(),
        }
    }

    /// Up to `limit` most recent events, newest first.
    pub fn recent_events(&self, limit: usize) -> (r: Vec<ProofEvent>)
        ensures
            r@.len() == (if limit < self.spec_events().len() { limit as nat } else { self.spec_events().len() }),
            forall|k: int| 0 <= k < r@.len() ==> #[trigger] r@[k] == self.spec_events()[self.spec_events().len() - 1 - k],
    {
        let mut out: Vec<ProofEvent> = Vec::new();
        let n = self.events.len();
        let mut k: usize = 0;
        while k < n && k < limit
            invariant
                n == self.events@.len(),
                k <= n,
                k <= limit,
                out@.len() == k,
                forall|j: int| 0 <= j < k ==> #[trigger] out@[j] == self.events@[n - 1 - j],
            decreases n - k,
        {
            out.push(self.events[n - 1 - k].duplicate());
            k = k + 1;
        }
        out
    }

    /// Verifies the hash chain of the events held, from the hash the
    /// oldest of them was linked to (the genesis hash until events are
    /// dropped for capacity): true exactly when every event carries the
    /// hash of its predecessor's hash and its own canonical JSON, which
    /// holds of every ledger changed only through its methods.
    pub fn verify_chain(&self) -> (r: bool)
        requires
            self.well_formed(),
        ensures
            r == chain_ok(self.spec_events(), self.spec_base()),
            r,
    {
        verify_event_chain(&self.events, self.base_hash.as_str())
    }

    /// Drops all events and statistics and restarts the chain at genesis.
    pub fn clear(&mut self)
        requires
            old(self).well_formed(),
        ensures
            final(self).well_formed(),
            final(self).spec_events().len() == 0,
            final(self).spec_total() == 0,
            final(self).spec_head() == genesis_hash(),
            final(self).spec_capacity() == old(self).spec_capacity(),
    {
        self.events = Vec::new();
        self.stats = DecisionStats::empty();
        self.chain_head = self.genesis_hash.clone();
        self.base_hash = self.genesis_hash.clone();
        self.total_events = 0;
    }
}

/// How many of the oldest events a store holding `len` of at most `cap`
/// drops before the next one: none while there is room; when full, a
/// tenth of the capacity, and at least one.
pub open spec fn evict_count(len: nat, cap: nat) -> nat {
    if len < cap {
        0
    } else {
        let tenth = if cap / 10 > 0 { cap / 10 } else { 1 };
        if tenth < len { tenth } else { len }
    }
}

/// Computes `evict_count`.
fn evict_count_exec(len: usize, cap: usize) -> (r: usize)
    ensures
        r == evict_count(len as nat, cap as nat),
{
    if len < cap {
        0
    } else {
        let tenth = if cap / 10 > 0 { cap / 10 } else { 1 };
        if tenth < len { tenth } else { len }
    }
}

/// Appends an event after dropping the `remove_count` oldest ones.
fn push_bounded(events: &mut Vec<ProofEvent>, remove_count: usize, event: ProofEvent)
    requires
        remove_count <= old(events)@.len(),
    ensures
        final(events)@ == old(events)@.subrange(remove_count as int, old(events)@.len() as int).push(event),
{
    let tail = events.split_off(remove_count);
    *events = tail;
    events.push(event);
}

/// Lemma: the events of a chain after the first `k` form a chain from the
/// hash of the `k`-th.
proof fn lemma_chain_suffix(events: Seq<ProofEvent>, start: Seq<char>, k: int)
    requires
        chain_ok(events, start),
        0 < k <= events.len(),
    ensures
        events[k - 1].chain_hash is Some,
        chain_ok(events.subrange(k, events.len() as int), events[k - 1].chain_hash.unwrap()@),
    decreases k,
{
    let h0 = events[0].chain_hash.unwrap();
    let rest = events.drop_first();
    if k == 1 {
        assert(rest =~= events.subrange(1, events.len() as int));
    } else {
        lemma_chain_suffix(rest, h0@, k - 1);
        assert(rest.subrange(k - 1, rest.len() as int) =~= events.subrange(k, events.len() as int));
        assert(rest[k - 2] == events[k - 1]);
    }
}

/// Whether events, oldest first, form a chain from `start`: each carries
/// the hash of its predecessor's hash (first: `start`) and its own
/// canonical JSON.
pub fn verify_event_chain(events: &Vec<ProofEvent>, start: &str) -> (r: bool)
    ensures
        r == chain_ok(events@, start@),
{
    let mut prev = owned(start);
    let mut i: usize = 0;
    assert(events@.subrange(0, events@.len() as int) =~= events@);
    while i < events.len()
        invariant
            i <= events@.len(),
            chain_ok(events@, start@) == chain_ok(events@.subrange(i as int, events@.len() as int), prev@),
        decreases events@.len() - i,
    {
        let ghost tail = events@.subrange(i as int, events@.len() as int);
        assert(tail.drop_first() =~= events@.subrange(i + 1, events@.len() as int));
        assert(tail[0] == events@[i as int]);
        let event = &events[i];
        let json = canonical_event_json(event);
        let expected = compute_chain_hash(prev.as_str(), json.as_str());
        match &event.chain_hash {
            Some(actual) => {
                if *actual != expected {
                    return false;
                }
                prev = actual.clone();
            },
            None => {
                return false;
            },
        }
        i = i + 1;
    }
    true
}

/// Lemma: appending a correctly linked event keeps a chain valid.
proof fn lemma_chain_push(events: Seq<ProofEvent>, start: Seq<char>, head: Seq<char>, e: ProofEvent)
    requires
        chain_ok(events, start),
        events.len() == 0 ==> head == start,
        events.len() > 0 ==> (events.last().chain_hash is Some && events.last().chain_hash.unwrap()@ == head),
        e.chain_hash is Some,
        e.chain_hash.unwrap()@ == chain_hash_of(head, event_json(e)),
    ensures
        chain_ok(events.push(e), start),
    decreases events.len(),
{
    let pushed = events.push(e);
    if events.len() == 0 {
        assert(pushed.drop_first() =~= Seq::<ProofEvent>::empty());
        assert(pushed[0] == e);
        assert(chain_ok(Seq::<ProofEvent>::empty(), e.chain_hash.unwrap()@));
    } else {
        let rest = events.drop_first();
        let h0 = events[0].chain_hash.unwrap();
        assert(events[0].chain_hash is Some);
        assert(chain_ok(rest, h0@));
        assert(pushed[0] == events[0]);
        assert(pushed.drop_first() =~= rest.push(e));
        if events.len() == 1 {
            assert(rest =~= Seq::<ProofEvent>::empty());
            assert(events.last() == events[0]);
        } else {
            assert(rest.last() == events.last());
        }
        lemma_chain_push(rest, h0@, head, e);
    }
}

/// While no event has been dropped for capacity, the ledger's chain
/// verifies from the genesis hash: every recorded decision is linked to
/// the one before it.
pub proof fn law_chain_verifies_while_complete(ledger: &InMemoryProofLedger)
    requires
        ledger.well_formed(),
        ledger.spec_events().len() == ledger.spec_total(),
    ensures
        chain_ok(ledger.spec_events(), genesis_hash()),
{
}

/// The events held never exceed the capacity (a ledger of capacity zero
/// still keeps the latest event), and they always chain from the hash the
/// oldest of them was linked to.
pub proof fn law_capacity_and_chain_kept(ledger: &InMemoryProofLedger)
    requires
        ledger.well_formed(),
    ensures
        ledger.spec_events().len() <= (if ledger.spec_capacity() > 0 { ledger.spec_capacity() } else { 1 }),
        chain_ok(ledger.spec_events(), ledger.spec_base()),
{
}

/// Every recorded decision is counted once, as allowed or as denied.
pub proof fn law_decisions_counted(ledger: &InMemoryProofLedger)
    requires
        ledger.well_formed(),
    ensures
        ledger.spec_stats().total_allowed + ledger.spec_stats().total_denied == ledger.spec_total(),
        reason_total(ledger.spec_stats().denied_by_reason@) == ledger.spec_stats().total_denied,
{
}


/// A ledger with room drops nothing; a full one drops the oldest tenth of
/// its capacity (rounded down), and at least one event, so it keeps at
/// least nine tenths of what it held: recording into a full ledger of
/// capacity `cap` leaves `cap - cap/10 + 1` events (`cap` when it is
/// under ten).
pub proof fn law_full_ledger_drops_a_tenth(len: nat, cap: nat)
    ensures
        len < cap ==> evict_count(len, cap) == 0,
        len == cap && cap > 0 ==> evict_count(len, cap) >= 1,
        len == cap && cap >= 10 ==> evict_count(len, cap) * 10 <= cap && cap < (evict_count(len, cap) + 1) * 10,
        len == cap && 0 < cap < 10 ==> evict_count(len, cap) == 1,
        len == cap && cap > 0 ==> (cap - evict_count(len, cap) + 1) * 10 >= cap * 9,
{
    if len == cap && cap >= 10 {
        assert((cap / 10) * 10 <= cap && cap < (cap / 10 + 1) * 10) by (nonlinear_arith)
            requires
                cap >= 10,
        ;
    }
    if len == cap && cap > 0 {
        let e = evict_count(len, cap);
        if cap >= 10 {
            assert(e * 10 <= cap);
        }
        assert((cap - e + 1) * 10 >= cap * 9) by (nonlinear_arith)
            requires
                e >= 1,
                cap >= 10 ==> e * 10 <= cap,
                cap < 10 ==> e == 1,
                cap > 0,
        ;
    }
}

}
