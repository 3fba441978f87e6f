//! Loop guard: detects an agent stuck repeating a failing request, or a
//! retry storm, by counting failures per (principal, action, resource) in
//! a bounded least-recently-used cache; after too many failures within a
//! window the request is blocked for a cooldown period.
//!
//! Times are milliseconds on the wall clock, passed in by the caller or
//! read with [`current_millis`].
use vstd::prelude::*;

use std::time::Duration;

use crate::text::{append_str, chars_of, owned, string_from_chars};

verus! {

broadcast use vstd::string::group_string_axioms;

/// One tracked request's failures: how many, and the times of the first
/// (in the current window) and of the latest.
#[derive(Debug, Clone, Copy)]
pub struct FailureEntry {
    pub count: u32,
    pub first_failure_ms: i64,
    pub last_failure_ms: i64,
}

/// The plain values of an entry.
pub open spec fn entry_view(e: FailureEntry) -> (u32, i64, i64) {
    (e.count, e.first_failure_ms, e.last_failure_ms)
}

impl FailureEntry {
    /// A first failure at `now`.
    pub fn new(now: i64) -> (r: Self)
        ensures
            entry_view(r) == (1u32, now, now),
    {
        FailureEntry { count: 1, first_failure_ms: now, last_failure_ms: now }
    }

    /// One more failure at `now` (the count saturates).
    pub fn increment(&mut self, now: i64)
        ensures
            entry_view(*final(self)) == (
                if old(self).count < u32::MAX { (old(self).count + 1) as u32 } else { u32::MAX },
                old(self).first_failure_ms,
                now,
            ),
    {
        if self.count < u32::MAX {
            self.count = self.count + 1;
        }
        self.last_failure_ms = now;
    }

    /// Whether the window started by the first failure has passed at `now`.
    pub fn is_expired(&self, window_ms: u64, now: i64) -> (r: bool)
        ensures
            r == window_passed(entry_view(*self), window_ms, now),
    {
        (now as i128 - self.first_failure_ms as i128) > window_ms as i128
    }
}

/// The window of an entry has passed at `now`.
pub open spec fn window_passed(e: (u32, i64, i64), window_ms: u64, now: i64) -> bool {
    now - e.1 > window_ms
}

// ---------------------------------------------------------------------------
// The cache (lru crate)
// ---------------------------------------------------------------------------

#[verifier::external_type_specification]
#[verifier::external_body]
#[verifier::reject_recursive_types(K)]
#[verifier::reject_recursive_types(V)]
#[verifier::reject_recursive_types(S)]
pub struct ExLruCache<K, V, S>(lru::LruCache<K, V, S>);

#[verifier::external_type_specification]
#[verifier::external_body]
pub struct ExLruHasher(lru::DefaultHasher);

/// `Duration` is `Copy`: its clone is itself.
pub assume_specification[ <Duration as Clone>::clone ](d: &Duration) -> (r: Duration)
    ensures
        r == *d,
;

/// What the cache holds, most recently used first: each key's text and
/// its entry's values.
pub uninterp spec fn lru_contents(c: lru::LruCache<String, FailureEntry>) -> Seq<(Seq<char>, (u32, i64, i64))>;

/// The capacity the cache was made with.
pub uninterp spec fn lru_capacity(c: lru::LruCache<String, FailureEntry>) -> nat;

/// The position of a key in a cache's contents (the cache holds each key
/// once).
pub open spec fn key_pos(s: Seq<(Seq<char>, (u32, i64, i64))>, k: Seq<char>) -> Option<int>
    decreases s.len(),
{
    if s.len() == 0 {
        None
    } else if s[0].0 == k {
        Some(0)
    } else {
        match key_pos(s.drop_first(), k) {
            Some(i) => Some(i + 1),
            None => None,
        }
    }
}

/// Lemma: a key's position holds it.
proof fn lemma_key_pos(s: Seq<(Seq<char>, (u32, i64, i64))>, k: Seq<char>)
    ensures
        key_pos(s, k) matches Some(i) ==> 0 <= i < s.len() && s[i].0 == k,
    decreases s.len(),
{
    if s.len() > 0 && s[0].0 != k {
        lemma_key_pos(s.drop_first(), k);
    }
}

/// The contents after `put(k, v)`: the key moves to the front with its new
/// value; a new key enters at the front, pushing out the least recently
/// used entry when the cache is full.
pub open spec fn put_contents(s: Seq<(Seq<char>, (u32, i64, i64))>, k: Seq<char>, v: (u32, i64, i64), cap: nat) -> Seq<(Seq<char>, (u32, i64, i64))> {
    match key_pos(s, k) {
        Some(i) => seq![(k, v)] + s.remove(i),
        None => if s.len() >= cap {
            seq![(k, v)] + s.drop_last()
        } else {
            seq![(k, v)] + s
        },
    }
}

/// The contents after `get(k)`: a present key moves to the front.
pub open spec fn touch_contents(s: Seq<(Seq<char>, (u32, i64, i64))>, k: Seq<char>) -> Seq<(Seq<char>, (u32, i64, i64))> {
    match key_pos(s, k) {
        Some(i) => seq![s[i]] + s.remove(i),
        None => s,
    }
}

/// The contents after `pop(k)`: a present key leaves.
pub open spec fn pop_contents(s: Seq<(Seq<char>, (u32, i64, i64))>, k: Seq<char>) -> Seq<(Seq<char>, (u32, i64, i64))> {
    match key_pos(s, k) {
        Some(i) => s.remove(i),
        None => s,
    }
}

/// `lru::LruCache::new(NonZeroUsize::new(cap).unwrap())`: an empty cache
/// holding at most `cap` entries.
#[verifier::external_body]
fn lru_new(cap: usize) -> (r: lru::LruCache<String, FailureEntry>)
    requires
        cap > 0,
    ensures
        lru_contents(r).len() == 0,
        lru_capacity(r) == cap,
{
    lru::LruCache::new(std::num::NonZeroUsize::new(cap).unwrap())
}

/// `LruCache::put`: see [`put_contents`]. The replaced value is dropped.
#[verifier::external_body]
fn lru_put(c: &mut lru::LruCache<String, FailureEntry>, k: String, v: FailureEntry)
    ensures
        lru_contents(*final(c)) == put_contents(lru_contents(*old(c)), k@, entry_view(v), lru_capacity(*old(c))),
        lru_capacity(*final(c)) == lru_capacity(*old(c)),
{
    c.put(k, v);
}

/// `LruCache::get`: the entry of a key (moving it to the front), copied.
#[verifier::external_body]
fn lru_get(c: &mut lru::LruCache<String, FailureEntry>, k: &str) -> (r: Option<FailureEntry>)
    ensures
        match key_pos(lru_contents(*old(c)), k@) {
            Some(i) => r matches Some(e) && entry_view(e) == lru_contents(*old(c))[i].1,
            None => r is None,
        },
        lru_contents(*final(c)) == touch_contents(lru_contents(*old(c)), k@),
        lru_capacity(*final(c)) == lru_capacity(*old(c)),
{
    c.get(k).copied()
}

/// `LruCache::pop`: removes a key's entry. The removed value is dropped.
#[verifier::external_body]
fn lru_pop(c: &mut lru::LruCache<String, FailureEntry>, k: &str)
    ensures
        lru_contents(*final(c)) == pop_contents(lru_contents(*old(c)), k@),
        lru_capacity(*final(c)) == lru_capacity(*old(c)),
{
    c.pop(k);
}

/// `LruCache::len`: the number of entries.
#[verifier::external_body]
fn lru_len(c: &lru::LruCache<String, FailureEntry>) -> (r: usize)
    ensures
        r == lru_contents(*c).len(),
{
    c.len()
}

/// `LruCache::clear`: removes every entry.
#[verifier::external_body]
fn lru_clear(c: &mut lru::LruCache<String, FailureEntry>)
    ensures
        lru_contents(*final(c)).len() == 0,
        lru_capacity(*final(c)) == lru_capacity(*old(c)),
{
    c.clear();
}

/// `LruCache::iter`: the entries, most recently used first, each entry
/// copied.
#[verifier::external_body]
fn lru_entries(c: &lru::LruCache<String, FailureEntry>) -> (r: Vec<FailureEntry>)
    ensures
        r@.len() == lru_contents(*c).len(),
        forall|i: int| 0 <= i < r@.len() ==> entry_view(#[trigger] r@[i]) == lru_contents(*c)[i].1,
{
    c.iter().map(|(_, e)| *e).collect()
}

/// `std::time::Duration::as_millis`, saturated to `u64`. Nothing is
/// claimed: the library keeps durations opaque.
#[verifier::external_body]
fn duration_millis(d: &Duration) -> (r: u64) {
    u64::try_from(d.as_millis()).unwrap_or(u64::MAX)
}

/// `std::time::Duration::from_secs`. Nothing is claimed: the library
/// keeps durations opaque.
#[verifier::external_body]
fn duration_from_secs(secs: u64) -> (r: Duration) {
    Duration::from_secs(secs)
}

/// `std::time::Duration::from_millis`. Nothing is claimed: the library
/// keeps durations opaque.
#[verifier::external_body]
fn duration_from_millis(ms: u64) -> (r: Duration) {
    Duration::from_millis(ms)
}

/// The current wall-clock time in milliseconds.
pub fn current_millis() -> (r: i64) {
    crate::ledger::now_epoch_millis()
}

// ---------------------------------------------------------------------------
// The guard
// ---------------------------------------------------------------------------

/// Loop guard configuration.
#[derive(Debug, Clone)]
pub struct LoopGuardConfig {
    pub max_entries: usize,
    pub failure_threshold: u32,
    pub failure_window: Duration,
    pub cooldown_period: Duration,
}

impl LoopGuardConfig {
    /// 10,000 entries, 5 failures, a 60 s window, a 300 s cooldown.
    pub fn default_config() -> (r: Self)
        ensures
            r.max_entries == 10_000,
            r.failure_threshold == 5,
    {
        LoopGuardConfig {
            max_entries: 10_000,
            failure_threshold: 5,
            failure_window: duration_from_secs(60),
            cooldown_period: duration_from_secs(300),
        }
    }
}

impl Default for LoopGuardConfig {
    fn default() -> (r: Self)
        ensures
            r.max_entries == 10_000,
            r.failure_threshold == 5,
    {
        Self::default_config()
    }
}

/// Statistics about the loop guard.
#[derive(Debug, Clone)]
pub struct LoopGuardStats {
    pub tracked_entries: usize,
    pub blocked_entries: usize,
    pub total_failures: u32,
    pub capacity: usize,
}

/// Loop guard that tracks repeated failures and blocks a request whose
/// failures reach the threshold within the window, until the cooldown
/// after its latest failure has passed.
pub struct LoopGuard {
    cache: lru::LruCache<String, FailureEntry>,
    config: LoopGuardConfig,
    window_ms: u64,
    cooldown_ms: u64,
}

/// A character of a key field: `|` and `\\` behind a backslash, any
/// other as itself.
pub open spec fn key_escape_char(c: char) -> Seq<char> {
    if c == '|' || c == '\\' {
        seq!['\\', c]
    } else {
        seq![c]
    }
}

/// A key field with every `|` and `\\` escaped.
pub open spec fn key_escape(s: Seq<char>) -> Seq<char>
    decreases s.len(),
{
    if s.len() == 0 {
        Seq::empty()
    } else {
        key_escape(s.drop_last()) + key_escape_char(s.last())
    }
}

/// The key of a request: its three fields, escaped, joined by `|`; so
/// distinct requests have distinct keys.
pub open spec fn request_key(principal: Seq<char>, action: Seq<char>, resource: Seq<char>) -> Seq<char> {
    key_escape(principal) + seq!['|'] + key_escape(action) + seq!['|'] + key_escape(resource)
}

/// Lemma: an escaped field is its first character escaped, then the rest.
proof fn lemma_escape_front(s: Seq<char>)
    requires
        s.len() > 0,
    ensures
        key_escape(s) == key_escape_char(s[0]) + key_escape(s.drop_first()),
    decreases s.len(),
{
    if s.len() == 1 {
        assert(s.drop_last() =~= Seq::<char>::empty());
        assert(s.drop_first() =~= Seq::<char>::empty());
        assert(key_escape(s) =~= key_escape_char(s[0]) + key_escape(s.drop_first()));
    } else {
        lemma_escape_front(s.drop_last());
        assert(s.drop_last().drop_first() =~= s.drop_first().drop_last());
        assert(s.drop_first().last() == s.last());
        assert(s.drop_last()[0] == s[0]);
        assert(key_escape(s) =~= key_escape_char(s[0]) + key_escape(s.drop_first()));
    }
}

/// Lemma: an escaped field followed by a bar determines the field and
/// what follows the bar.
proof fn lemma_escape_bar(x: Seq<char>, y: Seq<char>, u: Seq<char>, v: Seq<char>)
    requires
        key_escape(x) + (seq!['|'] + u) == key_escape(y) + (seq!['|'] + v),
    ensures
        x == y,
        u == v,
    decreases x.len() + y.len(),
{
    let l = key_escape(x) + (seq!['|'] + u);
    let r = key_escape(y) + (seq!['|'] + v);
    if x.len() == 0 && y.len() == 0 {
        assert(key_escape(x) =~= Seq::<char>::empty());
        assert(key_escape(y) =~= Seq::<char>::empty());
        assert(u =~= l.subrange(1, l.len() as int));
        assert(v =~= r.subrange(1, r.len() as int));
        assert(x =~= y);
    } else if x.len() == 0 {
        assert(key_escape(x) =~= Seq::<char>::empty());
        assert(l[0] == '|');
        lemma_escape_front(y);
        let ey = key_escape_char(y[0]);
        assert(r =~= ey + (key_escape(y.drop_first()) + (seq!['|'] + v)));
        assert(r[0] == ey[0]);
    } else if y.len() == 0 {
        assert(key_escape(y) =~= Seq::<char>::empty());
        assert(r[0] == '|');
        lemma_escape_front(x);
        let ex = key_escape_char(x[0]);
        assert(l =~= ex + (key_escape(x.drop_first()) + (seq!['|'] + u)));
        assert(l[0] == ex[0]);
    } else {
        lemma_escape_front(x);
        lemma_escape_front(y);
        let ex = key_escape_char(x[0]);
        let ey = key_escape_char(y[0]);
        let lt = key_escape(x.drop_first()) + (seq!['|'] + u);
        let rt = key_escape(y.drop_first()) + (seq!['|'] + v);
        assert(l =~= ex + lt);
        assert(r =~= ey + rt);
        assert(l[0] == ex[0] && r[0] == ey[0]);
        if x[0] == '|' || x[0] == '\\' {
            assert(l[1] == ex[1] && r[1] == ey[1]);
        }
        assert(ex == ey);
        assert(x[0] == y[0]);
        assert(lt =~= l.subrange(ex.len() as int, l.len() as int));
        assert(rt =~= r.subrange(ey.len() as int, r.len() as int));
        lemma_escape_bar(x.drop_first(), y.drop_first(), u, v);
        assert(x =~= seq![x[0]] + x.drop_first());
        assert(y =~= seq![y[0]] + y.drop_first());
    }
}

/// Distinct requests have distinct keys: a key determines the
/// principal, the action and the resource.
pub proof fn law_request_key_determines_request(
    p1: Seq<char>,
    a1: Seq<char>,
    r1: Seq<char>,
    p2: Seq<char>,
    a2: Seq<char>,
    r2: Seq<char>,
)
    requires
        request_key(p1, a1, r1) == request_key(p2, a2, r2),
    ensures
        p1 == p2,
        a1 == a2,
        r1 == r2,
{
    let t1 = key_escape(a1) + (seq!['|'] + key_escape(r1));
    let t2 = key_escape(a2) + (seq!['|'] + key_escape(r2));
    assert(request_key(p1, a1, r1) =~= key_escape(p1) + (seq!['|'] + t1));
    assert(request_key(p2, a2, r2) =~= key_escape(p2) + (seq!['|'] + t2));
    lemma_escape_bar(p1, p2, t1, t2);
    lemma_escape_bar(a1, a2, key_escape(r1), key_escape(r2));
    assert(key_escape(r1) + (seq!['|'] + Seq::<char>::empty()) == key_escape(r2) + (seq!['|'] + Seq::<char>::empty()));
    lemma_escape_bar(r1, r2, Seq::<char>::empty(), Seq::<char>::empty());
}

/// Appends a key field, escaped.
fn push_escaped(out: &mut Vec<char>, s: &str)
    ensures
        final(out)@ == old(out)@ + key_escape(s@),
{
    let v = chars_of(s);
    let ghost base = out@;
    let mut i: usize = 0;
    assert(v@.subrange(0, 0) =~= Seq::<char>::empty());
    assert(base + key_escape(Seq::<char>::empty()) =~= base);
    while i < v.len()
        invariant
            i <= v@.len(),
            v@ == s@,
            out@ == base + key_escape(v@.subrange(0, i as int)),
        decreases v@.len() - i,
    {
        let c = v[i];
        let ghost before = out@;
        if c == '|' || c == '\\' {
            out.push('\\');
        }
        out.push(c);
        proof {
            assert(v@.subrange(0, i + 1).drop_last() =~= v@.subrange(0, i as int));
            assert(v@.subrange(0, i + 1).last() == c);
            assert(out@ =~= before + key_escape_char(c));
            assert(out@ =~= base + key_escape(v@.subrange(0, i + 1)));
        }
        i = i + 1;
    }
    assert(v@.subrange(0, v@.len() as int) =~= v@);
}

/// The failure count a request shows at `now`: its entry's count inside
/// the window, else zero.
pub open spec fn count_at(s: Seq<(Seq<char>, (u32, i64, i64))>, key: Seq<char>, window_ms: u64, now: i64) -> u32 {
    match key_pos(s, key) {
        Some(i) => if window_passed(s[i].1, window_ms, now) { 0 } else { s[i].1.0 },
        None => 0,
    }
}

/// Whether a request is blocked at `now`: its entry is inside the window,
/// has reached the threshold, and its latest failure is within the
/// cooldown.
pub open spec fn blocked_at(
    s: Seq<(Seq<char>, (u32, i64, i64))>,
    key: Seq<char>,
    window_ms: u64,
    threshold: u32,
    cooldown_ms: u64,
    now: i64,
) -> bool {
    match key_pos(s, key) {
        Some(i) => !window_passed(s[i].1, window_ms, now) && s[i].1.0 >= threshold && !(now - s[i].1.2
            > cooldown_ms),
        None => false,
    }
}

/// The entry a failure at `now` leaves for a request.
pub open spec fn after_failure(s: Seq<(Seq<char>, (u32, i64, i64))>, key: Seq<char>, window_ms: u64, now: i64) -> (u32, i64, i64) {
    match key_pos(s, key) {
        Some(i) => if window_passed(s[i].1, window_ms, now) {
            (1u32, now, now)
        } else {
            (if s[i].1.0 < u32::MAX { (s[i].1.0 + 1) as u32 } else { u32::MAX }, s[i].1.1, now)
        },
        None => (1u32, now, now),
    }
}

impl LoopGuard {
    /// The cache's contents, most recently used first.
    pub closed spec fn spec_contents(&self) -> Seq<(Seq<char>, (u32, i64, i64))> {
        lru_contents(self.cache)
    }

    /// The number of entries the cache can hold.
    pub closed spec fn spec_capacity(&self) -> nat {
        lru_capacity(self.cache)
    }

    /// The failure window in milliseconds.
    pub closed spec fn spec_window(&self) -> u64 {
        self.window_ms
    }

    /// The cooldown in milliseconds.
    pub closed spec fn spec_cooldown(&self) -> u64 {
        self.cooldown_ms
    }

    /// The configured capacity.
    pub closed spec fn spec_max_entries(&self) -> usize {
        self.config.max_entries
    }

    /// The failure threshold.
    pub closed spec fn spec_threshold(&self) -> u32 {
        self.config.failure_threshold
    }

    /// A guard with the default configuration.
    pub fn new() -> (r: Self)
        ensures
            r.spec_contents().len() == 0,
            r.spec_capacity() == 10_000,
            r.spec_threshold() == 5,
    {
        Self::with_config(LoopGuardConfig::default_config())
    }

    /// A guard with the given configuration (a capacity of zero becomes
    /// 1000).
    pub fn with_config(config: LoopGuardConfig) -> (r: Self)
        ensures
            r.spec_contents().len() == 0,
            r.spec_capacity() == (if config.max_entries == 0 { 1000 } else { config.max_entries as nat }),
            r.spec_threshold() == config.failure_threshold,
    {
        let capacity = if config.max_entries == 0 { 1000 } else { config.max_entries };
        let window_ms = duration_millis(&config.failure_window);
        let cooldown_ms = duration_millis(&config.cooldown_period);
        LoopGuard { cache: lru_new(capacity), config, window_ms, cooldown_ms }
    }

    /// A guard with the given capacity, threshold and window (in
    /// milliseconds); the cooldown is five windows.
    pub fn with_params(max_entries: usize, failure_threshold: u32, failure_window_ms: u64) -> (r: Self)
        ensures
            r.spec_contents().len() == 0,
            r.spec_capacity() == (if max_entries == 0 { 1000 } else { max_entries as nat }),
            r.spec_threshold() == failure_threshold,
            r.spec_window() == failure_window_ms,
            r.spec_cooldown() == (if failure_window_ms <= u64::MAX / 5 { failure_window_ms * 5 } else { u64::MAX as int }),
    {
        let cooldown_ms: u64 = if failure_window_ms <= u64::MAX / 5 { failure_window_ms * 5 } else { u64::MAX };
        let config = LoopGuardConfig {
            max_entries,
            failure_threshold,
            failure_window: duration_from_millis(failure_window_ms),
            cooldown_period: duration_from_millis(cooldown_ms),
        };
        let capacity = if max_entries == 0 { 1000 } else { max_entries };
        LoopGuard { cache: lru_new(capacity), config, window_ms: failure_window_ms, cooldown_ms }
    }

    /// The key of a request.
    fn make_key(principal: &str, action: &str, resource: &str) -> (r: String)
        ensures
            r@ == request_key(principal@, action@, resource@),
    {
        let mut k: Vec<char> = Vec::new();
        push_escaped(&mut k, principal);
        k.push('|');
        push_escaped(&mut k, action);
        k.push('|');
        push_escaped(&mut k, resource);
        string_from_chars(k.as_slice())
    }

    /// Records a failure of a request at `now`: a new entry, one more
    /// failure in the window, or a fresh window once it has passed.
    pub fn record_failure_at(&mut self, principal: &str, action: &str, resource: &str, now: i64)
        ensures
            ({
                let key = request_key(principal@, action@, resource@);
                final(self).spec_contents() == put_contents(
                    old(self).spec_contents(),
                    key,
                    after_failure(old(self).spec_contents(), key, old(self).spec_window(), now),
                    old(self).spec_capacity(),
                )
            }),
            final(self).spec_capacity() == old(self).spec_capacity(),
            final(self).spec_window() == old(self).spec_window(),
            final(self).spec_cooldown() == old(self).spec_cooldown(),
            final(self).spec_threshold() == old(self).spec_threshold(),
    {
        let key = Self::make_key(principal, action, resource);
        let ghost s0 = lru_contents(self.cache);
        match lru_get(&mut self.cache, key.as_str()) {
            Some(e) => {
                let mut entry = e;
                if entry.is_expired(self.window_ms, now) {
                    entry = FailureEntry::new(now);
                } else {
                    entry.increment(now);
                }
                proof {
                    lemma_put_after_touch(s0, key@, entry_view(entry), lru_capacity(self.cache));
                    lemma_key_pos(s0, key@);
                }
                lru_put(&mut self.cache, key, entry);
            },
            None => {
                lru_put(&mut self.cache, key, FailureEntry::new(now));
            },
        }
    }

    /// Records a failure of a request now: as `record_failure_at` does at
    /// the time the clock gave.
    pub fn record_failure(&mut self, principal: &str, action: &str, resource: &str)
        ensures
            exists|now: i64|
                final(self).spec_contents() == put_contents(
                    old(self).spec_contents(),
                    request_key(principal@, action@, resource@),
                    #[trigger] after_failure(old(self).spec_contents(), request_key(principal@, action@, resource@), old(self).spec_window(), now),
                    old(self).spec_capacity(),
                ),
            final(self).spec_capacity() == old(self).spec_capacity(),
            final(self).spec_window() == old(self).spec_window(),
            final(self).spec_cooldown() == old(self).spec_cooldown(),
            final(self).spec_threshold() == old(self).spec_threshold(),
    {
        let now = current_millis();
        self.record_failure_at(principal, action, resource, now);
    }

    /// Whether a request is blocked at `now` (looking it up marks it
    /// recently used).
    pub fn is_blocked_at(&mut self, principal: &str, action: &str, resource: &str, now: i64) -> (r: bool)
        ensures
            r == blocked_at(
                old(self).spec_contents(),
                request_key(principal@, action@, resource@),
                old(self).spec_window(),
                old(self).spec_threshold(),
                old(self).spec_cooldown(),
                now,
            ),
            final(self).spec_contents() == touch_contents(old(self).spec_contents(), request_key(principal@, action@, resource@)),
            final(self).spec_capacity() == old(self).spec_capacity(),
            final(self).spec_window() == old(self).spec_window(),
            final(self).spec_cooldown() == old(self).spec_cooldown(),
            final(self).spec_threshold() == old(self).spec_threshold(),
    {
        let key = Self::make_key(principal, action, resource);
        match lru_get(&mut self.cache, key.as_str()) {
            Some(entry) => {
                if entry.is_expired(self.window_ms, now) {
                    return false;
                }
                if entry.count >= self.config.failure_threshold {
                    let cooldown_expired = (now as i128 - entry.last_failure_ms as i128) > self.cooldown_ms as i128;
                    return !cooldown_expired;
                }
                false
            },
            None => false,
        }
    }

    /// Whether a request is blocked now: as `is_blocked_at` answers at the
    /// time the clock gave.
    pub fn is_blocked(&mut self, principal: &str, action: &str, resource: &str) -> (r: bool)
        ensures
            exists|now: i64|
                r == #[trigger] blocked_at(
                    old(self).spec_contents(),
                    request_key(principal@, action@, resource@),
                    old(self).spec_window(),
                    old(self).spec_threshold(),
                    old(self).spec_cooldown(),
                    now,
                ),
            final(self).spec_contents() == touch_contents(old(self).spec_contents(), request_key(principal@, action@, resource@)),
            final(self).spec_capacity() == old(self).spec_capacity(),
            final(self).spec_window() == old(self).spec_window(),
            final(self).spec_cooldown() == old(self).spec_cooldown(),
            final(self).spec_threshold() == old(self).spec_threshold(),
    {
        let now = current_millis();
        self.is_blocked_at(principal, action, resource, now)
    }

    /// The failure count of a request at `now` (0 when untracked or its
    /// window has passed).
    pub fn failure_count_at(&mut self, principal: &str, action: &str, resource: &str, now: i64) -> (r: u32)
        ensures
            r == count_at(old(self).spec_contents(), request_key(principal@, action@, resource@), old(self).spec_window(), now),
            final(self).spec_contents() == touch_contents(old(self).spec_contents(), request_key(principal@, action@, resource@)),
            final(self).spec_capacity() == old(self).spec_capacity(),
            final(self).spec_window() == old(self).spec_window(),
            final(self).spec_cooldown() == old(self).spec_cooldown(),
            final(self).spec_threshold() == old(self).spec_threshold(),
    {
        let key = Self::make_key(principal, action, resource);
        match lru_get(&mut self.cache, key.as_str()) {
            Some(entry) => if entry.is_expired(self.window_ms, now) {
                0
            } else {
                entry.count
            },
            None => 0,
        }
    }

    /// The failure count of a request now: as `failure_count_at` counts at
    /// the time the clock gave.
    pub fn failure_count(&mut self, principal: &str, action: &str, resource: &str) -> (r: u32)
        ensures
            exists|now: i64| r == #[trigger] count_at(old(self).spec_contents(), request_key(principal@, action@, resource@), old(self).spec_window(), now),
            final(self).spec_contents() == touch_contents(old(self).spec_contents(), request_key(principal@, action@, resource@)),
            final(self).spec_capacity() == old(self).spec_capacity(),
            final(self).spec_window() == old(self).spec_window(),
            final(self).spec_cooldown() == old(self).spec_cooldown(),
            final(self).spec_threshold() == old(self).spec_threshold(),
    {
        let now = current_millis();
        self.failure_count_at(principal, action, resource, now)
    }

    /// Forgets a request's failures (after a successful authorization).
    pub fn reset(&mut self, principal: &str, action: &str, resource: &str)
        ensures
            final(self).spec_contents() == pop_contents(old(self).spec_contents(), request_key(principal@, action@, resource@)),
            final(self).spec_capacity() == old(self).spec_capacity(),
            final(self).spec_window() == old(self).spec_window(),
            final(self).spec_cooldown() == old(self).spec_cooldown(),
            final(self).spec_threshold() == old(self).spec_threshold(),
    {
        let key = Self::make_key(principal, action, resource);
        lru_pop(&mut self.cache, key.as_str());
    }

    /// The number of tracked requests.
    pub fn size(&self) -> (r: usize)
        ensures
            r == self.spec_contents().len(),
    {
        lru_len(&self.cache)
    }

    /// Forgets every request.
    pub fn clear(&mut self)
        ensures
            final(self).spec_contents().len() == 0,
            final(self).spec_capacity() == old(self).spec_capacity(),
            final(self).spec_window() == old(self).spec_window(),
            final(self).spec_cooldown() == old(self).spec_cooldown(),
            final(self).spec_threshold() == old(self).spec_threshold(),
    {
        lru_clear(&mut self.cache);
    }

    /// Statistics at `now`: tracked entries, entries at or over the
    /// threshold within their window, their failures (saturating), and
    /// the configured capacity.
    pub fn stats_at(&self, now: i64) -> (r: LoopGuardStats)
        ensures
            r.tracked_entries == self.spec_contents().len(),
            r.blocked_entries == blocked_total(self.spec_contents(), self.spec_window(), self.spec_threshold(), now),
            r.total_failures == failure_total(self.spec_contents(), self.spec_window(), now),
            r.capacity == self.spec_max_entries(),
    {
        let entries = lru_entries(&self.cache);
        let ghost s = lru_contents(self.cache);
        let mut blocked: usize = 0;
        let mut total: u32 = 0;
        let mut i: usize = 0;
        assert(s.subrange(0, 0) =~= Seq::<(Seq<char>, (u32, i64, i64))>::empty());
        while i < entries.len()
            invariant
                i <= entries@.len(),
                entries@.len() == s.len(),
                s == lru_contents(self.cache),
                forall|j: int| 0 <= j < entries@.len() ==> entry_view(#[trigger] entries@[j]) == s[j].1,
                blocked == blocked_total(s.subrange(0, i as int), self.window_ms, self.config.failure_threshold, now),
                blocked <= i,
                total == failure_total(s.subrange(0, i as int), self.window_ms, now),
            decreases entries@.len() - i,
        {
            let e = entries[i];
            assert(s.subrange(0, i + 1).drop_last() =~= s.subrange(0, i as int));
            assert(entry_view(e) == s[i as int].1);
            if !e.is_expired(self.window_ms, now) {
                total = if e.count <= u32::MAX - total { total + e.count } else { u32::MAX };
                if e.count >= self.config.failure_threshold {
                    blocked = blocked + 1;
                }
            }
            i = i + 1;
        }
        assert(s.subrange(0, s.len() as int) =~= s);
        LoopGuardStats {
            tracked_entries: lru_len(&self.cache),
            blocked_entries: blocked,
            total_failures: total,
            capacity: self.config.max_entries,
        }
    }

    /// Statistics now: as `stats_at` gives them at the time the clock gave.
    pub fn stats(&self) -> (r: LoopGuardStats)
        ensures
            r.tracked_entries == self.spec_contents().len(),
            exists|now: i64|
                r.blocked_entries == #[trigger] blocked_total(self.spec_contents(), self.spec_window(), self.spec_threshold(), now)
                && r.total_failures == failure_total(self.spec_contents(), self.spec_window(), now),
            r.capacity == self.spec_max_entries(),
    {
        let now = current_millis();
        self.stats_at(now)
    }
}

/// Entries within their window that reached the threshold.
pub open spec fn blocked_total(s: Seq<(Seq<char>, (u32, i64, i64))>, window_ms: u64, threshold: u32, now: i64) -> nat
    decreases s.len(),
{
    if s.len() == 0 {
        0
    } else {
        blocked_total(s.drop_last(), window_ms, threshold, now) + (if !window_passed(s.last().1, window_ms, now)
            && s.last().1.0 >= threshold {
            1nat
        } else {
            0nat
        })
    }
}

/// Failures of the entries within their window, saturating at `u32::MAX`.
pub open spec fn failure_total(s: Seq<(Seq<char>, (u32, i64, i64))>, window_ms: u64, now: i64) -> u32
    decreases s.len(),
{
    if s.len() == 0 {
        0
    } else {
        let prev = failure_total(s.drop_last(), window_ms, now);
        if window_passed(s.last().1, window_ms, now) {
            prev
        } else if s.last().1.0 <= u32::MAX - prev {
            (prev + s.last().1.0) as u32
        } else {
            u32::MAX
        }
    }
}

/// Lemma: putting a key after looking it up gives the same contents as
/// putting it directly.
proof fn lemma_put_after_touch(s: Seq<(Seq<char>, (u32, i64, i64))>, k: Seq<char>, v: (u32, i64, i64), cap: nat)
    requires
        key_pos(s, k) is Some,
    ensures
        put_contents(touch_contents(s, k), k, v, cap) == put_contents(s, k, v, cap),
{
    lemma_key_pos(s, k);
    let i = key_pos(s, k).unwrap();
    let t = touch_contents(s, k);
    assert(t[0] == s[i]);
    assert(key_pos(t, k) == Some(0int));
    assert(t.remove(0) =~= s.remove(i));
}


/// Each key appears at most once.
pub open spec fn distinct_keys(s: Seq<(Seq<char>, (u32, i64, i64))>) -> bool {
    forall|i: int, j: int| 0 <= i < j < s.len() ==> #[trigger] s[i].0 != #[trigger] s[j].0
}

/// Lemma: a key absent from the position search is absent everywhere.
proof fn lemma_key_pos_none(s: Seq<(Seq<char>, (u32, i64, i64))>, k: Seq<char>)
    ensures
        key_pos(s, k) is None ==> forall|j: int| 0 <= j < s.len() ==> s[j].0 != k,
        key_pos(s, k) matches Some(i) ==> forall|j: int| 0 <= j < i ==> s[j].0 != k,
    decreases s.len(),
{
    if s.len() > 0 && s[0].0 != k {
        lemma_key_pos_none(s.drop_first(), k);
        assert forall|j: int| 1 <= j < s.len() implies s[j] == s.drop_first()[j - 1] by {}
        if key_pos(s, k) is Some {
            lemma_key_pos(s, k);
            let i = key_pos(s, k).unwrap();
            assert forall|j: int| 0 <= j < i implies s[j].0 != k by {
                if j > 0 {
                    assert(s[j] == s.drop_first()[j - 1]);
                }
            }
        }
    }
}

/// After a failure is recorded, the request counts one more failure than
/// it did (a new window counts one), up to `u32::MAX`.
pub proof fn law_failure_counts_one_more(
    s: Seq<(Seq<char>, (u32, i64, i64))>,
    key: Seq<char>,
    window_ms: u64,
    cap: nat,
    now: i64,
)
    requires
        cap > 0,
    ensures
        count_at(put_contents(s, key, after_failure(s, key, window_ms, now), cap), key, window_ms, now) == (if count_at(
            s,
            key,
            window_ms,
            now,
        ) < u32::MAX {
            (count_at(s, key, window_ms, now) + 1) as u32
        } else {
            u32::MAX
        }),
{
    let v = after_failure(s, key, window_ms, now);
    let t = put_contents(s, key, v, cap);
    assert(t[0] == (key, v));
    assert(key_pos(t, key) == Some(0int));
    lemma_key_pos(s, key);
}

/// A request below the failure threshold is never blocked.
pub proof fn law_blocked_needs_threshold(
    s: Seq<(Seq<char>, (u32, i64, i64))>,
    key: Seq<char>,
    window_ms: u64,
    threshold: u32,
    cooldown_ms: u64,
    now: i64,
)
    requires
        count_at(s, key, window_ms, now) < threshold,
    ensures
        !blocked_at(s, key, window_ms, threshold, cooldown_ms, now),
{
}

/// A reset request counts no failures, when the cache holds each key once.
pub proof fn law_reset_counts_zero(s: Seq<(Seq<char>, (u32, i64, i64))>, key: Seq<char>, window_ms: u64, now: i64)
    requires
        distinct_keys(s),
    ensures
        count_at(pop_contents(s, key), key, window_ms, now) == 0,
{
    lemma_key_pos(s, key);
    let p = pop_contents(s, key);
    lemma_key_pos(p, key);
    match key_pos(s, key) {
        Some(i) => {
            if key_pos(p, key) is Some {
                let j = key_pos(p, key).unwrap();
                if j < i {
                    lemma_key_pos_none(s, key);
                    assert(p[j] == s[j]);
                } else {
                    assert(p[j] == s[j + 1]);
                    assert(s[i].0 == s[j + 1].0);
                }
            }
        },
        None => {},
    }
}

/// Recording a failure of one request leaves another's count alone while
/// the cache has room for it.
pub proof fn law_requests_tracked_separately(
    s: Seq<(Seq<char>, (u32, i64, i64))>,
    key: Seq<char>,
    other: Seq<char>,
    v: (u32, i64, i64),
    cap: nat,
    window_ms: u64,
    now: i64,
)
    requires
        key != other,
        s.len() < cap || key_pos(s, key) is Some,
    ensures
        count_at(put_contents(s, key, v, cap), other, window_ms, now) == count_at(s, other, window_ms, now),
{
    let t = put_contents(s, key, v, cap);
    let rest = t.drop_first();
    lemma_key_pos(s, key);
    lemma_key_pos(s, other);
    lemma_key_pos_none(s, other);
    match key_pos(s, key) {
        Some(i) => {
            assert(rest =~= s.remove(i));
        },
        None => {
            assert(rest =~= s);
        },
    }
    lemma_key_pos(rest, other);
    lemma_key_pos_none(rest, other);
    match key_pos(s, other) {
        Some(o) => {
            match key_pos(s, key) {
                Some(i) => {
                    let at = if o < i { o } else { o - 1 };
                    assert(rest[at] == s[o]);
                    assert(key_pos(rest, other) is Some);
                    let q = key_pos(rest, other).unwrap();
                    if q < at {
                        let sq = if q < i { q } else { q + 1 };
                        assert(rest[q] == s[sq]);
                    } else if q > at {
                        assert(rest[at].0 == other);
                    }
                },
                None => {
                    assert(rest[o] == s[o]);
                },
            }
        },
        None => {
            if key_pos(rest, other) is Some {
                let q = key_pos(rest, other).unwrap();
                match key_pos(s, key) {
                    Some(i) => {
                        let sq = if q < i { q } else { q + 1 };
                        assert(rest[q] == s[sq]);
                    },
                    None => {
                        assert(rest[q] == s[q]);
                    },
                }
            }
        },
    }
}

} // verus!
