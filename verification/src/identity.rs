//! Local identity registry: short-lived task identities, and a queue of
//! audit events awaiting their flush to the control plane. Queue items
//! expire after a time to live, and listings redact the audit-sensitive
//! payload fields unless asked not to. Keeping the registry on disk is the
//! application's part: every mutation reports whether anything changed.
use vstd::prelude::*;

use crate::bridge::sat_add;
use crate::ledger::{hex_fixed, hex_fixed_chars};
use crate::models::{reason_text, ProofEvent};
use crate::policy::opt_view;
use crate::text::{append_chars, append_str, chars_of, owned, string_from_chars};

verus! {

broadcast use vstd::string::group_string_axioms;

/// Default time to live of a task identity (15 minutes).
pub const DEFAULT_IDENTITY_TTL_SECONDS: i64 = 900;

/// Default time to live of a queue item (24 hours).
pub const DEFAULT_QUEUE_ITEM_TTL_SECONDS: i64 = 86400;

/// What replaces an audit-sensitive payload field in a redacted listing.
pub const REDACT_MARKER: &'static str = "[REDACTED - use control-plane for full audit]";

// ---------------------------------------------------------------------------
// Records
// ---------------------------------------------------------------------------

/// A task identity.
#[derive(Debug, Clone)]
pub struct TaskIdentityRecord {
    pub identity_id: String,
    pub principal_id: String,
    pub task_id: String,
    pub issued_at_epoch_s: i64,
    pub expires_at_epoch_s: i64,
    pub revoked: bool,
    pub metadata: Vec<(String, String)>,
}

/// The audit payload of a queue item: each member as present (`Some`) or
/// absent; `mandate_id` is present as a string or as `null`.
#[derive(Debug, Clone)]
pub struct QueuePayload {
    pub source: Option<String>,
    pub event_type: Option<String>,
    pub principal_id: Option<String>,
    pub action: Option<String>,
    pub resource: Option<String>,
    pub reason: Option<String>,
    pub allowed: Option<bool>,
    pub mandate_id: Option<Option<String>>,
    pub emitted_at_epoch_s: Option<i64>,
}

/// A queued audit event.
#[derive(Debug, Clone)]
pub struct LedgerQueueItem {
    pub queue_item_id: String,
    pub enqueued_at_epoch_s: i64,
    pub payload: QueuePayload,
    pub flushed: bool,
    pub flush_attempts: u32,
    pub last_error: Option<String>,
    pub flushed_at_epoch_s: Option<i64>,
    pub quarantined: bool,
    pub quarantine_reason: Option<String>,
    pub quarantined_at_epoch_s: Option<i64>,
}

/// Counts over the registry.
#[derive(Debug, Clone)]
pub struct LocalIdentityRegistryStats {
    pub total_identity_count: usize,
    pub active_identity_count: usize,
    pub pending_flush_queue_count: usize,
    pub flushed_queue_count: usize,
    pub failed_queue_count: usize,
    pub quarantined_queue_count: usize,
}

/// A copy of an optional string.
fn copy_opt(o: &Option<String>) -> (r: Option<String>)
    ensures
        r == *o,
{
    match o {
        Some(s) => Some(s.clone()),
        None => None,
    }
}

/// A copy of a list of string pairs.
fn copy_pairs(v: &Vec<(String, String)>) -> (r: Vec<(String, String)>)
    ensures
        r@ == v@,
{
    let mut out: Vec<(String, String)> = Vec::new();
    let mut i: usize = 0;
    while i < v.len()
        invariant
            i <= v@.len(),
            out@ =~= v@.subrange(0, i as int),
        decreases v@.len() - i,
    {
        out.push((v[i].0.clone(), v[i].1.clone()));
        i = i + 1;
    }
    assert(v@.subrange(0, v@.len() as int) =~= v@);
    out
}

/// Two records hold the same values.
pub open spec fn same_identity(a: TaskIdentityRecord, b: TaskIdentityRecord) -> bool {
    &&& a.identity_id == b.identity_id
    &&& a.principal_id == b.principal_id
    &&& a.task_id == b.task_id
    &&& a.issued_at_epoch_s == b.issued_at_epoch_s
    &&& a.expires_at_epoch_s == b.expires_at_epoch_s
    &&& a.revoked == b.revoked
    &&& a.metadata@ == b.metadata@
}

impl TaskIdentityRecord {
    /// A copy of the record.
    pub fn duplicate(&self) -> (r: Self)
        ensures
            same_identity(r, *self),
    {
        TaskIdentityRecord {
            identity_id: self.identity_id.clone(),
            principal_id: self.principal_id.clone(),
            task_id: self.task_id.clone(),
            issued_at_epoch_s: self.issued_at_epoch_s,
            expires_at_epoch_s: self.expires_at_epoch_s,
            revoked: self.revoked,
            metadata: copy_pairs(&self.metadata),
        }
    }

    /// Not revoked and not yet expired at `now`.
    pub open spec fn active_at(self, now: i64) -> bool {
        !self.revoked && now < self.expires_at_epoch_s
    }
}

impl QueuePayload {
    /// A copy of the payload.
    pub fn duplicate(&self) -> (r: Self)
        ensures
            r == *self,
    {
        QueuePayload {
            source: copy_opt(&self.source),
            event_type: copy_opt(&self.event_type),
            principal_id: copy_opt(&self.principal_id),
            action: copy_opt(&self.action),
            resource: copy_opt(&self.resource),
            reason: copy_opt(&self.reason),
            allowed: self.allowed,
            mandate_id: match &self.mandate_id {
                Some(m) => Some(copy_opt(m)),
                None => None,
            },
            emitted_at_epoch_s: self.emitted_at_epoch_s,
        }
    }
}

impl LedgerQueueItem {
    /// A copy of the item.
    pub fn duplicate(&self) -> (r: Self)
        ensures
            r == *self,
    {
        LedgerQueueItem {
            queue_item_id: self.queue_item_id.clone(),
            enqueued_at_epoch_s: self.enqueued_at_epoch_s,
            payload: self.payload.duplicate(),
            flushed: self.flushed,
            flush_attempts: self.flush_attempts,
            last_error: copy_opt(&self.last_error),
            flushed_at_epoch_s: self.flushed_at_epoch_s,
            quarantined: self.quarantined,
            quarantine_reason: copy_opt(&self.quarantine_reason),
            quarantined_at_epoch_s: self.quarantined_at_epoch_s,
        }
    }
}

// ---------------------------------------------------------------------------
// Identifiers
// ---------------------------------------------------------------------------

/// A prefix and the first sixteen hex digits of a UUID (its high 64 bits).
pub open spec fn uuid_id_text(prefix: Seq<char>, uuid: u128) -> Seq<char> {
    prefix + hex_fixed(uuid as nat / 0x1_0000_0000_0000_0000, 16)
}

/// The identifier made of `prefix` and a UUID value.
pub fn id_from_uuid(prefix: &str, uuid: u128) -> (r: String)
    ensures
        r@ == uuid_id_text(prefix@, uuid),
{
    let hi: u64 = (uuid / 0x1_0000_0000_0000_0000u128) as u64;
    let mut out: Vec<char> = Vec::new();
    append_str(&mut out, prefix);
    let h = hex_fixed_chars(hi, 16);
    append_chars(&mut out, h.as_slice());
    string_from_chars(out.as_slice())
}

// ---------------------------------------------------------------------------
// Views
// ---------------------------------------------------------------------------

/// The texts of string pairs.
pub open spec fn pairs_view(v: Seq<(String, String)>) -> Seq<(Seq<char>, Seq<char>)> {
    v.map_values(|p: (String, String)| (p.0@, p.1@))
}

/// A task identity as a value.
pub struct IdentityView {
    pub identity_id: Seq<char>,
    pub principal_id: Seq<char>,
    pub task_id: Seq<char>,
    pub issued_at_epoch_s: i64,
    pub expires_at_epoch_s: i64,
    pub revoked: bool,
    pub metadata: Seq<(Seq<char>, Seq<char>)>,
}

impl View for TaskIdentityRecord {
    type V = IdentityView;

    open spec fn view(&self) -> IdentityView {
        IdentityView {
            identity_id: self.identity_id@,
            principal_id: self.principal_id@,
            task_id: self.task_id@,
            issued_at_epoch_s: self.issued_at_epoch_s,
            expires_at_epoch_s: self.expires_at_epoch_s,
            revoked: self.revoked,
            metadata: pairs_view(self.metadata@),
        }
    }
}

/// A queue payload as a value.
pub struct PayloadView {
    pub source: Option<Seq<char>>,
    pub event_type: Option<Seq<char>>,
    pub principal_id: Option<Seq<char>>,
    pub action: Option<Seq<char>>,
    pub resource: Option<Seq<char>>,
    pub reason: Option<Seq<char>>,
    pub allowed: Option<bool>,
    pub mandate_id: Option<Option<Seq<char>>>,
    pub emitted_at_epoch_s: Option<i64>,
}

impl View for QueuePayload {
    type V = PayloadView;

    open spec fn view(&self) -> PayloadView {
        PayloadView {
            source: opt_view(self.source),
            event_type: opt_view(self.event_type),
            principal_id: opt_view(self.principal_id),
            action: opt_view(self.action),
            resource: opt_view(self.resource),
            reason: opt_view(self.reason),
            allowed: self.allowed,
            mandate_id: match self.mandate_id {
                Some(m) => Some(opt_view(m)),
                None => None,
            },
            emitted_at_epoch_s: self.emitted_at_epoch_s,
        }
    }
}

/// A queue item as a value.
pub struct QueueItemView {
    pub queue_item_id: Seq<char>,
    pub enqueued_at_epoch_s: i64,
    pub payload: PayloadView,
    pub flushed: bool,
    pub flush_attempts: u32,
    pub last_error: Option<Seq<char>>,
    pub flushed_at_epoch_s: Option<i64>,
    pub quarantined: bool,
    pub quarantine_reason: Option<Seq<char>>,
    pub quarantined_at_epoch_s: Option<i64>,
}

impl View for LedgerQueueItem {
    type V = QueueItemView;

    open spec fn view(&self) -> QueueItemView {
        QueueItemView {
            queue_item_id: self.queue_item_id@,
            enqueued_at_epoch_s: self.enqueued_at_epoch_s,
            payload: self.payload@,
            flushed: self.flushed,
            flush_attempts: self.flush_attempts,
            last_error: opt_view(self.last_error),
            flushed_at_epoch_s: self.flushed_at_epoch_s,
            quarantined: self.quarantined,
            quarantine_reason: opt_view(self.quarantine_reason),
            quarantined_at_epoch_s: self.quarantined_at_epoch_s,
        }
    }
}

/// The views of records.
pub open spec fn identity_views(s: Seq<TaskIdentityRecord>) -> Seq<IdentityView> {
    s.map_values(|r: TaskIdentityRecord| r@)
}

/// The views of queue items.
pub open spec fn item_views(s: Seq<LedgerQueueItem>) -> Seq<QueueItemView> {
    s.map_values(|q: LedgerQueueItem| q@)
}

/// Not revoked and not yet expired at `now`.
pub open spec fn identity_active(r: IdentityView, now: i64) -> bool {
    !r.revoked && now < r.expires_at_epoch_s
}

// ---------------------------------------------------------------------------
// Lookup by identifier
// ---------------------------------------------------------------------------

/// The first index at or after `i` whose identifier is `id`.
pub open spec fn first_from(ids: Seq<Seq<char>>, id: Seq<char>, i: int) -> Option<int>
    decreases ids.len() - i,
{
    if i < 0 || i >= ids.len() {
        None
    } else if ids[i] == id {
        Some(i)
    } else {
        first_from(ids, id, i + 1)
    }
}

/// The first index whose identifier is `id`.
pub open spec fn first_index(ids: Seq<Seq<char>>, id: Seq<char>) -> Option<int> {
    first_from(ids, id, 0)
}

/// Lemma: a found index is in range and names `id`; before it, from `i`
/// on, no identifier is `id`.
pub proof fn lemma_first_from(ids: Seq<Seq<char>>, id: Seq<char>, i: int)
    requires
        0 <= i,
    ensures
        first_from(ids, id, i) matches Some(k) ==> i <= k < ids.len() && ids[k] == id
            && forall|j: int| i <= j < k ==> ids[j] != id,
        first_from(ids, id, i) is None ==> forall|j: int| i <= j < ids.len() ==> ids[j] != id,
    decreases ids.len() - i,
{
    if i < ids.len() && ids[i] != id {
        lemma_first_from(ids, id, i + 1);
    }
}

/// The identifiers of records.
pub open spec fn identity_ids(s: Seq<IdentityView>) -> Seq<Seq<char>> {
    s.map_values(|r: IdentityView| r.identity_id)
}

/// The identifiers of queue items.
pub open spec fn queue_ids(s: Seq<QueueItemView>) -> Seq<Seq<char>> {
    s.map_values(|q: QueueItemView| q.queue_item_id)
}

/// The record stored under `id`, if any.
pub open spec fn identity_lookup(s: Seq<IdentityView>, id: Seq<char>) -> Option<IdentityView> {
    match first_index(identity_ids(s), id) {
        Some(k) => Some(s[k]),
        None => None,
    }
}

/// The identity stored under `id` is active at `now`.
pub open spec fn identity_active_in(s: Seq<IdentityView>, id: Seq<char>, now: i64) -> bool {
    identity_lookup(s, id) matches Some(rec) && identity_active(rec, now)
}

/// The item stored under `id`, if any.
pub open spec fn queue_lookup(s: Seq<QueueItemView>, id: Seq<char>) -> Option<QueueItemView> {
    match first_index(queue_ids(s), id) {
        Some(k) => Some(s[k]),
        None => None,
    }
}

/// `r` stored under its identifier: it replaces the record with that
/// identifier, or is added at the end.
pub open spec fn upsert_identity(s: Seq<IdentityView>, r: IdentityView) -> Seq<IdentityView> {
    match first_index(identity_ids(s), r.identity_id) {
        Some(k) => s.update(k, r),
        None => s.push(r),
    }
}

/// `q` stored under its identifier.
pub open spec fn upsert_item(s: Seq<QueueItemView>, q: QueueItemView) -> Seq<QueueItemView> {
    match first_index(queue_ids(s), q.queue_item_id) {
        Some(k) => s.update(k, q),
        None => s.push(q),
    }
}

/// The position of the record named `id`.
fn find_identity(s: &Vec<TaskIdentityRecord>, id: &str) -> (r: Option<usize>)
    ensures
        r matches Some(k) ==> first_index(identity_ids(identity_views(s@)), id@) == Some(k as int),
        r is None ==> first_index(identity_ids(identity_views(s@)), id@) is None,
{
    let ghost ids = identity_ids(identity_views(s@));
    let mut i: usize = 0;
    while i < s.len()
        invariant
            i <= s@.len(),
            ids == identity_ids(identity_views(s@)),
            first_index(ids, id@) == first_from(ids, id@, i as int),
        decreases s@.len() - i,
    {
        assert(ids[i as int] == s@[i as int].identity_id@);
        let key = chars_of(s[i].identity_id.as_str());
        if crate::text::eq_str(key.as_slice(), id) {
            return Some(i);
        }
        i = i + 1;
    }
    None
}

/// The position of the item named `id`.
fn find_item(s: &Vec<LedgerQueueItem>, id: &str) -> (r: Option<usize>)
    ensures
        r matches Some(k) ==> first_index(queue_ids(item_views(s@)), id@) == Some(k as int),
        r is None ==> first_index(queue_ids(item_views(s@)), id@) is None,
{
    let ghost ids = queue_ids(item_views(s@));
    let mut i: usize = 0;
    while i < s.len()
        invariant
            i <= s@.len(),
            ids == queue_ids(item_views(s@)),
            first_index(ids, id@) == first_from(ids, id@, i as int),
        decreases s@.len() - i,
    {
        assert(ids[i as int] == s@[i as int].queue_item_id@);
        let key = chars_of(s[i].queue_item_id.as_str());
        if crate::text::eq_str(key.as_slice(), id) {
            return Some(i);
        }
        i = i + 1;
    }
    None
}

// ---------------------------------------------------------------------------
// The registry: identities
// ---------------------------------------------------------------------------

/// The record, revoked.
pub open spec fn revoked_view(r: IdentityView) -> IdentityView {
    IdentityView { revoked: true, ..r }
}

/// The record as the expiry sweep at `now` leaves it.
pub open spec fn swept(r: IdentityView, now: i64) -> IdentityView {
    if !r.revoked && now >= r.expires_at_epoch_s {
        revoked_view(r)
    } else {
        r
    }
}

/// How many records the expiry sweep at `now` revokes.
pub open spec fn expiring_count(s: Seq<IdentityView>, now: i64) -> nat
    decreases s.len(),
{
    if s.len() == 0 {
        0
    } else {
        expiring_count(s.drop_last(), now) + if !s.last().revoked && now >= s.last().expires_at_epoch_s {
            1nat
        } else {
            0nat
        }
    }
}

/// The records a listing at `now` keeps, in order.
pub open spec fn listed_identities(s: Seq<IdentityView>, include_revoked: bool, include_expired: bool, now: i64) -> Seq<IdentityView>
    decreases s.len(),
{
    if s.len() == 0 {
        Seq::empty()
    } else {
        let rest = listed_identities(s.drop_last(), include_revoked, include_expired, now);
        let r = s.last();
        if (include_revoked || !r.revoked) && (include_expired || now < r.expires_at_epoch_s) {
            rest.push(r)
        } else {
            rest
        }
    }
}

/// The lifetime asked for, or the default.
pub open spec fn ttl_or(ttl_seconds: Option<i64>, default: i64) -> i64 {
    match ttl_seconds {
        Some(t) => t,
        None => default,
    }
}

/// The pairs of optional metadata.
pub open spec fn metadata_view(m: Option<Vec<(String, String)>>) -> Option<Seq<(String, String)>> {
    match m {
        Some(v) => Some(v@),
        None => None,
    }
}

/// The record issued for a principal and task at `now`.
pub open spec fn issued_identity(
    principal_id: Seq<char>,
    task_id: Seq<char>,
    ttl: i64,
    metadata: Option<Seq<(String, String)>>,
    now: i64,
    uuid: u128,
) -> IdentityView {
    IdentityView {
        identity_id: uuid_id_text("lid_"@, uuid),
        principal_id,
        task_id,
        issued_at_epoch_s: now,
        expires_at_epoch_s: sat_add(now, ttl),
        revoked: false,
        metadata: match metadata {
            Some(m) => pairs_view(m),
            None => Seq::empty(),
        },
    }
}

/// Local identity registry: task identities and the audit flush queue.
pub struct LocalIdentityRegistry {
    default_ttl_seconds: i64,
    queue_item_ttl_seconds: i64,
    identities: Vec<TaskIdentityRecord>,
    flush_queue: Vec<LedgerQueueItem>,
}

impl LocalIdentityRegistry {
    /// The default time to live of an identity.
    pub closed spec fn spec_default_ttl(&self) -> i64 {
        self.default_ttl_seconds
    }

    /// The time to live of a queue item.
    pub closed spec fn spec_queue_ttl(&self) -> i64 {
        self.queue_item_ttl_seconds
    }

    /// The identities, in the order they were first stored.
    pub closed spec fn spec_identities(&self) -> Seq<IdentityView> {
        identity_views(self.identities@)
    }

    /// The queue items, in the order they were first stored.
    pub closed spec fn spec_queue(&self) -> Seq<QueueItemView> {
        item_views(self.flush_queue@)
    }

    /// An empty registry with the given times to live (15 minutes and 24
    /// hours by default).
    pub fn new(default_ttl_seconds: Option<i64>, queue_item_ttl_seconds: Option<i64>) -> (r: Self)
        ensures
            r.spec_default_ttl() == (match default_ttl_seconds {
                Some(t) => t,
                None => DEFAULT_IDENTITY_TTL_SECONDS,
            }),
            r.spec_queue_ttl() == (match queue_item_ttl_seconds {
                Some(t) => t,
                None => DEFAULT_QUEUE_ITEM_TTL_SECONDS,
            }),
            r.spec_identities() == Seq::<IdentityView>::empty(),
            r.spec_queue() == Seq::<QueueItemView>::empty(),
    {
        let r = LocalIdentityRegistry {
            default_ttl_seconds: match default_ttl_seconds {
                Some(t) => t,
                None => DEFAULT_IDENTITY_TTL_SECONDS,
            },
            queue_item_ttl_seconds: match queue_item_ttl_seconds {
                Some(t) => t,
                None => DEFAULT_QUEUE_ITEM_TTL_SECONDS,
            },
            identities: Vec::new(),
            flush_queue: Vec::new(),
        };
        assert(r.spec_identities() =~= Seq::<IdentityView>::empty());
        assert(r.spec_queue() =~= Seq::<QueueItemView>::empty());
        r
    }

    /// Replaces the contents with records read back from storage.
    pub fn restore(&mut self, identities: Vec<TaskIdentityRecord>, flush_queue: Vec<LedgerQueueItem>)
        ensures
            final(self).spec_identities() == identity_views(identities@),
            final(self).spec_queue() == item_views(flush_queue@),
            final(self).spec_default_ttl() == old(self).spec_default_ttl(),
            final(self).spec_queue_ttl() == old(self).spec_queue_ttl(),
    {
        self.identities = identities;
        self.flush_queue = flush_queue;
    }

    /// Copies of the contents, for storage.
    pub fn snapshot(&self) -> (r: (Vec<TaskIdentityRecord>, Vec<LedgerQueueItem>))
        ensures
            identity_views(r.0@) == self.spec_identities(),
            item_views(r.1@) == self.spec_queue(),
    {
        let mut ids: Vec<TaskIdentityRecord> = Vec::new();
        let mut i: usize = 0;
        while i < self.identities.len()
            invariant
                i <= self.identities@.len(),
                identity_views(ids@) =~= identity_views(self.identities@).subrange(0, i as int),
            decreases self.identities@.len() - i,
        {
            let ghost before = ids@;
            ids.push(self.identities[i].duplicate());
            assert(identity_views(ids@) =~= identity_views(before).push(self.identities@[i as int]@));
            i = i + 1;
        }
        let mut items: Vec<LedgerQueueItem> = Vec::new();
        let mut j: usize = 0;
        while j < self.flush_queue.len()
            invariant
                j <= self.flush_queue@.len(),
                items@ =~= self.flush_queue@.subrange(0, j as int),
            decreases self.flush_queue@.len() - j,
        {
            items.push(self.flush_queue[j].duplicate());
            j = j + 1;
        }
        proof {
            assert(identity_views(self.identities@).subrange(0, self.identities@.len() as int) =~= identity_views(self.identities@));
            assert(self.flush_queue@.subrange(0, self.flush_queue@.len() as int) =~= self.flush_queue@);
        }
        (ids, items)
    }

    /// Stores a record under its identifier.
    fn store_identity(&mut self, rec: TaskIdentityRecord)
        ensures
            final(self).spec_identities() == upsert_identity(old(self).spec_identities(), rec@),
            final(self).spec_queue() == old(self).spec_queue(),
            final(self).spec_default_ttl() == old(self).spec_default_ttl(),
            final(self).spec_queue_ttl() == old(self).spec_queue_ttl(),
    {
        let ghost before = identity_views(self.identities@);
        match find_identity(&self.identities, rec.identity_id.as_str()) {
            Some(k) => {
                proof {
                    lemma_first_from(identity_ids(before), rec.identity_id@, 0);
                }
                self.identities.set(k, rec);
                assert(identity_views(self.identities@) =~= before.update(k as int, rec@));
            },
            None => {
                self.identities.push(rec);
                assert(identity_views(self.identities@) =~= before.push(rec@));
            },
        }
    }

    /// Marks the record at position `k` revoked.
    fn revoke_at(&mut self, k: usize)
        requires
            k < old(self).spec_identities().len(),
        ensures
            final(self).spec_identities() == old(self).spec_identities().update(
                k as int,
                revoked_view(old(self).spec_identities()[k as int]),
            ),
            final(self).spec_queue() == old(self).spec_queue(),
            final(self).spec_default_ttl() == old(self).spec_default_ttl(),
            final(self).spec_queue_ttl() == old(self).spec_queue_ttl(),
    {
        let ghost before = identity_views(self.identities@);
        let mut rec = self.identities.remove(k);
        rec.revoked = true;
        self.identities.insert(k, rec);
        assert(identity_views(self.identities@) =~= before.update(k as int, revoked_view(before[k as int])));
    }

    /// Issues a task identity at `now`, its identifier made from `uuid`:
    /// refused unless the time to live (`ttl_seconds`, else the default)
    /// is positive.
    pub fn issue_task_identity_at(
        &mut self,
        principal_id: &str,
        task_id: &str,
        ttl_seconds: Option<i64>,
        metadata: Option<Vec<(String, String)>>,
        now: i64,
        uuid: u128,
    ) -> (r: Result<TaskIdentityRecord, &'static str>)
        ensures
            ({
                let ttl = match ttl_seconds {
                    Some(t) => t,
                    None => old(self).spec_default_ttl(),
                };
                if ttl <= 0 {
                    &&& r matches Err(m) && m@ == "ttl_seconds must be > 0"@
                    &&& final(self).spec_identities() == old(self).spec_identities()
                } else {
                    &&& r matches Ok(rec) && rec@ == issued_identity(
                        principal_id@,
                        task_id@,
                        ttl,
                        match metadata {
                            Some(m) => Some(m@),
                            None => None,
                        },
                        now,
                        uuid,
                    ) && final(self).spec_identities() == upsert_identity(old(self).spec_identities(), rec@)
                }
            }),
            final(self).spec_queue() == old(self).spec_queue(),
            final(self).spec_default_ttl() == old(self).spec_default_ttl(),
            final(self).spec_queue_ttl() == old(self).spec_queue_ttl(),
    {
        let ttl = match ttl_seconds {
            Some(t) => t,
            None => self.default_ttl_seconds,
        };
        if ttl <= 0 {
            return Err("ttl_seconds must be > 0");
        }
        let expires = if now > i64::MAX - ttl {
            i64::MAX
        } else {
            now + ttl
        };
        let meta = match metadata {
            Some(m) => m,
            None => Vec::new(),
        };
        let record = TaskIdentityRecord {
            identity_id: id_from_uuid("lid_", uuid),
            principal_id: owned(principal_id),
            task_id: owned(task_id),
            issued_at_epoch_s: now,
            expires_at_epoch_s: expires,
            revoked: false,
            metadata: meta,
        };
        assert(pairs_view(Seq::<(String, String)>::empty()) =~= Seq::empty());
        let stored = record.duplicate();
        self.store_identity(stored);
        Ok(record)
    }

    /// Issues a task identity now, with a fresh random identifier.
    pub fn issue_task_identity(
        &mut self,
        principal_id: &str,
        task_id: &str,
        ttl_seconds: Option<i64>,
        metadata: Option<Vec<(String, String)>>,
    ) -> (r: Result<TaskIdentityRecord, &'static str>)
        ensures
            ({
                let ttl = match ttl_seconds {
                    Some(t) => t,
                    None => old(self).spec_default_ttl(),
                };
                if ttl <= 0 {
                    &&& r matches Err(m) && m@ == "ttl_seconds must be > 0"@
                    &&& final(self).spec_identities() == old(self).spec_identities()
                } else {
                    &&& r matches Ok(rec) && rec.principal_id@ == principal_id@ && rec.task_id@ == task_id@
                        && !rec.revoked && rec.expires_at_epoch_s == sat_add(rec.issued_at_epoch_s, ttl)
                        && final(self).spec_identities() == upsert_identity(old(self).spec_identities(), rec@)
                }
            }),
            r matches Ok(rec) ==> exists|now: i64, uuid: u128| rec@ == #[trigger] issued_identity(
                principal_id@,
                task_id@,
                ttl_or(ttl_seconds, old(self).spec_default_ttl()),
                metadata_view(metadata),
                now,
                uuid,
            ),
            final(self).spec_queue() == old(self).spec_queue(),
    {
        let now = crate::ledger::now_epoch_seconds();
        let uuid = crate::ledger::random_uuid_value();
        let ghost md = metadata;
        let ghost meta = match md {
            Some(m) => Some(m@),
            None => None,
        };
        let ghost ttl = match ttl_seconds {
            Some(t) => t,
            None => self.spec_default_ttl(),
        };
        let r = self.issue_task_identity_at(principal_id, task_id, ttl_seconds, metadata, now, uuid);
        proof {
            if r is Ok {
                let rec = r->Ok_0;
                assert(rec@ == issued_identity(principal_id@, task_id@, ttl, meta, now, uuid));
                assert(meta == metadata_view(md));
                assert(md == metadata);
                assert(ttl == ttl_or(ttl_seconds, self.spec_default_ttl()));
            }
        }
        r
    }

    /// Revokes the identity named `identity_id`; false when there is none.
    pub fn revoke_identity(&mut self, identity_id: &str) -> (r: bool)
        ensures
            r == identity_lookup(old(self).spec_identities(), identity_id@) is Some,
            match first_index(identity_ids(old(self).spec_identities()), identity_id@) {
                Some(k) => final(self).spec_identities() == old(self).spec_identities().update(
                    k,
                    revoked_view(old(self).spec_identities()[k]),
                ),
                None => final(self).spec_identities() == old(self).spec_identities(),
            },
            final(self).spec_queue() == old(self).spec_queue(),
            final(self).spec_default_ttl() == old(self).spec_default_ttl(),
            final(self).spec_queue_ttl() == old(self).spec_queue_ttl(),
    {
        match find_identity(&self.identities, identity_id) {
            Some(k) => {
                proof {
                    lemma_first_from(identity_ids(self.spec_identities()), identity_id@, 0);
                }
                self.revoke_at(k);
                true
            },
            None => false,
        }
    }

    /// Whether the identity named `identity_id` exists and is active at `now`.
    pub fn is_identity_active_at(&self, identity_id: &str, now: i64) -> (r: bool)
        ensures
            r == (identity_lookup(self.spec_identities(), identity_id@) matches Some(rec) && identity_active(rec, now)),
    {
        match find_identity(&self.identities, identity_id) {
            Some(k) => {
                proof {
                    lemma_first_from(identity_ids(self.spec_identities()), identity_id@, 0);
                }
                !self.identities[k].revoked && now < self.identities[k].expires_at_epoch_s
            },
            None => false,
        }
    }

    /// Whether the identity named `identity_id` exists and is active now.
    pub fn is_identity_active(&self, identity_id: &str) -> (r: bool)
        ensures
            r ==> (identity_lookup(self.spec_identities(), identity_id@) matches Some(rec) && !rec.revoked),
            exists|now: i64| r == #[trigger] identity_active_in(self.spec_identities(), identity_id@, now),
    {
        let now = crate::ledger::now_epoch_seconds();
        let r = self.is_identity_active_at(identity_id, now);
        assert(r == identity_active_in(self.spec_identities(), identity_id@, now));
        r
    }

    /// A copy of the identity named `identity_id`, if any.
    pub fn get_identity(&self, identity_id: &str) -> (r: Option<TaskIdentityRecord>)
        ensures
            match identity_lookup(self.spec_identities(), identity_id@) {
                Some(rec) => r matches Some(x) && x@ == rec,
                None => r is None,
            },
    {
        match find_identity(&self.identities, identity_id) {
            Some(k) => {
                proof {
                    lemma_first_from(identity_ids(self.spec_identities()), identity_id@, 0);
                }
                Some(self.identities[k].duplicate())
            },
            None => None,
        }
    }

    /// Copies of the identities kept by the filters at `now`, in order:
    /// revoked ones only with `include_revoked`, expired ones only with
    /// `include_expired`.
    pub fn list_identities_at(&self, include_revoked: bool, include_expired: bool, now: i64) -> (r: Vec<TaskIdentityRecord>)
        ensures
            identity_views(r@) == listed_identities(self.spec_identities(), include_revoked, include_expired, now),
    {
        let ghost all = self.spec_identities();
        let mut out: Vec<TaskIdentityRecord> = Vec::new();
        let mut i: usize = 0;
        assert(all.subrange(0, 0) =~= Seq::<IdentityView>::empty());
        while i < self.identities.len()
            invariant
                i <= self.identities@.len(),
                all == identity_views(self.identities@),
                identity_views(out@) == listed_identities(all.subrange(0, i as int), include_revoked, include_expired, now),
            decreases self.identities@.len() - i,
        {
            assert(all.subrange(0, i + 1).drop_last() =~= all.subrange(0, i as int));
            let rec = &self.identities[i];
            assert(all.subrange(0, i + 1).last() == rec@);
            if (include_revoked || !rec.revoked) && (include_expired || now < rec.expires_at_epoch_s) {
                let ghost before = out@;
                out.push(rec.duplicate());
                assert(identity_views(out@) =~= identity_views(before).push(rec@));
            }
            i = i + 1;
        }
        assert(all.subrange(0, self.identities@.len() as int) =~= all);
        out
    }

    /// Copies of the identities kept by the filters, now.
    pub fn list_identities(&self, include_revoked: bool, include_expired: bool) -> (r: Vec<TaskIdentityRecord>)
        ensures
            exists|now: i64| identity_views(r@) == #[trigger] listed_identities(self.spec_identities(), include_revoked, include_expired, now),
    {
        let now = crate::ledger::now_epoch_seconds();
        self.list_identities_at(include_revoked, include_expired, now)
    }

    /// Revokes every identity that is not revoked and has expired at `now`;
    /// the number revoked.
    pub fn expire_identities_at(&mut self, now: i64) -> (r: usize)
        ensures
            r == expiring_count(old(self).spec_identities(), now),
            final(self).spec_identities() == old(self).spec_identities().map_values(|x: IdentityView| swept(x, now)),
            final(self).spec_queue() == old(self).spec_queue(),
            final(self).spec_default_ttl() == old(self).spec_default_ttl(),
            final(self).spec_queue_ttl() == old(self).spec_queue_ttl(),
    {
        let ghost start = self.spec_identities();
        let mut count: usize = 0;
        let mut i: usize = 0;
        assert(start.subrange(0, 0) =~= Seq::<IdentityView>::empty());
        while i < self.identities.len()
            invariant
                i <= self.identities@.len(),
                self.identities@.len() == start.len(),
                count <= i,
                count == expiring_count(start.subrange(0, i as int), now),
                forall|j: int| 0 <= j < i ==> #[trigger] self.spec_identities()[j] == swept(start[j], now),
                forall|j: int| i <= j < start.len() ==> #[trigger] self.spec_identities()[j] == start[j],
                self.spec_queue() == old(self).spec_queue(),
                self.default_ttl_seconds == old(self).spec_default_ttl(),
                self.queue_item_ttl_seconds == old(self).spec_queue_ttl(),
            decreases start.len() - i,
        {
            assert(start.subrange(0, i + 1).drop_last() =~= start.subrange(0, i as int));
            assert(self.spec_identities()[i as int] == self.identities@[i as int]@);
            if !self.identities[i].revoked && now >= self.identities[i].expires_at_epoch_s {
                self.revoke_at(i);
                assert(self.identities@.len() == identity_views(self.identities@).len());
                count = count + 1;
            }
            i = i + 1;
        }
        assert(self.spec_identities() =~= start.map_values(|x: IdentityView| swept(x, now)));
        assert(start.subrange(0, start.len() as int) =~= start);
        count
    }

    /// Revokes every identity that has expired now; the number revoked.
    pub fn expire_identities(&mut self) -> (r: usize)
        ensures
            exists|now: i64| {
                &&& r == #[trigger] expiring_count(old(self).spec_identities(), now)
                &&& final(self).spec_identities() == old(self).spec_identities().map_values(|x: IdentityView| swept(x, now))
            },
            final(self).spec_queue() == old(self).spec_queue(),
    {
        let now = crate::ledger::now_epoch_seconds();
        self.expire_identities_at(now)
    }
}

// ---------------------------------------------------------------------------
// The registry: flush queue
// ---------------------------------------------------------------------------

/// The audit payload of a proof event.
pub open spec fn event_payload(e: ProofEvent) -> PayloadView {
    PayloadView {
        source: Some("predicate-authorityd"@),
        event_type: Some(e.event_type@),
        principal_id: Some(e.principal_id@),
        action: Some(e.action@),
        resource: Some(e.resource@),
        reason: Some(reason_text(e.reason)),
        allowed: Some(e.allowed),
        mandate_id: Some(opt_view(e.mandate_id)),
        emitted_at_epoch_s: Some(e.emitted_at_epoch_s),
    }
}

/// The queue item of a proof event enqueued at `now`, its identifier made
/// from `uuid`.
pub open spec fn enqueued_item(e: ProofEvent, now: i64, uuid: u128) -> QueueItemView {
    QueueItemView {
        queue_item_id: uuid_id_text("q_"@, uuid),
        enqueued_at_epoch_s: now,
        payload: event_payload(e),
        flushed: false,
        flush_attempts: 0,
        last_error: None,
        flushed_at_epoch_s: None,
        quarantined: false,
        quarantine_reason: None,
        quarantined_at_epoch_s: None,
    }
}

/// One more attempt, held at the largest count.
pub open spec fn bumped(n: u32) -> u32 {
    if n < u32::MAX {
        (n + 1) as u32
    } else {
        n
    }
}

/// The item after a successful flush at `now`.
pub open spec fn acked(q: QueueItemView, now: i64) -> QueueItemView {
    QueueItemView {
        flushed: true,
        flush_attempts: bumped(q.flush_attempts),
        last_error: None,
        flushed_at_epoch_s: Some(now),
        ..q
    }
}

/// The item after a failed flush.
pub open spec fn failed_flush(q: QueueItemView, error: Seq<char>) -> QueueItemView {
    QueueItemView { flush_attempts: bumped(q.flush_attempts), last_error: Some(error), ..q }
}

/// The item moved to the dead-letter queue at `now`.
pub open spec fn quarantined_item(q: QueueItemView, reason: Seq<char>, now: i64) -> QueueItemView {
    QueueItemView {
        quarantined: true,
        quarantine_reason: Some(reason),
        quarantined_at_epoch_s: Some(now),
        ..q
    }
}

/// The item taken back from the dead-letter queue: pending again, its
/// attempts kept or reset.
pub open spec fn requeued(q: QueueItemView, reset_attempts: bool) -> QueueItemView {
    QueueItemView {
        quarantined: false,
        quarantine_reason: None,
        quarantined_at_epoch_s: None,
        flushed: false,
        flushed_at_epoch_s: None,
        last_error: None,
        flush_attempts: if reset_attempts {
            0
        } else {
            q.flush_attempts
        },
        ..q
    }
}

/// The item has outlived the time to live at `now`.
pub open spec fn outlived(q: QueueItemView, now: i64, ttl: i64) -> bool {
    q.enqueued_at_epoch_s < now - ttl
}

/// The items that have not outlived the time to live, in order.
pub open spec fn unexpired(s: Seq<QueueItemView>, now: i64, ttl: i64) -> Seq<QueueItemView>
    decreases s.len(),
{
    if s.len() == 0 {
        Seq::empty()
    } else if outlived(s.last(), now, ttl) {
        unexpired(s.drop_last(), now, ttl)
    } else {
        unexpired(s.drop_last(), now, ttl).push(s.last())
    }
}

/// A change that leaves the identities and settings as they were.
pub open spec fn queue_only_change(a: LocalIdentityRegistry, b: LocalIdentityRegistry) -> bool {
    &&& b.spec_identities() == a.spec_identities()
    &&& b.spec_default_ttl() == a.spec_default_ttl()
    &&& b.spec_queue_ttl() == a.spec_queue_ttl()
}

/// The queue after the item named `id` is changed by `f`, or unchanged
/// when there is none.
pub open spec fn queue_changed(s: Seq<QueueItemView>, id: Seq<char>, f: spec_fn(QueueItemView) -> QueueItemView) -> Seq<QueueItemView> {
    match first_index(queue_ids(s), id) {
        Some(k) => s.update(k, f(s[k])),
        None => s,
    }
}

/// The queue after a successful flush of the item named `id` at `now`.
pub open spec fn after_ack(s: Seq<QueueItemView>, id: Seq<char>, now: i64) -> Seq<QueueItemView> {
    queue_changed(s, id, |q: QueueItemView| acked(q, now))
}

/// The queue after the item named `id` is quarantined at `now`.
pub open spec fn after_quarantine(s: Seq<QueueItemView>, id: Seq<char>, reason: Seq<char>, now: i64) -> Seq<QueueItemView> {
    queue_changed(s, id, |q: QueueItemView| quarantined_item(q, reason, now))
}

impl LocalIdentityRegistry {
    /// Replaces the item at position `k`.
    fn set_item(&mut self, k: usize, it: LedgerQueueItem)
        requires
            k < old(self).spec_queue().len(),
        ensures
            final(self).spec_queue() == old(self).spec_queue().update(k as int, it@),
            queue_only_change(*old(self), *final(self)),
    {
        let ghost before = item_views(self.flush_queue@);
        self.flush_queue.set(k, it);
        assert(item_views(self.flush_queue@) =~= before.update(k as int, it@));
    }

    /// Queues a proof event for the control plane at `now`, its identifier
    /// made from `uuid`.
    pub fn enqueue_proof_event_at(&mut self, event: &ProofEvent, now: i64, uuid: u128) -> (r: LedgerQueueItem)
        ensures
            r@ == enqueued_item(*event, now, uuid),
            final(self).spec_queue() == upsert_item(old(self).spec_queue(), r@),
            queue_only_change(*old(self), *final(self)),
    {
        let payload = QueuePayload {
            source: Some(owned("predicate-authorityd")),
            event_type: Some(event.event_type.clone()),
            principal_id: Some(event.principal_id.clone()),
            action: Some(event.action.clone()),
            resource: Some(event.resource.clone()),
            reason: Some(event.reason.to_string()),
            allowed: Some(event.allowed),
            mandate_id: Some(copy_opt(&event.mandate_id)),
            emitted_at_epoch_s: Some(event.emitted_at_epoch_s),
        };
        let item = LedgerQueueItem {
            queue_item_id: id_from_uuid("q_", uuid),
            enqueued_at_epoch_s: now,
            payload,
            flushed: false,
            flush_attempts: 0,
            last_error: None,
            flushed_at_epoch_s: None,
            quarantined: false,
            quarantine_reason: None,
            quarantined_at_epoch_s: None,
        };
        let stored = item.duplicate();
        let ghost before = item_views(self.flush_queue@);
        match find_item(&self.flush_queue, stored.queue_item_id.as_str()) {
            Some(k) => {
                proof {
                    lemma_first_from(queue_ids(before), stored.queue_item_id@, 0);
                }
                self.flush_queue.set(k, stored);
                assert(item_views(self.flush_queue@) =~= before.update(k as int, item@));
            },
            None => {
                self.flush_queue.push(stored);
                assert(item_views(self.flush_queue@) =~= before.push(item@));
            },
        }
        item
    }

    /// Queues a proof event now, with a fresh random identifier.
    pub fn enqueue_proof_event(&mut self, event: &ProofEvent) -> (r: LedgerQueueItem)
        ensures
            r@.payload == event_payload(*event),
            !r.flushed && !r.quarantined && r.flush_attempts == 0,
            exists|now: i64, uuid: u128| r@ == #[trigger] enqueued_item(*event, now, uuid),
            final(self).spec_queue() == upsert_item(old(self).spec_queue(), r@),
            queue_only_change(*old(self), *final(self)),
    {
        let now = crate::ledger::now_epoch_seconds();
        let uuid = crate::ledger::random_uuid_value();
        self.enqueue_proof_event_at(event, now, uuid)
    }

    /// Records a successful flush of the item named `queue_item_id` at
    /// `now`; false when there is none.
    pub fn mark_flush_ack_at(&mut self, queue_item_id: &str, now: i64) -> (r: bool)
        ensures
            r == queue_lookup(old(self).spec_queue(), queue_item_id@) is Some,
            final(self).spec_queue() == after_ack(old(self).spec_queue(), queue_item_id@, now),
            queue_only_change(*old(self), *final(self)),
    {
        match find_item(&self.flush_queue, queue_item_id) {
            Some(k) => {
                proof {
                    lemma_first_from(queue_ids(self.spec_queue()), queue_item_id@, 0);
                }
                let mut it = self.flush_queue[k].duplicate();
                it.flushed = true;
                it.flush_attempts = if it.flush_attempts < u32::MAX {
                    it.flush_attempts + 1
                } else {
                    it.flush_attempts
                };
                it.last_error = None;
                it.flushed_at_epoch_s = Some(now);
                self.set_item(k, it);
                true
            },
            None => false,
        }
    }

    /// Records a successful flush of the item named `queue_item_id` now.
    pub fn mark_flush_ack(&mut self, queue_item_id: &str) -> (r: bool)
        ensures
            r == queue_lookup(old(self).spec_queue(), queue_item_id@) is Some,
            exists|now: i64| #[trigger] after_ack(old(self).spec_queue(), queue_item_id@, now) == final(self).spec_queue(),
            queue_only_change(*old(self), *final(self)),
    {
        let now = crate::ledger::now_epoch_seconds();
        self.mark_flush_ack_at(queue_item_id, now)
    }

    /// Records a failed flush of the item named `queue_item_id`; false when
    /// there is none.
    pub fn mark_flush_failed(&mut self, queue_item_id: &str, error: &str) -> (r: bool)
        ensures
            r == queue_lookup(old(self).spec_queue(), queue_item_id@) is Some,
            final(self).spec_queue() == queue_changed(old(self).spec_queue(), queue_item_id@, |q: QueueItemView| failed_flush(q, error@)),
            queue_only_change(*old(self), *final(self)),
    {
        match find_item(&self.flush_queue, queue_item_id) {
            Some(k) => {
                proof {
                    lemma_first_from(queue_ids(self.spec_queue()), queue_item_id@, 0);
                }
                let mut it = self.flush_queue[k].duplicate();
                it.flush_attempts = if it.flush_attempts < u32::MAX {
                    it.flush_attempts + 1
                } else {
                    it.flush_attempts
                };
                it.last_error = Some(owned(error));
                self.set_item(k, it);
                true
            },
            None => false,
        }
    }

    /// Moves the item named `queue_item_id` to the dead-letter queue at
    /// `now`; false when there is none.
    pub fn quarantine_queue_item_at(&mut self, queue_item_id: &str, reason: &str, now: i64) -> (r: bool)
        ensures
            r == queue_lookup(old(self).spec_queue(), queue_item_id@) is Some,
            final(self).spec_queue() == after_quarantine(old(self).spec_queue(), queue_item_id@, reason@, now),
            queue_only_change(*old(self), *final(self)),
    {
        match find_item(&self.flush_queue, queue_item_id) {
            Some(k) => {
                proof {
                    lemma_first_from(queue_ids(self.spec_queue()), queue_item_id@, 0);
                }
                let mut it = self.flush_queue[k].duplicate();
                it.quarantined = true;
                it.quarantine_reason = Some(owned(reason));
                it.quarantined_at_epoch_s = Some(now);
                self.set_item(k, it);
                true
            },
            None => false,
        }
    }

    /// Moves the item named `queue_item_id` to the dead-letter queue now.
    pub fn quarantine_queue_item(&mut self, queue_item_id: &str, reason: &str) -> (r: bool)
        ensures
            r == queue_lookup(old(self).spec_queue(), queue_item_id@) is Some,
            exists|now: i64| #[trigger] after_quarantine(old(self).spec_queue(), queue_item_id@, reason@, now) == final(self).spec_queue(),
            queue_only_change(*old(self), *final(self)),
    {
        let now = crate::ledger::now_epoch_seconds();
        self.quarantine_queue_item_at(queue_item_id, reason, now)
    }

    /// Takes the item named `queue_item_id` back from the dead-letter
    /// queue; false (and nothing changed) when there is none or it is not
    /// quarantined.
    pub fn requeue_item(&mut self, queue_item_id: &str, reset_attempts: bool) -> (r: bool)
        ensures
            r == (queue_lookup(old(self).spec_queue(), queue_item_id@) matches Some(q) && q.quarantined),
            r ==> final(self).spec_queue() == queue_changed(
                old(self).spec_queue(),
                queue_item_id@,
                |q: QueueItemView| requeued(q, reset_attempts),
            ),
            !r ==> final(self).spec_queue() == old(self).spec_queue(),
            queue_only_change(*old(self), *final(self)),
    {
        match find_item(&self.flush_queue, queue_item_id) {
            Some(k) => {
                proof {
                    lemma_first_from(queue_ids(self.spec_queue()), queue_item_id@, 0);
                }
                if !self.flush_queue[k].quarantined {
                    return false;
                }
                let mut it = self.flush_queue[k].duplicate();
                it.quarantined = false;
                it.quarantine_reason = None;
                it.quarantined_at_epoch_s = None;
                it.flushed = false;
                it.flushed_at_epoch_s = None;
                it.last_error = None;
                if reset_attempts {
                    it.flush_attempts = 0;
                }
                self.set_item(k, it);
                true
            },
            None => false,
        }
    }

    /// Deletes the items that have outlived the queue time to live at
    /// `now`; the number deleted.
    pub fn expire_queue_items_at(&mut self, now: i64) -> (r: usize)
        ensures
            final(self).spec_queue() == unexpired(old(self).spec_queue(), now, old(self).spec_queue_ttl()),
            r == old(self).spec_queue().len() - final(self).spec_queue().len(),
            queue_only_change(*old(self), *final(self)),
    {
        let ghost all = self.spec_queue();
        let ttl = self.queue_item_ttl_seconds;
        let cutoff: i128 = now as i128 - ttl as i128;
        let mut kept: Vec<LedgerQueueItem> = Vec::new();
        let mut i: usize = 0;
        assert(all.subrange(0, 0) =~= Seq::<QueueItemView>::empty());
        while i < self.flush_queue.len()
            invariant
                i <= self.flush_queue@.len(),
                all == item_views(self.flush_queue@),
                cutoff == now - ttl,
                ttl == self.queue_item_ttl_seconds,
                item_views(kept@) == unexpired(all.subrange(0, i as int), now, ttl),
                kept@.len() <= i,
            decreases self.flush_queue@.len() - i,
        {
            assert(all.subrange(0, i + 1).drop_last() =~= all.subrange(0, i as int));
            assert(all.subrange(0, i + 1).last() == self.flush_queue@[i as int]@);
            if !((self.flush_queue[i].enqueued_at_epoch_s as i128) < cutoff) {
                let ghost before = kept@;
                kept.push(self.flush_queue[i].duplicate());
                assert(item_views(kept@) =~= item_views(before).push(self.flush_queue@[i as int]@));
            }
            i = i + 1;
        }
        assert(all.subrange(0, all.len() as int) =~= all);
        let removed = self.flush_queue.len() - kept.len();
        self.flush_queue = kept;
        removed
    }

    /// Deletes the items that have outlived the queue time to live now;
    /// the number deleted.
    pub fn expire_queue_items(&mut self) -> (r: usize)
        ensures
            exists|now: i64| #[trigger] unexpired(old(self).spec_queue(), now, old(self).spec_queue_ttl()) == final(self).spec_queue(),
            r == old(self).spec_queue().len() - final(self).spec_queue().len(),
            queue_only_change(*old(self), *final(self)),
    {
        let now = crate::ledger::now_epoch_seconds();
        self.expire_queue_items_at(now)
    }
}

// ---------------------------------------------------------------------------
// Listings and redaction
// ---------------------------------------------------------------------------

/// A present field replaced by the redaction marker.
pub open spec fn masked(o: Option<Seq<char>>) -> Option<Seq<char>> {
    match o {
        Some(_) => Some(REDACT_MARKER@),
        None => None,
    }
}

/// The payload with its audit-sensitive fields (principal, action,
/// resource, reason, mandate) replaced by the marker where present; the
/// source, event type, emission time and decision are kept.
pub open spec fn redacted_payload(p: PayloadView) -> PayloadView {
    PayloadView {
        source: p.source,
        event_type: p.event_type,
        principal_id: masked(p.principal_id),
        action: masked(p.action),
        resource: masked(p.resource),
        reason: masked(p.reason),
        allowed: p.allowed,
        mandate_id: match p.mandate_id {
            Some(_) => Some(Some(REDACT_MARKER@)),
            None => None,
        },
        emitted_at_epoch_s: p.emitted_at_epoch_s,
    }
}

/// The item with its payload redacted; the queue metadata is kept.
pub open spec fn redacted_item(q: QueueItemView) -> QueueItemView {
    QueueItemView { payload: redacted_payload(q.payload), ..q }
}

/// The marker where a field is present.
fn mask(o: &Option<String>) -> (r: Option<String>)
    ensures
        opt_view(r) == masked(opt_view(*o)),
{
    match o {
        Some(_) => Some(owned(REDACT_MARKER)),
        None => None,
    }
}

/// The item with the audit-sensitive payload fields redacted.
pub fn redact_queue_item(item: LedgerQueueItem) -> (r: LedgerQueueItem)
    ensures
        r@ == redacted_item(item@),
{
    let p = &item.payload;
    let payload = QueuePayload {
        source: copy_opt(&p.source),
        event_type: copy_opt(&p.event_type),
        principal_id: mask(&p.principal_id),
        action: mask(&p.action),
        resource: mask(&p.resource),
        reason: mask(&p.reason),
        allowed: p.allowed,
        mandate_id: match &p.mandate_id {
            Some(_) => Some(Some(owned(REDACT_MARKER))),
            None => None,
        },
        emitted_at_epoch_s: p.emitted_at_epoch_s,
    };
    LedgerQueueItem {
        queue_item_id: item.queue_item_id,
        enqueued_at_epoch_s: item.enqueued_at_epoch_s,
        payload,
        flushed: item.flushed,
        flush_attempts: item.flush_attempts,
        last_error: item.last_error,
        flushed_at_epoch_s: item.flushed_at_epoch_s,
        quarantined: item.quarantined,
        quarantine_reason: item.quarantine_reason,
        quarantined_at_epoch_s: item.quarantined_at_epoch_s,
    }
}

/// A listing of the queue: the flush queue with its filters, ordered by
/// enqueue time, or the dead-letter queue, ordered by quarantine time.
#[derive(Debug, Clone, Copy)]
pub enum QueueListing {
    Flush { include_flushed: bool, include_quarantined: bool },
    DeadLetter,
}

/// Whether the listing shows the item.
pub open spec fn listing_admits(l: QueueListing, q: QueueItemView) -> bool {
    match l {
        QueueListing::Flush { include_flushed, include_quarantined } => (!q.flushed || include_flushed) && (
        !q.quarantined || include_quarantined),
        QueueListing::DeadLetter => q.quarantined,
    }
}

/// The time by which the listing orders the item (a missing quarantine
/// time counts as zero).
pub open spec fn listing_key(l: QueueListing, q: QueueItemView) -> i64 {
    match l {
        QueueListing::Flush { .. } => q.enqueued_at_epoch_s,
        QueueListing::DeadLetter => match q.quarantined_at_epoch_s {
            Some(t) => t,
            None => 0,
        },
    }
}

/// The items the listing shows, in stored order.
pub open spec fn admitted(s: Seq<QueueItemView>, l: QueueListing) -> Seq<QueueItemView>
    decreases s.len(),
{
    if s.len() == 0 {
        Seq::empty()
    } else if listing_admits(l, s.last()) {
        admitted(s.drop_last(), l).push(s.last())
    } else {
        admitted(s.drop_last(), l)
    }
}

/// The first position at or after `j` whose key exceeds `k` (the length
/// when there is none).
pub open spec fn point_from(s: Seq<QueueItemView>, l: QueueListing, k: i64, j: int) -> int
    decreases s.len() - j,
{
    if j < 0 || j >= s.len() {
        j
    } else if listing_key(l, s[j]) > k {
        j
    } else {
        point_from(s, l, k, j + 1)
    }
}

/// Where an item with key `k` goes: after every item whose key is not
/// greater.
pub open spec fn insertion_point(s: Seq<QueueItemView>, l: QueueListing, k: i64) -> int {
    point_from(s, l, k, 0)
}

/// The items ordered by key; items with equal keys keep their order.
pub open spec fn sorted_by_key(s: Seq<QueueItemView>, l: QueueListing) -> Seq<QueueItemView>
    decreases s.len(),
{
    if s.len() == 0 {
        s
    } else {
        let r = sorted_by_key(s.drop_last(), l);
        r.insert(insertion_point(r, l, listing_key(l, s.last())), s.last())
    }
}

/// At most `limit` items, from the front.
pub open spec fn limited(s: Seq<QueueItemView>, limit: Option<usize>) -> Seq<QueueItemView> {
    match limit {
        Some(n) => if n < s.len() {
            s.take(n as int)
        } else {
            s
        },
        None => s,
    }
}

/// What a listing returns: the admitted items, ordered, limited, and
/// redacted when asked.
pub open spec fn queue_listing(s: Seq<QueueItemView>, l: QueueListing, limit: Option<usize>, redact: bool) -> Seq<QueueItemView> {
    let r = limited(sorted_by_key(admitted(s, l), l), limit);
    if redact {
        r.map_values(|q: QueueItemView| redacted_item(q))
    } else {
        r
    }
}

/// Lemma: the insertion point lies between `j` and the length.
pub proof fn lemma_point_from(s: Seq<QueueItemView>, l: QueueListing, k: i64, j: int)
    requires
        0 <= j <= s.len(),
    ensures
        j <= point_from(s, l, k, j) <= s.len(),
        forall|i: int| j <= i < point_from(s, l, k, j) ==> listing_key(l, #[trigger] s[i]) <= k,
        point_from(s, l, k, j) < s.len() ==> listing_key(l, s[point_from(s, l, k, j)]) > k,
    decreases s.len() - j,
{
    if j < s.len() && listing_key(l, s[j]) <= k {
        lemma_point_from(s, l, k, j + 1);
    }
}

/// Lemma: ordering keeps the number of items.
pub proof fn lemma_sorted_len(s: Seq<QueueItemView>, l: QueueListing)
    ensures
        sorted_by_key(s, l).len() == s.len(),
    decreases s.len(),
{
    if s.len() > 0 {
        let r = sorted_by_key(s.drop_last(), l);
        lemma_sorted_len(s.drop_last(), l);
        lemma_point_from(r, l, listing_key(l, s.last()), 0);
    }
}

/// The key by which the listing orders an item.
fn item_key(l: QueueListing, q: &LedgerQueueItem) -> (r: i64)
    ensures
        r == listing_key(l, q@),
{
    match l {
        QueueListing::Flush { .. } => q.enqueued_at_epoch_s,
        QueueListing::DeadLetter => match q.quarantined_at_epoch_s {
            Some(t) => t,
            None => 0,
        },
    }
}

/// Whether the listing shows an item.
fn item_admitted(l: QueueListing, q: &LedgerQueueItem) -> (r: bool)
    ensures
        r == listing_admits(l, q@),
{
    match l {
        QueueListing::Flush { include_flushed, include_quarantined } => (!q.flushed || include_flushed) && (
        !q.quarantined || include_quarantined),
        QueueListing::DeadLetter => q.quarantined,
    }
}

impl LocalIdentityRegistry {
    /// Copies of the items a listing shows, ordered by its key (items with
    /// equal keys in stored order), at most `limit` of them, redacted when
    /// asked.
    pub fn list_queue(&self, l: QueueListing, limit: Option<usize>, redact: bool) -> (r: Vec<LedgerQueueItem>)
        ensures
            item_views(r@) == queue_listing(self.spec_queue(), l, limit, redact),
    {
        let ghost all = self.spec_queue();
        let mut adm: Vec<LedgerQueueItem> = Vec::new();
        let mut i: usize = 0;
        assert(all.subrange(0, 0) =~= Seq::<QueueItemView>::empty());
        while i < self.flush_queue.len()
            invariant
                i <= self.flush_queue@.len(),
                all == item_views(self.flush_queue@),
                item_views(adm@) == admitted(all.subrange(0, i as int), l),
            decreases self.flush_queue@.len() - i,
        {
            assert(all.subrange(0, i + 1).drop_last() =~= all.subrange(0, i as int));
            assert(all.subrange(0, i + 1).last() == self.flush_queue@[i as int]@);
            if item_admitted(l, &self.flush_queue[i]) {
                let ghost before = adm@;
                adm.push(self.flush_queue[i].duplicate());
                assert(item_views(adm@) =~= item_views(before).push(self.flush_queue@[i as int]@));
            }
            i = i + 1;
        }
        assert(all.subrange(0, all.len() as int) =~= all);
        let ghost av = item_views(adm@);
        let mut sorted: Vec<LedgerQueueItem> = Vec::new();
        let mut a: usize = 0;
        assert(av.subrange(0, 0) =~= Seq::<QueueItemView>::empty());
        while a < adm.len()
            invariant
                a <= adm@.len(),
                av == item_views(adm@),
                item_views(sorted@) == sorted_by_key(av.subrange(0, a as int), l),
            decreases adm@.len() - a,
        {
            let ghost sv = item_views(sorted@);
            assert(av.subrange(0, a + 1).drop_last() =~= av.subrange(0, a as int));
            assert(av.subrange(0, a + 1).last() == adm@[a as int]@);
            let x = adm[a].duplicate();
            let k = item_key(l, &x);
            let mut j: usize = 0;
            while j < sorted.len() && item_key(l, &sorted[j]) <= k
                invariant
                    j <= sorted@.len(),
                    sv == item_views(sorted@),
                    insertion_point(sv, l, k) == point_from(sv, l, k, j as int),
                decreases sorted@.len() - j,
            {
                assert(sv[j as int] == sorted@[j as int]@);
                j = j + 1;
            }
            proof {
                if j < sorted@.len() {
                    assert(sv[j as int] == sorted@[j as int]@);
                }
                lemma_point_from(sv, l, k, 0);
            }
            sorted.insert(j, x);
            assert(item_views(sorted@) =~= sv.insert(j as int, x@));
            a = a + 1;
        }
        assert(av.subrange(0, av.len() as int) =~= av);
        let ghost ordered = item_views(sorted@);
        match limit {
            Some(n) => {
                sorted.truncate(n);
                proof {
                    if n < ordered.len() {
                        assert(item_views(sorted@) =~= ordered.take(n as int));
                    }
                }
            },
            None => {},
        }
        if !redact {
            return sorted;
        }
        let ghost lim = item_views(sorted@);
        let mut out: Vec<LedgerQueueItem> = Vec::new();
        let mut b: usize = 0;
        while b < sorted.len()
            invariant
                b <= sorted@.len(),
                lim == item_views(sorted@),
                item_views(out@) =~= lim.subrange(0, b as int).map_values(|q: QueueItemView| redacted_item(q)),
            decreases sorted@.len() - b,
        {
            let ghost before = out@;
            let it = redact_queue_item(sorted[b].duplicate());
            out.push(it);
            assert(item_views(out@) =~= item_views(before).push(redacted_item(sorted@[b as int]@)));
            assert(lim.subrange(0, b + 1).map_values(|q: QueueItemView| redacted_item(q)) =~= lim.subrange(
                0,
                b as int,
            ).map_values(|q: QueueItemView| redacted_item(q)).push(redacted_item(lim[b as int])));
            b = b + 1;
        }
        assert(lim.subrange(0, lim.len() as int) =~= lim);
        out
    }

    /// The flush queue: items not flushed (unless `include_flushed`) and
    /// not quarantined (unless `include_quarantined`), by enqueue time.
    pub fn list_flush_queue(&self, include_flushed: bool, include_quarantined: bool, limit: Option<usize>, redact_payloads: bool) -> (r: Vec<LedgerQueueItem>)
        ensures
            item_views(r@) == queue_listing(
                self.spec_queue(),
                QueueListing::Flush { include_flushed, include_quarantined },
                limit,
                redact_payloads,
            ),
    {
        self.list_queue(QueueListing::Flush { include_flushed, include_quarantined }, limit, redact_payloads)
    }

    /// The dead-letter queue: quarantined items, by quarantine time.
    pub fn list_dead_letter_queue(&self, limit: Option<usize>, redact_payloads: bool) -> (r: Vec<LedgerQueueItem>)
        ensures
            item_views(r@) == queue_listing(self.spec_queue(), QueueListing::DeadLetter, limit, redact_payloads),
    {
        self.list_queue(QueueListing::DeadLetter, limit, redact_payloads)
    }
}

/// The queue after a successful flush, at `now`, of each named item in
/// turn.
pub open spec fn after_acks(s: Seq<QueueItemView>, ids: Seq<Seq<char>>, now: i64) -> Seq<QueueItemView>
    decreases ids.len(),
{
    if ids.len() == 0 {
        s
    } else {
        after_ack(after_acks(s, ids.drop_last(), now), ids.last(), now)
    }
}

impl LocalIdentityRegistry {
    /// Flushes the pending items at `now` (at most `max_items`, oldest
    /// first) by recording each as acknowledged; the number flushed.
    pub fn flush_pending_at(&mut self, max_items: Option<usize>, now: i64) -> (r: usize)
        ensures
            ({
                let listed = queue_listing(
                    old(self).spec_queue(),
                    QueueListing::Flush { include_flushed: false, include_quarantined: false },
                    max_items,
                    false,
                );
                &&& r == listed.len()
                &&& final(self).spec_queue() == after_acks(old(self).spec_queue(), queue_ids(listed), now)
            }),
            queue_only_change(*old(self), *final(self)),
    {
        let items = self.list_queue(
            QueueListing::Flush { include_flushed: false, include_quarantined: false },
            max_items,
            false,
        );
        let ghost start = self.spec_queue();
        let ghost ids = queue_ids(item_views(items@));
        let mut i: usize = 0;
        assert(ids.subrange(0, 0) =~= Seq::<Seq<char>>::empty());
        while i < items.len()
            invariant
                i <= items@.len(),
                ids == queue_ids(item_views(items@)),
                self.spec_queue() == after_acks(start, ids.subrange(0, i as int), now),
                queue_only_change(*old(self), *self),
            decreases items@.len() - i,
        {
            assert(ids.subrange(0, i + 1).drop_last() =~= ids.subrange(0, i as int));
            assert(ids.subrange(0, i + 1).last() == items@[i as int].queue_item_id@);
            self.mark_flush_ack_at(items[i].queue_item_id.as_str(), now);
            i = i + 1;
        }
        assert(ids.subrange(0, ids.len() as int) =~= ids);
        items.len()
    }
}

// ---------------------------------------------------------------------------
// Statistics
// ---------------------------------------------------------------------------

/// How many identities are active at `now`.
pub open spec fn active_count(s: Seq<IdentityView>, now: i64) -> nat
    decreases s.len(),
{
    if s.len() == 0 {
        0
    } else {
        active_count(s.drop_last(), now) + if identity_active(s.last(), now) {
            1nat
        } else {
            0nat
        }
    }
}

/// A class of queue items that the statistics count.
#[derive(Debug, Clone, Copy)]
pub enum QueueTally {
    /// Neither flushed nor quarantined.
    Pending,
    Flushed,
    /// Pending, with an error from its last attempt.
    Failed,
    Quarantined,
}

/// Whether the item is of the class.
pub open spec fn in_tally(t: QueueTally, q: QueueItemView) -> bool {
    match t {
        QueueTally::Pending => !q.flushed && !q.quarantined,
        QueueTally::Flushed => q.flushed,
        QueueTally::Failed => q.last_error is Some && !q.flushed && !q.quarantined,
        QueueTally::Quarantined => q.quarantined,
    }
}

/// How many items are of the class.
pub open spec fn tally(s: Seq<QueueItemView>, t: QueueTally) -> nat
    decreases s.len(),
{
    if s.len() == 0 {
        0
    } else {
        tally(s.drop_last(), t) + if in_tally(t, s.last()) {
            1nat
        } else {
            0nat
        }
    }
}

/// Whether an item is of the class.
fn item_in_tally(t: QueueTally, q: &LedgerQueueItem) -> (r: bool)
    ensures
        r == in_tally(t, q@),
{
    match t {
        QueueTally::Pending => !q.flushed && !q.quarantined,
        QueueTally::Flushed => q.flushed,
        QueueTally::Failed => q.last_error.is_some() && !q.flushed && !q.quarantined,
        QueueTally::Quarantined => q.quarantined,
    }
}

impl LocalIdentityRegistry {
    /// How many queue items are of the class.
    fn count_items(&self, t: QueueTally) -> (r: usize)
        ensures
            r == tally(self.spec_queue(), t),
    {
        let ghost all = self.spec_queue();
        let mut n: usize = 0;
        let mut i: usize = 0;
        assert(all.subrange(0, 0) =~= Seq::<QueueItemView>::empty());
        while i < self.flush_queue.len()
            invariant
                i <= self.flush_queue@.len(),
                all == item_views(self.flush_queue@),
                n <= i,
                n == tally(all.subrange(0, i as int), t),
            decreases self.flush_queue@.len() - i,
        {
            assert(all.subrange(0, i + 1).drop_last() =~= all.subrange(0, i as int));
            assert(all.subrange(0, i + 1).last() == self.flush_queue@[i as int]@);
            if item_in_tally(t, &self.flush_queue[i]) {
                n = n + 1;
            }
            i = i + 1;
        }
        assert(all.subrange(0, all.len() as int) =~= all);
        n
    }

    /// The counts at `now`: identities (all and active) and queue items
    /// (pending, flushed, failed, quarantined).
    pub fn stats_at(&self, now: i64) -> (r: LocalIdentityRegistryStats)
        ensures
            r.total_identity_count == self.spec_identities().len(),
            r.active_identity_count == active_count(self.spec_identities(), now),
            r.pending_flush_queue_count == tally(self.spec_queue(), QueueTally::Pending),
            r.flushed_queue_count == tally(self.spec_queue(), QueueTally::Flushed),
            r.failed_queue_count == tally(self.spec_queue(), QueueTally::Failed),
            r.quarantined_queue_count == tally(self.spec_queue(), QueueTally::Quarantined),
    {
        let ghost all = self.spec_identities();
        let mut active: usize = 0;
        let mut i: usize = 0;
        assert(all.subrange(0, 0) =~= Seq::<IdentityView>::empty());
        while i < self.identities.len()
            invariant
                i <= self.identities@.len(),
                all == identity_views(self.identities@),
                active <= i,
                active == active_count(all.subrange(0, i as int), now),
            decreases self.identities@.len() - i,
        {
            assert(all.subrange(0, i + 1).drop_last() =~= all.subrange(0, i as int));
            assert(all.subrange(0, i + 1).last() == self.identities@[i as int]@);
            if !self.identities[i].revoked && now < self.identities[i].expires_at_epoch_s {
                active = active + 1;
            }
            i = i + 1;
        }
        assert(all.subrange(0, all.len() as int) =~= all);
        LocalIdentityRegistryStats {
            total_identity_count: self.identities.len(),
            active_identity_count: active,
            pending_flush_queue_count: self.count_items(QueueTally::Pending),
            flushed_queue_count: self.count_items(QueueTally::Flushed),
            failed_queue_count: self.count_items(QueueTally::Failed),
            quarantined_queue_count: self.count_items(QueueTally::Quarantined),
        }
    }

    /// The counts now.
    pub fn stats(&self) -> (r: LocalIdentityRegistryStats)
        ensures
            r.total_identity_count == self.spec_identities().len(),
            exists|now: i64| r.active_identity_count == #[trigger] active_count(self.spec_identities(), now),
            r.pending_flush_queue_count == tally(self.spec_queue(), QueueTally::Pending),
            r.flushed_queue_count == tally(self.spec_queue(), QueueTally::Flushed),
            r.failed_queue_count == tally(self.spec_queue(), QueueTally::Failed),
            r.quarantined_queue_count == tally(self.spec_queue(), QueueTally::Quarantined),
    {
        let now = crate::ledger::now_epoch_seconds();
        self.stats_at(now)
    }
}

// ---------------------------------------------------------------------------
// Laws
// ---------------------------------------------------------------------------

/// Lemma: past the last stored identifier, a pushed identifier is found
/// at the end.
proof fn lemma_first_from_push(ids: Seq<Seq<char>>, id: Seq<char>, i: int)
    requires
        0 <= i <= ids.len(),
        forall|j: int| i <= j < ids.len() ==> ids[j] != id,
    ensures
        first_from(ids.push(id), id, i) == Some(ids.len() as int),
    decreases ids.len() - i,
{
    if i < ids.len() {
        assert(ids.push(id)[i] == ids[i]);
        lemma_first_from_push(ids, id, i + 1);
    } else {
        assert(ids.push(id)[i] == id);
    }
}

/// Law: an issued identity is found under its identifier: storing a record
/// and then looking up its identifier gives the record back.
pub proof fn law_issued_identity_is_found(s: Seq<IdentityView>, rec: IdentityView)
    ensures
        identity_lookup(upsert_identity(s, rec), rec.identity_id) == Some(rec),
{
    let ids = identity_ids(s);
    lemma_first_from(ids, rec.identity_id, 0);
    match first_index(ids, rec.identity_id) {
        Some(k) => {
            assert(identity_ids(s.update(k, rec)) =~= ids);
        },
        None => {
            assert(identity_ids(s.push(rec)) =~= ids.push(rec.identity_id));
            lemma_first_from_push(ids, rec.identity_id, 0);
        },
    }
}

/// Law: a revoked identity is never active again: after revoking the
/// identity named `id`, looking it up gives a record that is inactive at
/// every time.
pub proof fn law_revoked_identity_is_inactive(s: Seq<IdentityView>, id: Seq<char>, now: i64)
    requires
        identity_lookup(s, id) is Some,
    ensures
        match first_index(identity_ids(s), id) {
            Some(k) => identity_lookup(s.update(k, revoked_view(s[k])), id) matches Some(r) && r.revoked
                && !identity_active(r, now),
            None => false,
        },
{
    let ids = identity_ids(s);
    lemma_first_from(ids, id, 0);
    let k = first_index(ids, id).unwrap();
    assert(identity_ids(s.update(k, revoked_view(s[k]))) =~= ids);
}

/// Lemma: changing an item without changing its identifier keeps every
/// identifier, and the lookup then gives the changed item.
proof fn lemma_queue_changed(s: Seq<QueueItemView>, id: Seq<char>, f: spec_fn(QueueItemView) -> QueueItemView)
    requires
        forall|q: QueueItemView| #[trigger] f(q).queue_item_id == q.queue_item_id,
    ensures
        queue_ids(queue_changed(s, id, f)) == queue_ids(s),
        queue_lookup(queue_changed(s, id, f), id) == match queue_lookup(s, id) {
            Some(q) => Some(f(q)),
            None => None,
        },
{
    let ids = queue_ids(s);
    lemma_first_from(ids, id, 0);
    match first_index(ids, id) {
        Some(k) => {
            assert(f(s[k]).queue_item_id == s[k].queue_item_id);
            assert(queue_ids(s.update(k, f(s[k]))) =~= ids);
        },
        None => {},
    }
}

/// Law: a quarantined item that is requeued is pending again: it is shown
/// by the default flush listing and not by the dead-letter listing.
pub proof fn law_requeued_item_is_pending(
    s: Seq<QueueItemView>,
    id: Seq<char>,
    reason: Seq<char>,
    now: i64,
    reset_attempts: bool,
)
    requires
        queue_lookup(s, id) is Some,
    ensures
        ({
            let s1 = after_quarantine(s, id, reason, now);
            let s2 = queue_changed(s1, id, |q: QueueItemView| requeued(q, reset_attempts));
            &&& queue_lookup(s1, id) matches Some(q1) && q1.quarantined
            &&& queue_lookup(s2, id) matches Some(q2) && in_tally(QueueTally::Pending, q2)
                && listing_admits(QueueListing::Flush { include_flushed: false, include_quarantined: false }, q2)
                && !listing_admits(QueueListing::DeadLetter, q2)
        }),
{
    let fq = |q: QueueItemView| quarantined_item(q, reason, now);
    let fr = |q: QueueItemView| requeued(q, reset_attempts);
    assert forall|q: QueueItemView| #[trigger] fq(q).queue_item_id == q.queue_item_id by {}
    assert forall|q: QueueItemView| #[trigger] fr(q).queue_item_id == q.queue_item_id by {}
    lemma_queue_changed(s, id, fq);
    let s1 = queue_changed(s, id, fq);
    lemma_queue_changed(s1, id, fr);
}

/// Lemma: the ordered items are in non-decreasing key order.
pub proof fn lemma_sorted_by_key(s: Seq<QueueItemView>, l: QueueListing)
    ensures
        forall|i: int, j: int|
            0 <= i < j < sorted_by_key(s, l).len() ==> listing_key(l, #[trigger] sorted_by_key(s, l)[i])
                <= listing_key(l, #[trigger] sorted_by_key(s, l)[j]),
    decreases s.len(),
{
    if s.len() > 0 {
        let r = sorted_by_key(s.drop_last(), l);
        let x = s.last();
        let k = listing_key(l, x);
        lemma_sorted_by_key(s.drop_last(), l);
        lemma_point_from(r, l, k, 0);
        let p = insertion_point(r, l, k);
        let t = r.insert(p, x);
        assert(t == sorted_by_key(s, l));
        assert forall|i: int, j: int| 0 <= i < j < t.len() implies listing_key(l, #[trigger] t[i]) <= listing_key(
            l,
            #[trigger] t[j],
        ) by {
            if j < p {
                assert(t[i] == r[i] && t[j] == r[j]);
            } else if j == p {
                assert(t[j] == x);
                assert(t[i] == r[i]);
            } else if i < p {
                assert(t[i] == r[i] && t[j] == r[j - 1]);
                if p < r.len() {
                    assert(listing_key(l, r[p]) > k);
                }
                assert(listing_key(l, r[i]) <= k);
            } else if i == p {
                assert(t[i] == x && t[j] == r[j - 1]);
                assert(listing_key(l, r[p]) > k);
                if j - 1 > p {
                    assert(listing_key(l, r[p]) <= listing_key(l, r[j - 1]));
                }
            } else {
                assert(t[i] == r[i - 1] && t[j] == r[j - 1]);
            }
        }
    }
}

/// Law: every queue listing is ordered by its key (enqueue time for the
/// flush queue, quarantine time for the dead-letter queue), redacted or
/// not, with or without a limit.
pub proof fn law_listing_is_ordered(s: Seq<QueueItemView>, l: QueueListing, limit: Option<usize>, redact: bool)
    ensures
        forall|i: int, j: int|
            0 <= i < j < queue_listing(s, l, limit, redact).len() ==> listing_key(
                l,
                #[trigger] queue_listing(s, l, limit, redact)[i],
            ) <= listing_key(l, #[trigger] queue_listing(s, l, limit, redact)[j]),
{
    let a = admitted(s, l);
    let o = sorted_by_key(a, l);
    lemma_sorted_by_key(a, l);
    let m = limited(o, limit);
    assert forall|i: int, j: int| 0 <= i < j < m.len() implies listing_key(l, #[trigger] m[i]) <= listing_key(
        l,
        #[trigger] m[j],
    ) by {
        assert(m[i] == o[i] && m[j] == o[j]);
    }
    let res = queue_listing(s, l, limit, redact);
    assert forall|i: int, j: int| 0 <= i < j < res.len() implies listing_key(l, #[trigger] res[i]) <= listing_key(
        l,
        #[trigger] res[j],
    ) by {
        if redact {
            assert(res[i] == redacted_item(m[i]) && res[j] == redacted_item(m[j]));
        } else {
            assert(res[i] == m[i] && res[j] == m[j]);
        }
    }
}

/// Law: redaction leaves no audit-sensitive value: each of the principal,
/// action, resource, reason and mandate fields is absent or the marker,
/// while the queue metadata, source, event type, emission time and
/// decision are kept.
pub proof fn law_redaction_hides_audit_fields(q: QueueItemView)
    ensures
        ({
            let p = redacted_item(q).payload;
            &&& p.principal_id is None || p.principal_id == Some(REDACT_MARKER@)
            &&& p.action is None || p.action == Some(REDACT_MARKER@)
            &&& p.resource is None || p.resource == Some(REDACT_MARKER@)
            &&& p.reason is None || p.reason == Some(REDACT_MARKER@)
            &&& p.mandate_id is None || p.mandate_id == Some(Some(REDACT_MARKER@))
            &&& p.source == q.payload.source && p.event_type == q.payload.event_type
            &&& p.emitted_at_epoch_s == q.payload.emitted_at_epoch_s && p.allowed == q.payload.allowed
            &&& redacted_item(q).queue_item_id == q.queue_item_id
            &&& redacted_item(q).flushed == q.flushed && redacted_item(q).quarantined == q.quarantined
        }),
{
}

/// Law: expiry keeps exactly the items that have not outlived the time to
/// live: every kept item is recent, and every recent item is kept.
pub proof fn law_expiry_keeps_recent_items(s: Seq<QueueItemView>, now: i64, ttl: i64)
    ensures
        forall|i: int| 0 <= i < unexpired(s, now, ttl).len() ==> !outlived(#[trigger] unexpired(s, now, ttl)[i], now, ttl),
        forall|i: int| 0 <= i < s.len() && !outlived(#[trigger] s[i], now, ttl) ==> unexpired(s, now, ttl).contains(s[i]),
    decreases s.len(),
{
    if s.len() > 0 {
        let d = s.drop_last();
        law_expiry_keeps_recent_items(d, now, ttl);
        let u = unexpired(d, now, ttl);
        assert forall|i: int| 0 <= i < s.len() && !outlived(#[trigger] s[i], now, ttl) implies unexpired(
            s,
            now,
            ttl,
        ).contains(s[i]) by {
            if i < s.len() - 1 {
                assert(s[i] == d[i]);
                assert(u.contains(d[i]));
                if !outlived(s.last(), now, ttl) {
                    let k = choose|k: int| 0 <= k < u.len() && u[k] == d[i];
                    assert(u.push(s.last())[k] == d[i]);
                }
            } else {
                assert(unexpired(s, now, ttl) == u.push(s.last()));
                assert(u.push(s.last())[u.len() as int] == s[i]);
            }
        }
        if !outlived(s.last(), now, ttl) {
            assert forall|i: int| 0 <= i < unexpired(s, now, ttl).len() implies !outlived(
                #[trigger] unexpired(s, now, ttl)[i],
                now,
                ttl,
            ) by {
                if i < u.len() {
                    assert(unexpired(s, now, ttl)[i] == u[i]);
                }
            }
        }
    }
}

} // verus!
