//! Host-private bookkeeping: catalog refresh freshness, timeline cursors and
//! session-root resolution.
use vstd::prelude::*;
use crate::assoc::{lookup, keys_distinct, find_last, upsert, remove_key};
use crate::text::{push_str, str_eq, opt_view};
use crate::report::ScanReport;
use std::sync::Arc;

verus! {

/// Maximum number of live timeline cursors.
pub const MAX_TIMELINE_CURSORS: usize = 256;

/// Successful incremental refreshes after which a full integrity scan is forced.
pub const FULL_CATALOG_INTEGRITY_INTERVAL: u16 = 20;

/// Host-owned neutral workspace for chats that are not attached to a folder.
#[derive(Clone, Debug, PartialEq, Eq)]
pub struct PersonalWorkspace {
    pub project_id: String,
    pub canonical_path: String,
}

/// Host-private pagination state. Tokens never encode filesystem paths.
#[derive(Debug, PartialEq, Eq)]
pub struct TimelineCursorRecord {
    pub project_id: String,
    pub session_id: String,
    pub file_revision: String,
    /// Exclusive end index for the next older page.
    pub older_before: usize,
}

impl TimelineCursorRecord {
    /// A field-for-field copy.
    pub fn copied(&self) -> (r: Self)
        ensures
            r == *self,
    {
        TimelineCursorRecord {
            project_id: self.project_id.clone(),
            session_id: self.session_id.clone(),
            file_revision: self.file_revision.clone(),
            older_before: self.older_before,
        }
    }
}

impl Clone for TimelineCursorRecord {
    fn clone(&self) -> (r: Self)
        ensures
            r == *self,
    {
        self.copied()
    }
}

/// Freshness of a sidebar catalog.
#[derive(Clone, Copy, Debug, PartialEq, Eq, Structural)]
pub enum CatalogFreshness {
    Cached,
    Refreshing,
    Current,
    Degraded,
}

#[derive(Clone, Copy, Debug, PartialEq, Eq, Structural)]
pub struct CatalogRefreshStatus {
    pub freshness: CatalogFreshness,
    /// Monotonic, host-only event/snapshot watermark.
    pub sequence: u64,
}

/// Plan issued atomically with a refresh-start transition.
#[derive(Clone, Copy, Debug, PartialEq, Eq, Structural)]
pub struct CatalogRefreshStart {
    pub status: CatalogRefreshStatus,
    /// Forces a bounded full catalog scan.
    pub full_integrity: bool,
}

/// Per-project refresh freshness and the count of successful incremental
/// refreshes since the last full integrity scan.
pub struct CatalogRefreshStore {
    next_sequence: u64,
    projects: Vec<(String, CatalogRefreshStatus)>,
    successful_incremental_since_integrity: Vec<(String, u16)>,
}

/// The sequence number after `n`: it wraps past the maximum but never yields 0.
pub open spec fn next_sequence_after(n: u64) -> u64 {
    if n == u64::MAX {
        1
    } else {
        (n + 1) as u64
    }
}

pub open spec fn cached_status() -> CatalogRefreshStatus {
    CatalogRefreshStatus { freshness: CatalogFreshness::Cached, sequence: 0 }
}

/// A call on the refresh store, as the laws below replay it.
pub enum RefreshEvent {
    Begin(Seq<char>),
    Complete(Seq<char>, bool),
    Fail(Seq<char>),
}

/// The store as the laws see it: the last sequence handed out, and for every
/// project its status and its incremental count (both maps are total).
pub struct RefreshView {
    pub last: u64,
    pub status: Map<Seq<char>, CatalogRefreshStatus>,
    pub count: Map<Seq<char>, u16>,
}

pub open spec fn refresh_view_total(v: RefreshView) -> bool {
    forall|p: Seq<char>| #[trigger] v.status.dom().contains(p) && v.count.dom().contains(p)
}

/// A new store: nothing handed out, every project cached with sequence 0 and
/// no incremental refreshes.
pub open spec fn initial_refresh_view() -> RefreshView {
    RefreshView {
        last: 0,
        status: Map::new(|p: Seq<char>| true, |p: Seq<char>| cached_status()),
        count: Map::new(|p: Seq<char>| true, |p: Seq<char>| 0u16),
    }
}

pub open spec fn refresh_event_project(e: RefreshEvent) -> Seq<char> {
    match e {
        RefreshEvent::Begin(p) => p,
        RefreshEvent::Complete(p, _) => p,
        RefreshEvent::Fail(p) => p,
    }
}

/// What one call does to the store.
pub open spec fn refresh_step(v: RefreshView, e: RefreshEvent) -> RefreshView {
    let seq = next_sequence_after(v.last);
    match e {
        RefreshEvent::Begin(p) => if v.status[p].freshness == CatalogFreshness::Refreshing {
            v
        } else {
            RefreshView {
                last: seq,
                status: v.status.insert(p, CatalogRefreshStatus { freshness: CatalogFreshness::Refreshing, sequence: seq }),
                count: v.count,
            }
        },
        RefreshEvent::Complete(p, full) => RefreshView {
            last: seq,
            status: v.status.insert(p, CatalogRefreshStatus { freshness: CatalogFreshness::Current, sequence: seq }),
            count: v.count.insert(
                p,
                if full {
                    0u16
                } else if v.count[p] == u16::MAX {
                    u16::MAX
                } else {
                    (v.count[p] + 1) as u16
                },
            ),
        },
        RefreshEvent::Fail(p) => RefreshView {
            last: seq,
            status: v.status.insert(p, CatalogRefreshStatus { freshness: CatalogFreshness::Degraded, sequence: seq }),
            count: v.count,
        },
    }
}

/// The status a call returns: `None` for a start refused because the
/// project is already refreshing.
pub open spec fn refresh_returned(v: RefreshView, e: RefreshEvent) -> Option<CatalogRefreshStatus> {
    match e {
        RefreshEvent::Begin(p) => if v.status[p].freshness == CatalogFreshness::Refreshing {
            None
        } else {
            Some(refresh_step(v, e).status[p])
        },
        _ => Some(refresh_step(v, e).status[refresh_event_project(e)]),
    }
}

/// The store after the calls `es`, in order.
pub open spec fn refresh_replay(v: RefreshView, es: Seq<RefreshEvent>) -> RefreshView
    decreases es.len(),
{
    if es.len() == 0 {
        v
    } else {
        refresh_step(refresh_replay(v, es.drop_last()), es.last())
    }
}

/// The status most recently returned for `p` by the calls `es`.
pub open spec fn last_returned(v: RefreshView, es: Seq<RefreshEvent>, p: Seq<char>) -> Option<CatalogRefreshStatus>
    decreases es.len(),
{
    if es.len() == 0 {
        None
    } else {
        let prior = refresh_replay(v, es.drop_last());
        let e = es.last();
        if refresh_event_project(e) == p && refresh_returned(prior, e) is Some {
            refresh_returned(prior, e)
        } else {
            last_returned(v, es.drop_last(), p)
        }
    }
}

/// Successful incremental refreshes of `p` since its last full integrity
/// scan: failed passes count for nothing.
pub open spec fn incrementals_since_full(es: Seq<RefreshEvent>, p: Seq<char>) -> nat
    decreases es.len(),
{
    if es.len() == 0 {
        0
    } else {
        match es.last() {
            RefreshEvent::Complete(q, full) => if q != p {
                incrementals_since_full(es.drop_last(), p)
            } else if full {
                0
            } else {
                incrementals_since_full(es.drop_last(), p) + 1
            },
            _ => incrementals_since_full(es.drop_last(), p),
        }
    }
}

/// The sequences the calls `es` returned, in order.
pub open spec fn returned_sequences(v: RefreshView, es: Seq<RefreshEvent>) -> Seq<u64>
    decreases es.len(),
{
    if es.len() == 0 {
        Seq::empty()
    } else {
        let prior = refresh_replay(v, es.drop_last());
        match refresh_returned(prior, es.last()) {
            Some(st) => returned_sequences(v, es.drop_last()).push(st.sequence),
            None => returned_sequences(v, es.drop_last()),
        }
    }
}

proof fn lemma_replay_total(v: RefreshView, es: Seq<RefreshEvent>)
    requires
        refresh_view_total(v),
    ensures
        refresh_view_total(refresh_replay(v, es)),
    decreases es.len(),
{
    if es.len() > 0 {
        lemma_replay_total(v, es.drop_last());
    }
}

/// A project's status is the one most recently returned for it, or cached
/// with sequence 0 when no call returned one.
pub proof fn lemma_status_is_last_returned(es: Seq<RefreshEvent>, p: Seq<char>)
    ensures
        refresh_replay(initial_refresh_view(), es).status[p] == match last_returned(initial_refresh_view(), es, p) {
            Some(st) => st,
            None => cached_status(),
        },
    decreases es.len(),
{
    let v = initial_refresh_view();
    lemma_replay_total(v, es);
    if es.len() > 0 {
        lemma_status_is_last_returned(es.drop_last(), p);
        lemma_replay_total(v, es.drop_last());
    }
}

/// The incremental count of a project is the number of its successful
/// incremental refreshes since its last full integrity scan, saturating.
pub proof fn lemma_incremental_count(es: Seq<RefreshEvent>, p: Seq<char>)
    ensures
        refresh_replay(initial_refresh_view(), es).count[p] as nat == if incrementals_since_full(es, p)
            < u16::MAX {
            incrementals_since_full(es, p)
        } else {
            u16::MAX as nat
        },
    decreases es.len(),
{
    let v = initial_refresh_view();
    lemma_replay_total(v, es);
    if es.len() > 0 {
        lemma_incremental_count(es.drop_last(), p);
        lemma_replay_total(v, es.drop_last());
    }
}

/// A start asks for a full integrity scan exactly when at least
/// `FULL_CATALOG_INTEGRITY_INTERVAL` successful incremental refreshes
/// happened since the last one.
pub proof fn lemma_full_integrity_due(es: Seq<RefreshEvent>, p: Seq<char>)
    ensures
        (refresh_replay(initial_refresh_view(), es).count[p] >= FULL_CATALOG_INTEGRITY_INTERVAL)
            <==> incrementals_since_full(es, p) >= FULL_CATALOG_INTEGRITY_INTERVAL,
{
    lemma_incremental_count(es, p);
}

/// Until the counter wraps, every call that returns a status hands out a
/// larger sequence than any before it, the last one handed out is the
/// store's last sequence, and no status carries a later one.
pub proof fn lemma_sequences_increase(v: RefreshView, es: Seq<RefreshEvent>)
    requires
        refresh_view_total(v),
        forall|p: Seq<char>| #[trigger] v.status[p].sequence <= v.last,
        v.last + es.len() < u64::MAX,
    ensures
        ({
            let r = refresh_replay(v, es);
            let seqs = returned_sequences(v, es);
            &&& forall|i: int, j: int| 0 <= i < j < seqs.len() ==> seqs[i] < seqs[j]
            &&& forall|i: int| 0 <= i < seqs.len() ==> v.last < #[trigger] seqs[i] <= r.last
            &&& r.last == if seqs.len() == 0 { v.last } else { seqs.last() }
            &&& r.last <= v.last + es.len()
            &&& forall|p: Seq<char>| #[trigger] r.status[p].sequence <= r.last
        }),
    decreases es.len(),
{
    lemma_replay_total(v, es);
    if es.len() > 0 {
        let prior_es = es.drop_last();
        lemma_sequences_increase(v, prior_es);
        lemma_replay_total(v, prior_es);
        let q = refresh_replay(v, prior_es);
        let e = es.last();
        let r = refresh_replay(v, es);
        assert(r == refresh_step(q, e));
        let ps = returned_sequences(v, prior_es);
        let seqs = returned_sequences(v, es);
        assert(q.last < u64::MAX);
        match refresh_returned(q, e) {
            Some(st) => {
                assert(seqs == ps.push(st.sequence));
                assert(st.sequence == q.last + 1);
                assert(r.last == q.last + 1);
                assert forall|i: int, j: int| 0 <= i < j < seqs.len() implies seqs[i] < seqs[j] by {
                    if j == seqs.len() - 1 {
                        assert(seqs[i] == ps[i]);
                    } else {
                        assert(seqs[i] == ps[i] && seqs[j] == ps[j]);
                    }
                }
                assert forall|i: int| 0 <= i < seqs.len() implies v.last < #[trigger] seqs[i] <= r.last by {
                    if i < ps.len() {
                        assert(seqs[i] == ps[i]);
                    }
                }
            },
            None => {
                assert(seqs == ps);
                assert(r == q);
            },
        }
    }
}

impl CatalogRefreshStore {
    pub closed spec fn wf(&self) -> bool {
        &&& keys_distinct(self.projects@)
        &&& keys_distinct(self.successful_incremental_since_integrity@)
    }

    /// The last sequence number handed out.
    pub closed spec fn last_sequence(&self) -> u64 {
        self.next_sequence
    }

    /// The status of a project: its last transition, or cached with sequence 0.
    pub closed spec fn status_of(&self, project: Seq<char>) -> CatalogRefreshStatus {
        match lookup(self.projects@, project) {
            Some(s) => s,
            None => cached_status(),
        }
    }

    /// Successful incremental refreshes since the last full integrity scan.
    pub closed spec fn incremental_count(&self, project: Seq<char>) -> u16 {
        match lookup(self.successful_incremental_since_integrity@, project) {
            Some(n) => n,
            None => 0,
        }
    }

    /// The store as the refresh laws see it.
    pub closed spec fn model(&self) -> RefreshView {
        RefreshView {
            last: self.next_sequence,
            status: Map::new(|p: Seq<char>| true, |p: Seq<char>| self.status_of(p)),
            count: Map::new(|p: Seq<char>| true, |p: Seq<char>| self.incremental_count(p)),
        }
    }

    /// A store's model is total, and its entries are the store's statuses
    /// and counts.
    pub proof fn lemma_model(&self)
        ensures
            refresh_view_total(self.model()),
            self.model().last == self.last_sequence(),
            forall|p: Seq<char>| #[trigger] self.model().status[p] == self.status_of(p),
            forall|p: Seq<char>| #[trigger] self.model().count[p] == self.incremental_count(p),
    {
    }

    proof fn lemma_model_is(&self, v: RefreshView)
        requires
            refresh_view_total(v),
            self.last_sequence() == v.last,
            forall|p: Seq<char>| #[trigger] self.status_of(p) == v.status[p],
            forall|p: Seq<char>| #[trigger] self.incremental_count(p) == v.count[p],
        ensures
            self.model() == v,
    {
        assert(self.model().status =~= v.status);
        assert(self.model().count =~= v.count);
    }

    pub fn new() -> (r: Self)
        ensures
            r.wf(),
            r.last_sequence() == 0,
            forall|p: Seq<char>| #[trigger] r.status_of(p) == cached_status(),
            forall|p: Seq<char>| #[trigger] r.incremental_count(p) == 0,
            r.model() == initial_refresh_view(),
    {
        let r = CatalogRefreshStore {
            next_sequence: 0,
            projects: Vec::new(),
            successful_incremental_since_integrity: Vec::new(),
        };
        proof {
            r.lemma_model_is(initial_refresh_view());
        }
        r
    }

    fn advance(&mut self) -> (r: u64)
        ensures
            r == next_sequence_after(old(self).next_sequence),
            final(self).next_sequence == r,
            final(self).projects == old(self).projects,
            final(self).successful_incremental_since_integrity == old(
                self,
            ).successful_incremental_since_integrity,
    {
        self.next_sequence = if self.next_sequence == u64::MAX {
            1
        } else {
            self.next_sequence + 1
        };
        self.next_sequence
    }

    pub fn status(&self, project_id: &str) -> (r: CatalogRefreshStatus)
        ensures
            r == self.status_of(project_id@),
    {
        match find_last(&self.projects, project_id) {
            Some(i) => self.projects[i].1,
            None => CatalogRefreshStatus { freshness: CatalogFreshness::Cached, sequence: 0 },
        }
    }

    /// Starts one refresh per project. A caller whose project is already
    /// refreshing receives `None` and nothing changes.
    pub fn begin(&mut self, project_id: &str) -> (r: Option<CatalogRefreshStart>)
        requires
            old(self).wf(),
        ensures
            final(self).wf(),
            final(self).model() == refresh_step(old(self).model(), RefreshEvent::Begin(project_id@)),
            match r {
                Some(st) => refresh_returned(old(self).model(), RefreshEvent::Begin(project_id@)) == Some(st.status),
                None => refresh_returned(old(self).model(), RefreshEvent::Begin(project_id@)) is None,
            },
            old(self).status_of(project_id@).freshness == CatalogFreshness::Refreshing ==> {
                &&& r is None
                &&& final(self).last_sequence() == old(self).last_sequence()
                &&& forall|p: Seq<char>| #[trigger]
                    final(self).status_of(p) == old(self).status_of(p)
            },
            old(self).status_of(project_id@).freshness != CatalogFreshness::Refreshing ==> {
                let seq = next_sequence_after(old(self).last_sequence());
                let status = CatalogRefreshStatus {
                    freshness: CatalogFreshness::Refreshing,
                    sequence: seq,
                };
                &&& r == Some(
                    CatalogRefreshStart {
                        status,
                        full_integrity: old(self).incremental_count(project_id@)
                            >= FULL_CATALOG_INTEGRITY_INTERVAL,
                    },
                )
                &&& final(self).last_sequence() == seq
                &&& forall|p: Seq<char>| #[trigger]
                    final(self).status_of(p) == if p == project_id@ {
                        status
                    } else {
                        old(self).status_of(p)
                    }
            },
            forall|p: Seq<char>| #[trigger]
                final(self).incremental_count(p) == old(self).incremental_count(p),
    {
        if self.status(project_id).freshness == CatalogFreshness::Refreshing {
            return None;
        }
        let count = match find_last(&self.successful_incremental_since_integrity, project_id) {
            Some(i) => self.successful_incremental_since_integrity[i].1,
            None => 0,
        };
        let full_integrity = count >= FULL_CATALOG_INTEGRITY_INTERVAL;
        proof {
            old(self).lemma_model();
        }
        let sequence = self.advance();
        let status = CatalogRefreshStatus { freshness: CatalogFreshness::Refreshing, sequence };
        upsert(&mut self.projects, project_id, status);
        proof {
            old(self).lemma_model();
            self.lemma_model_is(refresh_step(old(self).model(), RefreshEvent::Begin(project_id@)));
        }
        Some(CatalogRefreshStart { status, full_integrity })
    }

    /// Records a finished refresh. A full integrity scan resets the
    /// incremental count; an incremental one increments it (saturating).
    pub fn complete(&mut self, project_id: &str, full_integrity: bool) -> (r: CatalogRefreshStatus)
        requires
            old(self).wf(),
        ensures
            final(self).wf(),
            final(self).model() == refresh_step(old(self).model(), RefreshEvent::Complete(project_id@, full_integrity)),
            Some(r) == refresh_returned(old(self).model(), RefreshEvent::Complete(project_id@, full_integrity)),
            r == (CatalogRefreshStatus {
                freshness: CatalogFreshness::Current,
                sequence: next_sequence_after(old(self).last_sequence()),
            }),
            final(self).last_sequence() == r.sequence,
            forall|p: Seq<char>| #[trigger]
                final(self).status_of(p) == if p == project_id@ {
                    r
                } else {
                    old(self).status_of(p)
                },
            forall|p: Seq<char>| #[trigger]
                final(self).incremental_count(p) == if p != project_id@ {
                    old(self).incremental_count(p)
                } else if full_integrity {
                    0
                } else if old(self).incremental_count(p) == u16::MAX {
                    u16::MAX
                } else {
                    (old(self).incremental_count(p) + 1) as u16
                },
    {
        if full_integrity {
            remove_key(&mut self.successful_incremental_since_integrity, project_id);
        } else {
            let count = match find_last(&self.successful_incremental_since_integrity, project_id) {
                Some(i) => self.successful_incremental_since_integrity[i].1,
                None => 0,
            };
            let next = if count == u16::MAX {
                u16::MAX
            } else {
                count + 1
            };
            upsert(&mut self.successful_incremental_since_integrity, project_id, next);
        }
        let sequence = self.advance();
        let status = CatalogRefreshStatus { freshness: CatalogFreshness::Current, sequence };
        upsert(&mut self.projects, project_id, status);
        proof {
            old(self).lemma_model();
            self.lemma_model_is(refresh_step(old(self).model(), RefreshEvent::Complete(project_id@, full_integrity)));
        }
        status
    }

    /// Records a failed refresh. The incremental count is left as it was.
    pub fn fail(&mut self, project_id: &str) -> (r: CatalogRefreshStatus)
        requires
            old(self).wf(),
        ensures
            final(self).wf(),
            final(self).model() == refresh_step(old(self).model(), RefreshEvent::Fail(project_id@)),
            Some(r) == refresh_returned(old(self).model(), RefreshEvent::Fail(project_id@)),
            r == (CatalogRefreshStatus {
                freshness: CatalogFreshness::Degraded,
                sequence: next_sequence_after(old(self).last_sequence()),
            }),
            final(self).last_sequence() == r.sequence,
            forall|p: Seq<char>| #[trigger]
                final(self).status_of(p) == if p == project_id@ {
                    r
                } else {
                    old(self).status_of(p)
                },
            forall|p: Seq<char>| #[trigger]
                final(self).incremental_count(p) == old(self).incremental_count(p),
    {
        let sequence = self.advance();
        let status = CatalogRefreshStatus { freshness: CatalogFreshness::Degraded, sequence };
        upsert(&mut self.projects, project_id, status);
        proof {
            old(self).lemma_model();
            self.lemma_model_is(refresh_step(old(self).model(), RefreshEvent::Fail(project_id@)));
        }
        status
    }
}

impl Default for CatalogRefreshStore {
    fn default() -> (r: Self)
        ensures
            r.wf(),
            r.last_sequence() == 0,
            forall|p: Seq<char>| #[trigger] r.status_of(p) == cached_status(),
            forall|p: Seq<char>| #[trigger] r.incremental_count(p) == 0,
    {
        CatalogRefreshStore::new()
    }
}

/// Every transition hands out a sequence number larger than any before it,
/// until the counter reaches its maximum.
pub proof fn lemma_sequence_advances(n: u64)
    requires
        n < u64::MAX,
    ensures
        next_sequence_after(n) > n,
        next_sequence_after(n) >= 1,
{
}

/// Issues cursor tokens and remembers, for each, the page it continues. At
/// most `MAX_TIMELINE_CURSORS` are kept; the oldest is forgotten first.
/// `records` keeps the cursors oldest first, in the order of
/// `insertion_order`.
pub struct TimelineCursorStore {
    records: Vec<(String, TimelineCursorRecord)>,
    insertion_order: Vec<String>,
}

/// A fresh random cursor token (`Uuid::new_v4`, hyphenated). Nothing is
/// claimed about its value: a token is only ever compared for equality.
#[verifier::external_body]
fn new_cursor_token() -> String {
    uuid::Uuid::new_v4().to_string()
}

/// `s` without `tok`, when it holds it.
pub open spec fn drop_token(s: Seq<Seq<char>>, tok: Seq<char>) -> Seq<Seq<char>> {
    if s.contains(tok) {
        s.remove(s.index_of(tok))
    } else {
        s
    }
}

/// The remembered tokens, oldest first, after `tok` is remembered: a full
/// store forgets its oldest token, and `tok` becomes the newest.
pub open spec fn tokens_after_insert(s: Seq<Seq<char>>, tok: Seq<char>) -> Seq<Seq<char>> {
    let kept = if s.len() >= MAX_TIMELINE_CURSORS {
        s.drop_first()
    } else {
        s
    };
    drop_token(kept, tok).push(tok)
}

/// The remembered tokens after each of `ns` is remembered in turn.
pub open spec fn tokens_after_inserts(s: Seq<Seq<char>>, ns: Seq<Seq<char>>) -> Seq<Seq<char>>
    decreases ns.len(),
{
    if ns.len() == 0 {
        s
    } else {
        tokens_after_insert(tokens_after_inserts(s, ns.drop_last()), ns.last())
    }
}

/// A token that is fresh to a store of distinct tokens is simply appended
/// after the eviction.
proof fn lemma_insert_fresh(s: Seq<Seq<char>>, tok: Seq<char>)
    requires
        s.no_duplicates(),
        s.len() <= MAX_TIMELINE_CURSORS,
        !s.contains(tok),
    ensures
        tokens_after_insert(s, tok) == (if s.len() >= MAX_TIMELINE_CURSORS {
            s.drop_first()
        } else {
            s
        }).push(tok),
        tokens_after_insert(s, tok).no_duplicates(),
        tokens_after_insert(s, tok).len() <= MAX_TIMELINE_CURSORS,
{
    let kept = if s.len() >= MAX_TIMELINE_CURSORS {
        s.drop_first()
    } else {
        s
    };
    assert(!kept.contains(tok)) by {
        if kept.contains(tok) {
            let k = choose|k: int| 0 <= k < kept.len() && kept[k] == tok;
            if s.len() >= MAX_TIMELINE_CURSORS {
                assert(s[k + 1] == tok);
            } else {
                assert(s[k] == tok);
            }
        }
    }
    let r = kept.push(tok);
    assert forall|a: int, b: int| 0 <= a < r.len() && 0 <= b < r.len() && a != b implies r[a]
        != r[b] by {
        if a < kept.len() && b < kept.len() {
            if s.len() >= MAX_TIMELINE_CURSORS {
                assert(kept[a] == s[a + 1] && kept[b] == s[b + 1]);
            }
        } else if a < kept.len() {
            assert(r[b] == tok);
        } else {
            assert(r[a] == tok);
        }
    }
}

/// How long a cursor lives: through later insertions of fresh, distinct
/// tokens, a remembered token stays remembered exactly as long as fewer than
/// `MAX_TIMELINE_CURSORS` tokens, itself included, are newer or as new. A
/// token just remembered therefore survives `MAX_TIMELINE_CURSORS - 1`
/// further insertions and is forgotten at the next one.
pub proof fn lemma_cursor_lifetime(s: Seq<Seq<char>>, ns: Seq<Seq<char>>, i: int)
    requires
        s.no_duplicates(),
        s.len() <= MAX_TIMELINE_CURSORS,
        0 <= i < s.len(),
        ns.no_duplicates(),
        forall|k: int| 0 <= k < ns.len() ==> !s.contains(#[trigger] ns[k]),
    ensures
        tokens_after_inserts(s, ns).contains(s[i]) <==> (s.len() - 1 - i) + ns.len()
            < MAX_TIMELINE_CURSORS,
        tokens_after_inserts(s, ns).no_duplicates(),
        tokens_after_inserts(s, ns).len() <= MAX_TIMELINE_CURSORS,
    decreases ns.len(),
{
    lemma_cursor_positions(s, ns, i);
    let r = tokens_after_inserts(s, ns);
    let a = s.len() - 1 - i;
    if a + ns.len() < MAX_TIMELINE_CURSORS {
        assert(r[r.len() - 1 - (a + ns.len())] == s[i]);
    }
}

/// The shape of the token sequence after fresh insertions: distinct, within
/// the bound, made of earlier and inserted tokens, and with `s[i]` exactly
/// `age + ns.len()` places from the newest end while it survives.
proof fn lemma_cursor_positions(s: Seq<Seq<char>>, ns: Seq<Seq<char>>, i: int)
    requires
        s.no_duplicates(),
        s.len() <= MAX_TIMELINE_CURSORS,
        0 <= i < s.len(),
        ns.no_duplicates(),
        forall|k: int| 0 <= k < ns.len() ==> !s.contains(#[trigger] ns[k]),
    ensures
        ({
            let r = tokens_after_inserts(s, ns);
            let a = s.len() - 1 - i;
            &&& r.no_duplicates()
            &&& r.len() <= MAX_TIMELINE_CURSORS
            &&& forall|x: Seq<char>| #[trigger] r.contains(x) ==> s.contains(x) || ns.contains(x)
            &&& (a + ns.len() < MAX_TIMELINE_CURSORS ==> r.len() - 1 - (a + ns.len()) >= 0
                && r[r.len() - 1 - (a + ns.len())] == s[i])
            &&& (a + ns.len() >= MAX_TIMELINE_CURSORS ==> !r.contains(s[i]))
        }),
    decreases ns.len(),
{
    let a = s.len() - 1 - i;
    if ns.len() == 0 {
        assert(s.len() - 1 - a == i);
    } else {
        let prior = ns.drop_last();
        assert(prior.no_duplicates()) by {
            assert forall|x: int, y: int| 0 <= x < prior.len() && 0 <= y < prior.len() && x != y
                implies prior[x] != prior[y] by {
                assert(prior[x] == ns[x] && prior[y] == ns[y]);
            }
        }
        assert forall|k: int| 0 <= k < prior.len() implies !s.contains(#[trigger] prior[k]) by {
            assert(prior[k] == ns[k]);
        }
        lemma_cursor_positions(s, prior, i);
        let q = tokens_after_inserts(s, prior);
        let tok = ns.last();
        assert(tok == ns[ns.len() - 1]);
        assert(!q.contains(tok)) by {
            if q.contains(tok) {
                if !s.contains(tok) {
                    assert(prior.contains(tok));
                    let k = choose|k: int| 0 <= k < prior.len() && prior[k] == tok;
                    assert(ns[k] == ns[ns.len() - 1]);
                }
            }
        }
        lemma_insert_fresh(q, tok);
        let r = tokens_after_inserts(s, ns);
        assert(r == tokens_after_insert(q, tok));
        let kept = if q.len() >= MAX_TIMELINE_CURSORS {
            q.drop_first()
        } else {
            q
        };
        assert(r == kept.push(tok));
        assert forall|x: Seq<char>| #[trigger] r.contains(x) implies s.contains(x) || ns.contains(x) by {
            let k = choose|k: int| 0 <= k < r.len() && r[k] == x;
            if k == r.len() - 1 {
                assert(ns[ns.len() - 1] == x);
            } else {
                if q.len() >= MAX_TIMELINE_CURSORS {
                    assert(q[k + 1] == x);
                    assert(q.contains(x));
                } else {
                    assert(q[k] == x);
                    assert(q.contains(x));
                }
                if prior.contains(x) {
                    let m = choose|m: int| 0 <= m < prior.len() && prior[m] == x;
                    assert(ns[m] == x);
                }
            }
        }
        let m = ns.len() - 1;
        if a + m < MAX_TIMELINE_CURSORS {
            let pq = q.len() - 1 - (a + m);
            assert(q[pq] == s[i]);
            if q.len() >= MAX_TIMELINE_CURSORS {
                if pq == 0 {
                    assert(a + ns.len() >= MAX_TIMELINE_CURSORS);
                    assert(!r.contains(s[i])) by {
                        if r.contains(s[i]) {
                            let k = choose|k: int| 0 <= k < r.len() && r[k] == s[i];
                            if k == r.len() - 1 {
                                assert(q.contains(tok));
                            } else {
                                assert(q[k + 1] == s[i]);
                            }
                        }
                    }
                } else {
                    assert(r[pq - 1] == q[pq]);
                    assert(r.len() - 1 - (a + ns.len()) == pq - 1);
                }
            } else {
                assert(r[pq] == q[pq]);
                assert(r.len() - 1 - (a + ns.len()) == pq);
            }
        } else {
            assert(!q.contains(s[i]));
            assert(!r.contains(s[i])) by {
                if r.contains(s[i]) {
                    let k = choose|k: int| 0 <= k < r.len() && r[k] == s[i];
                    if k == r.len() - 1 {
                        assert(s.contains(tok));
                    } else if q.len() >= MAX_TIMELINE_CURSORS {
                        assert(q[k + 1] == s[i]);
                    } else {
                        assert(q[k] == s[i]);
                    }
                }
            }
        }
    }
}

impl TimelineCursorStore {
    pub closed spec fn wf(&self) -> bool {
        &&& keys_distinct(self.records@)
        &&& self.records@.len() <= MAX_TIMELINE_CURSORS
        &&& self.insertion_order@.len() == self.records@.len()
        &&& forall|i: int|
            0 <= i < self.records@.len() ==> #[trigger] self.insertion_order@[i]@ == self.records@[i].0@
    }

    /// The record a token refers to.
    pub closed spec fn record_of(&self, token: Seq<char>) -> Option<TimelineCursorRecord> {
        lookup(self.records@, token)
    }

    /// The remembered tokens, oldest first.
    pub closed spec fn tokens(&self) -> Seq<Seq<char>> {
        self.records@.map_values(|p: (String, TimelineCursorRecord)| p.0@)
    }

    /// Number of remembered cursors.
    pub closed spec fn size(&self) -> nat {
        self.records@.len()
    }

    /// What a well-formed store's tokens are: distinct, within the bound, and
    /// exactly the tokens that have a record.
    pub proof fn lemma_tokens(&self)
        requires
            self.wf(),
        ensures
            self.tokens().no_duplicates(),
            self.tokens().len() == self.size(),
            self.size() <= MAX_TIMELINE_CURSORS,
            forall|t: Seq<char>| #[trigger] self.tokens().contains(t) <==> self.record_of(t) is Some,
    {
        let ts = self.tokens();
        assert forall|a: int, b: int| 0 <= a < ts.len() && 0 <= b < ts.len() && a != b implies ts[a]
            != ts[b] by {
            if a < b {
                assert(self.records@[a].0@ != self.records@[b].0@);
            } else {
                assert(self.records@[b].0@ != self.records@[a].0@);
            }
        }
        assert forall|t: Seq<char>| #[trigger] ts.contains(t) <==> self.record_of(t) is Some by {
            if ts.contains(t) {
                let k = choose|k: int| 0 <= k < ts.len() && ts[k] == t;
                crate::assoc::lemma_lookup_present(self.records@, k, t);
            } else {
                assert forall|j: int| 0 <= j < self.records@.len() implies (#[trigger] self.records@[j]).0@
                    != t by {
                    assert(ts[j] == self.records@[j].0@);
                }
                crate::assoc::lemma_lookup_absent(self.records@, t);
            }
        }
    }

    pub fn new() -> (r: Self)
        ensures
            r.wf(),
            r.size() == 0,
            r.tokens() == Seq::<Seq<char>>::empty(),
            forall|t: Seq<char>| #[trigger] r.record_of(t) is None,
    {
        let r = TimelineCursorStore { records: Vec::new(), insertion_order: Vec::new() };
        assert(r.tokens() =~= Seq::<Seq<char>>::empty());
        r
    }

    /// Remembers `record` under a new token and returns the token. A full
    /// store first forgets its oldest cursor, and only that one; every other
    /// cursor keeps its record. The token's value comes from a random source:
    /// should it equal a remembered token, that cursor's record is replaced and
    /// the token counts as the newest.
    pub fn insert(&mut self, record: TimelineCursorRecord) -> (token: String)
        requires
            old(self).wf(),
        ensures
            final(self).wf(),
            final(self).tokens() == tokens_after_insert(old(self).tokens(), token@),
            final(self).record_of(token@) == Some(record),
            forall|t: Seq<char>|
                t != token@ ==> #[trigger] final(self).record_of(t) == if final(self).tokens().contains(t) {
                    old(self).record_of(t)
                } else {
                    None
                },
    {
        let ghost old_tokens = self.tokens();
        let ghost old_records = self.records@;
        let ghost full = self.records@.len() >= MAX_TIMELINE_CURSORS;
        proof {
            self.lemma_tokens();
        }
        if self.records.len() >= MAX_TIMELINE_CURSORS {
            let ghost before = self.records@;
            self.insertion_order.remove(0);
            self.records.remove(0);
            proof {
                assert(self.records@ =~= before.remove(0));
                crate::assoc::lemma_keys_distinct_remove(before, 0);
                assert forall|i: int| 0 <= i < self.records@.len() implies #[trigger] self.insertion_order@[i]@
                    == self.records@[i].0@ by {
                    assert(self.records@[i] == before[i + 1]);
                }
                assert(self.tokens() =~= old_tokens.drop_first());
                assert forall|q: Seq<char>| #[trigger] lookup(self.records@, q) == if q == before[0].0@ {
                    None
                } else {
                    lookup(before, q)
                } by {
                    crate::assoc::lemma_lookup_remove(before, 0, q);
                }
            }
        }
        let ghost kept = self.tokens();
        let ghost kept_records = self.records@;
        assert(forall|q: Seq<char>| #[trigger] lookup(kept_records, q) == if full && q == old_records[0].0@ {
            None
        } else {
            lookup(old_records, q)
        });
        let token = new_cursor_token();
        proof {
            self.lemma_tokens();
        }
        match crate::assoc::find_last(&self.records, token.as_str()) {
            Some(i) => {
                let ghost before = self.records@;
                self.insertion_order.remove(i);
                self.records.remove(i);
                proof {
                    assert(self.records@ =~= before.remove(i as int));
                    crate::assoc::lemma_keys_distinct_remove(before, i as int);
                    assert forall|j: int| 0 <= j < self.records@.len() implies #[trigger] self.insertion_order@[j]@
                        == self.records@[j].0@ by {
                        if j < i {
                            assert(self.records@[j] == before[j]);
                        } else {
                            assert(self.records@[j] == before[j + 1]);
                        }
                    }
                    assert(kept.contains(token@)) by {
                        assert(kept[i as int] == token@);
                    }
                    assert(kept.index_of(token@) == i) by {
                        let x = kept.index_of(token@);
                        if x != i {
                            assert(kept[x] == kept[i as int]);
                            assert(before[x].0@ == before[i as int].0@);
                        }
                    }
                    assert(self.tokens() =~= drop_token(kept, token@));
                    assert forall|q: Seq<char>| #[trigger] lookup(self.records@, q) == if q == token@ {
                        None
                    } else {
                        lookup(before, q)
                    } by {
                        crate::assoc::lemma_lookup_remove(before, i as int, q);
                    }
                }
            },
            None => {
                proof {
                    assert(!kept.contains(token@)) by {
                        if kept.contains(token@) {
                            let k = choose|k: int| 0 <= k < kept.len() && kept[k] == token@;
                            assert(self.records@[k].0@ == token@);
                        }
                    }
                    assert(self.tokens() == drop_token(kept, token@));
                }
            },
        }
        assert(forall|q: Seq<char>| q != token@ ==> #[trigger] lookup(self.records@, q) == lookup(kept_records, q));
        let ghost before = self.records@;
        let ghost mid_tokens = self.tokens();
        proof {
            self.lemma_tokens();
            assert(!mid_tokens.contains(token@)) by {
                if mid_tokens.contains(token@) {
                    assert(lookup(before, token@) is Some);
                }
            }
        }
        self.insertion_order.push(token.clone());
        self.records.push((token.clone(), record));
        proof {
            assert forall|a: int, b: int| 0 <= a < b < self.records@.len() implies (#[trigger] self.records@[a]).0@
                != (#[trigger] self.records@[b]).0@ by {
                if b == before.len() {
                    assert(mid_tokens[a] == before[a].0@);
                }
            }
            assert forall|j: int| 0 <= j < self.records@.len() implies #[trigger] self.insertion_order@[j]@
                == self.records@[j].0@ by {
                if j < before.len() {
                    assert(self.records@[j] == before[j]);
                }
            }
            assert(self.tokens() =~= mid_tokens.push(token@));
            self.lemma_tokens();
            assert(old_tokens.len() == old(self).size());
            assert forall|q: Seq<char>| q != token@ implies #[trigger] self.record_of(q) == if self.tokens().contains(q) {
                old(self).record_of(q)
            } else {
                None
            } by {
                assert(self.records@.drop_last() =~= before);
                assert(lookup(self.records@, q) == lookup(before, q));
                assert(lookup(before, q) == lookup(kept_records, q));
            }
        }
        token
    }

    /// The record remembered under `token`, if any.
    pub fn get(&self, token: &str) -> (r: Option<TimelineCursorRecord>)
        ensures
            r == self.record_of(token@),
    {
        match find_last(&self.records, token) {
            Some(i) => Some(self.records[i].1.copied()),
            None => None,
        }
    }
}

impl Default for TimelineCursorStore {
    fn default() -> (r: Self)
        ensures
            r.wf(),
            r.size() == 0,
    {
        TimelineCursorStore::new()
    }
}


/// One bounded report backs cursor paging for the active transcript. It
/// records the exact byte length the report hashed and the modification
/// time seen by the same scan; a cursor page reuses it only for the same
/// project, session and revision.
pub struct TimelineProjectionCache {
    pub project_id: String,
    pub session_id: String,
    pub file_revision: String,
    pub source_len: u64,
    pub source_modified: Option<(u64, u32)>,
    pub report: Arc<ScanReport>,
}

impl TimelineProjectionCache {
    /// The cache entry for a report just observed for this project and session.
    pub fn new(project_id: &str, session_id: &str, report: ScanReport) -> (r: Self)
        ensures
            r.project_id@ == project_id@,
            r.session_id@ == session_id@,
            r.file_revision@ == report.file_revision@,
            r.source_len == (if report.complete_bytes + report.partial_tail_bytes > usize::MAX {
                usize::MAX as int
            } else {
                report.complete_bytes + report.partial_tail_bytes
            }),
            r.source_modified == report.source_modified,
            r.report == report,
    {
        let source_len = report.complete_bytes.saturating_add(report.partial_tail_bytes) as u64;
        let source_modified = report.source_modified;
        let file_revision = report.file_revision.clone();
        TimelineProjectionCache {
            project_id: project_id.to_owned(),
            session_id: session_id.to_owned(),
            file_revision,
            source_len,
            source_modified,
            report: Arc::new(report),
        }
    }

    /// The cheap rejection test of a reuse: the source must still have the
    /// recorded length and, when one was recorded, modification time.
    pub fn source_metadata_matches(&self, length: u64, modified: Option<(u64, u32)>) -> (r: bool)
        ensures
            r == (length == self.source_len && (self.source_modified is None || modified == self.source_modified)),
    {
        if length != self.source_len {
            return false;
        }
        match (self.source_modified, modified) {
            (None, _) => true,
            (Some(a), Some(b)) => a.0 == b.0 && a.1 == b.1,
            (Some(_), None) => false,
        }
    }

    /// Whether this entry holds the given project, session and revision.
    pub fn serves(&self, project_id: &str, session_id: &str, file_revision: &str) -> (r: bool)
        ensures
            r == (self.project_id@ == project_id@ && self.session_id@ == session_id@
                && self.file_revision@ == file_revision@),
    {
        str_eq(self.project_id.as_str(), project_id) && str_eq(self.session_id.as_str(), session_id)
            && str_eq(self.file_revision.as_str(), file_revision)
    }
}

/// `base` joined with the relative component `leaf`, `/`-separated.
pub open spec fn joined(base: Seq<char>, leaf: Seq<char>) -> Seq<char> {
    if base.len() > 0 && base.last() == '/' {
        base + leaf
    } else {
        base + seq!['/'] + leaf
    }
}

/// Joins a relative component onto a host path with `/`.
pub fn join_path(base: &str, leaf: &str) -> (r: String)
    ensures
        r@ == joined(base@, leaf@),
{
    let mut out = base.to_owned();
    let chars = crate::text::str_chars(base);
    if chars.len() == 0 || chars[chars.len() - 1] != '/' {
        crate::text::string_push(&mut out, '/');
    }
    push_str(&mut out, leaf);
    proof {
        if !(base@.len() > 0 && base@.last() == '/') {
            assert(base@.push('/') =~= base@ + seq!['/']);
        }
    }
    out
}

/// Where sessions are discovered: an explicit session directory wins; else
/// `<agent dir>/sessions`, the agent directory defaulting to
/// `<home>/.pi/agent`; with none of them, nowhere.
pub open spec fn session_roots(
    session_dir: Option<Seq<char>>,
    agent_dir: Option<Seq<char>>,
    home_dir: Option<Seq<char>>,
) -> Seq<Seq<char>> {
    match session_dir {
        Some(d) => seq![d],
        None => match agent_dir {
            Some(a) => seq![joined(a, "sessions"@)],
            None => match home_dir {
                Some(h) => seq![joined(joined(joined(h, ".pi"@), "agent"@), "sessions"@)],
                None => Seq::empty(),
            },
        },
    }
}

pub fn session_roots_from(
    session_dir: Option<String>,
    agent_dir: Option<String>,
    home_dir: Option<String>,
) -> (r: Vec<String>)
    ensures
        r@.map_values(|s: String| s@) == session_roots(
            opt_view(session_dir),
            opt_view(agent_dir),
            opt_view(home_dir),
        ),
{
    let mut roots: Vec<String> = Vec::new();
    match session_dir {
        Some(d) => {
            roots.push(d);
        },
        None => {
            let agent = match agent_dir {
                Some(a) => Some(a),
                None => match home_dir {
                    Some(h) => {
                        let pi = join_path(h.as_str(), ".pi");
                        Some(join_path(pi.as_str(), "agent"))
                    },
                    None => None,
                },
            };
            match agent {
                Some(a) => {
                    roots.push(join_path(a.as_str(), "sessions"));
                },
                None => {},
            }
        },
    }
    assert(roots@.map_values(|s: String| s@) =~= session_roots(
        opt_view(session_dir),
        opt_view(agent_dir),
        opt_view(home_dir),
    ));
    roots
}

/// The project-local session directory, `<project>/.pi/agent-sessions`,
/// and the `.pi` directory it lies in.
pub fn local_session_root_paths(canonical_project: &str) -> (r: (String, String))
    ensures
        r.0@ == joined(canonical_project@, ".pi"@),
        r.1@ == joined(joined(canonical_project@, ".pi"@), "agent-sessions"@),
{
    let pi = join_path(canonical_project, ".pi");
    let root = join_path(pi.as_str(), "agent-sessions");
    (pi, root)
}

/// The project-local session root counts only when both `.pi` and the root
/// itself are real directories, not links.
pub fn local_session_root(
    canonical_project: &str,
    pi_kind: crate::discovery_walk::PathKind,
    root_kind: crate::discovery_walk::PathKind,
) -> (r: Option<String>)
    ensures
        pi_kind == crate::discovery_walk::PathKind::Directory && root_kind == crate::discovery_walk::PathKind::Directory
            ==> (r matches Some(p) && p@ == joined(joined(canonical_project@, ".pi"@), "agent-sessions"@)),
        !(pi_kind == crate::discovery_walk::PathKind::Directory && root_kind == crate::discovery_walk::PathKind::Directory)
            ==> r is None,
{
    if pi_kind == crate::discovery_walk::PathKind::Directory && root_kind == crate::discovery_walk::PathKind::Directory {
        let (_, root) = local_session_root_paths(canonical_project);
        Some(root)
    } else {
        None
    }
}

/// `roots` after `first`, each kept only at its first occurrence.
pub open spec fn distinct_roots(acc: Seq<Seq<char>>, rest: Seq<Seq<char>>) -> Seq<Seq<char>>
    decreases rest.len(),
{
    if rest.len() == 0 {
        acc
    } else if acc.contains(rest[0]) {
        distinct_roots(acc, rest.drop_first())
    } else {
        distinct_roots(acc.push(rest[0]), rest.drop_first())
    }
}

/// The roots a project's discovery walks: its local session root first,
/// then each configured root not already listed.
pub fn discovery_roots(local_root: Option<String>, session_roots: &[String]) -> (r: Vec<String>)
    ensures
        r@.map_values(|s: String| s@) == distinct_roots(
            match local_root { Some(l) => seq![l@], None => Seq::empty() },
            session_roots@.map_values(|s: String| s@),
        ),
{
    let mut roots: Vec<String> = Vec::new();
    match local_root {
        Some(l) => roots.push(l),
        None => {},
    }
    let ghost all = session_roots@.map_values(|s: String| s@);
    let ghost start = roots@.map_values(|s: String| s@);
    assert(start =~= match local_root { Some(l) => seq![l@], None => Seq::<Seq<char>>::empty() });
    assert(all.skip(0) =~= all);
    let mut i: usize = 0;
    while i < session_roots.len()
        invariant
            i <= session_roots@.len(),
            all == session_roots@.map_values(|s: String| s@),
            distinct_roots(start, all) == distinct_roots(roots@.map_values(|s: String| s@), all.skip(i as int)),
        decreases session_roots.len() - i,
    {
        let ghost before = roots@.map_values(|s: String| s@);
        assert(all.skip(i as int)[0] == session_roots@[i as int]@);
        assert(all.skip(i as int).drop_first() =~= all.skip(i + 1));
        if !crate::extensions::contains_string(&roots, session_roots[i].as_str()) {
            roots.push(session_roots[i].clone());
            assert(roots@.map_values(|s: String| s@) =~= before.push(session_roots@[i as int]@));
        }
        i = i + 1;
    }
    assert(all.skip(all.len() as int) =~= Seq::<Seq<char>>::empty());
    assert(distinct_roots(roots@.map_values(|s: String| s@), Seq::<Seq<char>>::empty()) == roots@.map_values(|s: String| s@));
    roots
}

/// What resolving a registered project's stored path found.
#[derive(Clone, Copy, Debug, PartialEq, Eq, Structural)]
pub enum DirectoryObservation {
    /// It resolved to a directory; whether its identity is the registered one.
    Resolved { identity_matches: bool },
    /// It did not resolve, and nothing exists at the path.
    Absent,
    /// It did not resolve, but something exists at the path.
    Unresolvable,
}

/// What the observation means: the registered directory, a missing one
/// (marked missing, history kept), or a replacement (its cache purged and
/// its trust restricted).
#[derive(Clone, Copy, Debug, PartialEq, Eq, Structural)]
pub enum DirectoryVerdict {
    Verified,
    Missing,
    Replaced,
}

pub fn directory_verdict(observation: DirectoryObservation) -> (r: DirectoryVerdict)
    ensures
        r == (match observation {
            DirectoryObservation::Resolved { identity_matches } => if identity_matches {
                DirectoryVerdict::Verified
            } else {
                DirectoryVerdict::Replaced
            },
            DirectoryObservation::Absent => DirectoryVerdict::Missing,
            DirectoryObservation::Unresolvable => DirectoryVerdict::Replaced,
        }),
{
    match observation {
        DirectoryObservation::Resolved { identity_matches } => if identity_matches {
            DirectoryVerdict::Verified
        } else {
            DirectoryVerdict::Replaced
        },
        DirectoryObservation::Absent => DirectoryVerdict::Missing,
        DirectoryObservation::Unresolvable => DirectoryVerdict::Replaced,
    }
}

/// Host-private baseline captured after a bounded, project-owned session
/// observation. It is detection-only, never a file lock or a merge permit.
#[derive(Clone, Debug, PartialEq, Eq)]
pub struct SessionRevisionAdmission {
    pub project_id: String,
    /// Opaque indexed session identity, not the runtime's native session id.
    pub session_id: String,
    /// Host-private source path captured with the observed revision.
    pub session_file: String,
    /// The runtime's native id from the verified session header, when known.
    pub pi_session_id: Option<String>,
    pub file_revision: String,
}

} // verus!
