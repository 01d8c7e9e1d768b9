//! One synchronisation of one file against one service, as a state machine:
//! the caller performs each requested call and hands back what happened.
use vstd::prelude::*;
use crate::apply::{
    record_created, record_pushed, pull_record, append_record, with_parent, parent_headline, fresh_headline,
    lemma_appended_record_is_one_new_headline, lemma_created_remote_is_recorded,
};
use crate::error::Error;
use crate::org::{Document, HeadlineView, LAST_SYNC, lookup};
use crate::rerun::{
    clean_first_run, lemma_rerun_only_skips, remotely_updated, session_result, lemma_session_result_without_refusals,
    created_local, pulled_doc,
    acts_once, lemma_plan_acts_once_all, lemma_plan_creates_local, lemma_pulled_view_other,
    lemma_pulled_view_own, lemma_pushed_view_other, lemma_pushed_view_own, appended_upto, pulled_view,
    pushed_view,
};
use crate::plan::{
    identity,
    ConflictReason, OptionsView, PlanItem, RecordView, RemoteRecord, SyncOptions, indexable, item_local,
    lemma_plan_items_well_formed, plan_of, plan_sync, records_view, first_index, lemma_first_index,
};
use crate::retry::{Failure, RetryState, RetryStep, retry_decision};
use crate::time::{SyncWindow, format_instant, rfc3339_text, FIRST_STORABLE, LAST_STORABLE};

verus! {

/// Where a session stands.
#[derive(PartialEq, Eq, Structural, Clone, Copy, Debug)]
pub enum Phase {
    /// Waiting for the records of the window.
    Listing,
    /// Sending the plan's remote mutations, one at a time.
    Pushing,
    /// Finished; the report is complete.
    Done,
    /// Stopped by a failure; the report says which.
    Aborted,
}

/// A matched pair left for a person to resolve.
pub struct Conflict {
    /// Index of the headline in the document.
    pub local: usize,
    pub remote_id: String,
    pub cause: ConflictReason,
}

/// What a session did.
pub struct SyncReport {
    pub created_remote: usize,
    pub updated_remote: usize,
    pub updated_local: usize,
    pub created_local: usize,
    pub skipped: usize,
    pub conflicts: Vec<Conflict>,
    /// The failure that ended the session early, if any.
    pub error: Option<Error>,
}

/// What the caller is asked to do next.
pub enum Action {
    /// List the records of the window, all pages, ordered by start.
    List { time_min: i64, time_max: i64 },
    /// Wait this long, then answer with `Event::Resumed`.
    Wait { millis: u64 },
    /// Refresh the access token, then answer with `Event::Resumed`.
    RefreshToken,
    /// Create this record (its id is empty) and answer with its new id.
    CreateRemote { record: RemoteRecord },
    /// Update the record with this id, on condition that its last
    /// modification is still `record.updated`.
    UpdateRemote { record: RemoteRecord },
    /// Write the session's document to the file, atomically.
    Write,
    /// Nothing more to do.
    Finish,
}

/// What happened to the last requested call.
pub enum Event {
    Listed(Vec<RemoteRecord>),
    Created { id: String },
    Updated,
    Failed(Failure),
    /// The requested wait or token refresh is over.
    Resumed,
}

/// The record that pushes headline `h` under the id `id`, guarded by `updated`.
pub open spec fn draft_of(h: HeadlineView, id: Seq<char>, updated: i64) -> RecordView {
    RecordView {
        id,
        title: h.title,
        description: Some(h.body),
        start: h.scheduled.unwrap(),
        end: h.scheduled_end,
        updated,
    }
}

/// Whether the indices of a plan item refer to the document and records.
pub open spec fn item_fits(x: PlanItem, doc: Seq<HeadlineView>, recs: Seq<RecordView>) -> bool {
    match x {
        PlanItem::CreateRemote { local } => local < doc.len() && doc[local as int].scheduled.is_some(),
        PlanItem::CreateLocal { remote } => remote < recs.len(),
        PlanItem::UpdateRemote { local, remote } | PlanItem::UpdateLocal { local, remote }
        | PlanItem::FlagConflict { local, remote, .. } => local < doc.len() && remote < recs.len()
            && doc[local as int].scheduled.is_some(),
        PlanItem::Skip { .. } => true,
    }
}

/// A session of one file against one service.
pub struct SyncSession {
    pub doc: Document,
    pub opts: SyncOptions,
    pub window: SyncWindow,
    /// Modification time of the file when it was read.
    pub mtime: i64,
    /// RFC 3339 text of the window's `now`, written as the last
    /// synchronisation of every headline that this session synchronises.
    pub stamp: String,
    pub records: Vec<RemoteRecord>,
    pub plan: Vec<PlanItem>,
    /// Index of the plan item being sent.
    pub cursor: usize,
    pub retry: RetryState,
    pub phase: Phase,
    /// Number of changes made to the document.
    pub local_changes: usize,
    /// The headlines inserted into the document, in order: whether a parent
    /// was first added at the end, and where the new headline went.
    pub insertions: Vec<(bool, usize)>,
    pub report: SyncReport,
    /// The document as it was read.
    pub start: Ghost<Seq<HeadlineView>>,
    /// The id that the service gave each headline created remotely, by index.
    pub new_ids: Ghost<Seq<Seq<char>>>,
    /// The plan positions whose remote call the service refused as a
    /// concurrent modification.
    pub demoted: Ghost<Set<int>>,
}

/// The record that pushes a scheduled headline under `id`, guarded by `updated`.
fn draft(h: &crate::org::Headline, id: String, updated: i64) -> (r: RemoteRecord)
    requires
        h.scheduled.is_some(),
    ensures
        r@ == draft_of(h@, id@, updated),
{
    let start = match h.scheduled {
        Some(t) => t,
        None => 0,
    };
    RemoteRecord {
        id,
        title: h.title.clone(),
        description: Some(h.body.clone()),
        start,
        end: h.scheduled_end,
        updated,
    }
}

/// Whether the plan creates a headline for record `j`.
fn plan_creates_local(plan: &Vec<PlanItem>, j: usize) -> (r: bool)
    ensures
        r == exists|c: int| 0 <= c < plan@.len() && #[trigger] plan@[c] == (PlanItem::CreateLocal { remote: j }),
{
    let mut c: usize = 0;
    while c < plan.len()
        invariant
            c <= plan.len(),
            forall|c2: int| 0 <= c2 < c ==> #[trigger] plan@[c2] != (PlanItem::CreateLocal { remote: j }),
        decreases plan.len() - c,
    {
        let hit = match plan[c] {
            PlanItem::CreateLocal { remote } => remote == j,
            _ => false,
        };
        if hit {
            return true;
        }
        c += 1;
    }
    false
}

/// Number of positions before `n` at which `p` holds.
pub open spec fn count_upto(n: int, p: spec_fn(int) -> bool) -> nat
    decreases n,
{
    if n <= 0 {
        0
    } else {
        count_upto(n - 1, p) + if p(n - 1) {
            1nat
        } else {
            0nat
        }
    }
}

/// A count of positions before `n` is at most `n`.
proof fn lemma_count_upto_bound(n: int, p: spec_fn(int) -> bool)
    requires
        n >= 0,
    ensures
        count_upto(n, p) <= n,
    decreases n,
{
    if n > 0 {
        lemma_count_upto_bound(n - 1, p);
    }
}

/// Whether plan item `k` is a skip.
pub open spec fn skips(plan: Seq<PlanItem>) -> spec_fn(int) -> bool {
    |k: int| plan[k] is Skip
}

/// Whether plan item `k` created a remote record.
pub open spec fn created(plan: Seq<PlanItem>, demoted: Set<int>) -> spec_fn(int) -> bool {
    |k: int| plan[k] is CreateRemote && !demoted.contains(k)
}

/// Whether plan item `k` updated a remote record.
pub open spec fn pushed(plan: Seq<PlanItem>, demoted: Set<int>) -> spec_fn(int) -> bool {
    |k: int| plan[k] is UpdateRemote && !demoted.contains(k)
}

/// Whether plan item `k` updates a headline from its record.
pub open spec fn pulls(plan: Seq<PlanItem>) -> spec_fn(int) -> bool {
    |k: int| plan[k] is UpdateLocal
}

/// Whether record `j` is appended as a new headline.
pub open spec fn appends(start: Seq<HeadlineView>, recs: Seq<RecordView>, opts: OptionsView, w: SyncWindow) -> spec_fn(int) -> bool {
    |j: int| created_local(start, recs, opts, w, j)
}

/// Whether plan item `k` needs a remote call.
pub open spec fn calls_remote(plan: Seq<PlanItem>) -> spec_fn(int) -> bool {
    |k: int| plan[k] is CreateRemote || plan[k] is UpdateRemote
}

/// The first item from `c` on that needs a remote call.
pub open spec fn next_call(plan: Seq<PlanItem>, c: int) -> Option<int> {
    first_index(plan.len() as int, calls_remote(plan), c)
}

/// A conflict as (headline, record id, cause).
pub open spec fn conflict_view(c: Conflict) -> (usize, Seq<char>, ConflictReason) {
    (c.local, c.remote_id@, c.cause)
}

/// The conflicts that the plan items before `n` report: the flagged pairs,
/// and the pushes that the service refused as concurrent modifications.
pub open spec fn conflicts_upto(plan: Seq<PlanItem>, recs: Seq<RecordView>, demoted: Set<int>, n: int) -> Seq<(usize, Seq<char>, ConflictReason)>
    decreases n,
{
    if n <= 0 {
        Seq::empty()
    } else {
        let prev = conflicts_upto(plan, recs, demoted, n - 1);
        match plan[n - 1] {
            PlanItem::FlagConflict { local, remote, cause } => prev.push((local, recs[remote as int].id, cause)),
            PlanItem::UpdateRemote { local, remote } => if demoted.contains(n - 1) {
                prev.push((local, recs[remote as int].id, ConflictReason::RemoteChanged))
            } else {
                prev
            },
            _ => prev,
        }
    }
}

/// Whether `a` asks for the remote call of plan item `x`, with the content
/// of its headline in `doc`.
pub open spec fn asks_for(a: Action, x: PlanItem, doc: Seq<HeadlineView>, recs: Seq<RecordView>) -> bool {
    match x {
        PlanItem::CreateRemote { local } => a is CreateRemote && a->CreateRemote_record@ == draft_of(doc[local as int], Seq::empty(), 0),
        PlanItem::UpdateRemote { local, remote } => a is UpdateRemote
            && a->UpdateRemote_record@ == draft_of(doc[local as int], recs[remote as int].id, recs[remote as int].updated),
        _ => false,
    }
}

/// Whether records are listed in start order, as the service lists them.
pub open spec fn in_start_order(recs: Seq<RemoteRecord>) -> bool {
    forall|i: int| 0 < i < recs.len() ==> (#[trigger] recs[i - 1]).start <= recs[i].start
}

/// Whether records are listed in start order.
fn listed_in_start_order(recs: &Vec<RemoteRecord>) -> (r: bool)
    ensures
        r == in_start_order(recs@),
{
    let mut i: usize = 1;
    while i < recs.len()
        invariant
            1 <= i,
            forall|k: int| 0 < k < i && k < recs@.len() ==> (#[trigger] recs@[k - 1]).start <= recs@[k].start,
        decreases recs.len() - i,
    {
        if recs[i - 1].start > recs[i].start {
            return false;
        }
        i += 1;
    }
    true
}

/// What a session does once the plan items before `c` are settled: ask for
/// the next remote call, or, with none left, apply the local mutations,
/// finish, and ask for a write when the document changed. The one
/// exception is a document too long to grow, which ends the session.
pub open spec fn goes_on(s: SyncSession, a: Action, c: int) -> bool {
    match next_call(s.plan@, c) {
        Some(k) => s.phase is Pushing && s.cursor == k && asks_for(a, s.plan@[k], s.doc@, records_view(s.records@)),
        None => (s.phase is Done && (a is Write <==> s.local_changes > 0) && (a is Write || a is Finish))
            || (s.phase is Aborted && s.report.error == Some(Error::LocalIO) && s.doc@.len() >= usize::MAX - 1
                && (a is Write <==> s.local_changes > 0) && (a is Write || a is Finish)),
    }
}

impl SyncSession {
    /// The session's invariant: consistent, and while pushing, the cursor
    /// is on the item whose remote call is under way.
    pub open spec fn wf(&self) -> bool {
        &&& self.consistent()
        &&& self.phase is Pushing ==> self.cursor < self.plan@.len() && calls_remote(self.plan@)(self.cursor as int)
    }

    /// The window is well formed, the document and the report follow the
    /// plan, and the plan's indices refer to the document and the records.
    pub open spec fn consistent(&self) -> bool {
        &&& self.tracks()
        &&& self.reports()
        &&& self.window.wf()
        &&& self.phase is Listing ==> self.local_changes == 0
        &&& self.phase is Pushing ==> {
            &&& self.cursor <= self.plan@.len()
            &&& forall|k: int| 0 <= k < self.plan@.len()
                ==> #[trigger] item_fits(self.plan@[k], self.doc@, records_view(self.records@))
        }
    }

    /// How the document relates to the one that was read: unchanged while
    /// listing; while pushing, changed by the remote calls that succeeded;
    /// once done, as the plan leaves it (the synchronised document, where
    /// no call was refused).
    pub open spec fn tracks(&self) -> bool {
        &&& self.new_ids@.len() == self.start@.len()
        &&& self.phase is Listing ==> self.doc@ == self.start@ && self.demoted@ == Set::<int>::empty()
        &&& (self.phase is Pushing || self.phase is Done) ==> {
            &&& self.plan@ == plan_of(self.start@, records_view(self.records@), self.opts@, self.window, self.mtime)
            &&& indexable(self.start@, records_view(self.records@))
            &&& forall|c: int| #[trigger] self.demoted@.contains(c) ==> 0 <= c < self.cursor
        }
        &&& self.phase is Pushing ==> {
            &&& self.doc@.len() == self.start@.len()
            &&& forall|i: int| 0 <= i < self.start@.len() ==> self.doc@[i]
                == #[trigger] pushed_view(self.start@, self.plan@, self.opts.property@, self.stamp@, self.new_ids@, self.demoted@, self.cursor as int, i)
        }
        &&& self.phase is Done ==> self.cursor == self.plan@.len() && self.doc@ == session_result(
            self.start@,
            records_view(self.records@),
            self.opts@,
            self.window,
            self.mtime,
            self.stamp@,
            self.new_ids@,
            self.demoted@,
        )
    }

    /// What the report says: nothing while listing; while pushing and once
    /// done, the skips, remote creations and updates and the conflicts of
    /// the items passed, and once done the local updates and appends.
    pub open spec fn reports(&self) -> bool {
        &&& self.phase is Listing ==> {
            &&& self.report.created_remote == 0 && self.report.updated_remote == 0 && self.report.skipped == 0
            &&& self.report.conflicts@.len() == 0 && self.report.error.is_none()
        }
        &&& (self.phase is Pushing || self.phase is Done) ==> {
            &&& self.report.skipped == count_upto(self.cursor as int, skips(self.plan@))
            &&& self.report.created_remote == count_upto(self.cursor as int, created(self.plan@, self.demoted@))
            &&& self.report.updated_remote == count_upto(self.cursor as int, pushed(self.plan@, self.demoted@))
            &&& self.report.conflicts@.map_values(|c: Conflict| conflict_view(c))
                == conflicts_upto(self.plan@, records_view(self.records@), self.demoted@, self.cursor as int)
            &&& self.report.error.is_none()
        }
        &&& (self.phase is Listing || self.phase is Pushing) ==> self.report.updated_local == 0 && self.report.created_local == 0
        &&& self.phase is Done ==> {
            &&& self.report.updated_local == count_upto(self.plan@.len() as int, pulls(self.plan@))
            &&& self.report.created_local == count_upto(
                self.records@.len() as int,
                appends(self.start@, records_view(self.records@), self.opts@, self.window),
            )
        }
        &&& (self.local_changes > 0) == (self.report.created_remote + self.report.updated_remote
            + self.report.updated_local + self.report.created_local > 0)
    }

    /// Starts a session on `doc`; `None` where `now` has no RFC 3339 text.
    pub fn start(doc: Document, opts: SyncOptions, window: SyncWindow, mtime: i64) -> (r: Option<(SyncSession, Action)>)
        requires
            window.wf(),
        ensures
            r.is_some() == rfc3339_text(window.now as int).is_some(),
            FIRST_STORABLE <= window.now <= LAST_STORABLE ==> r.is_some(),
            r matches Some((s, a)) ==> {
                &&& s.wf()
                &&& s.phase is Listing
                &&& s.doc@ == doc@
                &&& s.start@ == doc@
                &&& s.opts == opts
                &&& s.window == window
                &&& s.mtime == mtime
                &&& Some(s.stamp@) == rfc3339_text(window.now as int)
                &&& s.retry == RetryState { transport_retries: 0, refreshed: false }
                &&& a == Action::List { time_min: window.time_min, time_max: window.time_max }
            },
    {
        let stamp = match format_instant(window.now) {
            Some(s) => s,
            None => return None,
        };
        let action = Action::List { time_min: window.time_min, time_max: window.time_max };
        let ghost start = doc@;
        let s = SyncSession {
            doc,
            opts,
            window,
            mtime,
            stamp,
            records: Vec::new(),
            plan: Vec::new(),
            cursor: 0,
            retry: RetryState::new(),
            phase: Phase::Listing,
            local_changes: 0,
            insertions: Vec::new(),
            report: SyncReport {
                created_remote: 0,
                updated_remote: 0,
                updated_local: 0,
                created_local: 0,
                skipped: 0,
                conflicts: Vec::new(),
                error: None,
            },
            start: Ghost(start),
            new_ids: Ghost(Seq::new(start.len(), |i: int| Seq::<char>::empty())),
            demoted: Ghost(Set::empty()),
        };
        Some((s, action))
    }

    /// Ends the session early because of `e`; the changes already made are
    /// kept, and written if there are any.
    fn abort(&mut self, e: Error) -> (a: Action)
        requires
            old(self).consistent(),
        ensures
            final(self).wf(),
            final(self).phase is Aborted,
            final(self).report.error == Some(e),
            final(self).doc == old(self).doc,
            final(self).local_changes == old(self).local_changes,
            final(self).plan == old(self).plan,
            final(self).records == old(self).records,
            final(self).start == old(self).start,
            final(self).new_ids == old(self).new_ids,
            final(self).retry == old(self).retry,
            a is Write <==> old(self).local_changes > 0,
            a is Write || a is Finish,
    {
        self.phase = Phase::Aborted;
        self.report.error = Some(e);
        if self.local_changes > 0 {
            Action::Write
        } else {
            Action::Finish
        }
    }

    /// Applies the plan's local mutations, once every remote one is done:
    /// headlines are updated from their records, then records that only
    /// exist remotely are appended, in listing order.
    fn finish_locally(&mut self) -> (a: Action)
        requires
            old(self).consistent(),
            old(self).phase is Pushing,
            old(self).cursor == old(self).plan@.len(),
        ensures
            final(self).wf(),
            (final(self).phase is Done || (final(self).phase is Aborted && final(self).report.error == Some(Error::LocalIO)
                && final(self).doc@.len() >= usize::MAX - 1)),
            a is Write <==> final(self).local_changes > 0,
            a is Write || a is Finish,
            final(self).plan == old(self).plan,
            final(self).records == old(self).records,
            final(self).start == old(self).start,
            final(self).new_ids == old(self).new_ids,
            final(self).demoted == old(self).demoted,
            final(self).cursor == old(self).cursor,
            final(self).retry == old(self).retry,
    {
        let ghost start = self.start@;
        let ghost recs = records_view(self.records@);
        let ghost property = self.opts.property@;
        let ghost stamp = self.stamp@;
        let ghost new_ids = self.new_ids@;
        let ghost demoted = self.demoted@;
        let ghost plan = self.plan@;
        proof {
            lemma_plan_acts_once_all(start, recs, self.opts@, self.window, self.mtime);
            assert forall|i: int| 0 <= i < start.len() implies self.doc@[i]
                == #[trigger] pulled_view(start, plan, recs, property, stamp, new_ids, demoted, 0, i) by {
                assert(self.doc@[i] == pushed_view(start, plan, property, stamp, new_ids, demoted, self.cursor as int, i));
            }
        }
        let n = self.plan.len();
        let mut k: usize = 0;
        while k < n
            invariant
                self.window.wf(),
                self.window == old(self).window,
                self.mtime == old(self).mtime,
                self.opts == old(self).opts,
                self.stamp == old(self).stamp,
                self.phase is Pushing,
                n == self.plan.len(),
                k <= n,
                self.cursor == old(self).cursor,
                self.retry == old(self).retry,
                self.plan == old(self).plan,
                self.records == old(self).records,
                self.start == old(self).start,
                self.new_ids == old(self).new_ids,
                self.demoted == old(self).demoted,
                self.report.skipped == old(self).report.skipped,
                self.report.created_remote == old(self).report.created_remote,
                self.report.updated_remote == old(self).report.updated_remote,
                self.report.conflicts == old(self).report.conflicts,
                self.report.error == old(self).report.error,
                self.report.created_local == 0,
                self.report.updated_local == count_upto(k as int, pulls(plan)),
                (self.local_changes > 0) == (self.report.created_remote + self.report.updated_remote
                    + self.report.updated_local + self.report.created_local > 0),
                start == self.start@,
                recs == records_view(self.records@),
                plan == self.plan@,
                property == self.opts.property@,
                stamp == self.stamp@,
                new_ids == self.new_ids@,
                demoted == self.demoted@,
                acts_once(plan),
                plan == plan_of(start, recs, self.opts@, self.window, self.mtime),
                indexable(start, recs),
                new_ids.len() == start.len(),
                self.doc@.len() == start.len(),
                forall|j: int| 0 <= j < self.plan@.len() ==> #[trigger] item_fits(self.plan@[j], self.doc@, records_view(self.records@)),
                forall|i: int| 0 <= i < start.len() ==> self.doc@[i]
                    == #[trigger] pulled_view(start, plan, recs, property, stamp, new_ids, demoted, k as int, i),
            decreases n - k,
        {
            let ghost before = self.doc@;
            proof {
                lemma_count_upto_bound(k as int, pulls(plan));
            }
            match self.plan[k] {
                PlanItem::UpdateLocal { local, remote } => {
                    assert(item_fits(self.plan@[k as int], self.doc@, records_view(self.records@)));
                    pull_record(&mut self.doc, local, &self.records[remote], &self.stamp);
                    assert forall|j: int| 0 <= j < self.plan@.len()
                        implies #[trigger] item_fits(self.plan@[j], self.doc@, records_view(self.records@)) by {
                        assert(item_fits(self.plan@[j], before, records_view(self.records@)));
                    }
                    proof {
                        assert forall|i: int| 0 <= i < start.len() implies self.doc@[i]
                            == #[trigger] pulled_view(start, plan, recs, property, stamp, new_ids, demoted, k + 1, i) by {
                            if i == local as int {
                                lemma_pulled_view_own(start, plan, recs, property, stamp, new_ids, demoted, k as int, i);
                                assert(recs[remote as int] == self.records@[remote as int]@);
                            } else {
                                lemma_pulled_view_other(start, plan, recs, property, stamp, new_ids, demoted, k as int, i);
                            }
                        }
                    }
                    self.local_changes = self.local_changes.saturating_add(1);
                    self.report.updated_local = self.report.updated_local + 1;
                },
                _ => {
                    proof {
                        assert forall|i: int| 0 <= i < start.len() implies self.doc@[i]
                            == #[trigger] pulled_view(start, plan, recs, property, stamp, new_ids, demoted, k + 1, i) by {
                            lemma_pulled_view_other(start, plan, recs, property, stamp, new_ids, demoted, k as int, i);
                        }
                    }
                },
            }
            k += 1;
        }
        let ghost d1 = pulled_doc(start, recs, self.opts@, self.window, self.mtime, stamp, new_ids, demoted);
        assert(self.doc@ =~= d1);
        let m = self.records.len();
        let mut j: usize = 0;
        while j < m
            invariant
                self.window.wf(),
                self.window == old(self).window,
                self.mtime == old(self).mtime,
                self.opts == old(self).opts,
                self.stamp == old(self).stamp,
                self.phase is Pushing,
                m == self.records.len(),
                j <= m,
                self.cursor == old(self).cursor,
                self.retry == old(self).retry,
                self.plan == old(self).plan,
                self.records == old(self).records,
                self.start == old(self).start,
                self.new_ids == old(self).new_ids,
                self.demoted == old(self).demoted,
                self.report.skipped == old(self).report.skipped,
                self.report.created_remote == old(self).report.created_remote,
                self.report.updated_remote == old(self).report.updated_remote,
                self.report.conflicts == old(self).report.conflicts,
                self.report.error == old(self).report.error,
                self.report.updated_local == count_upto(plan.len() as int, pulls(plan)),
                self.report.created_local == count_upto(j as int, appends(start, recs, self.opts@, self.window)),
                (self.local_changes > 0) == (self.report.created_remote + self.report.updated_remote
                    + self.report.updated_local + self.report.created_local > 0),
                start == self.start@,
                recs == records_view(self.records@),
                plan == self.plan@,
                new_ids == self.new_ids@,
                demoted == self.demoted@,
                new_ids.len() == start.len(),
                stamp == self.stamp@,
                plan == plan_of(start, recs, self.opts@, self.window, self.mtime),
                indexable(start, recs),
                d1 == pulled_doc(start, recs, self.opts@, self.window, self.mtime, stamp, new_ids, demoted),
                self.doc@ == appended_upto(d1, start, recs, self.opts@, self.window, stamp, j as int),
            decreases m - j,
        {
            let creates = plan_creates_local(&self.plan, j);
            proof {
                lemma_plan_creates_local(start, recs, self.opts@, self.window, self.mtime, j as int);
                lemma_count_upto_bound(j as int, appends(start, recs, self.opts@, self.window));
            }
            if creates {
                if self.doc.headlines.len() >= usize::MAX - 1 {
                    self.phase = Phase::Aborted;
                    self.report.error = Some(Error::LocalIO);
                    return if self.local_changes > 0 {
                        Action::Write
                    } else {
                        Action::Finish
                    };
                }
                let at = append_record(&mut self.doc, &self.opts.append_headline, &self.records[j], &self.opts.property, &self.stamp);
                assert(recs[j as int] == self.records@[j as int]@);
                self.insertions.push(at);
                self.local_changes = self.local_changes.saturating_add(1);
                self.report.created_local = self.report.created_local + 1;
            }
            j += 1;
        }
        self.phase = Phase::Done;
        if self.local_changes > 0 {
            Action::Write
        } else {
            Action::Finish
        }
    }

    /// Takes in the outcome of the last requested call and says what to do
    /// next. A listing out of start order is refused, so that new headlines
    /// are appended in time order. Failures follow the retry policy; when listing is given up, the
    /// session ends without touching or writing the document. After a
    /// listing, and after each remote call settled, the session asks for the
    /// next remote call of the plan or, with none left, applies the local
    /// mutations and finishes (see `goes_on`, and `tracks` and `reports` for
    /// the document and the report it leaves).
    pub fn on_event(&mut self, ev: Event) -> (a: Action)
        requires
            old(self).wf(),
        ensures
            final(self).wf(),
            final(self).start == old(self).start,
            old(self).phase is Done || old(self).phase is Aborted ==> a is Finish && *final(self) == *old(self),
            old(self).phase is Listing && !(ev is Listed) ==> final(self).doc == old(self).doc && !(a is Write),
            old(self).phase is Listing ==> match ev {
                Event::Failed(f) => final(self).retry == retry_decision(old(self).retry, f).1
                    && match retry_decision(old(self).retry, f).0 {
                        RetryStep::RetryAfter(ms) => a == Action::Wait { millis: ms } && final(self).phase is Listing,
                        RetryStep::RefreshThenRetry => a is RefreshToken && final(self).phase is Listing,
                        RetryStep::GiveUp(e) => a is Finish && final(self).phase is Aborted && final(self).report.error == Some(e),
                    },
                Event::Listed(recs) => if in_start_order(recs@) {
                    &&& final(self).records == recs
                    &&& final(self).plan@ == plan_of(old(self).doc@, records_view(recs@), old(self).opts@, old(self).window, old(self).mtime)
                    &&& final(self).new_ids == old(self).new_ids
                    &&& final(self).demoted@ == Set::<int>::empty()
                    &&& goes_on(*final(self), a, 0)
                } else {
                    &&& a is Finish
                    &&& final(self).phase is Aborted
                    &&& final(self).report.error == Some(Error::UnexpectedResponse)
                    &&& final(self).doc == old(self).doc
                },
                Event::Resumed => a == Action::List { time_min: old(self).window.time_min, time_max: old(self).window.time_max }
                    && final(self).phase is Listing && final(self).retry == old(self).retry,
                _ => a is Finish && final(self).phase is Aborted && final(self).report.error == Some(Error::UnexpectedResponse),
            },
            old(self).phase is Pushing ==> match ev {
                Event::Failed(f) => match retry_decision(old(self).retry, f).0 {
                    RetryStep::RetryAfter(ms) => a == Action::Wait { millis: ms } && final(self).phase is Pushing
                        && final(self).cursor == old(self).cursor && final(self).doc == old(self).doc
                        && final(self).retry == retry_decision(old(self).retry, f).1,
                    RetryStep::RefreshThenRetry => a is RefreshToken && final(self).phase is Pushing
                        && final(self).cursor == old(self).cursor && final(self).doc == old(self).doc
                        && final(self).retry == retry_decision(old(self).retry, f).1,
                    RetryStep::GiveUp(e) => if e == Error::ConcurrentModification {
                        &&& final(self).demoted@ == old(self).demoted@.insert(old(self).cursor as int)
                        &&& final(self).new_ids == old(self).new_ids
                        &&& final(self).plan == old(self).plan
                        &&& final(self).records == old(self).records
                        &&& goes_on(*final(self), a, old(self).cursor + 1)
                    } else {
                        &&& final(self).phase is Aborted
                        &&& final(self).report.error == Some(e)
                        &&& final(self).doc == old(self).doc
                        &&& final(self).retry == retry_decision(old(self).retry, f).1
                        &&& (a is Write <==> old(self).local_changes > 0)
                        &&& (a is Write || a is Finish)
                    },
                },
                Event::Created { id } => if old(self).plan@[old(self).cursor as int] is CreateRemote {
                    &&& final(self).new_ids@ == old(self).new_ids@.update(
                        item_local(old(self).plan@[old(self).cursor as int]).unwrap() as int,
                        id@,
                    )
                    &&& final(self).demoted == old(self).demoted
                    &&& final(self).plan == old(self).plan
                    &&& final(self).records == old(self).records
                    &&& goes_on(*final(self), a, old(self).cursor + 1)
                } else {
                    final(self).phase is Aborted && final(self).report.error == Some(Error::UnexpectedResponse)
                },
                Event::Updated => if old(self).plan@[old(self).cursor as int] is UpdateRemote {
                    &&& final(self).new_ids == old(self).new_ids
                    &&& final(self).demoted == old(self).demoted
                    &&& final(self).plan == old(self).plan
                    &&& final(self).records == old(self).records
                    &&& goes_on(*final(self), a, old(self).cursor + 1)
                } else {
                    final(self).phase is Aborted && final(self).report.error == Some(Error::UnexpectedResponse)
                },
                Event::Resumed => *final(self) == *old(self)
                    && asks_for(a, old(self).plan@[old(self).cursor as int], old(self).doc@, records_view(old(self).records@)),
                Event::Listed(_) => final(self).phase is Aborted && final(self).report.error == Some(Error::UnexpectedResponse),
            },
            a is Write ==> final(self).local_changes > 0,
    {
        match self.phase {
            Phase::Done | Phase::Aborted => Action::Finish,
            Phase::Listing => match ev {
                Event::Listed(recs) => if listed_in_start_order(&recs) {
                    self.on_listed(recs)
                } else {
                    self.abort(Error::UnexpectedResponse)
                },
                Event::Failed(f) => match self.retry.on_failure(f) {
                    RetryStep::RetryAfter(ms) => Action::Wait { millis: ms },
                    RetryStep::RefreshThenRetry => Action::RefreshToken,
                    RetryStep::GiveUp(e) => self.abort(e),
                },
                Event::Resumed => Action::List { time_min: self.window.time_min, time_max: self.window.time_max },
                _ => self.abort(Error::UnexpectedResponse),
            },
            Phase::Pushing => {
                let c = self.cursor;
                assert(item_fits(self.plan@[c as int], self.doc@, records_view(self.records@)));
                match ev {
                    Event::Failed(f) => match self.retry.on_failure(f) {
                        RetryStep::RetryAfter(ms) => Action::Wait { millis: ms },
                        RetryStep::RefreshThenRetry => Action::RefreshToken,
                        RetryStep::GiveUp(Error::ConcurrentModification) => self.on_refused(),
                        RetryStep::GiveUp(e) => self.abort(e),
                    },
                    Event::Created { id } => match self.plan[c] {
                        PlanItem::CreateRemote { .. } => self.on_created(id),
                        _ => self.abort(Error::UnexpectedResponse),
                    },
                    Event::Updated => match self.plan[c] {
                        PlanItem::UpdateRemote { .. } => self.on_updated(),
                        _ => self.abort(Error::UnexpectedResponse),
                    },
                    Event::Resumed => match self.plan[c] {
                        PlanItem::CreateRemote { local } => {
                            let record = draft(&self.doc.headlines[local], String::new(), 0);
                            assert(self.doc@[local as int] == self.doc.headlines@[local as int]@);
                            Action::CreateRemote { record }
                        },
                        PlanItem::UpdateRemote { local, remote } => {
                            let rec = &self.records[remote];
                            let record = draft(&self.doc.headlines[local], rec.id.clone(), rec.updated);
                            assert(self.doc@[local as int] == self.doc.headlines@[local as int]@);
                            assert(records_view(self.records@)[remote as int] == self.records@[remote as int]@);
                            Action::UpdateRemote { record }
                        },
                        _ => self.abort(Error::UnexpectedResponse),
                    },
                    Event::Listed(_) => self.abort(Error::UnexpectedResponse),
                }
            },
        }
    }

    /// Takes in the listed records: computes the plan and goes on with it.
    fn on_listed(&mut self, recs: Vec<RemoteRecord>) -> (a: Action)
        requires
            old(self).wf(),
            old(self).phase is Listing,
        ensures
            final(self).wf(),
            final(self).start == old(self).start,
            final(self).records == recs,
            final(self).plan@ == plan_of(old(self).doc@, records_view(recs@), old(self).opts@, old(self).window, old(self).mtime),
            final(self).new_ids == old(self).new_ids,
            final(self).demoted@ == Set::<int>::empty(),
            goes_on(*final(self), a, 0),
    {
        let plan = plan_sync(&self.doc, &recs, &self.opts, &self.window, self.mtime);
        assert(self.doc@.len() == self.doc.headlines.len());
        assert(records_view(recs@).len() == recs.len());
        proof {
            assert forall|k: int| 0 <= k < plan@.len()
                implies #[trigger] item_fits(plan@[k], self.doc@, records_view(recs@)) by {
                lemma_plan_items_well_formed(self.doc@, records_view(recs@), self.opts@, self.window, self.mtime, k);
            }
        }
        self.records = recs;
        self.plan = plan;
        self.cursor = 0;
        self.retry = RetryState::new();
        self.phase = Phase::Pushing;
        proof {
            assert(self.report.conflicts@.map_values(|c: Conflict| conflict_view(c)) =~= Seq::empty());
        }
        self.advance()
    }

    /// The service refused the current item's call as a concurrent
    /// modification: a refused push is reported as a conflict, and the
    /// session goes on with the next item.
    fn on_refused(&mut self) -> (a: Action)
        requires
            old(self).wf(),
            old(self).phase is Pushing,
        ensures
            final(self).wf(),
            final(self).start == old(self).start,
            final(self).demoted@ == old(self).demoted@.insert(old(self).cursor as int),
            final(self).new_ids == old(self).new_ids,
            final(self).plan == old(self).plan,
            final(self).records == old(self).records,
            goes_on(*final(self), a, old(self).cursor + 1),
    {
        let n = self.plan.len();
        let c = self.cursor;
        assert(c < n);
        assert(item_fits(self.plan@[c as int], self.doc@, records_view(self.records@)));
        let ghost plan = self.plan@;
        let ghost start = self.start@;
        let ghost recs = records_view(self.records@);
        let ghost dem = self.demoted@;
        proof {
            lemma_count_upto_bound(c as int, skips(plan));
        }
        match self.plan[c] {
            PlanItem::UpdateRemote { local, remote } => {
                let remote_id = self.records[remote].id.clone();
                self.report.conflicts.push(Conflict { local, remote_id, cause: ConflictReason::RemoteChanged });
            },
            _ => {},
        }
        self.demoted = Ghost(dem.insert(c as int));
        proof {
            let dem2 = self.demoted@;
            lemma_count_upto_agree(c as int, created(plan, dem), created(plan, dem2));
            lemma_count_upto_agree(c as int, pushed(plan, dem), pushed(plan, dem2));
            lemma_conflicts_upto_agree(plan, recs, dem, dem2, c as int);
            assert(self.report.conflicts@.map_values(|x: Conflict| conflict_view(x)) =~= conflicts_upto(plan, recs, dem2, c + 1));
            assert forall|i: int| 0 <= i < start.len() implies self.doc@[i] == #[trigger] pushed_view(
                start, plan, self.opts.property@, self.stamp@, self.new_ids@, dem2, c + 1, i,
            ) by {
                lemma_pushed_view_other(start, plan, self.opts.property@, self.stamp@, self.new_ids@, self.new_ids@, dem, dem2, c as int, i);
            }
        }
        self.retry = RetryState::new();
        self.cursor = c + 1;
        self.advance()
    }

    /// The current item's remote record was created with the id `id`: the
    /// headline records it, and the session goes on with the next item.
    fn on_created(&mut self, id: String) -> (a: Action)
        requires
            old(self).wf(),
            old(self).phase is Pushing,
            old(self).plan@[old(self).cursor as int] is CreateRemote,
        ensures
            final(self).wf(),
            final(self).start == old(self).start,
            final(self).new_ids@ == old(self).new_ids@.update(item_local(old(self).plan@[old(self).cursor as int]).unwrap() as int, id@),
            final(self).demoted == old(self).demoted,
            final(self).plan == old(self).plan,
            final(self).records == old(self).records,
            goes_on(*final(self), a, old(self).cursor + 1),
    {
        let n = self.plan.len();
        let c = self.cursor;
        assert(c < n);
        assert(item_fits(self.plan@[c as int], self.doc@, records_view(self.records@)));
        let ghost plan = self.plan@;
        let ghost start = self.start@;
        let ghost recs = records_view(self.records@);
        proof {
            lemma_plan_acts_once_all(start, recs, self.opts@, self.window, self.mtime);
            lemma_count_upto_bound(c as int, created(plan, self.demoted@));
        }
        let local = match self.plan[c] {
            PlanItem::CreateRemote { local } => local,
            _ => 0,
        };
        let ghost before = self.doc@;
        let ghost idv = id@;
        let ghost ids_before = self.new_ids@;
        let ghost dem = self.demoted@;
        record_created(&mut self.doc, local, &self.opts.property, id, &self.stamp);
        self.new_ids = Ghost(self.new_ids@.update(local as int, idv));
        proof {
            assert forall|i: int| 0 <= i < start.len() implies self.doc@[i] == #[trigger] pushed_view(
                start, plan, self.opts.property@, self.stamp@, self.new_ids@, dem, c + 1, i,
            ) by {
                if i == local as int {
                    assert forall|c2: int| 0 <= c2 < c implies item_local(#[trigger] plan[c2]) != Some(i as usize) by {
                        assert(item_local(plan[c as int]) != item_local(plan[c2]));
                    }
                    lemma_pushed_view_own(start, plan, self.opts.property@, self.stamp@, self.new_ids@, dem, c as int, i);
                    lemma_pushed_view_own(start, plan, self.opts.property@, self.stamp@, ids_before, dem, c as int, i);
                    assert(before[i] == pushed_view(start, plan, self.opts.property@, self.stamp@, ids_before, dem, c as int, i));
                } else {
                    lemma_pushed_view_other(start, plan, self.opts.property@, self.stamp@, ids_before, self.new_ids@, dem, dem, c as int, i);
                    assert(before[i] == pushed_view(start, plan, self.opts.property@, self.stamp@, ids_before, dem, c as int, i));
                }
            }
            assert(self.report.conflicts@.map_values(|x: Conflict| conflict_view(x)) =~= conflicts_upto(plan, recs, dem, c + 1));
        }
        assert forall|j: int| 0 <= j < self.plan@.len()
            implies #[trigger] item_fits(self.plan@[j], self.doc@, records_view(self.records@)) by {
            assert(item_fits(self.plan@[j], before, records_view(self.records@)));
        }
        self.local_changes = self.local_changes.saturating_add(1);
        self.report.created_remote = self.report.created_remote + 1;
        self.retry = RetryState::new();
        self.cursor = c + 1;
        self.advance()
    }

    /// The current item's remote record was updated: the headline records
    /// the synchronisation, and the session goes on with the next item.
    fn on_updated(&mut self) -> (a: Action)
        requires
            old(self).wf(),
            old(self).phase is Pushing,
            old(self).plan@[old(self).cursor as int] is UpdateRemote,
        ensures
            final(self).wf(),
            final(self).start == old(self).start,
            final(self).new_ids == old(self).new_ids,
            final(self).demoted == old(self).demoted,
            final(self).plan == old(self).plan,
            final(self).records == old(self).records,
            goes_on(*final(self), a, old(self).cursor + 1),
    {
        let n = self.plan.len();
        let c = self.cursor;
        assert(c < n);
        assert(item_fits(self.plan@[c as int], self.doc@, records_view(self.records@)));
        let ghost plan = self.plan@;
        let ghost start = self.start@;
        let ghost recs = records_view(self.records@);
        proof {
            lemma_plan_acts_once_all(start, recs, self.opts@, self.window, self.mtime);
            lemma_count_upto_bound(c as int, pushed(plan, self.demoted@));
        }
        let local = match self.plan[c] {
            PlanItem::UpdateRemote { local, .. } => local,
            _ => 0,
        };
        let ghost before = self.doc@;
        let ghost dem = self.demoted@;
        record_pushed(&mut self.doc, local, &self.stamp);
        proof {
            assert forall|i: int| 0 <= i < start.len() implies self.doc@[i] == #[trigger] pushed_view(
                start, plan, self.opts.property@, self.stamp@, self.new_ids@, dem, c + 1, i,
            ) by {
                if i == local as int {
                    assert forall|c2: int| 0 <= c2 < c implies item_local(#[trigger] plan[c2]) != Some(i as usize) by {
                        assert(item_local(plan[c as int]) != item_local(plan[c2]));
                    }
                    lemma_pushed_view_own(start, plan, self.opts.property@, self.stamp@, self.new_ids@, dem, c as int, i);
                } else {
                    lemma_pushed_view_other(start, plan, self.opts.property@, self.stamp@, self.new_ids@, self.new_ids@, dem, dem, c as int, i);
                }
                assert(before[i] == pushed_view(start, plan, self.opts.property@, self.stamp@, self.new_ids@, dem, c as int, i));
            }
            assert(self.report.conflicts@.map_values(|x: Conflict| conflict_view(x)) =~= conflicts_upto(plan, recs, dem, c + 1));
        }
        assert forall|j: int| 0 <= j < self.plan@.len()
            implies #[trigger] item_fits(self.plan@[j], self.doc@, records_view(self.records@)) by {
            assert(item_fits(self.plan@[j], before, records_view(self.records@)));
        }
        self.local_changes = self.local_changes.saturating_add(1);
        self.report.updated_remote = self.report.updated_remote + 1;
        self.retry = RetryState::new();
        self.cursor = c + 1;
        self.advance()
    }

    /// Moves to the next plan item that needs a remote call, recording the
    /// items passed on the way, or finishes when none is left.
    fn advance(&mut self) -> (a: Action)
        requires
            old(self).consistent(),
            old(self).phase is Pushing,
        ensures
            final(self).wf(),
            goes_on(*final(self), a, old(self).cursor as int),
            final(self).plan == old(self).plan,
            final(self).records == old(self).records,
            final(self).phase is Pushing ==> final(self).doc == old(self).doc,
            final(self).start == old(self).start,
            final(self).new_ids == old(self).new_ids,
            final(self).demoted == old(self).demoted,
    {
        let ghost c0 = self.cursor as int;
        let ghost plan = self.plan@;
        let ghost recs = records_view(self.records@);
        while self.cursor < self.plan.len()
            invariant
                self.consistent(),
                self.phase is Pushing,
                self.plan == old(self).plan,
                self.records == old(self).records,
                self.doc == old(self).doc,
                self.start == old(self).start,
                self.new_ids == old(self).new_ids,
                self.demoted == old(self).demoted,
                plan == self.plan@,
                recs == records_view(self.records@),
                c0 == old(self).cursor as int,
                c0 <= self.cursor,
                forall|k: int| c0 <= k < self.cursor ==> !#[trigger] calls_remote(plan)(k),
            decreases self.plan@.len() - self.cursor,
        {
            let c = self.cursor;
            assert(item_fits(self.plan@[c as int], self.doc@, records_view(self.records@)));
            proof {
                lemma_count_upto_bound(c as int, skips(plan));
            }
            match self.plan[c] {
                PlanItem::CreateRemote { local } => {
                    let record = draft(&self.doc.headlines[local], String::new(), 0);
                    proof {
                        lemma_first_index(plan.len() as int, calls_remote(plan), c0);
                        assert(calls_remote(plan)(c as int));
                        assert(self.doc@[local as int] == self.doc.headlines@[local as int]@);
                        let j = first_index(plan.len() as int, calls_remote(plan), c0).unwrap();
                        if j < c {
                            assert(!calls_remote(plan)(j));
                        }
                    }
                    return Action::CreateRemote { record };
                },
                PlanItem::UpdateRemote { local, remote } => {
                    let rec = &self.records[remote];
                    let record = draft(&self.doc.headlines[local], rec.id.clone(), rec.updated);
                    proof {
                        lemma_first_index(plan.len() as int, calls_remote(plan), c0);
                        assert(calls_remote(plan)(c as int));
                        assert(self.doc@[local as int] == self.doc.headlines@[local as int]@);
                        assert(recs[remote as int] == self.records@[remote as int]@);
                        let j = first_index(plan.len() as int, calls_remote(plan), c0).unwrap();
                        if j < c {
                            assert(!calls_remote(plan)(j));
                        }
                    }
                    return Action::UpdateRemote { record };
                },
                PlanItem::FlagConflict { local, remote, cause } => {
                    let remote_id = self.records[remote].id.clone();
                    self.report.conflicts.push(Conflict { local, remote_id, cause });
                },
                PlanItem::Skip { .. } => {
                    self.report.skipped = self.report.skipped + 1;
                },
                _ => {},
            }
            self.cursor = c + 1;
            proof {
                assert(!calls_remote(plan)(c as int));
                assert(self.report.conflicts@.map_values(|x: Conflict| conflict_view(x))
                    =~= conflicts_upto(plan, recs, self.demoted@, c + 1));
                assert forall|i: int| 0 <= i < self.start@.len() implies self.doc@[i] == #[trigger] pushed_view(
                    self.start@, self.plan@, self.opts.property@, self.stamp@, self.new_ids@, self.demoted@, self.cursor as int, i,
                ) by {
                    lemma_pushed_view_other(self.start@, self.plan@, self.opts.property@, self.stamp@, self.new_ids@, self.new_ids@,
                        self.demoted@, self.demoted@, c as int, i);
                    assert(self.doc@[i] == pushed_view(self.start@, self.plan@, self.opts.property@, self.stamp@, self.new_ids@,
                        self.demoted@, c as int, i));
                }
            }
        }
        proof {
            lemma_first_index(plan.len() as int, calls_remote(plan), c0);
        }
        self.finish_locally()
    }
}

/// Counts agree where their predicates agree.
proof fn lemma_count_upto_agree(n: int, p: spec_fn(int) -> bool, q: spec_fn(int) -> bool)
    requires
        forall|k: int| 0 <= k < n ==> #[trigger] p(k) == q(k),
    ensures
        count_upto(n, p) == count_upto(n, q),
    decreases n,
{
    if n > 0 {
        lemma_count_upto_agree(n - 1, p, q);
    }
}

/// The conflicts of the items before `n` agree where the refused positions
/// agree.
proof fn lemma_conflicts_upto_agree(plan: Seq<PlanItem>, recs: Seq<RecordView>, d1: Set<int>, d2: Set<int>, n: int)
    requires
        forall|k: int| 0 <= k < n ==> d1.contains(k) == d2.contains(k),
    ensures
        conflicts_upto(plan, recs, d1, n) == conflicts_upto(plan, recs, d2, n),
    decreases n,
{
    if n > 0 {
        lemma_conflicts_upto_agree(plan, recs, d1, d2, n - 1);
    }
}

/// A session that ended with no refused call, on a first run that was
/// clean, leaves a document on which running again, against the service's
/// records as the session left them and in the same window, plans nothing
/// but skips.
pub proof fn lemma_session_rerun_only_skips(s: SyncSession, updated: Seq<i64>, created_at: Seq<i64>, mtime2: i64)
    requires
        s.wf(),
        s.phase is Done,
        s.demoted@ == Set::<int>::empty(),
        clean_first_run(s.start@, records_view(s.records@), s.opts@, s.window, s.mtime, s.new_ids@, updated, created_at),
    ensures
        forall|k: int| 0 <= k < plan_of(
            s.doc@,
            remotely_updated(s.start@, records_view(s.records@), s.opts@, s.window, s.mtime, s.new_ids@, updated, created_at),
            s.opts@,
            s.window,
            mtime2,
        ).len() ==> #[trigger] plan_of(
            s.doc@,
            remotely_updated(s.start@, records_view(s.records@), s.opts@, s.window, s.mtime, s.new_ids@, updated, created_at),
            s.opts@,
            s.window,
            mtime2,
        )[k] is Skip,
{
    lemma_session_result_without_refusals(s.start@, records_view(s.records@), s.opts@, s.window, s.mtime, s.stamp@, s.new_ids@);
    lemma_rerun_only_skips(
        s.start@, records_view(s.records@), s.opts@, s.window, s.mtime, mtime2, s.stamp@, s.new_ids@, updated, created_at,
    );
}

/// In the document that a finished session leaves, appending a record that
/// the plan creates locally adds exactly one headline, carrying the record's
/// id, besides at most a new parent headline without properties; the
/// document is the result of these appends, in listing order.
pub proof fn lemma_session_appends_one_headline_per_record(s: SyncSession, j: int)
    requires
        s.wf(),
        s.phase is Done,
        0 <= j < s.records@.len(),
        created_local(s.start@, records_view(s.records@), s.opts@, s.window, j),
    ensures
        ({
            let recs = records_view(s.records@);
            let pulled = pulled_doc(s.start@, recs, s.opts@, s.window, s.mtime, s.stamp@, s.new_ids@, s.demoted@);
            let before = appended_upto(pulled, s.start@, recs, s.opts@, s.window, s.stamp@, j);
            let after = appended_upto(pulled, s.start@, recs, s.opts@, s.window, s.stamp@, j + 1);
            let fresh = fresh_headline(recs[j], 2, s.opts.property@, s.stamp@);
            &&& s.doc@ == appended_upto(pulled, s.start@, recs, s.opts@, s.window, s.stamp@, recs.len() as int)
            &&& with_parent(before, s.opts.append_headline@) == before
                || with_parent(before, s.opts.append_headline@) == before.push(parent_headline(s.opts.append_headline@))
            &&& exists|pos: int| 0 <= pos <= with_parent(before, s.opts.append_headline@).len()
                && after == #[trigger] with_parent(before, s.opts.append_headline@).insert(pos, fresh)
            &&& identity(fresh, s.opts.property@) == Some(recs[j].id)
        }),
{
    let recs = records_view(s.records@);
    let pulled = pulled_doc(s.start@, recs, s.opts@, s.window, s.mtime, s.stamp@, s.new_ids@, s.demoted@);
    let before = appended_upto(pulled, s.start@, recs, s.opts@, s.window, s.stamp@, j);
    lemma_appended_record_is_one_new_headline(before, s.opts.append_headline@, recs[j], s.opts.property@, s.stamp@);
}

/// In the document that a finished session leaves (before the appends,
/// which only insert headlines), a headline whose remote record was created
/// carries the id that the service returned, kept in `new_ids`, and the
/// session's stamp as its last synchronisation.
pub proof fn lemma_session_created_remote_recorded(s: SyncSession, c: int)
    requires
        s.wf(),
        s.phase is Done,
        0 <= c < s.plan@.len(),
        s.plan@[c] is CreateRemote,
        !s.demoted@.contains(c),
        s.opts.property@ != LAST_SYNC@,
    ensures
        ({
            let i = item_local(s.plan@[c]).unwrap() as int;
            let h = pulled_doc(s.start@, records_view(s.records@), s.opts@, s.window, s.mtime, s.stamp@, s.new_ids@, s.demoted@)[i];
            &&& 0 <= i < s.start@.len()
            &&& identity(h, s.opts.property@) == Some(s.new_ids@[i])
            &&& lookup(h.properties, LAST_SYNC@) == Some(s.stamp@)
        }),
{
    let recs = records_view(s.records@);
    let plan = s.plan@;
    let i = item_local(plan[c]).unwrap() as int;
    lemma_plan_acts_once_all(s.start@, recs, s.opts@, s.window, s.mtime);
    crate::rerun::lemma_item_local_source(s.start@, recs, s.opts@, s.window, s.mtime, c);
    assert(plan[c] == (PlanItem::CreateRemote { local: i as usize }));
    if exists|c2: int| 0 <= c2 < plan.len() && #[trigger] plan[c2] is UpdateLocal && item_local(plan[c2]) == Some(i as usize) {
        let c2 = choose|c2: int| 0 <= c2 < plan.len() && #[trigger] plan[c2] is UpdateLocal && item_local(plan[c2]) == Some(i as usize);
        assert(item_local(plan[c]) != item_local(plan[c2]));
    }
    lemma_created_remote_is_recorded(s.start@[i], s.opts.property@, s.new_ids@[i], s.stamp@);
}

} // verus!
