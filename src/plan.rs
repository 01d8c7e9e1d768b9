//! Reconciliation: matching headlines against remote records and deciding,
//! for each, whether to create, update, skip or flag a conflict.
use vstd::prelude::*;
use crate::org::{Document, Headline, HeadlineView, LAST_SYNC, lookup, get_property, last_sync_name};
use crate::time::{SyncWindow, rfc3339_instant, parse_instant};

verus! {

/// A record of the remote service, with its instants in seconds.
pub struct RemoteRecord {
    pub id: String,
    pub title: String,
    pub description: Option<String>,
    pub start: i64,
    pub end: Option<i64>,
    /// Last modification of the record on the server.
    pub updated: i64,
}

/// Spec view of a remote record.
pub struct RecordView {
    pub id: Seq<char>,
    pub title: Seq<char>,
    pub description: Option<Seq<char>>,
    pub start: i64,
    pub end: Option<i64>,
    pub updated: i64,
}

impl View for RemoteRecord {
    type V = RecordView;

    open spec fn view(&self) -> RecordView {
        RecordView {
            id: self.id@,
            title: self.title@,
            description: match self.description {
                Some(d) => Some(d@),
                None => None,
            },
            start: self.start,
            end: self.end,
            updated: self.updated,
        }
    }
}

/// Spec view of a list of records.
pub open spec fn records_view(recs: Seq<RemoteRecord>) -> Seq<RecordView> {
    recs.map_values(|r: RemoteRecord| r@)
}

/// What is compared between a headline and a record: title, start, end and
/// description (a missing description reads as empty).
pub struct Content {
    pub title: Seq<char>,
    pub start: i64,
    pub end: Option<i64>,
    pub description: Seq<char>,
}

/// The content of a scheduled headline.
pub open spec fn local_content(h: HeadlineView) -> Content {
    Content {
        title: h.title,
        start: h.scheduled.unwrap(),
        end: h.scheduled_end,
        description: h.body,
    }
}

/// The content of a remote record.
pub open spec fn remote_content(r: RecordView) -> Content {
    Content {
        title: r.title,
        start: r.start,
        end: r.end,
        description: match r.description {
            Some(d) => d,
            None => Seq::empty(),
        },
    }
}

/// Why a matched pair is flagged for a person to resolve.
#[derive(PartialEq, Eq, Structural, Clone, Copy, Debug)]
pub enum ConflictReason {
    /// Both sides changed since the last synchronisation (or it never happened).
    BothModified,
    /// The contents differ although neither side changed since the last
    /// synchronisation.
    Diverged,
    /// The record changed on the server between listing and updating it.
    RemoteChanged,
}

/// What to do with a matched pair.
#[derive(PartialEq, Eq, Structural, Clone, Copy, Debug)]
pub enum Decision {
    Skip,
    UpdateRemote,
    UpdateLocal,
    Conflict(ConflictReason),
}

/// The decision for a matched pair, from the two contents, the record's last
/// modification, the headline's last synchronisation and the file's
/// modification time.
pub open spec fn decision_of(
    local: Content,
    remote: Content,
    updated: i64,
    last_sync: Option<int>,
    mtime: i64,
) -> Decision {
    if local == remote {
        Decision::Skip
    } else {
        match last_sync {
            None => Decision::Conflict(ConflictReason::BothModified),
            Some(t) => {
                let local_changed = mtime > t;
                let remote_changed = updated > t;
                if local_changed && !remote_changed {
                    Decision::UpdateRemote
                } else if !local_changed && remote_changed {
                    Decision::UpdateLocal
                } else if local_changed && remote_changed {
                    Decision::Conflict(ConflictReason::BothModified)
                } else {
                    Decision::Conflict(ConflictReason::Diverged)
                }
            },
        }
    }
}

/// An `Option<i64>` read as an `Option<int>`.
pub open spec fn widen(o: Option<i64>) -> Option<int> {
    match o {
        Some(t) => Some(t as int),
        None => None,
    }
}

/// Whether a scheduled headline and a record have the same content.
pub fn same_content(h: &Headline, r: &RemoteRecord) -> (b: bool)
    requires
        h.scheduled.is_some(),
    ensures
        b == (local_content(h@) == remote_content(r@)),
{
    let start = match h.scheduled {
        Some(t) => t,
        None => 0,
    };
    let ends_equal = match (h.scheduled_end, r.end) {
        (Some(a), Some(b)) => a == b,
        (None, None) => true,
        _ => false,
    };
    let descriptions_equal = match &r.description {
        Some(d) => *d == h.body,
        None => h.body.as_str().is_empty(),
    };
    proof {
        if r.description.is_none() && h.body@.len() == 0 {
            assert(h.body@ =~= Seq::<char>::empty());
        }
    }
    h.title == r.title && start == r.start && ends_equal && descriptions_equal
}

/// Decides what to do with a matched pair; `last_sync` is the headline's
/// last synchronisation instant, when it has a readable one.
pub fn decide(h: &Headline, r: &RemoteRecord, last_sync: Option<i64>, mtime: i64) -> (d: Decision)
    requires
        h.scheduled.is_some(),
    ensures
        d == decision_of(local_content(h@), remote_content(r@), r.updated, widen(last_sync), mtime),
{
    if same_content(h, r) {
        return Decision::Skip;
    }
    match last_sync {
        None => Decision::Conflict(ConflictReason::BothModified),
        Some(t) => {
            let local_changed = mtime > t;
            let remote_changed = r.updated > t;
            if local_changed && !remote_changed {
                Decision::UpdateRemote
            } else if !local_changed && remote_changed {
                Decision::UpdateLocal
            } else if local_changed && remote_changed {
                Decision::Conflict(ConflictReason::BothModified)
            } else {
                Decision::Conflict(ConflictReason::Diverged)
            }
        },
    }
}

/// Options of one synchronised file that the engine reads.
pub struct SyncOptions {
    /// Name of the property that holds a headline's remote id.
    pub property: String,
    /// Whether records that only exist remotely become new headlines.
    pub append_new: bool,
    /// Title of the top-level headline under which new headlines go.
    pub append_headline: String,
}

/// Spec view of the options.
pub struct OptionsView {
    pub property: Seq<char>,
    pub append_new: bool,
    pub append_headline: Seq<char>,
}

impl View for SyncOptions {
    type V = OptionsView;

    open spec fn view(&self) -> OptionsView {
        OptionsView {
            property: self.property@,
            append_new: self.append_new,
            append_headline: self.append_headline@,
        }
    }
}

/// The first index in `[k, n)` at which `p` holds.
pub open spec fn first_index(n: int, p: spec_fn(int) -> bool, k: int) -> Option<int>
    decreases n - k,
{
    if k >= n {
        None
    } else if p(k) {
        Some(k)
    } else {
        first_index(n, p, k + 1)
    }
}

/// `first_index` finds the first index at which the predicate holds, and
/// finds none only where it holds nowhere.
pub proof fn lemma_first_index(n: int, p: spec_fn(int) -> bool, k: int)
    ensures
        match first_index(n, p, k) {
            Some(j) => k <= j < n && p(j) && forall|i: int| k <= i < j ==> !#[trigger] p(i),
            None => forall|i: int| k <= i < n ==> !#[trigger] p(i),
        },
    decreases n - k,
{
    if k < n && !p(k) {
        lemma_first_index(n, p, k + 1);
    }
}

/// Whether a headline is scheduled inside the window.
pub open spec fn in_window(h: HeadlineView, w: SyncWindow) -> bool {
    match h.scheduled {
        Some(t) => w.holds(t),
        None => false,
    }
}

/// The remote id that a headline carries in its identity property.
pub open spec fn identity(h: HeadlineView, property: Seq<char>) -> Option<Seq<char>> {
    lookup(h.properties, property)
}

/// The headline's last synchronisation instant, when it has a readable one.
pub open spec fn last_sync_of(h: HeadlineView) -> Option<int> {
    match lookup(h.properties, LAST_SYNC@) {
        Some(t) => rfc3339_instant(t),
        None => None,
    }
}

/// Whether headline `i` is in the window and carries `id`.
pub open spec fn carrier(doc: Seq<HeadlineView>, property: Seq<char>, w: SyncWindow, id: Seq<char>) -> spec_fn(int) -> bool {
    |i: int| in_window(doc[i], w) && identity(doc[i], property) == Some(id)
}

/// The first in-window headline that carries `id`.
pub open spec fn find_local(doc: Seq<HeadlineView>, property: Seq<char>, w: SyncWindow, id: Seq<char>) -> Option<int> {
    first_index(doc.len() as int, carrier(doc, property, w, id), 0)
}

/// Whether record `j` starts in the window and has the id `id`.
pub open spec fn lister(recs: Seq<RecordView>, w: SyncWindow, id: Seq<char>) -> spec_fn(int) -> bool {
    |j: int| w.holds(recs[j].start) && recs[j].id == id
}

/// The first record that starts in the window and has the id `id`.
pub open spec fn find_record(recs: Seq<RecordView>, w: SyncWindow, id: Seq<char>) -> Option<int> {
    first_index(recs.len() as int, lister(recs, w, id), 0)
}

/// Why an entity is left alone.
#[derive(PartialEq, Eq, Structural, Clone, Copy, Debug)]
pub enum SkipReason {
    /// Both sides hold the same content.
    UpToDate,
    /// The headline's record is not among those listed in the window; the
    /// headline is kept.
    RemoteDeleted,
    /// The record exists only remotely and new headlines are not appended.
    NotAppending,
    /// An earlier headline in the window carries the same remote id.
    DuplicateIdentity,
}

/// What a skip refers to: a headline, a record, or a matched pair.
#[derive(PartialEq, Eq, Structural, Clone, Copy, Debug)]
pub enum SkipTarget {
    Local(usize),
    Remote(usize),
    Pair(usize, usize),
}

/// One step of a synchronisation plan. Headlines are referred to by their
/// index in the document, records by their index in the listed records.
#[derive(PartialEq, Eq, Structural, Clone, Copy, Debug)]
pub enum PlanItem {
    CreateRemote { local: usize },
    CreateLocal { remote: usize },
    UpdateRemote { local: usize, remote: usize },
    UpdateLocal { local: usize, remote: usize },
    FlagConflict { local: usize, remote: usize, cause: ConflictReason },
    Skip { target: SkipTarget, reason: SkipReason },
}

/// The plan item for a matched pair.
pub open spec fn pair_item(d: Decision, i: int, j: int) -> PlanItem {
    match d {
        Decision::Skip => PlanItem::Skip { target: SkipTarget::Pair(i as usize, j as usize), reason: SkipReason::UpToDate },
        Decision::UpdateRemote => PlanItem::UpdateRemote { local: i as usize, remote: j as usize },
        Decision::UpdateLocal => PlanItem::UpdateLocal { local: i as usize, remote: j as usize },
        Decision::Conflict(cause) => PlanItem::FlagConflict { local: i as usize, remote: j as usize, cause },
    }
}

/// The item that headline `i` contributes to the plan, if any.
pub open spec fn local_item(
    doc: Seq<HeadlineView>,
    recs: Seq<RecordView>,
    opts: OptionsView,
    w: SyncWindow,
    mtime: i64,
    i: int,
) -> Option<PlanItem> {
    let h = doc[i];
    if !in_window(h, w) {
        None
    } else {
        match identity(h, opts.property) {
            None => Some(PlanItem::CreateRemote { local: i as usize }),
            Some(id) => if find_local(doc, opts.property, w, id) != Some(i) {
                Some(PlanItem::Skip { target: SkipTarget::Local(i as usize), reason: SkipReason::DuplicateIdentity })
            } else {
                match find_record(recs, w, id) {
                    None => Some(PlanItem::Skip { target: SkipTarget::Local(i as usize), reason: SkipReason::RemoteDeleted }),
                    Some(j) => Some(pair_item(
                        decision_of(local_content(h), remote_content(recs[j]), recs[j].updated, last_sync_of(h), mtime),
                        i,
                        j,
                    )),
                }
            },
        }
    }
}

/// The item that record `j` contributes to the plan, if any: records outside
/// the window, repeated ids and records matched by a headline contribute none.
pub open spec fn remote_item(
    doc: Seq<HeadlineView>,
    recs: Seq<RecordView>,
    opts: OptionsView,
    w: SyncWindow,
    j: int,
) -> Option<PlanItem> {
    let r = recs[j];
    if !w.holds(r.start) || find_record(recs, w, r.id) != Some(j) {
        None
    } else if find_local(doc, opts.property, w, r.id).is_some() {
        None
    } else if opts.append_new {
        Some(PlanItem::CreateLocal { remote: j as usize })
    } else {
        Some(PlanItem::Skip { target: SkipTarget::Remote(j as usize), reason: SkipReason::NotAppending })
    }
}

/// The items of the first `n` headlines, in document order.
pub open spec fn local_items(
    doc: Seq<HeadlineView>,
    recs: Seq<RecordView>,
    opts: OptionsView,
    w: SyncWindow,
    mtime: i64,
    n: int,
) -> Seq<PlanItem>
    decreases n,
{
    if n <= 0 {
        Seq::empty()
    } else {
        let prev = local_items(doc, recs, opts, w, mtime, n - 1);
        match local_item(doc, recs, opts, w, mtime, n - 1) {
            Some(x) => prev.push(x),
            None => prev,
        }
    }
}

/// The items of the first `n` records, in listing order.
pub open spec fn remote_items(
    doc: Seq<HeadlineView>,
    recs: Seq<RecordView>,
    opts: OptionsView,
    w: SyncWindow,
    n: int,
) -> Seq<PlanItem>
    decreases n,
{
    if n <= 0 {
        Seq::empty()
    } else {
        let prev = remote_items(doc, recs, opts, w, n - 1);
        match remote_item(doc, recs, opts, w, n - 1) {
            Some(x) => prev.push(x),
            None => prev,
        }
    }
}

/// The plan: the headlines' items in document order, then the records'
/// items in listing order.
pub open spec fn plan_of(
    doc: Seq<HeadlineView>,
    recs: Seq<RecordView>,
    opts: OptionsView,
    w: SyncWindow,
    mtime: i64,
) -> Seq<PlanItem> {
    local_items(doc, recs, opts, w, mtime, doc.len() as int) + remote_items(doc, recs, opts, w, recs.len() as int)
}

/// The remote id of headline `h`, if it is scheduled inside the window.
fn in_window_identity(h: &Headline, property: &String, w: &SyncWindow) -> (r: Option<String>)
    ensures
        match r {
            Some(id) => in_window(h@, *w) && identity(h@, property@) == Some(id@),
            None => !in_window(h@, *w) || identity(h@, property@).is_none(),
        },
{
    match h.scheduled {
        Some(t) => if w.contains(t) {
            get_property(&h.properties, property)
        } else {
            None
        },
        None => None,
    }
}

/// Index of the first in-window headline that carries `id`.
pub fn find_local_index(doc: &Document, property: &String, w: &SyncWindow, id: &String) -> (r: Option<usize>)
    ensures
        widen_index(r) == find_local(doc@, property@, *w, id@),
{
    let ghost p = carrier(doc@, property@, *w, id@);
    let mut k: usize = 0;
    while k < doc.headlines.len()
        invariant
            k <= doc.headlines.len(),
            p == carrier(doc@, property@, *w, id@),
            forall|i: int| 0 <= i < k ==> !#[trigger] p(i),
        decreases doc.headlines.len() - k,
    {
        let found = match in_window_identity(&doc.headlines[k], property, w) {
            Some(v) => v == *id,
            None => false,
        };
        assert(found == p(k as int));
        if found {
            proof {
                lemma_first_index(doc@.len() as int, p, 0);
            }
            return Some(k);
        }
        k += 1;
    }
    proof {
        lemma_first_index(doc@.len() as int, p, 0);
    }
    None
}

/// Index of the first record that starts in the window and has the id `id`.
pub fn find_record_index(recs: &Vec<RemoteRecord>, w: &SyncWindow, id: &String) -> (r: Option<usize>)
    ensures
        widen_index(r) == find_record(records_view(recs@), *w, id@),
{
    let ghost p = lister(records_view(recs@), *w, id@);
    let mut k: usize = 0;
    while k < recs.len()
        invariant
            k <= recs.len(),
            p == lister(records_view(recs@), *w, id@),
            forall|i: int| 0 <= i < k ==> !#[trigger] p(i),
        decreases recs.len() - k,
    {
        let found = w.contains(recs[k].start) && recs[k].id == *id;
        assert(found == p(k as int));
        if found {
            proof {
                lemma_first_index(recs@.len() as int, p, 0);
            }
            return Some(k);
        }
        k += 1;
    }
    proof {
        lemma_first_index(recs@.len() as int, p, 0);
    }
    None
}

/// The headline's last synchronisation instant, read from its property.
fn read_last_sync(h: &Headline) -> (r: Option<i64>)
    ensures
        widen(r) == last_sync_of(h@),
{
    match get_property(&h.properties, &last_sync_name()) {
        Some(text) => parse_instant(text.as_str()),
        None => None,
    }
}

/// The plan item for a matched pair and its decision.
fn pair_item_of(d: Decision, i: usize, j: usize) -> (r: PlanItem)
    ensures
        r == pair_item(d, i as int, j as int),
{
    match d {
        Decision::Skip => PlanItem::Skip { target: SkipTarget::Pair(i, j), reason: SkipReason::UpToDate },
        Decision::UpdateRemote => PlanItem::UpdateRemote { local: i, remote: j },
        Decision::UpdateLocal => PlanItem::UpdateLocal { local: i, remote: j },
        Decision::Conflict(cause) => PlanItem::FlagConflict { local: i, remote: j, cause },
    }
}

/// The item that headline `i` contributes to the plan.
pub fn local_item_at(
    doc: &Document,
    recs: &Vec<RemoteRecord>,
    opts: &SyncOptions,
    w: &SyncWindow,
    mtime: i64,
    i: usize,
) -> (r: Option<PlanItem>)
    requires
        i < doc.headlines.len(),
    ensures
        r == local_item(doc@, records_view(recs@), opts@, *w, mtime, i as int),
{
    let h = &doc.headlines[i];
    let in_win = match h.scheduled {
        Some(t) => w.contains(t),
        None => false,
    };
    if !in_win {
        return None;
    }
    match get_property(&h.properties, &opts.property) {
        None => Some(PlanItem::CreateRemote { local: i }),
        Some(id) => {
            let first = match find_local_index(doc, &opts.property, w, &id) {
                Some(k) => k == i,
                None => false,
            };
            if !first {
                return Some(PlanItem::Skip { target: SkipTarget::Local(i), reason: SkipReason::DuplicateIdentity });
            }
            let found = find_record_index(recs, w, &id);
            proof {
                lemma_first_index(recs@.len() as int, lister(records_view(recs@), *w, id@), 0);
                assert(doc@[i as int] == h@);
            }
            match found {
                None => Some(PlanItem::Skip { target: SkipTarget::Local(i), reason: SkipReason::RemoteDeleted }),
                Some(j) => {
                    assert(records_view(recs@)[j as int] == recs@[j as int]@);
                    let last_sync = read_last_sync(h);
                    let d = decide(h, &recs[j], last_sync, mtime);
                    Some(pair_item_of(d, i, j))
                },
            }
        },
    }
}

/// The item that record `j` contributes to the plan.
pub fn remote_item_at(
    doc: &Document,
    recs: &Vec<RemoteRecord>,
    opts: &SyncOptions,
    w: &SyncWindow,
    j: usize,
) -> (r: Option<PlanItem>)
    requires
        j < recs.len(),
    ensures
        r == remote_item(doc@, records_view(recs@), opts@, *w, j as int),
{
    let rec = &recs[j];
    if !w.contains(rec.start) {
        return None;
    }
    let first = match find_record_index(recs, w, &rec.id) {
        Some(k) => k == j,
        None => false,
    };
    if !first {
        return None;
    }
    if find_local_index(doc, &opts.property, w, &rec.id).is_some() {
        None
    } else if opts.append_new {
        Some(PlanItem::CreateLocal { remote: j })
    } else {
        Some(PlanItem::Skip { target: SkipTarget::Remote(j), reason: SkipReason::NotAppending })
    }
}

/// Computes the synchronisation plan of a document against the records
/// listed for the window; `mtime` is the file's modification time.
pub fn plan_sync(
    doc: &Document,
    recs: &Vec<RemoteRecord>,
    opts: &SyncOptions,
    w: &SyncWindow,
    mtime: i64,
) -> (plan: Vec<PlanItem>)
    ensures
        plan@ == plan_of(doc@, records_view(recs@), opts@, *w, mtime),
{
    let ghost d = doc@;
    let ghost rs = records_view(recs@);
    let mut plan: Vec<PlanItem> = Vec::new();
    let mut i: usize = 0;
    while i < doc.headlines.len()
        invariant
            i <= doc.headlines.len(),
            d == doc@,
            rs == records_view(recs@),
            plan@ == local_items(d, rs, opts@, *w, mtime, i as int),
        decreases doc.headlines.len() - i,
    {
        match local_item_at(doc, recs, opts, w, mtime, i) {
            Some(x) => plan.push(x),
            None => {},
        }
        i += 1;
    }
    let ghost locals = plan@;
    let mut j: usize = 0;
    while j < recs.len()
        invariant
            j <= recs.len(),
            d == doc@,
            rs == records_view(recs@),
            locals == local_items(d, rs, opts@, *w, mtime, d.len() as int),
            plan@ == locals + remote_items(d, rs, opts@, *w, j as int),
        decreases recs.len() - j,
    {
        match remote_item_at(doc, recs, opts, w, j) {
            Some(x) => {
                plan.push(x);
                assert(plan@ =~= locals + remote_items(d, rs, opts@, *w, j + 1));
            },
            None => {},
        }
        j += 1;
    }
    plan
}

/// Whether every headline and record index fits in `usize`, as it does for
/// the contents of vectors.
pub open spec fn indexable(doc: Seq<HeadlineView>, recs: Seq<RecordView>) -> bool {
    doc.len() <= usize::MAX && recs.len() <= usize::MAX
}

/// Each item of the headlines' part comes from some headline before `n`.
pub proof fn lemma_local_items_source(
    doc: Seq<HeadlineView>,
    recs: Seq<RecordView>,
    opts: OptionsView,
    w: SyncWindow,
    mtime: i64,
    n: int,
    k: int,
)
    requires
        0 <= k < local_items(doc, recs, opts, w, mtime, n).len(),
    ensures
        exists|i: int| 0 <= i < n && local_item(doc, recs, opts, w, mtime, i) == Some(#[trigger] local_items(doc, recs, opts, w, mtime, n)[k]),
    decreases n,
{
    if n > 0 {
        let prev = local_items(doc, recs, opts, w, mtime, n - 1);
        if k < prev.len() {
            lemma_local_items_source(doc, recs, opts, w, mtime, n - 1, k);
            let i = choose|i: int| 0 <= i < n - 1 && local_item(doc, recs, opts, w, mtime, i) == Some(#[trigger] prev[k]);
            assert(local_items(doc, recs, opts, w, mtime, n)[k] == prev[k]);
            assert(0 <= i < n);
        } else {
            assert(local_item(doc, recs, opts, w, mtime, n - 1) == Some(local_items(doc, recs, opts, w, mtime, n)[k]));
        }
    }
}

/// Each item of the records' part comes from some record before `n`.
pub proof fn lemma_remote_items_source(
    doc: Seq<HeadlineView>,
    recs: Seq<RecordView>,
    opts: OptionsView,
    w: SyncWindow,
    n: int,
    k: int,
)
    requires
        0 <= k < remote_items(doc, recs, opts, w, n).len(),
    ensures
        exists|j: int| 0 <= j < n && remote_item(doc, recs, opts, w, j) == Some(#[trigger] remote_items(doc, recs, opts, w, n)[k]),
    decreases n,
{
    if n > 0 {
        let prev = remote_items(doc, recs, opts, w, n - 1);
        if k < prev.len() {
            lemma_remote_items_source(doc, recs, opts, w, n - 1, k);
            let j = choose|j: int| 0 <= j < n - 1 && remote_item(doc, recs, opts, w, j) == Some(#[trigger] prev[k]);
            assert(remote_items(doc, recs, opts, w, n)[k] == prev[k]);
            assert(0 <= j < n);
        } else {
            assert(remote_item(doc, recs, opts, w, n - 1) == Some(remote_items(doc, recs, opts, w, n)[k]));
        }
    }
}

/// The item of a headline before `n` is in the headlines' part.
pub proof fn lemma_local_item_in_plan(
    doc: Seq<HeadlineView>,
    recs: Seq<RecordView>,
    opts: OptionsView,
    w: SyncWindow,
    mtime: i64,
    n: int,
    i: int,
)
    requires
        0 <= i < n,
        local_item(doc, recs, opts, w, mtime, i).is_some(),
    ensures
        local_items(doc, recs, opts, w, mtime, n).contains(local_item(doc, recs, opts, w, mtime, i).unwrap()),
    decreases n,
{
    let x = local_item(doc, recs, opts, w, mtime, i).unwrap();
    let all = local_items(doc, recs, opts, w, mtime, n);
    if i == n - 1 {
        assert(all[all.len() - 1] == x);
    } else {
        lemma_local_item_in_plan(doc, recs, opts, w, mtime, n - 1, i);
        let prev = local_items(doc, recs, opts, w, mtime, n - 1);
        let k = choose|k: int| 0 <= k < prev.len() && prev[k] == x;
        assert(all[k] == x);
    }
}

/// Every item of the plan comes from a headline or from a record.
pub proof fn lemma_plan_source(
    doc: Seq<HeadlineView>,
    recs: Seq<RecordView>,
    opts: OptionsView,
    w: SyncWindow,
    mtime: i64,
    k: int,
)
    requires
        0 <= k < plan_of(doc, recs, opts, w, mtime).len(),
    ensures
        (exists|i: int| 0 <= i < doc.len() && local_item(doc, recs, opts, w, mtime, i) == Some(#[trigger] plan_of(doc, recs, opts, w, mtime)[k]))
        || (exists|j: int| 0 <= j < recs.len() && remote_item(doc, recs, opts, w, j) == Some(#[trigger] plan_of(doc, recs, opts, w, mtime)[k])),
{
    let locals = local_items(doc, recs, opts, w, mtime, doc.len() as int);
    let remotes = remote_items(doc, recs, opts, w, recs.len() as int);
    let plan = plan_of(doc, recs, opts, w, mtime);
    if k < locals.len() {
        lemma_local_items_source(doc, recs, opts, w, mtime, doc.len() as int, k);
        assert(plan[k] == locals[k]);
    } else {
        lemma_remote_items_source(doc, recs, opts, w, recs.len() as int, k - locals.len());
        assert(plan[k] == remotes[k - locals.len()]);
    }
}

/// What the headline and record indices of each item refer to: a created
/// remote comes from a headline that carries no remote id, an update or a
/// conflict joins a headline to the record whose id it carries, and a
/// created headline comes from a record that no headline in the window
/// carries.
pub proof fn lemma_plan_items_well_formed(
    doc: Seq<HeadlineView>,
    recs: Seq<RecordView>,
    opts: OptionsView,
    w: SyncWindow,
    mtime: i64,
    k: int,
)
    requires
        indexable(doc, recs),
        0 <= k < plan_of(doc, recs, opts, w, mtime).len(),
    ensures
        match plan_of(doc, recs, opts, w, mtime)[k] {
            PlanItem::CreateRemote { local } => local < doc.len() && in_window(doc[local as int], w)
                && identity(doc[local as int], opts.property).is_none(),
            PlanItem::CreateLocal { remote } => remote < recs.len() && w.holds(recs[remote as int].start)
                && find_local(doc, opts.property, w, recs[remote as int].id).is_none(),
            PlanItem::UpdateRemote { local, remote } | PlanItem::UpdateLocal { local, remote }
            | PlanItem::FlagConflict { local, remote, .. } => local < doc.len() && remote < recs.len()
                && in_window(doc[local as int], w) && w.holds(recs[remote as int].start)
                && identity(doc[local as int], opts.property) == Some(recs[remote as int].id),
            PlanItem::Skip { .. } => true,
        },
{
    lemma_plan_source(doc, recs, opts, w, mtime, k);
    let x = plan_of(doc, recs, opts, w, mtime)[k];
    if exists|i: int| 0 <= i < doc.len() && local_item(doc, recs, opts, w, mtime, i) == Some(x) {
        let i = choose|i: int| 0 <= i < doc.len() && local_item(doc, recs, opts, w, mtime, i) == Some(x);
        match identity(doc[i], opts.property) {
            Some(id) => {
                lemma_first_index(recs.len() as int, lister(recs, w, id), 0);
            },
            None => {},
        }
    } else {
        let j = choose|j: int| 0 <= j < recs.len() && remote_item(doc, recs, opts, w, j) == Some(x);
    }
}

/// No plan both creates and updates the same remote record: a headline sent
/// by `CreateRemote` carries no remote id, so it is never the headline of an
/// `UpdateRemote`, nor does it carry that update's record id.
pub proof fn lemma_no_create_and_update_of_same_remote(
    doc: Seq<HeadlineView>,
    recs: Seq<RecordView>,
    opts: OptionsView,
    w: SyncWindow,
    mtime: i64,
)
    requires
        indexable(doc, recs),
    ensures
        forall|k1: int, k2: int|
            0 <= k1 < plan_of(doc, recs, opts, w, mtime).len() && 0 <= k2 < plan_of(doc, recs, opts, w, mtime).len()
            ==> match (#[trigger] plan_of(doc, recs, opts, w, mtime)[k1], #[trigger] plan_of(doc, recs, opts, w, mtime)[k2]) {
                (PlanItem::CreateRemote { local: a }, PlanItem::UpdateRemote { local: b, remote: j }) =>
                    a != b && identity(doc[a as int], opts.property) != Some(recs[j as int].id),
                _ => true,
            },
{
    let plan = plan_of(doc, recs, opts, w, mtime);
    assert forall|k1: int, k2: int| 0 <= k1 < plan.len() && 0 <= k2 < plan.len() implies
        match (#[trigger] plan[k1], #[trigger] plan[k2]) {
            (PlanItem::CreateRemote { local: a }, PlanItem::UpdateRemote { local: b, remote: j }) =>
                a != b && identity(doc[a as int], opts.property) != Some(recs[j as int].id),
            _ => true,
        } by {
        lemma_plan_items_well_formed(doc, recs, opts, w, mtime, k1);
        lemma_plan_items_well_formed(doc, recs, opts, w, mtime, k2);
    }
}

/// A matched pair whose record has not changed since the headline's last
/// synchronisation, and whose contents are equal, is skipped as up to date.
pub proof fn lemma_unchanged_pair_is_skipped(
    doc: Seq<HeadlineView>,
    recs: Seq<RecordView>,
    opts: OptionsView,
    w: SyncWindow,
    mtime: i64,
    i: int,
    j: int,
)
    requires
        indexable(doc, recs),
        0 <= i < doc.len(),
        0 <= j < recs.len(),
        in_window(doc[i], w),
        identity(doc[i], opts.property) == Some(recs[j].id),
        find_local(doc, opts.property, w, recs[j].id) == Some(i),
        find_record(recs, w, recs[j].id) == Some(j),
        last_sync_of(doc[i]) matches Some(t) && recs[j].updated <= t,
        local_content(doc[i]) == remote_content(recs[j]),
    ensures
        local_item(doc, recs, opts, w, mtime, i)
            == Some(PlanItem::Skip { target: SkipTarget::Pair(i as usize, j as usize), reason: SkipReason::UpToDate }),
        plan_of(doc, recs, opts, w, mtime).contains(
            PlanItem::Skip { target: SkipTarget::Pair(i as usize, j as usize), reason: SkipReason::UpToDate },
        ),
{
    lemma_local_item_in_plan(doc, recs, opts, w, mtime, doc.len() as int, i);
    let locals = local_items(doc, recs, opts, w, mtime, doc.len() as int);
    let x = PlanItem::Skip { target: SkipTarget::Pair(i as usize, j as usize), reason: SkipReason::UpToDate };
    let k = choose|k: int| 0 <= k < locals.len() && locals[k] == x;
    assert(plan_of(doc, recs, opts, w, mtime)[k] == x);
}

/// The headline that a non-skip item acts on, if any.
pub open spec fn item_local(x: PlanItem) -> Option<usize> {
    match x {
        PlanItem::CreateRemote { local } => Some(local),
        PlanItem::UpdateRemote { local, .. } => Some(local),
        PlanItem::UpdateLocal { local, .. } => Some(local),
        PlanItem::FlagConflict { local, .. } => Some(local),
        _ => None,
    }
}

/// The record that a non-skip item acts on, if any.
pub open spec fn item_remote(x: PlanItem) -> Option<usize> {
    match x {
        PlanItem::CreateLocal { remote } => Some(remote),
        PlanItem::UpdateRemote { remote, .. } => Some(remote),
        PlanItem::UpdateLocal { remote, .. } => Some(remote),
        PlanItem::FlagConflict { remote, .. } => Some(remote),
        _ => None,
    }
}

/// Items at two positions of the headlines' part come from two headlines,
/// in the same order.
pub proof fn lemma_local_items_sources(
    doc: Seq<HeadlineView>,
    recs: Seq<RecordView>,
    opts: OptionsView,
    w: SyncWindow,
    mtime: i64,
    n: int,
    k1: int,
    k2: int,
)
    requires
        0 <= k1 < k2 < local_items(doc, recs, opts, w, mtime, n).len(),
    ensures
        exists|i1: int, i2: int| 0 <= i1 < i2 < n
            && local_item(doc, recs, opts, w, mtime, i1) == Some(#[trigger] local_items(doc, recs, opts, w, mtime, n)[k1])
            && local_item(doc, recs, opts, w, mtime, i2) == Some(#[trigger] local_items(doc, recs, opts, w, mtime, n)[k2]),
    decreases n,
{
    let prev = local_items(doc, recs, opts, w, mtime, n - 1);
    let all = local_items(doc, recs, opts, w, mtime, n);
    if k2 < prev.len() {
        lemma_local_items_sources(doc, recs, opts, w, mtime, n - 1, k1, k2);
        assert(all[k1] == prev[k1] && all[k2] == prev[k2]);
        let (i1, i2) = choose|i1: int, i2: int| 0 <= i1 < i2 < n - 1
            && local_item(doc, recs, opts, w, mtime, i1) == Some(#[trigger] prev[k1])
            && local_item(doc, recs, opts, w, mtime, i2) == Some(#[trigger] prev[k2]);
        assert(0 <= i1 < i2 < n);
    } else {
        lemma_local_items_source(doc, recs, opts, w, mtime, n - 1, k1);
        assert(all[k1] == prev[k1]);
        let i1 = choose|i1: int| 0 <= i1 < n - 1 && local_item(doc, recs, opts, w, mtime, i1) == Some(#[trigger] prev[k1]);
        assert(local_item(doc, recs, opts, w, mtime, n - 1) == Some(all[k2]));
        assert(0 <= i1 < n - 1 < n);
    }
}

/// Items at two positions of the records' part come from two records, in
/// the same order.
pub proof fn lemma_remote_items_sources(
    doc: Seq<HeadlineView>,
    recs: Seq<RecordView>,
    opts: OptionsView,
    w: SyncWindow,
    n: int,
    k1: int,
    k2: int,
)
    requires
        0 <= k1 < k2 < remote_items(doc, recs, opts, w, n).len(),
    ensures
        exists|j1: int, j2: int| 0 <= j1 < j2 < n
            && remote_item(doc, recs, opts, w, j1) == Some(#[trigger] remote_items(doc, recs, opts, w, n)[k1])
            && remote_item(doc, recs, opts, w, j2) == Some(#[trigger] remote_items(doc, recs, opts, w, n)[k2]),
    decreases n,
{
    let prev = remote_items(doc, recs, opts, w, n - 1);
    let all = remote_items(doc, recs, opts, w, n);
    if k2 < prev.len() {
        lemma_remote_items_sources(doc, recs, opts, w, n - 1, k1, k2);
        assert(all[k1] == prev[k1] && all[k2] == prev[k2]);
        let (j1, j2) = choose|j1: int, j2: int| 0 <= j1 < j2 < n - 1
            && remote_item(doc, recs, opts, w, j1) == Some(#[trigger] prev[k1])
            && remote_item(doc, recs, opts, w, j2) == Some(#[trigger] prev[k2]);
        assert(0 <= j1 < j2 < n);
    } else {
        lemma_remote_items_source(doc, recs, opts, w, n - 1, k1);
        assert(all[k1] == prev[k1]);
        let j1 = choose|j1: int| 0 <= j1 < n - 1 && remote_item(doc, recs, opts, w, j1) == Some(#[trigger] prev[k1]);
        assert(remote_item(doc, recs, opts, w, n - 1) == Some(all[k2]));
        assert(0 <= j1 < n - 1 < n);
    }
}

/// Two headline items that act on records act on two records.
proof fn lemma_local_items_distinct_remotes(
    doc: Seq<HeadlineView>,
    recs: Seq<RecordView>,
    opts: OptionsView,
    w: SyncWindow,
    mtime: i64,
    i1: int,
    i2: int,
)
    requires
        indexable(doc, recs),
        0 <= i1 < i2 < doc.len(),
        local_item(doc, recs, opts, w, mtime, i1) matches Some(x1) && item_remote(x1).is_some(),
        local_item(doc, recs, opts, w, mtime, i2) matches Some(x2) && item_remote(x2).is_some(),
    ensures
        item_remote(local_item(doc, recs, opts, w, mtime, i1).unwrap()) != item_remote(local_item(doc, recs, opts, w, mtime, i2).unwrap()),
{
    let id1 = identity(doc[i1], opts.property).unwrap();
    let id2 = identity(doc[i2], opts.property).unwrap();
    lemma_first_index(recs.len() as int, lister(recs, w, id1), 0);
    lemma_first_index(recs.len() as int, lister(recs, w, id2), 0);
}

/// A record appended as a new headline is no headline item's record.
proof fn lemma_created_local_unmatched(
    doc: Seq<HeadlineView>,
    recs: Seq<RecordView>,
    opts: OptionsView,
    w: SyncWindow,
    mtime: i64,
    i: int,
    j: int,
)
    requires
        indexable(doc, recs),
        0 <= i < doc.len(),
        0 <= j < recs.len(),
        local_item(doc, recs, opts, w, mtime, i) matches Some(x) && item_remote(x).is_some(),
        remote_item(doc, recs, opts, w, j) matches Some(PlanItem::CreateLocal { .. }),
    ensures
        item_remote(local_item(doc, recs, opts, w, mtime, i).unwrap()) != Some(j as usize),
{
    let id = identity(doc[i], opts.property).unwrap();
    lemma_first_index(recs.len() as int, lister(recs, w, id), 0);
    lemma_first_index(doc.len() as int, carrier(doc, opts.property, w, recs[j].id), 0);
    if item_remote(local_item(doc, recs, opts, w, mtime, i).unwrap()) == Some(j as usize) {
        assert(carrier(doc, opts.property, w, recs[j].id)(i));
    }
}

/// No headline and no record is acted on by two items of a plan: every
/// headline and every record is created, updated or flagged at most once.
pub proof fn lemma_plan_acts_once(
    doc: Seq<HeadlineView>,
    recs: Seq<RecordView>,
    opts: OptionsView,
    w: SyncWindow,
    mtime: i64,
    k1: int,
    k2: int,
)
    requires
        indexable(doc, recs),
        0 <= k1 < k2 < plan_of(doc, recs, opts, w, mtime).len(),
    ensures
        item_local(plan_of(doc, recs, opts, w, mtime)[k1]) is Some
            ==> item_local(plan_of(doc, recs, opts, w, mtime)[k1]) != item_local(plan_of(doc, recs, opts, w, mtime)[k2]),
        item_remote(plan_of(doc, recs, opts, w, mtime)[k1]) is Some
            ==> item_remote(plan_of(doc, recs, opts, w, mtime)[k1]) != item_remote(plan_of(doc, recs, opts, w, mtime)[k2]),
{
    let locals = local_items(doc, recs, opts, w, mtime, doc.len() as int);
    let remotes = remote_items(doc, recs, opts, w, recs.len() as int);
    let plan = plan_of(doc, recs, opts, w, mtime);
    let nl = locals.len() as int;
    if k2 < nl {
        assert(plan[k1] == locals[k1] && plan[k2] == locals[k2]);
        lemma_local_items_sources(doc, recs, opts, w, mtime, doc.len() as int, k1, k2);
        let (i1, i2) = choose|i1: int, i2: int| 0 <= i1 < i2 < doc.len()
            && local_item(doc, recs, opts, w, mtime, i1) == Some(#[trigger] locals[k1])
            && local_item(doc, recs, opts, w, mtime, i2) == Some(#[trigger] locals[k2]);
        if item_remote(plan[k1]) is Some && item_remote(plan[k2]) is Some {
            lemma_local_items_distinct_remotes(doc, recs, opts, w, mtime, i1, i2);
        }
    } else if k1 >= nl {
        assert(plan[k1] == remotes[k1 - nl] && plan[k2] == remotes[k2 - nl]);
        lemma_remote_items_sources(doc, recs, opts, w, recs.len() as int, k1 - nl, k2 - nl);
    } else {
        assert(plan[k1] == locals[k1] && plan[k2] == remotes[k2 - nl]);
        lemma_local_items_source(doc, recs, opts, w, mtime, doc.len() as int, k1);
        lemma_remote_items_source(doc, recs, opts, w, recs.len() as int, k2 - nl);
        let i = choose|i: int| 0 <= i < doc.len() && local_item(doc, recs, opts, w, mtime, i) == Some(#[trigger] locals[k1]);
        let j = choose|j: int| 0 <= j < recs.len() && remote_item(doc, recs, opts, w, j) == Some(#[trigger] remotes[k2 - nl]);
        if item_remote(plan[k1]) is Some && item_remote(plan[k2]) is Some {
            lemma_created_local_unmatched(doc, recs, opts, w, mtime, i, j);
        }
    }
}

/// An `Option<usize>` index read as an `Option<int>`.
pub open spec fn widen_index(o: Option<usize>) -> Option<int> {
    match o {
        Some(i) => Some(i as int),
        None => None,
    }
}

} // verus!
