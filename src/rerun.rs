//! What a synchronisation leaves behind, and why running it again finds
//! nothing left to do.
use vstd::prelude::*;
use crate::apply::{appended, stamped, touched, pulled, fresh_headline, parent_headline, with_parent, parent_index, subtree_end, titled, closes};
use crate::org::{HeadlineView, LAST_SYNC, lemma_assign_lookup};
use crate::plan::{
    plan_of, lemma_plan_source, item_local, item_remote, lemma_plan_acts_once, local_items, remote_items,
    lemma_local_item_in_plan,
    local_content, remote_content,
    OptionsView, PlanItem, RecordView, first_index, indexable, lemma_first_index, local_item, remote_item, identity, in_window,
    carrier, find_local, lister, find_record,
};
use crate::session::draft_of;
use crate::time::SyncWindow;

verus! {

/// Headline `i` once the first run's local mutations are applied; a headline
/// pushed as a new record carries the id `new_ids[i]` that the service gave.
pub open spec fn after_local(
    doc: Seq<HeadlineView>,
    recs: Seq<RecordView>,
    opts: OptionsView,
    w: SyncWindow,
    mtime: i64,
    stamp: Seq<char>,
    new_ids: Seq<Seq<char>>,
    i: int,
) -> HeadlineView {
    match local_item(doc, recs, opts, w, mtime, i) {
        Some(PlanItem::CreateRemote { .. }) => stamped(doc[i], opts.property, new_ids[i], stamp),
        Some(PlanItem::UpdateRemote { .. }) => touched(doc[i], stamp),
        Some(PlanItem::UpdateLocal { remote, .. }) => pulled(doc[i], recs[remote as int], stamp),
        _ => doc[i],
    }
}

/// The headlines once the first run's in-place mutations are applied.
pub open spec fn locally_updated(
    doc: Seq<HeadlineView>,
    recs: Seq<RecordView>,
    opts: OptionsView,
    w: SyncWindow,
    mtime: i64,
    stamp: Seq<char>,
    new_ids: Seq<Seq<char>>,
) -> Seq<HeadlineView> {
    Seq::new(doc.len(), |i: int| after_local(doc, recs, opts, w, mtime, stamp, new_ids, i))
}

/// Whether headline `i` is pushed to record `j` by the first run.
pub open spec fn pushes(doc: Seq<HeadlineView>, recs: Seq<RecordView>, opts: OptionsView, w: SyncWindow, mtime: i64, i: int, j: int) -> bool {
    0 <= i < doc.len() && local_item(doc, recs, opts, w, mtime, i) == Some(PlanItem::UpdateRemote { local: i as usize, remote: j as usize })
}

/// Record `j` once the first run's remote updates are applied; the server
/// stamps an updated record with the modification time `updated[j]`.
pub open spec fn after_remote(
    doc: Seq<HeadlineView>,
    recs: Seq<RecordView>,
    opts: OptionsView,
    w: SyncWindow,
    mtime: i64,
    updated: Seq<i64>,
    j: int,
) -> RecordView {
    if exists|i: int| pushes(doc, recs, opts, w, mtime, i, j) {
        let i = choose|i: int| pushes(doc, recs, opts, w, mtime, i, j);
        draft_of(doc[i], recs[j].id, updated[j])
    } else {
        recs[j]
    }
}

/// The records created for the headlines before `n`, in document order;
/// the one of headline `i` has the id `new_ids[i]` and the modification
/// time `created_at[i]`.
pub open spec fn created_records(
    doc: Seq<HeadlineView>,
    recs: Seq<RecordView>,
    opts: OptionsView,
    w: SyncWindow,
    mtime: i64,
    new_ids: Seq<Seq<char>>,
    created_at: Seq<i64>,
    n: int,
) -> Seq<RecordView>
    decreases n,
{
    if n <= 0 {
        Seq::empty()
    } else {
        let prev = created_records(doc, recs, opts, w, mtime, new_ids, created_at, n - 1);
        if local_item(doc, recs, opts, w, mtime, n - 1) matches Some(PlanItem::CreateRemote { .. }) {
            prev.push(draft_of(doc[n - 1], new_ids[n - 1], created_at[n - 1]))
        } else {
            prev
        }
    }
}

/// The remote records once the first run's remote mutations are applied:
/// the listed records, updated, then the created ones.
pub open spec fn remotely_updated(
    doc: Seq<HeadlineView>,
    recs: Seq<RecordView>,
    opts: OptionsView,
    w: SyncWindow,
    mtime: i64,
    new_ids: Seq<Seq<char>>,
    updated: Seq<i64>,
    created_at: Seq<i64>,
) -> Seq<RecordView> {
    Seq::new(recs.len(), |j: int| after_remote(doc, recs, opts, w, mtime, updated, j))
        + created_records(doc, recs, opts, w, mtime, new_ids, created_at, doc.len() as int)
}

/// `d` after the records before `n` that the first run creates locally were
/// appended, in listing order.
pub open spec fn appended_upto(
    d: Seq<HeadlineView>,
    doc: Seq<HeadlineView>,
    recs: Seq<RecordView>,
    opts: OptionsView,
    w: SyncWindow,
    stamp: Seq<char>,
    n: int,
) -> Seq<HeadlineView>
    decreases n,
{
    if n <= 0 {
        d
    } else {
        let prev = appended_upto(d, doc, recs, opts, w, stamp, n - 1);
        if remote_item(doc, recs, opts, w, n - 1) matches Some(PlanItem::CreateLocal { .. }) {
            appended(prev, opts.append_headline, recs[n - 1], opts.property, stamp)
        } else {
            prev
        }
    }
}

/// The document once all of the first run's local mutations are applied.
pub open spec fn synced_document(
    doc: Seq<HeadlineView>,
    recs: Seq<RecordView>,
    opts: OptionsView,
    w: SyncWindow,
    mtime: i64,
    stamp: Seq<char>,
    new_ids: Seq<Seq<char>>,
) -> Seq<HeadlineView> {
    appended_upto(locally_updated(doc, recs, opts, w, mtime, stamp, new_ids), doc, recs, opts, w, stamp, recs.len() as int)
}

/// No two headlines in the window carry the same remote id.
pub open spec fn unique_identities(d: Seq<HeadlineView>, property: Seq<char>, w: SyncWindow) -> bool {
    forall|k1: int, k2: int|
        0 <= k1 < d.len() && 0 <= k2 < d.len() && k1 != k2 && in_window(#[trigger] d[k1], w) && in_window(#[trigger] d[k2], w)
            && identity(d[k1], property).is_some() ==> identity(d[k1], property) != identity(d[k2], property)
}

/// Whether some headline in the window carries `id`.
pub open spec fn carried(d: Seq<HeadlineView>, property: Seq<char>, w: SyncWindow, id: Seq<char>) -> bool {
    exists|k: int| 0 <= k < d.len() && #[trigger] carrier(d, property, w, id)(k)
}

/// Whether the first run pushes headline `i` as a new record.
pub open spec fn is_created(doc: Seq<HeadlineView>, recs: Seq<RecordView>, opts: OptionsView, w: SyncWindow, mtime: i64, i: int) -> bool {
    local_item(doc, recs, opts, w, mtime, i) matches Some(PlanItem::CreateRemote { .. })
}

/// The ids that the service gives new records are new: no listed record
/// has one, no headline in the window carries one, and no two are equal.
pub open spec fn fresh_ids(
    doc: Seq<HeadlineView>,
    recs: Seq<RecordView>,
    opts: OptionsView,
    w: SyncWindow,
    mtime: i64,
    new_ids: Seq<Seq<char>>,
) -> bool {
    &&& new_ids.len() == doc.len()
    &&& forall|i: int, j: int| 0 <= i < doc.len() && 0 <= j < recs.len() && is_created(doc, recs, opts, w, mtime, i)
        ==> #[trigger] recs[j].id != #[trigger] new_ids[i]
    &&& forall|i: int, k: int| 0 <= i < doc.len() && 0 <= k < doc.len() && is_created(doc, recs, opts, w, mtime, i)
        && in_window(#[trigger] doc[k], w) ==> identity(doc[k], opts.property) != Some(#[trigger] new_ids[i])
    &&& forall|i1: int, i2: int| 0 <= i1 < doc.len() && 0 <= i2 < doc.len() && i1 != i2
        && is_created(doc, recs, opts, w, mtime, i1) && is_created(doc, recs, opts, w, mtime, i2)
        ==> #[trigger] new_ids[i1] != #[trigger] new_ids[i2]
}

/// What the first run's in-place mutation of headline `i` keeps and changes:
/// whether it is in the window stays, and its identity becomes the new id
/// where it was pushed as a new record.
pub proof fn lemma_after_local(
    doc: Seq<HeadlineView>,
    recs: Seq<RecordView>,
    opts: OptionsView,
    w: SyncWindow,
    mtime: i64,
    stamp: Seq<char>,
    new_ids: Seq<Seq<char>>,
    i: int,
)
    requires
        0 <= i < doc.len(),
        new_ids.len() == doc.len(),
        indexable(doc, recs),
        opts.property != LAST_SYNC@,
    ensures
        in_window(after_local(doc, recs, opts, w, mtime, stamp, new_ids, i), w) == in_window(doc[i], w),
        identity(after_local(doc, recs, opts, w, mtime, stamp, new_ids, i), opts.property) == (if is_created(doc, recs, opts, w, mtime, i) {
            Some(new_ids[i])
        } else {
            identity(doc[i], opts.property)
        }),
{
    let h = doc[i];
    let a = after_local(doc, recs, opts, w, mtime, stamp, new_ids, i);
    lemma_assign_lookup(h.properties, LAST_SYNC@, stamp, opts.property);
    match local_item(doc, recs, opts, w, mtime, i) {
        Some(PlanItem::CreateRemote { .. }) => {
            lemma_assign_lookup(h.properties, opts.property, new_ids[i], LAST_SYNC@);
            let once = crate::org::assign(h.properties, opts.property, new_ids[i]);
            lemma_assign_lookup(once, LAST_SYNC@, stamp, opts.property);
        },
        Some(PlanItem::UpdateLocal { remote, .. }) => {
            let id = identity(h, opts.property).unwrap();
            lemma_first_index(recs.len() as int, lister(recs, w, id), 0);
        },
        _ => {},
    }
}

/// The in-place mutations keep the window's identities unique.
pub proof fn lemma_locally_updated_unique(
    doc: Seq<HeadlineView>,
    recs: Seq<RecordView>,
    opts: OptionsView,
    w: SyncWindow,
    mtime: i64,
    stamp: Seq<char>,
    new_ids: Seq<Seq<char>>,
)
    requires
        indexable(doc, recs),
        opts.property != LAST_SYNC@,
        unique_identities(doc, opts.property, w),
        fresh_ids(doc, recs, opts, w, mtime, new_ids),
    ensures
        unique_identities(locally_updated(doc, recs, opts, w, mtime, stamp, new_ids), opts.property, w),
{
    let d1 = locally_updated(doc, recs, opts, w, mtime, stamp, new_ids);
    assert forall|k1: int, k2: int|
        0 <= k1 < d1.len() && 0 <= k2 < d1.len() && k1 != k2 && in_window(#[trigger] d1[k1], w) && in_window(#[trigger] d1[k2], w)
            && identity(d1[k1], opts.property).is_some() implies identity(d1[k1], opts.property) != identity(d1[k2], opts.property) by {
        lemma_after_local(doc, recs, opts, w, mtime, stamp, new_ids, k1);
        lemma_after_local(doc, recs, opts, w, mtime, stamp, new_ids, k2);
        let c1 = is_created(doc, recs, opts, w, mtime, k1);
        let c2 = is_created(doc, recs, opts, w, mtime, k2);
        if c1 && c2 {
            assert(new_ids[k1] != new_ids[k2]);
        } else if c1 {
            assert(identity(doc[k2], opts.property) != Some(new_ids[k1]));
        } else if c2 {
            assert(identity(doc[k1], opts.property) != Some(new_ids[k2]));
        } else {
            assert(in_window(doc[k1], w) && in_window(doc[k2], w));
        }
    }
}

/// Where a record is appended, and what it is appended to.
pub proof fn lemma_append_shape(d: Seq<HeadlineView>, title: Seq<char>, r: RecordView, property: Seq<char>, stamp: Seq<char>)
    ensures
        with_parent(d, title) == d || with_parent(d, title) == d.push(parent_headline(title)),
        0 <= subtree_end(with_parent(d, title), parent_index(with_parent(d, title), title).unwrap()) <= with_parent(d, title).len(),
        appended(d, title, r, property, stamp) == with_parent(d, title).insert(
            subtree_end(with_parent(d, title), parent_index(with_parent(d, title), title).unwrap()),
            fresh_headline(r, 2, property, stamp),
        ),
{
    let base = with_parent(d, title);
    lemma_first_index(d.len() as int, titled(d, title), 0);
    lemma_first_index(base.len() as int, titled(base, title), 0);
    if parent_index(d, title).is_none() {
        assert(titled(base, title)(d.len() as int));
    }
    let p = parent_index(base, title).unwrap();
    lemma_first_index(base.len() as int, closes(base, p), p + 1);
}

/// The index at which a record is appended.
pub open spec fn append_pos(d: Seq<HeadlineView>, title: Seq<char>) -> int {
    subtree_end(with_parent(d, title), parent_index(with_parent(d, title), title).unwrap())
}

/// The headline of `d` that index `k2` of the appended document holds, when
/// it is neither the new headline nor a new parent.
pub open spec fn append_origin(d: Seq<HeadlineView>, title: Seq<char>, k2: int) -> int {
    if k2 < append_pos(d, title) {
        k2
    } else {
        k2 - 1
    }
}

/// What each index of the appended document holds.
pub proof fn lemma_append_index(d: Seq<HeadlineView>, title: Seq<char>, r: RecordView, property: Seq<char>, stamp: Seq<char>, k2: int)
    requires
        0 <= k2 < appended(d, title, r, property, stamp).len(),
    ensures
        appended(d, title, r, property, stamp).len() == with_parent(d, title).len() + 1,
        0 <= append_pos(d, title) <= with_parent(d, title).len(),
        k2 == append_pos(d, title) ==> appended(d, title, r, property, stamp)[k2] == fresh_headline(r, 2, property, stamp),
        k2 != append_pos(d, title) && append_origin(d, title, k2) < d.len()
            ==> appended(d, title, r, property, stamp)[k2] == d[append_origin(d, title, k2)],
        k2 != append_pos(d, title) && append_origin(d, title, k2) >= d.len()
            ==> appended(d, title, r, property, stamp)[k2] == parent_headline(title),
{
    lemma_append_shape(d, title, r, property, stamp);
}

/// Every headline of `d` is still in the appended document.
pub proof fn lemma_append_keeps(d: Seq<HeadlineView>, title: Seq<char>, r: RecordView, property: Seq<char>, stamp: Seq<char>, k: int)
    requires
        0 <= k < d.len(),
    ensures
        k < append_pos(d, title) ==> appended(d, title, r, property, stamp)[k] == d[k],
        k >= append_pos(d, title) ==> appended(d, title, r, property, stamp)[k + 1] == d[k],
        k + 1 < appended(d, title, r, property, stamp).len(),
{
    lemma_append_shape(d, title, r, property, stamp);
    let base = with_parent(d, title);
    assert(base[k] == d[k]);
}

/// Appending a record in the window makes its id carried.
pub proof fn lemma_append_carries(d: Seq<HeadlineView>, title: Seq<char>, r: RecordView, property: Seq<char>, stamp: Seq<char>, w: SyncWindow)
    requires
        w.holds(r.start),
    ensures
        carried(appended(d, title, r, property, stamp), property, w, r.id),
{
    let d2 = appended(d, title, r, property, stamp);
    let pos = append_pos(d, title);
    lemma_append_shape(d, title, r, property, stamp);
    lemma_append_index(d, title, r, property, stamp, pos);
    let f = fresh_headline(r, 2, property, stamp);
    assert(f.properties[0] == (property, r.id));
    assert(carrier(d2, property, w, r.id)(pos));
}

/// Appending a record whose id no headline in the window carries keeps
/// identities unique.
pub proof fn lemma_append_unique(d: Seq<HeadlineView>, title: Seq<char>, r: RecordView, property: Seq<char>, stamp: Seq<char>, w: SyncWindow)
    requires
        unique_identities(d, property, w),
        !carried(d, property, w, r.id),
    ensures
        unique_identities(appended(d, title, r, property, stamp), property, w),
{
    let d2 = appended(d, title, r, property, stamp);
    let pos = append_pos(d, title);
    let f = fresh_headline(r, 2, property, stamp);
    assert(f.properties[0] == (property, r.id));
    assert(identity(f, property) == Some(r.id));
    assert forall|k1: int, k2: int|
        0 <= k1 < d2.len() && 0 <= k2 < d2.len() && k1 != k2 && in_window(#[trigger] d2[k1], w) && in_window(#[trigger] d2[k2], w)
            && identity(d2[k1], property).is_some() implies identity(d2[k1], property) != identity(d2[k2], property) by {
        lemma_append_index(d, title, r, property, stamp, k1);
        lemma_append_index(d, title, r, property, stamp, k2);
        let b1 = append_origin(d, title, k1);
        let b2 = append_origin(d, title, k2);
        if k1 == pos {
            if b2 < d.len() && identity(d[b2], property) == Some(r.id) {
                assert(carrier(d, property, w, r.id)(b2));
            }
        } else if k2 == pos {
            if b1 < d.len() && identity(d[b1], property) == Some(r.id) {
                assert(carrier(d, property, w, r.id)(b1));
            }
        } else {
            assert(b1 != b2);
        }
    }
}

/// Whether the first run appends record `j` as a new headline.
pub open spec fn created_local(doc: Seq<HeadlineView>, recs: Seq<RecordView>, opts: OptionsView, w: SyncWindow, j: int) -> bool {
    remote_item(doc, recs, opts, w, j) matches Some(PlanItem::CreateLocal { .. })
}

/// Where headline `k` of `d2` comes from: a headline of `d1`, a new parent,
/// or a record before `n` appended by the first run.
pub open spec fn comes_from(
    d2: Seq<HeadlineView>,
    d1: Seq<HeadlineView>,
    doc: Seq<HeadlineView>,
    recs: Seq<RecordView>,
    opts: OptionsView,
    w: SyncWindow,
    stamp: Seq<char>,
    n: int,
    k: int,
) -> bool {
    ||| exists|i: int| 0 <= i < d1.len() && d2[k] == #[trigger] d1[i]
    ||| d2[k] == parent_headline(opts.append_headline)
    ||| exists|j: int| 0 <= j < n && created_local(doc, recs, opts, w, j)
        && d2[k] == fresh_headline(#[trigger] recs[j], 2, opts.property, stamp)
}

/// `comes_from` is about the headline alone, and allows more records.
pub proof fn lemma_comes_from_moves(
    da: Seq<HeadlineView>,
    db: Seq<HeadlineView>,
    d1: Seq<HeadlineView>,
    doc: Seq<HeadlineView>,
    recs: Seq<RecordView>,
    opts: OptionsView,
    w: SyncWindow,
    stamp: Seq<char>,
    na: int,
    nb: int,
    ka: int,
    kb: int,
)
    requires
        comes_from(da, d1, doc, recs, opts, w, stamp, na, ka),
        db[kb] == da[ka],
        na <= nb,
    ensures
        comes_from(db, d1, doc, recs, opts, w, stamp, nb, kb),
{
    if exists|i: int| 0 <= i < d1.len() && da[ka] == #[trigger] d1[i] {
        let i = choose|i: int| 0 <= i < d1.len() && da[ka] == #[trigger] d1[i];
        assert(db[kb] == d1[i]);
    } else if da[ka] == parent_headline(opts.append_headline) {
    } else {
        let j = choose|j: int| 0 <= j < na && created_local(doc, recs, opts, w, j)
            && da[ka] == fresh_headline(#[trigger] recs[j], 2, opts.property, stamp);
        assert(db[kb] == fresh_headline(recs[j], 2, opts.property, stamp));
    }
}

/// A record that the first run appends has an id that no headline in the
/// window carries, once the in-place mutations are applied.
pub proof fn lemma_created_local_not_carried(
    doc: Seq<HeadlineView>,
    recs: Seq<RecordView>,
    opts: OptionsView,
    w: SyncWindow,
    mtime: i64,
    stamp: Seq<char>,
    new_ids: Seq<Seq<char>>,
    j: int,
)
    requires
        indexable(doc, recs),
        opts.property != LAST_SYNC@,
        fresh_ids(doc, recs, opts, w, mtime, new_ids),
        0 <= j < recs.len(),
        created_local(doc, recs, opts, w, j),
    ensures
        !carried(locally_updated(doc, recs, opts, w, mtime, stamp, new_ids), opts.property, w, recs[j].id),
{
    let d1 = locally_updated(doc, recs, opts, w, mtime, stamp, new_ids);
    let x = recs[j].id;
    if carried(d1, opts.property, w, x) {
        let k = choose|k: int| 0 <= k < d1.len() && #[trigger] carrier(d1, opts.property, w, x)(k);
        lemma_after_local(doc, recs, opts, w, mtime, stamp, new_ids, k);
        if is_created(doc, recs, opts, w, mtime, k) {
            assert(recs[j].id != new_ids[k]);
        } else {
            lemma_first_index(doc.len() as int, carrier(doc, opts.property, w, x), 0);
            assert(carrier(doc, opts.property, w, x)(k));
        }
    }
}

/// What the appends keep, add and make carried, by induction on the number
/// of records considered.
pub proof fn lemma_appended_upto(
    doc: Seq<HeadlineView>,
    recs: Seq<RecordView>,
    opts: OptionsView,
    w: SyncWindow,
    mtime: i64,
    stamp: Seq<char>,
    new_ids: Seq<Seq<char>>,
    n: int,
)
    requires
        indexable(doc, recs),
        opts.property != LAST_SYNC@,
        unique_identities(doc, opts.property, w),
        fresh_ids(doc, recs, opts, w, mtime, new_ids),
        0 <= n <= recs.len(),
    ensures
        forall|k: int| 0 <= k < appended_upto(locally_updated(doc, recs, opts, w, mtime, stamp, new_ids), doc, recs, opts, w, stamp, n).len()
            ==> #[trigger] comes_from(
                appended_upto(locally_updated(doc, recs, opts, w, mtime, stamp, new_ids), doc, recs, opts, w, stamp, n),
                locally_updated(doc, recs, opts, w, mtime, stamp, new_ids),
                doc, recs, opts, w, stamp, n, k,
            ),
        unique_identities(appended_upto(locally_updated(doc, recs, opts, w, mtime, stamp, new_ids), doc, recs, opts, w, stamp, n), opts.property, w),
        forall|x: Seq<char>| #[trigger] carried(locally_updated(doc, recs, opts, w, mtime, stamp, new_ids), opts.property, w, x)
            ==> carried(appended_upto(locally_updated(doc, recs, opts, w, mtime, stamp, new_ids), doc, recs, opts, w, stamp, n), opts.property, w, x),
        forall|j: int| 0 <= j < n && #[trigger] created_local(doc, recs, opts, w, j)
            ==> carried(appended_upto(locally_updated(doc, recs, opts, w, mtime, stamp, new_ids), doc, recs, opts, w, stamp, n), opts.property, w, recs[j].id),
        forall|x: Seq<char>| #[trigger] carried(appended_upto(locally_updated(doc, recs, opts, w, mtime, stamp, new_ids), doc, recs, opts, w, stamp, n), opts.property, w, x)
            ==> carried(locally_updated(doc, recs, opts, w, mtime, stamp, new_ids), opts.property, w, x)
                || exists|j: int| 0 <= j < n && created_local(doc, recs, opts, w, j) && #[trigger] recs[j].id == x,
    decreases n,
{
    let d1 = locally_updated(doc, recs, opts, w, mtime, stamp, new_ids);
    let dn = appended_upto(d1, doc, recs, opts, w, stamp, n);
    if n == 0 {
        lemma_locally_updated_unique(doc, recs, opts, w, mtime, stamp, new_ids);
        assert forall|k: int| 0 <= k < dn.len() implies #[trigger] comes_from(dn, d1, doc, recs, opts, w, stamp, n, k) by {
            assert(dn[k] == d1[k]);
        }
    } else {
        lemma_appended_upto(doc, recs, opts, w, mtime, stamp, new_ids, n - 1);
        let prev = appended_upto(d1, doc, recs, opts, w, stamp, n - 1);
        if created_local(doc, recs, opts, w, n - 1) {
            let r = recs[n - 1];
            let title = opts.append_headline;
            let property = opts.property;
            assert(dn == appended(prev, title, r, property, stamp));
            // the record is in the window
            lemma_first_index(recs.len() as int, lister(recs, w, r.id), 0);
            // its id is not carried yet
            lemma_created_local_not_carried(doc, recs, opts, w, mtime, stamp, new_ids, n - 1);
            if carried(prev, property, w, r.id) {
                let j2 = choose|j2: int| 0 <= j2 < n - 1 && created_local(doc, recs, opts, w, j2) && #[trigger] recs[j2].id == r.id;
                lemma_first_index(recs.len() as int, lister(recs, w, r.id), 0);
                assert(find_record(recs, w, recs[j2].id) == Some(j2));
            }
            lemma_append_unique(prev, title, r, property, stamp, w);
            lemma_append_carries(prev, title, r, property, stamp, w);
            assert forall|k: int| 0 <= k < dn.len() implies #[trigger] comes_from(dn, d1, doc, recs, opts, w, stamp, n, k) by {
                lemma_append_index(prev, title, r, property, stamp, k);
                if k != append_pos(prev, title) {
                    let b = append_origin(prev, title, k);
                    if b < prev.len() {
                        assert(comes_from(prev, d1, doc, recs, opts, w, stamp, n - 1, b));
                        lemma_comes_from_moves(prev, dn, d1, doc, recs, opts, w, stamp, n - 1, n, b, k);
                    }
                } else {
                    assert(dn[k] == fresh_headline(recs[n - 1], 2, property, stamp));
                }
            }
            assert forall|x: Seq<char>| #[trigger] carried(prev, property, w, x) implies carried(dn, property, w, x) by {
                let k = choose|k: int| 0 <= k < prev.len() && #[trigger] carrier(prev, property, w, x)(k);
                lemma_append_keeps(prev, title, r, property, stamp, k);
                if k < append_pos(prev, title) {
                    assert(carrier(dn, property, w, x)(k));
                } else {
                    assert(carrier(dn, property, w, x)(k + 1));
                }
            }
            assert forall|x: Seq<char>| #[trigger] carried(dn, property, w, x) implies
                carried(d1, property, w, x) || exists|j: int| 0 <= j < n && created_local(doc, recs, opts, w, j) && #[trigger] recs[j].id == x by {
                let k = choose|k: int| 0 <= k < dn.len() && #[trigger] carrier(dn, property, w, x)(k);
                lemma_append_index(prev, title, r, property, stamp, k);
                if k == append_pos(prev, title) {
                    let f = fresh_headline(r, 2, property, stamp);
                    assert(f.properties[0] == (property, r.id));
                    assert(recs[n - 1].id == x);
                } else {
                    let b = append_origin(prev, title, k);
                    if b < prev.len() {
                        assert(carrier(prev, property, w, x)(b));
                        assert(carried(prev, property, w, x));
                    }
                }
            }
        } else {
            assert(dn == prev);
            assert forall|k: int| 0 <= k < dn.len() implies #[trigger] comes_from(dn, d1, doc, recs, opts, w, stamp, n, k) by {
                assert(comes_from(prev, d1, doc, recs, opts, w, stamp, n - 1, k));
                lemma_comes_from_moves(prev, dn, d1, doc, recs, opts, w, stamp, n - 1, n, k, k);
            }
        }
    }
}

/// A headline pushed to a record is the first in the window to carry the
/// record's id, and the record is the first in the window with that id.
pub proof fn lemma_pushes(doc: Seq<HeadlineView>, recs: Seq<RecordView>, opts: OptionsView, w: SyncWindow, mtime: i64, i: int, j: int)
    requires
        indexable(doc, recs),
        0 <= j < recs.len(),
        pushes(doc, recs, opts, w, mtime, i, j),
    ensures
        in_window(doc[i], w),
        identity(doc[i], opts.property) == Some(recs[j].id),
        find_local(doc, opts.property, w, recs[j].id) == Some(i),
        find_record(recs, w, recs[j].id) == Some(j),
        w.holds(recs[j].start),
{
    let id = identity(doc[i], opts.property).unwrap();
    lemma_first_index(recs.len() as int, lister(recs, w, id), 0);
}

/// Every created record is the one of a headline pushed as a new record.
pub proof fn lemma_created_records_from(
    doc: Seq<HeadlineView>,
    recs: Seq<RecordView>,
    opts: OptionsView,
    w: SyncWindow,
    mtime: i64,
    new_ids: Seq<Seq<char>>,
    created_at: Seq<i64>,
    n: int,
    c: int,
)
    requires
        0 <= n <= doc.len(),
        0 <= c < created_records(doc, recs, opts, w, mtime, new_ids, created_at, n).len(),
    ensures
        exists|i: int| 0 <= i < n && is_created(doc, recs, opts, w, mtime, i)
            && created_records(doc, recs, opts, w, mtime, new_ids, created_at, n)[c] == #[trigger] draft_of(doc[i], new_ids[i], created_at[i]),
    decreases n,
{
    let prev = created_records(doc, recs, opts, w, mtime, new_ids, created_at, n - 1);
    let all = created_records(doc, recs, opts, w, mtime, new_ids, created_at, n);
    if c < prev.len() {
        lemma_created_records_from(doc, recs, opts, w, mtime, new_ids, created_at, n - 1, c);
        assert(all[c] == prev[c]);
    } else {
        assert(all[c] == draft_of(doc[n - 1], new_ids[n - 1], created_at[n - 1]));
    }
}

/// What a second run assumes of the first: the indices fit, the identity
/// property is not the last-synchronisation one, the window's identities
/// are unique (as the document's identities are meant to be), the service
/// gave new ids to new records and modification times to all it changed,
/// and no pair was left in conflict.
pub open spec fn clean_first_run(
    doc: Seq<HeadlineView>,
    recs: Seq<RecordView>,
    opts: OptionsView,
    w: SyncWindow,
    mtime: i64,
    new_ids: Seq<Seq<char>>,
    updated: Seq<i64>,
    created_at: Seq<i64>,
) -> bool {
    &&& indexable(doc, recs)
    &&& opts.property != LAST_SYNC@
    &&& unique_identities(doc, opts.property, w)
    &&& fresh_ids(doc, recs, opts, w, mtime, new_ids)
    &&& updated.len() == recs.len()
    &&& created_at.len() == doc.len()
    &&& forall|i: int| 0 <= i < doc.len()
        ==> !(#[trigger] local_item(doc, recs, opts, w, mtime, i) matches Some(PlanItem::FlagConflict { .. }))
}

/// The listed records keep their ids and whether they start in the window.
pub proof fn lemma_updated_records_keep(
    doc: Seq<HeadlineView>,
    recs: Seq<RecordView>,
    opts: OptionsView,
    w: SyncWindow,
    mtime: i64,
    new_ids: Seq<Seq<char>>,
    updated: Seq<i64>,
    created_at: Seq<i64>,
    j: int,
)
    requires
        clean_first_run(doc, recs, opts, w, mtime, new_ids, updated, created_at),
        0 <= j < recs.len(),
    ensures
        remotely_updated(doc, recs, opts, w, mtime, new_ids, updated, created_at)[j].id == recs[j].id,
        w.holds(remotely_updated(doc, recs, opts, w, mtime, new_ids, updated, created_at)[j].start) == w.holds(recs[j].start),
        remotely_updated(doc, recs, opts, w, mtime, new_ids, updated, created_at).len()
            == recs.len() + created_records(doc, recs, opts, w, mtime, new_ids, created_at, doc.len() as int).len(),
{
    let r2 = remotely_updated(doc, recs, opts, w, mtime, new_ids, updated, created_at);
    assert(r2[j] == after_remote(doc, recs, opts, w, mtime, updated, j));
    if exists|i: int| pushes(doc, recs, opts, w, mtime, i, j) {
        let i = choose|i: int| pushes(doc, recs, opts, w, mtime, i, j);
        lemma_pushes(doc, recs, opts, w, mtime, i, j);
    }
}

/// A record that is not pushed to stays as it was listed.
pub proof fn lemma_unpushed_record_kept(
    doc: Seq<HeadlineView>,
    recs: Seq<RecordView>,
    opts: OptionsView,
    w: SyncWindow,
    mtime: i64,
    new_ids: Seq<Seq<char>>,
    updated: Seq<i64>,
    created_at: Seq<i64>,
    j: int,
)
    requires
        clean_first_run(doc, recs, opts, w, mtime, new_ids, updated, created_at),
        0 <= j < recs.len(),
        match find_local(doc, opts.property, w, recs[j].id) {
            Some(i) => !(local_item(doc, recs, opts, w, mtime, i) matches Some(PlanItem::UpdateRemote { .. })),
            None => true,
        },
    ensures
        remotely_updated(doc, recs, opts, w, mtime, new_ids, updated, created_at)[j] == recs[j],
{
    let r2 = remotely_updated(doc, recs, opts, w, mtime, new_ids, updated, created_at);
    assert(r2[j] == after_remote(doc, recs, opts, w, mtime, updated, j));
    if exists|i: int| pushes(doc, recs, opts, w, mtime, i, j) {
        let i = choose|i: int| pushes(doc, recs, opts, w, mtime, i, j);
        lemma_pushes(doc, recs, opts, w, mtime, i, j);
    }
}

/// A pushed record holds the content of the headline pushed to it.
pub proof fn lemma_pushed_record(
    doc: Seq<HeadlineView>,
    recs: Seq<RecordView>,
    opts: OptionsView,
    w: SyncWindow,
    mtime: i64,
    new_ids: Seq<Seq<char>>,
    updated: Seq<i64>,
    created_at: Seq<i64>,
    i: int,
    j: int,
)
    requires
        clean_first_run(doc, recs, opts, w, mtime, new_ids, updated, created_at),
        0 <= j < recs.len(),
        pushes(doc, recs, opts, w, mtime, i, j),
    ensures
        remotely_updated(doc, recs, opts, w, mtime, new_ids, updated, created_at)[j] == draft_of(doc[i], recs[j].id, updated[j]),
{
    let r2 = remotely_updated(doc, recs, opts, w, mtime, new_ids, updated, created_at);
    assert(r2[j] == after_remote(doc, recs, opts, w, mtime, updated, j));
    let i2 = choose|i2: int| pushes(doc, recs, opts, w, mtime, i2, j);
    lemma_pushes(doc, recs, opts, w, mtime, i, j);
    lemma_pushes(doc, recs, opts, w, mtime, i2, j);
}

/// An id found among the listed records is found at the same place after
/// the first run; an id found nowhere, and given to no new record, stays
/// unfound; and a new record's id finds that new record.
pub proof fn lemma_find_record_after(
    doc: Seq<HeadlineView>,
    recs: Seq<RecordView>,
    opts: OptionsView,
    w: SyncWindow,
    mtime: i64,
    new_ids: Seq<Seq<char>>,
    updated: Seq<i64>,
    created_at: Seq<i64>,
    x: Seq<char>,
)
    requires
        clean_first_run(doc, recs, opts, w, mtime, new_ids, updated, created_at),
    ensures
        find_record(recs, w, x) is Some ==> find_record(remotely_updated(doc, recs, opts, w, mtime, new_ids, updated, created_at), w, x)
            == find_record(recs, w, x),
        find_record(recs, w, x) is None && (forall|i: int| 0 <= i < doc.len() && is_created(doc, recs, opts, w, mtime, i) ==> #[trigger] new_ids[i] != x)
            ==> find_record(remotely_updated(doc, recs, opts, w, mtime, new_ids, updated, created_at), w, x) is None,
        forall|i: int| 0 <= i < doc.len() && is_created(doc, recs, opts, w, mtime, i) && #[trigger] new_ids[i] == x
            ==> (find_record(remotely_updated(doc, recs, opts, w, mtime, new_ids, updated, created_at), w, x) matches Some(j2)
                ==> remotely_updated(doc, recs, opts, w, mtime, new_ids, updated, created_at)[j2] == draft_of(doc[i], new_ids[i], created_at[i])),
{
    let r2 = remotely_updated(doc, recs, opts, w, mtime, new_ids, updated, created_at);
    let created = created_records(doc, recs, opts, w, mtime, new_ids, created_at, doc.len() as int);
    let listed_pred = lister(recs, w, x);
    let later_pred = lister(r2, w, x);
    assert forall|k: int| 0 <= k < recs.len() implies #[trigger] listed_pred(k) == later_pred(k) by {
        lemma_updated_records_keep(doc, recs, opts, w, mtime, new_ids, updated, created_at, k);
    }
    assert(r2.len() == recs.len() + created.len());
    lemma_first_index(recs.len() as int, listed_pred, 0);
    lemma_first_index(r2.len() as int, later_pred, 0);
    if find_record(recs, w, x) is Some {
        lemma_first_index_extends(recs.len() as int, listed_pred, r2.len() as int, later_pred);
    }
    if let Some(j2) = find_record(r2, w, x) {
        if j2 >= recs.len() {
            let c = j2 - recs.len();
            assert(r2[j2] == created[c]);
            lemma_created_records_from(doc, recs, opts, w, mtime, new_ids, created_at, doc.len() as int, c);
            let i = choose|i: int| 0 <= i < doc.len() && is_created(doc, recs, opts, w, mtime, i)
                && created[c] == #[trigger] draft_of(doc[i], new_ids[i], created_at[i]);
            assert(r2[j2].id == new_ids[i]);
            assert forall|i0: int| 0 <= i0 < doc.len() && is_created(doc, recs, opts, w, mtime, i0) && #[trigger] new_ids[i0] == x
                implies r2[j2] == draft_of(doc[i0], new_ids[i0], created_at[i0]) by {
                if i0 != i {
                    assert(new_ids[i0] != new_ids[i]);
                }
            }
        } else {
            assert(listed_pred(j2));
            assert forall|i0: int| 0 <= i0 < doc.len() && is_created(doc, recs, opts, w, mtime, i0) && #[trigger] new_ids[i0] == x
                implies r2[j2] == draft_of(doc[i0], new_ids[i0], created_at[i0]) by {
                assert(recs[j2].id != new_ids[i0]);
            }
        }
    }
}

/// A headline of the document, once mutated in place, carries an id when
/// it is in the window, and has the content of the record that a second
/// run finds for that id.
pub proof fn lemma_second_run_kept(
    doc: Seq<HeadlineView>,
    recs: Seq<RecordView>,
    opts: OptionsView,
    w: SyncWindow,
    mtime: i64,
    stamp: Seq<char>,
    new_ids: Seq<Seq<char>>,
    updated: Seq<i64>,
    created_at: Seq<i64>,
    i: int,
)
    requires
        clean_first_run(doc, recs, opts, w, mtime, new_ids, updated, created_at),
        0 <= i < doc.len(),
        in_window(after_local(doc, recs, opts, w, mtime, stamp, new_ids, i), w),
    ensures
        identity(after_local(doc, recs, opts, w, mtime, stamp, new_ids, i), opts.property) matches Some(x)
            && (find_record(remotely_updated(doc, recs, opts, w, mtime, new_ids, updated, created_at), w, x) matches Some(j2)
                ==> local_content(after_local(doc, recs, opts, w, mtime, stamp, new_ids, i))
                    == remote_content(remotely_updated(doc, recs, opts, w, mtime, new_ids, updated, created_at)[j2])),
{
    let r2 = remotely_updated(doc, recs, opts, w, mtime, new_ids, updated, created_at);
    let a = after_local(doc, recs, opts, w, mtime, stamp, new_ids, i);
    let h = doc[i];
    lemma_after_local(doc, recs, opts, w, mtime, stamp, new_ids, i);
    assert(in_window(h, w));
    if is_created(doc, recs, opts, w, mtime, i) {
        let x = new_ids[i];
        lemma_find_record_after(doc, recs, opts, w, mtime, new_ids, updated, created_at, x);
    } else {
        let x = identity(h, opts.property).unwrap();
        lemma_unique_carrier_is_found(doc, opts.property, w, i);
        lemma_find_record_after(doc, recs, opts, w, mtime, new_ids, updated, created_at, x);
        lemma_first_index(recs.len() as int, lister(recs, w, x), 0);
        match find_record(recs, w, x) {
            None => {
                assert forall|i0: int| 0 <= i0 < doc.len() && is_created(doc, recs, opts, w, mtime, i0) implies #[trigger] new_ids[i0] != x by {
                    assert(identity(doc[i], opts.property) != Some(new_ids[i0]));
                }
            },
            Some(j) => {
                let item = local_item(doc, recs, opts, w, mtime, i);
                match item {
                    Some(PlanItem::UpdateRemote { .. }) => {
                        assert(pushes(doc, recs, opts, w, mtime, i, j));
                        lemma_pushed_record(doc, recs, opts, w, mtime, new_ids, updated, created_at, i, j);
                    },
                    _ => {
                        lemma_unpushed_record_kept(doc, recs, opts, w, mtime, new_ids, updated, created_at, j);
                    },
                }
            },
        }
    }
}

/// A headline appended for a record carries the record's id, is in the
/// window, and has the content of the record that a second run finds.
pub proof fn lemma_second_run_appended(
    doc: Seq<HeadlineView>,
    recs: Seq<RecordView>,
    opts: OptionsView,
    w: SyncWindow,
    mtime: i64,
    stamp: Seq<char>,
    new_ids: Seq<Seq<char>>,
    updated: Seq<i64>,
    created_at: Seq<i64>,
    j: int,
)
    requires
        clean_first_run(doc, recs, opts, w, mtime, new_ids, updated, created_at),
        0 <= j < recs.len(),
        created_local(doc, recs, opts, w, j),
    ensures
        identity(fresh_headline(recs[j], 2, opts.property, stamp), opts.property) == Some(recs[j].id),
        find_record(remotely_updated(doc, recs, opts, w, mtime, new_ids, updated, created_at), w, recs[j].id) == Some(j),
        local_content(fresh_headline(recs[j], 2, opts.property, stamp))
            == remote_content(remotely_updated(doc, recs, opts, w, mtime, new_ids, updated, created_at)[j]),
{
    let f = fresh_headline(recs[j], 2, opts.property, stamp);
    assert(f.properties[0] == (opts.property, recs[j].id));
    lemma_find_record_after(doc, recs, opts, w, mtime, new_ids, updated, created_at, recs[j].id);
    lemma_unpushed_record_kept(doc, recs, opts, w, mtime, new_ids, updated, created_at, j);
}

/// Where the predicates of two sequences agree on a prefix, the first match
/// found in the prefix is the first match of the longer one.
pub proof fn lemma_first_index_extends(n1: int, listed_pred: spec_fn(int) -> bool, n2: int, later_pred: spec_fn(int) -> bool)
    requires
        0 <= n1 <= n2,
        forall|k: int| 0 <= k < n1 ==> #[trigger] listed_pred(k) == later_pred(k),
        first_index(n1, listed_pred, 0).is_some(),
    ensures
        first_index(n2, later_pred, 0) == first_index(n1, listed_pred, 0),
{
    lemma_first_index(n1, listed_pred, 0);
    lemma_first_index(n2, later_pred, 0);
    let j = first_index(n1, listed_pred, 0).unwrap();
    assert(later_pred(j));
    if let Some(j2) = first_index(n2, later_pred, 0) {
        if j2 < j {
            assert(listed_pred(j2));
        }
    }
}

/// With unique identities, a headline in the window that carries an id is
/// the one that `find_local` finds for it.
pub proof fn lemma_unique_carrier_is_found(d: Seq<HeadlineView>, property: Seq<char>, w: SyncWindow, k: int)
    requires
        unique_identities(d, property, w),
        0 <= k < d.len(),
        in_window(d[k], w),
        identity(d[k], property).is_some(),
    ensures
        find_local(d, property, w, identity(d[k], property).unwrap()) == Some(k),
{
    let id = identity(d[k], property).unwrap();
    let p = carrier(d, property, w, id);
    lemma_first_index(d.len() as int, p, 0);
    assert(p(k));
    let j = find_local(d, property, w, id).unwrap();
    if j != k {
        assert(p(j));
        assert(in_window(d[j], w) && identity(d[j], property) == Some(id));
    }
}

/// The item of headline `i` acts on headline `i`, and never creates a
/// headline.
pub proof fn lemma_local_item_acts_on_itself(
    doc: Seq<HeadlineView>,
    recs: Seq<RecordView>,
    opts: OptionsView,
    w: SyncWindow,
    mtime: i64,
    i: int,
)
    requires
        indexable(doc, recs),
        0 <= i < doc.len(),
    ensures
        local_item(doc, recs, opts, w, mtime, i) matches Some(x) ==> (item_local(x) is None || item_local(x) == Some(i as usize))
            && !(x is CreateLocal),
{
}

/// A plan item that acts on a headline is that headline's item.
pub proof fn lemma_item_local_source(
    doc: Seq<HeadlineView>,
    recs: Seq<RecordView>,
    opts: OptionsView,
    w: SyncWindow,
    mtime: i64,
    c: int,
)
    requires
        indexable(doc, recs),
        0 <= c < plan_of(doc, recs, opts, w, mtime).len(),
        item_local(plan_of(doc, recs, opts, w, mtime)[c]) is Some,
    ensures
        ({
            let l = item_local(plan_of(doc, recs, opts, w, mtime)[c]).unwrap() as int;
            0 <= l < doc.len() && local_item(doc, recs, opts, w, mtime, l) == Some(plan_of(doc, recs, opts, w, mtime)[c])
        }),
{
    let plan = plan_of(doc, recs, opts, w, mtime);
    lemma_plan_source(doc, recs, opts, w, mtime, c);
    if exists|i: int| 0 <= i < doc.len() && local_item(doc, recs, opts, w, mtime, i) == Some(#[trigger] plan[c]) {
        let i = choose|i: int| 0 <= i < doc.len() && local_item(doc, recs, opts, w, mtime, i) == Some(#[trigger] plan[c]);
        lemma_local_item_acts_on_itself(doc, recs, opts, w, mtime, i);
    }
}

/// The item of each headline is in the plan.
pub proof fn lemma_local_item_planned(
    doc: Seq<HeadlineView>,
    recs: Seq<RecordView>,
    opts: OptionsView,
    w: SyncWindow,
    mtime: i64,
    i: int,
)
    requires
        0 <= i < doc.len(),
        local_item(doc, recs, opts, w, mtime, i) is Some,
    ensures
        exists|c: int| 0 <= c < plan_of(doc, recs, opts, w, mtime).len()
            && #[trigger] plan_of(doc, recs, opts, w, mtime)[c] == local_item(doc, recs, opts, w, mtime, i).unwrap(),
{
    lemma_local_item_in_plan(doc, recs, opts, w, mtime, doc.len() as int, i);
    let locals = local_items(doc, recs, opts, w, mtime, doc.len() as int);
    let x = local_item(doc, recs, opts, w, mtime, i).unwrap();
    let c = choose|c: int| 0 <= c < locals.len() && locals[c] == x;
    assert(plan_of(doc, recs, opts, w, mtime)[c] == x);
}

/// The item of a record before `n` is in the records' part.
pub proof fn lemma_remote_item_in_items(doc: Seq<HeadlineView>, recs: Seq<RecordView>, opts: OptionsView, w: SyncWindow, n: int, j: int)
    requires
        0 <= j < n,
        remote_item(doc, recs, opts, w, j).is_some(),
    ensures
        remote_items(doc, recs, opts, w, n).contains(remote_item(doc, recs, opts, w, j).unwrap()),
    decreases n,
{
    let x = remote_item(doc, recs, opts, w, j).unwrap();
    let all = remote_items(doc, recs, opts, w, n);
    if j == n - 1 {
        assert(all[all.len() - 1] == x);
    } else {
        lemma_remote_item_in_items(doc, recs, opts, w, n - 1, j);
        let prev = remote_items(doc, recs, opts, w, n - 1);
        let k = choose|k: int| 0 <= k < prev.len() && prev[k] == x;
        assert(all[k] == x);
    }
}

/// The plan creates a headline for record `j` exactly when the first run
/// appends it.
pub proof fn lemma_plan_creates_local(doc: Seq<HeadlineView>, recs: Seq<RecordView>, opts: OptionsView, w: SyncWindow, mtime: i64, j: int)
    requires
        indexable(doc, recs),
        0 <= j < recs.len(),
    ensures
        (exists|c: int| 0 <= c < plan_of(doc, recs, opts, w, mtime).len()
            && #[trigger] plan_of(doc, recs, opts, w, mtime)[c] == PlanItem::CreateLocal { remote: j as usize })
            == created_local(doc, recs, opts, w, j),
{
    let plan = plan_of(doc, recs, opts, w, mtime);
    let locals = local_items(doc, recs, opts, w, mtime, doc.len() as int);
    if created_local(doc, recs, opts, w, j) {
        lemma_remote_item_in_items(doc, recs, opts, w, recs.len() as int, j);
        let remotes = remote_items(doc, recs, opts, w, recs.len() as int);
        let k = choose|k: int| 0 <= k < remotes.len() && remotes[k] == remote_item(doc, recs, opts, w, j).unwrap();
        assert(plan[locals.len() + k] == PlanItem::CreateLocal { remote: j as usize });
    }
    if exists|c: int| 0 <= c < plan.len() && #[trigger] plan[c] == (PlanItem::CreateLocal { remote: j as usize }) {
        let c = choose|c: int| 0 <= c < plan.len() && #[trigger] plan[c] == PlanItem::CreateLocal { remote: j as usize };
        lemma_plan_source(doc, recs, opts, w, mtime, c);
        if exists|i: int| 0 <= i < doc.len() && local_item(doc, recs, opts, w, mtime, i) == Some(#[trigger] plan[c]) {
            let i = choose|i: int| 0 <= i < doc.len() && local_item(doc, recs, opts, w, mtime, i) == Some(#[trigger] plan[c]);
            lemma_local_item_acts_on_itself(doc, recs, opts, w, mtime, i);
        } else {
            let j2 = choose|j2: int| 0 <= j2 < recs.len() && remote_item(doc, recs, opts, w, j2) == Some(#[trigger] plan[c]);
            assert(j2 == j);
        }
    }
}

/// Headline `i` of `start` once the remote calls of the plan items before
/// `upto` succeeded, except at the positions in `demoted`, whose calls were
/// refused: stamped with its new id where it was created remotely, stamped
/// where it was pushed, as it was otherwise.
pub open spec fn pushed_view(
    start: Seq<HeadlineView>,
    plan: Seq<PlanItem>,
    property: Seq<char>,
    stamp: Seq<char>,
    new_ids: Seq<Seq<char>>,
    demoted: Set<int>,
    upto: int,
    i: int,
) -> HeadlineView {
    if exists|c: int| 0 <= c < upto && #[trigger] plan[c] == (PlanItem::CreateRemote { local: i as usize }) && !demoted.contains(c) {
        stamped(start[i], property, new_ids[i], stamp)
    } else if exists|c: int| 0 <= c < upto && #[trigger] plan[c] is UpdateRemote && item_local(plan[c]) == Some(i as usize)
        && !demoted.contains(c) {
        touched(start[i], stamp)
    } else {
        start[i]
    }
}

/// Headline `i` once, further, the records of the plan items before `upto`
/// that update headlines were pulled into them.
pub open spec fn pulled_view(
    start: Seq<HeadlineView>,
    plan: Seq<PlanItem>,
    recs: Seq<RecordView>,
    property: Seq<char>,
    stamp: Seq<char>,
    new_ids: Seq<Seq<char>>,
    demoted: Set<int>,
    upto: int,
    i: int,
) -> HeadlineView {
    let pushed = pushed_view(start, plan, property, stamp, new_ids, demoted, plan.len() as int, i);
    if exists|c: int| 0 <= c < upto && #[trigger] plan[c] is UpdateLocal && item_local(plan[c]) == Some(i as usize) {
        let c = choose|c: int| 0 <= c < upto && #[trigger] plan[c] is UpdateLocal && item_local(plan[c]) == Some(i as usize);
        pulled(pushed, recs[item_remote(plan[c]).unwrap() as int], stamp)
    } else {
        pushed
    }
}

/// Passing an item that does not act on headline `i`, or whose call was
/// refused, leaves its pushed view as it was.
pub proof fn lemma_pushed_view_other(
    start: Seq<HeadlineView>,
    plan: Seq<PlanItem>,
    property: Seq<char>,
    stamp: Seq<char>,
    new_ids: Seq<Seq<char>>,
    new_ids2: Seq<Seq<char>>,
    demoted: Set<int>,
    demoted2: Set<int>,
    c: int,
    i: int,
)
    requires
        0 <= c < plan.len(),
        item_local(plan[c]) != Some(i as usize) || !(plan[c] is CreateRemote || plan[c] is UpdateRemote) || demoted2.contains(c),
        new_ids2[i] == new_ids[i],
        forall|c2: int| 0 <= c2 < c ==> demoted2.contains(c2) == demoted.contains(c2),
    ensures
        pushed_view(start, plan, property, stamp, new_ids2, demoted2, c + 1, i)
            == pushed_view(start, plan, property, stamp, new_ids, demoted, c, i),
{
    if exists|c2: int| 0 <= c2 < c + 1 && #[trigger] plan[c2] == (PlanItem::CreateRemote { local: i as usize }) && !demoted2.contains(c2) {
        let c2 = choose|c2: int| 0 <= c2 < c + 1 && #[trigger] plan[c2] == (PlanItem::CreateRemote { local: i as usize }) && !demoted2.contains(c2);
        assert(c2 != c);
    }
    if exists|c2: int| 0 <= c2 < c && #[trigger] plan[c2] == (PlanItem::CreateRemote { local: i as usize }) && !demoted.contains(c2) {
        let c2 = choose|c2: int| 0 <= c2 < c && #[trigger] plan[c2] == (PlanItem::CreateRemote { local: i as usize }) && !demoted.contains(c2);
        assert(!demoted2.contains(c2));
    }
    if exists|c2: int| 0 <= c2 < c + 1 && #[trigger] plan[c2] is UpdateRemote && item_local(plan[c2]) == Some(i as usize) && !demoted2.contains(c2) {
        let c2 = choose|c2: int| 0 <= c2 < c + 1 && #[trigger] plan[c2] is UpdateRemote && item_local(plan[c2]) == Some(i as usize) && !demoted2.contains(c2);
        assert(c2 != c);
    }
    if exists|c2: int| 0 <= c2 < c && #[trigger] plan[c2] is UpdateRemote && item_local(plan[c2]) == Some(i as usize) && !demoted.contains(c2) {
        let c2 = choose|c2: int| 0 <= c2 < c && #[trigger] plan[c2] is UpdateRemote && item_local(plan[c2]) == Some(i as usize) && !demoted.contains(c2);
        assert(!demoted2.contains(c2));
    }
}

/// Passing the one item that acts on headline `i`, its call accepted,
/// applies that call.
pub proof fn lemma_pushed_view_own(
    start: Seq<HeadlineView>,
    plan: Seq<PlanItem>,
    property: Seq<char>,
    stamp: Seq<char>,
    new_ids: Seq<Seq<char>>,
    demoted: Set<int>,
    c: int,
    i: int,
)
    requires
        0 <= c < plan.len(),
        item_local(plan[c]) == Some(i as usize),
        !demoted.contains(c),
        forall|c2: int| 0 <= c2 < c ==> item_local(#[trigger] plan[c2]) != Some(i as usize),
    ensures
        pushed_view(start, plan, property, stamp, new_ids, demoted, c, i) == start[i],
        pushed_view(start, plan, property, stamp, new_ids, demoted, c + 1, i) == (if plan[c] is CreateRemote {
            stamped(start[i], property, new_ids[i], stamp)
        } else if plan[c] is UpdateRemote {
            touched(start[i], stamp)
        } else {
            start[i]
        }),
{
    if exists|c2: int| 0 <= c2 < c && #[trigger] plan[c2] == (PlanItem::CreateRemote { local: i as usize }) && !demoted.contains(c2) {
        let c2 = choose|c2: int| 0 <= c2 < c && #[trigger] plan[c2] == (PlanItem::CreateRemote { local: i as usize }) && !demoted.contains(c2);
        assert(item_local(plan[c2]) == Some(i as usize));
    }
    if exists|c2: int| 0 <= c2 < c && #[trigger] plan[c2] is UpdateRemote && item_local(plan[c2]) == Some(i as usize) && !demoted.contains(c2) {
        let c2 = choose|c2: int| 0 <= c2 < c && #[trigger] plan[c2] is UpdateRemote && item_local(plan[c2]) == Some(i as usize) && !demoted.contains(c2);
        assert(item_local(plan[c2]) == Some(i as usize));
    }
    if plan[c] is CreateRemote {
        assert(plan[c] == (PlanItem::CreateRemote { local: i as usize }));
    }
    if exists|c2: int| 0 <= c2 < c + 1 && #[trigger] plan[c2] == (PlanItem::CreateRemote { local: i as usize }) && !demoted.contains(c2) {
        let c2 = choose|c2: int| 0 <= c2 < c + 1 && #[trigger] plan[c2] == (PlanItem::CreateRemote { local: i as usize }) && !demoted.contains(c2);
        assert(c2 == c);
    }
    if exists|c2: int| 0 <= c2 < c + 1 && #[trigger] plan[c2] is UpdateRemote && item_local(plan[c2]) == Some(i as usize) && !demoted.contains(c2) {
        let c2 = choose|c2: int| 0 <= c2 < c + 1 && #[trigger] plan[c2] is UpdateRemote && item_local(plan[c2]) == Some(i as usize) && !demoted.contains(c2);
        assert(c2 == c);
    }
}

/// Whether no two items of a plan act on the same headline.
pub open spec fn acts_once(plan: Seq<PlanItem>) -> bool {
    forall|c1: int, c2: int| 0 <= c1 < plan.len() && 0 <= c2 < plan.len() && c1 != c2 && item_local(#[trigger] plan[c1]) is Some
        ==> item_local(plan[c1]) != item_local(#[trigger] plan[c2])
}

/// Passing an item that does not update headline `i` from its record leaves
/// its pulled view as it was.
pub proof fn lemma_pulled_view_other(
    start: Seq<HeadlineView>,
    plan: Seq<PlanItem>,
    recs: Seq<RecordView>,
    property: Seq<char>,
    stamp: Seq<char>,
    new_ids: Seq<Seq<char>>,
    demoted: Set<int>,
    c: int,
    i: int,
)
    requires
        0 <= c < plan.len(),
        acts_once(plan),
        item_local(plan[c]) != Some(i as usize) || !(plan[c] is UpdateLocal),
    ensures
        pulled_view(start, plan, recs, property, stamp, new_ids, demoted, c + 1, i) == pulled_view(start, plan, recs, property, stamp, new_ids, demoted, c, i),
{
    if exists|c2: int| 0 <= c2 < c + 1 && #[trigger] plan[c2] is UpdateLocal && item_local(plan[c2]) == Some(i as usize) {
        let a = choose|c2: int| 0 <= c2 < c + 1 && #[trigger] plan[c2] is UpdateLocal && item_local(plan[c2]) == Some(i as usize);
        assert(a != c);
        assert(0 <= a < c && plan[a] is UpdateLocal && item_local(plan[a]) == Some(i as usize));
        let b = choose|c2: int| 0 <= c2 < c && #[trigger] plan[c2] is UpdateLocal && item_local(plan[c2]) == Some(i as usize);
        if a != b {
            assert(item_local(plan[a]) != item_local(plan[b]));
        }
    }
}

/// Passing the one item that acts on headline `i`, when it updates it from
/// its record, pulls the record.
pub proof fn lemma_pulled_view_own(
    start: Seq<HeadlineView>,
    plan: Seq<PlanItem>,
    recs: Seq<RecordView>,
    property: Seq<char>,
    stamp: Seq<char>,
    new_ids: Seq<Seq<char>>,
    demoted: Set<int>,
    c: int,
    i: int,
)
    requires
        0 <= c < plan.len(),
        item_local(plan[c]) == Some(i as usize),
        plan[c] is UpdateLocal,
        acts_once(plan),
    ensures
        pulled_view(start, plan, recs, property, stamp, new_ids, demoted, c, i)
            == pushed_view(start, plan, property, stamp, new_ids, demoted, plan.len() as int, i),
        pulled_view(start, plan, recs, property, stamp, new_ids, demoted, c + 1, i) == pulled(
            pushed_view(start, plan, property, stamp, new_ids, demoted, plan.len() as int, i),
            recs[item_remote(plan[c]).unwrap() as int],
            stamp,
        ),
{
    if exists|c2: int| 0 <= c2 < c && #[trigger] plan[c2] is UpdateLocal && item_local(plan[c2]) == Some(i as usize) {
        let c2 = choose|c2: int| 0 <= c2 < c && #[trigger] plan[c2] is UpdateLocal && item_local(plan[c2]) == Some(i as usize);
        assert(item_local(plan[c2]) != item_local(plan[c]));
    }
    assert(0 <= c < c + 1 && plan[c] is UpdateLocal && item_local(plan[c]) == Some(i as usize));
    let a = choose|c2: int| 0 <= c2 < c + 1 && #[trigger] plan[c2] is UpdateLocal && item_local(plan[c2]) == Some(i as usize);
    if a != c {
        assert(item_local(plan[a]) != item_local(plan[c]));
    }
}

/// No two items of a plan act on the same headline.
pub proof fn lemma_plan_acts_once_all(doc: Seq<HeadlineView>, recs: Seq<RecordView>, opts: OptionsView, w: SyncWindow, mtime: i64)
    requires
        indexable(doc, recs),
    ensures
        acts_once(plan_of(doc, recs, opts, w, mtime)),
{
    let plan = plan_of(doc, recs, opts, w, mtime);
    assert forall|c1: int, c2: int| 0 <= c1 < plan.len() && 0 <= c2 < plan.len() && c1 != c2 && item_local(#[trigger] plan[c1]) is Some
        implies item_local(plan[c1]) != item_local(#[trigger] plan[c2]) by {
        if c1 < c2 {
            lemma_plan_acts_once(doc, recs, opts, w, mtime, c1, c2);
        } else {
            lemma_plan_acts_once(doc, recs, opts, w, mtime, c2, c1);
        }
    }
}

/// Once every item of the plan has passed, the pulled view of a headline is
/// the headline after the first run's in-place mutations.
pub proof fn lemma_pulled_view_is_after_local(
    start: Seq<HeadlineView>,
    recs: Seq<RecordView>,
    opts: OptionsView,
    w: SyncWindow,
    mtime: i64,
    stamp: Seq<char>,
    new_ids: Seq<Seq<char>>,
    demoted: Set<int>,
    i: int,
)
    requires
        indexable(start, recs),
        0 <= i < start.len(),
        forall|c: int| 0 <= c < plan_of(start, recs, opts, w, mtime).len() ==> !demoted.contains(c),
    ensures
        pulled_view(start, plan_of(start, recs, opts, w, mtime), recs, opts.property, stamp, new_ids, demoted,
            plan_of(start, recs, opts, w, mtime).len() as int, i)
            == after_local(start, recs, opts, w, mtime, stamp, new_ids, i),
{
    let plan = plan_of(start, recs, opts, w, mtime);
    let n = plan.len() as int;
    lemma_plan_acts_once_all(start, recs, opts, w, mtime);
    lemma_local_item_acts_on_itself(start, recs, opts, w, mtime, i);
    let item = local_item(start, recs, opts, w, mtime, i);
    let own = item matches Some(x) && item_local(x) == Some(i as usize);
    if own {
        lemma_local_item_planned(start, recs, opts, w, mtime, i);
        let x = item.unwrap();
        let c0 = choose|c: int| 0 <= c < n && #[trigger] plan[c] == x;
        assert forall|c: int| 0 <= c < n && item_local(#[trigger] plan[c]) == Some(i as usize) implies c == c0 by {
            if c != c0 {
                assert(item_local(plan[c0]) != item_local(plan[c]));
            }
        }
        if x is CreateRemote {
            assert(plan[c0] == (PlanItem::CreateRemote { local: i as usize }));
        }
        if x is UpdateRemote {
            assert(plan[c0] is UpdateRemote && item_local(plan[c0]) == Some(i as usize));
        }
        if x is UpdateLocal {
            assert(plan[c0] is UpdateLocal && item_local(plan[c0]) == Some(i as usize));
        }
    } else {
        assert forall|c: int| 0 <= c < n implies item_local(#[trigger] plan[c]) != Some(i as usize) by {
            if item_local(plan[c]) == Some(i as usize) {
                lemma_item_local_source(start, recs, opts, w, mtime, c);
            }
        }
    }
}

/// The document that a session leaves once done: every headline updated as
/// the plan says (but for the refused calls at `demoted`), then the records
/// that only exist remotely appended.
pub open spec fn session_result(
    start: Seq<HeadlineView>,
    recs: Seq<RecordView>,
    opts: OptionsView,
    w: SyncWindow,
    mtime: i64,
    stamp: Seq<char>,
    new_ids: Seq<Seq<char>>,
    demoted: Set<int>,
) -> Seq<HeadlineView> {
    appended_upto(pulled_doc(start, recs, opts, w, mtime, stamp, new_ids, demoted), start, recs, opts, w, stamp, recs.len() as int)
}

/// Every headline of `start` once the plan's remote calls (but the refused
/// ones) and its pulls from records are applied.
pub open spec fn pulled_doc(
    start: Seq<HeadlineView>,
    recs: Seq<RecordView>,
    opts: OptionsView,
    w: SyncWindow,
    mtime: i64,
    stamp: Seq<char>,
    new_ids: Seq<Seq<char>>,
    demoted: Set<int>,
) -> Seq<HeadlineView> {
    let plan = plan_of(start, recs, opts, w, mtime);
    Seq::new(start.len(), |i: int| pulled_view(start, plan, recs, opts.property, stamp, new_ids, demoted, plan.len() as int, i))
}

/// Without refused calls, a session leaves the synchronised document.
pub proof fn lemma_session_result_without_refusals(
    start: Seq<HeadlineView>,
    recs: Seq<RecordView>,
    opts: OptionsView,
    w: SyncWindow,
    mtime: i64,
    stamp: Seq<char>,
    new_ids: Seq<Seq<char>>,
)
    requires
        indexable(start, recs),
    ensures
        session_result(start, recs, opts, w, mtime, stamp, new_ids, Set::empty()) == synced_document(start, recs, opts, w, mtime, stamp, new_ids),
{
    let pv = pulled_doc(start, recs, opts, w, mtime, stamp, new_ids, Set::empty());
    let d1 = locally_updated(start, recs, opts, w, mtime, stamp, new_ids);
    assert forall|i: int| 0 <= i < start.len() implies pv[i] == d1[i] by {
        lemma_pulled_view_is_after_local(start, recs, opts, w, mtime, stamp, new_ids, Set::empty(), i);
    }
    assert(pv =~= d1);
}

/// Whether a plan contribution changes nothing: none, or a skip.
pub open spec fn no_change(o: Option<PlanItem>) -> bool {
    match o {
        Some(x) => x is Skip,
        None => true,
    }
}

/// In a second run, each headline of the synchronised document adds no item
/// or a skip.
pub proof fn lemma_second_run_local_item(
    doc: Seq<HeadlineView>,
    recs: Seq<RecordView>,
    opts: OptionsView,
    w: SyncWindow,
    mtime: i64,
    mtime2: i64,
    stamp: Seq<char>,
    new_ids: Seq<Seq<char>>,
    updated: Seq<i64>,
    created_at: Seq<i64>,
    k: int,
)
    requires
        clean_first_run(doc, recs, opts, w, mtime, new_ids, updated, created_at),
        0 <= k < synced_document(doc, recs, opts, w, mtime, stamp, new_ids).len(),
    ensures
        no_change(local_item(
            synced_document(doc, recs, opts, w, mtime, stamp, new_ids),
            remotely_updated(doc, recs, opts, w, mtime, new_ids, updated, created_at),
            opts,
            w,
            mtime2,
            k,
        )),
{
    let d1 = locally_updated(doc, recs, opts, w, mtime, stamp, new_ids);
    let d2 = synced_document(doc, recs, opts, w, mtime, stamp, new_ids);
    let r2 = remotely_updated(doc, recs, opts, w, mtime, new_ids, updated, created_at);
    lemma_appended_upto(doc, recs, opts, w, mtime, stamp, new_ids, recs.len() as int);
    assert(comes_from(d2, d1, doc, recs, opts, w, stamp, recs.len() as int, k));
    if in_window(d2[k], w) {
        if exists|i: int| 0 <= i < d1.len() && d2[k] == #[trigger] d1[i] {
            let i = choose|i: int| 0 <= i < d1.len() && d2[k] == #[trigger] d1[i];
            lemma_second_run_kept(doc, recs, opts, w, mtime, stamp, new_ids, updated, created_at, i);
        } else if d2[k] == parent_headline(opts.append_headline) {
        } else {
            let j = choose|j: int| 0 <= j < recs.len() && created_local(doc, recs, opts, w, j)
                && d2[k] == fresh_headline(#[trigger] recs[j], 2, opts.property, stamp);
            lemma_second_run_appended(doc, recs, opts, w, mtime, stamp, new_ids, updated, created_at, j);
        }
        lemma_unique_carrier_is_found(d2, opts.property, w, k);
        let x = identity(d2[k], opts.property).unwrap();
        lemma_first_index(r2.len() as int, lister(r2, w, x), 0);
    }
}

/// In a second run, each record adds no item, or a skip where records are
/// not appended: every record in the window is carried by a headline.
pub proof fn lemma_second_run_remote_item(
    doc: Seq<HeadlineView>,
    recs: Seq<RecordView>,
    opts: OptionsView,
    w: SyncWindow,
    mtime: i64,
    stamp: Seq<char>,
    new_ids: Seq<Seq<char>>,
    updated: Seq<i64>,
    created_at: Seq<i64>,
    j2: int,
)
    requires
        clean_first_run(doc, recs, opts, w, mtime, new_ids, updated, created_at),
        0 <= j2 < remotely_updated(doc, recs, opts, w, mtime, new_ids, updated, created_at).len(),
    ensures
        no_change(remote_item(
            synced_document(doc, recs, opts, w, mtime, stamp, new_ids),
            remotely_updated(doc, recs, opts, w, mtime, new_ids, updated, created_at),
            opts,
            w,
            j2,
        )),
{
    let d1 = locally_updated(doc, recs, opts, w, mtime, stamp, new_ids);
    let d2 = synced_document(doc, recs, opts, w, mtime, stamp, new_ids);
    let r2 = remotely_updated(doc, recs, opts, w, mtime, new_ids, updated, created_at);
    let created = created_records(doc, recs, opts, w, mtime, new_ids, created_at, doc.len() as int);
    let x = r2[j2].id;
    lemma_appended_upto(doc, recs, opts, w, mtime, stamp, new_ids, recs.len() as int);
    assert(r2.len() == recs.len() + created.len());
    if w.holds(r2[j2].start) && find_record(r2, w, x) == Some(j2) && opts.append_new {
        if j2 < recs.len() {
            lemma_updated_records_keep(doc, recs, opts, w, mtime, new_ids, updated, created_at, j2);
            lemma_find_record_after(doc, recs, opts, w, mtime, new_ids, updated, created_at, x);
            lemma_first_index(recs.len() as int, lister(recs, w, x), 0);
            assert(lister(recs, w, x)(j2));
            assert(find_record(recs, w, x) == Some(j2));
            lemma_first_index(doc.len() as int, carrier(doc, opts.property, w, x), 0);
            match find_local(doc, opts.property, w, x) {
                Some(i) => {
                    assert(carrier(doc, opts.property, w, x)(i));
                    lemma_unique_carrier_is_found(doc, opts.property, w, i);
                    lemma_after_local(doc, recs, opts, w, mtime, stamp, new_ids, i);
                    assert(d1[i] == after_local(doc, recs, opts, w, mtime, stamp, new_ids, i));
                    assert(carrier(d1, opts.property, w, x)(i));
                    assert(carried(d1, opts.property, w, x));
                },
                None => {
                    assert(created_local(doc, recs, opts, w, j2));
                },
            }
        } else {
            let c = j2 - recs.len();
            assert(r2[j2] == created[c]);
            lemma_created_records_from(doc, recs, opts, w, mtime, new_ids, created_at, doc.len() as int, c);
            let i = choose|i: int| 0 <= i < doc.len() && is_created(doc, recs, opts, w, mtime, i)
                && created[c] == #[trigger] draft_of(doc[i], new_ids[i], created_at[i]);
            lemma_after_local(doc, recs, opts, w, mtime, stamp, new_ids, i);
            assert(d1[i] == after_local(doc, recs, opts, w, mtime, stamp, new_ids, i));
            assert(carrier(d1, opts.property, w, x)(i));
            assert(carried(d1, opts.property, w, x));
        }
        assert(carried(d2, opts.property, w, x));
        let k = choose|k: int| 0 <= k < d2.len() && #[trigger] carrier(d2, opts.property, w, x)(k);
        lemma_first_index(d2.len() as int, carrier(d2, opts.property, w, x), 0);
    }
}

/// Running the synchronisation again on what a clean run left behind (its
/// document and the service's records once its mutations were applied),
/// in the same window, plans nothing but skips.
pub proof fn lemma_rerun_only_skips(
    doc: Seq<HeadlineView>,
    recs: Seq<RecordView>,
    opts: OptionsView,
    w: SyncWindow,
    mtime: i64,
    mtime2: i64,
    stamp: Seq<char>,
    new_ids: Seq<Seq<char>>,
    updated: Seq<i64>,
    created_at: Seq<i64>,
)
    requires
        clean_first_run(doc, recs, opts, w, mtime, new_ids, updated, created_at),
    ensures
        forall|k: int| 0 <= k < plan_of(
            synced_document(doc, recs, opts, w, mtime, stamp, new_ids),
            remotely_updated(doc, recs, opts, w, mtime, new_ids, updated, created_at),
            opts,
            w,
            mtime2,
        ).len() ==> #[trigger] plan_of(
            synced_document(doc, recs, opts, w, mtime, stamp, new_ids),
            remotely_updated(doc, recs, opts, w, mtime, new_ids, updated, created_at),
            opts,
            w,
            mtime2,
        )[k] is Skip,
{
    let d2 = synced_document(doc, recs, opts, w, mtime, stamp, new_ids);
    let r2 = remotely_updated(doc, recs, opts, w, mtime, new_ids, updated, created_at);
    let plan = plan_of(d2, r2, opts, w, mtime2);
    assert forall|k: int| 0 <= k < plan.len() implies #[trigger] plan[k] is Skip by {
        lemma_plan_source(d2, r2, opts, w, mtime2, k);
        if exists|i: int| 0 <= i < d2.len() && local_item(d2, r2, opts, w, mtime2, i) == Some(#[trigger] plan[k]) {
            let i = choose|i: int| 0 <= i < d2.len() && local_item(d2, r2, opts, w, mtime2, i) == Some(#[trigger] plan[k]);
            lemma_second_run_local_item(doc, recs, opts, w, mtime, mtime2, stamp, new_ids, updated, created_at, i);
        } else {
            let j = choose|j: int| 0 <= j < r2.len() && remote_item(d2, r2, opts, w, j) == Some(#[trigger] plan[k]);
            lemma_second_run_remote_item(doc, recs, opts, w, mtime, stamp, new_ids, updated, created_at, j);
        }
    }
}

} // verus!
