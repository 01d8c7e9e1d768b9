//! Local mutations: what a plan item does to the document once its remote
//! side, if any, has succeeded.
use vstd::prelude::*;
use crate::org::{Document, Headline, HeadlineView, Property, LAST_SYNC, lookup, assign, set_property, last_sync_name, lemma_assign_lookup};
use crate::plan::{RemoteRecord, RecordView, local_content, remote_content, identity, last_sync_of, first_index, lemma_first_index};
use crate::time::rfc3339_instant;

verus! {

/// The headline with its identity property set to `id` and its
/// last-synchronisation property set to `stamp`.
pub open spec fn stamped(h: HeadlineView, property: Seq<char>, id: Seq<char>, stamp: Seq<char>) -> HeadlineView {
    HeadlineView { properties: assign(assign(h.properties, property, id), LAST_SYNC@, stamp), ..h }
}

/// The headline with its last-synchronisation property set to `stamp`.
pub open spec fn touched(h: HeadlineView, stamp: Seq<char>) -> HeadlineView {
    HeadlineView { properties: assign(h.properties, LAST_SYNC@, stamp), ..h }
}

/// The headline with the record's content and the synchronisation stamp.
pub open spec fn pulled(h: HeadlineView, r: RecordView, stamp: Seq<char>) -> HeadlineView {
    HeadlineView {
        title: r.title,
        body: remote_content(r).description,
        scheduled: Some(r.start),
        scheduled_end: r.end,
        properties: assign(h.properties, LAST_SYNC@, stamp),
        ..h
    }
}

/// The headline made for a record that only exists remotely.
pub open spec fn fresh_headline(r: RecordView, level: nat, property: Seq<char>, stamp: Seq<char>) -> HeadlineView {
    HeadlineView {
        level,
        title: r.title,
        body: remote_content(r).description,
        scheduled: Some(r.start),
        scheduled_end: r.end,
        properties: seq![(property, r.id), (LAST_SYNC@, stamp)],
    }
}

/// A top-level headline with the given title and nothing else.
pub open spec fn parent_headline(title: Seq<char>) -> HeadlineView {
    HeadlineView {
        level: 1,
        title,
        body: Seq::empty(),
        scheduled: None,
        scheduled_end: None,
        properties: Seq::empty(),
    }
}

/// Whether headline `i` is a top-level headline titled `title`.
pub open spec fn titled(doc: Seq<HeadlineView>, title: Seq<char>) -> spec_fn(int) -> bool {
    |i: int| doc[i].level == 1 && doc[i].title == title
}

/// The first top-level headline titled `title`.
pub open spec fn parent_index(doc: Seq<HeadlineView>, title: Seq<char>) -> Option<int> {
    first_index(doc.len() as int, titled(doc, title), 0)
}

/// The document with a top-level headline titled `title` added at the end
/// when it has none.
pub open spec fn with_parent(doc: Seq<HeadlineView>, title: Seq<char>) -> Seq<HeadlineView> {
    if parent_index(doc, title).is_some() {
        doc
    } else {
        doc.push(parent_headline(title))
    }
}

/// Whether headline `k` closes the subtree of headline `p`.
pub open spec fn closes(doc: Seq<HeadlineView>, p: int) -> spec_fn(int) -> bool {
    |k: int| doc[k].level <= doc[p].level
}

/// The index just past the subtree of headline `p`.
pub open spec fn subtree_end(doc: Seq<HeadlineView>, p: int) -> int {
    match first_index(doc.len() as int, closes(doc, p), p + 1) {
        Some(k) => k,
        None => doc.len() as int,
    }
}

/// The document after a record that only exists remotely was appended as a
/// new last child of the top-level headline titled `title`.
pub open spec fn appended(doc: Seq<HeadlineView>, title: Seq<char>, r: RecordView, property: Seq<char>, stamp: Seq<char>) -> Seq<HeadlineView> {
    let base = with_parent(doc, title);
    let p = parent_index(base, title).unwrap();
    base.insert(subtree_end(base, p), fresh_headline(r, 2, property, stamp))
}

/// After a remote record was created for headline `i`, records its id and
/// the synchronisation stamp in the headline.
pub fn record_created(doc: &mut Document, i: usize, property: &String, id: String, stamp: &String)
    requires
        i < old(doc).headlines.len(),
    ensures
        final(doc)@ == old(doc)@.update(i as int, stamped(old(doc)@[i as int], property@, id@, stamp@)),
{
    let ghost before = doc@;
    set_property(&mut doc.headlines[i].properties, property, id);
    set_property(&mut doc.headlines[i].properties, &last_sync_name(), stamp.clone());
    assert(doc@ =~= before.update(i as int, stamped(before[i as int], property@, id@, stamp@)));
}

/// After the remote record of headline `i` was updated, records the
/// synchronisation stamp in the headline.
pub fn record_pushed(doc: &mut Document, i: usize, stamp: &String)
    requires
        i < old(doc).headlines.len(),
    ensures
        final(doc)@ == old(doc)@.update(i as int, touched(old(doc)@[i as int], stamp@)),
{
    let ghost before = doc@;
    set_property(&mut doc.headlines[i].properties, &last_sync_name(), stamp.clone());
    assert(doc@ =~= before.update(i as int, touched(before[i as int], stamp@)));
}

/// A record's description, or the empty string.
fn description_text(r: &RemoteRecord) -> (s: String)
    ensures
        s@ == remote_content(r@).description,
{
    match &r.description {
        Some(d) => d.clone(),
        None => String::new(),
    }
}

/// Copies the record's content into headline `i` and stamps it.
pub fn pull_record(doc: &mut Document, i: usize, r: &RemoteRecord, stamp: &String)
    requires
        i < old(doc).headlines.len(),
    ensures
        final(doc)@ == old(doc)@.update(i as int, pulled(old(doc)@[i as int], r@, stamp@)),
        local_content(final(doc)@[i as int]) == remote_content(r@),
{
    let ghost before = doc@;
    let h = &mut doc.headlines[i];
    h.title = r.title.clone();
    h.body = description_text(r);
    h.scheduled = Some(r.start);
    h.scheduled_end = r.end;
    set_property(&mut h.properties, &last_sync_name(), stamp.clone());
    assert(doc@ =~= before.update(i as int, pulled(before[i as int], r@, stamp@)));
}

/// Index of the first top-level headline titled `title`.
pub fn find_parent(doc: &Document, title: &String) -> (r: Option<usize>)
    ensures
        match r {
            Some(p) => parent_index(doc@, title@) == Some(p as int),
            None => parent_index(doc@, title@).is_none(),
        },
{
    let ghost p = titled(doc@, title@);
    let mut k: usize = 0;
    while k < doc.headlines.len()
        invariant
            k <= doc.headlines.len(),
            p == titled(doc@, title@),
            forall|i: int| 0 <= i < k ==> !#[trigger] p(i),
        decreases doc.headlines.len() - k,
    {
        let hit = doc.headlines[k].level == 1 && doc.headlines[k].title == *title;
        assert(hit == p(k as int));
        if hit {
            proof {
                lemma_first_index(doc@.len() as int, p, 0);
            }
            return Some(k);
        }
        k += 1;
    }
    proof {
        lemma_first_index(doc@.len() as int, p, 0);
    }
    None
}

/// The index just past the subtree of headline `p`.
pub fn find_subtree_end(doc: &Document, p: usize) -> (e: usize)
    requires
        p < doc.headlines.len(),
    ensures
        e as int == subtree_end(doc@, p as int),
        p < e <= doc.headlines.len(),
{
    let ghost c = closes(doc@, p as int);
    let level = doc.headlines[p].level;
    let mut k: usize = p + 1;
    while k < doc.headlines.len()
        invariant
            p < k <= doc.headlines.len(),
            level == doc@[p as int].level,
            c == closes(doc@, p as int),
            forall|i: int| p + 1 <= i < k ==> !#[trigger] c(i),
        decreases doc.headlines.len() - k,
    {
        let hit = doc.headlines[k].level <= level;
        assert(hit == c(k as int));
        if hit {
            proof {
                lemma_first_index(doc@.len() as int, c, p + 1);
            }
            return k;
        }
        k += 1;
    }
    proof {
        lemma_first_index(doc@.len() as int, c, p + 1);
    }
    k
}

/// Appends a headline for a record that only exists remotely, as the last
/// child of the top-level headline titled `title`, which is created at the
/// end of the document when missing.
///
/// Returns whether the parent was created, and the index of the new headline.
pub fn append_record(doc: &mut Document, title: &String, r: &RemoteRecord, property: &String, stamp: &String) -> (at: (bool, usize))
    requires
        old(doc).headlines.len() < usize::MAX,
    ensures
        final(doc)@ == appended(old(doc)@, title@, r@, property@, stamp@),
        at.0 == parent_index(old(doc)@, title@).is_none(),
        at.1 == subtree_end(with_parent(old(doc)@, title@), parent_index(with_parent(old(doc)@, title@), title@).unwrap()),
{
    let ghost before = doc@;
    let found = find_parent(doc, title);
    let added = found.is_none();
    let p = match found {
        Some(p) => {
            proof {
                lemma_first_index(before.len() as int, titled(before, title@), 0);
            }
            p
        },
        None => {
            let parent = Headline {
                level: 1,
                title: title.clone(),
                body: String::new(),
                scheduled: None,
                scheduled_end: None,
                properties: Vec::new(),
            };
            assert(parent@ == parent_headline(title@)) by {
                assert(parent@.properties =~= Seq::<(Seq<char>, Seq<char>)>::empty());
                assert(parent@.body =~= Seq::<char>::empty());
            }
            doc.headlines.push(parent);
            assert(doc@ =~= before.push(parent_headline(title@)));
            let last = doc.headlines.len() - 1;
            proof {
                let base = doc@;
                lemma_first_index(before.len() as int, titled(before, title@), 0);
                lemma_first_index(base.len() as int, titled(base, title@), 0);
                assert(titled(base, title@)(last as int));
                assert forall|i: int| 0 <= i < last implies !#[trigger] titled(base, title@)(i) by {
                    assert(base[i] == before[i]);
                    assert(!titled(before, title@)(i));
                }
            }
            last
        },
    };
    assert(doc@ == with_parent(before, title@));
    assert(parent_index(doc@, title@) == Some(p as int));
    let e = find_subtree_end(doc, p);
    let mut props: Vec<Property> = Vec::new();
    props.push(Property { name: property.clone(), value: r.id.clone() });
    props.push(Property { name: last_sync_name(), value: stamp.clone() });
    let fresh = Headline {
        level: 2,
        title: r.title.clone(),
        body: description_text(r),
        scheduled: Some(r.start),
        scheduled_end: r.end,
        properties: props,
    };
    assert(fresh@ == fresh_headline(r@, 2, property@, stamp@)) by {
        assert(fresh@.properties =~= seq![(property@, r@.id), (LAST_SYNC@, stamp@)]);
    }
    let ghost base = doc@;
    doc.headlines.insert(e, fresh);
    assert(doc@ =~= base.insert(e as int, fresh_headline(r@, 2, property@, stamp@)));
    (added, e)
}

/// Once a remote record was created for a headline, the headline's identity
/// property holds the id that the service returned, and its
/// last-synchronisation property holds the stamp of this synchronisation
/// and reads back as the stamp's instant (the two properties being distinct).
pub proof fn lemma_created_remote_is_recorded(h: HeadlineView, property: Seq<char>, id: Seq<char>, stamp: Seq<char>)
    requires
        property != LAST_SYNC@,
    ensures
        identity(stamped(h, property, id, stamp), property) == Some(id),
        lookup(stamped(h, property, id, stamp).properties, LAST_SYNC@) == Some(stamp),
        last_sync_of(stamped(h, property, id, stamp)) == rfc3339_instant(stamp),
{
    let once = assign(h.properties, property, id);
    lemma_assign_lookup(h.properties, property, id, LAST_SYNC@);
    lemma_assign_lookup(once, LAST_SYNC@, stamp, property);
}

/// Appending a record adds exactly one headline that carries the record's
/// id: the result is the document (with, at most, a new parent headline that
/// has no properties) with one headline inserted, and that headline carries
/// the id in its identity property.
pub proof fn lemma_appended_record_is_one_new_headline(
    doc: Seq<HeadlineView>,
    title: Seq<char>,
    r: RecordView,
    property: Seq<char>,
    stamp: Seq<char>,
)
    ensures
        with_parent(doc, title) == doc || with_parent(doc, title) == doc.push(parent_headline(title)),
        parent_headline(title).properties.len() == 0,
        exists|pos: int|
            0 <= pos <= with_parent(doc, title).len()
            && appended(doc, title, r, property, stamp)
                == #[trigger] with_parent(doc, title).insert(pos, fresh_headline(r, 2, property, stamp)),
        identity(fresh_headline(r, 2, property, stamp), property) == Some(r.id),
        fresh_headline(r, 2, property, stamp).scheduled == Some(r.start),
{
    let base = with_parent(doc, title);
    lemma_first_index(doc.len() as int, titled(doc, title), 0);
    lemma_first_index(base.len() as int, titled(base, title), 0);
    if parent_index(doc, title).is_none() {
        assert(titled(base, title)(doc.len() as int));
    }
    let p = parent_index(base, title).unwrap();
    lemma_first_index(base.len() as int, closes(base, p), p + 1);
    let pos = subtree_end(base, p);
    assert(0 <= pos <= base.len());
    let f = fresh_headline(r, 2, property, stamp);
    assert(f.properties[0] == (property, r.id));
    assert(appended(doc, title, r, property, stamp) == base.insert(pos, f));
}

} // verus!
