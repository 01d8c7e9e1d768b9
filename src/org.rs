//! The Org document as the engine sees it: headlines in depth-first order,
//! each with a title, a body, an optional scheduled time range and a
//! property drawer.
use vstd::prelude::*;

verus! {

/// Name of the property that records when a headline was last synchronised.
pub const LAST_SYNC: &'static str = "LAST_SYNC";

/// One `:NAME: value` line of a property drawer.
pub struct Property {
    pub name: String,
    pub value: String,
}

/// Spec view of a property drawer: (name, value) pairs in drawer order.
pub type Drawer = Seq<(Seq<char>, Seq<char>)>;

impl View for Property {
    type V = (Seq<char>, Seq<char>);

    open spec fn view(&self) -> (Seq<char>, Seq<char>) {
        (self.name@, self.value@)
    }
}

/// A headline of the document.
pub struct Headline {
    /// Depth in the outline; top-level headlines have level 1.
    pub level: usize,
    pub title: String,
    pub body: String,
    /// Start of the scheduled timestamp, in seconds since the Unix epoch.
    pub scheduled: Option<i64>,
    /// End of the scheduled time range, when the timestamp has one.
    pub scheduled_end: Option<i64>,
    pub properties: Vec<Property>,
}

/// Spec view of a headline.
pub struct HeadlineView {
    pub level: nat,
    pub title: Seq<char>,
    pub body: Seq<char>,
    pub scheduled: Option<i64>,
    pub scheduled_end: Option<i64>,
    pub properties: Drawer,
}

/// Spec view of a property list.
pub open spec fn drawer_of(props: Seq<Property>) -> Drawer {
    props.map_values(|p: Property| p@)
}

impl View for Headline {
    type V = HeadlineView;

    open spec fn view(&self) -> HeadlineView {
        HeadlineView {
            level: self.level as nat,
            title: self.title@,
            body: self.body@,
            scheduled: self.scheduled,
            scheduled_end: self.scheduled_end,
            properties: drawer_of(self.properties@),
        }
    }
}

/// A whole document: its headlines in depth-first order.
pub struct Document {
    pub headlines: Vec<Headline>,
}

impl View for Document {
    type V = Seq<HeadlineView>;

    open spec fn view(&self) -> Seq<HeadlineView> {
        self.headlines@.map_values(|h: Headline| h@)
    }
}

/// Value of the first property named `name`, if any.
pub open spec fn lookup(props: Drawer, name: Seq<char>) -> Option<Seq<char>>
    decreases props.len(),
{
    if props.len() == 0 {
        None
    } else if props[0].0 == name {
        Some(props[0].1)
    } else {
        lookup(props.drop_first(), name)
    }
}

/// The drawer with the first property named `name` set to `value`, or with
/// the property added at the end when there is none.
pub open spec fn assign(props: Drawer, name: Seq<char>, value: Seq<char>) -> Drawer
    decreases props.len(),
{
    if props.len() == 0 {
        seq![(name, value)]
    } else if props[0].0 == name {
        props.update(0, (name, value))
    } else {
        seq![props[0]] + assign(props.drop_first(), name, value)
    }
}

/// After an assignment, the property reads back the assigned value and every
/// other property reads as before.
pub proof fn lemma_assign_lookup(props: Drawer, name: Seq<char>, value: Seq<char>, other: Seq<char>)
    ensures
        lookup(assign(props, name, value), name) == Some(value),
        other != name ==> lookup(assign(props, name, value), other) == lookup(props, other),
    decreases props.len(),
{
    let a = assign(props, name, value);
    if props.len() == 0 {
        assert(a.drop_first() =~= Seq::<(Seq<char>, Seq<char>)>::empty());
        assert(lookup(a.drop_first(), other) == None::<Seq<char>>);
    } else if props[0].0 == name {
        assert(a.drop_first() =~= props.drop_first());
        assert(a[0].0 == name);
        if other != name {
            assert(lookup(a, other) == lookup(a.drop_first(), other));
            assert(lookup(props, other) == lookup(props.drop_first(), other));
        }
    } else {
        assert(a.drop_first() =~= assign(props.drop_first(), name, value));
        assert(a[0] == props[0]);
        lemma_assign_lookup(props.drop_first(), name, value, other);
    }
}

/// Looking up `name` in the suffix of `props` that starts at `k`, when no
/// earlier property has that name, is looking it up in `props`.
pub proof fn lemma_lookup_suffix(props: Drawer, name: Seq<char>, k: int)
    requires
        0 <= k <= props.len(),
        forall|i: int| 0 <= i < k ==> #[trigger] props[i].0 != name,
    ensures
        lookup(props.subrange(k, props.len() as int), name) == lookup(props, name),
    decreases k,
{
    if k > 0 {
        let rest = props.drop_first();
        assert forall|i: int| 0 <= i < k - 1 implies #[trigger] rest[i].0 != name by {
            assert(rest[i] == props[i + 1]);
        }
        lemma_lookup_suffix(rest, name, k - 1);
        assert(rest.subrange(k - 1, rest.len() as int) =~= props.subrange(k, props.len() as int));
    } else {
        assert(props.subrange(0, props.len() as int) =~= props);
    }
}

/// Assigning where the first property named `name` stands at `k` (or where
/// none does, `k` being the length) replaces that entry (or appends one).
pub proof fn lemma_assign_at(props: Drawer, name: Seq<char>, value: Seq<char>, k: int)
    requires
        0 <= k <= props.len(),
        forall|i: int| 0 <= i < k ==> #[trigger] props[i].0 != name,
        k < props.len() ==> props[k].0 == name,
    ensures
        assign(props, name, value) == (if k < props.len() {
            props.update(k, (name, value))
        } else {
            props.push((name, value))
        }),
    decreases k,
{
    if k == 0 {
        if props.len() == 0 {
            assert(seq![(name, value)] =~= props.push((name, value)));
        }
    } else {
        let rest = props.drop_first();
        assert forall|i: int| 0 <= i < k - 1 implies #[trigger] rest[i].0 != name by {
            assert(rest[i] == props[i + 1]);
        }
        lemma_assign_at(rest, name, value, k - 1);
        assert(props[0].0 != name);
        if k < props.len() {
            assert(seq![props[0]] + rest.update(k - 1, (name, value)) =~= props.update(k, (name, value)));
        } else {
            assert(seq![props[0]] + rest.push((name, value)) =~= props.push((name, value)));
        }
    }
}

/// Sets the first property named `name` to `value`, adding it at the end of
/// the drawer when there is none.
pub fn set_property(props: &mut Vec<Property>, name: &String, value: String)
    ensures
        drawer_of(final(props)@) == assign(drawer_of(old(props)@), name@, value@),
{
    let ghost d = drawer_of(props@);
    let mut k: usize = 0;
    while k < props.len()
        invariant
            k <= props.len(),
            props@ == old(props)@,
            d == drawer_of(props@),
            forall|i: int| 0 <= i < k ==> #[trigger] d[i].0 != name@,
        decreases props.len() - k,
    {
        if props[k].name == *name {
            proof {
                lemma_assign_at(d, name@, value@, k as int);
            }
            props.set(k, Property { name: name.clone(), value });
            assert(drawer_of(props@) =~= d.update(k as int, (name@, value@)));
            return;
        }
        k += 1;
    }
    proof {
        lemma_assign_at(d, name@, value@, k as int);
    }
    props.push(Property { name: name.clone(), value });
    assert(drawer_of(props@) =~= d.push((name@, value@)));
}

/// The value of the first property named `name`.
pub fn get_property(props: &Vec<Property>, name: &String) -> (r: Option<String>)
    ensures
        match r {
            Some(v) => lookup(drawer_of(props@), name@) == Some(v@),
            None => lookup(drawer_of(props@), name@).is_none(),
        },
{
    let ghost d = drawer_of(props@);
    let mut k: usize = 0;
    while k < props.len()
        invariant
            k <= props.len(),
            d == drawer_of(props@),
            forall|i: int| 0 <= i < k ==> #[trigger] d[i].0 != name@,
        decreases props.len() - k,
    {
        if props[k].name == *name {
            proof {
                lemma_lookup_suffix(d, name@, k as int);
                let s = d.subrange(k as int, d.len() as int);
                assert(s[0] == d[k as int]);
            }
            return Some(props[k].value.clone());
        }
        k += 1;
    }
    proof {
        lemma_lookup_suffix(d, name@, k as int);
        assert(d.subrange(k as int, d.len() as int).len() == 0);
    }
    None
}

/// For each headline of a document that had `read` headlines before the
/// given insertions (each: whether a parent was first added at the end, and
/// where the new headline went), the index of the headline it was when read,
/// or `None` for an inserted one; `None` overall where an insertion falls
/// outside the document.
pub open spec fn origins_after(read: nat, ins: Seq<(bool, usize)>) -> Option<Seq<Option<usize>>>
    decreases ins.len(),
{
    if ins.len() == 0 {
        Some(Seq::new(read, |i: int| Some(i as usize)))
    } else {
        match origins_after(read, ins.drop_last()) {
            None => None,
            Some(o) => {
                let grown = if ins.last().0 {
                    o.push(None)
                } else {
                    o
                };
                if ins.last().1 <= grown.len() {
                    Some(grown.insert(ins.last().1 as int, None))
                } else {
                    None
                }
            },
        }
    }
}

/// Where each headline of a document came from, after insertions into a
/// document of `read` headlines.
pub fn insertion_origins(read: usize, ins: &Vec<(bool, usize)>) -> (r: Option<Vec<Option<usize>>>)
    ensures
        match r {
            Some(v) => origins_after(read as nat, ins@) == Some(v@),
            None => origins_after(read as nat, ins@).is_none(),
        },
{
    let mut v: Vec<Option<usize>> = Vec::new();
    let mut i: usize = 0;
    while i < read
        invariant
            i <= read,
            v@ == Seq::new(i as nat, |k: int| Some(k as usize)),
        decreases read - i,
    {
        v.push(Some(i));
        assert(v@ =~= Seq::new((i + 1) as nat, |k: int| Some(k as usize)));
        i += 1;
    }
    assert(ins@.subrange(0, 0) =~= Seq::<(bool, usize)>::empty());
    let mut k: usize = 0;
    while k < ins.len()
        invariant
            k <= ins.len(),
            origins_after(read as nat, ins@.subrange(0, k as int)) == Some(v@),
        decreases ins.len() - k,
    {
        let (parent, at) = ins[k];
        assert(ins@.subrange(0, k + 1).drop_last() =~= ins@.subrange(0, k as int));
        assert(ins@.subrange(0, k + 1).last() == ins@[k as int]);
        if parent {
            v.push(None);
        }
        if at > v.len() {
            proof {
                lemma_origins_after_failed(read as nat, ins@, k as int);
            }
            return None;
        }
        v.insert(at, None);
        k += 1;
    }
    assert(ins@.subrange(0, ins@.len() as int) =~= ins@);
    Some(v)
}

/// Once an insertion falls outside the document, no origins follow.
proof fn lemma_origins_after_failed(read: nat, ins: Seq<(bool, usize)>, k: int)
    requires
        0 <= k < ins.len(),
        origins_after(read, ins.subrange(0, k + 1)).is_none(),
    ensures
        origins_after(read, ins).is_none(),
    decreases ins.len() - k,
{
    if k + 1 < ins.len() {
        let next = ins.subrange(0, k + 2);
        assert(next.drop_last() =~= ins.subrange(0, k + 1));
        lemma_origins_after_failed(read, ins, k + 1);
    } else {
        assert(ins.subrange(0, k + 1) =~= ins);
    }
}

/// The name of the last-synchronisation property, as a `String`.
pub fn last_sync_name() -> (r: String)
    ensures
        r@ == LAST_SYNC@,
{
    String::from_str(LAST_SYNC)
}

} // verus!
