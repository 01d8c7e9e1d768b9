use orgize_sync::apply::{append_record, record_created};
use orgize_sync::org::{get_property, insertion_origins, set_property, Document, Headline, Property};
use orgize_sync::plan::{
    decide, plan_sync, ConflictReason, Decision, PlanItem, RemoteRecord, SkipReason, SkipTarget, SyncOptions,
};
use orgize_sync::time::SyncWindow;

const NOW: i64 = 1_717_113_600;
const START: i64 = 1_717_236_000;

fn opts(append_new: bool) -> SyncOptions {
    SyncOptions { property: "EVENT_ID".to_string(), append_new, append_headline: "Sync".to_string() }
}

fn headline(level: usize, title: &str, scheduled: Option<i64>, id: Option<&str>) -> Headline {
    let mut properties = vec![];
    if let Some(id) = id {
        properties.push(Property { name: "EVENT_ID".to_string(), value: id.to_string() });
        properties.push(Property { name: "LAST_SYNC".to_string(), value: "2024-05-31T00:00:00+00:00".to_string() });
    }
    Headline { level, title: title.to_string(), body: String::new(), scheduled, scheduled_end: None, properties }
}

fn record(id: &str, title: &str, start: i64, updated: i64) -> RemoteRecord {
    RemoteRecord { id: id.to_string(), title: title.to_string(), description: None, start, end: None, updated }
}

fn window() -> SyncWindow {
    SyncWindow::new(NOW, 7, 7).unwrap()
}

#[test]
fn create_and_update_remote_never_share_a_record() {
    let doc = Document {
        headlines: vec![
            headline(1, "New", Some(START), None),
            headline(1, "Edited", Some(START), Some("abc")),
        ],
    };
    let recs = vec![record("abc", "Old title", START, NOW - 10)];
    let plan = plan_sync(&doc, &recs, &opts(true), &window(), NOW + 60);
    assert_eq!(
        plan,
        vec![PlanItem::CreateRemote { local: 0 }, PlanItem::UpdateRemote { local: 1, remote: 0 }]
    );
    assert_eq!(get_property(&doc.headlines[0].properties, &"EVENT_ID".to_string()), None);
}

#[test]
fn unchanged_equal_pair_is_skipped() {
    let h = headline(1, "Meeting", Some(START), Some("abc"));
    let r = record("abc", "Meeting", START, NOW - 10);
    assert_eq!(decide(&h, &r, Some(NOW), NOW), Decision::Skip);
    assert_eq!(decide(&h, &r, None, NOW + 10), Decision::Skip);
}

#[test]
fn decisions_follow_what_changed() {
    let h = headline(1, "Mine", Some(START), Some("abc"));
    let r = record("abc", "Theirs", START, NOW + 5);
    assert_eq!(decide(&h, &r, Some(NOW), NOW), Decision::UpdateLocal);
    let r = record("abc", "Theirs", START, NOW - 5);
    assert_eq!(decide(&h, &r, Some(NOW), NOW + 5), Decision::UpdateRemote);
    assert_eq!(decide(&h, &r, Some(NOW), NOW), Decision::Conflict(ConflictReason::Diverged));
    assert_eq!(decide(&h, &r, None, NOW), Decision::Conflict(ConflictReason::BothModified));
}

#[test]
fn repeated_identity_and_disabled_append_are_skipped() {
    let doc = Document {
        headlines: vec![
            headline(1, "A", Some(START), Some("abc")),
            headline(1, "A again", Some(START), Some("abc")),
            headline(1, "Unscheduled", None, None),
        ],
    };
    let recs = vec![record("abc", "A", START, NOW - 10), record("xyz", "Other", START, NOW - 10)];
    let plan = plan_sync(&doc, &recs, &opts(false), &window(), NOW);
    assert_eq!(
        plan,
        vec![
            PlanItem::Skip { target: SkipTarget::Pair(0, 0), reason: SkipReason::UpToDate },
            PlanItem::Skip { target: SkipTarget::Local(1), reason: SkipReason::DuplicateIdentity },
            PlanItem::Skip { target: SkipTarget::Remote(1), reason: SkipReason::NotAppending },
        ]
    );
}

#[test]
fn created_remote_id_is_recorded() {
    let mut doc = Document { headlines: vec![headline(1, "New", Some(START), None)] };
    record_created(&mut doc, 0, &"EVENT_ID".to_string(), "id-7".to_string(), &"2024-05-31T00:00:00+00:00".to_string());
    let props = &doc.headlines[0].properties;
    assert_eq!(get_property(props, &"EVENT_ID".to_string()), Some("id-7".to_string()));
    assert_eq!(get_property(props, &"LAST_SYNC".to_string()), Some("2024-05-31T00:00:00+00:00".to_string()));
}

#[test]
fn appended_record_goes_last_under_existing_parent() {
    let mut doc = Document {
        headlines: vec![
            headline(1, "Sync", None, None),
            headline(2, "Earlier", Some(START), Some("e")),
            headline(3, "Note", None, None),
            headline(1, "Other", None, None),
        ],
    };
    append_record(&mut doc, &"Sync".to_string(), &record("n", "Later", START, 0), &"EVENT_ID".to_string(), &"t".to_string());
    let titles: Vec<&str> = doc.headlines.iter().map(|h| h.title.as_str()).collect();
    assert_eq!(titles, vec!["Sync", "Earlier", "Note", "Later", "Other"]);
    assert_eq!(doc.headlines[3].level, 2);
    let ids: Vec<Option<String>> =
        doc.headlines.iter().map(|h| get_property(&h.properties, &"EVENT_ID".to_string())).collect();
    assert_eq!(ids.iter().filter(|i| i.as_deref() == Some("n")).count(), 1);
}

#[test]
fn property_is_replaced_or_added() {
    let mut props = vec![Property { name: "A".to_string(), value: "1".to_string() }];
    set_property(&mut props, &"A".to_string(), "2".to_string());
    set_property(&mut props, &"B".to_string(), "3".to_string());
    assert_eq!(props.len(), 2);
    assert_eq!(get_property(&props, &"A".to_string()), Some("2".to_string()));
    assert_eq!(get_property(&props, &"B".to_string()), Some("3".to_string()));
}

#[test]
fn inserted_headlines_have_no_origin() {
    let origins = insertion_origins(3, &vec![(false, 1), (true, 5)]).unwrap();
    assert_eq!(origins, vec![Some(0), None, Some(1), Some(2), None, None]);
    assert!(insertion_origins(1, &vec![(false, 3)]).is_none());
}
