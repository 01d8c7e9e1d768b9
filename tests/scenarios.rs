use orgize_sync::conf::GoogleCalendarConf;
use orgize_sync::google::sync;
use orgize_sync::org::{get_property, Document, Headline, Property};
use orgize_sync::plan::{ConflictReason, PlanItem, RemoteRecord, SkipReason, SkipTarget};
use orgize_sync::retry::Failure;
use orgize_sync::error::Error;
use orgize_sync::session::{Action, Event, Phase, SyncSession};

const NOW: i64 = 1_717_113_600; // 2024-05-31T00:00:00Z
const START: i64 = 1_717_236_000; // 2024-06-01T10:00:00Z
const END: i64 = 1_717_239_600; // 2024-06-01T11:00:00Z
const UPDATED: i64 = 1_717_056_000; // 2024-05-30T08:00:00Z
const MOVED_UPDATED: i64 = 1_717_232_400; // 2024-06-01T09:00:00Z

fn calendar_conf() -> GoogleCalendarConf {
    let mut conf = GoogleCalendarConf::default();
    conf.calendar = "primary".to_string();
    conf
}

fn meeting(title: &str, updated: i64) -> RemoteRecord {
    RemoteRecord {
        id: "abc".to_string(),
        title: title.to_string(),
        description: None,
        start: START,
        end: Some(END),
        updated,
    }
}

fn prop(doc: &Document, i: usize, name: &str) -> Option<String> {
    get_property(&doc.headlines[i].properties, &name.to_string())
}

/// Runs a session to its end, answering each call from `records`; remote
/// mutations are not expected.
fn run(doc: Document, records: Vec<RemoteRecord>, now: i64, mtime: i64) -> (SyncSession, Action) {
    let (mut s, a) = sync(doc, &calendar_conf(), now, mtime).unwrap();
    assert!(matches!(a, Action::List { .. }));
    let a = s.on_event(Event::Listed(records));
    (s, a)
}

fn synced_meeting() -> Document {
    let (s, a) = run(Document { headlines: vec![] }, vec![meeting("Meeting", UPDATED)], NOW, NOW);
    assert!(matches!(a, Action::Write));
    s.doc
}

#[test]
fn create_local_from_remote() {
    let (s, a) = run(Document { headlines: vec![] }, vec![meeting("Meeting", UPDATED)], NOW, NOW);
    assert!(matches!(a, Action::Write));
    assert_eq!(s.plan, vec![PlanItem::CreateLocal { remote: 0 }]);
    assert_eq!(s.phase, Phase::Done);
    assert_eq!(s.report.created_local, 1);
    let doc = &s.doc;
    assert_eq!(doc.headlines.len(), 2);
    assert_eq!(doc.headlines[0].title, "Sync");
    assert_eq!(doc.headlines[0].level, 1);
    assert_eq!(doc.headlines[1].title, "Meeting");
    assert_eq!(doc.headlines[1].level, 2);
    assert_eq!(doc.headlines[1].scheduled, Some(START));
    assert_eq!(doc.headlines[1].scheduled_end, Some(END));
    assert_eq!(prop(doc, 1, "EVENT_ID"), Some("abc".to_string()));
    assert_eq!(prop(doc, 1, "LAST_SYNC"), Some("2024-05-31T00:00:00+00:00".to_string()));
}

#[test]
fn idempotent_rerun() {
    let doc = synced_meeting();
    let (s, a) = run(doc, vec![meeting("Meeting", UPDATED)], NOW, NOW);
    assert!(matches!(a, Action::Finish));
    assert_eq!(
        s.plan,
        vec![PlanItem::Skip { target: SkipTarget::Pair(1, 0), reason: SkipReason::UpToDate }]
    );
    assert_eq!(s.report.skipped, 1);
    assert_eq!(s.report.conflicts.len(), 0);
    assert_eq!(s.local_changes, 0);
}

#[test]
fn remote_update_wins() {
    let doc = synced_meeting();
    let (s, a) = run(doc, vec![meeting("Meeting (moved)", MOVED_UPDATED)], NOW, NOW);
    assert_eq!(s.plan, vec![PlanItem::UpdateLocal { local: 1, remote: 0 }]);
    assert!(matches!(a, Action::Write));
    assert_eq!(s.doc.headlines[1].title, "Meeting (moved)");
    assert_eq!(s.report.updated_local, 1);
}

#[test]
fn both_sides_changed_is_a_conflict() {
    let mut doc = synced_meeting();
    doc.headlines[1].title = "Sync meeting".to_string();
    let edited = NOW + 3600;
    let (s, a) = run(doc, vec![meeting("Meeting (moved)", MOVED_UPDATED)], NOW, edited);
    assert_eq!(
        s.plan,
        vec![PlanItem::FlagConflict { local: 1, remote: 0, cause: ConflictReason::BothModified }]
    );
    assert!(matches!(a, Action::Finish));
    assert_eq!(s.doc.headlines[1].title, "Sync meeting");
    assert_eq!(s.report.conflicts.len(), 1);
    assert_eq!(s.report.conflicts[0].remote_id, "abc");
}

#[test]
fn out_of_window_record_is_ignored() {
    let far = RemoteRecord {
        id: "zzz".to_string(),
        title: "New year".to_string(),
        description: None,
        start: 1_735_689_600, // 2025-01-01T00:00:00Z
        end: None,
        updated: UPDATED,
    };
    let (s, a) = run(Document { headlines: vec![] }, vec![far], NOW, NOW);
    assert!(s.plan.is_empty());
    assert!(matches!(a, Action::Finish));
    assert_eq!(s.doc.headlines.len(), 0);
}

#[test]
fn new_local_headline_is_pushed_and_gets_its_id() {
    let doc = Document {
        headlines: vec![Headline {
            level: 1,
            title: "Dentist".to_string(),
            body: String::new(),
            scheduled: Some(START),
            scheduled_end: None,
            properties: vec![],
        }],
    };
    let (mut s, a) = run(doc, vec![], NOW, NOW);
    assert_eq!(s.plan, vec![PlanItem::CreateRemote { local: 0 }]);
    match a {
        Action::CreateRemote { record } => {
            assert_eq!(record.title, "Dentist");
            assert_eq!(record.start, START);
            assert!(record.id.is_empty());
        }
        _ => panic!("expected a remote create"),
    }
    let a = s.on_event(Event::Created { id: "new-1".to_string() });
    assert!(matches!(a, Action::Write));
    assert_eq!(prop(&s.doc, 0, "EVENT_ID"), Some("new-1".to_string()));
    assert_eq!(prop(&s.doc, 0, "LAST_SYNC"), Some("2024-05-31T00:00:00+00:00".to_string()));
    assert_eq!(s.report.created_remote, 1);
}

#[test]
fn local_edit_is_pushed_with_the_observed_guard() {
    let mut doc = synced_meeting();
    doc.headlines[1].title = "Planning".to_string();
    let (mut s, a) = run(doc, vec![meeting("Meeting", UPDATED)], NOW + 7200, NOW + 3600);
    assert_eq!(s.plan, vec![PlanItem::UpdateRemote { local: 1, remote: 0 }]);
    match a {
        Action::UpdateRemote { record } => {
            assert_eq!(record.id, "abc");
            assert_eq!(record.title, "Planning");
            assert_eq!(record.updated, UPDATED);
        }
        _ => panic!("expected a remote update"),
    }
    let a = s.on_event(Event::Updated);
    assert!(matches!(a, Action::Write));
    assert_eq!(s.report.updated_remote, 1);
    assert_eq!(prop(&s.doc, 1, "LAST_SYNC"), Some("2024-05-31T02:00:00+00:00".to_string()));
}

#[test]
fn concurrent_modification_is_demoted_to_conflict() {
    let mut doc = synced_meeting();
    doc.headlines[1].title = "Planning".to_string();
    let (mut s, _) = run(doc, vec![meeting("Meeting", UPDATED)], NOW, NOW + 3600);
    let a = s.on_event(Event::Failed(Failure::Status(412)));
    assert!(matches!(a, Action::Finish));
    assert_eq!(s.report.conflicts.len(), 1);
    assert_eq!(s.report.conflicts[0].cause, ConflictReason::RemoteChanged);
    assert_eq!(s.report.error, None);
}

#[test]
fn listing_given_up_after_three_retries_leaves_the_file_alone() {
    let doc = synced_meeting();
    let before: Vec<String> = doc.headlines.iter().map(|h| h.title.clone()).collect();
    let (mut s, _) = sync(doc, &calendar_conf(), NOW, NOW).unwrap();
    let mut waits = vec![];
    loop {
        match s.on_event(Event::Failed(Failure::Transport)) {
            Action::Wait { millis } => {
                waits.push(millis);
                assert!(matches!(s.on_event(Event::Resumed), Action::List { .. }));
            }
            Action::Finish => break,
            _ => panic!("unexpected action while listing"),
        }
    }
    assert_eq!(waits, vec![500, 1000, 2000]);
    assert_eq!(s.phase, Phase::Aborted);
    assert_eq!(s.report.error, Some(Error::Transport));
    let after: Vec<String> = s.doc.headlines.iter().map(|h| h.title.clone()).collect();
    assert_eq!(before, after);
    assert!(matches!(s.on_event(Event::Resumed), Action::Finish));
}

#[test]
fn second_unauthorized_listing_needs_reauthorisation() {
    let (mut s, _) = sync(Document { headlines: vec![] }, &calendar_conf(), NOW, NOW).unwrap();
    assert!(matches!(s.on_event(Event::Failed(Failure::Status(401))), Action::RefreshToken));
    assert!(matches!(s.on_event(Event::Resumed), Action::List { .. }));
    assert!(matches!(s.on_event(Event::Failed(Failure::Status(401))), Action::Finish));
    assert_eq!(s.report.error, Some(Error::ReauthRequired));
}

#[test]
fn client_error_is_final() {
    let (mut s, _) = sync(Document { headlines: vec![] }, &calendar_conf(), NOW, NOW).unwrap();
    assert!(matches!(s.on_event(Event::Failed(Failure::Status(404))), Action::Finish));
    assert_eq!(s.report.error, Some(Error::HttpStatus(404)));
}

#[test]
fn missing_calendar_is_a_configuration_error() {
    let r = sync(Document { headlines: vec![] }, &GoogleCalendarConf::default(), NOW, NOW);
    assert!(matches!(r, Err(Error::Configuration)));
}

#[test]
fn headline_without_remote_record_is_kept() {
    let mut doc = synced_meeting();
    doc.headlines[1].properties = vec![Property { name: "EVENT_ID".to_string(), value: "gone".to_string() }];
    let (s, a) = run(doc, vec![], NOW, NOW);
    assert_eq!(
        s.plan,
        vec![PlanItem::Skip { target: SkipTarget::Local(1), reason: SkipReason::RemoteDeleted }]
    );
    assert!(matches!(a, Action::Finish));
    assert_eq!(s.doc.headlines.len(), 2);
}

#[test]
fn answer_that_does_not_fit_the_call_ends_the_session() {
    let (mut s, _) = sync(Document { headlines: vec![] }, &calendar_conf(), NOW, NOW).unwrap();
    assert!(matches!(s.on_event(Event::Created { id: "x".to_string() }), Action::Finish));
    assert_eq!(s.phase, Phase::Aborted);
    assert_eq!(s.report.error, Some(Error::UnexpectedResponse));
}

#[test]
fn listing_out_of_start_order_is_refused() {
    let later = RemoteRecord { id: "b".to_string(), start: START + 3600, ..meeting("Later", UPDATED) };
    let (mut s, _) = sync(Document { headlines: vec![] }, &calendar_conf(), NOW, NOW).unwrap();
    let a = s.on_event(Event::Listed(vec![later, meeting("Meeting", UPDATED)]));
    assert!(matches!(a, Action::Finish));
    assert_eq!(s.report.error, Some(Error::UnexpectedResponse));
    assert!(s.doc.headlines.is_empty());
}
