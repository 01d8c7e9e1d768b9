use orgize_sync::conf::{default_conf_path, default_env_path, GoogleCalendarConf, GoogleCalendarGlobalConf, TogglConf};
use orgize_sync::google::models::{Event, EventDateTime};
use orgize_sync::logger::{init_logger, Level, Logger};
use orgize_sync::plan::RemoteRecord;

fn event(start: EventDateTime) -> Event {
    Event {
        kind: "calendar#event".to_string(),
        id: Some("abc".to_string()),
        locked: false,
        end_time_unspecified: false,
        recurring_event_id: None,
        start,
        end: EventDateTime { date: None, time_zone: None, date_time: Some("2024-06-01T11:00:00Z".to_string()) },
        updated: "2024-05-30T08:00:00Z".to_string(),
        created: "2024-05-30T08:00:00Z".to_string(),
        summary: "Meeting".to_string(),
        description: Some("Room 4".to_string()),
        location: None,
        color_id: None,
    }
}

#[test]
fn event_becomes_a_record() {
    let ev = event(EventDateTime { date: None, time_zone: None, date_time: Some("2024-06-01T10:00:00Z".to_string()) });
    let r = ev.to_record().unwrap();
    assert_eq!(r.id, "abc");
    assert_eq!(r.title, "Meeting");
    assert_eq!(r.description, Some("Room 4".to_string()));
    assert_eq!(r.start, 1_717_236_000);
    assert_eq!(r.end, Some(1_717_239_600));
    assert_eq!(r.updated, 1_717_056_000);
}

#[test]
fn all_day_event_starts_at_midnight() {
    let ev = event(EventDateTime { date: Some("2024-06-01".to_string()), time_zone: None, date_time: None });
    assert_eq!(ev.to_record().unwrap().start, 1_717_200_000);
}

#[test]
fn event_without_id_or_start_is_no_record() {
    let mut ev = event(EventDateTime { date: None, time_zone: None, date_time: None });
    assert!(ev.to_record().is_none());
    ev.start.date_time = Some("2024-06-01T10:00:00Z".to_string());
    ev.id = None;
    assert!(ev.to_record().is_none());
}

#[test]
fn record_becomes_an_event() {
    let r = RemoteRecord {
        id: String::new(),
        title: "Dentist".to_string(),
        description: None,
        start: 1_717_236_000,
        end: None,
        updated: 0,
    };
    let ev = Event::from_record(&r).unwrap();
    assert_eq!(ev.id, None);
    assert_eq!(ev.summary, "Dentist");
    assert_eq!(ev.start.date_time, Some("2024-06-01T10:00:00+00:00".to_string()));
    assert!(ev.end_time_unspecified);
    let d = EventDateTime::from_instant(0).unwrap();
    assert_eq!(d.date_time, Some("1970-01-01T00:00:00+00:00".to_string()));
}

#[test]
fn default_settings() {
    let g = GoogleCalendarConf::default();
    assert!(g.append_new);
    assert_eq!(g.append_headline, "Sync");
    assert_eq!(g.property, "EVENT_ID");
    assert_eq!((g.up_days, g.down_days), (7, 7));
    let t = TogglConf::default();
    assert_eq!((t.up_days, t.down_days), (7, 7));
    let w = t.window(86_400 * 10).unwrap();
    assert_eq!((w.time_min, w.time_max), (86_400 * 3, 86_400 * 17));
    let c = GoogleCalendarGlobalConf::new("id".to_string(), "s".to_string(), "/cache".to_string());
    assert_eq!(c.token_filename, "google-token.json");
    assert_eq!(c.redirect_uri, "http://localhost");
    assert_eq!(c.token_path(), "/cache/google-token.json");
}

#[test]
fn default_paths_are_joined() {
    assert_eq!(default_conf_path("/home/u/.config/orgize-sync"), "/home/u/.config/orgize-sync/config.json");
    assert_eq!(default_env_path("/home/u/.cache/orgize-sync/"), "/home/u/.cache/orgize-sync/.env");
}

#[test]
fn logger_tags_and_levels() {
    assert_eq!(Logger::tag(Level::Error), "ERR:");
    assert_eq!(Logger::tag(Level::Warn), "WARN:");
    assert_eq!(Logger::tag(Level::Info), "INFO:");
    assert_eq!(Logger::tag(Level::Debug), "DEBUG:");
    assert_eq!(Logger::tag(Level::Trace), "TRACE:");
    assert!(Logger.enabled(Level::Trace));
    assert_eq!(init_logger(true), Level::Trace);
    assert_eq!(log::max_level(), log::LevelFilter::Trace);
    assert_eq!(init_logger(false), Level::Info);
    assert_eq!(log::max_level(), log::LevelFilter::Info);
}
