use orgize_sync::time::SyncWindow;

#[test]
fn window_spans_days_around_now() {
    let w = SyncWindow::new(1_717_113_600, 7, 7).unwrap();
    assert_eq!(w.time_min, 1_717_113_600 - 7 * 86_400);
    assert_eq!(w.time_max, 1_717_113_600 + 7 * 86_400);
    assert!(w.contains(1_717_113_600));
}


use orgize_sync::google::models::EventDateTime;
use orgize_sync::retry::{check_unmodified, Failure, RetryState, RetryStep};
use orgize_sync::error::Error;

#[test]
fn window_that_does_not_fit_is_refused() {
    assert!(SyncWindow::new(i64::MIN + 10, 1, 0).is_none());
    assert!(SyncWindow::new(i64::MAX - 10, 0, 1).is_none());
    let w = SyncWindow::new(0, 0, 0).unwrap();
    assert_eq!((w.time_min, w.time_max), (0, 0));
}

fn at(date_time: &str) -> EventDateTime {
    EventDateTime { date: None, time_zone: None, date_time: Some(date_time.to_string()) }
}

#[test]
fn instants_read_and_write_rfc3339() {
    assert_eq!(at("2024-06-01T10:00:00Z").instant(), Some(1_717_236_000));
    assert_eq!(at("2024-06-01T12:00:00+02:00").instant(), Some(1_717_236_000));
    assert_eq!(at("next tuesday").instant(), None);
    let written = EventDateTime::from_instant(1_717_113_600).unwrap();
    assert_eq!(written.date_time, Some("2024-05-31T00:00:00+00:00".to_string()));
    assert!(EventDateTime::from_instant(i64::MAX).is_none());
}

#[test]
fn transport_failures_back_off_then_give_up() {
    let mut r = RetryState::new();
    assert_eq!(r.on_failure(Failure::Transport), RetryStep::RetryAfter(500));
    assert_eq!(r.on_failure(Failure::Status(503)), RetryStep::RetryAfter(1000));
    assert_eq!(r.on_failure(Failure::Transport), RetryStep::RetryAfter(2000));
    assert_eq!(r.on_failure(Failure::Transport), RetryStep::GiveUp(Error::Transport));
    assert_eq!(r.transport_retries, 3);
}

#[test]
fn unauthorized_refreshes_once() {
    let mut r = RetryState::new();
    assert_eq!(r.on_failure(Failure::Status(401)), RetryStep::RefreshThenRetry);
    assert_eq!(r.on_failure(Failure::Status(401)), RetryStep::GiveUp(Error::ReauthRequired));
    let mut r = RetryState::new();
    assert_eq!(r.on_failure(Failure::Status(412)), RetryStep::GiveUp(Error::ConcurrentModification));
    assert_eq!(r.on_failure(Failure::Status(403)), RetryStep::GiveUp(Error::HttpStatus(403)));
}

#[test]
fn update_goes_ahead_only_on_an_unmodified_record() {
    assert_eq!(check_unmodified(10, Some(10)), Ok(()));
    assert_eq!(check_unmodified(10, Some(11)), Err(Failure::Status(412)));
    assert_eq!(check_unmodified(10, None), Err(Failure::Status(412)));
}
