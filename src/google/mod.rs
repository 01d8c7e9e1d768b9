//! Google Calendar: requests, authorisation and the event model.
pub mod api;
pub mod auth;
pub mod models;

use vstd::prelude::*;
use crate::conf::GoogleCalendarConf;
use crate::error::Error;
use crate::org::Document;
use crate::session::{Action, SyncSession};
use crate::time::{SyncWindow, rfc3339_text, FIRST_STORABLE, LAST_STORABLE};

verus! {

/// Starts synchronising `doc` with the calendar of `conf`, at `now`, the
/// file having been modified at `mtime`. Fails with `Configuration` where
/// no calendar is named, or where the window or the stamp of `now` cannot
/// be formed.
pub fn sync(doc: Document, conf: &GoogleCalendarConf, now: i64, mtime: i64) -> (r: Result<(SyncSession, Action), Error>)
    ensures
        r.is_ok() == (conf.calendar@.len() > 0
            && SyncWindow::fits(now as int, conf.up_days as int, conf.down_days as int)
            && rfc3339_text(now as int).is_some()),
        conf.calendar@.len() > 0 && SyncWindow::fits(now as int, conf.up_days as int, conf.down_days as int)
            && FIRST_STORABLE <= now <= LAST_STORABLE ==> r.is_ok(),
        r matches Err(e) ==> e == Error::Configuration,
        r matches Ok((s, a)) ==> {
            &&& s.wf()
            &&& s.phase is Listing
            &&& s.doc@ == doc@
            &&& s.opts.property == conf.property
            &&& s.opts.append_new == conf.append_new
            &&& s.opts.append_headline == conf.append_headline
            &&& s.window.now == now
            &&& s.window.time_min == SyncWindow::min_of(now as int, conf.up_days as int)
            &&& s.window.time_max == SyncWindow::max_of(now as int, conf.down_days as int)
            &&& s.mtime == mtime
            &&& a == Action::List { time_min: s.window.time_min, time_max: s.window.time_max }
        },
{
    if conf.calendar.as_str().is_empty() {
        return Err(Error::Configuration);
    }
    let window = match conf.window(now) {
        Some(w) => w,
        None => return Err(Error::Configuration),
    };
    match SyncSession::start(doc, conf.options(), window, mtime) {
        Some(started) => Ok(started),
        None => Err(Error::Configuration),
    }
}

} // verus!
