//! Google Calendar's event resource, and how it maps to a remote record.
use vstd::prelude::*;
use crate::plan::RemoteRecord;
use crate::time::{format_instant, parse_instant, rfc3339_instant, rfc3339_text};

verus! {

/// What follows an all-day date to make it the RFC 3339 instant of its
/// midnight in UTC.
pub const MIDNIGHT_UTC: &'static str = "T00:00:00Z";

/// An event of a calendar.
pub struct Event {
    /// Type of the resource ("calendar#event").
    pub kind: String,
    /// Opaque identifier of the event.
    pub id: Option<String>,
    /// Whether the event is locked. Read-only.
    pub locked: bool,
    /// Whether the end time is actually unspecified.
    pub end_time_unspecified: bool,
    /// The id of the recurring event to which this instance belongs.
    pub recurring_event_id: Option<String>,
    /// The (inclusive) start time of the event.
    pub start: EventDateTime,
    /// The (exclusive) end time of the event.
    pub end: EventDateTime,
    /// Last modification time of the event, as RFC 3339 text. Read-only.
    pub updated: String,
    /// Creation time of the event, as RFC 3339 text. Read-only.
    pub created: String,
    /// Title of the event.
    pub summary: String,
    pub description: Option<String>,
    pub location: Option<String>,
    pub color_id: Option<String>,
}

/// A start or end of an event.
pub struct EventDateTime {
    /// The date, as "yyyy-mm-dd", if this is an all-day event.
    pub date: Option<String>,
    /// The IANA time zone name in which the time is specified.
    pub time_zone: Option<String>,
    /// The time, as RFC 3339 text.
    pub date_time: Option<String>,
}

/// The instant of a start or end: its time, or the midnight (UTC) that
/// begins its date.
pub open spec fn instant_of(date: Option<Seq<char>>, date_time: Option<Seq<char>>) -> Option<int> {
    match date_time {
        Some(t) => rfc3339_instant(t),
        None => match date {
            Some(d) => rfc3339_instant(d + MIDNIGHT_UTC@),
            None => None,
        },
    }
}

/// An `Option<String>` read as an `Option` of its text.
pub open spec fn text_of(o: Option<String>) -> Option<Seq<char>> {
    match o {
        Some(s) => Some(s@),
        None => None,
    }
}

/// An `Option<i64>` instant read as an `Option<int>`.
pub open spec fn instant_view(o: Option<i64>) -> Option<int> {
    match o {
        Some(t) => Some(t as int),
        None => None,
    }
}

/// A copy of an optional text.
fn copy_text(o: &Option<String>) -> (r: Option<String>)
    ensures
        text_of(r) == text_of(*o),
{
    match o {
        Some(s) => Some(s.clone()),
        None => None,
    }
}

impl EventDateTime {
    /// The instant of this start or end.
    pub fn instant(&self) -> (r: Option<i64>)
        ensures
            instant_view(r) == instant_of(text_of(self.date), text_of(self.date_time)),
    {
        match &self.date_time {
            Some(t) => parse_instant(t.as_str()),
            None => match &self.date {
                Some(d) => {
                    let mut text = d.clone();
                    text.append(MIDNIGHT_UTC);
                    parse_instant(text.as_str())
                },
                None => None,
            },
        }
    }

    /// The start or end at an instant; `None` where the instant has no
    /// RFC 3339 text.
    pub fn from_instant(secs: i64) -> (r: Option<EventDateTime>)
        ensures
            r.is_some() == rfc3339_text(secs as int).is_some(),
            r matches Some(e) ==> {
                &&& text_of(e.date_time) == rfc3339_text(secs as int)
                &&& e.date.is_none()
                &&& e.time_zone.is_none()
            },
    {
        match format_instant(secs) {
            Some(text) => Some(EventDateTime { date: None, time_zone: None, date_time: Some(text) }),
            None => None,
        }
    }
}

impl Event {
    /// The record that this event is, where it has an id, a readable start
    /// and a readable last modification. An unreadable or unspecified end
    /// leaves the record without one.
    pub fn to_record(&self) -> (r: Option<RemoteRecord>)
        ensures
            r.is_some() == (self.id.is_some() && instant_of(text_of(self.start.date), text_of(self.start.date_time)).is_some()
                && rfc3339_instant(self.updated@).is_some()),
            r matches Some(rec) ==> {
                &&& Some(rec.id@) == text_of(self.id)
                &&& rec.title@ == self.summary@
                &&& text_of(rec.description) == text_of(self.description)
                &&& Some(rec.start as int) == instant_of(text_of(self.start.date), text_of(self.start.date_time))
                &&& instant_view(rec.end) == (if self.end_time_unspecified {
                    None
                } else {
                    instant_of(text_of(self.end.date), text_of(self.end.date_time))
                })
                &&& Some(rec.updated as int) == rfc3339_instant(self.updated@)
            },
    {
        let id = match &self.id {
            Some(id) => id.clone(),
            None => return None,
        };
        let start = match self.start.instant() {
            Some(t) => t,
            None => return None,
        };
        let updated = match parse_instant(self.updated.as_str()) {
            Some(t) => t,
            None => return None,
        };
        let end = if self.end_time_unspecified {
            None
        } else {
            self.end.instant()
        };
        Some(RemoteRecord {
            id,
            title: self.summary.clone(),
            description: copy_text(&self.description),
            start,
            end,
            updated,
        })
    }

    /// The event that creates or updates a record: its id where it has one,
    /// its title, description, start and end. `None` where an instant has
    /// no RFC 3339 text.
    pub fn from_record(rec: &RemoteRecord) -> (r: Option<Event>)
        ensures
            r.is_some() == (rfc3339_text(rec.start as int).is_some()
                && (rec.end matches Some(e) ==> rfc3339_text(e as int).is_some())),
            r matches Some(ev) ==> {
                &&& (if rec.id@.len() == 0 { ev.id.is_none() } else { text_of(ev.id) == Some(rec.id@) })
                &&& ev.summary@ == rec.title@
                &&& text_of(ev.description) == text_of(rec.description)
                &&& text_of(ev.start.date_time) == rfc3339_text(rec.start as int)
                &&& (match rec.end {
                    Some(e) => text_of(ev.end.date_time) == rfc3339_text(e as int) && !ev.end_time_unspecified,
                    None => ev.end.date_time.is_none() && ev.end_time_unspecified,
                })
            },
    {
        let start = match EventDateTime::from_instant(rec.start) {
            Some(s) => s,
            None => return None,
        };
        let (end, unspecified) = match rec.end {
            Some(e) => match EventDateTime::from_instant(e) {
                Some(d) => (d, false),
                None => return None,
            },
            None => (EventDateTime { date: None, time_zone: None, date_time: None }, true),
        };
        let id = if rec.id.as_str().is_empty() {
            None
        } else {
            Some(rec.id.clone())
        };
        Some(Event {
            kind: String::from_str("calendar#event"),
            id,
            locked: false,
            end_time_unspecified: unspecified,
            recurring_event_id: None,
            start,
            end,
            updated: String::new(),
            created: String::new(),
            summary: rec.title.clone(),
            description: copy_text(&rec.description),
            location: None,
            color_id: None,
        })
    }
}

} // verus!
