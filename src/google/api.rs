//! Requests to Google's token and calendar endpoints, as text.
use vstd::prelude::*;
use crate::conf::GoogleCalendarGlobalConf;
use crate::google::models::Event;
use crate::time::{format_instant, rfc3339_text, FIRST_STORABLE, LAST_STORABLE};

verus! {

/// The OAuth token endpoint; requests are form-encoded POSTs.
pub const TOKEN_ENDPOINT: &'static str = "https://www.googleapis.com/oauth2/v4/token";

/// Prefix of a calendar's events endpoint; the calendar id follows.
pub const CALENDARS_ENDPOINT: &'static str = "https://www.googleapis.com/calendar/v3/calendars/";

/// Answer of the token endpoint to an authorisation code.
pub struct ConfirmCodeResponse {
    pub access_token: String,
    /// Lifetime of the access token, in seconds.
    pub expires_in: i64,
    pub refresh_token: String,
}

/// Answer of the token endpoint to a refresh token.
pub struct RefreshTokenResponse {
    pub access_token: String,
    /// Lifetime of the access token, in seconds.
    pub expires_in: i64,
    /// A replacement refresh token, when the endpoint issues one.
    pub refresh_token: Option<String>,
}

/// One page of a calendar's events.
pub struct ListEventResponse {
    pub updated: String,
    pub items: Vec<Event>,
}

/// The form body that exchanges an authorisation code for tokens.
pub open spec fn confirm_code_form(code: Seq<char>, client_id: Seq<char>, client_secret: Seq<char>, redirect_uri: Seq<char>) -> Seq<char> {
    "code="@ + code + "&client_id="@ + client_id + "&client_secret="@ + client_secret + "&redirect_uri="@ + redirect_uri
        + "&grant_type=authorization_code"@
}

/// The form body that exchanges a refresh token for an access token.
pub open spec fn refresh_token_form(refresh_token: Seq<char>, client_id: Seq<char>, client_secret: Seq<char>) -> Seq<char> {
    "client_id="@ + client_id + "&client_secret="@ + client_secret + "&refresh_token="@ + refresh_token
        + "&grant_type=refresh_token"@
}

/// The events of `calendar` between two RFC 3339 instants, ordered by start,
/// optionally only those modified since a third.
pub open spec fn list_events_query(calendar: Seq<char>, time_min: Seq<char>, time_max: Seq<char>, updated_min: Option<Seq<char>>) -> Seq<char> {
    let base = CALENDARS_ENDPOINT@ + calendar + "/events?orderBy=startTime&timeMin="@ + time_min + "&timeMax="@ + time_max;
    match updated_min {
        Some(u) => base + "&updatedMin="@ + u,
        None => base,
    }
}

/// The form body that exchanges an authorisation code for tokens.
pub fn confirm_code(code: &str, conf: &GoogleCalendarGlobalConf) -> (r: String)
    ensures
        r@ == confirm_code_form(code@, conf.client_id@, conf.client_secret@, conf.redirect_uri@),
{
    let mut body = String::from_str("code=");
    body.append(code);
    body.append("&client_id=");
    body.append(conf.client_id.as_str());
    body.append("&client_secret=");
    body.append(conf.client_secret.as_str());
    body.append("&redirect_uri=");
    body.append(conf.redirect_uri.as_str());
    body.append("&grant_type=authorization_code");
    assert(body@ =~= confirm_code_form(code@, conf.client_id@, conf.client_secret@, conf.redirect_uri@));
    body
}

/// The form body that exchanges a refresh token for an access token.
pub fn refresh_token(token: &str, conf: &GoogleCalendarGlobalConf) -> (r: String)
    ensures
        r@ == refresh_token_form(token@, conf.client_id@, conf.client_secret@),
{
    let mut body = String::from_str("client_id=");
    body.append(conf.client_id.as_str());
    body.append("&client_secret=");
    body.append(conf.client_secret.as_str());
    body.append("&refresh_token=");
    body.append(token);
    body.append("&grant_type=refresh_token");
    assert(body@ =~= refresh_token_form(token@, conf.client_id@, conf.client_secret@));
    body
}

/// The URL that lists the events of `calendar_id` in `[time_min, time_max]`,
/// optionally only those modified since `updated_min`; `None` where an
/// instant has no RFC 3339 text.
pub fn list_events(calendar_id: &str, time_min: i64, time_max: i64, updated_min: Option<i64>) -> (r: Option<String>)
    ensures
        r.is_some() == (rfc3339_text(time_min as int).is_some() && rfc3339_text(time_max as int).is_some()
            && (updated_min matches Some(u) ==> rfc3339_text(u as int).is_some())),
        FIRST_STORABLE <= time_min <= LAST_STORABLE && FIRST_STORABLE <= time_max <= LAST_STORABLE
            && (updated_min matches Some(u) ==> FIRST_STORABLE <= u <= LAST_STORABLE) ==> r.is_some(),
        r matches Some(url) ==> url@ == list_events_query(
            calendar_id@,
            rfc3339_text(time_min as int).unwrap(),
            rfc3339_text(time_max as int).unwrap(),
            match updated_min {
                Some(u) => rfc3339_text(u as int),
                None => None,
            },
        ),
{
    let lo = match format_instant(time_min) {
        Some(s) => s,
        None => return None,
    };
    let hi = match format_instant(time_max) {
        Some(s) => s,
        None => return None,
    };
    let since = match updated_min {
        Some(u) => match format_instant(u) {
            Some(s) => Some(s),
            None => return None,
        },
        None => None,
    };
    let mut url = String::from_str(CALENDARS_ENDPOINT);
    url.append(calendar_id);
    url.append("/events?orderBy=startTime&timeMin=");
    url.append(lo.as_str());
    url.append("&timeMax=");
    url.append(hi.as_str());
    let ghost base = url@;
    match since {
        Some(s) => {
            url.append("&updatedMin=");
            url.append(s.as_str());
        },
        None => {},
    }
    assert(url@ =~= list_events_query(
        calendar_id@,
        lo@,
        hi@,
        match since {
            Some(s) => Some(s@),
            None => None,
        },
    ));
    Some(url)
}

} // verus!
