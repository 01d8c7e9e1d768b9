//! The OAuth credential: how it is stored, when it is refreshed, and how
//! the interactive authorisation reads its code.
use vstd::prelude::*;
use crate::conf::GoogleCalendarGlobalConf;
use crate::error::Error;
use crate::google::api::{ConfirmCodeResponse, RefreshTokenResponse};
use crate::time::{format_instant, parse_instant, rfc3339_instant, rfc3339_text, FIRST_STORABLE, LAST_STORABLE};

verus! {

/// A cached access token is used only while it has more than this many
/// seconds left.
pub const SKEW_SECONDS: i64 = 60;

/// Google's authorisation page.
pub const AUTH_ENDPOINT: &'static str = "https://accounts.google.com/o/oauth2/v2/auth";

/// The scope that the authorisation asks for.
pub const CALENDAR_SCOPE: &'static str = "https://www.googleapis.com/auth/calendar";

/// A field of the stored token that this library does not read; it is kept
/// as its JSON text and written back unchanged.
pub struct ExtraField {
    pub name: String,
    pub json: String,
}

/// The credential, with its expiry in seconds since the Unix epoch.
pub struct OAuthCredential {
    pub access_token: String,
    pub expires_at: i64,
    pub refresh_token: String,
    pub extra: Vec<ExtraField>,
}

/// The credential as the token file holds it: the expiry as RFC 3339 text.
pub struct StoredToken {
    pub access_token: String,
    pub expires_at: String,
    pub refresh_token: String,
    pub extra: Vec<ExtraField>,
}

/// What reading the token file gave.
pub enum TokenLoad {
    NotFound,
    /// The file exists but does not hold a token.
    Corrupt,
    Found(StoredToken),
}

/// How to obtain an access token.
pub enum AuthStep {
    /// The stored access token is still good.
    UseCached(String),
    /// Refresh with this refresh token.
    Refresh(String),
    /// Run the interactive authorisation.
    Authorize,
}

/// What to do with a line typed at the authorisation prompt.
pub enum CodeStep {
    /// The line is blank: prompt again.
    Again,
    /// The person typed `q`: stop.
    Quit,
    /// Exchange this code for tokens.
    Exchange(String),
}

/// The extra fields, as (name, JSON text) pairs.
pub open spec fn extra_view(extra: Seq<ExtraField>) -> Seq<(Seq<char>, Seq<char>)> {
    extra.map_values(|f: ExtraField| (f.name@, f.json@))
}

/// Whether a token expiring at `expires_at` may still be used at `now`.
pub open spec fn usable(expires_at: int, now: int) -> bool {
    expires_at > now + SKEW_SECONDS
}

/// A copy of the unread fields.
fn copy_extra(extra: &Vec<ExtraField>) -> (r: Vec<ExtraField>)
    ensures
        extra_view(r@) == extra_view(extra@),
{
    let mut r: Vec<ExtraField> = Vec::new();
    let mut k: usize = 0;
    while k < extra.len()
        invariant
            k <= extra.len(),
            r@.len() == k,
            extra_view(r@) == extra_view(extra@).subrange(0, k as int),
        decreases extra.len() - k,
    {
        let ghost prev = r@;
        let f = ExtraField { name: extra[k].name.clone(), json: extra[k].json.clone() };
        r.push(f);
        assert forall|i: int| 0 <= i < k + 1 implies #[trigger] extra_view(r@)[i] == extra_view(extra@)[i] by {
            if i < k {
                assert(r@[i] == prev[i]);
                assert(extra_view(prev)[i] == extra_view(extra@).subrange(0, k as int)[i]);
            }
        }
        assert(extra_view(r@) =~= extra_view(extra@).subrange(0, k + 1));
        k += 1;
    }
    assert(extra_view(extra@).subrange(0, k as int) =~= extra_view(extra@));
    r
}

impl OAuthCredential {
    /// The stored form of the credential; `None` exactly where the expiry
    /// lies outside the years 0 to 9999, whose text would not be read back.
    pub fn save(&self) -> (r: Option<StoredToken>)
        ensures
            r.is_some() == (FIRST_STORABLE <= self.expires_at <= LAST_STORABLE),
            r matches Some(st) ==> rfc3339_instant(st.expires_at@) == Some(self.expires_at as int),
            r matches Some(st) ==> {
                &&& st.access_token@ == self.access_token@
                &&& Some(st.expires_at@) == rfc3339_text(self.expires_at as int)
                &&& st.refresh_token@ == self.refresh_token@
                &&& extra_view(st.extra@) == extra_view(self.extra@)
            },
    {
        if self.expires_at < FIRST_STORABLE || self.expires_at > LAST_STORABLE {
            return None;
        }
        match format_instant(self.expires_at) {
            Some(text) => Some(StoredToken {
                access_token: self.access_token.clone(),
                expires_at: text,
                refresh_token: self.refresh_token.clone(),
                extra: copy_extra(&self.extra),
            }),
            None => None,
        }
    }

    /// How to obtain an access token at `now` with this credential: its
    /// access token while more than the skew is left, else a refresh.
    pub fn step_at(&self, now: i64) -> (r: AuthStep)
        ensures
            usable(self.expires_at as int, now as int) ==> (r matches AuthStep::UseCached(t) && t@ == self.access_token@),
            !usable(self.expires_at as int, now as int) ==> (r matches AuthStep::Refresh(t) && t@ == self.refresh_token@),
    {
        if (self.expires_at as i128) > (now as i128) + (SKEW_SECONDS as i128) {
            AuthStep::UseCached(self.access_token.clone())
        } else {
            AuthStep::Refresh(self.refresh_token.clone())
        }
    }

    /// The credential after a refresh at `now`: the new access token and
    /// expiry, and the new refresh token where one was issued. Fails where
    /// the expiry does not fit.
    pub fn refreshed(&self, res: RefreshTokenResponse, now: i64) -> (r: Result<OAuthCredential, Error>)
        ensures
            r.is_ok() == (i64::MIN <= now + res.expires_in <= i64::MAX),
            r matches Err(e) ==> e == Error::UnexpectedResponse,
            r matches Ok(c) ==> {
                &&& c.access_token@ == res.access_token@
                &&& c.expires_at == now + res.expires_in
                &&& c.refresh_token@ == (match res.refresh_token {
                    Some(t) => t@,
                    None => self.refresh_token@,
                })
                &&& extra_view(c.extra@) == extra_view(self.extra@)
            },
    {
        let expires_at = match now.checked_add(res.expires_in) {
            Some(t) => t,
            None => return Err(Error::UnexpectedResponse),
        };
        let refresh_token = match res.refresh_token {
            Some(t) => t,
            None => self.refresh_token.clone(),
        };
        Ok(OAuthCredential { access_token: res.access_token, expires_at, refresh_token, extra: copy_extra(&self.extra) })
    }

    /// The credential obtained by exchanging an authorisation code at `now`.
    /// Fails where the expiry does not fit.
    pub fn confirmed(res: ConfirmCodeResponse, now: i64) -> (r: Result<OAuthCredential, Error>)
        ensures
            r.is_ok() == (i64::MIN <= now + res.expires_in <= i64::MAX),
            r matches Err(e) ==> e == Error::UnexpectedResponse,
            r matches Ok(c) ==> {
                &&& c.access_token@ == res.access_token@
                &&& c.expires_at == now + res.expires_in
                &&& c.refresh_token@ == res.refresh_token@
                &&& c.extra@.len() == 0
            },
    {
        match now.checked_add(res.expires_in) {
            Some(expires_at) => Ok(OAuthCredential {
                access_token: res.access_token,
                expires_at,
                refresh_token: res.refresh_token,
                extra: Vec::new(),
            }),
            None => Err(Error::UnexpectedResponse),
        }
    }
}

impl StoredToken {
    /// The credential that the stored form holds; `Corrupt` where the expiry
    /// is not RFC 3339 text.
    pub fn load(&self) -> (r: Result<OAuthCredential, Error>)
        ensures
            r.is_ok() == rfc3339_instant(self.expires_at@).is_some(),
            r matches Err(e) ==> e == Error::Corrupt,
            r matches Ok(c) ==> {
                &&& c.access_token@ == self.access_token@
                &&& rfc3339_instant(self.expires_at@) == Some(c.expires_at as int)
                &&& c.refresh_token@ == self.refresh_token@
                &&& extra_view(c.extra@) == extra_view(self.extra@)
            },
    {
        match parse_instant(self.expires_at.as_str()) {
            Some(expires_at) => Ok(OAuthCredential {
                access_token: self.access_token.clone(),
                expires_at,
                refresh_token: self.refresh_token.clone(),
                extra: copy_extra(&self.extra),
            }),
            None => Err(Error::Corrupt),
        }
    }
}

/// How to obtain an access token at `now`, given what the token file held:
/// authorise where there is no readable credential, use the stored access
/// token while more than the skew is left, and refresh otherwise.
pub fn access_token(load: &TokenLoad, now: i64) -> (r: AuthStep)
    ensures
        match load {
            TokenLoad::Found(st) => match rfc3339_instant(st.expires_at@) {
                Some(e) => if usable(e, now as int) {
                    r matches AuthStep::UseCached(t) && t@ == st.access_token@
                } else {
                    r matches AuthStep::Refresh(t) && t@ == st.refresh_token@
                },
                None => r is Authorize,
            },
            _ => r is Authorize,
        },
{
    match load {
        TokenLoad::Found(st) => match st.load() {
            Ok(cred) => cred.step_at(now),
            Err(_) => AuthStep::Authorize,
        },
        _ => AuthStep::Authorize,
    }
}

/// The OAuth error code with which the token endpoint refuses a refresh
/// token that was revoked or has expired.
pub const INVALID_GRANT: &'static str = "invalid_grant";

/// The failure of a refresh that the token endpoint refused with `status`
/// and the OAuth error code `error` of its answer (empty where the answer
/// carries none): `ReauthRequired` exactly for `invalid_grant`, the status
/// otherwise. The stored credential is left as it is; whether to authorise
/// again or to stop is the caller's choice.
pub fn refresh_refused(status: u16, error: &String) -> (r: Error)
    ensures
        error@ == INVALID_GRANT@ ==> r == Error::ReauthRequired,
        error@ != INVALID_GRANT@ ==> r == Error::HttpStatus(status),
{
    if *error == String::from_str(INVALID_GRANT) {
        Error::ReauthRequired
    } else {
        Error::HttpStatus(status)
    }
}

/// How to obtain an access token after the service rejected the current
/// one: always a refresh with the stored refresh token, however long the
/// stored access token seems to be valid; an authorisation where there is
/// no readable credential.
pub fn forced_refresh(load: &TokenLoad) -> (r: AuthStep)
    ensures
        match load {
            TokenLoad::Found(st) => match rfc3339_instant(st.expires_at@) {
                Some(_) => r matches AuthStep::Refresh(t) && t@ == st.refresh_token@,
                None => r is Authorize,
            },
            _ => r is Authorize,
        },
{
    match load {
        TokenLoad::Found(st) => match st.load() {
            Ok(cred) => AuthStep::Refresh(cred.refresh_token),
            Err(_) => AuthStep::Authorize,
        },
        _ => AuthStep::Authorize,
    }
}

/// A credential whose access token has less than the skew left is never
/// used as it is: it is refreshed.
pub proof fn lemma_expiring_token_is_refreshed(expires_at: int, now: int)
    requires
        expires_at - now < SKEW_SECONDS,
    ensures
        !usable(expires_at, now),
{
}

/// Storing a credential and loading it back gives the same credential: the
/// same access token, expiry, refresh token and unknown fields.
pub proof fn lemma_save_then_load(c: OAuthCredential, st: StoredToken, back: OAuthCredential)
    requires
        st.access_token@ == c.access_token@,
        rfc3339_instant(st.expires_at@) == Some(c.expires_at as int),
        st.refresh_token@ == c.refresh_token@,
        extra_view(st.extra@) == extra_view(c.extra@),
        back.access_token@ == st.access_token@,
        rfc3339_instant(st.expires_at@) == Some(back.expires_at as int),
        back.refresh_token@ == st.refresh_token@,
        extra_view(back.extra@) == extra_view(st.extra@),
    ensures
        back.access_token@ == c.access_token@,
        back.expires_at == c.expires_at,
        back.refresh_token@ == c.refresh_token@,
        extra_view(back.extra@) == extra_view(c.extra@),
{
}

/// Whether a character has Unicode's White_Space property, the whitespace
/// that `str::trim` removes.
pub open spec fn is_white_space(c: char) -> bool {
    let u = c as u32;
    ||| 0x9 <= u <= 0xD
    ||| u == 0x20 || u == 0x85 || u == 0xA0 || u == 0x1680
    ||| 0x2000 <= u <= 0x200A
    ||| u == 0x2028 || u == 0x2029 || u == 0x202F || u == 0x205F || u == 0x3000
}

/// The text without its leading whitespace.
pub open spec fn trim_start_of(s: Seq<char>) -> Seq<char>
    decreases s.len(),
{
    if s.len() > 0 && is_white_space(s[0]) {
        trim_start_of(s.drop_first())
    } else {
        s
    }
}

/// The text without its trailing whitespace.
pub open spec fn trim_end_of(s: Seq<char>) -> Seq<char>
    decreases s.len(),
{
    if s.len() > 0 && is_white_space(s.last()) {
        trim_end_of(s.drop_last())
    } else {
        s
    }
}

/// The text without leading and trailing whitespace.
pub open spec fn trimmed(s: Seq<char>) -> Seq<char> {
    trim_end_of(trim_start_of(s))
}

/// Relies on `str::trim`: the text without its leading and trailing
/// whitespace, as Unicode's White_Space property defines it.
#[verifier::external_body]
fn trim(s: &str) -> (r: &str)
    ensures
        r@ == trimmed(s@),
{
    s.trim()
}

/// What a trimmed prompt line asks for.
pub open spec fn code_step_of(line: Seq<char>) -> int {
    if line.len() == 0 {
        0
    } else if line == seq!['q'] {
        1
    } else {
        2
    }
}

/// What to do with a prompt line that is already trimmed: prompt again on
/// a blank line, stop on `q`, exchange anything else as the code.
pub fn code_step(line: &str) -> (r: CodeStep)
    ensures
        code_step_of(line@) == 0 ==> r is Again,
        code_step_of(line@) == 1 ==> r is Quit,
        code_step_of(line@) == 2 ==> (r matches CodeStep::Exchange(c) && c@ == line@),
{
    let n = line.unicode_len();
    if n == 0 {
        CodeStep::Again
    } else if n == 1 && line.get_char(0) == 'q' {
        assert(line@ =~= seq!['q']);
        CodeStep::Quit
    } else {
        assert(n != 1 ==> line@.len() != seq!['q'].len());
        CodeStep::Exchange(line.to_string())
    }
}

/// What to do with a line typed at the authorisation prompt.
pub fn read_code_line(line: &str) -> (r: CodeStep)
    ensures
        code_step_of(trimmed(line@)) == 0 ==> r is Again,
        code_step_of(trimmed(line@)) == 1 ==> r is Quit,
        code_step_of(trimmed(line@)) == 2 ==> (r matches CodeStep::Exchange(c) && c@ == trimmed(line@)),
{
    code_step(trim(line))
}

/// The authorisation page's address for an offline-access code.
pub open spec fn authorization_url_of(client_id: Seq<char>, redirect_uri: Seq<char>) -> Seq<char> {
    AUTH_ENDPOINT@ + "?client_id="@ + client_id + "&redirect_uri="@ + redirect_uri + "&scope="@ + CALENDAR_SCOPE@
        + "&response_type=code&access_type=offline"@
}

/// The address that the person visits to authorise the calendar access.
pub fn authorization_url(conf: &GoogleCalendarGlobalConf) -> (r: String)
    ensures
        r@ == authorization_url_of(conf.client_id@, conf.redirect_uri@),
{
    let mut url = String::from_str(AUTH_ENDPOINT);
    url.append("?client_id=");
    url.append(conf.client_id.as_str());
    url.append("&redirect_uri=");
    url.append(conf.redirect_uri.as_str());
    url.append("&scope=");
    url.append(CALENDAR_SCOPE);
    url.append("&response_type=code&access_type=offline");
    assert(url@ =~= authorization_url_of(conf.client_id@, conf.redirect_uri@));
    url
}

} // verus!
