//! Configuration: what the configuration file and the environment provide.
use vstd::prelude::*;
use crate::plan::SyncOptions;
use crate::time::SyncWindow;

verus! {

/// File name of the configuration file in the user's configuration directory.
pub const CONF_FILE_NAME: &'static str = "config.json";

/// File name of the dotenv file in the user's cache directory.
pub const ENV_FILE_NAME: &'static str = ".env";

/// File name of the stored Google token, unless configured otherwise.
pub const DEFAULT_TOKEN_FILENAME: &'static str = "google-token.json";

/// Redirect URI of the authorisation flow, unless configured otherwise.
pub const DEFAULT_REDIRECT_URI: &'static str = "http://localhost";

/// Title of the parent of appended headlines, unless configured otherwise.
pub const DEFAULT_APPEND_HEADLINE: &'static str = "Sync";

/// Name of the identity property, unless configured otherwise.
pub const DEFAULT_PROPERTY: &'static str = "EVENT_ID";

/// Days before and after today that are synchronised, unless configured
/// otherwise.
pub const DEFAULT_DAYS: u8 = 7;

/// What `std::path::Path::join` gives for a directory and a relative file name.
pub uninterp spec fn path_joined(dir: Seq<char>, name: Seq<char>) -> Seq<char>;

/// Relies on `std::path::Path::join`: the path of `name` inside `dir`.
#[verifier::external_body]
fn join_path(dir: &str, name: &str) -> (r: String)
    ensures
        r@ == path_joined(dir@, name@),
{
    std::path::Path::new(dir).join(name).to_string_lossy().into_owned()
}

/// The default configuration file, inside the user's configuration directory.
pub fn default_conf_path(conf_dir: &str) -> (r: String)
    ensures
        r@ == path_joined(conf_dir@, CONF_FILE_NAME@),
{
    join_path(conf_dir, CONF_FILE_NAME)
}

/// The default dotenv file, inside the user's cache directory.
pub fn default_env_path(cache_dir: &str) -> (r: String)
    ensures
        r@ == path_joined(cache_dir@, ENV_FILE_NAME@),
{
    join_path(cache_dir, ENV_FILE_NAME)
}

/// The configuration file.
pub struct Conf {
    /// Path of the dotenv file to load before reading the rest.
    pub env_path: String,
    pub google_calendar: Option<GoogleCalendarGlobalConf>,
    pub toggl: Option<TogglGlobalConf>,
    pub files: Vec<FileConf>,
}

impl Conf {
    /// A configuration with no service and no file, whose dotenv file is the
    /// default one in `cache_dir`.
    pub fn with_cache_dir(cache_dir: &str) -> (r: Conf)
        ensures
            r.env_path@ == path_joined(cache_dir@, ENV_FILE_NAME@),
            r.google_calendar.is_none(),
            r.toggl.is_none(),
            r.files@.len() == 0,
    {
        Conf { env_path: default_env_path(cache_dir), google_calendar: None, toggl: None, files: Vec::new() }
    }
}

/// The part of the configuration that says where the dotenv file is.
pub struct EnvConf {
    pub env_path: String,
}

impl EnvConf {
    /// The default dotenv file in `cache_dir`.
    pub fn with_cache_dir(cache_dir: &str) -> (r: EnvConf)
        ensures
            r.env_path@ == path_joined(cache_dir@, ENV_FILE_NAME@),
    {
        EnvConf { env_path: default_env_path(cache_dir) }
    }
}

/// One synchronised org file.
pub struct FileConf {
    pub name: Option<String>,
    pub path: String,
    pub google_calendar: Option<GoogleCalendarConf>,
    pub toggl: Option<TogglConf>,
}

/// Google Calendar settings shared by all files.
pub struct GoogleCalendarGlobalConf {
    pub client_id: String,
    pub client_secret: String,
    pub token_dir: String,
    pub token_filename: String,
    pub redirect_uri: String,
}

impl GoogleCalendarGlobalConf {
    /// Settings for the given client, with the token kept in `token_dir`
    /// under its default name and the default redirect URI.
    pub fn new(client_id: String, client_secret: String, token_dir: String) -> (r: GoogleCalendarGlobalConf)
        ensures
            r.client_id == client_id,
            r.client_secret == client_secret,
            r.token_dir == token_dir,
            r.token_filename@ == DEFAULT_TOKEN_FILENAME@,
            r.redirect_uri@ == DEFAULT_REDIRECT_URI@,
    {
        GoogleCalendarGlobalConf {
            client_id,
            client_secret,
            token_dir,
            token_filename: String::from_str(DEFAULT_TOKEN_FILENAME),
            redirect_uri: String::from_str(DEFAULT_REDIRECT_URI),
        }
    }

    /// Path of the stored token.
    pub fn token_path(&self) -> (r: String)
        ensures
            r@ == path_joined(self.token_dir@, self.token_filename@),
    {
        join_path(self.token_dir.as_str(), self.token_filename.as_str())
    }
}

/// Google Calendar settings of one file.
pub struct GoogleCalendarConf {
    /// The calendar to synchronise with; required.
    pub calendar: String,
    pub append_new: bool,
    pub append_headline: String,
    pub property: String,
    pub up_days: u8,
    pub down_days: u8,
}

impl Default for GoogleCalendarConf {
    fn default() -> (r: GoogleCalendarConf)
        ensures
            r.calendar@.len() == 0,
            r.append_new,
            r.append_headline@ == DEFAULT_APPEND_HEADLINE@,
            r.property@ == DEFAULT_PROPERTY@,
            r.up_days == DEFAULT_DAYS,
            r.down_days == DEFAULT_DAYS,
    {
        GoogleCalendarConf {
            calendar: String::new(),
            append_new: true,
            append_headline: String::from_str(DEFAULT_APPEND_HEADLINE),
            property: String::from_str(DEFAULT_PROPERTY),
            up_days: DEFAULT_DAYS,
            down_days: DEFAULT_DAYS,
        }
    }
}

impl GoogleCalendarConf {
    /// What the engine reads of these settings.
    pub fn options(&self) -> (r: SyncOptions)
        ensures
            r.property == self.property,
            r.append_new == self.append_new,
            r.append_headline == self.append_headline,
    {
        SyncOptions {
            property: self.property.clone(),
            append_new: self.append_new,
            append_headline: self.append_headline.clone(),
        }
    }

    /// The window of this file around `now`.
    pub fn window(&self, now: i64) -> (r: Option<SyncWindow>)
        ensures
            r.is_some() == SyncWindow::fits(now as int, self.up_days as int, self.down_days as int),
            r matches Some(w) ==> w.now == now && w.wf()
                && w.time_min == SyncWindow::min_of(now as int, self.up_days as int)
                && w.time_max == SyncWindow::max_of(now as int, self.down_days as int),
    {
        SyncWindow::new(now, self.up_days, self.down_days)
    }
}

/// Toggl settings shared by all files.
pub struct TogglGlobalConf {
    pub api_token: String,
}

/// Toggl settings of one file.
pub struct TogglConf {
    pub up_days: u8,
    pub down_days: u8,
}

impl Default for TogglConf {
    fn default() -> (r: TogglConf)
        ensures
            r.up_days == DEFAULT_DAYS,
            r.down_days == DEFAULT_DAYS,
    {
        TogglConf { up_days: DEFAULT_DAYS, down_days: DEFAULT_DAYS }
    }
}

impl TogglConf {
    /// The window of this file around `now`.
    pub fn window(&self, now: i64) -> (r: Option<SyncWindow>)
        ensures
            r.is_some() == SyncWindow::fits(now as int, self.up_days as int, self.down_days as int),
            r matches Some(w) ==> w.now == now && w.wf()
                && w.time_min == SyncWindow::min_of(now as int, self.up_days as int)
                && w.time_max == SyncWindow::max_of(now as int, self.down_days as int),
    {
        SyncWindow::new(now, self.up_days, self.down_days)
    }
}

} // verus!
