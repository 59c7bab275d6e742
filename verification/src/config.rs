//! The configuration the device keeps in flash, and how the configuration requests of
//! its web page change it.
use vstd::prelude::*;

use crate::caldav::{parse_uri, uri_parts};
use crate::labels::utf8_size;
use crate::layout::DisplaySettings;

verus! {

/// Reading the stored configuration failed.
#[derive(Clone, Copy, Debug, PartialEq, Eq, Structural)]
pub enum StorageError {
    ReadError,
}

/// Talking to the calendar server failed.
#[derive(Clone, Copy, Debug, PartialEq, Eq, Structural)]
pub enum NetworkError {
    /// The server address is not a URI.
    WrongUrl,
    /// The server's answer could not be read.
    ParsingError,
}

/// Why a configuration request failed; answered with status 500.
#[derive(Clone, Copy, Debug, PartialEq, Eq, Structural)]
pub enum AppError {
    Network(NetworkError),
    Storage(StorageError),
}

/// How the device is reachable: as its own access point, or on the configured network.
#[derive(Clone, Copy, Debug, PartialEq, Eq, Structural)]
pub enum NetworkStatus {
    AccessPoint,
    Network,
}

/// The HTTP statuses the configuration requests answer with.
#[derive(Clone, Copy, Debug, PartialEq, Eq, Structural)]
pub enum HttpStatus {
    Success,
    BadRequest,
    InternalServerError,
}

/// Room, in bytes, of the stored Wi-Fi name and password and of the calendar user name
/// and password.
pub const SHORT_FIELD_CAPACITY: usize = 32;
/// Room, in bytes, of the stored calendar server address.
pub const URL_CAPACITY: usize = 128;

/// Credentials of the Wi-Fi network to join.
#[derive(Clone, Debug)]
pub struct WifiCreds {
    pub ssid: String,
    pub password: String,
}

impl WifiCreds {
    /// Both fields fit the room the stored configuration has for them.
    pub open spec fn wf(&self) -> bool {
        &&& utf8_size(self.ssid@) <= SHORT_FIELD_CAPACITY
        &&& utf8_size(self.password@) <= SHORT_FIELD_CAPACITY
    }
}

/// Address and credentials of the CalDAV server.
#[derive(Clone, Debug)]
pub struct CaldavCreds {
    pub url: String,
    pub username: String,
    pub password: String,
}

impl CaldavCreds {
    /// All fields fit the room the stored configuration has for them.
    pub open spec fn wf(&self) -> bool {
        &&& utf8_size(self.url@) <= URL_CAPACITY
        &&& utf8_size(self.username@) <= SHORT_FIELD_CAPACITY
        &&& utf8_size(self.password@) <= SHORT_FIELD_CAPACITY
    }
}

/// How the calendar is shown: hours in the grid, the calendars to show, and whether only
/// the current day is shown.
#[derive(Clone, Debug)]
pub struct DisplayConfig {
    pub displayed_hours: u8,
    pub calendars: Vec<String>,
    pub show_current_day_only: bool,
}

impl Default for DisplayConfig {
    /// Eighteen hours, no calendar chosen, all days.
    fn default() -> (r: Self)
        ensures
            r.displayed_hours == 18,
            r.calendars@.len() == 0,
            !r.show_current_day_only,
    {
        DisplayConfig { displayed_hours: 18, calendars: Vec::new(), show_current_day_only: false }
    }
}

/// Everything the device stores; each part is absent until it is first configured.
#[derive(Clone, Debug)]
pub struct NvsConfig {
    pub wifi: Option<WifiCreds>,
    pub caldav: Option<CaldavCreds>,
    pub display: Option<DisplayConfig>,
}

impl Default for NvsConfig {
    /// Nothing configured.
    fn default() -> (r: Self)
        ensures
            r.wifi is None,
            r.caldav is None,
            r.display is None,
    {
        NvsConfig { wifi: None, caldav: None, display: None }
    }
}

impl NvsConfig {
    /// Every credential that is present fits the room the stored configuration has for it.
    pub open spec fn wf(&self) -> bool {
        &&& (self.wifi matches Some(w) ==> w.wf())
        &&& (self.caldav matches Some(c) ==> c.wf())
    }
}

/// The configuration a change starts from: the stored one, or an empty one when none
/// could be read.
pub open spec fn base_config(stored: Option<NvsConfig>) -> NvsConfig {
    match stored {
        Some(c) => c,
        None => NvsConfig { wifi: None, caldav: None, display: None },
    }
}

/// The stored configuration with new Wi-Fi credentials.
pub open spec fn replaced_wifi(stored: Option<NvsConfig>, wifi: WifiCreds) -> NvsConfig {
    let c = base_config(stored);
    NvsConfig { wifi: Some(wifi), caldav: c.caldav, display: c.display }
}

/// The stored configuration with new CalDAV credentials.
pub open spec fn replaced_caldav(stored: Option<NvsConfig>, creds: CaldavCreds) -> NvsConfig {
    let c = base_config(stored);
    NvsConfig { wifi: c.wifi, caldav: Some(creds), display: c.display }
}

/// The stored configuration with new display settings.
pub open spec fn replaced_display(stored: Option<NvsConfig>, display: DisplayConfig) -> NvsConfig {
    let c = base_config(stored);
    NvsConfig { wifi: c.wifi, caldav: c.caldav, display: Some(display) }
}

/// The stored configuration, or an empty one when none could be read.
pub fn config_or_default(stored: Option<NvsConfig>) -> (r: NvsConfig)
    ensures
        r == base_config(stored),
        base_config(stored).wf() ==> r.wf(),
{
    match stored {
        Some(c) => c,
        None => NvsConfig::default(),
    }
}

/// The configuration to store after the Wi-Fi credentials were sent: the stored one (or
/// an empty one) with `wifi` replaced.
pub fn with_wifi(stored: Option<NvsConfig>, wifi: WifiCreds) -> (r: NvsConfig)
    ensures
        r == replaced_wifi(stored, wifi),
        base_config(stored).wf() && wifi.wf() ==> r.wf(),
{
    let mut nvs = config_or_default(stored);
    nvs.wifi = Some(wifi);
    nvs
}

/// The configuration to store after the display settings were sent: the stored one (or
/// an empty one) with `display` replaced.
pub fn with_display(stored: Option<NvsConfig>, display: DisplayConfig) -> (r: NvsConfig)
    ensures
        r == replaced_display(stored, display),
        base_config(stored).wf() ==> r.wf(),
{
    let mut nvs = config_or_default(stored);
    nvs.display = Some(display);
    nvs
}

impl DisplaySettings {
    /// Takes over the number of hours from display settings that were sent; whether only
    /// today is shown stays as it was.
    pub fn apply_display_config(&mut self, display: &DisplayConfig)
        ensures
            final(self).display_hours == display.displayed_hours,
            final(self).show_current_day_only == old(self).show_current_day_only,
    {
        self.display_hours = display.displayed_hours;
    }
}

/// What saving new CalDAV credentials does: the answer, and the configuration to write
/// (none when nothing is written).
pub struct CaldavSave {
    pub status: HttpStatus,
    pub write: Option<NvsConfig>,
}

/// Saving CalDAV credentials: refused with 400 and nothing written when the address is
/// not a URI; otherwise the stored configuration (or an empty one) with `caldav`
/// replaced is written and 200 answered.
pub fn save_caldav(stored: Option<NvsConfig>, creds: CaldavCreds) -> (r: CaldavSave)
    ensures
        uri_parts(creds.url@) is None ==> r.status == HttpStatus::BadRequest && r.write is None,
        uri_parts(creds.url@) is Some ==> r.status == HttpStatus::Success && r.write == Some(
            replaced_caldav(stored, creds),
        ),
        base_config(stored).wf() && creds.wf() ==> (r.write matches Some(c) ==> c.wf()),
{
    if parse_uri(creds.url.as_str()).is_none() {
        return CaldavSave { status: HttpStatus::BadRequest, write: None };
    }
    let mut nvs = config_or_default(stored);
    nvs.caldav = Some(creds);
    CaldavSave { status: HttpStatus::Success, write: Some(nvs) }
}

/// The CalDAV credentials the calendar listing uses: a storage read error when no
/// configuration could be read or it has no CalDAV part.
pub open spec fn caldav_of(stored: Option<NvsConfig>) -> Result<CaldavCreds, AppError> {
    match stored {
        Some(c) => match c.caldav {
            Some(k) => Ok(k),
            None => Err(AppError::Storage(StorageError::ReadError)),
        },
        None => Err(AppError::Storage(StorageError::ReadError)),
    }
}

/// The CalDAV credentials to list calendars with: a storage read error when no
/// configuration could be read or it has no CalDAV part.
pub fn stored_caldav(stored: Option<NvsConfig>) -> (r: Result<CaldavCreds, AppError>)
    ensures
        r == caldav_of(stored),
{
    match stored {
        Some(c) => match c.caldav {
            Some(k) => Ok(k),
            None => Err(AppError::Storage(StorageError::ReadError)),
        },
        None => Err(AppError::Storage(StorageError::ReadError)),
    }
}

/// CalDAV credentials that were accepted and written are the ones the calendar listing
/// reads back.
pub proof fn lemma_saved_caldav_read_back(stored: Option<NvsConfig>, creds: CaldavCreds)
    ensures
        caldav_of(Some(replaced_caldav(stored, creds))) == Ok::<CaldavCreds, AppError>(creds),
{
}

/// Saving Wi-Fi credentials or display settings leaves the CalDAV credentials the
/// calendar listing reads as they were, also when nothing had been stored before.
pub proof fn lemma_other_saves_keep_caldav(stored: Option<NvsConfig>, wifi: WifiCreds, display: DisplayConfig)
    ensures
        caldav_of(Some(replaced_wifi(stored, wifi))) == caldav_of(stored),
        caldav_of(Some(replaced_display(stored, display))) == caldav_of(stored),
{
}

/// Each save replaces its own part only: the two other parts of the configuration stay
/// as they were stored (or absent when nothing was stored).
pub proof fn lemma_saves_touch_one_part(
    stored: Option<NvsConfig>,
    wifi: WifiCreds,
    creds: CaldavCreds,
    display: DisplayConfig,
)
    ensures
        replaced_wifi(stored, wifi).caldav == base_config(stored).caldav,
        replaced_wifi(stored, wifi).display == base_config(stored).display,
        replaced_caldav(stored, creds).wifi == base_config(stored).wifi,
        replaced_caldav(stored, creds).display == base_config(stored).display,
        replaced_display(stored, display).wifi == base_config(stored).wifi,
        replaced_display(stored, display).caldav == base_config(stored).caldav,
{
}

/// The answer to a request for the CalDAV endpoint of a domain: the endpoint found, or
/// 400 when none was found.
pub fn endpoint_reply(found: Option<String>) -> (r: Result<String, HttpStatus>)
    ensures
        found matches Some(u) ==> r == Ok::<String, HttpStatus>(u),
        found is None ==> r == Err::<String, HttpStatus>(HttpStatus::BadRequest),
{
    match found {
        Some(u) => Ok(u),
        None => Err(HttpStatus::BadRequest),
    }
}

/// The error of a failed network step, reported as an application error.
pub fn network_failure(e: NetworkError) -> (r: AppError)
    ensures
        r == AppError::Network(e),
{
    AppError::Network(e)
}

} // verus!
