use calendar_display::boot::{boot_type_after_wakeup, toggle_boot_type, BootType, WakeupCause};
use calendar_display::caldav::{credentials_target, parse_uri};
use calendar_display::config::{
    config_or_default, endpoint_reply, network_failure, save_caldav, stored_caldav, with_display,
    with_wifi, AppError, CaldavCreds, DisplayConfig, HttpStatus, NetworkError, NetworkStatus,
    NvsConfig, StorageError, WifiCreds,
};
use calendar_display::layout::DisplaySettings;
use calendar_display::shim::memchr_index;

fn wifi() -> WifiCreds {
    WifiCreds { ssid: "home".to_string(), password: "secret-pass".to_string() }
}

fn caldav(url: &str) -> CaldavCreds {
    CaldavCreds { url: url.to_string(), username: "me".to_string(), password: "pw".to_string() }
}

#[test]
fn display_config_defaults() {
    let d = DisplayConfig::default();
    assert_eq!(d.displayed_hours, 18);
    assert!(d.calendars.is_empty());
    assert!(!d.show_current_day_only);
    let n = NvsConfig::default();
    assert!(n.wifi.is_none() && n.caldav.is_none() && n.display.is_none());
    assert!(config_or_default(None).wifi.is_none());
}

#[test]
fn wifi_update_keeps_other_parts() {
    let stored = with_display(None, DisplayConfig::default());
    let updated = with_wifi(Some(stored), wifi());
    assert_eq!(updated.wifi.unwrap().ssid, "home");
    assert_eq!(updated.display.unwrap().displayed_hours, 18);
    assert!(updated.caldav.is_none());
}

#[test]
fn display_update_and_settings() {
    let cfg = DisplayConfig { displayed_hours: 12, calendars: vec!["work".to_string()], show_current_day_only: true };
    let mut settings = DisplaySettings::new();
    settings.apply_display_config(&cfg);
    assert_eq!(settings.display_hours, 12);
    assert!(!settings.show_current_day_only);
    let n = with_display(Some(with_wifi(None, wifi())), cfg);
    assert_eq!(n.display.unwrap().calendars, vec!["work".to_string()]);
    assert_eq!(n.wifi.unwrap().password, "secret-pass");
}

#[test]
fn caldav_save_requires_a_uri() {
    let refused = save_caldav(None, caldav("not a url"));
    assert_eq!(refused.status, HttpStatus::BadRequest);
    assert!(refused.write.is_none());
    let saved = save_caldav(Some(with_wifi(None, wifi())), caldav("https://example.com/caldav"));
    assert_eq!(saved.status, HttpStatus::Success);
    let written = saved.write.unwrap();
    assert_eq!(written.caldav.unwrap().url, "https://example.com/caldav");
    assert_eq!(written.wifi.unwrap().ssid, "home");
}

#[test]
fn calendars_need_stored_caldav() {
    assert!(matches!(
        stored_caldav(None),
        Err(AppError::Storage(StorageError::ReadError))
    ));
    assert!(matches!(
        stored_caldav(Some(NvsConfig::default())),
        Err(AppError::Storage(StorageError::ReadError))
    ));
    let stored = save_caldav(None, caldav("https://dav.example.org/")).write;
    assert_eq!(stored_caldav(stored).unwrap().username, "me");
}

#[test]
fn endpoint_replies() {
    assert_eq!(endpoint_reply(Some("https://example.com/caldav".to_string())), Ok("https://example.com/caldav".to_string()));
    assert_eq!(endpoint_reply(None), Err(HttpStatus::BadRequest));
    assert_eq!(network_failure(NetworkError::ParsingError), AppError::Network(NetworkError::ParsingError));
}

#[test]
fn uri_parts_from_fluent_uri() {
    let (scheme, authority, path) = parse_uri("https://example.com:8443/dav/cal?x=1#f").unwrap();
    assert_eq!(scheme, "https");
    assert_eq!(authority.as_deref(), Some("example.com:8443"));
    assert_eq!(path, "/dav/cal");
    assert!(parse_uri("no scheme here").is_none());
    let (_, authority, path) = parse_uri("mailto:user@example.com").unwrap();
    assert!(authority.is_none());
    assert_eq!(path, "user@example.com");
}

#[test]
fn credential_check_target() {
    assert_eq!(
        credentials_target("https://example.com/dav/?x=1"),
        Ok(("https://example.com".to_string(), "/dav/".to_string()))
    );
    assert_eq!(
        credentials_target("https://example.com"),
        Ok(("https://example.com".to_string(), "/".to_string()))
    );
    assert_eq!(
        credentials_target("mailto:user@example.com"),
        Ok(("mailto://".to_string(), "user@example.com".to_string()))
    );
    assert_eq!(credentials_target("::"), Err(NetworkError::WrongUrl));
}

#[test]
fn boot_type_rules() {
    assert_eq!(toggle_boot_type(BootType::Display), BootType::Config);
    assert_eq!(toggle_boot_type(toggle_boot_type(BootType::Config)), BootType::Config);
    assert_eq!(boot_type_after_wakeup(WakeupCause::Button, BootType::Display), BootType::Config);
    assert_eq!(boot_type_after_wakeup(WakeupCause::Timer, BootType::Config), BootType::Display);
    assert_eq!(boot_type_after_wakeup(WakeupCause::Other, BootType::Config), BootType::Config);
}

#[test]
fn network_status_values() {
    assert_ne!(NetworkStatus::AccessPoint, NetworkStatus::Network);
}

#[test]
fn byte_search() {
    assert_eq!(memchr_index(b"hello", b'l' as i32), Some(2));
    assert_eq!(memchr_index(b"hello", b'z' as i32), None);
    assert_eq!(memchr_index(b"", 0), None);
    // only the low byte of the value is compared, as in C
    assert_eq!(memchr_index(b"a\x01b", 0x101), Some(1));
}

#[test]
fn later_saves_keep_caldav_credentials() {
    let saved = save_caldav(None, caldav("https://dav.example.org/cal")).write;
    let after_wifi = with_wifi(saved, wifi());
    let after_display = with_display(Some(after_wifi), DisplayConfig::default());
    let creds = stored_caldav(Some(after_display)).unwrap();
    assert_eq!(creds.url, "https://dav.example.org/cal");
    assert_eq!(creds.password, "pw");
    assert!(matches!(
        stored_caldav(Some(with_wifi(None, wifi()))),
        Err(AppError::Storage(StorageError::ReadError))
    ));
}
