use caldawarrior::error::{i32_to_decimal, CaldaWarriorError};
use caldawarrior::types::{FetchedVTODO, VTODO};

#[test]
fn config_error_display() {
    let e = CaldaWarriorError::Config("missing field".to_string());
    assert!(e.message().contains("missing field"));
}

#[test]
fn tw_error_display() {
    let e = CaldaWarriorError::Tw { code: 1, stderr: "not found".to_string() };
    assert!(e.message().contains("1"));
    assert!(e.message().contains("not found"));
}

#[test]
fn auth_error_directs_to_credentials() {
    let e = CaldaWarriorError::Auth { server_url: "https://dav.example.com".to_string() };
    let msg = e.message();
    assert!(msg.contains("dav.example.com"));
    assert!(msg.to_lowercase().contains("credential"));
}

#[test]
fn etag_conflict_carries_vtodo() {
    let vtodo = VTODO { uid: "test-uid".to_string(), ..Default::default() };
    let fetched = FetchedVTODO { href: "/cal/test.ics".to_string(), etag: Some("\"abc123\"".to_string()), vtodo };
    let e = CaldaWarriorError::EtagConflict { refetched_vtodo: fetched.clone() };
    assert!(e.message().contains("ETag"));
    if let CaldaWarriorError::EtagConflict { refetched_vtodo } = e {
        assert_eq!(refetched_vtodo.href, "/cal/test.ics");
    } else {
        panic!("wrong variant");
    }
}

#[test]
fn error_messages_exact() {
    let e = CaldaWarriorError::Tw { code: -2, stderr: "bad".to_string() };
    assert_eq!(e.message(), "TaskWarrior exited with code -2: bad");
    let e = CaldaWarriorError::CalDav { status: 404, body: "gone".to_string() };
    assert_eq!(e.message(), "CalDAV request failed with status 404: gone");
    assert_eq!(CaldaWarriorError::IcalParse("x".to_string()).message(), "iCalendar parse error: x");
    assert_eq!(CaldaWarriorError::SyncConflict.message(), "Sync conflict could not be resolved automatically");
    assert_eq!(CaldaWarriorError::Config("c".to_string()).message(), "Configuration error: c");
}

#[test]
fn signed_decimal_rendering() {
    assert_eq!(i32_to_decimal(0), "0");
    assert_eq!(i32_to_decimal(42), "42");
    assert_eq!(i32_to_decimal(-7), "-7");
    assert_eq!(i32_to_decimal(i32::MIN), "-2147483648");
    assert_eq!(i32_to_decimal(i32::MAX), "2147483647");
}
