use caldawarrior::caldav_adapter::multistatus::{collect_multistatus, XmlEvent};
use caldawarrior::caldav_adapter::{
    parse_multistatus_vtodos,
    delete_response_kind, get_response_kind, list_response_kind, normalize_etag, put_response_kind, resolve_url,
    transport_error, vtodo_from_get, ResponseKind,
};
use caldawarrior::error::CaldaWarriorError;

#[test]
fn test_normalize_etag_weak() {
    assert_eq!(normalize_etag("W/\"abc123\""), "\"abc123\"");
}

#[test]
fn test_normalize_etag_weak_lowercase() {
    assert_eq!(normalize_etag("w/\"abc123\""), "\"abc123\"");
}

#[test]
fn test_normalize_etag_strong() {
    assert_eq!(normalize_etag("\"abc123\""), "\"abc123\"");
}

#[test]
fn test_normalize_etag_bare() {
    assert_eq!(normalize_etag("abc123"), "\"abc123\"");
}

#[test]
fn test_normalize_etag_weak_no_quotes() {
    assert_eq!(normalize_etag("W/abc123"), "\"abc123\"");
}

#[test]
fn normalize_etag_trims_surrounding_whitespace() {
    assert_eq!(normalize_etag("  W/\"x\"  "), "\"x\"");
    assert_eq!(normalize_etag(""), "\"\"");
}

#[test]
fn resolve_url_keeps_absolute_hrefs() {
    assert_eq!(resolve_url("https://dav.example.com/", "https://other/x.ics"), "https://other/x.ics");
    assert_eq!(resolve_url("https://dav.example.com", "http://other/x.ics"), "http://other/x.ics");
}

#[test]
fn resolve_url_joins_relative_hrefs() {
    assert_eq!(resolve_url("https://dav.example.com//", "/cal/x.ics"), "https://dav.example.com/cal/x.ics");
    assert_eq!(resolve_url("https://dav.example.com", "/cal/x.ics"), "https://dav.example.com/cal/x.ics");
}

#[test]
fn response_kinds_follow_status_codes() {
    assert_eq!(list_response_kind(200), ResponseKind::Success);
    assert_eq!(list_response_kind(207), ResponseKind::Success);
    assert_eq!(list_response_kind(401), ResponseKind::Unauthorized);
    assert_eq!(list_response_kind(500), ResponseKind::Failed);
    assert_eq!(put_response_kind(201), ResponseKind::Success);
    assert_eq!(put_response_kind(204), ResponseKind::Success);
    assert_eq!(put_response_kind(412), ResponseKind::PreconditionFailed);
    assert_eq!(put_response_kind(401), ResponseKind::Unauthorized);
    assert_eq!(put_response_kind(404), ResponseKind::Failed);
    assert_eq!(delete_response_kind(204), ResponseKind::Success);
    assert_eq!(delete_response_kind(201), ResponseKind::Failed);
    assert_eq!(delete_response_kind(412), ResponseKind::PreconditionFailed);
    assert_eq!(get_response_kind(200), ResponseKind::Success);
    assert_eq!(get_response_kind(207), ResponseKind::Failed);
    assert_eq!(get_response_kind(401), ResponseKind::Unauthorized);
}

#[test]
fn transport_error_recognises_tls_failures() {
    match transport_error("https://dav.example.com", "invalid peer Certificate: UnknownIssuer") {
        CaldaWarriorError::CalDav { status, body } => {
            assert_eq!(status, 0);
            assert_eq!(
                body,
                "TLS error connecting to https://dav.example.com: invalid peer Certificate: UnknownIssuer. \
                 If using a self-signed certificate, set allow_insecure_tls = true in config."
            );
        }
        other => panic!("unexpected error: {:?}", other),
    }
    match transport_error("https://dav.example.com", "connection refused") {
        CaldaWarriorError::CalDav { status, body } => {
            assert_eq!(status, 0);
            assert_eq!(body, "Request to https://dav.example.com failed: connection refused");
        }
        other => panic!("unexpected error: {:?}", other),
    }
}

#[test]
fn vtodo_from_get_reads_body_and_etag() {
    let body = "BEGIN:VCALENDAR\r\nBEGIN:VTODO\r\nUID:abc\r\nSUMMARY:Hi\r\nEND:VTODO\r\nEND:VCALENDAR\r\n";
    let f = vtodo_from_get("/cal/abc.ics", Some("W/\"e1\""), body).expect("parse");
    assert_eq!(f.href, "/cal/abc.ics");
    assert_eq!(f.etag.as_deref(), Some("\"e1\""));
    assert_eq!(f.vtodo.uid, "abc");
    assert_eq!(f.vtodo.summary.as_deref(), Some("Hi"));
    let err = vtodo_from_get("/cal/x.ics", None, "garbage").unwrap_err();
    assert_eq!(
        err.message(),
        "iCalendar parse error: Could not parse VTODO from GET response for /cal/x.ics: \
         iCalendar parse error: No VTODO component found"
    );
}

#[test]
fn test_parse_multistatus_radicale_format() {
    let xml = r#"<?xml version="1.0"?>
<D:multistatus xmlns:D="DAV:" xmlns:C="urn:ietf:params:xml:ns:caldav">
  <D:response>
<D:href>/cal/test-uid.ics</D:href>
<D:propstat>
  <D:prop>
    <D:getetag>"etag123"</D:getetag>
    <C:calendar-data>BEGIN:VCALENDAR
VERSION:2.0
BEGIN:VTODO
UID:test-uid
SUMMARY:Test task
END:VTODO
END:VCALENDAR</C:calendar-data>
  </D:prop>
</D:propstat>
  </D:response>
</D:multistatus>"#;

    let results = parse_multistatus_vtodos(xml).0;
    assert_eq!(results.len(), 1, "should parse one VTODO");
    assert_eq!(results[0].href, "/cal/test-uid.ics");
    assert_eq!(results[0].etag.as_deref(), Some("\"etag123\""));
    assert_eq!(results[0].vtodo.uid, "test-uid");
    assert_eq!(results[0].vtodo.summary.as_deref(), Some("Test task"));
}

#[test]
fn test_parse_multistatus_custom_ns() {
    let xml = r#"<?xml version="1.0"?>
<ns0:multistatus xmlns:ns0="DAV:" xmlns:cal="urn:ietf:params:xml:ns:caldav">
  <ns0:response>
<ns0:href>/cal/custom-uid.ics</ns0:href>
<ns0:propstat>
  <ns0:prop>
    <ns0:getetag>"custom-etag"</ns0:getetag>
    <cal:calendar-data>BEGIN:VCALENDAR
VERSION:2.0
BEGIN:VTODO
UID:custom-uid
SUMMARY:Custom ns task
END:VTODO
END:VCALENDAR</cal:calendar-data>
  </ns0:prop>
</ns0:propstat>
  </ns0:response>
</ns0:multistatus>"#;

    let results = parse_multistatus_vtodos(xml).0;
    assert_eq!(results.len(), 1, "should parse VTODO with custom ns prefix");
    assert_eq!(results[0].href, "/cal/custom-uid.ics");
    assert_eq!(results[0].etag.as_deref(), Some("\"custom-etag\""));
    assert_eq!(results[0].vtodo.uid, "custom-uid");
}

#[test]
fn test_parse_multistatus_bare_ns() {
    let xml = r#"<?xml version="1.0"?>
<multistatus xmlns="DAV:" xmlns:C="urn:ietf:params:xml:ns:caldav">
  <response>
<href>/cal/bare-uid.ics</href>
<propstat>
  <prop>
    <getetag>"bare-etag"</getetag>
    <C:calendar-data>BEGIN:VCALENDAR
VERSION:2.0
BEGIN:VTODO
UID:bare-uid
SUMMARY:Bare ns task
END:VTODO
END:VCALENDAR</C:calendar-data>
  </prop>
</propstat>
  </response>
</multistatus>"#;

    let results = parse_multistatus_vtodos(xml).0;
    assert_eq!(
        results.len(),
        1,
        "should parse VTODO with bare ns (default xmlns)"
    );
    assert_eq!(results[0].href, "/cal/bare-uid.ics");
    assert_eq!(results[0].etag.as_deref(), Some("\"bare-etag\""));
    assert_eq!(results[0].vtodo.uid, "bare-uid");
}

#[test]
fn test_parse_multistatus_cdata() {
    let xml = r#"<?xml version="1.0"?>
<D:multistatus xmlns:D="DAV:" xmlns:C="urn:ietf:params:xml:ns:caldav">
  <D:response>
<D:href>/cal/cdata-uid.ics</D:href>
<D:propstat>
  <D:prop>
    <D:getetag>"cdata-etag"</D:getetag>
    <C:calendar-data><![CDATA[BEGIN:VCALENDAR
VERSION:2.0
BEGIN:VTODO
UID:cdata-uid
SUMMARY:CDATA task
END:VTODO
END:VCALENDAR]]></C:calendar-data>
  </D:prop>
</D:propstat>
  </D:response>
</D:multistatus>"#;

    let results = parse_multistatus_vtodos(xml).0;
    assert_eq!(results.len(), 1, "should parse VTODO from CDATA");
    assert_eq!(results[0].vtodo.uid, "cdata-uid");
}

#[test]
fn test_parse_multistatus_skip_bad_vtodo() {
    let xml = r#"<?xml version="1.0"?>
<D:multistatus xmlns:D="DAV:" xmlns:C="urn:ietf:params:xml:ns:caldav">
  <D:response>
<D:href>/cal/good-uid.ics</D:href>
<D:propstat>
  <D:prop>
    <D:getetag>"good-etag"</D:getetag>
    <C:calendar-data>BEGIN:VCALENDAR
VERSION:2.0
BEGIN:VTODO
UID:good-uid
SUMMARY:Good task
END:VTODO
END:VCALENDAR</C:calendar-data>
  </D:prop>
</D:propstat>
  </D:response>
  <D:response>
<D:href>/cal/bad-uid.ics</D:href>
<D:propstat>
  <D:prop>
    <D:getetag>"bad-etag"</D:getetag>
    <C:calendar-data>THIS IS NOT VALID ICAL DATA</C:calendar-data>
  </D:prop>
</D:propstat>
  </D:response>
</D:multistatus>"#;

    let results = parse_multistatus_vtodos(xml).0;
    assert_eq!(results.len(), 1, "should skip bad VTODO and keep good one");
    assert_eq!(results[0].vtodo.uid, "good-uid");
}

#[test]
fn test_parse_multistatus_multiple() {
    let xml = r#"<?xml version="1.0"?>
<D:multistatus xmlns:D="DAV:" xmlns:C="urn:ietf:params:xml:ns:caldav">
  <D:response>
<D:href>/cal/uid-1.ics</D:href>
<D:propstat>
  <D:prop>
    <D:getetag>"etag-1"</D:getetag>
    <C:calendar-data>BEGIN:VCALENDAR
VERSION:2.0
BEGIN:VTODO
UID:uid-1
SUMMARY:First task
END:VTODO
END:VCALENDAR</C:calendar-data>
  </D:prop>
</D:propstat>
  </D:response>
  <D:response>
<D:href>/cal/uid-2.ics</D:href>
<D:propstat>
  <D:prop>
    <D:getetag>"etag-2"</D:getetag>
    <C:calendar-data>BEGIN:VCALENDAR
VERSION:2.0
BEGIN:VTODO
UID:uid-2
SUMMARY:Second task
END:VTODO
END:VCALENDAR</C:calendar-data>
  </D:prop>
</D:propstat>
  </D:response>
</D:multistatus>"#;

    let results = parse_multistatus_vtodos(xml).0;
    assert_eq!(results.len(), 2, "should parse both VTODOs");
    assert_eq!(results[0].vtodo.uid, "uid-1");
    assert_eq!(results[1].vtodo.uid, "uid-2");
}

#[test]
fn test_parse_multistatus_large() {
    let mut xml = String::from(
        r#"<?xml version="1.0"?><D:multistatus xmlns:D="DAV:" xmlns:C="urn:ietf:params:xml:ns:caldav">"#,
    );
    for i in 1..=25 {
        xml.push_str(&format!(
            r#"<D:response><D:href>/cal/uid-{i:03}.ics</D:href><D:propstat><D:prop><D:getetag>"etag-{i:03}"</D:getetag><C:calendar-data>BEGIN:VCALENDAR
VERSION:2.0
BEGIN:VTODO
UID:uid-{i:03}
SUMMARY:Task {i}
END:VTODO
END:VCALENDAR</C:calendar-data></D:prop></D:propstat></D:response>"#
        ));
    }
    xml.push_str("</D:multistatus>");

    let results = parse_multistatus_vtodos(&xml).0;
    assert_eq!(results.len(), 25, "should parse all 25 VTODOs");
    assert_eq!(results[0].vtodo.uid, "uid-001");
    assert_eq!(results[24].vtodo.uid, "uid-025");
    // Verify no UIDs are missing
    for (i, fv) in results.iter().enumerate() {
        assert_eq!(fv.vtodo.uid, format!("uid-{:03}", i + 1));
    }
}

#[test]
fn test_parse_multistatus_special_chars() {
    // Test Unicode characters and iCal-escaped content in VTODO.
    // Real Radicale responses embed iCal text directly (no XML entity escaping
    // needed for iCal content since it doesn't contain <, >, or &).
    let xml = "<?xml version=\"1.0\"?>\n\
<D:multistatus xmlns:D=\"DAV:\" xmlns:C=\"urn:ietf:params:xml:ns:caldav\">\n\
  <D:response>\n\
<D:href>/cal/special-uid.ics</D:href>\n\
<D:propstat>\n\
  <D:prop>\n\
    <D:getetag>\"special-etag\"</D:getetag>\n\
    <C:calendar-data>BEGIN:VCALENDAR\n\
VERSION:2.0\n\
BEGIN:VTODO\n\
UID:special-uid\n\
SUMMARY:Caf\u{00e9} meeting \u{2014} don\u{2019}t forget\n\
DESCRIPTION:Line one\\nLine two\\, with comma\n\
END:VTODO\n\
END:VCALENDAR</C:calendar-data>\n\
  </D:prop>\n\
</D:propstat>\n\
  </D:response>\n\
</D:multistatus>";

    let results = parse_multistatus_vtodos(xml).0;
    assert_eq!(
        results.len(),
        1,
        "should parse VTODO with special characters"
    );
    assert_eq!(results[0].vtodo.uid, "special-uid");
    let summary = results[0].vtodo.summary.as_deref().unwrap_or("");
    // Unicode characters should be preserved through XML + iCal parsing
    assert!(
        summary.contains("Caf\u{00e9}"),
        "should preserve e-with-acute: {:?}",
        summary
    );
    assert!(
        summary.contains("\u{2014}"),
        "should preserve em-dash: {:?}",
        summary
    );
    assert!(
        summary.contains("\u{2019}"),
        "should preserve right single quote: {:?}",
        summary
    );
    // iCal-escaped newline and comma in DESCRIPTION
    let desc = results[0].vtodo.description.as_deref().unwrap_or("");
    assert!(
        desc.contains("Line one\nLine two"),
        "should unescape \\n in description: {:?}",
        desc
    );
    assert!(
        desc.contains(", with comma"),
        "should unescape \\, in description: {:?}",
        desc
    );
}

#[test]
fn test_parse_multistatus_empty() {
    // Empty multistatus with no <response> elements
    let xml = r#"<?xml version="1.0"?>
<D:multistatus xmlns:D="DAV:" xmlns:C="urn:ietf:params:xml:ns:caldav">
</D:multistatus>"#;

    let results = parse_multistatus_vtodos(xml).0;
    assert_eq!(results.len(), 0, "empty calendar should return empty vec");
}

#[test]
fn parse_multistatus_reports_bad_responses_and_malformed_xml() {
    let xml = r#"<?xml version="1.0"?>
<D:multistatus xmlns:D="DAV:" xmlns:C="urn:ietf:params:xml:ns:caldav">
  <D:response>
    <D:href>/cal/bad.ics</D:href>
    <D:propstat><D:prop><C:calendar-data>NOT ICAL</C:calendar-data></D:prop></D:propstat>
  </D:response>
</D:multistatus>"#;
    let (results, diagnostics) = parse_multistatus_vtodos(xml);
    assert!(results.is_empty());
    assert_eq!(diagnostics.len(), 1);
    assert!(diagnostics[0].contains("/cal/bad.ics"), "diagnostic names the href: {:?}", diagnostics);

    let (results, diagnostics) = parse_multistatus_vtodos("<D:multistatus xmlns:D=\"DAV:\"><D:response></D:oops>");
    assert!(results.is_empty());
    assert_eq!(diagnostics.len(), 1);
}

#[test]
fn wrong_namespace_elements_are_ignored() {
    let xml = r#"<?xml version="1.0"?>
<X:multistatus xmlns:X="urn:other">
  <X:response>
    <X:href>/cal/x.ics</X:href>
    <X:calendar-data>BEGIN:VCALENDAR
BEGIN:VTODO
UID:x
END:VTODO
END:VCALENDAR</X:calendar-data>
  </X:response>
</X:multistatus>"#;
    let (results, _diagnostics) = parse_multistatus_vtodos(xml);
    assert!(results.is_empty());
}

#[test]
fn collect_multistatus_on_events() {
    let dav = Some("DAV:".to_string());
    let cal = Some("urn:ietf:params:xml:ns:caldav".to_string());
    let events = vec![
        XmlEvent::Start { ns: dav.clone(), local: "multistatus".to_string() },
        XmlEvent::Start { ns: dav.clone(), local: "response".to_string() },
        XmlEvent::Start { ns: dav.clone(), local: "href".to_string() },
        XmlEvent::Text(Some("/cal/e.ics".to_string())),
        XmlEvent::End { ns: dav.clone(), local: "href".to_string() },
        XmlEvent::Start { ns: dav.clone(), local: "getetag".to_string() },
        XmlEvent::Text(Some("W/\"w1\"".to_string())),
        XmlEvent::End { ns: dav.clone(), local: "getetag".to_string() },
        XmlEvent::Start { ns: cal.clone(), local: "calendar-data".to_string() },
        XmlEvent::Text(Some("BEGIN:VCALENDAR\nBEGIN:VTODO\nUID:e\nEND:VTODO\nEND:VCALENDAR".to_string())),
        XmlEvent::End { ns: cal.clone(), local: "calendar-data".to_string() },
        XmlEvent::End { ns: dav.clone(), local: "response".to_string() },
        XmlEvent::End { ns: dav.clone(), local: "multistatus".to_string() },
        XmlEvent::Eof,
    ];
    let (results, diagnostics) = collect_multistatus(events);
    assert!(diagnostics.is_empty());
    assert_eq!(results.len(), 1);
    assert_eq!(results[0].href, "/cal/e.ics");
    assert_eq!(results[0].etag.as_deref(), Some("\"w1\""));
    assert_eq!(results[0].vtodo.uid, "e");
}

#[test]
fn put_precondition_creates_only_without_an_etag() {
    let (name, value) = caldawarrior::caldav_adapter::put_precondition(Some("\"e1\""));
    assert_eq!((name.as_str(), value.as_str()), ("If-Match", "\"e1\""));
    let (name, value) = caldawarrior::caldav_adapter::put_precondition(None);
    assert_eq!((name.as_str(), value.as_str()), ("If-None-Match", "*"));
}
