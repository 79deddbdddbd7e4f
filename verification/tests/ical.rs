use caldawarrior::ical::{
    escape_text, fold_line, from_icalendar_string, split_on_unescaped_commas, to_icalendar_string,
    to_icalendar_string_at, unescape_text, unfold_lines,
};
use caldawarrior::ical::{find_colon_outside_quotes, is_date_only_value, parse_datetime_with_params, parse_property_line, split_params};
use caldawarrior::types::{IcalProp, RelType, VTODO};
use chrono::{DateTime, TimeZone, Timelike, Utc};

fn ts(y: i32, mo: u32, d: u32, h: u32, mi: u32, s: u32) -> i64 {
    Utc.with_ymd_and_hms(y, mo, d, h, mi, s).unwrap().timestamp()
}

fn hour(t: i64) -> u32 {
    DateTime::from_timestamp(t, 0).unwrap().hour()
}

fn minute(t: i64) -> u32 {
    DateTime::from_timestamp(t, 0).unwrap().minute()
}

fn make_basic_vtodo() -> VTODO {
    VTODO {
        uid: "test-uid-001".to_string(),
        summary: Some("My Task".to_string()),
        description: Some("A description".to_string()),
        status: Some("NEEDS-ACTION".to_string()),
        last_modified: Some(ts(2026, 2, 26, 10, 0, 0)),
        dtstamp: None,
        dtstart: Some(ts(2026, 2, 26, 9, 0, 0)),
        due: Some(ts(2026, 2, 27, 12, 0, 0)),
        completed: None,
        categories: vec!["work".to_string(), "personal".to_string()],
        rrule: None,
        priority: None,
        depends: vec![],
        extra_props: vec![],
        due_is_date_only: false,
        dtstart_is_date_only: false,
    }
}

#[test]
fn test_round_trip_basic() {
    let original = make_basic_vtodo();
    let serialized = to_icalendar_string(&original);
    let parsed = from_icalendar_string(&serialized).expect("parse should succeed");
    assert_eq!(parsed.uid, original.uid);
    assert_eq!(parsed.summary, original.summary);
    assert_eq!(parsed.description, original.description);
    assert_eq!(parsed.status, original.status);
    assert_eq!(parsed.last_modified, original.last_modified);
    assert_eq!(parsed.dtstart, original.dtstart);
    assert_eq!(parsed.due, original.due);
    assert_eq!(parsed.completed, original.completed);
    assert_eq!(parsed.categories, original.categories);
    assert_eq!(parsed.rrule, original.rrule);
}

#[test]
fn test_text_escaping() {
    let vtodo = VTODO {
        uid: "escape-uid".to_string(),
        summary: Some("Back\\slash; semi,comma\nnewline".to_string()),
        ..Default::default()
    };
    let serialized = to_icalendar_string(&vtodo);
    assert!(serialized.contains("Back\\\\slash\\;"), "backslash and semicolon should be escaped");
    assert!(serialized.contains("semi\\,comma"), "comma should be escaped");
    assert!(serialized.contains("\\n"), "newline should be escaped as \\n");
    let parsed = from_icalendar_string(&serialized).expect("parse");
    assert_eq!(parsed.summary.as_deref(), Some("Back\\slash; semi,comma\nnewline"));
}

#[test]
fn test_line_folding() {
    let long_summary = "A".repeat(80);
    let vtodo = VTODO { uid: "fold-uid".to_string(), summary: Some(long_summary.clone()), ..Default::default() };
    let serialized = to_icalendar_string(&vtodo);
    assert!(serialized.contains("\r\n "), "folded output should contain CRLF+space fold markers");
    for physical_line in serialized.split("\r\n") {
        assert!(
            physical_line.len() <= 75,
            "physical line exceeds 75 bytes: {:?} (len={})",
            physical_line,
            physical_line.len()
        );
    }
    let parsed = from_icalendar_string(&serialized).expect("parse folded");
    assert_eq!(parsed.summary.as_deref(), Some(long_summary.as_str()));
}

#[test]
fn test_tzid_conversion() {
    let ical = "BEGIN:VCALENDAR\r\nVERSION:2.0\r\nBEGIN:VTODO\r\n\
        UID:tzid-test-001\r\n\
        DTSTART;TZID=America/New_York:20260115T100000\r\n\
        END:VTODO\r\nEND:VCALENDAR\r\n";
    let vtodo = from_icalendar_string(ical).expect("parse");
    let dtstart = vtodo.dtstart.expect("dtstart present");
    assert_eq!(hour(dtstart), 15, "10:00 EST should be 15:00 UTC");
    assert_eq!(minute(dtstart), 0);
    assert_eq!(dtstart, ts(2026, 1, 15, 15, 0, 0));
}

#[test]
fn test_reltype_depends_on() {
    let ical = "BEGIN:VCALENDAR\r\nVERSION:2.0\r\nBEGIN:VTODO\r\n\
        UID:rel-test-001\r\n\
        RELATED-TO;RELTYPE=DEPENDS-ON:some-uid-abc\r\n\
        END:VTODO\r\nEND:VCALENDAR\r\n";
    let vtodo = from_icalendar_string(ical).expect("parse");
    assert_eq!(vtodo.depends.len(), 1);
    assert_eq!(vtodo.depends[0].0, RelType::DependsOn);
    assert_eq!(vtodo.depends[0].1, "some-uid-abc");
}

#[test]
fn test_reltype_other() {
    let ical = "BEGIN:VCALENDAR\r\nVERSION:2.0\r\nBEGIN:VTODO\r\n\
        UID:rel-test-002\r\n\
        RELATED-TO;RELTYPE=CHILD:some-uid-xyz\r\n\
        END:VTODO\r\nEND:VCALENDAR\r\n";
    let vtodo = from_icalendar_string(ical).expect("parse");
    assert_eq!(vtodo.depends.len(), 1);
    assert_eq!(vtodo.depends[0].0, RelType::Other("CHILD".to_string()));
    assert_eq!(vtodo.depends[0].1, "some-uid-xyz");
}

#[test]
fn test_extra_props_preserved() {
    let ical = "BEGIN:VCALENDAR\r\nVERSION:2.0\r\nBEGIN:VTODO\r\n\
        UID:extra-uid\r\n\
        X-CUSTOM:myvalue\r\n\
        END:VTODO\r\nEND:VCALENDAR\r\n";
    let vtodo = from_icalendar_string(ical).expect("parse");
    assert_eq!(vtodo.extra_props.len(), 1);
    assert_eq!(vtodo.extra_props[0].name, "X-CUSTOM");
    assert_eq!(vtodo.extra_props[0].value, "myvalue");
    let serialized = to_icalendar_string(&vtodo);
    let reparsed = from_icalendar_string(&serialized).expect("reparse");
    assert_eq!(reparsed.extra_props.len(), 1);
    assert_eq!(reparsed.extra_props[0].name, "X-CUSTOM");
    assert_eq!(reparsed.extra_props[0].value, "myvalue");
}

#[test]
fn test_dtstamp_present() {
    let vtodo = make_basic_vtodo();
    let serialized = to_icalendar_string(&vtodo);
    assert!(serialized.contains("DTSTAMP:"), "DTSTAMP should be present in output");
}

#[test]
fn test_dtstamp_parsed() {
    let ical = "BEGIN:VCALENDAR\r\nVERSION:2.0\r\nBEGIN:VTODO\r\n\
        UID:dtstamp-test-001\r\n\
        DTSTAMP:20260215T120000Z\r\n\
        END:VTODO\r\nEND:VCALENDAR\r\n";
    let vtodo = from_icalendar_string(ical).expect("parse");
    let dtstamp = vtodo.dtstamp.expect("dtstamp should be parsed");
    assert_eq!(
        DateTime::from_timestamp(dtstamp, 0).unwrap().format("%Y%m%dT%H%M%SZ").to_string(),
        "20260215T120000Z"
    );
    assert!(vtodo.last_modified.is_none());
}

#[test]
fn test_missing_uid_error() {
    let ical = "BEGIN:VCALENDAR\r\nVERSION:2.0\r\nBEGIN:VTODO\r\n\
        SUMMARY:No UID here\r\n\
        END:VTODO\r\nEND:VCALENDAR\r\n";
    let result = from_icalendar_string(ical);
    assert!(result.is_err(), "should return error when UID is missing");
    let err_msg = result.unwrap_err().message();
    assert!(err_msg.to_lowercase().contains("uid"), "error message should mention UID: {}", err_msg);
}

#[test]
fn priority_parsed_from_vtodo() {
    let ical = "BEGIN:VCALENDAR\r\nVERSION:2.0\r\nBEGIN:VTODO\r\n\
        UID:prio-test-001\r\nSUMMARY:High priority\r\nPRIORITY:3\r\n\
        END:VTODO\r\nEND:VCALENDAR\r\n";
    let vtodo = from_icalendar_string(ical).expect("parse");
    assert_eq!(vtodo.priority, Some(3));
}

#[test]
fn priority_zero_treated_as_absent() {
    let ical = "BEGIN:VCALENDAR\r\nVERSION:2.0\r\nBEGIN:VTODO\r\n\
        UID:prio-test-002\r\nSUMMARY:No priority\r\nPRIORITY:0\r\n\
        END:VTODO\r\nEND:VCALENDAR\r\n";
    let vtodo = from_icalendar_string(ical).expect("parse");
    assert_eq!(vtodo.priority, None);
}

#[test]
fn priority_serialized_to_vtodo() {
    let vtodo = VTODO {
        uid: "prio-ser-001".to_string(),
        summary: Some("Task".to_string()),
        priority: Some(1),
        ..Default::default()
    };
    let s = to_icalendar_string(&vtodo);
    assert!(s.contains("PRIORITY:1"), "serialized output should contain PRIORITY:1: {}", s);
    let parsed = from_icalendar_string(&s).expect("parse");
    assert_eq!(parsed.priority, Some(1));
}

#[test]
fn priority_absent_not_emitted() {
    let vtodo = VTODO { uid: "prio-absent-001".to_string(), summary: Some("Task".to_string()), ..Default::default() };
    let s = to_icalendar_string(&vtodo);
    assert!(!s.contains("PRIORITY"), "serialized output should not contain PRIORITY when None: {}", s);
}

#[test]
fn test_split_on_unescaped_commas_basic() {
    assert_eq!(split_on_unescaped_commas("a,b,c"), vec!["a", "b", "c"]);
    assert_eq!(split_on_unescaped_commas("Smith\\, John,Work"), vec!["Smith\\, John", "Work"]);
    assert_eq!(split_on_unescaped_commas("a\\,b,c\\,d"), vec!["a\\,b", "c\\,d"]);
    assert_eq!(split_on_unescaped_commas("simple"), vec!["simple"]);
    assert_eq!(split_on_unescaped_commas(""), vec![""]);
}

#[test]
fn test_categories_comma_parse() {
    let ical = "BEGIN:VCALENDAR\r\nVERSION:2.0\r\nBEGIN:VTODO\r\n\
        UID:cat-comma-001\r\n\
        CATEGORIES:Smith\\, John,Work\r\n\
        END:VTODO\r\nEND:VCALENDAR\r\n";
    let vtodo = from_icalendar_string(ical).expect("parse");
    assert_eq!(vtodo.categories, vec!["Smith, John", "Work"]);
}

#[test]
fn test_categories_comma_serialize() {
    let vtodo = VTODO {
        uid: "cat-comma-ser-001".to_string(),
        categories: vec!["Smith, John".to_string(), "Work".to_string()],
        ..Default::default()
    };
    let serialized = to_icalendar_string(&vtodo);
    assert!(
        serialized.contains("CATEGORIES:Smith\\, John,Work"),
        "Expected escaped CATEGORIES line, got: {}",
        serialized
    );
}

#[test]
fn test_categories_comma_roundtrip() {
    let original_cats = vec!["Smith, John".to_string(), "Work".to_string()];
    let vtodo = VTODO { uid: "cat-rt-001".to_string(), categories: original_cats.clone(), ..Default::default() };
    let serialized = to_icalendar_string(&vtodo);
    let parsed = from_icalendar_string(&serialized).expect("roundtrip parse");
    assert_eq!(parsed.categories, original_cats);
}

#[test]
fn test_categories_simple_unchanged() {
    let ical = "BEGIN:VCALENDAR\r\nVERSION:2.0\r\nBEGIN:VTODO\r\n\
        UID:cat-simple-001\r\n\
        CATEGORIES:work,personal\r\n\
        END:VTODO\r\nEND:VCALENDAR\r\n";
    let vtodo = from_icalendar_string(ical).expect("parse");
    assert_eq!(vtodo.categories, vec!["work", "personal"]);
}

#[test]
fn test_categories_empty() {
    let ical = "BEGIN:VCALENDAR\r\nVERSION:2.0\r\nBEGIN:VTODO\r\n\
        UID:cat-empty-001\r\n\
        CATEGORIES:\r\n\
        END:VTODO\r\nEND:VCALENDAR\r\n";
    let vtodo = from_icalendar_string(ical).expect("parse");
    assert!(vtodo.categories.is_empty(), "empty CATEGORIES should produce empty vec");
}

#[test]
fn test_vtodo_default_derive() {
    let vtodo = VTODO::default();
    assert!(!vtodo.due_is_date_only, "due_is_date_only should default to false");
    assert!(!vtodo.dtstart_is_date_only, "dtstart_is_date_only should default to false");
    assert!(vtodo.uid.is_empty());
    assert!(vtodo.due.is_none());
    assert!(vtodo.dtstart.is_none());
}

#[test]
fn test_date_only_due_parsed() {
    let ical = "BEGIN:VCALENDAR\r\nVERSION:2.0\r\nBEGIN:VTODO\r\n\
        UID:date-only-due-001\r\n\
        DUE;VALUE=DATE:20260315\r\n\
        END:VTODO\r\nEND:VCALENDAR\r\n";
    let vtodo = from_icalendar_string(ical).expect("parse");
    assert!(vtodo.due_is_date_only, "DUE;VALUE=DATE should set due_is_date_only");
    let due = vtodo.due.expect("due should be present");
    assert_eq!(due, ts(2026, 3, 15, 0, 0, 0));
}

#[test]
fn test_date_only_due_implicit() {
    let ical = "BEGIN:VCALENDAR\r\nVERSION:2.0\r\nBEGIN:VTODO\r\n\
        UID:date-only-due-002\r\n\
        DUE:20260315\r\n\
        END:VTODO\r\nEND:VCALENDAR\r\n";
    let vtodo = from_icalendar_string(ical).expect("parse");
    assert!(vtodo.due_is_date_only, "implicit 8-char DUE should set due_is_date_only");
}

#[test]
fn test_datetime_due_not_date_only() {
    let ical = "BEGIN:VCALENDAR\r\nVERSION:2.0\r\nBEGIN:VTODO\r\n\
        UID:datetime-due-001\r\n\
        DUE:20260315T120000Z\r\n\
        END:VTODO\r\nEND:VCALENDAR\r\n";
    let vtodo = from_icalendar_string(ical).expect("parse");
    assert!(!vtodo.due_is_date_only, "DUE with time should NOT set due_is_date_only");
}

#[test]
fn test_date_only_dtstart() {
    let ical = "BEGIN:VCALENDAR\r\nVERSION:2.0\r\nBEGIN:VTODO\r\n\
        UID:date-only-dtstart-001\r\n\
        DTSTART;VALUE=DATE:20260401\r\n\
        END:VTODO\r\nEND:VCALENDAR\r\n";
    let vtodo = from_icalendar_string(ical).expect("parse");
    assert!(vtodo.dtstart_is_date_only, "DTSTART;VALUE=DATE should set dtstart_is_date_only");
    let dtstart = vtodo.dtstart.expect("dtstart should be present");
    assert_eq!(dtstart, ts(2026, 4, 1, 0, 0, 0));
}

#[test]
fn test_tzid_fall_back_ambiguous() {
    let ical = "BEGIN:VCALENDAR\r\nVERSION:2.0\r\nBEGIN:VTODO\r\n\
        UID:dst-fallback-001\r\n\
        DUE;TZID=America/New_York:20261101T013000\r\n\
        END:VTODO\r\nEND:VCALENDAR\r\n";
    let vtodo = from_icalendar_string(ical).expect("parse");
    let due = vtodo.due.expect("due should be present for ambiguous DST time");
    assert_eq!(hour(due), 6, "01:30 EST (latest/standard) = 06:30 UTC, got hour={}", hour(due));
    assert_eq!(minute(due), 30);
}

#[test]
fn test_tzid_spring_forward_gap() {
    let ical = "BEGIN:VCALENDAR\r\nVERSION:2.0\r\nBEGIN:VTODO\r\n\
        UID:dst-gap-001\r\n\
        DUE;TZID=America/New_York:20260308T023000\r\n\
        END:VTODO\r\nEND:VCALENDAR\r\n";
    let vtodo = from_icalendar_string(ical).expect("parse");
    assert!(vtodo.due.is_some(), "gap time should NOT return None");
    assert_eq!(vtodo.due, Some(ts(2026, 3, 8, 2, 30, 0)));
}

#[test]
fn test_tzid_paris_summer() {
    let ical = "BEGIN:VCALENDAR\r\nVERSION:2.0\r\nBEGIN:VTODO\r\n\
        UID:paris-summer-001\r\n\
        DTSTART;TZID=Europe/Paris:20260715T140000\r\n\
        END:VTODO\r\nEND:VCALENDAR\r\n";
    let vtodo = from_icalendar_string(ical).expect("parse");
    let dtstart = vtodo.dtstart.expect("dtstart should be present");
    assert_eq!(hour(dtstart), 12, "14:00 CEST = 12:00 UTC, got hour={}", hour(dtstart));
}

#[test]
fn test_tzid_paris_winter() {
    let ical = "BEGIN:VCALENDAR\r\nVERSION:2.0\r\nBEGIN:VTODO\r\n\
        UID:paris-winter-001\r\n\
        DTSTART;TZID=Europe/Paris:20260115T140000\r\n\
        END:VTODO\r\nEND:VCALENDAR\r\n";
    let vtodo = from_icalendar_string(ical).expect("parse");
    let dtstart = vtodo.dtstart.expect("dtstart should be present");
    assert_eq!(hour(dtstart), 13, "14:00 CET = 13:00 UTC, got hour={}", hour(dtstart));
}

// ---------------------------------------------------------------------------
// The text helpers and their laws on concrete values
// ---------------------------------------------------------------------------

#[test]
fn escape_then_unescape_gives_text_back_without_cr() {
    let s = "a\\b;c,d\ne\rf";
    let e = escape_text(s);
    assert_eq!(e, "a\\\\b\\;c\\,d\\nef");
    assert_eq!(unescape_text(&e), "a\\b;c,d\nef");
}

#[test]
fn unescape_keeps_unknown_pairs_and_lone_backslash() {
    assert_eq!(unescape_text("\\N\\x\\"), "\n\\x\\");
    assert_eq!(unescape_text("plain"), "plain");
}

#[test]
fn unfold_handles_crlf_lf_and_tabs() {
    assert_eq!(unfold_lines("A\r\n B\r\nC\n\tD\rE"), "AB\nCD\nE");
    assert_eq!(unfold_lines("X\r\r\n Y"), "X\nY");
}

#[test]
fn fold_line_short_is_unchanged() {
    let l = "SUMMARY:short";
    assert_eq!(fold_line(l), l);
    let exactly = "B".repeat(75);
    assert_eq!(fold_line(&exactly), exactly);
}

#[test]
fn fold_line_cuts_at_75_then_74_bytes() {
    let line = "C".repeat(200);
    let folded = fold_line(&line);
    let parts: Vec<&str> = folded.split("\r\n").collect();
    assert_eq!(parts.len(), 3);
    assert_eq!(parts[0].len(), 75);
    assert_eq!(parts[1].len(), 75);
    assert!(parts[1].starts_with(' '));
    assert_eq!(parts[2], format!(" {}", "C".repeat(200 - 75 - 74)));
    assert_eq!(unfold_lines(&folded), line);
}

#[test]
fn fold_line_respects_utf8_boundaries() {
    let line = "é".repeat(60);
    let folded = fold_line(&line);
    for part in folded.split("\r\n") {
        assert!(part.len() <= 75);
    }
    assert!(folded.starts_with(&"é".repeat(37)));
    assert_eq!(unfold_lines(&folded), line);
}

#[test]
fn find_colon_skips_quoted_colons() {
    assert_eq!(find_colon_outside_quotes("DTSTART;X=\"a:b\":v"), Some(15));
    assert_eq!(find_colon_outside_quotes("NOCOLON"), None);
    assert_eq!(find_colon_outside_quotes("\"a:b\""), None);
}

#[test]
fn split_params_trims_and_respects_quotes() {
    assert_eq!(split_params("NAME ; A=\"x;y\" ;B=1"), vec!["NAME", "A=\"x;y\"", "B=1"]);
    assert_eq!(split_params("  "), Vec::<String>::new());
    assert_eq!(split_params("X;"), vec!["X", ""]);
}

#[test]
fn parse_property_line_reads_name_params_value() {
    let (name, params, value) = parse_property_line("due;tzid=\"Europe/Paris\";flag:20260101T000000").expect("line");
    assert_eq!(name, "DUE");
    assert_eq!(params, vec![("TZID".to_string(), "Europe/Paris".to_string()), ("FLAG".to_string(), String::new())]);
    assert_eq!(value, "20260101T000000");
    assert!(parse_property_line("no colon here").is_none());
    assert!(parse_property_line(":value").is_none());
}

#[test]
fn date_only_detection() {
    let p = vec![("value".to_string(), "date".to_string())];
    assert!(is_date_only_value("20260101T000000Z", &p));
    assert!(is_date_only_value(" 20260101 ", &vec![]));
    assert!(!is_date_only_value("2026T101", &vec![]));
    assert!(!is_date_only_value("20260101Z", &vec![]));
}

#[test]
fn datetime_values_utc_floating_and_unknown_zone() {
    assert_eq!(parse_datetime_with_params("20260101T080000Z", &vec![]), Some(ts(2026, 1, 1, 8, 0, 0)));
    assert_eq!(parse_datetime_with_params("20260101T080000", &vec![]), Some(ts(2026, 1, 1, 8, 0, 0)));
    assert_eq!(parse_datetime_with_params("20260101", &vec![]), Some(ts(2026, 1, 1, 0, 0, 0)));
    let unknown = vec![("TZID".to_string(), "Mars/Olympus".to_string())];
    assert_eq!(parse_datetime_with_params("20260101T080000", &unknown), None);
    assert_eq!(parse_datetime_with_params("not a date", &vec![]), None);
}

#[test]
fn serialization_is_exact_for_a_fixed_stamp() {
    let vtodo = VTODO {
        uid: "u1".to_string(),
        summary: Some("S".to_string()),
        priority: Some(5),
        depends: vec![(RelType::DependsOn, "d1".to_string()), (RelType::Other("CHILD".to_string()), "c1".to_string())],
        ..Default::default()
    };
    let s = to_icalendar_string_at(&vtodo, ts(2026, 1, 2, 3, 4, 5));
    assert_eq!(
        s,
        "BEGIN:VCALENDAR\r\nVERSION:2.0\r\nPRODID:-//caldawarrior//EN\r\nBEGIN:VTODO\r\n\
         DTSTAMP:20260102T030405Z\r\nUID:u1\r\nSUMMARY:S\r\nPRIORITY:5\r\n\
         RELATED-TO;RELTYPE=DEPENDS-ON:d1\r\nRELATED-TO;RELTYPE=CHILD:c1\r\n\
         END:VTODO\r\nEND:VCALENDAR\r\n"
    );
}

#[test]
fn parse_errors_name_what_is_missing() {
    assert_eq!(
        from_icalendar_string("BEGIN:VCALENDAR\r\nEND:VCALENDAR\r\n").unwrap_err().message(),
        "iCalendar parse error: No VTODO component found"
    );
    assert_eq!(
        from_icalendar_string("BEGIN:VTODO\r\nUID:x\r\n").unwrap_err().message(),
        "iCalendar parse error: No END:VTODO found"
    );
}

#[test]
fn written_vtodo_reads_back_field_for_field() {
    let stamp = ts(2026, 3, 1, 8, 30, 0);
    let original = VTODO {
        uid: "rt-uid-42".to_string(),
        summary: Some("Plan: Q2; budget, review\\notes".to_string()),
        description: Some("line one\nline two, with comma; and semicolon".to_string()),
        status: Some("IN-PROCESS".to_string()),
        last_modified: Some(ts(2026, 2, 28, 23, 59, 59)),
        dtstamp: None,
        dtstart: Some(ts(2026, 3, 2, 9, 0, 0)),
        due: Some(ts(2026, 3, 5, 17, 0, 0)),
        completed: Some(ts(2026, 3, 6, 10, 0, 0)),
        categories: vec!["Smith, John".to_string(), "work;home".to_string(), "x".to_string()],
        rrule: Some("FREQ=WEEKLY;COUNT=3".to_string()),
        priority: Some(5),
        depends: vec![
            (RelType::DependsOn, "dep-1".to_string()),
            (RelType::Other("PARENT".to_string()), "parent-9".to_string()),
        ],
        extra_props: vec![IcalProp {
            name: "X-CUSTOM".to_string(),
            params: vec![("LANG".to_string(), "en".to_string()), ("X-FLAG".to_string(), String::new())],
            value: "kept: as is".to_string(),
        }],
        due_is_date_only: false,
        dtstart_is_date_only: false,
    };
    let text = to_icalendar_string_at(&original, stamp);
    let back = from_icalendar_string(&text).expect("reads back");
    assert_eq!(back.uid, original.uid);
    assert_eq!(back.summary, original.summary);
    assert_eq!(back.description, original.description);
    assert_eq!(back.status, original.status);
    assert_eq!(back.last_modified, original.last_modified);
    assert_eq!(back.dtstamp, Some(stamp));
    assert_eq!(back.dtstart, original.dtstart);
    assert_eq!(back.due, original.due);
    assert_eq!(back.completed, original.completed);
    assert_eq!(back.categories, original.categories);
    assert_eq!(back.rrule, original.rrule);
    assert_eq!(back.priority, original.priority);
    assert_eq!(back.depends, original.depends);
    assert_eq!(back.extra_props, original.extra_props);
    assert!(!back.due_is_date_only && !back.dtstart_is_date_only);
}

#[test]
fn end_marker_inside_a_summary_cuts_the_component() {
    let vtodo = VTODO {
        uid: "cut-uid".to_string(),
        summary: Some("before END:VTODO after".to_string()),
        ..Default::default()
    };
    let text = to_icalendar_string_at(&vtodo, ts(2026, 1, 1, 0, 0, 0));
    let back = from_icalendar_string(&text).expect("reads back");
    assert_eq!(back.summary.as_deref(), Some("before "));
}

#[test]
fn uid_is_read_in_any_case_and_only_inside_the_block() {
    let lower = "BEGIN:VCALENDAR\r\nBEGIN:VTODO\r\nuid:lower-1\r\nEND:VTODO\r\nEND:VCALENDAR\r\n";
    assert_eq!(from_icalendar_string(lower).expect("parse").uid, "lower-1");
    let outside = "BEGIN:VCALENDAR\r\nUID:outside\r\nBEGIN:VTODO\r\nSUMMARY:x\r\nEND:VTODO\r\nEND:VCALENDAR\r\n";
    assert!(from_icalendar_string(outside).is_err());
    let no_end = "BEGIN:VCALENDAR\r\nBEGIN:VTODO\r\nUID:x\r\nEND:VCALENDAR\r\n";
    assert!(from_icalendar_string(no_end).is_err());
}
