use caldawarrior::sync::lww::{content_identical, normalize_status, resolve_lww, same_multiset};
use caldawarrior::sync::plan::{build_tw_task_from_caldav, build_vtodo_from_tw, decide_op};
use caldawarrior::types::TwAnnotation;
use caldawarrior::types::{FetchedVTODO, IREntry, PlannedOp, Side, SkipReason, TWTask, UpdateReason, VTODO};
use chrono::{TimeZone, Utc};
use uuid::Uuid;

fn t(y: i32, mo: u32, d: u32, h: u32, mi: u32, s: u32) -> i64 {
    Utc.with_ymd_and_hms(y, mo, d, h, mi, s).unwrap().timestamp()
}

fn make_tw_task(uuid: u128, description: &str, modified: i64) -> TWTask {
    TWTask {
        uuid,
        status: "pending".to_string(),
        description: description.to_string(),
        entry: t(2026, 1, 1, 0, 0, 0),
        modified: Some(modified),
        due: None,
        scheduled: None,
        wait: None,
        until: None,
        end: None,
        caldavuid: None,
        priority: None,
        project: None,
        tags: None,
        recur: None,
        urgency: None,
        id: None,
        depends: vec![],
        annotations: vec![],
    }
}

fn make_vtodo(uid: &str, summary: &str, status: &str, last_modified: Option<i64>) -> VTODO {
    VTODO {
        uid: uid.to_string(),
        summary: Some(summary.to_string()),
        description: None,
        status: Some(status.to_string()),
        last_modified,
        ..Default::default()
    }
}

fn make_entry(tw_task: TWTask, vtodo: VTODO) -> IREntry {
    IREntry {
        tw_uuid: Some(tw_task.uuid),
        caldav_uid: Some(vtodo.uid.clone()),
        tw_task: Some(tw_task),
        fetched_vtodo: Some(FetchedVTODO { href: format!("/{}.ics", vtodo.uid), etag: None, vtodo }),
        resolved_depends: vec![],
        cyclic: false,
        calendar_url: None,
        dirty_tw: false,
        dirty_caldav: false,
        project: None,
    }
}

fn new_uuid() -> u128 {
    Uuid::new_v4().as_u128()
}

fn uid_text(u: u128) -> String {
    Uuid::from_u128(u).to_string()
}

#[test]
fn tw_wins_when_modified_is_newer() {
    let uuid = new_uuid();
    let task = make_tw_task(uuid, "Updated task", t(2026, 2, 1, 11, 0, 0));
    let vtodo = make_vtodo(&uid_text(uuid), "Old task", "NEEDS-ACTION", Some(t(2026, 2, 1, 9, 0, 0)));
    match resolve_lww(make_entry(task, vtodo), t(2026, 2, 2, 0, 0, 0)) {
        PlannedOp::ResolveConflict { winner, reason, .. } => {
            assert!(matches!(winner, Side::Tw));
            assert!(matches!(reason, UpdateReason::LwwTwWins));
        }
        other => panic!("expected TW wins, got {:?}", other),
    }
}

#[test]
fn caldav_wins_when_newer_than_tw() {
    let uuid = new_uuid();
    let task = make_tw_task(uuid, "Old TW task", t(2026, 2, 1, 9, 0, 0));
    let vtodo = make_vtodo(&uid_text(uuid), "Updated CalDAV task", "NEEDS-ACTION", Some(t(2026, 2, 1, 12, 0, 0)));
    match resolve_lww(make_entry(task, vtodo), t(2026, 2, 2, 0, 0, 0)) {
        PlannedOp::ResolveConflict { winner, reason, .. } => {
            assert!(matches!(winner, Side::CalDav));
            assert!(matches!(reason, UpdateReason::LwwCalDavWins));
        }
        other => panic!("expected CalDAV wins, got {:?}", other),
    }
}

#[test]
fn identical_content_skips() {
    let uuid = new_uuid();
    let ts = t(2026, 2, 1, 10, 0, 0);
    let task = make_tw_task(uuid, "Buy milk", ts);
    let vtodo = make_vtodo(&uid_text(uuid), "Buy milk", "NEEDS-ACTION", Some(ts));
    match resolve_lww(make_entry(task, vtodo), t(2026, 2, 2, 0, 0, 0)) {
        PlannedOp::Skip { reason: SkipReason::Identical, tw_uuid } => assert_eq!(tw_uuid, Some(uuid)),
        other => panic!("expected Skip(Identical), got {:?}", other),
    }
}

#[test]
fn tw_wins_on_equal_timestamps() {
    let uuid = new_uuid();
    let ts = t(2026, 2, 1, 10, 0, 0);
    let task = make_tw_task(uuid, "TW version", ts);
    let vtodo = make_vtodo(&uid_text(uuid), "CalDAV version", "NEEDS-ACTION", Some(ts));
    match resolve_lww(make_entry(task, vtodo), t(2026, 2, 2, 0, 0, 0)) {
        PlannedOp::ResolveConflict { winner, reason, .. } => {
            assert!(matches!(winner, Side::Tw), "TW should win on equal timestamps");
            assert!(matches!(reason, UpdateReason::LwwTwWins));
        }
        other => panic!("expected TW wins on equal timestamps, got {:?}", other),
    }
}

#[test]
fn regression_caldav_wins_then_identical_on_resync() {
    let uuid = new_uuid();
    let caldav_lm = t(2026, 2, 1, 10, 0, 0);
    let now = t(2026, 2, 2, 0, 0, 0);
    let task_before = make_tw_task(uuid, "Old TW content", t(2026, 2, 1, 8, 0, 0));
    let vtodo_before = make_vtodo(&uid_text(uuid), "Updated CalDAV content", "NEEDS-ACTION", Some(caldav_lm));
    match resolve_lww(make_entry(task_before, vtodo_before), now) {
        PlannedOp::ResolveConflict { winner, .. } => {
            assert!(matches!(winner, Side::CalDav), "sync 1: CalDAV should win");
        }
        other => panic!("sync 1: expected CalDAV wins, got {:?}", other),
    }
    let mut task_after = make_tw_task(uuid, "Updated CalDAV content", t(2026, 2, 2, 0, 0, 1));
    task_after.status = "pending".to_string();
    let vtodo_after = make_vtodo(&uid_text(uuid), "Updated CalDAV content", "NEEDS-ACTION", Some(caldav_lm));
    match resolve_lww(make_entry(task_after, vtodo_after), now) {
        PlannedOp::Skip { reason: SkipReason::Identical, .. } => {}
        other => panic!("sync 2 (regression): expected Skip(Identical) after CalDAV-wins resync, got {:?}", other),
    }
}

#[test]
fn status_normalization_identical() {
    let uuid = new_uuid();
    let ts = t(2026, 2, 1, 10, 0, 0);
    let task = make_tw_task(uuid, "My task", ts);
    let vtodo = make_vtodo(&uid_text(uuid), "My task", "NEEDS-ACTION", Some(ts));
    match resolve_lww(make_entry(task, vtodo), t(2026, 2, 2, 0, 0, 0)) {
        PlannedOp::Skip { reason: SkipReason::Identical, .. } => {}
        other => panic!("expected Skip(Identical) for status normalization, got {:?}", other),
    }
}

#[test]
fn no_last_modified_no_dtstamp_tw_wins_tiebreaker() {
    let uuid = new_uuid();
    let task = make_tw_task(uuid, "Task content", t(2026, 2, 1, 8, 0, 0));
    let vtodo = make_vtodo(&uid_text(uuid), "Different CalDAV content", "NEEDS-ACTION", None);
    match resolve_lww(make_entry(task, vtodo), t(2026, 2, 2, 0, 0, 0)) {
        PlannedOp::ResolveConflict { winner, reason, .. } => {
            assert!(matches!(winner, Side::Tw), "TW should win via tiebreaker when no CalDAV timestamps");
            assert!(matches!(reason, UpdateReason::LwwTwWins));
        }
        other => panic!("expected TW wins (no CalDAV timestamps), got {:?}", other),
    }
}

#[test]
fn no_last_modified_dtstamp_fallback_caldav_wins() {
    let uuid = new_uuid();
    let task = make_tw_task(uuid, "Task content", t(2026, 2, 1, 8, 0, 0));
    let mut vtodo = make_vtodo(&uid_text(uuid), "Updated CalDAV content", "NEEDS-ACTION", None);
    vtodo.dtstamp = Some(t(2026, 2, 1, 11, 0, 0));
    match resolve_lww(make_entry(task, vtodo), t(2026, 2, 2, 0, 0, 0)) {
        PlannedOp::ResolveConflict { winner, reason, .. } => {
            assert!(matches!(winner, Side::CalDav), "CalDAV should win via DTSTAMP fallback");
            assert!(matches!(reason, UpdateReason::LwwCalDavWins));
        }
        other => panic!("expected CalDAV wins via DTSTAMP fallback, got {:?}", other),
    }
}

#[test]
fn tw_modified_none_falls_back_to_entry() {
    let uuid = new_uuid();
    let mut task = make_tw_task(uuid, "TW entry fallback task", 0);
    task.entry = t(2026, 1, 1, 9, 0, 0);
    task.modified = None;
    let vtodo = make_vtodo(&uid_text(uuid), "CalDAV content", "NEEDS-ACTION", Some(t(2026, 1, 1, 8, 0, 0)));
    match resolve_lww(make_entry(task, vtodo), t(2026, 2, 2, 0, 0, 0)) {
        PlannedOp::ResolveConflict { winner, reason, .. } => {
            assert!(matches!(winner, Side::Tw), "TW should win when modified=None and entry > LAST-MODIFIED");
            assert!(matches!(reason, UpdateReason::LwwTwWins));
        }
        other => panic!("expected TW wins via entry fallback, got {:?}", other),
    }
}

#[test]
fn identical_content_skips_even_when_tw_newer() {
    let uuid = new_uuid();
    let task = make_tw_task(uuid, "Identical content", t(2026, 2, 1, 12, 0, 0));
    let vtodo = make_vtodo(&uid_text(uuid), "Identical content", "NEEDS-ACTION", Some(t(2026, 2, 1, 9, 0, 0)));
    match resolve_lww(make_entry(task, vtodo), t(2026, 2, 2, 0, 0, 0)) {
        PlannedOp::Skip { reason: SkipReason::Identical, .. } => {}
        other => panic!("expected Skip(Identical) — content check must come before timestamps, got {:?}", other),
    }
}

#[test]
fn status_words_normalize_across_systems() {
    assert_eq!(normalize_status("NEEDS-ACTION"), "pending");
    assert_eq!(normalize_status("in-process"), "pending");
    assert_eq!(normalize_status("Waiting"), "pending");
    assert_eq!(normalize_status("COMPLETED"), "completed");
    assert_eq!(normalize_status("canceled"), "deleted");
    assert_eq!(normalize_status("CANCELLED"), "deleted");
    assert_eq!(normalize_status("deleted"), "deleted");
    assert_eq!(normalize_status("Recurring"), "recurring");
}

#[test]
fn multisets_ignore_order_but_count_repeats() {
    let a = vec!["x".to_string(), "y".to_string(), "x".to_string()];
    let b = vec!["x".to_string(), "x".to_string(), "y".to_string()];
    let c = vec!["x".to_string(), "y".to_string(), "y".to_string()];
    assert!(same_multiset(&a, &b));
    assert!(!same_multiset(&a, &c));
    assert!(!same_multiset(&a, &vec!["x".to_string(), "y".to_string()]));
}

#[test]
fn content_differs_on_each_tracked_field() {
    let uuid = new_uuid();
    let ts = t(2026, 2, 1, 10, 0, 0);
    let now = t(2026, 2, 2, 0, 0, 0);
    let base = || make_entry(make_tw_task(uuid, "Same", ts), make_vtodo(&uid_text(uuid), "Same", "NEEDS-ACTION", Some(ts)));
    assert!(content_identical(&base(), now));
    let mut e = base();
    e.tw_task.as_mut().unwrap().due = Some(ts);
    assert!(!content_identical(&e, now));
    let mut e = base();
    e.fetched_vtodo.as_mut().unwrap().vtodo.priority = Some(1);
    assert!(!content_identical(&e, now));
    e.tw_task.as_mut().unwrap().priority = Some("H".to_string());
    assert!(content_identical(&e, now));
    let mut e = base();
    e.tw_task.as_mut().unwrap().tags = Some(vec!["b".to_string(), "a".to_string()]);
    e.fetched_vtodo.as_mut().unwrap().vtodo.categories = vec!["a".to_string(), "b".to_string()];
    assert!(content_identical(&e, now));
    let mut e = base();
    e.tw_task.as_mut().unwrap().status = "completed".to_string();
    assert!(!content_identical(&e, now));
}

#[test]
fn vtodo_written_for_a_task_is_a_stable_point() {
    let now = t(2026, 3, 1, 0, 0, 0);
    let mut task = make_tw_task(new_uuid(), "Write report", t(2026, 2, 1, 0, 0, 0));
    task.status = "completed".to_string();
    task.end = Some(t(2026, 2, 20, 8, 0, 0));
    task.due = Some(t(2026, 3, 10, 9, 0, 0));
    task.wait = Some(t(2026, 3, 5, 0, 0, 0));
    task.priority = Some("M".to_string());
    task.tags = Some(vec!["work".to_string(), "q1".to_string()]);
    task.annotations = vec![TwAnnotation { entry: t(2026, 1, 2, 0, 0, 0), description: "first note".to_string() }];
    let old = make_vtodo("uid-stable", "Old", "NEEDS-ACTION", Some(t(2026, 1, 1, 0, 0, 0)));
    let mut entry = make_entry(task.clone(), old);
    entry.resolved_depends = vec!["dep-uid-1".to_string()];
    let written = build_vtodo_from_tw(&entry, &task, now);
    let fetched = FetchedVTODO { href: "/uid-stable.ics".to_string(), etag: None, vtodo: written };
    let mut paired = entry.clone();
    paired.fetched_vtodo = Some(fetched);
    assert!(content_identical(&paired, now));
    match resolve_lww(paired, now) {
        PlannedOp::Skip { reason: SkipReason::Identical, .. } => {}
        other => panic!("expected an identical skip, got {:?}", other),
    }
}

#[test]
fn cancelled_vtodo_is_never_imported() {
    let now = t(2026, 3, 1, 0, 0, 0);
    for tw_status in ["pending", "completed", "deleted", "waiting"] {
        let mut task = make_tw_task(new_uuid(), "Task", t(2026, 1, 1, 0, 0, 0));
        task.status = tw_status.to_string();
        let vtodo = make_vtodo("uid-c", "Task", "CANCELLED", Some(t(2026, 2, 1, 0, 0, 0)));
        let entry = make_entry(task, vtodo);
        match decide_op(&entry, now) {
            Some(PlannedOp::Skip { .. }) => {}
            other => panic!("status {}: expected a skip, got {:?}", tw_status, other),
        }
    }
}

#[test]
fn deleted_task_is_not_resurrected_by_newer_caldav() {
    let now = t(2026, 3, 1, 0, 0, 0);
    let mut task = make_tw_task(new_uuid(), "Task", t(2026, 1, 1, 0, 0, 0));
    task.status = "deleted".to_string();
    let vtodo = make_vtodo("uid-d", "Changed on CalDAV", "NEEDS-ACTION", Some(t(2026, 2, 20, 0, 0, 0)));
    let entry = make_entry(task, vtodo);
    match decide_op(&entry, now) {
        Some(PlannedOp::ResolveConflict { winner: Side::Tw, reason: UpdateReason::TwDeletedMarkCancelled, .. }) => {}
        other => panic!("expected TW to win with a cancellation, got {:?}", other),
    }
}

#[test]
fn task_written_from_caldav_is_a_stable_point() {
    let now = t(2026, 3, 1, 0, 0, 0);
    let mut task = make_tw_task(new_uuid(), "Old title", t(2026, 1, 1, 0, 0, 0));
    task.tags = Some(vec!["home".to_string()]);
    let mut vtodo = make_vtodo("uid-cw", "New title from phone", "IN-PROCESS", Some(t(2026, 2, 15, 0, 0, 0)));
    vtodo.description = Some("call the plumber".to_string());
    vtodo.priority = Some(1);
    vtodo.due = Some(t(2026, 3, 3, 12, 0, 0));
    vtodo.categories = vec!["home".to_string()];
    let entry = make_entry(task, vtodo);
    let written = build_tw_task_from_caldav(&entry, &vec![], now);
    assert_eq!(written.description, "New title from phone");
    assert_eq!(written.status, "pending");
    assert_eq!(written.priority.as_deref(), Some("H"));
    let mut paired = entry.clone();
    paired.tw_task = Some(written);
    assert!(content_identical(&paired, now));
}
