use std::cell::RefCell;

use caldawarrior::caldav_adapter::{CalDavCall, CalDavClient, CalDavLog};
use caldawarrior::error::CaldaWarriorError;
use caldawarrior::sync::plan::{build_tw_task_from_caldav, build_vtodo_from_tw};
use caldawarrior::sync::writeback::{apply_writeback, MAX_ETAG_RETRIES};
use caldawarrior::tw_adapter::{TwLog, TwWriter};
use caldawarrior::types::{FetchedVTODO, IREntry, PlannedOp, TWTask, VTODO};
use chrono::{TimeZone, Utc};
use uuid::Uuid;

fn t(y: i32, mo: u32, d: u32, h: u32, mi: u32, s: u32) -> i64 {
    Utc.with_ymd_and_hms(y, mo, d, h, mi, s).unwrap().timestamp()
}

#[derive(Default)]
struct FakeCalDav {
    calls: RefCell<Vec<CalDavCall>>,
    put_responses: RefCell<Vec<Result<Option<String>, CaldaWarriorError>>>,
    delete_responses: RefCell<Vec<Result<(), CaldaWarriorError>>>,
    contents: RefCell<Vec<String>>,
}

impl CalDavClient for FakeCalDav {
    fn list_vtodos(&self, calendar_url: &str) -> Result<Vec<FetchedVTODO>, CaldaWarriorError> {
        self.calls.borrow_mut().push(CalDavCall::List(calendar_url.to_string()));
        Ok(vec![])
    }

    fn put_vtodo(&self, href: &str, ical_content: &str, etag: Option<&str>) -> Result<Option<String>, CaldaWarriorError> {
        self.calls.borrow_mut().push(CalDavCall::Put { href: href.to_string(), etag: etag.map(|e| e.to_string()) });
        self.contents.borrow_mut().push(ical_content.to_string());
        let mut r = self.put_responses.borrow_mut();
        if r.is_empty() {
            Ok(None)
        } else {
            r.remove(0)
        }
    }

    fn delete_vtodo(&self, href: &str, etag: Option<&str>) -> Result<(), CaldaWarriorError> {
        self.calls.borrow_mut().push(CalDavCall::Delete { href: href.to_string(), etag: etag.map(|e| e.to_string()) });
        let mut r = self.delete_responses.borrow_mut();
        if r.is_empty() {
            Ok(())
        } else {
            r.remove(0)
        }
    }
}

#[derive(Debug, PartialEq)]
enum TwOp {
    Create(u128),
    Update(u128, Option<String>),
    Delete(u128),
}

#[derive(Default)]
struct FakeTw {
    ops: RefCell<Vec<TwOp>>,
    fail_with: RefCell<Option<CaldaWarriorError>>,
}

impl FakeTw {
    fn outcome(&self) -> Result<(), CaldaWarriorError> {
        match self.fail_with.borrow_mut().take() {
            Some(e) => Err(e),
            None => Ok(()),
        }
    }
}

impl TwWriter for FakeTw {
    fn create(&self, task: &TWTask) -> Result<(), CaldaWarriorError> {
        self.ops.borrow_mut().push(TwOp::Create(task.uuid));
        self.outcome()
    }

    fn update(&self, task: &TWTask) -> Result<(), CaldaWarriorError> {
        self.ops.borrow_mut().push(TwOp::Update(task.uuid, task.caldavuid.clone()));
        self.outcome()
    }

    fn delete(&self, uuid: u128) -> Result<(), CaldaWarriorError> {
        self.ops.borrow_mut().push(TwOp::Delete(uuid));
        self.outcome()
    }
}

fn make_tw_task(uuid: u128, status: &str, description: &str, modified: i64) -> TWTask {
    TWTask {
        uuid,
        status: status.to_string(),
        description: description.to_string(),
        entry: t(2026, 1, 1, 0, 0, 0),
        modified: Some(modified),
        due: None,
        scheduled: None,
        wait: None,
        until: None,
        end: None,
        caldavuid: None,
        priority: None,
        project: None,
        tags: None,
        recur: None,
        urgency: None,
        id: None,
        depends: vec![],
        annotations: vec![],
    }
}

fn make_vtodo(uid: &str, status: &str, last_modified: i64) -> VTODO {
    VTODO {
        uid: uid.to_string(),
        summary: Some("Task".to_string()),
        description: None,
        status: Some(status.to_string()),
        last_modified: Some(last_modified),
        ..Default::default()
    }
}

fn make_paired_entry(uuid: u128, caldav_uid: &str, tw_status: &str, tw_modified: i64, caldav_status: &str, caldav_lm: i64) -> IREntry {
    let vtodo = make_vtodo(caldav_uid, caldav_status, caldav_lm);
    IREntry {
        tw_uuid: Some(uuid),
        caldav_uid: Some(caldav_uid.to_string()),
        tw_task: Some(make_tw_task(uuid, tw_status, "Task", tw_modified)),
        fetched_vtodo: Some(FetchedVTODO { href: format!("/{}.ics", caldav_uid), etag: Some("\"etag1\"".to_string()), vtodo }),
        resolved_depends: vec![],
        cyclic: false,
        calendar_url: Some("https://dav.example.com/cal/".to_string()),
        dirty_tw: false,
        dirty_caldav: false,
        project: None,
    }
}

fn make_tw_only_entry(uuid: u128, caldav_uid: &str, status: &str) -> IREntry {
    let mut task = make_tw_task(uuid, status, "TW-only task", t(2026, 2, 1, 10, 0, 0));
    task.caldavuid = None;
    IREntry {
        tw_uuid: Some(uuid),
        caldav_uid: Some(caldav_uid.to_string()),
        tw_task: Some(task),
        fetched_vtodo: None,
        resolved_depends: vec![],
        cyclic: false,
        calendar_url: Some("https://dav.example.com/cal/".to_string()),
        dirty_tw: false,
        dirty_caldav: false,
        project: None,
    }
}

fn make_caldav_only_entry(caldav_uid: &str, status: &str, tw_uuid: Option<u128>) -> IREntry {
    IREntry {
        tw_uuid,
        caldav_uid: Some(caldav_uid.to_string()),
        tw_task: None,
        fetched_vtodo: Some(FetchedVTODO {
            href: format!("/{}.ics", caldav_uid),
            etag: Some("\"etag2\"".to_string()),
            vtodo: make_vtodo(caldav_uid, status, t(2026, 2, 1, 8, 0, 0)),
        }),
        resolved_depends: vec![],
        cyclic: false,
        calendar_url: Some("https://dav.example.com/cal/".to_string()),
        dirty_tw: false,
        dirty_caldav: false,
        project: None,
    }
}

fn new_uuid() -> u128 {
    Uuid::new_v4().as_u128()
}

fn new_uid() -> String {
    Uuid::new_v4().to_string()
}

fn has_put(c: &FakeCalDav) -> bool {
    c.calls.borrow().iter().any(|c| matches!(c, CalDavCall::Put { .. }))
}

#[test]
fn build_vtodo_from_tw_uses_summary_not_description() {
    let mut entry = make_tw_only_entry(new_uuid(), &new_uid(), "pending");
    let tw = entry.tw_task.as_mut().unwrap();
    tw.description = "Buy milk".to_string();
    tw.annotations = vec![];
    let tw_snapshot = entry.tw_task.clone().unwrap();
    let vtodo = build_vtodo_from_tw(&entry, &tw_snapshot, t(2026, 2, 2, 0, 0, 0));
    assert_eq!(vtodo.summary, Some("Buy milk".to_string()));
    assert!(vtodo.description.is_none(), "no annotations → DESCRIPTION must be None");
}

#[test]
fn build_tw_task_caldav_only_injects_project() {
    let mut entry = make_caldav_only_entry(&new_uid(), "NEEDS-ACTION", Some(new_uuid()));
    entry.project = Some("work".to_string());
    if let Some(ref mut fv) = entry.fetched_vtodo {
        fv.vtodo.summary = Some("A task".to_string());
    }
    let tw_task = build_tw_task_from_caldav(&entry, &Vec::new(), t(2026, 2, 2, 0, 0, 0));
    assert_eq!(tw_task.project, Some("work".to_string()));
}

#[test]
fn build_tw_task_reads_summary_as_description() {
    let mut entry = make_caldav_only_entry(&new_uid(), "NEEDS-ACTION", Some(new_uuid()));
    if let Some(ref mut fv) = entry.fetched_vtodo {
        fv.vtodo.summary = Some("X".to_string());
    }
    let tw_task = build_tw_task_from_caldav(&entry, &Vec::new(), t(2026, 2, 2, 0, 0, 0));
    assert_eq!(tw_task.description, "X");
}

#[test]
fn build_tw_task_takes_tags_from_categories() {
    let mut entry = make_caldav_only_entry(&new_uid(), "NEEDS-ACTION", Some(new_uuid()));
    if let Some(ref mut fv) = entry.fetched_vtodo {
        fv.vtodo.summary = Some("Tagged".to_string());
        fv.vtodo.categories = vec!["work".to_string(), "Smith, John".to_string()];
    }
    let tw_task = build_tw_task_from_caldav(&entry, &Vec::new(), t(2026, 2, 2, 0, 0, 0));
    assert_eq!(tw_task.tags, Some(vec!["work".to_string(), "Smith, John".to_string()]));
}

#[test]
fn build_tw_task_without_categories_has_no_tags() {
    let mut entry = make_tw_only_entry(new_uuid(), &new_uid(), "pending");
    entry.tw_task.as_mut().unwrap().tags = Some(vec!["old".to_string()]);
    let other = make_caldav_only_entry(&new_uid(), "NEEDS-ACTION", Some(new_uuid()));
    entry.fetched_vtodo = other.fetched_vtodo;
    let tw_task = build_tw_task_from_caldav(&entry, &Vec::new(), t(2026, 2, 2, 0, 0, 0));
    assert_eq!(tw_task.tags, None);
}

#[test]
fn tw_only_pending_pushes_to_caldav() {
    let uuid = new_uuid();
    let uid = new_uid();
    let mut ir = vec![make_tw_only_entry(uuid, &uid, "pending")];
    let tw = FakeTw::default();
    let caldav = FakeCalDav::default();
    let result = apply_writeback(&mut ir, &mut TwLog::new(&tw), &mut CalDavLog::new(&caldav), false, false, t(2026, 2, 2, 0, 0, 0));
    assert_eq!(result.written_caldav, 1);
    assert!(has_put(&caldav));
    assert_eq!(*tw.ops.borrow(), vec![TwOp::Update(uuid, Some(uid.clone()))]);
    assert_eq!(result.written_tw, 1);
    let calls = caldav.calls.borrow();
    match &calls[0] {
        CalDavCall::Put { href, etag } => {
            assert_eq!(href, &format!("https://dav.example.com/cal/{}.ics", uid));
            assert!(etag.is_none());
        }
        other => panic!("unexpected call {:?}", other),
    }
}

#[test]
fn pushed_vtodo_is_stored_in_the_entry() {
    let uuid = new_uuid();
    let uid = new_uid();
    let mut ir = vec![make_tw_only_entry(uuid, &uid, "pending")];
    ir[0].tw_task.as_mut().unwrap().description = "Write report".to_string();
    let tw = FakeTw::default();
    let caldav = FakeCalDav::default();
    caldav.put_responses.borrow_mut().push(Ok(Some("\"e1\"".to_string())));
    let result = apply_writeback(&mut ir, &mut TwLog::new(&tw), &mut CalDavLog::new(&caldav), false, false, t(2026, 2, 2, 0, 0, 0));
    assert!(result.errors.is_empty());
    let fv = ir[0].fetched_vtodo.as_ref().expect("the written VTODO is stored");
    assert_eq!(fv.href, format!("https://dav.example.com/cal/{}.ics", uid));
    assert_eq!(fv.etag.as_deref(), Some("\"e1\""));
    assert_eq!(fv.vtodo.uid, uid);
    assert_eq!(fv.vtodo.summary.as_deref(), Some("Write report"));
    assert_eq!(ir[0].tw_task.as_ref().unwrap().caldavuid.as_deref(), Some(uid.as_str()));
    assert!(caldav.contents.borrow()[0].contains(&format!("UID:{}", uid)));
}

#[test]
fn tw_only_deleted_skips_without_write() {
    let mut ir = vec![make_tw_only_entry(new_uuid(), &new_uid(), "deleted")];
    let tw = FakeTw::default();
    let caldav = FakeCalDav::default();
    let result = apply_writeback(&mut ir, &mut TwLog::new(&tw), &mut CalDavLog::new(&caldav), false, false, t(2026, 2, 2, 0, 0, 0));
    assert_eq!(result.skipped, 1);
    assert_eq!(result.written_caldav, 0);
}

#[test]
fn caldav_only_needs_action_creates_tw_task() {
    let uuid = new_uuid();
    let mut ir = vec![make_caldav_only_entry(&new_uid(), "NEEDS-ACTION", Some(uuid))];
    let tw = FakeTw::default();
    let caldav = FakeCalDav::default();
    let result = apply_writeback(&mut ir, &mut TwLog::new(&tw), &mut CalDavLog::new(&caldav), false, false, t(2026, 2, 2, 0, 0, 0));
    assert_eq!(result.written_tw, 1, "CalDAV-only NEEDS-ACTION must call tw.create()");
    assert_eq!(result.written_caldav, 0);
    assert_eq!(*tw.ops.borrow(), vec![TwOp::Create(uuid)]);
}

#[test]
fn caldav_only_completed_silently_skipped() {
    let mut ir = vec![make_caldav_only_entry(&new_uid(), "COMPLETED", None)];
    let tw = FakeTw::default();
    let caldav = FakeCalDav::default();
    let result = apply_writeback(&mut ir, &mut TwLog::new(&tw), &mut CalDavLog::new(&caldav), false, false, t(2026, 2, 2, 0, 0, 0));
    assert_eq!(result.skipped, 1);
    assert_eq!(result.written_tw, 0);
}

#[test]
fn paired_tw_wins_pushes_to_caldav() {
    let uid = new_uid();
    let mut entry = make_paired_entry(new_uuid(), &uid, "pending", t(2026, 2, 1, 11, 0, 0), "NEEDS-ACTION", t(2026, 2, 1, 9, 0, 0));
    if let Some(ref mut fv) = entry.fetched_vtodo {
        fv.vtodo.summary = Some("Old summary".to_string());
        fv.vtodo.description = Some("Old summary".to_string());
    }
    let mut ir = vec![entry];
    let tw = FakeTw::default();
    let caldav = FakeCalDav::default();
    let result = apply_writeback(&mut ir, &mut TwLog::new(&tw), &mut CalDavLog::new(&caldav), false, false, t(2026, 2, 2, 0, 0, 0));
    assert_eq!(result.written_caldav, 1);
    let calls = caldav.calls.borrow();
    match &calls[0] {
        CalDavCall::Put { href, etag } => {
            assert_eq!(href, &format!("/{}.ics", uid));
            assert_eq!(etag.as_deref(), Some("\"etag1\""));
        }
        other => panic!("unexpected call {:?}", other),
    }
}

#[test]
fn paired_caldav_wins_updates_tw() {
    let uuid = new_uuid();
    let mut entry = make_paired_entry(uuid, &new_uid(), "pending", t(2026, 2, 1, 8, 0, 0), "NEEDS-ACTION", t(2026, 2, 1, 11, 0, 0));
    if let Some(ref mut fv) = entry.fetched_vtodo {
        fv.vtodo.summary = Some("Updated CalDAV task".to_string());
        fv.vtodo.description = Some("Updated CalDAV task".to_string());
    }
    let mut ir = vec![entry];
    let tw = FakeTw::default();
    let caldav = FakeCalDav::default();
    let result = apply_writeback(&mut ir, &mut TwLog::new(&tw), &mut CalDavLog::new(&caldav), false, false, t(2026, 2, 2, 0, 0, 0));
    assert_eq!(result.written_tw, 1);
    assert_eq!(result.written_caldav, 0);
    assert!(matches!(tw.ops.borrow()[0], TwOp::Update(u, _) if u == uuid));
}

#[test]
fn paired_identical_skips() {
    let ts = t(2026, 2, 1, 10, 0, 0);
    let mut ir = vec![make_paired_entry(new_uuid(), &new_uid(), "pending", ts, "NEEDS-ACTION", ts)];
    let tw = FakeTw::default();
    let caldav = FakeCalDav::default();
    let result = apply_writeback(&mut ir, &mut TwLog::new(&tw), &mut CalDavLog::new(&caldav), false, false, t(2026, 2, 2, 0, 0, 0));
    assert_eq!(result.skipped, 1);
    assert_eq!(result.written_caldav, 0);
    assert_eq!(result.written_tw, 0);
}

#[test]
fn etag_conflict_retries_and_exhausts() {
    let uid = new_uid();
    let mut entry = make_paired_entry(new_uuid(), &uid, "pending", t(2026, 2, 1, 11, 0, 0), "NEEDS-ACTION", t(2026, 2, 1, 9, 0, 0));
    if let Some(ref mut fv) = entry.fetched_vtodo {
        fv.vtodo.summary = Some("Old".to_string());
        fv.vtodo.description = Some("Old".to_string());
    }
    let mut ir = vec![entry];
    let tw = FakeTw::default();
    let caldav = FakeCalDav::default();
    let refetched = FetchedVTODO {
        href: format!("/{}.ics", uid),
        etag: Some("\"new-etag\"".to_string()),
        vtodo: {
            let mut v = make_vtodo(&uid, "NEEDS-ACTION", t(2026, 2, 1, 9, 0, 0));
            v.summary = Some("Old".to_string());
            v.description = Some("Old".to_string());
            v
        },
    };
    for _ in 0..MAX_ETAG_RETRIES {
        caldav.put_responses.borrow_mut().push(Err(CaldaWarriorError::EtagConflict { refetched_vtodo: refetched.clone() }));
    }
    let result = apply_writeback(&mut ir, &mut TwLog::new(&tw), &mut CalDavLog::new(&caldav), false, false, t(2026, 2, 2, 0, 0, 0));
    assert_eq!(result.written_caldav, 0);
    assert_eq!(result.errors.len(), 1, "one SyncConflict error after retry exhaustion");
    assert!(result.errors[0].contains("SyncConflict") || result.errors[0].contains("ETag"));
    assert_eq!(result.planned_ops.len(), 1, "the planned op is recorded once");
    assert_eq!(caldav.calls.borrow().len(), MAX_ETAG_RETRIES);
    let calls = caldav.calls.borrow();
    match &calls[1] {
        CalDavCall::Put { etag, .. } => assert_eq!(etag.as_deref(), Some("\"new-etag\"")),
        other => panic!("unexpected call {:?}", other),
    }
}

#[test]
fn etag_conflict_then_success_writes_once() {
    let uid = new_uid();
    let mut entry = make_paired_entry(new_uuid(), &uid, "pending", t(2026, 2, 1, 11, 0, 0), "NEEDS-ACTION", t(2026, 2, 1, 9, 0, 0));
    if let Some(ref mut fv) = entry.fetched_vtodo {
        fv.vtodo.summary = Some("Old".to_string());
    }
    let refetched = entry.fetched_vtodo.clone().unwrap();
    let mut ir = vec![entry];
    let tw = FakeTw::default();
    let caldav = FakeCalDav::default();
    caldav.put_responses.borrow_mut().push(Err(CaldaWarriorError::EtagConflict { refetched_vtodo: refetched }));
    caldav.put_responses.borrow_mut().push(Ok(Some("\"e2\"".to_string())));
    let result = apply_writeback(&mut ir, &mut TwLog::new(&tw), &mut CalDavLog::new(&caldav), false, false, t(2026, 2, 2, 0, 0, 0));
    assert_eq!(result.written_caldav, 1);
    assert!(result.errors.is_empty());
    assert_eq!(ir[0].fetched_vtodo.as_ref().unwrap().etag.as_deref(), Some("\"e2\""));
}

#[test]
fn dry_run_does_not_write() {
    let mut ir = vec![make_tw_only_entry(new_uuid(), &new_uid(), "pending")];
    let tw = FakeTw::default();
    let caldav = FakeCalDav::default();
    let result = apply_writeback(&mut ir, &mut TwLog::new(&tw), &mut CalDavLog::new(&caldav), true, false, t(2026, 2, 2, 0, 0, 0));
    assert_eq!(result.written_caldav, 1);
    assert!(caldav.calls.borrow().is_empty(), "dry_run must not make real CalDAV calls");
    assert!(tw.ops.borrow().is_empty());
    assert_eq!(result.written_tw, 0);
}

#[test]
fn orphaned_caldavuid_deletes_tw_task() {
    let uuid = new_uuid();
    let uid = new_uid();
    let mut entry = make_tw_only_entry(uuid, &uid, "pending");
    if let Some(ref mut tw) = entry.tw_task {
        tw.caldavuid = Some(uid.clone());
    }
    let mut ir = vec![entry];
    let tw = FakeTw::default();
    let caldav = FakeCalDav::default();
    let result = apply_writeback(&mut ir, &mut TwLog::new(&tw), &mut CalDavLog::new(&caldav), false, false, t(2026, 2, 2, 0, 0, 0));
    assert_eq!(result.written_tw, 1, "orphaned task should be deleted from TW");
    assert_eq!(result.written_caldav, 0, "orphaned task must NOT be pushed to CalDAV");
    assert_eq!(result.errors.len(), 0);
    assert!(caldav.calls.borrow().is_empty(), "no CalDAV calls for orphaned deletion");
    assert_eq!(*tw.ops.borrow(), vec![TwOp::Delete(uuid)]);
}

#[test]
fn tw_deleted_marks_caldav_cancelled() {
    let mut ir = vec![make_paired_entry(new_uuid(), &new_uid(), "deleted", t(2026, 2, 1, 10, 0, 0), "NEEDS-ACTION", t(2026, 2, 1, 9, 0, 0))];
    let tw = FakeTw::default();
    let caldav = FakeCalDav::default();
    let result = apply_writeback(&mut ir, &mut TwLog::new(&tw), &mut CalDavLog::new(&caldav), false, false, t(2026, 2, 2, 0, 0, 0));
    assert_eq!(result.written_caldav, 1);
    assert!(has_put(&caldav));
    assert!(caldav.contents.borrow()[0].contains("STATUS:CANCELLED"));
}

#[test]
fn cyclic_entry_synced_without_deps() {
    let mut entry = make_paired_entry(new_uuid(), &new_uid(), "pending", t(2026, 2, 1, 10, 0, 0), "NEEDS-ACTION", t(2026, 2, 1, 9, 0, 0));
    entry.cyclic = true;
    entry.resolved_depends = vec!["some-uid".to_string()];
    if let Some(ref mut fv) = entry.fetched_vtodo {
        fv.vtodo.summary = Some("Old summary".to_string());
        fv.vtodo.description = Some("Old summary".to_string());
    }
    let mut ir = vec![entry];
    let tw = FakeTw::default();
    let caldav = FakeCalDav::default();
    let result = apply_writeback(&mut ir, &mut TwLog::new(&tw), &mut CalDavLog::new(&caldav), false, false, t(2026, 2, 2, 0, 0, 0));
    assert_eq!(result.written_caldav, 1, "cyclic entry must be written to CalDAV");
    assert_eq!(result.skipped, 0, "cyclic entry must NOT be skipped");
    assert!(has_put(&caldav), "expected a Put call for the cyclic entry");
    assert!(ir[0].resolved_depends.is_empty(), "resolved_depends must be cleared for cyclic entries");
    assert!(!caldav.contents.borrow()[0].contains("RELATED-TO"));
}

#[test]
fn cyclic_tw_only_entry_pushed_without_deps() {
    let mut entry = make_tw_only_entry(new_uuid(), &new_uid(), "pending");
    entry.cyclic = true;
    entry.resolved_depends = vec!["some-uid".to_string()];
    let mut ir = vec![entry];
    let tw = FakeTw::default();
    let caldav = FakeCalDav::default();
    let result = apply_writeback(&mut ir, &mut TwLog::new(&tw), &mut CalDavLog::new(&caldav), false, false, t(2026, 2, 2, 0, 0, 0));
    assert_eq!(result.written_caldav, 1, "TW-only cyclic entry must be pushed to CalDAV");
    assert_eq!(result.skipped, 0, "TW-only cyclic entry must NOT be skipped");
    assert!(has_put(&caldav), "expected a Put call for the TW-only cyclic entry");
    assert!(ir[0].resolved_depends.is_empty(), "resolved_depends must be cleared for TW-only cyclic entries");
}

#[test]
fn non_cyclic_entry_preserves_resolved_depends() {
    let mut entry = make_paired_entry(new_uuid(), &new_uid(), "pending", t(2026, 2, 1, 11, 0, 0), "NEEDS-ACTION", t(2026, 2, 1, 9, 0, 0));
    entry.cyclic = false;
    entry.resolved_depends = vec!["dep-uid".to_string()];
    if let Some(ref mut fv) = entry.fetched_vtodo {
        fv.vtodo.summary = Some("Old summary".to_string());
        fv.vtodo.description = Some("Old summary".to_string());
    }
    let mut ir = vec![entry];
    let tw = FakeTw::default();
    let caldav = FakeCalDav::default();
    let result = apply_writeback(&mut ir, &mut TwLog::new(&tw), &mut CalDavLog::new(&caldav), false, false, t(2026, 2, 2, 0, 0, 0));
    assert_eq!(result.written_caldav, 1);
    assert!(has_put(&caldav), "expected a Put call for the non-cyclic entry");
    let vtodo = &ir[0].fetched_vtodo.as_ref().expect("should have fetched_vtodo after put").vtodo;
    assert!(!vtodo.depends.is_empty(), "non-cyclic entry must preserve RELATED-TO");
    assert_eq!(vtodo.depends[0].1, "dep-uid", "non-cyclic entry must have dep-uid in RELATED-TO");
}

#[test]
fn tw_completed_marks_caldav_completed() {
    let mut ir = vec![make_paired_entry(new_uuid(), &new_uid(), "completed", t(2026, 2, 1, 10, 0, 0), "NEEDS-ACTION", t(2026, 2, 1, 9, 0, 0))];
    let tw = FakeTw::default();
    let caldav = FakeCalDav::default();
    let result = apply_writeback(&mut ir, &mut TwLog::new(&tw), &mut CalDavLog::new(&caldav), false, false, t(2026, 2, 2, 0, 0, 0));
    assert_eq!(result.written_caldav, 1, "should PUT COMPLETED to CalDAV");
    assert_eq!(result.written_tw, 0);
    assert_eq!(result.errors.len(), 0);
    assert!(caldav.contents.borrow()[0].contains("STATUS:COMPLETED"));
}

#[test]
fn caldav_completed_updates_tw() {
    let mut ir = vec![make_paired_entry(new_uuid(), &new_uid(), "pending", t(2026, 2, 1, 8, 0, 0), "COMPLETED", t(2026, 2, 1, 10, 0, 0))];
    let tw = FakeTw::default();
    let caldav = FakeCalDav::default();
    let result = apply_writeback(&mut ir, &mut TwLog::new(&tw), &mut CalDavLog::new(&caldav), false, false, t(2026, 2, 2, 0, 0, 0));
    assert_eq!(result.written_tw, 1, "should update TW task to completed");
    assert_eq!(result.written_caldav, 0);
    assert_eq!(result.errors.len(), 0);
}

#[test]
fn test_build_vtodo_uses_tw_tags() {
    let mut entry = make_tw_only_entry(new_uuid(), &new_uid(), "pending");
    if let Some(ref mut tw) = entry.tw_task {
        tw.tags = Some(vec!["work".to_string(), "urgent".to_string()]);
    }
    let tw_snapshot = entry.tw_task.clone().unwrap();
    let vtodo = build_vtodo_from_tw(&entry, &tw_snapshot, t(2026, 2, 2, 0, 0, 0));
    assert_eq!(vtodo.categories, vec!["work", "urgent"], "VTODO categories must come from TW tags");
}

#[test]
fn test_build_vtodo_empty_tags() {
    let mut entry = make_tw_only_entry(new_uuid(), &new_uid(), "pending");
    if let Some(ref mut tw) = entry.tw_task {
        tw.tags = None;
    }
    let tw_snapshot = entry.tw_task.clone().unwrap();
    let vtodo = build_vtodo_from_tw(&entry, &tw_snapshot, t(2026, 2, 2, 0, 0, 0));
    assert!(vtodo.categories.is_empty(), "VTODO categories must be empty when TW has no tags");
}

#[test]
fn test_build_vtodo_tags_with_comma() {
    let mut entry = make_tw_only_entry(new_uuid(), &new_uid(), "pending");
    if let Some(ref mut tw) = entry.tw_task {
        tw.tags = Some(vec!["Smith, John".to_string()]);
    }
    let tw_snapshot = entry.tw_task.clone().unwrap();
    let vtodo = build_vtodo_from_tw(&entry, &tw_snapshot, t(2026, 2, 2, 0, 0, 0));
    assert_eq!(vtodo.categories, vec!["Smith, John"], "Tag with comma must be preserved as single category");
}

#[test]
fn failures_are_recorded_and_fail_fast_stops() {
    let a = new_uuid();
    let b = new_uuid();
    let mut ir = vec![make_caldav_only_entry(&new_uid(), "NEEDS-ACTION", Some(a)), make_caldav_only_entry(&new_uid(), "NEEDS-ACTION", Some(b))];
    let tw = FakeTw::default();
    *tw.fail_with.borrow_mut() = Some(CaldaWarriorError::Tw { code: 2, stderr: "boom".to_string() });
    let caldav = FakeCalDav::default();
    let result = apply_writeback(&mut ir, &mut TwLog::new(&tw), &mut CalDavLog::new(&caldav), false, true, t(2026, 2, 2, 0, 0, 0));
    assert_eq!(result.errors.len(), 1);
    assert!(result.errors[0].starts_with("TaskWarrior exited with code 2: boom (tw_uuid=Some("));
    assert!(result.errors[0].ends_with(")"));
    assert_eq!(result.planned_ops.len(), 1, "fail_fast stops after the failing entry");
    assert_eq!(tw.ops.borrow().len(), 1);
}

#[test]
fn failures_do_not_stop_the_run_without_fail_fast() {
    let mut ir = vec![make_caldav_only_entry(&new_uid(), "NEEDS-ACTION", Some(new_uuid())), make_caldav_only_entry(&new_uid(), "NEEDS-ACTION", Some(new_uuid()))];
    let tw = FakeTw::default();
    *tw.fail_with.borrow_mut() = Some(CaldaWarriorError::Tw { code: 2, stderr: "boom".to_string() });
    let caldav = FakeCalDav::default();
    let result = apply_writeback(&mut ir, &mut TwLog::new(&tw), &mut CalDavLog::new(&caldav), false, false, t(2026, 2, 2, 0, 0, 0));
    assert_eq!(result.errors.len(), 1);
    assert_eq!(result.planned_ops.len(), 2);
    assert_eq!(result.written_tw, 1);
    assert!(matches!(result.planned_ops[1], PlannedOp::PullFromCalDav(_)));
}
