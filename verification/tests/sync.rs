use std::cell::RefCell;

use caldawarrior::caldav_adapter::{CalDavCall, CalDavClient, CalDavLog};
use caldawarrior::config::{CalendarEntry, Config};
use caldawarrior::error::CaldaWarriorError;
use caldawarrior::sync::run_sync;
use caldawarrior::tw_adapter::{TwLog, TwWriter};
use caldawarrior::types::{FetchedVTODO, TWTask};
use chrono::{TimeZone, Utc};
use uuid::Uuid;

fn t(y: i32, mo: u32, d: u32, h: u32, mi: u32, s: u32) -> i64 {
    Utc.with_ymd_and_hms(y, mo, d, h, mi, s).unwrap().timestamp()
}

#[derive(Default)]
struct FakeCalDav {
    calls: RefCell<Vec<CalDavCall>>,
}

impl CalDavClient for FakeCalDav {
    fn list_vtodos(&self, calendar_url: &str) -> Result<Vec<FetchedVTODO>, CaldaWarriorError> {
        self.calls.borrow_mut().push(CalDavCall::List(calendar_url.to_string()));
        Ok(vec![])
    }

    fn put_vtodo(&self, href: &str, _ical_content: &str, etag: Option<&str>) -> Result<Option<String>, CaldaWarriorError> {
        self.calls.borrow_mut().push(CalDavCall::Put { href: href.to_string(), etag: etag.map(|e| e.to_string()) });
        Ok(None)
    }

    fn delete_vtodo(&self, href: &str, etag: Option<&str>) -> Result<(), CaldaWarriorError> {
        self.calls.borrow_mut().push(CalDavCall::Delete { href: href.to_string(), etag: etag.map(|e| e.to_string()) });
        Ok(())
    }
}

#[derive(Default)]
struct FakeTw {
    writes: RefCell<usize>,
}

impl TwWriter for FakeTw {
    fn create(&self, _task: &TWTask) -> Result<(), CaldaWarriorError> {
        *self.writes.borrow_mut() += 1;
        Ok(())
    }

    fn update(&self, _task: &TWTask) -> Result<(), CaldaWarriorError> {
        *self.writes.borrow_mut() += 1;
        Ok(())
    }

    fn delete(&self, _uuid: u128) -> Result<(), CaldaWarriorError> {
        *self.writes.borrow_mut() += 1;
        Ok(())
    }
}

fn make_config() -> Config {
    Config {
        server_url: "https://dav.example.com".to_string(),
        username: "alice".to_string(),
        password: "secret".to_string(),
        completed_cutoff_days: 90,
        allow_insecure_tls: false,
        caldav_timeout_seconds: 30,
        calendars: vec![CalendarEntry { project: "default".to_string(), url: "https://dav.example.com/cal/".to_string() }],
    }
}

fn make_tw_task(uuid: u128) -> TWTask {
    TWTask {
        uuid,
        status: "pending".to_string(),
        description: "Test task".to_string(),
        entry: t(2026, 1, 1, 0, 0, 0),
        modified: Some(t(2026, 2, 1, 10, 0, 0)),
        due: None,
        scheduled: None,
        wait: None,
        until: None,
        end: None,
        caldavuid: None,
        priority: None,
        project: None,
        tags: None,
        recur: None,
        urgency: None,
        id: None,
        depends: vec![],
        annotations: vec![],
    }
}

#[test]
fn full_sync_tw_only_pushes_to_caldav() {
    let uuid = Uuid::new_v4().as_u128();
    let config = make_config();
    let tasks = vec![make_tw_task(uuid)];
    let tw = FakeTw::default();
    let caldav = FakeCalDav::default();
    let result = run_sync(&tasks, &vec![], &config, &mut TwLog::new(&tw), &mut CalDavLog::new(&caldav), false, false, t(2026, 2, 2, 0, 0, 0));
    assert_eq!(result.written_caldav, 1, "TW-only task must be pushed to CalDAV");
    assert_eq!(result.written_tw, 1, "TW task must be updated with caldavuid");
    assert!(result.errors.is_empty(), "no errors expected: {:?}", result.errors);
    let calls = caldav.calls.borrow();
    assert!(calls.iter().any(|c| matches!(c, CalDavCall::Put { .. })));
}

#[test]
fn full_sync_dry_run_does_not_write() {
    let uuid = Uuid::new_v4().as_u128();
    let config = make_config();
    let tasks = vec![make_tw_task(uuid)];
    let tw = FakeTw::default();
    let caldav = FakeCalDav::default();
    let result = run_sync(&tasks, &vec![], &config, &mut TwLog::new(&tw), &mut CalDavLog::new(&caldav), true, false, t(2026, 2, 2, 0, 0, 0));
    assert!(caldav.calls.borrow().is_empty(), "dry_run must not make real CalDAV calls");
    assert_eq!(*tw.writes.borrow(), 0, "dry_run must not write to TW");
    assert_eq!(result.written_caldav, 1, "dry_run counts operations without executing");
}

#[test]
fn full_sync_collects_warnings_from_all_steps() {
    let config = Config { calendars: vec![], ..make_config() };
    let uuid = Uuid::new_v4().as_u128();
    let tasks = vec![make_tw_task(uuid)];
    let tw = FakeTw::default();
    let caldav = FakeCalDav::default();
    let result = run_sync(&tasks, &vec![], &config, &mut TwLog::new(&tw), &mut CalDavLog::new(&caldav), true, false, t(2026, 2, 2, 0, 0, 0));
    assert!(
        result.warnings.iter().any(|w| w.message.contains("UnmappedProject")),
        "expected UnmappedProject warning in result: {:?}",
        result.warnings
    );
}

#[test]
fn full_sync_three_steps_run_in_order() {
    let uuid_a = Uuid::new_v4().as_u128();
    let uuid_b = Uuid::new_v4().as_u128();
    let config = make_config();
    let mut task_a = make_tw_task(uuid_a);
    task_a.depends = vec![uuid_b];
    let task_b = make_tw_task(uuid_b);
    let tasks = vec![task_a, task_b];
    let tw = FakeTw::default();
    let caldav = FakeCalDav::default();
    let result = run_sync(&tasks, &vec![], &config, &mut TwLog::new(&tw), &mut CalDavLog::new(&caldav), false, false, t(2026, 2, 2, 0, 0, 0));
    assert_eq!(result.written_caldav, 2, "both TW-only tasks pushed");
    assert!(result.errors.is_empty(), "no errors: {:?}", result.errors);
    let dep_warnings: Vec<_> = result.warnings.iter().filter(|w| w.message.contains("UnresolvableDependency")).collect();
    assert!(dep_warnings.is_empty(), "no dep warnings expected: {:?}", dep_warnings);
}

#[test]
fn unresolvable_dependency_is_warned() {
    let uuid_a = Uuid::new_v4().as_u128();
    let missing = Uuid::new_v4().as_u128();
    let mut task_a = make_tw_task(uuid_a);
    task_a.depends = vec![missing];
    let tw = FakeTw::default();
    let caldav = FakeCalDav::default();
    let result = run_sync(&vec![task_a], &vec![], &make_config(), &mut TwLog::new(&tw), &mut CalDavLog::new(&caldav), true, false, t(2026, 2, 2, 0, 0, 0));
    assert!(
        result.warnings.iter().any(|w| w.message.contains("UnresolvableDependency")),
        "expected UnresolvableDependency warning: {:?}",
        result.warnings
    );
}

#[test]
fn old_unsynced_completed_tasks_are_left_out() {
    let now = t(2026, 6, 1, 0, 0, 0);
    let mut old = make_tw_task(Uuid::new_v4().as_u128());
    old.status = "completed".to_string();
    old.end = Some(now - 200 * 86400);
    let mut recent = make_tw_task(Uuid::new_v4().as_u128());
    recent.status = "completed".to_string();
    recent.end = Some(now - 10 * 86400);
    let mut no_end = make_tw_task(Uuid::new_v4().as_u128());
    no_end.status = "deleted".to_string();
    let tw = FakeTw::default();
    let caldav = FakeCalDav::default();
    let result = run_sync(&vec![old, recent, no_end], &vec![], &make_config(), &mut TwLog::new(&tw), &mut CalDavLog::new(&caldav), true, false, now);
    assert_eq!(result.planned_ops.len(), 1, "only the recent completed task is planned: {:?}", result.planned_ops);
}
