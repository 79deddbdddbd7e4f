use caldawarrior::config::{validate, CalendarEntry, Config};
use caldawarrior::ir::{build_ir, resolve_calendar_url, resolve_project_from_url};
use caldawarrior::types::{FetchedVTODO, TWTask, VTODO};
use chrono::Utc;
use uuid::Uuid;

fn make_config(calendars: Vec<(&str, &str)>) -> Config {
    Config {
        server_url: "https://dav.example.com".to_string(),
        username: "alice".to_string(),
        password: "secret".to_string(),
        completed_cutoff_days: 90,
        allow_insecure_tls: false,
        caldav_timeout_seconds: 30,
        calendars: calendars
            .into_iter()
            .map(|(proj, url)| CalendarEntry { project: proj.to_string(), url: url.to_string() })
            .collect(),
    }
}

fn make_tw_task(uuid: u128, caldavuid: Option<&str>, project: Option<&str>) -> TWTask {
    TWTask {
        uuid,
        status: "pending".to_string(),
        description: format!("task-{}", Uuid::from_u128(uuid)),
        entry: Utc::now().timestamp(),
        modified: None,
        due: None,
        scheduled: None,
        wait: None,
        until: None,
        end: None,
        caldavuid: caldavuid.map(str::to_owned),
        priority: None,
        project: project.map(str::to_owned),
        tags: None,
        recur: None,
        urgency: None,
        id: None,
        depends: vec![],
        annotations: vec![],
    }
}

fn make_vtodo(uid: &str, status: Option<&str>, rrule: Option<&str>) -> FetchedVTODO {
    FetchedVTODO {
        href: format!("/{}.ics", uid),
        etag: None,
        vtodo: VTODO { uid: uid.to_string(), status: status.map(str::to_owned), rrule: rrule.map(str::to_owned), ..Default::default() },
    }
}

fn new_uuid() -> u128 {
    Uuid::new_v4().as_u128()
}

#[test]
fn tw_only_new_gets_fresh_caldav_uid() {
    let config = make_config(vec![("default", "https://dav.example.com/cal/")]);
    let uuid = new_uuid();
    let tasks = vec![make_tw_task(uuid, None, None)];
    let (entries, warnings) = build_ir(&tasks, &vec![], &config);
    assert!(warnings.is_empty());
    assert_eq!(entries.len(), 1);
    let e = &entries[0];
    assert_eq!(e.tw_uuid, Some(uuid));
    assert!(e.caldav_uid.is_some(), "fresh caldav_uid should be assigned");
    assert!(e.caldav_uid.as_ref().unwrap().parse::<Uuid>().is_ok());
    assert!(e.tw_task.is_some());
    assert!(e.fetched_vtodo.is_none());
    assert_eq!(e.calendar_url.as_deref(), Some("https://dav.example.com/cal/"));
    assert!(!e.dirty_tw);
    assert!(!e.dirty_caldav);
    assert!(!e.cyclic);
}

#[test]
fn paired_tw_and_caldav() {
    let config = make_config(vec![("default", "https://dav.example.com/cal/")]);
    let uuid = new_uuid();
    let caldav_uid = "existing-uid-123";
    let tasks = vec![make_tw_task(uuid, Some(caldav_uid), None)];
    let vtodos = vec![("https://dav.example.com/cal/".to_string(), vec![make_vtodo(caldav_uid, Some("NEEDS-ACTION"), None)])];
    let (entries, warnings) = build_ir(&tasks, &vtodos, &config);
    assert!(warnings.is_empty());
    assert_eq!(entries.len(), 1);
    let e = &entries[0];
    assert_eq!(e.tw_uuid, Some(uuid));
    assert_eq!(e.caldav_uid.as_deref(), Some(caldav_uid));
    assert!(e.tw_task.is_some());
    assert!(e.fetched_vtodo.is_some());
    assert_eq!(e.calendar_url.as_deref(), Some("https://dav.example.com/cal/"));
}

#[test]
fn orphaned_entry_preserves_caldav_uid() {
    let config = make_config(vec![("default", "https://dav.example.com/cal/")]);
    let uuid = new_uuid();
    let orphan_uid = "orphan-uid-456";
    let tasks = vec![make_tw_task(uuid, Some(orphan_uid), None)];
    let (entries, warnings) = build_ir(&tasks, &vec![], &config);
    assert!(warnings.is_empty());
    assert_eq!(entries.len(), 1);
    let e = &entries[0];
    assert_eq!(e.tw_uuid, Some(uuid));
    assert_eq!(e.caldav_uid.as_deref(), Some(orphan_uid));
    assert!(e.fetched_vtodo.is_none());
}

#[test]
fn caldav_only_needs_action_gets_fresh_tw_uuid() {
    let config = make_config(vec![("default", "https://dav.example.com/cal/")]);
    let vtodos = vec![("https://dav.example.com/cal/".to_string(), vec![make_vtodo("needs-action-uid", Some("NEEDS-ACTION"), None)])];
    let (entries, warnings) = build_ir(&vec![], &vtodos, &config);
    assert!(warnings.is_empty());
    assert_eq!(entries.len(), 1);
    let e = &entries[0];
    assert!(e.tw_uuid.is_some(), "NEEDS-ACTION entry must get a fresh UUID4");
    assert!(e.tw_task.is_none());
    assert!(e.fetched_vtodo.is_some());
    assert_eq!(e.caldav_uid.as_deref(), Some("needs-action-uid"));
}

#[test]
fn caldav_only_completed_has_no_tw_uuid() {
    let config = make_config(vec![("default", "https://dav.example.com/cal/")]);
    let vtodos = vec![("https://dav.example.com/cal/".to_string(), vec![make_vtodo("completed-uid", Some("COMPLETED"), None)])];
    let (entries, _warnings) = build_ir(&vec![], &vtodos, &config);
    assert_eq!(entries.len(), 1);
    assert!(entries[0].tw_uuid.is_none(), "COMPLETED entry must have tw_uuid=None");
}

#[test]
fn caldav_only_cancelled_has_no_tw_uuid() {
    let config = make_config(vec![("default", "https://dav.example.com/cal/")]);
    let vtodos = vec![("https://dav.example.com/cal/".to_string(), vec![make_vtodo("cancelled-uid", Some("CANCELLED"), None)])];
    let (entries, _warnings) = build_ir(&vec![], &vtodos, &config);
    assert_eq!(entries.len(), 1);
    assert!(entries[0].tw_uuid.is_none(), "CANCELLED entry must have tw_uuid=None");
}

#[test]
fn rrule_vtodo_skipped_with_warning() {
    let config = make_config(vec![("default", "https://dav.example.com/cal/")]);
    let vtodos = vec![(
        "https://dav.example.com/cal/".to_string(),
        vec![make_vtodo("recurring-uid", Some("NEEDS-ACTION"), Some("FREQ=WEEKLY"))],
    )];
    let (entries, warnings) = build_ir(&vec![], &vtodos, &config);
    assert!(entries.is_empty(), "RRULE VTODO must be skipped");
    assert_eq!(warnings.len(), 1);
    assert!(warnings[0].message.contains("RecurringCalDavSkipped"));
    assert_eq!(warnings[0].message, "RecurringCalDavSkipped: VTODO 'recurring-uid' has RRULE and will not be synced");
}

#[test]
fn unmapped_project_emits_warning() {
    let config = make_config(vec![]);
    let uuid = new_uuid();
    let tasks = vec![make_tw_task(uuid, None, Some("work"))];
    let (entries, warnings) = build_ir(&tasks, &vec![], &config);
    assert_eq!(entries.len(), 1);
    assert_eq!(warnings.len(), 1);
    assert!(warnings[0].message.contains("UnmappedProject"));
    assert_eq!(warnings[0].tw_uuid, Some(uuid));
    assert!(entries[0].calendar_url.is_none());
    assert_eq!(
        warnings[0].message,
        format!("UnmappedProject: task {} project=\"work\" has no matching calendar", Uuid::from_u128(uuid))
    );
}

#[test]
fn project_mapped_to_correct_calendar() {
    let config = make_config(vec![("work", "https://dav.example.com/work/"), ("default", "https://dav.example.com/default/")]);
    let tasks = vec![make_tw_task(new_uuid(), None, Some("work"))];
    let (entries, warnings) = build_ir(&tasks, &vec![], &config);
    assert!(warnings.is_empty());
    assert_eq!(entries[0].calendar_url.as_deref(), Some("https://dav.example.com/work/"));
}

#[test]
fn caldav_only_entry_gets_project_from_config() {
    let config = make_config(vec![("work", "http://dav/work/")]);
    let vtodos = vec![("http://dav/work/".to_string(), vec![make_vtodo("test-uid-work", Some("NEEDS-ACTION"), None)])];
    let (entries, _) = build_ir(&vec![], &vtodos, &config);
    assert_eq!(entries.len(), 1);
    assert_eq!(entries[0].project, Some("work".to_string()));
}

#[test]
fn caldav_only_entry_with_default_project_gets_none() {
    let config = make_config(vec![("default", "http://dav/cal/")]);
    let vtodos = vec![("http://dav/cal/".to_string(), vec![make_vtodo("test-uid-default", Some("NEEDS-ACTION"), None)])];
    let (entries, _) = build_ir(&vec![], &vtodos, &config);
    assert_eq!(entries.len(), 1);
    assert!(entries[0].project.is_none());
}

#[test]
fn all_dirty_and_cyclic_false_after_construction() {
    let config = make_config(vec![("default", "https://dav.example.com/cal/")]);
    let tasks = vec![make_tw_task(new_uuid(), None, None)];
    let (entries, _) = build_ir(&tasks, &vec![], &config);
    assert!(!entries[0].dirty_tw);
    assert!(!entries[0].dirty_caldav);
    assert!(!entries[0].cyclic);
}

#[test]
fn duplicate_uid_in_two_calendars_keeps_the_later_one() {
    let config = make_config(vec![("a", "http://dav/a/"), ("b", "http://dav/b/")]);
    let vtodos = vec![
        ("http://dav/a/".to_string(), vec![make_vtodo("same", Some("NEEDS-ACTION"), None)]),
        ("http://dav/b/".to_string(), vec![make_vtodo("same", Some("NEEDS-ACTION"), None)]),
    ];
    let (entries, _) = build_ir(&vec![], &vtodos, &config);
    assert_eq!(entries.len(), 1);
    assert_eq!(entries[0].calendar_url.as_deref(), Some("http://dav/b/"));
    assert_eq!(entries[0].project.as_deref(), Some("b"));
}

#[test]
fn calendar_lookup_falls_back_to_default() {
    let config = make_config(vec![("work", "http://dav/work"), ("default", "http://dav/def")]);
    assert_eq!(resolve_calendar_url(Some("work"), &config).as_deref(), Some("http://dav/work"));
    assert_eq!(resolve_calendar_url(Some("home"), &config).as_deref(), Some("http://dav/def"));
    assert_eq!(resolve_calendar_url(None, &config).as_deref(), Some("http://dav/def"));
    let none = make_config(vec![("work", "http://dav/work")]);
    assert!(resolve_calendar_url(Some("home"), &none).is_none());
}

#[test]
fn project_lookup_ignores_trailing_slashes() {
    let config = make_config(vec![("work", "http://dav/work/"), ("default", "http://dav/def")]);
    assert_eq!(resolve_project_from_url("http://dav/work", &config).as_deref(), Some("work"));
    assert_eq!(resolve_project_from_url("http://dav/work///", &config).as_deref(), Some("work"));
    assert!(resolve_project_from_url("http://dav/def/", &config).is_none());
    assert!(resolve_project_from_url("http://dav/other", &config).is_none());
}

#[test]
fn duplicate_calendar_url_error() {
    let config = make_config(vec![("work", "https://dav.example.com/alice/cal/"), ("personal", "https://dav.example.com/alice/cal/")]);
    let result = validate(&config);
    assert!(result.is_err());
    let msg = result.unwrap_err().message();
    assert!(msg.to_lowercase().contains("duplicate"));
    assert_eq!(msg, "Configuration error: Duplicate calendar URL found: https://dav.example.com/alice/cal/");
}

#[test]
fn duplicate_default_url_allowed() {
    let config = make_config(vec![("default", "https://dav.example.com/alice/cal/"), ("work", "https://dav.example.com/alice/work/")]);
    assert!(validate(&config).is_ok());
    let twice_default = make_config(vec![("default", "http://x/"), ("default", "http://x/")]);
    assert!(validate(&twice_default).is_ok());
}

#[test]
fn tasks_lead_in_order_and_vtodos_follow() {
    let config = make_config(vec![("work", "http://dav/work/"), ("default", "http://dav/cal/")]);
    let a = new_uuid();
    let b = new_uuid();
    let c = new_uuid();
    let tasks = vec![
        make_tw_task(a, None, Some("work")),
        make_tw_task(b, Some("paired-uid"), None),
        make_tw_task(c, Some("orphan-uid"), None),
    ];
    let vtodos = vec![
        ("http://dav/work/".to_string(), vec![make_vtodo("work-only", Some("COMPLETED"), None)]),
        ("http://dav/cal/".to_string(), vec![make_vtodo("paired-uid", None, None), make_vtodo("cal-only", None, None)]),
    ];
    let (entries, _) = build_ir(&tasks, &vtodos, &config);
    assert_eq!(entries.len(), 5);
    assert_eq!(entries[0].tw_uuid, Some(a));
    assert_eq!(entries[1].tw_uuid, Some(b));
    assert_eq!(entries[2].tw_uuid, Some(c));
    assert_eq!(entries[1].caldav_uid.as_deref(), Some("paired-uid"));
    assert!(entries[1].fetched_vtodo.is_some());
    assert!(entries[2].fetched_vtodo.is_none());
    assert_eq!(entries[3].caldav_uid.as_deref(), Some("work-only"));
    assert_eq!(entries[3].calendar_url.as_deref(), Some("http://dav/work/"));
    assert_eq!(entries[3].project.as_deref(), Some("work"));
    assert!(entries[3].tw_uuid.is_none(), "a completed VTODO gets no TaskWarrior UUID");
    assert_eq!(entries[4].caldav_uid.as_deref(), Some("cal-only"));
    assert!(entries[4].tw_uuid.is_some(), "a VTODO without a status counts as NEEDS-ACTION");
    assert!(entries[3].tw_task.is_none() && entries[4].tw_task.is_none());
}
