use caldawarrior::mapper::fields::{caldav_to_tw_fields, tw_to_caldav_fields};
use caldawarrior::mapper::status::{tw_to_caldav_status, TwToCalDavStatus};
use caldawarrior::types::{IcalProp, RelType, TWTask, TwAnnotation, VTODO};
use chrono::{DateTime, Datelike, Utc};
use uuid::Uuid;

fn now() -> i64 {
    Utc::now().timestamp()
}

fn task_with_status(status: &str) -> TWTask {
    TWTask {
        uuid: Uuid::new_v4().as_u128(),
        status: status.to_string(),
        description: "test".to_string(),
        entry: now(),
        modified: None,
        due: None,
        scheduled: None,
        wait: None,
        until: None,
        end: None,
        caldavuid: None,
        priority: None,
        project: None,
        tags: None,
        recur: None,
        urgency: None,
        id: None,
        depends: vec![],
        annotations: vec![],
    }
}

fn make_tw_task() -> TWTask {
    let mut t = task_with_status("pending");
    t.description = "Buy milk".to_string();
    t
}

fn make_vtodo() -> VTODO {
    VTODO { uid: Uuid::new_v4().to_string(), summary: Some("Buy milk".to_string()), ..Default::default() }
}

// ── status ──────────────────────────────────────────────────────────────────

#[test]
fn pending_maps_to_needs_action() {
    let task = task_with_status("pending");
    assert!(matches!(tw_to_caldav_status(&task), TwToCalDavStatus::NeedsAction));
}

#[test]
fn waiting_maps_to_needs_action_with_wait() {
    let mut task = task_with_status("waiting");
    let wait_time = now();
    task.wait = Some(wait_time);
    match tw_to_caldav_status(&task) {
        TwToCalDavStatus::NeedsActionWithWait(dt) => assert_eq!(dt, wait_time),
        other => panic!("expected NeedsActionWithWait, got {:?}", other),
    }
}

#[test]
fn waiting_without_wait_field_falls_back_to_entry() {
    let task = task_with_status("waiting");
    match tw_to_caldav_status(&task) {
        TwToCalDavStatus::NeedsActionWithWait(dt) => assert_eq!(dt, task.entry),
        other => panic!("expected NeedsActionWithWait, got {:?}", other),
    }
}

#[test]
fn recurring_maps_to_skip_with_warning() {
    let mut task = task_with_status("recurring");
    task.recur = Some("weekly".to_string());
    match tw_to_caldav_status(&task) {
        TwToCalDavStatus::Skip(w) => {
            assert_eq!(w.tw_uuid, Some(task.uuid));
            assert!(w.message.contains("recurring"));
            assert_eq!(
                w.message,
                format!("recurring task {} skipped (recur: \"weekly\")", Uuid::from_u128(task.uuid))
            );
        }
        other => panic!("expected Skip, got {:?}", other),
    }
}

#[test]
fn completed_maps_to_completed_with_end_time() {
    let mut task = task_with_status("completed");
    let end_time = now();
    task.end = Some(end_time);
    match tw_to_caldav_status(&task) {
        TwToCalDavStatus::Completed(dt) => assert_eq!(dt, end_time),
        other => panic!("expected Completed, got {:?}", other),
    }
}

#[test]
fn completed_without_end_falls_back_to_entry() {
    let task = task_with_status("completed");
    match tw_to_caldav_status(&task) {
        TwToCalDavStatus::Completed(dt) => assert_eq!(dt, task.entry),
        other => panic!("expected Completed, got {:?}", other),
    }
}

#[test]
fn deleted_maps_to_tw_state_deleted() {
    let task = task_with_status("deleted");
    assert!(matches!(tw_to_caldav_status(&task), TwToCalDavStatus::TwStateDeleted));
}

#[test]
fn unknown_status_falls_back_to_needs_action() {
    let task = task_with_status("bogus_status");
    assert!(matches!(tw_to_caldav_status(&task), TwToCalDavStatus::NeedsAction));
}

// ── TW → CalDAV ─────────────────────────────────────────────────────────────

#[test]
fn tw_description_mapped() {
    let task = make_tw_task();
    let fields = tw_to_caldav_fields(&task, now());
    assert_eq!(fields.summary.as_deref(), Some("Buy milk"));
}

#[test]
fn tw_due_mapped() {
    let mut task = make_tw_task();
    let due = now();
    task.due = Some(due);
    let fields = tw_to_caldav_fields(&task, now());
    assert_eq!(fields.due, Some(due));
}

#[test]
fn tw_scheduled_mapped_to_dtstart() {
    let mut task = make_tw_task();
    let sched = now();
    task.scheduled = Some(sched);
    let fields = tw_to_caldav_fields(&task, now());
    assert_eq!(fields.dtstart, Some(sched));
}

#[test]
fn tw_future_wait_included_as_ical_prop() {
    let mut task = make_tw_task();
    task.wait = Some(now() + 24 * 3600);
    let fields = tw_to_caldav_fields(&task, now());
    let prop = fields.wait.expect("wait prop should be present");
    assert_eq!(prop.name, "X-TASKWARRIOR-WAIT");
    assert!(!prop.value.is_empty());
}

#[test]
fn tw_future_wait_value_is_utc_form() {
    let mut task = make_tw_task();
    task.wait = Some(1_900_000_000);
    let fields = tw_to_caldav_fields(&task, 1_800_000_000);
    let prop = fields.wait.expect("wait prop should be present");
    assert_eq!(prop.value, "20300317T174640Z");
    assert!(prop.params.is_empty());
}

#[test]
fn tw_expired_wait_collapsed_to_none() {
    let mut task = make_tw_task();
    task.wait = Some(now() - 3600);
    let fields = tw_to_caldav_fields(&task, now());
    assert!(fields.wait.is_none(), "expired wait should be dropped");
}

#[test]
fn tw_no_wait_produces_no_prop() {
    let task = make_tw_task();
    let fields = tw_to_caldav_fields(&task, now());
    assert!(fields.wait.is_none());
}

#[test]
fn tw_depends_mapped_to_related_to() {
    let mut task = make_tw_task();
    let dep1 = Uuid::new_v4();
    let dep2 = Uuid::new_v4();
    task.depends = vec![dep1.as_u128(), dep2.as_u128()];
    let fields = tw_to_caldav_fields(&task, now());
    assert_eq!(fields.depends.len(), 2);
    for (rel, uid_str) in &fields.depends {
        assert!(matches!(rel, RelType::DependsOn));
        assert!(uid_str.parse::<Uuid>().is_ok());
    }
    let uids: Vec<Uuid> = fields.depends.iter().map(|(_, s)| s.parse().unwrap()).collect();
    assert!(uids.contains(&dep1));
    assert!(uids.contains(&dep2));
}

#[test]
fn tw_none_fields_produce_none() {
    let task = make_tw_task();
    let fields = tw_to_caldav_fields(&task, now());
    assert!(fields.due.is_none());
    assert!(fields.dtstart.is_none());
    assert!(fields.wait.is_none());
    assert!(fields.depends.is_empty());
}

// ── CalDAV → TW ─────────────────────────────────────────────────────────────

#[test]
fn caldav_description_mapped() {
    let mut vtodo = make_vtodo();
    vtodo.description = Some("Buy milk".to_string());
    let fields = caldav_to_tw_fields(&vtodo);
    assert_eq!(fields.description, "Buy milk");
}

#[test]
fn caldav_absent_summary_becomes_no_title_sentinel() {
    let mut vtodo = make_vtodo();
    vtodo.summary = None;
    let fields = caldav_to_tw_fields(&vtodo);
    assert_eq!(fields.description, "(no title)");
}

#[test]
fn caldav_due_mapped() {
    let mut vtodo = make_vtodo();
    let due = now();
    vtodo.due = Some(due);
    let fields = caldav_to_tw_fields(&vtodo);
    assert_eq!(fields.due, Some(due));
}

#[test]
fn caldav_dtstart_mapped_to_scheduled() {
    let mut vtodo = make_vtodo();
    let start = now();
    vtodo.dtstart = Some(start);
    let fields = caldav_to_tw_fields(&vtodo);
    assert_eq!(fields.scheduled, Some(start));
}

#[test]
fn caldav_wait_prop_parsed() {
    let mut vtodo = make_vtodo();
    vtodo.extra_props.push(IcalProp {
        name: "X-TASKWARRIOR-WAIT".to_string(),
        params: vec![],
        value: "20271231T120000Z".to_string(),
    });
    let fields = caldav_to_tw_fields(&vtodo);
    let wait = fields.wait.expect("wait should be parsed");
    assert_eq!(DateTime::from_timestamp(wait, 0).unwrap().year(), 2027);
}

#[test]
fn caldav_depends_round_trip() {
    let dep1 = Uuid::new_v4();
    let dep2 = Uuid::new_v4();
    let mut vtodo = make_vtodo();
    vtodo.depends = vec![
        (RelType::DependsOn, dep1.to_string()),
        (RelType::DependsOn, dep2.to_string()),
        (RelType::Other("CHILD".to_string()), "some-uid".to_string()),
    ];
    let fields = caldav_to_tw_fields(&vtodo);
    assert_eq!(fields.depends.len(), 2, "only DEPENDS-ON entries should be included");
    assert!(fields.depends.contains(&dep1.as_u128()));
    assert!(fields.depends.contains(&dep2.as_u128()));
}

#[test]
fn caldav_none_fields_produce_none() {
    let vtodo = make_vtodo();
    let fields = caldav_to_tw_fields(&vtodo);
    assert!(fields.due.is_none());
    assert!(fields.scheduled.is_none());
    assert!(fields.wait.is_none());
    assert!(fields.depends.is_empty());
}

#[test]
fn caldav_summary_mapped_to_tw_description() {
    let mut vtodo = make_vtodo();
    vtodo.summary = Some("Task X".to_string());
    vtodo.description = None;
    let fields = caldav_to_tw_fields(&vtodo);
    assert_eq!(fields.description, "Task X");
    assert!(fields.annotations_text.is_none());
}

#[test]
fn caldav_both_summary_and_description_present() {
    let mut vtodo = make_vtodo();
    vtodo.summary = Some("Task X".to_string());
    vtodo.description = Some("a note".to_string());
    let fields = caldav_to_tw_fields(&vtodo);
    assert_eq!(fields.description, "Task X");
    assert_eq!(fields.annotations_text.as_deref(), Some("a note"));
}

#[test]
fn caldav_description_mapped_to_annotations_text() {
    let mut vtodo = make_vtodo();
    vtodo.description = Some("check expiry".to_string());
    let fields = caldav_to_tw_fields(&vtodo);
    assert_eq!(fields.annotations_text.as_deref(), Some("check expiry"));
}

#[test]
fn caldav_blank_description_gives_no_annotation_text() {
    let mut vtodo = make_vtodo();
    vtodo.description = Some("  \n ".to_string());
    let fields = caldav_to_tw_fields(&vtodo);
    assert!(fields.annotations_text.is_none());
    vtodo.description = Some("  padded  ".to_string());
    assert_eq!(caldav_to_tw_fields(&vtodo).annotations_text.as_deref(), Some("padded"));
}

#[test]
fn caldav_no_summary_gives_no_title_sentinel() {
    let mut vtodo = make_vtodo();
    vtodo.summary = None;
    let fields = caldav_to_tw_fields(&vtodo);
    assert_eq!(fields.description, "(no title)");
}

#[test]
fn priority_caldav_to_tw_1_gives_h() {
    let mut vtodo = make_vtodo();
    vtodo.priority = Some(1);
    let fields = caldav_to_tw_fields(&vtodo);
    assert_eq!(fields.priority.as_deref(), Some("H"));
}

#[test]
fn priority_caldav_2_3_4_give_h() {
    for p in [2u8, 3, 4] {
        let mut vtodo = make_vtodo();
        vtodo.priority = Some(p);
        let fields = caldav_to_tw_fields(&vtodo);
        assert_eq!(fields.priority.as_deref(), Some("H"), "priority {p} should map to H");
    }
}

#[test]
fn priority_caldav_5_gives_m_9_gives_l_0_gives_none() {
    let cases: &[(u8, Option<&str>)] = &[(5, Some("M")), (9, Some("L")), (0, None)];
    for &(p, expected) in cases {
        let mut vtodo = make_vtodo();
        vtodo.priority = Some(p);
        let fields = caldav_to_tw_fields(&vtodo);
        assert_eq!(fields.priority.as_deref(), expected, "priority {p}");
    }
    let mut vtodo = make_vtodo();
    vtodo.priority = None;
    let fields = caldav_to_tw_fields(&vtodo);
    assert!(fields.priority.is_none());
}

#[test]
fn tw_description_becomes_summary() {
    let task = make_tw_task();
    let fields = tw_to_caldav_fields(&task, now());
    assert_eq!(fields.summary.as_deref(), Some("Buy milk"));
}

#[test]
fn tw_no_title_becomes_absent_summary() {
    let mut task = make_tw_task();
    task.description = "(no title)".to_string();
    let fields = tw_to_caldav_fields(&task, now());
    assert!(fields.summary.is_none(), "sentinel should collapse to None");
}

#[test]
fn tw_annotations_become_description() {
    let mut task = make_tw_task();
    task.annotations = vec![TwAnnotation { entry: now(), description: "check expiry date".to_string() }];
    let fields = tw_to_caldav_fields(&task, now());
    assert_eq!(fields.annotations.as_deref(), Some("check expiry date"));
}

#[test]
fn priority_tw_to_caldav_h() {
    let mut task = make_tw_task();
    task.priority = Some("H".to_string());
    assert_eq!(tw_to_caldav_fields(&task, now()).priority, Some(1u8));
    task.priority = Some("M".to_string());
    assert_eq!(tw_to_caldav_fields(&task, now()).priority, Some(5u8));
    task.priority = Some("L".to_string());
    assert_eq!(tw_to_caldav_fields(&task, now()).priority, Some(9u8));
    task.priority = None;
    assert!(tw_to_caldav_fields(&task, now()).priority.is_none());
}

#[test]
fn depends_round_trip_tw_to_caldav_to_tw() {
    let dep = Uuid::new_v4();
    let mut task = make_tw_task();
    task.depends = vec![dep.as_u128()];
    let caldav_fields = tw_to_caldav_fields(&task, now());
    let mut vtodo = make_vtodo();
    vtodo.depends = caldav_fields.depends;
    let tw_fields = caldav_to_tw_fields(&vtodo);
    assert_eq!(tw_fields.depends, vec![dep.as_u128()]);
}
