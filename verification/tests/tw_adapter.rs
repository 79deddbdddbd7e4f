use caldawarrior::error::CaldaWarriorError;
use caldawarrior::tw_adapter::{delete_outcome, depends_from_list, depends_from_text, depends_to_text, merge_exports, tw_date_from_text, tw_date_text};
use caldawarrior::types::TWTask;
use chrono::{TimeZone, Utc};
use uuid::Uuid;

fn make_task(uuid: u128) -> TWTask {
    TWTask {
        uuid,
        status: "pending".to_string(),
        description: "Test task".to_string(),
        entry: Utc::now().timestamp(),
        modified: None,
        due: None,
        scheduled: None,
        wait: None,
        until: None,
        end: None,
        caldavuid: None,
        priority: None,
        project: None,
        tags: None,
        recur: None,
        urgency: None,
        id: None,
        depends: vec![],
        annotations: vec![],
    }
}

#[test]
fn delete_tolerates_already_deleted() {
    let r = delete_outcome(Err(CaldaWarriorError::Tw {
        code: 1,
        stderr: "Task 1 'test' is not deletable.\nDeleted 0 tasks.".to_string(),
    }));
    assert!(r.is_ok(), "delete should succeed even if already deleted");
}

#[test]
fn delete_outcome_passes_other_failures_through() {
    assert!(delete_outcome(Ok(String::new())).is_ok());
    assert!(delete_outcome(Err(CaldaWarriorError::Tw { code: 1, stderr: "Deleted 0 tasks.".to_string() })).is_ok());
    match delete_outcome(Err(CaldaWarriorError::Tw { code: 2, stderr: "not deletable".to_string() })) {
        Err(CaldaWarriorError::Tw { code, .. }) => assert_eq!(code, 2),
        other => panic!("unexpected {:?}", other),
    }
    match delete_outcome(Err(CaldaWarriorError::Tw { code: 1, stderr: "permission denied".to_string() })) {
        Err(CaldaWarriorError::Tw { stderr, .. }) => assert_eq!(stderr, "permission denied"),
        other => panic!("unexpected {:?}", other),
    }
    assert!(delete_outcome(Err(CaldaWarriorError::SyncConflict)).is_err());
}

#[test]
fn list_all_deduplicates_by_max_modified() {
    let uuid = Uuid::new_v4().as_u128();
    let t1 = Utc::now().timestamp();
    let t2 = t1 + 60;

    let mut task1 = make_task(uuid);
    task1.modified = Some(t1);
    task1.description = "older".to_string();

    let mut task2 = make_task(uuid);
    task2.modified = Some(t2);
    task2.description = "newer".to_string();

    let tasks = merge_exports(&vec![task1, task2]);
    assert_eq!(tasks.len(), 1);
    assert_eq!(tasks[0].description, "newer");
}

#[test]
fn merge_exports_keeps_first_on_tie_and_prefers_modified() {
    let a = Uuid::new_v4().as_u128();
    let b = Uuid::new_v4().as_u128();
    let mut a1 = make_task(a);
    a1.description = "a-first".to_string();
    a1.modified = Some(100);
    let mut a2 = make_task(a);
    a2.description = "a-second".to_string();
    a2.modified = Some(100);
    let mut b1 = make_task(b);
    b1.description = "b-unmodified".to_string();
    let mut b2 = make_task(b);
    b2.description = "b-modified".to_string();
    b2.modified = Some(5);
    let tasks = merge_exports(&vec![a1, b1, a2, b2]);
    assert_eq!(tasks.len(), 2);
    assert_eq!(tasks[0].description, "a-first");
    assert_eq!(tasks[1].description, "b-modified");
}

#[test]
fn depends_text_round_trip() {
    let u1 = Uuid::new_v4();
    let u2 = Uuid::new_v4();
    let text = depends_to_text(&vec![u1.as_u128(), u2.as_u128()]);
    assert_eq!(text, format!("{},{}", u1, u2));
    assert_eq!(depends_from_text(&text), Some(vec![u1.as_u128(), u2.as_u128()]));
    assert_eq!(depends_from_text(&format!(" {} , {}", u1, u2)), Some(vec![u1.as_u128(), u2.as_u128()]));
    assert_eq!(depends_from_text(""), Some(vec![]));
    assert_eq!(depends_from_text("not-a-uuid"), None);
    assert_eq!(depends_from_list(&vec![u2.to_string()]), Some(vec![u2.as_u128()]));
}

#[test]
fn tw_date_round_trip() {
    let t = Utc.with_ymd_and_hms(2026, 3, 4, 5, 6, 7).unwrap().timestamp();
    assert_eq!(tw_date_text(t), "20260304T050607Z");
    assert_eq!(tw_date_from_text("20260304T050607Z"), Some(t));
    assert_eq!(tw_date_from_text("2026-03-04"), None);
}

#[test]
fn depends_text_is_lower_case_hyphenated() {
    let text = depends_to_text(&vec![0x0123_4567_89ab_cdef_0123_4567_89ab_cdefu128, 0xffu128]);
    assert_eq!(text, "01234567-89ab-cdef-0123-456789abcdef,00000000-0000-0000-0000-0000000000ff");
}

#[test]
fn delete_args_name_the_task() {
    let args = caldawarrior::tw_adapter::delete_args(0xabu128);
    assert_eq!(args, vec!["rc.confirmation:no", "00000000-0000-0000-0000-0000000000ab", "delete"]);
}
