use caldawarrior::sync::deps::resolve_dependencies;
use caldawarrior::sync::graph::detect_cycles;
use caldawarrior::types::{IREntry, TWTask};
use chrono::Utc;
use uuid::Uuid;

fn make_entry(tw_uuid: u128, caldav_uid: Option<&str>, depends: Vec<u128>) -> IREntry {
    let tw_task = Some(TWTask {
        uuid: tw_uuid,
        status: "pending".to_string(),
        description: format!("task-{}", Uuid::from_u128(tw_uuid)),
        entry: Utc::now().timestamp(),
        modified: None,
        due: None,
        scheduled: None,
        wait: None,
        until: None,
        end: None,
        caldavuid: None,
        priority: None,
        project: None,
        tags: None,
        recur: None,
        urgency: None,
        id: None,
        depends,
        annotations: vec![],
    });
    IREntry {
        tw_uuid: Some(tw_uuid),
        caldav_uid: caldav_uid.map(str::to_owned),
        tw_task,
        fetched_vtodo: None,
        resolved_depends: vec![],
        cyclic: false,
        calendar_url: None,
        dirty_tw: false,
        dirty_caldav: false,
        project: None,
    }
}

fn new_uuid() -> u128 {
    Uuid::new_v4().as_u128()
}

#[test]
fn test_simple_dependency() {
    let uuid_a = new_uuid();
    let uuid_b = new_uuid();
    let caldav_b = "caldav-uid-b";
    let mut entries = vec![make_entry(uuid_a, Some("caldav-uid-a"), vec![uuid_b]), make_entry(uuid_b, Some(caldav_b), vec![])];
    let warnings = resolve_dependencies(&mut entries);
    assert!(warnings.is_empty(), "unexpected warnings: {:?}", warnings);
    assert_eq!(entries[0].resolved_depends, vec![caldav_b.to_string()]);
    assert_eq!(entries[1].resolved_depends, Vec::<String>::new());
    assert!(!entries[0].cyclic);
    assert!(!entries[1].cyclic);
}

#[test]
fn test_cycle_detection() {
    let uuid_a = new_uuid();
    let uuid_b = new_uuid();
    let mut entries =
        vec![make_entry(uuid_a, Some("caldav-uid-a"), vec![uuid_b]), make_entry(uuid_b, Some("caldav-uid-b"), vec![uuid_a])];
    let warnings = resolve_dependencies(&mut entries);
    assert!(entries[0].cyclic, "entry A should be cyclic");
    assert!(entries[1].cyclic, "entry B should be cyclic");
    let cyclic_warnings: Vec<_> = warnings.iter().filter(|w| w.message.contains("CyclicEntry")).collect();
    assert_eq!(cyclic_warnings.len(), 2);
}

#[test]
fn test_unresolvable_uuid_not_in_ir() {
    let uuid_a = new_uuid();
    let uuid_missing = new_uuid();
    let mut entries = vec![make_entry(uuid_a, Some("caldav-uid-a"), vec![uuid_missing])];
    let warnings = resolve_dependencies(&mut entries);
    assert_eq!(warnings.len(), 1);
    assert!(warnings[0].message.contains("UnresolvableDependency"));
    assert!(warnings[0].message.contains("not found in IR"));
    assert_eq!(warnings[0].tw_uuid, Some(uuid_missing));
    assert!(entries[0].resolved_depends.is_empty());
}

#[test]
fn test_unresolvable_no_caldav_uid() {
    let uuid_a = new_uuid();
    let uuid_b = new_uuid();
    let mut entries = vec![make_entry(uuid_a, Some("caldav-uid-a"), vec![uuid_b]), make_entry(uuid_b, None, vec![])];
    let warnings = resolve_dependencies(&mut entries);
    assert_eq!(warnings.len(), 1);
    assert!(warnings[0].message.contains("UnresolvableDependency"));
    assert!(warnings[0].message.contains("no CalDAV UID"));
    assert!(entries[0].resolved_depends.is_empty());
}

#[test]
fn test_no_dependencies() {
    let uuid_a = new_uuid();
    let mut entries = vec![make_entry(uuid_a, Some("caldav-uid-a"), vec![])];
    let warnings = resolve_dependencies(&mut entries);
    assert!(warnings.is_empty());
    assert!(entries[0].resolved_depends.is_empty());
    assert!(!entries[0].cyclic);
}

#[test]
fn cycles_are_marked_and_acyclic_nodes_are_not() {
    // 0 -> 1 -> 2 -> 0 is a cycle; 3 -> 0 hangs off it; 4 loops on itself; 5 is alone.
    let adj = vec![vec![1], vec![2], vec![0], vec![0], vec![4], vec![]];
    let marked = detect_cycles(&adj);
    assert_eq!(marked.len(), 6);
    assert!(marked[0] && marked[1] && marked[2], "every node of the cycle 0-1-2 is marked");
    assert!(!marked[3], "node 3 is on no cycle");
    assert!(marked[4], "a self-loop is a cycle");
    assert!(!marked[5]);
}

#[test]
fn dependency_on_a_cycle_member_is_still_resolved() {
    let a = new_uuid();
    let b = new_uuid();
    let c = new_uuid();
    let mut entries = vec![
        make_entry(a, Some("ua"), vec![b]),
        make_entry(b, Some("ub"), vec![a]),
        make_entry(c, Some("uc"), vec![a]),
    ];
    let _ = resolve_dependencies(&mut entries);
    assert_eq!(entries[2].resolved_depends, vec!["ua".to_string()]);
    assert!(!entries[2].cyclic);
    assert_eq!(entries[0].resolved_depends, vec!["ub".to_string()]);
}

#[test]
fn every_task_on_a_cycle_is_flagged() {
    // T1 depends on T3 and T2, T2 on T3, T3 on T1: all three lie on a cycle.
    let t1 = new_uuid();
    let t2 = new_uuid();
    let t3 = new_uuid();
    let mut entries = vec![
        make_entry(t1, Some("u1"), vec![t3, t2]),
        make_entry(t2, Some("u2"), vec![t3]),
        make_entry(t3, Some("u3"), vec![t1]),
    ];
    let warnings = resolve_dependencies(&mut entries);
    assert!(entries.iter().all(|e| e.cyclic), "every task on the cycle is flagged");
    let cyclic_warnings = warnings.iter().filter(|w| w.message.contains("CyclicEntry")).count();
    assert_eq!(cyclic_warnings, 3);
}

