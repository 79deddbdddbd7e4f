//! Last-write-wins conflict resolution for entries present on both sides.
use vstd::prelude::*;
use vstd::string::StringExecFns;

use crate::mapper::fields::{
    find_prop, find_prop_exec, ical_datetime_utc, parse_ical_datetime_utc, priority_to_ical, tw_priority_to_ical,
    wait_prop_name,
};
use crate::text::{ascii_upper, ascii_lower, str_eq, to_ascii_upper, to_ascii_lower};
use crate::types::{
    copy_string_vec, opt_str, opt_str_seq, props_view, str_seq, IREntry, IREntryView, PlannedOp, PlannedOpView,
    RelType, RelTypeView, Side, SkipReason, TWTaskView, Timestamp, UpdateReason,
};

verus! {

broadcast use {vstd::seq_lib::group_to_multiset_ensures, vstd::multiset::group_multiset_axioms};

/// Canonical status for cross-system comparison.
pub open spec fn normalized_status(s: Seq<char>) -> Seq<char> {
    let u = ascii_upper(s);
    if u == "NEEDS-ACTION"@ || u == "IN-PROCESS"@ || u == "PENDING"@ || u == "WAITING"@ {
        "pending"@
    } else if u == "COMPLETED"@ {
        "completed"@
    } else if u == "CANCELLED"@ || u == "CANCELED"@ || u == "DELETED"@ {
        "deleted"@
    } else {
        ascii_lower(u)
    }
}

/// Normalizes a CalDAV or TaskWarrior status: NEEDS-ACTION, IN-PROCESS, pending and waiting
/// to "pending"; COMPLETED to "completed"; CANCELLED, CANCELED and deleted to "deleted";
/// anything else to its lower case.
pub fn normalize_status(s: &str) -> (r: String)
    ensures
        r@ == normalized_status(s@),
{
    let upper = to_ascii_upper(s);
    let u = upper.as_str();
    if str_eq(u, "NEEDS-ACTION") || str_eq(u, "IN-PROCESS") || str_eq(u, "PENDING") || str_eq(u, "WAITING") {
        String::from_str("pending")
    } else if str_eq(u, "COMPLETED") {
        String::from_str("completed")
    } else if str_eq(u, "CANCELLED") || str_eq(u, "CANCELED") || str_eq(u, "DELETED") {
        String::from_str("deleted")
    } else {
        to_ascii_lower(u)
    }
}

/// Whether two lists hold the same strings with the same multiplicities (their sorted
/// forms are equal).
pub fn same_multiset(a: &Vec<String>, b: &Vec<String>) -> (r: bool)
    ensures
        r == (str_seq(a@).to_multiset() == str_seq(b@).to_multiset()),
{
    let ghost sa = str_seq(a@);
    let ghost sb = str_seq(b@);
    let mut rem = copy_string_vec(b);
    let mut i: usize = 0;
    while i < a.len()
        invariant
            i <= a.len(),
            sa == str_seq(a@),
            sb == str_seq(b@),
            sa.take(i as int).to_multiset().add(str_seq(rem@).to_multiset()) == sb.to_multiset(),
        decreases a.len() - i,
    {
        let x = a[i].as_str();
        let mut j: usize = 0;
        while j < rem.len() && !str_eq(rem[j].as_str(), x)
            invariant
                j <= rem.len(),
                forall|k: int| 0 <= k < j ==> rem@[k]@ != x@,
            decreases rem.len() - j,
        {
            j += 1;
        }
        assert(sa.take(i + 1) =~= sa.take(i as int).push(x@));
        if j == rem.len() {
            proof {
                let sr = str_seq(rem@);
                assert(!sr.contains(x@)) by {
                    if sr.contains(x@) {
                        let k = choose|k: int| 0 <= k < sr.len() && sr[k] == x@;
                        assert(rem@[k]@ != x@);
                    }
                }
                assert(sr.to_multiset().count(x@) == 0);
                vstd::seq_lib::lemma_multiset_commutative(sa.take(i as int), sa.skip(i as int));
                assert(sa.take(i as int) + sa.skip(i as int) =~= sa);
                assert(sa.skip(i as int)[0] == x@);
                assert(sa.skip(i as int).contains(x@));
                assert(sa.to_multiset().count(x@) > sb.to_multiset().count(x@));
                assert(sa.to_multiset() != sb.to_multiset());
            }
            return false;
        }
        let ghost before = str_seq(rem@);
        rem.remove(j);
        assert(str_seq(rem@) =~= before.remove(j as int));
        i += 1;
    }
    assert(sa.take(a.len() as int) =~= sa);
    if rem.len() == 0 {
        assert(str_seq(rem@) =~= Seq::<Seq<char>>::empty());
        assert(str_seq(rem@).to_multiset() =~= vstd::multiset::Multiset::empty());
        assert(sa.to_multiset().add(vstd::multiset::Multiset::empty()) =~= sa.to_multiset());
        assert(sa.to_multiset() == sb.to_multiset());
        true
    } else {
        assert(sb.to_multiset().len() == sa.to_multiset().len() + str_seq(rem@).to_multiset().len());
        assert(sa.to_multiset() != sb.to_multiset());
        false
    }
}

/// The UIDs of a VTODO's DEPENDS-ON relations.
pub open spec fn depends_on_uids(ds: Seq<(RelTypeView, Seq<char>)>) -> Seq<Seq<char>>
    decreases ds.len(),
{
    if ds.len() == 0 {
        Seq::empty()
    } else if ds.last().0 is DependsOn {
        depends_on_uids(ds.drop_last()).push(ds.last().1)
    } else {
        depends_on_uids(ds.drop_last())
    }
}

/// A paired entry: both sides are present.
pub open spec fn is_paired(e: IREntryView) -> bool {
    e.tw_task is Some && e.fetched_vtodo is Some
}

/// The tracked fields agree on both sides of a paired entry, so that a write in either
/// direction would change nothing.
pub open spec fn content_identical_spec(e: IREntryView, now: Timestamp) -> bool {
    let tw = e.tw_task->0;
    let v = e.fetched_vtodo->0.vtodo;
    let status = match v.status {
        Some(s) => s,
        None => "NEEDS-ACTION"@,
    };
    let tw_wait = match tw.wait {
        Some(w) => if w > now {
            Some(w)
        } else {
            None
        },
        None => None,
    };
    let tags = match tw.tags {
        Some(t) => t,
        None => Seq::empty(),
    };
    &&& v.summary == Some(tw.description)
    &&& v.description == (if tw.annotations.len() > 0 {
        Some(tw.annotations[0].description)
    } else {
        None::<Seq<char>>
    })
    &&& normalized_status(status) == normalized_status(tw.status)
    &&& v.due == tw.due
    &&& v.dtstart == tw.scheduled
    &&& v.completed == tw.end
    &&& depends_on_uids(v.depends).to_multiset() == e.resolved_depends.to_multiset()
    &&& match find_prop(v.extra_props, wait_prop_name()) {
        Some(k) => ical_datetime_utc(v.extra_props[k].value),
        None => None,
    } == tw_wait
    &&& v.priority == tw_priority_to_ical(tw.priority)
    &&& v.categories.to_multiset() == tags.to_multiset()
}

fn depends_on_list(ds: &Vec<(RelType, String)>) -> (r: Vec<String>)
    ensures
        str_seq(r@) == depends_on_uids(crate::types::depends_view(ds@)),
{
    let ghost dv = crate::types::depends_view(ds@);
    let mut r: Vec<String> = Vec::new();
    let mut i: usize = 0;
    while i < ds.len()
        invariant
            i <= ds.len(),
            dv == crate::types::depends_view(ds@),
            str_seq(r@) == depends_on_uids(dv.take(i as int)),
        decreases ds.len() - i,
    {
        assert(dv.take(i + 1).drop_last() =~= dv.take(i as int));
        assert(dv.take(i + 1).last() == (ds@[i as int].0@, ds@[i as int].1@));
        match &ds[i].0 {
            RelType::DependsOn => {
                let ghost prev = r@;
                r.push(ds[i].1.clone());
                assert(str_seq(r@) =~= str_seq(prev).push(ds@[i as int].1@));
            },
            RelType::Other(_) => {},
        }
        i += 1;
    }
    assert(dv.take(ds.len() as int) =~= dv);
    r
}

fn eq_opt_str(a: &Option<String>, b: Option<&str>) -> (r: bool)
    ensures
        r == (opt_str(*a) == match b {
            Some(s) => Some(s@),
            None => None::<Seq<char>>,
        }),
{
    match (a, b) {
        (Some(x), Some(y)) => str_eq(x.as_str(), y),
        (None, None) => true,
        _ => false,
    }
}

/// Whether the tracked fields of a paired entry agree on both sides (loop prevention).
///
/// Timestamps compare at second precision, texts as stored, status normalized,
/// DEPENDS-ON UIDs and categories as multisets, and a TaskWarrior wait that has passed
/// counts as absent.
pub fn content_identical(entry: &IREntry, now: Timestamp) -> (r: bool)
    requires
        is_paired(entry@),
    ensures
        r == content_identical_spec(entry@, now),
{
    let tw = entry.tw_task.as_ref().unwrap();
    let vtodo = &entry.fetched_vtodo.as_ref().unwrap().vtodo;

    // 1. SUMMARY against the TW description.
    if !eq_opt_str(&vtodo.summary, Some(tw.description.as_str())) {
        return false;
    }
    // 2. DESCRIPTION against the first TW annotation.
    let first_ann = if tw.annotations.len() > 0 {
        Some(tw.annotations[0].description.as_str())
    } else {
        None
    };
    if !eq_opt_str(&vtodo.description, first_ann) {
        return false;
    }
    // 3. STATUS, normalized.
    let vs = match &vtodo.status {
        Some(s) => s.as_str(),
        None => "NEEDS-ACTION",
    };
    if !str_eq(normalize_status(vs).as_str(), normalize_status(tw.status.as_str()).as_str()) {
        return false;
    }
    // 4-6. DUE, DTSTART/scheduled, COMPLETED/end.
    if vtodo.due != tw.due || vtodo.dtstart != tw.scheduled || vtodo.completed != tw.end {
        return false;
    }
    // 7. DEPENDS-ON relations against the resolved dependencies.
    let caldav_deps = depends_on_list(&vtodo.depends);
    if !same_multiset(&caldav_deps, &entry.resolved_depends) {
        return false;
    }
    // 8. X-TASKWARRIOR-WAIT against a TW wait that still lies ahead.
    let caldav_wait = match find_prop_exec(&vtodo.extra_props, "X-TASKWARRIOR-WAIT") {
        Some(k) => {
            assert(props_view(vtodo.extra_props@)[k as int] == vtodo.extra_props@[k as int]@);
            parse_ical_datetime_utc(vtodo.extra_props[k].value.as_str())
        },
        None => None,
    };
    let tw_wait = match tw.wait {
        Some(w) => if w > now {
            Some(w)
        } else {
            None
        },
        None => None,
    };
    if caldav_wait != tw_wait {
        return false;
    }
    // 9. PRIORITY.
    if vtodo.priority != priority_to_ical(&tw.priority) {
        return false;
    }
    // 10. CATEGORIES against TW tags.
    let tags = match &tw.tags {
        Some(t) => copy_string_vec(t),
        None => Vec::new(),
    };
    assert(str_seq(tags@) == match tw@.tags {
        Some(t) => t,
        None => Seq::<Seq<char>>::empty(),
    }) by {
        if tw.tags is None {
            assert(str_seq(tags@) =~= Seq::<Seq<char>>::empty());
        }
    }
    same_multiset(&vtodo.categories, &tags)
}

/// The plan for a paired entry: skip when identical, otherwise the side with the later
/// modification wins, TaskWarrior on ties or when the VTODO carries no timestamp.
pub open spec fn lww_spec(e: IREntryView, now: Timestamp) -> PlannedOpView {
    if content_identical_spec(e, now) {
        PlannedOpView::Skip { tw_uuid: e.tw_uuid, reason: SkipReason::Identical }
    } else {
        let tw = e.tw_task->0;
        let v = e.fetched_vtodo->0.vtodo;
        let tw_modified = match tw.modified {
            Some(m) => m,
            None => tw.entry,
        };
        let caldav_ts = match v.last_modified {
            Some(t) => Some(t),
            None => v.dtstamp,
        };
        if caldav_ts is Some && caldav_ts->0 > tw_modified {
            PlannedOpView::ResolveConflict { entry: e, winner: Side::CalDav, reason: UpdateReason::LwwCalDavWins }
        } else {
            PlannedOpView::ResolveConflict { entry: e, winner: Side::Tw, reason: UpdateReason::LwwTwWins }
        }
    }
}

/// Resolves a paired entry by last-write-wins, after the content-identical check.
pub fn resolve_lww(entry: IREntry, now: Timestamp) -> (op: PlannedOp)
    requires
        is_paired(entry@),
        entry.tw_uuid is Some,
    ensures
        op@ == lww_spec(entry@, now),
{
    if content_identical(&entry, now) {
        let tw_uuid = entry.tw_uuid.unwrap();
        return PlannedOp::Skip { tw_uuid: Some(tw_uuid), reason: SkipReason::Identical };
    }
    let tw = entry.tw_task.as_ref().unwrap();
    let vtodo = &entry.fetched_vtodo.as_ref().unwrap().vtodo;
    let tw_modified = match tw.modified {
        Some(m) => m,
        None => tw.entry,
    };
    let caldav_ts = match vtodo.last_modified {
        Some(t) => Some(t),
        None => vtodo.dtstamp,
    };
    if let Some(ts) = caldav_ts {
        if ts > tw_modified {
            return PlannedOp::ResolveConflict { entry, winner: Side::CalDav, reason: UpdateReason::LwwCalDavWins };
        }
    }
    PlannedOp::ResolveConflict { entry, winner: Side::Tw, reason: UpdateReason::LwwTwWins }
}

/// The text of a task's first annotation, which CalDAV carries as DESCRIPTION.
pub open spec fn first_annotation(t: TWTaskView) -> Option<Seq<char>> {
    if t.annotations.len() > 0 {
        Some(t.annotations[0].description)
    } else {
        None
    }
}

/// Two sides found identical agree on every tracked field: the SUMMARY is the task's
/// description, the DESCRIPTION its first annotation, DUE, DTSTART and COMPLETED its due,
/// scheduled and end instants, the priority its letter, the categories its tags and the
/// DEPENDS-ON UIDs its resolved dependencies (as multisets), and the statuses agree once
/// normalized (a VTODO without STATUS counting as NEEDS-ACTION). An edit of any of these on one side alone is therefore never skipped as
/// identical.
pub proof fn lemma_identical_means_fields_agree(e: IREntryView, now: Timestamp)
    requires
        content_identical_spec(e, now),
    ensures
        e.fetched_vtodo->0.vtodo.summary == Some(e.tw_task->0.description),
        e.fetched_vtodo->0.vtodo.description == first_annotation(e.tw_task->0),
        e.fetched_vtodo->0.vtodo.due == e.tw_task->0.due,
        e.fetched_vtodo->0.vtodo.dtstart == e.tw_task->0.scheduled,
        e.fetched_vtodo->0.vtodo.completed == e.tw_task->0.end,
        e.fetched_vtodo->0.vtodo.priority == tw_priority_to_ical(e.tw_task->0.priority),
        e.fetched_vtodo->0.vtodo.categories.to_multiset() == (match e.tw_task->0.tags {
            Some(t) => t,
            None => Seq::<Seq<char>>::empty(),
        }).to_multiset(),
        depends_on_uids(e.fetched_vtodo->0.vtodo.depends).to_multiset() == e.resolved_depends.to_multiset(),
        normalized_status(
            match e.fetched_vtodo->0.vtodo.status {
                Some(s) => s,
                None => "NEEDS-ACTION"@,
            },
        ) == normalized_status(e.tw_task->0.status),
{
}

/// A DESCRIPTION that differs from the task's first annotation (or is present where the
/// other is absent) makes the entry a conflict, not a skip: last-write-wins then picks
/// the side modified last, CalDAV when its LAST-MODIFIED (else DTSTAMP) is later than
/// the task's modification (else entry) time.
pub proof fn lemma_description_edit_is_synced(e: IREntryView, now: Timestamp)
    requires
        e.fetched_vtodo->0.vtodo.description != first_annotation(e.tw_task->0),
    ensures
        !content_identical_spec(e, now),
        lww_spec(e, now) is ResolveConflict,
        ({
            let v = e.fetched_vtodo->0.vtodo;
            let tw = e.tw_task->0;
            let cal_ts = if v.last_modified is Some { v.last_modified } else { v.dtstamp };
            let tw_ts = if tw.modified is Some { tw.modified->0 } else { tw.entry };
            (cal_ts matches Some(c) && c > tw_ts) ==> lww_spec(e, now) == (PlannedOpView::ResolveConflict {
                entry: e,
                winner: Side::CalDav,
                reason: UpdateReason::LwwCalDavWins,
            })
        }),
{
    if content_identical_spec(e, now) {
        lemma_identical_means_fields_agree(e, now);
    }
}

/// Last-write-wins: an entry whose sides are not identical goes to the side modified
/// last. CalDAV wins exactly when its LAST-MODIFIED (else its DTSTAMP) is later than the
/// task's modification time (else its entry time); on a tie, or when CalDAV has no time,
/// TaskWarrior wins. Identical sides are skipped.
pub proof fn lemma_lww_picks_latest(e: IREntryView, now: Timestamp)
    ensures
        content_identical_spec(e, now) ==> lww_spec(e, now) == (PlannedOpView::Skip {
            tw_uuid: e.tw_uuid,
            reason: SkipReason::Identical,
        }),
        ({
            let v = e.fetched_vtodo->0.vtodo;
            let tw = e.tw_task->0;
            let cal_ts = if v.last_modified is Some { v.last_modified } else { v.dtstamp };
            let tw_ts = if tw.modified is Some { tw.modified->0 } else { tw.entry };
            !content_identical_spec(e, now) ==> lww_spec(e, now) == if cal_ts matches Some(c) && c > tw_ts {
                PlannedOpView::ResolveConflict { entry: e, winner: Side::CalDav, reason: UpdateReason::LwwCalDavWins }
            } else {
                PlannedOpView::ResolveConflict { entry: e, winner: Side::Tw, reason: UpdateReason::LwwTwWins }
            }
        }),
{
}

} // verus!
