//! Per-entry decisions of the write-back: what to do, and the data written to each side.
use vstd::prelude::*;
use vstd::string::StringExecFns;

use crate::mapper::fields::{
    caldav_fields_spec, caldav_to_tw_fields, depends_of_uuids, opt_prop, tw_fields_spec, tw_to_caldav_fields,
    wait_prop_name, wait_prop_spec,
};
use crate::mapper::status::{status_spec, tw_to_caldav_status, TwToCalDavStatus};
use crate::sync::lww::{is_paired, lww_spec, resolve_lww};
use crate::text::{ascii_lower, eq_ignore_ascii_case, str_eq};
use crate::trusted::{uuid_text, uuid_to_string};
use crate::types::{
    annotations_view, copy_annotations, copy_opt_string, copy_props, depends_view, opt_str,
    props_view, str_seq, IREntry, IREntryView, IcalProp, IcalPropView, PlannedOp, PlannedOpView, RelType,
    RelTypeView, Side, SkipReason, TWTask, TWTaskView, Timestamp, TwAnnotation, TwAnnotationView, UpdateReason,
    VTODOView, VTODO,
};

verus! {

/// The CalDAV status of an entry's VTODO, NEEDS-ACTION when absent.
pub open spec fn caldav_status(e: IREntryView) -> Seq<char> {
    match e.fetched_vtodo {
        Some(f) => match f.vtodo.status {
            Some(s) => s,
            None => "NEEDS-ACTION"@,
        },
        None => "NEEDS-ACTION"@,
    }
}

/// Entries that carry a TaskWarrior task also carry its UUID.
pub open spec fn entry_wf(e: IREntryView) -> bool {
    e.tw_task is Some ==> e.tw_uuid is Some
}

/// The operation planned for one entry (`None` only when it has neither side).
pub open spec fn decide_spec(e: IREntryView, now: Timestamp) -> Option<PlannedOpView> {
    match (e.tw_task, e.fetched_vtodo) {
        (Some(tw), Some(_)) => {
            let tws = tw.status;
            let cs = caldav_status(e);
            if tws == "deleted"@ && cs == "CANCELLED"@ {
                Some(PlannedOpView::Skip { tw_uuid: e.tw_uuid, reason: SkipReason::AlreadyDeleted })
            } else if tws == "deleted"@ {
                Some(PlannedOpView::ResolveConflict { entry: e, winner: Side::Tw, reason: UpdateReason::TwDeletedMarkCancelled })
            } else if cs == "CANCELLED"@ {
                Some(PlannedOpView::Skip {
                    tw_uuid: e.tw_uuid,
                    reason: if tws == "completed"@ {
                        SkipReason::CalDavDeletedTwTerminal
                    } else {
                        SkipReason::Cancelled
                    },
                })
            } else if tws == "completed"@ && cs != "COMPLETED"@ {
                Some(PlannedOpView::ResolveConflict { entry: e, winner: Side::Tw, reason: UpdateReason::TwCompletedMarkCompleted })
            } else if cs == "COMPLETED"@ && tws != "completed"@ {
                Some(PlannedOpView::ResolveConflict { entry: e, winner: Side::CalDav, reason: UpdateReason::CalDavCompletedUpdateTw })
            } else {
                Some(lww_spec(e, now))
            }
        },
        (Some(tw), None) => {
            if tw.status == "deleted"@ {
                Some(PlannedOpView::Skip { tw_uuid: e.tw_uuid, reason: SkipReason::DeletedBeforeSync })
            } else if tw.status == "recurring"@ {
                Some(PlannedOpView::Skip { tw_uuid: e.tw_uuid, reason: SkipReason::Recurring })
            } else if tw.caldavuid is Some {
                Some(PlannedOpView::DeleteFromTw(e))
            } else {
                Some(PlannedOpView::PushToCalDav(e))
            }
        },
        (None, Some(_)) => {
            let cs = caldav_status(e);
            if cs == "COMPLETED"@ {
                Some(PlannedOpView::Skip { tw_uuid: None, reason: SkipReason::Completed })
            } else if cs == "CANCELLED"@ {
                Some(PlannedOpView::Skip { tw_uuid: None, reason: SkipReason::Cancelled })
            } else {
                Some(PlannedOpView::PullFromCalDav(e))
            }
        },
        (None, None) => None,
    }
}

/// A VTODO marked `CANCELLED` is never imported: whatever the TaskWarrior side holds, the
/// plan for its entry is a skip.
pub proof fn lemma_cancelled_is_skipped(e: IREntryView, now: Timestamp)
    requires
        e.fetched_vtodo is Some,
        caldav_status(e) == "CANCELLED"@,
    ensures
        decide_spec(e, now) matches Some(PlannedOpView::Skip { .. }),
{
    crate::text::lemma_status_words();
}

/// A task deleted in TaskWarrior is never brought back: the plan for its entry neither
/// imports the VTODO nor lets CalDAV win.
pub proof fn lemma_deleted_task_not_resurrected(e: IREntryView, now: Timestamp)
    requires
        e.tw_task matches Some(t) && t.status == "deleted"@,
    ensures
        !(decide_spec(e, now) matches Some(PlannedOpView::PullFromCalDav(_))),
        !(decide_spec(e, now) matches Some(PlannedOpView::ResolveConflict { winner: Side::CalDav, .. })),
        !(decide_spec(e, now) matches Some(PlannedOpView::DeleteFromTw(_))),
{
    crate::text::lemma_status_words();
}

/// What is planned for a task that CalDAV does not hold: a recurring task (the template
/// of a recurrence) and a task deleted before it was ever synced are skipped and nothing
/// is written; a task that was synced once (it has a CalDAV UID) was deleted on CalDAV and
/// is deleted in TaskWarrior; any other task is pushed to CalDAV.
pub proof fn lemma_tw_only_plans(e: IREntryView, now: Timestamp)
    requires
        e.tw_task is Some,
        e.fetched_vtodo is None,
    ensures
        e.tw_task->0.status == "recurring"@ ==> decide_spec(e, now) == Some(
            PlannedOpView::Skip { tw_uuid: e.tw_uuid, reason: SkipReason::Recurring },
        ),
        e.tw_task->0.status == "deleted"@ ==> decide_spec(e, now) == Some(
            PlannedOpView::Skip { tw_uuid: e.tw_uuid, reason: SkipReason::DeletedBeforeSync },
        ),
        (e.tw_task->0.status != "recurring"@ && e.tw_task->0.status != "deleted"@) ==> (decide_spec(e, now) == Some(
            if e.tw_task->0.caldavuid is Some {
                PlannedOpView::DeleteFromTw(e)
            } else {
                PlannedOpView::PushToCalDav(e)
            },
        )),
        !(decide_spec(e, now) matches Some(PlannedOpView::PushToCalDav(_))) || (e.tw_task->0.status != "recurring"@
            && e.tw_task->0.status != "deleted"@ && e.tw_task->0.caldavuid is None),
{
    crate::text::lemma_status_words();
}

/// What is planned for a VTODO that TaskWarrior does not hold: a completed or cancelled
/// one is skipped; any other is imported into TaskWarrior.
pub proof fn lemma_caldav_only_plans(e: IREntryView, now: Timestamp)
    requires
        e.tw_task is None,
        e.fetched_vtodo is Some,
    ensures
        (caldav_status(e) == "COMPLETED"@ || caldav_status(e) == "CANCELLED"@) ==> decide_spec(e, now) matches Some(
            PlannedOpView::Skip { tw_uuid: None, .. },
        ),
        !(caldav_status(e) == "COMPLETED"@ || caldav_status(e) == "CANCELLED"@) ==> decide_spec(e, now) == Some(
            PlannedOpView::PullFromCalDav(e),
        ),
{
    crate::text::lemma_status_words();
}

pub open spec fn opt_op(o: Option<PlannedOp>) -> Option<PlannedOpView> {
    match o {
        Some(op) => Some(op@),
        None => None,
    }
}

/// Classifies one entry into the operation to perform.
pub fn decide_op(entry: &IREntry, now: Timestamp) -> (r: Option<PlannedOp>)
    requires
        entry_wf(entry@),
    ensures
        opt_op(r) == decide_spec(entry@, now),
{
    match (&entry.tw_task, &entry.fetched_vtodo) {
        (Some(tw), Some(fv)) => {
            let tw_uuid = entry.tw_uuid.unwrap();
            let tws = tw.status.as_str();
            let cs = match &fv.vtodo.status {
                Some(s) => s.as_str(),
                None => "NEEDS-ACTION",
            };
            if str_eq(tws, "deleted") && str_eq(cs, "CANCELLED") {
                return Some(PlannedOp::Skip { tw_uuid: Some(tw_uuid), reason: SkipReason::AlreadyDeleted });
            }
            if str_eq(tws, "deleted") {
                return Some(PlannedOp::ResolveConflict { entry: entry.clone(), winner: Side::Tw, reason: UpdateReason::TwDeletedMarkCancelled });
            }
            if str_eq(cs, "CANCELLED") {
                let reason = if str_eq(tws, "completed") {
                    SkipReason::CalDavDeletedTwTerminal
                } else {
                    SkipReason::Cancelled
                };
                return Some(PlannedOp::Skip { tw_uuid: Some(tw_uuid), reason });
            }
            if str_eq(tws, "completed") && !str_eq(cs, "COMPLETED") {
                return Some(PlannedOp::ResolveConflict { entry: entry.clone(), winner: Side::Tw, reason: UpdateReason::TwCompletedMarkCompleted });
            }
            if str_eq(cs, "COMPLETED") && !str_eq(tws, "completed") {
                return Some(PlannedOp::ResolveConflict { entry: entry.clone(), winner: Side::CalDav, reason: UpdateReason::CalDavCompletedUpdateTw });
            }
            Some(resolve_lww(entry.clone(), now))
        },
        (Some(tw), None) => {
            let tw_uuid = entry.tw_uuid.unwrap();
            if str_eq(tw.status.as_str(), "deleted") {
                return Some(PlannedOp::Skip { tw_uuid: Some(tw_uuid), reason: SkipReason::DeletedBeforeSync });
            }
            if str_eq(tw.status.as_str(), "recurring") {
                return Some(PlannedOp::Skip { tw_uuid: Some(tw_uuid), reason: SkipReason::Recurring });
            }
            if tw.caldavuid.is_some() {
                return Some(PlannedOp::DeleteFromTw(entry.clone()));
            }
            Some(PlannedOp::PushToCalDav(entry.clone()))
        },
        (None, Some(fv)) => {
            let cs = match &fv.vtodo.status {
                Some(s) => s.as_str(),
                None => "NEEDS-ACTION",
            };
            if str_eq(cs, "COMPLETED") {
                Some(PlannedOp::Skip { tw_uuid: None, reason: SkipReason::Completed })
            } else if str_eq(cs, "CANCELLED") {
                Some(PlannedOp::Skip { tw_uuid: None, reason: SkipReason::Cancelled })
            } else {
                Some(PlannedOp::PullFromCalDav(entry.clone()))
            }
        },
        (None, None) => None,
    }
}

// ---------------------------------------------------------------------------
// Annotation slot 0 belongs to the CalDAV DESCRIPTION
// ---------------------------------------------------------------------------

/// Merges CalDAV DESCRIPTION text into TaskWarrior annotations: slot 0 is owned by the
/// sync, later slots are the user's and are kept.
pub open spec fn merge_annotations_spec(
    text: Option<Seq<char>>,
    base: Seq<TwAnnotationView>,
    now: Timestamp,
) -> Seq<TwAnnotationView> {
    match text {
        None => base,
        Some(t) => {
            let new_ann = TwAnnotationView { entry: now as int, description: t };
            if base.len() == 0 {
                seq![new_ann]
            } else if base[0].description == t {
                base
            } else {
                seq![new_ann] + base.skip(1)
            }
        },
    }
}

/// Slot 0 of the annotations takes the CalDAV text; the others stay.
pub fn merge_annotations(text: Option<&str>, base: Vec<TwAnnotation>, now: Timestamp) -> (r: Vec<TwAnnotation>)
    ensures
        annotations_view(r@) == merge_annotations_spec(
            match text {
                Some(t) => Some(t@),
                None => None,
            },
            annotations_view(base@),
            now,
        ),
{
    match text {
        None => base,
        Some(t) => {
            let new_ann = TwAnnotation { entry: now, description: String::from_str(t) };
            if base.len() == 0 {
                let mut r = Vec::new();
                r.push(new_ann);
                assert(annotations_view(r@) =~= seq![TwAnnotationView { entry: now as int, description: t@ }]);
                r
            } else if str_eq(base[0].description.as_str(), t) {
                base
            } else {
                let mut r = Vec::new();
                r.push(new_ann);
                let mut i: usize = 1;
                while i < base.len()
                    invariant
                        1 <= i <= base.len(),
                        r.len() == i,
                        r@[0]@ == (TwAnnotationView { entry: now as int, description: t@ }),
                        forall|k: int| 1 <= k < i ==> r@[k]@ == base@[k]@,
                    decreases base.len() - i,
                {
                    r.push(base[i].clone());
                    i += 1;
                }
                assert(annotations_view(r@) =~= seq![TwAnnotationView { entry: now as int, description: t@ }]
                    + annotations_view(base@).skip(1));
                r
            }
        },
    }
}

// ---------------------------------------------------------------------------
// TW -> CalDAV
// ---------------------------------------------------------------------------

/// The existing VTODO's extra properties without the wait property, then the wait
/// property when the wait still lies ahead.
pub open spec fn merged_extra_props(e: IREntryView, t: TWTaskView, now: Timestamp) -> Seq<IcalPropView> {
    let kept = match e.fetched_vtodo {
        Some(f) => f.vtodo.extra_props.filter(|p: IcalPropView| ascii_lower(p.name) != ascii_lower(wait_prop_name())),
        None => Seq::empty(),
    };
    match wait_prop_spec(t.wait, now) {
        Some(w) => kept.push(w),
        None => kept,
    }
}

/// The VTODO written for a TaskWarrior task.
pub open spec fn vtodo_from_tw_spec(e: IREntryView, t: TWTaskView, now: Timestamp, v: VTODOView) -> bool {
    let st = t.status;
    &&& v.uid == match e.caldav_uid {
        Some(u) => u,
        None => uuid_text(t.uuid),
    }
    &&& v.summary == (if t.description == "(no title)"@ {
        None::<Seq<char>>
    } else {
        Some(t.description)
    })
    &&& v.description == (if t.annotations.len() > 0 {
        Some(t.annotations[0].description)
    } else {
        None::<Seq<char>>
    })
    &&& v.status == (if st == "recurring"@ {
        None::<Seq<char>>
    } else if st == "completed"@ {
        Some("COMPLETED"@)
    } else if st == "deleted"@ {
        Some("CANCELLED"@)
    } else {
        Some("NEEDS-ACTION"@)
    })
    &&& v.completed == (if st == "completed"@ {
        Some(
            match t.end {
                Some(x) => x,
                None => t.entry,
            },
        )
    } else {
        None::<Timestamp>
    })
    &&& v.last_modified == Some(
        match t.modified {
            Some(m) => m,
            None => t.entry,
        },
    )
    &&& v.dtstamp is None
    &&& v.dtstart == t.scheduled
    &&& v.due == t.due
    &&& v.categories == match t.tags {
        Some(tags) => tags,
        None => Seq::empty(),
    }
    &&& v.rrule is None
    &&& v.priority == crate::mapper::fields::tw_priority_to_ical(t.priority)
    &&& v.depends == e.resolved_depends.map_values(|u: Seq<char>| (RelTypeView::DependsOn, u))
    &&& v.extra_props == merged_extra_props(e, t, now)
    &&& crate::mapper::fields::wait_reads_back(t.wait, now)
    &&& !v.due_is_date_only
    &&& !v.dtstart_is_date_only
}

/// Builds the VTODO for a TaskWarrior task, keeping the existing VTODO's extra properties.
pub fn build_vtodo_from_tw(entry: &IREntry, tw: &TWTask, now: Timestamp) -> (v: VTODO)
    ensures
        vtodo_from_tw_spec(entry@, tw@, now, v@),
{
    let fields = tw_to_caldav_fields(tw, now);
    let status_result = tw_to_caldav_status(tw);
    proof {
        crate::text::lemma_status_words();
    }
    let (status_str, completed_dt) = match &status_result {
        TwToCalDavStatus::NeedsAction => (Some(String::from_str("NEEDS-ACTION")), None),
        TwToCalDavStatus::NeedsActionWithWait(_) => (Some(String::from_str("NEEDS-ACTION")), None),
        TwToCalDavStatus::Completed(dt) => (Some(String::from_str("COMPLETED")), Some(*dt)),
        TwToCalDavStatus::TwStateDeleted => (Some(String::from_str("CANCELLED")), None),
        TwToCalDavStatus::Skip(_) => (None, None),
    };
    let uid = match &entry.caldav_uid {
        Some(u) => u.clone(),
        None => uuid_to_string(tw.uuid),
    };
    // Keep the existing extra properties except the wait property, which is rewritten.
    let mut extra_props: Vec<IcalProp> = Vec::new();
    let ghost old_props: Seq<IcalPropView> = match entry@.fetched_vtodo {
        Some(f) => f.vtodo.extra_props,
        None => Seq::empty(),
    };
    let ghost keep = |p: IcalPropView| ascii_lower(p.name) != ascii_lower(wait_prop_name());
    match &entry.fetched_vtodo {
        Some(fv) => {
            let props = &fv.vtodo.extra_props;
            let mut i: usize = 0;
            while i < props.len()
                invariant
                    i <= props.len(),
                    old_props == props_view(props@),
                    keep == (|p: IcalPropView| ascii_lower(p.name) != ascii_lower(wait_prop_name())),
                    props_view(extra_props@) == old_props.take(i as int).filter(keep),
                decreases props.len() - i,
            {
                assert(old_props.take(i + 1).drop_last() =~= old_props.take(i as int));
                assert(old_props.take(i + 1).last() == props@[i as int]@);
                let ghost prev = props_view(extra_props@);
                if !eq_ignore_ascii_case(props[i].name.as_str(), "X-TASKWARRIOR-WAIT") {
                    extra_props.push(props[i].clone());
                    assert(props_view(extra_props@) =~= prev.push(props@[i as int]@));
                } else {
                    assert(props_view(extra_props@) =~= prev);
                }
                proof {
                    reveal_with_fuel(Seq::<_>::filter, 1);
                }
                i += 1;
            }
            assert(old_props.take(props.len() as int) =~= old_props);
        },
        None => {
            reveal_with_fuel(Seq::<_>::filter, 1);
            assert(props_view(extra_props@) =~= old_props.filter(keep));
        },
    }
    let ghost kept = props_view(extra_props@);
    match fields.wait {
        Some(wp) => {
            extra_props.push(wp);
            assert(props_view(extra_props@) =~= kept.push(wait_prop_spec(tw@.wait, now)->0));
        },
        None => {},
    }
    let categories = match &tw.tags {
        Some(t) => crate::types::copy_string_vec(t),
        None => Vec::new(),
    };
    assert(str_seq(categories@) == match tw@.tags {
        Some(tags) => tags,
        None => Seq::<Seq<char>>::empty(),
    }) by {
        if tw.tags is None {
            assert(str_seq(categories@) =~= Seq::<Seq<char>>::empty());
        }
    }
    let mut depends: Vec<(RelType, String)> = Vec::new();
    let mut i: usize = 0;
    while i < entry.resolved_depends.len()
        invariant
            i <= entry.resolved_depends.len(),
            depends.len() == i,
            forall|k: int| 0 <= k < i ==> (#[trigger] depends@[k]).0@ == RelTypeView::DependsOn && depends@[k].1@
                == entry.resolved_depends@[k]@,
        decreases entry.resolved_depends.len() - i,
    {
        depends.push((RelType::DependsOn, entry.resolved_depends[i].clone()));
        i += 1;
    }
    assert(depends_view(depends@) =~= str_seq(entry.resolved_depends@).map_values(
        |u: Seq<char>| (RelTypeView::DependsOn, u),
    ));
    let last_modified = match tw.modified {
        Some(m) => m,
        None => tw.entry,
    };
    VTODO {
        uid,
        summary: fields.summary,
        description: fields.annotations,
        status: status_str,
        last_modified: Some(last_modified),
        dtstamp: None,
        dtstart: fields.dtstart,
        due: fields.due,
        completed: completed_dt,
        categories,
        rrule: None,
        priority: fields.priority,
        depends,
        extra_props,
        due_is_date_only: false,
        dtstart_is_date_only: false,
    }
}

// ---------------------------------------------------------------------------
// CalDAV -> TW
// ---------------------------------------------------------------------------

/// CalDAV UID to TaskWarrior UUID pairs of the entries that have both, in entry order.
pub open spec fn caldav_pairs(es: Seq<IREntryView>) -> Seq<(Seq<char>, u128)>
    decreases es.len(),
{
    if es.len() == 0 {
        Seq::empty()
    } else {
        let prev = caldav_pairs(es.drop_last());
        let e = es.last();
        if e.caldav_uid is Some && e.tw_uuid is Some {
            prev.push((e.caldav_uid->0, e.tw_uuid->0))
        } else {
            prev
        }
    }
}

/// The UUID paired with a CalDAV UID: the last pair that names it.
pub open spec fn lookup_uid(pairs: Seq<(Seq<char>, u128)>, uid: Seq<char>) -> Option<u128>
    decreases pairs.len(),
{
    if pairs.len() == 0 {
        None
    } else if pairs.last().0 == uid {
        Some(pairs.last().1)
    } else {
        lookup_uid(pairs.drop_last(), uid)
    }
}

pub open spec fn pairs_view(v: Seq<(String, u128)>) -> Seq<(Seq<char>, u128)> {
    v.map_values(|p: (String, u128)| (p.0@, p.1))
}

/// Reverse index from CalDAV UID to TaskWarrior UUID over the whole IR.
pub fn build_caldav_index(ir: &Vec<IREntry>) -> (idx: Vec<(String, u128)>)
    ensures
        pairs_view(idx@) == caldav_pairs(crate::types::entries_view(ir@)),
{
    let ghost es = crate::types::entries_view(ir@);
    let mut idx: Vec<(String, u128)> = Vec::new();
    let mut i: usize = 0;
    while i < ir.len()
        invariant
            i <= ir.len(),
            es == crate::types::entries_view(ir@),
            pairs_view(idx@) == caldav_pairs(es.take(i as int)),
        decreases ir.len() - i,
    {
        assert(es.take(i + 1).drop_last() =~= es.take(i as int));
        assert(es.take(i + 1).last() == ir@[i as int]@);
        match (&ir[i].caldav_uid, ir[i].tw_uuid) {
            (Some(uid), Some(uuid)) => {
                let ghost prev = pairs_view(idx@);
                idx.push((uid.clone(), uuid));
                assert(pairs_view(idx@) =~= prev.push((uid@, uuid)));
            },
            _ => {},
        }
        i += 1;
    }
    assert(es.take(ir.len() as int) =~= es);
    idx
}

fn lookup_uid_exec(idx: &Vec<(String, u128)>, uid: &str) -> (r: Option<u128>)
    ensures
        r == lookup_uid(pairs_view(idx@), uid@),
{
    let ghost pv = pairs_view(idx@);
    let mut i: usize = idx.len();
    assert(pv.take(i as int) =~= pv);
    while i > 0
        invariant
            i <= idx.len(),
            pv == pairs_view(idx@),
            lookup_uid(pv, uid@) == lookup_uid(pv.take(i as int), uid@),
        decreases i,
    {
        assert(pv.take(i as int).drop_last() =~= pv.take(i - 1));
        assert(pv.take(i as int).last() == (idx@[i - 1].0@, idx@[i - 1].1));
        if str_eq(idx[i - 1].0.as_str(), uid) {
            return Some(idx[i - 1].1);
        }
        i -= 1;
    }
    None
}

/// TaskWarrior UUIDs of a VTODO's DEPENDS-ON relations that the index knows, in order.
pub open spec fn mapped_depends(pairs: Seq<(Seq<char>, u128)>, ds: Seq<(RelTypeView, Seq<char>)>) -> Seq<u128>
    decreases ds.len(),
{
    if ds.len() == 0 {
        Seq::empty()
    } else {
        let prev = mapped_depends(pairs, ds.drop_last());
        let d = ds.last();
        if d.0 is DependsOn && lookup_uid(pairs, d.1) is Some {
            prev.push(lookup_uid(pairs, d.1)->0)
        } else {
            prev
        }
    }
}

/// TaskWarrior status for a CalDAV status.
pub open spec fn tw_status_of(cs: Seq<char>) -> Seq<char> {
    if cs == "COMPLETED"@ {
        "completed"@
    } else if cs == "CANCELLED"@ {
        "deleted"@
    } else {
        "pending"@
    }
}

/// The TaskWarrior task written for an entry's VTODO, keeping what only TaskWarrior holds.
pub open spec fn tw_from_caldav_spec(
    e: IREntryView,
    pairs: Seq<(Seq<char>, u128)>,
    now: Timestamp,
    t: TWTaskView,
) -> bool {
    let v = e.fetched_vtodo->0.vtodo;
    let base = e.tw_task;
    let desc = match v.description {
        Some(d) => if crate::text::trim(d).len() == 0 {
            None::<Seq<char>>
        } else {
            Some(crate::text::trim(d))
        },
        None => None,
    };
    &&& t.uuid == e.tw_uuid->0
    &&& t.status == tw_status_of(caldav_status(e))
    &&& t.description == match v.summary {
        Some(s) => s,
        None => "(no title)"@,
    }
    &&& t.entry == match base {
        Some(b) => b.entry,
        None => now,
    }
    &&& t.modified == match base {
        Some(b) => b.modified,
        None => None,
    }
    &&& t.due == v.due
    &&& t.scheduled == v.dtstart
    &&& t.wait == crate::mapper::fields::vtodo_wait(v)
    &&& t.until == match base {
        Some(b) => b.until,
        None => None,
    }
    &&& t.end == v.completed
    &&& t.caldavuid == e.caldav_uid
    &&& t.priority == crate::mapper::fields::ical_priority_to_tw(v.priority)
    &&& t.project == match base {
        Some(b) => b.project,
        None => e.project,
    }
    &&& t.tags == if v.categories.len() == 0 {
        None::<Seq<Seq<char>>>
    } else {
        Some(v.categories)
    }
    &&& t.recur is None
    &&& t.urgency == match base {
        Some(b) => b.urgency,
        None => None,
    }
    &&& t.id == match base {
        Some(b) => b.id,
        None => None,
    }
    &&& t.depends == mapped_depends(pairs, v.depends)
    &&& t.annotations == merge_annotations_spec(
        desc,
        match base {
            Some(b) => b.annotations,
            None => Seq::empty(),
        },
        now,
    )
}

/// Builds the TaskWarrior task for an entry's VTODO, mapping DEPENDS-ON UIDs back to
/// TaskWarrior UUIDs through the index and keeping TaskWarrior-only data.
pub fn build_tw_task_from_caldav(entry: &IREntry, caldav_index: &Vec<(String, u128)>, now: Timestamp) -> (t: TWTask)
    requires
        entry.fetched_vtodo is Some,
        entry.tw_uuid is Some,
    ensures
        tw_from_caldav_spec(entry@, pairs_view(caldav_index@), now, t@),
{
    let vtodo = &entry.fetched_vtodo.as_ref().unwrap().vtodo;
    let fields = caldav_to_tw_fields(vtodo);
    proof {
        crate::text::lemma_status_words();
    }
    let cs = match &vtodo.status {
        Some(s) => s.as_str(),
        None => "NEEDS-ACTION",
    };
    let status = if str_eq(cs, "COMPLETED") {
        "completed"
    } else if str_eq(cs, "CANCELLED") {
        "deleted"
    } else {
        "pending"
    };
    let ghost pv = pairs_view(caldav_index@);
    let ghost dv = depends_view(vtodo.depends@);
    let mut depends: Vec<u128> = Vec::new();
    let mut i: usize = 0;
    while i < vtodo.depends.len()
        invariant
            i <= vtodo.depends.len(),
            pv == pairs_view(caldav_index@),
            dv == depends_view(vtodo.depends@),
            depends@ == mapped_depends(pv, dv.take(i as int)),
        decreases vtodo.depends.len() - i,
    {
        assert(dv.take(i + 1).drop_last() =~= dv.take(i as int));
        assert(dv.take(i + 1).last() == (vtodo.depends@[i as int].0@, vtodo.depends@[i as int].1@));
        match &vtodo.depends[i].0 {
            RelType::DependsOn => {
                match lookup_uid_exec(caldav_index, vtodo.depends[i].1.as_str()) {
                    Some(u) => depends.push(u),
                    None => {},
                }
            },
            RelType::Other(_) => {},
        }
        i += 1;
    }
    assert(dv.take(vtodo.depends.len() as int) =~= dv);
    let tw_uuid = entry.tw_uuid.unwrap();
    let (base_entry, modified, until, project, urgency, id, base_anns) = match &entry.tw_task {
        Some(b) => (
            b.entry,
            b.modified,
            b.until,
            copy_opt_string(&b.project),
            b.urgency,
            b.id,
            copy_annotations(&b.annotations),
        ),
        None => (now, None, None, copy_opt_string(&entry.project), None, None, Vec::new()),
    };
    let tags = if vtodo.categories.len() == 0 {
        None
    } else {
        Some(crate::types::copy_string_vec(&vtodo.categories))
    };
    assert(annotations_view(base_anns@) == match entry@.tw_task {
        Some(b) => b.annotations,
        None => Seq::empty(),
    });
    let annotations = match &fields.annotations_text {
        Some(t) => merge_annotations(Some(t.as_str()), base_anns, now),
        None => merge_annotations(None, base_anns, now),
    };
    TWTask {
        uuid: tw_uuid,
        status: String::from_str(status),
        description: fields.description,
        entry: base_entry,
        modified,
        due: fields.due,
        scheduled: fields.scheduled,
        wait: fields.wait,
        until,
        end: vtodo.completed,
        caldavuid: copy_opt_string(&entry.caldav_uid),
        priority: fields.priority,
        project,
        tags,
        recur: None,
        urgency,
        id,
        depends,
        annotations,
    }
}

/// The href a VTODO is written to: the stored one, else `{calendar_url}/{caldav_uid}.ics`.
pub open spec fn entry_href_spec(e: IREntryView) -> Seq<char> {
    match e.fetched_vtodo {
        Some(f) => f.href,
        None => {
            let cal = match e.calendar_url {
                Some(c) => c,
                None => Seq::empty(),
            };
            let uid = match e.caldav_uid {
                Some(u) => u,
                None => Seq::empty(),
            };
            crate::mapper::fields::strip_trailing(cal, '/') + "/"@ + uid + ".ics"@
        },
    }
}

/// The CalDAV href for an entry.
pub fn entry_href(entry: &IREntry) -> (h: String)
    ensures
        h@ == entry_href_spec(entry@),
{
    match &entry.fetched_vtodo {
        Some(fv) => String::from_str(fv.href.as_str()),
        None => {
            proof {
                reveal_strlit("");
            }
            let cal = match &entry.calendar_url {
                Some(c) => c.as_str(),
                None => "",
            };
            let uid = match &entry.caldav_uid {
                Some(u) => u.as_str(),
                None => "",
            };
            let v = crate::text::chars_of(cal);
            let mut b = v.len();
            assert(v@.take(b as int) =~= cal@);
            while b > 0 && v[b - 1] == '/'
                invariant
                    b <= v.len(),
                    crate::mapper::fields::strip_trailing(v@.take(b as int), '/') == crate::mapper::fields::strip_trailing(cal@, '/'),
                decreases b,
            {
                assert(v@.take(b as int).drop_last() =~= v@.take(b - 1));
                b -= 1;
            }
            let mut h = crate::text::string_of_range(&v, 0, b);
            assert(v@.subrange(0, b as int) =~= v@.take(b as int));
            assert(!(v@.take(b as int).len() > 0 && v@.take(b as int).last() == '/'));
            assert(crate::mapper::fields::strip_trailing(v@.take(b as int), '/') == v@.take(b as int));
            assert(h@ == crate::mapper::fields::strip_trailing(cal@, '/'));
            h.append("/");
            h.append(uid);
            h.append(".ics");
            assert(h@ == crate::mapper::fields::strip_trailing(cal@, '/') + "/"@ + uid@ + ".ics"@);
            h
        },
    }
}

/// Merging a CalDAV DESCRIPTION into a task's annotations touches slot 0 only: the
/// result holds the text in slot 0 (taking the place of the old first annotation, or
/// becoming the only one), and every annotation at index 1 and above is kept unchanged at
/// its place; without a text the annotations are left as they are.
pub proof fn lemma_merge_keeps_user_annotations(text: Option<Seq<char>>, base: Seq<TwAnnotationView>, now: Timestamp)
    ensures
        text is None ==> merge_annotations_spec(text, base, now) == base,
        text matches Some(t) ==> {
            let r = merge_annotations_spec(text, base, now);
            &&& r.len() == if base.len() == 0 {
                1
            } else {
                base.len()
            }
            &&& r[0].description == t
            &&& forall|k: int| 1 <= k < base.len() ==> #[trigger] r[k] == base[k]
        },
{
}

/// The task written from a VTODO keeps the user's own annotations: every annotation of
/// the TaskWarrior task at index 1 and above is kept unchanged at its place, and slot 0
/// holds the VTODO's DESCRIPTION (trimmed) when it has one that is not blank.
pub proof fn lemma_pulled_task_keeps_annotations(
    e: IREntryView,
    pairs: Seq<(Seq<char>, u128)>,
    now: Timestamp,
    t: TWTaskView,
)
    requires
        tw_from_caldav_spec(e, pairs, now, t),
        e.tw_task is Some,
    ensures
        forall|k: int|
            1 <= k < e.tw_task->0.annotations.len() ==> #[trigger] t.annotations[k] == e.tw_task->0.annotations[k],
        t.annotations.len() >= e.tw_task->0.annotations.len(),
        match e.fetched_vtodo->0.vtodo.description {
            Some(d) => crate::text::trim(d).len() > 0 ==> t.annotations[0].description == crate::text::trim(d),
            None => true,
        },
{
    let v = e.fetched_vtodo->0.vtodo;
    let desc = match v.description {
        Some(d) => if crate::text::trim(d).len() == 0 {
            None::<Seq<char>>
        } else {
            Some(crate::text::trim(d))
        },
        None => None,
    };
    lemma_merge_keeps_user_annotations(desc, e.tw_task->0.annotations, now);
}

/// The VTODO written for a task keeps the existing VTODO's other properties: every
/// extra property of the fetched VTODO not named X-TASKWARRIOR-WAIT (in any case) is
/// written again, in the same order, ahead of the wait property; nothing else is added
/// but the wait property itself, and only while the wait lies ahead.
pub proof fn lemma_vtodo_keeps_other_properties(e: IREntryView, t: TWTaskView, now: Timestamp, v: VTODOView)
    requires
        vtodo_from_tw_spec(e, t, now, v),
        e.fetched_vtodo is Some,
    ensures
        ({
            let kept = e.fetched_vtodo->0.vtodo.extra_props.filter(
                |p: IcalPropView| ascii_lower(p.name) != ascii_lower("X-TASKWARRIOR-WAIT"@),
            );
            &&& kept.len() <= v.extra_props.len()
            &&& v.extra_props.take(kept.len() as int) == kept
            &&& v.extra_props.len() == kept.len() + if t.wait matches Some(w) && w > now {
                1int
            } else {
                0int
            }
        }),
{
    let kept = e.fetched_vtodo->0.vtodo.extra_props.filter(
        |p: IcalPropView| ascii_lower(p.name) != ascii_lower("X-TASKWARRIOR-WAIT"@),
    );
    assert(kept =~= e.fetched_vtodo->0.vtodo.extra_props.filter(
        |p: IcalPropView| ascii_lower(p.name) != ascii_lower(crate::mapper::fields::wait_prop_name()),
    ));
    if t.wait matches Some(w) && w > now {
        assert(v.extra_props.take(kept.len() as int) =~= kept);
    } else {
        assert(v.extra_props.take(kept.len() as int) =~= kept);
    }
}

/// What a conflict between the two sides is resolved to when the task and the VTODO are
/// both active: a task deleted in TaskWarrior cancels the VTODO (or is skipped when the
/// VTODO is already cancelled); a cancelled VTODO is skipped; a task completed only in
/// TaskWarrior completes the VTODO; a VTODO completed only on CalDAV completes the task;
/// otherwise last-write-wins decides.
pub proof fn lemma_paired_plans(e: IREntryView, now: Timestamp)
    requires
        e.tw_task is Some,
        e.fetched_vtodo is Some,
    ensures
        ({
            let tws = e.tw_task->0.status;
            let cs = caldav_status(e);
            &&& (tws == "deleted"@ && cs == "CANCELLED"@) ==> decide_spec(e, now) == Some(
                PlannedOpView::Skip { tw_uuid: e.tw_uuid, reason: SkipReason::AlreadyDeleted },
            )
            &&& (tws == "deleted"@ && cs != "CANCELLED"@) ==> decide_spec(e, now) == Some(
                PlannedOpView::ResolveConflict { entry: e, winner: Side::Tw, reason: UpdateReason::TwDeletedMarkCancelled },
            )
            &&& (tws != "deleted"@ && cs == "CANCELLED"@) ==> (decide_spec(e, now) matches Some(PlannedOpView::Skip { .. }))
            &&& (tws == "completed"@ && cs != "COMPLETED"@ && cs != "CANCELLED"@) ==> decide_spec(e, now) == Some(
                PlannedOpView::ResolveConflict { entry: e, winner: Side::Tw, reason: UpdateReason::TwCompletedMarkCompleted },
            )
            &&& (cs == "COMPLETED"@ && tws != "completed"@ && tws != "deleted"@) ==> decide_spec(e, now) == Some(
                PlannedOpView::ResolveConflict { entry: e, winner: Side::CalDav, reason: UpdateReason::CalDavCompletedUpdateTw },
            )
            &&& (tws != "deleted"@ && cs != "CANCELLED"@ && (tws == "completed"@) == (cs == "COMPLETED"@)) ==> decide_spec(
                e,
                now,
            ) == Some(lww_spec(e, now))
        }),
{
    crate::text::lemma_status_words();
}

/// The VTODO written for a task carries its state: pending and waiting tasks are
/// NEEDS-ACTION, completed ones COMPLETED with their end time (else their entry time),
/// deleted ones CANCELLED, and a recurring template has no STATUS; only a completed
/// task has a COMPLETED time. The SUMMARY is the description (none for "(no title)"),
/// the DESCRIPTION the first annotation, DUE and DTSTART the due and scheduled times, the
/// categories the tags, and the UID the entry's CalDAV UID (else the task's UUID as text).
pub proof fn lemma_written_vtodo_fields(e: IREntryView, t: TWTaskView, now: Timestamp, v: VTODOView)
    requires
        vtodo_from_tw_spec(e, t, now, v),
    ensures
        (t.status == "pending"@ || t.status == "waiting"@) ==> v.status == Some("NEEDS-ACTION"@),
        t.status == "completed"@ ==> v.status == Some("COMPLETED"@) && v.completed == Some(
            if t.end is Some {
                t.end->0
            } else {
                t.entry
            },
        ),
        t.status == "deleted"@ ==> v.status == Some("CANCELLED"@),
        t.status == "recurring"@ ==> v.status is None,
        t.status != "completed"@ ==> v.completed is None,
        t.description != "(no title)"@ ==> v.summary == Some(t.description),
        t.description == "(no title)"@ ==> v.summary is None,
        t.annotations.len() > 0 ==> v.description == Some(t.annotations[0].description),
        t.annotations.len() == 0 ==> v.description is None,
        v.due == t.due,
        v.dtstart == t.scheduled,
        t.tags matches Some(tags) ==> v.categories == tags,
        t.tags is None ==> v.categories.len() == 0,
        e.caldav_uid matches Some(u) ==> v.uid == u,
        e.caldav_uid is None ==> v.uid == uuid_text(t.uuid),
{
    crate::text::lemma_status_words();
}

/// The task written from a VTODO carries its state: a COMPLETED VTODO gives a completed
/// task, a CANCELLED one a deleted task, and any other (NEEDS-ACTION, IN-PROCESS or no
/// STATUS) a pending task. The description is the SUMMARY (else "(no title)"), the tags
/// the categories (none when there are none), DUE and DTSTART the due and scheduled
/// times, and the UUID and CalDAV UID those of the entry.
pub proof fn lemma_pulled_task_fields(e: IREntryView, pairs: Seq<(Seq<char>, u128)>, now: Timestamp, t: TWTaskView)
    requires
        tw_from_caldav_spec(e, pairs, now, t),
    ensures
        caldav_status(e) == "COMPLETED"@ ==> t.status == "completed"@,
        caldav_status(e) == "CANCELLED"@ ==> t.status == "deleted"@,
        (caldav_status(e) == "NEEDS-ACTION"@ || caldav_status(e) == "IN-PROCESS"@) ==> t.status == "pending"@,
        e.fetched_vtodo->0.vtodo.summary matches Some(s) ==> t.description == s,
        e.fetched_vtodo->0.vtodo.summary is None ==> t.description == "(no title)"@,
        e.fetched_vtodo->0.vtodo.categories.len() > 0 ==> t.tags == Some(e.fetched_vtodo->0.vtodo.categories),
        e.fetched_vtodo->0.vtodo.categories.len() == 0 ==> t.tags is None,
        t.due == e.fetched_vtodo->0.vtodo.due,
        t.scheduled == e.fetched_vtodo->0.vtodo.dtstart,
        t.uuid == e.tw_uuid->0,
        t.caldavuid == e.caldav_uid,
{
    crate::text::lemma_status_words();
}

} // verus!
