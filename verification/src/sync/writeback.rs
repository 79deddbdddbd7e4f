//! Write-back: carrying out the planned operation of every IR entry on both sides, with
//! retries on ETag conflicts.
use vstd::prelude::*;
use vstd::string::StringExecFns;

use crate::caldav_adapter::{CalDavClient, CalDavLog, CalDavWrite};
use crate::error::{error_message, CaldaWarriorError};
use crate::ical::write::{ical_text, to_icalendar_string};
use crate::sync::plan::{
    build_caldav_index, build_tw_task_from_caldav, build_vtodo_from_tw, caldav_status, decide_op, decide_spec,
    entry_href, entry_href_spec, entry_wf, opt_op, pairs_view, tw_from_caldav_spec, vtodo_from_tw_spec,
};
use crate::trusted::{debug_str, str_debug, uuid_text, uuid_to_string};
use crate::tw_adapter::{TwLog, TwWrite, TwWriter};
use crate::types::{
    opt_str, FetchedVTODO, FetchedVTODOView, IREntry, IREntryView, PlannedOp, PlannedOpView, Side, SkipReason,
    SyncResult, SyncResultView, TWTaskView, Timestamp, UpdateReason, VTODOView, VTODO,
};

verus! {

/// How many times one entry is tried when its ETag keeps conflicting.
pub const MAX_ETAG_RETRIES: usize = 3;

// ---------------------------------------------------------------------------
// What the write-back promises
// ---------------------------------------------------------------------------

/// Entries the write-back can act on: a TaskWarrior task comes with its UUID, and so does
/// an active CalDAV-only VTODO (it is created in TaskWarrior under that UUID).
pub open spec fn writeback_wf(e: IREntryView) -> bool {
    &&& entry_wf(e)
    &&& (e.tw_task is None && e.fetched_vtodo is Some && caldav_status(e) != "COMPLETED"@ && caldav_status(e)
        != "CANCELLED"@) ==> e.tw_uuid is Some
}

/// A cyclic entry is synced without its dependency relations.
pub open spec fn prepare_entry(e: IREntryView) -> IREntryView {
    if e.cyclic {
        IREntryView { resolved_depends: Seq::empty(), ..e }
    } else {
        e
    }
}

/// The operation planned for an entry, as a sequence of zero or one.
pub open spec fn planned_for(e: IREntryView, now: Timestamp) -> Seq<PlannedOpView> {
    match decide_spec(prepare_entry(e), now) {
        Some(op) => seq![op],
        None => Seq::empty(),
    }
}

/// The operations planned for a run of entries, in order.
pub open spec fn planned_spec(es: Seq<IREntryView>, now: Timestamp) -> Seq<PlannedOpView>
    decreases es.len(),
{
    if es.len() == 0 {
        Seq::empty()
    } else {
        planned_spec(es.drop_last(), now) + planned_for(es.last(), now)
    }
}

/// An operation that writes to the CalDAV server.
pub open spec fn is_caldav_write(op: PlannedOpView) -> bool {
    match op {
        PlannedOpView::PushToCalDav(_) => true,
        PlannedOpView::ResolveConflict { winner, reason, .. } => winner == Side::Tw && (reason == UpdateReason::LwwTwWins
            || reason == UpdateReason::TwCompletedMarkCompleted || reason == UpdateReason::TwDeletedMarkCancelled),
        _ => false,
    }
}

/// Number of operations that write to the CalDAV server.
pub open spec fn count_caldav_writes(ops: Seq<PlannedOpView>) -> nat
    decreases ops.len(),
{
    if ops.len() == 0 {
        0
    } else {
        count_caldav_writes(ops.drop_last()) + if is_caldav_write(ops.last()) {
            1nat
        } else {
            0nat
        }
    }
}

/// Number of skips.
pub open spec fn count_skips(ops: Seq<PlannedOpView>) -> nat
    decreases ops.len(),
{
    if ops.len() == 0 {
        0
    } else {
        count_skips(ops.drop_last()) + if ops.last() is Skip {
            1nat
        } else {
            0nat
        }
    }
}

/// What a dry run leaves of an entry: a task pushed to CalDAV records its CalDAV UID.
pub open spec fn dry_run_entry(e: IREntryView, now: Timestamp) -> IREntryView {
    let p = prepare_entry(e);
    match decide_spec(p, now) {
        Some(PlannedOpView::PushToCalDav(_)) => IREntryView {
            tw_task: Some(TWTaskView { caldavuid: p.caldav_uid, ..p.tw_task->0 }),
            ..p
        },
        _ => p,
    }
}

/// Identity of an entry: what the write-back never changes.
pub open spec fn same_identity(a: IREntryView, b: IREntryView) -> bool {
    &&& a.tw_uuid == b.tw_uuid
    &&& a.caldav_uid == b.caldav_uid
    &&& (a.tw_task is Some) == (b.tw_task is Some)
    &&& (a.fetched_vtodo is Some ==> b.fetched_vtodo is Some)
}

// ---------------------------------------------------------------------------
// Error texts
// ---------------------------------------------------------------------------

/// `Debug` of an optional UUID.
pub open spec fn debug_opt_uuid(u: Option<u128>) -> Seq<char> {
    match u {
        Some(x) => "Some("@ + uuid_text(x) + ")"@,
        None => "None"@,
    }
}

/// `Debug` of an optional string.
pub open spec fn debug_opt_str(s: Option<Seq<char>>) -> Seq<char> {
    match s {
        Some(x) => "Some("@ + str_debug(x) + ")"@,
        None => "None"@,
    }
}

/// The error recorded for an entry whose operation failed.
pub open spec fn entry_error_text(e: CaldaWarriorError, entry: IREntryView) -> Seq<char> {
    error_message(e) + " (tw_uuid="@ + debug_opt_uuid(entry.tw_uuid) + ", caldav_uid="@ + debug_opt_str(
        entry.caldav_uid,
    ) + ")"@
}

/// The error recorded for an entry whose ETag still conflicted on the last attempt.
pub open spec fn conflict_error_text(entry: IREntryView) -> Seq<char> {
    "SyncConflict: ETag conflict unresolved after 3 attempts (tw_uuid="@ + debug_opt_uuid(entry.tw_uuid)
        + ", caldav_uid="@ + debug_opt_str(entry.caldav_uid) + ", href="@ + debug_opt_str(
        match entry.fetched_vtodo {
            Some(f) => Some(f.href),
            None => None,
        },
    ) + ")"@
}

fn debug_opt_uuid_text(u: Option<u128>) -> (s: String)
    ensures
        s@ == debug_opt_uuid(u),
{
    match u {
        Some(x) => {
            let mut s = String::from_str("Some(");
            let t = uuid_to_string(x);
            s.append(t.as_str());
            s.append(")");
            s
        },
        None => String::from_str("None"),
    }
}

fn debug_opt_str_text(o: Option<&str>) -> (s: String)
    ensures
        s@ == debug_opt_str(match o {
            Some(x) => Some(x@),
            None => None,
        }),
{
    match o {
        Some(x) => {
            let mut s = String::from_str("Some(");
            let t = debug_str(x);
            s.append(t.as_str());
            s.append(")");
            s
        },
        None => String::from_str("None"),
    }
}

fn entry_error(e: &CaldaWarriorError, entry: &IREntry) -> (s: String)
    ensures
        s@ == entry_error_text(*e, entry@),
{
    let mut s = e.message();
    s.append(" (tw_uuid=");
    let u = debug_opt_uuid_text(entry.tw_uuid);
    s.append(u.as_str());
    s.append(", caldav_uid=");
    let c = debug_opt_str_text(match &entry.caldav_uid {
        Some(x) => Some(x.as_str()),
        None => None,
    });
    s.append(c.as_str());
    s.append(")");
    s
}

fn conflict_error(entry: &IREntry) -> (s: String)
    ensures
        s@ == conflict_error_text(entry@),
{
    let mut s = String::from_str("SyncConflict: ETag conflict unresolved after 3 attempts (tw_uuid=");
    let u = debug_opt_uuid_text(entry.tw_uuid);
    s.append(u.as_str());
    s.append(", caldav_uid=");
    let c = debug_opt_str_text(match &entry.caldav_uid {
        Some(x) => Some(x.as_str()),
        None => None,
    });
    s.append(c.as_str());
    s.append(", href=");
    let h = debug_opt_str_text(match &entry.fetched_vtodo {
        Some(f) => Some(f.href.as_str()),
        None => None,
    });
    s.append(h.as_str());
    s.append(")");
    s
}

// ---------------------------------------------------------------------------
// CalDAV writes
// ---------------------------------------------------------------------------

/// What the answer to a PUT does to the entry and to the count of CalDAV writes: a new
/// ETag and the written VTODO are recorded; on an ETag conflict the server's current VTODO
/// replaces the stored one and the write is to be retried; any other error is passed on.
pub open spec fn put_effect(
    old_e: IREntryView,
    new_e: IREntryView,
    href: Seq<char>,
    v: VTODOView,
    p: Result<Option<Seq<char>>, CaldaWarriorError>,
    r: Result<bool, CaldaWarriorError>,
    old_w: usize,
    new_w: usize,
) -> bool {
    match p {
        Ok(etag) => {
            &&& r == Ok::<bool, CaldaWarriorError>(true)
            &&& new_e == IREntryView {
                fetched_vtodo: Some(
                    FetchedVTODOView {
                        href: match old_e.fetched_vtodo {
                            Some(f) => f.href,
                            None => href,
                        },
                        etag,
                        vtodo: v,
                    },
                ),
                ..old_e
            }
            &&& new_w == old_w + 1
        },
        Err(e) => match e {
            CaldaWarriorError::EtagConflict { refetched_vtodo } => {
                &&& r == Ok::<bool, CaldaWarriorError>(false)
                &&& new_e == IREntryView { fetched_vtodo: Some(refetched_vtodo@), ..old_e }
                &&& new_w == old_w
            },
            _ => {
                &&& r == Err::<bool, CaldaWarriorError>(e)
                &&& new_e == old_e
                &&& new_w == old_w
            },
        },
    }
}

/// View of a PUT answer.
pub open spec fn put_view(p: Result<Option<String>, CaldaWarriorError>) -> Result<Option<Seq<char>>, CaldaWarriorError> {
    match p {
        Ok(t) => Ok(opt_str(t)),
        Err(e) => Err(e),
    }
}

/// Applies the answer to a PUT of `vtodo` at `href`.
pub fn after_put(
    entry: &mut IREntry,
    href: String,
    vtodo: VTODO,
    put: Result<Option<String>, CaldaWarriorError>,
    result: &mut SyncResult,
) -> (r: Result<bool, CaldaWarriorError>)
    requires
        old(result).written_caldav < usize::MAX,
    ensures
        put_effect(
            old(entry)@,
            final(entry)@,
            href@,
            vtodo@,
            put_view(put),
            r,
            old(result).written_caldav,
            final(result).written_caldav,
        ),
        final(result)@ == (SyncResultView { written_caldav: final(result).written_caldav, ..old(result)@ }),
{
    match put {
        Ok(new_etag) => {
            let ghost vv = vtodo@;
            let ghost ev = opt_str(new_etag);
            match &mut entry.fetched_vtodo {
                Some(fv) => {
                    fv.etag = new_etag;
                    fv.vtodo = vtodo;
                },
                None => {
                    entry.fetched_vtodo = Some(FetchedVTODO { href, etag: new_etag, vtodo });
                },
            }
            result.written_caldav = result.written_caldav + 1;
            Ok(true)
        },
        Err(e) => match e {
            CaldaWarriorError::EtagConflict { refetched_vtodo } => {
                entry.fetched_vtodo = Some(refetched_vtodo);
                Ok(false)
            },
            other => Err(other),
        },
    }
}

/// The ETag stored with an entry's VTODO.
pub open spec fn stored_etag(e: IREntryView) -> Option<Seq<char>> {
    match e.fetched_vtodo {
        Some(f) => f.etag,
        None => None,
    }
}

/// `w` is the PUT of `v` for an entry: at the entry's href, conditional on its stored
/// ETag, carrying the VTODO's iCalendar text stamped at some instant.
pub open spec fn put_of(w: CalDavWrite, e: IREntryView, v: VTODOView) -> bool {
    exists|d: Timestamp|
        w == (CalDavWrite::Put { href: entry_href_spec(e), text: #[trigger] ical_text(v, d), etag: stored_etag(e) })
}

/// Writes a VTODO for an entry to CalDAV (counted only in a dry run, which sends nothing).
/// `Ok(false)` asks for a retry after an ETag conflict.
pub fn try_put_caldav<C: CalDavClient>(
    entry: &mut IREntry,
    vtodo: VTODO,
    caldav: &mut CalDavLog<'_, C>,
    dry_run: bool,
    result: &mut SyncResult,
) -> (r: Result<bool, CaldaWarriorError>)
    requires
        old(result).written_caldav < usize::MAX,
    ensures
        final(result)@ == (SyncResultView { written_caldav: final(result).written_caldav, ..old(result)@ }),
        dry_run ==> (r == Ok::<bool, CaldaWarriorError>(true) && final(entry)@ == old(entry)@
            && final(result).written_caldav == old(result).written_caldav + 1
            && final(caldav).writes() == old(caldav).writes()),
        !dry_run ==> exists|w: CalDavWrite|
            final(caldav).writes() == old(caldav).writes().push(w) && #[trigger] put_of(w, old(entry)@, vtodo@),
        !dry_run ==> (exists|p: Result<Option<Seq<char>>, CaldaWarriorError>|
            put_effect(
                old(entry)@,
                final(entry)@,
                entry_href_spec(old(entry)@),
                vtodo@,
                p,
                r,
                old(result).written_caldav,
                final(result).written_caldav,
            )),
{
    if dry_run {
        result.written_caldav = result.written_caldav + 1;
        return Ok(true);
    }
    let href = entry_href(entry);
    let content = to_icalendar_string(&vtodo);
    let put = {
        let etag = match &entry.fetched_vtodo {
            Some(fv) => match &fv.etag {
                Some(t) => Some(t.as_str()),
                None => None,
            },
            None => None,
        };
        caldav.put(href.as_str(), content.as_str(), etag)
    };
    let ghost pv = put_view(put);
    proof {
        let w = caldav.writes().last();
        assert(caldav.writes() == old(caldav).writes().push(w));
        assert(put_of(w, old(entry)@, vtodo@));
    }
    after_put(entry, href, vtodo, put, result)
}

// ---------------------------------------------------------------------------
// One operation
// ---------------------------------------------------------------------------

/// What a dry run does to an entry for its operation.
pub open spec fn dry_effect(e: IREntryView, op: PlannedOpView) -> IREntryView {
    match op {
        PlannedOpView::PushToCalDav(_) => IREntryView { tw_task: Some(TWTaskView { caldavuid: e.caldav_uid, ..e.tw_task->0 }), ..e },
        _ => e,
    }
}

/// The counters of a result differ from another's by at most one write on each side, and
/// by one skip exactly for a skip.
pub open spec fn step_counts(a: SyncResultView, b: SyncResultView, op: PlannedOpView, retry: bool) -> bool {
    &&& b.planned_ops == a.planned_ops
    &&& b.warnings == a.warnings
    &&& b.errors == a.errors
    &&& b.skipped == a.skipped + if op is Skip {
        1nat
    } else {
        0nat
    }
    &&& a.written_caldav <= b.written_caldav <= a.written_caldav + 1
    &&& a.written_tw <= b.written_tw <= a.written_tw + 1
    &&& retry ==> (b.written_caldav == a.written_caldav && b.written_tw == a.written_tw)
}

/// What a dry run of an operation does: it always succeeds, changes the entry as
/// `dry_effect` says, counts a CalDAV write for operations that write there, and writes
/// nothing to TaskWarrior.
pub open spec fn dry_step(
    old_e: IREntryView,
    new_e: IREntryView,
    op: PlannedOpView,
    r: Result<bool, CaldaWarriorError>,
    a: SyncResultView,
    b: SyncResultView,
) -> bool {
    &&& r == Ok::<bool, CaldaWarriorError>(true)
    &&& new_e == dry_effect(old_e, op)
    &&& b.written_caldav == a.written_caldav + if is_caldav_write(op) {
        1nat
    } else {
        0nat
    }
    &&& b.written_tw == a.written_tw
}

/// A conflict resolution in which TaskWarrior's state is written to CalDAV.
pub open spec fn tw_wins(op: PlannedOpView) -> bool {
    match op {
        PlannedOpView::ResolveConflict { winner, reason, .. } => winner == Side::Tw && (reason == UpdateReason::LwwTwWins
            || reason == UpdateReason::TwCompletedMarkCompleted || reason == UpdateReason::TwDeletedMarkCancelled),
        _ => false,
    }
}

/// A conflict resolution in which CalDAV's state is written to TaskWarrior.
pub open spec fn caldav_wins(op: PlannedOpView) -> bool {
    match op {
        PlannedOpView::ResolveConflict { winner, reason, .. } => winner == Side::CalDav && (reason
            == UpdateReason::LwwCalDavWins || reason == UpdateReason::CalDavCompletedUpdateTw),
        _ => false,
    }
}

/// The entry after its operation was carried out: a VTODO written from TaskWarrior is
/// stored at the entry's href with the ETag the server answered, and a task pushed for the
/// first time records its CalDAV UID; every other operation leaves the entry as it was.
pub open spec fn written_entry(old_e: IREntryView, new_e: IREntryView, op: PlannedOpView, now: Timestamp) -> bool {
    if op is PushToCalDav || tw_wins(op) {
        exists|v: VTODOView, etag: Option<Seq<char>>|
            {
                &&& vtodo_from_tw_spec(old_e, old_e.tw_task->0, now, v)
                &&& new_e == IREntryView {
                    fetched_vtodo: Some(FetchedVTODOView { href: entry_href_spec(old_e), etag, vtodo: v }),
                    tw_task: if op is PushToCalDav {
                        Some(TWTaskView { caldavuid: old_e.caldav_uid, ..old_e.tw_task->0 })
                    } else {
                        old_e.tw_task
                    },
                    ..old_e
                }
            }
    } else {
        new_e == old_e
    }
}

/// The writes an operation that was carried out counts: one on CalDAV for a PUT or a
/// DELETE there, one on TaskWarrior for a task created, updated or deleted there.
pub open spec fn written_counts(op: PlannedOpView, a: SyncResultView, b: SyncResultView) -> bool {
    &&& b.written_caldav == a.written_caldav + if is_caldav_write(op) || op is DeleteFromCalDav {
        1nat
    } else {
        0nat
    }
    &&& b.written_tw == a.written_tw + if op is PushToCalDav || op is PullFromCalDav || op is DeleteFromTw
        || caldav_wins(op) {
        1nat
    } else {
        0nat
    }
}

/// An ETag conflict on CalDAV: the server's current VTODO replaces the stored one.
pub open spec fn refetched_entry(old_e: IREntryView, new_e: IREntryView) -> bool {
    exists|f: FetchedVTODOView| new_e == IREntryView { fetched_vtodo: Some(f), ..old_e }
}

/// `w` is the update of TaskWarrior, or its creation for an entry without a task, with the
/// task built from the entry's VTODO.
pub open spec fn pull_write(w: TwWrite, e: IREntryView, pairs: Seq<(Seq<char>, u128)>, now: Timestamp, create: bool) -> bool {
    exists|t: TWTaskView|
        #[trigger] tw_from_caldav_spec(e, pairs, now, t) && w == (if create {
            TwWrite::Create(t)
        } else {
            TwWrite::Update(t)
        })
}

/// The PUT of the VTODO built from the entry's task, appended to the CalDAV writes.
pub open spec fn pushes_task(e: IREntryView, now: Timestamp, cw0: Seq<CalDavWrite>, cw1: Seq<CalDavWrite>) -> bool {
    exists|v: VTODOView, w: CalDavWrite|
        #![trigger vtodo_from_tw_spec(e, e.tw_task->0, now, v), put_of(w, e, v)]
        vtodo_from_tw_spec(e, e.tw_task->0, now, v) && cw1 == cw0.push(w) && put_of(w, e, v)
}

/// The writes one operation sends, given what it returned: a push PUTs the VTODO built from
/// the task and, once stored, updates the task with its CalDAV UID; a pull creates or
/// updates the task built from the VTODO; a delete on either side names the entry's href
/// and ETag or its UUID; a conflict writes the winner's state to the other side; a skip
/// sends nothing.
pub open spec fn op_writes(
    e: IREntryView,
    op: PlannedOpView,
    pairs: Seq<(Seq<char>, u128)>,
    now: Timestamp,
    r: Result<bool, CaldaWarriorError>,
    cw0: Seq<CalDavWrite>,
    cw1: Seq<CalDavWrite>,
    tw0: Seq<TwWrite>,
    tw1: Seq<TwWrite>,
) -> bool {
    let tagged = TwWrite::Update(TWTaskView { caldavuid: e.caldav_uid, ..e.tw_task->0 });
    match op {
        PlannedOpView::PushToCalDav(_) => {
            &&& pushes_task(e, now, cw0, cw1)
            &&& r == Ok::<bool, CaldaWarriorError>(true) ==> tw1 == tw0.push(tagged)
            &&& r == Ok::<bool, CaldaWarriorError>(false) ==> tw1 == tw0
            &&& r is Err ==> tw1 == tw0 || tw1 == tw0.push(tagged)
        },
        PlannedOpView::PullFromCalDav(_) => {
            &&& cw1 == cw0
            &&& tw1.len() == tw0.len() + 1
            &&& tw1.drop_last() == tw0
            &&& pull_write(tw1.last(), e, pairs, now, e.tw_task is None)
        },
        PlannedOpView::DeleteFromCalDav(_) => {
            &&& tw1 == tw0
            &&& cw1 == cw0.push(CalDavWrite::Delete { href: entry_href_spec(e), etag: stored_etag(e) })
        },
        PlannedOpView::DeleteFromTw(_) => {
            &&& cw1 == cw0
            &&& tw1 == match e.tw_uuid {
                Some(u) => tw0.push(TwWrite::Delete(u)),
                None => tw0,
            }
        },
        PlannedOpView::ResolveConflict { .. } => if tw_wins(op) {
            &&& tw1 == tw0
            &&& pushes_task(e, now, cw0, cw1)
        } else if caldav_wins(op) {
            &&& cw1 == cw0
            &&& tw1.len() == tw0.len() + 1
            &&& tw1.drop_last() == tw0
            &&& pull_write(tw1.last(), e, pairs, now, false)
        } else {
            cw1 == cw0 && tw1 == tw0
        },
        PlannedOpView::Skip { .. } => cw1 == cw0 && tw1 == tw0,
    }
}

/// Carries out one planned operation. `Ok(true)`: done, with the entry and the write
/// counts as `written_entry` and `written_counts` say; `Ok(false)`: an ETag conflict, the
/// refetched VTODO stored, to be retried; `Err`: a failure of either side. The writes it
/// sends through the logs are those `op_writes` names; a dry run sends none.
pub fn execute_op<W: TwWriter, C: CalDavClient>(
    entry: &mut IREntry,
    op: PlannedOp,
    caldav_index: &Vec<(String, u128)>,
    tw: &mut TwLog<'_, W>,
    caldav: &mut CalDavLog<'_, C>,
    dry_run: bool,
    now: Timestamp,
    result: &mut SyncResult,
) -> (r: Result<bool, CaldaWarriorError>)
    requires
        decide_spec(old(entry)@, now) == Some(op@),
        writeback_wf(old(entry)@),
        old(result).written_caldav < usize::MAX,
        old(result).written_tw < usize::MAX,
        old(result).skipped < usize::MAX,
    ensures
        same_identity(old(entry)@, final(entry)@),
        final(entry)@.cyclic == old(entry)@.cyclic,
        final(entry)@.resolved_depends == old(entry)@.resolved_depends,
        writeback_wf(final(entry)@),
        step_counts(old(result)@, final(result)@, op@, r == Ok::<bool, CaldaWarriorError>(false)),
        (op@ is Skip) ==> r == Ok::<bool, CaldaWarriorError>(true),
        dry_run ==> dry_step(old(entry)@, final(entry)@, op@, r, old(result)@, final(result)@),
        (!dry_run && r == Ok::<bool, CaldaWarriorError>(true)) ==> written_entry(old(entry)@, final(entry)@, op@, now)
            && written_counts(op@, old(result)@, final(result)@),
        r == Ok::<bool, CaldaWarriorError>(false) ==> !dry_run && (op@ is PushToCalDav || tw_wins(op@)
            || op@ is DeleteFromCalDav) && refetched_entry(old(entry)@, final(entry)@),
        r is Err ==> final(entry)@ == old(entry)@ || written_entry(old(entry)@, final(entry)@, op@, now),
        dry_run ==> final(tw).writes() == old(tw).writes() && final(caldav).writes()
            == old(caldav).writes(),
        !dry_run ==> op_writes(
            old(entry)@,
            op@,
            pairs_view(caldav_index@),
            now,
            r,
            old(caldav).writes(),
            final(caldav).writes(),
            old(tw).writes(),
            final(tw).writes(),
        ),
{
    let ghost e0 = entry@;
    let ghost r0 = result@;
    match op {
        PlannedOp::PushToCalDav(_) => {
            let tw_task = entry.tw_task.as_ref().unwrap();
            let vtodo = build_vtodo_from_tw(entry, tw_task, now);
            let caldav_uid = crate::types::copy_opt_string(&entry.caldav_uid);
            let ghost vv = vtodo@;
            let put = try_put_caldav(entry, vtodo, caldav, dry_run, result);
            proof {
                if !dry_run {
                    let w = choose|w: CalDavWrite|
                        caldav.writes() == old(caldav).writes().push(w) && #[trigger] put_of(w, e0, vv);
                    assert(vtodo_from_tw_spec(e0, e0.tw_task->0, now, vv));
                    assert(pushes_task(e0, now, old(caldav).writes(), caldav.writes()));
                }
            }
            let pushed = match put {
                Ok(b) => b,
                Err(e) => return Err(e),
            };
            if pushed {
                let ghost before = entry@;
                match &mut entry.tw_task {
                    Some(t) => {
                        t.caldavuid = caldav_uid;
                    },
                    None => {},
                }
                if !dry_run {
                    let t = entry.tw_task.as_ref().unwrap();
                    assert(t@ == TWTaskView { caldavuid: e0.caldav_uid, ..e0.tw_task->0 });
                    match tw.update(t) {
                        Ok(()) => {},
                        Err(e) => return Err(e),
                    }
                    result.written_tw = result.written_tw + 1;
                }
            }
            Ok(pushed)
        },
        PlannedOp::PullFromCalDav(_) => {
            let tw_task = build_tw_task_from_caldav(entry, caldav_index, now);
            if !dry_run {
                let w = if entry.tw_task.is_none() {
                    tw.create(&tw_task)
                } else {
                    tw.update(&tw_task)
                };
                proof {
                    assert(tw.writes().drop_last() =~= old(tw).writes());
                    assert(pull_write(tw.writes().last(), e0, pairs_view(caldav_index@), now, e0.tw_task is None));
                }
                match w {
                    Ok(()) => {},
                    Err(e) => return Err(e),
                }
                result.written_tw = result.written_tw + 1;
            }
            Ok(true)
        },
        PlannedOp::DeleteFromCalDav(_) => {
            if !dry_run {
                let href = entry_href(entry);
                let d = {
                    let etag = match &entry.fetched_vtodo {
                        Some(fv) => match &fv.etag {
                            Some(t) => Some(t.as_str()),
                            None => None,
                        },
                        None => None,
                    };
                    caldav.delete(href.as_str(), etag)
                };
                match d {
                    Ok(()) => {
                        result.written_caldav = result.written_caldav + 1;
                    },
                    Err(e) => match e {
                        CaldaWarriorError::EtagConflict { refetched_vtodo } => {
                            entry.fetched_vtodo = Some(refetched_vtodo);
                            return Ok(false);
                        },
                        other => return Err(other),
                    },
                }
            }
            Ok(true)
        },
        PlannedOp::DeleteFromTw(_) => {
            match entry.tw_uuid {
                Some(uuid) => {
                    if !dry_run {
                        match tw.delete(uuid) {
                            Ok(()) => {},
                            Err(e) => return Err(e),
                        }
                        result.written_tw = result.written_tw + 1;
                    }
                },
                None => {},
            }
            Ok(true)
        },
        PlannedOp::ResolveConflict { entry: _, winner, reason } => {
            let tw_wins = match (&winner, &reason) {
                (Side::Tw, UpdateReason::LwwTwWins) => true,
                (Side::Tw, UpdateReason::TwCompletedMarkCompleted) => true,
                (Side::Tw, UpdateReason::TwDeletedMarkCancelled) => true,
                _ => false,
            };
            let caldav_wins = match (&winner, &reason) {
                (Side::CalDav, UpdateReason::LwwCalDavWins) => true,
                (Side::CalDav, UpdateReason::CalDavCompletedUpdateTw) => true,
                _ => false,
            };
            if tw_wins {
                let tw_task = entry.tw_task.as_ref().unwrap();
                let vtodo = build_vtodo_from_tw(entry, tw_task, now);
                let ghost vv = vtodo@;
                let put = try_put_caldav(entry, vtodo, caldav, dry_run, result);
                proof {
                    if !dry_run {
                        let w = choose|w: CalDavWrite|
                            caldav.writes() == old(caldav).writes().push(w) && #[trigger] put_of(w, e0, vv);
                        assert(vtodo_from_tw_spec(e0, e0.tw_task->0, now, vv));
                        assert(pushes_task(e0, now, old(caldav).writes(), caldav.writes()));
                    }
                }
                put
            } else if caldav_wins {
                let tw_task = build_tw_task_from_caldav(entry, caldav_index, now);
                if !dry_run {
                    let u = tw.update(&tw_task);
                    proof {
                        assert(tw.writes().drop_last() =~= old(tw).writes());
                        assert(pull_write(tw.writes().last(), e0, pairs_view(caldav_index@), now, false));
                    }
                    match u {
                        Ok(()) => {},
                        Err(e) => return Err(e),
                    }
                    result.written_tw = result.written_tw + 1;
                }
                Ok(true)
            } else {
                Ok(true)
            }
        },
        PlannedOp::Skip { .. } => {
            result.skipped = result.skipped + 1;
            Ok(true)
        },
    }
}

// ---------------------------------------------------------------------------
// One entry, with retries
// ---------------------------------------------------------------------------

/// What handling one entry does to the run's result: its planned operation is recorded
/// once, a planned skip is counted (a retry may also end in a skip), at most one error is
/// recorded (an ETag conflict still open after the last attempt leaves the refetched VTODO
/// stored) and each side is written at most once; in a dry run nothing fails and the
/// counts are exact. Otherwise, when no error is recorded, the operation decided for the
/// entry (its VTODO refetched after ETag conflicts) was carried out: the entry holds what
/// it wrote and each write is counted.
pub open spec fn entry_step(
    old_e: IREntryView,
    new_e: IREntryView,
    a: SyncResultView,
    b: SyncResultView,
    dry_run: bool,
    now: Timestamp,
) -> bool {
    let ops = planned_for(old_e, now);
    &&& same_identity(old_e, new_e)
    &&& writeback_wf(new_e)
    &&& b.planned_ops == a.planned_ops + ops
    &&& b.warnings == a.warnings
    &&& (b.errors == a.errors || (b.errors == a.errors.push(conflict_error_text(new_e)) && refetched_entry(
        prepare_entry(old_e),
        new_e,
    )) || exists|e: CaldaWarriorError| b.errors == a.errors.push(entry_error_text(e, new_e)))
    &&& a.skipped + count_skips(ops) <= b.skipped <= a.skipped + 1
    &&& a.written_caldav <= b.written_caldav <= a.written_caldav + 1
    &&& a.written_tw <= b.written_tw <= a.written_tw + 1
    &&& dry_run ==> {
        &&& b.skipped == a.skipped + count_skips(ops)
        &&& b.errors == a.errors
        &&& new_e == dry_run_entry(old_e, now)
        &&& b.written_caldav == a.written_caldav + count_caldav_writes(ops)
        &&& b.written_tw == a.written_tw
    }
    &&& (!dry_run && ops.len() > 0 && b.errors == a.errors) ==> exists|pre: IREntryView|
        {
            &&& refetched_or_same(prepare_entry(old_e), pre)
            &&& decide_spec(pre, now) is Some
            &&& written_entry(pre, new_e, decide_spec(pre, now)->0, now)
            &&& written_counts(decide_spec(pre, now)->0, a, b)
        }
    &&& !dry_run ==> entry_outcome(old_e, new_e, now)
}

/// What handling an entry leaves of it: the entry as planned, its VTODO possibly refetched
/// after an ETag conflict, or such an entry after its operation was carried out.
pub open spec fn entry_outcome(old_e: IREntryView, new_e: IREntryView, now: Timestamp) -> bool {
    ||| refetched_or_same(prepare_entry(old_e), new_e)
    ||| exists|pre: IREntryView|
        {
            &&& refetched_or_same(prepare_entry(old_e), pre)
            &&& decide_spec(pre, now) is Some
            &&& written_entry(pre, new_e, decide_spec(pre, now)->0, now)
        }
}

/// `b` is `a`, or `a` with the VTODO refetched after an ETag conflict.
pub open spec fn refetched_or_same(a: IREntryView, b: IREntryView) -> bool {
    b == a || refetched_entry(a, b)
}

proof fn lemma_counts_single(op: PlannedOpView)
    ensures
        count_skips(seq![op]) == (if op is Skip {
            1nat
        } else {
            0nat
        }),
        count_caldav_writes(seq![op]) == (if is_caldav_write(op) {
            1nat
        } else {
            0nat
        }),
{
    assert(seq![op].drop_last() =~= Seq::<PlannedOpView>::empty());
    assert(count_skips(Seq::<PlannedOpView>::empty()) == 0);
    assert(count_caldav_writes(Seq::<PlannedOpView>::empty()) == 0);
}

proof fn lemma_counts_one(ops: Seq<PlannedOpView>, op: PlannedOpView)
    ensures
        count_skips(ops.push(op)) == count_skips(ops) + count_skips(seq![op]),
        count_caldav_writes(ops.push(op)) == count_caldav_writes(ops) + count_caldav_writes(seq![op]),
{
    assert(ops.push(op).drop_last() =~= ops);
    assert(seq![op].drop_last() =~= Seq::<PlannedOpView>::empty());
    assert(count_skips(Seq::<PlannedOpView>::empty()) == 0);
    assert(count_caldav_writes(Seq::<PlannedOpView>::empty()) == 0);
}

/// The error recorded for a failed operation is never the one recorded for an ETag
/// conflict left open: their texts differ in the first characters.
proof fn lemma_conflict_text_differs(e: CaldaWarriorError, a: IREntryView, b: IREntryView)
    ensures
        entry_error_text(e, a) != conflict_error_text(b),
{
    let x = entry_error_text(e, a);
    let c = conflict_error_text(b);
    let m = error_message(e);
    reveal_strlit("SyncConflict: ETag conflict unresolved after 3 attempts (tw_uuid=");
    assert(c[0] == 'S' && c[4] == 'C');
    match e {
        CaldaWarriorError::Config(_) => {
            reveal_strlit("Configuration error: ");
        },
        CaldaWarriorError::Tw { .. } => {
            reveal_strlit("TaskWarrior exited with code ");
        },
        CaldaWarriorError::CalDav { .. } => {
            reveal_strlit("CalDAV request failed with status ");
        },
        CaldaWarriorError::Auth { .. } => {
            reveal_strlit("Authentication failed for ");
        },
        CaldaWarriorError::IcalParse(_) => {
            reveal_strlit("iCalendar parse error: ");
        },
        CaldaWarriorError::SyncConflict => {
            reveal_strlit("Sync conflict could not be resolved automatically");
        },
        CaldaWarriorError::EtagConflict { .. } => {
            reveal_strlit("ETag conflict: server resource changed during sync; refetched VTODO is attached for retry");
        },
    }
    assert(m.len() > 4);
    assert(x[0] == m[0] && x[4] == m[4]);
}

/// An operation sends at most one write to each side; one that asks for a retry sent
/// exactly one to CalDAV and none to TaskWarrior.
proof fn lemma_op_writes_counts(
    e: IREntryView,
    op: PlannedOpView,
    idx: Seq<(String, u128)>,
    now: Timestamp,
    r: Result<bool, CaldaWarriorError>,
    cw0: Seq<CalDavWrite>,
    cw1: Seq<CalDavWrite>,
    tw0: Seq<TwWrite>,
    tw1: Seq<TwWrite>,
)
    requires
        op_writes(e, op, pairs_view(idx), now, r, cw0, cw1, tw0, tw1),
        r == Ok::<bool, CaldaWarriorError>(false) ==> (op is PushToCalDav || tw_wins(op) || op is DeleteFromCalDav),
    ensures
        cw0.len() <= cw1.len() <= cw0.len() + 1,
        tw0.len() <= tw1.len() <= tw0.len() + 1,
        r == Ok::<bool, CaldaWarriorError>(false) ==> cw1.len() == cw0.len() + 1 && tw1 == tw0,
{
    if op is PushToCalDav || tw_wins(op) {
        let (v, w) = choose|v: VTODOView, w: CalDavWrite|
            #![trigger vtodo_from_tw_spec(e, e.tw_task->0, now, v), put_of(w, e, v)]
            vtodo_from_tw_spec(e, e.tw_task->0, now, v) && cw1 == cw0.push(w) && put_of(w, e, v);
        match r {
            Ok(b) => if b {
                assert(r == Ok::<bool, CaldaWarriorError>(true));
            } else {
                assert(r == Ok::<bool, CaldaWarriorError>(false));
            },
            Err(_) => {},
        }
    }
}

/// Handles one entry: plans its operation and carries it out, retrying up to
/// `MAX_ETAG_RETRIES` times while its ETag conflicts; a failure is recorded in `errors`.
/// A dry run sends nothing; a conflict left open is recorded after exactly
/// `MAX_ETAG_RETRIES` CalDAV writes and no TaskWarrior write; an operation carried out
/// sent the writes `op_writes` names.
pub fn apply_entry<W: TwWriter, C: CalDavClient>(
    entry: &mut IREntry,
    caldav_index: &Vec<(String, u128)>,
    tw: &mut TwLog<'_, W>,
    caldav: &mut CalDavLog<'_, C>,
    dry_run: bool,
    now: Timestamp,
    result: &mut SyncResult,
)
    requires
        writeback_wf(old(entry)@),
        old(result).written_caldav < usize::MAX,
        old(result).written_tw < usize::MAX,
        old(result).skipped < usize::MAX,
    ensures
        entry_step(old(entry)@, final(entry)@, old(result)@, final(result)@, dry_run, now),
        dry_run ==> final(tw).writes() == old(tw).writes() && final(caldav).writes()
            == old(caldav).writes(),
        !dry_run ==> final(caldav).writes().len() <= old(caldav).writes().len() + MAX_ETAG_RETRIES as int
            && final(tw).writes().len() <= old(tw).writes().len() + 1,
        (!dry_run && final(result)@.errors == old(result)@.errors.push(conflict_error_text(final(entry)@))) ==> (
        final(caldav).writes().len() == old(caldav).writes().len() + MAX_ETAG_RETRIES as int && final(tw).writes()
            == old(tw).writes()),
        (!dry_run && planned_for(old(entry)@, now).len() > 0 && final(result)@.errors == old(result)@.errors) ==> exists|
            pre: IREntryView,
            cw: Seq<CalDavWrite>,
        |
            {
                &&& refetched_or_same(prepare_entry(old(entry)@), pre)
                &&& decide_spec(pre, now) is Some
                &&& #[trigger] op_writes(
                    pre,
                    decide_spec(pre, now)->0,
                    pairs_view(caldav_index@),
                    now,
                    Ok(true),
                    cw,
                    final(caldav).writes(),
                    old(tw).writes(),
                    final(tw).writes(),
                )
            },
{
    let ghost e0 = entry@;
    let ghost r0 = result@;
    let ghost cw0 = caldav.writes();
    let ghost tw0 = tw.writes();
    if entry.cyclic {
        entry.resolved_depends.clear();
    }
    assert(entry@.resolved_depends =~= prepare_entry(e0).resolved_depends);
    assert(entry@ == prepare_entry(e0));
    let ghost start = entry@;
    let ghost ops = planned_for(e0, now);
    let mut attempt: usize = 0;
    while attempt < MAX_ETAG_RETRIES
        invariant
            attempt < MAX_ETAG_RETRIES,
            e0 == old(entry)@,
            r0 == old(result)@,
            start == prepare_entry(e0),
            ops == planned_for(e0, now),
            writeback_wf(e0),
            writeback_wf(entry@),
            same_identity(start, entry@),
            r0.written_caldav < usize::MAX,
            r0.written_tw < usize::MAX,
            r0.skipped < usize::MAX,
            attempt == 0 ==> entry@ == start && result@ == r0,
            refetched_or_same(start, entry@),
            attempt > 0 ==> refetched_entry(start, entry@),
            cw0 == old(caldav).writes(),
            tw0 == old(tw).writes(),
            dry_run ==> caldav.writes() == cw0 && tw.writes() == tw0,
            !dry_run ==> caldav.writes().len() == cw0.len() + attempt && tw.writes() == tw0,
            attempt > 0 ==> {
                &&& !dry_run
                &&& decide_spec(start, now) is Some
                &&& !(decide_spec(start, now)->0 is Skip)
                &&& result@ == (SyncResultView { planned_ops: r0.planned_ops + ops, ..r0 })
            },
        decreases MAX_ETAG_RETRIES - attempt,
    {
        proof {
            assert(writeback_wf(entry@));
        }
        let op = match decide_op(entry, now) {
            Some(op) => op,
            None => {
                if attempt > 0 {
                    assert(entry@.fetched_vtodo is Some);
                }
                assert(ops =~= Seq::<PlannedOpView>::empty());
                assert(r0.planned_ops + ops =~= r0.planned_ops);
                assert(count_skips(ops) == 0);
                assert(count_caldav_writes(ops) == 0);
                return;
            },
        };
        if attempt == 0 {
            let ghost before = result.planned_ops@;
            result.planned_ops.push(op.clone());
            assert(crate::types::ops_view(result.planned_ops@) =~= crate::types::ops_view(before).push(op@));
            assert(ops =~= seq![op@]);
            assert(r0.planned_ops + ops =~= r0.planned_ops.push(op@));
        }
        let ghost op_v = op@;
        let ghost pre = entry@;
        let ghost r_pre = result@;
        let ghost cw_pre = caldav.writes();
        let r = execute_op(entry, op, caldav_index, tw, caldav, dry_run, now, result);
        proof {
            if !dry_run {
                lemma_op_writes_counts(pre, op_v, caldav_index@, now, r, cw_pre, caldav.writes(), tw0, tw.writes());
            }
        }
        assert(same_identity(pre, entry@));
        assert(same_identity(e0, entry@));
        match r {
            Ok(true) => {
                proof {
                    lemma_counts_single(op_v);
                    if attempt > 0 {
                        let first = decide_spec(start, now)->0;
                        assert(ops =~= seq![first]);
                        lemma_counts_single(first);
                    } else {
                        assert(ops =~= seq![op_v]);
                    }
                    if !dry_run {
                        assert(written_counts(op_v, r0, result@));
                        assert(decide_spec(pre, now) == Some(op_v));
                        assert(op_writes(
                            pre,
                            decide_spec(pre, now)->0,
                            pairs_view(caldav_index@),
                            now,
                            Ok(true),
                            cw_pre,
                            caldav.writes(),
                            tw0,
                            tw.writes(),
                        ));
                    }
                    assert(result@.errors.len() == r0.errors.len());
                }
                return;
            },
            Ok(false) => {
                if attempt + 1 >= MAX_ETAG_RETRIES {
                    let m = conflict_error(entry);
                    let ghost before = result.errors@;
                    result.errors.push(m);
                    assert(crate::types::str_seq(result.errors@) =~= crate::types::str_seq(before).push(m@));
                    proof {
                        let first = decide_spec(start, now)->0;
                        assert(ops =~= seq![first]);
                        lemma_counts_single(first);
                    }
                    return;
                }
            },
            Err(e) => {
                let m = entry_error(&e, entry);
                let ghost before = result.errors@;
                result.errors.push(m);
                assert(crate::types::str_seq(result.errors@) =~= crate::types::str_seq(before).push(m@));
                proof {
                    let first = decide_spec(start, now)->0;
                    assert(ops =~= seq![first]);
                    lemma_counts_single(first);
                    lemma_conflict_text_differs(e, entry@, entry@);
                    assert(result@.errors.last() == m@);
                }
                return;
            },
        }
        attempt += 1;
    }
}

// ---------------------------------------------------------------------------
// The whole IR
// ---------------------------------------------------------------------------

/// What a write-back run over entries `old_es` (of which the first `k` were handled) leaves:
/// the handled entries' planned operations in order, every planned skip counted, at most
/// one skip, one error and one write per side for each handled entry, the other entries
/// untouched; a dry run fails nowhere, writes nothing to TaskWarrior and counts exactly the
/// skips and the CalDAV writes it would make, and a real run leaves each handled entry as
/// `entry_outcome` says.
pub open spec fn writeback_run(
    old_es: Seq<IREntryView>,
    new_es: Seq<IREntryView>,
    res: SyncResultView,
    k: int,
    dry_run: bool,
    now: Timestamp,
) -> bool {
    &&& 0 <= k <= old_es.len()
    &&& new_es.len() == old_es.len()
    &&& res.planned_ops == planned_spec(old_es.take(k), now)
    &&& res.warnings.len() == 0
    &&& count_skips(res.planned_ops) <= res.skipped <= k
    &&& res.errors.len() <= k
    &&& res.written_caldav <= k
    &&& res.written_tw <= k
    &&& forall|j: int| 0 <= j < old_es.len() ==> same_identity(#[trigger] old_es[j], new_es[j])
    &&& forall|j: int| k <= j < old_es.len() ==> #[trigger] new_es[j] == old_es[j]
    &&& dry_run ==> {
        &&& res.skipped == count_skips(res.planned_ops)
        &&& res.errors.len() == 0
        &&& res.written_tw == 0
        &&& res.written_caldav == count_caldav_writes(res.planned_ops)
        &&& forall|j: int| 0 <= j < k ==> #[trigger] new_es[j] == dry_run_entry(old_es[j], now)
    }
    &&& !dry_run ==> forall|j: int| 0 <= j < k ==> #[trigger] entry_outcome(old_es[j], new_es[j], now)
}

/// The errors of a run stopped at its first failure: none, or one recorded for the last
/// entry handled.
pub open spec fn first_failure_only(new_es: Seq<IREntryView>, res: SyncResultView, k: int) -> bool {
    ||| res.errors.len() == 0
    ||| {
        &&& res.errors.len() == 1
        &&& k >= 1
        &&& (res.errors[0] == conflict_error_text(new_es[k - 1]) || exists|e: CaldaWarriorError|
            res.errors[0] == #[trigger] entry_error_text(e, new_es[k - 1]))
    }
}

proof fn lemma_planned_step(es: Seq<IREntryView>, i: int, now: Timestamp)
    requires
        0 <= i < es.len(),
    ensures
        planned_spec(es.take(i + 1), now) == planned_spec(es.take(i), now) + planned_for(es[i], now),
        count_skips(planned_spec(es.take(i + 1), now)) == count_skips(planned_spec(es.take(i), now)) + count_skips(
            planned_for(es[i], now),
        ),
        count_caldav_writes(planned_spec(es.take(i + 1), now)) == count_caldav_writes(planned_spec(es.take(i), now))
            + count_caldav_writes(planned_for(es[i], now)),
{
    assert(es.take(i + 1).drop_last() =~= es.take(i));
    let prev = planned_spec(es.take(i), now);
    let ops = planned_for(es[i], now);
    if ops.len() == 0 {
        assert(prev + ops =~= prev);
        assert(count_skips(ops) == 0);
        assert(count_caldav_writes(ops) == 0);
    } else {
        assert(prev + ops =~= prev.push(ops[0]));
        assert(ops =~= seq![ops[0]]);
        lemma_counts_one(prev, ops[0]);
    }
}

/// `apply_writeback`: carries out the planned operation of every IR entry, in order. ETag
/// conflicts are retried per entry; a failure is recorded in `errors` and the run goes on
/// with the next entry, unless `fail_fast` stops it there: then the failing entry is the
/// last one handled and its error the only one recorded. A dry run sends nothing to
/// either side; otherwise each entry sends at most `MAX_ETAG_RETRIES` writes to CalDAV and
/// one to TaskWarrior.
pub fn apply_writeback<W: TwWriter, C: CalDavClient>(
    ir: &mut Vec<IREntry>,
    tw: &mut TwLog<'_, W>,
    caldav: &mut CalDavLog<'_, C>,
    dry_run: bool,
    fail_fast: bool,
    now: Timestamp,
) -> (result: SyncResult)
    requires
        forall|j: int| 0 <= j < old(ir).len() ==> writeback_wf(#[trigger] old(ir)@[j]@),
    ensures
        exists|k: int|
            {
                &&& #[trigger] writeback_run(
                    crate::types::entries_view(old(ir)@),
                    crate::types::entries_view(final(ir)@),
                    result@,
                    k,
                    dry_run,
                    now,
                )
                &&& k < old(ir).len() ==> fail_fast && result@.errors.len() > 0
                &&& fail_fast ==> first_failure_only(crate::types::entries_view(final(ir)@), result@, k)
            },
        !fail_fast ==> writeback_run(
            crate::types::entries_view(old(ir)@),
            crate::types::entries_view(final(ir)@),
            result@,
            old(ir).len() as int,
            dry_run,
            now,
        ),
        dry_run ==> writeback_run(
            crate::types::entries_view(old(ir)@),
            crate::types::entries_view(final(ir)@),
            result@,
            old(ir).len() as int,
            dry_run,
            now,
        ),
        dry_run ==> final(tw).writes() == old(tw).writes() && final(caldav).writes()
            == old(caldav).writes(),
        final(caldav).writes().len() <= old(caldav).writes().len() + MAX_ETAG_RETRIES * old(ir).len(),
        final(tw).writes().len() <= old(tw).writes().len() + old(ir).len(),
{
    let ghost old_es = crate::types::entries_view(ir@);
    let caldav_index = build_caldav_index(ir);
    let mut result = SyncResult {
        planned_ops: Vec::new(),
        warnings: Vec::new(),
        errors: Vec::new(),
        written_tw: 0,
        written_caldav: 0,
        skipped: 0,
    };
    assert(old_es.take(0) =~= Seq::<IREntryView>::empty());
    assert(result@.planned_ops =~= Seq::<PlannedOpView>::empty());
    assert(result@.warnings =~= Seq::<crate::types::WarningView>::empty());
    assert(result@.errors =~= Seq::<Seq<char>>::empty());
    let n = ir.len();
    let mut i: usize = 0;
    while i < n && !(fail_fast && result.errors.len() > 0)
        invariant
            n == ir.len(),
            old_es.len() == n,
            writeback_run(old_es, crate::types::entries_view(ir@), result@, i as int, dry_run, now),
            forall|j: int| i <= j < n ==> writeback_wf(#[trigger] ir@[j]@),
            dry_run ==> result@.errors.len() == 0,
            fail_fast ==> first_failure_only(crate::types::entries_view(ir@), result@, i as int),
            dry_run ==> tw.writes() == old(tw).writes() && caldav.writes() == old(caldav).writes(),
            caldav.writes().len() <= old(caldav).writes().len() + MAX_ETAG_RETRIES * i,
            tw.writes().len() <= old(tw).writes().len() + i,
        decreases n - i,
    {
        let ghost before = crate::types::entries_view(ir@);
        let ghost r_before = result@;
        proof {
            assert(before[i as int] == old_es[i as int]);
            lemma_planned_step(old_es, i as int, now);
        }
        apply_entry(&mut ir[i], &caldav_index, tw, caldav, dry_run, now, &mut result);
        proof {
            let after = crate::types::entries_view(ir@);
            assert forall|j: int| 0 <= j < n implies same_identity(#[trigger] old_es[j], after[j]) by {
                if j != i {
                    assert(after[j] == before[j]);
                }
            }
            assert forall|j: int| i + 1 <= j < n implies #[trigger] after[j] == old_es[j] by {
                assert(after[j] == before[j]);
            }
            if dry_run {
                assert forall|j: int| 0 <= j < i + 1 implies #[trigger] after[j] == dry_run_entry(old_es[j], now) by {
                    if j < i {
                        assert(after[j] == before[j]);
                    }
                }
            }
            if result@.errors != r_before.errors && result@.errors != r_before.errors.push(
                conflict_error_text(after[i as int]),
            ) {
                let e = choose|e: CaldaWarriorError| result@.errors == r_before.errors.push(entry_error_text(e, after[i as int]));
                assert(result@.errors.len() == r_before.errors.len() + 1);
            }
            assert forall|j: int| 0 <= j < i + 1 && !dry_run implies #[trigger] entry_outcome(old_es[j], after[j], now) by {
                if j < i {
                    assert(after[j] == before[j]);
                }
            }
            if fail_fast && result@.errors.len() > 0 {
                assert(r_before.errors.len() == 0);
                if result@.errors == r_before.errors.push(conflict_error_text(after[i as int])) {
                    assert(result@.errors[0] == conflict_error_text(after[i as int]));
                } else {
                    let e = choose|e: CaldaWarriorError| result@.errors == r_before.errors.push(entry_error_text(e, after[i as int]));
                    assert(result@.errors[0] == entry_error_text(e, after[i as int]));
                }
            }
        }
        i += 1;
    }
    proof {
        let fin = crate::types::entries_view(ir@);
        assert(writeback_run(old_es, fin, result@, i as int, dry_run, now));
        assert(i < n ==> fail_fast && result@.errors.len() > 0);
        assert(fail_fast ==> first_failure_only(fin, result@, i as int));
    }
    result
}

} // verus!
