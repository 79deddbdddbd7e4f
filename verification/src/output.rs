//! The report of a sync run: dry-run lines, summaries and the lines printed for errors and
//! warnings.
use vstd::prelude::*;
use vstd::string::StringExecFns;
use crate::text::{decimal, u64_to_decimal};
use crate::trusted::{uuid_text, uuid_to_string};
use crate::types::{IREntry, IREntryView, PlannedOp, PlannedOpView, Side, SkipReason, SyncResult, ops_view, str_seq};

verus! {

/// The short text of a skip reason.
pub open spec fn skip_reason_text(r: SkipReason) -> Seq<char> {
    match r {
        SkipReason::Cancelled => "cancelled"@,
        SkipReason::Completed => "completed"@,
        SkipReason::Recurring => "recurring"@,
        SkipReason::Cyclic => "cyclic dependency"@,
        SkipReason::Identical => "identical"@,
        SkipReason::DeletedBeforeSync => "deleted before sync"@,
        SkipReason::AlreadyDeleted => "already deleted"@,
        SkipReason::CalDavDeletedTwTerminal => "caldav deleted, tw terminal"@,
    }
}

/// `format_skip_reason`: a skip reason as a short readable text.
pub fn format_skip_reason(reason: &SkipReason) -> (s: &'static str)
    ensures
        s@ == skip_reason_text(*reason),
        s@.len() > 0,
{
    proof {
        reveal_strlit("cancelled");
        reveal_strlit("completed");
        reveal_strlit("recurring");
        reveal_strlit("cyclic dependency");
        reveal_strlit("identical");
        reveal_strlit("deleted before sync");
        reveal_strlit("already deleted");
        reveal_strlit("caldav deleted, tw terminal");
    }
    match reason {
        SkipReason::Cancelled => "cancelled",
        SkipReason::Completed => "completed",
        SkipReason::Recurring => "recurring",
        SkipReason::Cyclic => "cyclic dependency",
        SkipReason::Identical => "identical",
        SkipReason::DeletedBeforeSync => "deleted before sync",
        SkipReason::AlreadyDeleted => "already deleted",
        SkipReason::CalDavDeletedTwTerminal => "caldav deleted, tw terminal",
    }
}

/// What an entry is called in the report: the task's description, else the VTODO's
/// summary or UID, else the UUID, else `unknown`.
pub open spec fn description_of(e: IREntryView) -> Seq<char> {
    match e.tw_task {
        Some(t) => t.description,
        None => match e.fetched_vtodo {
            Some(f) => match f.vtodo.summary {
                Some(s) => s,
                None => f.vtodo.uid,
            },
            None => match e.tw_uuid {
                Some(u) => uuid_text(u),
                None => "unknown"@,
            },
        },
    }
}

/// `get_description`: the name of an entry in the report.
pub fn get_description(entry: &IREntry) -> (s: String)
    ensures
        s@ == description_of(entry@),
{
    if let Some(task) = &entry.tw_task {
        return String::from_str(task.description.as_str());
    }
    if let Some(f) = &entry.fetched_vtodo {
        return match &f.vtodo.summary {
            Some(s) => String::from_str(s.as_str()),
            None => String::from_str(f.vtodo.uid.as_str()),
        };
    }
    match entry.tw_uuid {
        Some(u) => uuid_to_string(u),
        None => String::from_str("unknown"),
    }
}

/// The dry-run line of an operation.
pub open spec fn op_line(op: PlannedOpView) -> Seq<char> {
    match op {
        PlannedOpView::PushToCalDav(e) => "[DRY-RUN] [CREATE] CalDAV <- TW: "@ + description_of(e),
        PlannedOpView::PullFromCalDav(e) => "[DRY-RUN] [CREATE] TW <- CalDAV: "@ + description_of(e),
        PlannedOpView::DeleteFromCalDav(e) => "[DRY-RUN] [DELETE] CalDAV: "@ + description_of(e),
        PlannedOpView::DeleteFromTw(e) => "[DRY-RUN] [DELETE] TW: "@ + description_of(e),
        PlannedOpView::ResolveConflict { entry, winner, .. } => "[DRY-RUN] [UPDATE] Conflict resolved ("@ + (
        match winner {
            Side::Tw => "TW"@,
            Side::CalDav => "CalDAV"@,
        }) + " wins): "@ + description_of(entry),
        PlannedOpView::Skip { tw_uuid, reason } => "[DRY-RUN] [SKIP] "@ + (match tw_uuid {
            Some(u) => uuid_text(u),
            None => "?"@,
        }) + " ("@ + skip_reason_text(reason) + ")"@,
    }
}

/// `format_planned_op`: an operation as a dry-run line.
pub fn format_planned_op(op: &PlannedOp) -> (s: String)
    ensures
        s@ == op_line(op@),
{
    match op {
        PlannedOp::PushToCalDav(e) => {
            let mut s = String::from_str("[DRY-RUN] [CREATE] CalDAV <- TW: ");
            s.append(get_description(e).as_str());
            s
        },
        PlannedOp::PullFromCalDav(e) => {
            let mut s = String::from_str("[DRY-RUN] [CREATE] TW <- CalDAV: ");
            s.append(get_description(e).as_str());
            s
        },
        PlannedOp::DeleteFromCalDav(e) => {
            let mut s = String::from_str("[DRY-RUN] [DELETE] CalDAV: ");
            s.append(get_description(e).as_str());
            s
        },
        PlannedOp::DeleteFromTw(e) => {
            let mut s = String::from_str("[DRY-RUN] [DELETE] TW: ");
            s.append(get_description(e).as_str());
            s
        },
        PlannedOp::ResolveConflict { entry, winner, .. } => {
            let mut s = String::from_str("[DRY-RUN] [UPDATE] Conflict resolved (");
            match winner {
                Side::Tw => s.append("TW"),
                Side::CalDav => s.append("CalDAV"),
            }
            s.append(" wins): ");
            s.append(get_description(entry).as_str());
            s
        },
        PlannedOp::Skip { tw_uuid, reason } => {
            let mut s = String::from_str("[DRY-RUN] [SKIP] ");
            match tw_uuid {
                Some(u) => s.append(uuid_to_string(*u).as_str()),
                None => s.append("?"),
            }
            s.append(" (");
            s.append(format_skip_reason(reason));
            s.append(")");
            s
        },
    }
}

/// Operation counts: CalDAV creates, CalDAV updates, TW creates, TW updates, deletes, skips.
pub type OpCounts = (nat, nat, nat, nat, nat, nat);

/// The counts of one operation.
pub open spec fn op_count(op: PlannedOpView) -> OpCounts {
    match op {
        PlannedOpView::PushToCalDav(_) => (1, 0, 0, 0, 0, 0),
        PlannedOpView::PullFromCalDav(_) => (0, 0, 1, 0, 0, 0),
        PlannedOpView::DeleteFromCalDav(_) => (0, 0, 0, 0, 1, 0),
        PlannedOpView::DeleteFromTw(_) => (0, 0, 0, 0, 1, 0),
        PlannedOpView::ResolveConflict { winner, .. } => match winner {
            Side::Tw => (0, 1, 0, 0, 0, 0),
            Side::CalDav => (0, 0, 0, 1, 0, 0),
        },
        PlannedOpView::Skip { .. } => (0, 0, 0, 0, 0, 1),
    }
}

/// The counts of a run of operations.
pub open spec fn op_counts(ops: Seq<PlannedOpView>) -> OpCounts
    decreases ops.len(),
{
    if ops.len() == 0 {
        (0, 0, 0, 0, 0, 0)
    } else {
        let a = op_counts(ops.drop_last());
        let b = op_count(ops.last());
        (a.0 + b.0, a.1 + b.1, a.2 + b.2, a.3 + b.3, a.4 + b.4, a.5 + b.5)
    }
}

/// All counts together.
pub open spec fn counts_total(c: OpCounts) -> nat {
    c.0 + c.1 + c.2 + c.3 + c.4 + c.5
}

proof fn lemma_counts_total(ops: Seq<PlannedOpView>)
    ensures
        counts_total(op_counts(ops)) == ops.len(),
    decreases ops.len(),
{
    if ops.len() > 0 {
        lemma_counts_total(ops.drop_last());
    }
}

/// `count_ops`: how many operations of each kind there are, as
/// `(caldav_creates, caldav_updates, tw_creates, tw_updates, deletes, skips)`.
pub fn count_ops(ops: &Vec<PlannedOp>) -> (r: (usize, usize, usize, usize, usize, usize))
    ensures
        (r.0 as nat, r.1 as nat, r.2 as nat, r.3 as nat, r.4 as nat, r.5 as nat) == op_counts(ops_view(ops@)),
{
    let ghost ov = ops_view(ops@);
    let mut c: (usize, usize, usize, usize, usize, usize) = (0, 0, 0, 0, 0, 0);
    let mut i: usize = 0;
    assert(ov.take(0) =~= Seq::<PlannedOpView>::empty());
    while i < ops.len()
        invariant
            i <= ops.len(),
            ov == ops_view(ops@),
            (c.0 as nat, c.1 as nat, c.2 as nat, c.3 as nat, c.4 as nat, c.5 as nat) == op_counts(ov.take(i as int)),
        decreases ops.len() - i,
    {
        proof {
            lemma_counts_total(ov.take(i as int));
        }
        assert(ov.take(i + 1).drop_last() =~= ov.take(i as int));
        assert(ov.take(i + 1).last() == ops@[i as int]@);
        match &ops[i] {
            PlannedOp::PushToCalDav(_) => c.0 = c.0 + 1,
            PlannedOp::PullFromCalDav(_) => c.2 = c.2 + 1,
            PlannedOp::DeleteFromCalDav(_) => c.4 = c.4 + 1,
            PlannedOp::DeleteFromTw(_) => c.4 = c.4 + 1,
            PlannedOp::ResolveConflict { winner, .. } => match winner {
                Side::Tw => c.1 = c.1 + 1,
                Side::CalDav => c.3 = c.3 + 1,
            },
            PlannedOp::Skip { .. } => c.5 = c.5 + 1,
        }
        i += 1;
    }
    assert(ov.take(ops.len() as int) =~= ov);
    c
}

/// The dry-run summary line.
pub open spec fn summary_line(c: OpCounts) -> Seq<char> {
    "[DRY-RUN] Would: "@ + decimal(c.0 + c.2) + " create(s), "@ + decimal(c.1 + c.3) + " update(s), "@
        + decimal(c.4) + " delete(s), "@ + decimal(c.5) + " skip(s)"@
}

/// `format_dry_run_summary`: the totals of a dry run.
pub fn format_dry_run_summary(ops: &Vec<PlannedOp>) -> (s: String)
    ensures
        s@ == summary_line(op_counts(ops_view(ops@))),
{
    let (cc, cu, tc, tu, d, k) = count_ops(ops);
    proof {
        lemma_counts_total(ops_view(ops@));
        assert(ops_view(ops@).len() == ops.len());
    }
    let mut s = String::from_str("[DRY-RUN] Would: ");
    s.append(u64_to_decimal((cc + tc) as u64).as_str());
    s.append(" create(s), ");
    s.append(u64_to_decimal((cu + tu) as u64).as_str());
    s.append(" update(s), ");
    s.append(u64_to_decimal(d as u64).as_str());
    s.append(" delete(s), ");
    s.append(u64_to_decimal(k as u64).as_str());
    s.append(" skip(s)");
    s
}

/// The live-run summary line.
pub open spec fn synced_line(c: OpCounts) -> Seq<char> {
    "Synced: "@ + decimal(c.0) + " created, "@ + decimal(c.1) + " updated in CalDAV; "@ + decimal(c.2)
        + " created, "@ + decimal(c.3) + " updated in TW"@
}

/// The line printed for a warning.
pub open spec fn warning_line(w: crate::types::WarningView) -> Seq<char> {
    match w.tw_uuid {
        Some(u) => "[WARN] ["@ + uuid_text(u) + "] "@ + w.message,
        None => "[WARN] "@ + w.message,
    }
}

/// The lines of the report: errors then warnings for stderr; for stdout, in a dry run the
/// line of every planned operation and the summary, otherwise the live summary.
pub open spec fn report_spec(
    errors: Seq<Seq<char>>,
    warnings: Seq<crate::types::WarningView>,
    ops: Seq<PlannedOpView>,
    dry_run: bool,
) -> (Seq<Seq<char>>, Seq<Seq<char>>) {
    (
        errors.map_values(|e: Seq<char>| "[ERROR] "@ + e) + warnings.map_values(
            |w: crate::types::WarningView| warning_line(w),
        ),
        if dry_run {
            ops.map_values(|o: PlannedOpView| op_line(o)).push(summary_line(op_counts(ops)))
        } else {
            seq![synced_line(op_counts(ops))]
        },
    )
}

/// The lines `print_result` writes: `(stderr, stdout)`.
pub fn report_lines(result: &SyncResult, dry_run: bool) -> (r: (Vec<String>, Vec<String>))
    ensures
        (str_seq(r.0@), str_seq(r.1@)) == report_spec(
            result@.errors,
            result@.warnings,
            result@.planned_ops,
            dry_run,
        ),
{
    let ghost rv = result@;
    let mut err: Vec<String> = Vec::new();
    let mut i: usize = 0;
    let ghost el = rv.errors.map_values(|e: Seq<char>| "[ERROR] "@ + e);
    let ghost wl = rv.warnings.map_values(|w: crate::types::WarningView| warning_line(w));
    assert(str_seq(err@) =~= el.take(0));
    while i < result.errors.len()
        invariant
            i <= result.errors.len(),
            rv == result@,
            el == rv.errors.map_values(|e: Seq<char>| "[ERROR] "@ + e),
            str_seq(err@) == el.take(i as int),
        decreases result.errors.len() - i,
    {
        let mut l = String::from_str("[ERROR] ");
        l.append(result.errors[i].as_str());
        let ghost prev = str_seq(err@);
        err.push(l);
        assert(str_seq(err@) =~= prev.push(l@));
        assert(el.take(i + 1) =~= el.take(i as int).push(el[i as int]));
        assert(str_seq(err@) =~= el.take(i + 1));
        i += 1;
    }
    assert(el.take(result.errors.len() as int) =~= el);
    let mut j: usize = 0;
    assert(el + wl.take(0) =~= el);
    while j < result.warnings.len()
        invariant
            j <= result.warnings.len(),
            rv == result@,
            wl == rv.warnings.map_values(|w: crate::types::WarningView| warning_line(w)),
            str_seq(err@) == el + wl.take(j as int),
        decreases result.warnings.len() - j,
    {
        let w = &result.warnings[j];
        let l = match w.tw_uuid {
            Some(u) => {
                let mut l = String::from_str("[WARN] [");
                l.append(uuid_to_string(u).as_str());
                l.append("] ");
                l.append(w.message.as_str());
                l
            },
            None => {
                let mut l = String::from_str("[WARN] ");
                l.append(w.message.as_str());
                l
            },
        };
        assert(wl[j as int] == warning_line(w@));
        let ghost prev = str_seq(err@);
        err.push(l);
        assert(str_seq(err@) =~= prev.push(l@));
        assert(wl.take(j + 1) =~= wl.take(j as int).push(wl[j as int]));
        assert(str_seq(err@) =~= el + wl.take(j + 1));
        j += 1;
    }
    assert(wl.take(result.warnings.len() as int) =~= wl);
    let mut out: Vec<String> = Vec::new();
    let ghost ov = rv.planned_ops;
    if dry_run {
        let ghost ol = ov.map_values(|o: PlannedOpView| op_line(o));
        let mut k: usize = 0;
        assert(str_seq(out@) =~= ol.take(0));
        while k < result.planned_ops.len()
            invariant
                k <= result.planned_ops.len(),
                rv == result@,
                ov == rv.planned_ops,
                ol == ov.map_values(|o: PlannedOpView| op_line(o)),
                str_seq(out@) == ol.take(k as int),
            decreases result.planned_ops.len() - k,
        {
            let l = format_planned_op(&result.planned_ops[k]);
            let ghost prev = str_seq(out@);
            out.push(l);
            assert(str_seq(out@) =~= prev.push(l@));
            assert(ol.take(k + 1) =~= ol.take(k as int).push(ol[k as int]));
            assert(str_seq(out@) =~= ol.take(k + 1));
            k += 1;
        }
        assert(ol.take(result.planned_ops.len() as int) =~= ol);
        let sl = format_dry_run_summary(&result.planned_ops);
        let ghost prev = str_seq(out@);
        out.push(sl);
        assert(str_seq(out@) =~= prev.push(summary_line(op_counts(ov))));
    } else {
        let (cc, cu, tc, tu, _d, _k) = count_ops(&result.planned_ops);
        let mut l = String::from_str("Synced: ");
        l.append(u64_to_decimal(cc as u64).as_str());
        l.append(" created, ");
        l.append(u64_to_decimal(cu as u64).as_str());
        l.append(" updated in CalDAV; ");
        l.append(u64_to_decimal(tc as u64).as_str());
        l.append(" created, ");
        l.append(u64_to_decimal(tu as u64).as_str());
        l.append(" updated in TW");
        out.push(l);
        assert(str_seq(out@) =~= seq![synced_line(op_counts(ov))]);
    }
    (err, out)
}

} // verus!
