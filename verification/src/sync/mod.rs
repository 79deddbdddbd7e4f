//! A full sync cycle: IR construction, dependency resolution and write-back.
pub mod deps;
pub mod graph;
pub mod lww;
pub mod plan;
pub mod stable;
pub mod writeback;

use vstd::prelude::*;
use crate::caldav_adapter::{CalDavClient, CalDavLog};
use crate::config::{calendars_view, Config};
use crate::ir::{build_ir, build_ir_spec, calendars_input_view};
use crate::tw_adapter::{TwLog, TwWriter};
use crate::types::{entries_view, tasks_view, warnings_view, FetchedVTODO, IREntryView, SyncResult, SyncResultView, TWTask, TWTaskView, Timestamp};
use self::deps::{cycle_warnings, dependency_graph, resolution_warnings, resolve_dependencies, resolved_entry, valid_cycle_marking};
use self::writeback::{apply_writeback, first_failure_only, writeback_run, writeback_wf};

verus! {

/// A task takes part in the sync unless it is completed or deleted, was never synced, and
/// ended before the cutoff (or has no end).
pub open spec fn keep_task(t: TWTaskView, cutoff: int) -> bool {
    if (t.status == "completed"@ || t.status == "deleted"@) && t.caldavuid is None {
        match t.end {
            Some(e) => e >= cutoff,
            None => false,
        }
    } else {
        true
    }
}

/// The tasks that take part in the sync, in order.
pub open spec fn kept_tasks(ts: Seq<TWTaskView>, cutoff: int) -> Seq<TWTaskView>
    decreases ts.len(),
{
    if ts.len() == 0 {
        Seq::empty()
    } else {
        let prev = kept_tasks(ts.drop_last(), cutoff);
        if keep_task(ts.last(), cutoff) {
            prev.push(ts.last())
        } else {
            prev
        }
    }
}

/// The IR after dependency resolution, with `marked` the entries flagged as cyclic.
pub open spec fn resolved_ir(es: Seq<IREntryView>, marked: Seq<bool>) -> Seq<IREntryView> {
    Seq::new(es.len(), |i: int| resolved_entry(es, i, marked[i]))
}

/// What a sync cycle yields, given the fresh UUIDs drawn while building the IR, the cycle
/// flags, how many entries the write-back handled and the entries it left.
pub open spec fn sync_outcome(
    ts: Seq<TWTaskView>,
    cals: Seq<(Seq<char>, Seq<crate::types::FetchedVTODOView>)>,
    cs: Seq<(Seq<char>, Seq<char>)>,
    cutoff: int,
    res: SyncResultView,
    tw_fresh: Seq<u128>,
    cal_fresh: Seq<u128>,
    marked: Seq<bool>,
    k: int,
    final_es: Seq<IREntryView>,
    dry_run: bool,
    fail_fast: bool,
    now: Timestamp,
) -> bool {
    let built = build_ir_spec(kept_tasks(ts, cutoff), cals, cs, tw_fresh, cal_fresh);
    let es = built.0;
    let n = es.len() as int;
    &&& valid_cycle_marking(dependency_graph(es), marked)
    &&& res.warnings == built.1 + resolution_warnings(es, n) + cycle_warnings(es, marked, n)
    &&& writeback_run(resolved_ir(es, marked), final_es, SyncResultView { warnings: Seq::empty(), ..res }, k, dry_run, now)
    &&& (k < n ==> fail_fast && res.errors.len() > 0)
    &&& fail_fast ==> first_failure_only(final_es, res, k)
    &&& (!fail_fast || dry_run) ==> k == n
}

/// `run_sync`: one sync cycle. Completed and deleted tasks that were never synced and ended
/// before the cutoff are left out; the IR is built, dependencies are resolved, and the
/// write-back runs. The warnings of all three steps are merged, in that order. A dry run
/// sends no write to either side.
pub fn run_sync<W: TwWriter, C: CalDavClient>(
    tw_tasks: &Vec<TWTask>,
    vtodos_by_calendar: &Vec<(String, Vec<FetchedVTODO>)>,
    config: &Config,
    tw: &mut TwLog<'_, W>,
    caldav: &mut CalDavLog<'_, C>,
    dry_run: bool,
    fail_fast: bool,
    now: Timestamp,
) -> (result: SyncResult)
    requires
        now - config.completed_cutoff_days * 86400 >= i64::MIN,
    ensures
        exists|
            tw_fresh: Seq<u128>,
            cal_fresh: Seq<u128>,
            marked: Seq<bool>,
            k: int,
            final_es: Seq<IREntryView>,
        |
            #[trigger] sync_outcome(
                tasks_view(tw_tasks@),
                calendars_input_view(vtodos_by_calendar@),
                calendars_view(config.calendars@),
                now - config.completed_cutoff_days * 86400,
                result@,
                tw_fresh,
                cal_fresh,
                marked,
                k,
                final_es,
                dry_run,
                fail_fast,
                now,
            ),
        dry_run ==> final(tw).writes() == old(tw).writes() && final(caldav).writes()
            == old(caldav).writes(),
{
    let cutoff: i64 = now - (config.completed_cutoff_days as i64) * 86400;
    let ghost ts = tasks_view(tw_tasks@);
    let mut filtered: Vec<TWTask> = Vec::new();
    let mut i: usize = 0;
    assert(ts.take(0) =~= Seq::<TWTaskView>::empty());
    assert(tasks_view(filtered@) =~= Seq::<TWTaskView>::empty());
    while i < tw_tasks.len()
        invariant
            i <= tw_tasks.len(),
            ts == tasks_view(tw_tasks@),
            tasks_view(filtered@) == kept_tasks(ts.take(i as int), cutoff as int),
        decreases tw_tasks.len() - i,
    {
        let t = &tw_tasks[i];
        assert(ts.take(i + 1).drop_last() =~= ts.take(i as int));
        assert(ts.take(i + 1).last() == t@);
        let terminal = crate::text::str_eq(t.status.as_str(), "completed") || crate::text::str_eq(
            t.status.as_str(),
            "deleted",
        );
        let keep = if terminal && t.caldavuid.is_none() {
            match t.end {
                Some(e) => e >= cutoff,
                None => false,
            }
        } else {
            true
        };
        if keep {
            let ghost prev = tasks_view(filtered@);
            filtered.push(t.clone());
            assert(tasks_view(filtered@) =~= prev.push(t@));
        }
        i += 1;
    }
    assert(ts.take(tw_tasks.len() as int) =~= ts);
    let (mut ir, ir_warnings) = build_ir(&filtered, vtodos_by_calendar, config);
    let ghost built_es = entries_view(ir@);
    let ghost fresh: (Seq<u128>, Seq<u128>) = choose|tf: Seq<u128>, cf: Seq<u128>|
        (entries_view(ir@), warnings_view(ir_warnings@)) == build_ir_spec(
            tasks_view(filtered@),
            calendars_input_view(vtodos_by_calendar@),
            calendars_view(config.calendars@),
            tf,
            cf,
        );
    let dep_warnings = resolve_dependencies(&mut ir);
    let ghost marked = choose|marked: Seq<bool>| {
        &&& valid_cycle_marking(dependency_graph(built_es), marked)
        &&& forall|i: int| 0 <= i < built_es.len() ==> #[trigger] ir@[i]@ == resolved_entry(built_es, i, marked[i])
        &&& warnings_view(dep_warnings@) == resolution_warnings(built_es, built_es.len() as int) + cycle_warnings(
            built_es,
            marked,
            built_es.len() as int,
        )
    };
    proof {
        assert(entries_view(ir@) =~= resolved_ir(built_es, marked));
        assert forall|j: int| 0 <= j < ir.len() implies writeback_wf(#[trigger] ir@[j]@) by {
            assert(ir@[j]@ == resolved_entry(built_es, j, marked[j]));
        }
    }
    let ghost resolved = entries_view(ir@);
    let mut result = apply_writeback(&mut ir, tw, caldav, dry_run, fail_fast, now);
    let ghost wb = result@;
    let ghost k: int = choose|k: int|
        {
            &&& #[trigger] writeback_run(resolved, entries_view(ir@), wb, k, dry_run, now)
            &&& k < resolved.len() ==> fail_fast && wb.errors.len() > 0
            &&& fail_fast ==> first_failure_only(entries_view(ir@), wb, k)
        };
    proof {
        if !fail_fast || dry_run {
            assert(writeback_run(resolved, entries_view(ir@), wb, resolved.len() as int, dry_run, now));
        }
    }
    let mut all_warnings = ir_warnings;
    let mut dep_warnings = dep_warnings;
    let ghost w1 = warnings_view(all_warnings@);
    let ghost w2 = warnings_view(dep_warnings@);
    all_warnings.append(&mut dep_warnings);
    assert(warnings_view(all_warnings@) =~= w1 + w2);
    assert(w1 + w2 =~= w1 + resolution_warnings(built_es, built_es.len() as int) + cycle_warnings(
        built_es,
        marked,
        built_es.len() as int,
    ));
    result.warnings = all_warnings;
    proof {
        assert(wb.warnings.len() == 0);
        assert(wb.warnings =~= Seq::<crate::types::WarningView>::empty());
        assert(SyncResultView { warnings: Seq::empty(), ..result@ } == wb);
        let kk: int = if !fail_fast || dry_run {
            resolved.len() as int
        } else {
            k
        };
        assert(sync_outcome(
            tasks_view(tw_tasks@),
            calendars_input_view(vtodos_by_calendar@),
            calendars_view(config.calendars@),
            now - config.completed_cutoff_days * 86400,
            result@,
            fresh.0,
            fresh.1,
            marked,
            kk,
            entries_view(ir@),
            dry_run,
            fail_fast,
            now,
        ));
    }
    result
}

} // verus!
