//! The intermediate representation: pairing TaskWarrior tasks with CalDAV VTODOs.
use vstd::prelude::*;
use vstd::string::StringExecFns;
use crate::config::{calendars_view, Config};
use crate::mapper::fields::strip_trailing;
use crate::sync::plan::caldav_status;
use crate::text::str_eq;
use crate::trusted::{debug_str, new_uuid_v4, str_debug, uuid_text, uuid_to_string};
use crate::types::{
    copy_opt_string, entries_view, opt_str, tasks_view, warnings_view, FetchedVTODO, FetchedVTODOView, IREntry,
    IREntryView, TWTask, TWTaskView, Warning, WarningView,
};

verus! {

// ---------------------------------------------------------------------------
// Project and calendar lookups
// ---------------------------------------------------------------------------

/// The URL of the first calendar of a project.
pub open spec fn first_url(cs: Seq<(Seq<char>, Seq<char>)>, project: Seq<char>) -> Option<Seq<char>>
    decreases cs.len(),
{
    if cs.len() == 0 {
        None
    } else if cs[0].0 == project {
        Some(cs[0].1)
    } else {
        first_url(cs.drop_first(), project)
    }
}

/// The calendar a task's project goes to: the project's own calendar, else the `default`
/// one.
pub open spec fn calendar_for(project: Option<Seq<char>>, cs: Seq<(Seq<char>, Seq<char>)>) -> Option<Seq<char>> {
    match project {
        Some(p) => match first_url(cs, p) {
            Some(u) => Some(u),
            None => first_url(cs, "default"@),
        },
        None => first_url(cs, "default"@),
    }
}

fn find_url(config: &Config, project: &str) -> (r: Option<String>)
    ensures
        opt_str(r) == first_url(calendars_view(config.calendars@), project@),
{
    let ghost cs = calendars_view(config.calendars@);
    let mut i: usize = 0;
    assert(cs.skip(0) =~= cs);
    while i < config.calendars.len()
        invariant
            i <= config.calendars.len(),
            cs == calendars_view(config.calendars@),
            first_url(cs, project@) == first_url(cs.skip(i as int), project@),
        decreases config.calendars.len() - i,
    {
        assert(cs.skip(i as int).drop_first() =~= cs.skip(i + 1));
        assert(cs.skip(i as int)[0] == (config.calendars@[i as int].project@, config.calendars@[i as int].url@));
        if str_eq(config.calendars[i].project.as_str(), project) {
            return Some(String::from_str(config.calendars[i].url.as_str()));
        }
        i += 1;
    }
    None
}

/// `resolve_calendar_url`: the calendar for a project, falling back to the `default`
/// project's calendar.
pub fn resolve_calendar_url(project: Option<&str>, config: &Config) -> (r: Option<String>)
    ensures
        opt_str(r) == calendar_for(
            match project {
                Some(p) => Some(p@),
                None => None,
            },
            calendars_view(config.calendars@),
        ),
{
    if let Some(p) = project {
        if let Some(u) = find_url(config, p) {
            return Some(u);
        }
    }
    find_url(config, "default")
}

/// The project configured for a calendar URL (trailing slashes ignored); none for an
/// unknown calendar or the `default` one.
pub open spec fn project_for_url(url: Seq<char>, cs: Seq<(Seq<char>, Seq<char>)>) -> Option<Seq<char>>
    decreases cs.len(),
{
    if cs.len() == 0 {
        None
    } else if strip_trailing(cs[0].1, '/') == strip_trailing(url, '/') {
        if cs[0].0 == "default"@ {
            None
        } else {
            Some(cs[0].0)
        }
    } else {
        project_for_url(url, cs.drop_first())
    }
}

fn strip_slashes(s: &str) -> (r: String)
    ensures
        r@ == strip_trailing(s@, '/'),
{
    let v = crate::text::chars_of(s);
    let mut b = v.len();
    assert(v@.take(b as int) =~= s@);
    while b > 0 && v[b - 1] == '/'
        invariant
            b <= v.len(),
            v@ == s@,
            strip_trailing(v@.take(b as int), '/') == strip_trailing(s@, '/'),
        decreases b,
    {
        assert(v@.take(b as int).drop_last() =~= v@.take(b - 1));
        b -= 1;
    }
    assert(strip_trailing(v@.take(b as int), '/') == v@.take(b as int));
    assert(v@.subrange(0, b as int) =~= v@.take(b as int));
    crate::text::string_of_range(&v, 0, b)
}

/// `resolve_project_from_url`: the project of the calendar at a URL, ignoring trailing
/// slashes; none for an unknown calendar or the `default` one.
pub fn resolve_project_from_url(url: &str, config: &Config) -> (r: Option<String>)
    ensures
        opt_str(r) == project_for_url(url@, calendars_view(config.calendars@)),
{
    let ghost cs = calendars_view(config.calendars@);
    let norm = strip_slashes(url);
    let mut i: usize = 0;
    assert(cs.skip(0) =~= cs);
    while i < config.calendars.len()
        invariant
            i <= config.calendars.len(),
            cs == calendars_view(config.calendars@),
            norm@ == strip_trailing(url@, '/'),
            project_for_url(url@, cs) == project_for_url(url@, cs.skip(i as int)),
        decreases config.calendars.len() - i,
    {
        assert(cs.skip(i as int).drop_first() =~= cs.skip(i + 1));
        assert(cs.skip(i as int)[0] == (config.calendars@[i as int].project@, config.calendars@[i as int].url@));
        let cu = strip_slashes(config.calendars[i].url.as_str());
        if str_eq(cu.as_str(), norm.as_str()) {
            if str_eq(config.calendars[i].project.as_str(), "default") {
                return None;
            }
            return Some(String::from_str(config.calendars[i].project.as_str()));
        }
        i += 1;
    }
    None
}

// ---------------------------------------------------------------------------
// Building the IR
// ---------------------------------------------------------------------------

/// CalDAV VTODOs by UID, each with its calendar URL; a UID occurs once.
pub type CaldavMap = Seq<(Seq<char>, Seq<char>, FetchedVTODOView)>;

/// Where a UID is in the map.
pub open spec fn map_pos(m: CaldavMap, uid: Seq<char>) -> Option<int>
    decreases m.len(),
{
    if m.len() == 0 {
        None
    } else if m.last().0 == uid {
        Some(m.len() - 1)
    } else {
        map_pos(m.drop_last(), uid)
    }
}

/// Storing a VTODO under its UID: it replaces one stored under the same UID.
pub open spec fn map_insert(m: CaldavMap, uid: Seq<char>, cal: Seq<char>, f: FetchedVTODOView) -> CaldavMap {
    match map_pos(m, uid) {
        Some(i) => m.update(i, (uid, cal, f)),
        None => m.push((uid, cal, f)),
    }
}

/// The warning for a VTODO that recurs.
pub open spec fn recurring_warning(uid: Seq<char>) -> WarningView {
    WarningView {
        tw_uuid: None,
        message: "RecurringCalDavSkipped: VTODO '"@ + uid + "' has RRULE and will not be synced"@,
    }
}

/// Reading one calendar's VTODOs into the map; recurring VTODOs are left out with a warning.
pub open spec fn collect_calendar(st: (CaldavMap, Seq<WarningView>), cal: Seq<char>, fs: Seq<FetchedVTODOView>) -> (
    CaldavMap,
    Seq<WarningView>,
)
    decreases fs.len(),
{
    if fs.len() == 0 {
        st
    } else {
        let prev = collect_calendar(st, cal, fs.drop_last());
        let f = fs.last();
        if f.vtodo.rrule is Some {
            (prev.0, prev.1.push(recurring_warning(f.vtodo.uid)))
        } else {
            (map_insert(prev.0, f.vtodo.uid, cal, f), prev.1)
        }
    }
}

/// Reading every calendar's VTODOs into the map, calendar by calendar.
pub open spec fn collect_all(cals: Seq<(Seq<char>, Seq<FetchedVTODOView>)>) -> (CaldavMap, Seq<WarningView>)
    decreases cals.len(),
{
    if cals.len() == 0 {
        (Seq::empty(), Seq::empty())
    } else {
        collect_calendar(collect_all(cals.drop_last()), cals.last().0, cals.last().1)
    }
}

/// The warning for a task whose project maps to no calendar.
pub open spec fn unmapped_warning(t: TWTaskView) -> WarningView {
    WarningView {
        tw_uuid: Some(t.uuid),
        message: "UnmappedProject: task "@ + uuid_text(t.uuid) + " project="@ + str_debug(
            match t.project {
                Some(p) => p,
                None => "<none>"@,
            },
        ) + " has no matching calendar"@,
    }
}

/// An IR entry as built, before dependency resolution and write-back.
pub open spec fn new_entry(
    tw_uuid: Option<u128>,
    caldav_uid: Option<Seq<char>>,
    tw_task: Option<TWTaskView>,
    fetched: Option<FetchedVTODOView>,
    calendar_url: Option<Seq<char>>,
    project: Option<Seq<char>>,
) -> IREntryView {
    IREntryView {
        tw_uuid,
        caldav_uid,
        tw_task,
        fetched_vtodo: fetched,
        resolved_depends: Seq::empty(),
        cyclic: false,
        calendar_url,
        dirty_tw: false,
        dirty_caldav: false,
        project,
    }
}

/// The IR state while tasks are read: entries, warnings and the VTODOs not yet paired.
pub type TwPassState = (Seq<IREntryView>, Seq<WarningView>, CaldavMap);

/// Reading one task: a task without a CalDAV UID is new and gets `fresh` as its UID; one
/// whose UID is in the map is paired with that VTODO (which leaves the map); one whose
/// UID is not is orphaned. New and orphaned tasks go to their project's calendar, with a
/// warning when there is none.
pub open spec fn tw_step(st: TwPassState, t: TWTaskView, fresh: u128, cs: Seq<(Seq<char>, Seq<char>)>) -> TwPassState {
    let cal = calendar_for(t.project, cs);
    let ws = if cal is None {
        st.1.push(unmapped_warning(t))
    } else {
        st.1
    };
    match t.caldavuid {
        None => (st.0.push(new_entry(Some(t.uuid), Some(uuid_text(fresh)), Some(t), None, cal, None)), ws, st.2),
        Some(uid) => match map_pos(st.2, uid) {
            Some(i) => (
                st.0.push(new_entry(Some(t.uuid), Some(uid), Some(t), Some(st.2[i].2), Some(st.2[i].1), None)),
                st.1,
                st.2.remove(i),
            ),
            None => (st.0.push(new_entry(Some(t.uuid), Some(uid), Some(t), None, cal, None)), ws, st.2),
        },
    }
}

/// Reading the tasks in order, the `i`-th new task taking `fresh[i]`.
pub open spec fn tw_pass(st: TwPassState, ts: Seq<TWTaskView>, fresh: Seq<u128>, cs: Seq<(Seq<char>, Seq<char>)>) -> TwPassState
    decreases ts.len(),
{
    if ts.len() == 0 {
        st
    } else {
        tw_step(tw_pass(st, ts.drop_last(), fresh.drop_last(), cs), ts.last(), fresh.last(), cs)
    }
}

/// A VTODO left unpaired: an active one gets `fresh` as its TaskWarrior UUID, a completed
/// or cancelled one none; its project comes from its calendar.
pub open spec fn caldav_only_entry(item: (Seq<char>, Seq<char>, FetchedVTODOView), fresh: u128, cs: Seq<(Seq<char>, Seq<char>)>) -> IREntryView {
    let f = item.2;
    let e = new_entry(None, Some(f.vtodo.uid), None, Some(f), Some(item.1), project_for_url(item.1, cs));
    let st = caldav_status(e);
    IREntryView {
        tw_uuid: if st == "COMPLETED"@ || st == "CANCELLED"@ {
            None
        } else {
            Some(fresh)
        },
        ..e
    }
}

/// The entries of the unpaired VTODOs, in the map's order.
pub open spec fn caldav_pass(m: CaldavMap, fresh: Seq<u128>, cs: Seq<(Seq<char>, Seq<char>)>) -> Seq<IREntryView>
    decreases m.len(),
{
    if m.len() == 0 {
        Seq::empty()
    } else {
        caldav_pass(m.drop_last(), fresh.drop_last(), cs).push(caldav_only_entry(m.last(), fresh.last(), cs))
    }
}

/// The IR and its warnings, given the fresh UUIDs drawn for new tasks (`tw_fresh`, one per
/// task) and for active CalDAV-only VTODOs (`cal_fresh`, one per unpaired VTODO).
pub open spec fn build_ir_spec(
    ts: Seq<TWTaskView>,
    cals: Seq<(Seq<char>, Seq<FetchedVTODOView>)>,
    cs: Seq<(Seq<char>, Seq<char>)>,
    tw_fresh: Seq<u128>,
    cal_fresh: Seq<u128>,
) -> (Seq<IREntryView>, Seq<WarningView>) {
    let collected = collect_all(cals);
    let st = tw_pass((Seq::empty(), collected.1, collected.0), ts, tw_fresh, cs);
    (st.0 + caldav_pass(st.2, cal_fresh, cs), st.1)
}

/// View of the VTODOs grouped by calendar.
pub open spec fn calendars_input_view(v: Seq<(String, Vec<FetchedVTODO>)>) -> Seq<(Seq<char>, Seq<FetchedVTODOView>)> {
    v.map_values(|c: (String, Vec<FetchedVTODO>)| (c.0@, c.1@.map_values(|f: FetchedVTODO| f@)))
}

/// View of the exec map.
pub open spec fn map_view(m: Seq<(String, String, FetchedVTODO)>) -> CaldavMap {
    m.map_values(|x: (String, String, FetchedVTODO)| (x.0@, x.1@, x.2@))
}

fn map_find(m: &Vec<(String, String, FetchedVTODO)>, uid: &str) -> (r: Option<usize>)
    ensures
        match r {
            Some(i) => map_pos(map_view(m@), uid@) == Some(i as int) && i < m.len(),
            None => map_pos(map_view(m@), uid@) is None,
        },
{
    let ghost mv = map_view(m@);
    let mut i: usize = m.len();
    assert(mv.take(i as int) =~= mv);
    while i > 0
        invariant
            i <= m.len(),
            mv == map_view(m@),
            map_pos(mv, uid@) == map_pos(mv.take(i as int), uid@),
        decreases i,
    {
        assert(mv.take(i as int).drop_last() =~= mv.take(i - 1));
        assert(mv.take(i as int).last() == mv[i - 1]);
        if str_eq(m[i - 1].0.as_str(), uid) {
            return Some(i - 1);
        }
        i -= 1;
    }
    assert(mv.take(0) =~= Seq::<(Seq<char>, Seq<char>, FetchedVTODOView)>::empty());
    None
}

fn recurring_warning_exec(uid: &str) -> (w: Warning)
    ensures
        w@ == recurring_warning(uid@),
{
    let mut m = String::from_str("RecurringCalDavSkipped: VTODO '");
    m.append(uid);
    m.append("' has RRULE and will not be synced");
    Warning { tw_uuid: None, message: m }
}

fn unmapped_warning_exec(t: &TWTask) -> (w: Warning)
    ensures
        w@ == unmapped_warning(t@),
{
    let mut m = String::from_str("UnmappedProject: task ");
    let u = uuid_to_string(t.uuid);
    m.append(u.as_str());
    m.append(" project=");
    let p = match &t.project {
        Some(p) => debug_str(p.as_str()),
        None => debug_str("<none>"),
    };
    m.append(p.as_str());
    m.append(" has no matching calendar");
    Warning { tw_uuid: Some(t.uuid), message: m }
}

fn push_warning(ws: &mut Vec<Warning>, w: Warning)
    ensures
        warnings_view(final(ws)@) == warnings_view(old(ws)@).push(w@),
{
    let ghost prev = warnings_view(ws@);
    ws.push(w);
    assert(warnings_view(ws@) =~= prev.push(w@));
}

fn make_entry(
    tw_uuid: Option<u128>,
    caldav_uid: Option<String>,
    tw_task: Option<TWTask>,
    fetched: Option<FetchedVTODO>,
    calendar_url: Option<String>,
    project: Option<String>,
) -> (e: IREntry)
    ensures
        e@ == new_entry(
            tw_uuid,
            opt_str(caldav_uid),
            crate::types::opt_task(tw_task),
            crate::types::opt_fetched(fetched),
            opt_str(calendar_url),
            opt_str(project),
        ),
{
    let e = IREntry {
        tw_uuid,
        caldav_uid,
        tw_task,
        fetched_vtodo: fetched,
        resolved_depends: Vec::new(),
        cyclic: false,
        calendar_url,
        dirty_tw: false,
        dirty_caldav: false,
        project,
    };
    assert(e@.resolved_depends =~= Seq::<Seq<char>>::empty());
    e
}

fn push_entry(es: &mut Vec<IREntry>, e: IREntry)
    ensures
        entries_view(final(es)@) == entries_view(old(es)@).push(e@),
        final(es)@ == old(es)@.push(e),
{
    let ghost prev = entries_view(es@);
    es.push(e);
    assert(entries_view(es@) =~= prev.push(e@));
}

fn collect_vtodos(vtodos_by_calendar: &Vec<(String, Vec<FetchedVTODO>)>) -> (r: (
    Vec<(String, String, FetchedVTODO)>,
    Vec<Warning>,
))
    ensures
        (map_view(r.0@), warnings_view(r.1@)) == collect_all(calendars_input_view(vtodos_by_calendar@)),
{
    let ghost cals = calendars_input_view(vtodos_by_calendar@);
    let mut m: Vec<(String, String, FetchedVTODO)> = Vec::new();
    let mut ws: Vec<Warning> = Vec::new();
    let mut c: usize = 0;
    assert(cals.take(0) =~= Seq::<(Seq<char>, Seq<FetchedVTODOView>)>::empty());
    assert(map_view(m@) =~= Seq::<(Seq<char>, Seq<char>, FetchedVTODOView)>::empty());
    assert(warnings_view(ws@) =~= Seq::<WarningView>::empty());
    while c < vtodos_by_calendar.len()
        invariant
            c <= vtodos_by_calendar.len(),
            cals == calendars_input_view(vtodos_by_calendar@),
            (map_view(m@), warnings_view(ws@)) == collect_all(cals.take(c as int)),
        decreases vtodos_by_calendar.len() - c,
    {
        let cal = &vtodos_by_calendar[c].0;
        let fs = &vtodos_by_calendar[c].1;
        let ghost fv = fs@.map_values(|f: FetchedVTODO| f@);
        let ghost st0 = (map_view(m@), warnings_view(ws@));
        assert(cals.take(c + 1).drop_last() =~= cals.take(c as int));
        assert(cals.take(c + 1).last() == (cal@, fv));
        let mut k: usize = 0;
        assert(fv.take(0) =~= Seq::<FetchedVTODOView>::empty());
        while k < fs.len()
            invariant
                k <= fs.len(),
                fv == fs@.map_values(|f: FetchedVTODO| f@),
                (map_view(m@), warnings_view(ws@)) == collect_calendar(st0, cal@, fv.take(k as int)),
            decreases fs.len() - k,
        {
            let f = &fs[k];
            assert(fv.take(k + 1).drop_last() =~= fv.take(k as int));
            assert(fv.take(k + 1).last() == f@);
            if f.vtodo.rrule.is_some() {
                push_warning(&mut ws, recurring_warning_exec(f.vtodo.uid.as_str()));
            } else {
                let ghost prev = map_view(m@);
                let item = (String::from_str(f.vtodo.uid.as_str()), String::from_str(cal.as_str()), f.clone());
                match map_find(&m, f.vtodo.uid.as_str()) {
                    Some(i) => {
                        m.set(i, item);
                        assert(map_view(m@) =~= prev.update(i as int, (f@.vtodo.uid, cal@, f@)));
                    },
                    None => {
                        m.push(item);
                        assert(map_view(m@) =~= prev.push((f@.vtodo.uid, cal@, f@)));
                    },
                }
            }
            k += 1;
        }
        assert(fv.take(fs.len() as int) =~= fv);
        c += 1;
    }
    assert(cals.take(vtodos_by_calendar.len() as int) =~= cals);
    (m, ws)
}

/// `build_ir`: pairs TaskWarrior tasks with CalDAV VTODOs.
///
/// A task without a CalDAV UID is new and gets a fresh UID; one whose UID matches a VTODO
/// is paired with it; one whose UID matches none is orphaned. VTODOs left unpaired become
/// CalDAV-only entries, with a fresh TaskWarrior UUID when they are active. Recurring
/// VTODOs are left out, and tasks whose project has no calendar are reported.
pub fn build_ir(
    tw_tasks: &Vec<TWTask>,
    vtodos_by_calendar: &Vec<(String, Vec<FetchedVTODO>)>,
    config: &Config,
) -> (r: (Vec<IREntry>, Vec<Warning>))
    ensures
        exists|tw_fresh: Seq<u128>, cal_fresh: Seq<u128>|
            tw_fresh.len() == tw_tasks.len() && (entries_view(r.0@), warnings_view(r.1@)) == #[trigger] build_ir_spec(
                tasks_view(tw_tasks@),
                calendars_input_view(vtodos_by_calendar@),
                calendars_view(config.calendars@),
                tw_fresh,
                cal_fresh,
            ),
        forall|j: int| 0 <= j < r.0.len() ==> crate::sync::writeback::writeback_wf(#[trigger] r.0@[j]@),
{
    let ghost ts = tasks_view(tw_tasks@);
    let ghost cs = calendars_view(config.calendars@);
    let (mut m, mut warnings) = collect_vtodos(vtodos_by_calendar);
    let ghost collected = collect_all(calendars_input_view(vtodos_by_calendar@));
    let mut entries: Vec<IREntry> = Vec::new();
    let ghost mut tw_fresh: Seq<u128> = Seq::empty();
    let mut i: usize = 0;
    assert(ts.take(0) =~= Seq::<TWTaskView>::empty());
    assert(entries_view(entries@) =~= Seq::<IREntryView>::empty());
    while i < tw_tasks.len()
        invariant
            i <= tw_tasks.len(),
            ts == tasks_view(tw_tasks@),
            cs == calendars_view(config.calendars@),
            tw_fresh.len() == i,
            forall|j: int| 0 <= j < entries.len() ==> crate::sync::writeback::writeback_wf(#[trigger] entries@[j]@),
            (entries_view(entries@), warnings_view(warnings@), map_view(m@)) == tw_pass(
                (Seq::empty(), collected.1, collected.0),
                ts.take(i as int),
                tw_fresh,
                cs,
            ),
        decreases tw_tasks.len() - i,
    {
        let task = &tw_tasks[i];
        let ghost old_fresh = tw_fresh;
        assert(ts.take(i + 1).drop_last() =~= ts.take(i as int));
        assert(ts.take(i + 1).last() == task@);
        match &task.caldavuid {
            None => {
                let fresh = new_uuid_v4();
                let new_uid = uuid_to_string(fresh);
                let cal = resolve_calendar_url(
                    match &task.project {
                        Some(p) => Some(p.as_str()),
                        None => None,
                    },
                    config,
                );
                if cal.is_none() {
                    push_warning(&mut warnings, unmapped_warning_exec(task));
                }
                push_entry(
                    &mut entries,
                    make_entry(Some(task.uuid), Some(new_uid), Some(task.clone()), None, cal, None),
                );
                proof {
                    tw_fresh = tw_fresh.push(fresh);
                }
            },
            Some(uid) => {
                match map_find(&m, uid.as_str()) {
                    Some(k) => {
                        let ghost before = map_view(m@);
                        let (_, cal_url, fetched) = m.remove(k);
                        assert(map_view(m@) =~= before.remove(k as int));
                        push_entry(
                            &mut entries,
                            make_entry(Some(task.uuid), Some(String::from_str(uid.as_str())), Some(task.clone()), Some(fetched), Some(cal_url), None),
                        );
                    },
                    None => {
                        let cal = resolve_calendar_url(
                            match &task.project {
                                Some(p) => Some(p.as_str()),
                                None => None,
                            },
                            config,
                        );
                        if cal.is_none() {
                            push_warning(&mut warnings, unmapped_warning_exec(task));
                        }
                        push_entry(
                            &mut entries,
                            make_entry(Some(task.uuid), Some(String::from_str(uid.as_str())), Some(task.clone()), None, cal, None),
                        );
                    },
                }
                proof {
                    tw_fresh = tw_fresh.push(0u128);
                }
            },
        }
        proof {
            assert(tw_fresh.drop_last() =~= old_fresh);
        }
        i += 1;
    }
    assert(ts.take(tw_tasks.len() as int) =~= ts);
    let ghost rest = map_view(m@);
    let ghost prefix = entries_view(entries@);
    let ghost ws_after = warnings_view(warnings@);
    let ghost mut cal_fresh: Seq<u128> = Seq::empty();
    let mut j: usize = 0;
    assert(rest.take(0) =~= Seq::<(Seq<char>, Seq<char>, FetchedVTODOView)>::empty());
    assert(prefix + caldav_pass(rest.take(0), cal_fresh, cs) =~= prefix);
    while j < m.len()
        invariant
            j <= m.len(),
            rest == map_view(m@),
            cs == calendars_view(config.calendars@),
            cal_fresh.len() == j,
            ws_after == warnings_view(warnings@),
            forall|k: int| 0 <= k < entries.len() ==> crate::sync::writeback::writeback_wf(#[trigger] entries@[k]@),
            entries_view(entries@) == prefix + caldav_pass(rest.take(j as int), cal_fresh, cs),
        decreases m.len() - j,
    {
        let (_, cal_url, fetched) = &m[j];
        assert(rest.take(j + 1).drop_last() =~= rest.take(j as int));
        assert(rest.take(j + 1).last() == (m@[j as int].0@, cal_url@, fetched@));
        let terminal = match &fetched.vtodo.status {
            Some(s) => str_eq(s.as_str(), "COMPLETED") || str_eq(s.as_str(), "CANCELLED"),
            None => false,
        };
        proof {
            crate::text::lemma_status_words();
        }
        let (tw_uuid, drawn) = if terminal {
            (None, 0u128)
        } else {
            let f = new_uuid_v4();
            (Some(f), f)
        };
        let project = resolve_project_from_url(cal_url.as_str(), config);
        let ghost before = entries_view(entries@);
        push_entry(
            &mut entries,
            make_entry(tw_uuid, Some(String::from_str(fetched.vtodo.uid.as_str())), None, Some(fetched.clone()), Some(String::from_str(cal_url.as_str())), project),
        );
        proof {
            let prev_fresh = cal_fresh;
            cal_fresh = cal_fresh.push(drawn);
            assert(cal_fresh.drop_last() =~= prev_fresh);
            assert(entries_view(entries@) =~= prefix + caldav_pass(rest.take(j + 1), cal_fresh, cs));
        }
        j += 1;
    }
    assert(rest.take(m.len() as int) =~= rest);
    assert((entries_view(entries@), warnings_view(warnings@)) == build_ir_spec(
        ts,
        calendars_input_view(vtodos_by_calendar@),
        cs,
        tw_fresh,
        cal_fresh,
    ));
    (entries, warnings)
}

// ---------------------------------------------------------------------------
// What the IR holds
// ---------------------------------------------------------------------------

/// The entry read for a task: the task with its UUID and its CalDAV UID (`fresh` as text
/// when it has none yet), with nothing resolved, flagged or pending.
pub open spec fn task_entry(e: IREntryView, t: TWTaskView, fresh: u128) -> bool {
    &&& e.tw_task == Some(t)
    &&& e.tw_uuid == Some(t.uuid)
    &&& e.caldav_uid == Some(
        match t.caldavuid {
            Some(u) => u,
            None => uuid_text(fresh),
        },
    )
    &&& e.resolved_depends.len() == 0
    &&& !e.cyclic
    &&& !e.dirty_tw
    &&& !e.dirty_caldav
}

proof fn lemma_tw_pass_entries(st: TwPassState, ts: Seq<TWTaskView>, fresh: Seq<u128>, cs: Seq<(Seq<char>, Seq<char>)>)
    requires
        fresh.len() == ts.len(),
    ensures
        tw_pass(st, ts, fresh, cs).0.len() == st.0.len() + ts.len(),
        forall|j: int| 0 <= j < st.0.len() ==> #[trigger] tw_pass(st, ts, fresh, cs).0[j] == st.0[j],
        forall|k: int|
            st.0.len() <= k < st.0.len() + ts.len() ==> task_entry(
                #[trigger] tw_pass(st, ts, fresh, cs).0[k],
                ts[k - st.0.len()],
                fresh[k - st.0.len()],
            ),
    decreases ts.len(),
{
    if ts.len() > 0 {
        let prev = tw_pass(st, ts.drop_last(), fresh.drop_last(), cs);
        lemma_tw_pass_entries(st, ts.drop_last(), fresh.drop_last(), cs);
        let cur = tw_pass(st, ts, fresh, cs);
        assert(cur == tw_step(prev, ts.last(), fresh.last(), cs));
        assert(cur.0 == prev.0.push(cur.0[prev.0.len() as int]));
        assert forall|k: int| st.0.len() <= k < st.0.len() + ts.len() implies task_entry(
            #[trigger] cur.0[k],
            ts[k - st.0.len()],
            fresh[k - st.0.len()],
        ) by {
            if k < prev.0.len() {
                assert(cur.0[k] == prev.0[k]);
                assert(ts.drop_last()[k - st.0.len()] == ts[k - st.0.len()]);
                assert(fresh.drop_last()[k - st.0.len()] == fresh[k - st.0.len()]);
            } else {
                assert(k - st.0.len() == ts.len() - 1);
            }
        }
        assert forall|j: int| 0 <= j < st.0.len() implies #[trigger] cur.0[j] == st.0[j] by {
            assert(cur.0[j] == prev.0[j]);
        }
    }
}

/// Tasks keep their order: the IR begins with one entry per task, in the order the tasks
/// came, each holding its task and UUID and the task's CalDAV UID (the `i`-th task without
/// one gets `tw_fresh[i]`), with nothing resolved, flagged or pending.
pub proof fn lemma_tasks_lead_in_order(
    ts: Seq<TWTaskView>,
    cals: Seq<(Seq<char>, Seq<FetchedVTODOView>)>,
    cs: Seq<(Seq<char>, Seq<char>)>,
    tw_fresh: Seq<u128>,
    cal_fresh: Seq<u128>,
)
    requires
        tw_fresh.len() == ts.len(),
    ensures
        build_ir_spec(ts, cals, cs, tw_fresh, cal_fresh).0.len() >= ts.len(),
        forall|i: int|
            0 <= i < ts.len() ==> task_entry(#[trigger] build_ir_spec(ts, cals, cs, tw_fresh, cal_fresh).0[i], ts[i], tw_fresh[i]),
{
    let collected = collect_all(cals);
    let st0: TwPassState = (Seq::empty(), collected.1, collected.0);
    lemma_tw_pass_entries(st0, ts, tw_fresh, cs);
    let st = tw_pass(st0, ts, tw_fresh, cs);
    let es = build_ir_spec(ts, cals, cs, tw_fresh, cal_fresh).0;
    assert(es == st.0 + caldav_pass(st.2, cal_fresh, cs));
    assert forall|i: int| 0 <= i < ts.len() implies task_entry(#[trigger] es[i], ts[i], tw_fresh[i]) by {
        assert(es[i] == st.0[i]);
        assert(task_entry(st.0[0 + i], ts[i], tw_fresh[i]));
    }
}

/// `f` is listed among the VTODOs of calendar `cal`.
pub open spec fn listed(cals: Seq<(Seq<char>, Seq<FetchedVTODOView>)>, cal: Seq<char>, f: FetchedVTODOView) -> bool {
    exists|c: int, j: int| 0 <= c < cals.len() && 0 <= j < cals[c].1.len() && cals[c].0 == cal && #[trigger] cals[c].1[j] == f
}

/// Every VTODO of the map is filed under its UID, does not recur, and is listed under
/// its calendar.
spec fn map_ok(cals: Seq<(Seq<char>, Seq<FetchedVTODOView>)>, m: CaldavMap) -> bool {
    forall|k: int|
        0 <= k < m.len() ==> (#[trigger] m[k]).2.vtodo.uid == m[k].0 && m[k].2.vtodo.rrule is None && listed(
            cals,
            m[k].1,
            m[k].2,
        )
}

proof fn lemma_map_pos(m: CaldavMap, uid: Seq<char>)
    ensures
        map_pos(m, uid) matches Some(i) ==> 0 <= i < m.len(),
    decreases m.len(),
{
    if m.len() > 0 {
        lemma_map_pos(m.drop_last(), uid);
    }
}

proof fn lemma_collect_calendar_ok(
    cals: Seq<(Seq<char>, Seq<FetchedVTODOView>)>,
    st: (CaldavMap, Seq<WarningView>),
    cal: Seq<char>,
    fs: Seq<FetchedVTODOView>,
)
    requires
        map_ok(cals, st.0),
        forall|j: int| 0 <= j < fs.len() ==> listed(cals, cal, #[trigger] fs[j]),
    ensures
        map_ok(cals, collect_calendar(st, cal, fs).0),
    decreases fs.len(),
{
    if fs.len() > 0 {
        lemma_collect_calendar_ok(cals, st, cal, fs.drop_last());
        let prev = collect_calendar(st, cal, fs.drop_last());
        let f = fs.last();
        assert(listed(cals, cal, fs[fs.len() - 1]));
        if f.vtodo.rrule is None {
            lemma_map_pos(prev.0, f.vtodo.uid);
            let m2 = map_insert(prev.0, f.vtodo.uid, cal, f);
            assert forall|k: int| 0 <= k < m2.len() implies (#[trigger] m2[k]).2.vtodo.uid == m2[k].0
                && m2[k].2.vtodo.rrule is None && listed(cals, m2[k].1, m2[k].2) by {
                match map_pos(prev.0, f.vtodo.uid) {
                    Some(i) => {
                        if k != i {
                            assert(m2[k] == prev.0[k]);
                        }
                    },
                    None => {
                        if k < prev.0.len() {
                            assert(m2[k] == prev.0[k]);
                        }
                    },
                }
            }
        }
    }
}

proof fn lemma_collect_all_ok(cals: Seq<(Seq<char>, Seq<FetchedVTODOView>)>, pre: Seq<(Seq<char>, Seq<FetchedVTODOView>)>)
    requires
        pre.len() <= cals.len(),
        forall|c: int| 0 <= c < pre.len() ==> #[trigger] pre[c] == cals[c],
    ensures
        map_ok(cals, collect_all(pre).0),
    decreases pre.len(),
{
    if pre.len() > 0 {
        lemma_collect_all_ok(cals, pre.drop_last());
        let c = pre.len() - 1;
        assert(pre[c] == cals[c]);
        assert forall|j: int| 0 <= j < pre.last().1.len() implies listed(cals, pre.last().0, #[trigger] pre.last().1[j]) by {
            assert(cals[c].1[j] == pre.last().1[j]);
        }
        lemma_collect_calendar_ok(cals, collect_all(pre.drop_last()), pre.last().0, pre.last().1);
    }
}

proof fn lemma_tw_pass_keeps_map_ok(
    cals: Seq<(Seq<char>, Seq<FetchedVTODOView>)>,
    st: TwPassState,
    ts: Seq<TWTaskView>,
    fresh: Seq<u128>,
    cs: Seq<(Seq<char>, Seq<char>)>,
)
    requires
        map_ok(cals, st.2),
    ensures
        map_ok(cals, tw_pass(st, ts, fresh, cs).2),
    decreases ts.len(),
{
    if ts.len() > 0 {
        lemma_tw_pass_keeps_map_ok(cals, st, ts.drop_last(), fresh.drop_last(), cs);
        let prev = tw_pass(st, ts.drop_last(), fresh.drop_last(), cs);
        let t = ts.last();
        if let Some(uid) = t.caldavuid {
            lemma_map_pos(prev.2, uid);
            if let Some(i) = map_pos(prev.2, uid) {
                let m2 = prev.2.remove(i);
                assert forall|k: int| 0 <= k < m2.len() implies (#[trigger] m2[k]).2.vtodo.uid == m2[k].0
                    && m2[k].2.vtodo.rrule is None && listed(cals, m2[k].1, m2[k].2) by {
                    if k < i {
                        assert(m2[k] == prev.2[k]);
                    } else {
                        assert(m2[k] == prev.2[k + 1]);
                    }
                }
            }
        }
    }
}

/// The entry of an unpaired VTODO of the map.
spec fn item_entry(e: IREntryView, item: (Seq<char>, Seq<char>, FetchedVTODOView), cs: Seq<(Seq<char>, Seq<char>)>) -> bool {
    &&& e.tw_task is None
    &&& e.fetched_vtodo == Some(item.2)
    &&& e.caldav_uid == Some(item.2.vtodo.uid)
    &&& e.calendar_url == Some(item.1)
    &&& e.project == project_for_url(item.1, cs)
    &&& (e.tw_uuid is None <==> (caldav_status(e) == "COMPLETED"@ || caldav_status(e) == "CANCELLED"@))
}

proof fn lemma_caldav_pass_entries(m: CaldavMap, fresh: Seq<u128>, cs: Seq<(Seq<char>, Seq<char>)>)
    ensures
        caldav_pass(m, fresh, cs).len() == m.len(),
        forall|k: int| 0 <= k < m.len() ==> item_entry(#[trigger] caldav_pass(m, fresh, cs)[k], m[k], cs),
    decreases m.len(),
{
    if m.len() > 0 {
        lemma_caldav_pass_entries(m.drop_last(), fresh.drop_last(), cs);
        let prev = caldav_pass(m.drop_last(), fresh.drop_last(), cs);
        let cur = caldav_pass(m, fresh, cs);
        assert forall|k: int| 0 <= k < m.len() implies item_entry(#[trigger] cur[k], m[k], cs) by {
            if k < m.len() - 1 {
                assert(cur[k] == prev[k]);
                assert(m.drop_last()[k] == m[k]);
            } else {
                assert(cur[k] == caldav_only_entry(m[k], fresh.last(), cs));
            }
        }
    }
}

/// An entry read from a VTODO alone: the VTODO is listed, without a recurrence rule, under
/// a calendar whose URL the entry records; its UID is the entry's CalDAV UID, its project
/// the one configured for that calendar, and it has a TaskWarrior UUID exactly when it is
/// neither completed nor cancelled.
pub open spec fn caldav_entry(e: IREntryView, cals: Seq<(Seq<char>, Seq<FetchedVTODOView>)>, cs: Seq<(Seq<char>, Seq<char>)>) -> bool {
    exists|cal: Seq<char>|
        {
            &&& #[trigger] e.calendar_url == Some(cal)
            &&& e.fetched_vtodo is Some
            &&& listed(cals, cal, e.fetched_vtodo->0)
            &&& e.fetched_vtodo->0.vtodo.rrule is None
            &&& e.caldav_uid == Some(e.fetched_vtodo->0.vtodo.uid)
            &&& e.project == project_for_url(cal, cs)
            &&& (e.tw_uuid is None <==> (caldav_status(e) == "COMPLETED"@ || caldav_status(e) == "CANCELLED"@))
        }
}

/// Every entry of the IR without a task was read from a VTODO alone, as `caldav_entry`
/// says; the entries with a task come first, one per task.
pub proof fn lemma_caldav_only_entries(
    ts: Seq<TWTaskView>,
    cals: Seq<(Seq<char>, Seq<FetchedVTODOView>)>,
    cs: Seq<(Seq<char>, Seq<char>)>,
    tw_fresh: Seq<u128>,
    cal_fresh: Seq<u128>,
)
    requires
        tw_fresh.len() == ts.len(),
    ensures
        forall|k: int|
            0 <= k < build_ir_spec(ts, cals, cs, tw_fresh, cal_fresh).0.len() ==> (k < ts.len() <==> (#[trigger] build_ir_spec(
                ts,
                cals,
                cs,
                tw_fresh,
                cal_fresh,
            ).0[k]).tw_task is Some),
        forall|k: int|
            0 <= k < build_ir_spec(ts, cals, cs, tw_fresh, cal_fresh).0.len() && (#[trigger] build_ir_spec(
                ts,
                cals,
                cs,
                tw_fresh,
                cal_fresh,
            ).0[k]).tw_task is None ==> caldav_entry(build_ir_spec(ts, cals, cs, tw_fresh, cal_fresh).0[k], cals, cs),
{
    let collected = collect_all(cals);
    let st0: TwPassState = (Seq::empty(), collected.1, collected.0);
    lemma_tw_pass_entries(st0, ts, tw_fresh, cs);
    lemma_collect_all_ok(cals, cals);
    lemma_tw_pass_keeps_map_ok(cals, st0, ts, tw_fresh, cs);
    let st = tw_pass(st0, ts, tw_fresh, cs);
    let tail = caldav_pass(st.2, cal_fresh, cs);
    lemma_caldav_pass_entries(st.2, cal_fresh, cs);
    let es = build_ir_spec(ts, cals, cs, tw_fresh, cal_fresh).0;
    assert(es == st.0 + tail);
    assert forall|k: int| 0 <= k < es.len() implies (k < ts.len() <==> (#[trigger] es[k]).tw_task is Some) && (es[k].tw_task
        is None ==> caldav_entry(es[k], cals, cs)) by {
        if k < ts.len() {
            assert(es[k] == st.0[k]);
            assert(task_entry(st.0[0 + k], ts[k], tw_fresh[k]));
        } else {
            let j = k - ts.len();
            assert(es[k] == tail[j]);
            assert(item_entry(tail[j], st.2[j], cs));
            let item = st.2[j];
            assert(item.2.vtodo.uid == item.0 && item.2.vtodo.rrule is None && listed(cals, item.1, item.2));
            assert(es[k].calendar_url == Some(item.1));
        }
    }
}

} // verus!
