//! Loop prevention: what one side writes to the other is seen as identical on the next run.
use vstd::prelude::*;
use crate::mapper::fields::{find_prop, ical_priority_to_tw, no_title, tw_priority_to_ical, vtodo_wait, wait_prop_name};
use crate::sync::lww::{content_identical_spec, depends_on_uids, lww_spec, normalized_status};
use crate::sync::plan::{caldav_status, tw_from_caldav_spec, vtodo_from_tw_spec};
use crate::text::{ascii_lower, ascii_upper, trim};
use crate::trusted::four_digit_year;
use crate::types::{
    FetchedVTODOView, IREntryView, IcalPropView, PlannedOpView, RelTypeView, SkipReason, TWTaskView, Timestamp,
};

verus! {

broadcast use {vstd::seq_lib::group_to_multiset_ensures, vstd::multiset::group_multiset_axioms};

/// The IR entry of a task paired with a fetched VTODO, otherwise as `e`.
pub open spec fn paired_entry(e: IREntryView, t: TWTaskView, f: FetchedVTODOView) -> IREntryView {
    IREntryView { tw_task: Some(t), fetched_vtodo: Some(f), ..e }
}

/// The task statuses that a write to CalDAV carries over faithfully.
pub open spec fn carried_status(s: Seq<char>) -> bool {
    s == "pending"@ || s == "waiting"@ || s == "completed"@ || s == "deleted"@
}

/// Status words of the two sides meet once normalized: NEEDS-ACTION, pending and waiting
/// are "pending", COMPLETED and completed are "completed", CANCELLED and deleted are
/// "deleted".
pub proof fn lemma_normalized_words()
    ensures
        normalized_status("NEEDS-ACTION"@) == "pending"@,
        normalized_status("pending"@) == "pending"@,
        normalized_status("waiting"@) == "pending"@,
        normalized_status("COMPLETED"@) == "completed"@,
        normalized_status("completed"@) == "completed"@,
        normalized_status("CANCELLED"@) == "deleted"@,
        normalized_status("deleted"@) == "deleted"@,
{
    reveal_strlit("NEEDS-ACTION");
    reveal_strlit("IN-PROCESS");
    reveal_strlit("PENDING");
    reveal_strlit("WAITING");
    reveal_strlit("COMPLETED");
    reveal_strlit("CANCELLED");
    reveal_strlit("CANCELED");
    reveal_strlit("DELETED");
    reveal_strlit("pending");
    reveal_strlit("waiting");
    reveal_strlit("completed");
    reveal_strlit("deleted");
    assert(ascii_upper("NEEDS-ACTION"@) =~= "NEEDS-ACTION"@);
    assert(ascii_upper("pending"@) =~= "PENDING"@);
    assert(ascii_upper("waiting"@) =~= "WAITING"@);
    assert(ascii_upper("COMPLETED"@) =~= "COMPLETED"@);
    assert(ascii_upper("completed"@) =~= "COMPLETED"@);
    assert(ascii_upper("CANCELLED"@) =~= "CANCELLED"@);
    assert(ascii_upper("deleted"@) =~= "DELETED"@);
    crate::text::lemma_status_words();
    assert("CANCELLED"@[1] != "PENDING"@[1] && "CANCELLED"@[0] != "WAITING"@[0]);
    assert("DELETED"@[0] != "PENDING"@[0] && "DELETED"@[0] != "WAITING"@[0]);
    assert("DELETED"@.len() != "COMPLETED"@.len() && "DELETED"@.len() != "IN-PROCESS"@.len());
    assert("DELETED"@.len() != "NEEDS-ACTION"@.len() && "DELETED"@.len() != "CANCELLED"@.len());
}

proof fn lemma_depends_on_all(rs: Seq<Seq<char>>)
    ensures
        depends_on_uids(rs.map_values(|u: Seq<char>| (RelTypeView::DependsOn, u))) == rs,
    decreases rs.len(),
{
    let m = rs.map_values(|u: Seq<char>| (RelTypeView::DependsOn, u));
    if rs.len() > 0 {
        assert(m.drop_last() =~= rs.drop_last().map_values(|u: Seq<char>| (RelTypeView::DependsOn, u)));
        lemma_depends_on_all(rs.drop_last());
        assert(rs.drop_last().push(rs.last()) =~= rs);
    } else {
        assert(rs =~= Seq::<Seq<char>>::empty());
    }
}

proof fn lemma_find_prop_absent(ps: Seq<IcalPropView>, name: Seq<char>)
    requires
        forall|i: int| 0 <= i < ps.len() ==> ascii_lower(#[trigger] ps[i].name) != ascii_lower(name),
    ensures
        find_prop(ps, name) is None,
    decreases ps.len(),
{
    if ps.len() > 0 {
        assert forall|i: int| 0 <= i < ps.drop_first().len() implies ascii_lower(
            #[trigger] ps.drop_first()[i].name,
        ) != ascii_lower(name) by {
            assert(ps.drop_first()[i] == ps[i + 1]);
        }
        lemma_find_prop_absent(ps.drop_first(), name);
    }
}

proof fn lemma_find_prop_last(ps: Seq<IcalPropView>, p: IcalPropView, name: Seq<char>)
    requires
        forall|i: int| 0 <= i < ps.len() ==> ascii_lower(#[trigger] ps[i].name) != ascii_lower(name),
        ascii_lower(p.name) == ascii_lower(name),
    ensures
        find_prop(ps.push(p), name) == Some(ps.len() as int),
    decreases ps.len(),
{
    if ps.len() > 0 {
        assert forall|i: int| 0 <= i < ps.drop_first().len() implies ascii_lower(
            #[trigger] ps.drop_first()[i].name,
        ) != ascii_lower(name) by {
            assert(ps.drop_first()[i] == ps[i + 1]);
        }
        lemma_find_prop_last(ps.drop_first(), p, name);
        assert(ps.push(p).drop_first() =~= ps.drop_first().push(p));
        assert(ps.push(p)[0] == ps[0]);
    } else {
        assert(ps.push(p)[0] == p);
    }
}

/// A write from TaskWarrior to CalDAV reaches a stable point: the VTODO built for a task,
/// fetched back next to that task (with the same resolved dependencies), is
/// content-identical to it, so last-write-wins plans a skip and no write follows. This
/// holds for tasks that are pending, waiting, completed with an end instant, or deleted
/// without one, whose description is not the "(no title)" sentinel, and whose wait, when
/// it lies ahead, has a four-digit year.
pub proof fn lemma_tw_write_is_stable(e: IREntryView, t: TWTaskView, now: Timestamp, f: FetchedVTODOView)
    requires
        vtodo_from_tw_spec(e, t, now, f.vtodo),
        t.description != no_title(),
        carried_status(t.status),
        (t.status == "completed"@) == (t.end is Some),
        t.wait matches Some(w) ==> (w > now ==> four_digit_year(w)),
    ensures
        content_identical_spec(paired_entry(e, t, f), now),
        lww_spec(paired_entry(e, t, f), now) == (PlannedOpView::Skip {
            tw_uuid: e.tw_uuid,
            reason: SkipReason::Identical,
        }),
{
    let p = paired_entry(e, t, f);
    let v = f.vtodo;
    lemma_normalized_words();
    crate::text::lemma_status_words();
    lemma_depends_on_all(e.resolved_depends);
    let kept = match e.fetched_vtodo {
        Some(old) => old.vtodo.extra_props.filter(
            |q: IcalPropView| ascii_lower(q.name) != ascii_lower(wait_prop_name()),
        ),
        None => Seq::empty(),
    };
    assert forall|i: int| 0 <= i < kept.len() implies ascii_lower(#[trigger] kept[i].name) != ascii_lower(
        wait_prop_name(),
    ) by {
        if let Some(old) = e.fetched_vtodo {
            old.vtodo.extra_props.lemma_filter_pred(
                |q: IcalPropView| ascii_lower(q.name) != ascii_lower(wait_prop_name()),
                i,
            );
        }
    }
    match t.wait {
        Some(w) => {
            if w > now {
                let wp = IcalPropView {
                    name: wait_prop_name(),
                    params: Seq::empty(),
                    value: crate::trusted::utc_format(w, crate::trusted::ical_utc_format()),
                };
                assert(v.extra_props == kept.push(wp));
                lemma_find_prop_last(kept, wp, wait_prop_name());
            } else {
                assert(v.extra_props == kept);
                lemma_find_prop_absent(kept, wait_prop_name());
            }
        },
        None => {
            assert(v.extra_props == kept);
            lemma_find_prop_absent(kept, wait_prop_name());
        },
    }
    assert(v.summary == Some(t.description));
    assert(v.priority == tw_priority_to_ical(t.priority));
    assert(v.categories =~= match t.tags {
        Some(tags) => tags,
        None => Seq::<Seq<char>>::empty(),
    });
    assert(content_identical_spec(p, now));
}


/// The CalDAV statuses that a write to TaskWarrior carries over faithfully.
pub open spec fn imported_status(s: Seq<char>) -> bool {
    s == "NEEDS-ACTION"@ || s == "IN-PROCESS"@ || s == "COMPLETED"@
}

/// The priorities that survive the trip to a TaskWarrior letter and back.
pub open spec fn letter_priority(p: Option<u8>) -> bool {
    match p {
        Some(n) => n == 1 || n == 5 || n == 9,
        None => true,
    }
}

/// A write from CalDAV to TaskWarrior reaches a stable point: the task built from an
/// entry's VTODO, paired with that same VTODO, is content-identical to it, so the next
/// sync at the same instant plans a skip. This holds when the VTODO has a SUMMARY, a
/// DESCRIPTION that is already trimmed and not empty (or none, and the task had no
/// annotations), a status of NEEDS-ACTION, IN-PROCESS or COMPLETED, a priority of 1, 5
/// or 9 (or none), a wait that lies ahead (or none), and when what CalDAV does not carry
/// back to TaskWarrior already agrees: the DEPENDS-ON relations with the entry's
/// resolved dependencies.
pub proof fn lemma_caldav_write_is_stable(
    e: IREntryView,
    pairs: Seq<(Seq<char>, u128)>,
    now: Timestamp,
    t: TWTaskView,
)
    requires
        e.fetched_vtodo is Some,
        e.tw_uuid is Some,
        tw_from_caldav_spec(e, pairs, now, t),
        e.fetched_vtodo->0.vtodo.summary is Some,
        match e.fetched_vtodo->0.vtodo.description {
            Some(d) => d.len() > 0 && trim(d) == d,
            None => match e.tw_task {
                Some(b) => b.annotations.len() == 0,
                None => true,
            },
        },
        imported_status(caldav_status(e)),
        letter_priority(e.fetched_vtodo->0.vtodo.priority),
        vtodo_wait(e.fetched_vtodo->0.vtodo) matches Some(w) ==> w > now,
        depends_on_uids(e.fetched_vtodo->0.vtodo.depends).to_multiset() == e.resolved_depends.to_multiset(),
    ensures
        content_identical_spec(paired_entry(e, t, e.fetched_vtodo->0), now),
        lww_spec(paired_entry(e, t, e.fetched_vtodo->0), now) == (PlannedOpView::Skip {
            tw_uuid: e.tw_uuid,
            reason: SkipReason::Identical,
        }),
{
    let f = e.fetched_vtodo->0;
    let v = f.vtodo;
    let p = paired_entry(e, t, f);
    lemma_normalized_words();
    crate::text::lemma_status_words();
    reveal_strlit("IN-PROCESS");
    reveal_strlit("pending");
    assert(ascii_upper("IN-PROCESS"@) =~= "IN-PROCESS"@);
    assert(normalized_status("IN-PROCESS"@) == "pending"@);
    let status = match v.status {
        Some(x) => x,
        None => "NEEDS-ACTION"@,
    };
    assert(status == caldav_status(e));
    assert(normalized_status(status) == normalized_status(t.status));
    assert(t.annotations.len() > 0 ==> t.annotations[0].description == v.description->0) by {
        if v.description is Some {
            assert(trim(v.description->0) == v.description->0);
        }
    }
    assert(v.description == (if t.annotations.len() > 0 {
        Some(t.annotations[0].description)
    } else {
        None::<Seq<char>>
    }));
    assert(v.priority == tw_priority_to_ical(t.priority)) by {
        reveal_strlit("H");
        reveal_strlit("M");
        reveal_strlit("L");
        assert("M"@ != "H"@ && "L"@ != "H"@ && "L"@ != "M"@) by {
            assert("M"@[0] != "H"@[0] && "L"@[0] != "H"@[0] && "L"@[0] != "M"@[0]);
        }
        assert(t.priority == ical_priority_to_tw(v.priority));
        match v.priority {
            Some(n) => {
                if n == 1 {
                    assert(t.priority == Some("H"@));
                } else if n == 5 {
                    assert(t.priority == Some("M"@));
                } else {
                    assert(t.priority == Some("L"@));
                }
            },
            None => {},
        }
    }
    assert(v.categories =~= match t.tags {
        Some(tags) => tags,
        None => Seq::<Seq<char>>::empty(),
    });
    assert(content_identical_spec(p, now));
}

} // verus!
