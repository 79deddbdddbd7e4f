//! Field mapper between TaskWarrior tasks and CalDAV VTODOs.
use vstd::prelude::*;
use vstd::string::StringExecFns;

use crate::text::{ascii_lower, chars_of, eq_ignore_ascii_case, str_eq, string_of_range, trim, trim_bounds};
use crate::trusted::{
    format_utc, four_digit_year, ical_utc_format, naive_datetime_parse, utc_text_shape, parse_naive_datetime, parse_uuid, utc_format,
    uuid_parse, uuid_text, uuid_to_string,
};
use crate::types::{
    annotations_view, depends_view, opt_str, params_view, props_view, IcalProp, IcalPropView, RelType,
    RelTypeView, TWTask, TWTaskView, Timestamp, VTODOView, VTODO,
};

verus! {

/// Fields produced when mapping a [`TWTask`] to the CalDAV direction.
#[derive(Debug)]
pub struct TwCalDavFields {
    /// TW `description` to VTODO `SUMMARY`.
    pub summary: Option<String>,
    /// First TW annotation to VTODO `DESCRIPTION`.
    pub annotations: Option<String>,
    /// TW `priority` to VTODO `PRIORITY` (1 = high, 5 = medium, 9 = low).
    pub priority: Option<u8>,
    /// TW `due` to VTODO `DUE`.
    pub due: Option<Timestamp>,
    /// TW `scheduled` to VTODO `DTSTART`.
    pub dtstart: Option<Timestamp>,
    /// TW `wait` to the `X-TASKWARRIOR-WAIT` property, only while the wait lies ahead.
    pub wait: Option<IcalProp>,
    /// TW `depends` to `RELATED-TO;RELTYPE=DEPENDS-ON`.
    pub depends: Vec<(RelType, String)>,
}

/// Fields produced when mapping a [`VTODO`] to the TaskWarrior direction.
#[derive(Debug)]
pub struct CalDavTwFields {
    /// VTODO `SUMMARY` to TW `description`; "(no title)" when absent.
    pub description: String,
    /// VTODO `DESCRIPTION` (trimmed, when not blank) to TW annotation text.
    pub annotations_text: Option<String>,
    /// VTODO `PRIORITY` to TW priority letter.
    pub priority: Option<String>,
    /// VTODO `DUE` to TW `due`.
    pub due: Option<Timestamp>,
    /// VTODO `DTSTART` to TW `scheduled`.
    pub scheduled: Option<Timestamp>,
    /// `X-TASKWARRIOR-WAIT` to TW `wait`.
    pub wait: Option<Timestamp>,
    /// `RELATED-TO;RELTYPE=DEPENDS-ON` to TW `depends`.
    pub depends: Vec<u128>,
}

/// The custom property that carries TaskWarrior's wait instant.
pub open spec fn wait_prop_name() -> Seq<char> {
    "X-TASKWARRIOR-WAIT"@
}

/// The sentinel description for a VTODO without a SUMMARY.
pub open spec fn no_title() -> Seq<char> {
    "(no title)"@
}

/// TaskWarrior priority letter to iCalendar priority.
pub open spec fn tw_priority_to_ical(p: Option<Seq<char>>) -> Option<u8> {
    match p {
        Some(l) => if l == "H"@ {
            Some(1u8)
        } else if l == "M"@ {
            Some(5u8)
        } else if l == "L"@ {
            Some(9u8)
        } else {
            None
        },
        None => None,
    }
}

/// iCalendar priority to TaskWarrior priority letter.
pub open spec fn ical_priority_to_tw(p: Option<u8>) -> Option<Seq<char>> {
    match p {
        Some(n) => if 1 <= n <= 4 {
            Some("H"@)
        } else if n == 5 {
            Some("M"@)
        } else if 6 <= n <= 9 {
            Some("L"@)
        } else {
            None
        },
        None => None,
    }
}

/// The wait property for a wait instant that still lies ahead of `now`.
pub open spec fn wait_prop_spec(wait: Option<Timestamp>, now: Timestamp) -> Option<IcalPropView> {
    match wait {
        Some(w) => if w > now {
            Some(IcalPropView { name: wait_prop_name(), params: Seq::empty(), value: utc_format(w, ical_utc_format()) })
        } else {
            None
        },
        None => None,
    }
}

pub open spec fn opt_prop(o: Option<IcalProp>) -> Option<IcalPropView> {
    match o {
        Some(p) => Some(p@),
        None => None,
    }
}

/// `RELATED-TO;RELTYPE=DEPENDS-ON` entries for a list of UUIDs.
pub open spec fn depends_of_uuids(ds: Seq<u128>) -> Seq<(RelTypeView, Seq<char>)> {
    ds.map_values(|u: u128| (RelTypeView::DependsOn, uuid_text(u)))
}

/// The CalDAV fields of a TaskWarrior task.
pub open spec fn tw_fields_spec(t: TWTaskView, now: Timestamp, f: TwCalDavFields) -> bool {
    &&& opt_str(f.summary) == (if t.description == no_title() {
        None::<Seq<char>>
    } else {
        Some(t.description)
    })
    &&& opt_str(f.annotations) == (if t.annotations.len() > 0 {
        Some(t.annotations[0].description)
    } else {
        None::<Seq<char>>
    })
    &&& f.priority == tw_priority_to_ical(t.priority)
    &&& f.due == t.due
    &&& f.dtstart == t.scheduled
    &&& opt_prop(f.wait) == wait_prop_spec(t.wait, now)
    &&& wait_reads_back(t.wait, now)
    &&& depends_view(f.depends@) == depends_of_uuids(t.depends)
}

/// A wait written to the wait property (one that lies ahead, with a four-digit year) is
/// read back from the property as the same instant.
pub open spec fn wait_reads_back(wait: Option<Timestamp>, now: Timestamp) -> bool {
    match wait {
        Some(w) => w > now && four_digit_year(w) ==> ical_datetime_utc(utc_format(w, ical_utc_format())) == Some(w),
        None => true,
    }
}

/// Maps a task's priority letter to the iCalendar priority.
pub fn priority_to_ical(p: &Option<String>) -> (r: Option<u8>)
    ensures
        r == tw_priority_to_ical(opt_str(*p)),
{
    match p {
        Some(l) => {
            let l = l.as_str();
            if str_eq(l, "H") {
                Some(1u8)
            } else if str_eq(l, "M") {
                Some(5u8)
            } else if str_eq(l, "L") {
                Some(9u8)
            } else {
                None
            }
        },
        None => None,
    }
}

/// Maps a [`TWTask`]'s fields to their CalDAV equivalents; status is mapped separately.
pub fn tw_to_caldav_fields(task: &TWTask, now: Timestamp) -> (f: TwCalDavFields)
    ensures
        tw_fields_spec(task@, now, f),
{
    let summary = if str_eq(task.description.as_str(), "(no title)") {
        None
    } else {
        Some(task.description.clone())
    };
    let annotations = if task.annotations.len() > 0 {
        Some(task.annotations[0].description.clone())
    } else {
        None
    };
    assert(task.annotations.len() > 0 ==> task@.annotations[0].description == task.annotations@[0].description@);
    let priority = priority_to_ical(&task.priority);
    let wait = match task.wait {
        Some(w) => if w > now {
            let p = IcalProp { name: String::from_str("X-TASKWARRIOR-WAIT"), params: Vec::new(), value: format_utc(w, "%Y%m%dT%H%M%SZ") };
            proof {
                if four_digit_year(w) {
                    lemma_utc_text_reads_back(p.value@, w);
                }
            }
            assert(params_view(p.params@) =~= Seq::empty());
            Some(p)
        } else {
            None
        },
        None => None,
    };
    let mut depends: Vec<(RelType, String)> = Vec::new();
    let mut i: usize = 0;
    while i < task.depends.len()
        invariant
            i <= task.depends.len(),
            depends_view(depends@) == depends_of_uuids(task.depends@.take(i as int)),
        decreases task.depends.len() - i,
    {
        let ghost prev = depends@;
        depends.push((RelType::DependsOn, uuid_to_string(task.depends[i])));
        assert(depends_view(depends@) =~= depends_view(prev).push((RelTypeView::DependsOn, uuid_text(task.depends@[i as int]))));
        assert(depends_of_uuids(task.depends@.take(i + 1)) =~= depends_of_uuids(task.depends@.take(i as int)).push(
            (RelTypeView::DependsOn, uuid_text(task.depends@[i as int])),
        ));
        i += 1;
    }
    assert(task.depends@.take(task.depends.len() as int) =~= task.depends@);
    TwCalDavFields { summary, annotations, priority, due: task.due, dtstart: task.scheduled, wait, depends }
}

// ---------------------------------------------------------------------------
// CalDAV -> TW
// ---------------------------------------------------------------------------

/// `s` without every trailing occurrence of `c` (`str::trim_end_matches` with a char).
pub open spec fn strip_trailing(s: Seq<char>, c: char) -> Seq<char>
    decreases s.len(),
{
    if s.len() > 0 && s.last() == c {
        strip_trailing(s.drop_last(), c)
    } else {
        s
    }
}

/// The iCalendar date-time form without its zone designator.
pub open spec fn ical_naive_format() -> Seq<char> {
    "%Y%m%dT%H%M%S"@
}

/// An iCalendar UTC date-time text (`YYYYMMDDTHHMMSSZ`) read as an instant.
pub open spec fn ical_datetime_utc(s: Seq<char>) -> Option<Timestamp> {
    naive_datetime_parse(strip_trailing(trim(s), 'Z'), ical_naive_format())
}

/// A text of the shape `YYYYMMDDTHHMMSSZ` whose part before the `Z` parses as an instant
/// is read as that instant.
pub proof fn lemma_utc_text_reads_back(s: Seq<char>, t: Timestamp)
    requires
        utc_text_shape(s),
        naive_datetime_parse(s.drop_last(), ical_naive_format()) == Some(t),
    ensures
        ical_datetime_utc(s) == Some(t),
{
    assert('0' <= s[0] <= '9');
    crate::text::lemma_trim_id(s);
    assert('0' <= s[14] <= '9');
    assert(s.drop_last().last() == s[14]);
    assert(strip_trailing(s.drop_last(), 'Z') == s.drop_last());
}

/// Parses an iCalendar UTC date-time (`YYYYMMDDTHHMMSSZ`).
pub fn parse_ical_datetime_utc(s: &str) -> (r: Option<Timestamp>)
    ensures
        r == ical_datetime_utc(s@),
{
    let v = chars_of(s);
    let (a, mut b) = trim_bounds(&v);
    let ghost t = v@.subrange(a as int, b as int);
    while b > a && v[b - 1] == 'Z'
        invariant
            a <= b <= v.len(),
            strip_trailing(v@.subrange(a as int, b as int), 'Z') == strip_trailing(t, 'Z'),
        decreases b,
    {
        assert(v@.subrange(a as int, b as int).drop_last() =~= v@.subrange(a as int, b - 1));
        b -= 1;
    }
    let stripped = string_of_range(&v, a, b);
    parse_naive_datetime(stripped.as_str(), "%Y%m%dT%H%M%S")
}

/// Position of the first property whose name matches `name` ignoring ASCII case.
pub open spec fn find_prop(props: Seq<IcalPropView>, name: Seq<char>) -> Option<int>
    decreases props.len(),
{
    if props.len() == 0 {
        None
    } else if ascii_lower(props[0].name) == ascii_lower(name) {
        Some(0)
    } else {
        match find_prop(props.drop_first(), name) {
            Some(k) => Some(k + 1),
            None => None,
        }
    }
}

/// TaskWarrior UUIDs of the DEPENDS-ON relations that parse as UUIDs, in order.
pub open spec fn parsed_depends(ds: Seq<(RelTypeView, Seq<char>)>) -> Seq<u128>
    decreases ds.len(),
{
    if ds.len() == 0 {
        Seq::empty()
    } else {
        let prev = parsed_depends(ds.drop_last());
        let d = ds.last();
        if d.0 is DependsOn && uuid_parse(d.1) is Some {
            prev.push(uuid_parse(d.1)->0)
        } else {
            prev
        }
    }
}

/// The wait instant carried by a VTODO's first `X-TASKWARRIOR-WAIT` property.
pub open spec fn vtodo_wait(v: VTODOView) -> Option<Timestamp> {
    match find_prop(v.extra_props, wait_prop_name()) {
        Some(k) => ical_datetime_utc(v.extra_props[k].value),
        None => None,
    }
}

/// The TaskWarrior fields of a VTODO.
pub open spec fn caldav_fields_spec(v: VTODOView, f: CalDavTwFields) -> bool {
    &&& f.description@ == match v.summary {
        Some(s) => s,
        None => no_title(),
    }
    &&& opt_str(f.annotations_text) == match v.description {
        Some(d) => if trim(d).len() == 0 {
            None::<Seq<char>>
        } else {
            Some(trim(d))
        },
        None => None,
    }
    &&& opt_str(f.priority) == ical_priority_to_tw(v.priority)
    &&& f.due == v.due
    &&& f.scheduled == v.dtstart
    &&& f.wait == vtodo_wait(v)
    &&& f.depends@ == parsed_depends(v.depends)
}

/// Finds the first property named `name`, ignoring ASCII case.
pub fn find_prop_exec(props: &Vec<IcalProp>, name: &str) -> (r: Option<usize>)
    ensures
        match r {
            Some(k) => find_prop(props_view(props@), name@) == Some(k as int) && k < props.len(),
            None => find_prop(props_view(props@), name@) is None,
        },
{
    let ghost pv = props_view(props@);
    let mut i: usize = 0;
    assert(pv.skip(0) =~= pv);
    while i < props.len()
        invariant
            i <= props.len(),
            pv == props_view(props@),
            find_prop(pv, name@) == match find_prop(pv.skip(i as int), name@) {
                Some(k) => Some(k + i),
                None => None::<int>,
            },
        decreases props.len() - i,
    {
        assert(pv.skip(i as int)[0] == props@[i as int]@);
        assert(pv.skip(i as int).drop_first() =~= pv.skip(i + 1));
        if eq_ignore_ascii_case(props[i].name.as_str(), name) {
            return Some(i);
        }
        i += 1;
    }
    None
}

/// Maps a [`VTODO`]'s fields to their TaskWarrior equivalents; status is mapped separately.
pub fn caldav_to_tw_fields(vtodo: &VTODO) -> (f: CalDavTwFields)
    ensures
        caldav_fields_spec(vtodo@, f),
{
    let description = match &vtodo.summary {
        Some(s) => s.clone(),
        None => String::from_str("(no title)"),
    };
    let annotations_text = match &vtodo.description {
        Some(d) => {
            let v = chars_of(d.as_str());
            let (a, b) = trim_bounds(&v);
            if a == b {
                None
            } else {
                Some(string_of_range(&v, a, b))
            }
        },
        None => None,
    };
    let priority = match vtodo.priority {
        Some(n) => if 1 <= n && n <= 4 {
            Some(String::from_str("H"))
        } else if n == 5 {
            Some(String::from_str("M"))
        } else if 6 <= n && n <= 9 {
            Some(String::from_str("L"))
        } else {
            None
        },
        None => None,
    };
    let wait = match find_prop_exec(&vtodo.extra_props, "X-TASKWARRIOR-WAIT") {
        Some(k) => {
            assert(props_view(vtodo.extra_props@)[k as int] == vtodo.extra_props@[k as int]@);
            parse_ical_datetime_utc(vtodo.extra_props[k].value.as_str())
        },
        None => None,
    };
    let mut depends: Vec<u128> = Vec::new();
    let mut i: usize = 0;
    let ghost dv = depends_view(vtodo.depends@);
    while i < vtodo.depends.len()
        invariant
            i <= vtodo.depends.len(),
            dv == depends_view(vtodo.depends@),
            depends@ == parsed_depends(dv.take(i as int)),
        decreases vtodo.depends.len() - i,
    {
        assert(dv.take(i + 1).drop_last() =~= dv.take(i as int));
        assert(dv.take(i + 1).last() == (vtodo.depends@[i as int].0@, vtodo.depends@[i as int].1@));
        match &vtodo.depends[i].0 {
            RelType::DependsOn => {
                match parse_uuid(vtodo.depends[i].1.as_str()) {
                    Some(u) => depends.push(u),
                    None => {},
                }
            },
            RelType::Other(_) => {},
        }
        i += 1;
    }
    assert(dv.take(vtodo.depends.len() as int) =~= dv);
    CalDavTwFields { description, annotations_text, priority, due: vtodo.due, scheduled: vtodo.dtstart, wait, depends }
}

/// CalDAV priorities become TaskWarrior letters by band: 1 to 4 are `H`, 5 is `M`, 6 to 9
/// are `L`; 0 (undefined), values above 9 and an absent PRIORITY give no letter.
pub proof fn lemma_priority_bands(v: VTODOView, f: CalDavTwFields)
    requires
        caldav_fields_spec(v, f),
    ensures
        v.priority matches Some(n) && 1 <= n <= 4 ==> opt_str(f.priority) == Some("H"@),
        v.priority == Some(5u8) ==> opt_str(f.priority) == Some("M"@),
        v.priority matches Some(n) && 6 <= n <= 9 ==> opt_str(f.priority) == Some("L"@),
        (v.priority matches Some(n) && (n == 0 || n > 9)) ==> opt_str(f.priority) is None,
        v.priority is None ==> opt_str(f.priority) is None,
{
}

/// A TaskWarrior letter written to CalDAV reads back as the same letter: `H` as 1, `M` as
/// 5 and `L` as 9, each inside its band; any other value writes no PRIORITY.
pub proof fn lemma_priority_letters_read_back(t: TWTaskView, now: Timestamp, f: TwCalDavFields, l: Seq<char>)
    requires
        tw_fields_spec(t, now, f),
        t.priority == Some(l),
    ensures
        (l == "H"@ || l == "M"@ || l == "L"@) ==> ical_priority_to_tw(f.priority) == Some(l),
        l == "H"@ ==> f.priority == Some(1u8),
        l == "M"@ ==> f.priority == Some(5u8),
        l == "L"@ ==> f.priority == Some(9u8),
        !(l == "H"@ || l == "M"@ || l == "L"@) ==> f.priority is None,
{
    reveal_strlit("H");
    reveal_strlit("M");
    reveal_strlit("L");
    assert("M"@ != "H"@ && "L"@ != "H"@ && "L"@ != "M"@) by {
        assert("M"@[0] != "H"@[0] && "L"@[0] != "H"@[0] && "L"@[0] != "M"@[0]);
    }
}

/// The TaskWarrior fields read from a VTODO: the description is the SUMMARY (else
/// "(no title)"), the annotation text the DESCRIPTION trimmed (none when it is blank or
/// absent), and the due and scheduled times DUE and DTSTART.
pub proof fn lemma_caldav_fields_read(v: VTODOView, f: CalDavTwFields)
    requires
        caldav_fields_spec(v, f),
    ensures
        v.summary matches Some(s) ==> f.description@ == s,
        v.summary is None ==> f.description@ == "(no title)"@,
        v.description is None ==> f.annotations_text is None,
        match v.description {
            Some(d) => (trim(d).len() == 0 ==> f.annotations_text is None) && (trim(d).len() > 0 ==> opt_str(
                f.annotations_text,
            ) == Some(trim(d))),
            None => true,
        },
        f.due == v.due,
        f.scheduled == v.dtstart,
{
}

} // verus!
