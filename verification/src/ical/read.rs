//! Reading the first VTODO of a VCALENDAR text.
use vstd::prelude::*;
use vstd::string::StringExecFns;
use crate::error::CaldaWarriorError;
use crate::ical::line::{parse_property_line, parsed_line_view, property_line_spec};
use crate::ical::text::{split_commas_spec, split_on_unescaped_commas, unescape_spec, unescape_text, unfold_lines, unfold_spec};
use crate::ical::value::{
    date_only_spec, datetime_spec, find_param, is_date_only_value, parse_datetime_with_params, parse_u8, u8_from_str,
};
use crate::mapper::fields::strip_trailing;
use crate::text::{chars_of, find_chars, find_from, push_char, str_eq, string_of_range, trim, trim_str};
use crate::trusted::{to_uppercase, upper_text};
use crate::types::{
    IcalProp, IcalPropView, RelType, RelTypeView, VTODO, VTODOView, depends_view, params_view, props_view, str_seq,
};

verus! {

/// The VTODO with no properties set.
pub open spec fn empty_vtodo() -> VTODOView {
    VTODOView {
        uid: Seq::empty(),
        summary: None,
        description: None,
        status: None,
        last_modified: None,
        dtstamp: None,
        dtstart: None,
        due: None,
        completed: None,
        categories: Seq::empty(),
        rrule: None,
        priority: None,
        depends: Seq::empty(),
        extra_props: Seq::empty(),
        due_is_date_only: false,
        dtstart_is_date_only: false,
    }
}

impl Default for VTODO {
    fn default() -> (r: Self)
        ensures
            r@ == empty_vtodo(),
    {
        let r = VTODO {
            uid: String::new(),
            summary: None,
            description: None,
            status: None,
            last_modified: None,
            dtstamp: None,
            dtstart: None,
            due: None,
            completed: None,
            categories: Vec::new(),
            rrule: None,
            priority: None,
            depends: Vec::new(),
            extra_props: Vec::new(),
            due_is_date_only: false,
            dtstart_is_date_only: false,
        };
        assert(r@.categories =~= Seq::<Seq<char>>::empty());
        assert(r@.depends =~= Seq::<(RelTypeView, Seq<char>)>::empty());
        assert(r@.extra_props =~= Seq::<IcalPropView>::empty());
        r
    }
}

/// The categories listed in a `CATEGORIES` value: the pieces between unescaped commas,
/// each trimmed and unescaped, blank ones dropped.
pub open spec fn category_values(pieces: Seq<Seq<char>>) -> Seq<Seq<char>>
    decreases pieces.len(),
{
    if pieces.len() == 0 {
        Seq::empty()
    } else {
        let prev = category_values(pieces.drop_last());
        let c = unescape_spec(trim(pieces.last()));
        if c.len() > 0 {
            prev.push(c)
        } else {
            prev
        }
    }
}

/// The relation named by a `RELATED-TO` property's `RELTYPE` parameter.
pub open spec fn reltype_of(ps: Seq<(Seq<char>, Seq<char>)>) -> RelTypeView {
    match find_param(ps, "RELTYPE"@) {
        Some(v) => if upper_text(v) == "DEPENDS-ON"@ {
            RelTypeView::DependsOn
        } else {
            RelTypeView::Other(upper_text(v))
        },
        None => RelTypeView::Other(Seq::empty()),
    }
}

/// The `PRIORITY` value: its decimal number when it is 1 to 255.
pub open spec fn priority_of(value: Seq<char>) -> Option<u8> {
    match u8_from_str(trim(value)) {
        Some(p) => if p > 0 {
            Some(p)
        } else {
            None
        },
        None => None,
    }
}

/// What reading one property does to the UID read so far and to the VTODO.
pub open spec fn apply_prop(
    uid: Option<Seq<char>>,
    v: VTODOView,
    name: Seq<char>,
    ps: Seq<(Seq<char>, Seq<char>)>,
    value: Seq<char>,
) -> (Option<Seq<char>>, VTODOView) {
    let key = upper_text(name);
    if key == "UID"@ {
        (Some(value), v)
    } else if key == "SUMMARY"@ {
        (uid, VTODOView { summary: Some(unescape_spec(value)), ..v })
    } else if key == "DESCRIPTION"@ {
        (uid, VTODOView { description: Some(unescape_spec(value)), ..v })
    } else if key == "STATUS"@ {
        (uid, VTODOView { status: Some(value), ..v })
    } else if key == "LAST-MODIFIED"@ {
        (uid, VTODOView { last_modified: datetime_spec(value, ps), ..v })
    } else if key == "DTSTART"@ {
        (uid, VTODOView { dtstart: datetime_spec(value, ps), dtstart_is_date_only: date_only_spec(value, ps), ..v })
    } else if key == "DUE"@ {
        (uid, VTODOView { due: datetime_spec(value, ps), due_is_date_only: date_only_spec(value, ps), ..v })
    } else if key == "COMPLETED"@ {
        (uid, VTODOView { completed: datetime_spec(value, ps), ..v })
    } else if key == "CATEGORIES"@ {
        (uid, VTODOView { categories: v.categories + category_values(split_commas_spec(value)), ..v })
    } else if key == "RRULE"@ {
        (uid, VTODOView { rrule: Some(value), ..v })
    } else if key == "PRIORITY"@ {
        (uid, VTODOView { priority: priority_of(value), ..v })
    } else if key == "RELATED-TO"@ {
        (uid, VTODOView { depends: v.depends.push((reltype_of(ps), value)), ..v })
    } else if key == "DTSTAMP"@ {
        (uid, VTODOView { dtstamp: datetime_spec(value, ps), ..v })
    } else if key == "BEGIN"@ || key == "END"@ {
        (uid, v)
    } else {
        (uid, VTODOView { extra_props: v.extra_props.push(IcalPropView { name, params: ps, value }), ..v })
    }
}

#[verifier::opaque]
/// What reading one physical line of the VTODO block does: trailing carriage returns are
/// dropped, and blank lines and lines that are not properties are skipped.
pub open spec fn apply_line(st: (Option<Seq<char>>, VTODOView), line: Seq<char>) -> (Option<Seq<char>>, VTODOView) {
    let l = strip_trailing(line, '\r');
    if l.len() == 0 {
        st
    } else {
        match property_line_spec(l) {
            None => st,
            Some(p) => apply_prop(st.0, st.1, p.0, p.1, p.2),
        }
    }
}

/// Reading the lines of a block, `cur` being the line read so far.
pub open spec fn scan_block(s: Seq<char>, cur: Seq<char>, st: (Option<Seq<char>>, VTODOView)) -> (
    Option<Seq<char>>,
    VTODOView,
)
    decreases s.len(),
{
    if s.len() == 0 {
        apply_line(st, cur)
    } else if s[0] == '\n' {
        scan_block(s.drop_first(), Seq::empty(), apply_line(st, cur))
    } else {
        scan_block(s.drop_first(), cur.push(s[0]), st)
    }
}

/// The VTODO once every line is read: it needs a UID.
pub open spec fn finish_spec(st: (Option<Seq<char>>, VTODOView)) -> Result<VTODOView, Seq<char>> {
    match st.0 {
        None => Err("UID property missing"@),
        Some(uid) => Ok(VTODOView { uid, ..st.1 }),
    }
}

/// The result of reading a VCALENDAR text: the first VTODO's properties, or the message of
/// the parse error.
#[verifier::opaque]
pub open spec fn vtodo_from_ical(s: Seq<char>) -> Result<VTODOView, Seq<char>> {
    let u = unfold_spec(s);
    match find_from(u, "BEGIN:VTODO"@, 0) {
        None => Err("No VTODO component found"@),
        Some(start) => {
            let after = start + "BEGIN:VTODO"@.len();
            match find_from(u, "END:VTODO"@, after) {
                None => Err("No END:VTODO found"@),
                Some(end) => finish_spec(scan_block(u.subrange(after, end), Seq::empty(), (None, empty_vtodo()))),
            }
        },
    }
}

/// The categories of one `CATEGORIES` value.
fn read_categories(value: &str) -> (r: Vec<String>)
    ensures
        str_seq(r@) == category_values(split_commas_spec(value@)),
{
    let pieces = split_on_unescaped_commas(value);
    let ghost ps = str_seq(pieces@);
    let mut r: Vec<String> = Vec::new();
    let mut i: usize = 0;
    assert(ps.take(0) =~= Seq::<Seq<char>>::empty());
    while i < pieces.len()
        invariant
            i <= pieces.len(),
            ps == str_seq(pieces@),
            str_seq(r@) == category_values(ps.take(i as int)),
        decreases pieces.len() - i,
    {
        let t = trim_str(pieces[i].as_str());
        let c = unescape_text(t.as_str());
        assert(ps.take(i + 1).drop_last() =~= ps.take(i as int));
        if !c.as_str().is_empty() {
            let ghost prev = str_seq(r@);
            r.push(c);
            assert(str_seq(r@) =~= prev.push(c@));
        }
        i += 1;
    }
    assert(ps.take(pieces.len() as int) =~= ps);
    r
}

/// The `RELATED-TO` relation named by the parameters.
fn read_reltype(params: &Vec<(String, String)>) -> (r: RelType)
    ensures
        r@ == reltype_of(params_view(params@)),
{
    let ghost ps = params_view(params@);
    let mut i: usize = 0;
    assert(ps.skip(0) =~= ps);
    while i < params.len()
        invariant
            i <= params.len(),
            ps == params_view(params@),
            find_param(ps, "RELTYPE"@) == find_param(ps.skip(i as int), "RELTYPE"@),
        decreases params.len() - i,
    {
        assert(ps.skip(i as int).drop_first() =~= ps.skip(i + 1));
        let k = to_uppercase(params[i].0.as_str());
        if str_eq(k.as_str(), "RELTYPE") {
            let u = to_uppercase(params[i].1.as_str());
            if str_eq(u.as_str(), "DEPENDS-ON") {
                return RelType::DependsOn;
            } else {
                return RelType::Other(u);
            }
        }
        i += 1;
    }
    proof {
        reveal_strlit("");
    }
    RelType::Other(String::new())
}

/// The UID read so far and the VTODO being filled.
struct Draft {
    uid: Option<String>,
    vtodo: VTODO,
}

impl Draft {
    spec fn state(&self) -> (Option<Seq<char>>, VTODOView) {
        (crate::types::opt_str(self.uid), self.vtodo@)
    }
}

fn extend_strings(dst: &mut Vec<String>, src: &Vec<String>)
    ensures
        str_seq(final(dst)@) == str_seq(old(dst)@) + str_seq(src@),
{
    let ghost prev = str_seq(dst@);
    let mut i: usize = 0;
    assert(str_seq(src@).take(0) =~= Seq::<Seq<char>>::empty());
    assert(prev + Seq::<Seq<char>>::empty() =~= prev);
    while i < src.len()
        invariant
            i <= src.len(),
            str_seq(dst@) == prev + str_seq(src@).take(i as int),
        decreases src.len() - i,
    {
        let c = String::from_str(src[i].as_str());
        let ghost before = str_seq(dst@);
        dst.push(c);
        assert(str_seq(dst@) =~= before.push(src@[i as int]@));
        assert(str_seq(src@).take(i + 1) =~= str_seq(src@).take(i as int).push(src@[i as int]@));
        assert(prev + str_seq(src@).take(i + 1) =~= (prev + str_seq(src@).take(i as int)).push(src@[i as int]@));
        i += 1;
    }
    assert(str_seq(src@).take(src.len() as int) =~= str_seq(src@));
}

fn apply_property(d: &mut Draft, name: String, params: Vec<(String, String)>, value: String)
    ensures
        final(d).state() == apply_prop(old(d).state().0, old(d).state().1, name@, params_view(params@), value@),
{
    let key = to_uppercase(name.as_str());
    let k = key.as_str();
    if str_eq(k, "UID") {
        d.uid = Some(value);
    } else if str_eq(k, "SUMMARY") {
        d.vtodo.summary = Some(unescape_text(value.as_str()));
    } else if str_eq(k, "DESCRIPTION") {
        d.vtodo.description = Some(unescape_text(value.as_str()));
    } else if str_eq(k, "STATUS") {
        d.vtodo.status = Some(value);
    } else if str_eq(k, "LAST-MODIFIED") {
        d.vtodo.last_modified = parse_datetime_with_params(value.as_str(), &params);
    } else if str_eq(k, "DTSTART") {
        d.vtodo.dtstart = parse_datetime_with_params(value.as_str(), &params);
        d.vtodo.dtstart_is_date_only = is_date_only_value(value.as_str(), &params);
    } else if str_eq(k, "DUE") {
        d.vtodo.due = parse_datetime_with_params(value.as_str(), &params);
        d.vtodo.due_is_date_only = is_date_only_value(value.as_str(), &params);
    } else if str_eq(k, "COMPLETED") {
        d.vtodo.completed = parse_datetime_with_params(value.as_str(), &params);
    } else if str_eq(k, "CATEGORIES") {
        let cats = read_categories(value.as_str());
        extend_strings(&mut d.vtodo.categories, &cats);
    } else if str_eq(k, "RRULE") {
        d.vtodo.rrule = Some(value);
    } else if str_eq(k, "PRIORITY") {
        let t = trim_str(value.as_str());
        d.vtodo.priority = match parse_u8(t.as_str()) {
            Some(p) => if p > 0 {
                Some(p)
            } else {
                None
            },
            None => None,
        };
    } else if str_eq(k, "RELATED-TO") {
        let rel = read_reltype(&params);
        let ghost prev = depends_view(d.vtodo.depends@);
        d.vtodo.depends.push((rel, value));
        assert(depends_view(d.vtodo.depends@) =~= prev.push((rel@, value@)));
    } else if str_eq(k, "DTSTAMP") {
        d.vtodo.dtstamp = parse_datetime_with_params(value.as_str(), &params);
    } else if str_eq(k, "BEGIN") || str_eq(k, "END") {
    } else {
        let ghost prev = props_view(d.vtodo.extra_props@);
        let ghost pv = params_view(params@);
        let ghost nv = name@;
        let ghost vv = value@;
        d.vtodo.extra_props.push(IcalProp { name, params, value });
        assert(props_view(d.vtodo.extra_props@) =~= prev.push(IcalPropView { name: nv, params: pv, value: vv }));
    }
}

fn apply_block_line(d: &mut Draft, line: &Vec<char>)
    ensures
        final(d).state() == apply_line(old(d).state(), line@),
{
    reveal(apply_line);
    let mut b = line.len();
    assert(line@.take(b as int) =~= line@);
    while b > 0 && line[b - 1] == '\r'
        invariant
            b <= line.len(),
            strip_trailing(line@, '\r') == strip_trailing(line@.take(b as int), '\r'),
        decreases b,
    {
        assert(line@.take(b as int).drop_last() =~= line@.take(b - 1));
        b -= 1;
    }
    assert(strip_trailing(line@.take(b as int), '\r') == line@.take(b as int));
    if b == 0 {
        return;
    }
    let l = string_of_range(line, 0, b);
    assert(line@.subrange(0, b as int) =~= line@.take(b as int));
    match parse_property_line(l.as_str()) {
        None => {},
        Some((name, params, value)) => {
            apply_property(d, name, params, value);
        },
    }
}

/// Reads the properties of the lines in `u[after..end]`.
fn read_block(u: &Vec<char>, after: usize, end: usize) -> (d: Draft)
    requires
        after <= end <= u.len(),
    ensures
        d.state() == scan_block(u@.subrange(after as int, end as int), Seq::empty(), (None, empty_vtodo())),
{
    let ghost block = u@.subrange(after as int, end as int);
    let mut d = Draft { uid: None, vtodo: VTODO::default() };
    let mut cur: Vec<char> = Vec::new();
    let mut i: usize = after;
    assert(u@.subrange(i as int, end as int) =~= block);
    while i < end
        invariant
            after <= i <= end <= u.len(),
            block == u@.subrange(after as int, end as int),
            scan_block(block, Seq::empty(), (None, empty_vtodo())) == scan_block(
                u@.subrange(i as int, end as int),
                cur@,
                d.state(),
            ),
        decreases end - i,
    {
        assert(u@.subrange(i as int, end as int).drop_first() =~= u@.subrange(i + 1, end as int));
        if u[i] == '\n' {
            apply_block_line(&mut d, &cur);
            cur = Vec::new();
            assert(cur@ =~= Seq::<char>::empty());
        } else {
            cur.push(u[i]);
        }
        i += 1;
    }
    assert(u@.subrange(end as int, end as int) =~= Seq::<char>::empty());
    apply_block_line(&mut d, &cur);
    d
}

/// `from_icalendar_string`: reads the first VTODO component of a VCALENDAR text.
#[verifier::spinoff_prover]
pub fn from_icalendar_string(s: &str) -> (r: Result<VTODO, CaldaWarriorError>)
    ensures
        match r {
            Ok(v) => vtodo_from_ical(s@) == Ok::<VTODOView, Seq<char>>(v@),
            Err(e) => e matches CaldaWarriorError::IcalParse(m) && vtodo_from_ical(s@) == Err::<VTODOView, Seq<char>>(m@),
        },
{
    reveal(vtodo_from_ical);
    let unfolded = unfold_lines(s);
    let u = chars_of(unfolded.as_str());
    let begin = chars_of("BEGIN:VTODO");
    let end_pat = chars_of("END:VTODO");
    let start = match find_chars(&u, &begin, 0) {
        Some(k) => k,
        None => return Err(CaldaWarriorError::IcalParse(String::from_str("No VTODO component found"))),
    };
    let after = start + begin.len();
    let end = match find_chars(&u, &end_pat, after) {
        Some(k) => k,
        None => return Err(CaldaWarriorError::IcalParse(String::from_str("No END:VTODO found"))),
    };
    let d = read_block(&u, after, end);
    finish(d)
}

fn finish(d: Draft) -> (r: Result<VTODO, CaldaWarriorError>)
    ensures
        match r {
            Ok(v) => finish_spec(d.state()) == Ok::<VTODOView, Seq<char>>(v@),
            Err(e) => e matches CaldaWarriorError::IcalParse(m) && finish_spec(d.state()) == Err::<VTODOView, Seq<char>>(m@),
        },
{
    match d.uid {
        None => Err(CaldaWarriorError::IcalParse(String::from_str("UID property missing"))),
        Some(uid) => {
            let mut v = d.vtodo;
            v.uid = uid;
            Ok(v)
        },
    }
}

/// The physical lines of a block, `cur` being the start of the first one.
pub open spec fn block_lines(s: Seq<char>, cur: Seq<char>) -> Seq<Seq<char>>
    decreases s.len(),
{
    if s.len() == 0 {
        seq![cur]
    } else if s[0] == '\n' {
        seq![cur] + block_lines(s.drop_first(), Seq::empty())
    } else {
        block_lines(s.drop_first(), cur.push(s[0]))
    }
}

/// A line that reads as a `UID` property (the name in any case, after trailing carriage
/// returns are dropped).
pub open spec fn uid_line(l: Seq<char>) -> bool {
    let t = strip_trailing(l, '\r');
    &&& t.len() > 0
    &&& property_line_spec(t) matches Some(p)
    &&& upper_text(p.0) == "UID"@
}

proof fn lemma_apply_line_uid(st: (Option<Seq<char>>, VTODOView), l: Seq<char>)
    ensures
        (apply_line(st, l).0 is Some) <==> (st.0 is Some || uid_line(l)),
{
    reveal(apply_line);
}

proof fn lemma_scan_block_uid(s: Seq<char>, cur: Seq<char>, st: (Option<Seq<char>>, VTODOView))
    ensures
        (scan_block(s, cur, st).0 is Some) <==> (st.0 is Some || exists|i: int|
            0 <= i < block_lines(s, cur).len() && uid_line(#[trigger] block_lines(s, cur)[i])),
    decreases s.len(),
{
    let ls = block_lines(s, cur);
    if s.len() == 0 {
        lemma_apply_line_uid(st, cur);
        assert(ls[0] == cur);
    } else if s[0] == '\n' {
        let rest = block_lines(s.drop_first(), Seq::empty());
        lemma_apply_line_uid(st, cur);
        lemma_scan_block_uid(s.drop_first(), Seq::empty(), apply_line(st, cur));
        assert(ls == seq![cur] + rest);
        assert(ls[0] == cur);
        if exists|i: int| 0 <= i < rest.len() && uid_line(#[trigger] rest[i]) {
            let i = choose|i: int| 0 <= i < rest.len() && uid_line(#[trigger] rest[i]);
            assert(ls[i + 1] == rest[i]);
        }
        if exists|i: int| 0 <= i < ls.len() && uid_line(#[trigger] ls[i]) {
            let i = choose|i: int| 0 <= i < ls.len() && uid_line(#[trigger] ls[i]);
            if i > 0 {
                assert(rest[i - 1] == ls[i]);
            }
        }
    } else {
        lemma_scan_block_uid(s.drop_first(), cur.push(s[0]), st);
    }
}

/// Reading a VCALENDAR text fails exactly when, once the lines are unfolded, there is no
/// `BEGIN:VTODO`, no `END:VTODO` after it, or no line between the two that reads as a
/// `UID` property; the message names which.
pub proof fn lemma_read_fails_exactly(s: Seq<char>)
    ensures
        ({
            let u = unfold_spec(s);
            match find_from(u, "BEGIN:VTODO"@, 0) {
                None => vtodo_from_ical(s) == Err::<VTODOView, Seq<char>>("No VTODO component found"@),
                Some(start) => match find_from(u, "END:VTODO"@, start + "BEGIN:VTODO"@.len()) {
                    None => vtodo_from_ical(s) == Err::<VTODOView, Seq<char>>("No END:VTODO found"@),
                    Some(end) => vtodo_from_ical(s) is Err ==> vtodo_from_ical(s) == Err::<VTODOView, Seq<char>>(
                        "UID property missing"@,
                    ),
                },
            }
        }),
        vtodo_from_ical(s) is Err <==> ({
            let u = unfold_spec(s);
            match find_from(u, "BEGIN:VTODO"@, 0) {
                None => true,
                Some(start) => match find_from(u, "END:VTODO"@, start + "BEGIN:VTODO"@.len()) {
                    None => true,
                    Some(end) => !exists|i: int|
                        0 <= i < block_lines(u.subrange(start + "BEGIN:VTODO"@.len(), end), Seq::empty()).len()
                            && uid_line(
                            #[trigger] block_lines(u.subrange(start + "BEGIN:VTODO"@.len(), end), Seq::empty())[i],
                        ),
                },
            }
        }),
{
    reveal(vtodo_from_ical);
    let u = unfold_spec(s);
    if let Some(start) = find_from(u, "BEGIN:VTODO"@, 0) {
        let after = start + "BEGIN:VTODO"@.len();
        if let Some(end) = find_from(u, "END:VTODO"@, after) {
            lemma_scan_block_uid(u.subrange(after, end), Seq::empty(), (None, empty_vtodo()));
        }
    }
}

} // verus!
