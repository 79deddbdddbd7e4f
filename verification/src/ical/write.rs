//! Writing a VTODO as a complete VCALENDAR text.
use vstd::prelude::*;
use vstd::string::StringExecFns;
use crate::ical::text::{escape_all, escape_spec, escape_text, fold_line, fold_spec, join_commas};
use crate::ical::read::vtodo_from_ical;
use crate::ical::round::{lemma_round_trip, opt_four_digit, opt_reads_back, round_trip_ok, stamped, times_fit};
use crate::ical::value::{format_datetime, reads_back};
use crate::trusted::four_digit_year;
use crate::text::{decimal, push_char, u64_to_decimal};
use crate::trusted::{ical_utc_format, utc_format, utc_now};
use crate::types::{IcalPropView, RelType, RelTypeView, Timestamp, VTODO, VTODOView, str_seq};

verus! {

/// An instant in the iCalendar UTC form.
pub open spec fn ical_time(t: Timestamp) -> Seq<char> {
    utc_format(t, ical_utc_format())
}

/// A one-line sequence when the value is present.
pub open spec fn opt_line(prefix: Seq<char>, o: Option<Seq<char>>) -> Seq<Seq<char>> {
    match o {
        Some(x) => seq![prefix + x],
        None => Seq::empty(),
    }
}

/// A one-line sequence for an instant when present.
pub open spec fn opt_time_line(prefix: Seq<char>, o: Option<Timestamp>) -> Seq<Seq<char>> {
    match o {
        Some(t) => seq![prefix + ical_time(t)],
        None => Seq::empty(),
    }
}

/// The `RELTYPE` text of a relation.
pub open spec fn reltype_text(r: RelTypeView) -> Seq<char> {
    match r {
        RelTypeView::DependsOn => "DEPENDS-ON"@,
        RelTypeView::Other(s) => s,
    }
}

/// `RELATED-TO` lines, one per relation, in order.
pub open spec fn related_lines(ds: Seq<(RelTypeView, Seq<char>)>) -> Seq<Seq<char>> {
    ds.map_values(|d: (RelTypeView, Seq<char>)| "RELATED-TO;RELTYPE="@ + reltype_text(d.0) + ":"@ + d.1)
}

/// `;KEY=VALUE` for each parameter, in order.
pub open spec fn params_text(ps: Seq<(Seq<char>, Seq<char>)>) -> Seq<char>
    decreases ps.len(),
{
    if ps.len() == 0 {
        Seq::empty()
    } else {
        params_text(ps.drop_last()) + seq![';'] + ps.last().0 + seq!['='] + ps.last().1
    }
}

/// A kept property written back verbatim.
pub open spec fn prop_line(p: IcalPropView) -> Seq<char> {
    p.name + params_text(p.params) + seq![':'] + p.value
}

/// The lines of the properties kept verbatim, in order.
pub open spec fn prop_lines(ps: Seq<IcalPropView>) -> Seq<Seq<char>> {
    ps.map_values(|p: IcalPropView| prop_line(p))
}

/// The opening lines, up to the UID.
pub open spec fn head_lines(v: VTODOView, dtstamp: Timestamp) -> Seq<Seq<char>> {
    seq![
        "BEGIN:VCALENDAR"@,
        "VERSION:2.0"@,
        "PRODID:-//caldawarrior//EN"@,
        "BEGIN:VTODO"@,
        "DTSTAMP:"@ + ical_time(dtstamp),
        "UID:"@ + v.uid,
    ]
}

/// The SUMMARY, DESCRIPTION and STATUS lines, when present.
pub open spec fn text_lines(v: VTODOView) -> Seq<Seq<char>> {
    opt_line("SUMMARY:"@, match v.summary {
        Some(s) => Some(escape_spec(s)),
        None => None,
    }) + opt_line("DESCRIPTION:"@, match v.description {
        Some(s) => Some(escape_spec(s)),
        None => None,
    }) + opt_line("STATUS:"@, v.status)
}

/// The LAST-MODIFIED, DTSTART, DUE and COMPLETED lines, when present.
pub open spec fn time_lines(v: VTODOView) -> Seq<Seq<char>> {
    opt_time_line("LAST-MODIFIED:"@, v.last_modified) + opt_time_line("DTSTART:"@, v.dtstart) + opt_time_line(
        "DUE:"@,
        v.due,
    ) + opt_time_line("COMPLETED:"@, v.completed)
}

/// The CATEGORIES (when there are any), RRULE and PRIORITY lines.
pub open spec fn misc_lines(v: VTODOView) -> Seq<Seq<char>> {
    (if v.categories.len() > 0 {
        seq!["CATEGORIES:"@ + join_commas(escape_all(v.categories))]
    } else {
        Seq::empty()
    }) + opt_line("RRULE:"@, v.rrule) + opt_line("PRIORITY:"@, match v.priority {
        Some(p) => Some(decimal(p as nat)),
        None => None,
    })
}

/// The content lines of a VCALENDAR holding one VTODO, stamped with `dtstamp`.
pub open spec fn ical_lines(v: VTODOView, dtstamp: Timestamp) -> Seq<Seq<char>> {
    head_lines(v, dtstamp) + text_lines(v) + time_lines(v) + misc_lines(v) + related_lines(v.depends) + prop_lines(
        v.extra_props,
    ) + seq!["END:VTODO"@, "END:VCALENDAR"@]
}

/// Each line folded and ended with CRLF.
pub open spec fn render_lines(ls: Seq<Seq<char>>) -> Seq<char>
    decreases ls.len(),
{
    if ls.len() == 0 {
        Seq::empty()
    } else {
        render_lines(ls.drop_last()) + fold_spec(ls.last()) + seq!['\r', '\n']
    }
}

/// The VCALENDAR text of a VTODO stamped with `dtstamp`.
pub open spec fn ical_text(v: VTODOView, dtstamp: Timestamp) -> Seq<char> {
    render_lines(ical_lines(v, dtstamp))
}

fn push_line(lines: &mut Vec<String>, l: String)
    ensures
        str_seq(final(lines)@) == str_seq(old(lines)@).push(l@),
{
    let ghost prev = str_seq(lines@);
    lines.push(l);
    assert(str_seq(lines@) =~= prev.push(l@));
}

fn prefixed(prefix: &str, s: &str) -> (r: String)
    ensures
        r@ == prefix@ + s@,
{
    let mut r = String::from_str(prefix);
    r.append(s);
    r
}

proof fn lemma_join_push(ps: Seq<Seq<char>>, x: Seq<char>)
    requires
        ps.len() > 0,
    ensures
        join_commas(ps.push(x)) == join_commas(ps) + seq![','] + x,
    decreases ps.len(),
{
    if ps.len() == 1 {
        assert(ps.push(x).drop_first() =~= seq![x]);
        assert(join_commas(seq![x]) == x);
    } else {
        assert(ps.push(x).drop_first() =~= ps.drop_first().push(x));
        lemma_join_push(ps.drop_first(), x);
        assert(ps[0] + seq![','] + (join_commas(ps.drop_first()) + seq![','] + x) =~= ps[0] + seq![',']
            + join_commas(ps.drop_first()) + seq![','] + x);
    }
}

fn categories_line(cats: &Vec<String>) -> (r: String)
    requires
        cats.len() > 0,
    ensures
        r@ == "CATEGORIES:"@ + join_commas(escape_all(str_seq(cats@))),
{
    let ghost cs = str_seq(cats@);
    let mut r = String::from_str("CATEGORIES:");
    let e0 = escape_text(cats[0].as_str());
    r.append(e0.as_str());
    let mut i: usize = 1;
    assert(escape_all(cs.take(1)) =~= seq![escape_spec(cs[0])]);
    assert(join_commas(seq![escape_spec(cs[0])]) == escape_spec(cs[0]));
    while i < cats.len()
        invariant
            1 <= i <= cats.len(),
            cs == str_seq(cats@),
            r@ == "CATEGORIES:"@ + join_commas(escape_all(cs.take(i as int))),
        decreases cats.len() - i,
    {
        let e = escape_text(cats[i].as_str());
        push_char(&mut r, ',');
        r.append(e.as_str());
        proof {
            assert(escape_all(cs.take(i + 1)) =~= escape_all(cs.take(i as int)).push(escape_spec(cs[i as int])));
            lemma_join_push(escape_all(cs.take(i as int)), escape_spec(cs[i as int]));
        }
        assert(r@ =~= "CATEGORIES:"@ + join_commas(escape_all(cs.take(i + 1))));
        i += 1;
    }
    assert(cs.take(cats.len() as int) =~= cs);
    r
}

fn extra_prop_line(p: &crate::types::IcalProp) -> (r: String)
    ensures
        r@ == prop_line(p@),
{
    let mut line = String::from_str(p.name.as_str());
    let ghost ps = crate::types::params_view(p.params@);
    let mut i: usize = 0;
    assert(ps.take(0) =~= Seq::<(Seq<char>, Seq<char>)>::empty());
    assert(p.name@ + params_text(Seq::empty()) =~= p.name@);
    while i < p.params.len()
        invariant
            i <= p.params.len(),
            ps == crate::types::params_view(p.params@),
            line@ == p.name@ + params_text(ps.take(i as int)),
        decreases p.params.len() - i,
    {
        push_char(&mut line, ';');
        line.append(p.params[i].0.as_str());
        push_char(&mut line, '=');
        line.append(p.params[i].1.as_str());
        assert(ps.take(i + 1).drop_last() =~= ps.take(i as int));
        assert(line@ =~= p.name@ + params_text(ps.take(i + 1)));
        i += 1;
    }
    assert(ps.take(p.params.len() as int) =~= ps);
    push_char(&mut line, ':');
    line.append(p.value.as_str());
    line
}

fn render(lines: &Vec<String>) -> (r: String)
    ensures
        r@ == render_lines(str_seq(lines@)),
{
    let ghost ls = str_seq(lines@);
    let mut out = String::new();
    let mut i: usize = 0;
    assert(ls.take(0) =~= Seq::<Seq<char>>::empty());
    while i < lines.len()
        invariant
            i <= lines.len(),
            ls == str_seq(lines@),
            out@ == render_lines(ls.take(i as int)),
        decreases lines.len() - i,
    {
        let f = fold_line(lines[i].as_str());
        out.append(f.as_str());
        push_char(&mut out, '\r');
        push_char(&mut out, '\n');
        assert(ls.take(i + 1).drop_last() =~= ls.take(i as int));
        assert(out@ =~= render_lines(ls.take(i + 1)));
        i += 1;
    }
    assert(ls.take(lines.len() as int) =~= ls);
    out
}

fn push_opt_line(lines: &mut Vec<String>, prefix: &str, o: Option<&str>)
    ensures
        str_seq(final(lines)@) == str_seq(old(lines)@) + opt_line(prefix@, match o {
            Some(x) => Some(x@),
            None => None,
        }),
{
    let ghost prev = str_seq(lines@);
    match o {
        Some(x) => push_line(lines, prefixed(prefix, x)),
        None => {},
    }
    assert(str_seq(lines@) =~= prev + opt_line(prefix@, match o {
        Some(x) => Some(x@),
        None => None,
    }));
}

fn push_time_line(lines: &mut Vec<String>, prefix: &str, o: Option<Timestamp>)
    ensures
        str_seq(final(lines)@) == str_seq(old(lines)@) + opt_time_line(prefix@, o),
        opt_four_digit(o) ==> opt_reads_back(o),
{
    let ghost prev = str_seq(lines@);
    match o {
        Some(t) => {
            let f = format_datetime(t);
            push_line(lines, prefixed(prefix, f.as_str()));
        },
        None => {},
    }
    assert(str_seq(lines@) =~= prev + opt_time_line(prefix@, o));
}

fn push_head(lines: &mut Vec<String>, vtodo: &VTODO, dtstamp: Timestamp)
    ensures
        str_seq(final(lines)@) == str_seq(old(lines)@) + head_lines(vtodo@, dtstamp),
        four_digit_year(dtstamp) ==> reads_back(dtstamp),
{
    let ghost prev = str_seq(lines@);
    push_line(lines, String::from_str("BEGIN:VCALENDAR"));
    push_line(lines, String::from_str("VERSION:2.0"));
    push_line(lines, String::from_str("PRODID:-//caldawarrior//EN"));
    push_line(lines, String::from_str("BEGIN:VTODO"));
    let st = format_datetime(dtstamp);
    push_line(lines, prefixed("DTSTAMP:", st.as_str()));
    push_line(lines, prefixed("UID:", vtodo.uid.as_str()));
    assert(str_seq(lines@) =~= prev + head_lines(vtodo@, dtstamp));
}

fn push_text_lines(lines: &mut Vec<String>, vtodo: &VTODO)
    ensures
        str_seq(final(lines)@) == str_seq(old(lines)@) + text_lines(vtodo@),
{
    let ghost prev = str_seq(lines@);
    let summary = match &vtodo.summary {
        Some(s) => Some(escape_text(s.as_str())),
        None => None,
    };
    let description = match &vtodo.description {
        Some(s) => Some(escape_text(s.as_str())),
        None => None,
    };
    push_opt_line(lines, "SUMMARY:", match &summary {
        Some(s) => Some(s.as_str()),
        None => None,
    });
    push_opt_line(lines, "DESCRIPTION:", match &description {
        Some(s) => Some(s.as_str()),
        None => None,
    });
    push_opt_line(lines, "STATUS:", match &vtodo.status {
        Some(s) => Some(s.as_str()),
        None => None,
    });
    assert(str_seq(lines@) =~= prev + text_lines(vtodo@));
}

fn push_time_lines(lines: &mut Vec<String>, vtodo: &VTODO)
    ensures
        str_seq(final(lines)@) == str_seq(old(lines)@) + time_lines(vtodo@),
        opt_four_digit(vtodo@.last_modified) ==> opt_reads_back(vtodo@.last_modified),
        opt_four_digit(vtodo@.dtstart) ==> opt_reads_back(vtodo@.dtstart),
        opt_four_digit(vtodo@.due) ==> opt_reads_back(vtodo@.due),
        opt_four_digit(vtodo@.completed) ==> opt_reads_back(vtodo@.completed),
{
    let ghost prev = str_seq(lines@);
    push_time_line(lines, "LAST-MODIFIED:", vtodo.last_modified);
    push_time_line(lines, "DTSTART:", vtodo.dtstart);
    push_time_line(lines, "DUE:", vtodo.due);
    push_time_line(lines, "COMPLETED:", vtodo.completed);
    assert(str_seq(lines@) =~= prev + time_lines(vtodo@));
}

fn push_misc_lines(lines: &mut Vec<String>, vtodo: &VTODO)
    ensures
        str_seq(final(lines)@) == str_seq(old(lines)@) + misc_lines(vtodo@),
{
    let ghost prev = str_seq(lines@);
    if vtodo.categories.len() > 0 {
        push_line(lines, categories_line(&vtodo.categories));
    }
    push_opt_line(lines, "RRULE:", match &vtodo.rrule {
        Some(s) => Some(s.as_str()),
        None => None,
    });
    let prio = match vtodo.priority {
        Some(p) => Some(u64_to_decimal(p as u64)),
        None => None,
    };
    push_opt_line(lines, "PRIORITY:", match &prio {
        Some(s) => Some(s.as_str()),
        None => None,
    });
    assert(str_seq(lines@) =~= prev + misc_lines(vtodo@));
}

fn push_related_lines(lines: &mut Vec<String>, vtodo: &VTODO)
    ensures
        str_seq(final(lines)@) == str_seq(old(lines)@) + related_lines(vtodo@.depends),
{
    let ghost v = vtodo@;
    let ghost base = str_seq(lines@);
    let mut i: usize = 0;
    assert(related_lines(v.depends).take(0) =~= Seq::<Seq<char>>::empty());
    assert(base + Seq::<Seq<char>>::empty() =~= base);
    while i < vtodo.depends.len()
        invariant
            i <= vtodo.depends.len(),
            v == vtodo@,
            str_seq(lines@) == base + related_lines(v.depends).take(i as int),
        decreases vtodo.depends.len() - i,
    {
        let rel = match &vtodo.depends[i].0 {
            RelType::DependsOn => String::from_str("DEPENDS-ON"),
            RelType::Other(s) => String::from_str(s.as_str()),
        };
        let mut l = String::from_str("RELATED-TO;RELTYPE=");
        l.append(rel.as_str());
        l.append(":");
        l.append(vtodo.depends[i].1.as_str());
        assert(related_lines(v.depends)[i as int] == l@);
        push_line(lines, l);
        assert(related_lines(v.depends).take(i + 1) =~= related_lines(v.depends).take(i as int).push(l@));
        assert(str_seq(lines@) =~= base + related_lines(v.depends).take(i + 1));
        i += 1;
    }
    assert(related_lines(v.depends).take(vtodo.depends.len() as int) =~= related_lines(v.depends));
}

fn push_prop_lines(lines: &mut Vec<String>, vtodo: &VTODO)
    ensures
        str_seq(final(lines)@) == str_seq(old(lines)@) + prop_lines(vtodo@.extra_props),
{
    let ghost v = vtodo@;
    let ghost base = str_seq(lines@);
    let mut j: usize = 0;
    assert(prop_lines(v.extra_props).take(0) =~= Seq::<Seq<char>>::empty());
    assert(base + Seq::<Seq<char>>::empty() =~= base);
    while j < vtodo.extra_props.len()
        invariant
            j <= vtodo.extra_props.len(),
            v == vtodo@,
            str_seq(lines@) == base + prop_lines(v.extra_props).take(j as int),
        decreases vtodo.extra_props.len() - j,
    {
        let l = extra_prop_line(&vtodo.extra_props[j]);
        assert(prop_lines(v.extra_props)[j as int] == l@);
        push_line(lines, l);
        assert(prop_lines(v.extra_props).take(j + 1) =~= prop_lines(v.extra_props).take(j as int).push(l@));
        assert(str_seq(lines@) =~= base + prop_lines(v.extra_props).take(j + 1));
        j += 1;
    }
    assert(prop_lines(v.extra_props).take(vtodo.extra_props.len() as int) =~= prop_lines(v.extra_props));
}

/// The VCALENDAR text of a VTODO, with `DTSTAMP` set to the given instant. Reading the text
/// back gives the VTODO, stamped, whenever its fields fit and its instants lie in the
/// years 1 to 9999.
pub fn to_icalendar_string_at(vtodo: &VTODO, dtstamp: Timestamp) -> (s: String)
    ensures
        s@ == ical_text(vtodo@, dtstamp),
        round_trip_ok(vtodo@) && times_fit(vtodo@, dtstamp) ==> vtodo_from_ical(s@) == Ok::<VTODOView, Seq<char>>(
            stamped(vtodo@, dtstamp),
        ),
{
    let mut lines: Vec<String> = Vec::new();
    assert(str_seq(lines@) =~= Seq::<Seq<char>>::empty());
    push_head(&mut lines, vtodo, dtstamp);
    push_text_lines(&mut lines, vtodo);
    push_time_lines(&mut lines, vtodo);
    push_misc_lines(&mut lines, vtodo);
    push_related_lines(&mut lines, vtodo);
    push_prop_lines(&mut lines, vtodo);
    push_line(&mut lines, String::from_str("END:VTODO"));
    push_line(&mut lines, String::from_str("END:VCALENDAR"));
    assert(str_seq(lines@) =~= ical_lines(vtodo@, dtstamp));
    proof {
        if round_trip_ok(vtodo@) && times_fit(vtodo@, dtstamp) {
            lemma_round_trip(vtodo@, dtstamp);
        }
    }
    render(&lines)
}

/// `to_icalendar_string`: the VCALENDAR text of a VTODO, stamped with the current time.
pub fn to_icalendar_string(vtodo: &VTODO) -> (s: String)
    ensures
        exists|now: Timestamp|
            #![trigger ical_text(vtodo@, now)]
            s@ == ical_text(vtodo@, now) && (round_trip_ok(vtodo@) && times_fit(vtodo@, now) ==> vtodo_from_ical(s@)
                == Ok::<VTODOView, Seq<char>>(stamped(vtodo@, now))),
{
    let now = utc_now();
    to_icalendar_string_at(vtodo, now)
}

} // verus!
