//! What the reader gives back of what the writer wrote.
use vstd::prelude::*;
use crate::ical::line::{
    colon_scan, lemma_char_pos, param_of, params_of, property_line_spec, split_params_from, split_params_spec,
    strip_leading, trim_char,
};
use crate::ical::read::{
    apply_line, apply_prop, category_values, empty_vtodo, finish_spec, priority_of, reltype_of, scan_block,
    vtodo_from_ical,
};
use crate::ical::text::{
    escape_all, escape_char, escape_spec, fold_body, fold_spec, is_fold_space, join_commas, lemma_split_join_escaped,
    lemma_unescape_escape, lemma_unfold_fold, split_commas_spec, unescape_spec, unfold_spec, without_cr,
};
use crate::ical::value::{all_digits, date_only_spec, datetime_spec, digits_value, find_param, reads_back, u8_from_str};
use crate::ical::write::{
    ical_lines, ical_text, ical_time, misc_lines, opt_line, opt_time_line, params_text, prop_line, prop_lines,
    related_lines, reltype_text, render_lines, text_lines, time_lines,
};
use crate::mapper::fields::strip_trailing;
use crate::text::{ascii_upper, decimal, find_from, has_char, has_substring, is_ws, lemma_trim_id, occurs_at, trim};
use crate::trusted::{ical_utc_format, upper_text, utc_format, utc_text_shape};
use crate::types::{IcalPropView, RelTypeView, Timestamp, VTODOView};

verus! {

/// The lines, each followed by a line feed.
pub open spec fn joined(ls: Seq<Seq<char>>) -> Seq<char>
    decreases ls.len(),
{
    if ls.len() == 0 {
        Seq::empty()
    } else {
        joined(ls.drop_last()) + ls.last() + seq!['\n']
    }
}

/// A content line that folding and unfolding carry over: not empty, without line breaks,
/// and not starting with a space or tab.
pub open spec fn plain_line(l: Seq<char>) -> bool {
    &&& l.len() > 0
    &&& !is_fold_space(l[0])
    &&& forall|i: int| 0 <= i < l.len() ==> #[trigger] l[i] != '\r' && l[i] != '\n'
}

/// The reading state after each line in turn.
pub open spec fn scan_lines(st: (Option<Seq<char>>, VTODOView), ls: Seq<Seq<char>>) -> (
    Option<Seq<char>>,
    VTODOView,
)
    decreases ls.len(),
{
    if ls.len() == 0 {
        st
    } else {
        apply_line(scan_lines(st, ls.drop_last()), ls.last())
    }
}

proof fn lemma_unfold_concat(p: Seq<char>, b: Seq<char>)
    requires
        p.len() > 0 ==> p.last() != '\r' && p.last() != '\n',
    ensures
        unfold_spec(p + b) == unfold_spec(p) + unfold_spec(b),
    decreases p.len(),
{
    let s = p + b;
    if p.len() == 0 {
        assert(s =~= b);
        assert(Seq::<char>::empty() + unfold_spec(b) =~= unfold_spec(b));
    } else {
        let pt = p.drop_first();
        assert(s[0] == p[0]);
        assert(s.drop_first() =~= pt + b);
        if p[0] == '\r' {
            assert(pt.len() > 0);
            if pt[0] == '\n' {
                let pt2 = pt.drop_first();
                assert(pt2.len() > 0);
                assert((pt + b).drop_first() =~= pt2 + b);
                assert((pt + b)[0] == '\n');
                assert((pt2 + b)[0] == pt2[0]);
                if is_fold_space(pt2[0]) {
                    assert((pt2 + b).drop_first() =~= pt2.drop_first() + b);
                    lemma_unfold_concat(pt2.drop_first(), b);
                } else {
                    lemma_unfold_concat(pt2, b);
                    assert(seq!['\n'] + (unfold_spec(pt2) + unfold_spec(b)) =~= seq!['\n'] + unfold_spec(pt2)
                        + unfold_spec(b));
                }
            } else {
                assert((pt + b)[0] == pt[0]);
                if is_fold_space(pt[0]) {
                    assert((pt + b).drop_first() =~= pt.drop_first() + b);
                    lemma_unfold_concat(pt.drop_first(), b);
                } else {
                    lemma_unfold_concat(pt, b);
                    assert(seq!['\n'] + (unfold_spec(pt) + unfold_spec(b)) =~= seq!['\n'] + unfold_spec(pt)
                        + unfold_spec(b));
                }
            }
        } else if p[0] == '\n' {
            assert(pt.len() > 0);
            assert((pt + b)[0] == pt[0]);
            if is_fold_space(pt[0]) {
                assert((pt + b).drop_first() =~= pt.drop_first() + b);
                lemma_unfold_concat(pt.drop_first(), b);
            } else {
                lemma_unfold_concat(pt, b);
                assert(seq!['\n'] + (unfold_spec(pt) + unfold_spec(b)) =~= seq!['\n'] + unfold_spec(pt) + unfold_spec(
                    b,
                ));
            }
        } else {
            lemma_unfold_concat(pt, b);
            assert(seq![p[0]] + (unfold_spec(pt) + unfold_spec(b)) =~= seq![p[0]] + unfold_spec(pt) + unfold_spec(
                b,
            ));
        }
    }
}

proof fn lemma_fold_body_ends(s: Seq<char>, max: nat)
    requires
        s.len() > 0,
    ensures
        fold_body(s, max).len() > 0,
        fold_body(s, max)[0] == s[0],
        fold_body(s, max).last() == s.last(),
    decreases s.len(),
{
    let k = crate::ical::text::fit_count(s, max);
    if k >= s.len() || k == 0 {
    } else {
        let rest = s.skip(k as int);
        lemma_fold_body_ends(rest, 74);
        let f = s.take(k as int) + seq!['\r', '\n', ' '] + fold_body(rest, 74);
        assert(f[0] == s[0]);
        assert(f.last() == fold_body(rest, 74).last());
        assert(rest.last() == s.last());
    }
}

proof fn lemma_unfold_line_break(b: Seq<char>)
    requires
        b.len() > 0 ==> !is_fold_space(b[0]),
    ensures
        unfold_spec(seq!['\r', '\n'] + b) == seq!['\n'] + unfold_spec(b),
{
    let s = seq!['\r', '\n'] + b;
    assert(s[0] == '\r');
    assert(s.drop_first() =~= seq!['\n'] + b);
    assert(s.drop_first()[0] == '\n');
    assert(s.drop_first().drop_first() =~= b);
    if b.len() > 0 {
        assert(s.drop_first().drop_first()[0] == b[0]);
    }
}

proof fn lemma_unfold_render_rest(ls: Seq<Seq<char>>, b: Seq<char>)
    requires
        forall|i: int| 0 <= i < ls.len() ==> plain_line(#[trigger] ls[i]),
        b.len() > 0 ==> !is_fold_space(b[0]),
    ensures
        unfold_spec(render_lines(ls) + b) == joined(ls) + unfold_spec(b),
    decreases ls.len(),
{
    if ls.len() == 0 {
        assert(render_lines(ls) + b =~= b);
        assert(joined(ls) + unfold_spec(b) =~= unfold_spec(b));
    } else {
        let init = ls.drop_last();
        let last = ls.last();
        assert(plain_line(ls[ls.len() - 1]));
        assert(forall|i: int| 0 <= i < init.len() ==> init[i] == ls[i]);
        lemma_fold_body_ends(last, 75);
        let f = fold_spec(last);
        let b2 = f + (seq!['\r', '\n'] + b);
        assert(b2[0] == f[0]);
        lemma_unfold_render_rest(init, b2);
        assert(render_lines(ls) + b =~= render_lines(init) + b2);
        assert(last[last.len() - 1] != '\r' && last[last.len() - 1] != '\n');
        lemma_unfold_concat(f, seq!['\r', '\n'] + b);
        lemma_unfold_fold(last);
        lemma_unfold_line_break(b);
        assert(joined(init) + (last + (seq!['\n'] + unfold_spec(b))) =~= joined(ls) + unfold_spec(b));
    }
}

/// Unfolding the text of plain lines gives the lines, each followed by a line feed.
pub proof fn lemma_unfold_render(ls: Seq<Seq<char>>)
    requires
        forall|i: int| 0 <= i < ls.len() ==> plain_line(#[trigger] ls[i]),
    ensures
        unfold_spec(render_lines(ls)) == joined(ls),
{
    lemma_unfold_render_rest(ls, Seq::empty());
    assert(render_lines(ls) + Seq::<char>::empty() =~= render_lines(ls));
    assert(joined(ls) + Seq::<char>::empty() =~= joined(ls));
}

pub proof fn lemma_joined_concat(a: Seq<Seq<char>>, b: Seq<Seq<char>>)
    ensures
        joined(a + b) == joined(a) + joined(b),
    decreases b.len(),
{
    if b.len() == 0 {
        assert(a + b =~= a);
        assert(joined(a) + joined(b) =~= joined(a));
    } else {
        assert((a + b).drop_last() =~= a + b.drop_last());
        assert((a + b).last() == b.last());
        lemma_joined_concat(a, b.drop_last());
        assert(joined(a) + joined(b.drop_last()) + b.last() + seq!['\n'] =~= joined(a) + joined(b));
    }
}

pub proof fn lemma_scan_lines_concat(st: (Option<Seq<char>>, VTODOView), a: Seq<Seq<char>>, b: Seq<Seq<char>>)
    ensures
        scan_lines(st, a + b) == scan_lines(scan_lines(st, a), b),
    decreases b.len(),
{
    if b.len() == 0 {
        assert(a + b =~= a);
    } else {
        assert((a + b).drop_last() =~= a + b.drop_last());
        assert((a + b).last() == b.last());
        lemma_scan_lines_concat(st, a, b.drop_last());
    }
}

proof fn lemma_scan_one(l: Seq<char>, rest: Seq<char>, cur: Seq<char>, st: (Option<Seq<char>>, VTODOView))
    requires
        forall|i: int| 0 <= i < l.len() ==> #[trigger] l[i] != '\n',
    ensures
        scan_block(l + seq!['\n'] + rest, cur, st) == scan_block(rest, Seq::empty(), apply_line(st, cur + l)),
    decreases l.len(),
{
    let s = l + seq!['\n'] + rest;
    if l.len() == 0 {
        assert(s[0] == '\n');
        assert(s.drop_first() =~= rest);
        assert(cur + l =~= cur);
    } else {
        assert(s[0] == l[0]);
        assert(s.drop_first() =~= l.drop_first() + seq!['\n'] + rest);
        lemma_scan_one(l.drop_first(), rest, cur.push(l[0]), st);
        assert(cur.push(l[0]) + l.drop_first() =~= cur + l);
    }
}

proof fn lemma_scan_joined(ls: Seq<Seq<char>>, rest: Seq<char>, st: (Option<Seq<char>>, VTODOView))
    requires
        forall|i: int| 0 <= i < ls.len() ==> plain_line(#[trigger] ls[i]),
    ensures
        scan_block(joined(ls) + rest, Seq::empty(), st) == scan_block(rest, Seq::empty(), scan_lines(st, ls)),
    decreases ls.len(),
{
    if ls.len() == 0 {
        assert(joined(ls) + rest =~= rest);
    } else {
        let init = ls.drop_last();
        let last = ls.last();
        assert(plain_line(ls[ls.len() - 1]));
        assert(forall|i: int| 0 <= i < init.len() ==> init[i] == ls[i]);
        let r2 = last + seq!['\n'] + rest;
        lemma_scan_joined(init, r2, st);
        assert(joined(ls) + rest =~= joined(init) + r2);
        lemma_scan_one(last, rest, Seq::empty(), scan_lines(st, init));
        assert(Seq::<char>::empty() + last =~= last);
    }
}

/// Reading a block made of a line feed and then plain lines, each ended by a line feed,
/// reads each line in turn.
pub proof fn lemma_scan_block_lines(ls: Seq<Seq<char>>, st: (Option<Seq<char>>, VTODOView))
    requires
        forall|i: int| 0 <= i < ls.len() ==> plain_line(#[trigger] ls[i]),
    ensures
        scan_block(seq!['\n'] + joined(ls), Seq::empty(), st) == scan_lines(st, ls),
{
    let s = seq!['\n'] + joined(ls);
    assert(s[0] == '\n');
    assert(s.drop_first() =~= joined(ls));
    reveal(apply_line);
    assert(strip_trailing(Seq::<char>::empty(), '\r') == Seq::<char>::empty());
    assert(apply_line(st, Seq::empty()) == st);
    lemma_scan_joined(ls, Seq::empty(), st);
    assert(joined(ls) + Seq::<char>::empty() =~= joined(ls));
    let fin = scan_lines(st, ls);
    assert(scan_block(Seq::empty(), Seq::empty(), fin) == apply_line(fin, Seq::empty()));
}

/// The lines between `BEGIN:VTODO` and `END:VTODO`.
pub open spec fn body_lines(v: VTODOView, dtstamp: Timestamp) -> Seq<Seq<char>> {
    seq!["DTSTAMP:"@ + ical_time(dtstamp), "UID:"@ + v.uid] + text_lines(v) + time_lines(v) + misc_lines(v)
        + related_lines(v.depends) + prop_lines(v.extra_props)
}

/// The lines before `BEGIN:VTODO`.
pub open spec fn preamble() -> Seq<Seq<char>> {
    seq!["BEGIN:VCALENDAR"@, "VERSION:2.0"@, "PRODID:-//caldawarrior//EN"@]
}

/// The end-of-component marker the reader looks for.
pub open spec fn end_marker() -> Seq<char> {
    "END:VTODO"@
}

proof fn lemma_ical_lines_parts(v: VTODOView, dtstamp: Timestamp)
    ensures
        ical_lines(v, dtstamp) == preamble() + seq!["BEGIN:VTODO"@] + body_lines(v, dtstamp) + seq![
            "END:VTODO"@,
            "END:VCALENDAR"@,
        ],
{
    assert(ical_lines(v, dtstamp) =~= preamble() + seq!["BEGIN:VTODO"@] + body_lines(v, dtstamp) + seq![
        "END:VTODO"@,
        "END:VCALENDAR"@,
    ]);
}

proof fn lemma_find_first(s: Seq<char>, pat: Seq<char>, from: int, k: int)
    requires
        from <= k,
        occurs_at(s, pat, k),
        forall|j: int| from <= j < k ==> !occurs_at(s, pat, j),
    ensures
        find_from(s, pat, from) == Some(k),
{
    assert(exists|k: int| from <= k && #[trigger] occurs_at(s, pat, k));
    let c = choose|c: int| from <= c && occurs_at(s, pat, c) && forall|j: int| from <= j < c ==> !occurs_at(s, pat, j);
    assert(from <= k && occurs_at(s, pat, k) && forall|j: int| from <= j < k ==> !occurs_at(s, pat, j));
    if c < k {
        assert(!occurs_at(s, pat, c));
    } else if c > k {
        assert(!occurs_at(s, pat, k));
    }
}

proof fn lemma_occurs_shift(x: Seq<char>, y: Seq<char>, pat: Seq<char>, j: int)
    requires
        j >= x.len(),
    ensures
        occurs_at(x + y, pat, j) == occurs_at(y, pat, j - x.len()),
{
    if occurs_at(x + y, pat, j) {
        assert((x + y).subrange(j, j + pat.len()) =~= y.subrange(j - x.len(), j - x.len() + pat.len()));
    }
    if occurs_at(y, pat, j - x.len()) {
        assert((x + y).subrange(j, j + pat.len()) =~= y.subrange(j - x.len(), j - x.len() + pat.len()));
    }
}

proof fn lemma_occurs_within(x: Seq<char>, y: Seq<char>, pat: Seq<char>, j: int)
    requires
        0 <= j,
        j + pat.len() <= x.len(),
        occurs_at(x + y, pat, j),
    ensures
        occurs_at(x, pat, j),
{
    assert((x + y).subrange(j, j + pat.len()) =~= x.subrange(j, j + pat.len()));
}

/// A pattern without line feeds does not occur in joined lines where no line holds it.
proof fn lemma_not_in_joined(ls: Seq<Seq<char>>, rest: Seq<char>, pat: Seq<char>, j: int)
    requires
        pat.len() > 0,
        forall|i: int| 0 <= i < pat.len() ==> #[trigger] pat[i] != '\n',
        forall|i: int| 0 <= i < ls.len() ==> !has_substring(#[trigger] ls[i], pat),
        0 <= j < joined(ls).len(),
    ensures
        !occurs_at(joined(ls) + rest, pat, j),
    decreases ls.len(),
{
    let init = ls.drop_last();
    let last = ls.last();
    let a = joined(init);
    assert(forall|i: int| 0 <= i < init.len() ==> init[i] == ls[i]);
    assert(!has_substring(ls[ls.len() - 1], pat));
    let r2 = last + seq!['\n'] + rest;
    assert(joined(ls) + rest =~= a + r2);
    if j < a.len() {
        lemma_not_in_joined(init, r2, pat, j);
    } else {
        let k = j - a.len();
        if occurs_at(joined(ls) + rest, pat, j) {
            lemma_occurs_shift(a, r2, pat, j);
            assert(occurs_at(r2, pat, k));
            if k + pat.len() <= last.len() {
                assert(r2 =~= last + (seq!['\n'] + rest));
                lemma_occurs_within(last, seq!['\n'] + rest, pat, k);
                assert(occurs_at(last, pat, k));
            } else {
                let m = last.len() - k;
                assert(0 <= m < pat.len());
                assert(r2.subrange(k, k + pat.len())[m] == r2[last.len() as int]);
                assert(r2[last.len() as int] == '\n');
                assert(pat[m] == '\n');
            }
        }
    }
}

proof fn lemma_preamble_chars()
    ensures
        joined(preamble()).len() == 55,
        forall|j: int| 1 <= j < 55 ==> joined(preamble())[j] != 'B',
        joined(preamble())[7] == 'C',
{
    reveal_strlit("BEGIN:VCALENDAR");
    reveal_strlit("VERSION:2.0");
    reveal_strlit("PRODID:-//caldawarrior//EN");
    reveal_with_fuel(joined, 4);
    let p = preamble();
    assert(p.drop_last().drop_last().drop_last() =~= Seq::<Seq<char>>::empty());
    let a = joined(p);
    let lit = "BEGIN:VCALENDAR"@ + seq!['\n'] + "VERSION:2.0"@ + seq!['\n'] + "PRODID:-//caldawarrior//EN"@ + seq!['\n'];
    assert(a =~= lit);
    assert forall|j: int| 1 <= j < 55 implies a[j] != 'B' by {
        assert(a[j] == lit[j]);
    }
}

/// The unfolded text of a VCALENDAR with the given body lines.
#[verifier::opaque]
pub open spec fn unfolded_calendar(body: Seq<Seq<char>>) -> Seq<char> {
    joined(preamble()) + "BEGIN:VTODO"@ + seq!['\n'] + joined(body) + "END:VTODO"@ + seq!['\n'] + "END:VCALENDAR"@ + seq![
        '\n',
    ]
}

proof fn lemma_joined_calendar(body: Seq<Seq<char>>)
    ensures
        joined(preamble() + seq!["BEGIN:VTODO"@] + body + seq!["END:VTODO"@, "END:VCALENDAR"@]) == unfolded_calendar(
            body,
        ),
{
    let b = "BEGIN:VTODO"@;
    let e = "END:VTODO"@;
    let c = "END:VCALENDAR"@;
    lemma_joined_concat(preamble(), seq![b]);
    lemma_joined_concat(preamble() + seq![b], body);
    lemma_joined_concat(preamble() + seq![b] + body, seq![e, c]);
    assert(joined(Seq::<Seq<char>>::empty()) =~= Seq::<char>::empty());
    assert(seq![b].drop_last() =~= Seq::<Seq<char>>::empty());
    assert(joined(seq![b]) =~= b + seq!['\n']);
    assert(seq![e, c].drop_last() =~= seq![e]);
    assert(seq![e].drop_last() =~= Seq::<Seq<char>>::empty());
    assert(joined(seq![e]) =~= e + seq!['\n']);
    assert(joined(seq![e, c]) =~= e + seq!['\n'] + c + seq!['\n']);
    reveal(unfolded_calendar);
    assert(joined(preamble() + seq![b] + body + seq![e, c]) =~= unfolded_calendar(body));
}

proof fn lemma_find_begin(body: Seq<Seq<char>>)
    ensures
        find_from(unfolded_calendar(body), "BEGIN:VTODO"@, 0) == Some(55int),
{
    reveal_strlit("BEGIN:VTODO");
    reveal(unfolded_calendar);
    let u = unfolded_calendar(body);
    let a = joined(preamble());
    let b = "BEGIN:VTODO"@;
    lemma_preamble_chars();
    assert(u.subrange(55, 66) =~= b);
    assert forall|k: int| 0 <= k < 55 implies !occurs_at(u, b, k) by {
        if occurs_at(u, b, k) {
            assert(u.subrange(k, k + 11)[0] == u[k]);
            if k == 0 {
                assert(u.subrange(0, 11)[7] == u[7]);
                assert(u[7] == a[7]);
            } else {
                assert(u[k] == a[k]);
            }
        }
    }
    lemma_find_first(u, b, 0, 55);
}

#[verifier::spinoff_prover]
#[verifier::rlimit(40)]
proof fn lemma_find_end(body: Seq<Seq<char>>)
    requires
        forall|i: int| 0 <= i < body.len() ==> !has_substring(#[trigger] body[i], end_marker()),
    ensures
        find_from(unfolded_calendar(body), "END:VTODO"@, 66) == Some(67 + joined(body).len() as int),
        unfolded_calendar(body).subrange(66, 67 + joined(body).len() as int) == seq!['\n'] + joined(body),
{
    reveal_strlit("BEGIN:VTODO");
    reveal_strlit("END:VTODO");
    reveal(unfolded_calendar);
    let u = unfolded_calendar(body);
    let e = "END:VTODO"@;
    let j = joined(body);
    lemma_preamble_chars();
    let x = joined(preamble()) + "BEGIN:VTODO"@ + seq!['\n'];
    let tail = e + seq!['\n'] + "END:VCALENDAR"@ + seq!['\n'];
    assert(u =~= x + (j + tail));
    let end: int = 67 + j.len() as int;
    assert(u.subrange(end, end + 9) =~= e);
    assert forall|k: int| 66 <= k < end implies !occurs_at(u, e, k) by {
        if k == 66 {
            if occurs_at(u, e, k) {
                assert(u.subrange(66, 75)[0] == u[66]);
            }
        } else {
            lemma_occurs_shift(x, j + tail, e, k);
            assert forall|i: int| 0 <= i < e.len() implies #[trigger] e[i] != '\n' by {}
            lemma_not_in_joined(body, tail, e, k - 67);
        }
    }
    lemma_find_first(u, e, 66, end);
    assert(u.subrange(66, end) =~= seq!['\n'] + j);
}

proof fn lemma_unfold_calendar(ls: Seq<Seq<char>>, body: Seq<Seq<char>>)
    requires
        ls == preamble() + seq!["BEGIN:VTODO"@] + body + seq!["END:VTODO"@, "END:VCALENDAR"@],
        forall|i: int| 0 <= i < ls.len() ==> plain_line(#[trigger] ls[i]),
    ensures
        unfold_spec(render_lines(ls)) == unfolded_calendar(body),
        forall|i: int| 0 <= i < body.len() ==> plain_line(#[trigger] body[i]),
{
    lemma_unfold_render(ls);
    lemma_joined_calendar(body);
    assert forall|i: int| 0 <= i < body.len() implies plain_line(#[trigger] body[i]) by {
        assert(body[i] == ls[i + 4]);
    }
}

proof fn lemma_read_calendar(s: Seq<char>, body: Seq<Seq<char>>)
    requires
        unfold_spec(s) == unfolded_calendar(body),
        forall|i: int| 0 <= i < body.len() ==> plain_line(#[trigger] body[i]),
        forall|i: int| 0 <= i < body.len() ==> !has_substring(#[trigger] body[i], end_marker()),
    ensures
        vtodo_from_ical(s) == finish_spec(scan_lines((None, empty_vtodo()), body)),
{
    reveal_strlit("BEGIN:VTODO");
    lemma_find_begin(body);
    lemma_find_end(body);
    lemma_scan_block_lines(body, (None, empty_vtodo()));
    let u = unfold_spec(s);
    let end: int = 67 + joined(body).len() as int;
    assert(find_from(u, "BEGIN:VTODO"@, 0) == Some(55int));
    assert(find_from(u, "END:VTODO"@, 66) == Some(end));
    assert(u.subrange(66, end) == seq!['\n'] + joined(body));
    reveal(vtodo_from_ical);
}

/// Reading the text written for a VTODO reads the lines between `BEGIN:VTODO` and
/// `END:VTODO` in turn, when every line is plain and none of those lines holds the
/// `END:VTODO` marker.
pub proof fn lemma_read_body(v: VTODOView, dtstamp: Timestamp)
    requires
        forall|i: int| 0 <= i < ical_lines(v, dtstamp).len() ==> plain_line(#[trigger] ical_lines(v, dtstamp)[i]),
        forall|i: int|
            0 <= i < body_lines(v, dtstamp).len() ==> !has_substring(#[trigger] body_lines(v, dtstamp)[i], end_marker()),
    ensures
        vtodo_from_ical(ical_text(v, dtstamp)) == finish_spec(scan_lines((None, empty_vtodo()), body_lines(v, dtstamp))),
{
    lemma_ical_lines_parts(v, dtstamp);
    lemma_unfold_calendar(ical_lines(v, dtstamp), body_lines(v, dtstamp));
    lemma_read_calendar(ical_text(v, dtstamp), body_lines(v, dtstamp));
}

// ---------------------------------------------------------------------------
// Reading one written line
// ---------------------------------------------------------------------------

/// No character with a meaning in a property's name-and-parameters part.
pub open spec fn no_delims(s: Seq<char>) -> bool {
    forall|i: int| 0 <= i < s.len() ==> #[trigger] s[i] != ':' && s[i] != ';' && s[i] != '"'
}

/// Neither starts nor ends with whitespace.
pub open spec fn no_edge_ws(s: Seq<char>) -> bool {
    s.len() > 0 ==> !is_ws(s[0]) && !is_ws(s.last())
}

/// ASCII text already in upper case.
pub open spec fn upper_ascii(s: Seq<char>) -> bool {
    vstd::utf8::is_ascii_chars(s) && ascii_upper(s) == s
}

/// No `:` and no `"`: the characters that decide where a property's value starts.
pub open spec fn no_colon_quote(s: Seq<char>) -> bool {
    forall|i: int| 0 <= i < s.len() ==> #[trigger] s[i] != ':' && s[i] != '"'
}

proof fn lemma_colon_after(p: Seq<char>, rest: Seq<char>)
    requires
        no_colon_quote(p),
    ensures
        colon_scan(p + seq![':'] + rest, false) == Some(p.len() as int),
    decreases p.len(),
{
    let s = p + seq![':'] + rest;
    if p.len() == 0 {
        assert(s[0] == ':');
    } else {
        assert(s[0] == p[0]);
        assert(s.drop_first() =~= p.drop_first() + seq![':'] + rest);
        assert(no_colon_quote(p.drop_first())) by {
            assert forall|i: int| 0 <= i < p.drop_first().len() implies #[trigger] p.drop_first()[i] != ':'
                && p.drop_first()[i] != '"' by {
                assert(p.drop_first()[i] == p[i + 1]);
            }
        }
        lemma_colon_after(p.drop_first(), rest);
    }
}

/// The segment list once the last segment is closed.
pub open spec fn close_segment(acc: Seq<Seq<char>>, cur: Seq<char>) -> Seq<Seq<char>> {
    if trim(cur).len() > 0 || acc.len() > 0 {
        acc.push(trim(cur))
    } else {
        acc
    }
}

proof fn lemma_split_plain(x: Seq<char>, cur: Seq<char>, acc: Seq<Seq<char>>)
    requires
        no_delims(x),
    ensures
        split_params_from(x, cur, false, acc) == close_segment(acc, cur + x),
    decreases x.len(),
{
    if x.len() == 0 {
        assert(cur + x =~= cur);
    } else {
        assert(no_delims(x.drop_first())) by {
            assert forall|i: int| 0 <= i < x.drop_first().len() implies #[trigger] x.drop_first()[i] != ':'
                && x.drop_first()[i] != ';' && x.drop_first()[i] != '"' by {
                assert(x.drop_first()[i] == x[i + 1]);
            }
        }
        lemma_split_plain(x.drop_first(), cur.push(x[0]), acc);
        assert(cur.push(x[0]) + x.drop_first() =~= cur + x);
    }
}

proof fn lemma_split_semi(x: Seq<char>, y: Seq<char>, cur: Seq<char>, acc: Seq<Seq<char>>)
    requires
        no_delims(x),
    ensures
        split_params_from(x + seq![';'] + y, cur, false, acc) == split_params_from(
            y,
            Seq::empty(),
            false,
            acc.push(trim(cur + x)),
        ),
    decreases x.len(),
{
    let s = x + seq![';'] + y;
    if x.len() == 0 {
        assert(s[0] == ';');
        assert(s.drop_first() =~= y);
        assert(cur + x =~= cur);
    } else {
        assert(s[0] == x[0]);
        assert(s.drop_first() =~= x.drop_first() + seq![';'] + y);
        assert(no_delims(x.drop_first())) by {
            assert forall|i: int| 0 <= i < x.drop_first().len() implies #[trigger] x.drop_first()[i] != ':'
                && x.drop_first()[i] != ';' && x.drop_first()[i] != '"' by {
                assert(x.drop_first()[i] == x[i + 1]);
            }
        }
        lemma_split_semi(x.drop_first(), y, cur.push(x[0]), acc);
        assert(cur.push(x[0]) + x.drop_first() =~= cur + x);
    }
}

/// A parameter written as `KEY=VALUE`.
pub open spec fn param_segment(p: (Seq<char>, Seq<char>)) -> Seq<char> {
    p.0 + seq!['='] + p.1
}

proof fn lemma_params_text_front(ps: Seq<(Seq<char>, Seq<char>)>)
    requires
        ps.len() > 0,
    ensures
        params_text(ps) == seq![';'] + param_segment(ps[0]) + params_text(ps.drop_first()),
    decreases ps.len(),
{
    let init = ps.drop_last();
    if init.len() == 0 {
        assert(ps.drop_first() =~= Seq::<(Seq<char>, Seq<char>)>::empty());
        assert(params_text(init) =~= Seq::<char>::empty());
        assert(params_text(ps) =~= seq![';'] + param_segment(ps[0]));
        assert(seq![';'] + param_segment(ps[0]) + Seq::<char>::empty() =~= seq![';'] + param_segment(ps[0]));
    } else {
        lemma_params_text_front(init);
        assert(init[0] == ps[0]);
        assert(ps.drop_first().drop_last() =~= init.drop_first());
        assert(ps.drop_first().last() == ps.last());
        assert(params_text(ps) =~= seq![';'] + param_segment(ps[0]) + params_text(ps.drop_first()));
    }
}

/// Parameters fit to be written and read back.
pub open spec fn segment_ok(p: (Seq<char>, Seq<char>)) -> bool {
    &&& no_delims(p.0)
    &&& no_delims(p.1)
}

proof fn lemma_split_params(c0: Seq<char>, ps: Seq<(Seq<char>, Seq<char>)>, acc: Seq<Seq<char>>)
    requires
        no_delims(c0),
        forall|i: int| 0 <= i < ps.len() ==> segment_ok(#[trigger] ps[i]),
        acc.len() > 0 || trim(c0).len() > 0,
    ensures
        split_params_from(c0 + params_text(ps), Seq::empty(), false, acc) == acc.push(trim(c0)) + ps.map_values(
            |p: (Seq<char>, Seq<char>)| trim(param_segment(p)),
        ),
    decreases ps.len(),
{
    let f = |p: (Seq<char>, Seq<char>)| trim(param_segment(p));
    if ps.len() == 0 {
        assert(c0 + params_text(ps) =~= c0);
        lemma_split_plain(c0, Seq::empty(), acc);
        assert(Seq::<char>::empty() + c0 =~= c0);
        assert(acc.push(trim(c0)) + ps.map_values(f) =~= acc.push(trim(c0)));
    } else {
        lemma_params_text_front(ps);
        let seg = param_segment(ps[0]);
        assert(segment_ok(ps[0]));
        assert(no_delims(seg)) by {
            assert forall|i: int| 0 <= i < seg.len() implies #[trigger] seg[i] != ':' && seg[i] != ';' && seg[i]
                != '"' by {
                if i < ps[0].0.len() {
                    assert(seg[i] == ps[0].0[i]);
                } else if i > ps[0].0.len() {
                    assert(seg[i] == ps[0].1[i - ps[0].0.len() - 1]);
                }
            }
        }
        assert(c0 + params_text(ps) =~= c0 + seq![';'] + (seg + params_text(ps.drop_first())));
        lemma_split_semi(c0, seg + params_text(ps.drop_first()), Seq::empty(), acc);
        assert(Seq::<char>::empty() + c0 =~= c0);
        assert forall|i: int| 0 <= i < ps.drop_first().len() implies segment_ok(#[trigger] ps.drop_first()[i]) by {
            assert(ps.drop_first()[i] == ps[i + 1]);
        }
        lemma_split_params(seg, ps.drop_first(), acc.push(trim(c0)));
        assert(acc.push(trim(c0)).push(trim(seg)) + ps.drop_first().map_values(f) =~= acc.push(trim(c0))
            + ps.map_values(f));
    }
}

proof fn lemma_strip_leading_id(s: Seq<char>, c: char)
    requires
        s.len() > 0 ==> s[0] != c,
    ensures
        strip_leading(s, c) == s,
{
}

proof fn lemma_strip_trailing_id(s: Seq<char>, c: char)
    requires
        s.len() > 0 ==> s.last() != c,
    ensures
        strip_trailing(s, c) == s,
{
}

proof fn lemma_no_delims_quote(s: Seq<char>)
    requires
        no_delims(s),
    ensures
        trim_char(s, '"') == s,
{
    if s.len() > 0 {
        assert(s[0] != '"');
        assert(s[s.len() - 1] != '"');
    }
    lemma_strip_leading_id(s, '"');
    lemma_strip_trailing_id(s, '"');
}

/// Upper case leaves upper-case ASCII text as it is.
pub proof fn lemma_upper_ascii(s: Seq<char>)
    requires
        upper_ascii(s),
    ensures
        upper_text(s) == s,
{
}

proof fn lemma_apply_plain(st: (Option<Seq<char>>, VTODOView), l: Seq<char>)
    requires
        plain_line(l),
    ensures
        apply_line(st, l) == match property_line_spec(l) {
            None => st,
            Some(p) => apply_prop(st.0, st.1, p.0, p.1, p.2),
        },
{
    reveal(apply_line);
    assert(l[l.len() - 1] != '\r');
    lemma_strip_trailing_id(l, '\r');
}

/// A line `KEY:VALUE` without parameters reads as its upper-cased key and its value.
proof fn lemma_simple_line(key: Seq<char>, value: Seq<char>)
    requires
        key.len() > 0,
        no_delims(key),
        no_edge_ws(key),
    ensures
        property_line_spec(key + seq![':'] + value) == Some((upper_text(key), Seq::<(Seq<char>, Seq<char>)>::empty(), value)),
{
    let l = key + seq![':'] + value;
    lemma_colon_after(key, value);
    assert(l.take(key.len() as int) =~= key);
    assert(l.skip(key.len() as int + 1) =~= value);
    lemma_split_plain(key, Seq::empty(), Seq::empty());
    assert(Seq::<char>::empty() + key =~= key);
    lemma_trim_id(key);
    let segs = split_params_spec(key);
    assert(segs =~= seq![key]);
    assert(params_of(segs.drop_first()) =~= Seq::<(Seq<char>, Seq<char>)>::empty());
}

/// A `KEY=VALUE` parameter reads as its upper-cased key and its value without surrounding
/// quotes.
proof fn lemma_param_of(p: (Seq<char>, Seq<char>))
    requires
        forall|i: int| 0 <= i < p.0.len() ==> #[trigger] p.0[i] != '=',
    ensures
        param_of(param_segment(p)) == (upper_text(p.0), trim_char(p.1, '"')),
{
    let seg = param_segment(p);
    lemma_char_pos(seg, '=', p.0.len() as int);
    assert(seg.take(p.0.len() as int) =~= p.0);
    assert(seg.skip(p.0.len() as int + 1) =~= p.1);
}

/// A key made of upper-case ASCII letters and hyphens.
pub open spec fn key_chars(k: Seq<char>) -> bool {
    &&& k.len() > 0
    &&& forall|i: int| 0 <= i < k.len() ==> ('A' <= #[trigger] k[i] <= 'Z') || k[i] == '-'
}

proof fn lemma_key(k: Seq<char>)
    requires
        key_chars(k),
    ensures
        no_delims(k),
        no_edge_ws(k),
        upper_ascii(k),
        upper_text(k) == k,
{
    assert(ascii_upper(k) =~= k);
    assert('A' <= k[0] <= 'Z' || k[0] == '-');
    assert('A' <= k[k.len() - 1] <= 'Z' || k[k.len() - 1] == '-');
}

// ---------------------------------------------------------------------------
// The literals the writer uses
// ---------------------------------------------------------------------------

/// No line break.
pub open spec fn no_breaks(s: Seq<char>) -> bool {
    forall|i: int| 0 <= i < s.len() ==> #[trigger] s[i] != '\r' && s[i] != '\n'
}

/// A line prefix that cannot start the `END:VTODO` marker: each `E` in it is followed, within
/// it, by something other than `N`.
pub open spec fn marker_safe(p: Seq<char>) -> bool {
    forall|i: int| 0 <= i < p.len() && #[trigger] p[i] == 'E' ==> i + 1 < p.len() && p[i + 1] != 'N'
}

/// A written prefix: it starts with a key character and has no line break.
pub open spec fn prefix_ok(p: Seq<char>) -> bool {
    &&& p.len() > 0
    &&& !is_fold_space(p[0])
    &&& no_breaks(p)
    &&& marker_safe(p)
}

proof fn lemma_key_prefixes_a()
    ensures
        key_chars("UID"@),
        key_chars("SUMMARY"@),
        key_chars("DESCRIPTION"@),
        key_chars("STATUS"@),
        key_chars("DTSTAMP"@),
        "UID:"@ == "UID"@ + seq![':'],
        "SUMMARY:"@ == "SUMMARY"@ + seq![':'],
        "DESCRIPTION:"@ == "DESCRIPTION"@ + seq![':'],
        "STATUS:"@ == "STATUS"@ + seq![':'],
        "DTSTAMP:"@ == "DTSTAMP"@ + seq![':'],
        prefix_ok("UID:"@),
        prefix_ok("SUMMARY:"@),
        prefix_ok("DESCRIPTION:"@),
        prefix_ok("STATUS:"@),
        prefix_ok("DTSTAMP:"@),
{
    reveal_strlit("UID");
    reveal_strlit("SUMMARY");
    reveal_strlit("DESCRIPTION");
    reveal_strlit("STATUS");
    reveal_strlit("DTSTAMP");
    reveal_strlit("UID:");
    reveal_strlit("SUMMARY:");
    reveal_strlit("DESCRIPTION:");
    reveal_strlit("STATUS:");
    reveal_strlit("DTSTAMP:");
    assert("UID:"@ =~= "UID"@ + seq![':']);
    assert("SUMMARY:"@ =~= "SUMMARY"@ + seq![':']);
    assert("DESCRIPTION:"@ =~= "DESCRIPTION"@ + seq![':']);
    assert("STATUS:"@ =~= "STATUS"@ + seq![':']);
    assert("DTSTAMP:"@ =~= "DTSTAMP"@ + seq![':']);
}

proof fn lemma_key_prefixes_b()
    ensures
        key_chars("LAST-MODIFIED"@),
        key_chars("DTSTART"@),
        key_chars("DUE"@),
        key_chars("COMPLETED"@),
        "LAST-MODIFIED:"@ == "LAST-MODIFIED"@ + seq![':'],
        "DTSTART:"@ == "DTSTART"@ + seq![':'],
        "DUE:"@ == "DUE"@ + seq![':'],
        "COMPLETED:"@ == "COMPLETED"@ + seq![':'],
        prefix_ok("LAST-MODIFIED:"@),
        prefix_ok("DTSTART:"@),
        prefix_ok("DUE:"@),
        prefix_ok("COMPLETED:"@),
{
    reveal_strlit("LAST-MODIFIED");
    reveal_strlit("DTSTART");
    reveal_strlit("DUE");
    reveal_strlit("COMPLETED");
    reveal_strlit("LAST-MODIFIED:");
    reveal_strlit("DTSTART:");
    reveal_strlit("DUE:");
    reveal_strlit("COMPLETED:");
    assert("LAST-MODIFIED:"@ =~= "LAST-MODIFIED"@ + seq![':']);
    assert("DTSTART:"@ =~= "DTSTART"@ + seq![':']);
    assert("DUE:"@ =~= "DUE"@ + seq![':']);
    assert("COMPLETED:"@ =~= "COMPLETED"@ + seq![':']);
}

proof fn lemma_key_prefixes_c()
    ensures
        key_chars("CATEGORIES"@),
        key_chars("RRULE"@),
        key_chars("PRIORITY"@),
        key_chars("RELATED-TO"@),
        key_chars("RELTYPE"@),
        key_chars("DEPENDS-ON"@),
        "CATEGORIES:"@ == "CATEGORIES"@ + seq![':'],
        "RRULE:"@ == "RRULE"@ + seq![':'],
        "PRIORITY:"@ == "PRIORITY"@ + seq![':'],
        "RELATED-TO;RELTYPE="@ == "RELATED-TO"@ + seq![';'] + "RELTYPE"@ + seq!['='],
        ":"@ == seq![':'],
        prefix_ok("CATEGORIES:"@),
        prefix_ok("RRULE:"@),
        prefix_ok("PRIORITY:"@),
        prefix_ok("RELATED-TO;RELTYPE="@),
{
    reveal_strlit("CATEGORIES");
    reveal_strlit("RRULE");
    reveal_strlit("PRIORITY");
    reveal_strlit("RELATED-TO");
    reveal_strlit("RELTYPE");
    reveal_strlit("DEPENDS-ON");
    reveal_strlit("CATEGORIES:");
    reveal_strlit("RRULE:");
    reveal_strlit("PRIORITY:");
    reveal_strlit("RELATED-TO;RELTYPE=");
    reveal_strlit(":");
    assert("CATEGORIES:"@ =~= "CATEGORIES"@ + seq![':']);
    assert("RRULE:"@ =~= "RRULE"@ + seq![':']);
    assert("PRIORITY:"@ =~= "PRIORITY"@ + seq![':']);
    assert("RELATED-TO;RELTYPE="@ =~= "RELATED-TO"@ + seq![';'] + "RELTYPE"@ + seq!['=']);
    assert(":"@ =~= seq![':']);
}

/// Not holding the `END:VTODO` marker.
pub open spec fn marker_free(s: Seq<char>) -> bool {
    !has_substring(s, end_marker())
}

proof fn lemma_marker_chars()
    ensures
        end_marker().len() == 9,
        end_marker()[0] == 'E',
        end_marker()[1] == 'N',
        forall|i: int| 0 <= i < end_marker().len() ==> #[trigger] end_marker()[i] != '\n',
{
    reveal_strlit("END:VTODO");
}

proof fn lemma_marker_after(p: Seq<char>, v: Seq<char>)
    requires
        marker_safe(p),
        marker_free(v),
    ensures
        marker_free(p + v),
{
    lemma_marker_chars();
    let s = p + v;
    let m = end_marker();
    if has_substring(s, m) {
        let k = choose|k: int| #[trigger] occurs_at(s, m, k);
        assert(s.subrange(k, k + 9)[0] == s[k]);
        assert(s.subrange(k, k + 9)[1] == s[k + 1]);
        if k < p.len() {
            assert(s[k] == p[k]);
            assert(p[k] == 'E');
            assert(s[k + 1] == p[k + 1]);
        } else {
            lemma_occurs_shift(p, v, m, k);
            assert(occurs_at(v, m, k - p.len()));
        }
    }
}

proof fn lemma_no_e(s: Seq<char>)
    requires
        forall|i: int| 0 <= i < s.len() ==> #[trigger] s[i] != 'E',
    ensures
        marker_free(s),
{
    lemma_marker_chars();
    let m = end_marker();
    if has_substring(s, m) {
        let k = choose|k: int| #[trigger] occurs_at(s, m, k);
        assert(s.subrange(k, k + 9)[0] == s[k]);
    }
}

/// What is known of the text written for an instant that reads back.
proof fn lemma_time_text(t: Timestamp)
    requires
        reads_back(t),
    ensures
        datetime_spec(utc_format(t, ical_utc_format()), Seq::empty()) == Some(t),
        !date_only_spec(utc_format(t, ical_utc_format()), Seq::empty()),
        no_breaks(utc_format(t, ical_utc_format())),
        forall|i: int| 0 <= i < utc_format(t, ical_utc_format()).len() ==> #[trigger] utc_format(t, ical_utc_format())[i] != 'E',
{
    let s = utc_format(t, ical_utc_format());
    assert(utc_text_shape(s));
    assert('0' <= s[0] <= '9');
    lemma_trim_id(s);
    assert(has_char(s, 'T')) by {
        assert(s[8] == 'T');
    }
    assert forall|i: int| 0 <= i < s.len() implies #[trigger] s[i] != 'E' && s[i] != '\r' && s[i] != '\n' by {
        if i < 8 || (9 <= i < 15) {
            assert('0' <= s[i] <= '9');
        }
    }
}

proof fn lemma_decimal_digits(n: nat)
    ensures
        decimal(n).len() > 0,
        all_digits(decimal(n)),
        digits_value(decimal(n)) == n,
    decreases n,
{
    if n >= 10 {
        lemma_decimal_digits(n / 10);
        let d = decimal(n / 10);
        let s = d.push((('0' as u32) + (n % 10)) as char);
        assert(s.drop_last() =~= d);
        assert forall|i: int| 0 <= i < s.len() implies crate::ical::value::is_digit(#[trigger] s[i]) by {
            if i < d.len() {
                assert(s[i] == d[i]);
            }
        }
        let dig: u32 = (('0' as u32) + (n % 10)) as u32;
        assert(dig == 48 + n % 10);
        assert((dig as char) as int == dig as int);
        assert(s.last() as int - '0' as int == n % 10);
        assert(digits_value(s) == digits_value(d) * 10 + (n % 10));
        assert((n / 10) * 10 + n % 10 == n);
    } else {
        let s = decimal(n);
        assert(s.drop_last() =~= Seq::<char>::empty());
        let dig: u32 = (('0' as u32) + n) as u32;
        assert((dig as char) as int == dig as int);
        assert(digits_value(s) == digits_value(Seq::<char>::empty()) * 10 + (s.last() as int - '0' as int));
    }
}

/// The written priority reads back when it is not zero.
proof fn lemma_priority_text(p: u8)
    requires
        p > 0,
    ensures
        priority_of(decimal(p as nat)) == Some(p),
        no_breaks(decimal(p as nat)),
        forall|i: int| 0 <= i < decimal(p as nat).len() ==> #[trigger] decimal(p as nat)[i] != 'E',
{
    let s = decimal(p as nat);
    lemma_decimal_digits(p as nat);
    assert(crate::ical::value::is_digit(s[0]));
    assert(crate::ical::value::is_digit(s[s.len() - 1]));
    lemma_trim_id(s);
    assert forall|i: int| 0 <= i < s.len() implies #[trigger] s[i] != 'E' && s[i] != '\r' && s[i] != '\n' by {
        assert(crate::ical::value::is_digit(s[i]));
    }
    assert(s[0] != '+');
    assert(u8_from_str(s) == Some(p));
}

/// No carriage return.
pub open spec fn no_cr(s: Seq<char>) -> bool {
    forall|i: int| 0 <= i < s.len() ==> #[trigger] s[i] != '\r'
}

proof fn lemma_no_cr_tail(s: Seq<char>)
    requires
        no_cr(s),
        s.len() > 0,
    ensures
        no_cr(s.drop_first()),
        s[0] != '\r',
{
    assert forall|i: int| 0 <= i < s.drop_first().len() implies #[trigger] s.drop_first()[i] != '\r' by {
        assert(s.drop_first()[i] == s[i + 1]);
    }
}

proof fn lemma_without_cr_id(s: Seq<char>)
    requires
        no_cr(s),
    ensures
        without_cr(s) == s,
    decreases s.len(),
{
    if s.len() > 0 {
        lemma_no_cr_tail(s);
        lemma_without_cr_id(s.drop_first());
        assert(seq![s[0]] + s.drop_first() =~= s);
    }
}

/// Escaped text holds no line break.
proof fn lemma_escape_no_breaks(s: Seq<char>)
    ensures
        no_breaks(escape_spec(s)),
    decreases s.len(),
{
    if s.len() > 0 {
        lemma_escape_no_breaks(s.drop_first());
        let e = escape_char(s[0]);
        let r = escape_spec(s.drop_first());
        assert forall|i: int| 0 <= i < (e + r).len() implies #[trigger] (e + r)[i] != '\r' && (e + r)[i] != '\n' by {
            if i >= e.len() {
                assert((e + r)[i] == r[i - e.len()]);
            }
        }
    }
}

proof fn lemma_escape_last(s: Seq<char>)
    requires
        s.len() > 0,
    ensures
        escape_spec(s) == escape_spec(s.drop_last()) + escape_char(s.last()),
    decreases s.len(),
{
    if s.len() == 1 {
        assert(s.drop_last() =~= Seq::<char>::empty());
        assert(s.drop_first() =~= Seq::<char>::empty());
        assert(escape_spec(Seq::<char>::empty()) =~= Seq::<char>::empty());
        assert(escape_spec(s) == escape_char(s[0]) + escape_spec(s.drop_first()));
        assert(escape_spec(s) =~= escape_char(s[0]) + Seq::<char>::empty());
    } else {
        lemma_escape_last(s.drop_first());
        assert(s.drop_first().drop_last() =~= s.drop_last().drop_first());
        assert(s.drop_last()[0] == s[0]);
        assert(escape_spec(s) =~= escape_spec(s.drop_last()) + escape_char(s.last()));
    }
}

/// A category fit to be written and read back: not empty, no carriage return, and no
/// whitespace at either end.
pub open spec fn category_ok(c: Seq<char>) -> bool {
    &&& c.len() > 0
    &&& no_cr(c)
    &&& !is_ws(c[0])
    &&& !is_ws(c.last())
}

proof fn lemma_category_reads_back(c: Seq<char>)
    requires
        category_ok(c),
    ensures
        unescape_spec(trim(escape_spec(c))) == c,
{
    let e = escape_spec(c);
    assert(c[c.len() - 1] != '\r');
    assert(e =~= escape_char(c[0]) + escape_spec(c.drop_first()));
    lemma_escape_last(c);
    assert(e[0] == escape_char(c[0])[0]);
    let el = escape_char(c.last());
    assert(e.last() == el.last());
    assert(!is_ws(e[0]));
    assert(!is_ws(e.last()));
    lemma_trim_id(e);
    lemma_unescape_escape(c);
    lemma_without_cr_id(c);
}

proof fn lemma_category_values(cats: Seq<Seq<char>>)
    requires
        forall|i: int| 0 <= i < cats.len() ==> category_ok(#[trigger] cats[i]),
    ensures
        category_values(escape_all(cats)) == cats,
    decreases cats.len(),
{
    if cats.len() > 0 {
        let init = cats.drop_last();
        assert(escape_all(cats).drop_last() =~= escape_all(init));
        assert forall|i: int| 0 <= i < init.len() implies category_ok(#[trigger] init[i]) by {
            assert(init[i] == cats[i]);
        }
        lemma_category_values(init);
        assert(category_ok(cats[cats.len() - 1]));
        lemma_category_reads_back(cats.last());
        assert(escape_all(cats).last() == escape_spec(cats.last()));
        assert(init.push(cats.last()) =~= cats);
    } else {
        assert(escape_all(cats) =~= Seq::<Seq<char>>::empty());
    }
}

/// The written categories read back as they are.
proof fn lemma_categories_text(cats: Seq<Seq<char>>)
    requires
        cats.len() > 0,
        forall|i: int| 0 <= i < cats.len() ==> category_ok(#[trigger] cats[i]),
    ensures
        category_values(split_commas_spec(join_commas(escape_all(cats)))) == cats,
        no_breaks(join_commas(escape_all(cats))),
{
    lemma_split_join_escaped(cats);
    lemma_category_values(cats);
    lemma_join_no_breaks(escape_all(cats));
}

proof fn lemma_join_no_breaks(ps: Seq<Seq<char>>)
    requires
        forall|i: int| 0 <= i < ps.len() ==> no_breaks(#[trigger] ps[i]) || exists|s: Seq<char>| ps[i] == escape_spec(s),
    ensures
        no_breaks(join_commas(ps)),
    decreases ps.len(),
{
    if ps.len() > 0 {
        assert(no_breaks(ps[0])) by {
            if !no_breaks(ps[0]) {
                let s = choose|s: Seq<char>| ps[0] == escape_spec(s);
                lemma_escape_no_breaks(s);
            }
        }
        if ps.len() > 1 {
            assert forall|i: int| 0 <= i < ps.drop_first().len() implies no_breaks(#[trigger] ps.drop_first()[i])
                || exists|s: Seq<char>| ps.drop_first()[i] == escape_spec(s) by {
                assert(ps.drop_first()[i] == ps[i + 1]);
            }
            lemma_join_no_breaks(ps.drop_first());
            let j = ps[0] + seq![','] + join_commas(ps.drop_first());
            assert forall|i: int| 0 <= i < j.len() implies #[trigger] j[i] != '\r' && j[i] != '\n' by {
                if i < ps[0].len() {
                    assert(j[i] == ps[0][i]);
                } else if i > ps[0].len() {
                    assert(j[i] == join_commas(ps.drop_first())[i - ps[0].len() - 1]);
                }
            }
        }
    }
}

/// The property keys the reader tells apart are pairwise different.
proof fn lemma_keys_distinct()
    ensures
        "SUMMARY"@ != "UID"@,
        "DESCRIPTION"@ != "UID"@,
        "DESCRIPTION"@ != "SUMMARY"@,
        "STATUS"@ != "UID"@,
        "STATUS"@ != "SUMMARY"@,
        "STATUS"@ != "DESCRIPTION"@,
        "LAST-MODIFIED"@ != "UID"@,
        "LAST-MODIFIED"@ != "SUMMARY"@,
        "LAST-MODIFIED"@ != "DESCRIPTION"@,
        "LAST-MODIFIED"@ != "STATUS"@,
        "DTSTART"@ != "UID"@,
        "DTSTART"@ != "SUMMARY"@,
        "DTSTART"@ != "DESCRIPTION"@,
        "DTSTART"@ != "STATUS"@,
        "DTSTART"@ != "LAST-MODIFIED"@,
        "DUE"@ != "UID"@,
        "DUE"@ != "SUMMARY"@,
        "DUE"@ != "DESCRIPTION"@,
        "DUE"@ != "STATUS"@,
        "DUE"@ != "LAST-MODIFIED"@,
        "DUE"@ != "DTSTART"@,
        "COMPLETED"@ != "UID"@,
        "COMPLETED"@ != "SUMMARY"@,
        "COMPLETED"@ != "DESCRIPTION"@,
        "COMPLETED"@ != "STATUS"@,
        "COMPLETED"@ != "LAST-MODIFIED"@,
        "COMPLETED"@ != "DTSTART"@,
        "COMPLETED"@ != "DUE"@,
        "CATEGORIES"@ != "UID"@,
        "CATEGORIES"@ != "SUMMARY"@,
        "CATEGORIES"@ != "DESCRIPTION"@,
        "CATEGORIES"@ != "STATUS"@,
        "CATEGORIES"@ != "LAST-MODIFIED"@,
        "CATEGORIES"@ != "DTSTART"@,
        "CATEGORIES"@ != "DUE"@,
        "CATEGORIES"@ != "COMPLETED"@,
        "RRULE"@ != "UID"@,
        "RRULE"@ != "SUMMARY"@,
        "RRULE"@ != "DESCRIPTION"@,
        "RRULE"@ != "STATUS"@,
        "RRULE"@ != "LAST-MODIFIED"@,
        "RRULE"@ != "DTSTART"@,
        "RRULE"@ != "DUE"@,
        "RRULE"@ != "COMPLETED"@,
        "RRULE"@ != "CATEGORIES"@,
        "PRIORITY"@ != "UID"@,
        "PRIORITY"@ != "SUMMARY"@,
        "PRIORITY"@ != "DESCRIPTION"@,
        "PRIORITY"@ != "STATUS"@,
        "PRIORITY"@ != "LAST-MODIFIED"@,
        "PRIORITY"@ != "DTSTART"@,
        "PRIORITY"@ != "DUE"@,
        "PRIORITY"@ != "COMPLETED"@,
        "PRIORITY"@ != "CATEGORIES"@,
        "PRIORITY"@ != "RRULE"@,
        "RELATED-TO"@ != "UID"@,
        "RELATED-TO"@ != "SUMMARY"@,
        "RELATED-TO"@ != "DESCRIPTION"@,
        "RELATED-TO"@ != "STATUS"@,
        "RELATED-TO"@ != "LAST-MODIFIED"@,
        "RELATED-TO"@ != "DTSTART"@,
        "RELATED-TO"@ != "DUE"@,
        "RELATED-TO"@ != "COMPLETED"@,
        "RELATED-TO"@ != "CATEGORIES"@,
        "RELATED-TO"@ != "RRULE"@,
        "RELATED-TO"@ != "PRIORITY"@,
        "DTSTAMP"@ != "UID"@,
        "DTSTAMP"@ != "SUMMARY"@,
        "DTSTAMP"@ != "DESCRIPTION"@,
        "DTSTAMP"@ != "STATUS"@,
        "DTSTAMP"@ != "LAST-MODIFIED"@,
        "DTSTAMP"@ != "DTSTART"@,
        "DTSTAMP"@ != "DUE"@,
        "DTSTAMP"@ != "COMPLETED"@,
        "DTSTAMP"@ != "CATEGORIES"@,
        "DTSTAMP"@ != "RRULE"@,
        "DTSTAMP"@ != "PRIORITY"@,
        "DTSTAMP"@ != "RELATED-TO"@,
        "BEGIN"@ != "UID"@,
        "BEGIN"@ != "SUMMARY"@,
        "BEGIN"@ != "DESCRIPTION"@,
        "BEGIN"@ != "STATUS"@,
        "BEGIN"@ != "LAST-MODIFIED"@,
        "BEGIN"@ != "DTSTART"@,
        "BEGIN"@ != "DUE"@,
        "BEGIN"@ != "COMPLETED"@,
        "BEGIN"@ != "CATEGORIES"@,
        "BEGIN"@ != "RRULE"@,
        "BEGIN"@ != "PRIORITY"@,
        "BEGIN"@ != "RELATED-TO"@,
        "BEGIN"@ != "DTSTAMP"@,
        "END"@ != "UID"@,
        "END"@ != "SUMMARY"@,
        "END"@ != "DESCRIPTION"@,
        "END"@ != "STATUS"@,
        "END"@ != "LAST-MODIFIED"@,
        "END"@ != "DTSTART"@,
        "END"@ != "DUE"@,
        "END"@ != "COMPLETED"@,
        "END"@ != "CATEGORIES"@,
        "END"@ != "RRULE"@,
        "END"@ != "PRIORITY"@,
        "END"@ != "RELATED-TO"@,
        "END"@ != "DTSTAMP"@,
        "END"@ != "BEGIN"@,
{
    reveal_strlit("UID");
    reveal_strlit("SUMMARY");
    reveal_strlit("DESCRIPTION");
    reveal_strlit("STATUS");
    reveal_strlit("LAST-MODIFIED");
    reveal_strlit("DTSTART");
    reveal_strlit("DUE");
    reveal_strlit("COMPLETED");
    reveal_strlit("CATEGORIES");
    reveal_strlit("RRULE");
    reveal_strlit("PRIORITY");
    reveal_strlit("RELATED-TO");
    reveal_strlit("DTSTAMP");
    reveal_strlit("BEGIN");
    reveal_strlit("END");
    assert("UID"@.len() == 3);
    assert("SUMMARY"@.len() == 7);
    assert("DESCRIPTION"@.len() == 11);
    assert("STATUS"@.len() == 6);
    assert("LAST-MODIFIED"@.len() == 13);
    assert("DTSTART"@.len() == 7);
    assert("DUE"@.len() == 3);
    assert("COMPLETED"@.len() == 9);
    assert("CATEGORIES"@.len() == 10);
    assert("RRULE"@.len() == 5);
    assert("PRIORITY"@.len() == 8);
    assert("RELATED-TO"@.len() == 10);
    assert("DTSTAMP"@.len() == 7);
    assert("BEGIN"@.len() == 5);
    assert("END"@.len() == 3);
    assert("DTSTART"@[0] != "SUMMARY"@[0]);
    assert("DUE"@[0] != "UID"@[0]);
    assert("RELATED-TO"@[0] != "CATEGORIES"@[0]);
    assert("DTSTAMP"@[0] != "SUMMARY"@[0]);
    assert("DTSTAMP"@[5] != "DTSTART"@[5]);
    assert("BEGIN"@[0] != "RRULE"@[0]);
    assert("END"@[0] != "UID"@[0]);
    assert("END"@[0] != "DUE"@[0]);
}

/// A name the reader treats as one of its own properties.
pub open spec fn reserved_name(n: Seq<char>) -> bool {
    n == "UID"@
        || n == "SUMMARY"@
        || n == "DESCRIPTION"@
        || n == "STATUS"@
        || n == "LAST-MODIFIED"@
        || n == "DTSTART"@
        || n == "DUE"@
        || n == "COMPLETED"@
        || n == "CATEGORIES"@
        || n == "RRULE"@
        || n == "PRIORITY"@
        || n == "RELATED-TO"@
        || n == "DTSTAMP"@
        || n == "BEGIN"@
        || n == "END"@
}

proof fn lemma_scan_single(st: (Option<Seq<char>>, VTODOView), l: Seq<char>)
    ensures
        scan_lines(st, seq![l]) == apply_line(st, l),
{
    assert(seq![l].drop_last() =~= Seq::<Seq<char>>::empty());
    assert(scan_lines(st, Seq::<Seq<char>>::empty()) == st);
}

/// A line `KEY:VALUE` for one of the reader's keys is read as that property.
proof fn lemma_key_line(st: (Option<Seq<char>>, VTODOView), key: Seq<char>, value: Seq<char>)
    requires
        key_chars(key),
        no_breaks(value),
    ensures
        apply_line(st, key + seq![':'] + value) == apply_prop(st.0, st.1, key, Seq::empty(), value),
        plain_line(key + seq![':'] + value),
{
    lemma_key(key);
    let l = key + seq![':'] + value;
    assert(l[0] == key[0]);
    assert(!is_fold_space(key[0]));
    assert forall|i: int| 0 <= i < l.len() implies #[trigger] l[i] != '\r' && l[i] != '\n' by {
        if i < key.len() {
            assert(l[i] == key[i]);
            assert('A' <= key[i] <= 'Z' || key[i] == '-');
        } else if i > key.len() {
            assert(l[i] == value[i - key.len() - 1]);
        }
    }
    lemma_apply_plain(st, l);
    lemma_simple_line(key, value);
}


/// The new value when there is one, else the current one.
pub open spec fn keep_or<T>(o: Option<T>, cur: Option<T>) -> Option<T> {
    match o {
        Some(x) => Some(x),
        None => cur,
    }
}

proof fn lemma_summary_line(st: (Option<Seq<char>>, VTODOView), s: Seq<char>)
    requires
        no_cr(s),
    ensures
        apply_line(st, "SUMMARY:"@ + escape_spec(s)) == (st.0, VTODOView { summary: Some(s), ..st.1 }),
        plain_line("SUMMARY:"@ + escape_spec(s)),
{
    lemma_key_prefixes_a();
    lemma_keys_distinct();
    lemma_key("SUMMARY"@);
    lemma_escape_no_breaks(s);
    assert("SUMMARY:"@ + escape_spec(s) == "SUMMARY"@ + seq![':'] + escape_spec(s));
    lemma_key_line(st, "SUMMARY"@, escape_spec(s));
    lemma_unescape_escape(s);
    lemma_without_cr_id(s);
}

proof fn lemma_description_line(st: (Option<Seq<char>>, VTODOView), s: Seq<char>)
    requires
        no_cr(s),
    ensures
        apply_line(st, "DESCRIPTION:"@ + escape_spec(s)) == (st.0, VTODOView { description: Some(s), ..st.1 }),
        plain_line("DESCRIPTION:"@ + escape_spec(s)),
{
    lemma_key_prefixes_a();
    lemma_keys_distinct();
    lemma_key("DESCRIPTION"@);
    lemma_escape_no_breaks(s);
    assert("DESCRIPTION:"@ + escape_spec(s) == "DESCRIPTION"@ + seq![':'] + escape_spec(s));
    lemma_key_line(st, "DESCRIPTION"@, escape_spec(s));
    lemma_unescape_escape(s);
    lemma_without_cr_id(s);
}

proof fn lemma_status_line(st: (Option<Seq<char>>, VTODOView), s: Seq<char>)
    requires
        no_breaks(s),
    ensures
        apply_line(st, "STATUS:"@ + s) == (st.0, VTODOView { status: Some(s), ..st.1 }),
        plain_line("STATUS:"@ + s),
{
    lemma_key_prefixes_a();
    lemma_keys_distinct();
    lemma_key("STATUS"@);
    assert("STATUS:"@ + s == "STATUS"@ + seq![':'] + s);
    lemma_key_line(st, "STATUS"@, s);
}

proof fn lemma_dtstamp_line(st: (Option<Seq<char>>, VTODOView), t: Timestamp)
    requires
        reads_back(t),
    ensures
        apply_line(st, "DTSTAMP:"@ + ical_time(t)) == (st.0, VTODOView { dtstamp: Some(t), ..st.1 }),
        plain_line("DTSTAMP:"@ + ical_time(t)),
{
    lemma_key_prefixes_a();
    lemma_keys_distinct();
    lemma_key("DTSTAMP"@);
    lemma_time_text(t);
    assert("DTSTAMP:"@ + ical_time(t) == "DTSTAMP"@ + seq![':'] + ical_time(t));
    lemma_key_line(st, "DTSTAMP"@, ical_time(t));
}

proof fn lemma_uid_line(st: (Option<Seq<char>>, VTODOView), u: Seq<char>)
    requires
        no_breaks(u),
    ensures
        apply_line(st, "UID:"@ + u) == (Some(u), st.1),
        plain_line("UID:"@ + u),
{
    lemma_key_prefixes_a();
    lemma_keys_distinct();
    lemma_key("UID"@);
    assert("UID:"@ + u == "UID"@ + seq![':'] + u);
    lemma_key_line(st, "UID"@, u);
}

proof fn lemma_last_modified_line(st: (Option<Seq<char>>, VTODOView), t: Timestamp)
    requires
        reads_back(t),
    ensures
        apply_line(st, "LAST-MODIFIED:"@ + ical_time(t)) == (st.0, VTODOView { last_modified: Some(t), ..st.1 }),
        plain_line("LAST-MODIFIED:"@ + ical_time(t)),
{
    lemma_key_prefixes_b();
    lemma_keys_distinct();
    lemma_key("LAST-MODIFIED"@);
    lemma_time_text(t);
    assert("LAST-MODIFIED:"@ + ical_time(t) == "LAST-MODIFIED"@ + seq![':'] + ical_time(t));
    lemma_key_line(st, "LAST-MODIFIED"@, ical_time(t));
}

proof fn lemma_dtstart_line(st: (Option<Seq<char>>, VTODOView), t: Timestamp)
    requires
        reads_back(t),
    ensures
        apply_line(st, "DTSTART:"@ + ical_time(t)) == (st.0, VTODOView {
            dtstart: Some(t),
            dtstart_is_date_only: false,
            ..st.1
        }),
        plain_line("DTSTART:"@ + ical_time(t)),
{
    lemma_key_prefixes_b();
    lemma_keys_distinct();
    lemma_key("DTSTART"@);
    lemma_time_text(t);
    assert("DTSTART:"@ + ical_time(t) == "DTSTART"@ + seq![':'] + ical_time(t));
    lemma_key_line(st, "DTSTART"@, ical_time(t));
}

proof fn lemma_due_line(st: (Option<Seq<char>>, VTODOView), t: Timestamp)
    requires
        reads_back(t),
    ensures
        apply_line(st, "DUE:"@ + ical_time(t)) == (st.0, VTODOView { due: Some(t), due_is_date_only: false, ..st.1 }),
        plain_line("DUE:"@ + ical_time(t)),
{
    lemma_key_prefixes_b();
    lemma_keys_distinct();
    lemma_key("DUE"@);
    lemma_time_text(t);
    assert("DUE:"@ + ical_time(t) == "DUE"@ + seq![':'] + ical_time(t));
    lemma_key_line(st, "DUE"@, ical_time(t));
}

proof fn lemma_completed_line(st: (Option<Seq<char>>, VTODOView), t: Timestamp)
    requires
        reads_back(t),
    ensures
        apply_line(st, "COMPLETED:"@ + ical_time(t)) == (st.0, VTODOView { completed: Some(t), ..st.1 }),
        plain_line("COMPLETED:"@ + ical_time(t)),
{
    lemma_key_prefixes_b();
    lemma_keys_distinct();
    lemma_key("COMPLETED"@);
    lemma_time_text(t);
    assert("COMPLETED:"@ + ical_time(t) == "COMPLETED"@ + seq![':'] + ical_time(t));
    lemma_key_line(st, "COMPLETED"@, ical_time(t));
}

proof fn lemma_categories_line(st: (Option<Seq<char>>, VTODOView), cats: Seq<Seq<char>>)
    requires
        cats.len() > 0,
        forall|i: int| 0 <= i < cats.len() ==> category_ok(#[trigger] cats[i]),
    ensures
        apply_line(st, "CATEGORIES:"@ + join_commas(escape_all(cats))) == (st.0, VTODOView {
            categories: st.1.categories + cats,
            ..st.1
        }),
        plain_line("CATEGORIES:"@ + join_commas(escape_all(cats))),
{
    lemma_key_prefixes_c();
    lemma_keys_distinct();
    lemma_key("CATEGORIES"@);
    lemma_categories_text(cats);
    let j = join_commas(escape_all(cats));
    assert("CATEGORIES:"@ + j == "CATEGORIES"@ + seq![':'] + j);
    lemma_key_line(st, "CATEGORIES"@, j);
}

proof fn lemma_rrule_line(st: (Option<Seq<char>>, VTODOView), s: Seq<char>)
    requires
        no_breaks(s),
    ensures
        apply_line(st, "RRULE:"@ + s) == (st.0, VTODOView { rrule: Some(s), ..st.1 }),
        plain_line("RRULE:"@ + s),
{
    lemma_key_prefixes_c();
    lemma_keys_distinct();
    lemma_key("RRULE"@);
    assert("RRULE:"@ + s == "RRULE"@ + seq![':'] + s);
    lemma_key_line(st, "RRULE"@, s);
}

proof fn lemma_priority_line(st: (Option<Seq<char>>, VTODOView), p: u8)
    requires
        p > 0,
    ensures
        apply_line(st, "PRIORITY:"@ + decimal(p as nat)) == (st.0, VTODOView { priority: Some(p), ..st.1 }),
        plain_line("PRIORITY:"@ + decimal(p as nat)),
{
    lemma_key_prefixes_c();
    lemma_keys_distinct();
    lemma_key("PRIORITY"@);
    lemma_priority_text(p);
    let d = decimal(p as nat);
    assert("PRIORITY:"@ + d == "PRIORITY"@ + seq![':'] + d);
    lemma_key_line(st, "PRIORITY"@, d);
}


/// A relation fit to be written and read back: the UID has no line break, the part after
/// `RELTYPE=` holds no `END:VTODO` marker, and another relation type is upper-case ASCII
/// other than `DEPENDS-ON`, without `:`, `;`, `"`, line breaks or trailing whitespace.
pub open spec fn relation_ok(d: (RelTypeView, Seq<char>)) -> bool {
    &&& no_breaks(d.1)
    &&& marker_free(reltype_text(d.0) + seq![':'] + d.1)
    &&& match d.0 {
        RelTypeView::DependsOn => true,
        RelTypeView::Other(s) => {
            &&& upper_ascii(s)
            &&& s != "DEPENDS-ON"@
            &&& no_delims(s)
            &&& no_breaks(s)
            &&& (s.len() > 0 ==> !is_ws(s.last()))
        },
    }
}

proof fn lemma_no_colon_quote_concat(a: Seq<char>, b: Seq<char>)
    requires
        no_colon_quote(a),
        no_colon_quote(b),
    ensures
        no_colon_quote(a + b),
{
    assert forall|i: int| 0 <= i < (a + b).len() implies #[trigger] (a + b)[i] != ':' && (a + b)[i] != '"' by {
        if i < a.len() {
            assert((a + b)[i] == a[i]);
        } else {
            assert((a + b)[i] == b[i - a.len()]);
        }
    }
}

proof fn lemma_no_breaks_concat(a: Seq<char>, b: Seq<char>)
    requires
        no_breaks(a),
        no_breaks(b),
    ensures
        no_breaks(a + b),
{
    assert forall|i: int| 0 <= i < (a + b).len() implies #[trigger] (a + b)[i] != '\r' && (a + b)[i] != '\n' by {
        if i < a.len() {
            assert((a + b)[i] == a[i]);
        } else {
            assert((a + b)[i] == b[i - a.len()]);
        }
    }
}

proof fn lemma_params_text_chars(ps: Seq<(Seq<char>, Seq<char>)>)
    requires
        forall|i: int| 0 <= i < ps.len() ==> segment_ok(#[trigger] ps[i]) && no_breaks(ps[i].0) && no_breaks(ps[i].1),
    ensures
        no_colon_quote(params_text(ps)),
        no_breaks(params_text(ps)),
    decreases ps.len(),
{
    if ps.len() > 0 {
        let init = ps.drop_last();
        assert forall|i: int| 0 <= i < init.len() implies segment_ok(#[trigger] init[i]) && no_breaks(init[i].0)
            && no_breaks(init[i].1) by {
            assert(init[i] == ps[i]);
        }
        lemma_params_text_chars(init);
        let last = ps.last();
        assert(segment_ok(ps[ps.len() - 1]) && no_breaks(ps[ps.len() - 1].0) && no_breaks(ps[ps.len() - 1].1));
        let tail = seq![';'] + last.0 + seq!['='] + last.1;
        assert forall|i: int| 0 <= i < tail.len() implies #[trigger] tail[i] != ':' && tail[i] != '"' && tail[i]
            != '\r' && tail[i] != '\n' by {
            if 1 <= i < 1 + last.0.len() {
                assert(tail[i] == last.0[i - 1]);
            } else if i > 1 + last.0.len() {
                assert(tail[i] == last.1[i - 2 - last.0.len()]);
            }
        }
        assert(params_text(ps) =~= params_text(init) + tail);
        lemma_no_colon_quote_concat(params_text(init), tail);
        lemma_no_breaks_concat(params_text(init), tail);
    }
}

proof fn lemma_related_line(st: (Option<Seq<char>>, VTODOView), d: (RelTypeView, Seq<char>))
    requires
        relation_ok(d),
    ensures
        apply_line(st, "RELATED-TO;RELTYPE="@ + reltype_text(d.0) + ":"@ + d.1) == (st.0, VTODOView {
            depends: st.1.depends.push(d),
            ..st.1
        }),
        plain_line("RELATED-TO;RELTYPE="@ + reltype_text(d.0) + ":"@ + d.1),
        marker_free("RELATED-TO;RELTYPE="@ + reltype_text(d.0) + ":"@ + d.1),
{
    lemma_key_prefixes_c();
    lemma_keys_distinct();
    lemma_key("RELATED-TO"@);
    lemma_key("RELTYPE"@);
    lemma_key("DEPENDS-ON"@);
    let rt = reltype_text(d.0);
    let k = "RELTYPE"@;
    let name = "RELATED-TO"@;
    let ps = seq![(k, rt)];
    assert(no_delims(rt) && no_breaks(rt)) by {
        if d.0 is DependsOn {
            assert(rt == "DEPENDS-ON"@);
            assert forall|i: int| 0 <= i < rt.len() implies #[trigger] rt[i] != '\r' && rt[i] != '\n' by {
                assert('A' <= rt[i] <= 'Z' || rt[i] == '-');
            }
        }
    }
    assert(rt.len() > 0 ==> !is_ws(rt.last())) by {
        if d.0 is DependsOn {
            assert('A' <= rt[rt.len() - 1] <= 'Z' || rt[rt.len() - 1] == '-');
        }
    }
    assert(ps.drop_last() =~= Seq::<(Seq<char>, Seq<char>)>::empty());
    assert(params_text(Seq::<(Seq<char>, Seq<char>)>::empty()) =~= Seq::<char>::empty());
    assert(params_text(ps) =~= seq![';'] + k + seq!['='] + rt);
    let pre = name + params_text(ps);
    let l = "RELATED-TO;RELTYPE="@ + rt + ":"@ + d.1;
    assert(l =~= pre + seq![':'] + d.1);
    // where the value starts
    assert(segment_ok(ps[0]));
    assert forall|i: int| 0 <= i < name.len() implies #[trigger] name[i] != ':' && name[i] != '"' && name[i] != '\r'
        && name[i] != '\n' by {
        assert('A' <= name[i] <= 'Z' || name[i] == '-');
    }
    assert forall|i: int| 0 <= i < k.len() implies #[trigger] k[i] != '\r' && k[i] != '\n' by {
        assert('A' <= k[i] <= 'Z' || k[i] == '-');
    }
    lemma_params_text_chars(ps);
    lemma_no_colon_quote_concat(name, params_text(ps));
    lemma_no_breaks_concat(name, params_text(ps));
    lemma_colon_after(pre, d.1);
    assert(l.take(pre.len() as int) =~= pre);
    assert(l.skip(pre.len() as int + 1) =~= d.1);
    // the segments
    lemma_trim_id(name);
    lemma_split_params(name, ps, Seq::empty());
    let seg = param_segment(ps[0]);
    reveal_strlit("RELTYPE");
    assert(seg[0] == k[0]);
    assert(seg[0] == 'R');
    assert(seg.last() == (if rt.len() > 0 { rt.last() } else { '=' }));
    lemma_trim_id(seg);
    let segs = split_params_spec(pre);
    assert(segs =~= seq![name, seg]);
    assert forall|i: int| 0 <= i < k.len() implies #[trigger] k[i] != '=' by {
        assert('A' <= k[i] <= 'Z' || k[i] == '-');
    }
    lemma_param_of(ps[0]);
    lemma_no_delims_quote(rt);
    assert(params_of(segs.drop_first()) =~= ps);
    assert(property_line_spec(l) == Some((name, ps, d.1)));
    // reading it
    lemma_no_breaks_concat(pre, seq![':']);
    lemma_no_breaks_concat(pre + seq![':'], d.1);
    assert(plain_line(l)) by {
        assert(l[0] == name[0]);
        assert('A' <= name[0] <= 'Z' || name[0] == '-');
    }
    lemma_apply_plain(st, l);
    assert(find_param(ps, k) == Some(rt));
    assert(reltype_of(ps) == d.0);
    lemma_marker_after("RELATED-TO;RELTYPE="@, rt + seq![':'] + d.1);
    assert(l =~= "RELATED-TO;RELTYPE="@ + (rt + seq![':'] + d.1));
}


/// A parameter fit to be written and read back: an upper-case ASCII key without `=`, key
/// and value without `:`, `;`, `"` or line breaks, the key not starting and the value not
/// ending with whitespace.
pub open spec fn param_ok(p: (Seq<char>, Seq<char>)) -> bool {
    &&& upper_ascii(p.0)
    &&& no_delims(p.0)
    &&& no_delims(p.1)
    &&& no_breaks(p.0)
    &&& no_breaks(p.1)
    &&& forall|i: int| 0 <= i < p.0.len() ==> #[trigger] p.0[i] != '='
    &&& (p.0.len() > 0 ==> !is_ws(p.0[0]))
    &&& (p.1.len() > 0 ==> !is_ws(p.1.last()))
}

/// A kept property fit to be written and read back: a non-empty upper-case ASCII name that
/// is none of the reader's own keys, without `:`, `;`, `"`, line breaks or surrounding
/// whitespace; parameters fit to be written; a value without line breaks; and a line
/// without the `END:VTODO` marker.
pub open spec fn prop_ok(p: IcalPropView) -> bool {
    &&& p.name.len() > 0
    &&& upper_ascii(p.name)
    &&& no_delims(p.name)
    &&& no_breaks(p.name)
    &&& no_edge_ws(p.name)
    &&& !reserved_name(p.name)
    &&& forall|i: int| 0 <= i < p.params.len() ==> param_ok(#[trigger] p.params[i])
    &&& no_breaks(p.value)
    &&& marker_free(prop_line(p))
}

proof fn lemma_param_reads_back(p: (Seq<char>, Seq<char>))
    requires
        param_ok(p),
    ensures
        trim(param_segment(p)) == param_segment(p),
        param_of(param_segment(p)) == p,
{
    let seg = param_segment(p);
    if p.0.len() > 0 {
        assert(seg[0] == p.0[0]);
    } else {
        assert(seg[0] == '=');
    }
    if p.1.len() > 0 {
        assert(seg.last() == p.1.last());
    } else {
        assert(seg.last() == '=');
    }
    lemma_trim_id(seg);
    lemma_param_of(p);
    lemma_upper_ascii(p.0);
    lemma_no_delims_quote(p.1);
}

proof fn lemma_params_read_back(ps: Seq<(Seq<char>, Seq<char>)>)
    requires
        forall|i: int| 0 <= i < ps.len() ==> param_ok(#[trigger] ps[i]),
    ensures
        params_of(ps.map_values(|p: (Seq<char>, Seq<char>)| trim(param_segment(p)))) == ps,
{
    let segs = ps.map_values(|p: (Seq<char>, Seq<char>)| trim(param_segment(p)));
    assert forall|i: int| 0 <= i < ps.len() implies #[trigger] params_of(segs)[i] == ps[i] by {
        lemma_param_reads_back(ps[i]);
    }
    assert(params_of(segs) =~= ps);
}

proof fn lemma_prop_line(st: (Option<Seq<char>>, VTODOView), p: IcalPropView)
    requires
        prop_ok(p),
    ensures
        apply_line(st, prop_line(p)) == (st.0, VTODOView { extra_props: st.1.extra_props.push(p), ..st.1 }),
        plain_line(prop_line(p)),
{
    let name = p.name;
    let ps = p.params;
    let l = prop_line(p);
    let pre = name + params_text(ps);
    assert(l =~= pre + seq![':'] + p.value);
    assert forall|i: int| 0 <= i < ps.len() implies segment_ok(#[trigger] ps[i]) && no_breaks(ps[i].0) && no_breaks(
        ps[i].1,
    ) by {
        assert(param_ok(ps[i]));
    }
    lemma_params_text_chars(ps);
    assert(no_colon_quote(name));
    lemma_no_colon_quote_concat(name, params_text(ps));
    lemma_no_breaks_concat(name, params_text(ps));
    lemma_colon_after(pre, p.value);
    assert(l.take(pre.len() as int) =~= pre);
    assert(l.skip(pre.len() as int + 1) =~= p.value);
    lemma_trim_id(name);
    lemma_split_params(name, ps, Seq::empty());
    let segs = split_params_spec(pre);
    lemma_params_read_back(ps);
    assert(segs.drop_first() =~= ps.map_values(|q: (Seq<char>, Seq<char>)| trim(param_segment(q))));
    lemma_upper_ascii(name);
    assert(segs[0] == name);
    assert(property_line_spec(l) == Some((name, ps, p.value)));
    lemma_no_breaks_concat(pre, seq![':']);
    lemma_no_breaks_concat(pre + seq![':'], p.value);
    assert(plain_line(l)) by {
        assert(l[0] == name[0]);
    }
    lemma_apply_plain(st, l);
}

proof fn lemma_scan_related(st: (Option<Seq<char>>, VTODOView), ds: Seq<(RelTypeView, Seq<char>)>)
    requires
        forall|i: int| 0 <= i < ds.len() ==> relation_ok(#[trigger] ds[i]),
    ensures
        scan_lines(st, related_lines(ds)) == (st.0, VTODOView { depends: st.1.depends + ds, ..st.1 }),
        forall|i: int| 0 <= i < related_lines(ds).len() ==> plain_line(#[trigger] related_lines(ds)[i]) && marker_free(
            related_lines(ds)[i],
        ),
    decreases ds.len(),
{
    if ds.len() == 0 {
        assert(related_lines(ds) =~= Seq::<Seq<char>>::empty());
        assert(st.1.depends + ds =~= st.1.depends);
        assert(VTODOView { depends: st.1.depends + ds, ..st.1 } == st.1);
    } else {
        let init = ds.drop_last();
        assert forall|i: int| 0 <= i < init.len() implies relation_ok(#[trigger] init[i]) by {
            assert(init[i] == ds[i]);
        }
        lemma_scan_related(st, init);
        assert(related_lines(ds).drop_last() =~= related_lines(init));
        let mid = scan_lines(st, related_lines(init));
        assert(relation_ok(ds[ds.len() - 1]));
        lemma_related_line(mid, ds.last());
        assert(st.1.depends + init.push(ds.last()) =~= st.1.depends + ds);
        assert(init.push(ds.last()) =~= ds);
        assert((st.1.depends + init).push(ds.last()) =~= st.1.depends + ds);
        assert forall|i: int| 0 <= i < related_lines(ds).len() implies plain_line(#[trigger] related_lines(ds)[i])
            && marker_free(related_lines(ds)[i]) by {
            if i < init.len() {
                assert(related_lines(ds)[i] == related_lines(init)[i]);
            }
        }
    }
}

proof fn lemma_scan_props(st: (Option<Seq<char>>, VTODOView), ps: Seq<IcalPropView>)
    requires
        forall|i: int| 0 <= i < ps.len() ==> prop_ok(#[trigger] ps[i]),
    ensures
        scan_lines(st, prop_lines(ps)) == (st.0, VTODOView { extra_props: st.1.extra_props + ps, ..st.1 }),
        forall|i: int| 0 <= i < prop_lines(ps).len() ==> plain_line(#[trigger] prop_lines(ps)[i]) && marker_free(
            prop_lines(ps)[i],
        ),
    decreases ps.len(),
{
    if ps.len() == 0 {
        assert(prop_lines(ps) =~= Seq::<Seq<char>>::empty());
        assert(st.1.extra_props + ps =~= st.1.extra_props);
        assert(VTODOView { extra_props: st.1.extra_props + ps, ..st.1 } == st.1);
    } else {
        let init = ps.drop_last();
        assert forall|i: int| 0 <= i < init.len() implies prop_ok(#[trigger] init[i]) by {
            assert(init[i] == ps[i]);
        }
        lemma_scan_props(st, init);
        assert(prop_lines(ps).drop_last() =~= prop_lines(init));
        let mid = scan_lines(st, prop_lines(init));
        assert(prop_ok(ps[ps.len() - 1]));
        lemma_prop_line(mid, ps.last());
        assert(init.push(ps.last()) =~= ps);
        assert((st.1.extra_props + init).push(ps.last()) =~= st.1.extra_props + ps);
        assert forall|i: int| 0 <= i < prop_lines(ps).len() implies plain_line(#[trigger] prop_lines(ps)[i])
            && marker_free(prop_lines(ps)[i]) by {
            if i < init.len() {
                assert(prop_lines(ps)[i] == prop_lines(init)[i]);
            } else {
                assert(prop_lines(ps)[i] == prop_line(ps[i]));
            }
        }
    }
}


/// All lines plain and free of the `END:VTODO` marker.
pub open spec fn lines_ok(ls: Seq<Seq<char>>) -> bool {
    forall|i: int| 0 <= i < ls.len() ==> plain_line(#[trigger] ls[i]) && marker_free(ls[i])
}

proof fn lemma_lines_ok_concat(a: Seq<Seq<char>>, b: Seq<Seq<char>>)
    requires
        lines_ok(a),
        lines_ok(b),
    ensures
        lines_ok(a + b),
{
    assert forall|i: int| 0 <= i < (a + b).len() implies plain_line(#[trigger] (a + b)[i]) && marker_free((a + b)[i]) by {
        if i < a.len() {
            assert((a + b)[i] == a[i]);
        } else {
            assert((a + b)[i] == b[i - a.len()]);
        }
    }
}

/// Text written escaped fits when it has no carriage return and its escaped form holds no
/// `END:VTODO` marker.
pub open spec fn text_ok(o: Option<Seq<char>>) -> bool {
    match o {
        Some(s) => no_cr(s) && marker_free(escape_spec(s)),
        None => true,
    }
}

/// Text written as it is fits when it has no line break and no `END:VTODO` marker.
pub open spec fn raw_ok(o: Option<Seq<char>>) -> bool {
    match o {
        Some(s) => no_breaks(s) && marker_free(s),
        None => true,
    }
}

/// The escaped text of an optional value.
pub open spec fn escaped(o: Option<Seq<char>>) -> Option<Seq<char>> {
    match o {
        Some(s) => Some(escape_spec(s)),
        None => None,
    }
}

proof fn lemma_scan_text(st: (Option<Seq<char>>, VTODOView), v: VTODOView)
    requires
        text_ok(v.summary),
        text_ok(v.description),
        raw_ok(v.status),
    ensures
        scan_lines(st, text_lines(v)) == (st.0, VTODOView {
            summary: keep_or(v.summary, st.1.summary),
            description: keep_or(v.description, st.1.description),
            status: keep_or(v.status, st.1.status),
            ..st.1
        }),
        lines_ok(text_lines(v)),
{
    lemma_key_prefixes_a();
    let a = opt_line("SUMMARY:"@, escaped(v.summary));
    let b = opt_line("DESCRIPTION:"@, escaped(v.description));
    let c = opt_line("STATUS:"@, v.status);
    assert(text_lines(v) == a + b + c);
    lemma_scan_lines_concat(st, a + b, c);
    lemma_scan_lines_concat(st, a, b);
    let st1 = scan_lines(st, a);
    let st2 = scan_lines(st1, b);
    match v.summary {
        Some(x) => {
            lemma_scan_single(st, "SUMMARY:"@ + escape_spec(x));
            lemma_summary_line(st, x);
            lemma_marker_after("SUMMARY:"@, escape_spec(x));
        },
        None => {},
    }
    match v.description {
        Some(x) => {
            lemma_scan_single(st1, "DESCRIPTION:"@ + escape_spec(x));
            lemma_description_line(st1, x);
            lemma_marker_after("DESCRIPTION:"@, escape_spec(x));
        },
        None => {},
    }
    match v.status {
        Some(x) => {
            lemma_scan_single(st2, "STATUS:"@ + x);
            lemma_status_line(st2, x);
            lemma_marker_after("STATUS:"@, x);
        },
        None => {},
    }
    lemma_lines_ok_concat(a, b);
    lemma_lines_ok_concat(a + b, c);
}

/// The instant of an optional time reads back.
pub open spec fn opt_reads_back(o: Option<Timestamp>) -> bool {
    match o {
        Some(t) => reads_back(t),
        None => true,
    }
}

proof fn lemma_time_line_ok(p: Seq<char>, t: Timestamp)
    requires
        prefix_ok(p),
        reads_back(t),
    ensures
        marker_free(p + ical_time(t)),
{
    lemma_time_text(t);
    lemma_no_e(ical_time(t));
    lemma_marker_after(p, ical_time(t));
}

proof fn lemma_scan_time(st: (Option<Seq<char>>, VTODOView), v: VTODOView)
    requires
        opt_reads_back(v.last_modified),
        opt_reads_back(v.dtstart),
        opt_reads_back(v.due),
        opt_reads_back(v.completed),
    ensures
        scan_lines(st, time_lines(v)) == (st.0, VTODOView {
            last_modified: keep_or(v.last_modified, st.1.last_modified),
            dtstart: keep_or(v.dtstart, st.1.dtstart),
            dtstart_is_date_only: if v.dtstart is Some { false } else { st.1.dtstart_is_date_only },
            due: keep_or(v.due, st.1.due),
            due_is_date_only: if v.due is Some { false } else { st.1.due_is_date_only },
            completed: keep_or(v.completed, st.1.completed),
            ..st.1
        }),
        lines_ok(time_lines(v)),
{
    lemma_key_prefixes_b();
    let a = opt_time_line("LAST-MODIFIED:"@, v.last_modified);
    let b = opt_time_line("DTSTART:"@, v.dtstart);
    let c = opt_time_line("DUE:"@, v.due);
    let d = opt_time_line("COMPLETED:"@, v.completed);
    assert(time_lines(v) == a + b + c + d);
    lemma_scan_lines_concat(st, a + b + c, d);
    lemma_scan_lines_concat(st, a + b, c);
    lemma_scan_lines_concat(st, a, b);
    let st1 = scan_lines(st, a);
    let st2 = scan_lines(st1, b);
    let st3 = scan_lines(st2, c);
    match v.last_modified {
        Some(t) => {
            lemma_scan_single(st, "LAST-MODIFIED:"@ + ical_time(t));
            lemma_last_modified_line(st, t);
            lemma_time_line_ok("LAST-MODIFIED:"@, t);
        },
        None => {},
    }
    match v.dtstart {
        Some(t) => {
            lemma_scan_single(st1, "DTSTART:"@ + ical_time(t));
            lemma_dtstart_line(st1, t);
            lemma_time_line_ok("DTSTART:"@, t);
        },
        None => {},
    }
    match v.due {
        Some(t) => {
            lemma_scan_single(st2, "DUE:"@ + ical_time(t));
            lemma_due_line(st2, t);
            lemma_time_line_ok("DUE:"@, t);
        },
        None => {},
    }
    match v.completed {
        Some(t) => {
            lemma_scan_single(st3, "COMPLETED:"@ + ical_time(t));
            lemma_completed_line(st3, t);
            lemma_time_line_ok("COMPLETED:"@, t);
        },
        None => {},
    }
    lemma_lines_ok_concat(a, b);
    lemma_lines_ok_concat(a + b, c);
    lemma_lines_ok_concat(a + b + c, d);
}

/// The written priority text.
pub open spec fn priority_text(o: Option<u8>) -> Option<Seq<char>> {
    match o {
        Some(p) => Some(decimal(p as nat)),
        None => None,
    }
}

proof fn lemma_scan_misc(st: (Option<Seq<char>>, VTODOView), v: VTODOView)
    requires
        forall|i: int| 0 <= i < v.categories.len() ==> category_ok(#[trigger] v.categories[i]),
        v.categories.len() > 0 ==> marker_free(join_commas(escape_all(v.categories))),
        raw_ok(v.rrule),
        v.priority matches Some(p) ==> p > 0,
    ensures
        scan_lines(st, misc_lines(v)) == (st.0, VTODOView {
            categories: st.1.categories + v.categories,
            rrule: keep_or(v.rrule, st.1.rrule),
            priority: keep_or(v.priority, st.1.priority),
            ..st.1
        }),
        lines_ok(misc_lines(v)),
{
    lemma_key_prefixes_c();
    let a = if v.categories.len() > 0 {
        seq!["CATEGORIES:"@ + join_commas(escape_all(v.categories))]
    } else {
        Seq::empty()
    };
    let b = opt_line("RRULE:"@, v.rrule);
    let c = opt_line("PRIORITY:"@, priority_text(v.priority));
    assert(misc_lines(v) == a + b + c);
    lemma_scan_lines_concat(st, a + b, c);
    lemma_scan_lines_concat(st, a, b);
    let st1 = scan_lines(st, a);
    let st2 = scan_lines(st1, b);
    if v.categories.len() > 0 {
        let j = join_commas(escape_all(v.categories));
        lemma_scan_single(st, "CATEGORIES:"@ + j);
        lemma_categories_line(st, v.categories);
        lemma_marker_after("CATEGORIES:"@, j);
    } else {
        assert(st.1.categories + v.categories =~= st.1.categories);
        assert(VTODOView { categories: st.1.categories + v.categories, ..st.1 } == st.1);
    }
    match v.rrule {
        Some(x) => {
            lemma_scan_single(st1, "RRULE:"@ + x);
            lemma_rrule_line(st1, x);
            lemma_marker_after("RRULE:"@, x);
        },
        None => {},
    }
    match v.priority {
        Some(p) => {
            lemma_scan_single(st2, "PRIORITY:"@ + decimal(p as nat));
            lemma_priority_line(st2, p);
            lemma_priority_text(p);
            lemma_no_e(decimal(p as nat));
            lemma_marker_after("PRIORITY:"@, decimal(p as nat));
        },
        None => {},
    }
    lemma_lines_ok_concat(a, b);
    lemma_lines_ok_concat(a + b, c);
}


proof fn lemma_fixed_lines()
    ensures
        forall|i: int| 0 <= i < preamble().len() ==> plain_line(#[trigger] preamble()[i]),
        plain_line("BEGIN:VTODO"@),
        plain_line("END:VTODO"@),
        plain_line("END:VCALENDAR"@),
{
    reveal_strlit("BEGIN:VCALENDAR");
    reveal_strlit("VERSION:2.0");
    reveal_strlit("PRODID:-//caldawarrior//EN");
    reveal_strlit("BEGIN:VTODO");
    reveal_strlit("END:VTODO");
    reveal_strlit("END:VCALENDAR");
}

/// A VTODO whose every field the writer writes and the reader reads back as it is: a UID,
/// STATUS and RRULE without line breaks; SUMMARY and DESCRIPTION without carriage returns;
/// neither of them, nor the categories, relations or kept properties, holding the
/// `END:VTODO` marker once written; categories fit to be read back; no zero PRIORITY (which
/// reads as none); no DATE-only flags (the writer writes date-times); relations and kept
/// properties fit to be read back.
pub open spec fn round_trip_ok(v: VTODOView) -> bool {
    &&& raw_ok(Some(v.uid))
    &&& text_ok(v.summary)
    &&& text_ok(v.description)
    &&& raw_ok(v.status)
    &&& !v.due_is_date_only
    &&& !v.dtstart_is_date_only
    &&& forall|i: int| 0 <= i < v.categories.len() ==> category_ok(#[trigger] v.categories[i])
    &&& (v.categories.len() > 0 ==> marker_free(join_commas(escape_all(v.categories))))
    &&& raw_ok(v.rrule)
    &&& (v.priority matches Some(p) ==> p > 0)
    &&& forall|i: int| 0 <= i < v.depends.len() ==> relation_ok(#[trigger] v.depends[i])
    &&& forall|i: int| 0 <= i < v.extra_props.len() ==> prop_ok(#[trigger] v.extra_props[i])
}

/// The stamp and every instant of the VTODO are written in a form that reads back.
pub open spec fn times_read_back(v: VTODOView, dtstamp: Timestamp) -> bool {
    &&& reads_back(dtstamp)
    &&& opt_reads_back(v.last_modified)
    &&& opt_reads_back(v.dtstart)
    &&& opt_reads_back(v.due)
    &&& opt_reads_back(v.completed)
}

/// What the reader gives back of the text written for `v`: `v` itself, stamped.
pub open spec fn stamped(v: VTODOView, dtstamp: Timestamp) -> VTODOView {
    VTODOView { dtstamp: Some(dtstamp), ..v }
}

/// Reading back the text written for a VTODO gives the VTODO, with DTSTAMP set to the
/// stamp it was written with, for every VTODO whose fields fit (`round_trip_ok`) when the
/// instants are written in a form that reads back.
pub proof fn lemma_round_trip(v: VTODOView, dtstamp: Timestamp)
    requires
        round_trip_ok(v),
        times_read_back(v, dtstamp),
    ensures
        vtodo_from_ical(ical_text(v, dtstamp)) == Ok::<VTODOView, Seq<char>>(stamped(v, dtstamp)),
{
    lemma_key_prefixes_a();
    let st0: (Option<Seq<char>>, VTODOView) = (None, empty_vtodo());
    let l0 = "DTSTAMP:"@ + ical_time(dtstamp);
    let l1 = "UID:"@ + v.uid;
    let h = seq![l0, l1];
    let t = text_lines(v);
    let tm = time_lines(v);
    let m = misc_lines(v);
    let r = related_lines(v.depends);
    let pr = prop_lines(v.extra_props);
    let body = body_lines(v, dtstamp);
    assert(body == h + t + tm + m + r + pr);
    // the head
    lemma_scan_lines_concat(st0, seq![l0], seq![l1]);
    assert(seq![l0] + seq![l1] =~= h);
    lemma_scan_single(st0, l0);
    lemma_dtstamp_line(st0, dtstamp);
    let sa = apply_line(st0, l0);
    lemma_scan_single(sa, l1);
    lemma_uid_line(sa, v.uid);
    let s1 = scan_lines(st0, h);
    assert(s1 == (Some(v.uid), VTODOView { dtstamp: Some(dtstamp), ..empty_vtodo() }));
    lemma_time_line_ok("DTSTAMP:"@, dtstamp);
    lemma_marker_after("UID:"@, v.uid);
    assert(lines_ok(h));
    // the other parts
    lemma_scan_text(s1, v);
    let s2 = scan_lines(s1, t);
    lemma_scan_time(s2, v);
    let s3 = scan_lines(s2, tm);
    lemma_scan_misc(s3, v);
    let s4 = scan_lines(s3, m);
    lemma_scan_related(s4, v.depends);
    let s5 = scan_lines(s4, r);
    lemma_scan_props(s5, v.extra_props);
    let s6 = scan_lines(s5, pr);
    lemma_scan_lines_concat(st0, h, t);
    lemma_scan_lines_concat(st0, h + t, tm);
    lemma_scan_lines_concat(st0, h + t + tm, m);
    lemma_scan_lines_concat(st0, h + t + tm + m, r);
    lemma_scan_lines_concat(st0, h + t + tm + m + r, pr);
    assert(scan_lines(st0, body) == s6);
    // every line carries over
    assert(lines_ok(r));
    assert(lines_ok(pr));
    lemma_lines_ok_concat(h, t);
    lemma_lines_ok_concat(h + t, tm);
    lemma_lines_ok_concat(h + t + tm, m);
    lemma_lines_ok_concat(h + t + tm + m, r);
    lemma_lines_ok_concat(h + t + tm + m + r, pr);
    lemma_fixed_lines();
    lemma_ical_lines_parts(v, dtstamp);
    let ls = ical_lines(v, dtstamp);
    assert forall|i: int| 0 <= i < ls.len() implies plain_line(#[trigger] ls[i]) by {
        if i < 3 {
            assert(ls[i] == preamble()[i]);
        } else if i == 3 {
            assert(ls[i] == "BEGIN:VTODO"@);
        } else if i < 4 + body.len() {
            assert(ls[i] == body[i - 4]);
        } else if i == 4 + body.len() {
            assert(ls[i] == "END:VTODO"@);
        } else {
            assert(ls[i] == "END:VCALENDAR"@);
        }
    }
    assert forall|i: int| 0 <= i < body.len() implies !has_substring(#[trigger] body[i], end_marker()) by {
        assert(marker_free(body[i]));
    }
    lemma_read_body(v, dtstamp);
    // the VTODO read back
    let fin = s6.1;
    assert(fin.categories =~= v.categories);
    assert(fin.depends =~= v.depends);
    assert(fin.extra_props =~= v.extra_props);
    assert(VTODOView { uid: v.uid, ..fin } == stamped(v, dtstamp));
}


/// An optional instant with a four-digit year, when present.
pub open spec fn opt_four_digit(o: Option<Timestamp>) -> bool {
    match o {
        Some(t) => crate::trusted::four_digit_year(t),
        None => true,
    }
}

/// The stamp and every instant of the VTODO lie in the years 1 to 9999.
pub open spec fn times_fit(v: VTODOView, dtstamp: Timestamp) -> bool {
    &&& crate::trusted::four_digit_year(dtstamp)
    &&& opt_four_digit(v.last_modified)
    &&& opt_four_digit(v.dtstart)
    &&& opt_four_digit(v.due)
    &&& opt_four_digit(v.completed)
}

} // verus!
