//! Reading and writing property values: date-times, DATE-only detection and priorities.
use vstd::prelude::*;
use vstd::string::StringExecFns;
use crate::ical::text::{byte_len, char_width, utf8_width};
use crate::text::{chars_of, eq_ignore_ascii_case, has_char, ascii_lower, str_eq, string_of_range, trim, trim_bounds};
use crate::trusted::{
    format_utc, four_digit_year, ical_utc_format, local_to_utc_in_zone, utc_text_shape, naive_date_parse, naive_datetime_parse, parse_naive_date,
    parse_naive_datetime, to_uppercase, upper_text, utc_format, zone_local_to_utc,
};
use crate::types::Timestamp;

verus! {

proof fn lemma_byte_len_add(a: Seq<char>, b: Seq<char>)
    ensures
        byte_len(a + b) == byte_len(a) + byte_len(b),
    decreases a.len(),
{
    if a.len() == 0 {
        assert(a + b =~= b);
    } else {
        assert((a + b).drop_first() =~= a.drop_first() + b);
        lemma_byte_len_add(a.drop_first(), b);
    }
}

/// Whether a character vector is exactly `n` UTF-8 bytes long.
pub fn has_byte_len(v: &Vec<char>, n: usize) -> (r: bool)
    ensures
        r == (byte_len(v@) == n),
{
    let mut acc: usize = 0;
    let mut i: usize = 0;
    assert(v@.take(0) =~= Seq::<char>::empty());
    while i < v.len()
        invariant
            i <= v.len(),
            acc == byte_len(v@.take(i as int)),
            acc <= n,
        decreases v.len() - i,
    {
        let w = char_width(v[i]);
        proof {
            assert(v@.take(i + 1) =~= v@.take(i as int) + seq![v@[i as int]]);
            lemma_byte_len_add(v@.take(i as int), seq![v@[i as int]]);
            assert(byte_len(seq![v@[i as int]]) == utf8_width(v@[i as int])) by {
                assert(seq![v@[i as int]].drop_first() =~= Seq::<char>::empty());
                assert(byte_len(Seq::<char>::empty()) == 0);
            }
        }
        if w > n - acc {
            proof {
                assert(v@ =~= v@.take(i + 1) + v@.skip(i + 1));
                lemma_byte_len_add(v@.take(i + 1), v@.skip(i + 1));
            }
            return false;
        }
        acc = acc + w;
        i += 1;
    }
    assert(v@.take(v.len() as int) =~= v@);
    acc == n
}

/// The value of a parameter: the first whose upper-cased key equals `key`.
pub open spec fn find_param(ps: Seq<(Seq<char>, Seq<char>)>, key: Seq<char>) -> Option<Seq<char>>
    decreases ps.len(),
{
    if ps.len() == 0 {
        None
    } else if upper_text(ps[0].0) == key {
        Some(ps[0].1)
    } else {
        find_param(ps.drop_first(), key)
    }
}

/// Some parameter is `VALUE=DATE`, compared without regard to ASCII case.
pub open spec fn has_value_date(ps: Seq<(Seq<char>, Seq<char>)>) -> bool {
    exists|i: int|
        0 <= i < ps.len() && ascii_lower(#[trigger] ps[i].0) == ascii_lower("VALUE"@) && ascii_lower(ps[i].1)
            == ascii_lower("DATE"@)
}

/// A DATE value: `VALUE=DATE`, or a value of exactly 8 bytes after trimming, without `T`.
pub open spec fn date_only_spec(value: Seq<char>, ps: Seq<(Seq<char>, Seq<char>)>) -> bool {
    has_value_date(ps) || (byte_len(trim(value)) == 8 && !has_char(trim(value), 'T'))
}

/// `is_date_only_value`: whether a date-time property carries a DATE-only value.
pub fn is_date_only_value(value: &str, params: &Vec<(String, String)>) -> (r: bool)
    ensures
        r == date_only_spec(value@, crate::types::params_view(params@)),
{
    let ghost ps = crate::types::params_view(params@);
    let mut i: usize = 0;
    while i < params.len()
        invariant
            i <= params.len(),
            ps == crate::types::params_view(params@),
            forall|j: int|
                0 <= j < i ==> !(ascii_lower(#[trigger] ps[j].0) == ascii_lower("VALUE"@) && ascii_lower(ps[j].1)
                    == ascii_lower("DATE"@)),
        decreases params.len() - i,
    {
        if eq_ignore_ascii_case(params[i].0.as_str(), "VALUE") && eq_ignore_ascii_case(params[i].1.as_str(), "DATE") {
            assert(ps[i as int].0 == params@[i as int].0@);
            return true;
        }
        i += 1;
    }
    let v = chars_of(value);
    let (a, b) = trim_bounds(&v);
    let t = string_of_range(&v, a, b);
    let tv = chars_of(t.as_str());
    let eight = has_byte_len(&tv, 8);
    eight && !crate::text::contains_char(&tv, 'T')
}

/// The iCalendar local date-time form `YYYYMMDDTHHMMSS`.
pub open spec fn naive_format() -> Seq<char> {
    "%Y%m%dT%H%M%S"@
}

/// The iCalendar DATE form `YYYYMMDD`.
pub open spec fn date_format() -> Seq<char> {
    "%Y%m%d"@
}

/// The text without one trailing `Z`, if it ends with one.
pub open spec fn drop_z(s: Seq<char>) -> Seq<char> {
    if s.len() > 0 && s.last() == 'Z' {
        s.drop_last()
    } else {
        s
    }
}

/// The instant a date-time value stands for: with a `TZID` parameter, the local time in that
/// zone (the unambiguous instant, else the later of two, else the wall clock read as UTC; no
/// instant for an unknown zone); with a `Z` suffix, UTC; an 8-byte value without `T` as a
/// date at midnight UTC; otherwise a floating time read as UTC.
pub open spec fn datetime_spec(value: Seq<char>, ps: Seq<(Seq<char>, Seq<char>)>) -> Option<Timestamp> {
    let v = trim(value);
    match find_param(ps, "TZID"@) {
        Some(tz) => match naive_datetime_parse(drop_z(v), naive_format()) {
            None => None,
            Some(local) => match zone_local_to_utc(tz, local) {
                None => None,
                Some(m) => Some(
                    match m.0 {
                        Some(x) => x,
                        None => match m.1 {
                            Some(y) => y,
                            None => local,
                        },
                    },
                ),
            },
        },
        None => if v.len() > 0 && v.last() == 'Z' && naive_datetime_parse(v.drop_last(), naive_format()) is Some {
            naive_datetime_parse(v.drop_last(), naive_format())
        } else if byte_len(v) == 8 && !has_char(v, 'T') && naive_date_parse(v, date_format()) is Some {
            naive_date_parse(v, date_format())
        } else {
            naive_datetime_parse(v, naive_format())
        },
    }
}

fn find_tzid(params: &Vec<(String, String)>) -> (r: Option<usize>)
    ensures
        match r {
            Some(i) => i < params.len() && find_param(crate::types::params_view(params@), "TZID"@) == Some(
                params@[i as int].1@,
            ),
            None => find_param(crate::types::params_view(params@), "TZID"@) is None,
        },
{
    let ghost ps = crate::types::params_view(params@);
    let mut i: usize = 0;
    assert(ps.skip(0) =~= ps);
    while i < params.len()
        invariant
            i <= params.len(),
            ps == crate::types::params_view(params@),
            find_param(ps, "TZID"@) == find_param(ps.skip(i as int), "TZID"@),
        decreases params.len() - i,
    {
        assert(ps.skip(i as int).drop_first() =~= ps.skip(i + 1));
        let k = to_uppercase(params[i].0.as_str());
        if str_eq(k.as_str(), "TZID") {
            return Some(i);
        }
        i += 1;
    }
    None
}

/// `parse_datetime_with_params`: reads a date-time value, honouring `TZID`, the UTC
/// suffix `Z`, DATE-only values and floating times.
pub fn parse_datetime_with_params(value: &str, params: &Vec<(String, String)>) -> (r: Option<Timestamp>)
    ensures
        r == datetime_spec(value@, crate::types::params_view(params@)),
{
    let v = chars_of(value);
    let (a, b) = trim_bounds(&v);
    let t = string_of_range(&v, a, b);
    let tv = chars_of(t.as_str());
    let n = tv.len();
    let ends_z = n > 0 && tv[n - 1] == 'Z';
    proof {
        reveal_strlit("%Y%m%dT%H%M%S");
        reveal_strlit("%Y%m%d");
    }
    match find_tzid(params) {
        Some(i) => {
            let s = if ends_z {
                let s = string_of_range(&tv, 0, n - 1);
                assert(tv@.subrange(0, n - 1) =~= tv@.drop_last());
                s
            } else {
                string_of_range(&tv, 0, n)
            };
            assert(tv@.subrange(0, n as int) =~= tv@);
            let local = match parse_naive_datetime(s.as_str(), "%Y%m%dT%H%M%S") {
                Some(l) => l,
                None => return None,
            };
            match local_to_utc_in_zone(params[i].1.as_str(), local) {
                None => None,
                Some(m) => Some(
                    match m.0 {
                        Some(x) => x,
                        None => match m.1 {
                            Some(y) => y,
                            None => local,
                        },
                    },
                ),
            }
        },
        None => {
            if ends_z {
                let s = string_of_range(&tv, 0, n - 1);
                assert(tv@.subrange(0, n - 1) =~= tv@.drop_last());
                match parse_naive_datetime(s.as_str(), "%Y%m%dT%H%M%S") {
                    Some(x) => return Some(x),
                    None => {},
                }
            }
            if has_byte_len(&tv, 8) && !crate::text::contains_char(&tv, 'T') {
                match parse_naive_date(t.as_str(), "%Y%m%d") {
                    Some(x) => return Some(x),
                    None => {},
                }
            }
            parse_naive_datetime(t.as_str(), "%Y%m%dT%H%M%S")
        },
    }
}

/// The iCalendar UTC text of an instant has the shape `YYYYMMDDTHHMMSSZ` and reads back,
/// without its `Z`, as the same instant.
pub open spec fn reads_back(t: Timestamp) -> bool {
    let s = utc_format(t, ical_utc_format());
    utc_text_shape(s) && naive_datetime_parse(s.drop_last(), naive_format()) == Some(t)
}

/// `format_datetime`: an instant in the iCalendar UTC form `YYYYMMDDTHHMMSSZ`.
pub fn format_datetime(t: Timestamp) -> (s: String)
    ensures
        s@ == utc_format(t, ical_utc_format()),
        four_digit_year(t) ==> reads_back(t),
        four_digit_year(t) ==> naive_datetime_parse(s@, ical_utc_format()) == Some(t),
{
    proof {
        reveal_strlit("%Y%m%dT%H%M%SZ");
    }
    format_utc(t, "%Y%m%dT%H%M%SZ")
}

// ---------------------------------------------------------------------------
// PRIORITY
// ---------------------------------------------------------------------------

/// The ASCII decimal digits.
pub open spec fn is_digit(c: char) -> bool {
    '0' <= c && c <= '9'
}

/// Value of a run of decimal digits.
pub open spec fn digits_value(s: Seq<char>) -> int
    decreases s.len(),
{
    if s.len() == 0 {
        0
    } else {
        digits_value(s.drop_last()) * 10 + ((s.last() as int) - ('0' as int))
    }
}

/// Every character is an ASCII digit.
pub open spec fn all_digits(d: Seq<char>) -> bool {
    forall|i: int| 0 <= i < d.len() ==> is_digit(#[trigger] d[i])
}

/// `str::parse::<u8>`: an optional `+` followed by one or more ASCII digits whose value is
/// at most 255.
pub open spec fn u8_from_str(s: Seq<char>) -> Option<u8> {
    let d = if s.len() > 0 && s[0] == '+' {
        s.drop_first()
    } else {
        s
    };
    if d.len() > 0 && all_digits(d) && digits_value(d) <= 255 {
        Some(digits_value(d) as u8)
    } else {
        None
    }
}

proof fn lemma_digits_value_grows(s: Seq<char>, i: int)
    requires
        0 <= i <= s.len(),
        forall|j: int| 0 <= j < s.len() ==> is_digit(#[trigger] s[j]),
    ensures
        digits_value(s.take(i)) <= digits_value(s),
        0 <= digits_value(s.take(i)),
    decreases s.len() - i,
{
    if i < s.len() {
        lemma_digits_value_grows(s, i + 1);
        assert(s.take(i + 1).drop_last() =~= s.take(i));
        lemma_digits_nonneg(s.take(i));
    } else {
        assert(s.take(i) =~= s);
        lemma_digits_nonneg(s);
    }
}

proof fn lemma_digits_nonneg(s: Seq<char>)
    requires
        forall|j: int| 0 <= j < s.len() ==> is_digit(#[trigger] s[j]),
    ensures
        0 <= digits_value(s),
    decreases s.len(),
{
    if s.len() > 0 {
        assert(is_digit(s[s.len() - 1]));
        lemma_digits_nonneg(s.drop_last());
    }
}

/// `s.parse::<u8>().ok()`: the value of an optional `+` and decimal digits up to 255.
pub fn parse_u8(s: &str) -> (r: Option<u8>)
    ensures
        r == u8_from_str(s@),
{
    let v = chars_of(s);
    let start: usize = if v.len() > 0 && v[0] == '+' {
        1
    } else {
        0
    };
    let ghost d = if v@.len() > 0 && v@[0] == '+' {
        v@.drop_first()
    } else {
        v@
    };
    assert(d =~= v@.skip(start as int));
    if start >= v.len() {
        return None;
    }
    let mut val: u32 = 0;
    let mut i: usize = start;
    assert(d.take(0) =~= Seq::<char>::empty());
    while i < v.len()
        invariant
            start <= i <= v.len(),
            v@ == s@,
            d == (if v@.len() > 0 && v@[0] == '+' {
                v@.drop_first()
            } else {
                v@
            }),
            d == v@.skip(start as int),
            forall|j: int| 0 <= j < i - start ==> is_digit(#[trigger] d[j]),
            val == digits_value(d.take(i - start)),
            val <= 255,
        decreases v.len() - i,
    {
        let c = v[i];
        assert(d[i - start] == c);
        if !('0' <= c && c <= '9') {
            assert(!is_digit(d[i - start]));
            assert(!all_digits(d));
            return None;
        }
        let digit = (c as u32) - ('0' as u32);
        assert(d.take(i - start + 1).drop_last() =~= d.take(i - start));
        let next = val * 10 + digit;
        if next > 255 {
            proof {
                assert(d.take(i - start + 1).last() == c);
                assert(digits_value(d.take(i - start + 1)) == next);
                if all_digits(d) {
                    lemma_digits_value_grows(d, i - start + 1);
                }
            }
            return None;
        }
        val = next;
        i += 1;
    }
    assert(d.take(i - start) =~= d);
    Some(val as u8)
}

} // verus!
