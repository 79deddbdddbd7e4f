//! Calls into the uuid, chrono and chrono-tz crates and into std functions that
//! vstd leaves unspecified. Each item states what the called function is relied on to do.
use vstd::prelude::*;

verus! {

/// The lower-case hexadecimal digit for a value in `0..16`.
pub open spec fn hex_char(n: int) -> char {
    if n < 10 {
        (n + 48) as char
    } else {
        (n + 87) as char
    }
}

/// The `k`-th hexadecimal digit of `u`, counted from the most significant one.
pub open spec fn uuid_digit(u: u128, k: int) -> int {
    (u as int / vstd::arithmetic::power::pow(16, (31 - k) as nat)) % 16
}

/// The hyphenated lower-case text form of a UUID, as `uuid::Uuid`'s `Display` renders it:
/// its 32 hexadecimal digits, most significant first, in groups of 8, 4, 4, 4 and 12
/// joined by hyphens.
#[verifier::opaque]
pub open spec fn uuid_text(u: u128) -> Seq<char> {
    Seq::new(
        36,
        |i: int|
            if i == 8 || i == 13 || i == 18 || i == 23 {
                '-'
            } else {
                hex_char(
                    uuid_digit(
                        u,
                        if i < 8 {
                            i
                        } else if i < 13 {
                            i - 1
                        } else if i < 18 {
                            i - 2
                        } else if i < 23 {
                            i - 3
                        } else {
                            i - 4
                        },
                    ),
                )
            },
    )
}

/// What `uuid::Uuid::parse_str` yields for a text, as the 128-bit value.
pub uninterp spec fn uuid_parse(s: Seq<char>) -> Option<u128>;

/// The characters of the hyphenated form: lower-case hexadecimal digits and hyphens.
pub open spec fn hyphenated_chars(s: Seq<char>) -> bool {
    &&& s.len() == 36
    &&& forall|i: int| 0 <= i < s.len() ==> ('0' <= #[trigger] s[i] <= '9') || ('a' <= s[i] <= 'f') || s[i] == '-'
}

/// The text form of a UUID has 36 characters, each a lower-case hexadecimal digit or a
/// hyphen.
pub proof fn lemma_uuid_text_chars(u: u128)
    ensures
        hyphenated_chars(uuid_text(u)),
{
    reveal(uuid_text);
    let s = uuid_text(u);
    assert forall|i: int| 0 <= i < s.len() implies ('0' <= #[trigger] s[i] <= '9') || ('a' <= s[i] <= 'f') || s[i]
        == '-' by {
        if !(i == 8 || i == 13 || i == 18 || i == 23) {
            let k = if i < 8 {
                i
            } else if i < 13 {
                i - 1
            } else if i < 18 {
                i - 2
            } else if i < 23 {
                i - 3
            } else {
                i - 4
            };
            vstd::arithmetic::power::lemma_pow_positive(16, (31 - k) as nat);
            let d = uuid_digit(u, k);
            assert(0 <= d < 16);
        }
    }
}

/// `uuid::Uuid::from_u128(u).to_string()`: the hyphenated form `uuid_text`, which
/// `parse_str` reads back to the same value.
#[verifier::external_body]
pub(crate) fn uuid_to_string(u: u128) -> (s: String)
    ensures
        s@ == uuid_text(u),
        uuid_parse(s@) == Some(u),
{
    uuid::Uuid::from_u128(u).to_string()
}

/// `s.parse::<uuid::Uuid>()` (that is, `Uuid::parse_str`), as the 128-bit value.
#[verifier::external_body]
pub(crate) fn parse_uuid(s: &str) -> (r: Option<u128>)
    ensures
        r == uuid_parse(s@),
{
    s.parse::<uuid::Uuid>().ok().map(|u| u.as_u128())
}

/// `uuid::Uuid::new_v4()`: a random UUID; nothing is promised of its value.
#[verifier::external_body]
pub(crate) fn new_uuid_v4() -> u128 {
    uuid::Uuid::new_v4().as_u128()
}

} // verus!

verus! {

/// The iCalendar UTC date-time form `YYYYMMDDTHHMMSSZ`.
pub open spec fn ical_utc_format() -> Seq<char> {
    "%Y%m%dT%H%M%SZ"@
}

/// What chrono's `format` renders for an instant with a given format string.
pub uninterp spec fn utc_format(secs: i64, fmt: Seq<char>) -> Seq<char>;

/// Instants from the start of year 1 to the end of year 9999, whose year chrono's `%Y`
/// writes as exactly four digits without a sign.
pub open spec fn four_digit_year(secs: i64) -> bool {
    -62135596800 <= secs <= 253402300799
}

/// The shape `YYYYMMDDTHHMMSSZ`: eight ASCII digits, `T`, six ASCII digits, `Z`.
pub open spec fn utc_text_shape(s: Seq<char>) -> bool {
    &&& s.len() == 16
    &&& forall|i: int| 0 <= i < 8 ==> '0' <= #[trigger] s[i] <= '9'
    &&& s[8] == 'T'
    &&& forall|i: int| 9 <= i < 15 ==> '0' <= #[trigger] s[i] <= '9'
    &&& s[15] == 'Z'
}

/// `DateTime::<Utc>::from_timestamp(secs, 0)` formatted with `fmt` (chrono's `format`).
/// For an instant with a four-digit year the text has the shape `YYYYMMDDTHHMMSSZ`, and
/// chrono's `NaiveDateTime::parse_from_str` with `%Y%m%dT%H%M%S` reads the text without
/// its `Z` back as the same instant, as it reads the whole text with `fmt` itself: `%Y`
/// without a sign is read as four digits.
#[verifier::external_body]
pub(crate) fn format_utc(secs: i64, fmt: &str) -> (s: String)
    requires
        fmt@ == ical_utc_format(),
    ensures
        s@ == utc_format(secs, fmt@),
        four_digit_year(secs) ==> utc_text_shape(s@) && naive_datetime_parse(s@.drop_last(), "%Y%m%dT%H%M%S"@)
            == Some(secs),
        four_digit_year(secs) ==> naive_datetime_parse(s@, fmt@) == Some(secs),
{
    chrono::DateTime::from_timestamp(secs, 0).map(|d| d.format(fmt).to_string()).unwrap_or_default()
}

/// What `chrono::NaiveDateTime::parse_from_str(s, fmt)` yields, as seconds since the epoch
/// read as UTC.
pub uninterp spec fn naive_datetime_parse(s: Seq<char>, fmt: Seq<char>) -> Option<i64>;

/// `NaiveDateTime::parse_from_str(s, fmt)`, then `.and_utc().timestamp()`.
#[verifier::external_body]
pub(crate) fn parse_naive_datetime(s: &str, fmt: &str) -> (r: Option<i64>)
    ensures
        r == naive_datetime_parse(s@, fmt@),
{
    chrono::NaiveDateTime::parse_from_str(s, fmt).ok().map(|d| d.and_utc().timestamp())
}

/// What `chrono::NaiveDate::parse_from_str(s, fmt)` yields, as the seconds of that day's
/// midnight read as UTC.
pub uninterp spec fn naive_date_parse(s: Seq<char>, fmt: Seq<char>) -> Option<i64>;

/// `NaiveDate::parse_from_str(s, fmt)`, then midnight `.and_utc().timestamp()`.
#[verifier::external_body]
pub(crate) fn parse_naive_date(s: &str, fmt: &str) -> (r: Option<i64>)
    ensures
        r == naive_date_parse(s@, fmt@),
{
    chrono::NaiveDate::parse_from_str(s, fmt).ok().and_then(|d| d.and_hms_opt(0, 0, 0)).map(|d| d.and_utc().timestamp())
}

/// For a zone name and a local wall-clock time (seconds as if UTC): `None` when
/// chrono-tz does not know the zone or the seconds name no date-time chrono can hold;
/// otherwise chrono's `from_local_datetime` result as its `single()` and `latest()`
/// instants.
pub uninterp spec fn zone_local_to_utc(tzid: Seq<char>, local: i64) -> Option<(Option<i64>, Option<i64>)>;

/// `tzid.parse::<chrono_tz::Tz>()`, then `tz.from_local_datetime(..)` read by `single()`
/// and `latest()`.
#[verifier::external_body]
pub(crate) fn local_to_utc_in_zone(tzid: &str, local: i64) -> (r: Option<(Option<i64>, Option<i64>)>)
    ensures
        r == zone_local_to_utc(tzid@, local),
{
    let tz: chrono_tz::Tz = tzid.parse().ok()?;
    let naive = chrono::DateTime::from_timestamp(local, 0)?.naive_utc();
    let mapped = chrono::TimeZone::from_local_datetime(&tz, &naive);
    Some((mapped.single().map(|d| d.timestamp()), mapped.latest().map(|d| d.timestamp())))
}

/// `chrono::Utc::now().timestamp()`: the current time; nothing is promised of its value.
#[verifier::external_body]
pub(crate) fn utc_now() -> i64 {
    chrono::Utc::now().timestamp()
}

/// What `str`'s `Debug` renders: the text quoted, with escapes.
pub uninterp spec fn str_debug(s: Seq<char>) -> Seq<char>;

/// `format!("{:?}", s)` for a string slice.
#[verifier::external_body]
pub(crate) fn debug_str(s: &str) -> (r: String)
    ensures
        r@ == str_debug(s@),
{
    format!("{:?}", s)
}

/// What `str::to_uppercase` yields (Unicode upper case).
pub uninterp spec fn unicode_upper(s: Seq<char>) -> Seq<char>;

/// Upper case as `str::to_uppercase` gives it: on ASCII text the same as
/// `to_ascii_uppercase`.
pub open spec fn upper_text(s: Seq<char>) -> Seq<char> {
    if vstd::utf8::is_ascii_chars(s) {
        crate::text::ascii_upper(s)
    } else {
        unicode_upper(s)
    }
}

/// `str::to_uppercase`; on ASCII text it agrees with `to_ascii_uppercase`.
#[verifier::external_body]
pub(crate) fn to_uppercase(s: &str) -> (r: String)
    ensures
        vstd::utf8::is_ascii_chars(s@) ==> r@ == crate::text::ascii_upper(s@),
        !vstd::utf8::is_ascii_chars(s@) ==> r@ == unicode_upper(s@),
{
    s.to_uppercase()
}

/// What `str::to_lowercase` yields (Unicode lower case).
pub uninterp spec fn unicode_lower(s: Seq<char>) -> Seq<char>;

/// Lower case as `str::to_lowercase` gives it: on ASCII text the same as
/// `to_ascii_lowercase`.
pub open spec fn lower_text(s: Seq<char>) -> Seq<char> {
    if vstd::utf8::is_ascii_chars(s) {
        crate::text::ascii_lower(s)
    } else {
        unicode_lower(s)
    }
}

/// `str::to_lowercase`; on ASCII text it agrees with `to_ascii_lowercase`.
#[verifier::external_body]
pub(crate) fn to_lowercase(s: &str) -> (r: String)
    ensures
        vstd::utf8::is_ascii_chars(s@) ==> r@ == crate::text::ascii_lower(s@),
        !vstd::utf8::is_ascii_chars(s@) ==> r@ == unicode_lower(s@),
{
    s.to_lowercase()
}

} // verus!
