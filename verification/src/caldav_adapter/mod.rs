//! The CalDAV side: the client interface the sync engine writes through, and the decisions
//! a client makes on what the server answers.
pub mod multistatus;

pub use multistatus::parse_multistatus_vtodos;

use vstd::prelude::*;
use vstd::string::StringExecFns;
use crate::error::CaldaWarriorError;
use crate::ical::line::{trim_char, trim_char_range};
use crate::mapper::fields::strip_trailing;
use crate::text::{chars_of, has_substring, str_contains, str_starts_with, string_of_range, trim, trim_bounds};
use crate::trusted::{lower_text, to_lowercase};
use crate::types::{FetchedVTODO, FetchedVTODOView};

verus! {

/// The text after an optional weak-validator prefix `W/` or `w/`.
pub open spec fn strip_weak(s: Seq<char>) -> Seq<char> {
    if s.len() >= 2 && (s[0] == 'W' || s[0] == 'w') && s[1] == '/' {
        s.skip(2)
    } else {
        s
    }
}

/// An ETag as sent in `If-Match`: trimmed, without the weak prefix, quoted once.
pub open spec fn normalized_etag(raw: Seq<char>) -> Seq<char> {
    seq!['"'] + trim_char(strip_weak(trim(raw)), '"') + seq!['"']
}

/// `normalize_etag`: strips the weak indicator and wraps the tag in double quotes, so a weak
/// ETag can be used in `If-Match` (RFC 7232 §2.3.2).
pub fn normalize_etag(raw: &str) -> (r: String)
    ensures
        r@ == normalized_etag(raw@),
{
    let v = chars_of(raw);
    let (a, b) = trim_bounds(&v);
    let ghost t = v@.subrange(a as int, b as int);
    let start = if b - a >= 2 && (v[a] == 'W' || v[a] == 'w') && v[a + 1] == '/' {
        a + 2
    } else {
        a
    };
    assert(v@.subrange(start as int, b as int) =~= strip_weak(t));
    let inner = trim_char_range(&v, start, b, '"');
    let mut r = String::new();
    crate::text::push_char(&mut r, '"');
    r.append(inner.as_str());
    crate::text::push_char(&mut r, '"');
    assert(r@ =~= normalized_etag(raw@));
    r
}

/// A write sent to a CalDAV server: a PUT of iCalendar text, or a DELETE, at an href and
/// conditional on an ETag when one is given.
pub enum CalDavWrite {
    Put { href: Seq<char>, text: Seq<char>, etag: Option<Seq<char>> },
    Delete { href: Seq<char>, etag: Option<Seq<char>> },
}

/// An optional text, as a sequence of characters.
pub open spec fn opt_text(o: Option<&str>) -> Option<Seq<char>> {
    match o {
        Some(s) => Some(s@),
        None => None,
    }
}

/// What the sync engine needs of a CalDAV server.
pub trait CalDavClient {
    /// All VTODOs of a calendar collection.
    fn list_vtodos(&self, calendar_url: &str) -> Result<Vec<FetchedVTODO>, CaldaWarriorError>;

    /// Stores a VTODO; with an ETag the write is conditional (`If-Match`), without one it
    /// only creates (`If-None-Match: *`). Returns the new ETag when the server sends one.
    fn put_vtodo(&self, href: &str, ical_content: &str, etag: Option<&str>) -> Result<
        Option<String>,
        CaldaWarriorError,
    >;

    /// Deletes a VTODO, conditionally when an ETag is given.
    fn delete_vtodo(&self, href: &str, etag: Option<&str>) -> Result<(), CaldaWarriorError>;
}

/// A CalDAV client together with the writes sent through it so far, oldest first.
pub struct CalDavLog<'a, C: CalDavClient> {
    client: &'a C,
    sent: Ghost<Seq<CalDavWrite>>,
}

impl<'a, C: CalDavClient> CalDavLog<'a, C> {
    /// The writes sent so far.
    pub closed spec fn writes(&self) -> Seq<CalDavWrite> {
        self.sent@
    }

    /// Starts logging the writes sent through a client.
    pub fn new(client: &'a C) -> (l: Self)
        ensures
            l.writes() == Seq::<CalDavWrite>::empty(),
    {
        CalDavLog { client, sent: Ghost(Seq::empty()) }
    }

    /// Sends a PUT through the client.
    pub fn put(&mut self, href: &str, ical_content: &str, etag: Option<&str>) -> (r: Result<Option<String>, CaldaWarriorError>)
        ensures
            final(self).writes() == old(self).writes().push(
                CalDavWrite::Put { href: href@, text: ical_content@, etag: opt_text(etag) },
            ),
    {
        let r = self.client.put_vtodo(href, ical_content, etag);
        self.sent = Ghost(self.sent@.push(CalDavWrite::Put { href: href@, text: ical_content@, etag: opt_text(etag) }));
        r
    }

    /// Sends a DELETE through the client.
    pub fn delete(&mut self, href: &str, etag: Option<&str>) -> (r: Result<(), CaldaWarriorError>)
        ensures
            final(self).writes() == old(self).writes().push(CalDavWrite::Delete { href: href@, etag: opt_text(etag) }),
    {
        let r = self.client.delete_vtodo(href, etag);
        self.sent = Ghost(self.sent@.push(CalDavWrite::Delete { href: href@, etag: opt_text(etag) }));
        r
    }
}

/// The precondition header of a PUT: `If-Match` with the ETag when there is one, else
/// `If-None-Match: *`, so that a PUT without an ETag only creates.
pub fn put_precondition(etag: Option<&str>) -> (h: (String, String))
    ensures
        h.0@ == (if etag is Some {
            "If-Match"@
        } else {
            "If-None-Match"@
        }),
        h.1@ == match etag {
            Some(e) => e@,
            None => "*"@,
        },
{
    match etag {
        Some(e) => (String::from_str("If-Match"), String::from_str(e)),
        None => (String::from_str("If-None-Match"), String::from_str("*")),
    }
}

/// A call made on a CalDAV client, as a test double records it.
#[derive(Debug)]
pub enum CalDavCall {
    List(String),
    Put { href: String, etag: Option<String> },
    Delete { href: String, etag: Option<String> },
}

/// The URL an href stands for: absolute hrefs as they are, others after the server URL
/// without its trailing slashes.
pub open spec fn resolved_url(base_url: Seq<char>, href: Seq<char>) -> Seq<char> {
    if (href.len() >= 7 && href.take(7) == "http://"@) || (href.len() >= 8 && href.take(8) == "https://"@) {
        href
    } else {
        strip_trailing(base_url, '/') + href
    }
}

/// Resolves an href against the server URL.
pub fn resolve_url(base_url: &str, href: &str) -> (r: String)
    ensures
        r@ == resolved_url(base_url@, href@),
{
    proof {
        reveal_strlit("http://");
        reveal_strlit("https://");
    }
    if str_starts_with(href, "http://") || str_starts_with(href, "https://") {
        return String::from_str(href);
    }
    let v = chars_of(base_url);
    let mut b = v.len();
    assert(v@.take(b as int) =~= base_url@);
    while b > 0 && v[b - 1] == '/'
        invariant
            b <= v.len(),
            v@ == base_url@,
            strip_trailing(v@.take(b as int), '/') == strip_trailing(base_url@, '/'),
        decreases b,
    {
        assert(v@.take(b as int).drop_last() =~= v@.take(b - 1));
        b -= 1;
    }
    assert(strip_trailing(v@.take(b as int), '/') == v@.take(b as int));
    let mut r = string_of_range(&v, 0, b);
    assert(v@.subrange(0, b as int) =~= v@.take(b as int));
    r.append(href);
    r
}

/// How a request's HTTP status is handled.
#[derive(Debug, PartialEq, Eq)]
pub enum ResponseKind {
    Success,
    Unauthorized,
    PreconditionFailed,
    Failed,
}

/// REPORT on a calendar: 200 and 207 carry the multistatus body.
pub fn list_response_kind(status: u16) -> (k: ResponseKind)
    ensures
        k == (if status == 200 || status == 207 {
            ResponseKind::Success
        } else if status == 401 {
            ResponseKind::Unauthorized
        } else {
            ResponseKind::Failed
        }),
{
    if status == 200 || status == 207 {
        ResponseKind::Success
    } else if status == 401 {
        ResponseKind::Unauthorized
    } else {
        ResponseKind::Failed
    }
}

/// PUT of a VTODO: 200, 201 and 204 succeed; 412 means the ETag no longer matches.
pub fn put_response_kind(status: u16) -> (k: ResponseKind)
    ensures
        k == (if status == 200 || status == 201 || status == 204 {
            ResponseKind::Success
        } else if status == 401 {
            ResponseKind::Unauthorized
        } else if status == 412 {
            ResponseKind::PreconditionFailed
        } else {
            ResponseKind::Failed
        }),
{
    if status == 200 || status == 201 || status == 204 {
        ResponseKind::Success
    } else if status == 401 {
        ResponseKind::Unauthorized
    } else if status == 412 {
        ResponseKind::PreconditionFailed
    } else {
        ResponseKind::Failed
    }
}

/// DELETE of a VTODO: 200 and 204 succeed; 412 means the ETag no longer matches.
pub fn delete_response_kind(status: u16) -> (k: ResponseKind)
    ensures
        k == (if status == 200 || status == 204 {
            ResponseKind::Success
        } else if status == 401 {
            ResponseKind::Unauthorized
        } else if status == 412 {
            ResponseKind::PreconditionFailed
        } else {
            ResponseKind::Failed
        }),
{
    if status == 200 || status == 204 {
        ResponseKind::Success
    } else if status == 401 {
        ResponseKind::Unauthorized
    } else if status == 412 {
        ResponseKind::PreconditionFailed
    } else {
        ResponseKind::Failed
    }
}

/// GET of one VTODO: only 200 carries it.
pub fn get_response_kind(status: u16) -> (k: ResponseKind)
    ensures
        k == (if status == 200 {
            ResponseKind::Success
        } else if status == 401 {
            ResponseKind::Unauthorized
        } else {
            ResponseKind::Failed
        }),
{
    if status == 200 {
        ResponseKind::Success
    } else if status == 401 {
        ResponseKind::Unauthorized
    } else {
        ResponseKind::Failed
    }
}

/// The error for a request that failed before any HTTP status: a TLS failure (its text
/// mentions tls, certificate or ssl in any case) points at `allow_insecure_tls`.
pub open spec fn transport_error_spec(url: Seq<char>, detail: Seq<char>) -> (u16, Seq<char>) {
    let low = lower_text(detail);
    if has_substring(low, "tls"@) || has_substring(low, "certificate"@) || has_substring(low, "ssl"@) {
        (
            0,
            "TLS error connecting to "@ + url + ": "@ + detail
                + ". If using a self-signed certificate, set allow_insecure_tls = true in config."@,
        )
    } else {
        (0, "Request to "@ + url + " failed: "@ + detail)
    }
}

/// The CalDAV error for a transport failure, from the failure's text.
pub fn transport_error(url: &str, detail: &str) -> (e: CaldaWarriorError)
    ensures
        e matches CaldaWarriorError::CalDav { status, body } && (status, body@) == transport_error_spec(url@, detail@),
{
    let low = to_lowercase(detail);
    let l = low.as_str();
    if str_contains(l, "tls") || str_contains(l, "certificate") || str_contains(l, "ssl") {
        let mut b = String::from_str("TLS error connecting to ");
        b.append(url);
        b.append(": ");
        b.append(detail);
        b.append(". If using a self-signed certificate, set allow_insecure_tls = true in config.");
        CaldaWarriorError::CalDav { status: 0, body: b }
    } else {
        let mut b = String::from_str("Request to ");
        b.append(url);
        b.append(" failed: ");
        b.append(detail);
        CaldaWarriorError::CalDav { status: 0, body: b }
    }
}

/// What a GET of one VTODO yields: the VTODO read from the body with the href asked for and
/// the normalised ETag header, or an iCalendar error naming the href.
pub open spec fn fetched_from_get(href: Seq<char>, etag: Option<Seq<char>>, body: Seq<char>) -> Result<
    FetchedVTODOView,
    Seq<char>,
> {
    match crate::ical::read::vtodo_from_ical(body) {
        Ok(v) => Ok(
            FetchedVTODOView {
                href,
                etag: match etag {
                    Some(t) => Some(normalized_etag(t)),
                    None => None,
                },
                vtodo: v,
            },
        ),
        Err(m) => Err(
            "Could not parse VTODO from GET response for "@ + href + ": iCalendar parse error: "@ + m,
        ),
    }
}

/// The VTODO fetched again after an ETag conflict, from the GET response's ETag header and
/// body.
pub fn vtodo_from_get(href: &str, etag: Option<&str>, body: &str) -> (r: Result<FetchedVTODO, CaldaWarriorError>)
    ensures
        match r {
            Ok(f) => fetched_from_get(href@, match etag {
                Some(t) => Some(t@),
                None => None,
            }, body@) == Ok::<FetchedVTODOView, Seq<char>>(f@),
            Err(e) => e matches CaldaWarriorError::IcalParse(m) && fetched_from_get(href@, match etag {
                Some(t) => Some(t@),
                None => None,
            }, body@) == Err::<FetchedVTODOView, Seq<char>>(m@),
        },
{
    match crate::ical::read::from_icalendar_string(body) {
        Ok(vtodo) => {
            let etag = match etag {
                Some(t) => Some(normalize_etag(t)),
                None => None,
            };
            Ok(FetchedVTODO { href: String::from_str(href), etag, vtodo })
        },
        Err(e) => {
            let mut m = String::from_str("Could not parse VTODO from GET response for ");
            m.append(href);
            m.append(": ");
            m.append(e.message().as_str());
            proof {
                reveal_strlit(": ");
                reveal_strlit("iCalendar parse error: ");
                reveal_strlit(": iCalendar parse error: ");
            }
            assert(m@ =~= "Could not parse VTODO from GET response for "@ + href@ + ": iCalendar parse error: "@ + (
            match crate::ical::read::vtodo_from_ical(body@) {
                Err(x) => x,
                Ok(_) => Seq::empty(),
            }));
            Err(CaldaWarriorError::IcalParse(m))
        },
    }
}

} // verus!
