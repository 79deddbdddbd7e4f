//! Reading a WebDAV multistatus REPORT response into VTODOs, namespace-aware, through
//! quick-xml's `NsReader`.
use vstd::prelude::*;
use vstd::string::StringExecFns;
use quick_xml::events::Event::{CData, End, Eof, Start, Text};
use quick_xml::name::{Namespace, QName, ResolveResult};
use quick_xml::reader::NsReader;
use crate::caldav_adapter::{normalize_etag, normalized_etag};
use crate::ical::read::{from_icalendar_string, vtodo_from_ical};
use crate::text::{str_eq, trim, trim_str};
use crate::types::{FetchedVTODO, FetchedVTODOView, str_seq};

verus! {

#[verifier::external_type_specification]
#[verifier::external_body]
#[verifier::reject_recursive_types(R)]
pub struct ExNsReader<R>(NsReader<R>);

/// One event of the XML reader, with element and namespace names as text.
#[derive(Debug)]
pub enum XmlEvent {
    /// An element opens; `ns` is its namespace when the prefix is bound.
    Start { ns: Option<String>, local: String },
    /// An element closes.
    End { ns: Option<String>, local: String },
    /// Text or CDATA content; none when it could not be decoded.
    Text(Option<String>),
    /// The end of the document.
    Eof,
    /// A malformed document, with the reader's message.
    Error(String),
    /// Anything else (declarations, comments, processing instructions, references).
    Other,
}

pub enum XmlEventView {
    Start { ns: Option<Seq<char>>, local: Seq<char> },
    End { ns: Option<Seq<char>>, local: Seq<char> },
    Text(Option<Seq<char>>),
    Eof,
    Error(Seq<char>),
    Other,
}

impl View for XmlEvent {
    type V = XmlEventView;

    open spec fn view(&self) -> XmlEventView {
        match self {
            XmlEvent::Start { ns, local } => XmlEventView::Start { ns: crate::types::opt_str(*ns), local: local@ },
            XmlEvent::End { ns, local } => XmlEventView::End { ns: crate::types::opt_str(*ns), local: local@ },
            XmlEvent::Text(t) => XmlEventView::Text(crate::types::opt_str(*t)),
            XmlEvent::Eof => XmlEventView::Eof,
            XmlEvent::Error(m) => XmlEventView::Error(m@),
            XmlEvent::Other => XmlEventView::Other,
        }
    }
}

/// `NsReader::from_str`: a namespace-aware reader over the document.
#[verifier::external_body]
fn xml_reader<'a>(xml: &'a str) -> NsReader<&'a [u8]> {
    NsReader::from_str(xml)
}

/// The reader's `trim_text(true)` setting: whitespace around text is dropped and
/// whitespace-only text yields no event.
#[verifier::external_body]
fn trim_xml_text<'a>(reader: &mut NsReader<&'a [u8]>) {
    reader.config_mut().trim_text(true);
}

/// An event as the reader yields it, before an element's qualified name is resolved.
enum RawXmlEvent {
    Start(String),
    End(String),
    Text(Option<String>),
    Eof,
    Error(String),
    Other,
}

/// `NsReader::read_event`, with the event converted: an element's qualified name as text
/// (`String::from_utf8_lossy`), text and CDATA decoded; nothing is promised of which
/// event comes next.
#[verifier::external_body]
fn next_raw_event<'a>(reader: &mut NsReader<&'a [u8]>) -> RawXmlEvent {
    match reader.read_event() {
        Ok(Start(e)) => RawXmlEvent::Start(String::from_utf8_lossy(e.name().as_ref()).into_owned()),
        Ok(End(e)) => RawXmlEvent::End(String::from_utf8_lossy(e.name().as_ref()).into_owned()),
        Ok(Text(e)) => RawXmlEvent::Text(e.decode().ok().map(String::from)),
        Ok(CData(e)) => RawXmlEvent::Text(e.decode().ok().map(String::from)),
        Ok(Eof) => RawXmlEvent::Eof,
        Ok(_) => RawXmlEvent::Other,
        Err(e) => RawXmlEvent::Error(e.to_string()),
    }
}

/// `NsReader::resolve_element` on the qualified name of the element just read: the
/// namespace its prefix is bound to (as text, none when unbound or unknown) and its local
/// name; nothing is promised of either.
#[verifier::external_body]
fn resolve_element<'a>(reader: &NsReader<&'a [u8]>, qname: &str) -> (Option<String>, String) {
    let (r, local) = reader.resolve_element(QName(qname.as_bytes()));
    let ns = match r {
        ResolveResult::Bound(Namespace(n)) => Some(String::from_utf8_lossy(n).into_owned()),
        _ => None,
    };
    (ns, String::from_utf8_lossy(local.as_ref()).into_owned())
}

/// The next event with element names resolved against the namespaces in scope.
fn read_xml_event<'a>(reader: &mut NsReader<&'a [u8]>) -> XmlEvent {
    match next_raw_event(reader) {
        RawXmlEvent::Start(q) => {
            let (ns, local) = resolve_element(reader, q.as_str());
            XmlEvent::Start { ns, local }
        },
        RawXmlEvent::End(q) => {
            let (ns, local) = resolve_element(reader, q.as_str());
            XmlEvent::End { ns, local }
        },
        RawXmlEvent::Text(t) => XmlEvent::Text(t),
        RawXmlEvent::Eof => XmlEvent::Eof,
        RawXmlEvent::Error(m) => XmlEvent::Error(m),
        RawXmlEvent::Other => XmlEvent::Other,
    }
}

/// Which element's text is being collected.
#[derive(Debug, PartialEq, Eq)]
pub enum Reading {
    Nothing,
    Href,
    Etag,
    CalendarData,
}

/// The WebDAV namespace.
pub open spec fn dav_ns() -> Seq<char> {
    "DAV:"@
}

/// The CalDAV namespace.
pub open spec fn caldav_ns() -> Seq<char> {
    "urn:ietf:params:xml:ns:caldav"@
}

/// The reading state: inside a `response`, its href, ETag and calendar data so far, the
/// element being read, the VTODOs and diagnostics so far, and whether reading stopped.
pub struct MsState {
    pub in_response: bool,
    pub href: Seq<char>,
    pub etag: Seq<char>,
    pub data: Seq<char>,
    pub reading: Reading,
    pub results: Seq<FetchedVTODOView>,
    pub diagnostics: Seq<Seq<char>>,
    pub stopped: bool,
}

/// The state before the first event.
pub open spec fn ms_start() -> MsState {
    MsState {
        in_response: false,
        href: Seq::empty(),
        etag: Seq::empty(),
        data: Seq::empty(),
        reading: Reading::Nothing,
        results: Seq::empty(),
        diagnostics: Seq::empty(),
        stopped: false,
    }
}

#[verifier::opaque]
/// The end of a `response`: with an href and calendar data, the VTODO read from the data
/// is kept (href trimmed, ETag normalised when there is one), or a diagnostic names the
/// href when the data does not parse.
pub open spec fn ms_close_response(st: MsState) -> MsState {
    let done = MsState { in_response: false, reading: Reading::Nothing, ..st };
    if st.href.len() > 0 && st.data.len() > 0 {
        match vtodo_from_ical(st.data) {
            Ok(v) => MsState {
                results: st.results.push(
                    FetchedVTODOView {
                        href: trim(st.href),
                        etag: if st.etag.len() == 0 {
                            None
                        } else {
                            Some(normalized_etag(st.etag))
                        },
                        vtodo: v,
                    },
                ),
                ..done
            },
            Err(m) => MsState {
                diagnostics: st.diagnostics.push(
                    "Warning: skipping unparseable VTODO at "@ + trim(st.href) + ": iCalendar parse error: "@ + m,
                ),
                ..done
            },
        }
    } else {
        done
    }
}

/// What one reader event does to the state.
#[verifier::opaque]
pub open spec fn ms_step(st: MsState, ev: XmlEventView) -> MsState {
    if st.stopped {
        st
    } else {
        match ev {
            XmlEventView::Start { ns: Some(ns), local } => if ns == dav_ns() {
                if local == "response"@ {
                    MsState {
                        in_response: true,
                        href: Seq::empty(),
                        etag: Seq::empty(),
                        data: Seq::empty(),
                        reading: Reading::Nothing,
                        ..st
                    }
                } else if local == "href"@ && st.in_response {
                    MsState { reading: Reading::Href, ..st }
                } else if local == "getetag"@ && st.in_response {
                    MsState { reading: Reading::Etag, ..st }
                } else {
                    st
                }
            } else if ns == caldav_ns() && local == "calendar-data"@ && st.in_response {
                MsState { reading: Reading::CalendarData, ..st }
            } else {
                st
            },
            XmlEventView::End { ns: Some(ns), local } => if ns == dav_ns() && local == "response"@ && st.in_response {
                ms_close_response(st)
            } else if ns == dav_ns() {
                if local == "href"@ && st.reading == Reading::Href {
                    MsState { reading: Reading::Nothing, ..st }
                } else if local == "getetag"@ && st.reading == Reading::Etag {
                    MsState { reading: Reading::Nothing, ..st }
                } else {
                    st
                }
            } else if ns == caldav_ns() && local == "calendar-data"@ && st.reading == Reading::CalendarData {
                MsState { reading: Reading::Nothing, ..st }
            } else {
                st
            },
            XmlEventView::Text(Some(t)) => match st.reading {
                Reading::Href => MsState { href: st.href + t, ..st },
                Reading::Etag => MsState { etag: st.etag + t, ..st },
                Reading::CalendarData => MsState { data: st.data + t, ..st },
                Reading::Nothing => st,
            },
            XmlEventView::Eof => MsState { stopped: true, ..st },
            XmlEventView::Error(m) => MsState {
                diagnostics: st.diagnostics.push("Warning: XML parse error in multistatus response: "@ + m),
                stopped: true,
                ..st
            },
            _ => st,
        }
    }
}

/// The state after a run of events.
pub open spec fn ms_fold(evs: Seq<XmlEventView>) -> MsState
    decreases evs.len(),
{
    if evs.len() == 0 {
        ms_start()
    } else {
        ms_step(ms_fold(evs.drop_last()), evs.last())
    }
}

struct Collector {
    in_response: bool,
    href: String,
    etag: String,
    data: String,
    reading: Reading,
    results: Vec<FetchedVTODO>,
    diagnostics: Vec<String>,
    stopped: bool,
}

impl Collector {
    spec fn state(&self) -> MsState {
        MsState {
            in_response: self.in_response,
            href: self.href@,
            etag: self.etag@,
            data: self.data@,
            reading: self.reading,
            results: self.results@.map_values(|f: FetchedVTODO| f@),
            diagnostics: str_seq(self.diagnostics@),
            stopped: self.stopped,
        }
    }
}

fn close_response(c: &mut Collector)
    requires
        old(c).in_response,
    ensures
        final(c).state() == ms_close_response(old(c).state()),
{
    reveal(ms_close_response);
    if !c.href.as_str().is_empty() && !c.data.as_str().is_empty() {
        match from_icalendar_string(c.data.as_str()) {
            Ok(vtodo) => {
                let etag = if c.etag.as_str().is_empty() {
                    None
                } else {
                    Some(normalize_etag(c.etag.as_str()))
                };
                let href = trim_str(c.href.as_str());
                let ghost prev = c.results@.map_values(|f: FetchedVTODO| f@);
                let f = FetchedVTODO { href, etag, vtodo };
                let ghost fv = f@;
                c.results.push(f);
                assert(c.results@.map_values(|f: FetchedVTODO| f@) =~= prev.push(fv));
            },
            Err(e) => {
                let mut m = String::from_str("Warning: skipping unparseable VTODO at ");
                let h = trim_str(c.href.as_str());
                m.append(h.as_str());
                m.append(": ");
                m.append(e.message().as_str());
                let ghost prev = str_seq(c.diagnostics@);
                c.diagnostics.push(m);
                assert(str_seq(c.diagnostics@) =~= prev.push(m@));
                proof {
                    reveal_strlit(": ");
                    reveal_strlit("iCalendar parse error: ");
                    reveal_strlit(": iCalendar parse error: ");
                }
                assert(m@ =~= "Warning: skipping unparseable VTODO at "@ + trim(old(c).href@) + ": iCalendar parse error: "@
                    + (match vtodo_from_ical(old(c).data@) {
                    Err(x) => x,
                    Ok(_) => Seq::empty(),
                }));
            },
        }
    }
    c.in_response = false;
    c.reading = Reading::Nothing;
}

fn apply_xml_event(c: &mut Collector, ev: XmlEvent)
    ensures
        final(c).state() == ms_step(old(c).state(), ev@),
{
    reveal(ms_step);
    if c.stopped {
        return;
    }
    match ev {
        XmlEvent::Start { ns: Some(ns), local } => {
            let l = local.as_str();
            if str_eq(ns.as_str(), "DAV:") {
                if str_eq(l, "response") {
                    c.in_response = true;
                    c.href = String::new();
                    c.etag = String::new();
                    c.data = String::new();
                    c.reading = Reading::Nothing;
                } else if str_eq(l, "href") && c.in_response {
                    c.reading = Reading::Href;
                } else if str_eq(l, "getetag") && c.in_response {
                    c.reading = Reading::Etag;
                }
            } else if str_eq(ns.as_str(), "urn:ietf:params:xml:ns:caldav") && str_eq(l, "calendar-data") && c.in_response {
                c.reading = Reading::CalendarData;
            }
        },
        XmlEvent::End { ns: Some(ns), local } => {
            let l = local.as_str();
            let is_dav = str_eq(ns.as_str(), "DAV:");
            if is_dav && str_eq(l, "response") && c.in_response {
                close_response(c);
            } else if is_dav {
                let href_open = match c.reading {
                    Reading::Href => true,
                    _ => false,
                };
                let etag_open = match c.reading {
                    Reading::Etag => true,
                    _ => false,
                };
                if str_eq(l, "href") && href_open {
                    c.reading = Reading::Nothing;
                } else if str_eq(l, "getetag") && etag_open {
                    c.reading = Reading::Nothing;
                }
            } else if str_eq(ns.as_str(), "urn:ietf:params:xml:ns:caldav") && str_eq(l, "calendar-data") && match c.reading {
                Reading::CalendarData => true,
                _ => false,
            } {
                c.reading = Reading::Nothing;
            }
        },
        XmlEvent::Text(Some(t)) => {
            match c.reading {
                Reading::Href => c.href.append(t.as_str()),
                Reading::Etag => c.etag.append(t.as_str()),
                Reading::CalendarData => c.data.append(t.as_str()),
                Reading::Nothing => {},
            }
        },
        XmlEvent::Eof => {
            c.stopped = true;
        },
        XmlEvent::Error(m) => {
            let mut d = String::from_str("Warning: XML parse error in multistatus response: ");
            d.append(m.as_str());
            let ghost prev = str_seq(c.diagnostics@);
            c.diagnostics.push(d);
            assert(str_seq(c.diagnostics@) =~= prev.push(d@));
            c.stopped = true;
        },
        _ => {},
    }
}

fn new_collector() -> (c: Collector)
    ensures
        c.state() == ms_start(),
{
    let c = Collector {
        in_response: false,
        href: String::new(),
        etag: String::new(),
        data: String::new(),
        reading: Reading::Nothing,
        results: Vec::new(),
        diagnostics: Vec::new(),
        stopped: false,
    };
    assert(c.state().results =~= Seq::<FetchedVTODOView>::empty());
    assert(c.state().diagnostics =~= Seq::<Seq<char>>::empty());
    c
}

/// View of a list of reader events.
pub open spec fn events_view(evs: Seq<XmlEvent>) -> Seq<XmlEventView> {
    evs.map_values(|e: XmlEvent| e@)
}

/// The VTODOs (and the diagnostics) of a run of reader events.
pub fn collect_multistatus(events: Vec<XmlEvent>) -> (r: (Vec<FetchedVTODO>, Vec<String>))
    ensures
        r.0@.map_values(|f: FetchedVTODO| f@) == ms_fold(events_view(events@)).results,
        str_seq(r.1@) == ms_fold(events_view(events@)).diagnostics,
{
    let ghost evs = events_view(events@);
    let mut c = new_collector();
    let mut events = events;
    let ghost all = events@;
    let mut i: usize = 0;
    let n = events.len();
    assert(all.skip(0) =~= all);
    assert(evs.take(0) =~= Seq::<XmlEventView>::empty());
    while i < n
        invariant
            i <= n,
            n == all.len(),
            evs == events_view(all),
            events@ == all.skip(i as int),
            c.state() == ms_fold(evs.take(i as int)),
        decreases n - i,
    {
        let ev = events.remove(0);
        assert(ev == all[i as int]);
        assert(all.skip(i as int).remove(0) =~= all.skip(i + 1));
        assert(evs.take(i + 1).drop_last() =~= evs.take(i as int));
        assert(evs.take(i + 1).last() == ev@);
        apply_xml_event(&mut c, ev);
        i += 1;
    }
    assert(evs.take(n as int) =~= evs);
    (c.results, c.diagnostics)
}

/// `parse_multistatus_vtodos`: the VTODOs of a multistatus response (and diagnostics for
/// responses that do not parse and for a malformed document), whatever events the XML
/// reader yields. Every event but the last consumes some of the document, so the reading
/// takes at most one event more than the document has bytes.
pub fn parse_multistatus_vtodos(xml: &str) -> (r: (Vec<FetchedVTODO>, Vec<String>))
    ensures
        exists|evs: Seq<XmlEventView>|
            r.0@.map_values(|f: FetchedVTODO| f@) == #[trigger] ms_fold(evs).results && str_seq(r.1@) == ms_fold(
                evs,
            ).diagnostics,
{
    let mut reader = xml_reader(xml);
    trim_xml_text(&mut reader);
    let mut c = new_collector();
    let ghost mut evs: Seq<XmlEventView> = Seq::empty();
    let mut remaining: usize = xml.len();
    if remaining < usize::MAX {
        remaining = remaining + 1;
    }
    while !c.stopped && remaining > 0
        invariant
            c.state() == ms_fold(evs),
        decreases remaining,
    {
        let ev = read_xml_event(&mut reader);
        proof {
            let prev = evs;
            evs = evs.push(ev@);
            assert(evs.drop_last() =~= prev);
        }
        apply_xml_event(&mut c, ev);
        remaining -= 1;
    }
    assert(c.results@.map_values(|f: FetchedVTODO| f@) == ms_fold(evs).results && str_seq(c.diagnostics@) == ms_fold(
        evs,
    ).diagnostics);
    (c.results, c.diagnostics)
}

} // verus!
