//! The service's XML documents, read event by event: the list of line ids
//! and versions, the description of one bus line, and the real-time trace
//! of a line. Each reader is a state machine fed one event at a time; the
//! `read_*` functions run one over a whole document.
use vstd::prelude::*;
use vstd::string::StringExecFns;
use xml::reader::{EventReader, XmlEvent as ReaderEvent};

use crate::bus::{
    route_view, stations_view, BusLine, BusLineView, BusStation, LatLngText, StationView,
    zero_text,
};
use crate::cipher::{aibang_prefix, decrypt_text_result, Cipher, CipherError};
use crate::text::{parse_i32, parse_i32_spec, split_commas, split_commas_exec, texts};

verus! {

/// One event of an XML document, with the local names of elements.
#[derive(Debug)]
pub enum XmlEvent {
    StartElement(String),
    EndElement(String),
    Characters(String),
    /// Any other event (declarations, comments, whitespace, ...).
    Other,
}

/// Why a document could not be read.
#[derive(Debug, Clone, Copy, PartialEq, Eq, Structural)]
pub enum ApiError {
    /// A field that must be an `i32` is not one.
    BadInteger,
    /// An encrypted field could not be decrypted.
    Cipher(CipherError),
}

/// The events that xml-rs's `EventReader` reads from the document `doc`,
/// each taken as an `XmlEvent` (element names by their local part; every
/// other kind of event, and a parse error, as `Other`).
pub uninterp spec fn xml_events(doc: Seq<u8>) -> Seq<XmlEvent>;

/// Reads the XML document `doc` with xml-rs's `EventReader`, to the end of
/// its events; each event is kept by its kind: start and end of an element
/// with the element's local name, character data with its text, anything
/// else (declarations, processing instructions, CDATA, comments,
/// whitespace, doctype, a parse error) as `Other`. The events are named
/// `xml_events`, not stated.
#[verifier::external_body]
pub fn parse_xml(doc: &[u8]) -> (events: Vec<XmlEvent>)
    ensures
        events@ == xml_events(doc@),
{
    let mut events = Vec::new();
    for ev in EventReader::new(doc) {
        events.push(match ev {
            Ok(ReaderEvent::StartElement { name, .. }) => XmlEvent::StartElement(name.local_name),
            Ok(ReaderEvent::EndElement { name }) => XmlEvent::EndElement(name.local_name),
            Ok(ReaderEvent::Characters(text)) => XmlEvent::Characters(text),
            Ok(ReaderEvent::StartDocument { .. }) | Ok(ReaderEvent::EndDocument)
            | Ok(ReaderEvent::ProcessingInstruction { .. }) | Ok(ReaderEvent::CData(_))
            | Ok(ReaderEvent::Comment(_)) | Ok(ReaderEvent::Whitespace(_))
            | Ok(ReaderEvent::Doctype { .. }) | Err(_) => XmlEvent::Other,
        });
    }
    events
}

/// `s` holds exactly the text `lit`.
fn text_is(s: &String, lit: &str) -> (b: bool)
    ensures
        b == (s@ == lit@),
{
    let l = lit.to_owned();
    *s == l
}

// ---------------------------------------------------------------------------
// Line ids and versions
// ---------------------------------------------------------------------------

/// The state of reading the list of line ids and versions.
pub struct IdVersionsView {
    pub tag: Seq<char>,
    pub id: i32,
    pub status: i32,
    pub version: i32,
    pub found: Seq<(i32, i32)>,
}

/// The state before the first event.
pub open spec fn id_versions_start() -> IdVersionsView {
    IdVersionsView { tag: Seq::empty(), id: 0, status: 0, version: 0, found: Seq::empty() }
}

/// One event of the list: a start element becomes the current tag; text
/// under `id`, `status` or `version` sets that number; the end of a `line`
/// whose status is 0 records its `(id, version)`.
pub open spec fn id_versions_step(s: IdVersionsView, ev: XmlEvent) -> Result<
    IdVersionsView,
    ApiError,
> {
    match ev {
        XmlEvent::StartElement(name) => Ok(IdVersionsView { tag: name@, ..s }),
        XmlEvent::EndElement(name) => if name@ == "line"@ && s.status == 0 {
            Ok(IdVersionsView { found: s.found.push((s.id, s.version)), ..s })
        } else {
            Ok(s)
        },
        XmlEvent::Characters(text) => if s.tag == "id"@ {
            match parse_i32_spec(text@) {
                Some(v) => Ok(IdVersionsView { id: v, ..s }),
                None => Err(ApiError::BadInteger),
            }
        } else if s.tag == "status"@ {
            match parse_i32_spec(text@) {
                Some(v) => Ok(IdVersionsView { status: v, ..s }),
                None => Err(ApiError::BadInteger),
            }
        } else if s.tag == "version"@ {
            match parse_i32_spec(text@) {
                Some(v) => Ok(IdVersionsView { version: v, ..s }),
                None => Err(ApiError::BadInteger),
            }
        } else {
            Ok(s)
        },
        XmlEvent::Other => Ok(s),
    }
}

/// The state after the events `events`, or the first error.
pub open spec fn id_versions_after(events: Seq<XmlEvent>) -> Result<IdVersionsView, ApiError>
    decreases events.len(),
{
    if events.len() == 0 {
        Ok(id_versions_start())
    } else {
        match id_versions_after(events.drop_last()) {
            Ok(s) => id_versions_step(s, events.last()),
            Err(e) => Err(e),
        }
    }
}

/// Reads the list of line ids and versions.
pub struct IdVersionsReader {
    current_tag: String,
    current_id: i32,
    current_status: i32,
    current_version: i32,
    line_id_versions: Vec<(i32, i32)>,
}

impl View for IdVersionsReader {
    type V = IdVersionsView;

    closed spec fn view(&self) -> IdVersionsView {
        IdVersionsView {
            tag: self.current_tag@,
            id: self.current_id,
            status: self.current_status,
            version: self.current_version,
            found: self.line_id_versions@,
        }
    }
}

impl IdVersionsReader {
    pub fn new() -> (r: IdVersionsReader)
        ensures
            r@ == id_versions_start(),
    {
        IdVersionsReader {
            current_tag: String::new(),
            current_id: 0,
            current_status: 0,
            current_version: 0,
            line_id_versions: Vec::new(),
        }
    }

    /// Takes in one event.
    pub fn feed(&mut self, ev: &XmlEvent) -> (r: Result<(), ApiError>)
        ensures
            match r {
                Ok(_) => id_versions_step(old(self)@, *ev) == Ok::<IdVersionsView, ApiError>(
                    final(self)@,
                ),
                Err(e) => id_versions_step(old(self)@, *ev) == Err::<IdVersionsView, ApiError>(e),
            },
    {
        match ev {
            XmlEvent::StartElement(name) => {
                self.current_tag = name.clone();
            },
            XmlEvent::EndElement(name) => {
                if text_is(name, "line") && self.current_status == 0 {
                    self.line_id_versions.push((self.current_id, self.current_version));
                }
            },
            XmlEvent::Characters(text) => {
                if text_is(&self.current_tag, "id") {
                    match parse_i32(text.as_str()) {
                        Some(v) => self.current_id = v,
                        None => return Err(ApiError::BadInteger),
                    }
                } else if text_is(&self.current_tag, "status") {
                    match parse_i32(text.as_str()) {
                        Some(v) => self.current_status = v,
                        None => return Err(ApiError::BadInteger),
                    }
                } else if text_is(&self.current_tag, "version") {
                    match parse_i32(text.as_str()) {
                        Some(v) => self.current_version = v,
                        None => return Err(ApiError::BadInteger),
                    }
                }
            },
            XmlEvent::Other => {},
        }
        Ok(())
    }

    /// The `(id, version)` pairs recorded so far, in document order.
    pub fn into_line_id_versions(self) -> (v: Vec<(i32, i32)>)
        ensures
            v@ == self@.found,
    {
        self.line_id_versions
    }
}

/// Reads a whole list document: the `(id, version)` of every line whose
/// status is 0, in document order.
pub fn read_id_versions(events: &Vec<XmlEvent>) -> (r: Result<Vec<(i32, i32)>, ApiError>)
    ensures
        match r {
            Ok(v) => id_versions_after(events@) matches Ok(s) && v@ == s.found,
            Err(e) => id_versions_after(events@) == Err::<IdVersionsView, ApiError>(e),
        },
{
    let mut reader = IdVersionsReader::new();
    let mut i: usize = 0;
    while i < events.len()
        invariant
            i <= events@.len(),
            id_versions_after(events@.take(i as int)) == Ok::<IdVersionsView, ApiError>(
                reader@,
            ),
        decreases events@.len() - i,
    {
        assert(events@.take(i + 1).drop_last() =~= events@.take(i as int));
        match reader.feed(&events[i]) {
            Ok(_) => {},
            Err(e) => {
                proof {
                    lemma_id_versions_error_sticks(events@, i as int + 1);
                }
                return Err(e);
            },
        }
        i = i + 1;
    }
    assert(events@.take(events@.len() as int) =~= events@);
    Ok(reader.into_line_id_versions())
}

/// Once reading a list fails, it stays failed with the same error,
/// whatever events follow.
pub proof fn lemma_id_versions_error_sticks(events: Seq<XmlEvent>, n: int)
    requires
        0 <= n <= events.len(),
        id_versions_after(events.take(n)) is Err,
    ensures
        id_versions_after(events) == id_versions_after(events.take(n)),
    decreases events.len() - n,
{
    if n < events.len() {
        assert(events.take(n + 1).drop_last() =~= events.take(n));
        lemma_id_versions_error_sticks(events, n + 1);
    } else {
        assert(events.take(n) =~= events);
    }
}


/// The state after the events `q`, starting from `s`, or the first error.
pub open spec fn id_versions_run(s: IdVersionsView, q: Seq<XmlEvent>) -> Result<
    IdVersionsView,
    ApiError,
>
    decreases q.len(),
{
    if q.len() == 0 {
        Ok(s)
    } else {
        match id_versions_run(s, q.drop_last()) {
            Ok(s1) => id_versions_step(s1, q.last()),
            Err(e) => Err(e),
        }
    }
}

proof fn lemma_id_versions_after_is_run(events: Seq<XmlEvent>)
    ensures
        id_versions_after(events) == id_versions_run(id_versions_start(), events),
    decreases events.len(),
{
    if events.len() > 0 {
        lemma_id_versions_after_is_run(events.drop_last());
    }
}

proof fn lemma_id_versions_run_append(s: IdVersionsView, p: Seq<XmlEvent>, q: Seq<XmlEvent>)
    ensures
        id_versions_run(s, p + q) == match id_versions_run(s, p) {
            Ok(s1) => id_versions_run(s1, q),
            Err(e) => Err(e),
        },
    decreases q.len(),
{
    if q.len() == 0 {
        assert(p + q =~= p);
    } else {
        assert((p + q).drop_last() =~= p + q.drop_last());
        lemma_id_versions_run_append(s, p, q.drop_last());
    }
}

/// `ev` starts an element called `name`.
pub open spec fn is_start(ev: XmlEvent, name: Seq<char>) -> bool {
    ev matches XmlEvent::StartElement(n) && n@ == name
}

/// `ev` ends an element called `name`.
pub open spec fn is_end(ev: XmlEvent, name: Seq<char>) -> bool {
    ev matches XmlEvent::EndElement(n) && n@ == name
}

/// `ev` is text that holds an `i32`.
pub open spec fn is_number_text(ev: XmlEvent) -> bool {
    ev matches XmlEvent::Characters(t) && parse_i32_spec(t@) is Some
}

/// `l` is one `line` entry of the list,
/// `<line><id>..</id><status>..</status><version>..</version></line>`,
/// whose numbers are valid and whose status is not 0.
pub open spec fn is_unlisted_line(l: Seq<XmlEvent>) -> bool {
    &&& l.len() == 11
    &&& is_start(l[0], "line"@)
    &&& is_start(l[1], "id"@)
    &&& is_number_text(l[2])
    &&& is_end(l[3], "id"@)
    &&& is_start(l[4], "status"@)
    &&& l[5] matches XmlEvent::Characters(t) && parse_i32_spec(t@) matches Some(v) && v != 0
    &&& is_end(l[6], "status"@)
    &&& is_start(l[7], "version"@)
    &&& is_number_text(l[8])
    &&& is_end(l[9], "version"@)
    &&& is_end(l[10], "line"@)
}

/// `t` only closes elements other than `line`, or holds events that the
/// list ignores: what may follow the last line of a list.
pub open spec fn is_closing_tail(t: Seq<XmlEvent>) -> bool {
    forall|i: int|
        0 <= i < t.len() ==> (#[trigger] t[i] is Other || (t[i] matches XmlEvent::EndElement(n)
            && n@ != "line"@))
}

proof fn lemma_closing_tail_keeps_found(s: IdVersionsView, t: Seq<XmlEvent>)
    requires
        is_closing_tail(t),
    ensures
        id_versions_run(s, t) matches Ok(x) && x.found == s.found,
    decreases t.len(),
{
    if t.len() > 0 {
        assert(is_closing_tail(t.drop_last()));
        lemma_closing_tail_keeps_found(s, t.drop_last());
        assert(t.last() == t[t.len() - 1]);
    }
}

proof fn lemma_run_one_more(s: IdVersionsView, q: Seq<XmlEvent>, k: int)
    requires
        0 <= k < q.len(),
    ensures
        id_versions_run(s, q.take(k + 1)) == match id_versions_run(s, q.take(k)) {
            Ok(s1) => id_versions_step(s1, q[k]),
            Err(e) => Err(e),
        },
{
    assert(q.take(k + 1).drop_last() =~= q.take(k));
}

proof fn lemma_unlisted_line_keeps_found(s: IdVersionsView, l: Seq<XmlEvent>)
    requires
        is_unlisted_line(l),
    ensures
        id_versions_run(s, l) matches Ok(x) && x.found == s.found,
{
    reveal_strlit("line");
    reveal_strlit("id");
    reveal_strlit("status");
    reveal_strlit("version");
    assert("id"@.len() == 2 && "line"@.len() == 4 && "status"@.len() == 6);
    assert("version"@.len() == 7);
    assert("id"@ != "line"@ && "status"@ != "line"@ && "version"@ != "line"@);
    assert("status"@ != "id"@ && "version"@ != "id"@ && "version"@ != "status"@);
    assert(l.take(0) =~= Seq::<XmlEvent>::empty());
    let r = |k: int| id_versions_run(s, l.take(k));
    lemma_run_one_more(s, l, 0);
    assert(r(1) matches Ok(x) && x.found == s.found && x.tag == "line"@);
    lemma_run_one_more(s, l, 1);
    assert(r(2) matches Ok(x) && x.found == s.found && x.tag == "id"@);
    lemma_run_one_more(s, l, 2);
    assert(r(3) matches Ok(x) && x.found == s.found && x.tag == "id"@);
    lemma_run_one_more(s, l, 3);
    assert(r(4) matches Ok(x) && x.found == s.found);
    lemma_run_one_more(s, l, 4);
    assert(r(5) matches Ok(x) && x.found == s.found && x.tag == "status"@);
    lemma_run_one_more(s, l, 5);
    assert(r(6) matches Ok(x) && x.found == s.found && x.status != 0);
    lemma_run_one_more(s, l, 6);
    assert(r(7) matches Ok(x) && x.found == s.found && x.status != 0);
    lemma_run_one_more(s, l, 7);
    assert(r(8) matches Ok(x) && x.found == s.found && x.status != 0 && x.tag == "version"@);
    lemma_run_one_more(s, l, 8);
    assert(r(9) matches Ok(x) && x.found == s.found && x.status != 0);
    lemma_run_one_more(s, l, 9);
    assert(r(10) matches Ok(x) && x.found == s.found && x.status != 0);
    lemma_run_one_more(s, l, 10);
    assert(r(11) matches Ok(x) && x.found == s.found);
    assert(l.take(11) =~= l);
}

/// A line whose status is not 0, inserted after the last line of a list,
/// changes nothing in what the list reads to: such a line is never listed.
pub proof fn lemma_unlisted_line_is_not_listed(
    p: Seq<XmlEvent>,
    l: Seq<XmlEvent>,
    t: Seq<XmlEvent>,
)
    requires
        id_versions_after(p) is Ok,
        is_unlisted_line(l),
        is_closing_tail(t),
    ensures
        id_versions_after(p + t) matches Ok(a) && id_versions_after(p + l + t) matches Ok(b)
            && a.found == b.found,
{
    lemma_id_versions_after_is_run(p);
    lemma_id_versions_after_is_run(p + t);
    lemma_id_versions_after_is_run(p + l + t);
    let start = id_versions_start();
    lemma_id_versions_run_append(start, p, t);
    lemma_id_versions_run_append(start, p + l, t);
    lemma_id_versions_run_append(start, p, l);
    let s = id_versions_run(start, p)->Ok_0;
    lemma_unlisted_line_keeps_found(s, l);
    let x = id_versions_run(s, l)->Ok_0;
    lemma_closing_tail_keeps_found(s, t);
    lemma_closing_tail_keeps_found(x, t);
}

// ---------------------------------------------------------------------------
// A bus line
// ---------------------------------------------------------------------------

/// The positions that a decrypted `coord` field lists: its comma-separated
/// pieces taken in pairs, longitude first; an unpaired last piece is
/// dropped. Each position is `(lat, lng)`.
pub open spec fn coord_pairs(pieces: Seq<Seq<char>>) -> Seq<(Seq<char>, Seq<char>)> {
    Seq::new(pieces.len() / 2, |k: int| (pieces[2 * k + 1], pieces[2 * k]))
}

/// Every complete (longitude, latitude) pair of pieces becomes one point,
/// in order, and nothing else does: `2n` or `2n + 1` pieces give exactly
/// `n` points, point `k` holding latitude `pieces[2k + 1]` and longitude
/// `pieces[2k]`.
pub proof fn lemma_route_takes_every_pair(pieces: Seq<Seq<char>>)
    ensures
        2 * coord_pairs(pieces).len() <= pieces.len() < 2 * coord_pairs(pieces).len() + 2,
        forall|k: int|
            0 <= k < coord_pairs(pieces).len() ==> #[trigger] coord_pairs(pieces)[k] == (
                pieces[2 * k + 1],
                pieces[2 * k],
            ),
{
}

/// The state of reading a bus line document.
pub struct BusLineReaderView {
    pub line: BusLineView,
    pub tag: Seq<char>,
    pub last_text: Seq<char>,
    pub key: Seq<char>,
    pub station: StationView,
}

/// A station with no name at the origin.
pub open spec fn empty_station() -> StationView {
    StationView { coords: (zero_text(), zero_text()), name: Seq::empty() }
}

/// The state before the first event of the document of line `id`.
pub open spec fn busline_start(id: i32) -> BusLineReaderView {
    BusLineReaderView {
        line: BusLineView {
            id: id,
            version: 0,
            route: Seq::empty(),
            short_name: Seq::empty(),
            long_name: Seq::empty(),
            operation_time: Seq::empty(),
            stations: Seq::empty(),
        },
        tag: Seq::empty(),
        last_text: Seq::empty(),
        key: Seq::empty(),
        station: empty_station(),
    }
}

/// The last text, decrypted with the current key.
pub open spec fn decrypted_last(s: BusLineReaderView) -> Result<Seq<char>, ApiError> {
    match decrypt_text_result(s.key, s.last_text) {
        Ok(t) => Ok(t),
        Err(e) => Err(ApiError::Cipher(e)),
    }
}

/// One event of a bus line document. Text is remembered as the last text;
/// the end of an element uses it: `lineid` keys the cipher with it,
/// `coord` appends the positions it encrypts, `version` is its number,
/// `shotname`, `linename` are the decrypted names, `time` is the operating
/// time as it stands; `name`, `lat`, `lon` fill in the current station
/// (decrypted), and `station` adds the current station to the line and
/// starts a new one.
pub open spec fn busline_step(s: BusLineReaderView, ev: XmlEvent) -> Result<
    BusLineReaderView,
    ApiError,
> {
    match ev {
        XmlEvent::StartElement(name) => Ok(BusLineReaderView { tag: name@, ..s }),
        XmlEvent::Characters(text) => Ok(BusLineReaderView { last_text: text@, ..s }),
        XmlEvent::Other => Ok(s),
        XmlEvent::EndElement(name) => {
            let n = name@;
            if n == "lineid"@ {
                Ok(BusLineReaderView { key: aibang_prefix() + s.last_text, ..s })
            } else if n == "coord"@ {
                match decrypted_last(s) {
                    Ok(raw) => Ok(
                        BusLineReaderView {
                            line: BusLineView {
                                route: s.line.route + coord_pairs(split_commas(raw)),
                                ..s.line
                            },
                            ..s
                        },
                    ),
                    Err(e) => Err(e),
                }
            } else if n == "version"@ {
                match parse_i32_spec(s.last_text) {
                    Some(v) => Ok(
                        BusLineReaderView { line: BusLineView { version: v, ..s.line }, ..s },
                    ),
                    None => Err(ApiError::BadInteger),
                }
            } else if n == "shotname"@ {
                match decrypted_last(s) {
                    Ok(t) => Ok(
                        BusLineReaderView { line: BusLineView { short_name: t, ..s.line }, ..s },
                    ),
                    Err(e) => Err(e),
                }
            } else if n == "linename"@ {
                match decrypted_last(s) {
                    Ok(t) => Ok(
                        BusLineReaderView { line: BusLineView { long_name: t, ..s.line }, ..s },
                    ),
                    Err(e) => Err(e),
                }
            } else if n == "time"@ {
                Ok(
                    BusLineReaderView {
                        line: BusLineView { operation_time: s.last_text, ..s.line },
                        ..s
                    },
                )
            } else if n == "name"@ {
                match decrypted_last(s) {
                    Ok(t) => Ok(
                        BusLineReaderView { station: StationView { name: t, ..s.station }, ..s },
                    ),
                    Err(e) => Err(e),
                }
            } else if n == "lat"@ {
                match decrypted_last(s) {
                    Ok(t) => Ok(
                        BusLineReaderView {
                            station: StationView {
                                coords: (t, s.station.coords.1),
                                ..s.station
                            },
                            ..s
                        },
                    ),
                    Err(e) => Err(e),
                }
            } else if n == "lon"@ {
                match decrypted_last(s) {
                    Ok(t) => Ok(
                        BusLineReaderView {
                            station: StationView {
                                coords: (s.station.coords.0, t),
                                ..s.station
                            },
                            ..s
                        },
                    ),
                    Err(e) => Err(e),
                }
            } else if n == "station"@ {
                Ok(
                    BusLineReaderView {
                        line: BusLineView {
                            stations: s.line.stations.push(s.station),
                            ..s.line
                        },
                        station: empty_station(),
                        ..s
                    },
                )
            } else {
                Ok(s)
            }
        },
    }
}

/// The state after the events `events` of the document of line `id`, or
/// the first error.
pub open spec fn busline_after(id: i32, events: Seq<XmlEvent>) -> Result<
    BusLineReaderView,
    ApiError,
>
    decreases events.len(),
{
    if events.len() == 0 {
        Ok(busline_start(id))
    } else {
        match busline_after(id, events.drop_last()) {
            Ok(s) => busline_step(s, events.last()),
            Err(e) => Err(e),
        }
    }
}

/// Reads the document that describes one bus line.
pub struct BusLineReader {
    line: BusLine,
    current_tag: String,
    last_text: String,
    cipher: Cipher,
    current_station: BusStation,
}

impl View for BusLineReader {
    type V = BusLineReaderView;

    closed spec fn view(&self) -> BusLineReaderView {
        BusLineReaderView {
            line: self.line@,
            tag: self.current_tag@,
            last_text: self.last_text@,
            key: self.cipher.key@,
            station: self.current_station@,
        }
    }
}

/// The positions of the decrypted `coord` text `raw`.
fn route_points(raw: &str) -> (points: Vec<LatLngText>)
    ensures
        route_view(points@) == coord_pairs(split_commas(raw@)),
{
    let pieces = split_commas_exec(raw);
    let ghost all = texts(pieces@);
    let pairs = pieces.len() / 2;
    let mut points: Vec<LatLngText> = Vec::new();
    let mut k: usize = 0;
    while k < pairs
        invariant
            pairs == pieces@.len() / 2,
            pieces@.len() <= usize::MAX,
            all == texts(pieces@),
            k <= pairs,
            route_view(points@) =~= coord_pairs(all).take(k as int),
        decreases pairs - k,
    {
        let at: usize = k + k;
        let lng = pieces[at].clone();
        let lat = pieces[at + 1].clone();
        let p = LatLngText { lat: lat, lng: lng };
        proof {
            assert(route_view(points@.push(p)) =~= route_view(points@).push(p@));
            assert(coord_pairs(all).take(k + 1) =~= coord_pairs(all).take(k as int).push(
                coord_pairs(all)[k as int],
            ));
        }
        points.push(p);
        k = k + 1;
    }
    assert(coord_pairs(all).take(pairs as int) =~= coord_pairs(all));
    points
}

impl BusLineReader {
    pub fn new(id: i32) -> (r: BusLineReader)
        ensures
            r@ == busline_start(id),
    {
        BusLineReader {
            line: BusLine::new(id),
            current_tag: String::new(),
            last_text: String::new(),
            cipher: Cipher::new(),
            current_station: BusStation::new(),
        }
    }

    /// The last text, decrypted with the current key.
    fn decrypt_last(&mut self) -> (r: Result<String, ApiError>)
        ensures
            final(self)@ == old(self)@,
            match r {
                Ok(t) => decrypted_last(old(self)@) == Ok::<Seq<char>, ApiError>(t@),
                Err(e) => decrypted_last(old(self)@) == Err::<Seq<char>, ApiError>(e),
            },
    {
        match self.cipher.decrypt_str(self.last_text.as_str()) {
            Ok(t) => Ok(t),
            Err(e) => Err(ApiError::Cipher(e)),
        }
    }

    /// Takes in one event.
    pub fn feed(&mut self, ev: &XmlEvent) -> (r: Result<(), ApiError>)
        ensures
            match r {
                Ok(_) => busline_step(old(self)@, *ev) == Ok::<BusLineReaderView, ApiError>(
                    final(self)@,
                ),
                Err(e) => busline_step(old(self)@, *ev) == Err::<BusLineReaderView, ApiError>(e),
            },
    {
        match ev {
            XmlEvent::StartElement(name) => {
                self.current_tag = name.clone();
            },
            XmlEvent::Characters(text) => {
                self.last_text = text.clone();
            },
            XmlEvent::Other => {},
            XmlEvent::EndElement(name) => {
                if text_is(name, "lineid") {
                    self.cipher.set_aibang_key(self.last_text.as_str());
                } else if text_is(name, "coord") {
                    let raw = self.decrypt_last()?;
                    let mut points = route_points(raw.as_str());
                    let ghost before = self.line.route@;
                    self.line.route.append(&mut points);
                    assert(route_view(self.line.route@) =~= route_view(before) + coord_pairs(
                        split_commas(raw@),
                    ));
                } else if text_is(name, "version") {
                    match parse_i32(self.last_text.as_str()) {
                        Some(v) => self.line.version = v,
                        None => return Err(ApiError::BadInteger),
                    }
                } else if text_is(name, "shotname") {
                    self.line.short_name = self.decrypt_last()?;
                } else if text_is(name, "linename") {
                    self.line.long_name = self.decrypt_last()?;
                } else if text_is(name, "time") {
                    self.line.operation_time = self.last_text.clone();
                } else if text_is(name, "name") {
                    self.current_station.name = self.decrypt_last()?;
                } else if text_is(name, "lat") {
                    self.current_station.coords.lat = self.decrypt_last()?;
                } else if text_is(name, "lon") {
                    self.current_station.coords.lng = self.decrypt_last()?;
                } else if text_is(name, "station") {
                    let mut done = BusStation::new();
                    std::mem::swap(&mut done, &mut self.current_station);
                    let ghost before = self.line.stations@;
                    self.line.stations.push(done);
                    assert(stations_view(self.line.stations@) =~= stations_view(before).push(
                        done@,
                    ));
                }
            },
        }
        Ok(())
    }

    /// The line as read so far.
    pub fn into_line(self) -> (line: BusLine)
        ensures
            line@ == self@.line,
    {
        self.line
    }
}

/// Reads the whole document that describes line `id`.
pub fn read_busline(id: i32, events: &Vec<XmlEvent>) -> (r: Result<BusLine, ApiError>)
    ensures
        match r {
            Ok(line) => busline_after(id, events@) matches Ok(s) && line@ == s.line,
            Err(e) => busline_after(id, events@) == Err::<BusLineReaderView, ApiError>(e),
        },
{
    let mut reader = BusLineReader::new(id);
    let mut i: usize = 0;
    while i < events.len()
        invariant
            i <= events@.len(),
            busline_after(id, events@.take(i as int)) == Ok::<BusLineReaderView, ApiError>(
                reader@,
            ),
        decreases events@.len() - i,
    {
        assert(events@.take(i + 1).drop_last() =~= events@.take(i as int));
        match reader.feed(&events[i]) {
            Ok(_) => {},
            Err(e) => {
                proof {
                    lemma_busline_error_sticks(id, events@, i as int + 1);
                }
                return Err(e);
            },
        }
        i = i + 1;
    }
    assert(events@.take(events@.len() as int) =~= events@);
    Ok(reader.into_line())
}

/// Once reading a line fails, it stays failed with the same error,
/// whatever events follow.
pub proof fn lemma_busline_error_sticks(id: i32, events: Seq<XmlEvent>, n: int)
    requires
        0 <= n <= events.len(),
        busline_after(id, events.take(n)) is Err,
    ensures
        busline_after(id, events) == busline_after(id, events.take(n)),
    decreases events.len() - n,
{
    if n < events.len() {
        assert(events.take(n + 1).drop_last() =~= events.take(n));
        lemma_busline_error_sticks(id, events, n + 1);
    } else {
        assert(events.take(n) =~= events);
    }
}


// ---------------------------------------------------------------------------
// The real-time trace of a line
// ---------------------------------------------------------------------------

/// What a line of the real-time trace shows.
#[derive(Debug, Clone, Copy, PartialEq, Eq, Structural)]
pub enum TraceKind {
    /// An element opens: `<name>`.
    Open,
    /// An element closes: `</name>`.
    Close,
    /// The (decrypted) text of an element.
    Text,
}

/// One line of the real-time trace.
#[derive(Debug)]
pub struct TraceLine {
    pub kind: TraceKind,
    pub text: String,
}

impl View for TraceLine {
    type V = (TraceKind, Seq<char>);

    open spec fn view(&self) -> (TraceKind, Seq<char>) {
        (self.kind, self.text@)
    }
}

/// The views of a sequence of trace lines.
pub open spec fn trace_view(lines: Seq<TraceLine>) -> Seq<(TraceKind, Seq<char>)> {
    lines.map_values(|l: TraceLine| l@)
}

/// The state of reading a real-time document.
pub struct RealtimeView {
    pub tag: Seq<char>,
    pub last_text: Seq<char>,
    pub key: Seq<char>,
}

/// The state before the first event.
pub open spec fn realtime_start() -> RealtimeView {
    RealtimeView { tag: Seq::empty(), last_text: Seq::empty(), key: Seq::empty() }
}

/// The elements whose text the service encrypts.
pub open spec fn is_encrypted_tag(tag: Seq<char>) -> bool {
    ||| tag == "ns"@
    ||| tag == "nsn"@
    ||| tag == "sd"@
    ||| tag == "srt"@
    ||| tag == "st"@
    ||| tag == "x"@
    ||| tag == "y"@
}

/// One event of a real-time document and the trace line it shows. A start
/// element becomes the current tag; the end of `gt` keys the cipher with
/// the last text; text under an encrypted tag is decrypted, other text is
/// kept as it is, and either becomes the last text.
pub open spec fn realtime_step(s: RealtimeView, ev: XmlEvent) -> Result<
    (RealtimeView, Option<(TraceKind, Seq<char>)>),
    ApiError,
> {
    match ev {
        XmlEvent::StartElement(name) => Ok(
            (RealtimeView { tag: name@, ..s }, Some((TraceKind::Open, name@))),
        ),
        XmlEvent::EndElement(name) => Ok(
            (
                if name@ == "gt"@ {
                    RealtimeView { key: aibang_prefix() + s.last_text, ..s }
                } else {
                    s
                },
                Some((TraceKind::Close, name@)),
            ),
        ),
        XmlEvent::Characters(text) => if is_encrypted_tag(s.tag) {
            match decrypt_text_result(s.key, text@) {
                Ok(plain) => Ok(
                    (RealtimeView { last_text: plain, ..s }, Some((TraceKind::Text, plain))),
                ),
                Err(e) => Err(ApiError::Cipher(e)),
            }
        } else {
            Ok((RealtimeView { last_text: text@, ..s }, Some((TraceKind::Text, text@))))
        },
        XmlEvent::Other => Ok((s, None)),
    }
}

/// The seven elements whose text is encrypted, spelled out.
proof fn lemma_encrypted_tag_names()
    ensures
        "ns"@ == seq!['n', 's'],
        "nsn"@ == seq!['n', 's', 'n'],
        "sd"@ == seq!['s', 'd'],
        "srt"@ == seq!['s', 'r', 't'],
        "st"@ == seq!['s', 't'],
        "x"@ == seq!['x'],
        "y"@ == seq!['y'],
{
    reveal_strlit("ns");
    reveal_strlit("nsn");
    reveal_strlit("sd");
    reveal_strlit("srt");
    reveal_strlit("st");
    reveal_strlit("x");
    reveal_strlit("y");
    assert("ns"@ =~= seq!['n', 's']);
    assert("nsn"@ =~= seq!['n', 's', 'n']);
    assert("sd"@ =~= seq!['s', 'd']);
    assert("srt"@ =~= seq!['s', 'r', 't']);
    assert("st"@ =~= seq!['s', 't']);
    assert("x"@ =~= seq!['x']);
    assert("y"@ =~= seq!['y']);
}

/// Text inside `ns`, `nsn`, `sd`, `srt`, `st`, `x` or `y` is decrypted with
/// the current key: the trace shows the plain text and it becomes the last
/// text; a field that does not decrypt is an error.
pub proof fn lemma_encrypted_fields_are_decrypted(s: RealtimeView, text: String)
    requires
        s.tag == seq!['n', 's'] || s.tag == seq!['n', 's', 'n'] || s.tag == seq!['s', 'd']
            || s.tag == seq!['s', 'r', 't'] || s.tag == seq!['s', 't'] || s.tag == seq!['x']
            || s.tag == seq!['y'],
    ensures
        realtime_step(s, XmlEvent::Characters(text)) == match decrypt_text_result(s.key, text@) {
            Ok(plain) => Ok::<(RealtimeView, Option<(TraceKind, Seq<char>)>), ApiError>(
                (
                    RealtimeView { tag: s.tag, last_text: plain, key: s.key },
                    Some((TraceKind::Text, plain)),
                ),
            ),
            Err(e) => Err::<(RealtimeView, Option<(TraceKind, Seq<char>)>), ApiError>(
                ApiError::Cipher(e),
            ),
        },
{
    lemma_encrypted_tag_names();
}

/// Text inside any other element is shown and kept as it stands.
pub proof fn lemma_plain_fields_are_kept(s: RealtimeView, text: String)
    requires
        s.tag != seq!['n', 's'] && s.tag != seq!['n', 's', 'n'] && s.tag != seq!['s', 'd']
            && s.tag != seq!['s', 'r', 't'] && s.tag != seq!['s', 't'] && s.tag != seq!['x']
            && s.tag != seq!['y'],
    ensures
        realtime_step(s, XmlEvent::Characters(text)) == Ok::<
            (RealtimeView, Option<(TraceKind, Seq<char>)>),
            ApiError,
        >(
            (
                RealtimeView { tag: s.tag, last_text: text@, key: s.key },
                Some((TraceKind::Text, text@)),
            ),
        ),
{
    lemma_encrypted_tag_names();
}

/// The state and the trace after the events `events`, or the first error.
pub open spec fn realtime_after(events: Seq<XmlEvent>) -> Result<
    (RealtimeView, Seq<(TraceKind, Seq<char>)>),
    ApiError,
>
    decreases events.len(),
{
    if events.len() == 0 {
        Ok((realtime_start(), Seq::empty()))
    } else {
        match realtime_after(events.drop_last()) {
            Ok((s, trace)) => match realtime_step(s, events.last()) {
                Ok((s2, Some(line))) => Ok((s2, trace.push(line))),
                Ok((s2, None)) => Ok((s2, trace)),
                Err(e) => Err(e),
            },
            Err(e) => Err(e),
        }
    }
}

/// Reads the real-time document of a line.
pub struct RealtimeReader {
    current_tag: String,
    last_text: String,
    cipher: Cipher,
}

impl View for RealtimeReader {
    type V = RealtimeView;

    closed spec fn view(&self) -> RealtimeView {
        RealtimeView { tag: self.current_tag@, last_text: self.last_text@, key: self.cipher.key@ }
    }
}

/// The current tag is one whose text the service encrypts.
fn encrypted_tag(tag: &String) -> (b: bool)
    ensures
        b == is_encrypted_tag(tag@),
{
    text_is(tag, "ns") || text_is(tag, "nsn") || text_is(tag, "sd") || text_is(tag, "srt")
        || text_is(tag, "st") || text_is(tag, "x") || text_is(tag, "y")
}

impl RealtimeReader {
    pub fn new() -> (r: RealtimeReader)
        ensures
            r@ == realtime_start(),
    {
        RealtimeReader { current_tag: String::new(), last_text: String::new(), cipher: Cipher::new() }
    }

    /// Takes in one event, and gives the trace line it shows, if any.
    pub fn feed(&mut self, ev: &XmlEvent) -> (r: Result<Option<TraceLine>, ApiError>)
        ensures
            match r {
                Ok(Some(line)) => realtime_step(old(self)@, *ev) == Ok::<
                    (RealtimeView, Option<(TraceKind, Seq<char>)>),
                    ApiError,
                >((final(self)@, Some(line@))),
                Ok(None) => realtime_step(old(self)@, *ev) == Ok::<
                    (RealtimeView, Option<(TraceKind, Seq<char>)>),
                    ApiError,
                >((final(self)@, None)),
                Err(e) => realtime_step(old(self)@, *ev) == Err::<
                    (RealtimeView, Option<(TraceKind, Seq<char>)>),
                    ApiError,
                >(e),
            },
    {
        match ev {
            XmlEvent::StartElement(name) => {
                self.current_tag = name.clone();
                Ok(Some(TraceLine { kind: TraceKind::Open, text: name.clone() }))
            },
            XmlEvent::EndElement(name) => {
                if text_is(name, "gt") {
                    self.cipher.set_aibang_key(self.last_text.as_str());
                }
                Ok(Some(TraceLine { kind: TraceKind::Close, text: name.clone() }))
            },
            XmlEvent::Characters(text) => {
                if encrypted_tag(&self.current_tag) {
                    match self.cipher.decrypt_str(text.as_str()) {
                        Ok(plain) => self.last_text = plain,
                        Err(e) => return Err(ApiError::Cipher(e)),
                    }
                } else {
                    self.last_text = text.clone();
                }
                Ok(Some(TraceLine { kind: TraceKind::Text, text: self.last_text.clone() }))
            },
            XmlEvent::Other => Ok(None),
        }
    }
}

/// Reads a whole real-time document: the trace lines it shows, in order.
pub fn read_realtime(events: &Vec<XmlEvent>) -> (r: Result<Vec<TraceLine>, ApiError>)
    ensures
        match r {
            Ok(lines) => realtime_after(events@) matches Ok((_, trace)) && trace_view(lines@)
                == trace,
            Err(e) => realtime_after(events@) == Err::<
                (RealtimeView, Seq<(TraceKind, Seq<char>)>),
                ApiError,
            >(e),
        },
{
    let mut reader = RealtimeReader::new();
    let mut lines: Vec<TraceLine> = Vec::new();
    let mut i: usize = 0;
    assert(trace_view(lines@) =~= Seq::empty());
    while i < events.len()
        invariant
            i <= events@.len(),
            realtime_after(events@.take(i as int)) == Ok::<
                (RealtimeView, Seq<(TraceKind, Seq<char>)>),
                ApiError,
            >((reader@, trace_view(lines@))),
        decreases events@.len() - i,
    {
        assert(events@.take(i + 1).drop_last() =~= events@.take(i as int));
        match reader.feed(&events[i]) {
            Ok(Some(line)) => {
                proof {
                    assert(trace_view(lines@.push(line)) =~= trace_view(lines@).push(line@));
                }
                lines.push(line);
            },
            Ok(None) => {},
            Err(e) => {
                proof {
                    lemma_realtime_error_sticks(events@, i as int + 1);
                }
                return Err(e);
            },
        }
        i = i + 1;
    }
    assert(events@.take(events@.len() as int) =~= events@);
    Ok(lines)
}

/// Once reading a real-time document fails, it stays failed with the same
/// error, whatever events follow.
pub proof fn lemma_realtime_error_sticks(events: Seq<XmlEvent>, n: int)
    requires
        0 <= n <= events.len(),
        realtime_after(events.take(n)) is Err,
    ensures
        realtime_after(events) == realtime_after(events.take(n)),
    decreases events.len() - n,
{
    if n < events.len() {
        assert(events.take(n + 1).drop_last() =~= events.take(n));
        lemma_realtime_error_sticks(events, n + 1);
    } else {
        assert(events.take(n) =~= events);
    }
}


// ---------------------------------------------------------------------------
// Whole documents, as the service sends them
// ---------------------------------------------------------------------------

/// Reads the list document `doc`: the `(id, version)` of every line whose
/// status is 0, in document order.
pub fn read_id_versions_document(doc: &[u8]) -> (r: Result<Vec<(i32, i32)>, ApiError>)
    ensures
        match r {
            Ok(v) => id_versions_after(xml_events(doc@)) matches Ok(s) && v@ == s.found,
            Err(e) => id_versions_after(xml_events(doc@)) == Err::<IdVersionsView, ApiError>(e),
        },
{
    let events = parse_xml(doc);
    read_id_versions(&events)
}

/// Reads the document `doc` that describes line `id`.
pub fn read_busline_document(id: i32, doc: &[u8]) -> (r: Result<BusLine, ApiError>)
    ensures
        match r {
            Ok(line) => busline_after(id, xml_events(doc@)) matches Ok(s) && line@ == s.line,
            Err(e) => busline_after(id, xml_events(doc@)) == Err::<BusLineReaderView, ApiError>(
                e,
            ),
        },
{
    let events = parse_xml(doc);
    read_busline(id, &events)
}

/// Reads the real-time document `doc`: the trace lines it shows, in order.
pub fn read_realtime_document(doc: &[u8]) -> (r: Result<Vec<TraceLine>, ApiError>)
    ensures
        match r {
            Ok(lines) => realtime_after(xml_events(doc@)) matches Ok((_, trace)) && trace_view(
                lines@,
            ) == trace,
            Err(e) => realtime_after(xml_events(doc@)) == Err::<
                (RealtimeView, Seq<(TraceKind, Seq<char>)>),
                ApiError,
            >(e),
        },
{
    let events = parse_xml(doc);
    read_realtime(&events)
}

} // verus!
