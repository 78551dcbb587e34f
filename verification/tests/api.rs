use beijing_bus::api::{
    read_busline, read_id_versions, read_realtime, ApiError, BusLineReader, IdVersionsReader,
    RealtimeReader, TraceKind, XmlEvent,
};
use beijing_bus::cipher::{Cipher, CipherError};
use rustc_serialize::base64::{ToBase64, STANDARD};

fn start(n: &str) -> XmlEvent {
    XmlEvent::StartElement(n.to_string())
}
fn end(n: &str) -> XmlEvent {
    XmlEvent::EndElement(n.to_string())
}
fn text(t: &str) -> XmlEvent {
    XmlEvent::Characters(t.to_string())
}
fn element(n: &str, t: &str) -> Vec<XmlEvent> {
    vec![start(n), text(t), end(n)]
}

/// The base64 field that decrypts to `plain` under the key `"aibang" + key`.
fn encrypt(key: &str, plain: &str) -> String {
    let mut c = Cipher::new();
    c.set_aibang_key(key);
    let mut out = vec![0u8; plain.len()];
    c.translate(plain.as_bytes(), &mut out);
    out.to_base64(STANDARD)
}

fn line_entry(id: &str, status: &str, version: &str) -> Vec<XmlEvent> {
    let mut v = vec![start("line")];
    v.extend(element("id", id));
    v.extend(element("status", status));
    v.extend(element("version", version));
    v.push(end("line"));
    v
}

#[test]
fn id_versions_keep_lines_with_status_zero() {
    let mut events = vec![XmlEvent::Other, start("root")];
    events.extend(line_entry("12", "0", "3"));
    events.extend(line_entry("13", "1", "4"));
    events.extend(line_entry("-14", "0", "5"));
    events.push(end("root"));
    assert_eq!(read_id_versions(&events).unwrap(), vec![(12, 3), (-14, 5)]);

    let mut reader = IdVersionsReader::new();
    for ev in events.iter() {
        reader.feed(ev).unwrap();
    }
    assert_eq!(reader.into_line_id_versions(), vec![(12, 3), (-14, 5)]);
}

#[test]
fn id_versions_status_carries_over_between_lines() {
    // A line without a status element keeps the status of the line before.
    let mut events = line_entry("1", "2", "1");
    events.extend(vec![start("line"), start("id"), text("9"), end("id"), end("line")]);
    assert_eq!(read_id_versions(&events).unwrap(), vec![]);
}

#[test]
fn id_versions_bad_number() {
    let events = line_entry("x1", "0", "3");
    assert_eq!(read_id_versions(&events), Err(ApiError::BadInteger));
    let mut events = line_entry("1", "0", "");
    events.extend(line_entry("2", "0", "3"));
    assert_eq!(read_id_versions(&events), Err(ApiError::BadInteger));
    let mut reader = IdVersionsReader::new();
    reader.feed(&start("status")).unwrap();
    assert_eq!(reader.feed(&text("ok")), Err(ApiError::BadInteger));
}

fn busline_document() -> Vec<XmlEvent> {
    let mut events = vec![start("root")];
    events.extend(element("lineid", "369"));
    events.extend(element("coord", &encrypt("369", "116.1,39.9,116.2,39.8,116.3")));
    events.extend(element("no", "whatever"));
    events.extend(element("version", "7"));
    events.extend(element("shotname", &encrypt("369", "369")));
    events.extend(element("linename", &encrypt("369", "369(三家店-东口)")));
    events.extend(element("time", "5:00-23:00"));
    events.push(start("station"));
    events.extend(element("name", &encrypt("369", "三家店东口")));
    events.extend(element("lat", &encrypt("369", "39.95")));
    events.extend(element("lon", &encrypt("369", "116.37")));
    events.push(end("station"));
    events.push(start("station"));
    events.extend(element("name", &encrypt("369", "北站")));
    events.push(end("station"));
    events.push(end("root"));
    events
}

#[test]
fn busline_is_read_and_decrypted() {
    let line = read_busline(369, &busline_document()).unwrap();
    assert_eq!(line.id, 369);
    assert_eq!(line.version, 7);
    assert_eq!(line.short_name, "369");
    assert_eq!(line.long_name, "369(三家店-东口)");
    assert_eq!(line.operation_time, "5:00-23:00");
    let route: Vec<(String, String)> =
        line.route.iter().map(|p| (p.lat.clone(), p.lng.clone())).collect();
    assert_eq!(
        route,
        vec![
            ("39.9".to_string(), "116.1".to_string()),
            ("39.8".to_string(), "116.2".to_string())
        ]
    );
    assert_eq!(line.stations.len(), 2);
    assert_eq!(line.stations[0].name, "三家店东口");
    assert_eq!(line.stations[0].coords.lat, "39.95");
    assert_eq!(line.stations[0].coords.lng, "116.37");
    assert_eq!(line.stations[1].name, "北站");
    assert_eq!(line.stations[1].coords.lat, "0");
    assert_eq!(line.stations[1].coords.lng, "0");
    assert_eq!(line.display_text(), "<BUS:369(三家店-东口) 5:00-23:00 (2站) id=369#7>");

    let mut reader = BusLineReader::new(369);
    for ev in busline_document().iter() {
        reader.feed(ev).unwrap();
    }
    assert_eq!(reader.into_line().stations.len(), 2);
}

#[test]
fn busline_errors() {
    let mut events = element("lineid", "1");
    events.extend(element("linename", "***"));
    assert_eq!(read_busline(1, &events).err(), Some(ApiError::Cipher(CipherError::InvalidBase64)));
    let events = element("version", "v2");
    assert_eq!(read_busline(1, &events).err(), Some(ApiError::BadInteger));
    // Fields encrypted under another key do not decode as the line's text.
    let mut events = element("lineid", "2");
    let mut c = Cipher::new();
    c.set_aibang_key("3");
    let mut raw = vec![0u8; 2];
    c.translate(&[0xc3, 0x28], &mut raw);
    let mut d = Cipher::new();
    d.set_aibang_key("2");
    let mut other = vec![0u8; 2];
    d.translate(&[0xc3, 0x28], &mut other);
    events.extend(element("name", &other.to_base64(STANDARD)));
    assert_eq!(read_busline(2, &events).err(), Some(ApiError::Cipher(CipherError::InvalidUtf8)));
}

#[test]
fn empty_busline_document() {
    let line = read_busline(5, &vec![]).unwrap();
    assert_eq!(line.id, 5);
    assert_eq!(line.version, 0);
    assert!(line.route.is_empty() && line.stations.is_empty());
    assert_eq!(line.display_text(), "<BUS:  (0站) id=5#0>");
}

#[test]
fn realtime_trace_decrypts_encrypted_fields() {
    let mut events = vec![start("root")];
    events.extend(element("gt", "1413772960"));
    events.push(start("bus"));
    events.extend(element("ns", "ycCx9MhBlIC3XYEfN4ZZ"));
    events.extend(element("id", "88"));
    events.push(XmlEvent::Other);
    events.push(end("bus"));
    let lines = read_realtime(&events).unwrap();
    let shown: Vec<(TraceKind, String)> = lines.iter().map(|l| (l.kind, l.text.clone())).collect();
    let expect = vec![
        (TraceKind::Open, "root"),
        (TraceKind::Open, "gt"),
        (TraceKind::Text, "1413772960"),
        (TraceKind::Close, "gt"),
        (TraceKind::Open, "bus"),
        (TraceKind::Open, "ns"),
        (TraceKind::Text, "三家店东口"),
        (TraceKind::Close, "ns"),
        (TraceKind::Open, "id"),
        (TraceKind::Text, "88"),
        (TraceKind::Close, "id"),
        (TraceKind::Close, "bus"),
    ];
    let expect: Vec<(TraceKind, String)> =
        expect.into_iter().map(|(k, t)| (k, t.to_string())).collect();
    assert_eq!(shown, expect);

    let mut reader = RealtimeReader::new();
    assert!(reader.feed(&XmlEvent::Other).unwrap().is_none());
    reader.feed(&start("x")).unwrap();
    assert_eq!(
        reader.feed(&text("not base64!")).err(),
        Some(ApiError::Cipher(CipherError::InvalidBase64))
    );
}
