use beijing_bus::api::{
    parse_xml, read_busline_document, read_id_versions_document, read_realtime_document,
    ApiError, TraceKind, XmlEvent,
};
use beijing_bus::request::{busline_info_url, check_update_url, realtime_url, request_headers};

fn kinds(events: &[XmlEvent]) -> Vec<String> {
    events
        .iter()
        .map(|e| match e {
            XmlEvent::StartElement(n) => format!("<{}", n),
            XmlEvent::EndElement(n) => format!("{}>", n),
            XmlEvent::Characters(t) => format!("'{}'", t),
            XmlEvent::Other => "-".to_string(),
        })
        .collect()
}

#[test]
fn xml_is_parsed_into_events() {
    let doc = b"<?xml version=\"1.0\"?><root>\n <a:id xmlns:a=\"x\">12</a:id><!--c--><n>&lt;b&gt;</n></root>";
    let events = parse_xml(doc);
    assert_eq!(
        kinds(&events),
        vec!["-", "<root", "-", "<id", "'12'", "id>", "<n", "'<b>'", "n>", "root>", "-"]
    );
    let broken = parse_xml(b"<root><a>1</b>");
    assert_eq!(broken.last().map(|e| matches!(e, XmlEvent::Other)), Some(true));
}

#[test]
fn id_list_document() {
    let doc = "<root>\n<line><id>12</id><status>0</status><version>3</version></line>\n\
               <line><id>13</id><status>1</status><version>4</version></line>\n</root>";
    assert_eq!(read_id_versions_document(doc.as_bytes()).unwrap(), vec![(12, 3)]);
    let bad = "<root><line><id>x</id></line></root>";
    assert_eq!(read_id_versions_document(bad.as_bytes()), Err(ApiError::BadInteger));
}

#[test]
fn line_and_realtime_documents() {
    let doc = "<root><lineid>1413772960</lineid><time>5:00-23:00</time>\
               <station><name>ycCx9MhBlIC3XYEfN4ZZ</name></station></root>";
    let line = read_busline_document(7, doc.as_bytes()).unwrap();
    assert_eq!(line.id, 7);
    assert_eq!(line.operation_time, "5:00-23:00");
    assert_eq!(line.stations[0].name, "三家店东口");

    let doc = "<root><gt>1413772960</gt><ns>ycCx9MhBlIC3XYEfN4ZZ</ns></root>";
    let trace = read_realtime_document(doc.as_bytes()).unwrap();
    let texts: Vec<String> =
        trace.iter().filter(|l| l.kind == TraceKind::Text).map(|l| l.text.clone()).collect();
    assert_eq!(texts, vec!["1413772960".to_string(), "三家店东口".to_string()]);
}

#[test]
fn requests() {
    let h = request_headers();
    assert_eq!(h.len(), 19);
    assert_eq!(h[0], ("SOURCE".to_string(), "1".to_string()));
    assert_eq!(h[10], ("UID".to_string(), "233333333333333333333333333333333333333".to_string()));
    assert_eq!(h[18], ("CUSTOM".to_string(), "aibang".to_string()));
    assert_eq!(check_update_url(), "http://mc.aibang.com/aiguang/bjgj.c?m=checkUpdate&version=1");
    assert_eq!(busline_info_url(369), "http://mc.aibang.com/aiguang/bjgj.c?m=update&id=369");
    assert_eq!(
        realtime_url(-5, 2000),
        "http://bjgj.aibang.com:8899/bus.php?city=%E5%8C%97%E4%BA%AC&id=-5&no=2000&type=2&encrypt=1&versionid=2"
    );
}
