use slatron::xml::{parse_xml_to_value, xml_events_to_value, XmlEvent, XmlValue};

fn entries(v: &XmlValue) -> &Vec<(String, XmlValue)> {
    match v {
        XmlValue::Object(e) => e,
        _ => panic!("not an object"),
    }
}

fn get<'a>(v: &'a XmlValue, key: &str) -> &'a XmlValue {
    entries(v).iter().find(|(k, _)| k == key).map(|(_, v)| v).expect("key present")
}

fn text(v: &XmlValue) -> &str {
    match v {
        XmlValue::Str(s) => s,
        _ => panic!("not a string"),
    }
}

fn start(name: &str, attributes: &[(&str, &str)]) -> XmlEvent {
    XmlEvent::Start {
        name: name.to_string(),
        attributes: attributes.iter().map(|(k, v)| (k.to_string(), v.to_string())).collect(),
    }
}

#[test]
fn xml_repeated_elements_become_a_list() {
    let v = parse_xml_to_value("<a x=\"1\"><b>hi</b><b>yo</b><c/></a>");
    assert_eq!(entries(&v).len(), 1);
    let a = get(&v, "a");
    assert_eq!(entries(a).len(), 3);
    assert_eq!(text(get(a, "@x")), "1");
    match get(a, "b") {
        XmlValue::List(items) => {
            assert_eq!(items.len(), 2);
            assert_eq!(text(get(&items[0], "$text")), "hi");
            assert_eq!(text(get(&items[1], "$text")), "yo");
        }
        _ => panic!("b should be a list"),
    }
    assert!(entries(get(a, "c")).is_empty());
}

#[test]
fn xml_third_repeat_extends_the_list() {
    let v = parse_xml_to_value("<r><i/><i/><i/></r>");
    match get(get(&v, "r"), "i") {
        XmlValue::List(items) => assert_eq!(items.len(), 3),
        _ => panic!("i should be a list"),
    }
}

#[test]
fn xml_text_and_cdata_are_joined() {
    let v = parse_xml_to_value("<a>x<![CDATA[y]]>z</a>");
    assert_eq!(text(get(get(&v, "a"), "$text")), "xyz");
}

#[test]
fn xml_text_is_trimmed_and_unescaped() {
    let v = parse_xml_to_value("<a>  fish &amp; chips  </a>");
    assert_eq!(text(get(get(&v, "a"), "$text")), "fish & chips");
}

#[test]
fn xml_unclosed_document_gives_innermost_element() {
    let v = parse_xml_to_value("<a><b>t");
    assert_eq!(entries(&v).len(), 1);
    assert_eq!(text(get(&v, "$text")), "t");
}

#[test]
fn xml_empty_input_gives_empty_object() {
    let v = parse_xml_to_value("");
    assert!(entries(&v).is_empty());
}

#[test]
fn xml_events_build_exact_value() {
    let events = vec![
        start("feed", &[("lang", "en"), ("lang", "fr")]),
        start("item", &[]),
        XmlEvent::Text("one".to_string()),
        XmlEvent::End,
        XmlEvent::Other,
        XmlEvent::Empty { name: "item".to_string(), attributes: vec![] },
        XmlEvent::End,
        XmlEvent::End,
    ];
    let v = xml_events_to_value(&events);
    let feed = get(&v, "feed");
    assert_eq!(text(get(feed, "@lang")), "fr");
    assert_eq!(entries(feed).len(), 2);
    match get(feed, "item") {
        XmlValue::List(items) => {
            assert_eq!(items.len(), 2);
            assert_eq!(text(get(&items[0], "$text")), "one");
            assert!(entries(&items[1]).is_empty());
        }
        _ => panic!("item should be a list"),
    }
}

#[test]
fn xml_text_replaces_a_non_string_text_entry() {
    let events = vec![
        start("a", &[]),
        start("$text", &[]),
        XmlEvent::End,
        XmlEvent::Text("q".to_string()),
        XmlEvent::Text(String::new()),
        XmlEvent::Text("r".to_string()),
    ];
    let v = xml_events_to_value(&events);
    assert_eq!(entries(&v).len(), 1);
    assert_eq!(text(get(&v, "$text")), "qr");
}
