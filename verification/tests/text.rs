use phonenumber::text::{decode, parse_bool, parse_u16, same_bytes};
use phonenumber::xml::{scan, XmlEvent};

#[test]
fn parses_u16_like_std() {
    for text in ["0", "1", "+44", "65535", "65536", "", "+", "-1", " 1", "1a", "99999a", "007"] {
        assert_eq!(parse_u16(text.as_bytes()), text.parse::<u16>().ok(), "{:?}", text);
    }
    assert_eq!(parse_u16(b"+12"), Some(12));
}

#[test]
fn parses_bool_like_std() {
    for text in ["true", "false", "True", "", "yes", "truee"] {
        assert_eq!(parse_bool(text.as_bytes()), text.parse::<bool>().ok(), "{:?}", text);
    }
}

#[test]
fn compares_bytes() {
    assert!(same_bytes(b"abc", b"abc"));
    assert!(!same_bytes(b"abc", b"abd"));
    assert!(!same_bytes(b"abc", b"ab"));
    assert!(same_bytes(b"", b""));
}

#[test]
fn decodes_utf8() {
    assert_eq!(decode("é1".as_bytes()), Some("é1".to_string()));
    assert_eq!(decode(&[0xff]), None);
    assert_eq!(decode(b""), Some(String::new()));
}

#[test]
fn scans_events() {
    let d = scan(b"<a x=\"1\" y='2'>t<b/><!-- c --></a>");
    assert!(d.failure.is_none());
    assert_eq!(d.events.len(), 5);
    match &d.events[0] {
        XmlEvent::Start { name, attributes } => {
            assert_eq!(name, b"a");
            assert_eq!(attributes.len(), 2);
            let first = attributes[0].as_ref().unwrap();
            assert_eq!((first.key.as_slice(), first.value.as_slice()), (&b"x"[..], &b"1"[..]));
            let second = attributes[1].as_ref().unwrap();
            assert_eq!((second.key.as_slice(), second.value.as_slice()), (&b"y"[..], &b"2"[..]));
        }
        other => panic!("{:?}", other),
    }
    assert!(matches!(&d.events[1], XmlEvent::Text { content } if content == b"t"));
    assert!(matches!(&d.events[2], XmlEvent::Other));
    assert!(matches!(&d.events[3], XmlEvent::Other));
    assert!(matches!(&d.events[4], XmlEvent::End { name } if name == b"a"));
}

#[test]
fn scan_stops_on_malformed_input() {
    let d = scan(b"<a></b>");
    assert!(d.failure.is_some());
    assert_eq!(d.events.len(), 1);
    let d = scan(b"");
    assert!(d.failure.is_none());
    assert!(d.events.is_empty());
}

#[test]
fn scan_keeps_attribute_errors() {
    let d = scan(b"<a k=v>");
    match &d.events[0] {
        XmlEvent::Start { attributes, .. } => {
            assert_eq!(attributes.len(), 1);
            assert!(attributes[0].is_err());
        }
        other => panic!("{:?}", other),
    }
}

fn quick_xml_message(input: &[u8]) -> String {
    let mut reader = quick_xml::Reader::from_reader(input);
    loop {
        match reader.read_event() {
            Ok(quick_xml::events::Event::Eof) => panic!("no error"),
            Ok(_) => {}
            Err(e) => return e.to_string(),
        }
    }
}

#[test]
fn scan_keeps_the_tokenizer_message() {
    let input = b"<a><c></c></b>";
    let d = scan(input);
    let expected = quick_xml_message(input);
    assert!(!expected.is_empty());
    assert_eq!(d.failure, Some(expected.clone()));
    assert_eq!(
        phonenumber::loader::load(input).unwrap_err(),
        phonenumber::error::LoadError::Xml(expected)
    );
}
