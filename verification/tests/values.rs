use hafox::smartfox::{Error, ScanStep, SmartFoxValues, ValueScan};
use hafox::xml::XmlToken;
use quick_xml::errors::IllFormedError;
use quick_xml::events::attributes::AttrError;

#[test]
fn get_returns_what_insert_wrote() {
    let mut values = SmartFoxValues::new();
    assert_eq!(values.get("a"), None);
    values.insert("a".to_owned(), "1".to_owned());
    values.insert("b".to_owned(), "2".to_owned());
    values.insert("a".to_owned(), "3".to_owned());
    assert_eq!(values.get("a"), Some("3"));
    assert_eq!(values.get("b"), Some("2"));
    assert_eq!(values.get("c"), None);
}

#[test]
fn from_pairs_later_pair_wins() {
    let values = SmartFoxValues::from_pairs([("k", "first"), ("x", "y"), ("k", "second")]);
    assert_eq!(values.get("k"), Some("second"));
    assert_eq!(values.get("x"), Some("y"));
    assert_eq!(values.get("K"), None);
}

#[test]
fn xml_later_value_wins_and_markup_is_normalized() {
    let values = SmartFoxValues::from_xml(
        "<root>ignored<value id=\"a\">  1  </value><value id=\"a\">2 &#x25;</value>\
         <value>no id</value><value id=\"deg\">5&#176;C</value>\
         <value id=\"span\">3 &lt;span&gt;W&lt;/span&gt;</value></root>",
    )
    .expect("XML should parse");
    assert_eq!(values.get("a"), Some("2%"));
    assert_eq!(values.get("deg"), Some("5°C"));
    assert_eq!(values.get("span"), Some("3 W"));
    assert_eq!(values.get("ignored"), None);
}

#[test]
fn xml_empty_document_has_no_values() {
    let values = SmartFoxValues::from_xml("").expect("empty XML should parse");
    assert_eq!(values.get(""), None);
    let values = SmartFoxValues::from_xml("<root/>").expect("XML should parse");
    assert_eq!(values.get("root"), None);
}

#[test]
fn xml_errors() {
    assert!(matches!(
        SmartFoxValues::from_xml("<root><value id=\"a\">1</wrong></root>"),
        Err(Error::Xml { .. })
    ));
    assert!(matches!(
        SmartFoxValues::from_xml("<root><value x id=\"b\">1</value></root>"),
        Err(Error::Attribute { .. })
    ));
    assert!(matches!(
        SmartFoxValues::from_xml("<value id=\"a\">1"),
        Ok(_) | Err(Error::Xml { .. })
    ));
}

#[test]
fn equality_compares_the_maps() {
    let a = SmartFoxValues::from_pairs([("k", "1"), ("k", "2"), ("x", "y")]);
    let b = SmartFoxValues::from_pairs([("x", "y"), ("k", "2")]);
    assert_eq!(a, b);
    let c = SmartFoxValues::from_pairs([("x", "y")]);
    assert_ne!(a, c);
    assert_ne!(c, a);
    let d = SmartFoxValues::from_pairs([("x", "z"), ("k", "2")]);
    assert_ne!(a, d);
    assert_eq!(SmartFoxValues::new(), SmartFoxValues::from_pairs::<0>([]));
}

#[test]
fn xml_errors_are_quick_xml_errors() {
    match SmartFoxValues::from_xml("<root><value id=\"a\">1</wrong></root>") {
        Err(Error::Xml {
            source: quick_xml::Error::IllFormed(IllFormedError::MismatchedEndTag { expected, found }),
        }) => {
            assert_eq!(expected, "value");
            assert_eq!(found, "wrong");
        }
        other => panic!("unexpected result: {other:?}"),
    }
    assert!(matches!(
        SmartFoxValues::from_xml("<root><value x id=\"b\">1</value></root>"),
        Err(Error::Attribute { source: AttrError::ExpectedEq(_) })
    ));
}

fn step(scan: ValueScan, token: XmlToken) -> ValueScan {
    match scan.step(token) {
        ScanStep::Next(next) => next,
        other => panic!("scan should go on: {}", matches!(other, ScanStep::Finished(_))),
    }
}

#[test]
fn value_scan_steps_through_events() {
    let scan = ValueScan::new();
    let scan = step(scan, XmlToken::Start { name: b"root".to_vec(), attributes: Vec::new() });
    let scan = step(
        scan,
        XmlToken::Start { name: b"value".to_vec(), attributes: vec![Ok((b"id".to_vec(), b"p".to_vec()))] },
    );
    assert_eq!(scan.id.as_deref(), Some("p"));
    let scan = step(scan, XmlToken::Text { raw: b" 5 ".to_vec() });
    let scan = step(scan, XmlToken::Reference { raw: b"lt".to_vec() });
    assert_eq!(scan.text, " 5 &lt;");
    let scan = step(scan, XmlToken::Other);
    let scan = step(scan, XmlToken::End { name: b"value".to_vec() });
    assert_eq!(scan.id, None);
    assert_eq!(scan.values.get("p"), Some("5 &lt;"));
    let text_outside = step(scan, XmlToken::Text { raw: b"x".to_vec() });
    assert_eq!(text_outside.values.get("p"), Some("5 &lt;"));
    match text_outside.step(XmlToken::Eof) {
        ScanStep::Finished(values) => assert_eq!(values.get("p"), Some("5 &lt;")),
        _ => panic!("the end of the document finishes the scan"),
    }
}

#[test]
fn value_scan_failures() {
    let failed = ValueScan::new().step(XmlToken::Failed {
        error: quick_xml::Error::IllFormed(IllFormedError::MissingEndTag("value".to_owned())),
    });
    assert!(matches!(
        failed,
        ScanStep::Failed(Error::Xml { source: quick_xml::Error::IllFormed(IllFormedError::MissingEndTag(_)) })
    ));
    let bad_attribute = ValueScan::new().step(XmlToken::Start {
        name: b"value".to_vec(),
        attributes: vec![Err(AttrError::ExpectedEq(7))],
    });
    assert!(matches!(bad_attribute, ScanStep::Failed(Error::Attribute { source: AttrError::ExpectedEq(7) })));
    let scan = step(
        ValueScan::new(),
        XmlToken::Start { name: b"value".to_vec(), attributes: vec![Ok((b"id".to_vec(), b"q".to_vec()))] },
    );
    assert!(matches!(scan.step(XmlToken::Text { raw: vec![0xff] }), ScanStep::Failed(Error::Utf8 { .. })));
}

#[test]
fn utf8_error_is_std_error() {
    let scan = step(
        ValueScan::new(),
        XmlToken::Start { name: b"value".to_vec(), attributes: vec![Ok((b"id".to_vec(), b"q".to_vec()))] },
    );
    match scan.step(XmlToken::Text { raw: vec![b'a', 0xff] }) {
        ScanStep::Failed(Error::Utf8 { source }) => {
            assert_eq!(source.valid_up_to(), 1);
            assert_eq!(source.error_len(), Some(1));
        }
        _ => panic!("invalid UTF-8 should fail"),
    }
}
