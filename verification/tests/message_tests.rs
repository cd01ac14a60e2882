use kritor_agent::convert::{encode_data_url, ConvError};
use kritor_agent::element::{Attr, Element, Root, TagElement};
use kritor_agent::kritor::{KritorElement, MediaData};
use kritor_agent::parser::Parser;

#[test]
fn test_serialize() {
    let element = Element::Tag(TagElement {
        name: "img".to_string(),
        attributes: vec![Attr {
            key: "src".to_string(),
            value: "https://example.com/image.png".to_string(),
        }],
        children: None,
    });
    assert_eq!(
        element.serialize(),
        "<img src=\"https://example.com/image.png\"/>"
    );
}

#[test]
fn test_from_to_kritor() {
    let msg = Parser::new(r#"Hello <img src="https://s.a33.su/avatar.png"/> <at id="10086"></at>"#)
        .parse()
        .unwrap();
    let _kritor_element: Vec<KritorElement> = msg.try_into_kritor_elements().unwrap();
}

#[test]
fn test_encode_data_url() {
    let data = b"Hello, world!";
    let data_url = encode_data_url(data);
    assert_eq!(
        data_url,
        "data:application/octet-stream;base64,SGVsbG8sIHdvcmxkIQ=="
    );
    let data = &[0xFF, 0xD8, 0xFF, 0xAA, 0x39, 0x39];
    let data_url = encode_data_url(data);
    assert_eq!(data_url, "data:image/jpeg;base64,/9j/qjk5");
}

#[test]
fn test_parser() {
    let input = r#"1234<p><br/><b>BOLD_TEXT</b><img src="https://a33.su"/>🚀🚀++</p>Hello, World!"#;
    let mut parser = Parser::new(input);
    let root = parser.parse().unwrap();
    let ser = root.root_element.serialize();
    assert_eq!(ser, input);
}

#[test]
fn test_roundtrip_self_closing() {
    let input = r#"<img src="https://example.com/image.png"/>"#;
    let root = Parser::new(input).parse().unwrap();
    assert_eq!(root.root_element.serialize(), input);
}

#[test]
fn test_paired_empty_tag_kept_distinct() {
    let paired = Parser::new("<x></x>").parse().unwrap();
    assert_eq!(paired.root_element.serialize(), "<x></x>");
    let self_closing = Parser::new("<x/>").parse().unwrap();
    assert_eq!(self_closing.root_element.serialize(), "<x/>");
}

#[test]
fn test_unterminated_tag_fails() {
    let err = Parser::new("<p>text").parse().unwrap_err();
    assert_eq!(
        err.message(),
        "Unexpected end of input, tags are not closed properly."
    );
}

#[test]
fn test_mismatched_closing_tag() {
    // A mismatched closing tag closes nothing: the still-open tag then
    // fails at the end of the input.
    assert!(Parser::new("<p></q>").parse().is_err());
    // With the matching closing tag later, the stray one is skipped.
    let root = Parser::new("<p></q></p>").parse().unwrap();
    assert_eq!(root.root_element.serialize(), "<p></p>");
}

#[test]
fn test_empty_input_parses_to_empty_root() {
    let root = Parser::new("").parse().unwrap();
    assert_eq!(root.root_element.serialize(), "");
}

#[test]
fn test_at_conversion() {
    let root = Parser::new(r#"<at type="all"/>"#).parse().unwrap();
    let els = root.try_into_kritor_elements().unwrap();
    assert_eq!(els.len(), 1);
    match &els[0] {
        KritorElement::At { uin, mention_all } => {
            assert_eq!(*uin, None);
            assert!(*mention_all);
        }
        _ => panic!("expected an At element"),
    }

    let root = Parser::new(r#"<at id="10086"></at>"#).parse().unwrap();
    let els = root.try_into_kritor_elements().unwrap();
    assert_eq!(els.len(), 1);
    match &els[0] {
        KritorElement::At { uin, mention_all } => {
            assert_eq!(*uin, Some(10086));
            assert!(!*mention_all);
        }
        _ => panic!("expected an At element"),
    }
}

#[test]
fn test_breadth_first_flattening() {
    // Two nesting levels with siblings at each level: elements come out in
    // queue-pop order, not in document (depth-first) order.
    let root = Parser::new("<p>A<q>B<r/></q>C</p>").parse().unwrap();
    let els = root.try_into_kritor_elements().unwrap();
    let texts: Vec<&str> = els
        .iter()
        .map(|e| match e {
            KritorElement::Text { text } => text.as_str(),
            _ => panic!("expected only Text elements"),
        })
        .collect();
    assert_eq!(texts, vec!["<p></p>", "A", "<q></q>", "C", "B", "<r/>"]);
}

#[test]
fn test_face_requires_numeric_id() {
    let root = Parser::new("<face/>").parse().unwrap();
    let err = root.try_into_kritor_elements().unwrap_err();
    assert!(matches!(err, ConvError::MissingFaceId));

    let root = Parser::new(r#"<face id="oops"/>"#).parse().unwrap();
    assert!(root.try_into_kritor_elements().is_err());

    let root = Parser::new(r#"<face id="42"/>"#).parse().unwrap();
    let els = root.try_into_kritor_elements().unwrap();
    assert!(matches!(els[0], KritorElement::Face { id: 42 }));
}

#[test]
fn test_forward_requires_id() {
    let root = Parser::new(r#"<message forward="true"/>"#).parse().unwrap();
    let err = root.try_into_kritor_elements().unwrap_err();
    assert!(matches!(err, ConvError::MissingForwardId));

    let root = Parser::new(r#"<message forward="true" id="m1"/>"#)
        .parse()
        .unwrap();
    let els = root.try_into_kritor_elements().unwrap();
    match &els[0] {
        KritorElement::Forward { uniseq } => assert_eq!(uniseq, "m1"),
        _ => panic!("expected a Forward element"),
    }
}

#[test]
fn test_media_tags_to_kritor() {
    let root = Parser::new(r#"<img src="https://a/b.png"/><audio src="u"/><video src="v"/><file src="f" title="t"/>"#)
        .parse()
        .unwrap();
    let els = root.try_into_kritor_elements().unwrap();
    assert_eq!(els.len(), 4);
    match &els[0] {
        KritorElement::Image { data: Some(MediaData::FileUrl(u)) } => {
            assert_eq!(u, "https://a/b.png")
        }
        _ => panic!("expected an Image with a URL"),
    }
    assert!(matches!(&els[1], KritorElement::Voice { data: Some(MediaData::FileUrl(_)) }));
    assert!(matches!(&els[2], KritorElement::Video { data: Some(MediaData::FileUrl(_)) }));
    match &els[3] {
        KritorElement::File { url, name } => {
            assert_eq!(url.as_deref(), Some("f"));
            assert_eq!(name.as_deref(), Some("t"));
        }
        _ => panic!("expected a File element"),
    }
}

#[test]
fn test_from_kritor_builds_markup() {
    let els = vec![
        KritorElement::Text { text: "Hi ".to_string() },
        KritorElement::At { uin: Some(10086), mention_all: false },
        KritorElement::Face { id: 7 },
        KritorElement::Image {
            data: Some(MediaData::FileUrl("https://a/b.png".to_string())),
        },
    ];
    let root = Root::try_from_kritor_elements(els).unwrap();
    assert_eq!(
        root.root_element.serialize(),
        r#"Hi <at id="10086"/><face id="7"/><img src="https://a/b.png"/>"#
    );
}

#[test]
fn test_from_kritor_mention_all() {
    let els = vec![KritorElement::At { uin: None, mention_all: true }];
    let root = Root::try_from_kritor_elements(els).unwrap();
    assert_eq!(root.root_element.serialize(), r#"<at type="all"/>"#);
}

#[test]
fn test_from_kritor_missing_uin() {
    let els = vec![KritorElement::At { uin: None, mention_all: false }];
    let err = Root::try_from_kritor_elements(els).unwrap_err();
    assert!(matches!(err, ConvError::MissingUin));
    assert_eq!(err.message(), "Missing uin");
}

#[test]
fn test_from_kritor_missing_data() {
    let els = vec![KritorElement::Image { data: None }];
    let err = Root::try_from_kritor_elements(els).unwrap_err();
    assert!(matches!(err, ConvError::MissingData));
}

#[test]
fn test_from_kritor_unsupported() {
    let els = vec![KritorElement::Forward { uniseq: "m1".to_string() }];
    let err = Root::try_from_kritor_elements(els).unwrap_err();
    assert!(matches!(err, ConvError::UnsupportedElement));
    assert_eq!(err.message(), "including elements unsupported by satori.");
}

#[test]
fn test_from_kritor_file_path_and_bytes() {
    let els = vec![
        KritorElement::Voice {
            data: Some(MediaData::FilePath("/tmp/a.ogg".to_string())),
        },
        KritorElement::Video {
            data: Some(MediaData::FileBytes(b"Hello, world!".to_vec())),
        },
    ];
    let root = Root::try_from_kritor_elements(els).unwrap();
    assert_eq!(
        root.root_element.serialize(),
        r#"<audio src="file:///tmp/a.ogg"/><video src="data:application/octet-stream;base64,SGVsbG8sIHdvcmxkIQ=="/>"#
    );
}

#[test]
fn test_attribute_without_value_and_quotes() {
    let root = Parser::new(r#"<x a b='1' c="2"></x>"#).parse().unwrap();
    // single and double quotes are stripped; a bare token has an empty value
    assert_eq!(root.root_element.serialize(), r#"<x a="" b="1" c="2"></x>"#);
}

#[test]
fn test_duplicate_attribute_last_wins() {
    let root = Parser::new(r#"<x a="1" a="2"/>"#).parse().unwrap();
    assert_eq!(root.root_element.serialize(), r#"<x a="2"/>"#);
}

#[test]
fn test_plain_root_to_single_text() {
    let els = Root {
        root_element: Element::Plain("just text".to_string()),
    }
    .try_into_kritor_elements()
    .unwrap();
    assert_eq!(els.len(), 1);
    match &els[0] {
        KritorElement::Text { text } => assert_eq!(text, "just text"),
        _ => panic!("expected a Text element"),
    }
}

#[test]
fn test_missing_attributes_default() {
    // an `at` without attributes addresses nobody; media without `src`
    // keeps an absent payload
    let root = Parser::new("<at/><img/>").parse().unwrap();
    let els = root.try_into_kritor_elements().unwrap();
    assert!(matches!(
        els[0],
        KritorElement::At { uin: None, mention_all: false }
    ));
    assert!(matches!(els[1], KritorElement::Image { data: None }));
}
