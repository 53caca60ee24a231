use abx2xml::decoder::decode;
use abx2xml::error::{DecodeError, ErrorKind};
use abx2xml::tree::{Attribute, Element, XmlNode};
use abx2xml::value::TypedValue;
use abx2xml::writer::to_xml;
use abx2xml::AbxToXmlConverter;

const START: u8 = 0x22;
const END: u8 = 0x13;
const TEXT: u8 = 0x24;
const CDATA: u8 = 0x25;
const END_DOCUMENT: u8 = 0x11;

fn header() -> Vec<u8> {
    vec![0x41, 0x42, 0x58, 0x00]
}

fn new_string(text: &str) -> Vec<u8> {
    let mut out = vec![0xff, 0xff];
    out.extend(plain_string(text));
    out
}

fn plain_string(text: &str) -> Vec<u8> {
    let mut out = vec![(text.len() / 256) as u8, (text.len() % 256) as u8];
    out.extend(text.as_bytes());
    out
}

fn start(name: &str) -> Vec<u8> {
    let mut out = vec![START];
    out.extend(new_string(name));
    out
}

fn attribute(type_code: u8, name: &str, payload: &[u8]) -> Vec<u8> {
    let mut out = vec![0x0f | (type_code << 4)];
    out.extend(new_string(name));
    out.extend(payload);
    out
}

fn text(content: &str) -> Vec<u8> {
    let mut out = vec![TEXT];
    out.extend(plain_string(content));
    out
}

fn stream(parts: &[Vec<u8>]) -> Vec<u8> {
    let mut out = header();
    for part in parts {
        out.extend(part);
    }
    out
}

fn element(name: &str, attributes: Vec<Attribute>, children: Vec<XmlNode>) -> XmlNode {
    XmlNode::Element(Element { name: name.to_string(), namespace: None, attributes, children })
}

fn error(kind: ErrorKind, offset: usize) -> DecodeError {
    DecodeError { kind, offset }
}

fn sample() -> Vec<u8> {
    stream(&[
        start("root"),
        attribute(6, "id", &[0, 0, 0, 42]),
        text("hi"),
        vec![END],
        vec![END_DOCUMENT],
    ])
}

#[test]
fn sample_stream_has_the_documented_bytes() {
    assert_eq!(
        sample(),
        vec![
            0x41, 0x42, 0x58, 0x00, 0x22, 0xff, 0xff, 0x00, 0x04, b'r', b'o', b'o', b't', 0x6f,
            0xff, 0xff, 0x00, 0x02, b'i', b'd', 0x00, 0x00, 0x00, 0x2a, 0x24, 0x00, 0x02, b'h',
            b'i', 0x13, 0x11,
        ]
    );
}

#[test]
fn decodes_root_with_attribute_and_text() {
    let tree = decode(&sample()).unwrap();
    assert_eq!(
        tree,
        element(
            "root",
            vec![Attribute { name: "id".to_string(), value: TypedValue::Int32(42) }],
            vec![XmlNode::Text("hi".to_string())],
        )
    );
    assert_eq!(to_xml(&tree), "<root id=\"42\">hi</root>");
}

#[test]
fn converts_root_with_attribute_and_text() {
    assert_eq!(
        AbxToXmlConverter::convert_bytes(&sample()),
        Ok("<root id=\"42\">hi</root>".to_string())
    );
}

#[test]
fn end_tag_before_any_start_tag_is_unbalanced() {
    let bytes = stream(&[vec![END], vec![END_DOCUMENT]]);
    assert_eq!(decode(&bytes), Err(error(ErrorKind::UnbalancedTags, 4)));
}

#[test]
fn boolean_payload_two_is_refused() {
    let bytes = stream(&[start("a"), attribute(12, "on", &[0x02]), vec![END], vec![END_DOCUMENT]]);
    assert_eq!(decode(&bytes), Err(error(ErrorKind::InvalidBooleanEncoding, 17)));
}

#[test]
fn boolean_payloads_zero_and_one() {
    let bytes = stream(&[
        start("a"),
        attribute(12, "x", &[0x00]),
        attribute(12, "y", &[0x01]),
        vec![END],
        vec![END_DOCUMENT],
    ]);
    assert_eq!(
        AbxToXmlConverter::convert_bytes(&bytes),
        Ok("<a x=\"false\" y=\"true\"/>".to_string())
    );
}

#[test]
fn decoding_twice_gives_the_same_tree() {
    let bytes = sample();
    assert_eq!(decode(&bytes), decode(&bytes));
    let other = bytes.clone();
    assert_eq!(decode(&bytes), decode(&other));
}

#[test]
fn every_truncation_of_the_sample_runs_out_of_bytes() {
    let bytes = sample();
    for cut in 0..bytes.len() {
        let r = decode(&bytes[..cut]);
        match r {
            Err(e) => {
                assert_eq!(e.kind, ErrorKind::UnexpectedEof, "cut at {}", cut);
                assert!(e.offset <= cut);
            }
            Ok(_) => panic!("a truncated stream decoded, cut at {}", cut),
        }
    }
}

#[test]
fn truncation_inside_a_string_reports_where_the_read_began() {
    let bytes = sample();
    assert_eq!(decode(&bytes[..11]), Err(error(ErrorKind::UnexpectedEof, 9)));
    assert_eq!(decode(&bytes[..8]), Err(error(ErrorKind::UnexpectedEof, 7)));
    assert_eq!(decode(&bytes[..30]), Err(error(ErrorKind::UnexpectedEof, 30)));
}

#[test]
fn empty_input_runs_out_of_bytes() {
    assert_eq!(decode(&[]), Err(error(ErrorKind::UnexpectedEof, 0)));
    assert_eq!(decode(&[0x41, 0x42, 0x58]), Err(error(ErrorKind::UnexpectedEof, 0)));
}

#[test]
fn wrong_header_is_invalid_magic() {
    assert_eq!(decode(&[0x41, 0x42, 0x58, 0x01, 0x11]), Err(error(ErrorKind::InvalidMagic, 0)));
    assert_eq!(decode(b"<?xml version"), Err(error(ErrorKind::InvalidMagic, 0)));
}

#[test]
fn end_of_document_without_element_is_empty() {
    assert_eq!(decode(&stream(&[vec![END_DOCUMENT]])), Err(error(ErrorKind::EmptyDocument, 4)));
}

#[test]
fn end_of_document_inside_element_is_truncated() {
    let bytes = stream(&[start("a"), vec![END_DOCUMENT]]);
    assert_eq!(decode(&bytes), Err(error(ErrorKind::TruncatedDocument, 10)));
}

#[test]
fn attribute_outside_element() {
    let bytes = stream(&[attribute(1, "a", &[]), vec![END_DOCUMENT]]);
    assert_eq!(decode(&bytes), Err(error(ErrorKind::AttributeOutsideElement, 4)));
}

#[test]
fn text_outside_element() {
    let bytes = stream(&[text("x"), vec![END_DOCUMENT]]);
    assert_eq!(decode(&bytes), Err(error(ErrorKind::TextOutsideElement, 4)));
    let mut cdata = vec![CDATA];
    cdata.extend(plain_string("x"));
    let bytes = stream(&[start("a"), vec![END], cdata, vec![END_DOCUMENT]]);
    assert_eq!(decode(&bytes), Err(error(ErrorKind::TextOutsideElement, 11)));
}

#[test]
fn second_root_is_unbalanced() {
    let bytes = stream(&[start("a"), vec![END], start("b"), vec![END], vec![END_DOCUMENT]]);
    assert_eq!(decode(&bytes), Err(error(ErrorKind::UnbalancedTags, 11)));
}

#[test]
fn unknown_event_and_unknown_type_are_unsupported() {
    assert_eq!(decode(&stream(&[vec![0x10]])), Err(error(ErrorKind::UnsupportedTag(0x10), 4)));
    assert_eq!(decode(&stream(&[vec![0x02]])), Err(error(ErrorKind::UnsupportedTag(0x02), 4)));
    assert_eq!(decode(&stream(&[vec![0xd1]])), Err(error(ErrorKind::UnsupportedTag(0xd1), 4)));
    let bytes = stream(&[start("a"), vec![0x5f]]);
    assert_eq!(decode(&bytes), Err(error(ErrorKind::UnsupportedTag(0x5f), 10)));
}

#[test]
fn bytes_after_the_end_of_the_document_are_ignored() {
    let mut bytes = sample();
    bytes.extend([0x00, 0xff, 0x13, 0x99]);
    assert_eq!(decode(&bytes), decode(&sample()));
}

#[test]
fn names_can_refer_back_to_the_pool() {
    // <a><b/><b/><a/></a>: the second `b` and the inner `a` are references.
    let bytes = stream(&[
        start("a"),
        start("b"),
        vec![END],
        vec![START, 0x00, 0x01],
        vec![END],
        vec![START, 0x00, 0x00],
        vec![END],
        vec![END],
        vec![END_DOCUMENT],
    ]);
    assert_eq!(
        decode(&bytes),
        Ok(element(
            "a",
            vec![],
            vec![element("b", vec![], vec![]), element("b", vec![], vec![]), element("a", vec![], vec![])],
        ))
    );
    assert_eq!(
        AbxToXmlConverter::convert_bytes(&bytes),
        Ok("<a><b/><b/><a/></a>".to_string())
    );
}

#[test]
fn forward_and_out_of_range_references_are_refused() {
    // The first name of a stream cannot be a reference: the pool is empty.
    let bytes = stream(&[vec![START, 0x00, 0x00], vec![END], vec![END_DOCUMENT]]);
    assert_eq!(decode(&bytes), Err(error(ErrorKind::InvalidStringReference, 5)));
    // Index 1 while only index 0 is interned.
    let bytes = stream(&[start("a"), vec![START, 0x00, 0x01]]);
    assert_eq!(decode(&bytes), Err(error(ErrorKind::InvalidStringReference, 11)));
    // Index 0xfffe.
    let bytes = stream(&[start("a"), vec![START, 0xff, 0xfe]]);
    assert_eq!(decode(&bytes), Err(error(ErrorKind::InvalidStringReference, 11)));
}

#[test]
fn text_is_not_interned() {
    // The text "t" does not enter the pool, so index 1 does not exist.
    let bytes = stream(&[start("a"), text("t"), vec![START, 0x00, 0x01]]);
    assert_eq!(decode(&bytes), Err(error(ErrorKind::InvalidStringReference, 15)));
}

#[test]
fn string_values_are_interned() {
    let mut value = vec![0x2f];
    value.extend(new_string("k"));
    value.extend(new_string("v"));
    // name by reference to "v" (index 2), value by reference to "k" (index 1)
    let second = vec![0x2f, 0x00, 0x02, 0x00, 0x01];
    let bytes = stream(&[start("a"), value, second, vec![END], vec![END_DOCUMENT]]);
    assert_eq!(
        AbxToXmlConverter::convert_bytes(&bytes),
        Ok("<a k=\"v\" v=\"k\"/>".to_string())
    );
}

#[test]
fn every_value_type_decodes() {
    let mut strings = vec![0x00, 0x03];
    strings.extend(new_string("x"));
    strings.extend(new_string("y"));
    // The names before it are in the pool too: `x` sits at index 10.
    strings.extend([0x00, 0x0a]);
    let bytes = stream(&[
        start("v"),
        attribute(1, "null", &[]),
        attribute(12, "bool", &[1]),
        attribute(6, "int", &[0xff, 0xff, 0xff, 0xfe]),
        attribute(8, "long", &[0x80, 0, 0, 0, 0, 0, 0, 0]),
        attribute(10, "float", &[0x3f, 0x80, 0x00, 0x00]),
        attribute(11, "double", &[0x40, 0x09, 0x21, 0xfb, 0x54, 0x44, 0x2d, 0x18]),
        attribute(2, "string", &new_string("s<t")),
        attribute(3, "strings", &strings),
        attribute(4, "bytes", &[0x00, 0x03, 0x00, 0xab, 0xff]),
        vec![END],
        vec![END_DOCUMENT],
    ]);
    let tree = decode(&bytes).unwrap();
    let named = |name: &str, value: TypedValue| Attribute { name: name.to_string(), value };
    assert_eq!(
        tree,
        element(
            "v",
            vec![
                named("null", TypedValue::Null),
                named("bool", TypedValue::Boolean(true)),
                named("int", TypedValue::Int32(-2)),
                named("long", TypedValue::Int64(i64::MIN)),
                named("float", TypedValue::Float(1.0f32.to_bits())),
                named("double", TypedValue::Double(std::f64::consts::PI.to_bits())),
                named("string", TypedValue::String("s<t".to_string())),
                named(
                    "strings",
                    TypedValue::StringArray(vec!["x".to_string(), "y".to_string(), "x".to_string()])
                ),
                named("bytes", TypedValue::Bytes(vec![0x00, 0xab, 0xff])),
            ],
            vec![],
        )
    );
    assert_eq!(
        to_xml(&tree),
        "<v null=\"\" bool=\"true\" int=\"-2\" long=\"-9223372036854775808\" \
         float=\"0x1.0p0\" double=\"0x1.921fb54442d18p1\" string=\"s&lt;t\" \
         strings=\"x,y,x\" bytes=\"00abff\"/>"
    );
}

#[test]
fn values_cut_short_run_out_of_bytes() {
    let cases: Vec<(u8, Vec<u8>)> = vec![
        (12, vec![]),
        (6, vec![0, 0, 0]),
        (8, vec![0, 0, 0, 0, 0, 0, 0]),
        (10, vec![0]),
        (11, vec![0, 0, 0, 0]),
        (2, vec![0xff]),
        (3, vec![0x00, 0x02, 0xff, 0xff, 0x00, 0x00]),
        (4, vec![0x00, 0x02, 0x01]),
    ];
    for (code, payload) in cases {
        let bytes = stream(&[start("a"), attribute(code, "n", &payload)]);
        match decode(&bytes) {
            Err(e) => assert_eq!(e.kind, ErrorKind::UnexpectedEof, "type {}", code),
            Ok(_) => panic!("type {} decoded from a short payload", code),
        }
    }
}

#[test]
fn nested_elements_keep_their_order() {
    let mut cdata = vec![CDATA];
    cdata.extend(plain_string("a]]>b"));
    let bytes = stream(&[
        start("root"),
        text("one"),
        start("child"),
        attribute(2, "k", &new_string("\"q\" & 'r'")),
        text("<two>"),
        vec![END],
        cdata,
        start("last"),
        vec![END],
        vec![END],
        vec![END_DOCUMENT],
    ]);
    assert_eq!(
        AbxToXmlConverter::convert_bytes(&bytes),
        Ok("<root>one<child k=\"&quot;q&quot; &amp; &apos;r&apos;\">&lt;two&gt;</child>\
            <![CDATA[a]]]]><![CDATA[>b]]><last/></root>"
            .to_string())
    );
}

#[test]
fn malformed_text_is_read_with_replacement_characters() {
    let bytes = stream(&[
        start("a"),
        vec![TEXT, 0x00, 0x03, b'x', 0xff, b'y'],
        vec![END],
        vec![END_DOCUMENT],
    ]);
    assert_eq!(
        decode(&bytes),
        Ok(element("a", vec![], vec![XmlNode::Text("x\u{fffd}y".to_string())]))
    );
}

#[test]
fn text_beyond_ascii_is_read_as_utf8() {
    let bytes = stream(&[start("é"), text("日本"), vec![END], vec![END_DOCUMENT]]);
    assert_eq!(
        AbxToXmlConverter::convert_bytes(&bytes),
        Ok("<é>日本</é>".to_string())
    );
}

#[test]
fn random_bytes_end_in_a_tree_or_an_error_inside_the_buffer() {
    let mut state: u32 = 0x2545_f491;
    for round in 0..2000 {
        let mut bytes = header();
        let len = (round % 40) as usize;
        for _ in 0..len {
            state ^= state << 13;
            state ^= state >> 17;
            state ^= state << 5;
            bytes.push((state >> 11) as u8);
        }
        match decode(&bytes) {
            Ok(tree) => assert!(matches!(tree, XmlNode::Element(_))),
            Err(e) => assert!(e.offset <= bytes.len()),
        }
    }
}

#[test]
fn namespace_of_a_hand_built_tree_is_declared() {
    let tree = XmlNode::Element(Element {
        name: "a".to_string(),
        namespace: Some("urn:x&y".to_string()),
        attributes: vec![Attribute { name: "k".to_string(), value: TypedValue::Int64(7) }],
        children: vec![],
    });
    assert_eq!(to_xml(&tree), "<a xmlns=\"urn:x&amp;y\" k=\"7\"/>");
}
