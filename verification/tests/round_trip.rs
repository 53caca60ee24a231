use abx2xml::decoder::decode;
use abx2xml::tree::{Attribute, Element, XmlNode};
use abx2xml::value::TypedValue;
use abx2xml::writer::to_xml;

fn put_string(out: &mut Vec<u8>, text: &str) {
    out.extend((text.len() as u16).to_be_bytes());
    out.extend(text.as_bytes());
}

/// Writes a string by the pool protocol: a reference to its first index
/// where the pool holds it, and else the string itself, which enters the pool.
fn put_interned(out: &mut Vec<u8>, pool: &mut Vec<String>, text: &str) {
    match pool.iter().position(|s| s == text) {
        Some(index) if index < 0xffff => out.extend((index as u16).to_be_bytes()),
        _ => {
            out.extend([0xff, 0xff]);
            put_string(out, text);
            pool.push(text.to_string());
        }
    }
}

fn put_value(out: &mut Vec<u8>, pool: &mut Vec<String>, value: &TypedValue) {
    match value {
        TypedValue::Null => {}
        TypedValue::Boolean(b) => out.push(*b as u8),
        TypedValue::Int32(v) => out.extend(v.to_be_bytes()),
        TypedValue::Int64(v) => out.extend(v.to_be_bytes()),
        TypedValue::Float(bits) => out.extend(bits.to_be_bytes()),
        TypedValue::Double(bits) => out.extend(bits.to_be_bytes()),
        TypedValue::String(s) => put_interned(out, pool, s),
        TypedValue::StringArray(items) => {
            out.extend((items.len() as u16).to_be_bytes());
            for item in items {
                put_interned(out, pool, item);
            }
        }
        TypedValue::Bytes(b) => {
            out.extend((b.len() as u16).to_be_bytes());
            out.extend(b);
        }
    }
}

fn put_node(out: &mut Vec<u8>, pool: &mut Vec<String>, node: &XmlNode) {
    match node {
        XmlNode::Element(e) => {
            out.push(0x22);
            put_interned(out, pool, &e.name);
            for a in &e.attributes {
                out.push(0x0f | (a.value.value_type().code() << 4));
                put_interned(out, pool, &a.name);
                put_value(out, pool, &a.value);
            }
            for child in &e.children {
                put_node(out, pool, child);
            }
            out.push(0x13);
        }
        XmlNode::Text(s) => {
            out.push(0x24);
            put_string(out, s);
        }
        XmlNode::CData(s) => {
            out.push(0x25);
            put_string(out, s);
        }
    }
}

fn encode(root: &XmlNode) -> Vec<u8> {
    let mut out = vec![0x41, 0x42, 0x58, 0x00];
    let mut pool = Vec::new();
    put_node(&mut out, &mut pool, root);
    out.push(0x11);
    out
}

fn element(name: &str, attributes: Vec<(&str, TypedValue)>, children: Vec<XmlNode>) -> XmlNode {
    XmlNode::Element(Element {
        name: name.to_string(),
        namespace: None,
        attributes: attributes
            .into_iter()
            .map(|(name, value)| Attribute { name: name.to_string(), value })
            .collect(),
        children,
    })
}

fn settings() -> XmlNode {
    element(
        "settings",
        vec![
            ("package", TypedValue::String("com.example".to_string())),
            ("version", TypedValue::Int32(17)),
            ("installed", TypedValue::Int64(1_700_000_000_000)),
            ("debuggable", TypedValue::Boolean(false)),
        ],
        vec![
            element(
                "uses-permission",
                vec![("names", TypedValue::StringArray(vec!["a".to_string(), "b".to_string()]))],
                vec![],
            ),
            XmlNode::Text("  ".to_string()),
            element(
                "application",
                vec![
                    ("scale", TypedValue::Float(1.25f32.to_bits())),
                    ("ratio", TypedValue::Double((-1.0e-3f64).to_bits())),
                    ("signature", TypedValue::Bytes(vec![0xde, 0xad, 0xbe, 0xef])),
                    ("label", TypedValue::Null),
                ],
                vec![
                    XmlNode::CData("if (a < b && c > d) {}".to_string()),
                    element("activity", vec![], vec![XmlNode::Text("Main & Co".to_string())]),
                    element("activity", vec![], vec![]),
                ],
            ),
        ],
    )
}

#[test]
fn a_tree_comes_back_from_its_stream() {
    let tree = settings();
    assert_eq!(decode(&encode(&tree)), Ok(tree));
}

#[test]
fn the_smallest_tree_comes_back_from_its_stream() {
    let tree = element("", vec![], vec![]);
    assert_eq!(encode(&tree), vec![0x41, 0x42, 0x58, 0x00, 0x22, 0xff, 0xff, 0x00, 0x00, 0x13, 0x11]);
    assert_eq!(decode(&encode(&tree)), Ok(tree));
}

#[test]
fn repeated_names_are_written_as_references() {
    let tree = element(
        "a",
        vec![("a", TypedValue::String("a".to_string()))],
        vec![element("b", vec![], vec![]), element("b", vec![], vec![XmlNode::Text("b".to_string())])],
    );
    assert_eq!(
        encode(&tree),
        vec![
            0x41, 0x42, 0x58, 0x00, // header
            0x22, 0xff, 0xff, 0x00, 0x01, b'a', // <a, a new string
            0x2f, 0x00, 0x00, 0x00, 0x00, // a="a", both by reference
            0x22, 0xff, 0xff, 0x00, 0x01, b'b', 0x13, // <b/>
            0x22, 0x00, 0x01, // <b, by reference
            0x24, 0x00, 0x01, b'b', // text is written out
            0x13, 0x13, 0x11,
        ]
    );
    assert_eq!(decode(&encode(&tree)), Ok(tree));
}

#[test]
fn extreme_values_come_back_from_their_stream() {
    let long = "x".repeat(0xffff);
    let tree = element(
        "e",
        vec![
            ("a", TypedValue::Int32(i32::MIN)),
            ("b", TypedValue::Int32(i32::MAX)),
            ("c", TypedValue::Int64(i64::MIN)),
            ("d", TypedValue::Int64(i64::MAX)),
            ("e", TypedValue::Float(u32::MAX)),
            ("f", TypedValue::Double(u64::MAX)),
            ("g", TypedValue::String(long.clone())),
            ("h", TypedValue::StringArray(vec![])),
            ("i", TypedValue::Bytes(vec![0x5a; 0xffff])),
            ("j", TypedValue::Boolean(true)),
        ],
        vec![XmlNode::Text(long)],
    );
    assert_eq!(decode(&encode(&tree)), Ok(tree));
}

#[test]
fn deep_nesting_comes_back_from_its_stream() {
    let mut tree = element("leaf", vec![], vec![]);
    for depth in 0..200 {
        tree = element("n", vec![("depth", TypedValue::Int32(depth))], vec![tree]);
    }
    assert_eq!(decode(&encode(&tree)), Ok(tree));
}

#[test]
fn the_text_of_a_decoded_tree() {
    let tree = decode(&encode(&settings())).unwrap();
    assert_eq!(
        to_xml(&tree),
        "<settings package=\"com.example\" version=\"17\" installed=\"1700000000000\" \
         debuggable=\"false\"><uses-permission names=\"a,b\"/>  <application \
         scale=\"0x1.4p0\" ratio=\"-0x1.0624dd2f1a9fcp-10\" signature=\"deadbeef\" label=\"\">\
         <![CDATA[if (a < b && c > d) {}]]><activity>Main &amp; Co</activity><activity/>\
         </application></settings>"
    );
}

#[test]
fn every_cut_of_a_larger_stream_runs_out_of_bytes() {
    let bytes = encode(&settings());
    for cut in 0..bytes.len() {
        match decode(&bytes[..cut]) {
            Err(e) => {
                assert_eq!(e.kind, abx2xml::error::ErrorKind::UnexpectedEof, "cut at {}", cut);
                assert!(e.offset <= cut);
            }
            Ok(_) => panic!("a cut stream decoded, cut at {}", cut),
        }
    }
}
