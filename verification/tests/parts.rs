use abx2xml::cursor::ByteCursor;
use abx2xml::error::{AbxError, DecodeError, ErrorKind};
use abx2xml::pool::{read_interned_string, StringPool};
use abx2xml::text::{
    chars_of, decimal_text, escape, push_bits, push_double, push_hex, push_joined,
    push_section_body, push_single,
};
use abx2xml::token::{next_token, split_control, EventKind, Token};
use abx2xml::tree::{Attribute, Element, Step, TreeBuilder, XmlNode};
use abx2xml::value::{read_bool, TypedValue, ValueType};

fn eof(offset: usize) -> DecodeError {
    DecodeError { kind: ErrorKind::UnexpectedEof, offset }
}

#[test]
fn cursor_reads_big_endian() {
    let bytes = [0x01, 0x02, 0x03, 0x04, 0x05, 0x06, 0x07, 0x08, 0x09, 0x0a, 0x0b, 0x0c, 0x0d, 0x0e, 0x0f];
    let mut cursor = ByteCursor::new(&bytes);
    assert_eq!(cursor.position(), 0);
    assert_eq!(cursor.remaining(), 15);
    assert_eq!(cursor.read_u8(), Ok(0x01));
    assert_eq!(cursor.read_u16(), Ok(0x0203));
    assert_eq!(cursor.read_u32(), Ok(0x0405_0607));
    assert_eq!(cursor.position(), 7);
    assert_eq!(cursor.read_u64(), Ok(0x0809_0a0b_0c0d_0e0f));
    assert_eq!(cursor.remaining(), 0);
    assert_eq!(cursor.read_u8(), Err(eof(15)));
}

#[test]
fn cursor_reads_signed_numbers() {
    let bytes = [
        0xff, 0xff, 0xff, 0xff, 0x80, 0x00, 0x00, 0x00, 0x7f, 0xff, 0xff, 0xff, 0xff, 0xff, 0xff,
        0xff, 0xff, 0xff, 0xff, 0xff, 0x80, 0, 0, 0, 0, 0, 0, 0, 0x7f, 0xff, 0xff, 0xff, 0xff, 0xff,
        0xff, 0xff,
    ];
    let mut cursor = ByteCursor::new(&bytes);
    assert_eq!(cursor.read_i32(), Ok(-1));
    assert_eq!(cursor.read_i32(), Ok(i32::MIN));
    assert_eq!(cursor.read_i32(), Ok(i32::MAX));
    assert_eq!(cursor.read_i64(), Ok(-1));
    assert_eq!(cursor.read_i64(), Ok(i64::MIN));
    assert_eq!(cursor.read_i64(), Ok(i64::MAX));
}

#[test]
fn cursor_reads_bit_patterns_of_floats() {
    let mut bytes = Vec::new();
    bytes.extend(2.5f32.to_be_bytes());
    bytes.extend((-0.1f64).to_be_bytes());
    let mut cursor = ByteCursor::new(&bytes);
    assert_eq!(cursor.read_f32_bits().map(f32::from_bits), Ok(2.5f32));
    assert_eq!(cursor.read_f64_bits().map(f64::from_bits), Ok(-0.1f64));
}

#[test]
fn cursor_fails_cleanly_at_the_end() {
    let bytes = [0x00, 0x05, b'a', b'b'];
    assert_eq!(ByteCursor::new(&bytes[..1]).read_u16(), Err(eof(0)));
    assert_eq!(ByteCursor::new(&bytes[..3]).read_u32(), Err(eof(0)));
    assert_eq!(ByteCursor::new(&bytes).read_u64(), Err(eof(0)));
    assert_eq!(ByteCursor::new(&bytes).read_i32().map(|_| ()), Ok(()));
    assert_eq!(ByteCursor::new(&bytes[..3]).read_i32(), Err(eof(0)));
    assert_eq!(ByteCursor::new(&bytes).read_i64(), Err(eof(0)));
    let mut cursor = ByteCursor::new(&bytes);
    assert_eq!(cursor.read_length_prefixed_string(), Err(eof(2)));
    let mut cursor = ByteCursor::new(&bytes);
    assert_eq!(cursor.read_bytes(5), Err(eof(0)));
    assert_eq!(cursor.read_bytes(4), Ok(&bytes[..]));
    assert_eq!(cursor.read_bytes(0), Ok(&bytes[4..]));
    assert_eq!(cursor.read_bytes(usize::MAX), Err(eof(4)));
}

#[test]
fn cursor_reads_length_prefixed_strings() {
    let bytes = [0x00, 0x02, b'h', b'i', 0x00, 0x00, 0x00, 0x02, 0xc3, 0xa9];
    let mut cursor = ByteCursor::new(&bytes);
    assert_eq!(cursor.read_length_prefixed_string(), Ok("hi".to_string()));
    assert_eq!(cursor.read_length_prefixed_string(), Ok(String::new()));
    assert_eq!(cursor.read_length_prefixed_string(), Ok("é".to_string()));
    assert_eq!(cursor.position(), 10);
}

#[test]
fn pool_indices_count_up_from_zero() {
    let mut pool = StringPool::new();
    assert_eq!(pool.len(), 0);
    assert_eq!(pool.resolve(0), Err(ErrorKind::InvalidStringReference));
    assert_eq!(pool.intern("a".to_string()), 0);
    assert_eq!(pool.intern("b".to_string()), 1);
    assert_eq!(pool.intern("a".to_string()), 2);
    assert_eq!(pool.len(), 3);
    assert_eq!(pool.resolve(0), Ok("a"));
    assert_eq!(pool.resolve(1), Ok("b"));
    assert_eq!(pool.resolve(2), Ok("a"));
    assert_eq!(pool.resolve(3), Err(ErrorKind::InvalidStringReference));
    assert_eq!(pool.resolve(usize::MAX), Err(ErrorKind::InvalidStringReference));
}

#[test]
fn pool_protocol_interns_and_resolves() {
    let bytes = [0xff, 0xff, 0x00, 0x01, b'n', 0x00, 0x00, 0x00, 0x01];
    let mut cursor = ByteCursor::new(&bytes);
    let mut pool = StringPool::new();
    assert_eq!(read_interned_string(&mut cursor, &mut pool), Ok("n".to_string()));
    assert_eq!(pool.len(), 1);
    assert_eq!(read_interned_string(&mut cursor, &mut pool), Ok("n".to_string()));
    assert_eq!(pool.len(), 1);
    assert_eq!(
        read_interned_string(&mut cursor, &mut pool),
        Err(DecodeError { kind: ErrorKind::InvalidStringReference, offset: 7 })
    );
}

#[test]
fn codes_of_events_and_types() {
    for code in 0..=255u8 {
        if let Some(kind) = EventKind::from_code(code) {
            assert_eq!(kind.code(), code);
        }
        if let Some(ty) = ValueType::from_code(code) {
            assert_eq!(ty.code(), code);
        }
    }
    assert_eq!(EventKind::from_code(1), Some(EventKind::EndOfDocument));
    assert_eq!(EventKind::from_code(2), Some(EventKind::StartTag));
    assert_eq!(EventKind::from_code(3), Some(EventKind::EndTag));
    assert_eq!(EventKind::from_code(4), Some(EventKind::Text));
    assert_eq!(EventKind::from_code(5), Some(EventKind::CData));
    assert_eq!(EventKind::from_code(15), Some(EventKind::Attribute));
    assert_eq!(EventKind::from_code(0), None);
    assert_eq!(ValueType::from_code(1), Some(ValueType::Null));
    assert_eq!(ValueType::from_code(2), Some(ValueType::String));
    assert_eq!(ValueType::from_code(3), Some(ValueType::StringArray));
    assert_eq!(ValueType::from_code(4), Some(ValueType::Bytes));
    assert_eq!(ValueType::from_code(6), Some(ValueType::Int32));
    assert_eq!(ValueType::from_code(8), Some(ValueType::Int64));
    assert_eq!(ValueType::from_code(10), Some(ValueType::Float));
    assert_eq!(ValueType::from_code(11), Some(ValueType::Double));
    assert_eq!(ValueType::from_code(12), Some(ValueType::Boolean));
    assert_eq!(ValueType::from_code(5), None);
    assert_eq!(split_control(0x6f), Some((EventKind::Attribute, ValueType::Int32)));
    assert_eq!(split_control(0x11), Some((EventKind::EndOfDocument, ValueType::Null)));
    assert_eq!(split_control(0x01), None);
    assert_eq!(split_control(0x10), None);
}

#[test]
fn tokens_one_by_one() {
    let bytes = [
        0x22, 0xff, 0xff, 0x00, 0x01, b'a', 0xcf, 0x00, 0x00, 0x01, 0x25, 0x00, 0x01, b'c', 0x24,
        0x00, 0x00, 0x13, 0x11,
    ];
    let mut cursor = ByteCursor::new(&bytes);
    let mut pool = StringPool::new();
    assert_eq!(next_token(&mut cursor, &mut pool), Ok(Token::StartTag("a".to_string())));
    assert_eq!(
        next_token(&mut cursor, &mut pool),
        Ok(Token::Attribute("a".to_string(), TypedValue::Boolean(true)))
    );
    assert_eq!(next_token(&mut cursor, &mut pool), Ok(Token::CData("c".to_string())));
    assert_eq!(next_token(&mut cursor, &mut pool), Ok(Token::Text(String::new())));
    assert_eq!(next_token(&mut cursor, &mut pool), Ok(Token::EndTag));
    assert_eq!(next_token(&mut cursor, &mut pool), Ok(Token::EndOfDocument));
    assert_eq!(next_token(&mut cursor, &mut pool), Err(eof(19)));
}

#[test]
fn read_bool_accepts_zero_and_one_only() {
    assert_eq!(read_bool(&mut ByteCursor::new(&[0])), Ok(false));
    assert_eq!(read_bool(&mut ByteCursor::new(&[1])), Ok(true));
    for b in 2..=255u8 {
        assert_eq!(
            read_bool(&mut ByteCursor::new(&[b])),
            Err(DecodeError { kind: ErrorKind::InvalidBooleanEncoding, offset: 0 })
        );
    }
    assert_eq!(read_bool(&mut ByteCursor::new(&[])), Err(eof(0)));
}

#[test]
fn value_decode_of_null_reads_nothing() {
    let bytes = [0x07];
    let mut cursor = ByteCursor::new(&bytes);
    let mut pool = StringPool::new();
    assert_eq!(TypedValue::decode(ValueType::Null, &mut cursor, &mut pool), Ok(TypedValue::Null));
    assert_eq!(cursor.position(), 0);
    assert_eq!(TypedValue::Null.value_type(), ValueType::Null);
    assert_eq!(TypedValue::Bytes(vec![]).value_type(), ValueType::Bytes);
}

fn step(builder: TreeBuilder, token: Token) -> TreeBuilder {
    match builder.apply(token) {
        Ok(Step::Continue(next)) => next,
        Ok(Step::Finished(_)) => panic!("finished early"),
        Err(kind) => panic!("refused: {:?}", kind),
    }
}

fn refused(builder: TreeBuilder, token: Token) -> ErrorKind {
    match builder.apply(token) {
        Err(kind) => kind,
        Ok(_) => panic!("accepted"),
    }
}

#[test]
fn builder_walks_through_its_states() {
    let builder = TreeBuilder::new();
    assert_eq!(builder.depth(), 0);
    assert!(!builder.has_root());
    let builder = step(builder, Token::StartTag("a".to_string()));
    assert_eq!(builder.depth(), 1);
    let builder = step(builder, Token::Attribute("k".to_string(), TypedValue::Null));
    let builder = step(builder, Token::StartTag("b".to_string()));
    assert_eq!(builder.depth(), 2);
    let builder = step(builder, Token::Text("t".to_string()));
    let builder = step(builder, Token::EndTag);
    let builder = step(builder, Token::CData("c".to_string()));
    assert_eq!(builder.depth(), 1);
    assert!(!builder.has_root());
    let builder = step(builder, Token::EndTag);
    assert_eq!(builder.depth(), 0);
    assert!(builder.has_root());
    match builder.apply(Token::EndOfDocument) {
        Ok(Step::Finished(root)) => assert_eq!(
            root,
            XmlNode::Element(Element {
                name: "a".to_string(),
                namespace: None,
                attributes: vec![Attribute { name: "k".to_string(), value: TypedValue::Null }],
                children: vec![
                    XmlNode::Element(Element {
                        name: "b".to_string(),
                        namespace: None,
                        attributes: vec![],
                        children: vec![XmlNode::Text("t".to_string())],
                    }),
                    XmlNode::CData("c".to_string()),
                ],
            })
        ),
        _ => panic!("not finished"),
    }
}

#[test]
fn builder_refuses_what_has_no_place() {
    assert_eq!(refused(TreeBuilder::new(), Token::EndTag), ErrorKind::UnbalancedTags);
    assert_eq!(refused(TreeBuilder::new(), Token::EndOfDocument), ErrorKind::EmptyDocument);
    assert_eq!(refused(TreeBuilder::new(), Token::Text(String::new())), ErrorKind::TextOutsideElement);
    assert_eq!(refused(TreeBuilder::new(), Token::CData(String::new())), ErrorKind::TextOutsideElement);
    assert_eq!(
        refused(TreeBuilder::new(), Token::Attribute(String::new(), TypedValue::Null)),
        ErrorKind::AttributeOutsideElement
    );
    let open = step(TreeBuilder::new(), Token::StartTag("a".to_string()));
    assert_eq!(refused(open, Token::EndOfDocument), ErrorKind::TruncatedDocument);
    let done = step(step(TreeBuilder::new(), Token::StartTag("a".to_string())), Token::EndTag);
    assert_eq!(refused(done, Token::StartTag("b".to_string())), ErrorKind::UnbalancedTags);
    let done = step(step(TreeBuilder::new(), Token::StartTag("a".to_string())), Token::EndTag);
    assert_eq!(refused(done, Token::EndTag), ErrorKind::UnbalancedTags);
}

#[test]
fn element_grows_at_the_end() {
    let mut e = Element::new("e".to_string());
    assert_eq!(
        e,
        Element { name: "e".to_string(), namespace: None, attributes: vec![], children: vec![] }
    );
    e.push_child(XmlNode::Text("1".to_string()));
    e.push_child(XmlNode::Text("2".to_string()));
    e.push_attribute(Attribute { name: "a".to_string(), value: TypedValue::Boolean(false) });
    e.push_attribute(Attribute { name: "b".to_string(), value: TypedValue::Boolean(true) });
    assert_eq!(e.children, vec![XmlNode::Text("1".to_string()), XmlNode::Text("2".to_string())]);
    assert_eq!(e.attributes[0].name, "a");
    assert_eq!(e.attributes[1].name, "b");
}

#[test]
fn clones_are_equal_and_apart() {
    let mut e = Element::new("e".to_string());
    e.namespace = Some("urn:n".to_string());
    e.push_attribute(Attribute {
        name: "a".to_string(),
        value: TypedValue::StringArray(vec!["x".to_string(), "y".to_string()]),
    });
    e.push_attribute(Attribute { name: "b".to_string(), value: TypedValue::Bytes(vec![1, 2]) });
    e.push_child(XmlNode::Element(Element::new("inner".to_string())));
    e.push_child(XmlNode::CData("c".to_string()));
    let node = XmlNode::Element(e);
    let mut copy = node.clone();
    assert_eq!(copy, node);
    if let XmlNode::Element(element) = &mut copy {
        element.push_child(XmlNode::Text("more".to_string()));
    }
    assert_ne!(copy, node);
    for value in [
        TypedValue::Null,
        TypedValue::Boolean(true),
        TypedValue::Int32(-1),
        TypedValue::Int64(1),
        TypedValue::Float(7),
        TypedValue::Double(8),
        TypedValue::String("s".to_string()),
    ] {
        assert_eq!(value.clone(), value);
    }
}

#[test]
fn decimal_forms() {
    assert_eq!(decimal_text(0), "0");
    assert_eq!(decimal_text(7), "7");
    assert_eq!(decimal_text(-7), "-7");
    assert_eq!(decimal_text(10), "10");
    assert_eq!(decimal_text(1234567890), "1234567890");
    assert_eq!(decimal_text(i64::MAX), "9223372036854775807");
    assert_eq!(decimal_text(i64::MIN), "-9223372036854775808");
    assert_eq!(TypedValue::Int32(i32::MIN).to_text(), "-2147483648");
    assert_eq!(TypedValue::Int32(i32::MAX).to_text(), "2147483647");
}

#[test]
fn hexadecimal_forms() {
    let mut out = String::from(">");
    push_hex(&mut out, &[0x00, 0x1f, 0xa0, 0xff]);
    assert_eq!(out, ">001fa0ff");
    let mut out = String::new();
    push_hex(&mut out, &[]);
    assert_eq!(out, "");
    let mut out = String::new();
    push_bits(&mut out, 0xdead_beef, 8);
    assert_eq!(out, "0xdeadbeef");
    let mut out = String::new();
    push_bits(&mut out, 0x1, 16);
    assert_eq!(out, "0x0000000000000001");
    let mut out = String::new();
    push_bits(&mut out, 0x1234, 2);
    assert_eq!(out, "0x34");
}

fn single(value: f32) -> String {
    let mut out = String::new();
    push_single(&mut out, value.to_bits());
    out
}

fn double(value: f64) -> String {
    let mut out = String::new();
    push_double(&mut out, value.to_bits());
    out
}

#[test]
fn floating_point_forms_of_singles() {
    assert_eq!(single(0.0), "0x0.0p0");
    assert_eq!(single(-0.0), "-0x0.0p0");
    assert_eq!(single(1.0), "0x1.0p0");
    assert_eq!(single(-1.0), "-0x1.0p0");
    assert_eq!(single(2.0), "0x1.0p1");
    assert_eq!(single(0.5), "0x1.0p-1");
    assert_eq!(single(-2.5), "-0x1.4p1");
    assert_eq!(single(3.0), "0x1.8p1");
    assert_eq!(single(0.1), "0x1.99999ap-4");
    assert_eq!(single(f32::MAX), "0x1.fffffep127");
    assert_eq!(single(f32::MIN_POSITIVE), "0x1.0p-126");
    assert_eq!(single(f32::from_bits(1)), "0x0.000002p-126");
    assert_eq!(single(f32::from_bits(0x0040_0000)), "0x0.8p-126");
    assert_eq!(single(f32::INFINITY), "Infinity");
    assert_eq!(single(f32::NEG_INFINITY), "-Infinity");
    assert_eq!(single(f32::NAN), "NaN");
    assert_eq!(single(f32::from_bits(0xffc0_0001)), "NaN");
    assert_eq!(TypedValue::Float(1.5f32.to_bits()).to_text(), "0x1.8p0");
}

#[test]
fn floating_point_forms_of_doubles() {
    assert_eq!(double(0.0), "0x0.0p0");
    assert_eq!(double(-0.0), "-0x0.0p0");
    assert_eq!(double(1.0), "0x1.0p0");
    assert_eq!(double(-1024.0), "-0x1.0p10");
    assert_eq!(double(std::f64::consts::PI), "0x1.921fb54442d18p1");
    assert_eq!(double(0.1), "0x1.999999999999ap-4");
    assert_eq!(double(f64::MAX), "0x1.fffffffffffffp1023");
    assert_eq!(double(f64::MIN_POSITIVE), "0x1.0p-1022");
    assert_eq!(double(f64::from_bits(1)), "0x0.0000000000001p-1022");
    assert_eq!(double(f64::INFINITY), "Infinity");
    assert_eq!(double(f64::NEG_INFINITY), "-Infinity");
    assert_eq!(double(f64::NAN), "NaN");
    assert_eq!(TypedValue::Double((-0.75f64).to_bits()).to_text(), "-0x1.8p-1");
}

#[test]
fn joined_forms() {
    let mut out = String::new();
    push_joined(&mut out, &vec![], ',');
    assert_eq!(out, "");
    push_joined(&mut out, &vec!["a".to_string()], ',');
    assert_eq!(out, "a");
    push_joined(&mut out, &vec!["".to_string(), "b".to_string(), "".to_string()], ';');
    assert_eq!(out, "a;b;");
    assert_eq!(TypedValue::StringArray(vec!["x".to_string(), "y".to_string()]).to_text(), "x,y");
}

#[test]
fn text_forms_of_the_plain_values() {
    assert_eq!(TypedValue::Null.to_text(), "");
    assert_eq!(TypedValue::Boolean(true).to_text(), "true");
    assert_eq!(TypedValue::Boolean(false).to_text(), "false");
    assert_eq!(TypedValue::String("a&b".to_string()).to_text(), "a&b");
    assert_eq!(TypedValue::Bytes(vec![1, 2, 254]).to_text(), "0102fe");
}

#[test]
fn escaping_of_the_five_characters() {
    assert_eq!(escape(""), "");
    assert_eq!(escape("plain é"), "plain é");
    assert_eq!(escape("<>&\"'"), "&lt;&gt;&amp;&quot;&apos;");
    assert_eq!(escape("a<b && c>d"), "a&lt;b &amp;&amp; c&gt;d");
    assert_eq!(escape("&amp;"), "&amp;amp;");
}

#[test]
fn section_end_inside_a_section_is_split() {
    let body = |text: &str| {
        let mut out = String::new();
        push_section_body(&mut out, text);
        out
    };
    assert_eq!(body(""), "");
    assert_eq!(body("a<b>&c"), "a<b>&c");
    assert_eq!(body("]]>"), "]]]]><![CDATA[>");
    assert_eq!(body("]]"), "]]");
    assert_eq!(body("x]]>y]]>"), "x]]]]><![CDATA[>y]]]]><![CDATA[>");
    assert_eq!(body("]]]>"), "]]]]]><![CDATA[>");
    assert_eq!(body("]]>>"), "]]]]><![CDATA[>>");
}

#[test]
fn chars_of_a_string() {
    assert_eq!(chars_of(""), Vec::<char>::new());
    assert_eq!(chars_of("aé日"), vec!['a', 'é', '日']);
}

#[test]
fn messages_of_errors() {
    assert_eq!(
        DecodeError { kind: ErrorKind::UnexpectedEof, offset: 12 }.message(),
        "unexpected end of input at offset 12"
    );
    assert_eq!(
        DecodeError { kind: ErrorKind::UnsupportedTag(0x0a), offset: 0 }.message(),
        "unsupported tag 0x0a at offset 0"
    );
    assert_eq!(
        DecodeError { kind: ErrorKind::InvalidMagic, offset: 0 }.message(),
        "invalid magic header at offset 0"
    );
    assert_eq!(
        DecodeError { kind: ErrorKind::InvalidStringReference, offset: usize::MAX }.message(),
        format!("invalid string reference at offset {}", usize::MAX)
    );
    assert_eq!(
        DecodeError { kind: ErrorKind::InvalidBooleanEncoding, offset: 1 }.message(),
        "invalid boolean encoding at offset 1"
    );
    assert_eq!(
        DecodeError { kind: ErrorKind::AttributeOutsideElement, offset: 4 }.message(),
        "attribute outside of an element at offset 4"
    );
    assert_eq!(
        DecodeError { kind: ErrorKind::TextOutsideElement, offset: 4 }.message(),
        "text outside of an element at offset 4"
    );
    assert_eq!(
        DecodeError { kind: ErrorKind::UnbalancedTags, offset: 4 }.message(),
        "unbalanced tags at offset 4"
    );
    assert_eq!(
        DecodeError { kind: ErrorKind::TruncatedDocument, offset: 9 }.message(),
        "truncated document at offset 9"
    );
    assert_eq!(
        AbxError::Decode(DecodeError { kind: ErrorKind::EmptyDocument, offset: 4 }).message(),
        "empty document at offset 4"
    );
    assert_eq!(AbxError::ParseError("why".to_string()).message(), "why");
}
