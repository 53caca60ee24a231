//! The stream that a tree is written as, and the proof that decoding it
//! gives the tree back.
//!
//! The encoding interns as it goes: a name or a string value that the pool
//! already holds is written as a reference to its first index, and any
//! other is written out and enters the pool. Text and CDATA are always
//! written out.
use vstd::prelude::*;
use vstd::utf8::{encode_utf8, encode_utf8_decode_utf8, encode_utf8_valid_utf8};
use crate::cursor::{
    spec_read_block, spec_read_string, spec_read_u16, spec_read_u32, spec_read_u64, u16_at,
    u32_at, u64_at,
};
use crate::decoder::{magic, spec_decode, spec_decode_end, spec_run};
use crate::error::DecodeError;
use crate::pool::{spec_read_interned, PoolView};
use crate::token::{spec_next_token, spec_split_control, EventKind, SpecToken};
use crate::tree::{SpecAttribute, SpecBuilder, SpecElement, SpecNode};
use crate::value::{spec_decode_value, spec_read_strings, SpecValue, ValueType};

verus! {

/// The two bytes of an unsigned 16-bit number, high byte first.
pub open spec fn encode_u16(v: int) -> Seq<u8> {
    seq![(v / 0x100) as u8, (v % 0x100) as u8]
}

/// The four bytes of an unsigned 32-bit number, high byte first.
pub open spec fn encode_u32(v: int) -> Seq<u8> {
    encode_u16(v / 0x1_0000) + encode_u16(v % 0x1_0000)
}

/// The eight bytes of an unsigned 64-bit number, high byte first.
pub open spec fn encode_u64(v: int) -> Seq<u8> {
    encode_u32(v / 0x1_0000_0000) + encode_u32(v % 0x1_0000_0000)
}

/// A 16-bit length, then the bytes.
pub open spec fn encode_block(block: Seq<u8>) -> Seq<u8> {
    encode_u16(block.len() as int) + block
}

/// A 16-bit length, then the text in UTF-8.
pub open spec fn encode_string(text: Seq<char>) -> Seq<u8> {
    encode_block(encode_utf8(text))
}

/// The marker of a new string, then the string.
pub open spec fn encode_new_string(text: Seq<char>) -> Seq<u8> {
    seq![0xffu8, 0xffu8] + encode_string(text)
}

/// The index of the first string of `pool` that equals `text`, and the
/// length of `pool` where none does.
pub open spec fn first_index(pool: PoolView, text: Seq<char>) -> int
    decreases pool.len(),
{
    if pool.len() == 0 {
        0
    } else if pool[0] == text {
        0
    } else {
        1 + first_index(pool.skip(1), text)
    }
}

/// Whether `text` can be written as a reference: the pool holds it, under
/// an index that is not taken for the marker of a new string.
pub open spec fn can_refer(pool: PoolView, text: Seq<char>) -> bool {
    first_index(pool, text) < pool.len() && first_index(pool, text) < 0xffff
}

/// A string by the pool protocol: a reference where there can be one, and
/// else the string as a new one.
pub open spec fn encode_interned(pool: PoolView, text: Seq<char>) -> Seq<u8> {
    if can_refer(pool, text) {
        encode_u16(first_index(pool, text))
    } else {
        encode_new_string(text)
    }
}

/// The pool after `text` has been written by the pool protocol.
pub open spec fn interned(pool: PoolView, text: Seq<char>) -> PoolView {
    if can_refer(pool, text) {
        pool
    } else {
        pool.push(text)
    }
}

/// The strings one after another, each by the pool protocol.
pub open spec fn encode_strings(pool: PoolView, items: Seq<Seq<char>>) -> Seq<u8>
    decreases items.len(),
{
    if items.len() == 0 {
        Seq::empty()
    } else {
        encode_interned(pool, items[0]) + encode_strings(interned(pool, items[0]), items.skip(1))
    }
}

/// The pool after the strings have been written.
pub open spec fn pool_after_strings(pool: PoolView, items: Seq<Seq<char>>) -> PoolView
    decreases items.len(),
{
    if items.len() == 0 {
        pool
    } else {
        pool_after_strings(interned(pool, items[0]), items.skip(1))
    }
}

/// The payload of a value.
pub open spec fn encode_value(pool: PoolView, value: SpecValue) -> Seq<u8> {
    match value {
        SpecValue::Null => Seq::empty(),
        SpecValue::Boolean(b) => seq![if b { 1u8 } else { 0u8 }],
        SpecValue::Int32(v) => encode_u32(if v < 0 { v + 0x1_0000_0000 } else { v as int }),
        SpecValue::Int64(v) => encode_u64(
            if v < 0 {
                v + 0x1_0000_0000_0000_0000
            } else {
                v as int
            },
        ),
        SpecValue::Float(bits) => encode_u32(bits as int),
        SpecValue::Double(bits) => encode_u64(bits as int),
        SpecValue::String(s) => encode_interned(pool, s),
        SpecValue::StringArray(items) => encode_u16(items.len() as int) + encode_strings(
            pool,
            items,
        ),
        SpecValue::Bytes(b) => encode_block(b),
    }
}

/// The pool after the payload of a value has been written.
pub open spec fn pool_after_value(pool: PoolView, value: SpecValue) -> PoolView {
    match value {
        SpecValue::String(s) => interned(pool, s),
        SpecValue::StringArray(items) => pool_after_strings(pool, items),
        _ => pool,
    }
}

/// The control byte of an event with a value type.
pub open spec fn control(kind: EventKind, ty: ValueType) -> u8 {
    (kind.spec_code() + 16 * ty.spec_code()) as u8
}

/// An attribute record.
pub open spec fn encode_attribute(pool: PoolView, attribute: SpecAttribute) -> Seq<u8> {
    seq![control(EventKind::Attribute, attribute.value.value_type())] + encode_interned(
        pool,
        attribute.name,
    ) + encode_value(interned(pool, attribute.name), attribute.value)
}

/// The pool after an attribute record has been written.
pub open spec fn pool_after_attribute(pool: PoolView, attribute: SpecAttribute) -> PoolView {
    pool_after_value(interned(pool, attribute.name), attribute.value)
}

/// The attribute records of an element, in order.
pub open spec fn encode_attributes(pool: PoolView, attributes: Seq<SpecAttribute>) -> Seq<u8>
    decreases attributes.len(),
{
    if attributes.len() == 0 {
        Seq::empty()
    } else {
        encode_attribute(pool, attributes[0]) + encode_attributes(
            pool_after_attribute(pool, attributes[0]),
            attributes.skip(1),
        )
    }
}

/// The pool after the attribute records have been written.
pub open spec fn pool_after_attributes(pool: PoolView, attributes: Seq<SpecAttribute>) -> PoolView
    decreases attributes.len(),
{
    if attributes.len() == 0 {
        pool
    } else {
        pool_after_attributes(pool_after_attribute(pool, attributes[0]), attributes.skip(1))
    }
}

/// The pool after the records of an element, but for its end tag, have been written.
pub open spec fn pool_after_open(pool: PoolView, element: SpecElement) -> PoolView
    decreases element,
{
    pool_after_nodes(
        pool_after_attributes(interned(pool, element.name), element.attributes),
        element.children,
    )
}

/// The pool after the records of a node have been written.
pub open spec fn pool_after_node(pool: PoolView, node: SpecNode) -> PoolView
    decreases node,
{
    match node {
        SpecNode::Element(element) => pool_after_open(pool, element),
        _ => pool,
    }
}

/// The pool after the records of the nodes have been written.
pub open spec fn pool_after_nodes(pool: PoolView, nodes: Seq<SpecNode>) -> PoolView
    decreases nodes,
{
    if nodes.len() == 0 {
        pool
    } else {
        pool_after_nodes(pool_after_node(pool, nodes[0]), nodes.skip(1))
    }
}

/// The records of an element up to, and without, its end tag.
pub open spec fn encode_open(pool: PoolView, element: SpecElement) -> Seq<u8>
    decreases element,
{
    seq![control(EventKind::StartTag, ValueType::String)] + encode_interned(pool, element.name)
        + encode_attributes(interned(pool, element.name), element.attributes) + encode_nodes(
        pool_after_attributes(interned(pool, element.name), element.attributes),
        element.children,
    )
}

/// The records of a node.
pub open spec fn encode_node(pool: PoolView, node: SpecNode) -> Seq<u8>
    decreases node,
{
    match node {
        SpecNode::Element(element) => encode_open(pool, element) + seq![
            control(EventKind::EndTag, ValueType::Null),
        ],
        SpecNode::Text(content) => seq![control(EventKind::Text, ValueType::String)]
            + encode_string(content),
        SpecNode::CData(content) => seq![control(EventKind::CData, ValueType::String)]
            + encode_string(content),
    }
}

/// The records of the nodes, in order.
pub open spec fn encode_nodes(pool: PoolView, nodes: Seq<SpecNode>) -> Seq<u8>
    decreases nodes,
{
    if nodes.len() == 0 {
        Seq::empty()
    } else {
        encode_node(pool, nodes[0]) + encode_nodes(pool_after_node(pool, nodes[0]), nodes.skip(1))
    }
}

/// A whole stream: the header, the records of the root written from an
/// empty pool, the end of the document.
pub open spec fn encode_document(root: SpecElement) -> Seq<u8> {
    magic() + encode_node(Seq::empty(), SpecNode::Element(root)) + seq![
        control(EventKind::EndOfDocument, ValueType::Null),
    ]
}

/// Whether a text can be written: its UTF-8 form has a 16-bit length.
pub open spec fn text_fits(text: Seq<char>) -> bool {
    encode_utf8(text).len() <= 0xffff
}

/// Whether a value can be written: its texts fit, and an array or a byte
/// string has a 16-bit length.
pub open spec fn value_fits(value: SpecValue) -> bool {
    match value {
        SpecValue::String(s) => text_fits(s),
        SpecValue::StringArray(items) => items.len() <= 0xffff && forall|i: int|
            0 <= i < items.len() ==> text_fits(#[trigger] items[i]),
        SpecValue::Bytes(b) => b.len() <= 0xffff,
        _ => true,
    }
}

/// Whether an attribute can be written.
pub open spec fn attribute_fits(attribute: SpecAttribute) -> bool {
    text_fits(attribute.name) && value_fits(attribute.value)
}

/// Whether an element can be written: it has no namespace, which the format
/// has no record for, and its name, its attributes and its children fit.
pub open spec fn element_fits(element: SpecElement) -> bool
    decreases element,
{
    &&& text_fits(element.name)
    &&& element.namespace is None
    &&& forall|i: int|
        0 <= i < element.attributes.len() ==> attribute_fits(#[trigger] element.attributes[i])
    &&& nodes_fit(element.children)
}

/// Whether a node can be written.
pub open spec fn node_fits(node: SpecNode) -> bool
    decreases node,
{
    match node {
        SpecNode::Element(element) => element_fits(element),
        SpecNode::Text(content) => text_fits(content),
        SpecNode::CData(content) => text_fits(content),
    }
}

/// Whether all the nodes can be written.
pub open spec fn nodes_fit(nodes: Seq<SpecNode>) -> bool
    decreases nodes,
{
    nodes.len() == 0 || (node_fits(nodes[0]) && nodes_fit(nodes.skip(1)))
}

/// Whether the bytes of `part` stand in `bytes` from `pos` on.
spec fn stands_at(bytes: Seq<u8>, pos: int, part: Seq<u8>) -> bool {
    0 <= pos && pos + part.len() <= bytes.len() && bytes.subrange(pos, pos + part.len()) == part
}

proof fn lemma_stands_index(bytes: Seq<u8>, pos: int, part: Seq<u8>)
    requires
        stands_at(bytes, pos, part),
    ensures
        forall|i: int| 0 <= i < part.len() ==> bytes[pos + i] == #[trigger] part[i],
{
}

proof fn lemma_stands_split(bytes: Seq<u8>, pos: int, first: Seq<u8>, second: Seq<u8>)
    requires
        stands_at(bytes, pos, first + second),
    ensures
        stands_at(bytes, pos, first),
        stands_at(bytes, pos + first.len(), second),
{
    lemma_stands_index(bytes, pos, first + second);
    assert(bytes.subrange(pos, pos + first.len()) =~= first);
    assert(bytes.subrange(pos + first.len(), pos + first.len() + second.len()) =~= second) by {
        assert forall|i: int| 0 <= i < second.len() implies bytes[pos + first.len() + i]
            == second[i] by {
            assert((first + second)[first.len() + i] == second[i]);
        }
    }
}

proof fn lemma_u16_back(bytes: Seq<u8>, pos: int, v: int)
    requires
        0 <= v <= 0xffff,
        stands_at(bytes, pos, encode_u16(v)),
    ensures
        u16_at(bytes, pos) == v,
        spec_read_u16(bytes, pos) == Ok::<(u16, int), DecodeError>((v as u16, pos + 2)),
{
    lemma_stands_index(bytes, pos, encode_u16(v));
    assert(bytes[pos + 1] == encode_u16(v)[1]);
}

proof fn lemma_u32_back(bytes: Seq<u8>, pos: int, v: int)
    requires
        0 <= v <= 0xffff_ffff,
        stands_at(bytes, pos, encode_u32(v)),
    ensures
        u32_at(bytes, pos) == v,
        spec_read_u32(bytes, pos) == Ok::<(u32, int), DecodeError>((v as u32, pos + 4)),
{
    lemma_stands_split(bytes, pos, encode_u16(v / 0x1_0000), encode_u16(v % 0x1_0000));
    lemma_u16_back(bytes, pos, v / 0x1_0000);
    lemma_u16_back(bytes, pos + 2, v % 0x1_0000);
}

proof fn lemma_u64_back(bytes: Seq<u8>, pos: int, v: int)
    requires
        0 <= v <= 0xffff_ffff_ffff_ffff,
        stands_at(bytes, pos, encode_u64(v)),
    ensures
        u64_at(bytes, pos) == v,
        spec_read_u64(bytes, pos) == Ok::<(u64, int), DecodeError>((v as u64, pos + 8)),
{
    lemma_stands_split(bytes, pos, encode_u32(v / 0x1_0000_0000), encode_u32(v % 0x1_0000_0000));
    lemma_u32_back(bytes, pos, v / 0x1_0000_0000);
    lemma_u32_back(bytes, pos + 4, v % 0x1_0000_0000);
}

proof fn lemma_block_back(bytes: Seq<u8>, pos: int, block: Seq<u8>)
    requires
        block.len() <= 0xffff,
        stands_at(bytes, pos, encode_block(block)),
    ensures
        spec_read_block(bytes, pos) == Ok::<(Seq<u8>, int), DecodeError>(
            (block, pos + 2 + block.len()),
        ),
{
    lemma_stands_split(bytes, pos, encode_u16(block.len() as int), block);
    lemma_u16_back(bytes, pos, block.len() as int);
}

proof fn lemma_string_back(bytes: Seq<u8>, pos: int, text: Seq<char>)
    requires
        text_fits(text),
        stands_at(bytes, pos, encode_string(text)),
    ensures
        spec_read_string(bytes, pos) == Ok::<(Seq<char>, int), DecodeError>(
            (text, pos + encode_string(text).len()),
        ),
{
    lemma_block_back(bytes, pos, encode_utf8(text));
    encode_utf8_valid_utf8(text);
    encode_utf8_decode_utf8(text);
}

proof fn lemma_first_index(pool: PoolView, text: Seq<char>)
    ensures
        0 <= first_index(pool, text) <= pool.len(),
        first_index(pool, text) < pool.len() ==> pool[first_index(pool, text)] == text,
    decreases pool.len(),
{
    if pool.len() > 0 && pool[0] != text {
        lemma_first_index(pool.skip(1), text);
    }
}

proof fn lemma_interned_back(bytes: Seq<u8>, pos: int, pool: PoolView, text: Seq<char>)
    requires
        text_fits(text),
        stands_at(bytes, pos, encode_interned(pool, text)),
    ensures
        spec_read_interned(bytes, pos, pool) == Ok::<(Seq<char>, int, PoolView), DecodeError>(
            (text, pos + encode_interned(pool, text).len(), interned(pool, text)),
        ),
{
    lemma_first_index(pool, text);
    if can_refer(pool, text) {
        lemma_u16_back(bytes, pos, first_index(pool, text));
    } else {
        lemma_stands_split(bytes, pos, seq![0xffu8, 0xffu8], encode_string(text));
        lemma_stands_index(bytes, pos, seq![0xffu8, 0xffu8]);
        lemma_string_back(bytes, pos + 2, text);
    }
}

proof fn lemma_strings_back(
    bytes: Seq<u8>,
    pos: int,
    pool: PoolView,
    items: Seq<Seq<char>>,
    acc: Seq<Seq<char>>,
)
    requires
        forall|i: int| 0 <= i < items.len() ==> text_fits(#[trigger] items[i]),
        stands_at(bytes, pos, encode_strings(pool, items)),
    ensures
        spec_read_strings(bytes, pos, pool, items.len(), acc) == Ok::<
            (Seq<Seq<char>>, int, PoolView),
            DecodeError,
        >((acc + items, pos + encode_strings(pool, items).len(), pool_after_strings(pool, items))),
    decreases items.len(),
{
    if items.len() > 0 {
        let rest = items.skip(1);
        let grown = interned(pool, items[0]);
        lemma_stands_split(bytes, pos, encode_interned(pool, items[0]), encode_strings(grown, rest));
        lemma_interned_back(bytes, pos, pool, items[0]);
        lemma_strings_back(
            bytes,
            pos + encode_interned(pool, items[0]).len(),
            grown,
            rest,
            acc.push(items[0]),
        );
        assert(acc.push(items[0]) + rest =~= acc + items);
    }
}

proof fn lemma_value_back(bytes: Seq<u8>, pos: int, pool: PoolView, value: SpecValue)
    requires
        value_fits(value),
        stands_at(bytes, pos, encode_value(pool, value)),
    ensures
        spec_decode_value(value.value_type(), bytes, pos, pool) == Ok::<
            (SpecValue, int, PoolView),
            DecodeError,
        >((value, pos + encode_value(pool, value).len(), pool_after_value(pool, value))),
{
    match value {
        SpecValue::Null => {},
        SpecValue::Boolean(b) => {
            lemma_stands_index(bytes, pos, encode_value(pool, value));
            assert(bytes[pos + 0] == encode_value(pool, value)[0]);
        },
        SpecValue::Int32(v) => {
            lemma_u32_back(bytes, pos, if v < 0 { v + 0x1_0000_0000 } else { v as int });
        },
        SpecValue::Int64(v) => {
            lemma_u64_back(
                bytes,
                pos,
                if v < 0 {
                    v + 0x1_0000_0000_0000_0000
                } else {
                    v as int
                },
            );
        },
        SpecValue::Float(bits) => {
            lemma_u32_back(bytes, pos, bits as int);
        },
        SpecValue::Double(bits) => {
            lemma_u64_back(bytes, pos, bits as int);
        },
        SpecValue::String(s) => {
            lemma_interned_back(bytes, pos, pool, s);
        },
        SpecValue::StringArray(items) => {
            lemma_stands_split(
                bytes,
                pos,
                encode_u16(items.len() as int),
                encode_strings(pool, items),
            );
            lemma_u16_back(bytes, pos, items.len() as int);
            lemma_strings_back(bytes, pos + 2, pool, items, Seq::empty());
        },
        SpecValue::Bytes(b) => {
            lemma_block_back(bytes, pos, b);
        },
    }
}

proof fn lemma_control_back(kind: EventKind, ty: ValueType)
    ensures
        spec_split_control(control(kind, ty)) == Some((kind, ty)),
{
}

proof fn lemma_first_byte(bytes: Seq<u8>, pos: int, first: u8, rest: Seq<u8>)
    requires
        stands_at(bytes, pos, seq![first] + rest),
    ensures
        pos < bytes.len(),
        bytes[pos] == first,
        stands_at(bytes, pos + 1, rest),
{
    lemma_stands_split(bytes, pos, seq![first], rest);
    lemma_stands_index(bytes, pos, seq![first]);
    assert(bytes[pos + 0] == seq![first][0]);
}

proof fn lemma_attribute_back(bytes: Seq<u8>, pos: int, pool: PoolView, attribute: SpecAttribute)
    requires
        attribute_fits(attribute),
        stands_at(bytes, pos, encode_attribute(pool, attribute)),
    ensures
        spec_next_token(bytes, pos, pool) == Ok::<(SpecToken, int, PoolView), DecodeError>(
            (
                SpecToken::Attribute(attribute.name, attribute.value),
                pos + encode_attribute(pool, attribute).len(),
                pool_after_attribute(pool, attribute),
            ),
        ),
{
    let ty = attribute.value.value_type();
    let name = encode_interned(pool, attribute.name);
    let named = interned(pool, attribute.name);
    let payload = encode_value(named, attribute.value);
    assert(encode_attribute(pool, attribute) =~= seq![control(EventKind::Attribute, ty)] + (name
        + payload));
    lemma_first_byte(bytes, pos, control(EventKind::Attribute, ty), name + payload);
    lemma_control_back(EventKind::Attribute, ty);
    lemma_stands_split(bytes, pos + 1, name, payload);
    lemma_interned_back(bytes, pos + 1, pool, attribute.name);
    lemma_value_back(bytes, pos + 1 + name.len(), named, attribute.value);
}

proof fn lemma_text_back(bytes: Seq<u8>, pos: int, pool: PoolView, content: Seq<char>, cdata: bool)
    requires
        text_fits(content),
        stands_at(
            bytes,
            pos,
            encode_node(
                pool,
                if cdata { SpecNode::CData(content) } else { SpecNode::Text(content) },
            ),
        ),
    ensures
        spec_next_token(bytes, pos, pool) == Ok::<(SpecToken, int, PoolView), DecodeError>(
            (
                if cdata { SpecToken::CData(content) } else { SpecToken::Text(content) },
                pos + 1 + encode_string(content).len(),
                pool,
            ),
        ),
{
    let kind = if cdata { EventKind::CData } else { EventKind::Text };
    lemma_first_byte(bytes, pos, control(kind, ValueType::String), encode_string(content));
    lemma_control_back(kind, ValueType::String);
    lemma_string_back(bytes, pos + 1, content);
}

/// The element `top` with `more` after its attributes.
spec fn with_attributes(top: SpecElement, more: Seq<SpecAttribute>) -> SpecElement {
    SpecElement { attributes: top.attributes + more, ..top }
}

/// The element `top` with `more` after its children.
spec fn with_children(top: SpecElement, more: Seq<SpecNode>) -> SpecElement {
    SpecElement { children: top.children + more, ..top }
}

proof fn lemma_with_top_twice(builder: SpecBuilder, first: SpecElement, second: SpecElement)
    requires
        builder.stack.len() > 0,
    ensures
        builder.with_top(first).with_top(second) == builder.with_top(second),
        builder.with_top(first).stack.len() > 0,
        builder.with_top(first).stack.last() == first,
        builder.with_top(builder.stack.last()) == builder,
{
    assert(builder.stack.drop_last().push(first).drop_last() =~= builder.stack.drop_last());
    assert(builder.stack.drop_last().push(builder.stack.last()) =~= builder.stack);
}

proof fn lemma_run_attributes(
    bytes: Seq<u8>,
    pos: int,
    pool: PoolView,
    builder: SpecBuilder,
    attributes: Seq<SpecAttribute>,
)
    requires
        builder.stack.len() > 0,
        forall|i: int| 0 <= i < attributes.len() ==> attribute_fits(#[trigger] attributes[i]),
        stands_at(bytes, pos, encode_attributes(pool, attributes)),
    ensures
        spec_run(bytes, pos, pool, builder) == spec_run(
            bytes,
            pos + encode_attributes(pool, attributes).len(),
            pool_after_attributes(pool, attributes),
            builder.with_top(with_attributes(builder.stack.last(), attributes)),
        ),
    decreases attributes.len(),
{
    let top = builder.stack.last();
    lemma_with_top_twice(builder, top, top);
    if attributes.len() > 0 {
        let first = attributes[0];
        let rest = attributes.skip(1);
        let after = pool_after_attribute(pool, first);
        lemma_stands_split(
            bytes,
            pos,
            encode_attribute(pool, first),
            encode_attributes(after, rest),
        );
        lemma_attribute_back(bytes, pos, pool, first);
        let grown = top.with_attribute(first);
        let next = builder.with_top(grown);
        lemma_with_top_twice(builder, grown, with_attributes(grown, rest));
        lemma_run_attributes(bytes, pos + encode_attribute(pool, first).len(), after, next, rest);
        assert(grown.attributes + rest =~= top.attributes + attributes);
    }
}

proof fn lemma_run_open(
    bytes: Seq<u8>,
    pos: int,
    pool: PoolView,
    builder: SpecBuilder,
    element: SpecElement,
)
    requires
        element_fits(element),
        stands_at(bytes, pos, encode_open(pool, element)),
        builder.stack.len() > 0 || builder.root is None,
    ensures
        spec_run(bytes, pos, pool, builder) == spec_run(
            bytes,
            pos + encode_open(pool, element).len(),
            pool_after_open(pool, element),
            SpecBuilder { stack: builder.stack.push(element), ..builder },
        ),
    decreases element, 1nat,
{
    let start = seq![control(EventKind::StartTag, ValueType::String)];
    let name = encode_interned(pool, element.name);
    let named = interned(pool, element.name);
    let attributes = encode_attributes(named, element.attributes);
    let attributed_pool = pool_after_attributes(named, element.attributes);
    let children = encode_nodes(attributed_pool, element.children);
    assert(encode_open(pool, element) =~= start + (name + (attributes + children)));
    lemma_first_byte(
        bytes,
        pos,
        control(EventKind::StartTag, ValueType::String),
        name + (attributes + children),
    );
    lemma_control_back(EventKind::StartTag, ValueType::String);
    lemma_stands_split(bytes, pos + 1, name, attributes + children);
    lemma_interned_back(bytes, pos + 1, pool, element.name);
    let at_attributes = pos + 1 + name.len();
    lemma_stands_split(bytes, at_attributes, attributes, children);
    let fresh = SpecElement::named(element.name);
    let opened = SpecBuilder { stack: builder.stack.push(fresh), ..builder };
    lemma_run_attributes(bytes, at_attributes, named, opened, element.attributes);
    let with_all = with_attributes(fresh, element.attributes);
    let attributed = opened.with_top(with_all);
    lemma_with_top_twice(opened, with_all, with_children(with_all, element.children));
    lemma_run_nodes(
        bytes,
        at_attributes + attributes.len(),
        attributed_pool,
        attributed,
        element.children,
    );
    let complete = with_children(with_all, element.children);
    assert(opened.stack.drop_last() =~= builder.stack);
}

proof fn lemma_run_close(
    bytes: Seq<u8>,
    pos: int,
    pool: PoolView,
    builder: SpecBuilder,
    element: SpecElement,
)
    requires
        builder.stack.len() > 0,
        0 <= pos < bytes.len(),
        bytes[pos] == control(EventKind::EndTag, ValueType::Null),
    ensures
        spec_run(
            bytes,
            pos,
            pool,
            SpecBuilder { stack: builder.stack.push(element), ..builder },
        ) == spec_run(
            bytes,
            pos + 1,
            pool,
            builder.with_top(builder.stack.last().with_child(SpecNode::Element(element))),
        ),
{
    let inner = SpecBuilder { stack: builder.stack.push(element), ..builder };
    lemma_control_back(EventKind::EndTag, ValueType::Null);
    assert(inner.stack.drop_last() =~= builder.stack);
}

proof fn lemma_run_node(
    bytes: Seq<u8>,
    pos: int,
    pool: PoolView,
    builder: SpecBuilder,
    node: SpecNode,
)
    requires
        node_fits(node),
        stands_at(bytes, pos, encode_node(pool, node)),
        builder.stack.len() > 0,
    ensures
        spec_run(bytes, pos, pool, builder) == spec_run(
            bytes,
            pos + encode_node(pool, node).len(),
            pool_after_node(pool, node),
            builder.with_top(builder.stack.last().with_child(node)),
        ),
    decreases node, 2nat,
{
    match node {
        SpecNode::Element(element) => {
            let end = seq![control(EventKind::EndTag, ValueType::Null)];
            lemma_stands_split(bytes, pos, encode_open(pool, element), end);
            lemma_run_open(bytes, pos, pool, builder, element);
            let at_end = pos + encode_open(pool, element).len();
            lemma_stands_index(bytes, at_end, end);
            assert(bytes[at_end + 0] == end[0]);
            lemma_run_close(bytes, at_end, pool_after_open(pool, element), builder, element);
        },
        SpecNode::Text(content) => {
            lemma_text_back(bytes, pos, pool, content, false);
        },
        SpecNode::CData(content) => {
            lemma_text_back(bytes, pos, pool, content, true);
        },
    }
}

proof fn lemma_run_nodes(
    bytes: Seq<u8>,
    pos: int,
    pool: PoolView,
    builder: SpecBuilder,
    nodes: Seq<SpecNode>,
)
    requires
        nodes_fit(nodes),
        stands_at(bytes, pos, encode_nodes(pool, nodes)),
        builder.stack.len() > 0,
    ensures
        spec_run(bytes, pos, pool, builder) == spec_run(
            bytes,
            pos + encode_nodes(pool, nodes).len(),
            pool_after_nodes(pool, nodes),
            builder.with_top(with_children(builder.stack.last(), nodes)),
        ),
    decreases nodes, 0nat,
{
    let top = builder.stack.last();
    lemma_with_top_twice(builder, top, top);
    if nodes.len() > 0 {
        let first = nodes[0];
        let rest = nodes.skip(1);
        let after = pool_after_node(pool, first);
        lemma_stands_split(bytes, pos, encode_node(pool, first), encode_nodes(after, rest));
        lemma_run_node(bytes, pos, pool, builder, first);
        let grown = top.with_child(first);
        let next = builder.with_top(grown);
        lemma_with_top_twice(builder, grown, with_children(grown, rest));
        lemma_run_nodes(bytes, pos + encode_node(pool, first).len(), after, next, rest);
        assert(grown.children + rest =~= top.children + nodes);
    }
}

proof fn lemma_run_close_root(bytes: Seq<u8>, pos: int, pool: PoolView, root: SpecElement)
    requires
        0 <= pos,
        pos + 2 <= bytes.len(),
        bytes[pos] == control(EventKind::EndTag, ValueType::Null),
        bytes[pos + 1] == control(EventKind::EndOfDocument, ValueType::Null),
    ensures
        spec_run(
            bytes,
            pos,
            pool,
            SpecBuilder { stack: Seq::<SpecElement>::empty().push(root), root: None },
        ) == Ok::<(SpecNode, int), DecodeError>((SpecNode::Element(root), pos + 2)),
{
    let inner = SpecBuilder { stack: Seq::<SpecElement>::empty().push(root), root: None };
    let closed = SpecBuilder { stack: Seq::empty(), root: Some(root) };
    lemma_control_back(EventKind::EndTag, ValueType::Null);
    lemma_control_back(EventKind::EndOfDocument, ValueType::Null);
    assert(inner.stack.drop_last() =~= Seq::<SpecElement>::empty());
    assert(spec_run(bytes, pos, pool, inner) == spec_run(bytes, pos + 1, pool, closed));
}

proof fn lemma_document_parts(root: SpecElement)
    ensures
        stands_at(encode_document(root), 0, magic()),
        stands_at(encode_document(root), 4, encode_open(Seq::empty(), root)),
        encode_document(root).len() == 4 + encode_open(Seq::empty(), root).len() + 2,
        encode_document(root)[4int + encode_open(Seq::empty(), root).len()] == control(
            EventKind::EndTag,
            ValueType::Null,
        ),
        encode_document(root)[4int + encode_open(Seq::empty(), root).len() + 1] == control(
            EventKind::EndOfDocument,
            ValueType::Null,
        ),
{
    let bytes = encode_document(root);
    let body = encode_open(Seq::empty(), root);
    let end = seq![control(EventKind::EndTag, ValueType::Null)];
    let stop = seq![control(EventKind::EndOfDocument, ValueType::Null)];
    assert(bytes.subrange(0, 4) =~= magic());
    assert(bytes.subrange(4, 4int + body.len()) =~= body);
}

/// A tree that can be written comes back from its stream: decoding the
/// encoding of a root element gives that element, with every name,
/// attribute, value, text and CDATA section as it was and in its order, and
/// the document ends with the stream.
pub proof fn law_decode_inverts_encode(root: SpecElement)
    requires
        element_fits(root),
    ensures
        spec_decode_end(encode_document(root)) == Ok::<(SpecNode, int), DecodeError>(
            (SpecNode::Element(root), encode_document(root).len() as int),
        ),
        spec_decode(encode_document(root)) == Ok::<SpecNode, DecodeError>(SpecNode::Element(root)),
{
    let bytes = encode_document(root);
    lemma_document_parts(root);
    let empty = SpecBuilder::empty();
    lemma_run_open(bytes, 4, Seq::empty(), empty, root);
    lemma_run_close_root(
        bytes,
        4int + encode_open(Seq::empty(), root).len(),
        pool_after_open(Seq::empty(), root),
        root,
    );
}

} // verus!
