//! The document tree as XML text.
use vstd::prelude::*;
use vstd::string::StringExecFns;
use crate::text::{escaped, push_escaped, push_section_body, section_body};
use crate::tree::{Attribute, Element, SpecAttribute, SpecElement, SpecNode, XmlNode};
use crate::value::value_text;

verus! {

/// One attribute: a space, the name, and the escaped text of the value in
/// double quotes.
pub open spec fn attribute_text(attribute: SpecAttribute) -> Seq<char> {
    seq![' '] + attribute.name + "=\""@ + escaped(value_text(attribute.value)) + seq!['"']
}

/// The attributes, in order.
pub open spec fn attributes_text(attributes: Seq<SpecAttribute>) -> Seq<char>
    decreases attributes.len(),
{
    if attributes.len() == 0 {
        Seq::empty()
    } else {
        attributes_text(attributes.drop_last()) + attribute_text(attributes.last())
    }
}

/// The declaration of the element's namespace, where it has one.
pub open spec fn namespace_text(namespace: Option<Seq<char>>) -> Seq<char> {
    match namespace {
        None => Seq::empty(),
        Some(uri) => " xmlns=\""@ + escaped(uri) + seq!['"'],
    }
}

/// The start of an element up to, and without, the end of its start tag.
pub open spec fn tag_text(element: SpecElement) -> Seq<char> {
    seq!['<'] + element.name + namespace_text(element.namespace) + attributes_text(
        element.attributes,
    )
}

/// The end tag of an element.
pub open spec fn end_tag_text(element: SpecElement) -> Seq<char> {
    "</"@ + element.name + seq!['>']
}

/// A node as XML text. An element without children is one empty-element
/// tag; any other is a start tag, its children and an end tag. Text is
/// escaped. A CDATA section keeps its markers.
pub open spec fn node_text(node: SpecNode) -> Seq<char>
    decreases node,
{
    match node {
        SpecNode::Element(element) => if element.children.len() == 0 {
            tag_text(element) + "/>"@
        } else {
            tag_text(element) + seq!['>'] + nodes_text(element.children) + end_tag_text(element)
        },
        SpecNode::Text(content) => escaped(content),
        SpecNode::CData(content) => "<![CDATA["@ + section_body(content) + "]]>"@,
    }
}

/// The nodes as XML text, one after another.
pub open spec fn nodes_text(nodes: Seq<SpecNode>) -> Seq<char>
    decreases nodes,
{
    if nodes.len() == 0 {
        Seq::empty()
    } else {
        nodes_text(nodes.drop_last()) + node_text(nodes.last())
    }
}

/// Appends one attribute.
pub fn write_attribute(attribute: &Attribute, out: &mut String)
    ensures
        final(out)@ == old(out)@ + attribute_text(attribute@),
{
    out.push(' ');
    out.append(attribute.name.as_str());
    out.append("=\"");
    let text = attribute.value.to_text();
    push_escaped(out, text.as_str());
    out.push('"');
}

/// Appends the start of an element up to, and without, the end of its start tag.
pub fn write_tag(element: &Element, out: &mut String)
    ensures
        final(out)@ == old(out)@ + tag_text(element@),
{
    out.push('<');
    out.append(element.name.as_str());
    match &element.namespace {
        None => {},
        Some(uri) => {
            out.append(" xmlns=\"");
            push_escaped(out, uri.as_str());
            out.push('"');
        },
    }
    let ghost head = out@;
    let ghost attributes = element@.attributes;
    let mut i: usize = 0;
    while i < element.attributes.len()
        invariant
            i <= element.attributes.len(),
            attributes == element@.attributes,
            attributes.len() == element.attributes.len(),
            out@ == head + attributes_text(attributes.take(i as int)),
        decreases element.attributes.len() - i,
    {
        write_attribute(&element.attributes[i], out);
        assert(attributes.take(i + 1).drop_last() =~= attributes.take(i as int));
        i = i + 1;
    }
    assert(attributes.take(element.attributes.len() as int) =~= attributes);
}

/// Appends an element as XML text.
pub fn write_element(element: &Element, out: &mut String)
    ensures
        final(out)@ == old(out)@ + node_text(SpecNode::Element(element@)),
    decreases element,
{
    write_tag(element, out);
    if element.children.len() == 0 {
        out.append("/>");
    } else {
        out.push('>');
        let ghost head = out@;
        let ghost children = element@.children;
        let mut i: usize = 0;
        while i < element.children.len()
            invariant
                i <= element.children.len(),
                children == element@.children,
                children.len() == element.children.len(),
                out@ == head + nodes_text(children.take(i as int)),
            decreases element.children.len() - i,
        {
            write_node(&element.children[i], out);
            assert(children.take(i + 1).drop_last() =~= children.take(i as int));
            i = i + 1;
        }
        assert(children.take(element.children.len() as int) =~= children);
        out.append("</");
        out.append(element.name.as_str());
        out.push('>');
    }
}

/// Appends a node as XML text.
pub fn write_node(node: &XmlNode, out: &mut String)
    ensures
        final(out)@ == old(out)@ + node_text(node@),
    decreases node,
{
    match node {
        XmlNode::Element(element) => {
            write_element(element, out);
        },
        XmlNode::Text(content) => {
            push_escaped(out, content.as_str());
        },
        XmlNode::CData(content) => {
            out.append("<![CDATA[");
            push_section_body(out, content.as_str());
            out.append("]]>");
        },
    }
}

/// The tree as XML text.
pub fn to_xml(root: &XmlNode) -> (text: String)
    ensures
        text@ == node_text(root@),
{
    let mut text = String::new();
    write_node(root, &mut text);
    text
}

} // verus!
