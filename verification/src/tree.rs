//! The document tree, and the stack machine that nests records into it.
use vstd::prelude::*;
use crate::error::ErrorKind;
use crate::token::{SpecToken, Token};
use crate::value::{SpecValue, TypedValue};

verus! {

/// A named, typed value on an element.
#[derive(Clone, Debug, PartialEq, Eq)]
pub struct Attribute {
    pub name: String,
    pub value: TypedValue,
}

/// An element: its name, its attributes in stream order and its children in
/// stream order. No record of the stream names a namespace, so a decoded
/// element has none; a tree built by hand may.
#[derive(Debug, PartialEq, Eq)]
pub struct Element {
    pub name: String,
    pub namespace: Option<String>,
    pub attributes: Vec<Attribute>,
    pub children: Vec<XmlNode>,
}

/// A node of the document tree.
#[derive(Debug, PartialEq, Eq)]
pub enum XmlNode {
    Element(Element),
    Text(String),
    CData(String),
}

/// What an attribute is.
pub struct SpecAttribute {
    pub name: Seq<char>,
    pub value: SpecValue,
}

/// What an element is.
pub struct SpecElement {
    pub name: Seq<char>,
    pub namespace: Option<Seq<char>>,
    pub attributes: Seq<SpecAttribute>,
    pub children: Seq<SpecNode>,
}

/// What a node is.
pub enum SpecNode {
    Element(SpecElement),
    Text(Seq<char>),
    CData(Seq<char>),
}

impl SpecElement {
    /// An element with a name and nothing else.
    pub open spec fn named(name: Seq<char>) -> SpecElement {
        SpecElement { name, namespace: None, attributes: Seq::empty(), children: Seq::empty() }
    }

    /// The element with one more attribute.
    pub open spec fn with_attribute(self, attribute: SpecAttribute) -> SpecElement {
        SpecElement { attributes: self.attributes.push(attribute), ..self }
    }

    /// The element with one more child.
    pub open spec fn with_child(self, child: SpecNode) -> SpecElement {
        SpecElement { children: self.children.push(child), ..self }
    }
}

/// The views of the items of a sequence.
pub open spec fn views<T: View>(items: Seq<T>) -> Seq<T::V> {
    Seq::new(items.len(), |i: int| items[i]@)
}

/// The view of an optional string.
pub open spec fn optional_text(text: Option<String>) -> Option<Seq<char>> {
    match text {
        Some(s) => Some(s@),
        None => None,
    }
}

/// What the node `node` is.
pub open spec fn node_view(node: XmlNode) -> SpecNode
    decreases node,
{
    match node {
        XmlNode::Element(e) => SpecNode::Element(element_view(e)),
        XmlNode::Text(content) => SpecNode::Text(content@),
        XmlNode::CData(content) => SpecNode::CData(content@),
    }
}

/// What the element `element` is.
pub open spec fn element_view(element: Element) -> SpecElement
    decreases element,
{
    SpecElement {
        name: element.name@,
        namespace: optional_text(element.namespace),
        attributes: views(element.attributes@),
        children: Seq::new(
            element.children.len() as nat,
            |i: int|
                if 0 <= i < element.children.len() {
                    node_view(element.children[i])
                } else {
                    arbitrary()
                },
        ),
    }
}

impl View for Attribute {
    type V = SpecAttribute;

    open spec fn view(&self) -> SpecAttribute {
        SpecAttribute { name: self.name@, value: self.value@ }
    }
}

impl View for Element {
    type V = SpecElement;

    open spec fn view(&self) -> SpecElement {
        element_view(*self)
    }
}

impl View for XmlNode {
    type V = SpecNode;

    open spec fn view(&self) -> SpecNode {
        node_view(*self)
    }
}

/// The state of the stack machine: the elements that are open, outermost
/// first, and the root once it has closed.
pub struct SpecBuilder {
    pub stack: Seq<SpecElement>,
    pub root: Option<SpecElement>,
}

/// What one record makes of the machine.
pub enum SpecStep {
    /// The machine goes on in this state.
    Continue(SpecBuilder),
    /// The document is complete, and this is its root.
    Finished(SpecNode),
}

impl SpecBuilder {
    /// The machine before any record.
    pub open spec fn empty() -> SpecBuilder {
        SpecBuilder { stack: Seq::empty(), root: None }
    }

    /// The machine with `element` in place of the innermost open element.
    pub open spec fn with_top(self, element: SpecElement) -> SpecBuilder {
        SpecBuilder { stack: self.stack.drop_last().push(element), ..self }
    }

    /// The machine after the innermost open element has closed: it becomes a
    /// child of the element around it, or the root where there is none.
    pub open spec fn closed(self) -> SpecBuilder {
        let top = self.stack.last();
        let rest = self.stack.drop_last();
        if rest.len() == 0 {
            SpecBuilder { stack: rest, root: Some(top) }
        } else {
            SpecBuilder {
                stack: rest.drop_last().push(rest.last().with_child(SpecNode::Element(top))),
                ..self
            }
        }
    }

    /// What the record `token` makes of the machine, or why it is refused.
    pub open spec fn apply(self, token: SpecToken) -> Result<SpecStep, ErrorKind> {
        match token {
            SpecToken::StartTag(name) => if self.stack.len() == 0 && self.root.is_some() {
                Err(ErrorKind::UnbalancedTags)
            } else {
                Ok(
                    SpecStep::Continue(
                        SpecBuilder { stack: self.stack.push(SpecElement::named(name)), ..self },
                    ),
                )
            },
            SpecToken::Attribute(name, value) => if self.stack.len() == 0 {
                Err(ErrorKind::AttributeOutsideElement)
            } else {
                Ok(
                    SpecStep::Continue(
                        self.with_top(
                            self.stack.last().with_attribute(SpecAttribute { name, value }),
                        ),
                    ),
                )
            },
            SpecToken::Text(content) => if self.stack.len() == 0 {
                Err(ErrorKind::TextOutsideElement)
            } else {
                Ok(
                    SpecStep::Continue(
                        self.with_top(self.stack.last().with_child(SpecNode::Text(content))),
                    ),
                )
            },
            SpecToken::CData(content) => if self.stack.len() == 0 {
                Err(ErrorKind::TextOutsideElement)
            } else {
                Ok(
                    SpecStep::Continue(
                        self.with_top(self.stack.last().with_child(SpecNode::CData(content))),
                    ),
                )
            },
            SpecToken::EndTag => if self.stack.len() == 0 {
                Err(ErrorKind::UnbalancedTags)
            } else {
                Ok(SpecStep::Continue(self.closed()))
            },
            SpecToken::EndOfDocument => if self.stack.len() > 0 {
                Err(ErrorKind::TruncatedDocument)
            } else {
                match self.root {
                    None => Err(ErrorKind::EmptyDocument),
                    Some(root) => Ok(SpecStep::Finished(SpecNode::Element(root))),
                }
            },
        }
    }
}

/// The stack machine that nests records into a tree.
#[derive(Debug)]
pub struct TreeBuilder {
    stack: Vec<Element>,
    root: Option<Element>,
}

/// What one record made of the machine.
#[derive(Debug)]
pub enum Step {
    /// The machine goes on.
    Continue(TreeBuilder),
    /// The document is complete, and this is its root.
    Finished(XmlNode),
}

/// The view of an optional element.
pub open spec fn optional_element(element: Option<Element>) -> Option<SpecElement> {
    match element {
        Some(e) => Some(e@),
        None => None,
    }
}

impl View for TreeBuilder {
    type V = SpecBuilder;

    closed spec fn view(&self) -> SpecBuilder {
        SpecBuilder { stack: views(self.stack@), root: optional_element(self.root) }
    }
}

impl View for Step {
    type V = SpecStep;

    open spec fn view(&self) -> SpecStep {
        match self {
            Step::Continue(builder) => SpecStep::Continue(builder@),
            Step::Finished(root) => SpecStep::Finished(root@),
        }
    }
}

/// The view of what a step returned.
pub open spec fn step_view(r: Result<Step, ErrorKind>) -> Result<SpecStep, ErrorKind> {
    match r {
        Ok(step) => Ok(step@),
        Err(kind) => Err(kind),
    }
}

proof fn lemma_views_push<T: View>(items: Seq<T>, item: T)
    ensures
        views(items.push(item)) == views(items).push(item@),
{
}

proof fn lemma_views_drop_last<T: View>(items: Seq<T>)
    requires
        items.len() > 0,
    ensures
        views(items.drop_last()) == views(items).drop_last(),
        views(items).last() == items.last()@,
{
}

impl Clone for XmlNode {
    fn clone(&self) -> (copy: Self)
        ensures
            copy@ == self@,
        decreases self,
    {
        match self {
            XmlNode::Element(element) => XmlNode::Element(element.clone()),
            XmlNode::Text(content) => XmlNode::Text(content.clone()),
            XmlNode::CData(content) => XmlNode::CData(content.clone()),
        }
    }
}

impl Clone for Element {
    fn clone(&self) -> (copy: Self)
        ensures
            copy@ == self@,
        decreases self,
    {
        let mut attributes: Vec<Attribute> = Vec::new();
        let mut i: usize = 0;
        while i < self.attributes.len()
            invariant
                i <= self.attributes.len(),
                attributes.len() == i,
                forall|k: int| 0 <= k < i ==> attributes[k]@ == self.attributes[k]@,
            decreases self.attributes.len() - i,
        {
            let attribute = &self.attributes[i];
            attributes.push(
                Attribute { name: attribute.name.clone(), value: attribute.value.clone() },
            );
            i = i + 1;
        }
        let mut children: Vec<XmlNode> = Vec::new();
        let mut j: usize = 0;
        while j < self.children.len()
            invariant
                j <= self.children.len(),
                children.len() == j,
                forall|k: int| 0 <= k < j ==> children[k]@ == self.children[k]@,
            decreases self.children.len() - j,
        {
            children.push(self.children[j].clone());
            j = j + 1;
        }
        let namespace = match &self.namespace {
            Some(uri) => Some(uri.clone()),
            None => None,
        };
        let copy = Element { name: self.name.clone(), namespace, attributes, children };
        assert(copy@.attributes =~= self@.attributes);
        assert(copy@.children =~= self@.children);
        copy
    }
}

impl Element {
    /// An element with a name and nothing else.
    pub fn new(name: String) -> (e: Element)
        ensures
            e@ == SpecElement::named(name@),
    {
        let e = Element { name, namespace: None, attributes: Vec::new(), children: Vec::new() };
        assert(e@.attributes =~= Seq::empty());
        assert(e@.children =~= Seq::empty());
        e
    }

    /// Adds an attribute after those already there.
    pub fn push_attribute(&mut self, attribute: Attribute)
        ensures
            final(self)@ == old(self)@.with_attribute(attribute@),
    {
        self.attributes.push(attribute);
        assert(self@.attributes =~= old(self)@.attributes.push(attribute@));
    }

    /// Adds a child after those already there.
    pub fn push_child(&mut self, child: XmlNode)
        ensures
            final(self)@ == old(self)@.with_child(child@),
    {
        self.children.push(child);
        assert(self@.children =~= old(self)@.children.push(child@));
    }
}

impl TreeBuilder {
    /// The machine before any record: nothing open, no root.
    pub fn new() -> (builder: Self)
        ensures
            builder@ == SpecBuilder::empty(),
    {
        let builder = TreeBuilder { stack: Vec::new(), root: None };
        assert(builder@.stack =~= Seq::empty());
        builder
    }

    /// The number of elements that are open.
    pub fn depth(&self) -> (n: usize)
        ensures
            n == self@.stack.len(),
    {
        self.stack.len()
    }

    /// Whether the root element has closed.
    pub fn has_root(&self) -> (b: bool)
        ensures
            b == self@.root.is_some(),
    {
        self.root.is_some()
    }

    /// Puts `element` back as the innermost open element, after it was
    /// taken off the stack `rest`.
    fn resume(rest: Vec<Element>, element: Element, root: Option<Element>) -> (step: Step)
        ensures
            step@ == SpecStep::Continue(
                SpecBuilder { stack: views(rest@).push(element@), root: optional_element(root) },
            ),
    {
        let mut stack = rest;
        stack.push(element);
        proof {
            lemma_views_push(rest@, element);
        }
        Step::Continue(TreeBuilder { stack, root })
    }

    /// Feeds one record to the machine. A start tag opens an element; an
    /// attribute, a text and a CDATA section go to the innermost open
    /// element; an end tag closes it; the end of the document hands out
    /// the root.
    pub fn apply(self, token: Token) -> (r: Result<Step, ErrorKind>)
        ensures
            step_view(r) == self@.apply(token@),
    {
        let mut stack = self.stack;
        let root = self.root;
        let ghost before = stack@;
        match token {
            Token::StartTag(name) => {
                if stack.len() == 0 && root.is_some() {
                    Err(ErrorKind::UnbalancedTags)
                } else {
                    Ok(Self::resume(stack, Element::new(name), root))
                }
            },
            Token::Attribute(name, value) => {
                match stack.pop() {
                    None => Err(ErrorKind::AttributeOutsideElement),
                    Some(top) => {
                        let mut top = top;
                        proof {
                            lemma_views_drop_last(before);
                        }
                        top.push_attribute(Attribute { name, value });
                        Ok(Self::resume(stack, top, root))
                    },
                }
            },
            Token::Text(content) => {
                match stack.pop() {
                    None => Err(ErrorKind::TextOutsideElement),
                    Some(top) => {
                        let mut top = top;
                        proof {
                            lemma_views_drop_last(before);
                        }
                        top.push_child(XmlNode::Text(content));
                        Ok(Self::resume(stack, top, root))
                    },
                }
            },
            Token::CData(content) => {
                match stack.pop() {
                    None => Err(ErrorKind::TextOutsideElement),
                    Some(top) => {
                        let mut top = top;
                        proof {
                            lemma_views_drop_last(before);
                        }
                        top.push_child(XmlNode::CData(content));
                        Ok(Self::resume(stack, top, root))
                    },
                }
            },
            Token::EndTag => {
                match stack.pop() {
                    None => Err(ErrorKind::UnbalancedTags),
                    Some(top) => {
                        proof {
                            lemma_views_drop_last(before);
                        }
                        let ghost rest = stack@;
                        match stack.pop() {
                            None => {
                                let builder = TreeBuilder { stack, root: Some(top) };
                                Ok(Step::Continue(builder))
                            },
                            Some(parent) => {
                                let mut parent = parent;
                                proof {
                                    lemma_views_drop_last(rest);
                                }
                                parent.push_child(XmlNode::Element(top));
                                Ok(Self::resume(stack, parent, root))
                            },
                        }
                    },
                }
            },
            Token::EndOfDocument => {
                if stack.len() > 0 {
                    Err(ErrorKind::TruncatedDocument)
                } else {
                    match root {
                        None => Err(ErrorKind::EmptyDocument),
                        Some(root) => Ok(Step::Finished(XmlNode::Element(root))),
                    }
                }
            },
        }
    }
}

} // verus!
