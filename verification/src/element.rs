//! The document tree that is decoded: nodes, text and the leaves that are
//! skipped. The tree is only ever read.

use vstd::prelude::*;
use vstd::string::StringExecFns;

verus! {

/// One attribute of a node: a name and its value.
#[derive(Debug, PartialEq, Eq)]
pub struct Attribute {
    pub name: String,
    pub value: String,
}

/// The mathematical content of a node.
pub ghost struct NodeView {
    pub name: Seq<char>,
    pub attributes: Seq<(Seq<char>, Seq<char>)>,
    pub children: Seq<ElementView>,
}

/// The mathematical content of an element.
pub ghost enum ElementView {
    Node(NodeView),
    Text(Seq<char>),
    Whitespace(Seq<char>),
    Comment(Seq<char>),
    CData(Seq<char>),
}

/// A node: a tag name, its attributes in document order, and its
/// children in document order.
#[derive(Debug, PartialEq, Eq)]
pub struct NodeElement {
    pub name: String,
    pub attributes: Vec<Attribute>,
    pub children: Vec<Element>,
}

/// One construct of a document tree.
#[derive(Debug, PartialEq, Eq)]
pub enum Element {
    Node(NodeElement),
    Text(String),
    Whitespace(String),
    Comment(String),
    CData(String),
}

impl View for Attribute {
    type V = (Seq<char>, Seq<char>);

    open spec fn view(&self) -> (Seq<char>, Seq<char>) {
        (self.name@, self.value@)
    }
}

impl View for NodeElement {
    type V = NodeView;

    open spec fn view(&self) -> NodeView
        decreases self,
    {
        NodeView {
            name: self.name@,
            attributes: self.attributes@.map_values(|a: Attribute| a@),
            children: Seq::new(
                self.children@.len(),
                |i: int|
                    if 0 <= i < self.children@.len() {
                        self.children@[i]@
                    } else {
                        ElementView::Text(Seq::empty())
                    },
            ),
        }
    }
}

impl View for Element {
    type V = ElementView;

    open spec fn view(&self) -> ElementView
        decreases self,
    {
        match self {
            Element::Node(n) => ElementView::Node(n@),
            Element::Text(s) => ElementView::Text(s@),
            Element::Whitespace(s) => ElementView::Whitespace(s@),
            Element::Comment(s) => ElementView::Comment(s@),
            Element::CData(s) => ElementView::CData(s@),
        }
    }
}

impl ElementView {
    /// What the element adds to the text of the node it stands directly in:
    /// the string of a text leaf, nothing for any other element.
    pub open spec fn text_piece(self) -> Seq<char> {
        match self {
            ElementView::Text(s) => s,
            _ => Seq::empty(),
        }
    }

    /// Whether the element is a node with this tag name.
    pub open spec fn is_node_named(self, tag: Seq<char>) -> bool {
        match self {
            ElementView::Node(n) => n.name == tag,
            _ => false,
        }
    }
}

/// The direct text content of a node with these children: the strings of its
/// text leaves, concatenated in document order. Text further down is not part
/// of it.
pub open spec fn direct_text(children: Seq<ElementView>) -> Seq<char> {
    children.map_values(|c: ElementView| c.text_piece()).flatten()
}

/// The child nodes with this tag name, in document order.
pub open spec fn children_named(children: Seq<ElementView>, tag: Seq<char>) -> Seq<ElementView> {
    children.filter(|c: ElementView| c.is_node_named(tag))
}

/// The contents of a list of borrowed elements, in order.
pub open spec fn elements_view(elements: Seq<&Element>) -> Seq<ElementView> {
    elements.map_values(|e: &Element| e@)
}

/// The value of the first attribute of this name at or after `start`, if any.
pub open spec fn attribute_from(
    attributes: Seq<(Seq<char>, Seq<char>)>,
    name: Seq<char>,
    start: nat,
) -> Option<Seq<char>>
    decreases attributes.len() - start,
{
    if start >= attributes.len() {
        None
    } else if attributes[start as int].0 == name {
        Some(attributes[start as int].1)
    } else {
        attribute_from(attributes, name, start + 1)
    }
}

/// The value of the first attribute of this name, if any.
pub open spec fn first_attribute(attributes: Seq<(Seq<char>, Seq<char>)>, name: Seq<char>) -> Option<
    Seq<char>,
> {
    attribute_from(attributes, name, 0)
}

impl Element {
    /// Whether the element is a node with this tag name.
    pub fn is_node_named(&self, tag: &String) -> (b: bool)
        ensures
            b == self@.is_node_named(tag@),
    {
        match self {
            Element::Node(n) => n.name == *tag,
            _ => false,
        }
    }
}

impl NodeElement {
    /// The node's direct text content.
    pub fn direct_text(&self) -> (text: String)
        ensures
            text@ == direct_text(self@.children),
    {
        let mut text = String::new();
        let ghost pieces = self@.children.map_values(|c: ElementView| c.text_piece());
        let n: usize = self.children.len();
        let mut i: usize = 0;
        while i < n
            invariant
                i <= n,
                n == self.children@.len(),
                pieces == self@.children.map_values(|c: ElementView| c.text_piece()),
                text@ == pieces.take(i as int).flatten(),
            decreases n - i,
        {
            proof {
                assert(pieces.take(i + 1) == pieces.take(i as int).push(pieces[i as int]));
                pieces.take(i as int).lemma_flatten_push(pieces[i as int]);
            }
            match &self.children[i] {
                Element::Text(s) => {
                    text.append(s.as_str());
                },
                _ => {
                    assert(text@ + Seq::<char>::empty() == text@);
                },
            }
            i += 1;
        }
        assert(pieces.take(n as int) == pieces);
        text
    }

    /// The value of the first attribute of this name, if the node has one.
    pub fn attribute(&self, name: &String) -> (value: Option<&String>)
        ensures
            match value {
                Some(v) => first_attribute(self@.attributes, name@) == Some(v@),
                None => first_attribute(self@.attributes, name@) is None,
            },
    {
        let n: usize = self.attributes.len();
        let mut i: usize = 0;
        while i < n
            invariant
                i <= n,
                n == self.attributes@.len(),
                first_attribute(self@.attributes, name@) == attribute_from(
                    self@.attributes,
                    name@,
                    i as nat,
                ),
            decreases n - i,
        {
            if self.attributes[i].name == *name {
                return Some(&self.attributes[i].value);
            }
            i += 1;
        }
        None
    }

    /// The child nodes with this tag name, in document order.
    pub fn children_named(&self, tag: &String) -> (found: Vec<&Element>)
        ensures
            elements_view(found@) == children_named(self@.children, tag@),
    {
        let mut found: Vec<&Element> = Vec::new();
        let ghost pred = |c: ElementView| c.is_node_named(tag@);
        let n: usize = self.children.len();
        let mut i: usize = 0;
        proof {
            reveal(Seq::filter);
            assert(self@.children.take(0).filter(pred).len() == 0);
        }
        while i < n
            invariant
                i <= n,
                n == self.children@.len(),
                pred == |c: ElementView| c.is_node_named(tag@),
                found@.len() == self@.children.take(i as int).filter(pred).len(),
                forall|k: int|
                    0 <= k < found@.len() ==> (#[trigger] found@[k])@ == self@.children.take(
                        i as int,
                    ).filter(pred)[k],
            decreases n - i,
        {
            proof {
                assert(self@.children.take(i + 1) == self@.children.take(i as int).push(
                    self@.children[i as int],
                ));
                self@.children.take(i as int).lemma_filter_push(self@.children[i as int], pred);
            }
            if self.children[i].is_node_named(tag) {
                found.push(&self.children[i]);
            }
            i += 1;
        }
        assert(self@.children.take(n as int) == self@.children);
        assert(elements_view(found@) =~= children_named(self@.children, tag@));
        found
    }
}

} // verus!
