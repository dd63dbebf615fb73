//! The renderer's model of a parsed HTML document tree.
//!
//! The tree is consumed read-only; an element carries its tag name and an
//! ordered attribute list, and every node carries its children in document
//! order.

use vstd::prelude::*;

verus! {

/// One attribute of an HTML element: a name and a value.
pub struct HtmlAttribute {
    pub name: String,
    pub value: String,
}

impl Clone for HtmlAttribute {
    fn clone(&self) -> (r: Self)
        ensures
            r == *self,
    {
        HtmlAttribute { name: self.name.clone(), value: self.value.clone() }
    }
}

/// What a parsed HTML node is, mirroring the variants a standards-compliant
/// parser distinguishes.
pub enum NodeData {
    Document,
    Doctype,
    ProcessingInstruction,
    Comment,
    Element { tag: String, attrs: Vec<HtmlAttribute> },
    Text { contents: String },
}

/// A node of the parsed HTML tree: its data, and its children in document
/// order (the only ordering the renderer relies on).
pub struct HtmlNode {
    pub data: NodeData,
    pub children: Vec<HtmlNode>,
}

} // verus!
