//! Embedding another drawing in a card: which parts of the drawing's
//! document are taken over, and as what.

use vstd::prelude::*;

verus! {

/// One node of the document that is read, as far as embedding depends on it.
#[derive(Debug)]
pub enum Node {
    /// The start of the document.
    StartDocument,
    /// The end of the document.
    EndDocument,
    /// The start of an element with this local name.
    StartElement(String),
    /// The end of an element.
    EndElement,
    /// Any other well-formed node: text, a comment, a processing instruction.
    Other,
    /// What could not be read.
    Failure,
}

/// What is written for a node that was read.
#[derive(Clone, Copy, Debug, PartialEq, Eq, Structural)]
pub enum Action {
    /// Nothing is written.
    Skip,
    /// A group that scales its content is opened.
    OpenGroup,
    /// The node is written as it was read.
    Copy,
    /// The element that is open is closed.
    Close,
}

/// The state after `node` and what is written for it. The state tells
/// whether the root element of a drawing was seen. That root element opens a
/// scaling group in its place; elements before it are dropped, elements after
/// it are copied. Every end of an element closes what is open, other
/// well-formed content is copied, and the document's frame and failures are
/// dropped.
pub open spec fn import_next(inside_svg: bool, node: Node) -> (bool, Action) {
    match node {
        Node::StartElement(name) => if name@ == "svg"@ {
            (true, Action::OpenGroup)
        } else if inside_svg {
            (inside_svg, Action::Copy)
        } else {
            (inside_svg, Action::Skip)
        },
        Node::EndElement => (inside_svg, Action::Close),
        Node::Other => (inside_svg, Action::Copy),
        _ => (inside_svg, Action::Skip),
    }
}

/// One step of embedding: the state after `node`, and what to write for it.
pub fn import_step(inside_svg: bool, node: &Node) -> (next: (bool, Action))
    ensures
        next == import_next(inside_svg, *node),
{
    match node {
        Node::StartElement(name) => {
            let root = "svg".to_owned();
            if *name == root {
                (true, Action::OpenGroup)
            } else if inside_svg {
                (inside_svg, Action::Copy)
            } else {
                (inside_svg, Action::Skip)
            }
        },
        Node::EndElement => (inside_svg, Action::Close),
        Node::Other => (inside_svg, Action::Copy),
        _ => (inside_svg, Action::Skip),
    }
}

} // verus!
