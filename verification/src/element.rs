use vstd::prelude::*;

verus! {

/// A tag of a markup text: its name, its attributes as pairs of a name and a
/// value, in the order in which they were written, and the tags inside it.
/// The parsers do not depend on it; it is what a grammar built from them
/// may read its input into.
#[derive(Debug, PartialEq, Eq)]
pub struct Element {
    pub name: String,
    pub attributes: Vec<(String, String)>,
    pub children: Vec<Element>,
}

} // verus!
