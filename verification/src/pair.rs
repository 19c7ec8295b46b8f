//! The pairs that a header holds.

use vstd::prelude::*;

verus! {

/// One vendor specific parameter: a name and its value. An empty value
/// stands for a parameter that is not set.
#[derive(Debug, Clone, PartialEq, Eq)]
pub struct Pair {
    pub name: String,
    pub value: String,
}

/// A pair as two character sequences.
pub struct PairView {
    pub name: Seq<char>,
    pub value: Seq<char>,
}

impl View for Pair {
    type V = PairView;

    open spec fn view(&self) -> PairView {
        PairView { name: self.name@, value: self.value@ }
    }
}

/// The pairs of a header, in order, each as character sequences.
pub open spec fn source_view(header: Seq<Pair>) -> Seq<PairView> {
    Seq::new(header.len(), |i: int| header[i]@)
}

impl Pair {
    /// A pair of `name` and `value`.
    pub fn new(name: &str, value: &str) -> (pair: Pair)
        ensures
            pair@ == (PairView { name: name@, value: value@ }),
    {
        Pair { name: name.to_owned(), value: value.to_owned() }
    }
}

} // verus!
