//! Structural addresses into a document.

use vstd::prelude::*;

verus! {

/// Child indices as the steps of a path.
pub open spec fn steps(indices: Seq<usize>) -> Seq<nat> {
    indices.map_values(|i: usize| i as nat)
}

/// A structural address: the child indices to follow from the root. The
/// empty path denotes the root itself.
#[derive(Debug, PartialEq, Eq)]
pub struct UiPath {
    pub indices: Vec<usize>,
}

impl View for UiPath {
    type V = Seq<nat>;

    open spec fn view(&self) -> Seq<nat> {
        steps(self.indices@)
    }
}

impl UiPath {
    /// The path of the root.
    pub fn root() -> (path: UiPath)
        ensures
            path@ == Seq::<nat>::empty(),
    {
        UiPath { indices: Vec::new() }
    }

    /// The path that follows `indices` from the root.
    pub fn new(indices: Vec<usize>) -> (path: UiPath)
        ensures
            path@ == steps(indices@),
    {
        UiPath { indices }
    }

    /// The number of steps from the root.
    pub fn len(&self) -> (n: usize)
        ensures
            n == self@.len(),
    {
        self.indices.len()
    }

    /// Whether this is the path of the root.
    pub fn is_root(&self) -> (b: bool)
        ensures
            b == (self@.len() == 0),
    {
        self.indices.len() == 0
    }

    /// The path of child `index` of the element that `self` addresses.
    pub fn child(&self, index: usize) -> (path: UiPath)
        ensures
            path@ == self@.push(index as nat),
    {
        let mut indices = self.indices.clone();
        indices.push(index);
        UiPath { indices }
    }
}

impl Clone for UiPath {
    fn clone(&self) -> (path: UiPath)
        ensures
            path@ == self@,
    {
        UiPath { indices: self.indices.clone() }
    }
}

} // verus!
