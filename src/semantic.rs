use crate::nodes::TopLevel;
use vstd::prelude::*;

verus! {

/// A pass over a parsed program that hands it on unchanged.
pub struct SemanticAnalyzer {
    pub tree: Vec<TopLevel>,
}

impl SemanticAnalyzer {
    pub fn new(tree: Vec<TopLevel>) -> (r: Self)
        ensures
            r.tree == tree,
    {
        SemanticAnalyzer { tree }
    }

    /// The program, as it was given.
    pub fn analyze(self) -> (r: Vec<TopLevel>)
        ensures
            r == self.tree,
    {
        self.tree
    }
}

} // verus!
