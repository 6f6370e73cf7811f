use vstd::prelude::*;

verus! {

/// Kind of a membership change.
#[derive(Debug, Clone, Copy, PartialEq, Eq, Structural)]
pub enum ConfChangeType {
    AddNode,
    RemoveNode,
}

} // verus!
