use vstd::prelude::*;

verus! {

/// How a node behaves when its pipeline unwinds.
#[derive(Debug, Clone, Copy, PartialEq, Eq)]
pub struct NodeOptions {
    /// Unwinding stops at this node: it is never rolled back.
    pub is_unwind_boundary: bool,
    /// A failure of this node makes its pipeline unwind.
    pub unwind_on_failure: bool,
}

impl NodeOptions {
    /// Not a boundary; unwinds the pipeline on failure.
    pub fn default() -> (r: NodeOptions)
        ensures
            r == (NodeOptions { is_unwind_boundary: false, unwind_on_failure: true }),
    {
        NodeOptions { is_unwind_boundary: false, unwind_on_failure: true }
    }
}

/// Everything needed to create a node in a deployment DAG.
///
/// `event` and `mutates` are opaque strings to the engine: it stores them and gives them back.
/// The engine only compares `mutates` for equality (FIFO scheduling).
#[derive(Debug)]
pub struct NodeSpec {
    pub event: String,
    pub mutates: Option<String>,
    pub options: NodeOptions,
}

} // verus!
