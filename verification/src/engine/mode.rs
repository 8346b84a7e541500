use vstd::prelude::*;

verus! {

/// How a run treats its findings: preview them, gate on them, or apply them.
#[derive(Debug, Clone, Copy, PartialEq, Eq, Structural)]
pub enum Mode {
    Plan,
    Check,
    Apply,
}

} // verus!
