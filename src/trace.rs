use vstd::prelude::*;

verus! {

/// What `trace` is asked to do: how many lines of context to show around
/// each file:line reference.
pub struct TraceArgs {
    pub context: usize,
}

} // verus!
