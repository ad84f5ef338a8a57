use vstd::prelude::*;

verus! {

/// What `clean` is asked to do: whether to skip the confirmation prompt.
pub struct CleanArgs {
    pub force: bool,
}

} // verus!
