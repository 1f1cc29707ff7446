use vstd::prelude::*;

verus! {

/// The ways a batch find-and-replace run can fail.
///
/// `InvalidPattern` is detected while building the substitution, before any
/// store access. `MissingSchema` and `MissingRecord` mean the caller supplied
/// a stale or invalid id; either aborts the whole batch with no effect.
#[derive(Debug, Clone, Copy, PartialEq, Eq, Structural)]
pub enum FindReplaceError {
    InvalidPattern,
    MissingSchema,
    MissingRecord,
}

} // verus!
