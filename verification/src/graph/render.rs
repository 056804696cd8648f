//! Results of render group preparation.

use vstd::prelude::*;

verus! {

/// Result of draw preparation.
#[derive(Clone, Copy, Debug, PartialEq, Eq, Structural)]
pub enum PrepareResult {
    /// Force record draw commands.
    DrawRecord,
    /// Reuse draw commands.
    DrawReuse,
}

impl PrepareResult {
    /// Whether draw commands must be recorded again.
    pub fn force_record(&self) -> (r: bool)
        ensures
            r == (*self == PrepareResult::DrawRecord),
    {
        match self {
            PrepareResult::DrawRecord => true,
            PrepareResult::DrawReuse => false,
        }
    }
}

} // verus!
