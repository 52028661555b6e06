//! The failures a conversion can report.

use vstd::prelude::*;

verus! {

/// Why a beatmap could not be converted.
#[derive(Clone, Copy, Debug, PartialEq, Eq, Structural)]
pub enum ConvertError {
    /// The timeline holds no tempo-defining point; an empty timeline is the
    /// plainest case.
    EmptyTimeline,
}

impl ConvertError {
    /// A short description for the user.
    pub fn message(&self) -> (s: String)
        ensures
            s@ == "the beatmap has no tempo-defining timing point"@,
    {
        String::from_str("the beatmap has no tempo-defining timing point")
    }
}

} // verus!
