use vstd::prelude::*;

use crate::genetic_algorithm::statistics::PopulationStatistics;

verus! {

/// What a finished generation leaves behind: its number, counted from zero,
/// and the summary of its fitness.
#[derive(Copy, Clone, Debug, PartialEq, Eq, Structural)]
pub struct Statistics {
    pub generation: usize,
    pub ga: PopulationStatistics,
}

} // verus!
