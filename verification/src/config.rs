//! The run configuration the library consumes; loading and merging it
//! from files and the environment happens outside.
use vstd::prelude::*;

verus! {

/// The run configuration: the channel name patterns to subscribe, an
/// optional output file path (standard output when absent), and the
/// drain batch size.
pub struct Config {
    pub channels: Vec<String>,
    pub output_file: Option<String>,
    pub batch_size: usize,
}

/// The number of events one drain request asks for when the
/// configuration names none.
pub fn default_batch_size() -> (n: usize)
    ensures
        n == 10,
{
    10
}

} // verus!
