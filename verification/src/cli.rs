use vstd::prelude::*;

verus! {

/// Command line arguments: the configuration file to read.
#[derive(Debug, Clone)]
pub struct CliArgs {
    pub config: String,
}

} // verus!
