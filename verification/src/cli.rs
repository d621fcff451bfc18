//! The command-line surface, as plain values: the configuration file to
//! load and an optional home-directory override.

use vstd::prelude::*;

verus! {

/// The arguments the program runs with.
pub struct Args {
    pub config: String,
    pub home: Option<String>,
}

} // verus!
