//! Process configuration: where the transaction stream comes from. The
//! surrounding program obtains the location (for instance from its
//! arguments) and hands it over as a plain value.

use vstd::prelude::*;

verus! {

/// Where to read the transaction stream from.
pub struct Config {
    pub transaction_file: String,
}

impl Config {
    pub fn new(transaction_file: String) -> (config: Config)
        ensures
            config.transaction_file == transaction_file,
    {
        Config { transaction_file }
    }
}

} // verus!
