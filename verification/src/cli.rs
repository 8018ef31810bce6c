use crate::errors::LedgerError;
use vstd::prelude::*;

verus! {

/// The handle the command-line front end constructs before dispatching.
/// Argument parsing and the dispatch loop are process wiring and live with
/// the binary around the library; they call the ledger API with validated
/// strings and amounts.
pub struct Cli {}

impl Cli {
    pub fn new() -> (r: Result<Cli, LedgerError>)
        ensures
            r is Ok,
    {
        Ok(Cli {})
    }
}

} // verus!
