//! The command-line front end's state.
use crate::error::BlockchainError;
use vstd::prelude::*;

verus! {

/// The command-line interface; it holds no state of its own.
pub struct Cli {}

impl Cli {
    /// A new command-line interface.
    pub fn new() -> (r: Result<Cli, BlockchainError>)
        ensures
            r is Ok,
    {
        Ok(Cli {})
    }
}

} // verus!
