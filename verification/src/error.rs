//! The errors that the blockchain's operations report.
use vstd::prelude::*;

verus! {

/// Why an operation of the blockchain failed.
#[derive(Debug, Clone, Copy, PartialEq, Eq, Structural)]
pub enum BlockchainError {
    /// The system clock reads a time before the Unix epoch.
    ClockBeforeEpoch,
    /// Every nonce up to `i32::MAX` was tried and none met the target.
    NonceExhausted,
}

} // verus!
