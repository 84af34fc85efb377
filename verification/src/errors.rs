//! Caller-visible outcomes of rejected deposit and withdrawal requests.

use vstd::prelude::*;

verus! {

/// Every way a deposit or withdrawal request can be rejected.
///
/// All variants are recoverable, terminal-for-this-request outcomes; a
/// rejected request leaves the pool state unchanged.
#[derive(Clone, Copy, Debug, PartialEq, Eq, Structural)]
pub enum StakeError {
    /// The requested lock period is not one of the supported day counts.
    InvalidLockPeriod,
    /// The deposited amount is below the minimum fee threshold.
    AmountTooSmall,
    /// The deposited amount exceeds the balance currently available.
    InsufficientPoolBalance,
    /// The caller has never deposited, so no stake book exists.
    NoStakesFound,
    /// The stake index is out of bounds for the caller's current stakes.
    InvalidStakeIndex,
    /// The stake is still locked; `remaining_seconds` is the time left.
    StakeLocked { remaining_seconds: u64 },
    /// The stake's amount does not exceed the fee, so nothing would be paid out.
    FeeExceedsAmount,
}

} // verus!
