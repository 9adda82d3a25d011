//! The failure taxonomy.
//!
//! Every failure aborts the whole call with no partial state change: each
//! operation's contract says that on an `Err` the state is exactly what it
//! was before the call.

use vstd::prelude::*;

verus! {

#[derive(Clone, Copy, Debug, PartialEq, Eq, Structural)]
pub enum ContractError {
    /// The caller of an admin-scoped operation is not the configured owner.
    Unauthorized,
    /// A stake notification came from a token contract with no registry entry.
    NotWhitelisted,
    /// Unstaking a record whose custody window is already closed.
    AlreadyUnstaked,
    /// Claiming a record whose token is still in custody.
    NotUnstaked,
    /// Claiming a record that was already settled.
    RewardAlreadyClaimed,
    /// A record reference is out of range for the caller's ledger.
    WrongIndex,
    /// The collection's reward pool cannot cover the computed reward.
    NotEnoughRewardPool,
    /// A fee withdrawal asks for more than has been collected.
    NotEnoughFeeCollected,
    /// An early unstake did not attach exactly the configured unstake fee.
    NotEnoughUnstakeFee,
    /// An unroutable or malformed request, or a deposit without a matching
    /// fund on an unregistered collection.
    Unknown,
}

} // verus!
