use vstd::prelude::*;

verus! {

/// A yield-generating investment target.
pub struct Strategy {
    pub name: String,
    pub protocol: String,
    /// Annual yield in basis points.
    pub apy: u64,
    /// Value deposited into this strategy so far.
    pub tvl: u128,
    /// Smallest deposit this strategy accepts.
    pub min_deposit: u128,
    pub is_active: bool,
    /// Time of creation or of the last rate change.
    pub last_update: u64,
}

impl Strategy {
    /// An exact copy of this strategy.
    pub fn snapshot(&self) -> (r: Strategy)
        ensures
            r == *self,
    {
        Strategy {
            name: self.name.clone(),
            protocol: self.protocol.clone(),
            apy: self.apy,
            tvl: self.tvl,
            min_deposit: self.min_deposit,
            is_active: self.is_active,
            last_update: self.last_update,
        }
    }
}

/// One deposit of one account into one strategy.
#[derive(Clone, Copy, Debug, PartialEq, Eq, Structural)]
pub struct UserPosition {
    pub amount: u128,
    pub strategy_id: u64,
    /// Rewards paid out against this position so far.
    pub rewards_claimed: u128,
    /// Time of the deposit, the baseline of every accrual.
    pub deposit_timestamp: u64,
}

/// An instruction for the host to send `amount` to `receiver`.
pub struct Transfer {
    pub receiver: String,
    pub amount: u128,
}

/// Why an operation was refused; a refused operation changes nothing.
#[derive(Clone, Copy, Debug, PartialEq, Eq, Structural)]
pub enum OptimizerError {
    AlreadyInitialized,
    Unauthorized,
    StrategyNotFound,
    StrategyInactive,
    DepositTooSmall,
    NoPositions,
    InvalidIndex,
    /// A balance, a reward or the clock went out of its integer range.
    Overflow,
}

} // verus!
