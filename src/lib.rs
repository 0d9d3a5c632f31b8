//! Bookkeeping core of a yield-farming ledger: a registry of strategies, a
//! per-account ledger of deposit positions, time-based reward accrual and the
//! total value locked.

pub mod optimizer;
pub mod reward;
pub mod types;

pub use optimizer::{YieldOptimizer, MIN_DEPOSIT_AMOUNT};
pub use reward::calculate_rewards;
pub use types::{OptimizerError, Strategy, Transfer, UserPosition};
