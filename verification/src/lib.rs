//! A crowdfunding escrow engine: creators stake collateral to open a pool, backers pledge a
//! token during the funding window, and the outcome decides where the funds go.
//!
//! [`engine`] holds the engine, [`model`] the state machine it is specified by, and [`laws`]
//! what is proved of that machine. Beside the engine stand the books of two smaller
//! contracts: a [`treasury`] of token deposits, and the [`sponsor`] balances and
//! [`signature`] checks of course certificates.

pub mod arith;
pub mod engine;
pub mod laws;
pub mod memo;
pub mod model;
pub mod signature;
pub mod sponsor;
pub mod storage;
pub mod treasury;
pub mod types;

pub use crate::engine::Launchpad;
pub use crate::model::{
    DEFAULT_MIN_STAKING, FULL_POWER, INIT_TIMEOUT, ONE_UNIT, SECONDS_PER_DAY, WAITING_GRACE,
};
pub use crate::storage::LaunchpadStorageKey;
pub use crate::types::{
    AccountId, Assets, LaunchpadError, PoolId, PoolMetadata, Request, Status, UserRecordDetail,
    UserTokenDepositRecord,
};
