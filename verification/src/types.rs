//! The records the engine stores and hands out, each with its mathematical view.

use vstd::prelude::*;

verus! {

/// Identity of a pool: pools are numbered from 1 in the order they are created.
pub type PoolId = u64;

/// Identity of an account: the creator of a pool, a backer, the admin, or a token contract.
pub type AccountId = String;

/// Lifecycle state of a pool.
#[allow(non_camel_case_types)]
#[derive(Clone, Copy, Debug, PartialEq, Eq, Structural)]
pub enum Status {
    INIT,
    APPROVED,
    FUNDING,
    REJECTED,
    CANCELED,
    FAILED,
    WAITING,
    REFUNDED,
    VOTING,
    CLOSED,
    SUCCESSFUL,
}

/// The status that a text names.
pub open spec fn status_from_name(name: Seq<char>) -> Option<Status> {
    if name == "INIT"@ {
        Some(Status::INIT)
    } else if name == "APPROVED"@ {
        Some(Status::APPROVED)
    } else if name == "FUNDING"@ {
        Some(Status::FUNDING)
    } else if name == "REJECTED"@ {
        Some(Status::REJECTED)
    } else if name == "CANCELED"@ {
        Some(Status::CANCELED)
    } else if name == "FAILED"@ {
        Some(Status::FAILED)
    } else if name == "WAITING"@ {
        Some(Status::WAITING)
    } else if name == "REFUNDED"@ {
        Some(Status::REFUNDED)
    } else if name == "VOTING"@ {
        Some(Status::VOTING)
    } else if name == "CLOSED"@ {
        Some(Status::CLOSED)
    } else if name == "SUCCESSFUL"@ {
        Some(Status::SUCCESSFUL)
    } else {
        None
    }
}

impl Status {
    /// Reads a status from its name, written in capitals.
    pub fn from_name(name: &str) -> (r: Option<Status>)
        ensures
            r == status_from_name(name@),
    {
        let text = name.to_owned();
        if text == "INIT".to_owned() {
            Some(Status::INIT)
        } else if text == "APPROVED".to_owned() {
            Some(Status::APPROVED)
        } else if text == "FUNDING".to_owned() {
            Some(Status::FUNDING)
        } else if text == "REJECTED".to_owned() {
            Some(Status::REJECTED)
        } else if text == "CANCELED".to_owned() {
            Some(Status::CANCELED)
        } else if text == "FAILED".to_owned() {
            Some(Status::FAILED)
        } else if text == "WAITING".to_owned() {
            Some(Status::WAITING)
        } else if text == "REFUNDED".to_owned() {
            Some(Status::REFUNDED)
        } else if text == "VOTING".to_owned() {
            Some(Status::VOTING)
        } else if text == "CLOSED".to_owned() {
            Some(Status::CLOSED)
        } else if text == "SUCCESSFUL".to_owned() {
            Some(Status::SUCCESSFUL)
        } else {
            None
        }
    }
}


/// Why an operation was refused. A refused operation leaves the engine untouched.
#[derive(Clone, Copy, Debug, PartialEq, Eq, Structural)]
pub enum LaunchpadError {
    /// The caller is not the account the operation is reserved for.
    Unauthorized,
    /// No pool has the given id.
    PoolNotFound,
    /// The caller has no deposit record in the pool.
    RecordNotFound,
    /// The pool is not in the status the operation starts from.
    WrongStatus,
    /// The attached stake is below the minimum staking amount.
    InsufficientStake,
    /// The token is not in the asset registry.
    TokenNotSupported,
    /// The refund percentage is above 100.
    InvalidPercent,
    /// The minimum staking amount would fall below its floor.
    MinStakingTooLow,
    /// The funding duration is zero days.
    InvalidDuration,
    /// The funding window would not start in the future.
    StartNotInFuture,
    /// The auto-reject timeout has not elapsed yet.
    TimeoutNotReached,
    /// The funding window is still open.
    FundingNotEnded,
    /// The withdrawal exceeds the pool's balance.
    InsufficientBalance,
    /// Nothing is owed to the caller.
    NothingToClaim,
    /// The text names no status.
    UnknownStatus,
    /// A time or an amount would leave the range of its integer type.
    Overflow,
}

/// One campaign: its identity, its stake, its funding goal, window and balance.
#[derive(Debug, PartialEq, Eq)]
pub struct PoolMetadata {
    pub pool_id: PoolId,
    pub campaign_id: String,
    pub creator_id: AccountId,
    pub staking_amount: u128,
    pub status: Status,
    pub token_id: AccountId,
    pub total_balance: u128,
    pub target_funding: u128,
    pub time_init: u64,
    pub time_start_pledge: u64,
    pub time_end_pledge: u64,
    pub funding_duration_days: u64,
    pub min_multiple_pledge: u128,
}

/// A pool as a mathematical value.
pub struct PoolView {
    pub pool_id: PoolId,
    pub campaign_id: Seq<char>,
    pub creator_id: Seq<char>,
    pub staking_amount: u128,
    pub status: Status,
    pub token_id: Seq<char>,
    pub total_balance: u128,
    pub target_funding: u128,
    pub time_init: u64,
    pub time_start_pledge: u64,
    pub time_end_pledge: u64,
    pub funding_duration_days: u64,
    pub min_multiple_pledge: u128,
}

impl View for PoolMetadata {
    type V = PoolView;

    open spec fn view(&self) -> PoolView {
        PoolView {
            pool_id: self.pool_id,
            campaign_id: self.campaign_id@,
            creator_id: self.creator_id@,
            staking_amount: self.staking_amount,
            status: self.status,
            token_id: self.token_id@,
            total_balance: self.total_balance,
            target_funding: self.target_funding,
            time_init: self.time_init,
            time_start_pledge: self.time_start_pledge,
            time_end_pledge: self.time_end_pledge,
            funding_duration_days: self.funding_duration_days,
            min_multiple_pledge: self.min_multiple_pledge,
        }
    }
}

impl Clone for PoolMetadata {
    fn clone(&self) -> (r: Self)
        ensures
            r == *self,
    {
        PoolMetadata {
            pool_id: self.pool_id,
            campaign_id: self.campaign_id.clone(),
            creator_id: self.creator_id.clone(),
            staking_amount: self.staking_amount,
            status: self.status,
            token_id: self.token_id.clone(),
            total_balance: self.total_balance,
            target_funding: self.target_funding,
            time_init: self.time_init,
            time_start_pledge: self.time_start_pledge,
            time_end_pledge: self.time_end_pledge,
            funding_duration_days: self.funding_duration_days,
            min_multiple_pledge: self.min_multiple_pledge,
        }
    }
}

/// What one backer has in one pool.
///
/// `voting_power` is the backer's share of the pool's balance when funding was closed, as
/// a share of `FULL_POWER`, which stands for 100 percent, rounded down; it is 0 until then.
#[derive(Clone, Copy, Debug, PartialEq, Eq, Structural)]
pub struct UserTokenDepositRecord {
    pub amount: u128,
    pub voting_power: u128,
}

/// A deposit record together with the backer it belongs to.
#[derive(Debug, PartialEq, Eq)]
pub struct UserRecordDetail {
    pub user_id: AccountId,
    pub record: UserTokenDepositRecord,
}

/// A ledger entry as a mathematical value.
pub struct RecordView {
    pub user_id: Seq<char>,
    pub record: UserTokenDepositRecord,
}

impl View for UserRecordDetail {
    type V = RecordView;

    open spec fn view(&self) -> RecordView {
        RecordView { user_id: self.user_id@, record: self.record }
    }
}

impl Clone for UserRecordDetail {
    fn clone(&self) -> (r: Self)
        ensures
            r == *self,
    {
        UserRecordDetail { user_id: self.user_id.clone(), record: self.record }
    }
}

/// A token the engine may hold. `balances` is kept for bookkeeping and stays 0.
#[derive(Debug, PartialEq, Eq)]
pub struct Assets {
    pub token_id: AccountId,
    pub balances: u128,
}

/// A registry entry as a mathematical value.
pub struct AssetsView {
    pub token_id: Seq<char>,
    pub balances: u128,
}

impl View for Assets {
    type V = AssetsView;

    open spec fn view(&self) -> AssetsView {
        AssetsView { token_id: self.token_id@, balances: self.balances }
    }
}

impl Clone for Assets {
    fn clone(&self) -> (r: Self)
        ensures
            r == *self,
    {
        Assets { token_id: self.token_id.clone(), balances: self.balances }
    }
}

/// What the engine asks the outside world to do after an operation has been accepted.
/// The engine has already updated its own state when it hands a request out.
#[derive(Debug, PartialEq, Eq)]
pub enum Request {
    /// Register the engine's own account for storage with the token contract.
    RegisterStorage { token_id: AccountId },
    /// Pay `amount` of the native currency to `receiver_id`.
    TransferNative { receiver_id: AccountId, amount: u128 },
    /// Pay `amount` of the token `token_id` to `receiver_id`.
    TransferToken { token_id: AccountId, receiver_id: AccountId, amount: u128 },
}

/// A request as a mathematical value.
pub enum RequestView {
    RegisterStorage { token_id: Seq<char> },
    TransferNative { receiver_id: Seq<char>, amount: u128 },
    TransferToken { token_id: Seq<char>, receiver_id: Seq<char>, amount: u128 },
}

impl View for Request {
    type V = RequestView;

    open spec fn view(&self) -> RequestView {
        match *self {
            Request::RegisterStorage { token_id } => RequestView::RegisterStorage {
                token_id: token_id@,
            },
            Request::TransferNative { receiver_id, amount } => RequestView::TransferNative {
                receiver_id: receiver_id@,
                amount,
            },
            Request::TransferToken { token_id, receiver_id, amount } => RequestView::TransferToken {
                token_id: token_id@,
                receiver_id: receiver_id@,
                amount,
            },
        }
    }
}

/// The pools of a list as mathematical values.
pub open spec fn pool_views(pools: Seq<PoolMetadata>) -> Seq<PoolView> {
    pools.map_values(|p: PoolMetadata| p@)
}

/// The tokens of a list as mathematical values.
pub open spec fn asset_views(assets: Seq<Assets>) -> Seq<AssetsView> {
    assets.map_values(|a: Assets| a@)
}

/// The entries of a list as mathematical values.
pub open spec fn record_views(records: Seq<UserRecordDetail>) -> Seq<RecordView> {
    records.map_values(|r: UserRecordDetail| r@)
}

/// The ledgers of a list as mathematical values.
pub open spec fn ledger_views(ledgers: Seq<Vec<UserRecordDetail>>) -> Seq<Seq<RecordView>> {
    ledgers.map_values(|l: Vec<UserRecordDetail>| record_views(l@))
}

} // verus!
