//! The engine as a mathematical state machine: the state, when each operation is refused,
//! and the state each accepted operation leads to.
//!
//! Times are counted in seconds. A voting power is a share of `FULL_POWER`, which stands for
//! 100 percent and is the largest amount there is, and it is always rounded down. So the
//! powers of a pool with `n` backers add up to more than `FULL_POWER - n` and to at most
//! `FULL_POWER`, and a backer's share of the balance their power was set for is their pledge
//! or one unit less.

use vstd::prelude::*;
use crate::arith::mul_div;
use crate::memo::memo_pool_id;
use crate::types::{
    status_from_name, AssetsView, LaunchpadError, PoolId, PoolView, RecordView, RequestView,
    Status, UserTokenDepositRecord,
};

verus! {

/// The floor of the minimum staking amount, and its value in a new engine.
pub const DEFAULT_MIN_STAKING: u128 = 1_000_000_000_000_000_000_000;

/// What a creator gets back on rejection while the refund percentage is 0.
pub const ONE_UNIT: u128 = 1_000_000_000_000_000_000_000;

/// Seconds in a day.
pub const SECONDS_PER_DAY: u64 = 86_400;

/// How long a pool may wait for review before anyone may reject it: 15 days.
pub const INIT_TIMEOUT: u64 = 1_296_000;

/// By how much the funding window is extended when a pool goes to `WAITING`: 3 days.
pub const WAITING_GRACE: u64 = 259_200;

/// A voting power of 100 percent: the largest amount there is, so that no balance is too
/// large for a share of it to be told from the next.
pub const FULL_POWER: u128 = 340_282_366_920_938_463_463_374_607_431_768_211_455;

/// A pool with its ledger, in the order in which backers first pledged.
pub struct PoolState {
    pub meta: PoolView,
    pub records: Seq<RecordView>,
}

/// The whole engine as a mathematical value. The pool with id `k` is `pools[k - 1]`.
pub struct LaunchpadView {
    pub owner_id: Seq<char>,
    pub assets: Seq<AssetsView>,
    pub pools: Seq<PoolState>,
    pub min_staking_amount: u128,
    pub refund_percent: u8,
}

/// The sum of the amounts of a ledger.
pub open spec fn ledger_total(records: Seq<RecordView>) -> nat
    decreases records.len(),
{
    if records.len() == 0 {
        0
    } else {
        ledger_total(records.drop_last()) + records.last().record.amount as nat
    }
}

/// The sum of the voting powers of a ledger.
pub open spec fn power_total(records: Seq<RecordView>) -> nat
    decreases records.len(),
{
    if records.len() == 0 {
        0
    } else {
        power_total(records.drop_last()) + records.last().record.voting_power as nat
    }
}

/// No backer has two entries.
pub open spec fn distinct_users(records: Seq<RecordView>) -> bool {
    forall|i: int, j: int|
        0 <= i < j < records.len() ==> (#[trigger] records[i]).user_id != (
        #[trigger] records[j]).user_id
}

/// No token is registered twice.
pub open spec fn distinct_tokens(assets: Seq<AssetsView>) -> bool {
    forall|i: int, j: int|
        0 <= i < j < assets.len() ==> (#[trigger] assets[i]).token_id != (
        #[trigger] assets[j]).token_id
}

/// Whether `user` has an entry in the ledger.
pub open spec fn has_record(records: Seq<RecordView>, user: Seq<char>) -> bool {
    exists|i: int| 0 <= i < records.len() && (#[trigger] records[i]).user_id == user
}

/// Where the entry of `user` stands in the ledger, if there is one.
pub open spec fn record_index(records: Seq<RecordView>, user: Seq<char>) -> int {
    choose|i: int| 0 <= i < records.len() && (#[trigger] records[i]).user_id == user
}

/// The ledger after `user` has pledged `amount` more.
pub open spec fn credited(records: Seq<RecordView>, user: Seq<char>, amount: u128) -> Seq<
    RecordView,
> {
    if has_record(records, user) {
        let i = record_index(records, user);
        records.update(
            i,
            RecordView {
                user_id: user,
                record: UserTokenDepositRecord {
                    amount: (records[i].record.amount + amount) as u128,
                    voting_power: records[i].record.voting_power,
                },
            },
        )
    } else {
        records.push(
            RecordView { user_id: user, record: UserTokenDepositRecord { amount, voting_power: 0 } },
        )
    }
}

/// The voting power of a pledge of `amount` in a pool that closed with `total`.
pub open spec fn power_of(amount: u128, total: u128) -> nat {
    mul_div(amount as nat, FULL_POWER as nat, total as nat)
}

/// Whether every voting power of the ledger fits in 128 bits.
pub open spec fn powers_fit(records: Seq<RecordView>, total: u128) -> bool {
    forall|i: int|
        0 <= i < records.len() ==> power_of((#[trigger] records[i]).record.amount, total)
            <= u128::MAX
}

/// The ledger with every voting power set for a pool that closes with `total`.
pub open spec fn with_powers(records: Seq<RecordView>, total: u128) -> Seq<RecordView> {
    Seq::new(
        records.len(),
        |i: int|
            RecordView {
                user_id: records[i].user_id,
                record: UserTokenDepositRecord {
                    amount: records[i].record.amount,
                    voting_power: power_of(records[i].record.amount, total) as u128,
                },
            },
    )
}

/// What a backer may claim from a refunded pool: their share of the pool's balance, rounded
/// down, as long as their pledge is still in the ledger. It is never more than the balance.
pub open spec fn owed(total_balance: u128, record: UserTokenDepositRecord) -> nat {
    if record.amount == 0 {
        0
    } else {
        mul_div(total_balance as nat, record.voting_power as nat, FULL_POWER as nat)
    }
}

/// What a creator gets back when their pool is rejected.
pub open spec fn rejection_refund(staking_amount: u128, refund_percent: u8) -> nat {
    if refund_percent == 0 {
        ONE_UNIT as nat
    } else {
        mul_div(staking_amount as nat, refund_percent as nat, 100)
    }
}

/// How a funding window ends, by the balance it reached.
pub open spec fn funding_outcome(total_balance: u128, target_funding: u128, waiting_allowed: bool)
    -> Status {
    if total_balance == 0 {
        Status::FAILED
    } else if total_balance >= target_funding {
        Status::VOTING
    } else if 5 * total_balance >= 4 * target_funding && waiting_allowed {
        Status::WAITING
    } else {
        Status::REFUNDED
    }
}

/// The transitions that the guarded operations can make.
pub open spec fn status_edge(from: Status, to: Status) -> bool {
    match from {
        Status::INIT => to == Status::APPROVED || to == Status::REJECTED || to == Status::CANCELED,
        Status::APPROVED => to == Status::FUNDING,
        Status::FUNDING => to == Status::FAILED || to == Status::VOTING || to == Status::WAITING
            || to == Status::REFUNDED,
        Status::WAITING => to == Status::VOTING || to == Status::REFUNDED,
        _ => false,
    }
}

impl PoolState {
    /// The pool's balance is the sum of its ledger.
    pub open spec fn balanced(self) -> bool {
        self.meta.total_balance == ledger_total(self.records)
    }

    /// The pool in another status.
    pub open spec fn with_status(self, status: Status) -> PoolState {
        PoolState { meta: PoolView { status, ..self.meta }, ..self }
    }

    /// The pool after its stake has been handed back.
    pub open spec fn released(self, status: Status) -> PoolState {
        PoolState { meta: PoolView { status, staking_amount: 0, ..self.meta }, ..self }
    }
}

impl LaunchpadView {
    /// What holds of every engine.
    pub open spec fn wf(self) -> bool {
        &&& self.refund_percent <= 100
        &&& self.min_staking_amount >= DEFAULT_MIN_STAKING
        &&& distinct_tokens(self.assets)
        &&& forall|i: int|
            0 <= i < self.pools.len() ==> (#[trigger] self.pools[i]).meta.pool_id == i + 1
        &&& forall|i: int|
            0 <= i < self.pools.len() ==> distinct_users((#[trigger] self.pools[i]).records)
        &&& forall|i: int|
            0 <= i < self.pools.len() ==> self.supports((#[trigger] self.pools[i]).meta.token_id)
    }

    /// Whether the token is in the asset registry.
    pub open spec fn supports(self, token_id: Seq<char>) -> bool {
        exists|i: int| 0 <= i < self.assets.len() && (#[trigger] self.assets[i]).token_id == token_id
    }

    /// Whether a pool has this id.
    pub open spec fn has_pool(self, pool_id: PoolId) -> bool {
        1 <= pool_id <= self.pools.len()
    }

    /// The pool with this id.
    pub open spec fn pool(self, pool_id: PoolId) -> PoolState {
        self.pools[pool_id - 1]
    }

    /// The engine with one pool replaced.
    pub open spec fn with_pool(self, pool_id: PoolId, pool: PoolState) -> LaunchpadView {
        LaunchpadView { pools: self.pools.update(pool_id - 1, pool), ..self }
    }
}

/// A new engine: no token, no pool, nothing refunded on rejection but one unit.
pub open spec fn initial(owner_id: Seq<char>) -> LaunchpadView {
    LaunchpadView {
        owner_id,
        assets: Seq::empty(),
        pools: Seq::empty(),
        min_staking_amount: DEFAULT_MIN_STAKING,
        refund_percent: 0,
    }
}

// Admission of tokens

/// Why the admission of a token is refused, if it is: only the admin may admit one.
pub open spec fn add_token_error(s: LaunchpadView, caller: Seq<char>) -> Option<LaunchpadError> {
    if caller != s.owner_id {
        Some(LaunchpadError::Unauthorized)
    } else {
        None
    }
}

/// The engine after a token has been admitted: a token that is there already is left alone.
pub open spec fn add_token_state(s: LaunchpadView, token_id: Seq<char>) -> LaunchpadView {
    if s.supports(token_id) {
        s
    } else {
        LaunchpadView { assets: s.assets.push(AssetsView { token_id, balances: 0 }), ..s }
    }
}

/// What the admission of a token asks for: a new token's contract is asked to register the
/// engine for storage.
pub open spec fn add_token_request(s: LaunchpadView, token_id: Seq<char>) -> Option<RequestView> {
    if s.supports(token_id) {
        None
    } else {
        Some(RequestView::RegisterStorage { token_id })
    }
}

// Settings

/// Why a refund percentage is refused, if it is.
pub open spec fn set_refund_error(s: LaunchpadView, caller: Seq<char>, percent: u8) -> Option<
    LaunchpadError,
> {
    if caller != s.owner_id {
        Some(LaunchpadError::Unauthorized)
    } else if percent > 100 {
        Some(LaunchpadError::InvalidPercent)
    } else {
        None
    }
}

/// Why a minimum staking amount is refused, if it is.
pub open spec fn set_min_staking_error(s: LaunchpadView, caller: Seq<char>, amount: u128)
    -> Option<LaunchpadError> {
    if caller != s.owner_id {
        Some(LaunchpadError::Unauthorized)
    } else if amount < DEFAULT_MIN_STAKING {
        Some(LaunchpadError::MinStakingTooLow)
    } else {
        None
    }
}

// Creation

/// Why a pool is not opened, if it is not: the stake is checked first, then the token.
pub open spec fn init_pool_error(s: LaunchpadView, token_id: Seq<char>, attached_deposit: u128)
    -> Option<LaunchpadError> {
    if attached_deposit < s.min_staking_amount {
        Some(LaunchpadError::InsufficientStake)
    } else if !s.supports(token_id) {
        Some(LaunchpadError::TokenNotSupported)
    } else if s.pools.len() >= u64::MAX {
        Some(LaunchpadError::Overflow)
    } else {
        None
    }
}

/// The pool that `init_pool` opens: it gets the next id, starts in `INIT` at `now`, and has
/// neither balance nor window yet.
pub open spec fn new_pool(
    s: LaunchpadView,
    caller: Seq<char>,
    campaign_id: Seq<char>,
    token_id: Seq<char>,
    min_multiple_pledge: u128,
    target_funding: u128,
    attached_deposit: u128,
    now: u64,
) -> PoolView {
    PoolView {
        pool_id: (s.pools.len() + 1) as u64,
        campaign_id,
        creator_id: caller,
        staking_amount: attached_deposit,
        status: Status::INIT,
        token_id,
        total_balance: 0,
        target_funding,
        time_init: now,
        time_start_pledge: 0,
        time_end_pledge: 0,
        funding_duration_days: 0,
        min_multiple_pledge,
    }
}

/// The engine with a new pool, whose ledger is empty.
pub open spec fn init_pool_state(s: LaunchpadView, pool: PoolView) -> LaunchpadView {
    LaunchpadView { pools: s.pools.push(PoolState { meta: pool, records: Seq::empty() }), ..s }
}

// Review, timeout and cancellation: the three ways a stake is handed back

/// Why the admin's verdict on a pool is refused, if it is.
pub open spec fn review_error(s: LaunchpadView, caller: Seq<char>, pool_id: PoolId) -> Option<
    LaunchpadError,
> {
    if caller != s.owner_id {
        Some(LaunchpadError::Unauthorized)
    } else if !s.has_pool(pool_id) {
        Some(LaunchpadError::PoolNotFound)
    } else if s.pool(pool_id).meta.status != Status::INIT {
        Some(LaunchpadError::WrongStatus)
    } else {
        None
    }
}

/// The engine after the admin has judged a pool: the pool goes to `APPROVED`, or to
/// `REJECTED` with its stake handed back.
pub open spec fn review_state(s: LaunchpadView, pool_id: PoolId, approve: bool) -> LaunchpadView {
    if approve {
        s.with_pool(pool_id, s.pool(pool_id).with_status(Status::APPROVED))
    } else {
        s.with_pool(pool_id, s.pool(pool_id).released(Status::REJECTED))
    }
}

/// What a rejection asks for: the creator's refund, in native currency.
pub open spec fn rejection_request(s: LaunchpadView, pool_id: PoolId) -> RequestView {
    RequestView::TransferNative {
        receiver_id: s.pool(pool_id).meta.creator_id,
        amount: rejection_refund(s.pool(pool_id).meta.staking_amount, s.refund_percent) as u128,
    }
}

/// Why a pool is not rejected for having waited too long, if it is not.
pub open spec fn timeout_error(s: LaunchpadView, pool_id: PoolId, now: u64) -> Option<
    LaunchpadError,
> {
    if !s.has_pool(pool_id) {
        Some(LaunchpadError::PoolNotFound)
    } else if s.pool(pool_id).meta.status != Status::INIT {
        Some(LaunchpadError::WrongStatus)
    } else if now <= s.pool(pool_id).meta.time_init + INIT_TIMEOUT {
        Some(LaunchpadError::TimeoutNotReached)
    } else {
        None
    }
}

/// The engine after a pool has been rejected for having waited too long.
pub open spec fn timeout_state(s: LaunchpadView, pool_id: PoolId) -> LaunchpadView {
    s.with_pool(pool_id, s.pool(pool_id).released(Status::REJECTED))
}

/// Why a cancellation is refused, if it is.
pub open spec fn cancel_error(s: LaunchpadView, caller: Seq<char>, pool_id: PoolId) -> Option<
    LaunchpadError,
> {
    if !s.has_pool(pool_id) {
        Some(LaunchpadError::PoolNotFound)
    } else if caller != s.pool(pool_id).meta.creator_id {
        Some(LaunchpadError::Unauthorized)
    } else if s.pool(pool_id).meta.status != Status::INIT {
        Some(LaunchpadError::WrongStatus)
    } else {
        None
    }
}

/// The engine after a pool has been canceled and its stake handed back.
pub open spec fn cancel_state(s: LaunchpadView, pool_id: PoolId) -> LaunchpadView {
    s.with_pool(pool_id, s.pool(pool_id).released(Status::CANCELED))
}

/// What a cancellation asks for: the whole stake, in native currency, to the creator.
pub open spec fn cancel_request(s: LaunchpadView, pool_id: PoolId) -> RequestView {
    RequestView::TransferNative {
        receiver_id: s.pool(pool_id).meta.creator_id,
        amount: s.pool(pool_id).meta.staking_amount,
    }
}

// The funding window

/// When a funding window ends that starts at `time_start_pledge` and lasts
/// `funding_duration_days` days.
pub open spec fn window_end(time_start_pledge: u64, funding_duration_days: u64) -> int {
    time_start_pledge + funding_duration_days * SECONDS_PER_DAY
}

/// Why a funding window is refused, if it is.
pub open spec fn set_window_error(
    s: LaunchpadView,
    caller: Seq<char>,
    pool_id: PoolId,
    time_start_pledge: u64,
    funding_duration_days: u64,
    now: u64,
) -> Option<LaunchpadError> {
    if !s.has_pool(pool_id) {
        Some(LaunchpadError::PoolNotFound)
    } else if caller != s.pool(pool_id).meta.creator_id {
        Some(LaunchpadError::Unauthorized)
    } else if s.pool(pool_id).meta.status != Status::APPROVED {
        Some(LaunchpadError::WrongStatus)
    } else if funding_duration_days == 0 {
        Some(LaunchpadError::InvalidDuration)
    } else if time_start_pledge <= now {
        Some(LaunchpadError::StartNotInFuture)
    } else if window_end(time_start_pledge, funding_duration_days) > u64::MAX {
        Some(LaunchpadError::Overflow)
    } else {
        None
    }
}

/// The engine after a pool's funding window has been set: the pool is in `FUNDING`.
pub open spec fn set_window_state(
    s: LaunchpadView,
    pool_id: PoolId,
    time_start_pledge: u64,
    funding_duration_days: u64,
) -> LaunchpadView {
    let pool = s.pool(pool_id);
    s.with_pool(
        pool_id,
        PoolState {
            meta: PoolView {
                status: Status::FUNDING,
                time_start_pledge,
                time_end_pledge: window_end(time_start_pledge, funding_duration_days) as u64,
                funding_duration_days,
                ..pool.meta
            },
            ..pool
        },
    )
}

// Pledges

/// Whether an incoming transfer is taken as a pledge. Where it is not, the whole amount goes
/// back to the sender.
pub open spec fn pledge_accepted(
    s: LaunchpadView,
    sender_id: Seq<char>,
    token_id: Seq<char>,
    amount: u128,
    memo: Seq<char>,
    now: u64,
) -> bool {
    &&& s.supports(token_id)
    &&& memo_pool_id(memo) is Some
    &&& s.has_pool(memo_pool_id(memo)->0)
    &&& {
        let pool = s.pool(memo_pool_id(memo)->0);
        &&& pool.meta.status == Status::FUNDING
        &&& pool.meta.time_start_pledge <= now <= pool.meta.time_end_pledge
        &&& token_id == pool.meta.token_id
        &&& pool.meta.total_balance + amount <= u128::MAX
        &&& has_record(pool.records, sender_id) ==> pool.records[record_index(
            pool.records,
            sender_id,
        )].record.amount + amount <= u128::MAX
    }
}

/// The engine after a pledge has been accepted: the backer's amount and the pool's balance
/// both grow by it.
pub open spec fn pledge_state(
    s: LaunchpadView,
    sender_id: Seq<char>,
    pool_id: PoolId,
    amount: u128,
) -> LaunchpadView {
    let pool = s.pool(pool_id);
    s.with_pool(
        pool_id,
        PoolState {
            meta: PoolView {
                total_balance: (pool.meta.total_balance + amount) as u128,
                ..pool.meta
            },
            records: credited(pool.records, sender_id, amount),
        },
    )
}

// The end of funding

/// Why the funding of a pool is not closed, if it is not.
pub open spec fn close_error(
    s: LaunchpadView,
    caller: Seq<char>,
    pool_id: PoolId,
    waiting_allowed: bool,
    now: u64,
) -> Option<LaunchpadError> {
    if !s.has_pool(pool_id) {
        Some(LaunchpadError::PoolNotFound)
    } else if caller != s.owner_id {
        Some(LaunchpadError::Unauthorized)
    } else if s.pool(pool_id).meta.status != Status::FUNDING {
        Some(LaunchpadError::WrongStatus)
    } else if now <= s.pool(pool_id).meta.time_end_pledge {
        Some(LaunchpadError::FundingNotEnded)
    } else {
        let pool = s.pool(pool_id);
        let outcome = funding_outcome(
            pool.meta.total_balance,
            pool.meta.target_funding,
            waiting_allowed,
        );
        if pool.meta.total_balance > 0 && !powers_fit(pool.records, pool.meta.total_balance) {
            Some(LaunchpadError::Overflow)
        } else if outcome == Status::WAITING && pool.meta.time_end_pledge + WAITING_GRACE
            > u64::MAX {
            Some(LaunchpadError::Overflow)
        } else {
            None
        }
    }
}

/// The engine after the funding of a pool has been closed: the balance decides the status,
/// a pool that goes to `WAITING` has its window extended, and unless nothing was pledged every
/// voting power is set.
pub open spec fn close_state(s: LaunchpadView, pool_id: PoolId, waiting_allowed: bool)
    -> LaunchpadView {
    let pool = s.pool(pool_id);
    let total = pool.meta.total_balance;
    let outcome = funding_outcome(total, pool.meta.target_funding, waiting_allowed);
    s.with_pool(
        pool_id,
        PoolState {
            meta: PoolView {
                status: outcome,
                time_end_pledge: if outcome == Status::WAITING {
                    (pool.meta.time_end_pledge + WAITING_GRACE) as u64
                } else {
                    pool.meta.time_end_pledge
                },
                ..pool.meta
            },
            records: if total == 0 {
                pool.records
            } else {
                with_powers(pool.records, total)
            },
        },
    )
}

/// Why the creator's decision on a waiting pool is refused, if it is.
pub open spec fn decide_error(s: LaunchpadView, caller: Seq<char>, pool_id: PoolId) -> Option<
    LaunchpadError,
> {
    if !s.has_pool(pool_id) {
        Some(LaunchpadError::PoolNotFound)
    } else if caller != s.pool(pool_id).meta.creator_id {
        Some(LaunchpadError::Unauthorized)
    } else if s.pool(pool_id).meta.status != Status::WAITING {
        Some(LaunchpadError::WrongStatus)
    } else {
        None
    }
}

/// The engine after the creator's decision on a waiting pool.
pub open spec fn decide_state(s: LaunchpadView, pool_id: PoolId, approve: bool) -> LaunchpadView {
    s.with_pool(
        pool_id,
        s.pool(pool_id).with_status(
            if approve {
                Status::VOTING
            } else {
                Status::REFUNDED
            },
        ),
    )
}

// Settlement

/// Why a withdrawal to the creator is refused, if it is.
pub open spec fn withdraw_error(s: LaunchpadView, caller: Seq<char>, pool_id: PoolId, amount: u128)
    -> Option<LaunchpadError> {
    if caller != s.owner_id {
        Some(LaunchpadError::Unauthorized)
    } else if !s.has_pool(pool_id) {
        Some(LaunchpadError::PoolNotFound)
    } else if s.pool(pool_id).meta.status != Status::VOTING {
        Some(LaunchpadError::WrongStatus)
    } else if amount > s.pool(pool_id).meta.total_balance {
        Some(LaunchpadError::InsufficientBalance)
    } else {
        None
    }
}

/// The engine after a withdrawal to the creator: the amount is taken from the pool's balance.
pub open spec fn withdraw_state(s: LaunchpadView, pool_id: PoolId, amount: u128) -> LaunchpadView {
    let pool = s.pool(pool_id);
    s.with_pool(
        pool_id,
        PoolState {
            meta: PoolView {
                total_balance: (pool.meta.total_balance - amount) as u128,
                ..pool.meta
            },
            ..pool
        },
    )
}

/// What a withdrawal asks for: the amount, in the pool's token, to the creator.
pub open spec fn withdraw_request(s: LaunchpadView, pool_id: PoolId, amount: u128) -> RequestView {
    RequestView::TransferToken {
        token_id: s.pool(pool_id).meta.token_id,
        receiver_id: s.pool(pool_id).meta.creator_id,
        amount,
    }
}

/// What `caller` may claim from the pool right now.
pub open spec fn claimable(s: LaunchpadView, caller: Seq<char>, pool_id: PoolId) -> nat {
    let pool = s.pool(pool_id);
    owed(pool.meta.total_balance, pool.records[record_index(pool.records, caller)].record)
}

/// Why a claim is refused, if it is.
pub open spec fn claim_error(s: LaunchpadView, caller: Seq<char>, pool_id: PoolId) -> Option<
    LaunchpadError,
> {
    if !s.has_pool(pool_id) {
        Some(LaunchpadError::PoolNotFound)
    } else if s.pool(pool_id).meta.status != Status::REFUNDED {
        Some(LaunchpadError::WrongStatus)
    } else if !has_record(s.pool(pool_id).records, caller) {
        Some(LaunchpadError::RecordNotFound)
    } else if claimable(s, caller, pool_id) == 0 {
        Some(LaunchpadError::NothingToClaim)
    } else {
        None
    }
}

/// The engine after a claim: the claimant's amount is 0, and the pool's balance is as it was.
pub open spec fn claim_state(s: LaunchpadView, caller: Seq<char>, pool_id: PoolId)
    -> LaunchpadView {
    let pool = s.pool(pool_id);
    let i = record_index(pool.records, caller);
    s.with_pool(
        pool_id,
        PoolState {
            records: pool.records.update(
                i,
                RecordView {
                    user_id: pool.records[i].user_id,
                    record: UserTokenDepositRecord { amount: 0, ..pool.records[i].record },
                },
            ),
            ..pool
        },
    )
}

/// What a claim asks for: the claimant's share, in the pool's token.
pub open spec fn claim_request(s: LaunchpadView, caller: Seq<char>, pool_id: PoolId)
    -> RequestView {
    RequestView::TransferToken {
        token_id: s.pool(pool_id).meta.token_id,
        receiver_id: caller,
        amount: claimable(s, caller, pool_id) as u128,
    }
}

// The override

/// Why the admin's override is refused, if it is.
pub open spec fn force_error(s: LaunchpadView, caller: Seq<char>, pool_id: PoolId, name: Seq<char>)
    -> Option<LaunchpadError> {
    if caller != s.owner_id {
        Some(LaunchpadError::Unauthorized)
    } else if !s.has_pool(pool_id) {
        Some(LaunchpadError::PoolNotFound)
    } else if status_from_name(name) is None {
        Some(LaunchpadError::UnknownStatus)
    } else {
        None
    }
}

/// The engine after the admin's override: the pool is in the status that was named.
pub open spec fn force_state(s: LaunchpadView, pool_id: PoolId, name: Seq<char>) -> LaunchpadView {
    s.with_pool(pool_id, s.pool(pool_id).with_status(status_from_name(name)->0))
}

// The operations as values

/// An operation with what it is given.
pub enum Operation {
    AddToken { caller: Seq<char>, token_id: Seq<char> },
    ChangeAdmin { caller: Seq<char>, new_admin: Seq<char> },
    DeleteToken { caller: Seq<char>, token_id: Seq<char> },
    SetRefundPercent { caller: Seq<char>, percent: u8 },
    SetMinStaking { caller: Seq<char>, amount: u128 },
    InitPool {
        caller: Seq<char>,
        campaign_id: Seq<char>,
        token_id: Seq<char>,
        min_multiple_pledge: u128,
        target_funding: u128,
        attached_deposit: u128,
        now: u64,
    },
    Review { caller: Seq<char>, pool_id: PoolId, approve: bool },
    Timeout { pool_id: PoolId, now: u64 },
    Cancel { caller: Seq<char>, pool_id: PoolId },
    SetWindow {
        caller: Seq<char>,
        pool_id: PoolId,
        time_start_pledge: u64,
        funding_duration_days: u64,
        now: u64,
    },
    Pledge { sender_id: Seq<char>, token_id: Seq<char>, amount: u128, memo: Seq<char>, now: u64 },
    Close { caller: Seq<char>, pool_id: PoolId, waiting_allowed: bool, now: u64 },
    Decide { caller: Seq<char>, pool_id: PoolId, approve: bool },
    Withdraw { caller: Seq<char>, pool_id: PoolId, amount: u128 },
    Claim { caller: Seq<char>, pool_id: PoolId },
    Force { caller: Seq<char>, pool_id: PoolId, name: Seq<char> },
}

/// The engine after an operation: changed where the operation is accepted, the same where
/// it is refused.
pub open spec fn step(s: LaunchpadView, op: Operation) -> LaunchpadView {
    match op {
        Operation::AddToken { caller, token_id } => if add_token_error(s, caller) is None {
            add_token_state(s, token_id)
        } else {
            s
        },
        Operation::ChangeAdmin { caller, new_admin } => if caller == s.owner_id {
            LaunchpadView { owner_id: new_admin, ..s }
        } else {
            s
        },
        Operation::DeleteToken { caller, token_id } => s,
        Operation::SetRefundPercent { caller, percent } => if set_refund_error(s, caller, percent)
            is None {
            LaunchpadView { refund_percent: percent, ..s }
        } else {
            s
        },
        Operation::SetMinStaking { caller, amount } => if set_min_staking_error(s, caller, amount)
            is None {
            LaunchpadView { min_staking_amount: amount, ..s }
        } else {
            s
        },
        Operation::InitPool {
            caller,
            campaign_id,
            token_id,
            min_multiple_pledge,
            target_funding,
            attached_deposit,
            now,
        } => if init_pool_error(s, token_id, attached_deposit) is None {
            init_pool_state(
                s,
                new_pool(
                    s,
                    caller,
                    campaign_id,
                    token_id,
                    min_multiple_pledge,
                    target_funding,
                    attached_deposit,
                    now,
                ),
            )
        } else {
            s
        },
        Operation::Review { caller, pool_id, approve } => if review_error(s, caller, pool_id)
            is None {
            review_state(s, pool_id, approve)
        } else {
            s
        },
        Operation::Timeout { pool_id, now } => if timeout_error(s, pool_id, now) is None {
            timeout_state(s, pool_id)
        } else {
            s
        },
        Operation::Cancel { caller, pool_id } => if cancel_error(s, caller, pool_id) is None {
            cancel_state(s, pool_id)
        } else {
            s
        },
        Operation::SetWindow { caller, pool_id, time_start_pledge, funding_duration_days, now } => {
            if set_window_error(s, caller, pool_id, time_start_pledge, funding_duration_days, now)
                is None {
                set_window_state(s, pool_id, time_start_pledge, funding_duration_days)
            } else {
                s
            }
        },
        Operation::Pledge { sender_id, token_id, amount, memo, now } => if pledge_accepted(
            s,
            sender_id,
            token_id,
            amount,
            memo,
            now,
        ) {
            pledge_state(s, sender_id, memo_pool_id(memo)->0, amount)
        } else {
            s
        },
        Operation::Close { caller, pool_id, waiting_allowed, now } => if close_error(
            s,
            caller,
            pool_id,
            waiting_allowed,
            now,
        ) is None {
            close_state(s, pool_id, waiting_allowed)
        } else {
            s
        },
        Operation::Decide { caller, pool_id, approve } => if decide_error(s, caller, pool_id)
            is None {
            decide_state(s, pool_id, approve)
        } else {
            s
        },
        Operation::Withdraw { caller, pool_id, amount } => if withdraw_error(
            s,
            caller,
            pool_id,
            amount,
        ) is None {
            withdraw_state(s, pool_id, amount)
        } else {
            s
        },
        Operation::Claim { caller, pool_id } => if claim_error(s, caller, pool_id) is None {
            claim_state(s, caller, pool_id)
        } else {
            s
        },
        Operation::Force { caller, pool_id, name } => if force_error(s, caller, pool_id, name)
            is None {
            force_state(s, pool_id, name)
        } else {
            s
        },
    }
}

/// The engine after a row of operations, one after the other.
pub open spec fn run(s: LaunchpadView, ops: Seq<Operation>) -> LaunchpadView
    decreases ops.len(),
{
    if ops.len() == 0 {
        s
    } else {
        step(run(s, ops.drop_last()), ops.last())
    }
}

// What the engine shows

/// The engine that is made of the given parts: the pool with id `k` is `pools[k - 1]`, and
/// `ledgers[k - 1]` is its ledger.
pub open spec fn assembled(
    owner_id: Seq<char>,
    assets: Seq<AssetsView>,
    pools: Seq<PoolView>,
    ledgers: Seq<Seq<RecordView>>,
    min_staking_amount: u128,
    refund_percent: u8,
) -> LaunchpadView {
    LaunchpadView {
        owner_id,
        assets,
        pools: Seq::new(pools.len(), |i: int| PoolState { meta: pools[i], records: ledgers[i] }),
        min_staking_amount,
        refund_percent,
    }
}

/// The ledgers of every pool, in the order of their ids.
pub open spec fn ledgers(s: LaunchpadView) -> Seq<Seq<RecordView>> {
    s.pools.map_values(|p: PoolState| p.records)
}


/// Every pool, in the order of their ids.
pub open spec fn metas(s: LaunchpadView) -> Seq<PoolView> {
    s.pools.map_values(|p: PoolState| p.meta)
}

/// The test that a pool is in `status`.
pub open spec fn in_status(status: Status) -> spec_fn(PoolView) -> bool {
    |m: PoolView| m.status == status
}

/// The pools in one status, in the order of their ids.
pub open spec fn metas_in_status(s: LaunchpadView, status: Status) -> Seq<PoolView> {
    metas(s).filter(in_status(status))
}

/// An engine with the same registry and pools, and settings in their ranges, is well
/// formed too.
pub proof fn lemma_settings_wf(s: LaunchpadView, t: LaunchpadView)
    requires
        s.wf(),
        t.assets == s.assets,
        t.pools == s.pools,
        t.refund_percent <= 100,
        t.min_staking_amount >= DEFAULT_MIN_STAKING,
    ensures
        t.wf(),
{
    assert forall|i: int| 0 <= i < t.pools.len() implies t.supports(
        (#[trigger] t.pools[i]).meta.token_id,
    ) by {
        let token_id = s.pools[i].meta.token_id;
        assert(s.supports(token_id));
        let k = choose|k: int| 0 <= k < s.assets.len() && (#[trigger] s.assets[k]).token_id == token_id;
        assert(t.assets[k].token_id == token_id);
    }
}

/// Replacing a pool by one with the same id and token, and a ledger without repeats, keeps
/// the engine well formed.
pub proof fn lemma_with_pool_wf(s: LaunchpadView, pool_id: PoolId, pool: PoolState)
    requires
        s.wf(),
        s.has_pool(pool_id),
        pool.meta.pool_id == pool_id,
        pool.meta.token_id == s.pool(pool_id).meta.token_id,
        distinct_users(pool.records),
    ensures
        s.with_pool(pool_id, pool).wf(),
{
    let t = s.with_pool(pool_id, pool);
    assert forall|i: int| 0 <= i < t.pools.len() implies (#[trigger] t.pools[i]).meta.pool_id == i
        + 1 && distinct_users(t.pools[i].records) && t.supports(t.pools[i].meta.token_id) by {
        let before = s.pools[i];
        assert(before.meta.pool_id == i + 1);
        assert(distinct_users(before.records));
        assert(s.supports(before.meta.token_id));
        let k = choose|k: int|
            0 <= k < s.assets.len() && (#[trigger] s.assets[k]).token_id == before.meta.token_id;
        assert(t.assets[k].token_id == t.pools[i].meta.token_id);
    }
}

/// A token that is not yet registered can be added to the registry.
pub proof fn lemma_add_token_wf(s: LaunchpadView, token_id: Seq<char>)
    requires
        s.wf(),
    ensures
        add_token_state(s, token_id).wf(),
{
    let t = add_token_state(s, token_id);
    if !s.supports(token_id) {
        assert forall|i: int, j: int| 0 <= i < j < t.assets.len() implies (
        #[trigger] t.assets[i]).token_id != (#[trigger] t.assets[j]).token_id by {
            if j < s.assets.len() {
                assert(s.assets[i].token_id != s.assets[j].token_id);
            } else {
                assert(s.assets[i].token_id != token_id);
            }
        }
        assert forall|i: int| 0 <= i < t.pools.len() implies t.supports(
            (#[trigger] t.pools[i]).meta.token_id,
        ) by {
            let pool = s.pools[i];
            assert(s.supports(pool.meta.token_id));
            let k = choose|k: int|
                0 <= k < s.assets.len() && (#[trigger] s.assets[k]).token_id == pool.meta.token_id;
            assert(t.assets[k].token_id == pool.meta.token_id);
        }
    }
}

/// A pool with the next id, a registered token and an empty ledger can be added.
pub proof fn lemma_init_pool_wf(s: LaunchpadView, pool: PoolView)
    requires
        s.wf(),
        pool.pool_id == s.pools.len() + 1,
        s.supports(pool.token_id),
    ensures
        init_pool_state(s, pool).wf(),
{
    let t = init_pool_state(s, pool);
    assert forall|i: int| 0 <= i < t.pools.len() implies (#[trigger] t.pools[i]).meta.pool_id == i
        + 1 && distinct_users(t.pools[i].records) && t.supports(t.pools[i].meta.token_id) by {
        if i < s.pools.len() {
            let before = s.pools[i];
            assert(before.meta.pool_id == i + 1);
            assert(distinct_users(before.records));
            assert(s.supports(before.meta.token_id));
        }
        let token_id = t.pools[i].meta.token_id;
        let k = choose|k: int| 0 <= k < s.assets.len() && (#[trigger] s.assets[k]).token_id == token_id;
        assert(t.assets[k].token_id == token_id);
    }
}

/// In a ledger without repeats, the entry of a backer is where their name stands.
pub proof fn lemma_record_index(records: Seq<RecordView>, user: Seq<char>, i: int)
    requires
        distinct_users(records),
        0 <= i < records.len(),
        records[i].user_id == user,
    ensures
        has_record(records, user),
        record_index(records, user) == i,
{
    let j = record_index(records, user);
    if j < i {
        assert(records[j].user_id != records[i].user_id);
    } else if i < j {
        assert(records[i].user_id != records[j].user_id);
    }
}

/// A pledge adds no second entry for a backer.
pub proof fn lemma_credited_distinct(records: Seq<RecordView>, user: Seq<char>, amount: u128)
    requires
        distinct_users(records),
    ensures
        distinct_users(credited(records, user, amount)),
{
    let after = credited(records, user, amount);
    if has_record(records, user) {
        let k = record_index(records, user);
        assert forall|i: int, j: int| 0 <= i < j < after.len() implies (
        #[trigger] after[i]).user_id != (#[trigger] after[j]).user_id by {
            assert(records[i].user_id != records[j].user_id);
        }
    } else {
        assert forall|i: int, j: int| 0 <= i < j < after.len() implies (
        #[trigger] after[i]).user_id != (#[trigger] after[j]).user_id by {
            if j < records.len() {
                assert(records[i].user_id != records[j].user_id);
            } else {
                assert(records[i].user_id != user);
            }
        }
    }
}

/// A ledger whose entries keep their backers keeps having no repeats.
pub proof fn lemma_same_users_distinct(before: Seq<RecordView>, after: Seq<RecordView>)
    requires
        distinct_users(before),
        after.len() == before.len(),
        forall|i: int| 0 <= i < before.len() ==> (#[trigger] after[i]).user_id == before[i].user_id,
    ensures
        distinct_users(after),
{
    assert forall|i: int, j: int| 0 <= i < j < after.len() implies (#[trigger] after[i]).user_id
        != (#[trigger] after[j]).user_id by {
        assert(before[i].user_id != before[j].user_id);
    }
}

} // verus!
