//! The engine itself: the state it keeps and the operations that change it.
//!
//! Every operation names its caller and, where time matters, the current time: the engine
//! reads nothing from its surroundings. An operation that is refused changes nothing. An
//! operation that moves funds hands out a [`Request`] once its own state is updated.

use vstd::prelude::*;
use crate::arith::{lemma_mul_div_within, mul_div_floor, percent_of, reaches_four_fifths};
use crate::memo::{memo_pool_id, parse_pool_id};
use crate::model::{
    add_token_error, add_token_request, add_token_state, cancel_error, cancel_request,
    cancel_state, claim_error, claim_request, claim_state, close_error, close_state, credited,
    decide_error, decide_state, distinct_users, force_error, force_state, funding_outcome,
    has_record, init_pool_error, init_pool_state, initial, lemma_add_token_wf,
    lemma_credited_distinct, lemma_init_pool_wf, lemma_record_index, lemma_same_users_distinct,
    lemma_settings_wf, lemma_with_pool_wf, assembled, distinct_tokens, in_status, ledgers, metas,
    metas_in_status, new_pool, owed, pledge_accepted, pledge_state, power_of, powers_fit,
    rejection_refund, rejection_request, review_error, review_state, set_min_staking_error,
    set_refund_error, set_window_error, set_window_state, step, timeout_error, timeout_state,
    with_powers, withdraw_error, withdraw_request, withdraw_state, LaunchpadView, Operation,
    PoolState, DEFAULT_MIN_STAKING, FULL_POWER, INIT_TIMEOUT, ONE_UNIT, SECONDS_PER_DAY,
    WAITING_GRACE,
};
use crate::types::{
    asset_views, ledger_views, pool_views, record_views, status_from_name, AccountId, Assets,
    AssetsView, LaunchpadError, PoolId, PoolMetadata, RecordView, Request, Status,
    UserRecordDetail, UserTokenDepositRecord,
};

verus! {

/// A pool and its ledger.
struct PoolSlot {
    meta: PoolMetadata,
    records: Vec<UserRecordDetail>,
}

impl PoolSlot {
    spec fn view(&self) -> PoolState {
        PoolState { meta: self.meta@, records: record_views(self.records@) }
    }
}

/// The pools with their ledgers as mathematical values.
spec fn pools_view(pools: Seq<PoolSlot>) -> Seq<PoolState> {
    pools.map_values(|p: PoolSlot| p.view())
}

/// Whether no token is registered twice.
pub(crate) fn tokens_are_distinct(assets: &Vec<Assets>) -> (r: bool)
    ensures
        r == distinct_tokens(asset_views(assets@)),
{
    let mut j: usize = 0;
    while j < assets.len()
        invariant
            j <= assets@.len(),
            forall|a: int, b: int|
                0 <= a < b < j ==> (#[trigger] asset_views(assets@)[a]).token_id != (
                #[trigger] asset_views(assets@)[b]).token_id,
        decreases assets@.len() - j,
    {
        let mut i: usize = 0;
        while i < j
            invariant
                i <= j < assets@.len(),
                forall|a: int|
                    0 <= a < i ==> (#[trigger] asset_views(assets@)[a]).token_id != asset_views(
                        assets@,
                    )[j as int].token_id,
            decreases j - i,
        {
            if assets[i].token_id == assets[j].token_id {
                assert(asset_views(assets@)[i as int].token_id == asset_views(
                    assets@,
                )[j as int].token_id);
                return false;
            }
            i = i + 1;
        }
        j = j + 1;
    }
    true
}

/// Whether no backer has two entries.
fn users_are_distinct(records: &Vec<UserRecordDetail>) -> (r: bool)
    ensures
        r == distinct_users(record_views(records@)),
{
    let mut j: usize = 0;
    while j < records.len()
        invariant
            j <= records@.len(),
            forall|a: int, b: int|
                0 <= a < b < j ==> (#[trigger] record_views(records@)[a]).user_id != (
                #[trigger] record_views(records@)[b]).user_id,
        decreases records@.len() - j,
    {
        let mut i: usize = 0;
        while i < j
            invariant
                i <= j < records@.len(),
                forall|a: int|
                    0 <= a < i ==> (#[trigger] record_views(records@)[a]).user_id != record_views(
                        records@,
                    )[j as int].user_id,
            decreases j - i,
        {
            if records[i].user_id == records[j].user_id {
                assert(record_views(records@)[i as int].user_id == record_views(
                    records@,
                )[j as int].user_id);
                return false;
            }
            i = i + 1;
        }
        j = j + 1;
    }
    true
}

/// Whether the token is among the assets.
pub(crate) fn holds_token(assets: &Vec<Assets>, token_id: &AccountId) -> (r: bool)
    ensures
        r == exists|i: int|
            0 <= i < assets@.len() && (#[trigger] asset_views(assets@)[i]).token_id == token_id@,
{
    let mut i: usize = 0;
    while i < assets.len()
        invariant
            i <= assets@.len(),
            forall|k: int| 0 <= k < i ==> (#[trigger] asset_views(assets@)[k]).token_id != token_id@,
        decreases assets@.len() - i,
    {
        if assets[i].token_id == *token_id {
            assert(asset_views(assets@)[i as int].token_id == token_id@);
            return true;
        }
        i = i + 1;
    }
    false
}

/// Where the entry of `user` stands in a ledger.
fn find_record(records: &Vec<UserRecordDetail>, user: &AccountId) -> (r: Option<usize>)
    ensures
        match r {
            Some(j) => j < records@.len() && records@[j as int].user_id@ == user@,
            None => !has_record(record_views(records@), user@),
        },
{
    let mut j: usize = 0;
    while j < records.len()
        invariant
            j <= records@.len(),
            forall|k: int| 0 <= k < j ==> (#[trigger] record_views(records@)[k]).user_id != user@,
        decreases records@.len() - j,
    {
        if records[j].user_id == *user {
            return Some(j);
        }
        j = j + 1;
    }
    None
}

/// The ledger with every voting power set for a pool that closes with `total`, or `None`
/// where one of them does not fit in 128 bits.
fn powered(records: &Vec<UserRecordDetail>, total: u128) -> (r: Option<Vec<UserRecordDetail>>)
    requires
        total > 0,
    ensures
        match r {
            Some(v) => powers_fit(record_views(records@), total) && record_views(v@)
                == with_powers(record_views(records@), total),
            None => !powers_fit(record_views(records@), total),
        },
{
    let mut out: Vec<UserRecordDetail> = Vec::new();
    let mut j: usize = 0;
    while j < records.len()
        invariant
            total > 0,
            j <= records@.len(),
            out@.len() == j,
            forall|k: int|
                0 <= k < j ==> power_of((#[trigger] record_views(records@)[k]).record.amount, total)
                    <= u128::MAX,
            forall|k: int|
                0 <= k < j ==> (#[trigger] out@[k])@ == with_powers(record_views(records@), total)[k],
        decreases records@.len() - j,
    {
        let amount: u128 = records[j].record.amount;
        match mul_div_floor(amount, FULL_POWER, total) {
            None => {
                assert(power_of(record_views(records@)[j as int].record.amount, total) > u128::MAX);
                return None;
            },
            Some(power) => {
                out.push(
                    UserRecordDetail {
                        user_id: records[j].user_id.clone(),
                        record: UserTokenDepositRecord { amount, voting_power: power },
                    },
                );
            },
        }
        j = j + 1;
    }
    assert(record_views(out@) =~= with_powers(record_views(records@), total));
    Some(out)
}

/// How a funding window ends, by the balance it reached.
fn outcome_of(total_balance: u128, target_funding: u128, waiting_allowed: bool) -> (r: Status)
    ensures
        r == funding_outcome(total_balance, target_funding, waiting_allowed),
{
    if total_balance == 0 {
        Status::FAILED
    } else if total_balance >= target_funding {
        Status::VOTING
    } else if reaches_four_fifths(total_balance, target_funding) && waiting_allowed {
        Status::WAITING
    } else {
        Status::REFUNDED
    }
}

/// The view of the pools after the pool kept at `i` has been replaced.
proof fn lemma_slot_changed(before: Seq<PoolSlot>, after: Seq<PoolSlot>, i: int)
    requires
        0 <= i < before.len(),
        after.len() == before.len(),
        forall|k: int| 0 <= k < before.len() && k != i ==> after[k] == before[k],
    ensures
        pools_view(after) == pools_view(before).update(i, after[i].view()),
{
    assert(pools_view(after) =~= pools_view(before).update(i, after[i].view()));
}

/// The escrow engine: the admin, the asset registry, the pools with their ledgers, and the
/// two settings that rule stakes.
pub struct Launchpad {
    owner_id: AccountId,
    list_assets: Vec<Assets>,
    pools: Vec<PoolSlot>,
    min_staking_amount: u128,
    refund_percent: u8,
}

impl View for Launchpad {
    type V = LaunchpadView;

    closed spec fn view(&self) -> LaunchpadView {
        LaunchpadView {
            owner_id: self.owner_id@,
            assets: asset_views(self.list_assets@),
            pools: pools_view(self.pools@),
            min_staking_amount: self.min_staking_amount,
            refund_percent: self.refund_percent,
        }
    }
}

impl Launchpad {
    #[verifier::type_invariant]
    spec fn inv(self) -> bool {
        self@.wf()
    }

    /// A new engine owned by `owner_id`.
    pub fn new(owner_id: AccountId) -> (r: Launchpad)
        ensures
            r@ == initial(owner_id@),
            r@.wf(),
    {
        let r = Launchpad {
            owner_id,
            list_assets: Vec::new(),
            pools: Vec::new(),
            min_staking_amount: DEFAULT_MIN_STAKING,
            refund_percent: 0,
        };
        assert(r@.assets =~= Seq::empty());
        assert(r@.pools =~= Seq::empty());
        r
    }

    /// The admin. Every engine is well formed, which this function lets its callers know.
    pub fn owner_id(&self) -> (r: &AccountId)
        ensures
            r@ == self@.owner_id,
            self@.wf(),
    {
        proof {
            use_type_invariant(self);
        }
        &self.owner_id
    }

    /// The share of a stake, in percent, that a rejected creator gets back.
    pub fn get_refund_reject_pool(&self) -> (r: u8)
        ensures
            r == self@.refund_percent,
            r <= 100,
    {
        proof {
            use_type_invariant(self);
        }
        self.refund_percent
    }

    /// The least stake that opens a pool.
    pub fn get_min_staking_amount(&self) -> (r: u128)
        ensures
            r == self@.min_staking_amount,
            r >= DEFAULT_MIN_STAKING,
    {
        proof {
            use_type_invariant(self);
        }
        self.min_staking_amount
    }

    /// Whether the token is in the asset registry.
    pub fn is_token_supported(&self, token_id: &AccountId) -> (r: bool)
        ensures
            r == self@.supports(token_id@),
    {
        let mut i: usize = 0;
        while i < self.list_assets.len()
            invariant
                i <= self.list_assets.len(),
                forall|k: int| 0 <= k < i ==> (#[trigger] self@.assets[k]).token_id != token_id@,
            decreases self.list_assets.len() - i,
        {
            if self.list_assets[i].token_id == *token_id {
                assert(self@.assets[i as int].token_id == token_id@);
                return true;
            }
            i = i + 1;
        }
        false
    }

    /// Hands the engine to another admin. Only the admin may do so.
    pub fn change_admin(&mut self, caller: &AccountId, new_admin: AccountId) -> (r: Result<
        (),
        LaunchpadError,
    >)
        ensures
            final(self)@.wf(),
            final(self)@ == step(
                old(self)@,
                (Operation::ChangeAdmin { caller: caller@, new_admin: new_admin@ }),
            ),
            match r {
                Ok(()) => caller@ == old(self)@.owner_id && final(self)@ == (LaunchpadView {
                    owner_id: new_admin@,
                    ..old(self)@
                }),
                Err(e) => caller@ != old(self)@.owner_id && e == LaunchpadError::Unauthorized
                    && final(self)@ == old(self)@,
            },
    {
        proof {
            use_type_invariant(&*self);
        }
        if *caller != self.owner_id {
            return Err(LaunchpadError::Unauthorized);
        }
        proof {
            lemma_settings_wf(self@, LaunchpadView { owner_id: new_admin@, ..self@ });
        }
        self.owner_id = new_admin;
        Ok(())
    }

    /// Sets the share of a stake, in percent, that a rejected creator gets back. Only the
    /// admin may do so, and the share is at most 100.
    pub fn set_refund_reject_pool(&mut self, caller: &AccountId, percent: u8) -> (r: Result<
        (),
        LaunchpadError,
    >)
        ensures
            final(self)@.wf(),
            final(self)@ == step(
                old(self)@,
                (Operation::SetRefundPercent { caller: caller@, percent }),
            ),
            match r {
                Ok(()) => set_refund_error(old(self)@, caller@, percent) is None && final(self)@
                    == (LaunchpadView { refund_percent: percent, ..old(self)@ }),
                Err(e) => set_refund_error(old(self)@, caller@, percent) == Some(e)
                    && final(self)@ == old(self)@,
            },
    {
        proof {
            use_type_invariant(&*self);
        }
        if *caller != self.owner_id {
            return Err(LaunchpadError::Unauthorized);
        }
        if percent > 100 {
            return Err(LaunchpadError::InvalidPercent);
        }
        proof {
            lemma_settings_wf(self@, LaunchpadView { refund_percent: percent, ..self@ });
        }
        self.refund_percent = percent;
        Ok(())
    }

    /// Sets the least stake that opens a pool. Only the admin may do so, and the amount is
    /// at least `DEFAULT_MIN_STAKING`.
    pub fn set_min_staking_amount(&mut self, caller: &AccountId, amount: u128) -> (r: Result<
        (),
        LaunchpadError,
    >)
        ensures
            final(self)@.wf(),
            final(self)@ == step(
                old(self)@,
                (Operation::SetMinStaking { caller: caller@, amount }),
            ),
            match r {
                Ok(()) => set_min_staking_error(old(self)@, caller@, amount) is None
                    && final(self)@ == (LaunchpadView { min_staking_amount: amount, ..old(self)@ }),
                Err(e) => set_min_staking_error(old(self)@, caller@, amount) == Some(e)
                    && final(self)@ == old(self)@,
            },
    {
        proof {
            use_type_invariant(&*self);
        }
        if *caller != self.owner_id {
            return Err(LaunchpadError::Unauthorized);
        }
        if amount < DEFAULT_MIN_STAKING {
            return Err(LaunchpadError::MinStakingTooLow);
        }
        proof {
            lemma_settings_wf(self@, LaunchpadView { min_staking_amount: amount, ..self@ });
        }
        self.min_staking_amount = amount;
        Ok(())
    }
    /// Where the pool with this id is kept.
    fn slot_of(&self, pool_id: PoolId) -> (r: Option<usize>)
        ensures
            r is Some == self@.has_pool(pool_id),
            r is Some ==> r->0 == pool_id - 1 && r->0 < self.pools@.len(),
    {
        if pool_id >= 1 && pool_id - 1 < self.pools.len() as u64 {
            Some((pool_id - 1) as usize)
        } else {
            None
        }
    }

    /// The admin's verdict on a new pool: approval, or rejection with the creator's refund.
    pub fn admin_set_status_pool_pre_funding(
        &mut self,
        caller: &AccountId,
        pool_id: PoolId,
        approve: bool,
    ) -> (r: Result<(PoolMetadata, Option<Request>), LaunchpadError>)
        ensures
            final(self)@.wf(),
            final(self)@ == step(
                old(self)@,
                (Operation::Review { caller: caller@, pool_id, approve }),
            ),
            match r {
                Ok((pool, request)) => {
                    &&& review_error(old(self)@, caller@, pool_id) is None
                    &&& final(self)@ == review_state(old(self)@, pool_id, approve)
                    &&& pool@ == final(self)@.pool(pool_id).meta
                    &&& approve ==> request is None
                    &&& !approve ==> request is Some && request->0@ == rejection_request(
                        old(self)@,
                        pool_id,
                    )
                },
                Err(e) => review_error(old(self)@, caller@, pool_id) == Some(e) && final(self)@
                    == old(self)@,
            },
    {
        proof {
            use_type_invariant(&*self);
        }
        if *caller != self.owner_id {
            return Err(LaunchpadError::Unauthorized);
        }
        let i = match self.slot_of(pool_id) {
            Some(i) => i,
            None => {
                return Err(LaunchpadError::PoolNotFound);
            },
        };
        if self.pools[i].meta.status != Status::INIT {
            return Err(LaunchpadError::WrongStatus);
        }
        if approve {
            let mut pools = self.take_pools();
            pools[i].meta.status = Status::APPROVED;
            proof {
                lemma_slot_changed(old(self).pools@, pools@, i as int);
                assert(pools_view(pools@) =~= review_state(old(self)@, pool_id, approve).pools);
                lemma_with_pool_wf(old(self)@, pool_id, pools@[i as int].view());
            }
            self.pools = pools;
            Ok((self.pools[i].meta.clone(), None))
        } else {
            let amount = self.rejection_refund_of(i);
            let request = Request::TransferNative {
                receiver_id: self.pools[i].meta.creator_id.clone(),
                amount,
            };
            let mut pools = self.take_pools();
            pools[i].meta.status = Status::REJECTED;
            pools[i].meta.staking_amount = 0;
            proof {
                lemma_slot_changed(old(self).pools@, pools@, i as int);
                assert(pools_view(pools@) =~= review_state(old(self)@, pool_id, approve).pools);
                lemma_with_pool_wf(old(self)@, pool_id, pools@[i as int].view());
            }
            self.pools = pools;
            Ok((self.pools[i].meta.clone(), Some(request)))
        }
    }

    /// Moves the pools out, to be changed and put back.
    fn take_pools(&mut self) -> (pools: Vec<PoolSlot>)
        ensures
            pools@ == old(self).pools@,
            final(self).pools@.len() == 0,
            final(self).owner_id == old(self).owner_id,
            final(self).list_assets == old(self).list_assets,
            final(self).min_staking_amount == old(self).min_staking_amount,
            final(self).refund_percent == old(self).refund_percent,
    {
        proof {
            use_type_invariant(&*self);
        }
        let mut pools: Vec<PoolSlot> = Vec::new();
        core::mem::swap(&mut self.pools, &mut pools);
        pools
    }

    /// What the creator of the pool kept at `i` gets back on rejection.
    fn rejection_refund_of(&self, i: usize) -> (r: u128)
        requires
            i < self@.pools.len(),
        ensures
            r == rejection_refund(self@.pools[i as int].meta.staking_amount, self@.refund_percent),
    {
        proof {
            use_type_invariant(self);
        }
        if self.refund_percent == 0 {
            ONE_UNIT
        } else {
            percent_of(self.pools[i].meta.staking_amount, self.refund_percent)
        }
    }

    /// Admits a token to the asset registry. Only the admin may do so. A token that is
    /// already there is left alone; for a new one the engine asks to be registered for storage
    /// with the token contract.
    #[verifier::rlimit(50)]
    pub fn add_token(&mut self, caller: &AccountId, token_id: AccountId) -> (r: Result<
        Option<Request>,
        LaunchpadError,
    >)
        ensures
            final(self)@.wf(),
            final(self)@ == step(
                old(self)@,
                (Operation::AddToken { caller: caller@, token_id: token_id@ }),
            ),
            match r {
                Ok(request) => {
                    &&& add_token_error(old(self)@, caller@) is None
                    &&& final(self)@ == add_token_state(old(self)@, token_id@)
                    &&& match request {
                        Some(q) => add_token_request(old(self)@, token_id@) == Some(q@),
                        None => add_token_request(old(self)@, token_id@) is None,
                    }
                },
                Err(e) => add_token_error(old(self)@, caller@) == Some(e)
                    && final(self)@ == old(self)@,
            },
    {
        proof {
            use_type_invariant(&*self);
        }
        if *caller != self.owner_id {
            return Err(LaunchpadError::Unauthorized);
        }
        if self.is_token_supported(&token_id) {
            return Ok(None);
        }
        let request = Request::RegisterStorage { token_id: token_id.clone() };
        let asset = Assets { token_id, balances: 0 };
        proof {
            assert(asset_views(self.list_assets@.push(asset)) =~= self@.assets.push(asset@));
            lemma_add_token_wf(self@, asset.token_id@);
        }
        let pools = self.take_pools();
        let mut assets: Vec<Assets> = Vec::new();
        core::mem::swap(&mut self.list_assets, &mut assets);
        assets.push(asset);
        self.list_assets = assets;
        self.pools = pools;
        Ok(Some(request))
    }

    /// Withdraws a token's admission. Only the admin may ask for it, and nothing changes:
    /// pools that hold the token keep it, and the registry keeps its entry.
    pub fn delete_token_by_token_id(&mut self, caller: &AccountId, token_id: &AccountId) -> (r:
        Result<(), LaunchpadError>)
        ensures
            final(self)@.wf(),
            final(self)@ == step(
                old(self)@,
                (Operation::DeleteToken { caller: caller@, token_id: token_id@ }),
            ),
            final(self)@ == old(self)@,
            match r {
                Ok(()) => caller@ == old(self)@.owner_id,
                Err(e) => caller@ != old(self)@.owner_id && e == LaunchpadError::Unauthorized,
            },
    {
        proof {
            use_type_invariant(&*self);
        }
        if *caller != self.owner_id {
            return Err(LaunchpadError::Unauthorized);
        }
        Ok(())
    }

    /// Opens a pool for `caller`, who stakes `attached_deposit`. The stake must reach the
    /// minimum staking amount and the token must be in the asset registry. The pool gets the
    /// next id and starts in `INIT` at time `now`.
    pub fn init_pool(
        &mut self,
        caller: AccountId,
        campaign_id: String,
        token_id: AccountId,
        min_multiple_pledge: u128,
        target_funding: u128,
        attached_deposit: u128,
        now: u64,
    ) -> (r: Result<PoolMetadata, LaunchpadError>)
        ensures
            final(self)@.wf(),
            final(self)@ == step(
                old(self)@,
                (Operation::InitPool {
                    caller: caller@,
                    campaign_id: campaign_id@,
                    token_id: token_id@,
                    min_multiple_pledge,
                    target_funding,
                    attached_deposit,
                    now,
                }),
            ),
            match r {
                Ok(pool) => {
                    &&& init_pool_error(old(self)@, token_id@, attached_deposit) is None
                    &&& pool@ == new_pool(
                        old(self)@,
                        caller@,
                        campaign_id@,
                        token_id@,
                        min_multiple_pledge,
                        target_funding,
                        attached_deposit,
                        now,
                    )
                    &&& final(self)@ == init_pool_state(old(self)@, pool@)
                },
                Err(e) => init_pool_error(old(self)@, token_id@, attached_deposit) == Some(e)
                    && final(self)@ == old(self)@,
            },
    {
        proof {
            use_type_invariant(&*self);
        }
        if attached_deposit < self.min_staking_amount {
            return Err(LaunchpadError::InsufficientStake);
        }
        if !self.is_token_supported(&token_id) {
            return Err(LaunchpadError::TokenNotSupported);
        }
        let count: u64 = self.pools.len() as u64;
        if count == u64::MAX {
            return Err(LaunchpadError::Overflow);
        }
        let meta = PoolMetadata {
            pool_id: count + 1,
            campaign_id,
            creator_id: caller,
            staking_amount: attached_deposit,
            status: Status::INIT,
            token_id,
            total_balance: 0,
            target_funding,
            time_init: now,
            time_start_pledge: 0,
            time_end_pledge: 0,
            funding_duration_days: 0,
            min_multiple_pledge,
        };
        let pool = meta.clone();
        let slot = PoolSlot { meta, records: Vec::new() };
        proof {
            assert(slot.view().records =~= Seq::empty());
            assert(pools_view(self.pools@.push(slot)) =~= self@.pools.push(slot.view()));
            lemma_init_pool_wf(self@, slot.meta@);
        }
        let mut pools = self.take_pools();
        pools.push(slot);
        self.pools = pools;
        Ok(pool)
    }

    /// Rejects a pool that has waited for review for more than 15 days. Anyone may ask for
    /// it. The creator's refund is the same as on rejection by the admin.
    pub fn admin_check_pool_status_after_init_15days(&mut self, pool_id: PoolId, now: u64) -> (r:
        Result<Request, LaunchpadError>)
        ensures
            final(self)@.wf(),
            final(self)@ == step(
                old(self)@,
                (Operation::Timeout { pool_id, now }),
            ),
            match r {
                Ok(request) => {
                    &&& timeout_error(old(self)@, pool_id, now) is None
                    &&& final(self)@ == timeout_state(old(self)@, pool_id)
                    &&& request@ == rejection_request(old(self)@, pool_id)
                },
                Err(e) => timeout_error(old(self)@, pool_id, now) == Some(e) && final(self)@
                    == old(self)@,
            },
    {
        proof {
            use_type_invariant(&*self);
        }
        let i = match self.slot_of(pool_id) {
            Some(i) => i,
            None => {
                return Err(LaunchpadError::PoolNotFound);
            },
        };
        if self.pools[i].meta.status != Status::INIT {
            return Err(LaunchpadError::WrongStatus);
        }
        let since: u64 = self.pools[i].meta.time_init;
        if now <= since || now - since <= INIT_TIMEOUT {
            return Err(LaunchpadError::TimeoutNotReached);
        }
        let amount = self.rejection_refund_of(i);
        let request = Request::TransferNative {
            receiver_id: self.pools[i].meta.creator_id.clone(),
            amount,
        };
        let mut pools = self.take_pools();
        pools[i].meta.status = Status::REJECTED;
        pools[i].meta.staking_amount = 0;
        proof {
            lemma_slot_changed(old(self).pools@, pools@, i as int);
            assert(pools_view(pools@) =~= timeout_state(old(self)@, pool_id).pools);
            lemma_with_pool_wf(old(self)@, pool_id, pools@[i as int].view());
        }
        self.pools = pools;
        Ok(request)
    }

    /// Cancels a pool that is still in `INIT`. Only its creator may do so, and gets the
    /// whole stake back.
    pub fn cancel_pool(&mut self, caller: &AccountId, pool_id: PoolId) -> (r: Result<
        (PoolMetadata, Request),
        LaunchpadError,
    >)
        ensures
            final(self)@.wf(),
            final(self)@ == step(
                old(self)@,
                (Operation::Cancel { caller: caller@, pool_id }),
            ),
            match r {
                Ok((pool, request)) => {
                    &&& cancel_error(old(self)@, caller@, pool_id) is None
                    &&& final(self)@ == cancel_state(old(self)@, pool_id)
                    &&& pool@ == final(self)@.pool(pool_id).meta
                    &&& request@ == cancel_request(old(self)@, pool_id)
                },
                Err(e) => cancel_error(old(self)@, caller@, pool_id) == Some(e) && final(self)@
                    == old(self)@,
            },
    {
        proof {
            use_type_invariant(&*self);
        }
        let i = match self.slot_of(pool_id) {
            Some(i) => i,
            None => {
                return Err(LaunchpadError::PoolNotFound);
            },
        };
        if *caller != self.pools[i].meta.creator_id {
            return Err(LaunchpadError::Unauthorized);
        }
        if self.pools[i].meta.status != Status::INIT {
            return Err(LaunchpadError::WrongStatus);
        }
        let request = Request::TransferNative {
            receiver_id: self.pools[i].meta.creator_id.clone(),
            amount: self.pools[i].meta.staking_amount,
        };
        let mut pools = self.take_pools();
        pools[i].meta.status = Status::CANCELED;
        pools[i].meta.staking_amount = 0;
        proof {
            lemma_slot_changed(old(self).pools@, pools@, i as int);
            assert(pools_view(pools@) =~= cancel_state(old(self)@, pool_id).pools);
            lemma_with_pool_wf(old(self)@, pool_id, pools@[i as int].view());
        }
        self.pools = pools;
        Ok((self.pools[i].meta.clone(), request))
    }

    /// Opens the funding window of an approved pool. Only its creator may do so. The window
    /// starts at `time_start_pledge`, which lies in the future, and lasts
    /// `funding_duration_days` days, at least one.
    pub fn set_funding_pool_by_creator(
        &mut self,
        caller: &AccountId,
        pool_id: PoolId,
        time_start_pledge: u64,
        funding_duration_days: u64,
        now: u64,
    ) -> (r: Result<(), LaunchpadError>)
        ensures
            final(self)@.wf(),
            final(self)@ == step(
                old(self)@,
                (Operation::SetWindow {
                    caller: caller@,
                    pool_id,
                    time_start_pledge,
                    funding_duration_days,
                    now,
                }),
            ),
            match r {
                Ok(()) => {
                    &&& set_window_error(
                        old(self)@,
                        caller@,
                        pool_id,
                        time_start_pledge,
                        funding_duration_days,
                        now,
                    ) is None
                    &&& final(self)@ == set_window_state(
                        old(self)@,
                        pool_id,
                        time_start_pledge,
                        funding_duration_days,
                    )
                },
                Err(e) => set_window_error(
                    old(self)@,
                    caller@,
                    pool_id,
                    time_start_pledge,
                    funding_duration_days,
                    now,
                ) == Some(e) && final(self)@ == old(self)@,
            },
    {
        proof {
            use_type_invariant(&*self);
        }
        let i = match self.slot_of(pool_id) {
            Some(i) => i,
            None => {
                return Err(LaunchpadError::PoolNotFound);
            },
        };
        if *caller != self.pools[i].meta.creator_id {
            return Err(LaunchpadError::Unauthorized);
        }
        if self.pools[i].meta.status != Status::APPROVED {
            return Err(LaunchpadError::WrongStatus);
        }
        if funding_duration_days == 0 {
            return Err(LaunchpadError::InvalidDuration);
        }
        if time_start_pledge <= now {
            return Err(LaunchpadError::StartNotInFuture);
        }
        let end: Option<u64> = match funding_duration_days.checked_mul(SECONDS_PER_DAY) {
            Some(length) => time_start_pledge.checked_add(length),
            None => None,
        };
        let time_end_pledge: u64 = match end {
            Some(t) => t,
            None => {
                return Err(LaunchpadError::Overflow);
            },
        };
        let mut pools = self.take_pools();
        pools[i].meta.time_start_pledge = time_start_pledge;
        pools[i].meta.time_end_pledge = time_end_pledge;
        pools[i].meta.funding_duration_days = funding_duration_days;
        pools[i].meta.status = Status::FUNDING;
        proof {
            lemma_slot_changed(old(self).pools@, pools@, i as int);
            assert(pools_view(pools@) =~= set_window_state(
                old(self)@,
                pool_id,
                time_start_pledge,
                funding_duration_days,
            ).pools);
            lemma_with_pool_wf(old(self)@, pool_id, pools@[i as int].view());
        }
        self.pools = pools;
        Ok(())
    }

    /// The creator's decision on a pool in `WAITING`: go on to `VOTING`, or refund the
    /// backers.
    pub fn creator_accept_voting(&mut self, caller: &AccountId, pool_id: PoolId, approve: bool)
        -> (r: Result<PoolMetadata, LaunchpadError>)
        ensures
            final(self)@.wf(),
            final(self)@ == step(
                old(self)@,
                (Operation::Decide { caller: caller@, pool_id, approve }),
            ),
            match r {
                Ok(pool) => {
                    &&& decide_error(old(self)@, caller@, pool_id) is None
                    &&& final(self)@ == decide_state(old(self)@, pool_id, approve)
                    &&& pool@ == final(self)@.pool(pool_id).meta
                },
                Err(e) => decide_error(old(self)@, caller@, pool_id) == Some(e) && final(self)@
                    == old(self)@,
            },
    {
        proof {
            use_type_invariant(&*self);
        }
        let i = match self.slot_of(pool_id) {
            Some(i) => i,
            None => {
                return Err(LaunchpadError::PoolNotFound);
            },
        };
        if *caller != self.pools[i].meta.creator_id {
            return Err(LaunchpadError::Unauthorized);
        }
        if self.pools[i].meta.status != Status::WAITING {
            return Err(LaunchpadError::WrongStatus);
        }
        let mut pools = self.take_pools();
        pools[i].meta.status = if approve {
            Status::VOTING
        } else {
            Status::REFUNDED
        };
        proof {
            lemma_slot_changed(old(self).pools@, pools@, i as int);
            assert(pools_view(pools@) =~= decide_state(old(self)@, pool_id, approve).pools);
            lemma_with_pool_wf(old(self)@, pool_id, pools@[i as int].view());
        }
        self.pools = pools;
        Ok(self.pools[i].meta.clone())
    }

    /// Pays `amount` out of a pool in `VOTING` to its creator. Only the admin may do so, and
    /// the amount is at most the pool's balance, which it is taken from.
    pub fn withdraw_to_creator(&mut self, caller: &AccountId, pool_id: PoolId, amount: u128) -> (r:
        Result<Request, LaunchpadError>)
        ensures
            final(self)@.wf(),
            final(self)@ == step(
                old(self)@,
                (Operation::Withdraw { caller: caller@, pool_id, amount }),
            ),
            match r {
                Ok(request) => {
                    &&& withdraw_error(old(self)@, caller@, pool_id, amount) is None
                    &&& final(self)@ == withdraw_state(old(self)@, pool_id, amount)
                    &&& request@ == withdraw_request(old(self)@, pool_id, amount)
                },
                Err(e) => withdraw_error(old(self)@, caller@, pool_id, amount) == Some(e)
                    && final(self)@ == old(self)@,
            },
    {
        proof {
            use_type_invariant(&*self);
        }
        if *caller != self.owner_id {
            return Err(LaunchpadError::Unauthorized);
        }
        let i = match self.slot_of(pool_id) {
            Some(i) => i,
            None => {
                return Err(LaunchpadError::PoolNotFound);
            },
        };
        if self.pools[i].meta.status != Status::VOTING {
            return Err(LaunchpadError::WrongStatus);
        }
        if amount > self.pools[i].meta.total_balance {
            return Err(LaunchpadError::InsufficientBalance);
        }
        let request = Request::TransferToken {
            token_id: self.pools[i].meta.token_id.clone(),
            receiver_id: self.pools[i].meta.creator_id.clone(),
            amount,
        };
        let mut pools = self.take_pools();
        pools[i].meta.total_balance = pools[i].meta.total_balance - amount;
        proof {
            lemma_slot_changed(old(self).pools@, pools@, i as int);
            assert(pools_view(pools@) =~= withdraw_state(old(self)@, pool_id, amount).pools);
            lemma_with_pool_wf(old(self)@, pool_id, pools@[i as int].view());
        }
        self.pools = pools;
        Ok(request)
    }

    /// Puts a pool into the status that `status` names, whatever status it is in. Only the
    /// admin may do so. This is the one operation that is not bound to the lifecycle.
    pub fn update_pool_status(&mut self, caller: &AccountId, pool_id: PoolId, status: &str) -> (r:
        Result<(), LaunchpadError>)
        ensures
            final(self)@.wf(),
            final(self)@ == step(
                old(self)@,
                (Operation::Force { caller: caller@, pool_id, name: status@ }),
            ),
            match r {
                Ok(()) => {
                    &&& force_error(old(self)@, caller@, pool_id, status@) is None
                    &&& final(self)@ == force_state(old(self)@, pool_id, status@)
                },
                Err(e) => force_error(old(self)@, caller@, pool_id, status@) == Some(e)
                    && final(self)@ == old(self)@,
            },
    {
        proof {
            use_type_invariant(&*self);
        }
        if *caller != self.owner_id {
            return Err(LaunchpadError::Unauthorized);
        }
        let i = match self.slot_of(pool_id) {
            Some(i) => i,
            None => {
                return Err(LaunchpadError::PoolNotFound);
            },
        };
        let new_status = match Status::from_name(status) {
            Some(st) => st,
            None => {
                return Err(LaunchpadError::UnknownStatus);
            },
        };
        let mut pools = self.take_pools();
        pools[i].meta.status = new_status;
        proof {
            lemma_slot_changed(old(self).pools@, pools@, i as int);
            assert(pools_view(pools@) =~= force_state(old(self)@, pool_id, status@).pools);
            lemma_with_pool_wf(old(self)@, pool_id, pools@[i as int].view());
        }
        self.pools = pools;
        Ok(())
    }

    /// Takes an incoming transfer of `amount` of the token `token_id` from `sender_id` as a
    /// pledge to the pool that `msg` names, and returns what goes back to the sender: nothing
    /// where the pledge is accepted, the whole amount where it is not, in which case nothing
    /// changes. A pledge is accepted while the pool is in `FUNDING`, its window is open at
    /// `now`, the token is the pool's, and neither the backer's amount nor the pool's balance
    /// would leave the range of amounts.
    #[verifier::rlimit(50)]
    pub fn ft_on_transfer(
        &mut self,
        sender_id: AccountId,
        token_id: &AccountId,
        amount: u128,
        msg: &str,
        now: u64,
    ) -> (r: u128)
        ensures
            final(self)@.wf(),
            final(self)@ == step(
                old(self)@,
                (Operation::Pledge {
                    sender_id: sender_id@,
                    token_id: token_id@,
                    amount,
                    memo: msg@,
                    now,
                }),
            ),
            pledge_accepted(old(self)@, sender_id@, token_id@, amount, msg@, now) ==> r == 0
                && final(self)@ == pledge_state(
                old(self)@,
                sender_id@,
                memo_pool_id(msg@)->0,
                amount,
            ),
            !pledge_accepted(old(self)@, sender_id@, token_id@, amount, msg@, now) ==> r == amount
                && final(self)@ == old(self)@,
    {
        proof {
            use_type_invariant(&*self);
        }
        if !self.is_token_supported(token_id) {
            return amount;
        }
        let pool_id: PoolId = match parse_pool_id(msg) {
            Some(id) => id,
            None => {
                return amount;
            },
        };
        let i = match self.slot_of(pool_id) {
            Some(i) => i,
            None => {
                return amount;
            },
        };
        if self.pools[i].meta.status != Status::FUNDING {
            return amount;
        }
        if now < self.pools[i].meta.time_start_pledge || now > self.pools[i].meta.time_end_pledge {
            return amount;
        }
        if *token_id != self.pools[i].meta.token_id {
            return amount;
        }
        let new_total: u128 = match self.pools[i].meta.total_balance.checked_add(amount) {
            Some(t) => t,
            None => {
                return amount;
            },
        };
        let ghost before = old(self)@.pool(pool_id).records;
        assert(before == record_views(self.pools@[i as int].records@));
        assert(distinct_users(before));
        match find_record(&self.pools[i].records, &sender_id) {
            Some(j) => {
                proof {
                    lemma_record_index(before, sender_id@, j as int);
                }
                let new_amount: u128 = match self.pools[i].records[j].record.amount.checked_add(
                    amount,
                ) {
                    Some(a) => a,
                    None => {
                        return amount;
                    },
                };
                let mut pools = self.take_pools();
                pools[i].records[j].record.amount = new_amount;
                pools[i].meta.total_balance = new_total;
                proof {
                    assert(record_views(pools@[i as int].records@) =~= credited(
                        before,
                        sender_id@,
                        amount,
                    ));
                    lemma_credited_distinct(before, sender_id@, amount);
                    lemma_slot_changed(old(self).pools@, pools@, i as int);
                    assert(pools_view(pools@) =~= pledge_state(
                        old(self)@,
                        sender_id@,
                        pool_id,
                        amount,
                    ).pools);
                    lemma_with_pool_wf(old(self)@, pool_id, pools@[i as int].view());
                }
                self.pools = pools;
            },
            None => {
                let entry = UserRecordDetail {
                    user_id: sender_id,
                    record: UserTokenDepositRecord { amount, voting_power: 0 },
                };
                let mut pools = self.take_pools();
                pools[i].records.push(entry);
                pools[i].meta.total_balance = new_total;
                proof {
                    assert(record_views(pools@[i as int].records@) =~= credited(
                        before,
                        sender_id@,
                        amount,
                    ));
                    lemma_credited_distinct(before, sender_id@, amount);
                    lemma_slot_changed(old(self).pools@, pools@, i as int);
                    assert(pools_view(pools@) =~= pledge_state(
                        old(self)@,
                        sender_id@,
                        pool_id,
                        amount,
                    ).pools);
                    lemma_with_pool_wf(old(self)@, pool_id, pools@[i as int].view());
                }
                self.pools = pools;
            },
        }
        0
    }

    /// Closes the funding of a pool whose window has ended. Only the admin may do so. The
    /// balance decides the new status: `FAILED` where nothing was pledged, `VOTING` where the
    /// target is reached, `WAITING` where four fifths of it are reached and
    /// `is_waiting_funding` allows it, with the window extended by 3 days, and `REFUNDED`
    /// otherwise. Unless nothing was pledged, every backer's voting power is set to their
    /// share of the balance.
    ///
    /// The call is refused with `Overflow`, and changes nothing, where a backer's amount
    /// exceeds the balance, so that their share has no place in 128 bits, or where the
    /// extended window would end beyond the range of times. The first happens only in a pool
    /// whose balance is no longer the sum of its ledger, which takes an override of its
    /// status.
    #[verifier::rlimit(50)]
    pub fn check_funding_result(
        &mut self,
        caller: &AccountId,
        pool_id: PoolId,
        is_waiting_funding: bool,
        now: u64,
    ) -> (r: Result<PoolMetadata, LaunchpadError>)
        ensures
            final(self)@.wf(),
            final(self)@ == step(
                old(self)@,
                (Operation::Close {
                    caller: caller@,
                    pool_id,
                    waiting_allowed: is_waiting_funding,
                    now,
                }),
            ),
            match r {
                Ok(pool) => {
                    &&& close_error(old(self)@, caller@, pool_id, is_waiting_funding, now) is None
                    &&& final(self)@ == close_state(old(self)@, pool_id, is_waiting_funding)
                    &&& pool@ == final(self)@.pool(pool_id).meta
                },
                Err(e) => close_error(old(self)@, caller@, pool_id, is_waiting_funding, now)
                    == Some(e) && final(self)@ == old(self)@,
            },
    {
        proof {
            use_type_invariant(&*self);
        }
        let i = match self.slot_of(pool_id) {
            Some(i) => i,
            None => {
                return Err(LaunchpadError::PoolNotFound);
            },
        };
        if *caller != self.owner_id {
            return Err(LaunchpadError::Unauthorized);
        }
        if self.pools[i].meta.status != Status::FUNDING {
            return Err(LaunchpadError::WrongStatus);
        }
        if now <= self.pools[i].meta.time_end_pledge {
            return Err(LaunchpadError::FundingNotEnded);
        }
        let total: u128 = self.pools[i].meta.total_balance;
        let ghost before = old(self)@.pool(pool_id).records;
        assert(before == record_views(self.pools@[i as int].records@));
        let new_records: Option<Vec<UserRecordDetail>> = if total == 0 {
            None
        } else {
            match powered(&self.pools[i].records, total) {
                Some(v) => Some(v),
                None => {
                    return Err(LaunchpadError::Overflow);
                },
            }
        };
        let outcome = outcome_of(total, self.pools[i].meta.target_funding, is_waiting_funding);
        let end: u64 = if outcome == Status::WAITING {
            match self.pools[i].meta.time_end_pledge.checked_add(WAITING_GRACE) {
                Some(t) => t,
                None => {
                    return Err(LaunchpadError::Overflow);
                },
            }
        } else {
            self.pools[i].meta.time_end_pledge
        };
        let mut pools = self.take_pools();
        pools[i].meta.status = outcome;
        pools[i].meta.time_end_pledge = end;
        match new_records {
            Some(v) => {
                pools[i].records = v;
            },
            None => {},
        }
        proof {
            if total > 0 {
                lemma_same_users_distinct(before, with_powers(before, total));
            }
            lemma_slot_changed(old(self).pools@, pools@, i as int);
            assert(pools_view(pools@) =~= close_state(old(self)@, pool_id, is_waiting_funding).pools);
            lemma_with_pool_wf(old(self)@, pool_id, pools@[i as int].view());
        }
        self.pools = pools;
        Ok(self.pools[i].meta.clone())
    }

    /// Pays a backer their share of a refunded pool: the pool's balance times their voting
    /// power, rounded down. Of the balance that the power was set for, that is the backer's
    /// pledge or one unit less. The backer's amount is set to 0, after which nothing is owed
    /// to them; the pool's balance stays as it is, so that every backer's share is taken of
    /// the same balance.
    #[verifier::rlimit(50)]
    pub fn claim_refund(&mut self, caller: &AccountId, pool_id: PoolId) -> (r: Result<
        Request,
        LaunchpadError,
    >)
        ensures
            final(self)@.wf(),
            final(self)@ == step(
                old(self)@,
                (Operation::Claim { caller: caller@, pool_id }),
            ),
            match r {
                Ok(request) => {
                    &&& claim_error(old(self)@, caller@, pool_id) is None
                    &&& final(self)@ == claim_state(old(self)@, caller@, pool_id)
                    &&& request@ == claim_request(old(self)@, caller@, pool_id)
                },
                Err(e) => claim_error(old(self)@, caller@, pool_id) == Some(e) && final(self)@
                    == old(self)@,
            },
    {
        proof {
            use_type_invariant(&*self);
        }
        let i = match self.slot_of(pool_id) {
            Some(i) => i,
            None => {
                return Err(LaunchpadError::PoolNotFound);
            },
        };
        if self.pools[i].meta.status != Status::REFUNDED {
            return Err(LaunchpadError::WrongStatus);
        }
        let ghost before = old(self)@.pool(pool_id).records;
        assert(before == record_views(self.pools@[i as int].records@));
        assert(distinct_users(before));
        let j = match find_record(&self.pools[i].records, caller) {
            Some(j) => j,
            None => {
                return Err(LaunchpadError::RecordNotFound);
            },
        };
        proof {
            lemma_record_index(before, caller@, j as int);
        }
        let record: UserTokenDepositRecord = self.pools[i].records[j].record;
        let amount: u128 = if record.amount == 0 {
            0
        } else {
            proof {
                lemma_mul_div_within(
                    self.pools@[i as int].meta.total_balance as nat,
                    record.voting_power as nat,
                    FULL_POWER as nat,
                );
            }
            mul_div_floor(self.pools[i].meta.total_balance, record.voting_power, FULL_POWER).unwrap()
        };
        if amount == 0 {
            return Err(LaunchpadError::NothingToClaim);
        }
        let request = Request::TransferToken {
            token_id: self.pools[i].meta.token_id.clone(),
            receiver_id: caller.clone(),
            amount,
        };
        let mut pools = self.take_pools();
        pools[i].records[j].record.amount = 0;
        proof {
            let after = record_views(pools@[i as int].records@);
            assert(after =~= claim_state(old(self)@, caller@, pool_id).pool(pool_id).records);
            lemma_same_users_distinct(before, after);
            lemma_slot_changed(old(self).pools@, pools@, i as int);
            assert(pools_view(pools@) =~= claim_state(old(self)@, caller@, pool_id).pools);
            lemma_with_pool_wf(old(self)@, pool_id, pools@[i as int].view());
        }
        self.pools = pools;
        Ok(request)
    }

    /// The pool with this id.
    pub fn get_detail_pool(&self, pool_id: PoolId) -> (r: Option<PoolMetadata>)
        ensures
            match r {
                Some(pool) => self@.has_pool(pool_id) && pool@ == self@.pool(pool_id).meta,
                None => !self@.has_pool(pool_id),
            },
    {
        match self.slot_of(pool_id) {
            Some(i) => Some(self.pools[i].meta.clone()),
            None => None,
        }
    }

    /// The balance of the pool with this id.
    pub fn get_balance_creator(&self, pool_id: PoolId) -> (r: Option<u128>)
        ensures
            match r {
                Some(balance) => self@.has_pool(pool_id) && balance == self@.pool(
                    pool_id,
                ).meta.total_balance,
                None => !self@.has_pool(pool_id),
            },
    {
        match self.slot_of(pool_id) {
            Some(i) => Some(self.pools[i].meta.total_balance),
            None => None,
        }
    }

    /// Every pool in the order of their ids, or `None` where there is no pool.
    pub fn get_all_pool(&self) -> (r: Option<Vec<PoolMetadata>>)
        ensures
            match r {
                Some(pools) => pools@.len() > 0 && pool_views(pools@) == metas(self@),
                None => self@.pools.len() == 0,
            },
    {
        if self.pools.len() == 0 {
            return None;
        }
        let mut out: Vec<PoolMetadata> = Vec::new();
        let mut i: usize = 0;
        while i < self.pools.len()
            invariant
                i <= self.pools@.len(),
                out@.len() == i,
                forall|k: int| 0 <= k < i ==> (#[trigger] out@[k])@ == metas(self@)[k],
            decreases self.pools@.len() - i,
        {
            out.push(self.pools[i].meta.clone());
            i = i + 1;
        }
        assert(pool_views(out@) =~= metas(self@));
        Some(out)
    }

    /// The pools in `status`, in the order of their ids.
    fn pools_in_status(&self, status: Status) -> (r: Vec<PoolMetadata>)
        ensures
            pool_views(r@) == metas_in_status(self@, status),
    {
        let mut out: Vec<PoolMetadata> = Vec::new();
        let mut i: usize = 0;
        assert(metas(self@).take(0) =~= Seq::empty());
        assert(pool_views(out@) =~= metas(self@).take(0).filter(in_status(status))) by {
            reveal(Seq::filter);
        }
        while i < self.pools.len()
            invariant
                i <= self.pools@.len(),
                self.pools@.len() == metas(self@).len(),
                pool_views(out@) == metas(self@).take(i as int).filter(in_status(status)),
            decreases self.pools@.len() - i,
        {
            let ghost seen = metas(self@).take(i as int);
            assert(metas(self@).take(i + 1) =~= seen.push(metas(self@)[i as int]));
            proof {
                seen.lemma_filter_push(metas(self@)[i as int], in_status(status));
            }
            if self.pools[i].meta.status == status {
                let pool = self.pools[i].meta.clone();
                assert(pool_views(out@.push(pool)) =~= pool_views(out@).push(pool@));
                out.push(pool);
            }
            i = i + 1;
        }
        assert(metas(self@).take(i as int) =~= metas(self@));
        out
    }

    /// The pools in the status that `status_str` names, in the order of their ids, or `None`
    /// where there is none or the text names no status.
    pub fn get_pools_by_status(&self, status_str: &str) -> (r: Option<Vec<PoolMetadata>>)
        ensures
            match r {
                Some(pools) => {
                    &&& status_from_name(status_str@) is Some
                    &&& pools@.len() > 0
                    &&& pool_views(pools@) == metas_in_status(
                        self@,
                        status_from_name(status_str@)->0,
                    )
                },
                None => status_from_name(status_str@) is None || metas_in_status(
                    self@,
                    status_from_name(status_str@)->0,
                ).len() == 0,
            },
    {
        match Status::from_name(status_str) {
            Some(status) => self.listed(status),
            None => None,
        }
    }

    /// The pools in `status`, or `None` where there is none.
    fn listed(&self, status: Status) -> (r: Option<Vec<PoolMetadata>>)
        ensures
            match r {
                Some(pools) => pools@.len() > 0 && pool_views(pools@) == metas_in_status(
                    self@,
                    status,
                ),
                None => metas_in_status(self@, status).len() == 0,
            },
    {
        let found = self.pools_in_status(status);
        assert(pool_views(found@).len() == found@.len());
        if found.len() == 0 {
            None
        } else {
            Some(found)
        }
    }

    /// The pools that are open for pledges, or `None` where there is none.
    pub fn get_all_funding_pools(&self) -> (r: Option<Vec<PoolMetadata>>)
        ensures
            match r {
                Some(pools) => pools@.len() > 0 && pool_views(pools@) == metas_in_status(
                    self@,
                    Status::FUNDING,
                ),
                None => metas_in_status(self@, Status::FUNDING).len() == 0,
            },
    {
        self.listed(Status::FUNDING)
    }

    /// The pools that wait for review, or `None` where there is none.
    pub fn get_all_init_pools(&self) -> (r: Option<Vec<PoolMetadata>>)
        ensures
            match r {
                Some(pools) => pools@.len() > 0 && pool_views(pools@) == metas_in_status(
                    self@,
                    Status::INIT,
                ),
                None => metas_in_status(self@, Status::INIT).len() == 0,
            },
    {
        self.listed(Status::INIT)
    }

    /// The closed pools, or `None` where there is none.
    pub fn get_all_closed_pools(&self) -> (r: Option<Vec<PoolMetadata>>)
        ensures
            match r {
                Some(pools) => pools@.len() > 0 && pool_views(pools@) == metas_in_status(
                    self@,
                    Status::CLOSED,
                ),
                None => metas_in_status(self@, Status::CLOSED).len() == 0,
            },
    {
        self.listed(Status::CLOSED)
    }

    /// The pools that wait for their creator's decision, or `None` where there is none.
    pub fn get_all_waiting_pools(&self) -> (r: Option<Vec<PoolMetadata>>)
        ensures
            match r {
                Some(pools) => pools@.len() > 0 && pool_views(pools@) == metas_in_status(
                    self@,
                    Status::WAITING,
                ),
                None => metas_in_status(self@, Status::WAITING).len() == 0,
            },
    {
        self.listed(Status::WAITING)
    }

    /// The ledger of the pool with this id, in the order in which backers first pledged, or
    /// `None` where there is no such pool or nobody has pledged to it.
    pub fn get_user_records_by_pool_id(&self, pool_id: PoolId) -> (r: Option<
        Vec<UserRecordDetail>,
    >)
        ensures
            match r {
                Some(records) => {
                    &&& self@.has_pool(pool_id)
                    &&& records@.len() > 0
                    &&& record_views(records@) == self@.pool(pool_id).records
                },
                None => !self@.has_pool(pool_id) || self@.pool(pool_id).records.len() == 0,
            },
    {
        let i = match self.slot_of(pool_id) {
            Some(i) => i,
            None => {
                return None;
            },
        };
        if self.pools[i].records.len() == 0 {
            return None;
        }
        let mut out: Vec<UserRecordDetail> = Vec::new();
        let mut j: usize = 0;
        while j < self.pools[i].records.len()
            invariant
                i < self.pools@.len(),
                j <= self.pools@[i as int].records@.len(),
                out@.len() == j,
                forall|k: int| 0 <= k < j ==> (#[trigger] out@[k]) == self.pools@[i as int].records@[k],
            decreases self.pools@[i as int].records@.len() - j,
        {
            out.push(self.pools[i].records[j].clone());
            j = j + 1;
        }
        assert(record_views(out@) =~= self@.pool(pool_id).records);
        Some(out)
    }

    /// The asset registry, in the order in which the tokens were admitted.
    pub fn list_assets(&self) -> (r: Vec<Assets>)
        ensures
            asset_views(r@) == self@.assets,
    {
        let mut out: Vec<Assets> = Vec::new();
        let mut i: usize = 0;
        while i < self.list_assets.len()
            invariant
                i <= self.list_assets@.len(),
                out@.len() == i,
                forall|k: int| 0 <= k < i ==> (#[trigger] out@[k]) == self.list_assets@[k],
            decreases self.list_assets@.len() - i,
        {
            out.push(self.list_assets[i].clone());
            i = i + 1;
        }
        assert(asset_views(out@) =~= self@.assets);
        out
    }

    /// The ledger of every pool, in the order of the pools' ids.
    pub fn list_user_records(&self) -> (r: Vec<Vec<UserRecordDetail>>)
        ensures
            ledger_views(r@) == ledgers(self@),
    {
        let mut out: Vec<Vec<UserRecordDetail>> = Vec::new();
        let mut i: usize = 0;
        while i < self.pools.len()
            invariant
                i <= self.pools@.len(),
                out@.len() == i,
                forall|k: int|
                    0 <= k < i ==> record_views((#[trigger] out@[k])@) == ledgers(self@)[k],
            decreases self.pools@.len() - i,
        {
            let mut ledger: Vec<UserRecordDetail> = Vec::new();
            let mut j: usize = 0;
            while j < self.pools[i].records.len()
                invariant
                    i < self.pools@.len(),
                    j <= self.pools@[i as int].records@.len(),
                    ledger@.len() == j,
                    forall|k: int|
                        0 <= k < j ==> (#[trigger] ledger@[k]) == self.pools@[i as int].records@[k],
                decreases self.pools@[i as int].records@.len() - j,
            {
                ledger.push(self.pools[i].records[j].clone());
                j = j + 1;
            }
            assert(record_views(ledger@) =~= ledgers(self@)[i as int]);
            out.push(ledger);
            i = i + 1;
        }
        assert(ledger_views(out@) =~= ledgers(self@));
        out
    }

    /// Puts an engine together from its parts, as they were read off an earlier engine:
    /// `pools[k - 1]` is the pool with id `k` and `user_records[k - 1]` its ledger. The parts
    /// are taken if and only if they make a well-formed engine.
    #[verifier::rlimit(50)]
    pub fn restore(
        owner_id: AccountId,
        list_assets: Vec<Assets>,
        pools: Vec<PoolMetadata>,
        user_records: Vec<Vec<UserRecordDetail>>,
        min_staking_amount: u128,
        refund_percent: u8,
    ) -> (r: Option<Launchpad>)
        ensures
            match r {
                Some(engine) => {
                    &&& pools@.len() == user_records@.len()
                    &&& engine@ == assembled(
                        owner_id@,
                        asset_views(list_assets@),
                        pool_views(pools@),
                        ledger_views(user_records@),
                        min_staking_amount,
                        refund_percent,
                    )
                    &&& engine@.wf()
                },
                None => pools@.len() != user_records@.len() || !assembled(
                    owner_id@,
                    asset_views(list_assets@),
                    pool_views(pools@),
                    ledger_views(user_records@),
                    min_staking_amount,
                    refund_percent,
                ).wf(),
            },
    {
        let ghost target = assembled(
            owner_id@,
            asset_views(list_assets@),
            pool_views(pools@),
            ledger_views(user_records@),
            min_staking_amount,
            refund_percent,
        );
        if pools.len() != user_records.len() {
            return None;
        }
        if refund_percent > 100 || min_staking_amount < DEFAULT_MIN_STAKING {
            return None;
        }
        if !tokens_are_distinct(&list_assets) {
            return None;
        }
        let mut slots: Vec<PoolSlot> = Vec::new();
        let mut i: usize = 0;
        while i < pools.len()
            invariant
                i <= pools@.len(),
                pools@.len() == user_records@.len(),
                target == assembled(
                    owner_id@,
                    asset_views(list_assets@),
                    pool_views(pools@),
                    ledger_views(user_records@),
                    min_staking_amount,
                    refund_percent,
                ),
                slots@.len() == i,
                forall|k: int| 0 <= k < i ==> (#[trigger] slots@[k]).view() == target.pools[k],
                forall|k: int| 0 <= k < i ==> (#[trigger] target.pools[k]).meta.pool_id == k + 1,
                forall|k: int| 0 <= k < i ==> distinct_users((#[trigger] target.pools[k]).records),
                forall|k: int|
                    0 <= k < i ==> target.supports((#[trigger] target.pools[k]).meta.token_id),
            decreases pools@.len() - i,
        {
            assert(target.pools[i as int].meta == pools@[i as int]@);
            assert(target.pools[i as int].records == record_views(user_records@[i as int]@));
            if i as u64 == u64::MAX || pools[i].pool_id != i as u64 + 1 {
                assert(target.pools[i as int].meta.pool_id != i + 1);
                return None;
            }
            if !holds_token(&list_assets, &pools[i].token_id) {
                assert(!target.supports(target.pools[i as int].meta.token_id));
                return None;
            }
            proof {
                let token_id = pools@[i as int].token_id@;
                let k = choose|k: int|
                    0 <= k < list_assets@.len() && (#[trigger] asset_views(
                        list_assets@,
                    )[k]).token_id == token_id;
                assert(target.assets[k].token_id == target.pools[i as int].meta.token_id);
            }
            if !users_are_distinct(&user_records[i]) {
                assert(!distinct_users(target.pools[i as int].records));
                return None;
            }
            let mut ledger: Vec<UserRecordDetail> = Vec::new();
            let mut j: usize = 0;
            while j < user_records[i].len()
                invariant
                    i < user_records@.len(),
                    j <= user_records@[i as int]@.len(),
                    ledger@.len() == j,
                    forall|k: int|
                        0 <= k < j ==> (#[trigger] ledger@[k]) == user_records@[i as int]@[k],
                decreases user_records@[i as int]@.len() - j,
            {
                ledger.push(user_records[i][j].clone());
                j = j + 1;
            }
            assert(ledger@ =~= user_records@[i as int]@);
            let slot = PoolSlot { meta: pools[i].clone(), records: ledger };
            assert(slot.view() == target.pools[i as int]);
            slots.push(slot);
            i = i + 1;
        }
        assert(pools_view(slots@) =~= target.pools);
        assert(target.wf());
        let engine = Launchpad {
            owner_id,
            list_assets,
            pools: slots,
            min_staking_amount,
            refund_percent,
        };
        assert(engine@ == target);
        Some(engine)
    }

}

} // verus!
