//! What holds of the engine whatever is asked of it, proved of the state machine that the
//! operations are specified by.

use vstd::prelude::*;
use crate::model::{
    claimable, funding_outcome, init_pool_state, WAITING_GRACE,
    assembled, ledgers, metas,
    cancel_error, claim_error, claim_state, close_error, close_state, credited, decide_error,
    distinct_users, force_error, has_record, init_pool_error, ledger_total,
    lemma_add_token_wf, lemma_credited_distinct, lemma_init_pool_wf, lemma_record_index,
    lemma_same_users_distinct, lemma_settings_wf, lemma_with_pool_wf, new_pool, owed,
    pledge_accepted, power_of, power_total, powers_fit, record_index, review_error, run,
    set_window_error, status_edge, step, timeout_error, with_powers, withdraw_error,
    withdraw_state, LaunchpadView, Operation, FULL_POWER,
};
use crate::memo::memo_pool_id;
use crate::types::{LaunchpadError, PoolId, RecordView, Status};

verus! {

/// Whether the operation is an override of the admin's that is accepted and puts this pool
/// into a status.
pub open spec fn overrides(s: LaunchpadView, op: Operation, pool_id: PoolId) -> bool {
    match op {
        Operation::Force { caller, pool_id: p, name } => p == pool_id && force_error(
            s,
            caller,
            p,
            name,
        ) is None,
        _ => false,
    }
}

/// Whether no operation of the row, run from `s`, overrides the status of this pool.
pub open spec fn never_overridden(s: LaunchpadView, ops: Seq<Operation>, pool_id: PoolId) -> bool
    decreases ops.len(),
{
    ops.len() == 0 || (never_overridden(s, ops.drop_last(), pool_id) && !overrides(
        run(s, ops.drop_last()),
        ops.last(),
        pool_id,
    ))
}

/// Whether the operation moves funds out of this pool: an accepted withdrawal to the creator
/// of more than nothing, or an accepted claim.
pub open spec fn moves_funds_out(s: LaunchpadView, op: Operation, pool_id: PoolId) -> bool {
    match op {
        Operation::Withdraw { caller, pool_id: p, amount } => p == pool_id && amount > 0
            && withdraw_error(s, caller, p, amount) is None,
        Operation::Claim { caller, pool_id: p } => p == pool_id && claim_error(s, caller, p)
            is None,
        _ => false,
    }
}

/// Whether no operation of the row, run from `s`, moves funds out of this pool.
pub open spec fn never_moves_funds_out(s: LaunchpadView, ops: Seq<Operation>, pool_id: PoolId)
    -> bool
    decreases ops.len(),
{
    ops.len() == 0 || (never_moves_funds_out(s, ops.drop_last(), pool_id) && !moves_funds_out(
        run(s, ops.drop_last()),
        ops.last(),
        pool_id,
    ))
}

/// Every operation leaves the engine well formed, and no pool ever goes away.
#[verifier::rlimit(50)]
pub proof fn lemma_step_wf(s: LaunchpadView, op: Operation)
    requires
        s.wf(),
    ensures
        step(s, op).wf(),
        step(s, op).pools.len() >= s.pools.len(),
{
    let t = step(s, op);
    match op {
        Operation::AddToken { caller, token_id } => {
            lemma_add_token_wf(s, token_id);
        },
        Operation::ChangeAdmin { caller, new_admin } => {
            lemma_settings_wf(s, t);
        },
        Operation::DeleteToken { caller, token_id } => {},
        Operation::SetRefundPercent { caller, percent } => {
            lemma_settings_wf(s, t);
        },
        Operation::SetMinStaking { caller, amount } => {
            lemma_settings_wf(s, t);
        },
        Operation::InitPool {
            caller,
            campaign_id,
            token_id,
            min_multiple_pledge,
            target_funding,
            attached_deposit,
            now,
        } => {
            if init_pool_error(s, token_id, attached_deposit) is None {
                lemma_init_pool_wf(
                    s,
                    new_pool(
                        s,
                        caller,
                        campaign_id,
                        token_id,
                        min_multiple_pledge,
                        target_funding,
                        attached_deposit,
                        now,
                    ),
                );
            }
        },
        Operation::Review { caller, pool_id, approve } => {
            if review_error(s, caller, pool_id) is None {
                lemma_with_pool_wf(s, pool_id, t.pool(pool_id));
            }
        },
        Operation::Timeout { pool_id, now } => {
            if timeout_error(s, pool_id, now) is None {
                lemma_with_pool_wf(s, pool_id, t.pool(pool_id));
            }
        },
        Operation::Cancel { caller, pool_id } => {
            if cancel_error(s, caller, pool_id) is None {
                lemma_with_pool_wf(s, pool_id, t.pool(pool_id));
            }
        },
        Operation::SetWindow { caller, pool_id, time_start_pledge, funding_duration_days, now } => {
            if set_window_error(s, caller, pool_id, time_start_pledge, funding_duration_days, now)
                is None {
                lemma_with_pool_wf(s, pool_id, t.pool(pool_id));
            }
        },
        Operation::Pledge { sender_id, token_id, amount, memo, now } => {
            if pledge_accepted(s, sender_id, token_id, amount, memo, now) {
                let pool_id = memo_pool_id(memo)->0;
                assert(distinct_users(s.pools[pool_id - 1].records));
                lemma_credited_distinct(s.pool(pool_id).records, sender_id, amount);
                lemma_with_pool_wf(s, pool_id, t.pool(pool_id));
            }
        },
        Operation::Close { caller, pool_id, waiting_allowed, now } => {
            if close_error(s, caller, pool_id, waiting_allowed, now) is None {
                let pool = s.pool(pool_id);
                assert(distinct_users(s.pools[pool_id - 1].records));
                if pool.meta.total_balance > 0 {
                    lemma_same_users_distinct(
                        pool.records,
                        with_powers(pool.records, pool.meta.total_balance),
                    );
                }
                lemma_with_pool_wf(s, pool_id, t.pool(pool_id));
            }
        },
        Operation::Decide { caller, pool_id, approve } => {
            if decide_error(s, caller, pool_id) is None {
                lemma_with_pool_wf(s, pool_id, t.pool(pool_id));
            }
        },
        Operation::Withdraw { caller, pool_id, amount } => {
            if withdraw_error(s, caller, pool_id, amount) is None {
                lemma_with_pool_wf(s, pool_id, t.pool(pool_id));
            }
        },
        Operation::Claim { caller, pool_id } => {
            if claim_error(s, caller, pool_id) is None {
                assert(distinct_users(s.pools[pool_id - 1].records));
                lemma_same_users_distinct(s.pool(pool_id).records, t.pool(pool_id).records);
                lemma_with_pool_wf(s, pool_id, t.pool(pool_id));
            }
        },
        Operation::Force { caller, pool_id, name } => {
            if force_error(s, caller, pool_id, name) is None {
                lemma_with_pool_wf(s, pool_id, t.pool(pool_id));
            }
        },
    }
}

/// A row of operations leaves the engine well formed, and no pool ever goes away.
pub proof fn lemma_run_wf(s: LaunchpadView, ops: Seq<Operation>)
    requires
        s.wf(),
    ensures
        run(s, ops).wf(),
        run(s, ops).pools.len() >= s.pools.len(),
    decreases ops.len(),
{
    if ops.len() > 0 {
        lemma_run_wf(s, ops.drop_last());
        lemma_step_wf(run(s, ops.drop_last()), ops.last());
    }
}

/// A pool created by an accepted `init_pool` starts in `INIT`, with an empty ledger and no
/// balance.
pub proof fn lemma_new_pool_starts_in_init(s: LaunchpadView, op: Operation)
    requires
        s.wf(),
        op is InitPool,
        step(s, op) != s,
    ensures
        step(s, op).pools.len() == s.pools.len() + 1,
        step(s, op).pools.last().meta.status == Status::INIT,
        step(s, op).pools.last().meta.total_balance == 0,
        step(s, op).pools.last().records.len() == 0,
        step(s, op).pools.last().balanced(),
{
}

/// No operation but the admin's override of a pool's status moves the pool along anything
/// but an edge of the lifecycle: the pool keeps its status, or goes from `INIT` to
/// `APPROVED`, `REJECTED` or `CANCELED`, from `APPROVED` to `FUNDING`, from `FUNDING` to
/// `FAILED`, `VOTING`, `WAITING` or `REFUNDED`, or from `WAITING` to `VOTING` or `REFUNDED`.
#[verifier::rlimit(50)]
pub proof fn lemma_status_follows_edges(s: LaunchpadView, op: Operation, pool_id: PoolId)
    requires
        s.wf(),
        s.has_pool(pool_id),
        !overrides(s, op, pool_id),
    ensures
        step(s, op).has_pool(pool_id),
        step(s, op).pool(pool_id).meta.status == s.pool(pool_id).meta.status || status_edge(
            s.pool(pool_id).meta.status,
            step(s, op).pool(pool_id).meta.status,
        ),
{
}

/// The admin's override puts the pool into the status it names, and touches nothing else of
/// the pool.
pub proof fn lemma_override_sets_status(
    s: LaunchpadView,
    caller: Seq<char>,
    pool_id: PoolId,
    name: Seq<char>,
)
    requires
        s.wf(),
        force_error(s, caller, pool_id, name) is None,
    ensures
        step(s, Operation::Force { caller, pool_id, name }).pool(pool_id)
            == s.pool(pool_id).with_status(crate::types::status_from_name(name)->0),
{
}

/// What identifies a pool never changes: its id, its campaign, its creator, its token, its
/// target, its pledge granularity and the time it was created.
#[verifier::rlimit(50)]
pub proof fn lemma_identity_is_kept(s: LaunchpadView, op: Operation, pool_id: PoolId)
    requires
        s.wf(),
        s.has_pool(pool_id),
    ensures
        step(s, op).has_pool(pool_id),
        step(s, op).pool(pool_id).meta.pool_id == pool_id,
        step(s, op).pool(pool_id).meta.campaign_id == s.pool(pool_id).meta.campaign_id,
        step(s, op).pool(pool_id).meta.creator_id == s.pool(pool_id).meta.creator_id,
        step(s, op).pool(pool_id).meta.token_id == s.pool(pool_id).meta.token_id,
        step(s, op).pool(pool_id).meta.target_funding == s.pool(pool_id).meta.target_funding,
        step(s, op).pool(pool_id).meta.min_multiple_pledge == s.pool(
            pool_id,
        ).meta.min_multiple_pledge,
        step(s, op).pool(pool_id).meta.time_init == s.pool(pool_id).meta.time_init,
{
    assert(s.pools[pool_id - 1].meta.pool_id == pool_id);
}

/// The sum of a ledger after one entry's amount has been replaced.
pub proof fn lemma_total_after_update(records: Seq<RecordView>, i: int, entry: RecordView)
    requires
        0 <= i < records.len(),
    ensures
        ledger_total(records.update(i, entry)) == ledger_total(records)
            - records[i].record.amount + entry.record.amount,
    decreases records.len(),
{
    let after = records.update(i, entry);
    if i == records.len() - 1 {
        assert(after.drop_last() =~= records.drop_last());
    } else {
        assert(after.drop_last() =~= records.drop_last().update(i, entry));
        lemma_total_after_update(records.drop_last(), i, entry);
    }
}

/// The sum of a ledger grows by what is pledged.
pub proof fn lemma_total_after_pledge(records: Seq<RecordView>, user: Seq<char>, amount: u128)
    requires
        has_record(records, user) ==> records[record_index(records, user)].record.amount + amount
            <= u128::MAX,
    ensures
        ledger_total(credited(records, user, amount)) == ledger_total(records) + amount,
{
    let after = credited(records, user, amount);
    if has_record(records, user) {
        lemma_total_after_update(records, record_index(records, user), after[record_index(
            records,
            user,
        )]);
    } else {
        assert(after.drop_last() =~= records);
    }
}

/// Setting the voting powers leaves every amount, and so the sum of the ledger, as it is.
pub proof fn lemma_total_after_powers(records: Seq<RecordView>, total: u128)
    ensures
        ledger_total(with_powers(records, total)) == ledger_total(records),
    decreases records.len(),
{
    if records.len() > 0 {
        assert(with_powers(records, total).drop_last() =~= with_powers(
            records.drop_last(),
            total,
        ));
        lemma_total_after_powers(records.drop_last(), total);
    }
}

/// A pool whose balance is the sum of its ledger keeps it so under every operation that
/// moves no funds out of it, and a new pool starts so.
#[verifier::rlimit(50)]
pub proof fn lemma_balance_matches_ledger(s: LaunchpadView, op: Operation, k: int)
    requires
        s.wf(),
        0 <= k < step(s, op).pools.len(),
        k < s.pools.len() ==> s.pools[k].balanced(),
        !moves_funds_out(s, op, (k + 1) as u64),
    ensures
        step(s, op).pools[k].balanced(),
{
    let t = step(s, op);
    match op {
        Operation::Pledge { sender_id, token_id, amount, memo, now } => {
            if pledge_accepted(s, sender_id, token_id, amount, memo, now) {
                let pool_id = memo_pool_id(memo)->0;
                if k == pool_id - 1 {
                    lemma_total_after_pledge(s.pool(pool_id).records, sender_id, amount);
                }
            }
        },
        Operation::Close { caller, pool_id, waiting_allowed, now } => {
            if close_error(s, caller, pool_id, waiting_allowed, now) is None && k == pool_id - 1 {
                lemma_total_after_powers(s.pool(pool_id).records, s.pool(pool_id).meta.total_balance);
            }
        },
        Operation::InitPool { .. } => {
            if k >= s.pools.len() {
                lemma_new_pool_starts_in_init(s, op);
                assert(ledger_total(t.pools[k].records) == 0);
            }
        },
        _ => {},
    }
}

/// A pool whose balance is the sum of its ledger keeps it so through every row of operations
/// none of which moves funds out of it.
pub proof fn lemma_balance_along_runs(s: LaunchpadView, ops: Seq<Operation>, pool_id: PoolId)
    requires
        s.wf(),
        s.has_pool(pool_id),
        s.pool(pool_id).balanced(),
        never_moves_funds_out(s, ops, pool_id),
    ensures
        run(s, ops).has_pool(pool_id),
        run(s, ops).pool(pool_id).balanced(),
    decreases ops.len(),
{
    if ops.len() > 0 {
        lemma_balance_along_runs(s, ops.drop_last(), pool_id);
        lemma_run_wf(s, ops.drop_last());
        lemma_step_wf(run(s, ops.drop_last()), ops.last());
        lemma_balance_matches_ledger(run(s, ops.drop_last()), ops.last(), pool_id - 1);
    }
}

/// A withdrawal to the creator takes its amount from the pool's balance and leaves the
/// ledger as it is.
pub proof fn lemma_withdrawal_lowers_balance(
    s: LaunchpadView,
    caller: Seq<char>,
    pool_id: PoolId,
    amount: u128,
)
    requires
        s.wf(),
        withdraw_error(s, caller, pool_id, amount) is None,
    ensures
        withdraw_state(s, pool_id, amount).pool(pool_id).meta.total_balance == s.pool(
            pool_id,
        ).meta.total_balance - amount,
        withdraw_state(s, pool_id, amount).pool(pool_id).records == s.pool(pool_id).records,
{
}

/// A claim takes the claimant's amount out of the ledger and leaves the pool's balance as it
/// is.
pub proof fn lemma_claim_lowers_ledger(s: LaunchpadView, caller: Seq<char>, pool_id: PoolId)
    requires
        s.wf(),
        claim_error(s, caller, pool_id) is None,
    ensures
        claim_state(s, caller, pool_id).pool(pool_id).meta.total_balance == s.pool(
            pool_id,
        ).meta.total_balance,
        ledger_total(claim_state(s, caller, pool_id).pool(pool_id).records) == ledger_total(
            s.pool(pool_id).records,
        ) - s.pool(pool_id).records[record_index(s.pool(pool_id).records, caller)].record.amount,
{
    let records = s.pool(pool_id).records;
    let i = record_index(records, caller);
    lemma_total_after_update(records, i, claim_state(s, caller, pool_id).pool(pool_id).records[i]);
}

/// Whether the operation hands the stake of the pool back: an accepted rejection, timeout or
/// cancellation of that pool.
pub open spec fn releases_stake(s: LaunchpadView, op: Operation, pool_id: PoolId) -> bool {
    match op {
        Operation::Review { caller, pool_id: p, approve } => p == pool_id && !approve
            && review_error(s, caller, p) is None,
        Operation::Timeout { pool_id: p, now } => p == pool_id && timeout_error(s, p, now) is None,
        Operation::Cancel { caller, pool_id: p } => p == pool_id && cancel_error(s, caller, p)
            is None,
        _ => false,
    }
}

/// The stake of a pool changes in one way only: an operation that hands it back sets it to 0
/// while it takes the pool from `INIT` to `REJECTED` or `CANCELED`. Every other operation
/// leaves it as it is.
#[verifier::rlimit(50)]
pub proof fn lemma_stake_changes_on_release_only(s: LaunchpadView, op: Operation, pool_id: PoolId)
    requires
        s.wf(),
        s.has_pool(pool_id),
    ensures
        step(s, op).has_pool(pool_id),
        releases_stake(s, op, pool_id) ==> {
            &&& s.pool(pool_id).meta.status == Status::INIT
            &&& step(s, op).pool(pool_id).meta.staking_amount == 0
            &&& (step(s, op).pool(pool_id).meta.status == Status::REJECTED || step(s, op).pool(
                pool_id,
            ).meta.status == Status::CANCELED)
        },
        !releases_stake(s, op, pool_id) ==> step(s, op).pool(pool_id).meta.staking_amount
            == s.pool(pool_id).meta.staking_amount,
{
}

/// How often the stake of the pool is handed back in a row of operations.
pub open spec fn release_count(s: LaunchpadView, ops: Seq<Operation>, pool_id: PoolId) -> nat
    decreases ops.len(),
{
    if ops.len() == 0 {
        0
    } else {
        release_count(s, ops.drop_last(), pool_id) + if releases_stake(
            run(s, ops.drop_last()),
            ops.last(),
            pool_id,
        ) {
            1nat
        } else {
            0nat
        }
    }
}

/// In a row of operations none of which overrides the pool's status, the stake of a pool is
/// handed back at most once, and after that the pool stays `REJECTED` or `CANCELED`.
#[verifier::rlimit(50)]
pub proof fn lemma_stake_released_at_most_once(
    s: LaunchpadView,
    ops: Seq<Operation>,
    pool_id: PoolId,
)
    requires
        s.wf(),
        never_overridden(s, ops, pool_id),
    ensures
        release_count(s, ops, pool_id) <= 1,
        release_count(s, ops, pool_id) == 1 ==> {
            &&& run(s, ops).has_pool(pool_id)
            &&& run(s, ops).pool(pool_id).meta.staking_amount == 0
            &&& (run(s, ops).pool(pool_id).meta.status == Status::REJECTED || run(s, ops).pool(
                pool_id,
            ).meta.status == Status::CANCELED)
        },
    decreases ops.len(),
{
    if ops.len() > 0 {
        let before = ops.drop_last();
        let op = ops.last();
        lemma_stake_released_at_most_once(s, before, pool_id);
        lemma_run_wf(s, before);
        let u = run(s, before);
        if u.has_pool(pool_id) {
            lemma_status_follows_edges(u, op, pool_id);
            lemma_stake_changes_on_release_only(u, op, pool_id);
        }
    }
}

/// A status that no edge of the lifecycle leaves.
pub open spec fn is_final(status: Status) -> bool {
    forall|to: Status| !status_edge(status, to)
}

/// `REJECTED`, `CANCELED`, `FAILED`, `REFUNDED`, `VOTING`, `CLOSED` and `SUCCESSFUL` are
/// final, and no other status is.
pub proof fn lemma_final_statuses(status: Status)
    ensures
        is_final(status) <==> (status != Status::INIT && status != Status::APPROVED && status
            != Status::FUNDING && status != Status::WAITING),
{
    if status == Status::INIT {
        assert(status_edge(status, Status::APPROVED));
    } else if status == Status::APPROVED {
        assert(status_edge(status, Status::FUNDING));
    } else if status == Status::FUNDING {
        assert(status_edge(status, Status::FAILED));
    } else if status == Status::WAITING {
        assert(status_edge(status, Status::VOTING));
    }
}

/// A pool in a final status keeps it through every row of operations none of which
/// overrides it.
pub proof fn lemma_final_status_stays(s: LaunchpadView, ops: Seq<Operation>, pool_id: PoolId)
    requires
        s.wf(),
        s.has_pool(pool_id),
        is_final(s.pool(pool_id).meta.status),
        never_overridden(s, ops, pool_id),
    ensures
        run(s, ops).has_pool(pool_id),
        run(s, ops).pool(pool_id).meta.status == s.pool(pool_id).meta.status,
    decreases ops.len(),
{
    if ops.len() > 0 {
        let before = ops.drop_last();
        lemma_final_status_stays(s, before, pool_id);
        lemma_run_wf(s, before);
        lemma_status_follows_edges(run(s, before), ops.last(), pool_id);
    }
}

/// After a claim has been paid, the same backer's next claim is refused, as nothing is owed
/// to them any more.
pub proof fn lemma_second_claim_fails(s: LaunchpadView, caller: Seq<char>, pool_id: PoolId)
    requires
        s.wf(),
        claim_error(s, caller, pool_id) is None,
    ensures
        claim_error(claim_state(s, caller, pool_id), caller, pool_id) == Some(
            LaunchpadError::NothingToClaim,
        ),
{
    let records = s.pool(pool_id).records;
    let i = record_index(records, caller);
    let t = claim_state(s, caller, pool_id);
    let after = t.pool(pool_id).records;
    assert(distinct_users(s.pools[pool_id - 1].records));
    lemma_same_users_distinct(records, after);
    assert(after[i].user_id == caller);
    lemma_record_index(after, caller, i);
}

/// Whether the backer has an entry in the pool's ledger whose amount is 0, in a pool that is
/// being refunded.
pub open spec fn is_settled(s: LaunchpadView, caller: Seq<char>, pool_id: PoolId) -> bool {
    &&& s.has_pool(pool_id)
    &&& s.pool(pool_id).meta.status == Status::REFUNDED
    &&& has_record(s.pool(pool_id).records, caller)
    &&& s.pool(pool_id).records[record_index(s.pool(pool_id).records, caller)].record.amount == 0
}

/// A backer who has been paid stays paid under every operation but an override of the
/// pool's status.
#[verifier::rlimit(50)]
pub proof fn lemma_settled_is_kept(
    s: LaunchpadView,
    op: Operation,
    caller: Seq<char>,
    pool_id: PoolId,
)
    requires
        s.wf(),
        is_settled(s, caller, pool_id),
        !overrides(s, op, pool_id),
    ensures
        is_settled(step(s, op), caller, pool_id),
{
    let t = step(s, op);
    let records = s.pool(pool_id).records;
    let i = record_index(records, caller);
    assert(distinct_users(s.pools[pool_id - 1].records));
    match op {
        Operation::Claim { caller: other, pool_id: p } => {
            if p == pool_id && claim_error(s, other, p) is None {
                let after = t.pool(pool_id).records;
                let j = record_index(records, other);
                assert(records[j].record.amount != 0);
                assert(j != i);
                lemma_same_users_distinct(records, after);
                assert(after[i] == records[i]);
                lemma_record_index(after, caller, i);
            } else {
                assert(t.pool(pool_id) == s.pool(pool_id));
            }
        },
        Operation::Pledge { sender_id, token_id, amount, memo, now } => {
            assert(t.pool(pool_id) == s.pool(pool_id));
        },
        Operation::Close { caller: c, pool_id: p, waiting_allowed, now } => {
            assert(t.pool(pool_id) == s.pool(pool_id));
        },
        Operation::Review { caller: c, pool_id: p, approve } => {
            assert(t.pool(pool_id) == s.pool(pool_id));
        },
        Operation::Timeout { pool_id: p, now } => {
            assert(t.pool(pool_id) == s.pool(pool_id));
        },
        Operation::Cancel { caller: c, pool_id: p } => {
            assert(t.pool(pool_id) == s.pool(pool_id));
        },
        Operation::SetWindow { caller: c, pool_id: p, time_start_pledge, funding_duration_days, now } => {
            assert(t.pool(pool_id) == s.pool(pool_id));
        },
        Operation::Decide { caller: c, pool_id: p, approve } => {
            assert(t.pool(pool_id) == s.pool(pool_id));
        },
        Operation::Withdraw { caller: c, pool_id: p, amount } => {
            assert(t.pool(pool_id) == s.pool(pool_id));
        },
        Operation::InitPool { .. } => {
            assert(t.pool(pool_id) == s.pool(pool_id));
        },
        Operation::AddToken { .. } => {
            assert(t.pools == s.pools);
        },
        Operation::ChangeAdmin { .. } => {
            assert(t.pools == s.pools);
        },
        Operation::DeleteToken { .. } => {},
        Operation::SetRefundPercent { .. } => {
            assert(t.pools == s.pools);
        },
        Operation::SetMinStaking { .. } => {
            assert(t.pools == s.pools);
        },
        Operation::Force { .. } => {
            assert(t.pool(pool_id) == s.pool(pool_id));
        },
    }
}

/// A backer who has been paid stays paid: whatever operations follow, short of an override
/// of the pool's status, each further claim of theirs is refused, as nothing is owed to them.
pub proof fn lemma_no_second_payout(
    s: LaunchpadView,
    ops: Seq<Operation>,
    caller: Seq<char>,
    pool_id: PoolId,
)
    requires
        s.wf(),
        is_settled(s, caller, pool_id),
        never_overridden(s, ops, pool_id),
    ensures
        is_settled(run(s, ops), caller, pool_id),
        claim_error(run(s, ops), caller, pool_id) == Some(LaunchpadError::NothingToClaim),
    decreases ops.len(),
{
    if ops.len() > 0 {
        let before = ops.drop_last();
        lemma_no_second_payout(s, before, caller, pool_id);
        lemma_run_wf(s, before);
        lemma_settled_is_kept(run(s, before), ops.last(), caller, pool_id);
    }
}

/// Every amount of a ledger is at most the ledger's sum.
pub proof fn lemma_amount_within_total(records: Seq<RecordView>, i: int)
    requires
        0 <= i < records.len(),
    ensures
        records[i].record.amount <= ledger_total(records),
    decreases records.len(),
{
    if i < records.len() - 1 {
        lemma_amount_within_total(records.drop_last(), i);
    }
}

/// The voting power of an amount that is at most the balance is at most 100 percent, and
/// falls short of the exact share by less than one unit.
pub proof fn lemma_power_bounds(amount: u128, total: u128)
    requires
        0 < total,
        amount <= total,
    ensures
        power_of(amount, total) <= FULL_POWER,
        power_of(amount, total) * total <= amount * FULL_POWER,
        amount * FULL_POWER < (power_of(amount, total) + 1) * total,
{
    let x: int = amount * FULL_POWER;
    let d: int = total as int;
    vstd::arithmetic::div_mod::lemma_fundamental_div_mod(x, d);
    vstd::arithmetic::div_mod::lemma_mod_bound(x, d);
    let q: int = x / d;
    assert(power_of(amount, total) == q);
    assert(q * d <= x && x < (q + 1) * d) by (nonlinear_arith)
        requires
            x == d * q + x % d,
            0 <= x % d < d,
    ;
    assert(q <= FULL_POWER) by (nonlinear_arith)
        requires
            q * d <= amount * FULL_POWER,
            amount <= d,
            0 < d,
            0 <= amount,
    {
        if q > FULL_POWER {
            assert(q * d >= (FULL_POWER + 1) * d);
            assert(amount * FULL_POWER <= d * FULL_POWER);
        }
    }
}

/// The voting powers of a ledger, times the balance they were set for, fall short of the
/// ledger's sum times 100 percent by less than the balance for each entry.
proof fn lemma_power_sum(records: Seq<RecordView>, total: u128)
    requires
        0 < total,
        forall|i: int| 0 <= i < records.len() ==> (#[trigger] records[i]).record.amount <= total,
    ensures
        power_total(with_powers(records, total)) * total <= ledger_total(records) * FULL_POWER,
        ledger_total(records) * FULL_POWER < (power_total(with_powers(records, total))
            + records.len()) * total || records.len() == 0,
    decreases records.len(),
{
    if records.len() > 0 {
        let front = records.drop_last();
        let last = records.last();
        assert(with_powers(records, total).drop_last() =~= with_powers(front, total));
        lemma_power_sum(front, total);
        lemma_power_bounds(last.record.amount, total);
        let a: int = last.record.amount as int;
        let q: int = power_of(last.record.amount, total) as int;
        assert(with_powers(records, total).last().record.voting_power == q);
        let pf: int = power_total(with_powers(front, total)) as int;
        let lf: int = ledger_total(front) as int;
        let n: int = front.len() as int;
        let t: int = total as int;
        let f: int = FULL_POWER as int;
        assert(power_total(with_powers(records, total)) == pf + q);
        assert(ledger_total(records) == lf + a);
        assert((pf + q) * t <= (lf + a) * f && (lf + a) * f < (pf + q + n + 1) * t)
            by (nonlinear_arith)
            requires
                pf * t <= lf * f,
                lf * f < (pf + n) * t || n == 0,
                n == 0 ==> lf == 0 && pf == 0,
                q * t <= a * f,
                a * f < (q + 1) * t,
                0 < t,
                0 <= n,
        ;
    } else {
        assert(with_powers(records, total).len() == 0);
        assert(power_total(with_powers(records, total)) == 0);
        assert(ledger_total(records) == 0);
        assert(0 * total == 0 && 0 * FULL_POWER == 0) by (nonlinear_arith);
    }
}

/// The voting powers that closing a pool sets add up to 100 percent, short of less than one
/// unit of power for each backer: every power is rounded down and none is rounded up. This
/// holds whenever the pool's balance, which is not 0, is the sum of its ledger.
pub proof fn lemma_powers_add_up(records: Seq<RecordView>, total: u128)
    requires
        0 < total,
        ledger_total(records) == total,
    ensures
        powers_fit(records, total),
        power_total(with_powers(records, total)) <= FULL_POWER,
        FULL_POWER < power_total(with_powers(records, total)) + records.len(),
{
    assert forall|i: int| 0 <= i < records.len() implies (#[trigger] records[i]).record.amount
        <= total && power_of(records[i].record.amount, total) <= u128::MAX by {
        lemma_amount_within_total(records, i);
        lemma_power_bounds(records[i].record.amount, total);
    }
    lemma_power_sum(records, total);
    let p: int = power_total(with_powers(records, total)) as int;
    let n: int = records.len() as int;
    let t: int = total as int;
    let f: int = FULL_POWER as int;
    assert(n > 0) by {
        if records.len() == 0 {
            assert(ledger_total(records) == 0);
        }
    }
    assert(p <= f && f < p + n) by (nonlinear_arith)
        requires
            p * t <= t * f,
            t * f < (p + n) * t,
            0 < t,
    ;
}

/// After funding has been closed on a pool whose balance, not 0, is the sum of its ledger,
/// every voting power is at most 100 percent, and together they add up to 100 percent, short
/// of less than one unit of power for each backer.
pub proof fn lemma_close_sets_powers(
    s: LaunchpadView,
    caller: Seq<char>,
    pool_id: PoolId,
    waiting_allowed: bool,
    now: u64,
)
    requires
        s.wf(),
        close_error(s, caller, pool_id, waiting_allowed, now) is None,
        s.pool(pool_id).balanced(),
        s.pool(pool_id).meta.total_balance > 0,
    ensures
        forall|i: int|
            0 <= i < s.pool(pool_id).records.len() ==> (#[trigger] close_state(
                s,
                pool_id,
                waiting_allowed,
            ).pool(pool_id).records[i]).record.voting_power <= FULL_POWER,
        power_total(close_state(s, pool_id, waiting_allowed).pool(pool_id).records) <= FULL_POWER,
        FULL_POWER < power_total(close_state(s, pool_id, waiting_allowed).pool(pool_id).records)
            + s.pool(pool_id).records.len(),
{
    let records = s.pool(pool_id).records;
    let total = s.pool(pool_id).meta.total_balance;
    lemma_powers_add_up(records, total);
    assert forall|i: int| 0 <= i < records.len() implies (#[trigger] close_state(
        s,
        pool_id,
        waiting_allowed,
    ).pool(pool_id).records[i]).record.voting_power <= FULL_POWER by {
        lemma_amount_within_total(records, i);
        lemma_power_bounds(records[i].record.amount, total);
    }
}

/// The share that a backer may claim of the balance their voting power was set for is their
/// pledge or one unit less: the power is rounded down by less than one unit, and one unit of
/// power is worth less than one unit of any balance.
pub proof fn lemma_first_claim_pays_the_pledge(records: Seq<RecordView>, total: u128, i: int)
    requires
        0 < total,
        ledger_total(records) == total,
        0 <= i < records.len(),
        records[i].record.amount > 0,
    ensures
        records[i].record.amount - 1 <= owed(total, with_powers(records, total)[i].record),
        owed(total, with_powers(records, total)[i].record) <= records[i].record.amount,
{
    let a: int = records[i].record.amount as int;
    let t: int = total as int;
    let f: int = FULL_POWER as int;
    lemma_amount_within_total(records, i);
    lemma_power_bounds(records[i].record.amount, total);
    let q: int = power_of(records[i].record.amount, total) as int;
    assert(with_powers(records, total)[i].record.voting_power == q);
    assert(with_powers(records, total)[i].record.amount == a);
    let x: int = t * q;
    assert(owed(total, with_powers(records, total)[i].record) == x / f);
    assert((a - 1) * f <= x && x <= a * f) by (nonlinear_arith)
        requires
            q * t <= a * f,
            a * f < (q + 1) * t,
            0 < t <= f,
            x == t * q,
    ;
    vstd::arithmetic::div_mod::lemma_fundamental_div_mod(x, f);
    vstd::arithmetic::div_mod::lemma_mod_bound(x, f);
    let p: int = x / f;
    assert(a - 1 <= p && p <= a) by (nonlinear_arith)
        requires
            (a - 1) * f <= x,
            x <= a * f,
            x == f * p + x % f,
            0 <= x % f < f,
            0 < f,
    {
        if p > a {
            assert(f * p >= f * (a + 1));
        }
        if p < a - 1 {
            assert(f * p <= f * (a - 2));
        }
    }
}

/// What the backers of a ledger may claim together of the balance their voting powers were
/// set for.
pub open spec fn owed_total(records: Seq<RecordView>, total: u128) -> nat
    decreases records.len(),
{
    if records.len() == 0 {
        0
    } else {
        owed_total(records.drop_last(), total) + owed(total, records.last().record)
    }
}

/// A ledger whose entries are each owed no more than their amount is owed no more than its
/// sum.
proof fn lemma_owed_within_amounts(records: Seq<RecordView>, total: u128)
    requires
        forall|i: int|
            0 <= i < records.len() ==> owed(total, (#[trigger] records[i]).record)
                <= records[i].record.amount,
    ensures
        owed_total(records, total) <= ledger_total(records),
    decreases records.len(),
{
    if records.len() > 0 {
        assert forall|i: int| 0 <= i < records.drop_last().len() implies owed(
            total,
            (#[trigger] records.drop_last()[i]).record,
        ) <= records.drop_last()[i].record.amount by {
            assert(records.drop_last()[i] == records[i]);
        }
        lemma_owed_within_amounts(records.drop_last(), total);
        assert(owed(total, records[records.len() - 1].record) <= records[records.len()
            - 1].record.amount);
    }
}

/// What the backers may claim together of the balance their voting powers were set for is at
/// most that balance: the claims never pay out more than the pool holds.
pub proof fn lemma_claims_within_balance(records: Seq<RecordView>, total: u128)
    requires
        0 < total,
        ledger_total(records) == total,
    ensures
        owed_total(with_powers(records, total), total) <= total,
{
    let powered = with_powers(records, total);
    assert forall|i: int| 0 <= i < powered.len() implies owed(total, (#[trigger] powered[i]).record)
        <= powered[i].record.amount by {
        if records[i].record.amount > 0 {
            lemma_first_claim_pays_the_pledge(records, total, i);
        }
    }
    lemma_owed_within_amounts(powered, total);
    lemma_total_after_powers(records, total);
}

/// After funding has been closed on a pool whose balance, not 0, is the sum of its ledger, a
/// backer who pledged may claim their pledge or one unit less of that balance.
pub proof fn lemma_close_owes_the_pledge(
    s: LaunchpadView,
    caller: Seq<char>,
    pool_id: PoolId,
    waiting_allowed: bool,
    now: u64,
    backer: Seq<char>,
)
    requires
        s.wf(),
        close_error(s, caller, pool_id, waiting_allowed, now) is None,
        s.pool(pool_id).balanced(),
        s.pool(pool_id).meta.total_balance > 0,
        has_record(s.pool(pool_id).records, backer),
        s.pool(pool_id).records[record_index(s.pool(pool_id).records, backer)].record.amount > 0,
    ensures
        has_record(close_state(s, pool_id, waiting_allowed).pool(pool_id).records, backer),
        s.pool(pool_id).records[record_index(s.pool(pool_id).records, backer)].record.amount - 1
            <= claimable(close_state(s, pool_id, waiting_allowed), backer, pool_id),
        claimable(close_state(s, pool_id, waiting_allowed), backer, pool_id) <= s.pool(
            pool_id,
        ).records[record_index(s.pool(pool_id).records, backer)].record.amount,
{
    let records = s.pool(pool_id).records;
    let total = s.pool(pool_id).meta.total_balance;
    let i = record_index(records, backer);
    let after = close_state(s, pool_id, waiting_allowed).pool(pool_id).records;
    assert(distinct_users(s.pools[pool_id - 1].records));
    lemma_same_users_distinct(records, after);
    assert(after[i].user_id == backer);
    lemma_record_index(after, backer, i);
    lemma_first_claim_pays_the_pledge(records, total, i);
}

/// How a funding window ends is decided by the balance alone, but for the choice between
/// waiting and refunding: a pool fails exactly where nothing was pledged, goes to `VOTING`
/// exactly where something was pledged and the target is reached, waits exactly where it
/// falls short of the target by no more than a fifth and waiting is allowed, and is refunded
/// otherwise.
pub proof fn lemma_outcome_by_balance(total_balance: u128, target_funding: u128, waiting_allowed: bool)
    ensures
        funding_outcome(total_balance, target_funding, waiting_allowed) == Status::FAILED
            <==> total_balance == 0,
        funding_outcome(total_balance, target_funding, waiting_allowed) == Status::VOTING <==> 0
            < total_balance && total_balance >= target_funding,
        funding_outcome(total_balance, target_funding, waiting_allowed) == Status::WAITING <==> 0
            < total_balance < target_funding && 5 * total_balance >= 4 * target_funding
            && waiting_allowed,
        funding_outcome(total_balance, target_funding, waiting_allowed) == Status::REFUNDED <==> 0
            < total_balance < target_funding && !(5 * total_balance >= 4 * target_funding
            && waiting_allowed),
{
}

/// The admin closes the funding of every pool in `FUNDING` whose window has ended, whose
/// balance is the sum of its ledger, and whose window, where the pool goes to `WAITING`, can
/// be extended within the range of times. The pool gets the status that its balance
/// decides, a pool that waits has its window extended by exactly 3 days, and the balance,
/// the stake and every amount of the ledger stay as they are.
pub proof fn lemma_close_succeeds(
    s: LaunchpadView,
    caller: Seq<char>,
    pool_id: PoolId,
    waiting_allowed: bool,
    now: u64,
)
    requires
        s.wf(),
        s.has_pool(pool_id),
        caller == s.owner_id,
        s.pool(pool_id).meta.status == Status::FUNDING,
        now > s.pool(pool_id).meta.time_end_pledge,
        s.pool(pool_id).balanced(),
        funding_outcome(
            s.pool(pool_id).meta.total_balance,
            s.pool(pool_id).meta.target_funding,
            waiting_allowed,
        ) == Status::WAITING ==> s.pool(pool_id).meta.time_end_pledge + WAITING_GRACE <= u64::MAX,
    ensures
        close_error(s, caller, pool_id, waiting_allowed, now) is None,
        close_state(s, pool_id, waiting_allowed).pool(pool_id).meta.status == funding_outcome(
            s.pool(pool_id).meta.total_balance,
            s.pool(pool_id).meta.target_funding,
            waiting_allowed,
        ),
        close_state(s, pool_id, waiting_allowed).pool(pool_id).meta.time_end_pledge == s.pool(
            pool_id,
        ).meta.time_end_pledge + if funding_outcome(
            s.pool(pool_id).meta.total_balance,
            s.pool(pool_id).meta.target_funding,
            waiting_allowed,
        ) == Status::WAITING {
            WAITING_GRACE as int
        } else {
            0
        },
        close_state(s, pool_id, waiting_allowed).pool(pool_id).meta.total_balance == s.pool(
            pool_id,
        ).meta.total_balance,
        close_state(s, pool_id, waiting_allowed).pool(pool_id).meta.staking_amount == s.pool(
            pool_id,
        ).meta.staking_amount,
        close_state(s, pool_id, waiting_allowed).pool(pool_id).records.len() == s.pool(
            pool_id,
        ).records.len(),
        forall|i: int|
            0 <= i < s.pool(pool_id).records.len() ==> (#[trigger] close_state(
                s,
                pool_id,
                waiting_allowed,
            ).pool(pool_id).records[i]).record.amount == s.pool(pool_id).records[i].record.amount
                && close_state(s, pool_id, waiting_allowed).pool(pool_id).records[i].user_id
                == s.pool(pool_id).records[i].user_id,
        close_state(s, pool_id, waiting_allowed).pool(pool_id).balanced(),
{
    let records = s.pool(pool_id).records;
    let total = s.pool(pool_id).meta.total_balance;
    if total > 0 {
        lemma_powers_add_up(records, total);
        lemma_total_after_powers(records, total);
    }
}

/// A pool is opened for every stake that reaches the minimum staking amount and every token
/// of the asset registry, as long as the pools can still be counted in 64 bits. The new pool
/// has what it was given, the caller as its creator, the next id, the status `INIT`, the time
/// it was opened at, no funding window, no balance and an empty ledger, so that its balance
/// is the sum of its ledger.
pub proof fn lemma_init_pool_succeeds(
    s: LaunchpadView,
    caller: Seq<char>,
    campaign_id: Seq<char>,
    token_id: Seq<char>,
    min_multiple_pledge: u128,
    target_funding: u128,
    attached_deposit: u128,
    now: u64,
)
    requires
        s.wf(),
        attached_deposit >= s.min_staking_amount,
        s.supports(token_id),
        s.pools.len() < u64::MAX,
    ensures
        init_pool_error(s, token_id, attached_deposit) is None,
        ({
            let pool = new_pool(
                s,
                caller,
                campaign_id,
                token_id,
                min_multiple_pledge,
                target_funding,
                attached_deposit,
                now,
            );
            let t = init_pool_state(s, pool);
            &&& t.pools.len() == s.pools.len() + 1
            &&& t.has_pool(pool.pool_id)
            &&& t.pool(pool.pool_id).meta == pool
            &&& t.pool(pool.pool_id).records.len() == 0
            &&& t.pool(pool.pool_id).balanced()
            &&& pool.pool_id == s.pools.len() + 1
            &&& pool.campaign_id == campaign_id
            &&& pool.creator_id == caller
            &&& pool.staking_amount == attached_deposit
            &&& pool.status == Status::INIT
            &&& pool.token_id == token_id
            &&& pool.total_balance == 0
            &&& pool.target_funding == target_funding
            &&& pool.min_multiple_pledge == min_multiple_pledge
            &&& pool.time_init == now
            &&& pool.time_start_pledge == 0
            &&& pool.time_end_pledge == 0
            &&& forall|k: int| 0 <= k < s.pools.len() ==> (#[trigger] t.pools[k]) == s.pools[k]
        }),
{
}

/// An engine is the engine that its own parts make: what is read off an engine restores it.
pub proof fn lemma_parts_make_the_engine(s: LaunchpadView)
    ensures
        assembled(
            s.owner_id,
            s.assets,
            metas(s),
            ledgers(s),
            s.min_staking_amount,
            s.refund_percent,
        ) == s,
{
    let t = assembled(
        s.owner_id,
        s.assets,
        metas(s),
        ledgers(s),
        s.min_staking_amount,
        s.refund_percent,
    );
    assert(t.pools =~= s.pools);
}

} // verus!
