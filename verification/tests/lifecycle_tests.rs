use launchpad::{
    Launchpad, LaunchpadError, PoolMetadata, Request, Status, UserTokenDepositRecord,
    DEFAULT_MIN_STAKING, FULL_POWER, INIT_TIMEOUT, ONE_UNIT, SECONDS_PER_DAY, WAITING_GRACE,
};

const NOW: u64 = 1_700_000_000;

fn id(name: &str) -> String {
    name.to_string()
}

/// An engine owned by `admin` that holds the token `ft`.
fn engine() -> Launchpad {
    let mut lp = Launchpad::new(id("admin"));
    let asked = lp.add_token(&id("admin"), id("ft")).unwrap();
    assert_eq!(asked, Some(Request::RegisterStorage { token_id: id("ft") }));
    lp
}

/// Opens pool 1 for `creator` with the given target and takes it to `FUNDING`, with a window
/// of one day that starts at `NOW + 1`.
fn funding_pool(target: u128) -> Launchpad {
    let mut lp = engine();
    let pool = lp
        .init_pool(id("creator"), id("campaign1"), id("ft"), 1, target, DEFAULT_MIN_STAKING, NOW)
        .unwrap();
    assert_eq!(pool.pool_id, 1);
    lp.admin_set_status_pool_pre_funding(&id("admin"), 1, true).unwrap();
    lp.set_funding_pool_by_creator(&id("creator"), 1, NOW + 1, 1, NOW).unwrap();
    lp
}

fn window_end() -> u64 {
    NOW + 1 + SECONDS_PER_DAY
}

fn pledge(lp: &mut Launchpad, who: &str, amount: u128) {
    let back = lp.ft_on_transfer(id(who), &id("ft"), amount, "1", NOW + 10);
    assert_eq!(back, 0);
}

fn record_of(lp: &Launchpad, who: &str) -> UserTokenDepositRecord {
    let records = lp.get_user_records_by_pool_id(1).unwrap();
    records.iter().find(|r| r.user_id == who).unwrap().record
}

fn ledger_sum(lp: &Launchpad) -> u128 {
    match lp.get_user_records_by_pool_id(1) {
        Some(records) => records.iter().map(|r| r.record.amount).sum(),
        None => 0,
    }
}

fn pool(lp: &Launchpad) -> PoolMetadata {
    lp.get_detail_pool(1).unwrap()
}

/// A voting power in percent.
fn percent(voting_power: u128) -> f64 {
    voting_power as f64 / FULL_POWER as f64 * 100.0
}

#[test]
fn constants_have_their_values() {
    assert_eq!(DEFAULT_MIN_STAKING, 1_000_000_000_000_000_000_000);
    assert_eq!(ONE_UNIT, 1_000_000_000_000_000_000_000);
    assert_eq!(SECONDS_PER_DAY, 86_400);
    assert_eq!(INIT_TIMEOUT, 15 * 86_400);
    assert_eq!(WAITING_GRACE, 259_200);
    assert_eq!(WAITING_GRACE, 3 * SECONDS_PER_DAY);
    assert_eq!(FULL_POWER, u128::MAX);
}

#[test]
fn new_engine_is_empty() {
    let lp = Launchpad::new(id("admin"));
    assert_eq!(lp.owner_id(), "admin");
    assert_eq!(lp.get_min_staking_amount(), DEFAULT_MIN_STAKING);
    assert_eq!(lp.get_refund_reject_pool(), 0);
    assert!(!lp.is_token_supported(&id("ft")));
    assert_eq!(lp.get_all_pool(), None);
    assert_eq!(lp.get_detail_pool(1), None);
    assert_eq!(lp.get_detail_pool(0), None);
}

#[test]
fn a_new_pool_waits_for_review() {
    let mut lp = engine();
    let made = lp
        .init_pool(id("creator"), id("campaign1"), id("ft"), 10000, 10000000, DEFAULT_MIN_STAKING, NOW)
        .unwrap();
    let pool = lp.get_detail_pool(1).unwrap();
    assert_eq!(pool, made);
    assert_eq!(pool.creator_id, "creator");
    assert_eq!(pool.campaign_id, "campaign1");
    assert_eq!(pool.status, Status::INIT);
    assert_eq!(pool.pool_id, 1);
    assert_eq!(pool.token_id, "ft");
    assert_eq!(pool.staking_amount, DEFAULT_MIN_STAKING);
    assert_eq!(pool.total_balance, 0);
    assert_eq!(pool.target_funding, 10000000);
    assert_eq!(pool.min_multiple_pledge, 10000);
    assert_eq!(pool.time_init, NOW);
    assert_eq!(pool.time_start_pledge, 0);
    assert_eq!(pool.time_end_pledge, 0);
    assert_eq!(pool.funding_duration_days, 0);
    assert_eq!(lp.get_user_records_by_pool_id(1), None);
}

#[test]
fn pool_ids_count_up_from_one() {
    let mut lp = engine();
    for expected in 1..=3u64 {
        let pool = lp
            .init_pool(id("creator"), id("test"), id("ft"), 1, 5, DEFAULT_MIN_STAKING + expected as u128, NOW)
            .unwrap();
        assert_eq!(pool.pool_id, expected);
    }
    let all = lp.get_all_pool().unwrap();
    assert_eq!(all.len(), 3);
    assert_eq!(all[0].pool_id, 1);
    assert_eq!(all[2].pool_id, 3);
    assert_eq!(all[2].staking_amount, DEFAULT_MIN_STAKING + 3);
    assert_eq!(lp.get_detail_pool(4), None);
}

#[test]
fn init_pool_refuses_low_stake_and_unknown_token() {
    let mut lp = engine();
    assert_eq!(
        lp.init_pool(id("creator"), id("c"), id("ft"), 1, 5, DEFAULT_MIN_STAKING - 1, NOW),
        Err(LaunchpadError::InsufficientStake)
    );
    assert_eq!(
        lp.init_pool(id("creator"), id("c"), id("other"), 1, 5, DEFAULT_MIN_STAKING, NOW),
        Err(LaunchpadError::TokenNotSupported)
    );
    // the stake is checked first
    assert_eq!(
        lp.init_pool(id("creator"), id("c"), id("other"), 1, 5, 0, NOW),
        Err(LaunchpadError::InsufficientStake)
    );
    assert_eq!(lp.get_all_pool(), None);
}

#[test]
fn a_pool_goes_from_init_over_approved_to_funding() {
    let mut lp = engine();
    let made = lp.init_pool(id("creator"), id("c"), id("ft"), 1, 100, DEFAULT_MIN_STAKING, NOW);
    assert_eq!(made.unwrap().status, Status::INIT);
    let (approved, request) = lp.admin_set_status_pool_pre_funding(&id("admin"), 1, true).unwrap();
    assert_eq!(approved.status, Status::APPROVED);
    assert_eq!(request, None);
    assert_eq!(approved.staking_amount, DEFAULT_MIN_STAKING);
    assert_eq!(lp.set_funding_pool_by_creator(&id("creator"), 1, NOW + 1, 1, NOW), Ok(()));
    let p = pool(&lp);
    assert_eq!(p.status, Status::FUNDING);
    assert_eq!(p.time_start_pledge, NOW + 1);
    assert_eq!(p.time_end_pledge, NOW + 1 + 86_400);
    assert_eq!(p.funding_duration_days, 1);
    assert!(p.time_start_pledge < p.time_end_pledge);
}

#[test]
fn a_pool_that_reached_its_target_goes_to_voting() {
    let mut lp = funding_pool(100);
    pledge(&mut lp, "backer1", 40);
    pledge(&mut lp, "backer2", 60);
    assert_eq!(pool(&lp).total_balance, 100);
    let closed = lp.check_funding_result(&id("admin"), 1, false, window_end() + 1).unwrap();
    assert_eq!(closed.status, Status::VOTING);
    assert_eq!(closed.total_balance, 100);
    assert_eq!(closed.time_end_pledge, window_end());
    let first = record_of(&lp, "backer1");
    let second = record_of(&lp, "backer2");
    assert_eq!(first, UserTokenDepositRecord { amount: 40, voting_power: FULL_POWER / 5 * 2 });
    assert_eq!(second, UserTokenDepositRecord { amount: 60, voting_power: FULL_POWER / 5 * 3 });
    assert_eq!(first.voting_power, 136112946768375385385349842972707284582);
    assert_eq!(second.voting_power, 204169420152563078078024764459060926873);
    assert_eq!(first.voting_power + second.voting_power, FULL_POWER);
    assert_eq!(percent(first.voting_power), 40.0);
    assert_eq!(percent(second.voting_power), 60.0);
}

#[test]
fn four_fifths_with_waiting_allowed_goes_to_waiting() {
    let mut lp = funding_pool(200);
    pledge(&mut lp, "backer1", 100);
    pledge(&mut lp, "backer2", 60);
    let closed = lp.check_funding_result(&id("admin"), 1, true, window_end() + 1).unwrap();
    assert_eq!(closed.status, Status::WAITING);
    assert_eq!(closed.time_end_pledge, window_end() + 259_200);
    assert_eq!(pool(&lp), closed);
}

#[test]
fn ninety_of_two_hundred_is_below_four_fifths() {
    let mut lp = funding_pool(200);
    pledge(&mut lp, "backer1", 90);
    let closed = lp.check_funding_result(&id("admin"), 1, true, window_end() + 1).unwrap();
    assert_eq!(closed.status, Status::REFUNDED);
    assert_eq!(closed.time_end_pledge, window_end());
}

#[test]
fn ninety_of_one_hundred_waits_when_allowed() {
    let mut lp = funding_pool(100);
    pledge(&mut lp, "backer1", 90);
    let closed = lp.check_funding_result(&id("admin"), 1, true, window_end() + 1).unwrap();
    assert_eq!(closed.status, Status::WAITING);
    assert_eq!(closed.time_end_pledge - window_end(), 259_200);
}

#[test]
fn four_fifths_without_waiting_allowed_is_refunded() {
    let mut lp = funding_pool(200);
    pledge(&mut lp, "backer1", 199);
    let closed = lp.check_funding_result(&id("admin"), 1, false, window_end() + 1).unwrap();
    assert_eq!(closed.status, Status::REFUNDED);
    assert_eq!(closed.time_end_pledge, window_end());
}

#[test]
fn four_fifths_is_not_rounded_down() {
    // four fifths of 3 is 2.4: a balance of 2 does not reach it, a balance of 3 reaches the target
    let mut lp = funding_pool(3);
    pledge(&mut lp, "backer1", 2);
    let closed = lp.check_funding_result(&id("admin"), 1, true, window_end() + 1).unwrap();
    assert_eq!(closed.status, Status::REFUNDED);
    // four fifths of 4 is 3.2, of 5 is 4
    let mut lp = funding_pool(5);
    pledge(&mut lp, "backer1", 4);
    let closed = lp.check_funding_result(&id("admin"), 1, true, window_end() + 1).unwrap();
    assert_eq!(closed.status, Status::WAITING);
}

#[test]
fn a_pool_with_no_pledge_fails() {
    let mut lp = funding_pool(100);
    let closed = lp.check_funding_result(&id("admin"), 1, true, window_end() + 1).unwrap();
    assert_eq!(closed.status, Status::FAILED);
    assert_eq!(lp.get_user_records_by_pool_id(1), None);
}

#[test]
fn pledges_of_nothing_fail_the_pool_and_set_no_power() {
    let mut lp = funding_pool(100);
    pledge(&mut lp, "backer1", 0);
    let closed = lp.check_funding_result(&id("admin"), 1, true, window_end() + 1).unwrap();
    assert_eq!(closed.status, Status::FAILED);
    assert_eq!(record_of(&lp, "backer1"), UserTokenDepositRecord { amount: 0, voting_power: 0 });
}

#[test]
fn zero_target_with_a_balance_goes_to_voting() {
    let mut lp = funding_pool(0);
    pledge(&mut lp, "backer1", 1);
    let closed = lp.check_funding_result(&id("admin"), 1, false, window_end() + 1).unwrap();
    assert_eq!(closed.status, Status::VOTING);
    let mut lp = funding_pool(0);
    let closed = lp.check_funding_result(&id("admin"), 1, false, window_end() + 1).unwrap();
    assert_eq!(closed.status, Status::FAILED);
}

#[test]
fn a_claim_pays_the_share_once() {
    let mut lp = funding_pool(200);
    pledge(&mut lp, "backer1", 40);
    pledge(&mut lp, "backer2", 60);
    let closed = lp.check_funding_result(&id("admin"), 1, false, window_end() + 1).unwrap();
    assert_eq!(closed.status, Status::REFUNDED);
    assert_eq!(closed.total_balance, 100);
    assert_eq!(percent(record_of(&lp, "backer1").voting_power), 40.0);
    let paid = lp.claim_refund(&id("backer1"), 1).unwrap();
    assert_eq!(
        paid,
        Request::TransferToken { token_id: id("ft"), receiver_id: id("backer1"), amount: 40 }
    );
    assert_eq!(
        record_of(&lp, "backer1"),
        UserTokenDepositRecord { amount: 0, voting_power: FULL_POWER / 5 * 2 }
    );
    assert_eq!(pool(&lp).total_balance, 100);
    assert_eq!(lp.claim_refund(&id("backer1"), 1), Err(LaunchpadError::NothingToClaim));
    assert_eq!(lp.claim_refund(&id("backer1"), 1), Err(LaunchpadError::NothingToClaim));
    // the other backer's share is taken of the same balance
    let paid = lp.claim_refund(&id("backer2"), 1).unwrap();
    assert_eq!(
        paid,
        Request::TransferToken { token_id: id("ft"), receiver_id: id("backer2"), amount: 60 }
    );
    assert_eq!(lp.claim_refund(&id("backer2"), 1), Err(LaunchpadError::NothingToClaim));
    assert_eq!(pool(&lp).total_balance, 100);
    assert_eq!(pool(&lp).status, Status::REFUNDED);
}

#[test]
fn a_pool_unreviewed_for_15_days_is_rejected() {
    let mut lp = engine();
    lp.set_refund_reject_pool(&id("admin"), 50).unwrap();
    lp.init_pool(id("creator"), id("c"), id("ft"), 1, 100, DEFAULT_MIN_STAKING + 3, NOW).unwrap();
    let deadline = NOW + 15 * 86_400;
    assert_eq!(
        lp.admin_check_pool_status_after_init_15days(1, deadline),
        Err(LaunchpadError::TimeoutNotReached)
    );
    assert_eq!(pool(&lp).status, Status::INIT);
    assert_eq!(pool(&lp).staking_amount, DEFAULT_MIN_STAKING + 3);
    let request = lp.admin_check_pool_status_after_init_15days(1, deadline + 1).unwrap();
    assert_eq!(
        request,
        Request::TransferNative { receiver_id: id("creator"), amount: (DEFAULT_MIN_STAKING + 3) / 2 }
    );
    assert_eq!(pool(&lp).status, Status::REJECTED);
    assert_eq!(pool(&lp).staking_amount, 0);
    assert_eq!(
        lp.admin_check_pool_status_after_init_15days(1, deadline + 2),
        Err(LaunchpadError::WrongStatus)
    );
    assert_eq!(
        lp.admin_check_pool_status_after_init_15days(2, deadline + 2),
        Err(LaunchpadError::PoolNotFound)
    );
}

#[test]
fn timeout_is_not_reached_before_creation_or_near_the_end_of_time() {
    let mut lp = engine();
    lp.init_pool(id("creator"), id("c"), id("ft"), 1, 100, DEFAULT_MIN_STAKING, u64::MAX - 5).unwrap();
    assert_eq!(
        lp.admin_check_pool_status_after_init_15days(1, u64::MAX),
        Err(LaunchpadError::TimeoutNotReached)
    );
    assert_eq!(
        lp.admin_check_pool_status_after_init_15days(1, 0),
        Err(LaunchpadError::TimeoutNotReached)
    );
}

#[test]
fn rejection_with_zero_percent_pays_one_unit() {
    let mut lp = engine();
    lp.init_pool(id("creator"), id("c"), id("ft"), 1, 100, 5 * DEFAULT_MIN_STAKING, NOW).unwrap();
    let (rejected, request) = lp.admin_set_status_pool_pre_funding(&id("admin"), 1, false).unwrap();
    assert_eq!(rejected.status, Status::REJECTED);
    assert_eq!(rejected.staking_amount, 0);
    assert_eq!(
        request,
        Some(Request::TransferNative { receiver_id: id("creator"), amount: ONE_UNIT })
    );
}

#[test]
fn rejection_pays_the_percentage_rounded_down() {
    let mut lp = engine();
    lp.set_refund_reject_pool(&id("admin"), 33).unwrap();
    lp.init_pool(id("creator"), id("c"), id("ft"), 1, 100, DEFAULT_MIN_STAKING + 1, NOW).unwrap();
    let (_, request) = lp.admin_set_status_pool_pre_funding(&id("admin"), 1, false).unwrap();
    assert_eq!(
        request,
        Some(Request::TransferNative {
            receiver_id: id("creator"),
            amount: 330_000_000_000_000_000_000
        })
    );
    let mut lp = engine();
    lp.set_refund_reject_pool(&id("admin"), 100).unwrap();
    lp.init_pool(id("creator"), id("c"), id("ft"), 1, 100, u128::MAX, NOW).unwrap();
    let (_, request) = lp.admin_set_status_pool_pre_funding(&id("admin"), 1, false).unwrap();
    assert_eq!(
        request,
        Some(Request::TransferNative { receiver_id: id("creator"), amount: u128::MAX })
    );
}

#[test]
fn review_errors() {
    let mut lp = engine();
    lp.init_pool(id("creator"), id("c"), id("ft"), 1, 100, DEFAULT_MIN_STAKING, NOW).unwrap();
    assert_eq!(
        lp.admin_set_status_pool_pre_funding(&id("creator"), 1, true),
        Err(LaunchpadError::Unauthorized)
    );
    assert_eq!(
        lp.admin_set_status_pool_pre_funding(&id("admin"), 2, true),
        Err(LaunchpadError::PoolNotFound)
    );
    assert_eq!(
        lp.admin_set_status_pool_pre_funding(&id("admin"), 0, true),
        Err(LaunchpadError::PoolNotFound)
    );
    lp.admin_set_status_pool_pre_funding(&id("admin"), 1, true).unwrap();
    assert_eq!(
        lp.admin_set_status_pool_pre_funding(&id("admin"), 1, false),
        Err(LaunchpadError::WrongStatus)
    );
    assert_eq!(pool(&lp).status, Status::APPROVED);
    assert_eq!(pool(&lp).staking_amount, DEFAULT_MIN_STAKING);
}

#[test]
fn cancel_returns_the_whole_stake() {
    let mut lp = engine();
    lp.set_refund_reject_pool(&id("admin"), 10).unwrap();
    lp.init_pool(id("creator"), id("c"), id("ft"), 1, 100, DEFAULT_MIN_STAKING + 7, NOW).unwrap();
    assert_eq!(lp.cancel_pool(&id("admin"), 1), Err(LaunchpadError::Unauthorized));
    assert_eq!(lp.cancel_pool(&id("creator"), 9), Err(LaunchpadError::PoolNotFound));
    let (canceled, request) = lp.cancel_pool(&id("creator"), 1).unwrap();
    assert_eq!(canceled.status, Status::CANCELED);
    assert_eq!(canceled.staking_amount, 0);
    assert_eq!(
        request,
        Request::TransferNative { receiver_id: id("creator"), amount: DEFAULT_MIN_STAKING + 7 }
    );
    assert_eq!(lp.cancel_pool(&id("creator"), 1), Err(LaunchpadError::WrongStatus));
    assert_eq!(
        lp.admin_set_status_pool_pre_funding(&id("admin"), 1, false),
        Err(LaunchpadError::WrongStatus)
    );
    assert_eq!(pool(&lp).staking_amount, 0);
}

#[test]
fn funding_window_errors() {
    let mut lp = engine();
    lp.init_pool(id("creator"), id("c"), id("ft"), 1, 100, DEFAULT_MIN_STAKING, NOW).unwrap();
    let creator = id("creator");
    assert_eq!(
        lp.set_funding_pool_by_creator(&creator, 2, NOW + 1, 1, NOW),
        Err(LaunchpadError::PoolNotFound)
    );
    assert_eq!(
        lp.set_funding_pool_by_creator(&id("admin"), 1, NOW + 1, 1, NOW),
        Err(LaunchpadError::Unauthorized)
    );
    assert_eq!(
        lp.set_funding_pool_by_creator(&creator, 1, NOW + 1, 1, NOW),
        Err(LaunchpadError::WrongStatus)
    );
    lp.admin_set_status_pool_pre_funding(&id("admin"), 1, true).unwrap();
    assert_eq!(
        lp.set_funding_pool_by_creator(&creator, 1, NOW + 1, 0, NOW),
        Err(LaunchpadError::InvalidDuration)
    );
    assert_eq!(
        lp.set_funding_pool_by_creator(&creator, 1, NOW, 1, NOW),
        Err(LaunchpadError::StartNotInFuture)
    );
    assert_eq!(
        lp.set_funding_pool_by_creator(&creator, 1, NOW + 1, u64::MAX, NOW),
        Err(LaunchpadError::Overflow)
    );
    assert_eq!(
        lp.set_funding_pool_by_creator(&creator, 1, u64::MAX - 86_399, 1, NOW),
        Err(LaunchpadError::Overflow)
    );
    assert_eq!(pool(&lp).status, Status::APPROVED);
    assert_eq!(lp.set_funding_pool_by_creator(&creator, 1, u64::MAX - 86_400, 1, NOW), Ok(()));
    assert_eq!(pool(&lp).time_end_pledge, u64::MAX);
    assert_eq!(
        lp.set_funding_pool_by_creator(&creator, 1, NOW + 1, 1, NOW),
        Err(LaunchpadError::WrongStatus)
    );
}

#[test]
fn settings_are_for_the_admin_and_stay_in_range() {
    let mut lp = engine();
    assert_eq!(lp.set_refund_reject_pool(&id("x"), 5), Err(LaunchpadError::Unauthorized));
    assert_eq!(lp.set_refund_reject_pool(&id("admin"), 101), Err(LaunchpadError::InvalidPercent));
    assert_eq!(lp.get_refund_reject_pool(), 0);
    assert_eq!(lp.set_refund_reject_pool(&id("admin"), 100), Ok(()));
    assert_eq!(lp.get_refund_reject_pool(), 100);
    assert_eq!(
        lp.set_min_staking_amount(&id("x"), 2 * DEFAULT_MIN_STAKING),
        Err(LaunchpadError::Unauthorized)
    );
    assert_eq!(
        lp.set_min_staking_amount(&id("admin"), DEFAULT_MIN_STAKING - 1),
        Err(LaunchpadError::MinStakingTooLow)
    );
    assert_eq!(lp.get_min_staking_amount(), DEFAULT_MIN_STAKING);
    assert_eq!(lp.set_min_staking_amount(&id("admin"), 2 * DEFAULT_MIN_STAKING), Ok(()));
    assert_eq!(lp.get_min_staking_amount(), 2 * DEFAULT_MIN_STAKING);
    assert_eq!(
        lp.init_pool(id("creator"), id("c"), id("ft"), 1, 5, 2 * DEFAULT_MIN_STAKING - 1, NOW),
        Err(LaunchpadError::InsufficientStake)
    );
}

#[test]
fn registry_is_for_the_admin_and_registers_once() {
    let mut lp = Launchpad::new(id("admin"));
    assert_eq!(lp.add_token(&id("x"), id("ft")), Err(LaunchpadError::Unauthorized));
    assert!(!lp.is_token_supported(&id("ft")));
    assert_eq!(
        lp.add_token(&id("admin"), id("ft")),
        Ok(Some(Request::RegisterStorage { token_id: id("ft") }))
    );
    assert!(lp.is_token_supported(&id("ft")));
    assert_eq!(lp.add_token(&id("admin"), id("ft")), Ok(None));
    assert_eq!(
        lp.add_token(&id("admin"), id("ft2")),
        Ok(Some(Request::RegisterStorage { token_id: id("ft2") }))
    );
    assert!(lp.is_token_supported(&id("ft2")));
    assert_eq!(lp.delete_token_by_token_id(&id("x"), &id("ft")), Err(LaunchpadError::Unauthorized));
    assert_eq!(lp.delete_token_by_token_id(&id("admin"), &id("ft")), Ok(()));
    assert!(lp.is_token_supported(&id("ft")));
}

#[test]
fn admin_can_be_changed_by_the_admin_only() {
    let mut lp = engine();
    assert_eq!(lp.change_admin(&id("x"), id("x")), Err(LaunchpadError::Unauthorized));
    assert_eq!(lp.owner_id(), "admin");
    assert_eq!(lp.change_admin(&id("admin"), id("next")), Ok(()));
    assert_eq!(lp.owner_id(), "next");
    assert_eq!(lp.add_token(&id("admin"), id("t")), Err(LaunchpadError::Unauthorized));
    assert_eq!(lp.add_token(&id("next"), id("ft")), Ok(None));
}

#[test]
fn pledges_add_up_per_backer_and_in_the_balance() {
    let mut lp = funding_pool(1000);
    pledge(&mut lp, "backer1", 10);
    pledge(&mut lp, "backer2", 20);
    pledge(&mut lp, "backer1", 5);
    assert_eq!(record_of(&lp, "backer1"), UserTokenDepositRecord { amount: 15, voting_power: 0 });
    assert_eq!(record_of(&lp, "backer2"), UserTokenDepositRecord { amount: 20, voting_power: 0 });
    let records = lp.get_user_records_by_pool_id(1).unwrap();
    assert_eq!(records.len(), 2);
    assert_eq!(records[0].user_id, "backer1");
    assert_eq!(records[1].user_id, "backer2");
    assert_eq!(pool(&lp).total_balance, 35);
    assert_eq!(lp.get_balance_creator(1), Some(35));
    assert_eq!(lp.get_balance_creator(2), None);
    assert_eq!(ledger_sum(&lp), 35);
}

#[test]
fn refused_pledges_go_back_whole() {
    let mut lp = funding_pool(1000);
    lp.add_token(&id("admin"), id("ft2")).unwrap();
    let before = pool(&lp);
    // a token that is not registered
    assert_eq!(lp.ft_on_transfer(id("b"), &id("nope"), 7, "1", NOW + 10), 7);
    // a memo that names no pool
    assert_eq!(lp.ft_on_transfer(id("b"), &id("ft"), 7, "one", NOW + 10), 7);
    assert_eq!(lp.ft_on_transfer(id("b"), &id("ft"), 7, "", NOW + 10), 7);
    assert_eq!(lp.ft_on_transfer(id("b"), &id("ft"), 7, " 1", NOW + 10), 7);
    assert_eq!(lp.ft_on_transfer(id("b"), &id("ft"), 7, "-1", NOW + 10), 7);
    // a pool that does not exist
    assert_eq!(lp.ft_on_transfer(id("b"), &id("ft"), 7, "2", NOW + 10), 7);
    assert_eq!(lp.ft_on_transfer(id("b"), &id("ft"), 7, "0", NOW + 10), 7);
    // outside the window
    assert_eq!(lp.ft_on_transfer(id("b"), &id("ft"), 7, "1", NOW), 7);
    assert_eq!(lp.ft_on_transfer(id("b"), &id("ft"), 7, "1", window_end() + 1), 7);
    // another token than the pool's
    assert_eq!(lp.ft_on_transfer(id("b"), &id("ft2"), 7, "1", NOW + 10), 7);
    assert_eq!(pool(&lp), before);
    assert_eq!(lp.get_user_records_by_pool_id(1), None);
    // the ends of the window are open for pledges
    assert_eq!(lp.ft_on_transfer(id("b"), &id("ft"), 7, "1", NOW + 1), 0);
    assert_eq!(lp.ft_on_transfer(id("b"), &id("ft"), 7, "+1", window_end()), 0);
    assert_eq!(lp.ft_on_transfer(id("b"), &id("ft"), 7, "0001", window_end()), 0);
    assert_eq!(pool(&lp).total_balance, 21);
}

#[test]
fn pledges_to_a_pool_that_is_not_funding_go_back() {
    let mut lp = engine();
    lp.init_pool(id("creator"), id("c"), id("ft"), 1, 100, DEFAULT_MIN_STAKING, NOW).unwrap();
    assert_eq!(lp.ft_on_transfer(id("b"), &id("ft"), 7, "1", NOW + 10), 7);
    lp.admin_set_status_pool_pre_funding(&id("admin"), 1, true).unwrap();
    assert_eq!(lp.ft_on_transfer(id("b"), &id("ft"), 7, "1", NOW + 10), 7);
    assert_eq!(pool(&lp).total_balance, 0);
}

#[test]
fn pledges_that_would_overflow_go_back() {
    let mut lp = funding_pool(1000);
    pledge(&mut lp, "backer1", u128::MAX - 1);
    assert_eq!(lp.ft_on_transfer(id("backer2"), &id("ft"), 2, "1", NOW + 10), 2);
    assert_eq!(lp.ft_on_transfer(id("backer1"), &id("ft"), 2, "1", NOW + 10), 2);
    assert_eq!(pool(&lp).total_balance, u128::MAX - 1);
    assert_eq!(lp.ft_on_transfer(id("backer2"), &id("ft"), 1, "1", NOW + 10), 0);
    assert_eq!(pool(&lp).total_balance, u128::MAX);
    assert_eq!(ledger_sum_checked(&lp), Some(u128::MAX));
}

fn ledger_sum_checked(lp: &Launchpad) -> Option<u128> {
    let records = lp.get_user_records_by_pool_id(1)?;
    records.iter().try_fold(0u128, |acc, r| acc.checked_add(r.record.amount))
}

#[test]
fn close_errors() {
    let mut lp = funding_pool(100);
    pledge(&mut lp, "backer1", 10);
    let admin = id("admin");
    assert_eq!(
        lp.check_funding_result(&admin, 2, false, window_end() + 1),
        Err(LaunchpadError::PoolNotFound)
    );
    assert_eq!(
        lp.check_funding_result(&id("creator"), 1, false, window_end() + 1),
        Err(LaunchpadError::Unauthorized)
    );
    assert_eq!(
        lp.check_funding_result(&admin, 1, false, window_end()),
        Err(LaunchpadError::FundingNotEnded)
    );
    assert_eq!(pool(&lp).status, Status::FUNDING);
    assert_eq!(record_of(&lp, "backer1").voting_power, 0);
    lp.check_funding_result(&admin, 1, false, window_end() + 1).unwrap();
    assert_eq!(
        lp.check_funding_result(&admin, 1, false, window_end() + 1),
        Err(LaunchpadError::WrongStatus)
    );
}

#[test]
fn waiting_grace_that_leaves_the_clock_is_refused() {
    let mut lp = engine();
    lp.init_pool(id("creator"), id("c"), id("ft"), 1, 100, DEFAULT_MIN_STAKING, NOW).unwrap();
    lp.admin_set_status_pool_pre_funding(&id("admin"), 1, true).unwrap();
    lp.set_funding_pool_by_creator(&id("creator"), 1, u64::MAX - 86_400 - 1, 1, NOW).unwrap();
    assert_eq!(lp.ft_on_transfer(id("b"), &id("ft"), 90, "1", u64::MAX - 1), 0);
    assert_eq!(
        lp.check_funding_result(&id("admin"), 1, true, u64::MAX),
        Err(LaunchpadError::Overflow)
    );
    assert_eq!(pool(&lp).status, Status::FUNDING);
    assert_eq!(record_of(&lp, "b").voting_power, 0);
    let closed = lp.check_funding_result(&id("admin"), 1, false, u64::MAX).unwrap();
    assert_eq!(closed.status, Status::REFUNDED);
}

#[test]
fn creator_decides_after_waiting() {
    for approve in [true, false] {
        let mut lp = funding_pool(100);
        pledge(&mut lp, "backer1", 80);
        assert_eq!(lp.creator_accept_voting(&id("creator"), 1, approve), Err(LaunchpadError::WrongStatus));
        lp.check_funding_result(&id("admin"), 1, true, window_end() + 1).unwrap();
        assert_eq!(lp.creator_accept_voting(&id("admin"), 1, approve), Err(LaunchpadError::Unauthorized));
        assert_eq!(lp.creator_accept_voting(&id("creator"), 2, approve), Err(LaunchpadError::PoolNotFound));
        let decided = lp.creator_accept_voting(&id("creator"), 1, approve).unwrap();
        assert_eq!(decided.status, if approve { Status::VOTING } else { Status::REFUNDED });
        assert_eq!(pool(&lp), decided);
        assert_eq!(record_of(&lp, "backer1").voting_power, FULL_POWER);
    }
}

#[test]
fn withdrawal_takes_from_the_balance() {
    let mut lp = funding_pool(100);
    pledge(&mut lp, "backer1", 100);
    let admin = id("admin");
    assert_eq!(lp.withdraw_to_creator(&admin, 1, 1), Err(LaunchpadError::WrongStatus));
    lp.check_funding_result(&admin, 1, false, window_end() + 1).unwrap();
    assert_eq!(lp.withdraw_to_creator(&id("creator"), 1, 1), Err(LaunchpadError::Unauthorized));
    assert_eq!(lp.withdraw_to_creator(&admin, 2, 1), Err(LaunchpadError::PoolNotFound));
    assert_eq!(lp.withdraw_to_creator(&admin, 1, 101), Err(LaunchpadError::InsufficientBalance));
    assert_eq!(pool(&lp).total_balance, 100);
    assert_eq!(
        lp.withdraw_to_creator(&admin, 1, 30),
        Ok(Request::TransferToken { token_id: id("ft"), receiver_id: id("creator"), amount: 30 })
    );
    assert_eq!(pool(&lp).total_balance, 70);
    assert_eq!(pool(&lp).status, Status::VOTING);
    assert_eq!(ledger_sum(&lp), 100);
    assert_eq!(lp.withdraw_to_creator(&admin, 1, 71), Err(LaunchpadError::InsufficientBalance));
    assert_eq!(
        lp.withdraw_to_creator(&admin, 1, 70),
        Ok(Request::TransferToken { token_id: id("ft"), receiver_id: id("creator"), amount: 70 })
    );
    assert_eq!(pool(&lp).total_balance, 0);
    assert_eq!(
        lp.withdraw_to_creator(&admin, 1, 0),
        Ok(Request::TransferToken { token_id: id("ft"), receiver_id: id("creator"), amount: 0 })
    );
}

#[test]
fn claim_errors() {
    let mut lp = funding_pool(1000);
    pledge(&mut lp, "backer1", 100);
    assert_eq!(lp.claim_refund(&id("backer1"), 2), Err(LaunchpadError::PoolNotFound));
    assert_eq!(lp.claim_refund(&id("backer1"), 1), Err(LaunchpadError::WrongStatus));
    lp.check_funding_result(&id("admin"), 1, false, window_end() + 1).unwrap();
    assert_eq!(pool(&lp).status, Status::REFUNDED);
    assert_eq!(lp.claim_refund(&id("stranger"), 1), Err(LaunchpadError::RecordNotFound));
    assert_eq!(
        lp.claim_refund(&id("backer1"), 1),
        Ok(Request::TransferToken { token_id: id("ft"), receiver_id: id("backer1"), amount: 100 })
    );
    assert_eq!(lp.claim_refund(&id("backer1"), 1), Err(LaunchpadError::NothingToClaim));
}

#[test]
fn claim_on_a_pool_without_ledger_finds_no_record() {
    let mut lp = funding_pool(1000);
    lp.update_pool_status(&id("admin"), 1, "REFUNDED").unwrap();
    assert_eq!(lp.claim_refund(&id("backer1"), 1), Err(LaunchpadError::RecordNotFound));
}

#[test]
fn a_share_of_less_than_one_unit_cannot_be_claimed() {
    let mut lp = funding_pool(u128::MAX);
    pledge(&mut lp, "small", 1);
    pledge(&mut lp, "large", 1_000_000_000);
    lp.check_funding_result(&id("admin"), 1, false, window_end() + 1).unwrap();
    assert_eq!(record_of(&lp, "small").voting_power, 340282366580656096882718510549);
    assert_eq!(record_of(&lp, "large").voting_power, 340282366580656096882718510549049700905);
    // the power of the pledge of 1 was rounded down, and so is its share of the balance
    assert_eq!(lp.claim_refund(&id("small"), 1), Err(LaunchpadError::NothingToClaim));
    assert_eq!(record_of(&lp, "small").amount, 1);
    // the pledge of 1_000_000_000 is paid one unit less
    assert_eq!(
        lp.claim_refund(&id("large"), 1),
        Ok(Request::TransferToken {
            token_id: id("ft"),
            receiver_id: id("large"),
            amount: 999_999_999
        })
    );
}

#[test]
fn a_claim_pays_the_pledge_or_one_unit_less() {
    let mut lp = funding_pool(u128::MAX);
    pledge(&mut lp, "backer1", 10_000_000_000);
    pledge(&mut lp, "backer2", 20_000_000_000);
    lp.check_funding_result(&id("admin"), 1, false, window_end() + 1).unwrap();
    assert_eq!(pool(&lp).status, Status::REFUNDED);
    assert_eq!(pool(&lp).total_balance, 30_000_000_000);
    assert_eq!(
        lp.claim_refund(&id("backer1"), 1),
        Ok(Request::TransferToken {
            token_id: id("ft"),
            receiver_id: id("backer1"),
            amount: 10_000_000_000
        })
    );
    assert_eq!(
        lp.claim_refund(&id("backer2"), 1),
        Ok(Request::TransferToken {
            token_id: id("ft"),
            receiver_id: id("backer2"),
            amount: 20_000_000_000
        })
    );
    // a third that is no whole share of the balance
    let mut lp = funding_pool(u128::MAX);
    pledge(&mut lp, "backer1", 10_000_000_000);
    pledge(&mut lp, "backer2", 20_000_000_001);
    lp.check_funding_result(&id("admin"), 1, false, window_end() + 1).unwrap();
    assert_eq!(
        lp.claim_refund(&id("backer1"), 1),
        Ok(Request::TransferToken {
            token_id: id("ft"),
            receiver_id: id("backer1"),
            amount: 9_999_999_999
        })
    );
    assert_eq!(
        lp.claim_refund(&id("backer2"), 1),
        Ok(Request::TransferToken {
            token_id: id("ft"),
            receiver_id: id("backer2"),
            amount: 20_000_000_000
        })
    );
}

#[test]
fn claims_fall_short_of_pledges_by_one_unit_at_most() {
    let pledges: [u128; 6] = [1, 2, 3, 1_000, 999_999_999_999, 123_456_789_012_345_678_901_234];
    let mut lp = funding_pool(u128::MAX);
    for (k, amount) in pledges.iter().enumerate() {
        pledge(&mut lp, &format!("backer{}", k), *amount);
    }
    let total: u128 = pledges.iter().sum();
    lp.check_funding_result(&id("admin"), 1, false, window_end() + 1).unwrap();
    assert_eq!(pool(&lp).total_balance, total);
    let mut paid: u128 = 0;
    for (k, amount) in pledges.iter().enumerate() {
        match lp.claim_refund(&format!("backer{}", k), 1) {
            Ok(Request::TransferToken { amount: payout, .. }) => {
                assert!(payout == *amount || payout + 1 == *amount);
                paid += payout;
            },
            Err(LaunchpadError::NothingToClaim) => assert_eq!(*amount, 1),
            other => panic!("a claim pays tokens or finds nothing to pay: {:?}", other),
        }
    }
    assert!(paid <= total);
    assert!(paid + pledges.len() as u128 >= total);
}

#[test]
fn voting_powers_are_rounded_down_and_add_up_to_nearly_all() {
    let mut lp = funding_pool(u128::MAX);
    for k in 0..7 {
        pledge(&mut lp, &format!("backer{}", k), 1);
    }
    lp.check_funding_result(&id("admin"), 1, false, window_end() + 1).unwrap();
    let records = lp.get_user_records_by_pool_id(1).unwrap();
    assert_eq!(records.len(), 7);
    for r in records.iter() {
        assert_eq!(r.record.voting_power, 48611766702991209066196372490252601636);
        assert_eq!(r.record.voting_power, FULL_POWER / 7);
    }
    let sum: u128 = records.iter().map(|r| r.record.voting_power).sum();
    assert_eq!(sum, FULL_POWER - 3);
    assert!(sum <= FULL_POWER);
    assert!(FULL_POWER - sum < records.len() as u128);
    assert!((100.0 - percent(sum)).abs() <= 1e-6 * records.len() as f64);
    // a seventh of the balance of 7, rounded down, is less than one unit
    assert_eq!(lp.claim_refund(&id("backer0"), 1), Err(LaunchpadError::NothingToClaim));
}

#[test]
fn voting_powers_of_whole_shares_are_exact() {
    let mut lp = funding_pool(u128::MAX);
    pledge(&mut lp, "a", 1);
    pledge(&mut lp, "b", 1);
    pledge(&mut lp, "c", 1);
    lp.check_funding_result(&id("admin"), 1, false, window_end() + 1).unwrap();
    let records = lp.get_user_records_by_pool_id(1).unwrap();
    for r in records.iter() {
        assert_eq!(r.record.voting_power, FULL_POWER / 3);
    }
    let sum: u128 = records.iter().map(|r| r.record.voting_power).sum();
    assert_eq!(sum, FULL_POWER);
    assert_eq!(
        lp.claim_refund(&id("a"), 1),
        Ok(Request::TransferToken { token_id: id("ft"), receiver_id: id("a"), amount: 1 })
    );
}

#[test]
fn voting_powers_of_huge_amounts_are_exact() {
    let mut lp = funding_pool(u128::MAX);
    let third = u128::MAX / 3;
    pledge(&mut lp, "a", third);
    pledge(&mut lp, "b", third);
    pledge(&mut lp, "c", third - 1);
    assert_eq!(pool(&lp).total_balance, u128::MAX - 1);
    let closed = lp.check_funding_result(&id("admin"), 1, false, window_end() + 1).unwrap();
    assert_eq!(closed.status, Status::REFUNDED);
    let records = lp.get_user_records_by_pool_id(1).unwrap();
    let sum: u128 = records.iter().map(|r| r.record.voting_power).sum();
    assert_eq!(records[0].record.voting_power, 113427455640312821154458202477256070485);
    assert_eq!(records[1].record.voting_power, 113427455640312821154458202477256070485);
    assert_eq!(records[2].record.voting_power, 113427455640312821154458202477256070484);
    assert_eq!(sum, FULL_POWER - 1);
    assert_eq!(
        lp.claim_refund(&id("a"), 1),
        Ok(Request::TransferToken { token_id: id("ft"), receiver_id: id("a"), amount: third - 1 })
    );
    assert_eq!(
        lp.claim_refund(&id("c"), 1),
        Ok(Request::TransferToken { token_id: id("ft"), receiver_id: id("c"), amount: third - 2 })
    );
}

#[test]
fn balance_is_the_sum_of_the_ledger_until_funds_move() {
    let mut lp = funding_pool(200);
    assert_eq!(pool(&lp).total_balance, ledger_sum(&lp));
    pledge(&mut lp, "backer1", 40);
    assert_eq!(pool(&lp).total_balance, ledger_sum(&lp));
    pledge(&mut lp, "backer2", 60);
    pledge(&mut lp, "backer1", 1);
    assert_eq!(pool(&lp).total_balance, ledger_sum(&lp));
    assert_eq!(lp.ft_on_transfer(id("backer3"), &id("ft"), 5, "2", NOW + 10), 5);
    assert_eq!(pool(&lp).total_balance, ledger_sum(&lp));
    lp.check_funding_result(&id("admin"), 1, false, window_end() + 1).unwrap();
    assert_eq!(pool(&lp).total_balance, 101);
    assert_eq!(ledger_sum(&lp), 101);
    // a claim empties the claimant's entry and leaves the balance
    lp.claim_refund(&id("backer2"), 1).unwrap();
    assert_eq!(pool(&lp).total_balance, 101);
    assert_eq!(ledger_sum(&lp), 41);
}

#[test]
fn stake_is_handed_back_once() {
    let mut lp = engine();
    lp.init_pool(id("creator"), id("c"), id("ft"), 1, 100, DEFAULT_MIN_STAKING, NOW).unwrap();
    lp.init_pool(id("creator"), id("c"), id("ft"), 1, 100, DEFAULT_MIN_STAKING, NOW).unwrap();
    lp.admin_set_status_pool_pre_funding(&id("admin"), 1, false).unwrap();
    assert_eq!(pool(&lp).staking_amount, 0);
    let late = NOW + INIT_TIMEOUT + 1;
    assert_eq!(lp.admin_check_pool_status_after_init_15days(1, late), Err(LaunchpadError::WrongStatus));
    assert_eq!(lp.cancel_pool(&id("creator"), 1), Err(LaunchpadError::WrongStatus));
    assert_eq!(
        lp.admin_set_status_pool_pre_funding(&id("admin"), 1, false),
        Err(LaunchpadError::WrongStatus)
    );
    // the other pool still holds its stake
    assert_eq!(lp.get_detail_pool(2).unwrap().staking_amount, DEFAULT_MIN_STAKING);
    assert_eq!(lp.get_detail_pool(2).unwrap().status, Status::INIT);
    // approval keeps the stake
    lp.admin_set_status_pool_pre_funding(&id("admin"), 2, true).unwrap();
    assert_eq!(lp.get_detail_pool(2).unwrap().staking_amount, DEFAULT_MIN_STAKING);
}

#[test]
fn final_statuses_accept_no_guarded_operation() {
    let mut lp = funding_pool(100);
    let closed = lp.check_funding_result(&id("admin"), 1, true, window_end() + 1).unwrap();
    assert_eq!(closed.status, Status::FAILED);
    let late = NOW + INIT_TIMEOUT + 1_000_000;
    assert_eq!(lp.admin_set_status_pool_pre_funding(&id("admin"), 1, true), Err(LaunchpadError::WrongStatus));
    assert_eq!(lp.admin_check_pool_status_after_init_15days(1, late), Err(LaunchpadError::WrongStatus));
    assert_eq!(lp.cancel_pool(&id("creator"), 1), Err(LaunchpadError::WrongStatus));
    assert_eq!(
        lp.set_funding_pool_by_creator(&id("creator"), 1, late + 1, 1, late),
        Err(LaunchpadError::WrongStatus)
    );
    assert_eq!(lp.ft_on_transfer(id("b"), &id("ft"), 1, "1", NOW + 10), 1);
    assert_eq!(lp.check_funding_result(&id("admin"), 1, true, late), Err(LaunchpadError::WrongStatus));
    assert_eq!(lp.creator_accept_voting(&id("creator"), 1, true), Err(LaunchpadError::WrongStatus));
    assert_eq!(lp.withdraw_to_creator(&id("admin"), 1, 0), Err(LaunchpadError::WrongStatus));
    assert_eq!(lp.claim_refund(&id("b"), 1), Err(LaunchpadError::WrongStatus));
    assert_eq!(pool(&lp), closed);
}

#[test]
fn override_sets_any_status() {
    let mut lp = funding_pool(100);
    let admin = id("admin");
    assert_eq!(lp.update_pool_status(&id("creator"), 1, "CLOSED"), Err(LaunchpadError::Unauthorized));
    assert_eq!(lp.update_pool_status(&admin, 2, "CLOSED"), Err(LaunchpadError::PoolNotFound));
    assert_eq!(lp.update_pool_status(&admin, 1, "closed"), Err(LaunchpadError::UnknownStatus));
    assert_eq!(lp.update_pool_status(&admin, 1, ""), Err(LaunchpadError::UnknownStatus));
    assert_eq!(lp.update_pool_status(&admin, 1, "INIT "), Err(LaunchpadError::UnknownStatus));
    assert_eq!(pool(&lp).status, Status::FUNDING);
    let names = [
        ("INIT", Status::INIT),
        ("APPROVED", Status::APPROVED),
        ("FUNDING", Status::FUNDING),
        ("REJECTED", Status::REJECTED),
        ("CANCELED", Status::CANCELED),
        ("FAILED", Status::FAILED),
        ("WAITING", Status::WAITING),
        ("REFUNDED", Status::REFUNDED),
        ("VOTING", Status::VOTING),
        ("CLOSED", Status::CLOSED),
        ("SUCCESSFUL", Status::SUCCESSFUL),
    ];
    let before = pool(&lp);
    for (name, status) in names {
        assert_eq!(Status::from_name(name), Some(status));
        assert_eq!(lp.update_pool_status(&admin, 1, name), Ok(()));
        let now = pool(&lp);
        assert_eq!(now.status, status);
        assert_eq!(now.staking_amount, before.staking_amount);
        assert_eq!(now.total_balance, before.total_balance);
        assert_eq!(now.time_end_pledge, before.time_end_pledge);
    }
    assert_eq!(Status::from_name("PAUSED"), None);
}

#[test]
fn listings_by_status() {
    let mut lp = engine();
    assert_eq!(lp.get_pools_by_status("INIT"), None);
    assert_eq!(lp.get_all_init_pools(), None);
    for _ in 0..4 {
        lp.init_pool(id("creator"), id("c"), id("ft"), 1, 100, DEFAULT_MIN_STAKING, NOW).unwrap();
    }
    lp.admin_set_status_pool_pre_funding(&id("admin"), 2, true).unwrap();
    lp.set_funding_pool_by_creator(&id("creator"), 2, NOW + 1, 1, NOW).unwrap();
    lp.admin_set_status_pool_pre_funding(&id("admin"), 3, false).unwrap();
    lp.update_pool_status(&id("admin"), 4, "CLOSED").unwrap();
    let ids = |pools: Option<Vec<PoolMetadata>>| -> Vec<u64> {
        pools.unwrap_or_default().iter().map(|p| p.pool_id).collect()
    };
    assert_eq!(ids(lp.get_all_pool()), vec![1, 2, 3, 4]);
    assert_eq!(ids(lp.get_pools_by_status("INIT")), vec![1]);
    assert_eq!(ids(lp.get_all_init_pools()), vec![1]);
    assert_eq!(ids(lp.get_pools_by_status("FUNDING")), vec![2]);
    assert_eq!(ids(lp.get_all_funding_pools()), vec![2]);
    assert_eq!(ids(lp.get_pools_by_status("REJECTED")), vec![3]);
    assert_eq!(ids(lp.get_all_closed_pools()), vec![4]);
    assert_eq!(lp.get_all_waiting_pools(), None);
    assert_eq!(lp.get_pools_by_status("WAITING"), None);
    assert_eq!(lp.get_pools_by_status("nothing"), None);
    lp.update_pool_status(&id("admin"), 1, "WAITING").unwrap();
    lp.update_pool_status(&id("admin"), 3, "WAITING").unwrap();
    assert_eq!(ids(lp.get_all_waiting_pools()), vec![1, 3]);
    assert_eq!(lp.get_pools_by_status("WAITING"), lp.get_all_waiting_pools());
    assert_eq!(lp.get_all_init_pools(), None);
}

#[test]
fn identity_of_a_pool_never_changes() {
    let mut lp = funding_pool(100);
    let before = pool(&lp);
    pledge(&mut lp, "backer1", 80);
    lp.check_funding_result(&id("admin"), 1, true, window_end() + 1).unwrap();
    lp.creator_accept_voting(&id("creator"), 1, true).unwrap();
    lp.withdraw_to_creator(&id("admin"), 1, 5).unwrap();
    lp.update_pool_status(&id("admin"), 1, "SUCCESSFUL").unwrap();
    lp.change_admin(&id("admin"), id("next")).unwrap();
    let after = pool(&lp);
    assert_eq!(after.pool_id, before.pool_id);
    assert_eq!(after.campaign_id, before.campaign_id);
    assert_eq!(after.creator_id, before.creator_id);
    assert_eq!(after.token_id, before.token_id);
    assert_eq!(after.target_funding, before.target_funding);
    assert_eq!(after.min_multiple_pledge, before.min_multiple_pledge);
    assert_eq!(after.time_init, before.time_init);
}

#[test]
fn an_engine_is_restored_from_its_parts() {
    let mut lp = funding_pool(100);
    lp.init_pool(id("creator2"), id("c2"), id("ft"), 1, 5, DEFAULT_MIN_STAKING, NOW).unwrap();
    pledge(&mut lp, "backer1", 40);
    pledge(&mut lp, "backer2", 60);
    lp.set_refund_reject_pool(&id("admin"), 7).unwrap();
    let copy = Launchpad::restore(
        lp.owner_id().clone(),
        lp.list_assets(),
        lp.get_all_pool().unwrap(),
        lp.list_user_records(),
        lp.get_min_staking_amount(),
        lp.get_refund_reject_pool(),
    )
    .unwrap();
    assert_eq!(copy.owner_id(), lp.owner_id());
    assert_eq!(copy.list_assets(), lp.list_assets());
    assert_eq!(copy.get_all_pool(), lp.get_all_pool());
    assert_eq!(copy.list_user_records(), lp.list_user_records());
    assert_eq!(copy.list_user_records().len(), 2);
    assert_eq!(copy.list_user_records()[1].len(), 0);
    assert_eq!(copy.get_refund_reject_pool(), 7);
    assert_eq!(copy.get_user_records_by_pool_id(1), lp.get_user_records_by_pool_id(1));
}

#[test]
fn parts_that_make_no_engine_are_refused() {
    let lp = funding_pool(100);
    let assets = || lp.list_assets();
    let pools = || lp.get_all_pool().unwrap();
    let ledgers = || lp.list_user_records();
    let entry = |who: &str| launchpad::UserRecordDetail {
        user_id: id(who),
        record: UserTokenDepositRecord { amount: 1, voting_power: 0 },
    };
    assert!(Launchpad::restore(id("a"), assets(), pools(), ledgers(), DEFAULT_MIN_STAKING, 100).is_some());
    // a percentage above 100
    assert!(Launchpad::restore(id("a"), assets(), pools(), ledgers(), DEFAULT_MIN_STAKING, 101).is_none());
    // a minimum stake below its floor
    assert!(Launchpad::restore(id("a"), assets(), pools(), ledgers(), DEFAULT_MIN_STAKING - 1, 0).is_none());
    // a ledger too many, a ledger too few
    assert!(Launchpad::restore(id("a"), assets(), pools(), vec![], DEFAULT_MIN_STAKING, 0).is_none());
    assert!(Launchpad::restore(id("a"), assets(), pools(), vec![vec![], vec![]], DEFAULT_MIN_STAKING, 0).is_none());
    // a token registered twice
    let mut twice = assets();
    twice.push(launchpad::Assets { token_id: id("ft"), balances: 0 });
    assert!(Launchpad::restore(id("a"), twice, pools(), ledgers(), DEFAULT_MIN_STAKING, 0).is_none());
    // a pool whose token is not registered
    assert!(Launchpad::restore(id("a"), vec![], pools(), ledgers(), DEFAULT_MIN_STAKING, 0).is_none());
    assert!(Launchpad::restore(id("a"), vec![], vec![], vec![], DEFAULT_MIN_STAKING, 0).is_some());
    // a pool under another id than its place
    let mut moved = pools();
    moved[0].pool_id = 2;
    assert!(Launchpad::restore(id("a"), assets(), moved, ledgers(), DEFAULT_MIN_STAKING, 0).is_none());
    // a backer with two entries
    let double = vec![vec![entry("b"), entry("c"), entry("b")]];
    assert!(Launchpad::restore(id("a"), assets(), pools(), double, DEFAULT_MIN_STAKING, 0).is_none());
    let single = vec![vec![entry("b"), entry("c")]];
    assert!(Launchpad::restore(id("a"), assets(), pools(), single, DEFAULT_MIN_STAKING, 0).is_some());
}

#[test]
fn voting_powers_that_leave_the_range_refuse_the_close() {
    let mut lp = funding_pool(1);
    let half = 1u128 << 127;
    pledge(&mut lp, "backer1", half);
    let closed = lp.check_funding_result(&id("admin"), 1, false, window_end() + 1).unwrap();
    assert_eq!(closed.status, Status::VOTING);
    lp.withdraw_to_creator(&id("admin"), 1, half - 1).unwrap();
    lp.update_pool_status(&id("admin"), 1, "FUNDING").unwrap();
    // a share of 2^127 in a balance of 1 has no place in 128 bits
    assert_eq!(
        lp.check_funding_result(&id("admin"), 1, false, window_end() + 1),
        Err(LaunchpadError::Overflow)
    );
    assert_eq!(pool(&lp).status, Status::FUNDING);
    assert_eq!(record_of(&lp, "backer1").voting_power, FULL_POWER);
}

#[test]
fn a_share_is_taken_of_the_balance_as_it_stands() {
    let mut lp = funding_pool(1000);
    pledge(&mut lp, "backer1", 60);
    pledge(&mut lp, "backer2", 40);
    lp.check_funding_result(&id("admin"), 1, false, window_end() + 1).unwrap();
    assert_eq!(pool(&lp).status, Status::REFUNDED);
    // the admin takes half of the balance out by way of VOTING
    lp.update_pool_status(&id("admin"), 1, "VOTING").unwrap();
    lp.withdraw_to_creator(&id("admin"), 1, 50).unwrap();
    lp.update_pool_status(&id("admin"), 1, "REFUNDED").unwrap();
    assert_eq!(
        lp.claim_refund(&id("backer1"), 1),
        Ok(Request::TransferToken { token_id: id("ft"), receiver_id: id("backer1"), amount: 30 })
    );
    assert_eq!(
        lp.claim_refund(&id("backer2"), 1),
        Ok(Request::TransferToken { token_id: id("ft"), receiver_id: id("backer2"), amount: 20 })
    );
}

#[test]
fn test_init_pool() {
    let mut lp = engine();
    let creator = id("bob");
    lp.init_pool(creator.clone(), id("campaign1"), id("ft"), 1, 100, DEFAULT_MIN_STAKING, NOW)
        .unwrap();
    let pool = lp.get_detail_pool(1).unwrap();
    assert_eq!(pool.creator_id, creator);
    assert_eq!(pool.campaign_id, "campaign1");
    assert_eq!(pool.status, Status::INIT);
}
