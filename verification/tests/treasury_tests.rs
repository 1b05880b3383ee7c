use launchpad::treasury::{
    Booking, PaymentInfo, TokenDeposit, Treasury, TreasuryError, UserTokenDepositRecord,
};
use launchpad::{Assets, Request};

fn id(name: &str) -> String {
    name.to_string()
}

fn share(user: &str, amount: u128) -> PaymentInfo {
    PaymentInfo { user_id: id(user), amount }
}

fn treasury() -> Treasury {
    let mut t = Treasury::new(id("admin"));
    t.add_token(&id("admin"), id("ft")).unwrap();
    t.add_token(&id("admin"), id("ft2")).unwrap();
    t
}

#[test]
fn new_treasury_is_empty() {
    let t = Treasury::new(id("admin"));
    assert_eq!(t.owner_id(), "admin");
    assert_eq!(t.get_all_token_id(), None);
    assert_eq!(t.get_user_info_by_id(&id("ann")), None);
    assert_eq!(t.list_bookings(), vec![]);
}

#[test]
fn treasury_registry_is_for_the_admin_and_registers_once() {
    let mut t = Treasury::new(id("admin"));
    assert_eq!(t.add_token(&id("x"), id("ft")), Err(TreasuryError::Unauthorized));
    assert_eq!(
        t.add_token(&id("admin"), id("ft")),
        Ok(Some(Request::RegisterStorage { token_id: id("ft") }))
    );
    assert_eq!(t.add_token(&id("admin"), id("ft")), Ok(None));
    assert_eq!(t.add_token(&id("admin"), id("ft2")).unwrap().is_some(), true);
    assert_eq!(t.get_all_token_id(), Some(vec![id("ft"), id("ft2")]));
    assert!(t.is_token_supported(&id("ft2")));
    assert!(!t.is_token_supported(&id("ft3")));
    assert_eq!(t.delete_token_by_token_id(&id("x"), &id("ft")), Err(TreasuryError::Unauthorized));
    assert_eq!(t.delete_token_by_token_id(&id("admin"), &id("ft")), Ok(()));
    assert!(t.is_token_supported(&id("ft")));
    assert_eq!(t.change_admin(&id("x"), id("x")), Err(TreasuryError::Unauthorized));
    assert_eq!(t.change_admin(&id("admin"), id("next")), Ok(()));
    assert_eq!(t.owner_id(), "next");
    assert_eq!(t.add_token(&id("admin"), id("ft3")), Err(TreasuryError::Unauthorized));
}

#[test]
fn shares_are_booked_to_their_accounts() {
    let mut t = treasury();
    let shares = vec![share("ann", 10), share("bob", 20), share("ann", 5)];
    assert_eq!(t.ft_on_transfer(&id("ft"), &shares), Ok(0));
    assert_eq!(t.ft_on_transfer(&id("ft2"), &vec![share("ann", 1)]), Ok(0));
    assert_eq!(t.ft_on_transfer(&id("ft"), &vec![]), Ok(0));
    assert_eq!(
        t.get_user_info_by_id(&id("ann")),
        Some(UserTokenDepositRecord {
            user_id: id("ann"),
            deposits: vec![
                TokenDeposit { token_id: id("ft"), amount: 15 },
                TokenDeposit { token_id: id("ft2"), amount: 1 },
            ],
        })
    );
    assert_eq!(
        t.get_user_info_by_id(&id("bob")),
        Some(UserTokenDepositRecord {
            user_id: id("bob"),
            deposits: vec![TokenDeposit { token_id: id("ft"), amount: 20 }],
        })
    );
    assert_eq!(t.get_user_info_by_id(&id("eve")), None);
    assert_eq!(
        t.list_bookings(),
        vec![
            Booking { user_id: id("ann"), token_id: id("ft"), amount: 15 },
            Booking { user_id: id("bob"), token_id: id("ft"), amount: 20 },
            Booking { user_id: id("ann"), token_id: id("ft2"), amount: 1 },
        ]
    );
}

#[test]
fn a_token_that_is_not_registered_is_not_booked() {
    let mut t = treasury();
    assert_eq!(
        t.ft_on_transfer(&id("other"), &vec![share("ann", 10)]),
        Err(TreasuryError::TokenNotSupported)
    );
    assert_eq!(t.get_user_info_by_id(&id("ann")), None);
}

#[test]
fn shares_that_would_overflow_book_nothing() {
    let mut t = treasury();
    t.ft_on_transfer(&id("ft"), &vec![share("ann", u128::MAX - 1)]).unwrap();
    let shares = vec![share("bob", 3), share("ann", 1), share("ann", 1), share("cat", 4)];
    assert_eq!(t.ft_on_transfer(&id("ft"), &shares), Err(TreasuryError::Overflow));
    assert_eq!(t.get_user_info_by_id(&id("bob")), None);
    assert_eq!(t.get_user_info_by_id(&id("cat")), None);
    assert_eq!(
        t.list_bookings(),
        vec![Booking { user_id: id("ann"), token_id: id("ft"), amount: u128::MAX - 1 }]
    );
    assert_eq!(t.ft_on_transfer(&id("ft"), &vec![share("bob", 3), share("ann", 1)]), Ok(0));
    assert_eq!(t.list_bookings()[0].amount, u128::MAX);
}

#[test]
fn a_claim_pays_what_is_booked_once() {
    let mut t = treasury();
    t.ft_on_transfer(&id("ft"), &vec![share("ann", 10), share("bob", 0)]).unwrap();
    assert_eq!(t.claim(&id("eve"), &id("ft")), Err(TreasuryError::RecordNotFound));
    assert_eq!(t.claim(&id("ann"), &id("ft2")), Err(TreasuryError::DepositNotFound));
    assert_eq!(t.claim(&id("bob"), &id("ft")), Err(TreasuryError::NothingToClaim));
    assert_eq!(
        t.claim(&id("ann"), &id("ft")),
        Ok(Request::TransferToken { token_id: id("ft"), receiver_id: id("ann"), amount: 10 })
    );
    assert_eq!(t.claim(&id("ann"), &id("ft")), Err(TreasuryError::NothingToClaim));
    assert_eq!(
        t.get_user_info_by_id(&id("ann")),
        Some(UserTokenDepositRecord {
            user_id: id("ann"),
            deposits: vec![TokenDeposit { token_id: id("ft"), amount: 0 }],
        })
    );
    t.ft_on_transfer(&id("ft"), &vec![share("ann", 3)]).unwrap();
    assert_eq!(
        t.claim(&id("ann"), &id("ft")),
        Ok(Request::TransferToken { token_id: id("ft"), receiver_id: id("ann"), amount: 3 })
    );
}

#[test]
fn a_treasury_is_restored_from_its_parts() {
    let mut t = treasury();
    t.ft_on_transfer(&id("ft"), &vec![share("ann", 10), share("bob", 20)]).unwrap();
    let assets = vec![
        Assets { token_id: id("ft"), balances: 0 },
        Assets { token_id: id("ft2"), balances: 0 },
    ];
    let copy = Treasury::restore(id("admin"), assets, t.list_bookings()).unwrap();
    assert_eq!(copy.list_bookings(), t.list_bookings());
    assert_eq!(copy.get_all_token_id(), t.get_all_token_id());
    assert_eq!(copy.owner_id(), "admin");
    let twice = vec![
        Booking { user_id: id("ann"), token_id: id("ft"), amount: 1 },
        Booking { user_id: id("ann"), token_id: id("ft2"), amount: 1 },
        Booking { user_id: id("ann"), token_id: id("ft"), amount: 2 },
    ];
    assert!(Treasury::restore(id("admin"), vec![], twice).is_none());
    let same_token = vec![
        Assets { token_id: id("ft"), balances: 0 },
        Assets { token_id: id("ft"), balances: 1 },
    ];
    assert!(Treasury::restore(id("admin"), same_token, vec![]).is_none());
    assert!(Treasury::restore(id("admin"), vec![], vec![]).is_some());
}
