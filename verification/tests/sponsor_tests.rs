use launchpad::sponsor::{
    CourseMetadata, MintCost, SponsorBook, SponsorError, ADDITIONAL_TGAS, GAS_PER_TGAS,
    PRICE_PER_TGAS,
};
use launchpad::Request;

fn id(name: &str) -> String {
    name.to_string()
}

#[test]
fn sponsor_constants_have_their_values() {
    assert_eq!(PRICE_PER_TGAS, 100_000_000_000_000_000_000);
    assert_eq!(ADDITIONAL_TGAS, 5);
    assert_eq!(GAS_PER_TGAS, 1_000_000_000_000);
}

#[test]
fn first_deposit_makes_the_caller_the_creator() {
    let mut book = SponsorBook::new();
    assert_eq!(book.get_sponsor_balance("rust", &id("ann")), None);
    assert_eq!(book.deposit_sponsor(&id("ann"), id("rust"), 10), Ok(()));
    assert_eq!(book.get_sponsor_balance("rust", &id("ann")), Some(10));
    assert_eq!(book.get_sponsor_balance("rust", &id("bob")), None);
    assert_eq!(book.get_sponsor_balance("go", &id("ann")), None);
    assert_eq!(book.deposit_sponsor(&id("ann"), id("rust"), 5), Ok(()));
    assert_eq!(book.get_sponsor_balance("rust", &id("ann")), Some(15));
    assert_eq!(book.deposit_sponsor(&id("bob"), id("rust"), 5), Err(SponsorError::NotOwner));
    assert_eq!(book.get_sponsor_balance("rust", &id("ann")), Some(15));
    assert_eq!(book.deposit_sponsor(&id("bob"), id("go"), 0), Ok(()));
    assert_eq!(book.get_sponsor_balance("go", &id("bob")), Some(0));
    assert_eq!(
        book.list_courses(),
        vec![
            CourseMetadata { course_id: id("rust"), sponsor_balance: 15, creator_id: id("ann") },
            CourseMetadata { course_id: id("go"), sponsor_balance: 0, creator_id: id("bob") },
        ]
    );
}

#[test]
fn a_deposit_that_would_overflow_is_refused() {
    let mut book = SponsorBook::new();
    book.deposit_sponsor(&id("ann"), id("rust"), u128::MAX).unwrap();
    assert_eq!(book.deposit_sponsor(&id("ann"), id("rust"), 1), Err(SponsorError::Overflow));
    assert_eq!(book.deposit_sponsor(&id("ann"), id("rust"), 0), Ok(()));
    assert_eq!(book.get_sponsor_balance("rust", &id("ann")), Some(u128::MAX));
}

#[test]
fn withdrawal_is_for_the_creator_and_within_the_balance() {
    let mut book = SponsorBook::new();
    book.deposit_sponsor(&id("ann"), id("rust"), 10).unwrap();
    assert_eq!(book.withdraw_sponsor(&id("ann"), "go", 1), Err(SponsorError::CourseNotFound));
    assert_eq!(book.withdraw_sponsor(&id("bob"), "rust", 1), Err(SponsorError::NotOwner));
    assert_eq!(book.withdraw_sponsor(&id("ann"), "rust", 11), Err(SponsorError::InsufficientBalance));
    assert_eq!(book.get_sponsor_balance("rust", &id("ann")), Some(10));
    assert_eq!(
        book.withdraw_sponsor(&id("ann"), "rust", 4),
        Ok(Request::TransferNative { receiver_id: id("ann"), amount: 4 })
    );
    assert_eq!(book.get_sponsor_balance("rust", &id("ann")), Some(6));
    assert_eq!(
        book.withdraw_sponsor(&id("ann"), "rust", 6),
        Ok(Request::TransferNative { receiver_id: id("ann"), amount: 6 })
    );
    assert_eq!(book.get_sponsor_balance("rust", &id("ann")), Some(0));
    assert_eq!(
        book.withdraw_sponsor(&id("ann"), "rust", 0),
        Ok(Request::TransferNative { receiver_id: id("ann"), amount: 0 })
    );
}

#[test]
fn a_sponsored_mint_is_for_the_minter_and_a_known_course() {
    let mut book = SponsorBook::new();
    book.deposit_sponsor(&id("ann"), id("rust"), 10).unwrap();
    assert_eq!(book.check_sponsored_mint(&id("owner"), &id("owner"), "rust"), Ok(()));
    assert_eq!(
        book.check_sponsored_mint(&id("ann"), &id("owner"), "rust"),
        Err(SponsorError::Unauthorized)
    );
    assert_eq!(
        book.check_sponsored_mint(&id("owner"), &id("owner"), "go"),
        Err(SponsorError::CourseNotFound)
    );
    assert_eq!(
        book.check_sponsored_mint(&id("ann"), &id("owner"), "go"),
        Err(SponsorError::Unauthorized)
    );
}

#[test]
fn a_mint_is_charged_for_storage_and_gas() {
    let mut book = SponsorBook::new();
    let near = 1_000_000_000_000_000_000_000_000u128;
    book.deposit_sponsor(&id("ann"), id("rust"), near).unwrap();
    // 300 bytes at 10^19 each, and 7.9 units of gas that count as 7, with 5 on top
    let cost = book.charge_mint("rust", 300, 10_000_000_000_000_000_000, 7_900_000_000_000).unwrap();
    assert_eq!(
        cost,
        MintCost {
            storage_cost: 3_000_000_000_000_000_000_000,
            gas_cost: 1_200_000_000_000_000_000_000,
            total_cost: 4_200_000_000_000_000_000_000,
            charged: 4_200_000_000_000_000_000_000,
        }
    );
    assert_eq!(book.get_sponsor_balance("rust", &id("ann")), Some(near - 4_200_000_000_000_000_000_000));
    // no gas and no storage still costs the five units on top
    let cost = book.charge_mint("rust", 0, 10, 999_999_999_999).unwrap();
    assert_eq!(cost.storage_cost, 0);
    assert_eq!(cost.gas_cost, 500_000_000_000_000_000_000);
    assert_eq!(cost.total_cost, cost.charged);
    assert_eq!(book.charge_mint("go", 1, 1, 1), Err(SponsorError::CourseNotFound));
}

#[test]
fn a_mint_takes_no_more_than_the_balance() {
    let mut book = SponsorBook::new();
    book.deposit_sponsor(&id("ann"), id("rust"), 7).unwrap();
    let cost = book.charge_mint("rust", 1, 1, 0).unwrap();
    assert_eq!(cost.total_cost, 500_000_000_000_000_000_001);
    assert_eq!(cost.charged, 7);
    assert_eq!(book.get_sponsor_balance("rust", &id("ann")), Some(0));
    let cost = book.charge_mint("rust", 1, 1, 0).unwrap();
    assert_eq!(cost.charged, 0);
    assert_eq!(book.get_sponsor_balance("rust", &id("ann")), Some(0));
}

#[test]
fn a_cost_that_would_overflow_is_refused() {
    let mut book = SponsorBook::new();
    book.deposit_sponsor(&id("ann"), id("rust"), 7).unwrap();
    assert_eq!(book.charge_mint("rust", 2, u128::MAX, 0), Err(SponsorError::Overflow));
    assert_eq!(book.charge_mint("rust", 1, u128::MAX, 0), Err(SponsorError::Overflow));
    assert_eq!(book.get_sponsor_balance("rust", &id("ann")), Some(7));
    let cost = book.charge_mint("rust", u64::MAX, 0, u64::MAX).unwrap();
    assert_eq!(cost.gas_cost, (18_446_744 + 5) * PRICE_PER_TGAS);
    assert_eq!(cost.storage_cost, 0);
}

#[test]
fn a_book_is_restored_from_its_entries() {
    let mut book = SponsorBook::new();
    book.deposit_sponsor(&id("ann"), id("rust"), 10).unwrap();
    book.deposit_sponsor(&id("bob"), id("go"), 20).unwrap();
    let copy = SponsorBook::restore(book.list_courses()).unwrap();
    assert_eq!(copy.list_courses(), book.list_courses());
    assert_eq!(copy.get_sponsor_balance("go", &id("bob")), Some(20));
    let mut twice = book.list_courses();
    twice.push(CourseMetadata { course_id: id("rust"), sponsor_balance: 1, creator_id: id("eve") });
    assert!(SponsorBook::restore(twice).is_none());
    assert!(SponsorBook::restore(vec![]).is_some());
}
