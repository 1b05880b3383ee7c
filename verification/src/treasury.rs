//! A treasury of token deposits: tokens that come in are booked to the accounts they are
//! meant for, and each account claims what is booked to it.

use vstd::prelude::*;
use crate::engine::{holds_token, tokens_are_distinct};
use crate::model::distinct_tokens;
use crate::types::{asset_views, AccountId, Assets, AssetsView, Request, RequestView};

verus! {

/// Why an operation on the treasury was refused. A refused operation leaves it untouched.
#[derive(Clone, Copy, Debug, PartialEq, Eq, Structural)]
pub enum TreasuryError {
    /// The caller is not the admin.
    Unauthorized,
    /// The token is not in the asset registry.
    TokenNotSupported,
    /// Nothing was ever booked to the caller.
    RecordNotFound,
    /// Nothing of this token was ever booked to the caller.
    DepositNotFound,
    /// What was booked to the caller has been claimed.
    NothingToClaim,
    /// An amount would leave the range of its integer type.
    Overflow,
}

/// An amount of one token.
#[derive(Debug, PartialEq, Eq)]
pub struct TokenDeposit {
    pub token_id: AccountId,
    pub amount: u128,
}

/// What is booked to one account, token by token in the order in which the tokens first came.
#[derive(Debug, PartialEq, Eq)]
pub struct UserTokenDepositRecord {
    pub user_id: AccountId,
    pub deposits: Vec<TokenDeposit>,
}

/// A share of an incoming transfer: the account it is meant for, and how much.
#[derive(Debug, PartialEq, Eq)]
pub struct PaymentInfo {
    pub user_id: AccountId,
    pub amount: u128,
}

/// An amount of one token that is booked to one account.
#[derive(Debug, PartialEq, Eq)]
pub struct Booking {
    pub user_id: AccountId,
    pub token_id: AccountId,
    pub amount: u128,
}

/// A booking as a mathematical value.
pub struct BookingView {
    pub user_id: Seq<char>,
    pub token_id: Seq<char>,
    pub amount: u128,
}

/// A share as a mathematical value.
pub struct PaymentView {
    pub user_id: Seq<char>,
    pub amount: u128,
}

/// An amount of one token as a mathematical value.
pub struct DepositView {
    pub token_id: Seq<char>,
    pub amount: u128,
}

impl View for Booking {
    type V = BookingView;

    open spec fn view(&self) -> BookingView {
        BookingView { user_id: self.user_id@, token_id: self.token_id@, amount: self.amount }
    }
}

impl Clone for Booking {
    fn clone(&self) -> (r: Self)
        ensures
            r == *self,
    {
        Booking {
            user_id: self.user_id.clone(),
            token_id: self.token_id.clone(),
            amount: self.amount,
        }
    }
}

impl View for PaymentInfo {
    type V = PaymentView;

    open spec fn view(&self) -> PaymentView {
        PaymentView { user_id: self.user_id@, amount: self.amount }
    }
}

impl View for TokenDeposit {
    type V = DepositView;

    open spec fn view(&self) -> DepositView {
        DepositView { token_id: self.token_id@, amount: self.amount }
    }
}

/// The bookings of a list as mathematical values.
pub open spec fn booking_views(bookings: Seq<Booking>) -> Seq<BookingView> {
    bookings.map_values(|b: Booking| b@)
}

/// The shares of a list as mathematical values.
pub open spec fn payment_views(payments: Seq<PaymentInfo>) -> Seq<PaymentView> {
    payments.map_values(|p: PaymentInfo| p@)
}

/// The deposits of a list as mathematical values.
pub open spec fn deposit_views(deposits: Seq<TokenDeposit>) -> Seq<DepositView> {
    deposits.map_values(|d: TokenDeposit| d@)
}

/// The treasury as a mathematical value: the admin, the asset registry, and the bookings in
/// the order in which each account first got each token.
pub struct TreasuryView {
    pub owner_id: Seq<char>,
    pub assets: Seq<AssetsView>,
    pub bookings: Seq<BookingView>,
}

/// No account has two bookings of one token.
pub open spec fn distinct_bookings(bookings: Seq<BookingView>) -> bool {
    forall|i: int, j: int|
        0 <= i < j < bookings.len() ==> !((#[trigger] bookings[i]).user_id == (
        #[trigger] bookings[j]).user_id && bookings[i].token_id == bookings[j].token_id)
}

/// Whether anything of the token was ever booked to the account.
pub open spec fn has_booking(bookings: Seq<BookingView>, user: Seq<char>, token: Seq<char>)
    -> bool {
    exists|i: int|
        0 <= i < bookings.len() && (#[trigger] bookings[i]).user_id == user && bookings[i].token_id
            == token
}

/// Where the booking of the token to the account stands, if there is one.
pub open spec fn booking_index(bookings: Seq<BookingView>, user: Seq<char>, token: Seq<char>)
    -> int {
    choose|i: int|
        0 <= i < bookings.len() && (#[trigger] bookings[i]).user_id == user && bookings[i].token_id
            == token
}

/// Whether anything was ever booked to the account.
pub open spec fn has_record(bookings: Seq<BookingView>, user: Seq<char>) -> bool {
    exists|i: int| 0 <= i < bookings.len() && (#[trigger] bookings[i]).user_id == user
}

/// The test that a booking is the account's.
pub open spec fn booked_to(user: Seq<char>) -> spec_fn(BookingView) -> bool {
    |b: BookingView| b.user_id == user
}

/// What is booked to the account, token by token.
pub open spec fn deposits_of(bookings: Seq<BookingView>, user: Seq<char>) -> Seq<DepositView> {
    bookings.filter(booked_to(user)).map_values(
        |b: BookingView| DepositView { token_id: b.token_id, amount: b.amount },
    )
}

/// Whether one share can be booked without leaving the range of amounts.
pub open spec fn share_fits(
    bookings: Seq<BookingView>,
    token: Seq<char>,
    share: PaymentView,
) -> bool {
    has_booking(bookings, share.user_id, token) ==> bookings[booking_index(
        bookings,
        share.user_id,
        token,
    )].amount + share.amount <= u128::MAX
}

/// The bookings after one share has been booked.
pub open spec fn booked(bookings: Seq<BookingView>, token: Seq<char>, share: PaymentView) -> Seq<
    BookingView,
> {
    if has_booking(bookings, share.user_id, token) {
        let i = booking_index(bookings, share.user_id, token);
        bookings.update(
            i,
            BookingView { amount: (bookings[i].amount + share.amount) as u128, ..bookings[i] },
        )
    } else {
        bookings.push(BookingView { user_id: share.user_id, token_id: token, amount: share.amount })
    }
}

/// Whether the shares can be booked one after the other without leaving the range of
/// amounts.
pub open spec fn shares_fit(
    bookings: Seq<BookingView>,
    token: Seq<char>,
    shares: Seq<PaymentView>,
) -> bool
    decreases shares.len(),
{
    if shares.len() == 0 {
        true
    } else {
        share_fits(bookings, token, shares[0]) && shares_fit(
            booked(bookings, token, shares[0]),
            token,
            shares.drop_first(),
        )
    }
}

/// The bookings after the shares have been booked one after the other.
pub open spec fn booked_all(
    bookings: Seq<BookingView>,
    token: Seq<char>,
    shares: Seq<PaymentView>,
) -> Seq<BookingView>
    decreases shares.len(),
{
    if shares.len() == 0 {
        bookings
    } else {
        booked_all(booked(bookings, token, shares[0]), token, shares.drop_first())
    }
}

impl TreasuryView {
    /// What holds of every treasury.
    pub open spec fn wf(self) -> bool {
        distinct_tokens(self.assets) && distinct_bookings(self.bookings)
    }

    /// Whether the token is in the asset registry.
    pub open spec fn supports(self, token_id: Seq<char>) -> bool {
        exists|i: int| 0 <= i < self.assets.len() && (#[trigger] self.assets[i]).token_id == token_id
    }
}

/// Why an incoming transfer is refused, if it is.
pub open spec fn transfer_error(s: TreasuryView, token: Seq<char>, shares: Seq<PaymentView>)
    -> Option<TreasuryError> {
    if !s.supports(token) {
        Some(TreasuryError::TokenNotSupported)
    } else if !shares_fit(s.bookings, token, shares) {
        Some(TreasuryError::Overflow)
    } else {
        None
    }
}

/// Why a claim is refused, if it is.
pub open spec fn claim_error(s: TreasuryView, caller: Seq<char>, token: Seq<char>) -> Option<
    TreasuryError,
> {
    if !has_record(s.bookings, caller) {
        Some(TreasuryError::RecordNotFound)
    } else if !has_booking(s.bookings, caller, token) {
        Some(TreasuryError::DepositNotFound)
    } else if s.bookings[booking_index(s.bookings, caller, token)].amount == 0 {
        Some(TreasuryError::NothingToClaim)
    } else {
        None
    }
}

/// The treasury after a claim: the booking stays, with nothing left in it.
pub open spec fn claim_state(s: TreasuryView, caller: Seq<char>, token: Seq<char>)
    -> TreasuryView {
    let i = booking_index(s.bookings, caller, token);
    TreasuryView { bookings: s.bookings.update(i, BookingView { amount: 0, ..s.bookings[i] }), ..s }
}

/// In bookings without repeats, the booking of a token to an account is where the two stand
/// together.
pub proof fn lemma_booking_index(
    bookings: Seq<BookingView>,
    user: Seq<char>,
    token: Seq<char>,
    i: int,
)
    requires
        distinct_bookings(bookings),
        0 <= i < bookings.len(),
        bookings[i].user_id == user,
        bookings[i].token_id == token,
    ensures
        has_booking(bookings, user, token),
        booking_index(bookings, user, token) == i,
{
    let j = booking_index(bookings, user, token);
    if j < i {
        assert(!(bookings[j].user_id == bookings[i].user_id && bookings[j].token_id
            == bookings[i].token_id));
    } else if i < j {
        assert(!(bookings[i].user_id == bookings[j].user_id && bookings[i].token_id
            == bookings[j].token_id));
    }
}

/// Booking a share adds no second booking of a token to an account.
pub proof fn lemma_booked_distinct(bookings: Seq<BookingView>, token: Seq<char>, share: PaymentView)
    requires
        distinct_bookings(bookings),
    ensures
        distinct_bookings(booked(bookings, token, share)),
{
    let after = booked(bookings, token, share);
    assert forall|i: int, j: int| 0 <= i < j < after.len() implies !((
    #[trigger] after[i]).user_id == (#[trigger] after[j]).user_id && after[i].token_id
        == after[j].token_id) by {
        if j < bookings.len() {
            assert(!(bookings[i].user_id == bookings[j].user_id && bookings[i].token_id
                == bookings[j].token_id));
        } else {
            assert(!(bookings[i].user_id == share.user_id && bookings[i].token_id == token));
        }
    }
}

/// Bookings that keep their accounts and tokens keep having no repeats.
proof fn lemma_same_keys_distinct(before: Seq<BookingView>, after: Seq<BookingView>)
    requires
        distinct_bookings(before),
        after.len() == before.len(),
        forall|i: int|
            0 <= i < before.len() ==> (#[trigger] after[i]).user_id == before[i].user_id
                && after[i].token_id == before[i].token_id,
    ensures
        distinct_bookings(after),
{
    assert forall|i: int, j: int| 0 <= i < j < after.len() implies !((
    #[trigger] after[i]).user_id == (#[trigger] after[j]).user_id && after[i].token_id
        == after[j].token_id) by {
        assert(!(before[i].user_id == before[j].user_id && before[i].token_id
            == before[j].token_id));
    }
}

/// Where the booking of the token to the account stands.
fn find_booking(bookings: &Vec<Booking>, user: &AccountId, token: &AccountId) -> (r: Option<usize>)
    ensures
        match r {
            Some(i) => i < bookings@.len() && bookings@[i as int].user_id@ == user@
                && bookings@[i as int].token_id@ == token@,
            None => !has_booking(booking_views(bookings@), user@, token@),
        },
{
    let mut i: usize = 0;
    while i < bookings.len()
        invariant
            i <= bookings@.len(),
            forall|k: int|
                0 <= k < i ==> !((#[trigger] booking_views(bookings@)[k]).user_id == user@
                    && booking_views(bookings@)[k].token_id == token@),
        decreases bookings@.len() - i,
    {
        if bookings[i].user_id == *user && bookings[i].token_id == *token {
            return Some(i);
        }
        i = i + 1;
    }
    None
}

/// The treasury: the admin, the asset registry, and what is booked to whom.
pub struct Treasury {
    owner_id: AccountId,
    list_assets: Vec<Assets>,
    bookings: Vec<Booking>,
}

/// The payment contract keeps the same books as the treasury.
pub type Payment = Treasury;

impl View for Treasury {
    type V = TreasuryView;

    closed spec fn view(&self) -> TreasuryView {
        TreasuryView {
            owner_id: self.owner_id@,
            assets: asset_views(self.list_assets@),
            bookings: booking_views(self.bookings@),
        }
    }
}

impl Treasury {
    #[verifier::type_invariant]
    spec fn inv(self) -> bool {
        self@.wf()
    }

    /// A new treasury owned by `owner_id`, with no token and no booking.
    pub fn new(owner_id: AccountId) -> (r: Treasury)
        ensures
            r@ == (TreasuryView {
                owner_id: owner_id@,
                assets: Seq::empty(),
                bookings: Seq::empty(),
            }),
            r@.wf(),
    {
        let r = Treasury { owner_id, list_assets: Vec::new(), bookings: Vec::new() };
        assert(r@.assets =~= Seq::empty());
        assert(r@.bookings =~= Seq::empty());
        r
    }

    /// The admin.
    pub fn owner_id(&self) -> (r: &AccountId)
        ensures
            r@ == self@.owner_id,
    {
        &self.owner_id
    }

    /// Whether the token is in the asset registry.
    pub fn is_token_supported(&self, token_id: &AccountId) -> (r: bool)
        ensures
            r == self@.supports(token_id@),
    {
        let r = holds_token(&self.list_assets, token_id);
        proof {
            if r {
                let k = choose|k: int|
                    0 <= k < self.list_assets@.len() && (#[trigger] asset_views(
                        self.list_assets@,
                    )[k]).token_id == token_id@;
                assert(self@.assets[k].token_id == token_id@);
            }
        }
        r
    }

    /// Admits a token to the asset registry. Only the admin may do so. A token that is
    /// already there is left alone; for a new one the treasury asks to be registered for
    /// storage with the token contract.
    pub fn add_token(&mut self, caller: &AccountId, token_id: AccountId) -> (r: Result<
        Option<Request>,
        TreasuryError,
    >)
        ensures
            final(self)@.wf(),
            match r {
                Ok(Some(request)) => {
                    &&& caller@ == old(self)@.owner_id
                    &&& !old(self)@.supports(token_id@)
                    &&& request@ == (RequestView::RegisterStorage { token_id: token_id@ })
                    &&& final(self)@ == (TreasuryView {
                        assets: old(self)@.assets.push(AssetsView { token_id: token_id@, balances: 0 }),
                        ..old(self)@
                    })
                },
                Ok(None) => {
                    &&& caller@ == old(self)@.owner_id
                    &&& old(self)@.supports(token_id@)
                    &&& final(self)@ == old(self)@
                },
                Err(e) => {
                    &&& caller@ != old(self)@.owner_id
                    &&& e == TreasuryError::Unauthorized
                    &&& final(self)@ == old(self)@
                },
            },
    {
        proof {
            use_type_invariant(&*self);
        }
        if *caller != self.owner_id {
            return Err(TreasuryError::Unauthorized);
        }
        if self.is_token_supported(&token_id) {
            return Ok(None);
        }
        let request = Request::RegisterStorage { token_id: token_id.clone() };
        let asset = Assets { token_id, balances: 0 };
        let mut assets: Vec<Assets> = Vec::new();
        proof {
            let after = asset_views(self.list_assets@.push(asset));
            assert(after =~= self@.assets.push(asset@));
            assert forall|i: int, j: int| 0 <= i < j < after.len() implies (
            #[trigger] after[i]).token_id != (#[trigger] after[j]).token_id by {
                if j < self@.assets.len() {
                    assert(self@.assets[i].token_id != self@.assets[j].token_id);
                } else {
                    assert(self@.assets[i].token_id != asset.token_id@);
                }
            }
        }
        core::mem::swap(&mut self.list_assets, &mut assets);
        assets.push(asset);
        self.list_assets = assets;
        Ok(Some(request))
    }

    /// Hands the treasury to another admin. Only the admin may do so.
    pub fn change_admin(&mut self, caller: &AccountId, new_admin: AccountId) -> (r: Result<
        (),
        TreasuryError,
    >)
        ensures
            final(self)@.wf(),
            match r {
                Ok(()) => caller@ == old(self)@.owner_id && final(self)@ == (TreasuryView {
                    owner_id: new_admin@,
                    ..old(self)@
                }),
                Err(e) => caller@ != old(self)@.owner_id && e == TreasuryError::Unauthorized
                    && final(self)@ == old(self)@,
            },
    {
        proof {
            use_type_invariant(&*self);
        }
        if *caller != self.owner_id {
            return Err(TreasuryError::Unauthorized);
        }
        self.owner_id = new_admin;
        Ok(())
    }

    /// Withdraws a token's admission. Only the admin may ask for it, and nothing changes:
    /// what is booked of the token stays booked, and the registry keeps its entry.
    pub fn delete_token_by_token_id(&mut self, caller: &AccountId, token_id: &AccountId) -> (r:
        Result<(), TreasuryError>)
        ensures
            final(self)@.wf(),
            final(self)@ == old(self)@,
            match r {
                Ok(()) => caller@ == old(self)@.owner_id,
                Err(e) => caller@ != old(self)@.owner_id && e == TreasuryError::Unauthorized,
            },
    {
        proof {
            use_type_invariant(&*self);
        }
        if *caller != self.owner_id {
            return Err(TreasuryError::Unauthorized);
        }
        Ok(())
    }

    /// Books an incoming transfer of the token `token_id` to the accounts it is meant for,
    /// share by share in their order, and returns what goes back to the sender, which is
    /// nothing. The token must be in the asset registry. The shares are booked as they are
    /// named: they are not held against the amount that came in.
    pub fn ft_on_transfer(&mut self, token_id: &AccountId, payment_info: &Vec<PaymentInfo>) -> (r:
        Result<u128, TreasuryError>)
        ensures
            final(self)@.wf(),
            match r {
                Ok(back) => {
                    &&& back == 0
                    &&& transfer_error(old(self)@, token_id@, payment_views(payment_info@)) is None
                    &&& final(self)@ == (TreasuryView {
                        bookings: booked_all(
                            old(self)@.bookings,
                            token_id@,
                            payment_views(payment_info@),
                        ),
                        ..old(self)@
                    })
                },
                Err(e) => transfer_error(old(self)@, token_id@, payment_views(payment_info@))
                    == Some(e) && final(self)@ == old(self)@,
            },
    {
        proof {
            use_type_invariant(&*self);
        }
        if !self.is_token_supported(token_id) {
            return Err(TreasuryError::TokenNotSupported);
        }
        let ghost shares = payment_views(payment_info@);
        let ghost start = self@.bookings;
        let ghost before = self@;
        let mut bookings: Vec<Booking> = Vec::new();
        let mut k: usize = 0;
        while k < self.bookings.len()
            invariant
                self@ == before,
                before.wf(),
                before.supports(token_id@),
                k <= self.bookings@.len(),
                bookings@.len() == k,
                forall|n: int| 0 <= n < k ==> (#[trigger] bookings@[n]) == self.bookings@[n],
            decreases self.bookings@.len() - k,
        {
            bookings.push(self.bookings[k].clone());
            k = k + 1;
        }
        assert(booking_views(bookings@) =~= start);
        let mut i: usize = 0;
        assert(shares.skip(0) =~= shares);
        while i < payment_info.len()
            invariant
                self@ == before,
                before.wf(),
                before.supports(token_id@),
                start == before.bookings,
                i <= payment_info@.len(),
                shares == payment_views(payment_info@),
                distinct_bookings(booking_views(bookings@)),
                shares_fit(start, token_id@, shares) == shares_fit(
                    booking_views(bookings@),
                    token_id@,
                    shares.skip(i as int),
                ),
                booked_all(start, token_id@, shares) == booked_all(
                    booking_views(bookings@),
                    token_id@,
                    shares.skip(i as int),
                ),
            decreases payment_info@.len() - i,
        {
            let ghost current = booking_views(bookings@);
            let ghost share = shares[i as int];
            let ghost rest = shares.skip(i as int);
            assert(rest[0] == share);
            assert(rest.drop_first() =~= shares.skip(i + 1));
            assert(share == payment_info@[i as int]@);
            match find_booking(&bookings, &payment_info[i].user_id, token_id) {
                Some(j) => {
                    proof {
                        lemma_booking_index(current, share.user_id, token_id@, j as int);
                    }
                    match bookings[j].amount.checked_add(payment_info[i].amount) {
                        Some(sum) => {
                            bookings[j].amount = sum;
                        },
                        None => {
                            assert(!share_fits(current, token_id@, share));
                            return Err(TreasuryError::Overflow);
                        },
                    }
                },
                None => {
                    bookings.push(
                        Booking {
                            user_id: payment_info[i].user_id.clone(),
                            token_id: token_id.clone(),
                            amount: payment_info[i].amount,
                        },
                    );
                },
            }
            proof {
                assert(booking_views(bookings@) =~= booked(current, token_id@, share));
                lemma_booked_distinct(current, token_id@, share);
            }
            i = i + 1;
        }
        assert(shares.skip(i as int).len() == 0);
        self.bookings = bookings;
        Ok(0)
    }

    /// Pays the caller what is booked to them of the token, and leaves the booking with
    /// nothing in it.
    pub fn claim(&mut self, caller: &AccountId, token_id: &AccountId) -> (r: Result<
        Request,
        TreasuryError,
    >)
        ensures
            final(self)@.wf(),
            match r {
                Ok(request) => {
                    &&& claim_error(old(self)@, caller@, token_id@) is None
                    &&& final(self)@ == claim_state(old(self)@, caller@, token_id@)
                    &&& request@ == (RequestView::TransferToken {
                        token_id: token_id@,
                        receiver_id: caller@,
                        amount: old(self)@.bookings[booking_index(
                            old(self)@.bookings,
                            caller@,
                            token_id@,
                        )].amount,
                    })
                },
                Err(e) => claim_error(old(self)@, caller@, token_id@) == Some(e) && final(self)@
                    == old(self)@,
            },
    {
        proof {
            use_type_invariant(&*self);
        }
        if !self.has_any(caller) {
            return Err(TreasuryError::RecordNotFound);
        }
        let i = match find_booking(&self.bookings, caller, token_id) {
            Some(i) => i,
            None => {
                return Err(TreasuryError::DepositNotFound);
            },
        };
        proof {
            lemma_booking_index(self@.bookings, caller@, token_id@, i as int);
        }
        let amount: u128 = self.bookings[i].amount;
        if amount == 0 {
            return Err(TreasuryError::NothingToClaim);
        }
        let request = Request::TransferToken {
            token_id: token_id.clone(),
            receiver_id: caller.clone(),
            amount,
        };
        let mut bookings: Vec<Booking> = Vec::new();
        core::mem::swap(&mut self.bookings, &mut bookings);
        bookings[i].amount = 0;
        proof {
            let after = booking_views(bookings@);
            assert(after =~= claim_state(old(self)@, caller@, token_id@).bookings);
            lemma_same_keys_distinct(old(self)@.bookings, after);
        }
        self.bookings = bookings;
        Ok(request)
    }

    /// Whether anything was ever booked to the account.
    fn has_any(&self, user: &AccountId) -> (r: bool)
        ensures
            r == has_record(self@.bookings, user@),
    {
        let mut i: usize = 0;
        while i < self.bookings.len()
            invariant
                i <= self.bookings@.len(),
                forall|k: int| 0 <= k < i ==> (#[trigger] self@.bookings[k]).user_id != user@,
            decreases self.bookings@.len() - i,
        {
            if self.bookings[i].user_id == *user {
                assert(self@.bookings[i as int].user_id == user@);
                return true;
            }
            i = i + 1;
        }
        false
    }

    /// What is booked to the account, token by token in the order in which the tokens first
    /// came, or `None` where nothing was ever booked to it.
    pub fn get_user_info_by_id(&self, user_id: &AccountId) -> (r: Option<UserTokenDepositRecord>)
        ensures
            match r {
                Some(record) => {
                    &&& has_record(self@.bookings, user_id@)
                    &&& record.user_id@ == user_id@
                    &&& deposit_views(record.deposits@) == deposits_of(self@.bookings, user_id@)
                },
                None => !has_record(self@.bookings, user_id@),
            },
    {
        if !self.has_any(user_id) {
            return None;
        }
        let ghost all = self@.bookings;
        let ghost test = booked_to(user_id@);
        let mut deposits: Vec<TokenDeposit> = Vec::new();
        let mut i: usize = 0;
        assert(all.take(0) =~= Seq::empty());
        assert(deposit_views(deposits@) =~= deposits_of(all.take(0), user_id@)) by {
            reveal(Seq::filter);
        }
        while i < self.bookings.len()
            invariant
                i <= self.bookings@.len(),
                all == self@.bookings,
                all.len() == self.bookings@.len(),
                test == booked_to(user_id@),
                deposit_views(deposits@) == deposits_of(all.take(i as int), user_id@),
            decreases self.bookings@.len() - i,
        {
            let ghost seen = all.take(i as int);
            proof {
                assert(all.take(i + 1) =~= seen.push(all[i as int]));
                seen.lemma_filter_push(all[i as int], test);
            }
            if self.bookings[i].user_id == *user_id {
                let deposit = TokenDeposit {
                    token_id: self.bookings[i].token_id.clone(),
                    amount: self.bookings[i].amount,
                };
                proof {
                    assert(deposit_views(deposits@.push(deposit)) =~= deposit_views(deposits@).push(
                        deposit@,
                    ));
                    assert(deposits_of(all.take(i + 1), user_id@) =~= deposits_of(
                        seen,
                        user_id@,
                    ).push(deposit@));
                }
                deposits.push(deposit);
            }
            i = i + 1;
        }
        assert(all.take(i as int) =~= all);
        Some(UserTokenDepositRecord { user_id: user_id.clone(), deposits })
    }

    /// The tokens of the asset registry in the order in which they were admitted, or `None`
    /// where there is none.
    pub fn get_all_token_id(&self) -> (r: Option<Vec<AccountId>>)
        ensures
            match r {
                Some(tokens) => {
                    &&& tokens@.len() > 0
                    &&& tokens@.len() == self@.assets.len()
                    &&& forall|i: int|
                        0 <= i < tokens@.len() ==> (#[trigger] tokens@[i])@
                            == self@.assets[i].token_id
                },
                None => self@.assets.len() == 0,
            },
    {
        if self.list_assets.len() == 0 {
            return None;
        }
        let mut out: Vec<AccountId> = Vec::new();
        let mut i: usize = 0;
        while i < self.list_assets.len()
            invariant
                i <= self.list_assets@.len(),
                out@.len() == i,
                forall|k: int| 0 <= k < i ==> (#[trigger] out@[k])@ == self@.assets[k].token_id,
            decreases self.list_assets@.len() - i,
        {
            out.push(self.list_assets[i].token_id.clone());
            i = i + 1;
        }
        Some(out)
    }

    /// Every booking, in the order in which each account first got each token.
    pub fn list_bookings(&self) -> (r: Vec<Booking>)
        ensures
            booking_views(r@) == self@.bookings,
    {
        let mut out: Vec<Booking> = Vec::new();
        let mut i: usize = 0;
        while i < self.bookings.len()
            invariant
                i <= self.bookings@.len(),
                out@.len() == i,
                forall|k: int| 0 <= k < i ==> (#[trigger] out@[k]) == self.bookings@[k],
            decreases self.bookings@.len() - i,
        {
            out.push(self.bookings[i].clone());
            i = i + 1;
        }
        assert(booking_views(out@) =~= self@.bookings);
        out
    }

    /// Puts a treasury together from its parts. They are taken if and only if no token is
    /// registered twice and no account has two bookings of one token.
    pub fn restore(owner_id: AccountId, list_assets: Vec<Assets>, bookings: Vec<Booking>) -> (r:
        Option<Treasury>)
        ensures
            match r {
                Some(treasury) => treasury@.wf() && treasury@ == (TreasuryView {
                    owner_id: owner_id@,
                    assets: asset_views(list_assets@),
                    bookings: booking_views(bookings@),
                }),
                None => !distinct_tokens(asset_views(list_assets@)) || !distinct_bookings(
                    booking_views(bookings@),
                ),
            },
    {
        if !tokens_are_distinct(&list_assets) {
            return None;
        }
        let mut j: usize = 0;
        while j < bookings.len()
            invariant
                j <= bookings@.len(),
                forall|a: int, b: int|
                    0 <= a < b < j ==> !((#[trigger] booking_views(bookings@)[a]).user_id == (
                    #[trigger] booking_views(bookings@)[b]).user_id && booking_views(
                        bookings@,
                    )[a].token_id == booking_views(bookings@)[b].token_id),
            decreases bookings@.len() - j,
        {
            let mut i: usize = 0;
            while i < j
                invariant
                    i <= j < bookings@.len(),
                    forall|a: int|
                        0 <= a < i ==> !((#[trigger] booking_views(bookings@)[a]).user_id
                            == booking_views(bookings@)[j as int].user_id && booking_views(
                            bookings@,
                        )[a].token_id == booking_views(bookings@)[j as int].token_id),
                decreases j - i,
            {
                if bookings[i].user_id == bookings[j].user_id && bookings[i].token_id
                    == bookings[j].token_id {
                    assert(booking_views(bookings@)[i as int].user_id == booking_views(
                        bookings@,
                    )[j as int].user_id && booking_views(bookings@)[i as int].token_id
                        == booking_views(bookings@)[j as int].token_id);
                    return None;
                }
                i = i + 1;
            }
            j = j + 1;
        }
        Some(Treasury { owner_id, list_assets, bookings })
    }
}

/// After a claim has been paid, the same account's next claim of the same token is refused,
/// as nothing is left to claim.
pub proof fn lemma_second_claim_fails(s: TreasuryView, caller: Seq<char>, token: Seq<char>)
    requires
        s.wf(),
        claim_error(s, caller, token) is None,
    ensures
        claim_state(s, caller, token).wf(),
        claim_error(claim_state(s, caller, token), caller, token) == Some(
            TreasuryError::NothingToClaim,
        ),
{
    let i = booking_index(s.bookings, caller, token);
    let after = claim_state(s, caller, token).bookings;
    lemma_same_keys_distinct(s.bookings, after);
    assert(after[i].user_id == caller && after[i].token_id == token);
    lemma_booking_index(after, caller, token, i);
}

} // verus!
