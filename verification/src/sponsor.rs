//! Sponsors' balances: a course's creator deposits native currency from which the cost of
//! minting certificates for the course is paid.

use vstd::prelude::*;
use crate::types::{AccountId, Request, RequestView};

verus! {

/// Identity of a course.
pub type CourseId = String;

/// What a mint is charged for each unit of 10^12 gas it used.
pub const PRICE_PER_TGAS: u128 = 100_000_000_000_000_000_000;

/// The units of 10^12 gas that every mint is charged on top of what it used.
pub const ADDITIONAL_TGAS: u128 = 5;

/// Gas in one unit of 10^12 gas.
pub const GAS_PER_TGAS: u64 = 1_000_000_000_000;

/// Why an operation on the book was refused. A refused operation leaves the book untouched.
#[derive(Clone, Copy, Debug, PartialEq, Eq, Structural)]
pub enum SponsorError {
    /// The caller is not the account that mints.
    Unauthorized,
    /// The course has no entry in the book.
    CourseNotFound,
    /// The course belongs to another account than the caller.
    NotOwner,
    /// The withdrawal exceeds the balance.
    InsufficientBalance,
    /// An amount would leave the range of its integer type.
    Overflow,
}

/// A course with its sponsor's balance.
#[derive(Debug, PartialEq, Eq)]
pub struct CourseMetadata {
    pub course_id: CourseId,
    pub sponsor_balance: u128,
    pub creator_id: AccountId,
}

/// A course as a mathematical value.
pub struct CourseView {
    pub course_id: Seq<char>,
    pub sponsor_balance: u128,
    pub creator_id: Seq<char>,
}

impl View for CourseMetadata {
    type V = CourseView;

    open spec fn view(&self) -> CourseView {
        CourseView {
            course_id: self.course_id@,
            sponsor_balance: self.sponsor_balance,
            creator_id: self.creator_id@,
        }
    }
}

impl Clone for CourseMetadata {
    fn clone(&self) -> (r: Self)
        ensures
            r == *self,
    {
        CourseMetadata {
            course_id: self.course_id.clone(),
            sponsor_balance: self.sponsor_balance,
            creator_id: self.creator_id.clone(),
        }
    }
}

/// What a mint cost, and what of it the sponsor's balance covered.
#[derive(Clone, Copy, Debug, PartialEq, Eq, Structural)]
pub struct MintCost {
    pub storage_cost: u128,
    pub gas_cost: u128,
    pub total_cost: u128,
    pub charged: u128,
}

/// The courses of a list as mathematical values.
pub open spec fn course_views(courses: Seq<CourseMetadata>) -> Seq<CourseView> {
    courses.map_values(|c: CourseMetadata| c@)
}

/// No course has two entries.
pub open spec fn distinct_courses(courses: Seq<CourseView>) -> bool {
    forall|i: int, j: int|
        0 <= i < j < courses.len() ==> (#[trigger] courses[i]).course_id != (
        #[trigger] courses[j]).course_id
}

/// Whether the course has an entry.
pub open spec fn has_course(courses: Seq<CourseView>, course_id: Seq<char>) -> bool {
    exists|i: int| 0 <= i < courses.len() && (#[trigger] courses[i]).course_id == course_id
}

/// Where the entry of the course stands, if there is one.
pub open spec fn course_index(courses: Seq<CourseView>, course_id: Seq<char>) -> int {
    choose|i: int| 0 <= i < courses.len() && (#[trigger] courses[i]).course_id == course_id
}

/// The entry of the course, if there is one.
pub open spec fn course_of(courses: Seq<CourseView>, course_id: Seq<char>) -> CourseView {
    courses[course_index(courses, course_id)]
}

/// The book with the balance of one course replaced.
pub open spec fn with_balance(courses: Seq<CourseView>, course_id: Seq<char>, balance: u128) -> Seq<
    CourseView,
> {
    courses.update(
        course_index(courses, course_id),
        CourseView { sponsor_balance: balance, ..course_of(courses, course_id) },
    )
}

/// Why a deposit is refused, if it is.
pub open spec fn deposit_error(
    courses: Seq<CourseView>,
    caller: Seq<char>,
    course_id: Seq<char>,
    amount: u128,
) -> Option<SponsorError> {
    if has_course(courses, course_id) && course_of(courses, course_id).creator_id != caller {
        Some(SponsorError::NotOwner)
    } else if has_course(courses, course_id) && course_of(courses, course_id).sponsor_balance
        + amount > u128::MAX {
        Some(SponsorError::Overflow)
    } else {
        None
    }
}

/// The book after a deposit: the first deposit for a course makes the caller its creator.
pub open spec fn deposit_state(
    courses: Seq<CourseView>,
    caller: Seq<char>,
    course_id: Seq<char>,
    amount: u128,
) -> Seq<CourseView> {
    if has_course(courses, course_id) {
        with_balance(
            courses,
            course_id,
            (course_of(courses, course_id).sponsor_balance + amount) as u128,
        )
    } else {
        courses.push(CourseView { course_id, sponsor_balance: amount, creator_id: caller })
    }
}

/// Why a withdrawal is refused, if it is.
pub open spec fn withdrawal_error(
    courses: Seq<CourseView>,
    caller: Seq<char>,
    course_id: Seq<char>,
    amount: u128,
) -> Option<SponsorError> {
    if !has_course(courses, course_id) {
        Some(SponsorError::CourseNotFound)
    } else if course_of(courses, course_id).creator_id != caller {
        Some(SponsorError::NotOwner)
    } else if course_of(courses, course_id).sponsor_balance < amount {
        Some(SponsorError::InsufficientBalance)
    } else {
        None
    }
}

/// Why a sponsored mint is refused, if it is.
pub open spec fn mint_error(
    courses: Seq<CourseView>,
    caller: Seq<char>,
    owner: Seq<char>,
    course_id: Seq<char>,
) -> Option<SponsorError> {
    if caller != owner {
        Some(SponsorError::Unauthorized)
    } else if !has_course(courses, course_id) {
        Some(SponsorError::CourseNotFound)
    } else {
        None
    }
}

/// What the storage that a mint took costs.
pub open spec fn storage_cost(storage_used: u64, storage_byte_cost: u128) -> nat {
    (storage_used * storage_byte_cost) as nat
}

/// What the gas that a mint used costs: each whole unit of 10^12 gas, and five units more,
/// at `PRICE_PER_TGAS`.
pub open spec fn gas_cost(used_gas: u64) -> nat {
    ((used_gas / GAS_PER_TGAS + ADDITIONAL_TGAS) * PRICE_PER_TGAS) as nat
}

/// What is left of a balance after a cost has been taken from it as far as it goes.
pub open spec fn after_charge(balance: u128, cost: nat) -> u128 {
    if balance < cost {
        0
    } else {
        (balance - cost) as u128
    }
}

/// The sponsors' book.
pub struct SponsorBook {
    courses: Vec<CourseMetadata>,
}

impl View for SponsorBook {
    type V = Seq<CourseView>;

    closed spec fn view(&self) -> Seq<CourseView> {
        course_views(self.courses@)
    }
}

/// In a book without repeats, the entry of a course is where its id stands.
pub proof fn lemma_course_index(courses: Seq<CourseView>, course_id: Seq<char>, i: int)
    requires
        distinct_courses(courses),
        0 <= i < courses.len(),
        courses[i].course_id == course_id,
    ensures
        has_course(courses, course_id),
        course_index(courses, course_id) == i,
{
    let j = course_index(courses, course_id);
    if j < i {
        assert(courses[j].course_id != courses[i].course_id);
    } else if i < j {
        assert(courses[i].course_id != courses[j].course_id);
    }
}

impl SponsorBook {
    #[verifier::type_invariant]
    spec fn inv(self) -> bool {
        distinct_courses(self@)
    }

    /// An empty book.
    pub fn new() -> (r: SponsorBook)
        ensures
            r@ == Seq::<CourseView>::empty(),
    {
        let r = SponsorBook { courses: Vec::new() };
        assert(r@ =~= Seq::<CourseView>::empty());
        r
    }

    /// Where the entry of the course stands.
    fn find(&self, course_id: &str) -> (r: Option<usize>)
        ensures
            distinct_courses(self@),
            match r {
                Some(i) => {
                    &&& i < self.courses@.len()
                    &&& has_course(self@, course_id@)
                    &&& course_index(self@, course_id@) == i
                },
                None => !has_course(self@, course_id@),
            },
    {
        proof {
            use_type_invariant(self);
        }
        let wanted = course_id.to_owned();
        let mut i: usize = 0;
        while i < self.courses.len()
            invariant
                i <= self.courses@.len(),
                wanted@ == course_id@,
                distinct_courses(self@),
                forall|k: int| 0 <= k < i ==> (#[trigger] self@[k]).course_id != course_id@,
            decreases self.courses@.len() - i,
        {
            if self.courses[i].course_id == wanted {
                proof {
                    lemma_course_index(self@, course_id@, i as int);
                }
                return Some(i);
            }
            i = i + 1;
        }
        None
    }

    /// Every course with its balance, in the order of their first deposits.
    pub fn list_courses(&self) -> (r: Vec<CourseMetadata>)
        ensures
            course_views(r@) == self@,
            distinct_courses(self@),
    {
        proof {
            use_type_invariant(self);
        }
        let mut out: Vec<CourseMetadata> = Vec::new();
        let mut i: usize = 0;
        while i < self.courses.len()
            invariant
                i <= self.courses@.len(),
                out@.len() == i,
                forall|k: int| 0 <= k < i ==> (#[trigger] out@[k]) == self.courses@[k],
            decreases self.courses@.len() - i,
        {
            out.push(self.courses[i].clone());
            i = i + 1;
        }
        assert(course_views(out@) =~= self@);
        out
    }

    /// Puts a book together from its entries. They are taken if and only if no course has
    /// two of them.
    pub fn restore(courses: Vec<CourseMetadata>) -> (r: Option<SponsorBook>)
        ensures
            match r {
                Some(book) => book@ == course_views(courses@) && distinct_courses(book@),
                None => !distinct_courses(course_views(courses@)),
            },
    {
        let mut j: usize = 0;
        while j < courses.len()
            invariant
                j <= courses@.len(),
                forall|a: int, b: int|
                    0 <= a < b < j ==> (#[trigger] course_views(courses@)[a]).course_id != (
                    #[trigger] course_views(courses@)[b]).course_id,
            decreases courses@.len() - j,
        {
            let mut i: usize = 0;
            while i < j
                invariant
                    i <= j < courses@.len(),
                    forall|a: int|
                        0 <= a < i ==> (#[trigger] course_views(courses@)[a]).course_id
                            != course_views(courses@)[j as int].course_id,
                decreases j - i,
            {
                if courses[i].course_id == courses[j].course_id {
                    assert(course_views(courses@)[i as int].course_id == course_views(
                        courses@,
                    )[j as int].course_id);
                    return None;
                }
                i = i + 1;
            }
            j = j + 1;
        }
        Some(SponsorBook { courses })
    }

    /// The balance of the course, where it has an entry and `sponsor_id` is its creator.
    pub fn get_sponsor_balance(&self, course_id: &str, sponsor_id: &AccountId) -> (r: Option<u128>)
        ensures
            match r {
                Some(balance) => {
                    &&& has_course(self@, course_id@)
                    &&& course_of(self@, course_id@).creator_id == sponsor_id@
                    &&& balance == course_of(self@, course_id@).sponsor_balance
                },
                None => !has_course(self@, course_id@) || course_of(self@, course_id@).creator_id
                    != sponsor_id@,
            },
    {
        match self.find(course_id) {
            Some(i) => {
                if self.courses[i].creator_id == *sponsor_id {
                    Some(self.courses[i].sponsor_balance)
                } else {
                    None
                }
            },
            None => None,
        }
    }

    /// Adds `amount` to the balance of a course. The first deposit for a course makes the
    /// caller its creator; later deposits are the creator's alone.
    pub fn deposit_sponsor(&mut self, caller: &AccountId, course_id: CourseId, amount: u128) -> (r:
        Result<(), SponsorError>)
        ensures
            distinct_courses(final(self)@),
            match r {
                Ok(()) => {
                    &&& deposit_error(old(self)@, caller@, course_id@, amount) is None
                    &&& final(self)@ == deposit_state(old(self)@, caller@, course_id@, amount)
                },
                Err(e) => deposit_error(old(self)@, caller@, course_id@, amount) == Some(e)
                    && final(self)@ == old(self)@,
            },
    {
        proof {
            use_type_invariant(&*self);
        }
        match self.find(course_id.as_str()) {
            Some(i) => {
                if self.courses[i].creator_id != *caller {
                    return Err(SponsorError::NotOwner);
                }
                let balance: u128 = match self.courses[i].sponsor_balance.checked_add(amount) {
                    Some(b) => b,
                    None => {
                        return Err(SponsorError::Overflow);
                    },
                };
                let mut courses = self.take_courses();
                courses[i].sponsor_balance = balance;
                proof {
                    let after = course_views(courses@);
                    assert(after =~= deposit_state(old(self)@, caller@, course_id@, amount));
                    lemma_same_courses_distinct(old(self)@, after);
                }
                self.courses = courses;
                Ok(())
            },
            None => {
                let entry = CourseMetadata {
                    course_id,
                    sponsor_balance: amount,
                    creator_id: caller.clone(),
                };
                let mut courses = self.take_courses();
                courses.push(entry);
                proof {
                    let after = course_views(courses@);
                    assert(after =~= deposit_state(old(self)@, caller@, course_id@, amount));
                    assert forall|a: int, b: int| 0 <= a < b < after.len() implies (
                    #[trigger] after[a]).course_id != (#[trigger] after[b]).course_id by {
                        if b < old(self)@.len() {
                            assert(old(self)@[a].course_id != old(self)@[b].course_id);
                        } else {
                            assert(old(self)@[a].course_id != course_id@);
                        }
                    }
                }
                self.courses = courses;
                Ok(())
            },
        }
    }

    /// Takes `amount` from the balance of a course and asks for it to be paid to the caller,
    /// who must be the course's creator.
    pub fn withdraw_sponsor(&mut self, caller: &AccountId, course_id: &str, amount: u128) -> (r:
        Result<Request, SponsorError>)
        ensures
            distinct_courses(final(self)@),
            match r {
                Ok(request) => {
                    &&& withdrawal_error(old(self)@, caller@, course_id@, amount) is None
                    &&& final(self)@ == with_balance(
                        old(self)@,
                        course_id@,
                        (course_of(old(self)@, course_id@).sponsor_balance - amount) as u128,
                    )
                    &&& request@ == (RequestView::TransferNative { receiver_id: caller@, amount })
                },
                Err(e) => withdrawal_error(old(self)@, caller@, course_id@, amount) == Some(e)
                    && final(self)@ == old(self)@,
            },
    {
        proof {
            use_type_invariant(&*self);
        }
        let i = match self.find(course_id) {
            Some(i) => i,
            None => {
                return Err(SponsorError::CourseNotFound);
            },
        };
        if self.courses[i].creator_id != *caller {
            return Err(SponsorError::NotOwner);
        }
        if self.courses[i].sponsor_balance < amount {
            return Err(SponsorError::InsufficientBalance);
        }
        let request = Request::TransferNative { receiver_id: caller.clone(), amount };
        let mut courses = self.take_courses();
        courses[i].sponsor_balance = courses[i].sponsor_balance - amount;
        proof {
            let after = course_views(courses@);
            assert(after =~= with_balance(
                old(self)@,
                course_id@,
                (course_of(old(self)@, course_id@).sponsor_balance - amount) as u128,
            ));
            lemma_same_courses_distinct(old(self)@, after);
        }
        self.courses = courses;
        Ok(request)
    }

    /// Whether `caller` may mint a certificate for the course at its sponsor's cost: the
    /// caller is the account that mints, and the course has an entry.
    pub fn check_sponsored_mint(&self, caller: &AccountId, owner: &AccountId, course_id: &str) -> (r:
        Result<(), SponsorError>)
        ensures
            match r {
                Ok(()) => mint_error(self@, caller@, owner@, course_id@) is None,
                Err(e) => mint_error(self@, caller@, owner@, course_id@) == Some(e),
            },
    {
        if *caller != *owner {
            return Err(SponsorError::Unauthorized);
        }
        match self.find(course_id) {
            Some(_) => Ok(()),
            None => Err(SponsorError::CourseNotFound),
        }
    }

    /// Charges a course for a mint that took `storage_used` bytes of storage, at
    /// `storage_byte_cost` each, and used `used_gas` gas. The cost is taken from the
    /// sponsor's balance as far as the balance goes.
    pub fn charge_mint(
        &mut self,
        course_id: &str,
        storage_used: u64,
        storage_byte_cost: u128,
        used_gas: u64,
    ) -> (r: Result<MintCost, SponsorError>)
        ensures
            distinct_courses(final(self)@),
            match r {
                Ok(cost) => {
                    &&& has_course(old(self)@, course_id@)
                    &&& cost.storage_cost == storage_cost(storage_used, storage_byte_cost)
                    &&& cost.gas_cost == gas_cost(used_gas)
                    &&& cost.total_cost == cost.storage_cost + cost.gas_cost
                    &&& cost.charged == course_of(old(self)@, course_id@).sponsor_balance
                        - after_charge(
                        course_of(old(self)@, course_id@).sponsor_balance,
                        cost.total_cost as nat,
                    )
                    &&& final(self)@ == with_balance(
                        old(self)@,
                        course_id@,
                        after_charge(
                            course_of(old(self)@, course_id@).sponsor_balance,
                            cost.total_cost as nat,
                        ),
                    )
                },
                Err(e) => {
                    &&& final(self)@ == old(self)@
                    &&& e == if !has_course(old(self)@, course_id@) {
                        SponsorError::CourseNotFound
                    } else {
                        SponsorError::Overflow
                    }
                    &&& has_course(old(self)@, course_id@) ==> storage_cost(
                        storage_used,
                        storage_byte_cost,
                    ) + gas_cost(used_gas) > u128::MAX
                },
            },
    {
        proof {
            use_type_invariant(&*self);
        }
        let i = match self.find(course_id) {
            Some(i) => i,
            None => {
                return Err(SponsorError::CourseNotFound);
            },
        };
        let tgas: u128 = (used_gas / GAS_PER_TGAS) as u128 + ADDITIONAL_TGAS;
        assert(tgas * PRICE_PER_TGAS <= 20_000_000 * PRICE_PER_TGAS) by (nonlinear_arith)
            requires
                tgas <= 20_000_000,
        ;
        let gas: u128 = tgas * PRICE_PER_TGAS;
        let storage: u128 = match (storage_used as u128).checked_mul(storage_byte_cost) {
            Some(c) => c,
            None => {
                return Err(SponsorError::Overflow);
            },
        };
        let total: u128 = match gas.checked_add(storage) {
            Some(t) => t,
            None => {
                return Err(SponsorError::Overflow);
            },
        };
        let balance: u128 = self.courses[i].sponsor_balance;
        let left: u128 = if balance < total {
            0
        } else {
            balance - total
        };
        let mut courses = self.take_courses();
        courses[i].sponsor_balance = left;
        proof {
            let after = course_views(courses@);
            assert(after =~= with_balance(old(self)@, course_id@, left));
            lemma_same_courses_distinct(old(self)@, after);
        }
        self.courses = courses;
        Ok(MintCost { storage_cost: storage, gas_cost: gas, total_cost: total, charged: balance - left })
    }

    /// Moves the entries out, to be changed and put back.
    fn take_courses(&mut self) -> (courses: Vec<CourseMetadata>)
        ensures
            courses@ == old(self).courses@,
            final(self).courses@.len() == 0,
    {
        let mut courses: Vec<CourseMetadata> = Vec::new();
        core::mem::swap(&mut self.courses, &mut courses);
        courses
    }
}

/// A book whose entries keep their courses keeps having no repeats.
proof fn lemma_same_courses_distinct(before: Seq<CourseView>, after: Seq<CourseView>)
    requires
        distinct_courses(before),
        after.len() == before.len(),
        forall|i: int| 0 <= i < before.len() ==> (#[trigger] after[i]).course_id == before[i].course_id,
    ensures
        distinct_courses(after),
{
    assert forall|i: int, j: int| 0 <= i < j < after.len() implies (#[trigger] after[i]).course_id
        != (#[trigger] after[j]).course_id by {
        assert(before[i].course_id != before[j].course_id);
    }
}

} // verus!
