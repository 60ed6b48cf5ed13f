//! Accounts: who has made how many images, and what credit is left.

use crate::dalle::ImageRequest;
use crate::text::{append_decimal, decimal};
use vstd::prelude::*;
use vstd::string::*;

verus! {

/// A new account starts with this credit, in thousandths of a cent: twenty
/// dollars.
pub const STARTING_CREDIT: i64 = 2_000_000;

/// An amount of money, in thousandths of a cent.
#[derive(Debug, Clone, Copy, PartialEq, Eq, Structural)]
pub struct Cost {
    pub millicents: u128,
}

impl Cost {
    /// The cost of so many cents.
    pub fn cents(cents: u64) -> (cost: Cost)
        ensures
            cost.millicents == cents * 1000,
    {
        Cost { millicents: (cents as u128) * 1000 }
    }
}

/// Whether a request may go ahead.
#[derive(Debug, Clone, Copy, PartialEq, Eq, Structural)]
#[must_use]
pub enum RequestPermitted {
    Yes,
    No,
}

/// The account of one user.
#[derive(Debug, Clone)]
pub struct Account {
    pub user: String,
    pub images: u64,
    /// in millicents
    pub credit: i64,
    pub total_cost: i64,
}

impl Account {
    /// The request can be put on the account without a number running over.
    pub open spec fn can_carry(&self, request: &ImageRequest) -> bool {
        &&& self.credit - request.spec_cost() >= i64::MIN
        &&& self.total_cost + request.spec_cost() <= i64::MAX
        &&& self.images + request.num <= u64::MAX
    }

    /// How the user of an account is written: the name, `#`, and the
    /// discriminator.
    pub open spec fn user_text(name: Seq<char>, discriminator: u16) -> Seq<char> {
        name + "#"@ + decimal(discriminator as nat)
    }

    /// Whether the account has spent more than its credit.
    pub fn overdrafted(&self) -> (over: bool)
        ensures
            over == (self.credit < 0),
    {
        self.credit < 0
    }

    /// Puts a request on the account: its cost comes off the credit and is
    /// added to the total, and its images are counted.
    pub fn account_for_request(&mut self, request: &ImageRequest)
        requires
            old(self).can_carry(request),
        ensures
            final(self).credit == old(self).credit - request.spec_cost(),
            final(self).total_cost == old(self).total_cost + request.spec_cost(),
            final(self).images == old(self).images + request.num,
            final(self).user == old(self).user,
    {
        let cost = request.cost();
        self.credit -= cost.millicents as i64;
        self.total_cost += cost.millicents as i64;
        self.images += request.num_images() as u64;
    }

    /// The account that a user starts with: no image made, nothing spent,
    /// and the starting credit.
    pub fn default_for_user(name: &str, discriminator: u16) -> (account: Account)
        ensures
            account.images == 0,
            account.credit == STARTING_CREDIT,
            account.total_cost == 0,
            account.user@ == Account::user_text(name@, discriminator),
    {
        let mut user = String::new();
        user.append(name);
        assert(user@ =~= name@);
        user.append("#");
        append_decimal(&mut user, discriminator as u64);
        Account {
            images: 0,
            // erry body gets 20 bucks
            credit: STARTING_CREDIT,
            total_cost: 0,
            user,
        }
    }
}

/// Decides on a request and books it. An account that is overdrafted is
/// refused and stays as it is. Any other account is charged, even where that
/// overdraws it: the next request is then the one refused.
pub fn debit_for_request(account: &mut Account, request: &ImageRequest) -> (permitted:
    RequestPermitted)
    requires
        old(account).credit >= 0 ==> old(account).can_carry(request),
    ensures
        permitted == if old(account).credit < 0 {
            RequestPermitted::No
        } else {
            RequestPermitted::Yes
        },
        old(account).credit < 0 ==> *final(account) == *old(account),
        old(account).credit >= 0 ==> {
            &&& final(account).credit == old(account).credit - request.spec_cost()
            &&& final(account).total_cost == old(account).total_cost + request.spec_cost()
            &&& final(account).images == old(account).images + request.num
            &&& final(account).user == old(account).user
        },
{
    if account.overdrafted() {
        return RequestPermitted::No;
    }
    account.account_for_request(request);
    RequestPermitted::Yes
}

} // verus!
