//! Balances, imbalances, and the ledger that a runtime keeps them in.

use vstd::prelude::*;
use crate::account::AccountId;

verus! {

/// An amount of currency.
pub type Balance = u128;

/// Currency that has left an account and has not been credited anywhere yet.
///
/// It cannot be copied: whoever holds it resolves it once, or hands it on.
#[derive(Debug, PartialEq, Eq)]
pub struct NegativeImbalance {
    amount: Balance,
}

impl View for NegativeImbalance {
    type V = Balance;

    closed spec fn view(&self) -> Balance {
        self.amount
    }
}

impl NegativeImbalance {
    /// An imbalance of `amount`.
    pub fn new(amount: Balance) -> (imbalance: NegativeImbalance)
        ensures
            imbalance@ == amount,
    {
        NegativeImbalance { amount }
    }

    /// The amount that is out of balance.
    pub fn peek(&self) -> (amount: Balance)
        ensures
            amount == self@,
    {
        self.amount
    }
}

/// Why a ledger turned a transfer down.
#[derive(Clone, Copy, Debug, PartialEq, Eq, Structural)]
pub enum LedgerError {
    /// The sender holds less than the amount.
    InsufficientBalance,
    /// The sender would be left under the minimum balance and has to stay.
    WouldRemoveSender,
    /// The recipient would be left under the minimum balance.
    BelowMinimum,
    /// The recipient's balance would not fit in a `Balance`.
    Overflow,
    /// The ledger has a reason of its own.
    Other,
}

/// The accounts of a ledger: each account that exists, with its free balance.
pub type Accounts = Map<AccountId, Balance>;

/// What `accounts` holds for `who`: nothing, where there is no such account.
pub open spec fn balance_in(accounts: Accounts, who: AccountId) -> Balance {
    if accounts.dom().contains(who) {
        accounts[who]
    } else {
        0
    }
}

/// `who` is in `after` just as it was in `before`: there or not, with the same balance.
pub open spec fn untouched(
    before: Accounts,
    after: Accounts,
    who: AccountId,
) -> bool {
    &&& after.dom().contains(who) == before.dom().contains(who)
    &&& balance_in(after, who) == balance_in(before, who)
}

/// `after` is `before` once `amount` has moved from `from` to `to`.
///
/// The recipient gains the amount. The sender loses it and stays; or, where
/// removal is allowed, the sender's account may be gone, with whatever dust
/// was left in it. A transfer to oneself changes nothing, and no third
/// account is touched.
pub open spec fn transferred(
    before: Accounts,
    after: Accounts,
    from: AccountId,
    to: AccountId,
    amount: Balance,
    allow_removal: bool,
) -> bool {
    if from == to {
        after == before
    } else {
        &&& amount <= balance_in(before, from)
        &&& balance_in(after, to) == balance_in(before, to) + amount
        &&& before.dom().contains(to) ==> after.dom().contains(to)
        &&& {
            ||| {
                &&& after.dom().contains(from) == before.dom().contains(from)
                &&& balance_in(after, from) == balance_in(before, from) - amount
            }
            ||| allow_removal && !after.dom().contains(from)
        }
        &&& forall|who: AccountId|
            who != from && who != to ==> #[trigger] untouched(before, after, who)
    }
}

/// `after` is `before` once `amount` has been credited to `who`, whose account
/// exists from then on. No other account is touched.
pub open spec fn credited(
    before: Accounts,
    after: Accounts,
    who: AccountId,
    amount: Balance,
) -> bool {
    &&& balance_in(before, who) + amount <= Balance::MAX
    &&& after == before.insert(who, (balance_in(before, who) + amount) as Balance)
}

/// A credit adds exactly its amount, whether or not the account was there
/// before, and leaves every other account alone.
pub proof fn lemma_credit_adds_exactly(
    before: Accounts,
    after: Accounts,
    who: AccountId,
    amount: Balance,
)
    requires
        credited(before, after, who, amount),
    ensures
        after.dom().contains(who),
        balance_in(after, who) == balance_in(before, who) + amount,
        forall|other: AccountId| other != who ==> #[trigger] untouched(before, after, other),
{
}

/// The balance-keeping part of a runtime, as far as the pot needs it.
///
/// A ledger decides by itself which requests it accepts, and says so through
/// `transfer_outcome` and `accepts_credit`. What it must get right is the
/// effect: an accepted request changes the accounts as asked, and a refused
/// one changes nothing.
pub trait CurrencyLedger {
    /// The accounts that exist, each with its free balance.
    spec fn accounts(&self) -> Accounts;

    /// What the ledger, as it stands, makes of a request to move `amount`
    /// from `from` to `to`: the accounts after the transfer, or `None` where
    /// it refuses.
    spec fn transfer_outcome(
        &self,
        from: AccountId,
        to: AccountId,
        amount: Balance,
        allow_removal: bool,
    ) -> Option<Accounts>;

    /// Whether the ledger, as it stands, lets `amount` be credited to `who`.
    spec fn accepts_credit(&self, who: AccountId, amount: Balance) -> bool;

    /// The free balance of `who`; zero for an account that does not exist.
    fn free_balance(&self, who: &AccountId) -> (free: Balance)
        ensures
            free == balance_in(self.accounts(), *who),
    ;

    /// Moves `amount` from `from` to `to`. With `allow_removal` the sender's
    /// account may be removed when the transfer leaves it under the ledger's
    /// minimum; without it the sender stays.
    fn transfer(
        &mut self,
        from: &AccountId,
        to: &AccountId,
        amount: Balance,
        allow_removal: bool,
    ) -> (outcome: Result<(), LedgerError>)
        ensures
            match old(self).transfer_outcome(*from, *to, amount, allow_removal) {
                Some(after) => {
                    &&& outcome is Ok
                    &&& final(self).accounts() == after
                    &&& transferred(old(self).accounts(), after, *from, *to, amount, allow_removal)
                },
                None => {
                    &&& outcome is Err
                    &&& final(self).accounts() == old(self).accounts()
                },
            },
    ;

    /// Credits an imbalance to `who`, creating the account if there is none.
    /// A refused imbalance comes back whole.
    fn resolve_creating(&mut self, who: &AccountId, imbalance: NegativeImbalance) -> (outcome:
        Result<(), NegativeImbalance>)
        ensures
            outcome is Ok <==> old(self).accepts_credit(*who, imbalance@),
            outcome is Ok ==> credited(
                old(self).accounts(),
                final(self).accounts(),
                *who,
                imbalance@,
            ),
            outcome matches Err(unresolved) ==> unresolved == imbalance && final(self).accounts()
                == old(self).accounts(),
    ;
}

} // verus!
