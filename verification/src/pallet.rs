//! The pot itself: donations in, stray imbalances in, and a balance to show.

use vstd::prelude::*;
use crate::account::{derive_account_id, derived_account, derived_account_bytes, AccountId};
use crate::currency::{
    balance_in, credited, transferred, Balance, CurrencyLedger, NegativeImbalance,
};
use crate::events::{Event, EventSink};
use crate::history::{step_taken, Step};

verus! {

/// The identifier that the pot's account is derived from: `Charity!`.
pub const PALLET_ID: [u8; 8] = [0x43, 0x68, 0x61, 0x72, 0x69, 0x74, 0x79, 0x21];

/// What the pot needs from the runtime around it.
pub trait Config {
    /// The currency that the pot deals in.
    type Currency: CurrencyLedger;

    /// Where the pot's events go.
    type Events: EventSink;
}

/// Why the pot could not do what it was asked.
#[derive(Debug, PartialEq, Eq)]
pub enum Error {
    /// The ledger refused to move the donation.
    TransferRejected,
    /// The ledger refused to credit the imbalance, which is handed back so
    /// that it is not lost.
    ImbalanceUnresolved(NegativeImbalance),
}

/// The account that holds the pot's funds.
pub open spec fn pot_account() -> AccountId {
    derived_account(PALLET_ID@)
}

/// The pot's account is made of the tag `modl`, the pallet identifier and
/// twenty zero bytes.
pub proof fn lemma_pot_account_bytes()
    ensures
        pot_account()@ == derived_account_bytes(PALLET_ID@),
{
    let witness = AccountId(
        [
            0x6d, 0x6f, 0x64, 0x6c, 0x43, 0x68, 0x61, 0x72, 0x69, 0x74, 0x79, 0x21, 0, 0, 0, 0, 0,
            0, 0, 0, 0, 0, 0, 0, 0, 0, 0, 0, 0, 0, 0, 0,
        ],
    );
    assert(witness@ =~= derived_account_bytes(PALLET_ID@));
}

/// The pot, with the ledger it keeps its funds in and the sink it reports to.
pub struct Pallet<T: Config> {
    pub currency: T::Currency,
    pub events: T::Events,
}

impl<T: Config> Pallet<T> {
    /// A pot on the given ledger, reporting to the given sink.
    pub fn new(currency: T::Currency, events: T::Events) -> (pallet: Pallet<T>)
        ensures
            pallet.currency == currency,
            pallet.events == events,
    {
        Pallet { currency, events }
    }

    /// The pot's balance, as the ledger has it.
    pub open spec fn pot_balance(&self) -> Balance {
        balance_in(self.currency.accounts(), pot_account())
    }

    /// The account that holds the pot's funds. It is the same on every call.
    pub fn account_id() -> (account: AccountId)
        ensures
            account == pot_account(),
            account@ == derived_account_bytes(PALLET_ID@),
    {
        derive_account_id(&PALLET_ID)
    }

    /// The pot's balance, read from the ledger; zero while the pot's account
    /// does not exist.
    pub fn pot(&self) -> (balance: Balance)
        ensures
            balance == self.pot_balance(),
    {
        self.currency.free_balance(&Self::account_id())
    }

    /// Moves `amount` from `donor` to the pot. The donor's account may be
    /// removed if the donation leaves it under the ledger's minimum.
    ///
    /// The donation succeeds exactly when the ledger carries out the transfer.
    /// Then one event goes out, with the pot's balance as the ledger has it
    /// after the transfer. A refused donation changes no account and sends
    /// no event.
    pub fn donate(&mut self, donor: AccountId, amount: Balance) -> (outcome: Result<(), Error>)
        ensures
            match old(self).currency.transfer_outcome(donor, pot_account(), amount, true) {
                Some(after) => {
                    &&& outcome is Ok
                    &&& final(self).currency.accounts() == after
                    &&& transferred(
                        old(self).currency.accounts(),
                        after,
                        donor,
                        pot_account(),
                        amount,
                        true,
                    )
                    &&& final(self).events.emitted() == old(self).events.emitted().push(
                        Event::DonationReceived(donor, amount, final(self).pot_balance()),
                    )
                },
                None => {
                    &&& outcome == Err::<(), Error>(Error::TransferRejected)
                    &&& final(self).currency.accounts() == old(self).currency.accounts()
                    &&& final(self).events.emitted() == old(self).events.emitted()
                },
            },
            step_taken(
                old(self).currency.accounts(),
                (Step::Donated { donor, amount, accepted: outcome is Ok }),
                final(self).currency.accounts(),
            ),
    {
        let pot = Self::account_id();
        match self.currency.transfer(&donor, &pot, amount, true) {
            Ok(()) => {
                let balance: Balance = self.pot();
                self.events.deposit_event(Event::DonationReceived(donor, amount, balance));
                Ok(())
            },
            Err(_) => Err(Error::TransferRejected),
        }
    }

    /// Gives a home to an imbalance that the rest of the runtime left behind:
    /// credits it to the pot, creating the pot's account if there is none.
    ///
    /// This succeeds exactly when the ledger accepts the credit. Then the pot
    /// holds the imbalance's amount more than before, and one event goes out
    /// with that amount and the pot's balance as the ledger has it afterwards.
    /// A refused imbalance is handed back in the error, and nothing changes.
    pub fn on_nonzero_unbalanced(&mut self, amount: NegativeImbalance) -> (outcome: Result<
        (),
        Error,
    >)
        ensures
            outcome is Ok <==> old(self).currency.accepts_credit(pot_account(), amount@),
            outcome is Ok ==> {
                &&& credited(
                    old(self).currency.accounts(),
                    final(self).currency.accounts(),
                    pot_account(),
                    amount@,
                )
                &&& final(self).events.emitted() == old(self).events.emitted().push(
                    Event::ImbalanceAbsorbed(amount@, final(self).pot_balance()),
                )
            },
            outcome matches Err(error) ==> {
                &&& error == Error::ImbalanceUnresolved(amount)
                &&& final(self).currency.accounts() == old(self).currency.accounts()
                &&& final(self).events.emitted() == old(self).events.emitted()
            },
            step_taken(
                old(self).currency.accounts(),
                (Step::Absorbed { amount: amount@, accepted: outcome is Ok }),
                final(self).currency.accounts(),
            ),
    {
        let numeric_amount: Balance = amount.peek();
        let pot = Self::account_id();
        match self.currency.resolve_creating(&pot, amount) {
            Ok(()) => {
                let balance: Balance = self.pot();
                self.events.deposit_event(Event::ImbalanceAbsorbed(numeric_amount, balance));
                Ok(())
            },
            Err(unresolved) => Err(Error::ImbalanceUnresolved(unresolved)),
        }
    }
}

} // verus!
