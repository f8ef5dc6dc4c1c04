//! A ledger that keeps its accounts in memory.

use vstd::prelude::*;
use crate::account::AccountId;
use crate::currency::{
    balance_in, Accounts, Balance, CurrencyLedger, LedgerError, NegativeImbalance,
};

verus! {

/// One account of the table.
#[derive(Clone, Copy, Debug)]
struct Entry {
    who: AccountId,
    free: Balance,
}

/// Whether `entries` has an entry for `who`.
spec fn listed(entries: Seq<Entry>, who: AccountId) -> bool {
    exists|i: int| 0 <= i < entries.len() && (#[trigger] entries[i]).who == who
}

/// Where in `entries` the entry for `who` stands, if there is one.
spec fn slot_of(entries: Seq<Entry>, who: AccountId) -> int {
    choose|i: int| 0 <= i < entries.len() && (#[trigger] entries[i]).who == who
}

/// No account has two entries.
spec fn distinct(entries: Seq<Entry>) -> bool {
    forall|i: int, j: int|
        0 <= i < j < entries.len() ==> (#[trigger] entries[i]).who != (#[trigger] entries[j]).who
}

/// The accounts that `entries` lists, each with its balance.
spec fn accounts_of(entries: Seq<Entry>) -> Accounts {
    Map::new(|who: AccountId| listed(entries, who), |who: AccountId| entries[slot_of(entries, who)].free)
}

/// Each entry of a table without doubles shows up in its accounts.
proof fn lemma_entry_is_account(entries: Seq<Entry>, i: int)
    requires
        distinct(entries),
        0 <= i < entries.len(),
    ensures
        listed(entries, entries[i].who),
        slot_of(entries, entries[i].who) == i,
        accounts_of(entries).dom().contains(entries[i].who),
        accounts_of(entries)[entries[i].who] == entries[i].free,
{
    let who = entries[i].who;
    assert(listed(entries, who));
    let j = slot_of(entries, who);
    assert(0 <= j < entries.len() && entries[j].who == who);
    if j < i {
        assert(entries[j].who != entries[i].who);
    } else if i < j {
        assert(entries[i].who != entries[j].who);
    }
}

/// Adding an entry for an account that has none adds that account.
proof fn lemma_push_adds(entries: Seq<Entry>, entry: Entry)
    requires
        distinct(entries),
        !listed(entries, entry.who),
    ensures
        distinct(entries.push(entry)),
        accounts_of(entries.push(entry)) == accounts_of(entries).insert(entry.who, entry.free),
{
    let longer = entries.push(entry);
    assert forall|i: int, j: int| 0 <= i < j < longer.len() implies (#[trigger] longer[i]).who != (
    #[trigger] longer[j]).who by {
        if j < entries.len() {
            assert(entries[i].who != entries[j].who);
        } else {
            assert(entries[i].who != entry.who);
        }
    }
    let expected = accounts_of(entries).insert(entry.who, entry.free);
    assert forall|who: AccountId| #[trigger] accounts_of(longer).dom().contains(who) implies expected.dom().contains(who) by {
        let i = slot_of(longer, who);
        if i < entries.len() {
            assert(entries[i].who == who);
        }
    }
    assert forall|who: AccountId| #[trigger] expected.dom().contains(who) implies accounts_of(
        longer,
    ).dom().contains(who) && accounts_of(longer)[who] == expected[who] by {
        if who == entry.who {
            assert(longer[entries.len() as int] == entry);
            lemma_entry_is_account(longer, entries.len() as int);
        } else {
            let i = slot_of(entries, who);
            assert(longer[i] == entries[i]);
            lemma_entry_is_account(entries, i);
            lemma_entry_is_account(longer, i);
        }
    }
    assert(accounts_of(longer) =~= expected);
}

/// Writing a new balance into an entry changes that account's balance and nothing else.
proof fn lemma_update_sets(entries: Seq<Entry>, i: int, free: Balance)
    requires
        distinct(entries),
        0 <= i < entries.len(),
    ensures
        distinct(entries.update(i, Entry { who: entries[i].who, free })),
        accounts_of(entries.update(i, Entry { who: entries[i].who, free })) == accounts_of(
            entries,
        ).insert(entries[i].who, free),
{
    let changed = entries.update(i, Entry { who: entries[i].who, free });
    assert forall|a: int, b: int| 0 <= a < b < changed.len() implies (#[trigger] changed[a]).who != (
    #[trigger] changed[b]).who by {
        assert(entries[a].who != entries[b].who);
    }
    let expected = accounts_of(entries).insert(entries[i].who, free);
    assert forall|who: AccountId| #[trigger] accounts_of(changed).dom().contains(who) implies expected.dom().contains(who) by {
        let k = slot_of(changed, who);
        assert(entries[k].who == who);
    }
    assert forall|who: AccountId| #[trigger] expected.dom().contains(who) implies accounts_of(
        changed,
    ).dom().contains(who) && accounts_of(changed)[who] == expected[who] by {
        if who == entries[i].who {
            lemma_entry_is_account(changed, i);
        } else {
            let k = slot_of(entries, who);
            assert(changed[k] == entries[k]);
            lemma_entry_is_account(entries, k);
            lemma_entry_is_account(changed, k);
        }
    }
    assert(accounts_of(changed) =~= expected);
}

/// Taking an entry out removes that account and nothing else.
proof fn lemma_remove_drops(entries: Seq<Entry>, i: int)
    requires
        distinct(entries),
        0 <= i < entries.len(),
    ensures
        distinct(entries.remove(i)),
        accounts_of(entries.remove(i)) == accounts_of(entries).remove(entries[i].who),
{
    let shorter = entries.remove(i);
    assert forall|a: int, b: int| 0 <= a < b < shorter.len() implies (#[trigger] shorter[a]).who != (
    #[trigger] shorter[b]).who by {
        let a0 = if a < i { a } else { a + 1 };
        let b0 = if b < i { b } else { b + 1 };
        assert(shorter[a] == entries[a0]);
        assert(shorter[b] == entries[b0]);
        assert(entries[a0].who != entries[b0].who);
    }
    let expected = accounts_of(entries).remove(entries[i].who);
    assert forall|who: AccountId| #[trigger] accounts_of(shorter).dom().contains(who) implies expected.dom().contains(who) by {
        let k = slot_of(shorter, who);
        let k0 = if k < i { k } else { k + 1 };
        assert(shorter[k] == entries[k0]);
        assert(entries[k0].who == who);
        if k0 < i {
            assert(entries[k0].who != entries[i].who);
        } else {
            assert(entries[i].who != entries[k0].who);
        }
    }
    assert forall|who: AccountId| #[trigger] expected.dom().contains(who) implies accounts_of(
        shorter,
    ).dom().contains(who) && accounts_of(shorter)[who] == expected[who] by {
        let k0 = slot_of(entries, who);
        lemma_entry_is_account(entries, k0);
        let k = if k0 < i { k0 } else { k0 - 1 };
        assert(shorter[k] == entries[k0]);
        lemma_entry_is_account(shorter, k);
    }
    assert(accounts_of(shorter) =~= expected);
}

/// What a table does with a transfer: `Ok` where it carries it out, else the
/// reason why not. The checks come in this order: a transfer to oneself is
/// always fine; the sender must hold the amount; the recipient's new balance
/// must fit, and reach the minimum; and a sender who has to stay must keep the
/// minimum.
pub open spec fn transfer_verdict(
    accounts: Accounts,
    minimum: Balance,
    from: AccountId,
    to: AccountId,
    amount: Balance,
    allow_removal: bool,
) -> Result<(), LedgerError> {
    if from == to {
        Ok(())
    } else if balance_in(accounts, from) < amount {
        Err(LedgerError::InsufficientBalance)
    } else if balance_in(accounts, to) + amount > Balance::MAX {
        Err(LedgerError::Overflow)
    } else if balance_in(accounts, to) + amount < minimum {
        Err(LedgerError::BelowMinimum)
    } else if balance_in(accounts, from) - amount < minimum && !allow_removal {
        Err(LedgerError::WouldRemoveSender)
    } else {
        Ok(())
    }
}

/// The accounts after a transfer that the table carries out: the recipient
/// holds the amount more; the sender holds it less, or is gone if that would
/// be under the minimum.
pub open spec fn after_transfer(
    accounts: Accounts,
    minimum: Balance,
    from: AccountId,
    to: AccountId,
    amount: Balance,
) -> Accounts {
    if from == to {
        accounts
    } else {
        let received = accounts.insert(to, (balance_in(accounts, to) + amount) as Balance);
        let left = balance_in(accounts, from) - amount;
        if left < minimum {
            received.remove(from)
        } else if accounts.dom().contains(from) {
            received.insert(from, left as Balance)
        } else {
            received
        }
    }
}

/// A ledger in memory, whose accounts hold `MINIMUM` or more. An account
/// exists from its first credit on, and is removed when a transfer that may
/// do so leaves it with less than the minimum.
#[derive(Debug)]
pub struct BalanceTable<const MINIMUM: u128> {
    entries: Vec<Entry>,
}

impl<const MINIMUM: u128> BalanceTable<MINIMUM> {
    #[verifier::type_invariant]
    spec fn well_formed(self) -> bool {
        &&& distinct(self.entries@)
        &&& forall|i: int|
            0 <= i < self.entries@.len() ==> (#[trigger] self.entries@[i]).free >= MINIMUM
    }

    /// An empty table.
    pub fn new() -> (table: BalanceTable<MINIMUM>)
        ensures
            table.accounts() == Accounts::empty(),
    {
        let table = BalanceTable { entries: Vec::new() };
        assert(table.accounts() =~= Accounts::empty());
        table
    }

    /// The least balance an account of this table may hold.
    pub fn minimum_balance(&self) -> (minimum: Balance)
        ensures
            minimum == MINIMUM,
    {
        MINIMUM
    }

    /// Whether `who` has an account.
    pub fn account_exists(&self, who: &AccountId) -> (exists: bool)
        ensures
            exists == self.accounts().dom().contains(*who),
    {
        self.find(who).is_some()
    }

    fn find(&self, who: &AccountId) -> (slot: Option<usize>)
        ensures
            match slot {
                Some(i) => i < self.entries@.len() && self.entries@[i as int].who == *who,
                None => !listed(self.entries@, *who),
            },
    {
        let mut i: usize = 0;
        while i < self.entries.len()
            invariant
                i <= self.entries@.len(),
                forall|j: int| 0 <= j < i ==> (#[trigger] self.entries@[j]).who != *who,
            decreases self.entries@.len() - i,
        {
            if self.entries[i].who == *who {
                return Some(i);
            }
            i = i + 1;
        }
        None
    }

    fn held(&self, slot: Option<usize>) -> (free: Balance)
        requires
            slot matches Some(i) ==> i < self.entries@.len(),
        ensures
            free == (match slot {
                Some(i) => self.entries@[i as int].free,
                None => 0,
            }),
    {
        match slot {
            Some(i) => self.entries[i].free,
            None => 0,
        }
    }

    fn put(&mut self, slot: Option<usize>, who: AccountId, free: Balance)
        requires
            free >= MINIMUM,
            match slot {
                Some(i) => i < old(self).entries@.len() && old(self).entries@[i as int].who == who,
                None => !listed(old(self).entries@, who),
            },
        ensures
            final(self).accounts() == old(self).accounts().insert(who, free),
            final(self).entries@.len() >= old(self).entries@.len(),
            forall|i: int|
                0 <= i < old(self).entries@.len() ==> (#[trigger] final(self).entries@[i]).who
                    == old(self).entries@[i].who,
    {
        proof {
            use_type_invariant(&*self);
        }
        let mut entries: Vec<Entry> = Vec::new();
        core::mem::swap(&mut self.entries, &mut entries);
        match slot {
            Some(i) => {
                proof {
                    lemma_update_sets(entries@, i as int, free);
                }
                entries.set(i, Entry { who, free });
            },
            None => {
                proof {
                    lemma_push_adds(entries@, Entry { who, free });
                }
                entries.push(Entry { who, free });
            },
        }
        core::mem::swap(&mut self.entries, &mut entries);
    }

    fn take_out(&mut self, slot: usize)
        requires
            slot < old(self).entries@.len(),
        ensures
            final(self).accounts() == old(self).accounts().remove(
                old(self).entries@[slot as int].who,
            ),
    {
        proof {
            use_type_invariant(&*self);
            lemma_remove_drops(self.entries@, slot as int);
        }
        let mut entries: Vec<Entry> = Vec::new();
        core::mem::swap(&mut self.entries, &mut entries);
        entries.remove(slot);
        core::mem::swap(&mut self.entries, &mut entries);
    }
}

impl<const MINIMUM: u128> CurrencyLedger for BalanceTable<MINIMUM> {
    closed spec fn accounts(&self) -> Accounts {
        accounts_of(self.entries@)
    }

    open spec fn transfer_outcome(
        &self,
        from: AccountId,
        to: AccountId,
        amount: Balance,
        allow_removal: bool,
    ) -> Option<Accounts> {
        if transfer_verdict(self.accounts(), MINIMUM, from, to, amount, allow_removal) is Ok {
            Some(after_transfer(self.accounts(), MINIMUM, from, to, amount))
        } else {
            None
        }
    }

    open spec fn accepts_credit(&self, who: AccountId, amount: Balance) -> bool {
        MINIMUM <= balance_in(self.accounts(), who) + amount <= Balance::MAX
    }

    fn free_balance(&self, who: &AccountId) -> (free: Balance)
        ensures
            self.accounts().dom().contains(*who) ==> free >= MINIMUM,
    {
        proof {
            use_type_invariant(self);
        }
        let slot = self.find(who);
        proof {
            if let Some(i) = slot {
                lemma_entry_is_account(self.entries@, i as int);
            }
        }
        self.held(slot)
    }

    fn transfer(
        &mut self,
        from: &AccountId,
        to: &AccountId,
        amount: Balance,
        allow_removal: bool,
    ) -> (outcome: Result<(), LedgerError>)
        ensures
            outcome == transfer_verdict(
                old(self).accounts(),
                MINIMUM,
                *from,
                *to,
                amount,
                allow_removal,
            ),
    {
        proof {
            use_type_invariant(&*self);
        }
        if *from == *to {
            return Ok(());
        }
        let from_slot = self.find(from);
        let to_slot = self.find(to);
        proof {
            if let Some(i) = from_slot {
                lemma_entry_is_account(self.entries@, i as int);
            }
            if let Some(j) = to_slot {
                lemma_entry_is_account(self.entries@, j as int);
            }
        }
        let held: Balance = self.held(from_slot);
        let had: Balance = self.held(to_slot);
        if held < amount {
            return Err(LedgerError::InsufficientBalance);
        }
        if amount > Balance::MAX - had {
            return Err(LedgerError::Overflow);
        }
        let gained: Balance = had + amount;
        if gained < MINIMUM {
            return Err(LedgerError::BelowMinimum);
        }
        let left: Balance = held - amount;
        if left < MINIMUM && !allow_removal {
            return Err(LedgerError::WouldRemoveSender);
        }
        self.put(to_slot, *to, gained);
        if let Some(i) = from_slot {
            if left < MINIMUM {
                self.take_out(i);
            } else {
                self.put(Some(i), *from, left);
            }
        }
        assert(self.accounts() =~= after_transfer(
            old(self).accounts(),
            MINIMUM,
            *from,
            *to,
            amount,
        ));
        Ok(())
    }

    fn resolve_creating(&mut self, who: &AccountId, imbalance: NegativeImbalance) -> (outcome:
        Result<(), NegativeImbalance>)
    {
        proof {
            use_type_invariant(&*self);
        }
        let slot = self.find(who);
        proof {
            if let Some(i) = slot {
                lemma_entry_is_account(self.entries@, i as int);
            }
        }
        let had: Balance = self.held(slot);
        let amount: Balance = imbalance.peek();
        if amount > Balance::MAX - had {
            return Err(imbalance);
        }
        let gained: Balance = had + amount;
        if gained < MINIMUM {
            return Err(imbalance);
        }
        self.put(slot, *who, gained);
        Ok(())
    }
}

} // verus!
