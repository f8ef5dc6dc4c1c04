//! What a group of accounts holds in total, and how transfers and credits
//! change it.

use vstd::prelude::*;
use crate::account::AccountId;
use crate::currency::{balance_in, credited, transferred, untouched, Accounts, Balance};

verus! {

/// What the accounts of `group` hold between them.
pub open spec fn held_by(accounts: Accounts, group: Seq<AccountId>) -> nat
    decreases group.len(),
{
    if group.len() == 0 {
        0
    } else {
        held_by(accounts, group.drop_last()) + balance_in(accounts, group.last()) as nat
    }
}

/// How much more `who` holds in `after` than in `before`.
pub open spec fn gain_of(before: Accounts, after: Accounts, who: AccountId) -> int {
    balance_in(after, who) - balance_in(before, who)
}

/// Where no account of a group but `first` and `second` changes its balance,
/// the group's total changes by what those two gained.
pub proof fn lemma_total_moves_with_its_members(
    before: Accounts,
    after: Accounts,
    group: Seq<AccountId>,
    first: AccountId,
    second: AccountId,
)
    requires
        group.no_duplicates(),
        forall|who: AccountId|
            group.contains(who) && who != first && who != second ==> #[trigger] balance_in(
                after,
                who,
            ) == balance_in(before, who),
    ensures
        held_by(after, group) - held_by(before, group) == (if group.contains(first) {
            gain_of(before, after, first)
        } else {
            0
        }) + (if group.contains(second) && second != first {
            gain_of(before, after, second)
        } else {
            0
        }),
    decreases group.len(),
{
    if group.len() > 0 {
        let rest = group.drop_last();
        let last = group.last();
        assert(group[group.len() - 1] == last);
        assert forall|who: AccountId| rest.contains(who) implies group.contains(who) && who
            != last by {
            let i = choose|i: int| 0 <= i < rest.len() && rest[i] == who;
            assert(group[i] == who);
        }
        assert forall|who: AccountId| group.contains(who) && who != last implies rest.contains(
            who,
        ) by {
            let i = choose|i: int| 0 <= i < group.len() && group[i] == who;
            assert(rest[i] == who);
        }
        assert(group.contains(last));
        lemma_total_moves_with_its_members(before, after, rest, first, second);
    }
}

/// A transfer puts no new currency into circulation: a group that holds both
/// the sender and the recipient holds no more after it than before, and the
/// same where the sender's account stays.
pub proof fn lemma_transfer_adds_nothing(
    before: Accounts,
    after: Accounts,
    from: AccountId,
    to: AccountId,
    amount: Balance,
    allow_removal: bool,
    group: Seq<AccountId>,
)
    requires
        transferred(before, after, from, to, amount, allow_removal),
        group.no_duplicates(),
        group.contains(from),
        group.contains(to),
    ensures
        held_by(after, group) <= held_by(before, group),
        after.dom().contains(from) ==> held_by(after, group) == held_by(before, group),
{
    if from != to {
        assert forall|who: AccountId|
            group.contains(who) && who != from && who != to implies #[trigger] balance_in(
            after,
            who,
        ) == balance_in(before, who) by {
            assert(untouched(before, after, who));
        }
        lemma_total_moves_with_its_members(before, after, group, from, to);
    }
}

/// A credit puts exactly its amount into circulation: a group that holds the
/// account holds that much more after it.
pub proof fn lemma_credit_adds_its_amount(
    before: Accounts,
    after: Accounts,
    who: AccountId,
    amount: Balance,
    group: Seq<AccountId>,
)
    requires
        credited(before, after, who, amount),
        group.no_duplicates(),
        group.contains(who),
    ensures
        held_by(after, group) == held_by(before, group) + amount,
{
    lemma_total_moves_with_its_members(before, after, group, who, who);
}

} // verus!
