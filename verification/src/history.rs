//! What holds of the pot over any run of calls.

use vstd::prelude::*;
use crate::account::AccountId;
use crate::circulation::{held_by, lemma_credit_adds_its_amount, lemma_transfer_adds_nothing};
use crate::currency::{balance_in, credited, transferred, Accounts, Balance};
use crate::pallet::pot_account;

verus! {

/// One call to the pot, and whether the ledger went along with it.
pub enum Step {
    /// A donation of `amount` by `donor`.
    Donated { donor: AccountId, amount: Balance, accepted: bool },
    /// An imbalance of `amount` handed to the pot.
    Absorbed { amount: Balance, accepted: bool },
}

/// `after` is what one call makes of `before`: an accepted donation moves
/// its amount from the donor to the pot, an accepted imbalance is credited
/// to the pot, and a refused call changes nothing.
pub open spec fn step_taken(
    before: Accounts,
    step: Step,
    after: Accounts,
) -> bool {
    match step {
        Step::Donated { donor, amount, accepted } => if accepted {
            transferred(before, after, donor, pot_account(), amount, true)
        } else {
            after == before
        },
        Step::Absorbed { amount, accepted } => if accepted {
            credited(before, after, pot_account(), amount)
        } else {
            after == before
        },
    }
}

/// What one call brought in: its amount if it was accepted, else nothing.
pub open spec fn received(step: Step) -> nat {
    match step {
        Step::Donated { amount, accepted, .. } => if accepted {
            amount as nat
        } else {
            0
        },
        Step::Absorbed { amount, accepted } => if accepted {
            amount as nat
        } else {
            0
        },
    }
}

/// What a run of calls brought in, all told.
pub open spec fn total_received(steps: Seq<Step>) -> nat
    decreases steps.len(),
{
    if steps.len() == 0 {
        0
    } else {
        total_received(steps.drop_last()) + received(steps.last())
    }
}

/// `states` are the accounts before, between and after the calls in `steps`,
/// with nothing else touching the ledger in between.
pub open spec fn is_history(states: Seq<Accounts>, steps: Seq<Step>) -> bool {
    &&& states.len() == steps.len() + 1
    &&& forall|i: int|
        0 <= i < steps.len() ==> step_taken(states[i], #[trigger] steps[i], states[i + 1])
}

/// No donation in `steps` comes from the pot's own account.
pub open spec fn donors_are_outsiders(steps: Seq<Step>) -> bool {
    forall|i: int|
        0 <= i < steps.len() ==> ((#[trigger] steps[i]) matches Step::Donated { donor, .. }
            ==> donor != pot_account())
}

/// An accepted call that is not a donation of the pot to itself leaves the
/// pot with exactly its amount more; a refused one leaves it as it was.
pub proof fn lemma_step_adds_what_it_received(
    before: Accounts,
    step: Step,
    after: Accounts,
)
    requires
        step_taken(before, step, after),
        step matches Step::Donated { donor, .. } ==> donor != pot_account(),
    ensures
        balance_in(after, pot_account()) == balance_in(before, pot_account()) + received(step),
{
}

/// Conservation: after any run of donations and absorptions, the pot holds
/// what it held before plus the amounts of the calls that were accepted, no
/// more and no less.
pub proof fn lemma_pot_holds_what_it_received(
    states: Seq<Accounts>,
    steps: Seq<Step>,
)
    requires
        is_history(states, steps),
        donors_are_outsiders(steps),
    ensures
        balance_in(states.last(), pot_account()) == balance_in(states[0], pot_account())
            + total_received(steps),
    decreases steps.len(),
{
    if steps.len() > 0 {
        let n = steps.len() as int;
        let earlier_states = states.drop_last();
        let earlier_steps = steps.drop_last();
        assert forall|i: int| 0 <= i < earlier_steps.len() implies step_taken(
            earlier_states[i],
            #[trigger] earlier_steps[i],
            earlier_states[i + 1],
        ) by {
            assert(earlier_steps[i] == steps[i]);
        }
        assert forall|i: int| 0 <= i < earlier_steps.len() implies ((
        #[trigger] earlier_steps[i]) matches Step::Donated { donor, .. } ==> donor
            != pot_account()) by {
            assert(earlier_steps[i] == steps[i]);
        }
        lemma_pot_holds_what_it_received(earlier_states, earlier_steps);
        assert(earlier_states.last() == states[n - 1]);
        assert(steps.last() == steps[n - 1]);
        lemma_step_adds_what_it_received(states[n - 1], steps[n - 1], states[n]);
    }
}

/// What the accepted absorptions of a run brought back into circulation.
pub open spec fn total_absorbed(steps: Seq<Step>) -> nat
    decreases steps.len(),
{
    if steps.len() == 0 {
        0
    } else {
        total_absorbed(steps.drop_last()) + (if steps.last() is Absorbed {
            received(steps.last())
        } else {
            0
        })
    }
}

/// `group` holds the pot's account and the account of every donor in `steps`.
pub open spec fn holds_everyone(group: Seq<AccountId>, steps: Seq<Step>) -> bool {
    &&& group.contains(pot_account())
    &&& forall|i: int|
        0 <= i < steps.len() ==> ((#[trigger] steps[i]) matches Step::Donated { donor, .. }
            ==> group.contains(donor))
}

/// No call issues currency. A donation leaves a group that holds the donor
/// and the pot with no more than it had. An absorption leaves a group that
/// holds the pot with exactly the absorbed amount more: the amount that left
/// circulation when the imbalance arose comes back whole.
pub proof fn lemma_step_issues_nothing(
    before: Accounts,
    step: Step,
    after: Accounts,
    group: Seq<AccountId>,
)
    requires
        step_taken(before, step, after),
        group.no_duplicates(),
        group.contains(pot_account()),
        step matches Step::Donated { donor, .. } ==> group.contains(donor),
    ensures
        step is Donated ==> held_by(after, group) <= held_by(before, group),
        step is Absorbed ==> held_by(after, group) == held_by(before, group) + received(step),
{
    match step {
        Step::Donated { donor, amount, accepted } => {
            if accepted {
                lemma_transfer_adds_nothing(
                    before,
                    after,
                    donor,
                    pot_account(),
                    amount,
                    true,
                    group,
                );
            }
        },
        Step::Absorbed { amount, accepted } => {
            if accepted {
                lemma_credit_adds_its_amount(before, after, pot_account(), amount, group);
            }
        },
    }
}

/// Over a whole run, the accounts involved never hold more than they held at
/// the start plus what the accepted absorptions brought back.
pub proof fn lemma_run_issues_nothing(
    states: Seq<Accounts>,
    steps: Seq<Step>,
    group: Seq<AccountId>,
)
    requires
        is_history(states, steps),
        group.no_duplicates(),
        holds_everyone(group, steps),
    ensures
        held_by(states.last(), group) <= held_by(states[0], group) + total_absorbed(steps),
    decreases steps.len(),
{
    if steps.len() > 0 {
        let n = steps.len() as int;
        let earlier_states = states.drop_last();
        let earlier_steps = steps.drop_last();
        assert forall|i: int| 0 <= i < earlier_steps.len() implies step_taken(
            earlier_states[i],
            #[trigger] earlier_steps[i],
            earlier_states[i + 1],
        ) by {
            assert(earlier_steps[i] == steps[i]);
        }
        assert forall|i: int| 0 <= i < earlier_steps.len() implies ((
        #[trigger] earlier_steps[i]) matches Step::Donated { donor, .. } ==> group.contains(
            donor,
        )) by {
            assert(earlier_steps[i] == steps[i]);
        }
        lemma_run_issues_nothing(earlier_states, earlier_steps, group);
        assert(earlier_states.last() == states[n - 1]);
        assert(steps.last() == steps[n - 1]);
        lemma_step_issues_nothing(states[n - 1], steps[n - 1], states[n], group);
    }
}

} // verus!
