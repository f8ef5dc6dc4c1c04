use charity::{
    AccountId, Balance, BalanceTable, Config, CurrencyLedger, Error, Event, EventLog,
    NegativeImbalance, Pallet,
};

struct Runtime;

impl Config for Runtime {
    type Currency = BalanceTable<1>;
    type Events = EventLog;
}

struct Strict;

impl Config for Strict {
    type Currency = BalanceTable<10>;
    type Events = EventLog;
}

struct Lenient;

impl Config for Lenient {
    type Currency = BalanceTable<0>;
    type Events = EventLog;
}

fn donor() -> AccountId {
    AccountId([1u8; 32])
}

fn funded<const MINIMUM: u128>(accounts: &[(AccountId, Balance)]) -> BalanceTable<MINIMUM> {
    let mut table = BalanceTable::<MINIMUM>::new();
    for (who, amount) in accounts {
        assert_eq!(table.resolve_creating(who, NegativeImbalance::new(*amount)), Ok(()));
    }
    table
}

fn pot_with(donor_holds: Balance, pot_holds: Balance) -> Pallet<Runtime> {
    let pot = Pallet::<Runtime>::account_id();
    let mut accounts = vec![(donor(), donor_holds)];
    if pot_holds > 0 {
        accounts.push((pot, pot_holds));
    }
    Pallet::new(funded::<1>(&accounts), EventLog::new())
}

#[test]
fn pot_is_zero_before_it_has_an_account() {
    let pallet: Pallet<Runtime> = Pallet::new(BalanceTable::new(), EventLog::new());
    assert_eq!(pallet.pot(), 0);
    assert!(!pallet.currency.account_exists(&Pallet::<Runtime>::account_id()));
}

#[test]
fn donation_moves_the_amount_and_reports_it() {
    let mut pallet = pot_with(100, 0);
    assert_eq!(pallet.donate(donor(), 30), Ok(()));
    assert_eq!(pallet.currency.free_balance(&donor()), 70);
    assert_eq!(pallet.pot(), 30);
    assert_eq!(pallet.events.records, vec![Event::DonationReceived(donor(), 30, 30)]);
}

#[test]
fn donation_beyond_the_balance_is_rejected_and_changes_nothing() {
    let mut pallet = pot_with(100, 0);
    assert_eq!(pallet.donate(donor(), 1000), Err(Error::TransferRejected));
    assert_eq!(pallet.currency.free_balance(&donor()), 100);
    assert_eq!(pallet.pot(), 0);
    assert!(!pallet.currency.account_exists(&Pallet::<Runtime>::account_id()));
    assert!(pallet.events.records.is_empty());
}

#[test]
fn rejected_donation_leaves_a_funded_pot_alone() {
    let mut pallet = pot_with(100, 40);
    assert_eq!(pallet.donate(donor(), 101), Err(Error::TransferRejected));
    assert_eq!(pallet.currency.free_balance(&donor()), 100);
    assert_eq!(pallet.pot(), 40);
    assert!(pallet.events.records.is_empty());
}

#[test]
fn donation_from_an_unknown_account_is_rejected() {
    let mut pallet = pot_with(100, 0);
    let stranger = AccountId([9u8; 32]);
    assert_eq!(pallet.donate(stranger, 1), Err(Error::TransferRejected));
    assert_eq!(pallet.pot(), 0);
    assert!(pallet.events.records.is_empty());
}

#[test]
fn absorption_adds_to_a_funded_pot_and_reports_it() {
    let mut pallet = pot_with(100, 30);
    assert_eq!(pallet.on_nonzero_unbalanced(NegativeImbalance::new(50)), Ok(()));
    assert_eq!(pallet.pot(), 80);
    assert_eq!(pallet.events.records, vec![Event::ImbalanceAbsorbed(50, 80)]);
    assert_eq!(pallet.currency.free_balance(&donor()), 100);
}

#[test]
fn absorption_creates_the_pot_account() {
    let mut pallet: Pallet<Runtime> = Pallet::new(BalanceTable::new(), EventLog::new());
    let pot = Pallet::<Runtime>::account_id();
    assert!(!pallet.currency.account_exists(&pot));
    assert_eq!(pallet.on_nonzero_unbalanced(NegativeImbalance::new(7)), Ok(()));
    assert!(pallet.currency.account_exists(&pot));
    assert_eq!(pallet.pot(), 7);
    assert_eq!(pallet.events.records, vec![Event::ImbalanceAbsorbed(7, 7)]);
}

#[test]
fn absorption_under_the_minimum_hands_the_imbalance_back() {
    let mut pallet: Pallet<Strict> = Pallet::new(BalanceTable::new(), EventLog::new());
    assert_eq!(
        pallet.on_nonzero_unbalanced(NegativeImbalance::new(5)),
        Err(Error::ImbalanceUnresolved(NegativeImbalance::new(5)))
    );
    assert_eq!(pallet.pot(), 0);
    assert!(!pallet.currency.account_exists(&Pallet::<Strict>::account_id()));
    assert!(pallet.events.records.is_empty());
}

#[test]
fn absorption_that_would_overflow_hands_the_imbalance_back() {
    let pot = Pallet::<Runtime>::account_id();
    let mut pallet: Pallet<Runtime> =
        Pallet::new(funded::<1>(&[(pot, Balance::MAX)]), EventLog::new());
    match pallet.on_nonzero_unbalanced(NegativeImbalance::new(1)) {
        Err(Error::ImbalanceUnresolved(unresolved)) => assert_eq!(unresolved.peek(), 1),
        other => panic!("expected the imbalance back, got {:?}", other),
    }
    assert_eq!(pallet.pot(), Balance::MAX);
    assert!(pallet.events.records.is_empty());
}

#[test]
fn absorption_up_to_the_largest_balance_is_accepted() {
    let pot = Pallet::<Runtime>::account_id();
    let mut pallet: Pallet<Runtime> =
        Pallet::new(funded::<1>(&[(pot, Balance::MAX - 1)]), EventLog::new());
    assert_eq!(pallet.on_nonzero_unbalanced(NegativeImbalance::new(1)), Ok(()));
    assert_eq!(pallet.pot(), Balance::MAX);
}

#[test]
fn donation_that_leaves_dust_removes_the_donor() {
    let mut pallet: Pallet<Strict> =
        Pallet::new(funded::<10>(&[(donor(), 100)]), EventLog::new());
    assert_eq!(pallet.donate(donor(), 95), Ok(()));
    assert!(!pallet.currency.account_exists(&donor()));
    assert_eq!(pallet.currency.free_balance(&donor()), 0);
    assert_eq!(pallet.pot(), 95);
    assert!(pallet.pot() + pallet.currency.free_balance(&donor()) <= 100);
    assert_eq!(pallet.events.records, vec![Event::DonationReceived(donor(), 95, 95)]);
}

#[test]
fn donation_of_everything_removes_the_donor() {
    let mut pallet = pot_with(100, 0);
    assert_eq!(pallet.donate(donor(), 100), Ok(()));
    assert!(!pallet.currency.account_exists(&donor()));
    assert_eq!(pallet.pot(), 100);
}

#[test]
fn donation_that_keeps_the_minimum_keeps_the_donor() {
    let mut pallet: Pallet<Strict> =
        Pallet::new(funded::<10>(&[(donor(), 100)]), EventLog::new());
    assert_eq!(pallet.donate(donor(), 90), Ok(()));
    assert!(pallet.currency.account_exists(&donor()));
    assert_eq!(pallet.currency.free_balance(&donor()), 10);
    assert_eq!(pallet.pot(), 90);
}

#[test]
fn donation_too_small_to_open_the_pot_is_rejected() {
    let mut pallet: Pallet<Strict> =
        Pallet::new(funded::<10>(&[(donor(), 100)]), EventLog::new());
    assert_eq!(pallet.donate(donor(), 9), Err(Error::TransferRejected));
    assert_eq!(pallet.currency.free_balance(&donor()), 100);
    assert_eq!(pallet.pot(), 0);
    assert!(pallet.events.records.is_empty());
}

#[test]
fn donation_that_would_overflow_the_pot_is_rejected() {
    let pot = Pallet::<Runtime>::account_id();
    let mut pallet: Pallet<Runtime> =
        Pallet::new(funded::<1>(&[(donor(), 100), (pot, Balance::MAX - 5)]), EventLog::new());
    assert_eq!(pallet.donate(donor(), 6), Err(Error::TransferRejected));
    assert_eq!(pallet.currency.free_balance(&donor()), 100);
    assert_eq!(pallet.pot(), Balance::MAX - 5);
    assert_eq!(pallet.donate(donor(), 5), Ok(()));
    assert_eq!(pallet.pot(), Balance::MAX);
}

#[test]
fn donation_of_nothing_needs_a_pot_that_may_hold_nothing() {
    let mut strict = pot_with(100, 0);
    assert_eq!(strict.donate(donor(), 0), Err(Error::TransferRejected));
    let mut lenient: Pallet<Lenient> =
        Pallet::new(funded::<0>(&[(donor(), 100)]), EventLog::new());
    assert_eq!(lenient.donate(donor(), 0), Ok(()));
    assert_eq!(lenient.pot(), 0);
    assert_eq!(lenient.currency.free_balance(&donor()), 100);
    assert_eq!(lenient.events.records, vec![Event::DonationReceived(donor(), 0, 0)]);
}

#[test]
fn pot_donating_to_itself_changes_nothing_but_is_reported() {
    let pot = Pallet::<Runtime>::account_id();
    let mut pallet = pot_with(100, 40);
    assert_eq!(pallet.donate(pot, 15), Ok(()));
    assert_eq!(pallet.pot(), 40);
    assert_eq!(pallet.events.records, vec![Event::DonationReceived(pot, 15, 40)]);
}

#[test]
fn event_carries_the_balance_that_pot_reads_right_after() {
    let mut pallet = pot_with(1000, 17);
    assert_eq!(pallet.donate(donor(), 200), Ok(()));
    let after = pallet.pot();
    assert_eq!(pallet.events.records.last(), Some(&Event::DonationReceived(donor(), 200, after)));
    assert_eq!(pallet.on_nonzero_unbalanced(NegativeImbalance::new(3)), Ok(()));
    let after = pallet.pot();
    assert_eq!(pallet.events.records.last(), Some(&Event::ImbalanceAbsorbed(3, after)));
    assert_eq!(after, 220);
}

#[test]
fn pot_holds_the_sum_of_what_was_accepted() {
    let second = AccountId([2u8; 32]);
    let pot = Pallet::<Runtime>::account_id();
    let mut pallet: Pallet<Runtime> =
        Pallet::new(funded::<1>(&[(donor(), 100), (second, 50)]), EventLog::new());
    let mut accepted: Balance = 0;
    let donations: [(AccountId, Balance); 6] =
        [(donor(), 30), (second, 60), (second, 20), (donor(), 71), (donor(), 70), (second, 30)];
    for (who, amount) in donations {
        if pallet.donate(who, amount).is_ok() {
            accepted += amount;
        }
        if pallet.on_nonzero_unbalanced(NegativeImbalance::new(amount + 1)).is_ok() {
            accepted += amount + 1;
        }
    }
    assert_eq!(accepted, 30 + 20 + 70 + 30 + (31 + 61 + 21 + 72 + 71 + 31));
    assert_eq!(pallet.pot(), accepted);
    let absorbed: Balance = 31 + 61 + 21 + 72 + 71 + 31;
    let in_circulation = pallet.currency.free_balance(&pot)
        + pallet.currency.free_balance(&donor())
        + pallet.currency.free_balance(&second);
    assert_eq!(in_circulation, 100 + 50 + absorbed);
    assert_eq!(pallet.currency.free_balance(&pot), 437);
    assert_eq!(pallet.currency.free_balance(&donor()), 0);
    assert_eq!(pallet.currency.free_balance(&second), 0);
    assert_eq!(pallet.events.records.len(), 10);
}

#[test]
fn events_come_in_the_order_of_the_calls() {
    let mut pallet = pot_with(100, 0);
    assert_eq!(pallet.on_nonzero_unbalanced(NegativeImbalance::new(5)), Ok(()));
    assert_eq!(pallet.donate(donor(), 10), Ok(()));
    assert_eq!(pallet.donate(donor(), 500), Err(Error::TransferRejected));
    assert_eq!(pallet.on_nonzero_unbalanced(NegativeImbalance::new(1)), Ok(()));
    assert_eq!(
        pallet.events.records,
        vec![
            Event::ImbalanceAbsorbed(5, 5),
            Event::DonationReceived(donor(), 10, 15),
            Event::ImbalanceAbsorbed(1, 16),
        ]
    );
}
