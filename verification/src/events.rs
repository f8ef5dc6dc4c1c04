//! What the pot reports of itself, and where the reports go.

use vstd::prelude::*;
use crate::account::AccountId;
use crate::currency::Balance;

verus! {

/// A record of something the pot did.
#[derive(Clone, Copy, Debug, PartialEq, Eq)]
pub enum Event {
    /// A donor gave an amount; the last field is the pot's balance right after.
    DonationReceived(AccountId, Balance, Balance),
    /// The pot absorbed an amount that had no other home; the last field is
    /// the pot's balance right after.
    ImbalanceAbsorbed(Balance, Balance),
}

/// The events a sink has taken, oldest first.
pub type Emitted = Seq<Event>;

/// Somewhere to send events: the sink keeps them in the order they came.
pub trait EventSink {
    /// Every event the sink has taken so far, oldest first.
    spec fn emitted(&self) -> Emitted;

    /// Hands one event to the sink.
    fn deposit_event(&mut self, event: Event)
        ensures
            final(self).emitted() == old(self).emitted().push(event),
    ;
}

/// An event sink that keeps its events in memory.
#[derive(Debug)]
pub struct EventLog {
    pub records: Vec<Event>,
}

impl EventLog {
    /// A log with nothing in it.
    pub fn new() -> (log: EventLog)
        ensures
            log.emitted() == Emitted::empty(),
    {
        EventLog { records: Vec::new() }
    }
}

impl EventSink for EventLog {
    open spec fn emitted(&self) -> Emitted {
        self.records@
    }

    fn deposit_event(&mut self, event: Event) {
        self.records.push(event);
    }
}

} // verus!
