//! The ordered record of what the ledger has done.

use vstd::prelude::*;
use crate::account::AccountId;
use crate::model::{Balance, TokenId};

verus! {

/// One successful change of the ledger.
#[derive(Clone, Copy, Debug, PartialEq, Eq)]
pub enum Event {
    Created { token_id: TokenId, creator: AccountId, supply: Balance },
    Minted { token_id: TokenId, to: AccountId, amount: Balance },
    Burned { token_id: TokenId, from: AccountId, amount: Balance },
    Transferred { token_id: TokenId, from: AccountId, to: AccountId, amount: Balance },
}

/// An append-only sequence of events, oldest first.
pub struct EventLog {
    entries: Vec<Event>,
}

impl View for EventLog {
    type V = Seq<Event>;

    closed spec fn view(&self) -> Seq<Event> {
        self.entries@
    }
}

impl EventLog {
    /// A log that holds nothing yet.
    pub fn new() -> (log: EventLog)
        ensures
            log@ == Seq::<Event>::empty(),
    {
        EventLog { entries: Vec::new() }
    }

    /// Records one more event behind those already there.
    pub fn append(&mut self, event: Event)
        ensures
            final(self)@ == old(self)@.push(event),
    {
        self.entries.push(event);
    }

    /// How many events were recorded.
    pub fn len(&self) -> (n: usize)
        ensures
            n == self@.len(),
    {
        self.entries.len()
    }

    /// The event recorded at the given position, counted from the oldest.
    pub fn get(&self, index: usize) -> (event: Option<Event>)
        ensures
            event == if index < self@.len() {
                Some(self@[index as int])
            } else {
                None
            },
    {
        if index < self.entries.len() {
            Some(self.entries[index])
        } else {
            None
        }
    }

    /// The newest event, if there is one.
    pub fn last(&self) -> (event: Option<Event>)
        ensures
            event == if self@.len() > 0 {
                Some(self@.last())
            } else {
                None
            },
    {
        let n = self.entries.len();
        if n > 0 {
            Some(self.entries[n - 1])
        } else {
            None
        }
    }
}

/// The newest event of a log in which something was recorded.
pub fn last_event(log: &EventLog) -> (event: Event)
    requires
        log@.len() > 0,
    ensures
        event == log@.last(),
{
    log.entries[log.entries.len() - 1]
}

} // verus!
