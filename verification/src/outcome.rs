//! What the scan of one block comes to.
//!
//! The monitor decides step by step, on the answer to one request at a
//! time. This module says in one piece what a block's scan reports when the
//! answers to all its requests are given, and proves that the steps of the
//! monitor arrive at it.

use vstd::prelude::*;
use crate::chain::ClientError;
use crate::chain::LogEntry;
use crate::chain::Transaction;
use crate::ident::Address;
use crate::ident::Hash256;
use crate::monitor::scan_from;
use crate::monitor::transition;
use crate::monitor::Action;
use crate::monitor::Event;
use crate::monitor::Phase;
use crate::record::TokenRecord;
use crate::tracker::BlockTracker;
use crate::uint::Uint256;

verus! {

/// The answers that the node and the contracts give while one block is
/// scanned: for each transaction hash what the node resolves it to, and for
/// each address how binding it ends and what the contract there gives as its
/// name and its total supply.
pub struct Answers {
    pub transaction: spec_fn(Hash256) -> Result<Option<Transaction>, ClientError>,
    pub bound: spec_fn(Address) -> Result<(), ClientError>,
    pub name: spec_fn(Address) -> Result<String, ClientError>,
    pub supply: spec_fn(Address) -> Result<Uint256, ClientError>,
}

impl Answers {
    /// The answer to a request of the scan.
    pub open spec fn to(self, action: Action) -> Event {
        match action {
            Action::FetchTransaction(hash) => Event::Transaction((self.transaction)(hash)),
            Action::BindContract(address) => Event::Bound((self.bound)(address)),
            Action::QueryName(address) => Event::Name((self.name)(address)),
            Action::QuerySupply(address) => Event::Supply((self.supply)(address)),
            _ => Event::Reported,
        }
    }

    /// Whether the entry is a candidate: its transaction is resolved and
    /// creates a contract, and the contract at its address can be bound.
    pub open spec fn is_candidate(self, entry: LogEntry) -> bool {
        &&& (self.transaction)(entry.transaction_hash) matches Ok(Some(transaction))
            && transaction.creates_contract()
        &&& (self.bound)(entry.address) is Ok
    }

    /// The position of the first candidate among the entries from `from`
    /// on; the number of entries where there is none.
    pub open spec fn first_candidate(self, entries: Vec<LogEntry>, from: int) -> int
        decreases entries.len() - from,
    {
        if from < 0 || from >= entries.len() {
            entries.len() as int
        } else if self.is_candidate(entries[from]) {
            from
        } else {
            self.first_candidate(entries, from + 1)
        }
    }

    /// The record of the entry's contract, where it gives both its name and
    /// its total supply.
    pub open spec fn classified(self, entry: LogEntry) -> Option<TokenRecord> {
        match ((self.name)(entry.address), (self.supply)(entry.address)) {
            (Ok(name), Ok(supply)) => Some(
                TokenRecord {
                    creation_tx_hash: entry.transaction_hash,
                    contract_address: entry.address,
                    name,
                    supply,
                },
            ),
            _ => None,
        }
    }

    /// What the scan of the entries from `from` on reports: the record of
    /// the first candidate, if that is classified, and nothing otherwise,
    /// whatever entries come behind it.
    pub open spec fn block_outcome(self, entries: Vec<LogEntry>, from: int) -> Option<
        TokenRecord,
    > {
        let at = self.first_candidate(entries, from);
        if at < entries.len() {
            self.classified(entries[at])
        } else {
            None
        }
    }

    /// The monitor's steps on these answers, from a phase and its pending
    /// request until the monitor is between blocks again, but `steps` at
    /// most: the tracker and the phase it ends with, and the record it
    /// reports on the way.
    pub open spec fn run(self, tracker: BlockTracker, phase: Phase, action: Action, steps: nat) -> (
        BlockTracker,
        Phase,
        Option<TokenRecord>,
    )
        decreases steps,
    {
        if phase is Polling {
            (
                tracker,
                phase,
                match action {
                    Action::Report(record) => Some(record),
                    _ => None,
                },
            )
        } else if steps == 0 {
            (tracker, phase, None)
        } else {
            let next = transition(tracker, phase, self.to(action));
            self.run(next.0, next.1, next.2, (steps - 1) as nat)
        }
    }

    /// The scan of a block ends after at most two steps for each entry and
    /// two more, leaves the tracker as it was, and reports the record of the
    /// first candidate or nothing: a candidate that is not classified ends
    /// the scan, and no entry behind a candidate is ever asked for.
    pub proof fn lemma_scan_reports_first_candidate(
        self,
        tracker: BlockTracker,
        entries: Vec<LogEntry>,
        from: int,
        steps: nat,
    )
        requires
            0 <= from <= entries.len(),
            steps >= 2 * (entries.len() - from) + 2,
        ensures
            self.run(tracker, scan_from(entries, from).0, scan_from(entries, from).1, steps) == (
                tracker,
                Phase::Polling,
                self.block_outcome(entries, from),
            ),
        decreases entries.len() - from,
    {
        let (phase, action) = scan_from(entries, from);
        if from < entries.len() {
            let entry = entries[from];
            let first = transition(tracker, phase, self.to(action));
            assert(self.run(tracker, phase, action, steps) == self.run(
                first.0,
                first.1,
                first.2,
                (steps - 1) as nat,
            ));
            if (self.transaction)(entry.transaction_hash) matches Ok(Some(transaction))
                && transaction.creates_contract() {
                let second = transition(first.0, first.1, self.to(first.2));
                assert(self.run(first.0, first.1, first.2, (steps - 1) as nat) == self.run(
                    second.0,
                    second.1,
                    second.2,
                    (steps - 2) as nat,
                ));
                if (self.bound)(entry.address) is Ok {
                    let third = transition(second.0, second.1, self.to(second.2));
                    assert(self.run(second.0, second.1, second.2, (steps - 2) as nat) == self.run(
                        third.0,
                        third.1,
                        third.2,
                        (steps - 3) as nat,
                    ));
                    if (self.name)(entry.address) is Ok {
                        let fourth = transition(third.0, third.1, self.to(third.2));
                        assert(self.run(third.0, third.1, third.2, (steps - 3) as nat) == self.run(
                            fourth.0,
                            fourth.1,
                            fourth.2,
                            (steps - 4) as nat,
                        ));
                    }
                } else {
                    self.lemma_scan_reports_first_candidate(
                        tracker,
                        entries,
                        from + 1,
                        (steps - 2) as nat,
                    );
                }
            } else {
                self.lemma_scan_reports_first_candidate(
                    tracker,
                    entries,
                    from + 1,
                    (steps - 1) as nat,
                );
            }
        }
    }
}

} // verus!
