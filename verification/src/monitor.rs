//! The monitor as a state machine.
//!
//! The monitor itself never talks to the node. Each step takes the answer
//! to the request it made last and decides what to ask for next; the caller
//! carries out the request and comes back with the answer.
//!
//! Within one block the log entries are taken in order. The transaction of
//! each entry is resolved; an entry whose transaction cannot be resolved or
//! has a destination is passed over. The first entry whose transaction
//! creates a contract is the block's candidate: its contract is bound and
//! asked for its name and its total supply. When both answers came the token
//! is reported; when one of them failed the block is given up. Either way no
//! further entry of the block is looked at.

use vstd::prelude::*;
use crate::chain::BlockHandle;
use crate::chain::ClientError;
use crate::chain::LogEntry;
use crate::chain::Transaction;
use crate::filter::LogFilter;
use crate::filter::TopicPredicate;
use crate::ident::Address;
use crate::ident::Hash256;
use crate::record::TokenRecord;
use crate::tracker::BlockNumber;
use crate::tracker::BlockTracker;
use crate::uint::Uint256;

verus! {

/// What the monitor asks its caller to do.
#[derive(Debug, PartialEq, Eq)]
pub enum Action {
    /// Ask the node for the latest block.
    FetchLatestBlock,
    /// Ask the node for the log entries that the filter selects.
    FetchLogs(LogFilter),
    /// Ask the node for the transaction with this hash.
    FetchTransaction(Hash256),
    /// Bind the token interface to the contract at this address.
    BindContract(Address),
    /// Ask the contract at this address for its name.
    QueryName(Address),
    /// Ask the contract at this address for its total supply.
    QuerySupply(Address),
    /// Hand the record to the reporter. The monitor is between blocks again:
    /// whatever the caller comes back with, it asks for the latest block.
    Report(TokenRecord),
}

/// What the caller comes back with.
#[derive(Debug, PartialEq, Eq)]
pub enum Event {
    /// The answer to `FetchLatestBlock`.
    Block(Result<BlockHandle, ClientError>),
    /// The answer to `FetchLogs`.
    Logs(Result<Vec<LogEntry>, ClientError>),
    /// The answer to `FetchTransaction`; `Ok(None)` where the node does not
    /// know the hash.
    Transaction(Result<Option<Transaction>, ClientError>),
    /// The outcome of `BindContract`.
    Bound(Result<(), ClientError>),
    /// The answer to `QueryName`.
    Name(Result<String, ClientError>),
    /// The answer to `QuerySupply`, in smallest units.
    Supply(Result<Uint256, ClientError>),
    /// The record of `Report` was handed over.
    Reported,
}

/// Where the monitor stands: which answer it waits for.
#[derive(Debug, PartialEq, Eq)]
pub enum Phase {
    /// Between blocks: waits for the latest block.
    Polling,
    /// Waits for the log entries of a new block.
    FetchingLogs { filter: LogFilter },
    /// Waits for the transaction of the entry at `next`.
    Resolving { entries: Vec<LogEntry>, next: usize },
    /// Waits for the contract of the entry at `next` to be bound.
    Binding { entries: Vec<LogEntry>, next: usize },
    /// Waits for the name of the candidate.
    QueryingName { creation_tx_hash: Hash256, contract_address: Address },
    /// Waits for the total supply of the candidate.
    QueryingSupply { creation_tx_hash: Hash256, contract_address: Address, name: String },
}

impl Phase {
    /// Whether the phase is consistent: an entry that is being worked on
    /// exists.
    pub open spec fn wf(self) -> bool {
        match self {
            Phase::Resolving { entries, next } => next < entries.len(),
            Phase::Binding { entries, next } => next < entries.len(),
            _ => true,
        }
    }

    /// The request whose answer the phase waits for.
    pub open spec fn pending(self) -> Action {
        match self {
            Phase::Polling => Action::FetchLatestBlock,
            Phase::FetchingLogs { filter } => Action::FetchLogs(filter),
            Phase::Resolving { entries, next } => Action::FetchTransaction(
                entries[next as int].transaction_hash,
            ),
            Phase::Binding { entries, next } => Action::BindContract(entries[next as int].address),
            Phase::QueryingName { creation_tx_hash, contract_address } => Action::QueryName(
                contract_address,
            ),
            Phase::QueryingSupply { creation_tx_hash, contract_address, name } => {
                Action::QuerySupply(contract_address)
            },
        }
    }
}

/// The filter the monitor uses for a block: all its entries, whatever their
/// topics.
pub open spec fn block_filter(handle: BlockHandle) -> LogFilter {
    LogFilter { block_hash: handle.hash, first_topic: TopicPredicate::Any }
}

/// Where the scan of a block's entries goes on from position `from`: to the
/// transaction of that entry, or, where the entries are used up, to the next
/// poll.
pub open spec fn scan_from(entries: Vec<LogEntry>, from: int) -> (Phase, Action) {
    if 0 <= from < entries.len() {
        (
            Phase::Resolving { entries, next: from as usize },
            Action::FetchTransaction(entries[from].transaction_hash),
        )
    } else {
        (Phase::Polling, Action::FetchLatestBlock)
    }
}

/// The step of the monitor: from the tracker, the phase and the answer to
/// the tracker and the phase after it, and the next request.
///
/// An answer that the phase does not wait for changes nothing, and the
/// pending request is made again.
pub open spec fn transition(tracker: BlockTracker, phase: Phase, event: Event) -> (
    BlockTracker,
    Phase,
    Action,
) {
    match (phase, event) {
        (Phase::Polling, Event::Block(Ok(handle))) => {
            if tracker.admits(handle.number) {
                (
                    tracker.observed(handle.number),
                    Phase::FetchingLogs { filter: block_filter(handle) },
                    Action::FetchLogs(block_filter(handle)),
                )
            } else {
                (tracker, Phase::Polling, Action::FetchLatestBlock)
            }
        },
        (Phase::FetchingLogs { filter }, Event::Logs(Ok(entries))) => {
            (tracker, scan_from(entries, 0).0, scan_from(entries, 0).1)
        },
        (Phase::FetchingLogs { filter }, Event::Logs(Err(_))) => {
            (tracker, Phase::Polling, Action::FetchLatestBlock)
        },
        (Phase::Resolving { entries, next }, Event::Transaction(Ok(Some(transaction)))) => {
            if transaction.creates_contract() {
                (
                    tracker,
                    Phase::Binding { entries, next },
                    Action::BindContract(entries[next as int].address),
                )
            } else {
                (tracker, scan_from(entries, next + 1).0, scan_from(entries, next + 1).1)
            }
        },
        (Phase::Resolving { entries, next }, Event::Transaction(_)) => {
            (tracker, scan_from(entries, next + 1).0, scan_from(entries, next + 1).1)
        },
        (Phase::Binding { entries, next }, Event::Bound(Ok(_))) => {
            (
                tracker,
                Phase::QueryingName {
                    creation_tx_hash: entries[next as int].transaction_hash,
                    contract_address: entries[next as int].address,
                },
                Action::QueryName(entries[next as int].address),
            )
        },
        (Phase::Binding { entries, next }, Event::Bound(Err(_))) => {
            (tracker, scan_from(entries, next + 1).0, scan_from(entries, next + 1).1)
        },
        (Phase::QueryingName { creation_tx_hash, contract_address }, Event::Name(Ok(name))) => {
            (
                tracker,
                Phase::QueryingSupply { creation_tx_hash, contract_address, name },
                Action::QuerySupply(contract_address),
            )
        },
        (Phase::QueryingName { creation_tx_hash, contract_address }, Event::Name(Err(_))) => {
            (tracker, Phase::Polling, Action::FetchLatestBlock)
        },
        (
            Phase::QueryingSupply { creation_tx_hash, contract_address, name },
            Event::Supply(Ok(supply)),
        ) => {
            (
                tracker,
                Phase::Polling,
                Action::Report(TokenRecord { creation_tx_hash, contract_address, name, supply }),
            )
        },
        (
            Phase::QueryingSupply { creation_tx_hash, contract_address, name },
            Event::Supply(Err(_)),
        ) => { (tracker, Phase::Polling, Action::FetchLatestBlock) },
        _ => (tracker, phase, phase.pending()),
    }
}

/// The monitor: the block tracker and the phase.
#[derive(Debug)]
pub struct Monitor {
    tracker: BlockTracker,
    phase: Phase,
}

/// The scan of a block's entries from position `from` on.
fn scan(entries: Vec<LogEntry>, from: usize) -> (next: (Phase, Action))
    ensures
        next == scan_from(entries, from as int),
        next.0.wf(),
{
    if from < entries.len() {
        let hash = entries[from].transaction_hash;
        (Phase::Resolving { entries, next: from }, Action::FetchTransaction(hash))
    } else {
        (Phase::Polling, Action::FetchLatestBlock)
    }
}

impl Monitor {
    #[verifier::type_invariant]
    spec fn consistent(self) -> bool {
        self.phase.wf()
    }

    /// The block tracker of the monitor.
    pub closed spec fn tracker(self) -> BlockTracker {
        self.tracker
    }

    /// The phase of the monitor.
    pub closed spec fn phase(self) -> Phase {
        self.phase
    }

    /// A monitor that has seen no block and waits for the latest one.
    pub fn new() -> (monitor: Monitor)
        ensures
            monitor.tracker().last_processed == 0,
            monitor.phase() == Phase::Polling,
    {
        Monitor { tracker: BlockTracker::new(), phase: Phase::Polling }
    }

    /// The number of the block that was let through last; zero before the
    /// first.
    pub fn last_processed(&self) -> (number: BlockNumber)
        ensures
            number == self.tracker().last_processed,
    {
        self.tracker.last_processed
    }

    /// The phase of the monitor.
    pub fn current_phase(&self) -> (phase: &Phase)
        ensures
            *phase == self.phase(),
            phase.wf(),
    {
        proof {
            use_type_invariant(self);
        }
        &self.phase
    }

    /// The request whose answer the monitor waits for.
    pub fn pending(&self) -> (action: Action)
        ensures
            action == self.phase().pending(),
    {
        proof {
            use_type_invariant(self);
        }
        match &self.phase {
            Phase::Polling => Action::FetchLatestBlock,
            Phase::FetchingLogs { filter } => Action::FetchLogs(*filter),
            Phase::Resolving { entries, next } => Action::FetchTransaction(
                entries[*next].transaction_hash,
            ),
            Phase::Binding { entries, next } => Action::BindContract(entries[*next].address),
            Phase::QueryingName { creation_tx_hash, contract_address } => Action::QueryName(
                *contract_address,
            ),
            Phase::QueryingSupply { creation_tx_hash, contract_address, name } => {
                Action::QuerySupply(*contract_address)
            },
        }
    }

    /// Takes the answer to the pending request and decides the next one.
    pub fn step(self, event: Event) -> (next: (Monitor, Action))
        ensures
            (next.0.tracker(), next.0.phase(), next.1) == transition(
                self.tracker(),
                self.phase(),
                event,
            ),
            next.0.phase().wf(),
    {
        proof {
            use_type_invariant(&self);
        }
        let Monitor { tracker, phase } = self;
        let mut tracker = tracker;
        match phase {
            Phase::Polling => match event {
                Event::Block(Ok(handle)) => {
                    if tracker.should_process(handle.number) {
                        let filter = LogFilter::build(handle.hash, TopicPredicate::Any);
                        (
                            Monitor { tracker, phase: Phase::FetchingLogs { filter } },
                            Action::FetchLogs(filter),
                        )
                    } else {
                        (Monitor { tracker, phase: Phase::Polling }, Action::FetchLatestBlock)
                    }
                },
                _ => (Monitor { tracker, phase: Phase::Polling }, Action::FetchLatestBlock),
            },
            Phase::FetchingLogs { filter } => match event {
                Event::Logs(Ok(entries)) => {
                    let (phase, action) = scan(entries, 0);
                    (Monitor { tracker, phase }, action)
                },
                Event::Logs(Err(_)) => {
                    (Monitor { tracker, phase: Phase::Polling }, Action::FetchLatestBlock)
                },
                _ => (
                    Monitor { tracker, phase: Phase::FetchingLogs { filter } },
                    Action::FetchLogs(filter),
                ),
            },
            Phase::Resolving { entries, next } => match event {
                Event::Transaction(Ok(Some(transaction))) => {
                    if transaction.is_creation() {
                        let address = entries[next].address;
                        (
                            Monitor { tracker, phase: Phase::Binding { entries, next } },
                            Action::BindContract(address),
                        )
                    } else {
                        let (phase, action) = scan(entries, next + 1);
                        (Monitor { tracker, phase }, action)
                    }
                },
                Event::Transaction(_) => {
                    let (phase, action) = scan(entries, next + 1);
                    (Monitor { tracker, phase }, action)
                },
                _ => {
                    let hash = entries[next].transaction_hash;
                    (
                        Monitor { tracker, phase: Phase::Resolving { entries, next } },
                        Action::FetchTransaction(hash),
                    )
                },
            },
            Phase::Binding { entries, next } => match event {
                Event::Bound(Ok(_)) => {
                    let creation_tx_hash = entries[next].transaction_hash;
                    let contract_address = entries[next].address;
                    (
                        Monitor {
                            tracker,
                            phase: Phase::QueryingName { creation_tx_hash, contract_address },
                        },
                        Action::QueryName(contract_address),
                    )
                },
                Event::Bound(Err(_)) => {
                    let (phase, action) = scan(entries, next + 1);
                    (Monitor { tracker, phase }, action)
                },
                _ => {
                    let address = entries[next].address;
                    (
                        Monitor { tracker, phase: Phase::Binding { entries, next } },
                        Action::BindContract(address),
                    )
                },
            },
            Phase::QueryingName { creation_tx_hash, contract_address } => match event {
                Event::Name(Ok(name)) => (
                    Monitor {
                        tracker,
                        phase: Phase::QueryingSupply { creation_tx_hash, contract_address, name },
                    },
                    Action::QuerySupply(contract_address),
                ),
                Event::Name(Err(_)) => {
                    (Monitor { tracker, phase: Phase::Polling }, Action::FetchLatestBlock)
                },
                _ => (
                    Monitor {
                        tracker,
                        phase: Phase::QueryingName { creation_tx_hash, contract_address },
                    },
                    Action::QueryName(contract_address),
                ),
            },
            Phase::QueryingSupply { creation_tx_hash, contract_address, name } => match event {
                Event::Supply(Ok(supply)) => (
                    Monitor { tracker, phase: Phase::Polling },
                    Action::Report(
                        TokenRecord::new(creation_tx_hash, contract_address, name, supply),
                    ),
                ),
                Event::Supply(Err(_)) => {
                    (Monitor { tracker, phase: Phase::Polling }, Action::FetchLatestBlock)
                },
                _ => (
                    Monitor {
                        tracker,
                        phase: Phase::QueryingSupply { creation_tx_hash, contract_address, name },
                    },
                    Action::QuerySupply(contract_address),
                ),
            },
        }
    }
}

/// A block with the number that was let through last changes nothing and
/// starts no work: the monitor stays between blocks and polls again.
pub proof fn lemma_seen_block_is_ignored(tracker: BlockTracker, handle: BlockHandle)
    requires
        handle.number == tracker.last_processed,
    ensures
        transition(tracker, Phase::Polling, Event::Block(Ok(handle))) == (
            tracker,
            Phase::Polling,
            Action::FetchLatestBlock,
        ),
{
}

/// A new block is committed before any work on it starts, and the work
/// starts with its log entries.
pub proof fn lemma_new_block_is_committed(tracker: BlockTracker, handle: BlockHandle)
    requires
        handle.number != tracker.last_processed,
    ensures
        transition(tracker, Phase::Polling, Event::Block(Ok(handle))).0.last_processed
            == handle.number,
        transition(tracker, Phase::Polling, Event::Block(Ok(handle))).2 == Action::FetchLogs(
            block_filter(handle),
        ),
{
}

/// The tracker changes in no step but the one that lets a new block
/// through.
pub proof fn lemma_tracker_changes_only_on_new_block(
    tracker: BlockTracker,
    phase: Phase,
    event: Event,
)
    ensures
        transition(tracker, phase, event).0 != tracker ==> phase is Polling && event is Block,
{
}

/// When the candidate's name or supply cannot be had, the block is given
/// up: whatever entries it had left, the monitor polls again.
pub proof fn lemma_failed_query_ends_block(tracker: BlockTracker, phase: Phase, event: Event)
    requires
        (phase is QueryingName && event matches Event::Name(Err(_))) || (phase is QueryingSupply
            && event matches Event::Supply(Err(_))),
    ensures
        transition(tracker, phase, event) == (tracker, Phase::Polling, Action::FetchLatestBlock),
{
}

/// Once a candidate is being asked, no step leads back to the block's
/// entries: the next phase is the next question or the next poll.
pub proof fn lemma_one_candidate_per_block(tracker: BlockTracker, phase: Phase, event: Event)
    requires
        phase is QueryingName || phase is QueryingSupply,
    ensures
        !(transition(tracker, phase, event).1 is Resolving),
        !(transition(tracker, phase, event).1 is Binding),
        !(transition(tracker, phase, event).1 is FetchingLogs),
{
}

/// The entries of a block are taken in the order of the log, each at most
/// once: a step of the scan stays at its entry to bind it, goes on to the
/// entry behind it, asks the contract of its own entry, or ends the block.
pub proof fn lemma_scan_follows_log_order(
    tracker: BlockTracker,
    entries: Vec<LogEntry>,
    next: usize,
    binding: bool,
    event: Event,
)
    requires
        next < entries.len(),
    ensures
        ({
            let phase = if binding {
                Phase::Binding { entries, next }
            } else {
                Phase::Resolving { entries, next }
            };
            match transition(tracker, phase, event).1 {
                Phase::Resolving { entries: rest, next: at } => rest == entries && (at == next
                    || at == next + 1),
                Phase::Binding { entries: rest, next: at } => rest == entries && at == next,
                Phase::QueryingName { creation_tx_hash, contract_address } => binding
                    && creation_tx_hash == entries[next as int].transaction_hash
                    && contract_address == entries[next as int].address,
                Phase::Polling => true,
                _ => false,
            }
        }),
{
}

/// A step from a consistent phase leads to a consistent phase.
pub proof fn lemma_transition_keeps_wf(tracker: BlockTracker, phase: Phase, event: Event)
    requires
        phase.wf(),
    ensures
        transition(tracker, phase, event).1.wf(),
{
}

} // verus!
