//! What the chain client hands over: blocks, log entries, transactions, and
//! the ways in which a request to the node can fail.

use vstd::prelude::*;
use crate::ident::Address;
use crate::ident::Hash256;
use crate::tracker::BlockNumber;

verus! {

/// Why a request to the node gave no value.
#[derive(Clone, Copy, Debug, PartialEq, Eq, Structural)]
pub enum ClientError {
    /// The node could not be reached or did not answer.
    NodeUnavailable,
    /// The contract does not implement the method that was called.
    AbiMismatch,
    /// The answer did not have the expected form.
    DecodeError,
}

/// The head of the chain as one poll saw it.
#[derive(Clone, Copy, Debug, PartialEq, Eq)]
pub struct BlockHandle {
    pub number: BlockNumber,
    pub hash: Hash256,
}

/// One log entry of a block.
#[derive(Debug, PartialEq, Eq)]
pub struct LogEntry {
    /// The transaction that emitted the entry.
    pub transaction_hash: Hash256,
    /// The contract that the entry belongs to.
    pub address: Address,
    /// The indexed values of the entry, in order.
    pub topics: Vec<Hash256>,
}

/// A transaction, as far as the monitor reads it.
#[derive(Clone, Copy, Debug, PartialEq, Eq)]
pub struct Transaction {
    pub hash: Hash256,
    /// The account or contract that the transaction is sent to; none for a
    /// transaction that creates a contract.
    pub destination: Option<Address>,
}

impl Transaction {
    /// Whether the transaction creates a contract: it has no destination.
    pub open spec fn creates_contract(self) -> bool {
        self.destination is None
    }

    /// Whether the transaction creates a contract.
    pub fn is_creation(&self) -> (creation: bool)
        ensures
            creation == self.creates_contract(),
    {
        self.destination.is_none()
    }
}

} // verus!
