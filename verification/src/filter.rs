//! The log filter: which entries of which block the monitor asks the node
//! for.

use vstd::prelude::*;
use crate::chain::LogEntry;
use crate::ident::Hash256;

verus! {

/// A condition on the first topic of a log entry.
#[derive(Clone, Copy, Debug, PartialEq, Eq)]
pub enum TopicPredicate {
    /// Every entry, whatever its topics.
    Any,
    /// The entries whose first topic is this value.
    This(Hash256),
}

/// Selects the log entries of one block whose first topic meets a
/// condition.
#[derive(Clone, Copy, Debug, PartialEq, Eq)]
pub struct LogFilter {
    pub block_hash: Hash256,
    pub first_topic: TopicPredicate,
}

impl TopicPredicate {
    /// Whether an entry with these topics meets the condition.
    pub open spec fn admits(self, topics: Seq<Hash256>) -> bool {
        match self {
            TopicPredicate::Any => true,
            TopicPredicate::This(value) => topics.len() > 0 && topics[0]@ == value@,
        }
    }

    /// Whether an entry with these topics meets the condition.
    pub fn accepts(&self, topics: &Vec<Hash256>) -> (accepted: bool)
        ensures
            accepted == self.admits(topics@),
    {
        match self {
            TopicPredicate::Any => true,
            TopicPredicate::This(value) => topics.len() > 0 && topics[0] == *value,
        }
    }
}

impl LogFilter {
    /// Whether the filter selects `entry`, found in the block with hash
    /// `block_hash`.
    pub open spec fn selects(self, block_hash: Hash256, entry: LogEntry) -> bool {
        block_hash@ == self.block_hash@ && self.first_topic.admits(entry.topics@)
    }

    /// The filter for the entries of the block with hash `block_hash` whose
    /// first topic meets `first_topic`.
    pub fn build(block_hash: Hash256, first_topic: TopicPredicate) -> (filter: LogFilter)
        ensures
            filter == (LogFilter { block_hash, first_topic }),
            forall|entry: LogEntry|
                first_topic == TopicPredicate::Any ==> #[trigger] filter.selects(
                    block_hash,
                    entry,
                ),
    {
        LogFilter { block_hash, first_topic }
    }

    /// Whether the filter selects `entry`, found in the block with hash
    /// `block_hash`.
    pub fn matches(&self, block_hash: &Hash256, entry: &LogEntry) -> (selected: bool)
        ensures
            selected == self.selects(*block_hash, *entry),
    {
        *block_hash == self.block_hash && self.first_topic.accepts(&entry.topics)
    }
}

} // verus!
