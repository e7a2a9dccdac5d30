//! The block tracker: remembers the number of the block handled last and
//! lets each newly observed number through once.

use vstd::prelude::*;

verus! {

/// Height of a block on the chain.
pub type BlockNumber = u64;

/// Remembers the last block number that was let through.
///
/// A fresh tracker holds zero, which stands for "nothing seen yet".
#[derive(Clone, Copy, Debug, PartialEq, Eq, Structural)]
pub struct BlockTracker {
    pub last_processed: BlockNumber,
}

/// Whether no number of `seen` is smaller than one before it.
pub open spec fn never_decreases(seen: Seq<BlockNumber>) -> bool {
    forall|i: int, j: int| 0 <= i <= j < seen.len() ==> seen[i] <= seen[j]
}

/// Whether no number of `seen` comes back after another one was seen: the
/// observations of one number stand together.
pub open spec fn never_returns(seen: Seq<BlockNumber>) -> bool {
    forall|i: int, k: int, j: int|
        0 <= i <= k <= j < seen.len() && seen[i] == seen[j] ==> seen[k] == seen[i]
}

impl BlockTracker {
    /// Whether `candidate` is let through: it differs from the number held.
    pub open spec fn admits(self, candidate: BlockNumber) -> bool {
        candidate != self.last_processed
    }

    /// The tracker after it was shown `candidate`. An admitted number is
    /// committed; a rejected one is the number already held, so in both
    /// cases the tracker then holds the candidate.
    pub open spec fn observed(self, candidate: BlockNumber) -> BlockTracker {
        BlockTracker { last_processed: candidate }
    }

    /// The tracker after it was shown the numbers of `seen`, one by one.
    pub open spec fn after(self, seen: Seq<BlockNumber>) -> BlockTracker
        decreases seen.len(),
    {
        if seen.len() == 0 {
            self
        } else {
            self.after(seen.drop_last()).observed(seen.last())
        }
    }

    /// Whether the observation at position `i` of `seen` is let through by
    /// a tracker that was shown all the earlier ones.
    pub open spec fn processes(self, seen: Seq<BlockNumber>, i: int) -> bool {
        self.after(seen.take(i)).admits(seen[i])
    }

    /// A tracker that has seen no block.
    pub fn new() -> (t: BlockTracker)
        ensures
            t.last_processed == 0,
    {
        BlockTracker { last_processed: 0 }
    }

    /// Decides whether `candidate` is new, and if so commits it at once: the
    /// block counts as processed before any work on it starts.
    pub fn should_process(&mut self, candidate: BlockNumber) -> (fresh: bool)
        ensures
            fresh == old(self).admits(candidate),
            *final(self) == old(self).observed(candidate),
            !fresh ==> *final(self) == *old(self),
            !final(self).admits(candidate),
    {
        if candidate != self.last_processed {
            self.last_processed = candidate;
            true
        } else {
            false
        }
    }

    /// An observation is let through exactly when its number differs from
    /// the one observed just before, or, for the first observation, from the
    /// number that the tracker held.
    pub proof fn lemma_processes_iff_changed(self, seen: Seq<BlockNumber>, i: int)
        requires
            0 <= i < seen.len(),
        ensures
            i == 0 ==> (self.processes(seen, i) <==> seen[0] != self.last_processed),
            i > 0 ==> (self.processes(seen, i) <==> seen[i] != seen[i - 1]),
    {
        if i > 0 {
            assert(seen.take(i).drop_last() =~= seen.take(i - 1));
            assert(seen.take(i).last() == seen[i - 1]);
        }
    }

    /// While no number comes back after another one, no number is let
    /// through twice: two observations that are both let through differ.
    pub proof fn lemma_processed_once(self, seen: Seq<BlockNumber>, i: int, j: int)
        requires
            never_returns(seen),
            0 <= i < j < seen.len(),
            self.processes(seen, i),
            self.processes(seen, j),
        ensures
            seen[i] != seen[j],
    {
        self.lemma_processes_iff_changed(seen, j);
        if seen[i] == seen[j] {
            assert(seen[j - 1] == seen[i]);
        }
    }

    /// Block numbers that never decrease never come back, so among them too
    /// no number is let through twice.
    pub proof fn lemma_processed_once_on_growing_chain(
        self,
        seen: Seq<BlockNumber>,
        i: int,
        j: int,
    )
        requires
            never_decreases(seen),
            0 <= i < j < seen.len(),
            self.processes(seen, i),
            self.processes(seen, j),
        ensures
            seen[i] != seen[j],
    {
        assert(never_returns(seen)) by {
            assert forall|a: int, k: int, b: int|
                0 <= a <= k <= b < seen.len() && seen[a] == seen[b] implies seen[k] == seen[a] by {
                assert(seen[a] <= seen[k] <= seen[b]);
            }
        }
        self.lemma_processed_once(seen, i, j);
    }
}

} // verus!
