//! Following the finalized blocks of Ethereum.

use vstd::prelude::*;

verus! {

/// What the listener does after it has asked for the latest finalized block.
#[derive(Clone, Copy, Debug, PartialEq, Eq, Structural)]
pub enum ListenerAction {
    /// Announce every block from `from` to `to`, both included.
    Announce { from: u64, to: u64 },
    /// Nothing new: wait half a block time and ask again.
    Wait,
}

/// The block listener: the next block that it has not announced yet.
#[derive(Clone, Copy, Debug, PartialEq, Eq, Structural)]
pub struct BlockListener {
    pub from_block: u64,
}

impl BlockListener {
    /// A listener that starts at `from_block`.
    pub fn new(from_block: u64) -> (listener: BlockListener)
        ensures
            listener.from_block == from_block,
    {
        BlockListener { from_block }
    }

    /// Decides what to do once the latest finalized block is known: every
    /// block from the next unannounced one up to the latest is announced, in
    /// order and once; if there is none, the listener waits.
    pub fn run_inner(&mut self, latest: u64) -> (action: ListenerAction)
        requires
            latest < u64::MAX,
        ensures
            latest >= old(self).from_block ==> action == (ListenerAction::Announce {
                from: old(self).from_block,
                to: latest,
            }) && final(self).from_block == latest + 1,
            latest < old(self).from_block ==> action == ListenerAction::Wait && *final(self)
                == *old(self),
    {
        let current_block = self.from_block;
        if latest >= current_block {
            self.from_block = latest + 1;
            ListenerAction::Announce { from: current_block, to: latest }
        } else {
            ListenerAction::Wait
        }
    }
}

} // verus!
