//! What nodes send each other.

use vstd::prelude::*;
use crate::vote::{DAVote, QuorumVote};

verus! {

/// A message of the consensus protocol.
#[derive(Debug)]
pub enum ConsensusMessage<T> {
    /// A vote of the quorum, sent to the leader of the next view.
    Vote(QuorumVote<T>),
    /// A vote of the data-availability committee.
    DAVote(DAVote<T>),
}

} // verus!
