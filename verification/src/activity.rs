//! What an authority believes about the chain of an agent.

use crate::header::HeaderHash;
use vstd::prelude::*;

verus! {

/// The header at the head of the complete chain: as far as the authority can
/// see the chain without a gap.
#[derive(Clone, Copy, Debug, Hash, PartialEq, Eq, Structural)]
pub struct ChainHead {
    /// Sequence number of the head.
    pub header_seq: u32,
    /// Hash of the head.
    pub hash: HeaderHash,
}

/// Two headers that fork a chain.
#[derive(Clone, Copy, Debug, Hash, PartialEq, Eq, Structural)]
pub struct ChainFork {
    /// The position at which the chain forks.
    pub fork_seq: u32,
    /// The first header at that position.
    pub first_header: HeaderHash,
    /// The second header at that position.
    pub second_header: HeaderHash,
}

/// The status of the chain of an agent.
#[derive(Clone, Copy, Debug, Hash, PartialEq, Eq, Structural)]
pub enum ChainStatus {
    /// The authority has no information on the chain.
    Empty,
    /// The chain is valid up to this head.
    Valid(ChainHead),
    /// The chain is forked.
    Forked(ChainFork),
    /// The chain is invalid because of this header.
    Invalid(ChainHead),
}

impl Default for ChainStatus {
    fn default() -> (status: Self)
        ensures
            status == ChainStatus::Empty,
    {
        ChainStatus::Empty
    }
}

/// The highest sequence number that the authority has observed, with the
/// hashes of the headers that claim it. The authority records them before
/// validation, so that no header can be hidden by withholding the one before
/// it.
#[derive(Clone, Debug, Hash, PartialEq, Eq)]
pub struct HighestObserved {
    /// The highest sequence number observed.
    pub header_seq: u32,
    /// The hashes of the headers that claim this sequence number.
    pub hash: Vec<HeaderHash>,
}

impl HighestObserved {
    /// Whether more than one header claims the highest sequence number,
    /// which is a fork.
    pub open spec fn fork_observed(&self) -> bool {
        self.hash@.len() > 1
    }

    /// Says whether more than one header claims the highest sequence number.
    pub fn observes_fork(&self) -> (fork: bool)
        ensures
            fork == self.fork_observed(),
    {
        self.hash.len() > 1
    }
}

/// Whether the whole activity of an agent is asked for, or the status of its
/// chain alone.
#[derive(Clone, Copy, Debug, PartialEq, Eq, Structural)]
pub enum ActivityRequest {
    /// The status of the chain alone.
    Status,
    /// All the activity.
    Full,
}

/// Evidence against an agent. Reserved: it holds nothing yet.
#[derive(Clone, Copy, Debug, PartialEq, Eq, Structural)]
pub struct Warrant {}

/// The activity of an agent as an authority answers for it.
#[derive(Clone, Debug, PartialEq)]
pub struct AgentActivity {
    /// The valid headers of the chain, by sequence number.
    pub valid_activity: Vec<(u32, HeaderHash)>,
    /// The rejected headers of the chain, by sequence number.
    pub rejected_activity: Vec<(u32, HeaderHash)>,
    /// The status of the chain.
    pub status: ChainStatus,
    /// The highest header that the authority has observed.
    pub highest_observed: Option<HighestObserved>,
    /// Warrants about this activity.
    pub warrants: Vec<Warrant>,
}

impl AgentActivity {
    /// Whether the status agrees with what was observed: a chain on whose
    /// highest position a fork was observed is not reported as valid.
    pub open spec fn status_agrees(&self) -> bool {
        match self.highest_observed {
            Some(highest) => highest.fork_observed() ==> !(self.status is Valid),
            None => true,
        }
    }

    /// Checks that the status agrees with what was observed.
    pub fn check_status(&self) -> (agrees: bool)
        ensures
            agrees == self.status_agrees(),
    {
        match &self.highest_observed {
            Some(highest) => if highest.observes_fork() {
                match self.status {
                    ChainStatus::Valid(_) => false,
                    _ => true,
                }
            } else {
                true
            },
            None => true,
        }
    }
}

} // verus!
