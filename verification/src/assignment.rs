//! Partition assignment monitor: a state machine over {Unassigned,
//! Assigned(set)} that reacts to broker-driven rebalance notifications.
//! It never drives reassignment itself; an assign event replaces the
//! owned set wholesale, a revoke empties it, and an error leaves it
//! unchanged and is reported to the operator.

use vstd::prelude::*;

use crate::types::TopicPartition;

verus! {

/// A broker-driven rebalance notification.  Transient: handled once,
/// not retained.
#[derive(Debug)]
pub enum RebalanceEvent {
    Assigned(Vec<TopicPartition>),
    Revoked,
    Error(String),
}

/// The process's view of which partitions it owns.
#[derive(Debug)]
pub enum AssignmentState {
    Unassigned,
    Assigned(Vec<TopicPartition>),
}

pub struct AssignmentMonitor {
    pub state: AssignmentState,
}

/// Whether the key occurs among the listed partitions.
pub open spec fn lists_key(ps: Seq<TopicPartition>, k: (Seq<char>, u32)) -> bool {
    exists|i: int| 0 <= i < ps.len() && (#[trigger] ps[i])@ == k
}

impl AssignmentMonitor {
    /// This instance currently owns the partition named by the key.
    pub open spec fn owns(self, k: (Seq<char>, u32)) -> bool {
        match self.state {
            AssignmentState::Unassigned => false,
            AssignmentState::Assigned(ps) => lists_key(ps@, k),
        }
    }

    /// Startup: no partitions owned until the broker assigns some.
    pub fn new() -> (r: AssignmentMonitor)
        ensures
            r.state is Unassigned,
            forall|k: (Seq<char>, u32)| !(#[trigger] r.owns(k)),
    {
        AssignmentMonitor { state: AssignmentState::Unassigned }
    }

    /// Handles one rebalance notification.  An assign event fully
    /// supersedes the prior set; a revoke leaves the instance unassigned;
    /// an error changes nothing and hands its description back to be
    /// reported.
    pub fn on_rebalance(&mut self, ev: RebalanceEvent) -> (r: Option<String>)
        ensures
            match ev {
                RebalanceEvent::Assigned(ps) => {
                    &&& final(self).state is Assigned
                    &&& (forall|k: (Seq<char>, u32)| (#[trigger] final(self).owns(k)) == lists_key(ps@, k))
                    &&& r is None
                },
                RebalanceEvent::Revoked => {
                    &&& final(self).state is Unassigned
                    &&& (forall|k: (Seq<char>, u32)| !(#[trigger] final(self).owns(k)))
                    &&& r is None
                },
                RebalanceEvent::Error(d) => {
                    &&& *final(self) == *old(self)
                    &&& r == Some(d)
                },
            },
    {
        match ev {
            RebalanceEvent::Assigned(ps) => {
                self.state = AssignmentState::Assigned(ps);
                None
            },
            RebalanceEvent::Revoked => {
                self.state = AssignmentState::Unassigned;
                None
            },
            RebalanceEvent::Error(d) => Some(d),
        }
    }

    /// Whether this instance owns the given partition.
    pub fn owns_partition(&self, tp: &TopicPartition) -> (r: bool)
        ensures
            r == self.owns(tp@),
    {
        match &self.state {
            AssignmentState::Unassigned => false,
            AssignmentState::Assigned(ps) => {
                let mut i: usize = 0;
                while i < ps.len()
                    invariant
                        self.state == AssignmentState::Assigned(*ps),
                        i <= ps@.len(),
                        forall|j: int| 0 <= j < i ==> (#[trigger] ps@[j])@ != tp@,
                    decreases ps@.len() - i,
                {
                    if ps[i].key_eq(tp) {
                        proof {
                            assert((ps@[i as int])@ == tp@);
                        }
                        return true;
                    }
                    i = i + 1;
                }
                false
            },
        }
    }
}

} // verus!
