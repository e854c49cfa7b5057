//! Consumption loop: accepts fetched messages for owned partitions in
//! strict per-partition order, hands their payload to application
//! processing outside this core, and advances the commit coordinator only
//! when processing succeeded.  A revoke stops further fetches at once; a
//! message already in flight may still complete, but can only commit its
//! own offset, never past the fetch position at the revoke.

use vstd::prelude::*;

use crate::assignment::{lists_key, AssignmentMonitor, RebalanceEvent};
use crate::commit::CommitCoordinator;
use crate::offset_map::OffsetTable;
use crate::types::{
    ConsumeError, FailurePolicy, FetchGate, LoopDirective, ProcessOutcome, TopicPartition,
};

verus! {

/// One handled message, for the ghost processing history: the partition
/// key, the offset, how handling ended, and the assignment era (the count
/// of assign events seen) in which the message was fetched.
pub type HistEntry = ((Seq<char>, u32), u64, ProcessOutcome, nat);

/// The message currently being processed.
pub struct InFlightMsg {
    pub tp: TopicPartition,
    pub offset: u64,
    /// Assignment era in which the message was fetched.
    pub era: Ghost<nat>,
}

pub struct ConsumptionLoop {
    pub monitor: AssignmentMonitor,
    pub commits: CommitCoordinator,
    /// Last accepted fetch offset per partition, reset on each assign.
    pub fetched: OffsetTable,
    pub in_flight: Option<InFlightMsg>,
    /// Set after a failure under `HaltOnFailure`; no further fetches.
    pub halted: bool,
    pub policy: FailurePolicy,
    /// With auto-commit enabled at the transport, the manual commit
    /// coordinator is not used and commit points stay untouched.
    pub manual_commit: bool,
    /// How many assign events have been handled.
    pub era: Ghost<nat>,
    /// Every handled message, in handling order.
    pub history: Ghost<Seq<HistEntry>>,
}

impl ConsumptionLoop {
    pub open spec fn hist(self) -> Seq<HistEntry> {
        self.history@
    }

    /// Within one era, a partition's messages are handled in strictly
    /// increasing offset order.
    pub open spec fn ordered_history(self) -> bool {
        forall|i: int, j: int|
            0 <= i < j < self.hist().len() && (#[trigger] self.hist()[i]).0 == (
            #[trigger] self.hist()[j]).0 && self.hist()[i].3 == self.hist()[j].3
                ==> self.hist()[i].1 < self.hist()[j].1
    }

    /// The in-flight message is newer than everything handled for its
    /// partition in its era, and is the last fetch recorded for it.
    pub open spec fn in_flight_fresh(self) -> bool {
        match self.in_flight {
            Some(f) => {
                &&& f.offset < u64::MAX
                &&& !self.halted
                &&& f.era@ <= self.era@
                &&& (forall|i: int|
                    0 <= i < self.hist().len() && (#[trigger] self.hist()[i]).0 == f.tp@
                        && self.hist()[i].3 == f.era@ ==> self.hist()[i].1 < f.offset)
                &&& (f.era@ == self.era@ ==> self.fetched@.contains_key(f.tp@)
                    && self.fetched@[f.tp@] == f.offset)
            },
            None => true,
        }
    }

    /// Everything handled in the current era stayed within the recorded
    /// fetch cursors.
    pub open spec fn history_within_cursors(self) -> bool {
        forall|i: int|
            0 <= i < self.hist().len() && (#[trigger] self.hist()[i]).3 == self.era@
                ==> self.fetched@.contains_key(self.hist()[i].0) && self.hist()[i].1
                <= self.fetched@[self.hist()[i].0]
    }

    pub open spec fn history_eras_bounded(self) -> bool {
        forall|i: int| 0 <= i < self.hist().len() ==> (#[trigger] self.hist()[i]).3 <= self.era@
    }

    /// Every commit point is exactly one past an offset whose message
    /// completed successful processing on that partition.
    pub open spec fn commits_follow_processing(self) -> bool {
        forall|k: (Seq<char>, u32)|
            #[trigger] self.commits@.contains_key(k) ==> 1 <= self.commits@[k] && exists|i: int|
                0 <= i < self.hist().len() && (#[trigger] self.hist()[i]).0 == k && self.hist()[i].1 + 1 == self.commits@[k] && self.hist()[i].2 is Processed
    }

    /// Well-formedness does not depend on the assignment monitor: a state
    /// that differs only there is well-formed too.
    proof fn lemma_wf_monitor_independent(a: ConsumptionLoop, b: ConsumptionLoop)
        requires
            a.wf(),
            b.commits == a.commits,
            b.fetched == a.fetched,
            b.in_flight == a.in_flight,
            b.halted == a.halted,
            b.era == a.era,
            b.history == a.history,
        ensures
            b.wf(),
    {
        assert(b.hist() == a.hist());
        assert forall|i: int, j: int|
            0 <= i < j < b.hist().len() && (#[trigger] b.hist()[i]).0 == (
            #[trigger] b.hist()[j]).0 && b.hist()[i].3 == b.hist()[j].3 implies b.hist()[i].1
            < b.hist()[j].1 by {
            assert(a.hist()[i] == b.hist()[i] && a.hist()[j] == b.hist()[j]);
        }
        assert forall|i: int|
            0 <= i < b.hist().len() && (#[trigger] b.hist()[i]).3 == b.era@ implies b
            .fetched@.contains_key(b.hist()[i].0) && b.hist()[i].1 <= b.fetched@[b.hist()[i].0] by {
            assert(a.hist()[i] == b.hist()[i]);
        }
        assert forall|i: int| 0 <= i < b.hist().len() implies (#[trigger] b.hist()[i]).3
            <= b.era@ by {
            assert(a.hist()[i] == b.hist()[i]);
        }
        match b.in_flight {
            Some(f) => {
                assert(a.in_flight == Some(f));
                assert forall|i: int|
                    0 <= i < b.hist().len() && (#[trigger] b.hist()[i]).0 == f.tp@
                        && b.hist()[i].3 == f.era@ implies b.hist()[i].1 < f.offset by {
                    assert(a.hist()[i] == b.hist()[i]);
                }
            },
            None => {},
        }
        assert forall|k: (Seq<char>, u32)| #[trigger] b.commits@.contains_key(k) implies 1
            <= b.commits@[k] && exists|i: int|
            0 <= i < b.hist().len() && (#[trigger] b.hist()[i]).0 == k && b.hist()[i].1 + 1
                == b.commits@[k] && b.hist()[i].2 is Processed by {
            assert(a.commits@.contains_key(k));
            let i = choose|i: int|
                0 <= i < a.hist().len() && (#[trigger] a.hist()[i]).0 == k && a.hist()[i].1 + 1
                    == a.commits@[k] && a.hist()[i].2 is Processed;
            assert(b.hist()[i] == a.hist()[i]);
        }
    }

    pub open spec fn wf(self) -> bool {
        &&& self.commits.wf()
        &&& self.fetched.wf()
        &&& self.ordered_history()
        &&& self.in_flight_fresh()
        &&& self.history_within_cursors()
        &&& self.history_eras_bounded()
        &&& self.commits_follow_processing()
    }

    /// Which gate a fetched message meets in this state.
    pub open spec fn spec_gate(self, k: (Seq<char>, u32), offset: u64) -> FetchGate {
        if self.halted {
            FetchGate::Halted
        } else if self.in_flight is Some {
            FetchGate::Busy
        } else if !self.monitor.owns(k) {
            FetchGate::NotOwned
        } else if offset == u64::MAX {
            FetchGate::OffsetLimit
        } else if self.fetched@.contains_key(k) && offset <= self.fetched@[k] {
            FetchGate::OutOfOrder
        } else {
            FetchGate::Accepted
        }
    }

    pub open spec fn accepts(self, k: (Seq<char>, u32), offset: u64) -> bool {
        self.spec_gate(k, offset) is Accepted
    }

    pub fn new(policy: FailurePolicy, manual_commit: bool) -> (r: ConsumptionLoop)
        ensures
            r.wf(),
            r.monitor.state is Unassigned,
            r.commits@ == Map::<(Seq<char>, u32), u64>::empty(),
            r.fetched@ == Map::<(Seq<char>, u32), u64>::empty(),
            r.in_flight is None,
            !r.halted,
            r.policy == policy,
            r.manual_commit == manual_commit,
            r.hist() == Seq::<HistEntry>::empty(),
    {
        ConsumptionLoop {
            monitor: AssignmentMonitor::new(),
            commits: CommitCoordinator::new(),
            fetched: OffsetTable::new(),
            in_flight: None,
            halted: false,
            policy,
            manual_commit,
            era: Ghost(0nat),
            history: Ghost(Seq::empty()),
        }
    }

    /// Offers a fetched message to the loop.  It is accepted exactly when
    /// the loop has not halted, nothing else is being processed, this
    /// consumer owns the partition, and the offset advances past the last
    /// fetch recorded for the partition since the current assignment.
    pub fn begin_fetch(&mut self, tp: &TopicPartition, offset: u64) -> (g: FetchGate)
        requires
            old(self).wf(),
        ensures
            final(self).wf(),
            g == old(self).spec_gate(tp@, offset),
            !(g is Accepted) ==> *final(self) == *old(self),
            g is Accepted ==> {
                &&& final(self).fetched@ == old(self).fetched@.insert(tp@, offset)
                &&& final(self).in_flight matches Some(f) && f.tp@ == tp@ && f.offset == offset
                    && f.era@ == old(self).era@
                &&& final(self).monitor == old(self).monitor
                &&& final(self).commits == old(self).commits
                &&& final(self).halted == old(self).halted
                &&& final(self).policy == old(self).policy
                &&& final(self).manual_commit == old(self).manual_commit
                &&& final(self).era@ == old(self).era@
                &&& final(self).hist() == old(self).hist()
            },
    {
        if self.halted {
            return FetchGate::Halted;
        }
        match &self.in_flight {
            Some(_) => {
                return FetchGate::Busy;
            },
            None => {},
        }
        if !self.monitor.owns_partition(tp) {
            return FetchGate::NotOwned;
        }
        if offset == u64::MAX {
            return FetchGate::OffsetLimit;
        }
        match self.fetched.lookup(tp) {
            Some(last) => {
                if offset <= last {
                    return FetchGate::OutOfOrder;
                }
            },
            None => {},
        }
        let ghost pre = *self;
        self.fetched.put(tp, offset);
        self.in_flight = Some(InFlightMsg { tp: tp.clone(), offset, era: Ghost(self.era@) });
        proof {
            let s = *self;
            assert(s.hist() == pre.hist());
            assert(s.fetched@ == pre.fetched@.insert(tp@, offset));
            assert forall|i: int|
                0 <= i < s.hist().len() && (#[trigger] s.hist()[i]).3 == s.era@ implies s
                .fetched@.contains_key(s.hist()[i].0) && s.hist()[i].1 <= s.fetched@[s.hist()[i].0] by {
                let e = s.hist()[i];
                assert(pre.hist()[i] == e);
                assert(pre.fetched@.contains_key(e.0) && e.1 <= pre.fetched@[e.0]);
                if e.0 == tp@ {
                    assert(pre.fetched@[tp@] < offset);
                }
            }
            assert forall|i: int|
                0 <= i < s.hist().len() && (#[trigger] s.hist()[i]).0 == tp@ && s.hist()[i].3
                    == s.era@ implies s.hist()[i].1 < offset by {
                let e = s.hist()[i];
                assert(pre.hist()[i] == e);
                assert(pre.fetched@.contains_key(tp@) && e.1 <= pre.fetched@[tp@]);
                assert(pre.fetched@[tp@] < offset);
            }
        }
        FetchGate::Accepted
    }

    /// Reports how processing of the in-flight message ended.  Only a
    /// successful outcome advances the commit point, and only to one past
    /// the processed offset; a decode or processing failure leaves every
    /// commit point where it was, and halts the loop under
    /// `HaltOnFailure`.
    pub fn finish_message(&mut self, outcome: ProcessOutcome) -> (r: Result<
        LoopDirective,
        ConsumeError,
    >)
        requires
            old(self).wf(),
        ensures
            final(self).wf(),
            match r {
                Err(e) => {
                    &&& e == ConsumeError::NoMessageInFlight
                    &&& old(self).in_flight is None
                    &&& *final(self) == *old(self)
                },
                Ok(d) => {
                    &&& old(self).in_flight matches Some(f) && {
                        &&& final(self).in_flight is None
                        &&& final(self).hist() == old(self).hist().push(
                            (f.tp@, f.offset, outcome, f.era@),
                        )
                        &&& final(self).halted == (!(outcome is Processed) && old(self).policy
                            is HaltOnFailure)
                        &&& d == (if final(self).halted {
                            LoopDirective::Halt
                        } else {
                            LoopDirective::Continue
                        })
                        &&& (outcome is Processed && old(self).manual_commit ==> final(self).commits@ == old(self).commits@.insert(f.tp@, (f.offset + 1) as u64))
                        &&& (!(outcome is Processed && old(self).manual_commit) ==> final(self).commits@ == old(self).commits@)
                        &&& final(self).fetched == old(self).fetched
                        &&& final(self).monitor == old(self).monitor
                        &&& final(self).era == old(self).era
                        &&& final(self).policy == old(self).policy
                        &&& final(self).manual_commit == old(self).manual_commit
                    }
                },
            },
    {
        let (tpc, off): (TopicPartition, u64) = match &self.in_flight {
            Some(fr) => (fr.tp.clone(), fr.offset),
            None => {
                return Err(ConsumeError::NoMessageInFlight);
            },
        };
        let ghost pre = *self;
        let ghost f = self.in_flight->0;
        let commit_now = match outcome {
            ProcessOutcome::Processed => self.manual_commit,
            _ => false,
        };
        let halt_now = match outcome {
            ProcessOutcome::Processed => false,
            _ => match self.policy {
                FailurePolicy::HaltOnFailure => true,
                FailurePolicy::SkipAndContinue => false,
            },
        };
        if commit_now {
            self.commits.record_processed(&tpc, off);
        }
        if halt_now {
            self.halted = true;
        }
        self.in_flight = None;
        self.history = Ghost(self.history@.push((f.tp@, f.offset, outcome, f.era@)));
        proof {
            let s = *self;
            let h = s.hist();
            let last = h.len() - 1;
            assert forall|i: int, j: int|
                0 <= i < j < h.len() && (#[trigger] h[i]).0 == (#[trigger] h[j]).0 && h[i].3
                    == h[j].3 implies h[i].1 < h[j].1 by {
                if j == last {
                    assert(pre.hist()[i] == h[i]);
                } else {
                    assert(pre.hist()[i] == h[i] && pre.hist()[j] == h[j]);
                }
            }
            assert forall|i: int|
                0 <= i < h.len() && (#[trigger] h[i]).3 == s.era@ implies s.fetched@.contains_key(
                h[i].0,
            ) && h[i].1 <= s.fetched@[h[i].0] by {
                if i < last {
                    assert(pre.hist()[i] == h[i]);
                }
            }
            assert forall|k: (Seq<char>, u32)| #[trigger]
                s.commits@.contains_key(k) implies 1 <= s.commits@[k] && exists|i: int|
                0 <= i < h.len() && (#[trigger] h[i]).0 == k && h[i].1 + 1 == s.commits@[k] && h[i].2 is Processed by {
                if commit_now && k == f.tp@ {
                    assert(h[last].0 == k && h[last].1 + 1 == s.commits@[k] && h[last].2 is Processed);
                } else {
                    assert(pre.commits@.contains_key(k) && s.commits@[k] == pre.commits@[k]);
                    let i = choose|i: int|
                        0 <= i < pre.hist().len() && (#[trigger] pre.hist()[i]).0 == k && pre.hist()[i].1 + 1 == pre.commits@[k] && pre.hist()[i].2 is Processed;
                    assert(h[i] == pre.hist()[i]);
                }
            }
        }
        if halt_now {
            Ok(LoopDirective::Halt)
        } else {
            Ok(LoopDirective::Continue)
        }
    }

    /// Handles one rebalance notification.  An assign replaces the owned
    /// set wholesale, starts a new era and resets the fetch cursors, so
    /// redelivery of earlier offsets is accepted again; a revoke leaves
    /// this instance unassigned and stops all further fetches while
    /// commit points and any in-flight message stay untouched; an error
    /// changes nothing and is handed back to be reported.
    pub fn on_rebalance(&mut self, ev: RebalanceEvent) -> (r: Option<String>)
        requires
            old(self).wf(),
        ensures
            final(self).wf(),
            final(self).commits == old(self).commits,
            final(self).history == old(self).history,
            final(self).in_flight == old(self).in_flight,
            final(self).halted == old(self).halted,
            final(self).policy == old(self).policy,
            final(self).manual_commit == old(self).manual_commit,
            match ev {
                RebalanceEvent::Assigned(ps) => {
                    &&& final(self).monitor.state is Assigned
                    &&& (forall|k: (Seq<char>, u32)|
                        (#[trigger] final(self).monitor.owns(k)) == lists_key(ps@, k))
                    &&& final(self).fetched@ == Map::<(Seq<char>, u32), u64>::empty()
                    &&& final(self).era@ == old(self).era@ + 1
                    &&& r is None
                },
                RebalanceEvent::Revoked => {
                    &&& final(self).monitor.state is Unassigned
                    &&& (forall|k: (Seq<char>, u32)| !(#[trigger] final(self).monitor.owns(k)))
                    &&& final(self).fetched == old(self).fetched
                    &&& final(self).era == old(self).era
                    &&& r is None
                },
                RebalanceEvent::Error(d) => {
                    &&& *final(self) == *old(self)
                    &&& r == Some(d)
                },
            },
    {
        let ghost pre = *self;
        let is_assign = match &ev {
            RebalanceEvent::Assigned(_) => true,
            _ => false,
        };
        let r = self.monitor.on_rebalance(ev);
        if is_assign {
            self.fetched = OffsetTable::new();
            self.era = Ghost(self.era@ + 1);
            proof {
                let s = *self;
                assert(s.hist() == pre.hist());
                assert(s.era@ == pre.era@ + 1);
                assert forall|i: int|
                    0 <= i < s.hist().len() && (#[trigger] s.hist()[i]).3 == s.era@ implies s
                    .fetched@.contains_key(s.hist()[i].0) && s.hist()[i].1 <= s.fetched@[s.hist()[i].0] by {
                    assert(pre.hist()[i] == s.hist()[i]);
                    assert(pre.hist()[i].3 <= pre.era@);
                }
                assert forall|i: int|
                    0 <= i < s.hist().len() implies (#[trigger] s.hist()[i]).3 <= s.era@ by {
                    assert(pre.hist()[i] == s.hist()[i]);
                    assert(pre.hist()[i].3 <= pre.era@);
                }
                assert forall|i: int, j: int|
                    0 <= i < j < s.hist().len() && (#[trigger] s.hist()[i]).0 == (
                #[trigger] s.hist()[j]).0 && s.hist()[i].3 == s.hist()[j].3 implies s.hist()[i].1
                    < s.hist()[j].1 by {
                    assert(pre.hist()[i] == s.hist()[i] && pre.hist()[j] == s.hist()[j]);
                }
                match s.in_flight {
                    Some(f) => {
                        assert(pre.in_flight == Some(f));
                        assert forall|i: int|
                            0 <= i < s.hist().len() && (#[trigger] s.hist()[i]).0 == f.tp@
                                && s.hist()[i].3 == f.era@ implies s.hist()[i].1 < f.offset by {
                            assert(pre.hist()[i] == s.hist()[i]);
                        }
                        assert(f.era@ <= pre.era@);
                    },
                    None => {},
                }
                assert forall|k: (Seq<char>, u32)| #[trigger]
                    s.commits@.contains_key(k) implies 1 <= s.commits@[k] && exists|i: int|
                    0 <= i < s.hist().len() && (#[trigger] s.hist()[i]).0 == k && s.hist()[i].1 + 1
                        == s.commits@[k] && s.hist()[i].2 is Processed by {
                    assert(pre.commits@.contains_key(k));
                    let i = choose|i: int|
                        0 <= i < pre.hist().len() && (#[trigger] pre.hist()[i]).0 == k && pre.hist()[i].1
                            + 1 == pre.commits@[k] && pre.hist()[i].2 is Processed;
                    assert(s.hist()[i] == pre.hist()[i]);
                }
            }
        } else {
            proof {
                Self::lemma_wf_monitor_independent(pre, *self);
            }
        }
        r
    }

    /// Whether a fetch for this partition would currently be accepted at
    /// some offset; false whenever the partition is not owned, the loop
    /// has halted, or a message is still in flight.
    pub fn may_fetch(&self, tp: &TopicPartition) -> (r: bool)
        ensures
            r == (!self.halted && self.in_flight is None && self.monitor.owns(tp@)),
    {
        if self.halted {
            return false;
        }
        match &self.in_flight {
            Some(_) => {
                return false;
            },
            None => {},
        }
        self.monitor.owns_partition(tp)
    }

    /// The commit point cached for this partition.
    pub fn commit_point(&self, tp: &TopicPartition) -> (r: Option<u64>)
        requires
            self.wf(),
        ensures
            r == if self.commits@.contains_key(tp@) {
                Some(self.commits@[tp@])
            } else {
                None::<u64>
            },
    {
        self.commits.commit_point(tp)
    }

    pub fn is_halted(&self) -> (r: bool)
        ensures
            r == self.halted,
    {
        self.halted
    }
}

/// Law: per-partition order is preserved.  Any two messages handled on
/// the same partition within the same assignment era were handled in
/// strictly increasing offset order — the loop never reorders a
/// partition's messages.
pub proof fn lemma_per_partition_order(l: ConsumptionLoop, i: int, j: int)
    requires
        l.wf(),
        0 <= i < j < l.hist().len(),
        l.hist()[i].0 == l.hist()[j].0,
        l.hist()[i].3 == l.hist()[j].3,
    ensures
        l.hist()[i].1 < l.hist()[j].1,
{
}

/// Law: the commit point of a partition never advances past an offset
/// whose message has not completed successful processing: whenever a
/// commit point is set, it is exactly one past an offset recorded as
/// successfully processed on that partition.
pub proof fn lemma_commit_follows_processing(l: ConsumptionLoop, k: (Seq<char>, u32))
    requires
        l.wf(),
        l.commits@.contains_key(k),
    ensures
        exists|i: int|
            0 <= i < l.hist().len() && (#[trigger] l.hist()[i]).0 == k && l.hist()[i].1 + 1
                == l.commits@[k] && l.hist()[i].2 is Processed,
{
}

/// Law: after a revoke, no fetch is accepted for any partition, and a
/// message still in flight is bounded by the revoke boundary: it was
/// fetched at or below the last recorded fetch position of its
/// partition, so its completion commits at most one past that position.
pub proof fn lemma_revoke_stops_fetching(l: ConsumptionLoop, k: (Seq<char>, u32), offset: u64)
    requires
        l.wf(),
        l.monitor.state is Unassigned,
    ensures
        !l.accepts(k, offset),
        l.in_flight matches Some(f) ==> (f.era@ == l.era@ ==> l.fetched@.contains_key(f.tp@)
            && f.offset <= l.fetched@[f.tp@]),
{
}

} // verus!
