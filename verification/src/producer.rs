//! Producer core and delivery tracker: accepts outbound messages, hands
//! them to the transport as numbered in-flight records, and turns the
//! transport's asynchronous acknowledgements into exactly one
//! `DeliveryOutcome` per submitted message.

use vstd::prelude::*;

use crate::types::{
    AckError, DeliveryAck, DeliveryOutcome, FailureReason, FlushError, Message, SubmitError,
};

verus! {

/// The outcome a message gets for a given transport acknowledgement.
pub open spec fn spec_outcome_of(msg: Message, ack: DeliveryAck) -> DeliveryOutcome {
    match ack {
        DeliveryAck::Delivered { partition, offset } => (DeliveryOutcome::Success {
            key: msg.key,
            partition,
            offset,
        }),
        DeliveryAck::Rejected { reason } => (DeliveryOutcome::Failure {
            reason: FailureReason::Transport(reason),
            message: msg,
        }),
    }
}

/// The outcomes a batch of in-flight messages gets when the producer is
/// torn down before they resolve.
pub open spec fn spec_aborted_outcomes(s: Seq<(u64, Message)>) -> Seq<(u64, DeliveryOutcome)> {
    s.map_values(
        |e: (u64, Message)|
            (
                e.0,
                (DeliveryOutcome::Failure { reason: FailureReason::Aborted, message: e.1 }),
            ),
    )
}

/// Sink for resolved deliveries: one record per completed message.
pub struct DeliveryTracker {
    pub outcomes: Vec<(u64, DeliveryOutcome)>,
}

impl DeliveryTracker {
    /// Some outcome has been recorded for this sequence number.
    pub open spec fn has_outcome(self, id: u64) -> bool {
        exists|i: int| 0 <= i < self.outcomes@.len() && (#[trigger] self.outcomes@[i]).0 == id
    }

    /// No two records share a sequence number.
    pub open spec fn distinct_ids(self) -> bool {
        forall|i: int, j: int|
            0 <= i < j < self.outcomes@.len() ==> (#[trigger] self.outcomes@[i]).0 != (
            #[trigger] self.outcomes@[j]).0
    }

    pub fn records(&self) -> (r: &Vec<(u64, DeliveryOutcome)>)
        ensures
            r@ == self.outcomes@,
    {
        &self.outcomes
    }

    pub fn len(&self) -> (r: usize)
        ensures
            r == self.outcomes@.len(),
    {
        self.outcomes.len()
    }
}

/// The producer core.  `next_seq` numbers submissions; every number below
/// it is either still in flight or resolved in the tracker, never both.
pub struct ProducerCore {
    pub max_record_size: usize,
    pub next_seq: u64,
    pub in_flight: Vec<(u64, Message)>,
    pub tracker: DeliveryTracker,
}

impl ProducerCore {
    /// The message with this sequence number is still awaiting an outcome.
    pub open spec fn pending(self, id: u64) -> bool {
        exists|i: int| 0 <= i < self.in_flight@.len() && (#[trigger] self.in_flight@[i]).0 == id
    }

    /// The message with this sequence number has its outcome recorded.
    pub open spec fn completed(self, id: u64) -> bool {
        self.tracker.has_outcome(id)
    }

    /// What `flush` reports for this state.
    pub open spec fn spec_flush(self) -> Result<(), FlushError> {
        if self.in_flight@.len() == 0 {
            Ok(())
        } else {
            Err(FlushError::TimedOut)
        }
    }

    pub open spec fn wf(self) -> bool {
        &&& forall|i: int, j: int|
            0 <= i < j < self.in_flight@.len() ==> (#[trigger] self.in_flight@[i]).0 < (
            #[trigger] self.in_flight@[j]).0
        &&& forall|i: int|
            0 <= i < self.in_flight@.len() ==> (#[trigger] self.in_flight@[i]).0 < self.next_seq
        &&& self.tracker.distinct_ids()
        &&& forall|i: int|
            0 <= i < self.tracker.outcomes@.len() ==> (#[trigger] self.tracker.outcomes@[i]).0
                < self.next_seq
        &&& forall|i: int, j: int|
            0 <= i < self.in_flight@.len() && 0 <= j < self.tracker.outcomes@.len() ==> (
            #[trigger] self.in_flight@[i]).0 != (#[trigger] self.tracker.outcomes@[j]).0
        &&& forall|id: u64| id < self.next_seq ==> #[trigger] self.pending(id) || self.completed(id)
    }

    pub fn new(max_record_size: usize) -> (r: ProducerCore)
        ensures
            r.wf(),
            r.max_record_size == max_record_size,
            r.next_seq == 0,
            r.in_flight@.len() == 0,
            r.tracker.outcomes@.len() == 0,
    {
        ProducerCore {
            max_record_size,
            next_seq: 0,
            in_flight: Vec::new(),
            tracker: DeliveryTracker { outcomes: Vec::new() },
        }
    }

    /// Accepts a message for asynchronous transmission.  An oversized
    /// payload is rejected here, at construction time, and never becomes a
    /// delivery failure.
    pub fn submit(&mut self, msg: Message) -> (r: Result<u64, SubmitError>)
        requires
            old(self).wf(),
            old(self).next_seq < u64::MAX,
        ensures
            final(self).wf(),
            final(self).max_record_size == old(self).max_record_size,
            match r {
                Ok(id) => {
                    &&& msg.payload@.len() <= old(self).max_record_size
                    &&& id == old(self).next_seq
                    &&& final(self).next_seq == old(self).next_seq + 1
                    &&& final(self).in_flight@ == old(self).in_flight@.push((id, msg))
                    &&& final(self).tracker.outcomes@ == old(self).tracker.outcomes@
                },
                Err(e) => {
                    &&& msg.payload@.len() > old(self).max_record_size
                    &&& e == (SubmitError::PayloadTooLarge {
                        size: msg.payload.len(),
                        limit: old(self).max_record_size,
                    })
                    &&& *final(self) == *old(self)
                },
            },
    {
        if msg.payload.len() > self.max_record_size {
            return Err(SubmitError::PayloadTooLarge {
                size: msg.payload.len(),
                limit: self.max_record_size,
            });
        }
        let id = self.next_seq;
        self.next_seq = id + 1;
        self.in_flight.push((id, msg));
        proof {
            let s = *self;
            assert forall|x: u64| x < s.next_seq implies #[trigger] s.pending(x) || s.completed(
                x,
            ) by {
                if x == id {
                    assert(s.in_flight@[s.in_flight@.len() - 1].0 == x);
                } else {
                    assert(old(self).pending(x) || old(self).completed(x));
                    if old(self).pending(x) {
                        let i = choose|i: int|
                            0 <= i < old(self).in_flight@.len() && (#[trigger] old(
                                self,
                            ).in_flight@[i]).0 == x;
                        assert(s.in_flight@[i].0 == x);
                    }
                }
            }
        }
        Ok(id)
    }

    /// Resolves one in-flight message with the transport's acknowledgement,
    /// recording its single delivery outcome.  An acknowledgement for a
    /// sequence number not in flight is rejected unchanged, so a duplicate
    /// can never produce a second outcome.
    pub fn on_delivery(&mut self, id: u64, ack: DeliveryAck) -> (r: Result<(), AckError>)
        requires
            old(self).wf(),
        ensures
            final(self).wf(),
            final(self).max_record_size == old(self).max_record_size,
            final(self).next_seq == old(self).next_seq,
            match r {
                Ok(()) => {
                    &&& old(self).pending(id)
                    &&& exists|i: int|
                        {
                            &&& 0 <= i < old(self).in_flight@.len()
                            &&& (#[trigger] old(self).in_flight@[i]).0 == id
                            &&& final(self).in_flight@ == old(self).in_flight@.remove(i)
                            &&& final(self).tracker.outcomes@ == old(
                                self,
                            ).tracker.outcomes@.push(
                                (id, spec_outcome_of(old(self).in_flight@[i].1, ack)),
                            )
                        }
                    &&& final(self).completed(id)
                    &&& !final(self).pending(id)
                },
                Err(e) => {
                    &&& e == AckError::UnknownSequence
                    &&& !old(self).pending(id)
                    &&& *final(self) == *old(self)
                },
            },
    {
        let ghost pre = *old(self);
        let mut i: usize = 0;
        let n = self.in_flight.len();
        while i < n
            invariant
                pre == *old(self),
                pre.wf(),
                *self == pre,
                n == self.in_flight@.len(),
                i <= n,
                forall|j: int| 0 <= j < i ==> (#[trigger] self.in_flight@[j]).0 != id,
            decreases n - i,
        {
            if self.in_flight[i].0 == id {
                let (got, msg) = self.in_flight.remove(i);
                let outcome = make_outcome(msg, ack);
                self.tracker.outcomes.push((got, outcome));
                proof {
                    pre.in_flight@.remove_ensures(i as int);
                    let s = *self;
                    let infl = s.in_flight@;
                    let outs = s.tracker.outcomes@;
                    // every surviving in-flight id is an old one other than `id`
                    assert forall|x: int| 0 <= x < infl.len() implies (#[trigger] infl[x]).0
                        != id by {
                        if x < i {
                            assert(infl[x] == pre.in_flight@[x]);
                            assert(pre.in_flight@[x].0 < pre.in_flight@[i as int].0);
                        } else {
                            assert(infl[x] == pre.in_flight@[x + 1]);
                            assert(pre.in_flight@[i as int].0 < pre.in_flight@[x + 1].0);
                        }
                    }
                    assert forall|x: int, y: int|
                        0 <= x < infl.len() && 0 <= y < outs.len() implies (#[trigger] infl[x]).0
                        != (#[trigger] outs[y]).0 by {
                        if x < i {
                            assert(infl[x] == pre.in_flight@[x]);
                        } else {
                            assert(infl[x] == pre.in_flight@[x + 1]);
                        }
                        if y < outs.len() - 1 {
                            assert(outs[y] == pre.tracker.outcomes@[y]);
                        }
                    }
                    assert forall|x: int, y: int|
                        0 <= x < y < infl.len() implies (#[trigger] infl[x]).0 < (
                    #[trigger] infl[y]).0 by {
                        if y < i {
                            assert(infl[x] == pre.in_flight@[x] && infl[y] == pre.in_flight@[y]);
                        } else if x < i {
                            assert(infl[x] == pre.in_flight@[x] && infl[y] == pre.in_flight@[y
                                + 1]);
                        } else {
                            assert(infl[x] == pre.in_flight@[x + 1] && infl[y] == pre.in_flight@[y
                                + 1]);
                        }
                    }
                    assert(s.tracker.distinct_ids()) by {
                        assert forall|x: int, y: int|
                            0 <= x < y < outs.len() implies (#[trigger] outs[x]).0 != (
                        #[trigger] outs[y]).0 by {
                            if y < outs.len() - 1 {
                                assert(outs[x] == pre.tracker.outcomes@[x] && outs[y]
                                    == pre.tracker.outcomes@[y]);
                            } else {
                                assert(outs[x] == pre.tracker.outcomes@[x]);
                                assert(pre.in_flight@[i as int].0 != pre.tracker.outcomes@[x].0);
                            }
                        }
                    }
                    assert forall|x: u64| x < s.next_seq implies #[trigger] s.pending(x)
                        || s.completed(x) by {
                        assert(pre.pending(x) || pre.completed(x));
                        if pre.completed(x) {
                            let y = choose|y: int|
                                0 <= y < pre.tracker.outcomes@.len() && (#[trigger] pre
                                    .tracker
                                    .outcomes@[y]).0 == x;
                            assert(outs[y].0 == x);
                        } else {
                            let y = choose|y: int|
                                0 <= y < pre.in_flight@.len() && (#[trigger] pre.in_flight@[y]).0
                                    == x;
                            if y == i {
                                assert(outs[outs.len() - 1].0 == x);
                            } else if y < i {
                                assert(infl[y].0 == x);
                            } else {
                                assert(infl[y - 1].0 == x);
                            }
                        }
                    }
                    assert(s.completed(id)) by {
                        assert(outs[outs.len() - 1].0 == id);
                    }
                }
                return Ok(());
            }
            i = i + 1;
        }
        proof {
            if pre.pending(id) {
                let j = choose|j: int|
                    0 <= j < pre.in_flight@.len() && (#[trigger] pre.in_flight@[j]).0 == id;
                assert(self.in_flight@[j].0 != id);
            }
        }
        Err(AckError::UnknownSequence)
    }

    /// Reports whether every submitted message has its outcome.  The
    /// blocking wait with a deadline is the transport's; at the end of that
    /// wait this is the flush result: `TimedOut` exactly when outcomes
    /// remain pending.
    pub fn flush(&self) -> (r: Result<(), FlushError>)
        ensures
            r == self.spec_flush(),
            r is Ok <==> self.in_flight@.len() == 0,
    {
        if self.in_flight.len() == 0 {
            Ok(())
        } else {
            Err(FlushError::TimedOut)
        }
    }

    pub fn pending_count(&self) -> (r: usize)
        ensures
            r == self.in_flight@.len(),
    {
        self.in_flight.len()
    }

    /// Tears the producer down: every message still in flight is resolved
    /// as a `Failure` with reason `Aborted`, in submission order.
    pub fn abort_pending(&mut self)
        requires
            old(self).wf(),
        ensures
            final(self).wf(),
            final(self).max_record_size == old(self).max_record_size,
            final(self).next_seq == old(self).next_seq,
            final(self).in_flight@.len() == 0,
            final(self).tracker.outcomes@ == old(self).tracker.outcomes@ + spec_aborted_outcomes(
                old(self).in_flight@,
            ),
    {
        let ghost pre = *old(self);
        let ghost mut k: int = 0;
        while self.in_flight.len() > 0
            invariant
                pre.wf(),
                0 <= k <= pre.in_flight@.len(),
                self.in_flight@ == pre.in_flight@.skip(k),
                self.tracker.outcomes@ == pre.tracker.outcomes@ + spec_aborted_outcomes(
                    pre.in_flight@.take(k),
                ),
                self.next_seq == pre.next_seq,
                self.max_record_size == pre.max_record_size,
            decreases self.in_flight@.len(),
        {
            let (id, msg) = self.in_flight.remove(0);
            self.tracker.outcomes.push(
                (id, DeliveryOutcome::Failure { reason: FailureReason::Aborted, message: msg }),
            );
            proof {
                assert(pre.in_flight@.skip(k)[0] == pre.in_flight@[k]);
                assert(self.in_flight@ =~= pre.in_flight@.skip(k + 1)) by {
                    pre.in_flight@.skip(k).remove_ensures(0);
                }
                assert(self.tracker.outcomes@ =~= pre.tracker.outcomes@ + spec_aborted_outcomes(
                    pre.in_flight@.take(k + 1),
                ));
                k = k + 1;
            }
        }
        proof {
            assert(pre.in_flight@.take(k) =~= pre.in_flight@);
            let s = *self;
            let outs = s.tracker.outcomes@;
            let m = pre.tracker.outcomes@.len() as int;
            assert(s.tracker.distinct_ids()) by {
                assert forall|x: int, y: int|
                    0 <= x < y < outs.len() implies (#[trigger] outs[x]).0 != (
                #[trigger] outs[y]).0 by {
                    if y < m {
                    } else if x < m {
                        assert(outs[x] == pre.tracker.outcomes@[x]);
                        assert(outs[y].0 == pre.in_flight@[y - m].0);
                    } else {
                        assert(outs[x].0 == pre.in_flight@[x - m].0);
                        assert(outs[y].0 == pre.in_flight@[y - m].0);
                    }
                }
            }
            assert forall|x: int| 0 <= x < outs.len() implies (#[trigger] outs[x]).0
                < s.next_seq by {
                if x >= m {
                    assert(outs[x].0 == pre.in_flight@[x - m].0);
                }
            }
            assert forall|x: u64| x < s.next_seq implies #[trigger] s.pending(x) || s.completed(
                x,
            ) by {
                assert(pre.pending(x) || pre.completed(x));
                if pre.completed(x) {
                    let y = choose|y: int|
                        0 <= y < pre.tracker.outcomes@.len() && (#[trigger] pre
                            .tracker
                            .outcomes@[y]).0 == x;
                    assert(outs[y].0 == x);
                } else {
                    let y = choose|y: int|
                        0 <= y < pre.in_flight@.len() && (#[trigger] pre.in_flight@[y]).0 == x;
                    assert(outs[m + y].0 == x);
                }
            }
        }
    }
}

/// Builds the outcome for one acknowledged message.
fn make_outcome(msg: Message, ack: DeliveryAck) -> (r: DeliveryOutcome)
    ensures
        r == spec_outcome_of(msg, ack),
{
    match ack {
        DeliveryAck::Delivered { partition, offset } => DeliveryOutcome::Success {
            key: msg.key,
            partition,
            offset,
        },
        DeliveryAck::Rejected { reason } => DeliveryOutcome::Failure {
            reason: FailureReason::Transport(reason),
            message: msg,
        },
    }
}

/// Law: every submitted message has exactly one delivery outcome.  A
/// sequence number below `next_seq` is pending exactly when it has no
/// recorded outcome, and never has two recorded outcomes.
pub proof fn lemma_exactly_one_outcome(p: ProducerCore, id: u64)
    requires
        p.wf(),
        id < p.next_seq,
    ensures
        p.pending(id) <==> !p.completed(id),
        forall|i: int, j: int|
            0 <= i < j < p.tracker.outcomes@.len() ==> !((#[trigger] p.tracker.outcomes@[i]).0
                == id && (#[trigger] p.tracker.outcomes@[j]).0 == id),
{
    if p.pending(id) && p.completed(id) {
        let i = choose|i: int|
            0 <= i < p.in_flight@.len() && (#[trigger] p.in_flight@[i]).0 == id;
        let j = choose|j: int|
            0 <= j < p.tracker.outcomes@.len() && (#[trigger] p.tracker.outcomes@[j]).0 == id;
        assert(p.in_flight@[i].0 != p.tracker.outcomes@[j].0);
    }
}

/// Law: flush is idempotent.  Its result depends only on the in-flight
/// queue, so after a successful flush, a second flush with no submissions
/// in between (the in-flight queue unchanged) succeeds again.
pub proof fn lemma_flush_idempotent(p1: ProducerCore, p2: ProducerCore)
    requires
        p1.in_flight@ == p2.in_flight@,
        p1.spec_flush() is Ok,
    ensures
        p2.spec_flush() is Ok,
{
}

} // verus!
