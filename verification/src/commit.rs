//! Commit coordinator: tracks, per partition, the next offset to consume
//! on restart (last successfully processed offset + 1), and handles the
//! broker's commit confirmations.  The in-process table is a write-through
//! cache of the broker-side commit state.

use vstd::prelude::*;

use crate::offset_map::OffsetTable;
use crate::types::{CommitError, OffsetMarker, TopicPartition};

verus! {

pub struct CommitCoordinator {
    pub points: OffsetTable,
}

impl View for CommitCoordinator {
    type V = Map<(Seq<char>, u32), u64>;

    open spec fn view(&self) -> Map<(Seq<char>, u32), u64> {
        self.points@
    }
}

impl CommitCoordinator {
    pub open spec fn wf(self) -> bool {
        self.points.wf()
    }

    pub fn new() -> (r: CommitCoordinator)
        ensures
            r.wf(),
            r@ == Map::<(Seq<char>, u32), u64>::empty(),
    {
        CommitCoordinator { points: OffsetTable::new() }
    }

    /// Records that the message at `offset` on this partition completed
    /// successful processing: the commit point becomes `offset + 1`.  This
    /// is the only way a commit point moves, so only just-processed
    /// offsets are ever committed.
    pub fn record_processed(&mut self, tp: &TopicPartition, offset: u64)
        requires
            old(self).wf(),
            offset < u64::MAX,
        ensures
            final(self).wf(),
            final(self)@ == old(self)@.insert(tp@, (offset + 1) as u64),
    {
        self.points.put(tp, offset + 1);
    }

    /// The commit point currently cached for this partition.
    pub fn commit_point(&self, tp: &TopicPartition) -> (r: Option<u64>)
        requires
            self.wf(),
        ensures
            r == if self@.contains_key(tp@) {
                Some(self@[tp@])
            } else {
                None::<u64>
            },
    {
        self.points.lookup(tp)
    }

    /// The (partition, next offset) pairs a commit request carries to the
    /// broker, whether issued synchronously or asynchronously.
    pub fn request_pairs(&self) -> (r: &Vec<(TopicPartition, u64)>)
        ensures
            r@ == self.points.spec_entries(),
    {
        self.points.pairs()
    }
}

/// The entries of a commit confirmation that report progress: entries
/// whose marker is `Invalid` carry no committed offset and are skipped;
/// the rest keep their order.
pub open spec fn spec_confirmed(s: Seq<(TopicPartition, OffsetMarker)>) -> Seq<
    (TopicPartition, u64),
>
    decreases s.len(),
{
    if s.len() == 0 {
        Seq::empty()
    } else {
        let rest = spec_confirmed(s.drop_last());
        match s.last().1 {
            OffsetMarker::At(o) => rest.push((s.last().0, o)),
            OffsetMarker::Invalid => rest,
        }
    }
}

/// Handles the broker's commit confirmation.  On success, hands back the
/// committed (partition, offset) pairs, silently skipping every entry
/// whose marker is `Invalid` — those report no progress and are not an
/// error.  A failed commit is surfaced as a `CommitError`, never
/// swallowed.
pub fn on_commit_confirmation(
    result: Result<(), String>,
    entries: &Vec<(TopicPartition, OffsetMarker)>,
) -> (r: Result<Vec<(TopicPartition, u64)>, CommitError>)
    ensures
        match result {
            Ok(()) => r matches Ok(c) && c@ == spec_confirmed(entries@),
            Err(e) => r == Err::<Vec<(TopicPartition, u64)>, CommitError>(CommitError::Broker(e)),
        },
{
    match result {
        Err(e) => Err(CommitError::Broker(e)),
        Ok(()) => {
            let mut out: Vec<(TopicPartition, u64)> = Vec::new();
            let mut i: usize = 0;
            while i < entries.len()
                invariant
                    i <= entries@.len(),
                    out@ == spec_confirmed(entries@.take(i as int)),
                decreases entries@.len() - i,
            {
                proof {
                    assert(entries@.take(i + 1).drop_last() =~= entries@.take(i as int));
                    assert(entries@.take(i + 1).last() == entries@[i as int]);
                }
                match entries[i].1 {
                    OffsetMarker::At(o) => {
                        out.push((entries[i].0.clone(), o));
                    },
                    OffsetMarker::Invalid => {},
                }
                i = i + 1;
            }
            proof {
                assert(entries@.take(entries@.len() as int) =~= entries@);
            }
            Ok(out)
        },
    }
}

} // verus!
