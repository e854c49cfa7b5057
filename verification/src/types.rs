//! Shared data model: topic/partition identifiers, messages, delivery
//! outcomes, and the error taxonomy of the core.

use vstd::prelude::*;

verus! {

/// A topic name together with one of its partitions.  This pair is the key
/// under which assignments, fetch cursors and commit points are tracked.
#[derive(Debug)]
pub struct TopicPartition {
    pub topic: String,
    pub partition: u32,
}

impl View for TopicPartition {
    type V = (Seq<char>, u32);

    open spec fn view(&self) -> (Seq<char>, u32) {
        (self.topic@, self.partition)
    }
}

impl TopicPartition {
    pub fn new(topic: String, partition: u32) -> (r: TopicPartition)
        ensures
            r@ == (topic@, partition),
    {
        TopicPartition { topic, partition }
    }

    /// Equality on the (topic, partition) key.
    pub fn key_eq(&self, other: &TopicPartition) -> (r: bool)
        ensures
            r == (self@ == other@),
    {
        self.partition == other.partition && self.topic == other.topic
    }
}

impl Clone for TopicPartition {
    fn clone(&self) -> (r: Self)
        ensures
            r == *self,
            r@ == self@,
    {
        TopicPartition { topic: self.topic.clone(), partition: self.partition }
    }
}

/// An outbound message.  The payload is an opaque byte sequence; encoding
/// and decoding belong to the application, not to this core.
#[derive(Debug)]
pub struct Message {
    pub topic: String,
    /// `None` asks the broker to pick the partition.
    pub partition: Option<u32>,
    pub key: Option<Vec<u8>>,
    pub payload: Vec<u8>,
}

/// Why a submitted message failed to be delivered.
#[derive(Debug, PartialEq, Eq)]
pub enum FailureReason {
    /// The transport reported an error for this message.
    Transport(String),
    /// The producer was torn down while the message was still in flight.
    Aborted,
}

/// The single outcome that each submitted message eventually receives.
/// The message key is available on both the success and the failure path.
#[derive(Debug)]
pub enum DeliveryOutcome {
    Success { key: Option<Vec<u8>>, partition: u32, offset: u64 },
    Failure { reason: FailureReason, message: Message },
}

impl DeliveryOutcome {
    /// The key of the message this outcome belongs to, on either path.
    pub open spec fn spec_key(self) -> Option<Vec<u8>> {
        match self {
            DeliveryOutcome::Success { key, .. } => key,
            DeliveryOutcome::Failure { message, .. } => message.key,
        }
    }

    /// Extracts the message key from the outcome; it is present on both
    /// the success and the failure path.
    pub fn key(&self) -> (r: &Option<Vec<u8>>)
        ensures
            *r == self.spec_key(),
    {
        match self {
            DeliveryOutcome::Success { key, .. } => key,
            DeliveryOutcome::Failure { message, .. } => &message.key,
        }
    }

    pub fn is_success(&self) -> (r: bool)
        ensures
            r == (self is Success),
    {
        match self {
            DeliveryOutcome::Success { .. } => true,
            DeliveryOutcome::Failure { .. } => false,
        }
    }
}

/// What the transport reports back for one in-flight message.
#[derive(Debug)]
pub enum DeliveryAck {
    Delivered { partition: u32, offset: u64 },
    Rejected { reason: String },
}

/// Rejection at submission time, before the message is enqueued.
#[derive(Debug, PartialEq, Eq, Structural)]
pub enum SubmitError {
    /// The payload exceeds the transport's maximum record size.
    PayloadTooLarge { size: usize, limit: usize },
}

/// An acknowledgement for a sequence number that is not in flight: either
/// never submitted or already resolved.  Rejecting it keeps outcomes
/// one-per-message.
#[derive(Debug, PartialEq, Eq, Structural)]
pub enum AckError {
    UnknownSequence,
}

/// `flush` reports this when outcomes are still pending at the end of the
/// caller's waiting budget.
#[derive(Debug, PartialEq, Eq, Structural)]
pub enum FlushError {
    TimedOut,
}

/// How a commit request is issued to the broker.
#[derive(Debug, Clone, Copy, PartialEq, Eq, Structural)]
pub enum CommitMode {
    Sync,
    Async,
}

/// A commit request that the broker did not acknowledge.
#[derive(Debug, PartialEq, Eq)]
pub enum CommitError {
    Broker(String),
}

/// The offset position reported for a partition in a commit confirmation.
/// `Invalid` means the partition had no progress to report.
#[derive(Debug, Clone, Copy, PartialEq, Eq, Structural)]
pub enum OffsetMarker {
    At(u64),
    Invalid,
}

/// How handling one consumed message ended.  Decoding failures are a
/// distinct kind from application processing failures.
#[derive(Debug, Clone, Copy, PartialEq, Eq, Structural)]
pub enum ProcessOutcome {
    Processed,
    DecodeFailed,
    ProcessFailed,
}

/// Why the consumption loop did or did not accept a fetched message.
#[derive(Debug, Clone, Copy, PartialEq, Eq, Structural)]
pub enum FetchGate {
    /// The message was accepted and is now being processed.
    Accepted,
    /// The loop stopped after an earlier failure.
    Halted,
    /// Another message is still being processed.
    Busy,
    /// This consumer does not own the partition.
    NotOwned,
    /// The offset does not fit in the offset arithmetic of this core.
    OffsetLimit,
    /// The offset does not advance past the last fetch on this partition.
    OutOfOrder,
}

/// What the consumption loop should do next.
#[derive(Debug, Clone, Copy, PartialEq, Eq, Structural)]
pub enum LoopDirective {
    Continue,
    Halt,
}

/// Completion reported with no message in flight.
#[derive(Debug, PartialEq, Eq, Structural)]
pub enum ConsumeError {
    NoMessageInFlight,
}

/// What the consumption loop does after a message fails: stop consuming
/// (fail-closed) or surface the error and keep going.
#[derive(Debug, Clone, Copy, PartialEq, Eq, Structural)]
pub enum FailurePolicy {
    HaltOnFailure,
    SkipAndContinue,
}

} // verus!
