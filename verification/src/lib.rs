//! Client-side coordination core for a publish/subscribe message queue.
//!
//! The crate models the logic that sits between an application and a
//! broker transport: tracking asynchronous delivery outcomes for produced
//! messages, reacting to partition rebalance notifications, consuming
//! messages in per-partition order, and advancing manual commit points
//! only after successful processing.  The transport itself (network,
//! wire protocol, payload encoding) is a collaborator and stays outside.

pub mod assignment;
pub mod commit;
pub mod consume;
pub mod offset_map;
pub mod producer;
pub mod types;
