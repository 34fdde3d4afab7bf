//! Events carried by the single-producer, single-consumer channel.

use vstd::prelude::*;

use crate::ap_set::ApSet;

verus! {

/// What the scanner publishes and what user interactions feed back.
/// Delivery is FIFO; that order is the only ordering guarantee between the
/// two ends of the channel.
pub enum NetworksEvent {
    /// Result of a completed scan cycle: a full replacement for the
    /// authoritative set, never a delta.
    ApList(ApSet),
    /// The user asked to connect to or configure the entry under this key.
    ConfigureDevice(u64),
    /// The consumer is going away; the scanner should stop.
    Quit,
}

} // verus!
