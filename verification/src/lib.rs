//! Wireless access-point discovery engine.
//!
//! The library models the core of a network-discovery pipeline: a background
//! scanner asks a network-management service for the access points each
//! wireless device can see, the raw descriptors are parsed, deduplicated and
//! ranked by signal strength, and the result is handed over an ordered event
//! channel to a reconciler that owns the authoritative set of visible
//! networks and drives a presentation sink.
//!
//! All decision logic lives here, verified; the surrounding process (system
//! bus calls, timers, the actual channel and the toolkit) performs the
//! actions these state machines request and feeds the outcomes back in.

pub mod access_point;
pub mod ap_set;
pub mod events;
pub mod rank;
pub mod reconciler;
pub mod scanner;
