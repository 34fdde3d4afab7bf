//! The background scanner: the outer loop and the per-cycle state machine.
//!
//! The surrounding task owns the timers, the system-bus handles and the
//! channel; these machines own every decision. The outer loop checks a
//! shared cancellation flag once per cycle and otherwise runs one scan
//! cycle, publishes its result, sleeps a fixed interval and repeats. A
//! cycle walks the wireless devices in order and stops at the first one
//! whose scan yields a non-empty raw list; any step of a device failing
//! only means that device contributes nothing this cycle.

use vstd::prelude::*;

use crate::access_point::{AccessPoint, ApDescriptor, parsed_of};
use crate::ap_set::ApSet;
use crate::rank::dedup_rank;

verus! {

/// Seconds the scanner sleeps between cycles; a failed or empty cycle
/// waits the same fixed interval, by design without backoff.
pub const SCAN_INTERVAL_SECS: u64 = 5;

/// The outer loop has two states; `Stopped` is terminal.
pub enum ScannerPhase {
    Scanning,
    Stopped,
}

/// The phase after one cancellation check: an observed `true` stops the
/// loop for good, and a stopped loop never resumes.
pub open spec fn scanner_phase_after(p: ScannerPhase, cancel: bool) -> ScannerPhase {
    match p {
        ScannerPhase::Stopped => ScannerPhase::Stopped,
        ScannerPhase::Scanning => if cancel {
            ScannerPhase::Stopped
        } else {
            ScannerPhase::Scanning
        },
    }
}

/// Whether a cycle runs after one cancellation check.
pub open spec fn scanner_runs(p: ScannerPhase, cancel: bool) -> bool {
    p is Scanning && !cancel
}

/// The background loop's state between cycles.
pub struct Scanner {
    pub phase: ScannerPhase,
}

impl Scanner {
    /// A fresh scanner is about to run its first cycle.
    pub fn new() -> (s: Scanner)
        ensures
            s.phase is Scanning,
    {
        Scanner { phase: ScannerPhase::Scanning }
    }

    /// The once-per-cycle check of the shared cancellation flag; returns
    /// whether a scan cycle may run now.
    pub fn observe_cancel(&mut self, cancel: bool) -> (run: bool)
        ensures
            final(self).phase == scanner_phase_after(old(self).phase, cancel),
            run == scanner_runs(old(self).phase, cancel),
    {
        match self.phase {
            ScannerPhase::Stopped => false,
            ScannerPhase::Scanning => {
                if cancel {
                    self.phase = ScannerPhase::Stopped;
                    false
                } else {
                    true
                }
            },
        }
    }
}

/// Where one scan cycle stands.
pub enum CyclePhase {
    /// Connecting to the bus, building the manager proxy, listing devices.
    Setup,
    /// Ready to try the next device, if any.
    Devices,
    /// A scan was requested on the current device.
    AwaitScan,
    /// Waiting for the device's last-scan property to change.
    AwaitSignal,
    /// Reading the device's access-point list.
    Fetch,
    /// The cycle is over.
    Done,
}

/// What the surrounding task reports back to the cycle.
pub enum CycleEvent {
    /// Bus connection, manager proxy and device list are all ready.
    SetupOk,
    /// Connecting, proxy construction or device listing failed.
    SetupFailed,
    /// The next device supports wireless.
    NextWireless,
    /// The next device is not wireless.
    NextNotWireless,
    /// Device iteration is exhausted.
    NoMoreDevices,
    /// The scan request was accepted.
    ScanRequestOk,
    /// The scan request failed.
    ScanRequestFailed,
    /// The last-scan property changed, with its value if it could be read.
    LastScanChanged(Option<i64>),
    /// The property stream ended without a change.
    SignalClosed,
    /// The device's current raw descriptor list.
    Fetched(Vec<ApDescriptor>),
    /// Reading the list failed.
    FetchFailed,
}

/// What the surrounding task must do next.
pub enum CycleAction {
    /// Move on to the next device and report what it is.
    NextDevice,
    /// Ask the current device to scan.
    RequestScan,
    /// Subscribe to the last-scan property and wait for one change.
    AwaitChange,
    /// Retrieve the current access-point list of the device.
    Retrieve,
    /// Publish this set on the channel as an `ApList`; the cycle is over.
    Publish(ApSet),
    /// The cycle is over and nothing is published: the service itself was
    /// out of reach.
    Abort,
}

/// The last-scan sentinel: this value reports a failed scan and is treated
/// exactly like a retrieval error.
pub open spec fn last_scan_failed(t: Option<i64>) -> bool {
    t matches Some(v) && v == -1
}

/// Which events can answer which phase.
pub open spec fn event_fits(p: CyclePhase, ev: CycleEvent) -> bool {
    match p {
        CyclePhase::Setup => ev is SetupOk || ev is SetupFailed,
        CyclePhase::Devices => ev is NextWireless || ev is NextNotWireless
            || ev is NoMoreDevices,
        CyclePhase::AwaitScan => ev is ScanRequestOk || ev is ScanRequestFailed,
        CyclePhase::AwaitSignal => ev is LastScanChanged || ev is SignalClosed,
        CyclePhase::Fetch => ev is Fetched || ev is FetchFailed,
        CyclePhase::Done => false,
    }
}

/// The cycle's next phase for one event.
pub open spec fn cycle_phase_after(p: CyclePhase, ev: CycleEvent) -> CyclePhase {
    match ev {
        CycleEvent::SetupOk => CyclePhase::Devices,
        CycleEvent::SetupFailed => CyclePhase::Done,
        CycleEvent::NextWireless => CyclePhase::AwaitScan,
        CycleEvent::NextNotWireless => CyclePhase::Devices,
        CycleEvent::NoMoreDevices => CyclePhase::Done,
        CycleEvent::ScanRequestOk => CyclePhase::AwaitSignal,
        CycleEvent::ScanRequestFailed => CyclePhase::Devices,
        CycleEvent::LastScanChanged(t) => if last_scan_failed(t) {
            CyclePhase::Devices
        } else {
            CyclePhase::Fetch
        },
        CycleEvent::SignalClosed => CyclePhase::Devices,
        CycleEvent::Fetched(descs) => if descs@.len() == 0 {
            CyclePhase::Devices
        } else {
            CyclePhase::Done
        },
        CycleEvent::FetchFailed => CyclePhase::Devices,
    }
}

/// One scan cycle, driven by the surrounding task: it performs each
/// returned action against the network service and feeds the outcome back
/// as the next event.
pub struct ScanCycle {
    pub phase: CyclePhase,
}

impl ScanCycle {
    /// A fresh cycle begins with the service setup.
    pub fn new() -> (c: ScanCycle)
        ensures
            c.phase is Setup,
    {
        ScanCycle { phase: CyclePhase::Setup }
    }

    /// Advances the cycle by one reported outcome.
    ///
    /// Per-device failures — not wireless, scan rejected, the last-scan
    /// sentinel, a failed or empty retrieval — only skip to the next
    /// device. The first device with a non-empty raw list ends the cycle:
    /// its list is parsed, deduplicated and ranked, and published. A cycle
    /// that exhausts all devices publishes the empty set; only a cycle
    /// that could not reach the service at all publishes nothing.
    pub fn step(&mut self, ev: CycleEvent) -> (act: CycleAction)
        requires
            event_fits(old(self).phase, ev),
        ensures
            final(self).phase == cycle_phase_after(old(self).phase, ev),
            ev is SetupOk ==> act is NextDevice,
            ev is SetupFailed ==> act is Abort,
            ev is NextWireless ==> act is RequestScan,
            ev is NextNotWireless ==> act is NextDevice,
            ev is NoMoreDevices ==> (act matches CycleAction::Publish(s) && s.wf()
                && s.order().len() == 0),
            ev is ScanRequestOk ==> act is AwaitChange,
            ev is ScanRequestFailed ==> act is NextDevice,
            ev matches CycleEvent::LastScanChanged(t) ==> if last_scan_failed(t) {
                act is NextDevice
            } else {
                act is Retrieve
            },
            ev is SignalClosed ==> act is NextDevice,
            ev matches CycleEvent::Fetched(descs) ==> if descs@.len() == 0 {
                act is NextDevice
            } else {
                (act matches CycleAction::Publish(s) && s.wf() && s.order().len() == dedup_rank(
                    parsed_of(descs@),
                ).len() && forall|i: int|
                    0 <= i < s.order().len() ==> (#[trigger] s.order()[i]).0 == i as u64
                        && s.order()[i].1@ == dedup_rank(parsed_of(descs@))[i])
            },
            ev is FetchFailed ==> act is NextDevice,
    {
        match ev {
            CycleEvent::SetupOk => {
                self.phase = CyclePhase::Devices;
                CycleAction::NextDevice
            },
            CycleEvent::SetupFailed => {
                self.phase = CyclePhase::Done;
                CycleAction::Abort
            },
            CycleEvent::NextWireless => {
                self.phase = CyclePhase::AwaitScan;
                CycleAction::RequestScan
            },
            CycleEvent::NextNotWireless => {
                self.phase = CyclePhase::Devices;
                CycleAction::NextDevice
            },
            CycleEvent::NoMoreDevices => {
                self.phase = CyclePhase::Done;
                CycleAction::Publish(ApSet::new())
            },
            CycleEvent::ScanRequestOk => {
                self.phase = CyclePhase::AwaitSignal;
                CycleAction::AwaitChange
            },
            CycleEvent::ScanRequestFailed => {
                self.phase = CyclePhase::Devices;
                CycleAction::NextDevice
            },
            CycleEvent::LastScanChanged(t) => {
                match t {
                    Some(v) if v == -1 => {
                        self.phase = CyclePhase::Devices;
                        CycleAction::NextDevice
                    },
                    _ => {
                        self.phase = CyclePhase::Fetch;
                        CycleAction::Retrieve
                    },
                }
            },
            CycleEvent::SignalClosed => {
                self.phase = CyclePhase::Devices;
                CycleAction::NextDevice
            },
            CycleEvent::Fetched(descs) => {
                if descs.len() == 0 {
                    self.phase = CyclePhase::Devices;
                    CycleAction::NextDevice
                } else {
                    let found = AccessPoint::from_list(descs);
                    let published = ApSet::from_aps(found);
                    self.phase = CyclePhase::Done;
                    CycleAction::Publish(published)
                }
            },
            CycleEvent::FetchFailed => {
                self.phase = CyclePhase::Devices;
                CycleAction::NextDevice
            },
        }
    }
}

/// Law: once the consumer's `Quit` sets the cancellation flag, the next
/// scanner check observes it, no further cycle starts, and a stopped
/// scanner stays stopped whatever the flag later reads.
pub proof fn lemma_cancel_stops_scanning(p: ScannerPhase)
    ensures
        !scanner_runs(p, true),
        scanner_phase_after(p, true) is Stopped,
        forall|c: bool| !scanner_runs(ScannerPhase::Stopped, c),
        forall|c: bool| scanner_phase_after(ScannerPhase::Stopped, c) is Stopped,
{
}

} // verus!
