//! The presentation reconciler.
//!
//! It consumes channel events, owns the authoritative set of visible
//! networks, and answers each event with one command for the presentation
//! sink. It never patches the display incrementally: every new list is a
//! full rebuild, entries handed over in prepend order.

use vstd::prelude::*;

use crate::access_point::AccessPoint;
use crate::ap_set::ApSet;
use crate::events::NetworksEvent;

verus! {

/// One display row: the sink is expected to prepend it and to route both
/// its "connect" and its "configure" interaction back onto the channel as
/// `ConfigureDevice(key)`.
pub struct SinkRow {
    pub key: u64,
    pub ssid: String,
}

/// Read-only snapshot for the detail view of one entry.
pub struct DetailView {
    pub ssid: String,
    pub hw_address: String,
    pub strength: u8,
}

/// What the presentation sink is asked to do in response to one event.
pub enum SinkCommand {
    /// Clear every displayed entry, then prepend these rows in order.
    Rebuild(Vec<SinkRow>),
    /// Show the detail view for one entry.
    ShowDetail(DetailView),
    /// Nothing to do: the event referred to an entry that is gone.
    Ignore,
    /// Set the cancellation flag and stop consuming events.
    Stop,
}

/// The authoritative set after one event: an `ApList` replaces it
/// wholesale, everything else leaves it alone.
pub open spec fn aps_after(cur: ApSet, ev: NetworksEvent) -> ApSet {
    match ev {
        NetworksEvent::ApList(s) => s,
        _ => cur,
    }
}

/// Whether the reconciler keeps consuming after one event: only `Quit`
/// stops it.
pub open spec fn running_after(cur: bool, ev: NetworksEvent) -> bool {
    cur && !(ev is Quit)
}

/// Builds the rows for a full rebuild, in the set's insertion order.
fn build_rows(s: &ApSet) -> (rows: Vec<SinkRow>)
    ensures
        rows@.len() == s.order().len(),
        forall|i: int|
            0 <= i < rows@.len() ==> (#[trigger] rows@[i]).key == s.order()[i].0 && rows@[i].ssid
                == s.order()[i].1.ssid,
{
    let n = s.len();
    let mut rows: Vec<SinkRow> = Vec::new();
    let mut i: usize = 0;
    while i < n
        invariant
            i <= n,
            n == s.order().len(),
            rows@.len() == i,
            forall|j: int|
                0 <= j < i ==> (#[trigger] rows@[j]).key == s.order()[j].0 && rows@[j].ssid
                    == s.order()[j].1.ssid,
        decreases n - i,
    {
        let e = s.entry_at(i);
        rows.push(SinkRow { key: e.0, ssid: e.1.ssid.clone() });
        i += 1;
    }
    rows
}

/// Consumes events and owns the authoritative set of visible networks.
pub struct Reconciler {
    aps: ApSet,
    running: bool,
}

impl Reconciler {
    /// The authoritative set.
    pub closed spec fn aps_view(self) -> ApSet {
        self.aps
    }

    /// Whether the reconciler is still consuming events.
    pub closed spec fn is_running(self) -> bool {
        self.running
    }

    /// Starts with an empty set, consuming.
    pub fn new() -> (r: Reconciler)
        ensures
            r.aps_view().wf(),
            r.aps_view().order() == Seq::<(u64, AccessPoint)>::empty(),
            r.is_running(),
    {
        Reconciler { aps: ApSet::new(), running: true }
    }

    /// Processes one channel event.
    ///
    /// An `ApList` replaces the authoritative set wholesale — never a merge
    /// — and asks the sink for a full rebuild. A `ConfigureDevice` whose
    /// key is still present surfaces that entry's snapshot; a stale key is
    /// silently ignored, since a newer scan may have superseded the set the
    /// key came from. `Quit` stops consumption; the caller must then raise
    /// the scanner's cancellation flag.
    pub fn handle_event(&mut self, ev: NetworksEvent) -> (cmd: SinkCommand)
        requires
            old(self).aps_view().wf(),
            ev matches NetworksEvent::ApList(s) ==> s.wf(),
        ensures
            final(self).aps_view() == aps_after(old(self).aps_view(), ev),
            final(self).is_running() == running_after(old(self).is_running(), ev),
            final(self).aps_view().wf(),
            ev matches NetworksEvent::ApList(s) ==> cmd matches SinkCommand::Rebuild(rows)
                && rows@.len() == s.order().len() && forall|i: int|
                0 <= i < rows@.len() ==> (#[trigger] rows@[i]).key == s.order()[i].0
                    && rows@[i].ssid == s.order()[i].1.ssid,
            ev matches NetworksEvent::ConfigureDevice(k) ==> {
                if old(self).aps_view().map_view().dom().contains(k) {
                    cmd matches SinkCommand::ShowDetail(d) && d.ssid
                        == old(self).aps_view().map_view()[k].ssid && d.hw_address
                        == old(self).aps_view().map_view()[k].hw_address && d.strength
                        == old(self).aps_view().map_view()[k].strength
                } else {
                    cmd is Ignore
                }
            },
            ev is Quit ==> cmd is Stop,
    {
        match ev {
            NetworksEvent::ApList(new_set) => {
                let rows = build_rows(&new_set);
                self.aps = new_set;
                SinkCommand::Rebuild(rows)
            },
            NetworksEvent::ConfigureDevice(key) => match self.aps.get(key) {
                Some(ap) => SinkCommand::ShowDetail(
                    DetailView {
                        ssid: ap.ssid.clone(),
                        hw_address: ap.hw_address.clone(),
                        strength: ap.strength,
                    },
                ),
                None => SinkCommand::Ignore,
            },
            NetworksEvent::Quit => {
                self.running = false;
                SinkCommand::Stop
            },
        }
    }
}

/// Law: after `ApList(a)` and then `ApList(b)`, the authoritative set is
/// exactly `b`; nothing of `a` or of the set before it survives.
pub proof fn lemma_aplist_replaces_wholesale(cur: ApSet, a: ApSet, b: ApSet)
    ensures
        aps_after(aps_after(cur, NetworksEvent::ApList(a)), NetworksEvent::ApList(b)) == b,
{
}

/// Law: an event for a key that is not in the authoritative set changes
/// nothing and keeps the reconciler consuming.
pub proof fn lemma_stale_key_is_ignored(cur: ApSet, run: bool, k: u64)
    ensures
        aps_after(cur, NetworksEvent::ConfigureDevice(k)) == cur,
        running_after(run, NetworksEvent::ConfigureDevice(k)) == run,
{
}

} // verus!
