//! End-to-end tests of the discovery pipeline: parsing, the dedup/rank
//! transform, the keyed set, the reconciler and the scanner machines.

use wifi_discovery::access_point::{AccessPoint, ApDescriptor};
use wifi_discovery::ap_set::ApSet;
use wifi_discovery::events::NetworksEvent;
use wifi_discovery::reconciler::{Reconciler, SinkCommand};
use wifi_discovery::scanner::{
    CycleAction, CycleEvent, ScanCycle, Scanner, SCAN_INTERVAL_SECS,
};

fn desc(ssid: &str, strength: u8) -> ApDescriptor {
    ApDescriptor {
        ssid: Some(ssid.as_bytes().to_vec()),
        hw_address: Some(format!("00:11:22:33:44:{:02x}", strength)),
        strength: Some(strength),
        wpa_flags: Some(0),
    }
}

fn desc_with_hw(ssid: &str, strength: u8, hw: &str) -> ApDescriptor {
    ApDescriptor {
        ssid: Some(ssid.as_bytes().to_vec()),
        hw_address: Some(hw.to_string()),
        strength: Some(strength),
        wpa_flags: Some(7),
    }
}

#[test]
fn parse_complete_descriptor() {
    let ap = AccessPoint::new(desc_with_hw("Cafe", 73, "aa:bb:cc:dd:ee:ff")).unwrap();
    assert_eq!(ap.ssid, "Cafe");
    assert_eq!(ap.hw_address, "aa:bb:cc:dd:ee:ff");
    assert_eq!(ap.strength, 73);
    assert_eq!(ap.wpa_flags, 7);
}

#[test]
fn parse_drops_partial_descriptors() {
    let mut d = desc("Net", 10);
    d.strength = None;
    assert!(AccessPoint::new(d).is_none());
    let mut d = desc("Net", 10);
    d.ssid = None;
    assert!(AccessPoint::new(d).is_none());
    let mut d = desc("Net", 10);
    d.hw_address = None;
    assert!(AccessPoint::new(d).is_none());
    let mut d = desc("Net", 10);
    d.wpa_flags = None;
    assert!(AccessPoint::new(d).is_none());
}

#[test]
fn parse_decodes_invalid_utf8_lossily() {
    let d = ApDescriptor {
        ssid: Some(vec![0x4e, 0x65, 0x74, 0xff]),
        hw_address: Some("hw".to_string()),
        strength: Some(1),
        wpa_flags: Some(0),
    };
    let ap = AccessPoint::new(d).unwrap();
    assert_eq!(ap.ssid, "Net\u{FFFD}");
}

#[test]
fn transform_scenario_strongest_first_after_prepend() {
    // Inputs Net1@40, Net1@90, Net2@60: the transform output, prepended
    // entry by entry, must display as Net1 (90%), then Net2 (60%).
    let out = AccessPoint::from_list(vec![
        desc("Net1", 40),
        desc("Net1", 90),
        desc("Net2", 60),
    ]);
    assert_eq!(out.len(), 2);
    assert_eq!(out[0].ssid, "Net2");
    assert_eq!(out[0].strength, 60);
    assert_eq!(out[1].ssid, "Net1");
    assert_eq!(out[1].strength, 90);
    let mut display: Vec<&AccessPoint> = Vec::new();
    for ap in &out {
        display.insert(0, ap);
    }
    assert_eq!(display[0].ssid, "Net1");
    assert_eq!(display[0].strength, 90);
    assert_eq!(display[1].ssid, "Net2");
    assert_eq!(display[1].strength, 60);
}

#[test]
fn transform_yields_unique_ssids() {
    let out = AccessPoint::from_list(vec![
        desc("a", 10),
        desc("b", 20),
        desc("a", 30),
        desc("c", 20),
        desc("b", 20),
        desc("a", 5),
    ]);
    for i in 0..out.len() {
        for j in 0..out.len() {
            if i != j {
                assert_ne!(out[i].ssid, out[j].ssid);
            }
        }
    }
    assert_eq!(out.len(), 3);
}

#[test]
fn transform_keeps_strongest_per_ssid() {
    let input = vec![
        desc("a", 10),
        desc("b", 20),
        desc("a", 30),
        desc("c", 20),
        desc("b", 20),
        desc("a", 5),
    ];
    let parsed: Vec<AccessPoint> = input
        .iter()
        .map(|d| {
            AccessPoint::new(ApDescriptor {
                ssid: d.ssid.clone(),
                hw_address: d.hw_address.clone(),
                strength: d.strength,
                wpa_flags: d.wpa_flags,
            })
            .unwrap()
        })
        .collect();
    let out = AccessPoint::from_list(input);
    for x in &parsed {
        let kept = out.iter().find(|o| o.ssid == x.ssid).expect("ssid retained");
        assert!(kept.strength >= x.strength);
    }
}

#[test]
fn transform_tie_breaks_toward_earlier_entry() {
    let out = AccessPoint::from_list(vec![
        desc_with_hw("same", 50, "first"),
        desc_with_hw("same", 50, "second"),
    ]);
    assert_eq!(out.len(), 1);
    assert_eq!(out[0].hw_address, "first");
}

#[test]
fn transform_is_stable_across_distinct_ssids_of_equal_strength() {
    let out = AccessPoint::from_list(vec![
        desc("x", 50),
        desc("y", 50),
        desc("z", 50),
    ]);
    // Descending stable sort keeps source order; the reversal flips it.
    assert_eq!(out[0].ssid, "z");
    assert_eq!(out[1].ssid, "y");
    assert_eq!(out[2].ssid, "x");
}

#[test]
fn transform_idempotent_on_strongest_first_materialization() {
    let first = AccessPoint::from_list(vec![
        desc("a", 10),
        desc("b", 20),
        desc("a", 30),
        desc("c", 20),
    ]);
    // The strongest-first materialization is the reverse of the output.
    let materialized: Vec<ApDescriptor> = first
        .iter()
        .rev()
        .map(|ap| ApDescriptor {
            ssid: Some(ap.ssid.as_bytes().to_vec()),
            hw_address: Some(ap.hw_address.clone()),
            strength: Some(ap.strength),
            wpa_flags: Some(ap.wpa_flags),
        })
        .collect();
    let second = AccessPoint::from_list(materialized);
    assert_eq!(first.len(), second.len());
    for (a, b) in first.iter().zip(second.iter()) {
        assert_eq!(a.ssid, b.ssid);
        assert_eq!(a.hw_address, b.hw_address);
        assert_eq!(a.strength, b.strength);
        assert_eq!(a.wpa_flags, b.wpa_flags);
    }
}

#[test]
fn transform_of_empty_and_unparsable_input_is_empty() {
    assert!(AccessPoint::from_list(Vec::new()).is_empty());
    let mut d = desc("gone", 40);
    d.wpa_flags = None;
    assert!(AccessPoint::from_list(vec![d]).is_empty());
}

#[test]
fn ap_set_keys_follow_insertion_order() {
    let aps = AccessPoint::from_list(vec![desc("a", 10), desc("b", 20)]);
    let n = aps.len();
    let s = ApSet::from_aps(aps);
    assert_eq!(s.len(), n);
    for i in 0..n {
        let e = s.entry_at(i);
        assert_eq!(e.0, i as u64);
    }
}

#[test]
fn ap_set_get_hits_and_misses() {
    let aps = AccessPoint::from_list(vec![desc("a", 10), desc("b", 20)]);
    let s = ApSet::from_aps(aps);
    let first = s.get(0).expect("key 0 present");
    assert_eq!(first.ssid, "a");
    let second = s.get(1).expect("key 1 present");
    assert_eq!(second.ssid, "b");
    assert!(s.get(2).is_none());
    assert!(s.get(u64::MAX).is_none());
}

#[test]
fn ap_set_insert_issues_fresh_keys() {
    let mut s = ApSet::new();
    let a = AccessPoint::new(desc("a", 1)).unwrap();
    let b = AccessPoint::new(desc("b", 2)).unwrap();
    let ka = s.insert(a);
    let kb = s.insert(b);
    assert_ne!(ka, kb);
    assert_eq!(s.get(ka).unwrap().ssid, "a");
    assert_eq!(s.get(kb).unwrap().ssid, "b");
}

#[test]
fn reconciler_rebuild_lists_rows_in_prepend_order() {
    let mut rec = Reconciler::new();
    let aps = AccessPoint::from_list(vec![desc("Net1", 40), desc("Net2", 60)]);
    let s = ApSet::from_aps(aps);
    let cmd = rec.handle_event(NetworksEvent::ApList(s));
    match cmd {
        SinkCommand::Rebuild(rows) => {
            assert_eq!(rows.len(), 2);
            // Weakest first in prepend order; the display shows the last
            // prepended row on top.
            assert_eq!(rows[0].ssid, "Net1");
            assert_eq!(rows[0].key, 0);
            assert_eq!(rows[1].ssid, "Net2");
            assert_eq!(rows[1].key, 1);
        }
        _ => panic!("an ApList must trigger a full rebuild"),
    }
}

#[test]
fn reconciler_second_list_replaces_first_wholesale() {
    let mut rec = Reconciler::new();
    let a = ApSet::from_aps(AccessPoint::from_list(vec![
        desc("OldA", 10),
        desc("OldB", 20),
        desc("OldC", 30),
    ]));
    let b = ApSet::from_aps(AccessPoint::from_list(vec![desc("New", 50)]));
    rec.handle_event(NetworksEvent::ApList(a));
    let cmd = rec.handle_event(NetworksEvent::ApList(b));
    match cmd {
        SinkCommand::Rebuild(rows) => {
            assert_eq!(rows.len(), 1);
            assert_eq!(rows[0].ssid, "New");
        }
        _ => panic!("an ApList must trigger a full rebuild"),
    }
    // The authoritative set is exactly the second list: its key resolves
    // to its entry, and keys only present in the first list now miss.
    match rec.handle_event(NetworksEvent::ConfigureDevice(0)) {
        SinkCommand::ShowDetail(d) => assert_eq!(d.ssid, "New"),
        _ => panic!("a live key must surface a detail view"),
    }
    assert!(matches!(
        rec.handle_event(NetworksEvent::ConfigureDevice(1)),
        SinkCommand::Ignore
    ));
    assert!(matches!(
        rec.handle_event(NetworksEvent::ConfigureDevice(2)),
        SinkCommand::Ignore
    ));
}

#[test]
fn reconciler_shows_detail_for_live_key() {
    let mut rec = Reconciler::new();
    let s = ApSet::from_aps(AccessPoint::from_list(vec![desc_with_hw(
        "Home", 88, "de:ad:be:ef:00:01",
    )]));
    rec.handle_event(NetworksEvent::ApList(s));
    match rec.handle_event(NetworksEvent::ConfigureDevice(0)) {
        SinkCommand::ShowDetail(d) => {
            assert_eq!(d.ssid, "Home");
            assert_eq!(d.hw_address, "de:ad:be:ef:00:01");
            assert_eq!(d.strength, 88);
        }
        _ => panic!("a live key must surface a detail view"),
    }
}

#[test]
fn reconciler_ignores_stale_key_silently() {
    let mut rec = Reconciler::new();
    assert!(matches!(
        rec.handle_event(NetworksEvent::ConfigureDevice(42)),
        SinkCommand::Ignore
    ));
}

#[test]
fn reconciler_quit_stops_consumption() {
    let mut rec = Reconciler::new();
    assert!(matches!(
        rec.handle_event(NetworksEvent::Quit),
        SinkCommand::Stop
    ));
}

#[test]
fn quit_sets_flag_and_scanner_halts() {
    // The consumer processes Quit; the Stop command raises the shared
    // flag; the scanner's next check observes it and never runs again.
    let mut rec = Reconciler::new();
    let mut cancel = false;
    if matches!(rec.handle_event(NetworksEvent::Quit), SinkCommand::Stop) {
        cancel = true;
    }
    assert!(cancel);
    let mut sc = Scanner::new();
    assert!(!sc.observe_cancel(cancel));
    assert!(!sc.observe_cancel(false));
}

#[test]
fn scanner_runs_until_flag_set_between_cycles() {
    let mut sc = Scanner::new();
    // Cycle N runs with the flag clear.
    assert!(sc.observe_cancel(false));
    // The flag is raised externally between cycles: cycle N+1 never runs,
    // and the scanner stays stopped whatever the flag later reads.
    assert!(!sc.observe_cancel(true));
    assert!(!sc.observe_cancel(false));
    assert!(!sc.observe_cancel(true));
}

#[test]
fn scan_interval_is_five_seconds() {
    assert_eq!(SCAN_INTERVAL_SECS, 5);
}

#[test]
fn cycle_failed_device_does_not_drop_the_event() {
    // Device A fails at the scan request; device B succeeds with one
    // entry. The published list holds exactly B's entry.
    let mut cyc = ScanCycle::new();
    assert!(matches!(cyc.step(CycleEvent::SetupOk), CycleAction::NextDevice));
    assert!(matches!(
        cyc.step(CycleEvent::NextWireless),
        CycleAction::RequestScan
    ));
    assert!(matches!(
        cyc.step(CycleEvent::ScanRequestFailed),
        CycleAction::NextDevice
    ));
    assert!(matches!(
        cyc.step(CycleEvent::NextWireless),
        CycleAction::RequestScan
    ));
    assert!(matches!(
        cyc.step(CycleEvent::ScanRequestOk),
        CycleAction::AwaitChange
    ));
    assert!(matches!(
        cyc.step(CycleEvent::LastScanChanged(Some(123456))),
        CycleAction::Retrieve
    ));
    match cyc.step(CycleEvent::Fetched(vec![desc("OnlyB", 77)])) {
        CycleAction::Publish(s) => {
            assert_eq!(s.len(), 1);
            assert_eq!(s.entry_at(0).1.ssid, "OnlyB");
            assert_eq!(s.entry_at(0).1.strength, 77);
        }
        _ => panic!("a non-empty fetch must publish"),
    }
}

#[test]
fn cycle_sentinel_last_scan_skips_device() {
    let mut cyc = ScanCycle::new();
    cyc.step(CycleEvent::SetupOk);
    cyc.step(CycleEvent::NextWireless);
    cyc.step(CycleEvent::ScanRequestOk);
    assert!(matches!(
        cyc.step(CycleEvent::LastScanChanged(Some(-1))),
        CycleAction::NextDevice
    ));
}

#[test]
fn cycle_unreadable_last_scan_still_fetches() {
    let mut cyc = ScanCycle::new();
    cyc.step(CycleEvent::SetupOk);
    cyc.step(CycleEvent::NextWireless);
    cyc.step(CycleEvent::ScanRequestOk);
    assert!(matches!(
        cyc.step(CycleEvent::LastScanChanged(None)),
        CycleAction::Retrieve
    ));
}

#[test]
fn cycle_empty_fetch_moves_to_next_device() {
    let mut cyc = ScanCycle::new();
    cyc.step(CycleEvent::SetupOk);
    cyc.step(CycleEvent::NextWireless);
    cyc.step(CycleEvent::ScanRequestOk);
    cyc.step(CycleEvent::LastScanChanged(Some(9)));
    assert!(matches!(
        cyc.step(CycleEvent::Fetched(Vec::new())),
        CycleAction::NextDevice
    ));
}

#[test]
fn cycle_exhausted_devices_publish_empty_set() {
    let mut cyc = ScanCycle::new();
    cyc.step(CycleEvent::SetupOk);
    cyc.step(CycleEvent::NextNotWireless);
    match cyc.step(CycleEvent::NoMoreDevices) {
        CycleAction::Publish(s) => assert_eq!(s.len(), 0),
        _ => panic!("an exhausted cycle must publish the empty set"),
    }
}

#[test]
fn cycle_setup_failure_publishes_nothing() {
    let mut cyc = ScanCycle::new();
    assert!(matches!(cyc.step(CycleEvent::SetupFailed), CycleAction::Abort));
}

#[test]
fn cycle_first_nonempty_device_wins() {
    // The first device reports an empty list; the second one's entries
    // are published.
    let mut cyc = ScanCycle::new();
    cyc.step(CycleEvent::SetupOk);
    cyc.step(CycleEvent::NextWireless);
    cyc.step(CycleEvent::ScanRequestOk);
    cyc.step(CycleEvent::LastScanChanged(Some(1)));
    assert!(matches!(
        cyc.step(CycleEvent::Fetched(Vec::new())),
        CycleAction::NextDevice
    ));
    cyc.step(CycleEvent::NextWireless);
    cyc.step(CycleEvent::ScanRequestOk);
    cyc.step(CycleEvent::LastScanChanged(Some(2)));
    match cyc.step(CycleEvent::Fetched(vec![desc("Second", 31)])) {
        CycleAction::Publish(s) => {
            assert_eq!(s.len(), 1);
            assert_eq!(s.entry_at(0).1.ssid, "Second");
        }
        _ => panic!("a non-empty fetch must publish"),
    }
}
