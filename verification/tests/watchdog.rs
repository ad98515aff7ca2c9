use tesla_fan_control::watchdog::{
    ArmOutcome, FanFaultKind, FanHealth, Fault, FaultTracker, HardwareWatchdog, WatchdogError,
};

fn ids(s: &[&str]) -> Vec<String> {
    s.iter().map(|x| (*x).to_string()).collect()
}

#[test]
fn thermal_blind_declared_after_threshold_plus_one_failures() {
    // Threshold = 3, so the 4th consecutive failure declares the fault.
    let mut t = FaultTracker::new(&ids(&["g0"]), &[], 3, 3);
    assert_eq!(t.tick_gpu("g0", false), None); // counter = 1
    assert_eq!(t.tick_gpu("g0", false), None); // counter = 2
    assert_eq!(t.tick_gpu("g0", false), None); // counter = 3 (== threshold, not >)
    let fault = t.tick_gpu("g0", false); // counter = 4 (> threshold)
    assert_eq!(
        fault,
        Some(Fault::ThermalBlind {
            gpu_id: "g0".to_string()
        })
    );
    assert!(t.any_fault());
}

#[test]
fn ok_resets_gpu_counter_mid_failure() {
    let mut t = FaultTracker::new(&ids(&["g0"]), &[], 3, 3);
    t.tick_gpu("g0", false);
    t.tick_gpu("g0", false);
    t.tick_gpu("g0", true); // reset
                            // Now we should need 4 more failures to declare; verify by counting up.
    assert_eq!(t.tick_gpu("g0", false), None);
    assert_eq!(t.tick_gpu("g0", false), None);
    assert_eq!(t.tick_gpu("g0", false), None);
    assert!(t.tick_gpu("g0", false).is_some());
}

#[test]
fn fan_stalled_past_threshold_declares_fan_hardware() {
    let mut t = FaultTracker::new(&[], &ids(&["f0"]), 3, 3);
    for _ in 0..3 {
        assert_eq!(t.tick_fan("f0", FanHealth::Stalled, 0), None);
    }
    let fault = t.tick_fan("f0", FanHealth::Stalled, 0);
    assert_eq!(
        fault,
        Some(Fault::FanHardware {
            fan_id: "f0".to_string(),
            last_rpm: 0,
            kind: FanFaultKind::Stalled,
        })
    );
}

#[test]
fn fan_overspeed_declares_overspeed_variant() {
    let mut t = FaultTracker::new(&[], &ids(&["f0"]), 3, 1);
    assert_eq!(t.tick_fan("f0", FanHealth::Overspeed, 9999), None);
    let fault = t.tick_fan("f0", FanHealth::Overspeed, 9999);
    assert_eq!(
        fault,
        Some(Fault::FanHardware {
            fan_id: "f0".to_string(),
            last_rpm: 9999,
            kind: FanFaultKind::Overspeed,
        })
    );
}

#[test]
fn spinup_does_not_increment_fan_counter() {
    let mut t = FaultTracker::new(&[], &ids(&["f0"]), 3, 3);
    // Interleave Stalled with SpinUp; only 3 Stalleds — should not declare yet.
    t.tick_fan("f0", FanHealth::Stalled, 0);
    t.tick_fan("f0", FanHealth::SpinUp, 50);
    t.tick_fan("f0", FanHealth::Stalled, 0);
    t.tick_fan("f0", FanHealth::SpinUp, 50);
    assert_eq!(t.tick_fan("f0", FanHealth::Stalled, 0), None);
    // One more Stalled (counter = 4) declares fault.
    assert!(t.tick_fan("f0", FanHealth::Stalled, 0).is_some());
}

#[test]
fn ok_resets_fan_counter_after_stalled() {
    let mut t = FaultTracker::new(&[], &ids(&["f0"]), 3, 3);
    t.tick_fan("f0", FanHealth::Stalled, 0);
    t.tick_fan("f0", FanHealth::Stalled, 0);
    t.tick_fan("f0", FanHealth::Healthy, 1000); // reset
                                           // Need 4 more Stalleds now.
    assert_eq!(t.tick_fan("f0", FanHealth::Stalled, 0), None);
    assert_eq!(t.tick_fan("f0", FanHealth::Stalled, 0), None);
    assert_eq!(t.tick_fan("f0", FanHealth::Stalled, 0), None);
    assert!(t.tick_fan("f0", FanHealth::Stalled, 0).is_some());
}

#[test]
fn any_fault_latches_true_forever() {
    let mut t = FaultTracker::new(&ids(&["g0"]), &ids(&["f0"]), 1, 1);
    assert!(!t.any_fault());
    // Trip a fault.
    t.tick_gpu("g0", false);
    t.tick_gpu("g0", false);
    assert!(t.any_fault());
    // Subsequent successful reads must NOT clear it.
    t.tick_gpu("g0", true);
    t.tick_fan("f0", FanHealth::Healthy, 1500);
    assert!(t.any_fault());
}

#[test]
fn disabled_watchdog_feed_is_noop() {
    let mut wd = HardwareWatchdog::disabled();
    assert_eq!(wd.feed_byte(), None);
    assert!(wd.feed(Ok(())).is_ok());
}

#[test]
fn disabled_watchdog_disarm_is_noop() {
    let wd = HardwareWatchdog::disabled();
    assert_eq!(wd.disarm_byte(), None);
    assert!(wd.disarm_and_close(Ok(())).is_ok());
}

#[test]
fn disabled_watchdog_has_no_accepted_timeout() {
    let wd = HardwareWatchdog::disabled();
    assert_eq!(wd.accepted_timeout_s(), None);
}

#[test]
fn fault_is_declared_again_on_every_further_failure() {
    let mut t = FaultTracker::new(&ids(&["g0"]), &[], 0, 0);
    assert!(t.tick_gpu("g0", false).is_some());
    assert!(t.tick_gpu("g0", false).is_some());
    assert_eq!(t.tick_gpu("g0", true), None);
    assert!(t.tick_gpu("g0", false).is_some());
}

#[test]
fn counters_do_not_mix() {
    let mut t = FaultTracker::new(&ids(&["g0", "g1"]), &ids(&["g0"]), 1, 1);
    assert_eq!(t.tick_gpu("g0", false), None);
    assert_eq!(t.tick_gpu("g1", false), None);
    assert_eq!(t.tick_fan("g0", FanHealth::Stalled, 0), None);
    assert_eq!(t.tick_gpu("g1", true), None);
    assert!(!t.any_fault());
    assert!(t.tick_gpu("g0", false).is_some());
    assert_eq!(t.tick_gpu("g1", false), None);
}

#[test]
fn unknown_ids_start_at_zero() {
    let mut t = FaultTracker::new(&[], &[], 1, 1);
    assert_eq!(t.tick_gpu("new", false), None);
    assert!(t.tick_gpu("new", false).is_some());
    assert_eq!(t.tick_fan("fan", FanHealth::SpinUp, 0), None);
    assert_eq!(t.tick_fan("fan", FanHealth::Overspeed, 1), None);
    assert_eq!(
        t.tick_fan("fan", FanHealth::Stalled, 7),
        Some(Fault::FanHardware {
            fan_id: "fan".to_string(),
            last_rpm: 7,
            kind: FanFaultKind::Stalled,
        })
    );
}

#[test]
fn armed_watchdog_is_fed_and_disarmed() {
    let mut wd = HardwareWatchdog::open("/dev/watchdog", ArmOutcome::Armed(60)).ok().unwrap();
    assert_eq!(wd.accepted_timeout_s(), Some(60));
    assert_eq!(wd.feed_byte(), Some(0));
    assert_eq!(wd.feed(Ok(())), Ok(()));
    assert_eq!(
        wd.feed(Err("Broken pipe".to_string())),
        Err(WatchdogError::Feed("Broken pipe".to_string()))
    );
    assert_eq!(wd.disarm_byte(), Some(b'V'));
    assert_eq!(wd.disarm_and_close(Ok(())), Ok(()));
    let wd = HardwareWatchdog::open("/dev/watchdog", ArmOutcome::Armed(60)).ok().unwrap();
    assert_eq!(
        wd.disarm_and_close(Err("Broken pipe".to_string())),
        Err(WatchdogError::Disarm("Broken pipe".to_string()))
    );
}

#[test]
fn watchdog_that_cannot_be_armed_is_an_error() {
    assert_eq!(
        HardwareWatchdog::open("/dev/watchdog0", ArmOutcome::NotOpened("busy".to_string())).err(),
        Some(WatchdogError::Open {
            path: "/dev/watchdog0".to_string(),
            source: "busy".to_string(),
        })
    );
    assert_eq!(
        HardwareWatchdog::open("/dev/watchdog0", ArmOutcome::TimeoutRefused("EINVAL".to_string()))
            .err(),
        Some(WatchdogError::SetTimeout("EINVAL".to_string()))
    );
}

#[test]
fn timeouts_keep_their_bits() {
    for t in [0u32, 5, 600, 0x7fff_ffff, 0x8000_0000, u32::MAX] {
        let asked = HardwareWatchdog::requested_timeout(t);
        assert_eq!(asked, t as i32);
        let wd = HardwareWatchdog::open("/dev/watchdog", ArmOutcome::Armed(asked)).ok().unwrap();
        assert_eq!(wd.accepted_timeout_s(), Some(t));
    }
}

#[test]
fn disabled_watchdog_ignores_failures() {
    let mut wd = HardwareWatchdog::disabled();
    assert_eq!(wd.feed(Err("not there".to_string())), Ok(()));
    assert_eq!(wd.disarm_and_close(Err("not there".to_string())), Ok(()));
}

#[test]
fn watchdog_errors_have_messages() {
    let open = WatchdogError::Open {
        path: "/dev/watchdog".to_string(),
        source: "busy".to_string(),
    };
    assert_eq!(
        open.describe("\"/dev/watchdog\""),
        "failed to open watchdog device \"/dev/watchdog\": busy"
    );
    assert_eq!(
        WatchdogError::SetTimeout("EINVAL".to_string()).describe(""),
        "WDIOC_SETTIMEOUT failed: EINVAL"
    );
    assert_eq!(
        WatchdogError::Feed("gone".to_string()).describe(""),
        "failed to feed watchdog: gone"
    );
    assert_eq!(
        WatchdogError::Disarm("gone".to_string()).describe(""),
        "failed to disarm watchdog: gone"
    );
}
