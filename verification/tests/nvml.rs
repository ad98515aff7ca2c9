use std::collections::HashMap;
use tesla_fan_control::nvml::{
    check_bounds, FakeNvml, NvmlError, NvmlOps, NvmlReader, NvmlStart,
};
use tesla_fan_control::units::Celsius;

fn temps(pairs: &[(u32, i16)]) -> HashMap<u32, Celsius> {
    pairs.iter().map(|&(i, t)| (i, Celsius(t))).collect()
}

#[test]
fn fake_happy_path_returns_configured_temp() {
    let mut f = FakeNvml::new(temps(&[(0, 55), (1, 70)]));
    assert_eq!(f.read_temp(0).unwrap(), Celsius(55));
    assert_eq!(f.read_temp(1).unwrap(), Celsius(70));
}

#[test]
fn fake_out_of_bounds_low_zero_is_error() {
    // 0°C is out of bounds, not a cold GPU.
    let mut f = FakeNvml::new(temps(&[(0, 0)]));
    match f.read_temp(0).unwrap_err() {
        NvmlError::OutOfBounds { idx, temp } => {
            assert_eq!(idx, 0);
            assert_eq!(temp, 0);
        }
        other => panic!("expected OutOfBounds, got {other:?}"),
    }
}

#[test]
fn fake_out_of_bounds_low_just_below_floor_is_error() {
    // 4 < SANITY_MIN_C (5) → still rejected.
    let mut f = FakeNvml::new(temps(&[(0, 4)]));
    assert!(matches!(
        f.read_temp(0).unwrap_err(),
        NvmlError::OutOfBounds { temp: 4, .. }
    ));
}

#[test]
fn fake_floor_value_is_accepted() {
    let mut f = FakeNvml::new(temps(&[(0, 5)]));
    assert_eq!(f.read_temp(0).unwrap(), Celsius(5));
}

#[test]
fn fake_ceiling_value_is_accepted() {
    let mut f = FakeNvml::new(temps(&[(0, 110)]));
    assert_eq!(f.read_temp(0).unwrap(), Celsius(110));
}

#[test]
fn fake_out_of_bounds_high_is_error() {
    let mut f = FakeNvml::new(temps(&[(0, 120)]));
    match f.read_temp(0).unwrap_err() {
        NvmlError::OutOfBounds { idx, temp } => {
            assert_eq!(idx, 0);
            assert_eq!(temp, 120);
        }
        other => panic!("expected OutOfBounds, got {other:?}"),
    }
}

#[test]
fn fake_fail_after_returns_read_failed_after_n_reads() {
    let mut f = FakeNvml::with_fail_after(temps(&[(0, 55)]), 2);
    assert_eq!(f.read_temp(0).unwrap(), Celsius(55));
    assert_eq!(f.read_temp(0).unwrap(), Celsius(55));
    match f.read_temp(0).unwrap_err() {
        NvmlError::ReadFailed { idx, .. } => assert_eq!(idx, 0),
        other => panic!("expected ReadFailed, got {other:?}"),
    }
}

#[test]
fn fake_unknown_index_returns_read_failed() {
    let mut f = FakeNvml::new(temps(&[(0, 55)]));
    match f.read_temp(7).unwrap_err() {
        NvmlError::ReadFailed { idx, .. } => assert_eq!(idx, 7),
        other => panic!("expected ReadFailed, got {other:?}"),
    }
}

// Power limits: round trip and drift.

#[test]
fn fake_set_then_read_round_trip() {
    let mut f = FakeNvml::new(temps(&[(0, 55)])).with_power(0, 250, 125, 300);
    f.set_power_limit_w(0, 200).unwrap();
    assert_eq!(f.read_power_limit_w(0).unwrap(), 200);
}

#[test]
fn fake_constraints_returned_as_watts() {
    let mut f = FakeNvml::new(temps(&[(0, 55)])).with_power(0, 250, 125, 300);
    assert_eq!(f.power_limit_constraints_w(0).unwrap(), (125, 300));
}

#[test]
fn fake_external_drift_visible_to_next_read() {
    // Models `nvidia-smi -pl 350` happening between two daemon checks.
    let mut f = FakeNvml::new(temps(&[(0, 55)])).with_power(0, 250, 125, 400);
    assert_eq!(f.read_power_limit_w(0).unwrap(), 250);
    f.external_drift(0, 350);
    assert_eq!(f.read_power_limit_w(0).unwrap(), 350);
}

#[test]
fn fake_set_failure_propagates_set_failed_variant() {
    let mut f = FakeNvml::new(temps(&[(0, 55)])).with_power(0, 250, 125, 300);
    f.power_set_fails = true;
    match f.set_power_limit_w(0, 200).unwrap_err() {
        NvmlError::SetFailed { idx, .. } => assert_eq!(idx, 0),
        other => panic!("expected SetFailed, got {other:?}"),
    }
}

#[test]
fn fake_read_failure_propagates_read_failed_variant() {
    let mut f = FakeNvml::new(temps(&[(0, 55)])).with_power(0, 250, 125, 300);
    f.power_read_fails = true;
    match f.read_power_limit_w(0).unwrap_err() {
        NvmlError::ReadFailed { idx, .. } => assert_eq!(idx, 0),
        other => panic!("expected ReadFailed, got {other:?}"),
    }
}

#[test]
fn causes_say_what_is_missing() {
    let mut f = FakeNvml::with_fail_after(temps(&[(0, 55)]), 1);
    assert_eq!(
        f.read_temp(3),
        Err(NvmlError::ReadFailed {
            idx: 3,
            cause: "FakeNvml has no entry for index 3".to_string(),
        })
    );
    assert_eq!(
        f.read_temp(0),
        Err(NvmlError::ReadFailed {
            idx: 0,
            cause: "simulated failure after 1 successful reads".to_string(),
        })
    );
    assert_eq!(
        f.read_power_limit_w(0),
        Err(NvmlError::ReadFailed {
            idx: 0,
            cause: "FakeNvml has no power-limit entry for index 0".to_string(),
        })
    );
    assert_eq!(
        f.power_limit_constraints_w(0),
        Err(NvmlError::ReadFailed {
            idx: 0,
            cause: "FakeNvml has no constraints entry for index 0".to_string(),
        })
    );
}

fn reader() -> NvmlReader {
    NvmlReader::init(&[0, 2], NvmlStart::Devices(3)).ok().unwrap()
}

#[test]
fn start_needs_every_device() {
    assert_eq!(
        NvmlReader::init(&[0, 3, 9], NvmlStart::Devices(3)).err(),
        Some(NvmlError::IndexOutOfRange(3, 3))
    );
    assert_eq!(
        NvmlReader::init(&[0], NvmlStart::NotLoaded("no library".to_string())).err(),
        Some(NvmlError::Init("no library".to_string()))
    );
    assert_eq!(
        NvmlReader::init(&[0], NvmlStart::NotCounted("unknown".to_string())).err(),
        Some(NvmlError::Init("device_count: unknown".to_string()))
    );
    assert!(reader().is_registered(0));
    assert!(!reader().is_registered(1));
    assert!(reader().is_registered(2));
}

#[test]
fn only_registered_devices_are_read() {
    let r = reader();
    let cause = || "index 1 was not registered at init".to_string();
    assert_eq!(r.read_temp(1, Ok(50)), Err(NvmlError::ReadFailed { idx: 1, cause: cause() }));
    assert_eq!(
        r.read_power_limit_w(1, Ok(250_000)),
        Err(NvmlError::ReadFailed { idx: 1, cause: cause() })
    );
    assert_eq!(
        r.read_power_limit_default_w(1, Ok(250_000)),
        Err(NvmlError::ReadFailed { idx: 1, cause: cause() })
    );
    assert_eq!(
        r.power_limit_constraints_w(1, Ok((1, 2))),
        Err(NvmlError::ReadFailed { idx: 1, cause: cause() })
    );
    assert_eq!(
        r.set_power_limit_w(1, Ok(())),
        Err(NvmlError::SetFailed { idx: 1, cause: cause() })
    );
}

#[test]
fn readings_are_bounded() {
    let r = reader();
    assert_eq!(r.read_temp(2, Ok(50)), Ok(Celsius(50)));
    assert_eq!(r.read_temp(2, Ok(111)), Err(NvmlError::OutOfBounds { idx: 2, temp: 111 }));
    assert_eq!(r.read_temp(2, Ok(u32::MAX)), Err(NvmlError::OutOfBounds { idx: 2, temp: -1 }));
    assert_eq!(
        r.read_temp(2, Err("GPU is lost".to_string())),
        Err(NvmlError::ReadFailed { idx: 2, cause: "GPU is lost".to_string() })
    );
    assert_eq!(check_bounds(0, 5), Ok(Celsius(5)));
    assert_eq!(check_bounds(0, -1), Err(NvmlError::OutOfBounds { idx: 0, temp: -1 }));
}

#[test]
fn milliwatts_become_watts() {
    let r = reader();
    assert_eq!(r.read_power_limit_w(0, Ok(250_999)), Ok(250));
    assert_eq!(r.read_power_limit_default_w(0, Ok(300_000)), Ok(300));
    assert_eq!(r.power_limit_constraints_w(0, Ok((125_000, 300_999))), Ok((125, 300)));
    assert_eq!(r.set_power_limit_w(0, Ok(())), Ok(()));
    assert_eq!(
        r.set_power_limit_w(0, Err("No permission".to_string())),
        Err(NvmlError::SetFailed { idx: 0, cause: "No permission".to_string() })
    );
    for w in [0u32, 1, 260, 4_294_967, 4_294_968, u32::MAX] {
        assert_eq!(NvmlReader::requested_milliwatts(w), w.saturating_mul(1000));
    }
}

#[test]
fn errors_have_messages() {
    assert_eq!(
        NvmlError::Init("no driver".to_string()).describe(),
        "NVML init failed: no driver"
    );
    assert_eq!(
        NvmlError::IndexOutOfRange(7, 2).describe(),
        "GPU index 7 not present (device count = 2)"
    );
    assert_eq!(
        NvmlError::ReadFailed { idx: 0, cause: "lost".to_string() }.describe(),
        "NVML temperature read failed for index 0: lost"
    );
    assert_eq!(
        NvmlError::OutOfBounds { idx: 1, temp: -3 }.describe(),
        "GPU index 1: temperature -3°C is outside sanity bounds [5, 110]"
    );
    assert_eq!(
        NvmlError::SetFailed { idx: 12, cause: "denied".to_string() }.describe(),
        "NVML set_power_management_limit failed for index 12: denied"
    );
}
