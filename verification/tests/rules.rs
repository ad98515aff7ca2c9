use tesla_fan_control::config::{parse, validate, Config, ValidationError};
use tesla_fan_control::curve::Curve;
use tesla_fan_control::units::{Celsius, Pct};

fn two_of_each() -> Config {
    let text = "\
[global]
config_version = 1
poll_interval_ms = 1000
log_level = info

[watchdog]
enabled = true
device = /dev/watchdog
timeout_s = 30
gpu_fail_threshold = 3

[gpu:a]
nvml_index = 0
curve = 40:20, 80:100
min_fan_pct = 20
max_fan_pct = 100

[gpu:b]
nvml_index = 1
curve = 40:20, 80:100
min_fan_pct = 20
max_fan_pct = 100

[fan:x]
chip = nct6798
device_path = /sys/devices/platform/p
pwm_channel = 1
min_rpm = 200
max_rpm = 3000
fan_fail_threshold = 3
spin_up_grace_s = 10

[fan:y]
chip = nct6798
device_path = /sys/devices/platform/p
pwm_channel = 2
min_rpm = 200
max_rpm = 3000
fan_fail_threshold = 3
spin_up_grace_s = 10

[group:one]
gpus = a
fans = x

[group:two]
gpus = b
fans = y
";
    let (cfg, warnings) = parse(text).unwrap();
    assert_eq!(warnings, vec![]);
    assert_eq!(validate(&cfg), Ok(()));
    cfg
}

fn err(
    rule: &'static str,
    section: Option<&str>,
    key: Option<&str>,
    message: &str,
) -> ValidationError {
    ValidationError {
        rule,
        section: section.map(str::to_string),
        key: key.map(str::to_string),
        message: message.to_string(),
    }
}

fn only(cfg: &Config, expected: ValidationError) {
    assert_eq!(validate(cfg), Err(vec![expected]));
}

#[test]
fn empty_config_reports_presence_first() {
    let mut cfg = two_of_each();
    cfg.gpus.clear();
    cfg.fans.clear();
    cfg.groups.clear();
    assert_eq!(
        validate(&cfg),
        Err(vec![
            err("S1", None, None, "at least one [gpu:*] block required"),
            err("S2", None, None, "at least one [fan:*] block required"),
            err("S3", None, None, "at least one [group:*] block required"),
        ])
    );
}

#[test]
fn references_are_counted_over_all_groups() {
    let mut cfg = two_of_each();
    cfg.groups[0].gpus = vec!["a".to_string(), "b".to_string(), "b".to_string()];
    cfg.groups[1].fans = vec!["y".to_string(), "x".to_string()];
    assert_eq!(
        validate(&cfg),
        Err(vec![
            err("S4", Some("gpu:b"), None, "GPU 'b' referenced by 2 group(s); must be exactly 1"),
            err("S5", Some("fan:x"), None, "fan 'x' referenced by 2 group(s); must be exactly 1"),
        ])
    );
}

#[test]
fn member_named_twice_in_one_group_belongs_to_one_group() {
    let mut cfg = two_of_each();
    cfg.groups[0].gpus.push("a".to_string());
    cfg.groups[1].fans.push("y".to_string());
    assert_eq!(validate(&cfg), Ok(()));
}

#[test]
fn member_of_no_group_is_reported() {
    let mut cfg = two_of_each();
    cfg.groups[0].gpus = vec!["b".to_string()];
    cfg.groups[1].gpus = vec!["b".to_string()];
    assert_eq!(
        validate(&cfg),
        Err(vec![
            err("S4", Some("gpu:a"), None, "GPU 'a' referenced by 0 group(s); must be exactly 1"),
            err("S4", Some("gpu:b"), None, "GPU 'b' referenced by 2 group(s); must be exactly 1"),
        ])
    );
}

#[test]
fn unknown_members_are_named() {
    let mut cfg = two_of_each();
    cfg.groups[1].gpus.push("c".to_string());
    cfg.groups[1].fans.push("z".to_string());
    assert_eq!(
        validate(&cfg),
        Err(vec![
            err("S7", Some("group:two"), Some("gpus"), "group references unknown gpu id 'c'"),
            err("S7", Some("group:two"), Some("fans"), "group references unknown fan id 'z'"),
        ])
    );
}

#[test]
fn empty_group_is_reported() {
    let mut cfg = two_of_each();
    let mut third = cfg.groups[0].clone();
    third.id = "three".to_string();
    third.gpus.clear();
    third.fans.clear();
    cfg.groups.push(third);
    only(
        &cfg,
        err(
            "S6",
            Some("group:three"),
            None,
            "group must reference at least one GPU and at least one fan",
        ),
    );
}

#[test]
fn nearest_earlier_gpu_is_named() {
    let mut cfg = two_of_each();
    let mut c = cfg.gpus[1].clone();
    c.id = "c".to_string();
    c.nvml_index = 0;
    cfg.gpus.push(c);
    cfg.gpus[1].nvml_index = 0;
    cfg.groups[1].gpus.push("c".to_string());
    assert_eq!(
        validate(&cfg),
        Err(vec![
            err(
                "S8",
                Some("gpu:b"),
                Some("nvml_index"),
                "nvml_index 0 duplicated (also used by gpu:a)",
            ),
            err(
                "S8",
                Some("gpu:c"),
                Some("nvml_index"),
                "nvml_index 0 duplicated (also used by gpu:b)",
            ),
        ])
    );
}

#[test]
fn outputs_are_compared_by_path_components() {
    let mut cfg = two_of_each();
    cfg.fans[1].pwm_channel = 1;
    cfg.fans[1].device_path = Some("/sys//devices/./platform/p/".to_string());
    only(
        &cfg,
        err(
            "S9",
            Some("fan:y"),
            None,
            "(chip, device_path, pwm_channel) tuple duplicated (also used by fan:x)",
        ),
    );
    cfg.fans[1].device_path = Some("/sys/devices/platform/q".to_string());
    assert_eq!(validate(&cfg), Ok(()));
    cfg.fans[1].device_path = None;
    assert_eq!(validate(&cfg), Ok(()));
}

#[test]
fn curve_points_are_checked_one_by_one() {
    let mut cfg = two_of_each();
    cfg.gpus[0].curve =
        Curve::new(vec![(Celsius(-1), Pct(20)), (Celsius(80), Pct(100)), (Celsius(111), Pct(101))])
            .unwrap();
    assert_eq!(
        validate(&cfg),
        Err(vec![
            err("G5", Some("gpu:a"), Some("curve"), "curve temp -1 outside [0, 110] °C"),
            err("G5", Some("gpu:a"), Some("curve"), "curve temp 111 outside [0, 110] °C"),
            err("G6", Some("gpu:a"), Some("curve"), "curve pct 101 outside [0, 100]"),
        ])
    );
    cfg.gpus[0].curve = Curve::new(vec![(Celsius(0), Pct(0)), (Celsius(110), Pct(100))]).unwrap();
    assert_eq!(validate(&cfg), Ok(()));
}

#[test]
fn bands_are_checked() {
    let mut cfg = two_of_each();
    cfg.gpus[1].min_fan_pct = Pct(102);
    cfg.gpus[1].max_fan_pct = Pct(101);
    assert_eq!(
        validate(&cfg),
        Err(vec![
            err("G7", Some("gpu:b"), None, "min_fan_pct (102) > max_fan_pct (101)"),
            err("G8", Some("gpu:b"), Some("min_fan_pct"), "min_fan_pct 102 outside [0, 100]"),
            err("G8", Some("gpu:b"), Some("max_fan_pct"), "max_fan_pct 101 outside [0, 100]"),
        ])
    );
}

#[test]
fn fans_are_checked() {
    let mut cfg = two_of_each();
    cfg.fans[0].max_rpm = 200;
    cfg.fans[0].fan_fail_threshold = 0;
    cfg.fans[0].pwm_channel = 0;
    cfg.fans[0].chip = None;
    cfg.fans[0].device_path = None;
    assert_eq!(
        validate(&cfg),
        Err(vec![
            err("F1", Some("fan:x"), None, "max_rpm (200) must be > min_rpm (200)"),
            err(
                "F2",
                Some("fan:x"),
                Some("fan_fail_threshold"),
                "fan_fail_threshold must be ≥ 1",
            ),
            err("F4", Some("fan:x"), Some("pwm_channel"), "pwm_channel must be ≥ 1"),
            err(
                "F5",
                Some("fan:x"),
                None,
                "at least one of chip / device_path / hwmon_path must be set",
            ),
        ])
    );
    cfg.fans[0].max_rpm = 201;
    cfg.fans[0].fan_fail_threshold = 1;
    cfg.fans[0].pwm_channel = 1;
    cfg.fans[0].hwmon_path = Some("/sys/class/hwmon/hwmon1".to_string());
    assert_eq!(validate(&cfg), Ok(()));
}

#[test]
fn watchdog_is_checked() {
    let mut cfg = two_of_each();
    cfg.watchdog.device = String::new();
    cfg.watchdog.timeout_s = 601;
    cfg.watchdog.gpu_fail_threshold = 0;
    assert_eq!(
        validate(&cfg),
        Err(vec![
            err(
                "W1",
                Some("watchdog"),
                Some("device"),
                "watchdog device path must be non-empty",
            ),
            err("W2", Some("watchdog"), Some("timeout_s"), "timeout_s 601 outside [5, 600]"),
            err(
                "W3",
                Some("watchdog"),
                Some("gpu_fail_threshold"),
                "gpu_fail_threshold must be ≥ 1",
            ),
        ])
    );
}

#[test]
fn global_settings_are_checked() {
    let mut cfg = two_of_each();
    cfg.global.poll_interval_ms = 10_001;
    cfg.global.config_version = 2;
    assert_eq!(
        validate(&cfg),
        Err(vec![
            err(
                "W4",
                Some("global"),
                Some("poll_interval_ms"),
                "poll_interval_ms 10001 outside [100, 10000]",
            ),
            err(
                "W5",
                None,
                None,
                "poll_interval_ms × max(thresholds) (30003) must be < timeout_s × 500 (15000) — leave headroom for fault propagation",
            ),
            err(
                "W7",
                Some("global"),
                Some("config_version"),
                "unsupported config_version 2 (this daemon recognises 1)",
            ),
        ])
    );
}

#[test]
fn headroom_ends_exactly_at_half_the_timeout() {
    let mut cfg = two_of_each();
    // 1000 ms × 14 = 14000 < 15000, but 1000 ms × 15 is not.
    cfg.fans[1].fan_fail_threshold = 14;
    assert_eq!(validate(&cfg), Ok(()));
    cfg.fans[1].fan_fail_threshold = 15;
    assert!(validate(&cfg).is_err());
    cfg.fans[1].fan_fail_threshold = 3;
    cfg.watchdog.gpu_fail_threshold = 15;
    only(
        &cfg,
        err(
            "W5",
            None,
            None,
            "poll_interval_ms × max(thresholds) (15000) must be < timeout_s × 500 (15000) — leave headroom for fault propagation",
        ),
    );
    // The product is formed without overflow.
    cfg.global.poll_interval_ms = u32::MAX;
    cfg.watchdog.gpu_fail_threshold = u32::MAX;
    let errs = validate(&cfg).unwrap_err();
    assert!(errs.iter().any(|e| e.rule == "W5" && e.message.contains("18446744065119617025")));
}

#[test]
fn limits_are_inclusive() {
    let mut cfg = two_of_each();
    cfg.watchdog.timeout_s = 5;
    cfg.global.poll_interval_ms = 100;
    assert_eq!(validate(&cfg), Ok(()));
    cfg.watchdog.timeout_s = 600;
    cfg.global.poll_interval_ms = 10_000;
    assert_eq!(validate(&cfg), Ok(()));
}

#[test]
fn enabled_power_limit_must_be_given() {
    let mut cfg = two_of_each();
    cfg.gpus[1].power_limit_enabled = true;
    only(
        &cfg,
        err(
            "P1",
            Some("gpu:b"),
            Some("power_limit_w"),
            "power_limit_enabled is true but power_limit_w is not set",
        ),
    );
    cfg.gpus[1].power_limit_w = Some(260);
    assert_eq!(validate(&cfg), Ok(()));
}

#[test]
fn power_limit_is_bounded() {
    let mut cfg = two_of_each();
    cfg.gpus[0].power_limit_enabled = true;
    cfg.gpus[0].power_limit_w = Some(1000);
    assert_eq!(validate(&cfg), Ok(()));
    cfg.gpus[0].power_limit_w = Some(1001);
    only(
        &cfg,
        err(
            "P2",
            Some("gpu:a"),
            Some("power_limit_w"),
            "power_limit_w 1001 above power_limit_validate_max_w (1000)",
        ),
    );
    cfg.global.power_limit_validate_max_w = 1001;
    assert_eq!(validate(&cfg), Ok(()));
    // A limit that is not enforced is checked too.
    cfg.gpus[0].power_limit_enabled = false;
    cfg.gpus[0].power_limit_w = Some(1002);
    assert!(validate(&cfg).is_err());
}

#[test]
fn power_violations_stand_at_the_end() {
    let mut cfg = two_of_each();
    cfg.gpus[0].power_limit_enabled = true;
    cfg.gpus[1].power_limit_w = Some(5000);
    cfg.global.config_version = 2;
    let codes: Vec<&str> = validate(&cfg).unwrap_err().iter().map(|e| e.rule).collect();
    assert_eq!(codes, vec!["W7", "P1", "P2"]);
}
