use tesla_fan_control::config::{parse, validate, Config, ConfigError, ValidationError};
use tesla_fan_control::curve::{Curve, CurveError};
use tesla_fan_control::units::{Celsius, Pct};

/// Minimal canonical config — passes every validation rule.
fn canonical() -> &'static str {
    r#"
[global]
config_version   = 1
poll_interval_ms = 1000
log_level        = info
log_file         =

[watchdog]
enabled             = true
device              = /dev/watchdog
timeout_s           = 30
gpu_fail_threshold  = 3

[gpu:0]
nvml_index   = 0
curve        = 40:20, 55:40, 70:80, 80:100
min_fan_pct  = 20
max_fan_pct  = 100

[gpu:1]
nvml_index   = 1
curve        = 40:20, 55:40, 70:80, 80:100
min_fan_pct  = 20
max_fan_pct  = 100

[gpu:2]
nvml_index   = 2
curve        = 40:20, 55:40, 70:80, 80:100
min_fan_pct  = 20
max_fan_pct  = 100

[fan:f0]
chip                = nct6798
pwm_channel         = 1
min_rpm             = 200
max_rpm             = 3000
fan_fail_threshold  = 3
spin_up_grace_s     = 10

[fan:f1]
chip                = nct6798
pwm_channel         = 2
min_rpm             = 200
max_rpm             = 3000
fan_fail_threshold  = 3
spin_up_grace_s     = 10

[group:main]
gpus = 0
fans = f0

[group:shared]
gpus = 1, 2
fans = f1
"#
}

fn parse_ok(s: &str) -> Config {
    let (cfg, _w) = parse(s).expect("parse ok");
    cfg
}

fn validation_errors(cfg: &Config) -> Vec<ValidationError> {
    match validate(cfg) {
        Ok(()) => vec![],
        Err(e) => e,
    }
}

fn rules_in(errs: &[ValidationError]) -> Vec<&'static str> {
    errs.iter().map(|e| e.rule).collect()
}

#[test]
fn happy_path_canonical_config() {
    let (cfg, warnings) = parse(canonical()).unwrap();
    assert!(warnings.is_empty(), "warnings: {warnings:?}");
    assert_eq!(validate(&cfg), Ok(()));
    assert_eq!(cfg.gpus.len(), 3);
    assert_eq!(cfg.fans.len(), 2);
    assert_eq!(cfg.groups.len(), 2);
}

// T1 — unknown section header (capitalised variant)
#[test]
fn t1_unknown_section_capitalised() {
    let s = canonical().replace("[gpu:0]", "[GPU:0]");
    let err = parse(&s).unwrap_err();
    assert!(
        matches!(err, ConfigError::UnknownSection(ref n) if n == "GPU:0"),
        "got {err:?}"
    );
}

// T2 — unknown key within known section is a warning (not fatal)
#[test]
fn t2_unknown_key_is_warning() {
    let s = canonical().replace("min_fan_pct  = 20", "min_fan_pct  = 20\nflubber = ok");
    let (_cfg, warnings) = parse(&s).unwrap();
    assert!(
        warnings.iter().any(|w| w.key == "flubber"),
        "warnings: {warnings:?}"
    );
}

// S1
#[test]
fn s1_no_gpu_blocks() {
    let s = canonical()
        .replace("[gpu:0]", "[__hidden_gpu0__]")
        .replace("[gpu:1]", "[__hidden_gpu1__]")
        .replace("[gpu:2]", "[__hidden_gpu2__]");
    // Now those would be unknown sections (T1) — instead build directly.
    let mut cfg = parse_ok(canonical());
    cfg.gpus.clear();
    let _ = s; // unused here
    let errs = validation_errors(&cfg);
    assert!(rules_in(&errs).contains(&"S1"));
}

// S2
#[test]
fn s2_no_fan_blocks() {
    let mut cfg = parse_ok(canonical());
    cfg.fans.clear();
    let errs = validation_errors(&cfg);
    assert!(rules_in(&errs).contains(&"S2"));
}

// S3
#[test]
fn s3_no_group_blocks() {
    let mut cfg = parse_ok(canonical());
    cfg.groups.clear();
    let errs = validation_errors(&cfg);
    assert!(rules_in(&errs).contains(&"S3"));
}

// S4 — orphan GPU
#[test]
fn s4_orphan_gpu_not_referenced() {
    let mut cfg = parse_ok(canonical());
    cfg.groups.retain(|g| g.id != "shared");
    let errs = validation_errors(&cfg);
    assert!(rules_in(&errs).contains(&"S4"));
}

// S5 — orphan fan
#[test]
fn s5_orphan_fan_not_referenced() {
    let mut cfg = parse_ok(canonical());
    for g in &mut cfg.groups {
        g.fans.retain(|f| f != "f1");
    }
    let errs = validation_errors(&cfg);
    assert!(rules_in(&errs).contains(&"S5"));
}

// S6 — empty group
#[test]
fn s6_group_missing_fans() {
    let mut cfg = parse_ok(canonical());
    for g in &mut cfg.groups {
        g.fans.clear();
    }
    let errs = validation_errors(&cfg);
    assert!(rules_in(&errs).contains(&"S6"));
}

// S7 — dangling reference
#[test]
fn s7_group_references_unknown_id() {
    let mut cfg = parse_ok(canonical());
    cfg.groups[0].fans.push("does_not_exist".into());
    // Also bump f0 reference count to keep S5 happy for the remaining fan.
    let errs = validation_errors(&cfg);
    assert!(rules_in(&errs).contains(&"S7"));
}

// S8 — duplicate nvml_index
#[test]
fn s8_duplicate_nvml_index() {
    let mut cfg = parse_ok(canonical());
    cfg.gpus[1].nvml_index = cfg.gpus[0].nvml_index;
    let errs = validation_errors(&cfg);
    assert!(rules_in(&errs).contains(&"S8"));
}

// S9 — duplicate fan tuple
#[test]
fn s9_duplicate_fan_tuple() {
    let mut cfg = parse_ok(canonical());
    cfg.fans[1].pwm_channel = cfg.fans[0].pwm_channel;
    cfg.fans[1].chip = cfg.fans[0].chip.clone();
    cfg.fans[1].device_path = cfg.fans[0].device_path.clone();
    let errs = validation_errors(&cfg);
    assert!(rules_in(&errs).contains(&"S9"));
}

// G1 — too few curve points (constructor enforces, surfaced via validate too)
#[test]
fn g1_curve_too_few_points_caught_at_parse() {
    let s = canonical().replace(
        "curve        = 40:20, 55:40, 70:80, 80:100",
        "curve        = 40:20",
    );
    // First occurrence only — leave the other GPUs valid so other rules don't fire.
    let err = parse(&s).unwrap_err();
    match err {
        ConfigError::Curve { source, .. } => {
            assert!(matches!(source, CurveError::TooFewPoints(_)));
        }
        other => panic!("expected Curve error, got {other:?}"),
    }
}

// G2 — temps not ascending
#[test]
fn g2_temps_not_ascending() {
    let s = canonical().replacen(
        "curve        = 40:20, 55:40, 70:80, 80:100",
        "curve        = 70:80, 40:20, 55:40, 80:100",
        1,
    );
    let err = parse(&s).unwrap_err();
    match err {
        ConfigError::Curve { source, .. } => {
            assert!(matches!(source, CurveError::NotMonotonicTemp { .. }));
        }
        _ => panic!("expected Curve error"),
    }
}

// G3 — duplicate temps
#[test]
fn g3_duplicate_temps() {
    let s = canonical().replacen(
        "curve        = 40:20, 55:40, 70:80, 80:100",
        "curve        = 40:20, 40:40, 70:80, 80:100",
        1,
    );
    let err = parse(&s).unwrap_err();
    assert!(matches!(
        err,
        ConfigError::Curve {
            source: CurveError::DuplicateTemp(_),
            ..
        }
    ));
}

// G4 — pct decreasing
#[test]
fn g4_pct_decreasing() {
    let s = canonical().replacen(
        "curve        = 40:20, 55:40, 70:80, 80:100",
        "curve        = 40:80, 55:40, 70:50, 80:100",
        1,
    );
    let err = parse(&s).unwrap_err();
    assert!(matches!(
        err,
        ConfigError::Curve {
            source: CurveError::NotMonotonicPct { .. },
            ..
        }
    ));
}

// G5 — temp out of range
#[test]
fn g5_temp_out_of_range() {
    // 120 > 110 — accepted by Curve::new (range is config concern), caught here.
    let mut cfg = parse_ok(canonical());
    cfg.gpus[0].curve =
        Curve::new(vec![(Celsius(40), Pct(20)), (Celsius(120), Pct(100))]).unwrap();
    let errs = validation_errors(&cfg);
    assert!(rules_in(&errs).contains(&"G5"));
}

// G6 — pct out of range (constructed directly to bypass parse cap)
#[test]
fn g6_pct_out_of_range() {
    let mut cfg = parse_ok(canonical());
    cfg.gpus[0].curve =
        Curve::new(vec![(Celsius(40), Pct(20)), (Celsius(80), Pct(200))]).unwrap();
    let errs = validation_errors(&cfg);
    assert!(rules_in(&errs).contains(&"G6"));
}

// G7 — min > max
#[test]
fn g7_min_greater_than_max() {
    let mut cfg = parse_ok(canonical());
    cfg.gpus[0].min_fan_pct = Pct(80);
    cfg.gpus[0].max_fan_pct = Pct(50);
    let errs = validation_errors(&cfg);
    assert!(rules_in(&errs).contains(&"G7"));
}

// G8 — out of [0,100]
#[test]
fn g8_pct_out_of_range() {
    let mut cfg = parse_ok(canonical());
    cfg.gpus[0].min_fan_pct = Pct(200);
    let errs = validation_errors(&cfg);
    assert!(rules_in(&errs).contains(&"G8"));
}

// F1
#[test]
fn f1_max_rpm_not_greater_than_min() {
    let mut cfg = parse_ok(canonical());
    cfg.fans[0].max_rpm = cfg.fans[0].min_rpm;
    let errs = validation_errors(&cfg);
    assert!(rules_in(&errs).contains(&"F1"));
}

// F2
#[test]
fn f2_fan_fail_threshold_zero() {
    let mut cfg = parse_ok(canonical());
    cfg.fans[0].fan_fail_threshold = 0;
    let errs = validation_errors(&cfg);
    assert!(rules_in(&errs).contains(&"F2"));
}

// F3 — spin_up_grace_s ≥ 0 is definitional via u32; test absence of error on 0.
#[test]
fn f3_spin_up_grace_zero_is_ok() {
    let mut cfg = parse_ok(canonical());
    cfg.fans[0].spin_up_grace_s = 0;
    // No grace time at all is a valid choice.
    let errs = validation_errors(&cfg);
    assert!(!rules_in(&errs).contains(&"F3"));
}

// F4
#[test]
fn f4_pwm_channel_zero() {
    let mut cfg = parse_ok(canonical());
    cfg.fans[0].pwm_channel = 0;
    let errs = validation_errors(&cfg);
    assert!(rules_in(&errs).contains(&"F4"));
}

// F5
#[test]
fn f5_no_chip_or_path() {
    let mut cfg = parse_ok(canonical());
    cfg.fans[0].chip = None;
    cfg.fans[0].device_path = None;
    cfg.fans[0].hwmon_path = None;
    let errs = validation_errors(&cfg);
    assert!(rules_in(&errs).contains(&"F5"));
}

// W1
#[test]
fn w1_empty_watchdog_device() {
    let mut cfg = parse_ok(canonical());
    cfg.watchdog.device = String::new();
    let errs = validation_errors(&cfg);
    assert!(rules_in(&errs).contains(&"W1"));
}

// W2
#[test]
fn w2_timeout_out_of_range() {
    let mut cfg = parse_ok(canonical());
    cfg.watchdog.timeout_s = 1000;
    let errs = validation_errors(&cfg);
    assert!(rules_in(&errs).contains(&"W2"));
}

// W3
#[test]
fn w3_gpu_fail_threshold_zero() {
    let mut cfg = parse_ok(canonical());
    cfg.watchdog.gpu_fail_threshold = 0;
    let errs = validation_errors(&cfg);
    assert!(rules_in(&errs).contains(&"W3"));
}

// W4
#[test]
fn w4_poll_interval_out_of_range() {
    let mut cfg = parse_ok(canonical());
    cfg.global.poll_interval_ms = 50;
    let errs = validation_errors(&cfg);
    assert!(rules_in(&errs).contains(&"W4"));
}

// W5
#[test]
fn w5_no_headroom() {
    let mut cfg = parse_ok(canonical());
    // poll * max_threshold must be < timeout * 500.
    // Set poll to 10000 and threshold to 100 → 1_000_000; timeout 30 * 500 = 15_000.
    cfg.global.poll_interval_ms = 10_000;
    cfg.fans[0].fan_fail_threshold = 100;
    cfg.watchdog.timeout_s = 30;
    let errs = validation_errors(&cfg);
    assert!(rules_in(&errs).contains(&"W5"));
}

// W6 — enforced at parse time
#[test]
fn w6_invalid_log_level_caught_at_parse() {
    let s = canonical().replace("log_level        = info", "log_level        = chatty");
    let err = parse(&s).unwrap_err();
    assert!(matches!(err, ConfigError::InvalidValue { .. }));
}

// W7
#[test]
fn w7_unknown_config_version() {
    let mut cfg = parse_ok(canonical());
    cfg.global.config_version = 99;
    let errs = validation_errors(&cfg);
    assert!(rules_in(&errs).contains(&"W7"));
}

// Multiple violations accumulate
#[test]
fn multiple_violations_accumulate_in_one_pass() {
    let mut cfg = parse_ok(canonical());
    // S4 violation: drop one group entirely so a GPU is unreferenced.
    cfg.groups.retain(|g| g.id != "shared");
    // G7 violation: invert min/max on one GPU.
    cfg.gpus[0].min_fan_pct = Pct(80);
    cfg.gpus[0].max_fan_pct = Pct(50);
    let errs = validation_errors(&cfg);
    let codes = rules_in(&errs);
    assert!(codes.contains(&"S4"), "codes: {codes:?}");
    assert!(codes.contains(&"G7"), "codes: {codes:?}");
}
