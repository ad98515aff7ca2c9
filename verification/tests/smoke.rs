use tesla_fan_control::config::load;

const CANONICAL: &str = "\
[global]
config_version   = 1           # the version of the format
poll_interval_ms = 1000
log_level        = info        # debug | info | warn | error
log_file         = /var/log/tesla_fan_control.log   # empty = journald only
power_limit_check_interval_s    = 120     # re-assert every 2 minutes
power_limit_restore_on_shutdown = false
power_limit_validate_max_w      = 1000

[watchdog]
enabled             = true
device              = /dev/watchdog
timeout_s           = 30
gpu_fail_threshold  = 3

[gpu:0]
nvml_index   = 0
curve        = 40:20, 55:40, 70:80, 80:100   # full speed at 80 degrees
min_fan_pct  = 20
max_fan_pct  = 100
power_limit_enabled = true
power_limit_w       = 260

[gpu:1]
nvml_index   = 1
curve        = 40:20, 55:40, 70:80, 80:100
min_fan_pct  = 20
max_fan_pct  = 100

[fan:f0]
chip                = nct6798
pwm_channel         = 1
min_rpm             = 200
max_rpm             = 3000
fan_fail_threshold  = 3
spin_up_grace_s     = 10

[group:main]
gpus = 0, 1
fans = f0
";

fn assert_refused(from: &str, to: &str, needle: &str) {
    let text = CANONICAL.replacen(from, to, 1);
    assert_ne!(text, CANONICAL);
    let shown = load(Ok(text)).unwrap_err().describe();
    assert!(shown.contains(needle), "expected {needle} in:\n{shown}");
}

#[test]
fn check_config_passes_on_canonical() {
    let (_, warnings) = load(Ok(CANONICAL.to_string())).unwrap();
    assert_eq!(warnings, vec![]);
}

#[test]
fn s4_orphan_gpu_fixture_surfaces_rule_code() {
    assert_refused("gpus = 0, 1", "gpus = 0", "[S4]");
}

#[test]
fn g2_descending_temp_fixture_surfaces_rule_code() {
    assert_refused("40:20, 55:40", "55:20, 40:40", "G2");
}

#[test]
fn f1_max_le_min_rpm_fixture_surfaces_rule_code() {
    assert_refused("max_rpm             = 3000", "max_rpm             = 200", "[F1]");
}

#[test]
fn w2_timeout_out_of_range_fixture_surfaces_rule_code() {
    assert_refused("timeout_s           = 30", "timeout_s           = 1000", "[W2]");
}

#[test]
fn w7_unknown_config_version_fixture_surfaces_rule_code() {
    assert_refused("config_version   = 1", "config_version   = 99", "[W7]");
}

#[test]
fn p1_enabled_without_value_surfaces_rule_code() {
    assert_refused("power_limit_w       = 260\n", "", "[P1]");
    assert_refused("power_limit_w       = 260\n", "power_limit_w       =\n", "[P1]");
}

#[test]
fn p2_power_above_validate_max_surfaces_rule_code() {
    assert_refused("power_limit_w       = 260", "power_limit_w       = 2600", "[P2]");
}

#[test]
fn missing_config_file_exits_nonzero() {
    assert!(load(Err("No such file or directory (os error 2)".to_string())).is_err());
}
