use tesla_fan_control::config::{
    format_errors, load, parse, validate, Config, ConfigError, LogLevel, ValidationError, Warning,
};
use tesla_fan_control::curve::CurveError;
use tesla_fan_control::document::{get, Section};
use tesla_fan_control::schema::{
    accept, classify_section, from_document, known_keys, parse_bool, parse_curve_field,
    parse_id_list, parse_log_level, parse_u32, SectionKind,
};
use tesla_fan_control::units::{Celsius, Pct};

const SMALL: &str = "\
[global]
config_version = 1
poll_interval_ms = 1000
log_level = info
log_file = /var/log/tfc.log

[watchdog]
enabled = yes
device = /dev/watchdog
timeout_s = 30
gpu_fail_threshold = 3

[gpu:0]
nvml_index = 0
curve = 40:20, 55:40, 70:80, 80:100
min_fan_pct = 20
max_fan_pct = 100

[fan:f0]
chip = nct6798
pwm_channel = 1
min_rpm = 200
max_rpm = 3000
fan_fail_threshold = 3
spin_up_grace_s = 10

[group:main]
gpus = 0
fans = f0
";

fn fault(s: &str) -> String {
    parse(s).unwrap_err().describe()
}

fn without(line: &str) -> String {
    let changed = SMALL.replacen(&format!("{line}\n"), "", 1);
    assert_ne!(changed, SMALL);
    changed
}

fn with(line: &str, instead: &str) -> String {
    let changed = SMALL.replacen(line, instead, 1);
    assert_ne!(changed, SMALL);
    changed
}

fn entries(pairs: &[(&str, &str)]) -> Vec<(String, String)> {
    pairs.iter().map(|(k, v)| (k.to_string(), v.to_string())).collect()
}

fn section(name: Option<&str>, pairs: &[(&str, &str)]) -> Section {
    (name.map(str::to_string), entries(pairs))
}

fn small_document() -> Vec<Section> {
    vec![
        section(None, &[]),
        section(
            Some("global"),
            &[
                ("config_version", "1"),
                ("poll_interval_ms", "1000"),
                ("log_level", "info"),
                ("log_file", "/var/log/tfc.log"),
            ],
        ),
        section(
            Some("watchdog"),
            &[
                ("enabled", "yes"),
                ("device", "/dev/watchdog"),
                ("timeout_s", "30"),
                ("gpu_fail_threshold", "3"),
            ],
        ),
        section(
            Some("gpu:0"),
            &[
                ("nvml_index", "0"),
                ("curve", "40:20, 55:40, 70:80, 80:100"),
                ("min_fan_pct", "20"),
                ("max_fan_pct", "100"),
            ],
        ),
        section(
            Some("fan:f0"),
            &[
                ("chip", "nct6798"),
                ("pwm_channel", "1"),
                ("min_rpm", "200"),
                ("max_rpm", "3000"),
                ("fan_fail_threshold", "3"),
                ("spin_up_grace_s", "10"),
            ],
        ),
        section(Some("group:main"), &[("gpus", "0"), ("fans", "f0")]),
    ]
}

fn assert_is_small(cfg: &Config) {
    assert_eq!(cfg.global.config_version, 1);
    assert_eq!(cfg.global.poll_interval_ms, 1000);
    assert_eq!(cfg.global.log_level, LogLevel::Info);
    assert_eq!(cfg.global.log_file, Some("/var/log/tfc.log".to_string()));
    assert!(cfg.watchdog.enabled);
    assert_eq!(cfg.watchdog.device, "/dev/watchdog");
    assert_eq!(cfg.watchdog.timeout_s, 30);
    assert_eq!(cfg.watchdog.gpu_fail_threshold, 3);
    assert_eq!(cfg.gpus.len(), 1);
    assert_eq!(cfg.gpus[0].id, "0");
    assert_eq!(cfg.gpus[0].nvml_index, 0);
    assert_eq!(
        cfg.gpus[0].curve.points().to_vec(),
        vec![
            (Celsius(40), Pct(20)),
            (Celsius(55), Pct(40)),
            (Celsius(70), Pct(80)),
            (Celsius(80), Pct(100)),
        ]
    );
    assert_eq!(cfg.gpus[0].min_fan_pct, Pct(20));
    assert_eq!(cfg.gpus[0].max_fan_pct, Pct(100));
    assert!(!cfg.gpus[0].power_limit_enabled);
    assert_eq!(cfg.gpus[0].power_limit_w, None);
    assert_eq!(cfg.global.power_limit_check_interval_s, 120);
    assert!(!cfg.global.power_limit_restore_on_shutdown);
    assert_eq!(cfg.global.power_limit_validate_max_w, 1000);
    assert_eq!(cfg.fans.len(), 1);
    assert_eq!(cfg.fans[0].id, "f0");
    assert_eq!(cfg.fans[0].chip, Some("nct6798".to_string()));
    assert_eq!(cfg.fans[0].device_path, None);
    assert_eq!(cfg.fans[0].hwmon_path, None);
    assert_eq!(cfg.fans[0].pwm_channel, 1);
    assert_eq!(cfg.fans[0].min_rpm, 200);
    assert_eq!(cfg.fans[0].max_rpm, 3000);
    assert_eq!(cfg.fans[0].fan_fail_threshold, 3);
    assert_eq!(cfg.fans[0].spin_up_grace_s, 10);
    assert_eq!(cfg.groups.len(), 1);
    assert_eq!(cfg.groups[0].id, "main");
    assert_eq!(cfg.groups[0].gpus, vec!["0".to_string()]);
    assert_eq!(cfg.groups[0].fans, vec!["f0".to_string()]);
}

#[test]
fn text_and_document_give_the_same_config() {
    let (cfg, warnings) = parse(SMALL).unwrap();
    assert_is_small(&cfg);
    assert_eq!(warnings, vec![]);
    let (cfg, warnings) = from_document(Ok(small_document())).unwrap();
    assert_is_small(&cfg);
    assert_eq!(warnings, vec![]);
    assert_eq!(validate(&cfg), Ok(()));
}

#[test]
fn inline_comments_are_no_part_of_a_value() {
    let s = with("timeout_s = 30", "timeout_s = 45   # seconds");
    assert_eq!(parse(&s).unwrap().0.watchdog.timeout_s, 45);
    let s = with("timeout_s = 30", "timeout_s = 45   ; seconds");
    assert_eq!(parse(&s).unwrap().0.watchdog.timeout_s, 45);
}

#[test]
fn broken_document_is_an_ini_error() {
    let message = match parse("[global\nx = 1\n").unwrap_err() {
        ConfigError::Ini(m) => m,
        other => panic!("expected Ini, got {other:?}"),
    };
    assert!(!message.is_empty());
    match from_document(Err("1:2 no".to_string())).unwrap_err() {
        ConfigError::Ini(m) => assert_eq!(m, "1:2 no"),
        other => panic!("expected Ini, got {other:?}"),
    }
}

#[test]
fn keys_before_the_first_section_are_refused() {
    assert_eq!(
        fault(&format!("stray = 1\n{SMALL}")),
        "INI parse error: keys must live inside a [section]"
    );
}

#[test]
fn section_headers_are_classified() {
    assert_eq!(classify_section("global"), Some((SectionKind::Global, None)));
    assert_eq!(classify_section("watchdog"), Some((SectionKind::Watchdog, None)));
    assert_eq!(classify_section("gpu:0"), Some((SectionKind::Gpu, Some("0".to_string()))));
    assert_eq!(classify_section("fan:a:b"), Some((SectionKind::Fan, Some("a:b".to_string()))));
    assert_eq!(classify_section("group:x"), Some((SectionKind::Group, Some("x".to_string()))));
    for header in ["", "gpu", "gpu:", "Global", "GPU:0", ":0", "cpu:0", "global:1"] {
        assert_eq!(classify_section(header), None, "{header:?}");
    }
}

#[test]
fn unknown_section_names_the_header() {
    assert_eq!(
        fault(&with("[gpu:0]", "[gpu:]")),
        "unknown section header [gpu:] (T1) — only [global], [watchdog], [gpu:N], [fan:ID], [group:ID] are recognised"
    );
}

#[test]
fn every_key_that_must_be_there_is_asked_for() {
    for (line, key, name) in [
        ("config_version = 1", "config_version", "global"),
        ("poll_interval_ms = 1000", "poll_interval_ms", "global"),
        ("log_level = info", "log_level", "global"),
        ("enabled = yes", "enabled", "watchdog"),
        ("device = /dev/watchdog", "device", "watchdog"),
        ("timeout_s = 30", "timeout_s", "watchdog"),
        ("gpu_fail_threshold = 3", "gpu_fail_threshold", "watchdog"),
        ("nvml_index = 0", "nvml_index", "gpu:0"),
        ("curve = 40:20, 55:40, 70:80, 80:100", "curve", "gpu:0"),
        ("min_fan_pct = 20", "min_fan_pct", "gpu:0"),
        ("max_fan_pct = 100", "max_fan_pct", "gpu:0"),
        ("pwm_channel = 1", "pwm_channel", "fan:f0"),
        ("min_rpm = 200", "min_rpm", "fan:f0"),
        ("max_rpm = 3000", "max_rpm", "fan:f0"),
        ("fan_fail_threshold = 3", "fan_fail_threshold", "fan:f0"),
        ("spin_up_grace_s = 10", "spin_up_grace_s", "fan:f0"),
        ("gpus = 0", "gpus", "group:main"),
        ("fans = f0", "fans", "group:main"),
    ] {
        assert_eq!(
            fault(&without(line)),
            format!("missing required key '{key}' in section [{name}]")
        );
    }
}

#[test]
fn keys_that_may_be_left_out_may_be_blank() {
    let (cfg, _) = parse(&without("log_file = /var/log/tfc.log")).unwrap();
    assert_eq!(cfg.global.log_file, None);
    let (cfg, _) = parse(&with("log_file = /var/log/tfc.log", "log_file =")).unwrap();
    assert_eq!(cfg.global.log_file, None);
    let (cfg, _) = parse(&with("chip = nct6798", "chip =\nhwmon_path = /h\ndevice_path = /d")).unwrap();
    assert_eq!(cfg.fans[0].chip, None);
    assert_eq!(cfg.fans[0].hwmon_path, Some("/h".to_string()));
    assert_eq!(cfg.fans[0].device_path, Some("/d".to_string()));
}

#[test]
fn missing_sections_are_named() {
    match from_document(Ok(vec![])).unwrap_err() {
        ConfigError::MissingSection(s) => assert_eq!(s, "global"),
        other => panic!("expected MissingSection, got {other:?}"),
    }
    let mut sections = small_document();
    sections.remove(2);
    assert_eq!(
        from_document(Ok(sections)).unwrap_err().describe(),
        "missing required section [watchdog]"
    );
}

#[test]
fn first_of_several_errors_is_reported() {
    let s = with("timeout_s = 30", "timeout_s = x").replacen("log_level = info", "log_level = y", 1);
    assert_eq!(
        fault(&s),
        "invalid value for 'log_level' in section [global]: expected one of debug|info|warn|error, got 'y'"
    );
}

#[test]
fn repeated_global_section_replaces_the_first() {
    let mut sections = small_document();
    sections.push(section(
        Some("global"),
        &[("config_version", "2"), ("poll_interval_ms", "500"), ("log_level", "debug")],
    ));
    let (cfg, _) = from_document(Ok(sections)).unwrap();
    assert_eq!(cfg.global.config_version, 2);
    assert_eq!(cfg.global.log_file, None);
}

#[test]
fn first_of_equal_keys_counts() {
    let e = entries(&[("a", "1"), ("b", "2"), ("a", "3")]);
    assert_eq!(get(&e, "a"), Some("1"));
    assert_eq!(get(&e, "b"), Some("2"));
    assert_eq!(get(&e, "c"), None);
    let s = with("timeout_s = 30", "timeout_s = 31\ntimeout_s = 32");
    assert_eq!(parse(&s).unwrap().0.watchdog.timeout_s, 31);
}

#[test]
fn unknown_keys_are_noted_in_order_and_change_nothing() {
    let s = with("[watchdog]", "[watchdog]\nzeta = 1\n").replacen("[gpu:0]", "[gpu:0]\nzeta = 2", 1);
    let (cfg, warnings) = parse(&s).unwrap();
    assert_is_small(&cfg);
    let expected = |name: &str| Warning {
        section: name.to_string(),
        key: "zeta".to_string(),
        message: format!("unknown key in [{name}] (T2)"),
    };
    assert_eq!(warnings, vec![expected("watchdog"), expected("gpu:0")]);
}

#[test]
fn known_keys_per_section() {
    assert_eq!(
        known_keys(SectionKind::Global),
        vec![
            "config_version",
            "poll_interval_ms",
            "log_level",
            "log_file",
            "power_limit_check_interval_s",
            "power_limit_restore_on_shutdown",
            "power_limit_validate_max_w",
        ]
    );
    assert_eq!(
        known_keys(SectionKind::Watchdog),
        vec!["enabled", "device", "timeout_s", "gpu_fail_threshold"]
    );
    assert_eq!(
        known_keys(SectionKind::Gpu),
        vec![
            "nvml_index",
            "curve",
            "min_fan_pct",
            "max_fan_pct",
            "power_limit_enabled",
            "power_limit_w",
        ]
    );
    assert_eq!(
        known_keys(SectionKind::Fan),
        vec![
            "chip",
            "device_path",
            "hwmon_path",
            "pwm_channel",
            "min_rpm",
            "max_rpm",
            "fan_fail_threshold",
            "spin_up_grace_s",
        ]
    );
    assert_eq!(known_keys(SectionKind::Group), vec!["gpus", "fans"]);
}

#[test]
fn numbers_are_read_with_their_errors() {
    assert_eq!(parse_u32("s", "k", " 42 ").unwrap(), 42);
    assert_eq!(
        parse_u32("s", "k", "").unwrap_err().describe(),
        "invalid value for 'k' in section [s]: expected u32: cannot parse integer from empty string"
    );
    assert_eq!(
        parse_u32("s", "k", "-1").unwrap_err().describe(),
        "invalid value for 'k' in section [s]: expected u32: invalid digit found in string"
    );
    assert_eq!(
        parse_u32("s", "k", "4294967296").unwrap_err().describe(),
        "invalid value for 'k' in section [s]: expected u32: number too large to fit in target type"
    );
}

#[test]
fn switches_are_read_in_any_case() {
    for yes in ["true", "YES", " 1 ", "Yes", "TRUE"] {
        assert!(parse_bool("s", "k", yes).unwrap());
    }
    for no in ["false", "NO", "0", "False"] {
        assert!(!parse_bool("s", "k", no).unwrap());
    }
    assert_eq!(
        parse_bool("s", "k", " Maybe ").unwrap_err().describe(),
        "invalid value for 'k' in section [s]: expected bool, got 'maybe'"
    );
}

#[test]
fn log_levels_are_read_in_any_case() {
    for (raw, level) in [
        ("debug", LogLevel::Debug),
        ("INFO", LogLevel::Info),
        (" Warn", LogLevel::Warn),
        ("eRRor", LogLevel::Error),
    ] {
        assert_eq!(parse_log_level("global", raw).unwrap(), level);
        assert_eq!(level.as_str(), raw.trim().to_ascii_lowercase());
    }
}

#[test]
fn curves_are_read_with_their_errors() {
    assert_eq!(
        parse_curve_field("0", " -5 : 0 ,, +40:+20 ,").unwrap().points().to_vec(),
        vec![(Celsius(-5), Pct(0)), (Celsius(40), Pct(20))]
    );
    let fault = |raw: &str| parse_curve_field("0", raw).unwrap_err().describe();
    let prefix = "invalid value for 'curve' in section [gpu:0]: ";
    assert_eq!(fault("40:20, 55"), format!("{prefix}malformed point '55', expected TEMP:PCT"));
    assert_eq!(fault("x :20"), format!("{prefix}temp 'x': invalid digit found in string"));
    assert_eq!(
        fault("-32769:20"),
        format!("{prefix}temp '-32769': number too small to fit in target type")
    );
    assert_eq!(
        fault("40: 256"),
        format!("{prefix}pct ' 256': number too large to fit in target type")
    );
    assert_eq!(fault("40:20:5"), format!("{prefix}pct '20:5': invalid digit found in string"));
    match parse_curve_field("0", "").unwrap_err() {
        ConfigError::Curve { id, source } => {
            assert_eq!(id, "0");
            assert_eq!(source, CurveError::TooFewPoints(0));
        }
        other => panic!("expected Curve, got {other:?}"),
    }
    assert_eq!(
        fault("50:1, 40:2"),
        "invalid fan curve in [gpu:0]: curve temperatures must be strictly ascending (G2): Celsius(50) then Celsius(40)"
    );
}

#[test]
fn id_lists_drop_blanks() {
    assert_eq!(parse_id_list(" 1, 2 ,,x y, "), vec!["1", "2", "x y"]);
    assert_eq!(parse_id_list(""), Vec::<String>::new());
}

#[test]
fn large_percentages_saturate() {
    let (cfg, _) = parse(&with("max_fan_pct = 100", "max_fan_pct = 300")).unwrap();
    assert_eq!(cfg.gpus[0].max_fan_pct, Pct(255));
    let (cfg, _) = parse(&with("max_fan_pct = 100", "max_fan_pct = 255")).unwrap();
    assert_eq!(cfg.gpus[0].max_fan_pct, Pct(255));
}

#[test]
fn loading_reports_a_failed_read() {
    match load(Err("No such file or directory".to_string())).unwrap_err() {
        ConfigError::Io(m) => assert_eq!(m, "No such file or directory"),
        other => panic!("expected Io, got {other:?}"),
    }
    assert_eq!(
        load(Err("gone".to_string())).unwrap_err().describe(),
        "I/O error reading config file: gone"
    );
}

#[test]
fn loading_parses_and_validates() {
    let (cfg, warnings) = load(Ok(SMALL.to_string())).unwrap();
    assert_is_small(&cfg);
    assert_eq!(warnings, vec![]);
    assert_eq!(
        load(Ok(with("timeout_s = 30", "timeout_s = 1000"))).unwrap_err().describe(),
        "validation failed with 1 error(s):\n  - [W2] section=watchdog key=timeout_s: timeout_s 1000 outside [5, 600]"
    );
    assert!(matches!(load(Ok(without("gpus = 0"))), Err(ConfigError::MissingKey { .. })));
}

#[test]
fn accepting_lets_other_outcomes_stand() {
    let parsed = accept(Err(ConfigError::MissingSection("global".to_string())));
    assert!(matches!(parsed, Err(ConfigError::MissingSection(_))));
    assert!(accept(from_document(Ok(small_document()))).is_ok());
}

#[test]
fn reports_name_section_and_key_where_there_are_any() {
    let bare = ValidationError {
        rule: "S1",
        section: None,
        key: None,
        message: "m".to_string(),
    };
    let full = ValidationError {
        rule: "G8",
        section: Some("gpu:0".to_string()),
        key: Some("min_fan_pct".to_string()),
        message: "n".to_string(),
    };
    assert_eq!(bare.describe(), "[S1]: m");
    assert_eq!(full.describe(), "[G8] section=gpu:0 key=min_fan_pct: n");
    assert_eq!(format_errors(&vec![]), "");
    assert_eq!(
        format_errors(&vec![bare, full]),
        "  - [S1]: m\n  - [G8] section=gpu:0 key=min_fan_pct: n"
    );
}

#[test]
fn curve_faults_are_described() {
    assert_eq!(
        CurveError::TooFewPoints(1).describe(),
        "curve must have at least 2 points (G1), got 1"
    );
    assert_eq!(
        CurveError::TooManyPoints(11).describe(),
        "curve must have at most 10 points (G1), got 11"
    );
    assert_eq!(
        CurveError::NotMonotonicTemp { prev: Celsius(40), next: Celsius(-3) }.describe(),
        "curve temperatures must be strictly ascending (G2): Celsius(40) then Celsius(-3)"
    );
    assert_eq!(
        CurveError::DuplicateTemp(Celsius(40)).describe(),
        "curve temperatures must be unique (G3): duplicate Celsius(40)"
    );
    assert_eq!(
        CurveError::NotMonotonicPct { prev: Pct(50), next: Pct(40) }.describe(),
        "curve percentages must be monotonic non-decreasing (G4): Pct(50) then Pct(40)"
    );
}

#[test]
fn power_limits_are_read() {
    let s = with(
        "log_level = info",
        "log_level = info\npower_limit_check_interval_s = 60\npower_limit_restore_on_shutdown = yes\npower_limit_validate_max_w = 500",
    )
    .replacen(
        "max_fan_pct = 100",
        "max_fan_pct = 100\npower_limit_enabled = true\npower_limit_w = 260   # in watts",
        1,
    );
    let (cfg, warnings) = load(Ok(s)).unwrap();
    assert_eq!(warnings, vec![]);
    assert_eq!(cfg.global.power_limit_check_interval_s, 60);
    assert!(cfg.global.power_limit_restore_on_shutdown);
    assert_eq!(cfg.global.power_limit_validate_max_w, 500);
    assert!(cfg.gpus[0].power_limit_enabled);
    assert_eq!(cfg.gpus[0].power_limit_w, Some(260));
}

#[test]
fn malformed_power_limits_are_refused() {
    assert_eq!(
        fault(&with("[gpu:0]", "[gpu:0]\npower_limit_w = 2k")),
        "invalid value for 'power_limit_w' in section [gpu:0]: expected u32: invalid digit found in string"
    );
    assert_eq!(
        fault(&with("[gpu:0]", "[gpu:0]\npower_limit_enabled = on")),
        "invalid value for 'power_limit_enabled' in section [gpu:0]: expected bool, got 'on'"
    );
    assert_eq!(
        fault(&with("[global]", "[global]\npower_limit_check_interval_s = -1")),
        "invalid value for 'power_limit_check_interval_s' in section [global]: expected u32: invalid digit found in string"
    );
    assert_eq!(
        fault(&with("[global]", "[global]\npower_limit_restore_on_shutdown = x")),
        "invalid value for 'power_limit_restore_on_shutdown' in section [global]: expected bool, got 'x'"
    );
    assert_eq!(
        fault(&with("[global]", "[global]\npower_limit_validate_max_w = x")),
        "invalid value for 'power_limit_validate_max_w' in section [global]: expected u32: invalid digit found in string"
    );
}

#[test]
fn unknown_key_anywhere_adds_one_warning() {
    for i in 1..small_document().len() {
        for at in 0..=small_document()[i].1.len() {
            let mut sections = small_document();
            let name = sections[i].0.clone().unwrap();
            sections[i].1.insert(at, ("flubber".to_string(), "1".to_string()));
            let (cfg, warnings) = from_document(Ok(sections)).unwrap();
            assert_is_small(&cfg);
            assert_eq!(
                warnings,
                vec![Warning {
                    section: name.clone(),
                    key: "flubber".to_string(),
                    message: format!("unknown key in [{name}] (T2)"),
                }]
            );
        }
    }
}
