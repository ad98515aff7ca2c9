use tesla_fan_control::chip::{
    name_path, resolve, scan, scan_at, ChipError, HwmonEntry, Listing, NameFile, HWMON_ROOT,
};
use tesla_fan_control::config::FanConfig;
use tesla_fan_control::idmap::IdMap;

const ROOT: &str = "/tmp/hwmon";

fn hwmon(idx: u32, name: &str) -> (String, Result<HwmonEntry, String>) {
    let path = format!("{ROOT}/hwmon{idx}");
    let entry = HwmonEntry {
        path: path.clone(),
        is_dir: true,
        name: NameFile::Contents(format!("{name}\n")),
    };
    (path, Ok(entry))
}

fn fan(id: &str, chip: Option<&str>, hwmon_path: Option<String>) -> FanConfig {
    FanConfig {
        id: id.to_string(),
        chip: chip.map(str::to_string),
        device_path: None,
        hwmon_path,
        pwm_channel: 1,
        min_rpm: 200,
        max_rpm: 3000,
        fan_fail_threshold: 3,
        spin_up_grace_s: 10,
    }
}

#[test]
fn scan_at_picks_up_chip_names() {
    let (p0, e0) = hwmon(0, "nct6798");
    let (p1, e1) = hwmon(1, "coretemp");
    let map = scan_at(ROOT, Ok(vec![e0, e1])).unwrap();
    assert_eq!(map.sorted_names().len(), 2);
    assert_eq!(map.get("nct6798"), Some(&p0));
    assert_eq!(map.get("coretemp"), Some(&p1));
}

#[test]
fn scan_at_skips_dirs_without_name_file() {
    let (_, e0) = hwmon(0, "nct6798");
    let nameless = HwmonEntry {
        path: format!("{ROOT}/hwmon1"),
        is_dir: true,
        name: NameFile::Missing,
    };
    let map = scan_at(ROOT, Ok(vec![e0, Ok(nameless)])).unwrap();
    assert_eq!(map.sorted_names().len(), 1);
    assert!(map.get("nct6798").is_some());
}

#[test]
fn scan_at_missing_root_errors() {
    let missing = "/tmp/does-not-exist";
    let listing: Listing = Err("No such file or directory".to_string());
    let err = scan_at(missing, listing).unwrap_err();
    assert!(matches!(err, ChipError::ReadDir { .. }));
    assert_eq!(
        err,
        ChipError::ReadDir {
            root: missing.to_string(),
            source: "No such file or directory".to_string(),
        }
    );
}

#[test]
fn resolve_by_chip_name_returns_path() {
    let (p0, e0) = hwmon(0, "nct6798");
    let map = scan_at(ROOT, Ok(vec![e0])).unwrap();
    let cfg = fan("f0", Some("nct6798"), None);
    assert_eq!(resolve(&map, &cfg, false).unwrap(), p0);
}

#[test]
fn resolve_chip_not_found_lists_available() {
    let (_, e0) = hwmon(0, "nct6798");
    let (_, e1) = hwmon(1, "coretemp");
    let map = scan_at(ROOT, Ok(vec![e0, e1])).unwrap();
    let cfg = fan("f0", Some("it8772"), None);
    match resolve(&map, &cfg, false).unwrap_err() {
        ChipError::ChipNotFound { fan_id, chip, available } => {
            assert_eq!(fan_id, "f0");
            assert_eq!(chip, "it8772");
            assert!(available.contains(&"nct6798".to_string()));
            assert!(available.contains(&"coretemp".to_string()));
            assert_eq!(available, vec!["coretemp".to_string(), "nct6798".to_string()]);
        }
        other => panic!("expected ChipNotFound, got {other:?}"),
    }
}

#[test]
fn resolve_hwmon_path_escape_hatch_wins() {
    // The chip is known, but a pinned path is taken as it is.
    let (_p0, e0) = hwmon(0, "nct6798");
    let (pinned, e1) = hwmon(1, "nct6798");
    let map = scan_at(ROOT, Ok(vec![e0, e1])).unwrap();
    let cfg = fan("f0", Some("nct6798"), Some(pinned.clone()));
    assert_eq!(resolve(&map, &cfg, true).unwrap(), pinned);
}

#[test]
fn resolve_hwmon_path_missing_errors() {
    let map = scan_at(ROOT, Ok(vec![])).unwrap();
    let bogus = format!("{ROOT}/nonexistent-hwmon");
    let cfg = fan("f0", None, Some(bogus.clone()));
    match resolve(&map, &cfg, false).unwrap_err() {
        ChipError::HwmonPathMissing { fan_id, path } => {
            assert_eq!(fan_id, "f0");
            assert_eq!(path, bogus);
        }
        other => panic!("expected HwmonPathMissing, got {other:?}"),
    }
}

#[test]
fn resolve_no_selector_errors() {
    let map: IdMap<String> = IdMap::new();
    let cfg = fan("f0", None, None);
    match resolve(&map, &cfg, true).unwrap_err() {
        ChipError::NoSelector { fan_id } => assert_eq!(fan_id, "f0"),
        other => panic!("expected NoSelector, got {other:?}"),
    }
}

#[test]
fn device_path_alone_selects_nothing() {
    let (_, e0) = hwmon(0, "nct6798");
    let map = scan_at(ROOT, Ok(vec![e0])).unwrap();
    let mut cfg = fan("f0", None, None);
    cfg.device_path = Some("/sys/devices/platform/nct6775.656".to_string());
    assert_eq!(
        resolve(&map, &cfg, true),
        Err(ChipError::NoSelector { fan_id: "f0".to_string() })
    );
}

#[test]
fn scan_passes_over_files() {
    let file = HwmonEntry {
        path: format!("{ROOT}/hwmon1"),
        is_dir: false,
        name: NameFile::Unreadable("Not a directory".to_string()),
    };
    let map = scan_at(ROOT, Ok(vec![Ok(file)])).unwrap();
    assert_eq!(map.sorted_names(), Vec::<String>::new());
}

#[test]
fn blank_name_is_a_name() {
    let (p0, e0) = hwmon(0, "  ");
    let (p1, e1) = hwmon(1, " coretemp\t");
    let map = scan_at(ROOT, Ok(vec![e0, e1])).unwrap();
    assert_eq!(map.sorted_names(), vec!["".to_string(), "coretemp".to_string()]);
    assert_eq!(map.get(""), Some(&p0));
    assert_eq!(map.get("coretemp"), Some(&p1));
}

#[test]
fn later_directory_of_the_same_name_counts() {
    let (_, e0) = hwmon(0, "nct6798");
    let (p1, e1) = hwmon(1, "nct6798");
    let map = scan_at(ROOT, Ok(vec![e0, e1])).unwrap();
    assert_eq!(map.get("nct6798"), Some(&p1));
}

#[test]
fn unreadable_name_stops_the_scan() {
    let (_, e1) = hwmon(1, "coretemp");
    let unreadable = HwmonEntry {
        path: format!("{ROOT}/hwmon0"),
        is_dir: true,
        name: NameFile::Unreadable("Permission denied".to_string()),
    };
    assert_eq!(
        scan_at(ROOT, Ok(vec![Ok(unreadable), e1])).unwrap_err(),
        ChipError::ReadName {
            path: format!("{ROOT}/hwmon0"),
            source: "Permission denied".to_string(),
        }
    );
}

#[test]
fn failing_entry_stops_the_scan_of_the_system_root() {
    let (_, e0) = hwmon(0, "nct6798");
    assert_eq!(
        scan(Ok(vec![e0, Err("Input/output error".to_string())])).unwrap_err(),
        ChipError::ReadDir {
            root: HWMON_ROOT.to_string(),
            source: "Input/output error".to_string(),
        }
    );
    assert_eq!(HWMON_ROOT, "/sys/class/hwmon");
    assert_eq!(name_path("/sys/class/hwmon/hwmon0"), "/sys/class/hwmon/hwmon0/name");
}
