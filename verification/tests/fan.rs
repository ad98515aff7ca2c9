use std::collections::HashMap;
use tesla_fan_control::fan::{check_health, Fan, FanError, SysfsWrite};
use tesla_fan_control::units::Pct;
use tesla_fan_control::watchdog::FanHealth;

const HWMON: &str = "/sys/class/hwmon/hwmon0";

/// The files of one hwmon directory, held in memory. Files that are listed as
/// broken cannot be written.
struct Sysfs {
    files: HashMap<String, String>,
    broken: Vec<String>,
}

fn path_of(name: &str) -> String {
    format!("{HWMON}/{name}")
}

fn hwmon_with_channel(n: u32, pwm_enable: &str) -> Sysfs {
    let mut sysfs = Sysfs { files: HashMap::new(), broken: Vec::new() };
    sysfs.put(&format!("pwm{n}"), "0\n");
    sysfs.put(&format!("pwm{n}_enable"), pwm_enable);
    sysfs.put(&format!("fan{n}_input"), "1500\n");
    sysfs
}

impl Sysfs {
    fn put(&mut self, name: &str, contents: &str) {
        self.files.insert(path_of(name), contents.to_string());
    }

    fn contents(&self, name: &str) -> String {
        self.files.get(&path_of(name)).unwrap().clone()
    }

    fn read(&self, path: &str) -> Result<String, String> {
        match self.files.get(path) {
            Some(contents) => Ok(contents.clone()),
            None => Err("No such file or directory".to_string()),
        }
    }

    fn write(&mut self, w: SysfsWrite) -> Result<(), String> {
        if self.broken.contains(&w.path) {
            return Err("Permission denied".to_string());
        }
        self.files.insert(w.path, w.contents);
        Ok(())
    }

    fn take_manual_control(&mut self, fan: &mut Fan) -> Result<(), FanError> {
        let found = self.read(&fan.pwm_enable_path());
        let written = match fan.manual_write_after(&found) {
            Some(w) => self.write(w),
            None => Ok(()),
        };
        fan.take_manual_control(found, written)
    }

    fn rearm(&mut self, fan: &Fan, observed: &Result<String, String>) -> Result<(), String> {
        match fan.rearm_write(observed) {
            Some(w) => self.write(w),
            None => Ok(()),
        }
    }

    fn set(&mut self, fan: &mut Fan, pct: Pct) -> Result<(), FanError> {
        let observed = self.read(&fan.pwm_enable_path());
        let rearmed = self.rearm(fan, &observed);
        let written = match fan.duty_write(pct, &observed, &rearmed) {
            Some(w) => self.write(w),
            None => Ok(()),
        };
        fan.set(pct, &observed, rearmed, written)
    }

    fn set_max(&mut self, fan: &mut Fan) -> Result<(), FanError> {
        let observed = self.read(&fan.pwm_enable_path());
        let rearmed = self.rearm(fan, &observed);
        let written = match fan.max_write(&observed, &rearmed) {
            Some(w) => self.write(w),
            None => Ok(()),
        };
        fan.set_max(&observed, rearmed, written)
    }

    fn restore(&mut self, fan: &mut Fan) -> Result<(), FanError> {
        let written = match fan.restore_write() {
            Some(w) => self.write(w),
            None => Ok(()),
        };
        fan.restore(written)
    }

    fn read_rpm(&self, fan: &Fan) -> Result<u32, FanError> {
        fan.read_rpm(self.read(&fan.fan_input_path()))
    }
}

// ---- check_health (pure) ----

#[test]
fn check_health_ok_for_in_band_rpm() {
    assert_eq!(check_health(1500, 200, 3000, false), FanHealth::Healthy);
}

#[test]
fn check_health_zero_is_stalled() {
    assert_eq!(check_health(0, 200, 3000, false), FanHealth::Stalled);
}

#[test]
fn check_health_below_min_is_stalled() {
    assert_eq!(check_health(100, 200, 3000, false), FanHealth::Stalled);
}

#[test]
fn check_health_above_max_is_overspeed() {
    assert_eq!(check_health(4000, 200, 3000, false), FanHealth::Overspeed);
}

#[test]
fn check_health_below_min_during_spin_up_is_spin_up() {
    assert_eq!(check_health(100, 200, 3000, true), FanHealth::SpinUp);
}

#[test]
fn check_health_zero_during_spin_up_is_spin_up() {
    assert_eq!(check_health(0, 200, 3000, true), FanHealth::SpinUp);
}

#[test]
fn check_health_overspeed_not_masked_by_spin_up() {
    // Overspeed during spin-up is still real.
    assert_eq!(check_health(4000, 200, 3000, true), FanHealth::Overspeed);
}

#[test]
fn check_health_min_boundary_is_ok() {
    // Below min_rpm is stalled; equal is fine.
    assert_eq!(check_health(200, 200, 3000, false), FanHealth::Healthy);
}

#[test]
fn check_health_max_boundary_is_ok() {
    // Above max_rpm is overspeed; equal is fine.
    assert_eq!(check_health(3000, 200, 3000, false), FanHealth::Healthy);
}

// ---- sysfs lifecycle ----

#[test]
fn take_manual_control_snapshots_and_writes_one() {
    // The snapshot is "5", so that a hard-coded "2" would show.
    let mut sysfs = hwmon_with_channel(1, "5\n");
    let mut fan = Fan::open(HWMON.to_string(), 1, 200, 3000, 10);

    sysfs.take_manual_control(&mut fan).unwrap();

    let pwm_enable = sysfs.contents("pwm1_enable");
    assert_eq!(pwm_enable, "1");
    assert_eq!(fan.pwm_enable_snapshot(), Some("5"));
}

#[test]
fn restore_round_trips_snapshot() {
    let mut sysfs = hwmon_with_channel(1, "5\n");
    let mut fan = Fan::open(HWMON.to_string(), 1, 200, 3000, 10);

    sysfs.take_manual_control(&mut fan).unwrap();
    sysfs.restore(&mut fan).unwrap();

    let pwm_enable = sysfs.contents("pwm1_enable");
    // Not "2": what that means differs from chip to chip.
    assert_eq!(pwm_enable, "5");
}

#[test]
fn restore_without_take_errors() {
    let mut sysfs = hwmon_with_channel(1, "1\n");
    let mut fan = Fan::open(HWMON.to_string(), 1, 200, 3000, 10);

    let err = sysfs.restore(&mut fan).unwrap_err();
    assert!(matches!(err, FanError::NoSnapshot));
}

#[test]
fn set_writes_correct_pwm() {
    // 50% → 127 (50 * 255 / 100, integer truncation).
    let mut sysfs = hwmon_with_channel(1, "1\n");
    let mut fan = Fan::open(HWMON.to_string(), 1, 200, 3000, 10);

    sysfs.set(&mut fan, Pct(50)).unwrap();

    let pwm = sysfs.contents("pwm1");
    assert_eq!(pwm, "127");
}

#[test]
fn set_zero_writes_zero() {
    let mut sysfs = hwmon_with_channel(1, "1\n");
    let mut fan = Fan::open(HWMON.to_string(), 1, 200, 3000, 10);

    sysfs.set(&mut fan, Pct(0)).unwrap();

    let pwm = sysfs.contents("pwm1");
    assert_eq!(pwm, "0");
}

#[test]
fn set_max_writes_255() {
    let mut sysfs = hwmon_with_channel(1, "1\n");
    let mut fan = Fan::open(HWMON.to_string(), 1, 200, 3000, 10);

    sysfs.set_max(&mut fan).unwrap();

    let pwm = sysfs.contents("pwm1");
    assert_eq!(pwm, "255");
}

#[test]
fn read_rpm_parses_fan_input() {
    let mut sysfs = hwmon_with_channel(1, "1\n");
    let fan = Fan::open(HWMON.to_string(), 1, 200, 3000, 10);

    assert_eq!(sysfs.read_rpm(&fan).unwrap(), 1500);
}

#[test]
fn read_rpm_garbage_errors() {
    let mut sysfs = hwmon_with_channel(1, "1\n");
    sysfs.put("fan1_input", "oops");
    let fan = Fan::open(HWMON.to_string(), 1, 200, 3000, 10);

    let err = sysfs.read_rpm(&fan).unwrap_err();
    assert!(matches!(err, FanError::ParseRpm { .. }));
}

// ---- spin-up state machine ----

#[test]
fn take_manual_control_enters_spin_up() {
    let mut sysfs = hwmon_with_channel(1, "5\n");
    let mut fan = Fan::open(HWMON.to_string(), 1, 200, 3000, 10);

    sysfs.take_manual_control(&mut fan).unwrap();

    // While in spin-up, an RPM below min must surface as SpinUp, not Stalled.
    assert_eq!(fan.check_health(50), FanHealth::SpinUp);
}

#[test]
fn large_set_delta_enters_spin_up() {
    let mut sysfs = hwmon_with_channel(1, "1\n");
    let mut fan = Fan::open(HWMON.to_string(), 1, 200, 3000, 10);

    sysfs.set(&mut fan, Pct(10)).unwrap(); // first set: no delta history
    sysfs.set(&mut fan, Pct(40)).unwrap(); // Δ = 30 > 20 → spin-up

    assert_eq!(fan.check_health(50), FanHealth::SpinUp);
}

#[test]
fn small_set_delta_does_not_enter_spin_up() {
    let mut sysfs = hwmon_with_channel(1, "1\n");
    let mut fan = Fan::open(HWMON.to_string(), 1, 200, 3000, 10);

    sysfs.set(&mut fan, Pct(50)).unwrap();
    sysfs.set(&mut fan, Pct(60)).unwrap(); // Δ = 10 ≤ 20 → no spin-up

    // Without spin-up masking, rpm < min surfaces as Stalled.
    assert_eq!(fan.check_health(50), FanHealth::Stalled);
}

#[test]
fn tick_spin_up_exits_when_rpm_above_min() {
    let mut sysfs = hwmon_with_channel(1, "5\n");
    let mut fan = Fan::open(HWMON.to_string(), 1, 200, 3000, 10);

    sysfs.take_manual_control(&mut fan).unwrap();
    fan.tick_spin_up(300, 0); // 300 > min_rpm=200

    assert_eq!(fan.check_health(50), FanHealth::Stalled);
}

#[test]
fn tick_spin_up_exits_when_grace_expires() {
    let mut sysfs = hwmon_with_channel(1, "5\n");
    let mut fan = Fan::open(HWMON.to_string(), 1, 200, 3000, 10);

    sysfs.take_manual_control(&mut fan).unwrap();
    fan.tick_spin_up(0, 10); // elapsed_s == grace_s=10

    assert_eq!(fan.check_health(50), FanHealth::Stalled);
}

#[test]
fn tick_spin_up_stays_active_in_window() {
    let mut sysfs = hwmon_with_channel(1, "5\n");
    let mut fan = Fan::open(HWMON.to_string(), 1, 200, 3000, 10);

    sysfs.take_manual_control(&mut fan).unwrap();
    fan.tick_spin_up(0, 5); // 5 < grace_s=10, rpm 0 < min 200

    assert_eq!(fan.check_health(50), FanHealth::SpinUp);
}

#[test]
fn set_max_enters_spin_up_and_records_full_pct() {
    // After set_max(), a subsequent set(small) must not re-trigger
    // spin-up via the delta path (set_max records Pct(100) so
    // set(50).0.saturating_sub(100) == 0).
    let mut sysfs = hwmon_with_channel(1, "1\n");
    let mut fan = Fan::open(HWMON.to_string(), 1, 200, 3000, 10);

    sysfs.set_max(&mut fan).unwrap();
    // set_max enters spin-up directly.
    assert_eq!(fan.check_health(50), FanHealth::SpinUp);
    // Exit spin-up to isolate the next assertion.
    fan.tick_spin_up(300, 0);
    assert_eq!(fan.check_health(50), FanHealth::Stalled);
    // Down-shift after set_max: delta saturates to 0, no spin-up.
    sysfs.set(&mut fan, Pct(50)).unwrap();
    assert_eq!(fan.check_health(50), FanHealth::Stalled);
}

// ---- files and errors ----

#[test]
fn paths_name_the_channel() {
    let fan = Fan::open("/sys/class/hwmon/hwmon3".to_string(), 12, 200, 3000, 10);
    assert_eq!(fan.pwm_path(), "/sys/class/hwmon/hwmon3/pwm12");
    assert_eq!(fan.pwm_enable_path(), "/sys/class/hwmon/hwmon3/pwm12_enable");
    assert_eq!(fan.fan_input_path(), "/sys/class/hwmon/hwmon3/fan12_input");
    let slashed = Fan::open("/tmp/h/".to_string(), 1, 200, 3000, 10);
    assert_eq!(slashed.pwm_path(), "/tmp/h/pwm1");
    let bare = Fan::open(String::new(), 1, 200, 3000, 10);
    assert_eq!(bare.pwm_path(), "pwm1");
}

#[test]
fn unreadable_mode_cannot_be_taken() {
    let mut sysfs = Sysfs { files: HashMap::new(), broken: Vec::new() };
    let mut fan = Fan::open(HWMON.to_string(), 1, 200, 3000, 10);
    assert_eq!(
        sysfs.take_manual_control(&mut fan),
        Err(FanError::Read {
            path: path_of("pwm1_enable"),
            source: "No such file or directory".to_string(),
        })
    );
    assert_eq!(fan.pwm_enable_snapshot(), None);
    assert_eq!(fan.check_health(50), FanHealth::Stalled);
    // Nothing was written.
    assert!(sysfs.files.is_empty());
    assert_eq!(fan.manual_write_after(&Err("gone".to_string())), None);
    assert_eq!(
        fan.manual_write_after(&Ok("5".to_string())),
        Some(SysfsWrite { path: path_of("pwm1_enable"), contents: "1".to_string() })
    );
}

#[test]
fn unwritable_mode_leaves_no_snapshot() {
    let mut sysfs = hwmon_with_channel(1, "5\n");
    sysfs.broken.push(path_of("pwm1_enable"));
    let mut fan = Fan::open(HWMON.to_string(), 1, 200, 3000, 10);
    assert_eq!(
        sysfs.take_manual_control(&mut fan),
        Err(FanError::Write {
            path: path_of("pwm1_enable"),
            source: "Permission denied".to_string(),
        })
    );
    assert_eq!(sysfs.restore(&mut fan), Err(FanError::NoSnapshot));
}

#[test]
fn failed_duty_write_is_not_recorded() {
    let mut sysfs = hwmon_with_channel(1, "1\n");
    let mut fan = Fan::open(HWMON.to_string(), 1, 200, 3000, 10);
    sysfs.set(&mut fan, Pct(50)).unwrap();
    sysfs.broken.push(path_of("pwm1"));
    let denied = Err(FanError::Write {
        path: path_of("pwm1"),
        source: "Permission denied".to_string(),
    });
    assert_eq!(sysfs.set(&mut fan, Pct(80)), denied);
    assert_eq!(sysfs.set_max(&mut fan), denied);
    assert_eq!(fan.check_health(50), FanHealth::Stalled);
    sysfs.broken.clear();
    // Still measured against 50: a rise by 20 is not large.
    sysfs.set(&mut fan, Pct(70)).unwrap();
    assert_eq!(fan.check_health(50), FanHealth::Stalled);
    sysfs.set(&mut fan, Pct(91)).unwrap();
    assert_eq!(fan.check_health(50), FanHealth::SpinUp);
}

#[test]
fn missing_speed_is_a_read_error() {
    let sysfs = Sysfs { files: HashMap::new(), broken: Vec::new() };
    let fan = Fan::open(HWMON.to_string(), 1, 200, 3000, 10);
    assert_eq!(
        sysfs.read_rpm(&fan),
        Err(FanError::Read {
            path: path_of("fan1_input"),
            source: "No such file or directory".to_string(),
        })
    );
}

#[test]
fn garbage_speed_is_reported_verbatim() {
    let mut sysfs = hwmon_with_channel(1, "1\n");
    sysfs.put("fan1_input", "-5\n");
    let fan = Fan::open(HWMON.to_string(), 1, 200, 3000, 10);
    assert_eq!(
        sysfs.read_rpm(&fan),
        Err(FanError::ParseRpm { path: path_of("fan1_input"), raw: "-5\n".to_string() })
    );
}

// ---- drift ----

#[test]
fn lost_control_is_taken_back_on_the_next_set() {
    let mut sysfs = hwmon_with_channel(1, "5\n");
    let mut fan = Fan::open(HWMON.to_string(), 1, 200, 3000, 10);
    sysfs.take_manual_control(&mut fan).unwrap();
    sysfs.set(&mut fan, Pct(50)).unwrap();
    fan.tick_spin_up(300, 0);
    assert_eq!(fan.check_health(50), FanHealth::Stalled);

    sysfs.put("pwm1_enable", "2\n");
    sysfs.set(&mut fan, Pct(50)).unwrap();

    assert_eq!(sysfs.contents("pwm1_enable"), "1");
    assert_eq!(sysfs.contents("pwm1"), "127");
    assert_eq!(fan.check_health(50), FanHealth::SpinUp);
    assert_eq!(fan.pwm_enable_snapshot(), Some("5"));
    sysfs.restore(&mut fan).unwrap();
    assert_eq!(sysfs.contents("pwm1_enable"), "5");
}

#[test]
fn lost_control_is_taken_back_at_full_duty() {
    let mut sysfs = hwmon_with_channel(1, "5\n");
    let mut fan = Fan::open(HWMON.to_string(), 1, 200, 3000, 10);
    sysfs.take_manual_control(&mut fan).unwrap();
    sysfs.put("pwm1_enable", "2\n");
    sysfs.set_max(&mut fan).unwrap();
    assert_eq!(sysfs.contents("pwm1_enable"), "1");
    assert_eq!(sysfs.contents("pwm1"), "255");
}

#[test]
fn failed_rearm_stops_the_set() {
    let mut sysfs = hwmon_with_channel(1, "5\n");
    let mut fan = Fan::open(HWMON.to_string(), 1, 200, 3000, 10);
    sysfs.take_manual_control(&mut fan).unwrap();
    sysfs.put("pwm1_enable", "2\n");
    sysfs.broken.push(path_of("pwm1_enable"));
    assert_eq!(
        sysfs.set(&mut fan, Pct(50)),
        Err(FanError::Write {
            path: path_of("pwm1_enable"),
            source: "Permission denied".to_string(),
        })
    );
    assert_eq!(sysfs.contents("pwm1"), "0\n");
}

#[test]
fn control_that_was_never_taken_is_not_taken_back() {
    let mut sysfs = hwmon_with_channel(1, "2\n");
    let mut fan = Fan::open(HWMON.to_string(), 1, 200, 3000, 10);
    sysfs.set(&mut fan, Pct(50)).unwrap();
    assert_eq!(sysfs.contents("pwm1_enable"), "2\n");
    assert_eq!(fan.check_health(50), FanHealth::Stalled);
}

#[test]
fn control_that_still_stands_is_left_alone() {
    let mut sysfs = hwmon_with_channel(1, "5\n");
    let mut fan = Fan::open(HWMON.to_string(), 1, 200, 3000, 10);
    sysfs.take_manual_control(&mut fan).unwrap();
    sysfs.put("pwm1_enable", " 1\n");
    assert_eq!(fan.rearm_write(&sysfs.read(&fan.pwm_enable_path())), None);
    assert_eq!(fan.rearm_write(&Err("gone".to_string())), None);
}

// ---- spin-up limits ----

#[test]
fn rise_by_exactly_the_limit_is_small() {
    let mut sysfs = hwmon_with_channel(1, "1\n");
    let mut fan = Fan::open(HWMON.to_string(), 1, 200, 3000, 10);
    sysfs.set(&mut fan, Pct(30)).unwrap();
    sysfs.set(&mut fan, Pct(50)).unwrap();
    assert_eq!(fan.check_health(50), FanHealth::Stalled);
    sysfs.set(&mut fan, Pct(71)).unwrap();
    assert_eq!(fan.check_health(50), FanHealth::SpinUp);
}

#[test]
fn speed_at_the_minimum_does_not_end_a_spin_up() {
    let mut sysfs = hwmon_with_channel(1, "5\n");
    let mut fan = Fan::open(HWMON.to_string(), 1, 200, 3000, 10);
    sysfs.take_manual_control(&mut fan).unwrap();
    fan.tick_spin_up(200, 9);
    assert_eq!(fan.check_health(50), FanHealth::SpinUp);
    assert_eq!(fan.check_health(3001), FanHealth::Overspeed);
    fan.tick_spin_up(201, 0);
    assert_eq!(fan.check_health(50), FanHealth::Stalled);
}
