//! The life of one PWM channel and the health of its fan.
//!
//! A `Fan` knows which sysfs files belong to its channel, what is to be written
//! to them, and what the outcome of each read and write means for its state. The
//! reads and writes themselves are up to its user, who hands their outcomes in.
//!
//! Taking manual control stores the `pwmN_enable` value that was found, and
//! restoring writes exactly that value back: what a value means differs from chip
//! to chip, so none is ever made up. A resume from suspend can take manual control
//! away again; setting a duty therefore looks at `pwmN_enable` first and takes it
//! back where it has drifted.

use crate::config;
use crate::paths;
use crate::text;
use crate::units::{Pct, Pwm};
use crate::units;
use crate::watchdog::FanHealth;
use vstd::prelude::*;
use vstd::string::*;

verus! {

/// The rise of the duty in one step above which a fan gets time to spin up.
pub const SPIN_UP_DELTA_PCT: u8 = 20;

#[derive(Debug, Clone, Copy, PartialEq, Eq, Structural)]
enum SpinUpState {
    Idle,
    Active { elapsed_s: u32 },
}

/// One PWM channel.
pub struct Fan {
    hwmon_path: String,
    pwm_channel: u32,
    min_rpm: u32,
    max_rpm: u32,
    spin_up_grace_s: u32,
    pwm_enable_snapshot: Option<String>,
    last_set_pct: Option<Pct>,
    spin_up_state: SpinUpState,
}

/// The state of a channel. `snapshot` is the `pwmN_enable` value to restore, and
/// `spin_up` the seconds since a spin-up began that is still on.
pub struct FanState {
    pub hwmon_path: Seq<char>,
    pub pwm_channel: u32,
    pub min_rpm: u32,
    pub max_rpm: u32,
    pub spin_up_grace_s: u32,
    pub snapshot: Option<Seq<char>>,
    pub last_set_pct: Option<Pct>,
    pub spin_up: Option<u32>,
}

impl View for Fan {
    type V = FanState;

    closed spec fn view(&self) -> FanState {
        FanState {
            hwmon_path: self.hwmon_path@,
            pwm_channel: self.pwm_channel,
            min_rpm: self.min_rpm,
            max_rpm: self.max_rpm,
            spin_up_grace_s: self.spin_up_grace_s,
            snapshot: config::optional_text(self.pwm_enable_snapshot),
            last_set_pct: self.last_set_pct,
            spin_up: match self.spin_up_state {
                SpinUpState::Idle => None,
                SpinUpState::Active { elapsed_s } => Some(elapsed_s),
            },
        }
    }
}

/// Why a step failed. The sources are messages of the system.
#[derive(Debug, Clone, PartialEq, Eq)]
pub enum FanError {
    Read { path: String, source: String },
    Write { path: String, source: String },
    ParseRpm { path: String, raw: String },
    NoSnapshot,
}

/// The meaning of a `FanError`.
pub enum FanFault {
    Read { path: Seq<char>, source: Seq<char> },
    Write { path: Seq<char>, source: Seq<char> },
    ParseRpm { path: Seq<char>, raw: Seq<char> },
    NoSnapshot,
}

impl View for FanError {
    type V = FanFault;

    open spec fn view(&self) -> FanFault {
        match *self {
            FanError::Read { path, source } => FanFault::Read { path: path@, source: source@ },
            FanError::Write { path, source } => FanFault::Write { path: path@, source: source@ },
            FanError::ParseRpm { path, raw } => FanFault::ParseRpm { path: path@, raw: raw@ },
            FanError::NoSnapshot => FanFault::NoSnapshot,
        }
    }
}

/// The outcome of a step, with the meaning of its error in place of the error.
pub open spec fn outcome<T>(r: Result<T, FanError>) -> Result<T, FanFault> {
    match r {
        Ok(v) => Ok(v),
        Err(e) => Err(e@),
    }
}

/// What a read gave: the contents, or the message of the error.
pub open spec fn read_text(r: Result<String, String>) -> Result<Seq<char>, Seq<char>> {
    match r {
        Ok(s) => Ok(s@),
        Err(m) => Err(m@),
    }
}

/// What a write gave: nothing, or the message of the error.
pub open spec fn write_text(r: Result<(), String>) -> Result<(), Seq<char>> {
    match r {
        Ok(()) => Ok(()),
        Err(m) => Err(m@),
    }
}

/// Text to be written to a file.
#[derive(Debug, Clone, PartialEq, Eq)]
pub struct SysfsWrite {
    pub path: String,
    pub contents: String,
}

impl View for SysfsWrite {
    type V = (Seq<char>, Seq<char>);

    open spec fn view(&self) -> (Seq<char>, Seq<char>) {
        (self.path@, self.contents@)
    }
}

// ---------------------------------------------------------------------------
// Files
// ---------------------------------------------------------------------------

impl FanState {
    /// The file that takes the duty.
    pub open spec fn pwm_path(self) -> Seq<char> {
        paths::joined(self.hwmon_path, "pwm"@ + text::decimal(self.pwm_channel as nat))
    }

    /// The file that takes the mode of the channel.
    pub open spec fn pwm_enable_path(self) -> Seq<char> {
        paths::joined(
            self.hwmon_path,
            "pwm"@ + text::decimal(self.pwm_channel as nat) + "_enable"@,
        )
    }

    /// The file that tells the speed of the fan.
    pub open spec fn fan_input_path(self) -> Seq<char> {
        paths::joined(
            self.hwmon_path,
            "fan"@ + text::decimal(self.pwm_channel as nat) + "_input"@,
        )
    }

    /// Whether manual control was taken and, as far as can be seen, lost.
    pub open spec fn has_drifted(self, observed: Result<Seq<char>, Seq<char>>) -> bool {
        &&& self.snapshot is Some
        &&& observed matches Ok(raw) && text::trimmed(raw) != "1"@
    }

    /// Whether manual control, if it was lost, was taken back.
    pub open spec fn is_armed(
        self,
        observed: Result<Seq<char>, Seq<char>>,
        rearmed: Result<(), Seq<char>>,
    ) -> bool {
        self.has_drifted(observed) ==> rearmed is Ok
    }
}

// ---------------------------------------------------------------------------
// Steps
// ---------------------------------------------------------------------------

/// Taking manual control, given what reading `pwmN_enable` and writing `1` to it
/// gave.
pub open spec fn after_take(
    s: FanState,
    found: Result<Seq<char>, Seq<char>>,
    written: Result<(), Seq<char>>,
) -> (FanState, Result<(), FanFault>) {
    match found {
        Err(source) => (s, Err(FanFault::Read { path: s.pwm_enable_path(), source })),
        Ok(raw) => match written {
            Err(source) => (s, Err(FanFault::Write { path: s.pwm_enable_path(), source })),
            Ok(()) => (
                FanState { snapshot: Some(text::trimmed(raw)), spin_up: Some(0), ..s },
                Ok(()),
            ),
        },
    }
}

/// Taking manual control back where it has drifted.
pub open spec fn after_rearm(
    s: FanState,
    observed: Result<Seq<char>, Seq<char>>,
    rearmed: Result<(), Seq<char>>,
) -> (FanState, Result<(), FanFault>) {
    if !s.has_drifted(observed) {
        (s, Ok(()))
    } else {
        match rearmed {
            Err(source) => (s, Err(FanFault::Write { path: s.pwm_enable_path(), source })),
            Ok(()) => (FanState { spin_up: Some(0), ..s }, Ok(())),
        }
    }
}

/// Whether a new duty is so far above the last one that the fan needs time.
pub open spec fn is_large_rise(last: Option<Pct>, pct: Pct) -> bool {
    last matches Some(l) && pct.0 - l.0 > SPIN_UP_DELTA_PCT
}

/// A duty that was written.
pub open spec fn after_duty(
    s: FanState,
    pct: Pct,
    large_rise: bool,
    written: Result<(), Seq<char>>,
) -> (FanState, Result<(), FanFault>) {
    match written {
        Err(source) => (s, Err(FanFault::Write { path: s.pwm_path(), source })),
        Ok(()) => (
            FanState {
                last_set_pct: Some(pct),
                spin_up: if large_rise {
                    Some(0)
                } else {
                    s.spin_up
                },
                ..s
            },
            Ok(()),
        ),
    }
}

/// Setting a duty, given what looking at `pwmN_enable`, writing `1` to it where it
/// has drifted, and writing the duty gave.
pub open spec fn after_set(
    s: FanState,
    pct: Pct,
    observed: Result<Seq<char>, Seq<char>>,
    rearmed: Result<(), Seq<char>>,
    written: Result<(), Seq<char>>,
) -> (FanState, Result<(), FanFault>) {
    let (armed, r) = after_rearm(s, observed, rearmed);
    match r {
        Err(e) => (armed, Err(e)),
        Ok(()) => after_duty(armed, pct, is_large_rise(s.last_set_pct, pct), written),
    }
}

/// Setting the full duty: as for any duty, but the fan always gets time.
pub open spec fn after_set_max(
    s: FanState,
    observed: Result<Seq<char>, Seq<char>>,
    rearmed: Result<(), Seq<char>>,
    written: Result<(), Seq<char>>,
) -> (FanState, Result<(), FanFault>) {
    let (armed, r) = after_rearm(s, observed, rearmed);
    match r {
        Err(e) => (armed, Err(e)),
        Ok(()) => after_duty(armed, Pct(100), true, written),
    }
}

/// Restoring, given what writing the snapshot gave.
pub open spec fn restored(s: FanState, written: Result<(), Seq<char>>) -> Result<(), FanFault> {
    if s.snapshot is None {
        Err(FanFault::NoSnapshot)
    } else {
        match written {
            Ok(()) => Ok(()),
            Err(source) => Err(FanFault::Write { path: s.pwm_enable_path(), source }),
        }
    }
}

/// The state after a poll that read `rpm`, `elapsed_s` seconds into a spin-up.
pub open spec fn after_tick(s: FanState, rpm: u32, elapsed_s: u32) -> FanState {
    if s.spin_up is None {
        s
    } else if rpm > s.min_rpm || elapsed_s >= s.spin_up_grace_s {
        FanState { spin_up: None, ..s }
    } else {
        FanState { spin_up: Some(elapsed_s), ..s }
    }
}

/// The speed that the contents of `fanN_input` tell.
pub open spec fn rpm_of(s: FanState, found: Result<Seq<char>, Seq<char>>) -> Result<u32, FanFault> {
    match found {
        Err(source) => Err(FanFault::Read { path: s.fan_input_path(), source }),
        Ok(raw) => match text::integer_of(text::trimmed(raw), 0, u32::MAX as int) {
            Ok(v) => Ok(v as u32),
            Err(_) => Err(FanFault::ParseRpm { path: s.fan_input_path(), raw }),
        },
    }
}

/// What a speed says about a fan. Only a slow fan is excused by a spin-up.
pub open spec fn health_of(rpm: u32, min: u32, max: u32, in_spin_up: bool) -> FanHealth {
    if rpm > max {
        FanHealth::Overspeed
    } else if rpm == 0 || rpm < min {
        if in_spin_up {
            FanHealth::SpinUp
        } else {
            FanHealth::Stalled
        }
    } else {
        FanHealth::Healthy
    }
}

impl Fan {
    /// A channel that was not touched yet.
    pub fn open(
        hwmon_path: String,
        pwm_channel: u32,
        min_rpm: u32,
        max_rpm: u32,
        spin_up_grace_s: u32,
    ) -> (r: Self)
        ensures
            r@ == (FanState {
                hwmon_path: hwmon_path@,
                pwm_channel,
                min_rpm,
                max_rpm,
                spin_up_grace_s,
                snapshot: None,
                last_set_pct: None,
                spin_up: None,
            }),
    {
        Fan {
            hwmon_path,
            pwm_channel,
            min_rpm,
            max_rpm,
            spin_up_grace_s,
            pwm_enable_snapshot: None,
            last_set_pct: None,
            spin_up_state: SpinUpState::Idle,
        }
    }

    fn file(&self, prefix: &str, suffix: &str) -> (r: String)
        ensures
            r@ == paths::joined(
                self@.hwmon_path,
                prefix@ + text::decimal(self@.pwm_channel as nat) + suffix@,
            ),
    {
        let mut name: String = prefix.to_string();
        name.append(text::decimal_text(self.pwm_channel as u128).as_str());
        name.append(suffix);
        paths::join(self.hwmon_path.as_str(), name.as_str())
    }

    /// The file that takes the duty.
    pub fn pwm_path(&self) -> (r: String)
        ensures
            r@ == self@.pwm_path(),
    {
        proof {
            reveal_strlit("");
        }
        let r: String = self.file("pwm", "");
        assert("pwm"@ + text::decimal(self@.pwm_channel as nat) + ""@ =~= "pwm"@ + text::decimal(
            self@.pwm_channel as nat,
        ));
        r
    }

    /// The file that takes the mode of the channel.
    pub fn pwm_enable_path(&self) -> (r: String)
        ensures
            r@ == self@.pwm_enable_path(),
    {
        self.file("pwm", "_enable")
    }

    /// The file that tells the speed of the fan.
    pub fn fan_input_path(&self) -> (r: String)
        ensures
            r@ == self@.fan_input_path(),
    {
        self.file("fan", "_input")
    }

    /// The value of `pwmN_enable` that `restore` puts back.
    pub fn pwm_enable_snapshot(&self) -> (r: Option<&str>)
        ensures
            match r {
                Some(s) => self@.snapshot == Some(s@),
                None => self@.snapshot is None,
            },
    {
        match &self.pwm_enable_snapshot {
            Some(s) => Some(s.as_str()),
            None => None,
        }
    }

    fn manual_write(&self) -> (r: SysfsWrite)
        ensures
            r@ == (self@.pwm_enable_path(), "1"@),
    {
        SysfsWrite { path: self.pwm_enable_path(), contents: "1".to_string() }
    }

    /// The write that takes manual control, given what was found in `pwmN_enable`;
    /// none where that could not be read, since there would be nothing to restore.
    pub fn manual_write_after(&self, found: &Result<String, String>) -> (r: Option<SysfsWrite>)
        ensures
            match r {
                Some(w) => *found is Ok && w@ == (self@.pwm_enable_path(), "1"@),
                None => *found is Err,
            },
    {
        match found {
            Ok(_) => Some(self.manual_write()),
            Err(_) => None,
        }
    }

    /// Takes manual control, given what was found in `pwmN_enable` and what the
    /// write of `manual_write_after` came to where there is one. Keeps what was
    /// found, without the white space around it, and lets the fan spin up.
    pub fn take_manual_control(
        &mut self,
        found: Result<String, String>,
        written: Result<(), String>,
    ) -> (r: Result<(), FanError>)
        ensures
            (final(self)@, outcome(r)) == after_take(
                old(self)@,
                read_text(found),
                write_text(written),
            ),
    {
        match found {
            Err(source) => Err(FanError::Read { path: self.pwm_enable_path(), source }),
            Ok(raw) => match written {
                Err(source) => Err(FanError::Write { path: self.pwm_enable_path(), source }),
                Ok(()) => {
                    self.pwm_enable_snapshot = Some(text::trim(raw.as_str()).to_string());
                    self.spin_up_state = SpinUpState::Active { elapsed_s: 0 };
                    Ok(())
                },
            },
        }
    }

    fn drifted(&self, observed: &Result<String, String>) -> (r: bool)
        ensures
            r == self@.has_drifted(read_text(*observed)),
    {
        match (&self.pwm_enable_snapshot, observed) {
            (Some(_), Ok(raw)) => !text::same_text(text::trim(raw.as_str()), "1"),
            _ => false,
        }
    }

    /// The write that takes manual control back, given what was observed in
    /// `pwmN_enable`; none where control was never taken, is still there, or
    /// cannot be seen.
    pub fn rearm_write(&self, observed: &Result<String, String>) -> (r: Option<SysfsWrite>)
        ensures
            match r {
                Some(w) => self@.has_drifted(read_text(*observed)) && w@ == (
                    self@.pwm_enable_path(),
                    "1"@,
                ),
                None => !self@.has_drifted(read_text(*observed)),
            },
    {
        if self.drifted(observed) {
            Some(self.manual_write())
        } else {
            None
        }
    }

    fn rearm(&mut self, observed: &Result<String, String>, rearmed: Result<(), String>) -> (r:
        Result<(), FanError>)
        ensures
            (final(self)@, outcome(r)) == after_rearm(
                old(self)@,
                read_text(*observed),
                write_text(rearmed),
            ),
    {
        if self.drifted(observed) {
            match rearmed {
                Err(source) => return Err(
                    FanError::Write { path: self.pwm_enable_path(), source },
                ),
                Ok(()) => self.spin_up_state = SpinUpState::Active { elapsed_s: 0 },
            }
        }
        Ok(())
    }

    /// The write that sets a duty, given what was observed in `pwmN_enable` and what
    /// the write of `rearm_write` came to where there is one; none where manual control
    /// was lost and could not be taken back, since the chip would ignore the duty.
    pub fn duty_write(
        &self,
        pct: Pct,
        observed: &Result<String, String>,
        rearmed: &Result<(), String>,
    ) -> (r: Option<SysfsWrite>)
        ensures
            match r {
                Some(w) => self@.is_armed(read_text(*observed), write_text(*rearmed)) && w@ == (
                    self@.pwm_path(),
                    text::decimal(units::pwm_of(pct).0 as nat),
                ),
                None => !self@.is_armed(read_text(*observed), write_text(*rearmed)),
            },
    {
        if self.drifted(observed) && rearmed.is_err() {
            return None;
        }
        let pwm: Pwm = Pwm::from(pct);
        Some(SysfsWrite { path: self.pwm_path(), contents: text::decimal_text(pwm.0 as u128) })
    }

    /// Sets a duty, given what was observed in `pwmN_enable`, what the write of
    /// `rearm_write` came to where there is one, and what the write of `duty_write`
    /// came to where there is one. A large rise lets the fan spin up.
    pub fn set(
        &mut self,
        pct: Pct,
        observed: &Result<String, String>,
        rearmed: Result<(), String>,
        written: Result<(), String>,
    ) -> (r: Result<(), FanError>)
        ensures
            (final(self)@, outcome(r)) == after_set(
                old(self)@,
                pct,
                read_text(*observed),
                write_text(rearmed),
                write_text(written),
            ),
    {
        match self.rearm(observed, rearmed) {
            Err(e) => return Err(e),
            Ok(()) => {},
        }
        match written {
            Err(source) => return Err(FanError::Write { path: self.pwm_path(), source }),
            Ok(()) => {},
        }
        match self.last_set_pct {
            Some(last) => {
                let delta: u8 = pct.0.saturating_sub(last.0);
                if delta > SPIN_UP_DELTA_PCT {
                    self.spin_up_state = SpinUpState::Active { elapsed_s: 0 };
                }
            },
            None => {},
        }
        self.last_set_pct = Some(pct);
        Ok(())
    }

    /// The write that sets the full duty, under the same conditions as `duty_write`.
    pub fn max_write(
        &self,
        observed: &Result<String, String>,
        rearmed: &Result<(), String>,
    ) -> (r: Option<SysfsWrite>)
        ensures
            match r {
                Some(w) => self@.is_armed(read_text(*observed), write_text(*rearmed)) && w@ == (
                    self@.pwm_path(),
                    "255"@,
                ),
                None => !self@.is_armed(read_text(*observed), write_text(*rearmed)),
            },
    {
        if self.drifted(observed) && rearmed.is_err() {
            return None;
        }
        Some(SysfsWrite { path: self.pwm_path(), contents: "255".to_string() })
    }

    /// Sets the full duty, whatever the curves say: the answer to a fault. Given
    /// what was observed in `pwmN_enable` and what the writes of `rearm_write` and
    /// `max_write` came to. Records a duty of 100, so that a smaller one afterwards
    /// is no rise.
    pub fn set_max(
        &mut self,
        observed: &Result<String, String>,
        rearmed: Result<(), String>,
        written: Result<(), String>,
    ) -> (r: Result<(), FanError>)
        ensures
            (final(self)@, outcome(r)) == after_set_max(
                old(self)@,
                read_text(*observed),
                write_text(rearmed),
                write_text(written),
            ),
    {
        match self.rearm(observed, rearmed) {
            Err(e) => return Err(e),
            Ok(()) => {},
        }
        match written {
            Err(source) => return Err(FanError::Write { path: self.pwm_path(), source }),
            Ok(()) => {},
        }
        self.last_set_pct = Some(Pct(100));
        self.spin_up_state = SpinUpState::Active { elapsed_s: 0 };
        Ok(())
    }

    /// The speed of the fan, given what reading `fanN_input` gave.
    pub fn read_rpm(&self, found: Result<String, String>) -> (r: Result<u32, FanError>)
        ensures
            outcome(r) == rpm_of(self@, read_text(found)),
    {
        match found {
            Err(source) => Err(FanError::Read { path: self.fan_input_path(), source }),
            Ok(raw) => match text::parse_integer(text::trim(raw.as_str()), 0, 0xffff_ffff) {
                Ok(v) => Ok(v as u32),
                Err(_) => Err(FanError::ParseRpm { path: self.fan_input_path(), raw }),
            },
        }
    }

    /// The write that restores the mode found at the start; none where manual
    /// control was never taken.
    pub fn restore_write(&self) -> (r: Option<SysfsWrite>)
        ensures
            match r {
                Some(w) => self@.snapshot == Some(w@.1) && w@.0 == self@.pwm_enable_path(),
                None => self@.snapshot is None,
            },
    {
        match &self.pwm_enable_snapshot {
            Some(snapshot) => Some(
                SysfsWrite { path: self.pwm_enable_path(), contents: snapshot.clone() },
            ),
            None => None,
        }
    }

    /// Restores the mode found at the start, given what the write of
    /// `restore_write` came to. Without a snapshot there is nothing to restore.
    pub fn restore(&mut self, written: Result<(), String>) -> (r: Result<(), FanError>)
        ensures
            final(self)@ == old(self)@,
            outcome(r) == restored(old(self)@, write_text(written)),
    {
        if self.pwm_enable_snapshot.is_none() {
            return Err(FanError::NoSnapshot);
        }
        match written {
            Ok(()) => Ok(()),
            Err(source) => Err(FanError::Write { path: self.pwm_enable_path(), source }),
        }
    }

    /// Takes note of a poll during a spin-up: it is over once the fan turns faster
    /// than its minimum, or once the grace time has passed.
    pub fn tick_spin_up(&mut self, rpm: u32, elapsed_s: u32)
        ensures
            final(self)@ == after_tick(old(self)@, rpm, elapsed_s),
    {
        match self.spin_up_state {
            SpinUpState::Active { .. } => {
                if rpm > self.min_rpm || elapsed_s >= self.spin_up_grace_s {
                    self.spin_up_state = SpinUpState::Idle;
                } else {
                    self.spin_up_state = SpinUpState::Active { elapsed_s };
                }
            },
            SpinUpState::Idle => {},
        }
    }

    /// What a speed says about this fan now.
    pub fn check_health(&self, rpm: u32) -> (r: FanHealth)
        ensures
            r == health_of(rpm, self@.min_rpm, self@.max_rpm, self@.spin_up is Some),
    {
        let in_spin_up: bool = match self.spin_up_state {
            SpinUpState::Active { .. } => true,
            SpinUpState::Idle => false,
        };
        check_health(rpm, self.min_rpm, self.max_rpm, in_spin_up)
    }
}

/// What a speed says about a fan with the given limits.
pub fn check_health(rpm: u32, min: u32, max: u32, in_spin_up: bool) -> (r: FanHealth)
    ensures
        r == health_of(rpm, min, max, in_spin_up),
{
    if rpm > max {
        FanHealth::Overspeed
    } else if rpm == 0 || rpm < min {
        if in_spin_up {
            FanHealth::SpinUp
        } else {
            FanHealth::Stalled
        }
    } else {
        FanHealth::Healthy
    }
}

// ---------------------------------------------------------------------------
// Laws
// ---------------------------------------------------------------------------

/// A step in the life of a channel after manual control was taken, with the
/// outcomes of its reads and writes.
pub enum FanStep {
    Duty {
        pct: Pct,
        observed: Result<Seq<char>, Seq<char>>,
        rearmed: Result<(), Seq<char>>,
        written: Result<(), Seq<char>>,
    },
    FullDuty {
        observed: Result<Seq<char>, Seq<char>>,
        rearmed: Result<(), Seq<char>>,
        written: Result<(), Seq<char>>,
    },
    Tick { rpm: u32, elapsed_s: u32 },
}

/// The state after a step.
pub open spec fn after_step(s: FanState, step: FanStep) -> FanState {
    match step {
        FanStep::Duty { pct, observed, rearmed, written } => after_set(
            s,
            pct,
            observed,
            rearmed,
            written,
        ).0,
        FanStep::FullDuty { observed, rearmed, written } => after_set_max(
            s,
            observed,
            rearmed,
            written,
        ).0,
        FanStep::Tick { rpm, elapsed_s } => after_tick(s, rpm, elapsed_s),
    }
}

/// The state after a run of steps.
pub open spec fn after_steps(s: FanState, steps: Seq<FanStep>) -> FanState
    decreases steps.len(),
{
    if steps.len() == 0 {
        s
    } else {
        after_step(after_steps(s, steps.drop_last()), steps.last())
    }
}

/// Nothing but taking control touches the snapshot, and nothing ever changes the
/// files and limits of a channel.
pub proof fn steps_keep_the_snapshot(s: FanState, steps: Seq<FanStep>)
    ensures
        after_steps(s, steps).snapshot == s.snapshot,
        after_steps(s, steps).pwm_enable_path() == s.pwm_enable_path(),
        after_steps(s, steps).pwm_path() == s.pwm_path(),
        after_steps(s, steps).fan_input_path() == s.fan_input_path(),
        after_steps(s, steps).min_rpm == s.min_rpm,
        after_steps(s, steps).max_rpm == s.max_rpm,
        after_steps(s, steps).spin_up_grace_s == s.spin_up_grace_s,
    decreases steps.len(),
{
    if steps.len() > 0 {
        steps_keep_the_snapshot(s, steps.drop_last());
    }
}

/// Restoring puts back what was found: after control was taken, and whatever
/// happened since, the value that `restore` writes to `pwmN_enable` is the one
/// that was read there, and the restore succeeds exactly if that write does.
pub proof fn restore_round_trips(
    s: FanState,
    raw: Seq<char>,
    steps: Seq<FanStep>,
    written: Result<(), Seq<char>>,
)
    ensures
        ({
            let (taken, r) = after_take(s, Ok(raw), Ok(()));
            let last = after_steps(taken, steps);
            &&& r is Ok
            &&& last.snapshot == Some(text::trimmed(raw))
            &&& last.pwm_enable_path() == s.pwm_enable_path()
            &&& restored(last, written) is Ok <==> written is Ok
        }),
{
    steps_keep_the_snapshot(after_take(s, Ok(raw), Ok(())).0, steps);
}

/// Restoring never makes a value up: before control was taken there is none, and a
/// failed attempt to take control leaves none behind.
pub proof fn restore_needs_a_snapshot(
    s: FanState,
    found: Result<Seq<char>, Seq<char>>,
    written: Result<(), Seq<char>>,
    steps: Seq<FanStep>,
)
    requires
        s.snapshot is None,
    ensures
        restored(after_steps(s, steps), written) == Err::<(), FanFault>(FanFault::NoSnapshot),
        after_take(s, found, written).1 is Err ==> after_take(s, found, written).0 == s,
{
    steps_keep_the_snapshot(s, steps);
}

/// A step that fails changes nothing that was set: the recorded duty stays.
pub proof fn failed_set_keeps_the_duty(
    s: FanState,
    pct: Pct,
    observed: Result<Seq<char>, Seq<char>>,
    rearmed: Result<(), Seq<char>>,
    written: Result<(), Seq<char>>,
)
    ensures
        after_set(s, pct, observed, rearmed, written).1 is Err ==> after_set(
            s,
            pct,
            observed,
            rearmed,
            written,
        ).0.last_set_pct == s.last_set_pct,
        after_set_max(s, observed, rearmed, written).1 is Err ==> after_set_max(
            s,
            observed,
            rearmed,
            written,
        ).0.last_set_pct == s.last_set_pct,
{
}

/// After the full duty, a step down is no reason to excuse a slow fan: once the
/// spin-up that `set_max` began is over, a duty that is not more than the limit
/// above 100 begins no new one while manual control lasts.
pub proof fn step_down_after_max_is_no_spin_up(
    s: FanState,
    rpm: u32,
    elapsed_s: u32,
    pct: Pct,
    observed: Result<Seq<char>, Seq<char>>,
    rearmed: Result<(), Seq<char>>,
    written: Result<(), Seq<char>>,
)
    requires
        s.last_set_pct == Some(Pct(100)),
        rpm > s.min_rpm || elapsed_s >= s.spin_up_grace_s,
        pct.0 <= 100 + SPIN_UP_DELTA_PCT,
        !s.has_drifted(observed),
    ensures
        after_set(after_tick(s, rpm, elapsed_s), pct, observed, rearmed, written).0.spin_up is None,
{
}

/// Drift is mended: where manual control was taken and is seen to be lost, a
/// successful set has taken it back and lets the fan spin up again.
pub proof fn drift_is_mended(
    s: FanState,
    pct: Pct,
    observed: Result<Seq<char>, Seq<char>>,
    rearmed: Result<(), Seq<char>>,
    written: Result<(), Seq<char>>,
)
    requires
        s.has_drifted(observed),
    ensures
        after_set(s, pct, observed, rearmed, written).1 is Ok ==> rearmed is Ok && after_set(
            s,
            pct,
            observed,
            rearmed,
            written,
        ).0.spin_up == Some(0u32),
        after_set_max(s, observed, rearmed, written).1 is Ok ==> rearmed is Ok && after_set_max(
            s,
            observed,
            rearmed,
            written,
        ).0.spin_up == Some(0u32),
{
}

/// A spin-up excuses a slow fan and nothing else: it turns `Stalled` into `SpinUp`
/// and leaves every other verdict, overspeed above all, as it is.
pub proof fn spin_up_masks_only_stalls(rpm: u32, min: u32, max: u32)
    ensures
        health_of(rpm, min, max, false) == FanHealth::Stalled ==> health_of(rpm, min, max, true)
            == FanHealth::SpinUp,
        health_of(rpm, min, max, false) != FanHealth::Stalled ==> health_of(rpm, min, max, true)
            == health_of(rpm, min, max, false),
        health_of(rpm, min, max, false) != FanHealth::SpinUp,
        rpm > max ==> health_of(rpm, min, max, true) == FanHealth::Overspeed,
        0 < rpm && min <= rpm <= max ==> health_of(rpm, min, max, true) == FanHealth::Healthy,
{
}

/// A spin-up ends: the first poll past the grace time, or above the minimum speed,
/// makes a slow fan count as stalled again.
pub proof fn spin_up_ends(s: FanState, rpm: u32, elapsed_s: u32)
    requires
        rpm > s.min_rpm || elapsed_s >= s.spin_up_grace_s,
    ensures
        after_tick(s, rpm, elapsed_s).spin_up is None,
{
}

/// Manual control counts as lost exactly where it was taken before, `pwmN_enable` could
/// be read, and something else than `1` stands there. A duty is then written only if
/// control could be taken back.
pub proof fn control_is_lost_where_another_mode_stands(
    s: FanState,
    observed: Result<Seq<char>, Seq<char>>,
    rearmed: Result<(), Seq<char>>,
)
    ensures
        s.snapshot is None ==> !s.has_drifted(observed) && s.is_armed(observed, rearmed),
        observed is Err ==> !s.has_drifted(observed) && s.is_armed(observed, rearmed),
        s.snapshot is Some && observed is Ok ==> {
            &&& s.has_drifted(observed) <==> text::trimmed(observed->Ok_0) != "1"@
            &&& s.is_armed(observed, rearmed) <==> text::trimmed(observed->Ok_0) == "1"@
                || rearmed is Ok
        },
{
}

/// Taking control succeeds exactly if `pwmN_enable` can be read and written. It then
/// keeps what was found, without the white space around it, and begins a spin-up;
/// otherwise the failed step is named and nothing changes. The duty, the files and the
/// limits stay as they are either way.
pub proof fn taking_control_keeps_what_was_found(
    s: FanState,
    found: Result<Seq<char>, Seq<char>>,
    written: Result<(), Seq<char>>,
)
    ensures
        ({
            let (t, r) = after_take(s, found, written);
            &&& r is Ok <==> found is Ok && written is Ok
            &&& r is Ok ==> t.snapshot == Some(text::trimmed(found->Ok_0))
            &&& r is Ok ==> t.spin_up == Some(0u32)
            &&& r is Err ==> t == s
            &&& found is Err ==> r == Err::<(), FanFault>(
                FanFault::Read { path: s.pwm_enable_path(), source: found->Err_0 },
            )
            &&& found is Ok && written is Err ==> r == Err::<(), FanFault>(
                FanFault::Write { path: s.pwm_enable_path(), source: written->Err_0 },
            )
            &&& t.last_set_pct == s.last_set_pct
            &&& t.hwmon_path == s.hwmon_path
            &&& t.pwm_channel == s.pwm_channel
            &&& t.min_rpm == s.min_rpm
            &&& t.max_rpm == s.max_rpm
            &&& t.spin_up_grace_s == s.spin_up_grace_s
        }),
{
}

/// Setting a duty records that duty, whatever was set before, and begins a spin-up
/// exactly if the duty is more than 20 points above the one recorded before or control
/// was lost and has been taken back. It succeeds exactly if every write that was due
/// does, and a failure leaves the recorded duty as it was. Nothing else changes.
pub proof fn set_records_the_duty(
    s: FanState,
    pct: Pct,
    observed: Result<Seq<char>, Seq<char>>,
    rearmed: Result<(), Seq<char>>,
    written: Result<(), Seq<char>>,
)
    ensures
        ({
            let (t, r) = after_set(s, pct, observed, rearmed, written);
            let lost = s.snapshot is Some && observed is Ok && text::trimmed(observed->Ok_0)
                != "1"@;
            &&& r is Ok <==> written is Ok && (lost ==> rearmed is Ok)
            &&& r is Ok ==> t.last_set_pct == Some(pct)
            &&& r is Ok && (lost || (s.last_set_pct is Some && (s.last_set_pct->0).0 + 20 < pct.0))
                ==> t.spin_up == Some(0u32)
            &&& r is Ok && !lost && (s.last_set_pct is None || pct.0 <= (s.last_set_pct->0).0 + 20)
                ==> t.spin_up == s.spin_up
            &&& r is Err ==> t.last_set_pct == s.last_set_pct
            &&& r is Err && lost && rearmed is Ok ==> t.spin_up == Some(0u32)
            &&& r is Err && (!lost || rearmed is Err) ==> t.spin_up == s.spin_up
            &&& lost && rearmed is Err ==> r == Err::<(), FanFault>(
                FanFault::Write { path: s.pwm_enable_path(), source: rearmed->Err_0 },
            )
            &&& written is Err && (lost ==> rearmed is Ok) ==> r == Err::<(), FanFault>(
                FanFault::Write { path: s.pwm_path(), source: written->Err_0 },
            )
            &&& t.snapshot == s.snapshot
            &&& t.hwmon_path == s.hwmon_path
            &&& t.pwm_channel == s.pwm_channel
            &&& t.min_rpm == s.min_rpm
            &&& t.max_rpm == s.max_rpm
            &&& t.spin_up_grace_s == s.spin_up_grace_s
        }),
{
}

/// Setting the full duty records a duty of 100 and always begins a spin-up. It
/// succeeds and fails as setting any other duty does.
pub proof fn set_max_records_the_full_duty(
    s: FanState,
    observed: Result<Seq<char>, Seq<char>>,
    rearmed: Result<(), Seq<char>>,
    written: Result<(), Seq<char>>,
)
    ensures
        ({
            let (t, r) = after_set_max(s, observed, rearmed, written);
            let (u, q) = after_set(s, Pct(100), observed, rearmed, written);
            &&& r == q
            &&& r is Ok ==> t.last_set_pct == Some(Pct(100)) && t.spin_up == Some(0u32)
            &&& r is Err ==> t == u
            &&& t.snapshot == s.snapshot
            &&& t.hwmon_path == s.hwmon_path
            &&& t.pwm_channel == s.pwm_channel
            &&& t.min_rpm == s.min_rpm
            &&& t.max_rpm == s.max_rpm
            &&& t.spin_up_grace_s == s.spin_up_grace_s
        }),
{
}

/// A rise of more than 20 points between two duties that were set one after the other
/// excuses a slow fan, whatever was set before them; a smaller rise begins no spin-up
/// while manual control lasts.
pub proof fn rise_between_two_sets_decides(
    s: FanState,
    p: Pct,
    q: Pct,
    observed: Result<Seq<char>, Seq<char>>,
    seen: Result<Seq<char>, Seq<char>>,
    rearmed: Result<(), Seq<char>>,
    taken: Result<(), Seq<char>>,
    rpm: u32,
)
    requires
        after_set(s, p, observed, rearmed, Ok(())).1 is Ok,
        after_set(after_set(s, p, observed, rearmed, Ok(())).0, q, seen, taken, Ok(())).1 is Ok,
    ensures
        ({
            let one = after_set(s, p, observed, rearmed, Ok(())).0;
            let two = after_set(one, q, seen, taken, Ok(())).0;
            &&& two.last_set_pct == Some(q)
            &&& q.0 > p.0 + 20 ==> two.spin_up == Some(0u32)
            &&& q.0 > p.0 + 20 && rpm < s.min_rpm && rpm <= s.max_rpm ==> health_of(
                rpm,
                two.min_rpm,
                two.max_rpm,
                two.spin_up is Some,
            ) == FanHealth::SpinUp
            &&& q.0 <= p.0 + 20 && (seen is Ok ==> text::trimmed(seen->Ok_0) == "1"@)
                ==> two.spin_up == one.spin_up
        }),
{
}

/// A poll during a spin-up ends it exactly if the fan turns faster than its minimum or
/// the grace time has passed; otherwise it notes the time. A poll outside a spin-up
/// changes nothing, and no poll changes anything else.
pub proof fn poll_ends_the_spin_up_or_notes_the_time(s: FanState, rpm: u32, elapsed_s: u32)
    ensures
        ({
            let t = after_tick(s, rpm, elapsed_s);
            &&& t.spin_up is Some <==> s.spin_up is Some && rpm <= s.min_rpm && elapsed_s
                < s.spin_up_grace_s
            &&& t.spin_up is Some ==> t.spin_up == Some(elapsed_s)
            &&& t.snapshot == s.snapshot
            &&& t.last_set_pct == s.last_set_pct
            &&& t.hwmon_path == s.hwmon_path
            &&& t.pwm_channel == s.pwm_channel
            &&& t.min_rpm == s.min_rpm
            &&& t.max_rpm == s.max_rpm
            &&& t.spin_up_grace_s == s.spin_up_grace_s
        }),
{
}

/// A fan is too fast above its maximum; at or below it, it is healthy from its minimum
/// on unless it stands still. Any other fan is stalled, or spins up while that lasts.
pub proof fn health_is_decided_by_the_limits(rpm: u32, min: u32, max: u32, in_spin_up: bool)
    ensures
        health_of(rpm, min, max, in_spin_up) == FanHealth::Overspeed <==> rpm > max,
        health_of(rpm, min, max, in_spin_up) == FanHealth::Healthy <==> 0 < rpm && min <= rpm
            <= max,
        health_of(rpm, min, max, in_spin_up) == FanHealth::Stalled <==> rpm <= max && (rpm == 0
            || rpm < min) && !in_spin_up,
        health_of(rpm, min, max, in_spin_up) == FanHealth::SpinUp <==> rpm <= max && (rpm == 0
            || rpm < min) && in_spin_up,
{
}

/// The speed of a fan is the number that `fanN_input` holds, with white space around
/// it or not; what is no such number, and what cannot be read, is an error that names
/// the file.
pub proof fn speed_is_the_number_in_the_file(s: FanState, rpm: u32, raw: Seq<char>, m: Seq<char>)
    ensures
        rpm_of(s, Ok(text::decimal(rpm as nat))) == Ok::<u32, FanFault>(rpm),
        rpm_of(s, Ok(raw)) == Ok::<u32, FanFault>(rpm) <==> text::integer_of(
            text::trimmed(raw),
            0,
            0xffff_ffff,
        ) == Ok::<int, text::IntError>(rpm as int),
        rpm_of(s, Ok(raw)) is Err <==> text::integer_of(text::trimmed(raw), 0, 0xffff_ffff) is Err,
        rpm_of(s, Ok(raw)) is Err ==> rpm_of(s, Ok(raw)) == Err::<u32, FanFault>(
            FanFault::ParseRpm { path: s.fan_input_path(), raw },
        ),
        rpm_of(s, Err(m)) == Err::<u32, FanFault>(
            FanFault::Read { path: s.fan_input_path(), source: m },
        ),
{
    text::decimal_reads_back(rpm as int, 0, 0xffff_ffff);
    text::decimal_has_no_white_space(rpm as nat);
    text::integers_stay_in_range(text::trimmed(raw), 0, 0xffff_ffff);
}

/// Restoring fails without a snapshot, and else exactly as the write does.
pub proof fn restore_follows_its_write(s: FanState, m: Seq<char>)
    ensures
        s.snapshot is None ==> restored(s, Ok(())) == Err::<(), FanFault>(FanFault::NoSnapshot)
            && restored(s, Err(m)) == Err::<(), FanFault>(FanFault::NoSnapshot),
        s.snapshot is Some ==> restored(s, Ok(())) == Ok::<(), FanFault>(()) && restored(s, Err(m))
            == Err::<(), FanFault>(FanFault::Write { path: s.pwm_enable_path(), source: m }),
{
}

/// The files of a channel stand in its directory: `pwmN`, `pwmN_enable` and
/// `fanN_input` behind one slash, where `N` is the channel.
pub proof fn files_bear_the_number_of_the_channel(s: FanState)
    ensures
        ({
            let dir = s.hwmon_path;
            let n = text::signed_decimal(s.pwm_channel as int);
            &&& dir.len() > 0 && dir[dir.len() - 1] != '/' ==> {
                &&& s.pwm_path() == dir + "/pwm"@ + n
                &&& s.pwm_enable_path() == dir + "/pwm"@ + n + "_enable"@
                &&& s.fan_input_path() == dir + "/fan"@ + n + "_input"@
            }
            &&& dir.len() == 0 || dir[dir.len() - 1] == '/' ==> {
                &&& s.pwm_path() == dir + "pwm"@ + n
                &&& s.pwm_enable_path() == dir + "pwm"@ + n + "_enable"@
                &&& s.fan_input_path() == dir + "fan"@ + n + "_input"@
            }
        }),
{
    let dir = s.hwmon_path;
    let n = text::decimal(s.pwm_channel as nat);
    reveal_strlit("pwm");
    reveal_strlit("fan");
    reveal_strlit("/pwm");
    reveal_strlit("/fan");
    reveal_strlit("_enable");
    reveal_strlit("_input");
    assert("/pwm"@ =~= seq!['/'] + "pwm"@);
    assert("/fan"@ =~= seq!['/'] + "fan"@);
    if dir.len() > 0 && dir.last() != '/' {
        assert(s.pwm_path() =~= dir + "/pwm"@ + n);
        assert(s.pwm_enable_path() =~= dir + "/pwm"@ + n + "_enable"@);
        assert(s.fan_input_path() =~= dir + "/fan"@ + n + "_input"@);
    } else {
        assert(s.pwm_path() =~= dir + "pwm"@ + n);
        assert(s.pwm_enable_path() =~= dir + "pwm"@ + n + "_enable"@);
        assert(s.fan_input_path() =~= dir + "fan"@ + n + "_input"@);
    }
}

/// An error means what its fields hold, and an outcome is its value or the meaning of its
/// error.
pub proof fn fan_errors_mean_what_they_hold(p: String, m: String, e: FanError, rpm: u32)
    ensures
        (FanError::Read { path: p, source: m })@ == (FanFault::Read { path: p@, source: m@ }),
        (FanError::Write { path: p, source: m })@ == (FanFault::Write { path: p@, source: m@ }),
        (FanError::ParseRpm { path: p, raw: m })@ == (FanFault::ParseRpm { path: p@, raw: m@ }),
        FanError::NoSnapshot@ == FanFault::NoSnapshot,
        outcome(Ok::<u32, FanError>(rpm)) == Ok::<u32, FanFault>(rpm),
        outcome(Err::<u32, FanError>(e)) == Err::<u32, FanFault>(e@),
        outcome(Ok::<(), FanError>(())) == Ok::<(), FanFault>(()),
        outcome(Err::<(), FanError>(e)) == Err::<(), FanFault>(e@),
        read_text(Ok(m)) == Ok::<Seq<char>, Seq<char>>(m@),
        read_text(Err(m)) == Err::<Seq<char>, Seq<char>>(m@),
        write_text(Ok(())) == Ok::<(), Seq<char>>(()),
        write_text(Err(m)) == Err::<(), Seq<char>>(m@),
{
}

} // verus!
