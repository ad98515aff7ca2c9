//! The configuration: its types, what they mean, and the errors that reading or
//! checking a configuration can give.
//!
//! `parse` turns the text of a configuration file into a `Config` and stops at
//! the first error. `validate` then tests every rule and reports all that are
//! broken. A key that no section knows is no error: it becomes a `Warning`.

use crate::curve::{Curve, CurveError};
use crate::text;
use crate::units::{Celsius, Pct};
use vstd::prelude::*;
use vstd::string::*;

pub use crate::rules::validate;
pub use crate::schema::{load, parse};

verus! {

/// The version of the configuration format that this daemon reads.
pub const CONFIG_VERSION_SUPPORTED: u32 = 1;

/// How much is logged.
#[derive(Debug, Clone, Copy, PartialEq, Eq, Structural)]
pub enum LogLevel {
    Debug,
    Info,
    Warn,
    Error,
}

impl LogLevel {
    /// The level as the configuration writes it.
    pub open spec fn text(self) -> Seq<char> {
        match self {
            LogLevel::Debug => "debug"@,
            LogLevel::Info => "info"@,
            LogLevel::Warn => "warn"@,
            LogLevel::Error => "error"@,
        }
    }

    /// The level as the configuration writes it.
    pub fn as_str(&self) -> (r: &'static str)
        ensures
            r@ == self.text(),
    {
        match self {
            LogLevel::Debug => "debug",
            LogLevel::Info => "info",
            LogLevel::Warn => "warn",
            LogLevel::Error => "error",
        }
    }
}

/// The text of an optional string.
pub open spec fn optional_text(s: Option<String>) -> Option<Seq<char>> {
    match s {
        Some(t) => Some(t@),
        None => None,
    }
}

/// How often power limits are re-asserted where the configuration does not say, in
/// seconds.
pub const DEFAULT_POWER_LIMIT_CHECK_INTERVAL_S: u32 = 120;

/// Whether power limits are given back on shutdown where the configuration does not
/// say.
pub const DEFAULT_POWER_LIMIT_RESTORE_ON_SHUTDOWN: bool = false;

/// The largest power limit that is not taken for a typing error where the
/// configuration does not say, in watts.
pub const DEFAULT_POWER_LIMIT_VALIDATE_MAX_W: u32 = 1000;

/// The `[global]` section. `log_file` is a path.
#[derive(Debug, Clone)]
pub struct GlobalConfig {
    pub config_version: u32,
    pub poll_interval_ms: u32,
    pub log_level: LogLevel,
    pub log_file: Option<String>,
    pub power_limit_check_interval_s: u32,
    pub power_limit_restore_on_shutdown: bool,
    pub power_limit_validate_max_w: u32,
}

/// The meaning of a `GlobalConfig`.
pub struct GlobalModel {
    pub config_version: u32,
    pub poll_interval_ms: u32,
    pub log_level: LogLevel,
    pub log_file: Option<Seq<char>>,
    pub power_limit_check_interval_s: u32,
    pub power_limit_restore_on_shutdown: bool,
    pub power_limit_validate_max_w: u32,
}

impl View for GlobalConfig {
    type V = GlobalModel;

    open spec fn view(&self) -> GlobalModel {
        GlobalModel {
            config_version: self.config_version,
            poll_interval_ms: self.poll_interval_ms,
            log_level: self.log_level,
            log_file: optional_text(self.log_file),
            power_limit_check_interval_s: self.power_limit_check_interval_s,
            power_limit_restore_on_shutdown: self.power_limit_restore_on_shutdown,
            power_limit_validate_max_w: self.power_limit_validate_max_w,
        }
    }
}

/// The `[watchdog]` section. `device` is a path.
#[derive(Debug, Clone)]
pub struct WatchdogConfig {
    pub enabled: bool,
    pub device: String,
    pub timeout_s: u32,
    pub gpu_fail_threshold: u32,
}

/// The meaning of a `WatchdogConfig`.
pub struct WatchdogModel {
    pub enabled: bool,
    pub device: Seq<char>,
    pub timeout_s: u32,
    pub gpu_fail_threshold: u32,
}

impl View for WatchdogConfig {
    type V = WatchdogModel;

    open spec fn view(&self) -> WatchdogModel {
        WatchdogModel {
            enabled: self.enabled,
            device: self.device@,
            timeout_s: self.timeout_s,
            gpu_fail_threshold: self.gpu_fail_threshold,
        }
    }
}

/// A `[gpu:ID]` section. The power limit is in watts, and is enforced where it is
/// enabled.
#[derive(Debug, Clone)]
pub struct GpuConfig {
    pub id: String,
    pub nvml_index: u32,
    pub curve: Curve,
    pub min_fan_pct: Pct,
    pub max_fan_pct: Pct,
    pub power_limit_enabled: bool,
    pub power_limit_w: Option<u32>,
}

/// The meaning of a `GpuConfig`.
pub struct GpuModel {
    pub id: Seq<char>,
    pub nvml_index: u32,
    pub curve: Seq<(Celsius, Pct)>,
    pub min_fan_pct: Pct,
    pub max_fan_pct: Pct,
    pub power_limit_enabled: bool,
    pub power_limit_w: Option<u32>,
}

impl View for GpuConfig {
    type V = GpuModel;

    open spec fn view(&self) -> GpuModel {
        GpuModel {
            id: self.id@,
            nvml_index: self.nvml_index,
            curve: self.curve@,
            min_fan_pct: self.min_fan_pct,
            max_fan_pct: self.max_fan_pct,
            power_limit_enabled: self.power_limit_enabled,
            power_limit_w: self.power_limit_w,
        }
    }
}

/// A `[fan:ID]` section. `device_path` and `hwmon_path` are paths.
#[derive(Debug, Clone)]
pub struct FanConfig {
    pub id: String,
    pub chip: Option<String>,
    pub device_path: Option<String>,
    pub hwmon_path: Option<String>,
    pub pwm_channel: u32,
    pub min_rpm: u32,
    pub max_rpm: u32,
    pub fan_fail_threshold: u32,
    pub spin_up_grace_s: u32,
}

/// The meaning of a `FanConfig`.
pub struct FanModel {
    pub id: Seq<char>,
    pub chip: Option<Seq<char>>,
    pub device_path: Option<Seq<char>>,
    pub hwmon_path: Option<Seq<char>>,
    pub pwm_channel: u32,
    pub min_rpm: u32,
    pub max_rpm: u32,
    pub fan_fail_threshold: u32,
    pub spin_up_grace_s: u32,
}

impl View for FanConfig {
    type V = FanModel;

    open spec fn view(&self) -> FanModel {
        FanModel {
            id: self.id@,
            chip: optional_text(self.chip),
            device_path: optional_text(self.device_path),
            hwmon_path: optional_text(self.hwmon_path),
            pwm_channel: self.pwm_channel,
            min_rpm: self.min_rpm,
            max_rpm: self.max_rpm,
            fan_fail_threshold: self.fan_fail_threshold,
            spin_up_grace_s: self.spin_up_grace_s,
        }
    }
}

/// A `[group:ID]` section.
#[derive(Debug, Clone)]
pub struct GroupConfig {
    pub id: String,
    pub gpus: Vec<String>,
    pub fans: Vec<String>,
}

/// The meaning of a `GroupConfig`.
pub struct GroupModel {
    pub id: Seq<char>,
    pub gpus: Seq<Seq<char>>,
    pub fans: Seq<Seq<char>>,
}

impl View for GroupConfig {
    type V = GroupModel;

    open spec fn view(&self) -> GroupModel {
        GroupModel {
            id: self.id@,
            gpus: text::strings(self.gpus@),
            fans: text::strings(self.fans@),
        }
    }
}

/// A whole configuration.
#[derive(Debug, Clone)]
pub struct Config {
    pub global: GlobalConfig,
    pub watchdog: WatchdogConfig,
    pub gpus: Vec<GpuConfig>,
    pub fans: Vec<FanConfig>,
    pub groups: Vec<GroupConfig>,
}

/// The meaning of a `Config`.
pub struct ConfigModel {
    pub global: GlobalModel,
    pub watchdog: WatchdogModel,
    pub gpus: Seq<GpuModel>,
    pub fans: Seq<FanModel>,
    pub groups: Seq<GroupModel>,
}

/// The meaning of a list of GPUs.
pub open spec fn gpu_models(gpus: Seq<GpuConfig>) -> Seq<GpuModel> {
    gpus.map_values(|g: GpuConfig| g@)
}

/// The meaning of a list of fans.
pub open spec fn fan_models(fans: Seq<FanConfig>) -> Seq<FanModel> {
    fans.map_values(|f: FanConfig| f@)
}

/// The meaning of a list of groups.
pub open spec fn group_models(groups: Seq<GroupConfig>) -> Seq<GroupModel> {
    groups.map_values(|g: GroupConfig| g@)
}

impl View for Config {
    type V = ConfigModel;

    open spec fn view(&self) -> ConfigModel {
        ConfigModel {
            global: self.global@,
            watchdog: self.watchdog@,
            gpus: gpu_models(self.gpus@),
            fans: fan_models(self.fans@),
            groups: group_models(self.groups@),
        }
    }
}

/// Something odd in a configuration that does not make it unusable.
#[derive(Debug, Clone, PartialEq, Eq)]
pub struct Warning {
    pub section: String,
    pub key: String,
    pub message: String,
}

/// The meaning of a `Warning`.
pub struct Notice {
    pub section: Seq<char>,
    pub key: Seq<char>,
    pub message: Seq<char>,
}

impl View for Warning {
    type V = Notice;

    open spec fn view(&self) -> Notice {
        Notice { section: self.section@, key: self.key@, message: self.message@ }
    }
}

/// The meaning of a list of warnings.
pub open spec fn notices(warnings: Seq<Warning>) -> Seq<Notice> {
    warnings.map_values(|w: Warning| w@)
}

/// A broken rule.
#[derive(Debug, Clone, PartialEq, Eq)]
pub struct ValidationError {
    pub rule: &'static str,
    pub section: Option<String>,
    pub key: Option<String>,
    pub message: String,
}

/// The meaning of a `ValidationError`.
pub struct Violation {
    pub rule: Seq<char>,
    pub section: Option<Seq<char>>,
    pub key: Option<Seq<char>>,
    pub message: Seq<char>,
}

impl View for ValidationError {
    type V = Violation;

    open spec fn view(&self) -> Violation {
        Violation {
            rule: self.rule@,
            section: optional_text(self.section),
            key: optional_text(self.key),
            message: self.message@,
        }
    }
}

/// The meaning of a list of broken rules.
pub open spec fn violations_in(errs: Seq<ValidationError>) -> Seq<Violation> {
    errs.map_values(|e: ValidationError| e@)
}

impl Violation {
    /// The line that reports the broken rule.
    pub open spec fn text(self) -> Seq<char> {
        let head = "["@ + self.rule + "]"@;
        let with_section = match self.section {
            Some(s) => head + " section="@ + s,
            None => head,
        };
        let with_key = match self.key {
            Some(k) => with_section + " key="@ + k,
            None => with_section,
        };
        with_key + ": "@ + self.message
    }
}

impl ValidationError {
    /// The line that reports the broken rule.
    pub fn describe(&self) -> (r: String)
        ensures
            r@ == self@.text(),
    {
        let mut r: String = "[".to_string();
        r.append(self.rule);
        r.append("]");
        match &self.section {
            Some(s) => {
                r.append(" section=");
                r.append(s.as_str());
            },
            None => {},
        }
        match &self.key {
            Some(k) => {
                r.append(" key=");
                r.append(k.as_str());
            },
            None => {},
        }
        r.append(": ");
        r.append(self.message.as_str());
        r
    }
}

/// The reports of broken rules, one per line.
pub open spec fn report_text(vs: Seq<Violation>) -> Seq<char> {
    text::joined(vs.map_values(|v: Violation| "  - "@ + v.text()), "\n"@)
}

/// Lists broken rules, one per line.
pub fn format_errors(errs: &Vec<ValidationError>) -> (r: String)
    ensures
        r@ == report_text(violations_in(errs@)),
{
    let ghost lines = violations_in(errs@).map_values(|v: Violation| "  - "@ + v.text());
    let mut r: String = String::new();
    let mut i: usize = 0;
    assert(r@ =~= text::joined(lines.take(0), "\n"@));
    while i < errs.len()
        invariant
            i <= errs.len(),
            lines == violations_in(errs@).map_values(|v: Violation| "  - "@ + v.text()),
            r@ == text::joined(lines.take(i as int), "\n"@),
        decreases errs.len() - i,
    {
        assert(lines.take(i + 1).drop_last() =~= lines.take(i as int));
        assert(lines[i as int] == "  - "@ + errs@[i as int]@.text());
        if i > 0 {
            r.append("\n");
        }
        let mut line: String = "  - ".to_string();
        line.append(errs[i].describe().as_str());
        r.append(line.as_str());
        i = i + 1;
    }
    assert(lines.take(i as int) =~= lines);
    r
}

/// Why a configuration cannot be used.
#[derive(Debug)]
#[allow(inconsistent_fields)]
pub enum ConfigError {
    Ini(String),
    MissingSection(String),
    MissingKey { section: String, key: String },
    InvalidValue { section: String, key: String, message: String },
    UnknownSection(String),
    Curve { id: String, source: CurveError },
    Validation(Vec<ValidationError>),
    Io(String),
}

/// The meaning of a `ConfigError`.
#[allow(inconsistent_fields)]
pub enum ConfigFault {
    Ini(Seq<char>),
    MissingSection(Seq<char>),
    MissingKey { section: Seq<char>, key: Seq<char> },
    InvalidValue { section: Seq<char>, key: Seq<char>, message: Seq<char> },
    UnknownSection(Seq<char>),
    Curve { id: Seq<char>, source: CurveError },
    Validation(Seq<Violation>),
    Io(Seq<char>),
}

impl View for ConfigError {
    type V = ConfigFault;

    open spec fn view(&self) -> ConfigFault {
        match *self {
            ConfigError::Ini(m) => ConfigFault::Ini(m@),
            ConfigError::MissingSection(s) => ConfigFault::MissingSection(s@),
            ConfigError::MissingKey { section, key } => ConfigFault::MissingKey {
                section: section@,
                key: key@,
            },
            ConfigError::InvalidValue { section, key, message } => ConfigFault::InvalidValue {
                section: section@,
                key: key@,
                message: message@,
            },
            ConfigError::UnknownSection(s) => ConfigFault::UnknownSection(s@),
            ConfigError::Curve { id, source } => ConfigFault::Curve { id: id@, source },
            ConfigError::Validation(errs) => ConfigFault::Validation(violations_in(errs@)),
            ConfigError::Io(m) => ConfigFault::Io(m@),
        }
    }
}

impl ConfigFault {
    /// The message for the user.
    pub open spec fn text(self) -> Seq<char> {
        match self {
            ConfigFault::Ini(m) => "INI parse error: "@ + m,
            ConfigFault::MissingSection(s) => "missing required section ["@ + s + "]"@,
            ConfigFault::MissingKey { section, key } => "missing required key '"@ + key
                + "' in section ["@ + section + "]"@,
            ConfigFault::InvalidValue { section, key, message } => "invalid value for '"@ + key
                + "' in section ["@ + section + "]: "@ + message,
            ConfigFault::UnknownSection(s) => "unknown section header ["@ + s
                + "] (T1) — only [global], [watchdog], [gpu:N], [fan:ID], [group:ID] are recognised"@,
            ConfigFault::Curve { id, source } => "invalid fan curve in [gpu:"@ + id + "]: "@
                + source.text(),
            ConfigFault::Validation(vs) => "validation failed with "@ + text::decimal(vs.len())
                + " error(s):\n"@ + report_text(vs),
            ConfigFault::Io(m) => "I/O error reading config file: "@ + m,
        }
    }
}

impl ConfigError {
    /// The message for the user.
    pub fn describe(&self) -> (r: String)
        ensures
            r@ == self@.text(),
    {
        match self {
            ConfigError::Ini(m) => {
                let mut r: String = "INI parse error: ".to_string();
                r.append(m.as_str());
                r
            },
            ConfigError::MissingSection(s) => {
                let mut r: String = "missing required section [".to_string();
                r.append(s.as_str());
                r.append("]");
                r
            },
            ConfigError::MissingKey { section, key } => {
                let mut r: String = "missing required key '".to_string();
                r.append(key.as_str());
                r.append("' in section [");
                r.append(section.as_str());
                r.append("]");
                r
            },
            ConfigError::InvalidValue { section, key, message } => {
                let mut r: String = "invalid value for '".to_string();
                r.append(key.as_str());
                r.append("' in section [");
                r.append(section.as_str());
                r.append("]: ");
                r.append(message.as_str());
                r
            },
            ConfigError::UnknownSection(s) => {
                let mut r: String = "unknown section header [".to_string();
                r.append(s.as_str());
                r.append(
                    "] (T1) — only [global], [watchdog], [gpu:N], [fan:ID], [group:ID] are recognised",
                );
                r
            },
            ConfigError::Curve { id, source } => {
                let mut r: String = "invalid fan curve in [gpu:".to_string();
                r.append(id.as_str());
                r.append("]: ");
                r.append(source.describe().as_str());
                r
            },
            ConfigError::Validation(errs) => {
                let mut r: String = "validation failed with ".to_string();
                r.append(text::decimal_text(errs.len() as u128).as_str());
                r.append(" error(s):\n");
                r.append(format_errors(errs).as_str());
                r
            },
            ConfigError::Io(m) => {
                let mut r: String = "I/O error reading config file: ".to_string();
                r.append(m.as_str());
                r
            },
        }
    }
}

/// The report of a broken rule holds its code in brackets, then the section and the key
/// where there are any, and then the message.
pub proof fn report_names_rule_section_and_key(
    rule: Seq<char>,
    section: Seq<char>,
    key: Seq<char>,
    message: Seq<char>,
)
    ensures
        (Violation { rule, section: None, key: None, message }).text() == "["@ + rule + "]: "@
            + message,
        (Violation { rule, section: Some(section), key: None, message }).text() == "["@ + rule
            + "] section="@ + section + ": "@ + message,
        (Violation { rule, section: None, key: Some(key), message }).text() == "["@ + rule
            + "] key="@ + key + ": "@ + message,
        (Violation { rule, section: Some(section), key: Some(key), message }).text() == "["@ + rule
            + "] section="@ + section + " key="@ + key + ": "@ + message,
{
    reveal_strlit("]");
    reveal_strlit(": ");
    reveal_strlit("]: ");
    reveal_strlit(" section=");
    reveal_strlit("] section=");
    reveal_strlit(" key=");
    reveal_strlit("] key=");
    assert("]: "@ =~= "]"@ + ": "@);
    assert("] section="@ =~= "]"@ + " section="@);
    assert("] key="@ =~= "]"@ + " key="@);
    assert("["@ + rule + "]: "@ + message =~= "["@ + rule + "]"@ + ": "@ + message);
    assert("["@ + rule + "] section="@ + section + ": "@ + message =~= "["@ + rule + "]"@
        + " section="@ + section + ": "@ + message);
    assert("["@ + rule + "] key="@ + key + ": "@ + message =~= "["@ + rule + "]"@ + " key="@ + key
        + ": "@ + message);
    assert("["@ + rule + "] section="@ + section + " key="@ + key + ": "@ + message =~= "["@ + rule
        + "]"@ + " section="@ + section + " key="@ + key + ": "@ + message);
}

/// The reports stand one per line, each behind a dash.
pub proof fn reports_stand_one_per_line(vs: Seq<Violation>, v: Violation)
    ensures
        report_text(Seq::<Violation>::empty()) == Seq::<char>::empty(),
        report_text(seq![v]) == "  - "@ + v.text(),
        vs.len() > 0 ==> report_text(vs.push(v)) == report_text(vs) + "\n  - "@ + v.text(),
{
    let line = |w: Violation| "  - "@ + w.text();
    reveal_strlit("\n");
    reveal_strlit("  - ");
    reveal_strlit("\n  - ");
    assert("\n  - "@ =~= "\n"@ + "  - "@);
    assert(Seq::<Violation>::empty().map_values(line) =~= Seq::<Seq<char>>::empty());
    assert(seq![v].map_values(line) =~= seq!["  - "@ + v.text()]);
    assert(vs.push(v).map_values(line) =~= vs.map_values(line).push("  - "@ + v.text()));
    text::joining_puts_the_separator_between(vs.map_values(line), "  - "@ + v.text(), "\n"@);
    assert(report_text(vs) + "\n"@ + ("  - "@ + v.text()) =~= report_text(vs) + "\n  - "@
        + v.text());
}

/// What a configuration means is what its fields hold.
pub proof fn meaning_shows_every_field(
    g: GlobalConfig,
    w: WatchdogConfig,
    p: GpuConfig,
    f: FanConfig,
    u: GroupConfig,
)
    ensures
        g@.config_version == g.config_version,
        g@.poll_interval_ms == g.poll_interval_ms,
        g@.log_level == g.log_level,
        g@.log_file is Some <==> g.log_file is Some,
        g.log_file is Some ==> g@.log_file->0 == g.log_file->0@,
        g@.power_limit_check_interval_s == g.power_limit_check_interval_s,
        g@.power_limit_restore_on_shutdown == g.power_limit_restore_on_shutdown,
        g@.power_limit_validate_max_w == g.power_limit_validate_max_w,
        w@.enabled == w.enabled,
        w@.device == w.device@,
        w@.timeout_s == w.timeout_s,
        w@.gpu_fail_threshold == w.gpu_fail_threshold,
        p@.id == p.id@,
        p@.nvml_index == p.nvml_index,
        p@.curve == p.curve@,
        p@.min_fan_pct == p.min_fan_pct,
        p@.max_fan_pct == p.max_fan_pct,
        p@.power_limit_enabled == p.power_limit_enabled,
        p@.power_limit_w == p.power_limit_w,
        f@.id == f.id@,
        f@.chip is Some <==> f.chip is Some,
        f.chip is Some ==> f@.chip->0 == f.chip->0@,
        f@.device_path is Some <==> f.device_path is Some,
        f.device_path is Some ==> f@.device_path->0 == f.device_path->0@,
        f@.hwmon_path is Some <==> f.hwmon_path is Some,
        f.hwmon_path is Some ==> f@.hwmon_path->0 == f.hwmon_path->0@,
        f@.pwm_channel == f.pwm_channel,
        f@.min_rpm == f.min_rpm,
        f@.max_rpm == f.max_rpm,
        f@.fan_fail_threshold == f.fan_fail_threshold,
        f@.spin_up_grace_s == f.spin_up_grace_s,
        u@.id == u.id@,
        u@.gpus.len() == u.gpus@.len(),
        u@.fans.len() == u.fans@.len(),
        forall|i: int| 0 <= i < u.gpus@.len() ==> #[trigger] u@.gpus[i] == u.gpus@[i]@,
        forall|i: int| 0 <= i < u.fans@.len() ==> #[trigger] u@.fans[i] == u.fans@[i]@,
{
}

/// A message names what is wrong and where: the section, the key, the id and the cause, as
/// far as there are any.
pub proof fn messages_name_what_is_wrong(
    section: Seq<char>,
    key: Seq<char>,
    cause: Seq<char>,
    source: CurveError,
    vs: Seq<Violation>,
)
    ensures
        ConfigFault::Ini(cause).text() == "INI parse error: "@ + cause,
        ConfigFault::Io(cause).text() == "I/O error reading config file: "@ + cause,
        ConfigFault::MissingSection(section).text() == "missing required section ["@ + section
            + "]"@,
        (ConfigFault::MissingKey { section, key }).text() == "missing required key '"@ + key
            + "' in section ["@ + section + "]"@,
        (ConfigFault::InvalidValue { section, key, message: cause }).text()
            == "invalid value for '"@ + key + "' in section ["@ + section + "]: "@ + cause,
        ConfigFault::UnknownSection(section).text() == "unknown section header ["@ + section
            + "] (T1) — only [global], [watchdog], [gpu:N], [fan:ID], [group:ID] are recognised"@,
        (ConfigFault::Curve { id: section, source }).text() == "invalid fan curve in [gpu:"@
            + section + "]: "@ + source.text(),
        ConfigFault::Validation(vs).text() == "validation failed with "@ + text::signed_decimal(
            vs.len() as int,
        ) + " error(s):\n"@ + report_text(vs),
{
}

/// A log level is written as the configuration writes it.
pub proof fn levels_are_written_as_configured()
    ensures
        LogLevel::Debug.text() == "debug"@,
        LogLevel::Info.text() == "info"@,
        LogLevel::Warn.text() == "warn"@,
        LogLevel::Error.text() == "error"@,
{
}

/// A broken rule and an error mean what their fields hold.
pub proof fn errors_mean_what_they_hold(
    v: ValidationError,
    a: String,
    b: String,
    m: String,
    source: CurveError,
    errs: Vec<ValidationError>,
)
    ensures
        v@.rule == v.rule@,
        v@.section is Some <==> v.section is Some,
        v.section is Some ==> v@.section->0 == v.section->0@,
        v@.key is Some <==> v.key is Some,
        v.key is Some ==> v@.key->0 == v.key->0@,
        v@.message == v.message@,
        ConfigError::Ini(m)@ == ConfigFault::Ini(m@),
        ConfigError::Io(m)@ == ConfigFault::Io(m@),
        ConfigError::MissingSection(m)@ == ConfigFault::MissingSection(m@),
        ConfigError::UnknownSection(m)@ == ConfigFault::UnknownSection(m@),
        (ConfigError::MissingKey { section: a, key: b })@ == (ConfigFault::MissingKey {
            section: a@,
            key: b@,
        }),
        (ConfigError::InvalidValue { section: a, key: b, message: m })@ == (
        ConfigFault::InvalidValue { section: a@, key: b@, message: m@ }),
        (ConfigError::Curve { id: a, source })@ == (ConfigFault::Curve { id: a@, source }),
        ConfigError::Validation(errs)@ is Validation,
        ConfigError::Validation(errs)@->Validation_0.len() == errs@.len(),
        forall|i: int|
            0 <= i < errs@.len() ==> #[trigger] ConfigError::Validation(errs)@->Validation_0[i]
                == errs@[i]@,
{
}

} // verus!
