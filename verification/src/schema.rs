//! From the sections of a document to a configuration.

use crate::config::{
    Config, ConfigError, ConfigFault, ConfigModel, FanConfig, FanModel, GlobalConfig, GlobalModel,
    GpuConfig, GpuModel, GroupConfig, GroupModel, LogLevel, Notice, Warning, WatchdogConfig,
    WatchdogModel, DEFAULT_POWER_LIMIT_CHECK_INTERVAL_S, DEFAULT_POWER_LIMIT_RESTORE_ON_SHUTDOWN,
    DEFAULT_POWER_LIMIT_VALIDATE_MAX_W,
};
use crate::config;
use crate::curve::Curve;
use crate::curve;
use crate::document::Section;
use crate::document;
use crate::rules;
use crate::text;
use crate::units::{Celsius, Pct};
use vstd::prelude::*;
use vstd::string::*;

verus! {

// ---------------------------------------------------------------------------
// Section headers and keys
// ---------------------------------------------------------------------------

/// The kinds of sections.
#[derive(Debug, Clone, Copy, PartialEq, Eq, Structural)]
pub enum SectionKind {
    Global,
    Watchdog,
    Gpu,
    Fan,
    Group,
}

/// What a header announces: the kind of the section and, for all but `global`
/// and `watchdog`, the id behind the colon.
pub open spec fn classified(header: Seq<char>) -> Option<(SectionKind, Option<Seq<char>>)> {
    if header == "global"@ {
        Some((SectionKind::Global, None))
    } else if header == "watchdog"@ {
        Some((SectionKind::Watchdog, None))
    } else {
        match text::split_once_on(header, ':') {
            None => None,
            Some((prefix, id)) => if id.len() == 0 {
                None
            } else if prefix == "gpu"@ {
                Some((SectionKind::Gpu, Some(id)))
            } else if prefix == "fan"@ {
                Some((SectionKind::Fan, Some(id)))
            } else if prefix == "group"@ {
                Some((SectionKind::Group, Some(id)))
            } else {
                None
            },
        }
    }
}

/// The kind of a section and its id, from its header.
pub fn classify_section(header: &str) -> (r: Option<(SectionKind, Option<String>)>)
    ensures
        match r {
            Some((kind, id)) => classified(header@) == Some((kind, config::optional_text(id))),
            None => classified(header@) is None,
        },
{
    if text::same_text(header, "global") {
        return Some((SectionKind::Global, None));
    }
    if text::same_text(header, "watchdog") {
        return Some((SectionKind::Watchdog, None));
    }
    match text::split_once(header, ':') {
        None => None,
        Some((prefix, id)) => {
            if id.unicode_len() == 0 {
                None
            } else if text::same_text(prefix, "gpu") {
                Some((SectionKind::Gpu, Some(id.to_string())))
            } else if text::same_text(prefix, "fan") {
                Some((SectionKind::Fan, Some(id.to_string())))
            } else if text::same_text(prefix, "group") {
                Some((SectionKind::Group, Some(id.to_string())))
            } else {
                None
            }
        },
    }
}

/// The keys that a section of each kind can hold.
pub open spec fn keys_of(kind: SectionKind) -> Seq<Seq<char>> {
    match kind {
        SectionKind::Global => seq![
            "config_version"@,
            "poll_interval_ms"@,
            "log_level"@,
            "log_file"@,
            "power_limit_check_interval_s"@,
            "power_limit_restore_on_shutdown"@,
            "power_limit_validate_max_w"@,
        ],
        SectionKind::Watchdog => seq![
            "enabled"@,
            "device"@,
            "timeout_s"@,
            "gpu_fail_threshold"@,
        ],
        SectionKind::Gpu => seq![
            "nvml_index"@,
            "curve"@,
            "min_fan_pct"@,
            "max_fan_pct"@,
            "power_limit_enabled"@,
            "power_limit_w"@,
        ],
        SectionKind::Fan => seq![
            "chip"@,
            "device_path"@,
            "hwmon_path"@,
            "pwm_channel"@,
            "min_rpm"@,
            "max_rpm"@,
            "fan_fail_threshold"@,
            "spin_up_grace_s"@,
        ],
        SectionKind::Group => seq!["gpus"@, "fans"@],
    }
}

/// The keys that a section of each kind can hold.
pub fn known_keys(kind: SectionKind) -> (r: Vec<&'static str>)
    ensures
        text::texts(r@) == keys_of(kind),
{
    let r: Vec<&'static str> = match kind {
        SectionKind::Global => vec![
            "config_version",
            "poll_interval_ms",
            "log_level",
            "log_file",
            "power_limit_check_interval_s",
            "power_limit_restore_on_shutdown",
            "power_limit_validate_max_w",
        ],
        SectionKind::Watchdog => vec!["enabled", "device", "timeout_s", "gpu_fail_threshold"],
        SectionKind::Gpu => vec![
            "nvml_index",
            "curve",
            "min_fan_pct",
            "max_fan_pct",
            "power_limit_enabled",
            "power_limit_w",
        ],
        SectionKind::Fan => vec![
            "chip",
            "device_path",
            "hwmon_path",
            "pwm_channel",
            "min_rpm",
            "max_rpm",
            "fan_fail_threshold",
            "spin_up_grace_s",
        ],
        SectionKind::Group => vec!["gpus", "fans"],
    };
    assert(text::texts(r@) =~= keys_of(kind));
    r
}

fn contains_text(list: &Vec<&'static str>, wanted: &str) -> (r: bool)
    ensures
        r == text::texts(list@).contains(wanted@),
{
    let ghost all = text::texts(list@);
    let mut i: usize = 0;
    while i < list.len()
        invariant
            i <= list.len(),
            all == text::texts(list@),
            forall|k: int| 0 <= k < i ==> #[trigger] all[k] != wanted@,
        decreases list.len() - i,
    {
        assert(all[i as int] == list@[i as int]@);
        if text::same_text(list[i], wanted) {
            return true;
        }
        i = i + 1;
    }
    false
}

/// The notice for an unknown key.
pub open spec fn unknown_key_notice(name: Seq<char>, key: Seq<char>) -> Notice {
    Notice { section: name, key, message: "unknown key in ["@ + name + "] (T2)"@ }
}

/// The notices for the keys that a section of its kind cannot hold (T2).
pub open spec fn unknown_keys(
    name: Seq<char>,
    kind: SectionKind,
    entries: Seq<(Seq<char>, Seq<char>)>,
) -> Seq<Notice>
    decreases entries.len(),
{
    if entries.len() == 0 {
        seq![]
    } else {
        let front = unknown_keys(name, kind, entries.drop_last());
        let key = entries.last().0;
        if keys_of(kind).contains(key) {
            front
        } else {
            front.push(unknown_key_notice(name, key))
        }
    }
}

fn note_unknown_keys(
    name: &str,
    kind: SectionKind,
    entries: &Vec<(String, String)>,
    warnings: &mut Vec<Warning>,
)
    ensures
        config::notices(final(warnings)@) == config::notices(old(warnings)@) + unknown_keys(
            name@,
            kind,
            document::entry_texts(entries@),
        ),
{
    let ghost before = config::notices(warnings@);
    let ghost all = document::entry_texts(entries@);
    let known: Vec<&'static str> = known_keys(kind);
    let mut i: usize = 0;
    assert(before + unknown_keys(name@, kind, all.take(0)) =~= before);
    while i < entries.len()
        invariant
            i <= entries.len(),
            all == document::entry_texts(entries@),
            text::texts(known@) == keys_of(kind),
            config::notices(warnings@) == before + unknown_keys(name@, kind, all.take(i as int)),
        decreases entries.len() - i,
    {
        assert(all.take(i + 1).drop_last() =~= all.take(i as int));
        assert(all.take(i + 1).last() == (entries@[i as int].0@, entries@[i as int].1@));
        let ghost noted = config::notices(warnings@);
        if !contains_text(&known, entries[i].0.as_str()) {
            let mut message: String = "unknown key in [".to_string();
            message.append(name);
            message.append("] (T2)");
            warnings.push(
                Warning { section: name.to_string(), key: entries[i].0.clone(), message },
            );
            assert(config::notices(warnings@) =~= noted.push(warnings@.last()@));
        }
        i = i + 1;
    }
    assert(all.take(i as int) =~= all);
}

// ---------------------------------------------------------------------------
// Values
// ---------------------------------------------------------------------------

/// The outcome of a reader, with the meaning of its error in place of the error.
pub open spec fn outcome<T>(r: Result<T, ConfigError>) -> Result<T, ConfigFault> {
    match r {
        Ok(v) => Ok(v),
        Err(e) => Err(e@),
    }
}

/// The fault of a value that is not of the wanted form.
pub open spec fn invalid(section: Seq<char>, key: Seq<char>, message: Seq<char>) -> ConfigFault {
    ConfigFault::InvalidValue { section, key, message }
}

/// The number that a value writes.
pub open spec fn u32_of(section: Seq<char>, key: Seq<char>, raw: Seq<char>) -> Result<
    u32,
    ConfigFault,
> {
    match text::integer_of(text::trimmed(raw), 0, u32::MAX as int) {
        Ok(v) => Ok(v as u32),
        Err(e) => Err(invalid(section, key, "expected u32: "@ + e.text())),
    }
}

/// Reads a number.
pub fn parse_u32(section: &str, key: &str, raw: &str) -> (r: Result<u32, ConfigError>)
    ensures
        outcome(r) == u32_of(section@, key@, raw@),
{
    match text::parse_integer(text::trim(raw), 0, 0xffff_ffff) {
        Ok(v) => Ok(v as u32),
        Err(e) => {
            let mut message: String = "expected u32: ".to_string();
            message.append(e.describe());
            Err(
                ConfigError::InvalidValue {
                    section: section.to_string(),
                    key: key.to_string(),
                    message,
                },
            )
        },
    }
}

/// The switch that a value writes, in letters of any case.
pub open spec fn bool_of(section: Seq<char>, key: Seq<char>, raw: Seq<char>) -> Result<
    bool,
    ConfigFault,
> {
    let word = text::lower(text::trimmed(raw));
    if word == "true"@ || word == "yes"@ || word == "1"@ {
        Ok(true)
    } else if word == "false"@ || word == "no"@ || word == "0"@ {
        Ok(false)
    } else {
        Err(invalid(section, key, "expected bool, got '"@ + word + "'"@))
    }
}

/// Reads a switch.
pub fn parse_bool(section: &str, key: &str, raw: &str) -> (r: Result<bool, ConfigError>)
    ensures
        outcome(r) == bool_of(section@, key@, raw@),
{
    let lowered: String = text::trim(raw).to_ascii_lowercase();
    let word: &str = lowered.as_str();
    if text::same_text(word, "true") || text::same_text(word, "yes") || text::same_text(word, "1") {
        Ok(true)
    } else if text::same_text(word, "false") || text::same_text(word, "no") || text::same_text(
        word,
        "0",
    ) {
        Ok(false)
    } else {
        let mut message: String = "expected bool, got '".to_string();
        message.append(word);
        message.append("'");
        Err(
            ConfigError::InvalidValue {
                section: section.to_string(),
                key: key.to_string(),
                message,
            },
        )
    }
}

/// The log level that a value writes, in letters of any case.
pub open spec fn log_level_of(section: Seq<char>, raw: Seq<char>) -> Result<LogLevel, ConfigFault> {
    let word = text::lower(text::trimmed(raw));
    if word == "debug"@ {
        Ok(LogLevel::Debug)
    } else if word == "info"@ {
        Ok(LogLevel::Info)
    } else if word == "warn"@ {
        Ok(LogLevel::Warn)
    } else if word == "error"@ {
        Ok(LogLevel::Error)
    } else {
        Err(
            invalid(
                section,
                "log_level"@,
                "expected one of debug|info|warn|error, got '"@ + word + "'"@,
            ),
        )
    }
}

/// Reads a log level.
pub fn parse_log_level(section: &str, raw: &str) -> (r: Result<LogLevel, ConfigError>)
    ensures
        outcome(r) == log_level_of(section@, raw@),
{
    let lowered: String = text::trim(raw).to_ascii_lowercase();
    let word: &str = lowered.as_str();
    if text::same_text(word, "debug") {
        Ok(LogLevel::Debug)
    } else if text::same_text(word, "info") {
        Ok(LogLevel::Info)
    } else if text::same_text(word, "warn") {
        Ok(LogLevel::Warn)
    } else if text::same_text(word, "error") {
        Ok(LogLevel::Error)
    } else {
        let mut message: String = "expected one of debug|info|warn|error, got '".to_string();
        message.append(word);
        message.append("'");
        Err(
            ConfigError::InvalidValue {
                section: section.to_string(),
                key: "log_level".to_string(),
                message,
            },
        )
    }
}

/// The fault of a curve that is not of the wanted form.
pub open spec fn curve_invalid(id: Seq<char>, message: Seq<char>) -> ConfigFault {
    invalid("gpu:"@ + id, "curve"@, message)
}

/// A point of a curve, written `TEMP:PCT`.
pub open spec fn point_of(id: Seq<char>, piece: Seq<char>) -> Result<(Celsius, Pct), ConfigFault> {
    match text::split_once_on(piece, ':') {
        None => Err(
            curve_invalid(id, "malformed point '"@ + piece + "', expected TEMP:PCT"@),
        ),
        Some((temp, pct)) => match text::integer_of(
            text::trimmed(temp),
            i16::MIN as int,
            i16::MAX as int,
        ) {
            Err(e) => Err(
                curve_invalid(id, "temp '"@ + text::trimmed(temp) + "': "@ + e.text()),
            ),
            Ok(t) => match text::integer_of(text::trimmed(pct), 0, u8::MAX as int) {
                Err(e) => Err(curve_invalid(id, "pct '"@ + pct + "': "@ + e.text())),
                Ok(p) => Ok((Celsius(t as i16), Pct(p as u8))),
            },
        },
    }
}

/// The points that a list of pieces writes; blank pieces write none.
pub open spec fn points_of(id: Seq<char>, pieces: Seq<Seq<char>>) -> Result<
    Seq<(Celsius, Pct)>,
    ConfigFault,
>
    decreases pieces.len(),
{
    if pieces.len() == 0 {
        Ok(seq![])
    } else {
        match points_of(id, pieces.drop_last()) {
            Err(e) => Err(e),
            Ok(points) => {
                let piece = text::trimmed(pieces.last());
                if piece.len() == 0 {
                    Ok(points)
                } else {
                    match point_of(id, piece) {
                        Err(e) => Err(e),
                        Ok(p) => Ok(points.push(p)),
                    }
                }
            },
        }
    }
}

/// The curve that a value writes: points between commas.
pub open spec fn curve_of(id: Seq<char>, raw: Seq<char>) -> Result<
    Seq<(Celsius, Pct)>,
    ConfigFault,
> {
    match points_of(id, text::split_on(raw, ',')) {
        Err(e) => Err(e),
        Ok(points) => match curve::curve_fault(points) {
            Some(source) => Err(ConfigFault::Curve { id, source }),
            None => Ok(points),
        },
    }
}

fn curve_error(gpu_id: &str, message: String) -> (r: ConfigError)
    ensures
        r@ == curve_invalid(gpu_id@, message@),
{
    let mut section: String = "gpu:".to_string();
    section.append(gpu_id);
    ConfigError::InvalidValue { section, key: "curve".to_string(), message }
}

fn parse_point(gpu_id: &str, piece: &str) -> (r: Result<(Celsius, Pct), ConfigError>)
    ensures
        outcome(r) == point_of(gpu_id@, piece@),
{
    match text::split_once(piece, ':') {
        None => {
            let mut message: String = "malformed point '".to_string();
            message.append(piece);
            message.append("', expected TEMP:PCT");
            Err(curve_error(gpu_id, message))
        },
        Some((temp_s, pct_s)) => {
            let temp_s: &str = text::trim(temp_s);
            let temp: i16 = match text::parse_integer(temp_s, -0x8000, 0x7fff) {
                Ok(t) => t as i16,
                Err(e) => {
                    let mut message: String = "temp '".to_string();
                    message.append(temp_s);
                    message.append("': ");
                    message.append(e.describe());
                    return Err(curve_error(gpu_id, message));
                },
            };
            let pct: u8 = match text::parse_integer(text::trim(pct_s), 0, 0xff) {
                Ok(p) => p as u8,
                Err(e) => {
                    let mut message: String = "pct '".to_string();
                    message.append(pct_s);
                    message.append("': ");
                    message.append(e.describe());
                    return Err(curve_error(gpu_id, message));
                },
            };
            Ok((Celsius(temp), Pct(pct)))
        },
    }
}

proof fn lemma_point_error_stays(id: Seq<char>, pieces: Seq<Seq<char>>, n: int)
    requires
        0 <= n <= pieces.len(),
        points_of(id, pieces.take(n)) is Err,
    ensures
        points_of(id, pieces) == points_of(id, pieces.take(n)),
    decreases pieces.len() - n,
{
    if n == pieces.len() {
        assert(pieces.take(n) =~= pieces);
    } else {
        assert(pieces.take(n + 1).drop_last() =~= pieces.take(n));
        lemma_point_error_stays(id, pieces, n + 1);
    }
}

/// Reads the curve of a GPU.
pub fn parse_curve_field(gpu_id: &str, raw: &str) -> (r: Result<Curve, ConfigError>)
    ensures
        match r {
            Ok(c) => curve_of(gpu_id@, raw@) == Ok::<Seq<(Celsius, Pct)>, ConfigFault>(c@),
            Err(e) => curve_of(gpu_id@, raw@) == Err::<Seq<(Celsius, Pct)>, ConfigFault>(e@),
        },
{
    let pieces: Vec<&str> = text::split(raw, ',');
    let ghost all = text::texts(pieces@);
    let mut points: Vec<(Celsius, Pct)> = Vec::new();
    let mut i: usize = 0;
    while i < pieces.len()
        invariant
            i <= pieces.len(),
            all == text::texts(pieces@),
            all == text::split_on(raw@, ','),
            points_of(gpu_id@, all.take(i as int)) == Ok::<Seq<(Celsius, Pct)>, ConfigFault>(
                points@,
            ),
        decreases pieces.len() - i,
    {
        assert(all.take(i + 1).drop_last() =~= all.take(i as int));
        assert(all.take(i + 1).last() == pieces@[i as int]@);
        let piece: &str = text::trim(pieces[i]);
        if piece.unicode_len() > 0 {
            match parse_point(gpu_id, piece) {
                Ok(p) => points.push(p),
                Err(e) => {
                    proof {
                        lemma_point_error_stays(gpu_id@, all, i + 1);
                    }
                    return Err(e);
                },
            }
        }
        i = i + 1;
    }
    assert(all.take(i as int) =~= all);
    match Curve::new(points) {
        Ok(c) => Ok(c),
        Err(source) => Err(ConfigError::Curve { id: gpu_id.to_string(), source }),
    }
}

/// The ids that a value lists between commas, without blanks around them and
/// without empty ones.
pub open spec fn ids_of(raw: Seq<char>) -> Seq<Seq<char>> {
    text::split_on(raw, ',').map_values(|piece: Seq<char>| text::trimmed(piece)).filter(
        |id: Seq<char>| id.len() > 0,
    )
}

/// Reads a list of ids.
pub fn parse_id_list(raw: &str) -> (r: Vec<String>)
    ensures
        text::strings(r@) == ids_of(raw@),
{
    let pieces: Vec<&str> = text::split(raw, ',');
    let ghost all = text::split_on(raw@, ',').map_values(
        |piece: Seq<char>| text::trimmed(piece),
    );
    let ghost named = |id: Seq<char>| id.len() > 0;
    let mut r: Vec<String> = Vec::new();
    let mut i: usize = 0;
    proof {
        reveal(Seq::filter);
    }
    assert(text::strings(r@) =~= all.take(0).filter(named));
    while i < pieces.len()
        invariant
            i <= pieces.len(),
            text::texts(pieces@) == text::split_on(raw@, ','),
            all == text::split_on(raw@, ',').map_values(
                |piece: Seq<char>| text::trimmed(piece),
            ),
            named == (|id: Seq<char>| id.len() > 0),
            text::strings(r@) == all.take(i as int).filter(named),
        decreases pieces.len() - i,
    {
        proof {
            reveal(Seq::filter);
        }
        let ghost before = r@;
        let id: &str = text::trim(pieces[i]);
        assert(text::texts(pieces@)[i as int] == pieces@[i as int]@);
        assert(all.take(i + 1).drop_last() =~= all.take(i as int));
        assert(all.take(i + 1).last() == id@);
        if id.unicode_len() > 0 {
            r.push(id.to_string());
            assert(text::strings(r@) =~= text::strings(before).push(id@));
        }
        i = i + 1;
    }
    assert(all.take(i as int) =~= all) by {
        assert(all.len() == text::texts(pieces@).len());
    }
    r
}

// ---------------------------------------------------------------------------
// Sections
// ---------------------------------------------------------------------------

/// The value of a key that a section must hold.
pub open spec fn required(
    name: Seq<char>,
    entries: Seq<(Seq<char>, Seq<char>)>,
    key: Seq<char>,
) -> Result<Seq<char>, ConfigFault> {
    match document::lookup(entries, key) {
        Some(raw) => Ok(raw),
        None => Err(ConfigFault::MissingKey { section: name, key }),
    }
}

/// The number under a key that a section must hold.
pub open spec fn required_u32(
    name: Seq<char>,
    entries: Seq<(Seq<char>, Seq<char>)>,
    key: Seq<char>,
) -> Result<u32, ConfigFault> {
    match required(name, entries, key) {
        Err(e) => Err(e),
        Ok(raw) => u32_of(name, key, raw),
    }
}

/// The value of a key that a section may hold; a blank value counts as none.
pub open spec fn optional(entries: Seq<(Seq<char>, Seq<char>)>, key: Seq<char>) -> Option<
    Seq<char>,
> {
    match document::lookup(entries, key) {
        Some(raw) => if text::trimmed(raw).len() > 0 {
            Some(text::trimmed(raw))
        } else {
            None
        },
        None => None,
    }
}

/// The number under a key that a section may hold.
pub open spec fn optional_u32(
    name: Seq<char>,
    entries: Seq<(Seq<char>, Seq<char>)>,
    key: Seq<char>,
) -> Result<Option<u32>, ConfigFault> {
    match optional(entries, key) {
        None => Ok(None),
        Some(raw) => match u32_of(name, key, raw) {
            Err(e) => Err(e),
            Ok(v) => Ok(Some(v)),
        },
    }
}

/// The number under a key that a section may hold, or `default`.
pub open spec fn u32_or(
    name: Seq<char>,
    entries: Seq<(Seq<char>, Seq<char>)>,
    key: Seq<char>,
    default: u32,
) -> Result<u32, ConfigFault> {
    match optional_u32(name, entries, key) {
        Err(e) => Err(e),
        Ok(Some(v)) => Ok(v),
        Ok(None) => Ok(default),
    }
}

/// The switch under a key that a section may hold, or `default`.
pub open spec fn bool_or(
    name: Seq<char>,
    entries: Seq<(Seq<char>, Seq<char>)>,
    key: Seq<char>,
    default: bool,
) -> Result<bool, ConfigFault> {
    match optional(entries, key) {
        None => Ok(default),
        Some(raw) => bool_of(name, key, raw),
    }
}

/// A percentage; numbers above the range of its type become the largest value.
pub open spec fn pct_of(v: u32) -> Pct {
    if v > u8::MAX {
        Pct(u8::MAX)
    } else {
        Pct(v as u8)
    }
}

fn require<'a>(name: &str, entries: &'a Vec<(String, String)>, key: &str) -> (r: Result<
    &'a str,
    ConfigError,
>)
    ensures
        match r {
            Ok(raw) => required(name@, document::entry_texts(entries@), key@) == Ok::<
                Seq<char>,
                ConfigFault,
            >(raw@),
            Err(e) => required(name@, document::entry_texts(entries@), key@) == Err::<
                Seq<char>,
                ConfigFault,
            >(e@),
        },
{
    match document::get(entries, key) {
        Some(raw) => Ok(raw),
        None => Err(
            ConfigError::MissingKey { section: name.to_string(), key: key.to_string() },
        ),
    }
}

fn require_u32(name: &str, entries: &Vec<(String, String)>, key: &str) -> (r: Result<
    u32,
    ConfigError,
>)
    ensures
        outcome(r) == required_u32(name@, document::entry_texts(entries@), key@),
{
    match require(name, entries, key) {
        Ok(raw) => parse_u32(name, key, raw),
        Err(e) => Err(e),
    }
}

fn optional_value(entries: &Vec<(String, String)>, key: &str) -> (r: Option<String>)
    ensures
        config::optional_text(r) == optional(document::entry_texts(entries@), key@),
{
    match document::get(entries, key) {
        Some(raw) => {
            let value: &str = text::trim(raw);
            if value.unicode_len() > 0 {
                Some(value.to_string())
            } else {
                None
            }
        },
        None => None,
    }
}

fn read_optional_u32(name: &str, entries: &Vec<(String, String)>, key: &str) -> (r: Result<
    Option<u32>,
    ConfigError,
>)
    ensures
        outcome(r) == optional_u32(name@, document::entry_texts(entries@), key@),
{
    match optional_value(entries, key) {
        None => Ok(None),
        Some(raw) => match parse_u32(name, key, raw.as_str()) {
            Ok(v) => Ok(Some(v)),
            Err(e) => Err(e),
        },
    }
}

fn read_u32_or(name: &str, entries: &Vec<(String, String)>, key: &str, default: u32) -> (r: Result<
    u32,
    ConfigError,
>)
    ensures
        outcome(r) == u32_or(name@, document::entry_texts(entries@), key@, default),
{
    match read_optional_u32(name, entries, key) {
        Ok(Some(v)) => Ok(v),
        Ok(None) => Ok(default),
        Err(e) => Err(e),
    }
}

fn read_bool_or(
    name: &str,
    entries: &Vec<(String, String)>,
    key: &str,
    default: bool,
) -> (r: Result<bool, ConfigError>)
    ensures
        outcome(r) == bool_or(name@, document::entry_texts(entries@), key@, default),
{
    match optional_value(entries, key) {
        None => Ok(default),
        Some(raw) => parse_bool(name, key, raw.as_str()),
    }
}

fn saturated(v: u32) -> (r: Pct)
    ensures
        r == pct_of(v),
{
    if v > 255 {
        Pct(255)
    } else {
        Pct(v as u8)
    }
}

/// The log level that the `[global]` section must hold.
pub open spec fn required_log_level(
    name: Seq<char>,
    entries: Seq<(Seq<char>, Seq<char>)>,
) -> Result<LogLevel, ConfigFault> {
    match required(name, entries, "log_level"@) {
        Err(e) => Err(e),
        Ok(raw) => log_level_of(name, raw),
    }
}

/// The `[global]` section.
pub open spec fn global_of(
    name: Seq<char>,
    entries: Seq<(Seq<char>, Seq<char>)>,
) -> Result<GlobalModel, ConfigFault> {
    match required_u32(name, entries, "config_version"@) {
        Err(e) => Err(e),
        Ok(config_version) => match required_u32(name, entries, "poll_interval_ms"@) {
            Err(e) => Err(e),
            Ok(poll_interval_ms) => match required_log_level(name, entries) {
                Err(e) => Err(e),
                Ok(log_level) => match power_settings_of(name, entries) {
                    Err(e) => Err(e),
                    Ok((interval_s, restore, max_w)) => Ok(
                        GlobalModel {
                            config_version,
                            poll_interval_ms,
                            log_level,
                            log_file: optional(entries, "log_file"@),
                            power_limit_check_interval_s: interval_s,
                            power_limit_restore_on_shutdown: restore,
                            power_limit_validate_max_w: max_w,
                        },
                    ),
                },
            },
        },
    }
}

/// The settings for power limits in the `[global]` section: the interval between
/// checks, whether limits are given back on shutdown, and the largest limit.
pub open spec fn power_settings_of(
    name: Seq<char>,
    entries: Seq<(Seq<char>, Seq<char>)>,
) -> Result<(u32, bool, u32), ConfigFault> {
    match u32_or(
        name,
        entries,
        "power_limit_check_interval_s"@,
        DEFAULT_POWER_LIMIT_CHECK_INTERVAL_S,
    ) {
        Err(e) => Err(e),
        Ok(interval_s) => match bool_or(
            name,
            entries,
            "power_limit_restore_on_shutdown"@,
            DEFAULT_POWER_LIMIT_RESTORE_ON_SHUTDOWN,
        ) {
            Err(e) => Err(e),
            Ok(restore) => match u32_or(
                name,
                entries,
                "power_limit_validate_max_w"@,
                DEFAULT_POWER_LIMIT_VALIDATE_MAX_W,
            ) {
                Err(e) => Err(e),
                Ok(max_w) => Ok((interval_s, restore, max_w)),
            },
        },
    }
}

fn read_power_settings(name: &str, entries: &Vec<(String, String)>) -> (r: Result<
    (u32, bool, u32),
    ConfigError,
>)
    ensures
        outcome(r) == power_settings_of(name@, document::entry_texts(entries@)),
{
    let interval_s: u32 = match read_u32_or(
        name,
        entries,
        "power_limit_check_interval_s",
        DEFAULT_POWER_LIMIT_CHECK_INTERVAL_S,
    ) {
        Ok(v) => v,
        Err(e) => return Err(e),
    };
    let restore: bool = match read_bool_or(
        name,
        entries,
        "power_limit_restore_on_shutdown",
        DEFAULT_POWER_LIMIT_RESTORE_ON_SHUTDOWN,
    ) {
        Ok(v) => v,
        Err(e) => return Err(e),
    };
    let max_w: u32 = match read_u32_or(
        name,
        entries,
        "power_limit_validate_max_w",
        DEFAULT_POWER_LIMIT_VALIDATE_MAX_W,
    ) {
        Ok(v) => v,
        Err(e) => return Err(e),
    };
    Ok((interval_s, restore, max_w))
}

fn read_global(
    name: &str,
    entries: &Vec<(String, String)>,
) -> (r: Result<GlobalConfig, ConfigError>)
    ensures
        match r {
            Ok(v) => global_of(name@, document::entry_texts(entries@)) == Ok::<
                GlobalModel,
                ConfigFault,
            >(v@),
            Err(e) => global_of(name@, document::entry_texts(entries@)) == Err::<
                GlobalModel,
                ConfigFault,
            >(e@),
        },
{
    let config_version: u32 = match require_u32(name, entries, "config_version") {
        Ok(v) => v,
        Err(e) => return Err(e),
    };
    let poll_interval_ms: u32 = match require_u32(name, entries, "poll_interval_ms") {
        Ok(v) => v,
        Err(e) => return Err(e),
    };
    let log_level_raw: &str = match require(name, entries, "log_level") {
        Ok(v) => v,
        Err(e) => return Err(e),
    };
    let log_level: LogLevel = match parse_log_level(name, log_level_raw) {
        Ok(v) => v,
        Err(e) => return Err(e),
    };
    let log_file: Option<String> = optional_value(entries, "log_file");
    let (interval_s, restore, max_w) = match read_power_settings(name, entries) {
        Ok(v) => v,
        Err(e) => return Err(e),
    };
    Ok(
        GlobalConfig {
            config_version,
            poll_interval_ms,
            log_level,
            log_file,
            power_limit_check_interval_s: interval_s,
            power_limit_restore_on_shutdown: restore,
            power_limit_validate_max_w: max_w,
        },
    )
}

/// The switch under a key that a section must hold.
pub open spec fn required_bool(
    name: Seq<char>,
    entries: Seq<(Seq<char>, Seq<char>)>,
    key: Seq<char>,
) -> Result<bool, ConfigFault> {
    match required(name, entries, key) {
        Err(e) => Err(e),
        Ok(raw) => bool_of(name, key, raw),
    }
}

/// The `[watchdog]` section.
pub open spec fn watchdog_of(
    name: Seq<char>,
    entries: Seq<(Seq<char>, Seq<char>)>,
) -> Result<WatchdogModel, ConfigFault> {
    match required_bool(name, entries, "enabled"@) {
        Err(e) => Err(e),
        Ok(enabled) => match required(name, entries, "device"@) {
            Err(e) => Err(e),
            Ok(device) => match required_u32(name, entries, "timeout_s"@) {
                Err(e) => Err(e),
                Ok(timeout_s) => match required_u32(name, entries, "gpu_fail_threshold"@) {
                    Err(e) => Err(e),
                    Ok(gpu_fail_threshold) => Ok(
                        WatchdogModel {
                            enabled,
                            device: text::trimmed(device),
                            timeout_s,
                            gpu_fail_threshold,
                        },
                    ),
                },
            },
        },
    }
}

fn read_watchdog(
    name: &str,
    entries: &Vec<(String, String)>,
) -> (r: Result<WatchdogConfig, ConfigError>)
    ensures
        match r {
            Ok(v) => watchdog_of(name@, document::entry_texts(entries@)) == Ok::<
                WatchdogModel,
                ConfigFault,
            >(v@),
            Err(e) => watchdog_of(name@, document::entry_texts(entries@)) == Err::<
                WatchdogModel,
                ConfigFault,
            >(e@),
        },
{
    let enabled_raw: &str = match require(name, entries, "enabled") {
        Ok(v) => v,
        Err(e) => return Err(e),
    };
    let enabled: bool = match parse_bool(name, "enabled", enabled_raw) {
        Ok(v) => v,
        Err(e) => return Err(e),
    };
    let device: &str = match require(name, entries, "device") {
        Ok(v) => v,
        Err(e) => return Err(e),
    };
    let timeout_s: u32 = match require_u32(name, entries, "timeout_s") {
        Ok(v) => v,
        Err(e) => return Err(e),
    };
    let gpu_fail_threshold: u32 = match require_u32(name, entries, "gpu_fail_threshold") {
        Ok(v) => v,
        Err(e) => return Err(e),
    };
    Ok(WatchdogConfig {
        enabled,
        device: text::trim(device).to_string(),
        timeout_s,
        gpu_fail_threshold,
    })
}

/// The curve that a `[gpu:ID]` section must hold.
pub open spec fn required_curve(
    name: Seq<char>,
    id: Seq<char>,
    entries: Seq<(Seq<char>, Seq<char>)>,
) -> Result<Seq<(Celsius, Pct)>, ConfigFault> {
    match required(name, entries, "curve"@) {
        Err(e) => Err(e),
        Ok(raw) => curve_of(id, raw),
    }
}

/// A `[gpu:ID]` section.
pub open spec fn gpu_of(
    name: Seq<char>,
    id: Seq<char>,
    entries: Seq<(Seq<char>, Seq<char>)>,
) -> Result<GpuModel, ConfigFault> {
    match required_u32(name, entries, "nvml_index"@) {
        Err(e) => Err(e),
        Ok(nvml_index) => match required_curve(name, id, entries) {
            Err(e) => Err(e),
            Ok(curve) => match required_u32(name, entries, "min_fan_pct"@) {
                Err(e) => Err(e),
                Ok(min) => match required_u32(name, entries, "max_fan_pct"@) {
                    Err(e) => Err(e),
                    Ok(max) => match power_limit_of(name, entries) {
                        Err(e) => Err(e),
                        Ok((enabled, watts)) => Ok(
                            GpuModel {
                                id,
                                nvml_index,
                                curve,
                                min_fan_pct: pct_of(min),
                                max_fan_pct: pct_of(max),
                                power_limit_enabled: enabled,
                                power_limit_w: watts,
                            },
                        ),
                    },
                },
            },
        },
    }
}

/// The power limit in a `[gpu:ID]` section: whether it is enforced, which it is only
/// on request, and what it is.
pub open spec fn power_limit_of(
    name: Seq<char>,
    entries: Seq<(Seq<char>, Seq<char>)>,
) -> Result<(bool, Option<u32>), ConfigFault> {
    match bool_or(name, entries, "power_limit_enabled"@, false) {
        Err(e) => Err(e),
        Ok(enabled) => match optional_u32(name, entries, "power_limit_w"@) {
            Err(e) => Err(e),
            Ok(watts) => Ok((enabled, watts)),
        },
    }
}

fn read_power_limit(name: &str, entries: &Vec<(String, String)>) -> (r: Result<
    (bool, Option<u32>),
    ConfigError,
>)
    ensures
        outcome(r) == power_limit_of(name@, document::entry_texts(entries@)),
{
    let enabled: bool = match read_bool_or(name, entries, "power_limit_enabled", false) {
        Ok(v) => v,
        Err(e) => return Err(e),
    };
    let watts: Option<u32> = match read_optional_u32(name, entries, "power_limit_w") {
        Ok(v) => v,
        Err(e) => return Err(e),
    };
    Ok((enabled, watts))
}

fn read_gpu(
    name: &str,
    id: String,
    entries: &Vec<(String, String)>,
) -> (r: Result<GpuConfig, ConfigError>)
    ensures
        match r {
            Ok(v) => gpu_of(name@, id@, document::entry_texts(entries@)) == Ok::<
                GpuModel,
                ConfigFault,
            >(v@),
            Err(e) => gpu_of(name@, id@, document::entry_texts(entries@)) == Err::<
                GpuModel,
                ConfigFault,
            >(e@),
        },
{
    let nvml_index: u32 = match require_u32(name, entries, "nvml_index") {
        Ok(v) => v,
        Err(e) => return Err(e),
    };
    let curve_raw: &str = match require(name, entries, "curve") {
        Ok(v) => v,
        Err(e) => return Err(e),
    };
    let curve: Curve = match parse_curve_field(id.as_str(), curve_raw) {
        Ok(v) => v,
        Err(e) => return Err(e),
    };
    let min: u32 = match require_u32(name, entries, "min_fan_pct") {
        Ok(v) => v,
        Err(e) => return Err(e),
    };
    let max: u32 = match require_u32(name, entries, "max_fan_pct") {
        Ok(v) => v,
        Err(e) => return Err(e),
    };
    let (enabled, watts) = match read_power_limit(name, entries) {
        Ok(v) => v,
        Err(e) => return Err(e),
    };
    Ok(
        GpuConfig {
            id,
            nvml_index,
            curve,
            min_fan_pct: saturated(min),
            max_fan_pct: saturated(max),
            power_limit_enabled: enabled,
            power_limit_w: watts,
        },
    )
}

/// A `[fan:ID]` section.
pub open spec fn fan_of(
    name: Seq<char>,
    id: Seq<char>,
    entries: Seq<(Seq<char>, Seq<char>)>,
) -> Result<FanModel, ConfigFault> {
    match required_u32(name, entries, "pwm_channel"@) {
        Err(e) => Err(e),
        Ok(pwm_channel) => match required_u32(name, entries, "min_rpm"@) {
            Err(e) => Err(e),
            Ok(min_rpm) => match required_u32(name, entries, "max_rpm"@) {
                Err(e) => Err(e),
                Ok(max_rpm) => match required_u32(name, entries, "fan_fail_threshold"@) {
                    Err(e) => Err(e),
                    Ok(fan_fail_threshold) => match required_u32(name, entries, "spin_up_grace_s"@) {
                        Err(e) => Err(e),
                        Ok(spin_up_grace_s) => Ok(
                            FanModel {
                                id,
                                chip: optional(entries, "chip"@),
                                device_path: optional(entries, "device_path"@),
                                hwmon_path: optional(entries, "hwmon_path"@),
                                pwm_channel,
                                min_rpm,
                                max_rpm,
                                fan_fail_threshold,
                                spin_up_grace_s,
                            },
                        ),
                    },
                },
            },
        },
    }
}

fn read_fan(
    name: &str,
    id: String,
    entries: &Vec<(String, String)>,
) -> (r: Result<FanConfig, ConfigError>)
    ensures
        match r {
            Ok(v) => fan_of(name@, id@, document::entry_texts(entries@)) == Ok::<
                FanModel,
                ConfigFault,
            >(v@),
            Err(e) => fan_of(name@, id@, document::entry_texts(entries@)) == Err::<
                FanModel,
                ConfigFault,
            >(e@),
        },
{
    let chip: Option<String> = optional_value(entries, "chip");
    let device_path: Option<String> = optional_value(entries, "device_path");
    let hwmon_path: Option<String> = optional_value(entries, "hwmon_path");
    let pwm_channel: u32 = match require_u32(name, entries, "pwm_channel") {
        Ok(v) => v,
        Err(e) => return Err(e),
    };
    let min_rpm: u32 = match require_u32(name, entries, "min_rpm") {
        Ok(v) => v,
        Err(e) => return Err(e),
    };
    let max_rpm: u32 = match require_u32(name, entries, "max_rpm") {
        Ok(v) => v,
        Err(e) => return Err(e),
    };
    let fan_fail_threshold: u32 = match require_u32(name, entries, "fan_fail_threshold") {
        Ok(v) => v,
        Err(e) => return Err(e),
    };
    let spin_up_grace_s: u32 = match require_u32(name, entries, "spin_up_grace_s") {
        Ok(v) => v,
        Err(e) => return Err(e),
    };
    Ok(FanConfig {
        id,
        chip,
        device_path,
        hwmon_path,
        pwm_channel,
        min_rpm,
        max_rpm,
        fan_fail_threshold,
        spin_up_grace_s,
    })
}

/// A `[group:ID]` section.
pub open spec fn group_of(
    name: Seq<char>,
    id: Seq<char>,
    entries: Seq<(Seq<char>, Seq<char>)>,
) -> Result<GroupModel, ConfigFault> {
    match required(name, entries, "gpus"@) {
        Err(e) => Err(e),
        Ok(gpus) => match required(name, entries, "fans"@) {
            Err(e) => Err(e),
            Ok(fans) => Ok(
                GroupModel { id, gpus: ids_of(gpus), fans: ids_of(fans) },
            ),
        },
    }
}

fn read_group(
    name: &str,
    id: String,
    entries: &Vec<(String, String)>,
) -> (r: Result<GroupConfig, ConfigError>)
    ensures
        match r {
            Ok(v) => group_of(name@, id@, document::entry_texts(entries@)) == Ok::<
                GroupModel,
                ConfigFault,
            >(v@),
            Err(e) => group_of(name@, id@, document::entry_texts(entries@)) == Err::<
                GroupModel,
                ConfigFault,
            >(e@),
        },
{
    let gpus: &str = match require(name, entries, "gpus") {
        Ok(v) => v,
        Err(e) => return Err(e),
    };
    let fans: &str = match require(name, entries, "fans") {
        Ok(v) => v,
        Err(e) => return Err(e),
    };
    Ok(GroupConfig { id, gpus: parse_id_list(gpus), fans: parse_id_list(fans) })
}

// ---------------------------------------------------------------------------
// Documents
// ---------------------------------------------------------------------------

/// What the sections so far have given.
pub struct DraftModel {
    pub global: Option<GlobalModel>,
    pub watchdog: Option<WatchdogModel>,
    pub gpus: Seq<GpuModel>,
    pub fans: Seq<FanModel>,
    pub groups: Seq<GroupModel>,
    pub notices: Seq<Notice>,
}

/// The draft of no sections.
pub open spec fn empty_draft() -> DraftModel {
    DraftModel {
        global: None,
        watchdog: None,
        gpus: seq![],
        fans: seq![],
        groups: seq![],
        notices: seq![],
    }
}

/// A draft after the values of one more section. A repeated `[global]` or
/// `[watchdog]` replaces the earlier one; the other sections add up.
pub open spec fn with_values(
    d: DraftModel,
    kind: SectionKind,
    name: Seq<char>,
    id: Seq<char>,
    entries: Seq<(Seq<char>, Seq<char>)>,
) -> Result<DraftModel, ConfigFault> {
    match kind {
        SectionKind::Global => match global_of(name, entries) {
            Err(e) => Err(e),
            Ok(v) => Ok(DraftModel { global: Some(v), ..d }),
        },
        SectionKind::Watchdog => match watchdog_of(name, entries) {
            Err(e) => Err(e),
            Ok(v) => Ok(DraftModel { watchdog: Some(v), ..d }),
        },
        SectionKind::Gpu => match gpu_of(name, id, entries) {
            Err(e) => Err(e),
            Ok(v) => Ok(DraftModel { gpus: d.gpus.push(v), ..d }),
        },
        SectionKind::Fan => match fan_of(name, id, entries) {
            Err(e) => Err(e),
            Ok(v) => Ok(DraftModel { fans: d.fans.push(v), ..d }),
        },
        SectionKind::Group => match group_of(name, id, entries) {
            Err(e) => Err(e),
            Ok(v) => Ok(DraftModel { groups: d.groups.push(v), ..d }),
        },
    }
}

/// A draft after one more section: keys outside a section and unknown headers
/// (T1) are errors, unknown keys (T2) are noted.
pub open spec fn with_section(
    d: DraftModel,
    section: (Option<Seq<char>>, Seq<(Seq<char>, Seq<char>)>),
) -> Result<DraftModel, ConfigFault> {
    match section.0 {
        None => if section.1.len() > 0 {
            Err(ConfigFault::Ini("keys must live inside a [section]"@))
        } else {
            Ok(d)
        },
        Some(name) => match classified(name) {
            None => Err(ConfigFault::UnknownSection(name)),
            Some((kind, id)) => with_values(
                DraftModel { notices: d.notices + unknown_keys(name, kind, section.1), ..d },
                kind,
                name,
                match id {
                    Some(i) => i,
                    None => seq![],
                },
                section.1,
            ),
        },
    }
}

/// The draft of a list of sections, or the first error in it.
pub open spec fn draft_of(sections: Seq<(Option<Seq<char>>, Seq<(Seq<char>, Seq<char>)>)>) -> Result<
    DraftModel,
    ConfigFault,
>
    decreases sections.len(),
{
    if sections.len() == 0 {
        Ok(empty_draft())
    } else {
        match draft_of(sections.drop_last()) {
            Err(e) => Err(e),
            Ok(d) => with_section(d, sections.last()),
        }
    }
}

/// The configuration that a complete draft holds, with its notices.
pub open spec fn finished(d: DraftModel) -> Result<(ConfigModel, Seq<Notice>), ConfigFault> {
    match d.global {
        None => Err(ConfigFault::MissingSection("global"@)),
        Some(global) => match d.watchdog {
            None => Err(ConfigFault::MissingSection("watchdog"@)),
            Some(watchdog) => Ok(
                (
                    ConfigModel { global, watchdog, gpus: d.gpus, fans: d.fans, groups: d.groups },
                    d.notices,
                ),
            ),
        },
    }
}

/// The configuration in a document.
pub open spec fn config_of(
    document: Result<Seq<(Option<Seq<char>>, Seq<(Seq<char>, Seq<char>)>)>, Seq<char>>,
) -> Result<(ConfigModel, Seq<Notice>), ConfigFault> {
    match document {
        Err(message) => Err(ConfigFault::Ini(message)),
        Ok(sections) => match draft_of(sections) {
            Err(e) => Err(e),
            Ok(d) => finished(d),
        },
    }
}

/// A reader's result, with the meaning of each part in its place.
pub open spec fn loaded(r: Result<(Config, Vec<Warning>), ConfigError>) -> Result<
    (ConfigModel, Seq<Notice>),
    ConfigFault,
> {
    match r {
        Ok(pair) => Ok((pair.0@, config::notices(pair.1@))),
        Err(e) => Err(e@),
    }
}

struct Draft {
    global: Option<GlobalConfig>,
    watchdog: Option<WatchdogConfig>,
    gpus: Vec<GpuConfig>,
    fans: Vec<FanConfig>,
    groups: Vec<GroupConfig>,
    warnings: Vec<Warning>,
}

impl View for Draft {
    type V = DraftModel;

    closed spec fn view(&self) -> DraftModel {
        DraftModel {
            global: match self.global {
                Some(g) => Some(g@),
                None => None,
            },
            watchdog: match self.watchdog {
                Some(w) => Some(w@),
                None => None,
            },
            gpus: config::gpu_models(self.gpus@),
            fans: config::fan_models(self.fans@),
            groups: config::group_models(self.groups@),
            notices: config::notices(self.warnings@),
        }
    }
}

fn add_values(
    draft: &mut Draft,
    kind: SectionKind,
    name: &str,
    id: String,
    entries: &Vec<(String, String)>,
) -> (r: Result<(), ConfigError>)
    ensures
        match r {
            Ok(()) => with_values(
                old(draft)@,
                kind,
                name@,
                id@,
                document::entry_texts(entries@),
            ) == Ok::<DraftModel, ConfigFault>(final(draft)@),
            Err(e) => with_values(
                old(draft)@,
                kind,
                name@,
                id@,
                document::entry_texts(entries@),
            ) == Err::<DraftModel, ConfigFault>(e@),
        },
{
    let ghost before = draft@;
    match kind {
        SectionKind::Global => {
            match read_global(name, entries) {
                Ok(v) => draft.global = Some(v),
                Err(e) => return Err(e),
            }
        },
        SectionKind::Watchdog => {
            match read_watchdog(name, entries) {
                Ok(v) => draft.watchdog = Some(v),
                Err(e) => return Err(e),
            }
        },
        SectionKind::Gpu => {
            match read_gpu(name, id, entries) {
                Ok(v) => {
                    draft.gpus.push(v);
                    assert(draft@.gpus =~= before.gpus.push(v@));
                },
                Err(e) => return Err(e),
            }
        },
        SectionKind::Fan => {
            match read_fan(name, id, entries) {
                Ok(v) => {
                    draft.fans.push(v);
                    assert(draft@.fans =~= before.fans.push(v@));
                },
                Err(e) => return Err(e),
            }
        },
        SectionKind::Group => {
            match read_group(name, id, entries) {
                Ok(v) => {
                    draft.groups.push(v);
                    assert(draft@.groups =~= before.groups.push(v@));
                },
                Err(e) => return Err(e),
            }
        },
    }
    Ok(())
}

fn add_section(draft: &mut Draft, section: &Section) -> (r: Result<(), ConfigError>)
    ensures
        match r {
            Ok(()) => with_section(old(draft)@, document::section_text(*section)) == Ok::<
                DraftModel,
                ConfigFault,
            >(final(draft)@),
            Err(e) => with_section(old(draft)@, document::section_text(*section)) == Err::<
                DraftModel,
                ConfigFault,
            >(e@),
        },
{
    let entries: &Vec<(String, String)> = &section.1;
    match &section.0 {
        None => {
            if entries.len() > 0 {
                Err(ConfigError::Ini("keys must live inside a [section]".to_string()))
            } else {
                Ok(())
            }
        },
        Some(name) => {
            match classify_section(name.as_str()) {
                None => Err(ConfigError::UnknownSection(name.clone())),
                Some((kind, id)) => {
                    note_unknown_keys(name.as_str(), kind, entries, &mut draft.warnings);
                    let id: String = match id {
                        Some(id) => id,
                        None => String::new(),
                    };
                    add_values(draft, kind, name.as_str(), id, entries)
                },
            }
        },
    }
}

proof fn lemma_section_error_stays(
    sections: Seq<(Option<Seq<char>>, Seq<(Seq<char>, Seq<char>)>)>,
    n: int,
)
    requires
        0 <= n <= sections.len(),
        draft_of(sections.take(n)) is Err,
    ensures
        draft_of(sections) == draft_of(sections.take(n)),
    decreases sections.len() - n,
{
    if n == sections.len() {
        assert(sections.take(n) =~= sections);
    } else {
        assert(sections.take(n + 1).drop_last() =~= sections.take(n));
        lemma_section_error_stays(sections, n + 1);
    }
}

/// Builds a configuration from the sections of a document, or from the message
/// of the parser where there is no document. Stops at the first error.
pub fn from_document(document: Result<Vec<Section>, String>) -> (r: Result<
    (Config, Vec<Warning>),
    ConfigError,
>)
    ensures
        loaded(r) == config_of(document::document_text(document)),
{
    let sections: Vec<Section> = match document {
        Ok(sections) => sections,
        Err(message) => return Err(ConfigError::Ini(message)),
    };
    let ghost all = document::section_texts(sections@);
    let mut draft: Draft = Draft {
        global: None,
        watchdog: None,
        gpus: Vec::new(),
        fans: Vec::new(),
        groups: Vec::new(),
        warnings: Vec::new(),
    };
    assert(draft@.gpus =~= seq![] && draft@.fans =~= seq![] && draft@.groups =~= seq![]
        && draft@.notices =~= seq![]);
    let mut i: usize = 0;
    while i < sections.len()
        invariant
            i <= sections.len(),
            all == document::section_texts(sections@),
            document::document_text(document) == Ok::<
                Seq<(Option<Seq<char>>, Seq<(Seq<char>, Seq<char>)>)>,
                Seq<char>,
            >(all),
            draft_of(all.take(i as int)) == Ok::<DraftModel, ConfigFault>(draft@),
        decreases sections.len() - i,
    {
        assert(all.take(i + 1).drop_last() =~= all.take(i as int));
        assert(all.take(i + 1).last() == document::section_text(sections@[i as int]));
        match add_section(&mut draft, &sections[i]) {
            Ok(()) => {},
            Err(e) => {
                proof {
                    lemma_section_error_stays(all, i + 1);
                }
                return Err(e);
            },
        }
        i = i + 1;
    }
    assert(all.take(i as int) =~= all);
    let Draft { global, watchdog, gpus, fans, groups, warnings } = draft;
    let global: GlobalConfig = match global {
        Some(g) => g,
        None => return Err(ConfigError::MissingSection("global".to_string())),
    };
    let watchdog: WatchdogConfig = match watchdog {
        Some(w) => w,
        None => return Err(ConfigError::MissingSection("watchdog".to_string())),
    };
    Ok((Config { global, watchdog, gpus, fans, groups }, warnings))
}

/// Reads the text of a configuration file. Stops at the first error: a text that
/// is no INI document, a key outside a section, an unknown section, a missing key
/// or section, or a value of the wrong form.
pub fn parse(s: &str) -> (r: Result<(Config, Vec<Warning>), ConfigError>)
    ensures
        loaded(r) == config_of(document::ini_document(s@)),
{
    from_document(document::read_ini(s))
}

// ---------------------------------------------------------------------------
// Files
// ---------------------------------------------------------------------------

/// What is made of a configuration that was read: it is refused where it breaks a
/// rule.
pub open spec fn accepted_of(parsed: Result<(ConfigModel, Seq<Notice>), ConfigFault>) -> Result<
    (ConfigModel, Seq<Notice>),
    ConfigFault,
> {
    match parsed {
        Err(e) => Err(e),
        Ok((c, noted)) => if rules::violations(c).len() > 0 {
            Err(ConfigFault::Validation(rules::violations(c)))
        } else {
            Ok((c, noted))
        },
    }
}

/// The configuration in a file, given its contents or the message of the failed
/// read.
pub open spec fn file_config(contents: Result<Seq<char>, Seq<char>>) -> Result<
    (ConfigModel, Seq<Notice>),
    ConfigFault,
> {
    match contents {
        Err(message) => Err(ConfigFault::Io(message)),
        Ok(s) => accepted_of(config_of(document::ini_document(s))),
    }
}

/// The text of a file, or the message of the failed read.
pub open spec fn contents_text(contents: Result<String, String>) -> Result<Seq<char>, Seq<char>> {
    match contents {
        Ok(s) => Ok(s@),
        Err(message) => Err(message@),
    }
}

/// Refuses a configuration that breaks a rule, and lets every other outcome of
/// reading it stand.
pub fn accept(parsed: Result<(Config, Vec<Warning>), ConfigError>) -> (r: Result<
    (Config, Vec<Warning>),
    ConfigError,
>)
    ensures
        loaded(r) == accepted_of(loaded(parsed)),
{
    match parsed {
        Err(e) => Err(e),
        Ok((cfg, warnings)) => match rules::validate(&cfg) {
            Ok(()) => Ok((cfg, warnings)),
            Err(errs) => Err(ConfigError::Validation(errs)),
        },
    }
}

/// Reads and checks a configuration, given what reading its file gave: the
/// contents, or the message of the error.
pub fn load(contents: Result<String, String>) -> (r: Result<(Config, Vec<Warning>), ConfigError>)
    ensures
        loaded(r) == file_config(contents_text(contents)),
{
    match contents {
        Err(message) => Err(ConfigError::Io(message)),
        Ok(s) => accept(parse(s.as_str())),
    }
}

// ---------------------------------------------------------------------------
// Laws
// ---------------------------------------------------------------------------

/// Only a configuration that keeps every rule is ever handed out.
pub proof fn loaded_config_is_valid(contents: Result<Seq<char>, Seq<char>>)
    ensures
        file_config(contents) matches Ok((c, _)) ==> rules::is_valid(c),
{
    if let Ok((c, _)) = file_config(contents) {
        rules::validation_is_exact(c);
    }
}

/// Whether a section is out of place: keys before the first header, or a header
/// that announces nothing.
pub open spec fn is_foreign(section: (Option<Seq<char>>, Seq<(Seq<char>, Seq<char>)>)) -> bool {
    match section.0 {
        None => section.1.len() > 0,
        Some(name) => classified(name) is None,
    }
}

/// A document with a section that is out of place is refused, whatever else it
/// holds (T1).
pub proof fn foreign_sections_are_refused(
    sections: Seq<(Option<Seq<char>>, Seq<(Seq<char>, Seq<char>)>)>,
    i: int,
)
    requires
        0 <= i < sections.len(),
        is_foreign(sections[i]),
    ensures
        draft_of(sections) is Err,
        config_of(Ok(sections)) is Err,
{
    assert(sections.take(i + 1).drop_last() =~= sections.take(i));
    assert(sections.take(i + 1).last() == sections[i]);
    lemma_section_error_stays(sections, i + 1);
}

proof fn lemma_lookup_add(
    a: Seq<(Seq<char>, Seq<char>)>,
    b: Seq<(Seq<char>, Seq<char>)>,
    key: Seq<char>,
)
    ensures
        document::lookup(a + b, key) == (match document::lookup(a, key) {
            Some(v) => Some(v),
            None => document::lookup(b, key),
        }),
    decreases a.len(),
{
    if a.len() == 0 {
        assert(a + b =~= b);
    } else {
        assert((a + b).drop_first() =~= a.drop_first() + b);
        lemma_lookup_add(a.drop_first(), b, key);
    }
}

proof fn lemma_lookup_skips(
    a: Seq<(Seq<char>, Seq<char>)>,
    e: (Seq<char>, Seq<char>),
    b: Seq<(Seq<char>, Seq<char>)>,
    key: Seq<char>,
)
    requires
        e.0 != key,
    ensures
        document::lookup(a + seq![e] + b, key) == document::lookup(a + b, key),
{
    lemma_lookup_add(a + seq![e], b, key);
    lemma_lookup_add(a, seq![e], key);
    lemma_lookup_add(a, b, key);
    assert(seq![e].drop_first() =~= Seq::<(Seq<char>, Seq<char>)>::empty());
    assert(document::lookup(Seq::<(Seq<char>, Seq<char>)>::empty(), key) is None);
}

/// Whether two lists of entries give each of `keys` the same value.
pub open spec fn agree_on(keys: Seq<Seq<char>>, x: Seq<(Seq<char>, Seq<char>)>, y: Seq<
    (Seq<char>, Seq<char>),
>) -> bool {
    forall|k: int|
        0 <= k < keys.len() ==> document::lookup(x, #[trigger] keys[k]) == document::lookup(
            y,
            keys[k],
        )
}

proof fn lemma_global_depends_on_its_keys(
    name: Seq<char>,
    x: Seq<(Seq<char>, Seq<char>)>,
    y: Seq<(Seq<char>, Seq<char>)>,
)
    requires
        agree_on(keys_of(SectionKind::Global), x, y),
    ensures
        global_of(name, x) == global_of(name, y),
{
    let keys = keys_of(SectionKind::Global);
    assert(keys[0] == "config_version"@);
    assert(keys[1] == "poll_interval_ms"@);
    assert(keys[2] == "log_level"@);
    assert(keys[3] == "log_file"@);
    assert(keys[4] == "power_limit_check_interval_s"@);
    assert(keys[5] == "power_limit_restore_on_shutdown"@);
    assert(keys[6] == "power_limit_validate_max_w"@);
}

proof fn lemma_watchdog_depends_on_its_keys(
    name: Seq<char>,
    x: Seq<(Seq<char>, Seq<char>)>,
    y: Seq<(Seq<char>, Seq<char>)>,
)
    requires
        agree_on(keys_of(SectionKind::Watchdog), x, y),
    ensures
        watchdog_of(name, x) == watchdog_of(name, y),
{
    let keys = keys_of(SectionKind::Watchdog);
    assert(keys[0] == "enabled"@);
    assert(keys[1] == "device"@);
    assert(keys[2] == "timeout_s"@);
    assert(keys[3] == "gpu_fail_threshold"@);
}

proof fn lemma_gpu_depends_on_its_keys(
    name: Seq<char>,
    id: Seq<char>,
    x: Seq<(Seq<char>, Seq<char>)>,
    y: Seq<(Seq<char>, Seq<char>)>,
)
    requires
        agree_on(keys_of(SectionKind::Gpu), x, y),
    ensures
        gpu_of(name, id, x) == gpu_of(name, id, y),
{
    let keys = keys_of(SectionKind::Gpu);
    assert(keys[0] == "nvml_index"@);
    assert(keys[1] == "curve"@);
    assert(keys[2] == "min_fan_pct"@);
    assert(keys[3] == "max_fan_pct"@);
    assert(keys[4] == "power_limit_enabled"@);
    assert(keys[5] == "power_limit_w"@);
}

proof fn lemma_fan_depends_on_its_keys(
    name: Seq<char>,
    id: Seq<char>,
    x: Seq<(Seq<char>, Seq<char>)>,
    y: Seq<(Seq<char>, Seq<char>)>,
)
    requires
        agree_on(keys_of(SectionKind::Fan), x, y),
    ensures
        fan_of(name, id, x) == fan_of(name, id, y),
{
    let keys = keys_of(SectionKind::Fan);
    assert(keys[0] == "chip"@);
    assert(keys[1] == "device_path"@);
    assert(keys[2] == "hwmon_path"@);
    assert(keys[3] == "pwm_channel"@);
    assert(keys[4] == "min_rpm"@);
    assert(keys[5] == "max_rpm"@);
    assert(keys[6] == "fan_fail_threshold"@);
    assert(keys[7] == "spin_up_grace_s"@);
}

proof fn lemma_group_depends_on_its_keys(
    name: Seq<char>,
    id: Seq<char>,
    x: Seq<(Seq<char>, Seq<char>)>,
    y: Seq<(Seq<char>, Seq<char>)>,
)
    requires
        agree_on(keys_of(SectionKind::Group), x, y),
    ensures
        group_of(name, id, x) == group_of(name, id, y),
{
    let keys = keys_of(SectionKind::Group);
    assert(keys[0] == "gpus"@);
    assert(keys[1] == "fans"@);
}

proof fn lemma_keys_skip_unknown(
    kind: SectionKind,
    a: Seq<(Seq<char>, Seq<char>)>,
    e: (Seq<char>, Seq<char>),
    b: Seq<(Seq<char>, Seq<char>)>,
)
    requires
        !keys_of(kind).contains(e.0),
    ensures
        agree_on(keys_of(kind), a + seq![e] + b, a + b),
{
    let keys = keys_of(kind);
    assert forall|k: int| 0 <= k < keys.len() implies document::lookup(
        a + seq![e] + b,
        #[trigger] keys[k],
    ) == document::lookup(a + b, keys[k]) by {
        assert(keys.contains(keys[k]));
        lemma_lookup_skips(a, e, b, keys[k]);
    }
}

/// An unknown key is no error and has no effect (T2): wherever it stands in its
/// section, the values that are read, or the error, are those without it.
pub proof fn unknown_keys_change_nothing(
    d: DraftModel,
    kind: SectionKind,
    name: Seq<char>,
    id: Seq<char>,
    a: Seq<(Seq<char>, Seq<char>)>,
    e: (Seq<char>, Seq<char>),
    b: Seq<(Seq<char>, Seq<char>)>,
)
    requires
        !keys_of(kind).contains(e.0),
    ensures
        with_values(d, kind, name, id, a + seq![e] + b) == with_values(d, kind, name, id, a + b),
{
    let x = a + seq![e] + b;
    let y = a + b;
    lemma_keys_skip_unknown(kind, a, e, b);
    match kind {
        SectionKind::Global => lemma_global_depends_on_its_keys(name, x, y),
        SectionKind::Watchdog => lemma_watchdog_depends_on_its_keys(name, x, y),
        SectionKind::Gpu => lemma_gpu_depends_on_its_keys(name, id, x, y),
        SectionKind::Fan => lemma_fan_depends_on_its_keys(name, id, x, y),
        SectionKind::Group => lemma_group_depends_on_its_keys(name, id, x, y),
    }
}

/// Whether a notice is about an unknown key of one of the sections.
pub open spec fn is_justified(
    sections: Seq<(Option<Seq<char>>, Seq<(Seq<char>, Seq<char>)>)>,
    notice: Notice,
) -> bool {
    exists|i: int, k: int|
        {
            &&& 0 <= i < sections.len()
            &&& 0 <= k < sections[i].1.len()
            &&& sections[i].0 == Some(notice.section)
            &&& (#[trigger] sections[i].1[k]).0 == notice.key
            &&& classified(notice.section) matches Some((kind, _)) && !keys_of(kind).contains(
                notice.key,
            )
        }
}

proof fn lemma_unknown_keys(
    name: Seq<char>,
    kind: SectionKind,
    entries: Seq<(Seq<char>, Seq<char>)>,
    n: int,
)
    requires
        0 <= n < unknown_keys(name, kind, entries).len(),
    ensures
        unknown_keys(name, kind, entries)[n].section == name,
        !keys_of(kind).contains(unknown_keys(name, kind, entries)[n].key),
        exists|k: int|
            0 <= k < entries.len() && (#[trigger] entries[k]).0 == unknown_keys(
                name,
                kind,
                entries,
            )[n].key,
    decreases entries.len(),
{
    let front = entries.drop_last();
    let noted = unknown_keys(name, kind, front);
    if n < noted.len() {
        lemma_unknown_keys(name, kind, front, n);
        let k = choose|k: int| 0 <= k < front.len() && (#[trigger] front[k]).0 == noted[n].key;
        assert(entries[k] == front[k]);
    } else {
        assert(entries[entries.len() - 1] == entries.last());
    }
}

/// The notices that one section gives rise to.
pub open spec fn section_notices(
    section: (Option<Seq<char>>, Seq<(Seq<char>, Seq<char>)>),
) -> Seq<Notice> {
    match section.0 {
        None => seq![],
        Some(name) => match classified(name) {
            None => seq![],
            Some((kind, _)) => unknown_keys(name, kind, section.1),
        },
    }
}

/// The notices that a list of sections gives rise to.
pub open spec fn notices_of(
    sections: Seq<(Option<Seq<char>>, Seq<(Seq<char>, Seq<char>)>)>,
) -> Seq<Notice>
    decreases sections.len(),
{
    if sections.len() == 0 {
        seq![]
    } else {
        notices_of(sections.drop_last()) + section_notices(sections.last())
    }
}

/// Where a document is read, its notices are those of its sections, in order.
pub proof fn notices_follow_the_sections(
    sections: Seq<(Option<Seq<char>>, Seq<(Seq<char>, Seq<char>)>)>,
)
    requires
        draft_of(sections) is Ok,
    ensures
        draft_of(sections)->Ok_0.notices == notices_of(sections),
    decreases sections.len(),
{
    if sections.len() > 0 {
        notices_follow_the_sections(sections.drop_last());
        let before = notices_of(sections.drop_last());
        assert(before + Seq::<Notice>::empty() =~= before);
    }
}

/// Every notice is about a key that stands in the document and that its section
/// does not know.
pub proof fn notices_are_justified(
    sections: Seq<(Option<Seq<char>>, Seq<(Seq<char>, Seq<char>)>)>,
    n: int,
)
    requires
        0 <= n < notices_of(sections).len(),
    ensures
        is_justified(sections, notices_of(sections)[n]),
    decreases sections.len(),
{
    let front = sections.drop_last();
    let last = sections.last();
    let before = notices_of(front);
    let added = section_notices(last);
    if n < before.len() {
        notices_are_justified(front, n);
        lemma_justified_in_front(sections, before[n]);
    } else {
        let name = last.0->0;
        let (kind, _) = classified(name)->0;
        let notice = added[n - before.len()];
        lemma_unknown_keys(name, kind, last.1, n - before.len());
        let k = choose|k: int| 0 <= k < last.1.len() && (#[trigger] last.1[k]).0 == notice.key;
        assert(sections[sections.len() - 1].1[k].0 == notice.key);
    }
}

proof fn lemma_justified_in_front(
    sections: Seq<(Option<Seq<char>>, Seq<(Seq<char>, Seq<char>)>)>,
    notice: Notice,
)
    requires
        sections.len() > 0,
        is_justified(sections.drop_last(), notice),
    ensures
        is_justified(sections, notice),
{
    let front = sections.drop_last();
    let (i, k) = choose|i: int, k: int|
        {
            &&& 0 <= i < front.len()
            &&& 0 <= k < front[i].1.len()
            &&& front[i].0 == Some(notice.section)
            &&& (#[trigger] front[i].1[k]).0 == notice.key
            &&& classified(notice.section) matches Some((kind, _)) && !keys_of(kind).contains(
                notice.key,
            )
        };
    assert(sections[i] == front[i]);
    assert(sections[i].1[k].0 == notice.key);
}

proof fn lemma_unknown_key_is_noted(
    name: Seq<char>,
    kind: SectionKind,
    entries: Seq<(Seq<char>, Seq<char>)>,
    k: int,
)
    requires
        0 <= k < entries.len(),
        !keys_of(kind).contains(entries[k].0),
    ensures
        unknown_keys(name, kind, entries).contains(unknown_key_notice(name, entries[k].0)),
    decreases entries.len(),
{
    let front = entries.drop_last();
    let noted = unknown_keys(name, kind, front);
    let notice = unknown_key_notice(name, entries[k].0);
    let all = unknown_keys(name, kind, entries);
    if k < front.len() {
        lemma_unknown_key_is_noted(name, kind, front, k);
        let n = choose|n: int| 0 <= n < noted.len() && noted[n] == notice;
        assert(all[n] == notice);
    } else {
        assert(all[all.len() - 1] == notice);
    }
}

/// No unknown key goes unnoticed.
pub proof fn unknown_keys_are_noted(
    sections: Seq<(Option<Seq<char>>, Seq<(Seq<char>, Seq<char>)>)>,
    i: int,
    k: int,
)
    requires
        0 <= i < sections.len(),
        0 <= k < sections[i].1.len(),
        sections[i].0 matches Some(name) && classified(name) matches Some((kind, _))
            && !keys_of(kind).contains(sections[i].1[k].0),
    ensures
        notices_of(sections).contains(
            unknown_key_notice(sections[i].0->0, sections[i].1[k].0),
        ),
    decreases sections.len(),
{
    let front = sections.drop_last();
    let before = notices_of(front);
    let after = notices_of(sections);
    let added = section_notices(sections.last());
    let notice = unknown_key_notice(sections[i].0->0, sections[i].1[k].0);
    if i < front.len() {
        assert(front[i] == sections[i]);
        unknown_keys_are_noted(front, i, k);
        let n = choose|n: int| 0 <= n < before.len() && before[n] == notice;
        assert(after[n] == notice);
    } else {
        let name = sections[i].0->0;
        let (kind, _) = classified(name)->0;
        lemma_unknown_key_is_noted(name, kind, sections[i].1, k);
        let n = choose|n: int| 0 <= n < added.len() && added[n] == notice;
        assert(after[before.len() + n] == notice);
    }
}

/// A draft, or the error in its place, with the notices left aside.
pub open spec fn without_notices(r: Result<DraftModel, ConfigFault>) -> Result<
    DraftModel,
    ConfigFault,
> {
    match r {
        Ok(d) => Ok(DraftModel { notices: seq![], ..d }),
        Err(e) => Err(e),
    }
}

proof fn lemma_values_ignore_notices(
    d1: DraftModel,
    d2: DraftModel,
    kind: SectionKind,
    name: Seq<char>,
    id: Seq<char>,
    entries: Seq<(Seq<char>, Seq<char>)>,
)
    requires
        without_notices(Ok(d1)) == without_notices(Ok(d2)),
    ensures
        without_notices(with_values(d1, kind, name, id, entries)) == without_notices(
            with_values(d2, kind, name, id, entries),
        ),
{
}

proof fn lemma_section_ignores_notices(
    d1: DraftModel,
    d2: DraftModel,
    section: (Option<Seq<char>>, Seq<(Seq<char>, Seq<char>)>),
)
    requires
        without_notices(Ok(d1)) == without_notices(Ok(d2)),
    ensures
        without_notices(with_section(d1, section)) == without_notices(with_section(d2, section)),
{
    if let Some(name) = section.0 {
        if let Some((kind, id)) = classified(name) {
            let i = match id {
                Some(i) => i,
                None => seq![],
            };
            let added = unknown_keys(name, kind, section.1);
            lemma_values_ignore_notices(
                DraftModel { notices: d1.notices + added, ..d1 },
                DraftModel { notices: d2.notices + added, ..d2 },
                kind,
                name,
                i,
                section.1,
            );
        }
    }
}

proof fn lemma_section_ignores_unknown_key(
    d1: DraftModel,
    d2: DraftModel,
    name: Seq<char>,
    a: Seq<(Seq<char>, Seq<char>)>,
    e: (Seq<char>, Seq<char>),
    b: Seq<(Seq<char>, Seq<char>)>,
)
    requires
        without_notices(Ok(d1)) == without_notices(Ok(d2)),
        classified(name) matches Some((kind, _)) && !keys_of(kind).contains(e.0),
    ensures
        without_notices(with_section(d1, (Some(name), a + seq![e] + b))) == without_notices(
            with_section(d2, (Some(name), a + b)),
        ),
{
    let (kind, id) = classified(name)->0;
    let i = match id {
        Some(i) => i,
        None => seq![],
    };
    let n1 = DraftModel { notices: d1.notices + unknown_keys(name, kind, a + seq![e] + b), ..d1 };
    let n2 = DraftModel { notices: d2.notices + unknown_keys(name, kind, a + b), ..d2 };
    unknown_keys_change_nothing(n1, kind, name, i, a, e, b);
    lemma_values_ignore_notices(n1, n2, kind, name, i, a + b);
}

proof fn lemma_unknown_keys_add(
    name: Seq<char>,
    kind: SectionKind,
    a: Seq<(Seq<char>, Seq<char>)>,
    b: Seq<(Seq<char>, Seq<char>)>,
)
    ensures
        unknown_keys(name, kind, a + b) == unknown_keys(name, kind, a) + unknown_keys(
            name,
            kind,
            b,
        ),
    decreases b.len(),
{
    if b.len() == 0 {
        assert(a + b =~= a);
        assert(unknown_keys(name, kind, a) + Seq::<Notice>::empty() =~= unknown_keys(name, kind, a));
    } else {
        assert((a + b).drop_last() =~= a + b.drop_last());
        lemma_unknown_keys_add(name, kind, a, b.drop_last());
        assert(unknown_keys(name, kind, a + b) =~= unknown_keys(name, kind, a) + unknown_keys(
            name,
            kind,
            b,
        ));
    }
}

/// Whether `after` is `before` with `notice` put in at one place.
pub open spec fn gains(before: Seq<Notice>, after: Seq<Notice>, notice: Notice) -> bool {
    exists|n: int| 0 <= n <= before.len() && after == #[trigger] before.insert(n, notice)
}

proof fn lemma_gains_in_sum(front: Seq<Notice>, before: Seq<Notice>, after: Seq<Notice>, tail: Seq<
    Notice,
>, notice: Notice)
    requires
        gains(before, after, notice),
    ensures
        gains(front + before + tail, front + after + tail, notice),
{
    let n = choose|n: int| 0 <= n <= before.len() && after == #[trigger] before.insert(n, notice);
    assert(front + after + tail =~= (front + before + tail).insert(front.len() + n, notice));
}

proof fn lemma_section_gains_notice(
    name: Seq<char>,
    kind: SectionKind,
    a: Seq<(Seq<char>, Seq<char>)>,
    e: (Seq<char>, Seq<char>),
    b: Seq<(Seq<char>, Seq<char>)>,
)
    requires
        !keys_of(kind).contains(e.0),
    ensures
        gains(
            unknown_keys(name, kind, a + b),
            unknown_keys(name, kind, a + seq![e] + b),
            unknown_key_notice(name, e.0),
        ),
{
    let notice = unknown_key_notice(name, e.0);
    let ua = unknown_keys(name, kind, a);
    let ub = unknown_keys(name, kind, b);
    lemma_unknown_keys_add(name, kind, a, b);
    lemma_unknown_keys_add(name, kind, a, seq![e]);
    lemma_unknown_keys_add(name, kind, a + seq![e], b);
    assert(seq![e].drop_last() =~= Seq::<(Seq<char>, Seq<char>)>::empty());
    assert(unknown_keys(name, kind, Seq::empty()) =~= Seq::<Notice>::empty());
    assert(unknown_keys(name, kind, seq![e]) =~= seq![notice]);
    assert(ua + seq![notice] + ub =~= (ua + ub).insert(ua.len() as int, notice));
}

/// A document with one more entry in one of its sections.
pub open spec fn with_entry(
    sections: Seq<(Option<Seq<char>>, Seq<(Seq<char>, Seq<char>)>)>,
    i: int,
    at: int,
    e: (Seq<char>, Seq<char>),
) -> Seq<(Option<Seq<char>>, Seq<(Seq<char>, Seq<char>)>)> {
    sections.update(i, (sections[i].0, sections[i].1.insert(at, e)))
}

/// Whether an entry can stand at a place in a document where its section does not
/// know its key.
pub open spec fn is_unknown_at(
    sections: Seq<(Option<Seq<char>>, Seq<(Seq<char>, Seq<char>)>)>,
    i: int,
    at: int,
    e: (Seq<char>, Seq<char>),
) -> bool {
    &&& 0 <= i < sections.len()
    &&& 0 <= at <= sections[i].1.len()
    &&& sections[i].0 matches Some(name) && classified(name) matches Some((kind, _)) && !keys_of(
        kind,
    ).contains(e.0)
}

proof fn lemma_insert_is_split(
    entries: Seq<(Seq<char>, Seq<char>)>,
    at: int,
    e: (Seq<char>, Seq<char>),
)
    requires
        0 <= at <= entries.len(),
    ensures
        entries == entries.take(at) + entries.skip(at),
        entries.insert(at, e) == entries.take(at) + seq![e] + entries.skip(at),
{
    assert(entries =~= entries.take(at) + entries.skip(at));
    assert(entries.insert(at, e) =~= entries.take(at) + seq![e] + entries.skip(at));
}

proof fn lemma_draft_ignores_unknown_key(
    sections: Seq<(Option<Seq<char>>, Seq<(Seq<char>, Seq<char>)>)>,
    i: int,
    at: int,
    e: (Seq<char>, Seq<char>),
)
    requires
        is_unknown_at(sections, i, at, e),
    ensures
        without_notices(draft_of(with_entry(sections, i, at, e))) == without_notices(
            draft_of(sections),
        ),
    decreases sections.len(),
{
    let after = with_entry(sections, i, at, e);
    let front = sections.drop_last();
    if i == sections.len() - 1 {
        assert(after.drop_last() =~= front);
        if let Ok(d) = draft_of(front) {
            let name = sections[i].0->0;
            lemma_insert_is_split(sections[i].1, at, e);
            lemma_section_ignores_unknown_key(
                d,
                d,
                name,
                sections[i].1.take(at),
                e,
                sections[i].1.skip(at),
            );
            assert(after.last() == (Some(name), sections[i].1.insert(at, e)));
            assert(sections.last() == (Some(name), sections[i].1));
        }
    } else {
        assert(front[i] == sections[i]);
        assert(after.drop_last() =~= with_entry(front, i, at, e));
        assert(after.last() == sections.last());
        lemma_draft_ignores_unknown_key(front, i, at, e);
        if let Ok(d) = draft_of(front) {
            let d2 = draft_of(after.drop_last())->Ok_0;
            lemma_section_ignores_notices(d2, d, sections.last());
        }
    }
}

proof fn lemma_document_gains_notice(
    sections: Seq<(Option<Seq<char>>, Seq<(Seq<char>, Seq<char>)>)>,
    i: int,
    at: int,
    e: (Seq<char>, Seq<char>),
)
    requires
        is_unknown_at(sections, i, at, e),
    ensures
        gains(
            notices_of(sections),
            notices_of(with_entry(sections, i, at, e)),
            unknown_key_notice(sections[i].0->0, e.0),
        ),
    decreases sections.len(),
{
    let after = with_entry(sections, i, at, e);
    let front = sections.drop_last();
    let notice = unknown_key_notice(sections[i].0->0, e.0);
    let none = Seq::<Notice>::empty();
    if i == sections.len() - 1 {
        let name = sections[i].0->0;
        let (kind, _) = classified(name)->0;
        let a = sections[i].1.take(at);
        let b = sections[i].1.skip(at);
        assert(after.drop_last() =~= front);
        lemma_insert_is_split(sections[i].1, at, e);
        lemma_section_gains_notice(name, kind, a, e, b);
        lemma_gains_in_sum(
            notices_of(front),
            section_notices(sections.last()),
            section_notices(after.last()),
            none,
            notice,
        );
        assert(notices_of(sections) + none =~= notices_of(sections));
        assert(notices_of(after) + none =~= notices_of(after));
    } else {
        assert(front[i] == sections[i]);
        assert(after.drop_last() =~= with_entry(front, i, at, e));
        assert(after.last() == sections.last());
        lemma_document_gains_notice(front, i, at, e);
        lemma_gains_in_sum(
            none,
            notices_of(front),
            notices_of(after.drop_last()),
            section_notices(sections.last()),
            notice,
        );
        assert(none + notices_of(front) =~= notices_of(front));
        assert(none + notices_of(after.drop_last()) =~= notices_of(after.drop_last()));
    }
}

/// An unknown key anywhere in a document adds one notice and changes nothing else
/// (T2): the document is read if and only if it is read without the key, to the
/// same configuration or the same error.
pub proof fn unknown_key_only_adds_a_notice(
    sections: Seq<(Option<Seq<char>>, Seq<(Seq<char>, Seq<char>)>)>,
    i: int,
    at: int,
    e: (Seq<char>, Seq<char>),
)
    requires
        is_unknown_at(sections, i, at, e),
    ensures
        without_notices(draft_of(with_entry(sections, i, at, e))) == without_notices(
            draft_of(sections),
        ),
        match (draft_of(sections), draft_of(with_entry(sections, i, at, e))) {
            (Ok(before), Ok(after)) => gains(
                before.notices,
                after.notices,
                unknown_key_notice(sections[i].0->0, e.0),
            ) && after.notices.len() == before.notices.len() + 1,
            (before, after) => before == after,
        },
        match (config_of(Ok(sections)), config_of(Ok(with_entry(sections, i, at, e)))) {
            (Ok((c, before)), Ok((c_after, after))) => c_after == c && gains(
                before,
                after,
                unknown_key_notice(sections[i].0->0, e.0),
            ),
            (before, after) => before == after,
        },
{
    let after = with_entry(sections, i, at, e);
    lemma_draft_ignores_unknown_key(sections, i, at, e);
    lemma_document_gains_notice(sections, i, at, e);
    if draft_of(sections) is Ok {
        notices_follow_the_sections(sections);
        notices_follow_the_sections(after);
    }
}

/// Whatever is read as a curve obeys the rules for curves.
pub proof fn parsed_curves_are_curves(
    sections: Seq<(Option<Seq<char>>, Seq<(Seq<char>, Seq<char>)>)>,
    i: int,
)
    requires
        draft_of(sections) matches Ok(d) && 0 <= i < d.gpus.len(),
    ensures
        draft_of(sections) matches Ok(d) && curve::is_curve(d.gpus[i].curve),
    decreases sections.len(),
{
    if sections.len() > 0 {
        let before = draft_of(sections.drop_last())->Ok_0;
        let d = draft_of(sections)->Ok_0;
        if i < before.gpus.len() {
            parsed_curves_are_curves(sections.drop_last(), i);
            assert(d.gpus[i] == before.gpus[i]);
        } else {
            curve::curve_rules_are_complete(d.gpus[i].curve);
        }
    }
}

// ---------------------------------------------------------------------------
// What a section says
// ---------------------------------------------------------------------------

/// Whether a value, in letters of any case and with white space around it, is a word
/// for on, or for off.
pub open spec fn says(raw: Seq<char>, on: bool) -> bool {
    let word = text::lower(text::trimmed(raw));
    if on {
        word == "true"@ || word == "yes"@ || word == "1"@
    } else {
        word == "false"@ || word == "no"@ || word == "0"@
    }
}

/// Whether the first entry under `key` writes the number `v`.
pub open spec fn number_under(entries: Seq<(Seq<char>, Seq<char>)>, key: Seq<char>, v: int) -> bool {
    exists|i: int| #[trigger]
        document::is_first_under(entries, key, i) && text::integer_of(
            text::trimmed(entries[i].1),
            0,
            0xffff_ffff,
        ) == Ok::<int, text::IntError>(v)
}

/// Whether the first entry under `key` is a word for on, or for off.
pub open spec fn switch_under(
    entries: Seq<(Seq<char>, Seq<char>)>,
    key: Seq<char>,
    on: bool,
) -> bool {
    exists|i: int| #[trigger]
        document::is_first_under(entries, key, i) && says(entries[i].1, on)
}

/// Whether the first entry under `key` writes `value`, with white space around it or not.
pub open spec fn text_under(
    entries: Seq<(Seq<char>, Seq<char>)>,
    key: Seq<char>,
    value: Seq<char>,
) -> bool {
    exists|i: int| #[trigger]
        document::is_first_under(entries, key, i) && text::trimmed(entries[i].1) == value
}

/// Whether nothing but white space, or no entry at all, stands under `key`.
pub open spec fn nothing_under(entries: Seq<(Seq<char>, Seq<char>)>, key: Seq<char>) -> bool {
    document::lacks(entries, key) || text_under(entries, key, Seq::empty())
}

/// Whether `value` is what stands under a key that may be left out.
pub open spec fn is_option_under(
    entries: Seq<(Seq<char>, Seq<char>)>,
    key: Seq<char>,
    value: Option<Seq<char>>,
) -> bool {
    match value {
        Some(t) => t.len() > 0 && text_under(entries, key, t),
        None => nothing_under(entries, key),
    }
}

/// Whether an error names a key of a section: as missing where it is, and else for its
/// value.
pub open spec fn complains(
    e: ConfigFault,
    name: Seq<char>,
    entries: Seq<(Seq<char>, Seq<char>)>,
    key: Seq<char>,
) -> bool {
    if document::lacks(entries, key) {
        e == (ConfigFault::MissingKey { section: name, key })
    } else {
        e is InvalidValue && e->InvalidValue_section == name && e->InvalidValue_key == key
    }
}

proof fn lemma_first_is_found(entries: Seq<(Seq<char>, Seq<char>)>, key: Seq<char>)
    ensures
        document::lookup(entries, key) is None <==> document::lacks(entries, key),
        forall|i: int| #[trigger]
            document::is_first_under(entries, key, i) ==> document::lookup(entries, key) == Some(
                entries[i].1,
            ),
        document::lookup(entries, key) is Some ==> exists|i: int| #[trigger]
            document::is_first_under(entries, key, i),
{
    document::first_entry_counts(entries, key, Seq::empty());
    assert forall|i: int| #[trigger] document::is_first_under(
        entries,
        key,
        i,
    ) implies document::lookup(entries, key) == Some(entries[i].1) by {
        document::first_entry_counts(entries, key, entries[i].1);
    }
    if let Some(v) = document::lookup(entries, key) {
        document::first_entry_counts(entries, key, v);
    }
}

/// A number that a section must hold is the one under its key. The key must be there and
/// its value a number; an error names the section and the key, and tells what is wrong
/// with the value.
pub proof fn required_number_stands_under_its_key(
    name: Seq<char>,
    entries: Seq<(Seq<char>, Seq<char>)>,
    key: Seq<char>,
    v: u32,
)
    ensures
        required_u32(name, entries, key) == Ok::<u32, ConfigFault>(v) <==> number_under(
            entries,
            key,
            v as int,
        ),
        required_u32(name, entries, key) matches Err(e) ==> complains(e, name, entries, key),
        required_u32(name, entries, key) is Ok ==> number_under(
            entries,
            key,
            required_u32(name, entries, key)->Ok_0 as int,
        ),
        forall|i: int| #[trigger]
            document::is_first_under(entries, key, i) && text::integer_of(
                text::trimmed(entries[i].1),
                0,
                0xffff_ffff,
            ) is Err ==> required_u32(name, entries, key) == Err::<u32, ConfigFault>(
                ConfigFault::InvalidValue {
                    section: name,
                    key,
                    message: "expected u32: "@ + text::integer_of(
                        text::trimmed(entries[i].1),
                        0,
                        0xffff_ffff,
                    )->Err_0.text(),
                },
            ),
{
    lemma_first_is_found(entries, key);
    if let Some(raw) = document::lookup(entries, key) {
        text::integers_stay_in_range(text::trimmed(raw), 0, 0xffff_ffff);
    }
}

proof fn lemma_words_differ()
    ensures
        forall|raw: Seq<char>| !(#[trigger] says(raw, true) && says(raw, false)),
{
    reveal_strlit("true");
    reveal_strlit("yes");
    reveal_strlit("1");
    reveal_strlit("false");
    reveal_strlit("no");
    reveal_strlit("0");
    assert forall|raw: Seq<char>| !(#[trigger] says(raw, true) && says(raw, false)) by {
        let word = text::lower(text::trimmed(raw));
        assert(word == "true"@ ==> word[0] == 't');
        assert(word == "yes"@ ==> word[0] == 'y');
        assert(word == "1"@ ==> word[0] == '1');
        assert(word == "false"@ ==> word[0] == 'f');
        assert(word == "no"@ ==> word[0] == 'n');
        assert(word == "0"@ ==> word[0] == '0');
    }
}

/// A switch is on for `true`, `yes` and `1` and off for `false`, `no` and `0`, in letters of
/// any case; any other word is an error that names the section and the key.
pub proof fn switches_are_read_by_their_word(section: Seq<char>, key: Seq<char>, raw: Seq<char>)
    ensures
        bool_of(section, key, raw) == Ok::<bool, ConfigFault>(true) <==> says(raw, true),
        bool_of(section, key, raw) == Ok::<bool, ConfigFault>(false) <==> says(raw, false),
        !says(raw, true) && !says(raw, false) ==> bool_of(section, key, raw) == Err::<
            bool,
            ConfigFault,
        >(
            ConfigFault::InvalidValue {
                section,
                key,
                message: "expected bool, got '"@ + text::lower(text::trimmed(raw)) + "'"@,
            },
        ),
{
    lemma_words_differ();
}

proof fn lemma_required_bool(
    name: Seq<char>,
    entries: Seq<(Seq<char>, Seq<char>)>,
    key: Seq<char>,
    on: bool,
)
    ensures
        required_bool(name, entries, key) == Ok::<bool, ConfigFault>(on) <==> switch_under(
            entries,
            key,
            on,
        ),
        required_bool(name, entries, key) matches Err(e) ==> complains(e, name, entries, key),
{
    lemma_first_is_found(entries, key);
    if let Some(raw) = document::lookup(entries, key) {
        switches_are_read_by_their_word(name, key, raw);
    }
}

proof fn lemma_required_text(
    name: Seq<char>,
    entries: Seq<(Seq<char>, Seq<char>)>,
    key: Seq<char>,
    value: Seq<char>,
)
    ensures
        required(name, entries, key) is Ok && text::trimmed(required(name, entries, key)->Ok_0)
            == value <==> text_under(entries, key, value),
        required(name, entries, key) is Err <==> document::lacks(entries, key),
        required(name, entries, key) matches Err(e) ==> complains(e, name, entries, key),
{
    lemma_first_is_found(entries, key);
}

/// A `[watchdog]` section is read exactly where each field is what stands under its own
/// key. The first key at fault is named where it is not.
pub proof fn watchdog_fields_stand_under_their_keys(
    name: Seq<char>,
    entries: Seq<(Seq<char>, Seq<char>)>,
    w: WatchdogModel,
)
    ensures
        watchdog_of(name, entries) == Ok::<WatchdogModel, ConfigFault>(w) <==> {
            &&& switch_under(entries, "enabled"@, w.enabled)
            &&& text_under(entries, "device"@, w.device)
            &&& number_under(entries, "timeout_s"@, w.timeout_s as int)
            &&& number_under(entries, "gpu_fail_threshold"@, w.gpu_fail_threshold as int)
        },
        watchdog_of(name, entries) matches Err(e) ==> {
            let enabled = exists|on: bool| switch_under(entries, "enabled"@, on);
            let device = !document::lacks(entries, "device"@);
            let timeout_s = exists|v: int| number_under(entries, "timeout_s"@, v);
            if !enabled {
                complains(e, name, entries, "enabled"@)
            } else if !device {
                complains(e, name, entries, "device"@)
            } else if !timeout_s {
                complains(e, name, entries, "timeout_s"@)
            } else {
                complains(e, name, entries, "gpu_fail_threshold"@)
            }
        },
{
    lemma_required_bool(name, entries, "enabled"@, w.enabled);
    lemma_required_bool(name, entries, "enabled"@, true);
    lemma_required_bool(name, entries, "enabled"@, false);
    lemma_required_text(name, entries, "device"@, w.device);
    required_number_stands_under_its_key(name, entries, "timeout_s"@, w.timeout_s);
    required_number_stands_under_its_key(
        name,
        entries,
        "gpu_fail_threshold"@,
        w.gpu_fail_threshold,
    );
    lemma_number_fits(entries, "timeout_s"@);
    if let Err(e) = watchdog_of(name, entries) {
        if exists|v: int| number_under(entries, "timeout_s"@, v) {
            let v = choose|v: int| number_under(entries, "timeout_s"@, v);
            required_number_stands_under_its_key(name, entries, "timeout_s"@, v as u32);
        }
    }
}

proof fn lemma_number_fits(entries: Seq<(Seq<char>, Seq<char>)>, key: Seq<char>)
    ensures
        forall|v: int| #[trigger] number_under(entries, key, v) ==> 0 <= v <= u32::MAX,
{
    assert forall|v: int| #[trigger] number_under(entries, key, v) implies 0 <= v <= u32::MAX by {
        let i = choose|i: int| #[trigger]
            document::is_first_under(entries, key, i) && text::integer_of(
                text::trimmed(entries[i].1),
                0,
                0xffff_ffff,
            ) == Ok::<int, text::IntError>(v);
        text::integers_stay_in_range(text::trimmed(entries[i].1), 0, 0xffff_ffff);
    }
}

/// Whether a number stands under `key`.
pub open spec fn has_number(entries: Seq<(Seq<char>, Seq<char>)>, key: Seq<char>) -> bool {
    exists|v: int| number_under(entries, key, v)
}

/// Whether a word for on or off stands under `key`.
pub open spec fn has_switch(entries: Seq<(Seq<char>, Seq<char>)>, key: Seq<char>) -> bool {
    switch_under(entries, key, true) || switch_under(entries, key, false)
}

proof fn lemma_required_number(
    name: Seq<char>,
    entries: Seq<(Seq<char>, Seq<char>)>,
    key: Seq<char>,
)
    ensures
        forall|v: u32|
            required_u32(name, entries, key) == Ok::<u32, ConfigFault>(v) <==> #[trigger] number_under(
                entries,
                key,
                v as int,
            ),
        required_u32(name, entries, key) is Ok <==> has_number(entries, key),
        required_u32(name, entries, key) is Ok ==> number_under(
            entries,
            key,
            required_u32(name, entries, key)->Ok_0 as int,
        ),
        required_u32(name, entries, key) matches Err(e) ==> complains(e, name, entries, key),
        forall|v: int| #[trigger]
            number_under(entries, key, v) ==> 0 <= v <= u32::MAX && required_u32(name, entries, key)
                == Ok::<u32, ConfigFault>(v as u32),
{
    lemma_number_fits(entries, key);
    required_number_stands_under_its_key(name, entries, key, 0);
    assert forall|v: u32|
        required_u32(name, entries, key) == Ok::<u32, ConfigFault>(v) <==> #[trigger] number_under(
            entries,
            key,
            v as int,
        ) by {
        required_number_stands_under_its_key(name, entries, key, v);
    }
    assert forall|v: int| #[trigger] number_under(entries, key, v) implies 0 <= v <= u32::MAX
        && required_u32(name, entries, key) == Ok::<u32, ConfigFault>(v as u32) by {
        assert(number_under(entries, key, (v as u32) as int));
    }
}

proof fn lemma_blank_is_nothing(raw: Seq<char>)
    requires
        text::trimmed(raw).len() == 0,
    ensures
        text::integer_of(text::trimmed(raw), 0, 0xffff_ffff) is Err,
        !says(raw, true),
        !says(raw, false),
        text::trimmed(raw) == Seq::<char>::empty(),
{
    reveal_strlit("true");
    reveal_strlit("yes");
    reveal_strlit("1");
    reveal_strlit("false");
    reveal_strlit("no");
    reveal_strlit("0");
    assert(text::trimmed(raw) =~= Seq::<char>::empty());
    assert(text::lower(text::trimmed(raw)).len() == 0);
}

/// A value that may be left out is what stands under its key, without the white space
/// around it; where nothing stands there, there is none.
pub proof fn optional_value_stands_under_its_key(
    entries: Seq<(Seq<char>, Seq<char>)>,
    key: Seq<char>,
    value: Option<Seq<char>>,
)
    ensures
        optional(entries, key) == value <==> is_option_under(entries, key, value),
{
    lemma_first_is_found(entries, key);
    if let Some(raw) = document::lookup(entries, key) {
        let i = choose|i: int| #[trigger] document::is_first_under(entries, key, i);
        assert(entries[i].1 == raw);
        if text::trimmed(raw).len() == 0 {
            assert(text::trimmed(raw) =~= Seq::<char>::empty());
        }
    }
}

/// A number that may be left out is the one under its key; where nothing stands there,
/// there is none. Anything else is an error that names the section and the key.
pub proof fn optional_number_stands_under_its_key(
    name: Seq<char>,
    entries: Seq<(Seq<char>, Seq<char>)>,
    key: Seq<char>,
    v: u32,
)
    ensures
        optional_u32(name, entries, key) == Ok::<Option<u32>, ConfigFault>(Some(v))
            <==> number_under(entries, key, v as int),
        optional_u32(name, entries, key) == Ok::<Option<u32>, ConfigFault>(None) <==> nothing_under(
            entries,
            key,
        ),
        optional_u32(name, entries, key) is Ok <==> nothing_under(entries, key) || has_number(
            entries,
            key,
        ),
        optional_u32(name, entries, key) matches Err(e) ==> complains(e, name, entries, key),
{
    lemma_first_is_found(entries, key);
    lemma_number_fits(entries, key);
    if let Some(raw) = document::lookup(entries, key) {
        let i = choose|i: int| #[trigger] document::is_first_under(entries, key, i);
        assert(entries[i].1 == raw);
        text::trimming_twice_is_trimming_once(raw);
        text::integers_stay_in_range(text::trimmed(raw), 0, 0xffff_ffff);
        if text::trimmed(raw).len() == 0 {
            lemma_blank_is_nothing(raw);
            assert(text_under(entries, key, Seq::empty()));
        } else if let Ok(n) = text::integer_of(text::trimmed(raw), 0, 0xffff_ffff) {
            assert(number_under(entries, key, n));
        }
    }
}

proof fn lemma_number_or(
    name: Seq<char>,
    entries: Seq<(Seq<char>, Seq<char>)>,
    key: Seq<char>,
    default: u32,
    v: u32,
)
    ensures
        u32_or(name, entries, key, default) == Ok::<u32, ConfigFault>(v) <==> number_under(
            entries,
            key,
            v as int,
        ) || (nothing_under(entries, key) && v == default),
        u32_or(name, entries, key, default) is Ok <==> nothing_under(entries, key) || has_number(
            entries,
            key,
        ),
        u32_or(name, entries, key, default) matches Err(e) ==> complains(e, name, entries, key),
{
    optional_number_stands_under_its_key(name, entries, key, v);
    optional_number_stands_under_its_key(name, entries, key, default);
}

/// A switch that may be left out is the one under its key, and the default where nothing
/// stands there. Anything else is an error that names the section and the key.
pub proof fn optional_switch_stands_under_its_key(
    name: Seq<char>,
    entries: Seq<(Seq<char>, Seq<char>)>,
    key: Seq<char>,
    default: bool,
    on: bool,
)
    ensures
        bool_or(name, entries, key, default) == Ok::<bool, ConfigFault>(on) <==> switch_under(
            entries,
            key,
            on,
        ) || (nothing_under(entries, key) && on == default),
        bool_or(name, entries, key, default) is Ok <==> nothing_under(entries, key) || has_switch(
            entries,
            key,
        ),
        bool_or(name, entries, key, default) matches Err(e) ==> complains(e, name, entries, key),
{
    lemma_first_is_found(entries, key);
    if let Some(raw) = document::lookup(entries, key) {
        let i = choose|i: int| #[trigger] document::is_first_under(entries, key, i);
        assert(entries[i].1 == raw);
        text::trimming_twice_is_trimming_once(raw);
        switches_are_read_by_their_word(name, key, text::trimmed(raw));
        if text::trimmed(raw).len() == 0 {
            lemma_blank_is_nothing(raw);
            assert(text_under(entries, key, Seq::empty()));
        }
    }
}

/// Whether a value is the word for a log level, in letters of any case.
pub open spec fn says_level(raw: Seq<char>, level: LogLevel) -> bool {
    let word = text::lower(text::trimmed(raw));
    match level {
        LogLevel::Debug => word == "debug"@,
        LogLevel::Info => word == "info"@,
        LogLevel::Warn => word == "warn"@,
        LogLevel::Error => word == "error"@,
    }
}

/// A log level is read by its word, in letters of any case; any other word is an error
/// that names the section and the key.
pub proof fn levels_are_read_by_their_word(section: Seq<char>, raw: Seq<char>, level: LogLevel)
    ensures
        log_level_of(section, raw) == Ok::<LogLevel, ConfigFault>(level) <==> says_level(raw, level),
        log_level_of(section, raw) is Err ==> log_level_of(section, raw) == Err::<
            LogLevel,
            ConfigFault,
        >(
            ConfigFault::InvalidValue {
                section,
                key: "log_level"@,
                message: "expected one of debug|info|warn|error, got '"@ + text::lower(
                    text::trimmed(raw),
                ) + "'"@,
            },
        ),
        log_level_of(section, level.text()) == Ok::<LogLevel, ConfigFault>(level),
{
    reveal_strlit("debug");
    reveal_strlit("info");
    reveal_strlit("warn");
    reveal_strlit("error");
    let word = text::lower(text::trimmed(raw));
    assert(word == "debug"@ ==> word[0] == 'd');
    assert(word == "info"@ ==> word[0] == 'i');
    assert(word == "warn"@ ==> word[0] == 'w');
    assert(word == "error"@ ==> word[0] == 'e');
    let own = level.text();
    text::trimming_leaves_the_rest_alone(own);
    assert(text::lower(own) =~= own);
    assert(own[0] == 'd' || own[0] == 'i' || own[0] == 'w' || own[0] == 'e');
}

/// Whether the word for a log level stands under `log_level`.
pub open spec fn level_under(entries: Seq<(Seq<char>, Seq<char>)>, level: LogLevel) -> bool {
    exists|i: int| #[trigger]
        document::is_first_under(entries, "log_level"@, i) && says_level(entries[i].1, level)
}

proof fn lemma_required_level(
    name: Seq<char>,
    entries: Seq<(Seq<char>, Seq<char>)>,
    level: LogLevel,
)
    ensures
        required_log_level(name, entries) == Ok::<LogLevel, ConfigFault>(level) <==> level_under(
            entries,
            level,
        ),
        required_log_level(name, entries) matches Err(e) ==> complains(
            e,
            name,
            entries,
            "log_level"@,
        ),
{
    lemma_first_is_found(entries, "log_level"@);
    if let Some(raw) = document::lookup(entries, "log_level"@) {
        levels_are_read_by_their_word(name, raw, level);
    }
}

/// Whether a number stands under `key`, or nothing and `v` is the default.
pub open spec fn number_or_default(
    entries: Seq<(Seq<char>, Seq<char>)>,
    key: Seq<char>,
    default: int,
    v: int,
) -> bool {
    number_under(entries, key, v) || (nothing_under(entries, key) && v == default)
}

/// A `[global]` section is read exactly where each field is what stands under its own key,
/// or the default where it may be left out: 120 seconds between checks of the power
/// limits, no restoring of them, and a bound of 1000 watts. The first key at fault is
/// named where it is not.
pub proof fn global_fields_stand_under_their_keys(
    name: Seq<char>,
    entries: Seq<(Seq<char>, Seq<char>)>,
    g: GlobalModel,
)
    ensures
        global_of(name, entries) == Ok::<GlobalModel, ConfigFault>(g) <==> {
            &&& number_under(entries, "config_version"@, g.config_version as int)
            &&& number_under(entries, "poll_interval_ms"@, g.poll_interval_ms as int)
            &&& level_under(entries, g.log_level)
            &&& is_option_under(entries, "log_file"@, g.log_file)
            &&& number_or_default(
                entries,
                "power_limit_check_interval_s"@,
                120,
                g.power_limit_check_interval_s as int,
            )
            &&& switch_under(
                entries,
                "power_limit_restore_on_shutdown"@,
                g.power_limit_restore_on_shutdown,
            ) || (nothing_under(entries, "power_limit_restore_on_shutdown"@)
                && !g.power_limit_restore_on_shutdown)
            &&& number_or_default(
                entries,
                "power_limit_validate_max_w"@,
                1000,
                g.power_limit_validate_max_w as int,
            )
        },
        global_of(name, entries) matches Err(e) ==> {
            if !has_number(entries, "config_version"@) {
                complains(e, name, entries, "config_version"@)
            } else if !has_number(entries, "poll_interval_ms"@) {
                complains(e, name, entries, "poll_interval_ms"@)
            } else if !(exists|level: LogLevel| level_under(entries, level)) {
                complains(e, name, entries, "log_level"@)
            } else if !nothing_under(entries, "power_limit_check_interval_s"@) && !has_number(
                entries,
                "power_limit_check_interval_s"@,
            ) {
                complains(e, name, entries, "power_limit_check_interval_s"@)
            } else if !nothing_under(entries, "power_limit_restore_on_shutdown"@) && !has_switch(
                entries,
                "power_limit_restore_on_shutdown"@,
            ) {
                complains(e, name, entries, "power_limit_restore_on_shutdown"@)
            } else {
                complains(e, name, entries, "power_limit_validate_max_w"@)
            }
        },
{
    lemma_required_number(name, entries, "config_version"@);
    lemma_required_number(name, entries, "poll_interval_ms"@);
    lemma_required_level(name, entries, g.log_level);
    assert forall|level: LogLevel| #[trigger] level_under(
        entries,
        level,
    ) implies required_log_level(name, entries) is Ok by {
        lemma_required_level(name, entries, level);
    }
    if let Ok(level) = required_log_level(name, entries) {
        lemma_required_level(name, entries, level);
    }
    optional_value_stands_under_its_key(entries, "log_file"@, g.log_file);
    lemma_number_or(
        name,
        entries,
        "power_limit_check_interval_s"@,
        120,
        g.power_limit_check_interval_s,
    );
    optional_switch_stands_under_its_key(
        name,
        entries,
        "power_limit_restore_on_shutdown"@,
        false,
        g.power_limit_restore_on_shutdown,
    );
    lemma_number_or(
        name,
        entries,
        "power_limit_validate_max_w"@,
        1000,
        g.power_limit_validate_max_w,
    );
}

/// Whether the first entry under `curve` writes the points `pts`.
pub open spec fn curve_under(
    id: Seq<char>,
    entries: Seq<(Seq<char>, Seq<char>)>,
    pts: Seq<(Celsius, Pct)>,
) -> bool {
    exists|i: int| #[trigger]
        document::is_first_under(entries, "curve"@, i) && curve_of(id, entries[i].1) == Ok::<
            Seq<(Celsius, Pct)>,
            ConfigFault,
        >(pts)
}

/// Whether the first entry under `key` writes the percentage `pct`; a number above 255
/// counts as 255.
pub open spec fn percentage_under(
    entries: Seq<(Seq<char>, Seq<char>)>,
    key: Seq<char>,
    pct: Pct,
) -> bool {
    number_under(entries, key, pct.0 as int) || (pct.0 == 255 && exists|v: int|
        v > 255 && number_under(entries, key, v))
}

proof fn lemma_percentage(
    name: Seq<char>,
    entries: Seq<(Seq<char>, Seq<char>)>,
    key: Seq<char>,
    pct: Pct,
)
    ensures
        required_u32(name, entries, key) is Ok && pct_of(required_u32(name, entries, key)->Ok_0)
            == pct <==> percentage_under(entries, key, pct),
{
    lemma_required_number(name, entries, key);
    if required_u32(name, entries, key) is Ok {
        let v = required_u32(name, entries, key)->Ok_0;
        assert(number_under(entries, key, v as int));
    }
}

/// A `[gpu:ID]` section is read exactly where the GPU bears the id of the section and each
/// of its other fields is what stands under its own key; a power limit may be left out,
/// and is enforced on request only. The first key at fault is named where it is not.
pub proof fn gpu_fields_stand_under_their_keys(
    name: Seq<char>,
    id: Seq<char>,
    entries: Seq<(Seq<char>, Seq<char>)>,
    g: GpuModel,
)
    ensures
        gpu_of(name, id, entries) == Ok::<GpuModel, ConfigFault>(g) <==> {
            &&& g.id == id
            &&& number_under(entries, "nvml_index"@, g.nvml_index as int)
            &&& curve_under(id, entries, g.curve)
            &&& percentage_under(entries, "min_fan_pct"@, g.min_fan_pct)
            &&& percentage_under(entries, "max_fan_pct"@, g.max_fan_pct)
            &&& switch_under(entries, "power_limit_enabled"@, g.power_limit_enabled) || (
            nothing_under(entries, "power_limit_enabled"@) && !g.power_limit_enabled)
            &&& match g.power_limit_w {
                Some(w) => number_under(entries, "power_limit_w"@, w as int),
                None => nothing_under(entries, "power_limit_w"@),
            }
        },
        gpu_of(name, id, entries) matches Err(e) ==> {
            if !has_number(entries, "nvml_index"@) {
                complains(e, name, entries, "nvml_index"@)
            } else if document::lacks(entries, "curve"@) {
                complains(e, name, entries, "curve"@)
            } else if !(exists|pts: Seq<(Celsius, Pct)>| curve_under(id, entries, pts)) {
                exists|i: int| #[trigger]
                    document::is_first_under(entries, "curve"@, i) && curve_of(id, entries[i].1)
                        == Err::<Seq<(Celsius, Pct)>, ConfigFault>(e)
            } else if !has_number(entries, "min_fan_pct"@) {
                complains(e, name, entries, "min_fan_pct"@)
            } else if !has_number(entries, "max_fan_pct"@) {
                complains(e, name, entries, "max_fan_pct"@)
            } else if !nothing_under(entries, "power_limit_enabled"@) && !has_switch(
                entries,
                "power_limit_enabled"@,
            ) {
                complains(e, name, entries, "power_limit_enabled"@)
            } else {
                complains(e, name, entries, "power_limit_w"@)
            }
        },
{
    lemma_required_number(name, entries, "nvml_index"@);
    lemma_first_is_found(entries, "curve"@);
    if let Some(raw) = document::lookup(entries, "curve"@) {
        let i = choose|i: int| #[trigger] document::is_first_under(entries, "curve"@, i);
        assert(entries[i].1 == raw);
        if curve_of(id, raw) is Ok {
            assert(curve_under(id, entries, curve_of(id, raw)->Ok_0));
        }
    }
    lemma_required_number(name, entries, "min_fan_pct"@);
    lemma_required_number(name, entries, "max_fan_pct"@);
    lemma_percentage(name, entries, "min_fan_pct"@, g.min_fan_pct);
    lemma_percentage(name, entries, "max_fan_pct"@, g.max_fan_pct);
    optional_switch_stands_under_its_key(
        name,
        entries,
        "power_limit_enabled"@,
        false,
        g.power_limit_enabled,
    );
    let watts = match g.power_limit_w {
        Some(w) => w,
        None => 0u32,
    };
    optional_number_stands_under_its_key(name, entries, "power_limit_w"@, watts);
}

/// A `[fan:ID]` section is read exactly where the fan bears the id of the section and each
/// of its other fields is what stands under its own key; chip and paths may be left out.
/// The first key at fault is named where it is not.
pub proof fn fan_fields_stand_under_their_keys(
    name: Seq<char>,
    id: Seq<char>,
    entries: Seq<(Seq<char>, Seq<char>)>,
    f: FanModel,
)
    ensures
        fan_of(name, id, entries) == Ok::<FanModel, ConfigFault>(f) <==> {
            &&& f.id == id
            &&& is_option_under(entries, "chip"@, f.chip)
            &&& is_option_under(entries, "device_path"@, f.device_path)
            &&& is_option_under(entries, "hwmon_path"@, f.hwmon_path)
            &&& number_under(entries, "pwm_channel"@, f.pwm_channel as int)
            &&& number_under(entries, "min_rpm"@, f.min_rpm as int)
            &&& number_under(entries, "max_rpm"@, f.max_rpm as int)
            &&& number_under(entries, "fan_fail_threshold"@, f.fan_fail_threshold as int)
            &&& number_under(entries, "spin_up_grace_s"@, f.spin_up_grace_s as int)
        },
        fan_of(name, id, entries) matches Err(e) ==> {
            if !has_number(entries, "pwm_channel"@) {
                complains(e, name, entries, "pwm_channel"@)
            } else if !has_number(entries, "min_rpm"@) {
                complains(e, name, entries, "min_rpm"@)
            } else if !has_number(entries, "max_rpm"@) {
                complains(e, name, entries, "max_rpm"@)
            } else if !has_number(entries, "fan_fail_threshold"@) {
                complains(e, name, entries, "fan_fail_threshold"@)
            } else {
                complains(e, name, entries, "spin_up_grace_s"@)
            }
        },
{
    optional_value_stands_under_its_key(entries, "chip"@, f.chip);
    optional_value_stands_under_its_key(entries, "device_path"@, f.device_path);
    optional_value_stands_under_its_key(entries, "hwmon_path"@, f.hwmon_path);
    lemma_required_number(name, entries, "pwm_channel"@);
    lemma_required_number(name, entries, "min_rpm"@);
    lemma_required_number(name, entries, "max_rpm"@);
    lemma_required_number(name, entries, "fan_fail_threshold"@);
    lemma_required_number(name, entries, "spin_up_grace_s"@);
}

/// Whether the first entry under `key` lists the ids `ids`.
pub open spec fn ids_under(
    entries: Seq<(Seq<char>, Seq<char>)>,
    key: Seq<char>,
    ids: Seq<Seq<char>>,
) -> bool {
    exists|i: int| #[trigger]
        document::is_first_under(entries, key, i) && ids_of(entries[i].1) == ids
}

/// A `[group:ID]` section is read exactly where the group bears the id of the section and
/// names what is listed under `gpus` and `fans`. The first key that is missing is named
/// where one is.
pub proof fn group_fields_stand_under_their_keys(
    name: Seq<char>,
    id: Seq<char>,
    entries: Seq<(Seq<char>, Seq<char>)>,
    g: GroupModel,
)
    ensures
        group_of(name, id, entries) == Ok::<GroupModel, ConfigFault>(g) <==> {
            &&& g.id == id
            &&& ids_under(entries, "gpus"@, g.gpus)
            &&& ids_under(entries, "fans"@, g.fans)
        },
        group_of(name, id, entries) is Ok <==> !document::lacks(entries, "gpus"@)
            && !document::lacks(entries, "fans"@),
        group_of(name, id, entries) matches Err(e) ==> {
            if document::lacks(entries, "gpus"@) {
                e == (ConfigFault::MissingKey { section: name, key: "gpus"@ })
            } else {
                e == (ConfigFault::MissingKey { section: name, key: "fans"@ })
            }
        },
{
    lemma_first_is_found(entries, "gpus"@);
    lemma_first_is_found(entries, "fans"@);
}

// ---------------------------------------------------------------------------
// What lists and curves say
// ---------------------------------------------------------------------------

proof fn lemma_filter_add<A>(a: Seq<A>, b: Seq<A>, p: spec_fn(A) -> bool)
    ensures
        (a + b).filter(p) == a.filter(p) + b.filter(p),
    decreases b.len(),
{
    reveal(Seq::filter);
    if b.len() == 0 {
        assert(a + b =~= a);
        assert(a.filter(p) + b.filter(p) =~= a.filter(p));
    } else {
        assert((a + b).drop_last() =~= a + b.drop_last());
        lemma_filter_add(a, b.drop_last(), p);
        assert((a + b).filter(p) =~= a.filter(p) + b.filter(p));
    }
}

/// The ids of a list are what stands between its commas, without the white space around
/// it; where nothing stands, there is no id. A comma parts the ids before it from those
/// behind it.
pub proof fn ids_stand_between_commas(a: Seq<char>, b: Seq<char>)
    ensures
        ids_of(a + seq![','] + b) == ids_of(a) + ids_of(b),
        !a.contains(',') && text::trimmed(a).len() > 0 ==> ids_of(a) == seq![text::trimmed(a)],
        !a.contains(',') && text::trimmed(a).len() == 0 ==> ids_of(a) == Seq::<Seq<char>>::empty(),
{
    let trim = |piece: Seq<char>| text::trimmed(piece);
    let named = |id: Seq<char>| id.len() > 0;
    text::splitting_parts_at_each_separator(a, ',', b);
    let x = text::split_on(a, ',');
    let y = text::split_on(b, ',');
    assert((x + y).map_values(trim) =~= x.map_values(trim) + y.map_values(trim));
    lemma_filter_add(x.map_values(trim), y.map_values(trim), named);
    if !a.contains(',') {
        reveal(Seq::filter);
        let one = seq![a].map_values(trim);
        assert(one =~= seq![text::trimmed(a)]);
        assert(one.drop_last() =~= Seq::<Seq<char>>::empty());
        assert(one.drop_last().filter(named) =~= Seq::<Seq<char>>::empty());
        assert(one.filter(named) =~= if text::trimmed(a).len() > 0 {
            seq![text::trimmed(a)]
        } else {
            Seq::<Seq<char>>::empty()
        });
    }
}

/// Whether a piece writes a point: a temperature, a colon and a duty.
pub open spec fn writes_point(piece: Seq<char>, point: (Celsius, Pct)) -> bool {
    exists|temp: Seq<char>, pct: Seq<char>|
        piece == #[trigger] (temp + seq![':'] + pct) && !temp.contains(':') && text::integer_of(
            text::trimmed(temp),
            -0x8000,
            0x7fff,
        ) == Ok::<int, text::IntError>(point.0.0 as int) && text::integer_of(
            text::trimmed(pct),
            0,
            0xff,
        ) == Ok::<int, text::IntError>(point.1.0 as int)
}

proof fn lemma_point(id: Seq<char>, piece: Seq<char>, point: (Celsius, Pct))
    ensures
        point_of(id, piece) == Ok::<(Celsius, Pct), ConfigFault>(point) <==> writes_point(
            piece,
            point,
        ),
        point_of(id, piece) matches Err(e) ==> e is InvalidValue && e->InvalidValue_section == "gpu:"@
            + id && e->InvalidValue_key == "curve"@,
{
    if let Some((temp, pct)) = text::split_once_on(piece, ':') {
        text::first_separator_parts_the_text(piece, temp, ':', pct);
        text::integers_stay_in_range(text::trimmed(temp), -0x8000, 0x7fff);
        text::integers_stay_in_range(text::trimmed(pct), 0, 0xff);
        if point_of(id, piece) == Ok::<(Celsius, Pct), ConfigFault>(point) {
            assert(piece == temp + seq![':'] + pct);
        }
    }
    if writes_point(piece, point) {
        let (temp, pct) = choose|temp: Seq<char>, pct: Seq<char>|
            piece == #[trigger] (temp + seq![':'] + pct) && !temp.contains(':')
                && text::integer_of(text::trimmed(temp), -0x8000, 0x7fff) == Ok::<
                int,
                text::IntError,
            >(point.0.0 as int) && text::integer_of(text::trimmed(pct), 0, 0xff) == Ok::<
                int,
                text::IntError,
            >(point.1.0 as int);
        text::first_separator_parts_the_text(piece, temp, ':', pct);
    }
}

/// Whether a list of pieces writes a list of points, one each.
pub open spec fn writes_points(pieces: Seq<Seq<char>>, pts: Seq<(Celsius, Pct)>) -> bool {
    &&& pieces.len() == pts.len()
    &&& forall|k: int| 0 <= k < pts.len() ==> writes_point(#[trigger] pieces[k], pts[k])
}

/// The pieces that say something, without the white space around them.
spec fn said(pieces: Seq<Seq<char>>) -> Seq<Seq<char>> {
    pieces.map_values(|piece: Seq<char>| text::trimmed(piece)).filter(|id: Seq<char>| id.len() > 0)
}

proof fn lemma_said(pieces: Seq<Seq<char>>)
    requires
        pieces.len() > 0,
    ensures
        text::trimmed(pieces.last()).len() == 0 ==> said(pieces) == said(pieces.drop_last()),
        text::trimmed(pieces.last()).len() > 0 ==> said(pieces) == said(pieces.drop_last()).push(
            text::trimmed(pieces.last()),
        ),
{
    reveal(Seq::filter);
    let trim = |piece: Seq<char>| text::trimmed(piece);
    assert(pieces.map_values(trim).drop_last() =~= pieces.drop_last().map_values(trim));
}

proof fn lemma_points(id: Seq<char>, pieces: Seq<Seq<char>>, pts: Seq<(Celsius, Pct)>)
    ensures
        points_of(id, pieces) == Ok::<Seq<(Celsius, Pct)>, ConfigFault>(pts) <==> writes_points(
            said(pieces),
            pts,
        ),
        points_of(id, pieces) matches Err(e) ==> e is InvalidValue && e->InvalidValue_section
            == "gpu:"@ + id && e->InvalidValue_key == "curve"@,
    decreases pieces.len(),
{
    if pieces.len() == 0 {
        reveal(Seq::filter);
        assert(said(pieces).len() == 0);
        if writes_points(said(pieces), pts) {
            assert(pts =~= Seq::<(Celsius, Pct)>::empty());
        }
    } else {
        let front = pieces.drop_last();
        let piece = text::trimmed(pieces.last());
        lemma_said(pieces);
        if piece.len() == 0 {
            lemma_points(id, front, pts);
        } else {
            if pts.len() > 0 {
                lemma_points(id, front, pts.drop_last());
                lemma_point(id, piece, pts.last());
                if writes_points(said(pieces), pts) {
                    let n = pts.len() - 1;
                    assert forall|k: int| 0 <= k < n implies writes_point(
                        #[trigger] said(front)[k],
                        pts.drop_last()[k],
                    ) by {
                        assert(said(pieces)[k] == said(front)[k]);
                    }
                    assert(writes_point(said(pieces)[n], pts[n]));
                    assert(pts.drop_last().push(pts.last()) =~= pts);
                }
            }
            if let Ok(before) = points_of(id, front) {
                lemma_points(id, front, before);
                if let Ok(p) = point_of(id, piece) {
                    lemma_point(id, piece, p);
                    let all = before.push(p);
                    assert(writes_points(said(pieces), all)) by {
                        assert forall|k: int| 0 <= k < all.len() implies writes_point(
                            #[trigger] said(pieces)[k],
                            all[k],
                        ) by {
                            if k < before.len() {
                                assert(said(pieces)[k] == said(front)[k]);
                            }
                        }
                    }
                } else {
                    lemma_point(id, piece, (Celsius(0), Pct(0)));
                }
            } else {
                lemma_points(id, front, pts);
            }
        }
    }
}

/// A curve is read exactly where each piece between the commas writes a point and the
/// points make a curve. A piece that does not is an error on the curve of the GPU, and
/// points that make no curve are refused for the rule that they break.
pub proof fn curve_is_the_points_between_the_commas(
    id: Seq<char>,
    raw: Seq<char>,
    pts: Seq<(Celsius, Pct)>,
)
    ensures
        curve_of(id, raw) == Ok::<Seq<(Celsius, Pct)>, ConfigFault>(pts) <==> writes_points(
            ids_of(raw),
            pts,
        ) && curve::curve_fault(pts) is None,
        writes_points(ids_of(raw), pts) && curve::curve_fault(pts) is Some ==> curve_of(id, raw)
            == Err::<Seq<(Celsius, Pct)>, ConfigFault>(
            ConfigFault::Curve { id, source: curve::curve_fault(pts)->0 },
        ),
        (forall|all: Seq<(Celsius, Pct)>| !writes_points(ids_of(raw), all)) ==> {
            &&& curve_of(id, raw) is Err
            &&& curve_of(id, raw)->Err_0 is InvalidValue
            &&& curve_of(id, raw)->Err_0->InvalidValue_section == "gpu:"@ + id
            &&& curve_of(id, raw)->Err_0->InvalidValue_key == "curve"@
        },
{
    let pieces = text::split_on(raw, ',');
    lemma_points(id, pieces, pts);
    assert(said(pieces) == ids_of(raw));
    if let Ok(all) = points_of(id, pieces) {
        lemma_points(id, pieces, all);
    }
}

// ---------------------------------------------------------------------------
// What a document says
// ---------------------------------------------------------------------------

/// A header announces what its words say: `global`, `watchdog`, or `gpu:`, `fan:` or
/// `group:` with an id behind it that is not empty. Any other announces nothing.
pub proof fn headers_announce_what_they_say(header: Seq<char>, id: Seq<char>)
    ensures
        classified(header) == Some((SectionKind::Global, None::<Seq<char>>)) <==> header
            == "global"@,
        classified(header) == Some((SectionKind::Watchdog, None::<Seq<char>>)) <==> header
            == "watchdog"@,
        classified(header) == Some((SectionKind::Gpu, Some(id))) <==> header == "gpu:"@ + id
            && id.len() > 0,
        classified(header) == Some((SectionKind::Fan, Some(id))) <==> header == "fan:"@ + id
            && id.len() > 0,
        classified(header) == Some((SectionKind::Group, Some(id))) <==> header == "group:"@ + id
            && id.len() > 0,
        classified(header) matches Some((kind, of)) ==> (of is None <==> kind == SectionKind::Global
            || kind == SectionKind::Watchdog),
{
    reveal_strlit("global");
    reveal_strlit("watchdog");
    reveal_strlit("gpu");
    reveal_strlit("fan");
    reveal_strlit("group");
    reveal_strlit("gpu:");
    reveal_strlit("fan:");
    reveal_strlit("group:");
    assert("gpu:"@ =~= "gpu"@ + seq![':']);
    assert("fan:"@ =~= "fan"@ + seq![':']);
    assert("group:"@ =~= "group"@ + seq![':']);
    assert("gpu"@[0] == 'g' && "gpu"@[1] == 'p');
    assert("group"@[0] == 'g' && "group"@[1] == 'r');
    assert("fan"@[0] == 'f');
    assert("global"@[0] == 'g' && "global"@[1] == 'l');
    assert("watchdog"@[0] == 'w');
    let (a, b) = match text::split_once_on(header, ':') {
        Some((a, b)) => (a, b),
        None => (header, header),
    };
    text::first_separator_parts_the_text(header, a, ':', b);
    text::first_separator_parts_the_text(header, "gpu"@, ':', id);
    text::first_separator_parts_the_text(header, "fan"@, ':', id);
    text::first_separator_parts_the_text(header, "group"@, ':', id);
    assert(("gpu:"@ + id)[1] == 'p' && ("gpu:"@ + id)[0] == 'g');
    assert(("fan:"@ + id)[0] == 'f');
    assert(("group:"@ + id)[1] == 'r' && ("group:"@ + id)[0] == 'g');
}

/// Whether the header of a section is a prefix with an id behind it.
pub open spec fn bears(
    section: (Option<Seq<char>>, Seq<(Seq<char>, Seq<char>)>),
    prefix: Seq<char>,
) -> bool {
    section.0 matches Some(header) && header.len() > prefix.len() && header.take(
        prefix.len() as int,
    ) == prefix
}

/// The id behind the prefix in the header of a section.
pub open spec fn id_behind(
    section: (Option<Seq<char>>, Seq<(Seq<char>, Seq<char>)>),
    prefix: Seq<char>,
) -> Seq<char> {
    section.0->0.skip(prefix.len() as int)
}

/// How many sections bear a prefix.
pub open spec fn bearing(
    sections: Seq<(Option<Seq<char>>, Seq<(Seq<char>, Seq<char>)>)>,
    prefix: Seq<char>,
) -> nat
    decreases sections.len(),
{
    if sections.len() == 0 {
        0
    } else {
        bearing(sections.drop_last(), prefix) + if bears(sections.last(), prefix) {
            1nat
        } else {
            0nat
        }
    }
}

/// Whether the section at a position is the last one with the header `header`.
pub open spec fn is_last_headed(
    sections: Seq<(Option<Seq<char>>, Seq<(Seq<char>, Seq<char>)>)>,
    header: Seq<char>,
    i: int,
) -> bool {
    &&& 0 <= i < sections.len()
    &&& sections[i].0 == Some(header)
    &&& forall|j: int| i < j < sections.len() ==> (#[trigger] sections[j]).0 != Some(header)
}

/// Whether some section has the header `header`.
pub open spec fn is_headed(
    sections: Seq<(Option<Seq<char>>, Seq<(Seq<char>, Seq<char>)>)>,
    header: Seq<char>,
) -> bool {
    exists|i: int| 0 <= i < sections.len() && (#[trigger] sections[i]).0 == Some(header)
}

proof fn lemma_bears(
    section: (Option<Seq<char>>, Seq<(Seq<char>, Seq<char>)>),
    prefix: Seq<char>,
)
    ensures
        bears(section, prefix) ==> section.0 == Some(prefix + id_behind(section, prefix))
            && id_behind(section, prefix).len() > 0,
        forall|id: Seq<char>|
            section.0 == Some(#[trigger] (prefix + id)) && id.len() > 0 ==> bears(section, prefix)
                && id_behind(section, prefix) == id,
{
    if bears(section, prefix) {
        let h = section.0->0;
        assert(h =~= prefix + h.skip(prefix.len() as int));
    }
    assert forall|id: Seq<char>|
        section.0 == Some(#[trigger] (prefix + id)) && id.len() > 0 implies bears(section, prefix)
        && id_behind(section, prefix) == id by {
        assert((prefix + id).take(prefix.len() as int) =~= prefix);
        assert((prefix + id).skip(prefix.len() as int) =~= id);
    }
}

/// What is wrong with a section by itself: keys before the first header, a header that
/// announces nothing, or the first fault in its keys.
pub open spec fn fault_in(
    section: (Option<Seq<char>>, Seq<(Seq<char>, Seq<char>)>),
) -> Option<ConfigFault> {
    match section.0 {
        None => if section.1.len() > 0 {
            Some(ConfigFault::Ini("keys must live inside a [section]"@))
        } else {
            None
        },
        Some(header) => if header == "global"@ {
            fault_of(global_of(header, section.1))
        } else if header == "watchdog"@ {
            fault_of(watchdog_of(header, section.1))
        } else if bears(section, "gpu:"@) {
            fault_of(gpu_of(header, id_behind(section, "gpu:"@), section.1))
        } else if bears(section, "fan:"@) {
            fault_of(fan_of(header, id_behind(section, "fan:"@), section.1))
        } else if bears(section, "group:"@) {
            fault_of(group_of(header, id_behind(section, "group:"@), section.1))
        } else {
            Some(ConfigFault::UnknownSection(header))
        },
    }
}

/// The error of an outcome.
pub open spec fn fault_of<T>(r: Result<T, ConfigFault>) -> Option<ConfigFault> {
    match r {
        Ok(_) => None,
        Err(e) => Some(e),
    }
}

proof fn lemma_kinds(section: (Option<Seq<char>>, Seq<(Seq<char>, Seq<char>)>))
    requires
        section.0 is Some,
    ensures
        ({
            let header = section.0->0;
            classified(header) == (if header == "global"@ {
                Some((SectionKind::Global, None::<Seq<char>>))
            } else if header == "watchdog"@ {
                Some((SectionKind::Watchdog, None::<Seq<char>>))
            } else if bears(section, "gpu:"@) {
                Some((SectionKind::Gpu, Some(id_behind(section, "gpu:"@))))
            } else if bears(section, "fan:"@) {
                Some((SectionKind::Fan, Some(id_behind(section, "fan:"@))))
            } else if bears(section, "group:"@) {
                Some((SectionKind::Group, Some(id_behind(section, "group:"@))))
            } else {
                None
            })
        }),
        bears(section, "gpu:"@) ==> !bears(section, "fan:"@) && !bears(section, "group:"@)
            && section.0->0 != "global"@ && section.0->0 != "watchdog"@,
        bears(section, "fan:"@) ==> !bears(section, "group:"@) && section.0->0 != "global"@
            && section.0->0 != "watchdog"@,
        bears(section, "group:"@) ==> section.0->0 != "global"@ && section.0->0 != "watchdog"@,
        "global"@ != "watchdog"@,
{
    let header = section.0->0;
    lemma_bears(section, "gpu:"@);
    lemma_bears(section, "fan:"@);
    lemma_bears(section, "group:"@);
    reveal_strlit("global");
    reveal_strlit("watchdog");
    assert("global"@.len() != "watchdog"@.len());
    headers_announce_what_they_say(header, seq![]);
    headers_announce_what_they_say(header, id_behind(section, "gpu:"@));
    headers_announce_what_they_say(header, id_behind(section, "fan:"@));
    headers_announce_what_they_say(header, id_behind(section, "group:"@));
    if let Some((kind, of)) = classified(header) {
        if of is Some {
            headers_announce_what_they_say(header, of->0);
        }
    }
}

proof fn lemma_section_fault(
    d: DraftModel,
    section: (Option<Seq<char>>, Seq<(Seq<char>, Seq<char>)>),
)
    ensures
        with_section(d, section) is Ok <==> fault_in(section) is None,
        with_section(d, section) matches Err(e) ==> fault_in(section) == Some(e),
{
    if section.0 is Some {
        lemma_kinds(section);
    }
}

proof fn lemma_draft_fault(
    sections: Seq<(Option<Seq<char>>, Seq<(Seq<char>, Seq<char>)>)>,
    k: int,
)
    requires
        0 <= k <= sections.len(),
        forall|i: int| 0 <= i < k ==> fault_in(#[trigger] sections[i]) is None,
    ensures
        draft_of(sections.take(k)) is Ok,
        k < sections.len() && fault_in(sections[k]) is Some ==> draft_of(sections) == Err::<
            DraftModel,
            ConfigFault,
        >(fault_in(sections[k])->0),
    decreases k,
{
    if k > 0 {
        lemma_draft_fault(sections, k - 1);
        assert(sections.take(k).drop_last() =~= sections.take(k - 1));
        assert(sections.take(k).last() == sections[k - 1]);
        assert(fault_in(sections[k - 1]) is None);
        lemma_section_fault(draft_of(sections.take(k - 1))->Ok_0, sections[k - 1]);
    } else {
        assert(sections.take(0).len() == 0);
    }
    if k < sections.len() && fault_in(sections[k]) is Some {
        assert(sections.take(k + 1).drop_last() =~= sections.take(k));
        assert(sections.take(k + 1).last() == sections[k]);
        lemma_section_fault(draft_of(sections.take(k))->Ok_0, sections[k]);
        lemma_section_error_stays(sections, k + 1);
    }
}

/// Whether the settings of a draft are those of the last sections with their header.
spec fn settings_follow(
    sections: Seq<(Option<Seq<char>>, Seq<(Seq<char>, Seq<char>)>)>,
    d: DraftModel,
) -> bool {
    &&& d.global is Some <==> is_headed(sections, "global"@)
    &&& d.watchdog is Some <==> is_headed(sections, "watchdog"@)
    &&& forall|i: int| #[trigger]
        is_last_headed(sections, "global"@, i) ==> global_of("global"@, sections[i].1) == Ok::<
            GlobalModel,
            ConfigFault,
        >(d.global->0)
    &&& forall|i: int| #[trigger]
        is_last_headed(sections, "watchdog"@, i) ==> watchdog_of("watchdog"@, sections[i].1)
            == Ok::<WatchdogModel, ConfigFault>(d.watchdog->0)
}

/// Whether the GPUs of a draft are those of the sections that bear their prefix.
spec fn gpus_follow(
    sections: Seq<(Option<Seq<char>>, Seq<(Seq<char>, Seq<char>)>)>,
    d: DraftModel,
) -> bool {
    &&& d.gpus.len() == bearing(sections, "gpu:"@)
    &&& forall|i: int|
        0 <= i < sections.len() && bears(#[trigger] sections[i], "gpu:"@) ==> {
            let k = bearing(sections.take(i), "gpu:"@);
            k < d.gpus.len() && gpu_of(
                sections[i].0->0,
                id_behind(sections[i], "gpu:"@),
                sections[i].1,
            ) == Ok::<GpuModel, ConfigFault>(d.gpus[k as int])
        }
}

/// Whether the fans of a draft are those of the sections that bear their prefix.
spec fn fans_follow(
    sections: Seq<(Option<Seq<char>>, Seq<(Seq<char>, Seq<char>)>)>,
    d: DraftModel,
) -> bool {
    &&& d.fans.len() == bearing(sections, "fan:"@)
    &&& forall|i: int|
        0 <= i < sections.len() && bears(#[trigger] sections[i], "fan:"@) ==> {
            let k = bearing(sections.take(i), "fan:"@);
            k < d.fans.len() && fan_of(
                sections[i].0->0,
                id_behind(sections[i], "fan:"@),
                sections[i].1,
            ) == Ok::<FanModel, ConfigFault>(d.fans[k as int])
        }
}

/// Whether the groups of a draft are those of the sections that bear their prefix.
spec fn groups_follow(
    sections: Seq<(Option<Seq<char>>, Seq<(Seq<char>, Seq<char>)>)>,
    d: DraftModel,
) -> bool {
    &&& d.groups.len() == bearing(sections, "group:"@)
    &&& forall|i: int|
        0 <= i < sections.len() && bears(#[trigger] sections[i], "group:"@) ==> {
            let k = bearing(sections.take(i), "group:"@);
            k < d.groups.len() && group_of(
                sections[i].0->0,
                id_behind(sections[i], "group:"@),
                sections[i].1,
            ) == Ok::<GroupModel, ConfigFault>(d.groups[k as int])
        }
}

proof fn lemma_headed_step(
    sections: Seq<(Option<Seq<char>>, Seq<(Seq<char>, Seq<char>)>)>,
    header: Seq<char>,
)
    requires
        sections.len() > 0,
    ensures
        is_headed(sections, header) <==> is_headed(sections.drop_last(), header)
            || sections.last().0 == Some(header),
        forall|i: int| #[trigger]
            is_last_headed(sections, header, i) ==> (if sections.last().0 == Some(header) {
                i == sections.len() - 1
            } else {
                is_last_headed(sections.drop_last(), header, i) && sections.drop_last()[i]
                    == sections[i]
            }),
{
    let front = sections.drop_last();
    let n = sections.len() - 1;
    assert(sections[n] == sections.last());
    if is_headed(front, header) {
        let i = choose|i: int| 0 <= i < front.len() && (#[trigger] front[i]).0 == Some(header);
        assert(sections[i].0 == Some(header));
    }
    if is_headed(sections, header) && sections.last().0 != Some(header) {
        let i = choose|i: int|
            0 <= i < sections.len() && (#[trigger] sections[i]).0 == Some(header);
        assert(front[i].0 == Some(header));
    }
    assert forall|i: int| #[trigger] is_last_headed(sections, header, i) implies (
    if sections.last().0 == Some(header) {
        i == n
    } else {
        is_last_headed(front, header, i) && front[i] == sections[i]
    }) by {
        if sections.last().0 == Some(header) {
            if i < n {
                assert(sections[n].0 != Some(header));
            }
        } else {
            assert forall|j: int| i < j < front.len() implies (#[trigger] front[j]).0 != Some(
                header,
            ) by {
                assert(sections[j].0 != Some(header));
            }
        }
    }
}

proof fn lemma_settings_follow(sections: Seq<(Option<Seq<char>>, Seq<(Seq<char>, Seq<char>)>)>)
    requires
        draft_of(sections) is Ok,
    ensures
        settings_follow(sections, draft_of(sections)->Ok_0),
    decreases sections.len(),
{
    if sections.len() > 0 {
        lemma_settings_follow(sections.drop_last());
        lemma_headed_step(sections, "global"@);
        lemma_headed_step(sections, "watchdog"@);
        if sections.last().0 is Some {
            lemma_kinds(sections.last());
        }
    }
}

proof fn lemma_gpus_follow(sections: Seq<(Option<Seq<char>>, Seq<(Seq<char>, Seq<char>)>)>)
    requires
        draft_of(sections) is Ok,
    ensures
        gpus_follow(sections, draft_of(sections)->Ok_0),
    decreases sections.len(),
{
    let d = draft_of(sections)->Ok_0;
    if sections.len() > 0 {
        let front = sections.drop_last();
        let n = sections.len() - 1;
        lemma_gpus_follow(front);
        if sections.last().0 is Some {
            lemma_kinds(sections.last());
        }
        assert(sections.take(n) =~= front);
        assert forall|i: int|
            0 <= i < sections.len() && bears(#[trigger] sections[i], "gpu:"@) implies {
            let k = bearing(sections.take(i), "gpu:"@);
            k < d.gpus.len() && gpu_of(
                sections[i].0->0,
                id_behind(sections[i], "gpu:"@),
                sections[i].1,
            ) == Ok::<GpuModel, ConfigFault>(d.gpus[k as int])
        } by {
            if i < n {
                assert(front[i] == sections[i]);
                assert(sections.take(i) =~= front.take(i));
            }
        }
    }
}

proof fn lemma_fans_follow(sections: Seq<(Option<Seq<char>>, Seq<(Seq<char>, Seq<char>)>)>)
    requires
        draft_of(sections) is Ok,
    ensures
        fans_follow(sections, draft_of(sections)->Ok_0),
    decreases sections.len(),
{
    let d = draft_of(sections)->Ok_0;
    if sections.len() > 0 {
        let front = sections.drop_last();
        let n = sections.len() - 1;
        lemma_fans_follow(front);
        if sections.last().0 is Some {
            lemma_kinds(sections.last());
        }
        assert(sections.take(n) =~= front);
        assert forall|i: int|
            0 <= i < sections.len() && bears(#[trigger] sections[i], "fan:"@) implies {
            let k = bearing(sections.take(i), "fan:"@);
            k < d.fans.len() && fan_of(
                sections[i].0->0,
                id_behind(sections[i], "fan:"@),
                sections[i].1,
            ) == Ok::<FanModel, ConfigFault>(d.fans[k as int])
        } by {
            if i < n {
                assert(front[i] == sections[i]);
                assert(sections.take(i) =~= front.take(i));
            }
        }
    }
}

proof fn lemma_groups_follow(sections: Seq<(Option<Seq<char>>, Seq<(Seq<char>, Seq<char>)>)>)
    requires
        draft_of(sections) is Ok,
    ensures
        groups_follow(sections, draft_of(sections)->Ok_0),
    decreases sections.len(),
{
    let d = draft_of(sections)->Ok_0;
    if sections.len() > 0 {
        let front = sections.drop_last();
        let n = sections.len() - 1;
        lemma_groups_follow(front);
        if sections.last().0 is Some {
            lemma_kinds(sections.last());
        }
        assert(sections.take(n) =~= front);
        assert forall|i: int|
            0 <= i < sections.len() && bears(#[trigger] sections[i], "group:"@) implies {
            let k = bearing(sections.take(i), "group:"@);
            k < d.groups.len() && group_of(
                sections[i].0->0,
                id_behind(sections[i], "group:"@),
                sections[i].1,
            ) == Ok::<GroupModel, ConfigFault>(d.groups[k as int])
        } by {
            if i < n {
                assert(front[i] == sections[i]);
                assert(sections.take(i) =~= front.take(i));
            }
        }
    }
}

/// A document is read exactly where no section is at fault by itself and both `[global]`
/// and `[watchdog]` are there. Otherwise the first section at fault decides the error, and
/// where none is, the first of the two that is missing.
pub proof fn first_faulty_section_decides(
    sections: Seq<(Option<Seq<char>>, Seq<(Seq<char>, Seq<char>)>)>,
    k: int,
)
    requires
        0 <= k <= sections.len(),
        forall|i: int| 0 <= i < k ==> fault_in(#[trigger] sections[i]) is None,
    ensures
        k < sections.len() && fault_in(sections[k]) is Some ==> config_of(Ok(sections)) == Err::<
            (ConfigModel, Seq<Notice>),
            ConfigFault,
        >(fault_in(sections[k])->0),
        k == sections.len() && !is_headed(sections, "global"@) ==> config_of(Ok(sections)) == Err::<
            (ConfigModel, Seq<Notice>),
            ConfigFault,
        >(ConfigFault::MissingSection("global"@)),
        k == sections.len() && is_headed(sections, "global"@) && !is_headed(
            sections,
            "watchdog"@,
        ) ==> config_of(Ok(sections)) == Err::<(ConfigModel, Seq<Notice>), ConfigFault>(
            ConfigFault::MissingSection("watchdog"@),
        ),
        k == sections.len() && is_headed(sections, "global"@) && is_headed(sections, "watchdog"@)
            ==> config_of(Ok(sections)) is Ok,
{
    lemma_draft_fault(sections, k);
    if k == sections.len() {
        assert(sections.take(k) =~= sections);
        lemma_settings_follow(sections);
    }
}

/// A text that is no document is refused with the message of its parser.
pub proof fn broken_document_is_refused(message: Seq<char>)
    ensures
        config_of(Err(message)) == Err::<(ConfigModel, Seq<Notice>), ConfigFault>(
            ConfigFault::Ini(message),
        ),
{
}

/// What was read of a document is what its sections say: the settings are those of the
/// last `[global]` and the last `[watchdog]` section, and the GPUs, fans and groups are
/// those of the sections that bear their prefix, each under the id behind it, in the
/// order of the document and no more than these.
pub proof fn config_is_what_the_sections_say(
    sections: Seq<(Option<Seq<char>>, Seq<(Seq<char>, Seq<char>)>)>,
    i: int,
)
    requires
        config_of(Ok(sections)) is Ok,
        0 <= i < sections.len(),
    ensures
        ({
            let c = config_of(Ok(sections))->Ok_0.0;
            let header = sections[i].0->0;
            let before = sections.take(i);
            let gpu = bearing(before, "gpu:"@) as int;
            let fan = bearing(before, "fan:"@) as int;
            let group = bearing(before, "group:"@) as int;
            &&& is_last_headed(sections, "global"@, i) ==> global_of("global"@, sections[i].1)
                == Ok::<GlobalModel, ConfigFault>(c.global)
            &&& is_last_headed(sections, "watchdog"@, i) ==> watchdog_of(
                "watchdog"@,
                sections[i].1,
            ) == Ok::<WatchdogModel, ConfigFault>(c.watchdog)
            &&& bears(sections[i], "gpu:"@) ==> gpu < c.gpus.len() && gpu_of(
                header,
                id_behind(sections[i], "gpu:"@),
                sections[i].1,
            ) == Ok::<GpuModel, ConfigFault>(c.gpus[gpu])
            &&& bears(sections[i], "fan:"@) ==> fan < c.fans.len() && fan_of(
                header,
                id_behind(sections[i], "fan:"@),
                sections[i].1,
            ) == Ok::<FanModel, ConfigFault>(c.fans[fan])
            &&& bears(sections[i], "group:"@) ==> group < c.groups.len() && group_of(
                header,
                id_behind(sections[i], "group:"@),
                sections[i].1,
            ) == Ok::<GroupModel, ConfigFault>(c.groups[group])
            &&& c.gpus.len() == bearing(sections, "gpu:"@)
            &&& c.fans.len() == bearing(sections, "fan:"@)
            &&& c.groups.len() == bearing(sections, "group:"@)
        }),
{
    lemma_settings_follow(sections);
    lemma_gpus_follow(sections);
    lemma_fans_follow(sections);
    lemma_groups_follow(sections);
}

/// A file is used exactly where it could be read, its document says a configuration, and
/// that configuration breaks no rule. A broken rule is reported together with all others.
pub proof fn file_is_read_and_checked(
    contents: Seq<char>,
    message: Seq<char>,
    c: ConfigModel,
    noted: Seq<Notice>,
)
    ensures
        file_config(Err(message)) == Err::<(ConfigModel, Seq<Notice>), ConfigFault>(
            ConfigFault::Io(message),
        ),
        file_config(Ok(contents)) == Ok::<(ConfigModel, Seq<Notice>), ConfigFault>((c, noted))
            <==> config_of(document::ini_document(contents)) == Ok::<
            (ConfigModel, Seq<Notice>),
            ConfigFault,
        >((c, noted)) && rules::violations(c).len() == 0,
        config_of(document::ini_document(contents)) == Ok::<
            (ConfigModel, Seq<Notice>),
            ConfigFault,
        >((c, noted)) && rules::violations(c).len() > 0 ==> file_config(Ok(contents)) == Err::<
            (ConfigModel, Seq<Notice>),
            ConfigFault,
        >(ConfigFault::Validation(rules::violations(c))),
        config_of(document::ini_document(contents)) is Err ==> file_config(Ok(contents))
            == config_of(document::ini_document(contents)),
{
}

/// The keys that each kind of section knows: these and no others.
pub proof fn known_keys_are_listed(key: Seq<char>)
    ensures
        keys_of(SectionKind::Global).contains(key) <==> {
            ||| key == "config_version"@
            ||| key == "poll_interval_ms"@
            ||| key == "log_level"@
            ||| key == "log_file"@
            ||| key == "power_limit_check_interval_s"@
            ||| key == "power_limit_restore_on_shutdown"@
            ||| key == "power_limit_validate_max_w"@
        },
        keys_of(SectionKind::Watchdog).contains(key) <==> {
            ||| key == "enabled"@
            ||| key == "device"@
            ||| key == "timeout_s"@
            ||| key == "gpu_fail_threshold"@
        },
        keys_of(SectionKind::Gpu).contains(key) <==> {
            ||| key == "nvml_index"@
            ||| key == "curve"@
            ||| key == "min_fan_pct"@
            ||| key == "max_fan_pct"@
            ||| key == "power_limit_enabled"@
            ||| key == "power_limit_w"@
        },
        keys_of(SectionKind::Fan).contains(key) <==> {
            ||| key == "chip"@
            ||| key == "device_path"@
            ||| key == "hwmon_path"@
            ||| key == "pwm_channel"@
            ||| key == "min_rpm"@
            ||| key == "max_rpm"@
            ||| key == "fan_fail_threshold"@
            ||| key == "spin_up_grace_s"@
        },
        keys_of(SectionKind::Group).contains(key) <==> key == "gpus"@ || key == "fans"@,
{
    let g = keys_of(SectionKind::Global);
    assert(g[0] == "config_version"@ && g[1] == "poll_interval_ms"@ && g[2] == "log_level"@ && g[3]
        == "log_file"@);
    assert(g[4] == "power_limit_check_interval_s"@ && g[5] == "power_limit_restore_on_shutdown"@
        && g[6] == "power_limit_validate_max_w"@);
    let w = keys_of(SectionKind::Watchdog);
    assert(w[0] == "enabled"@ && w[1] == "device"@ && w[2] == "timeout_s"@ && w[3]
        == "gpu_fail_threshold"@);
    let p = keys_of(SectionKind::Gpu);
    assert(p[0] == "nvml_index"@ && p[1] == "curve"@ && p[2] == "min_fan_pct"@ && p[3]
        == "max_fan_pct"@);
    assert(p[4] == "power_limit_enabled"@ && p[5] == "power_limit_w"@);
    let f = keys_of(SectionKind::Fan);
    assert(f[0] == "chip"@ && f[1] == "device_path"@ && f[2] == "hwmon_path"@ && f[3]
        == "pwm_channel"@);
    assert(f[4] == "min_rpm"@ && f[5] == "max_rpm"@ && f[6] == "fan_fail_threshold"@ && f[7]
        == "spin_up_grace_s"@);
    let u = keys_of(SectionKind::Group);
    assert(u[0] == "gpus"@ && u[1] == "fans"@);
}

// ---------------------------------------------------------------------------
// What is noted
// ---------------------------------------------------------------------------

/// Where a document is read, each notice is about a key that stands in a section that
/// does not know it, and names the section and the key; and each such key has its notice.
pub proof fn notices_name_the_unknown_keys(
    sections: Seq<(Option<Seq<char>>, Seq<(Seq<char>, Seq<char>)>)>,
    n: int,
    i: int,
    k: int,
)
    requires
        config_of(Ok(sections)) is Ok,
    ensures
        ({
            let noted = config_of(Ok(sections))->Ok_0.1;
            &&& 0 <= n < noted.len() ==> noted[n].message == "unknown key in ["@ + noted[n].section
                + "] (T2)"@ && exists|a: int, b: int|
                0 <= a < sections.len() && 0 <= b < sections[a].1.len() && sections[a].0 == Some(
                    noted[n].section,
                ) && (#[trigger] sections[a].1[b]).0 == noted[n].key && !keys_of(
                    (classified(noted[n].section)->0).0,
                ).contains(noted[n].key)
            &&& 0 <= i < sections.len() && 0 <= k < sections[i].1.len() && sections[i].0 is Some
                && !keys_of((classified(sections[i].0->0)->0).0).contains(sections[i].1[k].0)
                ==> noted.contains(
                Notice {
                    section: sections[i].0->0,
                    key: sections[i].1[k].0,
                    message: "unknown key in ["@ + sections[i].0->0 + "] (T2)"@,
                },
            )
        }),
{
    notices_follow_the_sections(sections);
    let noted = config_of(Ok(sections))->Ok_0.1;
    assert(noted == notices_of(sections));
    if 0 <= n < noted.len() {
        lemma_notice_message(sections, n);
        notices_are_justified(sections, n);
        let (a, b) = choose|a: int, b: int|
            {
                &&& 0 <= a < sections.len()
                &&& 0 <= b < sections[a].1.len()
                &&& sections[a].0 == Some(noted[n].section)
                &&& (#[trigger] sections[a].1[b]).0 == noted[n].key
                &&& classified(noted[n].section) matches Some((kind, _)) && !keys_of(
                    kind,
                ).contains(noted[n].key)
            };
        assert(sections[a].1[b].0 == noted[n].key);
    }
    if 0 <= i < sections.len() && 0 <= k < sections[i].1.len() && sections[i].0 is Some && !keys_of(
        (classified(sections[i].0->0)->0).0,
    ).contains(sections[i].1[k].0) {
        if classified(sections[i].0->0) is None {
            foreign_sections_are_refused(sections, i);
        }
        unknown_keys_are_noted(sections, i, k);
    }
}

proof fn lemma_notice_message(
    sections: Seq<(Option<Seq<char>>, Seq<(Seq<char>, Seq<char>)>)>,
    n: int,
)
    requires
        0 <= n < notices_of(sections).len(),
    ensures
        notices_of(sections)[n].message == "unknown key in ["@ + notices_of(sections)[n].section
            + "] (T2)"@,
    decreases sections.len(),
{
    let front = sections.drop_last();
    let before = notices_of(front);
    if n < before.len() {
        lemma_notice_message(front, n);
    } else {
        let last = sections.last();
        let name = last.0->0;
        lemma_section_notice_message(name, (classified(name)->0).0, last.1, n - before.len());
    }
}

proof fn lemma_section_notice_message(
    name: Seq<char>,
    kind: SectionKind,
    entries: Seq<(Seq<char>, Seq<char>)>,
    n: int,
)
    requires
        0 <= n < unknown_keys(name, kind, entries).len(),
    ensures
        unknown_keys(name, kind, entries)[n].message == "unknown key in ["@ + unknown_keys(
            name,
            kind,
            entries,
        )[n].section + "] (T2)"@,
    decreases entries.len(),
{
    let front = entries.drop_last();
    if n < unknown_keys(name, kind, front).len() {
        lemma_section_notice_message(name, kind, front, n);
    }
}

/// A section more leaves the notices of those before it as they are, and in front.
pub proof fn later_sections_add_their_notices_behind(
    sections: Seq<(Option<Seq<char>>, Seq<(Seq<char>, Seq<char>)>)>,
    section: (Option<Seq<char>>, Seq<(Seq<char>, Seq<char>)>),
)
    requires
        config_of(Ok(sections)) is Ok,
        config_of(Ok(sections.push(section))) is Ok,
    ensures
        ({
            let before = config_of(Ok(sections))->Ok_0.1;
            let after = config_of(Ok(sections.push(section)))->Ok_0.1;
            before.len() <= after.len() && after.take(before.len() as int) == before
        }),
{
    let all = sections.push(section);
    assert(all.drop_last() =~= sections);
    notices_follow_the_sections(sections);
    notices_follow_the_sections(all);
    let before = notices_of(sections);
    assert((before + section_notices(section)).take(before.len() as int) =~= before);
}

proof fn lemma_first_bad_piece(id: Seq<char>, pieces: Seq<Seq<char>>, k: int)
    requires
        0 <= k < said(pieces).len(),
        forall|i: int| 0 <= i < k ==> point_of(id, #[trigger] said(pieces)[i]) is Ok,
        point_of(id, said(pieces)[k]) is Err,
    ensures
        points_of(id, pieces) is Err,
        points_of(id, pieces)->Err_0 == point_of(id, said(pieces)[k])->Err_0,
    decreases pieces.len(),
{
    reveal(Seq::filter);
    assert(pieces.len() > 0);
    lemma_said(pieces);
    let front = pieces.drop_last();
    let piece = text::trimmed(pieces.last());
    if k < said(front).len() {
        assert forall|i: int| 0 <= i < k implies point_of(id, #[trigger] said(front)[i]) is Ok by {
            assert(said(pieces)[i] == said(front)[i]);
        }
        assert(said(pieces)[k] == said(front)[k]);
        lemma_first_bad_piece(id, front, k);
    } else {
        assert(said(pieces)[k] == piece);
        assert forall|i: int| 0 <= i < said(front).len() implies point_of(
            id,
            #[trigger] said(front)[i],
        ) is Ok by {
            assert(said(pieces)[i] == said(front)[i]);
        }
        lemma_good_pieces(id, front);
    }
}

proof fn lemma_good_pieces(id: Seq<char>, pieces: Seq<Seq<char>>)
    requires
        forall|i: int|
            0 <= i < said(pieces).len() ==> point_of(id, #[trigger] said(pieces)[i]) is Ok,
    ensures
        points_of(id, pieces) is Ok,
    decreases pieces.len(),
{
    if pieces.len() > 0 {
        lemma_said(pieces);
        let front = pieces.drop_last();
        assert forall|i: int| 0 <= i < said(front).len() implies point_of(
            id,
            #[trigger] said(front)[i],
        ) is Ok by {
            assert(said(pieces)[i] == said(front)[i]);
        }
        lemma_good_pieces(id, front);
        if text::trimmed(pieces.last()).len() > 0 {
            assert(said(pieces)[said(pieces).len() - 1] == text::trimmed(pieces.last()));
        }
    }
}

/// The first piece of a curve that writes no point decides the error, and the message
/// quotes it: as a whole where it has no colon, else the temperature where that is no
/// number, else the duty.
pub proof fn first_bad_piece_is_quoted(
    id: Seq<char>,
    raw: Seq<char>,
    k: int,
    temp: Seq<char>,
    pct: Seq<char>,
)
    requires
        0 <= k < ids_of(raw).len(),
        forall|i: int|
            0 <= i < k ==> exists|p: (Celsius, Pct)| writes_point(#[trigger] ids_of(raw)[i], p),
        !exists|p: (Celsius, Pct)| writes_point(ids_of(raw)[k], p),
    ensures
        ({
            let piece = ids_of(raw)[k];
            let t = text::integer_of(text::trimmed(temp), -0x8000, 0x7fff);
            let p = text::integer_of(text::trimmed(pct), 0, 0xff);
            &&& curve_of(id, raw) is Err
            &&& !piece.contains(':') ==> curve_of(id, raw)->Err_0 == (ConfigFault::InvalidValue {
                section: "gpu:"@ + id,
                key: "curve"@,
                message: "malformed point '"@ + piece + "', expected TEMP:PCT"@,
            })
            &&& piece == temp + seq![':'] + pct && !temp.contains(':') && t is Err ==> curve_of(
                id,
                raw,
            )->Err_0 == (ConfigFault::InvalidValue {
                section: "gpu:"@ + id,
                key: "curve"@,
                message: "temp '"@ + text::trimmed(temp) + "': "@ + t->Err_0.text(),
            })
            &&& piece == temp + seq![':'] + pct && !temp.contains(':') && t is Ok && p is Err
                ==> curve_of(id, raw)->Err_0 == (ConfigFault::InvalidValue {
                section: "gpu:"@ + id,
                key: "curve"@,
                message: "pct '"@ + pct + "': "@ + p->Err_0.text(),
            })
        }),
{
    let pieces = text::split_on(raw, ',');
    assert(said(pieces) == ids_of(raw));
    let piece = ids_of(raw)[k];
    assert forall|i: int| 0 <= i < k implies point_of(id, #[trigger] said(pieces)[i]) is Ok by {
        let p = choose|p: (Celsius, Pct)| writes_point(ids_of(raw)[i], p);
        lemma_point(id, said(pieces)[i], p);
    }
    if point_of(id, piece) is Ok {
        lemma_point(id, piece, point_of(id, piece)->Ok_0);
    }
    lemma_first_bad_piece(id, pieces, k);
    text::first_separator_parts_the_text(piece, temp, ':', pct);
}

/// Checking lets an error stand as it is, hands on a configuration that breaks no rule with
/// its notices, and turns one that breaks rules into an error that lists them all.
pub proof fn checking_refuses_what_breaks_a_rule(c: ConfigModel, noted: Seq<Notice>, e: ConfigFault)
    ensures
        accepted_of(Err(e)) == Err::<(ConfigModel, Seq<Notice>), ConfigFault>(e),
        rules::violations(c).len() == 0 ==> accepted_of(Ok((c, noted))) == Ok::<
            (ConfigModel, Seq<Notice>),
            ConfigFault,
        >((c, noted)),
        rules::violations(c).len() > 0 ==> accepted_of(Ok((c, noted))) == Err::<
            (ConfigModel, Seq<Notice>),
            ConfigFault,
        >(ConfigFault::Validation(rules::violations(c))),
{
}

/// What was read means what it holds: a configuration with its warnings, or an error.
pub proof fn results_mean_what_they_hold(cfg: Config, warnings: Vec<Warning>, e: ConfigError)
    ensures
        loaded(Ok((cfg, warnings))) == Ok::<(ConfigModel, Seq<Notice>), ConfigFault>(
            (cfg@, config::notices(warnings@)),
        ),
        loaded(Err(e)) == Err::<(ConfigModel, Seq<Notice>), ConfigFault>(e@),
        cfg@.global == cfg.global@,
        cfg@.watchdog == cfg.watchdog@,
        cfg@.gpus.len() == cfg.gpus@.len(),
        cfg@.fans.len() == cfg.fans@.len(),
        cfg@.groups.len() == cfg.groups@.len(),
        forall|i: int| 0 <= i < cfg.gpus@.len() ==> #[trigger] cfg@.gpus[i] == cfg.gpus@[i]@,
        forall|i: int| 0 <= i < cfg.fans@.len() ==> #[trigger] cfg@.fans[i] == cfg.fans@[i]@,
        forall|i: int| 0 <= i < cfg.groups@.len() ==> #[trigger] cfg@.groups[i]
            == cfg.groups@[i]@,
        config::notices(warnings@).len() == warnings@.len(),
        forall|i: int|
            0 <= i < warnings@.len() ==> {
                let n = #[trigger] config::notices(warnings@)[i];
                n.section == warnings@[i].section@ && n.key == warnings@[i].key@ && n.message
                    == warnings@[i].message@
            },
{
}

} // verus!
