//! The rules that a configuration must keep, and the check that reports every
//! rule that it breaks.
//!
//! S rules speak of the structure, G rules of one GPU, F rules of one fan, W rules
//! of the watchdog and the global settings, and P rules of power limits.

use crate::config::{
    Config, ConfigModel, FanConfig, FanModel, GpuConfig, GpuModel, GroupConfig, GroupModel,
    ValidationError, Violation, CONFIG_VERSION_SUPPORTED,
};
use crate::config;
use crate::curve;
use crate::paths;
use crate::text;
use crate::units::{Celsius, Pct};
use vstd::prelude::*;
use vstd::string::*;

verus! {

// ---------------------------------------------------------------------------
// Lists of violations
// ---------------------------------------------------------------------------

/// The lists `f(0)`, ..., `f(n - 1)`, one behind the other.
pub open spec fn gather<A>(n: nat, f: spec_fn(int) -> Seq<A>) -> Seq<A>
    decreases n,
{
    if n == 0 {
        seq![]
    } else {
        gather((n - 1) as nat, f) + f(n - 1)
    }
}

/// `v` where the rule is broken, else nothing.
pub open spec fn broken_if(cond: bool, v: Violation) -> Seq<Violation> {
    if cond {
        seq![v]
    } else {
        seq![]
    }
}

/// The greatest position below `n` at which `p` holds.
pub open spec fn last_below(n: int, p: spec_fn(int) -> bool) -> Option<int>
    decreases n,
{
    if n <= 0 {
        None
    } else if p(n - 1) {
        Some(n - 1)
    } else {
        last_below(n - 1, p)
    }
}

// ---------------------------------------------------------------------------
// Structure
// ---------------------------------------------------------------------------

/// What a group can name.
#[derive(Debug, Clone, Copy, PartialEq, Eq, Structural)]
pub enum Member {
    Gpu,
    Fan,
}

/// The members of one kind that a group names.
pub open spec fn members(group: GroupModel, kind: Member) -> Seq<Seq<char>> {
    match kind {
        Member::Gpu => group.gpus,
        Member::Fan => group.fans,
    }
}

/// How many GPUs, or fans, the configuration has.
pub open spec fn declared_count(c: ConfigModel, kind: Member) -> nat {
    match kind {
        Member::Gpu => c.gpus.len(),
        Member::Fan => c.fans.len(),
    }
}

/// The id of the GPU, or fan, at a position.
pub open spec fn declared_id(c: ConfigModel, kind: Member, i: int) -> Seq<char> {
    match kind {
        Member::Gpu => c.gpus[i].id,
        Member::Fan => c.fans[i].id,
    }
}

/// Whether a GPU, or fan, has the id.
pub open spec fn is_declared(c: ConfigModel, kind: Member, id: Seq<char>) -> bool {
    exists|i: int| 0 <= i < declared_count(c, kind) && #[trigger] declared_id(c, kind, i) == id
}

/// Whether a group names the GPU, or fan, `id`.
pub open spec fn has_member(group: GroupModel, kind: Member, id: Seq<char>) -> bool {
    members(group, kind).contains(id)
}

/// How many of the groups name the GPU, or fan, `id`. One that names it twice is
/// still one group.
pub open spec fn references(groups: Seq<GroupModel>, kind: Member, id: Seq<char>) -> nat
    decreases groups.len(),
{
    if groups.len() == 0 {
        0
    } else {
        references(groups.drop_last(), kind, id) + if has_member(groups.last(), kind, id) {
            1nat
        } else {
            0nat
        }
    }
}

/// Whether two paths, where given, have the same components.
pub open spec fn same_optional_path(a: Option<Seq<char>>, b: Option<Seq<char>>) -> bool {
    match (a, b) {
        (Some(p), Some(q)) => paths::path_key(p) == paths::path_key(q),
        (None, None) => true,
        _ => false,
    }
}

/// Whether two fans are driven through the same output.
pub open spec fn same_output(a: FanModel, b: FanModel) -> bool {
    &&& a.chip == b.chip
    &&& same_optional_path(a.device_path, b.device_path)
    &&& a.pwm_channel == b.pwm_channel
}

/// What the section of a GPU, or fan, is called in front of its id.
pub open spec fn section_prefix(kind: Member) -> Seq<char> {
    match kind {
        Member::Gpu => "gpu:"@,
        Member::Fan => "fan:"@,
    }
}

/// S4 for the GPU, or S5 for the fan, at a position.
pub open spec fn reference_rule(c: ConfigModel, kind: Member) -> spec_fn(int) -> Seq<Violation> {
    |i: int|
        {
            let id = declared_id(c, kind, i);
            let count = references(c.groups, kind, id);
            broken_if(
                count != 1,
                Violation {
                    rule: match kind {
                        Member::Gpu => "S4"@,
                        Member::Fan => "S5"@,
                    },
                    section: Some(section_prefix(kind) + id),
                    key: None,
                    message: (match kind {
                        Member::Gpu => "GPU '"@,
                        Member::Fan => "fan '"@,
                    }) + id + "' referenced by "@ + text::decimal(count)
                        + " group(s); must be exactly 1"@,
                },
            )
        }
}

/// S6, for the group at a position.
pub open spec fn group_members_rule(c: ConfigModel) -> spec_fn(int) -> Seq<Violation> {
    |i: int|
        broken_if(
            c.groups[i].gpus.len() == 0 || c.groups[i].fans.len() == 0,
            Violation {
                rule: "S6"@,
                section: Some("group:"@ + c.groups[i].id),
                key: None,
                message: "group must reference at least one GPU and at least one fan"@,
            },
        )
}

/// S7, for one GPU, or fan, that a group names.
pub open spec fn known_member_rule(
    c: ConfigModel,
    group: GroupModel,
    kind: Member,
) -> spec_fn(int) -> Seq<Violation> {
    |i: int|
        {
            let id = members(group, kind)[i];
            broken_if(
                !is_declared(c, kind, id),
                Violation {
                    rule: "S7"@,
                    section: Some("group:"@ + group.id),
                    key: Some(
                        match kind {
                            Member::Gpu => "gpus"@,
                            Member::Fan => "fans"@,
                        },
                    ),
                    message: (match kind {
                        Member::Gpu => "group references unknown gpu id '"@,
                        Member::Fan => "group references unknown fan id '"@,
                    }) + id + "'"@,
                },
            )
        }
}

/// S7, for the members of one kind in a group.
pub open spec fn known_members(c: ConfigModel, group: GroupModel, kind: Member) -> Seq<Violation> {
    gather(members(group, kind).len(), known_member_rule(c, group, kind))
}

/// S7, for the group at a position: its GPUs first, then its fans.
pub open spec fn known_members_rule(c: ConfigModel) -> spec_fn(int) -> Seq<Violation> {
    |i: int|
        known_members(c, c.groups[i], Member::Gpu) + known_members(c, c.groups[i], Member::Fan)
}

/// Whether the GPU at a position has the NVML index `index`.
pub open spec fn uses_nvml_index(gpus: Seq<GpuModel>, index: u32) -> spec_fn(int) -> bool {
    |i: int| gpus[i].nvml_index == index
}

/// S8, for the GPU at a position: the nearest earlier GPU with its index is named.
pub open spec fn nvml_index_rule(c: ConfigModel) -> spec_fn(int) -> Seq<Violation> {
    |i: int|
        match last_below(i, uses_nvml_index(c.gpus, c.gpus[i].nvml_index)) {
            Some(j) => seq![
                Violation {
                    rule: "S8"@,
                    section: Some("gpu:"@ + c.gpus[i].id),
                    key: Some("nvml_index"@),
                    message: "nvml_index "@ + text::decimal(c.gpus[i].nvml_index as nat)
                        + " duplicated (also used by gpu:"@ + c.gpus[j].id + ")"@,
                },
            ],
            None => seq![],
        }
}

/// Whether the fan at a position is driven through the output of `fan`.
pub open spec fn uses_output(fans: Seq<FanModel>, fan: FanModel) -> spec_fn(int) -> bool {
    |i: int| same_output(fans[i], fan)
}

/// S9, for the fan at a position: the nearest earlier fan with its output is named.
pub open spec fn output_rule(c: ConfigModel) -> spec_fn(int) -> Seq<Violation> {
    |i: int|
        match last_below(i, uses_output(c.fans, c.fans[i])) {
            Some(j) => seq![
                Violation {
                    rule: "S9"@,
                    section: Some("fan:"@ + c.fans[i].id),
                    key: None,
                    message:
                        "(chip, device_path, pwm_channel) tuple duplicated (also used by fan:"@
                        + c.fans[j].id + ")"@,
                },
            ],
            None => seq![],
        }
}

/// S1 to S3: there is something to control.
pub open spec fn presence_rules(c: ConfigModel) -> Seq<Violation> {
    broken_if(
        c.gpus.len() == 0,
        Violation {
            rule: "S1"@,
            section: None,
            key: None,
            message: "at least one [gpu:*] block required"@,
        },
    ) + broken_if(
        c.fans.len() == 0,
        Violation {
            rule: "S2"@,
            section: None,
            key: None,
            message: "at least one [fan:*] block required"@,
        },
    ) + broken_if(
        c.groups.len() == 0,
        Violation {
            rule: "S3"@,
            section: None,
            key: None,
            message: "at least one [group:*] block required"@,
        },
    )
}

// ---------------------------------------------------------------------------
// One GPU
// ---------------------------------------------------------------------------

/// A broken rule on the curve of `g`.
pub open spec fn curve_violation(g: GpuModel, rule: Seq<char>, message: Seq<char>) -> Violation {
    Violation { rule, section: Some("gpu:"@ + g.id), key: Some("curve"@), message }
}

/// G2, G3 and G4, for a point and its successor.
pub open spec fn curve_step_rule(g: GpuModel) -> spec_fn(int) -> Seq<Violation> {
    |i: int|
        {
            let (t0, p0) = g.curve[i];
            let (t1, p1) = g.curve[i + 1];
            (if t0.0 == t1.0 {
                seq![
                    curve_violation(
                        g,
                        "G3"@,
                        "duplicate temp "@ + text::signed_decimal(t0.0 as int),
                    ),
                ]
            } else {
                broken_if(
                    t0.0 > t1.0,
                    curve_violation(
                        g,
                        "G2"@,
                        "temps not ascending: "@ + text::signed_decimal(t0.0 as int) + " then "@
                            + text::signed_decimal(t1.0 as int),
                    ),
                )
            }) + broken_if(
                p1.0 < p0.0,
                curve_violation(
                    g,
                    "G4"@,
                    "pct decreased: "@ + text::decimal(p0.0 as nat) + " then "@ + text::decimal(
                        p1.0 as nat,
                    ),
                ),
            )
        }
}

/// G5 and G6, for a point.
pub open spec fn curve_range_rule(g: GpuModel) -> spec_fn(int) -> Seq<Violation> {
    |i: int|
        {
            let (t, p) = g.curve[i];
            broken_if(
                !(0 <= t.0 <= 110),
                curve_violation(
                    g,
                    "G5"@,
                    "curve temp "@ + text::signed_decimal(t.0 as int) + " outside [0, 110] °C"@,
                ),
            ) + broken_if(
                p.0 > 100,
                curve_violation(
                    g,
                    "G6"@,
                    "curve pct "@ + text::decimal(p.0 as nat) + " outside [0, 100]"@,
                ),
            )
        }
}

/// The number of neighbouring pairs in a list.
pub open spec fn steps(len: nat) -> nat {
    if len == 0 {
        0
    } else {
        (len - 1) as nat
    }
}

/// G1 to G6: the curve.
pub open spec fn curve_rules(g: GpuModel) -> Seq<Violation> {
    broken_if(
        !(2 <= g.curve.len() <= 10),
        curve_violation(
            g,
            "G1"@,
            "curve has "@ + text::decimal(g.curve.len()) + " point(s); need 2..=10"@,
        ),
    ) + gather(steps(g.curve.len()), curve_step_rule(g)) + gather(
        g.curve.len(),
        curve_range_rule(g),
    )
}

/// G7 and G8: the band.
pub open spec fn band_rules(g: GpuModel) -> Seq<Violation> {
    broken_if(
        g.min_fan_pct.0 > g.max_fan_pct.0,
        Violation {
            rule: "G7"@,
            section: Some("gpu:"@ + g.id),
            key: None,
            message: "min_fan_pct ("@ + text::decimal(g.min_fan_pct.0 as nat) + ") > max_fan_pct ("@
                + text::decimal(g.max_fan_pct.0 as nat) + ")"@,
        },
    ) + broken_if(
        g.min_fan_pct.0 > 100,
        Violation {
            rule: "G8"@,
            section: Some("gpu:"@ + g.id),
            key: Some("min_fan_pct"@),
            message: "min_fan_pct "@ + text::decimal(g.min_fan_pct.0 as nat)
                + " outside [0, 100]"@,
        },
    ) + broken_if(
        g.max_fan_pct.0 > 100,
        Violation {
            rule: "G8"@,
            section: Some("gpu:"@ + g.id),
            key: Some("max_fan_pct"@),
            message: "max_fan_pct "@ + text::decimal(g.max_fan_pct.0 as nat)
                + " outside [0, 100]"@,
        },
    )
}

/// G1 to G8, for the GPU at a position.
pub open spec fn gpu_rule(c: ConfigModel) -> spec_fn(int) -> Seq<Violation> {
    |i: int| curve_rules(c.gpus[i]) + band_rules(c.gpus[i])
}

// ---------------------------------------------------------------------------
// One fan
// ---------------------------------------------------------------------------

/// F1, F2, F4 and F5. (F3 asks that the grace time is not negative, which its
/// type gives.)
pub open spec fn fan_rules(f: FanModel) -> Seq<Violation> {
    let section = Some("fan:"@ + f.id);
    broken_if(
        f.max_rpm <= f.min_rpm,
        Violation {
            rule: "F1"@,
            section,
            key: None,
            message: "max_rpm ("@ + text::decimal(f.max_rpm as nat) + ") must be > min_rpm ("@
                + text::decimal(f.min_rpm as nat) + ")"@,
        },
    ) + broken_if(
        f.fan_fail_threshold < 1,
        Violation {
            rule: "F2"@,
            section,
            key: Some("fan_fail_threshold"@),
            message: "fan_fail_threshold must be ≥ 1"@,
        },
    ) + broken_if(
        f.pwm_channel < 1,
        Violation {
            rule: "F4"@,
            section,
            key: Some("pwm_channel"@),
            message: "pwm_channel must be ≥ 1"@,
        },
    ) + broken_if(
        f.chip is None && f.device_path is None && f.hwmon_path is None,
        Violation {
            rule: "F5"@,
            section,
            key: None,
            message: "at least one of chip / device_path / hwmon_path must be set"@,
        },
    )
}

/// F1, F2, F4 and F5, for the fan at a position.
pub open spec fn fan_rule(c: ConfigModel) -> spec_fn(int) -> Seq<Violation> {
    |i: int| fan_rules(c.fans[i])
}

// ---------------------------------------------------------------------------
// Watchdog and global settings
// ---------------------------------------------------------------------------

/// The largest of `least` and the thresholds of the fans.
pub open spec fn largest_threshold(fans: Seq<FanModel>, least: u32) -> u32
    decreases fans.len(),
{
    if fans.len() == 0 {
        least
    } else {
        let rest = largest_threshold(fans.drop_last(), least);
        if fans.last().fan_fail_threshold > rest {
            fans.last().fan_fail_threshold
        } else {
            rest
        }
    }
}

/// The longest time in milliseconds for which a fault can go undeclared.
pub open spec fn detection_ms(c: ConfigModel) -> nat {
    c.global.poll_interval_ms as nat * largest_threshold(
        c.fans,
        c.watchdog.gpu_fail_threshold,
    ) as nat
}

/// Half of the watchdog timeout, in milliseconds.
pub open spec fn half_timeout_ms(c: ConfigModel) -> nat {
    c.watchdog.timeout_s as nat * 500
}

/// W1 to W3.
pub open spec fn watchdog_rules(c: ConfigModel) -> Seq<Violation> {
    broken_if(
        c.watchdog.device.len() == 0,
        Violation {
            rule: "W1"@,
            section: Some("watchdog"@),
            key: Some("device"@),
            message: "watchdog device path must be non-empty"@,
        },
    ) + broken_if(
        !(5 <= c.watchdog.timeout_s <= 600),
        Violation {
            rule: "W2"@,
            section: Some("watchdog"@),
            key: Some("timeout_s"@),
            message: "timeout_s "@ + text::decimal(c.watchdog.timeout_s as nat)
                + " outside [5, 600]"@,
        },
    ) + broken_if(
        c.watchdog.gpu_fail_threshold < 1,
        Violation {
            rule: "W3"@,
            section: Some("watchdog"@),
            key: Some("gpu_fail_threshold"@),
            message: "gpu_fail_threshold must be ≥ 1"@,
        },
    )
}

/// W4, W5 and W7. (W6 asks for a known log level, which its type gives.)
pub open spec fn global_rules(c: ConfigModel) -> Seq<Violation> {
    broken_if(
        !(100 <= c.global.poll_interval_ms <= 10_000),
        Violation {
            rule: "W4"@,
            section: Some("global"@),
            key: Some("poll_interval_ms"@),
            message: "poll_interval_ms "@ + text::decimal(c.global.poll_interval_ms as nat)
                + " outside [100, 10000]"@,
        },
    ) + broken_if(
        detection_ms(c) >= half_timeout_ms(c),
        Violation {
            rule: "W5"@,
            section: None,
            key: None,
            message: "poll_interval_ms × max(thresholds) ("@ + text::decimal(detection_ms(c))
                + ") must be < timeout_s × 500 ("@ + text::decimal(half_timeout_ms(c))
                + ") — leave headroom for fault propagation"@,
        },
    ) + broken_if(
        c.global.config_version != CONFIG_VERSION_SUPPORTED,
        Violation {
            rule: "W7"@,
            section: Some("global"@),
            key: Some("config_version"@),
            message: "unsupported config_version "@ + text::decimal(
                c.global.config_version as nat,
            ) + " (this daemon recognises "@ + text::decimal(CONFIG_VERSION_SUPPORTED as nat)
                + ")"@,
        },
    )
}

// ---------------------------------------------------------------------------
// Power limits
// ---------------------------------------------------------------------------

/// P1 and P2, for the GPU at a position: a limit that is to be enforced is given, and
/// a limit that is given is no typing error.
pub open spec fn power_rule(c: ConfigModel) -> spec_fn(int) -> Seq<Violation> {
    |i: int|
        {
            let g = c.gpus[i];
            let max = c.global.power_limit_validate_max_w;
            let section = Some("gpu:"@ + g.id);
            let key = Some("power_limit_w"@);
            match g.power_limit_w {
                None => broken_if(
                    g.power_limit_enabled,
                    Violation {
                        rule: "P1"@,
                        section,
                        key,
                        message: "power_limit_enabled is true but power_limit_w is not set"@,
                    },
                ),
                Some(w) => broken_if(
                    w > max,
                    Violation {
                        rule: "P2"@,
                        section,
                        key,
                        message: "power_limit_w "@ + text::decimal(w as nat)
                            + " above power_limit_validate_max_w ("@ + text::decimal(max as nat)
                            + ")"@,
                    },
                ),
            }
        }
}

/// Every rule that a configuration breaks, in the order of the report.
pub open spec fn violations(c: ConfigModel) -> Seq<Violation> {
    presence_rules(c) + gather(c.gpus.len(), reference_rule(c, Member::Gpu)) + gather(
        c.fans.len(),
        reference_rule(c, Member::Fan),
    ) + gather(c.groups.len(), group_members_rule(c)) + gather(
        c.groups.len(),
        known_members_rule(c),
    ) + gather(c.gpus.len(), nvml_index_rule(c)) + gather(c.fans.len(), output_rule(c)) + gather(
        c.gpus.len(),
        gpu_rule(c),
    ) + gather(c.fans.len(), fan_rule(c)) + watchdog_rules(c) + global_rules(c) + gather(
        c.gpus.len(),
        power_rule(c),
    )
}

// ---------------------------------------------------------------------------
// The check
// ---------------------------------------------------------------------------

fn rule(
    code: &'static str,
    section: Option<String>,
    key: Option<String>,
    message: String,
) -> (r: ValidationError)
    ensures
        r@ == (Violation {
            rule: code@,
            section: config::optional_text(section),
            key: config::optional_text(key),
            message: message@,
        }),
{
    ValidationError { rule: code, section, key, message }
}

fn report(errs: &mut Vec<ValidationError>, err: ValidationError)
    ensures
        config::violations_in(final(errs)@) == config::violations_in(old(errs)@) + seq![err@],
{
    errs.push(err);
}

fn prefixed(prefix: &str, id: &str) -> (r: String)
    ensures
        r@ == prefix@ + id@,
{
    let mut r: String = prefix.to_string();
    r.append(id);
    r
}

proof fn lemma_gather_next<A>(before: Seq<A>, n: nat, f: spec_fn(int) -> Seq<A>)
    ensures
        before + gather(n + 1, f) == (before + gather(n, f)) + f(n as int),
{
    assert(before + gather(n + 1, f) =~= (before + gather(n, f)) + f(n as int));
}

fn check_presence(cfg: &Config, errs: &mut Vec<ValidationError>)
    ensures
        config::violations_in(final(errs)@) == config::violations_in(old(errs)@) + presence_rules(
            cfg@,
        ),
{
    if cfg.gpus.len() == 0 {
        report(errs, rule("S1", None, None, "at least one [gpu:*] block required".to_string()));
    }
    if cfg.fans.len() == 0 {
        report(errs, rule("S2", None, None, "at least one [fan:*] block required".to_string()));
    }
    if cfg.groups.len() == 0 {
        report(errs, rule("S3", None, None, "at least one [group:*] block required".to_string()));
    }
}

fn member_list<'a>(group: &'a GroupConfig, kind: Member) -> (r: &'a Vec<String>)
    ensures
        text::strings(r@) == members(group@, kind),
{
    match kind {
        Member::Gpu => &group.gpus,
        Member::Fan => &group.fans,
    }
}

fn declared_len(cfg: &Config, kind: Member) -> (r: usize)
    ensures
        r == declared_count(cfg@, kind),
{
    match kind {
        Member::Gpu => cfg.gpus.len(),
        Member::Fan => cfg.fans.len(),
    }
}

fn id_at<'a>(cfg: &'a Config, kind: Member, i: usize) -> (r: &'a str)
    requires
        i < declared_count(cfg@, kind),
    ensures
        r@ == declared_id(cfg@, kind, i as int),
{
    match kind {
        Member::Gpu => {
            assert(cfg@.gpus[i as int] == cfg.gpus@[i as int]@);
            cfg.gpus[i].id.as_str()
        },
        Member::Fan => {
            assert(cfg@.fans[i as int] == cfg.fans@[i as int]@);
            cfg.fans[i].id.as_str()
        },
    }
}

fn names_member(group: &GroupConfig, kind: Member, id: &str) -> (r: bool)
    ensures
        r == has_member(group@, kind, id@),
{
    let ids: &Vec<String> = member_list(group, kind);
    let ghost all = members(group@, kind);
    let mut i: usize = 0;
    while i < ids.len()
        invariant
            i <= ids.len(),
            all == text::strings(ids@),
            all == members(group@, kind),
            forall|k: int| 0 <= k < i ==> #[trigger] all[k] != id@,
        decreases ids.len() - i,
    {
        assert(all[i as int] == ids@[i as int]@);
        if text::same_text(ids[i].as_str(), id) {
            return true;
        }
        i = i + 1;
    }
    false
}

fn count_references(groups: &Vec<GroupConfig>, kind: Member, id: &str) -> (r: usize)
    ensures
        r == references(config::group_models(groups@), kind, id@),
{
    let ghost all = config::group_models(groups@);
    let mut count: usize = 0;
    let mut i: usize = 0;
    while i < groups.len()
        invariant
            i <= groups.len(),
            all == config::group_models(groups@),
            count == references(all.take(i as int), kind, id@),
            count <= i,
        decreases groups.len() - i,
    {
        assert(all.take(i + 1).drop_last() =~= all.take(i as int));
        assert(all.take(i + 1).last() == groups@[i as int]@);
        if names_member(&groups[i], kind, id) {
            count = count + 1;
        }
        i = i + 1;
    }
    assert(all.take(i as int) =~= all);
    count
}

fn reference_error(kind: Member, id: &str, count: usize) -> (r: ValidationError)
    ensures
        r@.rule == (match kind {
            Member::Gpu => "S4"@,
            Member::Fan => "S5"@,
        }),
        r@.section == Some(section_prefix(kind) + id@),
        r@.key is None,
        r@.message == (match kind {
            Member::Gpu => "GPU '"@,
            Member::Fan => "fan '"@,
        }) + id@ + "' referenced by "@ + text::decimal(count as nat)
            + " group(s); must be exactly 1"@,
{
    let (code, prefix, noun): (&'static str, &'static str, &'static str) = match kind {
        Member::Gpu => ("S4", "gpu:", "GPU '"),
        Member::Fan => ("S5", "fan:", "fan '"),
    };
    let mut message: String = prefixed(noun, id);
    message.append("' referenced by ");
    message.append(text::decimal_text(count as u128).as_str());
    message.append(" group(s); must be exactly 1");
    rule(code, Some(prefixed(prefix, id)), None, message)
}

fn check_references(cfg: &Config, kind: Member, errs: &mut Vec<ValidationError>)
    ensures
        config::violations_in(final(errs)@) == config::violations_in(old(errs)@) + gather(
            declared_count(cfg@, kind),
            reference_rule(cfg@, kind),
        ),
{
    let ghost before = config::violations_in(errs@);
    let n: usize = declared_len(cfg, kind);
    let mut i: usize = 0;
    while i < n
        invariant
            i <= n,
            n == declared_count(cfg@, kind),
            config::violations_in(errs@) == before + gather(i as nat, reference_rule(cfg@, kind)),
        decreases n - i,
    {
        let id: &str = id_at(cfg, kind, i);
        let count: usize = count_references(&cfg.groups, kind, id);
        if count != 1 {
            report(errs, reference_error(kind, id, count));
        }
        proof {
            lemma_gather_next(before, i as nat, reference_rule(cfg@, kind));
        }
        i = i + 1;
    }
}

fn check_group_members(cfg: &Config, errs: &mut Vec<ValidationError>)
    ensures
        config::violations_in(final(errs)@) == config::violations_in(old(errs)@) + gather(
            cfg@.groups.len(),
            group_members_rule(cfg@),
        ),
{
    let ghost before = config::violations_in(errs@);
    let mut i: usize = 0;
    while i < cfg.groups.len()
        invariant
            i <= cfg.groups.len(),
            config::violations_in(errs@) == before + gather(i as nat, group_members_rule(cfg@)),
        decreases cfg.groups.len() - i,
    {
        let group: &GroupConfig = &cfg.groups[i];
        assert(cfg@.groups[i as int] == group@);
        if group.gpus.len() == 0 || group.fans.len() == 0 {
            report(
                errs,
                rule(
                    "S6",
                    Some(prefixed("group:", group.id.as_str())),
                    None,
                    "group must reference at least one GPU and at least one fan".to_string(),
                ),
            );
        }
        proof {
            lemma_gather_next(before, i as nat, group_members_rule(cfg@));
        }
        i = i + 1;
    }
}

fn declares(cfg: &Config, kind: Member, id: &str) -> (r: bool)
    ensures
        r == is_declared(cfg@, kind, id@),
{
    let n: usize = declared_len(cfg, kind);
    let mut i: usize = 0;
    while i < n
        invariant
            i <= n,
            n == declared_count(cfg@, kind),
            forall|k: int| 0 <= k < i ==> #[trigger] declared_id(cfg@, kind, k) != id@,
        decreases n - i,
    {
        if text::same_text(id_at(cfg, kind, i), id) {
            return true;
        }
        i = i + 1;
    }
    false
}

fn unknown_member_error(group: &GroupConfig, kind: Member, id: &str) -> (r: ValidationError)
    ensures
        r@.rule == "S7"@,
        r@.section == Some("group:"@ + group@.id),
        r@.key == Some(
            match kind {
                Member::Gpu => "gpus"@,
                Member::Fan => "fans"@,
            },
        ),
        r@.message == (match kind {
            Member::Gpu => "group references unknown gpu id '"@,
            Member::Fan => "group references unknown fan id '"@,
        }) + id@ + "'"@,
{
    let (key, opening): (&'static str, &'static str) = match kind {
        Member::Gpu => ("gpus", "group references unknown gpu id '"),
        Member::Fan => ("fans", "group references unknown fan id '"),
    };
    let mut message: String = prefixed(opening, id);
    message.append("'");
    rule("S7", Some(prefixed("group:", group.id.as_str())), Some(key.to_string()), message)
}

fn check_known(cfg: &Config, group: &GroupConfig, kind: Member, errs: &mut Vec<ValidationError>)
    ensures
        config::violations_in(final(errs)@) == config::violations_in(old(errs)@) + known_members(
            cfg@,
            group@,
            kind,
        ),
{
    let ghost before = config::violations_in(errs@);
    let ids: &Vec<String> = member_list(group, kind);
    let mut i: usize = 0;
    while i < ids.len()
        invariant
            i <= ids.len(),
            text::strings(ids@) == members(group@, kind),
            config::violations_in(errs@) == before + gather(
                i as nat,
                known_member_rule(cfg@, group@, kind),
            ),
        decreases ids.len() - i,
    {
        let id: &str = ids[i].as_str();
        assert(text::strings(ids@)[i as int] == id@);
        if !declares(cfg, kind, id) {
            report(errs, unknown_member_error(group, kind, id));
        }
        proof {
            lemma_gather_next(before, i as nat, known_member_rule(cfg@, group@, kind));
        }
        i = i + 1;
    }
    assert(text::strings(ids@).len() == ids.len());
}

fn check_known_members(cfg: &Config, errs: &mut Vec<ValidationError>)
    ensures
        config::violations_in(final(errs)@) == config::violations_in(old(errs)@) + gather(
            cfg@.groups.len(),
            known_members_rule(cfg@),
        ),
{
    let ghost before = config::violations_in(errs@);
    let mut i: usize = 0;
    while i < cfg.groups.len()
        invariant
            i <= cfg.groups.len(),
            config::violations_in(errs@) == before + gather(i as nat, known_members_rule(cfg@)),
        decreases cfg.groups.len() - i,
    {
        let group: &GroupConfig = &cfg.groups[i];
        assert(cfg@.groups[i as int] == group@);
        check_known(cfg, group, Member::Gpu, errs);
        check_known(cfg, group, Member::Fan, errs);
        proof {
            lemma_gather_next(before, i as nat, known_members_rule(cfg@));
        }
        assert(config::violations_in(errs@) =~= before + gather(
            (i + 1) as nat,
            known_members_rule(cfg@),
        ));
        i = i + 1;
    }
}

fn earlier_nvml_index(gpus: &Vec<GpuConfig>, n: usize) -> (r: Option<usize>)
    requires
        n < gpus.len(),
    ensures
        match r {
            Some(j) => j < n && last_below(
                n as int,
                uses_nvml_index(config::gpu_models(gpus@), gpus@[n as int].nvml_index),
            ) == Some(j as int),
            None => last_below(
                n as int,
                uses_nvml_index(config::gpu_models(gpus@), gpus@[n as int].nvml_index),
            ) is None,
        },
{
    let ghost p = uses_nvml_index(config::gpu_models(gpus@), gpus@[n as int].nvml_index);
    let mut j: usize = n;
    while j > 0
        invariant
            j <= n < gpus.len(),
            p == uses_nvml_index(config::gpu_models(gpus@), gpus@[n as int].nvml_index),
            last_below(n as int, p) == last_below(j as int, p),
        decreases j,
    {
        assert(config::gpu_models(gpus@)[j - 1] == gpus@[j - 1]@);
        if gpus[j - 1].nvml_index == gpus[n].nvml_index {
            return Some(j - 1);
        }
        j = j - 1;
    }
    None
}

fn check_nvml_indices(cfg: &Config, errs: &mut Vec<ValidationError>)
    ensures
        config::violations_in(final(errs)@) == config::violations_in(old(errs)@) + gather(
            cfg@.gpus.len(),
            nvml_index_rule(cfg@),
        ),
{
    let ghost before = config::violations_in(errs@);
    let mut i: usize = 0;
    while i < cfg.gpus.len()
        invariant
            i <= cfg.gpus.len(),
            config::violations_in(errs@) == before + gather(i as nat, nvml_index_rule(cfg@)),
        decreases cfg.gpus.len() - i,
    {
        let gpu: &GpuConfig = &cfg.gpus[i];
        assert(cfg@.gpus[i as int] == gpu@);
        match earlier_nvml_index(&cfg.gpus, i) {
            Some(j) => {
                assert(cfg@.gpus[j as int] == cfg.gpus@[j as int]@);
                let mut message: String = "nvml_index ".to_string();
                message.append(text::decimal_text(gpu.nvml_index as u128).as_str());
                message.append(" duplicated (also used by gpu:");
                message.append(cfg.gpus[j].id.as_str());
                message.append(")");
                report(
                    errs,
                    rule(
                        "S8",
                        Some(prefixed("gpu:", gpu.id.as_str())),
                        Some("nvml_index".to_string()),
                        message,
                    ),
                );
            },
            None => {},
        }
        proof {
            lemma_gather_next(before, i as nat, nvml_index_rule(cfg@));
        }
        i = i + 1;
    }
}

fn equal_texts(a: &Option<String>, b: &Option<String>) -> (r: bool)
    ensures
        r == (config::optional_text(*a) == config::optional_text(*b)),
{
    match (a, b) {
        (Some(s), Some(t)) => text::same_text(s.as_str(), t.as_str()),
        (None, None) => true,
        _ => false,
    }
}

fn equal_paths(a: &Option<String>, b: &Option<String>) -> (r: bool)
    ensures
        r == same_optional_path(config::optional_text(*a), config::optional_text(*b)),
{
    match (a, b) {
        (Some(s), Some(t)) => paths::same_path(s.as_str(), t.as_str()),
        (None, None) => true,
        _ => false,
    }
}

fn shares_output(a: &FanConfig, b: &FanConfig) -> (r: bool)
    ensures
        r == same_output(a@, b@),
{
    equal_texts(&a.chip, &b.chip) && equal_paths(&a.device_path, &b.device_path) && a.pwm_channel
        == b.pwm_channel
}

fn earlier_output(fans: &Vec<FanConfig>, n: usize) -> (r: Option<usize>)
    requires
        n < fans.len(),
    ensures
        match r {
            Some(j) => j < n && last_below(
                n as int,
                uses_output(config::fan_models(fans@), fans@[n as int]@),
            ) == Some(j as int),
            None => last_below(
                n as int,
                uses_output(config::fan_models(fans@), fans@[n as int]@),
            ) is None,
        },
{
    let ghost p = uses_output(config::fan_models(fans@), fans@[n as int]@);
    let mut j: usize = n;
    while j > 0
        invariant
            j <= n < fans.len(),
            p == uses_output(config::fan_models(fans@), fans@[n as int]@),
            last_below(n as int, p) == last_below(j as int, p),
        decreases j,
    {
        assert(config::fan_models(fans@)[j - 1] == fans@[j - 1]@);
        if shares_output(&fans[j - 1], &fans[n]) {
            return Some(j - 1);
        }
        j = j - 1;
    }
    None
}

fn check_outputs(cfg: &Config, errs: &mut Vec<ValidationError>)
    ensures
        config::violations_in(final(errs)@) == config::violations_in(old(errs)@) + gather(
            cfg@.fans.len(),
            output_rule(cfg@),
        ),
{
    let ghost before = config::violations_in(errs@);
    let mut i: usize = 0;
    while i < cfg.fans.len()
        invariant
            i <= cfg.fans.len(),
            config::violations_in(errs@) == before + gather(i as nat, output_rule(cfg@)),
        decreases cfg.fans.len() - i,
    {
        let fan: &FanConfig = &cfg.fans[i];
        assert(cfg@.fans[i as int] == fan@);
        match earlier_output(&cfg.fans, i) {
            Some(j) => {
                assert(cfg@.fans[j as int] == cfg.fans@[j as int]@);
                let mut message: String =
                    "(chip, device_path, pwm_channel) tuple duplicated (also used by fan:".to_string();
                message.append(cfg.fans[j].id.as_str());
                message.append(")");
                report(errs, rule("S9", Some(prefixed("fan:", fan.id.as_str())), None, message));
            },
            None => {},
        }
        proof {
            lemma_gather_next(before, i as nat, output_rule(cfg@));
        }
        i = i + 1;
    }
}

fn curve_rule(gpu: &GpuConfig, code: &'static str, message: String) -> (r: ValidationError)
    ensures
        r@ == curve_violation(gpu@, code@, message@),
{
    rule(code, Some(prefixed("gpu:", gpu.id.as_str())), Some("curve".to_string()), message)
}

fn check_curve_steps(gpu: &GpuConfig, errs: &mut Vec<ValidationError>)
    ensures
        config::violations_in(final(errs)@) == config::violations_in(old(errs)@) + gather(
            steps(gpu@.curve.len()),
            curve_step_rule(gpu@),
        ),
{
    let ghost before = config::violations_in(errs@);
    let pts: &[(Celsius, Pct)] = gpu.curve.points();
    let mut i: usize = 0;
    while i + 1 < pts.len()
        invariant
            pts@ == gpu@.curve,
            i <= steps(pts@.len()),
            i < pts.len(),
            config::violations_in(errs@) == before + gather(i as nat, curve_step_rule(gpu@)),
        decreases pts.len() - i,
    {
        let (t0, p0) = pts[i];
        let (t1, p1) = pts[i + 1];
        if t0.0 == t1.0 {
            let mut message: String = "duplicate temp ".to_string();
            message.append(text::signed_decimal_text(t0.0 as i32).as_str());
            report(errs, curve_rule(gpu, "G3", message));
        } else if t0.0 > t1.0 {
            let mut message: String = "temps not ascending: ".to_string();
            message.append(text::signed_decimal_text(t0.0 as i32).as_str());
            message.append(" then ");
            message.append(text::signed_decimal_text(t1.0 as i32).as_str());
            report(errs, curve_rule(gpu, "G2", message));
        }
        if p1.0 < p0.0 {
            let mut message: String = "pct decreased: ".to_string();
            message.append(text::decimal_text(p0.0 as u128).as_str());
            message.append(" then ");
            message.append(text::decimal_text(p1.0 as u128).as_str());
            report(errs, curve_rule(gpu, "G4", message));
        }
        proof {
            lemma_gather_next(before, i as nat, curve_step_rule(gpu@));
        }
        i = i + 1;
    }
}

fn check_curve_ranges(gpu: &GpuConfig, errs: &mut Vec<ValidationError>)
    ensures
        config::violations_in(final(errs)@) == config::violations_in(old(errs)@) + gather(
            gpu@.curve.len(),
            curve_range_rule(gpu@),
        ),
{
    let ghost before = config::violations_in(errs@);
    let pts: &[(Celsius, Pct)] = gpu.curve.points();
    let mut i: usize = 0;
    while i < pts.len()
        invariant
            pts@ == gpu@.curve,
            i <= pts.len(),
            config::violations_in(errs@) == before + gather(i as nat, curve_range_rule(gpu@)),
        decreases pts.len() - i,
    {
        let (t, p) = pts[i];
        if t.0 < 0 || t.0 > 110 {
            let mut message: String = "curve temp ".to_string();
            message.append(text::signed_decimal_text(t.0 as i32).as_str());
            message.append(" outside [0, 110] °C");
            report(errs, curve_rule(gpu, "G5", message));
        }
        if p.0 > 100 {
            let mut message: String = "curve pct ".to_string();
            message.append(text::decimal_text(p.0 as u128).as_str());
            message.append(" outside [0, 100]");
            report(errs, curve_rule(gpu, "G6", message));
        }
        proof {
            lemma_gather_next(before, i as nat, curve_range_rule(gpu@));
        }
        i = i + 1;
    }
}

fn check_curve(gpu: &GpuConfig, errs: &mut Vec<ValidationError>)
    ensures
        config::violations_in(final(errs)@) == config::violations_in(old(errs)@) + curve_rules(
            gpu@,
        ),
{
    let n: usize = gpu.curve.points().len();
    if n < 2 || n > 10 {
        let mut message: String = "curve has ".to_string();
        message.append(text::decimal_text(n as u128).as_str());
        message.append(" point(s); need 2..=10");
        report(errs, curve_rule(gpu, "G1", message));
    }
    check_curve_steps(gpu, errs);
    check_curve_ranges(gpu, errs);
}

fn check_band(gpu: &GpuConfig, errs: &mut Vec<ValidationError>)
    ensures
        config::violations_in(final(errs)@) == config::violations_in(old(errs)@) + band_rules(gpu@),
{
    let min: u8 = gpu.min_fan_pct.0;
    let max: u8 = gpu.max_fan_pct.0;
    if min > max {
        let mut message: String = "min_fan_pct (".to_string();
        message.append(text::decimal_text(min as u128).as_str());
        message.append(") > max_fan_pct (");
        message.append(text::decimal_text(max as u128).as_str());
        message.append(")");
        report(errs, rule("G7", Some(prefixed("gpu:", gpu.id.as_str())), None, message));
    }
    if min > 100 {
        let mut message: String = "min_fan_pct ".to_string();
        message.append(text::decimal_text(min as u128).as_str());
        message.append(" outside [0, 100]");
        report(
            errs,
            rule(
                "G8",
                Some(prefixed("gpu:", gpu.id.as_str())),
                Some("min_fan_pct".to_string()),
                message,
            ),
        );
    }
    if max > 100 {
        let mut message: String = "max_fan_pct ".to_string();
        message.append(text::decimal_text(max as u128).as_str());
        message.append(" outside [0, 100]");
        report(
            errs,
            rule(
                "G8",
                Some(prefixed("gpu:", gpu.id.as_str())),
                Some("max_fan_pct".to_string()),
                message,
            ),
        );
    }
}

fn check_gpus(cfg: &Config, errs: &mut Vec<ValidationError>)
    ensures
        config::violations_in(final(errs)@) == config::violations_in(old(errs)@) + gather(
            cfg@.gpus.len(),
            gpu_rule(cfg@),
        ),
{
    let ghost before = config::violations_in(errs@);
    let mut i: usize = 0;
    while i < cfg.gpus.len()
        invariant
            i <= cfg.gpus.len(),
            config::violations_in(errs@) == before + gather(i as nat, gpu_rule(cfg@)),
        decreases cfg.gpus.len() - i,
    {
        assert(cfg@.gpus[i as int] == cfg.gpus@[i as int]@);
        check_curve(&cfg.gpus[i], errs);
        check_band(&cfg.gpus[i], errs);
        proof {
            lemma_gather_next(before, i as nat, gpu_rule(cfg@));
        }
        i = i + 1;
    }
}

fn check_fan(fan: &FanConfig, errs: &mut Vec<ValidationError>)
    ensures
        config::violations_in(final(errs)@) == config::violations_in(old(errs)@) + fan_rules(fan@),
{
    if fan.max_rpm <= fan.min_rpm {
        let mut message: String = "max_rpm (".to_string();
        message.append(text::decimal_text(fan.max_rpm as u128).as_str());
        message.append(") must be > min_rpm (");
        message.append(text::decimal_text(fan.min_rpm as u128).as_str());
        message.append(")");
        report(errs, rule("F1", Some(prefixed("fan:", fan.id.as_str())), None, message));
    }
    if fan.fan_fail_threshold < 1 {
        report(
            errs,
            rule(
                "F2",
                Some(prefixed("fan:", fan.id.as_str())),
                Some("fan_fail_threshold".to_string()),
                "fan_fail_threshold must be ≥ 1".to_string(),
            ),
        );
    }
    if fan.pwm_channel < 1 {
        report(
            errs,
            rule(
                "F4",
                Some(prefixed("fan:", fan.id.as_str())),
                Some("pwm_channel".to_string()),
                "pwm_channel must be ≥ 1".to_string(),
            ),
        );
    }
    if fan.chip.is_none() && fan.device_path.is_none() && fan.hwmon_path.is_none() {
        report(
            errs,
            rule(
                "F5",
                Some(prefixed("fan:", fan.id.as_str())),
                None,
                "at least one of chip / device_path / hwmon_path must be set".to_string(),
            ),
        );
    }
}

fn check_fans(cfg: &Config, errs: &mut Vec<ValidationError>)
    ensures
        config::violations_in(final(errs)@) == config::violations_in(old(errs)@) + gather(
            cfg@.fans.len(),
            fan_rule(cfg@),
        ),
{
    let ghost before = config::violations_in(errs@);
    let mut i: usize = 0;
    while i < cfg.fans.len()
        invariant
            i <= cfg.fans.len(),
            config::violations_in(errs@) == before + gather(i as nat, fan_rule(cfg@)),
        decreases cfg.fans.len() - i,
    {
        assert(cfg@.fans[i as int] == cfg.fans@[i as int]@);
        check_fan(&cfg.fans[i], errs);
        proof {
            lemma_gather_next(before, i as nat, fan_rule(cfg@));
        }
        i = i + 1;
    }
}

fn max_threshold(fans: &Vec<FanConfig>, least: u32) -> (r: u32)
    ensures
        r == largest_threshold(config::fan_models(fans@), least),
{
    let ghost all = config::fan_models(fans@);
    let mut r: u32 = least;
    let mut i: usize = 0;
    while i < fans.len()
        invariant
            i <= fans.len(),
            all == config::fan_models(fans@),
            r == largest_threshold(all.take(i as int), least),
        decreases fans.len() - i,
    {
        assert(all.take(i + 1).drop_last() =~= all.take(i as int));
        assert(all.take(i + 1).last() == fans@[i as int]@);
        if fans[i].fan_fail_threshold > r {
            r = fans[i].fan_fail_threshold;
        }
        i = i + 1;
    }
    assert(all.take(i as int) =~= all);
    r
}

fn check_watchdog(cfg: &Config, errs: &mut Vec<ValidationError>)
    ensures
        config::violations_in(final(errs)@) == config::violations_in(old(errs)@) + watchdog_rules(
            cfg@,
        ),
{
    let timeout_s: u32 = cfg.watchdog.timeout_s;
    if cfg.watchdog.device.as_str().unicode_len() == 0 {
        report(
            errs,
            rule(
                "W1",
                Some("watchdog".to_string()),
                Some("device".to_string()),
                "watchdog device path must be non-empty".to_string(),
            ),
        );
    }
    if timeout_s < 5 || timeout_s > 600 {
        let mut message: String = "timeout_s ".to_string();
        message.append(text::decimal_text(timeout_s as u128).as_str());
        message.append(" outside [5, 600]");
        report(
            errs,
            rule("W2", Some("watchdog".to_string()), Some("timeout_s".to_string()), message),
        );
    }
    if cfg.watchdog.gpu_fail_threshold < 1 {
        report(
            errs,
            rule(
                "W3",
                Some("watchdog".to_string()),
                Some("gpu_fail_threshold".to_string()),
                "gpu_fail_threshold must be ≥ 1".to_string(),
            ),
        );
    }
}

fn check_global(cfg: &Config, errs: &mut Vec<ValidationError>)
    ensures
        config::violations_in(final(errs)@) == config::violations_in(old(errs)@) + global_rules(
            cfg@,
        ),
{
    let timeout_s: u32 = cfg.watchdog.timeout_s;
    let poll_interval_ms: u32 = cfg.global.poll_interval_ms;
    if poll_interval_ms < 100 || poll_interval_ms > 10_000 {
        let mut message: String = "poll_interval_ms ".to_string();
        message.append(text::decimal_text(poll_interval_ms as u128).as_str());
        message.append(" outside [100, 10000]");
        report(
            errs,
            rule("W4", Some("global".to_string()), Some("poll_interval_ms".to_string()), message),
        );
    }
    let threshold: u32 = max_threshold(&cfg.fans, cfg.watchdog.gpu_fail_threshold);
    assert(poll_interval_ms * threshold <= u64::MAX) by (nonlinear_arith)
        requires
            poll_interval_ms <= u32::MAX,
            threshold <= u32::MAX,
    ;
    let lhs: u64 = poll_interval_ms as u64 * threshold as u64;
    let rhs: u64 = timeout_s as u64 * 500;
    assert(lhs == detection_ms(cfg@) && rhs == half_timeout_ms(cfg@));
    if lhs >= rhs {
        let mut message: String = "poll_interval_ms × max(thresholds) (".to_string();
        message.append(text::decimal_text(lhs as u128).as_str());
        message.append(") must be < timeout_s × 500 (");
        message.append(text::decimal_text(rhs as u128).as_str());
        message.append(") — leave headroom for fault propagation");
        report(errs, rule("W5", None, None, message));
    }
    if cfg.global.config_version != CONFIG_VERSION_SUPPORTED {
        let mut message: String = "unsupported config_version ".to_string();
        message.append(text::decimal_text(cfg.global.config_version as u128).as_str());
        message.append(" (this daemon recognises ");
        message.append(text::decimal_text(CONFIG_VERSION_SUPPORTED as u128).as_str());
        message.append(")");
        report(
            errs,
            rule("W7", Some("global".to_string()), Some("config_version".to_string()), message),
        );
    }
}

fn check_power(cfg: &Config, errs: &mut Vec<ValidationError>)
    ensures
        config::violations_in(final(errs)@) == config::violations_in(old(errs)@) + gather(
            cfg@.gpus.len(),
            power_rule(cfg@),
        ),
{
    let ghost before = config::violations_in(errs@);
    let max: u32 = cfg.global.power_limit_validate_max_w;
    let mut i: usize = 0;
    while i < cfg.gpus.len()
        invariant
            i <= cfg.gpus.len(),
            max == cfg@.global.power_limit_validate_max_w,
            config::violations_in(errs@) == before + gather(i as nat, power_rule(cfg@)),
        decreases cfg.gpus.len() - i,
    {
        let gpu: &GpuConfig = &cfg.gpus[i];
        assert(cfg@.gpus[i as int] == gpu@);
        match gpu.power_limit_w {
            None => {
                if gpu.power_limit_enabled {
                    report(
                        errs,
                        rule(
                            "P1",
                            Some(prefixed("gpu:", gpu.id.as_str())),
                            Some("power_limit_w".to_string()),
                            "power_limit_enabled is true but power_limit_w is not set".to_string(),
                        ),
                    );
                }
            },
            Some(w) => {
                if w > max {
                    let mut message: String = "power_limit_w ".to_string();
                    message.append(text::decimal_text(w as u128).as_str());
                    message.append(" above power_limit_validate_max_w (");
                    message.append(text::decimal_text(max as u128).as_str());
                    message.append(")");
                    report(
                        errs,
                        rule(
                            "P2",
                            Some(prefixed("gpu:", gpu.id.as_str())),
                            Some("power_limit_w".to_string()),
                            message,
                        ),
                    );
                }
            },
        }
        proof {
            lemma_gather_next(before, i as nat, power_rule(cfg@));
        }
        i = i + 1;
    }
}

/// Tests every rule. Where some are broken, all of them are reported.
pub fn validate(cfg: &Config) -> (r: Result<(), Vec<ValidationError>>)
    ensures
        match r {
            Ok(()) => violations(cfg@).len() == 0,
            Err(errs) => violations(cfg@).len() > 0 && config::violations_in(errs@) == violations(
                cfg@,
            ),
        },
{
    let mut errs: Vec<ValidationError> = Vec::new();
    check_presence(cfg, &mut errs);
    check_references(cfg, Member::Gpu, &mut errs);
    check_references(cfg, Member::Fan, &mut errs);
    check_group_members(cfg, &mut errs);
    check_known_members(cfg, &mut errs);
    check_nvml_indices(cfg, &mut errs);
    check_outputs(cfg, &mut errs);
    check_gpus(cfg, &mut errs);
    check_fans(cfg, &mut errs);
    check_watchdog(cfg, &mut errs);
    check_global(cfg, &mut errs);
    check_power(cfg, &mut errs);
    assert(config::violations_in(errs@) =~= violations(cfg@));
    if errs.len() == 0 {
        Ok(())
    } else {
        Err(errs)
    }
}

// ---------------------------------------------------------------------------
// What a configuration without violations is worth
// ---------------------------------------------------------------------------

/// A GPU whose curve and band are fit for use.
pub open spec fn gpu_is_valid(g: GpuModel) -> bool {
    &&& curve::is_curve(g.curve)
    &&& forall|i: int|
        0 <= i < g.curve.len() ==> 0 <= (#[trigger] g.curve[i]).0.0 <= 110 && g.curve[i].1.0 <= 100
    &&& g.min_fan_pct.0 <= g.max_fan_pct.0 <= 100
}

/// A fan whose limits are sensible and whose output can be found.
pub open spec fn fan_is_valid(f: FanModel) -> bool {
    &&& f.min_rpm < f.max_rpm
    &&& f.fan_fail_threshold >= 1
    &&& f.pwm_channel >= 1
    &&& f.chip is Some || f.device_path is Some || f.hwmon_path is Some
}

/// A group with members, all of which exist.
pub open spec fn group_is_valid(c: ConfigModel, g: GroupModel) -> bool {
    &&& g.gpus.len() > 0
    &&& g.fans.len() > 0
    &&& forall|i: int| 0 <= i < g.gpus.len() ==> is_declared(
        c,
        Member::Gpu,
        #[trigger] g.gpus[i],
    )
    &&& forall|i: int| 0 <= i < g.fans.len() ==> is_declared(
        c,
        Member::Fan,
        #[trigger] g.fans[i],
    )
}

/// Every GPU and every fan belongs to exactly one group, and no two of them
/// share a device.
pub open spec fn wiring_is_valid(c: ConfigModel) -> bool {
    &&& forall|i: int|
        0 <= i < c.gpus.len() ==> references(
            c.groups,
            Member::Gpu,
            (#[trigger] c.gpus[i]).id,
        ) == 1
    &&& forall|i: int|
        0 <= i < c.fans.len() ==> references(
            c.groups,
            Member::Fan,
            (#[trigger] c.fans[i]).id,
        ) == 1
    &&& forall|i: int, j: int|
        0 <= i < j < c.gpus.len() ==> (#[trigger] c.gpus[i]).nvml_index != (
        #[trigger] c.gpus[j]).nvml_index
    &&& forall|i: int, j: int|
        0 <= i < j < c.fans.len() ==> !same_output(#[trigger] c.fans[i], #[trigger] c.fans[j])
}

/// Watchdog and polling leave room to declare a fault in time.
pub open spec fn timing_is_valid(c: ConfigModel) -> bool {
    &&& c.watchdog.device.len() > 0
    &&& 5 <= c.watchdog.timeout_s <= 600
    &&& c.watchdog.gpu_fail_threshold >= 1
    &&& 100 <= c.global.poll_interval_ms <= 10_000
    &&& c.global.config_version == CONFIG_VERSION_SUPPORTED
    &&& c.global.poll_interval_ms * c.watchdog.gpu_fail_threshold < c.watchdog.timeout_s * 500
    &&& forall|i: int|
        0 <= i < c.fans.len() ==> c.global.poll_interval_ms * (
        #[trigger] c.fans[i]).fan_fail_threshold < c.watchdog.timeout_s * 500
}

/// A power limit that is given where it is to be enforced, and that is not above the
/// bound.
pub open spec fn power_limit_is_valid(c: ConfigModel, g: GpuModel) -> bool {
    &&& g.power_limit_enabled ==> g.power_limit_w is Some
    &&& g.power_limit_w matches Some(w) ==> w <= c.global.power_limit_validate_max_w
}

/// Power limits that are all valid.
pub open spec fn power_is_valid(c: ConfigModel) -> bool {
    forall|i: int| 0 <= i < c.gpus.len() ==> power_limit_is_valid(c, #[trigger] c.gpus[i])
}

/// A configuration that keeps every rule.
pub open spec fn is_valid(c: ConfigModel) -> bool {
    &&& c.gpus.len() > 0
    &&& c.fans.len() > 0
    &&& c.groups.len() > 0
    &&& forall|i: int| 0 <= i < c.gpus.len() ==> gpu_is_valid(#[trigger] c.gpus[i])
    &&& forall|i: int| 0 <= i < c.fans.len() ==> fan_is_valid(#[trigger] c.fans[i])
    &&& forall|i: int| 0 <= i < c.groups.len() ==> group_is_valid(c, #[trigger] c.groups[i])
    &&& wiring_is_valid(c)
    &&& timing_is_valid(c)
    &&& power_is_valid(c)
}

proof fn lemma_gather_empty<A>(n: nat, f: spec_fn(int) -> Seq<A>)
    ensures
        gather(n, f).len() == 0 <==> forall|i: int| 0 <= i < n ==> (#[trigger] f(i)).len() == 0,
    decreases n,
{
    if n > 0 {
        lemma_gather_empty((n - 1) as nat, f);
        assert(gather(n, f).len() == gather((n - 1) as nat, f).len() + f(n - 1).len());
    }
}

proof fn lemma_last_below(n: int, p: spec_fn(int) -> bool)
    ensures
        match last_below(n, p) {
            Some(j) => 0 <= j < n && p(j) && forall|k: int| j < k < n ==> !#[trigger] p(k),
            None => forall|k: int| 0 <= k < n ==> !#[trigger] p(k),
        },
    decreases n,
{
    if n > 0 && !p(n - 1) {
        lemma_last_below(n - 1, p);
    }
}

proof fn lemma_largest_threshold(fans: Seq<FanModel>, least: u32)
    ensures
        largest_threshold(fans, least) >= least,
        forall|i: int|
            0 <= i < fans.len() ==> largest_threshold(fans, least) >= (
            #[trigger] fans[i]).fan_fail_threshold,
        largest_threshold(fans, least) == least || exists|i: int|
            0 <= i < fans.len() && largest_threshold(fans, least) == (
            #[trigger] fans[i]).fan_fail_threshold,
    decreases fans.len(),
{
    if fans.len() > 0 {
        let front = fans.drop_last();
        lemma_largest_threshold(front, least);
        assert forall|i: int| 0 <= i < fans.len() implies largest_threshold(fans, least) >= (
        #[trigger] fans[i]).fan_fail_threshold by {
            if i < front.len() {
                assert(front[i] == fans[i]);
            }
        }
        if largest_threshold(fans, least) == largest_threshold(front, least)
            && largest_threshold(front, least) != least {
            let i = choose|i: int|
                0 <= i < front.len() && largest_threshold(front, least) == (
                #[trigger] front[i]).fan_fail_threshold;
            assert(fans[i] == front[i]);
        } else if fans.last().fan_fail_threshold == largest_threshold(fans, least) {
            assert(fans[fans.len() - 1] == fans.last());
        }
    }
}

proof fn lemma_gpu_rules(g: GpuModel)
    ensures
        curve_rules(g).len() + band_rules(g).len() == 0 <==> gpu_is_valid(g),
{
    let f = curve_step_rule(g);
    let h = curve_range_rule(g);
    lemma_gather_empty(steps(g.curve.len()), f);
    lemma_gather_empty(g.curve.len(), h);
    if curve_rules(g).len() + band_rules(g).len() == 0 {
        assert forall|i: int| 0 <= i < g.curve.len() - 1 implies (#[trigger] g.curve[i]).0.0
            < g.curve[i + 1].0.0 && g.curve[i].1.0 <= g.curve[i + 1].1.0 by {
            assert(f(i).len() == 0);
        }
        curve::neighbours_decide(g.curve);
        assert forall|i: int| 0 <= i < g.curve.len() implies 0 <= (#[trigger] g.curve[i]).0.0 <= 110
            && g.curve[i].1.0 <= 100 by {
            assert(h(i).len() == 0);
        }
    }
    if gpu_is_valid(g) {
        assert forall|i: int| 0 <= i < steps(g.curve.len()) implies (#[trigger] f(i)).len() == 0 by {
            assert(g.curve[i].0.0 < g.curve[i + 1].0.0);
        }
        assert forall|i: int| 0 <= i < g.curve.len() implies (#[trigger] h(i)).len() == 0 by {
            assert(0 <= g.curve[i].0.0 <= 110);
        }
    }
}

proof fn lemma_group_rules(c: ConfigModel)
    ensures
        (gather(c.groups.len(), group_members_rule(c)).len() == 0 && gather(
            c.groups.len(),
            known_members_rule(c),
        ).len() == 0) <==> forall|i: int|
            0 <= i < c.groups.len() ==> group_is_valid(c, #[trigger] c.groups[i]),
{
    let f = group_members_rule(c);
    let h = known_members_rule(c);
    lemma_gather_empty(c.groups.len(), f);
    lemma_gather_empty(c.groups.len(), h);
    assert forall|i: int| 0 <= i < c.groups.len() implies (((#[trigger] f(i)).len() == 0 && h(
        i,
    ).len() == 0) <==> group_is_valid(c, c.groups[i])) by {
        let g = c.groups[i];
        let gpus = known_member_rule(c, g, Member::Gpu);
        let fans = known_member_rule(c, g, Member::Fan);
        lemma_gather_empty(g.gpus.len(), gpus);
        lemma_gather_empty(g.fans.len(), fans);
        if f(i).len() == 0 && h(i).len() == 0 {
            assert forall|k: int| 0 <= k < g.gpus.len() implies is_declared(
                c,
                Member::Gpu,
                #[trigger] g.gpus[k],
            ) by {
                assert(gpus(k).len() == 0);
            }
            assert forall|k: int| 0 <= k < g.fans.len() implies is_declared(
                c,
                Member::Fan,
                #[trigger] g.fans[k],
            ) by {
                assert(fans(k).len() == 0);
            }
        }
    }
    if forall|i: int| 0 <= i < c.groups.len() ==> group_is_valid(c, #[trigger] c.groups[i]) {
        assert forall|i: int| 0 <= i < c.groups.len() implies (#[trigger] f(i)).len() == 0 by {
            assert(group_is_valid(c, c.groups[i]));
        }
        assert forall|i: int| 0 <= i < c.groups.len() implies (#[trigger] h(i)).len() == 0 by {
            assert(f(i).len() == 0);
            assert(group_is_valid(c, c.groups[i]));
        }
    } else {
        let i = choose|i: int|
            0 <= i < c.groups.len() && !group_is_valid(c, #[trigger] c.groups[i]);
        assert(f(i).len() != 0 || h(i).len() != 0);
    }
}

proof fn lemma_wiring_rules(c: ConfigModel)
    ensures
        (gather(c.gpus.len(), reference_rule(c, Member::Gpu)).len() == 0 && gather(
            c.fans.len(),
            reference_rule(c, Member::Fan),
        ).len() == 0 && gather(c.gpus.len(), nvml_index_rule(c)).len() == 0 && gather(
            c.fans.len(),
            output_rule(c),
        ).len() == 0) <==> wiring_is_valid(c),
{
    let gr = reference_rule(c, Member::Gpu);
    let fr = reference_rule(c, Member::Fan);
    let ni = nvml_index_rule(c);
    let out = output_rule(c);
    lemma_gather_empty(c.gpus.len(), gr);
    lemma_gather_empty(c.fans.len(), fr);
    lemma_gather_empty(c.gpus.len(), ni);
    lemma_gather_empty(c.fans.len(), out);
    assert forall|i: int| 0 <= i < c.gpus.len() implies ((#[trigger] ni(i)).len() == 0
        <==> forall|k: int| 0 <= k < i ==> (#[trigger] c.gpus[k]).nvml_index != c.gpus[i].nvml_index)
        by {
        let p = uses_nvml_index(c.gpus, c.gpus[i].nvml_index);
        lemma_last_below(i, p);
        if ni(i).len() == 0 {
            assert forall|k: int| 0 <= k < i implies (#[trigger] c.gpus[k]).nvml_index
                != c.gpus[i].nvml_index by {
                assert(!p(k));
            }
        }
    }
    assert forall|i: int| 0 <= i < c.fans.len() implies ((#[trigger] out(i)).len() == 0
        <==> forall|k: int| 0 <= k < i ==> !same_output(#[trigger] c.fans[k], c.fans[i])) by {
        let p = uses_output(c.fans, c.fans[i]);
        lemma_last_below(i, p);
        if out(i).len() == 0 {
            assert forall|k: int| 0 <= k < i implies !same_output(
                #[trigger] c.fans[k],
                c.fans[i],
            ) by {
                assert(!p(k));
            }
        }
    }
    if gather(c.gpus.len(), gr).len() == 0 && gather(c.fans.len(), fr).len() == 0 && gather(
        c.gpus.len(),
        ni,
    ).len() == 0 && gather(c.fans.len(), out).len() == 0 {
        assert forall|i: int| 0 <= i < c.gpus.len() implies references(
            c.groups,
            Member::Gpu,
            (#[trigger] c.gpus[i]).id,
        ) == 1 by {
            assert(gr(i).len() == 0);
        }
        assert forall|i: int| 0 <= i < c.fans.len() implies references(
            c.groups,
            Member::Fan,
            (#[trigger] c.fans[i]).id,
        ) == 1 by {
            assert(fr(i).len() == 0);
        }
        assert forall|i: int, j: int| 0 <= i < j < c.gpus.len() implies (
        #[trigger] c.gpus[i]).nvml_index != (#[trigger] c.gpus[j]).nvml_index by {
            assert(ni(j).len() == 0);
        }
        assert forall|i: int, j: int| 0 <= i < j < c.fans.len() implies !same_output(
            #[trigger] c.fans[i],
            #[trigger] c.fans[j],
        ) by {
            assert(out(j).len() == 0);
        }
    }
    if wiring_is_valid(c) {
        assert forall|i: int| 0 <= i < c.gpus.len() implies (#[trigger] gr(i)).len() == 0 by {
            assert(references(c.groups, Member::Gpu, c.gpus[i].id) == 1);
        }
        assert forall|i: int| 0 <= i < c.fans.len() implies (#[trigger] fr(i)).len() == 0 by {
            assert(references(c.groups, Member::Fan, c.fans[i].id) == 1);
        }
        assert forall|i: int| 0 <= i < c.gpus.len() implies (#[trigger] ni(i)).len() == 0 by {
            assert forall|k: int| 0 <= k < i implies (#[trigger] c.gpus[k]).nvml_index
                != c.gpus[i].nvml_index by {}
        }
        assert forall|i: int| 0 <= i < c.fans.len() implies (#[trigger] out(i)).len() == 0 by {
            assert forall|k: int| 0 <= k < i implies !same_output(
                #[trigger] c.fans[k],
                c.fans[i],
            ) by {}
        }
    }
}

proof fn lemma_timing_rules(c: ConfigModel)
    ensures
        watchdog_rules(c).len() + global_rules(c).len() == 0 <==> timing_is_valid(c),
{
    let least = c.watchdog.gpu_fail_threshold;
    let most = largest_threshold(c.fans, least);
    let poll = c.global.poll_interval_ms;
    lemma_largest_threshold(c.fans, least);
    if watchdog_rules(c).len() + global_rules(c).len() == 0 {
        assert(poll * least <= poll * most) by (nonlinear_arith)
            requires
                least <= most,
        ;
        assert forall|i: int| 0 <= i < c.fans.len() implies poll * (
        #[trigger] c.fans[i]).fan_fail_threshold < c.watchdog.timeout_s * 500 by {
            let one = c.fans[i].fan_fail_threshold;
            assert(poll * one <= poll * most) by (nonlinear_arith)
                requires
                    one <= most,
            ;
        }
    }
    if timing_is_valid(c) {
        if most != least {
            let i = choose|i: int|
                0 <= i < c.fans.len() && most == (#[trigger] c.fans[i]).fan_fail_threshold;
            assert(poll * c.fans[i].fan_fail_threshold < c.watchdog.timeout_s * 500);
        }
    }
}

/// Whether the GPU, or fan, `id` belongs to the group at a position and to no other.
pub open spec fn belongs_only_to(
    groups: Seq<GroupModel>,
    kind: Member,
    id: Seq<char>,
    at: int,
) -> bool {
    &&& 0 <= at < groups.len()
    &&& forall|j: int|
        0 <= j < groups.len() ==> (has_member(#[trigger] groups[j], kind, id) <==> j == at)
}

proof fn lemma_no_references(groups: Seq<GroupModel>, kind: Member, id: Seq<char>)
    ensures
        references(groups, kind, id) == 0 <==> forall|j: int|
            0 <= j < groups.len() ==> !has_member(#[trigger] groups[j], kind, id),
    decreases groups.len(),
{
    if groups.len() > 0 {
        let rest = groups.drop_last();
        lemma_no_references(rest, kind, id);
        assert(forall|j: int| 0 <= j < rest.len() ==> #[trigger] rest[j] == groups[j]);
        assert(groups.last() == groups[groups.len() - 1]);
        if references(groups, kind, id) == 0 {
            assert forall|j: int| 0 <= j < groups.len() implies !has_member(
                #[trigger] groups[j],
                kind,
                id,
            ) by {
                if j < rest.len() {
                    assert(!has_member(rest[j], kind, id));
                }
            }
        }
    }
}

/// A GPU or fan that is referenced once belongs to exactly one group, however often
/// that group names it.
pub proof fn one_reference_is_one_group(groups: Seq<GroupModel>, kind: Member, id: Seq<char>)
    ensures
        references(groups, kind, id) == 1 <==> exists|at: int|
            belongs_only_to(groups, kind, id, at),
    decreases groups.len(),
{
    if groups.len() > 0 {
        let rest = groups.drop_last();
        let end = groups.len() - 1;
        lemma_no_references(rest, kind, id);
        one_reference_is_one_group(rest, kind, id);
        assert(forall|j: int| 0 <= j < rest.len() ==> #[trigger] rest[j] == groups[j]);
        assert(groups.last() == groups[end]);
        if references(groups, kind, id) == 1 {
            if has_member(groups[end], kind, id) {
                assert forall|j: int| 0 <= j < groups.len() implies (has_member(
                    #[trigger] groups[j],
                    kind,
                    id,
                ) <==> j == end) by {
                    if j < end {
                        assert(!has_member(rest[j], kind, id));
                    }
                }
                assert(belongs_only_to(groups, kind, id, end));
            } else {
                let at = choose|at: int| belongs_only_to(rest, kind, id, at);
                assert forall|j: int| 0 <= j < groups.len() implies (has_member(
                    #[trigger] groups[j],
                    kind,
                    id,
                ) <==> j == at) by {
                    if j < end {
                        assert(has_member(rest[j], kind, id) <==> j == at);
                    }
                }
                assert(belongs_only_to(groups, kind, id, at));
            }
        }
        if exists|at: int| belongs_only_to(groups, kind, id, at) {
            let at = choose|at: int| belongs_only_to(groups, kind, id, at);
            assert(has_member(groups[end], kind, id) <==> end == at);
            if at < end {
                assert(belongs_only_to(rest, kind, id, at));
            } else {
                assert forall|j: int| 0 <= j < rest.len() implies !has_member(
                    #[trigger] rest[j],
                    kind,
                    id,
                ) by {
                    assert(has_member(groups[j], kind, id) <==> j == at);
                }
            }
        }
    }
}

proof fn lemma_all_gpu_rules(c: ConfigModel)
    ensures
        gather(c.gpus.len(), gpu_rule(c)).len() == 0 <==> forall|i: int|
            0 <= i < c.gpus.len() ==> gpu_is_valid(#[trigger] c.gpus[i]),
{
    let g = gpu_rule(c);
    lemma_gather_empty(c.gpus.len(), g);
    assert forall|i: int| 0 <= i < c.gpus.len() implies ((#[trigger] g(i)).len() == 0
        <==> gpu_is_valid(c.gpus[i])) by {
        lemma_gpu_rules(c.gpus[i]);
    }
    if gather(c.gpus.len(), g).len() == 0 {
        assert forall|i: int| 0 <= i < c.gpus.len() implies gpu_is_valid(#[trigger] c.gpus[i]) by {
            assert(g(i).len() == 0);
        }
    }
    if forall|i: int| 0 <= i < c.gpus.len() ==> gpu_is_valid(#[trigger] c.gpus[i]) {
        assert forall|i: int| 0 <= i < c.gpus.len() implies (#[trigger] g(i)).len() == 0 by {
            assert(gpu_is_valid(c.gpus[i]));
        }
    }
}

proof fn lemma_all_fan_rules(c: ConfigModel)
    ensures
        gather(c.fans.len(), fan_rule(c)).len() == 0 <==> forall|i: int|
            0 <= i < c.fans.len() ==> fan_is_valid(#[trigger] c.fans[i]),
{
    let f = fan_rule(c);
    lemma_gather_empty(c.fans.len(), f);
    assert forall|i: int| 0 <= i < c.fans.len() implies ((#[trigger] f(i)).len() == 0
        <==> fan_is_valid(c.fans[i])) by {}
    if gather(c.fans.len(), f).len() == 0 {
        assert forall|i: int| 0 <= i < c.fans.len() implies fan_is_valid(#[trigger] c.fans[i]) by {
            assert(f(i).len() == 0);
        }
    }
    if forall|i: int| 0 <= i < c.fans.len() ==> fan_is_valid(#[trigger] c.fans[i]) {
        assert forall|i: int| 0 <= i < c.fans.len() implies (#[trigger] f(i)).len() == 0 by {
            assert(fan_is_valid(c.fans[i]));
        }
    }
}

proof fn lemma_power_rules(c: ConfigModel)
    ensures
        gather(c.gpus.len(), power_rule(c)).len() == 0 <==> power_is_valid(c),
{
    let p = power_rule(c);
    lemma_gather_empty(c.gpus.len(), p);
    if gather(c.gpus.len(), p).len() == 0 {
        assert forall|i: int| 0 <= i < c.gpus.len() implies power_limit_is_valid(
            c,
            #[trigger] c.gpus[i],
        ) by {
            assert(p(i).len() == 0);
        }
    }
    if power_is_valid(c) {
        assert forall|i: int| 0 <= i < c.gpus.len() implies (#[trigger] p(i)).len() == 0 by {
            assert(power_limit_is_valid(c, c.gpus[i]));
        }
    }
}

/// Validation is sound and complete: it reports nothing exactly for the
/// configurations that keep every rule.
pub proof fn validation_is_exact(c: ConfigModel)
    ensures
        violations(c).len() == 0 <==> is_valid(c),
{
    lemma_all_gpu_rules(c);
    lemma_all_fan_rules(c);
    lemma_group_rules(c);
    lemma_wiring_rules(c);
    lemma_timing_rules(c);
    lemma_power_rules(c);
}

proof fn lemma_gather_contains<A>(n: nat, f: spec_fn(int) -> Seq<A>, i: int, v: A)
    requires
        0 <= i < n,
        f(i).contains(v),
    ensures
        gather(n, f).contains(v),
    decreases n,
{
    let front = gather((n - 1) as nat, f);
    let last = f(n - 1);
    if i == n - 1 {
        let k = choose|k: int| 0 <= k < last.len() && last[k] == v;
        assert(gather(n, f)[front.len() + k] == v);
    } else {
        lemma_gather_contains((n - 1) as nat, f, i, v);
        let k = choose|k: int| 0 <= k < front.len() && front[k] == v;
        assert(gather(n, f)[k] == v);
    }
}

proof fn lemma_sum_contains<A>(a: Seq<A>, b: Seq<A>, v: A)
    ensures
        (a + b).contains(v) <==> a.contains(v) || b.contains(v),
{
    if a.contains(v) {
        let k = choose|k: int| 0 <= k < a.len() && a[k] == v;
        assert((a + b)[k] == v);
    }
    if b.contains(v) {
        let k = choose|k: int| 0 <= k < b.len() && b[k] == v;
        assert((a + b)[a.len() + k] == v);
    }
    if (a + b).contains(v) {
        let k = choose|k: int| 0 <= k < (a + b).len() && (a + b)[k] == v;
        if k < a.len() {
            assert(a[k] == v);
        } else {
            assert(b[k - a.len()] == v);
        }
    }
}

/// Whether a violation is due to the GPU at a position.
pub open spec fn gpu_breaks(c: ConfigModel, i: int, v: Violation) -> bool {
    &&& 0 <= i < c.gpus.len()
    &&& {
        ||| reference_rule(c, Member::Gpu)(i).contains(v)
        ||| nvml_index_rule(c)(i).contains(v)
        ||| gpu_rule(c)(i).contains(v)
        ||| power_rule(c)(i).contains(v)
    }
}

/// Whether a violation is due to the fan at a position.
pub open spec fn fan_breaks(c: ConfigModel, i: int, v: Violation) -> bool {
    &&& 0 <= i < c.fans.len()
    &&& {
        ||| reference_rule(c, Member::Fan)(i).contains(v)
        ||| output_rule(c)(i).contains(v)
        ||| fan_rule(c)(i).contains(v)
    }
}

/// Whether a violation is due to the group at a position.
pub open spec fn group_breaks(c: ConfigModel, i: int, v: Violation) -> bool {
    &&& 0 <= i < c.groups.len()
    &&& group_members_rule(c)(i).contains(v) || known_members_rule(c)(i).contains(v)
}

/// Whether a violation is due to the configuration as a whole.
pub open spec fn settings_break(c: ConfigModel, v: Violation) -> bool {
    presence_rules(c).contains(v) || watchdog_rules(c).contains(v) || global_rules(c).contains(v)
}

/// No violation hides another: whatever one GPU, fan or group breaks, or the
/// settings break, is in the report, whatever else is wrong.
pub proof fn violations_accumulate(c: ConfigModel, i: int, v: Violation)
    requires
        gpu_breaks(c, i, v) || fan_breaks(c, i, v) || group_breaks(c, i, v) || settings_break(c, v),
    ensures
        violations(c).contains(v),
{
    let s4 = gather(c.gpus.len(), reference_rule(c, Member::Gpu));
    let s5 = gather(c.fans.len(), reference_rule(c, Member::Fan));
    let s6 = gather(c.groups.len(), group_members_rule(c));
    let s7 = gather(c.groups.len(), known_members_rule(c));
    let s8 = gather(c.gpus.len(), nvml_index_rule(c));
    let s9 = gather(c.fans.len(), output_rule(c));
    let g = gather(c.gpus.len(), gpu_rule(c));
    let f = gather(c.fans.len(), fan_rule(c));
    if gpu_breaks(c, i, v) {
        if reference_rule(c, Member::Gpu)(i).contains(v) {
            lemma_gather_contains(c.gpus.len(), reference_rule(c, Member::Gpu), i, v);
        } else if nvml_index_rule(c)(i).contains(v) {
            lemma_gather_contains(c.gpus.len(), nvml_index_rule(c), i, v);
        } else if gpu_rule(c)(i).contains(v) {
            lemma_gather_contains(c.gpus.len(), gpu_rule(c), i, v);
        } else {
            lemma_gather_contains(c.gpus.len(), power_rule(c), i, v);
        }
    } else if fan_breaks(c, i, v) {
        if reference_rule(c, Member::Fan)(i).contains(v) {
            lemma_gather_contains(c.fans.len(), reference_rule(c, Member::Fan), i, v);
        } else if output_rule(c)(i).contains(v) {
            lemma_gather_contains(c.fans.len(), output_rule(c), i, v);
        } else {
            lemma_gather_contains(c.fans.len(), fan_rule(c), i, v);
        }
    } else if group_breaks(c, i, v) {
        if group_members_rule(c)(i).contains(v) {
            lemma_gather_contains(c.groups.len(), group_members_rule(c), i, v);
        } else {
            lemma_gather_contains(c.groups.len(), known_members_rule(c), i, v);
        }
    }
    let p = presence_rules(c);
    lemma_sum_contains(p, s4, v);
    lemma_sum_contains(p + s4, s5, v);
    lemma_sum_contains(p + s4 + s5, s6, v);
    lemma_sum_contains(p + s4 + s5 + s6, s7, v);
    lemma_sum_contains(p + s4 + s5 + s6 + s7, s8, v);
    lemma_sum_contains(p + s4 + s5 + s6 + s7 + s8, s9, v);
    lemma_sum_contains(p + s4 + s5 + s6 + s7 + s8 + s9, g, v);
    lemma_sum_contains(p + s4 + s5 + s6 + s7 + s8 + s9 + g, f, v);
    let wd = watchdog_rules(c);
    lemma_sum_contains(p + s4 + s5 + s6 + s7 + s8 + s9 + g + f, wd, v);
    let gl = global_rules(c);
    lemma_sum_contains(p + s4 + s5 + s6 + s7 + s8 + s9 + g + f + wd, gl, v);
    let pw = gather(c.gpus.len(), power_rule(c));
    lemma_sum_contains(p + s4 + s5 + s6 + s7 + s8 + s9 + g + f + wd + gl, pw, v);
}

// ---------------------------------------------------------------------------
// What each rule asks for
// ---------------------------------------------------------------------------

/// Whether the group at `at`, and no other, names the GPU `id`.
pub open spec fn cools_alone(c: ConfigModel, id: Seq<char>, at: int) -> bool {
    &&& 0 <= at < c.groups.len()
    &&& forall|j: int|
        0 <= j < c.groups.len() ==> ((#[trigger] c.groups[j]).gpus.contains(id) <==> j == at)
}

/// Whether the group at `at`, and no other, names the fan `id`.
pub open spec fn drives_alone(c: ConfigModel, id: Seq<char>, at: int) -> bool {
    &&& 0 <= at < c.groups.len()
    &&& forall|j: int|
        0 <= j < c.groups.len() ==> ((#[trigger] c.groups[j]).fans.contains(id) <==> j == at)
}

proof fn lemma_sole_gpu_group(c: ConfigModel, id: Seq<char>)
    ensures
        references(c.groups, Member::Gpu, id) == 1 <==> exists|at: int| cools_alone(c, id, at),
{
    one_reference_is_one_group(c.groups, Member::Gpu, id);
    if references(c.groups, Member::Gpu, id) == 1 {
        let at = choose|at: int| belongs_only_to(c.groups, Member::Gpu, id, at);
        assert forall|j: int| 0 <= j < c.groups.len() implies (
        (#[trigger] c.groups[j]).gpus.contains(id) <==> j == at) by {
            assert(has_member(c.groups[j], Member::Gpu, id) <==> j == at);
        }
        assert(cools_alone(c, id, at));
    }
    if exists|at: int| cools_alone(c, id, at) {
        let at = choose|at: int| cools_alone(c, id, at);
        assert(belongs_only_to(c.groups, Member::Gpu, id, at));
    }
}

proof fn lemma_sole_fan_group(c: ConfigModel, id: Seq<char>)
    ensures
        references(c.groups, Member::Fan, id) == 1 <==> exists|at: int| drives_alone(c, id, at),
{
    one_reference_is_one_group(c.groups, Member::Fan, id);
    if references(c.groups, Member::Fan, id) == 1 {
        let at = choose|at: int| belongs_only_to(c.groups, Member::Fan, id, at);
        assert forall|j: int| 0 <= j < c.groups.len() implies (
        (#[trigger] c.groups[j]).fans.contains(id) <==> j == at) by {
            assert(has_member(c.groups[j], Member::Fan, id) <==> j == at);
        }
        assert(drives_alone(c, id, at));
    }
    if exists|at: int| drives_alone(c, id, at) {
        let at = choose|at: int| drives_alone(c, id, at);
        assert(belongs_only_to(c.groups, Member::Fan, id, at));
    }
}

/// No two GPUs of a configuration without violations are the same device, and no two
/// of its fans hang on the same output: they differ in their chip, in the components of
/// their device path or in their channel, where two that are not given count as equal.
pub proof fn no_two_share_a_device(c: ConfigModel, i: int, j: int)
    requires
        violations(c).len() == 0,
        i != j,
    ensures
        0 <= i < c.gpus.len() && 0 <= j < c.gpus.len() ==> c.gpus[i].nvml_index
            != c.gpus[j].nvml_index,
        0 <= i < c.fans.len() && 0 <= j < c.fans.len() ==> {
            ||| c.fans[i].pwm_channel != c.fans[j].pwm_channel
            ||| c.fans[i].chip != c.fans[j].chip
            ||| c.fans[i].device_path is Some != c.fans[j].device_path is Some
            ||| c.fans[i].device_path is Some && c.fans[j].device_path is Some && paths::path_key(
                c.fans[i].device_path->0,
            ) != paths::path_key(c.fans[j].device_path->0)
        },
{
    validation_is_exact(c);
    if i < j {
        if 0 <= i && j < c.fans.len() {
            assert(!same_output(c.fans[i], c.fans[j]));
        }
    } else {
        if 0 <= j && i < c.fans.len() {
            assert(!same_output(c.fans[j], c.fans[i]));
        }
    }
}

proof fn lemma_valid_groups(c: ConfigModel, i: int, k: int)
    requires
        is_valid(c),
        0 <= i < c.groups.len(),
    ensures
        c.groups[i].gpus.len() > 0 && c.groups[i].fans.len() > 0,
        0 <= k < c.groups[i].gpus.len() ==> exists|g: int|
            0 <= g < c.gpus.len() && (#[trigger] c.gpus[g]).id == c.groups[i].gpus[k],
        0 <= k < c.groups[i].fans.len() ==> exists|f: int|
            0 <= f < c.fans.len() && (#[trigger] c.fans[f]).id == c.groups[i].fans[k],
{
    assert(group_is_valid(c, c.groups[i]));
    if 0 <= k < c.groups[i].gpus.len() {
        let id = c.groups[i].gpus[k];
        assert(is_declared(c, Member::Gpu, id));
        let g = choose|g: int|
            0 <= g < declared_count(c, Member::Gpu) && #[trigger] declared_id(c, Member::Gpu, g)
                == id;
        assert(c.gpus[g].id == id);
    }
    if 0 <= k < c.groups[i].fans.len() {
        let id = c.groups[i].fans[k];
        assert(is_declared(c, Member::Fan, id));
        let f = choose|f: int|
            0 <= f < declared_count(c, Member::Fan) && #[trigger] declared_id(c, Member::Fan, f)
                == id;
        assert(c.fans[f].id == id);
    }
}

proof fn lemma_valid_members(c: ConfigModel, i: int)
    requires
        is_valid(c),
    ensures
        0 <= i < c.gpus.len() ==> exists|at: int| cools_alone(c, c.gpus[i].id, at),
        0 <= i < c.fans.len() ==> exists|at: int| drives_alone(c, c.fans[i].id, at),
{
    if 0 <= i < c.gpus.len() {
        lemma_sole_gpu_group(c, c.gpus[i].id);
        assert(references(c.groups, Member::Gpu, c.gpus[i].id) == 1);
    }
    if 0 <= i < c.fans.len() {
        lemma_sole_fan_group(c, c.fans[i].id);
        assert(references(c.groups, Member::Fan, c.fans[i].id) == 1);
    }
}

/// In a configuration without violations there is something to control, every GPU and
/// every fan belongs to exactly one group, and every group has GPUs and fans and names
/// none that is not there.
pub proof fn everything_belongs_to_one_group(c: ConfigModel, i: int, k: int)
    requires
        violations(c).len() == 0,
    ensures
        c.gpus.len() > 0 && c.fans.len() > 0 && c.groups.len() > 0,
        0 <= i < c.gpus.len() ==> exists|at: int| cools_alone(c, c.gpus[i].id, at),
        0 <= i < c.fans.len() ==> exists|at: int| drives_alone(c, c.fans[i].id, at),
        0 <= i < c.groups.len() ==> c.groups[i].gpus.len() > 0 && c.groups[i].fans.len() > 0,
        0 <= i < c.groups.len() && 0 <= k < c.groups[i].gpus.len() ==> exists|g: int|
            0 <= g < c.gpus.len() && (#[trigger] c.gpus[g]).id == c.groups[i].gpus[k],
        0 <= i < c.groups.len() && 0 <= k < c.groups[i].fans.len() ==> exists|f: int|
            0 <= f < c.fans.len() && (#[trigger] c.fans[f]).id == c.groups[i].fans[k],
{
    validation_is_exact(c);
    lemma_valid_members(c, i);
    if 0 <= i < c.groups.len() {
        lemma_valid_groups(c, i, k);
    }
}

/// In a configuration without violations every GPU has two to ten points that ascend,
/// between 0 and 110 degrees and up to 100 percent, and a band within 100 percent that
/// is not empty; every fan has sensible limits and can be found; the watchdog leaves
/// twice the time that a fault can go undeclared; and every power limit that is to be
/// enforced is given and below the bound.
pub proof fn settings_are_fit_for_use(c: ConfigModel, i: int, a: int, b: int)
    requires
        violations(c).len() == 0,
    ensures
        0 <= i < c.gpus.len() ==> {
            let g = c.gpus[i];
            &&& 2 <= g.curve.len() <= 10
            &&& 0 <= a < b < g.curve.len() ==> g.curve[a].0.0 < g.curve[b].0.0 && g.curve[a].1.0
                <= g.curve[b].1.0
            &&& 0 <= a < g.curve.len() ==> 0 <= g.curve[a].0.0 <= 110 && g.curve[a].1.0 <= 100
            &&& g.min_fan_pct.0 <= g.max_fan_pct.0 <= 100
            &&& g.power_limit_enabled ==> g.power_limit_w is Some
            &&& g.power_limit_w is Some ==> g.power_limit_w->0
                <= c.global.power_limit_validate_max_w
        },
        0 <= i < c.fans.len() ==> {
            let f = c.fans[i];
            &&& f.min_rpm < f.max_rpm
            &&& f.fan_fail_threshold >= 1
            &&& f.pwm_channel >= 1
            &&& f.chip is Some || f.device_path is Some || f.hwmon_path is Some
            &&& 2 * c.global.poll_interval_ms * f.fan_fail_threshold < c.watchdog.timeout_s * 1000
        },
        c.watchdog.device.len() > 0,
        5 <= c.watchdog.timeout_s <= 600,
        c.watchdog.gpu_fail_threshold >= 1,
        100 <= c.global.poll_interval_ms <= 10000,
        c.global.config_version == 1,
        2 * c.global.poll_interval_ms * c.watchdog.gpu_fail_threshold < c.watchdog.timeout_s * 1000,
{
    validation_is_exact(c);
    let poll = c.global.poll_interval_ms;
    let least = c.watchdog.gpu_fail_threshold;
    assert(2 * poll * least == 2 * (poll * least)) by (nonlinear_arith);
    if 0 <= i < c.gpus.len() {
        assert(gpu_is_valid(c.gpus[i]));
        assert(power_limit_is_valid(c, c.gpus[i]));
    }
    if 0 <= i < c.fans.len() {
        assert(fan_is_valid(c.fans[i]));
        let one = c.fans[i].fan_fail_threshold;
        assert(poll * one < c.watchdog.timeout_s * 500);
        assert(2 * poll * one == 2 * (poll * one)) by (nonlinear_arith);
    }
}

/// Whether a violation of a rule is reported on a section and a key.
pub open spec fn is_reported(
    c: ConfigModel,
    rule: Seq<char>,
    section: Option<Seq<char>>,
    key: Option<Seq<char>>,
) -> bool {
    exists|v: Violation| #[trigger]
        violations(c).contains(v) && v.rule == rule && v.section == section && v.key == key
}

proof fn lemma_one_is_contained<A>(v: A)
    ensures
        seq![v].contains(v),
{
    assert(seq![v][0] == v);
}

proof fn lemma_gather_origin<A>(n: nat, f: spec_fn(int) -> Seq<A>, v: A) -> (i: int)
    requires
        gather(n, f).contains(v),
    ensures
        0 <= i < n,
        f(i).contains(v),
    decreases n,
{
    let front = gather((n - 1) as nat, f);
    lemma_sum_contains(front, f(n - 1), v);
    if f(n - 1).contains(v) {
        n - 1
    } else {
        lemma_gather_origin((n - 1) as nat, f, v)
    }
}

/// What is missing is reported: GPUs, fans and groups.
pub proof fn missing_parts_are_reported(c: ConfigModel)
    ensures
        c.gpus.len() == 0 ==> is_reported(c, "S1"@, None, None),
        c.fans.len() == 0 ==> is_reported(c, "S2"@, None, None),
        c.groups.len() == 0 ==> is_reported(c, "S3"@, None, None),
{
    let p = presence_rules(c);
    if c.gpus.len() == 0 {
        let v = p[0];
        assert(p.contains(v));
        violations_accumulate(c, 0, v);
    }
    if c.fans.len() == 0 {
        let k: int = if c.gpus.len() == 0 {
            1
        } else {
            0
        };
        let v = p[k];
        assert(p.contains(v));
        violations_accumulate(c, 0, v);
    }
    if c.groups.len() == 0 {
        let v = p[p.len() - 1];
        assert(p.contains(v));
        violations_accumulate(c, 0, v);
    }
}

/// A GPU or fan that does not belong to exactly one group is reported, and so is a group
/// without GPUs or fans and one that names what is not there.
pub proof fn loose_parts_are_reported(c: ConfigModel, i: int, k: int)
    ensures
        0 <= i < c.gpus.len() && !(exists|at: int| cools_alone(c, c.gpus[i].id, at))
            ==> is_reported(c, "S4"@, Some("gpu:"@ + c.gpus[i].id), None),
        0 <= i < c.fans.len() && !(exists|at: int| drives_alone(c, c.fans[i].id, at))
            ==> is_reported(c, "S5"@, Some("fan:"@ + c.fans[i].id), None),
        0 <= i < c.groups.len() && (c.groups[i].gpus.len() == 0 || c.groups[i].fans.len() == 0)
            ==> is_reported(c, "S6"@, Some("group:"@ + c.groups[i].id), None),
        0 <= i < c.groups.len() && 0 <= k < c.groups[i].gpus.len() && (forall|g: int|
            0 <= g < c.gpus.len() ==> (#[trigger] c.gpus[g]).id != c.groups[i].gpus[k])
            ==> is_reported(c, "S7"@, Some("group:"@ + c.groups[i].id), Some("gpus"@)),
        0 <= i < c.groups.len() && 0 <= k < c.groups[i].fans.len() && (forall|f: int|
            0 <= f < c.fans.len() ==> (#[trigger] c.fans[f]).id != c.groups[i].fans[k])
            ==> is_reported(c, "S7"@, Some("group:"@ + c.groups[i].id), Some("fans"@)),
{
    if 0 <= i < c.gpus.len() {
        lemma_sole_gpu_group(c, c.gpus[i].id);
        let part = reference_rule(c, Member::Gpu)(i);
        if part.len() > 0 {
            assert(part.contains(part[0]));
            violations_accumulate(c, i, part[0]);
        }
    }
    if 0 <= i < c.fans.len() {
        lemma_sole_fan_group(c, c.fans[i].id);
        let part = reference_rule(c, Member::Fan)(i);
        if part.len() > 0 {
            assert(part.contains(part[0]));
            violations_accumulate(c, i, part[0]);
        }
    }
    if 0 <= i < c.groups.len() {
        let g = c.groups[i];
        let part = group_members_rule(c)(i);
        if part.len() > 0 {
            assert(part.contains(part[0]));
            violations_accumulate(c, i, part[0]);
        }
        let gpus = known_members(c, g, Member::Gpu);
        let fans = known_members(c, g, Member::Fan);
        if 0 <= k < g.gpus.len() && !is_declared(c, Member::Gpu, g.gpus[k]) {
            let f = known_member_rule(c, g, Member::Gpu);
            let v = f(k)[0];
            assert(f(k).contains(v));
            lemma_gather_contains(g.gpus.len(), f, k, v);
            lemma_sum_contains(gpus, fans, v);
            violations_accumulate(c, i, v);
        }
        if 0 <= k < g.fans.len() && !is_declared(c, Member::Fan, g.fans[k]) {
            let f = known_member_rule(c, g, Member::Fan);
            let v = f(k)[0];
            assert(f(k).contains(v));
            lemma_gather_contains(g.fans.len(), f, k, v);
            lemma_sum_contains(gpus, fans, v);
            violations_accumulate(c, i, v);
        }
    }
}

/// Two GPUs that are the same device, and two fans on the same output, are reported on
/// the later one.
pub proof fn shared_devices_are_reported(c: ConfigModel, i: int, j: int)
    requires
        0 <= i < j,
    ensures
        j < c.gpus.len() && c.gpus[i].nvml_index == c.gpus[j].nvml_index ==> is_reported(
            c,
            "S8"@,
            Some("gpu:"@ + c.gpus[j].id),
            Some("nvml_index"@),
        ),
        j < c.fans.len() && c.fans[i].pwm_channel == c.fans[j].pwm_channel && c.fans[i].chip
            == c.fans[j].chip && (c.fans[i].device_path is None && c.fans[j].device_path is None || (
        c.fans[i].device_path is Some && c.fans[j].device_path is Some && paths::path_key(
            c.fans[i].device_path->0,
        ) == paths::path_key(c.fans[j].device_path->0))) ==> is_reported(
            c,
            "S9"@,
            Some("fan:"@ + c.fans[j].id),
            None,
        ),
{
    if j < c.gpus.len() && c.gpus[i].nvml_index == c.gpus[j].nvml_index {
        let p = uses_nvml_index(c.gpus, c.gpus[j].nvml_index);
        lemma_last_below(j, p);
        assert(p(i));
        let part = nvml_index_rule(c)(j);
        assert(part.contains(part[0]));
        violations_accumulate(c, j, part[0]);
    }
    if j < c.fans.len() && same_output(c.fans[i], c.fans[j]) {
        let p = uses_output(c.fans, c.fans[j]);
        lemma_last_below(j, p);
        assert(p(i));
        let part = output_rule(c)(j);
        assert(part.contains(part[0]));
        violations_accumulate(c, j, part[0]);
    }
}

proof fn lemma_curve_breach(c: ConfigModel, i: int, v: Violation)
    requires
        0 <= i < c.gpus.len(),
        curve_rules(c.gpus[i]).contains(v) || band_rules(c.gpus[i]).contains(v),
    ensures
        violations(c).contains(v),
{
    lemma_sum_contains(curve_rules(c.gpus[i]), band_rules(c.gpus[i]), v);
    violations_accumulate(c, i, v);
}

proof fn lemma_curve_part(g: GpuModel, v: Violation)
    ensures
        curve_rules(g).contains(v) <==> {
            ||| broken_if(
                !(2 <= g.curve.len() <= 10),
                curve_violation(
                    g,
                    "G1"@,
                    "curve has "@ + text::decimal(g.curve.len()) + " point(s); need 2..=10"@,
                ),
            ).contains(v)
            ||| gather(steps(g.curve.len()), curve_step_rule(g)).contains(v)
            ||| gather(g.curve.len(), curve_range_rule(g)).contains(v)
        },
{
    let a = broken_if(
        !(2 <= g.curve.len() <= 10),
        curve_violation(
            g,
            "G1"@,
            "curve has "@ + text::decimal(g.curve.len()) + " point(s); need 2..=10"@,
        ),
    );
    let b = gather(steps(g.curve.len()), curve_step_rule(g));
    lemma_sum_contains(a, b, v);
    lemma_sum_contains(a + b, gather(g.curve.len(), curve_range_rule(g)), v);
}

/// A curve with a wrong number of points, a point that its successor does not lie
/// beyond, and a point out of range are reported on the curve of the GPU.
pub proof fn bad_curves_are_reported(c: ConfigModel, i: int, k: int)
    requires
        0 <= i < c.gpus.len(),
    ensures
        ({
            let pts = c.gpus[i].curve;
            let section = Some("gpu:"@ + c.gpus[i].id);
            let key = Some("curve"@);
            &&& pts.len() < 2 || 10 < pts.len() ==> is_reported(c, "G1"@, section, key)
            &&& 0 <= k < pts.len() - 1 && pts[k].0.0 > pts[k + 1].0.0 ==> is_reported(
                c,
                "G2"@,
                section,
                key,
            )
            &&& 0 <= k < pts.len() - 1 && pts[k].0.0 == pts[k + 1].0.0 ==> is_reported(
                c,
                "G3"@,
                section,
                key,
            )
            &&& 0 <= k < pts.len() - 1 && pts[k].1.0 > pts[k + 1].1.0 ==> is_reported(
                c,
                "G4"@,
                section,
                key,
            )
            &&& 0 <= k < pts.len() && (pts[k].0.0 < 0 || 110 < pts[k].0.0) ==> is_reported(
                c,
                "G5"@,
                section,
                key,
            )
            &&& 0 <= k < pts.len() && 100 < pts[k].1.0 ==> is_reported(c, "G6"@, section, key)
        }),
{
    let g = c.gpus[i];
    let pts = g.curve;
    if pts.len() < 2 || 10 < pts.len() {
        let v = curve_violation(
            g,
            "G1"@,
            "curve has "@ + text::decimal(g.curve.len()) + " point(s); need 2..=10"@,
        );
        lemma_one_is_contained(v);
        lemma_curve_part(g, v);
        lemma_curve_breach(c, i, v);
    }
    if 0 <= k < pts.len() - 1 {
        let f = curve_step_rule(g);
        if pts[k].0.0 >= pts[k + 1].0.0 {
            let v = f(k)[0];
            assert(f(k).contains(v));
            lemma_gather_contains(steps(pts.len()), f, k, v);
            lemma_curve_part(g, v);
            lemma_curve_breach(c, i, v);
        }
        if pts[k].1.0 > pts[k + 1].1.0 {
            let v = f(k)[f(k).len() - 1];
            assert(f(k).contains(v));
            lemma_gather_contains(steps(pts.len()), f, k, v);
            lemma_curve_part(g, v);
            lemma_curve_breach(c, i, v);
        }
    }
    if 0 <= k < pts.len() {
        let f = curve_range_rule(g);
        if pts[k].0.0 < 0 || 110 < pts[k].0.0 {
            let v = f(k)[0];
            assert(f(k).contains(v));
            lemma_gather_contains(pts.len(), f, k, v);
            lemma_curve_part(g, v);
            lemma_curve_breach(c, i, v);
        }
        if 100 < pts[k].1.0 {
            let v = f(k)[f(k).len() - 1];
            assert(f(k).contains(v));
            lemma_gather_contains(pts.len(), f, k, v);
            lemma_curve_part(g, v);
            lemma_curve_breach(c, i, v);
        }
    }
}

/// A band that is empty or reaches above 100, and a power limit that is asked for and
/// not given or above the bound, are reported on the GPU.
pub proof fn bad_bands_and_limits_are_reported(c: ConfigModel, i: int)
    requires
        0 <= i < c.gpus.len(),
    ensures
        ({
            let g = c.gpus[i];
            let section = Some("gpu:"@ + g.id);
            &&& g.min_fan_pct.0 > g.max_fan_pct.0 ==> is_reported(c, "G7"@, section, None)
            &&& g.min_fan_pct.0 > 100 ==> is_reported(c, "G8"@, section, Some("min_fan_pct"@))
            &&& g.max_fan_pct.0 > 100 ==> is_reported(c, "G8"@, section, Some("max_fan_pct"@))
            &&& g.power_limit_enabled && g.power_limit_w is None ==> is_reported(
                c,
                "P1"@,
                section,
                Some("power_limit_w"@),
            )
            &&& g.power_limit_w is Some && g.power_limit_w->0 > c.global.power_limit_validate_max_w
                ==> is_reported(c, "P2"@, section, Some("power_limit_w"@))
        }),
{
    let g = c.gpus[i];
    let b = band_rules(g);
    if g.min_fan_pct.0 > g.max_fan_pct.0 {
        assert(b.contains(b[0]));
        lemma_curve_breach(c, i, b[0]);
    }
    if g.min_fan_pct.0 > 100 {
        let k: int = if g.min_fan_pct.0 > g.max_fan_pct.0 {
            1
        } else {
            0
        };
        assert(b.contains(b[k]));
        lemma_curve_breach(c, i, b[k]);
    }
    if g.max_fan_pct.0 > 100 {
        assert(b.contains(b[b.len() - 1]));
        lemma_curve_breach(c, i, b[b.len() - 1]);
    }
    let p = power_rule(c)(i);
    if p.len() > 0 {
        assert(p.contains(p[0]));
        violations_accumulate(c, i, p[0]);
    }
}

/// Limits of a fan that make no sense, and a fan that cannot be found, are reported on
/// the fan.
pub proof fn bad_fans_are_reported(c: ConfigModel, i: int)
    requires
        0 <= i < c.fans.len(),
    ensures
        ({
            let f = c.fans[i];
            let section = Some("fan:"@ + f.id);
            &&& f.max_rpm <= f.min_rpm ==> is_reported(c, "F1"@, section, None)
            &&& f.fan_fail_threshold == 0 ==> is_reported(
                c,
                "F2"@,
                section,
                Some("fan_fail_threshold"@),
            )
            &&& f.pwm_channel == 0 ==> is_reported(c, "F4"@, section, Some("pwm_channel"@))
            &&& f.chip is None && f.device_path is None && f.hwmon_path is None ==> is_reported(
                c,
                "F5"@,
                section,
                None,
            )
        }),
{
    let f = c.fans[i];
    let part = fan_rules(f);
    let one: int = if f.max_rpm <= f.min_rpm {
        1
    } else {
        0
    };
    let two: int = if f.fan_fail_threshold < 1 {
        one + 1
    } else {
        one
    };
    assert(fan_rule(c)(i) == part);
    if f.max_rpm <= f.min_rpm {
        assert(part.contains(part[0]));
        violations_accumulate(c, i, part[0]);
    }
    if f.fan_fail_threshold == 0 {
        assert(part.contains(part[one]));
        violations_accumulate(c, i, part[one]);
    }
    if f.pwm_channel == 0 {
        assert(part.contains(part[two]));
        violations_accumulate(c, i, part[two]);
    }
    if f.chip is None && f.device_path is None && f.hwmon_path is None {
        assert(part.contains(part[part.len() - 1]));
        violations_accumulate(c, i, part[part.len() - 1]);
    }
}

/// Settings of the watchdog and of the daemon that are out of range are reported on
/// their key, and so is a fault that could go undeclared for half the timeout, whether
/// it is a GPU's or a fan's.
pub proof fn bad_settings_are_reported(c: ConfigModel, i: int)
    ensures
        c.watchdog.device.len() == 0 ==> is_reported(
            c,
            "W1"@,
            Some("watchdog"@),
            Some("device"@),
        ),
        c.watchdog.timeout_s < 5 || 600 < c.watchdog.timeout_s ==> is_reported(
            c,
            "W2"@,
            Some("watchdog"@),
            Some("timeout_s"@),
        ),
        c.watchdog.gpu_fail_threshold == 0 ==> is_reported(
            c,
            "W3"@,
            Some("watchdog"@),
            Some("gpu_fail_threshold"@),
        ),
        c.global.poll_interval_ms < 100 || 10000 < c.global.poll_interval_ms ==> is_reported(
            c,
            "W4"@,
            Some("global"@),
            Some("poll_interval_ms"@),
        ),
        c.global.poll_interval_ms * c.watchdog.gpu_fail_threshold >= c.watchdog.timeout_s * 500
            ==> is_reported(c, "W5"@, None, None),
        0 <= i < c.fans.len() && c.global.poll_interval_ms * c.fans[i].fan_fail_threshold
            >= c.watchdog.timeout_s * 500 ==> is_reported(c, "W5"@, None, None),
        c.global.config_version != 1 ==> is_reported(
            c,
            "W7"@,
            Some("global"@),
            Some("config_version"@),
        ),
{
    let w = watchdog_rules(c);
    let one: int = if c.watchdog.device.len() == 0 {
        1
    } else {
        0
    };
    if c.watchdog.device.len() == 0 {
        assert(w.contains(w[0]));
        violations_accumulate(c, 0, w[0]);
    }
    if c.watchdog.timeout_s < 5 || 600 < c.watchdog.timeout_s {
        assert(w.contains(w[one]));
        violations_accumulate(c, 0, w[one]);
    }
    if c.watchdog.gpu_fail_threshold == 0 {
        assert(w.contains(w[w.len() - 1]));
        violations_accumulate(c, 0, w[w.len() - 1]);
    }
    let g = global_rules(c);
    let least = c.watchdog.gpu_fail_threshold;
    let most = largest_threshold(c.fans, least);
    let poll = c.global.poll_interval_ms;
    lemma_largest_threshold(c.fans, least);
    assert(poll * least <= poll * most) by (nonlinear_arith)
        requires
            least <= most,
    ;
    if 0 <= i < c.fans.len() {
        let own = c.fans[i].fan_fail_threshold;
        assert(poll * own <= poll * most) by (nonlinear_arith)
            requires
                own <= most,
        ;
    }
    let slow: int = if poll < 100 || 10000 < poll {
        1
    } else {
        0
    };
    if poll < 100 || 10000 < poll {
        assert(g.contains(g[0]));
        violations_accumulate(c, 0, g[0]);
    }
    if detection_ms(c) >= half_timeout_ms(c) {
        assert(g.contains(g[slow]));
        violations_accumulate(c, 0, g[slow]);
    }
    if c.global.config_version != 1 {
        assert(g.contains(g[g.len() - 1]));
        violations_accumulate(c, 0, g[g.len() - 1]);
    }
}

/// Whether the settings give reason for a report: something is missing, or out of its
/// range, or a fault could go undeclared for half the timeout.
pub open spec fn settings_give_reason(c: ConfigModel, v: Violation) -> bool {
    let poll = c.global.poll_interval_ms;
    let timeout_s = c.watchdog.timeout_s;
    let unplaced = v.section is None && v.key is None;
    ||| v.rule == "S1"@ && unplaced && c.gpus.len() == 0 && v.message
        == "at least one [gpu:*] block required"@
    ||| v.rule == "S2"@ && unplaced && c.fans.len() == 0 && v.message
        == "at least one [fan:*] block required"@
    ||| v.rule == "S3"@ && unplaced && c.groups.len() == 0 && v.message
        == "at least one [group:*] block required"@
    ||| v.rule == "W1"@ && v.section == Some("watchdog"@) && v.key == Some("device"@)
        && c.watchdog.device.len() == 0 && v.message == "watchdog device path must be non-empty"@
    ||| v.rule == "W2"@ && v.section == Some("watchdog"@) && v.key == Some("timeout_s"@) && !(5
        <= timeout_s <= 600) && v.message == "timeout_s "@ + text::signed_decimal(timeout_s as int)
        + " outside [5, 600]"@
    ||| v.rule == "W3"@ && v.section == Some("watchdog"@) && v.key == Some("gpu_fail_threshold"@)
        && c.watchdog.gpu_fail_threshold == 0 && v.message == "gpu_fail_threshold must be ≥ 1"@
    ||| v.rule == "W4"@ && v.section == Some("global"@) && v.key == Some("poll_interval_ms"@) && !(
    100 <= poll <= 10000) && v.message == "poll_interval_ms "@ + text::signed_decimal(poll as int)
        + " outside [100, 10000]"@
    ||| v.rule == "W5"@ && unplaced && exists|threshold: int|
        is_slowest(c, threshold) && poll * threshold >= timeout_s * 500 && v.message
            == "poll_interval_ms × max(thresholds) ("@ + text::signed_decimal(poll * threshold)
            + ") must be < timeout_s × 500 ("@ + text::signed_decimal(timeout_s * 500)
            + ") — leave headroom for fault propagation"@
    ||| v.rule == "W7"@ && v.section == Some("global"@) && v.key == Some("config_version"@)
        && c.global.config_version != 1 && v.message == "unsupported config_version "@
        + text::signed_decimal(c.global.config_version as int)
        + " (this daemon recognises 1)"@
}

/// Whether `threshold` is the largest of the thresholds for GPUs and fans.
pub open spec fn is_slowest(c: ConfigModel, threshold: int) -> bool {
    &&& threshold >= c.watchdog.gpu_fail_threshold
    &&& forall|i: int|
        0 <= i < c.fans.len() ==> threshold >= (#[trigger] c.fans[i]).fan_fail_threshold
    &&& threshold == c.watchdog.gpu_fail_threshold || exists|i: int|
        0 <= i < c.fans.len() && threshold == (#[trigger] c.fans[i]).fan_fail_threshold
}

/// Whether the curve of a GPU gives reason for a report at its point `k`.
pub open spec fn point_gives_reason(pts: Seq<(Celsius, Pct)>, k: int, v: Violation) -> bool {
    let (t, p) = (pts[k].0.0 as int, pts[k].1.0 as int);
    let (next_t, next_p) = (pts[k + 1].0.0 as int, pts[k + 1].1.0 as int);
    ||| v.rule == "G2"@ && 0 <= k < pts.len() - 1 && t > next_t && v.message
        == "temps not ascending: "@ + text::signed_decimal(t) + " then "@ + text::signed_decimal(
        next_t,
    )
    ||| v.rule == "G3"@ && 0 <= k < pts.len() - 1 && t == next_t && v.message
        == "duplicate temp "@ + text::signed_decimal(t)
    ||| v.rule == "G4"@ && 0 <= k < pts.len() - 1 && p > next_p && v.message == "pct decreased: "@
        + text::signed_decimal(p) + " then "@ + text::signed_decimal(next_p)
    ||| v.rule == "G5"@ && 0 <= k < pts.len() && !(0 <= t <= 110) && v.message == "curve temp "@
        + text::signed_decimal(t) + " outside [0, 110] °C"@
    ||| v.rule == "G6"@ && 0 <= k < pts.len() && p > 100 && v.message == "curve pct "@
        + text::signed_decimal(p) + " outside [0, 100]"@
}

/// Whether the GPU at a position gives reason for a report on its section.
pub open spec fn gpu_gives_reason(c: ConfigModel, i: int, v: Violation) -> bool {
    let g = c.gpus[i];
    &&& 0 <= i < c.gpus.len()
    &&& v.section == Some("gpu:"@ + g.id)
    &&& {
        ||| v.rule == "S4"@ && v.key is None && !(exists|at: int| cools_alone(c, g.id, at))
            && v.message == "GPU '"@ + g.id + "' referenced by "@ + text::signed_decimal(
            c.groups.filter(|group: GroupModel| group.gpus.contains(g.id)).len() as int,
        ) + " group(s); must be exactly 1"@
        ||| v.rule == "S8"@ && v.key == Some("nvml_index"@) && exists|k: int|
            0 <= k < i && (#[trigger] c.gpus[k]).nvml_index == g.nvml_index && v.message
                == "nvml_index "@ + text::signed_decimal(g.nvml_index as int)
                + " duplicated (also used by gpu:"@ + c.gpus[k].id + ")"@ && forall|m: int|
                k < m < i ==> (#[trigger] c.gpus[m]).nvml_index != g.nvml_index
        ||| v.rule == "G1"@ && v.key == Some("curve"@) && !(2 <= g.curve.len() <= 10) && v.message
            == "curve has "@ + text::signed_decimal(g.curve.len() as int)
            + " point(s); need 2..=10"@
        ||| v.key == Some("curve"@) && exists|k: int| point_gives_reason(g.curve, k, v)
        ||| v.rule == "G7"@ && v.key is None && g.min_fan_pct.0 > g.max_fan_pct.0 && v.message
            == "min_fan_pct ("@ + text::signed_decimal(g.min_fan_pct.0 as int)
            + ") > max_fan_pct ("@ + text::signed_decimal(g.max_fan_pct.0 as int) + ")"@
        ||| v.rule == "G8"@ && v.key == Some("min_fan_pct"@) && g.min_fan_pct.0 > 100 && v.message
            == "min_fan_pct "@ + text::signed_decimal(g.min_fan_pct.0 as int)
            + " outside [0, 100]"@
        ||| v.rule == "G8"@ && v.key == Some("max_fan_pct"@) && g.max_fan_pct.0 > 100 && v.message
            == "max_fan_pct "@ + text::signed_decimal(g.max_fan_pct.0 as int)
            + " outside [0, 100]"@
        ||| v.rule == "P1"@ && v.key == Some("power_limit_w"@) && g.power_limit_enabled
            && g.power_limit_w is None && v.message
            == "power_limit_enabled is true but power_limit_w is not set"@
        ||| v.rule == "P2"@ && v.key == Some("power_limit_w"@) && g.power_limit_w is Some
            && g.power_limit_w->0 > c.global.power_limit_validate_max_w && v.message
            == "power_limit_w "@ + text::signed_decimal(g.power_limit_w->0 as int)
            + " above power_limit_validate_max_w ("@ + text::signed_decimal(
            c.global.power_limit_validate_max_w as int,
        ) + ")"@
    }
}

/// Whether two fans agree in chip, channel and the components of their device path,
/// where two that are not given count as equal.
pub open spec fn hang_on_one_output(a: FanModel, b: FanModel) -> bool {
    &&& a.pwm_channel == b.pwm_channel
    &&& a.chip == b.chip
    &&& {
        ||| a.device_path is None && b.device_path is None
        ||| a.device_path is Some && b.device_path is Some && paths::path_key(a.device_path->0)
            == paths::path_key(b.device_path->0)
    }
}

/// Whether the fan at a position gives reason for a report on its section.
pub open spec fn fan_gives_reason(c: ConfigModel, i: int, v: Violation) -> bool {
    let f = c.fans[i];
    &&& 0 <= i < c.fans.len()
    &&& v.section == Some("fan:"@ + f.id)
    &&& {
        ||| v.rule == "S5"@ && v.key is None && !(exists|at: int| drives_alone(c, f.id, at))
            && v.message == "fan '"@ + f.id + "' referenced by "@ + text::signed_decimal(
            c.groups.filter(|group: GroupModel| group.fans.contains(f.id)).len() as int,
        ) + " group(s); must be exactly 1"@
        ||| v.rule == "S9"@ && v.key is None && exists|k: int|
            0 <= k < i && hang_on_one_output(#[trigger] c.fans[k], f) && v.message
                == "(chip, device_path, pwm_channel) tuple duplicated (also used by fan:"@
                + c.fans[k].id + ")"@ && forall|m: int|
                k < m < i ==> !hang_on_one_output(#[trigger] c.fans[m], f)
        ||| v.rule == "F1"@ && v.key is None && f.max_rpm <= f.min_rpm && v.message == "max_rpm ("@
            + text::signed_decimal(f.max_rpm as int) + ") must be > min_rpm ("@
            + text::signed_decimal(f.min_rpm as int) + ")"@
        ||| v.rule == "F2"@ && v.key == Some("fan_fail_threshold"@) && f.fan_fail_threshold == 0
            && v.message == "fan_fail_threshold must be ≥ 1"@
        ||| v.rule == "F4"@ && v.key == Some("pwm_channel"@) && f.pwm_channel == 0 && v.message
            == "pwm_channel must be ≥ 1"@
        ||| v.rule == "F5"@ && v.key is None && f.chip is None && f.device_path is None
            && f.hwmon_path is None && v.message
            == "at least one of chip / device_path / hwmon_path must be set"@
    }
}

/// Whether the group at a position gives reason for a report on its section.
pub open spec fn group_gives_reason(c: ConfigModel, i: int, v: Violation) -> bool {
    let g = c.groups[i];
    &&& 0 <= i < c.groups.len()
    &&& v.section == Some("group:"@ + g.id)
    &&& {
        ||| v.rule == "S6"@ && v.key is None && (g.gpus.len() == 0 || g.fans.len() == 0)
            && v.message == "group must reference at least one GPU and at least one fan"@
        ||| v.rule == "S7"@ && v.key == Some("gpus"@) && exists|k: int|
            0 <= k < g.gpus.len() && v.message == "group references unknown gpu id '"@
                + #[trigger] g.gpus[k] + "'"@ && forall|m: int|
                0 <= m < c.gpus.len() ==> (#[trigger] c.gpus[m]).id != g.gpus[k]
        ||| v.rule == "S7"@ && v.key == Some("fans"@) && exists|k: int|
            0 <= k < g.fans.len() && v.message == "group references unknown fan id '"@
                + #[trigger] g.fans[k] + "'"@ && forall|m: int|
                0 <= m < c.fans.len() ==> (#[trigger] c.fans[m]).id != g.fans[k]
    }
}

proof fn lemma_settings_reason(c: ConfigModel, v: Violation)
    requires
        settings_break(c, v),
    ensures
        settings_give_reason(c, v),
{
    let least = c.watchdog.gpu_fail_threshold;
    let most = largest_threshold(c.fans, least);
    lemma_largest_threshold(c.fans, least);
    if most != least {
        let i = choose|i: int|
            0 <= i < c.fans.len() && most == (#[trigger] c.fans[i]).fan_fail_threshold;
        assert(c.fans[i].fan_fail_threshold == most);
    }
    assert(is_slowest(c, most as int));
    assert(detection_ms(c) == c.global.poll_interval_ms * most);
    lemma_version_text(
        "unsupported config_version "@ + text::decimal(c.global.config_version as nat),
    );
}

proof fn lemma_version_text(s: Seq<char>)
    ensures
        s + " (this daemon recognises "@ + text::decimal(1) + ")"@ == s
            + " (this daemon recognises 1)"@,
{
    reveal_strlit(")");
    reveal_strlit(" (this daemon recognises ");
    reveal_strlit(" (this daemon recognises 1)");
    assert(text::decimal(1) =~= seq!['1']);
    assert(" (this daemon recognises "@ + text::decimal(1) + ")"@
        =~= " (this daemon recognises 1)"@);
    assert(s + " (this daemon recognises "@ + text::decimal(1) + ")"@ =~= s + (
    " (this daemon recognises "@ + text::decimal(1) + ")"@));
}

proof fn lemma_references_count(groups: Seq<GroupModel>, kind: Member, id: Seq<char>)
    ensures
        kind == Member::Gpu ==> references(groups, kind, id) == groups.filter(
            |group: GroupModel| group.gpus.contains(id),
        ).len(),
        kind == Member::Fan ==> references(groups, kind, id) == groups.filter(
            |group: GroupModel| group.fans.contains(id),
        ).len(),
    decreases groups.len(),
{
    reveal(Seq::filter);
    if groups.len() > 0 {
        lemma_references_count(groups.drop_last(), kind, id);
    }
}

proof fn lemma_curve_reason(g: GpuModel, v: Violation)
    requires
        curve_rules(g).contains(v),
    ensures
        v.section == Some("gpu:"@ + g.id),
        v.key == Some("curve"@),
        v.rule == "G1"@ && !(2 <= g.curve.len() <= 10) && v.message == "curve has "@
            + text::signed_decimal(g.curve.len() as int) + " point(s); need 2..=10"@ || exists|
            k: int,
        |
            point_gives_reason(g.curve, k, v),
{
    lemma_curve_part(g, v);
    if gather(steps(g.curve.len()), curve_step_rule(g)).contains(v) {
        let k = lemma_gather_origin(steps(g.curve.len()), curve_step_rule(g), v);
        assert(point_gives_reason(g.curve, k, v));
    } else if gather(g.curve.len(), curve_range_rule(g)).contains(v) {
        let k = lemma_gather_origin(g.curve.len(), curve_range_rule(g), v);
        assert(point_gives_reason(g.curve, k, v));
    }
}

proof fn lemma_gpu_reason(c: ConfigModel, i: int, v: Violation)
    requires
        gpu_breaks(c, i, v),
    ensures
        gpu_gives_reason(c, i, v),
{
    let g = c.gpus[i];
    if reference_rule(c, Member::Gpu)(i).contains(v) {
        lemma_sole_gpu_group(c, g.id);
        lemma_references_count(c.groups, Member::Gpu, g.id);
    } else if nvml_index_rule(c)(i).contains(v) {
        let p = uses_nvml_index(c.gpus, g.nvml_index);
        lemma_last_below(i, p);
        let k = last_below(i, p)->0;
        assert forall|m: int| k < m < i implies (#[trigger] c.gpus[m]).nvml_index
            != g.nvml_index by {
            assert(!p(m));
        }
        assert(p(k) && c.gpus[k].nvml_index == g.nvml_index);
    } else if gpu_rule(c)(i).contains(v) {
        lemma_sum_contains(curve_rules(g), band_rules(g), v);
        if curve_rules(g).contains(v) {
            lemma_curve_reason(g, v);
        }
    }
}

proof fn lemma_fan_reason(c: ConfigModel, i: int, v: Violation)
    requires
        fan_breaks(c, i, v),
    ensures
        fan_gives_reason(c, i, v),
{
    let f = c.fans[i];
    if reference_rule(c, Member::Fan)(i).contains(v) {
        lemma_sole_fan_group(c, f.id);
        lemma_references_count(c.groups, Member::Fan, f.id);
    } else if output_rule(c)(i).contains(v) {
        let p = uses_output(c.fans, f);
        lemma_last_below(i, p);
        let k = last_below(i, p)->0;
        assert forall|m: int| k < m < i implies !hang_on_one_output(#[trigger] c.fans[m], f) by {
            assert(!p(m));
        }
        assert(p(k) && hang_on_one_output(c.fans[k], f));
    }
}

proof fn lemma_group_reason(c: ConfigModel, i: int, v: Violation)
    requires
        group_breaks(c, i, v),
    ensures
        group_gives_reason(c, i, v),
{
    let g = c.groups[i];
    if !group_members_rule(c)(i).contains(v) {
        lemma_sum_contains(known_members(c, g, Member::Gpu), known_members(c, g, Member::Fan), v);
        if known_members(c, g, Member::Gpu).contains(v) {
            let k = lemma_gather_origin(g.gpus.len(), known_member_rule(c, g, Member::Gpu), v);
            assert forall|m: int| 0 <= m < c.gpus.len() implies (#[trigger] c.gpus[m]).id
                != g.gpus[k] by {
                assert(declared_id(c, Member::Gpu, m) == c.gpus[m].id);
            }
            assert(v.message == "group references unknown gpu id '"@ + g.gpus[k] + "'"@);
        } else {
            let k = lemma_gather_origin(g.fans.len(), known_member_rule(c, g, Member::Fan), v);
            assert forall|m: int| 0 <= m < c.fans.len() implies (#[trigger] c.fans[m]).id
                != g.fans[k] by {
                assert(declared_id(c, Member::Fan, m) == c.fans[m].id);
            }
            assert(v.message == "group references unknown fan id '"@ + g.fans[k] + "'"@);
        }
    }
}

proof fn lemma_violation_origin(c: ConfigModel, v: Violation)
    requires
        violations(c).contains(v),
    ensures
        settings_break(c, v) || exists|i: int|
            #![trigger gpu_breaks(c, i, v)]
            #![trigger fan_breaks(c, i, v)]
            #![trigger group_breaks(c, i, v)]
            gpu_breaks(c, i, v) || fan_breaks(c, i, v) || group_breaks(c, i, v),
{
    let p = presence_rules(c);
    let s4 = gather(c.gpus.len(), reference_rule(c, Member::Gpu));
    let s5 = gather(c.fans.len(), reference_rule(c, Member::Fan));
    let s6 = gather(c.groups.len(), group_members_rule(c));
    let s7 = gather(c.groups.len(), known_members_rule(c));
    let s8 = gather(c.gpus.len(), nvml_index_rule(c));
    let s9 = gather(c.fans.len(), output_rule(c));
    let g = gather(c.gpus.len(), gpu_rule(c));
    let f = gather(c.fans.len(), fan_rule(c));
    let wd = watchdog_rules(c);
    let gl = global_rules(c);
    let pw = gather(c.gpus.len(), power_rule(c));
    lemma_sum_contains(p, s4, v);
    lemma_sum_contains(p + s4, s5, v);
    lemma_sum_contains(p + s4 + s5, s6, v);
    lemma_sum_contains(p + s4 + s5 + s6, s7, v);
    lemma_sum_contains(p + s4 + s5 + s6 + s7, s8, v);
    lemma_sum_contains(p + s4 + s5 + s6 + s7 + s8, s9, v);
    lemma_sum_contains(p + s4 + s5 + s6 + s7 + s8 + s9, g, v);
    lemma_sum_contains(p + s4 + s5 + s6 + s7 + s8 + s9 + g, f, v);
    lemma_sum_contains(p + s4 + s5 + s6 + s7 + s8 + s9 + g + f, wd, v);
    lemma_sum_contains(p + s4 + s5 + s6 + s7 + s8 + s9 + g + f + wd, gl, v);
    lemma_sum_contains(p + s4 + s5 + s6 + s7 + s8 + s9 + g + f + wd + gl, pw, v);
    if s4.contains(v) {
        let i = lemma_gather_origin(c.gpus.len(), reference_rule(c, Member::Gpu), v);
        assert(gpu_breaks(c, i, v));
    } else if s5.contains(v) {
        let i = lemma_gather_origin(c.fans.len(), reference_rule(c, Member::Fan), v);
        assert(fan_breaks(c, i, v));
    } else if s6.contains(v) {
        let i = lemma_gather_origin(c.groups.len(), group_members_rule(c), v);
        assert(group_breaks(c, i, v));
    } else if s7.contains(v) {
        let i = lemma_gather_origin(c.groups.len(), known_members_rule(c), v);
        assert(group_breaks(c, i, v));
    } else if s8.contains(v) {
        let i = lemma_gather_origin(c.gpus.len(), nvml_index_rule(c), v);
        assert(gpu_breaks(c, i, v));
    } else if s9.contains(v) {
        let i = lemma_gather_origin(c.fans.len(), output_rule(c), v);
        assert(fan_breaks(c, i, v));
    } else if g.contains(v) {
        let i = lemma_gather_origin(c.gpus.len(), gpu_rule(c), v);
        assert(gpu_breaks(c, i, v));
    } else if f.contains(v) {
        let i = lemma_gather_origin(c.fans.len(), fan_rule(c), v);
        assert(fan_breaks(c, i, v));
    } else if pw.contains(v) {
        let i = lemma_gather_origin(c.gpus.len(), power_rule(c), v);
        assert(gpu_breaks(c, i, v));
    }
}

/// Nothing is reported without a reason: each report names a rule that the settings, or
/// the GPU, fan or group of its section, do break.
pub proof fn every_report_has_its_reason(c: ConfigModel, v: Violation)
    requires
        violations(c).contains(v),
    ensures
        settings_give_reason(c, v) || exists|i: int|
            #![trigger gpu_gives_reason(c, i, v)]
            #![trigger fan_gives_reason(c, i, v)]
            #![trigger group_gives_reason(c, i, v)]
            gpu_gives_reason(c, i, v) || fan_gives_reason(c, i, v) || group_gives_reason(c, i, v),
{
    lemma_violation_origin(c, v);
    if settings_break(c, v) {
        lemma_settings_reason(c, v);
    } else {
        let i = choose|i: int|
            #![trigger gpu_breaks(c, i, v)]
            #![trigger fan_breaks(c, i, v)]
            #![trigger group_breaks(c, i, v)]
            gpu_breaks(c, i, v) || fan_breaks(c, i, v) || group_breaks(c, i, v);
        if gpu_breaks(c, i, v) {
            lemma_gpu_reason(c, i, v);
        } else if fan_breaks(c, i, v) {
            lemma_fan_reason(c, i, v);
        } else {
            lemma_group_reason(c, i, v);
        }
    }
}

/// One where the condition holds, else zero.
pub open spec fn one_if(condition: bool) -> nat {
    if condition {
        1
    } else {
        0
    }
}

/// The sum of `f(0)`, ..., `f(n - 1)`.
pub open spec fn total(n: nat, f: spec_fn(int) -> nat) -> nat
    decreases n,
{
    if n == 0 {
        0
    } else {
        total((n - 1) as nat, f) + f(n - 1)
    }
}

/// How many rules a curve breaks, counted once for each point and each pair of
/// neighbours.
pub open spec fn breaches_in_curve(pts: Seq<(Celsius, Pct)>) -> nat {
    one_if(!(2 <= pts.len() <= 10)) + total(
        if pts.len() > 0 {
            (pts.len() - 1) as nat
        } else {
            0
        },
        |k: int| one_if(pts[k].0.0 >= pts[k + 1].0.0) + one_if(pts[k].1.0 > pts[k + 1].1.0),
    ) + total(pts.len(), |k: int| one_if(!(0 <= pts[k].0.0 <= 110)) + one_if(pts[k].1.0 > 100))
}

/// How many rules the GPU at a position breaks.
pub open spec fn breaches_of_gpu(c: ConfigModel, i: int) -> nat {
    let g = c.gpus[i];
    one_if(!(exists|at: int| cools_alone(c, g.id, at))) + one_if(
        exists|k: int| 0 <= k < i && (#[trigger] c.gpus[k]).nvml_index == g.nvml_index,
    ) + breaches_in_curve(g.curve) + one_if(g.min_fan_pct.0 > g.max_fan_pct.0) + one_if(
        g.min_fan_pct.0 > 100,
    ) + one_if(g.max_fan_pct.0 > 100) + one_if(g.power_limit_enabled && g.power_limit_w is None)
        + one_if(
        g.power_limit_w is Some && g.power_limit_w->0 > c.global.power_limit_validate_max_w,
    )
}

/// How many rules the fan at a position breaks.
pub open spec fn breaches_of_fan(c: ConfigModel, i: int) -> nat {
    let f = c.fans[i];
    one_if(!(exists|at: int| drives_alone(c, f.id, at))) + one_if(
        exists|k: int| 0 <= k < i && hang_on_one_output(#[trigger] c.fans[k], f),
    ) + one_if(f.max_rpm <= f.min_rpm) + one_if(f.fan_fail_threshold == 0) + one_if(
        f.pwm_channel == 0,
    ) + one_if(f.chip is None && f.device_path is None && f.hwmon_path is None)
}

/// How many rules the group at a position breaks, counted once for each name that it has
/// of nothing.
pub open spec fn breaches_of_group(c: ConfigModel, i: int) -> nat {
    let g = c.groups[i];
    one_if(g.gpus.len() == 0 || g.fans.len() == 0) + total(
        g.gpus.len(),
        |k: int|
            one_if(
                forall|m: int| 0 <= m < c.gpus.len() ==> (#[trigger] c.gpus[m]).id != g.gpus[k],
            ),
    ) + total(
        g.fans.len(),
        |k: int|
            one_if(
                forall|m: int| 0 <= m < c.fans.len() ==> (#[trigger] c.fans[m]).id != g.fans[k],
            ),
    )
}

/// How many rules the settings break.
pub open spec fn breaches_in_settings(c: ConfigModel) -> nat {
    one_if(c.gpus.len() == 0) + one_if(c.fans.len() == 0) + one_if(c.groups.len() == 0) + one_if(
        c.watchdog.device.len() == 0,
    ) + one_if(!(5 <= c.watchdog.timeout_s <= 600)) + one_if(c.watchdog.gpu_fail_threshold == 0)
        + one_if(!(100 <= c.global.poll_interval_ms <= 10000)) + one_if(
        exists|threshold: int| #[trigger]
            is_slowest(c, threshold) && c.global.poll_interval_ms * threshold
                >= c.watchdog.timeout_s * 500,
    ) + one_if(c.global.config_version != 1)
}

proof fn lemma_gather_len<A>(n: nat, f: spec_fn(int) -> Seq<A>, g: spec_fn(int) -> nat)
    requires
        forall|i: int| 0 <= i < n ==> (#[trigger] f(i)).len() == g(i),
    ensures
        gather(n, f).len() == total(n, g),
    decreases n,
{
    if n > 0 {
        lemma_gather_len((n - 1) as nat, f, g);
        assert(f(n - 1).len() == g(n - 1));
    }
}

proof fn lemma_total_sum(
    n: nat,
    f: spec_fn(int) -> nat,
    g: spec_fn(int) -> nat,
    h: spec_fn(int) -> nat,
)
    requires
        forall|i: int| 0 <= i < n ==> f(i) + g(i) == #[trigger] h(i),
    ensures
        total(n, f) + total(n, g) == total(n, h),
    decreases n,
{
    if n > 0 {
        lemma_total_sum((n - 1) as nat, f, g, h);
        assert(f(n - 1) + g(n - 1) == h(n - 1));
    }
}

proof fn lemma_curve_breaches(g: GpuModel)
    ensures
        curve_rules(g).len() == breaches_in_curve(g.curve),
{
    let pts = g.curve;
    let step = |k: int|
        one_if(pts[k].0.0 >= pts[k + 1].0.0) + one_if(pts[k].1.0 > pts[k + 1].1.0);
    let range = |k: int| one_if(!(0 <= pts[k].0.0 <= 110)) + one_if(pts[k].1.0 > 100);
    lemma_gather_len(steps(pts.len()), curve_step_rule(g), step);
    lemma_gather_len(pts.len(), curve_range_rule(g), range);
}

proof fn lemma_group_breaches(c: ConfigModel, i: int)
    requires
        0 <= i < c.groups.len(),
    ensures
        group_members_rule(c)(i).len() + known_members_rule(c)(i).len() == breaches_of_group(c, i),
{
    let g = c.groups[i];
    let gpus = |k: int|
        one_if(forall|m: int| 0 <= m < c.gpus.len() ==> (#[trigger] c.gpus[m]).id != g.gpus[k]);
    let fans = |k: int|
        one_if(forall|m: int| 0 <= m < c.fans.len() ==> (#[trigger] c.fans[m]).id != g.fans[k]);
    let f = known_member_rule(c, g, Member::Gpu);
    let h = known_member_rule(c, g, Member::Fan);
    assert forall|k: int| 0 <= k < g.gpus.len() implies (#[trigger] f(k)).len() == gpus(k) by {
        let id = g.gpus[k];
        if is_declared(c, Member::Gpu, id) {
            let m = choose|m: int|
                0 <= m < declared_count(c, Member::Gpu) && #[trigger] declared_id(
                    c,
                    Member::Gpu,
                    m,
                ) == id;
            assert(c.gpus[m].id == id);
        } else {
            assert forall|m: int| 0 <= m < c.gpus.len() implies (#[trigger] c.gpus[m]).id != id by {
                assert(declared_id(c, Member::Gpu, m) == c.gpus[m].id);
            }
        }
    }
    assert forall|k: int| 0 <= k < g.fans.len() implies (#[trigger] h(k)).len() == fans(k) by {
        let id = g.fans[k];
        if is_declared(c, Member::Fan, id) {
            let m = choose|m: int|
                0 <= m < declared_count(c, Member::Fan) && #[trigger] declared_id(
                    c,
                    Member::Fan,
                    m,
                ) == id;
            assert(c.fans[m].id == id);
        } else {
            assert forall|m: int| 0 <= m < c.fans.len() implies (#[trigger] c.fans[m]).id != id by {
                assert(declared_id(c, Member::Fan, m) == c.fans[m].id);
            }
        }
    }
    lemma_gather_len(g.gpus.len(), f, gpus);
    lemma_gather_len(g.fans.len(), h, fans);
}

proof fn lemma_gpu_breaches(c: ConfigModel, i: int)
    requires
        0 <= i < c.gpus.len(),
    ensures
        reference_rule(c, Member::Gpu)(i).len() + nvml_index_rule(c)(i).len() + gpu_rule(c)(i).len()
            + power_rule(c)(i).len() == breaches_of_gpu(c, i),
{
    let g = c.gpus[i];
    lemma_sole_gpu_group(c, g.id);
    lemma_curve_breaches(g);
    let p = uses_nvml_index(c.gpus, g.nvml_index);
    lemma_last_below(i, p);
    if last_below(i, p) is Some {
        let k = last_below(i, p)->0;
        assert(p(k) && c.gpus[k].nvml_index == g.nvml_index);
    } else {
        assert forall|k: int| 0 <= k < i implies (#[trigger] c.gpus[k]).nvml_index
            != g.nvml_index by {
            assert(!p(k));
        }
    }
}

proof fn lemma_fan_breaches(c: ConfigModel, i: int)
    requires
        0 <= i < c.fans.len(),
    ensures
        reference_rule(c, Member::Fan)(i).len() + output_rule(c)(i).len() + fan_rule(c)(i).len()
            == breaches_of_fan(c, i),
{
    let f = c.fans[i];
    lemma_sole_fan_group(c, f.id);
    let p = uses_output(c.fans, f);
    lemma_last_below(i, p);
    if last_below(i, p) is Some {
        let k = last_below(i, p)->0;
        assert(p(k) && hang_on_one_output(c.fans[k], f));
    } else {
        assert forall|k: int| 0 <= k < i implies !hang_on_one_output(#[trigger] c.fans[k], f) by {
            assert(!p(k));
        }
    }
}

proof fn lemma_slowest_is_unique(c: ConfigModel, threshold: int)
    ensures
        is_slowest(c, threshold) <==> threshold == largest_threshold(
            c.fans,
            c.watchdog.gpu_fail_threshold,
        ),
{
    let least = c.watchdog.gpu_fail_threshold;
    let most = largest_threshold(c.fans, least);
    lemma_largest_threshold(c.fans, least);
    if is_slowest(c, threshold) {
        if threshold != least {
            let i = choose|i: int|
                0 <= i < c.fans.len() && threshold == (#[trigger] c.fans[i]).fan_fail_threshold;
            assert(c.fans[i].fan_fail_threshold <= most);
        }
        if most != least {
            let i = choose|i: int|
                0 <= i < c.fans.len() && most == (#[trigger] c.fans[i]).fan_fail_threshold;
            assert(c.fans[i].fan_fail_threshold <= threshold);
        }
    }
}

proof fn lemma_slow_breach(c: ConfigModel)
    ensures
        detection_ms(c) >= half_timeout_ms(c) <==> exists|threshold: int| #[trigger]
            is_slowest(c, threshold) && c.global.poll_interval_ms * threshold
                >= c.watchdog.timeout_s * 500,
{
    let most = largest_threshold(c.fans, c.watchdog.gpu_fail_threshold) as int;
    lemma_slowest_is_unique(c, most);
    assert(detection_ms(c) == c.global.poll_interval_ms * most);
    if exists|threshold: int| #[trigger]
        is_slowest(c, threshold) && c.global.poll_interval_ms * threshold >= c.watchdog.timeout_s
            * 500 {
        let threshold = choose|threshold: int| #[trigger]
            is_slowest(c, threshold) && c.global.poll_interval_ms * threshold
                >= c.watchdog.timeout_s * 500;
        lemma_slowest_is_unique(c, threshold);
    }
}

proof fn lemma_settings_breaches(c: ConfigModel)
    ensures
        presence_rules(c).len() + watchdog_rules(c).len() + global_rules(c).len()
            == breaches_in_settings(c),
{
    lemma_slow_breach(c);
}

/// There are as many reports as breaches: each is reported once.
pub proof fn each_breach_is_reported_once(c: ConfigModel)
    ensures
        violations(c).len() == breaches_in_settings(c) + total(
            c.gpus.len(),
            |i: int| breaches_of_gpu(c, i),
        ) + total(c.fans.len(), |i: int| breaches_of_fan(c, i)) + total(
            c.groups.len(),
            |i: int| breaches_of_group(c, i),
        ),
{
    lemma_settings_breaches(c);
    let s4 = |i: int| reference_rule(c, Member::Gpu)(i).len();
    let s8 = |i: int| nvml_index_rule(c)(i).len();
    let gr = |i: int| gpu_rule(c)(i).len();
    let pw = |i: int| power_rule(c)(i).len();
    lemma_gather_len(c.gpus.len(), reference_rule(c, Member::Gpu), s4);
    lemma_gather_len(c.gpus.len(), nvml_index_rule(c), s8);
    lemma_gather_len(c.gpus.len(), gpu_rule(c), gr);
    lemma_gather_len(c.gpus.len(), power_rule(c), pw);
    let a = |i: int| s4(i) + s8(i);
    let b = |i: int| gr(i) + pw(i);
    lemma_total_sum(c.gpus.len(), s4, s8, a);
    lemma_total_sum(c.gpus.len(), gr, pw, b);
    let gpus = |i: int| breaches_of_gpu(c, i);
    assert forall|i: int| 0 <= i < c.gpus.len() implies a(i) + b(i) == #[trigger] gpus(i) by {
        lemma_gpu_breaches(c, i);
    }
    lemma_total_sum(c.gpus.len(), a, b, gpus);
    let s5 = |i: int| reference_rule(c, Member::Fan)(i).len();
    let s9 = |i: int| output_rule(c)(i).len();
    let fr = |i: int| fan_rule(c)(i).len();
    lemma_gather_len(c.fans.len(), reference_rule(c, Member::Fan), s5);
    lemma_gather_len(c.fans.len(), output_rule(c), s9);
    lemma_gather_len(c.fans.len(), fan_rule(c), fr);
    let d = |i: int| s5(i) + s9(i);
    lemma_total_sum(c.fans.len(), s5, s9, d);
    let fans = |i: int| breaches_of_fan(c, i);
    assert forall|i: int| 0 <= i < c.fans.len() implies d(i) + fr(i) == #[trigger] fans(i) by {
        lemma_fan_breaches(c, i);
    }
    lemma_total_sum(c.fans.len(), d, fr, fans);
    let s6 = |i: int| group_members_rule(c)(i).len();
    let s7 = |i: int| known_members_rule(c)(i).len();
    lemma_gather_len(c.groups.len(), group_members_rule(c), s6);
    lemma_gather_len(c.groups.len(), known_members_rule(c), s7);
    let groups = |i: int| breaches_of_group(c, i);
    assert forall|i: int| 0 <= i < c.groups.len() implies s6(i) + s7(i) == #[trigger] groups(
        i,
    ) by {
        lemma_group_breaches(c, i);
    }
    lemma_total_sum(c.groups.len(), s6, s7, groups);
}

/// Where the reports of a rule stand: the structure first, rule by rule, then the GPUs,
/// the fans, the settings rule by rule, and the power limits.
pub open spec fn place_of(rule: Seq<char>) -> int {
    let digit = rule[1] as int - '0' as int;
    if rule[0] == 'S' {
        digit
    } else if rule[0] == 'G' {
        10
    } else if rule[0] == 'F' {
        20
    } else if rule[0] == 'W' {
        30 + digit
    } else {
        40
    }
}

proof fn lemma_places()
    ensures
        place_of("S1"@) == 1,
        place_of("S2"@) == 2,
        place_of("S3"@) == 3,
        place_of("S4"@) == 4,
        place_of("S5"@) == 5,
        place_of("S6"@) == 6,
        place_of("S7"@) == 7,
        place_of("S8"@) == 8,
        place_of("S9"@) == 9,
        place_of("G1"@) == 10,
        place_of("G2"@) == 10,
        place_of("G3"@) == 10,
        place_of("G4"@) == 10,
        place_of("G5"@) == 10,
        place_of("G6"@) == 10,
        place_of("G7"@) == 10,
        place_of("G8"@) == 10,
        place_of("F1"@) == 20,
        place_of("F2"@) == 20,
        place_of("F4"@) == 20,
        place_of("F5"@) == 20,
        place_of("W1"@) == 31,
        place_of("W2"@) == 32,
        place_of("W3"@) == 33,
        place_of("W4"@) == 34,
        place_of("W5"@) == 35,
        place_of("W7"@) == 37,
        place_of("P1"@) == 40,
        place_of("P2"@) == 40,
{
    reveal_strlit("S1");
    reveal_strlit("S2");
    reveal_strlit("S3");
    reveal_strlit("S4");
    reveal_strlit("S5");
    reveal_strlit("S6");
    reveal_strlit("S7");
    reveal_strlit("S8");
    reveal_strlit("S9");
    reveal_strlit("G1");
    reveal_strlit("G2");
    reveal_strlit("G3");
    reveal_strlit("G4");
    reveal_strlit("G5");
    reveal_strlit("G6");
    reveal_strlit("G7");
    reveal_strlit("G8");
    reveal_strlit("F1");
    reveal_strlit("F2");
    reveal_strlit("F4");
    reveal_strlit("F5");
    reveal_strlit("W1");
    reveal_strlit("W2");
    reveal_strlit("W3");
    reveal_strlit("W4");
    reveal_strlit("W5");
    reveal_strlit("W7");
    reveal_strlit("P1");
    reveal_strlit("P2");
}

/// Whether reports stand in order, all between two places.
#[verifier::opaque]
spec fn in_order(vs: Seq<Violation>, low: int, high: int) -> bool {
    &&& forall|n: int| 0 <= n < vs.len() ==> low <= place_of((#[trigger] vs[n]).rule) <= high
    &&& forall|m: int, n: int|
        0 <= m < n < vs.len() ==> place_of((#[trigger] vs[m]).rule) <= place_of(
            (#[trigger] vs[n]).rule,
        )
}

proof fn lemma_order_of_sum(
    a: Seq<Violation>,
    b: Seq<Violation>,
    low: int,
    end: int,
    start: int,
    high: int,
)
    requires
        in_order(a, low, end),
        in_order(b, start, high),
        low <= end <= start <= high,
    ensures
        in_order(a + b, low, high),
{
    reveal(in_order);
    let s = a + b;
    assert forall|n: int| 0 <= n < s.len() implies low <= place_of((#[trigger] s[n]).rule)
        <= high by {
        if n < a.len() {
            assert(s[n] == a[n]);
        } else {
            assert(s[n] == b[n - a.len()]);
        }
    }
    assert forall|m: int, n: int| 0 <= m < n < s.len() implies place_of((#[trigger] s[m]).rule)
        <= place_of((#[trigger] s[n]).rule) by {
        if n < a.len() {
            assert(s[m] == a[m] && s[n] == a[n]);
        } else if m < a.len() {
            assert(s[m] == a[m] && s[n] == b[n - a.len()]);
        } else {
            assert(s[m] == b[m - a.len()] && s[n] == b[n - a.len()]);
        }
    }
}

proof fn lemma_order_of_gather(n: nat, f: spec_fn(int) -> Seq<Violation>, at: int)
    requires
        forall|i: int, k: int|
            0 <= i < n && 0 <= k < f(i).len() ==> place_of((#[trigger] f(i)[k]).rule) == at,
    ensures
        in_order(gather(n, f), at, at),
    decreases n,
{
    reveal(in_order);
    if n > 0 {
        lemma_order_of_gather((n - 1) as nat, f, at);
        assert(in_order(f(n - 1), at, at));
        lemma_order_of_sum(gather((n - 1) as nat, f), f(n - 1), at, at, at, at);
    }
}

proof fn lemma_order_of_gpu(g: GpuModel)
    ensures
        in_order(curve_rules(g) + band_rules(g), 10, 10),
{
    reveal(in_order);
    lemma_places();
    let first = broken_if(
        !(2 <= g.curve.len() <= 10),
        curve_violation(
            g,
            "G1"@,
            "curve has "@ + text::decimal(g.curve.len()) + " point(s); need 2..=10"@,
        ),
    );
    let step = gather(steps(g.curve.len()), curve_step_rule(g));
    let range = gather(g.curve.len(), curve_range_rule(g));
    lemma_order_of_gather(steps(g.curve.len()), curve_step_rule(g), 10);
    lemma_order_of_gather(g.curve.len(), curve_range_rule(g), 10);
    assert(in_order(first, 10, 10));
    lemma_order_of_sum(first, step, 10, 10, 10, 10);
    lemma_order_of_sum(first + step, range, 10, 10, 10, 10);
    assert(in_order(band_rules(g), 10, 10));
    lemma_order_of_sum(curve_rules(g), band_rules(g), 10, 10, 10, 10);
}

proof fn lemma_order_of_settings(c: ConfigModel)
    ensures
        in_order(presence_rules(c), 1, 3),
        in_order(watchdog_rules(c), 31, 33),
        in_order(global_rules(c), 34, 37),
{
    reveal(in_order);
    lemma_places();
}

proof fn lemma_order_of_members(c: ConfigModel)
    ensures
        in_order(gather(c.groups.len(), known_members_rule(c)), 7, 7),
{
    lemma_places();
    let f = known_members_rule(c);
    assert forall|i: int, k: int| 0 <= i < c.groups.len() && 0 <= k < f(i).len() implies place_of(
        (#[trigger] f(i)[k]).rule,
    ) == 7 by {
        reveal(in_order);
        let group = c.groups[i];
        let gpus = known_members(c, group, Member::Gpu);
        let fans = known_members(c, group, Member::Fan);
        lemma_order_of_gather(group.gpus.len(), known_member_rule(c, group, Member::Gpu), 7);
        lemma_order_of_gather(group.fans.len(), known_member_rule(c, group, Member::Fan), 7);
        lemma_order_of_sum(gpus, fans, 7, 7, 7, 7);
        assert((gpus + fans)[k] == f(i)[k]);
    }
    lemma_order_of_gather(c.groups.len(), f, 7);
}

proof fn lemma_order_of_gpus(c: ConfigModel)
    ensures
        in_order(gather(c.gpus.len(), gpu_rule(c)), 10, 10),
{
    let f = gpu_rule(c);
    assert forall|i: int, k: int| 0 <= i < c.gpus.len() && 0 <= k < f(i).len() implies place_of(
        (#[trigger] f(i)[k]).rule,
    ) == 10 by {
        reveal(in_order);
        lemma_order_of_gpu(c.gpus[i]);
    }
    lemma_order_of_gather(c.gpus.len(), f, 10);
}

proof fn lemma_order_of_wiring(c: ConfigModel)
    ensures
        in_order(gather(c.gpus.len(), reference_rule(c, Member::Gpu)), 4, 4),
        in_order(gather(c.fans.len(), reference_rule(c, Member::Fan)), 5, 5),
        in_order(gather(c.groups.len(), group_members_rule(c)), 6, 6),
        in_order(gather(c.gpus.len(), nvml_index_rule(c)), 8, 8),
        in_order(gather(c.fans.len(), output_rule(c)), 9, 9),
        in_order(gather(c.fans.len(), fan_rule(c)), 20, 20),
        in_order(gather(c.gpus.len(), power_rule(c)), 40, 40),
{
    lemma_places();
    lemma_order_of_gather(c.gpus.len(), reference_rule(c, Member::Gpu), 4);
    lemma_order_of_gather(c.fans.len(), reference_rule(c, Member::Fan), 5);
    lemma_order_of_gather(c.groups.len(), group_members_rule(c), 6);
    lemma_order_of_gather(c.gpus.len(), nvml_index_rule(c), 8);
    lemma_order_of_gather(c.fans.len(), output_rule(c), 9);
    lemma_order_of_gather(c.fans.len(), fan_rule(c), 20);
    lemma_order_of_gather(c.gpus.len(), power_rule(c), 40);
}

/// The reports stand in the order of their rules: the structure, the GPUs, the fans, the
/// watchdog, the other settings and the power limits.
pub proof fn reports_stand_in_order(c: ConfigModel, m: int, n: int)
    requires
        0 <= m < n < violations(c).len(),
    ensures
        place_of(violations(c)[m].rule) <= place_of(violations(c)[n].rule),
{
    let p = presence_rules(c);
    let s4 = gather(c.gpus.len(), reference_rule(c, Member::Gpu));
    let s5 = gather(c.fans.len(), reference_rule(c, Member::Fan));
    let s6 = gather(c.groups.len(), group_members_rule(c));
    let s7 = gather(c.groups.len(), known_members_rule(c));
    let s8 = gather(c.gpus.len(), nvml_index_rule(c));
    let s9 = gather(c.fans.len(), output_rule(c));
    let g = gather(c.gpus.len(), gpu_rule(c));
    let f = gather(c.fans.len(), fan_rule(c));
    let wd = watchdog_rules(c);
    let gl = global_rules(c);
    let pw = gather(c.gpus.len(), power_rule(c));
    lemma_order_of_settings(c);
    lemma_order_of_wiring(c);
    lemma_order_of_members(c);
    lemma_order_of_gpus(c);
    lemma_order_of_sum(p, s4, 1, 3, 4, 4);
    lemma_order_of_sum(p + s4, s5, 1, 4, 5, 5);
    lemma_order_of_sum(p + s4 + s5, s6, 1, 5, 6, 6);
    lemma_order_of_sum(p + s4 + s5 + s6, s7, 1, 6, 7, 7);
    lemma_order_of_sum(p + s4 + s5 + s6 + s7, s8, 1, 7, 8, 8);
    lemma_order_of_sum(p + s4 + s5 + s6 + s7 + s8, s9, 1, 8, 9, 9);
    lemma_order_of_sum(p + s4 + s5 + s6 + s7 + s8 + s9, g, 1, 9, 10, 10);
    lemma_order_of_sum(p + s4 + s5 + s6 + s7 + s8 + s9 + g, f, 1, 10, 20, 20);
    lemma_order_of_sum(p + s4 + s5 + s6 + s7 + s8 + s9 + g + f, wd, 1, 20, 31, 33);
    lemma_order_of_sum(p + s4 + s5 + s6 + s7 + s8 + s9 + g + f + wd, gl, 1, 33, 34, 37);
    lemma_order_of_sum(p + s4 + s5 + s6 + s7 + s8 + s9 + g + f + wd + gl, pw, 1, 37, 40, 40);
    reveal(in_order);
}

/// The reports that stand at one place, in their order.
pub open spec fn reports_at(c: ConfigModel, place: int) -> Seq<Violation> {
    violations(c).filter(|v: Violation| place_of(v.rule) == place)
}

proof fn lemma_filter_sum(a: Seq<Violation>, b: Seq<Violation>, p: spec_fn(Violation) -> bool)
    ensures
        (a + b).filter(p) == a.filter(p) + b.filter(p),
    decreases b.len(),
{
    reveal(Seq::filter);
    if b.len() == 0 {
        assert(a + b =~= a);
        assert(a.filter(p) + b.filter(p) =~= a.filter(p));
    } else {
        assert((a + b).drop_last() =~= a + b.drop_last());
        lemma_filter_sum(a, b.drop_last(), p);
        assert((a + b).filter(p) =~= a.filter(p) + b.filter(p));
    }
}

proof fn lemma_filter_at(vs: Seq<Violation>, low: int, high: int, place: int)
    requires
        in_order(vs, low, high),
    ensures
        place < low || high < place ==> vs.filter(|v: Violation| place_of(v.rule) == place)
            == Seq::<Violation>::empty(),
        place == low && low == high ==> vs.filter(|v: Violation| place_of(v.rule) == place) == vs,
    decreases vs.len(),
{
    reveal(Seq::filter);
    reveal(in_order);
    let p = |v: Violation| place_of(v.rule) == place;
    if vs.len() > 0 {
        let front = vs.drop_last();
        assert(in_order(front, low, high)) by {
            assert forall|n: int| 0 <= n < front.len() implies low <= place_of(
                (#[trigger] front[n]).rule,
            ) <= high by {
                assert(front[n] == vs[n]);
            }
            assert forall|m: int, n: int| 0 <= m < n < front.len() implies place_of(
                (#[trigger] front[m]).rule,
            ) <= place_of((#[trigger] front[n]).rule) by {
                assert(front[m] == vs[m] && front[n] == vs[n]);
            }
        }
        lemma_filter_at(front, low, high, place);
        assert(vs[vs.len() - 1] == vs.last());
        assert(front.push(vs.last()) =~= vs);
    } else {
        assert(vs =~= Seq::<Violation>::empty());
    }
}

proof fn lemma_part_at(c: ConfigModel, place: int)
    requires
        place == 4 || place == 5 || place == 6 || place == 7 || place == 8 || place == 9 || place
            == 10 || place == 20 || place == 40,
    ensures
        reports_at(c, place) == (if place == 4 {
            gather(c.gpus.len(), reference_rule(c, Member::Gpu))
        } else if place == 5 {
            gather(c.fans.len(), reference_rule(c, Member::Fan))
        } else if place == 6 {
            gather(c.groups.len(), group_members_rule(c))
        } else if place == 7 {
            gather(c.groups.len(), known_members_rule(c))
        } else if place == 8 {
            gather(c.gpus.len(), nvml_index_rule(c))
        } else if place == 9 {
            gather(c.fans.len(), output_rule(c))
        } else if place == 10 {
            gather(c.gpus.len(), gpu_rule(c))
        } else if place == 20 {
            gather(c.fans.len(), fan_rule(c))
        } else {
            gather(c.gpus.len(), power_rule(c))
        }),
{
    let at = |v: Violation| place_of(v.rule) == place;
    let p = presence_rules(c);
    let s4 = gather(c.gpus.len(), reference_rule(c, Member::Gpu));
    let s5 = gather(c.fans.len(), reference_rule(c, Member::Fan));
    let s6 = gather(c.groups.len(), group_members_rule(c));
    let s7 = gather(c.groups.len(), known_members_rule(c));
    let s8 = gather(c.gpus.len(), nvml_index_rule(c));
    let s9 = gather(c.fans.len(), output_rule(c));
    let g = gather(c.gpus.len(), gpu_rule(c));
    let f = gather(c.fans.len(), fan_rule(c));
    let wd = watchdog_rules(c);
    let gl = global_rules(c);
    let pw = gather(c.gpus.len(), power_rule(c));
    lemma_order_of_settings(c);
    lemma_order_of_wiring(c);
    lemma_order_of_members(c);
    lemma_order_of_gpus(c);
    lemma_filter_at(p, 1, 3, place);
    lemma_filter_at(s4, 4, 4, place);
    lemma_filter_at(s5, 5, 5, place);
    lemma_filter_at(s6, 6, 6, place);
    lemma_filter_at(s7, 7, 7, place);
    lemma_filter_at(s8, 8, 8, place);
    lemma_filter_at(s9, 9, 9, place);
    lemma_filter_at(g, 10, 10, place);
    lemma_filter_at(f, 20, 20, place);
    lemma_filter_at(wd, 31, 33, place);
    lemma_filter_at(gl, 34, 37, place);
    lemma_filter_at(pw, 40, 40, place);
    lemma_filter_sum(p, s4, at);
    lemma_filter_sum(p + s4, s5, at);
    lemma_filter_sum(p + s4 + s5, s6, at);
    lemma_filter_sum(p + s4 + s5 + s6, s7, at);
    lemma_filter_sum(p + s4 + s5 + s6 + s7, s8, at);
    lemma_filter_sum(p + s4 + s5 + s6 + s7 + s8, s9, at);
    lemma_filter_sum(p + s4 + s5 + s6 + s7 + s8 + s9, g, at);
    lemma_filter_sum(p + s4 + s5 + s6 + s7 + s8 + s9 + g, f, at);
    lemma_filter_sum(p + s4 + s5 + s6 + s7 + s8 + s9 + g + f, wd, at);
    lemma_filter_sum(p + s4 + s5 + s6 + s7 + s8 + s9 + g + f + wd, gl, at);
    lemma_filter_sum(p + s4 + s5 + s6 + s7 + s8 + s9 + g + f + wd + gl, pw, at);
    let none = Seq::<Violation>::empty();
    assert(p.filter(at) == none && wd.filter(at) == none && gl.filter(at) == none);
    let own = reports_at(c, place);
    assert(own =~= s4.filter(at) + s5.filter(at) + s6.filter(at) + s7.filter(at) + s8.filter(at)
        + s9.filter(at) + g.filter(at) + f.filter(at) + pw.filter(at));
    if place == 4 {
        assert(own =~= s4);
    } else if place == 5 {
        assert(own =~= s5);
    } else if place == 6 {
        assert(own =~= s6);
    } else if place == 7 {
        assert(own =~= s7);
    } else if place == 8 {
        assert(own =~= s8);
    } else if place == 9 {
        assert(own =~= s9);
    } else if place == 10 {
        assert(own =~= g);
    } else if place == 20 {
        assert(own =~= f);
    } else {
        assert(own =~= pw);
    }
}

proof fn lemma_gather_keeps_order<A>(n: nat, f: spec_fn(int) -> Seq<A>, x: int, y: int) -> (r: (
    int,
    int,
))
    requires
        0 <= x < y < gather(n, f).len(),
    ensures
        0 <= r.0 <= r.1 < n,
        f(r.0).contains(gather(n, f)[x]),
        f(r.1).contains(gather(n, f)[y]),
    decreases n,
{
    let front = gather((n - 1) as nat, f);
    let last = f(n - 1);
    let all = gather(n, f);
    if y < front.len() {
        assert(all[x] == front[x] && all[y] == front[y]);
        lemma_gather_keeps_order((n - 1) as nat, f, x, y)
    } else {
        assert(all[y] == last[y - front.len()]);
        assert(last.contains(all[y]));
        if x < front.len() {
            assert(all[x] == front[x]);
            assert(front.contains(all[x]));
            let i = lemma_gather_origin((n - 1) as nat, f, all[x]);
            (i, n - 1)
        } else {
            assert(all[x] == last[x - front.len()]);
            assert(last.contains(all[x]));
            (n - 1, n - 1)
        }
    }
}

proof fn lemma_gpu_reports_keep_order(c: ConfigModel, place: int, m: int, n: int) -> (r: (
    int,
    int,
))
    requires
        place == 4 || place == 8 || place == 10 || place == 40,
        0 <= m < n < reports_at(c, place).len(),
    ensures
        0 <= r.0 <= r.1 < c.gpus.len(),
        gpu_breaks(c, r.0, reports_at(c, place)[m]),
        gpu_breaks(c, r.1, reports_at(c, place)[n]),
{
    lemma_part_at(c, place);
    if place == 4 {
        lemma_gather_keeps_order(c.gpus.len(), reference_rule(c, Member::Gpu), m, n)
    } else if place == 8 {
        lemma_gather_keeps_order(c.gpus.len(), nvml_index_rule(c), m, n)
    } else if place == 10 {
        lemma_gather_keeps_order(c.gpus.len(), gpu_rule(c), m, n)
    } else {
        lemma_gather_keeps_order(c.gpus.len(), power_rule(c), m, n)
    }
}

/// The reports on GPUs that stand at one place follow the order of the configuration: an
/// earlier one is due to the same GPU as a later one, or to an earlier GPU.
pub proof fn gpu_reports_follow_the_configuration(c: ConfigModel, place: int, m: int, n: int)
    requires
        place == 4 || place == 8 || place == 10 || place == 40,
        0 <= m < n < reports_at(c, place).len(),
    ensures
        exists|i: int, j: int|
            i <= j && #[trigger] gpu_gives_reason(c, i, reports_at(c, place)[m])
                && #[trigger] gpu_gives_reason(c, j, reports_at(c, place)[n]),
{
    let v = reports_at(c, place)[m];
    let w = reports_at(c, place)[n];
    let (i, j) = lemma_gpu_reports_keep_order(c, place, m, n);
    lemma_gpu_reason(c, i, v);
    lemma_gpu_reason(c, j, w);
    assert(i <= j && gpu_gives_reason(c, i, v) && gpu_gives_reason(c, j, w));
}

proof fn lemma_fan_reports_keep_order(c: ConfigModel, place: int, m: int, n: int) -> (r: (
    int,
    int,
))
    requires
        place == 5 || place == 9 || place == 20,
        0 <= m < n < reports_at(c, place).len(),
    ensures
        0 <= r.0 <= r.1 < c.fans.len(),
        fan_breaks(c, r.0, reports_at(c, place)[m]),
        fan_breaks(c, r.1, reports_at(c, place)[n]),
{
    lemma_part_at(c, place);
    if place == 5 {
        lemma_gather_keeps_order(c.fans.len(), reference_rule(c, Member::Fan), m, n)
    } else if place == 9 {
        lemma_gather_keeps_order(c.fans.len(), output_rule(c), m, n)
    } else {
        lemma_gather_keeps_order(c.fans.len(), fan_rule(c), m, n)
    }
}

/// The reports on fans that stand at one place follow the order of the configuration: an
/// earlier one is due to the same fan as a later one, or to an earlier fan.
pub proof fn fan_reports_follow_the_configuration(c: ConfigModel, place: int, m: int, n: int)
    requires
        place == 5 || place == 9 || place == 20,
        0 <= m < n < reports_at(c, place).len(),
    ensures
        exists|i: int, j: int|
            i <= j && #[trigger] fan_gives_reason(c, i, reports_at(c, place)[m])
                && #[trigger] fan_gives_reason(c, j, reports_at(c, place)[n]),
{
    let v = reports_at(c, place)[m];
    let w = reports_at(c, place)[n];
    let (i, j) = lemma_fan_reports_keep_order(c, place, m, n);
    lemma_fan_reason(c, i, v);
    lemma_fan_reason(c, j, w);
    assert(i <= j && fan_gives_reason(c, i, v) && fan_gives_reason(c, j, w));
}

proof fn lemma_group_reports_keep_order(c: ConfigModel, place: int, m: int, n: int) -> (r: (
    int,
    int,
))
    requires
        place == 6 || place == 7,
        0 <= m < n < reports_at(c, place).len(),
    ensures
        0 <= r.0 <= r.1 < c.groups.len(),
        group_breaks(c, r.0, reports_at(c, place)[m]),
        group_breaks(c, r.1, reports_at(c, place)[n]),
{
    lemma_part_at(c, place);
    if place == 6 {
        lemma_gather_keeps_order(c.groups.len(), group_members_rule(c), m, n)
    } else {
        lemma_gather_keeps_order(c.groups.len(), known_members_rule(c), m, n)
    }
}

/// The reports on groups that stand at one place follow the order of the configuration: an
/// earlier one is due to the same group as a later one, or to an earlier group.
pub proof fn group_reports_follow_the_configuration(c: ConfigModel, place: int, m: int, n: int)
    requires
        place == 6 || place == 7,
        0 <= m < n < reports_at(c, place).len(),
    ensures
        exists|i: int, j: int|
            i <= j && #[trigger] group_gives_reason(c, i, reports_at(c, place)[m])
                && #[trigger] group_gives_reason(c, j, reports_at(c, place)[n]),
{
    let v = reports_at(c, place)[m];
    let w = reports_at(c, place)[n];
    let (i, j) = lemma_group_reports_keep_order(c, place, m, n);
    lemma_group_reason(c, i, v);
    lemma_group_reason(c, j, w);
    assert(i <= j && group_gives_reason(c, i, v) && group_gives_reason(c, j, w));
}

proof fn lemma_settings_reason_breaks(c: ConfigModel, v: Violation)
    requires
        settings_give_reason(c, v),
    ensures
        settings_break(c, v),
{
    let p = presence_rules(c);
    let w = watchdog_rules(c);
    let g = global_rules(c);
    let most = largest_threshold(c.fans, c.watchdog.gpu_fail_threshold) as int;
    assert(detection_ms(c) == c.global.poll_interval_ms * most);
    lemma_version_text(
        "unsupported config_version "@ + text::decimal(c.global.config_version as nat),
    );
    assert forall|threshold: int| is_slowest(c, threshold) implies threshold == most by {
        lemma_slowest_is_unique(c, threshold);
    }
    let no_gpus = one_if(c.gpus.len() == 0) as int;
    let no_fans = one_if(c.fans.len() == 0) as int;
    let no_device = one_if(c.watchdog.device.len() == 0) as int;
    let bad_timeout = one_if(!(5 <= c.watchdog.timeout_s <= 600)) as int;
    let bad_poll = one_if(!(100 <= c.global.poll_interval_ms <= 10_000)) as int;
    let slow = one_if(detection_ms(c) >= half_timeout_ms(c)) as int;
    if c.gpus.len() == 0 {
        assert(p.contains(p[0]));
    }
    if c.fans.len() == 0 {
        assert(p.contains(p[no_gpus]));
    }
    if c.groups.len() == 0 {
        assert(p.contains(p[no_gpus + no_fans]));
    }
    if c.watchdog.device.len() == 0 {
        assert(w.contains(w[0]));
    }
    if !(5 <= c.watchdog.timeout_s <= 600) {
        assert(w.contains(w[no_device]));
    }
    if c.watchdog.gpu_fail_threshold < 1 {
        assert(w.contains(w[no_device + bad_timeout]));
    }
    if !(100 <= c.global.poll_interval_ms <= 10_000) {
        assert(g.contains(g[0]));
    }
    if detection_ms(c) >= half_timeout_ms(c) {
        assert(g.contains(g[bad_poll]));
    }
    if c.global.config_version != CONFIG_VERSION_SUPPORTED {
        assert(g.contains(g[bad_poll + slow]));
    }
}

proof fn lemma_point_reason_breaks(g: GpuModel, k: int, v: Violation)
    requires
        point_gives_reason(g.curve, k, v),
        v.section == Some("gpu:"@ + g.id),
        v.key == Some("curve"@),
    ensures
        curve_rules(g).contains(v),
{
    let pts = g.curve;
    lemma_curve_part(g, v);
    if 0 <= k < pts.len() - 1 {
        let f = curve_step_rule(g);
        if f(k).len() > 0 && (v == f(k)[0] || v == f(k)[f(k).len() - 1]) {
            assert(f(k).contains(v));
            lemma_gather_contains(steps(pts.len()), f, k, v);
        }
    }
    if 0 <= k < pts.len() {
        let f = curve_range_rule(g);
        if f(k).len() > 0 && (v == f(k)[0] || v == f(k)[f(k).len() - 1]) {
            assert(f(k).contains(v));
            lemma_gather_contains(pts.len(), f, k, v);
        }
    }
}

proof fn lemma_shared_index_breaks(c: ConfigModel, i: int, k: int, v: Violation)
    requires
        0 <= k < i < c.gpus.len(),
        c.gpus[k].nvml_index == c.gpus[i].nvml_index,
        forall|m: int| k < m < i ==> (#[trigger] c.gpus[m]).nvml_index != c.gpus[i].nvml_index,
        v == (Violation {
            rule: "S8"@,
            section: Some("gpu:"@ + c.gpus[i].id),
            key: Some("nvml_index"@),
            message: "nvml_index "@ + text::signed_decimal(c.gpus[i].nvml_index as int)
                + " duplicated (also used by gpu:"@ + c.gpus[k].id + ")"@,
        }),
    ensures
        nvml_index_rule(c)(i).contains(v),
{
    let p = uses_nvml_index(c.gpus, c.gpus[i].nvml_index);
    lemma_last_below(i, p);
    assert(p(k));
    let j = last_below(i, p)->0;
    assert(p(j) && c.gpus[j].nvml_index == c.gpus[i].nvml_index);
    assert(j == k);
    assert(nvml_index_rule(c)(i)[0] == v);
}

proof fn lemma_shared_output_breaks(c: ConfigModel, i: int, k: int, v: Violation)
    requires
        0 <= k < i < c.fans.len(),
        hang_on_one_output(c.fans[k], c.fans[i]),
        forall|m: int| k < m < i ==> !hang_on_one_output(#[trigger] c.fans[m], c.fans[i]),
        v == (Violation {
            rule: "S9"@,
            section: Some("fan:"@ + c.fans[i].id),
            key: None,
            message: "(chip, device_path, pwm_channel) tuple duplicated (also used by fan:"@
                + c.fans[k].id + ")"@,
        }),
    ensures
        output_rule(c)(i).contains(v),
{
    let p = uses_output(c.fans, c.fans[i]);
    lemma_last_below(i, p);
    assert(p(k));
    let j = last_below(i, p)->0;
    assert(p(j) && hang_on_one_output(c.fans[j], c.fans[i]));
    assert(j == k);
    assert(output_rule(c)(i)[0] == v);
}

/// Whether the band of a GPU gives reason for a report.
spec fn band_gives_reason(g: GpuModel, v: Violation) -> bool {
    ||| v.rule == "G7"@ && v.key is None && g.min_fan_pct.0 > g.max_fan_pct.0 && v.message
        == "min_fan_pct ("@ + text::signed_decimal(g.min_fan_pct.0 as int) + ") > max_fan_pct ("@
        + text::signed_decimal(g.max_fan_pct.0 as int) + ")"@
    ||| v.rule == "G8"@ && v.key == Some("min_fan_pct"@) && g.min_fan_pct.0 > 100 && v.message
        == "min_fan_pct "@ + text::signed_decimal(g.min_fan_pct.0 as int) + " outside [0, 100]"@
    ||| v.rule == "G8"@ && v.key == Some("max_fan_pct"@) && g.max_fan_pct.0 > 100 && v.message
        == "max_fan_pct "@ + text::signed_decimal(g.max_fan_pct.0 as int) + " outside [0, 100]"@
}

proof fn lemma_band_reason_breaks(g: GpuModel, v: Violation)
    requires
        v.section == Some("gpu:"@ + g.id),
        band_gives_reason(g, v),
    ensures
        band_rules(g).contains(v),
{
    let b = band_rules(g);
    let empty = one_if(g.min_fan_pct.0 > g.max_fan_pct.0) as int;
    let high = one_if(g.min_fan_pct.0 > 100) as int;
    if g.min_fan_pct.0 > g.max_fan_pct.0 {
        assert(b.contains(b[0]));
    }
    if g.min_fan_pct.0 > 100 {
        assert(b.contains(b[empty]));
    }
    if g.max_fan_pct.0 > 100 {
        assert(b.contains(b[empty + high]));
    }
}

proof fn lemma_gpu_reason_breaks(c: ConfigModel, i: int, v: Violation)
    requires
        gpu_gives_reason(c, i, v),
    ensures
        gpu_breaks(c, i, v),
{
    let g = c.gpus[i];
    lemma_sum_contains(curve_rules(g), band_rules(g), v);
    if v.rule == "S4"@ && v.key is None && !(exists|at: int| cools_alone(c, g.id, at)) && v.message
        == "GPU '"@ + g.id + "' referenced by "@ + text::signed_decimal(
        c.groups.filter(|group: GroupModel| group.gpus.contains(g.id)).len() as int,
    ) + " group(s); must be exactly 1"@ {
        lemma_sole_gpu_group(c, g.id);
        lemma_references_count(c.groups, Member::Gpu, g.id);
        let part = reference_rule(c, Member::Gpu)(i);
        assert(part[0] == v);
    } else if v.rule == "S8"@ && v.key == Some("nvml_index"@) && exists|k: int|
        0 <= k < i && (#[trigger] c.gpus[k]).nvml_index == g.nvml_index && v.message
            == "nvml_index "@ + text::signed_decimal(g.nvml_index as int)
            + " duplicated (also used by gpu:"@ + c.gpus[k].id + ")"@ && forall|m: int|
            k < m < i ==> (#[trigger] c.gpus[m]).nvml_index != g.nvml_index {
        let k = choose|k: int|
            0 <= k < i && (#[trigger] c.gpus[k]).nvml_index == g.nvml_index && v.message
                == "nvml_index "@ + text::signed_decimal(g.nvml_index as int)
                + " duplicated (also used by gpu:"@ + c.gpus[k].id + ")"@ && forall|m: int|
                k < m < i ==> (#[trigger] c.gpus[m]).nvml_index != g.nvml_index;
        lemma_shared_index_breaks(c, i, k, v);
    } else if v.rule == "G1"@ && v.key == Some("curve"@) && !(2 <= g.curve.len() <= 10) && v.message
        == "curve has "@ + text::signed_decimal(g.curve.len() as int)
        + " point(s); need 2..=10"@ {
        lemma_one_is_contained(v);
        lemma_curve_part(g, v);
    } else if v.key == Some("curve"@) && exists|k: int| point_gives_reason(g.curve, k, v) {
        let k = choose|k: int| point_gives_reason(g.curve, k, v);
        lemma_point_reason_breaks(g, k, v);
    } else if v.rule == "P1"@ && v.key == Some("power_limit_w"@) && g.power_limit_enabled
        && g.power_limit_w is None && v.message
        == "power_limit_enabled is true but power_limit_w is not set"@ {
        assert(power_rule(c)(i)[0] == v);
    } else if v.rule == "P2"@ && v.key == Some("power_limit_w"@) && g.power_limit_w is Some
        && g.power_limit_w->0 > c.global.power_limit_validate_max_w && v.message
        == "power_limit_w "@ + text::signed_decimal(g.power_limit_w->0 as int)
        + " above power_limit_validate_max_w ("@ + text::signed_decimal(
        c.global.power_limit_validate_max_w as int,
    ) + ")"@ {
        assert(power_rule(c)(i)[0] == v);
    } else {
        lemma_band_reason_breaks(g, v);
    }
}

proof fn lemma_fan_reason_breaks(c: ConfigModel, i: int, v: Violation)
    requires
        fan_gives_reason(c, i, v),
    ensures
        fan_breaks(c, i, v),
{
    let f = c.fans[i];
    let part = fan_rules(f);
    if v.rule == "S5"@ && v.key is None && !(exists|at: int| drives_alone(c, f.id, at))
        && v.message == "fan '"@ + f.id + "' referenced by "@ + text::signed_decimal(
        c.groups.filter(|group: GroupModel| group.fans.contains(f.id)).len() as int,
    ) + " group(s); must be exactly 1"@ {
        lemma_sole_fan_group(c, f.id);
        lemma_references_count(c.groups, Member::Fan, f.id);
        assert(reference_rule(c, Member::Fan)(i)[0] == v);
    } else if v.rule == "S9"@ && v.key is None && exists|k: int|
        0 <= k < i && hang_on_one_output(#[trigger] c.fans[k], f) && v.message
            == "(chip, device_path, pwm_channel) tuple duplicated (also used by fan:"@
            + c.fans[k].id + ")"@ && forall|m: int|
            k < m < i ==> !hang_on_one_output(#[trigger] c.fans[m], f) {
        let k = choose|k: int|
            0 <= k < i && hang_on_one_output(#[trigger] c.fans[k], f) && v.message
                == "(chip, device_path, pwm_channel) tuple duplicated (also used by fan:"@
                + c.fans[k].id + ")"@ && forall|m: int|
                k < m < i ==> !hang_on_one_output(#[trigger] c.fans[m], f);
        lemma_shared_output_breaks(c, i, k, v);
    } else {
        let one = one_if(f.max_rpm <= f.min_rpm) as int;
        let two = one_if(f.fan_fail_threshold < 1) as int;
        let three = one_if(f.pwm_channel < 1) as int;
        if f.max_rpm <= f.min_rpm {
            assert(part.contains(part[0]));
        }
        if f.fan_fail_threshold < 1 {
            assert(part.contains(part[one]));
        }
        if f.pwm_channel < 1 {
            assert(part.contains(part[one + two]));
        }
        if f.chip is None && f.device_path is None && f.hwmon_path is None {
            assert(part.contains(part[one + two + three]));
        }
    }
}

proof fn lemma_unknown_gpu_breaks(c: ConfigModel, g: GroupModel, k: int, v: Violation)
    requires
        0 <= k < g.gpus.len(),
        forall|m: int| 0 <= m < c.gpus.len() ==> (#[trigger] c.gpus[m]).id != g.gpus[k],
        v == (Violation {
            rule: "S7"@,
            section: Some("group:"@ + g.id),
            key: Some("gpus"@),
            message: "group references unknown gpu id '"@ + g.gpus[k] + "'"@,
        }),
    ensures
        known_members(c, g, Member::Gpu).contains(v),
{
    let f = known_member_rule(c, g, Member::Gpu);
    assert(!is_declared(c, Member::Gpu, g.gpus[k]));
    assert(f(k)[0] == v);
    lemma_gather_contains(g.gpus.len(), f, k, v);
}

proof fn lemma_unknown_fan_breaks(c: ConfigModel, g: GroupModel, k: int, v: Violation)
    requires
        0 <= k < g.fans.len(),
        forall|m: int| 0 <= m < c.fans.len() ==> (#[trigger] c.fans[m]).id != g.fans[k],
        v == (Violation {
            rule: "S7"@,
            section: Some("group:"@ + g.id),
            key: Some("fans"@),
            message: "group references unknown fan id '"@ + g.fans[k] + "'"@,
        }),
    ensures
        known_members(c, g, Member::Fan).contains(v),
{
    let f = known_member_rule(c, g, Member::Fan);
    assert(!is_declared(c, Member::Fan, g.fans[k]));
    assert(f(k)[0] == v);
    lemma_gather_contains(g.fans.len(), f, k, v);
}

proof fn lemma_group_reason_breaks(c: ConfigModel, i: int, v: Violation)
    requires
        group_gives_reason(c, i, v),
    ensures
        group_breaks(c, i, v),
{
    let g = c.groups[i];
    lemma_sum_contains(known_members(c, g, Member::Gpu), known_members(c, g, Member::Fan), v);
    if v.rule == "S6"@ && v.key is None && (g.gpus.len() == 0 || g.fans.len() == 0) && v.message
        == "group must reference at least one GPU and at least one fan"@ {
        assert(group_members_rule(c)(i)[0] == v);
    } else if v.key == Some("gpus"@) && exists|k: int|
        0 <= k < g.gpus.len() && v.message == "group references unknown gpu id '"@
            + #[trigger] g.gpus[k] + "'"@ && forall|m: int|
            0 <= m < c.gpus.len() ==> (#[trigger] c.gpus[m]).id != g.gpus[k] {
        let k = choose|k: int|
            0 <= k < g.gpus.len() && v.message == "group references unknown gpu id '"@
                + #[trigger] g.gpus[k] + "'"@ && forall|m: int|
                0 <= m < c.gpus.len() ==> (#[trigger] c.gpus[m]).id != g.gpus[k];
        lemma_unknown_gpu_breaks(c, g, k, v);
    } else {
        let k = choose|k: int|
            0 <= k < g.fans.len() && v.message == "group references unknown fan id '"@
                + #[trigger] g.fans[k] + "'"@ && forall|m: int|
                0 <= m < c.fans.len() ==> (#[trigger] c.fans[m]).id != g.fans[k];
        lemma_unknown_fan_breaks(c, g, k, v);
    }
}

/// Every reason is reported: whatever rule the settings, a GPU, a fan or a group break, the
/// report that names it and tells what is wrong is there, whatever else is.
pub proof fn every_reason_is_reported(c: ConfigModel, i: int, v: Violation)
    requires
        settings_give_reason(c, v) || gpu_gives_reason(c, i, v) || fan_gives_reason(c, i, v)
            || group_gives_reason(c, i, v),
    ensures
        violations(c).contains(v),
{
    if settings_give_reason(c, v) {
        lemma_settings_reason_breaks(c, v);
    } else if gpu_gives_reason(c, i, v) {
        lemma_gpu_reason_breaks(c, i, v);
    } else if fan_gives_reason(c, i, v) {
        lemma_fan_reason_breaks(c, i, v);
    } else {
        lemma_group_reason_breaks(c, i, v);
    }
    violations_accumulate(c, i, v);
}

/// Where a report stands among those on one GPU or one fan: by the number of its rule, but
/// that the rules on neighbouring points stand together, and so do those on one point.
pub open spec fn rank_of(rule: Seq<char>) -> int {
    let digit = rule[1] as int - '0' as int;
    if rule[0] == 'G' && 2 <= digit <= 4 {
        2
    } else if rule[0] == 'G' && 5 <= digit <= 6 {
        5
    } else {
        digit
    }
}

proof fn lemma_ranks()
    ensures
        rank_of("G1"@) == 1,
        rank_of("G2"@) == 2,
        rank_of("G3"@) == 2,
        rank_of("G4"@) == 2,
        rank_of("G5"@) == 5,
        rank_of("G6"@) == 5,
        rank_of("G7"@) == 7,
        rank_of("G8"@) == 8,
        rank_of("F1"@) == 1,
        rank_of("F2"@) == 2,
        rank_of("F4"@) == 4,
        rank_of("F5"@) == 5,
{
    reveal_strlit("G1");
    reveal_strlit("G2");
    reveal_strlit("G3");
    reveal_strlit("G4");
    reveal_strlit("G5");
    reveal_strlit("G6");
    reveal_strlit("G7");
    reveal_strlit("G8");
    reveal_strlit("F1");
    reveal_strlit("F2");
    reveal_strlit("F4");
    reveal_strlit("F5");
}

/// Whether reports stand by their rank, all between two ranks.
#[verifier::opaque]
spec fn in_rank(vs: Seq<Violation>, low: int, high: int) -> bool {
    &&& forall|n: int| 0 <= n < vs.len() ==> low <= rank_of((#[trigger] vs[n]).rule) <= high
    &&& forall|m: int, n: int|
        0 <= m < n < vs.len() ==> rank_of((#[trigger] vs[m]).rule) <= rank_of(
            (#[trigger] vs[n]).rule,
        )
}

proof fn lemma_rank_of_sum(
    a: Seq<Violation>,
    b: Seq<Violation>,
    low: int,
    end: int,
    start: int,
    high: int,
)
    requires
        in_rank(a, low, end),
        in_rank(b, start, high),
        low <= end <= start <= high,
    ensures
        in_rank(a + b, low, high),
{
    reveal(in_rank);
    let s = a + b;
    assert forall|n: int| 0 <= n < s.len() implies low <= rank_of((#[trigger] s[n]).rule)
        <= high by {
        if n < a.len() {
            assert(s[n] == a[n]);
        } else {
            assert(s[n] == b[n - a.len()]);
        }
    }
    assert forall|m: int, n: int| 0 <= m < n < s.len() implies rank_of((#[trigger] s[m]).rule)
        <= rank_of((#[trigger] s[n]).rule) by {
        if n < a.len() {
            assert(s[m] == a[m] && s[n] == a[n]);
        } else if m < a.len() {
            assert(s[m] == a[m] && s[n] == b[n - a.len()]);
        } else {
            assert(s[m] == b[m - a.len()] && s[n] == b[n - a.len()]);
        }
    }
}

proof fn lemma_rank_of_gather(n: nat, f: spec_fn(int) -> Seq<Violation>, at: int)
    requires
        forall|i: int, k: int|
            0 <= i < n && 0 <= k < f(i).len() ==> rank_of((#[trigger] f(i)[k]).rule) == at,
    ensures
        in_rank(gather(n, f), at, at),
    decreases n,
{
    reveal(in_rank);
    if n > 0 {
        lemma_rank_of_gather((n - 1) as nat, f, at);
        assert(in_rank(f(n - 1), at, at));
        lemma_rank_of_sum(gather((n - 1) as nat, f), f(n - 1), at, at, at, at);
    }
}

proof fn lemma_rank_of_gpu(g: GpuModel)
    ensures
        in_rank(curve_rules(g) + band_rules(g), 1, 8),
{
    lemma_ranks();
    let first = broken_if(
        !(2 <= g.curve.len() <= 10),
        curve_violation(
            g,
            "G1"@,
            "curve has "@ + text::decimal(g.curve.len()) + " point(s); need 2..=10"@,
        ),
    );
    let step = gather(steps(g.curve.len()), curve_step_rule(g));
    let range = gather(g.curve.len(), curve_range_rule(g));
    lemma_rank_of_gather(steps(g.curve.len()), curve_step_rule(g), 2);
    lemma_rank_of_gather(g.curve.len(), curve_range_rule(g), 5);
    assert(in_rank(first, 1, 1)) by {
        reveal(in_rank);
    }
    assert(in_rank(band_rules(g), 7, 8)) by {
        reveal(in_rank);
    }
    lemma_rank_of_sum(first, step, 1, 1, 2, 2);
    lemma_rank_of_sum(first + step, range, 1, 2, 5, 5);
    lemma_rank_of_sum(curve_rules(g), band_rules(g), 1, 5, 7, 8);
}

proof fn lemma_gather_one<A>(f: spec_fn(int) -> Seq<A>)
    ensures
        gather(1, f) == f(0),
{
    assert(gather(0, f) =~= Seq::<A>::empty());
    assert(gather(1, f) =~= f(0));
}

proof fn lemma_rank_of_fan(f: FanModel)
    ensures
        in_rank(fan_rules(f), 1, 5),
{
    reveal(in_rank);
    lemma_ranks();
}

proof fn lemma_rank_of_lone_gpu(c: ConfigModel)
    requires
        c.gpus.len() == 1,
    ensures
        in_rank(gather(c.gpus.len(), gpu_rule(c)), 1, 8),
{
    lemma_gather_one(gpu_rule(c));
    lemma_rank_of_gpu(c.gpus[0]);
}

proof fn lemma_rank_of_lone_fan(c: ConfigModel)
    requires
        c.fans.len() == 1,
    ensures
        in_rank(gather(c.fans.len(), fan_rule(c)), 1, 5),
{
    lemma_gather_one(fan_rule(c));
    lemma_rank_of_fan(c.fans[0]);
}

proof fn lemma_ranks_ascend(vs: Seq<Violation>, low: int, high: int, m: int, n: int)
    requires
        in_rank(vs, low, high),
        0 <= m < n < vs.len(),
    ensures
        rank_of(vs[m].rule) <= rank_of(vs[n].rule),
{
    reveal(in_rank);
}

/// The reports on one GPU stand by their rules: the number of points, the neighbouring
/// points, the points, and the band.
pub proof fn reports_on_one_gpu_stand_by_rule(c: ConfigModel, m: int, n: int)
    requires
        c.gpus.len() == 1,
        0 <= m < n < reports_at(c, 10).len(),
    ensures
        rank_of(reports_at(c, 10)[m].rule) <= rank_of(reports_at(c, 10)[n].rule),
{
    lemma_part_at(c, 10);
    lemma_rank_of_lone_gpu(c);
    lemma_ranks_ascend(reports_at(c, 10), 1, 8, m, n);
}

/// The reports on one fan stand by the number of their rule.
pub proof fn reports_on_one_fan_stand_by_rule(c: ConfigModel, m: int, n: int)
    requires
        c.fans.len() == 1,
        0 <= m < n < reports_at(c, 20).len(),
    ensures
        rank_of(reports_at(c, 20)[m].rule) <= rank_of(reports_at(c, 20)[n].rule),
{
    lemma_part_at(c, 20);
    lemma_rank_of_lone_fan(c);
    lemma_ranks_ascend(reports_at(c, 20), 1, 5, m, n);
}

} // verus!
