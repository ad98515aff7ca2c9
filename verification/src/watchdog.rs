//! Faults and the hardware watchdog.
//!
//! The `FaultTracker` counts, per GPU and per fan, how many readings in a row
//! were bad, and declares a fault once a counter exceeds its threshold. The
//! `HardwareWatchdog` decides what is written to the watchdog device and what the
//! outcome of each step means; opening and writing the device is up to its user.

use crate::idmap::IdMap;
use crate::text;
use crate::units;
use vstd::prelude::*;
use vstd::string::*;

verus! {

// ---------------------------------------------------------------------------
// Faults
// ---------------------------------------------------------------------------

/// What the speed of a fan says about it.
#[derive(Debug, Clone, Copy, PartialEq, Eq, Structural)]
pub enum FanHealth {
    Healthy,
    SpinUp,
    Stalled,
    Overspeed,
}

/// What is wrong with a fan.
#[derive(Debug, Clone, Copy, PartialEq, Eq, Structural)]
pub enum FanFaultKind {
    Stalled,
    Overspeed,
}

/// A fault: a GPU whose temperature is unknown, or a fan that does not turn as it
/// should.
#[derive(Debug, Clone, PartialEq, Eq)]
pub enum Fault {
    ThermalBlind { gpu_id: String },
    FanHardware { fan_id: String, last_rpm: u32, kind: FanFaultKind },
}

/// The meaning of a `Fault`.
pub enum FaultModel {
    ThermalBlind { gpu_id: Seq<char> },
    FanHardware { fan_id: Seq<char>, last_rpm: u32, kind: FanFaultKind },
}

impl View for Fault {
    type V = FaultModel;

    open spec fn view(&self) -> FaultModel {
        match *self {
            Fault::ThermalBlind { gpu_id } => FaultModel::ThermalBlind { gpu_id: gpu_id@ },
            Fault::FanHardware { fan_id, last_rpm, kind } => FaultModel::FanHardware {
                fan_id: fan_id@,
                last_rpm,
                kind,
            },
        }
    }
}

/// A fault that may have been declared.
pub open spec fn declared(fault: Option<Fault>) -> Option<FaultModel> {
    match fault {
        Some(f) => Some(f@),
        None => None,
    }
}

/// The meaning of a `FaultTracker`.
pub struct TrackerModel {
    pub gpu_counts: Map<Seq<char>, u64>,
    pub fan_counts: Map<Seq<char>, u64>,
    pub gpu_threshold: u32,
    pub fan_threshold: u32,
    pub any_fault: bool,
}

/// The counter of `id`; an id that was never seen stands at zero.
pub open spec fn count_of(counts: Map<Seq<char>, u64>, id: Seq<char>) -> u64 {
    if counts.dom().contains(id) {
        counts[id]
    } else {
        0
    }
}

/// The next value of a counter. It stays at the largest value, which is far above
/// every threshold.
pub open spec fn advanced(count: u64) -> u64 {
    if count < u64::MAX {
        (count + 1) as u64
    } else {
        count
    }
}

/// Counters at zero for `ids`.
pub open spec fn zero_counts(ids: Seq<Seq<char>>) -> Map<Seq<char>, u64>
    decreases ids.len(),
{
    if ids.len() == 0 {
        Map::empty()
    } else {
        zero_counts(ids.drop_last()).insert(ids.last(), 0)
    }
}

/// The tracker after a reading of the GPU `id`, and the fault that it declares: a
/// good reading resets the counter, a bad one advances it, and every reading that
/// leaves it above the threshold declares a fault.
pub open spec fn after_gpu_tick(m: TrackerModel, id: Seq<char>, read_ok: bool) -> (
    TrackerModel,
    Option<FaultModel>,
) {
    let count = if read_ok {
        0
    } else {
        advanced(count_of(m.gpu_counts, id))
    };
    let fault = !read_ok && count > m.gpu_threshold;
    (
        TrackerModel {
            gpu_counts: m.gpu_counts.insert(id, count),
            any_fault: m.any_fault || fault,
            ..m
        },
        if fault {
            Some(FaultModel::ThermalBlind { gpu_id: id })
        } else {
            None
        },
    )
}

/// What kind of fault a state of health is evidence of.
pub open spec fn suspected(health: FanHealth) -> Option<FanFaultKind> {
    match health {
        FanHealth::Healthy => None,
        FanHealth::SpinUp => None,
        FanHealth::Stalled => Some(FanFaultKind::Stalled),
        FanHealth::Overspeed => Some(FanFaultKind::Overspeed),
    }
}

/// The tracker after a look at the fan `id`, and the fault that it declares: a
/// healthy fan resets the counter, one that spins up leaves it, and a stalled or
/// overspeeding one advances it.
pub open spec fn after_fan_tick(
    m: TrackerModel,
    id: Seq<char>,
    health: FanHealth,
    last_rpm: u32,
) -> (TrackerModel, Option<FaultModel>) {
    let count = match suspected(health) {
        Some(_) => advanced(count_of(m.fan_counts, id)),
        None => if health == FanHealth::Healthy {
            0
        } else {
            count_of(m.fan_counts, id)
        },
    };
    let fault = suspected(health) is Some && count > m.fan_threshold;
    (
        TrackerModel {
            fan_counts: m.fan_counts.insert(id, count),
            any_fault: m.any_fault || fault,
            ..m
        },
        if fault {
            Some(
                FaultModel::FanHardware { fan_id: id, last_rpm, kind: suspected(health)->0 },
            )
        } else {
            None
        },
    )
}

/// Counts bad readings in a row and declares faults.
pub struct FaultTracker {
    gpu_counters: IdMap<u64>,
    fan_counters: IdMap<u64>,
    gpu_threshold: u32,
    fan_threshold: u32,
    any_fault: bool,
}

impl View for FaultTracker {
    type V = TrackerModel;

    closed spec fn view(&self) -> TrackerModel {
        TrackerModel {
            gpu_counts: self.gpu_counters@,
            fan_counts: self.fan_counters@,
            gpu_threshold: self.gpu_threshold,
            fan_threshold: self.fan_threshold,
            any_fault: self.any_fault,
        }
    }
}

fn zero_counters(ids: &[String]) -> (r: IdMap<u64>)
    ensures
        r@ == zero_counts(text::strings(ids@)),
{
    let ghost all = text::strings(ids@);
    let mut r: IdMap<u64> = IdMap::new();
    let mut i: usize = 0;
    while i < ids.len()
        invariant
            i <= ids.len(),
            all == text::strings(ids@),
            r@ == zero_counts(all.take(i as int)),
        decreases ids.len() - i,
    {
        assert(all.take(i + 1).drop_last() =~= all.take(i as int));
        assert(all.take(i + 1).last() == ids@[i as int]@);
        r.insert(ids[i].clone(), 0);
        i = i + 1;
    }
    assert(all.take(i as int) =~= all);
    r
}

fn count(counters: &IdMap<u64>, id: &str) -> (r: u64)
    ensures
        r == count_of(counters@, id@),
{
    match counters.get(id) {
        Some(n) => *n,
        None => 0,
    }
}

impl FaultTracker {
    /// A tracker with every counter at zero and no fault.
    pub fn new(
        gpu_ids: &[String],
        fan_ids: &[String],
        gpu_threshold: u32,
        fan_threshold: u32,
    ) -> (r: Self)
        ensures
            r@ == (TrackerModel {
                gpu_counts: zero_counts(text::strings(gpu_ids@)),
                fan_counts: zero_counts(text::strings(fan_ids@)),
                gpu_threshold,
                fan_threshold,
                any_fault: false,
            }),
            forall|id: Seq<char>| #[trigger] count_of(r@.gpu_counts, id) == 0,
            forall|id: Seq<char>| #[trigger] count_of(r@.fan_counts, id) == 0,
    {
        proof {
            lemma_zero_counts(text::strings(gpu_ids@));
            lemma_zero_counts(text::strings(fan_ids@));
        }
        FaultTracker {
            gpu_counters: zero_counters(gpu_ids),
            fan_counters: zero_counters(fan_ids),
            gpu_threshold,
            fan_threshold,
            any_fault: false,
        }
    }

    /// Takes note of a reading of a GPU. A bad reading advances its counter, a
    /// good one resets it. Declares `ThermalBlind` on each bad reading that leaves
    /// the counter above the threshold.
    pub fn tick_gpu(&mut self, gpu_id: &str, read_ok: bool) -> (r: Option<Fault>)
        ensures
            (final(self)@, declared(r)) == after_gpu_tick(old(self)@, gpu_id@, read_ok),
    {
        if read_ok {
            self.gpu_counters.insert(gpu_id.to_string(), 0);
            return None;
        }
        let counter: u64 = count(&self.gpu_counters, gpu_id).saturating_add(1);
        self.gpu_counters.insert(gpu_id.to_string(), counter);
        if counter > self.gpu_threshold as u64 {
            self.any_fault = true;
            return Some(Fault::ThermalBlind { gpu_id: gpu_id.to_string() });
        }
        None
    }

    /// Takes note of the health of a fan. `Healthy` resets its counter, `SpinUp` leaves
    /// it, `Stalled` and `Overspeed` advance it. Declares `FanHardware` on each
    /// advance that leaves the counter above the threshold.
    pub fn tick_fan(&mut self, fan_id: &str, health: FanHealth, last_rpm: u32) -> (r: Option<
        Fault,
    >)
        ensures
            (final(self)@, declared(r)) == after_fan_tick(old(self)@, fan_id@, health, last_rpm),
    {
        let before: u64 = count(&self.fan_counters, fan_id);
        let kind: FanFaultKind = match health {
            FanHealth::Healthy => {
                self.fan_counters.insert(fan_id.to_string(), 0);
                return None;
            },
            FanHealth::SpinUp => {
                self.fan_counters.insert(fan_id.to_string(), before);
                return None;
            },
            FanHealth::Stalled => FanFaultKind::Stalled,
            FanHealth::Overspeed => FanFaultKind::Overspeed,
        };
        let counter: u64 = before.saturating_add(1);
        self.fan_counters.insert(fan_id.to_string(), counter);
        if counter > self.fan_threshold as u64 {
            self.any_fault = true;
            return Some(Fault::FanHardware { fan_id: fan_id.to_string(), last_rpm, kind });
        }
        None
    }

    /// Whether any fault was ever declared.
    pub fn any_fault(&self) -> (r: bool)
        ensures
            r == self@.any_fault,
    {
        self.any_fault
    }
}

proof fn lemma_zero_counts(ids: Seq<Seq<char>>)
    ensures
        forall|id: Seq<char>| #[trigger] count_of(zero_counts(ids), id) == 0,
    decreases ids.len(),
{
    if ids.len() > 0 {
        lemma_zero_counts(ids.drop_last());
        assert forall|id: Seq<char>| #[trigger] count_of(zero_counts(ids), id) == 0 by {
            assert(count_of(zero_counts(ids.drop_last()), id) == 0);
        }
    }
}

/// The tracker after a run of readings of one GPU.
pub open spec fn after_gpu_ticks(m: TrackerModel, id: Seq<char>, reads: Seq<bool>) -> TrackerModel
    decreases reads.len(),
{
    if reads.len() == 0 {
        m
    } else {
        after_gpu_tick(after_gpu_ticks(m, id, reads.drop_last()), id, reads.last()).0
    }
}

/// The tracker after a run of looks at one fan.
pub open spec fn after_fan_ticks(
    m: TrackerModel,
    id: Seq<char>,
    looks: Seq<(FanHealth, u32)>,
) -> TrackerModel
    decreases looks.len(),
{
    if looks.len() == 0 {
        m
    } else {
        after_fan_tick(
            after_fan_ticks(m, id, looks.drop_last()),
            id,
            looks.last().0,
            looks.last().1,
        ).0
    }
}

/// A blind GPU is found out in time and not too early: from a counter at zero, a
/// fault is declared by the reading that makes `threshold + 1` bad ones in a row,
/// and by none before it.
pub proof fn thermal_blindness_needs_threshold_plus_one(
    m: TrackerModel,
    id: Seq<char>,
    reads: Seq<bool>,
)
    requires
        count_of(m.gpu_counts, id) == 0,
        forall|i: int| 0 <= i < reads.len() ==> !#[trigger] reads[i],
        reads.len() <= u64::MAX,
    ensures
        after_gpu_ticks(m, id, reads).any_fault == (m.any_fault || reads.len() > m.gpu_threshold),
        count_of(after_gpu_ticks(m, id, reads).gpu_counts, id) == reads.len(),
        after_gpu_ticks(m, id, reads).gpu_threshold == m.gpu_threshold,
    decreases reads.len(),
{
    if reads.len() > 0 {
        let front = reads.drop_last();
        assert forall|i: int| 0 <= i < front.len() implies !#[trigger] front[i] by {
            assert(!reads[i]);
        }
        thermal_blindness_needs_threshold_plus_one(m, id, front);
        assert(!reads[reads.len() - 1]);
    }
}

/// A broken fan is found out in time and not too early: from a counter at zero, a
/// fault is declared by the look that makes `threshold + 1` bad ones in a row, and
/// by none before it, where looks at a fan that spins up do not count.
pub proof fn fan_fault_needs_threshold_plus_one(
    m: TrackerModel,
    id: Seq<char>,
    looks: Seq<(FanHealth, u32)>,
)
    requires
        count_of(m.fan_counts, id) == 0,
        forall|i: int| 0 <= i < looks.len() ==> (#[trigger] looks[i]).0 != FanHealth::Healthy,
        looks.len() <= u64::MAX,
    ensures
        after_fan_ticks(m, id, looks).any_fault == (m.any_fault || bad_looks(looks)
            > m.fan_threshold),
        count_of(after_fan_ticks(m, id, looks).fan_counts, id) == bad_looks(looks),
        after_fan_ticks(m, id, looks).fan_threshold == m.fan_threshold,
        bad_looks(looks) <= looks.len(),
    decreases looks.len(),
{
    if looks.len() > 0 {
        let front = looks.drop_last();
        assert forall|i: int| 0 <= i < front.len() implies (#[trigger] front[i]).0
            != FanHealth::Healthy by {
            assert(looks[i].0 != FanHealth::Healthy);
        }
        fan_fault_needs_threshold_plus_one(m, id, front);
        assert(looks[looks.len() - 1].0 != FanHealth::Healthy);
    }
}

/// How many looks found the fan stalled or overspeeding.
pub open spec fn bad_looks(looks: Seq<(FanHealth, u32)>) -> nat
    decreases looks.len(),
{
    if looks.len() == 0 {
        0
    } else {
        bad_looks(looks.drop_last()) + if suspected(looks.last().0) is Some {
            1nat
        } else {
            0nat
        }
    }
}

/// The flag tells exactly whether a fault was declared: a step raises it if and only
/// if it declares one, and no step ever takes it back.
pub proof fn fault_is_latched(
    m: TrackerModel,
    id: Seq<char>,
    read_ok: bool,
    health: FanHealth,
    last_rpm: u32,
)
    ensures
        after_gpu_tick(m, id, read_ok).0.any_fault <==> m.any_fault || after_gpu_tick(
            m,
            id,
            read_ok,
        ).1 is Some,
        after_fan_tick(m, id, health, last_rpm).0.any_fault <==> m.any_fault || after_fan_tick(
            m,
            id,
            health,
            last_rpm,
        ).1 is Some,
{
}

/// The counters are independent: a reading of one GPU touches neither another GPU
/// nor any fan, and a look at one fan touches neither another fan nor any GPU.
pub proof fn counters_are_independent(
    m: TrackerModel,
    id: Seq<char>,
    other: Seq<char>,
    read_ok: bool,
    health: FanHealth,
    last_rpm: u32,
)
    ensures
        id != other ==> count_of(after_gpu_tick(m, id, read_ok).0.gpu_counts, other) == count_of(
            m.gpu_counts,
            other,
        ),
        after_gpu_tick(m, id, read_ok).0.fan_counts == m.fan_counts,
        id != other ==> count_of(after_fan_tick(m, id, health, last_rpm).0.fan_counts, other)
            == count_of(m.fan_counts, other),
        after_fan_tick(m, id, health, last_rpm).0.gpu_counts == m.gpu_counts,
{
}

/// One good reading or one healthy look wipes the slate: the counter is back at
/// zero.
pub proof fn recovery_resets_the_counter(m: TrackerModel, id: Seq<char>, last_rpm: u32)
    ensures
        count_of(after_gpu_tick(m, id, true).0.gpu_counts, id) == 0,
        after_gpu_tick(m, id, true).1 is None,
        count_of(after_fan_tick(m, id, FanHealth::Healthy, last_rpm).0.fan_counts, id) == 0,
        after_fan_tick(m, id, FanHealth::Healthy, last_rpm).1 is None,
{
}

/// A bad reading of a GPU counts one more, a good one starts over. A fault is declared
/// exactly by a bad reading that leaves more in a row than the threshold allows; it
/// names the GPU, and is remembered. Nothing else changes.
pub proof fn gpu_reading_counts_and_decides(m: TrackerModel, id: Seq<char>, read_ok: bool)
    ensures
        ({
            let (t, fault) = after_gpu_tick(m, id, read_ok);
            &&& t.gpu_counts.dom().contains(id)
            &&& read_ok ==> t.gpu_counts[id] == 0
            &&& !read_ok && !m.gpu_counts.dom().contains(id) ==> t.gpu_counts[id] == 1
            &&& !read_ok && m.gpu_counts.dom().contains(id) && m.gpu_counts[id] < u64::MAX
                ==> t.gpu_counts[id] == m.gpu_counts[id] + 1
            &&& !read_ok && m.gpu_counts.dom().contains(id) && m.gpu_counts[id] == u64::MAX
                ==> t.gpu_counts[id] == u64::MAX
            &&& fault is Some <==> !read_ok && t.gpu_counts[id] > m.gpu_threshold
            &&& fault is Some ==> fault == Some(FaultModel::ThermalBlind { gpu_id: id })
            &&& t.any_fault <==> m.any_fault || fault is Some
            &&& t.gpu_counts.remove(id) == m.gpu_counts.remove(id)
            &&& t.fan_counts == m.fan_counts
            &&& t.gpu_threshold == m.gpu_threshold
            &&& t.fan_threshold == m.fan_threshold
        }),
{
    assert(after_gpu_tick(m, id, read_ok).0.gpu_counts.remove(id) =~= m.gpu_counts.remove(id));
}

/// A stalled or overspeeding fan counts one more, a healthy one starts over, and one
/// that spins up stays where it was. A fault is declared exactly by a stalled or
/// overspeeding look that leaves more of them than the threshold allows; it names the
/// fan, its speed and which of the two it is, and is remembered. Nothing else changes.
pub proof fn fan_look_counts_and_decides(
    m: TrackerModel,
    id: Seq<char>,
    health: FanHealth,
    last_rpm: u32,
)
    ensures
        ({
            let (t, fault) = after_fan_tick(m, id, health, last_rpm);
            let bad = health == FanHealth::Stalled || health == FanHealth::Overspeed;
            let before = if m.fan_counts.dom().contains(id) {
                m.fan_counts[id]
            } else {
                0
            };
            &&& t.fan_counts.dom().contains(id)
            &&& health == FanHealth::Healthy ==> t.fan_counts[id] == 0
            &&& health == FanHealth::SpinUp ==> t.fan_counts[id] == before
            &&& bad && before < u64::MAX ==> t.fan_counts[id] == before + 1
            &&& bad && before == u64::MAX ==> t.fan_counts[id] == u64::MAX
            &&& fault is Some <==> bad && t.fan_counts[id] > m.fan_threshold
            &&& fault is Some && health == FanHealth::Stalled ==> fault == Some(
                FaultModel::FanHardware { fan_id: id, last_rpm, kind: FanFaultKind::Stalled },
            )
            &&& fault is Some && health == FanHealth::Overspeed ==> fault == Some(
                FaultModel::FanHardware { fan_id: id, last_rpm, kind: FanFaultKind::Overspeed },
            )
            &&& t.any_fault <==> m.any_fault || fault is Some
            &&& t.fan_counts.remove(id) == m.fan_counts.remove(id)
            &&& t.gpu_counts == m.gpu_counts
            &&& t.gpu_threshold == m.gpu_threshold
            &&& t.fan_threshold == m.fan_threshold
        }),
{
    assert(after_fan_tick(m, id, health, last_rpm).0.fan_counts.remove(id)
        =~= m.fan_counts.remove(id));
}

/// At the start there is a counter for each id and for nothing else, and it stands at
/// zero.
pub proof fn counters_start_at_zero(ids: Seq<Seq<char>>)
    ensures
        zero_counts(ids).dom() == ids.to_set(),
        forall|id: Seq<char>| #[trigger]
            zero_counts(ids).dom().contains(id) ==> zero_counts(ids)[id] == 0,
    decreases ids.len(),
{
    if ids.len() > 0 {
        let front = ids.drop_last();
        counters_start_at_zero(front);
        assert forall|id: Seq<char>| ids.to_set().contains(id) <==> front.to_set().insert(
            ids.last(),
        ).contains(id) by {
            if ids.contains(id) {
                let k = choose|k: int| 0 <= k < ids.len() && ids[k] == id;
                if k < front.len() {
                    assert(front[k] == id);
                }
            }
            if front.contains(id) {
                let k = choose|k: int| 0 <= k < front.len() && front[k] == id;
                assert(ids[k] == id);
            }
            assert(ids[ids.len() - 1] == ids.last());
        }
        assert(ids.to_set() =~= front.to_set().insert(ids.last()));
    } else {
        assert(zero_counts(ids).dom() =~= ids.to_set());
    }
}

// ---------------------------------------------------------------------------
// The hardware watchdog
// ---------------------------------------------------------------------------

/// Any byte feeds the device.
pub const FEED_BYTE: u8 = 0;

/// The letter `V` disarms the device.
pub const DISARM_BYTE: u8 = 0x56;

/// Why the watchdog cannot be used. The messages come from the system.
#[derive(Debug, Clone, PartialEq, Eq)]
pub enum WatchdogError {
    Open { path: String, source: String },
    SetTimeout(String),
    Feed(String),
    Disarm(String),
}

/// The meaning of a `WatchdogError`.
pub enum WatchdogFault {
    Open { path: Seq<char>, source: Seq<char> },
    SetTimeout(Seq<char>),
    Feed(Seq<char>),
    Disarm(Seq<char>),
}

impl View for WatchdogError {
    type V = WatchdogFault;

    open spec fn view(&self) -> WatchdogFault {
        match *self {
            WatchdogError::Open { path, source } => WatchdogFault::Open {
                path: path@,
                source: source@,
            },
            WatchdogError::SetTimeout(m) => WatchdogFault::SetTimeout(m@),
            WatchdogError::Feed(m) => WatchdogFault::Feed(m@),
            WatchdogError::Disarm(m) => WatchdogFault::Disarm(m@),
        }
    }
}

impl WatchdogFault {
    /// The message for the user. Where the device could not be opened, it names the
    /// device as `shown`.
    pub open spec fn text(self, shown: Seq<char>) -> Seq<char> {
        match self {
            WatchdogFault::Open { path, source } => "failed to open watchdog device "@ + shown
                + ": "@ + source,
            WatchdogFault::SetTimeout(m) => "WDIOC_SETTIMEOUT failed: "@ + m,
            WatchdogFault::Feed(m) => "failed to feed watchdog: "@ + m,
            WatchdogFault::Disarm(m) => "failed to disarm watchdog: "@ + m,
        }
    }
}

impl WatchdogError {
    /// The message for the user. `shown` is the path of the device as the system
    /// shows it, in quotes and with its odd characters escaped; it stands in the
    /// message where the device could not be opened.
    pub fn describe(&self, shown: &str) -> (r: String)
        ensures
            r@ == self@.text(shown@),
    {
        match self {
            WatchdogError::Open { path: _, source } => {
                let mut r: String = "failed to open watchdog device ".to_string();
                r.append(shown);
                r.append(": ");
                r.append(source.as_str());
                r
            },
            WatchdogError::SetTimeout(m) => {
                let mut r: String = "WDIOC_SETTIMEOUT failed: ".to_string();
                r.append(m.as_str());
                r
            },
            WatchdogError::Feed(m) => {
                let mut r: String = "failed to feed watchdog: ".to_string();
                r.append(m.as_str());
                r
            },
            WatchdogError::Disarm(m) => {
                let mut r: String = "failed to disarm watchdog: ".to_string();
                r.append(m.as_str());
                r
            },
        }
    }
}

/// How arming the device went: it could not be opened, it refused the timeout, or
/// it is armed and reported the timeout that it accepted.
#[derive(Debug, Clone, PartialEq, Eq)]
pub enum ArmOutcome {
    NotOpened(String),
    TimeoutRefused(String),
    Armed(i32),
}

enum WatchdogState {
    Enabled { accepted_timeout_s: u32 },
    Disabled,
}

/// The watchdog device: armed with an accepted timeout, or disabled. Its view is
/// the accepted timeout.
pub struct HardwareWatchdog {
    inner: WatchdogState,
}

impl View for HardwareWatchdog {
    type V = Option<u32>;

    closed spec fn view(&self) -> Option<u32> {
        match self.inner {
            WatchdogState::Enabled { accepted_timeout_s } => Some(accepted_timeout_s),
            WatchdogState::Disabled => None,
        }
    }
}

/// The 32 bits of `n`, read as an unsigned number.
pub open spec fn as_unsigned(n: i32) -> int {
    if n >= 0 {
        n as int
    } else {
        n + 0x1_0000_0000
    }
}

/// What a byte that was to be written came to, where an armed device is fed or
/// disarmed.
pub open spec fn outcome_text(written: Result<(), String>) -> Result<(), Seq<char>> {
    match written {
        Ok(()) => Ok(()),
        Err(m) => Err(m@),
    }
}

impl HardwareWatchdog {
    /// The number that the device is asked to set as its timeout.
    pub fn requested_timeout(timeout_s: u32) -> (r: i32)
        ensures
            r == units::as_signed(timeout_s),
    {
        units::signed_bits(timeout_s)
    }

    /// The watchdog after the attempt to open `device` and to set its timeout.
    pub fn open(device: &str, outcome: ArmOutcome) -> (r: Result<Self, WatchdogError>)
        ensures
            match outcome {
                ArmOutcome::NotOpened(m) => r matches Err(e) && e@ == (WatchdogFault::Open {
                    path: device@,
                    source: m@,
                }),
                ArmOutcome::TimeoutRefused(m) => r matches Err(e) && e@
                    == WatchdogFault::SetTimeout(m@),
                ArmOutcome::Armed(timeout) => r matches Ok(w) && w@ == Some(
                    as_unsigned(timeout) as u32,
                ),
            },
    {
        match outcome {
            ArmOutcome::NotOpened(source) => Err(
                WatchdogError::Open { path: device.to_string(), source },
            ),
            ArmOutcome::TimeoutRefused(m) => Err(WatchdogError::SetTimeout(m)),
            ArmOutcome::Armed(timeout) => {
                assert(timeout >= 0 ==> timeout as u32 == timeout) by (bit_vector);
                assert(timeout < 0 ==> timeout as u32 == timeout + 0x1_0000_0000) by (bit_vector);
                let accepted_timeout_s: u32 = #[verifier::truncate]
                (timeout as u32);
                Ok(HardwareWatchdog { inner: WatchdogState::Enabled { accepted_timeout_s } })
            },
        }
    }

    /// A watchdog that is not used.
    pub fn disabled() -> (r: Self)
        ensures
            r@ is None,
    {
        HardwareWatchdog { inner: WatchdogState::Disabled }
    }

    /// The byte that feeds the device; none where the watchdog is disabled.
    pub fn feed_byte(&self) -> (r: Option<u8>)
        ensures
            r == (if self@ is Some {
                Some(FEED_BYTE)
            } else {
                None
            }),
    {
        match self.inner {
            WatchdogState::Enabled { .. } => Some(FEED_BYTE),
            WatchdogState::Disabled => None,
        }
    }

    /// Feeds the watchdog, given what writing the feeding byte came to. Nothing is
    /// written to a disabled watchdog, and feeding it always succeeds.
    pub fn feed(&mut self, written: Result<(), String>) -> (r: Result<(), WatchdogError>)
        ensures
            final(self)@ == old(self)@,
            match outcome_text(written) {
                Ok(()) => r is Ok,
                Err(m) => if old(self)@ is Some {
                    r matches Err(e) && e@ == WatchdogFault::Feed(m)
                } else {
                    r is Ok
                },
            },
    {
        match self.inner {
            WatchdogState::Enabled { .. } => match written {
                Ok(()) => Ok(()),
                Err(m) => Err(WatchdogError::Feed(m)),
            },
            WatchdogState::Disabled => Ok(()),
        }
    }

    /// The byte that tells the device not to reboot when it is closed, to be
    /// written just before that; none where the watchdog is disabled.
    pub fn disarm_byte(&self) -> (r: Option<u8>)
        ensures
            r == (if self@ is Some {
                Some(DISARM_BYTE)
            } else {
                None
            }),
    {
        match self.inner {
            WatchdogState::Enabled { .. } => Some(DISARM_BYTE),
            WatchdogState::Disabled => None,
        }
    }

    /// Ends the use of the watchdog, given what writing the disarming byte came
    /// to. Ending a disabled watchdog always succeeds.
    pub fn disarm_and_close(self, written: Result<(), String>) -> (r: Result<(), WatchdogError>)
        ensures
            match outcome_text(written) {
                Ok(()) => r is Ok,
                Err(m) => if self@ is Some {
                    r matches Err(e) && e@ == WatchdogFault::Disarm(m)
                } else {
                    r is Ok
                },
            },
    {
        match self.inner {
            WatchdogState::Enabled { .. } => match written {
                Ok(()) => Ok(()),
                Err(m) => Err(WatchdogError::Disarm(m)),
            },
            WatchdogState::Disabled => Ok(()),
        }
    }

    /// The timeout that the device accepted; none where the watchdog is disabled.
    pub fn accepted_timeout_s(&self) -> (r: Option<u32>)
        ensures
            r == self@,
    {
        match self.inner {
            WatchdogState::Enabled { accepted_timeout_s } => Some(accepted_timeout_s),
            WatchdogState::Disabled => None,
        }
    }
}

/// A timeout that the device takes as it was asked comes back unchanged.
pub proof fn accepted_timeout_round_trip(timeout_s: u32)
    ensures
        as_unsigned(units::as_signed(timeout_s) as i32) == timeout_s,
{
}

/// Reading bits as an unsigned number changes it by a whole turn of 32 bits or not at
/// all, and gives a number of the unsigned range.
pub proof fn unsigned_bits_differ_by_a_turn(n: i32)
    ensures
        as_unsigned(n) == n || as_unsigned(n) == n + 0x1_0000_0000,
        0 <= as_unsigned(n) < 0x1_0000_0000,
{
}

/// The watchdog is fed with any byte but the one that disarms it, and only the letter
/// `V` disarms it.
pub proof fn feeding_never_disarms()
    ensures
        FEED_BYTE == 0,
        DISARM_BYTE == 'V' as u8,
        FEED_BYTE != DISARM_BYTE,
{
}

/// A fault and an error mean what their fields hold.
pub proof fn faults_mean_what_they_hold(
    id: String,
    last_rpm: u32,
    kind: FanFaultKind,
    m: String,
    f: Fault,
)
    ensures
        (Fault::ThermalBlind { gpu_id: id })@ == (FaultModel::ThermalBlind { gpu_id: id@ }),
        (Fault::FanHardware { fan_id: id, last_rpm, kind })@ == (FaultModel::FanHardware {
            fan_id: id@,
            last_rpm,
            kind,
        }),
        declared(None) is None,
        declared(Some(f)) == Some(f@),
        (WatchdogError::Open { path: id, source: m })@ == (WatchdogFault::Open {
            path: id@,
            source: m@,
        }),
        WatchdogError::SetTimeout(m)@ == WatchdogFault::SetTimeout(m@),
        WatchdogError::Feed(m)@ == WatchdogFault::Feed(m@),
        WatchdogError::Disarm(m)@ == WatchdogFault::Disarm(m@),
        outcome_text(Ok(())) == Ok::<(), Seq<char>>(()),
        outcome_text(Err(m)) == Err::<(), Seq<char>>(m@),
{
}

} // verus!
