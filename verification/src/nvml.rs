//! What readings of the NVIDIA management library mean: temperatures within
//! bounds, power limits in watts, and the errors in between.
//!
//! A temperature below the lower bound is an error and no cold GPU: a driver that
//! reports zero must not let the fans idle.

use crate::text;
use crate::units::Celsius;
use crate::units;
use std::collections::HashMap;
use vstd::prelude::*;
use vstd::string::*;

verus! {

broadcast use vstd::std_specs::hash::group_hash_axioms;

/// The lowest temperature that is believed.
pub const SANITY_MIN_C: i32 = 5;

/// The highest temperature that is believed.
pub const SANITY_MAX_C: i32 = 110;

/// Why a reading or a setting failed. The causes are messages of the library.
#[derive(Debug, Clone, PartialEq, Eq)]
pub enum NvmlError {
    Init(String),
    IndexOutOfRange(u32, u32),
    ReadFailed { idx: u32, cause: String },
    OutOfBounds { idx: u32, temp: i32 },
    SetFailed { idx: u32, cause: String },
}

/// The meaning of an `NvmlError`.
pub enum NvmlFault {
    Init(Seq<char>),
    IndexOutOfRange(u32, u32),
    ReadFailed { idx: u32, cause: Seq<char> },
    OutOfBounds { idx: u32, temp: i32 },
    SetFailed { idx: u32, cause: Seq<char> },
}

impl View for NvmlError {
    type V = NvmlFault;

    open spec fn view(&self) -> NvmlFault {
        match *self {
            NvmlError::Init(m) => NvmlFault::Init(m@),
            NvmlError::IndexOutOfRange(idx, count) => NvmlFault::IndexOutOfRange(idx, count),
            NvmlError::ReadFailed { idx, cause } => NvmlFault::ReadFailed { idx, cause: cause@ },
            NvmlError::OutOfBounds { idx, temp } => NvmlFault::OutOfBounds { idx, temp },
            NvmlError::SetFailed { idx, cause } => NvmlFault::SetFailed { idx, cause: cause@ },
        }
    }
}

impl NvmlFault {
    /// The message for the user.
    pub open spec fn text(self) -> Seq<char> {
        match self {
            NvmlFault::Init(m) => "NVML init failed: "@ + m,
            NvmlFault::IndexOutOfRange(idx, count) => "GPU index "@ + text::decimal(idx as nat)
                + " not present (device count = "@ + text::decimal(count as nat) + ")"@,
            NvmlFault::ReadFailed { idx, cause } => "NVML temperature read failed for index "@
                + text::decimal(idx as nat) + ": "@ + cause,
            NvmlFault::OutOfBounds { idx, temp } => "GPU index "@ + text::decimal(idx as nat)
                + ": temperature "@ + text::signed_decimal(temp as int)
                + "°C is outside sanity bounds [5, 110]"@,
            NvmlFault::SetFailed { idx, cause } =>
                "NVML set_power_management_limit failed for index "@ + text::decimal(idx as nat)
                + ": "@ + cause,
        }
    }
}

impl NvmlError {
    /// The message for the user.
    pub fn describe(&self) -> (r: String)
        ensures
            r@ == self@.text(),
    {
        match self {
            NvmlError::Init(m) => {
                let mut r: String = "NVML init failed: ".to_string();
                r.append(m.as_str());
                r
            },
            NvmlError::IndexOutOfRange(idx, count) => {
                let mut r: String = "GPU index ".to_string();
                r.append(text::decimal_text(*idx as u128).as_str());
                r.append(" not present (device count = ");
                r.append(text::decimal_text(*count as u128).as_str());
                r.append(")");
                r
            },
            NvmlError::ReadFailed { idx, cause } => {
                let mut r: String = "NVML temperature read failed for index ".to_string();
                r.append(text::decimal_text(*idx as u128).as_str());
                r.append(": ");
                r.append(cause.as_str());
                r
            },
            NvmlError::OutOfBounds { idx, temp } => {
                let mut r: String = "GPU index ".to_string();
                r.append(text::decimal_text(*idx as u128).as_str());
                r.append(": temperature ");
                r.append(text::signed_decimal_text(*temp).as_str());
                r.append("°C is outside sanity bounds [5, 110]");
                r
            },
            NvmlError::SetFailed { idx, cause } => {
                let mut r: String = "NVML set_power_management_limit failed for index ".to_string();
                r.append(text::decimal_text(*idx as u128).as_str());
                r.append(": ");
                r.append(cause.as_str());
                r
            },
        }
    }
}

/// The outcome of an operation, with the meaning of its error in place of the
/// error.
pub open spec fn outcome<T>(r: Result<T, NvmlError>) -> Result<T, NvmlFault> {
    match r {
        Ok(v) => Ok(v),
        Err(e) => Err(e@),
    }
}

/// What the library answered: a value, or the message of the error.
pub open spec fn answer<T>(r: Result<T, String>) -> Result<T, Seq<char>> {
    match r {
        Ok(v) => Ok(v),
        Err(m) => Err(m@),
    }
}

/// Whether a temperature is believed.
pub open spec fn is_sane(temp: int) -> bool {
    SANITY_MIN_C <= temp <= SANITY_MAX_C
}

/// A temperature, if it is believed.
pub open spec fn bounded(idx: u32, temp: i32) -> Result<Celsius, NvmlFault> {
    if is_sane(temp as int) {
        Ok(Celsius(temp as i16))
    } else {
        Err(NvmlFault::OutOfBounds { idx, temp })
    }
}

/// Lets through only temperatures that are believed.
pub fn check_bounds(idx: u32, temp: i32) -> (r: Result<Celsius, NvmlError>)
    ensures
        outcome(r) == bounded(idx, temp),
{
    if temp < SANITY_MIN_C || temp > SANITY_MAX_C {
        return Err(NvmlError::OutOfBounds { idx, temp });
    }
    Ok(Celsius(temp as i16))
}

/// What the daemon needs from the management library.
pub trait NvmlOps {
    /// The temperature of a GPU, never one that is not believed.
    fn read_temp(&mut self, idx: u32) -> (r: Result<Celsius, NvmlError>)
        ensures
            r matches Ok(t) ==> is_sane(t.0 as int),
    ;

    /// The power limit of a GPU, in watts.
    fn read_power_limit_w(&self, idx: u32) -> (r: Result<u32, NvmlError>);

    /// The smallest and the largest power limit that a GPU takes, in watts.
    fn power_limit_constraints_w(&self, idx: u32) -> (r: Result<(u32, u32), NvmlError>);

    /// Sets the power limit of a GPU, in watts.
    fn set_power_limit_w(&mut self, idx: u32, watts: u32) -> (r: Result<(), NvmlError>);
}

// ---------------------------------------------------------------------------
// The library as it is installed
// ---------------------------------------------------------------------------

/// How starting the library went: it could not be loaded, it could not count its
/// devices, or it has so many.
#[derive(Debug, Clone, PartialEq, Eq)]
pub enum NvmlStart {
    NotLoaded(String),
    NotCounted(String),
    Devices(u32),
}

/// The GPUs that were asked for at the start. Its operations say what an answer of
/// the library means; an index that was not asked for is refused.
pub struct NvmlReader {
    indices: Vec<u32>,
}

impl View for NvmlReader {
    type V = Set<u32>;

    closed spec fn view(&self) -> Set<u32> {
        self.indices@.to_set()
    }
}

/// The first index that is no device.
pub open spec fn first_missing(indices: Seq<u32>, count: u32) -> Option<u32>
    decreases indices.len(),
{
    if indices.len() == 0 {
        None
    } else if indices.first() >= count {
        Some(indices.first())
    } else {
        first_missing(indices.drop_first(), count)
    }
}

/// The message about an index that was not asked for.
pub open spec fn unregistered(idx: u32) -> Seq<char> {
    "index "@ + text::decimal(idx as nat) + " was not registered at init"@
}

/// The meaning of an answer for a registered index; others are not even asked for.
pub open spec fn read_of<T>(registered: Set<u32>, idx: u32, a: Result<T, Seq<char>>) -> Result<
    T,
    NvmlFault,
> {
    if !registered.contains(idx) {
        Err(NvmlFault::ReadFailed { idx, cause: unregistered(idx) })
    } else {
        match a {
            Ok(v) => Ok(v),
            Err(cause) => Err(NvmlFault::ReadFailed { idx, cause }),
        }
    }
}

/// Watts in milliwatts, or the largest number where they exceed it.
pub open spec fn milliwatts_of(watts: u32) -> u32 {
    if watts * 1000 > u32::MAX {
        u32::MAX
    } else {
        (watts * 1000) as u32
    }
}

fn unregistered_text(idx: u32) -> (r: String)
    ensures
        r@ == unregistered(idx),
{
    let mut r: String = "index ".to_string();
    r.append(text::decimal_text(idx as u128).as_str());
    r.append(" was not registered at init");
    r
}

impl NvmlReader {
    /// Starts with the GPUs `indices`, given how starting the library went. Every
    /// one of them must be there.
    pub fn init(indices: &[u32], start: NvmlStart) -> (r: Result<Self, NvmlError>)
        ensures
            match start {
                NvmlStart::NotLoaded(m) => r matches Err(e) && e@ == NvmlFault::Init(m@),
                NvmlStart::NotCounted(m) => r matches Err(e) && e@ == NvmlFault::Init(
                    "device_count: "@ + m@,
                ),
                NvmlStart::Devices(count) => match first_missing(indices@, count) {
                    Some(idx) => r matches Err(e) && e@ == NvmlFault::IndexOutOfRange(idx, count),
                    None => r matches Ok(v) && v@ == indices@.to_set(),
                },
            },
    {
        let count: u32 = match start {
            NvmlStart::NotLoaded(m) => return Err(NvmlError::Init(m)),
            NvmlStart::NotCounted(m) => {
                let mut cause: String = "device_count: ".to_string();
                cause.append(m.as_str());
                return Err(NvmlError::Init(cause));
            },
            NvmlStart::Devices(count) => count,
        };
        let mut registered: Vec<u32> = Vec::new();
        let mut i: usize = 0;
        assert(indices@.skip(0) =~= indices@);
        while i < indices.len()
            invariant
                start == NvmlStart::Devices(count),
                i <= indices.len(),
                registered@ == indices@.take(i as int),
                first_missing(indices@, count) == first_missing(indices@.skip(i as int), count),
            decreases indices.len() - i,
        {
            assert(indices@.skip(i as int).drop_first() =~= indices@.skip(i + 1));
            if indices[i] >= count {
                return Err(NvmlError::IndexOutOfRange(indices[i], count));
            }
            registered.push(indices[i]);
            assert(registered@ =~= indices@.take(i + 1));
            i = i + 1;
        }
        assert(registered@ =~= indices@);
        Ok(NvmlReader { indices: registered })
    }

    /// Whether a GPU was asked for at the start. Only then is the library asked
    /// about it.
    pub fn is_registered(&self, idx: u32) -> (r: bool)
        ensures
            r == self@.contains(idx),
    {
        let mut i: usize = 0;
        while i < self.indices.len()
            invariant
                i <= self.indices.len(),
                forall|k: int| 0 <= k < i ==> self.indices@[k] != idx,
            decreases self.indices.len() - i,
        {
            if self.indices[i] == idx {
                assert(self.indices@.contains(idx));
                return true;
            }
            i = i + 1;
        }
        assert(!self.indices@.contains(idx));
        false
    }

    /// The temperature of a GPU, given what the library answered.
    pub fn read_temp(&self, idx: u32, raw: Result<u32, String>) -> (r: Result<Celsius, NvmlError>)
        ensures
            outcome(r) == (match read_of(self@, idx, answer(raw)) {
                Err(e) => Err(e),
                Ok(v) => bounded(idx, units::as_signed(v) as i32),
            }),
            r matches Ok(t) ==> is_sane(t.0 as int),
    {
        if !self.is_registered(idx) {
            return Err(NvmlError::ReadFailed { idx, cause: unregistered_text(idx) });
        }
        match raw {
            Err(cause) => Err(NvmlError::ReadFailed { idx, cause }),
            Ok(v) => check_bounds(idx, units::signed_bits(v)),
        }
    }

    /// The power limit of a GPU in watts, given the library's answer in milliwatts.
    pub fn read_power_limit_w(&self, idx: u32, milliwatts: Result<u32, String>) -> (r: Result<
        u32,
        NvmlError,
    >)
        ensures
            outcome(r) == (match read_of(self@, idx, answer(milliwatts)) {
                Err(e) => Err(e),
                Ok(mw) => Ok(mw / 1000),
            }),
    {
        if !self.is_registered(idx) {
            return Err(NvmlError::ReadFailed { idx, cause: unregistered_text(idx) });
        }
        match milliwatts {
            Err(cause) => Err(NvmlError::ReadFailed { idx, cause }),
            Ok(mw) => Ok(mw / 1000),
        }
    }

    /// The power limit that a GPU has by default, in watts, given the library's
    /// answer in milliwatts.
    pub fn read_power_limit_default_w(&self, idx: u32, milliwatts: Result<u32, String>) -> (r:
        Result<u32, NvmlError>)
        ensures
            outcome(r) == (match read_of(self@, idx, answer(milliwatts)) {
                Err(e) => Err(e),
                Ok(mw) => Ok(mw / 1000),
            }),
    {
        self.read_power_limit_w(idx, milliwatts)
    }

    /// The smallest and the largest power limit of a GPU in watts, given the
    /// library's answer in milliwatts.
    pub fn power_limit_constraints_w(
        &self,
        idx: u32,
        milliwatts: Result<(u32, u32), String>,
    ) -> (r: Result<(u32, u32), NvmlError>)
        ensures
            outcome(r) == (match read_of(self@, idx, answer(milliwatts)) {
                Err(e) => Err(e),
                Ok((min, max)) => Ok((min / 1000, max / 1000)),
            }),
    {
        if !self.is_registered(idx) {
            return Err(NvmlError::ReadFailed { idx, cause: unregistered_text(idx) });
        }
        match milliwatts {
            Err(cause) => Err(NvmlError::ReadFailed { idx, cause }),
            Ok((min, max)) => Ok((min / 1000, max / 1000)),
        }
    }

    /// The limit in milliwatts that the library is asked to set.
    pub fn requested_milliwatts(watts: u32) -> (r: u32)
        ensures
            r == milliwatts_of(watts),
    {
        if watts > 4_294_967 {
            u32::MAX
        } else {
            watts * 1000
        }
    }

    /// Sets the power limit of a GPU, given what the library answered.
    pub fn set_power_limit_w(&self, idx: u32, done: Result<(), String>) -> (r: Result<
        (),
        NvmlError,
    >)
        ensures
            outcome(r) == (if !self@.contains(idx) {
                Err(NvmlFault::SetFailed { idx, cause: unregistered(idx) })
            } else {
                match answer(done) {
                    Ok(()) => Ok(()),
                    Err(cause) => Err(NvmlFault::SetFailed { idx, cause }),
                }
            }),
    {
        if !self.is_registered(idx) {
            return Err(NvmlError::SetFailed { idx, cause: unregistered_text(idx) });
        }
        match done {
            Err(cause) => Err(NvmlError::SetFailed { idx, cause }),
            Ok(()) => Ok(()),
        }
    }
}

// ---------------------------------------------------------------------------
// A stand-in
// ---------------------------------------------------------------------------

/// A stand-in for the library, with fixed temperatures and with failures on
/// demand.
pub struct FakeNvml {
    pub temps: HashMap<u32, Celsius>,
    pub power_limits_w: HashMap<u32, u32>,
    pub constraints_w: HashMap<u32, (u32, u32)>,
    pub fail_after: Option<u32>,
    pub power_read_fails: bool,
    pub power_set_fails: bool,
    /// How many temperature readings were counted towards `fail_after`.
    pub reads: u32,
}

impl FakeNvml {
    /// A stand-in that never fails.
    pub fn new(temps: HashMap<u32, Celsius>) -> (r: Self)
        ensures
            r.temps == temps,
            r.power_limits_w@ == Map::<u32, u32>::empty(),
            r.constraints_w@ == Map::<u32, (u32, u32)>::empty(),
            r.fail_after is None,
            !r.power_read_fails,
            !r.power_set_fails,
            r.reads == 0,
    {
        FakeNvml {
            temps,
            power_limits_w: HashMap::new(),
            constraints_w: HashMap::new(),
            fail_after: None,
            power_read_fails: false,
            power_set_fails: false,
            reads: 0,
        }
    }

    /// A stand-in whose temperature readings fail after so many of them.
    pub fn with_fail_after(temps: HashMap<u32, Celsius>, fail_after: u32) -> (r: Self)
        ensures
            r.temps == temps,
            r.power_limits_w@ == Map::<u32, u32>::empty(),
            r.constraints_w@ == Map::<u32, (u32, u32)>::empty(),
            r.fail_after == Some(fail_after),
            !r.power_read_fails,
            !r.power_set_fails,
            r.reads == 0,
    {
        let mut r: FakeNvml = FakeNvml::new(temps);
        r.fail_after = Some(fail_after);
        r
    }

    /// The stand-in with a power limit and its bounds for one GPU.
    pub fn with_power(self, idx: u32, current_w: u32, min_w: u32, max_w: u32) -> (r: Self)
        ensures
            r.temps == self.temps,
            r.power_limits_w@ == self.power_limits_w@.insert(idx, current_w),
            r.constraints_w@ == self.constraints_w@.insert(idx, (min_w, max_w)),
            r.fail_after == self.fail_after,
            r.power_read_fails == self.power_read_fails,
            r.power_set_fails == self.power_set_fails,
            r.reads == self.reads,
    {
        let mut r: FakeNvml = self;
        r.power_limits_w.insert(idx, current_w);
        r.constraints_w.insert(idx, (min_w, max_w));
        r
    }

    /// Changes a power limit behind the daemon's back.
    pub fn external_drift(&mut self, idx: u32, new_w: u32)
        ensures
            final(self).power_limits_w@ == old(self).power_limits_w@.insert(idx, new_w),
            final(self).temps == old(self).temps,
            final(self).constraints_w == old(self).constraints_w,
            final(self).fail_after == old(self).fail_after,
            final(self).power_read_fails == old(self).power_read_fails,
            final(self).power_set_fails == old(self).power_set_fails,
            final(self).reads == old(self).reads,
    {
        self.power_limits_w.insert(idx, new_w);
    }
}

/// The value under a key, or an error with the given message.
pub open spec fn entry_of<T>(m: Map<u32, T>, idx: u32, cause: Seq<char>) -> Result<T, NvmlFault> {
    if m.dom().contains(idx) {
        Ok(m[idx])
    } else {
        Err(NvmlFault::ReadFailed { idx, cause })
    }
}

impl NvmlOps for FakeNvml {
    fn read_temp(&mut self, idx: u32) -> (r: Result<Celsius, NvmlError>)
        ensures
            final(self).temps == old(self).temps,
            final(self).power_limits_w == old(self).power_limits_w,
            final(self).constraints_w == old(self).constraints_w,
            final(self).fail_after == old(self).fail_after,
            final(self).power_read_fails == old(self).power_read_fails,
            final(self).power_set_fails == old(self).power_set_fails,
            match old(self).fail_after {
                Some(limit) if old(self).reads >= limit => final(self).reads
                    == old(self).reads && outcome(r) == Err::<Celsius, NvmlFault>(
                    NvmlFault::ReadFailed {
                        idx,
                        cause: "simulated failure after "@ + text::decimal(limit as nat)
                            + " successful reads"@,
                    },
                ),
                _ => final(self).reads == old(self).reads + (
                if old(self).fail_after is Some {
                    1int
                } else {
                    0int
                }) && outcome(r) == (match entry_of(
                    old(self).temps@,
                    idx,
                    "FakeNvml has no entry for index "@ + text::decimal(idx as nat),
                ) {
                    Err(e) => Err(e),
                    Ok(t) => bounded(idx, t.0 as i32),
                }),
            },
    {
        match self.fail_after {
            Some(limit) => {
                if self.reads >= limit {
                    let mut cause: String = "simulated failure after ".to_string();
                    cause.append(text::decimal_text(limit as u128).as_str());
                    cause.append(" successful reads");
                    return Err(NvmlError::ReadFailed { idx, cause });
                }
                self.reads = self.reads + 1;
            },
            None => {},
        }
        match self.temps.get(&idx) {
            Some(t) => check_bounds(idx, t.0 as i32),
            None => {
                let mut cause: String = "FakeNvml has no entry for index ".to_string();
                cause.append(text::decimal_text(idx as u128).as_str());
                Err(NvmlError::ReadFailed { idx, cause })
            },
        }
    }

    fn read_power_limit_w(&self, idx: u32) -> (r: Result<u32, NvmlError>)
        ensures
            outcome(r) == (if self.power_read_fails {
                Err(
                    NvmlFault::ReadFailed { idx, cause: "simulated power-limit read failure"@ },
                )
            } else {
                entry_of(
                    self.power_limits_w@,
                    idx,
                    "FakeNvml has no power-limit entry for index "@ + text::decimal(idx as nat),
                )
            }),
    {
        if self.power_read_fails {
            return Err(
                NvmlError::ReadFailed {
                    idx,
                    cause: "simulated power-limit read failure".to_string(),
                },
            );
        }
        match self.power_limits_w.get(&idx) {
            Some(w) => Ok(*w),
            None => {
                let mut cause: String = "FakeNvml has no power-limit entry for index ".to_string();
                cause.append(text::decimal_text(idx as u128).as_str());
                Err(NvmlError::ReadFailed { idx, cause })
            },
        }
    }

    fn power_limit_constraints_w(&self, idx: u32) -> (r: Result<(u32, u32), NvmlError>)
        ensures
            outcome(r) == entry_of(
                self.constraints_w@,
                idx,
                "FakeNvml has no constraints entry for index "@ + text::decimal(idx as nat),
            ),
    {
        match self.constraints_w.get(&idx) {
            Some(c) => Ok(*c),
            None => {
                let mut cause: String = "FakeNvml has no constraints entry for index ".to_string();
                cause.append(text::decimal_text(idx as u128).as_str());
                Err(NvmlError::ReadFailed { idx, cause })
            },
        }
    }

    fn set_power_limit_w(&mut self, idx: u32, watts: u32) -> (r: Result<(), NvmlError>)
        ensures
            final(self).temps == old(self).temps,
            final(self).constraints_w == old(self).constraints_w,
            final(self).fail_after == old(self).fail_after,
            final(self).power_read_fails == old(self).power_read_fails,
            final(self).power_set_fails == old(self).power_set_fails,
            final(self).reads == old(self).reads,
            if old(self).power_set_fails {
                final(self).power_limits_w == old(self).power_limits_w && outcome(r) == Err::<
                    (),
                    NvmlFault,
                >(
                    NvmlFault::SetFailed { idx, cause: "simulated power-limit set failure"@ },
                )
            } else {
                final(self).power_limits_w@ == old(self).power_limits_w@.insert(idx, watts) && r
                    is Ok
            },
    {
        if self.power_set_fails {
            return Err(
                NvmlError::SetFailed {
                    idx,
                    cause: "simulated power-limit set failure".to_string(),
                },
            );
        }
        self.power_limits_w.insert(idx, watts);
        Ok(())
    }
}

// ---------------------------------------------------------------------------
// Laws
// ---------------------------------------------------------------------------

/// Starting succeeds exactly where every GPU that is asked for is a device; where
/// one is not, the first such one is named.
pub proof fn init_needs_every_index(indices: Seq<u32>, count: u32)
    ensures
        first_missing(indices, count) is None <==> forall|i: int|
            0 <= i < indices.len() ==> #[trigger] indices[i] < count,
        first_missing(indices, count) matches Some(idx) ==> idx >= count && indices.contains(idx),
    decreases indices.len(),
{
    if indices.len() > 0 {
        let rest = indices.drop_first();
        init_needs_every_index(rest, count);
        if indices.first() < count {
            if first_missing(rest, count) is None {
                assert forall|i: int| 0 <= i < indices.len() implies #[trigger] indices[i] < count by {
                    if i > 0 {
                        assert(rest[i - 1] == indices[i]);
                    }
                }
            } else {
                let idx = first_missing(rest, count)->0;
                let i = choose|i: int| 0 <= i < rest.len() && rest[i] == idx;
                assert(indices[i + 1] == idx);
            }
        } else {
            assert(indices[0] == indices.first());
        }
    }
}

/// Every temperature that is let through is believed and is passed on unchanged;
/// zero, above all, never gets through.
pub proof fn only_sane_temperatures_pass(idx: u32, temp: i32)
    ensures
        bounded(idx, temp) matches Ok(t) ==> is_sane(temp as int) && t.0 == temp,
        bounded(idx, temp) is Ok <==> is_sane(temp as int),
        bounded(idx, 0) is Err,
{
}

/// A limit that was set is the limit that is read, and it stays until it is changed
/// from outside, which the next reading shows.
pub proof fn limit_reads_back(m: Map<u32, u32>, idx: u32, set_w: u32, drift_w: u32, cause: Seq<char>)
    ensures
        entry_of(m.insert(idx, set_w), idx, cause) == Ok::<u32, NvmlFault>(set_w),
        entry_of(m.insert(idx, set_w).insert(idx, drift_w), idx, cause) == Ok::<u32, NvmlFault>(
            drift_w,
        ),
{
}

/// Watts survive the way through the library's milliwatts, as far as these reach.
pub proof fn watts_survive_milliwatts(watts: u32)
    requires
        watts * 1000 <= u32::MAX,
    ensures
        milliwatts_of(watts) / 1000 == watts,
{
}

/// A temperature is believed from 5 to 110 degrees, and then passed on as it is; any other
/// is refused with its GPU and its value.
pub proof fn believed_temperatures_pass_unchanged(idx: u32, temp: i32)
    ensures
        5 <= temp <= 110 ==> bounded(idx, temp) is Ok && bounded(idx, temp)->Ok_0.0 == temp,
        temp < 5 || 110 < temp ==> bounded(idx, temp) == Err::<Celsius, NvmlFault>(
            NvmlFault::OutOfBounds { idx, temp },
        ),
        forall|t: int| is_sane(t) <==> 5 <= t <= 110,
{
}

/// The GPU that is named as missing is the first one that is no device.
pub proof fn first_missing_index_is_named(indices: Seq<u32>, count: u32, k: int)
    requires
        0 <= k < indices.len(),
        indices[k] >= count,
        forall|i: int| 0 <= i < k ==> #[trigger] indices[i] < count,
    ensures
        first_missing(indices, count) == Some(indices[k]),
    decreases k,
{
    if k > 0 {
        let rest = indices.drop_first();
        assert(indices[0] < count);
        assert forall|i: int| 0 <= i < k - 1 implies #[trigger] rest[i] < count by {
            assert(rest[i] == indices[i + 1]);
        }
        first_missing_index_is_named(rest, count, k - 1);
    }
}

/// The answer about a GPU that was asked for at the start is passed on, and a failure with
/// its message; any other GPU is refused, whatever the answer.
pub proof fn only_registered_gpus_are_read<T>(registered: Set<u32>, idx: u32, v: T, m: Seq<char>)
    ensures
        registered.contains(idx) ==> read_of(registered, idx, Ok(v)) == Ok::<T, NvmlFault>(v),
        registered.contains(idx) ==> read_of::<T>(registered, idx, Err(m)) == Err::<T, NvmlFault>(
            NvmlFault::ReadFailed { idx, cause: m },
        ),
        !registered.contains(idx) ==> read_of(registered, idx, Ok(v)) is Err && read_of::<T>(
            registered,
            idx,
            Err(m),
        ) == read_of(registered, idx, Ok(v)),
        !registered.contains(idx) ==> read_of(registered, idx, Ok(v)) == Err::<T, NvmlFault>(
            NvmlFault::ReadFailed {
                idx,
                cause: "index "@ + text::signed_decimal(idx as int)
                    + " was not registered at init"@,
            },
        ),
{
}

/// A limit is asked for in thousandths of a watt; one that these cannot hold becomes the
/// largest that they can.
pub proof fn watts_become_milliwatts(watts: u32)
    ensures
        watts <= 4_294_967 ==> milliwatts_of(watts) == 1000 * watts,
        watts > 4_294_967 ==> milliwatts_of(watts) == 0xffff_ffff,
{
}

/// What a map holds under a GPU is read, and nothing else; where it holds nothing, the
/// failure names the GPU and gives the cause.
pub proof fn entries_are_read_by_their_gpu<T>(m: Map<u32, T>, idx: u32, cause: Seq<char>)
    ensures
        m.dom().contains(idx) ==> entry_of(m, idx, cause) == Ok::<T, NvmlFault>(m[idx]),
        !m.dom().contains(idx) ==> entry_of(m, idx, cause) == Err::<T, NvmlFault>(
            NvmlFault::ReadFailed { idx, cause },
        ),
{
}

/// A message names the GPU and the cause, as far as there are any.
pub proof fn messages_name_gpu_and_cause(idx: u32, count: u32, temp: i32, cause: Seq<char>)
    ensures
        NvmlFault::Init(cause).text() == "NVML init failed: "@ + cause,
        NvmlFault::IndexOutOfRange(idx, count).text() == "GPU index "@ + text::signed_decimal(
            idx as int,
        ) + " not present (device count = "@ + text::signed_decimal(count as int) + ")"@,
        (NvmlFault::ReadFailed { idx, cause }).text() == "NVML temperature read failed for index "@
            + text::signed_decimal(idx as int) + ": "@ + cause,
        (NvmlFault::OutOfBounds { idx, temp }).text() == "GPU index "@ + text::signed_decimal(
            idx as int,
        ) + ": temperature "@ + text::signed_decimal(temp as int)
            + "°C is outside sanity bounds [5, 110]"@,
        (NvmlFault::SetFailed { idx, cause }).text()
            == "NVML set_power_management_limit failed for index "@ + text::signed_decimal(
            idx as int,
        ) + ": "@ + cause,
{
}

/// An error means what its fields hold, and an outcome is its value or the meaning of its
/// error.
pub proof fn nvml_errors_mean_what_they_hold<T>(
    idx: u32,
    count: u32,
    temp: i32,
    m: String,
    v: T,
    e: NvmlError,
)
    ensures
        NvmlError::Init(m)@ == NvmlFault::Init(m@),
        NvmlError::IndexOutOfRange(idx, count)@ == NvmlFault::IndexOutOfRange(idx, count),
        (NvmlError::ReadFailed { idx, cause: m })@ == (NvmlFault::ReadFailed { idx, cause: m@ }),
        (NvmlError::OutOfBounds { idx, temp })@ == (NvmlFault::OutOfBounds { idx, temp }),
        (NvmlError::SetFailed { idx, cause: m })@ == (NvmlFault::SetFailed { idx, cause: m@ }),
        outcome(Ok::<T, NvmlError>(v)) == Ok::<T, NvmlFault>(v),
        outcome(Err::<T, NvmlError>(e)) == Err::<T, NvmlFault>(e@),
        answer(Ok::<T, String>(v)) == Ok::<T, Seq<char>>(v),
        answer(Err::<T, String>(m)) == Err::<T, Seq<char>>(m@),
{
}

} // verus!
