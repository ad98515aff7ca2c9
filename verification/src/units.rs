//! Domain newtypes. A `Pwm` cannot be passed where a `Pct` is wanted, and
//! neither can be mistaken for a temperature.

use vstd::prelude::*;

verus! {

/// A temperature in degrees Celsius.
#[derive(Copy, Clone, Debug, PartialEq, Eq, PartialOrd, Ord, Hash, Structural)]
pub struct Celsius(pub i16);

/// A fan duty in percent.
#[derive(Copy, Clone, Debug, PartialEq, Eq, PartialOrd, Ord, Hash, Structural)]
pub struct Pct(pub u8);

/// A raw duty value as the kernel's `pwmN` file takes it.
#[derive(Copy, Clone, Debug, PartialEq, Eq, PartialOrd, Ord, Hash, Structural)]
pub struct Pwm(pub u8);

/// The scaled duty `pct * 255 / 100`, before it is cut to eight bits.
pub open spec fn scaled_duty(pct: Pct) -> nat {
    (pct.0 as nat * 255) / 100
}

/// The duty value that stands for a percentage. Percentages up to 100 scale to
/// `0..=255`; above 100 the low eight bits of the scaled value remain.
pub open spec fn pwm_of(pct: Pct) -> Pwm {
    Pwm((scaled_duty(pct) % 256) as u8)
}

/// `p` forced into the band `[min, max]`.
pub open spec fn clamp_pct(p: Pct, min: Pct, max: Pct) -> Pct {
    if p.0 < min.0 {
        min
    } else if p.0 > max.0 {
        max
    } else {
        p
    }
}

/// The 32 bits of `n`, read as a signed number.
pub open spec fn as_signed(n: u32) -> int {
    if n < 0x8000_0000 {
        n as int
    } else {
        n - 0x1_0000_0000
    }
}

/// Reads the 32 bits of `n` as a signed number.
pub fn signed_bits(n: u32) -> (r: i32)
    ensures
        r == as_signed(n),
{
    assert(n < 0x8000_0000u32 ==> n as i32 == n) by (bit_vector);
    assert(n >= 0x8000_0000u32 ==> n as i32 == n - 0x1_0000_0000) by (bit_vector);
    #[verifier::truncate]
    (n as i32)
}

impl From<Pct> for Pwm {
    fn from(pct: Pct) -> (pwm: Self) {
        let scaled: u16 = pct.0 as u16 * 255 / 100;
        assert(scaled as u8 == scaled % 256) by (bit_vector);
        Pwm(#[verifier::truncate] (scaled as u8))
    }
}

impl vstd::std_specs::convert::FromSpecImpl<Pct> for Pwm {
    open spec fn obeys_from_spec() -> bool {
        true
    }

    open spec fn from_spec(pct: Pct) -> Pwm {
        pwm_of(pct)
    }
}

impl Pct {
    /// Clamps the value to `[min, max]`.
    ///
    /// An empty band (`min > max`) is the caller's error: the validated
    /// configuration never holds one.
    pub fn clamp(self, min: Pct, max: Pct) -> (r: Pct)
        requires
            min.0 <= max.0,
        ensures
            r == clamp_pct(self, min, max),
    {
        if self.0 < min.0 {
            min
        } else if self.0 > max.0 {
            max
        } else {
            self
        }
    }
}

/// No duty is 0, full duty is 255, and a larger percentage never gives a
/// smaller duty value.
pub proof fn pwm_scale_is_monotone(a: Pct, b: Pct)
    requires
        a.0 <= b.0 <= 100,
    ensures
        pwm_of(Pct(0)) == Pwm(0),
        pwm_of(Pct(100)) == Pwm(255),
        pwm_of(a).0 <= pwm_of(b).0,
        pwm_of(a).0 as nat == scaled_duty(a),
{
}

/// A clamped value lies in its band, a value of the band is left alone, and
/// clamping again changes nothing.
pub proof fn clamp_keeps_band(p: Pct, min: Pct, max: Pct)
    requires
        min.0 <= max.0,
    ensures
        min.0 <= clamp_pct(p, min, max).0 <= max.0,
        min.0 <= p.0 <= max.0 ==> clamp_pct(p, min, max) == p,
        clamp_pct(clamp_pct(p, min, max), min, max) == clamp_pct(p, min, max),
{
}

/// A duty value is the percentage on the scale of 255 to 100, rounded down. Above 100
/// percent the scale has run over once or twice, and what is left of it remains.
pub proof fn pwm_is_the_scaled_percentage(pct: Pct)
    ensures
        pct.0 <= 100 ==> pwm_of(pct).0 * 100 <= pct.0 * 255 < (pwm_of(pct).0 + 1) * 100,
        100 < pct.0 <= 200 ==> (pwm_of(pct).0 + 256) * 100 <= pct.0 * 255 < (pwm_of(pct).0 + 257)
            * 100,
        200 < pct.0 ==> (pwm_of(pct).0 + 512) * 100 <= pct.0 * 255 < (pwm_of(pct).0 + 513) * 100,
{
}

/// A value of the band is left alone, one below the band becomes its floor, and one
/// above it becomes its ceiling.
pub proof fn clamp_goes_to_the_nearest(p: Pct, min: Pct, max: Pct)
    requires
        min.0 <= max.0,
    ensures
        min.0 <= p.0 <= max.0 ==> clamp_pct(p, min, max).0 == p.0,
        p.0 < min.0 ==> clamp_pct(p, min, max).0 == min.0,
        max.0 < p.0 ==> clamp_pct(p, min, max).0 == max.0,
{
}

/// Reading bits as a signed number changes it by a whole turn of 32 bits or not at
/// all, and gives a number of the signed range.
pub proof fn signed_bits_differ_by_a_turn(n: u32)
    ensures
        as_signed(n) == n || as_signed(n) == n - 0x1_0000_0000,
        -0x8000_0000 <= as_signed(n) < 0x8000_0000,
{
}

} // verus!
