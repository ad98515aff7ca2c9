//! The fan curve of a GPU: a rising, piecewise linear function from temperature
//! to fan duty.
//!
//! A curve is built only from points that obey the rules G1 to G4. Whether the
//! points lie in a sensible range (G5, G6) is a question of the configuration.

use crate::text;
use crate::units::{Celsius, Pct};
use vstd::prelude::*;
use vstd::string::*;

verus! {

/// The fewest points of a curve.
pub const MIN_POINTS: usize = 2;

/// The most points of a curve.
pub const MAX_POINTS: usize = 10;

/// The rule that a list of points breaks first.
#[derive(Debug, Clone, Copy, PartialEq, Eq, Structural)]
#[allow(inconsistent_fields)]
pub enum CurveError {
    TooFewPoints(usize),
    TooManyPoints(usize),
    NotMonotonicTemp { prev: Celsius, next: Celsius },
    DuplicateTemp(Celsius),
    NotMonotonicPct { prev: Pct, next: Pct },
}

/// The points of a curve: two to ten, temperatures strictly ascending, duties
/// never falling.
pub open spec fn is_curve(pts: Seq<(Celsius, Pct)>) -> bool {
    &&& MIN_POINTS <= pts.len() <= MAX_POINTS
    &&& forall|i: int, j: int|
        0 <= i < j < pts.len() ==> pts[i].0.0 < pts[j].0.0 && pts[i].1.0 <= pts[j].1.0
}

/// What is wrong with two neighbouring points.
pub open spec fn step_fault(a: (Celsius, Pct), b: (Celsius, Pct)) -> Option<CurveError> {
    if a.0 == b.0 {
        Some(CurveError::DuplicateTemp(a.0))
    } else if b.0.0 < a.0.0 {
        Some(CurveError::NotMonotonicTemp { prev: a.0, next: b.0 })
    } else if b.1.0 < a.1.0 {
        Some(CurveError::NotMonotonicPct { prev: a.1, next: b.1 })
    } else {
        None
    }
}

/// The first fault between neighbours at position `i` or behind it.
pub open spec fn first_step_fault(pts: Seq<(Celsius, Pct)>, i: int) -> Option<CurveError>
    decreases pts.len() - i,
{
    if i + 1 >= pts.len() {
        None
    } else {
        match step_fault(pts[i], pts[i + 1]) {
            Some(e) => Some(e),
            None => first_step_fault(pts, i + 1),
        }
    }
}

/// What is wrong with a list of points: its length, else the first fault
/// between neighbours.
pub open spec fn curve_fault(pts: Seq<(Celsius, Pct)>) -> Option<CurveError> {
    if pts.len() < MIN_POINTS {
        Some(CurveError::TooFewPoints(pts.len() as usize))
    } else if pts.len() > MAX_POINTS {
        Some(CurveError::TooManyPoints(pts.len() as usize))
    } else {
        first_step_fault(pts, 0)
    }
}

/// The straight line through two points at temperature `t`, rounded down.
pub open spec fn line(a: (Celsius, Pct), b: (Celsius, Pct), t: int) -> int {
    a.1.0 + ((t - a.0.0) * (b.1.0 - a.1.0)) / (b.0.0 - a.0.0)
}

/// The value at `t` of the segments from position `i` on: the first segment
/// that reaches up to `t` decides, and the last point holds above them all.
pub open spec fn value_from(pts: Seq<(Celsius, Pct)>, i: int, t: int) -> int
    decreases pts.len() - i,
{
    if i + 1 >= pts.len() {
        pts.last().1.0 as int
    } else if t <= pts[i + 1].0.0 {
        line(pts[i], pts[i + 1], t)
    } else {
        value_from(pts, i + 1, t)
    }
}

/// The duty that the curve through `pts` asks for at temperature `t`.
pub open spec fn curve_value(pts: Seq<(Celsius, Pct)>, t: int) -> int {
    if t <= pts.first().0.0 {
        pts.first().1.0 as int
    } else if t >= pts.last().0.0 {
        pts.last().1.0 as int
    } else {
        value_from(pts, 0, t)
    }
}

/// A fan curve. Every value of this type holds points that obey G1 to G4.
#[derive(Debug, PartialEq, Eq)]
pub struct Curve {
    points: Vec<(Celsius, Pct)>,
}

impl View for Curve {
    type V = Seq<(Celsius, Pct)>;

    closed spec fn view(&self) -> Seq<(Celsius, Pct)> {
        self.points@
    }
}

impl Clone for Curve {
    fn clone(&self) -> (r: Self)
        ensures
            r@ == self@,
    {
        proof {
            use_type_invariant(self);
        }
        let mut points: Vec<(Celsius, Pct)> = Vec::new();
        let mut i: usize = 0;
        while i < self.points.len()
            invariant
                i <= self.points.len(),
                points@ == self.points@.take(i as int),
            decreases self.points.len() - i,
        {
            points.push(self.points[i]);
            assert(points@ =~= self.points@.take(i + 1));
            i = i + 1;
        }
        assert(points@ =~= self.points@);
        Curve { points }
    }
}

impl CurveError {
    /// The message that names the broken rule.
    pub open spec fn text(self) -> Seq<char> {
        match self {
            CurveError::TooFewPoints(n) => "curve must have at least 2 points (G1), got "@
                + text::decimal(n as nat),
            CurveError::TooManyPoints(n) => "curve must have at most 10 points (G1), got "@
                + text::decimal(n as nat),
            CurveError::NotMonotonicTemp { prev, next } =>
            "curve temperatures must be strictly ascending (G2): Celsius("@ + text::signed_decimal(
                prev.0 as int,
            ) + ") then Celsius("@ + text::signed_decimal(next.0 as int) + ")"@,
            CurveError::DuplicateTemp(t) =>
            "curve temperatures must be unique (G3): duplicate Celsius("@ + text::signed_decimal(
                t.0 as int,
            ) + ")"@,
            CurveError::NotMonotonicPct { prev, next } =>
            "curve percentages must be monotonic non-decreasing (G4): Pct("@ + text::decimal(
                prev.0 as nat,
            ) + ") then Pct("@ + text::decimal(next.0 as nat) + ")"@,
        }
    }

    /// The message that names the broken rule.
    pub fn describe(&self) -> (r: String)
        ensures
            r@ == self.text(),
    {
        match *self {
            CurveError::TooFewPoints(n) => {
                let mut r: String = "curve must have at least 2 points (G1), got ".to_string();
                r.append(text::decimal_text(n as u128).as_str());
                r
            },
            CurveError::TooManyPoints(n) => {
                let mut r: String = "curve must have at most 10 points (G1), got ".to_string();
                r.append(text::decimal_text(n as u128).as_str());
                r
            },
            CurveError::NotMonotonicTemp { prev, next } => {
                let mut r: String =
                    "curve temperatures must be strictly ascending (G2): Celsius(".to_string();
                r.append(text::signed_decimal_text(prev.0 as i32).as_str());
                r.append(") then Celsius(");
                r.append(text::signed_decimal_text(next.0 as i32).as_str());
                r.append(")");
                r
            },
            CurveError::DuplicateTemp(t) => {
                let mut r: String =
                    "curve temperatures must be unique (G3): duplicate Celsius(".to_string();
                r.append(text::signed_decimal_text(t.0 as i32).as_str());
                r.append(")");
                r
            },
            CurveError::NotMonotonicPct { prev, next } => {
                let mut r: String =
                    "curve percentages must be monotonic non-decreasing (G4): Pct(".to_string();
                r.append(text::decimal_text(prev.0 as u128).as_str());
                r.append(") then Pct(");
                r.append(text::decimal_text(next.0 as u128).as_str());
                r.append(")");
                r
            },
        }
    }
}

impl Curve {
    #[verifier::type_invariant]
    spec fn obeys_the_rules(self) -> bool {
        is_curve(self.points@)
    }

    /// Builds a curve, or names the first rule that the points break.
    pub fn new(points: Vec<(Celsius, Pct)>) -> (r: Result<Self, CurveError>)
        ensures
            match r {
                Ok(c) => c@ == points@ && is_curve(points@) && curve_fault(points@) is None,
                Err(e) => curve_fault(points@) == Some(e) && !is_curve(points@),
            },
    {
        proof {
            curve_rules_are_complete(points@);
        }
        if points.len() < MIN_POINTS {
            return Err(CurveError::TooFewPoints(points.len()));
        }
        if points.len() > MAX_POINTS {
            return Err(CurveError::TooManyPoints(points.len()));
        }
        let mut i: usize = 0;
        while i + 1 < points.len()
            invariant
                MIN_POINTS <= points.len() <= MAX_POINTS,
                i < points.len(),
                first_step_fault(points@, 0) == first_step_fault(points@, i as int),
                is_curve(points@) == (curve_fault(points@) is None),
            decreases points.len() - i,
        {
            let (prev_temp, prev_pct) = points[i];
            let (next_temp, next_pct) = points[i + 1];
            if prev_temp.0 == next_temp.0 {
                return Err(CurveError::DuplicateTemp(prev_temp));
            }
            if next_temp.0 < prev_temp.0 {
                return Err(CurveError::NotMonotonicTemp { prev: prev_temp, next: next_temp });
            }
            if next_pct.0 < prev_pct.0 {
                return Err(CurveError::NotMonotonicPct { prev: prev_pct, next: next_pct });
            }
            i = i + 1;
        }
        Ok(Curve { points })
    }

    /// The points, in ascending order of temperature.
    pub fn points(&self) -> (r: &[(Celsius, Pct)])
        ensures
            r@ == self@,
            is_curve(r@),
    {
        proof {
            use_type_invariant(self);
        }
        self.points.as_slice()
    }

    /// The duty at `temp`: linear interpolation between adjacent points,
    /// clamped at the edges.
    pub fn evaluate(&self, temp: Celsius) -> (r: Pct)
        ensures
            r.0 == curve_value(self@, temp.0 as int),
    {
        proof {
            use_type_invariant(self);
        }
        let n: usize = self.points.len();
        let first: (Celsius, Pct) = self.points[0];
        let last: (Celsius, Pct) = self.points[n - 1];
        if temp.0 <= first.0.0 {
            return first.1;
        }
        if temp.0 >= last.0.0 {
            return last.1;
        }
        let mut i: usize = 0;
        while i + 1 < n
            invariant
                n == self.points.len(),
                i < n,
                is_curve(self.points@),
                self.points@[i as int].0.0 <= temp.0,
                temp.0 < self.points@.last().0.0,
                value_from(self.points@, 0, temp.0 as int) == value_from(
                    self.points@,
                    i as int,
                    temp.0 as int,
                ),
                curve_value(self.points@, temp.0 as int) == value_from(
                    self.points@,
                    0,
                    temp.0 as int,
                ),
            decreases n - i,
        {
            let (t0, p0) = self.points[i];
            let (t1, p1) = self.points[i + 1];
            if temp.0 <= t1.0 {
                let span_t: u32 = (t1.0 as i32 - t0.0 as i32) as u32;
                let span_p: u32 = p1.0 as u32 - p0.0 as u32;
                let offset: u32 = (temp.0 as i32 - t0.0 as i32) as u32;
                proof {
                    lemma_line_bounds((t0, p0), (t1, p1), temp.0 as int);
                    assert(offset * span_p <= 0xffff * 0xff) by (nonlinear_arith)
                        requires
                            offset <= 0xffff,
                            span_p <= 0xff,
                    ;
                }
                let rise: u32 = (offset * span_p) / span_t;
                return Pct((p0.0 as u32 + rise) as u8);
            }
            i = i + 1;
        }
        last.1
    }
}

proof fn lemma_line_bounds(a: (Celsius, Pct), b: (Celsius, Pct), t: int)
    requires
        a.0.0 <= t <= b.0.0,
        a.0.0 < b.0.0,
        a.1.0 <= b.1.0,
    ensures
        a.1.0 <= line(a, b, t) <= b.1.0,
        t == a.0.0 ==> line(a, b, t) == a.1.0,
        t == b.0.0 ==> line(a, b, t) == b.1.0,
{
    let dt = b.0.0 - a.0.0;
    let dp = b.1.0 - a.1.0;
    let off = t - a.0.0;
    assert(0 <= (off * dp) / dt <= dp) by (nonlinear_arith)
        requires
            0 <= off <= dt,
            0 < dt,
            0 <= dp,
    ;
    assert(off == 0 ==> (off * dp) / dt == 0) by (nonlinear_arith)
        requires
            0 < dt,
    ;
    assert(off == dt ==> (off * dp) / dt == dp) by (nonlinear_arith)
        requires
            0 < dt,
    ;
}

proof fn lemma_line_rises(a: (Celsius, Pct), b: (Celsius, Pct), s: int, t: int)
    requires
        a.0.0 <= s <= t <= b.0.0,
        a.0.0 < b.0.0,
        a.1.0 <= b.1.0,
    ensures
        line(a, b, s) <= line(a, b, t),
{
    let dt = b.0.0 - a.0.0;
    let dp = b.1.0 - a.1.0;
    assert((s - a.0.0) * dp <= (t - a.0.0) * dp) by (nonlinear_arith)
        requires
            s <= t,
            0 <= dp,
    ;
    vstd::arithmetic::div_mod::lemma_div_is_ordered((s - a.0.0) * dp, (t - a.0.0) * dp, dt);
}

proof fn lemma_faultless_steps(pts: Seq<(Celsius, Pct)>, i: int)
    requires
        0 <= i,
    ensures
        first_step_fault(pts, i) is None <==> forall|k: int|
            i <= k < pts.len() - 1 ==> step_fault(#[trigger] pts[k], pts[k + 1]) is None,
    decreases pts.len() - i,
{
    if i + 1 < pts.len() {
        lemma_faultless_steps(pts, i + 1);
        if step_fault(pts[i], pts[i + 1]) is None && first_step_fault(pts, i + 1) is None {
            assert forall|k: int| i <= k < pts.len() - 1 implies step_fault(
                #[trigger] pts[k],
                pts[k + 1],
            ) is None by {
                if k > i {
                    assert(i + 1 <= k);
                }
            }
        }
    }
}

proof fn lemma_ascending_chain(pts: Seq<(Celsius, Pct)>, i: int, j: int)
    requires
        0 <= i < j < pts.len(),
        forall|k: int|
            0 <= k < pts.len() - 1 ==> (#[trigger] pts[k]).0.0 < pts[k + 1].0.0 && pts[k].1.0
                <= pts[k + 1].1.0,
    ensures
        pts[i].0.0 < pts[j].0.0,
        pts[i].1.0 <= pts[j].1.0,
    decreases j - i,
{
    assert(pts[j - 1].0.0 < pts[j - 1 + 1].0.0);
    if i < j - 1 {
        lemma_ascending_chain(pts, i, j - 1);
    }
}

/// Neighbours decide: where each point lies below its successor, each lies below
/// all that follow.
pub proof fn neighbours_decide(pts: Seq<(Celsius, Pct)>)
    requires
        MIN_POINTS <= pts.len() <= MAX_POINTS,
        forall|k: int|
            0 <= k < pts.len() - 1 ==> (#[trigger] pts[k]).0.0 < pts[k + 1].0.0 && pts[k].1.0
                <= pts[k + 1].1.0,
    ensures
        is_curve(pts),
{
    assert forall|i: int, j: int| 0 <= i < j < pts.len() implies pts[i].0.0 < pts[j].0.0
        && pts[i].1.0 <= pts[j].1.0 by {
        lemma_ascending_chain(pts, i, j);
    }
}

/// The rules that `Curve::new` tests are complete: it finds no fault exactly in
/// the lists of two to ten points whose temperatures all ascend strictly and
/// whose duties never fall.
pub proof fn curve_rules_are_complete(pts: Seq<(Celsius, Pct)>)
    ensures
        curve_fault(pts) is None <==> is_curve(pts),
{
    lemma_faultless_steps(pts, 0);
    if curve_fault(pts) is None {
        assert forall|k: int| 0 <= k < pts.len() - 1 implies (#[trigger] pts[k]).0.0 < pts[k
            + 1].0.0 && pts[k].1.0 <= pts[k + 1].1.0 by {
            assert(step_fault(pts[k], pts[k + 1]) is None);
        }
        neighbours_decide(pts);
    }
}

proof fn lemma_segment(pts: Seq<(Celsius, Pct)>, from: int, i: int, t: int)
    requires
        is_curve(pts),
        0 <= from <= i < pts.len() - 1,
        pts[i].0.0 < t <= pts[i + 1].0.0,
    ensures
        value_from(pts, from, t) == line(pts[i], pts[i + 1], t),
    decreases i - from,
{
    if from < i {
        lemma_segment(pts, from + 1, i, t);
    }
}

/// Between two adjacent points the curve is the straight line through them,
/// rounded down.
pub proof fn curve_is_piecewise_linear(pts: Seq<(Celsius, Pct)>, i: int, t: int)
    requires
        is_curve(pts),
        0 <= i < pts.len() - 1,
        pts[i].0.0 <= t <= pts[i + 1].0.0,
    ensures
        curve_value(pts, t) == line(pts[i], pts[i + 1], t),
{
    lemma_line_bounds(pts[i], pts[i + 1], t);
    if pts[i].0.0 < t {
        lemma_segment(pts, 0, i, t);
        if t >= pts.last().0.0 {
            assert(i + 1 == pts.len() - 1);
        }
    } else if i > 0 {
        lemma_line_bounds(pts[i - 1], pts[i], t);
        lemma_segment(pts, 0, i - 1, t);
    }
}

/// At a defined point the curve gives exactly the duty of that point.
pub proof fn curve_meets_its_points(pts: Seq<(Celsius, Pct)>, i: int)
    requires
        is_curve(pts),
        0 <= i < pts.len(),
    ensures
        curve_value(pts, pts[i].0.0 as int) == pts[i].1.0,
{
    if i + 1 < pts.len() {
        curve_is_piecewise_linear(pts, i, pts[i].0.0 as int);
        lemma_line_bounds(pts[i], pts[i + 1], pts[i].0.0 as int);
    }
}

proof fn lemma_find_segment(pts: Seq<(Celsius, Pct)>, from: int, t: int) -> (i: int)
    requires
        is_curve(pts),
        0 <= from < pts.len() - 1,
        pts[from].0.0 <= t < pts.last().0.0,
    ensures
        from <= i < pts.len() - 1,
        pts[i].0.0 <= t <= pts[i + 1].0.0,
    decreases pts.len() - from,
{
    if t <= pts[from + 1].0.0 {
        from
    } else {
        lemma_find_segment(pts, from + 1, t)
    }
}

/// The curve stays between the duty of its first point and that of its last:
/// it holds the first below the lowest temperature and the last above the
/// highest.
pub proof fn curve_is_bounded(pts: Seq<(Celsius, Pct)>, t: int)
    requires
        is_curve(pts),
    ensures
        pts.first().1.0 <= curve_value(pts, t) <= pts.last().1.0,
        t <= pts.first().0.0 ==> curve_value(pts, t) == pts.first().1.0,
        t >= pts.last().0.0 ==> curve_value(pts, t) == pts.last().1.0,
{
    if pts.first().0.0 < t < pts.last().0.0 {
        let i = lemma_find_segment(pts, 0, t);
        curve_is_piecewise_linear(pts, i, t);
        lemma_line_bounds(pts[i], pts[i + 1], t);
        assert(pts.first().1.0 <= pts[i].1.0);
        assert(pts[i + 1].1.0 <= pts.last().1.0);
    }
}

/// A hotter GPU never asks for less: the curve is monotonic non-decreasing.
pub proof fn curve_is_monotone(pts: Seq<(Celsius, Pct)>, s: int, t: int)
    requires
        is_curve(pts),
        s <= t,
    ensures
        curve_value(pts, s) <= curve_value(pts, t),
{
    curve_is_bounded(pts, s);
    curve_is_bounded(pts, t);
    if pts.first().0.0 < s && t < pts.last().0.0 {
        let i = lemma_find_segment(pts, 0, s);
        let j = lemma_find_segment(pts, 0, t);
        curve_is_piecewise_linear(pts, i, s);
        curve_is_piecewise_linear(pts, j, t);
        if i < j {
            lemma_line_bounds(pts[i], pts[i + 1], s);
            lemma_line_bounds(pts[j], pts[j + 1], t);
            assert(pts[i + 1].1.0 <= pts[j].1.0);
        } else if i == j {
            lemma_line_rises(pts[i], pts[i + 1], s, t);
        } else {
            // `s` then lies on the point that ends the segment of `t`.
            assert(pts[j + 1].0.0 <= pts[i].0.0);
            assert(s == t);
        }
    }
}

/// What the points of a curve are: two to ten of them, each at a higher temperature
/// than those before it and at no lower duty.
pub proof fn curve_points_ascend(pts: Seq<(Celsius, Pct)>)
    ensures
        is_curve(pts) <==> 2 <= pts.len() <= 10 && (forall|i: int, j: int|
            0 <= i < j < pts.len() ==> pts[i].0.0 < pts[j].0.0 && pts[i].1.0 <= pts[j].1.0),
        curve_fault(pts) is None <==> 2 <= pts.len() <= 10 && (forall|i: int, j: int|
            0 <= i < j < pts.len() ==> pts[i].0.0 < pts[j].0.0 && pts[i].1.0 <= pts[j].1.0),
{
    curve_rules_are_complete(pts);
}

proof fn lemma_first_step_fault(pts: Seq<(Celsius, Pct)>, from: int, k: int)
    requires
        0 <= from <= k < pts.len() - 1,
        forall|i: int|
            from <= i < k ==> (#[trigger] pts[i]).0.0 < pts[i + 1].0.0 && pts[i].1.0 <= pts[i
                + 1].1.0,
    ensures
        first_step_fault(pts, from) == first_step_fault(pts, k),
    decreases k - from,
{
    if from < k {
        assert(pts[from].0.0 < pts[from + 1].0.0);
        lemma_first_step_fault(pts, from + 1, k);
    }
}

/// A list of points of the wrong length is refused for its length. Any other is
/// refused for the first point that its successor does not lie beyond: for equal
/// temperatures, else for a falling temperature, else for a falling duty.
pub proof fn first_broken_point_is_named(pts: Seq<(Celsius, Pct)>, k: int)
    requires
        0 <= k,
        forall|i: int|
            0 <= i < k && i + 1 < pts.len() ==> (#[trigger] pts[i]).0.0 < pts[i + 1].0.0
                && pts[i].1.0 <= pts[i + 1].1.0,
    ensures
        pts.len() < 2 ==> curve_fault(pts) == Some(CurveError::TooFewPoints(pts.len() as usize)),
        10 < pts.len() <= usize::MAX ==> curve_fault(pts) == Some(
            CurveError::TooManyPoints(pts.len() as usize),
        ),
        2 <= pts.len() <= 10 && k + 1 < pts.len() ==> {
            &&& pts[k].0.0 == pts[k + 1].0.0 ==> curve_fault(pts) == Some(
                CurveError::DuplicateTemp(pts[k].0),
            )
            &&& pts[k].0.0 > pts[k + 1].0.0 ==> curve_fault(pts) == Some(
                CurveError::NotMonotonicTemp { prev: pts[k].0, next: pts[k + 1].0 },
            )
            &&& pts[k].0.0 < pts[k + 1].0.0 && pts[k].1.0 > pts[k + 1].1.0 ==> curve_fault(pts)
                == Some(CurveError::NotMonotonicPct { prev: pts[k].1, next: pts[k + 1].1 })
        },
{
    if 2 <= pts.len() <= 10 && k + 1 < pts.len() {
        lemma_first_step_fault(pts, 0, k);
    }
}

/// Between two adjacent points the duty is the greatest whole number that does not lie
/// above the straight line through them.
pub proof fn curve_lies_just_below_the_line(pts: Seq<(Celsius, Pct)>, i: int, t: int)
    requires
        2 <= pts.len() <= 10,
        forall|a: int, b: int|
            0 <= a < b < pts.len() ==> pts[a].0.0 < pts[b].0.0 && pts[a].1.0 <= pts[b].1.0,
        0 <= i < pts.len() - 1,
        pts[i].0.0 <= t <= pts[i + 1].0.0,
    ensures
        ({
            let (t0, p0) = (pts[i].0.0, pts[i].1.0);
            let (t1, p1) = (pts[i + 1].0.0, pts[i + 1].1.0);
            let r = curve_value(pts, t);
            (r - p0) * (t1 - t0) <= (t - t0) * (p1 - p0) < (r - p0 + 1) * (t1 - t0)
        }),
{
    curve_is_piecewise_linear(pts, i, t);
    let dt = pts[i + 1].0.0 - pts[i].0.0;
    let rise = (t - pts[i].0.0) * (pts[i + 1].1.0 - pts[i].1.0);
    assert(pts[i].0.0 < pts[i + 1].0.0);
    assert((rise / dt) * dt <= rise < (rise / dt + 1) * dt) by (nonlinear_arith)
        requires
            0 < dt,
    ;
}

/// Outside its points the curve holds the duty of the nearest one.
pub proof fn curve_holds_at_the_ends(pts: Seq<(Celsius, Pct)>, t: int)
    requires
        2 <= pts.len(),
        forall|a: int, b: int|
            0 <= a < b < pts.len() ==> pts[a].0.0 < pts[b].0.0 && pts[a].1.0 <= pts[b].1.0,
    ensures
        t <= pts[0].0.0 ==> curve_value(pts, t) == pts[0].1.0,
        pts[pts.len() - 1].0.0 <= t ==> curve_value(pts, t) == pts[pts.len() - 1].1.0,
{
}

/// A message names the rule that is broken and the values that break it.
pub proof fn messages_name_the_broken_rule(n: usize, s: Celsius, t: Celsius, p: Pct, q: Pct)
    ensures
        CurveError::TooFewPoints(n).text() == "curve must have at least 2 points (G1), got "@
            + text::signed_decimal(n as int),
        CurveError::TooManyPoints(n).text() == "curve must have at most 10 points (G1), got "@
            + text::signed_decimal(n as int),
        (CurveError::NotMonotonicTemp { prev: s, next: t }).text()
            == "curve temperatures must be strictly ascending (G2): Celsius("@
            + text::signed_decimal(s.0 as int) + ") then Celsius("@ + text::signed_decimal(
            t.0 as int,
        ) + ")"@,
        CurveError::DuplicateTemp(s).text()
            == "curve temperatures must be unique (G3): duplicate Celsius("@
            + text::signed_decimal(s.0 as int) + ")"@,
        (CurveError::NotMonotonicPct { prev: p, next: q }).text()
            == "curve percentages must be monotonic non-decreasing (G4): Pct("@
            + text::signed_decimal(p.0 as int) + ") then Pct("@ + text::signed_decimal(
            q.0 as int,
        ) + ")"@,
{
}

} // verus!
