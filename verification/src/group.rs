//! The target of a cooling group: the fans of a group follow its neediest GPU.
//!
//! Each GPU's wish is clamped to that GPU's own band before the maximum is
//! taken. So a floor lifts the whole group, and a ceiling caps only the wish of
//! the GPU that it belongs to.

use crate::config::{ConfigModel, GpuModel};
use crate::curve::Curve;
use crate::curve;
use crate::idmap::IdMap;
use crate::rules;
use crate::text;
use crate::units::{Celsius, Pct};
use crate::units;
use vstd::prelude::*;
use vstd::string::*;

verus! {

/// The id of a `[gpu:ID]` section.
pub type GpuId = String;

/// The id of a `[fan:ID]` section.
pub type FanId = String;

/// GPUs and the fans that cool them.
#[derive(Debug, Clone, PartialEq, Eq)]
pub struct CoolingGroup {
    pub id: String,
    pub gpus: Vec<GpuId>,
    pub fans: Vec<FanId>,
}

/// What the target of a group depends on in one GPU.
#[derive(Debug, Clone)]
pub struct GpuView<'a> {
    pub curve: &'a Curve,
    pub min_fan_pct: Pct,
    pub max_fan_pct: Pct,
}

/// Whether both a temperature and a view are known for a GPU.
pub open spec fn is_known<'a>(
    temps: Map<Seq<char>, Celsius>,
    gpus: Map<Seq<char>, GpuView<'a>>,
    id: Seq<char>,
) -> bool {
    temps.dom().contains(id) && gpus.dom().contains(id)
}

/// What a GPU asks for at a temperature, clamped to its band.
pub open spec fn bounded_wish<'a>(view: GpuView<'a>, temp: Celsius) -> nat {
    units::clamp_pct(
        Pct(curve::curve_value(view.curve@, temp.0 as int) as u8),
        view.min_fan_pct,
        view.max_fan_pct,
    ).0 as nat
}

/// What one GPU contributes to its group: nothing where it is not known.
pub open spec fn contribution<'a>(
    temps: Map<Seq<char>, Celsius>,
    gpus: Map<Seq<char>, GpuView<'a>>,
    id: Seq<char>,
) -> nat {
    if is_known(temps, gpus, id) {
        bounded_wish(gpus[id], temps[id])
    } else {
        0
    }
}

/// The greatest contribution among the GPUs `ids`.
pub open spec fn target_of<'a>(
    ids: Seq<Seq<char>>,
    temps: Map<Seq<char>, Celsius>,
    gpus: Map<Seq<char>, GpuView<'a>>,
) -> nat
    decreases ids.len(),
{
    if ids.len() == 0 {
        0
    } else {
        let rest = target_of(ids.drop_last(), temps, gpus);
        let own = contribution(temps, gpus, ids.last());
        if own > rest {
            own
        } else {
            rest
        }
    }
}

/// Whether the bands of the known GPUs among `ids` are not empty.
pub open spec fn bands_are_sound<'a>(
    ids: Seq<Seq<char>>,
    temps: Map<Seq<char>, Celsius>,
    gpus: Map<Seq<char>, GpuView<'a>>,
) -> bool {
    forall|i: int|
        0 <= i < ids.len() && is_known(temps, gpus, #[trigger] ids[i])
            ==> gpus[ids[i]].min_fan_pct.0 <= gpus[ids[i]].max_fan_pct.0
}

/// The duty for the fans of a group: evaluate each GPU's curve at its
/// temperature, clamp to its band, and take the maximum.
///
/// A GPU without a temperature or without a view contributes nothing. A checked
/// configuration has no such GPU, and its bands are never empty.
pub fn target_pct<'a>(
    group: &CoolingGroup,
    temps: &IdMap<Celsius>,
    gpus: &IdMap<GpuView<'a>>,
) -> (r: Pct)
    requires
        bands_are_sound(text::strings(group.gpus@), temps@, gpus@),
    ensures
        r.0 == target_of(text::strings(group.gpus@), temps@, gpus@),
{
    let ghost ids = text::strings(group.gpus@);
    let mut target: Pct = Pct(0);
    let mut i: usize = 0;
    while i < group.gpus.len()
        invariant
            i <= group.gpus.len(),
            ids == text::strings(group.gpus@),
            bands_are_sound(ids, temps@, gpus@),
            target.0 == target_of(ids.take(i as int), temps@, gpus@),
        decreases group.gpus.len() - i,
    {
        let id: &str = group.gpus[i].as_str();
        assert(ids[i as int] == id@);
        assert(ids.take(i + 1).drop_last() =~= ids.take(i as int));
        if let Some(temp) = temps.get(id) {
            if let Some(view) = gpus.get(id) {
                let raw: Pct = view.curve.evaluate(*temp);
                let bounded: Pct = raw.clamp(view.min_fan_pct, view.max_fan_pct);
                if bounded.0 > target.0 {
                    target = bounded;
                }
            }
        }
        i = i + 1;
    }
    assert(ids.take(i as int) =~= ids);
    target
}

/// The target is the maximum: no GPU of the group asks for more, and one of them
/// asks for exactly this much unless nothing is asked for.
pub proof fn target_is_the_maximum<'a>(
    ids: Seq<Seq<char>>,
    temps: Map<Seq<char>, Celsius>,
    gpus: Map<Seq<char>, GpuView<'a>>,
)
    ensures
        forall|i: int|
            0 <= i < ids.len() ==> contribution(temps, gpus, #[trigger] ids[i]) <= target_of(
                ids,
                temps,
                gpus,
            ),
        target_of(ids, temps, gpus) == 0 || exists|i: int|
            0 <= i < ids.len() && contribution(temps, gpus, #[trigger] ids[i]) == target_of(
                ids,
                temps,
                gpus,
            ),
    decreases ids.len(),
{
    if ids.len() > 0 {
        let front = ids.drop_last();
        target_is_the_maximum(front, temps, gpus);
        assert forall|i: int| 0 <= i < ids.len() implies contribution(temps, gpus, #[trigger] ids[i])
            <= target_of(ids, temps, gpus) by {
            if i < front.len() {
                assert(front[i] == ids[i]);
            }
        }
        if contribution(temps, gpus, ids.last()) > target_of(front, temps, gpus) {
            assert(contribution(temps, gpus, ids[ids.len() - 1]) == target_of(ids, temps, gpus));
        } else if target_of(front, temps, gpus) != 0 {
            let i = choose|i: int|
                0 <= i < front.len() && contribution(temps, gpus, #[trigger] front[i]) == target_of(
                    front,
                    temps,
                    gpus,
                );
            assert(ids[i] == front[i]);
        }
    }
}

/// The floor of any known GPU is a floor for its whole group.
pub proof fn floor_lifts_the_group<'a>(
    ids: Seq<Seq<char>>,
    temps: Map<Seq<char>, Celsius>,
    gpus: Map<Seq<char>, GpuView<'a>>,
    i: int,
)
    requires
        bands_are_sound(ids, temps, gpus),
        0 <= i < ids.len(),
        is_known(temps, gpus, ids[i]),
    ensures
        gpus[ids[i]].min_fan_pct.0 <= target_of(ids, temps, gpus),
{
    target_is_the_maximum(ids, temps, gpus);
    assert(contribution(temps, gpus, ids[i]) >= gpus[ids[i]].min_fan_pct.0);
}

/// A ceiling caps the wish of its own GPU and no other: the wish of a GPU never
/// exceeds its ceiling, and what the rest of the group asks for still counts in
/// full.
pub proof fn ceiling_caps_only_its_gpu<'a>(
    ids: Seq<Seq<char>>,
    temps: Map<Seq<char>, Celsius>,
    gpus: Map<Seq<char>, GpuView<'a>>,
    i: int,
    j: int,
)
    requires
        bands_are_sound(ids, temps, gpus),
        0 <= i < ids.len(),
        0 <= j < ids.len(),
        is_known(temps, gpus, ids[i]),
    ensures
        contribution(temps, gpus, ids[i]) <= gpus[ids[i]].max_fan_pct.0,
        contribution(temps, gpus, ids[j]) <= target_of(ids, temps, gpus),
{
    target_is_the_maximum(ids, temps, gpus);
}

/// Where every band ends at 100 or below, so does the target.
pub proof fn target_is_a_percentage<'a>(
    ids: Seq<Seq<char>>,
    temps: Map<Seq<char>, Celsius>,
    gpus: Map<Seq<char>, GpuView<'a>>,
)
    requires
        bands_are_sound(ids, temps, gpus),
        forall|i: int|
            0 <= i < ids.len() && is_known(temps, gpus, #[trigger] ids[i])
                ==> gpus[ids[i]].max_fan_pct.0 <= 100,
    ensures
        target_of(ids, temps, gpus) <= 100,
{
    target_is_the_maximum(ids, temps, gpus);
    if target_of(ids, temps, gpus) != 0 {
        let i = choose|i: int|
            0 <= i < ids.len() && contribution(temps, gpus, #[trigger] ids[i]) == target_of(
                ids,
                temps,
                gpus,
            );
        assert(is_known(temps, gpus, ids[i]));
    }
}

/// The target depends on the members alone, not on their order or number: a
/// group that names at least the same GPUs never gets less.
pub proof fn target_grows_with_members<'a>(
    fewer: Seq<Seq<char>>,
    more: Seq<Seq<char>>,
    temps: Map<Seq<char>, Celsius>,
    gpus: Map<Seq<char>, GpuView<'a>>,
)
    requires
        forall|i: int| 0 <= i < fewer.len() ==> more.contains(#[trigger] fewer[i]),
    ensures
        target_of(fewer, temps, gpus) <= target_of(more, temps, gpus),
{
    target_is_the_maximum(fewer, temps, gpus);
    target_is_the_maximum(more, temps, gpus);
    if target_of(fewer, temps, gpus) != 0 {
        let i = choose|i: int|
            0 <= i < fewer.len() && contribution(temps, gpus, #[trigger] fewer[i]) == target_of(
                fewer,
                temps,
                gpus,
            );
        let j = choose|j: int| 0 <= j < more.len() && more[j] == fewer[i];
        assert(contribution(temps, gpus, more[j]) <= target_of(more, temps, gpus));
    }
}

/// Heat never lowers the target: where no temperature falls and none goes
/// missing, the target does not fall.
pub proof fn target_rises_with_heat<'a>(
    ids: Seq<Seq<char>>,
    cool: Map<Seq<char>, Celsius>,
    hot: Map<Seq<char>, Celsius>,
    gpus: Map<Seq<char>, GpuView<'a>>,
)
    requires
        bands_are_sound(ids, cool, gpus),
        forall|id: Seq<char>| #[trigger]
            cool.dom().contains(id) ==> hot.dom().contains(id) && cool[id].0 <= hot[id].0,
        forall|id: Seq<char>| #[trigger]
            gpus.dom().contains(id) ==> curve::is_curve(gpus[id].curve@),
    ensures
        target_of(ids, cool, gpus) <= target_of(ids, hot, gpus),
{
    target_is_the_maximum(ids, cool, gpus);
    target_is_the_maximum(ids, hot, gpus);
    if target_of(ids, cool, gpus) != 0 {
        let i = choose|i: int|
            0 <= i < ids.len() && contribution(cool, gpus, #[trigger] ids[i]) == target_of(
                ids,
                cool,
                gpus,
            );
        let id = ids[i];
        assert(is_known(cool, gpus, id));
        let pts = gpus[id].curve@;
        curve::curve_is_monotone(pts, cool[id].0 as int, hot[id].0 as int);
        curve::curve_is_bounded(pts, cool[id].0 as int);
        curve::curve_is_bounded(pts, hot[id].0 as int);
        assert(contribution(cool, gpus, id) <= contribution(hot, gpus, id));
    }
}

/// Whether a view shows a GPU of the configuration.
pub open spec fn shows<'a>(view: GpuView<'a>, g: GpuModel) -> bool {
    &&& view.curve@ == g.curve
    &&& view.min_fan_pct == g.min_fan_pct
    &&& view.max_fan_pct == g.max_fan_pct
}

/// A configuration without violations is safe to run: for views of its GPUs, the
/// bands are never empty, the target is at most 100, its duty value is the scaled
/// percentage, and heat never lowers it.
pub proof fn valid_config_is_safe_to_run<'a>(
    c: ConfigModel,
    ids: Seq<Seq<char>>,
    cool: Map<Seq<char>, Celsius>,
    hot: Map<Seq<char>, Celsius>,
    gpus: Map<Seq<char>, GpuView<'a>>,
)
    requires
        rules::violations(c).len() == 0,
        forall|id: Seq<char>| #[trigger]
            gpus.dom().contains(id) ==> exists|i: int|
                0 <= i < c.gpus.len() && shows(gpus[id], #[trigger] c.gpus[i]),
        forall|id: Seq<char>| #[trigger]
            cool.dom().contains(id) ==> hot.dom().contains(id) && cool[id].0 <= hot[id].0,
    ensures
        bands_are_sound(ids, cool, gpus),
        target_of(ids, cool, gpus) <= 100,
        target_of(ids, cool, gpus) <= target_of(ids, hot, gpus),
        units::pwm_of(Pct(target_of(ids, cool, gpus) as u8)).0 == target_of(ids, cool, gpus) * 255
            / 100,
{
    rules::validation_is_exact(c);
    assert forall|id: Seq<char>| #[trigger] gpus.dom().contains(id) implies curve::is_curve(
        gpus[id].curve@,
    ) && gpus[id].min_fan_pct.0 <= gpus[id].max_fan_pct.0 <= 100 by {
        let i = choose|i: int| 0 <= i < c.gpus.len() && shows(gpus[id], #[trigger] c.gpus[i]);
        assert(rules::gpu_is_valid(c.gpus[i]));
    }
    target_is_a_percentage(ids, cool, gpus);
    target_rises_with_heat(ids, cool, hot, gpus);
}

/// A known GPU asks for what its curve gives where that lies in its band, for its
/// floor where the curve lies below the band, and for its ceiling where it lies above;
/// any other GPU asks for nothing.
pub proof fn gpu_asks_for_its_curve_in_its_band<'a>(
    temps: Map<Seq<char>, Celsius>,
    gpus: Map<Seq<char>, GpuView<'a>>,
    id: Seq<char>,
)
    requires
        gpus.dom().contains(id) ==> curve::is_curve(gpus[id].curve@),
        gpus.dom().contains(id) ==> gpus[id].min_fan_pct.0 <= gpus[id].max_fan_pct.0,
    ensures
        temps.dom().contains(id) && gpus.dom().contains(id) ==> ({
            let wish = curve::curve_value(gpus[id].curve@, temps[id].0 as int);
            let (min, max) = (gpus[id].min_fan_pct.0, gpus[id].max_fan_pct.0);
            &&& min <= wish <= max ==> contribution(temps, gpus, id) == wish
            &&& wish < min ==> contribution(temps, gpus, id) == min
            &&& max < wish ==> contribution(temps, gpus, id) == max
        }),
        !temps.dom().contains(id) || !gpus.dom().contains(id) ==> contribution(temps, gpus, id) == 0,
{
    if gpus.dom().contains(id) && temps.dom().contains(id) {
        curve::curve_is_bounded(gpus[id].curve@, temps[id].0 as int);
    }
}

/// The target is what the neediest GPU asks for. Every known GPU gets at least its
/// floor and, up to its ceiling, what its curve gives; and unless the target is zero,
/// it is exactly the curve, the floor or the ceiling of one known GPU whose curve
/// lies in, below or above its band.
pub proof fn target_serves_the_neediest_gpu<'a>(
    ids: Seq<Seq<char>>,
    temps: Map<Seq<char>, Celsius>,
    gpus: Map<Seq<char>, GpuView<'a>>,
)
    requires
        forall|id: Seq<char>| #[trigger]
            gpus.dom().contains(id) ==> curve::is_curve(gpus[id].curve@)
                && gpus[id].min_fan_pct.0 <= gpus[id].max_fan_pct.0,
    ensures
        forall|i: int|
            0 <= i < ids.len() && temps.dom().contains(#[trigger] ids[i]) && gpus.dom().contains(
                ids[i],
            ) ==> {
                let wish = curve::curve_value(gpus[ids[i]].curve@, temps[ids[i]].0 as int);
                let (min, max) = (gpus[ids[i]].min_fan_pct.0, gpus[ids[i]].max_fan_pct.0);
                &&& min <= target_of(ids, temps, gpus)
                &&& wish <= max ==> wish <= target_of(ids, temps, gpus)
                &&& max < wish ==> max <= target_of(ids, temps, gpus)
            },
        target_of(ids, temps, gpus) == 0 || exists|i: int|
            0 <= i < ids.len() && temps.dom().contains(#[trigger] ids[i]) && gpus.dom().contains(
                ids[i],
            ) && {
                let wish = curve::curve_value(gpus[ids[i]].curve@, temps[ids[i]].0 as int);
                let (min, max) = (gpus[ids[i]].min_fan_pct.0, gpus[ids[i]].max_fan_pct.0);
                ||| min <= wish <= max && target_of(ids, temps, gpus) == wish
                ||| wish < min && target_of(ids, temps, gpus) == min
                ||| max < wish && target_of(ids, temps, gpus) == max
            },
{
    target_is_the_maximum(ids, temps, gpus);
    assert forall|i: int|
        0 <= i < ids.len() && temps.dom().contains(#[trigger] ids[i]) && gpus.dom().contains(
            ids[i],
        ) implies {
        let wish = curve::curve_value(gpus[ids[i]].curve@, temps[ids[i]].0 as int);
        let (min, max) = (gpus[ids[i]].min_fan_pct.0, gpus[ids[i]].max_fan_pct.0);
        &&& min <= target_of(ids, temps, gpus)
        &&& wish <= max ==> wish <= target_of(ids, temps, gpus)
        &&& max < wish ==> max <= target_of(ids, temps, gpus)
    } by {
        gpu_asks_for_its_curve_in_its_band(temps, gpus, ids[i]);
        assert(contribution(temps, gpus, ids[i]) <= target_of(ids, temps, gpus));
    }
    if target_of(ids, temps, gpus) != 0 {
        let i = choose|i: int|
            0 <= i < ids.len() && contribution(temps, gpus, #[trigger] ids[i]) == target_of(
                ids,
                temps,
                gpus,
            );
        gpu_asks_for_its_curve_in_its_band(temps, gpus, ids[i]);
        assert(temps.dom().contains(ids[i]) && gpus.dom().contains(ids[i]));
    }
}

/// A group of one known GPU gets what the curve of that GPU gives, as far as the band
/// of the GPU lets it.
pub proof fn lone_gpu_gets_its_curve<'a>(
    id: Seq<char>,
    temps: Map<Seq<char>, Celsius>,
    gpus: Map<Seq<char>, GpuView<'a>>,
)
    requires
        temps.dom().contains(id),
        gpus.dom().contains(id),
        curve::is_curve(gpus[id].curve@),
        gpus[id].min_fan_pct.0 <= gpus[id].max_fan_pct.0,
    ensures
        ({
            let wish = curve::curve_value(gpus[id].curve@, temps[id].0 as int);
            let (min, max) = (gpus[id].min_fan_pct.0, gpus[id].max_fan_pct.0);
            &&& min <= wish <= max ==> target_of(seq![id], temps, gpus) == wish
            &&& wish < min ==> target_of(seq![id], temps, gpus) == min
            &&& max < wish ==> target_of(seq![id], temps, gpus) == max
        }),
{
    gpu_asks_for_its_curve_in_its_band(temps, gpus, id);
    assert(seq![id].drop_last() =~= Seq::<Seq<char>>::empty());
    assert(target_of(Seq::<Seq<char>>::empty(), temps, gpus) == 0);
}

/// A target can be asked for exactly where no known GPU of the group has an empty band.
pub proof fn only_empty_bands_are_unsound<'a>(
    ids: Seq<Seq<char>>,
    temps: Map<Seq<char>, Celsius>,
    gpus: Map<Seq<char>, GpuView<'a>>,
)
    ensures
        !bands_are_sound(ids, temps, gpus) <==> exists|i: int|
            0 <= i < ids.len() && temps.dom().contains(#[trigger] ids[i]) && gpus.dom().contains(
                ids[i],
            ) && gpus[ids[i]].min_fan_pct.0 > gpus[ids[i]].max_fan_pct.0,
{
}

} // verus!
