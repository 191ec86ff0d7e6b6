//! The data behind a plot of a fit: the fitted line sampled at whole units.
use crate::model::LinearModel;
use crate::observation::{Observation, UNITS_PER_WHOLE};
use crate::ratio::Ratio;
use crate::sums::all_in_range;
use vstd::prelude::*;

verus! {

/// The fitted line's value at a whole-unit `x`.
#[derive(Clone, Copy, Debug, PartialEq, Eq, Structural)]
pub struct PredictionPoint {
    pub x: i32,
    pub prediction: Ratio,
}

/// The least x among the observations, in hundredths.
pub open spec fn min_x(s: Seq<Observation>) -> int
    decreases s.len(),
{
    if s.len() <= 1 {
        if s.len() == 0 {
            0
        } else {
            s[0].x as int
        }
    } else if s.last().x < min_x(s.drop_last()) {
        s.last().x as int
    } else {
        min_x(s.drop_last())
    }
}

/// The greatest x among the observations, in hundredths.
pub open spec fn max_x(s: Seq<Observation>) -> int
    decreases s.len(),
{
    if s.len() <= 1 {
        if s.len() == 0 {
            0
        } else {
            s[0].x as int
        }
    } else if s.last().x > max_x(s.drop_last()) {
        s.last().x as int
    } else {
        max_x(s.drop_last())
    }
}

/// The first whole unit sampled: one below the floor of the least x.
pub open spec fn series_start(s: Seq<Observation>) -> int {
    min_x(s) / 100 - 1
}

/// The last whole unit sampled: one above the ceiling of the greatest x.
pub open spec fn series_end(s: Seq<Observation>) -> int {
    -((-max_x(s)) / 100) + 1
}

proof fn lemma_extremes_in_range(s: Seq<Observation>)
    requires
        s.len() > 0,
        all_in_range(s),
    ensures
        -1_000_000 <= min_x(s) <= max_x(s) <= 1_000_000,
    decreases s.len(),
{
    if s.len() > 1 {
        let p = s.drop_last();
        assert forall|i: int| 0 <= i < p.len() implies #[trigger] p[i].in_range() by {
            assert(p[i] == s[i]);
        }
        lemma_extremes_in_range(p);
        assert(s[s.len() - 1].in_range());
    } else {
        assert(s[0].in_range());
    }
}

/// ⌊x / 100⌋ for x in hundredths.
fn floor_units(x: i32) -> (r: i32)
    requires
        -1_000_000 <= x <= 1_000_000,
    ensures
        r == x as int / 100,
{
    let shifted = (x as i64 + 100_000_000) as u64;
    let q = shifted / 100;
    proof {
        assert((x + 100_000_000) / 100 == x / 100 + 1_000_000);
    }
    (q as i64 - 1_000_000) as i32
}

/// The fitted line sampled at each whole unit from one below the least x (rounded down) to
/// one above the greatest x (rounded up), both ends included.
pub fn prediction_series(model: &LinearModel, observations: &[Observation]) -> (r: Vec<
    PredictionPoint,
>)
    requires
        model.wf(),
        observations@.len() > 0,
        all_in_range(observations@),
    ensures
        r@.len() == series_end(observations@) - series_start(observations@) + 1,
        forall|i: int|
            0 <= i < r@.len() ==> {
                &&& #[trigger] r@[i].x == series_start(observations@) + i
                &&& r@[i].prediction.wf()
                &&& model.is_prediction(100 * r@[i].x, r@[i].prediction)
            },
{
    let ghost s = observations@;
    let mut lo: i32 = observations[0].x;
    let mut hi: i32 = observations[0].x;
    let mut i: usize = 1;
    proof {
        lemma_extremes_in_range(s);
        assert(s.take(1) =~= seq![s[0]]);
    }
    while i < observations.len()
        invariant
            s == observations@,
            1 <= i <= s.len(),
            lo == min_x(s.take(i as int)),
            hi == max_x(s.take(i as int)),
        decreases s.len() - i,
    {
        let x = observations[i].x;
        proof {
            assert(s.take(i + 1).drop_last() =~= s.take(i as int));
        }
        if x < lo {
            lo = x;
        }
        if x > hi {
            hi = x;
        }
        i = i + 1;
    }
    proof {
        assert(s.take(s.len() as int) =~= s);
    }
    let start = floor_units(lo) - 1;
    let end = -floor_units(-hi) + 1;
    let mut points: Vec<PredictionPoint> = Vec::new();
    let mut x = start;
    while x <= end
        invariant
            model.wf(),
            start == series_start(s),
            end == series_end(s),
            -10_001 <= start <= x <= end + 1,
            end <= 10_001,
            points@.len() == x - start,
            forall|j: int|
                0 <= j < points@.len() ==> {
                    &&& #[trigger] points@[j].x == start + j
                    &&& points@[j].prediction.wf()
                    &&& model.is_prediction(100 * points@[j].x, points@[j].prediction)
                },
        decreases end + 1 - x,
    {
        let prediction = model.predict(x * UNITS_PER_WHOLE);
        points.push(PredictionPoint { x, prediction });
        x = x + 1;
    }
    points
}

} // verus!
