//! A fixed example dataset.
use crate::model::fit_accepts;
use crate::observation::Observation;
use crate::sums::all_x_equal;
use vstd::prelude::*;

verus! {

/// The measured points of the ball drop experiment, in hundredths of a brick.
pub open spec fn ball_drop_data() -> Seq<Observation> {
    seq![
        Observation { x: 1000, y: 750 },
        Observation { x: 1000, y: 750 },
        Observation { x: 1000, y: 700 },
        Observation { x: 1200, y: 1000 },
        Observation { x: 1200, y: 1000 },
        Observation { x: 1200, y: 975 },
        Observation { x: 1400, y: 1100 },
        Observation { x: 1400, y: 1100 },
        Observation { x: 1400, y: 1050 },
        Observation { x: 1600, y: 1275 },
        Observation { x: 1600, y: 1300 },
        Observation { x: 1600, y: 1300 },
        Observation { x: 1800, y: 1475 },
        Observation { x: 1800, y: 1400 },
        Observation { x: 1800, y: 1450 },
        Observation { x: 2000, y: 1525 },
        Observation { x: 2000, y: 1550 },
        Observation { x: 2000, y: 1600 },
    ]
}

/// Bounce heights of a rubber ball dropped from heights of 10 to 20 bricks, three drops from
/// each height (10, 12, ..., 20 bricks in turn); both coordinates are in hundredths of a brick.
pub fn physics_ball_drop_experiment() -> (r: Vec<Observation>)
    ensures
        r@ == ball_drop_data(),
        r@.len() == 18,
        forall|i: int| 0 <= i < 18 ==> #[trigger] r@[i].x == 1000 + 200 * (i / 3),
        fit_accepts(r@),
        !all_x_equal(r@),
{
    let mut v: Vec<Observation> = Vec::new();
    v.push(Observation::new(1000, 750));
    v.push(Observation::new(1000, 750));
    v.push(Observation::new(1000, 700));
    v.push(Observation::new(1200, 1000));
    v.push(Observation::new(1200, 1000));
    v.push(Observation::new(1200, 975));
    v.push(Observation::new(1400, 1100));
    v.push(Observation::new(1400, 1100));
    v.push(Observation::new(1400, 1050));
    v.push(Observation::new(1600, 1275));
    v.push(Observation::new(1600, 1300));
    v.push(Observation::new(1600, 1300));
    v.push(Observation::new(1800, 1475));
    v.push(Observation::new(1800, 1400));
    v.push(Observation::new(1800, 1450));
    v.push(Observation::new(2000, 1525));
    v.push(Observation::new(2000, 1550));
    v.push(Observation::new(2000, 1600));
    proof {
        assert(v@[0].x != v@[3].x);
        assert(v@ =~= ball_drop_data());
    }
    v
}

} // verus!
