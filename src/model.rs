//! The least-squares fit and the model it produces.
use crate::arith::{lemma_mul_abs_bound, lemma_square_nonneg};
use crate::observation::{Observation, MAX_OBSERVATIONS, UNITS_PER_WHOLE};
use crate::ratio::Ratio;
use crate::sums::{
    all_in_range, all_x_equal, lemma_spreads_nonneg, lemma_sum_bounds,
    lemma_sxx_zero_iff_all_x_equal, sum_x, sum_xx, sum_xy, sum_y, sum_yy, sxx, sxy, syy,
};
use vstd::prelude::*;

verus! {

/// Why a set of observations admits no fit.
#[derive(Clone, Copy, Debug, PartialEq, Eq, Structural)]
pub enum FitError {
    /// There are no observations.
    InvalidInput,
    /// Every observation has the same x, so the slope is undefined.
    DegenerateFit,
    /// Too many observations, or a coordinate beyond the accepted magnitude.
    OutOfRange,
}

/// The fitted line `y = beta·x + alpha` with the statistics of the fit, all exact.
/// Sums and averages are in whole units (the observations' hundredths divided out).
#[derive(Clone, Copy, Debug, PartialEq, Eq)]
pub struct LinearModel {
    pub alpha: Ratio,
    pub beta: Ratio,
    /// The number of observations used.
    pub count: usize,
    pub sum_of_x: Ratio,
    pub average_of_x: Ratio,
    pub sum_of_y: Ratio,
    pub average_of_y: Ratio,
    /// The mean of the squared residuals; the RMSE is its square root.
    pub mean_square_error: Ratio,
    /// R², or `None` where every y is the same and the total sum of squares is zero.
    pub coefficient_of_determination: Option<Ratio>,
}

/// Bound on the slope's numerator of any fit, 2·(2048·10⁶)².
pub const SLOPE_NUMERATOR_BOUND: i128 = 8_388_608_000_000_000_000;

/// Bound on the intercept's numerator of any fit, 3·(2048·10⁶)³.
pub const INTERCEPT_NUMERATOR_BOUND: i128 = 25_769_803_776_000_000_000_000_000_000;

impl LinearModel {
    /// The shape of every model that a fit produces: the intercept shares the slope's
    /// denominator, scaled by the units and the count, and the numerators are bounded.
    pub open spec fn wf(self) -> bool {
        &&& 0 < self.count <= MAX_OBSERVATIONS
        &&& self.beta.denominator > 0
        &&& self.alpha.denominator == UNITS_PER_WHOLE * (self.count * self.beta.denominator)
        &&& -SLOPE_NUMERATOR_BOUND <= self.beta.numerator <= SLOPE_NUMERATOR_BOUND
        &&& -INTERCEPT_NUMERATOR_BOUND <= self.alpha.numerator <= INTERCEPT_NUMERATOR_BOUND
    }

    /// Whether this model has the shape that `predict` and the prediction series need.
    pub fn is_well_formed(&self) -> (r: bool)
        ensures
            r == self.wf(),
    {
        if !(0 < self.count && self.count <= MAX_OBSERVATIONS && self.beta.denominator > 0
            && -SLOPE_NUMERATOR_BOUND <= self.beta.numerator
            && self.beta.numerator <= SLOPE_NUMERATOR_BOUND
            && -INTERCEPT_NUMERATOR_BOUND <= self.alpha.numerator
            && self.alpha.numerator <= INTERCEPT_NUMERATOR_BOUND) {
            return false;
        }
        let scale = UNITS_PER_WHOLE as i128 * self.count as i128;
        match scale.checked_mul(self.beta.denominator) {
            Some(d) => {
                proof {
                    assert(d == UNITS_PER_WHOLE * (self.count * self.beta.denominator))
                        by (nonlinear_arith)
                        requires
                            d == scale * self.beta.denominator,
                            scale == UNITS_PER_WHOLE * self.count,
                    ;
                }
                self.alpha.denominator == d
            },
            None => {
                proof {
                    assert(UNITS_PER_WHOLE * (self.count * self.beta.denominator) == scale
                        * self.beta.denominator) by (nonlinear_arith)
                        requires
                            scale == UNITS_PER_WHOLE * self.count,
                    ;
                }
                false
            },
        }
    }

    /// `r` stands for beta·(x / 100) + alpha, with x in hundredths.
    pub open spec fn is_prediction(self, x: int, r: Ratio) -> bool {
        r.stands_for(
            self.beta.numerator * x * self.alpha.denominator + UNITS_PER_WHOLE
                * self.alpha.numerator * self.beta.denominator,
            UNITS_PER_WHOLE * self.beta.denominator * self.alpha.denominator,
        )
    }

    /// The value of the fitted line at `x`, given in hundredths.
    pub fn predict(&self, x: i32) -> (r: Ratio)
        requires
            self.wf(),
        ensures
            r.wf(),
            self.is_prediction(x as int, r),
    {
        let count = self.count as i128;
        let slope = self.beta.numerator;
        let ghost big_n: int = 2048;
        proof {
            lemma_mul_abs_bound(slope as int, count as int, SLOPE_NUMERATOR_BOUND as int, big_n);
            lemma_mul_abs_bound(
                slope * count,
                x as int,
                SLOPE_NUMERATOR_BOUND * big_n,
                0x8000_0000,
            );
        }
        let numerator = slope * count * (x as i128) + self.alpha.numerator;
        proof {
            let u = UNITS_PER_WHOLE as int;
            let bd = self.beta.denominator as int;
            let ad = self.alpha.denominator as int;
            let an = self.alpha.numerator as int;
            let n = count as int;
            let xi = x as int;
            assert(ad > 0) by (nonlinear_arith)
                requires
                    ad == u * (n * bd),
                    u == 100,
                    n > 0,
                    bd > 0,
            ;
            let sn = slope * n * xi;
            assert(slope * xi * ad == u * bd * sn) by (nonlinear_arith)
                requires
                    ad == u * (n * bd),
                    sn == slope * n * xi,
            ;
            assert(u * an * bd + u * bd * sn == u * bd * (sn + an)) by (nonlinear_arith);
            assert((u * bd * numerator) * ad == numerator * (u * bd * ad)) by (nonlinear_arith);
        }
        let r = Ratio::new(numerator, self.alpha.denominator);
        r
    }
}

/// The observations are many enough and few enough, and each lies in range.
pub open spec fn fit_accepts(s: Seq<Observation>) -> bool {
    0 < s.len() <= MAX_OBSERVATIONS && all_in_range(s)
}

/// The least-squares model of the observations, with n = count, U = 100 hundredths per unit:
/// beta = sxy / sxx, alpha = (Σy·sxx − sxy·Σx) / (U·n·sxx),
/// mean square error = (sxx·syy − sxy²) / (U²·n²·sxx), R² = sxy² / (sxx·syy).
pub open spec fn fitted(s: Seq<Observation>) -> LinearModel {
    let n = s.len() as int;
    let u = UNITS_PER_WHOLE as int;
    let a = sxx(s);
    let b = sxy(s);
    let c = syy(s);
    LinearModel {
        alpha: Ratio {
            numerator: (sum_y(s) * a - b * sum_x(s)) as i128,
            denominator: (u * (n * a)) as i128,
        },
        beta: Ratio { numerator: b as i128, denominator: a as i128 },
        count: s.len() as usize,
        sum_of_x: Ratio { numerator: sum_x(s) as i128, denominator: u as i128 },
        average_of_x: Ratio { numerator: sum_x(s) as i128, denominator: (u * n) as i128 },
        sum_of_y: Ratio { numerator: sum_y(s) as i128, denominator: u as i128 },
        average_of_y: Ratio { numerator: sum_y(s) as i128, denominator: (u * n) as i128 },
        mean_square_error: Ratio {
            numerator: (a * c - b * b) as i128,
            denominator: (u * u * (n * n * a)) as i128,
        },
        coefficient_of_determination: if c == 0 {
            None
        } else {
            Some(Ratio { numerator: (b * b) as i128, denominator: (a * c) as i128 })
        },
    }
}

/// Every field of an accepted fit holds its formula exactly, with no truncation.
pub proof fn lemma_fitted_fields(s: Seq<Observation>)
    requires
        fit_accepts(s),
        !all_x_equal(s),
    ensures
        sxx(s) > 0,
        syy(s) >= 0,
        sxx(s) * syy(s) - sxy(s) * sxy(s) >= 0,
        fitted(s).wf(),
        fitted(s).alpha.wf(),
        fitted(s).sum_of_x.wf(),
        fitted(s).average_of_x.wf(),
        fitted(s).sum_of_y.wf(),
        fitted(s).average_of_y.wf(),
        fitted(s).mean_square_error.wf(),
        fitted(s).count == s.len(),
        fitted(s).beta.numerator == sxy(s),
        fitted(s).beta.denominator == sxx(s),
        fitted(s).alpha.numerator == sum_y(s) * sxx(s) - sxy(s) * sum_x(s),
        fitted(s).alpha.denominator == 100 * (s.len() * sxx(s)),
        fitted(s).sum_of_x.numerator == sum_x(s),
        fitted(s).sum_of_x.denominator == 100,
        fitted(s).average_of_x.numerator == sum_x(s),
        fitted(s).average_of_x.denominator == 100 * s.len(),
        fitted(s).sum_of_y.numerator == sum_y(s),
        fitted(s).sum_of_y.denominator == 100,
        fitted(s).average_of_y.numerator == sum_y(s),
        fitted(s).average_of_y.denominator == 100 * s.len(),
        fitted(s).mean_square_error.numerator == sxx(s) * syy(s) - sxy(s) * sxy(s),
        fitted(s).mean_square_error.denominator == 100 * 100 * (s.len() * s.len() * sxx(s)),
        syy(s) == 0 <==> fitted(s).coefficient_of_determination is None,
        syy(s) != 0 ==> fitted(s).coefficient_of_determination->Some_0.numerator == sxy(s) * sxy(
            s,
        ),
        syy(s) != 0 ==> fitted(s).coefficient_of_determination->Some_0.denominator == sxx(s)
            * syy(s),
        syy(s) != 0 ==> fitted(s).coefficient_of_determination->Some_0.wf(),
{
    let n = s.len() as int;
    let sx = sum_x(s);
    let sy = sum_y(s);
    let xx = sum_xx(s);
    let xy = sum_xy(s);
    let yy = sum_yy(s);
    let a = sxx(s);
    let b = sxy(s);
    let c = syy(s);
    lemma_sum_bounds(s);
    lemma_spreads_nonneg(s);
    lemma_sxx_zero_iff_all_x_equal(s);
    let big_n: int = 2048;
    let k: int = 4_194_304_000_000_000_000;
    let span: int = 2_048_000_000;
    lemma_mul_abs_bound(n, 1_000_000, big_n, 1_000_000);
    lemma_mul_abs_bound(n, 1_000_000_000_000, big_n, 1_000_000_000_000);
    lemma_mul_abs_bound(n, xx, big_n, 2_048_000_000_000_000);
    lemma_mul_abs_bound(n, xy, big_n, 2_048_000_000_000_000);
    lemma_mul_abs_bound(n, yy, big_n, 2_048_000_000_000_000);
    lemma_mul_abs_bound(sx, sx, span, span);
    lemma_mul_abs_bound(sx, sy, span, span);
    lemma_mul_abs_bound(sy, sy, span, span);
    lemma_square_nonneg(sx);
    lemma_square_nonneg(sy);
    assert(n * xx >= 0) by (nonlinear_arith)
        requires
            n >= 0,
            xx >= 0,
    ;
    lemma_mul_abs_bound(sy, a, span, k);
    lemma_mul_abs_bound(b, sx, 2 * k, span);
    lemma_mul_abs_bound(a, c, k, k);
    lemma_mul_abs_bound(b, b, 2 * k, 2 * k);
    lemma_mul_abs_bound(n, a, big_n, k);
    lemma_mul_abs_bound(n, n, big_n, big_n);
    lemma_mul_abs_bound(n * n, a, big_n * big_n, k);
    assert(0 < n * a) by (nonlinear_arith)
        requires
            n > 0,
            a > 0,
    ;
    assert(0 < n * n * a) by (nonlinear_arith)
        requires
            n > 0,
            a > 0,
    ;
    if c != 0 {
        assert(0 < a * c) by (nonlinear_arith)
            requires
                a > 0,
                c > 0,
        ;
    }
}

/// Fits a straight line to the observations by ordinary least squares.
///
/// An empty input is rejected with `InvalidInput`, an input with too many observations or a
/// coordinate out of range with `OutOfRange`, and one whose x values are all equal, a single
/// observation among them, with `DegenerateFit`. Otherwise the result is exact.
pub fn compute_model(observations: &[Observation]) -> (r: Result<LinearModel, FitError>)
    ensures
        observations@.len() == 0 ==> r == Err::<LinearModel, FitError>(FitError::InvalidInput),
        observations@.len() > 0 && !fit_accepts(observations@) ==> r == Err::<
            LinearModel,
            FitError,
        >(FitError::OutOfRange),
        fit_accepts(observations@) && all_x_equal(observations@) ==> r == Err::<
            LinearModel,
            FitError,
        >(FitError::DegenerateFit),
        fit_accepts(observations@) && !all_x_equal(observations@) ==> r == Ok::<
            LinearModel,
            FitError,
        >(fitted(observations@)),
        r matches Ok(m) ==> m.wf(),
{
    let n = observations.len();
    if n == 0 {
        return Err(FitError::InvalidInput);
    }
    if n > MAX_OBSERVATIONS {
        return Err(FitError::OutOfRange);
    }
    let ghost s = observations@;
    let mut sx: i128 = 0;
    let mut sy: i128 = 0;
    let mut xx: i128 = 0;
    let mut xy: i128 = 0;
    let mut yy: i128 = 0;
    let mut i: usize = 0;
    while i < n
        invariant
            s == observations@,
            n == s.len(),
            0 < n <= MAX_OBSERVATIONS,
            0 <= i <= n,
            forall|j: int| 0 <= j < i ==> #[trigger] s[j].in_range(),
            sx == sum_x(s.take(i as int)),
            sy == sum_y(s.take(i as int)),
            xx == sum_xx(s.take(i as int)),
            xy == sum_xy(s.take(i as int)),
            yy == sum_yy(s.take(i as int)),
            -(i * 1_000_000) <= sx <= i * 1_000_000,
            -(i * 1_000_000) <= sy <= i * 1_000_000,
            0 <= xx <= i * 1_000_000_000_000,
            -(i * 1_000_000_000_000) <= xy <= i * 1_000_000_000_000,
            0 <= yy <= i * 1_000_000_000_000,
        decreases n - i,
    {
        let o = observations[i];
        if !o.is_in_range() {
            return Err(FitError::OutOfRange);
        }
        let x = o.x as i128;
        let y = o.y as i128;
        proof {
            lemma_mul_abs_bound(x as int, x as int, 1_000_000, 1_000_000);
            lemma_mul_abs_bound(x as int, y as int, 1_000_000, 1_000_000);
            lemma_mul_abs_bound(y as int, y as int, 1_000_000, 1_000_000);
            lemma_square_nonneg(x as int);
            lemma_square_nonneg(y as int);
            assert(s.take(i + 1).drop_last() =~= s.take(i as int));
            assert(s.take(i + 1).last() == o);
        }
        sx = sx + x;
        sy = sy + y;
        xx = xx + x * x;
        xy = xy + x * y;
        yy = yy + y * y;
        i = i + 1;
    }
    proof {
        assert(s.take(n as int) =~= s);
        assert(all_in_range(s));
        lemma_spreads_nonneg(s);
        lemma_sxx_zero_iff_all_x_equal(s);
    }
    let count = n as i128;
    let ghost big_n: int = 2048;
    let ghost k: int = 4_194_304_000_000_000_000;
    let ghost span: int = 2_048_000_000;
    proof {
        lemma_mul_abs_bound(count as int, xx as int, big_n, 2_048_000_000_000_000);
        lemma_mul_abs_bound(count as int, xy as int, big_n, 2_048_000_000_000_000);
        lemma_mul_abs_bound(count as int, yy as int, big_n, 2_048_000_000_000_000);
        lemma_mul_abs_bound(sx as int, sx as int, span, span);
        lemma_mul_abs_bound(sx as int, sy as int, span, span);
        lemma_mul_abs_bound(sy as int, sy as int, span, span);
        lemma_square_nonneg(sx as int);
        lemma_square_nonneg(sy as int);
        assert(count * xx >= 0) by (nonlinear_arith)
            requires
                count >= 0,
                xx >= 0,
        ;
        assert(count * yy >= 0) by (nonlinear_arith)
            requires
                count >= 0,
                yy >= 0,
        ;
    }
    let a = count * xx - sx * sx;
    let b = count * xy - sx * sy;
    let c = count * yy - sy * sy;
    if a == 0 {
        return Err(FitError::DegenerateFit);
    }
    proof {
        lemma_mul_abs_bound(sy as int, a as int, span, k);
        lemma_mul_abs_bound(b as int, sx as int, 2 * k, span);
        lemma_mul_abs_bound(a as int, c as int, k, k);
        lemma_mul_abs_bound(b as int, b as int, 2 * k, 2 * k);
        lemma_mul_abs_bound(count as int, a as int, big_n, k);
        lemma_mul_abs_bound(count as int, count as int, big_n, big_n);
        lemma_mul_abs_bound(count * count, a as int, big_n * big_n, k);
        assert(0 < count * a) by (nonlinear_arith)
            requires
                count > 0,
                a > 0,
        ;
        assert(0 < count * count * a) by (nonlinear_arith)
            requires
                count > 0,
                a > 0,
        ;
    }
    let units = UNITS_PER_WHOLE as i128;
    let beta = Ratio::new(b, a);
    let alpha = Ratio::new(sy * a - b * sx, units * (count * a));
    let mean_square_error = Ratio::new(a * c - b * b, units * units * (count * count * a));
    let coefficient_of_determination = if c == 0 {
        None
    } else {
        proof {
            assert(0 < a * c) by (nonlinear_arith)
                requires
                    a > 0,
                    c > 0,
            ;
        }
        Some(Ratio::new(b * b, a * c))
    };
    let model = LinearModel {
        alpha,
        beta,
        count: n,
        sum_of_x: Ratio::new(sx, units),
        average_of_x: Ratio::new(sx, units * count),
        sum_of_y: Ratio::new(sy, units),
        average_of_y: Ratio::new(sy, units * count),
        mean_square_error,
        coefficient_of_determination,
    };
    Ok(model)
}

} // verus!
