//! Properties that every least-squares fit has.
use crate::model::{fit_accepts, fitted, lemma_fitted_fields};
use crate::observation::Observation;
use crate::sums::{
    all_x_equal, lemma_linear_sums, lemma_residual_sum, lemma_sum_sq_affine_scale,
    lemma_sums_permutation, lemma_syy_zero_implies_all_y_equal, lemma_total_sum_of_squares,
    sum_sq_affine, sum_x, sum_xx, sum_xy, sum_y, sum_yy, sxx, sxy, syy,
};
use vstd::prelude::*;

verus! {

/// In every fit, the average of x times the count is the sum of x, and likewise for y.
pub proof fn lemma_average_times_count(s: Seq<Observation>)
    requires
        fit_accepts(s),
        !all_x_equal(s),
    ensures
        fitted(s).average_of_x.numerator * fitted(s).count * fitted(s).sum_of_x.denominator
            == fitted(s).sum_of_x.numerator * fitted(s).average_of_x.denominator,
        fitted(s).average_of_y.numerator * fitted(s).count * fitted(s).sum_of_y.denominator
            == fitted(s).sum_of_y.numerator * fitted(s).average_of_y.denominator,
{
    lemma_fitted_fields(s);
    let n = s.len() as int;
    let sx = sum_x(s);
    let sy = sum_y(s);
    assert(sx * n * 100 == sx * (100 * n)) by (nonlinear_arith);
    assert(sy * n * 100 == sy * (100 * n)) by (nonlinear_arith);
}

/// Where the y values vary, R² is defined and lies between 0 and 1.
pub proof fn lemma_r_squared_at_most_one(s: Seq<Observation>)
    requires
        fit_accepts(s),
        !all_x_equal(s),
        !(forall|i: int, j: int| 0 <= i < s.len() && 0 <= j < s.len() ==> s[i].y == s[j].y),
    ensures
        fitted(s).coefficient_of_determination is Some,
        0 <= fitted(s).coefficient_of_determination->Some_0.numerator
            <= fitted(s).coefficient_of_determination->Some_0.denominator,
        fitted(s).coefficient_of_determination->Some_0.wf(),
{
    lemma_fitted_fields(s);
    if syy(s) == 0 {
        lemma_syy_zero_implies_all_y_equal(s);
    }
    crate::arith::lemma_square_nonneg(sxy(s));
}

/// The mean square error of every fit is never negative.
pub proof fn lemma_error_nonneg(s: Seq<Observation>)
    requires
        fit_accepts(s),
        !all_x_equal(s),
    ensures
        fitted(s).mean_square_error.numerator >= 0,
        fitted(s).mean_square_error.wf(),
{
    lemma_fitted_fields(s);
}

/// The fitted line passes through the mean point: beta·x̄ + alpha = ȳ.
pub proof fn lemma_line_through_means(s: Seq<Observation>)
    requires
        fit_accepts(s),
        !all_x_equal(s),
    ensures
        ({
            let m = fitted(s);
            (m.beta.numerator * m.average_of_x.numerator * m.alpha.denominator + m.alpha.numerator
                * m.beta.denominator * m.average_of_x.denominator) * m.average_of_y.denominator
                == m.average_of_y.numerator * (m.beta.denominator * m.average_of_x.denominator
                * m.alpha.denominator)
        }),
{
    lemma_fitted_fields(s);
    let n = s.len() as int;
    let sx = sum_x(s);
    let sy = sum_y(s);
    let a = sxx(s);
    let b = sxy(s);
    let d = 100 * n;
    let ad = 100 * (n * a);
    assert(ad == d * a) by (nonlinear_arith)
        requires
            ad == 100 * (n * a),
            d == 100 * n,
    ;
    assert(b * sx * ad + (sy * a - b * sx) * a * d == ad * (sy * a)) by (nonlinear_arith)
        requires
            ad == d * a,
    ;
    assert(ad * (sy * a) * d == sy * (a * d * ad)) by (nonlinear_arith);
}

/// A single observation has no spread in x: its fit is degenerate.
pub proof fn lemma_single_observation_degenerate(o: Observation)
    ensures
        all_x_equal(seq![o]),
{
}

/// A fit depends on the observations alone: equal sequences give equal models.
pub proof fn lemma_fit_deterministic(s: Seq<Observation>, t: Seq<Observation>)
    requires
        s =~= t,
    ensures
        fitted(s) == fitted(t),
        fit_accepts(s) == fit_accepts(t),
        all_x_equal(s) == all_x_equal(t),
{
}

/// Observations that lie exactly on the line y = (m/d)·x + c/(100·d) (in whole units), that is
/// d·y = m·x + c in hundredths, are fitted with slope m/d, intercept c/(100·d), no error and,
/// where m is not zero, R² = 1.
pub proof fn lemma_exact_recovery(s: Seq<Observation>, m: int, d: int, c: int)
    requires
        fit_accepts(s),
        !all_x_equal(s),
        d > 0,
        forall|i: int| 0 <= i < s.len() ==> d * s[i].y == m * s[i].x + c,
    ensures
        fitted(s).beta.stands_for(m, d),
        fitted(s).alpha.stands_for(c, 100 * d),
        fitted(s).mean_square_error.numerator == 0,
        m != 0 ==> fitted(s).coefficient_of_determination is Some,
        m != 0 ==> fitted(s).coefficient_of_determination->Some_0.stands_for(1, 1),
{
    lemma_fitted_fields(s);
    lemma_linear_sums(s, m, d, c);
    let n = s.len() as int;
    let sx = sum_x(s);
    let xx = sum_xx(s);
    let a = sxx(s);
    let b = sxy(s);
    let sy = sum_y(s);
    let xy = sum_xy(s);
    let yy = sum_yy(s);
    let db = d * b;
    let ddc = d * d * syy(s);
    assert(db == n * (d * xy) - sx * (d * sy)) by (nonlinear_arith)
        requires
            db == d * b,
            b == n * xy - sx * sy,
    ;
    assert(ddc == n * (d * d * yy) - (d * sy) * (d * sy)) by (nonlinear_arith)
        requires
            ddc == d * d * syy(s),
            syy(s) == n * yy - sy * sy,
    ;
    assert(db == m * a) by (nonlinear_arith)
        requires
            a == n * xx - sx * sx,
            db == n * (m * xx + c * sx) - sx * (m * sx + n * c),
    ;
    let mm = m * m;
    let p = m * sx;
    let q = n * c;
    let w = p * q;
    assert((p + q) * (p + q) == p * p + 2 * w + q * q) by (nonlinear_arith)
        requires
            w == p * q,
    ;
    assert(p * p == mm * (sx * sx)) by (nonlinear_arith)
        requires
            p == m * sx,
            mm == m * m,
    ;
    assert(q * q == n * (n * (c * c))) by (nonlinear_arith)
        requires
            q == n * c,
    ;
    assert(n * (2 * m * c * sx) == 2 * w) by (nonlinear_arith)
        requires
            w == p * q,
            p == m * sx,
            q == n * c,
    ;
    assert(n * (mm * xx) == mm * (n * xx)) by (nonlinear_arith);
    assert(n * (mm * xx + 2 * m * c * sx + n * (c * c)) == n * (mm * xx) + n * (2 * m * c * sx)
        + n * (n * (c * c))) by (nonlinear_arith);
    assert(mm * (n * xx) - mm * (sx * sx) == mm * (n * xx - sx * sx)) by (nonlinear_arith);
    assert(ddc == mm * a);
    let cc = syy(s);
    assert(b * d == m * a) by (nonlinear_arith)
        requires
            db == d * b,
            db == m * a,
    ;
    let an = sy * a - b * sx;
    assert(d * an == (d * sy) * a - db * sx) by (nonlinear_arith)
        requires
            an == sy * a - b * sx,
            db == d * b,
    ;
    assert((m * sx + n * c) * a - (m * a) * sx == n * c * a) by (nonlinear_arith);
    assert(an * (100 * d) == c * (100 * (n * a))) by (nonlinear_arith)
        requires
            d * an == n * c * a,
    ;
    let dd = d * d;
    assert(dd > 0) by (nonlinear_arith)
        requires
            d > 0,
            dd == d * d,
    ;
    assert(dd * (a * cc - b * b) == a * ddc - db * db) by (nonlinear_arith)
        requires
            dd == d * d,
            ddc == d * d * cc,
            db == d * b,
    ;
    assert(a * ddc - db * db == 0) by (nonlinear_arith)
        requires
            ddc == mm * a,
            db == m * a,
            mm == m * m,
    ;
    assert(a * cc - b * b == 0) by (nonlinear_arith)
        requires
            dd > 0,
            dd * (a * cc - b * b) == 0,
    ;
    if m != 0 {
        assert(mm > 0) by (nonlinear_arith)
            requires
                mm == m * m,
                m != 0,
        ;
        assert(cc != 0) by (nonlinear_arith)
            requires
                ddc == mm * a,
                ddc == d * d * cc,
                mm > 0,
                a > 0,
        ;
    }
}

/// Reordering the observations leaves the fit unchanged: the same model, or the same error.
pub proof fn lemma_order_independent(s: Seq<Observation>, t: Seq<Observation>)
    requires
        s.to_multiset() == t.to_multiset(),
    ensures
        fitted(s) == fitted(t),
        fit_accepts(s) == fit_accepts(t),
        all_x_equal(s) == all_x_equal(t),
{
    lemma_sums_permutation(s, t);
}

/// The mean square error is the mean, over the observations, of the squared residual
/// y − (beta·x + alpha). Over the common denominator 100·beta.denominator·alpha.denominator
/// the residual of (x, y) is the affine form below, so its square is summed exactly.
pub proof fn lemma_error_is_mean_squared_residual(s: Seq<Observation>)
    requires
        fit_accepts(s),
        !all_x_equal(s),
    ensures
        ({
            let m = fitted(s);
            let d = 100 * m.beta.denominator * m.alpha.denominator;
            m.mean_square_error.stands_for(
                sum_sq_affine(
                    s,
                    -(m.beta.numerator * m.alpha.denominator),
                    m.beta.denominator * m.alpha.denominator,
                    -(100 * m.alpha.numerator * m.beta.denominator),
                ),
                s.len() * (d * d),
            )
        }),
{
    lemma_fitted_fields(s);
    lemma_residual_sum(s);
    let n = s.len() as int;
    let sx = sum_x(s);
    let sy = sum_y(s);
    let a = sxx(s);
    let b = sxy(s);
    let c = syy(s);
    let ad = 100 * (n * a);
    let an = sy * a - b * sx;
    let k = 100 * a;
    assert(-(b * ad) == k * (-(n * b))) by (nonlinear_arith)
        requires
            ad == 100 * (n * a),
            k == 100 * a,
    ;
    assert(a * ad == k * (n * a)) by (nonlinear_arith)
        requires
            ad == 100 * (n * a),
            k == 100 * a,
    ;
    assert(-(100 * an * a) == k * (b * sx - a * sy)) by (nonlinear_arith)
        requires
            an == sy * a - b * sx,
            k == 100 * a,
    ;
    lemma_sum_sq_affine_scale(s, -(n * b), n * a, b * sx - a * sy, k);
    let e = a * c - b * b;
    let r = sum_sq_affine(s, -(b * ad), a * ad, -(100 * an * a));
    assert(r == k * k * (n * a * e));
    let d = 100 * a * ad;
    assert(e * (n * (d * d)) == r * (100 * 100 * (n * n * a))) by (nonlinear_arith)
        requires
            r == k * k * (n * a * e),
            k == 100 * a,
            d == 100 * a * ad,
            ad == 100 * (n * a),
    ;
}

/// R² is the share of the variance of y that the line explains: 1 − R² = RSS / TSS, where
/// RSS = count · mean square error and TSS = Σ(y − ȳ)², the latter summed over the common
/// denominator 100·count as Σ(count·y − Σy)² / (100·count)².
pub proof fn lemma_r_squared_explains_variance(s: Seq<Observation>)
    requires
        fit_accepts(s),
        !all_x_equal(s),
        syy(s) != 0,
    ensures
        ({
            let m = fitted(s);
            let r2 = m.coefficient_of_determination->Some_0;
            let n = s.len() as int;
            (r2.denominator - r2.numerator) * sum_sq_affine(s, 0, n, -sum_y(s))
                * m.mean_square_error.denominator == r2.denominator * (n
                * m.mean_square_error.numerator) * ((100 * n) * (100 * n))
        }),
{
    lemma_fitted_fields(s);
    lemma_total_sum_of_squares(s);
    let n = s.len() as int;
    let a = sxx(s);
    let b = sxy(s);
    let c = syy(s);
    let e = a * c - b * b;
    let t = sum_sq_affine(s, 0, n, -sum_y(s));
    assert((a * c - b * b) * t * (100 * 100 * (n * n * a)) == (a * c) * (n * e) * ((100 * n) * (
    100 * n))) by (nonlinear_arith)
        requires
            t == n * c,
            e == a * c - b * b,
    ;
}

} // verus!
