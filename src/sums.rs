//! Sums over a sequence of observations, as mathematical integers.
use crate::arith::{lemma_mul_abs_bound, lemma_square_nonneg};
use crate::observation::{Observation, MAX_MAGNITUDE};
use vstd::prelude::*;

verus! {

/// Σ x over the observations.
pub open spec fn sum_x(s: Seq<Observation>) -> int
    decreases s.len(),
{
    if s.len() == 0 {
        0
    } else {
        sum_x(s.drop_last()) + s.last().x
    }
}

/// Σ y over the observations.
pub open spec fn sum_y(s: Seq<Observation>) -> int
    decreases s.len(),
{
    if s.len() == 0 {
        0
    } else {
        sum_y(s.drop_last()) + s.last().y
    }
}

/// Σ x² over the observations.
pub open spec fn sum_xx(s: Seq<Observation>) -> int
    decreases s.len(),
{
    if s.len() == 0 {
        0
    } else {
        sum_xx(s.drop_last()) + s.last().x * s.last().x
    }
}

/// Σ x·y over the observations.
pub open spec fn sum_xy(s: Seq<Observation>) -> int
    decreases s.len(),
{
    if s.len() == 0 {
        0
    } else {
        sum_xy(s.drop_last()) + s.last().x * s.last().y
    }
}

/// Σ y² over the observations.
pub open spec fn sum_yy(s: Seq<Observation>) -> int
    decreases s.len(),
{
    if s.len() == 0 {
        0
    } else {
        sum_yy(s.drop_last()) + s.last().y * s.last().y
    }
}

/// Σ (a·x + b·y + c)² over the observations.
pub open spec fn sum_sq_affine(s: Seq<Observation>, a: int, b: int, c: int) -> int
    decreases s.len(),
{
    if s.len() == 0 {
        0
    } else {
        let t = a * s.last().x + b * s.last().y + c;
        sum_sq_affine(s.drop_last(), a, b, c) + t * t
    }
}

/// n·Σ(x − x̄)², that is n·Σx² − (Σx)²: the slope's denominator, scaled by n.
pub open spec fn sxx(s: Seq<Observation>) -> int {
    s.len() * sum_xx(s) - sum_x(s) * sum_x(s)
}

/// n·Σ(x − x̄)(y − ȳ), that is n·Σxy − Σx·Σy: the slope's numerator, scaled by n.
pub open spec fn sxy(s: Seq<Observation>) -> int {
    s.len() * sum_xy(s) - sum_x(s) * sum_y(s)
}

/// n·Σ(y − ȳ)², that is n·Σy² − (Σy)²: the total sum of squares, scaled by n.
pub open spec fn syy(s: Seq<Observation>) -> int {
    s.len() * sum_yy(s) - sum_y(s) * sum_y(s)
}

/// Every observation lies within the magnitude that a fit accepts.
pub open spec fn all_in_range(s: Seq<Observation>) -> bool {
    forall|i: int| 0 <= i < s.len() ==> #[trigger] s[i].in_range()
}

proof fn lemma_square_of_sum(u: int, v: int, c: int)
    ensures
        (u + v + c) * (u + v + c) == u * u + v * v + c * c + 2 * (u * v) + 2 * (u * c) + 2 * (v
            * c),
{
    assert((u + v + c) * (u + v + c) == u * u + v * v + c * c + 2 * (u * v) + 2 * (u * c) + 2 * (
    v * c)) by (nonlinear_arith);
}

proof fn lemma_square_expansion(x: int, y: int, a: int, b: int, c: int)
    ensures
        (a * x + b * y + c) * (a * x + b * y + c) == a * a * (x * x) + b * b * (y * y) + 2 * a
            * b * (x * y) + 2 * a * c * x + 2 * b * c * y + c * c,
{
    let u = a * x;
    let v = b * y;
    lemma_square_of_sum(u, v, c);
    assert(u * u == a * a * (x * x)) by (nonlinear_arith)
        requires
            u == a * x,
    ;
    assert(v * v == b * b * (y * y)) by (nonlinear_arith)
        requires
            v == b * y,
    ;
    assert(2 * (u * v) == 2 * a * b * (x * y)) by (nonlinear_arith)
        requires
            u == a * x,
            v == b * y,
    ;
    assert(2 * (u * c) == 2 * a * c * x) by (nonlinear_arith)
        requires
            u == a * x,
    ;
    assert(2 * (v * c) == 2 * b * c * y) by (nonlinear_arith)
        requires
            v == b * y,
    ;
}

/// A sum of squares of an affine form expands into the elementary sums.
pub proof fn lemma_sum_sq_affine(s: Seq<Observation>, a: int, b: int, c: int)
    ensures
        sum_sq_affine(s, a, b, c) == a * a * sum_xx(s) + b * b * sum_yy(s) + 2 * a * b * sum_xy(s)
            + 2 * a * c * sum_x(s) + 2 * b * c * sum_y(s) + s.len() * (c * c),
    decreases s.len(),
{
    if s.len() > 0 {
        let p = s.drop_last();
        lemma_sum_sq_affine(p, a, b, c);
        let x = s.last().x as int;
        let y = s.last().y as int;
        lemma_square_expansion(x, y, a, b, c);
        assert(a * a * sum_xx(s) == a * a * sum_xx(p) + a * a * (x * x)) by (nonlinear_arith)
            requires
                sum_xx(s) == sum_xx(p) + x * x,
        ;
        assert(b * b * sum_yy(s) == b * b * sum_yy(p) + b * b * (y * y)) by (nonlinear_arith)
            requires
                sum_yy(s) == sum_yy(p) + y * y,
        ;
        assert(2 * a * b * sum_xy(s) == 2 * a * b * sum_xy(p) + 2 * a * b * (x * y))
            by (nonlinear_arith)
            requires
                sum_xy(s) == sum_xy(p) + x * y,
        ;
        assert(2 * a * c * sum_x(s) == 2 * a * c * sum_x(p) + 2 * a * c * x) by (nonlinear_arith)
            requires
                sum_x(s) == sum_x(p) + x,
        ;
        assert(2 * b * c * sum_y(s) == 2 * b * c * sum_y(p) + 2 * b * c * y) by (nonlinear_arith)
            requires
                sum_y(s) == sum_y(p) + y,
        ;
        assert(s.len() * (c * c) == p.len() * (c * c) + c * c) by (nonlinear_arith)
            requires
                s.len() == p.len() + 1,
        ;
    }
}

/// A sum of squares is never negative.
pub proof fn lemma_sum_sq_affine_nonneg(s: Seq<Observation>, a: int, b: int, c: int)
    ensures
        sum_sq_affine(s, a, b, c) >= 0,
    decreases s.len(),
{
    if s.len() > 0 {
        lemma_sum_sq_affine_nonneg(s.drop_last(), a, b, c);
        let t = a * s.last().x + b * s.last().y + c;
        assert(t * t >= 0) by (nonlinear_arith);
    }
}

} // verus!

verus! {

proof fn lemma_residual_polynomial(a: int, b: int, c: int, sx: int, sy: int)
    ensures
        b * b * (a + sx * sx) + a * a * (c + sy * sy) - 2 * (a * b * (b + sx * sy)) - 2 * (b * (b
            * sx - a * sy) * sx) + 2 * (a * (b * sx - a * sy) * sy) + (b * sx - a * sy) * (b * sx
            - a * sy) == a * (a * c - b * b),
{
    let bbxx = (b * b) * (sx * sx);
    let abxy = (a * b) * (sx * sy);
    let aayy = (a * a) * (sy * sy);
    assert(b * b * (a + sx * sx) == a * (b * b) + bbxx) by (nonlinear_arith)
        requires
            bbxx == (b * b) * (sx * sx),
    ;
    assert(a * a * (c + sy * sy) == a * (a * c) + aayy) by (nonlinear_arith)
        requires
            aayy == (a * a) * (sy * sy),
    ;
    assert(a * b * (b + sx * sy) == a * (b * b) + abxy) by (nonlinear_arith)
        requires
            abxy == (a * b) * (sx * sy),
    ;
    assert(b * (b * sx - a * sy) * sx == bbxx - abxy) by (nonlinear_arith)
        requires
            bbxx == (b * b) * (sx * sx),
            abxy == (a * b) * (sx * sy),
    ;
    assert(a * (b * sx - a * sy) * sy == abxy - aayy) by (nonlinear_arith)
        requires
            aayy == (a * a) * (sy * sy),
            abxy == (a * b) * (sx * sy),
    ;
    let u = b * sx;
    let v = a * sy;
    assert((u - v) * (u - v) == u * u - 2 * (u * v) + v * v) by (nonlinear_arith);
    assert(u * u == bbxx) by (nonlinear_arith)
        requires
            u == b * sx,
            bbxx == (b * b) * (sx * sx),
    ;
    assert(u * v == abxy) by (nonlinear_arith)
        requires
            u == b * sx,
            v == a * sy,
            abxy == (a * b) * (sx * sy),
    ;
    assert(v * v == aayy) by (nonlinear_arith)
        requires
            v == a * sy,
            aayy == (a * a) * (sy * sy),
    ;
    assert(a * (a * c - b * b) == a * (a * c) - a * (b * b)) by (nonlinear_arith);
}

/// Scaled by the common denominator n·sxx, the residual of observation (x, y) against the
/// least-squares line is n·sxx·y − n·sxy·x − (sxx·Σy − sxy·Σx). Their squares add up to
/// n·sxx·(sxx·syy − sxy²).
pub proof fn lemma_residual_sum(s: Seq<Observation>)
    ensures
        sum_sq_affine(s, -(s.len() * sxy(s)), s.len() * sxx(s), sxy(s) * sum_x(s) - sxx(s) * sum_y(s))
            == s.len() * sxx(s) * (sxx(s) * syy(s) - sxy(s) * sxy(s)),
{
    let n = s.len() as int;
    let sx = sum_x(s);
    let sy = sum_y(s);
    let xx = sum_xx(s);
    let xy = sum_xy(s);
    let yy = sum_yy(s);
    let a = sxx(s);
    let b = sxy(s);
    let c = syy(s);
    let k = b * sx - a * sy;
    lemma_sum_sq_affine(s, -(n * b), n * a, k);
    lemma_residual_polynomial(a, b, c, sx, sy);
    let t1 = b * b * (a + sx * sx);
    let t2 = a * a * (c + sy * sy);
    let t3 = 2 * (a * b * (b + sx * sy));
    let t4 = 2 * (b * (b * sx - a * sy) * sx);
    let t5 = 2 * (a * (b * sx - a * sy) * sy);
    let t6 = (b * sx - a * sy) * (b * sx - a * sy);
    assert((-(n * b)) * (-(n * b)) * xx == n * t1) by (nonlinear_arith)
        requires
            n * xx == a + sx * sx,
            t1 == b * b * (a + sx * sx),
    ;
    assert((n * a) * (n * a) * yy == n * t2) by (nonlinear_arith)
        requires
            n * yy == c + sy * sy,
            t2 == a * a * (c + sy * sy),
    ;
    assert(2 * (-(n * b)) * (n * a) * xy == -(n * t3)) by (nonlinear_arith)
        requires
            n * xy == b + sx * sy,
            t3 == 2 * (a * b * (b + sx * sy)),
    ;
    assert(2 * (-(n * b)) * k * sx == -(n * t4)) by (nonlinear_arith)
        requires
            k == b * sx - a * sy,
            t4 == 2 * (b * (b * sx - a * sy) * sx),
    ;
    assert(2 * (n * a) * k * sy == n * t5) by (nonlinear_arith)
        requires
            k == b * sx - a * sy,
            t5 == 2 * (a * (b * sx - a * sy) * sy),
    ;
    assert(n * (k * k) == n * t6) by (nonlinear_arith)
        requires
            k == b * sx - a * sy,
            t6 == (b * sx - a * sy) * (b * sx - a * sy),
    ;
    assert(n * t1 + n * t2 - n * t3 - n * t4 + n * t5 + n * t6 == n * (t1 + t2 - t3 - t4 + t5
        + t6)) by (nonlinear_arith);
    assert(n * (a * (a * c - b * b)) == n * a * (a * c - b * b)) by (nonlinear_arith);
}

/// Scaled by n, the deviations n·x − Σx square to n·sxx in all.
pub proof fn lemma_spread_sum(s: Seq<Observation>)
    ensures
        sum_sq_affine(s, s.len() as int, 0, -sum_x(s)) == s.len() * sxx(s),
{
    let n = s.len() as int;
    let sx = sum_x(s);
    let xx = sum_xx(s);
    lemma_sum_sq_affine(s, n, 0, -sx);
    let q = sum_sq_affine(s, n, 0, -sx);
    assert(q == n * (n * xx - sx * sx)) by (nonlinear_arith)
        requires
            q == n * n * xx + 0 * 0 * sum_yy(s) + 2 * n * 0 * sum_xy(s) + 2 * n * (-sx) * sx + 2 * 0
                * (-sx) * sum_y(s) + n * ((-sx) * (-sx)),
    ;
}

/// The slope's denominator, the total sum of squares and the residual term are never negative.
pub proof fn lemma_spreads_nonneg(s: Seq<Observation>)
    ensures
        sxx(s) >= 0,
        syy(s) >= 0,
        sxx(s) * syy(s) - sxy(s) * sxy(s) >= 0,
{
    let n = s.len() as int;
    if n > 0 {
        lemma_spread_sum(s);
        lemma_sum_sq_affine_nonneg(s, n, 0, -sum_x(s));
        let a = sxx(s);
        assert(a >= 0) by (nonlinear_arith)
            requires
                n > 0,
                n * a >= 0,
        ;
        lemma_sum_sq_affine(s, 0, n, -sum_y(s));
        lemma_sum_sq_affine_nonneg(s, 0, n, -sum_y(s));
        let sy = sum_y(s);
        let yy = sum_yy(s);
        assert(0 * 0 * sum_xx(s) + n * n * yy + 2 * 0 * n * sum_xy(s) + 2 * 0 * (-sy) * sum_x(s) + 2
            * n * (-sy) * sy + n * ((-sy) * (-sy)) == n * (n * yy - sy * sy)) by (nonlinear_arith);
        let c = syy(s);
        assert(c >= 0) by (nonlinear_arith)
            requires
                n > 0,
                n * c >= 0,
        ;
        lemma_residual_sum(s);
        let b = sxy(s);
        lemma_sum_sq_affine_nonneg(s, -(n * b), n * a, b * sum_x(s) - a * sy);
        if a > 0 {
            assert(a * c - b * b >= 0) by (nonlinear_arith)
                requires
                    n > 0,
                    a > 0,
                    n * a * (a * c - b * b) >= 0,
            ;
        } else {
            // with no spread in x, every x equals the mean and so sxy vanishes too
            lemma_spread_zero(s);
        }
    } else {
        assert(sxx(s) == 0 && syy(s) == 0 && sxy(s) == 0);
    }
}

/// A sum of squares that vanishes has every term zero.
pub proof fn lemma_sum_sq_affine_zero(s: Seq<Observation>, a: int, b: int, c: int)
    requires
        sum_sq_affine(s, a, b, c) == 0,
    ensures
        forall|i: int| 0 <= i < s.len() ==> a * s[i].x + b * s[i].y + c == 0,
    decreases s.len(),
{
    if s.len() > 0 {
        let p = s.drop_last();
        let t = a * s.last().x + b * s.last().y + c;
        lemma_sum_sq_affine_nonneg(p, a, b, c);
        assert(t * t >= 0) by (nonlinear_arith);
        assert(t == 0) by (nonlinear_arith)
            requires
                t * t == 0,
        ;
        lemma_sum_sq_affine_zero(p, a, b, c);
        assert forall|i: int| 0 <= i < s.len() implies a * s[i].x + b * s[i].y + c == 0 by {
            if i < p.len() {
                assert(s[i] == p[i]);
            }
        }
    }
}

/// Where c·x = d for every observation, c·Σxy = d·Σy.
proof fn lemma_sum_xy_constant_x(s: Seq<Observation>, c: int, d: int)
    requires
        forall|i: int| 0 <= i < s.len() ==> c * s[i].x == d,
    ensures
        c * sum_xy(s) == d * sum_y(s),
    decreases s.len(),
{
    if s.len() > 0 {
        let p = s.drop_last();
        assert forall|i: int| 0 <= i < p.len() implies c * p[i].x == d by {
            assert(p[i] == s[i]);
        }
        lemma_sum_xy_constant_x(p, c, d);
        let x = s.last().x as int;
        let y = s.last().y as int;
        assert(c * x == d);
        assert(c * (sum_xy(p) + x * y) == d * (sum_y(p) + y)) by (nonlinear_arith)
            requires
                c * sum_xy(p) == d * sum_y(p),
                c * x == d,
        ;
    }
}

/// With no spread in x, every n·x equals Σx, and the cross term sxy vanishes.
pub proof fn lemma_spread_zero(s: Seq<Observation>)
    requires
        s.len() > 0,
        sxx(s) == 0,
    ensures
        forall|i: int| 0 <= i < s.len() ==> s.len() * s[i].x == sum_x(s),
        sxy(s) == 0,
{
    let n = s.len() as int;
    lemma_spread_sum(s);
    lemma_sum_sq_affine_zero(s, n, 0, -sum_x(s));
    assert forall|i: int| 0 <= i < s.len() implies s.len() * s[i].x == sum_x(s) by {
        assert(n * s[i].x + 0 * s[i].y + -sum_x(s) == 0);
    }
    lemma_sum_xy_constant_x(s, n, sum_x(s));
    let b = sxy(s);
    assert(n * b == 0) by (nonlinear_arith)
        requires
            b == n * sum_xy(s) - sum_x(s) * sum_y(s),
            n * sum_xy(s) == sum_x(s) * sum_y(s),
    ;
    assert(sxy(s) == 0) by (nonlinear_arith)
        requires
            n > 0,
            n * sxy(s) == 0,
    ;
}

/// Every observation has the same x.
pub open spec fn all_x_equal(s: Seq<Observation>) -> bool {
    forall|i: int, j: int| 0 <= i < s.len() && 0 <= j < s.len() ==> s[i].x == s[j].x
}

proof fn lemma_constant_x_sums(s: Seq<Observation>, v: int)
    requires
        forall|i: int| 0 <= i < s.len() ==> s[i].x == v,
    ensures
        sum_x(s) == s.len() * v,
        sum_xx(s) == s.len() * (v * v),
    decreases s.len(),
{
    if s.len() > 0 {
        let p = s.drop_last();
        assert forall|i: int| 0 <= i < p.len() implies p[i].x == v by {
            assert(p[i] == s[i]);
        }
        lemma_constant_x_sums(p, v);
        assert(s.last().x == v);
        assert(s.len() * v == p.len() * v + v) by (nonlinear_arith)
            requires
                s.len() == p.len() + 1,
        ;
        assert(s.len() * (v * v) == p.len() * (v * v) + v * v) by (nonlinear_arith)
            requires
                s.len() == p.len() + 1,
        ;
    }
}

/// The slope's denominator vanishes exactly when every observation has the same x.
pub proof fn lemma_sxx_zero_iff_all_x_equal(s: Seq<Observation>)
    requires
        s.len() > 0,
    ensures
        sxx(s) == 0 <==> all_x_equal(s),
{
    let n = s.len() as int;
    if sxx(s) == 0 {
        lemma_spread_zero(s);
        assert forall|i: int, j: int| 0 <= i < s.len() && 0 <= j < s.len() implies s[i].x
            == s[j].x by {
            let xi = s[i].x as int;
            let xj = s[j].x as int;
            assert(n * xi == sum_x(s) && n * xj == sum_x(s));
            assert(xi == xj) by (nonlinear_arith)
                requires
                    n > 0,
                    n * xi == n * xj,
            ;
        }
    }
    if all_x_equal(s) {
        let v = s[0].x as int;
        lemma_constant_x_sums(s, v);
        assert(n * (n * (v * v)) - (n * v) * (n * v) == 0) by (nonlinear_arith);
    }
}

/// The sums of observations in range grow at most linearly with their number.
pub proof fn lemma_sum_bounds(s: Seq<Observation>)
    requires
        all_in_range(s),
    ensures
        -(s.len() * 1_000_000) <= sum_x(s) <= s.len() * 1_000_000,
        -(s.len() * 1_000_000) <= sum_y(s) <= s.len() * 1_000_000,
        0 <= sum_xx(s) <= s.len() * 1_000_000_000_000,
        -(s.len() * 1_000_000_000_000) <= sum_xy(s) <= s.len() * 1_000_000_000_000,
        0 <= sum_yy(s) <= s.len() * 1_000_000_000_000,
    decreases s.len(),
{
    if s.len() > 0 {
        let p = s.drop_last();
        assert forall|i: int| 0 <= i < p.len() implies #[trigger] p[i].in_range() by {
            assert(p[i] == s[i]);
        }
        lemma_sum_bounds(p);
        assert(s[s.len() - 1].in_range());
        let x = s.last().x as int;
        let y = s.last().y as int;
        assert(MAX_MAGNITUDE == 1_000_000);
        lemma_mul_abs_bound(x, x, 1_000_000, 1_000_000);
        lemma_mul_abs_bound(x, y, 1_000_000, 1_000_000);
        lemma_mul_abs_bound(y, y, 1_000_000, 1_000_000);
        lemma_square_nonneg(x);
        lemma_square_nonneg(y);
    }
}

/// Scaled by n, the deviations n·y − Σy square to n·syy in all.
pub proof fn lemma_total_sum_of_squares(s: Seq<Observation>)
    ensures
        sum_sq_affine(s, 0, s.len() as int, -sum_y(s)) == s.len() * syy(s),
{
    let n = s.len() as int;
    lemma_sum_sq_affine(s, 0, n, -sum_y(s));
    let sy = sum_y(s);
    let q = sum_sq_affine(s, 0, n, -sy);
    assert(q == n * syy(s)) by (nonlinear_arith)
        requires
            q == 0 * 0 * sum_xx(s) + n * n * sum_yy(s) + 2 * 0 * n * sum_xy(s) + 2 * 0 * (-sy)
                * sum_x(s) + 2 * n * (-sy) * sy + n * ((-sy) * (-sy)),
            syy(s) == n * sum_yy(s) - sy * sy,
    ;
}

/// Where the total sum of squares vanishes, every observation has the same y.
pub proof fn lemma_syy_zero_implies_all_y_equal(s: Seq<Observation>)
    requires
        s.len() > 0,
        syy(s) == 0,
    ensures
        forall|i: int, j: int| 0 <= i < s.len() && 0 <= j < s.len() ==> s[i].y == s[j].y,
{
    let n = s.len() as int;
    let sy = sum_y(s);
    lemma_total_sum_of_squares(s);
    lemma_sum_sq_affine_zero(s, 0, n, -sy);
    assert forall|i: int, j: int| 0 <= i < s.len() && 0 <= j < s.len() implies s[i].y
        == s[j].y by {
        let yi = s[i].y as int;
        let yj = s[j].y as int;
        assert(0 * s[i].x + n * yi + -sy == 0);
        assert(0 * s[j].x + n * yj + -sy == 0);
        assert(yi == yj) by (nonlinear_arith)
            requires
                n > 0,
                n * yi == n * yj,
        ;
    }
}

/// Where every d·y is m·x + c, the sums involving y, scaled by d, follow from those of x.
pub proof fn lemma_linear_sums(s: Seq<Observation>, m: int, d: int, c: int)
    requires
        forall|i: int| 0 <= i < s.len() ==> d * s[i].y == m * s[i].x + c,
    ensures
        d * sum_y(s) == m * sum_x(s) + s.len() * c,
        d * sum_xy(s) == m * sum_xx(s) + c * sum_x(s),
        d * d * sum_yy(s) == m * m * sum_xx(s) + 2 * m * c * sum_x(s) + s.len() * (c * c),
    decreases s.len(),
{
    if s.len() > 0 {
        let p = s.drop_last();
        assert forall|i: int| 0 <= i < p.len() implies d * p[i].y == m * p[i].x + c by {
            assert(p[i] == s[i]);
        }
        lemma_linear_sums(p, m, d, c);
        let x = s.last().x as int;
        let y = s.last().y as int;
        let dy = d * y;
        assert(dy == m * x + c);
        let k = s.len() as int;
        assert(d * (sum_y(p) + y) == d * sum_y(p) + dy) by (nonlinear_arith)
            requires
                dy == d * y,
        ;
        assert(k * c == (k - 1) * c + c) by (nonlinear_arith);
        assert(m * (sum_x(p) + x) == m * sum_x(p) + m * x) by (nonlinear_arith);
        assert(d * (sum_xy(p) + x * y) == d * sum_xy(p) + x * dy) by (nonlinear_arith)
            requires
                dy == d * y,
        ;
        assert(x * dy == m * (x * x) + c * x) by (nonlinear_arith)
            requires
                dy == m * x + c,
        ;
        assert(m * (sum_xx(p) + x * x) + c * (sum_x(p) + x) == m * sum_xx(p) + c * sum_x(p) + m
            * (x * x) + c * x) by (nonlinear_arith);
        let q = x * x;
        assert(d * d * (sum_yy(p) + y * y) == d * d * sum_yy(p) + dy * dy) by (nonlinear_arith)
            requires
                dy == d * y,
        ;
        assert(dy * dy == m * m * q + 2 * m * c * x + c * c) by (nonlinear_arith)
            requires
                dy == m * x + c,
                q == x * x,
        ;
        assert(m * m * (sum_xx(p) + q) == m * m * sum_xx(p) + m * m * q) by (nonlinear_arith);
        assert(2 * m * c * (sum_x(p) + x) == 2 * m * c * sum_x(p) + 2 * m * c * x)
            by (nonlinear_arith);
        assert(k * (c * c) == (k - 1) * (c * c) + c * c) by (nonlinear_arith);
    }
}

/// The elementary moments of an observation, numbered: x, y, x², x·y, y².
spec fn moment(o: Observation, k: int) -> int {
    if k == 0 {
        o.x as int
    } else if k == 1 {
        o.y as int
    } else if k == 2 {
        o.x * o.x
    } else if k == 3 {
        o.x * o.y
    } else {
        o.y * o.y
    }
}

spec fn sum_moment(s: Seq<Observation>, k: int) -> int
    decreases s.len(),
{
    if s.len() == 0 {
        0
    } else {
        sum_moment(s.drop_last(), k) + moment(s.last(), k)
    }
}

proof fn lemma_sum_moment_matches(s: Seq<Observation>)
    ensures
        sum_moment(s, 0) == sum_x(s),
        sum_moment(s, 1) == sum_y(s),
        sum_moment(s, 2) == sum_xx(s),
        sum_moment(s, 3) == sum_xy(s),
        sum_moment(s, 4) == sum_yy(s),
    decreases s.len(),
{
    if s.len() > 0 {
        lemma_sum_moment_matches(s.drop_last());
    }
}

proof fn lemma_sum_moment_remove(s: Seq<Observation>, j: int, k: int)
    requires
        0 <= j < s.len(),
    ensures
        sum_moment(s, k) == sum_moment(s.remove(j), k) + moment(s[j], k),
    decreases s.len(),
{
    if j == s.len() - 1 {
        assert(s.remove(j) =~= s.drop_last());
    } else {
        let p = s.drop_last();
        lemma_sum_moment_remove(p, j, k);
        assert(s.remove(j).drop_last() =~= p.remove(j));
        assert(s.remove(j).last() == s.last());
        assert(p[j] == s[j]);
    }
}

proof fn lemma_sum_moment_permutation(s: Seq<Observation>, t: Seq<Observation>, k: int)
    requires
        s.to_multiset() == t.to_multiset(),
    ensures
        sum_moment(s, k) == sum_moment(t, k),
    decreases s.len(),
{
    broadcast use vstd::seq_lib::group_to_multiset_ensures, vstd::multiset::group_multiset_axioms;

    if s.len() == 0 {
        assert(s.len() == s.to_multiset().len());
        assert(t.len() == t.to_multiset().len());
    } else {
        let p = s.drop_last();
        let e = s.last();
        assert(p.push(e) =~= s);
        assert(s.to_multiset().count(e) > 0);
        assert(t.contains(e));
        let j = choose|j: int| 0 <= j < t.len() && t[j] == e;
        assert(t.remove(j).to_multiset() =~= p.to_multiset());
        lemma_sum_moment_permutation(p, t.remove(j), k);
        lemma_sum_moment_remove(t, j, k);
    }
}

/// Every element of one sequence occurs in a sequence with the same multiset.
proof fn lemma_permutation_members(s: Seq<Observation>, t: Seq<Observation>)
    requires
        s.to_multiset() == t.to_multiset(),
    ensures
        forall|i: int| 0 <= i < t.len() ==> s.contains(#[trigger] t[i]),
{
    broadcast use vstd::seq_lib::group_to_multiset_ensures;

    assert forall|i: int| 0 <= i < t.len() implies s.contains(#[trigger] t[i]) by {
        assert(t.contains(t[i]));
        assert(t.to_multiset().count(t[i]) > 0);
    }
}

/// Reordering the observations changes none of the sums, nor whether they are in range or
/// share one x.
pub proof fn lemma_sums_permutation(s: Seq<Observation>, t: Seq<Observation>)
    requires
        s.to_multiset() == t.to_multiset(),
    ensures
        s.len() == t.len(),
        sum_x(s) == sum_x(t),
        sum_y(s) == sum_y(t),
        sum_xx(s) == sum_xx(t),
        sum_xy(s) == sum_xy(t),
        sum_yy(s) == sum_yy(t),
        all_in_range(s) == all_in_range(t),
        all_x_equal(s) == all_x_equal(t),
{
    broadcast use vstd::seq_lib::group_to_multiset_ensures;

    assert(s.len() == s.to_multiset().len());
    assert(t.len() == t.to_multiset().len());
    lemma_sum_moment_matches(s);
    lemma_sum_moment_matches(t);
    lemma_sum_moment_permutation(s, t, 0);
    lemma_sum_moment_permutation(s, t, 1);
    lemma_sum_moment_permutation(s, t, 2);
    lemma_sum_moment_permutation(s, t, 3);
    lemma_sum_moment_permutation(s, t, 4);
    lemma_permutation_members(s, t);
    lemma_permutation_members(t, s);
    if all_in_range(s) {
        assert forall|i: int| 0 <= i < t.len() implies #[trigger] t[i].in_range() by {
            assert(s.contains(t[i]));
        }
    }
    if all_in_range(t) {
        assert forall|i: int| 0 <= i < s.len() implies #[trigger] s[i].in_range() by {
            assert(t.contains(s[i]));
        }
    }
    if all_x_equal(s) {
        assert forall|i: int, j: int| 0 <= i < t.len() && 0 <= j < t.len() implies t[i].x
            == t[j].x by {
            assert(s.contains(t[i]));
            assert(s.contains(t[j]));
        }
    }
    if all_x_equal(t) {
        assert forall|i: int, j: int| 0 <= i < s.len() && 0 <= j < s.len() implies s[i].x
            == s[j].x by {
            assert(t.contains(s[i]));
            assert(t.contains(s[j]));
        }
    }
}

/// Scaling the affine form by k scales the sum of its squares by k².
pub proof fn lemma_sum_sq_affine_scale(s: Seq<Observation>, a: int, b: int, c: int, k: int)
    ensures
        sum_sq_affine(s, k * a, k * b, k * c) == k * k * sum_sq_affine(s, a, b, c),
    decreases s.len(),
{
    if s.len() > 0 {
        let p = s.drop_last();
        lemma_sum_sq_affine_scale(p, a, b, c, k);
        let x = s.last().x as int;
        let y = s.last().y as int;
        let t = a * x + b * y + c;
        assert(k * a * x + k * b * y + k * c == k * t) by (nonlinear_arith)
            requires
                t == a * x + b * y + c,
        ;
        assert((k * t) * (k * t) == k * k * (t * t)) by (nonlinear_arith);
        assert(k * k * (sum_sq_affine(p, a, b, c) + t * t) == k * k * sum_sq_affine(p, a, b, c) + k
            * k * (t * t)) by (nonlinear_arith);
    }
}

} // verus!
