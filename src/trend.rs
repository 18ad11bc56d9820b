//! Least-squares trend of daily scores over time, in exact arithmetic.

use vstd::prelude::*;

verus! {

/// Most points that a trend can be fitted on.
pub const MAX_POINTS: usize = 32768;

/// Sum of the `x` of the points.
pub open spec fn sum_x(p: Seq<(i32, u32)>) -> int
    decreases p.len(),
{
    if p.len() == 0 { 0 } else { sum_x(p.drop_last()) + p.last().0 }
}

/// Sum of the `y` of the points.
pub open spec fn sum_y(p: Seq<(i32, u32)>) -> int
    decreases p.len(),
{
    if p.len() == 0 { 0 } else { sum_y(p.drop_last()) + p.last().1 }
}

/// Sum of the squares of the `x` of the points.
pub open spec fn sum_xx(p: Seq<(i32, u32)>) -> int
    decreases p.len(),
{
    if p.len() == 0 { 0 } else { sum_xx(p.drop_last()) + p.last().0 * p.last().0 }
}

/// Sum of the products `x * y` of the points.
pub open spec fn sum_xy(p: Seq<(i32, u32)>) -> int
    decreases p.len(),
{
    if p.len() == 0 { 0 } else { sum_xy(p.drop_last()) + p.last().0 * p.last().1 }
}

/// Common denominator of the slope and intercept: `n Σx² − (Σx)²`, which is
/// `n` times the sum of the squared deviations of `x` from its mean.
pub open spec fn fit_den(p: Seq<(i32, u32)>) -> int {
    p.len() * sum_xx(p) - sum_x(p) * sum_x(p)
}

/// Numerator of the slope: `n Σxy − Σx Σy`.
pub open spec fn fit_slope_num(p: Seq<(i32, u32)>) -> int {
    p.len() * sum_xy(p) - sum_x(p) * sum_y(p)
}

/// Numerator of the intercept: `Σy Σx² − Σx Σxy`.
pub open spec fn fit_intercept_num(p: Seq<(i32, u32)>) -> int {
    sum_y(p) * sum_xx(p) - sum_x(p) * sum_xy(p)
}

/// At least two points have distinct `x`.
pub open spec fn distinct_x(p: Seq<(i32, u32)>) -> bool {
    exists|i: int, j: int| 0 <= i < p.len() && 0 <= j < p.len() && (#[trigger] p[i]).0 != (#[trigger] p[j]).0
}

/// Sum of the squared deviations `(a x − c)²` over the points.
pub open spec fn sq_dev(p: Seq<(i32, u32)>, a: int, c: int) -> int
    decreases p.len(),
{
    if p.len() == 0 {
        0
    } else {
        sq_dev(p.drop_last(), a, c) + (a * p.last().0 - c) * (a * p.last().0 - c)
    }
}

/// The line `y = slope x + intercept`, with `slope = slope_num / den` and
/// `intercept = intercept_num / den`.
#[derive(Clone, Copy, Debug, PartialEq, Eq, Structural)]
pub struct TrendLine {
    pub slope_num: i128,
    pub intercept_num: i128,
    pub den: i128,
}

/// Why no trend could be fitted.
#[derive(Clone, Copy, Debug, PartialEq, Eq, Structural)]
pub enum FitError {
    /// Fewer than two distinct `x`: the slope is undefined.
    Degenerate,
}

proof fn lemma_sq_dev_expand(p: Seq<(i32, u32)>, a: int, c: int)
    ensures
        sq_dev(p, a, c) == a * a * sum_xx(p) - 2 * a * c * sum_x(p) + p.len() * (c * c),
        sq_dev(p, a, c) >= 0,
    decreases p.len(),
{
    if p.len() > 0 {
        let q = p.drop_last();
        let x = p.last().0 as int;
        lemma_sq_dev_expand(q, a, c);
        assert((a * x - c) * (a * x - c) == a * a * (x * x) - 2 * a * c * x + c * c) by (nonlinear_arith);
        assert((a * x - c) * (a * x - c) >= 0) by (nonlinear_arith);
        assert(a * a * sum_xx(p) == a * a * sum_xx(q) + a * a * (x * x)) by (nonlinear_arith)
            requires sum_xx(p) == sum_xx(q) + x * x;
        assert(2 * a * c * sum_x(p) == 2 * a * c * sum_x(q) + 2 * a * c * x) by (nonlinear_arith)
            requires sum_x(p) == sum_x(q) + x;
        assert(p.len() * (c * c) == q.len() * (c * c) + c * c) by (nonlinear_arith)
            requires p.len() == q.len() + 1;
    }
}

proof fn lemma_sq_dev_zero(p: Seq<(i32, u32)>, a: int, c: int)
    requires
        sq_dev(p, a, c) == 0,
    ensures
        forall|i: int| 0 <= i < p.len() ==> a * (#[trigger] p[i]).0 == c,
    decreases p.len(),
{
    if p.len() > 0 {
        let q = p.drop_last();
        let x = p.last().0 as int;
        lemma_sq_dev_expand(q, a, c);
        assert((a * x - c) * (a * x - c) >= 0) by (nonlinear_arith);
        assert(a * x - c == 0) by (nonlinear_arith)
            requires (a * x - c) * (a * x - c) == 0;
        lemma_sq_dev_zero(q, a, c);
        assert forall|i: int| 0 <= i < p.len() implies a * (#[trigger] p[i]).0 == c by {
            if i < q.len() {
                assert(p[i] == q[i]);
            }
        }
    }
}

proof fn lemma_constant_sums(p: Seq<(i32, u32)>, x: int)
    requires
        forall|i: int| 0 <= i < p.len() ==> (#[trigger] p[i]).0 == x,
    ensures
        sum_x(p) == p.len() * x,
        sum_xx(p) == p.len() * (x * x),
    decreases p.len(),
{
    if p.len() > 0 {
        let q = p.drop_last();
        assert forall|i: int| 0 <= i < q.len() implies (#[trigger] q[i]).0 == x by {
            assert(q[i] == p[i]);
        }
        lemma_constant_sums(q, x);
        assert(p.len() * x == q.len() * x + x) by (nonlinear_arith)
            requires p.len() == q.len() + 1;
        assert(p.len() * (x * x) == q.len() * (x * x) + x * x) by (nonlinear_arith)
            requires p.len() == q.len() + 1;
    }
}

/// The denominator of the fit is never negative, and is zero exactly when
/// there are fewer than two distinct `x`.
pub proof fn lemma_fit_den(p: Seq<(i32, u32)>)
    ensures
        fit_den(p) >= 0,
        fit_den(p) == 0 <==> !distinct_x(p),
        p.len() * fit_den(p) == sq_dev(p, p.len() as int, sum_x(p)),
{
    let n = p.len() as int;
    let sx = sum_x(p);
    let sxx = sum_xx(p);
    lemma_sq_dev_expand(p, n, sx);
    assert(n * n * sxx - 2 * n * sx * sx + n * (sx * sx) == n * (n * sxx - sx * sx)) by (nonlinear_arith);
    if n == 0 {
        assert(!distinct_x(p));
    } else {
        assert(fit_den(p) >= 0) by (nonlinear_arith)
            requires n * fit_den(p) >= 0, n > 0;
        if fit_den(p) == 0 {
            lemma_sq_dev_zero(p, n, sx);
            assert forall|i: int, j: int| 0 <= i < p.len() && 0 <= j < p.len() implies (#[trigger] p[i]).0 == (#[trigger] p[j]).0 by {
                let xi = p[i].0 as int;
                let xj = p[j].0 as int;
                assert(n * xi == sx && n * xj == sx);
                assert(xi == xj) by (nonlinear_arith)
                    requires n * xi == n * xj, n > 0;
            }
        }
        if !distinct_x(p) {
            let x = p[0].0 as int;
            assert forall|i: int| 0 <= i < p.len() implies (#[trigger] p[i]).0 == x by {
                assert(p[i].0 == p[0].0);
            }
            lemma_constant_sums(p, x);
            assert(n * (n * (x * x)) - (n * x) * (n * x) == 0) by (nonlinear_arith);
        }
    }
}

/// `r` is the least-squares fit of the points `p`.
pub open spec fn fit_of(p: Seq<(i32, u32)>, r: Result<TrendLine, FitError>) -> bool {
    &&& r.is_err() <==> !distinct_x(p)
    &&& r.is_err() ==> r == Err::<TrendLine, FitError>(FitError::Degenerate)
    &&& r.is_ok() ==> r.unwrap().den == fit_den(p) && r.unwrap().den > 0
        && r.unwrap().slope_num == fit_slope_num(p)
        && r.unwrap().intercept_num == fit_intercept_num(p)
}

/// Fits the least-squares line through the points.
///
/// Refused where fewer than two points have distinct `x`; otherwise the slope
/// is `Σ(x − x̄)(y − ȳ) / Σ(x − x̄)²` and the intercept `ȳ − slope x̄`, both
/// given exactly as fractions over a positive common denominator.
pub fn fit(points: &Vec<(i32, u32)>) -> (r: Result<TrendLine, FitError>)
    requires
        points@.len() <= MAX_POINTS,
    ensures
        fit_of(points@, r),
{
    let ghost p = points@;
    let mut sx: i128 = 0;
    let mut sy: i128 = 0;
    let mut sxx: i128 = 0;
    let mut sxy: i128 = 0;
    let mut i: usize = 0;
    while i < points.len()
        invariant
            p == points@,
            p.len() <= MAX_POINTS,
            i <= p.len(),
            sx == sum_x(p.take(i as int)),
            sy == sum_y(p.take(i as int)),
            sxx == sum_xx(p.take(i as int)),
            sxy == sum_xy(p.take(i as int)),
            -(i * 0x8000_0000) <= sx <= i * 0x8000_0000,
            0 <= sy <= i * 0x1_0000_0000,
            0 <= sxx <= i * 0x4000_0000_0000_0000,
            -(i * 0x8000_0000_0000_0000) <= sxy <= i * 0x8000_0000_0000_0000,
        decreases p.len() - i,
    {
        let (x, y) = points[i];
        let xi = x as i128;
        let yi = y as i128;
        proof {
            assert(p.take(i + 1).drop_last() == p.take(i as int));
            assert(p.take(i + 1).last() == (x, y));
            assert(xi * xi <= 0x4000_0000_0000_0000) by (nonlinear_arith)
                requires -0x8000_0000 <= xi <= 0x8000_0000;
            assert(xi * xi >= 0) by (nonlinear_arith);
            assert(-0x8000_0000_0000_0000 <= xi * yi <= 0x8000_0000_0000_0000) by (nonlinear_arith)
                requires -0x8000_0000 <= xi <= 0x8000_0000, 0 <= yi <= 0x1_0000_0000;
        }
        sx = sx + xi;
        sy = sy + yi;
        sxx = sxx + xi * xi;
        sxy = sxy + xi * yi;
        i = i + 1;
    }
    proof {
        assert(p.take(i as int) == p);
    }
    let n = points.len() as i128;
    proof {
        let bx: int = (0x8000_0000 as int) * 0x8000;
        let by_: int = (0x1_0000_0000 as int) * 0x8000;
        let bxx: int = (0x4000_0000_0000_0000 as int) * 0x8000;
        let bxy: int = (0x8000_0000_0000_0000 as int) * 0x8000;
        assert(-bx <= sx <= bx) by (nonlinear_arith)
            requires -(n * 0x8000_0000) <= sx <= n * 0x8000_0000, 0 <= n <= 0x8000, bx == 0x8000_0000 * 0x8000;
        assert(0 <= sy <= by_) by (nonlinear_arith)
            requires 0 <= sy <= n * 0x1_0000_0000, 0 <= n <= 0x8000, by_ == 0x1_0000_0000 * 0x8000;
        assert(0 <= sxx <= bxx) by (nonlinear_arith)
            requires 0 <= sxx <= n * 0x4000_0000_0000_0000, 0 <= n <= 0x8000, bxx == 0x4000_0000_0000_0000 * 0x8000;
        assert(-bxy <= sxy <= bxy) by (nonlinear_arith)
            requires -(n * 0x8000_0000_0000_0000) <= sxy <= n * 0x8000_0000_0000_0000, 0 <= n <= 0x8000, bxy == 0x8000_0000_0000_0000 * 0x8000;
        assert(0 <= n * sxx <= 0x8000 * bxx) by (nonlinear_arith)
            requires 0 <= sxx <= bxx, 0 <= n <= 0x8000;
        assert(0 <= sx * sx <= bx * bx) by (nonlinear_arith)
            requires -bx <= sx <= bx;
        assert(-(0x8000 * bxy) <= n * sxy <= 0x8000 * bxy) by (nonlinear_arith)
            requires -bxy <= sxy <= bxy, 0 <= n <= 0x8000;
        assert(-(bx * by_) <= sx * sy <= bx * by_) by (nonlinear_arith)
            requires -bx <= sx <= bx, 0 <= sy <= by_;
        assert(0 <= sy * sxx <= by_ * bxx) by (nonlinear_arith)
            requires 0 <= sy <= by_, 0 <= sxx <= bxx;
        assert(-(bx * bxy) <= sx * sxy <= bx * bxy) by (nonlinear_arith)
            requires -bx <= sx <= bx, -bxy <= sxy <= bxy;
        lemma_fit_den(p);
    }
    let den = n * sxx - sx * sx;
    if den == 0 {
        return Err(FitError::Degenerate);
    }
    let slope_num = n * sxy - sx * sy;
    let intercept_num = sy * sxx - sx * sxy;
    Ok(TrendLine { slope_num, intercept_num, den })
}

} // verus!
