//! Fixed-point geometry.
//!
//! Positions and distances on the desktop are whole numbers of *sub-pixels*, 65 536 to the pixel,
//! so fractional mouse motion is kept and every comparison is exact. UI scales and speed ratios
//! are counted in millionths, and a place along an edge is a fraction with 32 binary digits.

use vstd::prelude::*;

verus! {

/// Sub-pixels in one pixel.
pub const SUBPX: i64 = 65_536;

/// The scale or speed ratio 1.
pub const RATIO_ONE: i64 = 1_000_000;

/// The fraction 1: the far end of an edge.
pub const FRACTION_ONE: i64 = 4_294_967_296;

/// `v`, held inside the range of an `i64`.
pub open spec fn sat(v: int) -> int {
    clamped(v, i64::MIN as int, i64::MAX as int)
}

/// `v`, pulled up to `lo` or down to `hi`.
pub open spec fn clamped(v: int, lo: int, hi: int) -> int {
    if v < lo {
        lo
    } else if v > hi {
        hi
    } else {
        v
    }
}

/// The whole number nearest to `n / d`, halves rounded up.
pub open spec fn nearest(n: int, d: int) -> int {
    (2 * n + d) / (2 * d)
}

/// How far `v` lies outside `lo..=hi`: 0 inside.
pub open spec fn outside(v: int, lo: int, hi: int) -> int {
    if v < lo {
        lo - v
    } else if v > hi {
        v - hi
    } else {
        0
    }
}

/// The square of a distance given by its two components.
pub open spec fn dist2(dx: int, dy: int) -> int {
    dx * dx + dy * dy
}

/// Where `v` lies between `lo` and `hi`, as a fraction held inside 0 to 1.
///
/// An edge of no length counts as passed once `v` is beyond it.
pub open spec fn fraction(v: int, lo: int, hi: int) -> int {
    if hi <= lo {
        if v > lo {
            FRACTION_ONE as int
        } else {
            0
        }
    } else {
        clamped(nearest((v - lo) * FRACTION_ONE, hi - lo), 0, FRACTION_ONE as int)
    }
}

/// The point that lies the fraction `f` of the way from `lo` to `hi`.
pub open spec fn along(f: int, lo: int, hi: int) -> int {
    sat(lo + nearest(f * (hi - lo), FRACTION_ONE as int))
}

/// A distance multiplied by a ratio.
pub open spec fn scaled(d: int, ratio: int) -> int {
    sat(nearest(d * ratio, RATIO_ONE as int))
}

/// The index of the first element that `p` holds of, or the length where it holds of none.
pub open spec fn first_where<A>(s: Seq<A>, p: spec_fn(A) -> bool) -> int
    decreases s.len(),
{
    if s.len() == 0 {
        0
    } else {
        let r = first_where(s.drop_last(), p);
        if r == s.len() - 1 && !p(s.last()) {
            s.len() as int
        } else {
            r
        }
    }
}

/// The index of the first of the elements with the smallest `d` among those that `p` holds of, or
/// the length where it holds of none.
pub open spec fn nearest_where<A>(s: Seq<A>, p: spec_fn(A) -> bool, d: spec_fn(A) -> int) -> int
    decreases s.len(),
{
    if s.len() == 0 {
        0
    } else {
        let n = s.len() - 1;
        let r = nearest_where(s.drop_last(), p, d);
        if p(s.last()) && (r == n || d(s.last()) < d(s[r])) {
            n
        } else if r == n {
            s.len() as int
        } else {
            r
        }
    }
}

/// What `nearest_where` finds is as near as any, and nearer than those before it.
pub proof fn lemma_nearest_where<A>(s: Seq<A>, p: spec_fn(A) -> bool, d: spec_fn(A) -> int)
    ensures
        0 <= nearest_where(s, p, d) <= s.len(),
        nearest_where(s, p, d) < s.len() <==> exists|i: int| 0 <= i < s.len() && p(#[trigger] s[i]),
        nearest_where(s, p, d) < s.len() ==> {
            let r = nearest_where(s, p, d);
            &&& p(s[r])
            &&& forall|j: int| 0 <= j < s.len() && p(#[trigger] s[j]) ==> d(s[r]) <= d(s[j])
            &&& forall|j: int| 0 <= j < r && p(#[trigger] s[j]) ==> d(s[r]) < d(s[j])
        },
    decreases s.len(),
{
    if s.len() > 0 {
        let t = s.drop_last();
        let n = s.len() - 1;
        lemma_nearest_where(t, p, d);
        assert forall|j: int| 0 <= j < n implies t[j] == #[trigger] s[j] by {}
        assert(s[n] == s.last());
        let q = nearest_where(t, p, d);
        if q < n {
            assert(t[q] == s[q]);
        } else {
            assert forall|j: int| 0 <= j < n implies !p(#[trigger] s[j]) by {
                assert(t[j] == s[j]);
            }
        }
    }
}

/// What `first_where` finds is the first element that the predicate holds of.
pub proof fn lemma_first_where<A>(s: Seq<A>, p: spec_fn(A) -> bool)
    ensures
        0 <= first_where(s, p) <= s.len(),
        first_where(s, p) < s.len() ==> p(s[first_where(s, p)]),
        forall|j: int| 0 <= j < first_where(s, p) ==> !p(#[trigger] s[j]),
    decreases s.len(),
{
    if s.len() > 0 {
        lemma_first_where(s.drop_last(), p);
        assert forall|j: int| 0 <= j < first_where(s, p) implies !p(#[trigger] s[j]) by {
            if j < s.len() - 1 {
                assert(s[j] == s.drop_last()[j]);
            }
        }
        let r = first_where(s.drop_last(), p);
        if r < s.len() - 1 {
            assert(s.drop_last()[r] == s[r]);
        }
    }
}

/// An index with the properties of the first match is the one that `first_where` finds.
pub proof fn lemma_first_where_unique<A>(s: Seq<A>, p: spec_fn(A) -> bool, i: int)
    requires
        0 <= i <= s.len(),
        i < s.len() ==> p(s[i]),
        forall|j: int| 0 <= j < i ==> !p(#[trigger] s[j]),
    ensures
        first_where(s, p) == i,
{
    lemma_first_where(s, p);
    let r = first_where(s, p);
    if r < i {
        assert(!p(s[r]));
    } else if i < r {
        assert(!p(s[i]));
    }
}

/// Dividing by a whole number never takes a number further from 0, but for the rounding.
pub proof fn lemma_nearest_bounds(n: int, d: int)
    requires
        d > 0,
    ensures
        n >= 0 ==> 0 <= nearest(n, d) <= n + 1,
        n <= 0 ==> n - 1 <= nearest(n, d) <= 1,
{
    let q = nearest(n, d);
    let m = 2 * n + d;
    let e = 2 * d;
    assert(e * q <= m < e * q + e) by (nonlinear_arith)
        requires
            e > 0,
            q == m / e,
    ;
    if n >= 0 {
        assert(0 <= q) by (nonlinear_arith)
            requires
                m < e * q + e,
                m >= 0,
                e > 0,
        ;
        assert(q <= n + 1) by (nonlinear_arith)
            requires
                e * q <= m,
                m == 2 * n + d,
                e == 2 * d,
                d > 0,
                n >= 0,
        ;
    }
    if n <= 0 {
        assert(q <= 1) by (nonlinear_arith)
            requires
                e * q <= m,
                m == 2 * n + d,
                e == 2 * d,
                d > 0,
                n <= 0,
        ;
        assert(n - 1 <= q) by (nonlinear_arith)
            requires
                m < e * q + e,
                m == 2 * n + d,
                e == 2 * d,
                d > 0,
                n <= 0,
        ;
    }
}

/// A place along an edge is found again from the fraction that was sent for it, exactly, on every
/// edge of the same length of up to 65 536 pixels.
pub proof fn places_are_found_again(v: int, lo: int, hi: int, lo2: int)
    requires
        lo <= v <= hi,
        lo < hi,
        hi - lo < FRACTION_ONE,
        i64::MIN <= lo2,
        lo2 + (hi - lo) <= i64::MAX,
    ensures
        along(fraction(v, lo, hi), lo2, lo2 + (hi - lo)) == lo2 + (v - lo),
{
    let one = FRACTION_ONE as int;
    let h = hi - lo;
    let a = v - lo;
    let q = nearest(a * one, h);
    lemma_nearest(a * one, h);
    assert(0 <= q <= one) by {
        lemma_nearest_bounds(a * one, h);
        assert(a * one >= 0) by (nonlinear_arith)
            requires
                a >= 0,
                one >= 0,
        ;
        assert(q <= one) by (nonlinear_arith)
            requires
                2 * (h * q) <= 2 * (a * one) + h,
                a <= h,
                h > 0,
                one > 0,
        ;
    }
    assert(fraction(v, lo, hi) == q);
    let p = nearest(q * h, one);
    lemma_nearest(q * h, one);
    assert(q * h == h * q) by (nonlinear_arith);
    assert(p == a) by (nonlinear_arith)
        requires
            -h <= 2 * (h * q) - 2 * (a * one) <= h,
            -one <= 2 * (one * p) - 2 * (h * q) <= one,
            h < one,
            one > 0,
    ;
}

/// The nearest whole number is at most a half away.
pub proof fn lemma_nearest(n: int, d: int)
    requires
        d > 0,
    ensures
        -d <= 2 * (d * nearest(n, d)) - 2 * n <= d,
        2 * (d * nearest(n, d)) <= 2 * n + d,
{
    let q = nearest(n, d);
    let m = 2 * n + d;
    let e = 2 * d;
    assert(e * q <= m < e * q + e) by (nonlinear_arith)
        requires
            e > 0,
            q == m / e,
    ;
    assert(e * q == 2 * (d * q)) by (nonlinear_arith)
        requires
            e == 2 * d,
    ;
}

/// Brings `v` into the range of an `i64`.
pub fn saturate(v: i128) -> (r: i64)
    ensures
        r == sat(v as int),
{
    if v < i64::MIN as i128 {
        i64::MIN
    } else if v > i64::MAX as i128 {
        i64::MAX
    } else {
        v as i64
    }
}

/// `v`, pulled up to `lo` or down to `hi`.
pub fn clamp(v: i64, lo: i64, hi: i64) -> (r: i64)
    requires
        lo <= hi,
    ensures
        r == clamped(v as int, lo as int, hi as int),
{
    if v < lo {
        lo
    } else if v > hi {
        hi
    } else {
        v
    }
}

/// The whole number nearest to `n / d`, halves rounded up.
pub fn div_nearest(n: i128, d: i128) -> (r: i128)
    requires
        0 < d <= 0x1_0000_0000_0000_0000,
        -0x1000_0000_0000_0000_0000_0000_0000_0000 <= n <= 0x1000_0000_0000_0000_0000_0000_0000_0000,
    ensures
        r == nearest(n as int, d as int),
{
    let m: i128 = 2 * n + d;
    let e: i128 = 2 * d;
    if m >= 0 {
        m / e
    } else {
        let k: i128 = (-m + (e - 1)) / e;
        proof {
            let (m, e, k) = (m as int, e as int, k as int);
            assert(k == (-m + e - 1) / e);
            assert(m / e == -k) by (nonlinear_arith)
                requires
                    m < 0,
                    e > 0,
                    k == (-m + e - 1) / e,
            ;
        }
        -k
    }
}

/// The square of a distance: `dx` and `dy` are its components.
pub fn square_sum(dx: i128, dy: i128) -> (r: u128)
    requires
        -0x8002_0000_0000_0000 <= dx <= 0x8002_0000_0000_0000,
        -0x8002_0000_0000_0000 <= dy <= 0x8002_0000_0000_0000,
    ensures
        r == dist2(dx as int, dy as int),
{
    let x: u128 = if dx < 0 { (-dx) as u128 } else { dx as u128 };
    let y: u128 = if dy < 0 { (-dy) as u128 } else { dy as u128 };
    proof {
        let (xi, yi) = (x as int, y as int);
        let (di, ei) = (dx as int, dy as int);
        assert(xi * xi <= 0x8002_0000_0000_0000 * 0x8002_0000_0000_0000) by (nonlinear_arith)
            requires
                0 <= xi <= 0x8002_0000_0000_0000,
        ;
        assert(yi * yi <= 0x8002_0000_0000_0000 * 0x8002_0000_0000_0000) by (nonlinear_arith)
            requires
                0 <= yi <= 0x8002_0000_0000_0000,
        ;
        assert(xi * xi == di * di) by (nonlinear_arith)
            requires
                xi == di || xi == -di,
        ;
        assert(yi * yi == ei * ei) by (nonlinear_arith)
            requires
                yi == ei || yi == -ei,
        ;
        assert(xi * xi >= 0) by (nonlinear_arith);
        assert(yi * yi >= 0) by (nonlinear_arith);
    }
    x * x + y * y
}

/// How far `v` lies outside `lo..=hi`: 0 inside.
pub fn distance_outside(v: i64, lo: i64, hi: i64) -> (r: i128)
    ensures
        r == outside(v as int, lo as int, hi as int),
{
    if v < lo {
        lo as i128 - v as i128
    } else if v > hi {
        v as i128 - hi as i128
    } else {
        0
    }
}

/// Where `v` lies between `lo` and `hi`, as a fraction held inside 0 to 1.
pub fn fraction_of(v: i64, lo: i64, hi: i64) -> (r: i64)
    ensures
        r == fraction(v as int, lo as int, hi as int),
{
    if hi <= lo {
        if v > lo {
            FRACTION_ONE
        } else {
            0
        }
    } else {
        let from: i128 = v as i128 - lo as i128;
        let one: i128 = FRACTION_ONE as i128;
        assert(-0x1000_0000_0000_0000_0000_0000_0000_0000 <= from * one <= 0x1000_0000_0000_0000_0000_0000_0000_0000)
            by (nonlinear_arith)
            requires
                -0x1_0000_0000_0000_0000 <= from <= 0x1_0000_0000_0000_0000,
                one == 4_294_967_296,
        ;
        let q: i128 = div_nearest(from * one, hi as i128 - lo as i128);
        if q < 0 {
            0
        } else if q > FRACTION_ONE as i128 {
            FRACTION_ONE
        } else {
            q as i64
        }
    }
}

/// The point that lies the fraction `f` of the way from `lo` to `hi`.
pub fn point_along(f: i64, lo: i64, hi: i64) -> (r: i64)
    requires
        -0x8_0000_0000_0000 <= lo <= 0x8_0000_0000_0000,
        -0x8_0000_0000_0000 <= hi <= 0x8_0000_0000_0000,
    ensures
        r == along(f as int, lo as int, hi as int),
{
    let span: i128 = hi as i128 - lo as i128;
    proof {
        let (fi, si) = (f as int, span as int);
        assert(-0x1000_0000_0000_0000_0000_0000_0000_0000 <= fi * si <= 0x1000_0000_0000_0000_0000_0000_0000_0000)
            by (nonlinear_arith)
            requires
                -0x8000_0000_0000_0000 <= fi <= 0x7fff_ffff_ffff_ffff,
                -0x10_0000_0000_0000 <= si <= 0x10_0000_0000_0000,
        ;
    }
    let q: i128 = div_nearest(f as i128 * span, FRACTION_ONE as i128);
    proof {
        lemma_nearest_bounds(f * span, FRACTION_ONE as int);
    }
    saturate(lo as i128 + q)
}

/// A distance multiplied by a ratio.
pub fn scale_by(d: i64, ratio: i64) -> (r: i64)
    requires
        0 <= ratio <= 0x8000_0000_0000,
    ensures
        r == scaled(d as int, ratio as int),
{
    proof {
        let (di, ri) = (d as int, ratio as int);
        assert(-0x1000_0000_0000_0000_0000_0000_0000_0000 <= di * ri <= 0x1000_0000_0000_0000_0000_0000_0000_0000)
            by (nonlinear_arith)
            requires
                -0x8000_0000_0000_0000 <= di <= 0x7fff_ffff_ffff_ffff,
                0 <= ri <= 0x8000_0000_0000,
        ;
    }
    saturate(div_nearest(d as i128 * ratio as i128, RATIO_ONE as i128))
}

/// A position that is a whole number of pixels, in pixels.
pub fn whole_pixels(v: i64) -> (r: i64)
    requires
        v % SUBPX == 0,
        v > i64::MIN,
    ensures
        r == v / SUBPX,
{
    if v >= 0 {
        v / SUBPX
    } else {
        -((-v) / SUBPX)
    }
}

} // verus!
