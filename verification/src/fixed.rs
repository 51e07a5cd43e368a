use vstd::prelude::*;

verus! {

/// Number of raw units in the value one: a `Fixed` holds nine decimal places.
pub const SCALE: i64 = 1_000_000_000;

/// The nearest integer to `x` that an `i64` can hold.
pub open spec fn clamp(x: int) -> int {
    if x < i64::MIN as int {
        i64::MIN as int
    } else if x > i64::MAX as int {
        i64::MAX as int
    } else {
        x
    }
}

/// Whether `r` is the integer square root of `x`, rounded down.
pub open spec fn is_floor_sqrt(r: int, x: int) -> bool {
    0 <= r && r * r <= x < (r + 1) * (r + 1)
}

/// The integer square root of `x`, rounded down.
pub open spec fn floor_sqrt(x: int) -> int {
    choose|r: int| is_floor_sqrt(r, x)
}

/// A number has at most one rounded-down square root.
pub proof fn lemma_floor_sqrt_unique(r1: int, r2: int, x: int)
    requires
        is_floor_sqrt(r1, x),
        is_floor_sqrt(r2, x),
    ensures
        r1 == r2,
{
    if r1 < r2 {
        assert((r1 + 1) * (r1 + 1) <= r2 * r2) by (nonlinear_arith)
            requires
                0 <= r1,
                r1 + 1 <= r2,
        ;
    } else if r2 < r1 {
        assert((r2 + 1) * (r2 + 1) <= r1 * r1) by (nonlinear_arith)
            requires
                0 <= r2,
                r2 + 1 <= r1,
        ;
    }
}

/// A signed decimal fixed-point number: the value `raw / SCALE`.
///
/// Every operation rounds towards minus infinity to a whole number of raw
/// units and saturates at the ends of the `i64` range, so each one is a total
/// function with an exact integer model.
#[derive(Clone, Copy, Debug, PartialEq, Eq, Structural)]
pub struct Fixed {
    pub raw: i64,
}

/// Brings a wide intermediate result back into the `i64` range.
pub(crate) fn narrow(x: i128) -> (r: i64)
    ensures
        r as int == clamp(x as int),
{
    if x < i64::MIN as i128 {
        i64::MIN
    } else if x > i64::MAX as i128 {
        i64::MAX
    } else {
        x as i64
    }
}

/// `x / d` rounded towards minus infinity, for a positive divisor.
pub(crate) fn floor_div(x: i128, d: i128) -> (q: i128)
    requires
        d > 0,
    ensures
        q as int == (x as int) / (d as int),
{
    proof {
        lemma_quotient_bounds(x as int, d as int);
    }
    match x.checked_div_euclid(d) {
        Some(q) => q,
        None => vstd::pervasive::unreached(),
    }
}

/// Dividing by a positive number brings a value no further from zero.
pub proof fn lemma_quotient_bounds(x: int, d: int)
    requires
        d > 0,
    ensures
        x >= 0 ==> 0 <= x / d <= x,
        x < 0 ==> x <= x / d < 0,
{
    vstd::arithmetic::div_mod::lemma_fundamental_div_mod(x, d);
    vstd::arithmetic::div_mod::lemma_mod_bound(x, d);
    let q = x / d;
    let r = x % d;
    assert(x == d * q + r);
    if x >= 0 {
        assert(q >= 0) by (nonlinear_arith)
            requires
                x == d * q + r,
                0 <= r < d,
                x >= 0,
                d > 0,
        ;
        assert(q <= x) by (nonlinear_arith)
            requires
                x == d * q + r,
                0 <= r < d,
                q >= 0,
                d >= 1,
        ;
    } else {
        assert(q < 0) by (nonlinear_arith)
            requires
                x == d * q + r,
                0 <= r < d,
                x < 0,
                d > 0,
        ;
        assert(q >= x) by (nonlinear_arith)
            requires
                x == d * q + r,
                0 <= r < d,
                q < 0,
                d >= 1,
        ;
    }
}

impl Fixed {
    /// Model of [`Fixed::sat_add`].
    pub open spec fn spec_add(self, rhs: Fixed) -> Fixed {
        Fixed { raw: clamp(self.raw + rhs.raw) as i64 }
    }

    /// Model of [`Fixed::sat_sub`].
    pub open spec fn spec_sub(self, rhs: Fixed) -> Fixed {
        Fixed { raw: clamp(self.raw - rhs.raw) as i64 }
    }

    /// Model of [`Fixed::sat_mul`]: the exact product, rounded down.
    pub open spec fn spec_mul(self, rhs: Fixed) -> Fixed {
        Fixed { raw: clamp((self.raw * rhs.raw) / (SCALE as int)) as i64 }
    }

    /// Model of [`Fixed::checked_div`] for a divisor other than zero: the
    /// exact quotient, rounded down.
    pub open spec fn spec_div(self, rhs: Fixed) -> Fixed {
        if rhs.raw > 0 {
            Fixed { raw: clamp((self.raw * SCALE) / (rhs.raw as int)) as i64 }
        } else {
            Fixed { raw: clamp((-self.raw * SCALE) / (-rhs.raw as int)) as i64 }
        }
    }

    /// Model of [`Fixed::div_count`]: one `n`-th of the value, rounded down.
    pub open spec fn spec_div_count(self, n: int) -> Fixed {
        Fixed { raw: ((self.raw as int) / n) as i64 }
    }

    /// Model of [`Fixed::abs_diff`]: the distance between two values.
    pub open spec fn spec_abs_diff(self, rhs: Fixed) -> Fixed {
        Fixed { raw: clamp(distance(self.raw as int, rhs.raw as int)) as i64 }
    }

    /// Model of [`Fixed::sqrt_count`]: the square root of a count.
    pub open spec fn spec_sqrt_count(n: int) -> Fixed {
        Fixed { raw: floor_sqrt(n * SCALE * SCALE) as i64 }
    }

    /// Whether the value lies in the closed unit interval.
    pub open spec fn is_unit(self) -> bool {
        0 <= self.raw <= SCALE
    }

    pub fn zero() -> (r: Fixed)
        ensures
            r.raw == 0,
    {
        Fixed { raw: 0 }
    }

    pub fn one() -> (r: Fixed)
        ensures
            r.raw == SCALE,
    {
        Fixed { raw: SCALE }
    }

    /// The whole number `n`, saturated.
    pub fn from_int(n: i64) -> (r: Fixed)
        ensures
            r == whole(n as int),
    {
        assert(-0x4000_0000_0000_0000_0000_0000 <= n * SCALE <= 0x4000_0000_0000_0000_0000_0000)
            by (nonlinear_arith)
            requires
                -0x8000_0000_0000_0000 <= n <= 0x8000_0000_0000_0000,
                SCALE == 1_000_000_000,
        ;
        let wide: i128 = (n as i128) * (SCALE as i128);
        Fixed { raw: narrow(wide) }
    }

    /// Whether the value lies in the closed unit interval.
    pub fn in_unit_interval(self) -> (b: bool)
        ensures
            b == self.is_unit(),
    {
        0 <= self.raw && self.raw <= SCALE
    }

    /// Saturating sum.
    pub fn sat_add(self, rhs: Fixed) -> (r: Fixed)
        ensures
            r == self.spec_add(rhs),
    {
        let wide: i128 = self.raw as i128 + rhs.raw as i128;
        Fixed { raw: narrow(wide) }
    }

    /// Saturating difference.
    pub fn sat_sub(self, rhs: Fixed) -> (r: Fixed)
        ensures
            r == self.spec_sub(rhs),
    {
        let wide: i128 = self.raw as i128 - rhs.raw as i128;
        Fixed { raw: narrow(wide) }
    }

    /// Saturating product, rounded down to a whole raw unit.
    pub fn sat_mul(self, rhs: Fixed) -> (r: Fixed)
        ensures
            r == self.spec_mul(rhs),
    {
        assert(-0x4000_0000_0000_0000_0000_0000_0000_0000 <= self.raw * rhs.raw
            <= 0x4000_0000_0000_0000_0000_0000_0000_0000) by (nonlinear_arith)
            requires
                -0x8000_0000_0000_0000 <= self.raw <= 0x8000_0000_0000_0000,
                -0x8000_0000_0000_0000 <= rhs.raw <= 0x8000_0000_0000_0000,
        ;
        let wide: i128 = (self.raw as i128) * (rhs.raw as i128);
        Fixed { raw: narrow(floor_div(wide, SCALE as i128)) }
    }

    /// Saturating quotient, rounded down to a whole raw unit; `None` exactly
    /// when the divisor is zero.
    pub fn checked_div(self, rhs: Fixed) -> (r: Option<Fixed>)
        ensures
            rhs.raw == 0 <==> r is None,
            rhs.raw != 0 ==> r == Some(self.spec_div(rhs)),
    {
        if rhs.raw == 0 {
            return None;
        }
        assert(-0x4000_0000_0000_0000_0000_0000 <= self.raw * SCALE
            <= 0x4000_0000_0000_0000_0000_0000) by (nonlinear_arith)
            requires
                -0x8000_0000_0000_0000 <= self.raw <= 0x8000_0000_0000_0000,
                SCALE == 1_000_000_000,
        ;
        let wide: i128 = (self.raw as i128) * (SCALE as i128);
        if rhs.raw > 0 {
            Some(Fixed { raw: narrow(floor_div(wide, rhs.raw as i128)) })
        } else {
            assert(-self.raw * SCALE == -(self.raw * SCALE)) by (nonlinear_arith);
            Some(Fixed { raw: narrow(floor_div(-wide, -(rhs.raw as i128))) })
        }
    }

    /// One `n`-th of the value, rounded down to a whole raw unit.
    pub fn div_count(self, n: u64) -> (r: Fixed)
        requires
            n > 0,
        ensures
            r == self.spec_div_count(n as int),
    {
        proof {
            lemma_quotient_bounds(self.raw as int, n as int);
        }
        let q: i128 = floor_div(self.raw as i128, n as i128);
        Fixed { raw: q as i64 }
    }

    /// The distance between two values, saturated.
    pub fn abs_diff(self, rhs: Fixed) -> (r: Fixed)
        ensures
            r == self.spec_abs_diff(rhs),
    {
        let wide: i128 = self.raw as i128 - rhs.raw as i128;
        if wide >= 0 {
            Fixed { raw: narrow(wide) }
        } else {
            Fixed { raw: narrow(-wide) }
        }
    }

    /// The square root of the count `n`, rounded down to a whole raw unit.
    pub fn sqrt_count(n: usize) -> (r: Fixed)
        ensures
            r == Fixed::spec_sqrt_count(n as int),
            is_floor_sqrt(r.raw as int, n * SCALE * SCALE),
    {
        assert(0 <= n * SCALE * SCALE < 0x1000_0000_0000_0000_0000_0000_0000_0000)
            by (nonlinear_arith)
            requires
                0 <= n <= 0xffff_ffff_ffff_ffff,
                SCALE == 1_000_000_000,
        ;
        assert(0 <= n * SCALE <= 0x1_0000_0000_0000_0000_0000_0000) by (nonlinear_arith)
            requires
                0 <= n <= 0xffff_ffff_ffff_ffff,
                SCALE == 1_000_000_000,
        ;
        let x: u128 = (n as u128) * (SCALE as u128) * (SCALE as u128);
        let mut lo: u128 = 0;
        let mut hi: u128 = 0x4000_0000_0000_0000;
        assert(x < hi * hi) by (nonlinear_arith)
            requires
                x < 0x1000_0000_0000_0000_0000_0000_0000_0000,
                hi == 0x4000_0000_0000_0000,
        ;
        assert(lo * lo <= x) by (nonlinear_arith)
            requires
                lo == 0,
                x >= 0,
        ;
        while hi - lo > 1
            invariant
                lo < hi <= 0x4000_0000_0000_0000,
                lo * lo <= x < hi * hi,
            decreases hi - lo,
        {
            let mid: u128 = lo + (hi - lo) / 2;
            assert(mid * mid <= 0x1000_0000_0000_0000_0000_0000_0000_0000) by (nonlinear_arith)
                requires
                    0 <= mid <= 0x4000_0000_0000_0000,
            ;
            if mid * mid <= x {
                lo = mid;
            } else {
                hi = mid;
            }
        }
        proof {
            assert(hi == lo + 1);
            assert(is_floor_sqrt(lo as int, x as int));
            assert(x as int == n * SCALE * SCALE);
            lemma_floor_sqrt_unique(lo as int, floor_sqrt(x as int), x as int);
        }
        Fixed { raw: lo as i64 }
    }
}

/// Dividing a value that is not negative by a fraction of one does not make
/// it smaller.
pub proof fn lemma_div_by_fraction(w: Fixed, b: Fixed)
    requires
        w.raw >= 0,
        0 < b.raw <= SCALE,
    ensures
        w.spec_div(b).raw >= w.raw,
{
    let x = w.raw * SCALE;
    let y = w.raw * b.raw;
    assert(y <= x) by (nonlinear_arith)
        requires
            x == w.raw * SCALE,
            y == w.raw * b.raw,
            w.raw >= 0,
            0 < b.raw <= SCALE,
    ;
    vstd::arithmetic::div_mod::lemma_div_is_ordered(y, x, b.raw as int);
    vstd::arithmetic::div_mod::lemma_div_multiples_vanish(w.raw as int, b.raw as int);
    assert(y == b.raw * w.raw) by (nonlinear_arith)
        requires
            y == w.raw * b.raw,
    ;
}

/// The sum of the first `k` of `values`, added up in their order.
pub open spec fn fixed_sum(values: Seq<Fixed>, k: int) -> Fixed
    decreases k,
{
    if k <= 0 {
        Fixed { raw: 0 }
    } else {
        fixed_sum(values, k - 1).spec_add(values[k - 1])
    }
}

/// A further value leaves the sum of the values before it as it is.
pub proof fn lemma_fixed_sum_push(values: Seq<Fixed>, value: Fixed, k: int)
    requires
        k <= values.len(),
    ensures
        fixed_sum(values.push(value), k) == fixed_sum(values, k),
    decreases k,
{
    if k > 0 {
        lemma_fixed_sum_push(values, value, k - 1);
    }
}

/// The whole number `n` as a `Fixed`, saturated.
pub open spec fn whole(n: int) -> Fixed {
    Fixed { raw: clamp(n * SCALE) as i64 }
}

/// The distance between two integers.
pub open spec fn distance(a: int, b: int) -> int {
    if a >= b {
        a - b
    } else {
        b - a
    }
}

} // verus!
