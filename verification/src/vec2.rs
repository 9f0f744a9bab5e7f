//! Plane vectors in fixed-point coordinates.

use vstd::prelude::*;

verus! {

/// A 2D vector of fixed-point (milli-unit) coordinates. A value type:
/// every operation returns a new vector.
#[derive(Clone, Copy, Debug, PartialEq, Eq, Structural)]
pub struct Vec2 {
    pub x: i64,
    pub y: i64,
}

/// `v` clamped into `[lo, hi]`.
pub open spec fn spec_clamp(v: int, lo: int, hi: int) -> int {
    if v < lo {
        lo
    } else if v > hi {
        hi
    } else {
        v
    }
}

/// `a * b / MILLI`, rounded toward zero, for `b >= 0`: the fixed-point
/// product of a quantity with a non-negative scalar (a duration, a
/// restitution fraction). Splitting on the sign of `a` keeps the spec
/// division non-negative, where Euclidean and truncating division agree.
pub open spec fn spec_scale_milli(a: int, b: int) -> int
    recommends
        b >= 0,
{
    if a >= 0 {
        (a * b) / (crate::params::MILLI as int)
    } else {
        -(((-a) * b) / (crate::params::MILLI as int))
    }
}

/// Executable twin of `spec_clamp`.
pub fn clamp_i64(v: i64, lo: i64, hi: i64) -> (r: i64)
    requires
        lo <= hi,
    ensures
        r == spec_clamp(v as int, lo as int, hi as int),
        lo <= r <= hi,
{
    if v < lo {
        lo
    } else if v > hi {
        hi
    } else {
        v
    }
}

/// Executable twin of `spec_scale_milli`.
pub fn scale_milli(a: i64, b: i64) -> (r: i64)
    requires
        0 <= b,
        i64::MIN < a,
        a * b <= i64::MAX,
        -(i64::MAX as int) <= a * b,
    ensures
        r == spec_scale_milli(a as int, b as int),
{
    if a >= 0 {
        (a * b) / crate::params::MILLI
    } else {
        let m = -a;
        assert(m * b == -(a * b)) by (nonlinear_arith)
            requires m == -a;
        -((m * b) / crate::params::MILLI)
    }
}

impl Vec2 {
    /// The vector `(x, y)`.
    pub fn new(x: i64, y: i64) -> (r: Vec2)
        ensures
            r.x == x,
            r.y == y,
    {
        Vec2 { x, y }
    }

    /// Componentwise sum.
    pub fn plus(self, o: Vec2) -> (r: Vec2)
        requires
            i64::MIN <= self.x + o.x <= i64::MAX,
            i64::MIN <= self.y + o.y <= i64::MAX,
        ensures
            r.x == self.x + o.x,
            r.y == self.y + o.y,
    {
        Vec2 { x: self.x + o.x, y: self.y + o.y }
    }

    /// Componentwise difference.
    pub fn minus(self, o: Vec2) -> (r: Vec2)
        requires
            i64::MIN <= self.x - o.x <= i64::MAX,
            i64::MIN <= self.y - o.y <= i64::MAX,
        ensures
            r.x == self.x - o.x,
            r.y == self.y - o.y,
    {
        Vec2 { x: self.x - o.x, y: self.y - o.y }
    }

    /// The vector scaled by the fixed-point factor `k / MILLI`, `k >= 0`.
    pub fn scaled_milli(self, k: i64) -> (r: Vec2)
        requires
            0 <= k,
            i64::MIN < self.x,
            i64::MIN < self.y,
            self.x * k <= i64::MAX,
            -(i64::MAX as int) <= self.x * k,
            self.y * k <= i64::MAX,
            -(i64::MAX as int) <= self.y * k,
        ensures
            r.x == spec_scale_milli(self.x as int, k as int),
            r.y == spec_scale_milli(self.y as int, k as int),
    {
        Vec2 { x: scale_milli(self.x, k), y: scale_milli(self.y, k) }
    }

    /// Squared Euclidean length, exact.
    pub open spec fn spec_len_sq(self) -> int {
        self.x * self.x + self.y * self.y
    }

    /// Euclidean length in milli-units, rounded down: the unique `r` with
    /// `r^2 <= x^2 + y^2 < (r+1)^2`.
    pub fn length(self) -> (r: i64)
        requires
            -(crate::params::COORD_LIMIT as int) <= self.x <= crate::params::COORD_LIMIT,
            -(crate::params::COORD_LIMIT as int) <= self.y <= crate::params::COORD_LIMIT,
        ensures
            0 <= r,
            r * r <= self.spec_len_sq(),
            self.spec_len_sq() < (r + 1) * (r + 1),
    {
        assert(self.x * self.x <= 1_000_000_000_000_000_000 && self.x * self.x >= 0)
            by (nonlinear_arith)
            requires -1_000_000_000 <= self.x <= 1_000_000_000;
        assert(self.y * self.y <= 1_000_000_000_000_000_000 && self.y * self.y >= 0)
            by (nonlinear_arith)
            requires -1_000_000_000 <= self.y <= 1_000_000_000;
        let sq: i64 = self.x * self.x + self.y * self.y;
        let r = isqrt_u64(sq as u64);
        assert(r * r <= sq < (r + 1) * (r + 1));
        assert(r < 2_000_000_000) by (nonlinear_arith)
            requires r * r <= 2_000_000_000_000_000_000, 0 <= r;
        r as i64
    }
}

/// Integer square root by bisection: the unique `r` with
/// `r^2 <= n < (r+1)^2`.
pub fn isqrt_u64(n: u64) -> (r: u64)
    ensures
        r * r <= n,
        n < (r + 1) * (r + 1),
{
    if n == 0 {
        return 0;
    }
    let mut lo: u64 = 0;
    let mut hi: u64 = 4_294_967_296;
    assert(n < hi * hi) by (nonlinear_arith)
        requires n <= u64::MAX, hi == 4_294_967_296u64;
    while lo + 1 < hi
        invariant
            lo < hi,
            hi <= 4_294_967_296,
            lo * lo <= n,
            n < hi * hi,
        decreases hi - lo,
    {
        let mid = lo + (hi - lo) / 2;
        let midw = mid as u128;
        assert(midw * midw <= 0x1_0000_0000_0000_0000) by (nonlinear_arith)
            requires midw <= 0x1_0000_0000u128;
        if midw * midw <= n as u128 {
            lo = mid;
        } else {
            hi = mid;
        }
    }
    lo
}

} // verus!
