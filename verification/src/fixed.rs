//! 16.16 fixed-point scalars: the unit, the integer square root and the
//! interpolation that turns a uniform 32-bit draw into a value of a range.
use vstd::prelude::*;

verus! {

/// The fixed-point representation of 1: one grid cell for a length, 1.0 for a
/// field value. A stored integer `v` stands for the real number `v / ONE`.
pub const ONE: i64 = 65536;

/// The largest magnitude that a radius, a velocity component or an end of a
/// configured range may have: 2^40 units, or 2^24 cells. It keeps every
/// intermediate product of a step and of a field sample within the machine
/// integers.
pub const REACH: i64 = 0x100_0000_0000;

/// The number of distinct values of a 32-bit draw.
pub const DRAWS: i128 = 0x1_0000_0000;

/// `s` is the integer square root of `n`, rounded down.
pub open spec fn is_sqrt_floor(n: nat, s: nat) -> bool {
    s * s <= n < (s + 1) * (s + 1)
}

/// The integer square root of `n`, rounded down: the one `s` with
/// `s * s <= n < (s + 1) * (s + 1)`.
pub open spec fn sqrt_floor(n: nat) -> nat {
    choose|s: nat| #[trigger] is_sqrt_floor(n, s)
}

/// Every natural number has a rounded-down square root.
pub proof fn lemma_sqrt_floor_exists(n: nat)
    ensures
        exists|s: nat| #[trigger] is_sqrt_floor(n, s),
    decreases n,
{
    if n == 0 {
        assert(0nat * 0nat == 0 && (0nat + 1) * (0nat + 1) == 1) by (nonlinear_arith);
        assert(is_sqrt_floor(0, 0));
    } else {
        let m: nat = (n - 1) as nat;
        lemma_sqrt_floor_exists(m);
        let s: nat = choose|s: nat| #[trigger] is_sqrt_floor(m, s);
        if (s + 1) * (s + 1) <= n {
            assert(n < (s + 2) * (s + 2)) by (nonlinear_arith)
                requires
                    n - 1 < (s + 1) * (s + 1),
            ;
            assert(is_sqrt_floor(n, s + 1));
        } else {
            assert(is_sqrt_floor(n, s));
        }
    }
}

/// Two candidates for the rounded-down square root of one number agree.
pub proof fn lemma_sqrt_floor_unique(n: nat, s: nat, t: nat)
    requires
        is_sqrt_floor(n, s),
        is_sqrt_floor(n, t),
    ensures
        s == t,
{
    assert(s == t) by (nonlinear_arith)
        requires
            s * s <= n,
            n < (s + 1) * (s + 1),
            t * t <= n,
            n < (t + 1) * (t + 1),
    ;
}

/// `sqrt_floor(n)` brackets `n` between two consecutive squares.
pub proof fn lemma_sqrt_floor_bounds(n: nat)
    ensures
        is_sqrt_floor(n, sqrt_floor(n)),
{
    lemma_sqrt_floor_exists(n);
}

/// Any `s` that brackets `n` is `sqrt_floor(n)`.
pub proof fn lemma_sqrt_floor_is(n: nat, s: nat)
    requires
        is_sqrt_floor(n, s),
    ensures
        sqrt_floor(n) == s,
{
    lemma_sqrt_floor_bounds(n);
    lemma_sqrt_floor_unique(n, s, sqrt_floor(n));
}

/// Computes the integer square root of `n`, rounded down, by bisection.
pub fn isqrt(n: u128) -> (r: u128)
    ensures
        r == sqrt_floor(n as nat),
        r < 0x1_0000_0000_0000_0000,
{
    let mut lo: u128 = 0;
    let mut hi: u128 = 0x1_0000_0000_0000_0000;
    assert(0x1_0000_0000_0000_0000int * 0x1_0000_0000_0000_0000int > u128::MAX) by (nonlinear_arith);
    while hi - lo > 1
        invariant
            lo < hi <= 0x1_0000_0000_0000_0000,
            lo * lo <= n,
            n < hi * hi,
        decreases hi - lo,
    {
        let mid: u128 = lo + (hi - lo) / 2;
        assert(mid * mid <= 0xffff_ffff_ffff_ffff * 0xffff_ffff_ffff_ffff) by (nonlinear_arith)
            requires
                0 <= mid <= 0xffff_ffff_ffff_ffff,
        ;
        if mid * mid <= n {
            lo = mid;
        } else {
            hi = mid;
        }
    }
    proof {
        assert(hi == lo + 1);
        assert(is_sqrt_floor(n as nat, lo as nat));
        lemma_sqrt_floor_is(n as nat, lo as nat);
    }
    lo
}

/// `c` is the quotient of `r` and the square root of `d2`, rounded down: the
/// greatest `c` with `c * sqrt(d2) <= r`. It is stated over squares, so that
/// no root appears.
pub open spec fn is_root_quotient(r: int, d2: int, c: int) -> bool {
    0 <= c && c * c * d2 <= r * r < (c + 1) * (c + 1) * d2
}

/// The quotient of `r` and the square root of `d2`, rounded down, for
/// `0 <= r` and `0 < d2`. Only this one rounding is made: the square root of
/// the rounded-down quotient of two integers is the rounded-down quotient
/// itself.
pub open spec fn root_quotient(r: int, d2: int) -> int {
    sqrt_floor((r * r / d2) as nat) as int
}

/// `root_quotient(r, d2)` is the rounded-down quotient of `r` and the square
/// root of `d2`, and is no more than `r`.
pub proof fn lemma_root_quotient_bounds(r: int, d2: int)
    requires
        0 <= r,
        0 < d2,
    ensures
        is_root_quotient(r, d2, root_quotient(r, d2)),
        root_quotient(r, d2) <= r,
{
    let n = r * r;
    let q = n / d2;
    assert(0 <= n) by (nonlinear_arith)
        requires
            n == r * r,
    ;
    assert(0 <= q <= n && q * d2 <= n < (q + 1) * d2) by (nonlinear_arith)
        requires
            0 <= n,
            0 < d2,
            q == n / d2,
    ;
    lemma_sqrt_floor_bounds(q as nat);
    let c = sqrt_floor(q as nat) as int;
    assert(c * c <= q < (c + 1) * (c + 1));
    assert(c * c * d2 <= q * d2) by (nonlinear_arith)
        requires
            c * c <= q,
            0 < d2,
    ;
    assert((c + 1) * (c + 1) * d2 >= (q + 1) * d2) by (nonlinear_arith)
        requires
            q + 1 <= (c + 1) * (c + 1),
            0 < d2,
    ;
    assert(c <= r) by (nonlinear_arith)
        requires
            0 <= c,
            0 <= r,
            c * c <= r * r,
    ;
}

/// Any `c` that is the rounded-down quotient of `r` and the square root of
/// `d2` is `root_quotient(r, d2)`.
pub proof fn lemma_root_quotient_is(r: int, d2: int, c: int)
    requires
        0 <= r,
        0 < d2,
        is_root_quotient(r, d2, c),
    ensures
        root_quotient(r, d2) == c,
{
    lemma_root_quotient_bounds(r, d2);
    let k = root_quotient(r, d2);
    assert(k == c) by (nonlinear_arith)
        requires
            0 <= c,
            0 <= k,
            0 < d2,
            c * c * d2 < (k + 1) * (k + 1) * d2,
            k * k * d2 < (c + 1) * (c + 1) * d2,
    {
        assert(c * c < (k + 1) * (k + 1));
        assert(k * k < (c + 1) * (c + 1));
    }
}

/// The rounded-down quotient does not grow with the divisor.
pub proof fn lemma_root_quotient_monotone(r: int, near2: int, far2: int)
    requires
        0 <= r,
        0 < near2 <= far2,
    ensures
        root_quotient(r, near2) >= root_quotient(r, far2) >= 0,
{
    lemma_root_quotient_bounds(r, near2);
    lemma_root_quotient_bounds(r, far2);
    let n = root_quotient(r, near2);
    let f = root_quotient(r, far2);
    assert(n >= f) by (nonlinear_arith)
        requires
            0 <= n,
            0 <= f,
            0 < near2 <= far2,
            f * f * far2 <= r * r,
            r * r < (n + 1) * (n + 1) * near2,
    {
        assert(f * f * near2 <= f * f * far2);
        assert(f * f * near2 < (n + 1) * (n + 1) * near2);
        assert(f * f < (n + 1) * (n + 1));
    }
}

/// The rounded-down quotient is below a bound `t` exactly when the exact
/// quotient is: when `r` is less than `t` times the square root of `d2`.
pub proof fn lemma_root_quotient_below(r: int, d2: int, t: int)
    requires
        0 <= r,
        0 < d2,
        0 <= t,
    ensures
        root_quotient(r, d2) < t <==> r * r < t * t * d2,
{
    lemma_root_quotient_bounds(r, d2);
    let c = root_quotient(r, d2);
    if c < t {
        assert(r * r < t * t * d2) by (nonlinear_arith)
            requires
                0 <= c,
                c + 1 <= t,
                0 < d2,
                r * r < (c + 1) * (c + 1) * d2,
        {
            assert((c + 1) * (c + 1) <= t * t);
            assert((c + 1) * (c + 1) * d2 <= t * t * d2);
        }
    } else {
        assert(r * r >= t * t * d2) by (nonlinear_arith)
            requires
                0 <= t <= c,
                0 < d2,
                c * c * d2 <= r * r,
        {
            assert(t * t <= c * c);
            assert(t * t * d2 <= c * c * d2);
        }
    }
}

/// Computes the quotient of `r` and the square root of `d2`, rounded down.
pub fn quotient_by_root(r: u64, d2: u128) -> (c: u64)
    requires
        0 < d2,
    ensures
        c == root_quotient(r as int, d2 as int),
        c <= r,
{
    let wide: u128 = r as u128;
    assert(wide * wide <= 0xffff_ffff_ffff_ffff * 0xffff_ffff_ffff_ffff) by (nonlinear_arith)
        requires
            0 <= wide <= 0xffff_ffff_ffff_ffff,
    ;
    proof {
        lemma_root_quotient_bounds(r as int, d2 as int);
    }
    let root: u128 = isqrt((wide * wide) / d2);
    root as u64
}

/// The point of the range from `lo` to `hi` that the draw `d` selects:
/// `lo` plus the fraction `d / 2^32` of the signed span, the product rounded
/// toward `lo`. The ends may come in either order.
pub open spec fn lerp(d: u32, lo: int, hi: int) -> int {
    if lo <= hi {
        lo + ((hi - lo) * d) / (DRAWS as int)
    } else {
        lo - ((lo - hi) * d) / (DRAWS as int)
    }
}

/// The selected point lies between the two ends, and short of `hi` unless the
/// range is a single point.
pub proof fn lemma_lerp_range(d: u32, lo: int, hi: int)
    ensures
        lo <= hi ==> lo <= lerp(d, lo, hi) <= hi,
        lo < hi ==> lerp(d, lo, hi) < hi,
        hi <= lo ==> hi <= lerp(d, lo, hi) <= lo,
        lerp(0, lo, hi) == lo,
{
    let span: int = if lo <= hi { hi - lo } else { lo - hi };
    let q: int = (span * d) / (DRAWS as int);
    assert(0 <= q && (span > 0 ==> q < span) && q <= span) by (nonlinear_arith)
        requires
            0 <= span,
            0 <= d < 0x1_0000_0000,
            q == (span * d) / 0x1_0000_0000,
    ;
    assert((span * 0) / (DRAWS as int) == 0) by (nonlinear_arith);
}

/// Maps a uniform 32-bit draw onto the range from `lo` to `hi`.
pub fn scale(d: u32, lo: i64, hi: i64) -> (r: i64)
    ensures
        r == lerp(d, lo as int, hi as int),
{
    proof {
        lemma_lerp_range(d, lo as int, hi as int);
    }
    if lo <= hi {
        let span: i128 = hi as i128 - lo as i128;
        assert(0 <= span * (d as i128) <= 0x1_0000_0000_0000_0000 * 0x1_0000_0000)
            by (nonlinear_arith)
            requires
                0 <= span <= 0x1_0000_0000_0000_0000,
                0 <= d < 0x1_0000_0000,
        ;
        let q: i128 = (span * (d as i128)) / DRAWS;
        (lo as i128 + q) as i64
    } else {
        let span: i128 = lo as i128 - hi as i128;
        assert(0 <= span * (d as i128) <= 0x1_0000_0000_0000_0000 * 0x1_0000_0000)
            by (nonlinear_arith)
            requires
                0 <= span <= 0x1_0000_0000_0000_0000,
                0 <= d < 0x1_0000_0000,
        ;
        let q: i128 = (span * (d as i128)) / DRAWS;
        (lo as i128 - q) as i64
    }
}

} // verus!
