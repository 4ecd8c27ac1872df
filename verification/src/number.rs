//! Whole-number arithmetic that the geometry rests on: square roots,
//! the confinement of coordinates, and the scaling of a vector's parts.

use vstd::prelude::*;

verus! {

/// The largest coordinate.
pub const COORD_MAX: i32 = 2147483647;

/// The smallest coordinate.
pub const COORD_MIN: i32 = -2147483648;

/// `r` is the whole part of the square root of `n`.
pub open spec fn is_root(n: int, r: int) -> bool {
    0 <= r && r * r <= n < (r + 1) * (r + 1)
}

/// The whole part of the square root of `n`; zero where `n` is negative.
pub open spec fn root(n: int) -> int {
    if n < 0 {
        0
    } else {
        choose|r: int| is_root(n, r)
    }
}

/// Every number from zero on has a whole root.
pub proof fn lemma_root_exists(n: int)
    requires
        0 <= n,
    ensures
        exists|r: int| is_root(n, r),
    decreases n,
{
    if n == 0 {
        assert(is_root(0, 0));
    } else {
        let m = n - 1;
        lemma_root_exists(m);
        let p = choose|r: int| is_root(m, r);
        if (p + 1) * (p + 1) <= n {
            assert((p + 1) * (p + 1) < (p + 2) * (p + 2)) by (nonlinear_arith)
                requires
                    0 <= p,
            ;
            assert(is_root(n, p + 1));
        } else {
            assert(is_root(n, p));
        }
    }
}

/// A number has one whole root only.
pub proof fn lemma_root_unique(n: int, a: int, b: int)
    requires
        is_root(n, a),
        is_root(n, b),
    ensures
        a == b,
{
    if a < b {
        assert((a + 1) * (a + 1) <= b * b) by (nonlinear_arith)
            requires
                0 <= a,
                a + 1 <= b,
        ;
    } else if b < a {
        assert((b + 1) * (b + 1) <= a * a) by (nonlinear_arith)
            requires
                0 <= b,
                b + 1 <= a,
        ;
    }
}

/// Whatever passes for the whole root of `n` is `root(n)`.
pub proof fn lemma_root_is(n: int, r: int)
    requires
        is_root(n, r),
    ensures
        root(n) == r,
{
    lemma_root_unique(n, r, root(n));
}

/// `root(n)` is the whole root of `n`.
pub proof fn lemma_root_holds(n: int)
    requires
        0 <= n,
    ensures
        is_root(n, root(n)),
{
    lemma_root_exists(n);
}

/// The roots of zero and of one.
pub proof fn lemma_root_small()
    ensures
        root(0) == 0,
        root(1) == 1,
{
    assert(is_root(0, 0)) by (nonlinear_arith);
    assert(is_root(1, 1)) by (nonlinear_arith);
    lemma_root_is(0, 0);
    lemma_root_is(1, 1);
}

/// A larger number has no smaller root.
pub proof fn lemma_root_monotonic(a: int, b: int)
    requires
        0 <= a <= b,
    ensures
        root(a) <= root(b),
{
    lemma_root_holds(a);
    lemma_root_holds(b);
    let ra = root(a);
    let rb = root(b);
    if rb < ra {
        assert((rb + 1) * (rb + 1) <= ra * ra) by (nonlinear_arith)
            requires
                0 <= rb,
                rb + 1 <= ra,
        ;
    }
}

/// The whole part of the square root of `n`.
pub fn isqrt(n: u128) -> (r: u64)
    ensures
        r == root(n as int),
{
    let mut low: u128 = 0;
    let mut high: u128 = 0x1_0000_0000_0000_0000;
    assert(0x1_0000_0000_0000_0000int * 0x1_0000_0000_0000_0000int > n) by (nonlinear_arith)
        requires
            n <= 0xffff_ffff_ffff_ffff_ffff_ffff_ffff_ffff,
    ;
    while high - low > 1
        invariant
            low < high <= 0x1_0000_0000_0000_0000,
            low * low <= n < high * high,
        decreases high - low,
    {
        let middle: u128 = low + (high - low) / 2;
        assert(middle * middle <= 0xffff_ffff_ffff_ffff_ffff_ffff_ffff_ffff) by (nonlinear_arith)
            requires
                middle <= 0xffff_ffff_ffff_ffff,
        ;
        if middle * middle <= n {
            low = middle;
        } else {
            high = middle;
        }
    }
    proof {
        lemma_root_is(n as int, low as int);
    }
    low as u64
}

/// The whole number nearest to the square root of `n`, the larger of two
/// that are equally near: the whole part of the root, or one more where `n`
/// lies past the middle between the squares of the two.
pub open spec fn near_root(n: int) -> int {
    let r = root(n);
    if n - r * r > r {
        r + 1
    } else {
        r
    }
}

/// The nearest root is never negative, and it is zero for zero alone.
pub proof fn lemma_near_root_sign(n: int)
    ensures
        0 <= near_root(n),
        n >= 1 ==> near_root(n) >= 1,
        n <= 0 ==> near_root(n) == 0,
{
    lemma_root_small();
    if n >= 1 {
        lemma_root_holds(n);
        lemma_root_monotonic(1, n);
    } else if n == 0 {
        assert(0 * 0 == 0int);
    } else {
        assert(0 * 0 == 0int);
    }
}

/// The nearest root lies within half of the square root: twice the root,
/// taken one less and one more, has `4 * n` between its squares.
pub proof fn lemma_near_root_holds(n: int)
    requires
        1 <= n,
    ensures
        ({
            let r = near_root(n);
            (2 * r - 1) * (2 * r - 1) < 4 * n < (2 * r + 1) * (2 * r + 1)
        }),
{
    lemma_root_holds(n);
    lemma_root_small();
    lemma_root_monotonic(1, n);
    let f = root(n);
    let r = near_root(n);
    assert((2 * r - 1) * (2 * r - 1) < 4 * n < (2 * r + 1) * (2 * r + 1)) by (nonlinear_arith)
        requires
            1 <= f,
            f * f <= n < (f + 1) * (f + 1),
            r == if n - f * f > f {
                f + 1
            } else {
                f
            },
    ;
}

/// The whole number nearest to the square root of `n`.
pub fn nearest_root(n: u128) -> (r: u128)
    ensures
        r == near_root(n as int),
        r <= 0x1_0000_0000_0000_0000,
{
    let floor = isqrt(n) as u128;
    proof {
        lemma_root_holds(n as int);
    }
    assert(floor * floor <= 0xffff_ffff_ffff_ffff * 0xffff_ffff_ffff_ffff) by (nonlinear_arith)
        requires
            floor <= 0xffff_ffff_ffff_ffff,
    ;
    if n - floor * floor > floor {
        floor + 1
    } else {
        floor
    }
}

/// `v` confined to the coordinates: the nearest of them.
pub open spec fn clamp_coord(v: int) -> int {
    if v < COORD_MIN {
        COORD_MIN as int
    } else if v > COORD_MAX {
        COORD_MAX as int
    } else {
        v
    }
}

/// The coordinate nearest to `v`.
pub fn coord(v: i128) -> (r: i32)
    ensures
        r == clamp_coord(v as int),
{
    if v < COORD_MIN as i128 {
        COORD_MIN
    } else if v > COORD_MAX as i128 {
        COORD_MAX
    } else {
        v as i32
    }
}

/// The size of a number.
pub open spec fn size(v: int) -> int {
    if v >= 0 {
        v
    } else {
        -v
    }
}

/// `a * d / len` to the nearest whole number, a half rounded up, for
/// numbers that are not negative.
pub open spec fn ratio(a: int, d: int, len: int) -> int {
    (2 * (a * d) + len) / (2 * len)
}

/// The part `c` of a vector of length `len`, once the vector is stretched to
/// the length `d`: `c * d / len` to the nearest whole number, a half rounded
/// away from zero. A vector without length has nothing to stretch, and the
/// result is zero.
pub open spec fn stretch(c: int, d: int, len: int) -> int {
    if len <= 0 {
        0
    } else if c >= 0 {
        ratio(c, d, len)
    } else {
        -ratio(-c, d, len)
    }
}

/// How near a ratio is to what it rounds: twice the ratio, taken one less
/// and one more, times `len` has twice `a * d` between.
proof fn lemma_ratio_is_near(a: int, d: int, len: int)
    requires
        0 <= a,
        0 <= d,
        0 < len,
    ensures
        0 <= ratio(a, d, len),
        (2 * ratio(a, d, len) - 1) * len <= 2 * (a * d) < (2 * ratio(a, d, len) + 1) * len,
        ratio(a, d, len) <= a * d,
        d <= len ==> ratio(a, d, len) <= a,
{
    let x = a * d;
    let q = ratio(a, d, len);
    assert(0 <= x) by (nonlinear_arith)
        requires
            0 <= a,
            0 <= d,
            x == a * d,
    ;
    assert(q * (2 * len) <= 2 * x + len < (q + 1) * (2 * len) && 0 <= q) by (nonlinear_arith)
        requires
            0 <= x,
            0 < len,
            q == (2 * x + len) / (2 * len),
    ;
    assert((2 * q - 1) * len == q * (2 * len) - len) by (nonlinear_arith);
    assert((2 * q + 1) * len == (q + 1) * (2 * len) - len) by (nonlinear_arith);
    assert(q <= x) by (nonlinear_arith)
        requires
            0 <= x,
            1 <= len,
            0 <= q,
            (2 * q - 1) * len <= 2 * x,
    ;
    if d <= len {
        assert(x <= a * len) by (nonlinear_arith)
            requires
                0 <= a,
                0 <= d <= len,
                x == a * d,
        ;
        assert(q <= a) by (nonlinear_arith)
            requires
                0 <= a,
                1 <= len,
                0 <= q,
                (2 * q - 1) * len <= 2 * x,
                x <= a * len,
        ;
    }
}

/// A stretched part is no longer than the part times the new length, and
/// points the same way.
pub proof fn lemma_stretch_bound(c: int, d: int, len: int)
    requires
        0 <= d,
    ensures
        c >= 0 ==> 0 <= stretch(c, d, len) <= c * d,
        c <= 0 ==> c * d <= stretch(c, d, len) <= 0,
        size(stretch(c, d, len)) == stretch(size(c), d, len),
{
    if len > 0 {
        if c >= 0 {
            lemma_ratio_is_near(c, d, len);
        } else {
            let a = -c;
            lemma_ratio_is_near(a, d, len);
            assert(a * d == -(c * d)) by (nonlinear_arith)
                requires
                    a == -c,
            ;
            assert(stretch(c, d, len) == -ratio(a, d, len));
        }
    } else {
        assert(c >= 0 ==> c * d >= 0) by (nonlinear_arith)
            requires
                d >= 0,
        ;
        assert(c <= 0 ==> c * d <= 0) by (nonlinear_arith)
            requires
                d >= 0,
        ;
    }
}

/// A part that is stretched to no more than the vector's own length gets no
/// longer, and keeps pointing the same way.
pub proof fn lemma_stretch_within(c: int, d: int, len: int)
    requires
        0 <= d <= len,
    ensures
        c >= 0 ==> 0 <= stretch(c, d, len) <= c,
        c <= 0 ==> c <= stretch(c, d, len) <= 0,
{
    if len > 0 {
        lemma_ratio_is_near(size(c), d, len);
    }
}

proof fn lemma_square_grows(x: int, y: int)
    requires
        0 <= x <= y,
    ensures
        x * x <= y * y,
        x < y ==> x * x < y * y,
{
    assert(x * x <= y * y) by (nonlinear_arith)
        requires
            0 <= x <= y,
    ;
    if x < y {
        assert(x * x < y * y) by (nonlinear_arith)
            requires
                0 <= x < y,
        ;
    }
}

/// Twice a size, less one, and not below zero: the least that twice the
/// number can have been before it was rounded.
pub open spec fn least_double(s: int) -> int {
    if s >= 1 {
        2 * s - 1
    } else {
        0
    }
}

/// A vector of the rounded length `len` that is stretched to the length `d`
/// is as long as `d` times its true length over `len`, up to the rounding of
/// its two parts by a half each. In doubled lengths: the squares of the
/// parts, each taken at its least, come to no more than `4 * n * d * d` over
/// `len * len`, and each taken one half more, to more than that.
pub proof fn lemma_stretch_has_length(x: int, y: int, d: int, len: int)
    requires
        0 <= d,
        0 < len,
    ensures
        ({
            let n = x * x + y * y;
            let sx = size(stretch(x, d, len));
            let sy = size(stretch(y, d, len));
            let low = least_double(sx) * least_double(sx) + least_double(sy) * least_double(sy);
            let high = (2 * sx + 1) * (2 * sx + 1) + (2 * sy + 1) * (2 * sy + 1);
            low * (len * len) <= 4 * n * (d * d) < high * (len * len)
        }),
{
    let n = x * x + y * y;
    let ax = size(x);
    let ay = size(y);
    lemma_stretch_bound(x, d, len);
    lemma_stretch_bound(y, d, len);
    let sx = size(stretch(x, d, len));
    let sy = size(stretch(y, d, len));
    lemma_ratio_is_near(ax, d, len);
    lemma_ratio_is_near(ay, d, len);
    let lx = least_double(sx);
    let ly = least_double(sy);
    let hx = 2 * sx + 1;
    let hy = 2 * sy + 1;
    let tx = 2 * (ax * d);
    let ty = 2 * (ay * d);
    assert(0 <= lx * len <= tx) by (nonlinear_arith)
        requires
            0 <= sx,
            0 < len,
            0 <= tx,
            (2 * sx - 1) * len <= tx,
            lx == if sx >= 1 {
                2 * sx - 1
            } else {
                0
            },
    ;
    assert(0 <= ly * len <= ty) by (nonlinear_arith)
        requires
            0 <= sy,
            0 < len,
            0 <= ty,
            (2 * sy - 1) * len <= ty,
            ly == if sy >= 1 {
                2 * sy - 1
            } else {
                0
            },
    ;
    assert(0 <= tx && 0 <= ty) by (nonlinear_arith)
        requires
            0 <= ax,
            0 <= ay,
            0 <= d,
            tx == 2 * (ax * d),
            ty == 2 * (ay * d),
    ;
    lemma_square_grows(lx * len, tx);
    lemma_square_grows(ly * len, ty);
    lemma_square_grows(tx, hx * len);
    lemma_square_grows(ty, hy * len);
    let l2 = len * len;
    let d2 = d * d;
    assert((lx * len) * (lx * len) == (lx * lx) * l2) by (nonlinear_arith)
        requires
            l2 == len * len,
    ;
    assert((ly * len) * (ly * len) == (ly * ly) * l2) by (nonlinear_arith)
        requires
            l2 == len * len,
    ;
    assert((hx * len) * (hx * len) == (hx * hx) * l2) by (nonlinear_arith)
        requires
            l2 == len * len,
    ;
    assert((hy * len) * (hy * len) == (hy * hy) * l2) by (nonlinear_arith)
        requires
            l2 == len * len,
    ;
    assert(tx * tx == 4 * ((x * x) * d2)) by (nonlinear_arith)
        requires
            d2 == d * d,
            tx == 2 * (ax * d),
            ax == x || ax == -x,
    ;
    assert(ty * ty == 4 * ((y * y) * d2)) by (nonlinear_arith)
        requires
            d2 == d * d,
            ty == 2 * (ay * d),
            ay == y || ay == -y,
    ;
    assert((lx * lx + ly * ly) * l2 == (lx * lx) * l2 + (ly * ly) * l2) by (nonlinear_arith);
    assert((hx * hx + hy * hy) * l2 == (hx * hx) * l2 + (hy * hy) * l2) by (nonlinear_arith);
    assert(4 * n * d2 == 4 * ((x * x) * d2) + 4 * ((y * y) * d2)) by (nonlinear_arith)
        requires
            n == x * x + y * y,
    ;
}

/// Stretching the difference of two coordinates to a length of 64 bits
/// gives no more than 96 bits.
pub proof fn lemma_stretch_fits(c: int, d: int, len: int)
    requires
        -0xffff_ffff <= c <= 0xffff_ffff,
        0 <= d <= 0xffff_ffff_ffff_ffff,
    ensures
        -0x1_0000_0000_0000_0000_0000_0000 <= stretch(c, d, len) <= 0x1_0000_0000_0000_0000_0000_0000,
{
    lemma_stretch_bound(c, d, len);
    assert(-0x1_0000_0000_0000_0000_0000_0000 <= c * d <= 0x1_0000_0000_0000_0000_0000_0000)
        by (nonlinear_arith)
        requires
            -0xffff_ffff <= c <= 0xffff_ffff,
            0 <= d <= 0xffff_ffff_ffff_ffff,
    ;
}

/// `c * d / len`, to the nearest whole number.
pub fn stretched(c: i64, d: u64, len: u64) -> (r: i128)
    ensures
        r == stretch(c as int, d as int, len as int),
{
    if len == 0 {
        return 0;
    }
    let a: u128 = if c >= 0 {
        c as u128
    } else {
        (-(c as i128)) as u128
    };
    assert(a * d <= 0x8000_0000_0000_0000 * 0xffff_ffff_ffff_ffff) by (nonlinear_arith)
        requires
            a <= 0x8000_0000_0000_0000,
            d <= 0xffff_ffff_ffff_ffff,
    ;
    let product: u128 = a * (d as u128);
    let whole: u128 = product / (len as u128);
    let rest: u128 = product % (len as u128);
    let part: u128 = if 2 * rest >= len as u128 {
        whole + 1
    } else {
        whole
    };
    proof {
        let p = product as int;
        let l = len as int;
        let w = whole as int;
        let k = rest as int;
        let q = part as int;
        assert(q == (2 * p + l) / (2 * l)) by (nonlinear_arith)
            requires
                0 <= p,
                0 < l,
                w == p / l,
                k == p % l,
                q == if 2 * k >= l {
                    w + 1
                } else {
                    w
                },
        ;
    }
    if c >= 0 {
        part as i128
    } else {
        -(part as i128)
    }
}

} // verus!
