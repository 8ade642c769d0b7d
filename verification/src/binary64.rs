//! Arithmetic on binary64 numbers that are not negative, by integers: every
//! operation gives the number nearest to its exact result, and of two equally
//! near ones that with the even significand.

use vstd::arithmetic::div_mod::{lemma_fundamental_div_mod, lemma_fundamental_div_mod_converse};
use vstd::arithmetic::power2::{
    lemma2_to64, lemma_pow2_adds, lemma_pow2_pos, lemma_pow2_strictly_increases, lemma_pow2_unfold,
    pow2,
};
use vstd::prelude::*;

verus! {

/// The least significand.
pub const LEAST: u64 = 0x10_0000_0000_0000;

/// What every significand is below.
pub const LIMIT: u64 = 0x20_0000_0000_0000;

/// Two to the `j`, or one where `j` is negative.
pub open spec fn up(j: int) -> int {
    if j > 0 {
        pow2(j as nat) as int
    } else {
        1
    }
}

/// The whole number nearest to `n / d`, the even one of two.
pub open spec fn nearest(n: int, d: int) -> int {
    let q = n / d;
    let r = n % d;
    if 2 * r < d {
        q
    } else if 2 * r > d {
        q + 1
    } else if q % 2 == 0 {
        q
    } else {
        q + 1
    }
}

/// Whether `n / d` times two to the `j` lies among the significands.
pub open spec fn scales(n: int, d: int, j: int) -> bool {
    LEAST * (d * up(-j)) <= n * up(j) < LIMIT * (d * up(-j))
}

/// The power of two that brings `n / d` among the significands.
pub open spec fn scale(n: int, d: int) -> int {
    choose|j: int| scales(n, d, j)
}

/// A significand and an exponent, where rounding may have given the limit.
pub open spec fn normal(q: int, e: int) -> (int, int) {
    if q == LIMIT {
        (LEAST as int, e + 1)
    } else {
        (q, e)
    }
}

/// The number nearest to `n / d` times two to the `k`: its significand and its
/// exponent.
pub open spec fn rounded(n: int, d: int, k: int) -> (int, int) {
    if n == 0 {
        (0, 0)
    } else {
        let j = scale(n, d);
        normal(nearest(n * up(j), d * up(-j)), k - j)
    }
}

/// A finite number: `m` times two to the `e`.
#[derive(Debug, Clone, Copy, PartialEq, Eq, Structural)]
pub struct Finite {
    pub m: u64,
    pub e: i32,
}

impl Finite {
    /// The significand is among the significands, or the number is zero.
    pub open spec fn wf(self) -> bool {
        ||| self.m == 0 && self.e == 0
        ||| LEAST <= self.m < LIMIT
    }

    /// The significand and the exponent.
    pub open spec fn parts(self) -> (int, int) {
        (self.m as int, self.e as int)
    }

    /// The exponent lies between two bounds.
    pub open spec fn within(self, low: int, high: int) -> bool {
        low <= self.e <= high
    }
}

proof fn powers()
    ensures
        pow2(0) == 1,
        pow2(1) == 2,
        pow2(52) == LEAST,
        pow2(53) == LIMIT,
{
    lemma2_to64();
    assert(pow2(52) == LEAST) by {
        lemma_pow2_adds(26, 26);
        lemma2_to64();
        assert(pow2(26) == 0x400_0000);
    }
    lemma_pow2_unfold(53);
}

/// A power of two is positive.
pub proof fn up_positive(j: int)
    ensures
        up(j) >= 1,
{
    if j > 0 {
        lemma_pow2_pos(j as nat);
    }
}

proof fn up_doubles(j: int)
    requires
        j >= 0,
    ensures
        up(j + 1) == 2 * up(j),
{
    lemma2_to64();
    lemma_pow2_unfold((j + 1) as nat);
}

/// Of two powers, what the greater brings up is at least twice what the lesser does.
proof fn up_apart(i: int, j: int)
    requires
        i < j,
    ensures
        up(j) * up(-i) >= 2 * (up(i) * up(-j)),
{
    lemma2_to64();
    up_positive(i);
    up_positive(-i);
    up_positive(j);
    up_positive(-j);
    if i >= 0 {
        power_step(i as nat, j as nat);
        assert(up(-i) == 1 && up(-j) == 1);
        assert(up(j) * 1 >= 2 * (up(i) * 1));
    } else if j <= 0 {
        power_step((-j) as nat, (-i) as nat);
        assert(up(i) == 1 && up(j) == 1);
        assert(1 * up(-i) >= 2 * (1 * up(-j)));
    } else {
        assert(up(i) == 1 && up(-j) == 1);
        power_step(0, j as nat);
        assert(up(j) * up(-i) >= 2) by (nonlinear_arith)
            requires
                up(j) >= 2,
                up(-i) >= 1,
        ;
    }
}

proof fn power_step(a: nat, b: nat)
    requires
        a < b,
    ensures
        pow2(b) >= 2 * pow2(a),
        up(b as int) >= 2 * up(a as int),
{
    lemma2_to64();
    lemma_pow2_unfold((a + 1) as nat);
    if a + 1 < b {
        lemma_pow2_strictly_increases((a + 1) as nat, b);
    }
}

/// One power of two brings a ratio among the significands.
pub proof fn scale_is_unique(n: int, d: int, i: int, j: int)
    requires
        n > 0,
        d > 0,
        scales(n, d, i),
        scales(n, d, j),
    ensures
        i == j,
{
    if i < j {
        scales_once(n, d, i, j);
    }
    if j < i {
        scales_once(n, d, j, i);
    }
}

proof fn scales_once(n: int, d: int, i: int, j: int)
    requires
        n > 0,
        d > 0,
        i < j,
        scales(n, d, i),
    ensures
        !scales(n, d, j),
{
    up_apart(i, j);
    up_positive(i);
    up_positive(-i);
    up_positive(j);
    up_positive(-j);
    let (a, b, x, y) = (up(i), up(-i), up(j), up(-j));
    let l = LEAST as int;
    assert(n * a * x >= l * (d * b) * x) by (nonlinear_arith)
        requires
            l * (d * b) <= n * a,
            x >= 1,
    ;
    assert(l * (d * b) * x >= 2 * l * (d * y) * a) by (nonlinear_arith)
        requires
            x * b >= 2 * (a * y),
            l > 0,
            d > 0,
    ;
    if scales(n, d, j) {
        assert(n * x * a < 2 * l * (d * y) * a) by (nonlinear_arith)
            requires
                n * x < 2 * l * (d * y),
                a >= 1,
        ;
        assert(n * a * x == n * x * a) by (nonlinear_arith);
    }
}

/// What rounding gives where the power of two is known.
proof fn rounded_by(n: int, d: int, k: int, j: int)
    requires
        n > 0,
        d > 0,
        scales(n, d, j),
    ensures
        rounded(n, d, k) == normal(nearest(n * up(j), d * up(-j)), k - j),
{
    scale_is_unique(n, d, j, scale(n, d));
}

/// Rounding a ratio among the significands stays there, or gives the limit.
proof fn nearest_within(n: int, d: int, low: int, high: int)
    requires
        d > 0,
        low * d <= n < high * d,
    ensures
        low <= nearest(n, d) <= high,
{
    lemma_fundamental_div_mod(n, d);
    let q = n / d;
    let r = n % d;
    assert(low <= q < high) by (nonlinear_arith)
        requires
            n == d * q + r,
            0 <= r < d,
            low * d <= n < high * d,
            d > 0,
    ;
}

/// Two to the `t`.
fn power(t: u32) -> (r: u128)
    requires
        t < 127,
    ensures
        r == up(t as int),
        r == pow2(t as nat),
{
    let mut r: u128 = 1;
    let mut i: u32 = 0;
    proof {
        lemma2_to64();
    }
    while i < t
        invariant
            i <= t < 127,
            r == pow2(i as nat),
            r == up(i as int),
        decreases t - i,
    {
        proof {
            lemma_pow2_unfold((i + 1) as nat);
            up_doubles(i as int);
            lemma_pow2_strictly_increases((i + 1) as nat, 127);
            lemma_pow2_adds(63, 64);
            lemma2_to64();
            lemma_pow2_unfold(64);
            assert(pow2(127) == 0x8000_0000_0000_0000_0000_0000_0000_0000) by (nonlinear_arith)
                requires
                    pow2(127) == pow2(63) * pow2(64),
                    pow2(63) == 0x8000_0000_0000_0000,
                    pow2(64) == 0x1_0000_0000_0000_0000,
            ;
        }
        r = r * 2;
        i = i + 1;
    }
    r
}

/// The whole number nearest to `n / d`.
fn nearest_whole(n: u128, d: u128) -> (r: u128)
    requires
        0 < d < 0x4000_0000_0000_0000_0000_0000_0000_0000,
        n < 0x4000_0000_0000_0000_0000_0000_0000_0000,
    ensures
        r == nearest(n as int, d as int),
{
    let q: u128 = n / d;
    let r: u128 = n % d;
    proof {
        lemma_fundamental_div_mod(n as int, d as int);
        assert(q <= n) by (nonlinear_arith)
            requires
                n == d * q + r,
                d >= 1,
                q >= 0,
                r >= 0,
        ;
    }
    if 2 * r < d {
        q
    } else if 2 * r > d {
        q + 1
    } else if q % 2 == 0 {
        q
    } else {
        q + 1
    }
}

/// A number of a significand that rounding gave.
fn finite(q: u128, e: i32) -> (r: Finite)
    requires
        LEAST <= q <= LIMIT,
        e < i32::MAX,
    ensures
        r.wf(),
        r.m > 0,
        r.parts() == normal(q as int, e as int),
        e <= r.e <= e + 1,
{
    if q == LIMIT as u128 {
        Finite { m: LEAST, e: e + 1 }
    } else {
        Finite { m: q as u64, e }
    }
}

/// The number nearest to `n` times two to the `k`.
pub fn round_int(n: u128, k: i32) -> (r: Finite)
    requires
        n < 0x4000_0000_0000_0000_0000_0000_0000_0000,
        -3000 <= k <= 3000,
    ensures
        r.wf(),
        r.parts() == rounded(n as int, 1, k as int),
        n > 0 ==> r.m > 0 && r.within(k - 52, k + 75),
        0 < n < 0x1_0000_0000 ==> r.within(k - 52, k - 21),
{
    if n == 0 {
        return Finite { m: 0, e: 0 };
    }
    proof {
        powers();
    }
    if n < LIMIT as u128 {
        let mut m: u128 = n;
        let mut j: i32 = 0;
        assert(n * up(0) == n);
        while m < LEAST as u128
            invariant
                0 < n,
                0 <= j,
                m == n * up(j as int),
                m < LIMIT,
                m >= up(j as int),
                j <= 52,
            decreases LIMIT - m,
        {
            proof {
                up_doubles(j as int);
                up_positive(j as int);
                assert(n * (2 * up(j as int)) == 2 * (n * up(j as int))) by (nonlinear_arith);
                if j == 52 {
                    powers();
                }
            }
            m = m * 2;
            j = j + 1;
        }
        proof {
            up_positive(j as int);
            assert(up(-(j as int)) == 1);
            assert(scales(n as int, 1, j as int));
            rounded_by(n as int, 1, k as int, j as int);
            assert(nearest(m as int, 1) == m) by {
                lemma_fundamental_div_mod_converse(m as int, 1, m as int, 0);
            }
            if n < 0x1_0000_0000 && j <= 20 {
                lemma2_to64();
                if j < 20 {
                    power_step(j as nat, 20);
                }
                let u = up(j as int);
                assert(n * u < LEAST) by (nonlinear_arith)
                    requires
                        0 < n < 0x1_0000_0000,
                        1 <= u <= 0x10_0000,
                ;
            }
        }
        return finite(m, k - j);
    }
    let mut d: u128 = 1;
    let mut s: u32 = 0;
    while n / d >= LIMIT as u128
        invariant
            n < 0x4000_0000_0000_0000_0000_0000_0000_0000,
            n >= LIMIT,
            d == up(s as int),
            0 < d,
            s <= 74,
            d * LIMIT <= n * 2,
            s > 0 ==> d * LEAST <= n,
        decreases n / d,
    {
        proof {
            up_doubles(s as int);
            lemma_fundamental_div_mod(n as int, d as int);
            let q = n / d;
            assert(d * LIMIT <= n) by (nonlinear_arith)
                requires
                    n == d * q + n as int % d as int,
                    n as int % d as int >= 0,
                    q >= LIMIT,
                    d > 0,
            ;
            lemma_fundamental_div_mod(n as int, 2 * d);
            let h = n as int / (2 * d);
            assert(h < q) by (nonlinear_arith)
                requires
                    n == (2 * d) * h + n as int % (2 * d),
                    n == d * q + n as int % d as int,
                    n as int % (2 * d) >= 0,
                    0 <= n as int % d as int,
                    (n as int % d as int) < d,
                    q >= LIMIT,
                    d > 0,
            ;
            if s >= 74 {
                powers();
                lemma_pow2_adds(74, 53);
                lemma_pow2_adds(63, 64);
                lemma2_to64();
                lemma_pow2_unfold(64);
                assert(pow2(127) == 0x8000_0000_0000_0000_0000_0000_0000_0000) by (nonlinear_arith)
                    requires
                        pow2(127) == pow2(63) * pow2(64),
                        pow2(63) == 0x8000_0000_0000_0000,
                        pow2(64) == 0x1_0000_0000_0000_0000,
                ;
                assert(false);
            }
        }
        d = d * 2;
        s = s + 1;
    }
    proof {
        lemma_fundamental_div_mod(n as int, d as int);
        let q = n as int / d as int;
        assert(n < LIMIT * d) by (nonlinear_arith)
            requires
                n == d * q + n as int % d as int,
                (n as int % d as int) < d,
                q < LIMIT,
                d > 0,
        ;
        assert(s > 0);
        assert(up(-(s as int)) == 1);
        assert(scales(n as int, 1, -(s as int)));
        rounded_by(n as int, 1, k as int, -(s as int));
        nearest_within(n as int, d as int, LEAST as int, LIMIT as int);
    }
    assert(d < 0x4000_0000_0000_0000_0000_0000_0000_0000);
    let q: u128 = nearest_whole(n, d);
    finite(q, k + s as i32)
}

proof fn product_fits(m: int)
    requires
        0 <= m < LIMIT,
    ensures
        0 <= m * LEAST < LIMIT * LEAST,
        0 <= m * LIMIT < LIMIT * LIMIT,
{
    assert(0 <= m * LEAST < LIMIT * LEAST) by (nonlinear_arith)
        requires
            0 <= m < LIMIT,
    ;
    assert(0 <= m * LIMIT < LIMIT * LIMIT) by (nonlinear_arith)
        requires
            0 <= m < LIMIT,
    ;
}

/// The quotient of two numbers.
fn divide(a: Finite, b: Finite) -> (r: Finite)
    requires
        a.wf(),
        b.wf(),
        b.m > 0,
        a.within(-1100, 1100),
        b.within(-1100, 1100),
    ensures
        r.wf(),
        r.parts() == rounded(a.m as int, b.m as int, a.e - b.e),
        a.m > 0 ==> r.m > 0 && r.within(a.e - b.e - 53, a.e - b.e - 51),
        a.m == 0 ==> r.m == 0,
{
    if a.m == 0 {
        return Finite { m: 0, e: 0 };
    }
    proof {
        powers();
    }
    let ghost k = a.e - b.e;
    proof {
        product_fits(a.m as int);
    }
    if a.m >= b.m {
        let n: u128 = a.m as u128 * LEAST as u128;
        proof {
            assert(up(52) == LEAST && up(-52) == 1);
            assert(scales(a.m as int, b.m as int, 52));
            rounded_by(a.m as int, b.m as int, k, 52);
            nearest_within(n as int, b.m as int, LEAST as int, LIMIT as int);
        }
        let q: u128 = nearest_whole(n, b.m as u128);
        finite(q, a.e - b.e - 52)
    } else {
        let n: u128 = a.m as u128 * LIMIT as u128;
        proof {
            assert(up(53) == LIMIT && up(-53) == 1);
            assert(scales(a.m as int, b.m as int, 53));
            rounded_by(a.m as int, b.m as int, k, 53);
            nearest_within(n as int, b.m as int, LEAST as int, LIMIT as int);
        }
        let q: u128 = nearest_whole(n, b.m as u128);
        finite(q, a.e - b.e - 53)
    }
}

/// The product of two numbers.
fn multiply(a: Finite, b: Finite) -> (r: Finite)
    requires
        a.wf(),
        b.wf(),
        a.within(-1100, 1100),
        b.within(-1100, 1100),
    ensures
        r.wf(),
        r.parts() == rounded(a.m * b.m, 1, a.e + b.e),
        a.m > 0 && b.m > 0 ==> r.m > 0 && r.within(a.e + b.e - 52, a.e + b.e + 75),
        a.m == 0 || b.m == 0 ==> r.m == 0,
{
    proof {
        let (x, y) = (a.m as int, b.m as int);
        assert(0 <= x * y < LIMIT * LIMIT) by (nonlinear_arith)
            requires
                0 <= x < LIMIT,
                0 <= y < LIMIT,
        ;
        assert(x > 0 && y > 0 ==> x * y > 0) by (nonlinear_arith);
        assert(x == 0 || y == 0 ==> x * y == 0) by (nonlinear_arith);
    }
    round_int(a.m as u128 * b.m as u128, a.e + b.e)
}

/// Whether `q` is the whole number nearest to the square root of `v`.
pub open spec fn is_root(v: int, q: int) -> bool {
    &&& q > 0
    &&& (2 * q - 1) * (2 * q - 1) < 4 * v < (2 * q + 1) * (2 * q + 1)
}

/// The whole number nearest to the square root of `v`.
pub open spec fn nearest_root(v: int) -> int {
    choose|q: int| is_root(v, q)
}

/// The number nearest to the square root of `m` times two to the `e`.
pub open spec fn root_of(m: int, e: int) -> (int, int) {
    if m == 0 {
        (0, 0)
    } else {
        let s = if e % 2 == 0 {
            52int
        } else {
            53int
        };
        normal(nearest_root(m * up(s)), (e - s) / 2)
    }
}

/// One whole number is nearest to a square root.
pub proof fn root_is_unique(v: int, a: int, b: int)
    requires
        is_root(v, a),
        is_root(v, b),
    ensures
        a == b,
{
    if a < b {
        assert((2 * a + 1) * (2 * a + 1) <= (2 * b - 1) * (2 * b - 1)) by (nonlinear_arith)
            requires
                0 < a < b,
        ;
    }
    if b < a {
        assert((2 * b + 1) * (2 * b + 1) <= (2 * a - 1) * (2 * a - 1)) by (nonlinear_arith)
            requires
                0 < b < a,
        ;
    }
}

/// The whole part of the square root of `v`.
fn whole_root(v: u128) -> (r: u128)
    requires
        v < 0x400_0000_0000_0000_0000_0000_0000,
    ensures
        r * r <= v < (r + 1) * (r + 1),
        r < LIMIT,
{
    let mut r: u128 = 0;
    let mut bit: u128 = LIMIT as u128;
    assert(v < (0 + bit) * (0 + bit)) by (nonlinear_arith)
        requires
            v < 0x400_0000_0000_0000_0000_0000_0000,
            bit == LIMIT,
    ;
    proof {
        powers();
    }
    let mut left: u32 = 53;
    while bit > 1
        invariant
            left <= 53,
            bit == pow2(left as nat),
            r * r <= v < (r + bit) * (r + bit),
            r + bit <= LIMIT,
            1 <= bit,
        decreases left,
    {
        proof {
            lemma2_to64();
            if left == 0 {
                assert(false);
            }
            lemma_pow2_unfold(left as nat);
            lemma_pow2_pos((left - 1) as nat);
        }
        let half: u128 = bit / 2;
        let t: u128 = r + half;
        proof {
            assert(t * t <= LIMIT * LIMIT) by (nonlinear_arith)
                requires
                    0 <= t <= LIMIT,
            ;
            assert(bit == 2 * half);
            assert(r + bit == t + half);
        }
        if t * t <= v {
            r = t;
        }
        bit = half;
        left = left - 1;
    }
    assert(bit == 1);
    r
}

/// The square root of a number.
fn root(a: Finite) -> (r: Finite)
    requires
        a.wf(),
        a.within(-1100, 1100),
    ensures
        r.wf(),
        r.parts() == root_of(a.m as int, a.e as int),
        a.m > 0 ==> r.m > 0 && r.within((a.e - 53) / 2, (a.e - 52) / 2 + 1),
        a.m == 0 ==> r.m == 0,
{
    if a.m == 0 {
        return Finite { m: 0, e: 0 };
    }
    proof {
        powers();
        product_fits(a.m as int);
    }
    let odd: bool = a.e % 2 != 0;
    let v: u128 = if odd {
        a.m as u128 * LIMIT as u128
    } else {
        a.m as u128 * LEAST as u128
    };
    let h: i32 = if odd {
        (a.e - 53) / 2
    } else {
        (a.e - 52) / 2
    };
    let w: u128 = whole_root(v);
    let ghost s: int = if a.e as int % 2 == 0 {
        52
    } else {
        53
    };
    proof {
        assert(up(52) == LEAST && up(53) == LIMIT);
        assert(v == a.m * up(s));
        assert(h == (a.e - s) / 2);
        assert(LEAST * LEAST <= v);
        assert(w + 1 > LEAST) by (nonlinear_arith)
            requires
                LEAST * LEAST <= v < (w + 1) * (w + 1),
                w >= 0,
        ;
        assert(w * w <= LIMIT * LIMIT) by (nonlinear_arith)
            requires
                0 <= w < LIMIT,
        ;
        assert((w + 1) * (w + 1) == w * w + 2 * w + 1) by (nonlinear_arith);
    }
    let rest: u128 = v - w * w;
    let q: u128 = if rest > w {
        w + 1
    } else {
        w
    };
    proof {
        let (x, y) = (w as int, q as int);
        assert((2 * x + 1) * (2 * x + 1) == 4 * (x * x) + 4 * x + 1) by (nonlinear_arith);
        assert((2 * x - 1) * (2 * x - 1) == 4 * (x * x) - 4 * x + 1) by (nonlinear_arith);
        assert((2 * x + 3) * (2 * x + 3) == 4 * (x * x) + 12 * x + 9) by (nonlinear_arith);
        assert(is_root(v as int, y));
        root_is_unique(v as int, y, nearest_root(v as int));
    }
    finite(q, h)
}

/// Whether one number is less than another.
pub open spec fn is_less(a: (int, int), b: (int, int)) -> bool {
    a.0 * up(a.1 - b.1) < b.0 * up(b.1 - a.1)
}

fn less(a: Finite, b: Finite) -> (r: bool)
    requires
        a.wf(),
        b.wf(),
        a.within(-3000, 3000),
        b.within(-3000, 3000),
    ensures
        r == is_less(a.parts(), b.parts()),
{
    proof {
        up_positive(a.e - b.e);
        up_positive(b.e - a.e);
    }
    let ghost (x, y) = (up(a.e - b.e), up(b.e - a.e));
    if a.m == 0 {
        assert(b.m > 0 ==> b.m * y > 0) by (nonlinear_arith)
            requires
                y >= 1,
        ;
        return b.m > 0;
    }
    if b.m == 0 {
        assert(a.m * x >= 0) by (nonlinear_arith)
            requires
                x >= 1,
        ;
        return false;
    }
    if a.e == b.e {
        return a.m < b.m;
    }
    if a.e < b.e {
        proof {
            power_step(0, (b.e - a.e) as nat);
            lemma2_to64();
            assert(b.m * y >= LIMIT) by (nonlinear_arith)
                requires
                    b.m >= LEAST,
                    y >= 2,
            ;
        }
        true
    } else {
        proof {
            power_step(0, (a.e - b.e) as nat);
            lemma2_to64();
            assert(a.m * x >= LIMIT) by (nonlinear_arith)
                requires
                    a.m >= LEAST,
                    x >= 2,
            ;
        }
        false
    }
}

/// Which of two numbers is less shows in units of any power of two that is in
/// both.
pub proof fn less_at(a: (int, int), b: (int, int), e: int)
    requires
        e <= a.1,
        e <= b.1,
    ensures
        is_less(a, b) <==> a.0 * up(a.1 - e) < b.0 * up(b.1 - e),
{
    if a.1 >= b.1 {
        let u = up(a.1 - b.1);
        let v = up(b.1 - e);
        up_positive(b.1 - e);
        up_adds(a.1 - b.1, b.1 - e);
        assert(up(b.1 - a.1) == 1);
        let (x, y) = (a.0, b.0);
        assert(x * (u * v) == (x * u) * v) by (nonlinear_arith);
        assert((x * u) * v < y * v <==> x * u < y) by (nonlinear_arith)
            requires
                v >= 1,
        ;
        assert(y * 1 == y);
    } else {
        let u = up(b.1 - a.1);
        let v = up(a.1 - e);
        up_positive(a.1 - e);
        up_adds(b.1 - a.1, a.1 - e);
        assert(up(a.1 - b.1) == 1);
        let (x, y) = (a.0, b.0);
        assert(y * (u * v) == (y * u) * v) by (nonlinear_arith);
        assert(x * v < (y * u) * v <==> x < y * u) by (nonlinear_arith)
            requires
                v >= 1,
        ;
        assert(x * 1 == x);
    }
}

/// The number nearest to how far two numbers are apart.
pub open spec fn apart(a: (int, int), b: (int, int)) -> (int, int) {
    let x = a.0 * up(a.1 - b.1);
    let y = b.0 * up(b.1 - a.1);
    rounded(
        if x < y {
            y - x
        } else {
            x - y
        },
        1,
        if a.1 < b.1 {
            a.1
        } else {
            b.1
        },
    )
}

fn distance(a: Finite, b: Finite) -> (r: Finite)
    requires
        a.wf(),
        b.wf(),
        a.within(-1100, 1100),
        b.within(-1100, 1100),
        a.m > 0 && b.m > 0 ==> -72 <= a.e - b.e <= 72,
    ensures
        r.wf(),
        r.parts() == apart(a.parts(), b.parts()),
        r.within(-1200, 1200),
{
    if a.m == 0 {
        proof {
            rounding_keeps(b);
            up_positive(-(b.e as int));
            up_positive(b.e as int);
            assert(0 * up(-(b.e as int)) == 0) by (nonlinear_arith);
            assert(b.m * up(b.e as int) >= 0) by (nonlinear_arith)
                requires
                    up(b.e as int) >= 1,
            ;
        }
        return b;
    }
    if b.m == 0 {
        proof {
            rounding_keeps(a);
            up_positive(-(a.e as int));
            up_positive(a.e as int);
            assert(0 * up(-(a.e as int)) == 0) by (nonlinear_arith);
            assert(a.m * up(a.e as int) >= 0) by (nonlinear_arith)
                requires
                    up(a.e as int) >= 1,
            ;
        }
        return a;
    }
    let x: u128;
    let y: u128;
    let low: i32;
    proof {
        powers();
        lemma_pow2_adds(53, 72);
        lemma_pow2_adds(61, 64);
        lemma2_to64();
        lemma_pow2_unfold(64);
        lemma_pow2_unfold(63);
        lemma_pow2_unfold(62);
        assert(pow2(125) == 0x2000_0000_0000_0000_0000_0000_0000_0000) by (nonlinear_arith)
            requires
                pow2(125) == pow2(61) * pow2(64),
                pow2(61) == 0x2000_0000_0000_0000,
                pow2(64) == 0x1_0000_0000_0000_0000,
        ;
    }
    if a.e < b.e {
        let f: u128 = power((b.e - a.e) as u32);
        proof {
            shift_fits(b.m as int, (b.e - a.e) as int);
        }
        x = a.m as u128;
        y = b.m as u128 * f;
        low = a.e;
    } else {
        let f: u128 = power((a.e - b.e) as u32);
        proof {
            shift_fits(a.m as int, (a.e - b.e) as int);
        }
        x = a.m as u128 * f;
        y = b.m as u128;
        low = b.e;
    }
    let d: u128 = if x < y {
        y - x
    } else {
        x - y
    };
    let r = round_int(d, low);
    r
}

/// A number is kept by rounding.
proof fn rounding_keeps(a: Finite)
    requires
        a.wf(),
    ensures
        a.e >= 0 ==> rounded(a.m * up(a.e as int), 1, 0) == a.parts(),
        a.e < 0 ==> rounded(a.m * up(a.e as int), 1, a.e as int) == a.parts(),
{
    if a.e >= 0 {
        whole_is_exact(a);
    } else {
        assert(up(a.e as int) == 1);
        assert(a.m * up(a.e as int) == a.m);
        if a.m > 0 {
            assert(up(0) == 1);
            assert(scales(a.m as int, 1, 0));
            rounded_by(a.m as int, 1, a.e as int, 0);
            lemma_fundamental_div_mod_converse(a.m as int, 1, a.m as int, 0);
        }
    }
}

proof fn shift_fits(m: int, t: int)
    requires
        0 <= m < LIMIT,
        0 <= t <= 72,
        LIMIT * pow2(72) == pow2(125),
    ensures
        0 <= m * up(t) < pow2(125),
{
    up_positive(t);
    if 0 < t < 72 {
        lemma_pow2_strictly_increases(t as nat, 72);
    }
    if t == 0 {
        lemma_pow2_pos(72);
    }
    let p = pow2(72) as int;
    let u = up(t);
    assert(0 <= m * u < LIMIT * p) by (nonlinear_arith)
        requires
            0 <= m < LIMIT,
            1 <= u <= p,
    ;
}

/// The whole part of a number.
pub open spec fn floor_of(a: (int, int)) -> int {
    a.0 * up(a.1) / up(-a.1)
}

/// The least whole number that is no less than a number.
pub open spec fn ceil_of(a: (int, int)) -> int {
    (a.0 * up(a.1) + up(-a.1) - 1) / up(-a.1)
}

/// The whole number nearest to a number, the even one of two.
pub open spec fn nearest_of(a: (int, int)) -> int {
    nearest(a.0 * up(a.1), up(-a.1))
}

/// A whole number that fits the significand, and its like, are kept by rounding.
proof fn whole_is_exact(a: Finite)
    requires
        a.wf(),
        a.e >= 0,
    ensures
        rounded(a.m * up(a.e as int), 1, 0) == a.parts(),
{
    up_positive(a.e as int);
    let u = up(a.e as int);
    if a.m > 0 {
        let n = a.m * u;
        assert(n > 0) by (nonlinear_arith)
            requires
                a.m > 0,
                u >= 1,
                n == a.m * u,
        ;
        assert(LEAST * (1 * u) <= n * 1 < LIMIT * (1 * u)) by (nonlinear_arith)
            requires
                LEAST <= a.m < LIMIT,
                n == a.m * u,
                u >= 1,
        ;
        assert(up(-(a.e as int)) == 1);
        assert(scales(n, 1, -(a.e as int)));
        rounded_by(n, 1, 0, -(a.e as int));
        lemma_fundamental_div_mod_converse(n, u, a.m as int, 0);
        assert(nearest(n, u) == a.m);
    } else {
        assert(0 * u == 0) by (nonlinear_arith);
    }
}

/// The three ways to make a number with a negative exponent whole, from its
/// quotient and rest by the power of two.
proof fn whole_parts(m: int, d: int)
    requires
        0 <= m,
        0 < d,
    ensures
        (m + d - 1) / d == (if m % d == 0 {
            m / d
        } else {
            m / d + 1
        }),
{
    lemma_fundamental_div_mod(m, d);
    let q = m / d;
    let r = m % d;
    if r == 0 {
        assert(m + d - 1 == q * d + (d - 1)) by (nonlinear_arith)
            requires
                m == d * q + r,
                r == 0,
        ;
        lemma_fundamental_div_mod_converse(m + d - 1, d, q, d - 1);
    } else {
        assert(m + d - 1 == (q + 1) * d + (r - 1)) by (nonlinear_arith)
            requires
                m == d * q + r,
        ;
        lemma_fundamental_div_mod_converse(m + d - 1, d, q + 1, r - 1);
    }
}

/// How a number is made whole.
#[derive(Debug, Clone, Copy, PartialEq, Eq, Structural)]
enum Toward {
    Floor,
    Ceil,
    Nearest,
}

spec fn whole_of(a: (int, int), toward: Toward) -> int {
    match toward {
        Toward::Floor => floor_of(a),
        Toward::Ceil => ceil_of(a),
        Toward::Nearest => nearest_of(a),
    }
}

/// A number with a negative exponent, made whole.
fn whole_below(a: Finite, toward: Toward) -> (r: u64)
    requires
        a.wf(),
        a.within(-3000, -1),
    ensures
        r == whole_of(a.parts(), toward),
        r <= LEAST,
{
    proof {
        powers();
        assert(a.m * up(a.e as int) == a.m);
    }
    let t: u32 = (-a.e) as u32;
    if t > 54 {
        proof {
            lemma_pow2_strictly_increases(54, t as nat);
            lemma_pow2_unfold(54);
            let d = up(t as int);
            lemma_fundamental_div_mod_converse(a.m as int, d, 0, a.m as int);
            whole_parts(a.m as int, d);
        }
        return match toward {
            Toward::Floor => 0,
            Toward::Ceil => if a.m == 0 {
                0
            } else {
                1
            },
            Toward::Nearest => 0,
        };
    }
    proof {
        lemma2_to64();
        lemma_pow2_unfold(54);
        if t < 54 {
            lemma_pow2_strictly_increases(t as nat, 54);
        }
        power_step(0, t as nat);
    }
    let d: u128 = power(t);
    let n: u128 = a.m as u128;
    proof {
        whole_parts(n as int, d as int);
        lemma_fundamental_div_mod(n as int, d as int);
        let q = n as int / d as int;
        let r = n as int % d as int;
        assert(q < LEAST) by (nonlinear_arith)
            requires
                n == d * q + r,
                0 <= r,
                n < LIMIT,
                d >= 2,
                LIMIT == 2 * LEAST,
        ;
    }
    match toward {
        Toward::Floor => (n / d) as u64,
        Toward::Ceil => if n % d == 0 {
            (n / d) as u64
        } else {
            (n / d + 1) as u64
        },
        Toward::Nearest => nearest_whole(n, d) as u64,
    }
}

/// A binary64 that is not negative.
#[derive(Debug, Clone, Copy, PartialEq, Eq, Structural)]
pub enum Binary64 {
    Nan,
    Infinite,
    Finite(Finite),
}

/// What a binary64 holds: a finite one's significand and exponent.
pub enum Num {
    Nan,
    Infinite,
    Finite(int, int),
}

impl View for Binary64 {
    type V = Num;

    open spec fn view(&self) -> Num {
        match self {
            Binary64::Nan => Num::Nan,
            Binary64::Infinite => Num::Infinite,
            Binary64::Finite(f) => Num::Finite(f.m as int, f.e as int),
        }
    }
}

/// A number from its significand and exponent.
pub open spec fn num(parts: (int, int)) -> Num {
    Num::Finite(parts.0, parts.1)
}

/// The number nearest to a whole number.
pub open spec fn num_of(n: int) -> Num {
    num(rounded(n, 1, 0))
}

impl Num {
    /// The quotient.
    pub open spec fn over(self, by: Num) -> Num {
        match (self, by) {
            (Num::Nan, _) => Num::Nan,
            (_, Num::Nan) => Num::Nan,
            (Num::Infinite, Num::Infinite) => Num::Nan,
            (Num::Infinite, _) => Num::Infinite,
            (_, Num::Infinite) => Num::Finite(0, 0),
            (Num::Finite(m, e), Num::Finite(n, f)) => if n != 0 {
                num(rounded(m, n, e - f))
            } else if m == 0 {
                Num::Nan
            } else {
                Num::Infinite
            },
        }
    }

    /// The product.
    pub open spec fn times(self, by: Num) -> Num {
        match (self, by) {
            (Num::Nan, _) => Num::Nan,
            (_, Num::Nan) => Num::Nan,
            (Num::Infinite, Num::Infinite) => Num::Infinite,
            (Num::Infinite, Num::Finite(n, _)) => if n == 0 {
                Num::Nan
            } else {
                Num::Infinite
            },
            (Num::Finite(m, _), Num::Infinite) => if m == 0 {
                Num::Nan
            } else {
                Num::Infinite
            },
            (Num::Finite(m, e), Num::Finite(n, f)) => num(rounded(m * n, 1, e + f)),
        }
    }

    /// The square root.
    pub open spec fn root(self) -> Num {
        match self {
            Num::Finite(m, e) => num(root_of(m, e)),
            _ => self,
        }
    }

    /// How far two numbers are apart.
    pub open spec fn apart_from(self, other: Num) -> Num {
        match (self, other) {
            (Num::Nan, _) => Num::Nan,
            (_, Num::Nan) => Num::Nan,
            (Num::Infinite, Num::Infinite) => Num::Nan,
            (Num::Infinite, _) => Num::Infinite,
            (_, Num::Infinite) => Num::Infinite,
            (Num::Finite(m, e), Num::Finite(n, f)) => num(apart((m, e), (n, f))),
        }
    }

    /// Whether it is less than another.
    pub open spec fn below(self, other: Num) -> bool {
        match (self, other) {
            (Num::Finite(m, e), Num::Finite(n, f)) => is_less((m, e), (n, f)),
            (Num::Finite(_, _), Num::Infinite) => true,
            _ => false,
        }
    }

    /// Whether it equals another: nothing equals what is no number.
    pub open spec fn equals(self, other: Num) -> bool {
        self == other && self !is Nan
    }

    /// The greater of two; what is no number is passed over.
    pub open spec fn or_greater(self, other: Num) -> Num {
        if self is Nan || self.below(other) {
            other
        } else {
            self
        }
    }

    /// Its whole part.
    pub open spec fn floor(self) -> Num {
        match self {
            Num::Finite(m, e) => num_of(floor_of((m, e))),
            _ => self,
        }
    }

    /// The least whole number that is no less.
    pub open spec fn ceil(self) -> Num {
        match self {
            Num::Finite(m, e) => num_of(ceil_of((m, e))),
            _ => self,
        }
    }

    /// Its whole part as a machine size, as far as that reaches.
    pub open spec fn size(self) -> int {
        match self {
            Num::Nan => 0,
            Num::Infinite => usize::MAX as int,
            Num::Finite(m, e) => if floor_of((m, e)) > usize::MAX {
                usize::MAX as int
            } else {
                floor_of((m, e))
            },
        }
    }

    /// The number as it is after a binary32 held it.
    pub open spec fn narrowed(self) -> Num {
        match self {
            Num::Finite(m, e) => {
                let g = if e + 29 < -149 {
                    -149
                } else {
                    e + 29
                };
                let q = nearest(m, up(g - e));
                if is_less((q, g), (1, 128)) {
                    num(rounded(q, 1, g))
                } else {
                    Num::Infinite
                }
            },
            _ => self,
        }
    }
}

impl Binary64 {
    /// A finite number's significand is among the significands, or it is zero.
    pub open spec fn wf(self) -> bool {
        match self {
            Binary64::Finite(f) => f.wf(),
            _ => true,
        }
    }

    /// A finite number's exponent is no farther from zero than `n`.
    pub open spec fn near(self, n: int) -> bool {
        match self {
            Binary64::Finite(f) => f.within(-n, n),
            _ => true,
        }
    }

    /// The number nearest to a whole number.
    pub fn of(n: u64) -> (r: Binary64)
        ensures
            r.wf(),
            r@ == num_of(n as int),
            r.near(75),
            r is Finite,
            n > 0 ==> r->Finite_0.m > 0,
            0 < n < 0x1_0000_0000 ==> r->Finite_0.within(-52, -21),
    {
        Binary64::Finite(round_int(n as u128, 0))
    }

    /// A half.
    pub fn half() -> (r: Binary64)
        ensures
            r.wf(),
            r@ == Num::Finite(LEAST as int, -53),
            r.near(53),
    {
        Binary64::Finite(Finite { m: LEAST, e: -53 })
    }

    /// The quotient.
    pub fn over(self, by: Binary64) -> (r: Binary64)
        requires
            self.wf(),
            by.wf(),
            self.near(1000),
            by.near(1000),
        ensures
            r.wf(),
            r@ == self@.over(by@),
            forall|i: int, j: int|
                i >= 0 && j >= 0 && #[trigger] self.near(i) && #[trigger] by.near(j) ==> r.near(
                    i + j + 53,
                ),
            match (self, by, r) {
                (Binary64::Finite(a), Binary64::Finite(b), Binary64::Finite(q)) => a.m > 0 && b.m
                    > 0 ==> q.m > 0 && q.within(a.e - b.e - 53, a.e - b.e - 51),
                _ => true,
            },
    {
        match (self, by) {
            (Binary64::Nan, _) => Binary64::Nan,
            (_, Binary64::Nan) => Binary64::Nan,
            (Binary64::Infinite, Binary64::Infinite) => Binary64::Nan,
            (Binary64::Infinite, _) => Binary64::Infinite,
            (_, Binary64::Infinite) => Binary64::Finite(Finite { m: 0, e: 0 }),
            (Binary64::Finite(a), Binary64::Finite(b)) => if b.m != 0 {
                Binary64::Finite(divide(a, b))
            } else if a.m == 0 {
                Binary64::Nan
            } else {
                Binary64::Infinite
            },
        }
    }

    /// The product.
    pub fn times(self, by: Binary64) -> (r: Binary64)
        requires
            self.wf(),
            by.wf(),
            self.near(1000),
            by.near(1000),
        ensures
            r.wf(),
            r@ == self@.times(by@),
            forall|i: int, j: int|
                i >= 0 && j >= 0 && #[trigger] self.near(i) && #[trigger] by.near(j) ==> r.near(
                    i + j + 75,
                ),
    {
        match (self, by) {
            (Binary64::Nan, _) => Binary64::Nan,
            (_, Binary64::Nan) => Binary64::Nan,
            (Binary64::Infinite, Binary64::Infinite) => Binary64::Infinite,
            (Binary64::Infinite, Binary64::Finite(b)) => if b.m == 0 {
                Binary64::Nan
            } else {
                Binary64::Infinite
            },
            (Binary64::Finite(a), Binary64::Infinite) => if a.m == 0 {
                Binary64::Nan
            } else {
                Binary64::Infinite
            },
            (Binary64::Finite(a), Binary64::Finite(b)) => Binary64::Finite(multiply(a, b)),
        }
    }

    /// The square root.
    pub fn root(self) -> (r: Binary64)
        requires
            self.wf(),
            self.near(1000),
        ensures
            r.wf(),
            r@ == self@.root(),
            forall|i: int| i >= 0 && #[trigger] self.near(i) ==> r.near(i + 53),
    {
        match self {
            Binary64::Nan => Binary64::Nan,
            Binary64::Infinite => Binary64::Infinite,
            Binary64::Finite(a) => Binary64::Finite(self::root(a)),
        }
    }

    /// How far two numbers are apart.
    pub fn apart_from(self, other: Binary64) -> (r: Binary64)
        requires
            self.wf(),
            other.wf(),
            self.near(1000),
            other.near(1000),
            match (self, other) {
                (Binary64::Finite(a), Binary64::Finite(b)) => a.m > 0 && b.m > 0 ==> -72 <= a.e
                    - b.e <= 72,
                _ => true,
            },
        ensures
            r.wf(),
            r@ == self@.apart_from(other@),
            r.near(1200),
    {
        match (self, other) {
            (Binary64::Nan, _) => Binary64::Nan,
            (_, Binary64::Nan) => Binary64::Nan,
            (Binary64::Infinite, Binary64::Infinite) => Binary64::Nan,
            (Binary64::Infinite, _) => Binary64::Infinite,
            (_, Binary64::Infinite) => Binary64::Infinite,
            (Binary64::Finite(a), Binary64::Finite(b)) => Binary64::Finite(distance(a, b)),
        }
    }

    /// Whether it is less than another.
    pub fn below(self, other: Binary64) -> (r: bool)
        requires
            self.wf(),
            other.wf(),
            self.near(3000),
            other.near(3000),
        ensures
            r == self@.below(other@),
    {
        match (self, other) {
            (Binary64::Finite(a), Binary64::Finite(b)) => less(a, b),
            (Binary64::Finite(_), Binary64::Infinite) => true,
            _ => false,
        }
    }

    /// Whether it equals another.
    pub fn equals(self, other: Binary64) -> (r: bool)
        ensures
            r == self@.equals(other@),
    {
        match (self, other) {
            (Binary64::Finite(a), Binary64::Finite(b)) => a.m == b.m && a.e == b.e,
            (Binary64::Infinite, Binary64::Infinite) => true,
            _ => false,
        }
    }

    /// The greater of two.
    pub fn or_greater(self, other: Binary64) -> (r: Binary64)
        requires
            self.wf(),
            other.wf(),
            self.near(3000),
            other.near(3000),
        ensures
            r.wf(),
            r@ == self@.or_greater(other@),
            r == self || r == other,
    {
        match self {
            Binary64::Nan => other,
            _ => if self.below(other) {
                other
            } else {
                self
            },
        }
    }

    /// Its whole part.
    pub fn floor(self) -> (r: Binary64)
        requires
            self.wf(),
            self.near(3000),
        ensures
            r.wf(),
            r@ == self@.floor(),
            forall|i: int| i >= 0 && #[trigger] self.near(i) ==> r.near(i + 75),
    {
        match self {
            Binary64::Finite(a) => {
                if a.e >= 0 {
                    proof {
                        whole_is_exact(a);
                        let n = a.m * up(a.e as int);
                        assert(up(-(a.e as int)) == 1);
                        lemma_fundamental_div_mod_converse(n, 1, n, 0);
                    }
                    self
                } else {
                    Binary64::Finite(round_int(whole_below(a, Toward::Floor) as u128, 0))
                }
            },
            _ => self,
        }
    }

    /// The least whole number that is no less.
    pub fn ceil(self) -> (r: Binary64)
        requires
            self.wf(),
            self.near(3000),
        ensures
            r.wf(),
            r@ == self@.ceil(),
            forall|i: int| i >= 0 && #[trigger] self.near(i) ==> r.near(i + 75),
    {
        match self {
            Binary64::Finite(a) => {
                if a.e >= 0 {
                    proof {
                        whole_is_exact(a);
                        let n = a.m * up(a.e as int);
                        assert(up(-(a.e as int)) == 1);
                        lemma_fundamental_div_mod_converse(n, 1, n, 0);
                    }
                    self
                } else {
                    Binary64::Finite(round_int(whole_below(a, Toward::Ceil) as u128, 0))
                }
            },
            _ => self,
        }
    }

    /// Its whole part as a machine size, as far as that reaches.
    pub fn size(self) -> (r: usize)
        requires
            self.wf(),
            self.near(3000),
        ensures
            r == self@.size(),
    {
        match self {
            Binary64::Nan => 0,
            Binary64::Infinite => usize::MAX,
            Binary64::Finite(a) => {
                if a.e >= 0 {
                    let ghost n = a.m * up(a.e as int);
                    proof {
                        assert(up(-(a.e as int)) == 1);
                        lemma_fundamental_div_mod_converse(n, 1, n, 0);
                    }
                    match whole_above(a) {
                        Some(n) => if n > usize::MAX as u128 {
                            usize::MAX
                        } else {
                            n as usize
                        },
                        None => usize::MAX,
                    }
                } else {
                    let n: u64 = whole_below(a, Toward::Floor);
                    if n > usize::MAX as u64 {
                        usize::MAX
                    } else {
                        n as usize
                    }
                }
            },
        }
    }

    /// The number as it is after a binary32 held it.
    pub fn narrowed(self) -> (r: Binary64)
        requires
            self.wf(),
            self.near(1127),
        ensures
            r.wf(),
            r@ == self@.narrowed(),
            r.near(210),
    {
        match self {
            Binary64::Finite(a) => narrow(a),
            _ => self,
        }
    }
}

/// A number with an exponent that is not negative as a whole number; nothing
/// where it is beyond 64 bits.
fn whole_above(a: Finite) -> (r: Option<u128>)
    requires
        a.wf(),
        0 <= a.e <= 3000,
    ensures
        match r {
            Some(n) => n == a.m * up(a.e as int),
            None => a.m * up(a.e as int) > u64::MAX,
        },
{
    if a.m == 0 {
        assert(0 * up(a.e as int) == 0) by (nonlinear_arith);
        return Some(0);
    }
    proof {
        lemma2_to64();
        powers();
    }
    if a.e > 12 {
        proof {
            lemma_pow2_strictly_increases(12, a.e as nat);
            let u = up(a.e as int);
            assert(a.m * u > u64::MAX) by (nonlinear_arith)
                requires
                    a.m >= LEAST,
                    u > 0x1000,
            ;
        }
        return None;
    }
    let f: u128 = power(a.e as u32);
    proof {
        if a.e < 12 {
            lemma_pow2_strictly_increases(a.e as nat, 12);
        }
        assert(a.m * f <= LIMIT * 0x1000) by (nonlinear_arith)
            requires
                a.m <= LIMIT,
                f <= 0x1000,
        ;
    }
    Some(a.m as u128 * f)
}

#[verifier::spinoff_prover]
fn narrow(a: Finite) -> (r: Binary64)
    requires
        a.wf(),
        a.within(-1127, 1127),
    ensures
        r.wf(),
        r@ == num(a.parts()).narrowed(),
        r.near(210),
{
    let g: i32 = if a.e + 29 < -149 {
        -149
    } else {
        a.e + 29
    };
    let t: u32 = (g - a.e) as u32;
    proof {
        powers();
        lemma2_to64();
    }
    let q: u128;
    if t > 54 {
        proof {
            lemma_pow2_strictly_increases(54, t as nat);
            lemma_pow2_unfold(54);
            lemma_fundamental_div_mod_converse(a.m as int, up(t as int), 0, a.m as int);
        }
        q = 0;
    } else {
        proof {
            if t > 29 {
                lemma_pow2_strictly_increases(29, t as nat);
            }
            lemma_pow2_unfold(54);
            if t < 54 {
                lemma_pow2_strictly_increases(t as nat, 54);
            }
        }
        let d: u128 = power(t);
        q = nearest_whole(a.m as u128, d);
        proof {
            assert(a.m < 0x100_0000 * d) by (nonlinear_arith)
                requires
                    a.m < LIMIT,
                    d >= 0x2000_0000,
            ;
            nearest_within(a.m as int, d as int, 0, 0x100_0000);
            if t == 29 && a.m > 0 {
                nearest_within(a.m as int, d as int, 0x80_0000, 0x100_0000);
            }
        }
    }
    proof {
        narrow_reach(q as int, g as int);
    }
    if g >= 105 && q > 0 || (g == 104 && q == 0x100_0000) {
        Binary64::Infinite
    } else {
        Binary64::Finite(round_int(q, g))
    }
}

/// Which of the significands that a binary32 takes are beyond its reach.
proof fn narrow_reach(q: int, g: int)
    requires
        0 <= q <= 0x100_0000,
        q == 0 || g <= 104 || q >= 0x80_0000,
        g <= 1200,
    ensures
        is_less((q, g), (1, 128)) <==> !(g >= 105 && q > 0 || (g == 104 && q == 0x100_0000)),
{
    lemma2_to64();
    let x = up(g - 128);
    let y = up(128 - g);
    up_positive(g - 128);
    up_positive(128 - g);
    if q == 0 {
        assert(0 * x == 0) by (nonlinear_arith);
    } else if g <= 103 {
        if g < 103 {
            lemma_pow2_strictly_increases(25, (128 - g) as nat);
        }
    } else if g <= 128 {
        if g > 105 {
            lemma_pow2_strictly_increases((128 - g) as nat, 23);
        }
        assert(x == 1);
        assert(q * x == q);
    } else {
        assert(q * x >= 1) by (nonlinear_arith)
            requires
                q >= 1,
                x >= 1,
        ;
    }
}

/// A binary64 with its sign.
#[derive(Debug, Clone, Copy, PartialEq, Eq, Structural)]
pub struct Signed {
    pub negative: bool,
    pub size: Binary64,
}

/// The number that the bits of a binary64 encode, without its sign.
pub open spec fn decoded(bits: u64) -> Num {
    let e = (bits as int / LEAST as int) % 2048;
    let f = bits as int % LEAST as int;
    if e == 2047 {
        if f == 0 {
            Num::Infinite
        } else {
            Num::Nan
        }
    } else if e == 0 {
        num(rounded(f, 1, -1074))
    } else {
        Num::Finite(LEAST + f, e - 1075)
    }
}

/// The bits of a binary64 that is neither below the normal numbers nor beyond
/// them.
pub open spec fn encoded(negative: bool, parts: (int, int)) -> u64 {
    let sign = if negative {
        0x8000_0000_0000_0000
    } else {
        0int
    };
    if parts.0 == 0 {
        sign as u64
    } else {
        (sign + (parts.1 + 1075) * LEAST + (parts.0 - LEAST)) as u64
    }
}

/// The number that the bits of a binary64 encode.
pub fn from_bits(bits: u64) -> (r: Signed)
    ensures
        r.negative == (bits >= 0x8000_0000_0000_0000),
        r.size.wf(),
        r.size@ == decoded(bits),
        r.size.near(1127),
{
    let e: u64 = (bits / LEAST) % 2048;
    let f: u64 = bits % LEAST;
    let size: Binary64 = if e == 2047 {
        if f == 0 {
            Binary64::Infinite
        } else {
            Binary64::Nan
        }
    } else if e == 0 {
        Binary64::Finite(round_int(f as u128, -1074))
    } else {
        Binary64::Finite(Finite { m: LEAST + f, e: e as i32 - 1075 })
    };
    Signed { negative: bits >= 0x8000_0000_0000_0000, size }
}

/// The whole number nearest to a number, the even one of two, as far as 64 bits
/// with a sign reach; zero for what is no number.
pub open spec fn half_even_of(negative: bool, size: Num) -> int {
    match size {
        Num::Nan => 0,
        Num::Infinite => if negative {
            i64::MIN as int
        } else {
            i64::MAX as int
        },
        Num::Finite(m, e) => {
            let n = nearest_of((m, e));
            if negative {
                if -n < i64::MIN {
                    i64::MIN as int
                } else {
                    -n
                }
            } else if n > i64::MAX {
                i64::MAX as int
            } else {
                n
            }
        },
    }
}

/// The whole number nearest to a number, the even one of two.
pub fn round_half_even(x: Signed) -> (r: i64)
    requires
        x.size.wf(),
        x.size.near(3000),
    ensures
        r == half_even_of(x.negative, x.size@),
{
    let n: u128 = match x.size {
        Binary64::Nan => {
            return 0;
        },
        Binary64::Infinite => {
            return if x.negative {
                i64::MIN
            } else {
                i64::MAX
            };
        },
        Binary64::Finite(a) => {
            if a.e >= 0 {
                proof {
                    let n = a.m * up(a.e as int);
                    up_positive(a.e as int);
                    assert(n >= 0) by (nonlinear_arith)
                        requires
                            up(a.e as int) >= 1,
                            n == a.m * up(a.e as int),
                    ;
                    assert(up(-(a.e as int)) == 1);
                    lemma_fundamental_div_mod_converse(n, 1, n, 0);
                    assert(nearest_of(a.parts()) == n);
                }
                match whole_above(a) {
                    Some(n) => n,
                    None => {
                        return if x.negative {
                            i64::MIN
                        } else {
                            i64::MAX
                        };
                    },
                }
            } else {
                whole_below(a, Toward::Nearest) as u128
            }
        },
    };
    if x.negative {
        if n > 0x7fff_ffff_ffff_ffff {
            i64::MIN
        } else {
            -(n as i64)
        }
    } else if n > 0x7fff_ffff_ffff_ffff {
        i64::MAX
    } else {
        n as i64
    }
}

/// A whole number is nearest to every square root.
pub proof fn root_exists(v: int)
    requires
        v >= 1,
    ensures
        is_root(v, nearest_root(v)),
    decreases v,
{
    if v == 1 {
        assert((2 * 1 - 1) * (2 * 1 - 1) == 1 && (2 * 1 + 1) * (2 * 1 + 1) == 9)
            by (nonlinear_arith);
        assert(is_root(1, 1));
    } else {
        root_exists(v - 1);
        let q = nearest_root(v - 1);
        let odd = 2 * q + 1;
        assert(odd * odd == 4 * (q * q + q) + 1) by (nonlinear_arith)
            requires
                odd == 2 * q + 1,
        ;
        assert((odd + 2) * (odd + 2) == odd * odd + 4 * odd + 4) by (nonlinear_arith);
        if 4 * v < odd * odd {
            assert(is_root(v, q));
        } else {
            assert(is_root(v, q + 1));
        }
    }
}

impl Num {
    /// A finite number's significand is not negative.
    pub open spec fn plain(self) -> bool {
        match self {
            Num::Finite(m, _) => m >= 0,
            _ => true,
        }
    }
}

proof fn rounded_is_plain(n: int, d: int, k: int)
    requires
        n >= 0,
        d > 0,
    ensures
        rounded(n, d, k).0 >= 0,
{
    if n > 0 {
        let j = scale(n, d);
        let (x, y) = (up(j), up(-j));
        up_positive(j);
        up_positive(-j);
        assert(n * x >= 0 && d * y > 0) by (nonlinear_arith)
            requires
                n > 0,
                d > 0,
                x >= 1,
                y >= 1,
        ;
        vstd::arithmetic::div_mod::lemma_div_pos_is_pos(n * x, d * y);
    }
}

/// The significand of what a positive whole number is rounded to is positive.
pub proof fn rounded_is_positive(n: int)
    requires
        n > 0,
    ensures
        rounded(n, 1, 0).0 > 0,
{
    powers();
    if n < LIMIT {
        let j = scale_up(n);
        rounded_by(n, 1, 0, j);
        lemma_fundamental_div_mod_converse(n * up(j), 1, n * up(j), 0);
        assert(up(-j) == 1);
    } else {
        let s = scale_down(n);
        rounded_by(n, 1, 0, -s);
        up_positive(s);
        assert(up(-s) == 1);
        assert(n * up(-s) == n);
        nearest_within(n, up(s), LEAST as int, LIMIT as int);
    }
}

/// No operation makes a number negative.
pub proof fn operations_stay_plain(a: Num, b: Num, n: int)
    requires
        a.plain(),
        b.plain(),
        n >= 0,
    ensures
        num_of(n).plain(),
        a.over(b).plain(),
        a.times(b).plain(),
        a.root().plain(),
        match a {
            Num::Finite(m, e) => floor_of((m, e)) >= 0 && ceil_of((m, e)) >= 0,
            _ => true,
        },
{
    rounded_is_plain(n, 1, 0);
    match (a, b) {
        (Num::Finite(m, e), Num::Finite(x, f)) => {
            if x > 0 {
                rounded_is_plain(m, x, e - f);
            }
            assert(m * x >= 0) by (nonlinear_arith)
                requires
                    m >= 0,
                    x >= 0,
            ;
            rounded_is_plain(m * x, 1, e + f);
        },
        _ => {},
    }
    match a {
        Num::Finite(m, e) => {
            up_positive(e);
            up_positive(-e);
            let (x, y) = (up(e), up(-e));
            assert(m * x >= 0) by (nonlinear_arith)
                requires
                    m >= 0,
                    x >= 1,
            ;
            vstd::arithmetic::div_mod::lemma_div_pos_is_pos(m * x, y);
            vstd::arithmetic::div_mod::lemma_div_pos_is_pos(m * x + y - 1, y);
            if m > 0 {
                let s: int = if e % 2 == 0 {
                    52
                } else {
                    53
                };
                up_positive(s);
                assert(m * up(s) >= 1) by (nonlinear_arith)
                    requires
                        m >= 1,
                        up(s) >= 1,
                ;
                root_exists(m * up(s));
            }
        },
        _ => {},
    }
}

/// A whole number below the limit of the significands is kept exactly; one at
/// the limit or above stays at it or above.
pub proof fn whole_numbers_are_exact(n: int)
    requires
        0 <= n,
    ensures
        n < LIMIT ==> floor_of(rounded(n, 1, 0)) == n,
        n >= LIMIT ==> floor_of(rounded(n, 1, 0)) >= LIMIT,
{
    powers();
    if n == 0 {
        lemma_fundamental_div_mod_converse(0, 1, 0, 0);
    } else if n < LIMIT {
        let j = scale_up(n);
        rounded_by(n, 1, 0, j);
        let m = n * up(j);
        lemma_fundamental_div_mod_converse(m, 1, m, 0);
        up_positive(j);
        assert(up(-j) == 1);
        lemma_fundamental_div_mod_converse(m, up(j), n, 0);
        assert(rounded(n, 1, 0) == (m, -j));
        assert(m * up(-j) == m);
    } else {
        let s = scale_down(n);
        rounded_by(n, 1, 0, -s);
        let d = up(s);
        assert(up(-s) == 1);
        assert(n * up(-s) == n);
        power_step(0, s as nat);
        nearest_within(n, d, LEAST as int, LIMIT as int);
        let q = nearest(n, d);
        let (m, e) = normal(q, s);
        assert(e >= s && m >= LEAST);
        up_positive(e);
        if e > s {
            power_step(s as nat, e as nat);
        }
        let u = up(e);
        assert(m * u >= LIMIT) by (nonlinear_arith)
            requires
                m >= LEAST,
                u >= 2,
        ;
        assert(up(-e) == 1);
        lemma_fundamental_div_mod_converse(m * u, 1, m * u, 0);
    }
}

proof fn up_adds(a: int, b: int)
    requires
        a >= 0,
        b >= 0,
    ensures
        up(a + b) == up(a) * up(b),
{
    lemma2_to64();
    if a > 0 && b > 0 {
        lemma_pow2_adds(a as nat, b as nat);
    } else if a == 0 {
        assert(up(a) * up(b) == up(b));
    } else {
        assert(up(a) * up(b) == up(a));
    }
}

/// A common factor does not change what is nearest.
proof fn nearest_cancels(n: int, d: int, u: int)
    requires
        n >= 0,
        d > 0,
        u > 0,
    ensures
        nearest(n * u, d * u) == nearest(n, d),
{
    let q = n / d;
    let r = n % d;
    lemma_fundamental_div_mod(n, d);
    assert(d * u > 0) by (nonlinear_arith)
        requires
            d > 0,
            u > 0,
    ;
    assert(n * u == q * (d * u) + r * u) by (nonlinear_arith)
        requires
            n == d * q + r,
    ;
    assert(0 <= r * u < d * u) by (nonlinear_arith)
        requires
            0 <= r < d,
            u > 0,
    ;
    lemma_fundamental_div_mod_converse(n * u, d * u, q, r * u);
    assert(2 * r < d ==> 2 * (r * u) < d * u) by (nonlinear_arith)
        requires
            u > 0,
    ;
    assert(2 * r > d ==> 2 * (r * u) > d * u) by (nonlinear_arith)
        requires
            u > 0,
    ;
    assert(2 * r == d ==> 2 * (r * u) == d * u) by (nonlinear_arith);
}

/// Doubling a number as often as its exponent is lowered keeps it.
pub proof fn shifting_keeps(n: int, t: int, s: int)
    requires
        n >= 0,
        t >= 0,
    ensures
        rounded(n * up(t), 1, s - t) == rounded(n, 1, s),
{
    up_positive(t);
    let u = up(t);
    if n == 0 {
        assert(0 * u == 0) by (nonlinear_arith);
    } else {
        let j: int = if n < LIMIT {
            scale_up(n)
        } else {
            -scale_down(n)
        };
        rounded_by(n, 1, s, j);
        let m = n * u;
        assert(m > 0) by (nonlinear_arith)
            requires
                n > 0,
                u >= 1,
                m == n * u,
        ;
        let i = j - t;
        if j >= t {
            up_adds(t, i);
            let v = up(i);
            assert(m * v == n * (u * v)) by (nonlinear_arith)
                requires
                    m == n * u,
            ;
            assert(up(-i) == 1 && up(-j) == 1);
            assert(scales(m, 1, i));
        } else if j >= 0 {
            up_adds(j, -i);
            let v = up(-i);
            let w = up(j);
            up_positive(-i);
            assert(m == (n * w) * v) by (nonlinear_arith)
                requires
                    m == n * u,
                    u == w * v,
            ;
            assert(up(i) == 1 && up(-j) == 1);
            assert(LEAST * (1 * v) <= m * 1 < LIMIT * (1 * v)) by (nonlinear_arith)
                requires
                    LEAST <= n * w < LIMIT,
                    m == (n * w) * v,
                    v >= 1,
            ;
            assert(scales(m, 1, i));
            nearest_cancels(n * w, 1, v);
            assert(1 * v == v);
        } else {
            up_adds(t, -j);
            let v = up(-j);
            up_positive(-j);
            assert(up(i) == 1 && up(j) == 1);
            let w = up(-i);
            assert(w == v * u) by (nonlinear_arith)
                requires
                    w == u * v,
            ;
            assert(LEAST * (1 * w) <= m * 1 < LIMIT * (1 * w)) by (nonlinear_arith)
                requires
                    LEAST * v <= n < LIMIT * v,
                    m == n * u,
                    w == v * u,
                    u >= 1,
            ;
            assert(scales(m, 1, i));
            nearest_cancels(n, v, u);
        }
        rounded_by(m, 1, s - t, i);
    }
}

/// The product of two whole numbers, each rounded: exact where it is below the
/// limit of the significands, and otherwise at the limit or above.
pub proof fn product_is_exact(k: int, f: int)
    requires
        0 <= k,
        0 < f < LIMIT,
    ensures
        ({
            let (a, b) = (rounded(k, 1, 0), rounded(f, 1, 0));
            let p = floor_of(rounded(a.0 * b.0, 1, a.1 + b.1));
            &&& k * f < LIMIT ==> p == k * f
            &&& k * f >= LIMIT ==> p >= LIMIT
        }),
{
    let (a, b) = (rounded(k, 1, 0), rounded(f, 1, 0));
    let j = scale_up(f);
    rounded_by(f, 1, 0, j);
    lemma_fundamental_div_mod_converse(f * up(j), 1, f * up(j), 0);
    assert(up(-j) == 1);
    assert(b == (f * up(j), -j));
    up_positive(j);
    let v = up(j);
    assert(k * f >= k) by (nonlinear_arith)
        requires
            k >= 0,
            f >= 1,
    ;
    if k == 0 {
        assert(0 * b.0 == 0 && 0 * f == 0) by (nonlinear_arith);
        lemma_fundamental_div_mod_converse(0, 1, 0, 0);
    } else if k < LIMIT {
        let i = scale_up(k);
        rounded_by(k, 1, 0, i);
        lemma_fundamental_div_mod_converse(k * up(i), 1, k * up(i), 0);
        assert(up(-i) == 1);
        assert(a == (k * up(i), -i));
        up_adds(i, j);
        let u = up(i);
        assert((k * u) * (f * v) == (k * f) * (u * v)) by (nonlinear_arith);
        shifting_keeps(k * f, i + j, 0);
        whole_numbers_are_exact(k * f);
    } else {
        powers();
        let s = scale_down(k);
        rounded_by(k, 1, 0, -s);
        let d = up(s);
        assert(up(-s) == 1);
        assert(k * up(-s) == k);
        nearest_within(k, d, LEAST as int, LIMIT as int);
        let (m, e) = a;
        assert(m >= LEAST && e >= s);
        assert(m * (f * v) == (m * f) * v) by (nonlinear_arith);
        assert(m * f >= 0) by (nonlinear_arith)
            requires
                m >= 0,
                f > 0,
        ;
        shifting_keeps(m * f, j, e);
        power_step(0, e as nat);
        let w = up(e);
        shifted_back(m * f, e);
        assert((m * f) * w >= LIMIT) by (nonlinear_arith)
            requires
                m >= LEAST,
                f >= 1,
                w >= 2,
        ;
        whole_numbers_are_exact((m * f) * w);
    }
}

/// The parts of a whole number below the limit of the significands.
proof fn whole_parts_of(n: int) -> (j: int)
    requires
        0 < n < LIMIT,
    ensures
        j >= 0,
        LEAST <= n * up(j) < LIMIT,
        rounded(n, 1, 0) == (n * up(j), -j),
{
    let j = scale_up(n);
    rounded_by(n, 1, 0, j);
    lemma_fundamental_div_mod_converse(n * up(j), 1, n * up(j), 0);
    assert(up(-j) == 1);
    j
}

/// The quotient of two whole numbers below the limit of the significands is exact
/// where the one is a multiple of the other, and so is the whole number nearest
/// to it.
pub proof fn quotient_is_exact(k: int, f: int)
    requires
        1 <= k,
        1 <= f,
        k * f < LIMIT,
    ensures
        num_of(k * f).over(num_of(f)) == num_of(k),
        half_even_of(false, num_of(k)) == k,
{
    let p = k * f;
    assert(k <= p && f <= p) by (nonlinear_arith)
        requires
            1 <= k,
            1 <= f,
            p == k * f,
    ;
    let jp = whole_parts_of(p);
    let jf = whole_parts_of(f);
    let i = whole_parts_of(k);
    let (u, v, w) = (up(jp), up(jf), up(i));
    up_positive(jp);
    up_positive(jf);
    up_positive(i);
    let (n, d) = (p * u, f * v);
    let j = i + jf - jp;
    let (x, y) = (up(j), up(-j));
    up_positive(j);
    up_positive(-j);
    up_adds(i, jf);
    if j >= 0 {
        up_adds(jp, j);
        assert(u * x == (w * v) * y);
    } else {
        up_adds(i + jf, -j);
        assert(u * x == (w * v) * y);
    }
    assert(n * x == (k * w) * (d * y)) by (nonlinear_arith)
        requires
            n == (k * f) * u,
            d == f * v,
            u * x == (w * v) * y,
    ;
    let (q, e) = (k * w, d * y);
    assert(e > 0) by (nonlinear_arith)
        requires
            e == d * y,
            d > 0,
            y >= 1,
    ;
    assert(LEAST * e <= q * e < LIMIT * e) by (nonlinear_arith)
        requires
            LEAST <= q < LIMIT,
            e > 0,
    ;
    assert(scales(n, d, j));
    rounded_by(n, d, jf - jp, j);
    lemma_fundamental_div_mod_converse(q * e, e, q, 0);
    assert(nearest(n * x, d * y) == q);
    assert(up(-i) == 1);
    lemma_fundamental_div_mod_converse(k * w, w, k, 0);
    assert(nearest_of((q, -i)) == k);
}

/// A number with an exponent that is not negative is the whole number that it
/// stands for.
proof fn shifted_back(n: int, e: int)
    requires
        n >= 0,
        e >= 0,
    ensures
        rounded(n * up(e), 1, 0) == rounded(n, 1, e),
{
    shifting_keeps(n, e, e);
}

proof fn scale_down(n: int) -> (s: int)
    requires
        n >= LEAST,
    ensures
        scales(n, 1, -s),
        s >= 0,
        n >= LIMIT ==> s > 0,
    decreases n,
{
    assert(up(0) == 1);
    if n < LIMIT {
        assert(scales(n, 1, 0));
        0
    } else {
        let t = scale_down(n / 2);
        up_doubles(t);
        assert(up(-t) == 1 && up(-(t + 1)) == 1);
        assert(scales(n, 1, -(t + 1)));
        t + 1
    }
}

proof fn scale_up(n: int) -> (j: int)
    requires
        0 < n < LIMIT,
    ensures
        scales(n, 1, j),
        j >= 0,
    decreases LIMIT - n,
{
    assert(up(0) == 1);
    if n >= LEAST {
        assert(scales(n, 1, 0));
        0
    } else {
        let i = scale_up(2 * n);
        up_doubles(i);
        assert(up(-i) == 1 && up(-(i + 1)) == 1);
        assert(n * (2 * up(i)) == (2 * n) * up(i)) by (nonlinear_arith);
        i + 1
    }
}

/// Half of a whole number, compared with another: exact below the limit of the
/// significands.
pub proof fn half_compares(p: int, a: int)
    requires
        0 <= p < LIMIT,
        0 <= a < LIMIT,
    ensures
        Num::Finite(LEAST as int, -53).times(num_of(p)).below(num_of(a)) <==> p < 2 * a,
{
    powers();
    if p == 0 {
        assert(LEAST * 0 == 0);
        let b = rounded(a, 1, 0);
        if a > 0 {
            rounded_is_positive(a);
        }
        let (x, y) = (up(b.1), up(-b.1));
        up_positive(b.1);
        assert(b.0 > 0 ==> b.0 * x > 0) by (nonlinear_arith)
            requires
                x >= 1,
        ;
        assert(0 * y == 0) by (nonlinear_arith);
    } else {
        let i = whole_parts_of(p);
        let u = up(i);
        up_positive(i);
        up_adds(52, i);
        assert(up(52) == LEAST);
        let l = LEAST as int;
        assert(l * (p * u) == p * (l * u)) by (nonlinear_arith);
        shifting_keeps(p, 52 + i, -1);
        rounded_by(p, 1, -1, i);
        lemma_fundamental_div_mod_converse(p * u, 1, p * u, 0);
        assert(up(-i) == 1);
        let half = rounded(l * (p * u), 1, -53 - i);
        assert(half == (p * u, -1 - i));
        if a == 0 {
            let v = up(-1 - i);
            up_positive(-1 - i);
            assert(p * u * v >= 0) by (nonlinear_arith)
                requires
                    p > 0,
                    u >= 1,
                    v >= 1,
            ;
            assert(0 * up(1 + i) == 0) by (nonlinear_arith);
        } else {
            let j = whole_parts_of(a);
            let v = up(j);
            up_positive(j);
            less_at((p * u, -1 - i), (a * v, -j), -1 - i - j);
            up_doubles(i);
            assert((p * u) * v < (a * v) * (2 * u) <==> p < 2 * a) by (nonlinear_arith)
                requires
                    u >= 1,
                    v >= 1,
            ;
        }
    }
}

/// A finite number in units of two to the `e`, where no smaller ones are in it.
pub open spec fn units(x: Num, e: int) -> int {
    match x {
        Num::Finite(m, f) => m * up(f - e),
        _ => 0,
    }
}

/// Whether a finite number consists of units of two to the `e`.
pub open spec fn is_in_units(x: Num, e: int) -> bool {
    x matches Num::Finite(m, f) && f >= e
}

proof fn rounding_is_close(n: int, d: int, k: int, j: int, e: int)
    requires
        n > 0,
        d > 0,
        scales(n, d, j),
        e <= k,
        e <= k - j,
    ensures
        is_in_units(num(rounded(n, d, k)), e),
        rounded(n, d, k).1 >= k - j,
        ({
            let v = units(num(rounded(n, d, k)), e);
            let t = n * up(k - e);
            -t <= LIMIT * (v * d - t) <= t
        }),
{
    rounded_by(n, d, k, j);
    powers();
    up_positive(j);
    up_positive(-j);
    let (a, b) = (n * up(j), d * up(-j));
    assert(b > 0) by (nonlinear_arith)
        requires
            b == d * up(-j),
            d > 0,
            up(-j) >= 1,
    ;
    lemma_fundamental_div_mod(a, b);
    let (c, r) = (a / b, a % b);
    let q = nearest(a, b);
    assert(q == c || q == c + 1);
    assert(c * b == b * c && (c + 1) * b == b * c + b) by (nonlinear_arith);
    assert(-b <= 2 * (q * b - a) <= b);
    let (l, h) = (LEAST as int, LIMIT as int);
    assert(-a <= h * (q * b - a) <= a) by (nonlinear_arith)
        requires
            -b <= 2 * (q * b - a) <= b,
            l * b <= a,
            h == 2 * l,
            l > 0,
    ;
    let s = up(k - j - e);
    up_positive(k - j - e);
    up_doubles(k - j - e);
    let v = units(num(rounded(n, d, k)), e);
    assert(v == q * s) by (nonlinear_arith)
        requires
            q == h ==> v == l * (2 * s),
            q != h ==> v == q * s,
            h == 2 * l,
    ;
    let t = n * up(k - e);
    if j >= 0 {
        up_adds(j, k - j - e);
        let u = up(j);
        assert(b == d);
        assert(-t <= h * (v * d - t) <= t) by (nonlinear_arith)
            requires
                -a <= h * (q * b - a) <= a,
                b == d,
                a == n * u,
                v == q * s,
                t == n * (u * s),
                s >= 1,
        {
            let g = q * d - a;
            assert(v * d - t == s * g) by (nonlinear_arith)
                requires
                    v == q * s,
                    t == n * (u * s),
                    a == n * u,
                    g == q * d - a,
            ;
            assert(t == s * a) by (nonlinear_arith)
                requires
                    t == n * (u * s),
                    a == n * u,
            ;
            assert(-(s * a) <= h * (s * g) <= s * a) by (nonlinear_arith)
                requires
                    -a <= h * g <= a,
                    s >= 1,
            ;
        }
    } else {
        up_adds(-j, k - e);
        let u = up(-j);
        let w = up(k - e);
        up_positive(k - e);
        assert(a == n);
        assert(s == u * w);
        let g = q * b - a;
        assert(v * d - t == w * g) by (nonlinear_arith)
            requires
                v == q * s,
                s == u * w,
                t == n * w,
                b == d * u,
                a == n,
                g == q * b - a,
        ;
        assert(-(w * a) <= h * (w * g) <= w * a) by (nonlinear_arith)
            requires
                -a <= h * g <= a,
                w >= 1,
        ;
        assert(t == w * a) by (nonlinear_arith)
            requires
                t == n * w,
                a == n,
        ;
    }
}

proof fn parts_are_short(n: int) -> (j: int)
    requires
        0 < n < LIMIT,
    ensures
        0 <= j <= 52,
        LEAST <= n * up(j) < LIMIT,
        rounded(n, 1, 0) == (n * up(j), -j),
        scales(n, 1, j),
{
    let j = whole_parts_of(n);
    assert(up(-j) == 1);
    if j > 52 {
        powers();
        up_adds(53, j - 53);
        up_positive(j - 53);
        assert(up(53) == LIMIT);
        let (u, w) = (up(j), up(j - 53));
        assert(n * u >= LIMIT) by (nonlinear_arith)
            requires
                n >= 1,
                u == LIMIT * w,
                w >= 1,
        ;
    }
    j
}

/// The quotient of two whole numbers below the limit of the significands is off
/// by no more than its own part in that limit.
pub proof fn quotients_are_close(a: int, b: int, e: int)
    requires
        0 < a < LIMIT,
        0 < b < LIMIT,
        e <= -105,
    ensures
        is_in_units(num_of(a).over(num_of(b)), -105),
        is_in_units(num_of(a).over(num_of(b)), e),
        ({
            let v = units(num_of(a).over(num_of(b)), e);
            let p = up(-e);
            -(a * p) <= LIMIT * (v * b - a * p) <= a * p
        }),
{
    powers();
    let ja = parts_are_short(a);
    let jb = parts_are_short(b);
    let (u, w, p) = (up(ja), up(jb), up(-e));
    let (n, d) = (a * u, b * w);
    up_positive(jb);
    let j: int = if n >= d {
        52
    } else {
        53
    };
    assert(up(52) == LEAST && up(53) == LIMIT && up(-52) == 1 && up(-53) == 1);
    assert(scales(n, d, j)) by {
        let (l, h) = (LEAST as int, LIMIT as int);
        if n >= d {
            assert(l * d <= n * l < h * d) by (nonlinear_arith)
                requires
                    n >= d,
                    l <= d,
                    n < h,
                    h == 2 * l,
                    l > 0,
            ;
            assert(d * 1 == d);
        } else {
            assert(l * d <= n * h < h * d) by (nonlinear_arith)
                requires
                    n < d,
                    d < h,
                    n >= l,
                    l > 0,
            ;
            assert(d * 1 == d);
        }
    }
    let k = jb - ja;
    rounding_is_close(n, d, k, j, e);
    up_adds(ja, k - e);
    up_adds(jb, -e);
    let v = units(num(rounded(n, d, k)), e);
    let t = n * up(k - e);
    let x = up(k - e);
    assert(t == w * (a * p)) by (nonlinear_arith)
        requires
            t == (a * u) * x,
            u * x == w * p,
    ;
    let g = v * b - a * p;
    assert(v * d - t == w * g) by (nonlinear_arith)
        requires
            t == w * (a * p),
            d == b * w,
            g == v * b - a * p,
    ;
    let (h, f) = (LIMIT as int, a * p);
    assert(-f <= h * g <= f) by (nonlinear_arith)
        requires
            -(w * f) <= h * (w * g) <= w * f,
            w >= 1,
    ;
}

/// How far two numbers are apart is off by no more than its own part in the
/// limit of the significands.
pub proof fn distances_are_close(x: Num, y: Num, e: int)
    requires
        is_in_units(x, e + 53),
        is_in_units(y, e + 53),
        units(x, e) != units(y, e),
    ensures
        is_in_units(x.apart_from(y), e),
        ({
            let v = units(x.apart_from(y), e);
            let d = if units(x, e) < units(y, e) {
                units(y, e) - units(x, e)
            } else {
                units(x, e) - units(y, e)
            };
            -d <= LIMIT * (v - d) <= d
        }),
{
    let ((m, f), (n, g)) = ((x->Finite_0, x->Finite_1), (y->Finite_0, y->Finite_1));
    let low = if f < g {
        f
    } else {
        g
    };
    let (a, b) = (m * up(f - g), n * up(g - f));
    let s = up(low - e);
    up_positive(low - e);
    up_adds(f - low, low - e);
    up_adds(g - low, low - e);
    assert(up(0) == 1);
    assert(a == m * up(f - low) && b == n * up(g - low));
    assert(units(x, e) == a * s) by (nonlinear_arith)
        requires
            units(x, e) == m * up(f - e),
            a == m * up(f - low),
            up(f - e) == up(f - low) * s,
    ;
    assert(units(y, e) == b * s) by (nonlinear_arith)
        requires
            units(y, e) == n * up(g - e),
            b == n * up(g - low),
            up(g - e) == up(g - low) * s,
    ;
    let t = if a < b {
        b - a
    } else {
        a - b
    };
    assert(a * s < b * s <==> a < b) by (nonlinear_arith)
        requires
            s >= 1,
    ;
    assert(b * s - a * s == (b - a) * s && a * s - b * s == (a - b) * s) by (nonlinear_arith);
    assert(a != b);
    let j: int = if t < LIMIT {
        parts_are_short(t)
    } else {
        -scale_down(t)
    };
    rounding_is_close(t, 1, low, j, e);
}

/// A number is no distance from itself.
pub proof fn same_is_not_apart(x: Num, y: Num, e: int)
    requires
        is_in_units(x, e),
        is_in_units(y, e),
        e <= 0,
        units(x, e) == units(y, e),
    ensures
        is_in_units(x.apart_from(y), e),
        units(x.apart_from(y), e) == 0,
{
    let ((m, f), (n, g)) = ((x->Finite_0, x->Finite_1), (y->Finite_0, y->Finite_1));
    less_at((m, f), (n, g), e);
    less_at((n, g), (m, f), e);
    assert(0 * up(0 - e) == 0) by (nonlinear_arith);
}

/// The square root of a square below the limit of the significands is exact.
pub proof fn root_is_exact(b: int)
    requires
        1 <= b,
        b * b < LIMIT,
    ensures
        num_of(b * b).root() == num_of(b),
{
    powers();
    let n = b * b;
    assert(b <= n && n >= 1) by (nonlinear_arith)
        requires
            1 <= b,
            n == b * b,
    ;
    let j = parts_are_short(n);
    let i = parts_are_short(b);
    let s: int = if (-j) % 2 == 0 {
        52
    } else {
        53
    };
    let t = (j + s) / 2;
    assert(j + s == 2 * t);
    let (u, w, z) = (up(j), up(s), up(t));
    up_positive(j);
    up_positive(t);
    up_adds(j, s);
    up_adds(t, t);
    let (m, q) = (n * u, b * z);
    let v = m * w;
    assert(v == q * q) by (nonlinear_arith)
        requires
            v == (n * u) * w,
            n == b * b,
            u * w == z * z,
            q == b * z,
    ;
    let (l, h) = (LEAST as int, LIMIT as int);
    assert(up(52) == l && up(53) == h);
    assert(l <= w <= h);
    assert(q > 0) by (nonlinear_arith)
        requires
            q == b * z,
            b >= 1,
            z >= 1,
    ;
    assert(l * l <= v < h * h) by (nonlinear_arith)
        requires
            v == m * w,
            l <= m < h,
            l <= w <= h,
            l > 0,
    ;
    assert(l <= q < h) by (nonlinear_arith)
        requires
            l * l <= q * q < h * h,
            q > 0,
            l > 0,
            h > 0,
    ;
    assert((2 * q - 1) * (2 * q - 1) < 4 * v < (2 * q + 1) * (2 * q + 1)) by (nonlinear_arith)
        requires
            v == q * q,
            q > 0,
    ;
    assert(is_root(v, q));
    root_is_unique(v, q, nearest_root(v));
    assert(up(-t) == 1);
    assert(scales(b, 1, t));
    scale_is_unique(b, 1, i, t);
    assert((-j - s) / 2 == -t);
}

/// The product of two whole numbers is exact where it is below the limit of the
/// significands.
pub proof fn products_are_exact(k: int, f: int)
    requires
        1 <= k,
        1 <= f,
        k * f < LIMIT,
    ensures
        num_of(k).times(num_of(f)) == num_of(k * f),
{
    assert(k <= k * f && f <= k * f) by (nonlinear_arith)
        requires
            1 <= k,
            1 <= f,
    ;
    let i = parts_are_short(k);
    let j = parts_are_short(f);
    let (u, v) = (up(i), up(j));
    up_adds(i, j);
    assert((k * u) * (f * v) == (k * f) * (u * v)) by (nonlinear_arith);
    shifting_keeps(k * f, i + j, 0);
}

/// Whole numbers below the limit of the significands are their own floor and
/// ceiling, and compare as they do.
pub proof fn whole_numbers_stay(a: int, b: int)
    requires
        1 <= a < LIMIT,
        1 <= b < LIMIT,
    ensures
        num_of(a).floor() == num_of(a),
        num_of(a).ceil() == num_of(a),
        a <= usize::MAX ==> num_of(a).size() == a,
        num_of(a).below(num_of(b)) <==> a < b,
{
    whole_numbers_are_exact(a);
    let i = parts_are_short(a);
    let j = parts_are_short(b);
    let (u, v) = (up(i), up(j));
    up_positive(i);
    up_positive(j);
    assert(up(-i) == 1);
    let m = a * u;
    assert(m * up(-i) == m) by (nonlinear_arith)
        requires
            up(-i) == 1,
    ;
    lemma_fundamental_div_mod_converse(m + u - 1, u, a, u - 1);
    less_at((a * u, -i), (b * v, -j), -i - j);
    assert((a * u) * v < (b * v) * u <==> a < b) by (nonlinear_arith)
        requires
            u >= 1,
            v >= 1,
    ;
}

/// The whole number nearest to a quotient of whole numbers is no further from it
/// than half.
pub proof fn nearest_quotients_are_near(a: int, f: int)
    requires
        1 <= a,
        2 * a < LIMIT,
        1 <= f < LIMIT,
    ensures
        ({
            let n = half_even_of(false, num_of(a).over(num_of(f)));
            -f <= 2 * (n * f - a) <= f
        }),
{
    let e: int = -105;
    quotients_are_close(a, f, e);
    let x = num_of(a).over(num_of(f));
    let (m, k) = (x->Finite_0, x->Finite_1);
    let (v, p) = (units(x, e), up(-e));
    up_positive(-e);
    let n = nearest_of((m, k));
    assert(-p <= 2 * (n * p - v) <= p) by {
        let (num, den) = (m * up(k), up(-k));
        up_positive(-k);
        lemma_fundamental_div_mod(num, den);
        let (c, r) = (num / den, num % den);
        assert(n == c || n == c + 1);
        assert(c * den == den * c && (c + 1) * den == den * c + den) by (nonlinear_arith);
        assert(-den <= 2 * (n * den - num) <= den);
        if k >= 0 {
            up_adds(k, -e);
            assert(den == 1);
            assert(n == num);
            let (y, z) = (up(k), up(-e));
            assert(v == (m * y) * z) by (nonlinear_arith)
                requires
                    v == m * up(k - e),
                    up(k - e) == y * z,
            ;
        } else {
            up_adds(-k, k - e);
            let s = up(k - e);
            up_positive(k - e);
            assert(num == m);
            let g = n * den - m;
            assert(n * p - v == s * g) by (nonlinear_arith)
                requires
                    p == den * s,
                    v == m * s,
                    g == n * den - m,
            ;
            assert(-(den * s) <= 2 * (s * g) <= den * s) by (nonlinear_arith)
                requires
                    -den <= 2 * g <= den,
                    s >= 1,
            ;
        }
    }
    let (l, np, nf) = (LIMIT as int, n * p, n * f);
    assert(np * f == nf * p) by (nonlinear_arith)
        requires
            np == n * p,
            nf == n * f,
    ;
    assert(-(p * f) <= 2 * (np * f - v * f) <= p * f) by (nonlinear_arith)
        requires
            -p <= 2 * (np - v) <= p,
            f >= 1,
    ;
    let (ap, vf, pf) = (a * p, v * f, p * f);
    let d = nf - a;
    assert(nf * p - a * p == d * p) by (nonlinear_arith)
        requires
            d == nf - a,
    ;
    assert(-ap <= l * (vf - ap) <= ap);
    let g = vf - ap;
    let o = nf * p - vf;
    assert(-pf <= 2 * o <= pf);
    assert(d * p == o + g);
    assert(l * (d * p) == l * o + l * g) by (nonlinear_arith)
        requires
            d * p == o + g,
    ;
    assert(-(l * pf) <= 2 * (l * o) <= l * pf) by (nonlinear_arith)
        requires
            -pf <= 2 * o <= pf,
            l > 0,
    ;
    assert(-(l * pf) - 2 * ap <= 2 * (l * (d * p)) <= l * pf + 2 * ap);
    let (lf, ld) = (l * f, l * d);
    assert(l * pf == lf * p && l * (d * p) == ld * p) by (nonlinear_arith)
        requires
            pf == p * f,
            lf == l * f,
            ld == l * d,
    ;
    assert(-(lf + 2 * a) <= 2 * ld <= lf + 2 * a) by (nonlinear_arith)
        requires
            -(lf * p) - 2 * (a * p) <= 2 * (ld * p) <= lf * p + 2 * (a * p),
            p >= 1,
    ;
    assert(-f <= 2 * d <= f) by (nonlinear_arith)
        requires
            -(l * f + 2 * a) <= 2 * (l * d) <= l * f + 2 * a,
            2 * a < l,
            l > 0,
    ;
    assert(n <= a + 1) by (nonlinear_arith)
        requires
            2 * (n * f - a) <= f,
            f >= 1,
            a >= 1,
    ;
}

} // verus!
