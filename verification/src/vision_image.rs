//! How an image is brought to the vision tower's sizes: rounded to whole
//! tokens, shrunk or grown into the token budget, or cut into tiles.

use crate::binary64::{
    ceil_of, floor_of, half_even_of, nearest_quotients_are_near, num_of, operations_stay_plain,
    products_are_exact, quotient_is_exact, root_is_exact, round_half_even, rounded,
    whole_numbers_are_exact, whole_numbers_stay, Binary64, LIMIT, Num, Signed,
};
use vstd::prelude::*;

verus! {

/// A number rounded to a multiple of `factor`, halves to the even multiple.
pub open spec fn by_factor(number: Num, factor: int) -> int {
    half_even_of(false, number.over(num_of(factor))) * factor
}

/// A number rounded to a multiple of `factor`, halves to the even multiple.
pub fn round_by_factor(number: Binary64, factor: usize) -> (r: i64)
    requires
        number.wf(),
        number.near(700),
        factor <= i64::MAX,
        by_factor(number@, factor as int) <= i64::MAX,
    ensures
        r == by_factor(number@, factor as int),
{
    let f = Binary64::of(factor as u64);
    assert(f.near(75));
    let q = number.over(f);
    assert(q.near(828));
    let n: i64 = round_half_even(Signed { negative: false, size: q });
    proof {
        half_even_is_nonnegative(q@);
        assert(n * factor >= 0) by (nonlinear_arith)
            requires
                n >= 0,
                factor >= 0,
        ;
    }
    n * factor as i64
}

pub(crate) proof fn half_even_is_nonnegative(x: Num)
    requires
        x.plain(),
    ensures
        half_even_of(false, x) >= 0,
{
    match x {
        Num::Finite(m, e) => {
            let n = m * crate::binary64::up(e);
            let d = crate::binary64::up(-e);
            crate::binary64::up_positive(e);
            crate::binary64::up_positive(-e);
            assert(n >= 0) by (nonlinear_arith)
                requires
                    m >= 0,
                    crate::binary64::up(e) >= 1,
                    n == m * crate::binary64::up(e),
            ;
            vstd::arithmetic::div_mod::lemma_div_pos_is_pos(n, d);
        },
        _ => {},
    }
}

/// A side rounded to a multiple of `factor`, but no less than `factor`.
pub open spec fn rounded_side(side: int, factor: int) -> int {
    let n = by_factor(num_of(side), factor);
    if n < factor {
        factor
    } else {
        n
    }
}

/// A side divided by `beta` and cut to a multiple of `factor`, but no less than
/// `factor`.
pub open spec fn shrunk_side(side: int, beta: Num, factor: int) -> int {
    let f = num_of(factor);
    num_of(side).over(beta).over(f).floor().times(f).or_greater(f).size()
}

/// A side multiplied by `beta` and extended to a multiple of `factor`, but no
/// less than `factor`.
pub open spec fn grown_side(side: int, beta: Num, factor: int) -> int {
    let f = num_of(factor);
    let n = num_of(side).times(beta).over(f).ceil().times(f).size();
    if n < factor {
        factor
    } else {
        n
    }
}

/// The pixels of a number of tokens.
pub open spec fn token_pixels(tokens: int, patch_size: int, downsample_factor: int) -> int {
    tokens * (patch_size * patch_size) * (downsample_factor * downsample_factor)
}

/// The sides, height first, to which an image is brought: rounded to multiples
/// of `factor` where that keeps within the budget of pixels, else shrunk below
/// the budget's upper bound or grown above its lower one, at the same
/// proportions.
pub open spec fn resized_sides(
    height: int,
    width: int,
    factor: int,
    min_pixels: int,
    max_pixels: int,
) -> (int, int) {
    let h = rounded_side(height, factor);
    let w = rounded_side(width, factor);
    if h * w > max_pixels {
        let beta = num_of(height * width).over(num_of(max_pixels)).root();
        (shrunk_side(height, beta, factor), shrunk_side(width, beta, factor))
    } else if h * w < min_pixels {
        let beta = num_of(min_pixels).over(num_of(height * width)).root();
        (grown_side(height, beta, factor), grown_side(width, beta, factor))
    } else {
        (h, w)
    }
}

/// The numbers that the resizing handles fit the machine.
pub open spec fn resize_fits(
    height: int,
    width: int,
    factor: int,
    min_tokens: int,
    max_tokens: int,
    patch_size: int,
    downsample_factor: int,
) -> bool {
    &&& factor <= i64::MAX
    &&& rounded_side(height, factor) <= i64::MAX
    &&& rounded_side(width, factor) <= i64::MAX
    &&& rounded_side(height, factor) <= usize::MAX
    &&& rounded_side(width, factor) <= usize::MAX
    &&& rounded_side(height, factor) * rounded_side(width, factor) <= u64::MAX
    &&& height * width <= u64::MAX
    &&& patch_size * patch_size <= u64::MAX
    &&& downsample_factor * downsample_factor <= usize::MAX
    &&& min_tokens * (patch_size * patch_size) <= u64::MAX
    &&& max_tokens * (patch_size * patch_size) <= u64::MAX
    &&& token_pixels(min_tokens, patch_size, downsample_factor) <= u64::MAX
    &&& token_pixels(max_tokens, patch_size, downsample_factor) <= u64::MAX
}

fn shrink(side: usize, beta: Binary64, factor: usize) -> (r: usize)
    requires
        beta.wf(),
        beta.near(256),
    ensures
        r == shrunk_side(side as int, beta@, factor as int),
{
    let f = Binary64::of(factor as u64);
    let s = Binary64::of(side as u64);
    assert(f.near(75) && s.near(75));
    let a = s.over(beta);
    assert(a.near(384));
    let b = a.over(f);
    assert(b.near(512));
    let c = b.floor();
    assert(c.near(587));
    let d = c.times(f);
    assert(d.near(737));
    d.or_greater(f).size()
}

fn grow(side: usize, beta: Binary64, factor: usize) -> (r: usize)
    requires
        beta.wf(),
        beta.near(256),
    ensures
        r == grown_side(side as int, beta@, factor as int),
{
    let f = Binary64::of(factor as u64);
    let s = Binary64::of(side as u64);
    assert(f.near(75) && s.near(75));
    let a = s.times(beta);
    assert(a.near(406));
    let b = a.over(f);
    assert(b.near(534));
    let c = b.ceil();
    assert(c.near(609));
    let d = c.times(f);
    assert(d.near(759));
    let n: usize = d.size();
    if n < factor {
        factor
    } else {
        n
    }
}

fn proportion(over: u64, under: u64) -> (r: Binary64)
    ensures
        r.wf(),
        r.near(256),
        r@ == num_of(over as int).over(num_of(under as int)).root(),
{
    let a = Binary64::of(over);
    let b = Binary64::of(under);
    assert(a.near(75) && b.near(75));
    let q = a.over(b);
    assert(q.near(203));
    q.root()
}

fn round_side(side: usize, factor: usize) -> (r: usize)
    requires
        factor <= i64::MAX,
        rounded_side(side as int, factor as int) <= i64::MAX,
        rounded_side(side as int, factor as int) <= usize::MAX,
    ensures
        r == rounded_side(side as int, factor as int),
{
    let s = Binary64::of(side as u64);
    assert(s.near(75));
    assert(s.near(700));
    let n: i64 = round_by_factor(s, factor);
    if n < factor as i64 {
        factor
    } else {
        n as usize
    }
}

/// The sides, height first, to which an image is brought.
pub fn smart_resize(
    height: usize,
    width: usize,
    total_factor: usize,
    min_image_tokens: usize,
    max_image_tokens: usize,
    patch_size: usize,
    downsample_factor: usize,
) -> (r: (usize, usize))
    requires
        resize_fits(
            height as int,
            width as int,
            total_factor as int,
            min_image_tokens as int,
            max_image_tokens as int,
            patch_size as int,
            downsample_factor as int,
        ),
    ensures
        (r.0 as int, r.1 as int) == resized_sides(
            height as int,
            width as int,
            total_factor as int,
            token_pixels(min_image_tokens as int, patch_size as int, downsample_factor as int),
            token_pixels(max_image_tokens as int, patch_size as int, downsample_factor as int),
        ),
{
    let ds2: u64 = (downsample_factor * downsample_factor) as u64;
    let ps2: u64 = patch_size as u64 * patch_size as u64;
    let min_pixels: u64 = min_image_tokens as u64 * ps2 * ds2;
    let max_pixels: u64 = max_image_tokens as u64 * ps2 * ds2;
    let h: usize = round_side(height, total_factor);
    let w: usize = round_side(width, total_factor);
    let hw: u64 = height as u64 * width as u64;
    let pixels: u64 = h as u64 * w as u64;
    if pixels > max_pixels {
        let beta = proportion(hw, max_pixels);
        (shrink(height, beta, total_factor), shrink(width, beta, total_factor))
    } else if pixels < min_pixels {
        let beta = proportion(min_pixels, hw);
        (grow(height, beta, total_factor), grow(width, beta, total_factor))
    } else {
        (h, w)
    }
}

/// A side, whether rounded, shrunk or grown, is a multiple of the factor and
/// no less than it, as long as it is below the limit of exact whole numbers.
pub proof fn sides_are_multiples(
    height: int,
    width: int,
    factor: int,
    min_pixels: int,
    max_pixels: int,
)
    requires
        0 <= height,
        0 <= width,
        0 < factor < LIMIT,
        0 <= min_pixels,
        0 <= max_pixels,
    ensures
        ({
            let (h, w) = resized_sides(height, width, factor, min_pixels, max_pixels);
            &&& h < LIMIT && h < usize::MAX ==> factor <= h && h % factor == 0
            &&& w < LIMIT && w < usize::MAX ==> factor <= w && w % factor == 0
        }),
{
    let shrinking = num_of(height * width).over(num_of(max_pixels)).root();
    let growing = num_of(min_pixels).over(num_of(height * width)).root();
    assert(height * width >= 0) by (nonlinear_arith)
        requires
            height >= 0,
            width >= 0,
    ;
    let (a, b, c) = (num_of(height * width), num_of(max_pixels), num_of(min_pixels));
    operations_stay_plain(Num::Nan, Num::Nan, height * width);
    operations_stay_plain(Num::Nan, Num::Nan, max_pixels);
    operations_stay_plain(Num::Nan, Num::Nan, min_pixels);
    operations_stay_plain(a, b, 0);
    operations_stay_plain(c, a, 0);
    operations_stay_plain(a.over(b), a, 0);
    operations_stay_plain(c.over(a), a, 0);
    rounded_is_multiple(height, factor);
    rounded_is_multiple(width, factor);
    shrunk_is_multiple(height, shrinking, factor);
    shrunk_is_multiple(width, shrinking, factor);
    grown_is_multiple(height, growing, factor);
    grown_is_multiple(width, growing, factor);
}

/// Resizing changes nothing of a size that it gave, where that size is within the
/// budget of pixels.
pub proof fn resizing_again_changes_nothing(
    height: int,
    width: int,
    factor: int,
    min_pixels: int,
    max_pixels: int,
)
    requires
        0 <= height,
        0 <= width,
        0 < factor < LIMIT,
        0 <= min_pixels,
        max_pixels < LIMIT,
        max_pixels < usize::MAX,
        ({
            let (h, w) = resized_sides(height, width, factor, min_pixels, max_pixels);
            min_pixels <= h * w <= max_pixels
        }),
    ensures
        ({
            let (h, w) = resized_sides(height, width, factor, min_pixels, max_pixels);
            &&& resized_sides(h, w, factor, min_pixels, max_pixels) == (h, w)
            &&& rounded_side(h, factor) == h
            &&& rounded_side(w, factor) == w
        }),
{
    let (h, w) = resized_sides(height, width, factor, min_pixels, max_pixels);
    sides_are_multiples(height, width, factor, min_pixels, max_pixels);
    assert(h >= 1 && w >= 1);
    assert(h <= h * w && w <= h * w) by (nonlinear_arith)
        requires
            h >= 1,
            w >= 1,
    ;
    multiple_stays(h, factor);
    multiple_stays(w, factor);
}

/// A multiple of the factor is rounded to itself.
proof fn multiple_stays(side: int, factor: int)
    requires
        0 < factor <= side,
        side < LIMIT,
        side % factor == 0,
    ensures
        rounded_side(side, factor) == side,
{
    vstd::arithmetic::div_mod::lemma_fundamental_div_mod(side, factor);
    let k = side / factor;
    assert(side == k * factor) by (nonlinear_arith)
        requires
            side == factor * k + 0,
    ;
    assert(k >= 1) by (nonlinear_arith)
        requires
            side == k * factor,
            side >= factor,
            factor > 0,
    ;
    crate::binary64::quotient_is_exact(k, factor);
}

proof fn multiple_of(k: int, f: int)
    requires
        f > 0,
    ensures
        (k * f) % f == 0,
        f % f == 0,
        k >= 1 ==> k * f >= f,
{
    vstd::arithmetic::div_mod::lemma_fundamental_div_mod_converse(k * f, f, k, 0);
    vstd::arithmetic::div_mod::lemma_fundamental_div_mod_converse(f, f, 1, 0);
    assert(k >= 1 ==> k * f >= f) by (nonlinear_arith)
        requires
            f > 0,
    ;
}

proof fn rounded_is_multiple(side: int, factor: int)
    requires
        0 < factor,
    ensures
        rounded_side(side, factor) >= factor,
        rounded_side(side, factor) % factor == 0,
{
    multiple_of(half_even_of(false, num_of(side).over(num_of(factor))), factor);
}

/// The whole part, or whole bound, of a number times the factor.
proof fn cut_is_multiple(k: int, factor: int)
    requires
        0 < factor < LIMIT,
    ensures
        ({
            let p = num_of(k).times(num_of(factor));
            let s = p.size();
            &&& k >= 0 && s < LIMIT && s < usize::MAX ==> s == k * factor && s % factor == 0
            &&& k == 0 ==> p == Num::Finite(0, 0)
        }),
{
    if k >= 0 {
        crate::binary64::product_is_exact(k, factor);
        multiple_of(k, factor);
    }
    if k == 0 {
        assert(0 * rounded(factor, 1, 0).0 == 0) by (nonlinear_arith);
        assert(rounded(0, 1, 0) == (0int, 0int));
    }
}

proof fn factor_is_itself(factor: int)
    requires
        0 < factor < LIMIT,
    ensures
        num_of(factor).size() == (if factor > usize::MAX {
            usize::MAX as int
        } else {
            factor
        }),
        Num::Finite(0, 0).below(num_of(factor)),
        num_of(factor) matches Num::Finite(m, _) && m > 0,
{
    whole_numbers_are_exact(factor);
    let (m, e) = rounded(factor, 1, 0);
    crate::binary64::up_positive(-e);
    crate::binary64::up_positive(e);
    crate::binary64::rounded_is_positive(factor);
    assert(0 * crate::binary64::up(-e) == 0) by (nonlinear_arith);
    assert(m * crate::binary64::up(e) > 0) by (nonlinear_arith)
        requires
            m > 0,
            crate::binary64::up(e) >= 1,
    ;
}

proof fn shrunk_is_multiple(side: int, beta: Num, factor: int)
    requires
        0 <= side,
        beta.plain(),
        0 < factor < LIMIT,
    ensures
        ({
            let s = shrunk_side(side, beta, factor);
            s < LIMIT && s < usize::MAX ==> factor <= s && s % factor == 0
        }),
{
    let f = num_of(factor);
    let x = num_of(side).over(beta).over(f);
    factor_is_itself(factor);
    multiple_of(1, factor);
    operations_stay_plain(num_of(0), beta, side);
    operations_stay_plain(num_of(side), beta, factor);
    operations_stay_plain(num_of(side).over(beta), f, 0);
    operations_stay_plain(x, f, 0);
    match x {
        Num::Finite(m, e) => {
            let k = floor_of((m, e));
            cut_is_multiple(k, factor);
            multiple_of(k, factor);
        },
        _ => {},
    }
}

proof fn grown_is_multiple(side: int, beta: Num, factor: int)
    requires
        0 <= side,
        beta.plain(),
        0 < factor < LIMIT,
    ensures
        ({
            let s = grown_side(side, beta, factor);
            s < LIMIT && s < usize::MAX ==> factor <= s && s % factor == 0
        }),
{
    let f = num_of(factor);
    let x = num_of(side).times(beta).over(f);
    factor_is_itself(factor);
    multiple_of(1, factor);
    operations_stay_plain(num_of(0), beta, side);
    operations_stay_plain(num_of(side), beta, factor);
    operations_stay_plain(num_of(side).times(beta), f, 0);
    operations_stay_plain(x, f, 0);
    match x {
        Num::Finite(m, e) => {
            let k = ceil_of((m, e));
            cut_is_multiple(k, factor);
            multiple_of(k, factor);
        },
        _ => {},
    }
}

/// A side is rounded to a multiple of the factor that is no further away than
/// half the factor.
pub proof fn sides_are_rounded_to_the_nearest(side: int, factor: int)
    requires
        1 <= side,
        2 * side < LIMIT,
        1 <= factor < LIMIT,
    ensures
        by_factor(num_of(side), factor) % factor == 0,
        -factor <= 2 * (by_factor(num_of(side), factor) - side) <= factor,
        rounded_side(side, factor) == (if by_factor(num_of(side), factor) == 0 {
            factor
        } else {
            by_factor(num_of(side), factor)
        }),
{
    nearest_quotients_are_near(side, factor);
    let n = half_even_of(false, num_of(side).over(num_of(factor)));
    vstd::arithmetic::div_mod::lemma_mod_multiples_basic(n, factor);
    operations_stay_plain(Num::Nan, Num::Nan, side);
    operations_stay_plain(Num::Nan, Num::Nan, factor);
    operations_stay_plain(num_of(side), num_of(factor), 0);
    half_even_is_nonnegative(num_of(side).over(num_of(factor)));
    assert(n >= 1 ==> n * factor >= factor) by (nonlinear_arith)
        requires
            factor >= 1,
    ;
    assert(n == 0 ==> n * factor == 0) by (nonlinear_arith);
}

/// Turning an image turns what it is brought to.
pub proof fn turned_images_are_brought_to_turned_sides(
    height: int,
    width: int,
    factor: int,
    min_pixels: int,
    max_pixels: int,
)
    ensures
        ({
            let (h, w) = resized_sides(height, width, factor, min_pixels, max_pixels);
            resized_sides(width, height, factor, min_pixels, max_pixels) == (w, h)
        }),
{
    let (a, b) = (rounded_side(height, factor), rounded_side(width, factor));
    assert(a * b == b * a && height * width == width * height) by (nonlinear_arith);
}

/// An image within the budget has its sides rounded, each for itself.
pub proof fn images_within_the_budget_are_rounded(
    height: int,
    width: int,
    factor: int,
    min_pixels: int,
    max_pixels: int,
)
    requires
        min_pixels <= rounded_side(height, factor) * rounded_side(width, factor) <= max_pixels,
    ensures
        resized_sides(height, width, factor, min_pixels, max_pixels).0 == rounded_side(
            height,
            factor,
        ),
        resized_sides(height, width, factor, min_pixels, max_pixels).1 == rounded_side(
            width,
            factor,
        ),
{
}

/// A token stands for a square of pixels.
pub proof fn tokens_are_squares(tokens: int, patch_size: int, downsample_factor: int)
    ensures
        token_pixels(tokens, patch_size, downsample_factor) == tokens * ((patch_size
            * downsample_factor) * (patch_size * downsample_factor)),
{
    let (t, p, d) = (tokens, patch_size, downsample_factor);
    assert(t * (p * p) * (d * d) == t * ((p * p) * (d * d))) by (nonlinear_arith);
    assert((p * p) * (d * d) == (p * d) * (p * d)) by (nonlinear_arith);
}

proof fn multiples_are_kept(k: int, factor: int)
    requires
        1 <= k,
        1 <= factor,
        k * factor < LIMIT,
    ensures
        rounded_side(k * factor, factor) == k * factor,
{
    quotient_is_exact(k, factor);
    assert(k * factor >= factor) by (nonlinear_arith)
        requires
            k >= 1,
            factor >= 1,
    ;
}

proof fn shrinks_exactly(k: int, b: int, factor: int)
    requires
        1 <= k,
        1 <= b,
        1 <= factor,
        b * (k * factor) < LIMIT,
        k * factor <= usize::MAX,
    ensures
        shrunk_side(b * (k * factor), num_of(b), factor) == k * factor,
{
    let s = k * factor;
    assert(1 <= s && k <= s && factor <= s) by (nonlinear_arith)
        requires
            s == k * factor,
            k >= 1,
            factor >= 1,
    ;
    assert(s <= b * s && b * s == s * b) by (nonlinear_arith)
        requires
            s >= 1,
            b >= 1,
    ;
    quotient_is_exact(s, b);
    quotient_is_exact(k, factor);
    whole_numbers_stay(k, factor);
    products_are_exact(k, factor);
    whole_numbers_stay(s, factor);
}

proof fn grows_exactly(k: int, b: int, factor: int)
    requires
        1 <= k,
        1 <= b,
        1 <= factor,
        b * (k * factor) < LIMIT,
        b * (k * factor) <= usize::MAX,
    ensures
        grown_side(k * factor, num_of(b), factor) == b * (k * factor),
{
    let (s, n) = (k * factor, b * k);
    assert(1 <= s && 1 <= n) by (nonlinear_arith)
        requires
            s == k * factor,
            n == b * k,
            k >= 1,
            b >= 1,
            factor >= 1,
    ;
    assert(b * s == s * b && s * b == n * factor) by (nonlinear_arith)
        requires
            s == k * factor,
            n == b * k,
    ;
    assert(n * factor >= n && n * factor >= factor) by (nonlinear_arith)
        requires
            n >= 1,
            factor >= 1,
    ;
    products_are_exact(s, b);
    quotient_is_exact(n, factor);
    whole_numbers_stay(n, factor);
    products_are_exact(n, factor);
    whole_numbers_stay(n * factor, factor);
}

/// An image that is larger than the budget's upper bound by some whole number in
/// both directions is shrunk by that number in both; one that is smaller than
/// its lower bound so is grown by it.
pub proof fn images_keep_their_proportions(
    k: int,
    m: int,
    b: int,
    factor: int,
    min_pixels: int,
    max_pixels: int,
)
    requires
        1 <= k,
        1 <= m,
        2 <= b,
        1 <= factor,
        (b * b) * ((k * factor) * (m * factor)) < LIMIT,
        (b * b) * ((k * factor) * (m * factor)) <= usize::MAX,
    ensures
        max_pixels == (k * factor) * (m * factor) ==> resized_sides(
            b * (k * factor),
            b * (m * factor),
            factor,
            min_pixels,
            max_pixels,
        ) == (k * factor, m * factor),
        min_pixels == (b * b) * ((k * factor) * (m * factor)) && min_pixels <= max_pixels
            ==> resized_sides(k * factor, m * factor, factor, min_pixels, max_pixels) == (
            b * (k * factor),
            b * (m * factor),
        ),
{
    let (h, w) = (k * factor, m * factor);
    let a = h * w;
    assert(h >= 1 && w >= 1) by (nonlinear_arith)
        requires
            h == k * factor,
            w == m * factor,
            k >= 1,
            m >= 1,
            factor >= 1,
    ;
    assert(a >= 1 && h <= a && w <= a) by (nonlinear_arith)
        requires
            a == h * w,
            h >= 1,
            w >= 1,
    ;
    let q = b * b;
    assert(q >= 4 && b <= q) by (nonlinear_arith)
        requires
            q == b * b,
            b >= 2,
    ;
    assert(b * h <= q * a && b * w <= q * a && q <= q * a && a < q * a && a <= q * a)
        by (nonlinear_arith)
        requires
            1 <= h <= a,
            1 <= w <= a,
            2 <= b <= q,
    ;
    assert((b * h) * (b * w) == q * a) by (nonlinear_arith)
        requires
            q == b * b,
            a == h * w,
    ;
    let (bk, bm) = (b * k, b * m);
    assert(bk * factor == b * h && bm * factor == b * w && bk >= 1 && bm >= 1) by (nonlinear_arith)
        requires
            bk == b * k,
            bm == b * m,
            h == k * factor,
            w == m * factor,
            k >= 1,
            m >= 1,
            b >= 1,
    ;
    multiples_are_kept(bk, factor);
    multiples_are_kept(bm, factor);
    multiples_are_kept(k, factor);
    multiples_are_kept(m, factor);
    quotient_is_exact(q, a);
    root_is_exact(b);
    shrinks_exactly(k, b, factor);
    shrinks_exactly(m, b, factor);
    grows_exactly(k, b, factor);
    grows_exactly(m, b, factor);
}

} // verus!
