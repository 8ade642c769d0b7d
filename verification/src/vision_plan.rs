//! What becomes of an image of a given size: its own sides, and the grid of
//! tiles it is cut into.

use crate::binary64::{
    distances_are_close, less_at, num_of, operations_stay_plain, quotients_are_close,
    round_half_even, same_is_not_apart, units, up, up_positive, Binary64, Num, Signed, LIMIT,
};
use crate::text;
use crate::text::decimal;
use crate::vision_config::VisionConfig;
use crate::vision_image::{
    by_factor, resize_fits, resized_sides, rounded_side, smart_resize, token_pixels,
    tokens_are_squares,
};
use crate::vision_tiles::{
    closest, every_grid_is_offered, find_closest_aspect_ratio, grid_fits, grids, is_grid,
    is_too_large, large_fits, mismatch, mismatches_are_finite, ratio, target_ratios,
    ties_go_to_the_last_that_is_filled, too_large,
};
use vstd::prelude::*;

verus! {

/// The most pixels that an image may have.
pub const MAX_DIMENSION_PIXELS: usize = 16_777_216;

/// What becomes of an image.
#[derive(Debug, Clone, Copy, PartialEq, Eq)]
pub struct ImagePlan {
    /// The sides of the image as a whole.
    pub new_h: usize,
    pub new_w: usize,
    /// The grid of tiles it is cut into, columns first; nothing where it is not
    /// cut.
    pub grid: Option<(usize, usize)>,
}

/// Whether images may be cut at all.
pub open spec fn may_split(cfg: VisionConfig) -> bool {
    cfg.do_image_splitting && !(cfg.min_tiles == 1 && cfg.max_tiles == 1)
}

/// Whether an image is cut.
pub open spec fn splits(w: int, h: int, cfg: VisionConfig) -> bool {
    too_large(h, w, cfg) && may_split(cfg)
}

/// The sides of the image as a whole, height first.
pub open spec fn whole_sides(w: int, h: int, cfg: VisionConfig) -> (int, int) {
    resized_sides(
        h,
        w,
        cfg.patch_size * cfg.downsample_factor,
        token_pixels(
            cfg.min_image_tokens as int,
            cfg.patch_size as int,
            cfg.downsample_factor as int,
        ),
        token_pixels(
            cfg.max_image_tokens as int,
            cfg.patch_size as int,
            cfg.downsample_factor as int,
        ),
    )
}

/// The grid that an image is cut into.
pub open spec fn grid_of(w: int, h: int, cfg: VisionConfig) -> (usize, usize) {
    closest(
        num_of(w).over(num_of(h)),
        grids(cfg.min_tiles as int, cfg.max_tiles as int),
        num_of(w * h),
        cfg.tile_size as int,
    ).1
}

/// Whether a plan is what becomes of an image.
pub open spec fn is_plan(plan: ImagePlan, w: int, h: int, cfg: VisionConfig) -> bool {
    &&& (plan.new_h as int, plan.new_w as int) == whole_sides(w, h, cfg)
    &&& plan.grid == (if splits(w, h, cfg) {
        Some(grid_of(w, h, cfg))
    } else {
        None
    })
}

/// The numbers that choosing a grid handles fit the machine.
pub open spec fn tiles_fit(cfg: VisionConfig) -> bool {
    &&& cfg.max_tiles < 0x1_0000_0000
    &&& cfg.max_tiles * cfg.max_tiles <= usize::MAX
    &&& cfg.max_tiles < usize::MAX
    &&& cfg.tile_size * cfg.tile_size <= usize::MAX
    &&& cfg.tile_size * cfg.tile_size * cfg.max_tiles <= usize::MAX
}

/// A side can be resampled to a new one. The resampling places every new pixel
/// among the old ones in single precision, and needs an old pixel less than one
/// step away: within these bounds there always is one.
pub open spec fn side_fits(side: int, new_side: int) -> bool {
    ||| side <= 0x40_0000
    ||| side <= 0x80_0000 && new_side <= 0x80_0000
    ||| side <= 0x100_0000 && 2 * new_side <= side
}

/// An image of `iw` by `ih` pixels can be resampled to `w` by `h` pixels: it is
/// empty, or keeps its sides, or each of them can be resampled; and the images on
/// the way fit the memory.
pub open spec fn resample_fits(iw: int, ih: int, w: int, h: int) -> bool {
    &&& w <= u32::MAX
    &&& h <= u32::MAX
    &&& {
        ||| iw == 0
        ||| ih == 0
        ||| iw == w && ih == h
        ||| side_fits(iw, w) && side_fits(ih, h)
    }
    &&& 16 * (iw * h) <= isize::MAX
    &&& 16 * (w * h) <= isize::MAX
}

/// Whether an image that is cut into a grid is also taken as a whole.
pub open spec fn has_thumbnail(grid: (usize, usize), cfg: VisionConfig) -> bool {
    cfg.use_thumbnail && !(grid.0 == 1 && grid.1 == 1)
}

/// The image can be resampled to the sides of its grid where it is cut, and to
/// its own where it is taken as a whole.
pub open spec fn sizes_fit(w: int, h: int, cfg: VisionConfig) -> bool {
    let (new_h, new_w) = whole_sides(w, h, cfg);
    let t = cfg.tile_size as int;
    let (c, r) = grid_of(w, h, cfg);
    &&& !splits(w, h, cfg) || has_thumbnail((c, r), cfg) ==> resample_fits(w, h, new_w, new_h)
    &&& splits(w, h, cfg) ==> {
        &&& resample_fits(w, h, t * c, t * r)
        &&& resample_fits(t, t, t, t)
    }
}

/// All numbers on the way of an image fit the machine.
pub open spec fn plan_fits(w: int, h: int, cfg: VisionConfig) -> bool {
    &&& cfg.patch_size * cfg.downsample_factor <= usize::MAX
    &&& resize_fits(
        h,
        w,
        cfg.patch_size * cfg.downsample_factor,
        cfg.min_image_tokens as int,
        cfg.max_image_tokens as int,
        cfg.patch_size as int,
        cfg.downsample_factor as int,
    )
    &&& large_fits(h, w, cfg)
    &&& w * h <= usize::MAX
    &&& splits(w, h, cfg) ==> tiles_fit(cfg)
    &&& sizes_fit(w, h, cfg)
}

/// Whether images may be cut at all.
fn split_allowed(cfg: &VisionConfig) -> (r: bool)
    ensures
        r == may_split(*cfg),
{
    cfg.do_image_splitting && !(cfg.min_tiles == 1 && cfg.max_tiles == 1)
}

proof fn offered_grids_fit(cfg: VisionConfig)
    requires
        tiles_fit(cfg),
    ensures
        forall|i: int|
            0 <= i < grids(cfg.min_tiles as int, cfg.max_tiles as int).len() ==> grid_fits(
                #[trigger] grids(cfg.min_tiles as int, cfg.max_tiles as int)[i],
                cfg.tile_size as int,
            ),
{
    let list = grids(cfg.min_tiles as int, cfg.max_tiles as int);
    let t = cfg.tile_size as int;
    let max = cfg.max_tiles as int;
    assert forall|i: int| 0 <= i < list.len() implies grid_fits(#[trigger] list[i], t) by {
        let g = list[i];
        assert(list.contains(g));
        every_grid_is_offered(cfg.min_tiles as int, max, g);
        assert(is_grid(g, cfg.min_tiles as int, max));
        let (a, b) = (g.0 as int, g.1 as int);
        let s = t * t;
        assert(s >= 0) by (nonlinear_arith)
            requires
                s == t * t,
        ;
        assert(a <= a * b && b <= a * b) by (nonlinear_arith)
            requires
                a >= 1,
                b >= 1,
        ;
        assert(s * a <= s * a * b && s * a * b <= s * max) by (nonlinear_arith)
            requires
                s >= 0,
                a >= 1,
                b >= 1,
                a * b <= max,
        ;
    }
}

fn choose_grid(w: u32, h: u32, cfg: &VisionConfig) -> (r: (usize, usize))
    requires
        tiles_fit(*cfg),
        w * h <= usize::MAX,
    ensures
        r == grid_of(w as int, h as int, *cfg),
{
    let list = target_ratios(cfg.min_tiles, cfg.max_tiles);
    proof {
        offered_grids_fit(*cfg);
    }
    find_closest_aspect_ratio(ratio(w, h), &list, w as usize, h as usize, cfg.tile_size)
}

/// What becomes of an image of `w` columns and `h` lines.
pub fn image_plan(w: u32, h: u32, cfg: &VisionConfig) -> (r: ImagePlan)
    requires
        plan_fits(w as int, h as int, *cfg),
    ensures
        is_plan(r, w as int, h as int, *cfg),
{
    let (new_h, new_w) = smart_resize(
        h as usize,
        w as usize,
        cfg.patch_size * cfg.downsample_factor,
        cfg.min_image_tokens,
        cfg.max_image_tokens,
        cfg.patch_size,
        cfg.downsample_factor,
    );
    let grid: Option<(usize, usize)> = if is_too_large(h as usize, w as usize, cfg)
        && split_allowed(cfg) {
        Some(choose_grid(w, h, cfg))
    } else {
        None
    };
    ImagePlan { new_h, new_w, grid }
}

/// A side rounded to a multiple of the factor, wherever that is.
fn far_side(side: usize, factor: usize) -> (r: u128)
    ensures
        r == by_factor(num_of(side as int), factor as int),
{
    let s = Binary64::of(side as u64);
    let f = Binary64::of(factor as u64);
    assert(s.near(75) && f.near(75));
    let q = s.over(f);
    assert(q.near(203));
    let n: i64 = round_half_even(Signed { negative: false, size: q });
    proof {
        operations_stay_plain(Num::Nan, Num::Nan, side as int);
        operations_stay_plain(Num::Nan, Num::Nan, factor as int);
        operations_stay_plain(s@, f@, 0);
        crate::vision_image::half_even_is_nonnegative(q@);
        assert(0 <= n * factor <= 0x7fff_ffff_ffff_ffff * 0xffff_ffff_ffff_ffff) by (nonlinear_arith)
            requires
                0 <= n <= 0x7fff_ffff_ffff_ffff,
                0 <= factor <= 0xffff_ffff_ffff_ffff,
        ;
    }
    n as u128 * factor as u128
}

proof fn squares_within(a: int)
    requires
        0 <= a <= u64::MAX,
    ensures
        0 <= a * a <= u64::MAX * u64::MAX,
{
    assert(0 <= a * a <= u64::MAX * u64::MAX) by (nonlinear_arith)
        requires
            0 <= a <= u64::MAX,
    ;
}

proof fn product_within(a: int, b: int)
    requires
        0 <= a <= u64::MAX,
        0 <= b <= u64::MAX,
    ensures
        0 <= a * b <= u64::MAX * u64::MAX,
{
    assert(0 <= a * b <= u64::MAX * u64::MAX) by (nonlinear_arith)
        requires
            0 <= a <= u64::MAX,
            0 <= b <= u64::MAX,
    ;
}

/// Whether the pixels of a number of tokens fit the machine.
fn tokens_fit(tokens: usize, patch_size: usize, downsample_factor: usize) -> (r: bool)
    requires
        patch_size * patch_size <= u64::MAX,
        downsample_factor * downsample_factor <= usize::MAX,
    ensures
        r == (tokens * (patch_size * patch_size) <= u64::MAX && token_pixels(
            tokens as int,
            patch_size as int,
            downsample_factor as int,
        ) <= u64::MAX),
{
    let ps2: u128 = patch_size as u128 * patch_size as u128;
    let ds2: u128 = downsample_factor as u128 * downsample_factor as u128;
    proof {
        product_within(tokens as int, ps2 as int);
    }
    let a: u128 = tokens as u128 * ps2;
    if a > u64::MAX as u128 {
        return false;
    }
    proof {
        product_within(a as int, ds2 as int);
    }
    a * ds2 <= u64::MAX as u128
}

/// Whether a side can be resampled to a new one.
fn side_can(side: usize, new_side: usize) -> (r: bool)
    ensures
        r == side_fits(side as int, new_side as int),
{
    side <= 0x40_0000 || (side <= 0x80_0000 && new_side <= 0x80_0000) || (side <= 0x100_0000
        && new_side <= side / 2)
}

/// Whether an image can be resampled to `w` by `h` pixels.
fn can_resample(iw: usize, ih: usize, w: usize, h: usize) -> (r: bool)
    ensures
        r == resample_fits(iw as int, ih as int, w as int, h as int),
{
    if w as u64 > u32::MAX as u64 || h as u64 > u32::MAX as u64 {
        return false;
    }
    if !(iw == 0 || ih == 0 || (iw == w && ih == h) || (side_can(iw, w) && side_can(ih, h))) {
        return false;
    }
    proof {
        product_within(iw as int, h as int);
        product_within(w as int, h as int);
        assert(iw * h <= 0xffff_ffff_ffff_ffff * 0xffff_ffff) by (nonlinear_arith)
            requires
                0 <= iw <= 0xffff_ffff_ffff_ffff,
                0 <= h <= 0xffff_ffff,
        ;
        assert(w * h <= 0xffff_ffff * 0xffff_ffff) by (nonlinear_arith)
            requires
                0 <= w <= 0xffff_ffff,
                0 <= h <= 0xffff_ffff,
        ;
    }
    16 * (iw as u128 * h as u128) <= isize::MAX as u128 && 16 * (w as u128 * h as u128)
        <= isize::MAX as u128
}

/// Whether the numbers that resizing handles fit the machine.
fn can_resize(w: usize, h: usize, factor: usize, cfg: &VisionConfig) -> (r: bool)
    requires
        w <= u32::MAX,
        h <= u32::MAX,
        factor == cfg.patch_size * cfg.downsample_factor,
    ensures
        r == (resize_fits(
            h as int,
            w as int,
            factor as int,
            cfg.min_image_tokens as int,
            cfg.max_image_tokens as int,
            cfg.patch_size as int,
            cfg.downsample_factor as int,
        ) && large_fits(h as int, w as int, *cfg) && w * h <= usize::MAX),
{
    proof {
        squares_within(cfg.patch_size as int);
        squares_within(cfg.downsample_factor as int);
        product_within(w as int, h as int);
    }
    let ps2: u128 = cfg.patch_size as u128 * cfg.patch_size as u128;
    let ds2: u128 = cfg.downsample_factor as u128 * cfg.downsample_factor as u128;
    if factor as u64 > i64::MAX as u64 || cfg.patch_size as u64 > i64::MAX as u64 || ps2 > usize::MAX as u128
        || ds2 > usize::MAX as u128 || w as u128 * h as u128 > usize::MAX as u128 {
        return false;
    }
    if !tokens_fit(cfg.min_image_tokens, cfg.patch_size, cfg.downsample_factor) || !tokens_fit(
        cfg.max_image_tokens,
        cfg.patch_size,
        cfg.downsample_factor,
    ) {
        return false;
    }
    let a: u128 = far_side(h, factor);
    let b: u128 = far_side(w, factor);
    if a > i64::MAX as u128 || b > i64::MAX as u128 {
        return false;
    }
    let c: u128 = if a < factor as u128 {
        factor as u128
    } else {
        a
    };
    let d: u128 = if b < factor as u128 {
        factor as u128
    } else {
        b
    };
    proof {
        product_within(c as int, d as int);
    }
    c <= usize::MAX as u128 && d <= usize::MAX as u128 && c * d <= u64::MAX as u128
}

/// Whether the numbers that choosing a grid handles fit the machine.
fn can_tile(cfg: &VisionConfig) -> (r: bool)
    ensures
        r == tiles_fit(*cfg),
{
    proof {
        squares_within(cfg.max_tiles as int);
        squares_within(cfg.tile_size as int);
    }
    let area: u128 = cfg.tile_size as u128 * cfg.tile_size as u128;
    if cfg.max_tiles as u64 >= 0x1_0000_0000 || cfg.max_tiles >= usize::MAX || cfg.max_tiles as u128
        * cfg.max_tiles as u128 > usize::MAX as u128 || area > usize::MAX as u128 {
        return false;
    }
    proof {
        product_within(area as int, cfg.max_tiles as int);
    }
    area * cfg.max_tiles as u128 <= usize::MAX as u128
}

fn can_cut(w: u32, h: u32, t: usize, grid: (usize, usize)) -> (r: bool)
    ensures
        r == (resample_fits(w as int, h as int, t * grid.0, t * grid.1) && resample_fits(
            t as int,
            t as int,
            t as int,
            t as int,
        )),
{
    proof {
        product_within(t as int, grid.0 as int);
        product_within(t as int, grid.1 as int);
    }
    let a: u128 = t as u128 * grid.0 as u128;
    let b: u128 = t as u128 * grid.1 as u128;
    if a > u32::MAX as u128 || b > u32::MAX as u128 {
        return false;
    }
    can_resample(w as usize, h as usize, a as usize, b as usize) && can_resample(t, t, t, t)
}

/// Whether all numbers on the way of an image fit the machine.
pub fn plan_is_possible(w: u32, h: u32, cfg: &VisionConfig) -> (r: bool)
    ensures
        r == plan_fits(w as int, h as int, *cfg),
{
    proof {
        product_within(cfg.patch_size as int, cfg.downsample_factor as int);
    }
    if cfg.patch_size as u128 * cfg.downsample_factor as u128 > usize::MAX as u128 {
        return false;
    }
    let factor: usize = cfg.patch_size * cfg.downsample_factor;
    if !can_resize(w as usize, h as usize, factor, cfg) {
        return false;
    }
    let cut: bool = is_too_large(h as usize, w as usize, cfg) && split_allowed(cfg);
    if cut && !can_tile(cfg) {
        return false;
    }
    let (new_h, new_w) = smart_resize(
        h as usize,
        w as usize,
        factor,
        cfg.min_image_tokens,
        cfg.max_image_tokens,
        cfg.patch_size,
        cfg.downsample_factor,
    );
    if cut {
        let g = choose_grid(w, h, cfg);
        let thumbnail: bool = cfg.use_thumbnail && !(g.0 == 1 && g.1 == 1);
        can_cut(w, h, cfg.tile_size, g) && (!thumbnail || can_resample(
            w as usize,
            h as usize,
            new_w,
            new_h,
        ))
    } else {
        can_resample(w as usize, h as usize, new_w, new_h)
    }
}

/// The text of an image with too many pixels.
pub open spec fn too_many_pixels(w: nat, h: nat) -> Seq<char> {
    "image dimensions ("@ + decimal(w) + "x"@ + decimal(h) + ") exceed maximum ("@ + decimal(
        MAX_DIMENSION_PIXELS as nat,
    ) + " pixels)"@
}

/// Whether an image has no more pixels than are allowed.
pub fn check_pixels(w: u32, h: u32) -> (r: Result<(), String>)
    ensures
        match r {
            Ok(_) => w * h <= MAX_DIMENSION_PIXELS,
            Err(e) => w * h > MAX_DIMENSION_PIXELS && e@ == too_many_pixels(w as nat, h as nat),
        },
{
    proof {
        product_within(w as int, h as int);
        assert(w * h <= 0xffff_ffff * 0xffff_ffff) by (nonlinear_arith)
            requires
                w <= 0xffff_ffff,
                h <= 0xffff_ffff,
        ;
    }
    if w as u64 * h as u64 > MAX_DIMENSION_PIXELS as u64 {
        let mut s = "image dimensions (".to_owned();
        text::push_decimal(&mut s, w as usize);
        s.append("x");
        text::push_decimal(&mut s, h as usize);
        s.append(") exceed maximum (");
        text::push_decimal(&mut s, MAX_DIMENSION_PIXELS);
        s.append(" pixels)");
        return Err(s);
    }
    Ok(())
}

/// No grid that is offered has proportions closer to an image's than the grid
/// that the image is cut into: the proportions are the image's own width over
/// its height, and a grid's columns over its rows.
pub proof fn no_grid_is_closer(w: int, h: int, cfg: VisionConfig, g: (usize, usize))
    requires
        w >= 1,
        h >= 1,
        is_grid(g, cfg.min_tiles as int, cfg.max_tiles as int),
    ensures
        ({
            let (c, r) = grid_of(w, h, cfg);
            let own = num_of(w).over(num_of(h));
            &&& c >= 1 && r >= 1 && cfg.min_tiles <= c * r <= cfg.max_tiles
            &&& !own.apart_from(num_of(g.0 as int).over(num_of(g.1 as int))).below(
                own.apart_from(num_of(c as int).over(num_of(r as int))),
            )
        }),
{
    let own = num_of(w).over(num_of(h));
    let list = grids(cfg.min_tiles as int, cfg.max_tiles as int);
    let area = num_of(w * h);
    let t = cfg.tile_size as int;
    every_grid_is_offered(cfg.min_tiles as int, cfg.max_tiles as int, g);
    assert forall|i: int| 0 <= i < list.len() implies mismatch(own, #[trigger] list[i]) is Finite by {
        assert(list.contains(list[i]));
        every_grid_is_offered(cfg.min_tiles as int, cfg.max_tiles as int, list[i]);
        mismatches_are_finite(w, h, list[i]);
    }
    let j = ties_go_to_the_last_that_is_filled(own, list, area, t);
    let i = choose|i: int| 0 <= i < list.len() && list[i] == g;
    assert(!mismatch(own, list[i]).below(mismatch(own, grid_of(w, h, cfg))));
    assert(list.contains(list[j]));
    every_grid_is_offered(cfg.min_tiles as int, cfg.max_tiles as int, list[j]);
}

/// How far a grid's proportions are from an image's, exactly: times the image's
/// height and the grid's rows.
pub open spec fn off(w: int, h: int, g: (usize, usize)) -> int {
    if w * g.1 < g.0 * h {
        g.0 * h - w * g.1
    } else {
        w * g.1 - g.0 * h
    }
}

proof fn products_within(a: int, b: int, x: int, y: int)
    requires
        0 <= a <= x,
        0 <= b <= y,
    ensures
        0 <= a * b <= x * y,
{
    assert(0 <= a * b <= x * y) by (nonlinear_arith)
        requires
            0 <= a <= x,
            0 <= b <= y,
    ;
}

/// The distance of two ratios that are each a little off is a little off.
proof fn distance_is_off_by_little(x: int, y: int, p: int, w: int, h: int, c: int, r: int) -> (d: int)
    requires
        p >= 1,
        w >= 1,
        h >= 1,
        c >= 1,
        r >= 1,
        -(w * p) <= LIMIT * (x * h - w * p) <= w * p,
        -(c * p) <= LIMIT * (y * r - c * p) <= c * p,
    ensures
        d == (if x < y {
            y - x
        } else {
            x - y
        }),
        ({
            let k = (r * w + h * c) * p;
            let a = if w * r < c * h {
                c * h - w * r
            } else {
                w * r - c * h
            };
            &&& -k <= LIMIT * (d * (h * r) - a * p) <= k
            &&& 0 <= a * p <= k
        }),
{
    let d = if x < y {
        y - x
    } else {
        x - y
    };
    let l = LIMIT as int;
    let k = (r * w + h * c) * p;
    let (wr, ch) = (w * r, c * h);
    let a = if wr < ch {
        ch - wr
    } else {
        wr - ch
    };
    let (ex, ey) = (x * h - w * p, y * r - c * p);
    let u = (x - y) * (h * r);
    let v = (wr - ch) * p;
    assert(u - v == r * ex - h * ey) by {
        assert((x - y) * (h * r) == x * (h * r) - y * (h * r)) by (nonlinear_arith);
        assert(x * (h * r) == r * (x * h)) by (nonlinear_arith);
        assert(y * (h * r) == h * (y * r)) by (nonlinear_arith);
        assert((wr - ch) * p == wr * p - ch * p) by (nonlinear_arith);
        assert((w * r) * p == r * (w * p)) by (nonlinear_arith);
        assert((c * h) * p == h * (c * p)) by (nonlinear_arith);
        let (xh, wp, yr, cp) = (x * h, w * p, y * r, c * p);
        assert(r * (xh - wp) == r * xh - r * wp) by (nonlinear_arith);
        assert(h * (yr - cp) == h * yr - h * cp) by (nonlinear_arith);
    }
    assert(-(r * (w * p)) <= l * (r * ex) <= r * (w * p)) by (nonlinear_arith)
        requires
            -(w * p) <= l * ex <= w * p,
            r >= 1,
    ;
    assert(-(h * (c * p)) <= l * (h * ey) <= h * (c * p)) by (nonlinear_arith)
        requires
            -(c * p) <= l * ey <= c * p,
            h >= 1,
    ;
    assert(k == r * (w * p) + h * (c * p)) by (nonlinear_arith)
        requires
            k == (r * w + h * c) * p,
    ;
    let (rex, hey) = (r * ex, h * ey);
    assert(l * (u - v) == l * rex - l * hey) by (nonlinear_arith)
        requires
            u - v == rex - hey,
    ;
    assert(-k <= l * (u - v) <= k);
    let s = h * r;
    assert(s >= 1) by (nonlinear_arith)
        requires
            s == h * r,
            h >= 1,
            r >= 1,
    ;
    let (du, av) = (d * s, a * p);
    assert(x < y ==> du == -u) by (nonlinear_arith)
        requires
            x < y ==> d == y - x,
            u == (x - y) * s,
            du == d * s,
    ;
    assert(x >= y ==> du == u) by (nonlinear_arith)
        requires
            x >= y ==> d == x - y,
            u == (x - y) * s,
            du == d * s,
    ;
    assert(du >= 0) by (nonlinear_arith)
        requires
            du == d * s,
            d >= 0,
            s >= 1,
    ;
    assert(wr < ch ==> av == -v) by (nonlinear_arith)
        requires
            wr < ch ==> a == ch - wr,
            v == (wr - ch) * p,
            av == a * p,
    ;
    assert(wr >= ch ==> av == v) by (nonlinear_arith)
        requires
            wr >= ch ==> a == wr - ch,
            v == (wr - ch) * p,
            av == a * p,
    ;
    assert(0 <= wr && 0 <= ch && r * w == wr && h * c == ch) by (nonlinear_arith)
        requires
            wr == w * r,
            ch == c * h,
            w >= 1,
            h >= 1,
            c >= 1,
            r >= 1,
    ;
    assert(0 <= a <= r * w + h * c);
    assert(0 <= av <= k) by (nonlinear_arith)
        requires
            0 <= a <= r * w + h * c,
            av == a * p,
            k == (r * w + h * c) * p,
            p >= 1,
    ;
    assert(l * (du - av) == l * du - l * av && l * (u - v) == l * u - l * v) by (nonlinear_arith);
    assert(l * (-u) == -(l * u) && l * (-v) == -(l * v)) by (nonlinear_arith);
    assert(-k <= l * (du - av) <= k) by (nonlinear_arith)
        requires
            -k <= l * (u - v) <= k,
            du == u || du == -u,
            av == v || av == -v,
            du >= 0,
            av >= 0,
            l > 0,
    ;
    d
}

/// What rounding does to proportions of small numbers does not change which of
/// two grids is closer.
proof fn closer_grids_measure_closer(w: int, h: int, near: (usize, usize), far: (usize, usize))
    requires
        1 <= w <= MAX_DIMENSION_PIXELS,
        1 <= h <= MAX_DIMENSION_PIXELS,
        1 <= near.0 <= 4096,
        1 <= near.1 <= 4096,
        1 <= far.0 <= 4096,
        1 <= far.1 <= 4096,
        off(w, h, near) * far.1 < off(w, h, far) * near.1,
    ensures
        mismatch(num_of(w).over(num_of(h)), near).below(
            mismatch(num_of(w).over(num_of(h)), far),
        ),
{
    let e: int = -158;
    let (own, a, b) = (
        num_of(w).over(num_of(h)),
        num_of(near.0 as int).over(num_of(near.1 as int)),
        num_of(far.0 as int).over(num_of(far.1 as int)),
    );
    quotients_are_close(w, h, e);
    quotients_are_close(near.0 as int, near.1 as int, e);
    quotients_are_close(far.0 as int, far.1 as int, e);
    let p = up(-e);
    up_positive(-e);
    let (x, y, z) = (units(own, e), units(a, e), units(b, e));
    let d2 = distance_is_off_by_little(x, y, p, w, h, near.0 as int, near.1 as int);
    let d1 = distance_is_off_by_little(x, z, p, w, h, far.0 as int, far.1 as int);
    far_is_far(
        d1,
        d2,
        p,
        w,
        h,
        far.0 as int,
        far.1 as int,
        near.0 as int,
        near.1 as int,
        off(w, h, far),
        off(w, h, near),
    );
    let (least, most) = (own.apart_from(a), own.apart_from(b));
    assert(x != z);
    distances_are_close(own, b, e);
    if x != y {
        distances_are_close(own, a, e);
    } else {
        same_is_not_apart(own, a, e);
    }
    assert(units(least, e) < units(most, e));
    less_at((least->Finite_0, least->Finite_1), (most->Finite_0, most->Finite_1), e);
}

proof fn far_is_far(
    d1: int,
    d2: int,
    p: int,
    w: int,
    h: int,
    c1: int,
    r1: int,
    c2: int,
    r2: int,
    a1: int,
    a2: int,
)
    requires
        p >= 1,
        1 <= w <= MAX_DIMENSION_PIXELS,
        1 <= h <= MAX_DIMENSION_PIXELS,
        1 <= c1 <= 4096,
        1 <= r1 <= 4096,
        1 <= c2 <= 4096,
        1 <= r2 <= 4096,
        d1 >= 0,
        d2 >= 0,
        -((r1 * w + h * c1) * p) <= LIMIT * (d1 * (h * r1) - a1 * p) <= (r1 * w + h * c1) * p,
        -((r2 * w + h * c2) * p) <= LIMIT * (d2 * (h * r2) - a2 * p) <= (r2 * w + h * c2) * p,
        0 <= a1 * p <= (r1 * w + h * c1) * p,
        0 <= a2 * p <= (r2 * w + h * c2) * p,
        a2 * r1 < a1 * r2,
    ensures
        LIMIT * (d1 - d2) > d1 + d2,
{
    let l = LIMIT as int;
    let m: int = 0x20_0000_0000;
    let (n1, n2) = (r1 * w + h * c1, r2 * w + h * c2);
    products_within(r1, w, 4096, 0x100_0000);
    products_within(h, c1, 0x100_0000, 4096);
    products_within(r2, w, 4096, 0x100_0000);
    products_within(h, c2, 0x100_0000, 4096);
    assert(0 <= n1 <= m && 0 <= n2 <= m);
    let s = h * r1 * r2;
    let (g1, g2) = (d1 * s, d2 * s);
    let (t1, t2) = (d1 * (h * r1), d2 * (h * r2));
    assert(s >= 1) by (nonlinear_arith)
        requires
            s == h * r1 * r2,
            h >= 1,
            r1 >= 1,
            r2 >= 1,
    ;
    assert(g1 == t1 * r2 && g2 == t2 * r1) by (nonlinear_arith)
        requires
            s == h * r1 * r2,
            g1 == d1 * s,
            g2 == d2 * s,
            t1 == d1 * (h * r1),
            t2 == d2 * (h * r2),
    ;
    let (ap1, ap2, k1, k2) = (a1 * p, a2 * p, n1 * p, n2 * p);
    assert(k1 <= m * p && k2 <= m * p) by (nonlinear_arith)
        requires
            k1 == n1 * p,
            k2 == n2 * p,
            n1 <= m,
            n2 <= m,
            p >= 1,
    ;
    assert(l * (t1 - ap1) == l * t1 - l * ap1 && l * (t2 - ap2) == l * t2 - l * ap2)
        by (nonlinear_arith);
    let (lt1, lt2, la1, la2) = (l * t1, l * t2, l * ap1, l * ap2);
    // Each side times the other grid's rows.
    assert(lt1 * r2 >= la1 * r2 - m * p * 4096) by (nonlinear_arith)
        requires
            lt1 >= la1 - k1,
            0 <= k1 <= m * p,
            1 <= r2 <= 4096,
    ;
    assert(lt2 * r1 <= la2 * r1 + m * p * 4096) by (nonlinear_arith)
        requires
            lt2 <= la2 + k2,
            0 <= k2 <= m * p,
            1 <= r1 <= 4096,
    ;
    assert(la1 * r2 - la2 * r1 >= l * p) by {
        let (o1, o2) = (a1 * r2, a2 * r1);
        let lp = l * p;
        assert((l * (a1 * p)) * r2 == (l * p) * (a1 * r2)) by (nonlinear_arith);
        assert((l * (a2 * p)) * r1 == (l * p) * (a2 * r1)) by (nonlinear_arith);
        assert(lp * o1 - lp * o2 == lp * (o1 - o2)) by (nonlinear_arith);
        assert(lp >= 0) by (nonlinear_arith)
            requires
                lp == l * p,
                l > 0,
                p >= 1,
        ;
        let o = o1 - o2;
        assert(lp * o >= lp) by (nonlinear_arith)
            requires
                o >= 1,
                lp >= 0,
        ;
    }
    assert(l * g1 == lt1 * r2 && l * g2 == lt2 * r1) by (nonlinear_arith)
        requires
            g1 == t1 * r2,
            g2 == t2 * r1,
            lt1 == l * t1,
            lt2 == l * t2,
    ;
    assert(l * g1 - l * g2 >= l * p - 8192 * (m * p));
    // Neither is larger than the image's and the grid's proportions together.
    assert(lt1 <= l * k1 + k1 && lt2 <= l * k2 + k2) by (nonlinear_arith)
        requires
            lt1 <= la1 + k1,
            lt2 <= la2 + k2,
            la1 == l * ap1,
            la2 == l * ap2,
            ap1 <= k1,
            ap2 <= k2,
            l > 0,
    ;
    assert(lt1 * r2 <= (l + 1) * (m * p) * 4096 && lt2 * r1 <= (l + 1) * (m * p) * 4096)
        by (nonlinear_arith)
        requires
            lt1 <= l * k1 + k1,
            lt2 <= l * k2 + k2,
            0 <= k1 <= m * p,
            0 <= k2 <= m * p,
            1 <= r1 <= 4096,
            1 <= r2 <= 4096,
            lt1 >= 0,
            lt2 >= 0,
            l > 0,
    {
        let q = (l + 1) * (m * p);
        assert(lt1 <= q) by (nonlinear_arith)
            requires
                lt1 <= l * k1 + k1,
                0 <= k1 <= m * p,
                q == (l + 1) * (m * p),
                l > 0,
        ;
        assert(lt2 <= q) by (nonlinear_arith)
            requires
                lt2 <= l * k2 + k2,
                0 <= k2 <= m * p,
                q == (l + 1) * (m * p),
                l > 0,
        ;
        assert(lt1 * r2 <= q * 4096) by (nonlinear_arith)
            requires
                0 <= lt1 <= q,
                1 <= r2 <= 4096,
        ;
        assert(lt2 * r1 <= q * 4096) by (nonlinear_arith)
            requires
                0 <= lt2 <= q,
                1 <= r1 <= 4096,
        ;
    }
    let mp = m * p;
    assert(l * (g1 + g2) <= 8192 * ((l + 1) * mp)) by (nonlinear_arith)
        requires
            l * g1 <= (l + 1) * mp * 4096,
            l * g2 <= (l + 1) * mp * 4096,
    ;
    assert((l + 1) * mp == l * mp + mp) by (nonlinear_arith);
    assert(mp == 0x20_0000_0000 * p);
    assert(l * mp == 0x20_0000_0000_0000 * mp);
    assert(l * p == 0x20_0000_0000_0000 * p);
    // The difference outweighs the sum.
    let (f, q) = (g1 - g2, g1 + g2);
    assert(l * f == l * g1 - l * g2) by (nonlinear_arith)
        requires
            f == g1 - g2,
    ;
    assert(l * f > q) by {
        assert(0x20_0000_0000_0000 * q <= 8192 * (0x20_0000_0000_0000 * mp + mp));
        assert(0x20_0000_0000_0000 * f >= 0x20_0000_0000_0000 * p - 8192 * mp);
    }
    assert(f == (d1 - d2) * s && q == (d1 + d2) * s) by (nonlinear_arith)
        requires
            f == g1 - g2,
            q == g1 + g2,
            g1 == d1 * s,
            g2 == d2 * s,
    ;
    let (i, j) = (d1 - d2, d1 + d2);
    assert(l * i > j) by (nonlinear_arith)
        requires
            l * (i * s) > j * s,
            s >= 1,
    {
        if l * i <= j {
            assert(l * (i * s) <= j * s) by (nonlinear_arith)
                requires
                    l * i <= j,
                    s >= 1,
            ;
        }
    }
}

/// No grid that is offered has proportions closer to an image's than the grid
/// that the image is cut into, in exact arithmetic: for images of any sides that
/// are taken, and grids of up to 4096 tiles.
pub proof fn no_grid_is_closer_exactly(w: int, h: int, cfg: VisionConfig, g: (usize, usize))
    requires
        1 <= w <= MAX_DIMENSION_PIXELS,
        1 <= h <= MAX_DIMENSION_PIXELS,
        cfg.max_tiles <= 4096,
        is_grid(g, cfg.min_tiles as int, cfg.max_tiles as int),
    ensures
        off(w, h, grid_of(w, h, cfg)) * g.1 <= off(w, h, g) * grid_of(w, h, cfg).1,
{
    no_grid_is_closer(w, h, cfg, g);
    let chosen = grid_of(w, h, cfg);
    let (c, r, a, b) = (chosen.0 as int, chosen.1 as int, g.0 as int, g.1 as int);
    assert(c <= c * r && r <= c * r && a <= a * b && b <= a * b) by (nonlinear_arith)
        requires
            c >= 1,
            r >= 1,
            a >= 1,
            b >= 1,
    ;
    if off(w, h, g) * chosen.1 < off(w, h, chosen) * g.1 {
        closer_grids_measure_closer(w, h, g, chosen);
    }
}

/// Where a square grid is offered, an image wider than high is never cut into
/// more rows than columns, nor one higher than wide into more columns than rows.
pub proof fn wide_images_get_wide_grids(w: int, h: int, cfg: VisionConfig, side: usize)
    requires
        1 <= w <= MAX_DIMENSION_PIXELS,
        1 <= h <= MAX_DIMENSION_PIXELS,
        cfg.max_tiles <= 4096,
        side >= 1,
        cfg.min_tiles <= side * side <= cfg.max_tiles,
    ensures
        w > h ==> grid_of(w, h, cfg).0 >= grid_of(w, h, cfg).1,
        w < h ==> grid_of(w, h, cfg).0 <= grid_of(w, h, cfg).1,
{
    let g = (side, side);
    no_grid_is_closer(w, h, cfg, g);
    no_grid_is_closer_exactly(w, h, cfg, g);
    let chosen = grid_of(w, h, cfg);
    let (c, r, k) = (chosen.0 as int, chosen.1 as int, side as int);
    let (a, b) = (off(w, h, chosen), off(w, h, g));
    assert(w > h ==> w * k > k * h) by (nonlinear_arith)
        requires
            k >= 1,
    ;
    assert(w < h ==> w * k < k * h) by (nonlinear_arith)
        requires
            k >= 1,
    ;
    if w > h && c < r {
        assert(w * r > c * h) by (nonlinear_arith)
            requires
                w > h,
                c < r,
                h >= 1,
                c >= 1,
        ;
        assert(a == w * r - c * h && b == w * k - k * h);
        assert(a * k > b * r) by (nonlinear_arith)
            requires
                a == w * r - c * h,
                b == w * k - k * h,
                c < r,
                h >= 1,
                k >= 1,
        {
            assert(a * k - b * r == k * h * (r - c)) by (nonlinear_arith)
                requires
                    a == w * r - c * h,
                    b == w * k - k * h,
            ;
            assert(k * h * (r - c) > 0) by (nonlinear_arith)
                requires
                    k >= 1,
                    h >= 1,
                    r > c,
            ;
        }
    }
    if w < h && c > r {
        assert(w * r < c * h) by (nonlinear_arith)
            requires
                w < h,
                c > r,
                w >= 1,
                r >= 1,
        ;
        assert(a == c * h - w * r && b == k * h - w * k);
        assert(a * k > b * r) by (nonlinear_arith)
            requires
                a == c * h - w * r,
                b == k * h - w * k,
                c > r,
                h >= 1,
                k >= 1,
        {
            assert(a * k - b * r == k * h * (c - r)) by (nonlinear_arith)
                requires
                    a == c * h - w * r,
                    b == k * h - w * k,
            ;
            assert(k * h * (c - r) > 0) by (nonlinear_arith)
                requires
                    k >= 1,
                    h >= 1,
                    c > r,
            ;
        }
    }
}

/// An image is cut exactly where it is too large and cutting is allowed: it is
/// switched on, and some grid of more than one tile may be taken.
pub proof fn only_large_images_are_cut(plan: ImagePlan, w: int, h: int, cfg: VisionConfig)
    requires
        is_plan(plan, w, h, cfg),
    ensures
        plan.grid is Some <==> too_large(h, w, cfg) && cfg.do_image_splitting && (cfg.min_tiles
            != 1 || cfg.max_tiles != 1),
        plan.grid matches Some(g) ==> g == grid_of(w, h, cfg),
{
}

/// The sides of the image as a whole are its own height and its own width, each
/// rounded for itself, where that keeps within the tokens' budget.
pub proof fn whole_images_keep_their_sides(plan: ImagePlan, w: int, h: int, cfg: VisionConfig)
    requires
        is_plan(plan, w, h, cfg),
        ({
            let f = cfg.patch_size * cfg.downsample_factor;
            let pixels = rounded_side(h, f) * rounded_side(w, f);
            cfg.min_image_tokens * (f * f) <= pixels <= cfg.max_image_tokens * (f * f)
        }),
    ensures
        plan.new_h == rounded_side(h, cfg.patch_size * cfg.downsample_factor),
        plan.new_w == rounded_side(w, cfg.patch_size * cfg.downsample_factor),
{
    let (p, d) = (cfg.patch_size as int, cfg.downsample_factor as int);
    tokens_are_squares(cfg.min_image_tokens as int, p, d);
    tokens_are_squares(cfg.max_image_tokens as int, p, d);
}

/// An image in one tile is its own thumbnail; any other has one where that is
/// wanted.
pub proof fn one_tile_needs_no_thumbnail(grid: (usize, usize), cfg: VisionConfig)
    requires
        grid.0 >= 1,
        grid.1 >= 1,
    ensures
        has_thumbnail(grid, cfg) <==> cfg.use_thumbnail && grid.0 * grid.1 > 1,
{
    let (a, b) = (grid.0 as int, grid.1 as int);
    assert(a >= 1 && b >= 1 ==> (a * b > 1 <==> !(a == 1 && b == 1))) by (nonlinear_arith);
}

} // verus!
