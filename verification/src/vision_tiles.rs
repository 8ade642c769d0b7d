//! Cutting large images into tiles: when it is done, and into which grid.

use crate::binary64::{
    decoded, from_bits, half_compares, less_at, num_of, Binary64, Num, LEAST, LIMIT,
};
use crate::vision_config::VisionConfig;
use crate::vision_image::{by_factor, round_by_factor};
use vstd::prelude::*;

verus! {

/// A side rounded to a multiple of `factor`, but no less than a patch.
pub open spec fn patched_side(side: int, factor: int, patch_size: int) -> int {
    let n = by_factor(num_of(side), factor);
    if n < patch_size {
        patch_size
    } else {
        n
    }
}

/// How much larger than the budget an image may be, without its sign.
pub open spec fn tolerance_of(cfg: VisionConfig) -> Num {
    decoded(cfg.max_pixels_tolerance).narrowed()
}

/// The pixels of an image of whole patches.
pub open spec fn patched_size(height: int, width: int, cfg: VisionConfig) -> Num {
    let factor = cfg.patch_size * cfg.downsample_factor;
    num_of(patched_side(height, factor, cfg.patch_size as int)).times(
        num_of(patched_side(width, factor, cfg.patch_size as int)),
    )
}

/// The budget with the tolerance on top of it, without its sign.
pub open spec fn large_budget(cfg: VisionConfig) -> Num {
    num_of(cfg.max_image_tokens as int).times(num_of(cfg.patch_size * cfg.patch_size)).times(
        num_of(cfg.downsample_factor * cfg.downsample_factor),
    ).times(tolerance_of(cfg))
}

/// Whether an image is too large for its budget and the tolerance on top of it.
pub open spec fn too_large(height: int, width: int, cfg: VisionConfig) -> bool {
    let size = patched_size(height, width, cfg);
    let budget = large_budget(cfg);
    if cfg.max_pixels_tolerance >= 0x8000_0000_0000_0000 {
        let zero = Num::Finite(0, 0);
        budget !is Nan && (zero.below(budget) || zero.below(size))
    } else {
        budget.below(size)
    }
}

/// The numbers that the test handles fit the machine.
pub open spec fn large_fits(height: int, width: int, cfg: VisionConfig) -> bool {
    let factor = cfg.patch_size * cfg.downsample_factor;
    &&& factor <= usize::MAX
    &&& factor <= i64::MAX
    &&& cfg.patch_size <= i64::MAX
    &&& by_factor(num_of(height), factor) <= i64::MAX
    &&& by_factor(num_of(width), factor) <= i64::MAX
    &&& cfg.patch_size * cfg.patch_size <= usize::MAX
    &&& cfg.downsample_factor * cfg.downsample_factor <= usize::MAX
}

fn patch_side(side: usize, factor: usize, patch_size: usize) -> (r: u64)
    requires
        factor <= i64::MAX,
        patch_size <= i64::MAX,
        by_factor(num_of(side as int), factor as int) <= i64::MAX,
    ensures
        r == patched_side(side as int, factor as int, patch_size as int),
{
    let s = Binary64::of(side as u64);
    assert(s.near(75));
    assert(s.near(700));
    let n: i64 = round_by_factor(s, factor);
    if n < patch_size as i64 {
        patch_size as u64
    } else {
        n as u64
    }
}

fn size_in_patches(h: usize, w: usize, cfg: &VisionConfig) -> (r: Binary64)
    requires
        large_fits(h as int, w as int, *cfg),
    ensures
        r.wf(),
        r.near(225),
        r@ == patched_size(h as int, w as int, *cfg),
{
    let factor: usize = cfg.patch_size * cfg.downsample_factor;
    let hb = Binary64::of(patch_side(h, factor, cfg.patch_size));
    let wb = Binary64::of(patch_side(w, factor, cfg.patch_size));
    assert(hb.near(75) && wb.near(75));
    hb.times(wb)
}

fn tolerance(cfg: &VisionConfig) -> (r: Binary64)
    ensures
        r.wf(),
        r.near(210),
        r@ == tolerance_of(*cfg),
{
    from_bits(cfg.max_pixels_tolerance).size.narrowed()
}

fn budget_of_pixels(cfg: &VisionConfig) -> (r: Binary64)
    requires
        cfg.patch_size * cfg.patch_size <= usize::MAX,
        cfg.downsample_factor * cfg.downsample_factor <= usize::MAX,
    ensures
        r.wf(),
        r.near(660),
        r@ == large_budget(*cfg),
{
    let tokens = Binary64::of(cfg.max_image_tokens as u64);
    let patch = Binary64::of((cfg.patch_size * cfg.patch_size) as u64);
    let down = Binary64::of((cfg.downsample_factor * cfg.downsample_factor) as u64);
    assert(tokens.near(75) && patch.near(75) && down.near(75));
    let a = tokens.times(patch);
    assert(a.near(225));
    let b = a.times(down);
    assert(b.near(375));
    let t = tolerance(cfg);
    assert(t.near(210));
    b.times(t)
}

/// Whether an image is too large for its budget and the tolerance on top of it.
pub fn is_too_large(h: usize, w: usize, cfg: &VisionConfig) -> (r: bool)
    requires
        large_fits(h as int, w as int, *cfg),
    ensures
        r == too_large(h as int, w as int, *cfg),
{
    let size = size_in_patches(h, w, cfg);
    let budget = budget_of_pixels(cfg);
    if cfg.max_pixels_tolerance >= 0x8000_0000_0000_0000 {
        let zero = Binary64::of(0);
        match budget {
            Binary64::Nan => false,
            _ => zero.below(budget) || zero.below(size),
        }
    } else {
        budget.below(size)
    }
}

/// The grids of width `w` and height up to `h` with `area` tiles.
pub open spec fn of_width(area: int, w: int, h: int) -> Seq<(usize, usize)>
    decreases h,
{
    if h <= 0 {
        Seq::empty()
    } else {
        let rest = of_width(area, w, h - 1);
        if w * h == area {
            rest.push((w as usize, h as usize))
        } else {
            rest
        }
    }
}

/// The grids of width up to `w` and height up to `n` with `area` tiles.
pub open spec fn of_size(area: int, n: int, w: int) -> Seq<(usize, usize)>
    decreases w,
{
    if w <= 0 {
        Seq::empty()
    } else {
        of_size(area, n, w - 1) + of_width(area, w, n)
    }
}

/// The grids with `area` tiles, once for every bound on their sides from
/// `min_tiles` to `n`.
pub open spec fn of_area(area: int, min_tiles: int, n: int) -> Seq<(usize, usize)>
    decreases n - min_tiles + 1,
{
    if n < min_tiles {
        Seq::empty()
    } else {
        of_area(area, min_tiles, n - 1) + of_size(area, n, n)
    }
}

/// The grids by ascending numbers of tiles, from `min_tiles` to `area`.
pub open spec fn by_area(min_tiles: int, max_tiles: int, area: int) -> Seq<(usize, usize)>
    decreases area - min_tiles + 1,
{
    if area < min_tiles {
        Seq::empty()
    } else {
        by_area(min_tiles, max_tiles, area - 1) + of_area(area, min_tiles, max_tiles)
    }
}

/// A row without those items that equal the one before them.
pub open spec fn deduped(list: Seq<(usize, usize)>) -> Seq<(usize, usize)>
    decreases list.len(),
{
    if list.len() == 0 {
        list
    } else {
        let rest = deduped(list.drop_last());
        if rest.len() > 0 && rest.last() == list.last() {
            rest
        } else {
            rest.push(list.last())
        }
    }
}

/// The grids that an image may be cut into, widths first.
pub open spec fn grids(min_tiles: int, max_tiles: int) -> Seq<(usize, usize)> {
    deduped(by_area(min_tiles, max_tiles, max_tiles))
}

fn push_new(out: &mut Vec<(usize, usize)>, w: usize, h: usize, Ghost(before): Ghost<Seq<(usize, usize)>>)
    requires
        old(out)@ == deduped(before),
    ensures
        final(out)@ == deduped(before.push((w, h))),
{
    proof {
        assert(before.push((w, h)).drop_last() =~= before);
        assert(before.push((w, h)).last() == (w, h));
    }
    let n: usize = out.len();
    if n > 0 && out[n - 1].0 == w && out[n - 1].1 == h {
        return;
    }
    out.push((w, h));
}

fn push_of_width(
    out: &mut Vec<(usize, usize)>,
    area: usize,
    w: usize,
    n: usize,
    Ghost(before): Ghost<Seq<(usize, usize)>>,
)
    requires
        old(out)@ == deduped(before),
        n < usize::MAX,
        w * n <= usize::MAX,
    ensures
        final(out)@ == deduped(before + of_width(area as int, w as int, n as int)),
{
    assert(before + of_width(area as int, w as int, 0) =~= before);
    let mut h: usize = 1;
    while h <= n
        invariant
            1 <= h <= n + 1,
            n < usize::MAX,
            w * n <= usize::MAX,
            out@ == deduped(before + of_width(area as int, w as int, h - 1)),
        decreases n + 1 - h,
    {
        assert(w * h <= w * n) by (nonlinear_arith)
            requires
                h <= n,
        ;
        let ghost list = before + of_width(area as int, w as int, h - 1);
        if w * h == area {
            push_new(out, w, h, Ghost(list));
            assert(list.push((w, h)) =~= before + of_width(area as int, w as int, h as int));
        }
        h = h + 1;
    }
}

fn push_of_size(
    out: &mut Vec<(usize, usize)>,
    area: usize,
    n: usize,
    Ghost(before): Ghost<Seq<(usize, usize)>>,
)
    requires
        old(out)@ == deduped(before),
        n < usize::MAX,
        n * n <= usize::MAX,
    ensures
        final(out)@ == deduped(before + of_size(area as int, n as int, n as int)),
{
    assert(before + of_size(area as int, n as int, 0) =~= before);
    let mut w: usize = 1;
    while w <= n
        invariant
            1 <= w <= n + 1,
            n < usize::MAX,
            n * n <= usize::MAX,
            out@ == deduped(before + of_size(area as int, n as int, w - 1)),
        decreases n + 1 - w,
    {
        assert(w * n <= n * n) by (nonlinear_arith)
            requires
                w <= n,
        ;
        let ghost list = before + of_size(area as int, n as int, w - 1);
        push_of_width(out, area, w, n, Ghost(list));
        assert(list + of_width(area as int, w as int, n as int) =~= before + of_size(
            area as int,
            n as int,
            w as int,
        ));
        w = w + 1;
    }
}

fn push_of_area(
    out: &mut Vec<(usize, usize)>,
    area: usize,
    min_tiles: usize,
    max_tiles: usize,
    Ghost(before): Ghost<Seq<(usize, usize)>>,
)
    requires
        old(out)@ == deduped(before),
        max_tiles < usize::MAX,
        max_tiles * max_tiles <= usize::MAX,
    ensures
        final(out)@ == deduped(before + of_area(area as int, min_tiles as int, max_tiles as int)),
{
    let mut n: usize = min_tiles;
    assert(before + of_area(area as int, min_tiles as int, min_tiles - 1) =~= before);
    if n > max_tiles {
        assert(before + of_area(area as int, min_tiles as int, max_tiles as int) =~= before);
        return;
    }
    while n <= max_tiles
        invariant
            min_tiles <= n <= max_tiles + 1,
            max_tiles < usize::MAX,
            max_tiles * max_tiles <= usize::MAX,
            out@ == deduped(before + of_area(area as int, min_tiles as int, n - 1)),
        decreases max_tiles + 1 - n,
    {
        assert(n * n <= max_tiles * max_tiles) by (nonlinear_arith)
            requires
                n <= max_tiles,
        ;
        let ghost list = before + of_area(area as int, min_tiles as int, n - 1);
        push_of_size(out, area, n, Ghost(list));
        assert(list + of_size(area as int, n as int, n as int) =~= before + of_area(
            area as int,
            min_tiles as int,
            n as int,
        ));
        n = n + 1;
    }
}

/// The grids that an image may be cut into, widths first.
pub fn target_ratios(min_tiles: usize, max_tiles: usize) -> (out: Vec<(usize, usize)>)
    requires
        max_tiles < usize::MAX,
        max_tiles * max_tiles <= usize::MAX,
    ensures
        out@ == grids(min_tiles as int, max_tiles as int),
{
    let mut out: Vec<(usize, usize)> = Vec::new();
    let mut area: usize = min_tiles;
    assert(out@ =~= deduped(by_area(min_tiles as int, max_tiles as int, min_tiles - 1)));
    if area > max_tiles {
        assert(out@ =~= deduped(by_area(min_tiles as int, max_tiles as int, max_tiles as int)));
        return out;
    }
    while area <= max_tiles
        invariant
            min_tiles <= area <= max_tiles + 1,
            max_tiles < usize::MAX,
            max_tiles * max_tiles <= usize::MAX,
            out@ == deduped(by_area(min_tiles as int, max_tiles as int, area - 1)),
        decreases max_tiles + 1 - area,
    {
        push_of_area(
            &mut out,
            area,
            min_tiles,
            max_tiles,
            Ghost(by_area(min_tiles as int, max_tiles as int, area - 1)),
        );
        area = area + 1;
    }
    out
}

/// Whether a grid has between `min_tiles` and `max_tiles` tiles.
pub open spec fn is_grid(g: (usize, usize), min_tiles: int, max_tiles: int) -> bool {
    &&& g.0 >= 1
    &&& g.1 >= 1
    &&& min_tiles <= g.0 * g.1 <= max_tiles
}

proof fn in_of_width(area: int, w: int, h: int, g: (usize, usize))
    requires
        0 <= w <= usize::MAX,
        h <= usize::MAX,
    ensures
        of_width(area, w, h).contains(g) <==> g.0 == w && 1 <= g.1 <= h && g.0 * g.1 == area,
    decreases h,
{
    if h > 0 {
        let rest = of_width(area, w, h - 1);
        in_of_width(area, w, h - 1, g);
        if w * h == area {
            let all = rest.push((w as usize, h as usize));
            if rest.contains(g) {
                let i = choose|i: int| 0 <= i < rest.len() && rest[i] == g;
                assert(all[i] == g);
            }
            if all.contains(g) && !rest.contains(g) {
                let i = choose|i: int| 0 <= i < all.len() && all[i] == g;
                if i < rest.len() {
                    assert(rest[i] == g);
                }
            }
            if g.0 == w && g.1 == h {
                assert(all[rest.len() as int] == g);
            }
        }
    }
}

proof fn in_sum(a: Seq<(usize, usize)>, b: Seq<(usize, usize)>, g: (usize, usize))
    ensures
        (a + b).contains(g) <==> a.contains(g) || b.contains(g),
{
    if a.contains(g) {
        let i = choose|i: int| 0 <= i < a.len() && a[i] == g;
        assert((a + b)[i] == g);
    }
    if b.contains(g) {
        let i = choose|i: int| 0 <= i < b.len() && b[i] == g;
        assert((a + b)[a.len() + i] == g);
    }
    if (a + b).contains(g) {
        let i = choose|i: int| 0 <= i < (a + b).len() && (a + b)[i] == g;
        if i < a.len() {
            assert(a[i] == g);
        } else {
            assert(b[i - a.len()] == g);
        }
    }
}

proof fn in_of_size(area: int, n: int, w: int, g: (usize, usize))
    requires
        w <= usize::MAX,
        n <= usize::MAX,
    ensures
        of_size(area, n, w).contains(g) <==> 1 <= g.0 <= w && 1 <= g.1 <= n && g.0 * g.1 == area,
    decreases w,
{
    if w > 0 {
        in_of_size(area, n, w - 1, g);
        in_of_width(area, w, n, g);
        in_sum(of_size(area, n, w - 1), of_width(area, w, n), g);
    }
}

proof fn in_of_area(area: int, min_tiles: int, n: int, g: (usize, usize))
    requires
        0 <= min_tiles,
        n <= usize::MAX,
    ensures
        of_area(area, min_tiles, n).contains(g) <==> n >= min_tiles && 1 <= g.0 <= n && 1 <= g.1
            <= n && g.0 * g.1 == area,
    decreases n - min_tiles + 1,
{
    if n >= min_tiles {
        in_of_area(area, min_tiles, n - 1, g);
        in_of_size(area, n, n, g);
        in_sum(of_area(area, min_tiles, n - 1), of_size(area, n, n), g);
    }
}

proof fn in_by_area(min_tiles: int, max_tiles: int, area: int, g: (usize, usize))
    requires
        0 <= min_tiles,
        area <= max_tiles <= usize::MAX,
    ensures
        by_area(min_tiles, max_tiles, area).contains(g) <==> is_grid(g, min_tiles, area),
    decreases area - min_tiles + 1,
{
    if area >= min_tiles {
        in_by_area(min_tiles, max_tiles, area - 1, g);
        in_of_area(area, min_tiles, max_tiles, g);
        in_sum(
            by_area(min_tiles, max_tiles, area - 1),
            of_area(area, min_tiles, max_tiles),
            g,
        );
        assert(g.0 >= 1 && g.1 >= 1 ==> g.0 <= g.0 * g.1 && g.1 <= g.0 * g.1) by (nonlinear_arith);
    }
}

proof fn in_deduped(list: Seq<(usize, usize)>, g: (usize, usize))
    ensures
        deduped(list).contains(g) <==> list.contains(g),
        list.len() > 0 ==> deduped(list).len() > 0 && deduped(list).last() == list.last(),
    decreases list.len(),
{
    if list.len() > 0 {
        let init = list.drop_last();
        in_deduped(init, g);
        let rest = deduped(init);
        let last = seq![list.last()];
        assert(list =~= init + last);
        in_sum(init, last, g);
        assert(last[0] == list.last());
        if rest.len() > 0 && rest.last() == list.last() {
            if last.contains(g) {
                assert(rest[rest.len() - 1] == g);
            }
        } else {
            assert(rest.push(list.last()) =~= rest + last);
            in_sum(rest, last, g);
        }
    }
}

/// Every grid with between `min_tiles` and `max_tiles` tiles is offered, and no
/// other.
pub proof fn every_grid_is_offered(min_tiles: int, max_tiles: int, g: (usize, usize))
    requires
        0 <= min_tiles,
        max_tiles <= usize::MAX,
    ensures
        grids(min_tiles, max_tiles).contains(g) <==> is_grid(g, min_tiles, max_tiles),
{
    in_by_area(min_tiles, max_tiles, max_tiles, g);
    in_deduped(by_area(min_tiles, max_tiles, max_tiles), g);
}

/// How far a grid's proportions are from an image's.
pub open spec fn mismatch(aspect_ratio: Num, g: (usize, usize)) -> Num {
    aspect_ratio.apart_from(num_of(g.0 as int).over(num_of(g.1 as int)))
}

/// Whether an image of `area` pixels fills more than half of a grid.
pub open spec fn fills(area: Num, g: (usize, usize), tile_size: int) -> bool {
    Num::Finite(LEAST as int, -53).times(num_of(tile_size * tile_size * g.0 * g.1)).below(area)
}

/// The least mismatch of some grids with an image, and the grid that has it. Of
/// grids that match equally well, a later one is taken where the image fills
/// more than half of it.
pub open spec fn closest(
    aspect_ratio: Num,
    list: Seq<(usize, usize)>,
    area: Num,
    tile_size: int,
) -> (Num, (usize, usize))
    decreases list.len(),
{
    if list.len() == 0 {
        (Num::Infinite, (1usize, 1usize))
    } else {
        let (best_diff, best) = closest(aspect_ratio, list.drop_last(), area, tile_size);
        let g = list.last();
        let diff = mismatch(aspect_ratio, g);
        if diff.below(best_diff) {
            (diff, g)
        } else if diff.equals(best_diff) && fills(area, g, tile_size) {
            (best_diff, g)
        } else {
            (best_diff, best)
        }
    }
}

/// A ratio of two numbers of 32 bits.
pub open spec fn is_ratio(x: Binary64) -> bool {
    &&& x.wf()
    &&& match x {
        Binary64::Finite(f) => f.m > 0 ==> f.within(-84, -20),
        _ => true,
    }
}

/// The sides of a grid have 32 bits, and the pixels of its tiles fit the machine.
pub open spec fn grid_fits(g: (usize, usize), tile_size: int) -> bool {
    &&& 1 <= g.0 < 0x1_0000_0000
    &&& 1 <= g.1 < 0x1_0000_0000
    &&& tile_size * tile_size <= usize::MAX
    &&& tile_size * tile_size * g.0 <= usize::MAX
    &&& tile_size * tile_size * g.0 * g.1 <= usize::MAX
}

/// A ratio of two sides.
pub fn ratio(over: u32, under: u32) -> (r: Binary64)
    ensures
        is_ratio(r),
        r@ == num_of(over as int).over(num_of(under as int)),
        over > 0 && under > 0 ==> r is Finite && r->Finite_0.m > 0,
        r.near(203),
{
    let a = Binary64::of(over as u64);
    let b = Binary64::of(under as u64);
    assert(a.near(75) && b.near(75));
    a.over(b)
}

fn measure(aspect_ratio: Binary64, g: (usize, usize)) -> (r: Binary64)
    requires
        is_ratio(aspect_ratio),
        aspect_ratio.near(203),
        1 <= g.0 < 0x1_0000_0000,
        1 <= g.1 < 0x1_0000_0000,
    ensures
        r.wf(),
        r.near(1200),
        r@ == mismatch(aspect_ratio@, g),
{
    let x = ratio(g.0 as u32, g.1 as u32);
    aspect_ratio.apart_from(x)
}

fn is_filled(area: Binary64, g: (usize, usize), tile_size: usize) -> (r: bool)
    requires
        area.wf(),
        area.near(75),
        grid_fits(g, tile_size as int),
    ensures
        r == fills(area@, g, tile_size as int),
{
    let target = Binary64::of((tile_size * tile_size * g.0 * g.1) as u64);
    let half = Binary64::half();
    assert(target.near(75) && half.near(53));
    let t = half.times(target);
    assert(t.near(203));
    t.below(area)
}

/// The grid whose proportions are closest to an image's. An image's proportions
/// are a ratio of two sides of 32 bits each.
pub fn find_closest_aspect_ratio(
    aspect_ratio: Binary64,
    target_ratios: &Vec<(usize, usize)>,
    width: usize,
    height: usize,
    tile_size: usize,
) -> (r: (usize, usize))
    requires
        is_ratio(aspect_ratio),
        aspect_ratio.near(203),
        width * height <= usize::MAX,
        forall|i: int|
            0 <= i < target_ratios@.len() ==> grid_fits(
                #[trigger] target_ratios@[i],
                tile_size as int,
            ),
    ensures
        r == closest(
            aspect_ratio@,
            target_ratios@,
            num_of(width * height),
            tile_size as int,
        ).1,
{
    let area = Binary64::of((width * height) as u64);
    assert(area.near(75));
    let mut best_diff = Binary64::Infinite;
    let mut best: (usize, usize) = (1, 1);
    let mut i: usize = 0;
    while i < target_ratios.len()
        invariant
            i <= target_ratios@.len(),
            is_ratio(aspect_ratio),
            aspect_ratio.near(203),
            area.wf(),
            area.near(75),
            area@ == num_of(width * height),
            best_diff.wf(),
            best_diff.near(1200),
            forall|k: int|
                0 <= k < target_ratios@.len() ==> grid_fits(
                    #[trigger] target_ratios@[k],
                    tile_size as int,
                ),
            (best_diff@, best) == closest(
                aspect_ratio@,
                target_ratios@.subrange(0, i as int),
                area@,
                tile_size as int,
            ),
        decreases target_ratios@.len() - i,
    {
        let ghost pre = target_ratios@.subrange(0, i + 1);
        assert(pre.drop_last() =~= target_ratios@.subrange(0, i as int));
        assert(pre.last() == target_ratios@[i as int]);
        let g: (usize, usize) = target_ratios[i];
        let diff = measure(aspect_ratio, g);
        if diff.below(best_diff) {
            best_diff = diff;
            best = g;
        } else if diff.equals(best_diff) {
            if is_filled(area, g, tile_size) {
                best = g;
            }
        }
        i = i + 1;
    }
    assert(target_ratios@.subrange(0, i as int) =~= target_ratios@);
    best
}

/// Being less carries over.
proof fn below_carries_over(a: Num, b: Num, c: Num)
    requires
        a.below(b),
        b.below(c),
    ensures
        a.below(c),
{
    match (a, b, c) {
        (Num::Finite(m, e), Num::Finite(n, f), Num::Finite(p, g)) => {
            let low = if e <= f && e <= g {
                e
            } else if f <= g {
                f
            } else {
                g
            };
            less_at((m, e), (n, f), low);
            less_at((n, f), (p, g), low);
            less_at((m, e), (p, g), low);
        },
        _ => {},
    }
}

/// No grid's proportions are closer to an image's than those of the grid that
/// is taken.
pub proof fn closest_is_closest(
    aspect_ratio: Num,
    list: Seq<(usize, usize)>,
    area: Num,
    tile_size: int,
    i: int,
)
    requires
        0 <= i < list.len(),
    ensures
        !mismatch(aspect_ratio, list[i]).below(closest(aspect_ratio, list, area, tile_size).0),
        closest(aspect_ratio, list, area, tile_size).0 == Num::Infinite || closest(
            aspect_ratio,
            list,
            area,
            tile_size,
        ).0 == mismatch(aspect_ratio, closest(aspect_ratio, list, area, tile_size).1),
    decreases list.len(),
{
    let init = list.drop_last();
    let (before, _) = closest(aspect_ratio, init, area, tile_size);
    let (after, _) = closest(aspect_ratio, list, area, tile_size);
    let diff = mismatch(aspect_ratio, list.last());
    if i < init.len() {
        closest_is_closest(aspect_ratio, init, area, tile_size, i);
        assert(list[i] == init[i]);
        if diff.below(before) && mismatch(aspect_ratio, list[i]).below(diff) {
            below_carries_over(mismatch(aspect_ratio, list[i]), diff, before);
        }
    } else {
        if init.len() > 0 {
            closest_is_closest(aspect_ratio, init, area, tile_size, 0);
        }
        if diff.below(before) {
            match diff {
                Num::Finite(m, e) => {
                    less_at((m, e), (m, e), e);
                },
                _ => {},
            }
        }
    }
}

/// Whether a grid stands at a place of a list where it has the least mismatch,
/// and is the one to take of those that have it: the first, or one that the
/// image fills more than half of, and no later one is filled so.
pub open spec fn is_taken_at(
    aspect_ratio: Num,
    list: Seq<(usize, usize)>,
    area: Num,
    tile_size: int,
    g: (usize, usize),
    j: int,
) -> bool {
    let least = mismatch(aspect_ratio, g);
    &&& 0 <= j < list.len()
    &&& list[j] == g
    &&& forall|i: int|
        0 <= i < list.len() ==> !mismatch(aspect_ratio, #[trigger] list[i]).below(least)
    &&& forall|i: int|
        j < i < list.len() && mismatch(aspect_ratio, #[trigger] list[i]) == least ==> !fills(
            area,
            list[i],
            tile_size,
        )
    &&& fills(area, g, tile_size) || forall|i: int|
        0 <= i < j ==> mismatch(aspect_ratio, #[trigger] list[i]) != least
}

/// Of the grids whose proportions are closest to an image's, the first is taken
/// unless the image fills more than half of a later one; then the last such one
/// is.
pub proof fn ties_go_to_the_last_that_is_filled(
    aspect_ratio: Num,
    list: Seq<(usize, usize)>,
    area: Num,
    tile_size: int,
) -> (j: int)
    requires
        list.len() > 0,
        forall|i: int| 0 <= i < list.len() ==> mismatch(aspect_ratio, #[trigger] list[i]) is Finite,
    ensures
        is_taken_at(
            aspect_ratio,
            list,
            area,
            tile_size,
            closest(aspect_ratio, list, area, tile_size).1,
            j,
        ),
        closest(aspect_ratio, list, area, tile_size).0 == mismatch(
            aspect_ratio,
            closest(aspect_ratio, list, area, tile_size).1,
        ),
    decreases list.len(),
{
    let init = list.drop_last();
    let n = init.len() as int;
    let (before, kept) = closest(aspect_ratio, init, area, tile_size);
    let (least, g) = closest(aspect_ratio, list, area, tile_size);
    let diff = mismatch(aspect_ratio, list.last());
    assert(list[n] == list.last());
    assert(diff is Finite);
    assert forall|i: int| 0 <= i < list.len() implies !mismatch(
        aspect_ratio,
        #[trigger] list[i],
    ).below(least) by {
        closest_is_closest(aspect_ratio, list, area, tile_size, i);
    }
    if n == 0 {
        n
    } else {
        assert forall|i: int| 0 <= i < n implies mismatch(
            aspect_ratio,
            #[trigger] init[i],
        ) is Finite by {
            assert(init[i] == list[i]);
        }
        let k = ties_go_to_the_last_that_is_filled(aspect_ratio, init, area, tile_size);
        if diff.below(before) {
            assert forall|i: int| 0 <= i < n implies mismatch(aspect_ratio, #[trigger] list[i])
                != least by {
                assert(init[i] == list[i]);
                assert(!mismatch(aspect_ratio, init[i]).below(before));
            }
            n
        } else if diff.equals(before) && fills(area, list.last(), tile_size) {
            n
        } else {
            assert(init[k] == list[k]);
            assert forall|i: int|
                k < i < list.len() && mismatch(aspect_ratio, #[trigger] list[i])
                    == least implies !fills(area, list[i], tile_size) by {
                if i < n {
                    assert(init[i] == list[i]);
                }
            }
            if !fills(area, g, tile_size) {
                assert forall|i: int| 0 <= i < k implies mismatch(
                    aspect_ratio,
                    #[trigger] list[i],
                ) != least by {
                    assert(init[i] == list[i]);
                }
            }
            k
        }
    }
}

/// An image fills more than half of a grid where twice its pixels are more than
/// those of the grid's tiles.
pub proof fn filling_is_more_than_half(pixels: int, g: (usize, usize), tile_size: int)
    requires
        0 <= pixels < LIMIT,
        0 <= tile_size * tile_size * g.0 * g.1 < LIMIT,
    ensures
        fills(num_of(pixels), g, tile_size) <==> 2 * pixels > tile_size * tile_size * g.0 * g.1,
{
    half_compares(tile_size * tile_size * g.0 * g.1, pixels);
}

/// The proportions of any grid and of any image are a finite distance apart.
pub proof fn mismatches_are_finite(w: int, h: int, g: (usize, usize))
    requires
        h >= 1,
        g.1 >= 1,
    ensures
        mismatch(num_of(w).over(num_of(h)), g) is Finite,
{
    crate::binary64::rounded_is_positive(h);
    crate::binary64::rounded_is_positive(g.1 as int);
}

/// Turning an image does not change whether it is too large.
pub proof fn turned_images_are_as_large(height: int, width: int, cfg: VisionConfig)
    ensures
        too_large(height, width, cfg) == too_large(width, height, cfg),
{
    let factor = cfg.patch_size * cfg.downsample_factor;
    let a = num_of(patched_side(height, factor, cfg.patch_size as int));
    let b = num_of(patched_side(width, factor, cfg.patch_size as int));
    let (m, n) = (a->Finite_0, b->Finite_0);
    assert(m * n == n * m) by (nonlinear_arith);
}

} // verus!
