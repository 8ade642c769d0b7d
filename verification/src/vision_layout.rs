//! Where pixels, features and weights stand in the vision tower's rows.

use vstd::arithmetic::div_mod::{lemma_fundamental_div_mod, lemma_fundamental_div_mod_converse};
use vstd::prelude::*;

verus! {

/// Where the value at `i` of a tower's patch rows stands among an image's
/// planes of pixels. A row is a patch; in it pixels follow each other line by
/// line, each with its channels together.
pub open spec fn patch_source(i: int, h: int, w: int, ps: int, channels: int) -> int {
    let c = i % channels;
    let t = i / channels;
    let dx = t % ps;
    let dy = (t / ps) % ps;
    let row = t / ps / ps;
    let px = row % (w / ps);
    let py = row / (w / ps);
    c * (h * w) + (py * ps + dy) * w + (px * ps + dx)
}

/// How many values an image's patch rows have.
pub open spec fn patch_len(h: int, w: int, ps: int, channels: int) -> int {
    (h / ps) * (w / ps) * ps * ps * channels
}

/// Where the value at `i` of a projector's rows stands among the tower's
/// features. A row is a block of `factor` by `factor` patches, line by line.
pub open spec fn block_source(i: int, gw: int, channels: int, factor: int) -> int {
    let c = i % channels;
    let t = i / channels;
    let dj = t % factor;
    let di = (t / factor) % factor;
    let block = t / factor / factor;
    let bx = block % (gw / factor);
    let by = block / (gw / factor);
    ((by * factor + di) * gw + (bx * factor + dj)) * channels + c
}

/// How many values a projector's rows have.
pub open spec fn block_len(gh: int, gw: int, channels: int, factor: int) -> int {
    (gh / factor) * (gw / factor) * factor * factor * channels
}

/// Where the weight at `i`, in the order of patch rows, stands in a kernel whose
/// channels are apart.
pub open spec fn kernel_source(i: int, channels: int, kh: int, kw: int) -> int {
    let c = i % channels;
    let t = i / channels;
    let dx = t % kw;
    let dy = (t / kw) % kh;
    let o = t / kw / kh;
    o * (channels * kh * kw) + c * (kh * kw) + (dy * kw + dx)
}

/// Where the value at `i` of an image's planes stands among its pixels of three
/// channels each.
pub open spec fn plane_source(i: int, plane: int) -> int {
    (i % plane) * 3 + i / plane
}

/// What stands at given places of a row.
pub open spec fn gathered<T>(from: Seq<T>, len: int, place: spec_fn(int) -> int) -> Seq<T> {
    Seq::new(len as nat, |i: int| from[place(i)])
}

/// A quotient is below what was multiplied, and a rest below what was divided by.
proof fn digit(i: int, n: int, base: int)
    requires
        0 <= i < n * base,
        0 < base,
    ensures
        0 <= i / base < n,
        0 <= i % base < base,
        0 <= i / base <= i,
{
    lemma_fundamental_div_mod(i, base);
    let q = i / base;
    let r = i % base;
    assert(0 <= q < n && q <= i) by (nonlinear_arith)
        requires
            i == base * q + r,
            0 <= r < base,
            0 <= i < n * base,
            0 < base,
    ;
}

proof fn place_in_grid(y: int, x: int, rows: int, cols: int, width: int)
    requires
        0 <= y < rows,
        0 <= x < cols,
        cols <= width,
    ensures
        0 <= y * width + x < rows * width,
{
    assert(0 <= y * width + x < rows * width) by (nonlinear_arith)
        requires
            0 <= y < rows,
            0 <= x < cols,
            cols <= width,
    ;
}

/// A place in the middle of a line of blocks.
proof fn place_in_blocks(b: int, d: int, blocks: int, size: int, whole: int)
    requires
        0 <= b < blocks,
        0 <= d < size,
        blocks * size <= whole,
    ensures
        0 <= b * size + d < whole,
{
    assert(0 <= b * size + d < whole) by (nonlinear_arith)
        requires
            0 <= b < blocks,
            0 <= d < size,
            blocks * size <= whole,
    ;
}

proof fn whole_blocks(n: int, size: int)
    requires
        0 <= n,
        0 < size,
    ensures
        0 <= n / size,
        (n / size) * size <= n,
{
    lemma_fundamental_div_mod(n, size);
    let q = n / size;
    let r = n % size;
    assert(0 <= q && q * size <= n) by (nonlinear_arith)
        requires
            n == size * q + r,
            0 <= r < size,
            0 <= n,
            0 < size,
    ;
}

proof fn patch_source_within(i: int, h: int, w: int, ps: int, channels: int)
    requires
        0 <= h,
        0 <= w,
        0 < ps,
        0 < channels,
        0 <= i < patch_len(h, w, ps, channels),
    ensures
        0 <= patch_source(i, h, w, ps, channels) < channels * (h * w),
        0 < w / ps,
        0 <= i / channels / ps / ps / (w / ps) < h / ps,
{
    let (gh, gw) = (h / ps, w / ps);
    whole_blocks(h, ps);
    whole_blocks(w, ps);
    digit(i, gh * gw * ps * ps, channels);
    let c = i % channels;
    let t = i / channels;
    digit(t, gh * gw * ps, ps);
    let dx = t % ps;
    digit(t / ps, gh * gw, ps);
    let dy = (t / ps) % ps;
    let row = t / ps / ps;
    assert(gw > 0) by (nonlinear_arith)
        requires
            0 <= row < gh * gw,
            gh >= 0,
            gw >= 0,
    ;
    digit(row, gh, gw);
    let px = row % gw;
    let py = row / gw;
    place_in_blocks(py, dy, gh, ps, h);
    place_in_blocks(px, dx, gw, ps, w);
    let y = py * ps + dy;
    let x = px * ps + dx;
    place_in_grid(y, x, h, w, w);
    assert(h * w >= 0) by (nonlinear_arith)
        requires
            h >= 0,
            w >= 0,
    ;
    place_in_blocks(c, y * w + x, channels, h * w, channels * (h * w));
}

proof fn block_source_within(i: int, gh: int, gw: int, channels: int, factor: int)
    requires
        0 <= gh,
        0 <= gw,
        0 < factor,
        0 < channels,
        0 <= i < block_len(gh, gw, channels, factor),
    ensures
        0 <= block_source(i, gw, channels, factor) < gh * gw * channels,
        0 < gw / factor,
{
    let (bh, bw) = (gh / factor, gw / factor);
    whole_blocks(gh, factor);
    whole_blocks(gw, factor);
    digit(i, bh * bw * factor * factor, channels);
    let c = i % channels;
    let t = i / channels;
    digit(t, bh * bw * factor, factor);
    let dj = t % factor;
    digit(t / factor, bh * bw, factor);
    let di = (t / factor) % factor;
    let block = t / factor / factor;
    assert(bw > 0) by (nonlinear_arith)
        requires
            0 <= block < bh * bw,
            bh >= 0,
            bw >= 0,
    ;
    digit(block, bh, bw);
    let bx = block % bw;
    let by = block / bw;
    place_in_blocks(by, di, bh, factor, gh);
    place_in_blocks(bx, dj, bw, factor, gw);
    let y = by * factor + di;
    let x = bx * factor + dj;
    place_in_grid(y, x, gh, gw, gw);
    assert(gh * gw >= 0) by (nonlinear_arith)
        requires
            gh >= 0,
            gw >= 0,
    ;
    place_in_blocks(y * gw + x, c, gh * gw, channels, gh * gw * channels);
}

proof fn kernel_source_within(i: int, out: int, channels: int, kh: int, kw: int)
    requires
        0 < channels,
        0 < kh,
        0 < kw,
        0 <= i < out * kh * kw * channels,
    ensures
        0 <= kernel_source(i, channels, kh, kw) < out * (channels * kh * kw),
{
    digit(i, out * kh * kw, channels);
    let c = i % channels;
    let t = i / channels;
    digit(t, out * kh, kw);
    let dx = t % kw;
    digit(t / kw, out, kh);
    let dy = (t / kw) % kh;
    let o = t / kw / kh;
    place_in_grid(dy, dx, kh, kw, kw);
    assert(kh * kw > 0) by (nonlinear_arith)
        requires
            kh > 0,
            kw > 0,
    ;
    let p = dy * kw + dx;
    place_in_blocks(c, p, channels, kh * kw, channels * (kh * kw));
    assert(channels * (kh * kw) == channels * kh * kw) by (nonlinear_arith);
    let q = c * (kh * kw) + p;
    place_in_blocks(o, q, out, channels * kh * kw, out * (channels * kh * kw));
}

/// Every place of a kernel's weights lies within the kernel.
pub(crate) proof fn kernel_sources_within(out: int, channels: int, kh: int, kw: int)
    requires
        0 <= out,
        0 <= channels,
        0 <= kh,
        0 <= kw,
    ensures
        forall|i: int|
            0 <= i < out * (channels * kh * kw) ==> 0 <= #[trigger] kernel_source(
                i,
                channels,
                kh,
                kw,
            ) < out * (channels * kh * kw),
{
    assert(out * (channels * kh * kw) == out * kh * kw * channels) by (nonlinear_arith);
    if channels > 0 && kh > 0 && kw > 0 {
        assert forall|i: int| 0 <= i < out * (channels * kh * kw) implies 0
            <= #[trigger] kernel_source(i, channels, kh, kw) < out * (channels * kh * kw) by {
            kernel_source_within(i, out, channels, kh, kw);
        }
    } else {
        assert(out * (channels * kh * kw) == 0) by (nonlinear_arith)
            requires
                channels == 0 || kh == 0 || kw == 0,
        ;
    }
}

/// An image's patch rows, from its planes of pixels.
pub fn patch_rows<T: Copy>(pixels: &Vec<T>, h: usize, w: usize, ps: usize, channels: usize) -> (out:
    Vec<T>)
    requires
        0 < ps,
        channels * (h * w) <= pixels@.len(),
        patch_len(h as int, w as int, ps as int, channels as int) <= usize::MAX,
    ensures
        out@ == gathered(
            pixels@,
            patch_len(h as int, w as int, ps as int, channels as int),
            |i: int| patch_source(i, h as int, w as int, ps as int, channels as int),
        ),
{
    let gh: usize = h / ps;
    let gw: usize = w / ps;
    let ghost n = patch_len(h as int, w as int, ps as int, channels as int);
    let ghost place = |i: int| patch_source(i, h as int, w as int, ps as int, channels as int);
    if channels == 0 {
        assert(n == 0) by (nonlinear_arith)
            requires
                n == (h as int / ps as int) * (w as int / ps as int) * ps * ps * channels,
                channels == 0,
        ;
        let out: Vec<T> = Vec::new();
        assert(out@ =~= gathered(pixels@, n, place));
        return out;
    }
    let total: usize = patch_total(gh, gw, ps, channels);
    let mut out: Vec<T> = Vec::new();
    let mut i: usize = 0;
    let _len: usize = pixels.len();
    while i < total
        invariant
            i <= total,
            total == n,
            n == patch_len(h as int, w as int, ps as int, channels as int),
            place == (|i: int|
                patch_source(i, h as int, w as int, ps as int, channels as int)),
            0 < ps,
            0 < channels,
            gw == w / ps,
            channels * (h * w) <= pixels@.len() <= usize::MAX,
            out@ == gathered(pixels@, i as int, place),
        decreases total - i,
    {
        proof {
            patch_source_within(i as int, h as int, w as int, ps as int, channels as int);
        }
        let s: usize = patch_place(i, h, w, ps, channels);
        assert(s == place(i as int));
        out.push(pixels[s]);
        i = i + 1;
        assert(out@ =~= gathered(pixels@, i as int, place));
    }
    out
}

fn patch_total(gh: usize, gw: usize, ps: usize, channels: usize) -> (r: usize)
    requires
        0 < ps,
        0 < channels,
        gh * gw * ps * ps * channels <= usize::MAX,
    ensures
        r == gh * gw * ps * ps * channels,
{
    proof {
        let (a, b, s, c) = (gh as int, gw as int, ps as int, channels as int);
        assert(a * b <= a * b * s && a * b * s <= a * b * s * s && a * b * s * s <= a * b * s * s
            * c) by (nonlinear_arith)
            requires
                0 <= a,
                0 <= b,
                1 <= s,
                1 <= c,
        ;
    }
    gh * gw * ps * ps * channels
}

fn patch_place(i: usize, h: usize, w: usize, ps: usize, channels: usize) -> (r: usize)
    requires
        0 < ps,
        0 < channels,
        i < patch_len(h as int, w as int, ps as int, channels as int),
        channels * (h * w) <= usize::MAX,
    ensures
        r == patch_source(i as int, h as int, w as int, ps as int, channels as int),
{
    proof {
        patch_source_within(i as int, h as int, w as int, ps as int, channels as int);
    }
    let gw: usize = w / ps;
    let c: usize = i % channels;
    let t: usize = i / channels;
    let dx: usize = t % ps;
    let dy: usize = (t / ps) % ps;
    let row: usize = t / ps / ps;
    let px: usize = row % gw;
    let py: usize = row / gw;
    proof {
        let (hh, ww, s, k) = (h as int, w as int, ps as int, channels as int);
        whole_blocks(hh, s);
        whole_blocks(ww, s);
        lemma_fundamental_div_mod(row as int, gw as int);
        lemma_fundamental_div_mod((t / ps) as int, s);
        lemma_fundamental_div_mod(t as int, s);
        lemma_fundamental_div_mod(i as int, k);
        place_in_blocks(py as int, dy as int, hh / s, s, hh);
        place_in_blocks(px as int, dx as int, gw as int, s, ww);
        place_in_grid(py * ps + dy, px * ps + dx, hh, ww, ww);
        let p = (py * ps + dy) * w + (px * ps + dx);
        place_in_blocks(c as int, p, k, hh * ww, k * (hh * ww));
        assert(hh * ww <= k * (hh * ww)) by (nonlinear_arith)
            requires
                1 <= k,
                0 <= hh,
                0 <= ww,
        ;
        let z = c * (h * w);
        assert(z >= 0) by (nonlinear_arith)
            requires
                z == c * (h * w),
                c >= 0,
                h >= 0,
                w >= 0,
        ;
        assert((py * ps + dy) * w >= 0) by (nonlinear_arith)
            requires
                py >= 0,
                ps >= 0,
                dy >= 0,
                w >= 0,
        ;
        assert(py * ps >= 0 && px * ps >= 0) by (nonlinear_arith)
            requires
                py >= 0,
                ps >= 0,
                px >= 0,
        ;
    }
    c * (h * w) + (py * ps + dy) * w + (px * ps + dx)
}

/// A projector's rows, from the tower's features: each is a block of `factor` by
/// `factor` patches.
pub fn pixel_unshuffle_tokens<T: Copy>(
    feat: &Vec<T>,
    gh: usize,
    gw: usize,
    ch: usize,
    factor: usize,
) -> (out: Vec<T>)
    requires
        0 < factor,
        gh * gw * ch <= feat@.len(),
        block_len(gh as int, gw as int, ch as int, factor as int) <= usize::MAX,
    ensures
        out@ == gathered(
            feat@,
            block_len(gh as int, gw as int, ch as int, factor as int),
            |i: int| block_source(i, gw as int, ch as int, factor as int),
        ),
{
    let bh: usize = gh / factor;
    let bw: usize = gw / factor;
    let ghost n = block_len(gh as int, gw as int, ch as int, factor as int);
    let ghost place = |i: int| block_source(i, gw as int, ch as int, factor as int);
    if ch == 0 {
        assert(n == 0) by (nonlinear_arith)
            requires
                n == (gh as int / factor as int) * (gw as int / factor as int) * factor * factor
                    * ch,
                ch == 0,
        ;
        let out: Vec<T> = Vec::new();
        assert(out@ =~= gathered(feat@, n, place));
        return out;
    }
    let total: usize = patch_total(bh, bw, factor, ch);
    let mut out: Vec<T> = Vec::new();
    let mut i: usize = 0;
    let _len: usize = feat.len();
    while i < total
        invariant
            i <= total,
            total == n,
            n == block_len(gh as int, gw as int, ch as int, factor as int),
            place == (|i: int| block_source(i, gw as int, ch as int, factor as int)),
            0 < factor,
            0 < ch,
            gh * gw * ch <= feat@.len() <= usize::MAX,
            out@ == gathered(feat@, i as int, place),
        decreases total - i,
    {
        proof {
            block_source_within(i as int, gh as int, gw as int, ch as int, factor as int);
        }
        let s: usize = block_place(i, gh, gw, ch, factor);
        assert(s == place(i as int));
        out.push(feat[s]);
        i = i + 1;
        assert(out@ =~= gathered(feat@, i as int, place));
    }
    out
}

fn block_place(i: usize, gh: usize, gw: usize, ch: usize, factor: usize) -> (r: usize)
    requires
        0 < factor,
        0 < ch,
        i < block_len(gh as int, gw as int, ch as int, factor as int),
        gh * gw * ch <= usize::MAX,
    ensures
        r == block_source(i as int, gw as int, ch as int, factor as int),
{
    proof {
        block_source_within(i as int, gh as int, gw as int, ch as int, factor as int);
        block_parts(i as int, gh as int, gw as int, ch as int, factor as int);
    }
    let bw: usize = gw / factor;
    let c: usize = i % ch;
    let t: usize = i / ch;
    let dj: usize = t % factor;
    let di: usize = (t / factor) % factor;
    let block: usize = t / factor / factor;
    let bx: usize = block % bw;
    let by: usize = block / bw;
    ((by * factor + di) * gw + (bx * factor + dj)) * ch + c
}

proof fn block_parts(i: int, gh: int, gw: int, ch: int, factor: int)
    requires
        0 <= gh,
        0 <= gw,
        0 < factor,
        0 < ch,
        0 <= i < block_len(gh, gw, ch, factor),
        gh * gw * ch <= usize::MAX,
    ensures
        ({
            let t = i / ch;
            let dj = t % factor;
            let di = (t / factor) % factor;
            let block = t / factor / factor;
            let bx = block % (gw / factor);
            let by = block / (gw / factor);
            let y = by * factor + di;
            let x = bx * factor + dj;
            &&& 0 <= by * factor <= usize::MAX
            &&& 0 <= bx * factor <= usize::MAX
            &&& 0 <= y <= usize::MAX
            &&& 0 <= x <= usize::MAX
            &&& 0 <= y * gw <= usize::MAX
            &&& 0 <= y * gw + x <= usize::MAX
            &&& 0 <= (y * gw + x) * ch <= usize::MAX
        }),
{
    let (bh, bw) = (gh / factor, gw / factor);
    whole_blocks(gh, factor);
    whole_blocks(gw, factor);
    digit(i, bh * bw * factor * factor, ch);
    let t = i / ch;
    digit(t, bh * bw * factor, factor);
    let dj = t % factor;
    digit(t / factor, bh * bw, factor);
    let di = (t / factor) % factor;
    let block = t / factor / factor;
    assert(bw > 0) by (nonlinear_arith)
        requires
            0 <= block < bh * bw,
            bh >= 0,
            bw >= 0,
    ;
    digit(block, bh, bw);
    let bx = block % bw;
    let by = block / bw;
    place_in_blocks(by, di, bh, factor, gh);
    place_in_blocks(bx, dj, bw, factor, gw);
    let y = by * factor + di;
    let x = bx * factor + dj;
    place_in_grid(y, x, gh, gw, gw);
    let m = gh * gw;
    assert(m <= m * ch) by (nonlinear_arith)
        requires
            m >= 0,
            ch >= 1,
    ;
    let p = y * gw + x;
    assert(0 <= p * ch <= m * ch) by (nonlinear_arith)
        requires
            0 <= p < m,
            ch >= 1,
    ;
    assert(by * factor >= 0 && bx * factor >= 0 && y * gw >= 0) by (nonlinear_arith)
        requires
            by >= 0,
            bx >= 0,
            factor >= 0,
            y >= 0,
            gw >= 0,
    ;
    assert(gw <= m && gh <= m) by (nonlinear_arith)
        requires
            m == gh * gw,
            0 <= y < gh,
            0 <= x < gw,
    ;
}

/// A kernel's weights in the order of patch rows.
pub fn folded_kernel<T: Copy>(
    raw: &Vec<T>,
    out_rows: usize,
    channels: usize,
    kh: usize,
    kw: usize,
) -> (out: Vec<T>)
    requires
        raw@.len() == out_rows * (channels * kh * kw),
    ensures
        out@ == gathered(
            raw@,
            raw@.len() as int,
            |i: int| kernel_source(i, channels as int, kh as int, kw as int),
        ),
{
    let total: usize = raw.len();
    let ghost place = |i: int| kernel_source(i, channels as int, kh as int, kw as int);
    let mut out: Vec<T> = Vec::new();
    if total == 0 {
        assert(out@ =~= gathered(raw@, 0, place));
        return out;
    }
    proof {
        let (o, c, y, x) = (out_rows as int, channels as int, kh as int, kw as int);
        assert(o * (c * y * x) == o * y * x * c) by (nonlinear_arith);
        assert(c > 0 && y > 0 && x > 0) by (nonlinear_arith)
            requires
                o * (c * y * x) > 0,
                o >= 0,
                c >= 0,
                y >= 0,
                x >= 0,
        ;
    }
    let mut i: usize = 0;
    while i < total
        invariant
            i <= total,
            total == raw@.len(),
            0 < channels,
            0 < kh,
            0 < kw,
            raw@.len() == out_rows * (channels * kh * kw),
            raw@.len() == out_rows * kh * kw * channels,
            place == (|i: int| kernel_source(i, channels as int, kh as int, kw as int)),
            out@ == gathered(raw@, i as int, place),
        decreases total - i,
    {
        proof {
            kernel_source_within(i as int, out_rows as int, channels as int, kh as int, kw as int);
        }
        let s: usize = kernel_place(i, out_rows, channels, kh, kw);
        assert(s == place(i as int));
        out.push(raw[s]);
        i = i + 1;
        assert(out@ =~= gathered(raw@, i as int, place));
    }
    out
}

fn kernel_place(i: usize, out_rows: usize, channels: usize, kh: usize, kw: usize) -> (r: usize)
    requires
        0 < channels,
        0 < kh,
        0 < kw,
        i < out_rows * kh * kw * channels,
        out_rows * (channels * kh * kw) <= usize::MAX,
    ensures
        r == kernel_source(i as int, channels as int, kh as int, kw as int),
{
    let c: usize = i % channels;
    let t: usize = i / channels;
    let dx: usize = t % kw;
    let dy: usize = (t / kw) % kh;
    let o: usize = t / kw / kh;
    proof {
        let (n, k, y, x) = (out_rows as int, channels as int, kh as int, kw as int);
        digit(i as int, n * y * x, k);
        digit(t as int, n * y, x);
        digit((t / kw) as int, n, y);
        place_in_grid(dy as int, dx as int, y, x, x);
        assert(y * x > 0) by (nonlinear_arith)
            requires
                y > 0,
                x > 0,
        ;
        let p = dy * kw + dx;
        place_in_blocks(c as int, p, k, y * x, k * (y * x));
        assert(k * (y * x) == k * y * x) by (nonlinear_arith);
        let q = c * (kh * kw) + p;
        place_in_blocks(o as int, q, n, k * y * x, n * (k * y * x));
        assert(y * x <= k * (y * x)) by (nonlinear_arith)
            requires
                k >= 1,
                y * x > 0,
        ;
        assert(k * y <= k * y * x) by (nonlinear_arith)
            requires
                x >= 1,
                k >= 1,
                y >= 1,
        ;
        assert(k * y * x <= n * (k * y * x)) by (nonlinear_arith)
            requires
                n >= 1,
                k * y * x >= 0,
        ;
        assert(o * (k * y * x) >= 0) by (nonlinear_arith)
            requires
                o >= 0,
                k * y * x >= 0,
        ;
        assert(c * (y * x) >= 0 && dy * x >= 0) by (nonlinear_arith)
            requires
                c >= 0,
                y * x > 0,
                dy >= 0,
                x > 0,
        ;
    }
    o * (channels * kh * kw) + c * (kh * kw) + (dy * kw + dx)
}

/// An image's planes, from its pixels of three channels each.
pub fn planes<T: Copy>(rgb: &Vec<T>, h: usize, w: usize) -> (out: Vec<T>)
    requires
        rgb@.len() == 3 * (h * w),
    ensures
        out@ == gathered(rgb@, 3 * (h * w), |i: int| plane_source(i, h * w)),
{
    let total: usize = rgb.len();
    let ghost place = |i: int| plane_source(i, h * w);
    let mut out: Vec<T> = Vec::new();
    let mut i: usize = 0;
    while i < total
        invariant
            i <= total,
            total == rgb@.len(),
            rgb@.len() == 3 * (h * w),
            place == (|i: int| plane_source(i, h * w)),
            out@ == gathered(rgb@, i as int, place),
        decreases total - i,
    {
        let plane: usize = h * w;
        proof {
            digit(i as int, 3, plane as int);
        }
        let s: usize = (i % plane) * 3 + i / plane;
        assert(s == place(i as int));
        out.push(rgb[s]);
        i = i + 1;
        assert(out@ =~= gathered(rgb@, i as int, place));
    }
    assert(out@ =~= gathered(rgb@, 3 * (h * w), place));
    out
}

/// The value of a patch's pixel at line `dy` and column `dx` in channel `c` is
/// that of the image's pixel there, and stands behind the pixels before it.
pub proof fn patches_hold_their_pixels(
    py: int,
    px: int,
    dy: int,
    dx: int,
    c: int,
    h: int,
    w: int,
    ps: int,
    channels: int,
)
    requires
        0 <= py < h / ps,
        0 <= px < w / ps,
        0 <= dy < ps,
        0 <= dx < ps,
        0 <= c < channels,
    ensures
        ({
            let row = py * (w / ps) + px;
            patch_source(
                (row * ps * ps + dy * ps + dx) * channels + c,
                h,
                w,
                ps,
                channels,
            ) == c * (h * w) + (py * ps + dy) * w + (px * ps + dx)
        }),
{
    let gw = w / ps;
    let row = py * gw + px;
    let u = row * ps + dy;
    let t = u * ps + dx;
    assert(row * ps * ps + dy * ps + dx == t) by (nonlinear_arith)
        requires
            u == row * ps + dy,
            t == u * ps + dx,
    ;
    lemma_fundamental_div_mod_converse(t * channels + c, channels, t, c);
    lemma_fundamental_div_mod_converse(t, ps, u, dx);
    lemma_fundamental_div_mod_converse(u, ps, row, dy);
    lemma_fundamental_div_mod_converse(row, gw, py, px);
}

/// A token of the projector holds its block's patches, columns next to each
/// other before lines.
pub proof fn blocks_hold_their_patches(
    by: int,
    bx: int,
    di: int,
    dj: int,
    c: int,
    gw: int,
    channels: int,
    factor: int,
)
    requires
        0 <= bx < gw / factor,
        0 <= di < factor,
        0 <= dj < factor,
        0 <= c < channels,
    ensures
        ({
            let block = by * (gw / factor) + bx;
            block_source(
                block * (channels * factor * factor) + di * factor * channels + dj * channels + c,
                gw,
                channels,
                factor,
            ) == ((by * factor + di) * gw + (bx * factor + dj)) * channels + c
        }),
{
    let bw = gw / factor;
    let block = by * bw + bx;
    let u = block * factor + di;
    let t = u * factor + dj;
    assert(block * (channels * factor * factor) + di * factor * channels + dj * channels + c == t
        * channels + c) by (nonlinear_arith)
        requires
            u == block * factor + di,
            t == u * factor + dj,
    ;
    lemma_fundamental_div_mod_converse(t * channels + c, channels, t, c);
    lemma_fundamental_div_mod_converse(t, factor, u, dj);
    lemma_fundamental_div_mod_converse(u, factor, block, di);
    lemma_fundamental_div_mod_converse(block, bw, by, bx);
}

/// The projector's rows are as many as the prompt has places for a sub-image's
/// tokens.
pub proof fn rows_are_the_tokens(
    cfg: crate::vision_config::VisionConfig,
    gh: int,
    gw: int,
    channels: int,
)
    requires
        cfg.downsample_factor > 0,
    ensures
        block_len(gh, gw, channels, cfg.downsample_factor as int) == cfg.grid_tokens(gh, gw)
            * (channels * cfg.downsample_factor * cfg.downsample_factor),
{
    let f = cfg.downsample_factor as int;
    let (a, b) = (gh / f, gw / f);
    assert(a * b * f * f * channels == (a * b) * (channels * f * f)) by (nonlinear_arith);
}

/// The plane of a channel holds that channel of every pixel, in the pixels'
/// order.
pub proof fn planes_hold_their_channels(p: int, c: int, plane: int)
    requires
        0 <= p < plane,
        0 <= c < 3,
    ensures
        plane_source(c * plane + p, plane) == 3 * p + c,
{
    lemma_fundamental_div_mod_converse(c * plane + p, plane, c, p);
}

/// The weight of an output for a place of a patch and a channel stands, in the
/// order of patch rows, where that place's pixel of that channel stands in a
/// patch's row.
pub proof fn kernels_hold_their_weights(
    o: int,
    dy: int,
    dx: int,
    c: int,
    channels: int,
    kh: int,
    kw: int,
)
    requires
        0 <= o,
        0 <= dy < kh,
        0 <= dx < kw,
        0 <= c < channels,
    ensures
        kernel_source(((o * kh + dy) * kw + dx) * channels + c, channels, kh, kw) == o * (channels
            * kh * kw) + c * (kh * kw) + (dy * kw + dx),
{
    let u = o * kh + dy;
    let t = u * kw + dx;
    lemma_fundamental_div_mod_converse(t * channels + c, channels, t, c);
    lemma_fundamental_div_mod_converse(t, kw, u, dx);
    lemma_fundamental_div_mod_converse(u, kh, o, dy);
}

/// An image of whole patches has a value in its patch rows for each pixel of each
/// channel.
pub proof fn patch_rows_hold_every_pixel(gh: int, gw: int, ps: int, channels: int)
    requires
        0 <= gh,
        0 <= gw,
        0 < ps,
    ensures
        patch_len(gh * ps, gw * ps, ps, channels) == (gh * ps) * (gw * ps) * channels,
{
    vstd::arithmetic::div_mod::lemma_div_multiples_vanish(gh, ps);
    vstd::arithmetic::div_mod::lemma_div_multiples_vanish(gw, ps);
    assert(gh * ps == ps * gh && gw * ps == ps * gw) by (nonlinear_arith);
    assert(gh * gw * ps * ps == (gh * ps) * (gw * ps)) by (nonlinear_arith);
}

} // verus!
