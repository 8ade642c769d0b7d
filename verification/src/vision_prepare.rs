//! Images made ready for the vision tower: decoded, resampled and cut, their
//! pixels in planes.

use crate::vision_config::VisionConfig;
use crate::vision_layout::{
    gathered, patch_len, patch_rows, patch_source, plane_source, planes,
};
use crate::vision_plan::{
    check_pixels, grid_of, has_thumbnail, image_plan, plan_fits, plan_is_possible, resample_fits,
    splits, too_many_pixels, whole_sides, ImagePlan, MAX_DIMENSION_PIXELS,
};
use crate::vision_tiles::{closest, every_grid_is_offered, grids};
use vstd::prelude::*;

verus! {

#[verifier::external_type_specification]
#[verifier::external_body]
pub struct ExDynamicImage(image::DynamicImage);

/// What a decoded image holds: its lines of pixels, each pixel's samples in
/// order, and how the samples are to be read.
pub struct ImageV {
    pub width: u32,
    pub height: u32,
    pub format: int,
    pub rows: Seq<Seq<Seq<int>>>,
}

/// What a decoded image holds.
pub uninterp spec fn image_of(img: image::DynamicImage) -> ImageV;

/// An image resampled to other sides.
pub uninterp spec fn resampled(i: ImageV, width: u32, height: u32) -> ImageV;

/// An image's pixels as bytes of red, green and blue, line by line.
pub uninterp spec fn rgb_of(i: ImageV) -> Seq<u8>;

/// Why an image cannot be had.
#[derive(Debug, PartialEq, Eq)]
pub enum ImageFault {
    /// Its format is none of those that are read.
    Unsupported,
    /// It cannot be decoded.
    Decode(String),
    /// Its bytes cannot be read.
    Read(String),
}

/// Why an image cannot be had.
pub enum ImageFaultV {
    Unsupported,
    Decode(Seq<char>),
    Read(Seq<char>),
}

impl View for ImageFault {
    type V = ImageFaultV;

    open spec fn view(&self) -> ImageFaultV {
        match self {
            ImageFault::Unsupported => ImageFaultV::Unsupported,
            ImageFault::Decode(s) => ImageFaultV::Decode(s@),
            ImageFault::Read(s) => ImageFaultV::Read(s@),
        }
    }
}

/// A part of an image.
pub open spec fn cropped(i: ImageV, x: int, y: int, width: u32, height: u32) -> ImageV {
    ImageV {
        width,
        height,
        format: i.format,
        rows: i.rows.subrange(y, y + height).map_values(
            |row: Seq<Seq<int>>| row.subrange(x, x + width),
        ),
    }
}

/// `image::DynamicImage::width`: the number of the image's columns.
#[verifier::external_body]
fn width_of(img: &image::DynamicImage) -> (r: u32)
    ensures
        r == image_of(*img).width,
{
    img.width()
}

/// `image::DynamicImage::height`: the number of the image's lines.
#[verifier::external_body]
fn height_of(img: &image::DynamicImage) -> (r: u32)
    ensures
        r == image_of(*img).height,
{
    img.height()
}

/// `image::DynamicImage::resize_exact` with the triangle filter: an image of
/// the given sides. Its pixels are a function of the image and the sides; they
/// are not stated further. The call weighs the pixels around each new one in
/// single precision and panics where all weights come to nothing: the sides are
/// such that they do not.
#[verifier::external_body]
fn resize_exact(img: &image::DynamicImage, width: u32, height: u32) -> (r: image::DynamicImage)
    requires
        resample_fits(
            image_of(*img).width as int,
            image_of(*img).height as int,
            width as int,
            height as int,
        ),
    ensures
        image_of(r) == resampled(image_of(*img), width, height),
        image_of(r).width == width,
        image_of(r).height == height,
{
    img.resize_exact(width, height, image::imageops::FilterType::Triangle)
}

/// `image::DynamicImage::crop_imm`: the part of the image within a rectangle
/// that lies in it.
#[verifier::external_body]
fn crop_imm(img: &image::DynamicImage, x: u32, y: u32, width: u32, height: u32) -> (r:
    image::DynamicImage)
    requires
        x + width <= image_of(*img).width,
        y + height <= image_of(*img).height,
        16 * (width * height) <= isize::MAX,
    ensures
        image_of(r) == cropped(image_of(*img), x as int, y as int, width, height),
{
    img.crop_imm(x, y, width, height)
}

/// `image::DynamicImage::to_rgb8` and `image::ImageBuffer::pixels`: the image's
/// pixels as bytes of red, green and blue, line by line. How other samples
/// become bytes is a function of the image; it is not stated further.
#[verifier::external_body]
fn rgb_bytes(img: &image::DynamicImage) -> (r: Vec<u8>)
    requires
        16 * (image_of(*img).width * image_of(*img).height) <= isize::MAX,
    ensures
        r@ == rgb_of(image_of(*img)),
        r@.len() == 3 * (image_of(*img).width * image_of(*img).height),
{
    img.to_rgb8().pixels().flat_map(|p| p.0).collect()
}

/// `image::ImageReader::into_dimensions` on bytes whose format
/// `image::ImageReader::with_guessed_format` has found: the sides that the
/// header gives, width first, or why it gives none. Nothing is stated of either:
/// formats and decoders can be registered while the process runs, so they depend
/// on more than the bytes.
#[verifier::external_body]
fn header_size(data: &[u8]) -> (r: Result<(u32, u32), ImageFault>) {
    match image::ImageReader::new(std::io::Cursor::new(data)).with_guessed_format() {
        Err(e) => Err(ImageFault::Read(e.to_string())),
        Ok(reader) => match reader.into_dimensions() {
            Ok(size) => Ok(size),
            Err(image::ImageError::Unsupported(_)) => Err(ImageFault::Unsupported),
            Err(e) => Err(ImageFault::Decode(e.to_string())),
        },
    }
}

/// `image::load_from_memory`: the image that the bytes hold, or why they hold
/// none. Nothing is stated of either: formats and decoders can be registered
/// while the process runs, and the decoders choose their routines by the
/// processor that they run on.
#[verifier::external_body]
fn load_from_memory(data: &[u8]) -> (r: Result<image::DynamicImage, ImageFault>) {
    match image::load_from_memory(data) {
        Ok(img) => Ok(img),
        Err(image::ImageError::Unsupported(_)) => Err(ImageFault::Unsupported),
        Err(e) => Err(ImageFault::Decode(e.to_string())),
    }
}

/// The text of an image that cannot be had.
pub open spec fn fault_text(fault: ImageFaultV) -> Seq<char> {
    match fault {
        ImageFaultV::Unsupported => "unsupported image format — supported: png, jpeg"@,
        ImageFaultV::Decode(s) => "failed to decode image: "@ + s,
        ImageFaultV::Read(s) => "failed to read image: "@ + s,
    }
}

/// The text of an image that cannot be had.
pub fn map_image_err(fault: &ImageFault) -> (r: String)
    ensures
        r@ == fault_text(fault@),
{
    match fault {
        ImageFault::Unsupported => "unsupported image format — supported: png, jpeg".to_owned(),
        ImageFault::Decode(s) => {
            let mut t = "failed to decode image: ".to_owned();
            t.append(s.as_str());
            t
        },
        ImageFault::Read(s) => {
            let mut t = "failed to read image: ".to_owned();
            t.append(s.as_str());
            t
        },
    }
}

/// A part of an image, or the whole of it, as the tower takes it: its pixels in
/// planes, one for each channel.
#[derive(Debug, PartialEq, Eq)]
pub struct SubImage<P> {
    pub pixels: Vec<P>,
    pub h: usize,
    pub w: usize,
}

/// What a sub-image holds.
#[verifier::ext_equal]
pub struct SubImageV<P> {
    pub pixels: Seq<P>,
    pub h: int,
    pub w: int,
}

impl<P> View for SubImage<P> {
    type V = SubImageV<P>;

    open spec fn view(&self) -> SubImageV<P> {
        SubImageV { pixels: self.pixels@, h: self.h as int, w: self.w as int }
    }
}

impl<P: Copy> SubImage<P> {
    /// Its lines of patches.
    pub fn gh(&self, cfg: &VisionConfig) -> (r: usize)
        requires
            cfg.patch_size > 0,
        ensures
            r == self.h as int / cfg.patch_size as int,
    {
        self.h / cfg.patch_size
    }

    /// Its columns of patches.
    pub fn gw(&self, cfg: &VisionConfig) -> (r: usize)
        requires
            cfg.patch_size > 0,
        ensures
            r == self.w as int / cfg.patch_size as int,
    {
        self.w / cfg.patch_size
    }

    /// Its patches, a row each.
    pub fn patches(&self, cfg: &VisionConfig) -> (out: Vec<P>)
        requires
            cfg.patch_size > 0,
            cfg.num_channels * (self.h * self.w) <= self.pixels@.len(),
            patch_len(
                self.h as int,
                self.w as int,
                cfg.patch_size as int,
                cfg.num_channels as int,
            ) <= usize::MAX,
        ensures
            out@ == gathered(
                self.pixels@,
                patch_len(
                    self.h as int,
                    self.w as int,
                    cfg.patch_size as int,
                    cfg.num_channels as int,
                ),
                |i: int|
                    patch_source(
                        i,
                        self.h as int,
                        self.w as int,
                        cfg.patch_size as int,
                        cfg.num_channels as int,
                    ),
            ),
    {
        patch_rows(&self.pixels, self.h, self.w, cfg.patch_size, cfg.num_channels)
    }
}

/// An image made ready: its sub-images in order, tiles line by line and the
/// whole image last, and its grid of tiles.
#[derive(Debug, PartialEq, Eq)]
pub struct Prepared<P> {
    pub sub_images: Vec<SubImage<P>>,
    pub grid_cols: usize,
    pub grid_rows: usize,
}

/// What each of several sub-images holds.
pub open spec fn subs_view<P>(subs: Seq<SubImage<P>>) -> Seq<SubImageV<P>> {
    subs.map_values(|s: SubImage<P>| s@)
}

/// The tokens of a sub-image.
pub open spec fn sub_tokens<P>(sub: SubImageV<P>, cfg: VisionConfig) -> int {
    cfg.grid_tokens(sub.h / cfg.patch_size as int, sub.w / cfg.patch_size as int)
}

/// The tokens of several sub-images.
pub open spec fn tokens_of<P>(subs: Seq<SubImageV<P>>, cfg: VisionConfig) -> int
    decreases subs.len(),
{
    if subs.len() == 0 {
        0
    } else {
        tokens_of(subs.drop_last(), cfg) + sub_tokens(subs.last(), cfg)
    }
}

proof fn tokens_grow<P>(subs: Seq<SubImageV<P>>, cfg: VisionConfig, n: int)
    requires
        0 <= n <= subs.len(),
        cfg.patch_size > 0,
        forall|i: int| 0 <= i < subs.len() ==> 0 <= (#[trigger] subs[i]).h && 0 <= subs[i].w,
    ensures
        0 <= tokens_of(subs.subrange(0, n), cfg) <= tokens_of(subs, cfg),
    decreases subs.len() - n, n,
{
    if n < subs.len() {
        tokens_grow(subs, cfg, n + 1);
        let pre = subs.subrange(0, n + 1);
        assert(pre.drop_last() =~= subs.subrange(0, n));
        tokens_positive(pre.last(), cfg);
        tokens_low(subs.subrange(0, n), cfg);
    } else {
        assert(subs.subrange(0, n) =~= subs);
        tokens_low(subs, cfg);
    }
}

proof fn tokens_low<P>(subs: Seq<SubImageV<P>>, cfg: VisionConfig)
    requires
        cfg.patch_size > 0,
        forall|i: int| 0 <= i < subs.len() ==> 0 <= (#[trigger] subs[i]).h && 0 <= subs[i].w,
    ensures
        0 <= tokens_of(subs, cfg),
    decreases subs.len(),
{
    if subs.len() > 0 {
        let init = subs.drop_last();
        assert forall|i: int| 0 <= i < init.len() implies 0 <= (#[trigger] init[i]).h && 0
            <= init[i].w by {
            assert(init[i] == subs[i]);
        }
        tokens_low(init, cfg);
        tokens_positive(subs[subs.len() - 1], cfg);
    }
}

pub(crate) proof fn tokens_positive<P>(sub: SubImageV<P>, cfg: VisionConfig)
    requires
        cfg.patch_size > 0,
        0 <= sub.h,
        0 <= sub.w,
    ensures
        0 <= sub_tokens(sub, cfg),
{
    let ps = cfg.patch_size as int;
    let f = cfg.step();
    let (a, b) = (sub.h / ps, sub.w / ps);
    vstd::arithmetic::div_mod::lemma_div_pos_is_pos(sub.h, ps);
    vstd::arithmetic::div_mod::lemma_div_pos_is_pos(sub.w, ps);
    vstd::arithmetic::div_mod::lemma_div_pos_is_pos(a, f);
    vstd::arithmetic::div_mod::lemma_div_pos_is_pos(b, f);
    let (x, y) = (a / f, b / f);
    assert(x * y >= 0) by (nonlinear_arith)
        requires
            x >= 0,
            y >= 0,
    ;
}

impl<P: Copy> Prepared<P> {
    /// How many places the prompt has for the image's tokens.
    pub fn total_tokens(&self, cfg: &VisionConfig) -> (r: usize)
        requires
            cfg.patch_size > 0,
            tokens_of(subs_view(self.sub_images@), *cfg) <= usize::MAX,
        ensures
            r == tokens_of(subs_view(self.sub_images@), *cfg),
    {
        let ghost all = subs_view(self.sub_images@);
        let mut total: usize = 0;
        let mut i: usize = 0;
        while i < self.sub_images.len()
            invariant
                i <= self.sub_images@.len(),
                all == subs_view(self.sub_images@),
                cfg.patch_size > 0,
                tokens_of(all, *cfg) <= usize::MAX,
                total == tokens_of(all.subrange(0, i as int), *cfg),
            decreases self.sub_images@.len() - i,
        {
            let ghost pre = all.subrange(0, i + 1);
            proof {
                assert(pre.drop_last() =~= all.subrange(0, i as int));
                assert(pre.last() == self.sub_images@[i as int]@);
                tokens_grow(all, *cfg, i + 1);
                tokens_grow(all, *cfg, i as int);
                tokens_positive(pre.last(), *cfg);
            }
            let gh: usize = self.sub_images[i].gh(cfg);
            let gw: usize = self.sub_images[i].gw(cfg);
            total = total + cfg.tokens_for_grid(gh, gw);
            i = i + 1;
        }
        assert(all.subrange(0, i as int) =~= all);
        total
    }
}

/// An image, or a part of one, of given sides as the tower takes it.
pub open spec fn sub_of(i: ImageV, h: int, w: int) -> SubImageV<u8> {
    SubImageV {
        pixels: gathered(
            rgb_of(resampled(i, w as u32, h as u32)),
            3 * (h * w),
            |k: int| plane_source(k, h * w),
        ),
        h,
        w,
    }
}

/// The tiles of an image of `c` columns of them, line by line.
pub open spec fn tiles_of(big: ImageV, c: int, n: int, t: int) -> Seq<SubImageV<u8>> {
    Seq::new(
        n as nat,
        |k: int| sub_of(cropped(big, (k % c) * t, (k / c) * t, t as u32, t as u32), t, t),
    )
}

/// An image's sub-images: itself where it is not cut, else its tiles, and itself
/// last where that is wanted and there is more than one tile.
pub open spec fn subs_of(i: ImageV, cfg: VisionConfig) -> Seq<SubImageV<u8>> {
    let (w, h) = (i.width as int, i.height as int);
    let (new_h, new_w) = whole_sides(w, h, cfg);
    let whole = seq![sub_of(i, new_h, new_w)];
    if splits(w, h, cfg) {
        let (c, r) = grid_of(w, h, cfg);
        let t = cfg.tile_size as int;
        let tiles = tiles_of(resampled(i, (t * c) as u32, (t * r) as u32), c as int, c * r, t);
        if has_thumbnail((c, r), cfg) {
            tiles + whole
        } else {
            tiles
        }
    } else {
        whole
    }
}

/// The grid of an image that is made ready, columns first.
pub open spec fn grid_made(i: ImageV, cfg: VisionConfig) -> (usize, usize) {
    if splits(i.width as int, i.height as int, cfg) {
        grid_of(i.width as int, i.height as int, cfg)
    } else {
        (1usize, 1usize)
    }
}

/// Whether this is an image made ready.
pub open spec fn is_prepared(p: Prepared<u8>, i: ImageV, cfg: VisionConfig) -> bool {
    &&& subs_view(p.sub_images@) == subs_of(i, cfg)
    &&& (p.grid_cols, p.grid_rows) == grid_made(i, cfg)
}

fn sub_from_dynamic(img: &image::DynamicImage, new_h: usize, new_w: usize) -> (r: SubImage<u8>)
    requires
        resample_fits(
            image_of(*img).width as int,
            image_of(*img).height as int,
            new_w as int,
            new_h as int,
        ),
    ensures
        r@ == sub_of(image_of(*img), new_h as int, new_w as int),
{
    let small = resize_exact(img, new_w as u32, new_h as u32);
    proof {
        let (a, b) = (new_h as int, new_w as int);
        assert(a * b == b * a) by (nonlinear_arith);
    }
    let rgb = rgb_bytes(&small);
    let pixels = planes(&rgb, new_h, new_w);
    SubImage { pixels, h: new_h, w: new_w }
}

/// The grid that is chosen has tiles, and no more than are allowed.
proof fn grid_has_tiles(w: int, h: int, cfg: VisionConfig)
    requires
        cfg.max_tiles <= usize::MAX,
    ensures
        ({
            let g = grid_of(w, h, cfg);
            &&& g.0 >= 1
            &&& g.1 >= 1
            &&& g.0 * g.1 <= usize::MAX
        }),
{
    let list = grids(cfg.min_tiles as int, cfg.max_tiles as int);
    let ar = crate::binary64::num_of(w).over(crate::binary64::num_of(h));
    let area = crate::binary64::num_of(w * h);
    closest_is_offered(ar, list, area, cfg.tile_size as int);
    let g = grid_of(w, h, cfg);
    if list.contains(g) {
        every_grid_is_offered(cfg.min_tiles as int, cfg.max_tiles as int, g);
    } else {
        assert(g.0 * g.1 == 1) by (nonlinear_arith)
            requires
                g.0 == 1,
                g.1 == 1,
        ;
    }
}

proof fn closest_is_offered(
    ar: crate::binary64::Num,
    list: Seq<(usize, usize)>,
    area: crate::binary64::Num,
    tile_size: int,
)
    ensures
        ({
            let g = closest(ar, list, area, tile_size).1;
            list.contains(g) || g == (1usize, 1usize)
        }),
    decreases list.len(),
{
    if list.len() > 0 {
        let init = list.drop_last();
        closest_is_offered(ar, init, area, tile_size);
        let g = closest(ar, init, area, tile_size).1;
        if init.contains(g) {
            let i = choose|i: int| 0 <= i < init.len() && init[i] == g;
            assert(list[i] == g);
        }
        assert(list[list.len() - 1] == list.last());
    }
}

fn cut_tiles(big: &image::DynamicImage, c: usize, r: usize, t: usize) -> (out: Vec<SubImage<u8>>)
    requires
        1 <= c,
        c * r <= usize::MAX,
        image_of(*big).width == t * c,
        image_of(*big).height == t * r,
        resample_fits(t as int, t as int, t as int, t as int),
    ensures
        subs_view(out@) == tiles_of(image_of(*big), c as int, c * r, t as int),
{
    let n: usize = c * r;
    let mut out: Vec<SubImage<u8>> = Vec::new();
    let mut k: usize = 0;
    assert(subs_view(out@) =~= tiles_of(image_of(*big), c as int, 0, t as int));
    while k < n
        invariant
            k <= n,
            n == c * r,
            1 <= c,
            image_of(*big).width == t * c,
            image_of(*big).height == t * r,
            resample_fits(t as int, t as int, t as int, t as int),
            subs_view(out@) == tiles_of(image_of(*big), c as int, k as int, t as int),
        decreases n - k,
    {
        proof {
            tile_within(k as int, c as int, r as int, t as int);
        }
        let x: usize = (k % c) * t;
        let y: usize = (k / c) * t;
        let tile = crop_imm(big, x as u32, y as u32, t as u32, t as u32);
        let ghost before = subs_view(out@);
        let sub = sub_from_dynamic(&tile, t, t);
        out.push(sub);
        k = k + 1;
        assert(subs_view(out@) =~= before.push(sub@));
        assert(subs_view(out@) =~= tiles_of(image_of(*big), c as int, k as int, t as int));
    }
    out
}

proof fn tile_within(k: int, c: int, r: int, t: int)
    requires
        0 <= k < c * r,
        1 <= c,
        0 <= t,
        0 <= r,
    ensures
        0 <= (k % c) * t,
        (k % c) * t + t <= t * c,
        0 <= (k / c) * t,
        (k / c) * t + t <= t * r,
{
    vstd::arithmetic::div_mod::lemma_fundamental_div_mod(k, c);
    let q = k / c;
    let m = k % c;
    assert(0 <= q < r) by (nonlinear_arith)
        requires
            k == c * q + m,
            0 <= m < c,
            0 <= k < c * r,
            1 <= c,
    ;
    assert(0 <= m * t && m * t + t <= t * c) by (nonlinear_arith)
        requires
            0 <= m < c,
            0 <= t,
    ;
    assert(0 <= q * t && q * t + t <= t * r) by (nonlinear_arith)
        requires
            0 <= q < r,
            0 <= t,
    ;
}

fn prepare(img: &image::DynamicImage, cfg: &VisionConfig) -> (r: Prepared<u8>)
    requires
        plan_fits(image_of(*img).width as int, image_of(*img).height as int, *cfg),
    ensures
        is_prepared(r, image_of(*img), *cfg),
{
    let (w, h) = (width_of(img), height_of(img));
    let plan: ImagePlan = image_plan(w, h, cfg);
    match plan.grid {
        Some(g) => {
            let (c, r) = g;
            proof {
                grid_has_tiles(w as int, h as int, *cfg);
            }
            let t: usize = cfg.tile_size;
            let big = resize_exact(img, (t * c) as u32, (t * r) as u32);
            let mut sub_images = cut_tiles(&big, c, r, t);
            if cfg.use_thumbnail && !(c == 1 && r == 1) {
                let ghost tiles = subs_view(sub_images@);
                let whole = sub_from_dynamic(img, plan.new_h, plan.new_w);
                sub_images.push(whole);
                assert(subs_view(sub_images@) =~= tiles + seq![whole@]);
            }
            Prepared { sub_images, grid_cols: c, grid_rows: r }
        },
        None => {
            let mut sub_images: Vec<SubImage<u8>> = Vec::new();
            let whole = sub_from_dynamic(img, plan.new_h, plan.new_w);
            sub_images.push(whole);
            assert(subs_view(sub_images@) =~= seq![whole@]);
            Prepared { sub_images, grid_cols: 1, grid_rows: 1 }
        },
    }
}

/// An image made ready, unless it has too many pixels.
pub fn preprocess(img: &image::DynamicImage, cfg: &VisionConfig) -> (r: Result<
    Prepared<u8>,
    String,
>)
    requires
        image_of(*img).width * image_of(*img).height <= MAX_DIMENSION_PIXELS ==> plan_fits(
            image_of(*img).width as int,
            image_of(*img).height as int,
            *cfg,
        ),
    ensures
        ({
            let i = image_of(*img);
            match r {
                Ok(p) => i.width * i.height <= MAX_DIMENSION_PIXELS && is_prepared(p, i, *cfg),
                Err(e) => i.width * i.height > MAX_DIMENSION_PIXELS && e@ == too_many_pixels(
                    i.width as nat,
                    i.height as nat,
                ),
            }
        }),
{
    match check_pixels(width_of(img), height_of(img)) {
        Ok(_) => Ok(prepare(img, cfg)),
        Err(e) => Err(e),
    }
}

/// What a decoded image, or the reason why there is none, gives: the image made
/// ready; an error's text where there is no image or it has too many pixels;
/// nothing where the numbers on its way do not fit the machine.
pub open spec fn is_finished(
    r: Result<Option<Prepared<u8>>, String>,
    decoded: Result<ImageV, ImageFaultV>,
    cfg: VisionConfig,
) -> bool {
    match decoded {
        Err(fault) => r is Err && r->Err_0@ == fault_text(fault),
        Ok(i) => if i.width * i.height > MAX_DIMENSION_PIXELS {
            r is Err && r->Err_0@ == too_many_pixels(i.width as nat, i.height as nat)
        } else if !plan_fits(i.width as int, i.height as int, cfg) {
            r matches Ok(None)
        } else {
            r matches Ok(Some(p)) && is_prepared(p, i, cfg)
        },
    }
}

/// What decoding an image has come to.
pub open spec fn decoded_view(decoded: Result<image::DynamicImage, ImageFault>) -> Result<
    ImageV,
    ImageFaultV,
> {
    match decoded {
        Ok(img) => Ok(image_of(img)),
        Err(fault) => Err(fault@),
    }
}

/// What a decoded image, or the reason why there is none, gives.
pub fn preprocess_decoded(
    decoded: Result<image::DynamicImage, ImageFault>,
    cfg: &VisionConfig,
) -> (r: Result<Option<Prepared<u8>>, String>)
    ensures
        is_finished(r, decoded_view(decoded), *cfg),
{
    let img = match decoded {
        Ok(img) => img,
        Err(fault) => {
            return Err(map_image_err(&fault));
        },
    };
    let (w, h) = (width_of(&img), height_of(&img));
    match check_pixels(w, h) {
        Ok(_) => {},
        Err(e) => {
            return Err(e);
        },
    }
    if !plan_is_possible(w, h, cfg) {
        return Ok(None);
    }
    Ok(Some(prepare(&img, cfg)))
}

/// What reading an image's header has come to.
pub open spec fn header_view(header: Result<(u32, u32), ImageFault>) -> Result<
    (u32, u32),
    ImageFaultV,
> {
    match header {
        Ok(size) => Ok(size),
        Err(fault) => Err(fault@),
    }
}

/// Why an image is not decoded: its header cannot be read, or gives too many
/// pixels; nothing where it is.
pub open spec fn header_refusal(header: Result<(u32, u32), ImageFaultV>) -> Option<Seq<char>> {
    match header {
        Err(fault) => Some(fault_text(fault)),
        Ok(size) => if size.0 * size.1 > MAX_DIMENSION_PIXELS {
            Some(too_many_pixels(size.0 as nat, size.1 as nat))
        } else {
            None
        },
    }
}

/// Whether an image is decoded, by what reading its header has come to.
pub fn check_header(header: Result<(u32, u32), ImageFault>) -> (r: Result<(), String>)
    ensures
        match header_refusal(header_view(header)) {
            Some(why) => r is Err && r->Err_0@ == why,
            None => r is Ok,
        },
{
    match header {
        Ok(size) => check_pixels(size.0, size.1),
        Err(fault) => Err(map_image_err(&fault)),
    }
}

/// What an image file gives, by what reading its header and decoding it have
/// come to: where the header refuses it, that; else what the decoded image gives.
pub open spec fn is_loaded(
    r: Result<Option<Prepared<u8>>, String>,
    header: Result<(u32, u32), ImageFaultV>,
    decoded: Result<ImageV, ImageFaultV>,
    cfg: VisionConfig,
) -> bool {
    match header_refusal(header) {
        Some(why) => r is Err && r->Err_0@ == why,
        None => is_finished(r, decoded, cfg),
    }
}

/// What the bytes of an image file give, whatever reading the header and decoding
/// come to. Nothing is decoded where the header refuses it.
pub fn load_and_preprocess_from_bytes(data: &[u8], cfg: &VisionConfig) -> (r: Result<
    Option<Prepared<u8>>,
    String,
>)
    ensures
        exists|header: Result<(u32, u32), ImageFaultV>, decoded: Result<ImageV, ImageFaultV>|
            is_loaded(r, header, decoded, *cfg),
{
    let header = header_size(data);
    let ghost read = header_view(header);
    match check_header(header) {
        Ok(_) => {},
        Err(e) => {
            let r: Result<Option<Prepared<u8>>, String> = Err(e);
            assert(is_loaded(r, read, Err(ImageFaultV::Unsupported), *cfg));
            return r;
        },
    }
    let decoded = load_from_memory(data);
    let ghost outcome = decoded_view(decoded);
    let r = preprocess_decoded(decoded, cfg);
    assert(is_loaded(r, read, outcome, *cfg));
    r
}

/// A tile holds its own part of the image: the one in line `y` and column `x` of
/// the grid begins as many tiles below the image's upper edge and as many right
/// of its left edge; and the tiles come line by line.
pub proof fn tiles_hold_their_parts(big: ImageV, c: int, r: int, t: int, x: int, y: int)
    requires
        0 <= x < c,
        0 <= y < r,
    ensures
        0 <= y * c + x < c * r,
        tiles_of(big, c, c * r, t).len() == c * r,
        tiles_of(big, c, c * r, t)[y * c + x] == sub_of(
            cropped(big, x * t, y * t, t as u32, t as u32),
            t,
            t,
        ),
        tiles_of(big, c, c * r, t)[y * c + x].h == t,
        tiles_of(big, c, c * r, t)[y * c + x].w == t,
{
    let k = y * c + x;
    assert(0 <= k < c * r) by (nonlinear_arith)
        requires
            k == y * c + x,
            0 <= x < c,
            0 <= y < r,
    ;
    vstd::arithmetic::div_mod::lemma_fundamental_div_mod_converse(k, c, y, x);
}

/// An image that is not cut is one sub-image, of the sides of the whole. One that
/// is has a sub-image for each tile of its grid, all of the tiles' side, and
/// behind them the whole image where a thumbnail is wanted.
pub proof fn sub_images_are_tiles_and_the_whole(i: ImageV, cfg: VisionConfig)
    requires
        cfg.max_tiles <= usize::MAX,
    ensures
        ({
            let (w, h) = (i.width as int, i.height as int);
            let subs = subs_of(i, cfg);
            let (c, r) = grid_made(i, cfg);
            let whole = sub_of(i, whole_sides(w, h, cfg).0, whole_sides(w, h, cfg).1);
            let n = if splits(w, h, cfg) {
                c * r
            } else {
                0
            };
            &&& !splits(w, h, cfg) ==> (c, r) == (1usize, 1usize) && subs == seq![whole]
            &&& splits(w, h, cfg) ==> {
                &&& subs.len() == c * r + (if cfg.use_thumbnail && c * r > 1 {
                    1int
                } else {
                    0
                })
                &&& cfg.use_thumbnail && c * r > 1 ==> subs.last() == whole
            }
            &&& forall|k: int|
                0 <= k < n ==> (#[trigger] subs[k]).h == cfg.tile_size && subs[k].w
                    == cfg.tile_size
        }),
{
    let (w, h) = (i.width as int, i.height as int);
    if splits(w, h, cfg) {
        let (c, r) = grid_of(w, h, cfg);
        let t = cfg.tile_size as int;
        grid_has_tiles(w, h, cfg);
        crate::vision_plan::one_tile_needs_no_thumbnail((c, r), cfg);
        let tiles = tiles_of(resampled(i, (t * c) as u32, (t * r) as u32), c as int, c * r, t);
        assert(c * r >= 0) by (nonlinear_arith);
        assert(tiles.len() == c * r);
        let subs = subs_of(i, cfg);
        assert forall|k: int| 0 <= k < c * r implies (#[trigger] subs[k]).h == cfg.tile_size
            && subs[k].w == cfg.tile_size by {
            assert(subs[k] == tiles[k]);
        }
    }
}

/// The tokens of sub-images taken in two parts are those of the parts together,
/// and one sub-image has those of its own grid.
pub proof fn tokens_add_up<P>(a: Seq<SubImageV<P>>, b: Seq<SubImageV<P>>, cfg: VisionConfig)
    ensures
        tokens_of(a + b, cfg) == tokens_of(a, cfg) + tokens_of(b, cfg),
        b.len() == 1 ==> tokens_of(b, cfg) == cfg.grid_tokens(
            b[0].h / cfg.patch_size as int,
            b[0].w / cfg.patch_size as int,
        ),
    decreases b.len(),
{
    if b.len() == 0 {
        assert(a + b =~= a);
    } else {
        tokens_add_up(a, b.drop_last(), cfg);
        assert((a + b).drop_last() =~= a + b.drop_last());
        assert((a + b).last() == b.last());
        if b.len() == 1 {
            assert(b.drop_last() =~= Seq::empty());
        }
    }
}

/// A part of an image is as wide and as high as asked for, and its pixels are
/// those of the image that many columns and lines further on.
pub proof fn parts_are_cut_out(
    i: ImageV,
    x: int,
    y: int,
    width: u32,
    height: u32,
    a: int,
    b: int,
)
    requires
        0 <= x,
        0 <= y,
        y + height <= i.rows.len(),
        0 <= a < width,
        0 <= b < height,
        x + width <= i.rows[y + b].len(),
    ensures
        cropped(i, x, y, width, height).width == width,
        cropped(i, x, y, width, height).height == height,
        cropped(i, x, y, width, height).rows.len() == height,
        cropped(i, x, y, width, height).rows[b][a] == i.rows[y + b][x + a],
{
}

/// The values of a sub-image stand channel by channel: where a channel's plane has
/// a pixel, the resampled image has that pixel's value of that channel.
pub proof fn planes_are_of_one_channel(i: ImageV, h: int, w: int, p: int, c: int)
    requires
        0 <= p < h * w,
        0 <= c < 3,
    ensures
        sub_of(i, h, w).h == h,
        sub_of(i, h, w).w == w,
        sub_of(i, h, w).pixels.len() == 3 * (h * w),
        sub_of(i, h, w).pixels[c * (h * w) + p] == rgb_of(resampled(i, w as u32, h as u32))[3 * p
            + c],
{
    let n = h * w;
    crate::vision_layout::planes_hold_their_channels(p, c, n);
    assert(0 <= c * n + p < 3 * n) by (nonlinear_arith)
        requires
            0 <= p < n,
            0 <= c < 3,
    ;
}

/// A header refuses exactly the images of too many pixels, whichever side is the
/// longer, and one that cannot be read is always refused.
pub proof fn only_large_images_are_refused(w: u32, h: u32, fault: ImageFaultV)
    ensures
        header_refusal(Ok((w, h))) is None <==> w * h <= MAX_DIMENSION_PIXELS,
        header_refusal(Ok((w, h))) is None <==> header_refusal(Ok((h, w))) is None,
        header_refusal(Err(fault)) is Some,
{
    assert(w * h == h * w) by (nonlinear_arith);
}

/// An image that is made ready has its own grid: one by one where it is not cut,
/// else the chosen one, with a tile for each of its places and the whole behind
/// them where that is wanted.
pub proof fn prepared_images_have_their_grid(p: Prepared<u8>, i: ImageV, cfg: VisionConfig)
    requires
        is_prepared(p, i, cfg),
    ensures
        ({
            let (w, h) = (i.width as int, i.height as int);
            let (c, r) = (p.grid_cols, p.grid_rows);
            &&& !splits(w, h, cfg) ==> c == 1 && r == 1 && p.sub_images@.len() == 1
            &&& splits(w, h, cfg) ==> {
                &&& (c, r) == grid_of(w, h, cfg)
                &&& p.sub_images@.len() == c * r + (if cfg.use_thumbnail && c * r > 1 {
                    1int
                } else {
                    0
                })
            }
        }),
{
    sub_images_are_tiles_and_the_whole(i, cfg);
    assert(subs_view(p.sub_images@).len() == p.sub_images@.len());
}

} // verus!
