//! The vision tower: sizes, tiles, patches, and the tensors and passes it takes.

use hipfire::binary64::{from_bits, Binary64};
use hipfire::vision::{
    concat_qkv, linear_f16, load_f32_cpu, load_vision_weights, patch_layout, patch_weight_rows,
    position_side, tower_and_project_sub_image, vision_forward, FloatBits, LinearRoute,
    PatchLayout, VisionMatrix, VisionOp, VisionUse,
};
use hipfire::vision_config::{vision_config, vision_config_from_hfq, NoHeads, VisionConfig};
use hipfire::vision_image::{round_by_factor, smart_resize};
use hipfire::vision_layout::{folded_kernel, patch_rows, pixel_unshuffle_tokens, planes};
use hipfire::vision_plan::{check_pixels, image_plan, plan_is_possible, ImagePlan};
use hipfire::vision_prepare::{
    check_header, load_and_preprocess_from_bytes, map_image_err, preprocess, preprocess_decoded,
    ImageFault, Prepared, SubImage,
};
use hipfire::vision_tiles::{find_closest_aspect_ratio, is_too_large, ratio, target_ratios};

#[test]
fn defaults_match_pinned_checkpoint() {
    let c = VisionConfig::default();
    assert_eq!(c.hidden_size, 1152);
    assert_eq!(c.head_dim, 72);
    assert_eq!(c.num_layers, 27);
    assert_eq!(c.mlp_dim, 4304);
    assert_eq!(c.downsample_factor, 2);
    assert_eq!(c.tokens_per_tile(), 256);
    assert_eq!(c.tokens_for_grid(32, 32), 256);
    assert_eq!(c.tokens_for_grid(10, 26), 65);
}

#[test]
fn smart_resize_bounds_and_factors() {
    let (h, w) = smart_resize(100, 100, 32, 64, 256, 16, 2);
    let beta = (65_536_f64 / 10_000_f64).sqrt();
    let eh = (100.0 * beta / 32.0).ceil() as usize * 32;
    assert_eq!((h, w), (eh, eh));
    assert_eq!(h % 32, 0);

    let (h, w) = smart_resize(4000, 3000, 32, 64, 256, 16, 2);
    assert_eq!(h % 32, 0);
    assert_eq!(w % 32, 0);
    assert!(h as u64 * w as u64 <= 262_144);
}

#[test]
fn banker_rounding_flip_case() {
    let (_, w) = smart_resize(10, 80, 32, 1, 262_144_000, 16, 2);
    assert_eq!(w % 32, 0);
    let number = |x: f64| from_bits(x.to_bits()).size;
    assert_eq!(round_by_factor(number(80.0), 32), 64);
    assert_eq!(round_by_factor(number(112.0), 32), 128);
    assert_eq!(round_by_factor(number(111.9), 32), 96);
}

#[test]
fn resizing_a_size_again_changes_nothing() {
    let resize = |h: usize, w: usize| smart_resize(h, w, 32, 64, 256, 16, 2);
    let mut within = 0;
    for (h, w) in [(100, 100), (4000, 3000), (480, 640), (500, 500), (31, 900), (1, 1)] {
        let (a, b) = resize(h, w);
        if (64 * 1024..=256 * 1024).contains(&(a * b)) {
            assert_eq!(resize(a, b), (a, b));
            within += 1;
        }
    }
    assert!(within >= 4);
}

fn reference_resize(h: usize, w: usize, tf: usize, min: usize, max: usize) -> (usize, usize) {
    let round = |x: f64| {
        let q = x / tf as f64;
        let f = q.floor();
        let d = q - f;
        let even = (f as i64) % 2 == 0;
        let n = if d > 0.5 || (d == 0.5 && !even) { f as i64 + 1 } else { f as i64 };
        n * tf as i64
    };
    let mut bh = round(h as f64).max(tf as i64) as usize;
    let mut bw = round(w as f64).max(tf as i64) as usize;
    if bh * bw > max {
        let beta = ((h * w) as f64 / max as f64).sqrt();
        bh = ((h as f64 / beta / tf as f64).floor() as usize * tf).max(tf);
        bw = ((w as f64 / beta / tf as f64).floor() as usize * tf).max(tf);
    } else if bh * bw < min {
        let beta = (min as f64 / (h * w) as f64).sqrt();
        bh = (h as f64 * beta / tf as f64).ceil() as usize * tf;
        bw = (w as f64 * beta / tf as f64).ceil() as usize * tf;
    }
    (bh, bw)
}

#[test]
fn sizes_agree_with_floating_point() {
    for h in [1usize, 7, 33, 100, 343, 511, 512, 777, 1024, 3000] {
        for w in [1usize, 16, 80, 112, 343, 640, 1023, 4000] {
            assert_eq!(
                smart_resize(h, w, 32, 64, 256, 16, 2),
                reference_resize(h, w, 32, 64 * 1024, 256 * 1024),
                "{h} x {w}"
            );
        }
    }
    assert_eq!(smart_resize(7, 343, 32, 64, 256, 16, 2).1, 1824);
}

#[test]
fn tokens_count_single_and_split() {
    let cfg = VisionConfig::default();
    let s = SubImage { pixels: vec![0.0f32; 3 * 512 * 512], h: 512, w: 512 };
    assert_eq!(cfg.tokens_for_grid(s.gh(&cfg), s.gw(&cfg)), 256);
    let p = Prepared { sub_images: vec![s], grid_cols: 1, grid_rows: 1 };
    assert_eq!(p.total_tokens(&cfg), 256);
}

#[test]
fn patches_layout_is_dy_dx_channel() {
    let cfg = VisionConfig::default();
    let ps = cfg.patch_size;
    let h = ps;
    let w = ps * 2;
    let mut pixels = vec![0.0f32; 3 * h * w];
    for c in 0..3 {
        for y in 0..h {
            for x in 0..w {
                pixels[c * h * w + y * w + x] = (c * 10_000 + y * 100 + x) as f32;
            }
        }
    }
    let s = SubImage { pixels, h, w };
    let p = s.patches(&cfg);
    assert_eq!(p.len(), 2 * ps * ps * 3);
    assert_eq!(p[(1 * ps * ps + 1 * ps + 0) * 3 + 0], 116.0);
    assert_eq!(p[(0 * ps * ps + 0 * ps + 1) * 3 + 2], 20_001.0);
}

#[test]
fn pixel_unshuffle_index_contract() {
    let gh = 2;
    let gw = 2;
    let ch = 2;
    let mut feat = vec![0.0f32; gh * gw * ch];
    for r in 0..gh {
        for c in 0..gw {
            for cc in 0..ch {
                feat[(r * gw + c) * ch + cc] = (100 * r + 10 * c + cc) as f32;
            }
        }
    }
    let out = pixel_unshuffle_tokens(&feat, gh, gw, ch, 2);
    assert_eq!(out.len(), 1 * ch * 4);
    assert_eq!(out[(0 * 2 * 2) + (0 * 2) + 0] as usize, 0);
    assert_eq!(out[(0 * 2 * 2) + (1 * 2) + 0] as usize, 10);
    assert_eq!(out[(1 * 2 * 2) + (0 * 2) + 0] as usize, 100);
    assert_eq!(out[(1 * 2 * 2) + (1 * 2) + 1] as usize, 111);
}

#[test]
fn a_kernel_is_folded_and_pixels_are_parted_by_channel() {
    // One row, two channels of two by one: channels go innermost.
    let folded = folded_kernel(&vec![1, 2, 3, 4], 1, 2, 2, 1);
    assert_eq!(folded, vec![1, 3, 2, 4]);
    assert_eq!(planes(&vec![1u8, 2, 3, 4, 5, 6], 1, 2), vec![1, 4, 2, 5, 3, 6]);
    assert_eq!(patch_rows(&vec![1u8, 2, 3, 4], 2, 2, 2, 1), vec![1, 2, 3, 4]);
}

#[test]
fn every_grid_within_the_limits_is_offered_by_its_area() {
    for (low, high) in [(1usize, 1usize), (1, 4), (2, 4), (2, 10), (4, 3)] {
        let mut want = Vec::new();
        for n in low..=high {
            for w in 1..=n {
                for h in 1..=n {
                    if (low..=high).contains(&(w * h)) {
                        want.push((w, h));
                    }
                }
            }
        }
        want.sort_by_key(|&(w, h)| w * h);
        want.dedup();
        assert_eq!(target_ratios(low, high), want);
    }
    let all = target_ratios(2, 4);
    assert!(all.contains(&(1, 2)) && all.contains(&(4, 1)) && all.contains(&(2, 2)));
    assert!(!all.contains(&(1, 1)) && !all.contains(&(3, 2)));
}

#[test]
fn the_closest_grid_is_taken_and_a_tie_goes_to_the_larger_where_it_pays() {
    let all = target_ratios(2, 10);
    let wide = ratio(2000, 1000);
    assert_eq!(wide, Binary64::of(2));
    let (w, h) = find_closest_aspect_ratio(wide, &all, 2000, 1000, 512);
    assert_eq!(w, 2 * h);
    assert_eq!(find_closest_aspect_ratio(ratio(10, 5), &all, 10, 5, 512), (2, 1));
}

#[test]
fn only_large_images_are_split() {
    let cfg = VisionConfig::default();
    assert!(!is_too_large(512, 512, &cfg));
    assert!(is_too_large(2000, 2000, &cfg));
    assert!(plan_is_possible(512, 512, &cfg));
    let one = image_plan(512, 512, &cfg);
    assert_eq!(one, ImagePlan { new_h: 512, new_w: 512, grid: None });
    let many = image_plan(2000, 1000, &cfg);
    let (cols, rows) = many.grid.unwrap();
    assert!(cols * rows >= cfg.min_tiles && cols * rows <= cfg.max_tiles);
}

#[test]
fn too_many_pixels_are_refused() {
    assert_eq!(check_pixels(4096, 4096), Ok(()));
    let err = check_pixels(4097, 4096).unwrap_err();
    assert!(err.contains("4097"), "got: {err}");
}

#[test]
fn faults_of_images_are_told_apart() {
    let a = map_image_err(&ImageFault::Unsupported);
    let b = map_image_err(&ImageFault::Decode("bad".to_owned()));
    let c = map_image_err(&ImageFault::Read("gone".to_owned()));
    assert!(b.contains("bad") && c.contains("gone"));
    assert!(a != b && b != c);
    assert!(load_and_preprocess_from_bytes(b"no image", &VisionConfig::default()).is_err());
}

/// A picture whose pixels tell where they are.
fn picture(w: u32, h: u32) -> image::DynamicImage {
    image::DynamicImage::ImageRgb8(image::RgbImage::from_fn(w, h, |x, y| {
        image::Rgb([(x % 251) as u8, (y % 241) as u8, 7])
    }))
}

#[test]
fn an_image_of_one_tile_keeps_its_pixels() {
    let cfg = VisionConfig::default();
    let p = preprocess(&picture(512, 512), &cfg).unwrap();
    assert_eq!(p.sub_images.len(), 1);
    assert_eq!((p.grid_cols, p.grid_rows), (1, 1));
    let s = &p.sub_images[0];
    assert_eq!((s.h, s.w), (512, 512));
    assert_eq!(s.pixels.len(), 3 * 512 * 512);
    // Channels lie one behind the other.
    assert_eq!(s.pixels[5 * 512 + 9], 9);
    assert_eq!(s.pixels[512 * 512 + 5 * 512 + 9], 5);
    assert_eq!(s.pixels[2 * 512 * 512], 7);
    assert_eq!(p.total_tokens(&cfg), 256);
}

#[test]
fn a_large_image_is_cut_into_tiles_with_a_thumbnail() {
    let cfg = VisionConfig::default();
    let p = preprocess(&picture(1400, 700), &cfg).unwrap();
    let tiles = p.grid_cols * p.grid_rows;
    assert!(tiles >= 2);
    assert_eq!(p.sub_images.len(), tiles + usize::from(cfg.use_thumbnail));
    for s in &p.sub_images[..tiles] {
        assert_eq!((s.h, s.w), (cfg.tile_size, cfg.tile_size));
    }
}

#[test]
fn an_encoded_image_is_decoded_and_prepared() {
    let cfg = VisionConfig::default();
    let mut bytes = std::io::Cursor::new(Vec::new());
    picture(512, 512).write_to(&mut bytes, image::ImageFormat::Png).unwrap();
    let p = load_and_preprocess_from_bytes(bytes.get_ref(), &cfg).unwrap().unwrap();
    assert_eq!(p.sub_images[0].pixels[3 * 512 + 4], 4);
}

#[test]
fn a_header_refuses_an_image_before_it_is_decoded() {
    assert_eq!(check_header(Ok((4096, 4096))), Ok(()));
    assert_eq!(
        check_header(Ok((50_000, 50_000))),
        Err("image dimensions (50000x50000) exceed maximum (16777216 pixels)".to_owned())
    );
    assert_eq!(
        check_header(Err(ImageFault::Unsupported)),
        Err("unsupported image format — supported: png, jpeg".to_owned())
    );
    assert_eq!(
        check_header(Err(ImageFault::Decode("bad".to_owned()))),
        Err("failed to decode image: bad".to_owned())
    );
    // Only the header of this file is whole, and it gives too many pixels.
    let mut bytes = std::io::Cursor::new(Vec::new());
    picture(8, 8).write_to(&mut bytes, image::ImageFormat::Png).unwrap();
    let mut png = bytes.into_inner();
    png[16..24].copy_from_slice(&[0, 0, 0xc3, 0x50, 0, 0, 0xc3, 0x50]);
    let crc = crc_of(&png[12..29]);
    png[29..33].copy_from_slice(&crc.to_be_bytes());
    png.truncate(60);
    assert_eq!(
        load_and_preprocess_from_bytes(&png, &VisionConfig::default()),
        Err("image dimensions (50000x50000) exceed maximum (16777216 pixels)".to_owned())
    );
}

/// The checksum of a part of a PNG file.
fn crc_of(bytes: &[u8]) -> u32 {
    !bytes.iter().fold(!0u32, |mut c, &b| {
        c ^= b as u32;
        for _ in 0..8 {
            c = if c & 1 == 1 { (c >> 1) ^ 0xedb8_8320 } else { c >> 1 };
        }
        c
    })
}

#[test]
fn a_decoded_image_is_prepared_or_the_fault_is_told() {
    let cfg = VisionConfig::default();
    let p = preprocess_decoded(Ok(picture(512, 512)), &cfg).unwrap().unwrap();
    assert_eq!(p, preprocess(&picture(512, 512), &cfg).unwrap());
    assert_eq!(
        preprocess_decoded(Err(ImageFault::Unsupported), &cfg),
        Err("unsupported image format — supported: png, jpeg".to_owned())
    );
    let wide = image::DynamicImage::ImageLuma8(image::GrayImage::new(16_777_217, 1));
    assert_eq!(
        preprocess_decoded(Ok(wide), &cfg),
        Err("image dimensions (16777217x1) exceed maximum (16777216 pixels)".to_owned())
    );
}

#[test]
fn a_side_is_resampled_only_where_every_pixel_has_a_neighbour() {
    let mut cfg = VisionConfig::default();
    cfg.do_image_splitting = false;
    cfg.min_image_tokens = 262_145;
    cfg.max_image_tokens = 600_000;
    let grown = image_plan(1_048_576, 1, &cfg);
    assert_eq!((grown.new_h, grown.new_w), (32, 16_777_248));
    assert!(plan_is_possible(1_048_576, 1, &cfg));
    cfg.min_image_tokens = 1;
    // The last of 8388610 columns would have no old pixel less than a step away.
    assert!(!plan_is_possible(8_388_610, 1, &cfg));
    assert!(plan_is_possible(8_388_608, 1, &cfg));
    let wide = image::DynamicImage::ImageLuma8(image::GrayImage::new(8_388_610, 1));
    assert_eq!(preprocess_decoded(Ok(wide), &cfg), Ok(None));
    // Shrunk to half or less, even longer sides are resampled.
    cfg.max_image_tokens = 256;
    assert!(image_plan(10_000_000, 1, &cfg).new_w <= 5_000_000);
    assert!(plan_is_possible(10_000_000, 1, &cfg));
}

#[test]
fn a_configuration_is_read_over_the_defaults() {
    let meta = "{\"config\":{\"vision_config\":{\"hidden_size\":96,\"num_attention_heads\":4,\
                \"num_hidden_layers\":2}}}";
    let c = vision_config_from_hfq(meta).unwrap().unwrap();
    assert_eq!(c.hidden_size, 96);
    assert_eq!(c.head_dim, 24);
    assert_eq!(c.num_layers, 2);
    assert_eq!(c.tile_size, 512);
    let eps = "{\"config\":{\"vision_config\":{\"layer_norm_eps\":0.25},\
               \"downsample_factor\":4,\"text_config\":{\"hidden_size\":7},\
               \"use_thumbnail\":false}}";
    let c = vision_config_from_hfq(eps).unwrap().unwrap();
    assert_eq!(f64::from_bits(c.norm_eps), 0.25);
    assert_eq!(c.downsample_factor, 4);
    assert_eq!(c.out_hidden_size, 7);
    assert!(!c.use_thumbnail);
    assert_eq!(vision_config_from_hfq("no document"), Ok(None));
    assert_eq!(vision_config(&serde_json::Value::Null), Ok(None));
    let none = "{\"config\":{\"vision_config\":{\"num_attention_heads\":0}}}";
    assert_eq!(vision_config_from_hfq(none), Err(NoHeads));
}

#[test]
fn floats_are_read_by_their_tier() {
    assert_eq!(
        load_f32_cpu(1, &vec![0x00, 0x3c, 0x00, 0xc0], 2),
        Some(FloatBits::Half(vec![0x3c00, 0xc000]))
    );
    assert_eq!(
        load_f32_cpu(2, &vec![0, 0, 0x80, 0x3f], 1),
        Some(FloatBits::Single(vec![0x3f80_0000]))
    );
    assert_eq!(load_f32_cpu(3, &vec![0, 0], 1), None);
}

#[test]
fn patch_weights_are_linear_or_convolutional() {
    assert_eq!(
        patch_layout(&vec![1152, 768]),
        Some(PatchLayout::Linear { out: 1152, in_dim: 768 })
    );
    assert_eq!(
        patch_layout(&vec![1152, 3, 16, 16]),
        Some(PatchLayout::Conv { out: 1152, channels: 3, kh: 16, kw: 16 })
    );
    assert_eq!(patch_layout(&vec![1152]), None);
}

#[test]
fn patch_weights_come_in_the_order_of_patch_rows() {
    // One output of two channels over a kernel of one line and two columns.
    let halves: Vec<u8> = vec![1, 0, 2, 0, 3, 0, 4, 0];
    assert_eq!(
        patch_weight_rows(1, &vec![1, 2, 1, 2], &halves),
        (FloatBits::Half(vec![1, 3, 2, 4]), 1, 4)
    );
    assert_eq!(
        patch_weight_rows(1, &vec![2, 2], &halves),
        (FloatBits::Half(vec![1, 2, 3, 4]), 2, 2)
    );
    assert_eq!(
        patch_weight_rows(2, &vec![1, 1], &vec![0, 0, 0x80, 0x3f]),
        (FloatBits::Single(vec![0x3f80_0000]), 1, 1)
    );
    assert_eq!(concat_qkv(vec![1], vec![2, 3], vec![4]), vec![1, 2, 3, 4]);
}

#[test]
fn the_tower_asks_for_its_tensors_in_order() {
    let cfg = VisionConfig::default();
    let tensors = load_vision_weights(&cfg);
    assert_eq!(tensors[0].taken, VisionUse::PatchRows);
    let stacked = tensors
        .iter()
        .find(|t| matches!(t.taken, VisionUse::Stacked { .. }))
        .unwrap();
    assert!(stacked.refusal(None).unwrap().contains(&stacked.name));
    assert_eq!(stacked.refusal(Some((1, &vec![1152, 1152]))), None);
    assert!(stacked.refusal(Some((2, &vec![1152, 1152]))).is_some());
    assert_eq!(position_side(&cfg), Some(16));
}

#[test]
fn the_projector_takes_the_rows_that_unshuffling_leaves() {
    let cfg = VisionConfig::default();
    let ops = tower_and_project_sub_image(&cfg, 32, 32);
    let at = ops.iter().position(|o| matches!(o, VisionOp::Unshuffle { .. })).unwrap();
    let next = ops[at..]
        .iter()
        .find(|o| matches!(o, VisionOp::Linear { matrix: VisionMatrix::Projector1, .. }))
        .unwrap();
    match next {
        VisionOp::Linear { in_dim, n, .. } => {
            assert_eq!(*n, 256);
            assert_eq!(*in_dim, 1152 * 4);
        }
        other => panic!("{other:?}"),
    }
    assert_eq!(linear_f16(true, false), LinearRoute::RowMajor);
}

#[test]
fn the_tower_makes_a_row_for_every_place_in_the_prompt() {
    let cfg = VisionConfig::default();
    let sub = |h: usize, w: usize| SubImage { pixels: Vec::<u8>::new(), h, w };
    let prepared = Prepared {
        sub_images: vec![sub(512, 512), sub(512, 512), sub(160, 416)],
        grid_cols: 2,
        grid_rows: 1,
    };
    let program = vision_forward(&cfg, &prepared);
    assert_eq!(program.side, 16);
    let rows: usize = program
        .sub_images
        .iter()
        .map(|ops| match ops.last() {
            Some(VisionOp::Linear { matrix: VisionMatrix::Projector2, n, .. }) => *n,
            other => panic!("{other:?}"),
        })
        .sum();
    assert_eq!(rows, 256 + 256 + 65);
    assert_eq!(rows, prepared.total_tokens(&cfg));
}
