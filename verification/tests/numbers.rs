//! Numbers: the binary64 arithmetic against the machine's, and lattice indices.

use hipfire::binary64::{
    from_bits, round_half_even, round_int, Binary64, Finite, Signed, LEAST, LIMIT,
};
use hipfire::e8::{decode_index, encode_index};

fn number(x: f64) -> Binary64 {
    from_bits(x.to_bits()).size
}

fn next(state: &mut u64) -> u64 {
    *state = state.wrapping_mul(6364136223846793005).wrapping_add(1442695040888963407);
    *state >> 11
}

fn samples() -> Vec<f64> {
    let mut state = 0x5eed_u64;
    let mut out = vec![
        0.0, 0.5, 1.0, 1.5, 2.5, 3.0, 0.1, 7.0, 48.0, 343.0, 65536.0, 1e-9, 1e9, 262144.0,
        4503599627370496.0, 9007199254740993.0,
    ];
    for _ in 0..200 {
        let a = next(&mut state) as f64;
        let b = (next(&mut state) % 1000 + 1) as f64;
        out.push((a % 100000.0) / b);
    }
    out
}

#[test]
fn whole_numbers_are_exact() {
    for n in [0u64, 1, 2, 3, 10, 65536, LEAST - 1, LEAST, LIMIT - 1, LIMIT] {
        assert_eq!(Binary64::of(n), number(n as f64), "{n}");
    }
    assert_eq!(Binary64::of(LIMIT + 1), number((LIMIT + 1) as f64));
    assert_eq!(Binary64::half(), number(0.5));
    assert_eq!(round_int(3, 0), Finite { m: 3 << 51, e: -51 });
}

#[test]
fn quotients_of_multiples_are_exact() {
    for (k, f) in [(1, 1), (3, 32), (262_144, 32), (7, 1_000_003), (LEAST - 1, 2)] {
        let q = Binary64::of(k * f).over(Binary64::of(f));
        assert_eq!(q, Binary64::of(k));
        assert_eq!(round_half_even(Signed { negative: false, size: q }), k as i64);
    }
}

#[test]
fn quotients_products_and_roots_round_as_the_machine_does() {
    let xs = samples();
    for &x in &xs {
        assert_eq!(number(x).root(), number(x.sqrt()), "root {x}");
        assert_eq!(number(x).floor(), number(x.floor()), "floor {x}");
        assert_eq!(number(x).ceil(), number(x.ceil()), "ceil {x}");
    }
    for pair in xs.windows(2) {
        let (a, b) = (pair[0], pair[1]);
        assert_eq!(number(a).times(number(b)), number(a * b), "{a} * {b}");
        assert_eq!(number(a).apart_from(number(b)), number((a - b).abs()), "|{a} - {b}|");
        assert_eq!(number(a).below(number(b)), a < b, "{a} < {b}");
        assert_eq!(number(a).equals(number(b)), a == b, "{a} == {b}");
        assert_eq!(number(a).or_greater(number(b)), number(a.max(b)), "max {a} {b}");
        if b != 0.0 {
            assert_eq!(number(a).over(number(b)), number(a / b), "{a} / {b}");
        }
    }
}

#[test]
fn numbers_narrow_to_single_precision() {
    for x in [0.0f64, 1.0, 0.1, 2.0, 1.1, 3.3333333333, 100000.7] {
        assert_eq!(number(x).narrowed(), number((x as f32) as f64), "{x}");
    }
}

#[test]
fn what_is_no_number_stays_none() {
    assert_eq!(number(f64::NAN), Binary64::Nan);
    assert_eq!(number(f64::INFINITY), Binary64::Infinite);
    assert_eq!(Binary64::of(0).over(Binary64::of(0)), Binary64::Nan);
    assert_eq!(Binary64::of(1).over(Binary64::of(0)), Binary64::Infinite);
    assert!(!Binary64::Nan.below(Binary64::of(1)));
    assert!(!Binary64::Nan.equals(Binary64::Nan));
}

#[test]
fn sizes_drop_the_fraction() {
    assert_eq!(number(2.9).size(), 2);
    assert_eq!(number(0.4).size(), 0);
    assert_eq!(number(1e30).size(), usize::MAX);
}

#[test]
fn round_half_even_matches_python() {
    let round = |x: f64| round_half_even(from_bits(x.to_bits()));
    assert_eq!(round(0.5), 0);
    assert_eq!(round(1.5), 2);
    assert_eq!(round(2.5), 2);
    assert_eq!(round(3.5), 4);
    assert_eq!(round(-0.5), 0);
    assert_eq!(round(10.4), 10);
    assert_eq!(round(10.6), 11);
}

#[test]
fn negative_halves_round_to_even_too() {
    let round = |x: f64| round_half_even(from_bits(x.to_bits()));
    assert_eq!(round(-1.5), -2);
    assert_eq!(round(-2.5), -2);
    assert_eq!(round(-10.6), -11);
}

/// The nearest point of the lattice by its doubled coordinates, found by trying
/// both of its halves.
fn nearest_point(v: &[f32; 8]) -> [i32; 8] {
    let even = |x: &[f32; 8]| -> [i32; 8] {
        let mut p = [0i32; 8];
        let mut worst = 0usize;
        let mut gap = -1.0f32;
        let mut sum = 0i32;
        for i in 0..8 {
            p[i] = x[i].round() as i32;
            sum += p[i];
            let d = (x[i] - p[i] as f32).abs();
            if d > gap {
                gap = d;
                worst = i;
            }
        }
        if sum % 2 != 0 {
            p[worst] += if x[worst] >= p[worst] as f32 { 1 } else { -1 };
        }
        p
    };
    let whole = even(v);
    let mut shifted = *v;
    for x in &mut shifted {
        *x -= 0.5;
    }
    let half = even(&shifted);
    let mut near = [0i32; 8];
    let mut far = [0i32; 8];
    let mut a = 0.0f32;
    let mut b = 0.0f32;
    for i in 0..8 {
        near[i] = 2 * whole[i];
        far[i] = 2 * half[i] + 1;
        a += (v[i] - near[i] as f32 / 2.0).powi(2);
        b += (v[i] - far[i] as f32 / 2.0).powi(2);
    }
    if a <= b {
        near
    } else {
        far
    }
}

#[test]
fn index_roundtrip() {
    let mut state = 0xdeadbeef_cafebabeu64;
    let mut failures = 0usize;
    for _ in 0..500_000 {
        let mut v = [0.0f32; 8];
        for x in &mut v {
            state = state.wrapping_mul(6364136223846793005).wrapping_add(1442695040888963407);
            let hi = (state >> 32) as u32;
            *x = ((hi as f32 / (u32::MAX as f32)) * 2.0 - 1.0) * 6.0;
        }
        let idx = encode_index(&nearest_point(&v));
        let p = decode_index(idx);
        let idx2 = encode_index(&p);
        if idx != idx2 {
            failures += 1;
        }
    }
    assert_eq!(failures, 0, "bijection failures: {failures}");
}

#[test]
fn every_index_comes_back() {
    for idx in [0u32, 1, 7, 8, 0xffff, 0x1234_5678, 0x8000_0000, u32::MAX] {
        assert_eq!(encode_index(&decode_index(idx)), idx);
    }
    let mut state = 3u64;
    for _ in 0..10_000 {
        let idx = next(&mut state) as u32;
        assert_eq!(encode_index(&decode_index(idx)), idx);
    }
}

#[test]
fn a_decoded_point_is_of_the_lattice() {
    for idx in [0u32, 5, 99, 0xabcdef, 0xffff_ffff, 0x8000_0001] {
        let p = decode_index(idx);
        let odd = p[0].rem_euclid(2);
        assert!(p.iter().all(|c| c.rem_euclid(2) == odd), "one half throughout");
        assert_eq!(p.iter().sum::<i32>().rem_euclid(4), 0, "even sum");
    }
}
