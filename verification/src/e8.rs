//! Codewords for points of the E8 lattice. A point is given by its coordinates
//! doubled: all are even, or all are odd, and the whole numbers below them have
//! an even sum.

use vstd::prelude::*;

verus! {

/// What is added to a coordinate so that it is not negative.
pub const COORD_BIAS: i32 = 7;

/// The whole number nearest to half of `d`; of two, the one farther from zero.
pub open spec fn half_away(d: int) -> int {
    if d % 2 == 0 {
        d / 2
    } else if d > 0 {
        (d + 1) / 2
    } else {
        (d - 1) / 2
    }
}

/// Whether a point's coordinates are halves: one where they are, else zero.
pub open spec fn coset_of(p: Seq<i32>) -> int {
    p[0] as int % 2
}

/// A coordinate with its bias, held between zero and fifteen.
#[verifier::opaque]
pub open spec fn biased(d: int, coset: int) -> int {
    let n = half_away(d - coset) + COORD_BIAS;
    if n < 0 {
        0
    } else if n > 15 {
        15
    } else {
        n
    }
}

/// The sum of the first seven coordinates with their bias.
pub open spec fn sum_of_seven(p: Seq<i32>) -> int {
    let c = coset_of(p);
    biased(p[0] as int, c) + biased(p[1] as int, c) + biased(p[2] as int, c) + biased(
        p[3] as int,
        c,
    ) + biased(p[4] as int, c) + biased(p[5] as int, c) + biased(p[6] as int, c)
}

/// The last coordinate with its bias, moved by one where the sum is odd.
pub open spec fn last_of(p: Seq<i32>) -> int {
    let n = biased(p[7] as int, coset_of(p));
    if (sum_of_seven(p) + n) % 2 == 0 {
        n
    } else if n < 15 {
        n + 1
    } else {
        n - 1
    }
}

/// Seven coordinates of four bits each, three bits of the last one, and the
/// coset, put together.
pub open spec fn joined(
    e0: int,
    e1: int,
    e2: int,
    e3: int,
    e4: int,
    e5: int,
    e6: int,
    high: int,
    coset: int,
) -> int {
    e0 + 0x10 * e1 + 0x100 * e2 + 0x1000 * e3 + 0x1_0000 * e4 + 0x10_0000 * e5 + 0x100_0000 * e6
        + 0x1000_0000 * high + 0x8000_0000 * coset
}

/// The codeword of a point: seven coordinates of four bits each, the last one
/// without its lowest bit, and the coset.
pub open spec fn codeword(p: Seq<i32>) -> int {
    let c = coset_of(p);
    joined(
        biased(p[0] as int, c),
        biased(p[1] as int, c),
        biased(p[2] as int, c),
        biased(p[3] as int, c),
        biased(p[4] as int, c),
        biased(p[5] as int, c),
        biased(p[6] as int, c),
        last_of(p) / 2,
        c,
    )
}

fn round_half(d: i32) -> (r: i32)
    requires
        -0x4000_0000 <= d <= 0x4000_0000,
    ensures
        r == half_away(d as int),
{
    if d % 2 == 0 {
        d / 2
    } else if d > 0 {
        (d + 1) / 2
    } else {
        (d - 1) / 2
    }
}

fn bias(d: i32, coset: u32) -> (r: u32)
    requires
        -0x2000_0000 <= d <= 0x2000_0000,
        coset <= 1,
    ensures
        r == biased(d as int, coset as int),
        r <= 15,
{
    proof {
        reveal(biased);
    }
    let n: i32 = round_half(d - coset as i32) + COORD_BIAS;
    if n < 0 {
        0
    } else if n > 15 {
        15
    } else {
        n as u32
    }
}

/// The coordinates are such that their arithmetic fits the machine.
pub open spec fn coords_fit(p: Seq<i32>) -> bool {
    &&& p.len() == 8
    &&& forall|i: int| 0 <= i < 8 ==> -0x2000_0000 <= #[trigger] p[i] <= 0x2000_0000
}

/// The codeword of a point, by its doubled coordinates.
pub fn encode_index(p: &[i32; 8]) -> (r: u32)
    requires
        coords_fit(p@),
    ensures
        r == codeword(p@),
{
    let coset: u32 = if p[0] % 2 == 0 {
        0
    } else {
        1
    };
    let e0: u32 = bias(p[0], coset);
    let e1: u32 = bias(p[1], coset);
    let e2: u32 = bias(p[2], coset);
    let e3: u32 = bias(p[3], coset);
    let e4: u32 = bias(p[4], coset);
    let e5: u32 = bias(p[5], coset);
    let e6: u32 = bias(p[6], coset);
    let e7: u32 = bias(p[7], coset);
    let last: u32 = if (e0 + e1 + e2 + e3 + e4 + e5 + e6 + e7) % 2 == 0 {
        e7
    } else if e7 < 15 {
        e7 + 1
    } else {
        e7 - 1
    };
    e0 + 0x10 * e1 + 0x100 * e2 + 0x1000 * e3 + 0x1_0000 * e4 + 0x10_0000 * e5 + 0x100_0000 * e6
        + 0x1000_0000 * (last / 2) + 0x8000_0000 * coset
}

/// The coordinate at `i` of a codeword, with its bias.
pub open spec fn digit(word: int, i: int) -> int {
    if i == 0 {
        word % 16
    } else if i == 1 {
        word / 0x10 % 16
    } else if i == 2 {
        word / 0x100 % 16
    } else if i == 3 {
        word / 0x1000 % 16
    } else if i == 4 {
        word / 0x1_0000 % 16
    } else if i == 5 {
        word / 0x10_0000 % 16
    } else if i == 6 {
        word / 0x100_0000 % 16
    } else {
        let high = 2 * (word / 0x1000_0000 % 8);
        high + (digits_sum(word) + high) % 2
    }
}

/// The sum of the first seven coordinates of a codeword.
pub open spec fn digits_sum(word: int) -> int {
    word % 16 + word / 0x10 % 16 + word / 0x100 % 16 + word / 0x1000 % 16 + word / 0x1_0000 % 16
        + word / 0x10_0000 % 16 + word / 0x100_0000 % 16
}

/// The doubled coordinate at `i` of the point of a codeword.
pub open spec fn coordinate(word: int, i: int) -> int {
    2 * (digit(word, i) - COORD_BIAS) + word / 0x8000_0000
}

fn unbias(e: u32, coset: u32) -> (r: i32)
    requires
        e <= 15,
        coset <= 1,
    ensures
        r == 2 * (e - COORD_BIAS) + coset,
{
    2 * (e as i32 - COORD_BIAS) + coset as i32
}

/// The point of a codeword, by its doubled coordinates.
pub fn decode_index(idx: u32) -> (r: [i32; 8])
    ensures
        forall|i: int| 0 <= i < 8 ==> #[trigger] r@[i] == coordinate(idx as int, i),
{
    let coset: u32 = idx / 0x8000_0000;
    let e0: u32 = idx % 16;
    let e1: u32 = idx / 0x10 % 16;
    let e2: u32 = idx / 0x100 % 16;
    let e3: u32 = idx / 0x1000 % 16;
    let e4: u32 = idx / 0x1_0000 % 16;
    let e5: u32 = idx / 0x10_0000 % 16;
    let e6: u32 = idx / 0x100_0000 % 16;
    let high: u32 = 2 * (idx / 0x1000_0000 % 8);
    let e7: u32 = high + (e0 + e1 + e2 + e3 + e4 + e5 + e6 + high) % 2;
    [
        unbias(e0, coset),
        unbias(e1, coset),
        unbias(e2, coset),
        unbias(e3, coset),
        unbias(e4, coset),
        unbias(e5, coset),
        unbias(e6, coset),
        unbias(e7, coset),
    ]
}

/// Whether doubled coordinates are those of a point of the lattice.
pub open spec fn is_point(p: Seq<i32>) -> bool {
    &&& p.len() == 8
    &&& forall|i: int| 0 <= i < 8 ==> (#[trigger] p[i]) as int % 2 == coset_of(p)
    &&& (p[0] + p[1] + p[2] + p[3] + p[4] + p[5] + p[6] + p[7] - 8 * coset_of(p)) / 2 % 2 == 0
}

/// Whether a point's coordinates are within what a codeword holds.
pub open spec fn in_range(p: Seq<i32>) -> bool {
    forall|i: int| 0 <= i < 8 ==> -14 <= #[trigger] p[i] - coset_of(p) <= 16
}

proof fn split_word(
    a0: int,
    a1: int,
    a2: int,
    a3: int,
    a4: int,
    a5: int,
    a6: int,
    h: int,
    c: int,
    w: int,
)
    requires
        0 <= a0 < 16,
        0 <= a1 < 16,
        0 <= a2 < 16,
        0 <= a3 < 16,
        0 <= a4 < 16,
        0 <= a5 < 16,
        0 <= a6 < 16,
        0 <= h < 8,
        0 <= c < 2,
        w == joined(a0, a1, a2, a3, a4, a5, a6, h, c),
    ensures
        0 <= w <= u32::MAX,
        w % 16 == a0,
        w / 0x10 % 16 == a1,
        w / 0x100 % 16 == a2,
        w / 0x1000 % 16 == a3,
        w / 0x1_0000 % 16 == a4,
        w / 0x10_0000 % 16 == a5,
        w / 0x100_0000 % 16 == a6,
        w / 0x1000_0000 % 8 == h,
        w / 0x8000_0000 == c,
{
    let w1 = a1 + 0x10 * a2 + 0x100 * a3 + 0x1000 * a4 + 0x1_0000 * a5 + 0x10_0000 * a6 + 0x100_0000
        * h + 0x800_0000 * c;
    assert(w / 0x10 == w1);
    let w2 = a2 + 0x10 * a3 + 0x100 * a4 + 0x1000 * a5 + 0x1_0000 * a6 + 0x10_0000 * h + 0x80_0000
        * c;
    assert(w / 0x100 == w2);
    let w3 = a3 + 0x10 * a4 + 0x100 * a5 + 0x1000 * a6 + 0x1_0000 * h + 0x8_0000 * c;
    assert(w / 0x1000 == w3);
    let w4 = a4 + 0x10 * a5 + 0x100 * a6 + 0x1000 * h + 0x8000 * c;
    assert(w / 0x1_0000 == w4);
    let w5 = a5 + 0x10 * a6 + 0x100 * h + 0x800 * c;
    assert(w / 0x10_0000 == w5);
    let w6 = a6 + 0x10 * h + 0x80 * c;
    assert(w / 0x100_0000 == w6);
    assert(w / 0x1000_0000 == h + 8 * c);
}

/// The parts of a codeword make it up.
proof fn join_word(w: int)
    requires
        0 <= w <= u32::MAX,
    ensures
        w == joined(
            w % 16,
            w / 0x10 % 16,
            w / 0x100 % 16,
            w / 0x1000 % 16,
            w / 0x1_0000 % 16,
            w / 0x10_0000 % 16,
            w / 0x100_0000 % 16,
            w / 0x1000_0000 % 8,
            w / 0x8000_0000,
        ),
{
    assert(w / 0x10 / 0x10 == w / 0x100);
    assert(w / 0x100 / 0x10 == w / 0x1000);
    assert(w / 0x1000 / 0x10 == w / 0x1_0000);
    assert(w / 0x1_0000 / 0x10 == w / 0x10_0000);
    assert(w / 0x10_0000 / 0x10 == w / 0x100_0000);
    assert(w / 0x100_0000 / 0x10 == w / 0x1000_0000);
    assert(w / 0x1000_0000 / 8 == w / 0x8000_0000);
}

/// The point of a codeword, as a sequence.
pub open spec fn point(word: int) -> Seq<i32> {
    Seq::new(8, |i: int| coordinate(word, i) as i32)
}

proof fn digit_bounds(w: int, i: int)
    ensures
        0 <= digit(w, i) <= 15,
{
}

proof fn bias_returns(d: int, c: int)
    requires
        0 <= d <= 15,
        0 <= c <= 1,
    ensures
        biased(2 * (d - COORD_BIAS) + c, c) == d,
{
    reveal(biased);
}

proof fn bias_goes(x: int, c: int)
    requires
        0 <= c <= 1,
        x % 2 == c,
        -14 <= x - c <= 16,
    ensures
        2 * (biased(x, c) - COORD_BIAS) + c == x,
        0 <= biased(x, c) <= 15,
{
    reveal(biased);
}

proof fn point_at(w: int, i: int)
    requires
        0 <= w <= u32::MAX,
        0 <= i < 8,
    ensures
        point(w)[i] == 2 * (digit(w, i) - COORD_BIAS) + w / 0x8000_0000,
        0 <= w / 0x8000_0000 <= 1,
        biased(point(w)[i] as int, w / 0x8000_0000) == digit(w, i),
        point(w)[i] as int % 2 == w / 0x8000_0000,
        -14 <= point(w)[i] - w / 0x8000_0000 <= 16,
{
    digit_bounds(w, i);
    bias_returns(digit(w, i), w / 0x8000_0000);
}

/// Every codeword is that of its own point: encoding undoes decoding.
pub proof fn encoding_undoes_decoding(word: u32)
    ensures
        codeword(point(word as int)) == word,
{
    let w = word as int;
    let p = point(w);
    join_word(w);
    point_at(w, 0);
    point_at(w, 1);
    point_at(w, 2);
    point_at(w, 3);
    point_at(w, 4);
    point_at(w, 5);
    point_at(w, 6);
    point_at(w, 7);
    assert(coset_of(p) == w / 0x8000_0000);
    assert(sum_of_seven(p) == digits_sum(w));
    let high = w / 0x1000_0000 % 8;
    assert(digit(w, 7) == 2 * high + (digits_sum(w) + 2 * high) % 2);
    assert((digits_sum(w) + digit(w, 7)) % 2 == 0);
    assert(last_of(p) == digit(w, 7));
    assert(digit(w, 7) / 2 == high);
}

/// What a codeword stands for is a point of the lattice.
pub proof fn decoding_gives_a_point(word: u32)
    ensures
        is_point(point(word as int)),
        in_range(point(word as int)),
{
    let w = word as int;
    let p = point(w);
    let c = w / 0x8000_0000;
    point_at(w, 0);
    point_at(w, 1);
    point_at(w, 2);
    point_at(w, 3);
    point_at(w, 4);
    point_at(w, 5);
    point_at(w, 6);
    point_at(w, 7);
    assert(coset_of(p) == c);
    assert forall|i: int| 0 <= i < 8 implies (#[trigger] p[i]) as int % 2 == coset_of(p) by {
        point_at(w, i);
    }
    assert forall|i: int| 0 <= i < 8 implies -14 <= #[trigger] p[i] - coset_of(p) <= 16 by {
        point_at(w, i);
    }
    let high = w / 0x1000_0000 % 8;
    assert(digit(w, 7) == 2 * high + (digits_sum(w) + 2 * high) % 2);
    assert((digits_sum(w) + digit(w, 7)) % 2 == 0);
}

/// The last coordinate of a point within range is not moved.
proof fn last_stays(p: Seq<i32>)
    requires
        is_point(p),
        in_range(p),
    ensures
        last_of(p) == biased(p[7] as int, coset_of(p)),
        (sum_of_seven(p) + last_of(p)) % 2 == 0,
{
    let c = coset_of(p);
    bias_goes(p[0] as int, c);
    bias_goes(p[1] as int, c);
    bias_goes(p[2] as int, c);
    bias_goes(p[3] as int, c);
    bias_goes(p[4] as int, c);
    bias_goes(p[5] as int, c);
    bias_goes(p[6] as int, c);
    bias_goes(p[7] as int, c);
    let total = sum_of_seven(p) + biased(p[7] as int, c);
    let sum = p[0] + p[1] + p[2] + p[3] + p[4] + p[5] + p[6] + p[7] - 8 * c;
    assert(sum == 2 * (total - 56));
    assert(sum / 2 == total - 56);
}

/// The digits of a codeword of a point within range are its coordinates with
/// their bias.
proof fn digits_of_codeword(p: Seq<i32>)
    requires
        is_point(p),
        in_range(p),
    ensures
        0 <= codeword(p) <= u32::MAX,
        codeword(p) / 0x8000_0000 == coset_of(p),
        digit(codeword(p), 0) == biased(p[0] as int, coset_of(p)),
        digit(codeword(p), 1) == biased(p[1] as int, coset_of(p)),
        digit(codeword(p), 2) == biased(p[2] as int, coset_of(p)),
        digit(codeword(p), 3) == biased(p[3] as int, coset_of(p)),
        digit(codeword(p), 4) == biased(p[4] as int, coset_of(p)),
        digit(codeword(p), 5) == biased(p[5] as int, coset_of(p)),
        digit(codeword(p), 6) == biased(p[6] as int, coset_of(p)),
        digit(codeword(p), 7) == biased(p[7] as int, coset_of(p)),
{
    let c = coset_of(p);
    last_stays(p);
    bias_goes(p[0] as int, c);
    bias_goes(p[1] as int, c);
    bias_goes(p[2] as int, c);
    bias_goes(p[3] as int, c);
    bias_goes(p[4] as int, c);
    bias_goes(p[5] as int, c);
    bias_goes(p[6] as int, c);
    bias_goes(p[7] as int, c);
    digits_of_word(
        biased(p[0] as int, c),
        biased(p[1] as int, c),
        biased(p[2] as int, c),
        biased(p[3] as int, c),
        biased(p[4] as int, c),
        biased(p[5] as int, c),
        biased(p[6] as int, c),
        biased(p[7] as int, c),
        c,
        codeword(p),
    );
}

proof fn digits_of_word(
    a0: int,
    a1: int,
    a2: int,
    a3: int,
    a4: int,
    a5: int,
    a6: int,
    a7: int,
    c: int,
    w: int,
)
    requires
        0 <= a0 < 16,
        0 <= a1 < 16,
        0 <= a2 < 16,
        0 <= a3 < 16,
        0 <= a4 < 16,
        0 <= a5 < 16,
        0 <= a6 < 16,
        0 <= a7 < 16,
        0 <= c < 2,
        (a0 + a1 + a2 + a3 + a4 + a5 + a6 + a7) % 2 == 0,
        w == joined(a0, a1, a2, a3, a4, a5, a6, a7 / 2, c),
    ensures
        0 <= w <= u32::MAX,
        w / 0x8000_0000 == c,
        digit(w, 0) == a0,
        digit(w, 1) == a1,
        digit(w, 2) == a2,
        digit(w, 3) == a3,
        digit(w, 4) == a4,
        digit(w, 5) == a5,
        digit(w, 6) == a6,
        digit(w, 7) == a7,
{
    split_word(a0, a1, a2, a3, a4, a5, a6, a7 / 2, c, w);
    last_digit(digits_sum(w), a7, w);
}

proof fn last_digit(sum: int, a7: int, w: int)
    requires
        0 <= a7 < 16,
        (sum + a7) % 2 == 0,
        sum == digits_sum(w),
        w / 0x1000_0000 % 8 == a7 / 2,
    ensures
        digit(w, 7) == a7,
{
    let high = 2 * (a7 / 2);
    assert((sum + high) % 2 == a7 % 2);
}

/// A point within range is that of its codeword: decoding undoes encoding.
pub proof fn decoding_undoes_encoding(p: Seq<i32>)
    requires
        is_point(p),
        in_range(p),
    ensures
        0 <= codeword(p) <= u32::MAX,
        point(codeword(p)) == p,
{
    digits_of_codeword(p);
    let q = point(codeword(p));
    assert forall|i: int| 0 <= i < 8 implies #[trigger] q[i] == p[i] by {
        bias_goes(p[i] as int, coset_of(p));
        point_at(codeword(p), i);
        assert(i == 0 || i == 1 || i == 2 || i == 3 || i == 4 || i == 5 || i == 6 || i == 7);
    }
    assert(q =~= p);
}

} // verus!
