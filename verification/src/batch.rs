//! Batched-prefill chunk math and the padded row counts of the grouped GEMM.

use vstd::arithmetic::div_mod::*;
use vstd::arithmetic::mul::*;
use vstd::prelude::*;

verus! {

/// Row-tile granularity of the grouped kernels.
pub const MOE_GROUPED_BLOCK_M: usize = 16;

/// Default prompt chunk. A larger chunk raises the number of tokens per expert
/// and shrinks the padding waste.
pub const MAPLE_PREFILL_CHUNK: usize = 256;

/// Hard scratch ceiling: a batched forward refuses more rows than this.
pub const MAPLE_PREFILL_MAX_B: usize = 512;

/// `n / d` rounded up.
pub open spec fn ceil_div(n: int, d: int) -> int {
    (n + d - 1) / d
}

/// The least multiple of `a` that is no less than `x`.
pub open spec fn aligned(x: int, a: int) -> int {
    ceil_div(x, a) * a
}

/// Whether `m` is a multiple of `a`.
pub open spec fn is_multiple(m: int, a: int) -> bool {
    m % a == 0
}

/// The lesser of two numbers.
pub open spec fn lesser(a: int, b: int) -> int {
    if a <= b {
        a
    } else {
        b
    }
}

/// `aligned` is what its name says: a multiple, no less than `x`, and the least such.
pub proof fn aligned_is_least_multiple(x: int, a: int)
    requires
        0 <= x,
        0 < a,
    ensures
        is_multiple(aligned(x, a), a),
        x <= aligned(x, a) < x + a,
        forall|m: int| x <= m && #[trigger] is_multiple(m, a) ==> aligned(x, a) <= m,
{
    let q = ceil_div(x, a);
    lemma_fundamental_div_mod(x + a - 1, a);
    lemma_mul_is_commutative(q, a);
    lemma_mod_multiples_basic(q, a);
    assert forall|m: int| x <= m && #[trigger] is_multiple(m, a) implies aligned(x, a) <= m by {
        lemma_fundamental_div_mod(m, a);
        let k = m / a;
        if k < q {
            assert(a * k <= a * (q - 1)) by (nonlinear_arith)
                requires
                    k <= q - 1,
                    0 < a,
            ;
            assert(a * (q - 1) == a * q - a) by (nonlinear_arith);
            assert(false);
        }
        assert(q * a <= a * k) by (nonlinear_arith)
            requires
                q <= k,
                0 < a,
        ;
    }
}

fn align_up(x: usize, a: usize) -> (r: usize)
    requires
        0 < a,
        aligned(x as int, a as int) <= usize::MAX,
    ensures
        r == aligned(x as int, a as int),
{
    let rem: usize = x % a;
    let q: usize = x / a;
    proof {
        lemma_fundamental_div_mod(x as int, a as int);
        lemma_mul_is_commutative(a as int, x as int / a as int);
        aligned_is_least_multiple(x as int, a as int);
    }
    if rem == 0 {
        proof {
            assert(is_multiple(x as int, a as int));
        }
        x
    } else {
        proof {
            let m = x + (a - rem);
            assert(m == (q + 1) * a) by (nonlinear_arith)
                requires
                    x == q * a + rem,
                    m == x + (a - rem),
            ;
            lemma_mod_multiples_basic(q as int + 1, a as int);
            assert(is_multiple(m, a as int));
            let t = aligned(x as int, a as int);
            let k = ceil_div(x as int, a as int);
            assert(t <= m);
            assert(k == q + 1) by (nonlinear_arith)
                requires
                    k * a == t,
                    t <= m,
                    m == (q + 1) * a,
                    x <= t,
                    x == q * a + rem,
                    0 < rem,
                    0 < a,
            ;
        }
        x + (a - rem)
    }
}

/// Padded row count of a dense (single-expert) grouped GEMM over `b` rows.
pub fn dense_m_total(b: usize) -> (r: usize)
    requires
        aligned(b as int, MOE_GROUPED_BLOCK_M as int) <= usize::MAX,
    ensures
        r == aligned(b as int, MOE_GROUPED_BLOCK_M as int),
{
    align_up(b, MOE_GROUPED_BLOCK_M)
}

/// The scattered slots of a grouped GEMM with the worst padding that its live
/// experts can add: every live expert wastes at most a tile less one slot, and
/// no more experts are live than there are slots.
pub open spec fn worst_padded_slots(total_slots: int, n_exp: int) -> int {
    total_slots + lesser(total_slots, n_exp) * (MOE_GROUPED_BLOCK_M - 1)
}

/// Upper bound on the padded scattered-slot count.
pub fn moe_grouped_m_total_bound(total_slots: usize, n_exp: usize) -> (r: usize)
    requires
        aligned(
            worst_padded_slots(total_slots as int, n_exp as int),
            MOE_GROUPED_BLOCK_M as int,
        ) <= usize::MAX,
    ensures
        r == aligned(
            worst_padded_slots(total_slots as int, n_exp as int),
            MOE_GROUPED_BLOCK_M as int,
        ),
{
    let live: usize = if total_slots <= n_exp {
        total_slots
    } else {
        n_exp
    };
    proof {
        aligned_is_least_multiple(
            worst_padded_slots(total_slots as int, n_exp as int),
            MOE_GROUPED_BLOCK_M as int,
        );
    }
    align_up(total_slots + live * (MOE_GROUPED_BLOCK_M - 1), MOE_GROUPED_BLOCK_M)
}

/// The slots that an expert with `n` rows occupies: whole tiles.
pub open spec fn expert_slots(n: int) -> int {
    aligned(n, MOE_GROUPED_BLOCK_M as int)
}

/// The sum of a sequence of row counts.
pub open spec fn total(rows: Seq<int>) -> int
    decreases rows.len(),
{
    if rows.len() == 0 {
        0
    } else {
        total(rows.drop_last()) + rows.last()
    }
}

/// The slots that all experts occupy together, each padded to whole tiles.
pub open spec fn padded_total(rows: Seq<int>) -> int
    decreases rows.len(),
{
    if rows.len() == 0 {
        0
    } else {
        padded_total(rows.drop_last()) + expert_slots(rows.last())
    }
}

/// However the slots fall on the experts, the padded layout fits into the bound.
pub proof fn grouped_bound_covers_every_distribution(rows: Seq<int>)
    requires
        forall|i: int| 0 <= i < rows.len() ==> 0 <= #[trigger] rows[i],
    ensures
        padded_total(rows) <= worst_padded_slots(total(rows), rows.len() as int),
        padded_total(rows) <= aligned(
            worst_padded_slots(total(rows), rows.len() as int),
            MOE_GROUPED_BLOCK_M as int,
        ),
    decreases rows.len(),
{
    padded_within(rows);
    aligned_is_least_multiple(
        worst_padded_slots(total(rows), rows.len() as int),
        MOE_GROUPED_BLOCK_M as int,
    );
}

proof fn padded_within(rows: Seq<int>)
    requires
        forall|i: int| 0 <= i < rows.len() ==> 0 <= #[trigger] rows[i],
    ensures
        0 <= total(rows),
        padded_total(rows) <= worst_padded_slots(total(rows), rows.len() as int),
    decreases rows.len(),
{
    if rows.len() > 0 {
        let init = rows.drop_last();
        assert forall|i: int| 0 <= i < init.len() implies 0 <= #[trigger] init[i] by {
            assert(init[i] == rows[i]);
        }
        padded_within(init);
        let n = rows[rows.len() - 1];
        aligned_is_least_multiple(n, MOE_GROUPED_BLOCK_M as int);
    }
}

/// Chunk `i` of `n` tokens taken `chunk` at a time: where it starts, and its length.
pub open spec fn chunk_at(n: int, chunk: int, i: int) -> (int, int) {
    (i * chunk, lesser(chunk, n - i * chunk))
}

/// Splits `n_tokens` into `(start, len)` chunks of at most `chunk`.
pub fn prefill_chunks(n_tokens: usize, chunk: usize) -> (out: Vec<(usize, usize)>)
    requires
        0 < chunk,
    ensures
        out@.len() == ceil_div(n_tokens as int, chunk as int),
        forall|i: int|
            0 <= i < out@.len() ==> {
                let c = chunk_at(n_tokens as int, chunk as int, i);
                (#[trigger] out@[i]).0 == c.0 && out@[i].1 == c.1
            },
{
    let mut out: Vec<(usize, usize)> = Vec::new();
    let mut start: usize = 0;
    assert(0 * chunk == 0) by (nonlinear_arith);
    while start < n_tokens
        invariant
            0 < chunk,
            start <= n_tokens,
            start == lesser(n_tokens as int, out@.len() * chunk),
            out@.len() > 0 ==> (out@.len() - 1) * chunk < n_tokens,
            forall|i: int|
                0 <= i < out@.len() ==> {
                    let c = chunk_at(n_tokens as int, chunk as int, i);
                    (#[trigger] out@[i]).0 == c.0 && out@[i].1 == c.1
                },
        decreases n_tokens - start,
    {
        let left: usize = n_tokens - start;
        let n: usize = if chunk <= left {
            chunk
        } else {
            left
        };
        let ghost k = out@.len();
        assert((k + 1) * chunk == k * chunk + chunk) by (nonlinear_arith);
        out.push((start, n));
        start = start + n;
    }
    proof {
        let k = out@.len() as int;
        let n = n_tokens as int;
        let c = chunk as int;
        assert(k * c >= n);
        assert(ceil_div(n, c) == k) by {
            lemma_fundamental_div_mod(n + c - 1, c);
            let q = (n + c - 1) / c;
            if k > 0 {
                assert((k - 1) * c == k * c - c) by (nonlinear_arith);
            }
            assert(q == k) by (nonlinear_arith)
                requires
                    n + c - 1 == c * q + (n + c - 1) % c,
                    0 <= (n + c - 1) % c < c,
                    k * c >= n,
                    k > 0 ==> k * c - c < n,
                    k == 0 ==> n <= 0,
                    0 <= n,
                    0 <= k,
                    0 < c,
            ;
        }
    }
    out
}

/// The chunks tile the prompt exactly and in order: the first starts at zero,
/// each is not empty and starts where the one before it ends, and the last
/// ends at the prompt's end.
pub proof fn chunks_tile_the_prompt(n: int, chunk: int)
    requires
        0 <= n,
        0 < chunk,
    ensures
        ceil_div(n, chunk) == 0 <==> n == 0,
        n > 0 ==> chunk_at(n, chunk, 0).0 == 0,
        forall|i: int|
            0 <= i < ceil_div(n, chunk) ==> {
                let c = #[trigger] chunk_at(n, chunk, i);
                &&& 0 < c.1 <= chunk
                &&& c.0 + c.1 == (if i + 1 < ceil_div(n, chunk) {
                    chunk_at(n, chunk, i + 1).0
                } else {
                    n
                })
            },
{
    let k = ceil_div(n, chunk);
    lemma_fundamental_div_mod(n + chunk - 1, chunk);
    assert(k == 0 <==> n == 0) by (nonlinear_arith)
        requires
            n + chunk - 1 == chunk * k + (n + chunk - 1) % chunk,
            0 <= (n + chunk - 1) % chunk < chunk,
            0 <= n,
            0 < chunk,
    ;
    assert forall|i: int| 0 <= i < k implies {
        let c = #[trigger] chunk_at(n, chunk, i);
        &&& 0 < c.1 <= chunk
        &&& c.0 + c.1 == (if i + 1 < k {
            chunk_at(n, chunk, i + 1).0
        } else {
            n
        })
    } by {
        assert((i + 1) * chunk == i * chunk + chunk) by (nonlinear_arith);
        assert(i * chunk <= (k - 1) * chunk) by (nonlinear_arith)
            requires
                i <= k - 1,
                0 < chunk,
        ;
        assert((k - 1) * chunk == chunk * k - chunk) by (nonlinear_arith);
        if i + 1 < k {
            assert((i + 1) * chunk <= (k - 1) * chunk) by (nonlinear_arith)
                requires
                    i + 1 <= k - 1,
                    0 < chunk,
            ;
        }
    }
}

/// The slot-index table of a dense grouped GEMM over `b` rows: the rows in
/// order, then `-1` up to the padded row count.
pub fn dense_slot_index_host(b: usize) -> (out: Vec<i32>)
    requires
        b <= i32::MAX,
        aligned(b as int, MOE_GROUPED_BLOCK_M as int) <= usize::MAX,
    ensures
        out@.len() == aligned(b as int, MOE_GROUPED_BLOCK_M as int),
        forall|i: int|
            0 <= i < out@.len() ==> #[trigger] out@[i] == (if i < b {
                i
            } else {
                -1
            }),
{
    let n: usize = dense_m_total(b);
    let mut out: Vec<i32> = Vec::new();
    let mut i: usize = 0;
    proof {
        aligned_is_least_multiple(b as int, MOE_GROUPED_BLOCK_M as int);
    }
    while i < n
        invariant
            i <= n,
            b <= n,
            b <= i32::MAX,
            out@.len() == i,
            forall|j: int|
                0 <= j < i ==> #[trigger] out@[j] == (if j < b {
                    j
                } else {
                    -1
                }),
        decreases n - i,
    {
        if i < b {
            out.push(i as i32);
        } else {
            out.push(-1);
        }
        i = i + 1;
    }
    out
}

/// The bound is reached, so that no less would do: as many experts as there are
/// slots, with one each, fill it.
pub proof fn the_grouped_bound_is_reached(n: nat)
    ensures
        total(Seq::new(n, |i: int| 1int)) == n,
        padded_total(Seq::new(n, |i: int| 1int)) == worst_padded_slots(n as int, n as int),
    decreases n,
{
    let rows = Seq::new(n, |i: int| 1int);
    if n > 0 {
        the_grouped_bound_is_reached((n - 1) as nat);
        assert(rows.drop_last() =~= Seq::new((n - 1) as nat, |i: int| 1int));
        assert(rows.last() == 1);
        aligned_is_least_multiple(1, MOE_GROUPED_BLOCK_M as int);
        assert(is_multiple(16, 16));
        assert(expert_slots(1) == 16) by {
            assert(16int / 16int == 1);
        }
    }
}

} // verus!
