//! Maple's decode state: how large its buffers are, and how many tokens its
//! key-value cache holds.

use crate::batch::{ceil_div, lesser};
use crate::dtype::DType;
use crate::maple_config::MapleConfig;
use crate::maple_forward::{decode_attention_ops, head_ops, moe_ops};
use crate::maple_load::LayerTiers;
use vstd::prelude::*;

verus! {

/// How many rows of a batch flash attention works on at a time.
pub const FLASH_PREFILL_SUBBATCH: usize = 64;

/// The key-value window that is allocated unless a larger one is asked for.
pub const DEFAULT_MAX_SEQ: usize = 32_768;

/// What a reset asks of the device.
#[derive(Debug, Clone, Copy, PartialEq, Eq, Structural)]
pub enum ResetAction {
    /// Zero the key-value buffers of all layers.
    ClearKv,
}

/// The lengths of the state's buffers, in 32-bit floats.
#[derive(Debug, Clone, Copy, PartialEq, Eq, Structural)]
pub struct StateSizes {
    pub h: usize,
    pub normed: usize,
    pub fa_q: usize,
    pub fa_k: usize,
    pub fa_v: usize,
    pub fa_attn_out: usize,
    pub router_logits: usize,
    pub topk_indices: usize,
    pub topk_weights: usize,
    pub gate_batch: usize,
    pub up_batch: usize,
    pub act_batch: usize,
    pub down_expanded: usize,
    pub final_norm_buf: usize,
    pub logits: usize,
    pub flash_partials: usize,
}

/// The partial results of flash attention: for each head and each tile of the
/// window a maximum, a sum and a head's output, for every row of a sub-batch.
pub open spec fn flash_partials_of(cfg: &MapleConfig, max_seq: int) -> int {
    cfg.num_attention_heads * ceil_div(max_seq, 128) * (2 + cfg.head_dim) * FLASH_PREFILL_SUBBATCH
}

/// The buffers fit the machine.
pub open spec fn state_fits(cfg: &MapleConfig, max_seq: int) -> bool {
    &&& cfg.wf()
    &&& cfg.num_experts_per_tok * cfg.moe_intermediate_size <= usize::MAX
    &&& cfg.num_experts_per_tok * cfg.hidden_size <= usize::MAX
    &&& max_seq + 127 <= usize::MAX
    &&& cfg.num_attention_heads * ceil_div(max_seq, 128) <= usize::MAX
    &&& 2 + cfg.head_dim <= usize::MAX
    &&& cfg.num_attention_heads * ceil_div(max_seq, 128) * (2 + cfg.head_dim) <= usize::MAX
    &&& flash_partials_of(cfg, max_seq) <= usize::MAX
}

/// The lengths that a window of `max_seq` tokens asks for.
pub open spec fn sizes_are(s: StateSizes, cfg: &MapleConfig, max_seq: int) -> bool {
    &&& s.h == cfg.hidden_size
    &&& s.normed == cfg.hidden_size
    &&& s.fa_q == cfg.num_attention_heads * cfg.head_dim
    &&& s.fa_k == cfg.num_key_value_heads * cfg.head_dim
    &&& s.fa_v == cfg.num_key_value_heads * cfg.head_dim
    &&& s.fa_attn_out == cfg.num_attention_heads * cfg.head_dim
    &&& s.router_logits == cfg.num_experts
    &&& s.topk_indices == cfg.num_experts_per_tok
    &&& s.topk_weights == cfg.num_experts_per_tok
    &&& s.gate_batch == cfg.num_experts_per_tok * cfg.moe_intermediate_size
    &&& s.up_batch == cfg.num_experts_per_tok * cfg.moe_intermediate_size
    &&& s.act_batch == cfg.num_experts_per_tok * cfg.moe_intermediate_size
    &&& s.down_expanded == cfg.num_experts_per_tok * cfg.hidden_size
    &&& s.final_norm_buf == cfg.hidden_size
    &&& s.logits == cfg.vocab_size
    &&& s.flash_partials == flash_partials_of(cfg, max_seq)
}

/// The decode state of one conversation.
#[derive(Debug, PartialEq, Eq)]
pub struct MapleState {
    pub max_seq: usize,
    pub n_tokens: usize,
    pub sizes: StateSizes,
}

impl MapleState {
    /// A state with the default window, or the model's where that is smaller.
    pub fn new(cfg: &MapleConfig) -> (r: MapleState)
        requires
            state_fits(
                cfg,
                lesser(cfg.max_position_embeddings as int, DEFAULT_MAX_SEQ as int),
            ),
        ensures
            r.max_seq == lesser(cfg.max_position_embeddings as int, DEFAULT_MAX_SEQ as int),
            r.n_tokens == 0,
            sizes_are(r.sizes, cfg, r.max_seq as int),
    {
        let max_seq: usize = if cfg.max_position_embeddings <= DEFAULT_MAX_SEQ {
            cfg.max_position_embeddings
        } else {
            DEFAULT_MAX_SEQ
        };
        MapleState::new_with_max_seq(cfg, max_seq)
    }

    /// A state with a window of `max_seq` tokens.
    pub fn new_with_max_seq(cfg: &MapleConfig, max_seq: usize) -> (r: MapleState)
        requires
            state_fits(cfg, max_seq as int),
        ensures
            r.max_seq == max_seq,
            r.n_tokens == 0,
            sizes_are(r.sizes, cfg, max_seq as int),
    {
        let q: usize = cfg.q_dim();
        let kv: usize = cfg.kv_dim();
        let k: usize = cfg.num_experts_per_tok;
        let inter: usize = cfg.moe_intermediate_size;
        let tiles: usize = (max_seq + 127) / 128;
        assert(tiles == ceil_div(max_seq as int, 128));
        let flash: usize = cfg.num_attention_heads * tiles * (2 + cfg.head_dim)
            * FLASH_PREFILL_SUBBATCH;
        MapleState {
            max_seq,
            n_tokens: 0,
            sizes: StateSizes {
                h: cfg.hidden_size,
                normed: cfg.hidden_size,
                fa_q: q,
                fa_k: kv,
                fa_v: kv,
                fa_attn_out: q,
                router_logits: cfg.num_experts,
                topk_indices: k,
                topk_weights: k,
                gate_batch: k * inter,
                up_batch: k * inter,
                act_batch: k * inter,
                down_expanded: k * cfg.hidden_size,
                final_norm_buf: cfg.hidden_size,
                logits: cfg.vocab_size,
                flash_partials: flash,
            },
        }
    }

    /// Forgets the conversation: no token is held any more, and the device is to
    /// zero what its key-value buffers hold. The buffers themselves stay.
    pub fn reset(&mut self) -> (r: ResetAction)
        ensures
            *final(self) == (MapleState { n_tokens: 0, ..*old(self) }),
            r == ResetAction::ClearKv,
    {
        self.n_tokens = 0;
        ResetAction::ClearKv
    }
}

/// The buffers hold what the forward pass puts into them: each projection's rows,
/// each expert's halves and outputs, all experts' scores and all tokens' scores.
pub proof fn buffers_hold_the_forward_pass(
    s: StateSizes,
    cfg: &MapleConfig,
    max_seq: int,
    layer: usize,
    position: u32,
    tiers: LayerTiers,
)
    requires
        sizes_are(s, cfg, max_seq),
        state_fits(cfg, max_seq),
        tiers.gate_up == DType::MQ2G256LloydU,
    ensures
        ({
            let a = decode_attention_ops(cfg, layer, position);
            let e = moe_ops(cfg, tiers, layer, 0);
            let h = head_ops(cfg, 0);
            let n = a.len() as int;
            &&& a[1]->Project_m == s.fa_q
            &&& a[2]->Project_m == s.fa_k
            &&& a[3]->Project_m == s.fa_v
            &&& a[n - 2]->Project_k == s.fa_attn_out
            &&& a[n - 2]->Project_m == s.h
            &&& a[0]->Norm_width == s.normed
            &&& e[1]->Softmax_n == s.router_logits
            &&& e[3]->GateUp_top == s.topk_indices && e[3]->GateUp_top == s.topk_weights
            &&& e[3]->GateUp_m * e[3]->GateUp_top == s.gate_batch + s.up_batch
            &&& e[4]->ClampedSwiglu_n * e[4]->ClampedSwiglu_top == s.act_batch
            &&& e[5]->Down_m * e[5]->Down_top == s.down_expanded
            &&& h[0]->FinalNorm_width == s.final_norm_buf
            &&& h[1]->LmHead_m == s.logits
        }),
{
    let (i, k) = (cfg.moe_intermediate_size as int, cfg.num_experts_per_tok as int);
    assert((2 * i) * k == k * i + k * i && i * k == k * i) by (nonlinear_arith);
    let (d, t) = (cfg.hidden_size as int, cfg.num_experts_per_tok as int);
    assert(d * t == t * d) by (nonlinear_arith);
}

/// The partial results have room for every tile of the window and for no more:
/// as many tiles of 128 keys as the window begins.
pub proof fn partials_cover_the_window(cfg: &MapleConfig, max_seq: int, tiles: int)
    requires
        0 <= max_seq,
        128 * (tiles - 1) < max_seq <= 128 * tiles,
    ensures
        flash_partials_of(cfg, max_seq) == cfg.num_attention_heads * tiles * (cfg.head_dim + 2)
            * 64,
{
    vstd::arithmetic::div_mod::lemma_fundamental_div_mod_converse(
        max_seq + 127,
        128,
        tiles,
        max_seq + 127 - 128 * tiles,
    );
}

} // verus!
