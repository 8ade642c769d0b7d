//! Maple's forward pass as a program of device operations.
//!
//! The block is a standard pre-norm one:
//!
//! ```text
//!   h += o_proj(attn(rmsnorm(h, input_layernorm)))
//!   h += moe(rmsnorm(h, post_attention_layernorm))
//!   logits = lm_head(rmsnorm(h, model.norm))
//! ```
//!
//! Queries and keys are normalised before they are rotated, only sliding layers
//! rotate, and the expert down projection adds into the residual by itself.

use crate::batch::MAPLE_PREFILL_MAX_B;
use crate::dtype::DType;
use crate::maple_config::MapleConfig;
use crate::maple_load::LayerTiers;
use crate::order::{follows, held_in_itself, held_in_longer, holds, only_at};
use crate::text;
use crate::text::decimal;
use vstd::prelude::*;

verus! {

/// What a norm normalises.
#[derive(Debug, Clone, Copy, PartialEq, Eq, Structural)]
pub enum NormSite {
    /// The residual, before attention.
    Input,
    /// The query heads, in place.
    Query,
    /// The key heads, in place.
    Key,
    /// The residual, before the experts.
    PostAttention,
}

/// Which projection of attention.
#[derive(Debug, Clone, Copy, PartialEq, Eq, Structural)]
pub enum Projection {
    Query,
    Key,
    Value,
    /// Back to the hidden width.
    Output,
}

/// One device operation.
#[derive(Debug, Clone, Copy, PartialEq, Eq, Structural)]
pub enum MapleOp {
    /// Stage the position of one token.
    StagePosition { at: u32 },
    /// Stage the positions of `rows` tokens from `start` on.
    StagePositions { start: usize, rows: usize },
    /// Stage the slot table of `rows` rows.
    StageSlots { rows: usize },
    /// Put a token's embedding into a residual row.
    Embed { row: usize, token: u32, quantised: bool },
    /// Stop: the embedding's type has no lookup.
    RefuseEmbed { dtype: DType },
    /// Root-mean-square norm over `rows` rows of `width`.
    Norm { site: NormSite, layer: usize, rows: usize, width: usize },
    /// Matrix times vector; the output projection adds into the residual.
    Project { which: Projection, layer: usize, m: usize, k: usize },
    /// Matrix times `rows` rows.
    ProjectRows { which: Projection, layer: usize, m: usize, k: usize, rows: usize },
    /// Round `n` normalised activations to half precision.
    HalveNormed { layer: usize, n: usize },
    /// Round `n` attention outputs to half precision.
    HalveAttention { layer: usize, n: usize },
    /// Rotate `n_rot` dimensions of the queries' and keys' heads in place.
    Rope { layer: usize, n_rot: usize, rows: usize },
    /// Write keys and values, and attend; a window of zero is none.
    Attend { layer: usize, position: usize, window: usize, rows: usize, context: usize },
    /// Add `n` projected values into the residual.
    AddResidual { layer: usize, n: usize },
    /// The router's scores of a row.
    Route { layer: usize, row: usize },
    /// Softmax over all experts' scores.
    Softmax { layer: usize, n: usize },
    /// The best experts, with their weights scaled to sum to one or not.
    TopK { layer: usize, n: usize, renormalise: bool },
    /// Stop: the experts' type has no kernel.
    RefuseExperts { layer: usize, dtype: DType },
    /// The chosen experts' gate and up projections of a row.
    GateUp { layer: usize, row: usize, m: usize, k: usize, top: usize },
    /// The clamped SwiGLU.
    ClampedSwiglu { layer: usize, n: usize, top: usize, limit: u32 },
    /// The chosen experts' down projections, weighted and added into a residual row.
    Down { layer: usize, row: usize, m: usize, k: usize, top: usize },
    /// The final norm of a residual row.
    FinalNorm { row: usize, width: usize },
    /// The scores of all tokens.
    LmHead { m: usize, k: usize },
}

impl MapleOp {
    /// Why the pass stops at this operation, where it does.
    pub open spec fn refusal_text(self) -> Option<Seq<char>> {
        match self {
            MapleOp::RefuseEmbed { dtype } => Some(
                "maple: embed dtype "@ + dtype.text()
                    + " has no lookup path (expected F32 or Q8)"@,
            ),
            MapleOp::RefuseExperts { layer, dtype } => Some(
                "maple L"@ + decimal(layer as nat) + ": expert dtype "@ + dtype.text()
                    + " unsupported — Maple's experts are natively ternary and must be carried as MQ2G256LloydU (qt=51)"@,
            ),
            _ => None,
        }
    }

    /// Why the pass stops at this operation, where it does.
    pub fn refusal(self) -> (r: Option<String>)
        ensures
            match r {
                Some(s) => self.refusal_text() == Some(s@),
                None => self.refusal_text() is None,
            },
    {
        match self {
            MapleOp::RefuseEmbed { dtype } => {
                let mut s = "maple: embed dtype ".to_owned();
                s.append(dtype.name());
                s.append(" has no lookup path (expected F32 or Q8)");
                Some(s)
            },
            MapleOp::RefuseExperts { layer, dtype } => {
                let mut s = "maple L".to_owned();
                text::push_decimal(&mut s, layer);
                s.append(": expert dtype ");
                s.append(dtype.name());
                s.append(
                    " unsupported — Maple's experts are natively ternary and must be carried as MQ2G256LloydU (qt=51)",
                );
                Some(s)
            },
            _ => None,
        }
    }

    /// The layer that is through once this operation has run on its last row.
    pub open spec fn layer_ended(self) -> Option<usize> {
        match self {
            MapleOp::Down { layer, .. } => Some(layer),
            _ => None,
        }
    }

    /// The layer that is through once this operation has run on its last row.
    pub fn ends_layer(self) -> (r: Option<usize>)
        ensures
            r == self.layer_ended(),
    {
        match self {
            MapleOp::Down { layer, .. } => Some(layer),
            _ => None,
        }
    }
}

/// Putting a token's embedding into a residual row: only two types have a lookup.
pub open spec fn embed_op(dtype: DType, row: usize, token: u32) -> MapleOp {
    match dtype {
        DType::F32 => MapleOp::Embed { row, token, quantised: false },
        DType::Q8_0 => MapleOp::Embed { row, token, quantised: true },
        other => MapleOp::RefuseEmbed { dtype: other },
    }
}

fn embed_lookup(dtype: DType, row: usize, token: u32) -> (r: MapleOp)
    ensures
        r == embed_op(dtype, row, token),
{
    match dtype {
        DType::F32 => MapleOp::Embed { row, token, quantised: false },
        DType::Q8_0 => MapleOp::Embed { row, token, quantised: true },
        other => MapleOp::RefuseEmbed { dtype: other },
    }
}

/// The expert block of one row: scores, softmax over all, the best of them
/// and only then their weights scaled, then the experts themselves.
pub open spec fn moe_ops(cfg: &MapleConfig, tiers: LayerTiers, layer: usize, row: usize) -> Seq<
    MapleOp,
> {
    seq![
        MapleOp::Route { layer, row },
        MapleOp::Softmax { layer, n: cfg.num_experts },
        MapleOp::TopK { layer, n: cfg.num_experts, renormalise: cfg.norm_topk_prob },
    ] + (if tiers.gate_up == DType::MQ2G256LloydU {
        seq![
            MapleOp::GateUp {
                layer,
                row,
                m: (2 * cfg.moe_intermediate_size) as usize,
                k: cfg.hidden_size,
                top: cfg.num_experts_per_tok,
            },
            MapleOp::ClampedSwiglu {
                layer,
                n: cfg.moe_intermediate_size,
                top: cfg.num_experts_per_tok,
                limit: cfg.swiglu_clamp,
            },
            MapleOp::Down {
                layer,
                row,
                m: cfg.hidden_size,
                k: cfg.moe_intermediate_size,
                top: cfg.num_experts_per_tok,
            },
        ]
    } else {
        seq![MapleOp::RefuseExperts { layer, dtype: tiers.gate_up }]
    })
}

/// Appends the expert block of one row.
fn moe_block_row(
    cfg: &MapleConfig,
    tiers: LayerTiers,
    layer: usize,
    row: usize,
    out: &mut Vec<MapleOp>,
)
    requires
        cfg.wf(),
    ensures
        final(out)@ == old(out)@ + moe_ops(cfg, tiers, layer, row),
{
    let ghost before = out@;
    out.push(MapleOp::Route { layer, row });
    out.push(MapleOp::Softmax { layer, n: cfg.num_experts });
    out.push(MapleOp::TopK { layer, n: cfg.num_experts, renormalise: cfg.norm_topk_prob });
    if tiers.gate_up == DType::MQ2G256LloydU {
        out.push(
            MapleOp::GateUp {
                layer,
                row,
                m: 2 * cfg.moe_intermediate_size,
                k: cfg.hidden_size,
                top: cfg.num_experts_per_tok,
            },
        );
        out.push(
            MapleOp::ClampedSwiglu {
                layer,
                n: cfg.moe_intermediate_size,
                top: cfg.num_experts_per_tok,
                limit: cfg.swiglu_clamp,
            },
        );
        out.push(
            MapleOp::Down {
                layer,
                row,
                m: cfg.hidden_size,
                k: cfg.moe_intermediate_size,
                top: cfg.num_experts_per_tok,
            },
        );
    } else {
        out.push(MapleOp::RefuseExperts { layer, dtype: tiers.gate_up });
    }
    assert(out@ =~= before + moe_ops(cfg, tiers, layer, row));
}

/// Rotation: on sliding layers only.
pub open spec fn rope_ops(cfg: &MapleConfig, layer: usize, rows: usize) -> Seq<MapleOp> {
    if cfg.slides(layer as int) {
        seq![MapleOp::Rope { layer, n_rot: cfg.rotary_width, rows }]
    } else {
        Seq::empty()
    }
}

/// A layer's attention for one token.
pub open spec fn decode_attention_ops(cfg: &MapleConfig, layer: usize, position: u32) -> Seq<
    MapleOp,
> {
    let q = (cfg.num_attention_heads * cfg.head_dim) as usize;
    let kv = (cfg.num_key_value_heads * cfg.head_dim) as usize;
    seq![
        MapleOp::Norm { site: NormSite::Input, layer, rows: 1, width: cfg.hidden_size },
        MapleOp::Project { which: Projection::Query, layer, m: q, k: cfg.hidden_size },
        MapleOp::Project { which: Projection::Key, layer, m: kv, k: cfg.hidden_size },
        MapleOp::Project { which: Projection::Value, layer, m: kv, k: cfg.hidden_size },
        MapleOp::Norm {
            site: NormSite::Query,
            layer,
            rows: cfg.num_attention_heads,
            width: cfg.head_dim,
        },
        MapleOp::Norm {
            site: NormSite::Key,
            layer,
            rows: cfg.num_key_value_heads,
            width: cfg.head_dim,
        },
    ] + rope_ops(cfg, layer, 1) + seq![
        MapleOp::Attend {
            layer,
            position: position as usize,
            window: cfg.window_of(layer as int) as usize,
            rows: 1,
            context: 0,
        },
        MapleOp::Project { which: Projection::Output, layer, m: cfg.hidden_size, k: q },
        MapleOp::Norm { site: NormSite::PostAttention, layer, rows: 1, width: cfg.hidden_size },
    ]
}

/// A layer for one token.
pub open spec fn decode_layer_ops(
    cfg: &MapleConfig,
    tiers: LayerTiers,
    layer: usize,
    position: u32,
) -> Seq<MapleOp> {
    decode_attention_ops(cfg, layer, position) + moe_ops(cfg, tiers, layer, 0)
}

/// The first `n` layers for one token.
pub open spec fn decode_layers_ops(
    cfg: &MapleConfig,
    tiers: Seq<LayerTiers>,
    n: nat,
    position: u32,
) -> Seq<MapleOp>
    decreases n,
{
    if n == 0 {
        Seq::empty()
    } else {
        decode_layers_ops(cfg, tiers, (n - 1) as nat, position) + decode_layer_ops(
            cfg,
            tiers[n - 1],
            (n - 1) as usize,
            position,
        )
    }
}

/// The final norm and the head, of one residual row.
pub open spec fn head_ops(cfg: &MapleConfig, row: usize) -> Seq<MapleOp> {
    seq![
        MapleOp::FinalNorm { row, width: cfg.hidden_size },
        MapleOp::LmHead { m: cfg.vocab_size, k: cfg.hidden_size },
    ]
}

/// Decoding one token.
pub open spec fn decode_ops(
    cfg: &MapleConfig,
    tiers: Seq<LayerTiers>,
    embed: DType,
    token: u32,
    position: u32,
) -> Seq<MapleOp> {
    seq![MapleOp::StagePosition { at: position }, embed_op(embed, 0, token)] + decode_layers_ops(
        cfg,
        tiers,
        cfg.num_hidden_layers as nat,
        position,
    ) + head_ops(cfg, 0)
}

fn push_decode_layer(
    cfg: &MapleConfig,
    tiers: LayerTiers,
    layer: usize,
    position: u32,
    out: &mut Vec<MapleOp>,
)
    requires
        cfg.wf(),
        layer < cfg.num_hidden_layers,
    ensures
        final(out)@ == old(out)@ + decode_layer_ops(cfg, tiers, layer, position),
{
    let ghost before = out@;
    let q: usize = cfg.q_dim();
    let kv: usize = cfg.kv_dim();
    out.push(MapleOp::Norm { site: NormSite::Input, layer, rows: 1, width: cfg.hidden_size });
    out.push(MapleOp::Project { which: Projection::Query, layer, m: q, k: cfg.hidden_size });
    out.push(MapleOp::Project { which: Projection::Key, layer, m: kv, k: cfg.hidden_size });
    out.push(MapleOp::Project { which: Projection::Value, layer, m: kv, k: cfg.hidden_size });
    out.push(
        MapleOp::Norm {
            site: NormSite::Query,
            layer,
            rows: cfg.num_attention_heads,
            width: cfg.head_dim,
        },
    );
    out.push(
        MapleOp::Norm {
            site: NormSite::Key,
            layer,
            rows: cfg.num_key_value_heads,
            width: cfg.head_dim,
        },
    );
    if cfg.applies_rope(layer) {
        out.push(MapleOp::Rope { layer, n_rot: cfg.rotary_dim(), rows: 1 });
    }
    out.push(
        MapleOp::Attend {
            layer,
            position: position as usize,
            window: cfg.window(layer),
            rows: 1,
            context: 0,
        },
    );
    out.push(MapleOp::Project { which: Projection::Output, layer, m: cfg.hidden_size, k: q });
    out.push(
        MapleOp::Norm { site: NormSite::PostAttention, layer, rows: 1, width: cfg.hidden_size },
    );
    assert(out@ =~= before + decode_attention_ops(cfg, layer, position));
    moe_block_row(cfg, tiers, layer, 0, out);
    assert(out@ =~= before + decode_layer_ops(cfg, tiers, layer, position));
}

/// The layers, the final norm and the head for one token.
pub fn decode_step_body(cfg: &MapleConfig, tiers: &Vec<LayerTiers>, position: u32) -> (out: Vec<
    MapleOp,
>)
    requires
        cfg.wf(),
        tiers@.len() == cfg.num_hidden_layers,
    ensures
        out@ == decode_layers_ops(cfg, tiers@, cfg.num_hidden_layers as nat, position) + head_ops(
            cfg,
            0,
        ),
{
    let mut out: Vec<MapleOp> = Vec::new();
    let mut l: usize = 0;
    assert(out@ =~= decode_layers_ops(cfg, tiers@, 0, position));
    while l < cfg.num_hidden_layers
        invariant
            cfg.wf(),
            tiers@.len() == cfg.num_hidden_layers,
            l <= cfg.num_hidden_layers,
            out@ == decode_layers_ops(cfg, tiers@, l as nat, position),
        decreases cfg.num_hidden_layers - l,
    {
        push_decode_layer(cfg, tiers[l], l, position, &mut out);
        l = l + 1;
    }
    let ghost layers = out@;
    out.push(MapleOp::FinalNorm { row: 0, width: cfg.hidden_size });
    out.push(MapleOp::LmHead { m: cfg.vocab_size, k: cfg.hidden_size });
    assert(out@ =~= layers + head_ops(cfg, 0));
    out
}

/// The error's text of a position beyond the key-value cache.
pub open spec fn position_error(position: u32, max_seq: usize) -> Seq<char> {
    "maple: position "@ + decimal(position as nat) + " exceeds max_seq "@ + decimal(max_seq as nat)
        + " — allocate the state with a larger max_seq (prompt + generation must fit)"@
}

/// Decodes one token: the program to run, or the refusal of a position that
/// the key-value cache does not hold.
pub fn decode_step(
    cfg: &MapleConfig,
    tiers: &Vec<LayerTiers>,
    embed: DType,
    max_seq: usize,
    token: u32,
    position: u32,
) -> (r: Result<Vec<MapleOp>, String>)
    requires
        cfg.wf(),
        tiers@.len() == cfg.num_hidden_layers,
    ensures
        match r {
            Ok(ops) => position < max_seq && ops@ == decode_ops(
                cfg,
                tiers@,
                embed,
                token,
                position,
            ),
            Err(e) => position >= max_seq && e@ == position_error(position, max_seq),
        },
{
    if position as usize >= max_seq {
        let mut s = "maple: position ".to_owned();
        text::push_decimal(&mut s, position as usize);
        s.append(" exceeds max_seq ");
        text::push_decimal(&mut s, max_seq);
        s.append(" — allocate the state with a larger max_seq (prompt + generation must fit)");
        return Err(s);
    }
    let mut out: Vec<MapleOp> = Vec::new();
    out.push(MapleOp::StagePosition { at: position });
    out.push(embed_lookup(embed, 0, token));
    let ghost front = out@;
    let mut body = decode_step_body(cfg, tiers, position);
    out.append(&mut body);
    assert(out@ =~= decode_ops(cfg, tiers@, embed, token, position));
    Ok(out)
}

/// Whether every layer's projections and all its experts are of the one tier that
/// the batched kernels read.
pub open spec fn batch_supported(tiers: Seq<LayerTiers>) -> bool {
    forall|l: int|
        0 <= l < tiers.len() ==> {
            let t = #[trigger] tiers[l];
            &&& t.wq == DType::MQ2G256LloydU
            &&& t.wk == DType::MQ2G256LloydU
            &&& t.wv == DType::MQ2G256LloydU
            &&& t.wo == DType::MQ2G256LloydU
            &&& t.gate_up == DType::MQ2G256LloydU
            &&& t.down == DType::MQ2G256LloydU
            &&& t.uniform_experts
        }
}

/// Whether batched prefill can run on these weights.
pub fn forward_batch_supported(tiers: &Vec<LayerTiers>) -> (r: bool)
    ensures
        r == batch_supported(tiers@),
{
    let mut l: usize = 0;
    while l < tiers.len()
        invariant
            l <= tiers.len(),
            batch_supported(tiers@.subrange(0, l as int)),
        decreases tiers.len() - l,
    {
        let t = tiers[l];
        if !(t.wq == DType::MQ2G256LloydU && t.wk == DType::MQ2G256LloydU && t.wv
            == DType::MQ2G256LloydU && t.wo == DType::MQ2G256LloydU && t.gate_up
            == DType::MQ2G256LloydU && t.down == DType::MQ2G256LloydU && t.uniform_experts) {
            assert(tiers@[l as int] == t);
            return false;
        }
        assert(batch_supported(tiers@.subrange(0, l + 1))) by {
            assert forall|j: int| 0 <= j < l implies tiers@.subrange(0, l + 1)[j]
                == tiers@.subrange(0, l as int)[j] by {}
            let s = tiers@.subrange(0, l + 1);
            assert forall|j: int| 0 <= j < s.len() implies {
                let t = #[trigger] s[j];
                &&& t.wq == DType::MQ2G256LloydU
                &&& t.wk == DType::MQ2G256LloydU
                &&& t.wv == DType::MQ2G256LloydU
                &&& t.wo == DType::MQ2G256LloydU
                &&& t.gate_up == DType::MQ2G256LloydU
                &&& t.down == DType::MQ2G256LloydU
                &&& t.uniform_experts
            } by {
                if j < l {
                    assert(s[j] == tiers@.subrange(0, l as int)[j]);
                }
            }
        }
        l = l + 1;
    }
    assert(tiers@.subrange(0, tiers@.len() as int) =~= tiers@);
    true
}

/// The scratch of a full batch fits the machine.
pub open spec fn batch_fits(cfg: &MapleConfig) -> bool {
    &&& MAPLE_PREFILL_MAX_B * cfg.hidden_size <= usize::MAX
    &&& MAPLE_PREFILL_MAX_B * (cfg.num_attention_heads * cfg.head_dim) <= usize::MAX
    &&& MAPLE_PREFILL_MAX_B * cfg.num_attention_heads <= usize::MAX
    &&& MAPLE_PREFILL_MAX_B * cfg.num_key_value_heads <= usize::MAX
}

/// The expert blocks of the first `n` rows, one row after the other.
pub open spec fn moe_rows_ops(
    cfg: &MapleConfig,
    tiers: LayerTiers,
    layer: usize,
    n: nat,
) -> Seq<MapleOp>
    decreases n,
{
    if n == 0 {
        Seq::empty()
    } else {
        moe_rows_ops(cfg, tiers, layer, (n - 1) as nat) + moe_ops(
            cfg,
            tiers,
            layer,
            (n - 1) as usize,
        )
    }
}

/// A layer's attention for `rows` tokens from `start` on.
pub open spec fn batch_attention_ops(
    cfg: &MapleConfig,
    layer: usize,
    rows: usize,
    start: usize,
) -> Seq<MapleOp> {
    let hidden = cfg.hidden_size;
    let q = (cfg.num_attention_heads * cfg.head_dim) as usize;
    let kv = (cfg.num_key_value_heads * cfg.head_dim) as usize;
    seq![
        MapleOp::Norm { site: NormSite::Input, layer, rows, width: hidden },
        MapleOp::HalveNormed { layer, n: (rows * hidden) as usize },
        MapleOp::ProjectRows { which: Projection::Query, layer, m: q, k: hidden, rows },
        MapleOp::ProjectRows { which: Projection::Key, layer, m: kv, k: hidden, rows },
        MapleOp::ProjectRows { which: Projection::Value, layer, m: kv, k: hidden, rows },
        MapleOp::Norm {
            site: NormSite::Query,
            layer,
            rows: (cfg.num_attention_heads * rows) as usize,
            width: cfg.head_dim,
        },
        MapleOp::Norm {
            site: NormSite::Key,
            layer,
            rows: (cfg.num_key_value_heads * rows) as usize,
            width: cfg.head_dim,
        },
    ] + rope_ops(cfg, layer, rows) + seq![
        MapleOp::Attend {
            layer,
            position: (start + rows - 1) as usize,
            window: cfg.window_of(layer as int) as usize,
            rows,
            context: (start + rows) as usize,
        },
        MapleOp::HalveAttention { layer, n: (rows * q) as usize },
        MapleOp::ProjectRows { which: Projection::Output, layer, m: hidden, k: q, rows },
        MapleOp::AddResidual { layer, n: (rows * hidden) as usize },
        MapleOp::Norm { site: NormSite::PostAttention, layer, rows, width: hidden },
    ]
}

/// A layer for `rows` tokens from `start` on.
pub open spec fn batch_layer_ops(
    cfg: &MapleConfig,
    tiers: LayerTiers,
    layer: usize,
    rows: usize,
    start: usize,
) -> Seq<MapleOp> {
    batch_attention_ops(cfg, layer, rows, start) + moe_rows_ops(cfg, tiers, layer, rows as nat)
}

/// The first `n` layers for `rows` tokens from `start` on.
pub open spec fn batch_layers_ops(
    cfg: &MapleConfig,
    tiers: Seq<LayerTiers>,
    n: nat,
    rows: usize,
    start: usize,
) -> Seq<MapleOp>
    decreases n,
{
    if n == 0 {
        Seq::empty()
    } else {
        batch_layers_ops(cfg, tiers, (n - 1) as nat, rows, start) + batch_layer_ops(
            cfg,
            tiers[n - 1],
            (n - 1) as usize,
            rows,
            start,
        )
    }
}

/// Prefilling a batch of tokens; only the last row goes to the head.
pub open spec fn batch_ops(
    cfg: &MapleConfig,
    tiers: Seq<LayerTiers>,
    embed: DType,
    tokens: Seq<u32>,
    start: usize,
) -> Seq<MapleOp> {
    let rows = tokens.len() as usize;
    seq![MapleOp::StagePositions { start, rows }, MapleOp::StageSlots { rows }] + Seq::new(
        tokens.len(),
        |i: int| embed_op(embed, i as usize, tokens[i]),
    ) + batch_layers_ops(cfg, tiers, cfg.num_hidden_layers as nat, rows, start) + head_ops(
        cfg,
        (rows - 1) as usize,
    )
}

fn push_batch_layer(
    cfg: &MapleConfig,
    tiers: LayerTiers,
    layer: usize,
    rows: usize,
    start: usize,
    out: &mut Vec<MapleOp>,
)
    requires
        cfg.wf(),
        batch_fits(cfg),
        layer < cfg.num_hidden_layers,
        0 < rows <= MAPLE_PREFILL_MAX_B,
        start + rows <= usize::MAX,
    ensures
        final(out)@ == old(out)@ + batch_layer_ops(cfg, tiers, layer, rows, start),
{
    let ghost before = out@;
    let hidden: usize = cfg.hidden_size;
    let q: usize = cfg.q_dim();
    let kv: usize = cfg.kv_dim();
    proof {
        assert(rows * hidden <= MAPLE_PREFILL_MAX_B * hidden) by (nonlinear_arith)
            requires
                rows <= MAPLE_PREFILL_MAX_B,
        ;
        assert(rows * q <= MAPLE_PREFILL_MAX_B * q) by (nonlinear_arith)
            requires
                rows <= MAPLE_PREFILL_MAX_B,
        ;
        assert(cfg.num_attention_heads * rows <= MAPLE_PREFILL_MAX_B * cfg.num_attention_heads)
            by (nonlinear_arith)
            requires
                rows <= MAPLE_PREFILL_MAX_B,
        ;
        assert(cfg.num_key_value_heads * rows <= MAPLE_PREFILL_MAX_B * cfg.num_key_value_heads)
            by (nonlinear_arith)
            requires
                rows <= MAPLE_PREFILL_MAX_B,
        ;
    }
    out.push(MapleOp::Norm { site: NormSite::Input, layer, rows, width: hidden });
    out.push(MapleOp::HalveNormed { layer, n: rows * hidden });
    out.push(MapleOp::ProjectRows { which: Projection::Query, layer, m: q, k: hidden, rows });
    out.push(MapleOp::ProjectRows { which: Projection::Key, layer, m: kv, k: hidden, rows });
    out.push(MapleOp::ProjectRows { which: Projection::Value, layer, m: kv, k: hidden, rows });
    out.push(
        MapleOp::Norm {
            site: NormSite::Query,
            layer,
            rows: cfg.num_attention_heads * rows,
            width: cfg.head_dim,
        },
    );
    out.push(
        MapleOp::Norm {
            site: NormSite::Key,
            layer,
            rows: cfg.num_key_value_heads * rows,
            width: cfg.head_dim,
        },
    );
    if cfg.applies_rope(layer) {
        out.push(MapleOp::Rope { layer, n_rot: cfg.rotary_dim(), rows });
    }
    out.push(batched_attend(cfg, layer, rows, start));
    out.push(MapleOp::HalveAttention { layer, n: rows * q });
    out.push(MapleOp::ProjectRows { which: Projection::Output, layer, m: hidden, k: q, rows });
    out.push(MapleOp::AddResidual { layer, n: rows * hidden });
    out.push(MapleOp::Norm { site: NormSite::PostAttention, layer, rows, width: hidden });
    assert(out@ =~= before + batch_attention_ops(cfg, layer, rows, start));
    let ghost attention = out@;
    let mut i: usize = 0;
    assert(out@ =~= attention + moe_rows_ops(cfg, tiers, layer, 0));
    while i < rows
        invariant
            cfg.wf(),
            i <= rows,
            out@ == attention + moe_rows_ops(cfg, tiers, layer, i as nat),
        decreases rows - i,
    {
        moe_block_row(cfg, tiers, layer, i, out);
        assert(out@ =~= attention + moe_rows_ops(cfg, tiers, layer, (i + 1) as nat));
        i = i + 1;
    }
    assert(out@ =~= before + batch_layer_ops(cfg, tiers, layer, rows, start));
}

/// Attention over a batch: always the windowed kernel, since the other would
/// drop the window of sliding layers.
fn batched_attend(cfg: &MapleConfig, layer: usize, rows: usize, start: usize) -> (r: MapleOp)
    requires
        layer < cfg.layer_types@.len(),
        0 < rows,
        start + rows <= usize::MAX,
    ensures
        r == (MapleOp::Attend {
            layer,
            position: (start + rows - 1) as usize,
            window: cfg.window_of(layer as int) as usize,
            rows,
            context: (start + rows) as usize,
        }),
{
    MapleOp::Attend {
        layer,
        position: start + rows - 1,
        window: cfg.window(layer),
        rows,
        context: start + rows,
    }
}

/// Why a batch is refused, as a text; nothing where it is not.
pub open spec fn batch_refusal(
    tiers: Seq<LayerTiers>,
    max_seq: usize,
    rows: nat,
    start: usize,
) -> Option<Seq<char>> {
    if rows == 0 {
        Some("maple forward_batch: empty token slice"@)
    } else if rows > MAPLE_PREFILL_MAX_B {
        Some(
            "maple forward_batch: B="@ + decimal(rows) + " exceeds scratch cap "@ + decimal(
                MAPLE_PREFILL_MAX_B as nat,
            ),
        )
    } else if start + rows > max_seq {
        Some(
            "maple forward_batch: positions "@ + decimal(start as nat) + ".."@ + decimal(
                (start + rows) as nat,
            ) + " exceed max_seq "@ + decimal(max_seq as nat),
        )
    } else if !batch_supported(tiers) {
        Some("maple forward_batch: unsupported tier (needs uniform qt51)"@)
    } else {
        None
    }
}

/// A prefilled batch: the program to run, and the tokens that the cache then holds.
#[derive(Debug, PartialEq, Eq)]
pub struct BatchProgram {
    pub ops: Vec<MapleOp>,
    pub n_tokens: usize,
}

/// Prefills `tokens` at the positions from `start` on. Refuses more than the
/// scratch holds rather than splitting: chunking is the caller's.
pub fn forward_batch(
    cfg: &MapleConfig,
    tiers: &Vec<LayerTiers>,
    embed: DType,
    max_seq: usize,
    tokens: &Vec<u32>,
    start: usize,
) -> (r: Result<BatchProgram, String>)
    requires
        cfg.wf(),
        batch_fits(cfg),
        tiers@.len() == cfg.num_hidden_layers,
        start + tokens@.len() <= usize::MAX,
    ensures
        match batch_refusal(tiers@, max_seq, tokens@.len(), start) {
            None => {
                &&& r is Ok
                &&& r->Ok_0.ops@ == batch_ops(cfg, tiers@, embed, tokens@, start)
                &&& r->Ok_0.n_tokens == start + tokens@.len()
            },
            Some(e) => r is Err && r->Err_0@ == e,
        },
{
    let rows: usize = tokens.len();
    if rows == 0 {
        return Err("maple forward_batch: empty token slice".to_owned());
    }
    if rows > MAPLE_PREFILL_MAX_B {
        let mut s = "maple forward_batch: B=".to_owned();
        text::push_decimal(&mut s, rows);
        s.append(" exceeds scratch cap ");
        text::push_decimal(&mut s, MAPLE_PREFILL_MAX_B);
        return Err(s);
    }
    if start + rows > max_seq {
        let mut s = "maple forward_batch: positions ".to_owned();
        text::push_decimal(&mut s, start);
        s.append("..");
        text::push_decimal(&mut s, start + rows);
        s.append(" exceed max_seq ");
        text::push_decimal(&mut s, max_seq);
        return Err(s);
    }
    if !forward_batch_supported(tiers) {
        return Err("maple forward_batch: unsupported tier (needs uniform qt51)".to_owned());
    }
    let mut ops: Vec<MapleOp> = Vec::new();
    ops.push(MapleOp::StagePositions { start, rows });
    ops.push(MapleOp::StageSlots { rows });
    let ghost front = ops@;
    let mut i: usize = 0;
    assert(ops@ =~= front + Seq::new(0, |j: int| embed_op(embed, j as usize, tokens@[j])));
    while i < rows
        invariant
            i <= rows,
            rows == tokens@.len(),
            ops@ == front + Seq::new(
                i as nat,
                |j: int| embed_op(embed, j as usize, tokens@[j]),
            ),
        decreases rows - i,
    {
        ops.push(embed_lookup(embed, i, tokens[i]));
        i = i + 1;
        assert(ops@ =~= front + Seq::new(
            i as nat,
            |j: int| embed_op(embed, j as usize, tokens@[j]),
        ));
    }
    let ghost seeded = ops@;
    let mut l: usize = 0;
    assert(ops@ =~= seeded + batch_layers_ops(cfg, tiers@, 0, rows, start));
    while l < cfg.num_hidden_layers
        invariant
            cfg.wf(),
            batch_fits(cfg),
            tiers@.len() == cfg.num_hidden_layers,
            0 < rows <= MAPLE_PREFILL_MAX_B,
            start + rows <= usize::MAX,
            l <= cfg.num_hidden_layers,
            ops@ == seeded + batch_layers_ops(cfg, tiers@, l as nat, rows, start),
        decreases cfg.num_hidden_layers - l,
    {
        push_batch_layer(cfg, tiers[l], l, rows, start, &mut ops);
        l = l + 1;
        assert(ops@ =~= seeded + batch_layers_ops(cfg, tiers@, l as nat, rows, start));
    }
    ops.push(MapleOp::FinalNorm { row: rows - 1, width: cfg.hidden_size });
    ops.push(MapleOp::LmHead { m: cfg.vocab_size, k: cfg.hidden_size });
    assert(ops@ =~= batch_ops(cfg, tiers@, embed, tokens@, start));
    Ok(BatchProgram { ops, n_tokens: start + rows })
}

/// Where `len` values at `offset` of a tensor of `numel` 32-bit floats lie, in
/// bytes: the offset and the length.
pub fn row_view(numel: usize, offset: usize, len: usize) -> (r: (usize, usize))
    requires
        offset + len <= numel,
        4 * numel <= usize::MAX,
    ensures
        r.0 == 4 * offset,
        r.1 == 4 * len,
        r.0 + r.1 <= 4 * numel,
{
    (offset * 4, len * 4)
}

/// Whether a norm of `site` stands before place `i`.
pub open spec fn norm_before(ops: Seq<MapleOp>, site: NormSite, i: int) -> bool {
    exists|a: int|
        0 <= a < i && a < ops.len() && (#[trigger] ops[a]) is Norm && ops[a]->Norm_site == site
}

/// Whether every rotation stands behind a norm of the queries and one of the keys.
pub open spec fn norms_precede_rotation(ops: Seq<MapleOp>) -> bool {
    forall|i: int|
        0 <= i < ops.len() && (#[trigger] ops[i]) is Rope ==> norm_before(ops, NormSite::Query, i)
            && norm_before(ops, NormSite::Key, i)
}

/// Queries and keys of one token are normalised before they are rotated.
pub proof fn decode_norms_come_before_rotation(cfg: &MapleConfig, layer: usize, position: u32)
    ensures
        norms_precede_rotation(decode_attention_ops(cfg, layer, position)),
{
    let d = decode_attention_ops(cfg, layer, position);
    assert(d[4] is Norm && d[4]->Norm_site == NormSite::Query);
    assert(d[5] is Norm && d[5]->Norm_site == NormSite::Key);
    assert forall|i: int| 0 <= i < d.len() && (#[trigger] d[i]) is Rope implies i == 6 by {}
}

/// Queries and keys of a batch are normalised before they are rotated.
pub proof fn batch_norms_come_before_rotation(
    cfg: &MapleConfig,
    layer: usize,
    rows: usize,
    start: usize,
)
    ensures
        norms_precede_rotation(batch_attention_ops(cfg, layer, rows, start)),
{
    let b = batch_attention_ops(cfg, layer, rows, start);
    assert(b[5] is Norm && b[5]->Norm_site == NormSite::Query);
    assert(b[6] is Norm && b[6]->Norm_site == NormSite::Key);
    assert forall|i: int| 0 <= i < b.len() && (#[trigger] b[i]) is Rope implies i == 7 by {}
}

/// A layer rotates exactly where it slides, and attends with its window
/// exactly where it slides; elsewhere it attends to all keys.
pub proof fn only_sliding_layers_rotate(
    cfg: &MapleConfig,
    layer: usize,
    position: u32,
    rows: usize,
    start: usize,
)
    ensures
        cfg.slides(layer as int) <==> exists|i: int|
            0 <= i < decode_attention_ops(cfg, layer, position).len() && (#[trigger]
            decode_attention_ops(cfg, layer, position)[i]) is Rope,
        cfg.slides(layer as int) <==> exists|i: int|
            0 <= i < batch_attention_ops(cfg, layer, rows, start).len() && (#[trigger]
            batch_attention_ops(cfg, layer, rows, start)[i]) is Rope,
        forall|i: int|
            0 <= i < decode_attention_ops(cfg, layer, position).len() && (#[trigger]
            decode_attention_ops(cfg, layer, position)[i]) is Attend ==> decode_attention_ops(
                cfg,
                layer,
                position,
            )[i]->Attend_window == (if cfg.slides(layer as int) {
                cfg.sliding_window
            } else {
                0
            }),
        forall|i: int|
            0 <= i < batch_attention_ops(cfg, layer, rows, start).len() && (#[trigger]
            batch_attention_ops(cfg, layer, rows, start)[i]) is Attend ==> batch_attention_ops(
                cfg,
                layer,
                rows,
                start,
            )[i]->Attend_window == (if cfg.slides(layer as int) {
                cfg.sliding_window
            } else {
                0
            }),
{
    let d = decode_attention_ops(cfg, layer, position);
    let b = batch_attention_ops(cfg, layer, rows, start);
    if cfg.slides(layer as int) {
        assert(d[6] is Rope);
        assert(b[7] is Rope);
    }
}

/// The experts' outputs are added once: the expert block of a row ends with
/// its one down projection, with which the layer is through, and nothing in it
/// adds into the residual again.
pub proof fn experts_are_added_once(
    cfg: &MapleConfig,
    tiers: LayerTiers,
    layer: usize,
    row: usize,
)
    requires
        tiers.gate_up == DType::MQ2G256LloydU,
    ensures
        moe_ops(cfg, tiers, layer, row).last() is Down,
        moe_ops(cfg, tiers, layer, row).last().layer_ended() == Some(layer),
        forall|i: int|
            0 <= i < moe_ops(cfg, tiers, layer, row).len() - 1 ==> {
                let op = #[trigger] moe_ops(cfg, tiers, layer, row)[i];
                op !is Down && op !is AddResidual && op.layer_ended() is None
            },
{
}

/// The final norm and the head.
pub open spec fn is_head(op: MapleOp) -> bool {
    op is FinalNorm || op is LmHead
}

/// Whether an operation puts a token into a residual row, or stops where it cannot.
pub open spec fn is_lookup(op: MapleOp) -> bool {
    op is Embed || op is RefuseEmbed
}

proof fn moe_has_no_ends(cfg: &MapleConfig, tiers: LayerTiers, layer: usize, n: nat)
    ensures
        forall|i: int|
            0 <= i < moe_rows_ops(cfg, tiers, layer, n).len() ==> {
                let op = #[trigger] moe_rows_ops(cfg, tiers, layer, n)[i];
                !is_head(op) && !is_lookup(op)
            },
    decreases n,
{
    if n > 0 {
        moe_has_no_ends(cfg, tiers, layer, (n - 1) as nat);
        let before = moe_rows_ops(cfg, tiers, layer, (n - 1) as nat);
        let own = moe_ops(cfg, tiers, layer, (n - 1) as usize);
        let all = moe_rows_ops(cfg, tiers, layer, n);
        assert forall|i: int| 0 <= i < all.len() implies {
            let op = #[trigger] all[i];
            !is_head(op) && !is_lookup(op)
        } by {
            if i < before.len() {
                assert(all[i] == before[i]);
            } else {
                assert(all[i] == own[i - before.len()]);
            }
        }
    }
}

proof fn batch_layers_have_no_ends(
    cfg: &MapleConfig,
    tiers: Seq<LayerTiers>,
    n: nat,
    rows: usize,
    start: usize,
)
    ensures
        forall|i: int|
            0 <= i < batch_layers_ops(cfg, tiers, n, rows, start).len() ==> {
                let op = #[trigger] batch_layers_ops(cfg, tiers, n, rows, start)[i];
                !is_head(op) && !is_lookup(op)
            },
    decreases n,
{
    if n > 0 {
        batch_layers_have_no_ends(cfg, tiers, (n - 1) as nat, rows, start);
        let layer = (n - 1) as usize;
        moe_has_no_ends(cfg, tiers[n - 1], layer, rows as nat);
        let before = batch_layers_ops(cfg, tiers, (n - 1) as nat, rows, start);
        let attention = batch_attention_ops(cfg, layer, rows, start);
        let experts = moe_rows_ops(cfg, tiers[n - 1], layer, rows as nat);
        let all = batch_layers_ops(cfg, tiers, n, rows, start);
        assert forall|i: int| 0 <= i < all.len() implies {
            let op = #[trigger] all[i];
            !is_head(op) && !is_lookup(op)
        } by {
            if i < before.len() {
                assert(all[i] == before[i]);
            } else if i < before.len() + attention.len() {
                assert(all[i] == attention[i - before.len()]);
            } else {
                assert(all[i] == experts[i - before.len() - attention.len()]);
            }
        }
    }
}

proof fn decode_layers_have_no_ends(
    cfg: &MapleConfig,
    tiers: Seq<LayerTiers>,
    n: nat,
    position: u32,
)
    ensures
        forall|i: int|
            0 <= i < decode_layers_ops(cfg, tiers, n, position).len() ==> {
                let op = #[trigger] decode_layers_ops(cfg, tiers, n, position)[i];
                !is_head(op) && !is_lookup(op)
            },
    decreases n,
{
    if n > 0 {
        decode_layers_have_no_ends(cfg, tiers, (n - 1) as nat, position);
        let layer = (n - 1) as usize;
        let before = decode_layers_ops(cfg, tiers, (n - 1) as nat, position);
        let attention = decode_attention_ops(cfg, layer, position);
        let experts = moe_ops(cfg, tiers[n - 1], layer, 0);
        let all = decode_layers_ops(cfg, tiers, n, position);
        assert forall|i: int| 0 <= i < all.len() implies {
            let op = #[trigger] all[i];
            !is_head(op) && !is_lookup(op)
        } by {
            if i < before.len() {
                assert(all[i] == before[i]);
            } else if i < before.len() + attention.len() {
                assert(all[i] == attention[i - before.len()]);
            } else {
                assert(all[i] == experts[i - before.len() - attention.len()]);
            }
        }
    }
}

/// The residual row that a batch's final norm reads, and with it the head, is
/// the row into which the batch's last token was put. The tokens are put into
/// one row each, in their order, before anything else reads a row; the norm and
/// the head stand at the end and nowhere else.
pub proof fn the_last_token_goes_to_the_head(
    cfg: &MapleConfig,
    tiers: Seq<LayerTiers>,
    embed: DType,
    tokens: Seq<u32>,
    start: usize,
)
    requires
        0 < tokens.len() <= usize::MAX,
        embed == DType::F32 || embed == DType::Q8_0,
    ensures
        ({
            let ops = batch_ops(cfg, tiers, embed, tokens, start);
            let n = ops.len() as int;
            &&& n >= 2
            &&& ops[n - 2] is FinalNorm
            &&& ops[n - 2]->FinalNorm_width == cfg.hidden_size
            &&& ops[n - 2]->FinalNorm_row == tokens.len() - 1
            &&& ops[n - 1] == (MapleOp::LmHead { m: cfg.vocab_size, k: cfg.hidden_size })
            &&& forall|i: int| 0 <= i < n && is_head(#[trigger] ops[i]) ==> i >= n - 2
            &&& forall|i: int|
                0 <= i < n && is_lookup(#[trigger] ops[i]) <==> 2 <= i < 2 + tokens.len()
            &&& forall|j: int|
                0 <= j < tokens.len() ==> {
                    let op = ops[#[trigger] place_of_row(j)];
                    op is Embed && op->token == tokens[j] && op->Embed_row == j && op->quantised
                        == (embed == DType::Q8_0)
                }
            &&& ops[place_of_row(tokens.len() - 1)]->Embed_row == ops[n - 2]->FinalNorm_row
            &&& ops[0] is StagePositions && ops[0]->start == start
            &&& ops[0]->StagePositions_rows == tokens.len()
            &&& ops[1] is StageSlots && ops[1]->StageSlots_rows == tokens.len()
        }),
{
    let ops = batch_ops(cfg, tiers, embed, tokens, start);
    let rows = tokens.len() as usize;
    batch_layers_have_no_ends(cfg, tiers, cfg.num_hidden_layers as nat, rows, start);
    let lookups = Seq::new(tokens.len(), |i: int| embed_op(embed, i as usize, tokens[i]));
    let layers = batch_layers_ops(cfg, tiers, cfg.num_hidden_layers as nat, rows, start);
    let n = ops.len() as int;
    assert(n == 2 + tokens.len() + layers.len() + 2);
    assert forall|i: int| 2 <= i < 2 + tokens.len() implies #[trigger] ops[i] == lookups[i
        - 2] by {}
    assert forall|i: int| 2 + tokens.len() <= i < n - 2 implies #[trigger] ops[i] == layers[i - 2
        - tokens.len()] by {}
    assert forall|i: int| 0 <= i < n && is_head(#[trigger] ops[i]) implies i >= n - 2 by {
        if i >= 2 + tokens.len() && i < n - 2 {
            assert(ops[i] == layers[i - 2 - tokens.len()]);
        }
    }
    assert forall|i: int|
        0 <= i < n && is_lookup(#[trigger] ops[i]) <==> 2 <= i < 2 + tokens.len() by {
        if 2 + tokens.len() <= i < n - 2 {
            assert(ops[i] == layers[i - 2 - tokens.len()]);
        }
    }
    assert forall|j: int| 0 <= j < tokens.len() implies {
        let op = ops[#[trigger] place_of_row(j)];
        op is Embed && op->token == tokens[j] && op->Embed_row == j && op->quantised == (embed
            == DType::Q8_0)
    } by {
        assert(ops[place_of_row(j)] == lookups[j]);
    }
}

/// The place at which a batch's program fills a residual row.
pub open spec fn place_of_row(row: int) -> int {
    2 + row
}

/// Decoding puts its one token into the residual row that the final norm reads.
pub proof fn the_token_goes_to_the_head(
    cfg: &MapleConfig,
    tiers: Seq<LayerTiers>,
    embed: DType,
    token: u32,
    position: u32,
)
    requires
        embed == DType::F32 || embed == DType::Q8_0,
    ensures
        ({
            let ops = decode_ops(cfg, tiers, embed, token, position);
            let n = ops.len() as int;
            &&& n >= 4
            &&& ops[0] == (MapleOp::StagePosition { at: position })
            &&& ops[1] is Embed && ops[1]->token == token && ops[1]->quantised == (embed
                == DType::Q8_0)
            &&& ops[n - 2] is FinalNorm && ops[n - 2]->FinalNorm_width == cfg.hidden_size
            &&& ops[n - 2]->FinalNorm_row == ops[1]->Embed_row
            &&& ops[n - 1] == (MapleOp::LmHead { m: cfg.vocab_size, k: cfg.hidden_size })
            &&& forall|i: int| 0 <= i < n && is_head(#[trigger] ops[i]) ==> i >= n - 2
            &&& forall|i: int| 0 <= i < n && is_lookup(#[trigger] ops[i]) ==> i == 1
        }),
{
    let ops = decode_ops(cfg, tiers, embed, token, position);
    decode_layers_have_no_ends(cfg, tiers, cfg.num_hidden_layers as nat, position);
    let layers = decode_layers_ops(cfg, tiers, cfg.num_hidden_layers as nat, position);
    let n = ops.len() as int;
    assert(n == 2 + layers.len() + 2);
    assert forall|i: int| 2 <= i < n - 2 implies #[trigger] ops[i] == layers[i - 2] by {}
    assert forall|i: int| 0 <= i < n && is_head(#[trigger] ops[i]) implies i >= n - 2 by {
        if 2 <= i < n - 2 {
            assert(ops[i] == layers[i - 2]);
        }
    }
    assert forall|i: int| 0 <= i < n && is_lookup(#[trigger] ops[i]) implies i == 1 by {
        if 2 <= i < n - 2 {
            assert(ops[i] == layers[i - 2]);
        }
    }
}

/// A type without a lookup stops every program before its first layer.
pub proof fn tokens_are_looked_up(dtype: DType, row: usize, token: u32)
    ensures
        embed_op(dtype, row, token) is RefuseEmbed <==> dtype != DType::F32 && dtype
            != DType::Q8_0,
        embed_op(dtype, row, token) is RefuseEmbed ==> embed_op(
            dtype,
            row,
            token,
        )->RefuseEmbed_dtype == dtype,
        embed_op(dtype, row, token) is RefuseEmbed || embed_op(dtype, row, token) is Embed,
{
}

/// In a layer's attention for one token every operation stands behind those
/// whose results it reads: the projections of queries, keys and values behind
/// the norm of the residual, their own norms behind those, the rotation behind
/// both norms, attending behind all of them, and behind it the output
/// projection, the one operation that adds the attention into the residual; the
/// norm before the experts comes last and reads that sum.
pub proof fn decode_attention_reads_what_was_made(
    cfg: &MapleConfig,
    layer: usize,
    position: u32,
)
    requires
        cfg.num_attention_heads * cfg.head_dim <= usize::MAX,
        cfg.num_key_value_heads * cfg.head_dim <= usize::MAX,
    ensures
        ({
            let all = decode_attention_ops(cfg, layer, position);
            let (hidden, d) = (cfg.hidden_size, cfg.head_dim);
            let (heads, groups) = (cfg.num_attention_heads, cfg.num_key_value_heads);
            let (q_width, kv_width) = ((heads * d) as usize, (groups * d) as usize);
            let norm = MapleOp::Norm { site: NormSite::Input, layer, rows: 1, width: hidden };
            let q = MapleOp::Project { which: Projection::Query, layer, m: q_width, k: hidden };
            let k = MapleOp::Project { which: Projection::Key, layer, m: kv_width, k: hidden };
            let v = MapleOp::Project { which: Projection::Value, layer, m: kv_width, k: hidden };
            let q_norm = MapleOp::Norm { site: NormSite::Query, layer, rows: heads, width: d };
            let k_norm = MapleOp::Norm { site: NormSite::Key, layer, rows: groups, width: d };
            let rope = MapleOp::Rope { layer, n_rot: cfg.rotary_width, rows: 1 };
            let out = MapleOp::Project { which: Projection::Output, layer, m: hidden, k: q_width };
            let second = MapleOp::Norm {
                site: NormSite::PostAttention,
                layer,
                rows: 1,
                width: hidden,
            };
            &&& follows(all, norm, q)
            &&& follows(all, norm, k)
            &&& follows(all, norm, v)
            &&& follows(all, q, q_norm)
            &&& follows(all, k, k_norm)
            &&& cfg.slides(layer as int) ==> follows(all, q_norm, rope) && follows(
                all,
                k_norm,
                rope,
            )
            &&& all.last() == second
            &&& follows(all, out, second)
            &&& exists|i: int|
                0 <= i < all.len() && {
                    let op = #[trigger] all[i];
                    &&& op is Attend
                    &&& op->Attend_layer == layer
                    &&& op->position == position
                    &&& op->Attend_rows == 1
                    &&& follows(all, q_norm, op)
                    &&& follows(all, k_norm, op)
                    &&& follows(all, v, op)
                    &&& follows(all, op, out)
                    &&& cfg.slides(layer as int) ==> follows(all, rope, op)
                }
            &&& forall|i: int|
                0 <= i < all.len() && (#[trigger] all[i]) is Project
                    && all[i]->Project_which == Projection::Output ==> all[i] == out
            &&& forall|i: int|
                0 <= i < all.len() ==> (#[trigger] all[i]) !is AddResidual && all[i] !is Down
        }),
{
    let all = decode_attention_ops(cfg, layer, position);
    let (hidden, d) = (cfg.hidden_size, cfg.head_dim);
    let (heads, groups) = (cfg.num_attention_heads, cfg.num_key_value_heads);
    let (q_width, kv_width) = ((heads * d) as usize, (groups * d) as usize);
    let n = all.len() as int;
    assert(only_at(all, MapleOp::Norm { site: NormSite::Input, layer, rows: 1, width: hidden }, 0));
    assert(only_at(
        all,
        MapleOp::Project { which: Projection::Query, layer, m: q_width, k: hidden },
        1,
    ));
    assert(only_at(
        all,
        MapleOp::Project { which: Projection::Key, layer, m: kv_width, k: hidden },
        2,
    ));
    assert(only_at(
        all,
        MapleOp::Project { which: Projection::Value, layer, m: kv_width, k: hidden },
        3,
    ));
    assert(only_at(all, MapleOp::Norm { site: NormSite::Query, layer, rows: heads, width: d }, 4));
    assert(only_at(all, MapleOp::Norm { site: NormSite::Key, layer, rows: groups, width: d }, 5));
    if cfg.slides(layer as int) {
        assert(only_at(all, MapleOp::Rope { layer, n_rot: cfg.rotary_width, rows: 1 }, 6));
    }
    assert(all[n - 3] is Attend);
    assert(only_at(all, all[n - 3], n - 3));
    assert(only_at(
        all,
        MapleOp::Project { which: Projection::Output, layer, m: hidden, k: q_width },
        n - 2,
    ));
    assert(only_at(
        all,
        MapleOp::Norm { site: NormSite::PostAttention, layer, rows: 1, width: hidden },
        n - 1,
    ));
}

/// In a layer's attention for a batch every operation stands behind those whose
/// results it reads, as for one token; the normalised activations are rounded
/// before they are projected, the attention before its output is, and that
/// output is added into the residual once, before the norm that reads the sum.
pub proof fn batch_attention_reads_what_was_made(
    cfg: &MapleConfig,
    layer: usize,
    rows: usize,
    start: usize,
)
    requires
        cfg.num_attention_heads * cfg.head_dim <= usize::MAX,
        cfg.num_key_value_heads * cfg.head_dim <= usize::MAX,
        0 < rows,
        start + rows <= usize::MAX,
    ensures
        ({
            let all = batch_attention_ops(cfg, layer, rows, start);
            let (hidden, d) = (cfg.hidden_size, cfg.head_dim);
            let (heads, groups) = (cfg.num_attention_heads, cfg.num_key_value_heads);
            let (q_width, kv_width) = ((heads * d) as usize, (groups * d) as usize);
            let norm = MapleOp::Norm { site: NormSite::Input, layer, rows, width: hidden };
            let halved = MapleOp::HalveNormed { layer, n: (rows * hidden) as usize };
            let q = MapleOp::ProjectRows {
                which: Projection::Query,
                layer,
                m: q_width,
                k: hidden,
                rows,
            };
            let k = MapleOp::ProjectRows {
                which: Projection::Key,
                layer,
                m: kv_width,
                k: hidden,
                rows,
            };
            let v = MapleOp::ProjectRows {
                which: Projection::Value,
                layer,
                m: kv_width,
                k: hidden,
                rows,
            };
            let q_norm = MapleOp::Norm {
                site: NormSite::Query,
                layer,
                rows: (heads * rows) as usize,
                width: d,
            };
            let k_norm = MapleOp::Norm {
                site: NormSite::Key,
                layer,
                rows: (groups * rows) as usize,
                width: d,
            };
            let rope = MapleOp::Rope { layer, n_rot: cfg.rotary_width, rows };
            let rounded = MapleOp::HalveAttention { layer, n: (rows * q_width) as usize };
            let out = MapleOp::ProjectRows {
                which: Projection::Output,
                layer,
                m: hidden,
                k: q_width,
                rows,
            };
            let sum = MapleOp::AddResidual { layer, n: (rows * hidden) as usize };
            let second = MapleOp::Norm {
                site: NormSite::PostAttention,
                layer,
                rows,
                width: hidden,
            };
            &&& follows(all, norm, halved)
            &&& follows(all, halved, q)
            &&& follows(all, halved, k)
            &&& follows(all, halved, v)
            &&& follows(all, q, q_norm)
            &&& follows(all, k, k_norm)
            &&& cfg.slides(layer as int) ==> follows(all, q_norm, rope) && follows(
                all,
                k_norm,
                rope,
            )
            &&& exists|i: int|
                0 <= i < all.len() && {
                    let op = #[trigger] all[i];
                    &&& op is Attend
                    &&& op->Attend_layer == layer
                    &&& op->position == start + rows - 1
                    &&& op->Attend_rows == rows
                    &&& op->context == start + rows
                    &&& follows(all, q_norm, op)
                    &&& follows(all, k_norm, op)
                    &&& follows(all, v, op)
                    &&& follows(all, op, rounded)
                    &&& cfg.slides(layer as int) ==> follows(all, rope, op)
                }
            &&& follows(all, rounded, out)
            &&& follows(all, out, sum)
            &&& follows(all, sum, second)
            &&& all.last() == second
            &&& forall|i: int|
                0 <= i < all.len() && (#[trigger] all[i]) is AddResidual ==> all[i] == sum
            &&& forall|i: int| 0 <= i < all.len() ==> (#[trigger] all[i]) !is Down
        }),
{
    let all = batch_attention_ops(cfg, layer, rows, start);
    let (hidden, d) = (cfg.hidden_size, cfg.head_dim);
    let (heads, groups) = (cfg.num_attention_heads, cfg.num_key_value_heads);
    let (q_width, kv_width) = ((heads * d) as usize, (groups * d) as usize);
    let n = all.len() as int;
    assert(only_at(all, all[0], 0));
    assert(only_at(all, all[1], 1));
    assert(only_at(all, all[2], 2));
    assert(only_at(all, all[3], 3));
    assert(only_at(all, all[4], 4));
    assert(only_at(all, all[5], 5));
    assert(only_at(all, all[6], 6));
    if cfg.slides(layer as int) {
        assert(only_at(all, all[7], 7));
    }
    assert(all[n - 5] is Attend);
    assert(only_at(all, all[n - 5], n - 5));
    assert(only_at(all, all[n - 4], n - 4));
    assert(only_at(all, all[n - 3], n - 3));
    assert(only_at(all, all[n - 2], n - 2));
    assert(only_at(all, all[n - 1], n - 1));
}

/// In the expert block of a row every operation stands behind those whose
/// results it reads: the softmax is over the scores of all experts, the choice
/// is made from it, and the chosen experts' gate and up projections, activation
/// and down projection are all of that one row.
pub proof fn experts_read_what_was_made(
    cfg: &MapleConfig,
    tiers: LayerTiers,
    layer: usize,
    row: usize,
)
    requires
        2 * cfg.moe_intermediate_size <= usize::MAX,
    ensures
        ({
            let all = moe_ops(cfg, tiers, layer, row);
            let (hidden, inter) = (cfg.hidden_size, cfg.moe_intermediate_size);
            let top = cfg.num_experts_per_tok;
            let soft = MapleOp::Softmax { layer, n: cfg.num_experts };
            let choice = MapleOp::TopK {
                layer,
                n: cfg.num_experts,
                renormalise: cfg.norm_topk_prob,
            };
            let gate_up = MapleOp::GateUp {
                layer,
                row,
                m: (inter + inter) as usize,
                k: hidden,
                top,
            };
            let act = MapleOp::ClampedSwiglu { layer, n: inter, top, limit: cfg.swiglu_clamp };
            let down = MapleOp::Down { layer, row, m: hidden, k: inter, top };
            &&& all[0] == (MapleOp::Route { layer, row })
            &&& follows(all, MapleOp::Route { layer, row }, soft)
            &&& follows(all, soft, choice)
            &&& tiers.gate_up == DType::MQ2G256LloydU ==> {
                &&& follows(all, choice, gate_up)
                &&& follows(all, gate_up, act)
                &&& follows(all, act, down)
                &&& all.last() == down
            }
            &&& tiers.gate_up != DType::MQ2G256LloydU ==> all.last() == (MapleOp::RefuseExperts {
                layer,
                dtype: tiers.gate_up,
            })
        }),
{
    let all = moe_ops(cfg, tiers, layer, row);
    assert(only_at(all, all[0], 0));
    assert(only_at(all, all[1], 1));
    assert(only_at(all, all[2], 2));
    if tiers.gate_up == DType::MQ2G256LloydU {
        assert(only_at(all, all[3], 3));
        assert(only_at(all, all[4], 4));
        assert(only_at(all, all[5], 5));
    }
}

/// Every row of a batch has its own expert block, behind those of the rows
/// before it.
pub proof fn every_row_has_its_experts(
    cfg: &MapleConfig,
    tiers: LayerTiers,
    layer: usize,
    n: nat,
    row: int,
)
    requires
        0 <= row < n <= usize::MAX,
    ensures
        holds(moe_rows_ops(cfg, tiers, layer, n), moe_ops(cfg, tiers, layer, row as usize)),
        moe_rows_ops(cfg, tiers, layer, n) == moe_rows_ops(cfg, tiers, layer, row as nat)
            + moe_ops(cfg, tiers, layer, row as usize) + moe_rows_ops(cfg, tiers, layer, n).skip(
            moe_rows_ops(cfg, tiers, layer, (row + 1) as nat).len() as int,
        ),
    decreases n,
{
    let all = moe_rows_ops(cfg, tiers, layer, n);
    let before = moe_rows_ops(cfg, tiers, layer, (n - 1) as nat);
    let last = moe_ops(cfg, tiers, layer, (n - 1) as usize);
    let own = moe_ops(cfg, tiers, layer, row as usize);
    let up_to = moe_rows_ops(cfg, tiers, layer, (row + 1) as nat).len() as int;
    if row == n - 1 {
        held_in_itself(last);
        held_in_longer(before, last, Seq::empty(), own);
        assert(before + last + Seq::empty() =~= all);
        assert(all.skip(up_to) =~= Seq::empty());
    } else {
        every_row_has_its_experts(cfg, tiers, layer, (n - 1) as nat, row);
        held_in_longer(Seq::empty(), before, last, own);
        assert(Seq::empty() + before + last =~= all);
        assert(up_to <= before.len());
        assert(all.skip(up_to) =~= before.skip(up_to) + last);
        assert(all =~= moe_rows_ops(cfg, tiers, layer, row as nat) + own + all.skip(up_to));
    }
}

/// Every layer's operations stand in the program of one token, each under its
/// own number and with its own experts' type, and the layers follow one another
/// in their order.
pub proof fn decode_layers_come_in_order(
    cfg: &MapleConfig,
    tiers: Seq<LayerTiers>,
    n: nat,
    position: u32,
    l: int,
)
    requires
        0 <= l < n <= usize::MAX,
    ensures
        holds(
            decode_layers_ops(cfg, tiers, n, position),
            decode_attention_ops(cfg, l as usize, position) + moe_ops(
                cfg,
                tiers[l],
                l as usize,
                0,
            ),
        ),
        decode_layers_ops(cfg, tiers, n, position) == decode_layers_ops(
            cfg,
            tiers,
            l as nat,
            position,
        ) + (decode_attention_ops(cfg, l as usize, position) + moe_ops(
            cfg,
            tiers[l],
            l as usize,
            0,
        )) + decode_layers_ops(cfg, tiers, n, position).skip(
            decode_layers_ops(cfg, tiers, (l + 1) as nat, position).len() as int,
        ),
    decreases n,
{
    let all = decode_layers_ops(cfg, tiers, n, position);
    let before = decode_layers_ops(cfg, tiers, (n - 1) as nat, position);
    let last = decode_layer_ops(cfg, tiers[n - 1], (n - 1) as usize, position);
    let own = decode_layer_ops(cfg, tiers[l], l as usize, position);
    let up_to = decode_layers_ops(cfg, tiers, (l + 1) as nat, position).len() as int;
    if l == n - 1 {
        held_in_itself(last);
        held_in_longer(before, last, Seq::empty(), own);
        assert(before + last + Seq::empty() =~= all);
        assert(all.skip(up_to) =~= Seq::empty());
    } else {
        decode_layers_come_in_order(cfg, tiers, (n - 1) as nat, position, l);
        held_in_longer(Seq::empty(), before, last, own);
        assert(Seq::empty() + before + last =~= all);
        assert(up_to <= before.len());
        assert(all.skip(up_to) =~= before.skip(up_to) + last);
        assert(all =~= decode_layers_ops(cfg, tiers, l as nat, position) + own + all.skip(up_to));
    }
}

/// Every layer's operations stand in the program of a batch, each under its own
/// number, its attention before the expert blocks of all its rows, and the
/// layers follow one another in their order.
pub proof fn batch_layers_come_in_order(
    cfg: &MapleConfig,
    tiers: Seq<LayerTiers>,
    n: nat,
    rows: usize,
    start: usize,
    l: int,
)
    requires
        0 <= l < n <= usize::MAX,
    ensures
        holds(
            batch_layers_ops(cfg, tiers, n, rows, start),
            batch_attention_ops(cfg, l as usize, rows, start) + moe_rows_ops(
                cfg,
                tiers[l],
                l as usize,
                rows as nat,
            ),
        ),
        batch_layers_ops(cfg, tiers, n, rows, start) == batch_layers_ops(
            cfg,
            tiers,
            l as nat,
            rows,
            start,
        ) + (batch_attention_ops(cfg, l as usize, rows, start) + moe_rows_ops(
            cfg,
            tiers[l],
            l as usize,
            rows as nat,
        )) + batch_layers_ops(cfg, tiers, n, rows, start).skip(
            batch_layers_ops(cfg, tiers, (l + 1) as nat, rows, start).len() as int,
        ),
    decreases n,
{
    let all = batch_layers_ops(cfg, tiers, n, rows, start);
    let before = batch_layers_ops(cfg, tiers, (n - 1) as nat, rows, start);
    let last = batch_layer_ops(cfg, tiers[n - 1], (n - 1) as usize, rows, start);
    let own = batch_layer_ops(cfg, tiers[l], l as usize, rows, start);
    let up_to = batch_layers_ops(cfg, tiers, (l + 1) as nat, rows, start).len() as int;
    if l == n - 1 {
        held_in_itself(last);
        held_in_longer(before, last, Seq::empty(), own);
        assert(before + last + Seq::empty() =~= all);
        assert(all.skip(up_to) =~= Seq::empty());
    } else {
        batch_layers_come_in_order(cfg, tiers, (n - 1) as nat, rows, start, l);
        held_in_longer(Seq::empty(), before, last, own);
        assert(Seq::empty() + before + last =~= all);
        assert(up_to <= before.len());
        assert(all.skip(up_to) =~= before.skip(up_to) + last);
        assert(all =~= batch_layers_ops(cfg, tiers, l as nat, rows, start) + own + all.skip(
            up_to,
        ));
    }
}

/// A batch is taken exactly where it has a token, fits the scratch and the
/// cache, and every matrix of every layer is of the one tier, its experts all
/// alike; a layer of which one matrix is not has every batch refused.
pub proof fn batches_are_taken_whole_or_refused(
    tiers: Seq<LayerTiers>,
    max_seq: usize,
    rows: nat,
    start: usize,
    l: int,
)
    requires
        0 <= l < tiers.len(),
    ensures
        batch_refusal(tiers, max_seq, rows, start) is None ==> {
            &&& 1 <= rows <= MAPLE_PREFILL_MAX_B
            &&& start + rows <= max_seq
            &&& tiers[l].wq == DType::MQ2G256LloydU
            &&& tiers[l].wk == DType::MQ2G256LloydU
            &&& tiers[l].wv == DType::MQ2G256LloydU
            &&& tiers[l].wo == DType::MQ2G256LloydU
            &&& tiers[l].gate_up == DType::MQ2G256LloydU
            &&& tiers[l].down == DType::MQ2G256LloydU
            &&& tiers[l].uniform_experts
        },
        batch_refusal(tiers, max_seq, rows, start) is Some ==> rows == 0 || rows
            > MAPLE_PREFILL_MAX_B || start + rows > max_seq || exists|j: int|
            0 <= j < tiers.len() && {
                let t = #[trigger] tiers[j];
                ||| t.wq != DType::MQ2G256LloydU
                ||| t.wk != DType::MQ2G256LloydU
                ||| t.wv != DType::MQ2G256LloydU
                ||| t.wo != DType::MQ2G256LloydU
                ||| t.gate_up != DType::MQ2G256LloydU
                ||| t.down != DType::MQ2G256LloydU
                ||| !t.uniform_experts
            },
{
}

} // verus!
