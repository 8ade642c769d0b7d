//! The Cohere2-MoE forward pass as a program of device operations.
//!
//! The block is a parallel one: a single mean-centred norm feeds both the
//! attention and the feed-forward branch, and both add into the residual:
//! `h = h + o_proj(attn(norm(h))) + ffn(norm(h))`.

use crate::dtype::DType;
use crate::order::{follows, held_in_itself, held_in_longer, holds, only_at};
use crate::text;
use crate::text::decimal;
use vstd::prelude::*;

verus! {

/// How a layer attends.
#[derive(Debug, Clone, Copy, PartialEq, Eq, Structural)]
pub enum AttnKind {
    /// With rotary positions.
    Sliding,
    /// Without positions.
    Full,
}

/// A layer's feed-forward branch.
#[derive(Debug, Clone, Copy, PartialEq, Eq, Structural)]
pub enum Ffn {
    Dense,
    /// Experts; the type is that of the first expert's fused gate and up matrix.
    Moe(DType),
}

/// A layer, as far as its program depends on it.
#[derive(Debug, Clone, Copy, PartialEq, Eq, Structural)]
pub struct CohereLayer {
    pub attn_kind: AttnKind,
    pub ffn: Ffn,
}

/// The configuration, as far as the program depends on it.
#[derive(Debug, Clone, Copy, PartialEq, Eq, Structural)]
pub struct Cohere2MoeConfig {
    pub hidden_size: usize,
    pub head_dim: usize,
    pub moe_intermediate_size: usize,
    pub num_experts: usize,
    pub num_experts_per_tok: usize,
    pub norm_topk_prob: bool,
}

/// Which projection of attention.
#[derive(Debug, Clone, Copy, PartialEq, Eq, Structural)]
pub enum AttnProjection {
    Query,
    Key,
    Value,
    /// Adds into the residual.
    Output,
}

/// One device operation.
#[derive(Debug, Clone, Copy, PartialEq, Eq, Structural)]
pub enum CohereOp {
    StagePosition { at: u32 },
    Embed { token: u32, quantised: bool },
    /// Stop: the embedding's type has no lookup.
    RefuseEmbed { dtype: DType },
    /// The mean-centred norm of the residual.
    LayerNorm { layer: usize, width: usize },
    Project { which: AttnProjection, layer: usize },
    /// Rotate adjacent pairs of `n_rot` dimensions.
    Rope { layer: usize, n_rot: usize },
    WriteKeys { layer: usize },
    WriteValues { layer: usize },
    Attend { layer: usize, seq_len: usize },
    DenseGate { layer: usize },
    DenseUp { layer: usize },
    DenseActivate { layer: usize },
    /// Adds into the residual.
    DenseDown { layer: usize },
    Route { layer: usize },
    Sigmoid { layer: usize },
    TopK { layer: usize, n: usize, renormalise: bool },
    /// Rotate the activations into the weights' basis.
    RotateInput { layer: usize, n: usize },
    /// The chosen experts' gate and up projections; six bits or four.
    GateUp { layer: usize, six: bool, m: usize, k: usize, top: usize },
    ActivateRotate { layer: usize, n: usize, top: usize },
    Down { layer: usize, six: bool, m: usize, k: usize, top: usize },
    /// Weight the chosen experts' outputs and add them into the residual.
    Combine { layer: usize, n: usize, top: usize },
    /// Run the chosen experts one by one.
    PerExpert { layer: usize, n: usize, top: usize },
    /// Stop: the experts' type has no kernel.
    RefuseExperts { layer: usize, dtype: DType },
    FinalNorm { width: usize },
    LmHead,
}

impl CohereOp {
    /// Why the pass stops at this operation, where it does.
    pub open spec fn refusal_text(self) -> Option<Seq<char>> {
        match self {
            CohereOp::RefuseEmbed { dtype } => Some(
                "cohere2moe: embed dtype "@ + dtype.text()
                    + " has no lookup path (use Q8 or F32 tied embeddings)"@,
            ),
            CohereOp::RefuseExperts { layer, dtype } => Some(
                "cohere2moe L"@ + decimal(layer as nat) + ": unsupported expert dtype "@
                    + dtype.text(),
            ),
            _ => None,
        }
    }

    /// Why the pass stops at this operation, where it does.
    pub fn refusal(self) -> (r: Option<String>)
        ensures
            match r {
                Some(s) => self.refusal_text() == Some(s@),
                None => self.refusal_text() is None,
            },
    {
        match self {
            CohereOp::RefuseEmbed { dtype } => {
                let mut s = "cohere2moe: embed dtype ".to_owned();
                s.append(dtype.name());
                s.append(" has no lookup path (use Q8 or F32 tied embeddings)");
                Some(s)
            },
            CohereOp::RefuseExperts { layer, dtype } => {
                let mut s = "cohere2moe L".to_owned();
                text::push_decimal(&mut s, layer);
                s.append(": unsupported expert dtype ");
                s.append(dtype.name());
                Some(s)
            },
            _ => None,
        }
    }
}

/// Putting a token's embedding into the residual: only two types have a lookup.
pub open spec fn embed_op(dtype: DType, token: u32) -> CohereOp {
    match dtype {
        DType::Q8_0 => CohereOp::Embed { token, quantised: true },
        DType::F32 => CohereOp::Embed { token, quantised: false },
        other => CohereOp::RefuseEmbed { dtype: other },
    }
}

fn embed_lookup(dtype: DType, token: u32) -> (r: CohereOp)
    ensures
        r == embed_op(dtype, token),
{
    match dtype {
        DType::Q8_0 => CohereOp::Embed { token, quantised: true },
        DType::F32 => CohereOp::Embed { token, quantised: false },
        other => CohereOp::RefuseEmbed { dtype: other },
    }
}

/// A layer's attention. All its projections read the one norm.
pub open spec fn attention_ops(
    cfg: Cohere2MoeConfig,
    kind: AttnKind,
    layer: usize,
    seq_len: usize,
) -> Seq<CohereOp> {
    seq![
        CohereOp::LayerNorm { layer, width: cfg.hidden_size },
        CohereOp::Project { which: AttnProjection::Query, layer },
        CohereOp::Project { which: AttnProjection::Key, layer },
        CohereOp::Project { which: AttnProjection::Value, layer },
    ] + (if kind == AttnKind::Sliding {
        seq![CohereOp::Rope { layer, n_rot: cfg.head_dim }]
    } else {
        Seq::empty()
    }) + seq![
        CohereOp::WriteKeys { layer },
        CohereOp::WriteValues { layer },
        CohereOp::Attend { layer, seq_len },
        CohereOp::Project { which: AttnProjection::Output, layer },
    ]
}

/// Whether the experts' type is one of the indexed six-bit kernels'.
pub open spec fn six_bits(dtype: DType) -> bool {
    dtype == DType::MQ6G256 || dtype == DType::HFQ6G256
}

/// Whether the experts' type is one of the indexed four-bit kernels'.
pub open spec fn four_bits(dtype: DType) -> bool {
    dtype == DType::MQ4G256 || dtype == DType::HFQ4G256
}

/// Whether the experts' type has no indexed kernel and is run expert by expert.
pub open spec fn one_by_one(dtype: DType) -> bool {
    dtype == DType::Q8_0 || dtype == DType::F16 || dtype == DType::F32
}

/// The experts themselves, by their type.
pub open spec fn expert_ops(cfg: Cohere2MoeConfig, dtype: DType, layer: usize) -> Seq<CohereOp> {
    let hidden = cfg.hidden_size;
    let inter = cfg.moe_intermediate_size;
    let top = cfg.num_experts_per_tok;
    if four_bits(dtype) || six_bits(dtype) {
        let six = six_bits(dtype);
        seq![
            CohereOp::RotateInput { layer, n: hidden },
            CohereOp::GateUp { layer, six, m: (2 * inter) as usize, k: hidden, top },
            CohereOp::ActivateRotate { layer, n: inter, top },
            CohereOp::Down { layer, six, m: hidden, k: inter, top },
            CohereOp::Combine { layer, n: hidden, top },
        ]
    } else if one_by_one(dtype) {
        seq![CohereOp::PerExpert { layer, n: inter, top }]
    } else {
        seq![CohereOp::RefuseExperts { layer, dtype }]
    }
}

/// A layer's feed-forward branch. It reads the same norm as the attention.
pub open spec fn ffn_ops(cfg: Cohere2MoeConfig, ffn: Ffn, layer: usize) -> Seq<CohereOp> {
    match ffn {
        Ffn::Dense => seq![
            CohereOp::DenseGate { layer },
            CohereOp::DenseUp { layer },
            CohereOp::DenseActivate { layer },
            CohereOp::DenseDown { layer },
        ],
        Ffn::Moe(dtype) => seq![
            CohereOp::Route { layer },
            CohereOp::Sigmoid { layer },
            CohereOp::TopK { layer, n: cfg.num_experts, renormalise: cfg.norm_topk_prob },
        ] + expert_ops(cfg, dtype, layer),
    }
}

/// One layer.
pub open spec fn layer_ops(
    cfg: Cohere2MoeConfig,
    spec_layer: CohereLayer,
    layer: usize,
    seq_len: usize,
) -> Seq<CohereOp> {
    attention_ops(cfg, spec_layer.attn_kind, layer, seq_len) + ffn_ops(cfg, spec_layer.ffn, layer)
}

/// The first `n` layers.
pub open spec fn layers_ops(
    cfg: Cohere2MoeConfig,
    layers: Seq<CohereLayer>,
    n: nat,
    seq_len: usize,
) -> Seq<CohereOp>
    decreases n,
{
    if n == 0 {
        Seq::empty()
    } else {
        layers_ops(cfg, layers, (n - 1) as nat, seq_len) + layer_ops(
            cfg,
            layers[n - 1],
            (n - 1) as usize,
            seq_len,
        )
    }
}

/// The final norm and the head.
pub open spec fn head_ops(cfg: Cohere2MoeConfig) -> Seq<CohereOp> {
    seq![CohereOp::FinalNorm { width: cfg.hidden_size }, CohereOp::LmHead]
}

fn push_ffn(cfg: Cohere2MoeConfig, ffn: Ffn, layer: usize, out: &mut Vec<CohereOp>)
    requires
        2 * cfg.moe_intermediate_size <= usize::MAX,
    ensures
        final(out)@ == old(out)@ + ffn_ops(cfg, ffn, layer),
{
    let ghost before = out@;
    match ffn {
        Ffn::Dense => {
            out.push(CohereOp::DenseGate { layer });
            out.push(CohereOp::DenseUp { layer });
            out.push(CohereOp::DenseActivate { layer });
            out.push(CohereOp::DenseDown { layer });
        },
        Ffn::Moe(dtype) => {
            let hidden: usize = cfg.hidden_size;
            let inter: usize = cfg.moe_intermediate_size;
            let top: usize = cfg.num_experts_per_tok;
            out.push(CohereOp::Route { layer });
            out.push(CohereOp::Sigmoid { layer });
            out.push(
                CohereOp::TopK { layer, n: cfg.num_experts, renormalise: cfg.norm_topk_prob },
            );
            let six = dtype == DType::MQ6G256 || dtype == DType::HFQ6G256;
            let four = dtype == DType::MQ4G256 || dtype == DType::HFQ4G256;
            if four || six {
                out.push(CohereOp::RotateInput { layer, n: hidden });
                out.push(CohereOp::GateUp { layer, six, m: 2 * inter, k: hidden, top });
                out.push(CohereOp::ActivateRotate { layer, n: inter, top });
                out.push(CohereOp::Down { layer, six, m: hidden, k: inter, top });
                out.push(CohereOp::Combine { layer, n: hidden, top });
            } else if dtype == DType::Q8_0 || dtype == DType::F16 || dtype == DType::F32 {
                out.push(CohereOp::PerExpert { layer, n: inter, top });
            } else {
                out.push(CohereOp::RefuseExperts { layer, dtype });
            }
        },
    }
    assert(out@ =~= before + ffn_ops(cfg, ffn, layer));
}

fn push_attention(
    cfg: Cohere2MoeConfig,
    kind: AttnKind,
    layer: usize,
    seq_len: usize,
    out: &mut Vec<CohereOp>,
)
    ensures
        final(out)@ == old(out)@ + attention_ops(cfg, kind, layer, seq_len),
{
    let ghost before = out@;
    out.push(CohereOp::LayerNorm { layer, width: cfg.hidden_size });
    out.push(CohereOp::Project { which: AttnProjection::Query, layer });
    out.push(CohereOp::Project { which: AttnProjection::Key, layer });
    out.push(CohereOp::Project { which: AttnProjection::Value, layer });
    if kind == AttnKind::Sliding {
        out.push(CohereOp::Rope { layer, n_rot: cfg.head_dim });
    }
    out.push(CohereOp::WriteKeys { layer });
    out.push(CohereOp::WriteValues { layer });
    out.push(CohereOp::Attend { layer, seq_len });
    out.push(CohereOp::Project { which: AttnProjection::Output, layer });
    assert(out@ =~= before + attention_ops(cfg, kind, layer, seq_len));
}

/// A decoding step: the program to run, and the tokens that the cache then holds.
#[derive(Debug, PartialEq, Eq)]
pub struct DecodeProgram {
    pub ops: Vec<CohereOp>,
    pub n_tokens: usize,
}

/// The layers, the final norm and the head for the token at `position`.
pub fn decode_step_body(
    cfg: Cohere2MoeConfig,
    layers: &Vec<CohereLayer>,
    position: u32,
) -> (r: DecodeProgram)
    requires
        position < usize::MAX,
        2 * cfg.moe_intermediate_size <= usize::MAX,
    ensures
        r.n_tokens == position + 1,
        r.ops@ == layers_ops(cfg, layers@, layers@.len(), (position + 1) as usize) + head_ops(cfg),
{
    let seq_len: usize = position as usize + 1;
    let mut ops: Vec<CohereOp> = Vec::new();
    let mut l: usize = 0;
    assert(ops@ =~= layers_ops(cfg, layers@, 0, seq_len));
    while l < layers.len()
        invariant
            2 * cfg.moe_intermediate_size <= usize::MAX,
            l <= layers.len(),
            ops@ == layers_ops(cfg, layers@, l as nat, seq_len),
        decreases layers.len() - l,
    {
        let layer = layers[l];
        let ghost before = ops@;
        push_attention(cfg, layer.attn_kind, l, seq_len, &mut ops);
        push_ffn(cfg, layer.ffn, l, &mut ops);
        l = l + 1;
        assert(ops@ =~= before + layer_ops(cfg, layers@[l - 1], (l - 1) as usize, seq_len));
    }
    let ghost body = ops@;
    ops.push(CohereOp::FinalNorm { width: cfg.hidden_size });
    ops.push(CohereOp::LmHead);
    assert(ops@ =~= body + head_ops(cfg));
    DecodeProgram { ops, n_tokens: seq_len }
}

/// Decodes one token.
pub fn decode_step(
    cfg: Cohere2MoeConfig,
    layers: &Vec<CohereLayer>,
    embed: DType,
    token: u32,
    position: u32,
) -> (r: DecodeProgram)
    requires
        position < usize::MAX,
        2 * cfg.moe_intermediate_size <= usize::MAX,
    ensures
        r.n_tokens == position + 1,
        r.ops@ == seq![CohereOp::StagePosition { at: position }, embed_op(embed, token)]
            + layers_ops(cfg, layers@, layers@.len(), (position + 1) as usize) + head_ops(cfg),
{
    let mut ops: Vec<CohereOp> = Vec::new();
    ops.push(CohereOp::StagePosition { at: position });
    ops.push(embed_lookup(embed, token));
    let mut body = decode_step_body(cfg, layers, position);
    let ghost front = ops@;
    let ghost rest = body.ops@;
    ops.append(&mut body.ops);
    assert(ops@ =~= front + rest);
    assert(front =~= seq![CohereOp::StagePosition { at: position }, embed_op(embed, token)]);
    DecodeProgram { ops, n_tokens: body.n_tokens }
}

/// One operation of running a chosen expert by itself.
#[derive(Debug, Clone, Copy, PartialEq, Eq, Structural)]
pub enum ExpertOp {
    /// The expert's fused gate and up projection.
    GateUp { expert: usize },
    /// The up half times the activation of the other: `n` values from each offset.
    Activate { gate_at: usize, up_at: usize, n: usize },
    /// Scale by the weight of the choice with this rank.
    Scale { rank: usize },
    /// The expert's down projection, added into the residual.
    Down { expert: usize },
}

/// The expert that an index stands for: the last one where it is too large.
pub open spec fn chosen_expert(index: u32, n_experts: int) -> int {
    if index < n_experts {
        index as int
    } else {
        n_experts - 1
    }
}

/// Running the choices up to rank `n`, one after the other.
pub open spec fn per_expert_ops(indices: Seq<u32>, n_experts: int, inter: usize, n: nat) -> Seq<
    ExpertOp,
>
    decreases n,
{
    if n == 0 {
        Seq::empty()
    } else {
        let expert = chosen_expert(indices[n - 1], n_experts) as usize;
        per_expert_ops(indices, n_experts, inter, (n - 1) as nat) + seq![
            ExpertOp::GateUp { expert },
            ExpertOp::Activate { gate_at: 0, up_at: inter, n: inter },
            ExpertOp::Scale { rank: (n - 1) as usize },
            ExpertOp::Down { expert },
        ]
    }
}

/// Runs the chosen experts one by one, for types without an indexed kernel.
pub fn moe_per_expert(
    indices: &Vec<u32>,
    n_experts: usize,
    inter: usize,
    top: usize,
) -> (out: Vec<ExpertOp>)
    requires
        0 < n_experts,
        top <= indices@.len(),
    ensures
        out@ == per_expert_ops(indices@, n_experts as int, inter, top as nat),
        forall|i: int|
            0 <= i < out@.len() && (#[trigger] out@[i]) is GateUp ==> out@[i]->GateUp_expert
                < n_experts,
{
    let mut out: Vec<ExpertOp> = Vec::new();
    let mut j: usize = 0;
    while j < top
        invariant
            0 < n_experts,
            top <= indices@.len(),
            j <= top,
            out@ == per_expert_ops(indices@, n_experts as int, inter, j as nat),
            forall|i: int|
                0 <= i < out@.len() && (#[trigger] out@[i]) is GateUp ==> out@[i]->GateUp_expert
                    < n_experts,
        decreases top - j,
    {
        let ghost before = out@;
        let index: usize = indices[j] as usize;
        let expert: usize = if index < n_experts {
            index
        } else {
            n_experts - 1
        };
        out.push(ExpertOp::GateUp { expert });
        out.push(ExpertOp::Activate { gate_at: 0, up_at: inter, n: inter });
        out.push(ExpertOp::Scale { rank: j });
        out.push(ExpertOp::Down { expert });
        j = j + 1;
        assert(out@ =~= before + seq![
            ExpertOp::GateUp { expert },
            ExpertOp::Activate { gate_at: 0, up_at: inter, n: inter },
            ExpertOp::Scale { rank: (j - 1) as usize },
            ExpertOp::Down { expert },
        ]);
    }
    out
}

/// One norm feeds both branches: a layer's program starts with its norm and
/// takes no other, so that the feed-forward branch reads what the attention read.
pub proof fn one_norm_feeds_both_branches(
    cfg: Cohere2MoeConfig,
    spec_layer: CohereLayer,
    layer: usize,
    seq_len: usize,
)
    ensures
        layer_ops(cfg, spec_layer, layer, seq_len)[0] is LayerNorm,
        forall|i: int|
            0 < i < layer_ops(cfg, spec_layer, layer, seq_len).len() ==> (#[trigger] layer_ops(
                cfg,
                spec_layer,
                layer,
                seq_len,
            )[i]) !is LayerNorm,
{
    let a = attention_ops(cfg, spec_layer.attn_kind, layer, seq_len);
    let f = ffn_ops(cfg, spec_layer.ffn, layer);
    let all = layer_ops(cfg, spec_layer, layer, seq_len);
    assert forall|i: int| 0 < i < all.len() implies (#[trigger] all[i]) !is LayerNorm by {
        if i < a.len() {
            assert(all[i] == a[i]);
        } else {
            assert(all[i] == f[i - a.len()]);
        }
    }
}

/// A layer rotates queries and keys exactly where it slides.
pub proof fn only_sliding_layers_rotate(
    cfg: Cohere2MoeConfig,
    kind: AttnKind,
    layer: usize,
    seq_len: usize,
)
    ensures
        kind == AttnKind::Sliding <==> exists|i: int|
            0 <= i < attention_ops(cfg, kind, layer, seq_len).len() && (#[trigger] attention_ops(
                cfg,
                kind,
                layer,
                seq_len,
            )[i]) is Rope,
{
    if kind == AttnKind::Sliding {
        assert(attention_ops(cfg, kind, layer, seq_len)[4] is Rope);
    }
}

/// Whether an operation adds the attention into the residual.
pub open spec fn adds_attention(op: CohereOp) -> bool {
    op matches CohereOp::Project { which: AttnProjection::Output, .. }
}

/// Whether an operation adds the feed-forward branch into the residual.
pub open spec fn adds_branch(op: CohereOp) -> bool {
    op is DenseDown || op is Combine || op is PerExpert
}

/// A layer adds its attention into the residual once, by the output projection
/// behind its one attending; and where its branch is not refused, one other
/// operation, the layer's last, adds that branch.
pub proof fn both_branches_are_added_once(
    cfg: Cohere2MoeConfig,
    spec_layer: CohereLayer,
    layer: usize,
    seq_len: usize,
)
    ensures
        ({
            let all = layer_ops(cfg, spec_layer, layer, seq_len);
            let out = CohereOp::Project { which: AttnProjection::Output, layer };
            &&& follows(all, CohereOp::Attend { layer, seq_len }, out)
            &&& forall|i: int|
                0 <= i < all.len() && adds_attention(#[trigger] all[i]) ==> all[i] == out
            &&& forall|i: int|
                0 <= i < all.len() && (#[trigger] all[i]) is Attend ==> all[i]
                    == (CohereOp::Attend { layer, seq_len })
            &&& forall|i: int|
                0 <= i < all.len() - 1 ==> !adds_branch(#[trigger] all[i]) && all[i]
                    !is RefuseExperts
            &&& adds_branch(all.last()) || all.last() is RefuseExperts
            &&& all.last() is RefuseExperts <==> (spec_layer.ffn matches Ffn::Moe(dtype) && dtype
                != DType::MQ4G256 && dtype != DType::HFQ4G256 && dtype != DType::MQ6G256 && dtype
                != DType::HFQ6G256 && dtype != DType::Q8_0 && dtype != DType::F16 && dtype
                != DType::F32)
        }),
{
    let all = layer_ops(cfg, spec_layer, layer, seq_len);
    let a = attention_ops(cfg, spec_layer.attn_kind, layer, seq_len);
    let f = ffn_ops(cfg, spec_layer.ffn, layer);
    let out = CohereOp::Project { which: AttnProjection::Output, layer };
    let attend = CohereOp::Attend { layer, seq_len };
    parts_of_layer(cfg, spec_layer, layer, seq_len);
    assert(only_at(all, attend, a.len() - 2));
    assert(only_at(all, out, a.len() - 1));
    assert(all.last() == f.last());
}

proof fn parts_of_layer(
    cfg: Cohere2MoeConfig,
    spec_layer: CohereLayer,
    layer: usize,
    seq_len: usize,
)
    ensures
        ({
            let all = layer_ops(cfg, spec_layer, layer, seq_len);
            let a = attention_ops(cfg, spec_layer.attn_kind, layer, seq_len);
            let f = ffn_ops(cfg, spec_layer.ffn, layer);
            &&& all.len() == a.len() + f.len()
            &&& f.len() > 0
            &&& forall|i: int| 0 <= i < a.len() ==> #[trigger] all[i] == a[i]
            &&& forall|i: int| a.len() <= i < all.len() ==> #[trigger] all[i] == f[i - a.len()]
        }),
{
}

/// In a layer's attention every operation stands behind those whose results it
/// reads: the projections behind the norm, the cache's writing behind the
/// projections and the rotation, attending behind the writing of this layer's
/// keys and values.
pub proof fn attention_reads_what_was_made(
    cfg: Cohere2MoeConfig,
    spec_layer: CohereLayer,
    layer: usize,
    seq_len: usize,
)
    ensures
        ({
            let all = layer_ops(cfg, spec_layer, layer, seq_len);
            let norm = CohereOp::LayerNorm { layer, width: cfg.hidden_size };
            let q = CohereOp::Project { which: AttnProjection::Query, layer };
            let k = CohereOp::Project { which: AttnProjection::Key, layer };
            let v = CohereOp::Project { which: AttnProjection::Value, layer };
            let rope = CohereOp::Rope { layer, n_rot: cfg.head_dim };
            let attend = CohereOp::Attend { layer, seq_len };
            &&& follows(all, norm, q)
            &&& follows(all, norm, k)
            &&& follows(all, norm, v)
            &&& follows(all, k, CohereOp::WriteKeys { layer })
            &&& follows(all, v, CohereOp::WriteValues { layer })
            &&& follows(all, q, attend)
            &&& follows(all, CohereOp::WriteKeys { layer }, attend)
            &&& follows(all, CohereOp::WriteValues { layer }, attend)
            &&& spec_layer.attn_kind == AttnKind::Sliding ==> {
                &&& follows(all, q, rope)
                &&& follows(all, k, rope)
                &&& follows(all, rope, CohereOp::WriteKeys { layer })
                &&& follows(all, rope, attend)
            }
        }),
{
    let all = layer_ops(cfg, spec_layer, layer, seq_len);
    let a = attention_ops(cfg, spec_layer.attn_kind, layer, seq_len);
    let n = a.len() as int;
    parts_of_layer(cfg, spec_layer, layer, seq_len);
    assert(only_at(all, CohereOp::LayerNorm { layer, width: cfg.hidden_size }, 0));
    assert(only_at(all, CohereOp::Project { which: AttnProjection::Query, layer }, 1));
    assert(only_at(all, CohereOp::Project { which: AttnProjection::Key, layer }, 2));
    assert(only_at(all, CohereOp::Project { which: AttnProjection::Value, layer }, 3));
    if spec_layer.attn_kind == AttnKind::Sliding {
        assert(only_at(all, CohereOp::Rope { layer, n_rot: cfg.head_dim }, 4));
    }
    assert(only_at(all, CohereOp::WriteKeys { layer }, n - 4));
    assert(only_at(all, CohereOp::WriteValues { layer }, n - 3));
    assert(only_at(all, CohereOp::Attend { layer, seq_len }, n - 2));
}

/// In a layer's feed-forward branch every operation stands behind those whose
/// results it reads, and all of it behind the norm: a dense branch's gate and
/// up projections before the activation and that before the down projection;
/// the router's scores before their sigmoid, that before the choice, and the
/// choice before the experts.
pub proof fn the_branch_reads_what_was_made(
    cfg: Cohere2MoeConfig,
    spec_layer: CohereLayer,
    layer: usize,
    seq_len: usize,
)
    requires
        2 * cfg.moe_intermediate_size <= usize::MAX,
    ensures
        ({
            let all = layer_ops(cfg, spec_layer, layer, seq_len);
            let norm = CohereOp::LayerNorm { layer, width: cfg.hidden_size };
            let hidden = cfg.hidden_size;
            let inter = cfg.moe_intermediate_size;
            let top = cfg.num_experts_per_tok;
            &&& spec_layer.ffn is Dense ==> {
                &&& follows(all, norm, CohereOp::DenseGate { layer })
                &&& follows(all, norm, CohereOp::DenseUp { layer })
                &&& follows(all, CohereOp::DenseGate { layer }, CohereOp::DenseActivate { layer })
                &&& follows(all, CohereOp::DenseUp { layer }, CohereOp::DenseActivate { layer })
                &&& follows(all, CohereOp::DenseActivate { layer }, CohereOp::DenseDown { layer })
            }
            &&& spec_layer.ffn matches Ffn::Moe(dtype) ==> {
                let four = dtype == DType::MQ4G256 || dtype == DType::HFQ4G256;
                let six = dtype == DType::MQ6G256 || dtype == DType::HFQ6G256;
                let choice = CohereOp::TopK {
                    layer,
                    n: cfg.num_experts,
                    renormalise: cfg.norm_topk_prob,
                };
                let gate_up = CohereOp::GateUp {
                    layer,
                    six,
                    m: (inter + inter) as usize,
                    k: hidden,
                    top,
                };
                let act = CohereOp::ActivateRotate { layer, n: inter, top };
                let down = CohereOp::Down { layer, six, m: hidden, k: inter, top };
                &&& follows(all, norm, CohereOp::Route { layer })
                &&& follows(all, CohereOp::Route { layer }, CohereOp::Sigmoid { layer })
                &&& follows(all, CohereOp::Sigmoid { layer }, choice)
                &&& four || six ==> {
                    &&& follows(all, norm, CohereOp::RotateInput { layer, n: hidden })
                    &&& follows(all, CohereOp::RotateInput { layer, n: hidden }, gate_up)
                    &&& follows(all, choice, gate_up)
                    &&& follows(all, gate_up, act)
                    &&& follows(all, act, down)
                    &&& follows(all, down, CohereOp::Combine { layer, n: hidden, top })
                }
                &&& dtype == DType::Q8_0 || dtype == DType::F16 || dtype == DType::F32
                    ==> follows(all, choice, CohereOp::PerExpert { layer, n: inter, top })
            }
        }),
{
    let all = layer_ops(cfg, spec_layer, layer, seq_len);
    let a = attention_ops(cfg, spec_layer.attn_kind, layer, seq_len);
    let n = a.len() as int;
    let hidden = cfg.hidden_size;
    let inter = cfg.moe_intermediate_size;
    let top = cfg.num_experts_per_tok;
    parts_of_layer(cfg, spec_layer, layer, seq_len);
    assert(only_at(all, CohereOp::LayerNorm { layer, width: hidden }, 0));
    match spec_layer.ffn {
        Ffn::Dense => {
            assert(only_at(all, CohereOp::DenseGate { layer }, n));
            assert(only_at(all, CohereOp::DenseUp { layer }, n + 1));
            assert(only_at(all, CohereOp::DenseActivate { layer }, n + 2));
            assert(only_at(all, CohereOp::DenseDown { layer }, n + 3));
        },
        Ffn::Moe(dtype) => {
            let six = six_bits(dtype);
            let choice = CohereOp::TopK {
                layer,
                n: cfg.num_experts,
                renormalise: cfg.norm_topk_prob,
            };
            assert(only_at(all, CohereOp::Route { layer }, n));
            assert(only_at(all, CohereOp::Sigmoid { layer }, n + 1));
            assert(only_at(all, choice, n + 2));
            if four_bits(dtype) || six {
                let gate_up = CohereOp::GateUp {
                    layer,
                    six,
                    m: (inter + inter) as usize,
                    k: hidden,
                    top,
                };
                assert(only_at(all, CohereOp::RotateInput { layer, n: hidden }, n + 3));
                assert(only_at(all, gate_up, n + 4));
                assert(only_at(all, CohereOp::ActivateRotate { layer, n: inter, top }, n + 5));
                assert(only_at(all, CohereOp::Down { layer, six, m: hidden, k: inter, top }, n + 6));
                assert(only_at(all, CohereOp::Combine { layer, n: hidden, top }, n + 7));
            } else if one_by_one(dtype) {
                assert(only_at(all, CohereOp::PerExpert { layer, n: inter, top }, n + 3));
            }
        },
    }
}

/// Every layer's operations stand in the program, each under its own number,
/// and the layers follow one another in their order.
pub proof fn layers_come_in_order(
    cfg: Cohere2MoeConfig,
    layers: Seq<CohereLayer>,
    n: nat,
    seq_len: usize,
    l: int,
)
    requires
        0 <= l < n <= usize::MAX,
    ensures
        holds(
            layers_ops(cfg, layers, n, seq_len),
            layer_ops(cfg, layers[l], l as usize, seq_len),
        ),
        layers_ops(cfg, layers, n, seq_len) == layers_ops(cfg, layers, l as nat, seq_len)
            + layer_ops(cfg, layers[l], l as usize, seq_len) + layers_ops(
            cfg,
            layers,
            n,
            seq_len,
        ).skip(layers_ops(cfg, layers, (l + 1) as nat, seq_len).len() as int),
    decreases n,
{
    let all = layers_ops(cfg, layers, n, seq_len);
    let before = layers_ops(cfg, layers, (n - 1) as nat, seq_len);
    let last = layer_ops(cfg, layers[n - 1], (n - 1) as usize, seq_len);
    let own = layer_ops(cfg, layers[l], l as usize, seq_len);
    let up_to = layers_ops(cfg, layers, (l + 1) as nat, seq_len).len() as int;
    if l == n - 1 {
        held_in_itself(last);
        held_in_longer(before, last, Seq::empty(), own);
        assert(before + last + Seq::empty() =~= all);
        assert(all.skip(up_to) =~= Seq::empty());
    } else {
        layers_come_in_order(cfg, layers, (n - 1) as nat, seq_len, l);
        held_in_longer(Seq::empty(), before, last, own);
        assert(Seq::empty() + before + last =~= all);
        assert(up_to <= before.len());
        assert(all.skip(up_to) =~= before.skip(up_to) + last);
        assert(all =~= layers_ops(cfg, layers, l as nat, seq_len) + own + all.skip(up_to));
    }
}

/// Run one by one, the choices are run by falling rank: the choice of a rank is
/// projected, activated from the two halves of that projection, scaled by the
/// weight of its own rank and added, before the next is begun.
pub proof fn choices_are_run_by_rank(
    indices: Seq<u32>,
    n_experts: int,
    inter: usize,
    n: nat,
    rank: int,
)
    requires
        0 <= rank < n <= usize::MAX,
        0 < n_experts <= usize::MAX,
    ensures
        ({
            let ops = per_expert_ops(indices, n_experts, inter, n);
            &&& ops.len() == 4 * n
            &&& ops[4 * rank] is GateUp
            &&& ops[4 * rank]->GateUp_expert < n_experts
            &&& indices[rank] < n_experts ==> ops[4 * rank]->GateUp_expert == indices[rank]
            &&& indices[rank] >= n_experts ==> ops[4 * rank]->GateUp_expert == n_experts - 1
            &&& ops[4 * rank + 1] == (ExpertOp::Activate { gate_at: 0, up_at: inter, n: inter })
            &&& ops[4 * rank + 2] is Scale
            &&& ops[4 * rank + 2]->rank == rank
            &&& ops[4 * rank + 3] is Down
            &&& ops[4 * rank + 3]->Down_expert == ops[4 * rank]->GateUp_expert
        }),
    decreases n,
{
    let before = per_expert_ops(indices, n_experts, inter, (n - 1) as nat);
    let ops = per_expert_ops(indices, n_experts, inter, n);
    if n > 1 {
        choices_are_run_by_rank(indices, n_experts, inter, (n - 1) as nat, if rank < n - 1 {
            rank
        } else {
            0
        });
    }
    assert(before.len() == 4 * (n - 1));
    if rank < n - 1 {
        assert(ops[4 * rank] == before[4 * rank]);
        assert(ops[4 * rank + 1] == before[4 * rank + 1]);
        assert(ops[4 * rank + 2] == before[4 * rank + 2]);
        assert(ops[4 * rank + 3] == before[4 * rank + 3]);
    }
}

/// A token is put into the residual by the lookup of the embedding's own type,
/// and by none where that type has none.
pub proof fn tokens_are_looked_up(dtype: DType, token: u32)
    ensures
        embed_op(dtype, token) is RefuseEmbed <==> dtype != DType::Q8_0 && dtype != DType::F32,
        embed_op(dtype, token) is RefuseEmbed ==> embed_op(dtype, token)->RefuseEmbed_dtype
            == dtype,
        embed_op(dtype, token) is Embed ==> embed_op(dtype, token)->token == token,
        embed_op(dtype, token) is Embed ==> embed_op(dtype, token)->quantised == (dtype
            != DType::F32),
{
}

/// The pass stops exactly at its refusals, each of which names the type that it
/// refuses, and of experts the layer.
pub proof fn refusals_name_what_they_refuse(op: CohereOp)
    ensures
        op.refusal_text() is Some <==> op is RefuseEmbed || op is RefuseExperts,
        op matches CohereOp::RefuseEmbed { dtype } ==> {
            &&& op.refusal_text() matches Some(t) && text::begins(
                t,
                "cohere2moe: embed dtype "@ + dtype.text(),
            )
        },
        op matches CohereOp::RefuseExperts { layer, dtype } ==> {
            &&& op.refusal_text() matches Some(t) && text::begins(
                t,
                "cohere2moe L"@ + decimal(layer as nat),
            ) && text::ends(t, "dtype "@ + dtype.text())
        },
{
    match op {
        CohereOp::RefuseEmbed { dtype } => {
            let t = op.refusal_text()->Some_0;
            let head = "cohere2moe: embed dtype "@ + dtype.text();
            assert(t.subrange(0, head.len() as int) =~= head);
        },
        CohereOp::RefuseExperts { layer, dtype } => {
            let t = op.refusal_text()->Some_0;
            let head = "cohere2moe L"@ + decimal(layer as nat);
            assert(t.subrange(0, head.len() as int) =~= head);
            reveal_strlit(": unsupported expert dtype ");
            reveal_strlit("dtype ");
            let tail = "dtype "@ + dtype.text();
            assert(t.subrange(t.len() - tail.len(), t.len() as int) =~= tail);
        },
        _ => {},
    }
}

} // verus!
