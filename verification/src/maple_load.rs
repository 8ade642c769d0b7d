//! Loading Maple's weights: the tensors in their order, their shapes, and the
//! quantisation tiers that the kernels take.

use crate::dtype::{widen, widened, DType};
use crate::hfq::{lookup, raw_view, read_tensor, RawTensor};
use crate::maple::{
    expert_name, expert_tensor_name, layer_name, layer_text, router_name, router_tensor_name, ExpertProj,
    EMBED_TENSOR_NAME, FINAL_NORM_TENSOR_NAME, LM_HEAD_TENSOR_NAME,
};
use crate::maple_config::MapleConfig;
use crate::text;
use crate::text::decimal;
use vstd::prelude::*;

verus! {

/// The element type of a weight matrix of a tier.
pub open spec fn matrix_type(tier: u8) -> Option<DType> {
    if tier == 1 {
        Some(DType::F16)
    } else if tier == 2 {
        Some(DType::F32)
    } else if tier == 16 {
        Some(DType::BF16)
    } else if tier == 3 {
        Some(DType::Q8_0)
    } else if tier == 13 {
        Some(DType::MQ4G256)
    } else if tier == 15 {
        Some(DType::MQ6G256)
    } else if tier == 19 {
        Some(DType::MQ2G256Lloyd)
    } else if tier == 51 {
        Some(DType::MQ2G256LloydU)
    } else {
        None
    }
}

/// The element type of a weight matrix of a tier.
pub fn wt_from_raw(tier: u8) -> (r: Option<DType>)
    ensures
        r == matrix_type(tier),
{
    match tier {
        1 => Some(DType::F16),
        2 => Some(DType::F32),
        16 => Some(DType::BF16),
        3 => Some(DType::Q8_0),
        13 => Some(DType::MQ4G256),
        15 => Some(DType::MQ6G256),
        19 => Some(DType::MQ2G256Lloyd),
        51 => Some(DType::MQ2G256LloydU),
        _ => None,
    }
}

/// The element type of a vector of a tier: vectors are widened to 32-bit
/// floats from one of four types.
pub open spec fn vector_type(tier: u8) -> Option<DType> {
    if tier == 1 {
        Some(DType::F16)
    } else if tier == 2 {
        Some(DType::F32)
    } else if tier == 3 {
        Some(DType::Q8_0)
    } else if tier == 16 {
        Some(DType::BF16)
    } else {
        None
    }
}

fn vector_from_raw(tier: u8) -> (r: Option<DType>)
    ensures
        r == vector_type(tier),
{
    match tier {
        1 => Some(DType::F16),
        2 => Some(DType::F32),
        3 => Some(DType::Q8_0),
        16 => Some(DType::BF16),
        _ => None,
    }
}

/// One tensor, or one fused pair, to load.
#[derive(Debug, PartialEq, Eq)]
pub enum LoadStep {
    /// The embedding.
    Embed,
    /// A weight matrix of `m` rows and `k` columns.
    Matrix { name: String, m: usize, k: usize },
    /// A vector of floats.
    Vector { name: String, len: usize },
    /// An expert's gate and up projections, fused into one matrix.
    GateUp { layer: usize, expert: usize, m: usize, k: usize },
    /// An expert's down projection.
    Down { layer: usize, expert: usize, m: usize, k: usize },
}

/// What a load step holds.
pub enum LoadStepV {
    Embed,
    Matrix(Seq<char>, int, int),
    Vector(Seq<char>, int),
    GateUp(nat, nat, int, int),
    Down(nat, nat, int, int),
}

impl View for LoadStep {
    type V = LoadStepV;

    open spec fn view(&self) -> LoadStepV {
        match self {
            LoadStep::Embed => LoadStepV::Embed,
            LoadStep::Matrix { name, m, k } => LoadStepV::Matrix(name@, *m as int, *k as int),
            LoadStep::Vector { name, len } => LoadStepV::Vector(name@, *len as int),
            LoadStep::GateUp { layer, expert, m, k } => LoadStepV::GateUp(
                *layer as nat,
                *expert as nat,
                *m as int,
                *k as int,
            ),
            LoadStep::Down { layer, expert, m, k } => LoadStepV::Down(
                *layer as nat,
                *expert as nat,
                *m as int,
                *k as int,
            ),
        }
    }
}

/// What each of several steps holds.
pub open spec fn steps_view(steps: Seq<LoadStep>) -> Seq<LoadStepV> {
    steps.map_values(|s: LoadStep| s@)
}

/// What is loaded before the layers.
pub open spec fn head_steps(cfg: &MapleConfig) -> Seq<LoadStepV> {
    seq![
        LoadStepV::Embed,
        LoadStepV::Matrix(LM_HEAD_TENSOR_NAME@, cfg.vocab_size as int, cfg.hidden_size as int),
        LoadStepV::Vector(FINAL_NORM_TENSOR_NAME@, cfg.hidden_size as int),
    ]
}

/// What is loaded of a layer before its experts.
pub open spec fn attention_steps(cfg: &MapleConfig, layer: nat) -> Seq<LoadStepV> {
    let hidden = cfg.hidden_size as int;
    let q = cfg.num_attention_heads * cfg.head_dim;
    let kv = cfg.num_key_value_heads * cfg.head_dim;
    let head = cfg.head_dim as int;
    seq![
        LoadStepV::Vector(layer_name(layer, ".input_layernorm.weight"@), hidden),
        LoadStepV::Vector(layer_name(layer, ".post_attention_layernorm.weight"@), hidden),
        LoadStepV::Matrix(layer_name(layer, ".self_attn.q_proj.weight"@), q, hidden),
        LoadStepV::Matrix(layer_name(layer, ".self_attn.k_proj.weight"@), kv, hidden),
        LoadStepV::Matrix(layer_name(layer, ".self_attn.v_proj.weight"@), kv, hidden),
        LoadStepV::Matrix(layer_name(layer, ".self_attn.o_proj.weight"@), hidden, q),
        LoadStepV::Vector(layer_name(layer, ".self_attn.q_norm.weight"@), head),
        LoadStepV::Vector(layer_name(layer, ".self_attn.k_norm.weight"@), head),
        LoadStepV::Matrix(router_name(layer), cfg.num_experts as int, hidden),
    ]
}

/// What is loaded of a layer's first `n` experts.
pub open spec fn expert_steps(cfg: &MapleConfig, layer: nat, n: nat) -> Seq<LoadStepV>
    decreases n,
{
    if n == 0 {
        Seq::empty()
    } else {
        let e = (n - 1) as nat;
        let hidden = cfg.hidden_size as int;
        let inter = cfg.moe_intermediate_size as int;
        expert_steps(cfg, layer, e).push(LoadStepV::GateUp(layer, e, 2 * inter, hidden)).push(
            LoadStepV::Down(layer, e, hidden, inter),
        )
    }
}

/// What is loaded up to and with the first `n` layers.
pub open spec fn load_steps(cfg: &MapleConfig, n: nat) -> Seq<LoadStepV>
    decreases n,
{
    if n == 0 {
        head_steps(cfg)
    } else {
        let l = (n - 1) as nat;
        load_steps(cfg, l) + attention_steps(cfg, l) + expert_steps(
            cfg,
            l,
            cfg.num_experts as nat,
        )
    }
}

fn push_attention_steps(cfg: &MapleConfig, layer: usize, out: &mut Vec<LoadStep>)
    requires
        cfg.wf(),
    ensures
        steps_view(final(out)@) == steps_view(old(out)@) + attention_steps(cfg, layer as nat),
{
    let ghost before = out@;
    let hidden: usize = cfg.hidden_size;
    let q: usize = cfg.q_dim();
    let kv: usize = cfg.kv_dim();
    let head: usize = cfg.head_dim;
    out.push(
        LoadStep::Vector { name: layer_text(layer, ".input_layernorm.weight"), len: hidden },
    );
    out.push(
        LoadStep::Vector {
            name: layer_text(layer, ".post_attention_layernorm.weight"),
            len: hidden,
        },
    );
    out.push(
        LoadStep::Matrix { name: layer_text(layer, ".self_attn.q_proj.weight"), m: q, k: hidden },
    );
    out.push(
        LoadStep::Matrix { name: layer_text(layer, ".self_attn.k_proj.weight"), m: kv, k: hidden },
    );
    out.push(
        LoadStep::Matrix { name: layer_text(layer, ".self_attn.v_proj.weight"), m: kv, k: hidden },
    );
    out.push(
        LoadStep::Matrix { name: layer_text(layer, ".self_attn.o_proj.weight"), m: hidden, k: q },
    );
    out.push(
        LoadStep::Vector { name: layer_text(layer, ".self_attn.q_norm.weight"), len: head },
    );
    out.push(
        LoadStep::Vector { name: layer_text(layer, ".self_attn.k_norm.weight"), len: head },
    );
    out.push(
        LoadStep::Matrix { name: router_tensor_name(layer), m: cfg.num_experts, k: hidden },
    );
    assert(steps_view(out@) =~= steps_view(before) + attention_steps(cfg, layer as nat));
}

fn push_expert_steps(cfg: &MapleConfig, layer: usize, out: &mut Vec<LoadStep>)
    requires
        cfg.wf(),
    ensures
        steps_view(final(out)@) == steps_view(old(out)@) + expert_steps(
            cfg,
            layer as nat,
            cfg.num_experts as nat,
        ),
{
    let ghost before = steps_view(out@);
    let mut e: usize = 0;
    assert(steps_view(out@) =~= before + expert_steps(cfg, layer as nat, 0));
    while e < cfg.num_experts
        invariant
            cfg.wf(),
            e <= cfg.num_experts,
            steps_view(out@) == before + expert_steps(cfg, layer as nat, e as nat),
        decreases cfg.num_experts - e,
    {
        let ghost now = steps_view(out@);
        let ghost had = out@;
        out.push(
            LoadStep::GateUp {
                layer,
                expert: e,
                m: 2 * cfg.moe_intermediate_size,
                k: cfg.hidden_size,
            },
        );
        out.push(
            LoadStep::Down { layer, expert: e, m: cfg.hidden_size, k: cfg.moe_intermediate_size },
        );
        proof {
            let a = LoadStepV::GateUp(
                layer as nat,
                e as nat,
                2 * cfg.moe_intermediate_size as int,
                cfg.hidden_size as int,
            );
            let b = LoadStepV::Down(
                layer as nat,
                e as nat,
                cfg.hidden_size as int,
                cfg.moe_intermediate_size as int,
            );
            assert(steps_view(out@) =~= now.push(a).push(b));
            assert(steps_view(out@) =~= before + expert_steps(cfg, layer as nat, (e + 1) as nat));
        }
        e = e + 1;
    }
}

/// What is loaded, in order: the embedding, the head and the final norm, then
/// layer by layer the norms, the projections, the router and the experts.
pub fn load_plan(cfg: &MapleConfig) -> (out: Vec<LoadStep>)
    requires
        cfg.wf(),
    ensures
        steps_view(out@) == load_steps(cfg, cfg.num_hidden_layers as nat),
{
    let mut out: Vec<LoadStep> = Vec::new();
    out.push(LoadStep::Embed);
    out.push(
        LoadStep::Matrix {
            name: LM_HEAD_TENSOR_NAME.to_owned(),
            m: cfg.vocab_size,
            k: cfg.hidden_size,
        },
    );
    out.push(LoadStep::Vector { name: FINAL_NORM_TENSOR_NAME.to_owned(), len: cfg.hidden_size });
    assert(steps_view(out@) =~= load_steps(cfg, 0));
    let mut l: usize = 0;
    while l < cfg.num_hidden_layers
        invariant
            cfg.wf(),
            l <= cfg.num_hidden_layers,
            steps_view(out@) == load_steps(cfg, l as nat),
        decreases cfg.num_hidden_layers - l,
    {
        push_attention_steps(cfg, l, &mut out);
        push_expert_steps(cfg, l, &mut out);
        assert(steps_view(out@) =~= load_steps(cfg, (l + 1) as nat));
        l = l + 1;
    }
    out
}

/// What a step has loaded.
#[derive(Debug, PartialEq, Eq)]
pub enum Loaded {
    /// The embedding, in its own bytes.
    Embed { dtype: DType, data: Vec<u8> },
    /// The embedding, widened: the bits of 32-bit floats.
    WidenedEmbed { bits: Vec<u32> },
    /// A weight matrix.
    Matrix { dtype: DType, m: usize, k: usize, data: Vec<u8> },
    /// A vector, in its own bytes.
    Vector { dtype: DType, len: usize, data: Vec<u8> },
}

/// What a loaded tensor holds.
pub enum LoadedV {
    Embed(DType, Seq<u8>),
    WidenedEmbed(Seq<u32>),
    Matrix(DType, int, int, Seq<u8>),
    Vector(DType, int, Seq<u8>),
}

impl View for Loaded {
    type V = LoadedV;

    open spec fn view(&self) -> LoadedV {
        match self {
            Loaded::Embed { dtype, data } => LoadedV::Embed(*dtype, data@),
            Loaded::WidenedEmbed { bits } => LoadedV::WidenedEmbed(bits@),
            Loaded::Matrix { dtype, m, k, data } => LoadedV::Matrix(
                *dtype,
                *m as int,
                *k as int,
                data@,
            ),
            Loaded::Vector { dtype, len, data } => LoadedV::Vector(*dtype, *len as int, data@),
        }
    }
}

/// What each of several loaded tensors holds.
pub open spec fn loaded_view(loaded: Seq<Loaded>) -> Seq<LoadedV> {
    loaded.map_values(|l: Loaded| l@)
}

/// The text of a missing tensor's error.
pub open spec fn missing(name: Seq<char>) -> Seq<char> {
    "maple: tensor not found in HFQ: "@ + name
}

/// The text of an unknown tier's error.
pub open spec fn unsupported(tier: u8) -> Seq<char> {
    "unsupported quant_type "@ + decimal(tier as nat)
}

/// The place of an expert in an error's text.
pub open spec fn place(layer: nat, expert: nat) -> Seq<char> {
    "L"@ + decimal(layer) + "E"@ + decimal(expert)
}

/// What a step comes to: what it loads, or its error's text. The tensors are
/// those under the step's names; the second is read only for a fused pair.
pub open spec fn step_outcome(
    step: LoadStepV,
    first: Option<(u8, Seq<u8>)>,
    second: Option<(u8, Seq<u8>)>,
) -> Result<LoadedV, Seq<char>> {
    match step {
        LoadStepV::Embed => match first {
            None => Err(missing(EMBED_TENSOR_NAME@)),
            Some((tier, data)) => if tier == 16 {
                Ok(LoadedV::WidenedEmbed(widened(data)))
            } else if tier == 2 {
                Ok(LoadedV::Embed(DType::F32, data))
            } else if tier == 3 {
                Ok(LoadedV::Embed(DType::Q8_0, data))
            } else {
                Err(
                    "maple: embed quant_type "@ + decimal(tier as nat)
                        + " has no lookup path (expected BF16, F32 or Q8)"@,
                )
            },
        },
        LoadStepV::Matrix(name, m, k) => match first {
            None => Err(missing(name)),
            Some((tier, data)) => match matrix_type(tier) {
                Some(dtype) => Ok(LoadedV::Matrix(dtype, m, k, data)),
                None => Err("maple: load_wt "@ + name + ": "@ + unsupported(tier)),
            },
        },
        LoadStepV::Vector(name, len) => match first {
            None => Err(missing(name)),
            Some((tier, data)) => match vector_type(tier) {
                Some(dtype) => Ok(LoadedV::Vector(dtype, len, data)),
                None => Err(
                    "maple: expected F16/BF16/F32/Q8 for "@ + name + ", got qt="@ + decimal(
                        tier as nat,
                    ),
                ),
            },
        },
        LoadStepV::GateUp(layer, expert, m, k) => match first {
            None => Err(missing(expert_name(layer, expert, ExpertProj::Gate))),
            Some((gate_tier, gate)) => match second {
                None => Err(missing(expert_name(layer, expert, ExpertProj::Up))),
                Some((up_tier, up)) => if gate_tier != up_tier {
                    Err(
                        "maple "@ + place(layer, expert) + ": gate/up dtype mismatch ("@ + decimal(
                            gate_tier as nat,
                        ) + " vs "@ + decimal(up_tier as nat) + ") — cannot byte-fuse gate_up"@,
                    )
                } else {
                    match matrix_type(gate_tier) {
                        Some(dtype) => Ok(LoadedV::Matrix(dtype, m, k, gate + up)),
                        None => Err(
                            "maple: fuse gate_up "@ + place(layer, expert) + ": "@ + unsupported(
                                gate_tier,
                            ),
                        ),
                    }
                },
            },
        },
        LoadStepV::Down(layer, expert, m, k) => match first {
            None => Err(missing(expert_name(layer, expert, ExpertProj::Down))),
            Some((tier, data)) => match matrix_type(tier) {
                Some(dtype) => Ok(LoadedV::Matrix(dtype, m, k, data)),
                None => Err(
                    "maple: down "@ + place(layer, expert) + ": "@ + unsupported(tier),
                ),
            },
        },
    }
}

fn missing_text(name: &str) -> (r: String)
    ensures
        r@ == missing(name@),
{
    let mut s = "maple: tensor not found in HFQ: ".to_owned();
    s.append(name);
    s
}

fn push_unsupported(s: &mut String, tier: u8)
    ensures
        final(s)@ == old(s)@ + unsupported(tier),
{
    let ghost before = s@;
    s.append("unsupported quant_type ");
    text::push_decimal(s, tier as usize);
    assert(s@ =~= before + unsupported(tier));
}

fn push_place(s: &mut String, layer: usize, expert: usize)
    ensures
        final(s)@ == old(s)@ + place(layer as nat, expert as nat),
{
    let ghost before = s@;
    s.append("L");
    text::push_decimal(s, layer);
    s.append("E");
    text::push_decimal(s, expert);
    assert(s@ =~= before + place(layer as nat, expert as nat));
}

/// Whether a step's outcome, with its error as a text, is the one owed.
pub open spec fn outcome_is(r: Result<Loaded, String>, owed: Result<LoadedV, Seq<char>>) -> bool {
    match owed {
        Ok(v) => r is Ok && r->Ok_0@ == v,
        Err(e) => r is Err && r->Err_0@ == e,
    }
}

/// The names of the tensors that a step reads: one, or the two of a fused pair.
pub open spec fn step_names(step: LoadStepV) -> (Seq<char>, Option<Seq<char>>) {
    match step {
        LoadStepV::Embed => (EMBED_TENSOR_NAME@, None),
        LoadStepV::Matrix(name, _, _) => (name, None),
        LoadStepV::Vector(name, _) => (name, None),
        LoadStepV::GateUp(layer, expert, _, _) => (
            expert_name(layer, expert, ExpertProj::Gate),
            Some(expert_name(layer, expert, ExpertProj::Up)),
        ),
        LoadStepV::Down(layer, expert, _, _) => (
            expert_name(layer, expert, ExpertProj::Down),
            None,
        ),
    }
}

/// The names of the tensors that a step reads.
pub fn names_of(step: &LoadStep) -> (r: (String, Option<String>))
    ensures
        r.0@ == step_names(step@).0,
        crate::chat::opt_text(r.1) == step_names(step@).1,
{
    match step {
        LoadStep::Embed => (EMBED_TENSOR_NAME.to_owned(), None),
        LoadStep::Matrix { name, .. } => (name.clone(), None),
        LoadStep::Vector { name, .. } => (name.clone(), None),
        LoadStep::GateUp { layer, expert, .. } => (
            expert_tensor_name(*layer, *expert, ExpertProj::Gate),
            Some(expert_tensor_name(*layer, *expert, ExpertProj::Up)),
        ),
        LoadStep::Down { layer, expert, .. } => (
            expert_tensor_name(*layer, *expert, ExpertProj::Down),
            None,
        ),
    }
}

/// Makes of the tensors that a step reads what it loads.
pub fn load_step(
    step: &LoadStep,
    first: Option<(u8, Vec<u8>)>,
    second: Option<(u8, Vec<u8>)>,
) -> (r: Result<Loaded, String>)
    ensures
        outcome_is(r, step_outcome(step@, raw_view(first), raw_view(second))),
{
    let (tier, data) = match first {
        Some(p) => p,
        None => {
            let (name, _) = names_of(step);
            return Err(missing_text(name.as_str()));
        },
    };
    match step {
        LoadStep::Embed => {
            if tier == 16 {
                Ok(Loaded::WidenedEmbed { bits: widen(&data) })
            } else if tier == 2 {
                Ok(Loaded::Embed { dtype: DType::F32, data })
            } else if tier == 3 {
                Ok(Loaded::Embed { dtype: DType::Q8_0, data })
            } else {
                let mut s = "maple: embed quant_type ".to_owned();
                text::push_decimal(&mut s, tier as usize);
                s.append(" has no lookup path (expected BF16, F32 or Q8)");
                Err(s)
            }
        },
        LoadStep::Matrix { name, m, k } => match wt_from_raw(tier) {
            Some(dtype) => Ok(Loaded::Matrix { dtype, m: *m, k: *k, data }),
            None => {
                let mut s = "maple: load_wt ".to_owned();
                s.append(name.as_str());
                s.append(": ");
                push_unsupported(&mut s, tier);
                Err(s)
            },
        },
        LoadStep::Vector { name, len } => match vector_from_raw(tier) {
            Some(dtype) => Ok(Loaded::Vector { dtype, len: *len, data }),
            None => {
                let mut s = "maple: expected F16/BF16/F32/Q8 for ".to_owned();
                s.append(name.as_str());
                s.append(", got qt=");
                text::push_decimal(&mut s, tier as usize);
                Err(s)
            },
        },
        LoadStep::GateUp { layer, expert, m, k } => {
            let (up_tier, up) = match second {
                Some(p) => p,
                None => {
                    let name = expert_tensor_name(*layer, *expert, ExpertProj::Up);
                    return Err(missing_text(name.as_str()));
                },
            };
            if tier != up_tier {
                let mut s = "maple ".to_owned();
                push_place(&mut s, *layer, *expert);
                s.append(": gate/up dtype mismatch (");
                text::push_decimal(&mut s, tier as usize);
                s.append(" vs ");
                text::push_decimal(&mut s, up_tier as usize);
                s.append(") — cannot byte-fuse gate_up");
                return Err(s);
            }
            match wt_from_raw(tier) {
                Some(dtype) => {
                    let ghost gate = data@;
                    let mut fused = data;
                    let mut up = up;
                    fused.append(&mut up);
                    Ok(Loaded::Matrix { dtype, m: *m, k: *k, data: fused })
                },
                None => {
                    let mut s = "maple: fuse gate_up ".to_owned();
                    push_place(&mut s, *layer, *expert);
                    s.append(": ");
                    push_unsupported(&mut s, tier);
                    Err(s)
                },
            }
        },
        LoadStep::Down { layer, expert, m, k } => match wt_from_raw(tier) {
            Some(dtype) => Ok(Loaded::Matrix { dtype, m: *m, k: *k, data }),
            None => {
                let mut s = "maple: down ".to_owned();
                push_place(&mut s, *layer, *expert);
                s.append(": ");
                push_unsupported(&mut s, tier);
                Err(s)
            },
        },
    }
}

/// What a step comes to on a table of tensors.
pub open spec fn table_outcome(table: Seq<RawTensor>, step: LoadStepV) -> Result<
    LoadedV,
    Seq<char>,
> {
    let names = step_names(step);
    step_outcome(
        step,
        lookup(table, names.0),
        match names.1 {
            Some(n) => lookup(table, n),
            None => None,
        },
    )
}

/// What all steps come to: what each loads, or the error of the first that fails.
pub open spec fn load_outcome(table: Seq<RawTensor>, steps: Seq<LoadStepV>) -> Result<
    Seq<LoadedV>,
    Seq<char>,
>
    decreases steps.len(),
{
    if steps.len() == 0 {
        Ok(Seq::empty())
    } else {
        match load_outcome(table, steps.drop_last()) {
            Ok(done) => match table_outcome(table, steps.last()) {
                Ok(v) => Ok(done.push(v)),
                Err(e) => Err(e),
            },
            Err(e) => Err(e),
        }
    }
}

proof fn first_error_stands(table: Seq<RawTensor>, steps: Seq<LoadStepV>, k: int, e: Seq<char>)
    requires
        0 <= k <= steps.len(),
        load_outcome(table, steps.subrange(0, k)) == Err::<Seq<LoadedV>, Seq<char>>(e),
    ensures
        load_outcome(table, steps) == Err::<Seq<LoadedV>, Seq<char>>(e),
    decreases steps.len(),
{
    if k == steps.len() {
        assert(steps.subrange(0, k) =~= steps);
    } else {
        assert(steps.drop_last().subrange(0, k) =~= steps.subrange(0, k));
        first_error_stands(table, steps.drop_last(), k, e);
    }
}

/// A load fails exactly where some step fails, and the error is that of the
/// first step that does.
pub proof fn load_fails_at_first_failing_step(
    table: Seq<RawTensor>,
    steps: Seq<LoadStepV>,
)
    ensures
        load_outcome(table, steps) is Ok <==> forall|i: int|
            0 <= i < steps.len() ==> table_outcome(table, #[trigger] steps[i]) is Ok,
        load_outcome(table, steps) is Ok ==> load_outcome(table, steps)->Ok_0.len() == steps.len()
            && forall|i: int|
            0 <= i < steps.len() ==> table_outcome(table, #[trigger] steps[i]) == Ok::<
                LoadedV,
                Seq<char>,
            >(load_outcome(table, steps)->Ok_0[i]),
        load_outcome(table, steps) is Err ==> exists|i: int|
            0 <= i < steps.len() && table_outcome(table, #[trigger] steps[i]) == Err::<
                LoadedV,
                Seq<char>,
            >(load_outcome(table, steps)->Err_0) && forall|j: int|
                0 <= j < i ==> table_outcome(table, #[trigger] steps[j]) is Ok,
    decreases steps.len(),
{
    if steps.len() > 0 {
        let init = steps.drop_last();
        load_fails_at_first_failing_step(table, init);
        assert(forall|i: int| 0 <= i < init.len() ==> init[i] == steps[i]);
        let last = steps.len() - 1;
        assert(steps[last] == steps.last());
        if load_outcome(table, init) is Err {
            let i = choose|i: int|
                0 <= i < init.len() && table_outcome(table, #[trigger] init[i]) == Err::<
                    LoadedV,
                    Seq<char>,
                >(load_outcome(table, init)->Err_0) && forall|j: int|
                    0 <= j < i ==> table_outcome(table, #[trigger] init[j]) is Ok;
            assert(table_outcome(table, steps[i]) is Err);
            assert forall|j: int| 0 <= j < i implies table_outcome(
                table,
                #[trigger] steps[j],
            ) is Ok by {
                assert(table_outcome(table, init[j]) is Ok);
            }
        } else {
            assert forall|i: int| 0 <= i < init.len() implies table_outcome(
                table,
                #[trigger] steps[i],
            ) is Ok by {
                assert(table_outcome(table, init[i]) is Ok);
            }
            if table_outcome(table, steps.last()) is Ok {
                let all = load_outcome(table, steps)->Ok_0;
                assert forall|i: int| 0 <= i < steps.len() implies table_outcome(
                    table,
                    #[trigger] steps[i],
                ) == Ok::<LoadedV, Seq<char>>(all[i]) by {
                    if i < last {
                        assert(table_outcome(table, init[i]) == Ok::<LoadedV, Seq<char>>(
                            load_outcome(table, init)->Ok_0[i],
                        ));
                    }
                }
            }
        }
    }
}

/// Maple's weights: what the load plan loads, step by step.
#[derive(Debug, PartialEq, Eq)]
pub struct MapleWeights {
    pub loaded: Vec<Loaded>,
}

impl MapleWeights {
    /// Loads the weights from a model file's tensors.
    pub fn load(table: &Vec<RawTensor>, cfg: &MapleConfig) -> (r: Result<MapleWeights, String>)
        requires
            cfg.wf(),
        ensures
            match load_outcome(table@, load_steps(cfg, cfg.num_hidden_layers as nat)) {
                Ok(all) => r is Ok && loaded_view(r->Ok_0.loaded@) == all,
                Err(e) => r is Err && r->Err_0@ == e,
            },
    {
        let plan = load_plan(cfg);
        let ghost steps = steps_view(plan@);
        let mut loaded: Vec<Loaded> = Vec::new();
        let mut i: usize = 0;
        assert(loaded_view(loaded@) =~= Seq::<LoadedV>::empty());
        while i < plan.len()
            invariant
                i <= plan.len(),
                steps == steps_view(plan@),
                steps == load_steps(cfg, cfg.num_hidden_layers as nat),
                load_outcome(table@, steps.subrange(0, i as int)) == Ok::<
                    Seq<LoadedV>,
                    Seq<char>,
                >(loaded_view(loaded@)),
            decreases plan.len() - i,
        {
            let step = &plan[i];
            let ghost pre = steps.subrange(0, i + 1);
            assert(pre.drop_last() =~= steps.subrange(0, i as int));
            assert(pre.last() == step@);
            let (name, other) = names_of(step);
            let first = read_tensor(table, name.as_str());
            let second = match other {
                Some(n) => read_tensor(table, n.as_str()),
                None => None,
            };
            match load_step(step, first, second) {
                Ok(v) => {
                    let ghost had = loaded@;
                    loaded.push(v);
                    assert(loaded_view(loaded@) =~= loaded_view(had).push(v@));
                },
                Err(e) => {
                    proof {
                        first_error_stands(table@, steps, i + 1, e@);
                    }
                    return Err(e);
                },
            }
            i = i + 1;
        }
        assert(steps.subrange(0, steps.len() as int) =~= steps);
        Ok(MapleWeights { loaded })
    }
}

/// The steps of one layer.
pub open spec fn layer_steps(cfg: &MapleConfig, layer: nat) -> Seq<LoadStepV> {
    attention_steps(cfg, layer) + expert_steps(cfg, layer, cfg.num_experts as nat)
}

/// Where a layer's steps begin in the plan.
pub open spec fn layer_base(cfg: &MapleConfig, layer: int) -> int {
    3 + layer * (9 + 2 * cfg.num_experts)
}

proof fn expert_steps_shape(cfg: &MapleConfig, layer: nat, n: nat)
    ensures
        expert_steps(cfg, layer, n).len() == 2 * n,
    decreases n,
{
    if n > 0 {
        expert_steps_shape(cfg, layer, (n - 1) as nat);
    }
}

/// The plan holds each layer's steps in a row, from the layer's base on.
pub proof fn plan_holds_layers(cfg: &MapleConfig, n: nat)
    ensures
        load_steps(cfg, n).len() == layer_base(cfg, n as int),
        forall|l: int|
            0 <= l < n ==> #[trigger] load_steps(cfg, n).subrange(
                layer_base(cfg, l),
                layer_base(cfg, l + 1),
            ) == layer_steps(cfg, l as nat),
    decreases n,
{
    let step = 9 + 2 * cfg.num_experts;
    if n == 0 {
        assert(0 * step == 0) by (nonlinear_arith);
    } else {
        let m = (n - 1) as nat;
        plan_holds_layers(cfg, m);
        expert_steps_shape(cfg, m, cfg.num_experts as nat);
        assert(n * step == m * step + step) by (nonlinear_arith)
            requires
                n == m + 1,
        ;
        let all = load_steps(cfg, n);
        let init = load_steps(cfg, m);
        assert(all =~= init + layer_steps(cfg, m));
        assert forall|l: int| 0 <= l < n implies #[trigger] all.subrange(
            layer_base(cfg, l),
            layer_base(cfg, l + 1),
        ) == layer_steps(cfg, l as nat) by {
            assert((l + 1) * step == l * step + step) by (nonlinear_arith);
            if l == m {
                assert(all.subrange(layer_base(cfg, l), layer_base(cfg, l + 1)) =~= layer_steps(
                    cfg,
                    m,
                ));
            } else {
                assert(0 <= l * step) by (nonlinear_arith)
                    requires
                        0 <= l,
                        0 < step,
                ;
                assert((l + 1) * step <= m * step) by (nonlinear_arith)
                    requires
                        l + 1 <= m,
                        0 < step,
                ;
                assert(all.subrange(layer_base(cfg, l), layer_base(cfg, l + 1))
                    =~= init.subrange(layer_base(cfg, l), layer_base(cfg, l + 1)));
            }
        }
    }
}

/// The element types of a layer's projections and of its first expert, and
/// whether all its experts are of those types.
#[derive(Debug, Clone, Copy, PartialEq, Eq, Structural)]
pub struct LayerTiers {
    pub wq: DType,
    pub wk: DType,
    pub wv: DType,
    pub wo: DType,
    pub gate_up: DType,
    pub down: DType,
    pub uniform_experts: bool,
}

impl LoadedV {
    /// The element type of a loaded tensor.
    pub open spec fn dtype(self) -> DType {
        match self {
            LoadedV::Embed(d, _) => d,
            LoadedV::WidenedEmbed(_) => DType::F32,
            LoadedV::Matrix(d, _, _, _) => d,
            LoadedV::Vector(d, _, _) => d,
        }
    }
}

impl Loaded {
    /// The element type of a loaded tensor; a widened embedding is of 32-bit floats.
    pub fn dtype(&self) -> (r: DType)
        ensures
            r == self@.dtype(),
    {
        match self {
            Loaded::Embed { dtype, .. } => *dtype,
            Loaded::WidenedEmbed { .. } => DType::F32,
            Loaded::Matrix { dtype, .. } => *dtype,
            Loaded::Vector { dtype, .. } => *dtype,
        }
    }
}

/// Whether the first `n` experts of the layer whose steps begin at `base` are of
/// the first one's element types.
pub open spec fn experts_uniform(loaded: Seq<LoadedV>, base: int, n: int) -> bool {
    forall|e: int|
        0 <= e < n ==> (#[trigger] loaded[base + 9 + 2 * e]).dtype() == loaded[base + 9].dtype()
            && loaded[base + 10 + 2 * e].dtype() == loaded[base + 10].dtype()
}

/// The element types of the layer of so many experts whose steps begin at `base`.
pub open spec fn tiers_at(loaded: Seq<LoadedV>, base: int, experts: int) -> LayerTiers {
    LayerTiers {
        wq: loaded[base + 2].dtype(),
        wk: loaded[base + 3].dtype(),
        wv: loaded[base + 4].dtype(),
        wo: loaded[base + 5].dtype(),
        gate_up: loaded[base + 9].dtype(),
        down: loaded[base + 10].dtype(),
        uniform_experts: experts_uniform(loaded, base, experts),
    }
}

impl MapleWeights {
    /// Whether all experts of the layer whose steps begin at `base` are of the
    /// first one's element types.
    fn uniform_at(&self, base: usize, experts: usize) -> (r: bool)
        requires
            base + 9 + 2 * experts <= self.loaded@.len(),
            experts > 0,
        ensures
            r == experts_uniform(loaded_view(self.loaded@), base as int, experts as int),
    {
        let ghost all = loaded_view(self.loaded@);
        let total: usize = self.loaded.len();
        let gate_up = self.loaded[base + 9].dtype();
        let down = self.loaded[base + 10].dtype();
        let mut e: usize = 0;
        while e < experts
            invariant
                total == self.loaded@.len(),
                base + 9 + 2 * experts <= total,
                e <= experts,
                all == loaded_view(self.loaded@),
                gate_up == all[base + 9].dtype(),
                down == all[base + 10].dtype(),
                experts_uniform(all, base as int, e as int),
            decreases experts - e,
        {
            assert(all[base + 9 + 2 * e] == self.loaded@[base + 9 + 2 * e]@);
            assert(all[base + 10 + 2 * e] == self.loaded@[base + 10 + 2 * e]@);
            if self.loaded[base + 9 + 2 * e].dtype() != gate_up || self.loaded[base + 10 + 2
                * e].dtype() != down {
                return false;
            }
            e = e + 1;
        }
        true
    }

    /// The element types of every layer.
    pub fn tiers(&self, cfg: &MapleConfig) -> (out: Vec<LayerTiers>)
        requires
            cfg.num_experts > 0,
            self.loaded@.len() == layer_base(cfg, cfg.num_hidden_layers as int),
        ensures
            out@.len() == cfg.num_hidden_layers,
            forall|l: int|
                0 <= l < out@.len() ==> #[trigger] out@[l] == tiers_at(
                    loaded_view(self.loaded@),
                    layer_base(cfg, l),
                    cfg.num_experts as int,
                ),
    {
        let ghost all = loaded_view(self.loaded@);
        let mut out: Vec<LayerTiers> = Vec::new();
        let mut l: usize = 0;
        let mut base: usize = 3;
        let total: usize = self.loaded.len();
        let ghost step = 9 + 2 * cfg.num_experts;
        proof {
            assert(0 * step == 0) by (nonlinear_arith);
            assert(cfg.num_hidden_layers * step >= 0) by (nonlinear_arith)
                requires
                    step > 0,
            ;
        }
        while l < cfg.num_hidden_layers
            invariant
                cfg.num_experts > 0,
                step == 9 + 2 * cfg.num_experts,
                total == self.loaded@.len(),
                self.loaded@.len() == layer_base(cfg, cfg.num_hidden_layers as int),
                all == loaded_view(self.loaded@),
                l <= cfg.num_hidden_layers,
                l < cfg.num_hidden_layers ==> base == layer_base(cfg, l as int),
                out@.len() == l,
                forall|j: int|
                    0 <= j < l ==> #[trigger] out@[j] == tiers_at(
                        all,
                        layer_base(cfg, j),
                        cfg.num_experts as int,
                    ),
            decreases cfg.num_hidden_layers - l,
        {
            proof {
                assert((l + 1) * step == l * step + step) by (nonlinear_arith);
                assert((l + 1) * step <= cfg.num_hidden_layers * step) by (nonlinear_arith)
                    requires
                        l + 1 <= cfg.num_hidden_layers,
                        step > 0,
                ;
                assert forall|k: int| 0 <= k < all.len() implies #[trigger] all[k]
                    == self.loaded@[k]@ by {}
            }
            out.push(
                LayerTiers {
                    wq: self.loaded[base + 2].dtype(),
                    wk: self.loaded[base + 3].dtype(),
                    wv: self.loaded[base + 4].dtype(),
                    wo: self.loaded[base + 5].dtype(),
                    gate_up: self.loaded[base + 9].dtype(),
                    down: self.loaded[base + 10].dtype(),
                    uniform_experts: self.uniform_at(base, cfg.num_experts),
                },
            );
            l = l + 1;
            if l < cfg.num_hidden_layers {
                base = base + 9 + 2 * cfg.num_experts;
            }
        }
        out
    }
}

/// A layer's tiers are those of its query, key, value and output projections
/// and of its first expert's matrices, whatever file they were loaded from; and
/// its experts are uniform exactly where every expert's matrices are of the first
/// one's types.
pub proof fn tiers_are_of_the_named_matrices(
    table: Seq<RawTensor>,
    cfg: &MapleConfig,
    layer: nat,
)
    requires
        cfg.num_experts > 0,
        layer < cfg.num_hidden_layers,
        load_outcome(table, load_steps(cfg, cfg.num_hidden_layers as nat)) is Ok,
    ensures
        ({
            let all = load_outcome(table, load_steps(cfg, cfg.num_hidden_layers as nat))->Ok_0;
            let t = tiers_at(all, layer_base(cfg, layer as int), cfg.num_experts as int);
            let steps = layer_steps(cfg, layer);
            &&& Ok::<DType, Seq<char>>(t.wq) == loaded_type(table, steps[2])
            &&& Ok::<DType, Seq<char>>(t.wk) == loaded_type(table, steps[3])
            &&& Ok::<DType, Seq<char>>(t.wv) == loaded_type(table, steps[4])
            &&& Ok::<DType, Seq<char>>(t.wo) == loaded_type(table, steps[5])
            &&& Ok::<DType, Seq<char>>(t.gate_up) == loaded_type(table, steps[9])
            &&& Ok::<DType, Seq<char>>(t.down) == loaded_type(table, steps[10])
            &&& t.uniform_experts <==> forall|e: int|
                0 <= e < cfg.num_experts ==> loaded_type(table, #[trigger] steps[9 + 2 * e])
                    == loaded_type(table, steps[9]) && loaded_type(table, steps[10 + 2 * e])
                    == loaded_type(table, steps[10])
        }),
{
    let n = cfg.num_hidden_layers as nat;
    let steps = load_steps(cfg, n);
    plan_holds_layers(cfg, n);
    load_fails_at_first_failing_step(table, steps);
    expert_steps_shape(cfg, layer, cfg.num_experts as nat);
    let base = layer_base(cfg, layer as int);
    let step = 9 + 2 * cfg.num_experts;
    assert((layer + 1) * step == layer * step + step) by (nonlinear_arith);
    assert((layer + 1) * step <= n * step) by (nonlinear_arith)
        requires
            layer + 1 <= n,
            step > 0,
    ;
    assert(0 <= layer * step) by (nonlinear_arith)
        requires
            step > 0,
    ;
    let part = steps.subrange(base, layer_base(cfg, layer as int + 1));
    assert(part == layer_steps(cfg, layer));
    assert(part[2] == steps[base + 2]);
    assert(part[3] == steps[base + 3]);
    assert(part[4] == steps[base + 4]);
    assert(part[5] == steps[base + 5]);
    assert(part[9] == steps[base + 9]);
    assert(part[10] == steps[base + 10]);
    let all = load_outcome(table, steps)->Ok_0;
    let part_of = layer_steps(cfg, layer);
    assert forall|e: int| 0 <= e < cfg.num_experts implies loaded_type(
        table,
        #[trigger] part_of[9 + 2 * e],
    ) == Ok::<DType, Seq<char>>(all[base + 9 + 2 * e].dtype()) && loaded_type(
        table,
        part_of[10 + 2 * e],
    ) == Ok::<DType, Seq<char>>(all[base + 10 + 2 * e].dtype()) by {
        assert(part[9 + 2 * e] == steps[base + 9 + 2 * e]);
        assert(part[10 + 2 * e] == steps[base + 10 + 2 * e]);
    }
    let t = tiers_at(all, base, cfg.num_experts as int);
    if t.uniform_experts {
        assert forall|e: int| 0 <= e < cfg.num_experts implies loaded_type(
            table,
            #[trigger] part_of[9 + 2 * e],
        ) == loaded_type(table, part_of[9]) && loaded_type(table, part_of[10 + 2 * e])
            == loaded_type(table, part_of[10]) by {
            assert(all[base + 9 + 2 * e].dtype() == all[base + 9].dtype());
        }
    } else {
        let e = choose|e: int|
            0 <= e < cfg.num_experts && !((#[trigger] all[base + 9 + 2 * e]).dtype()
                == all[base + 9].dtype() && all[base + 10 + 2 * e].dtype()
                == all[base + 10].dtype());
        assert(loaded_type(table, part_of[9 + 2 * e]) == Ok::<DType, Seq<char>>(
            all[base + 9 + 2 * e].dtype(),
        ));
    }
}

/// The element type that a step loads.
pub open spec fn loaded_type(table: Seq<RawTensor>, step: LoadStepV) -> Result<DType, Seq<char>> {
    match table_outcome(table, step) {
        Ok(v) => Ok(v.dtype()),
        Err(e) => Err(e),
    }
}

/// The matrices of a layer fit one another: the output projection takes the
/// query heads' width back to the model's, keys and values are alike, and the
/// norms are as wide as what they normalise.
pub proof fn attention_matrices_fit(cfg: &MapleConfig, layer: nat)
    ensures
        ({
            let all = attention_steps(cfg, layer);
            let (hidden, d) = (cfg.hidden_size as int, cfg.head_dim as int);
            let q = (all[2]->Matrix_1, all[2]->Matrix_2);
            let k = (all[3]->Matrix_1, all[3]->Matrix_2);
            let v = (all[4]->Matrix_1, all[4]->Matrix_2);
            let o = (all[5]->Matrix_1, all[5]->Matrix_2);
            &&& all.len() == 9
            &&& all[2] is Matrix && all[3] is Matrix && all[4] is Matrix && all[5] is Matrix
            &&& all[2]->Matrix_0 == layer_name(layer, ".self_attn.q_proj.weight"@)
            &&& all[3]->Matrix_0 == layer_name(layer, ".self_attn.k_proj.weight"@)
            &&& all[4]->Matrix_0 == layer_name(layer, ".self_attn.v_proj.weight"@)
            &&& all[5]->Matrix_0 == layer_name(layer, ".self_attn.o_proj.weight"@)
            &&& q == (cfg.num_attention_heads * d, hidden)
            &&& o == (q.1, q.0)
            &&& k == (cfg.num_key_value_heads * d, hidden)
            &&& v == k
            &&& all[0] == LoadStepV::Vector(
                layer_name(layer, ".input_layernorm.weight"@),
                hidden,
            )
            &&& all[1] == LoadStepV::Vector(
                layer_name(layer, ".post_attention_layernorm.weight"@),
                hidden,
            )
            &&& all[6] == LoadStepV::Vector(layer_name(layer, ".self_attn.q_norm.weight"@), d)
            &&& all[7] == LoadStepV::Vector(layer_name(layer, ".self_attn.k_norm.weight"@), d)
            &&& all[8] == LoadStepV::Matrix(router_name(layer), cfg.num_experts as int, hidden)
        }),
{
}

/// Every expert is loaded under its own number, its fused gate and up projections
/// right before its down projection, which takes back what one of the two makes.
pub proof fn every_expert_is_loaded(cfg: &MapleConfig, layer: nat, n: nat, e: int)
    requires
        0 <= e < n,
    ensures
        ({
            let all = expert_steps(cfg, layer, n);
            let (hidden, inter) = (cfg.hidden_size as int, cfg.moe_intermediate_size as int);
            &&& all.len() == 2 * n
            &&& all[2 * e] == LoadStepV::GateUp(layer, e as nat, inter + inter, hidden)
            &&& all[2 * e + 1] == LoadStepV::Down(layer, e as nat, hidden, inter)
        }),
    decreases n,
{
    expert_steps_shape(cfg, layer, n);
    expert_steps_shape(cfg, layer, (n - 1) as nat);
    if e < n - 1 {
        every_expert_is_loaded(cfg, layer, (n - 1) as nat, e);
        let (all, before) = (
            expert_steps(cfg, layer, n),
            expert_steps(cfg, layer, (n - 1) as nat),
        );
        assert(all[2 * e] == before[2 * e]);
        assert(all[2 * e + 1] == before[2 * e + 1]);
    }
}

/// A fused pair is the bytes of its gate projection and then those of its up
/// projection, and is loaded exactly where both are there in one tier that
/// matrices have; any other tensor is loaded as it stands.
pub proof fn pairs_are_fused_in_order(
    layer: nat,
    expert: nat,
    m: int,
    k: int,
    gate: (u8, Seq<u8>),
    up: (u8, Seq<u8>),
)
    ensures
        ({
            let fused = step_outcome(LoadStepV::GateUp(layer, expert, m, k), Some(gate), Some(up));
            let down = step_outcome(LoadStepV::Down(layer, expert, m, k), Some(gate), None);
            &&& fused is Ok <==> gate.0 == up.0 && matrix_type(gate.0) is Some
            &&& fused matches Ok(LoadedV::Matrix(dtype, rows, columns, data)) ==> {
                &&& Some(dtype) == matrix_type(gate.0)
                &&& rows == m && columns == k
                &&& data.len() == gate.1.len() + up.1.len()
                &&& forall|i: int| 0 <= i < gate.1.len() ==> data[i] == gate.1[i]
                &&& forall|i: int|
                    0 <= i < up.1.len() ==> #[trigger] data[gate.1.len() + i] == up.1[i]
            }
            &&& down is Ok <==> matrix_type(gate.0) is Some
            &&& down matches Ok(l) ==> l == LoadedV::Matrix(
                matrix_type(gate.0)->Some_0,
                m,
                k,
                gate.1,
            )
        }),
{
}

/// The tiers of vectors are tiers of matrices, of the same types, and no two
/// tiers are of one type.
pub proof fn tiers_tell_types_apart(a: u8, b: u8)
    ensures
        vector_type(a) is Some ==> matrix_type(a) == vector_type(a),
        matrix_type(a) is Some && matrix_type(a) == matrix_type(b) ==> a == b,
        matrix_type(51) == Some(DType::MQ2G256LloydU),
        vector_type(a) is Some <==> a == 1 || a == 2 || a == 3 || a == 16,
        vector_type(1) == Some(DType::F16) && vector_type(2) == Some(DType::F32) && vector_type(3)
            == Some(DType::Q8_0) && vector_type(16) == Some(DType::BF16),
{
}

/// An embedding is loaded exactly in the tiers that have a lookup; one of brain
/// floats is widened, the others are loaded as they stand.
pub proof fn embeddings_have_a_lookup(tier: u8, data: Seq<u8>)
    ensures
        step_outcome(LoadStepV::Embed, Some((tier, data)), None) is Ok <==> tier == 2 || tier == 3
            || tier == 16,
        step_outcome(LoadStepV::Embed, Some((tier, data)), None) matches Ok(l) ==> l.dtype()
            == DType::F32 || l.dtype() == DType::Q8_0,
        tier == 2 || tier == 3 ==> step_outcome(LoadStepV::Embed, Some((tier, data)), None) == Ok::<
            LoadedV,
            Seq<char>,
        >(LoadedV::Embed(matrix_type(tier)->Some_0, data)),
        tier == 16 ==> step_outcome(LoadStepV::Embed, Some((tier, data)), None) == Ok::<
            LoadedV,
            Seq<char>,
        >(LoadedV::WidenedEmbed(widened(data))),
{
}

} // verus!
