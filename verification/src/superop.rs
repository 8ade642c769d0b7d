//! A forward pass lowered to super-operations: short programs of indices and
//! flavours, one per layer, that an executor binds to live tensors.

use vstd::prelude::*;

verus! {

/// A weight, by its place in the model's table.
#[derive(Debug, Clone, Copy, PartialEq, Eq, Hash, Structural)]
pub struct WeightSlot(pub u32);

/// A buffer, by its place among those of its kind. The kind is part of the
/// handle, so that an activation is never taken for a state that advances.
#[derive(Debug, Clone, Copy, PartialEq, Eq, Hash, Structural)]
pub enum ScratchSlot {
    /// Lives for one token.
    Activation(u32),
    /// Recurrent state, which advances with every token.
    State(u32),
    /// A cache of keys and values, which advances with every token.
    Cache(u32),
}

/// How gate and up projections are combined.
#[derive(Debug, Clone, Copy, PartialEq, Eq, Structural)]
pub enum ActFlavor {
    SiluMul,
    GeluTanhMul,
}

/// How queries and keys are rotated. The base is given by the bits of a
/// 32-bit float.
#[derive(Debug, Clone, Copy, PartialEq, Eq, Structural)]
pub enum RopeFlavor {
    /// Not at all.
    Unrotated,
    /// The two halves of a head against each other.
    HalfRotate { theta_bits: u32 },
    /// Neighbouring places against each other.
    Interleaved { theta_bits: u32 },
}

/// All that tells one attention block from another.
#[derive(Debug, Clone, Copy, PartialEq, Eq, Structural)]
pub struct AttnFlavor {
    /// The window; zero where attention is full.
    pub window: u32,
    pub qk_norm: bool,
    pub q_scale_sqrt_hd: bool,
    pub k_eq_v: bool,
    /// The soft cap on logits, by the bits of a 32-bit float; zero where there
    /// is none.
    pub logit_softcap_bits: u32,
    pub rope: RopeFlavor,
}

/// What an operation needs beside its operands.
#[derive(Debug, Clone, Copy, PartialEq, Eq, Structural)]
pub enum OpFlavor {
    /// Nothing.
    Plain,
    Attn(AttnFlavor),
    Act(ActFlavor),
}

/// An operation that no single fused kernel performs.
#[derive(Debug, Clone, Copy, PartialEq, Eq, Structural)]
pub enum EscapeKind {
    Deepseek4Compressor,
    Deepseek4IndexerTopK,
    Deepseek4SwaTopK,
    GemmaLogitSoftcap,
}

/// The kind of a super-operation.
#[derive(Debug, Clone, Copy, PartialEq, Eq, Structural)]
pub enum SuperOpKind {
    /// A cluster of projections.
    Proj,
    /// A projection whose result is added to the residual.
    ResidualGemv,
    Attend,
    Moe,
    /// The advance of a linear attention's state.
    Recurrent,
    /// A short causal convolution.
    Conv,
    Escape(EscapeKind),
}

/// What an operation is bound to. `key` names its kernel where one was
/// resolved.
#[derive(Debug, PartialEq, Eq)]
pub struct OpBinding {
    pub key: Option<u64>,
    /// In the order in which the kernel takes them.
    pub weights: Vec<WeightSlot>,
    pub scratch: Vec<ScratchSlot>,
    pub flavor: OpFlavor,
}

/// One super-operation.
#[derive(Debug, PartialEq, Eq)]
pub struct SuperOp {
    pub kind: SuperOpKind,
    pub binding: OpBinding,
}

/// A layer's super-operations, in order.
pub type LayerProgram = Vec<SuperOp>;

/// A lowered forward pass, with the generation of the weights that it was
/// lowered for.
#[derive(Debug, PartialEq, Eq)]
pub struct LoweredForward {
    pub layers: Vec<LayerProgram>,
    pub weight_gen: u64,
}

impl LoweredForward {
    /// A pass without layers yet.
    pub fn new(weight_gen: u64) -> (r: LoweredForward)
        ensures
            r.layers@.len() == 0,
            r.weight_gen == weight_gen,
    {
        LoweredForward { layers: Vec::new(), weight_gen }
    }
}

} // verus!
