//! The vision tower and its projector: which tensors they are loaded from, and
//! the operations that take a sub-image to tokens.

use crate::batch::lesser;
use crate::binary64::{num_of, root_is_exact, whole_numbers_stay, Binary64, Num, LIMIT};
use crate::order::{follows, held_in_itself, held_in_longer, holds, only_at, stands_at};
use crate::text;
use crate::text::decimal;
use crate::vision_config::VisionConfig;
use crate::vision_layout::{block_len, folded_kernel, gathered, kernel_source};
use crate::vision_prepare::{tokens_of, Prepared, SubImageV};
use vstd::prelude::*;

verus! {

/// The patch embedding's weight.
pub const PATCH_WEIGHT_NAME: &'static str =
    "model.vision_tower.vision_model.embeddings.patch_embedding.weight";

/// The bits of floating-point numbers, as a tensor holds them.
#[derive(Debug, PartialEq, Eq)]
pub enum FloatBits {
    Half(Vec<u16>),
    Single(Vec<u32>),
}

/// What the bits hold.
pub enum FloatBitsV {
    Half(Seq<int>),
    Single(Seq<int>),
}

impl View for FloatBits {
    type V = FloatBitsV;

    open spec fn view(&self) -> FloatBitsV {
        match self {
            FloatBits::Half(v) => FloatBitsV::Half(v@.map_values(|x: u16| x as int)),
            FloatBits::Single(v) => FloatBitsV::Single(v@.map_values(|x: u32| x as int)),
        }
    }
}

/// The number that two bytes from `i` on write, the low one first.
pub open spec fn two_bytes(data: Seq<u8>, i: int) -> int {
    data[i] + 256 * data[i + 1]
}

/// The number that four bytes from `i` on write, the low one first.
pub open spec fn four_bytes(data: Seq<u8>, i: int) -> int {
    data[i] + 256 * data[i + 1] + 65536 * data[i + 2] + 16777216 * data[i + 3]
}

/// The first `n` numbers of a tensor of halves or singles; nothing of another
/// tier. Bytes that make no whole number are passed over.
pub open spec fn floats_of(tier: u8, data: Seq<u8>, n: int) -> Option<FloatBitsV> {
    if tier == 1 {
        Some(
            FloatBitsV::Half(
                Seq::new(
                    lesser(data.len() as int / 2, n) as nat,
                    |i: int| two_bytes(data, 2 * i),
                ),
            ),
        )
    } else if tier == 2 {
        Some(
            FloatBitsV::Single(
                Seq::new(
                    lesser(data.len() as int / 4, n) as nat,
                    |i: int| four_bytes(data, 4 * i),
                ),
            ),
        )
    } else {
        None
    }
}

/// What the bits of a row that was read hold.
pub open spec fn opt_bits(o: Option<FloatBits>) -> Option<FloatBitsV> {
    match o {
        Some(b) => Some(b@),
        None => None,
    }
}

/// The first `n` numbers of a tensor of halves or singles.
pub fn load_f32_cpu(tier: u8, data: &Vec<u8>, n: usize) -> (r: Option<FloatBits>)
    ensures
        opt_bits(r) == floats_of(tier, data@, n as int),
{
    if tier == 1 {
        let total: usize = data.len();
        let whole: usize = total / 2;
        let len: usize = if whole < n {
            whole
        } else {
            n
        };
        let mut v: Vec<u16> = Vec::new();
        let mut i: usize = 0;
        while i < len
            invariant
                i <= len,
                2 * len <= total,
                total == data@.len(),
                v@.len() == i,
                forall|k: int| 0 <= k < i ==> #[trigger] v@[k] == two_bytes(data@, 2 * k),
            decreases len - i,
        {
            let x: u16 = data[2 * i] as u16 + 256 * data[2 * i + 1] as u16;
            v.push(x);
            i = i + 1;
        }
        assert(v@.map_values(|x: u16| x as int) =~= Seq::new(
            lesser(data@.len() as int / 2, n as int) as nat,
            |i: int| two_bytes(data@, 2 * i),
        ));
        Some(FloatBits::Half(v))
    } else if tier == 2 {
        let total: usize = data.len();
        let whole: usize = total / 4;
        let len: usize = if whole < n {
            whole
        } else {
            n
        };
        let mut v: Vec<u32> = Vec::new();
        let mut i: usize = 0;
        while i < len
            invariant
                i <= len,
                4 * len <= total,
                total == data@.len(),
                v@.len() == i,
                forall|k: int| 0 <= k < i ==> #[trigger] v@[k] == four_bytes(data@, 4 * k),
            decreases len - i,
        {
            let x: u32 = data[4 * i] as u32 + 256 * data[4 * i + 1] as u32 + 65536 * data[4 * i
                + 2] as u32 + 16777216 * data[4 * i + 3] as u32;
            v.push(x);
            i = i + 1;
        }
        assert(v@.map_values(|x: u32| x as int) =~= Seq::new(
            lesser(data@.len() as int / 4, n as int) as nat,
            |i: int| four_bytes(data@, 4 * i),
        ));
        Some(FloatBits::Single(v))
    } else {
        None
    }
}

/// How the patch embedding's weight is laid out.
#[derive(Debug, Clone, Copy, PartialEq, Eq, Structural)]
pub enum PatchLayout {
    /// A row for each output, in the order of patch rows.
    Linear { out: usize, in_dim: usize },
    /// A kernel for each output, its channels apart.
    Conv { out: usize, channels: usize, kh: usize, kw: usize },
}

/// How the patch embedding's weight is laid out, by its shape; nothing where
/// the shape tells neither.
pub fn patch_layout(shape: &Vec<u32>) -> (r: Option<PatchLayout>)
    ensures
        r == layout_of(shape@),
{
    if shape.len() == 2 {
        Some(PatchLayout::Linear { out: shape[0] as usize, in_dim: shape[1] as usize })
    } else if shape.len() == 4 {
        Some(
            PatchLayout::Conv {
                out: shape[0] as usize,
                channels: shape[1] as usize,
                kh: shape[2] as usize,
                kw: shape[3] as usize,
            },
        )
    } else {
        None
    }
}

/// The outputs of a layout, and the inputs of each.
pub open spec fn layout_sides(layout: PatchLayout) -> (int, int) {
    match layout {
        PatchLayout::Linear { out, in_dim } => (out as int, in_dim as int),
        PatchLayout::Conv { out, channels, kh, kw } => (out as int, channels * kh * kw),
    }
}

/// Numbers in a layout, brought to the order of patch rows.
pub open spec fn row_order<T>(layout: PatchLayout, numbers: Seq<T>) -> Seq<T> {
    match layout {
        PatchLayout::Linear { .. } => numbers,
        PatchLayout::Conv { channels, kh, kw, .. } => gathered(
            numbers,
            numbers.len() as int,
            |i: int| kernel_source(i, channels as int, kh as int, kw as int),
        ),
    }
}

/// Bits in a layout, brought to the order of patch rows.
pub open spec fn bits_in_row_order(layout: PatchLayout, bits: FloatBitsV) -> FloatBitsV {
    match bits {
        FloatBitsV::Half(v) => FloatBitsV::Half(row_order(layout, v)),
        FloatBitsV::Single(v) => FloatBitsV::Single(row_order(layout, v)),
    }
}

/// How a patch embedding of a shape is laid out.
pub open spec fn layout_of(shape: Seq<u32>) -> Option<PatchLayout> {
    if shape.len() == 2 {
        Some((PatchLayout::Linear { out: shape[0] as usize, in_dim: shape[1] as usize }))
    } else if shape.len() == 4 {
        Some(
            (PatchLayout::Conv {
                out: shape[0] as usize,
                channels: shape[1] as usize,
                kh: shape[2] as usize,
                kw: shape[3] as usize,
            }),
        )
    } else {
        None
    }
}

/// Whether a patch embedding holds as many halves or singles as its shape says.
pub open spec fn patch_rows_fit(tier: u8, shape: Seq<u32>, len: int) -> bool {
    &&& layout_of(shape) is Some
    &&& layout_sides(layout_of(shape)->Some_0).1 <= usize::MAX
    &&& (tier == 1 && len / 2 == layout_sides(layout_of(shape)->Some_0).0 * layout_sides(
        layout_of(shape)->Some_0,
    ).1) || (tier == 2 && len / 4 == layout_sides(layout_of(shape)->Some_0).0 * layout_sides(
        layout_of(shape)->Some_0,
    ).1)
}

fn in_row_order<T: Copy>(layout: PatchLayout, numbers: Vec<T>) -> (r: Vec<T>)
    requires
        numbers@.len() == layout_sides(layout).0 * layout_sides(layout).1,
    ensures
        r@ == row_order(layout, numbers@),
{
    match layout {
        PatchLayout::Linear { .. } => numbers,
        PatchLayout::Conv { out, channels, kh, kw } => folded_kernel(
            &numbers,
            out,
            channels,
            kh,
            kw,
        ),
    }
}

/// The patch embedding's rows, the number of its outputs, and of the inputs of
/// each.
pub fn patch_weight_rows(tier: u8, shape: &Vec<u32>, data: &Vec<u8>) -> (r: (
    FloatBits,
    usize,
    usize,
))
    requires
        patch_rows_fit(tier, shape@, data@.len() as int),
    ensures
        floats_of(tier, data@, data@.len() as int) is Some,
        r.0@ == bits_in_row_order(
            layout_of(shape@)->Some_0,
            floats_of(tier, data@, data@.len() as int)->Some_0,
        ),
        (r.1 as int, r.2 as int) == layout_sides(layout_of(shape@)->Some_0),
{
    let layout = match patch_layout(shape) {
        Some(l) => l,
        None => PatchLayout::Linear { out: 0, in_dim: 0 },
    };
    let (out, in_dim): (usize, usize) = match layout {
        PatchLayout::Linear { out, in_dim } => (out, in_dim),
        PatchLayout::Conv { out, channels, kh, kw } => {
            proof {
                conv_sides_fit(channels as int, kh as int, kw as int);
            }
            if channels == 0 || kh == 0 || kw == 0 {
                (out, 0)
            } else {
                (out, channels * kh * kw)
            }
        },
    };
    let total: usize = data.len();
    match load_f32_cpu(tier, data, total) {
        Some(FloatBits::Half(v)) => {
            let ghost all = v@.map_values(|x: u16| x as int);
            assert(v@.len() == all.len());
            let rows = in_row_order(layout, v);
            proof {
                if layout is Conv {
                    let (c, y, x) = (layout->channels as int, layout->kh as int, layout->kw as int);
                    crate::vision_layout::kernel_sources_within(
                        layout_sides(layout).0,
                        c,
                        y,
                        x,
                    );
                }
                assert(rows@.map_values(|x: u16| x as int) =~= row_order(layout, all));
            }
            (FloatBits::Half(rows), out, in_dim)
        },
        Some(FloatBits::Single(v)) => {
            let ghost all = v@.map_values(|x: u32| x as int);
            assert(v@.len() == all.len());
            let rows = in_row_order(layout, v);
            proof {
                if layout is Conv {
                    let (c, y, x) = (layout->channels as int, layout->kh as int, layout->kw as int);
                    crate::vision_layout::kernel_sources_within(
                        layout_sides(layout).0,
                        c,
                        y,
                        x,
                    );
                }
                assert(rows@.map_values(|x: u32| x as int) =~= row_order(layout, all));
            }
            (FloatBits::Single(rows), out, in_dim)
        },
        None => (FloatBits::Half(Vec::new()), out, in_dim),
    }
}

proof fn conv_sides_fit(c: int, y: int, x: int)
    requires
        0 <= c,
        0 <= y,
        0 <= x,
    ensures
        c == 0 || y == 0 || x == 0 ==> c * y * x == 0,
        c > 0 && y > 0 && x > 0 ==> c * y <= c * y * x,
{
    assert(c == 0 || y == 0 || x == 0 ==> c * y * x == 0) by (nonlinear_arith);
    assert(c > 0 && y > 0 && x > 0 ==> c * y <= c * y * x) by (nonlinear_arith);
}

/// The queries', keys' and values' weights of a block, one behind the other.
pub fn concat_qkv(q: Vec<u8>, k: Vec<u8>, v: Vec<u8>) -> (out: Vec<u8>)
    ensures
        out@ == q@ + k@ + v@,
{
    let (mut out, mut k, mut v) = (q, k, v);
    out.append(&mut k);
    out.append(&mut v);
    out
}

/// Where a tensor's numbers go, and in which form.
#[derive(Debug, Clone, Copy, PartialEq, Eq, Structural)]
pub enum VisionUse {
    /// The patch embedding's weight, brought to the order of patch rows.
    PatchRows,
    /// So many numbers, to the device as singles.
    Device { len: usize },
    /// So many numbers, kept by the host.
    Host { len: usize },
    /// All numbers, to the device as halves.
    Half,
    /// A third of the queries', keys' and values' weight, which are put
    /// together in this order.
    Stacked { hidden: usize },
    /// The bias that goes with it.
    StackedBias { hidden: usize },
}

/// A tensor to load.
#[derive(Debug, PartialEq, Eq)]
pub struct VisionTensor {
    pub name: String,
    pub taken: VisionUse,
}

/// What a tensor to load holds.
pub struct VisionTensorV {
    pub name: Seq<char>,
    pub taken: VisionUse,
}

impl View for VisionTensor {
    type V = VisionTensorV;

    open spec fn view(&self) -> VisionTensorV {
        VisionTensorV { name: self.name@, taken: self.taken }
    }
}

/// What each of several tensors holds.
pub open spec fn vision_view(tensors: Seq<VisionTensor>) -> Seq<VisionTensorV> {
    tensors.map_values(|t: VisionTensor| t@)
}

/// A tensor to load.
pub open spec fn tensor(name: Seq<char>, taken: VisionUse) -> VisionTensorV {
    VisionTensorV { name, taken }
}

/// The name of a tensor of a block.
pub open spec fn vision_name(layer: nat, rest: Seq<char>) -> Seq<char> {
    "model.vision_tower.vision_model.encoder.layers."@ + decimal(layer) + rest
}

/// The tensors before the blocks.
pub open spec fn tower_head(cfg: VisionConfig) -> Seq<VisionTensorV> {
    seq![
        tensor(PATCH_WEIGHT_NAME@, VisionUse::PatchRows),
        tensor(
            "model.vision_tower.vision_model.embeddings.patch_embedding.bias"@,
            (VisionUse::Device { len: cfg.hidden_size }),
        ),
        tensor(
            "model.vision_tower.vision_model.embeddings.position_embedding.weight"@,
            (VisionUse::Host {
                len: (cfg.num_position_embeddings * cfg.hidden_size) as usize,
            }),
        ),
    ]
}

/// The tensors of a block.
pub open spec fn block_tensors(cfg: VisionConfig, layer: nat) -> Seq<VisionTensorV> {
    let hidden = cfg.hidden_size;
    let floats = VisionUse::Device { len: hidden };
    seq![
        tensor(
            vision_name(layer, ".self_attn.q_proj.weight"@),
            (VisionUse::Stacked { hidden }),
        ),
        tensor(
            vision_name(layer, ".self_attn.q_proj.bias"@),
            (VisionUse::StackedBias { hidden }),
        ),
        tensor(
            vision_name(layer, ".self_attn.k_proj.weight"@),
            (VisionUse::Stacked { hidden }),
        ),
        tensor(
            vision_name(layer, ".self_attn.k_proj.bias"@),
            (VisionUse::StackedBias { hidden }),
        ),
        tensor(
            vision_name(layer, ".self_attn.v_proj.weight"@),
            (VisionUse::Stacked { hidden }),
        ),
        tensor(
            vision_name(layer, ".self_attn.v_proj.bias"@),
            (VisionUse::StackedBias { hidden }),
        ),
        tensor(vision_name(layer, ".layer_norm1.weight"@), floats),
        tensor(vision_name(layer, ".layer_norm1.bias"@), floats),
        tensor(vision_name(layer, ".self_attn.out_proj.weight"@), VisionUse::Half),
        tensor(vision_name(layer, ".self_attn.out_proj.bias"@), floats),
        tensor(vision_name(layer, ".layer_norm2.weight"@), floats),
        tensor(vision_name(layer, ".layer_norm2.bias"@), floats),
        tensor(vision_name(layer, ".mlp.fc1.weight"@), VisionUse::Half),
        tensor(vision_name(layer, ".mlp.fc1.bias"@), (VisionUse::Device { len: cfg.mlp_dim })),
        tensor(vision_name(layer, ".mlp.fc2.weight"@), VisionUse::Half),
        tensor(vision_name(layer, ".mlp.fc2.bias"@), floats),
    ]
}

/// The tensors of the blocks below `n`.
pub open spec fn blocks_tensors(cfg: VisionConfig, n: nat) -> Seq<VisionTensorV>
    decreases n,
{
    if n == 0 {
        Seq::empty()
    } else {
        blocks_tensors(cfg, (n - 1) as nat) + block_tensors(cfg, (n - 1) as nat)
    }
}

/// The tensors after the blocks: the last norm and the projector.
pub open spec fn tower_tail(cfg: VisionConfig) -> Seq<VisionTensorV> {
    let floats = VisionUse::Device { len: cfg.hidden_size };
    seq![
        tensor("model.vision_tower.vision_model.post_layernorm.weight"@, floats),
        tensor("model.vision_tower.vision_model.post_layernorm.bias"@, floats),
        tensor("model.multi_modal_projector.linear_1.weight"@, VisionUse::Half),
        tensor(
            "model.multi_modal_projector.linear_1.bias"@,
            (VisionUse::Device { len: cfg.projector_hidden_size }),
        ),
        tensor("model.multi_modal_projector.linear_2.weight"@, VisionUse::Half),
        tensor(
            "model.multi_modal_projector.linear_2.bias"@,
            (VisionUse::Device { len: cfg.out_hidden_size }),
        ),
    ]
}

/// The tensors of the tower and its projector, in loading order.
pub open spec fn vision_tensors(cfg: VisionConfig) -> Seq<VisionTensorV> {
    tower_head(cfg) + blocks_tensors(cfg, cfg.num_layers as nat) + tower_tail(cfg)
}

fn push_named(out: &mut Vec<VisionTensor>, name: &str, taken: VisionUse)
    ensures
        vision_view(final(out)@) == vision_view(old(out)@).push(tensor(name@, taken)),
{
    let ghost before = out@;
    out.push(VisionTensor { name: name.to_owned(), taken });
    assert(vision_view(out@) =~= vision_view(before).push(tensor(name@, taken)));
}

fn push_of_block(out: &mut Vec<VisionTensor>, layer: usize, rest: &str, taken: VisionUse)
    ensures
        vision_view(final(out)@) == vision_view(old(out)@).push(
            tensor(vision_name(layer as nat, rest@), taken),
        ),
{
    let mut name = "model.vision_tower.vision_model.encoder.layers.".to_owned();
    text::push_decimal(&mut name, layer);
    name.append(rest);
    push_named(out, name.as_str(), taken);
}

fn push_block(out: &mut Vec<VisionTensor>, cfg: &VisionConfig, layer: usize)
    ensures
        vision_view(final(out)@) == vision_view(old(out)@) + block_tensors(*cfg, layer as nat),
{
    let ghost before = vision_view(out@);
    let hidden: usize = cfg.hidden_size;
    let floats = VisionUse::Device { len: hidden };
    push_of_block(out, layer, ".self_attn.q_proj.weight", VisionUse::Stacked { hidden });
    push_of_block(out, layer, ".self_attn.q_proj.bias", VisionUse::StackedBias { hidden });
    push_of_block(out, layer, ".self_attn.k_proj.weight", VisionUse::Stacked { hidden });
    push_of_block(out, layer, ".self_attn.k_proj.bias", VisionUse::StackedBias { hidden });
    push_of_block(out, layer, ".self_attn.v_proj.weight", VisionUse::Stacked { hidden });
    push_of_block(out, layer, ".self_attn.v_proj.bias", VisionUse::StackedBias { hidden });
    push_of_block(out, layer, ".layer_norm1.weight", floats);
    push_of_block(out, layer, ".layer_norm1.bias", floats);
    push_of_block(out, layer, ".self_attn.out_proj.weight", VisionUse::Half);
    push_of_block(out, layer, ".self_attn.out_proj.bias", floats);
    push_of_block(out, layer, ".layer_norm2.weight", floats);
    push_of_block(out, layer, ".layer_norm2.bias", floats);
    push_of_block(out, layer, ".mlp.fc1.weight", VisionUse::Half);
    push_of_block(out, layer, ".mlp.fc1.bias", VisionUse::Device { len: cfg.mlp_dim });
    push_of_block(out, layer, ".mlp.fc2.weight", VisionUse::Half);
    push_of_block(out, layer, ".mlp.fc2.bias", floats);
    assert(vision_view(out@) =~= before + block_tensors(*cfg, layer as nat));
}

/// The tensors of the tower and its projector, in loading order.
pub fn load_vision_weights(cfg: &VisionConfig) -> (out: Vec<VisionTensor>)
    requires
        cfg.num_position_embeddings * cfg.hidden_size <= usize::MAX,
    ensures
        vision_view(out@) == vision_tensors(*cfg),
{
    let mut out: Vec<VisionTensor> = Vec::new();
    let floats = VisionUse::Device { len: cfg.hidden_size };
    push_named(&mut out, PATCH_WEIGHT_NAME, VisionUse::PatchRows);
    push_named(
        &mut out,
        "model.vision_tower.vision_model.embeddings.patch_embedding.bias",
        floats,
    );
    push_named(
        &mut out,
        "model.vision_tower.vision_model.embeddings.position_embedding.weight",
        VisionUse::Host { len: cfg.num_position_embeddings * cfg.hidden_size },
    );
    assert(vision_view(out@) =~= tower_head(*cfg) + blocks_tensors(*cfg, 0));
    let mut i: usize = 0;
    while i < cfg.num_layers
        invariant
            i <= cfg.num_layers,
            vision_view(out@) == tower_head(*cfg) + blocks_tensors(*cfg, i as nat),
        decreases cfg.num_layers - i,
    {
        push_block(&mut out, cfg, i);
        i = i + 1;
        assert(vision_view(out@) =~= tower_head(*cfg) + blocks_tensors(*cfg, i as nat));
    }
    push_named(&mut out, "model.vision_tower.vision_model.post_layernorm.weight", floats);
    push_named(&mut out, "model.vision_tower.vision_model.post_layernorm.bias", floats);
    push_named(&mut out, "model.multi_modal_projector.linear_1.weight", VisionUse::Half);
    push_named(
        &mut out,
        "model.multi_modal_projector.linear_1.bias",
        VisionUse::Device { len: cfg.projector_hidden_size },
    );
    push_named(&mut out, "model.multi_modal_projector.linear_2.weight", VisionUse::Half);
    push_named(
        &mut out,
        "model.multi_modal_projector.linear_2.bias",
        VisionUse::Device { len: cfg.out_hidden_size },
    );
    assert(vision_view(out@) =~= vision_tensors(*cfg));
    out
}

/// Why a tensor of the model file does not serve; nothing where it does.
pub open spec fn tensor_refusal(t: VisionTensorV, found: Option<(u8, Seq<u32>)>) -> Option<
    Seq<char>,
> {
    match (t.taken, found) {
        (VisionUse::PatchRows, None) => Some("missing "@ + t.name),
        (VisionUse::Stacked { .. }, None) => Some("missing "@ + t.name),
        (_, None) => Some("vision tensor not found: "@ + t.name),
        (VisionUse::PatchRows, Some((tier, shape))) => if tier != 1 && tier != 2 {
            Some(t.name + ": unsupported quant_type="@ + decimal(tier as nat))
        } else if shape.len() != 2 && shape.len() != 4 {
            Some(
                t.name + ": unexpected rank "@ + decimal(shape.len())
                    + " (want Linear [out,in] or Conv [out,C,kh,kw]) — refusing to guess the layout"@,
            )
        } else {
            None
        },
        (VisionUse::Stacked { hidden }, Some((tier, shape))) => if shape.len() != 2 || shape[0]
            != hidden || shape[1] != hidden {
            Some(t.name + ": not square"@)
        } else if tier != 1 {
            Some("expect F16 attention weights"@)
        } else {
            None
        },
        (VisionUse::Half, Some((tier, _))) => if tier != 1 && tier != 2 {
            Some(
                t.name + ": unsupported vision quant_type="@ + decimal(tier as nat)
                    + " (expected F16=1 or F32=2)"@,
            )
        } else {
            None
        },
        (_, Some((tier, _))) => if tier != 1 && tier != 2 {
            Some("expected F16/F32 for "@ + t.name + ", got qt="@ + decimal(tier as nat))
        } else {
            None
        },
    }
}

/// What is known of a tensor of the model file.
pub open spec fn found_view(found: Option<(u8, &Vec<u32>)>) -> Option<(u8, Seq<u32>)> {
    match found {
        Some(f) => Some((f.0, f.1@)),
        None => None,
    }
}

fn before_name(head: &str, name: &str) -> (r: String)
    ensures
        r@ == head@ + name@,
{
    let mut s = head.to_owned();
    s.append(name);
    s
}

impl VisionTensor {
    /// Why a tensor of the model file does not serve: its tier and shape, where
    /// there is one.
    pub fn refusal(&self, found: Option<(u8, &Vec<u32>)>) -> (r: Option<String>)
        ensures
            crate::chat::opt_text(r) == tensor_refusal(self@, found_view(found)),
    {
        let name = self.name.as_str();
        let (tier, shape) = match found {
            Some(f) => f,
            None => {
                return match self.taken {
                    VisionUse::PatchRows => Some(before_name("missing ", name)),
                    VisionUse::Stacked { .. } => Some(before_name("missing ", name)),
                    _ => Some(before_name("vision tensor not found: ", name)),
                };
            },
        };
        match self.taken {
            VisionUse::PatchRows => {
                if tier != 1 && tier != 2 {
                    let mut s = before_name(name, ": unsupported quant_type=");
                    text::push_decimal(&mut s, tier as usize);
                    return Some(s);
                }
                if shape.len() != 2 && shape.len() != 4 {
                    let mut s = before_name(name, ": unexpected rank ");
                    text::push_decimal(&mut s, shape.len());
                    s.append(
                        " (want Linear [out,in] or Conv [out,C,kh,kw]) — refusing to guess the layout",
                    );
                    return Some(s);
                }
                None
            },
            VisionUse::Stacked { hidden } => {
                if shape.len() != 2 || shape[0] as u64 != hidden as u64 || shape[1] as u64
                    != hidden as u64 {
                    return Some(before_name(name, ": not square"));
                }
                if tier != 1 {
                    return Some("expect F16 attention weights".to_owned());
                }
                None
            },
            VisionUse::Half => {
                if tier != 1 && tier != 2 {
                    let mut s = before_name(name, ": unsupported vision quant_type=");
                    text::push_decimal(&mut s, tier as usize);
                    s.append(" (expected F16=1 or F32=2)");
                    return Some(s);
                }
                None
            },
            _ => {
                if tier != 1 && tier != 2 {
                    let mut s = before_name("expected F16/F32 for ", name);
                    s.append(", got qt=");
                    text::push_decimal(&mut s, tier as usize);
                    return Some(s);
                }
                None
            },
        }
    }
}

/// A side of the square table of learned positions; nothing where the table is
/// not square.
pub open spec fn side_of(cfg: VisionConfig) -> Option<usize> {
    let k = num_of(cfg.num_position_embeddings as int).root().size();
    if k * k == cfg.num_position_embeddings {
        Some(k as usize)
    } else {
        None
    }
}

/// A side of the square table of learned positions; nothing where the table is
/// not square.
pub fn position_side(cfg: &VisionConfig) -> (r: Option<usize>)
    ensures
        r == side_of(*cfg),
{
    let n = Binary64::of(cfg.num_position_embeddings as u64);
    assert(n.near(75));
    let k: usize = n.root().size();
    proof {
        let x = k as int;
        assert(0 <= x * x <= 0xffff_ffff_ffff_ffff * 0xffff_ffff_ffff_ffff) by (nonlinear_arith)
            requires
                0 <= x <= 0xffff_ffff_ffff_ffff,
        ;
    }
    if k as u128 * k as u128 == cfg.num_position_embeddings as u128 {
        Some(k)
    } else {
        None
    }
}

/// A matrix with its bias.
#[derive(Debug, Clone, Copy, PartialEq, Eq, Structural)]
pub enum VisionMatrix {
    PatchEmbed,
    Qkv(usize),
    Out(usize),
    Fc1(usize),
    Fc2(usize),
    Projector1,
    Projector2,
}

/// A norm.
#[derive(Debug, Clone, Copy, PartialEq, Eq, Structural)]
pub enum VisionNorm {
    First(usize),
    Second(usize),
    Last,
}

/// An operation of the tower or its projector.
#[derive(Debug, Clone, Copy, PartialEq, Eq, Structural)]
pub enum VisionOp {
    /// `n` rows times a matrix, with its bias.
    Linear { matrix: VisionMatrix, out_dim: usize, in_dim: usize, n: usize },
    /// The positions of a grid, added.
    AddPositions { gh: usize, gw: usize },
    /// Each row, normed.
    Norm { norm: VisionNorm, n: usize },
    /// Every row attends to every row.
    Attend { n: usize, heads: usize, head_dim: usize },
    /// The branch's rows, added to the tower's.
    AddResidual { n: usize },
    /// The activation of the tower, by a hyperbolic tangent.
    GeluTanh { len: usize },
    /// Blocks of patches put together.
    Unshuffle { gh: usize, gw: usize, channels: usize, factor: usize },
    /// The activation of the projector, by the error function.
    GeluExact { len: usize },
}

/// The operations of a block.
pub open spec fn block_ops(cfg: VisionConfig, n: usize, layer: nat) -> Seq<VisionOp> {
    let h = cfg.hidden_size;
    let l = layer as usize;
    seq![
        VisionOp::Norm { norm: VisionNorm::First(l), n },
        VisionOp::Linear {
            matrix: VisionMatrix::Qkv(l),
            out_dim: (3 * h) as usize,
            in_dim: h,
            n,
        },
        VisionOp::Attend { n, heads: cfg.num_heads, head_dim: cfg.head_dim },
        VisionOp::Linear { matrix: VisionMatrix::Out(l), out_dim: h, in_dim: h, n },
        VisionOp::AddResidual { n },
        VisionOp::Norm { norm: VisionNorm::Second(l), n },
        VisionOp::Linear { matrix: VisionMatrix::Fc1(l), out_dim: cfg.mlp_dim, in_dim: h, n },
        VisionOp::GeluTanh { len: (n * cfg.mlp_dim) as usize },
        VisionOp::Linear { matrix: VisionMatrix::Fc2(l), out_dim: h, in_dim: cfg.mlp_dim, n },
        VisionOp::AddResidual { n },
    ]
}

/// The operations of the blocks below `layers`.
pub open spec fn blocks_ops(cfg: VisionConfig, n: usize, layers: nat) -> Seq<VisionOp>
    decreases layers,
{
    if layers == 0 {
        Seq::empty()
    } else {
        blocks_ops(cfg, n, (layers - 1) as nat) + block_ops(cfg, n, (layers - 1) as nat)
    }
}

/// The width of a projector's row.
pub open spec fn merged_dim(cfg: VisionConfig) -> int {
    cfg.hidden_size * cfg.downsample_factor * cfg.downsample_factor
}

/// The operations that take a grid of `gh` by `gw` patches to `tokens` rows.
pub open spec fn tower_ops(cfg: VisionConfig, gh: usize, gw: usize) -> Seq<VisionOp> {
    let n = (gh * gw) as usize;
    let tokens = cfg.grid_tokens(gh as int, gw as int) as usize;
    let before = seq![
        VisionOp::Linear {
            matrix: VisionMatrix::PatchEmbed,
            out_dim: cfg.hidden_size,
            in_dim: if n == 0 {
                0
            } else {
                (cfg.patch_size * cfg.patch_size * cfg.num_channels) as usize
            },
            n,
        },
        VisionOp::AddPositions { gh, gw },
    ];
    let after = seq![
        VisionOp::Norm { norm: VisionNorm::Last, n },
        VisionOp::Unshuffle {
            gh,
            gw,
            channels: cfg.hidden_size,
            factor: cfg.downsample_factor,
        },
        VisionOp::Linear {
            matrix: VisionMatrix::Projector1,
            out_dim: cfg.projector_hidden_size,
            in_dim: merged_dim(cfg) as usize,
            n: tokens,
        },
        VisionOp::GeluExact { len: (tokens * cfg.projector_hidden_size) as usize },
        VisionOp::Linear {
            matrix: VisionMatrix::Projector2,
            out_dim: cfg.out_hidden_size,
            in_dim: cfg.projector_hidden_size,
            n: tokens,
        },
    ];
    before + blocks_ops(cfg, n, cfg.num_layers as nat) + after
}

/// The sizes of the operations fit the machine.
pub open spec fn tower_fits(cfg: VisionConfig, gh: usize, gw: usize) -> bool {
    let tokens = cfg.grid_tokens(gh as int, gw as int);
    &&& cfg.downsample_factor > 0
    &&& gh * gw <= usize::MAX
    &&& 3 * cfg.hidden_size <= usize::MAX
    &&& gh * gw * cfg.mlp_dim <= usize::MAX
    &&& cfg.patch_size * cfg.patch_size <= usize::MAX
    &&& cfg.patch_size * cfg.patch_size * cfg.num_channels <= usize::MAX
    &&& tokens <= usize::MAX
    &&& tokens * cfg.projector_hidden_size <= usize::MAX
    &&& cfg.hidden_size * cfg.downsample_factor <= usize::MAX
    &&& merged_dim(cfg) <= usize::MAX
}

fn push_block_ops(out: &mut Vec<VisionOp>, cfg: &VisionConfig, n: usize, l: usize)
    requires
        3 * cfg.hidden_size <= usize::MAX,
        n * cfg.mlp_dim <= usize::MAX,
    ensures
        final(out)@ == old(out)@ + block_ops(*cfg, n, l as nat),
{
    let ghost before = out@;
    let h: usize = cfg.hidden_size;
    out.push(VisionOp::Norm { norm: VisionNorm::First(l), n });
    out.push(VisionOp::Linear { matrix: VisionMatrix::Qkv(l), out_dim: 3 * h, in_dim: h, n });
    out.push(VisionOp::Attend { n, heads: cfg.num_heads, head_dim: cfg.head_dim });
    out.push(VisionOp::Linear { matrix: VisionMatrix::Out(l), out_dim: h, in_dim: h, n });
    out.push(VisionOp::AddResidual { n });
    out.push(VisionOp::Norm { norm: VisionNorm::Second(l), n });
    out.push(
        VisionOp::Linear { matrix: VisionMatrix::Fc1(l), out_dim: cfg.mlp_dim, in_dim: h, n },
    );
    out.push(VisionOp::GeluTanh { len: n * cfg.mlp_dim });
    out.push(
        VisionOp::Linear { matrix: VisionMatrix::Fc2(l), out_dim: h, in_dim: cfg.mlp_dim, n },
    );
    out.push(VisionOp::AddResidual { n });
    assert(out@ =~= before + block_ops(*cfg, n, l as nat));
}

/// The operations that take a sub-image of `gh` by `gw` patches to its tokens.
pub fn tower_and_project_sub_image(cfg: &VisionConfig, gh: usize, gw: usize) -> (out: Vec<VisionOp>)
    requires
        tower_fits(*cfg, gh, gw),
    ensures
        out@ == tower_ops(*cfg, gh, gw),
{
    let n: usize = gh * gw;
    let tokens: usize = cfg.tokens_for_grid(gh, gw);
    let mut out: Vec<VisionOp> = Vec::new();
    out.push(
        VisionOp::Linear {
            matrix: VisionMatrix::PatchEmbed,
            out_dim: cfg.hidden_size,
            in_dim: if n == 0 {
                0
            } else {
                cfg.patch_size * cfg.patch_size * cfg.num_channels
            },
            n,
        },
    );
    out.push(VisionOp::AddPositions { gh, gw });
    let ghost before = out@;
    assert(out@ =~= before + blocks_ops(*cfg, n, 0));
    let mut i: usize = 0;
    while i < cfg.num_layers
        invariant
            i <= cfg.num_layers,
            3 * cfg.hidden_size <= usize::MAX,
            n * cfg.mlp_dim <= usize::MAX,
            out@ == before + blocks_ops(*cfg, n, i as nat),
        decreases cfg.num_layers - i,
    {
        push_block_ops(&mut out, cfg, n, i);
        i = i + 1;
        assert(out@ =~= before + blocks_ops(*cfg, n, i as nat));
    }
    out.push(VisionOp::Norm { norm: VisionNorm::Last, n });
    out.push(
        VisionOp::Unshuffle {
            gh,
            gw,
            channels: cfg.hidden_size,
            factor: cfg.downsample_factor,
        },
    );
    out.push(
        VisionOp::Linear {
            matrix: VisionMatrix::Projector1,
            out_dim: cfg.projector_hidden_size,
            in_dim: cfg.hidden_size * cfg.downsample_factor * cfg.downsample_factor,
            n: tokens,
        },
    );
    out.push(VisionOp::GeluExact { len: tokens * cfg.projector_hidden_size });
    out.push(
        VisionOp::Linear {
            matrix: VisionMatrix::Projector2,
            out_dim: cfg.out_hidden_size,
            in_dim: cfg.projector_hidden_size,
            n: tokens,
        },
    );
    assert(out@ =~= tower_ops(*cfg, gh, gw));
    out
}

/// The projector takes exactly the rows that putting the patches together
/// makes.
pub proof fn projector_takes_the_rows(cfg: VisionConfig, gh: usize, gw: usize)
    requires
        tower_fits(cfg, gh, gw),
    ensures
        block_len(
            gh as int,
            gw as int,
            cfg.hidden_size as int,
            cfg.downsample_factor as int,
        ) == cfg.grid_tokens(gh as int, gw as int) * merged_dim(cfg),
{
    crate::vision_layout::rows_are_the_tokens(
        cfg,
        gh as int,
        gw as int,
        cfg.hidden_size as int,
    );
}

/// The operations that take an image to its tokens.
#[derive(Debug, PartialEq, Eq)]
pub struct VisionProgram {
    /// A side of the table of learned positions.
    pub side: usize,
    /// The operations of each sub-image; their rows follow one another.
    pub sub_images: Vec<Vec<VisionOp>>,
}

/// The operations of a sub-image.
pub open spec fn sub_ops<P>(cfg: VisionConfig, sub: SubImageV<P>) -> Seq<VisionOp> {
    tower_ops(
        cfg,
        (sub.h / cfg.patch_size as int) as usize,
        (sub.w / cfg.patch_size as int) as usize,
    )
}

/// Whether the tower takes a sub-image.
pub open spec fn sub_fits<P>(cfg: VisionConfig, sub: SubImageV<P>) -> bool {
    tower_fits(
        cfg,
        (sub.h / cfg.patch_size as int) as usize,
        (sub.w / cfg.patch_size as int) as usize,
    )
}

/// The operations that take an image to its tokens, sub-image by sub-image.
pub fn vision_forward<P: Copy>(cfg: &VisionConfig, prepared: &Prepared<P>) -> (r: VisionProgram)
    requires
        cfg.patch_size > 0,
        side_of(*cfg) is Some,
        forall|i: int|
            0 <= i < prepared.sub_images@.len() ==> sub_fits(
                *cfg,
                (#[trigger] prepared.sub_images@[i])@,
            ),
    ensures
        Some(r.side) == side_of(*cfg),
        r.sub_images@.len() == prepared.sub_images@.len(),
        forall|i: int|
            0 <= i < prepared.sub_images@.len() ==> (#[trigger] r.sub_images@[i])@ == sub_ops(
                *cfg,
                prepared.sub_images@[i]@,
            ),
{
    let side: usize = match position_side(cfg) {
        Some(k) => k,
        None => 0,
    };
    let mut sub_images: Vec<Vec<VisionOp>> = Vec::new();
    let mut i: usize = 0;
    while i < prepared.sub_images.len()
        invariant
            i <= prepared.sub_images@.len(),
            cfg.patch_size > 0,
            forall|k: int|
                0 <= k < prepared.sub_images@.len() ==> sub_fits(
                    *cfg,
                    (#[trigger] prepared.sub_images@[k])@,
                ),
            sub_images@.len() == i,
            forall|k: int|
                0 <= k < i ==> (#[trigger] sub_images@[k])@ == sub_ops(
                    *cfg,
                    prepared.sub_images@[k]@,
                ),
        decreases prepared.sub_images@.len() - i,
    {
        let sub = &prepared.sub_images[i];
        assert(sub_fits(*cfg, prepared.sub_images@[i as int]@));
        sub_images.push(tower_and_project_sub_image(cfg, sub.gh(cfg), sub.gw(cfg)));
        i = i + 1;
    }
    VisionProgram { side, sub_images }
}

/// How many rows a sub-image's operations end with.
pub open spec fn rows_made(ops: Seq<VisionOp>) -> int {
    match ops.last() {
        VisionOp::Linear { n, .. } => n as int,
        _ => 0,
    }
}

/// How many rows an image's operations end with.
pub open spec fn all_rows_made(programs: Seq<Seq<VisionOp>>) -> int
    decreases programs.len(),
{
    if programs.len() == 0 {
        0
    } else {
        all_rows_made(programs.drop_last()) + rows_made(programs.last())
    }
}

/// The tower makes a row for every place that the prompt has for the image.
pub proof fn rows_fill_the_places<P>(
    cfg: VisionConfig,
    subs: Seq<SubImageV<P>>,
    programs: Seq<Seq<VisionOp>>,
)
    requires
        cfg.patch_size > 0,
        programs.len() == subs.len(),
        forall|i: int|
            0 <= i < subs.len() ==> {
                &&& 0 <= (#[trigger] subs[i]).h <= usize::MAX
                &&& 0 <= subs[i].w <= usize::MAX
                &&& sub_fits(cfg, subs[i])
            },
        forall|i: int|
            0 <= i < subs.len() ==> #[trigger] programs[i] == sub_ops(cfg, subs[i]),
    ensures
        all_rows_made(programs) == tokens_of(subs, cfg),
    decreases subs.len(),
{
    if subs.len() > 0 {
        let (init, done) = (subs.drop_last(), programs.drop_last());
        let sub = subs.last();
        assert forall|i: int| 0 <= i < init.len() implies {
            &&& 0 <= (#[trigger] init[i]).h <= usize::MAX
            &&& 0 <= init[i].w <= usize::MAX
            &&& sub_fits(cfg, init[i])
        } by {
            assert(init[i] == subs[i]);
        }
        assert forall|i: int| 0 <= i < init.len() implies #[trigger] done[i] == sub_ops(
            cfg,
            init[i],
        ) by {
            assert(done[i] == programs[i] && init[i] == subs[i]);
        }
        rows_fill_the_places(cfg, init, done);
        assert(sub == subs[subs.len() - 1]);
        assert(programs.last() == programs[subs.len() - 1]);
        let ps = cfg.patch_size as int;
        vstd::arithmetic::div_mod::lemma_div_pos_is_pos(sub.h, ps);
        vstd::arithmetic::div_mod::lemma_div_pos_is_pos(sub.w, ps);
        vstd::arithmetic::div_mod::lemma_div_is_ordered_by_denominator(sub.h, 1, ps);
        vstd::arithmetic::div_mod::lemma_div_is_ordered_by_denominator(sub.w, 1, ps);
        crate::vision_prepare::tokens_positive(sub, cfg);
    }
}

/// How a matrix is multiplied on a device: at once, or by columns and then
/// turned.
#[derive(Debug, Clone, Copy, PartialEq, Eq, Structural)]
pub enum LinearRoute {
    RowMajor,
    TransposeAfter,
}

/// How a matrix is multiplied on a device with or without either kind of
/// matrix units.
pub fn linear_f16(has_wmma_w32: bool, has_wmma_w32_gfx12: bool) -> (r: LinearRoute)
    ensures
        r == (if has_wmma_w32 || has_wmma_w32_gfx12 {
            LinearRoute::RowMajor
        } else {
            LinearRoute::TransposeAfter
        }),
{
    if has_wmma_w32 || has_wmma_w32_gfx12 {
        LinearRoute::RowMajor
    } else {
        LinearRoute::TransposeAfter
    }
}

/// Whether an operation is one of a block.
pub open spec fn of_block(op: VisionOp) -> bool {
    match op {
        VisionOp::Linear { matrix, .. } => matrix is Qkv || matrix is Out || matrix is Fc1 || matrix
            is Fc2,
        VisionOp::Norm { norm, .. } => norm is First || norm is Second,
        VisionOp::Attend { .. } => true,
        VisionOp::AddResidual { .. } => true,
        VisionOp::GeluTanh { .. } => true,
        _ => false,
    }
}

proof fn blocks_are_of_blocks(cfg: VisionConfig, n: usize, layers: nat)
    ensures
        forall|i: int|
            0 <= i < blocks_ops(cfg, n, layers).len() ==> of_block(
                #[trigger] blocks_ops(cfg, n, layers)[i],
            ),
    decreases layers,
{
    if layers > 0 {
        blocks_are_of_blocks(cfg, n, (layers - 1) as nat);
        let before = blocks_ops(cfg, n, (layers - 1) as nat);
        let own = block_ops(cfg, n, (layers - 1) as nat);
        let all = blocks_ops(cfg, n, layers);
        assert forall|i: int| 0 <= i < all.len() implies of_block(#[trigger] all[i]) by {
            if i < before.len() {
                assert(all[i] == before[i]);
            } else {
                assert(all[i] == own[i - before.len()]);
            }
        }
    }
}

proof fn parts_of_tower(cfg: VisionConfig, gh: usize, gw: usize)
    ensures
        ({
            let all = tower_ops(cfg, gh, gw);
            let blocks = blocks_ops(cfg, (gh * gw) as usize, cfg.num_layers as nat);
            let n = all.len() as int;
            &&& n == blocks.len() + 7
            &&& forall|i: int| 2 <= i < n - 5 ==> #[trigger] all[i] == blocks[i - 2]
            &&& forall|i: int| 0 <= i < n ==> (of_block(#[trigger] all[i]) <==> 2 <= i < n - 5)
        }),
{
    let all = tower_ops(cfg, gh, gw);
    let blocks = blocks_ops(cfg, (gh * gw) as usize, cfg.num_layers as nat);
    let n = all.len() as int;
    blocks_are_of_blocks(cfg, (gh * gw) as usize, cfg.num_layers as nat);
    assert forall|i: int| 2 <= i < n - 5 implies #[trigger] all[i] == blocks[i - 2] by {}
    assert forall|i: int| 0 <= i < n implies (of_block(#[trigger] all[i]) <==> 2 <= i < n - 5) by {
        if 2 <= i < n - 5 {
            assert(all[i] == blocks[i - 2]);
        }
    }
}

/// A sub-image's patches are embedded first, and what comes right behind that,
/// before every block, is the one addition of positions, for the sub-image's
/// own grid.
pub proof fn positions_are_added_once(cfg: VisionConfig, gh: usize, gw: usize)
    requires
        tower_fits(cfg, gh, gw),
    ensures
        ({
            let all = tower_ops(cfg, gh, gw);
            &&& all[0] is Linear && all[0]->matrix is PatchEmbed
            &&& all[0]->Linear_n == gh * gw
            &&& all[0]->out_dim == cfg.hidden_size
            &&& gh * gw > 0 ==> all[0]->in_dim == cfg.patch_size * cfg.patch_size
                * cfg.num_channels
            &&& only_at(all, all[0], 0)
            &&& only_at(all, VisionOp::AddPositions { gh, gw }, 1)
            &&& forall|i: int| 0 <= i < all.len() && (#[trigger] all[i]) is AddPositions ==> i == 1
            &&& forall|i: int| 0 <= i < all.len() && of_block(#[trigger] all[i]) ==> i > 1
        }),
{
    let all = tower_ops(cfg, gh, gw);
    parts_of_tower(cfg, gh, gw);
    assert(only_at(all, VisionOp::AddPositions { gh, gw }, 1));
    assert(only_at(all, all[0], 0));
}

/// Behind the blocks come the last norm, the putting together of the patches of
/// the same grid, and the projector: its first matrix on rows as wide as a
/// block of patches, the exact activation, its second matrix; each once.
pub proof fn the_projector_ends_the_tower(cfg: VisionConfig, gh: usize, gw: usize)
    requires
        tower_fits(cfg, gh, gw),
    ensures
        ({
            let all = tower_ops(cfg, gh, gw);
            let tokens = cfg.grid_tokens(gh as int, gw as int) as usize;
            let norm = VisionOp::Norm { norm: VisionNorm::Last, n: (gh * gw) as usize };
            let together = VisionOp::Unshuffle {
                gh,
                gw,
                channels: cfg.hidden_size,
                factor: cfg.downsample_factor,
            };
            let first = VisionOp::Linear {
                matrix: VisionMatrix::Projector1,
                out_dim: cfg.projector_hidden_size,
                in_dim: (cfg.hidden_size * cfg.downsample_factor * cfg.downsample_factor) as usize,
                n: tokens,
            };
            let act = VisionOp::GeluExact { len: (tokens * cfg.projector_hidden_size) as usize };
            let second = VisionOp::Linear {
                matrix: VisionMatrix::Projector2,
                out_dim: cfg.out_hidden_size,
                in_dim: cfg.projector_hidden_size,
                n: tokens,
            };
            &&& follows(all, VisionOp::AddPositions { gh, gw }, norm)
            &&& follows(all, norm, together)
            &&& follows(all, together, first)
            &&& follows(all, first, act)
            &&& follows(all, act, second)
            &&& all.last() == second
            &&& forall|i: int, j: int|
                0 <= i < all.len() && 0 <= j < all.len() && of_block(#[trigger] all[i])
                    && #[trigger] all[j] == norm ==> i < j
        }),
{
    let all = tower_ops(cfg, gh, gw);
    let n = all.len() as int;
    parts_of_tower(cfg, gh, gw);
    assert(only_at(all, VisionOp::AddPositions { gh, gw }, 1));
    assert(only_at(all, all[n - 5], n - 5));
    assert(only_at(all, all[n - 4], n - 4));
    assert(only_at(all, all[n - 3], n - 3));
    assert(only_at(all, all[n - 2], n - 2));
    assert(only_at(all, all[n - 1], n - 1));
}

/// Whether a matrix's rows are added to the tower's: the one behind attending
/// and the last of the perceptron's.
pub open spec fn ends_branch(op: VisionOp) -> bool {
    op is Linear && (op->matrix is Out || op->matrix is Fc2)
}

/// A block has two branches, each begun by its own norm and ended by an
/// addition to the tower's rows: attending, behind the queries', keys' and
/// values' matrix and before the output's; and the perceptron, its activation
/// between its two matrices.
pub proof fn a_block_has_two_branches(cfg: VisionConfig, n: usize, l: usize)
    requires
        3 * cfg.hidden_size <= usize::MAX,
    ensures
        ({
            let all = block_ops(cfg, n, l as nat);
            let h = cfg.hidden_size;
            let first = VisionOp::Norm { norm: VisionNorm::First(l), n };
            let qkv = VisionOp::Linear {
                matrix: VisionMatrix::Qkv(l),
                out_dim: (h + h + h) as usize,
                in_dim: h,
                n,
            };
            let attend = VisionOp::Attend { n, heads: cfg.num_heads, head_dim: cfg.head_dim };
            let out = VisionOp::Linear { matrix: VisionMatrix::Out(l), out_dim: h, in_dim: h, n };
            let second = VisionOp::Norm { norm: VisionNorm::Second(l), n };
            let fc1 = VisionOp::Linear {
                matrix: VisionMatrix::Fc1(l),
                out_dim: cfg.mlp_dim,
                in_dim: h,
                n,
            };
            let act = VisionOp::GeluTanh { len: (n * cfg.mlp_dim) as usize };
            let fc2 = VisionOp::Linear {
                matrix: VisionMatrix::Fc2(l),
                out_dim: h,
                in_dim: cfg.mlp_dim,
                n,
            };
            &&& all[0] == first
            &&& follows(all, first, qkv)
            &&& follows(all, qkv, attend)
            &&& follows(all, attend, out)
            &&& follows(all, out, second)
            &&& follows(all, second, fc1)
            &&& follows(all, fc1, act)
            &&& follows(all, act, fc2)
            &&& all.last() is AddResidual
            &&& forall|i: int|
                0 <= i < all.len() - 1 && ends_branch(#[trigger] all[i]) ==> all[i + 1]
                    == (VisionOp::AddResidual { n })
            &&& forall|i: int|
                0 <= i < all.len() && (#[trigger] all[i]) is AddResidual ==> i > 0 && ends_branch(
                    all[i - 1],
                )
        }),
{
    let all = block_ops(cfg, n, l as nat);
    assert(only_at(all, all[0], 0));
    assert(only_at(all, all[1], 1));
    assert(only_at(all, all[2], 2));
    assert(only_at(all, all[3], 3));
    assert(only_at(all, all[5], 5));
    assert(only_at(all, all[6], 6));
    assert(only_at(all, all[7], 7));
    assert(only_at(all, all[8], 8));
}

/// Every block's operations stand in the tower, each under its own number, and
/// the blocks follow one another in their order.
pub proof fn blocks_come_in_order(cfg: VisionConfig, n: usize, layers: nat, l: int)
    requires
        0 <= l < layers,
    ensures
        holds(blocks_ops(cfg, n, layers), block_ops(cfg, n, l as nat)),
        blocks_ops(cfg, n, layers) == blocks_ops(cfg, n, l as nat) + block_ops(cfg, n, l as nat)
            + blocks_ops(cfg, n, layers).skip(blocks_ops(cfg, n, (l + 1) as nat).len() as int),
    decreases layers,
{
    let all = blocks_ops(cfg, n, layers);
    let before = blocks_ops(cfg, n, (layers - 1) as nat);
    let last = block_ops(cfg, n, (layers - 1) as nat);
    let own = block_ops(cfg, n, l as nat);
    let up_to = blocks_ops(cfg, n, (l + 1) as nat).len() as int;
    if l == layers - 1 {
        held_in_itself(last);
        held_in_longer(before, last, Seq::empty(), own);
        assert(before + last + Seq::empty() =~= all);
        assert(all.skip(up_to) =~= Seq::empty());
    } else {
        blocks_come_in_order(cfg, n, (layers - 1) as nat, l);
        held_in_longer(Seq::empty(), before, last, own);
        assert(Seq::empty() + before + last =~= all);
        assert(up_to <= before.len());
        assert(all.skip(up_to) =~= before.skip(up_to) + last);
        assert(all =~= blocks_ops(cfg, n, l as nat) + own + all.skip(up_to));
    }
}

/// The tower of a sub-image runs every block on as many rows as it has patches.
pub proof fn every_block_is_run(cfg: VisionConfig, gh: usize, gw: usize, l: int)
    requires
        tower_fits(cfg, gh, gw),
        0 <= l < cfg.num_layers,
    ensures
        holds(tower_ops(cfg, gh, gw), block_ops(cfg, (gh * gw) as usize, l as nat)),
{
    let all = tower_ops(cfg, gh, gw);
    let n = all.len() as int;
    let blocks = blocks_ops(cfg, (gh * gw) as usize, cfg.num_layers as nat);
    blocks_come_in_order(cfg, (gh * gw) as usize, cfg.num_layers as nat, l);
    parts_of_tower(cfg, gh, gw);
    held_in_longer(
        all.subrange(0, 2),
        blocks,
        all.subrange(n - 5, n),
        block_ops(cfg, (gh * gw) as usize, l as nat),
    );
    assert(all.subrange(0, 2) + blocks + all.subrange(n - 5, n) =~= all);
}

/// A sub-image's rows of patches are taken from its height and their columns
/// from its width.
pub proof fn a_grid_is_as_high_as_its_image<P>(cfg: VisionConfig, sub: SubImageV<P>)
    requires
        cfg.patch_size > 0,
        0 <= sub.h <= usize::MAX,
        0 <= sub.w <= usize::MAX,
        sub_fits(cfg, sub),
    ensures
        sub_ops(cfg, sub)[1] is AddPositions,
        ({
            let (gh, gw) = (sub_ops(cfg, sub)[1]->AddPositions_gh, sub_ops(
                cfg,
                sub,
            )[1]->AddPositions_gw);
            &&& gh * cfg.patch_size <= sub.h < (gh + 1) * cfg.patch_size
            &&& gw * cfg.patch_size <= sub.w < (gw + 1) * cfg.patch_size
        }),
{
    let ps = cfg.patch_size as int;
    let (gh, gw) = (sub.h / ps, sub.w / ps);
    positions_are_added_once(cfg, gh as usize, gw as usize);
    vstd::arithmetic::div_mod::lemma_fundamental_div_mod(sub.h, ps);
    vstd::arithmetic::div_mod::lemma_fundamental_div_mod(sub.w, ps);
    vstd::arithmetic::div_mod::lemma_div_pos_is_pos(sub.h, ps);
    vstd::arithmetic::div_mod::lemma_div_pos_is_pos(sub.w, ps);
    vstd::arithmetic::div_mod::lemma_div_is_ordered_by_denominator(sub.h, 1, ps);
    vstd::arithmetic::div_mod::lemma_div_is_ordered_by_denominator(sub.w, 1, ps);
    assert(gh * ps == ps * gh && (gh + 1) * ps == ps * gh + ps) by (nonlinear_arith);
    assert(gw * ps == ps * gw && (gw + 1) * ps == ps * gw + ps) by (nonlinear_arith);
}

/// A block's queries, keys and values are loaded in this order, each weight right
/// before the bias that goes with it, and nothing else is stacked.
pub proof fn projections_are_stacked_in_order(cfg: VisionConfig, layer: nat)
    ensures
        ({
            let all = block_tensors(cfg, layer);
            let stacked = VisionUse::Stacked { hidden: cfg.hidden_size };
            let bias = VisionUse::StackedBias { hidden: cfg.hidden_size };
            &&& follows(
                all,
                tensor(vision_name(layer, ".self_attn.q_proj.weight"@), stacked),
                tensor(vision_name(layer, ".self_attn.k_proj.weight"@), stacked),
            )
            &&& follows(
                all,
                tensor(vision_name(layer, ".self_attn.k_proj.weight"@), stacked),
                tensor(vision_name(layer, ".self_attn.v_proj.weight"@), stacked),
            )
            &&& follows(
                all,
                tensor(vision_name(layer, ".self_attn.q_proj.bias"@), bias),
                tensor(vision_name(layer, ".self_attn.k_proj.bias"@), bias),
            )
            &&& follows(
                all,
                tensor(vision_name(layer, ".self_attn.k_proj.bias"@), bias),
                tensor(vision_name(layer, ".self_attn.v_proj.bias"@), bias),
            )
            &&& forall|i: int|
                0 <= i < all.len() && (#[trigger] all[i]).taken is Stacked ==> i + 1 < all.len()
                    && all[i + 1].taken is StackedBias
            &&& forall|i: int|
                0 <= i < all.len() ==> ((#[trigger] all[i]).taken is Stacked || all[i].taken
                    is StackedBias <==> i < 6)
        }),
{
    let all = block_tensors(cfg, layer);
    distinct_names(layer);
    assert(only_at(all, all[0], 0));
    assert(only_at(all, all[1], 1));
    assert(only_at(all, all[2], 2));
    assert(only_at(all, all[3], 3));
    assert(only_at(all, all[4], 4));
    assert(only_at(all, all[5], 5));
}

proof fn distinct_names(layer: nat)
    ensures
        vision_name(layer, ".self_attn.q_proj.weight"@) != vision_name(
            layer,
            ".self_attn.k_proj.weight"@,
        ),
        vision_name(layer, ".self_attn.q_proj.weight"@) != vision_name(
            layer,
            ".self_attn.v_proj.weight"@,
        ),
        vision_name(layer, ".self_attn.k_proj.weight"@) != vision_name(
            layer,
            ".self_attn.v_proj.weight"@,
        ),
        vision_name(layer, ".self_attn.q_proj.bias"@) != vision_name(
            layer,
            ".self_attn.k_proj.bias"@,
        ),
        vision_name(layer, ".self_attn.q_proj.bias"@) != vision_name(
            layer,
            ".self_attn.v_proj.bias"@,
        ),
        vision_name(layer, ".self_attn.k_proj.bias"@) != vision_name(
            layer,
            ".self_attn.v_proj.bias"@,
        ),
{
    reveal_strlit(".self_attn.q_proj.weight");
    reveal_strlit(".self_attn.k_proj.weight");
    reveal_strlit(".self_attn.v_proj.weight");
    reveal_strlit(".self_attn.q_proj.bias");
    reveal_strlit(".self_attn.k_proj.bias");
    reveal_strlit(".self_attn.v_proj.bias");
    let n = ("model.vision_tower.vision_model.encoder.layers."@ + decimal(layer)).len() as int;
    assert(vision_name(layer, ".self_attn.q_proj.weight"@)[n + 11] == 'q');
    assert(vision_name(layer, ".self_attn.k_proj.weight"@)[n + 11] == 'k');
    assert(vision_name(layer, ".self_attn.v_proj.weight"@)[n + 11] == 'v');
    assert(vision_name(layer, ".self_attn.q_proj.bias"@)[n + 11] == 'q');
    assert(vision_name(layer, ".self_attn.k_proj.bias"@)[n + 11] == 'k');
    assert(vision_name(layer, ".self_attn.v_proj.bias"@)[n + 11] == 'v');
}

/// Every block's tensors are loaded, each under its own number, in the blocks'
/// order, between those of the tower's beginning and those of its end.
pub proof fn every_block_is_loaded(cfg: VisionConfig, layers: nat, l: int)
    requires
        0 <= l < layers,
    ensures
        holds(blocks_tensors(cfg, layers), block_tensors(cfg, l as nat)),
        blocks_tensors(cfg, layers).len() == 16 * layers,
        blocks_tensors(cfg, layers).subrange(16 * l, 16 * l + 16) == block_tensors(cfg, l as nat),
    decreases layers,
{
    let all = blocks_tensors(cfg, layers);
    let before = blocks_tensors(cfg, (layers - 1) as nat);
    let last = block_tensors(cfg, (layers - 1) as nat);
    assert(last.len() == 16);
    if layers > 1 {
        every_block_is_loaded(
            cfg,
            (layers - 1) as nat,
            if l < layers - 1 {
                l
            } else {
                0
            },
        );
    }
    assert(before.len() == 16 * (layers - 1));
    if l == layers - 1 {
        assert(all.subrange(16 * l, 16 * l + 16) =~= last);
    } else {
        assert(all.subrange(16 * l, 16 * l + 16) =~= before.subrange(16 * l, 16 * l + 16));
    }
    assert(stands_at(all, block_tensors(cfg, l as nat), 16 * l));
}

/// A tensor serves exactly where it is there, in a tier that can be read, and, as
/// far as its shape counts, of the shape that is wanted.
pub proof fn serving_tensors(t: VisionTensorV, tier: u8, shape: Seq<u32>)
    ensures
        tensor_refusal(t, None) is Some,
        t.taken is PatchRows ==> (tensor_refusal(t, Some((tier, shape))) is None <==> (tier == 1
            || tier == 2) && (shape.len() == 2 || shape.len() == 4)),
        t.taken matches VisionUse::Stacked { hidden } ==> (tensor_refusal(
            t,
            Some((tier, shape)),
        ) is None <==> tier == 1 && shape.len() == 2 && shape[0] == hidden && shape[1] == hidden),
        t.taken !is PatchRows && t.taken !is Stacked ==> (tensor_refusal(
            t,
            Some((tier, shape)),
        ) is None <==> tier == 1 || tier == 2),
{
}

/// The table of positions has a side exactly where it is a square, and then that
/// square's.
pub proof fn square_tables_have_sides(cfg: VisionConfig, k: int)
    requires
        1 <= k,
        k * k < LIMIT,
    ensures
        cfg.num_position_embeddings == k * k ==> side_of(cfg) == Some(k as usize),
        side_of(cfg) matches Some(s) ==> s * s == cfg.num_position_embeddings,
{
    assert(k <= k * k) by (nonlinear_arith)
        requires
            1 <= k,
    ;
    root_is_exact(k);
    whole_numbers_stay(k, k);
    let n = num_of(cfg.num_position_embeddings as int);
    crate::binary64::operations_stay_plain(Num::Nan, Num::Nan, cfg.num_position_embeddings as int);
    crate::binary64::operations_stay_plain(n, Num::Nan, 0);
    crate::binary64::operations_stay_plain(n.root(), Num::Nan, 0);
}

/// A kernel's layout has the sides of the matrix that it is read as: an output's
/// inputs are all its channels' places.
pub proof fn layouts_have_their_sides(out: usize, channels: usize, kh: usize, kw: usize, n: usize)
    requires
        n == channels * kh * kw,
    ensures
        layout_sides(PatchLayout::Conv { out, channels, kh, kw }) == layout_sides(
            PatchLayout::Linear { out, in_dim: n },
        ),
        layout_sides(PatchLayout::Linear { out, in_dim: n }) == (out as int, n as int),
{
}

/// Halves and singles are read in their places, the low byte first, as many as are
/// there but no more than are asked for; tensors of other tiers are not read.
pub proof fn floats_are_read_in_place(data: Seq<u8>, n: int, i: int)
    requires
        0 <= i < n,
    ensures
        floats_of(1, data, n) matches Some(FloatBitsV::Half(v)) && {
            &&& v.len() <= n && 2 * v.len() <= data.len()
            &&& v.len() < n ==> data.len() < 2 * v.len() + 2
            &&& i < v.len() ==> v[i] % 256 == data[2 * i] && v[i] / 256 == data[2 * i + 1]
        },
        floats_of(2, data, n) matches Some(FloatBitsV::Single(v)) && {
            &&& v.len() <= n && 4 * v.len() <= data.len()
            &&& v.len() < n ==> data.len() < 4 * v.len() + 4
            &&& i < v.len() ==> v[i] % 256 == data[4 * i] && v[i] / 256 % 256 == data[4 * i + 1]
                && v[i] / 65536 % 256 == data[4 * i + 2] && v[i] / 16777216 == data[4 * i + 3]
        },
        forall|tier: u8| tier != 1 && tier != 2 ==> #[trigger] floats_of(tier, data, n) is None,
{
}

} // verus!
