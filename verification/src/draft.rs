//! Draft models: which targets they are refused on, and what a draft needs
//! beside its target.

use crate::load_plan::{full_layers_of, LayerType};
use crate::text;
use crate::text::{decimal, parsed_number};
use crate::turn_cache::opt_str;
use vstd::prelude::*;

verus! {

/// Whether a device is one of those with the batched kernels.
pub open spec fn is_gfx11(device: Seq<char>) -> bool {
    device == "gfx1100"@ || device == "gfx1101"@ || device == "gfx1102"@ || device == "gfx1150"@
        || device == "gfx1151"@ || device == "gfx1200"@ || device == "gfx1201"@
}

fn gfx11(device: &str) -> (r: bool)
    ensures
        r == is_gfx11(device@),
{
    text::same(device, "gfx1100") || text::same(device, "gfx1101") || text::same(
        device,
        "gfx1102",
    ) || text::same(device, "gfx1150") || text::same(device, "gfx1151") || text::same(
        device,
        "gfx1200",
    ) || text::same(device, "gfx1201")
}

/// Whether the batched kernels read a head of this tier on a device.
pub open spec fn head_supported(head_tier: Option<u8>, device: Seq<char>) -> bool {
    match head_tier {
        Some(t) => t == 3 || t == 6 || t == 13 || (t == 17 && is_gfx11(device)),
        None => false,
    }
}

/// The text of a head that no batched kernel reads.
pub open spec fn head_refusal(head_tier: Option<u8>, device: Seq<char>) -> Seq<char> {
    "DFlash draft requested but target lm_head "@ + (match head_tier {
        Some(t) => "quant_type="@ + decimal(t as nat),
        None => "no lm_head/embed_tokens tensor found at any known name"@,
    })
        + " is not supported by speculative.rs's batched GEMM paths on this arch ("@ + device
        + "). Supported: Q8_0 (qt=3), HFQ4G256 (qt=6), MQ4G256 (qt=13) always; MQ3G256 (qt=17) on gfx11 only. Other dtypes (MQ2 qt=18, MQ6/MQ8, HFQ3/HFQ2, HFQ4G128, HFQ6, F16, …) fall through to a per-row GEMV that hangs verify. Reload without a draft, or use an MQ4 / HFQ4 / Q8 target."@
}

/// The text of a weight that makes speculation slower than plain decoding.
pub open spec fn weight_refusal(
    two_bit: bool,
    name: Seq<char>,
    device: Seq<char>,
    arch_id: u32,
) -> Seq<char> {
    "DFlash draft requested but model contains "@ + (if two_bit {
        "MQ2 (qt=18)"@
    } else {
        "MQ3 (qt=17)"@
    }) + " weight `"@ + name + "` and "@ + (if arch_id != 5 && !two_bit {
        "arch_id="@ + decimal(arch_id as nat) + " (MoE/A3B-class) has no MQ3 MoE kernels"@
    } else {
        "arch="@ + device + " lacks the corresponding batched WMMA prefill family"@
    })
        + ". The prefill fast-path falls back to per-token `forward_scratch` for every spec verify cycle (or worse, a kernel-stride mismatch on MoE) — defeating DFlash's speedup. Reload without a draft, or use an MQ4 / HFQ4 / Q8 target."@
}

/// Why a draft is refused on a target; nothing where it is not. A two-bit
/// weight always counts against it, a three-bit one unless the target is a dense
/// Qwen3.5 on a device with the batched kernels.
pub open spec fn draft_refusal_of(
    head_tier: Option<u8>,
    device: Seq<char>,
    arch_id: u32,
    two_bit: Option<Seq<char>>,
    three_bit: Option<Seq<char>>,
) -> Option<Seq<char>> {
    if !head_supported(head_tier, device) {
        Some(head_refusal(head_tier, device))
    } else {
        match two_bit {
            Some(name) => Some(weight_refusal(true, name, device, arch_id)),
            None => if is_gfx11(device) && arch_id == 5 {
                None
            } else {
                match three_bit {
                    Some(name) => Some(weight_refusal(false, name, device, arch_id)),
                    None => None,
                }
            },
        }
    }
}

fn refuse_head(head_tier: Option<u8>, device: &str) -> (r: String)
    ensures
        r@ == head_refusal(head_tier, device@),
{
    let mut s = "DFlash draft requested but target lm_head ".to_owned();
    let ghost head = s@;
    match head_tier {
        Some(t) => {
            s.append("quant_type=");
            text::push_decimal(&mut s, t as usize);
            assert(s@ =~= head + ("quant_type="@ + decimal(t as nat)));
        },
        None => {
            s.append("no lm_head/embed_tokens tensor found at any known name");
        },
    }
    s.append(" is not supported by speculative.rs's batched GEMM paths on this arch (");
    s.append(device);
    s.append(
        "). Supported: Q8_0 (qt=3), HFQ4G256 (qt=6), MQ4G256 (qt=13) always; MQ3G256 (qt=17) on gfx11 only. Other dtypes (MQ2 qt=18, MQ6/MQ8, HFQ3/HFQ2, HFQ4G128, HFQ6, F16, …) fall through to a per-row GEMV that hangs verify. Reload without a draft, or use an MQ4 / HFQ4 / Q8 target.",
    );
    s
}

fn refuse_weight(two_bit: bool, name: &str, device: &str, arch_id: u32) -> (r: String)
    ensures
        r@ == weight_refusal(two_bit, name@, device@, arch_id),
{
    let mut s = "DFlash draft requested but model contains ".to_owned();
    s.append(
        if two_bit {
            "MQ2 (qt=18)"
        } else {
            "MQ3 (qt=17)"
        },
    );
    s.append(" weight `");
    s.append(name);
    s.append("` and ");
    let ghost head = s@;
    if arch_id != 5 && !two_bit {
        s.append("arch_id=");
        text::push_decimal(&mut s, arch_id as usize);
        s.append(" (MoE/A3B-class) has no MQ3 MoE kernels");
        assert(s@ =~= head + ("arch_id="@ + decimal(arch_id as nat)
            + " (MoE/A3B-class) has no MQ3 MoE kernels"@));
    } else {
        s.append("arch=");
        s.append(device);
        s.append(" lacks the corresponding batched WMMA prefill family");
        assert(s@ =~= head + ("arch="@ + device@
            + " lacks the corresponding batched WMMA prefill family"@));
    }
    s.append(
        ". The prefill fast-path falls back to per-token `forward_scratch` for every spec verify cycle (or worse, a kernel-stride mismatch on MoE) — defeating DFlash's speedup. Reload without a draft, or use an MQ4 / HFQ4 / Q8 target.",
    );
    s
}

/// Why a draft is refused on a target; nothing where it is not. `two_bit` and
/// `three_bit` name the target's first tensors of those tiers.
pub fn draft_refusal(
    head_tier: Option<u8>,
    device: &str,
    arch_id: u32,
    two_bit: Option<&str>,
    three_bit: Option<&str>,
) -> (r: Option<String>)
    ensures
        crate::chat::opt_text(r) == draft_refusal_of(
            head_tier,
            device@,
            arch_id,
            opt_str(two_bit),
            opt_str(three_bit),
        ),
{
    let fast = gfx11(device);
    let supported = match head_tier {
        Some(t) => t == 3 || t == 6 || t == 13 || (t == 17 && fast),
        None => false,
    };
    if !supported {
        return Some(refuse_head(head_tier, device));
    }
    match two_bit {
        Some(name) => Some(refuse_weight(true, name, device, arch_id)),
        None => {
            if fast && arch_id == 5 {
                return None;
            }
            match three_bit {
                Some(name) => Some(refuse_weight(false, name, device, arch_id)),
                None => None,
            }
        },
    }
}

/// The tensor names under which a target's head is looked for, in order.
pub fn head_names() -> (out: Vec<&'static str>)
    ensures
        out@ == seq![
            "lm_head.weight",
            "model.language_model.lm_head.weight",
            "model.language_model.embed_tokens.weight",
            "model.embed_tokens.weight",
        ],
{
    let mut out: Vec<&'static str> = Vec::new();
    out.push("lm_head.weight");
    out.push("model.language_model.lm_head.weight");
    out.push("model.language_model.embed_tokens.weight");
    out.push("model.embed_tokens.weight");
    assert(out@ =~= seq![
        "lm_head.weight",
        "model.language_model.lm_head.weight",
        "model.language_model.embed_tokens.weight",
        "model.embed_tokens.weight",
    ]);
    out
}

/// The number that a setting writes, else a default.
pub open spec fn setting_or(setting: Option<Seq<char>>, default: usize) -> usize {
    match setting {
        Some(s) => match parsed_number(s, usize::MAX as nat) {
            Some(n) => n as usize,
            None => default,
        },
        None => default,
    }
}

/// The number that a setting writes, else a default.
pub fn size_setting(setting: Option<&str>, default: usize) -> (r: usize)
    ensures
        r == setting_or(opt_str(setting), default),
{
    match setting {
        Some(s) => match text::parse_number(s, usize::MAX as u64) {
            Some(n) => n as usize,
            None => default,
        },
        None => default,
    }
}

/// How many choices a draft tree keeps per place unless told otherwise.
pub const DEFAULT_TREE_TOPK: usize = 4;

/// What a draft tree needs.
#[derive(Debug, Clone, Copy, PartialEq, Eq, Structural)]
pub struct DdtreeState {
    /// The nodes of a tree.
    pub budget: usize,
    /// The choices per place.
    pub topk: usize,
    /// The width of the linear layers' queries, keys and values together.
    pub qkv_dim: usize,
    /// The layers that attend in full.
    pub n_fa_layers: usize,
}

/// What the target's configuration says.
#[derive(Debug, PartialEq, Eq)]
pub struct TargetShape {
    pub dim: usize,
    pub linear_num_key_heads: usize,
    pub linear_key_head_dim: usize,
    pub linear_num_value_heads: usize,
    pub linear_value_head_dim: usize,
    pub layer_types: Vec<LayerType>,
}

impl TargetShape {
    /// The width of the linear layers' queries, keys and values together.
    pub open spec fn qkv_dim(&self) -> int {
        self.linear_num_key_heads * self.linear_key_head_dim * 2 + self.linear_num_value_heads
            * self.linear_value_head_dim
    }

    /// The widths fit the machine.
    pub open spec fn fits(&self) -> bool {
        &&& self.linear_num_key_heads * self.linear_key_head_dim <= usize::MAX
        &&& self.linear_num_value_heads * self.linear_value_head_dim <= usize::MAX
        &&& self.qkv_dim() <= usize::MAX
        &&& 2 * self.dim <= usize::MAX
    }
}

/// Whether `n` is a power of two.
pub open spec fn is_power_of_two(n: int) -> bool {
    exists|k: nat| n == #[trigger] vstd::arithmetic::power2::pow2(k)
}

/// The least power of two that is no less than `n`.
pub fn next_power_of_two(n: usize) -> (r: usize)
    requires
        2 * n <= usize::MAX,
    ensures
        is_power_of_two(r as int),
        n <= r,
        n > 0 ==> r < 2 * n,
        n == 0 ==> r == 1,
{
    let mut r: usize = 1;
    let ghost mut k: nat = 0;
    proof {
        vstd::arithmetic::power2::lemma2_to64();
    }
    while r < n
        invariant
            2 * n <= usize::MAX,
            r == vstd::arithmetic::power2::pow2(k),
            n > 0 ==> r < 2 * n,
            n == 0 ==> r == 1,
        decreases 2 * n - r,
    {
        proof {
            vstd::arithmetic::power2::lemma_pow2_unfold(k + 1);
            vstd::arithmetic::power2::lemma_pow2_pos(k);
            k = k + 1;
        }
        r = r * 2;
    }
    r
}

/// What a draft needs beside its target.
#[derive(Debug, PartialEq, Eq)]
pub struct DflashPlan {
    pub block_size: usize,
    /// The tokens of a verified block: the seed and the draft.
    pub max_n: usize,
    pub ctx_capacity: usize,
    /// The width of the hidden states, rounded up to a power of two.
    pub hidden_k: usize,
    /// The hidden values that the host keeps.
    pub host_hidden: usize,
    pub ddtree: Option<DdtreeState>,
}

/// What the draft tree needs; nothing without a budget.
pub open spec fn ddtree_of(
    target: TargetShape,
    budget: Option<Seq<char>>,
    topk: Option<Seq<char>>,
) -> Option<DdtreeState> {
    if setting_or(budget, 0) > 0 {
        Some(
            (DdtreeState {
                budget: setting_or(budget, 0),
                topk: setting_or(topk, DEFAULT_TREE_TOPK),
                qkv_dim: target.qkv_dim() as usize,
                n_fa_layers: full_layers_of(target.layer_types@).len() as usize,
            }),
        )
    } else {
        None
    }
}

/// What a draft of blocks of `block_size` needs beside its target.
pub fn load_dflash_state(
    block_size: usize,
    ctx_capacity: usize,
    target: &TargetShape,
    tree_budget: Option<&str>,
    tree_topk: Option<&str>,
) -> (r: DflashPlan)
    requires
        block_size < usize::MAX,
        ctx_capacity * target.dim <= usize::MAX,
        target.fits(),
    ensures
        r.block_size == block_size,
        r.max_n == block_size + 1,
        r.ctx_capacity == ctx_capacity,
        is_power_of_two(r.hidden_k as int),
        target.dim <= r.hidden_k,
        target.dim > 0 ==> r.hidden_k < 2 * target.dim,
        target.dim == 0 ==> r.hidden_k == 1,
        r.host_hidden == ctx_capacity * target.dim,
        r.ddtree == ddtree_of(*target, opt_str(tree_budget), opt_str(tree_topk)),
{
    let budget: usize = size_setting(tree_budget, 0);
    let ddtree = if budget > 0 {
        let layers = crate::load_plan::full_attention_layers(&target.layer_types);
        Some(
            DdtreeState {
                budget,
                topk: size_setting(tree_topk, DEFAULT_TREE_TOPK),
                qkv_dim: target.linear_num_key_heads * target.linear_key_head_dim * 2
                    + target.linear_num_value_heads * target.linear_value_head_dim,
                n_fa_layers: layers.len(),
            },
        )
    } else {
        None
    };
    DflashPlan {
        block_size,
        max_n: block_size + 1,
        ctx_capacity,
        hidden_k: next_power_of_two(target.dim),
        host_hidden: ctx_capacity * target.dim,
        ddtree,
    }
}

/// A draft is taken exactly where the batched kernels read the target's head, no
/// weight is of two bits, and none of three unless the target is a dense Qwen3.5
/// on a device with those kernels.
pub proof fn drafts_are_taken_where_they_pay(
    head_tier: Option<u8>,
    device: Seq<char>,
    arch_id: u32,
    two_bit: Option<Seq<char>>,
    three_bit: Option<Seq<char>>,
)
    ensures
        draft_refusal_of(head_tier, device, arch_id, two_bit, three_bit) is None <==> {
            &&& head_tier matches Some(t) && (t == 3 || t == 6 || t == 13 || (t == 17 && is_gfx11(
                device,
            )))
            &&& two_bit is None
            &&& three_bit is Some ==> is_gfx11(device) && arch_id == 5
        },
        head_tier is None ==> draft_refusal_of(head_tier, device, arch_id, two_bit, three_bit)
            is Some,
{
}

/// A setting of decimal digits is that number; without one, or with a text that
/// is none, it is the default.
pub proof fn settings_are_numbers(n: nat, default: usize, text: Seq<char>)
    requires
        n <= usize::MAX,
    ensures
        setting_or(Some(decimal(n)), default) == n,
        setting_or(None, default) == default,
        parsed_number(text, usize::MAX as nat) is None ==> setting_or(Some(text), default)
            == default,
{
    text::decimal_reads_back(n, usize::MAX as nat);
}

/// A draft tree is kept exactly where its budget is positive; it then has that
/// budget, room for the queries, keys and values of the linear layers, and counts
/// the layers that attend in full.
pub proof fn trees_need_a_budget(
    target: TargetShape,
    budget: nat,
    topk: Option<Seq<char>>,
)
    requires
        budget <= usize::MAX,
        target.fits(),
    ensures
        ddtree_of(target, None, topk) is None,
        budget == 0 ==> ddtree_of(target, Some(decimal(budget)), topk) is None,
        budget > 0 ==> {
            let tree = ddtree_of(target, Some(decimal(budget)), topk);
            &&& tree is Some
            &&& tree->Some_0.budget == budget
            &&& tree->Some_0.topk == setting_or(topk, 4)
            &&& tree->Some_0.qkv_dim == target.linear_num_key_heads * target.linear_key_head_dim
                + target.linear_num_key_heads * target.linear_key_head_dim
                + target.linear_num_value_heads * target.linear_value_head_dim
            &&& tree->Some_0.n_fa_layers == full_layers_of(target.layer_types@).len() as usize
        },
{
    text::decimal_reads_back(budget, usize::MAX as nat);
}

} // verus!
