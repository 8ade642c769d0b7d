//! Selective re-quantisation: which tensors an override is for, and which
//! encoder a tier names.

use crate::reap::{overrides_view, OverrideV, QuantOverride, ReapPlan, Role};
use crate::text;
use crate::text::{decimal, ends, occurs, occurs_at, parsed_number};
use vstd::prelude::*;

verus! {

/// The architecture whose tensor names are matched.
#[derive(Clone, Copy, Debug, PartialEq, Eq, Structural)]
pub enum ReapArch {
    Deepseek4,
    Qwen35,
    Lfm2Moe,
    Minimax,
}

/// The part of a tensor name in front of a routed expert's index.
pub open spec fn expert_segment(arch: ReapArch) -> Seq<char> {
    match arch {
        ReapArch::Deepseek4 => ".ffn.experts."@,
        ReapArch::Qwen35 => ".mlp.experts."@,
        ReapArch::Lfm2Moe => ".feed_forward.experts."@,
        ReapArch::Minimax => ".block_sparse_moe.experts."@,
    }
}

fn segment(arch: ReapArch) -> (r: &'static str)
    ensures
        r@ == expert_segment(arch),
{
    match arch {
        ReapArch::Deepseek4 => ".ffn.experts.",
        ReapArch::Qwen35 => ".mlp.experts.",
        ReapArch::Lfm2Moe => ".feed_forward.experts.",
        ReapArch::Minimax => ".block_sparse_moe.experts.",
    }
}

/// Whether a name ends like a routed expert's matrix.
pub open spec fn expert_suffix(name: Seq<char>, arch: ReapArch) -> bool {
    match arch {
        ReapArch::Qwen35 => ends(name, ".gate_up_proj.weight"@) || ends(name, ".down_proj.weight"@),
        _ => ends(name, ".w1.weight"@) || ends(name, ".w2.weight"@) || ends(name, ".w3.weight"@),
    }
}

fn has_expert_suffix(name: &str, arch: ReapArch) -> (r: bool)
    ensures
        r == expert_suffix(name@, arch),
{
    match arch {
        ReapArch::Qwen35 => text::ends_with(name, ".gate_up_proj.weight") || text::ends_with(
            name,
            ".down_proj.weight",
        ),
        _ => text::ends_with(name, ".w1.weight") || text::ends_with(name, ".w2.weight")
            || text::ends_with(name, ".w3.weight"),
    }
}

/// What stands before the first dot.
pub open spec fn before_dot(s: Seq<char>) -> Seq<char>
    decreases s.len(),
{
    if s.len() == 0 || s[0] == '.' {
        Seq::empty()
    } else {
        seq![s[0]] + before_dot(s.subrange(1, s.len() as int))
    }
}

/// Whether `seg` first stands in `name` at `i`.
pub open spec fn first_at(name: Seq<char>, seg: Seq<char>, i: int) -> bool {
    occurs_at(name, seg, i) && forall|j: int| 0 <= j < i ==> !#[trigger] occurs_at(name, seg, j)
}

/// The expert that a name is of: the number between the first place of the
/// architecture's segment and the next dot.
pub open spec fn named_expert(name: Seq<char>, arch: ReapArch) -> Option<nat> {
    let seg = expert_segment(arch);
    if exists|i: int| #[trigger] first_at(name, seg, i) {
        let i = choose|i: int| #[trigger] first_at(name, seg, i);
        parsed_number(
            before_dot(name.subrange(i + seg.len(), name.len() as int)),
            u32::MAX as nat,
        )
    } else {
        None
    }
}

/// Whether a tensor name is of a layer.
pub open spec fn of_layer(name: Seq<char>, layer: nat) -> bool {
    occurs(name, "layers."@ + decimal(layer) + "."@)
}

/// Whether a tensor is one that an override is for.
pub open spec fn is_matched(name: Seq<char>, arch: ReapArch, o: OverrideV) -> bool {
    of_layer(name, o.layer as nat) && match o.role {
        Role::RoutedExperts => occurs(name, expert_segment(arch)) && expert_suffix(name, arch) && (
        o.experts.len() == 0 || (named_expert(name, arch) is Some && o.experts.contains(
            named_expert(name, arch)->Some_0 as u32,
        ))),
        Role::Attention => occurs(name, ".self_attn."@) || occurs(name, ".attn."@) || occurs(
            name,
            ".attention."@,
        ),
        Role::Router => occurs(name, ".gate.weight"@) || occurs(name, ".router"@) || occurs(
            name,
            ".gate.tid2eid"@,
        ),
        Role::SharedExpert => occurs(name, ".shared_expert"@) || occurs(name, ".shared_experts"@),
        Role::LmHead => occurs(name, "lm_head"@) || occurs(name, "output.weight"@),
        Role::Embed => occurs(name, "embed_tokens"@) || occurs(name, "tok_embeddings"@),
    }
}

fn holds_index(list: &Vec<u32>, x: u32) -> (r: bool)
    ensures
        r == list@.contains(x),
{
    let mut i: usize = 0;
    while i < list.len()
        invariant
            i <= list.len(),
            forall|j: int| 0 <= j < i ==> list@[j] != x,
        decreases list.len() - i,
    {
        if list[i] == x {
            assert(list@[i as int] == x);
            return true;
        }
        i = i + 1;
    }
    false
}

proof fn before_dot_ends_at(s: Seq<char>, k: int)
    requires
        0 <= k <= s.len(),
        forall|j: int| 0 <= j < k ==> s[j] != '.',
        k < s.len() ==> s[k] == '.',
    ensures
        before_dot(s) == s.subrange(0, k),
    decreases s.len(),
{
    if k == 0 {
        assert(s.subrange(0, 0) =~= Seq::<char>::empty());
    } else {
        let t = s.subrange(1, s.len() as int);
        before_dot_ends_at(t, k - 1);
        assert(s.subrange(0, k) =~= seq![s[0]] + t.subrange(0, k - 1));
    }
}

fn read_expert(name: &str, arch: ReapArch) -> (r: Option<u32>)
    ensures
        match r {
            Some(n) => named_expert(name@, arch) == Some(n as nat),
            None => named_expert(name@, arch) is None,
        },
{
    let chars = text::chars_of(name);
    let seg = text::chars_of(segment(arch));
    match text::find(&chars, &seg) {
        None => {
            assert forall|i: int| !#[trigger] first_at(name@, seg@, i) by {}
            None
        },
        Some(at) => {
            proof {
                assert(first_at(name@, seg@, at as int));
                let k = choose|i: int| #[trigger] first_at(name@, seg@, i);
                assert(k == at);
            }
            let n: usize = chars.len();
            assert(at + seg@.len() <= n);
            let from: usize = at + seg.len();
            let mut token: Vec<char> = Vec::new();
            let mut i: usize = from;
            let ghost rest = name@.subrange(from as int, name@.len() as int);
            while i < chars.len() && chars[i] != '.'
                invariant
                    from <= i <= chars.len(),
                    chars@ == name@,
                    rest == name@.subrange(from as int, name@.len() as int),
                    token@ == rest.subrange(0, i - from),
                    forall|j: int| 0 <= j < i - from ==> rest[j] != '.',
                decreases chars.len() - i,
            {
                token.push(chars[i]);
                i = i + 1;
                assert(token@ =~= rest.subrange(0, i - from));
            }
            proof {
                before_dot_ends_at(rest, i - from);
            }
            let t = text::text_of(&token);
            match text::parse_number(t.as_str(), u32::MAX as u64) {
                Some(n) => Some(n as u32),
                None => None,
            }
        },
    }
}

/// Whether a tensor is one that an override is for.
pub fn tensor_matches(name: &str, arch: ReapArch, ov: &QuantOverride) -> (r: bool)
    ensures
        r == is_matched(name@, arch, ov@),
{
    let mut layer = "layers.".to_owned();
    text::push_decimal(&mut layer, ov.layer);
    layer.append(".");
    if !text::contains(name, layer.as_str()) {
        return false;
    }
    match ov.role {
        Role::RoutedExperts => {
            if !text::contains(name, segment(arch)) || !has_expert_suffix(name, arch) {
                return false;
            }
            if ov.experts.len() == 0 {
                return true;
            }
            match read_expert(name, arch) {
                Some(e) => holds_index(&ov.experts, e),
                None => false,
            }
        },
        Role::Attention => text::contains(name, ".self_attn.") || text::contains(name, ".attn.")
            || text::contains(name, ".attention."),
        Role::Router => text::contains(name, ".gate.weight") || text::contains(name, ".router")
            || text::contains(name, ".gate.tid2eid"),
        Role::SharedExpert => text::contains(name, ".shared_expert") || text::contains(
            name,
            ".shared_experts",
        ),
        Role::LmHead => text::contains(name, "lm_head") || text::contains(name, "output.weight"),
        Role::Embed => text::contains(name, "embed_tokens") || text::contains(
            name,
            "tok_embeddings",
        ),
    }
}

/// The tier of the first override that is for a tensor.
pub open spec fn tier_for(name: Seq<char>, arch: ReapArch, overrides: Seq<OverrideV>) -> Option<
    Seq<char>,
>
    decreases overrides.len(),
{
    if overrides.len() == 0 {
        None
    } else if is_matched(name, arch, overrides[0]) {
        Some(overrides[0].tier)
    } else {
        tier_for(name, arch, overrides.subrange(1, overrides.len() as int))
    }
}

/// The tier that a plan re-quantises a tensor to: that of the first override
/// that is for it.
pub fn reap_override_for<'a>(name: &str, arch: ReapArch, plan: &'a ReapPlan) -> (r: Option<&'a str>)
    ensures
        match r {
            Some(t) => tier_for(name@, arch, plan@.quant_overrides) == Some(t@),
            None => tier_for(name@, arch, plan@.quant_overrides) is None,
        },
{
    let ghost all = plan@.quant_overrides;
    let mut i: usize = 0;
    assert(all.subrange(0, all.len() as int) =~= all);
    while i < plan.quant_overrides.len()
        invariant
            i <= plan.quant_overrides.len(),
            all == overrides_view(plan.quant_overrides@),
            tier_for(name@, arch, all) == tier_for(
                name@,
                arch,
                all.subrange(i as int, all.len() as int),
            ),
        decreases plan.quant_overrides.len() - i,
    {
        let ov = &plan.quant_overrides[i];
        let ghost rest = all.subrange(i as int, all.len() as int);
        assert(rest[0] == ov@);
        assert(rest.subrange(1, rest.len() as int) =~= all.subrange(i + 1, all.len() as int));
        if tensor_matches(name, arch, ov) {
            return Some(ov.tier.as_str());
        }
        i = i + 1;
    }
    None
}

/// A tensor of a layer that no override names is left as it is.
pub proof fn other_layers_are_untouched(
    name: Seq<char>,
    arch: ReapArch,
    overrides: Seq<OverrideV>,
)
    requires
        forall|i: int|
            0 <= i < overrides.len() ==> !of_layer(name, (#[trigger] overrides[i]).layer as nat),
    ensures
        tier_for(name, arch, overrides) is None,
    decreases overrides.len(),
{
    if overrides.len() > 0 {
        let rest = overrides.subrange(1, overrides.len() as int);
        assert forall|i: int| 0 <= i < rest.len() implies !of_layer(
            name,
            (#[trigger] rest[i]).layer as nat,
        ) by {
            assert(rest[i] == overrides[i + 1]);
        }
        other_layers_are_untouched(name, arch, rest);
        assert(!of_layer(name, overrides[0].layer as nat));
    }
}

/// The encoder of a tier.
#[derive(Clone, Copy, Debug, PartialEq, Eq, Structural)]
pub enum QuantType {
    Q8F16,
    HFQ4G256,
    HFQ6G256,
    MQ4G256,
    MQ6G256,
    MQ2G256Lloyd,
    MQ3G256Lloyd,
    MQ4G256Lloyd,
}

/// The encoder that a tier's name stands for.
pub open spec fn encoder_of(tier: Seq<char>) -> Option<QuantType> {
    if tier == "q8"@ || tier == "q8f16"@ {
        Some(QuantType::Q8F16)
    } else if tier == "hfq4"@ || tier == "hfq4g256"@ {
        Some(QuantType::HFQ4G256)
    } else if tier == "hfq6"@ || tier == "hfq6g256"@ {
        Some(QuantType::HFQ6G256)
    } else if tier == "mq4"@ || tier == "mq4g256"@ {
        Some(QuantType::MQ4G256)
    } else if tier == "mq6"@ || tier == "mq6g256"@ {
        Some(QuantType::MQ6G256)
    } else if tier == "mq2lloyd"@ || tier == "mq2g256lloyd"@ {
        Some(QuantType::MQ2G256Lloyd)
    } else if tier == "mq3lloyd"@ || tier == "mq3g256lloyd"@ {
        Some(QuantType::MQ3G256Lloyd)
    } else if tier == "mq4lloyd"@ || tier == "mq4g256lloyd"@ {
        Some(QuantType::MQ4G256Lloyd)
    } else {
        None
    }
}

impl QuantType {
    /// How many weights share a scale; zero where the tier has no groups.
    pub open spec fn group(self) -> u32 {
        if self == QuantType::Q8F16 {
            0
        } else {
            256
        }
    }

    /// Whether the weights are rotated before they are encoded.
    pub open spec fn rotates(self) -> bool {
        self != QuantType::Q8F16 && self != QuantType::HFQ4G256 && self != QuantType::HFQ6G256
    }
}

/// How a tensor is to be encoded.
#[derive(Clone, Copy, Debug, PartialEq, Eq, Structural)]
pub struct Encoding {
    pub quant_type: QuantType,
    pub group_size: u32,
    /// Whether the weights are rotated, by the signs of the two seeds.
    pub rotated: bool,
}

/// The seeds of the rotation's signs.
pub const SIGN_SEEDS: (u32, u32) = (42, 1042);

/// How a tensor is encoded in a tier, or the refusal of an unknown tier.
pub fn quantize_to_format(name: &str, fmt: &str) -> (r: Result<Encoding, String>)
    ensures
        match encoder_of(fmt@) {
            Some(q) => r == Ok::<Encoding, String>(
                Encoding { quant_type: q, group_size: q.group(), rotated: q.rotates() },
            ),
            None => r is Err && r->Err_0@ == "reap: unsupported overlay tier '"@ + fmt@ + "' for "@
                + name@,
        },
{
    if text::same(fmt, "q8") || text::same(fmt, "q8f16") {
        Ok(Encoding { quant_type: QuantType::Q8F16, group_size: 0, rotated: false })
    } else if text::same(fmt, "hfq4") || text::same(fmt, "hfq4g256") {
        Ok(Encoding { quant_type: QuantType::HFQ4G256, group_size: 256, rotated: false })
    } else if text::same(fmt, "hfq6") || text::same(fmt, "hfq6g256") {
        Ok(Encoding { quant_type: QuantType::HFQ6G256, group_size: 256, rotated: false })
    } else if text::same(fmt, "mq4") || text::same(fmt, "mq4g256") {
        Ok(Encoding { quant_type: QuantType::MQ4G256, group_size: 256, rotated: true })
    } else if text::same(fmt, "mq6") || text::same(fmt, "mq6g256") {
        Ok(Encoding { quant_type: QuantType::MQ6G256, group_size: 256, rotated: true })
    } else if text::same(fmt, "mq2lloyd") || text::same(fmt, "mq2g256lloyd") {
        Ok(Encoding { quant_type: QuantType::MQ2G256Lloyd, group_size: 256, rotated: true })
    } else if text::same(fmt, "mq3lloyd") || text::same(fmt, "mq3g256lloyd") {
        Ok(Encoding { quant_type: QuantType::MQ3G256Lloyd, group_size: 256, rotated: true })
    } else if text::same(fmt, "mq4lloyd") || text::same(fmt, "mq4g256lloyd") {
        Ok(Encoding { quant_type: QuantType::MQ4G256Lloyd, group_size: 256, rotated: true })
    } else {
        let mut s = "reap: unsupported overlay tier '".to_owned();
        s.append(fmt);
        s.append("' for ");
        s.append(name);
        Err(s)
    }
}

/// A tensor of an overlay.
#[derive(Debug, PartialEq, Eq)]
pub struct OverlayTensor {
    pub name: String,
    pub quant_type: QuantType,
    pub shape: Vec<u32>,
    pub group_size: u32,
    pub data: Vec<u8>,
    /// How many bytes were set aside: none.
    pub spilled_len: u64,
}

impl Encoding {
    /// The tensor of the bytes that the encoder made. A file keeps the low 32
    /// bits of each dimension.
    pub fn tensor(self, name: &str, shape: &Vec<usize>, data: Vec<u8>) -> (r: OverlayTensor)
        ensures
            r.name@ == name@,
            r.quant_type == self.quant_type,
            r.shape@ == shape@.map_values(|s: usize| s as u32),
            r.group_size == self.group_size,
            r.data == data,
            r.spilled_len == 0,
    {
        let mut narrowed: Vec<u32> = Vec::new();
        let mut i: usize = 0;
        while i < shape.len()
            invariant
                i <= shape@.len(),
                narrowed@.len() == i,
                forall|j: int| 0 <= j < i ==> #[trigger] narrowed@[j] == shape@[j] as u32,
            decreases shape@.len() - i,
        {
            narrowed.push(
                #[verifier::truncate]
                (shape[i] as u32),
            );
            i = i + 1;
        }
        assert(narrowed@ =~= shape@.map_values(|s: usize| s as u32));
        OverlayTensor {
            name: name.to_owned(),
            quant_type: self.quant_type,
            shape: narrowed,
            group_size: self.group_size,
            data,
            spilled_len: 0,
        }
    }
}

/// A tensor gets the tier of the first override that is for it, whatever comes
/// behind; where none is for it, it gets none.
pub proof fn the_first_override_counts(
    name: Seq<char>,
    arch: ReapArch,
    before: Seq<OverrideV>,
    o: OverrideV,
    behind: Seq<OverrideV>,
)
    requires
        forall|i: int| 0 <= i < before.len() ==> !is_matched(name, arch, #[trigger] before[i]),
        is_matched(name, arch, o),
    ensures
        tier_for(name, arch, before.push(o) + behind) == Some(o.tier),
        tier_for(name, arch, before) is None,
    decreases before.len(),
{
    let all = before.push(o) + behind;
    if before.len() == 0 {
        assert(all[0] == o);
    } else {
        let rest = before.subrange(1, before.len() as int);
        assert forall|i: int| 0 <= i < rest.len() implies !is_matched(
            name,
            arch,
            #[trigger] rest[i],
        ) by {
            assert(rest[i] == before[i + 1]);
        }
        the_first_override_counts(name, arch, rest, o, behind);
        assert(all[0] == before[0]);
        assert(all.subrange(1, all.len() as int) =~= rest.push(o) + behind);
    }
}

/// An override that lists experts is for some of the tensors that one without a
/// list is for: those whose own expert it lists.
pub proof fn lists_narrow_overrides(name: Seq<char>, arch: ReapArch, o: OverrideV)
    requires
        o.role == Role::RoutedExperts,
        o.experts.len() > 0,
    ensures
        is_matched(name, arch, o) <==> is_matched(
            name,
            arch,
            (OverrideV { experts: Seq::empty(), ..o }),
        ) && (named_expert(name, arch) matches Some(e) && o.experts.contains(e as u32)),
{
}

proof fn digits_end_at_the_dot(s: Seq<char>, rest: Seq<char>)
    requires
        text::all_digits(s),
    ensures
        before_dot(s + seq!['.'] + rest) == s,
    decreases s.len(),
{
    let all = s + seq!['.'] + rest;
    if s.len() == 0 {
        assert(all[0] == '.');
        assert(before_dot(all) =~= s);
    } else {
        let t = s.subrange(1, s.len() as int);
        assert forall|i: int| 0 <= i < t.len() implies text::is_digit(#[trigger] t[i]) by {
            assert(t[i] == s[i + 1]);
            assert(text::is_digit(s[i + 1]));
        }
        digits_end_at_the_dot(t, rest);
        assert(all[0] == s[0]);
        assert(text::is_digit(s[0]));
        assert(all.subrange(1, all.len() as int) =~= t + seq!['.'] + rest);
        assert(before_dot(all) =~= s);
    }
}

/// The expert of a name is the number that it writes behind the architecture's
/// segment.
pub proof fn experts_are_read_from_names(
    head: Seq<char>,
    arch: ReapArch,
    expert: nat,
    rest: Seq<char>,
)
    requires
        expert <= u32::MAX,
        first_at(
            head + expert_segment(arch) + decimal(expert) + seq!['.'] + rest,
            expert_segment(arch),
            head.len() as int,
        ),
    ensures
        named_expert(head + expert_segment(arch) + decimal(expert) + seq!['.'] + rest, arch)
            == Some(expert),
{
    let seg = expert_segment(arch);
    let name = head + seg + decimal(expert) + seq!['.'] + rest;
    let h = head.len() as int;
    let i = choose|i: int| #[trigger] first_at(name, seg, i);
    if i < h {
        assert(!occurs_at(name, seg, i));
    }
    if h < i {
        assert(!occurs_at(name, seg, h));
    }
    text::decimal_is_digits(expert);
    digits_end_at_the_dot(decimal(expert), rest);
    assert(name.subrange(h + seg.len(), name.len() as int) =~= decimal(expert) + seq!['.'] + rest);
    text::decimal_reads_back(expert, u32::MAX as nat);
}

/// Each encoder has its short and its long name, weights share a scale in every
/// tier but the eight-bit one, and what is rotated has groups.
pub proof fn encoders_have_their_names(tier: Seq<char>)
    ensures
        encoder_of(tier) == Some(QuantType::Q8F16) <==> tier == "q8"@ || tier == "q8f16"@,
        encoder_of(tier) == Some(QuantType::HFQ4G256) <==> tier == "hfq4"@ || tier
            == "hfq4g256"@,
        encoder_of(tier) == Some(QuantType::HFQ6G256) <==> tier == "hfq6"@ || tier
            == "hfq6g256"@,
        encoder_of(tier) == Some(QuantType::MQ4G256) <==> tier == "mq4"@ || tier == "mq4g256"@,
        encoder_of(tier) == Some(QuantType::MQ6G256) <==> tier == "mq6"@ || tier == "mq6g256"@,
        encoder_of(tier) == Some(QuantType::MQ2G256Lloyd) <==> tier == "mq2lloyd"@ || tier
            == "mq2g256lloyd"@,
        encoder_of(tier) == Some(QuantType::MQ3G256Lloyd) <==> tier == "mq3lloyd"@ || tier
            == "mq3g256lloyd"@,
        encoder_of(tier) == Some(QuantType::MQ4G256Lloyd) <==> tier == "mq4lloyd"@ || tier
            == "mq4g256lloyd"@,
        encoder_of(tier) matches Some(q) ==> (q.group() == 0 <==> q == QuantType::Q8F16),
        encoder_of(tier) matches Some(q) ==> (q.rotates() <==> tier[0] == 'm'),
{
    reveal_strlit("q8");
    reveal_strlit("q8f16");
    reveal_strlit("hfq4");
    reveal_strlit("hfq4g256");
    reveal_strlit("hfq6");
    reveal_strlit("hfq6g256");
    reveal_strlit("mq4");
    reveal_strlit("mq4g256");
    reveal_strlit("mq6");
    reveal_strlit("mq6g256");
    reveal_strlit("mq2lloyd");
    reveal_strlit("mq2g256lloyd");
    reveal_strlit("mq3lloyd");
    reveal_strlit("mq3g256lloyd");
    reveal_strlit("mq4lloyd");
    reveal_strlit("mq4g256lloyd");
    assert("q8"@[0] == 'q' && "q8f16"@[0] == 'q');
    assert("hfq4"@[0] == 'h' && "hfq4g256"@[0] == 'h' && "hfq6"@[0] == 'h' && "hfq6g256"@[0]
        == 'h');
    assert("hfq4"@[3] == '4' && "hfq4g256"@[3] == '4' && "hfq6"@[3] == '6' && "hfq6g256"@[3]
        == '6');
    assert("mq4"@[0] == 'm' && "mq4g256"@[0] == 'm' && "mq6"@[0] == 'm' && "mq6g256"@[0] == 'm');
    assert("mq2lloyd"@[0] == 'm' && "mq2g256lloyd"@[0] == 'm' && "mq3lloyd"@[0] == 'm'
        && "mq3g256lloyd"@[0] == 'm' && "mq4lloyd"@[0] == 'm' && "mq4g256lloyd"@[0] == 'm');
    assert("mq4"@[2] == '4' && "mq4g256"@[2] == '4' && "mq6"@[2] == '6' && "mq6g256"@[2] == '6');
    assert("mq2lloyd"@[2] == '2' && "mq2g256lloyd"@[2] == '2' && "mq3lloyd"@[2] == '3'
        && "mq3g256lloyd"@[2] == '3' && "mq4lloyd"@[2] == '4' && "mq4g256lloyd"@[2] == '4');
    assert("mq4"@.len() == 3 && "mq4g256"@.len() == 7 && "mq4lloyd"@.len() == 8
        && "mq4g256lloyd"@.len() == 12);
}

} // verus!
