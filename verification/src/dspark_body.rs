//! The dense block drafter that comes as a sidecar file: its configuration,
//! read off the shapes of its tensors, and the tensors in loading order.

use crate::dspark::DsparkConfig;
use crate::maple::number_before_dot;
use crate::text;
use crate::text::decimal;
use vstd::prelude::*;

verus! {

/// A tensor of the sidecar: its name, quantisation tier and shape.
#[derive(Debug, PartialEq, Eq)]
pub struct TensorInfo {
    pub name: String,
    pub quant_type: u8,
    pub shape: Vec<u32>,
}

/// What the sidecar's tensor list says of one tensor.
pub struct TensorInfoV {
    pub quant_type: u8,
    pub shape: Seq<u32>,
}

/// Whether the first tensor under `name` is at `i`.
pub open spec fn info_at(table: Seq<TensorInfo>, name: Seq<char>, i: int) -> bool {
    &&& 0 <= i < table.len()
    &&& table[i].name@ == name
    &&& forall|j: int| 0 <= j < i ==> (#[trigger] table[j]).name@ != name
}

/// The tensor under `name`.
pub open spec fn info_of(table: Seq<TensorInfo>, name: Seq<char>) -> Option<TensorInfoV> {
    if exists|i: int| #[trigger] info_at(table, name, i) {
        let i = choose|i: int| #[trigger] info_at(table, name, i);
        Some((TensorInfoV { quant_type: table[i].quant_type, shape: table[i].shape@ }))
    } else {
        None
    }
}

/// Where the tensor under `name` stands.
pub fn find_tensor_info(table: &Vec<TensorInfo>, name: &str) -> (r: Option<usize>)
    ensures
        match r {
            Some(i) => info_at(table@, name@, i as int) && info_of(table@, name@) == Some(
                (TensorInfoV {
                    quant_type: table@[i as int].quant_type,
                    shape: table@[i as int].shape@,
                }),
            ),
            None => info_of(table@, name@) is None,
        },
{
    let mut i: usize = 0;
    while i < table.len()
        invariant
            i <= table.len(),
            forall|j: int| 0 <= j < i ==> (#[trigger] table@[j]).name@ != name@,
        decreases table.len() - i,
    {
        if text::same(table[i].name.as_str(), name) {
            proof {
                assert(info_at(table@, name@, i as int));
                let k = choose|k: int| #[trigger] info_at(table@, name@, k);
                assert(k == i);
            }
            return Some(i);
        }
        i = i + 1;
    }
    assert forall|k: int| !#[trigger] info_at(table@, name@, k) by {}
    None
}

/// The names under which a tensor is looked for: its own alone, since the
/// sidecar's names have no prefix.
pub fn bare_name_candidates(name: &str) -> (r: Vec<String>)
    ensures
        r@.len() == 1,
        r@[0]@ == name@,
{
    let mut r: Vec<String> = Vec::new();
    r.push(name.to_owned());
    r
}

/// The name of a tensor of a layer.
pub open spec fn body_name(layer: nat, rest: Seq<char>) -> Seq<char> {
    "layers."@ + decimal(layer) + rest
}

fn body_text(layer: usize, rest: &str) -> (r: String)
    ensures
        r@ == body_name(layer as nat, rest@),
{
    let mut s = "layers.".to_owned();
    text::push_decimal(&mut s, layer);
    s.append(rest);
    s
}

/// Whether the sidecar holds a layer.
pub open spec fn has_layer(table: Seq<TensorInfo>, layer: nat) -> bool {
    info_of(table, body_name(layer, ".input_layernorm.weight"@)) is Some
}

/// Whether the sidecar's layers are those below `n`.
pub open spec fn is_layer_count(table: Seq<TensorInfo>, n: nat) -> bool {
    &&& forall|i: nat| i < n ==> #[trigger] has_layer(table, i)
    &&& !has_layer(table, n)
}

/// A sidecar has one number of layers.
pub proof fn layer_count_is_unique(table: Seq<TensorInfo>, m: nat, n: nat)
    requires
        is_layer_count(table, m),
        is_layer_count(table, n),
    ensures
        m == n,
{
    if m < n {
        assert(has_layer(table, m));
    }
    if n < m {
        assert(has_layer(table, n));
    }
}

proof fn body_name_tells_layer(a: nat, b: nat)
    requires
        body_name(a, ".input_layernorm.weight"@) == body_name(b, ".input_layernorm.weight"@),
    ensures
        a == b,
{
    reveal_strlit(".input_layernorm.weight");
    let p = "layers."@;
    let r = ".input_layernorm.weight"@;
    let x = decimal(a) + r;
    let y = decimal(b) + r;
    assert(body_name(a, r) =~= p + x);
    assert(body_name(b, r) =~= p + y);
    assert(x =~= (p + x).subrange(p.len() as int, (p + x).len() as int));
    assert(y =~= (p + y).subrange(p.len() as int, (p + y).len() as int));
    number_before_dot(a, r, b, r);
}

spec fn layer_place(table: Seq<TensorInfo>, layer: int) -> int {
    choose|i: int| #[trigger] info_at(table, body_name(layer as nat, ".input_layernorm.weight"@), i)
}

/// No more layers than tensors.
proof fn layers_within(table: Seq<TensorInfo>, n: nat)
    requires
        forall|i: nat| i < n ==> #[trigger] has_layer(table, i),
    ensures
        n <= table.len(),
{
    let layers = vstd::set_lib::set_int_range(0, n as int);
    let places = vstd::set_lib::set_int_range(0, table.len() as int);
    let f = |l: int| layer_place(table, l);
    vstd::set_lib::lemma_int_range(0, n as int);
    vstd::set_lib::lemma_int_range(0, table.len() as int);
    assert forall|l: int| 0 <= l < n implies info_at(
        table,
        body_name(l as nat, ".input_layernorm.weight"@),
        #[trigger] layer_place(table, l),
    ) by {
        assert(has_layer(table, l as nat));
    }
    assert(vstd::relations::injective_on(f, layers)) by {
        assert forall|a: int, b: int|
            layers.contains(a) && layers.contains(b) && #[trigger] f(a) == #[trigger] f(
                b,
            ) implies a == b by {
            assert(layer_place(table, a) == layer_place(table, b));
            body_name_tells_layer(a as nat, b as nat);
        }
    }
    let image = layers.map(f);
    vstd::set_lib::lemma_map_size(layers, image, f);
    assert(image.subset_of(places));
    vstd::set_lib::lemma_len_subset(image, places);
}

/// The drafter's configuration. It is a Qwen3 body: its norms take an epsilon
/// of `norm_eps_millionths`.
#[derive(Debug, Clone, Copy, PartialEq, Eq, Structural)]
pub struct DrafterConfig {
    pub dim: usize,
    pub hidden_dim: usize,
    pub n_layers: usize,
    pub n_heads: usize,
    pub n_kv_heads: usize,
    pub vocab_size: usize,
    pub head_dim: usize,
    pub norm_eps_millionths: u32,
    pub max_seq_len: usize,
    pub rope_freq_base: u32,
    pub bos_token: u32,
    pub eos_token: u32,
    pub has_qk_norm: bool,
}

/// A shape's numbers as they are printed, without the brackets.
pub open spec fn joined(shape: Seq<u32>) -> Seq<char>
    decreases shape.len(),
{
    if shape.len() == 0 {
        Seq::empty()
    } else if shape.len() == 1 {
        decimal(shape[0] as nat)
    } else {
        joined(shape.drop_last()) + ", "@ + decimal(shape.last() as nat)
    }
}

fn push_joined(s: &mut String, shape: &Vec<u32>)
    ensures
        final(s)@ == old(s)@ + joined(shape@),
{
    let ghost head = s@;
    let mut i: usize = 0;
    assert(head + joined(shape@.subrange(0, 0)) =~= head);
    while i < shape.len()
        invariant
            i <= shape.len(),
            s@ == head + joined(shape@.subrange(0, i as int)),
        decreases shape.len() - i,
    {
        let ghost pre = shape@.subrange(0, i + 1);
        assert(pre.drop_last() =~= shape@.subrange(0, i as int));
        assert(pre.last() == shape@[i as int]);
        if i > 0 {
            s.append(", ");
        }
        text::push_decimal(s, shape[i] as usize);
        assert(s@ =~= head + joined(pre));
        i = i + 1;
    }
    assert(shape@.subrange(0, i as int) =~= shape@);
}

/// The tensors that the configuration is read off beside the embedding, in
/// the order in which they are looked for.
pub open spec fn shape_names() -> Seq<Seq<char>> {
    seq![
        "layers.0.self_attn.q_norm.weight"@,
        "layers.0.self_attn.q_proj.weight"@,
        "layers.0.self_attn.k_proj.weight"@,
        "layers.0.mlp.gate_proj.weight"@,
    ]
}

/// The width of a head: what its norm's shape says.
pub open spec fn head_width(table: Seq<TensorInfo>) -> int {
    let shape = info_of(table, "layers.0.self_attn.q_norm.weight"@)->Some_0.shape;
    if shape.len() == 0 {
        128
    } else {
        shape[0] as int
    }
}

/// Why no configuration can be read; nothing where one can.
pub open spec fn config_refusal(table: Seq<TensorInfo>) -> Option<Seq<char>> {
    match info_of(table, "embed_tokens.weight"@) {
        None => Some("embed_tokens.weight missing"@),
        Some(embed) => if embed.shape.len() < 2 {
            Some("embed_tokens.weight unexpected shape ["@ + joined(embed.shape) + "]"@)
        } else if info_of(table, shape_names()[0]) is None {
            Some(shape_names()[0] + " missing"@)
        } else if info_of(table, shape_names()[1]) is None {
            Some(shape_names()[1] + " missing"@)
        } else if info_of(table, shape_names()[2]) is None {
            Some(shape_names()[2] + " missing"@)
        } else if info_of(table, shape_names()[3]) is None {
            Some(shape_names()[3] + " missing"@)
        } else if !has_layer(table, 0) {
            Some("qwen3_dspark: no body layers found (layers.0.* absent)"@)
        } else {
            None
        },
    }
}

/// The matrices have rows, and heads a width, as far as they are read.
pub open spec fn shapes_readable(table: Seq<TensorInfo>) -> bool {
    let names = shape_names();
    let embed = info_of(table, "embed_tokens.weight"@);
    let norm = info_of(table, names[0]);
    let q = info_of(table, names[1]);
    let k = info_of(table, names[2]);
    let gate = info_of(table, names[3]);
    embed is Some && embed->Some_0.shape.len() >= 2 && norm is Some && q is Some ==> {
        &&& head_width(table) > 0
        &&& q->Some_0.shape.len() > 0
        &&& k is Some ==> k->Some_0.shape.len() > 0
        &&& k is Some && gate is Some ==> gate->Some_0.shape.len() > 0
    }
}

/// Whether the matrices have rows, and heads a width, as far as they are read.
pub fn can_read_shapes(table: &Vec<TensorInfo>) -> (r: bool)
    ensures
        r == shapes_readable(table@),
{
    let embed = find_tensor_info(table, "embed_tokens.weight");
    let norm = find_tensor_info(table, "layers.0.self_attn.q_norm.weight");
    let q = find_tensor_info(table, "layers.0.self_attn.q_proj.weight");
    let k = find_tensor_info(table, "layers.0.self_attn.k_proj.weight");
    let gate = find_tensor_info(table, "layers.0.mlp.gate_proj.weight");
    match (embed, norm, q) {
        (Some(embed), Some(norm), Some(q)) => {
            if table[embed].shape.len() < 2 {
                return true;
            }
            if table[norm].shape.len() > 0 && table[norm].shape[0] == 0 {
                return false;
            }
            if table[q].shape.len() == 0 {
                return false;
            }
            match (k, gate) {
                (Some(k), Some(gate)) => table[k].shape.len() > 0 && table[gate].shape.len() > 0,
                (Some(k), None) => table[k].shape.len() > 0,
                _ => true,
            }
        },
        _ => true,
    }
}

/// The configuration that the shapes give.
pub open spec fn config_of(table: Seq<TensorInfo>, cfg: DrafterConfig) -> bool {
    let embed = info_of(table, "embed_tokens.weight"@)->Some_0.shape;
    let q = info_of(table, "layers.0.self_attn.q_proj.weight"@)->Some_0.shape;
    let k = info_of(table, "layers.0.self_attn.k_proj.weight"@)->Some_0.shape;
    let gate = info_of(table, "layers.0.mlp.gate_proj.weight"@)->Some_0.shape;
    &&& cfg.vocab_size == embed[0]
    &&& cfg.dim == embed[1]
    &&& cfg.head_dim == head_width(table)
    &&& cfg.n_heads == q[0] as int / head_width(table)
    &&& cfg.n_kv_heads == k[0] as int / head_width(table)
    &&& cfg.hidden_dim == gate[0]
    &&& is_layer_count(table, cfg.n_layers as nat)
    &&& cfg.norm_eps_millionths == 1
    &&& cfg.max_seq_len == 1024
    &&& cfg.rope_freq_base == 1_000_000
    &&& cfg.bos_token == 1
    &&& cfg.eos_token == 2
    &&& cfg.has_qk_norm
}

fn missing(name: &str) -> (r: String)
    ensures
        r@ == name@ + " missing"@,
{
    let mut s = name.to_owned();
    s.append(" missing");
    s
}

fn count_layers(table: &Vec<TensorInfo>) -> (n: usize)
    ensures
        is_layer_count(table@, n as nat),
{
    let mut n: usize = 0;
    loop
        invariant
            forall|i: nat| i < n ==> #[trigger] has_layer(table@, i),
            n <= table@.len(),
        decreases table@.len() - n,
    {
        let _len: usize = table.len();
        let name = body_text(n, ".input_layernorm.weight");
        if find_tensor_info(table, name.as_str()).is_none() {
            return n;
        }
        proof {
            assert(has_layer(table@, n as nat));
            layers_within(table@, (n + 1) as nat);
        }
        n = n + 1;
    }
}

/// The configuration, read off the shapes.
pub fn config_from_sidecar_tensors(table: &Vec<TensorInfo>) -> (r: Result<DrafterConfig, String>)
    requires
        shapes_readable(table@),
    ensures
        match r {
            Ok(cfg) => config_refusal(table@) is None && config_of(table@, cfg),
            Err(e) => config_refusal(table@) == Some(e@),
        },
{
    let embed: usize = match find_tensor_info(table, "embed_tokens.weight") {
        Some(i) => i,
        None => {
            return Err("embed_tokens.weight missing".to_owned());
        },
    };
    if table[embed].shape.len() < 2 {
        let mut s = "embed_tokens.weight unexpected shape [".to_owned();
        push_joined(&mut s, &table[embed].shape);
        s.append("]");
        return Err(s);
    }
    let vocab_size: usize = table[embed].shape[0] as usize;
    let dim: usize = table[embed].shape[1] as usize;
    let ghost names = shape_names();
    let norm: usize = match find_tensor_info(table, "layers.0.self_attn.q_norm.weight") {
        Some(i) => i,
        None => {
            assert(info_of(table@, names[0]) is None);
            return Err(missing("layers.0.self_attn.q_norm.weight"));
        },
    };
    assert(info_of(table@, names[0]) is Some);
    let head_dim: usize = if table[norm].shape.len() == 0 {
        128
    } else {
        table[norm].shape[0] as usize
    };
    assert(head_dim == head_width(table@));
    let q: usize = match find_tensor_info(table, "layers.0.self_attn.q_proj.weight") {
        Some(i) => i,
        None => {
            assert(info_of(table@, names[1]) is None);
            return Err(missing("layers.0.self_attn.q_proj.weight"));
        },
    };
    assert(info_of(table@, names[1]) is Some);
    let n_heads: usize = table[q].shape[0] as usize / head_dim;
    let k: usize = match find_tensor_info(table, "layers.0.self_attn.k_proj.weight") {
        Some(i) => i,
        None => {
            assert(info_of(table@, names[2]) is None);
            return Err(missing("layers.0.self_attn.k_proj.weight"));
        },
    };
    assert(info_of(table@, names[2]) is Some);
    let n_kv_heads: usize = table[k].shape[0] as usize / head_dim;
    let gate: usize = match find_tensor_info(table, "layers.0.mlp.gate_proj.weight") {
        Some(i) => i,
        None => {
            assert(info_of(table@, names[3]) is None);
            return Err(missing("layers.0.mlp.gate_proj.weight"));
        },
    };
    assert(info_of(table@, names[3]) is Some);
    let hidden_dim: usize = table[gate].shape[0] as usize;
    let n_layers: usize = count_layers(table);
    if n_layers == 0 {
        return Err("qwen3_dspark: no body layers found (layers.0.* absent)".to_owned());
    }
    assert(has_layer(table@, 0));
    Ok(
        DrafterConfig {
            dim,
            hidden_dim,
            n_layers,
            n_heads,
            n_kv_heads,
            vocab_size,
            head_dim,
            norm_eps_millionths: 1,
            max_seq_len: 1024,
            rope_freq_base: 1_000_000,
            bos_token: 1,
            eos_token: 2,
            has_qk_norm: true,
        },
    )
}

/// How a tensor is taken.
#[derive(Debug, Clone, Copy, PartialEq, Eq, Structural)]
pub enum TensorUse {
    /// A vector of so many floats.
    Norm { len: usize },
    /// A matrix of `m` rows and `k` columns.
    Matrix { m: usize, k: usize },
    /// The embedding.
    Embedding { vocab: usize, dim: usize },
    /// As it stands in the file; half-precision floats stay so.
    Global,
    /// One float.
    Scalar,
}

/// A tensor to load. `layer` and `label` say which it is in a failure's text.
#[derive(Debug, PartialEq, Eq)]
pub struct BodyTensor {
    pub layer: Option<usize>,
    pub label: &'static str,
    pub name: String,
    pub taken: TensorUse,
}

/// What a tensor to load holds.
pub struct BodyTensorV {
    pub layer: Option<nat>,
    pub label: Seq<char>,
    pub name: Seq<char>,
    pub taken: TensorUse,
}

impl View for BodyTensor {
    type V = BodyTensorV;

    open spec fn view(&self) -> BodyTensorV {
        BodyTensorV {
            layer: match self.layer {
                Some(l) => Some(l as nat),
                None => None,
            },
            label: self.label@,
            name: self.name@,
            taken: self.taken,
        }
    }
}

/// What each of several tensors holds.
pub open spec fn tensors_view(tensors: Seq<BodyTensor>) -> Seq<BodyTensorV> {
    tensors.map_values(|t: BodyTensor| t@)
}

/// A tensor of a layer.
pub open spec fn layer_tensor(
    layer: nat,
    label: Seq<char>,
    rest: Seq<char>,
    taken: TensorUse,
) -> BodyTensorV {
    BodyTensorV { layer: Some(layer), label, name: body_name(layer, rest), taken }
}

/// A layer's norms and projections.
pub open spec fn layer_tensors(cfg: DrafterConfig, layer: nat) -> Seq<BodyTensorV> {
    let dim = cfg.dim;
    let hidden = cfg.hidden_dim;
    let q_dim = (cfg.n_heads * cfg.head_dim) as usize;
    let kv_dim = (cfg.n_kv_heads * cfg.head_dim) as usize;
    let norm = TensorUse::Norm { len: dim };
    let head_norm = TensorUse::Norm { len: cfg.head_dim };
    let head = seq![
        layer_tensor(layer, "attn_norm"@, ".input_layernorm.weight"@, norm),
        layer_tensor(layer, "ffn_norm"@, ".post_attention_layernorm.weight"@, norm),
    ];
    let heads = seq![
        layer_tensor(layer, "q_norm"@, ".self_attn.q_norm.weight"@, head_norm),
        layer_tensor(layer, "k_norm"@, ".self_attn.k_norm.weight"@, head_norm),
    ];
    let projections = seq![
        layer_tensor(
            layer,
            "wq"@,
            ".self_attn.q_proj.weight"@,
            (TensorUse::Matrix { m: q_dim, k: dim }),
        ),
        layer_tensor(
            layer,
            "wk"@,
            ".self_attn.k_proj.weight"@,
            (TensorUse::Matrix { m: kv_dim, k: dim }),
        ),
        layer_tensor(
            layer,
            "wv"@,
            ".self_attn.v_proj.weight"@,
            (TensorUse::Matrix { m: kv_dim, k: dim }),
        ),
        layer_tensor(
            layer,
            "wo"@,
            ".self_attn.o_proj.weight"@,
            (TensorUse::Matrix { m: dim, k: q_dim }),
        ),
        layer_tensor(
            layer,
            "w_gate"@,
            ".mlp.gate_proj.weight"@,
            (TensorUse::Matrix { m: hidden, k: dim }),
        ),
        layer_tensor(
            layer,
            "w_up"@,
            ".mlp.up_proj.weight"@,
            (TensorUse::Matrix { m: hidden, k: dim }),
        ),
        layer_tensor(
            layer,
            "w_down"@,
            ".mlp.down_proj.weight"@,
            (TensorUse::Matrix { m: dim, k: hidden }),
        ),
    ];
    if cfg.has_qk_norm {
        head + heads + projections
    } else {
        head + projections
    }
}

/// The tensors of the layers below `n`.
pub open spec fn layers_tensors(cfg: DrafterConfig, n: nat) -> Seq<BodyTensorV>
    decreases n,
{
    if n == 0 {
        Seq::empty()
    } else {
        layers_tensors(cfg, (n - 1) as nat) + layer_tensors(cfg, (n - 1) as nat)
    }
}

/// A tensor outside the layers.
pub open spec fn global_tensor(label: Seq<char>, name: Seq<char>, taken: TensorUse) -> BodyTensorV {
    BodyTensorV { layer: None, label, name, taken }
}

/// The tensors after the layers; the confidence head only where it is used.
pub open spec fn global_tensors(cfg: DrafterConfig, confidence: bool) -> Seq<BodyTensorV> {
    let norm = TensorUse::Norm { len: cfg.dim };
    let always = seq![
        global_tensor(
            "embed_tokens"@,
            "embed_tokens.weight"@,
            (TensorUse::Embedding { vocab: cfg.vocab_size, dim: cfg.dim }),
        ),
        global_tensor("norm.weight"@, "norm.weight"@, norm),
        global_tensor(
            "lm_head.weight"@,
            "lm_head.weight"@,
            (TensorUse::Matrix { m: cfg.vocab_size, k: cfg.dim }),
        ),
        global_tensor("main_proj.weight"@, "main_proj.weight"@, TensorUse::Global),
        global_tensor("main_norm.weight"@, "main_norm.weight"@, norm),
        global_tensor(
            "markov_head.markov_w1.weight"@,
            "markov_head.markov_w1.weight"@,
            TensorUse::Global,
        ),
        global_tensor(
            "markov_head.markov_w2.weight"@,
            "markov_head.markov_w2.weight"@,
            TensorUse::Global,
        ),
    ];
    if confidence {
        always + seq![
            global_tensor(
                "confidence_head.proj.weight"@,
                "confidence_head.proj.weight"@,
                TensorUse::Global,
            ),
            global_tensor(
                "confidence_head.proj.bias"@,
                "confidence_head.proj.bias"@,
                TensorUse::Scalar,
            ),
        ]
    } else {
        always
    }
}

/// The drafter's tensors, in loading order.
pub open spec fn body_tensors(cfg: DrafterConfig, confidence: bool) -> Seq<BodyTensorV> {
    layers_tensors(cfg, cfg.n_layers as nat) + global_tensors(cfg, confidence)
}

fn push_layer_tensor(
    out: &mut Vec<BodyTensor>,
    layer: usize,
    label: &'static str,
    rest: &str,
    taken: TensorUse,
)
    ensures
        tensors_view(final(out)@) == tensors_view(old(out)@).push(
            layer_tensor(layer as nat, label@, rest@, taken),
        ),
{
    let ghost before = out@;
    out.push(BodyTensor { layer: Some(layer), label, name: body_text(layer, rest), taken });
    assert(tensors_view(out@) =~= tensors_view(before).push(
        layer_tensor(layer as nat, label@, rest@, taken),
    ));
}

fn push_global_tensor(
    out: &mut Vec<BodyTensor>,
    label: &'static str,
    name: &'static str,
    taken: TensorUse,
)
    ensures
        tensors_view(final(out)@) == tensors_view(old(out)@).push(
            global_tensor(label@, name@, taken),
        ),
{
    let ghost before = out@;
    out.push(BodyTensor { layer: None, label, name: name.to_owned(), taken });
    assert(tensors_view(out@) =~= tensors_view(before).push(global_tensor(label@, name@, taken)));
}

/// The widths of the projections fit the machine.
pub open spec fn widths_fit(cfg: DrafterConfig) -> bool {
    &&& cfg.n_heads * cfg.head_dim <= usize::MAX
    &&& cfg.n_kv_heads * cfg.head_dim <= usize::MAX
}

/// Appends a layer's tensors.
pub fn load_drafter_layer(out: &mut Vec<BodyTensor>, cfg: &DrafterConfig, layer: usize)
    requires
        widths_fit(*cfg),
    ensures
        tensors_view(final(out)@) == tensors_view(old(out)@) + layer_tensors(*cfg, layer as nat),
{
    let ghost before = tensors_view(out@);
    let q_dim: usize = cfg.n_heads * cfg.head_dim;
    let kv_dim: usize = cfg.n_kv_heads * cfg.head_dim;
    let norm = TensorUse::Norm { len: cfg.dim };
    push_layer_tensor(out, layer, "attn_norm", ".input_layernorm.weight", norm);
    push_layer_tensor(out, layer, "ffn_norm", ".post_attention_layernorm.weight", norm);
    if cfg.has_qk_norm {
        let head_norm = TensorUse::Norm { len: cfg.head_dim };
        push_layer_tensor(out, layer, "q_norm", ".self_attn.q_norm.weight", head_norm);
        push_layer_tensor(out, layer, "k_norm", ".self_attn.k_norm.weight", head_norm);
    }
    push_layer_tensor(
        out,
        layer,
        "wq",
        ".self_attn.q_proj.weight",
        TensorUse::Matrix { m: q_dim, k: cfg.dim },
    );
    push_layer_tensor(
        out,
        layer,
        "wk",
        ".self_attn.k_proj.weight",
        TensorUse::Matrix { m: kv_dim, k: cfg.dim },
    );
    push_layer_tensor(
        out,
        layer,
        "wv",
        ".self_attn.v_proj.weight",
        TensorUse::Matrix { m: kv_dim, k: cfg.dim },
    );
    push_layer_tensor(
        out,
        layer,
        "wo",
        ".self_attn.o_proj.weight",
        TensorUse::Matrix { m: cfg.dim, k: q_dim },
    );
    push_layer_tensor(
        out,
        layer,
        "w_gate",
        ".mlp.gate_proj.weight",
        TensorUse::Matrix { m: cfg.hidden_dim, k: cfg.dim },
    );
    push_layer_tensor(
        out,
        layer,
        "w_up",
        ".mlp.up_proj.weight",
        TensorUse::Matrix { m: cfg.hidden_dim, k: cfg.dim },
    );
    push_layer_tensor(
        out,
        layer,
        "w_down",
        ".mlp.down_proj.weight",
        TensorUse::Matrix { m: cfg.dim, k: cfg.hidden_dim },
    );
    assert(tensors_view(out@) =~= before + layer_tensors(*cfg, layer as nat));
}

fn push_globals(out: &mut Vec<BodyTensor>, cfg: &DrafterConfig, confidence: bool)
    ensures
        tensors_view(final(out)@) == tensors_view(old(out)@) + global_tensors(*cfg, confidence),
{
    let ghost before = tensors_view(out@);
    let norm = TensorUse::Norm { len: cfg.dim };
    push_global_tensor(
        out,
        "embed_tokens",
        "embed_tokens.weight",
        TensorUse::Embedding { vocab: cfg.vocab_size, dim: cfg.dim },
    );
    push_global_tensor(out, "norm.weight", "norm.weight", norm);
    push_global_tensor(
        out,
        "lm_head.weight",
        "lm_head.weight",
        TensorUse::Matrix { m: cfg.vocab_size, k: cfg.dim },
    );
    push_global_tensor(out, "main_proj.weight", "main_proj.weight", TensorUse::Global);
    push_global_tensor(out, "main_norm.weight", "main_norm.weight", norm);
    push_global_tensor(
        out,
        "markov_head.markov_w1.weight",
        "markov_head.markov_w1.weight",
        TensorUse::Global,
    );
    push_global_tensor(
        out,
        "markov_head.markov_w2.weight",
        "markov_head.markov_w2.weight",
        TensorUse::Global,
    );
    if confidence {
        push_global_tensor(
            out,
            "confidence_head.proj.weight",
            "confidence_head.proj.weight",
            TensorUse::Global,
        );
        push_global_tensor(
            out,
            "confidence_head.proj.bias",
            "confidence_head.proj.bias",
            TensorUse::Scalar,
        );
    }
    assert(tensors_view(out@) =~= before + global_tensors(*cfg, confidence));
}

/// What a failure's text begins with.
pub open spec fn place_text(t: BodyTensorV) -> Seq<char> {
    match t.layer {
        Some(l) => "qwen3_dspark layer "@ + decimal(l) + ": "@ + t.label + ": "@,
        None => "qwen3_dspark: "@,
    }
}

/// The text of a tensor that the sidecar lacks.
pub open spec fn missing_text(t: BodyTensorV) -> Seq<char> {
    place_text(t) + t.name + " missing"@
}

/// The text of a tensor that the device does not take.
pub open spec fn failure_text(t: BodyTensorV, detail: Seq<char>) -> Seq<char> {
    place_text(t) + (if t.layer is Some {
        t.name
    } else if t.taken == TensorUse::Global {
        "upload "@ + t.name
    } else {
        t.label
    }) + ": "@ + detail
}

impl BodyTensor {
    fn place(&self) -> (r: String)
        ensures
            r@ == place_text(self@),
    {
        match self.layer {
            Some(l) => {
                let mut s = "qwen3_dspark layer ".to_owned();
                text::push_decimal(&mut s, l);
                s.append(": ");
                s.append(self.label);
                s.append(": ");
                s
            },
            None => "qwen3_dspark: ".to_owned(),
        }
    }

    /// Where the tensor stands in the sidecar.
    pub fn find(&self, table: &Vec<TensorInfo>) -> (r: Result<usize, String>)
        ensures
            match r {
                Ok(i) => info_at(table@, self.name@, i as int),
                Err(e) => info_of(table@, self.name@) is None && e@ == missing_text(self@),
            },
    {
        match find_tensor_info(table, self.name.as_str()) {
            Some(i) => Ok(i),
            None => {
                let mut s = self.place();
                s.append(self.name.as_str());
                s.append(" missing");
                Err(s)
            },
        }
    }

    /// The text of a failure to put the tensor on the device.
    pub fn failure(&self, detail: &str) -> (r: String)
        ensures
            r@ == failure_text(self@, detail@),
    {
        let mut s = self.place();
        let ghost head = s@;
        if self.layer.is_some() {
            s.append(self.name.as_str());
        } else {
            match self.taken {
                TensorUse::Global => {
                    s.append("upload ");
                    s.append(self.name.as_str());
                    assert(s@ =~= head + ("upload "@ + self.name@));
                },
                _ => {
                    s.append(self.label);
                },
            }
        }
        s.append(": ");
        s.append(detail);
        s
    }

    /// Whether a tensor that is taken as it stands holds half-precision floats.
    pub fn is_half(info: &TensorInfo) -> (r: bool)
        ensures
            r == (info.quant_type == 1),
    {
        info.quant_type == 1
    }
}

/// What is loaded of a sidecar: its tensors in order, and a cache and a scratch
/// of a block each.
#[derive(Debug, PartialEq, Eq)]
pub struct DrafterPlan {
    pub config: DrafterConfig,
    pub tensors: Vec<BodyTensor>,
    /// The tokens of the drafter's own cache.
    pub block_cap: usize,
}

/// What is loaded of a sidecar; nothing where the file describes no drafter.
pub fn load_qwen3_dspark(spark: Option<&DsparkConfig>, table: &Vec<TensorInfo>) -> (r: Result<
    Option<DrafterPlan>,
    String,
>)
    requires
        spark is Some ==> shapes_readable(table@),
    ensures
        match (spark, r) {
            (None, Ok(None)) => true,
            (Some(s), Ok(Some(plan))) => {
                &&& config_refusal(table@) is None
                &&& config_of(table@, plan.config)
                &&& tensors_view(plan.tensors@) == body_tensors(plan.config, s.enable_confidence)
                &&& plan.block_cap == s.block_size
            },
            (Some(_), Err(e)) => config_refusal(table@) is Some && e@
                == "qwen3_dspark: derive config: "@ + config_refusal(table@)->Some_0,
            _ => false,
        },
{
    let spark = match spark {
        Some(s) => s,
        None => {
            return Ok(None);
        },
    };
    let config = match config_from_sidecar_tensors(table) {
        Ok(c) => c,
        Err(e) => {
            let mut s = "qwen3_dspark: derive config: ".to_owned();
            s.append(e.as_str());
            return Err(s);
        },
    };
    proof {
        heads_fit(table@, config);
    }
    let mut tensors: Vec<BodyTensor> = Vec::new();
    assert(tensors_view(tensors@) =~= layers_tensors(config, 0));
    let mut i: usize = 0;
    while i < config.n_layers
        invariant
            i <= config.n_layers,
            widths_fit(config),
            tensors_view(tensors@) == layers_tensors(config, i as nat),
        decreases config.n_layers - i,
    {
        load_drafter_layer(&mut tensors, &config, i);
        i = i + 1;
    }
    push_globals(&mut tensors, &config, spark.enable_confidence);
    Ok(Some(DrafterPlan { config, tensors, block_cap: spark.block_size }))
}

proof fn heads_fit(table: Seq<TensorInfo>, cfg: DrafterConfig)
    requires
        shapes_readable(table),
        config_refusal(table) is None,
        config_of(table, cfg),
    ensures
        widths_fit(cfg),
        cfg.n_heads * cfg.head_dim <= info_of(table, shape_names()[1])->Some_0.shape[0],
        cfg.n_kv_heads * cfg.head_dim <= info_of(table, shape_names()[2])->Some_0.shape[0],
{
    let w = head_width(table);
    let q = info_of(table, shape_names()[1])->Some_0.shape[0] as int;
    let k = info_of(table, shape_names()[2])->Some_0.shape[0] as int;
    assert((q / w) * w <= q) by (nonlinear_arith)
        requires
            w > 0,
            q >= 0,
    ;
    assert((k / w) * w <= k) by (nonlinear_arith)
        requires
            w > 0,
            k >= 0,
    ;
}

/// The confidence head is loaded where, and only where, it is used: its weight
/// and its bias, after everything else.
pub proof fn confidence_head_comes_last(cfg: DrafterConfig)
    ensures
        body_tensors(cfg, true) == body_tensors(cfg, false) + seq![
            global_tensor(
                "confidence_head.proj.weight"@,
                "confidence_head.proj.weight"@,
                TensorUse::Global,
            ),
            global_tensor(
                "confidence_head.proj.bias"@,
                "confidence_head.proj.bias"@,
                TensorUse::Scalar,
            ),
        ],
{
    assert(body_tensors(cfg, true) =~= body_tensors(cfg, false) + seq![
        global_tensor(
            "confidence_head.proj.weight"@,
            "confidence_head.proj.weight"@,
            TensorUse::Global,
        ),
        global_tensor(
            "confidence_head.proj.bias"@,
            "confidence_head.proj.bias"@,
            TensorUse::Scalar,
        ),
    ]);
}

/// The matrices of a layer fit one another: the output projection takes what the
/// queries' heads make back to the model's width, keys and values are alike, the
/// down projection takes back what gate and up projections make; and the norms
/// are as wide as what they normalise.
pub proof fn layer_matrices_fit(cfg: DrafterConfig, layer: nat)
    requires
        widths_fit(cfg),
    ensures
        ({
            let all = layer_tensors(cfg, layer);
            let n = all.len() as int;
            let (q, k, v, o) = (all[n - 7], all[n - 6], all[n - 5], all[n - 4]);
            let (gate, up, down) = (all[n - 3], all[n - 2], all[n - 1]);
            &&& n == (if cfg.has_qk_norm {
                11int
            } else {
                9
            })
            &&& forall|i: int| 0 <= i < n ==> (#[trigger] all[i]).layer == Some(layer)
            &&& q.name == body_name(layer, ".self_attn.q_proj.weight"@)
            &&& k.name == body_name(layer, ".self_attn.k_proj.weight"@)
            &&& v.name == body_name(layer, ".self_attn.v_proj.weight"@)
            &&& o.name == body_name(layer, ".self_attn.o_proj.weight"@)
            &&& gate.name == body_name(layer, ".mlp.gate_proj.weight"@)
            &&& up.name == body_name(layer, ".mlp.up_proj.weight"@)
            &&& down.name == body_name(layer, ".mlp.down_proj.weight"@)
            &&& q.taken->m == cfg.n_heads * cfg.head_dim
            &&& q.taken->k == cfg.dim
            &&& o.taken->m == q.taken->k && o.taken->k == q.taken->m
            &&& k.taken->m == cfg.n_kv_heads * cfg.head_dim
            &&& k.taken->k == cfg.dim
            &&& v.taken == k.taken
            &&& gate.taken->m == cfg.hidden_dim
            &&& gate.taken->k == cfg.dim
            &&& up.taken == gate.taken
            &&& down.taken->m == gate.taken->k && down.taken->k == gate.taken->m
            &&& all[0].taken == (TensorUse::Norm { len: cfg.dim })
            &&& all[1].taken == all[0].taken
            &&& cfg.has_qk_norm ==> all[2].taken == (TensorUse::Norm { len: cfg.head_dim })
                && all[3].taken == all[2].taken
        }),
{
}

/// Every layer's tensors are loaded, each under its own number and in the layers'
/// order, before those outside the layers.
pub proof fn every_layer_is_loaded(cfg: DrafterConfig, n: nat, l: int)
    requires
        0 <= l < n,
    ensures
        layers_tensors(cfg, n).len() == n * layer_tensors(cfg, 0).len(),
        layers_tensors(cfg, n).subrange(
            l * layer_tensors(cfg, 0).len(),
            (l + 1) * layer_tensors(cfg, 0).len(),
        ) == layer_tensors(cfg, l as nat),
        layer_tensors(cfg, l as nat).len() == layer_tensors(cfg, 0).len(),
    decreases n,
{
    let size = layer_tensors(cfg, 0).len() as int;
    let all = layers_tensors(cfg, n);
    let before = layers_tensors(cfg, (n - 1) as nat);
    let last = layer_tensors(cfg, (n - 1) as nat);
    assert(last.len() == size);
    assert(layer_tensors(cfg, l as nat).len() == size);
    if n > 1 {
        every_layer_is_loaded(
            cfg,
            (n - 1) as nat,
            if l < n - 1 {
                l
            } else {
                0
            },
        );
    }
    assert((n - 1) * size + size == n * size && (l + 1) * size == l * size + size && 0 <= l * size)
        by (nonlinear_arith)
        requires
            0 <= l,
            0 <= size,
    ;
    assert(n == 1 ==> (n - 1) * size == 0) by (nonlinear_arith);
    assert(before.len() == (n - 1) * size);
    if l == n - 1 {
        assert(all.subrange(l * size, (l + 1) * size) =~= last);
    } else {
        assert((l + 1) * size <= (n - 1) * size) by (nonlinear_arith)
            requires
                l + 1 <= n - 1,
                0 <= size,
        ;
        assert(all.subrange(l * size, (l + 1) * size) =~= before.subrange(
            l * size,
            (l + 1) * size,
        ));
    }
}

/// A configuration is read exactly where the embedding is a matrix and the
/// tensors are there whose shapes tell the rest; its heads then fill the rows of
/// their projections as far as whole heads do.
pub proof fn shapes_tell_the_configuration(table: Seq<TensorInfo>, cfg: DrafterConfig)
    requires
        config_of(table, cfg),
        head_width(table) > 0,
    ensures
        ({
            let embed = info_of(table, "embed_tokens.weight"@)->Some_0.shape;
            let q = info_of(table, "layers.0.self_attn.q_proj.weight"@)->Some_0.shape;
            let k = info_of(table, "layers.0.self_attn.k_proj.weight"@)->Some_0.shape;
            &&& cfg.vocab_size == embed[0]
            &&& cfg.dim == embed[1]
            &&& cfg.n_heads * cfg.head_dim <= q[0] < (cfg.n_heads + 1) * cfg.head_dim
            &&& cfg.n_kv_heads * cfg.head_dim <= k[0] < (cfg.n_kv_heads + 1) * cfg.head_dim
            &&& forall|l: nat| l < cfg.n_layers ==> #[trigger] has_layer(table, l)
            &&& !has_layer(table, cfg.n_layers as nat)
        }),
{
    let q = info_of(table, "layers.0.self_attn.q_proj.weight"@)->Some_0.shape[0] as int;
    let k = info_of(table, "layers.0.self_attn.k_proj.weight"@)->Some_0.shape[0] as int;
    let d = head_width(table);
    vstd::arithmetic::div_mod::lemma_fundamental_div_mod(q, d);
    vstd::arithmetic::div_mod::lemma_fundamental_div_mod(k, d);
    let (a, b) = (q / d, k / d);
    assert(a * d == d * a && (a + 1) * d == d * a + d) by (nonlinear_arith);
    assert(b * d == d * b && (b + 1) * d == d * b + d) by (nonlinear_arith);
}

/// The tensor under a name is the first of that name.
pub proof fn the_first_of_a_name_counts(table: Seq<TensorInfo>, name: Seq<char>, i: int)
    requires
        0 <= i < table.len(),
        table[i].name@ == name,
        forall|j: int| 0 <= j < i ==> (#[trigger] table[j]).name@ != name,
    ensures
        info_of(table, name) == Some(
            (TensorInfoV { quant_type: table[i].quant_type, shape: table[i].shape@ }),
        ),
{
    assert(info_at(table, name, i));
    let k = choose|k: int| #[trigger] info_at(table, name, k);
    if k < i {
        assert(table[k].name@ != name);
    }
    if i < k {
        assert(table[i].name@ != name);
    }
}

} // verus!
