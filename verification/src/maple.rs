//! The names of Maple's tensors.

use crate::text;
use crate::text::decimal;
use vstd::prelude::*;

verus! {

/// The embedding tensor. Named `word_embeddings`, not `embed_tokens`.
pub const EMBED_TENSOR_NAME: &'static str = "model.word_embeddings.weight";

/// The untied output head.
pub const LM_HEAD_TENSOR_NAME: &'static str = "lm_head.weight";

/// The gamma of the final norm.
pub const FINAL_NORM_TENSOR_NAME: &'static str = "model.norm.weight";

/// Which projection of an expert.
#[derive(Debug, Clone, Copy, PartialEq, Eq, Structural)]
pub enum ExpertProj {
    Gate,
    Up,
    Down,
}

impl ExpertProj {
    /// The projection's part of a tensor name.
    pub open spec fn name(self) -> Seq<char> {
        match self {
            ExpertProj::Gate => "gate_proj"@,
            ExpertProj::Up => "up_proj"@,
            ExpertProj::Down => "down_proj"@,
        }
    }

    fn suffix(self) -> (r: &'static str)
        ensures
            r@ == self.name(),
    {
        match self {
            ExpertProj::Gate => "gate_proj",
            ExpertProj::Up => "up_proj",
            ExpertProj::Down => "down_proj",
        }
    }
}

/// The name of a tensor of a layer.
pub open spec fn layer_name(layer: nat, rest: Seq<char>) -> Seq<char> {
    "model.layers."@ + decimal(layer) + rest
}

/// The name of one expert projection tensor.
pub open spec fn expert_name(layer: nat, expert: nat, proj: ExpertProj) -> Seq<char> {
    layer_name(
        layer,
        ".mlp.experts."@ + decimal(expert) + "."@ + proj.name() + ".weight"@,
    )
}

/// The name of a layer's router.
pub open spec fn router_name(layer: nat) -> Seq<char> {
    layer_name(layer, ".mlp.gate.weight"@)
}

pub(crate) fn layer_text(layer: usize, rest: &str) -> (r: String)
    ensures
        r@ == layer_name(layer as nat, rest@),
{
    let mut s = "model.layers.".to_owned();
    text::push_decimal(&mut s, layer);
    s.append(rest);
    s
}

/// The name of one expert projection tensor.
pub fn expert_tensor_name(layer: usize, expert: usize, proj: ExpertProj) -> (r: String)
    ensures
        r@ == expert_name(layer as nat, expert as nat, proj),
{
    let mut rest = ".mlp.experts.".to_owned();
    text::push_decimal(&mut rest, expert);
    rest.append(".");
    rest.append(proj.suffix());
    rest.append(".weight");
    layer_text(layer, rest.as_str())
}

/// The name of a layer's router: `mlp.gate.weight`, which is no expert's
/// `gate_proj`.
pub fn router_tensor_name(layer: usize) -> (r: String)
    ensures
        r@ == router_name(layer as nat),
{
    layer_text(layer, ".mlp.gate.weight")
}

/// A number that is followed by a dot can be read off: the digits end at the dot.
pub proof fn number_before_dot(a: nat, r: Seq<char>, b: nat, s: Seq<char>)
    requires
        r.len() > 0,
        s.len() > 0,
        r[0] == '.',
        s[0] == '.',
        decimal(a) + r == decimal(b) + s,
    ensures
        a == b,
        r == s,
{
    text::decimal_is_digits(a);
    text::decimal_is_digits(b);
    let x = decimal(a);
    let y = decimal(b);
    let whole = x + r;
    if x.len() < y.len() {
        assert(whole[x.len() as int] == r[0]);
        assert((y + s)[x.len() as int] == y[x.len() as int]);
        assert(text::is_digit(y[x.len() as int]));
        assert(false);
    }
    if y.len() < x.len() {
        assert((y + s)[y.len() as int] == s[0]);
        assert(whole[y.len() as int] == x[y.len() as int]);
        assert(text::is_digit(x[y.len() as int]));
        assert(false);
    }
    assert(x =~= whole.subrange(0, x.len() as int));
    assert(y =~= (y + s).subrange(0, y.len() as int));
    text::decimal_injective(a, b);
    assert(r =~= whole.subrange(x.len() as int, whole.len() as int));
    assert(s =~= (y + s).subrange(y.len() as int, whole.len() as int));
}

/// A layer tensor's name tells its layer and the rest of the name.
pub proof fn layer_name_injective(a: nat, r: Seq<char>, b: nat, s: Seq<char>)
    requires
        r.len() > 0,
        s.len() > 0,
        r[0] == '.',
        s[0] == '.',
        layer_name(a, r) == layer_name(b, s),
    ensures
        a == b,
        r == s,
{
    let p = "model.layers."@;
    let x = decimal(a) + r;
    let y = decimal(b) + s;
    assert(layer_name(a, r) =~= p + x);
    assert(layer_name(b, s) =~= p + y);
    assert(x =~= (p + x).subrange(p.len() as int, (p + x).len() as int));
    assert(y =~= (p + y).subrange(p.len() as int, (p + y).len() as int));
    number_before_dot(a, r, b, s);
}

/// No two expert tensors have the same name.
pub proof fn expert_name_injective(
    layer_a: nat,
    expert_a: nat,
    proj_a: ExpertProj,
    layer_b: nat,
    expert_b: nat,
    proj_b: ExpertProj,
)
    requires
        expert_name(layer_a, expert_a, proj_a) == expert_name(layer_b, expert_b, proj_b),
    ensures
        layer_a == layer_b,
        expert_a == expert_b,
        proj_a == proj_b,
{
    reveal_strlit(".mlp.experts.");
    reveal_strlit(".");
    reveal_strlit(".weight");
    reveal_strlit("gate_proj");
    reveal_strlit("up_proj");
    reveal_strlit("down_proj");
    let p = ".mlp.experts."@;
    let ra = p + decimal(expert_a) + "."@ + proj_a.name() + ".weight"@;
    let rb = p + decimal(expert_b) + "."@ + proj_b.name() + ".weight"@;
    layer_name_injective(layer_a, ra, layer_b, rb);
    let ta = "."@ + proj_a.name() + ".weight"@;
    let tb = "."@ + proj_b.name() + ".weight"@;
    assert(ra =~= p + (decimal(expert_a) + ta));
    assert(rb =~= p + (decimal(expert_b) + tb));
    assert(decimal(expert_a) + ta =~= ra.subrange(p.len() as int, ra.len() as int));
    assert(decimal(expert_b) + tb =~= rb.subrange(p.len() as int, rb.len() as int));
    number_before_dot(expert_a, ta, expert_b, tb);
    assert(ta[1] == proj_a.name()[0]);
    assert(tb[1] == proj_b.name()[0]);
}

/// A router's name is no expert tensor's name.
pub proof fn router_is_no_expert(layer: nat, expert_layer: nat, expert: nat, proj: ExpertProj)
    ensures
        router_name(layer) != expert_name(expert_layer, expert, proj),
{
    reveal_strlit(".mlp.experts.");
    reveal_strlit(".mlp.gate.weight");
    let r = ".mlp.gate.weight"@;
    let s = ".mlp.experts."@ + decimal(expert) + "."@ + proj.name() + ".weight"@;
    if router_name(layer) == expert_name(expert_layer, expert, proj) {
        layer_name_injective(layer, r, expert_layer, s);
        assert(r[5] == 'g');
        assert(s[5] == 'e');
    }
}

} // verus!
