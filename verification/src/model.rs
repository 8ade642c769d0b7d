//! A loaded model: the fields that all architectures share, which chat
//! template it gets, and where its turns end.

use crate::chat::opt_text;
use crate::text;
use crate::text::decimal;
use crate::turn_cache::{cap_of, opt_str, AsstTurnCache};
use vstd::prelude::*;

verus! {

/// The templates that come with the library.
#[derive(Debug, PartialEq, Eq)]
pub struct BuiltinTemplates<'a> {
    pub qwen35: &'a str,
    pub lfm2: &'a str,
}

/// What a model file says of its chat template.
#[derive(Debug, PartialEq, Eq)]
pub struct FileTemplates<'a> {
    pub default: Option<&'a str>,
    pub tool_use: Option<&'a str>,
}

/// A tool-use template with its marks and fields renamed to those that the
/// renderer provides.
pub open spec fn adapted(t: Seq<char>) -> Seq<char> {
    let a = text::replaced(t, "<|START_RESPONSE|>"@, "<|START_TEXT|>"@);
    let b = text::replaced(a, "<|END_RESPONSE|>"@, "<|END_TEXT|>"@);
    let c = text::replaced(b, "{{message.tool_plan}}"@, "{{ message.tool_plan or '' }}"@);
    let d = text::replaced(c, "{{ tc['function']['name'] }}"@, "{{ tc.name }}"@);
    text::replaced(
        d,
        "{{ tc['function']['arguments']|tojson }}"@,
        "{{ tc.arguments|tojson }}"@,
    )
}

fn adapt(t: &str) -> (r: String)
    ensures
        r@ == adapted(t@),
{
    proof {
        reveal_strlit("<|START_RESPONSE|>");
        reveal_strlit("<|END_RESPONSE|>");
        reveal_strlit("{{message.tool_plan}}");
        reveal_strlit("{{ tc['function']['name'] }}");
        reveal_strlit("{{ tc['function']['arguments']|tojson }}");
    }
    let a = text::replace(t, "<|START_RESPONSE|>", "<|START_TEXT|>");
    let b = text::replace(a.as_str(), "<|END_RESPONSE|>", "<|END_TEXT|>");
    let c = text::replace(b.as_str(), "{{message.tool_plan}}", "{{ message.tool_plan or '' }}");
    let d = text::replace(c.as_str(), "{{ tc['function']['name'] }}", "{{ tc.name }}");
    text::replace(
        d.as_str(),
        "{{ tc['function']['arguments']|tojson }}",
        "{{ tc.arguments|tojson }}",
    )
}

/// The chat template of a model: the environment's, else the user's for this
/// model, else the architecture's own rule, else the file's.
pub open spec fn template_of(
    environment: Option<Seq<char>>,
    per_model: Option<Seq<char>>,
    arch_id: u32,
    file: FileTemplates,
    builtin: BuiltinTemplates,
) -> Option<Seq<char>> {
    if environment is Some {
        environment
    } else if per_model is Some {
        per_model
    } else if arch_id == 5 || arch_id == 6 {
        Some(builtin.qwen35@)
    } else if arch_id == 11 {
        match opt_str(file.default) {
            Some(t) => Some(t),
            None => Some(builtin.lfm2@),
        }
    } else if arch_id == 12 && file.tool_use is Some {
        Some(adapted(file.tool_use->Some_0@))
    } else {
        opt_str(file.default)
    }
}

/// The chat template of a model. `environment` and `per_model` are what was
/// read of the files that the environment and the user name, where they could
/// be read.
pub fn resolve_chat_template(
    environment: Option<String>,
    per_model: Option<String>,
    arch_id: u32,
    file: &FileTemplates,
    builtin: &BuiltinTemplates,
) -> (r: Option<String>)
    ensures
        opt_text(r) == template_of(
            opt_text(environment),
            opt_text(per_model),
            arch_id,
            *file,
            *builtin,
        ),
{
    match environment {
        Some(t) => {
            return Some(t);
        },
        None => {},
    }
    match per_model {
        Some(t) => {
            return Some(t);
        },
        None => {},
    }
    if arch_id == 5 || arch_id == 6 {
        return Some(builtin.qwen35.to_owned());
    }
    if arch_id == 11 {
        return match file.default {
            Some(t) => Some(t.to_owned()),
            None => Some(builtin.lfm2.to_owned()),
        };
    }
    if arch_id == 12 {
        match file.tool_use {
            Some(t) => {
                return Some(adapt(t));
            },
            None => {},
        }
    }
    match file.default {
        Some(t) => Some(t.to_owned()),
        None => None,
    }
}

/// The token that ends a turn: the first of the encodings that is a single
/// token, else the fallback.
pub open spec fn eos_of(encodings: Seq<Seq<u32>>, fallback: u32) -> u32
    decreases encodings.len(),
{
    if encodings.len() == 0 {
        fallback
    } else if encodings[0].len() == 1 {
        encodings[0][0]
    } else {
        eos_of(encodings.subrange(1, encodings.len() as int), fallback)
    }
}

/// What each of several encodings holds.
pub open spec fn encodings_view(encodings: Seq<Vec<u32>>) -> Seq<Seq<u32>> {
    encodings.map_values(|e: Vec<u32>| e@)
}

/// The token that ends a turn. The encodings are those of the architecture's
/// end marks, in order.
pub fn eos_token(encodings: &Vec<Vec<u32>>, fallback: u32) -> (r: u32)
    ensures
        r == eos_of(encodings_view(encodings@), fallback),
{
    let ghost all = encodings_view(encodings@);
    let mut i: usize = 0;
    assert(all.subrange(0, all.len() as int) =~= all);
    while i < encodings.len()
        invariant
            i <= encodings.len(),
            all == encodings_view(encodings@),
            eos_of(all, fallback) == eos_of(
                all.subrange(i as int, all.len() as int),
                fallback,
            ),
        decreases encodings.len() - i,
    {
        let ghost rest = all.subrange(i as int, all.len() as int);
        assert(rest[0] == encodings@[i as int]@);
        assert(rest.subrange(1, rest.len() as int) =~= all.subrange(i + 1, all.len() as int));
        if encodings[i].len() == 1 {
            return encodings[i][0];
        }
        i = i + 1;
    }
    fallback
}

/// An architecture's end marks, in the order in which they are tried, and the
/// token that stands in where none is a single token.
pub open spec fn end_marks_of(arch_id: u32) -> (Seq<&'static str>, u32) {
    if arch_id == 9 {
        (seq!["<｜end▁of▁sentence｜>"], 1u32)
    } else if arch_id == 10 {
        (seq!["[e~[", "<|im_end|>", "</s>", "<|endoftext|>"], 1u32)
    } else if arch_id == 11 {
        (seq!["<|im_end|>", "</s>", "<|endoftext|>"], 1u32)
    } else if arch_id == 12 {
        (seq!["<|END_OF_TURN_TOKEN|>", "</s>", "<|endoftext|>"], 255001u32)
    } else {
        (Seq::empty(), 0u32)
    }
}

/// An architecture's end marks, and the token that stands in for them.
pub fn end_marks(arch_id: u32) -> (r: (Vec<&'static str>, u32))
    ensures
        r.0@ == end_marks_of(arch_id).0,
        r.1 == end_marks_of(arch_id).1,
{
    let mut out: Vec<&'static str> = Vec::new();
    if arch_id == 9 {
        out.push("<｜end▁of▁sentence｜>");
        assert(out@ =~= end_marks_of(arch_id).0);
        (out, 1)
    } else if arch_id == 10 {
        out.push("[e~[");
        out.push("<|im_end|>");
        out.push("</s>");
        out.push("<|endoftext|>");
        assert(out@ =~= end_marks_of(arch_id).0);
        (out, 1)
    } else if arch_id == 11 {
        out.push("<|im_end|>");
        out.push("</s>");
        out.push("<|endoftext|>");
        assert(out@ =~= end_marks_of(arch_id).0);
        (out, 1)
    } else if arch_id == 12 {
        out.push("<|END_OF_TURN_TOKEN|>");
        out.push("</s>");
        out.push("<|endoftext|>");
        assert(out@ =~= end_marks_of(arch_id).0);
        (out, 255001)
    } else {
        assert(out@ =~= end_marks_of(arch_id).0);
        (out, 0)
    }
}

/// An architecture that splits its experts over devices.
#[derive(Debug, Clone, Copy, PartialEq, Eq, Structural)]
pub enum EpArch {
    Ds4,
    Minimax,
}

/// The architecture of an expert-parallel load, or the refusal of another.
pub fn load_model_ep(arch_id: u32) -> (r: Result<EpArch, String>)
    ensures
        match r {
            Ok(EpArch::Ds4) => arch_id == 9,
            Ok(EpArch::Minimax) => arch_id == 10,
            Err(e) => arch_id != 9 && arch_id != 10 && e@ == "EP not supported for arch_id="@
                + decimal(arch_id as nat) + " (expected 9 for DeepSeek V4 or 10 for MiniMax)"@,
        },
{
    if arch_id == 9 {
        Ok(EpArch::Ds4)
    } else if arch_id == 10 {
        Ok(EpArch::Minimax)
    } else {
        let mut s = "EP not supported for arch_id=".to_owned();
        text::push_decimal(&mut s, arch_id as usize);
        s.append(" (expected 9 for DeepSeek V4 or 10 for MiniMax)");
        Err(s)
    }
}

/// A model with experts, as the generating path sees it.
#[derive(Debug, Clone, Copy, PartialEq, Eq, Structural)]
pub struct Lfm2MoeBundle {
    /// The token that ends a turn.
    pub eos_tok: u32,
}

/// A MiniMax model, as the generating path sees it.
#[derive(Debug, Clone, Copy, PartialEq, Eq, Structural)]
pub struct MiniMaxBundle {
    /// The token that ends a turn.
    pub eos_tok: u32,
}

/// A Cohere2-MoE model, as the generating path sees it.
#[derive(Debug, Clone, Copy, PartialEq, Eq, Structural)]
pub struct Cohere2MoeBundle {
    /// The token that ends a turn.
    pub eos_tok: u32,
}

/// Which architecture's state a model holds.
#[derive(Debug, Clone, Copy, PartialEq, Eq, Structural)]
pub enum ModelState {
    Qwen2,
    Qwen35,
    Llama,
    Lfm2Moe(Lfm2MoeBundle),
    Minimax(MiniMaxBundle),
    Cohere2Moe(Cohere2MoeBundle),
}

/// What a model holds on devices beside its architecture's state.
#[derive(Debug, Clone, Copy, PartialEq, Eq, Structural)]
pub struct Holdings {
    pub dflash: bool,
    pub eviction: bool,
    pub kv_cache: bool,
    pub dn_state: bool,
    pub prefill_checkpoints: usize,
    pub dflash_checkpoints: usize,
    pub qwen2_state: bool,
    pub deepseek4_state: bool,
    pub deepseek4_pbs: bool,
    pub vision_weights: bool,
    pub deepseek4_weights: bool,
    pub dots_ocr_weights: bool,
}

/// The devices of a split model, with what it holds on all of them.
#[derive(Debug, Clone, Copy, PartialEq, Eq, Structural)]
pub struct SplitHoldings {
    pub devices: usize,
    pub scratch_set: bool,
}

/// A model whose experts are split over devices, one rank on each.
#[derive(Debug, Clone, Copy, PartialEq, Eq, Structural)]
pub struct EpState {
    pub inner: EpArch,
    pub ranks: usize,
}

/// A loaded model.
#[derive(Debug, PartialEq, Eq)]
pub struct LoadedModel {
    pub arch_id: u32,
    pub pp: usize,
    pub ep: Option<EpState>,
    pub split: Option<SplitHoldings>,
    pub state: Option<ModelState>,
    pub held: Holdings,
    pub mtp_mode: String,
    pub mtp_k: usize,
    pub mtp_weights_present: bool,
    pub deepseek4_eos_tok: u32,
    pub seq_pos: usize,
    pub max_seq: usize,
    pub physical_cap: usize,
    pub conversation_tokens: Vec<u32>,
    pub asst_turn_cache: AsstTurnCache,
    pub model_path: String,
    pub chat_template: Option<String>,
}

/// A model that holds nothing.
pub open spec fn nothing_held() -> Holdings {
    Holdings {
        dflash: false,
        eviction: false,
        kv_cache: false,
        dn_state: false,
        prefill_checkpoints: 0,
        dflash_checkpoints: 0,
        qwen2_state: false,
        deepseek4_state: false,
        deepseek4_pbs: false,
        vision_weights: false,
        deepseek4_weights: false,
        dots_ocr_weights: false,
    }
}

impl LoadedModel {
    /// The shared fields of every architecture, without its state.
    pub fn skeleton(
        arch_id: u32,
        max_seq: usize,
        physical_cap: usize,
        model_path: String,
        chat_template: Option<String>,
        cache_unbounded: Option<&str>,
        cache_cap: Option<&str>,
    ) -> (r: LoadedModel)
        ensures
            r.arch_id == arch_id,
            r.pp == 1,
            r.ep is None,
            r.split is None,
            r.state is None,
            r.held == nothing_held(),
            r.mtp_mode@ == "auto"@,
            r.mtp_k == 3,
            !r.mtp_weights_present,
            r.deepseek4_eos_tok == 0,
            r.seq_pos == 0,
            r.max_seq == max_seq,
            r.physical_cap == physical_cap,
            r.conversation_tokens@ == Seq::<u32>::empty(),
            r.asst_turn_cache.cap() == cap_of(opt_str(cache_unbounded), opt_str(cache_cap)),
            r.asst_turn_cache.order() == Seq::<u64>::empty(),
            r.asst_turn_cache.wf(),
            r.model_path == model_path,
            r.chat_template == chat_template,
    {
        LoadedModel {
            arch_id,
            pp: 1,
            ep: None,
            split: None,
            state: None,
            held: Holdings {
                dflash: false,
                eviction: false,
                kv_cache: false,
                dn_state: false,
                prefill_checkpoints: 0,
                dflash_checkpoints: 0,
                qwen2_state: false,
                deepseek4_state: false,
                deepseek4_pbs: false,
                vision_weights: false,
                deepseek4_weights: false,
                dots_ocr_weights: false,
            },
            mtp_mode: "auto".to_owned(),
            mtp_k: 3,
            mtp_weights_present: false,
            deepseek4_eos_tok: 0,
            seq_pos: 0,
            max_seq,
            physical_cap,
            conversation_tokens: Vec::new(),
            asst_turn_cache: AsstTurnCache::new_from_env(cache_unbounded, cache_cap),
            model_path,
            chat_template,
        }
    }

    /// The shared fields of a model that is split over devices: the devices
    /// and what it holds on them are set together.
    pub fn skeleton_pp(
        arch_id: u32,
        max_seq: usize,
        physical_cap: usize,
        model_path: String,
        chat_template: Option<String>,
        cache_unbounded: Option<&str>,
        cache_cap: Option<&str>,
        pp: usize,
        split: SplitHoldings,
    ) -> (r: LoadedModel)
        ensures
            r.arch_id == arch_id,
            r.pp == pp,
            r.ep is None,
            r.split == Some(split),
            r.state is None,
            r.held == nothing_held(),
            r.mtp_mode@ == "auto"@,
            r.mtp_k == 3,
            !r.mtp_weights_present,
            r.deepseek4_eos_tok == 0,
            r.seq_pos == 0,
            r.max_seq == max_seq,
            r.physical_cap == physical_cap,
            r.conversation_tokens@ == Seq::<u32>::empty(),
            r.asst_turn_cache.cap() == cap_of(opt_str(cache_unbounded), opt_str(cache_cap)),
            r.asst_turn_cache.order() == Seq::<u64>::empty(),
            r.asst_turn_cache.wf(),
            r.model_path == model_path,
            r.chat_template == chat_template,
    {
        let mut m = LoadedModel::skeleton(
            arch_id,
            max_seq,
            physical_cap,
            model_path,
            chat_template,
            cache_unbounded,
            cache_cap,
        );
        m.pp = pp;
        m.split = Some(split);
        m
    }

    /// The LFM2 bundle, where the model is one.
    pub fn lfm2moe(&self) -> (r: Option<&Lfm2MoeBundle>)
        ensures
            match self.state {
                Some(ModelState::Lfm2Moe(b)) => r == Some(&b),
                _ => r is None,
            },
    {
        match &self.state {
            Some(ModelState::Lfm2Moe(b)) => Some(b),
            _ => None,
        }
    }

    /// The MiniMax bundle, where the model is one.
    pub fn minimax(&self) -> (r: Option<&MiniMaxBundle>)
        ensures
            match self.state {
                Some(ModelState::Minimax(b)) => r == Some(&b),
                _ => r is None,
            },
    {
        match &self.state {
            Some(ModelState::Minimax(b)) => Some(b),
            _ => None,
        }
    }

    /// The Cohere2-MoE bundle, where the model is one.
    pub fn cohere2moe(&self) -> (r: Option<&Cohere2MoeBundle>)
        ensures
            match self.state {
                Some(ModelState::Cohere2Moe(b)) => r == Some(&b),
                _ => r is None,
            },
    {
        match &self.state {
            Some(ModelState::Cohere2Moe(b)) => Some(b),
            _ => None,
        }
    }
}

/// A template that the environment names goes before one that the user has for
/// the model, and either before what the architecture and the file say.
pub proof fn named_templates_go_first(
    environment: Option<Seq<char>>,
    per_model: Option<Seq<char>>,
    arch_id: u32,
    file: FileTemplates,
    builtin: BuiltinTemplates,
)
    ensures
        environment is Some ==> template_of(environment, per_model, arch_id, file, builtin)
            == environment,
        environment is None && per_model is Some ==> template_of(
            environment,
            per_model,
            arch_id,
            file,
            builtin,
        ) == per_model,
{
}

/// Without a named template a Qwen3.5 always has the one that comes with the
/// library, an LFM2 the file's and that one only where the file has none, and a
/// Cohere2 with a tool-use template that one, adapted; every other model has what
/// its file says.
pub proof fn architectures_have_their_templates(
    arch_id: u32,
    file: FileTemplates,
    builtin: BuiltinTemplates,
)
    ensures
        arch_id == 5 || arch_id == 6 ==> template_of(None, None, arch_id, file, builtin) == Some(
            builtin.qwen35@,
        ),
        arch_id == 11 && file.default is None ==> template_of(None, None, arch_id, file, builtin)
            == Some(builtin.lfm2@),
        arch_id == 12 && file.tool_use is Some ==> template_of(None, None, arch_id, file, builtin)
            == Some(adapted(file.tool_use->Some_0@)),
        arch_id != 5 && arch_id != 6 && file.default is Some && !(arch_id == 12 && file.tool_use
            is Some) ==> template_of(None, None, arch_id, file, builtin) == Some(
            file.default->Some_0@,
        ),
        arch_id != 5 && arch_id != 6 && arch_id != 11 && file.default is None && !(arch_id == 12
            && file.tool_use is Some) ==> template_of(None, None, arch_id, file, builtin) is None,
{
}

/// The token that ends a turn is that of the first mark that is a single token,
/// whatever the marks before it are; where none is, it is the fallback.
pub proof fn the_first_single_token_ends(
    before: Seq<Seq<u32>>,
    token: u32,
    behind: Seq<Seq<u32>>,
    fallback: u32,
)
    requires
        forall|i: int| 0 <= i < before.len() ==> (#[trigger] before[i]).len() != 1,
    ensures
        eos_of(before.push(seq![token]) + behind, fallback) == token,
        eos_of(before, fallback) == fallback,
    decreases before.len(),
{
    let all = before.push(seq![token]) + behind;
    if before.len() == 0 {
        assert(all[0] == seq![token]);
    } else {
        let rest = before.subrange(1, before.len() as int);
        assert forall|i: int| 0 <= i < rest.len() implies (#[trigger] rest[i]).len() != 1 by {
            assert(rest[i] == before[i + 1]);
        }
        the_first_single_token_ends(rest, token, behind, fallback);
        assert(all[0] == before[0]);
        assert(all.subrange(1, all.len() as int) =~= rest.push(seq![token]) + behind);
    }
}

/// MiniMax tries its own mark before those of an LFM2, Cohere2 tries its own in
/// place of the first of them, and an architecture without marks has none.
pub proof fn end_marks_share_their_tails(arch_id: u32)
    ensures
        end_marks_of(10).0 == seq!["[e~["] + end_marks_of(11).0,
        end_marks_of(12).0 == end_marks_of(11).0.update(0, "<|END_OF_TURN_TOKEN|>"),
        end_marks_of(11).0 == seq!["<|im_end|>", "</s>", "<|endoftext|>"],
        end_marks_of(arch_id).0.len() == 0 <==> arch_id < 9 || arch_id > 12,
        9 <= arch_id <= 11 ==> end_marks_of(arch_id).1 == 1,
        end_marks_of(12).1 == 255001,
{
    assert(end_marks_of(10).0 =~= seq!["[e~["] + end_marks_of(11).0);
    assert(end_marks_of(12).0 =~= end_marks_of(11).0.update(0, "<|END_OF_TURN_TOKEN|>"));
}

} // verus!
