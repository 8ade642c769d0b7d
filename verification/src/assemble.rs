//! Loading a model: which carrier takes it, and what the loaded model holds
//! once its parts are there.

use crate::carriers::{
    dispatch, first_taking, registered, registry, takes, AnyCarrier, Carrier,
};
use crate::draft::{draft_refusal, draft_refusal_of};
use crate::load_plan::{DeviceSplit, DeviceSplitV, EvictionPlan};
use crate::model::{
    end_marks_of, encodings_view, eos_of, eos_token, nothing_held, Cohere2MoeBundle, EpArch,
    EpState, Holdings, Lfm2MoeBundle, LoadedModel, MiniMaxBundle, ModelState, SplitHoldings,
};
use crate::order::{follows, only_at};
use crate::turn_cache::{cap_of, opt_str};
use vstd::prelude::*;

verus! {

/// What a target's file says that a draft depends on: the tier of its head and
/// the first tensors of the two tiers that speculation is slow on.
#[derive(Debug, Clone, Copy)]
pub struct DraftTarget<'a> {
    pub head_tier: Option<u8>,
    pub two_bit: Option<&'a str>,
    pub three_bit: Option<&'a str>,
}

/// A source that a model is loaded from.
#[derive(Debug, Clone, Copy)]
pub struct Source<'a> {
    /// Its architecture's id, in the namespace of its kind, where it has one.
    pub arch_id: Option<u32>,
    pub is_dir: bool,
    /// What it is called in messages.
    pub label: &'a str,
}

/// Why a draft is refused before anything is loaded; nothing where it is not.
/// Only a model file can tell.
pub open spec fn early_refusal(
    source: Source,
    draft: Option<DraftTarget>,
    device: Seq<char>,
) -> Option<Seq<char>> {
    match (draft, source.arch_id) {
        (Some(t), Some(id)) => if source.is_dir {
            None
        } else {
            draft_refusal_of(t.head_tier, device, id, opt_str(t.two_bit), opt_str(t.three_bit))
        },
        _ => None,
    }
}

/// Picks the carrier that loads a source on `pp` devices. A draft that the
/// target cannot verify is refused first, then a source that no carrier claims,
/// then one that its carrier does not load.
pub fn load_model(
    source: &Source,
    draft: Option<DraftTarget>,
    device: &str,
    pp: usize,
) -> (r: Result<AnyCarrier, String>)
    ensures
        match r {
            Ok(c) => {
                &&& early_refusal(*source, draft, device@) is None
                &&& registered().contains(c)
                &&& takes(c, source.arch_id, source.is_dir)
                &&& c.refusal(source.is_dir, pp) is None
            },
            Err(e) => {
                let early = early_refusal(*source, draft, device@);
                ||| early == Some(e@)
                ||| {
                    &&& early is None
                    &&& e@ == "no carrier for "@ + source.label@
                    &&& forall|i: int|
                        0 <= i < registered().len() ==> !takes(
                            #[trigger] registered()[i],
                            source.arch_id,
                            source.is_dir,
                        )
                }
                ||| early is None && exists|c: AnyCarrier|
                    {
                        &&& #[trigger] registered().contains(c)
                        &&& takes(c, source.arch_id, source.is_dir)
                        &&& c.refusal(source.is_dir, pp) == Some(e@)
                    }
            },
        },
{
    if let Some(t) = draft {
        if let Some(id) = source.arch_id {
            if !source.is_dir {
                if let Some(e) = draft_refusal(t.head_tier, device, id, t.two_bit, t.three_bit) {
                    return Err(e);
                }
            }
        }
    }
    let carriers = registry();
    match dispatch(&carriers, source.arch_id, source.is_dir, source.label) {
        Ok(i) => {
            let c = carriers[i];
            assert(registered()[i as int] == c);
            assert(registered().contains(c));
            match c.accept(source.is_dir, pp) {
                Ok(_) => Ok(c),
                Err(e) => Err(e),
            }
        },
        Err(e) => {
            proof {
                if exists|i: int, j: int| #[trigger]
                    first_taking(registered(), source.arch_id, source.is_dir, 0, i)
                        && #[trigger] first_taking(
                        registered(),
                        source.arch_id,
                        source.is_dir,
                        i + 1,
                        j,
                    ) {
                    let (i, j) = choose|i: int, j: int| #[trigger]
                        first_taking(registered(), source.arch_id, source.is_dir, 0, i)
                            && #[trigger] first_taking(
                            registered(),
                            source.arch_id,
                            source.is_dir,
                            i + 1,
                            j,
                        );
                    crate::carriers::carriers_are_disjoint(
                        source.arch_id->Some_0,
                        source.is_dir,
                        i,
                        j,
                    );
                }
            }
            Err(e)
        },
    }
}

/// What every architecture's load knows of its source.
#[derive(Debug, PartialEq, Eq)]
pub struct Shared<'a> {
    pub arch_id: u32,
    pub max_seq: usize,
    pub path: &'a str,
    pub chat_template: Option<String>,
    /// The settings of the cache of assistant turns.
    pub cache_unbounded: Option<&'a str>,
    pub cache_cap: Option<&'a str>,
}

/// Whether a model is a fresh one of a source, with this state, these holdings
/// and nothing else.
pub open spec fn is_fresh(
    m: LoadedModel,
    shared: Shared,
    physical_cap: usize,
    state: Option<ModelState>,
    held: Holdings,
) -> bool {
    &&& m.arch_id == shared.arch_id
    &&& m.state == state
    &&& m.held == held
    &&& m.mtp_mode@ == "auto"@
    &&& m.mtp_k == 3
    &&& !m.mtp_weights_present
    &&& m.seq_pos == 0
    &&& m.max_seq == shared.max_seq
    &&& m.physical_cap == physical_cap
    &&& m.conversation_tokens@ == Seq::<u32>::empty()
    &&& m.asst_turn_cache.wf()
    &&& m.asst_turn_cache.cap() == cap_of(
        opt_str(shared.cache_unbounded),
        opt_str(shared.cache_cap),
    )
    &&& m.asst_turn_cache.order() == Seq::<u64>::empty()
    &&& m.model_path@ == shared.path@
    &&& m.chat_template == shared.chat_template
}

/// Whether a model is on one device, in one piece.
pub open spec fn is_whole(m: LoadedModel) -> bool {
    m.pp == 1 && m.ep is None && m.split is None
}

fn base(shared: Shared, physical_cap: usize) -> (m: LoadedModel)
    ensures
        is_fresh(m, shared, physical_cap, None, nothing_held()),
        is_whole(m),
        m.deepseek4_eos_tok == 0,
{
    LoadedModel::skeleton(
        shared.arch_id,
        shared.max_seq,
        physical_cap,
        shared.path.to_owned(),
        shared.chat_template,
        shared.cache_unbounded,
        shared.cache_cap,
    )
}

/// A Qwen2 or a Llama, or a Qwen3.5 directory: its bundle and nothing else.
pub fn finish_plain(shared: Shared, state: ModelState) -> (m: LoadedModel)
    ensures
        is_fresh(m, shared, shared.max_seq, Some(state), nothing_held()),
        is_whole(m),
        m.deepseek4_eos_tok == 0,
{
    let cap: usize = shared.max_seq;
    let mut m = base(shared, cap);
    m.state = Some(state);
    m
}

/// Whether a model file's vision tower is loaded: it has the weights of one and
/// a configuration that can be read.
pub fn loads_vision(has_patch_embedding: bool, has_config: bool) -> (r: bool)
    ensures
        r == (has_patch_embedding && has_config),
{
    has_patch_embedding && has_config
}

/// Whether keys and values give way.
pub open spec fn evicts(plan: EvictionPlan) -> bool {
    plan is Plain || plan is Cask
}

/// A Qwen3.5 on one device, from a model file. `built` is what came of building
/// the eviction, where there is one. A draft that failed to load is left out:
/// the model then decodes without speculation.
pub fn finish_qwen35_load(
    shared: Shared,
    physical_cap: usize,
    plan: &EvictionPlan,
    built: Result<(), String>,
    draft: Option<Result<(), String>>,
    vision_weights: bool,
) -> (r: Result<LoadedModel, String>)
    ensures
        match r {
            Ok(m) => {
                &&& evicts(*plan) ==> built is Ok
                &&& is_whole(m)
                &&& m.deepseek4_eos_tok == 0
                &&& is_fresh(
                    m,
                    shared,
                    physical_cap,
                    Some(ModelState::Qwen35),
                    (Holdings {
                        eviction: evicts(*plan),
                        dflash: draft matches Some(Ok(_)),
                        vision_weights,
                        ..nothing_held()
                    }),
                )
            },
            Err(e) => evicts(*plan) && built is Err && e@ == "build EvictionCtx: "@
                + built->Err_0@,
        },
{
    let eviction: bool = match plan {
        EvictionPlan::Plain { .. } => true,
        EvictionPlan::Cask { .. } => true,
        _ => false,
    };
    if eviction {
        if let Err(why) = built {
            let mut s = "build EvictionCtx: ".to_owned();
            s.append(why.as_str());
            return Err(s);
        }
    }
    let mut m = base(shared, physical_cap);
    m.state = Some(ModelState::Qwen35);
    m.held.eviction = eviction;
    m.held.dflash = match draft {
        Some(Ok(_)) => true,
        _ => false,
    };
    m.held.vision_weights = vision_weights;
    Ok(m)
}

/// A Qwen3.5 over several devices.
pub fn finish_split(
    shared: Shared,
    pp: usize,
    split: SplitHoldings,
) -> (m: LoadedModel)
    ensures
        is_fresh(m, shared, shared.max_seq, Some(ModelState::Qwen35), nothing_held()),
        m.pp == pp,
        m.ep is None,
        m.split == Some(split),
        m.deepseek4_eos_tok == 0,
{
    let cap: usize = shared.max_seq;
    let mut m = LoadedModel::skeleton_pp(
        shared.arch_id,
        shared.max_seq,
        cap,
        shared.path.to_owned(),
        shared.chat_template,
        shared.cache_unbounded,
        shared.cache_cap,
        pp,
        split,
    );
    m.state = Some(ModelState::Qwen35);
    m
}

/// An error's text behind what failed.
pub open spec fn failed(what: Seq<char>, why: Seq<char>) -> Seq<char> {
    what + why
}

fn failure(what: &str, why: &str) -> (r: String)
    ensures
        r@ == failed(what@, why@),
{
    let mut s = what.to_owned();
    s.append(why);
    s
}

/// A dots.ocr: its text model's state and its own weights. `state` is what came
/// of making the state.
pub fn load_dots_ocr(shared: Shared, state: Result<(), String>) -> (r: Result<LoadedModel, String>)
    ensures
        match r {
            Ok(m) => {
                &&& state is Ok
                &&& is_whole(m)
                &&& m.deepseek4_eos_tok == 0
                &&& is_fresh(
                    m,
                    shared,
                    shared.max_seq,
                    None,
                    (Holdings { qwen2_state: true, dots_ocr_weights: true, ..nothing_held() }),
                )
            },
            Err(e) => state is Err && e@ == failed(
                "dots-ocr: Qwen2State::new_with_max_seq failed: "@,
                state->Err_0@,
            ),
        },
{
    if let Err(why) = state {
        return Err(
            failure("dots-ocr: Qwen2State::new_with_max_seq failed: ", why.as_str()),
        );
    }
    let cap: usize = shared.max_seq;
    let mut m = base(shared, cap);
    m.held.qwen2_state = true;
    m.held.dots_ocr_weights = true;
    Ok(m)
}

/// A DeepSeek V4, whose weights, state and prefill scratch are there.
/// `encodings` are the tokens of its end marks.
pub fn load_deepseek4(shared: Shared, encodings: &Vec<Vec<u32>>) -> (m: LoadedModel)
    ensures
        is_whole(m),
        m.deepseek4_eos_tok == eos_of(encodings_view(encodings@), end_marks_of(9).1),
        is_fresh(
            m,
            shared,
            shared.max_seq,
            None,
            (Holdings {
                deepseek4_weights: true,
                deepseek4_state: true,
                deepseek4_pbs: true,
                ..nothing_held()
            }),
        ),
{
    let cap: usize = shared.max_seq;
    let mut m = base(shared, cap);
    m.held.deepseek4_weights = true;
    m.held.deepseek4_state = true;
    m.held.deepseek4_pbs = true;
    m.deepseek4_eos_tok = eos_token(encodings, 1);
    m
}

/// An LFM2 with experts. `state` is what came of making its state, `encodings`
/// are the tokens of its end marks.
pub fn load_lfm2moe(
    shared: Shared,
    state: Result<(), String>,
    encodings: &Vec<Vec<u32>>,
) -> (r: Result<LoadedModel, String>)
    ensures
        match r {
            Ok(m) => {
                &&& state is Ok
                &&& is_whole(m)
                &&& m.deepseek4_eos_tok == 0
                &&& is_fresh(
                    m,
                    shared,
                    shared.max_seq,
                    Some(
                        ModelState::Lfm2Moe(
                            Lfm2MoeBundle {
                                eos_tok: eos_of(encodings_view(encodings@), end_marks_of(11).1),
                            },
                        ),
                    ),
                    nothing_held(),
                )
            },
            Err(e) => state is Err && e@ == failed(
                "lfm2moe: Lfm2MoeState::new_with_max_seq failed: "@,
                state->Err_0@,
            ),
        },
{
    if let Err(why) = state {
        return Err(
            failure("lfm2moe: Lfm2MoeState::new_with_max_seq failed: ", why.as_str()),
        );
    }
    let eos_tok: u32 = eos_token(encodings, 1);
    Ok(finish_plain(shared, ModelState::Lfm2Moe(Lfm2MoeBundle { eos_tok })))
}

/// A Cohere2-MoE. `state` is what came of making its state, `encodings` are the
/// tokens of its end marks.
pub fn load_cohere2moe(
    shared: Shared,
    state: Result<(), String>,
    encodings: &Vec<Vec<u32>>,
) -> (r: Result<LoadedModel, String>)
    ensures
        match r {
            Ok(m) => {
                &&& state is Ok
                &&& is_whole(m)
                &&& m.deepseek4_eos_tok == 0
                &&& is_fresh(
                    m,
                    shared,
                    shared.max_seq,
                    Some(
                        ModelState::Cohere2Moe(
                            Cohere2MoeBundle {
                                eos_tok: eos_of(encodings_view(encodings@), end_marks_of(12).1),
                            },
                        ),
                    ),
                    nothing_held(),
                )
            },
            Err(e) => state is Err && e@ == failed(
                "cohere2moe: new_with_max_seq failed: "@,
                state->Err_0@,
            ),
        },
{
    if let Err(why) = state {
        return Err(failure("cohere2moe: new_with_max_seq failed: ", why.as_str()));
    }
    let eos_tok: u32 = eos_token(encodings, 255001);
    Ok(finish_plain(shared, ModelState::Cohere2Moe(Cohere2MoeBundle { eos_tok })))
}

/// A MiniMax. `state` is what came of making its state, `encodings` are the
/// tokens of its end marks.
pub fn load_minimax(
    shared: Shared,
    state: Result<(), String>,
    encodings: &Vec<Vec<u32>>,
) -> (r: Result<LoadedModel, String>)
    ensures
        match r {
            Ok(m) => {
                &&& state is Ok
                &&& is_whole(m)
                &&& m.deepseek4_eos_tok == 0
                &&& is_fresh(
                    m,
                    shared,
                    shared.max_seq,
                    Some(
                        ModelState::Minimax(
                            MiniMaxBundle {
                                eos_tok: eos_of(encodings_view(encodings@), end_marks_of(10).1),
                            },
                        ),
                    ),
                    nothing_held(),
                )
            },
            Err(e) => state is Err && e@ == failed(
                "minimax: MiniMaxState::new_with_max_seq failed: "@,
                state->Err_0@,
            ),
        },
{
    if let Err(why) = state {
        return Err(
            failure("minimax: MiniMaxState::new_with_max_seq failed: ", why.as_str()),
        );
    }
    let eos_tok: u32 = eos_token(encodings, 1);
    Ok(finish_plain(shared, ModelState::Minimax(MiniMaxBundle { eos_tok })))
}

/// One step of loading a model whose experts are split over devices.
#[derive(Debug, PartialEq, Eq)]
pub enum EpStep {
    /// Open the devices, with the layers split evenly.
    Devices(DeviceSplit),
    /// Read the file once more, for this rank's weights.
    Weights { rank: usize },
    /// Make this rank's state.
    State { rank: usize },
    /// Allocate this rank's partial sums.
    Partial { rank: usize, len: usize },
}

/// What a step holds.
pub enum EpStepV {
    Devices(DeviceSplitV),
    Weights(usize),
    State(usize),
    Partial(usize, usize),
}

impl View for EpStep {
    type V = EpStepV;

    open spec fn view(&self) -> EpStepV {
        match self {
            EpStep::Devices(d) => EpStepV::Devices(d@),
            EpStep::Weights { rank } => EpStepV::Weights(*rank),
            EpStep::State { rank } => EpStepV::State(*rank),
            EpStep::Partial { rank, len } => EpStepV::Partial(*rank, *len),
        }
    }
}

/// What each of several steps holds.
pub open spec fn ep_view(steps: Seq<EpStep>) -> Seq<EpStepV> {
    steps.map_values(|s: EpStep| s@)
}

/// The steps of loading a model whose experts are split over `tp` devices: the
/// weights of every rank, then the states, then the partial sums.
pub open spec fn ep_steps_of(tp: usize, n_layers: usize, hidden_size: usize) -> Seq<EpStepV> {
    seq![EpStepV::Devices(DeviceSplitV::Uniform(tp, n_layers))] + Seq::new(
        tp as nat,
        |r: int| EpStepV::Weights(r as usize),
    ) + Seq::new(tp as nat, |r: int| EpStepV::State(r as usize)) + Seq::new(
        tp as nat,
        |r: int| EpStepV::Partial(r as usize, hidden_size),
    )
}

fn push_step(out: &mut Vec<EpStep>, step: EpStep)
    ensures
        ep_view(final(out)@) == ep_view(old(out)@).push(step@),
{
    let ghost before = out@;
    out.push(step);
    assert(ep_view(out@) =~= ep_view(before).push(step@));
}

proof fn one_more(head: Seq<EpStepV>, all: Seq<EpStepV>, i: int)
    requires
        0 <= i < all.len(),
    ensures
        (head + all.subrange(0, i)).push(all[i]) == head + all.subrange(0, i + 1),
{
    assert((head + all.subrange(0, i)).push(all[i]) =~= head + all.subrange(0, i + 1));
}

/// The steps of loading a model whose experts are split over `tp` devices.
pub fn ep_steps(tp: usize, n_layers: usize, hidden_size: usize) -> (out: Vec<EpStep>)
    ensures
        ep_view(out@) == ep_steps_of(tp, n_layers, hidden_size),
{
    let mut out: Vec<EpStep> = Vec::new();
    out.push(EpStep::Devices(DeviceSplit::Uniform { devices: tp, layers: n_layers }));
    let ghost head = seq![EpStepV::Devices(DeviceSplitV::Uniform(tp, n_layers))];
    let ghost weights = Seq::new(tp as nat, |r: int| EpStepV::Weights(r as usize));
    let ghost states = Seq::new(tp as nat, |r: int| EpStepV::State(r as usize));
    let ghost partials = Seq::new(tp as nat, |r: int| EpStepV::Partial(r as usize, hidden_size));
    assert(ep_view(out@) =~= head);
    let mut rank: usize = 0;
    assert(weights.subrange(0, 0) =~= Seq::<EpStepV>::empty());
    assert(ep_view(out@) =~= head + weights.subrange(0, 0));
    while rank < tp
        invariant
            rank <= tp,
            weights == Seq::new(tp as nat, |r: int| EpStepV::Weights(r as usize)),
            ep_view(out@) == head + weights.subrange(0, rank as int),
        decreases tp - rank,
    {
        push_step(&mut out, EpStep::Weights { rank });
        proof {
            one_more(head, weights, rank as int);
        }
        rank = rank + 1;
    }
    assert(weights.subrange(0, tp as int) =~= weights);
    rank = 0;
    assert(ep_view(out@) =~= head + weights + states.subrange(0, 0));
    while rank < tp
        invariant
            rank <= tp,
            states == Seq::new(tp as nat, |r: int| EpStepV::State(r as usize)),
            ep_view(out@) == head + weights + states.subrange(0, rank as int),
        decreases tp - rank,
    {
        push_step(&mut out, EpStep::State { rank });
        proof {
            one_more(head + weights, states, rank as int);
        }
        rank = rank + 1;
    }
    assert(states.subrange(0, tp as int) =~= states);
    rank = 0;
    assert(ep_view(out@) =~= head + weights + states + partials.subrange(0, 0));
    while rank < tp
        invariant
            rank <= tp,
            partials == Seq::new(
                tp as nat,
                |r: int| EpStepV::Partial(r as usize, hidden_size),
            ),
            ep_view(out@) == head + weights + states + partials.subrange(0, rank as int),
        decreases tp - rank,
    {
        push_step(&mut out, EpStep::Partial { rank, len: hidden_size });
        proof {
            one_more(head + weights + states, partials, rank as int);
        }
        rank = rank + 1;
    }
    assert(partials.subrange(0, tp as int) =~= partials);
    out
}

/// A model whose experts are split over `tp` devices, once every step is done.
pub fn finish_ep(shared: Shared, arch: EpArch, tp: usize) -> (m: LoadedModel)
    ensures
        is_fresh(m, shared, shared.max_seq, None, nothing_held()),
        m.pp == 1,
        m.split is None,
        m.ep == Some(EpState { inner: arch, ranks: tp }),
        m.deepseek4_eos_tok == 0,
{
    let cap: usize = shared.max_seq;
    let mut m = base(shared, cap);
    m.ep = Some(EpState { inner: arch, ranks: tp });
    m
}

/// Every rank of a model whose experts are split has its weights, then its
/// state, then its partial sums of the model's width; all weights are read
/// before a state is made, all states before sums are allocated, and the devices
/// are opened before all of it.
pub proof fn every_rank_is_built(tp: usize, n_layers: usize, hidden_size: usize, rank: usize)
    requires
        rank < tp,
    ensures
        ({
            let all = ep_steps_of(tp, n_layers, hidden_size);
            &&& all.len() == 1 + 3 * tp
            &&& all[0] == EpStepV::Devices(DeviceSplitV::Uniform(tp, n_layers))
            &&& follows(all, all[0], EpStepV::Weights(rank))
            &&& follows(all, EpStepV::Weights(rank), EpStepV::State(rank))
            &&& follows(all, EpStepV::State(rank), EpStepV::Partial(rank, hidden_size))
            &&& forall|i: int, j: int|
                0 <= i < all.len() && 0 <= j < all.len() && (#[trigger] all[i]) is Weights && (
                #[trigger] all[j]) is State ==> i < j
            &&& forall|i: int, j: int|
                0 <= i < all.len() && 0 <= j < all.len() && (#[trigger] all[i]) is State && (
                #[trigger] all[j]) is Partial ==> i < j
        }),
{
    let all = ep_steps_of(tp, n_layers, hidden_size);
    let r = rank as int;
    assert(only_at(all, all[0], 0));
    assert(only_at(all, EpStepV::Weights(rank), 1 + r));
    assert(only_at(all, EpStepV::State(rank), 1 + tp + r));
    assert(only_at(all, EpStepV::Partial(rank, hidden_size), 1 + tp + tp + r));
}

/// A draft is refused before the load only where there is one and the source is
/// a model file with an architecture, and then for what the target says of it.
pub proof fn only_files_refuse_drafts(source: Source, draft: DraftTarget, device: Seq<char>)
    ensures
        early_refusal(source, None, device) is None,
        source.is_dir ==> early_refusal(source, Some(draft), device) is None,
        source.arch_id is None ==> early_refusal(source, Some(draft), device) is None,
        !source.is_dir && source.arch_id is Some ==> early_refusal(source, Some(draft), device)
            == draft_refusal_of(
            draft.head_tier,
            device,
            source.arch_id->Some_0,
            opt_str(draft.two_bit),
            opt_str(draft.three_bit),
        ),
{
}

/// A fresh model is one of its source alone: nothing of another load, no token and
/// no turn is in it, and two of one source differ in nothing that the source says.
pub proof fn fresh_models_are_of_their_source(
    m: LoadedModel,
    n: LoadedModel,
    shared: Shared,
    physical_cap: usize,
    state: Option<ModelState>,
    held: Holdings,
)
    requires
        is_fresh(m, shared, physical_cap, state, held),
        is_fresh(n, shared, physical_cap, state, held),
    ensures
        m.arch_id == shared.arch_id && n.arch_id == m.arch_id,
        m.max_seq == shared.max_seq && m.physical_cap == physical_cap,
        m.model_path@ == shared.path@ && n.model_path@ == m.model_path@,
        m.chat_template == shared.chat_template,
        m.state == state && m.held == held,
        m.seq_pos == 0 && m.conversation_tokens@.len() == 0 && m.asst_turn_cache.order().len() == 0,
        n.asst_turn_cache.cap() == m.asst_turn_cache.cap(),
        !m.mtp_weights_present && m.mtp_k == n.mtp_k && m.mtp_mode@ == n.mtp_mode@,
{
}

/// Keys and values give way exactly under the plans that name layers for it.
pub proof fn only_named_layers_evict(plan: EvictionPlan)
    ensures
        evicts(plan) <==> plan !is Off && plan !is NoFullLayers,
{
}

} // verus!
