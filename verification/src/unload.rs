//! Tearing a model down: everything that it holds on devices is freed once.

use crate::model::{Holdings, LoadedModel, ModelState, SplitHoldings};
use vstd::prelude::*;

verus! {

/// One step of a teardown.
#[derive(Debug, Clone, Copy, PartialEq, Eq, Structural)]
pub enum FreeAction {
    /// On all devices of a split model.
    SplitScratchSet,
    SplitKvCache,
    SplitDeltaState,
    SplitWeights,
    /// On the model's one device.
    DraftWeights,
    DraftScratch,
    Eviction,
    KvCache,
    DeltaState,
    PrefillCheckpoint { index: usize },
    DflashCheckpoint { index: usize },
    /// Of the architecture's own state.
    BundleState,
    BundleKvCache,
    BundleScratch,
    BundleWeights,
    BundleDeltaState,
    /// Its scratch comes before its weights, its cache last.
    LlamaKvCache,
    Qwen2State,
    Deepseek4State,
    Deepseek4Scratch,
    VisionWeights,
    Deepseek4Weights,
    DotsOcrWeights,
    /// The device's own caches, its recorded graphs and its memory pool.
    Settle { device: usize },
}

/// One step where a condition holds, none where it does not.
pub open spec fn step_if(held: bool, step: FreeAction) -> Seq<FreeAction> {
    if held {
        seq![step]
    } else {
        Seq::empty()
    }
}

fn push_if(out: &mut Vec<FreeAction>, held: bool, step: FreeAction)
    ensures
        final(out)@ == old(out)@ + step_if(held, step),
{
    let ghost before = out@;
    if held {
        out.push(step);
    }
    assert(out@ =~= before + step_if(held, step));
}

/// Freeing the architecture's own state.
pub open spec fn bundle_steps(state: Option<ModelState>) -> Seq<FreeAction> {
    match state {
        None => Seq::empty(),
        Some(ModelState::Qwen35) => seq![
            FreeAction::BundleKvCache,
            FreeAction::BundleScratch,
            FreeAction::BundleWeights,
            FreeAction::BundleDeltaState,
        ],
        Some(ModelState::Llama) => seq![
            FreeAction::BundleScratch,
            FreeAction::BundleWeights,
            FreeAction::LlamaKvCache,
        ],
        Some(_) => seq![FreeAction::BundleState, FreeAction::BundleWeights],
    }
}

/// The checkpoints of prefilling.
pub open spec fn prefill_steps(n: nat) -> Seq<FreeAction> {
    Seq::new(n, |i: int| FreeAction::PrefillCheckpoint { index: i as usize })
}

/// The checkpoints of speculation.
pub open spec fn dflash_steps(n: nat) -> Seq<FreeAction> {
    Seq::new(n, |i: int| FreeAction::DflashCheckpoint { index: i as usize })
}

/// What is freed before the checkpoints.
pub open spec fn front_steps(held: Holdings) -> Seq<FreeAction> {
    step_if(held.dflash, FreeAction::DraftWeights) + step_if(held.dflash, FreeAction::DraftScratch)
        + step_if(held.eviction, FreeAction::Eviction) + step_if(held.kv_cache, FreeAction::KvCache)
        + step_if(held.dn_state, FreeAction::DeltaState)
}

/// What is freed behind the architecture's state.
pub open spec fn back_steps(held: Holdings) -> Seq<FreeAction> {
    step_if(held.qwen2_state, FreeAction::Qwen2State) + step_if(
        held.deepseek4_state,
        FreeAction::Deepseek4State,
    ) + step_if(held.deepseek4_pbs, FreeAction::Deepseek4Scratch) + step_if(
        held.vision_weights,
        FreeAction::VisionWeights,
    ) + step_if(held.deepseek4_weights, FreeAction::Deepseek4Weights) + step_if(
        held.dots_ocr_weights,
        FreeAction::DotsOcrWeights,
    ) + seq![FreeAction::Settle { device: 0 }]
}

/// The teardown of a model on one device.
pub open spec fn single_steps(state: Option<ModelState>, held: Holdings) -> Seq<FreeAction> {
    front_steps(held) + prefill_steps(held.prefill_checkpoints as nat) + dflash_steps(
        held.dflash_checkpoints as nat,
    ) + bundle_steps(state) + back_steps(held)
}

/// Freeing the state of a split model: only one architecture splits.
pub open spec fn split_state_steps(state: Option<ModelState>) -> Seq<FreeAction> {
    if state == Some(ModelState::Qwen35) {
        seq![FreeAction::SplitKvCache, FreeAction::SplitDeltaState, FreeAction::SplitWeights]
    } else {
        Seq::empty()
    }
}

/// Settling the first `n` devices.
pub open spec fn settle_steps(n: nat) -> Seq<FreeAction> {
    Seq::new(n, |i: int| FreeAction::Settle { device: i as usize })
}

/// The teardown of a split model.
pub open spec fn split_steps(state: Option<ModelState>, split: SplitHoldings) -> Seq<FreeAction> {
    step_if(split.scratch_set, FreeAction::SplitScratchSet) + split_state_steps(state)
        + settle_steps(split.devices as nat)
}

/// The teardown of a model.
pub open spec fn unload_steps(
    pp: usize,
    split: Option<SplitHoldings>,
    state: Option<ModelState>,
    held: Holdings,
) -> Seq<FreeAction> {
    if pp > 1 {
        split_steps(state, split->Some_0)
    } else {
        single_steps(state, held)
    }
}

fn push_bundle(out: &mut Vec<FreeAction>, state: Option<ModelState>)
    ensures
        final(out)@ == old(out)@ + bundle_steps(state),
{
    let ghost before = out@;
    match state {
        None => {},
        Some(ModelState::Qwen35) => {
            out.push(FreeAction::BundleKvCache);
            out.push(FreeAction::BundleScratch);
            out.push(FreeAction::BundleWeights);
            out.push(FreeAction::BundleDeltaState);
        },
        Some(ModelState::Llama) => {
            out.push(FreeAction::BundleScratch);
            out.push(FreeAction::BundleWeights);
            out.push(FreeAction::LlamaKvCache);
        },
        Some(ModelState::Qwen2) | Some(ModelState::Lfm2Moe(_)) | Some(ModelState::Minimax(_))
        | Some(ModelState::Cohere2Moe(_)) => {
            out.push(FreeAction::BundleState);
            out.push(FreeAction::BundleWeights);
        },
    }
    assert(out@ =~= before + bundle_steps(state));
}

fn push_settle(out: &mut Vec<FreeAction>, n: usize)
    ensures
        final(out)@ == old(out)@ + settle_steps(n as nat),
{
    let ghost before = out@;
    let mut i: usize = 0;
    assert(out@ =~= before + settle_steps(0));
    while i < n
        invariant
            i <= n,
            out@ == before + settle_steps(i as nat),
        decreases n - i,
    {
        out.push(FreeAction::Settle { device: i });
        i = i + 1;
        assert(out@ =~= before + settle_steps(i as nat));
    }
}

/// The teardown of a model, step by step.
pub fn unload_model(m: &LoadedModel) -> (out: Vec<FreeAction>)
    requires
        m.pp > 1 ==> m.split is Some,
    ensures
        out@ == unload_steps(m.pp, m.split, m.state, m.held),
{
    let mut out: Vec<FreeAction> = Vec::new();
    if m.pp > 1 {
        match m.split {
            Some(split) => {
                push_if(&mut out, split.scratch_set, FreeAction::SplitScratchSet);
                let ghost before = out@;
                if m.state == Some(ModelState::Qwen35) {
                    out.push(FreeAction::SplitKvCache);
                    out.push(FreeAction::SplitDeltaState);
                    out.push(FreeAction::SplitWeights);
                }
                assert(out@ =~= before + split_state_steps(m.state));
                push_settle(&mut out, split.devices);
                assert(out@ =~= split_steps(m.state, split));
            },
            None => {},
        }
        return out;
    }
    let held = m.held;
    push_front(&mut out, held);
    assert(out@ =~= front_steps(held));
    push_checkpoints(&mut out, held);
    push_bundle(&mut out, m.state);
    push_back(&mut out, held);
    proof {
        let a = front_steps(held);
        let b = prefill_steps(held.prefill_checkpoints as nat);
        let c = dflash_steps(held.dflash_checkpoints as nat);
        join_assoc(a, b, c);
    }
    out
}

proof fn join_assoc(a: Seq<FreeAction>, b: Seq<FreeAction>, c: Seq<FreeAction>)
    ensures
        a + b + c == a + (b + c),
{
    assert(a + b + c =~= a + (b + c));
}

fn push_front(out: &mut Vec<FreeAction>, held: Holdings)
    ensures
        final(out)@ == old(out)@ + front_steps(held),
{
    let ghost x = out@;
    let ghost a = step_if(held.dflash, FreeAction::DraftWeights);
    let ghost b = step_if(held.dflash, FreeAction::DraftScratch);
    let ghost c = step_if(held.eviction, FreeAction::Eviction);
    let ghost d = step_if(held.kv_cache, FreeAction::KvCache);
    let ghost e = step_if(held.dn_state, FreeAction::DeltaState);
    push_if(out, held.dflash, FreeAction::DraftWeights);
    push_if(out, held.dflash, FreeAction::DraftScratch);
    push_if(out, held.eviction, FreeAction::Eviction);
    push_if(out, held.kv_cache, FreeAction::KvCache);
    push_if(out, held.dn_state, FreeAction::DeltaState);
    proof {
        join_assoc(x, a, b);
        join_assoc(x, a + b, c);
        join_assoc(x, a + b + c, d);
        join_assoc(x, a + b + c + d, e);
    }
}

fn push_back(out: &mut Vec<FreeAction>, held: Holdings)
    ensures
        final(out)@ == old(out)@ + back_steps(held),
{
    let ghost x = out@;
    let ghost a = step_if(held.qwen2_state, FreeAction::Qwen2State);
    let ghost b = step_if(held.deepseek4_state, FreeAction::Deepseek4State);
    let ghost c = step_if(held.deepseek4_pbs, FreeAction::Deepseek4Scratch);
    let ghost d = step_if(held.vision_weights, FreeAction::VisionWeights);
    let ghost e = step_if(held.deepseek4_weights, FreeAction::Deepseek4Weights);
    let ghost f = step_if(held.dots_ocr_weights, FreeAction::DotsOcrWeights);
    let ghost g = seq![FreeAction::Settle { device: 0 }];
    push_if(out, held.qwen2_state, FreeAction::Qwen2State);
    push_if(out, held.deepseek4_state, FreeAction::Deepseek4State);
    push_if(out, held.deepseek4_pbs, FreeAction::Deepseek4Scratch);
    push_if(out, held.vision_weights, FreeAction::VisionWeights);
    push_if(out, held.deepseek4_weights, FreeAction::Deepseek4Weights);
    push_if(out, held.dots_ocr_weights, FreeAction::DotsOcrWeights);
    let ghost before = out@;
    out.push(FreeAction::Settle { device: 0 });
    proof {
        assert(out@ =~= before + g);
        join_assoc(x, a, b);
        join_assoc(x, a + b, c);
        join_assoc(x, a + b + c, d);
        join_assoc(x, a + b + c + d, e);
        join_assoc(x, a + b + c + d + e, f);
        join_assoc(x, a + b + c + d + e + f, g);
    }
}

fn push_checkpoints(out: &mut Vec<FreeAction>, held: Holdings)
    ensures
        final(out)@ == old(out)@ + (prefill_steps(held.prefill_checkpoints as nat) + dflash_steps(
            held.dflash_checkpoints as nat,
        )),
{
    let ghost front = out@;
    let mut i: usize = 0;
    assert(out@ =~= front + prefill_steps(0));
    while i < held.prefill_checkpoints
        invariant
            i <= held.prefill_checkpoints,
            out@ == front + prefill_steps(i as nat),
        decreases held.prefill_checkpoints - i,
    {
        out.push(FreeAction::PrefillCheckpoint { index: i });
        i = i + 1;
        assert(out@ =~= front + prefill_steps(i as nat));
    }
    let ghost checked = out@;
    let mut j: usize = 0;
    assert(out@ =~= checked + dflash_steps(0));
    while j < held.dflash_checkpoints
        invariant
            j <= held.dflash_checkpoints,
            out@ == checked + dflash_steps(j as nat),
        decreases held.dflash_checkpoints - j,
    {
        out.push(FreeAction::DflashCheckpoint { index: j });
        j = j + 1;
        assert(out@ =~= checked + dflash_steps(j as nat));
    }
    proof {
        join_assoc(
            front,
            prefill_steps(held.prefill_checkpoints as nat),
            dflash_steps(held.dflash_checkpoints as nat),
        );
    }
}

/// The place of a step in the order of teardown.
pub open spec fn rank(step: FreeAction) -> int {
    match step {
        FreeAction::SplitScratchSet => 0,
        FreeAction::SplitKvCache => 1,
        FreeAction::SplitDeltaState => 2,
        FreeAction::SplitWeights => 3,
        FreeAction::DraftWeights => 4,
        FreeAction::DraftScratch => 5,
        FreeAction::Eviction => 6,
        FreeAction::KvCache => 7,
        FreeAction::DeltaState => 8,
        FreeAction::PrefillCheckpoint { .. } => 9,
        FreeAction::DflashCheckpoint { .. } => 10,
        FreeAction::BundleState => 11,
        FreeAction::BundleKvCache => 12,
        FreeAction::BundleScratch => 13,
        FreeAction::BundleWeights => 14,
        FreeAction::BundleDeltaState => 15,
        FreeAction::LlamaKvCache => 16,
        FreeAction::Qwen2State => 17,
        FreeAction::Deepseek4State => 18,
        FreeAction::Deepseek4Scratch => 19,
        FreeAction::VisionWeights => 20,
        FreeAction::Deepseek4Weights => 21,
        FreeAction::DotsOcrWeights => 22,
        FreeAction::Settle { .. } => 23,
    }
}

/// Whether steps of ranks from `low` up to `high` occur, none of them twice.
pub open spec fn distinct_within(steps: Seq<FreeAction>, low: int, high: int) -> bool {
    &&& forall|i: int| 0 <= i < steps.len() ==> low <= rank(#[trigger] steps[i]) < high
    &&& steps.no_duplicates()
}

proof fn distinct_join(a: Seq<FreeAction>, b: Seq<FreeAction>, low: int, mid: int, high: int)
    requires
        low <= mid <= high,
        distinct_within(a, low, mid),
        distinct_within(b, mid, high),
    ensures
        distinct_within(a + b, low, high),
{
    let s = a + b;
    assert forall|i: int| 0 <= i < s.len() implies low <= rank(#[trigger] s[i]) < high by {
        if i < a.len() {
            assert(s[i] == a[i]);
        } else {
            assert(s[i] == b[i - a.len()]);
        }
    }
    assert forall|i: int, j: int| 0 <= i < s.len() && 0 <= j < s.len() && i != j implies s[i]
        != s[j] by {
        if i < a.len() {
            assert(s[i] == a[i]);
        } else {
            assert(s[i] == b[i - a.len()]);
        }
        if j < a.len() {
            assert(s[j] == a[j]);
        } else {
            assert(s[j] == b[j - a.len()]);
        }
    }
}

proof fn front_is_distinct(held: Holdings)
    ensures
        distinct_within(front_steps(held), 4, 9),
{
    let a = step_if(held.dflash, FreeAction::DraftWeights);
    let b = step_if(held.dflash, FreeAction::DraftScratch);
    let c = step_if(held.eviction, FreeAction::Eviction);
    let d = step_if(held.kv_cache, FreeAction::KvCache);
    let e = step_if(held.dn_state, FreeAction::DeltaState);
    distinct_join(a, b, 4, 5, 6);
    distinct_join(a + b, c, 4, 6, 7);
    distinct_join(a + b + c, d, 4, 7, 8);
    distinct_join(a + b + c + d, e, 4, 8, 9);
}

proof fn back_is_distinct(held: Holdings)
    ensures
        distinct_within(back_steps(held), 17, 24),
{
    let a = step_if(held.qwen2_state, FreeAction::Qwen2State);
    let b = step_if(held.deepseek4_state, FreeAction::Deepseek4State);
    let c = step_if(held.deepseek4_pbs, FreeAction::Deepseek4Scratch);
    let d = step_if(held.vision_weights, FreeAction::VisionWeights);
    let e = step_if(held.deepseek4_weights, FreeAction::Deepseek4Weights);
    let f = step_if(held.dots_ocr_weights, FreeAction::DotsOcrWeights);
    let g = seq![FreeAction::Settle { device: 0 }];
    distinct_join(a, b, 17, 18, 19);
    distinct_join(a + b, c, 17, 19, 20);
    distinct_join(a + b + c, d, 17, 20, 21);
    distinct_join(a + b + c + d, e, 17, 21, 22);
    distinct_join(a + b + c + d + e, f, 17, 22, 23);
    distinct_join(a + b + c + d + e + f, g, 17, 23, 24);
}

/// Nothing is freed twice.
pub proof fn nothing_is_freed_twice(
    pp: usize,
    split: Option<SplitHoldings>,
    state: Option<ModelState>,
    held: Holdings,
)
    ensures
        unload_steps(pp, split, state, held).no_duplicates(),
{
    if pp > 1 {
        let s = split->Some_0;
        let a = step_if(s.scratch_set, FreeAction::SplitScratchSet);
        let b = split_state_steps(state);
        let c = settle_steps(s.devices as nat);
        distinct_join(a, b, 0, 1, 23);
        distinct_join(a + b, c, 0, 23, 24);
    } else {
        let a = front_steps(held);
        let b = prefill_steps(held.prefill_checkpoints as nat);
        let c = dflash_steps(held.dflash_checkpoints as nat);
        let d = bundle_steps(state);
        let e = back_steps(held);
        front_is_distinct(held);
        back_is_distinct(held);
        distinct_join(a, b, 4, 9, 10);
        distinct_join(a + b, c, 4, 10, 11);
        distinct_join(a + b + c, d, 4, 11, 17);
        distinct_join(a + b + c + d, e, 4, 17, 24);
    }
}

/// Whether a step frees something that a model on one device holds.
pub open spec fn frees_held(state: Option<ModelState>, held: Holdings, step: FreeAction) -> bool {
    match step {
        FreeAction::DraftWeights => held.dflash,
        FreeAction::DraftScratch => held.dflash,
        FreeAction::Eviction => held.eviction,
        FreeAction::KvCache => held.kv_cache,
        FreeAction::DeltaState => held.dn_state,
        FreeAction::PrefillCheckpoint { index } => index < held.prefill_checkpoints,
        FreeAction::DflashCheckpoint { index } => index < held.dflash_checkpoints,
        FreeAction::BundleState => state is Some && state != Some(ModelState::Qwen35) && state
            != Some(ModelState::Llama),
        FreeAction::BundleKvCache => state == Some(ModelState::Qwen35),
        FreeAction::BundleScratch => state == Some(ModelState::Qwen35) || state == Some(
            ModelState::Llama,
        ),
        FreeAction::BundleWeights => state is Some,
        FreeAction::BundleDeltaState => state == Some(ModelState::Qwen35),
        FreeAction::LlamaKvCache => state == Some(ModelState::Llama),
        FreeAction::Qwen2State => held.qwen2_state,
        FreeAction::Deepseek4State => held.deepseek4_state,
        FreeAction::Deepseek4Scratch => held.deepseek4_pbs,
        FreeAction::VisionWeights => held.vision_weights,
        FreeAction::Deepseek4Weights => held.deepseek4_weights,
        FreeAction::DotsOcrWeights => held.dots_ocr_weights,
        FreeAction::Settle { device } => device == 0,
        _ => false,
    }
}

proof fn contains_either(a: Seq<FreeAction>, b: Seq<FreeAction>, x: FreeAction)
    ensures
        (a + b).contains(x) <==> a.contains(x) || b.contains(x),
{
    let s = a + b;
    if a.contains(x) {
        let i = choose|i: int| 0 <= i < a.len() && a[i] == x;
        assert(s[i] == x);
    }
    if b.contains(x) {
        let i = choose|i: int| 0 <= i < b.len() && b[i] == x;
        assert(s[a.len() + i] == x);
    }
    if s.contains(x) {
        let i = choose|i: int| 0 <= i < s.len() && s[i] == x;
        if i < a.len() {
            assert(a[i] == x);
        } else {
            assert(b[i - a.len()] == x);
        }
    }
}

proof fn contains_step_if(held: bool, step: FreeAction, x: FreeAction)
    ensures
        step_if(held, step).contains(x) <==> held && x == step,
{
    if held {
        assert(step_if(held, step)[0] == step);
    }
}

proof fn front_contains(held: Holdings, x: FreeAction)
    ensures
        front_steps(held).contains(x) <==> ((held.dflash && (x == FreeAction::DraftWeights || x
            == FreeAction::DraftScratch)) || (held.eviction && x == FreeAction::Eviction) || (
        held.kv_cache && x == FreeAction::KvCache) || (held.dn_state && x
            == FreeAction::DeltaState)),
{
    let a = step_if(held.dflash, FreeAction::DraftWeights);
    let b = step_if(held.dflash, FreeAction::DraftScratch);
    let c = step_if(held.eviction, FreeAction::Eviction);
    let d = step_if(held.kv_cache, FreeAction::KvCache);
    let e = step_if(held.dn_state, FreeAction::DeltaState);
    contains_step_if(held.dflash, FreeAction::DraftWeights, x);
    contains_step_if(held.dflash, FreeAction::DraftScratch, x);
    contains_step_if(held.eviction, FreeAction::Eviction, x);
    contains_step_if(held.kv_cache, FreeAction::KvCache, x);
    contains_step_if(held.dn_state, FreeAction::DeltaState, x);
    contains_either(a, b, x);
    contains_either(a + b, c, x);
    contains_either(a + b + c, d, x);
    contains_either(a + b + c + d, e, x);
}

proof fn back_contains(held: Holdings, x: FreeAction)
    ensures
        back_steps(held).contains(x) <==> ((held.qwen2_state && x == FreeAction::Qwen2State) || (
        held.deepseek4_state && x == FreeAction::Deepseek4State) || (held.deepseek4_pbs && x
            == FreeAction::Deepseek4Scratch) || (held.vision_weights && x
            == FreeAction::VisionWeights) || (held.deepseek4_weights && x
            == FreeAction::Deepseek4Weights) || (held.dots_ocr_weights && x
            == FreeAction::DotsOcrWeights) || x == FreeAction::Settle { device: 0 }),
{
    let a = step_if(held.qwen2_state, FreeAction::Qwen2State);
    let b = step_if(held.deepseek4_state, FreeAction::Deepseek4State);
    let c = step_if(held.deepseek4_pbs, FreeAction::Deepseek4Scratch);
    let d = step_if(held.vision_weights, FreeAction::VisionWeights);
    let e = step_if(held.deepseek4_weights, FreeAction::Deepseek4Weights);
    let f = step_if(held.dots_ocr_weights, FreeAction::DotsOcrWeights);
    let g = seq![FreeAction::Settle { device: 0 }];
    contains_step_if(held.qwen2_state, FreeAction::Qwen2State, x);
    contains_step_if(held.deepseek4_state, FreeAction::Deepseek4State, x);
    contains_step_if(held.deepseek4_pbs, FreeAction::Deepseek4Scratch, x);
    contains_step_if(held.vision_weights, FreeAction::VisionWeights, x);
    contains_step_if(held.deepseek4_weights, FreeAction::Deepseek4Weights, x);
    contains_step_if(held.dots_ocr_weights, FreeAction::DotsOcrWeights, x);
    assert(g.contains(x) <==> x == FreeAction::Settle { device: 0 }) by {
        assert(g[0] == FreeAction::Settle { device: 0 });
    }
    contains_either(a, b, x);
    contains_either(a + b, c, x);
    contains_either(a + b + c, d, x);
    contains_either(a + b + c + d, e, x);
    contains_either(a + b + c + d + e, f, x);
    contains_either(a + b + c + d + e + f, g, x);
}

proof fn bundle_contains(state: Option<ModelState>, x: FreeAction)
    ensures
        bundle_steps(state).contains(x) <==> match x {
            FreeAction::BundleState => state is Some && state != Some(ModelState::Qwen35) && state
                != Some(ModelState::Llama),
            FreeAction::BundleKvCache => state == Some(ModelState::Qwen35),
            FreeAction::BundleScratch => state == Some(ModelState::Qwen35) || state == Some(
                ModelState::Llama,
            ),
            FreeAction::BundleWeights => state is Some,
            FreeAction::BundleDeltaState => state == Some(ModelState::Qwen35),
            FreeAction::LlamaKvCache => state == Some(ModelState::Llama),
            _ => false,
        },
{
    let b = bundle_steps(state);
    match state {
        None => {},
        Some(ModelState::Qwen35) => {
            assert(b[0] == FreeAction::BundleKvCache && b[1] == FreeAction::BundleScratch && b[2]
                == FreeAction::BundleWeights && b[3] == FreeAction::BundleDeltaState);
        },
        Some(ModelState::Llama) => {
            assert(b[0] == FreeAction::BundleScratch && b[1] == FreeAction::BundleWeights && b[2]
                == FreeAction::LlamaKvCache);
        },
        Some(_) => {
            assert(b[0] == FreeAction::BundleState && b[1] == FreeAction::BundleWeights);
        },
    }
}

proof fn checkpoints_contain(held: Holdings, x: FreeAction)
    ensures
        prefill_steps(held.prefill_checkpoints as nat).contains(x) <==> (x is PrefillCheckpoint
            && x->PrefillCheckpoint_index < held.prefill_checkpoints),
        dflash_steps(held.dflash_checkpoints as nat).contains(x) <==> (x is DflashCheckpoint
            && x->DflashCheckpoint_index < held.dflash_checkpoints),
{
    let b = prefill_steps(held.prefill_checkpoints as nat);
    let c = dflash_steps(held.dflash_checkpoints as nat);
    if x is PrefillCheckpoint && x->PrefillCheckpoint_index < held.prefill_checkpoints {
        assert(b[x->PrefillCheckpoint_index as int] == x);
    }
    if x is DflashCheckpoint && x->DflashCheckpoint_index < held.dflash_checkpoints {
        assert(c[x->DflashCheckpoint_index as int] == x);
    }
}

proof fn contains_any(
    a: Seq<FreeAction>,
    b: Seq<FreeAction>,
    c: Seq<FreeAction>,
    d: Seq<FreeAction>,
    e: Seq<FreeAction>,
    x: FreeAction,
)
    ensures
        (a + b + c + d + e).contains(x) <==> (a.contains(x) || b.contains(x) || c.contains(x)
            || d.contains(x) || e.contains(x)),
{
    contains_either(a, b, x);
    contains_either(a + b, c, x);
    contains_either(a + b + c, d, x);
    contains_either(a + b + c + d, e, x);
}

/// On one device exactly what a model holds is freed: every part of it, and
/// nothing else.
#[verifier::spinoff_prover]
pub proof fn exactly_what_is_held_is_freed(
    state: Option<ModelState>,
    held: Holdings,
    x: FreeAction,
)
    ensures
        single_steps(state, held).contains(x) <==> frees_held(state, held, x),
{
    let front = front_steps(held).contains(x);
    let prefill = prefill_steps(held.prefill_checkpoints as nat).contains(x);
    let dflash = dflash_steps(held.dflash_checkpoints as nat).contains(x);
    let bundle = bundle_steps(state).contains(x);
    let back = back_steps(held).contains(x);
    assert(single_steps(state, held).contains(x) == (front || prefill || dflash || bundle || back))
        by {
        contains_any(
            front_steps(held),
            prefill_steps(held.prefill_checkpoints as nat),
            dflash_steps(held.dflash_checkpoints as nat),
            bundle_steps(state),
            back_steps(held),
            x,
        );
    }
    front_contains(held, x);
    back_contains(held, x);
    bundle_contains(state, x);
    checkpoints_contain(held, x);
}

/// A split model's devices are all settled, each behind everything that is
/// freed; a Qwen3.5's caches and weights are freed on them, and the scratch where
/// there is one.
pub proof fn every_device_is_settled_last(
    pp: usize,
    split: SplitHoldings,
    state: Option<ModelState>,
    held: Holdings,
)
    requires
        pp > 1,
    ensures
        ({
            let all = unload_steps(pp, Some(split), state, held);
            let n = all.len() as int;
            let freed = n - split.devices;
            &&& 0 <= freed
            &&& forall|i: int| 0 <= i < n ==> ((#[trigger] all[i]) is Settle <==> freed <= i)
            &&& forall|d: int|
                0 <= d < split.devices ==> (#[trigger] all[freed + d])->device == d
            &&& state == Some(ModelState::Qwen35) ==> {
                &&& all.contains(FreeAction::SplitKvCache)
                &&& all.contains(FreeAction::SplitDeltaState)
                &&& all.contains(FreeAction::SplitWeights)
            }
            &&& all.contains(FreeAction::SplitScratchSet) <==> split.scratch_set
        }),
{
    let all = unload_steps(pp, Some(split), state, held);
    let a = step_if(split.scratch_set, FreeAction::SplitScratchSet);
    let b = split_state_steps(state);
    let c = settle_steps(split.devices as nat);
    let k = (a.len() + b.len()) as int;
    assert(all =~= a + b + c);
    assert forall|i: int| 0 <= i < all.len() implies ((#[trigger] all[i]) is Settle <==> k
        <= i) by {
        if i < a.len() {
            assert(all[i] == a[i]);
        } else if i < k {
            assert(all[i] == b[i - a.len()]);
        } else {
            assert(all[i] == c[i - k]);
        }
    }
    assert forall|d: int| 0 <= d < split.devices implies (#[trigger] all[k + d])->device
        == d by {
        assert(all[k + d] == c[d]);
    }
    if state == Some(ModelState::Qwen35) {
        let m = a.len() as int;
        assert(all[m] == FreeAction::SplitKvCache);
        assert(all[m + 1] == FreeAction::SplitDeltaState);
        assert(all[m + 2] == FreeAction::SplitWeights);
    }
    if split.scratch_set {
        assert(all[0] == FreeAction::SplitScratchSet);
    } else if all.contains(FreeAction::SplitScratchSet) {
        let i = choose|i: int| 0 <= i < all.len() && all[i] == FreeAction::SplitScratchSet;
        if i < k {
            assert(all[i] == b[i]);
        } else {
            assert(all[i] == c[i - k]);
        }
    }
}

/// A model on one device ends its teardown by settling that device, and a
/// Llama's scratch is freed before its weights and its cache behind them.
pub proof fn the_device_is_settled_last(
    pp: usize,
    split: Option<SplitHoldings>,
    state: Option<ModelState>,
    held: Holdings,
)
    requires
        pp <= 1,
    ensures
        unload_steps(pp, split, state, held).len() > 0,
        unload_steps(pp, split, state, held).last() == (FreeAction::Settle { device: 0 }),
        unload_steps(pp, split, state, held) == single_steps(state, held),
        bundle_steps(Some(ModelState::Llama)) == seq![
            FreeAction::BundleScratch,
            FreeAction::BundleWeights,
            FreeAction::LlamaKvCache,
        ],
{
    let back = back_steps(held);
    assert(back.last() == (FreeAction::Settle { device: 0 }));
    assert(unload_steps(pp, split, state, held).last() == back.last());
}

/// Whether steps come by their ranks, all of them from `low` up to `high`.
pub open spec fn ranked_within(steps: Seq<FreeAction>, low: int, high: int) -> bool {
    &&& forall|i: int| 0 <= i < steps.len() ==> low <= rank(#[trigger] steps[i]) < high
    &&& forall|i: int, j: int|
        0 <= i < j < steps.len() ==> rank(#[trigger] steps[i]) <= rank(#[trigger] steps[j])
}

proof fn ranked_join(a: Seq<FreeAction>, b: Seq<FreeAction>, low: int, mid: int, high: int)
    requires
        low <= mid <= high,
        ranked_within(a, low, mid),
        ranked_within(b, mid, high),
    ensures
        ranked_within(a + b, low, high),
{
    let s = a + b;
    assert forall|i: int| 0 <= i < s.len() implies low <= rank(#[trigger] s[i]) < high by {
        if i < a.len() {
            assert(s[i] == a[i]);
        } else {
            assert(s[i] == b[i - a.len()]);
        }
    }
    assert forall|i: int, j: int| 0 <= i < j < s.len() implies rank(#[trigger] s[i]) <= rank(
        #[trigger] s[j],
    ) by {
        if j < a.len() {
            assert(s[i] == a[i] && s[j] == a[j]);
        } else if i < a.len() {
            assert(s[i] == a[i] && s[j] == b[j - a.len()]);
        } else {
            assert(s[i] == b[i - a.len()] && s[j] == b[j - a.len()]);
        }
    }
}

/// A teardown goes in one order, whatever is held: drafting before the caches,
/// these before the checkpoints, and these before the architecture's state and
/// what else the model brought.
pub proof fn teardowns_go_in_order(
    pp: usize,
    split: Option<SplitHoldings>,
    state: Option<ModelState>,
    held: Holdings,
)
    requires
        pp > 1 ==> split is Some,
    ensures
        ranked_within(unload_steps(pp, split, state, held), 0, 24),
{
    if pp > 1 {
        let s = split->Some_0;
        let a = step_if(s.scratch_set, FreeAction::SplitScratchSet);
        let b = split_state_steps(state);
        let c = settle_steps(s.devices as nat);
        ranked_join(a, b, 0, 1, 4);
        ranked_join(a + b, c, 0, 4, 24);
    } else {
        let a = step_if(held.dflash, FreeAction::DraftWeights);
        let b = step_if(held.dflash, FreeAction::DraftScratch);
        let c = step_if(held.eviction, FreeAction::Eviction);
        let d = step_if(held.kv_cache, FreeAction::KvCache);
        let e = step_if(held.dn_state, FreeAction::DeltaState);
        ranked_join(a, b, 0, 5, 6);
        ranked_join(a + b, c, 0, 6, 7);
        ranked_join(a + b + c, d, 0, 7, 8);
        ranked_join(a + b + c + d, e, 0, 8, 9);
        let front = front_steps(held);
        let (p, q) = (
            prefill_steps(held.prefill_checkpoints as nat),
            dflash_steps(held.dflash_checkpoints as nat),
        );
        ranked_join(front, p, 0, 9, 10);
        ranked_join(front + p, q, 0, 10, 11);
        let own = bundle_steps(state);
        assert(ranked_within(own, 11, 17));
        ranked_join(front + p + q, own, 0, 11, 17);
        back_is_ranked(held);
        ranked_join(front + p + q + own, back_steps(held), 0, 17, 24);
    }
}

proof fn back_is_ranked(held: Holdings)
    ensures
        ranked_within(back_steps(held), 17, 24),
{
    let a = step_if(held.qwen2_state, FreeAction::Qwen2State);
    let b = step_if(held.deepseek4_state, FreeAction::Deepseek4State);
    let c = step_if(held.deepseek4_pbs, FreeAction::Deepseek4Scratch);
    let d = step_if(held.vision_weights, FreeAction::VisionWeights);
    let e = step_if(held.deepseek4_weights, FreeAction::Deepseek4Weights);
    let f = step_if(held.dots_ocr_weights, FreeAction::DotsOcrWeights);
    let g = seq![FreeAction::Settle { device: 0 }];
    ranked_join(a, b, 17, 18, 19);
    ranked_join(a + b, c, 17, 19, 20);
    ranked_join(a + b + c, d, 17, 20, 21);
    ranked_join(a + b + c + d, e, 17, 21, 22);
    ranked_join(a + b + c + d + e, f, 17, 22, 23);
    ranked_join(a + b + c + d + e + f, g, 17, 23, 24);
}

/// A split model's state is freed exactly where its architecture splits, and its
/// scratch exactly where it is held.
pub proof fn exactly_what_is_split_is_freed(state: Option<ModelState>, split: SplitHoldings)
    ensures
        split_steps(state, split).contains(FreeAction::SplitScratchSet) <==> split.scratch_set,
        split_steps(state, split).contains(FreeAction::SplitKvCache) <==> state == Some(
            ModelState::Qwen35,
        ),
        split_steps(state, split).contains(FreeAction::SplitDeltaState) <==> state == Some(
            ModelState::Qwen35,
        ),
        split_steps(state, split).contains(FreeAction::SplitWeights) <==> state == Some(
            ModelState::Qwen35,
        ),
{
    let a = step_if(split.scratch_set, FreeAction::SplitScratchSet);
    let b = split_state_steps(state);
    let c = settle_steps(split.devices as nat);
    let all = split_steps(state, split);
    contains_either(a, b, FreeAction::SplitScratchSet);
    contains_either(a + b, c, FreeAction::SplitScratchSet);
    contains_step_if(split.scratch_set, FreeAction::SplitScratchSet, FreeAction::SplitScratchSet);
    contains_either(a, b, FreeAction::SplitKvCache);
    contains_either(a + b, c, FreeAction::SplitKvCache);
    contains_step_if(split.scratch_set, FreeAction::SplitScratchSet, FreeAction::SplitKvCache);
    contains_either(a, b, FreeAction::SplitDeltaState);
    contains_either(a + b, c, FreeAction::SplitDeltaState);
    contains_step_if(split.scratch_set, FreeAction::SplitScratchSet, FreeAction::SplitDeltaState);
    contains_either(a, b, FreeAction::SplitWeights);
    contains_either(a + b, c, FreeAction::SplitWeights);
    contains_step_if(split.scratch_set, FreeAction::SplitScratchSet, FreeAction::SplitWeights);
    if state == Some(ModelState::Qwen35) {
        assert(b[0] == FreeAction::SplitKvCache && b[1] == FreeAction::SplitDeltaState && b[2]
            == FreeAction::SplitWeights);
    }
    assert(all =~= a + b + c);
}

} // verus!
