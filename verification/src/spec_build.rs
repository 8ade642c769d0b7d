//! Speculative decoding around a loaded model: lending the model to the
//! drafter and getting it back, the model-backed drafter, and the choice of
//! a drafter at load time.

use crate::carriers::{Carrier, LlamaCarrier, Qwen35Carrier};
use crate::draft::{setting_or, size_setting, DdtreeState, DflashPlan};
use crate::spec_ngram::{suffix, SpecStep};
use crate::text;
use crate::text::parsed_number;
use crate::turn_cache::opt_str;
use vstd::prelude::*;

verus! {

/// The state of a loaded model: a Qwen3.5 bundle, or another architecture's.
#[derive(Debug, PartialEq, Eq)]
pub enum LiveState<B, O> {
    Qwen35(B),
    Other(O),
}

/// A bundle with the model file that the drafter's kernels carry along.
#[derive(Debug, PartialEq, Eq)]
pub struct ModelSlot<B, F> {
    pub bundle: B,
    /// The open file; nothing until it is first wanted.
    pub hfq: Option<F>,
}

/// A bundle on loan from a model's state.
#[derive(Debug, PartialEq, Eq)]
pub struct Qwen35SlotGuard<B, F> {
    pub model_path: String,
    pub parked: ModelSlot<B, F>,
}

impl<B, F> Qwen35SlotGuard<B, F> {
    /// Takes the bundle out of a model's state. The state of another
    /// architecture is left alone.
    pub fn take<O>(state: &mut Option<LiveState<B, O>>, model_path: &str) -> (r: Result<
        Qwen35SlotGuard<B, F>,
        String,
    >)
        ensures
            match (r, *old(state)) {
                (Ok(g), Some(LiveState::Qwen35(b))) => g.parked == (ModelSlot {
                    bundle: b,
                    hfq: None::<F>,
                }) && g.model_path@ == model_path@ && *final(state) is None,
                (Err(_), Some(LiveState::Qwen35(_))) => false,
                (Ok(_), _) => false,
                (Err(e), _) => e@
                    == "Qwen35SlotGuard: model state is not a loaded Qwen3.5 bundle"@ && *final(state) == *old(state),
            },
    {
        match state.take() {
            Some(LiveState::Qwen35(bundle)) => Ok(
                Qwen35SlotGuard {
                    model_path: model_path.to_owned(),
                    parked: ModelSlot { bundle, hfq: None },
                },
            ),
            other => {
                *state = other;
                Err("Qwen35SlotGuard: model state is not a loaded Qwen3.5 bundle".to_owned())
            },
        }
    }

    /// Whether the model file has yet to be opened.
    pub fn wants_file(&self) -> (r: bool)
        ensures
            r == (self.parked.hfq is None),
    {
        match &self.parked.hfq {
            Some(_) => false,
            None => true,
        }
    }

    /// Lends the bundle with its open file, to be changed in place. `opened` is
    /// what came of opening the file, where it was wanted; a file that could not
    /// be opened leaves the bundle where it is.
    pub fn slot(&mut self, opened: Option<Result<F, String>>) -> (r: Result<
        &mut ModelSlot<B, F>,
        String,
    >)
        requires
            old(self).parked.hfq is None ==> opened is Some,
        ensures
            final(self).model_path == old(self).model_path,
            r is Ok <==> lends(old(self).parked, opened_file(opened)),
            r is Ok ==> {
                &&& *r->Ok_0 == (ModelSlot {
                    bundle: old(self).parked.bundle,
                    hfq: match old(self).parked.hfq {
                        Some(f) => Some(f),
                        None => opened_file(opened),
                    },
                })
                &&& final(self).parked == *final(r->Ok_0)
            },
            r is Err ==> {
                &&& r->Err_0@ == "reopen model: "@ + opened->Some_0->Err_0@
                &&& final(self).parked == old(self).parked
            },
    {
        if self.wants_file() {
            match opened {
                Some(Ok(f)) => {
                    self.parked.hfq = Some(f);
                },
                Some(Err(e)) => {
                    let mut s = "reopen model: ".to_owned();
                    s.append(e.as_str());
                    return Err(s);
                },
                None => {},
            }
        }
        Ok(&mut self.parked)
    }

    /// The model's state once the bundle is back.
    pub open spec fn restored<O>(&self) -> Option<LiveState<B, O>> {
        Some(LiveState::Qwen35(self.parked.bundle))
    }

    /// Puts the bundle back into the model's state. The file, where it was
    /// opened, is handed out to be closed.
    pub fn restore<O>(self, state: &mut Option<LiveState<B, O>>) -> (r: Option<F>)
        ensures
            *final(state) == self.restored::<O>(),
            r == self.parked.hfq,
    {
        *state = Some(LiveState::Qwen35(self.parked.bundle));
        self.parked.hfq
    }
}

/// One call for a slot: the file that it opened, if it could open one, and what
/// the caller left in the slot, if the call lent it.
pub struct SlotUse<B, F> {
    pub opened: Option<F>,
    pub left: ModelSlot<B, F>,
}

/// The file that was opened, where one could be.
pub open spec fn opened_file<F>(opened: Option<Result<F, String>>) -> Option<F> {
    match opened {
        Some(Ok(f)) => Some(f),
        _ => None,
    }
}

/// Whether a call lends the slot: its file is open, or opens.
pub open spec fn lends<B, F>(parked: ModelSlot<B, F>, opened: Option<F>) -> bool {
    parked.hfq is Some || opened is Some
}

/// What is parked after some calls for the slot, one after the other.
pub open spec fn parked_after<B, F>(
    parked: ModelSlot<B, F>,
    calls: Seq<SlotUse<B, F>>,
) -> ModelSlot<B, F>
    decreases calls.len(),
{
    if calls.len() == 0 {
        parked
    } else {
        let before = parked_after(parked, calls.drop_last());
        if lends(before, calls.last().opened) {
            calls.last().left
        } else {
            before
        }
    }
}

/// Whether the `i`-th of some calls lends the slot.
pub open spec fn lends_at<B, F>(
    parked: ModelSlot<B, F>,
    calls: Seq<SlotUse<B, F>>,
    i: int,
) -> bool {
    lends(parked_after(parked, calls.subrange(0, i)), calls[i].opened)
}

/// Whether the `i`-th of some calls is the last that lends the slot.
pub open spec fn last_lent<B, F>(
    parked: ModelSlot<B, F>,
    calls: Seq<SlotUse<B, F>>,
    i: int,
) -> bool {
    &&& 0 <= i < calls.len()
    &&& lends_at(parked, calls, i)
    &&& forall|j: int| i < j < calls.len() ==> !#[trigger] lends_at(parked, calls, j)
}

/// Lending loses nothing, whatever calls for the slot succeed or fail in between:
/// the state that a guard took its bundle out of holds a bundle again once the
/// guard has put it back, and it is the bundle as the last call that lent it left
/// it, or the one that was taken where no call did.
pub proof fn lending_loses_nothing<B, O, F>(
    before: Option<LiveState<B, O>>,
    taken: Qwen35SlotGuard<B, F>,
    calls: Seq<SlotUse<B, F>>,
    returned: Qwen35SlotGuard<B, F>,
)
    requires
        before == taken.restored::<O>(),
        returned.parked == parked_after(taken.parked, calls),
    ensures
        returned.restored::<O>() is Some,
        forall|i: int| #[trigger]
            last_lent(taken.parked, calls, i) ==> returned.restored::<O>() == Some(
                LiveState::<B, O>::Qwen35(calls[i].left.bundle),
            ),
        (forall|i: int| 0 <= i < calls.len() ==> !#[trigger] lends_at(taken.parked, calls, i))
            ==> returned.restored::<O>() == before,
    decreases calls.len(),
{
    if calls.len() > 0 {
        let init = calls.drop_last();
        let n = init.len() as int;
        let midway = Qwen35SlotGuard {
            model_path: taken.model_path,
            parked: parked_after(taken.parked, init),
        };
        lending_loses_nothing(before, taken, init, midway);
        assert(calls.subrange(0, n) =~= init);
        assert(lends_at(taken.parked, calls, n) == lends(midway.parked, calls.last().opened));
        assert forall|j: int| 0 <= j < n implies #[trigger] lends_at(taken.parked, calls, j)
            == lends_at(taken.parked, init, j) by {
            assert(calls.subrange(0, j) =~= init.subrange(0, j));
        }
        assert forall|i: int| #[trigger]
            last_lent(taken.parked, calls, i) implies returned.restored::<O>() == Some(
            LiveState::<B, O>::Qwen35(calls[i].left.bundle),
        ) by {
            if i < n {
                assert(!lends_at(taken.parked, calls, n));
                assert(lends_at(taken.parked, init, i));
                assert forall|j: int| i < j < n implies !#[trigger] lends_at(
                    taken.parked,
                    init,
                    j,
                ) by {
                    assert(!lends_at(taken.parked, calls, j));
                }
                assert(last_lent(taken.parked, init, i));
            }
        }
        if forall|i: int| 0 <= i < calls.len() ==> !#[trigger] lends_at(taken.parked, calls, i) {
            assert(!lends_at(taken.parked, calls, n));
            assert forall|i: int| 0 <= i < n implies !#[trigger] lends_at(
                taken.parked,
                init,
                i,
            ) by {
                assert(!lends_at(taken.parked, calls, i));
            }
        }
    }
}

/// How the drafter's tree is walked when it does not run in one batch.
#[derive(Debug, Clone, Copy, PartialEq, Eq, Structural)]
pub enum PathC {
    Phase1,
    Phase2,
}

/// Which of the drafter's kernels takes a step.
#[derive(Debug, Clone, Copy, PartialEq, Eq, Structural)]
pub enum StepRoute {
    /// The tree along its main path, with two snapshots in the second phase.
    TreePathC { budget: usize, topk: usize, snapshots: bool },
    /// The tree in one batch.
    TreeBatched { budget: usize, topk: usize },
    /// A chain.
    Chain,
}

/// The model-backed drafter. `S` is a snapshot of the target's recurrent state.
#[derive(Debug, PartialEq, Eq)]
pub struct DflashSpeculator<S> {
    pub block_size: usize,
    pub ctx_capacity: usize,
    pub ddtree: Option<DdtreeState>,
    pub path_c_mode: Option<PathC>,
    /// Snapshots along the prompt, with their places.
    pub checkpoints: Vec<(usize, S)>,
    pub resume_enabled: bool,
    pub ck_interval: usize,
    pub ck_cap: usize,
}

/// How a prompt is brought to the drafter.
#[derive(Debug, Clone, Copy, PartialEq, Eq)]
pub struct PrefillPlan {
    /// Whether what the drafter has of earlier prompts is dropped.
    pub reset_tracking: bool,
    /// Where in the conversation the new tokens begin; nothing where the target
    /// starts from the whole prompt.
    pub suffix_from: Option<usize>,
    /// The interval and the number of the snapshots that are taken on the way.
    pub checkpoints: Option<(usize, usize)>,
    /// The rows of hidden states that go to the drafter.
    pub scatter_off: usize,
    pub scatter_len: usize,
}

/// What the drafter has of the prompt afterwards.
#[derive(Debug, PartialEq, Eq)]
pub struct PromptRows {
    pub uploaded: usize,
    pub abs_positions: Vec<i32>,
    /// Up to where its projections stand; nothing where they stand as they did.
    pub cached: Option<usize>,
}

/// What going back to a checkpoint takes.
#[derive(Debug, PartialEq, Eq)]
pub struct Rewound<S> {
    /// The checkpoint that the target's state is put back to.
    pub restore: Option<usize>,
    /// The snapshots behind it, which are freed.
    pub dropped: Vec<S>,
}

/// Whether the last checkpoint at a place is `i`.
pub open spec fn last_at<S>(checkpoints: Seq<(usize, S)>, position: usize, i: int) -> bool {
    &&& 0 <= i < checkpoints.len()
    &&& checkpoints[i].0 == position
    &&& forall|j: int| i < j < checkpoints.len() ==> (#[trigger] checkpoints[j]).0 != position
}

/// The snapshots of some checkpoints.
pub open spec fn snapshots<S>(checkpoints: Seq<(usize, S)>) -> Seq<S> {
    checkpoints.map_values(|c: (usize, S)| c.1)
}

fn into_snapshots<S>(checkpoints: Vec<(usize, S)>) -> (out: Vec<S>)
    ensures
        out@ == snapshots(checkpoints@),
{
    let ghost all = checkpoints@;
    let mut rest = checkpoints;
    let mut reversed: Vec<S> = Vec::new();
    while rest.len() > 0
        invariant
            rest@.len() + reversed@.len() == all.len(),
            rest@ == all.subrange(0, rest@.len() as int),
            forall|i: int|
                0 <= i < reversed@.len() ==> #[trigger] reversed@[i] == all[all.len() - 1 - i].1,
        decreases rest@.len(),
    {
        let ghost n = rest@.len();
        match rest.pop() {
            Some(c) => {
                reversed.push(c.1);
            },
            None => {},
        }
        assert(rest@ =~= all.subrange(0, n - 1));
    }
    let mut out: Vec<S> = Vec::new();
    while reversed.len() > 0
        invariant
            out@.len() + reversed@.len() == all.len(),
            forall|i: int|
                0 <= i < reversed@.len() ==> #[trigger] reversed@[i] == all[all.len() - 1 - i].1,
            forall|i: int| 0 <= i < out@.len() ==> #[trigger] out@[i] == all[i].1,
        decreases reversed@.len(),
    {
        match reversed.pop() {
            Some(s) => {
                out.push(s);
            },
            None => {},
        }
    }
    assert(out@ =~= snapshots(all));
    out
}

impl<S> DflashSpeculator<S> {
    /// A drafter without checkpoints.
    pub fn new(
        df: DflashPlan,
        path_c_mode: Option<PathC>,
        resume_enabled: bool,
        ck_interval: usize,
        ck_cap: usize,
    ) -> (r: DflashSpeculator<S>)
        ensures
            r.block_size == df.block_size,
            r.ctx_capacity == df.ctx_capacity,
            r.ddtree == df.ddtree,
            r.path_c_mode == path_c_mode,
            r.checkpoints@.len() == 0,
            r.resume_enabled == resume_enabled,
            r.ck_interval == ck_interval,
            r.ck_cap == ck_cap,
    {
        DflashSpeculator {
            block_size: df.block_size,
            ctx_capacity: df.ctx_capacity,
            ddtree: df.ddtree,
            path_c_mode,
            checkpoints: Vec::new(),
            resume_enabled,
            ck_interval,
            ck_cap,
        }
    }

    /// How a prompt is brought to the drafter: whole, or with a cache hit the
    /// part of it from `prefill_start` on.
    pub fn prefill(
        &self,
        prompt_len: usize,
        prefill_len: usize,
        prefill_start: usize,
        cache_hit: bool,
    ) -> (r: PrefillPlan)
        ensures
            r.reset_tracking == !cache_hit,
            r.suffix_from == (if cache_hit {
                Some(prefill_start)
            } else {
                None
            }),
            r.checkpoints == (if self.resume_enabled {
                Some((self.ck_interval, self.ck_cap))
            } else {
                None
            }),
            cache_hit ==> r.scatter_off == prefill_start && r.scatter_len == prefill_len,
            !cache_hit ==> r.scatter_off == 0 && r.scatter_len == prompt_len,
    {
        PrefillPlan {
            reset_tracking: !cache_hit,
            suffix_from: if cache_hit {
                Some(prefill_start)
            } else {
                None
            },
            checkpoints: if self.resume_enabled {
                Some((self.ck_interval, self.ck_cap))
            } else {
                None
            },
            scatter_off: if cache_hit {
                prefill_start
            } else {
                0
            },
            scatter_len: if cache_hit {
                prefill_len
            } else {
                prompt_len
            },
        }
    }

    /// What the drafter has of the prompt afterwards: every row at its own
    /// place. After a resume its projections stand only up to there.
    pub fn prompt_rows(&self, prompt_len: usize, resume_from: Option<usize>) -> (r: PromptRows)
        requires
            prompt_len <= i32::MAX,
        ensures
            r.uploaded == prompt_len,
            r.abs_positions@ == Seq::new(prompt_len as nat, |i: int| i as i32),
            r.cached == resume_from,
    {
        let n: i32 = prompt_len as i32;
        let mut abs_positions: Vec<i32> = Vec::new();
        let mut i: i32 = 0;
        while i < n
            invariant
                0 <= i <= n,
                abs_positions@ == Seq::new(i as nat, |k: int| k as i32),
            decreases n - i,
        {
            abs_positions.push(i);
            i = i + 1;
            assert(abs_positions@ =~= Seq::new(i as nat, |k: int| k as i32));
        }
        PromptRows { uploaded: prompt_len, abs_positions, cached: resume_from }
    }

    /// Which of the drafter's kernels takes a step.
    pub fn step(&self) -> (r: StepRoute)
        ensures
            r == (match self.ddtree {
                Some(dd) => match self.path_c_mode {
                    Some(mode) => (StepRoute::TreePathC {
                        budget: dd.budget,
                        topk: dd.topk,
                        snapshots: mode == PathC::Phase2,
                    }),
                    None => (StepRoute::TreeBatched { budget: dd.budget, topk: dd.topk }),
                },
                None => StepRoute::Chain,
            }),
    {
        match self.ddtree {
            Some(dd) => match self.path_c_mode {
                Some(PathC::Phase1) => StepRoute::TreePathC {
                    budget: dd.budget,
                    topk: dd.topk,
                    snapshots: false,
                },
                Some(PathC::Phase2) => StepRoute::TreePathC {
                    budget: dd.budget,
                    topk: dd.topk,
                    snapshots: true,
                },
                None => StepRoute::TreeBatched { budget: dd.budget, topk: dd.topk },
            },
            None => StepRoute::Chain,
        }
    }

    /// Forgets the prompt: its snapshots are handed out to be freed.
    pub fn reset(&mut self) -> (freed: Vec<S>)
        ensures
            freed@ == snapshots(old(self).checkpoints@),
            final(self).checkpoints@.len() == 0,
            final(self).block_size == old(self).block_size,
            final(self).ctx_capacity == old(self).ctx_capacity,
            final(self).ddtree == old(self).ddtree,
            final(self).path_c_mode == old(self).path_c_mode,
            final(self).resume_enabled == old(self).resume_enabled,
            final(self).ck_interval == old(self).ck_interval,
            final(self).ck_cap == old(self).ck_cap,
    {
        let all = self.checkpoints.split_off(0);
        assert(all@ =~= old(self).checkpoints@);
        into_snapshots(all)
    }

    /// The places of the checkpoints.
    pub fn checkpoint_positions(&self) -> (out: Vec<usize>)
        ensures
            out@ == self.checkpoints@.map_values(|c: (usize, S)| c.0),
    {
        let mut out: Vec<usize> = Vec::new();
        let mut i: usize = 0;
        while i < self.checkpoints.len()
            invariant
                i <= self.checkpoints@.len(),
                out@.len() == i,
                forall|k: int| 0 <= k < i ==> #[trigger] out@[k] == self.checkpoints@[k].0,
            decreases self.checkpoints@.len() - i,
        {
            out.push(self.checkpoints[i].0);
            i = i + 1;
        }
        assert(out@ =~= self.checkpoints@.map_values(|c: (usize, S)| c.0));
        out
    }

    /// Goes back to the last checkpoint at a place, and drops those behind it.
    /// Without one nothing changes.
    pub fn rewind_to(&mut self, position: usize) -> (r: Rewound<S>)
        ensures
            match r.restore {
                Some(i) => {
                    &&& last_at(old(self).checkpoints@, position, i as int)
                    &&& final(self).checkpoints@ == old(self).checkpoints@.subrange(0, i + 1)
                    &&& r.dropped@ == snapshots(
                        old(self).checkpoints@.subrange(
                            i + 1,
                            old(self).checkpoints@.len() as int,
                        ),
                    )
                },
                None => {
                    &&& forall|i: int|
                        0 <= i < old(self).checkpoints@.len() ==> (#[trigger] old(self).checkpoints@[i]).0 != position
                    &&& final(self).checkpoints@ == old(self).checkpoints@
                    &&& r.dropped@.len() == 0
                },
            },
            final(self).block_size == old(self).block_size,
            final(self).ctx_capacity == old(self).ctx_capacity,
            final(self).ddtree == old(self).ddtree,
            final(self).path_c_mode == old(self).path_c_mode,
            final(self).resume_enabled == old(self).resume_enabled,
            final(self).ck_interval == old(self).ck_interval,
            final(self).ck_cap == old(self).ck_cap,
    {
        let mut i: usize = self.checkpoints.len();
        while i > 0
            invariant
                *self == *old(self),
                i <= self.checkpoints@.len(),
                forall|j: int|
                    i <= j < self.checkpoints@.len() ==> (#[trigger] self.checkpoints@[j]).0
                        != position,
            decreases i,
        {
            if self.checkpoints[i - 1].0 == position {
                let tail = self.checkpoints.split_off(i);
                return Rewound { restore: Some(i - 1), dropped: into_snapshots(tail) };
            }
            i = i - 1;
        }
        Rewound { restore: None, dropped: Vec::new() }
    }

    /// The snapshots to free with the drafter.
    pub fn free(self) -> (freed: Vec<S>)
        ensures
            freed@ == snapshots(self.checkpoints@),
    {
        into_snapshots(self.checkpoints)
    }
}

/// Going back twice to the same place is going back once: the second time the
/// checkpoint is the last one, and nothing is behind it.
pub proof fn rewinding_again_drops_nothing<S>(
    before: Seq<(usize, S)>,
    position: usize,
    i: int,
    j: int,
)
    requires
        last_at(before, position, i),
        last_at(before.subrange(0, i + 1), position, j),
    ensures
        j == i,
        before.subrange(0, i + 1).subrange(j + 1, i + 1).len() == 0,
{
    let kept = before.subrange(0, i + 1);
    if j < i {
        assert(kept[i].0 == position);
    }
}

/// A drafter's window as the generating loop takes it: all that was committed
/// after the seed.
pub fn lower_qwen35(committed: &Vec<u32>, bonus: u32, drafted: usize, accepted: usize) -> (r:
    SpecStep)
    requires
        committed@.len() > 0,
    ensures
        r.emit@ == committed@.subrange(1, committed@.len() as int),
        r.next_seed == bonus,
        r.drafted == drafted,
        r.accepted == accepted,
{
    SpecStep { emit: suffix(committed, 1), next_seed: bonus, drafted, accepted }
}

/// What the environment says of speculation.
#[derive(Debug, PartialEq, Eq)]
pub struct SpecSettings<'a> {
    pub path_c: Option<&'a str>,
    pub ckpt_resume: Option<&'a str>,
    pub ckpt_interval: Option<&'a str>,
    pub ckpt_max: Option<&'a str>,
    pub ngram_draft: Option<&'a str>,
    pub ngram_k: Option<&'a str>,
    pub ngram_min_count: Option<&'a str>,
}

/// The greater of two numbers.
pub open spec fn at_least(n: usize, low: usize) -> usize {
    if n < low {
        low
    } else {
        n
    }
}

/// How the tree is walked.
pub open spec fn path_c_of(setting: Option<Seq<char>>) -> Option<PathC> {
    if setting == Some("phase1"@) {
        Some(PathC::Phase1)
    } else if setting == Some("phase2"@) {
        Some(PathC::Phase2)
    } else {
        None
    }
}

/// The model-backed drafter as the environment wants it. It can resume at a
/// checkpoint unless that is switched off or keys are evicted.
pub fn build_dflash_speculator<S>(
    df: DflashPlan,
    eviction_is_none: bool,
    settings: &SpecSettings,
) -> (r: DflashSpeculator<S>)
    ensures
        r.block_size == df.block_size,
        r.ctx_capacity == df.ctx_capacity,
        r.ddtree == df.ddtree,
        r.path_c_mode == path_c_of(opt_str(settings.path_c)),
        r.checkpoints@.len() == 0,
        r.resume_enabled == (opt_str(settings.ckpt_resume) != Some("0"@) && eviction_is_none),
        r.ck_interval == at_least(setting_or(opt_str(settings.ckpt_interval), 2048), 256),
        r.ck_cap == at_least(setting_or(opt_str(settings.ckpt_max), 8), 1),
{
    proof {
        reveal_strlit("phase1");
        reveal_strlit("phase2");
        assert("phase1"@[5] != "phase2"@[5]);
    }
    let path_c_mode: Option<PathC> = match settings.path_c {
        Some(s) => if text::same(s, "phase1") {
            Some(PathC::Phase1)
        } else if text::same(s, "phase2") {
            Some(PathC::Phase2)
        } else {
            None
        },
        None => None,
    };
    let off: bool = match settings.ckpt_resume {
        Some(s) => text::same(s, "0"),
        None => false,
    };
    let interval: usize = size_setting(settings.ckpt_interval, 2048);
    let cap: usize = size_setting(settings.ckpt_max, 8);
    DflashSpeculator::new(
        df,
        path_c_mode,
        !off && eviction_is_none,
        if interval < 256 {
            256
        } else {
            interval
        },
        if cap < 1 {
            1
        } else {
            cap
        },
    )
}

/// The drafter of a model.
#[derive(Debug, PartialEq, Eq)]
pub enum SpeculatorChoice<S> {
    /// None: tokens come one by one.
    Plain,
    /// A draft model's.
    Dflash(DflashSpeculator<S>),
    /// One without a model.
    Ngram { block_size: usize, min_count: u32, ctx_capacity: usize },
}

/// Whether a target can be drafted for without a draft model.
pub open spec fn has_spec_target(arch_id: u32) -> bool {
    arch_id == 0 || arch_id == 1 || arch_id == 5 || arch_id == 6
}

/// How often a pair must have been followed by a token to be trusted.
pub open spec fn min_count_of(setting: Option<Seq<char>>) -> u32 {
    match setting {
        Some(s) => match parsed_number(s, u32::MAX as nat) {
            Some(n) => n as u32,
            None => 2,
        },
        None => 2,
    }
}

/// The drafter of a model: its draft model's where it has one, else one without
/// a model where that is asked for and the target allows it, else none.
pub fn build_speculator<S>(
    arch_id: u32,
    dflash: Option<DflashPlan>,
    eviction_is_none: bool,
    ctx_capacity: usize,
    settings: &SpecSettings,
) -> (r: SpeculatorChoice<S>)
    ensures
        match (r, dflash) {
            (SpeculatorChoice::Dflash(d), Some(df)) => {
                &&& d.block_size == df.block_size
                &&& d.ctx_capacity == df.ctx_capacity
                &&& d.ddtree == df.ddtree
                &&& d.path_c_mode == path_c_of(opt_str(settings.path_c))
                &&& d.checkpoints@.len() == 0
                &&& d.resume_enabled == (opt_str(settings.ckpt_resume) != Some("0"@)
                    && eviction_is_none)
                &&& d.ck_interval == at_least(
                    setting_or(opt_str(settings.ckpt_interval), 2048),
                    256,
                )
                &&& d.ck_cap == at_least(setting_or(opt_str(settings.ckpt_max), 8), 1)
            },
            (SpeculatorChoice::Ngram { block_size, min_count, ctx_capacity: c }, None) => {
                &&& opt_str(settings.ngram_draft) == Some("1"@) && has_spec_target(arch_id)
                &&& block_size == at_least(setting_or(opt_str(settings.ngram_k), 8), 2)
                &&& min_count == min_count_of(opt_str(settings.ngram_min_count))
                &&& c == ctx_capacity
            },
            (SpeculatorChoice::Plain, None) => !(opt_str(settings.ngram_draft) == Some("1"@)
                && has_spec_target(arch_id)),
            _ => false,
        },
{
    match dflash {
        Some(df) => {
            return SpeculatorChoice::Dflash(
                build_dflash_speculator(df, eviction_is_none, settings),
            );
        },
        None => {},
    }
    let asked: bool = match settings.ngram_draft {
        Some(s) => text::same(s, "1"),
        None => false,
    };
    if asked && (arch_id == 0 || arch_id == 1 || arch_id == 5 || arch_id == 6) {
        let k: usize = size_setting(settings.ngram_k, 8);
        let min_count: u32 = match settings.ngram_min_count {
            Some(s) => match text::parse_number(s, u32::MAX as u64) {
                Some(n) => n as u32,
                None => 2,
            },
            None => 2,
        };
        return SpeculatorChoice::Ngram {
            block_size: if k < 2 {
                2
            } else {
                k
            },
            min_count,
            ctx_capacity,
        };
    }
    SpeculatorChoice::Plain
}

/// Speculation without a draft model has a target exactly in the architectures of
/// the Llama and the Qwen3.5 carrier.
pub proof fn spec_targets_are_carried(arch_id: u32, is_dir: bool)
    ensures
        has_spec_target(arch_id) <==> LlamaCarrier.claims(arch_id, is_dir)
            || Qwen35Carrier.claims(arch_id, is_dir),
{
}

/// A count of decimal digits is that number; without one, or with a text that is
/// none, a pair must have been followed twice.
pub proof fn counts_are_numbers(n: nat, other: Seq<char>)
    requires
        n <= u32::MAX,
    ensures
        min_count_of(Some(crate::text::decimal(n))) == n,
        min_count_of(None) == 2,
        parsed_number(other, u32::MAX as nat) is None ==> min_count_of(Some(other)) == 2,
{
    crate::text::decimal_reads_back(n, u32::MAX as nat);
}

/// A number below a bound is the bound, any other is kept; and each way of
/// walking the tree has its own name.
pub proof fn settings_are_kept(n: usize, low: usize, setting: Option<Seq<char>>)
    ensures
        at_least(n, low) >= low && at_least(n, low) >= n,
        at_least(n, low) == n || at_least(n, low) == low,
        path_c_of(setting) == Some(PathC::Phase1) <==> setting == Some("phase1"@),
        path_c_of(setting) == Some(PathC::Phase2) <==> setting == Some("phase2"@),
{
    reveal_strlit("phase1");
    reveal_strlit("phase2");
    assert("phase1"@[5] == '1' && "phase2"@[5] == '2');
}

} // verus!
