//! Drafting without a model: a continuation is looked up in the context or
//! chained from pairs of tokens, and the target's own picks decide how much of
//! it stands.

use crate::batch::{ceil_div, chunk_at, prefill_chunks};
use crate::draft::{is_power_of_two, next_power_of_two};
use vstd::prelude::*;

verus! {

/// How the context is searched for its own ending.
#[derive(Debug, PartialEq, Eq)]
pub struct PldMatcher {
    /// The lengths of the endings that are looked for, in order.
    pub ngram_lens: Vec<usize>,
    pub max_extract: usize,
    pub min_extract: usize,
}

/// The device scratch of the verifying pass.
#[derive(Debug, Clone, Copy, PartialEq, Eq, Structural)]
pub struct VerifyShape {
    /// The tokens of the largest block.
    pub max_n: usize,
    pub dim: usize,
    pub vocab: usize,
    /// The width of the hidden states, rounded up to a power of two.
    pub hidden_k: usize,
    /// The layers whose hidden states are extracted.
    pub num_extract: usize,
    pub ctx_capacity: usize,
}

/// A drafter without a model.
#[derive(Debug, PartialEq, Eq)]
pub struct NgramSpeculator {
    /// The tokens of a block, the seed among them.
    pub block_size: usize,
    pub ctx_capacity: usize,
    /// How often a pair must have been followed by a token to be trusted.
    pub min_count: u32,
    /// The prompt, which is searched together with what was emitted.
    pub prompt: Vec<u32>,
}

/// The tokens that follow a pair, each predicted from the two before it, up to
/// `n` of them.
pub open spec fn chained(
    predict: spec_fn(u32, u32) -> Option<u32>,
    a: u32,
    b: u32,
    n: nat,
) -> Seq<u32>
    decreases n,
{
    if n == 0 {
        Seq::empty()
    } else {
        match predict(a, b) {
            Some(c) => seq![c] + chained(predict, b, c, (n - 1) as nat),
            None => Seq::empty(),
        }
    }
}

/// The first `n` of some tokens, or all of them.
pub open spec fn first(tokens: Seq<u32>, n: nat) -> Seq<u32> {
    if tokens.len() <= n {
        tokens
    } else {
        tokens.subrange(0, n as int)
    }
}

/// A draft: what the context's ending was followed by elsewhere in it, else the
/// chain from its last two tokens.
pub open spec fn draft_of(
    max_draft: nat,
    ctx: Seq<u32>,
    matched: Option<Seq<u32>>,
    predict: spec_fn(u32, u32) -> Option<u32>,
) -> Seq<u32> {
    if matched is Some && first(matched->Some_0, max_draft).len() > 0 {
        first(matched->Some_0, max_draft)
    } else if ctx.len() >= 2 {
        chained(predict, ctx[ctx.len() - 2], ctx[ctx.len() - 1], max_draft)
    } else {
        Seq::empty()
    }
}

/// What an answer leaves of a draft in the making: the follower is added and the
/// next pair ends with it; without a follower nothing more is wanted.
pub open spec fn answered(before: DraftChain, after: DraftChain, follower: Option<u32>) -> bool {
    match follower {
        Some(c) => {
            &&& after.draft@ == before.draft@.push(c)
            &&& after.left == before.left - 1
            &&& after.pair == Some((before.pair->Some_0.1, c))
        },
        None => after.draft@ == before.draft@ && after.pair is None,
    }
}

/// A draft in the making.
#[derive(Debug, PartialEq, Eq)]
pub struct DraftChain {
    pub draft: Vec<u32>,
    /// How many tokens may yet be added.
    pub left: usize,
    /// The pair whose follower is wanted next.
    pub pair: Option<(u32, u32)>,
}

impl DraftChain {
    /// The draft that comes out where the followers are those of `predict`.
    pub open spec fn completed(&self, predict: spec_fn(u32, u32) -> Option<u32>) -> Seq<u32> {
        self.draft@ + match self.pair {
            Some(p) => chained(predict, p.0, p.1, self.left as nat),
            None => Seq::empty(),
        }
    }

    /// The pair whose follower is wanted; nothing where the draft is complete.
    pub fn wants(&self) -> (r: Option<(u32, u32)>)
        ensures
            r == (if self.left > 0 {
                self.pair
            } else {
                None
            }),
            r is None ==> forall|predict: spec_fn(u32, u32) -> Option<u32>|
                #[trigger] self.completed(predict) == self.draft@,
    {
        proof {
            if self.left == 0 || self.pair is None {
                assert forall|predict: spec_fn(u32, u32) -> Option<u32>| #[trigger]
                    self.completed(predict) == self.draft@ by {
                    assert(self.completed(predict) =~= self.draft@);
                }
            }
        }
        if self.left > 0 {
            self.pair
        } else {
            None
        }
    }

    /// Takes the follower of the pair that was wanted, or that it has none.
    pub fn answer(&mut self, follower: Option<u32>)
        requires
            old(self).left > 0,
            old(self).pair is Some,
        ensures
            forall|predict: spec_fn(u32, u32) -> Option<u32>|
                predict(old(self).pair->Some_0.0, old(self).pair->Some_0.1) == follower
                    ==> #[trigger] final(self).completed(predict) == old(self).completed(predict),
            answered(*old(self), *final(self), follower),
    {
        let ghost before = *self;
        match follower {
            Some(c) => {
                let last: u32 = match self.pair {
                    Some(p) => p.1,
                    None => c,
                };
                self.draft.push(c);
                self.pair = Some((last, c));
                self.left = self.left - 1;
            },
            None => {
                self.pair = None;
            },
        }
        proof {
            assert forall|predict: spec_fn(u32, u32) -> Option<u32>|
                predict(
                    before.pair->Some_0.0,
                    before.pair->Some_0.1,
                ) == follower implies #[trigger] self.completed(predict) == before.completed(
                predict,
            ) by {
                assert(self.completed(predict) =~= before.completed(predict));
            }
        }
    }
}

/// Whether the target's picks agree with exactly the first `n` drafts: with
/// those, and with no more.
pub open spec fn is_accepted(draft: Seq<u32>, picks: Seq<u32>, n: nat) -> bool {
    &&& n <= draft.len()
    &&& forall|i: int| 0 <= i < n ==> draft[i] == #[trigger] picks[i]
    &&& n < draft.len() ==> draft[n as int] != picks[n as int]
}

/// What a step hands to the generating loop.
#[derive(Debug, PartialEq, Eq)]
pub struct SpecStep {
    pub emit: Vec<u32>,
    pub next_seed: u32,
    pub drafted: usize,
    pub accepted: usize,
}

pub(crate) fn prefix(tokens: &Vec<u32>, n: usize) -> (out: Vec<u32>)
    requires
        n <= tokens@.len(),
    ensures
        out@ == tokens@.subrange(0, n as int),
{
    let mut out: Vec<u32> = Vec::new();
    let mut i: usize = 0;
    while i < n
        invariant
            i <= n,
            n <= tokens@.len(),
            out@ == tokens@.subrange(0, i as int),
        decreases n - i,
    {
        out.push(tokens[i]);
        i = i + 1;
        assert(out@ =~= tokens@.subrange(0, i as int));
    }
    out
}

pub(crate) fn suffix(tokens: &Vec<u32>, n: usize) -> (out: Vec<u32>)
    requires
        n <= tokens@.len(),
    ensures
        out@ == tokens@.subrange(n as int, tokens@.len() as int),
{
    let mut out: Vec<u32> = Vec::new();
    let mut i: usize = n;
    while i < tokens.len()
        invariant
            n <= i <= tokens@.len(),
            out@ == tokens@.subrange(n as int, i as int),
        decreases tokens.len() - i,
    {
        out.push(tokens[i]);
        i = i + 1;
        assert(out@ =~= tokens@.subrange(n as int, i as int));
    }
    out
}

/// How many drafts stand, and the target's own pick after them.
fn verdict(draft: &Vec<u32>, picks: &Vec<u32>) -> (r: (usize, u32))
    requires
        picks@.len() == draft@.len() + 1,
    ensures
        is_accepted(draft@, picks@, r.0 as nat),
        r.1 == picks@[r.0 as int],
{
    let mut n: usize = 0;
    while n < draft.len() && picks[n] == draft[n]
        invariant
            picks@.len() == draft@.len() + 1,
            n <= draft@.len(),
            forall|i: int| 0 <= i < n ==> draft@[i] == #[trigger] picks@[i],
        decreases draft@.len() - n,
    {
        n = n + 1;
    }
    (n, picks[n])
}

/// Where a chunk of a prompt lies among the tokens, and its place in the
/// conversation.
#[derive(Debug, Clone, Copy, PartialEq, Eq, Structural)]
pub struct PromptChunk {
    pub start: usize,
    pub end: usize,
    pub pos: usize,
}

/// The chunks in which `n` tokens from `start_pos` on go through the target.
pub fn prompt_chunks(n: usize, start_pos: usize, chunk_max: usize) -> (out: Vec<PromptChunk>)
    requires
        0 < chunk_max,
        start_pos + n <= usize::MAX,
    ensures
        out@.len() == ceil_div(n as int, chunk_max as int),
        forall|i: int|
            0 <= i < out@.len() ==> {
                let c = chunk_at(n as int, chunk_max as int, i);
                &&& (#[trigger] out@[i]).start == c.0
                &&& out@[i].end == c.0 + c.1
                &&& out@[i].pos == start_pos + c.0
            },
{
    let chunks = prefill_chunks(n, chunk_max);
    proof {
        crate::batch::chunks_tile_the_prompt(n as int, chunk_max as int);
        chunks_within(n as int, chunk_max as int);
    }
    let mut out: Vec<PromptChunk> = Vec::new();
    let mut i: usize = 0;
    while i < chunks.len()
        invariant
            i <= chunks@.len(),
            start_pos + n <= usize::MAX,
            out@.len() == i,
            chunks@.len() == ceil_div(n as int, chunk_max as int),
            forall|k: int|
                0 <= k < ceil_div(n as int, chunk_max as int) ==> {
                    let c = #[trigger] chunk_at(n as int, chunk_max as int, k);
                    0 <= c.0 && 0 < c.1 && c.0 + c.1 <= n
                },
            forall|k: int|
                0 <= k < chunks@.len() ==> {
                    let c = chunk_at(n as int, chunk_max as int, k);
                    (#[trigger] chunks@[k]).0 == c.0 && chunks@[k].1 == c.1
                },
            forall|k: int|
                0 <= k < i ==> {
                    let c = chunk_at(n as int, chunk_max as int, k);
                    &&& (#[trigger] out@[k]).start == c.0
                    &&& out@[k].end == c.0 + c.1
                    &&& out@[k].pos == start_pos + c.0
                },
        decreases chunks@.len() - i,
    {
        let (start, len) = chunks[i];
        assert(chunk_at(n as int, chunk_max as int, i as int) == (start as int, len as int));
        out.push(PromptChunk { start, end: start + len, pos: start_pos + start });
        i = i + 1;
    }
    out
}

proof fn chunks_within(n: int, chunk: int)
    requires
        0 <= n,
        0 < chunk,
    ensures
        forall|k: int|
            0 <= k < ceil_div(n, chunk) ==> {
                let c = #[trigger] chunk_at(n, chunk, k);
                0 <= c.0 && 0 < c.1 && c.0 + c.1 <= n
            },
{
    crate::batch::chunks_tile_the_prompt(n, chunk);
    assert forall|k: int| 0 <= k < ceil_div(n, chunk) implies {
        let c = #[trigger] chunk_at(n, chunk, k);
        0 <= c.0 && 0 < c.1 && c.0 + c.1 <= n
    } by {
        assert(0 <= k * chunk) by (nonlinear_arith)
            requires
                0 <= k,
                0 < chunk,
        ;
    }
}

/// What a step waits for.
#[derive(Debug, Clone, Copy, PartialEq, Eq, Structural)]
pub enum NgramStage {
    /// What the context's ending was followed by elsewhere in it.
    Lookup,
    /// The follower of a pair.
    Chain,
    /// A copy of the target's recurrent state.
    Save,
    /// The target's picks behind the seed and the draft.
    Verify,
    /// The target's state as it was before.
    Restore,
    /// The pass over what stands.
    Replay,
    /// That the pairs of what was committed are learnt.
    Observe,
    /// Nothing: the step is over.
    Nothing,
}

/// What came of what a step asked for.
#[derive(Debug, PartialEq, Eq)]
pub enum NgramEvent {
    Matched(Option<Vec<u32>>),
    Follower(Option<u32>),
    Picked(Vec<u32>),
    Done,
    Failed(String),
}

/// What a step asks for.
#[derive(Debug, PartialEq, Eq)]
pub enum NgramAction {
    /// What the context's ending was followed by elsewhere in it.
    Lookup { context: Vec<u32> },
    /// What most often follows a pair.
    Follow { a: u32, b: u32 },
    /// Copy the target's recurrent state.
    Save,
    /// The target's pick behind each token of a block.
    Verify { block: Vec<u32>, position: usize },
    /// Put the target's recurrent state back.
    Restore,
    /// Run the target over tokens again.
    Replay { tokens: Vec<u32>, position: usize },
    /// Learn the pairs and their followers.
    Observe { tokens: Vec<u32> },
    /// Nothing more: this is handed to the generating loop.
    Emit(SpecStep),
    /// Nothing more: this went wrong.
    Stop(String),
}

/// What a step asks for, in terms of sequences.
pub enum NgramActionV {
    Lookup(Seq<u32>),
    Follow(u32, u32),
    Save,
    Verify(Seq<u32>, usize),
    Restore,
    Replay(Seq<u32>, usize),
    Observe(Seq<u32>),
    Emit(Seq<u32>, u32, int, int),
    Stop(Seq<char>),
}

impl View for NgramAction {
    type V = NgramActionV;

    open spec fn view(&self) -> NgramActionV {
        match self {
            NgramAction::Lookup { context } => NgramActionV::Lookup(context@),
            NgramAction::Follow { a, b } => NgramActionV::Follow(*a, *b),
            NgramAction::Save => NgramActionV::Save,
            NgramAction::Verify { block, position } => NgramActionV::Verify(block@, *position),
            NgramAction::Restore => NgramActionV::Restore,
            NgramAction::Replay { tokens, position } => NgramActionV::Replay(tokens@, *position),
            NgramAction::Observe { tokens } => NgramActionV::Observe(tokens@),
            NgramAction::Emit(s) => NgramActionV::Emit(
                s.emit@,
                s.next_seed,
                s.drafted as int,
                s.accepted as int,
            ),
            NgramAction::Stop(e) => NgramActionV::Stop(e@),
        }
    }
}

/// A step in the making.
#[derive(Debug, PartialEq, Eq)]
pub struct NgramRun {
    pub position: usize,
    pub seed: u32,
    /// The prompt and what was emitted.
    pub context: Vec<u32>,
    pub chain: DraftChain,
    /// How many drafts stand, and the target's pick after them, once it is known.
    pub accepted: usize,
    pub bonus: u32,
    pub stage: NgramStage,
}

/// Whether an event answers what a step waits for.
pub open spec fn answers(event: NgramEvent, run: NgramRun) -> bool {
    match event {
        NgramEvent::Matched(_) => run.stage == NgramStage::Lookup,
        NgramEvent::Follower(_) => run.stage == NgramStage::Chain,
        NgramEvent::Picked(picks) => run.stage == NgramStage::Verify && picks@.len()
            == run.chain.draft@.len() + 1,
        NgramEvent::Done => run.stage == NgramStage::Save || run.stage == NgramStage::Restore
            || run.stage == NgramStage::Replay || run.stage == NgramStage::Observe,
        NgramEvent::Failed(_) => run.stage == NgramStage::Save || run.stage == NgramStage::Verify
            || run.stage == NgramStage::Restore || run.stage == NgramStage::Replay,
    }
}

/// The tokens from which pairs and their followers are learnt after a window:
/// what it committed after the seed, and the two tokens before.
pub open spec fn learnt(context: Seq<u32>, draft: Seq<u32>, accepted: int, bonus: u32) -> Seq<u32> {
    context.subrange(
        if context.len() >= 2 {
            context.len() - 2
        } else {
            0
        },
        context.len() as int,
    ) + draft.subrange(0, accepted) + seq![bonus]
}

/// What a step asks for where its draft is as far as it is.
pub open spec fn drafting(chain: DraftChain) -> (NgramActionV, NgramStage) {
    if chain.left > 0 && chain.pair is Some {
        (
            NgramActionV::Follow(chain.pair->Some_0.0, chain.pair->Some_0.1),
            NgramStage::Chain,
        )
    } else {
        (NgramActionV::Save, NgramStage::Save)
    }
}

/// What a step asks for after an event, and what it waits for then, where `run`
/// is how the event leaves the draft and its verdict.
pub open spec fn reaction(run: NgramRun, waited: NgramStage, event: NgramEvent) -> (
    NgramActionV,
    NgramStage,
) {
    let draft = run.chain.draft@;
    let accepted = run.accepted as int;
    match event {
        NgramEvent::Matched(_) => drafting(run.chain),
        NgramEvent::Follower(_) => drafting(run.chain),
        NgramEvent::Picked(_) => if accepted < draft.len() {
            (NgramActionV::Restore, NgramStage::Restore)
        } else {
            (
                NgramActionV::Observe(learnt(run.context@, draft, accepted, run.bonus)),
                NgramStage::Observe,
            )
        },
        NgramEvent::Done => if waited == NgramStage::Save {
            (NgramActionV::Verify(seq![run.seed] + draft, run.position), NgramStage::Verify)
        } else if waited == NgramStage::Restore {
            (
                NgramActionV::Replay(
                    seq![run.seed] + draft.subrange(0, accepted),
                    run.position,
                ),
                NgramStage::Replay,
            )
        } else if waited == NgramStage::Replay {
            (
                NgramActionV::Observe(learnt(run.context@, draft, accepted, run.bonus)),
                NgramStage::Observe,
            )
        } else {
            (
                NgramActionV::Emit(
                    draft.subrange(0, accepted) + seq![run.bonus],
                    run.bonus,
                    draft.len() as int,
                    accepted,
                ),
                NgramStage::Nothing,
            )
        },
        NgramEvent::Failed(e) => (NgramActionV::Stop(e@), NgramStage::Nothing),
    }
}

/// What an event leaves of the draft and its verdict.
pub open spec fn draft_after(
    block_size: usize,
    before: NgramRun,
    after: NgramRun,
    event: NgramEvent,
) -> bool {
    match event {
        NgramEvent::Matched(matched) => forall|predict: spec_fn(u32, u32) -> Option<u32>|
            #[trigger] after.chain.completed(predict) == draft_of(
                (block_size - 1) as nat,
                before.context@,
                match matched {
                    Some(m) => Some(m@),
                    None => None,
                },
                predict,
            ),
        NgramEvent::Follower(follower) => {
            &&& answered(before.chain, after.chain, follower)
            &&& forall|predict: spec_fn(u32, u32) -> Option<u32>|
                predict(before.chain.pair->Some_0.0, before.chain.pair->Some_0.1) == follower
                    ==> #[trigger] after.chain.completed(predict) == before.chain.completed(
                    predict,
                )
        },
        NgramEvent::Picked(picks) => {
            &&& after.chain == before.chain
            &&& is_accepted(before.chain.draft@, picks@, after.accepted as nat)
            &&& after.bonus == picks@[after.accepted as int]
        },
        _ => after.chain == before.chain && after.accepted == before.accepted && after.bonus
            == before.bonus,
    }
}

impl NgramRun {
    /// A follower is waited for only where one is wanted, and no more drafts
    /// stand than there are.
    pub open spec fn wf(&self) -> bool {
        &&& self.stage == NgramStage::Chain ==> self.chain.left > 0 && self.chain.pair is Some
        &&& self.accepted <= self.chain.draft@.len()
        &&& self.stage == NgramStage::Restore || self.stage == NgramStage::Replay ==> self.accepted
            < self.chain.draft@.len()
    }

    fn ask(&mut self) -> (action: NgramAction)
        requires
            old(self).accepted <= old(self).chain.draft@.len(),
        ensures
            action@ == drafting(old(self).chain).0,
            *final(self) == (NgramRun { stage: drafting(old(self).chain).1, ..*old(self) }),
            final(self).wf(),
    {
        match self.chain.wants() {
            Some((a, b)) => {
                self.stage = NgramStage::Chain;
                NgramAction::Follow { a, b }
            },
            None => {
                self.stage = NgramStage::Save;
                NgramAction::Save
            },
        }
    }

    fn observe(&self) -> (tokens: Vec<u32>)
        requires
            self.accepted <= self.chain.draft@.len(),
        ensures
            tokens@ == learnt(self.context@, self.chain.draft@, self.accepted as int, self.bonus),
    {
        let n: usize = self.context.len();
        let mut tokens = suffix(
            &self.context,
            if n >= 2 {
                n - 2
            } else {
                0
            },
        );
        let mut kept = prefix(&self.chain.draft, self.accepted);
        tokens.append(&mut kept);
        tokens.push(self.bonus);
        assert(tokens@ =~= learnt(
            self.context@,
            self.chain.draft@,
            self.accepted as int,
            self.bonus,
        ));
        tokens
    }

    fn block(&self, n: usize) -> (tokens: Vec<u32>)
        requires
            n <= self.chain.draft@.len(),
        ensures
            tokens@ == seq![self.seed] + self.chain.draft@.subrange(0, n as int),
    {
        let mut tokens: Vec<u32> = Vec::new();
        tokens.push(self.seed);
        let mut head = prefix(&self.chain.draft, n);
        tokens.append(&mut head);
        assert(tokens@ =~= seq![self.seed] + self.chain.draft@.subrange(0, n as int));
        tokens
    }

    /// Takes what came of what the step asked for: what it asks for next.
    pub fn advance(&mut self, spec: &NgramSpeculator, event: NgramEvent) -> (action: NgramAction)
        requires
            old(self).wf(),
            spec.block_size > 0,
            answers(event, *old(self)),
        ensures
            final(self).wf(),
            final(self).position == old(self).position,
            final(self).seed == old(self).seed,
            final(self).context == old(self).context,
            draft_after(spec.block_size, *old(self), *final(self), event),
            action@ == reaction(*final(self), old(self).stage, event).0,
            final(self).stage == reaction(*final(self), old(self).stage, event).1,
    {
        match event {
            NgramEvent::Matched(matched) => {
                self.chain = spec.build_draft(&self.context, matched);
                self.accepted = 0;
                self.ask()
            },
            NgramEvent::Follower(follower) => {
                self.chain.answer(follower);
                self.ask()
            },
            NgramEvent::Picked(picks) => {
                let (accepted, bonus) = verdict(&self.chain.draft, &picks);
                self.accepted = accepted;
                self.bonus = bonus;
                if accepted < self.chain.draft.len() {
                    self.stage = NgramStage::Restore;
                    NgramAction::Restore
                } else {
                    self.stage = NgramStage::Observe;
                    NgramAction::Observe { tokens: self.observe() }
                }
            },
            NgramEvent::Done => match self.stage {
                NgramStage::Save => {
                    self.stage = NgramStage::Verify;
                    let block = self.block(self.chain.draft.len());
                    assert(block@ =~= seq![self.seed] + self.chain.draft@);
                    NgramAction::Verify { block, position: self.position }
                },
                NgramStage::Restore => {
                    self.stage = NgramStage::Replay;
                    NgramAction::Replay {
                        tokens: self.block(self.accepted),
                        position: self.position,
                    }
                },
                NgramStage::Replay => {
                    self.stage = NgramStage::Observe;
                    NgramAction::Observe { tokens: self.observe() }
                },
                _ => {
                    self.stage = NgramStage::Nothing;
                    let mut emit = prefix(&self.chain.draft, self.accepted);
                    emit.push(self.bonus);
                    assert(emit@ =~= self.chain.draft@.subrange(0, self.accepted as int)
                        + seq![self.bonus]);
                    NgramAction::Emit(
                        SpecStep {
                            emit,
                            next_seed: self.bonus,
                            drafted: self.chain.draft.len(),
                            accepted: self.accepted,
                        },
                    )
                },
            },
            NgramEvent::Failed(e) => {
                self.stage = NgramStage::Nothing;
                NgramAction::Stop(e)
            },
        }
    }
}

/// How a prompt goes through the target.
#[derive(Debug, PartialEq, Eq)]
pub struct NgramPrefill {
    chunks: Vec<PromptChunk>,
    next: usize,
}

/// What a prefill asks for.
#[derive(Debug, Clone, Copy, PartialEq, Eq, Structural)]
pub enum PrefillStep {
    /// Forget the target's state; nothing more: the caller gave up.
    Aborted,
    /// The target's pass over a chunk.
    Forward(PromptChunk),
    /// Learn the prompt's pairs; nothing more: the pick after the last pass is
    /// the first token.
    Ready,
}

impl NgramPrefill {
    /// The passes, in order.
    pub closed spec fn passes(&self) -> Seq<PromptChunk> {
        self.chunks@
    }

    /// How many passes have been asked for.
    pub closed spec fn taken(&self) -> nat {
        self.next as nat
    }

    /// The next pass, unless the caller gives up. Once all passes are done there
    /// is nothing left to give up, and the drafter keeps the prompt.
    pub fn step(&mut self, spec: &mut NgramSpeculator, prompt: &Vec<u32>, abort: bool) -> (r:
        PrefillStep)
        ensures
            final(self).passes() == old(self).passes(),
            final(spec).block_size == old(spec).block_size,
            final(spec).ctx_capacity == old(spec).ctx_capacity,
            final(spec).min_count == old(spec).min_count,
            old(self).taken() >= old(self).passes().len() ==> r is Ready && final(spec).prompt@
                == prompt@ && final(self).taken() == old(self).taken(),
            old(self).taken() < old(self).passes().len() ==> *final(spec) == *old(spec),
            old(self).taken() < old(self).passes().len() && abort ==> r is Aborted
                && final(self).taken() == old(self).taken(),
            old(self).taken() < old(self).passes().len() && !abort ==> r == PrefillStep::Forward(
                old(self).passes()[old(self).taken() as int],
            ) && final(self).taken() == old(self).taken() + 1,
    {
        if self.next >= self.chunks.len() {
            let mut kept: Vec<u32> = Vec::new();
            kept.extend_from_slice(prompt.as_slice());
            assert(kept@ =~= prompt@);
            spec.prompt = kept;
            return PrefillStep::Ready;
        }
        if abort {
            return PrefillStep::Aborted;
        }
        let chunk: PromptChunk = self.chunks[self.next];
        self.next = self.next + 1;
        PrefillStep::Forward(chunk)
    }
}

impl NgramSpeculator {
    /// A drafter of blocks of `block_size`, or of two where that is less.
    pub fn new(ctx_capacity: usize, block_size: usize, min_count: u32) -> (r: NgramSpeculator)
        ensures
            r.block_size == (if block_size < 2 {
                2
            } else {
                block_size
            }),
            r.ctx_capacity == ctx_capacity,
            r.min_count == min_count,
            r.prompt@.len() == 0,
    {
        NgramSpeculator {
            block_size: if block_size < 2 {
                2
            } else {
                block_size
            },
            ctx_capacity,
            min_count,
            prompt: Vec::new(),
        }
    }

    /// The device scratch for a target. No hidden states are extracted.
    pub fn scratch(&self, dim: usize, vocab: usize) -> (r: VerifyShape)
        requires
            2 * dim <= usize::MAX,
        ensures
            r.max_n == self.block_size,
            r.dim == dim,
            r.vocab == vocab,
            is_power_of_two(r.hidden_k as int),
            dim <= r.hidden_k,
            dim > 0 ==> r.hidden_k < 2 * dim,
            dim == 0 ==> r.hidden_k == 1,
            r.num_extract == 0,
            r.ctx_capacity == self.ctx_capacity,
    {
        VerifyShape {
            max_n: self.block_size,
            dim,
            vocab,
            hidden_k: next_power_of_two(dim),
            num_extract: 0,
            ctx_capacity: self.ctx_capacity,
        }
    }

    /// How the context is searched: for endings of five, four and three tokens,
    /// of which even one following token is taken.
    pub fn matcher(&self) -> (r: PldMatcher)
        requires
            self.block_size > 0,
        ensures
            r.ngram_lens@ == seq![5usize, 4, 3],
            r.max_extract == self.block_size - 1,
            r.min_extract == 1,
    {
        let mut ngram_lens: Vec<usize> = Vec::new();
        ngram_lens.push(5);
        ngram_lens.push(4);
        ngram_lens.push(3);
        assert(ngram_lens@ =~= seq![5usize, 4, 3]);
        PldMatcher { ngram_lens, max_extract: self.block_size - 1, min_extract: 1 }
    }

    /// Begins a draft after a context of which `matched` is what its ending was
    /// followed by elsewhere in it.
    pub fn build_draft(&self, ctx: &Vec<u32>, matched: Option<Vec<u32>>) -> (r: DraftChain)
        requires
            self.block_size > 0,
        ensures
            forall|predict: spec_fn(u32, u32) -> Option<u32>|
                #[trigger] r.completed(predict) == draft_of(
                    (self.block_size - 1) as nat,
                    ctx@,
                    match matched {
                        Some(m) => Some(m@),
                        None => None,
                    },
                    predict,
                ),
    {
        let max_draft: usize = self.block_size - 1;
        match &matched {
            Some(m) => {
                let n: usize = if m.len() <= max_draft {
                    m.len()
                } else {
                    max_draft
                };
                if n > 0 {
                    let draft = prefix(m, n);
                    assert(draft@ =~= first(m@, max_draft as nat));
                    let r = DraftChain { draft, left: 0, pair: None };
                    proof {
                        assert forall|predict: spec_fn(u32, u32) -> Option<u32>| #[trigger]
                            r.completed(predict) == first(m@, max_draft as nat) by {
                            assert(r.completed(predict) =~= first(m@, max_draft as nat));
                        }
                    }
                    return r;
                }
            },
            None => {},
        }
        let n: usize = ctx.len();
        let r = DraftChain {
            draft: Vec::new(),
            left: max_draft,
            pair: if n >= 2 {
                Some((ctx[n - 2], ctx[n - 1]))
            } else {
                None
            },
        };
        proof {
            let found: Option<Seq<u32>> = match matched {
                Some(m) => Some(m@),
                None => None,
            };
            assert forall|predict: spec_fn(u32, u32) -> Option<u32>| #[trigger]
                r.completed(predict) == draft_of(
                    max_draft as nat,
                    ctx@,
                    found,
                    predict,
                ) by {
                assert(r.completed(predict) =~= draft_of(max_draft as nat, ctx@, found, predict));
            }
        }
        r
    }

    /// Begins a prefill of `n` tokens: from `prefill_start` on with a cache hit,
    /// else from the beginning of a conversation. Whether the target's state is
    /// forgotten first.
    pub fn prefill(
        &self,
        n: usize,
        prefill_start: usize,
        cache_hit: bool,
        chunk_max: usize,
    ) -> (r: (NgramPrefill, bool))
        requires
            0 < chunk_max,
            cache_hit ==> prefill_start + n <= usize::MAX,
        ensures
            r.1 == !cache_hit,
            r.0.taken() == 0,
            r.0.passes().len() == ceil_div(n as int, chunk_max as int),
            forall|i: int|
                0 <= i < r.0.passes().len() ==> {
                    let c = chunk_at(n as int, chunk_max as int, i);
                    &&& (#[trigger] r.0.passes()[i]).start == c.0
                    &&& r.0.passes()[i].end == c.0 + c.1
                    &&& r.0.passes()[i].pos == c.0 + (if cache_hit {
                        prefill_start as int
                    } else {
                        0
                    })
                },
    {
        let from: usize = if cache_hit {
            prefill_start
        } else {
            0
        };
        (NgramPrefill { chunks: prompt_chunks(n, from, chunk_max), next: 0 }, !cache_hit)
    }

    /// Begins a step at a seed: the context is the prompt and what was emitted,
    /// and its ending is looked for in it first.
    pub fn step(&self, position: usize, seed: u32, emitted: &Vec<u32>) -> (r: (
        NgramRun,
        NgramAction,
    ))
        ensures
            r.0.wf(),
            r.0.position == position,
            r.0.seed == seed,
            r.0.context@ == self.prompt@ + emitted@,
            r.0.stage == NgramStage::Lookup,
            r.1@ == NgramActionV::Lookup(self.prompt@ + emitted@),
    {
        let context = self.context(emitted);
        let copy = self.context(emitted);
        let run = NgramRun {
            position,
            seed,
            context,
            chain: DraftChain { draft: Vec::new(), left: 0, pair: None },
            accepted: 0,
            bonus: seed,
            stage: NgramStage::Lookup,
        };
        (run, NgramAction::Lookup { context: copy })
    }

    fn context(&self, emitted: &Vec<u32>) -> (r: Vec<u32>)
        ensures
            r@ == self.prompt@ + emitted@,
    {
        let mut r: Vec<u32> = Vec::new();
        r.extend_from_slice(self.prompt.as_slice());
        r.extend_from_slice(emitted.as_slice());
        assert(r@ =~= self.prompt@ + emitted@);
        r
    }

    /// Forgets the conversation.
    pub fn reset(&mut self)
        ensures
            final(self).prompt@.len() == 0,
            final(self).block_size == old(self).block_size,
            final(self).ctx_capacity == old(self).ctx_capacity,
            final(self).min_count == old(self).min_count,
    {
        self.prompt = Vec::new();
    }
}

/// The tokens that the target picks one by one after a context.
pub open spec fn greedy(target: spec_fn(Seq<u32>) -> u32, ctx: Seq<u32>, n: nat) -> Seq<u32>
    decreases n,
{
    if n == 0 {
        Seq::empty()
    } else {
        let before = greedy(target, ctx, (n - 1) as nat);
        before.push(target(ctx + before))
    }
}

/// One number of drafts stands in a window.
pub proof fn accepted_is_unique(draft: Seq<u32>, picks: Seq<u32>, m: nat, n: nat)
    requires
        is_accepted(draft, picks, m),
        is_accepted(draft, picks, n),
    ensures
        m == n,
{
    if m < n {
        assert(draft[m as int] == picks[m as int]);
    }
    if n < m {
        assert(draft[n as int] == picks[n as int]);
    }
}

/// What a window emits are the target's own picks, one more than drafts stand.
pub proof fn emitted_are_the_picks(draft: Seq<u32>, picks: Seq<u32>, n: nat)
    requires
        picks.len() == draft.len() + 1,
        is_accepted(draft, picks, n),
    ensures
        draft.subrange(0, n as int) + seq![picks[n as int]] == picks.subrange(0, (n + 1) as int),
{
    assert forall|i: int| 0 <= i < n implies draft[i] == picks[i] by {}
    assert(draft.subrange(0, n as int) + seq![picks[n as int]] =~= picks.subrange(0, (n + 1) as int));
}

/// Drafting never changes the text: whatever was drafted, a window emits what
/// the target would have picked token by token.
pub proof fn drafting_never_changes_the_text(
    target: spec_fn(Seq<u32>) -> u32,
    ctx: Seq<u32>,
    draft: Seq<u32>,
    picks: Seq<u32>,
    n: nat,
)
    requires
        picks.len() == draft.len() + 1,
        forall|i: int|
            0 <= i <= draft.len() ==> #[trigger] picks[i] == target(ctx + draft.subrange(0, i)),
        is_accepted(draft, picks, n),
    ensures
        draft.subrange(0, n as int) + seq![picks[n as int]] == greedy(target, ctx, n + 1),
{
    emitted_are_the_picks(draft, picks, n);
    picks_are_greedy(target, ctx, draft, picks, n, n + 1);
}

proof fn picks_are_greedy(
    target: spec_fn(Seq<u32>) -> u32,
    ctx: Seq<u32>,
    draft: Seq<u32>,
    picks: Seq<u32>,
    n: nat,
    m: nat,
)
    requires
        picks.len() == draft.len() + 1,
        forall|i: int|
            0 <= i <= draft.len() ==> #[trigger] picks[i] == target(ctx + draft.subrange(0, i)),
        is_accepted(draft, picks, n),
        m <= n + 1,
    ensures
        picks.subrange(0, m as int) == greedy(target, ctx, m),
    decreases m,
{
    if m == 0 {
        assert(picks.subrange(0, 0) =~= greedy(target, ctx, 0));
    } else {
        let k = (m - 1) as nat;
        picks_are_greedy(target, ctx, draft, picks, n, k);
        assert(draft.subrange(0, k as int) =~= picks.subrange(0, k as int));
        assert(picks[k as int] == target(ctx + draft.subrange(0, k as int)));
        assert(picks.subrange(0, m as int) =~= picks.subrange(0, k as int).push(picks[k as int]));
    }
}

/// A step leaves the target past the seed and the drafts that stand: either the
/// verifying pass ran no others, or the state from before it is put back and just
/// those are run again.
pub proof fn target_stands_past_the_accepted(
    block_size: usize,
    before: NgramRun,
    after: NgramRun,
    picks: Vec<u32>,
)
    requires
        answers(NgramEvent::Picked(picks), before),
        draft_after(block_size, before, after, NgramEvent::Picked(picks)),
        after.seed == before.seed,
        after.position == before.position,
    ensures
        reaction(after, NgramStage::Verify, NgramEvent::Picked(picks)).0 is Restore
            <==> after.accepted < after.chain.draft@.len(),
        after.accepted == after.chain.draft@.len() ==> seq![before.seed] + before.chain.draft@
            == seq![after.seed] + after.chain.draft@.subrange(0, after.accepted as int),
        reaction(after, NgramStage::Restore, NgramEvent::Done).0 == NgramActionV::Replay(
            seq![before.seed] + before.chain.draft@.subrange(0, after.accepted as int),
            before.position,
        ),
{
    if after.accepted == after.chain.draft@.len() {
        assert(after.chain.draft@.subrange(0, after.accepted as int) =~= before.chain.draft@);
    }
}

proof fn chain_is_bounded(predict: spec_fn(u32, u32) -> Option<u32>, a: u32, b: u32, n: nat)
    ensures
        chained(predict, a, b, n).len() <= n,
        (forall|x: u32, y: u32| #[trigger] predict(x, y) is Some) ==> chained(
            predict,
            a,
            b,
            n,
        ).len() == n,
    decreases n,
{
    if n > 0 {
        match predict(a, b) {
            Some(c) => {
                chain_is_bounded(predict, b, c, (n - 1) as nat);
            },
            None => {},
        }
    }
}

/// A draft leaves room for the seed in its block: with blocks of `block_size` it
/// has at most one token less.
pub proof fn drafts_leave_room_for_the_seed(
    block_size: usize,
    ctx: Seq<u32>,
    matched: Option<Seq<u32>>,
    predict: spec_fn(u32, u32) -> Option<u32>,
)
    requires
        block_size > 0,
    ensures
        draft_of((block_size - 1) as nat, ctx, matched, predict).len() <= block_size - 1,
{
    if ctx.len() >= 2 {
        chain_is_bounded(
            predict,
            ctx[ctx.len() - 2],
            ctx[ctx.len() - 1],
            (block_size - 1) as nat,
        );
    }
}

/// What a draft has, and what may yet be added to it, leaves room for the seed.
pub open spec fn leaves_room(chain: DraftChain, block_size: usize) -> bool {
    chain.draft@.len() + (if chain.pair is Some {
        chain.left as int
    } else {
        0
    }) <= block_size - 1
}

/// From the match on, whatever followers come, a step verifies no block of more
/// than `block_size` tokens, and at least the seed.
pub proof fn blocks_are_bounded(
    block_size: usize,
    before: NgramRun,
    after: NgramRun,
    event: NgramEvent,
)
    requires
        block_size > 0,
        before.wf(),
        answers(event, before),
        draft_after(block_size, before, after, event),
        event is Matched || leaves_room(before.chain, block_size),
    ensures
        leaves_room(after.chain, block_size),
        reaction(after, NgramStage::Save, NgramEvent::Done).0 matches NgramActionV::Verify(
            block,
            _,
        ) && 1 <= block.len() <= block_size,
{
    match event {
        NgramEvent::Matched(matched) => {
            let predict: spec_fn(u32, u32) -> Option<u32> = |a: u32, b: u32| Some(0u32);
            let found: Option<Seq<u32>> = match matched {
                Some(m) => Some(m@),
                None => None,
            };
            drafts_leave_room_for_the_seed(block_size, before.context@, found, predict);
            assert(after.chain.completed(predict) == draft_of(
                (block_size - 1) as nat,
                before.context@,
                found,
                predict,
            ));
            match after.chain.pair {
                Some(p) => {
                    chain_is_bounded(predict, p.0, p.1, after.chain.left as nat);
                },
                None => {},
            }
        },
        _ => {},
    }
}

/// A step never changes the text: whatever was drafted, it emits what the target
/// would have picked token by token, and hands on the last of it as the seed.
pub proof fn steps_emit_what_the_target_picks(
    target: spec_fn(Seq<u32>) -> u32,
    block_size: usize,
    before: NgramRun,
    after: NgramRun,
    picks: Vec<u32>,
)
    requires
        answers(NgramEvent::Picked(picks), before),
        draft_after(block_size, before, after, NgramEvent::Picked(picks)),
        forall|i: int|
            0 <= i <= before.chain.draft@.len() ==> #[trigger] picks@[i] == target(
                before.context@ + before.chain.draft@.subrange(0, i),
            ),
    ensures
        ({
            let emitted = greedy(target, before.context@, (after.accepted + 1) as nat);
            reaction(after, NgramStage::Observe, NgramEvent::Done).0 == NgramActionV::Emit(
                emitted,
                emitted.last(),
                before.chain.draft@.len() as int,
                after.accepted as int,
            )
        }),
{
    drafting_never_changes_the_text(
        target,
        before.context@,
        before.chain.draft@,
        picks@,
        after.accepted as nat,
    );
    let emitted = before.chain.draft@.subrange(0, after.accepted as int) + seq![after.bonus];
    assert(emitted.last() == after.bonus);
}

/// Every token of a chain is what was predicted behind the two before it, and the
/// chain ends short of its bound only where nothing is predicted.
pub proof fn chains_follow_their_pairs(
    predict: spec_fn(u32, u32) -> Option<u32>,
    a: u32,
    b: u32,
    n: nat,
)
    ensures
        ({
            let all = seq![a, b] + chained(predict, a, b, n);
            let k = all.len() as int;
            &&& k - 2 <= n
            &&& forall|i: int| 2 <= i < k ==> predict(all[i - 2], all[i - 1]) == Some(#[trigger] all[i])
            &&& k - 2 < n ==> predict(all[k - 2], all[k - 1]) is None
        }),
    decreases n,
{
    if n > 0 {
        if let Some(c) = predict(a, b) {
            chains_follow_their_pairs(predict, b, c, (n - 1) as nat);
            let all = seq![a, b] + chained(predict, a, b, n);
            let rest = seq![b, c] + chained(predict, b, c, (n - 1) as nat);
            assert(all =~= seq![a] + rest);
            assert forall|i: int| 2 <= i < all.len() implies predict(all[i - 2], all[i - 1])
                == Some(#[trigger] all[i]) by {
                if i > 2 {
                    assert(all[i] == rest[i - 1] && all[i - 1] == rest[i - 2] && all[i - 2]
                        == rest[i - 3]);
                }
            }
        }
    }
}

/// A draft is the beginning of what followed the context's ending elsewhere, as
/// far as the bound goes, wherever anything did; else it is chained from the
/// context's last two tokens, and without two there is none.
pub proof fn matches_go_before_chains(
    max_draft: nat,
    ctx: Seq<u32>,
    matched: Seq<u32>,
    predict: spec_fn(u32, u32) -> Option<u32>,
)
    ensures
        ({
            let draft = draft_of(max_draft, ctx, Some(matched), predict);
            &&& max_draft > 0 && matched.len() > 0 ==> {
                &&& draft.len() == (if matched.len() < max_draft {
                    matched.len()
                } else {
                    max_draft
                })
                &&& forall|i: int| 0 <= i < draft.len() ==> draft[i] == matched[i]
            }
            &&& matched.len() == 0 ==> draft == draft_of(max_draft, ctx, None, predict)
        }),
        ctx.len() >= 2 ==> draft_of(max_draft, ctx, None, predict) == chained(
            predict,
            ctx[ctx.len() - 2],
            ctx[ctx.len() - 1],
            max_draft,
        ),
        ctx.len() < 2 ==> draft_of(max_draft, ctx, None, predict).len() == 0,
{
}

/// What is learnt from a window is the end of the text that it leaves: all that
/// it committed behind the seed, and two tokens before, as far as there are two.
pub proof fn windows_are_learnt_from_their_end(
    context: Seq<u32>,
    draft: Seq<u32>,
    accepted: int,
    bonus: u32,
)
    requires
        0 <= accepted <= draft.len(),
    ensures
        ({
            let text = (context + draft.subrange(0, accepted)).push(bonus);
            let n = accepted + 1 + (if context.len() < 2 {
                context.len() as int
            } else {
                2
            });
            learnt(context, draft, accepted, bonus) == text.subrange(
                text.len() - n,
                text.len() as int,
            )
        }),
{
    let text = (context + draft.subrange(0, accepted)).push(bonus);
    let n = accepted + 1 + (if context.len() < 2 {
        context.len() as int
    } else {
        2
    });
    assert(learnt(context, draft, accepted, bonus) =~= text.subrange(
        text.len() - n,
        text.len() as int,
    ));
}

/// A step waits for what it has asked for, and saves the target before it
/// verifies: the block that it verifies is the seed and the whole draft, at the
/// seed's place.
pub proof fn steps_save_before_they_verify(run: NgramRun, waited: NgramStage, event: NgramEvent)
    ensures
        reaction(run, waited, event).1 == NgramStage::Verify ==> waited == NgramStage::Save
            && event is Done && reaction(run, waited, event).0 == NgramActionV::Verify(
            seq![run.seed] + run.chain.draft@,
            run.position,
        ),
        waited == NgramStage::Save && event is Done ==> reaction(run, waited, event).1
            == NgramStage::Verify,
        reaction(run, waited, event).0 is Verify <==> reaction(run, waited, event).1
            == NgramStage::Verify,
        reaction(run, waited, event).0 is Restore <==> reaction(run, waited, event).1
            == NgramStage::Restore,
        reaction(run, waited, event).0 is Replay <==> reaction(run, waited, event).1
            == NgramStage::Replay,
        reaction(run, waited, event).0 is Observe <==> reaction(run, waited, event).1
            == NgramStage::Observe,
        reaction(run, waited, event).0 is Save <==> reaction(run, waited, event).1
            == NgramStage::Save,
        reaction(run, waited, event).0 is Follow <==> reaction(run, waited, event).1
            == NgramStage::Chain,
        event is Failed ==> reaction(run, waited, event).0 is Stop,
{
}

} // verus!
