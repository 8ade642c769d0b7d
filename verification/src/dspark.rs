//! DeepSeek V4's block drafter: what it holds between windows, and the
//! decisions of one draft-and-verify window.

use crate::draft::{setting_or, size_setting};
use crate::spec_ngram::{prefix, suffix};
use crate::text;
use crate::text::decimal;
use crate::turn_cache::opt_str;
use vstd::prelude::*;

verus! {

/// How many tokens the trunk takes at a time unless told otherwise.
pub const DEFAULT_TRUNK_BATCH: usize = 1024;

/// The scratch of a batched trunk pass.
#[derive(Debug, Clone, Copy, PartialEq, Eq, Structural)]
pub struct PrefillBatchScratch {
    /// The most tokens that it takes at a time.
    pub max_batch: usize,
}

/// What the block drafter's weights say of it.
#[derive(Debug, PartialEq, Eq)]
pub struct DsparkConfig {
    pub block_size: usize,
    pub target_layer_ids: Vec<usize>,
    pub enable_confidence: bool,
}

/// What the model's configuration says.
#[derive(Debug, Clone, Copy, PartialEq, Eq, Structural)]
pub struct DeepseekV4Config {
    pub hidden_size: usize,
    pub max_position_embeddings: usize,
}

/// Which of the model's weights are loaded.
#[derive(Debug, PartialEq, Eq)]
pub struct DeepseekV4Weights {
    pub dspark: Option<DsparkConfig>,
    pub token_embd: bool,
    pub head: bool,
    pub output_norm: bool,
}

/// The model's state between passes.
#[derive(Debug, PartialEq, Eq)]
pub struct DeepseekV4State {
    pub n_tokens: u64,
    /// Whether the last hidden state of the trunk is kept.
    pub mtp_last_hidden: bool,
    /// The layers whose hidden states a pass captures.
    pub dspark_target_layers: Vec<usize>,
    /// Whether a pass captures them.
    pub dspark_capture_active: bool,
    /// Whether the captured states have been assembled.
    pub dspark_main_hidden: bool,
    pub dspark_verify_pbs: Option<PrefillBatchScratch>,
}

/// A DeepSeek V4 model with its state.
#[derive(Debug, PartialEq, Eq)]
pub struct Deepseek4Bundle {
    pub config: DeepseekV4Config,
    pub weights: DeepseekV4Weights,
    pub state: DeepseekV4State,
    pub eos_tok: u32,
}

/// The scratch of a verifying pass: nothing, since the attention keeps no
/// state that a rejected draft would have to give back.
#[derive(Debug, Clone, Copy, PartialEq, Eq, Structural)]
pub struct Deepseek4DsparkScratch;

/// How many tokens a trunk pass takes at a time.
pub fn dspark_verify_pbs_max_batch(setting: Option<&str>) -> (r: usize)
    ensures
        r == setting_or(opt_str(setting), DEFAULT_TRUNK_BATCH),
{
    size_setting(setting, DEFAULT_TRUNK_BATCH)
}

impl DeepseekV4State {
    /// The state with the capture set for `layers`.
    pub open spec fn armed_for(&self, before: &DeepseekV4State, layers: Seq<usize>) -> bool {
        &&& self.dspark_target_layers@ == layers
        &&& self.dspark_capture_active
        &&& self.n_tokens == before.n_tokens
        &&& self.mtp_last_hidden == before.mtp_last_hidden
        &&& self.dspark_main_hidden == before.dspark_main_hidden
        &&& self.dspark_verify_pbs == before.dspark_verify_pbs
    }

    /// Sets the capture for `layers`.
    pub fn arm(&mut self, layers: &Vec<usize>)
        ensures
            final(self).armed_for(old(self), layers@),
    {
        let mut copy: Vec<usize> = Vec::new();
        copy.extend_from_slice(layers.as_slice());
        assert(copy@ =~= layers@);
        self.dspark_target_layers = copy;
        self.dspark_capture_active = true;
    }

    /// Forgets the conversation. The caches stay: what lies beyond `n_tokens`
    /// is never read.
    pub fn reset(&mut self)
        ensures
            *final(self) == (DeepseekV4State { n_tokens: 0, mtp_last_hidden: false, ..*old(self) }),
    {
        self.n_tokens = 0;
        self.mtp_last_hidden = false;
    }
}

/// Why a block of `len` tokens cannot be verified; nothing where it can.
pub open spec fn verify_refusal(pbs: Option<PrefillBatchScratch>, len: nat) -> Option<Seq<char>> {
    match pbs {
        None => Some(
            "Deepseek4Bundle::verify_block: dspark_verify_pbs not allocated (call new_spec_scratch first)"@,
        ),
        Some(p) => if p.max_batch < len {
            Some(
                "Deepseek4Bundle::verify_block: PBS max_batch ("@ + decimal(p.max_batch as nat)
                    + ") < block len ("@ + decimal(len) + ")"@,
            )
        } else {
            None
        },
    }
}

impl Deepseek4Bundle {
    /// Forgets the conversation.
    pub fn reset_recurrent(&mut self)
        ensures
            *final(self) == (Deepseek4Bundle {
                state: (DeepseekV4State {
                    n_tokens: 0,
                    mtp_last_hidden: false,
                    ..old(self).state
                }),
                ..*old(self)
            }),
    {
        self.state.reset();
    }

    /// The token that ends a turn.
    pub fn eos_token(&self) -> (r: u32)
        ensures
            r == self.eos_tok,
    {
        self.eos_tok
    }

    /// The most tokens that a conversation holds.
    pub fn ctx_capacity(&self) -> (r: usize)
        ensures
            r == self.config.max_position_embeddings,
    {
        self.config.max_position_embeddings
    }

    /// The size of the verifying scratch that has yet to be allocated; nothing
    /// where one is held.
    pub fn missing_scratch(&self, setting: Option<&str>) -> (r: Option<usize>)
        ensures
            r == (if self.state.dspark_verify_pbs is Some {
                None
            } else {
                Some(setting_or(opt_str(setting), DEFAULT_TRUNK_BATCH))
            }),
    {
        match self.state.dspark_verify_pbs {
            Some(_) => None,
            None => Some(dspark_verify_pbs_max_batch(setting)),
        }
    }

    /// Keeps a scratch that was allocated.
    pub fn hold_scratch(&mut self, max_batch: usize) -> (r: Deepseek4DsparkScratch)
        ensures
            *final(self) == (Deepseek4Bundle {
                state: (DeepseekV4State {
                    dspark_verify_pbs: Some((PrefillBatchScratch { max_batch })),
                    ..old(self).state
                }),
                ..*old(self)
            }),
    {
        self.state.dspark_verify_pbs = Some(PrefillBatchScratch { max_batch });
        Deepseek4DsparkScratch
    }

    /// Readies the trunk for verifying a block: the capture is on, for the
    /// layers it was last set for.
    pub fn verify_block(&mut self, block: &Vec<u32>) -> (r: Result<(), String>)
        ensures
            match r {
                Ok(_) => verify_refusal(old(self).state.dspark_verify_pbs, block@.len()) is None
                    && *final(self) == (Deepseek4Bundle {
                    state: (DeepseekV4State { dspark_capture_active: true, ..old(self).state }),
                    ..*old(self)
                }),
                Err(e) => verify_refusal(old(self).state.dspark_verify_pbs, block@.len()) == Some(
                    e@,
                ) && *final(self) == *old(self),
            },
    {
        match self.state.dspark_verify_pbs {
            None => {
                return Err(
                    "Deepseek4Bundle::verify_block: dspark_verify_pbs not allocated (call new_spec_scratch first)".to_owned(),
                );
            },
            Some(p) => {
                if p.max_batch < block.len() {
                    let mut s = "Deepseek4Bundle::verify_block: PBS max_batch (".to_owned();
                    text::push_decimal(&mut s, p.max_batch);
                    s.append(") < block len (");
                    text::push_decimal(&mut s, block.len());
                    s.append(")");
                    return Err(s);
                }
            },
        }
        self.state.dspark_capture_active = true;
        Ok(())
    }

    /// Advances past the accepted drafts and the bonus token.
    pub fn commit_prefix(&mut self, accept_len: usize, position: usize)
        requires
            position + accept_len + 1 <= usize::MAX,
        ensures
            *final(self) == (Deepseek4Bundle {
                state: (DeepseekV4State {
                    n_tokens: (position + accept_len + 1) as u64,
                    ..old(self).state
                }),
                ..*old(self)
            }),
    {
        self.state.n_tokens = (position + accept_len + 1) as u64;
    }

    /// Readies the trunk for a pass over a seed that captures `layers`; how
    /// many values it assembles.
    pub fn capture_seed_main_hidden(&mut self, layers: &Vec<usize>) -> (r: usize)
        requires
            layers@.len() * old(self).config.hidden_size <= usize::MAX,
        ensures
            r == layers@.len() * old(self).config.hidden_size,
            final(self).config == old(self).config,
            final(self).weights == old(self).weights,
            final(self).eos_tok == old(self).eos_tok,
            final(self).state.armed_for(&old(self).state, layers@),
    {
        self.state.arm(layers);
        layers.len() * self.config.hidden_size
    }

    /// Takes what the assembly after that pass left: the seed's states, or not.
    pub fn seed_captured(&mut self, present: bool) -> (r: Result<(), String>)
        ensures
            *final(self) == (Deepseek4Bundle {
                state: (DeepseekV4State { dspark_main_hidden: present, ..old(self).state }),
                ..*old(self)
            }),
            match r {
                Ok(_) => present,
                Err(e) => !present && e@
                    == "Deepseek4Bundle::capture_seed_main_hidden: dspark_main_hidden is None after assemble"@,
            },
    {
        self.state.dspark_main_hidden = present;
        if present {
            Ok(())
        } else {
            Err(
                "Deepseek4Bundle::capture_seed_main_hidden: dspark_main_hidden is None after assemble".to_owned(),
            )
        }
    }
}

/// The drafter: what it holds between windows.
#[derive(Debug, PartialEq, Eq)]
pub struct Deepseek4DsparkDrafter {
    pbs: Option<PrefillBatchScratch>,
    /// The place of the token whose captured states are assembled; none where
    /// they must be captured first.
    main_hidden_pos: Option<usize>,
    block: usize,
    ctx_capacity: usize,
}

/// A window of drafts, from its seed on.
#[derive(Debug, PartialEq, Eq)]
pub struct DsparkWindow {
    pub position: usize,
    pub seed: u32,
    /// The most drafts that are taken.
    pub block: usize,
    /// The token that ends a turn.
    pub eos: u32,
    /// The layers that the passes capture.
    pub target_layers: Vec<usize>,
    /// What the window waits for.
    pub stage: WindowStage,
    /// The seed and the drafts that the trunk verifies, once they are drafted.
    pub tokens: Vec<u32>,
}

/// What a window waits for.
#[derive(Debug, Clone, Copy, PartialEq, Eq, Structural)]
pub enum WindowStage {
    /// The trunk's pass over the seed.
    Seed,
    /// The assembly of what that pass captured.
    Assembly,
    /// The drafts.
    Draft,
    /// The trunk's pass over the seed and the drafts.
    Trunk,
    /// The head over that pass.
    Head,
    /// How far the trunk's picks agree with the drafts.
    Acceptance,
    /// Nothing: the window is closed, or was given up.
    Nothing,
}

/// What came of what a window asked for.
#[derive(Debug, PartialEq, Eq)]
pub enum WindowEvent {
    /// A pass is done.
    Done,
    /// The assembly is done, and whether the states are there.
    Assembled { present: bool },
    /// Tokens were drafted.
    Drafted(Vec<u32>),
    /// Tokens were committed, `accepted` drafts among them.
    Accepted { committed: Vec<u32>, accepted: usize },
    /// It failed.
    Failed(String),
}

/// What a window asks for.
#[derive(Debug, PartialEq, Eq)]
pub enum WindowAction {
    /// The trunk's pass over tokens.
    Forward { tokens: Vec<u32>, position: usize },
    /// The assembly of the captured states of the first row.
    Assemble,
    /// A block of drafts after a seed.
    Draft { seed: u32, position: usize },
    /// The head over the rows of the pass.
    Head { rows: usize },
    /// How far the picks behind each row agree with the drafts.
    Accept { drafts: Vec<u32>, eos: u32 },
    /// Nothing more: this was committed.
    Commit(MtpWindow),
    /// Nothing more: this went wrong.
    Stop(String),
}

/// What a window asks for, in terms of sequences.
pub enum WindowActionV {
    Forward(Seq<u32>, usize),
    Assemble,
    Draft(u32, usize),
    Head(nat),
    Accept(Seq<u32>, u32),
    Commit(Seq<u32>, usize, int),
    Stop(Seq<char>),
}

impl View for WindowAction {
    type V = WindowActionV;

    open spec fn view(&self) -> WindowActionV {
        match self {
            WindowAction::Forward { tokens, position } => WindowActionV::Forward(
                tokens@,
                *position,
            ),
            WindowAction::Assemble => WindowActionV::Assemble,
            WindowAction::Draft { seed, position } => WindowActionV::Draft(*seed, *position),
            WindowAction::Head { rows } => WindowActionV::Head(*rows as nat),
            WindowAction::Accept { drafts, eos } => WindowActionV::Accept(drafts@, *eos),
            WindowAction::Commit(w) => WindowActionV::Commit(
                w.committed@,
                w.accepted,
                w.drafts_generated as int,
            ),
            WindowAction::Stop(e) => WindowActionV::Stop(e@),
        }
    }
}

/// What a window committed.
#[derive(Debug, PartialEq, Eq)]
pub struct MtpWindow {
    pub committed: Vec<u32>,
    pub accepted: usize,
    pub drafts_generated: usize,
}

/// Why a window cannot be opened; nothing where it can. `grammar` says, where
/// there is one, whether it is of this architecture.
pub open spec fn window_refusal(
    weights: DeepseekV4Weights,
    scratch: Option<PrefillBatchScratch>,
    grammar: Option<bool>,
) -> Option<Seq<char>> {
    if grammar == Some(false) {
        Some("Deepseek4DsparkDrafter: grammar handle is not a Deepseek4SpecGrammar"@)
    } else if weights.dspark is None {
        Some("Deepseek4DsparkDrafter: weights.dspark is None"@)
    } else if !weights.token_embd {
        Some("Deepseek4DsparkDrafter: weights.token_embd is None"@)
    } else if !weights.head {
        Some("Deepseek4DsparkDrafter: weights.head is None"@)
    } else if !weights.output_norm {
        Some("Deepseek4DsparkDrafter: weights.output_norm is None"@)
    } else if scratch is None {
        Some("Deepseek4DsparkDrafter: mtp_step before mtp_prefill"@)
    } else {
        None
    }
}

/// How many drafts a window takes: the drafter's block or the request's bound,
/// whichever is less, and at least one.
pub open spec fn window_block(block_size: usize, k: usize) -> usize {
    if block_size < k {
        if block_size < 1 {
            1
        } else {
            block_size
        }
    } else if k < 1 {
        1
    } else {
        k
    }
}

/// The drafts that a window takes of those drafted.
pub open spec fn taken(drafted: Seq<u32>, block: usize) -> Seq<u32> {
    if drafted.len() <= block {
        drafted
    } else {
        drafted.subrange(0, block as int)
    }
}

/// Whether an event answers what a window waits for.
pub open spec fn answers(event: WindowEvent, stage: WindowStage) -> bool {
    match event {
        WindowEvent::Done => stage == WindowStage::Seed || stage == WindowStage::Trunk || stage
            == WindowStage::Head,
        WindowEvent::Assembled { .. } => stage == WindowStage::Assembly,
        WindowEvent::Drafted(_) => stage == WindowStage::Draft,
        WindowEvent::Accepted { .. } => stage == WindowStage::Acceptance,
        WindowEvent::Failed(_) => stage != WindowStage::Acceptance && stage
            != WindowStage::Nothing,
    }
}

/// The text of a failure at a stage.
pub open spec fn failed_text(stage: WindowStage, e: Seq<char>) -> Seq<char> {
    match stage {
        WindowStage::Seed => "dspark bootstrap forward: "@ + e,
        WindowStage::Assembly => "dspark assemble bootstrap main_hidden: "@ + e,
        WindowStage::Draft => "dspark draft: "@ + e,
        WindowStage::Trunk => "dspark verify forward: "@ + e,
        _ => "dspark verify head: "@ + e,
    }
}

/// What a window asks for first, and what it waits for then. The seed is run
/// unless its captured states are assembled; drafting takes them.
pub open spec fn opening(
    seed: u32,
    position: usize,
    assembled_at: Option<usize>,
    present: bool,
) -> (WindowActionV, WindowStage) {
    if assembled_at != Some(position) {
        (WindowActionV::Forward(seq![seed], position), WindowStage::Seed)
    } else {
        drafting(seed, position, present)
    }
}

/// What a window asks for once the seed's states should be assembled.
pub open spec fn drafting(seed: u32, position: usize, present: bool) -> (
    WindowActionV,
    WindowStage,
) {
    if present {
        (WindowActionV::Draft(seed, position), WindowStage::Draft)
    } else {
        (
            WindowActionV::Stop("dspark: main_hidden missing after bootstrap"@),
            WindowStage::Nothing,
        )
    }
}

/// What a window asks for after an event, and what it waits for then. `held` is
/// the most tokens that the trunk takes at a time.
pub open spec fn reaction(window: DsparkWindow, held: usize, event: WindowEvent) -> (
    WindowActionV,
    WindowStage,
) {
    match event {
        WindowEvent::Done => if window.stage == WindowStage::Seed {
            (WindowActionV::Assemble, WindowStage::Assembly)
        } else if window.stage == WindowStage::Trunk {
            (WindowActionV::Head(window.tokens@.len()), WindowStage::Head)
        } else {
            (
                WindowActionV::Accept(
                    window.tokens@.subrange(1, window.tokens@.len() as int),
                    window.eos,
                ),
                WindowStage::Acceptance,
            )
        },
        WindowEvent::Assembled { present } => drafting(window.seed, window.position, present),
        WindowEvent::Drafted(drafted) => {
            let tokens = seq![window.seed] + taken(drafted@, window.block);
            if tokens.len() <= held {
                (WindowActionV::Forward(tokens, window.position), WindowStage::Trunk)
            } else {
                (
                    WindowActionV::Stop(
                        "dspark verify: PBS max_batch ("@ + decimal(held as nat)
                            + ") < verify len ("@ + decimal(tokens.len()) + ")"@,
                    ),
                    WindowStage::Nothing,
                )
            }
        },
        WindowEvent::Accepted { committed, accepted } => (
            WindowActionV::Commit(committed@, accepted, window.tokens@.len() - 1),
            WindowStage::Nothing,
        ),
        WindowEvent::Failed(e) => (
            WindowActionV::Stop(failed_text(window.stage, e@)),
            WindowStage::Nothing,
        ),
    }
}

/// What an event leaves of the target: assembled states are there or not, the
/// pass over the drafts captures the drafter's layers, and what was committed
/// is counted.
pub open spec fn target_after(
    before: Deepseek4Bundle,
    after: Deepseek4Bundle,
    window: DsparkWindow,
    held: usize,
    event: WindowEvent,
) -> bool {
    &&& after.config == before.config
    &&& after.weights == before.weights
    &&& after.eos_tok == before.eos_tok
    &&& match event {
        WindowEvent::Assembled { present } => after.state == (DeepseekV4State {
            dspark_main_hidden: present,
            ..before.state
        }),
        WindowEvent::Drafted(_) => if reaction(window, held, event).0 is Forward {
            after.state.armed_for(&before.state, window.target_layers@)
        } else {
            after.state == before.state
        },
        WindowEvent::Accepted { committed, .. } => after.state == (DeepseekV4State {
            n_tokens: (window.position + committed@.len()) as u64,
            ..before.state
        }),
        _ => after.state == before.state,
    }
}

impl DsparkWindow {
    /// From the pass over the drafts on the tokens are there, the seed first.
    pub open spec fn wf(&self) -> bool {
        self.stage == WindowStage::Trunk || self.stage == WindowStage::Head || self.stage
            == WindowStage::Acceptance ==> self.tokens@.len() > 0
    }
}

fn ask_for_drafts(seed: u32, position: usize, present: bool) -> (r: (WindowStage, WindowAction))
    ensures
        r.1@ == drafting(seed, position, present).0,
        r.0 == drafting(seed, position, present).1,
{
    if present {
        (WindowStage::Draft, WindowAction::Draft { seed, position })
    } else {
        (
            WindowStage::Nothing,
            WindowAction::Stop("dspark: main_hidden missing after bootstrap".to_owned()),
        )
    }
}

fn verify_tokens(seed: u32, drafted: &Vec<u32>, block: usize) -> (out: Vec<u32>)
    ensures
        out@ == seq![seed] + taken(drafted@, block),
{
    let n: usize = if drafted.len() <= block {
        drafted.len()
    } else {
        block
    };
    let mut out: Vec<u32> = Vec::new();
    out.push(seed);
    let mut head = prefix(drafted, n);
    out.append(&mut head);
    assert(out@ =~= seq![seed] + taken(drafted@, block));
    out
}

impl Deepseek4DsparkDrafter {
    /// The scratch that it holds.
    pub closed spec fn scratch(&self) -> Option<PrefillBatchScratch> {
        self.pbs
    }

    /// The place whose captured states are assembled.
    pub closed spec fn assembled_at(&self) -> Option<usize> {
        self.main_hidden_pos
    }

    /// How many tokens a draft has.
    pub closed spec fn block_len(&self) -> usize {
        self.block
    }

    /// The most tokens of a conversation.
    pub closed spec fn capacity(&self) -> usize {
        self.ctx_capacity
    }

    /// A drafter that has drafted nothing.
    pub fn new(block: usize, ctx_capacity: usize) -> (r: Deepseek4DsparkDrafter)
        ensures
            r.block_len() == crate::load_plan::clamped(block as int, 1, 8),
            r.capacity() == ctx_capacity,
            r.scratch() is None,
            r.assembled_at() is None,
    {
        let block: usize = if block < 1 {
            1
        } else if 8 < block {
            8
        } else {
            block
        };
        Deepseek4DsparkDrafter { pbs: None, main_hidden_pos: None, block, ctx_capacity }
    }

    /// Begins a prefill: without a cache hit the conversation is forgotten. The
    /// size of the scratch to allocate, where none is held.
    pub fn begin_prefill(
        &mut self,
        target: &mut Deepseek4Bundle,
        cache_hit: bool,
        setting: Option<&str>,
    ) -> (r: Option<usize>)
        ensures
            cache_hit ==> *final(self) == *old(self) && *final(target) == *old(target),
            !cache_hit ==> final(self).assembled_at() is None && *final(target) == (Deepseek4Bundle {
                state: (DeepseekV4State {
                    n_tokens: 0,
                    mtp_last_hidden: false,
                    ..old(target).state
                }),
                ..*old(target)
            }),
            final(self).scratch() == old(self).scratch(),
            final(self).block_len() == old(self).block_len(),
            final(self).capacity() == old(self).capacity(),
            r == (if old(self).scratch() is Some {
                None
            } else {
                Some(setting_or(opt_str(setting), DEFAULT_TRUNK_BATCH))
            }),
    {
        if !cache_hit {
            target.reset_recurrent();
            self.main_hidden_pos = None;
        }
        match self.pbs {
            Some(_) => None,
            None => Some(dspark_verify_pbs_max_batch(setting)),
        }
    }

    /// Keeps a scratch that was allocated.
    pub fn hold_scratch(&mut self, max_batch: usize)
        ensures
            final(self).scratch() == Some((PrefillBatchScratch { max_batch })),
            final(self).assembled_at() == old(self).assembled_at(),
            final(self).block_len() == old(self).block_len(),
            final(self).capacity() == old(self).capacity(),
    {
        self.pbs = Some(PrefillBatchScratch { max_batch });
    }

    /// Readies the trunk for the prompt: its pass captures the drafter's layers.
    /// The seed that follows the prompt has yet to be captured.
    pub fn mtp_prefill(&mut self, target: &mut Deepseek4Bundle) -> (r: Result<(), String>)
        ensures
            final(self).scratch() == old(self).scratch(),
            final(self).block_len() == old(self).block_len(),
            final(self).capacity() == old(self).capacity(),
            final(target).config == old(target).config,
            final(target).weights == old(target).weights,
            final(target).eos_tok == old(target).eos_tok,
            match (r, old(target).weights.dspark) {
                (Ok(_), Some(spark)) => final(self).assembled_at() is None
                    && final(target).state.armed_for(
                    &old(target).state,
                    spark.target_layer_ids@,
                ),
                (Err(e), None) => e@ == "Deepseek4DsparkDrafter: weights.dspark is None"@
                    && *final(self) == *old(self) && *final(target) == *old(target),
                _ => false,
            },
    {
        match &target.weights.dspark {
            Some(spark) => {
                target.state.arm(&spark.target_layer_ids);
            },
            None => {
                return Err("Deepseek4DsparkDrafter: weights.dspark is None".to_owned());
            },
        }
        self.main_hidden_pos = None;
        Ok(())
    }

    /// Opens a window at a seed: what it asks for first. `grammar` says, where
    /// the request has one, whether it is of this architecture.
    pub fn mtp_step(
        &self,
        target: &mut Deepseek4Bundle,
        position: usize,
        seed: u32,
        k: usize,
        eos: u32,
        grammar: Option<bool>,
    ) -> (r: Result<(DsparkWindow, WindowAction), String>)
        ensures
            final(target).config == old(target).config,
            final(target).weights == old(target).weights,
            final(target).eos_tok == old(target).eos_tok,
            match r {
                Ok((w, action)) => {
                    let spark = old(target).weights.dspark->Some_0;
                    let first = opening(
                        seed,
                        position,
                        self.assembled_at(),
                        old(target).state.dspark_main_hidden,
                    );
                    &&& window_refusal(old(target).weights, self.scratch(), grammar) is None
                    &&& action@ == first.0
                    &&& w.stage == first.1
                    &&& w.wf()
                    &&& w.position == position
                    &&& w.seed == seed
                    &&& w.eos == eos
                    &&& w.block == window_block(spark.block_size, k)
                    &&& w.target_layers@ == spark.target_layer_ids@
                    &&& w.tokens@.len() == 0
                    &&& if first.0 is Forward {
                        final(target).state.armed_for(
                            &old(target).state,
                            spark.target_layer_ids@,
                        )
                    } else {
                        final(target).state == old(target).state
                    }
                },
                Err(e) => window_refusal(old(target).weights, self.scratch(), grammar) == Some(e@)
                    && final(target).state == old(target).state,
            },
    {
        match grammar {
            Some(own) => {
                if !own {
                    return Err(
                        "Deepseek4DsparkDrafter: grammar handle is not a Deepseek4SpecGrammar".to_owned(),
                    );
                }
            },
            None => {},
        }
        let spark = match &target.weights.dspark {
            Some(spark) => spark,
            None => {
                return Err("Deepseek4DsparkDrafter: weights.dspark is None".to_owned());
            },
        };
        if !target.weights.token_embd {
            return Err("Deepseek4DsparkDrafter: weights.token_embd is None".to_owned());
        }
        if !target.weights.head {
            return Err("Deepseek4DsparkDrafter: weights.head is None".to_owned());
        }
        if !target.weights.output_norm {
            return Err("Deepseek4DsparkDrafter: weights.output_norm is None".to_owned());
        }
        if self.pbs.is_none() {
            return Err("Deepseek4DsparkDrafter: mtp_step before mtp_prefill".to_owned());
        }
        let least: usize = if spark.block_size < k {
            spark.block_size
        } else {
            k
        };
        let block: usize = if least < 1 {
            1
        } else {
            least
        };
        let bootstrap: bool = match self.main_hidden_pos {
            Some(p) => p != position,
            None => true,
        };
        let mut target_layers: Vec<usize> = Vec::new();
        target_layers.extend_from_slice(spark.target_layer_ids.as_slice());
        assert(target_layers@ =~= spark.target_layer_ids@);
        let (stage, action): (WindowStage, WindowAction) = if bootstrap {
            target.state.arm(&target_layers);
            let mut tokens: Vec<u32> = Vec::new();
            tokens.push(seed);
            assert(tokens@ =~= seq![seed]);
            (WindowStage::Seed, WindowAction::Forward { tokens, position })
        } else {
            ask_for_drafts(seed, position, target.state.dspark_main_hidden)
        };
        let window = DsparkWindow {
            position,
            seed,
            block,
            eos,
            target_layers,
            stage,
            tokens: Vec::new(),
        };
        Ok((window, action))
    }

    /// Takes what came of what a window asked for: what it asks for next. The
    /// token that a closed window leaves as the next seed has yet to be captured.
    pub fn advance(
        &mut self,
        target: &mut Deepseek4Bundle,
        window: &mut DsparkWindow,
        event: WindowEvent,
    ) -> (action: WindowAction)
        requires
            old(self).scratch() is Some,
            old(window).wf(),
            answers(event, old(window).stage),
            event matches WindowEvent::Accepted { committed, .. } ==> old(window).position
                + committed@.len() <= usize::MAX,
        ensures
            ({
                let held = old(self).scratch()->Some_0.max_batch;
                let next = reaction(*old(window), held, event);
                &&& action@ == next.0
                &&& final(window).stage == next.1
                &&& target_after(*old(target), *final(target), *old(window), held, event)
                &&& final(window).tokens@ == (match next.0 {
                    WindowActionV::Forward(tokens, _) => tokens,
                    _ => old(window).tokens@,
                })
            }),
            final(window).wf(),
            final(window).position == old(window).position,
            final(window).seed == old(window).seed,
            final(window).block == old(window).block,
            final(window).eos == old(window).eos,
            final(window).target_layers == old(window).target_layers,
            final(self).assembled_at() == (if event is Accepted {
                None
            } else {
                old(self).assembled_at()
            }),
            final(self).scratch() == old(self).scratch(),
            final(self).block_len() == old(self).block_len(),
            final(self).capacity() == old(self).capacity(),
    {
        match event {
            WindowEvent::Done => match window.stage {
                WindowStage::Seed => {
                    window.stage = WindowStage::Assembly;
                    WindowAction::Assemble
                },
                WindowStage::Trunk => {
                    window.stage = WindowStage::Head;
                    WindowAction::Head { rows: window.tokens.len() }
                },
                _ => {
                    window.stage = WindowStage::Acceptance;
                    WindowAction::Accept { drafts: suffix(&window.tokens, 1), eos: window.eos }
                },
            },
            WindowEvent::Assembled { present } => {
                target.state.dspark_main_hidden = present;
                let (stage, action) = ask_for_drafts(window.seed, window.position, present);
                window.stage = stage;
                action
            },
            WindowEvent::Drafted(drafted) => {
                let held: usize = match &self.pbs {
                    Some(p) => p.max_batch,
                    None => 0,
                };
                let tokens = verify_tokens(window.seed, &drafted, window.block);
                if held < tokens.len() {
                    let mut s = "dspark verify: PBS max_batch (".to_owned();
                    text::push_decimal(&mut s, held);
                    s.append(") < verify len (");
                    text::push_decimal(&mut s, tokens.len());
                    s.append(")");
                    window.stage = WindowStage::Nothing;
                    return WindowAction::Stop(s);
                }
                target.state.arm(&window.target_layers);
                let mut copy: Vec<u32> = Vec::new();
                copy.extend_from_slice(tokens.as_slice());
                assert(copy@ =~= tokens@);
                window.tokens = tokens;
                window.stage = WindowStage::Trunk;
                WindowAction::Forward { tokens: copy, position: window.position }
            },
            WindowEvent::Accepted { committed, accepted } => {
                target.state.n_tokens = (window.position + committed.len()) as u64;
                self.main_hidden_pos = None;
                window.stage = WindowStage::Nothing;
                WindowAction::Commit(
                    MtpWindow { committed, accepted, drafts_generated: window.tokens.len() - 1 },
                )
            },
            WindowEvent::Failed(e) => {
                let mut s = match window.stage {
                    WindowStage::Seed => "dspark bootstrap forward: ".to_owned(),
                    WindowStage::Assembly => "dspark assemble bootstrap main_hidden: ".to_owned(),
                    WindowStage::Draft => "dspark draft: ".to_owned(),
                    WindowStage::Trunk => "dspark verify forward: ".to_owned(),
                    _ => "dspark verify head: ".to_owned(),
                };
                s.append(e.as_str());
                window.stage = WindowStage::Nothing;
                WindowAction::Stop(s)
            },
        }
    }

    /// Forgets whose states are assembled.
    pub fn mtp_reset(&mut self)
        ensures
            final(self).assembled_at() is None,
            final(self).scratch() == old(self).scratch(),
            final(self).block_len() == old(self).block_len(),
            final(self).capacity() == old(self).capacity(),
    {
        self.main_hidden_pos = None;
    }

    /// The scratch to free with the drafter.
    pub fn mtp_free(self) -> (r: Option<PrefillBatchScratch>)
        ensures
            r == self.scratch(),
    {
        self.pbs
    }

    /// How many tokens a draft has.
    pub fn k(&self) -> (r: usize)
        ensures
            r == self.block_len(),
    {
        self.block
    }

    /// The most tokens of a conversation.
    pub fn ctx_capacity(&self) -> (r: usize)
        ensures
            r == self.capacity(),
    {
        self.ctx_capacity
    }

    /// Whether tokens must be picked greedily: they must.
    pub fn requires_greedy(&self) -> (r: bool)
        ensures
            r,
    {
        true
    }
}

/// What a window leaves of the target is what committing its accepted drafts
/// leaves, where it committed those and the bonus token.
pub proof fn closing_commits_the_prefix(
    before: Deepseek4Bundle,
    after: Deepseek4Bundle,
    window: DsparkWindow,
    held: usize,
    event: WindowEvent,
    accept_len: usize,
)
    requires
        target_after(before, after, window, held, event),
        event matches WindowEvent::Accepted { committed, .. } && committed@.len() == accept_len + 1,
    ensures
        after == (Deepseek4Bundle {
            state: (DeepseekV4State {
                n_tokens: (window.position + accept_len + 1) as u64,
                ..before.state
            }),
            ..before
        }),
{
}

/// Whatever came of what it asked for, a window goes on to a later stage or
/// ends, and it ends with what was committed or with what went wrong.
pub proof fn windows_come_to_an_end(window: DsparkWindow, held: usize, event: WindowEvent)
    requires
        answers(event, window.stage),
    ensures
        stage_rank(window.stage) < stage_rank(reaction(window, held, event).1),
        reaction(window, held, event).1 == WindowStage::Nothing <==> reaction(
            window,
            held,
            event,
        ).0 is Commit || reaction(window, held, event).0 is Stop,
{
}

/// The place of a stage in a window.
pub open spec fn stage_rank(stage: WindowStage) -> int {
    match stage {
        WindowStage::Seed => 0,
        WindowStage::Assembly => 1,
        WindowStage::Draft => 2,
        WindowStage::Trunk => 3,
        WindowStage::Head => 4,
        WindowStage::Acceptance => 5,
        WindowStage::Nothing => 6,
    }
}

/// The trunk verifies what will be judged: the drafts that are compared with its
/// picks are those that it ran, right behind the seed.
pub proof fn judged_drafts_were_run(
    window: DsparkWindow,
    drafted: Vec<u32>,
    held: usize,
    at_head: DsparkWindow,
)
    requires
        reaction(window, held, WindowEvent::Drafted(drafted)).0 == WindowActionV::Forward(
            at_head.tokens@,
            window.position,
        ),
        at_head.stage == WindowStage::Head,
    ensures
        reaction(at_head, held, WindowEvent::Done).0 == WindowActionV::Accept(
            taken(drafted@, window.block),
            at_head.eos,
        ),
        at_head.tokens@ == seq![window.seed] + taken(drafted@, window.block),
{
    let tokens = seq![window.seed] + taken(drafted@, window.block);
    assert(tokens.subrange(1, tokens.len() as int) =~= taken(drafted@, window.block));
}

/// A window takes at least one draft, and no more than were drafted or than the
/// request or the drafter bounds it to.
pub proof fn window_is_bounded(block_size: usize, k: usize, drafted: Seq<u32>)
    ensures
        1 <= window_block(block_size, k),
        1 <= k && 1 <= block_size ==> window_block(block_size, k) <= k && window_block(
            block_size,
            k,
        ) <= block_size,
        taken(drafted, window_block(block_size, k)).len() <= drafted.len(),
        taken(drafted, window_block(block_size, k)).len() <= window_block(block_size, k),
        drafted.len() > 0 ==> taken(drafted, window_block(block_size, k)).len() > 0,
{
}

/// A window is opened exactly where the drafter's and the trunk's weights are
/// loaded, a scratch is held, and the grammar, if there is one, is of this
/// architecture.
pub proof fn windows_need_their_weights(
    weights: DeepseekV4Weights,
    scratch: Option<PrefillBatchScratch>,
    grammar: Option<bool>,
)
    ensures
        window_refusal(weights, scratch, grammar) is None <==> {
            &&& weights.dspark is Some
            &&& weights.token_embd
            &&& weights.head
            &&& weights.output_norm
            &&& scratch is Some
            &&& grammar != Some(false)
        },
{
}

/// A window takes as many drafts as the lesser of the two bounds, where that is
/// any, and of those drafted the first ones, as many as there are of them.
pub proof fn windows_take_the_first_drafts(block_size: usize, k: usize, drafted: Seq<u32>, n: usize)
    ensures
        1 <= block_size <= k ==> window_block(block_size, k) == block_size,
        1 <= k <= block_size ==> window_block(block_size, k) == k,
        block_size == 0 || k == 0 ==> window_block(block_size, k) == 1,
        taken(drafted, n).len() == (if drafted.len() < n {
            drafted.len()
        } else {
            n as nat
        }),
        forall|i: int| 0 <= i < taken(drafted, n).len() ==> taken(drafted, n)[i] == drafted[i],
{
}

/// A seed whose captured states are not assembled is run first, by itself and at
/// its own place; one whose states are assembled is drafted from at once, and
/// where they should be and are not the window ends.
pub proof fn seeds_are_captured_first(
    seed: u32,
    position: usize,
    assembled_at: Option<usize>,
    present: bool,
)
    ensures
        assembled_at != Some(position) ==> opening(seed, position, assembled_at, present) == (
            WindowActionV::Forward(seq![seed], position),
            WindowStage::Seed,
        ),
        assembled_at == Some(position) && present ==> opening(
            seed,
            position,
            assembled_at,
            present,
        ) == (WindowActionV::Draft(seed, position), WindowStage::Draft),
        assembled_at == Some(position) && !present ==> opening(
            seed,
            position,
            assembled_at,
            present,
        ).0 is Stop,
{
}

/// A window waits for what it has asked for: for the assembly, for drafts, for
/// the trunk, for the head over every row that the trunk ran, or for the verdict.
pub proof fn windows_wait_for_what_they_ask(window: DsparkWindow, held: usize, event: WindowEvent)
    requires
        window.wf(),
        answers(event, window.stage),
    ensures
        ({
            let (asked, stage) = reaction(window, held, event);
            &&& stage == WindowStage::Assembly <==> asked is Assemble
            &&& stage == WindowStage::Draft <==> asked == WindowActionV::Draft(
                window.seed,
                window.position,
            )
            &&& stage == WindowStage::Trunk <==> asked is Forward
            &&& stage == WindowStage::Head <==> asked == WindowActionV::Head(window.tokens@.len())
            &&& stage == WindowStage::Acceptance <==> asked is Accept
            &&& stage != WindowStage::Seed
            &&& event is Done ==> stage_rank(stage) == stage_rank(window.stage) + 1
            &&& event is Failed ==> asked is Stop
            &&& event matches WindowEvent::Accepted { committed, accepted } ==> asked
                == WindowActionV::Commit(committed@, accepted, window.tokens@.len() - 1)
        }),
{
}

/// The trunk runs the seed and the drafts taken, at the seed's place, exactly
/// where they fit its scratch.
pub proof fn drafts_are_run_where_they_fit(
    window: DsparkWindow,
    held: usize,
    drafted: Vec<u32>,
)
    ensures
        ({
            let asked = reaction(window, held, WindowEvent::Drafted(drafted)).0;
            let n = if drafted@.len() < window.block {
                drafted@.len() as int
            } else {
                window.block as int
            };
            &&& asked is Forward <==> 1 + n <= held
            &&& asked is Stop <==> held < 1 + n
            &&& asked matches WindowActionV::Forward(tokens, at) ==> {
                &&& at == window.position
                &&& tokens.len() == 1 + n
                &&& tokens[0] == window.seed
                &&& forall|i: int| 0 <= i < n ==> #[trigger] tokens[1 + i] == drafted@[i]
            }
        }),
{
    let tokens = seq![window.seed] + taken(drafted@, window.block);
    assert forall|i: int| 0 <= i < taken(drafted@, window.block).len() implies #[trigger] tokens[1
        + i] == drafted@[i] by {}
}

/// A target changes only with what a window learns: whether states are
/// assembled, which layers a pass over drafts captures, and how many tokens were
/// committed.
pub proof fn targets_change_by_what_is_learnt(
    before: Deepseek4Bundle,
    after: Deepseek4Bundle,
    window: DsparkWindow,
    held: usize,
    event: WindowEvent,
)
    requires
        target_after(before, after, window, held, event),
    ensures
        event is Done || event is Failed ==> after == before,
        !(event is Accepted) ==> after.state.n_tokens == before.state.n_tokens,
        event matches WindowEvent::Accepted { committed, .. } ==> (window.position
            + committed@.len() <= u64::MAX ==> after.state.n_tokens == window.position
            + committed@.len()),
        event matches WindowEvent::Assembled { present } ==> after.state.dspark_main_hidden
            == present,
        !(event is Assembled) ==> after.state.dspark_main_hidden
            == before.state.dspark_main_hidden,
        after.state.dspark_verify_pbs == before.state.dspark_verify_pbs,
{
}

/// A block is verified exactly where a scratch is held that takes it whole.
pub proof fn blocks_fit_their_scratch(pbs: Option<PrefillBatchScratch>, len: nat)
    ensures
        verify_refusal(pbs, len) is None <==> (pbs matches Some(p) && len <= p.max_batch),
{
}

/// A block is refused exactly where the scratch is not there or holds fewer tokens,
/// and the refusal gives both numbers.
pub proof fn refused_blocks_are_measured(pbs: Option<PrefillBatchScratch>, len: nat)
    ensures
        verify_refusal(pbs, len) is None <==> (pbs matches Some(p) && len <= p.max_batch),
        (pbs matches Some(p) && len > p.max_batch) ==> (verify_refusal(pbs, len) matches Some(t)
            && text::ends(
            t,
            "("@ + decimal(pbs->Some_0.max_batch as nat) + ") < block len ("@ + decimal(len)
                + ")"@,
        )),
{
    if pbs is Some && len > pbs->Some_0.max_batch {
        let t = verify_refusal(pbs, len)->Some_0;
        let tail = "("@ + decimal(pbs->Some_0.max_batch as nat) + ") < block len ("@ + decimal(len)
            + ")"@;
        reveal_strlit("(");
        reveal_strlit("Deepseek4Bundle::verify_block: PBS max_batch (");
        assert(t.subrange(t.len() - tail.len(), t.len() as int) =~= tail);
    }
}

} // verus!
