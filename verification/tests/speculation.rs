//! Speculative decoding: drafts, verified windows, and the targets behind them.

use hipfire::cohere2moe::{
    decode_step, moe_per_expert, AttnKind, Cohere2MoeConfig, CohereLayer, CohereOp, ExpertOp, Ffn,
};
use hipfire::draft::{DdtreeState, DflashPlan};
use hipfire::dspark::{
    dspark_verify_pbs_max_batch, Deepseek4Bundle, Deepseek4DsparkDrafter, DeepseekV4Config,
    DeepseekV4State, DeepseekV4Weights, DsparkConfig, MtpWindow, PrefillBatchScratch, WindowAction,
    WindowEvent,
};
use hipfire::dspark_body::{
    bare_name_candidates, can_read_shapes, config_from_sidecar_tensors, find_tensor_info,
    load_qwen3_dspark,
    BodyTensor, TensorInfo, TensorUse,
};
use hipfire::dtype::DType;
use hipfire::llama::{AdvanceStep, LlamaBundle, LlamaShape};
use hipfire::qwen2::{Qwen2Config, TokenStep};
use hipfire::spec_build::{
    build_speculator, lower_qwen35, DflashSpeculator, LiveState, PathC, Qwen35SlotGuard,
    SpecSettings, SpeculatorChoice, StepRoute,
};
use hipfire::spec_ngram::{
    prompt_chunks, NgramAction, NgramEvent, NgramSpeculator, PrefillStep, PromptChunk, SpecStep,
};
use hipfire::superop::LoweredForward;

/// Answers what a step asks for, with a match or none and the target's pick after
/// each token; what it asked for, and what it emits.
fn run_step(
    spec: &NgramSpeculator,
    seed: u32,
    emitted: &[u32],
    matched: Option<Vec<u32>>,
    pick: &dyn Fn(u32) -> u32,
) -> (Vec<NgramAction>, SpecStep) {
    let (mut run, mut action) = spec.step(40, seed, &emitted.to_vec());
    let mut asked = Vec::new();
    loop {
        let event = match &action {
            NgramAction::Lookup { .. } => NgramEvent::Matched(matched.clone()),
            NgramAction::Follow { .. } => NgramEvent::Follower(None),
            NgramAction::Verify { block, .. } => {
                NgramEvent::Picked(block.iter().map(|&t| pick(t)).collect())
            }
            NgramAction::Emit(_) => break,
            NgramAction::Stop(e) => panic!("{e}"),
            _ => NgramEvent::Done,
        };
        asked.push(std::mem::replace(&mut action, NgramAction::Save));
        action = run.advance(spec, event);
    }
    match action {
        NgramAction::Emit(step) => (asked, step),
        other => panic!("{other:?}"),
    }
}

#[test]
fn drafts_are_accepted_as_far_as_the_picks_agree() {
    let spec = NgramSpeculator::new(1024, 4, 2);
    // The target picks 2, 3, 9 and 5 behind 1, 2, 3 and 4.
    let pick = |t: u32| if t == 3 { 9 } else { t + 1 };
    let (asked, step) = run_step(&spec, 1, &[0, 1], Some(vec![2, 3, 4]), &pick);
    assert_eq!(
        asked,
        vec![
            NgramAction::Lookup { context: vec![0, 1] },
            NgramAction::Save,
            NgramAction::Verify { block: vec![1, 2, 3, 4], position: 40 },
            NgramAction::Restore,
            NgramAction::Replay { tokens: vec![1, 2, 3], position: 40 },
            NgramAction::Observe { tokens: vec![0, 1, 2, 3, 9] },
        ]
    );
    assert_eq!((step.emit, step.next_seed), (vec![2, 3, 9], 9));
    assert_eq!((step.drafted, step.accepted), (3, 2));
    // All drafts stand: nothing is run again.
    let (asked, step) = run_step(&spec, 1, &[1], Some(vec![2, 3]), &pick);
    assert_eq!(asked.last(), Some(&NgramAction::Observe { tokens: vec![1, 2, 3, 9] }));
    assert_eq!(asked.len(), 4);
    assert_eq!((step.emit, step.accepted), (vec![2, 3, 9], 2));
    // No draft at all: one plain step.
    let (asked, step) = run_step(&spec, 7, &[7], None, &pick);
    assert_eq!(asked[2], NgramAction::Verify { block: vec![7], position: 40 });
    assert_eq!((step.emit, step.drafted), (vec![8], 0));
}

#[test]
fn a_failed_step_stops_with_its_text() {
    let spec = NgramSpeculator::new(1024, 4, 2);
    let (mut run, _) = spec.step(0, 1, &vec![1]);
    assert_eq!(run.advance(&spec, NgramEvent::Matched(None)), NgramAction::Save);
    assert_eq!(
        run.advance(&spec, NgramEvent::Failed("no memory".to_owned())),
        NgramAction::Stop("no memory".to_owned())
    );
}

#[test]
fn a_prefill_keeps_the_prompt_unless_given_up() {
    let mut spec = NgramSpeculator::new(1024, 4, 2);
    let prompt = vec![4, 5, 6];
    let (mut run, reset) = spec.prefill(2, 1, true, 8);
    assert!(!reset);
    assert_eq!(
        run.step(&mut spec, &prompt, false),
        PrefillStep::Forward(PromptChunk { start: 0, end: 2, pos: 1 })
    );
    assert!(spec.prompt.is_empty());
    assert_eq!(run.step(&mut spec, &prompt, true), PrefillStep::Ready);
    assert_eq!(spec.prompt, prompt);
    let (mut run, reset) = spec.prefill(3, 1, false, 8);
    assert!(reset);
    assert_eq!(run.step(&mut spec, &vec![], true), PrefillStep::Aborted);
    assert_eq!(spec.prompt, prompt);
}

/// A target that counts upwards by `seed + 1`, skipping multiples of five.
fn pick(prev: u32) -> u32 {
    if (prev + 1) % 5 == 0 {
        prev + 2
    } else {
        prev + 1
    }
}

#[test]
fn drafting_never_changes_the_text() {
    let mut plain = Vec::new();
    let mut at = 1;
    for _ in 0..30 {
        at = pick(at);
        plain.push(at);
    }
    let spec = NgramSpeculator::new(1024, 4, 2);
    let mut text: Vec<u32> = Vec::new();
    let mut seed = 1;
    while text.len() < 30 {
        // Drafts that are wrong at every multiple of five.
        let draft = vec![seed + 1, seed + 2, seed + 3];
        let (_, step) = run_step(&spec, seed, &text, Some(draft), &pick);
        text.extend(&step.emit);
        seed = step.next_seed;
    }
    assert_eq!(&text[..30], &plain[..]);
}

#[test]
fn a_draft_is_a_match_or_a_chain_of_pairs() {
    let mut spec = NgramSpeculator::new(1024, 4, 2);
    assert_eq!(spec.matcher().ngram_lens, vec![5, 4, 3]);
    assert_eq!(spec.matcher().max_extract, 3);
    let matched = spec.build_draft(&vec![1, 2], Some(vec![7, 8, 9, 10]));
    assert_eq!(matched.draft, vec![7, 8, 9]);
    assert_eq!(matched.wants(), None);
    let mut chain = spec.build_draft(&vec![1, 2], None);
    assert_eq!(chain.wants(), Some((1, 2)));
    chain.answer(Some(3));
    assert_eq!(chain.wants(), Some((2, 3)));
    chain.answer(None);
    assert_eq!(chain.wants(), None);
    assert_eq!(chain.draft, vec![3]);
    assert_eq!(spec.build_draft(&vec![1], None).wants(), None);
    // Whatever followers come, the draft leaves room for the seed.
    let mut endless = spec.build_draft(&vec![1, 2], None);
    while let Some((_, b)) = endless.wants() {
        endless.answer(Some(b));
    }
    assert_eq!(endless.draft.len(), spec.block_size - 1);
    assert_eq!(matched.draft.len(), spec.block_size - 1);
    spec.prompt = vec![5, 6];
    spec.reset();
    assert!(spec.prompt.is_empty());
    assert_eq!(NgramSpeculator::new(1, 0, 1).block_size, 2);
    assert_eq!(spec.scratch(3000, 10).hidden_k, 4096);
}

#[test]
fn prompts_go_through_in_chunks() {
    assert_eq!(
        prompt_chunks(5, 100, 2),
        vec![
            PromptChunk { start: 0, end: 2, pos: 100 },
            PromptChunk { start: 2, end: 4, pos: 102 },
            PromptChunk { start: 4, end: 5, pos: 104 },
        ]
    );
    assert!(prompt_chunks(0, 100, 2).is_empty());
}

fn dflash(ddtree: Option<DdtreeState>) -> DflashPlan {
    DflashPlan {
        block_size: 16,
        max_n: 17,
        ctx_capacity: 4096,
        hidden_k: 8,
        host_hidden: 0,
        ddtree,
    }
}

fn no_settings() -> SpecSettings<'static> {
    SpecSettings {
        path_c: None,
        ckpt_resume: None,
        ckpt_interval: None,
        ckpt_max: None,
        ngram_draft: None,
        ngram_k: None,
        ngram_min_count: None,
    }
}

#[test]
fn a_draft_model_is_preferred_to_a_model_free_draft() {
    let c: SpeculatorChoice<u8> = build_speculator(5, Some(dflash(None)), true, 99, &no_settings());
    match c {
        SpeculatorChoice::Dflash(d) => {
            assert_eq!((d.block_size, d.ck_interval, d.ck_cap), (16, 2048, 8));
            assert!(d.resume_enabled);
        }
        other => panic!("{other:?}"),
    }
    let asked = SpecSettings { ngram_draft: Some("1"), ngram_k: Some("1"), ..no_settings() };
    match build_speculator::<u8>(5, None, true, 99, &asked) {
        SpeculatorChoice::Ngram { block_size, ctx_capacity, .. } => {
            assert_eq!((block_size, ctx_capacity), (2, 99));
        }
        other => panic!("{other:?}"),
    }
    assert_eq!(build_speculator::<u8>(5, None, true, 99, &no_settings()), SpeculatorChoice::Plain);
    assert_eq!(build_speculator::<u8>(200, None, true, 99, &asked), SpeculatorChoice::Plain);
}

#[test]
fn rewinding_drops_the_checkpoints_behind() {
    let mut d: DflashSpeculator<&str> = DflashSpeculator::new(dflash(None), None, true, 256, 4);
    d.checkpoints = vec![(10, "a"), (20, "b"), (30, "c")];
    assert_eq!(d.checkpoint_positions(), vec![10, 20, 30]);
    let r = d.rewind_to(20);
    assert_eq!((r.restore, r.dropped), (Some(1), vec!["c"]));
    let again = d.rewind_to(20);
    assert_eq!((again.restore, again.dropped.len()), (Some(1), 0));
    assert_eq!(d.rewind_to(15).restore, None);
    assert_eq!(d.reset(), vec!["a", "b"]);
    assert!(d.free().is_empty());
}

#[test]
fn a_step_takes_the_tree_where_there_is_one() {
    let tree = DdtreeState { budget: 20, topk: 4, qkv_dim: 8, n_fa_layers: 1 };
    let chain: DflashSpeculator<u8> = DflashSpeculator::new(dflash(None), None, false, 256, 4);
    assert_eq!(chain.step(), StepRoute::Chain);
    let batched: DflashSpeculator<u8> =
        DflashSpeculator::new(dflash(Some(tree)), None, false, 256, 4);
    assert_eq!(batched.step(), StepRoute::TreeBatched { budget: 20, topk: 4 });
    let path: DflashSpeculator<u8> =
        DflashSpeculator::new(dflash(Some(tree)), Some(PathC::Phase2), false, 256, 4);
    assert_eq!(path.step(), StepRoute::TreePathC { budget: 20, topk: 4, snapshots: true });
    let miss = path.prefill(100, 100, 0, false);
    assert!(miss.reset_tracking);
    assert_eq!((miss.scatter_off, miss.scatter_len), (0, 100));
    let hit = path.prefill(100, 40, 60, true);
    assert_eq!((hit.suffix_from, hit.scatter_off, hit.scatter_len), (Some(60), 60, 40));
    assert_eq!(path.prompt_rows(3, Some(2)).abs_positions, vec![0, 1, 2]);
    let s = lower_qwen35(&vec![1, 2, 3], 4, 5, 2);
    assert_eq!((s.emit, s.next_seed, s.accepted), (vec![2, 3], 4, 2));
}

#[test]
fn a_lent_bundle_comes_back() {
    let mut state: Option<LiveState<&str, u8>> = Some(LiveState::Qwen35("bundle"));
    let mut guard: Qwen35SlotGuard<&str, &str> = Qwen35SlotGuard::take(&mut state, "m").unwrap();
    assert_eq!(state, None);
    assert_eq!(guard.model_path, "m");
    assert!(guard.wants_file());
    let failed = guard.slot(Some(Err("gone".to_owned())));
    assert_eq!(failed, Err("reopen model: gone".to_owned()));
    assert!(guard.wants_file());
    let slot = guard.slot(Some(Ok("file"))).unwrap();
    assert_eq!((slot.bundle, slot.hfq), ("bundle", Some("file")));
    slot.bundle = "changed";
    assert!(!guard.wants_file());
    let slot = guard.slot(None).unwrap();
    assert_eq!((slot.bundle, slot.hfq), ("changed", Some("file")));
    slot.bundle = "changed again";
    assert_eq!(guard.restore(&mut state), Some("file"));
    assert_eq!(state, Some(LiveState::Qwen35("changed again")));
    // A file that never opens loses nothing either.
    let mut guard: Qwen35SlotGuard<&str, &str> = Qwen35SlotGuard::take(&mut state, "m").unwrap();
    assert!(guard.slot(Some(Err("gone".to_owned()))).is_err());
    assert_eq!(guard.restore(&mut state), None);
    assert_eq!(state, Some(LiveState::Qwen35("changed again")));
    let mut other: Option<LiveState<&str, u8>> = Some(LiveState::Other(1));
    assert!(Qwen35SlotGuard::<&str, &str>::take(&mut other, "m").is_err());
    assert_eq!(other, Some(LiveState::Other(1)));
}

fn bundle() -> Deepseek4Bundle {
    Deepseek4Bundle {
        config: DeepseekV4Config { hidden_size: 4, max_position_embeddings: 100 },
        weights: DeepseekV4Weights {
            dspark: Some(DsparkConfig {
                block_size: 6,
                target_layer_ids: vec![1, 2],
                enable_confidence: false,
            }),
            token_embd: true,
            head: true,
            output_norm: true,
        },
        state: DeepseekV4State {
            n_tokens: 9,
            mtp_last_hidden: true,
            dspark_target_layers: vec![],
            dspark_capture_active: false,
            dspark_main_hidden: false,
            dspark_verify_pbs: None,
        },
        eos_tok: 1,
    }
}

#[test]
fn a_trunk_verifies_blocks_that_its_scratch_holds() {
    let mut b = bundle();
    assert_eq!(
        b.verify_block(&vec![1]).unwrap_err(),
        "Deepseek4Bundle::verify_block: dspark_verify_pbs not allocated (call new_spec_scratch first)"
    );
    assert_eq!(b.missing_scratch(Some("2")), Some(2));
    b.hold_scratch(2);
    assert_eq!(b.missing_scratch(None), None);
    assert_eq!(
        b.verify_block(&vec![1, 2, 3]).unwrap_err(),
        "Deepseek4Bundle::verify_block: PBS max_batch (2) < block len (3)"
    );
    assert_eq!(b.verify_block(&vec![1, 2]), Ok(()));
    assert!(b.state.dspark_capture_active);
    b.commit_prefix(1, 10);
    assert_eq!(b.state.n_tokens, 12);
    assert_eq!(b.capture_seed_main_hidden(&vec![3, 4, 5]), 12);
    assert_eq!(b.state.dspark_target_layers, vec![3, 4, 5]);
    b.reset_recurrent();
    assert_eq!((b.state.n_tokens, b.state.mtp_last_hidden), (0, false));
    assert_eq!((b.eos_token(), b.ctx_capacity()), (1, 100));
    assert_eq!(dspark_verify_pbs_max_batch(None), 1024);
}

fn ready_drafter(b: &mut Deepseek4Bundle, held: usize) -> Deepseek4DsparkDrafter {
    let mut d = Deepseek4DsparkDrafter::new(20, 100);
    assert_eq!(d.begin_prefill(b, false, None), Some(1024));
    d.hold_scratch(held);
    d.mtp_prefill(b).unwrap();
    d
}

#[test]
fn a_window_opens_is_verified_and_closes() {
    let mut b = bundle();
    let early = Deepseek4DsparkDrafter::new(20, 100);
    assert_eq!(early.k(), 8);
    assert!(early.requires_greedy());
    assert_eq!(
        early.mtp_step(&mut b, 5, 7, 3, 1, None).unwrap_err(),
        "Deepseek4DsparkDrafter: mtp_step before mtp_prefill"
    );
    let mut d = ready_drafter(&mut b, 4);
    assert!(b.state.dspark_capture_active);
    assert_eq!(
        d.mtp_step(&mut b, 5, 7, 3, 1, Some(false)).unwrap_err(),
        "Deepseek4DsparkDrafter: grammar handle is not a Deepseek4SpecGrammar"
    );
    let (mut w, action) = d.mtp_step(&mut b, 5, 7, 3, 1, Some(true)).unwrap();
    assert_eq!((w.block, w.position, w.seed), (3, 5, 7));
    assert_eq!(action, WindowAction::Forward { tokens: vec![7], position: 5 });
    assert_eq!(b.state.dspark_target_layers, vec![1, 2]);
    assert_eq!(d.advance(&mut b, &mut w, WindowEvent::Done), WindowAction::Assemble);
    assert_eq!(
        d.advance(&mut b, &mut w, WindowEvent::Assembled { present: true }),
        WindowAction::Draft { seed: 7, position: 5 }
    );
    assert!(b.state.dspark_main_hidden);
    assert_eq!(
        d.advance(&mut b, &mut w, WindowEvent::Drafted(vec![8, 9, 10, 11])),
        WindowAction::Forward { tokens: vec![7, 8, 9, 10], position: 5 }
    );
    assert_eq!(d.advance(&mut b, &mut w, WindowEvent::Done), WindowAction::Head { rows: 4 });
    assert_eq!(
        d.advance(&mut b, &mut w, WindowEvent::Done),
        WindowAction::Accept { drafts: vec![8, 9, 10], eos: 1 }
    );
    assert_eq!(
        d.advance(
            &mut b,
            &mut w,
            WindowEvent::Accepted { committed: vec![8, 9, 12], accepted: 2 },
        ),
        WindowAction::Commit(MtpWindow {
            committed: vec![8, 9, 12],
            accepted: 2,
            drafts_generated: 3,
        })
    );
    assert_eq!(b.state.n_tokens, 8);
    d.mtp_reset();
    assert_eq!(d.ctx_capacity(), 100);
    assert_eq!(d.mtp_free(), Some(PrefillBatchScratch { max_batch: 4 }));
}

#[test]
fn a_window_stops_where_something_is_missing_or_fails() {
    let mut b = bundle();
    let mut d = ready_drafter(&mut b, 2);
    let (mut w, _) = d.mtp_step(&mut b, 5, 7, 3, 1, None).unwrap();
    assert_eq!(
        d.advance(&mut b, &mut w, WindowEvent::Failed("oom".to_owned())),
        WindowAction::Stop("dspark bootstrap forward: oom".to_owned())
    );
    let (mut w, _) = d.mtp_step(&mut b, 5, 7, 3, 1, None).unwrap();
    d.advance(&mut b, &mut w, WindowEvent::Done);
    assert_eq!(
        d.advance(&mut b, &mut w, WindowEvent::Assembled { present: false }),
        WindowAction::Stop("dspark: main_hidden missing after bootstrap".to_owned())
    );
    let (mut w, _) = d.mtp_step(&mut b, 5, 7, 3, 1, None).unwrap();
    d.advance(&mut b, &mut w, WindowEvent::Done);
    d.advance(&mut b, &mut w, WindowEvent::Assembled { present: true });
    assert_eq!(
        d.advance(&mut b, &mut w, WindowEvent::Drafted(vec![8, 9])),
        WindowAction::Stop("dspark verify: PBS max_batch (2) < verify len (3)".to_owned())
    );
    assert_eq!(b.state.n_tokens, 0);
    assert_eq!(
        b.seed_captured(false).unwrap_err(),
        "Deepseek4Bundle::capture_seed_main_hidden: dspark_main_hidden is None after assemble"
    );
    assert_eq!(b.seed_captured(true), Ok(()));
}

fn info(name: &str, shape: &[u32]) -> TensorInfo {
    TensorInfo { name: name.to_owned(), quant_type: 1, shape: shape.to_vec() }
}

fn body() -> Vec<TensorInfo> {
    vec![
        info("embed_tokens.weight", &[1000, 64]),
        info("layers.0.self_attn.q_norm.weight", &[16]),
        info("layers.0.self_attn.q_proj.weight", &[64, 64]),
        info("layers.0.self_attn.k_proj.weight", &[32, 64]),
        info("layers.0.mlp.gate_proj.weight", &[128, 64]),
        info("layers.0.input_layernorm.weight", &[64]),
        info("layers.1.input_layernorm.weight", &[64]),
    ]
}

#[test]
fn a_drafter_is_configured_by_the_shapes_of_its_tensors() {
    assert!(can_read_shapes(&body()));
    let mut headless = body();
    for t in headless.iter_mut().filter(|t| t.name == "layers.0.self_attn.q_norm.weight") {
        t.shape = vec![0];
    }
    assert!(!can_read_shapes(&headless));
    headless.retain(|t| t.name != "layers.0.self_attn.q_norm.weight");
    assert!(can_read_shapes(&headless));
    let c = config_from_sidecar_tensors(&body()).unwrap();
    assert_eq!((c.vocab_size, c.dim, c.head_dim, c.n_heads, c.n_kv_heads), (1000, 64, 16, 4, 2));
    assert_eq!((c.hidden_dim, c.n_layers), (128, 2));
    let mut gone = body();
    gone.remove(0);
    assert_eq!(config_from_sidecar_tensors(&gone).unwrap_err(), "embed_tokens.weight missing");
    let mut odd = body();
    odd[0].shape = vec![7];
    assert_eq!(
        config_from_sidecar_tensors(&odd).unwrap_err(),
        "embed_tokens.weight unexpected shape [7]"
    );
    assert_eq!(find_tensor_info(&body(), "layers.1.input_layernorm.weight"), Some(6));
    assert!(BodyTensor::is_half(&body()[0]));
}

#[test]
fn a_drafter_loads_its_layers_and_then_its_heads() {
    let spark = DsparkConfig {
        block_size: 6,
        target_layer_ids: vec![1],
        enable_confidence: false,
    };
    let plan = load_qwen3_dspark(Some(&spark), &body()).unwrap().unwrap();
    assert!(plan.tensors.len() > 2 * 11);
    let q = plan.tensors.iter().find(|t| t.label == "wq").unwrap();
    assert_eq!(q.name, "layers.0.self_attn.q_proj.weight");
    assert_eq!(q.taken, TensorUse::Matrix { m: 64, k: 64 });
    assert_eq!(q.find(&body()), Ok(2));
    let v = plan.tensors.iter().find(|t| t.label == "wv").unwrap();
    assert!(v.find(&body()).is_err());
    assert_eq!(load_qwen3_dspark(None, &body()), Ok(None));
    assert!(bare_name_candidates("x.weight").contains(&"x.weight".to_owned()));
}

#[test]
fn a_llama_takes_its_prompt_in_chunks_unless_given_up() {
    let config = LlamaShape { n_layers: 2, n_kv_heads: 1, head_dim: 4, eos_token: 2 };
    let mut b: LlamaBundle = hipfire::llama::load_bundle(false, config, 64).unwrap();
    assert_eq!(b.new_spec_scratch(1).block_size, 2);
    assert_eq!(b.dflash_extract_layers(), None);
    b.kv.compact_offset = 5;
    let mut run = b.spec_advance(3, 10, false, true, 2);
    assert_eq!(
        run.step(&mut b, false),
        AdvanceStep::Forward {
            chunk: PromptChunk { start: 0, end: 2, pos: 10 },
            capture: false,
        }
    );
    assert_eq!(b.kv.compact_offset, 5);
    assert_eq!(run.step(&mut b, true), AdvanceStep::Aborted);
    assert_eq!(b.kv.compact_offset, 0);
    run.step(&mut b, false);
    assert_eq!(run.step(&mut b, true), AdvanceStep::Ready);
    b.dflash_extract_layers = vec![1];
    assert!(b.captures(true) && !b.captures(false));
    assert_eq!((b.eos_token(), b.ctx_capacity()), (2, 64));
    assert!(hipfire::llama::load_bundle(true, config, 64).is_err());
}

#[test]
fn a_qwen2_takes_its_tokens_one_by_one() {
    let config = Qwen2Config { eos_token_id: 3, vocab_size: 10 };
    let mut b = hipfire::qwen2::load_bundle(false, false, false, config, 64).unwrap();
    let mut run = b.spec_advance(2, 7, true);
    assert_eq!(b.state.next_pos, 7);
    assert_eq!(run.step(&mut b, false), TokenStep::Forward);
    b.step();
    assert_eq!(b.state.next_pos, 8);
    assert_eq!(run.step(&mut b, true), TokenStep::Aborted);
    assert_eq!(b.state.next_pos, 0);
    assert_eq!(run.step(&mut b, false), TokenStep::Forward);
    assert_eq!(run.step(&mut b, true), TokenStep::Ready);
    b.verify_block(12);
    assert_eq!(b.state.next_pos, 12);
    b.reset_recurrent();
    assert_eq!(b.state.next_pos, 0);
    let refused = |d, e| hipfire::qwen2::load_bundle(false, d, e, config, 64).unwrap_err();
    assert!(refused(true, false).starts_with("DFlash not supported"));
    assert!(refused(false, true).starts_with("CASK eviction not supported"));
}

#[test]
fn one_norm_feeds_attention_and_experts() {
    let cfg = Cohere2MoeConfig {
        hidden_size: 8,
        head_dim: 4,
        moe_intermediate_size: 6,
        num_experts: 4,
        num_experts_per_tok: 2,
        norm_topk_prob: true,
    };
    let layers = vec![
        CohereLayer { attn_kind: AttnKind::Full, ffn: Ffn::Dense },
        CohereLayer { attn_kind: AttnKind::Sliding, ffn: Ffn::Moe(DType::MQ4G256) },
    ];
    let p = decode_step(cfg, &layers, DType::Q8_0, 5, 3);
    assert_eq!(p.n_tokens, 4);
    let norms = p.ops.iter().filter(|o| matches!(o, CohereOp::LayerNorm { .. })).count();
    assert_eq!(norms, 2, "one for each layer");
    let rotated: Vec<usize> = p
        .ops
        .iter()
        .filter_map(|o| match o {
            CohereOp::Rope { layer, .. } => Some(*layer),
            _ => None,
        })
        .collect();
    assert_eq!(rotated, vec![1], "only the sliding layer");
    assert!(p.ops.iter().all(|o| o.refusal().is_none()));
    let odd = vec![CohereLayer { attn_kind: AttnKind::Full, ffn: Ffn::Moe(DType::BF16) }];
    let refused: Vec<String> =
        decode_step(cfg, &odd, DType::F16, 5, 3).ops.iter().filter_map(|o| o.refusal()).collect();
    assert_eq!(
        refused,
        vec![
            "cohere2moe: embed dtype F16 has no lookup path (use Q8 or F32 tied embeddings)",
            "cohere2moe L0: unsupported expert dtype BF16",
        ]
    );
    assert_eq!(p.ops.last(), Some(&CohereOp::LmHead));
}

#[test]
fn experts_run_one_by_one_where_they_must() {
    let ops = moe_per_expert(&vec![3, 9], 4, 6, 2);
    assert_eq!(ops[0], ExpertOp::GateUp { expert: 3 });
    assert_eq!(ops[1], ExpertOp::Activate { gate_at: 0, up_at: 6, n: 6 });
    assert_eq!(ops[4], ExpertOp::GateUp { expert: 3 });
    assert_eq!(ops.len(), 8);
}

#[test]
fn a_lowered_forward_starts_empty() {
    let f = LoweredForward::new(7);
    assert!(f.layers.is_empty());
    assert_eq!(f.weight_gen, 7);
}
