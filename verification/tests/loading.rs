//! Loading and unloading models: carriers, plans, and what a model holds.

use hipfire::assemble::{
    ep_steps, finish_ep, finish_plain, finish_qwen35_load, finish_split, load_cohere2moe,
    load_deepseek4, load_dots_ocr, load_lfm2moe, load_minimax, load_model, loads_vision,
    DraftTarget, EpStep, Shared, Source,
};
use hipfire::carriers::{dispatch, registry, AnyCarrier, Carrier, HfqCarrier};
use hipfire::draft::{
    draft_refusal, head_names, load_dflash_state, next_power_of_two, size_setting, DdtreeState,
    TargetShape,
};
use hipfire::load_plan::{
    eviction_plan, full_attention_layers, kv_layer_mask, load_llama_dir, load_qwen35_dir,
    load_qwen35_pp, physical_cap, qwen35_route, sidecar_error, AttentionShape, CaskCtx,
    DeviceSplit, Eviction, EvictionCtx, EvictionPlan, KvLayers, LayerType, LoadAction,
    LoadSettings, Qwen35Route, SidecarFault,
};
use hipfire::loader::{kv_mode, layer_split, parse_size, parse_state_quant, SplitError, StateQuant};
use hipfire::model::{
    end_marks, eos_token, load_model_ep, resolve_chat_template, BuiltinTemplates, EpArch,
    FileTemplates, LoadedModel, ModelState, SplitHoldings,
};
use hipfire::turn_cache::AsstTurnCache;
use hipfire::unload::{unload_model, FreeAction};

#[test]
fn carriers_are_disjoint() {
    let all = registry();
    let ids = (0u32..=64).chain([20, 0xFF]);
    for id in ids {
        for is_dir in [false, true] {
            let claimers: Vec<&str> = all
                .iter()
                .filter(|c| c.claims_arch_id(id, is_dir))
                .map(|c| c.name())
                .collect();
            assert!(
                claimers.len() <= 1,
                "arch_id={id} is_dir={is_dir} claimed by multiple carriers: {claimers:?}"
            );
        }
    }
}

#[test]
fn known_ids_route_as_expected() {
    let cases: &[(u32, bool, &str)] = &[
        (7, false, "qwen2"),
        (5, false, "qwen35"),
        (6, false, "qwen35"),
        (5, true, "qwen35"),
        (6, true, "qwen35"),
        (0, false, "llama"),
        (1, false, "llama"),
        (0, true, "llama"),
        (1, true, "llama"),
        (8, false, "dots_ocr"),
        (9, false, "deepseek4"),
        (10, false, "minimax"),
        (11, false, "lfm2moe"),
        (12, false, "cohere2moe"),
    ];
    let all = registry();
    for &(id, is_dir, want) in cases {
        let got: Vec<&str> = all
            .iter()
            .filter(|c| c.claims_arch_id(id, is_dir))
            .map(|c| c.name())
            .collect();
        assert_eq!(
            got,
            vec![want],
            "arch_id={id} is_dir={is_dir} should route to exactly [{want}]"
        );
    }
}

#[test]
fn unassigned_low_ids_match_nothing() {
    let all = registry();
    for id in [2u32, 3, 4] {
        let n = all.iter().filter(|c| c.claims_arch_id(id, false)).count();
        assert_eq!(n, 0, "arch_id={id} (unassigned) should match no carrier");
    }
}

#[test]
fn an_overlap_of_carriers_is_refused_loudly() {
    let twice = vec![
        AnyCarrier::Hfq(HfqCarrier { arch_id: 30, name: "one" }),
        AnyCarrier::Hfq(HfqCarrier { arch_id: 30, name: "two" }),
    ];
    assert_eq!(
        dispatch(&twice, Some(30), false, "x.hfq"),
        Err("ambiguous carrier dispatch for x.hfq: 'one' and 'two' both claim it".to_owned())
    );
    assert_eq!(dispatch(&twice, Some(31), false, "x.hfq"), Err("no carrier for x.hfq".to_owned()));
    assert_eq!(dispatch(&registry(), None, false, "x"), Err("no carrier for x".to_owned()));
}

#[test]
fn a_model_is_loaded_by_its_carrier_or_refused() {
    let file = |id| Source { arch_id: Some(id), is_dir: false, label: "m.hfq" };
    let c = load_model(&file(12), None, "gfx1100", 1).unwrap();
    assert_eq!(c.name(), "cohere2moe");
    assert_eq!(load_model(&file(3), None, "gfx1100", 1).unwrap_err(), "no carrier for m.hfq");
    assert!(load_model(&file(7), None, "gfx1100", 2).is_err());
    assert!(load_model(&file(5), None, "gfx1100", 2).is_ok());
    let dir = Source { arch_id: Some(5), is_dir: true, label: "m" };
    assert!(load_model(&dir, None, "gfx1100", 2).is_err());
    let target = DraftTarget { head_tier: Some(18), two_bit: None, three_bit: None };
    let err = load_model(&file(5), Some(target), "gfx1100", 1).unwrap_err();
    assert!(err.contains("quant_type=18"), "got: {err}");
    // A directory's tensors are not looked at.
    assert!(load_model(&dir, Some(target), "gfx1100", 1).is_ok());
}

#[test]
fn a_draft_needs_a_head_and_weights_that_verify_fast() {
    assert_eq!(draft_refusal(Some(13), "gfx1100", 5, None, None), None);
    assert_eq!(draft_refusal(Some(17), "gfx1100", 5, None, Some("w")), None);
    assert!(draft_refusal(Some(17), "gfx906", 5, None, None).is_some());
    assert!(draft_refusal(None, "gfx1100", 5, None, None)
        .unwrap()
        .contains("no lm_head/embed_tokens tensor found"));
    assert!(draft_refusal(Some(13), "gfx1100", 5, Some("a.b"), None)
        .unwrap()
        .contains("MQ2 (qt=18) weight `a.b`"));
    assert!(draft_refusal(Some(13), "gfx1100", 6, None, Some("a.b"))
        .unwrap()
        .contains("arch_id=6 (MoE/A3B-class) has no MQ3 MoE kernels"));
    assert_eq!(head_names()[0], "lm_head.weight");
}

#[test]
fn settings_that_are_no_numbers_are_passed_over() {
    assert_eq!(size_setting(None, 4), 4);
    assert_eq!(size_setting(Some("12"), 4), 12);
    assert_eq!(size_setting(Some("+12"), 4), 12);
    assert_eq!(size_setting(Some(" 12"), 4), 4);
    assert_eq!(size_setting(Some("x"), 4), 4);
    assert_eq!(next_power_of_two(0), 1);
    assert_eq!(next_power_of_two(5), 8);
    assert_eq!(next_power_of_two(8), 8);
}

#[test]
fn a_draft_state_is_sized_by_its_target() {
    let target = TargetShape {
        dim: 5120,
        linear_num_key_heads: 16,
        linear_key_head_dim: 128,
        linear_num_value_heads: 48,
        linear_value_head_dim: 128,
        layer_types: vec![LayerType::LinearAttention, LayerType::FullAttention],
    };
    let plain = load_dflash_state(16, 100, &target, None, None);
    assert_eq!((plain.max_n, plain.hidden_k, plain.host_hidden), (17, 8192, 512_000));
    assert_eq!(plain.ddtree, None);
    let none = TargetShape { dim: 0, ..target };
    assert_eq!(load_dflash_state(16, 100, &none, None, None).hidden_k, 1);
    let target = TargetShape { dim: 5120, ..none };
    let tree = load_dflash_state(16, 100, &target, Some("20"), None);
    assert_eq!(
        tree.ddtree,
        Some(DdtreeState { budget: 20, topk: 4, qkv_dim: 16 * 128 * 2 + 48 * 128, n_fa_layers: 1 })
    );
}

#[test]
fn state_formats_and_cache_modes_are_read() {
    assert_eq!(parse_state_quant(None), Ok(StateQuant::Q8));
    assert_eq!(parse_state_quant(Some("FP32")), Ok(StateQuant::FP32));
    assert_eq!(parse_state_quant(Some("q4")), Ok(StateQuant::Q4));
    assert_eq!(
        parse_state_quant(Some("Q5")),
        Err("unsupported DeltaNet state_quant 'q5' (expected q8|fp32|q4)".to_owned())
    );
    assert_eq!(kv_mode(Some("q8"), Some("asym4")), "q8");
    assert_eq!(kv_mode(Some(""), Some("asym4")), "asym4");
    assert_eq!(kv_mode(None, None), "");
}

#[test]
fn a_split_gives_each_device_its_layers() {
    assert_eq!(layer_split("10, 6", 2, 16), Ok(vec![10, 6]));
    let err = layer_split("10,6", 3, 16).unwrap_err();
    assert_eq!(err.message(), "HIPFIRE_PP_LAYERS has 2 entries, expected pp=3");
    let err = layer_split("10,7", 2, 16).unwrap_err();
    assert_eq!(err.message(), "HIPFIRE_PP_LAYERS sum=17 != n_layers=16");
    let err = layer_split("10,x", 2, 16).unwrap_err();
    assert!(matches!(err, SplitError::Parse(_)));
    assert_eq!(
        err.message(),
        format!("HIPFIRE_PP_LAYERS parse: {}", "x".parse::<usize>().unwrap_err())
    );
    assert_eq!(
        parse_size("").unwrap_err().as_text(),
        "".parse::<usize>().unwrap_err().to_string()
    );
    assert_eq!(
        parse_size("99999999999999999999999").unwrap_err().as_text(),
        "99999999999999999999999".parse::<usize>().unwrap_err().to_string()
    );
}

fn types() -> Vec<LayerType> {
    vec![
        LayerType::LinearAttention,
        LayerType::FullAttention,
        LayerType::LinearAttention,
        LayerType::FullAttention,
    ]
}

#[test]
fn only_full_layers_have_a_cache_and_evict() {
    assert_eq!(kv_layer_mask(&types()), vec![false, true, false, true]);
    assert_eq!(full_attention_layers(&types()), vec![1, 3]);
    assert_eq!(eviction_plan(false, true, 2, &types()), EvictionPlan::Off);
    assert_eq!(
        eviction_plan(true, false, 2, &types()),
        EvictionPlan::Plain { layers: vec![1, 3] }
    );
    assert_eq!(
        eviction_plan(true, true, 2, &types()),
        EvictionPlan::Cask { layers: vec![1, 3], fold_m: 2 }
    );
    assert_eq!(
        eviction_plan(true, true, 2, &vec![LayerType::LinearAttention]),
        EvictionPlan::NoFullLayers
    );
    let base = EvictionCtx { budget: 512, beta: 64 };
    assert_eq!(Eviction::Plain(base).budget(), 512);
    assert_eq!(Eviction::Cask(CaskCtx { base, fold_m: 2 }).beta(), 64);
}

#[test]
fn the_physical_cap_lies_between_what_is_kept_and_the_window() {
    assert_eq!(physical_cap(false, 512, 64, 4096, None), 4096);
    assert_eq!(physical_cap(true, 512, 64, 4096, None), 512 + 64 + 256);
    assert_eq!(physical_cap(true, 512, 64, 4096, Some("10")), 512 + 64 + 4);
    assert_eq!(physical_cap(true, 512, 64, 4096, Some("9999")), 4096);
    assert_eq!(physical_cap(true, 512, 64, 4096, Some("700")), 700);
}

#[test]
fn a_sidecar_that_cannot_be_read_says_why() {
    let all = [
        (SidecarFault::DanglingLink, "dangling symlink (target absent): s"),
        (SidecarFault::NotFound, "file not found: s"),
        (SidecarFault::BadFormat, "bad format (why): s"),
        (SidecarFault::Truncated, "truncated/corrupt sidecar: s"),
        (SidecarFault::Other, "read error (why): s"),
    ];
    for (fault, want) in all {
        assert_eq!(
            sidecar_error(fault, "s", "why"),
            format!(
                "cask sidecar load failed — {want} (regen: hipfire sidecar-gen, or HIPFIRE_CASK_OFF=1)"
            )
        );
    }
}

fn settings(state_quant: Option<&str>) -> LoadSettings<'_> {
    LoadSettings {
        max_seq: 4096,
        kv_mode_override: None,
        kv_mode_env: Some("q8"),
        state_quant_override: state_quant,
    }
}

fn shape() -> AttentionShape {
    AttentionShape { layer_types: types(), n_kv_heads: 4, head_dim: 256 }
}

#[test]
fn a_split_load_opens_devices_first_and_finishes_last() {
    let steps = load_qwen35_pp(&shape(), &settings(None), 2, None);
    assert_eq!(steps[0], LoadAction::Devices(DeviceSplit::Uniform { devices: 2, layers: 4 }));
    match &steps[2] {
        LoadAction::KvCache(kv) => {
            assert_eq!(kv.mode, "q8");
            assert_eq!(kv.layers, KvLayers::Mask(vec![false, true, false, true]));
        }
        other => panic!("{other:?}"),
    }
    assert_eq!(steps.last(), Some(&LoadAction::Finish { pp: 2, physical_cap: 4096 }));
    let counted = load_qwen35_pp(&shape(), &settings(None), 2, Some("3,1"));
    assert_eq!(counted[0], LoadAction::Devices(DeviceSplit::Counts(vec![3, 1])));
    let failed = load_qwen35_pp(&shape(), &settings(None), 2, Some("3,2"));
    assert_eq!(failed.len(), 1);
    let late = load_qwen35_pp(&shape(), &settings(Some("bad")), 2, None);
    assert!(matches!(late.last(), Some(LoadAction::Fail(_))));
    assert_eq!(late.len(), 4);
}

#[test]
fn directories_are_loaded_on_one_device() {
    let steps = load_qwen35_dir(&shape(), &settings(None));
    assert_eq!(steps[2], LoadAction::DefaultDeltaState);
    assert_eq!(steps[3], LoadAction::SmallScratch { rows: 256 });
    let steps = load_llama_dir(32, 8, 128, &settings(None));
    match &steps[1] {
        LoadAction::KvCache(kv) => assert_eq!(kv.layers, KvLayers::All(32)),
        other => panic!("{other:?}"),
    }
    assert_eq!(qwen35_route(false, 2), Ok(Qwen35Route::Split));
    assert_eq!(qwen35_route(false, 1), Ok(Qwen35Route::File));
    assert_eq!(qwen35_route(true, 1), Ok(Qwen35Route::Directory));
    assert_eq!(
        qwen35_route(true, 2),
        Err("qwen35: safetensors + pp>1 unsupported".to_owned())
    );
}

fn shared(arch_id: u32) -> Shared<'static> {
    Shared {
        arch_id,
        max_seq: 4096,
        path: "m.hfq",
        chat_template: Some("t".to_owned()),
        cache_unbounded: None,
        cache_cap: None,
    }
}

#[test]
fn a_finished_qwen35_holds_what_was_built() {
    let plan = EvictionPlan::Plain { layers: vec![1] };
    let m = finish_qwen35_load(shared(5), 900, &plan, Ok(()), Some(Ok(())), true).unwrap();
    assert_eq!((m.physical_cap, m.max_seq, m.pp), (900, 4096, 1));
    assert_eq!(m.state, Some(ModelState::Qwen35));
    assert!(m.held.eviction && m.held.dflash && m.held.vision_weights);
    assert_eq!(m.chat_template.as_deref(), Some("t"));
    // A draft that fails is left out, an eviction that fails is not.
    let m = finish_qwen35_load(
        shared(5),
        900,
        &EvictionPlan::Off,
        Err("unused".to_owned()),
        Some(Err("no draft".to_owned())),
        false,
    )
    .unwrap();
    assert!(!m.held.dflash && !m.held.eviction);
    let err = finish_qwen35_load(shared(5), 900, &plan, Err("x".to_owned()), None, false)
        .err()
        .unwrap();
    assert_eq!(err, "build EvictionCtx: x");
    assert!(loads_vision(true, true) && !loads_vision(true, false));
}

#[test]
fn each_architecture_ends_its_turns_with_its_own_token() {
    let m = load_lfm2moe(shared(11), Ok(()), &vec![vec![1, 2], vec![7]]).unwrap();
    assert_eq!(m.lfm2moe().unwrap().eos_tok, 7);
    assert!(m.minimax().is_none() && m.cohere2moe().is_none());
    let m = load_cohere2moe(shared(12), Ok(()), &vec![vec![1, 2]]).unwrap();
    assert_eq!(m.cohere2moe().unwrap().eos_tok, 255001);
    let m = load_minimax(shared(10), Ok(()), &vec![vec![], vec![9]]).unwrap();
    assert_eq!(m.minimax().unwrap().eos_tok, 9);
    let m = load_deepseek4(shared(9), &vec![vec![3]]);
    assert_eq!(m.deepseek4_eos_tok, 3);
    assert!(m.held.deepseek4_weights && m.held.deepseek4_state && m.held.deepseek4_pbs);
    let m = load_dots_ocr(shared(8), Ok(())).unwrap();
    assert!(m.held.qwen2_state && m.held.dots_ocr_weights);
    assert_eq!(
        load_dots_ocr(shared(8), Err("e".to_owned())).err().unwrap(),
        "dots-ocr: Qwen2State::new_with_max_seq failed: e"
    );
    assert_eq!(
        load_lfm2moe(shared(11), Err("e".to_owned()), &vec![]).err().unwrap(),
        "lfm2moe: Lfm2MoeState::new_with_max_seq failed: e"
    );
    assert_eq!(
        load_cohere2moe(shared(12), Err("e".to_owned()), &vec![]).err().unwrap(),
        "cohere2moe: new_with_max_seq failed: e"
    );
    assert_eq!(
        load_minimax(shared(10), Err("e".to_owned()), &vec![]).err().unwrap(),
        "minimax: MiniMaxState::new_with_max_seq failed: e"
    );
    assert_eq!(end_marks(10).0[0], "[e~[");
    assert_eq!(eos_token(&vec![vec![1, 2]], 5), 5);
}

#[test]
fn experts_are_split_rank_by_rank() {
    let steps = ep_steps(2, 60, 4096);
    assert_eq!(
        steps,
        vec![
            EpStep::Devices(DeviceSplit::Uniform { devices: 2, layers: 60 }),
            EpStep::Weights { rank: 0 },
            EpStep::Weights { rank: 1 },
            EpStep::State { rank: 0 },
            EpStep::State { rank: 1 },
            EpStep::Partial { rank: 0, len: 4096 },
            EpStep::Partial { rank: 1, len: 4096 },
        ]
    );
    assert_eq!(load_model_ep(9), Ok(EpArch::Ds4));
    assert_eq!(load_model_ep(10), Ok(EpArch::Minimax));
    assert_eq!(
        load_model_ep(5),
        Err("EP not supported for arch_id=5 (expected 9 for DeepSeek V4 or 10 for MiniMax)"
            .to_owned())
    );
    let m = finish_ep(shared(9), EpArch::Ds4, 2);
    assert_eq!(m.ep.unwrap().ranks, 2);
}

#[test]
fn a_template_of_the_caller_wins() {
    let file = FileTemplates { default: Some("file"), tool_use: Some("{{message.tool_plan}}") };
    let builtin = BuiltinTemplates { qwen35: "q", lfm2: "l" };
    let resolve = |env: Option<&str>, own: Option<&str>, id: u32| {
        resolve_chat_template(
            env.map(str::to_owned),
            own.map(str::to_owned),
            id,
            &file,
            &builtin,
        )
    };
    assert_eq!(resolve(Some("e"), Some("o"), 5).as_deref(), Some("e"));
    assert_eq!(resolve(None, Some("o"), 5).as_deref(), Some("o"));
    assert_eq!(resolve(None, None, 5).as_deref(), Some("q"));
    assert_eq!(resolve(None, None, 0).as_deref(), Some("file"));
    assert_eq!(resolve(None, None, 12).as_deref(), Some("{{ message.tool_plan or '' }}"));
    let empty = FileTemplates { default: None, tool_use: None };
    assert_eq!(resolve_chat_template(None, None, 11, &empty, &builtin).as_deref(), Some("l"));
    assert_eq!(resolve_chat_template(None, None, 0, &empty, &builtin), None);
}

#[test]
fn everything_held_is_freed_once() {
    let mut m = finish_plain(shared(5), ModelState::Qwen35);
    m.held.dflash = true;
    m.held.prefill_checkpoints = 2;
    m.held.vision_weights = true;
    let steps = unload_model(&m);
    assert_eq!(
        steps,
        vec![
            FreeAction::DraftWeights,
            FreeAction::DraftScratch,
            FreeAction::PrefillCheckpoint { index: 0 },
            FreeAction::PrefillCheckpoint { index: 1 },
            FreeAction::BundleKvCache,
            FreeAction::BundleScratch,
            FreeAction::BundleWeights,
            FreeAction::BundleDeltaState,
            FreeAction::VisionWeights,
            FreeAction::Settle { device: 0 },
        ]
    );
    let split = finish_split(shared(5), 2, SplitHoldings { devices: 2, scratch_set: true });
    assert_eq!(
        unload_model(&split),
        vec![
            FreeAction::SplitScratchSet,
            FreeAction::SplitKvCache,
            FreeAction::SplitDeltaState,
            FreeAction::SplitWeights,
            FreeAction::Settle { device: 0 },
            FreeAction::Settle { device: 1 },
        ]
    );
}

#[test]
fn the_least_recently_used_turn_gives_way() {
    let mut c = AsstTurnCache::new_from_env(None, Some("2"));
    c.insert(1, vec![10]);
    c.insert(2, vec![20]);
    assert_eq!(c.get(&1), Some(&vec![10]));
    c.insert(3, vec![30]);
    assert!(c.contains_key(&1) && c.contains_key(&3) && !c.contains_key(&2));
    c.touch_mru(1);
    c.insert(4, vec![40]);
    assert!(c.contains_key(&1) && !c.contains_key(&3));
    let mut free = AsstTurnCache::new_from_env(Some("1"), Some("2"));
    for i in 0..100 {
        free.insert(i, vec![]);
    }
    assert!(free.contains_key(&0));
    let m = LoadedModel::skeleton(1, 8, 8, "p".to_owned(), None, None, None);
    assert!(!m.asst_turn_cache.contains_key(&0));
    assert_eq!((m.mtp_mode.as_str(), m.mtp_k), ("auto", 3));
}
