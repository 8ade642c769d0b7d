//! Maple: names, configuration, loading, and the programs of its passes.

use hipfire::batch::{
    dense_m_total, dense_slot_index_host, moe_grouped_m_total_bound, prefill_chunks,
    MOE_GROUPED_BLOCK_M,
};
use hipfire::dtype::{bf16_to_f32, DType};
use hipfire::hfq::{read_tensor, RawTensor, TensorSource};
use hipfire::maple::{
    expert_tensor_name, router_tensor_name, ExpertProj, EMBED_TENSOR_NAME, LM_HEAD_TENSOR_NAME,
};
use hipfire::maple_config::{MapleConfig, MapleLayerType};
use hipfire::maple_dump::layer_record;
use hipfire::maple_forward::{
    decode_step, decode_step_body, forward_batch, forward_batch_supported, row_view, MapleOp,
    NormSite, Projection,
};
use hipfire::maple_load::{
    load_plan, load_step, names_of, wt_from_raw, LayerTiers, LoadStep, Loaded, MapleWeights,
};
use hipfire::maple_state::{MapleState, ResetAction, DEFAULT_MAX_SEQ};

fn cfg() -> MapleConfig {
    let s = MapleLayerType::Sliding;
    let f = MapleLayerType::Full;
    MapleConfig {
        vocab_size: 151936,
        hidden_size: 2048,
        num_hidden_layers: 8,
        num_attention_heads: 16,
        num_key_value_heads: 4,
        head_dim: 128,
        moe_intermediate_size: 512,
        num_experts: 256,
        num_experts_per_tok: 8,
        rotary_width: 64,
        sliding_window: 512,
        max_position_embeddings: 131072,
        norm_topk_prob: true,
        swiglu_clamp: 7,
        layer_types: vec![s, s, s, f, s, s, s, f],
    }
}

/// One layer that attends in full, with two experts of which one is taken.
fn small(layer: MapleLayerType) -> MapleConfig {
    MapleConfig {
        vocab_size: 10,
        hidden_size: 8,
        num_hidden_layers: 1,
        num_attention_heads: 2,
        num_key_value_heads: 1,
        head_dim: 4,
        moe_intermediate_size: 6,
        num_experts: 2,
        num_experts_per_tok: 1,
        rotary_width: 2,
        sliding_window: 3,
        max_position_embeddings: 64,
        norm_topk_prob: false,
        swiglu_clamp: 7,
        layer_types: vec![layer],
    }
}

fn reference_swiglu(gate: f32, up: f32, limit: f32) -> f32 {
    let g = gate.min(limit);
    let u = up.clamp(-limit, limit);
    (g / (1.0 + (-g).exp())) * u
}

#[test]
fn dense_m_total_rounds_up_to_block_m() {
    assert_eq!(dense_m_total(1), 16);
    assert_eq!(dense_m_total(16), 16);
    assert_eq!(dense_m_total(17), 32);
    assert_eq!(dense_m_total(256), 256);
}

#[test]
fn moe_m_total_bound_covers_worst_case_padding() {
    let slots = 256 * 8;
    let bound = moe_grouped_m_total_bound(slots, 256);
    assert!(bound >= slots, "bound must cover the real slots");
    assert!(bound >= slots + 256 * (MOE_GROUPED_BLOCK_M - 1) - 15);
    assert_eq!(bound % MOE_GROUPED_BLOCK_M, 0, "must be a whole tile count");
}

#[test]
fn moe_m_total_bound_uses_live_experts_not_all_experts() {
    let bound = moe_grouped_m_total_bound(2, 256);
    assert!(bound < 256 * MOE_GROUPED_BLOCK_M, "over-padded: {bound}");
}

#[test]
fn chunks_tile_the_prompt_exactly_and_in_order() {
    let c = prefill_chunks(600, 256);
    assert_eq!(c, vec![(0, 256), (256, 256), (512, 88)]);
    assert_eq!(c.iter().map(|(_, n)| n).sum::<usize>(), 600);
    let mut next = 0;
    for (start, n) in c {
        assert_eq!(start, next);
        next += n;
    }
}

#[test]
fn chunks_handle_exact_multiples_and_short_prompts() {
    assert_eq!(prefill_chunks(256, 256), vec![(0, 256)]);
    assert_eq!(prefill_chunks(1, 256), vec![(0, 1)]);
    assert_eq!(prefill_chunks(0, 256), vec![]);
}

#[test]
fn the_bound_holds_for_every_way_of_handing_out_slots() {
    // Seven slots over three experts, as unevenly padded as they can be.
    let bound = moe_grouped_m_total_bound(7, 3);
    for a in 0..=7usize {
        for b in 0..=(7 - a) {
            let c = 7 - a - b;
            let padded: usize = [a, b, c].iter().map(|&n| (n + 15) / 16 * 16).sum();
            assert!(padded <= bound, "{a} {b} {c}: {padded} > {bound}");
        }
    }
}

#[test]
fn a_dense_batch_maps_slots_to_rows_and_pads_with_minus_one() {
    let slots = dense_slot_index_host(3);
    assert_eq!(slots.len(), 16);
    assert_eq!(&slots[..4], &[0, 1, 2, -1]);
    assert!(slots[3..].iter().all(|&s| s == -1));
}

#[test]
fn the_clamp_is_asymmetric_gate_above_only_up_both_ways() {
    let l = 7.0f32;
    assert_eq!(reference_swiglu(100.0, 1.0, l), reference_swiglu(7.0, 1.0, l));
    assert_ne!(reference_swiglu(-100.0, 1.0, l), reference_swiglu(-7.0, 1.0, l));
    assert_eq!(reference_swiglu(1.0, 100.0, l), reference_swiglu(1.0, 7.0, l));
    assert_eq!(reference_swiglu(1.0, -100.0, l), reference_swiglu(1.0, -7.0, l));
}

#[test]
fn the_clamp_limit_is_seven_not_deepseeks_ten() {
    let c = cfg();
    assert_eq!(c.swiglu_clamp as f32, 7.0);
    assert_ne!(reference_swiglu(9.0, 1.0, 7.0), reference_swiglu(9.0, 1.0, 10.0));
}

#[test]
fn rope_is_applied_on_sliding_layers_only() {
    let c = cfg();
    let roped: Vec<usize> = (0..c.num_hidden_layers).filter(|&l| c.applies_rope(l)).collect();
    assert_eq!(roped, vec![0, 1, 2, 4, 5, 6], "layers 3 and 7 are NoPE");
}

#[test]
fn rotary_covers_half_the_head_and_pairs_within_that_block() {
    let c = cfg();
    assert_eq!(c.rotary_dim(), 64);
    assert_eq!(c.rotary_dim() / 2, 32);
    assert_ne!(c.rotary_dim() / 2, c.head_dim / 2);
}

#[test]
fn sliding_window_is_512_and_full_layers_are_unwindowed() {
    let c = cfg();
    assert_eq!(c.attention_span(0, 10_000).len(), 512);
    assert_eq!(c.attention_span(3, 10_000).start, 0);
}

#[test]
fn a_span_ends_behind_its_own_token() {
    let c = cfg();
    assert_eq!(c.attention_span(0, 10), 0..11);
    assert_eq!(c.attention_span(0, 600), 89..601);
    assert_eq!(c.attention_span(3, 600), 0..601);
    assert_eq!(c.q_dim(), 2048);
    assert_eq!(c.kv_dim(), 512);
    assert_eq!(c.window(3), 0);
    assert_eq!(c.window(0), 512);
}

#[test]
fn expert_tensor_names_match_the_published_checkpoint() {
    assert_eq!(
        expert_tensor_name(7, 255, ExpertProj::Down),
        "model.layers.7.mlp.experts.255.down_proj.weight"
    );
    assert_eq!(
        expert_tensor_name(0, 0, ExpertProj::Gate),
        "model.layers.0.mlp.experts.0.gate_proj.weight"
    );
    assert_eq!(
        expert_tensor_name(3, 12, ExpertProj::Up),
        "model.layers.3.mlp.experts.12.up_proj.weight"
    );
}

#[test]
fn router_is_mlp_gate_not_an_expert_gate_proj() {
    assert_eq!(router_tensor_name(3), "model.layers.3.mlp.gate.weight");
    assert_ne!(router_tensor_name(3), expert_tensor_name(3, 0, ExpertProj::Gate));
}

#[test]
fn embedding_is_word_embeddings_not_embed_tokens() {
    assert_eq!(EMBED_TENSOR_NAME, "model.word_embeddings.weight");
    assert_ne!(EMBED_TENSOR_NAME, "model.embed_tokens.weight");
    assert_eq!(LM_HEAD_TENSOR_NAME, "lm_head.weight");
    assert_ne!(LM_HEAD_TENSOR_NAME, EMBED_TENSOR_NAME);
}

#[test]
fn no_two_experts_share_a_tensor_name() {
    let mut names = Vec::new();
    for layer in [0usize, 1, 10, 11] {
        for expert in [0usize, 1, 10, 11] {
            for proj in [ExpertProj::Gate, ExpertProj::Up, ExpertProj::Down] {
                names.push(expert_tensor_name(layer, expert, proj));
            }
        }
    }
    let n = names.len();
    names.sort();
    names.dedup();
    assert_eq!(names.len(), n);
}

#[test]
fn bf16_widening_matches_the_reference_bit_pattern() {
    assert_eq!(f32::from_bits(bf16_to_f32(0x3F80)), 1.0);
    assert_eq!(f32::from_bits(bf16_to_f32(0xBF80)), -1.0);
    assert_eq!(f32::from_bits(bf16_to_f32(0x0000)), 0.0);
    assert_eq!(f32::from_bits(bf16_to_f32(0x4049)), f32::from_bits(0x40490000));
}

#[test]
fn tiers_of_matrices_are_known_by_number() {
    assert_eq!(wt_from_raw(3), Some(DType::Q8_0));
    assert_eq!(wt_from_raw(51), Some(DType::MQ2G256LloydU));
    assert_eq!(wt_from_raw(200), None);
    assert_eq!(DType::MQ2G256LloydU.name(), "MQ2G256LloydU");
}

fn raw(name: &str, quant_type: u8, data: Vec<u8>) -> RawTensor {
    RawTensor { name: name.to_owned(), quant_type, data }
}

#[test]
fn a_tensor_is_read_from_the_overlay_before_the_base() {
    let base = vec![raw("a", 3, vec![1]), raw("b", 3, vec![2])];
    let over = vec![raw("a", 13, vec![9])];
    let plain = TensorSource::new(&base);
    assert_eq!(plain.tensor("a"), Some((3, vec![1])));
    let laid = TensorSource { base: &base, overlay: Some(&over) };
    assert_eq!(laid.tensor("a"), Some((13, vec![9])));
    assert_eq!(laid.tensor("b"), Some((3, vec![2])));
    assert_eq!(laid.tensor("c"), None);
    assert_eq!(read_tensor(&base, "b"), Some((3, vec![2])));
}

/// A table that holds everything that a plan asks for.
fn table_for(cfg: &MapleConfig, tier: u8) -> Vec<RawTensor> {
    let mut table = Vec::new();
    for step in load_plan(cfg) {
        let (first, second) = names_of(&step);
        let q = match step {
            LoadStep::Matrix { .. } | LoadStep::GateUp { .. } | LoadStep::Down { .. } => tier,
            LoadStep::Vector { .. } => 2,
            LoadStep::Embed => 3,
        };
        table.push(raw(&first, q, vec![1, 2, 3, 4]));
        if let Some(s) = second {
            table.push(raw(&s, q, vec![5, 6, 7, 8]));
        }
    }
    table
}

#[test]
fn a_load_takes_everything_in_the_order_of_the_plan() {
    let c = small(MapleLayerType::Full);
    let plan = load_plan(&c);
    let table = table_for(&c, 51);
    let weights = MapleWeights::load(&table, &c).unwrap();
    assert_eq!(weights.loaded.len(), plan.len());
    let tiers = weights.tiers(&c);
    assert_eq!(tiers.len(), 1);
    let t = DType::MQ2G256LloydU;
    assert_eq!(tiers, tiers_of(t, 1));
}

#[test]
fn one_expert_of_another_tier_keeps_a_layer_from_batches() {
    let c = small(MapleLayerType::Full);
    let down = expert_tensor_name(0, 1, ExpertProj::Down);
    let mut table = table_for(&c, 51);
    assert!(forward_batch_supported(&MapleWeights::load(&table, &c).unwrap().tiers(&c)));
    for t in table.iter_mut().filter(|t| t.name == down) {
        t.quant_type = 3;
    }
    let tiers = MapleWeights::load(&table, &c).unwrap().tiers(&c);
    assert_eq!(tiers[0].down, DType::MQ2G256LloydU);
    assert!(!tiers[0].uniform_experts);
    assert!(!forward_batch_supported(&tiers));
    assert!(forward_batch(&c, &tiers, DType::Q8_0, 16, &vec![1, 2], 0).is_err());
    // Decoding goes by the first expert alone.
    assert_eq!(decode_step_body(&c, &tiers, 0), decode_step_body(&c, &tiers_of(tiers[0].down, 1), 0));
}

#[test]
fn gate_and_up_are_stacked_into_one_matrix() {
    let step = LoadStep::GateUp { layer: 0, expert: 1, m: 12, k: 8 };
    let (gate, up) = names_of(&step);
    assert_eq!(gate, "model.layers.0.mlp.experts.1.gate_proj.weight");
    assert_eq!(up.as_deref(), Some("model.layers.0.mlp.experts.1.up_proj.weight"));
    let loaded = load_step(&step, Some((51, vec![1, 2])), Some((51, vec![3]))).unwrap();
    assert_eq!(
        loaded,
        Loaded::Matrix { dtype: DType::MQ2G256LloydU, m: 12, k: 8, data: vec![1, 2, 3] }
    );
    assert_eq!(loaded.dtype(), DType::MQ2G256LloydU);
}

#[test]
fn a_load_stops_at_the_first_tensor_that_is_missing_or_unsupported() {
    let c = small(MapleLayerType::Full);
    let mut table = table_for(&c, 51);
    let gone = table.remove(2);
    let err = MapleWeights::load(&table, &c).unwrap_err();
    assert!(err.contains(&gone.name), "got: {err}");
    let table = table_for(&c, 200);
    assert!(MapleWeights::load(&table, &c).is_err());
}

#[test]
fn the_state_is_as_large_as_its_window() {
    let c = cfg();
    let s = MapleState::new_with_max_seq(&c, 1000);
    assert_eq!(s.max_seq, 1000);
    assert_eq!(s.n_tokens, 0);
    assert_eq!(s.sizes.fa_q, 2048);
    assert_eq!(s.sizes.fa_k, 512);
    assert_eq!(s.sizes.gate_batch, 8 * 512);
    assert_eq!(s.sizes.logits, 151936);
    // Eight tiles of 128 cover the window.
    assert_eq!(s.sizes.flash_partials, 16 * 8 * 130 * 64);
    let mut d = MapleState::new(&c);
    assert_eq!(d.max_seq, DEFAULT_MAX_SEQ);
    d.n_tokens = 9;
    assert_eq!(d.reset(), ResetAction::ClearKv);
    assert_eq!(d.n_tokens, 0);
}

fn tiers_of(t: DType, layers: usize) -> Vec<LayerTiers> {
    (0..layers)
        .map(|_| LayerTiers {
            wq: t,
            wk: t,
            wv: t,
            wo: t,
            gate_up: t,
            down: t,
            uniform_experts: true,
        })
        .collect()
}

#[test]
fn a_decode_step_is_refused_behind_the_window() {
    let c = small(MapleLayerType::Sliding);
    let t = tiers_of(DType::MQ2G256LloydU, 1);
    assert!(decode_step(&c, &t, DType::Q8_0, 4, 1, 3).is_ok());
    assert!(decode_step(&c, &t, DType::Q8_0, 4, 1, 4).is_err());
}

#[test]
fn a_decode_step_rotates_after_the_norms_and_only_where_it_slides() {
    for layer in [MapleLayerType::Sliding, MapleLayerType::Full] {
        let c = small(layer);
        let t = tiers_of(DType::MQ2G256LloydU, 1);
        let ops = decode_step_body(&c, &t, 2);
        let norm = ops
            .iter()
            .position(|o| matches!(o, MapleOp::Norm { site: NormSite::Key, .. }))
            .unwrap();
        let rope = ops.iter().position(|o| matches!(o, MapleOp::Rope { .. }));
        match layer {
            MapleLayerType::Sliding => {
                assert!(norm < rope.unwrap());
                assert!(ops.contains(&MapleOp::Rope { layer: 0, n_rot: 2, rows: 1 }));
            }
            MapleLayerType::Full => assert_eq!(rope, None),
        }
        assert!(ops.contains(&MapleOp::ClampedSwiglu { layer: 0, n: 6, top: 1, limit: 7 }));
        assert_eq!(ops.last(), Some(&MapleOp::LmHead { m: 10, k: 8 }));
        let ended: Vec<usize> = ops.iter().filter_map(|o| o.ends_layer()).collect();
        assert_eq!(ended, vec![0]);
    }
}

#[test]
fn experts_of_another_tier_are_refused() {
    let c = small(MapleLayerType::Full);
    let t = tiers_of(DType::Q8_0, 1);
    let ops = decode_step_body(&c, &t, 0);
    assert!(ops.contains(&MapleOp::RefuseExperts { layer: 0, dtype: DType::Q8_0 }));
    assert_eq!(
        MapleOp::RefuseExperts { layer: 0, dtype: DType::Q8_0 }.refusal().unwrap(),
        "maple L0: expert dtype Q8_0 unsupported — Maple's experts are natively ternary and must be \
         carried as MQ2G256LloydU (qt=51)"
    );
    assert_eq!(
        MapleOp::RefuseEmbed { dtype: DType::BF16 }.refusal().unwrap(),
        "maple: embed dtype BF16 has no lookup path (expected F32 or Q8)"
    );
    assert_eq!(MapleOp::StagePosition { at: 1 }.refusal(), None);
    assert!(!ops.iter().any(|o| matches!(o, MapleOp::Down { .. })));
    assert!(!forward_batch_supported(&t));
    assert!(forward_batch_supported(&tiers_of(DType::MQ2G256LloydU, 3)));
}

#[test]
fn a_batch_goes_through_the_layers_together() {
    let c = small(MapleLayerType::Full);
    let t = tiers_of(DType::MQ2G256LloydU, 1);
    let p = forward_batch(&c, &t, DType::Q8_0, 16, &vec![4, 5, 6], 2).unwrap();
    assert_eq!(p.n_tokens, 5);
    assert!(p.ops.contains(&MapleOp::Embed { row: 1, token: 5, quantised: true }));
    assert!(p.ops.iter().any(|o| matches!(
        o,
        MapleOp::ProjectRows { which: Projection::Query, layer: 0, rows: 3, .. }
    )));
    assert!(forward_batch(&c, &t, DType::Q8_0, 4, &vec![4, 5, 6], 2).is_err());
    assert!(forward_batch(&c, &t, DType::Q8_0, 16, &vec![], 2).is_err());
}

#[test]
fn a_row_lies_where_it_begins() {
    assert_eq!(row_view(64, 16, 8), (64, 32));
    assert_eq!(row_view(64, 0, 8), (0, 32));
}

#[test]
fn a_layer_attends_as_it_is_configured() {
    let c = cfg();
    assert_eq!(c.layer_type(2), MapleLayerType::Sliding);
    assert_eq!(c.layer_type(3), MapleLayerType::Full);
}

#[test]
fn a_layer_s_residual_is_written_low_byte_first() {
    let bits = vec![1.0f32.to_bits(), 0x0102_0304, 9];
    assert_eq!(
        layer_record(3, 2, &bits),
        vec![3, 0, 0, 0, 2, 0, 0, 0, 0, 0, 0x80, 0x3f, 4, 3, 2, 1]
    );
    let all = layer_record(0, 5, &bits);
    assert_eq!(all.len(), 4 * (2 + 3));
    let back: Vec<u32> =
        all.chunks(4).map(|c| u32::from_le_bytes([c[0], c[1], c[2], c[3]])).collect();
    assert_eq!(back, vec![0, 5, bits[0], bits[1], bits[2]]);
}
