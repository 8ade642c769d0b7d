//! Pruning plans, overlays, and the index of sharded directories.

use hipfire::reap::{ExpertPlan, ReapError, ReapPlan, Role};
use hipfire::reap_overlay::{
    quantize_to_format, reap_override_for, QuantType, ReapArch, SIGN_SEEDS,
};
use hipfire::safetensors_index::{
    directory_entry, header_length, read_index, read_index_text, read_safetensors_header,
    validate_indexed_safetensors_dir, validate_plain_shard_name, DirectoryEntry, HeaderError,
    IndexError, IndexTextError, IndexedSafetensors, MAX_HEADER_BYTES,
};
use serde_json::Value;

fn json(s: &str) -> Value {
    serde_json::from_str(s).unwrap()
}

fn refused(text: &str, layers: usize, experts: usize) -> String {
    match ReapPlan::load(text, "d", layers, experts) {
        Err(ReapError::Refused(e)) => e,
        other => panic!("{other:?}"),
    }
}

#[test]
fn identity_src_when_no_keep() {
    let ep = ExpertPlan { keep: None };
    assert_eq!(ep.src(5), 5);
    assert_eq!(ep.n_slots(8), 8);
}

#[test]
fn remaps_src_with_keep() {
    let k = vec![3u32, 1, 0];
    let ep = ExpertPlan { keep: Some(&k) };
    assert_eq!(ep.src(0), 3);
    assert_eq!(ep.n_slots(8), 3);
}

#[test]
fn keep_all_when_keep_absent() {
    let p = ReapPlan::load("{\"original_experts\":8,\"num_layers\":2}", "d", 2, 8).unwrap();
    assert!(p.keep.is_none());
    assert_eq!(p.kept_per_layer(), 8);
}

#[test]
fn parses_keep_and_overrides() {
    let p = ReapPlan::load(
        "{\"original_experts\":4,\"num_layers\":2,\
          \"keep\":{\"per_layer\":[[0,2,3],[1,2,3]]},\
          \"quant_overrides\":[{\"layer\":1,\"role\":\"routed_experts\",\"experts\":[2],\"tier\":\"mq3lloyd\"}]}",
        "d",
        2,
        4,
    )
    .unwrap();
    assert_eq!(p.kept_per_layer(), 3);
    assert_eq!(p.keep.as_ref().unwrap()[0], vec![0, 2, 3]);
    assert_eq!(p.quant_overrides.len(), 1);
    assert_eq!(p.quant_overrides[0].tier, "mq3lloyd");
    assert_eq!(p.expert_plan(1).src(0), 1);
    assert_eq!(p.dir, "d");
}

#[test]
fn rejects_out_of_range_index() {
    let err = refused(
        "{\"original_experts\":4,\"num_layers\":1,\"keep\":{\"per_layer\":[[0,9]]}}",
        1,
        4,
    );
    assert!(err.contains("index 9 >= original_experts 4"), "got: {err}");
}

#[test]
fn indices_are_held_against_the_model_at_full_width() {
    let keep = "{\"original_experts\":4,\"num_layers\":1,\"keep\":{\"per_layer\":[[4294967296]]}}";
    assert_eq!(refused(keep, 1, 4), "reap: keep layer 0 index 4294967296 >= original_experts 4");
    let expert = "{\"quant_overrides\":[{\"layer\":0,\"role\":\"routed_experts\",\
                  \"experts\":[4294967297],\"tier\":\"q8\"}]}";
    assert_eq!(
        refused(expert, 1, 4),
        "reap: quant_override[0] expert 4294967297 >= original_experts 4"
    );
    let layer = "{\"quant_overrides\":[{\"layer\":18446744073709551615,\"role\":\"router\",\
                 \"tier\":\"q8\"}]}";
    assert_eq!(
        refused(layer, 1, 4),
        "reap: quant_override[0] layer 18446744073709551615 >= num_layers 1"
    );
}

#[test]
fn rejects_experts_on_non_routed_role() {
    let err = refused(
        "{\"original_experts\":4,\"num_layers\":1,\
          \"quant_overrides\":[{\"layer\":0,\"role\":\"attention\",\"experts\":[1],\"tier\":\"q8\"}]}",
        1,
        4,
    );
    assert!(err.contains("not routed_experts"), "got: {err}");
}

#[test]
fn rejects_layer_count_mismatch() {
    let err = refused(
        "{\"original_experts\":4,\"num_layers\":3,\"keep\":{\"per_layer\":[[0,1]]}}",
        3,
        4,
    );
    assert!(err.contains("keep.per_layer has 1 layers"), "got: {err}");
}

#[test]
fn rejects_non_integer_override_expert() {
    let err = refused(
        "{\"original_experts\":4,\"num_layers\":1,\
          \"quant_overrides\":[{\"layer\":0,\"role\":\"routed_experts\",\"experts\":[1,\"bad\"],\"tier\":\"q8\"}]}",
        1,
        4,
    );
    assert!(err.contains("not an integer"), "got: {err}");
}

#[test]
fn rejects_out_of_range_override_expert() {
    let err = refused(
        "{\"original_experts\":4,\"num_layers\":1,\
          \"quant_overrides\":[{\"layer\":0,\"role\":\"routed_experts\",\"experts\":[9],\"tier\":\"q8\"}]}",
        1,
        4,
    );
    assert!(err.contains(">= original_experts 4"), "got: {err}");
}

#[test]
fn a_plan_of_another_model_or_no_plan_is_refused() {
    assert!(matches!(ReapPlan::load("not json", "d", 1, 4), Err(ReapError::Parse(_))));
    refused("{\"original_experts\":4,\"num_layers\":1}", 2, 4);
    refused("{\"original_experts\":4,\"num_layers\":1}", 1, 5);
    let own = ReapPlan::load("{}", "d", 1, 4).unwrap();
    assert_eq!((own.num_layers, own.original_experts), (1, 4));
    assert_eq!(Role::parse("router"), Ok(Role::Router));
    assert!(Role::parse("nonsense").is_err());
}

fn plan_with(text: &str) -> ReapPlan {
    let v = json(text);
    let layers = v["num_layers"].as_u64().unwrap() as usize;
    let experts = v["original_experts"].as_u64().unwrap() as usize;
    ReapPlan::from_json(&v, "d", layers, experts).unwrap()
}

#[test]
fn ds4_specific_experts() {
    let p = plan_with(
        "{\"original_experts\":256,\"num_layers\":43,\
          \"quant_overrides\":[{\"layer\":20,\"role\":\"routed_experts\",\"experts\":[7],\"tier\":\"mq3lloyd\"}]}",
    );
    assert_eq!(
        reap_override_for("layers.20.ffn.experts.7.w1.weight", ReapArch::Deepseek4, &p),
        Some("mq3lloyd")
    );
    assert_eq!(
        reap_override_for("layers.20.ffn.experts.8.w1.weight", ReapArch::Deepseek4, &p),
        None
    );
    assert_eq!(
        reap_override_for("layers.21.ffn.experts.7.w1.weight", ReapArch::Deepseek4, &p),
        None
    );
}

#[test]
fn qwen35_whole_role() {
    let p = plan_with(
        "{\"original_experts\":128,\"num_layers\":48,\
          \"quant_overrides\":[{\"layer\":5,\"role\":\"routed_experts\",\"tier\":\"hfq6\"}]}",
    );
    assert_eq!(
        reap_override_for("model.layers.5.mlp.experts.99.gate_up_proj.weight", ReapArch::Qwen35, &p),
        Some("hfq6")
    );
    assert_eq!(
        reap_override_for("model.layers.5.mlp.experts.99.down_proj.weight", ReapArch::Qwen35, &p),
        Some("hfq6")
    );
    assert_eq!(
        reap_override_for("model.layers.5.self_attn.q_proj.weight", ReapArch::Qwen35, &p),
        None
    );
}

#[test]
fn attention_role() {
    let p = plan_with(
        "{\"original_experts\":256,\"num_layers\":43,\
          \"quant_overrides\":[{\"layer\":41,\"role\":\"attention\",\"tier\":\"q8\"}]}",
    );
    assert_eq!(
        reap_override_for("model.layers.41.self_attn.q_proj.weight", ReapArch::Qwen35, &p),
        Some("q8")
    );
    assert_eq!(
        reap_override_for("model.layers.40.self_attn.q_proj.weight", ReapArch::Qwen35, &p),
        None
    );
}

#[test]
fn rejects_unknown_tier() {
    let err = quantize_to_format("x", "bogus").unwrap_err();
    assert!(err.contains("unsupported overlay tier 'bogus'"), "got: {err}");
}

#[test]
fn a_tier_names_its_encoder_under_two_names() {
    for (short, long, q) in [
        ("q8", "q8f16", QuantType::Q8F16),
        ("hfq4", "hfq4g256", QuantType::HFQ4G256),
        ("mq3lloyd", "mq3g256lloyd", QuantType::MQ3G256Lloyd),
    ] {
        let a = quantize_to_format("x", short).unwrap();
        assert_eq!(a, quantize_to_format("x", long).unwrap());
        assert_eq!(a.quant_type, q);
    }
    assert!(quantize_to_format("x", "mq4").unwrap().rotated);
    assert!(!quantize_to_format("x", "hfq4").unwrap().rotated);
    assert_eq!(SIGN_SEEDS, (42, 1042));
    let t = quantize_to_format("x", "hfq4g256").unwrap().tensor("x", &vec![2, 256], vec![7]);
    assert_eq!((t.name.as_str(), t.shape, t.group_size), ("x", vec![2u32, 256], 256));
    assert_eq!((t.quant_type, t.data, t.spilled_len), (QuantType::HFQ4G256, vec![7], 0));
}

/// A directory: its index, its files, and the tensors of each indexed shard.
fn directory(
    index: &[(&str, &str)],
    files: &[(&str, &[&str])],
) -> Result<IndexedSafetensors, IndexError> {
    let entries: Vec<String> =
        index.iter().map(|(t, s)| format!("\"{t}\":\"{s}\"")).collect();
    let index = read_index(&json(&format!("{{\"weight_map\":{{{}}}}}", entries.join(","))))?;
    let discovered: Vec<String> = files.iter().map(|(n, _)| (*n).to_owned()).collect();
    let headers: Vec<Value> = index
        .shards
        .iter()
        .map(|s| {
            let tensors = files.iter().find(|(n, _)| n == s).map(|(_, t)| *t).unwrap_or(&[]);
            let entries: Vec<String> =
                tensors.iter().map(|t| format!("\"{t}\":{{\"dtype\":\"F16\"}}")).collect();
            json(&format!("{{\"__metadata__\":1{}{}}}", if entries.is_empty() { "" } else { "," }, entries.join(",")))
        })
        .collect();
    validate_indexed_safetensors_dir(&index, &discovered, &headers)
}

const BOTH: [(&str, &str); 2] = [("a", "model-1.safetensors"), ("b", "model-2.safetensors")];

#[test]
fn accepts_exact_index_whitelist() {
    let validated = directory(
        &BOTH,
        &[("model-1.safetensors", &["a"]), ("model-2.safetensors", &["b"])],
    )
    .unwrap();
    assert_eq!(validated.shard_count, 2);
    assert_eq!(validated.tensor_count, 2);
}

#[test]
fn rejects_unindexed_or_missing_shards() {
    let err = directory(
        &BOTH,
        &[("model-1.safetensors", &["a"]), ("old-model.safetensors", &["stale"])],
    )
    .unwrap_err()
    .message("index", "shard");
    assert!(err.contains("missing"), "{err}");
    assert!(err.contains("extra"), "{err}");
    assert_eq!(
        err,
        "safetensors shard set does not match index (missing=[\"model-2.safetensors\"], \
         extra=[\"old-model.safetensors\"]); refusing mixed/incomplete directory"
    );
}

#[test]
fn rejects_duplicate_or_misassigned_tensor() {
    let err = directory(
        &BOTH,
        &[("model-1.safetensors", &["a"]), ("model-2.safetensors", &["a", "b"])],
    )
    .unwrap_err()
    .message("index", "shard");
    assert!(err.contains("duplicate safetensors tensor"), "{err}");
}

#[test]
fn every_fault_of_a_directory_has_its_message() {
    let one = "model-1.safetensors";
    let two = "model-2.safetensors";
    let misassigned = directory(&BOTH, &[(one, &["b"]), (two, &["a"])]).unwrap_err();
    assert_eq!(
        misassigned.message("i", "s"),
        "tensor \"b\" is physically in \"model-1.safetensors\", but \
         model.safetensors.index.json assigns it to \"model-2.safetensors\""
    );
    let unindexed = directory(&BOTH, &[(one, &["a", "c"]), (two, &["b"])]).unwrap_err();
    assert_eq!(
        unindexed.message("i", "s"),
        "tensor \"c\" in shard \"model-1.safetensors\" is absent from model.safetensors.index.json"
    );
    let absent = directory(&BOTH, &[(one, &["a"]), (two, &[])]).unwrap_err();
    assert_eq!(
        absent.message("i", "s"),
        "i lists tensors absent from their assigned shards: [\"b\"]"
    );
    let fault = |text: &str| read_index(&json(text)).unwrap_err().message("i", "s");
    assert_eq!(fault("{}"), "i has no object weight_map");
    assert_eq!(fault("{\"weight_map\":{}}"), "i has an empty weight_map");
    assert_eq!(
        fault("{\"weight_map\":{\"\":\"x.safetensors\"}}"),
        "i has invalid tensor name \"\" in weight_map"
    );
    assert_eq!(
        fault("{\"weight_map\":{\"a\":1}}"),
        "i weight_map[\"a\"] is not a shard filename"
    );
    assert_eq!(
        fault("{\"weight_map\":{\"a\":\"../x.safetensors\"}}"),
        "i contains unsafe/non-safetensors shard name \"../x.safetensors\""
    );
    let index = read_index(&json("{\"weight_map\":{\"a\":\"x.safetensors\"}}")).unwrap();
    let described = validate_indexed_safetensors_dir(
        &index,
        &vec!["x.safetensors".to_owned()],
        &vec![json("{\"a\":1}")],
    )
    .unwrap_err();
    assert_eq!(described.message("i", "s"), "s tensor \"a\" has a non-object descriptor");
}

#[test]
fn shard_names_are_plain() {
    assert!(validate_plain_shard_name("model-1.safetensors"));
    assert!(!validate_plain_shard_name("a/b.safetensors"));
    assert!(!validate_plain_shard_name(".safetensors"));
    assert!(!validate_plain_shard_name("model.bin"));
}

#[test]
fn headers_have_a_length_that_fits_their_file() {
    assert_eq!(header_length(16u64.to_le_bytes(), 24), Some(16));
    assert_eq!(header_length(17u64.to_le_bytes(), 24), None);
    assert_eq!(header_length(0u64.to_le_bytes(), 24), None);
    assert_eq!(header_length((MAX_HEADER_BYTES + 1).to_le_bytes(), u64::MAX), None);
    assert_eq!(read_safetensors_header(b"{\"a\":1}  ").unwrap(), json("{\"a\":1}"));
    assert!(matches!(read_safetensors_header(b"[]"), Err(HeaderError::NotAnObject)));
    assert!(matches!(read_safetensors_header(b"{"), Err(HeaderError::Parse(_))));
}

#[test]
fn an_index_is_read_from_its_text() {
    let text = "{\"weight_map\":{\"b\":\"y.safetensors\",\"a\":\"x.safetensors\"}}";
    let index = read_index_text(text).unwrap();
    assert_eq!(index, read_index(&json(text)).unwrap());
    assert_eq!(index.shards, vec!["x.safetensors".to_owned(), "y.safetensors".to_owned()]);
    assert!(matches!(read_index_text("{"), Err(IndexTextError::Parse(_))));
    assert!(matches!(
        read_index_text("{\"weight_map\":{}}"),
        Err(IndexTextError::Refused(IndexError::EmptyWeightMap))
    ));
}

#[test]
fn entries_of_a_directory_are_shards_by_their_extension() {
    assert_eq!(directory_entry("a.safetensors", true), DirectoryEntry::Shard);
    assert_eq!(directory_entry("a.safetensors", false), DirectoryEntry::Refused);
    for name in ["a.safetensors.index.json", ".safetensors", "safetensors", "a.bin", ""] {
        let extension = std::path::Path::new(name).extension().and_then(|e| e.to_str());
        assert_ne!(extension, Some("safetensors"));
        assert_eq!(directory_entry(name, true), DirectoryEntry::Other);
        assert_eq!(directory_entry(name, false), DirectoryEntry::Other);
    }
}
