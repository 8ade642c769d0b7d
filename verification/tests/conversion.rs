//! Converting a Maple checkpoint.

use hipfire::dtype::DType;
use hipfire::maple_convert::{
    bf16_blob_to_f32, build_metadata, convert_tensor, finish_packed, metadata_value, shard_paths,
    Conversion, HfqTensor, MapleConvert, MapleConvertStats, MapleTensorPolicy, Sidecars,
};
use serde_json::Value;

fn bf16_bytes(vals: &[f32]) -> Vec<u8> {
    vals.iter()
        .flat_map(|&v| ((v.to_bits() >> 16) as u16).to_le_bytes())
        .collect()
}

fn ternary(k: usize, s: f32) -> Vec<f32> {
    (0..k)
        .map(|i| match i % 3 {
            0 => -s,
            1 => 0.0,
            _ => s,
        })
        .collect()
}

/// A packer: two bits a weight and a scale for each group of 256.
fn pack(weights: &[u32], k: usize) -> Result<(Vec<u8>, u64), String> {
    if k % 256 != 0 {
        return Err(format!("row length {k} is not a multiple of 256"));
    }
    let floats: Vec<f32> = weights.iter().map(|&b| f32::from_bits(b)).collect();
    let scale = floats.iter().fold(0.0f32, |m, v| m.max(v.abs()));
    if floats.iter().any(|v| *v != 0.0 && v.abs() != scale) {
        return Err("row is not ternary".to_owned());
    }
    let nonzero = floats.iter().filter(|v| **v != 0.0).count() as f64 / floats.len() as f64;
    Ok((vec![0; floats.len() / 256 * 72], nonzero.to_bits()))
}

fn convert(
    name: &str,
    dtype: &str,
    shape: &[usize],
    bytes: &[u8],
    policy: MapleTensorPolicy,
    stats: &mut MapleConvertStats,
) -> Result<(HfqTensor, bool), String> {
    let shape = shape.to_vec();
    match convert_tensor(name, dtype, &shape, &bytes.to_vec(), policy, stats)? {
        Conversion::Pack { k, weights } => {
            let packed = pack(&weights, k);
            Ok((finish_packed(name, &shape, weights.len(), packed, stats)?, true))
        }
        Conversion::Keep(t) => Ok((t, false)),
    }
}

#[test]
fn ternary_projection_packs_as_qt51() {
    let bytes = bf16_bytes(&ternary(512, 0.03125));
    let mut stats = MapleConvertStats::default();
    let (t, is_ternary) = convert(
        "model.layers.0.self_attn.q_proj.weight",
        "BF16",
        &[2, 256],
        &bytes,
        MapleTensorPolicy::Ternary,
        &mut stats,
    )
    .unwrap();
    assert!(is_ternary);
    assert_eq!(t.quant_type, DType::MQ2G256LloydU);
    assert_eq!(t.group_size, 256);
    assert_eq!(t.data.len(), 2 * 72);
    assert_eq!(stats.ternary_weights, 512);
}

#[test]
fn router_is_carried_full_precision_not_packed() {
    let vals: Vec<f32> = (0..256).map(|i| i as f32 * 0.001).collect();
    let bytes = bf16_bytes(&vals);
    let mut stats = MapleConvertStats::default();
    let (t, is_ternary) = convert(
        "model.layers.0.mlp.gate.weight",
        "BF16",
        &[1, 256],
        &bytes,
        MapleTensorPolicy::KeepHighPrecision,
        &mut stats,
    )
    .unwrap();
    assert!(!is_ternary);
    assert_eq!(t.quant_type, DType::BF16);
    assert_eq!(stats.high_precision_tensors, 1);
    assert_eq!(t.data, bytes);
}

#[test]
fn a_dense_projection_aborts_the_convert() {
    let vals: Vec<f32> = (0..256).map(|i| i as f32 * 0.001).collect();
    let bytes = bf16_bytes(&vals);
    let mut stats = MapleConvertStats::default();
    let err = convert(
        "model.layers.0.mlp.experts.0.gate_proj.weight",
        "BF16",
        &[1, 256],
        &bytes,
        MapleTensorPolicy::Ternary,
        &mut stats,
    )
    .unwrap_err();
    assert!(err.contains("not ternary"), "got: {err}");
    assert!(err.contains("gate_proj"), "error must name the tensor: {err}");
    assert_eq!(stats, MapleConvertStats::default());
}

#[test]
fn non_bf16_input_is_rejected() {
    let mut stats = MapleConvertStats::default();
    let err = convert(
        "model.layers.0.self_attn.q_proj.weight",
        "F32",
        &[1, 256],
        &[0u8; 1024],
        MapleTensorPolicy::Ternary,
        &mut stats,
    )
    .unwrap_err();
    assert!(err.contains("BF16"), "got: {err}");
}

#[test]
fn k_not_divisible_by_256_is_rejected() {
    let bytes = bf16_bytes(&ternary(384, 0.03125));
    let mut stats = MapleConvertStats::default();
    let err = convert(
        "model.layers.0.self_attn.q_proj.weight",
        "BF16",
        &[1, 384],
        &bytes,
        MapleTensorPolicy::Ternary,
        &mut stats,
    )
    .unwrap_err();
    assert!(err.contains("multiple of 256"), "got: {err}");
}

#[test]
fn a_ternary_tensor_has_dimensions_and_whole_numbers() {
    let mut stats = MapleConvertStats::default();
    let t = MapleTensorPolicy::Ternary;
    assert_eq!(
        convert("w", "BF16", &[], &[], t, &mut stats).unwrap_err(),
        "w: ternary tensor has no dimensions"
    );
    assert_eq!(
        convert("w", "BF16", &[3], &[1, 2, 3], t, &mut stats).unwrap_err(),
        "BF16 blob length 3 is odd"
    );
    assert_eq!(bf16_blob_to_f32(&vec![0x80, 0x3f]).unwrap(), vec![1.0f32.to_bits()]);
}

#[test]
fn the_least_and_greatest_fractions_are_kept() {
    let mut stats = MapleConvertStats::default();
    for frac in [0.6f64, 0.4, 0.7] {
        let packed = Ok((vec![0u8; 72], frac.to_bits()));
        finish_packed("w", &vec![256], 256, packed, &mut stats).unwrap();
    }
    assert_eq!(f64::from_bits(stats.min_nonzero_frac), 0.4);
    assert_eq!(f64::from_bits(stats.max_nonzero_frac), 0.7);
    assert_eq!((stats.ternary_tensors, stats.ternary_weights, stats.ternary_bytes), (3, 768, 216));
}

#[test]
fn shards_are_taken_by_name() {
    let names: Vec<String> = ["b.safetensors", "config.json", "a.safetensors", ".safetensors"]
        .iter()
        .map(|s| s.to_string())
        .collect();
    assert_eq!(shard_paths("d", &names).unwrap(), vec!["a.safetensors", "b.safetensors"]);
    assert_eq!(
        shard_paths("d", &vec!["x.bin".to_owned()]).unwrap_err(),
        "no .safetensors files in d — point --input at the model directory"
    );
}

fn tensor(name: &str, data: Vec<u8>) -> HfqTensor {
    HfqTensor {
        name: name.to_owned(),
        quant_type: DType::MQ2G256LloydU,
        shape: vec![1, 512],
        group_size: 256,
        data,
        spilled_len: 0,
    }
}

#[test]
fn spill_order_is_preserved_when_alphabetical_order_differs() {
    let mut run = MapleConvert::new();
    let mut file: Vec<u8> = Vec::new();
    for (name, data) in [
        ("zz.self_attn.q_proj.weight", vec![1u8, 2, 3]),
        ("aa.self_attn.q_proj.weight", vec![9u8]),
    ] {
        file.extend(&data);
        run.spilled(tensor(name, data)).unwrap();
    }
    // Reading in the order of the list gives each tensor its own bytes.
    let mut at = 0usize;
    let mut read = Vec::new();
    for t in &run.tensors {
        let len = t.spilled_len as usize;
        read.push((t.name.as_str(), file[at..at + len].to_vec()));
        at += len;
    }
    assert_eq!(
        read,
        vec![
            ("zz.self_attn.q_proj.weight", vec![1, 2, 3]),
            ("aa.self_attn.q_proj.weight", vec![9]),
        ]
    );
    assert_eq!(
        run.spilled(tensor("zz.self_attn.q_proj.weight", vec![])).unwrap_err(),
        "zz.self_attn.q_proj.weight: duplicate tensor across shards"
    );
    assert_eq!(
        run.finish().unwrap_err(),
        "no ternary tensors found — this does not look like a Maple checkpoint"
    );
    run.stats.ternary_tensors = 2;
    assert_eq!(run.finish(), Ok(()));
}

fn metadata(config: &str, sidecars: &Sidecars, stats: &MapleConvertStats) -> Value {
    let low = Value::from(f64::from_bits(stats.min_nonzero_frac));
    let high = Value::from(f64::from_bits(stats.max_nonzero_frac));
    let text = build_metadata(config, sidecars, stats, low.clone(), high.clone()).unwrap();
    let v: Value = serde_json::from_str(&text).unwrap();
    assert_eq!(v, metadata_value(config, sidecars, stats, low, high).unwrap());
    v
}

const NONE: Sidecars<'static> = Sidecars {
    tokenizer: None,
    tokenizer_config: None,
    generation_config: None,
    chat_template: None,
};

fn beside<'a>(tokenizer_config: &'a str, chat_template: Option<&'a str>) -> Sidecars<'a> {
    Sidecars {
        tokenizer: Some("{\"model\":{\"vocab\":{}}}"),
        tokenizer_config: Some(tokenizer_config),
        generation_config: None,
        chat_template,
    }
}

#[test]
fn provenance_is_stamped_into_metadata() {
    let stats = MapleConvertStats {
        ternary_tensors: 3,
        ternary_weights: 100,
        min_nonzero_frac: 0.61f64.to_bits(),
        max_nonzero_frac: 0.62f64.to_bits(),
        ..Default::default()
    };
    let v = metadata("{\"model_type\":\"maple\"}", &NONE, &stats);
    assert_eq!(v["config"]["model_type"], "maple");
    assert_eq!(v["hipfire_maple_provenance"]["quant_type"], 51);
    assert_eq!(v["hipfire_maple_provenance"]["exact"], true);
    assert_eq!(v["hipfire_maple_provenance"]["rotation"], "none");
    assert_eq!(v["hipfire_maple_provenance"]["ternary_tensors"], 3);
    assert_eq!(v["hipfire_maple_provenance"]["nonzero_frac_min"], 0.61);
}

#[test]
fn metadata_is_a_loadable_envelope_not_a_bare_config() {
    let v = metadata(
        "{\"model_type\":\"maple\",\"hidden_size\":2048}",
        &beside("{\"add_bos_token\":false}", None),
        &MapleConvertStats::default(),
    );
    assert_eq!(v["architecture"], "maple");
    assert_eq!(v["config"]["hidden_size"], 2048);
    assert!(v["tokenizer"].is_string(), "tokenizer must be a string");
    assert!(v["tokenizer"].as_str().unwrap().contains("vocab"));
    assert_eq!(v["tokenizer_config"]["add_bos_token"], false);
}

#[test]
fn chat_template_sidecar_lands_in_metadata() {
    let template = "{%- if tools %}<tools>{{ tools }}</tools>{%- endif %}";
    let v = metadata(
        "{\"model_type\":\"maple\"}",
        &beside("{\"add_bos_token\":false}", Some(template)),
        &MapleConvertStats::default(),
    );
    assert_eq!(v["tokenizer_config"]["chat_template"], template);
    assert_eq!(v["tokenizer_config"]["add_bos_token"], false);
}

#[test]
fn missing_chat_template_sidecar_is_not_an_error() {
    let v = metadata(
        "{\"model_type\":\"maple\"}",
        &beside("{\"add_bos_token\":false}", None),
        &MapleConvertStats::default(),
    );
    assert_eq!(v["tokenizer_config"]["add_bos_token"], false);
    assert!(
        v["tokenizer_config"].get("chat_template").is_none(),
        "absent sidecar must not fabricate a chat_template key"
    );
}

#[test]
fn tokenizer_config_template_wins_over_sidecar() {
    let v = metadata(
        "{\"model_type\":\"maple\"}",
        &beside("{\"chat_template\":\"FROM_CONFIG\"}", Some("FROM_SIDECAR")),
        &MapleConvertStats::default(),
    );
    assert_eq!(v["tokenizer_config"]["chat_template"], "FROM_CONFIG");
}

#[test]
fn metadata_of_little_is_still_an_envelope() {
    let stats = MapleConvertStats::default();
    let v = metadata("  \n", &NONE, &stats);
    assert_eq!(v["config"], serde_json::from_str::<Value>("{}").unwrap());
    assert_eq!(v["tokenizer"], "{}");
    assert!(v["tokenizer_config"].is_null() && v["generation_config"].is_null());
    let alone = Sidecars { chat_template: Some("T"), ..NONE };
    assert_eq!(metadata("{}", &alone, &stats)["tokenizer_config"]["chat_template"], "T");
    let nothing = Sidecars {
        tokenizer_config: Some("{\"chat_template\":null}"),
        chat_template: Some("T"),
        ..NONE
    };
    assert_eq!(metadata("{}", &nothing, &stats)["tokenizer_config"]["chat_template"], "T");
    assert!(build_metadata("{", &NONE, &stats, Value::Null, Value::Null).is_err());
}
