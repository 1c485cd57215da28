use qwen_runtime::json::{parse_json, Json};
use qwen_runtime::qwen3_next::{KVCacheMode, Quantization, TensorQuantization};
use qwen_runtime::qwen4::checkpoint::{
    parse_root, validate_quantization, validate_quantization_entry, ConfigError, ConfigProblem,
    QuantizationKey,
};
use qwen_runtime::qwen4::config::{
    default_full_attention_interval, default_heads_per_ngram, default_hc_count, default_hc_lowrank,
    default_linear_conv_kernel_dim, default_linear_key_head_dim, default_linear_num_key_heads,
    default_linear_num_value_heads, default_linear_value_head_dim, default_ngram_divisor,
    default_ngram_size, default_ngram_vocab_size_base, default_output_gate_type,
    default_ple_conv_kernel_size, default_seed, default_split_ngram_parts, Qwen4Config,
};
use qwen_runtime::qwen4::layers::{
    layer_pass, linear_load, make_internal_caches, plan_model, CacheUse, ExpertLoad,
    Qwen4DecoderLayer, Qwen4SparseMoe,
};
use qwen_runtime::qwen4::shards::{
    is_single_component, parse_shard_index, shards_of_index, validate_shards, ShardProblem,
};
use qwen_runtime::qwen4::state_names::LayerKind;
use qwen_runtime::qwen4::weights::{
    check_cache_mode, is_language_tensor, is_raw_conv1d_layout, load_language_model_weights,
    ngram_table_spec, normalize_weight_name, sanitize_language_model_weights, sanitize_weights,
    LoadError, Weight,
};
use qwen_runtime::qwen4_attention::attention::Qwen4LayerCache;

fn dense_config(quantization: Option<Quantization>) -> Qwen4Config {
    Qwen4Config {
        model_type: "qwen4_exp_text".to_owned(),
        hidden_size: 16,
        num_hidden_layers: 8,
        moe_intermediate_size: 0,
        shared_expert_intermediate_size: 0,
        num_experts: 0,
        num_experts_per_tok: 0,
        num_attention_heads: 4,
        num_key_value_heads: 2,
        head_dim: Some(4),
        linear_num_value_heads: default_linear_num_value_heads(),
        linear_num_key_heads: default_linear_num_key_heads(),
        linear_key_head_dim: default_linear_key_head_dim(),
        linear_value_head_dim: default_linear_value_head_dim(),
        linear_conv_kernel_dim: default_linear_conv_kernel_dim(),
        rope_parameters: None,
        full_attention_interval: 4,
        layer_types: vec![],
        hc_count: default_hc_count(),
        hc_lowrank: default_hc_lowrank(),
        ple_layer_ids: vec![],
        ple_embed_dim: 0,
        ple_conv_kernel_size: default_ple_conv_kernel_size(),
        ngram_size: default_ngram_size(),
        heads_per_ngram: default_heads_per_ngram(),
        ngram_vocab_size_base: default_ngram_vocab_size_base(),
        make_ngram_vocab_size_divisible_by: default_ngram_divisor(),
        split_ngram_parts: default_split_ngram_parts(),
        seed: default_seed(),
        eos_token_id: None,
        output_gate_type: default_output_gate_type(),
        tie_word_embeddings: false,
        vocab_size: 100,
        max_position_embeddings: 0,
        quantization,
    }
}

/// The one configuration that is supported.
fn flash_config() -> Qwen4Config {
    Qwen4Config {
        hidden_size: 2560,
        num_hidden_layers: 48,
        moe_intermediate_size: 640,
        shared_expert_intermediate_size: 640,
        num_experts: 288,
        num_experts_per_tok: 10,
        num_attention_heads: 24,
        num_key_value_heads: 2,
        head_dim: Some(256),
        linear_num_value_heads: 48,
        linear_num_key_heads: 16,
        linear_key_head_dim: 128,
        linear_value_head_dim: 128,
        layer_types: (0..48)
            .map(|layer| if layer % 4 == 3 { "full_attention" } else { "linear_attention" })
            .map(str::to_owned)
            .collect(),
        hc_count: 4,
        hc_lowrank: 320,
        ple_layer_ids: vec![2],
        ple_embed_dim: 2560,
        ngram_size: 3,
        heads_per_ngram: 8,
        make_ngram_vocab_size_divisible_by: 128,
        split_ngram_parts: 128,
        eos_token_id: Some(248_046),
        output_gate_type: "sigmoid".to_owned(),
        vocab_size: 248_320,
        ..dense_config(None)
    }
}

#[test]
fn mixed_quantization_overrides_are_selected() {
    let mut config = dense_config(None);
    config.quantization = Some(Quantization {
        group_size: 64,
        bits: 4,
        mode: "affine".to_owned(),
        overrides: vec![(
            "model.layers.0.linear_attn.in_proj_qkv".to_owned(),
            TensorQuantization { group_size: 64, bits: 5 },
        )],
    });
    assert_eq!(config.quant_params("model.layers.0.linear_attn.in_proj_qkv"), (64, 5));
    assert_eq!(config.quant_params("model.layers.1.self_attn.q_proj"), (64, 4));
}

#[test]
fn unsupported_architecture_is_rejected() {
    let error = parse_root(r#"{"model_type":"llama"}"#)
        .expect_err("invalid architecture must fail")
        .message("/models/unsupported/config.json");
    assert!(error.contains("unsupported architecture"), "{error}");
    assert_eq!(
        error,
        "unsupported architecture \"llama\" in /models/unsupported/config.json; expected \
         \"qwen4_exp\""
    );
}

#[test]
fn missing_checkpoint_shard_is_path_specific() {
    let shards = parse_shard_index(
        r#"{"weight_map":{"language_model.model.embed_tokens.weight":"missing.safetensors"}}"#,
    )
    .expect("well-formed index");
    assert_eq!(shards, ["missing.safetensors"]);
    let problem = validate_shards(&shards, &vec![false]).expect_err("missing shard must fail");
    let ShardProblem::Missing(shard) = &problem else {
        panic!("{problem:?}")
    };
    let error = problem.message(&format!("/models/missing-shard/{shard}"));
    assert!(error.contains("missing.safetensors"), "{error}");
    assert!(error.contains("missing checkpoint shard"), "{error}");
    assert!(validate_shards(&shards, &vec![true]).is_ok());
}

#[test]
fn layer_selection_uses_every_fourth_layer_for_full_attention() {
    let config = dense_config(None);
    let full_attention_layers: Vec<_> = (0..config.num_hidden_layers)
        .filter(|&layer| !config.is_linear_layer(layer))
        .collect();
    assert_eq!(full_attention_layers, vec![3, 7]);
}

fn weight(name: &str, handle: u64, shape: &[i32]) -> Weight {
    Weight { name: name.to_owned(), handle, shape: shape.to_vec(), swapped: false }
}

fn find<'a>(weights: &'a [Weight], name: &str) -> &'a Weight {
    weights.iter().find(|weight| weight.name == name).expect("weight")
}

#[test]
fn raw_conv1d_is_transposed_without_mutating_norms() {
    let config = dense_config(None);
    let conv = "model.layers.0.linear_attn.conv1d.weight";
    let norm = "model.layers.0.input_layernorm.weight";
    let weights = vec![weight(conv, 1, &[4, 1, 3]), weight(norm, 2, &[4])];

    let sanitized = sanitize_weights(weights, config.tie_word_embeddings);
    assert_eq!(find(&sanitized, conv).shape, vec![4, 3, 1]);
    assert!(find(&sanitized, conv).swapped);
    assert_eq!(find(&sanitized, norm).shape, vec![4]);
    assert!(!find(&sanitized, norm).swapped);
    assert_eq!(find(&sanitized, norm).handle, 2);

    let sanitized_again = sanitize_weights(sanitized, config.tie_word_embeddings);
    assert_eq!(find(&sanitized_again, norm).shape, vec![4]);
    assert!(!find(&sanitized_again, norm).swapped);
    assert_eq!(find(&sanitized_again, norm).handle, 2);
    assert_eq!(find(&sanitized_again, conv).shape, vec![4, 3, 1]);
    assert!(find(&sanitized_again, conv).swapped);
}

#[test]
fn tensors_are_brought_under_the_language_model() {
    assert!(is_language_tensor("language_model.model.norm.weight"));
    assert!(!is_language_tensor("vision_tower.blocks.0.attn.qkv.weight"));
    assert_eq!(
        normalize_weight_name("language_model.model.norm.weight"),
        "model.norm.weight"
    );
    assert_eq!(normalize_weight_name("lm_head.weight"), "lm_head.weight");
    assert!(is_raw_conv1d_layout(&[4, 1, 3]));
    assert!(!is_raw_conv1d_layout(&[4, 3, 1]));
    assert!(!is_raw_conv1d_layout(&[4]));

    let weights = vec![
        weight("language_model.model.norm.weight", 1, &[4]),
        weight("language_model.lm_head.weight", 2, &[8, 4]),
    ];
    let untied = sanitize_language_model_weights(weights, false);
    let names: Vec<_> = untied.iter().map(|weight| weight.name.as_str()).collect();
    assert_eq!(names, ["model.norm.weight", "lm_head.weight"]);
    let tied = sanitize_language_model_weights(untied, true);
    let names: Vec<_> = tied.iter().map(|weight| weight.name.as_str()).collect();
    assert_eq!(names, ["model.norm.weight"]);
    assert!(sanitize_language_model_weights(vec![], false).is_empty());
    assert_eq!(load_language_model_weights(vec![], false).unwrap_err(), LoadError::NoTensors);
    let weights = vec![weight("language_model.model.norm.weight", 1, &[4])];
    let loaded = load_language_model_weights(weights, false).unwrap();
    assert_eq!(loaded[0].name, "model.norm.weight");
}

#[test]
fn the_later_of_two_nestings_wins() {
    let weights = vec![
        weight("language_model.model.norm.weight", 1, &[4]),
        weight("model.norm.weight", 2, &[4]),
    ];
    let merged = sanitize_language_model_weights(weights, false);
    assert_eq!(merged.len(), 1);
    assert_eq!(merged[0].handle, 2);
}

const GOOD_QUANTIZATION: &str = r#"{"group_size":64,"bits":4,"mode":"affine"}"#;

fn root_with(quantization: &str) -> String {
    format!(r#"{{"model_type":"qwen4_exp","text_config":{{}},"quantization":{quantization}}}"#)
}

fn root_message(text: &str) -> String {
    parse_root(text).unwrap_err().message("c.json")
}

#[test]
fn every_fault_of_a_configuration_root_is_named() {
    assert_eq!(parse_root(&root_with(GOOD_QUANTIZATION)).unwrap(), QuantizationKey::Quantization);
    assert_eq!(
        parse_root(&root_with(GOOD_QUANTIZATION).replace("quantization", "quantization_config"))
            .unwrap(),
        QuantizationKey::QuantizationConfig
    );
    assert_eq!(root_message("{"), "failed to parse c.json");
    assert_eq!(root_message("[]"), "c.json must contain a JSON object");
    assert_eq!(root_message("{}"), "c.json is missing string model_type");
    assert_eq!(
        root_message(r#"{"model_type":"qwen4_exp"}"#),
        "c.json is missing text_config"
    );
    assert_eq!(
        root_message(r#"{"model_type":"qwen4_exp","text_config":3}"#),
        "text_config in c.json must contain a JSON object"
    );
    assert_eq!(
        root_message(r#"{"model_type":"qwen4_exp","text_config":{}}"#),
        "c.json is missing quantization metadata"
    );
    assert_eq!(
        root_message(&root_with("7")),
        "quantization in c.json must contain a JSON object"
    );
}

#[test]
fn every_fault_of_a_quantization_entry_is_named() {
    let message = |text: &str| {
        let entry = parse_json(text).expect("json");
        validate_quantization_entry(&entry, "quantization").unwrap_err().message("c.json")
    };
    assert_eq!(
        message(r#"{"bits":4,"mode":"affine"}"#),
        "quantization.group_size in c.json must be an integer"
    );
    assert_eq!(
        message(r#"{"group_size":64,"bits":4.5,"mode":"affine"}"#),
        "quantization.bits in c.json must be an integer"
    );
    assert_eq!(
        message(r#"{"group_size":64,"bits":4,"mode":4}"#),
        "quantization.mode in c.json must be a string"
    );
    assert_eq!(
        message(r#"{"group_size":0,"bits":4,"mode":"affine"}"#),
        "quantization.group_size in c.json must be positive"
    );
    assert_eq!(
        message(r#"{"group_size":64,"bits":-7,"mode":"affine"}"#),
        "quantization.bits in c.json is unsupported: -7"
    );
    assert_eq!(
        message(r#"{"group_size":64,"bits":4,"mode":"mx\"fp"}"#),
        "quantization.mode in c.json is unsupported: \"mx\\\"fp\""
    );
    let whole = |text: &str| {
        let value = parse_json(text).expect("json");
        validate_quantization(&value).map_err(|problem| problem.message("c.json"))
    };
    assert_eq!(whole(GOOD_QUANTIZATION), Ok(()));
    assert_eq!(
        whole(r#"{"group_size":64,"bits":4,"mode":"affine","lm_head":5}"#),
        Err("quantization override \"lm_head\" in c.json must contain an object".to_owned())
    );
}

#[test]
fn only_the_fixed_layout_is_accepted() {
    assert!(flash_config().check_layout().is_ok());
    let problem = |config: Qwen4Config| -> ConfigError { config.check_layout().unwrap_err() };
    let renamed = Qwen4Config { model_type: "qwen3_next".to_owned(), ..flash_config() };
    assert_eq!(
        problem(renamed).message("c.json"),
        "unsupported text architecture \"qwen3_next\" in c.json"
    );
    assert!(matches!(
        problem(Qwen4Config { hidden_size: 2048, ..flash_config() }),
        ConfigProblem::Backbone
    ));
    assert!(matches!(
        problem(Qwen4Config { num_experts: 512, ..flash_config() }),
        ConfigProblem::Experts
    ));
    assert!(matches!(
        problem(Qwen4Config { ple_layer_ids: vec![2, 3], ..flash_config() }),
        ConfigProblem::HyperConnections
    ));
    let gating = problem(Qwen4Config { eos_token_id: None, ..flash_config() });
    assert!(matches!(gating, ConfigProblem::Gating));
    assert_eq!(
        gating.message("c.json"),
        "checkpoint c.json has incompatible Qwen4 gating or EOS metadata"
    );
}

#[test]
fn absent_settings_have_their_defaults() {
    assert_eq!(default_full_attention_interval(), 4);
    assert_eq!(default_output_gate_type(), "silu");
    assert_eq!(default_seed(), 1234);
    let config = dense_config(None);
    assert_eq!(config.head_dim_resolved(), 4);
    assert_eq!(Qwen4Config { head_dim: None, ..dense_config(None) }.head_dim_resolved(), 4);
    assert_eq!(config.quant_params("lm_head"), (64, 4));
    assert_eq!(config.mrope_section(), vec![11, 11, 10]);
    let sections = |text: &str| {
        Qwen4Config { rope_parameters: parse_json(text), ..dense_config(None) }.mrope_section()
    };
    assert_eq!(sections(r#"{"mrope_section":[24,20,20]}"#), vec![24, 20, 20]);
    assert_eq!(sections(r#"{"mrope_section":[24,20]}"#), vec![11, 11, 10]);
    let attention = flash_config().to_qwen4_attention_config(64, 128);
    assert_eq!((attention.head_dim, attention.rope_dims), (256, 64));
    assert_eq!(attention.indexer_budget / attention.indexer_compress_ratio, 512);
}

#[test]
fn layer_types_override_the_interval() {
    let config = Qwen4Config {
        layer_types: vec!["full_attention".to_owned(), "linear_attention".to_owned()],
        ..dense_config(None)
    };
    assert!(!config.is_linear_layer(0));
    assert!(config.is_linear_layer(1));
    assert!(!config.is_linear_layer(3));
}

#[test]
fn shard_indexes_are_checked_entry_by_entry() {
    let message = |text: &str| parse_shard_index(text).unwrap_err().message("i.json");
    assert_eq!(message("nonsense"), "failed to parse i.json");
    assert_eq!(message("{}"), "i.json is missing object weight_map");
    assert_eq!(message(r#"{"weight_map":[]}"#), "i.json is missing object weight_map");
    assert_eq!(message(r#"{"weight_map":{}}"#), "i.json contains an empty weight_map");
    assert_eq!(
        message(r#"{"weight_map":{"a":1}}"#),
        "shard for tensor \"a\" in i.json must be a string"
    );
    assert_eq!(
        message(r#"{"weight_map":{"a":"../b"}}"#),
        "invalid shard path \"../b\" in i.json"
    );
    let shards =
        parse_shard_index(r#"{"weight_map":{"z":"2.st","a":"10.st","b":"2.st","c":"1.st"}}"#);
    assert_eq!(shards.unwrap(), ["1.st", "10.st", "2.st"]);
    let index = parse_json(r#"{"weight_map":{"a":"only.st"}}"#).unwrap();
    assert_eq!(shards_of_index(&index).unwrap(), ["only.st"]);
    let present = vec![true, false, false];
    let shards = vec!["1".to_owned(), "2".to_owned(), "3".to_owned()];
    assert!(matches!(
        validate_shards(&shards, &present),
        Err(ShardProblem::Missing(name)) if name == "2"
    ));
}

#[test]
fn components_are_counted_as_the_standard_library_counts_them() {
    for path in [
        "", "a", ".", "..", "/", "//", "a/", "a/.", "./a", "a/b", "/a", "a//", "./", "././", ".//.",
        "a/..", ".a", "a/./.", "a.safetensors",
    ] {
        let expected = std::path::Path::new(path).components().count() == 1;
        assert_eq!(is_single_component(path), expected, "{path:?}");
    }
}

#[test]
fn json_texts_are_read() {
    let json = parse_json(r#" {"a": [1, -2, 2.5, null], "b": "x\n", "a2": true} "#).unwrap();
    assert!(json.is_object());
    let Some(Json::List(items)) = json.get("a") else {
        panic!("{json:?}")
    };
    assert_eq!(items[0].as_i64(), Some(1));
    assert_eq!(items[1].as_i64(), Some(-2));
    assert_eq!(items[2].as_i64(), None);
    assert!(matches!(items[2], Json::Fraction));
    assert!(matches!(items[3], Json::Null));
    assert_eq!(json.get("b").and_then(Json::as_str), Some("x\n"));
    assert!(matches!(json.get("a2"), Some(Json::Bool(true))));
    assert!(json.get("c").is_none());
    assert_eq!(parse_json("18446744073709551615").unwrap().as_i64(), None);
    assert!(parse_json("{\"a\":1,}").is_none());
    let repeated = parse_json(r#"{"k":1,"k":2}"#).unwrap();
    assert_eq!(repeated.get("k").and_then(Json::as_i64), Some(2));
}

fn ngram_quantization(group_size: i32, bits: i32) -> Option<Quantization> {
    Some(Quantization { group_size, bits, mode: "affine".to_owned(), overrides: vec![] })
}

#[test]
fn the_ngram_table_follows_the_configuration() {
    let config = Qwen4Config { quantization: ngram_quantization(32, 4), ..flash_config() };
    let table = ngram_table_spec(&config).unwrap();
    assert_eq!(
        table.tensor_prefix,
        "language_model.model.layers.1.ple.ple_embedding.ngram_embedding.shards"
    );
    assert_eq!((table.shard_count, table.embedding_dim, table.group_size), (128, 160, 32));
    let other = Qwen4Config { quantization: ngram_quantization(64, 4), ..flash_config() };
    assert_eq!(ngram_table_spec(&other).unwrap_err(), LoadError::NgramQuantization);
    assert_eq!(check_cache_mode(KVCacheMode::Fp8), Ok(()));
    assert_eq!(check_cache_mode(KVCacheMode::Fp16), Err(LoadError::CacheMode));
}

#[test]
fn the_model_plan_lists_every_layer() {
    let config = flash_config();
    let plan = plan_model(&config, KVCacheMode::Fp8, true).unwrap();
    assert_eq!(plan.layers.len(), 48);
    assert_eq!(plan.layers[1], LayerKind { is_linear: true, has_ple: true });
    assert_eq!(plan.layers[3], LayerKind { is_linear: false, has_ple: false });
    assert_eq!(plan.layers.iter().filter(|kind| kind.has_ple).count(), 1);
    assert_eq!(plan.embed_tokens.prefix, "model.embed_tokens");
    assert_eq!(plan.norm.norm, "model.hyper_connection_mixer.hc_norm.weight");
    assert!(plan.norm.block_inject_weight.is_none());
    assert_eq!(plan.lm_head.unwrap().prefix, "lm_head");
    let tied = Qwen4Config { tie_word_embeddings: true, ..flash_config() };
    assert!(plan_model(&tied, KVCacheMode::Fp8, true).unwrap().lm_head.is_none());
    assert_eq!(
        plan_model(&config, KVCacheMode::Int8, true).unwrap_err(),
        LoadError::CacheMode
    );
    assert_eq!(
        plan_model(&config, KVCacheMode::Fp8, false).unwrap_err(),
        LoadError::NoNgramTable
    );
    let caches = make_internal_caches(&plan.layers);
    assert_eq!(caches[0], Qwen4LayerCache::Linear { offset: 0 });
    assert_eq!(caches[47], Qwen4LayerCache::Attention { offset: 0 });
}

#[test]
fn layers_are_loaded_by_prefix() {
    let config = flash_config();
    let layer = Qwen4DecoderLayer::from_config(&config, 1, true, true).unwrap();
    assert_eq!(layer.attention, "model.layers.1.linear_attn");
    assert_eq!(layer.ple.as_deref(), Some("model.layers.1.ple"));
    assert_eq!(
        layer.attn_hyper_connection.block_inject_weight.unwrap().prefix,
        "model.layers.1.attn_hyper_connection.block_inject_weight"
    );
    let ExpertLoad::Quantized { gate_proj, .. } = layer.mlp.experts else {
        panic!("experts are quantised")
    };
    assert_eq!(gate_proj.prefix, "model.layers.1.mlp.switch_mlp.gate_proj");
    assert_eq!(
        Qwen4DecoderLayer::from_config(&config, 1, false, true).unwrap_err(),
        LoadError::NoNgramTable
    );
    let kind = LayerKind { is_linear: false, has_ple: false };
    let drafter =
        Qwen4DecoderLayer::from_config_at_prefix(&config, "mtp.layers.0", kind, false, false)
            .unwrap();
    assert_eq!(drafter.attention, "mtp.layers.0.self_attn");
    let ExpertLoad::Regular { down_proj, .. } = drafter.mlp.experts else {
        panic!("experts are plain")
    };
    assert_eq!(down_proj, "mtp.layers.0.mlp.switch_mlp.down_proj.weight");
    assert_eq!(
        Qwen4SparseMoe::quantization_marker("m"),
        "m.switch_mlp.gate_proj.scales"
    );
    assert_eq!(
        Qwen4SparseMoe::from_config(&config, "m", false).chosen_columns(),
        (278, 288)
    );
    let load = linear_load(&config, "x".to_owned());
    assert_eq!((load.prefix.as_str(), load.group_size, load.bits), ("x", 64, 4));
}

#[test]
fn passes_use_the_cache_that_fits_the_layer() {
    let linear = LayerKind { is_linear: true, has_ple: true };
    let full = LayerKind { is_linear: false, has_ple: false };
    let recurrent = Qwen4LayerCache::Linear { offset: 3 };
    let attention = Qwen4LayerCache::Attention { offset: 3 };
    assert_eq!(layer_pass(linear, &recurrent).cache, CacheUse::Own);
    assert!(layer_pass(linear, &recurrent).embeds_ngrams);
    assert_eq!(layer_pass(linear, &attention).cache, CacheUse::Without);
    assert!(!layer_pass(linear, &attention).embeds_ngrams);
    assert_eq!(layer_pass(full, &recurrent).cache, CacheUse::Temporary);
    assert_eq!(layer_pass(full, &attention).cache, CacheUse::Own);
}
