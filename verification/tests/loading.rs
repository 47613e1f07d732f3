use atlas_spark::attention::{HcSite, HcWeights};
use atlas_spark::config::{ModelConfig, ModelType, ScoringFunc};
use atlas_spark::dspark_loader::{
    default_block_size, default_markov_rank, default_rms_eps, load_dspark_weights, store_has_dspark_weights,
    DSparkConfig,
};
use atlas_spark::dspark_module::load_v4_dspark_module;
use atlas_spark::gpu::{DenseWeight, DevicePtr, F32Bits};
use atlas_spark::json::{Json, Member};
use atlas_spark::kv_cache::KvCacheDtype;
use atlas_spark::mock::{Command, MockGpuBackend};
use atlas_spark::op::Call;
use atlas_spark::quantization::parse_quantization_config;
use atlas_spark::weights::{dense_all, LoadError, WeightStore};

fn p(n: u64) -> DevicePtr {
    DevicePtr(n)
}

fn w(n: u64) -> DenseWeight {
    DenseWeight { weight: p(n) }
}

fn config() -> ModelConfig {
    ModelConfig {
        model_type: ModelType::DeepseekV4,
        hidden_size: 64,
        vocab_size: 100,
        num_hidden_layers: 2,
        num_attention_heads: 4,
        head_dim: 16,
        kv_lora_rank: 16,
        qk_rope_head_dim: 4,
        o_groups: 2,
        rms_norm_eps: F32Bits(1),
        hc_mult: 4,
        hc_eps: F32Bits(2),
        num_experts: 8,
        num_experts_per_tok: 2,
        moe_intermediate_size: 32,
        norm_topk_prob: true,
        routed_scaling_factor: F32Bits(3),
        scoring_func: ScoringFunc::Softmax,
        ep_world_size: 1,
        tp_world_size: 1,
        num_mtp_modules: 1,
        dspark_window_size: 8,
        dspark_block_size: 3,
        dspark_noise_token_id: 9,
        dspark_markov_rank: 4,
        linear_num_value_heads: 32,
        linear_value_head_dim: 128,
        linear_num_key_heads: 16,
        linear_key_head_dim: 128,
        linear_conv_kernel_dim: 4,
    }
}


fn drafter_config(layers: usize) -> DSparkConfig {
    DSparkConfig {
        hidden_size: 64,
        num_hidden_layers: layers,
        intermediate_size: 128,
        num_attention_heads: 4,
        num_key_value_heads: 2,
        head_dim: 16,
        vocab_size: 100,
        tie_word_embeddings: false,
        block_size: default_block_size(),
        markov_rank: default_markov_rank(),
        markov_head_type: Some("vanilla".to_string()),
        enable_confidence_head: true,
        confidence_head_with_markov: true,
        mask_token_id: 99,
        target_layer_ids: vec![1, 3],
        rms_norm_eps: default_rms_eps(),
        max_position_embeddings: 1024,
        attn_output_gate: true,
        rope_parameters: None,
    }
}

const LAYER_TENSORS: [&str; 11] = [
    "input_layernorm.weight",
    "post_attention_layernorm.weight",
    "self_attn.q_proj.weight",
    "self_attn.k_proj.weight",
    "self_attn.v_proj.weight",
    "self_attn.o_proj.weight",
    "self_attn.q_norm.weight",
    "self_attn.k_norm.weight",
    "mlp.gate_proj.weight",
    "mlp.up_proj.weight",
    "mlp.down_proj.weight",
];

fn names(prefix: &str, layers: usize) -> Vec<String> {
    let mut all: Vec<String> = vec![
        format!("{}fc.weight", prefix),
        format!("{}hidden_norm.weight", prefix),
        format!("{}norm.weight", prefix),
    ];
    for i in 0..layers {
        for t in LAYER_TENSORS {
            all.push(format!("{}layers.{}.{}", prefix, i, t));
        }
    }
    all.push(format!("{}markov_head.markov_w1.weight", prefix));
    all.push(format!("{}markov_head.markov_w2.weight", prefix));
    all
}

fn store_of(names: &[String]) -> WeightStore {
    let mut s = WeightStore::new();
    for (i, n) in names.iter().enumerate() {
        s.insert(n.clone(), p(0x100 + i as u64));
    }
    s
}

#[test]
fn store_finds_what_was_put_in() {
    let mut s = WeightStore::new();
    assert_eq!(s.get("a"), None);
    s.insert("a".to_string(), p(1));
    s.insert("b".to_string(), p(2));
    assert_eq!(s.get("a"), Some(p(1)));
    assert!(s.contains("b"));
    s.insert("a".to_string(), p(3));
    assert_eq!(s.get("a"), Some(p(1)), "the first of a name stays");
    let all = dense_all(&s, &vec!["b".to_string(), "a".to_string()]).unwrap();
    assert_eq!(all, vec![w(2), w(1)]);
    match dense_all(&s, &vec!["b".to_string(), "x".to_string(), "y".to_string()]) {
        Err(LoadError::Missing { name }) => assert_eq!(name, "x"),
        _ => panic!("x is missing"),
    }
}

#[test]
fn drafter_defaults() {
    assert_eq!(default_block_size(), 7);
    assert_eq!(default_markov_rank(), 256);
    assert_eq!(default_rms_eps(), F32Bits(1e-6f32.to_bits()));
}

#[test]
fn drafter_is_loaded_under_either_prefix() {
    let mut config = drafter_config(2);
    config.enable_confidence_head = false;
    for prefix in ["", "model."] {
        let all = names(prefix, 2);
        let s = store_of(&all);
        assert!(store_has_dspark_weights(&s));
        let got = load_dspark_weights(&s, &config, &MockGpuBackend::new(), 1).unwrap().unwrap();
        assert_eq!(got.fc, w(0x100));
        assert_eq!(got.layers.len(), 2);
        assert_eq!(got.layers[1].input_layernorm, w(0x100 + 3 + 11));
        assert_eq!(got.layers[1].down_proj, w(0x100 + 3 + 21));
        assert_eq!(got.markov_w2, w(0x100 + 3 + 22 + 1));
        assert_eq!(got.embed_tokens, None);
        assert_eq!(got.confidence_proj_weight, None);
        assert_eq!(got.config.target_layer_ids, vec![1, 3]);
    }
}

#[test]
fn drafter_takes_its_own_embedding_where_it_has_one() {
    let mut all = names("", 1);
    all.push("embed_tokens.weight".to_string());
    all.push("lm_head.weight".to_string());
    all.push("confidence_head.proj.weight".to_string());
    all.push("confidence_head.proj.bias".to_string());
    let s = store_of(&all);
    let n = all.len() as u64;
    let got = load_dspark_weights(&s, &drafter_config(1), &MockGpuBackend::new(), 1).unwrap().unwrap();
    assert_eq!(got.embed_tokens, Some(w(0x100 + n - 4)));
    assert_eq!(got.lm_head, Some(w(0x100 + n - 3)));
    assert_eq!(got.confidence_proj_weight, Some(w(0x100 + n - 2)));
    assert_eq!(got.confidence_proj_bias, Some(w(0x100 + n - 1)));
    let mut off = drafter_config(1);
    off.enable_confidence_head = false;
    let got = load_dspark_weights(&s, &off, &MockGpuBackend::new(), 1).unwrap().unwrap();
    assert_eq!(got.confidence_proj_weight, None);
}

#[test]
fn enabled_confidence_head_has_to_be_there() {
    let mut all = names("", 1);
    for missing in ["confidence_head.proj.weight", "confidence_head.proj.bias"] {
        match load_dspark_weights(&store_of(&all), &drafter_config(1), &MockGpuBackend::new(), 1) {
            Err(LoadError::Missing { name }) => assert_eq!(name, missing),
            _ => panic!("{} is missing", missing),
        }
        all.push(missing.to_string());
    }
    assert!(load_dspark_weights(&store_of(&all), &drafter_config(1), &MockGpuBackend::new(), 1).is_ok());
}

#[test]
fn other_checkpoints_are_passed_over() {
    let s = store_of(&["model.fc.weight".to_string()]);
    assert!(!store_has_dspark_weights(&s));
    assert!(load_dspark_weights(&s, &drafter_config(1), &MockGpuBackend::new(), 1).unwrap().is_none());
}

#[test]
fn first_missing_tensor_is_named() {
    let mut all = names("", 1);
    all.remove(5);
    let s = store_of(&all);
    match load_dspark_weights(&s, &drafter_config(1), &MockGpuBackend::new(), 1) {
        Err(LoadError::Missing { name }) => assert_eq!(name, "layers.0.self_attn.q_proj.weight"),
        _ => panic!("a tensor is missing"),
    }
}

fn stage_tensors() -> Vec<String> {
    let mut all: Vec<String> = Vec::new();
    for i in 0..3 {
        for t in [
            "attn_norm.weight",
            "ffn_norm.weight",
            "attn.wq_a.weight",
            "attn.wq_b.weight",
            "attn.q_norm.weight",
            "attn.wkv.weight",
            "attn.kv_norm.weight",
            "attn.wo_a.weight",
            "attn.wo_b.weight",
        ] {
            all.push(format!("mtp.{}.{}", i, t));
        }
    }
    for t in ["hc_head_fn", "hc_head_base", "hc_head_scale"] {
        all.push(format!("mtp.2.{}", t));
    }
    for t in [
        "mtp.0.main_proj.weight",
        "mtp.0.main_norm.weight",
        "mtp.2.norm.weight",
        "mtp.2.markov_head.markov_w1.weight",
        "mtp.2.markov_head.markov_w2.weight",
        "mtp.2.confidence_head.proj.weight",
    ] {
        all.push(t.to_string());
    }
    all
}

#[test]
fn built_in_drafter_is_three_stages() {
    let s = store_of(&stage_tensors());
    let mut gpu = MockGpuBackend::new();
    let site = HcSite { hc_fn: p(1), hc_scale: p(2), hc_base: p(3) };
    let hc = HcWeights { hc_mult: 4, sinkhorn_iters: 3, hc_eps: F32Bits(2), attn: site, ffn: site, head: None };
    gpu.stage_hc = Some(hc);
    let m = load_v4_dspark_module(&s, &config(), &mut gpu, &[KvCacheDtype::Fp8]).unwrap().unwrap();
    assert_eq!(m.stages.len(), 3);
    assert_eq!(m.stages[2].hc, Some(hc));
    assert!(m.hc_head.is_some());
    assert_eq!(gpu.command_count(), 1 + 10 + 10 + 13 + 6);
    assert_eq!(gpu.commands[0], Command::Call { call: Call::YarnInvFreq { config: config() }, stream: 0 });
    assert_eq!(gpu.commands[1], Command::Call { call: Call::DenseAuto { tensor: p(0x100) }, stream: 0 });
    match &gpu.commands[33] {
        Command::Assemble { request } => {
            assert_eq!(request.stage, 2);
            assert_eq!(request.layer_idx, 2);
            assert!(request.force_all_experts);
            assert_eq!(request.hc_head, m.hc_head);
        }
        other => panic!("{:?}", other),
    }
    let hc_fn = Command::Call { call: Call::HcF32 { tensor: p(0x100 + 27), elems: 4 * 4 * 64 }, stream: 0 };
    assert!(gpu.commands.contains(&hc_fn));
}

#[test]
fn built_in_drafter_is_skipped_or_missing() {
    let all = stage_tensors();
    let mut off = config();
    off.num_mtp_modules = 0;
    let mut gpu = MockGpuBackend::new();
    assert!(load_v4_dspark_module(&store_of(&all), &off, &mut gpu, &[]).unwrap().is_none());
    assert_eq!(gpu.command_count(), 0);
    let mut some = all.clone();
    some.remove(3);
    match load_v4_dspark_module(&store_of(&some), &config(), &mut gpu, &[]) {
        Err(LoadError::Missing { name }) => assert_eq!(name, "mtp.0.attn.wq_b.weight"),
        _ => panic!("a tensor is missing"),
    }
    let mut gpu = MockGpuBackend::new();
    gpu.refuse_at = Some(2);
    assert!(matches!(
        load_v4_dspark_module(&store_of(&all), &config(), &mut gpu, &[]),
        Err(LoadError::Gpu(_))
    ));
    let mut plain = config();
    plain.hc_mult = 0;
    let m = load_v4_dspark_module(&store_of(&all), &plain, &mut MockGpuBackend::new(), &[]).unwrap().unwrap();
    assert!(m.hc_head.is_none());
}

fn text(s: &str) -> Json {
    Json::Text(s.to_string())
}

fn object(members: Vec<(&str, Json)>) -> Json {
    Json::Object(members.into_iter().map(|(k, v)| Member { key: k.to_string(), value: v }).collect())
}

fn number(n: u64) -> Json {
    Json::Number { text: format!("{}", n), unsigned: Some(n) }
}

fn list(names: &[&str]) -> Json {
    Json::Array(names.iter().map(|n| text(n)).collect())
}

fn section(members: Vec<(&str, Json)>) -> Json {
    object(vec![("quantization_config", object(members))])
}

#[test]
fn json_reads_by_key_and_kind() {
    let j = object(vec![("a", number(7)), ("b", text("x")), ("c", list(&["y"])), ("d", Json::Null)]);
    assert_eq!(j.get("a").unwrap().as_u64(), Some(7));
    assert_eq!(j.get("a").unwrap().as_str(), None);
    assert_eq!(j.text_at("b"), Some("x"));
    assert_eq!(j.text_at("a"), None);
    assert_eq!(j.get("c").unwrap().as_array().unwrap().len(), 1);
    assert!(j.get("e").is_none());
    assert!(text("a").get("a").is_none());
    let fraction = Json::Number { text: "0.5".to_string(), unsigned: None };
    assert_eq!(fraction.as_u64(), None);
    let copy = j.duplicate();
    assert_eq!(format!("{:?}", copy), format!("{:?}", j));
}

#[test]
fn quantisation_names_its_scheme() {
    let raw = section(vec![
        ("quant_method", text("modelopt")),
        ("quant_algo", text("NVFP4")),
        ("exclude_modules", list(&["lm_head", "mtp"])),
    ]);
    let c = parse_quantization_config(&raw).unwrap();
    assert_eq!(c.quant_method, "modelopt");
    assert_eq!(c.quant_algo, "NVFP4");
    assert_eq!(c.format, "");
    assert_eq!(c.ignore_modules, vec!["lm_head", "mtp"]);
}

#[test]
fn quantisation_label_comes_from_the_first_group() {
    let group = |bits: u64, ty: &str| {
        let weights = object(vec![("num_bits", number(bits)), ("type", text(ty))]);
        let groups = object(vec![("group_0", object(vec![("weights", weights)]))]);
        section(vec![("quant_method", text("compressed-tensors")), ("config_groups", groups)])
    };
    assert_eq!(parse_quantization_config(&group(4, "float")).unwrap().quant_algo, "NVFP4");
    assert_eq!(parse_quantization_config(&group(8, "float")).unwrap().quant_algo, "FP8");
    assert_eq!(parse_quantization_config(&group(8, "int")).unwrap().quant_algo, "");
    assert_eq!(parse_quantization_config(&group(16, "float")).unwrap().quant_algo, "");
}

#[test]
fn modules_come_once_behind_those_that_are_ignored() {
    let raw = section(vec![
        ("ignore", Json::Array(vec![text("a"), number(1), text("b")])),
        ("exclude_modules", list(&["b", "c", "c", "a"])),
    ]);
    assert_eq!(parse_quantization_config(&raw).unwrap().ignore_modules, vec!["a", "b", "c"]);
}

#[test]
fn section_that_says_nothing_is_none() {
    assert!(parse_quantization_config(&object(vec![])).is_none());
    assert!(parse_quantization_config(&section(vec![("format", text("x"))])).is_none());
    assert!(parse_quantization_config(&section(vec![("ignore", text("a"))])).is_none());
}
