use atlas_spark::attention::{HcSite, HcWeights, MlaWeights, Qwen3AttentionLayer};
use atlas_spark::attention_decode::{DecodeCall, DecodeFlags, DecodeSettings};
use atlas_spark::attention_multi_seq::MultiSeqCtx;
use atlas_spark::config::{BufferArena, ForwardContext, ModelConfig, ModelType, ScoringFunc};
use atlas_spark::gpu::{DenseWeight, DevicePtr, F32Bits, Fp8Weight, KernelHandle, QuantizedWeight};
use atlas_spark::kv_cache::{KvCacheConfig, KvCacheDtype, KvLayout, LayerPool, PagedKvCache};
use atlas_spark::mock::{Command, MockGpuBackend};
use atlas_spark::mtp::HcHeadWeights;
use atlas_spark::op::{AttendCall, AttnMetadataDev, CacheId, Call, DiagPoint, FfnKind, Observation, Op};

fn p(n: u64) -> DevicePtr {
    DevicePtr(n)
}

fn w(n: u64) -> DenseWeight {
    DenseWeight { weight: p(n) }
}

fn config() -> ModelConfig {
    ModelConfig {
        model_type: ModelType::DeepseekV4,
        hidden_size: 64,
        vocab_size: 100,
        num_hidden_layers: 2,
        num_attention_heads: 4,
        head_dim: 16,
        kv_lora_rank: 16,
        qk_rope_head_dim: 4,
        o_groups: 2,
        rms_norm_eps: F32Bits(1),
        hc_mult: 4,
        hc_eps: F32Bits(2),
        num_experts: 8,
        num_experts_per_tok: 2,
        moe_intermediate_size: 32,
        norm_topk_prob: true,
        routed_scaling_factor: F32Bits(3),
        scoring_func: ScoringFunc::Softmax,
        ep_world_size: 1,
        tp_world_size: 1,
        num_mtp_modules: 1,
        dspark_window_size: 8,
        dspark_block_size: 3,
        dspark_noise_token_id: 9,
        dspark_markov_rank: 4,
        linear_num_value_heads: 32,
        linear_value_head_dim: 128,
        linear_num_key_heads: 16,
        linear_key_head_dim: 128,
        linear_conv_kernel_dim: 4,
    }
}

fn arena() -> BufferArena {
    BufferArena {
        hidden_states: p(0x1_0000),
        residual: p(0x2_0000),
        norm_output: p(0x3_0000),
        norm_unit_w: p(0x4_0000),
        attn_output: p(0x5_0000),
        moe_output: p(0x6_0000),
        moe_router_in_f32: p(0x7_0000),
        expert_gate_out: p(0x8_0000),
        expert_up_out: p(0x9_0000),
        expert_down_out: p(0xa_0000),
        gate_logits: p(0xb_0000),
        logits: p(0xc_0000),
        hc_streams: p(0xd_0000),
        hc_post: p(0xe_0000),
        hc_comb: p(0xf_0000),
        o_latent: p(0x10_0000),
        splitk_workspace: p(0x11_0000),
        ssm_qkvz: p(0x12_0000),
        ssm_ba: p(0x13_0000),
        ssm_deinterleaved: p(0x14_0000),
        ssm_conv_out_f32: p(0x15_0000),
        token_ids: p(0x16_0000),
        scratch: p(0x20_0000),
        scratch_bytes: 0x10_0000,
        max_batch_tokens: 16,
    }
}

fn context() -> ForwardContext {
    ForwardContext {
        buffers: arena(),
        config: config(),
        attn_metadata: None,
        comm: false,
        graph_capture: false,
        profile: false,
        token_ids: None,
    }
}

fn layer() -> Qwen3AttentionLayer {
    let k = |n: u64| KernelHandle(n);
    Qwen3AttentionLayer {
        attn_layer_idx: 0,
        kv_dtype: KvCacheDtype::Bf16,
        input_norm: w(0x501),
        post_attn_norm: w(0x502),
        post_attn_out_norm: None,
        post_ffn_out_norm: None,
        pre_moe_norm: None,
        post_moe_out_norm: None,
        post_dense_ffn_norm: None,
        has_ffn: true,
        fp32_routing: false,
        ffn_is_moe: true,
        has_moe_ffn: false,
        ffn_down_scratch: None,
        moe_ffn_down_scratch: None,
        layer_scalar: None,
        hc: None,
        mla: None,
        sliding_window: None,
        attn_scale: F32Bits(4),
        fp8_calibration: false,
        rms_norm_k: k(1),
        rms_norm_w_k: k(2),
        rms_norm_residual_k: k(3),
        residual_add_k: k(4),
        residual_add_rms_norm_k: k(5),
        residual_add_rms_norm_gatef32_k: k(6),
        hc_expand_k: k(7),
        hc_post_k: k(8),
        hc_head_k: k(9),
        hc_pre_mix_parallel_k: k(10),
        hc_pre_finalize_k: k(11),
        dense_gemv_k: k(12),
        w4a16_gemv_batch2_k: k(13),
        w8a16_gemv_batch4_k: k(14),
        mla_q_rope_extract_batched_k: k(15),
        mla_q_rope_writeback_batched_k: k(16),
        mla_cache_assemble_batched_k: k(17),
        rope_yarn_interleaved_k: k(18),
        rope_yarn_interleaved_inv_k: k(19),
        reshape_cache_k: k(20),
        wht_bf16_k: k(21),
        prefill_attn_512_k: k(22),
        prefill_attn_paged_512_k: k(23),
        prefill_attn_paged_64_k: k(24),
        prefill_attn_paged_k: k(25),
        prefill_attn_paged_fp8_64_k: k(26),
        prefill_attn_paged_fp8_k: k(27),
        prefill_attn_paged_nvfp4_64_k: k(28),
        prefill_attn_paged_nvfp4_k: k(29),
    }
}

fn decode_flags() -> DecodeFlags {
    DecodeFlags {
        mtp_mhc_off: false,
        mtp_attn_only: false,
        mtp_moe_decode: false,
        diag_gemma4: false,
        diag_v4: false,
        diag_v4_all_layers: false,
    }
}

fn cache(num_layers: usize) -> PagedKvCache {
    let config = KvCacheConfig {
        block_size: 16,
        num_kv_heads: 1,
        head_dim: 16,
        num_layers,
        dtype: KvCacheDtype::Bf16,
        cache_blocks_per_seq: None,
    };
    PagedKvCache { config, storage: p(0x99), free: Vec::new() }
}

fn cache_id(num_layers: usize) -> CacheId {
    cache(num_layers).id()
}

fn decode_call(l: Qwen3AttentionLayer, ctx: ForwardContext) -> DecodeCall {
    DecodeCall {
        layer: l,
        ctx,
        hidden: p(0x11),
        residual: p(0x22),
        seq_len: 9,
        cache: cache_id(2),
        flags: decode_flags(),
        stream: 4,
    }
}

fn hc(head: bool) -> HcWeights {
    let site = |n: u64| HcSite { hc_fn: p(n), hc_scale: p(n + 1), hc_base: p(n + 2) };
    HcWeights {
        hc_mult: 4,
        sinkhorn_iters: 3,
        hc_eps: F32Bits(7),
        attn: site(0x600),
        ffn: site(0x610),
        head: if head { Some(HcHeadWeights { hc_fn: p(1), hc_scale: p(2), hc_base: p(3) }) } else { None },
    }
}

fn names(gpu: &MockGpuBackend) -> Vec<&'static str> {
    gpu.commands
        .iter()
        .map(|c| match c {
            Command::Attend { .. } => "attend",
            Command::Call { call: Call::FfnForward { ffn: FfnKind::Main, .. }, .. } => "ffn",
            Command::Call { call: Call::FfnForward { ffn: FfnKind::ExtraMoe, .. }, .. } => "moe",
            Command::Launch { kernel: KernelHandle(7), .. } => "expand",
            Command::Launch { kernel: KernelHandle(8), .. } => "post",
            Command::Launch { kernel: KernelHandle(9), .. } => "head",
            Command::Op { op, .. } => match op {
                Op::RmsNormResidual { .. } => "norm_residual",
                Op::ResidualAddRmsNorm { .. } => "add_norm",
                Op::ResidualAddRmsNormGateF32 { .. } => "add_norm_gate",
                Op::ResidualAdd { .. } => "add",
                Op::RmsNorm { .. } => "norm",
                Op::AllReduceAsync { .. } => "reduce",
                Op::LayerScalar { .. } => "scale",
                Op::Synchronize => "sync",
                Op::Observe { .. } => "look",
                Op::CopyD2d { .. } => "copy",
                Op::HcPreParallel { .. } => "pre",
                Op::FfnForwardPrefill { .. } => "ffn_batch",
                Op::DenseGemv { .. } => "gemv",
                Op::W4a16GemvBatch2 { .. } => "gemv4",
                Op::W8a16GemvBatch2 { .. } => "gemv8",
                Op::RopeExtract { .. } => "extract",
                Op::RopeYarn { .. } => "rotate",
                Op::RopeWriteback { .. } => "write_back",
                Op::CacheAssemble { .. } => "assemble",
                Op::ReshapeAndCache { .. } => "store",
                Op::PagedDecode { .. } => "paged",
                _ => "other",
            },
            _ => "other",
        })
        .collect()
}

fn run(c: &DecodeCall) -> Vec<&'static str> {
    let mut gpu = MockGpuBackend::new();
    let (mut ids, mut cursors) = (Vec::new(), Vec::new());
    Qwen3AttentionLayer::decode_inner(&mut gpu, c, &vec![7], &mut ids, &mut cursors).unwrap();
    names(&gpu)
}

#[test]
fn layer_runs_attention_then_feed_forward() {
    let mut gpu = MockGpuBackend::new();
    let (mut ids, mut cursors) = (vec![5u32], vec![1u32]);
    layer()
        .decode(
            &mut gpu,
            p(0x11),
            p(0x22),
            &cache(2),
            9,
            &vec![5, 6],
            &mut ids,
            &mut cursors,
            &context(),
            &decode_flags(),
            4,
        )
        .unwrap();
    assert_eq!((ids, cursors), (vec![5, 6], vec![1, 2]), "the attention brings the tables up to date");
    assert_eq!(names(&gpu), vec!["norm_residual", "attend", "add_norm", "ffn", "add"]);
    assert_eq!(
        gpu.commands[1],
        Command::Attend {
            call: AttendCall {
                layer: 0,
                normed: arena().norm_output,
                seq_len: 9,
                cache: cache_id(2),
                ctx: context(),
            },
            blocks: vec![5, 6],
            ids: vec![5],
            cursors: vec![1],
            stream: 4
        }
    );
    assert_eq!(
        gpu.commands[3],
        Command::Call {
            call: Call::FfnForward { ffn: FfnKind::Main, layer: 0, input: arena().norm_output, ctx: context() },
            stream: 4
        }
    );
    // The attention answered with the first address that the device gives out.
    assert!(matches!(
        gpu.commands[2],
        Command::Op { op: Op::ResidualAddRmsNorm { add: DevicePtr(0x1000), hidden: DevicePtr(0x11), .. }, .. }
    ));
    assert!(matches!(
        gpu.commands[4],
        Command::Op { op: Op::ResidualAdd { src: DevicePtr(0x2000), dst: DevicePtr(0x11), n: 64, .. }, .. }
    ));
}

#[test]
fn layer_options_add_their_steps() {
    let mut l = layer();
    l.post_attn_out_norm = Some(w(1));
    l.post_ffn_out_norm = Some(w(2));
    l.layer_scalar = Some(F32Bits(3));
    let mut ctx = context();
    ctx.comm = true;
    ctx.config.tp_world_size = 2;
    assert_eq!(
        run(&decode_call(l, ctx)),
        vec!["norm_residual", "attend", "reduce", "norm", "add_norm", "ffn", "norm", "add", "scale"]
    );
    let mut l = layer();
    l.fp32_routing = true;
    assert_eq!(run(&decode_call(l, context()))[2], "add_norm_gate");
    l.residual_add_rms_norm_gatef32_k = KernelHandle(0);
    assert_eq!(run(&decode_call(l, context()))[2], "add_norm");
    let mut l = layer();
    l.has_ffn = false;
    assert_eq!(run(&decode_call(l, context())), vec!["norm_residual", "attend", "add"]);
    let mut ctx = context();
    ctx.profile = true;
    assert_eq!(
        run(&decode_call(layer(), ctx)),
        vec!["norm_residual", "attend", "sync", "add_norm", "ffn", "sync", "add"]
    );
}

#[test]
fn dual_layer_combines_both_blocks() {
    let mut l = layer();
    l.has_moe_ffn = true;
    l.pre_moe_norm = Some(w(1));
    l.post_moe_out_norm = Some(w(2));
    l.post_dense_ffn_norm = Some(w(3));
    assert_eq!(
        run(&decode_call(l, context())),
        vec!["norm_residual", "attend", "add_norm", "moe", "norm", "copy", "ffn", "norm", "add", "add"]
    );
    l.post_moe_out_norm = None;
    assert_eq!(run(&decode_call(l, context())).len(), 5, "a layer that lacks a norm is not dual");
}

#[test]
fn streams_are_expanded_first_and_collapsed_last() {
    let mut l = layer();
    l.hc = Some(hc(true));
    assert_eq!(
        run(&decode_call(l, context())),
        vec!["expand", "pre", "norm", "attend", "post", "pre", "norm", "ffn", "post"]
    );
    l.attn_layer_idx = 1;
    assert_eq!(
        run(&decode_call(l, context())),
        vec!["pre", "norm", "attend", "post", "pre", "norm", "ffn", "post", "head"]
    );
    l.hc = Some(hc(false));
    assert_eq!(run(&decode_call(l, context())).len(), 8);
    // The draft body comes past the last layer and dispatches its experts in one batch.
    l.attn_layer_idx = 2;
    assert_eq!(
        run(&decode_call(l, context())),
        vec!["pre", "norm", "attend", "post", "pre", "norm", "ffn_batch", "post"]
    );
}

#[test]
fn draft_body_may_run_on_one_stream() {
    let mut l = layer();
    l.hc = Some(hc(false));
    let mut c = decode_call(l, context());
    c.cache = cache_id(1);
    c.flags.mtp_mhc_off = true;
    assert_eq!(run(&c), vec!["norm", "attend", "add", "norm", "ffn_batch", "add"]);
    c.flags.mtp_moe_decode = true;
    assert_eq!(run(&c), vec!["norm", "attend", "add", "norm", "ffn", "add"]);
    c.flags.mtp_attn_only = true;
    assert_eq!(run(&c), vec!["norm", "attend", "add"]);
}

#[test]
fn refused_step_ends_the_layer() {
    for at in 0..5 {
        let mut gpu = MockGpuBackend::new();
        gpu.refuse_at = Some(at);
        let (mut ids, mut cursors) = (Vec::new(), Vec::new());
        let call = decode_call(layer(), context());
        let r = Qwen3AttentionLayer::decode_inner(&mut gpu, &call, &vec![7], &mut ids, &mut cursors);
        assert!(r.is_err());
        assert_eq!(gpu.command_count(), at + 1);
        assert_eq!(ids.is_empty(), at <= 1, "the tables change once the attention is through");
    }
}

#[test]
fn refused_attention_leaves_what_it_wrote() {
    for l in [layer(), Qwen3AttentionLayer { hc: Some(hc(false)), ..layer() }] {
        let call = decode_call(l, context());
        let mut gpu = MockGpuBackend::new();
        let (mut ids, mut cursors) = (Vec::new(), Vec::new());
        Qwen3AttentionLayer::decode_inner(&mut gpu, &call, &vec![7], &mut ids, &mut cursors).unwrap();
        let at = gpu.commands.iter().position(|c| matches!(c, Command::Attend { .. })).unwrap();
        let mut gpu = MockGpuBackend::new();
        gpu.refuse_at = Some(at);
        gpu.writes_before_refusal = true;
        let (mut ids, mut cursors) = (Vec::new(), Vec::new());
        let r = Qwen3AttentionLayer::decode_inner(&mut gpu, &call, &vec![7], &mut ids, &mut cursors);
        assert!(r.is_err());
        assert_eq!(gpu.command_count(), at + 1);
        assert_eq!((ids, cursors), (vec![7], vec![1]));
    }
}

#[test]
fn timed_layer_waits_around_its_pieces() {
    let mut l = layer();
    l.hc = Some(hc(false));
    l.attn_layer_idx = 1;
    l.post_attn_out_norm = Some(w(1));
    l.post_ffn_out_norm = Some(w(2));
    l.layer_scalar = Some(F32Bits(3));
    let mut ctx = context();
    ctx.profile = true;
    let all = run(&decode_call(l, ctx));
    let piece = |name: &'static str| vec!["sync", name, "sync"];
    let mut expected = Vec::new();
    expected.extend(piece("pre"));
    expected.extend(piece("norm"));
    expected.push("attend");
    expected.extend(piece("norm"));
    expected.extend(piece("post"));
    expected.extend(piece("pre"));
    expected.extend(piece("norm"));
    expected.push("ffn");
    expected.extend(piece("norm"));
    expected.push("scale");
    expected.extend(piece("post"));
    assert_eq!(all, expected);
    // A piece that is refused is still waited for.
    let mut gpu = MockGpuBackend::new();
    gpu.refuse_at = Some(1);
    let (mut ids, mut cursors) = (Vec::new(), Vec::new());
    let r = Qwen3AttentionLayer::decode_inner(&mut gpu, &decode_call(l, ctx), &vec![7], &mut ids, &mut cursors);
    assert!(r.is_err());
    assert_eq!(names(&gpu), vec!["sync", "pre", "sync"]);
    ctx.profile = false;
    assert_eq!(
        run(&decode_call(l, ctx)),
        vec!["pre", "norm", "attend", "norm", "post", "pre", "norm", "ffn", "norm", "scale", "post"]
    );
}

#[test]
fn diagnostics_look_and_change_nothing_else() {
    let mut l = layer();
    l.post_attn_out_norm = Some(w(1));
    let mut ctx = context();
    ctx.config.model_type = ModelType::Gemma4;
    let mut c = decode_call(l, ctx);
    let plain = run(&c);
    c.flags.diag_gemma4 = true;
    assert_eq!(
        run(&c),
        vec![
            "look",
            "norm_residual",
            "look",
            "attend",
            "look",
            "norm",
            "look",
            "add_norm",
            "look",
            "ffn",
            "look",
            "add",
            "look"
        ]
    );
    let mut unlooked = run(&c);
    unlooked.retain(|x| *x != "look");
    assert_eq!(unlooked, plain);
    c.ctx.graph_capture = true;
    assert_eq!(run(&c), plain, "nothing is read while commands are recorded");
    let mut l = layer();
    l.hc = Some(hc(true));
    l.attn_layer_idx = 1;
    let mut c = decode_call(l, context());
    c.flags.diag_v4 = true;
    assert!(!run(&c).contains(&"look"), "only the first layer is looked at");
    c.flags.diag_v4_all_layers = true;
    assert_eq!(run(&c).iter().filter(|x| **x == "look").count(), 3 + 2 + 3 + 2 + 1);
    let mut gpu = MockGpuBackend::new();
    let (mut ids, mut cursors) = (Vec::new(), Vec::new());
    Qwen3AttentionLayer::decode_inner(&mut gpu, &c, &vec![7], &mut ids, &mut cursors).unwrap();
    assert!(gpu.commands.contains(&Command::Op {
        op: Op::Observe {
            what: Observation::Norm {
                point: DiagPoint::HcCombAttn,
                layer: 1,
                ptr: arena().hc_comb,
                n: 16,
                fp32: true
            }
        },
        stream: 4
    }));
}

fn mla() -> MlaWeights {
    MlaWeights {
        q_lora_rank: 8,
        kv_lora_rank: 12,
        o_lora_rank: 4,
        nope: 12,
        rope: 4,
        wq_a: w(0x620),
        wq_a_fp8: None,
        wq_a_nvfp4: None,
        q_a_norm: w(0x621),
        wq_b: w(0x622),
        wq_b_fp8: None,
        wq_b_nvfp4: None,
        wkv_a: w(0x623),
        wkv_a_fp8: None,
        wkv_a_nvfp4: None,
        kv_a_norm: w(0x624),
        wo_a: w(0x62_0000),
        wo_a_fp8: None,
        wo_b: w(0x626),
        wo_b_fp8: None,
        attn_sink: p(0x627),
        compressor: false,
        main_inv_freq: p(0x628),
        yarn_inv_freq: p(0x629),
        yarn_mscale: F32Bits(1),
    }
}

fn two_tokens(mla: MlaWeights) -> MultiSeqCtx {
    MultiSeqCtx {
        layer: layer(),
        mla,
        fwd: context(),
        normed: arena().norm_output,
        h: 64,
        nq: 4,
        nkv: 1,
        hd: 16,
        bf16: 2,
        bs: 16,
        eps: F32Bits(1),
        profile: false,
    }
}

fn meta() -> AttnMetadataDev {
    AttnMetadataDev {
        positions: p(0x71),
        positions_h: p(0x72),
        positions_w: p(0x73),
        slot: p(0x74),
        seq_len: p(0x75),
        block_table: p(0x76),
        max_blocks_per_seq: 3,
        num_seqs: 2,
        seq_slot: p(0x77),
    }
}

fn pools() -> KvLayout {
    KvLayout {
        cache: cache_id(1),
        pools: vec![LayerPool { k_pool: p(0x100), v_pool: p(0x200), block_stride_bytes: 999 }],
        cache_stride: 77,
        nvfp4_data_bytes: 11,
        turbo3_data_bytes: 12,
        turbo4_data_bytes: 13,
        turbo8_data_bytes: 14,
    }
}

#[test]
fn two_tokens_share_every_projection() {
    let mut m = mla();
    let four = QuantizedWeight { packed: p(1), scale: p(2), scale2: F32Bits(3) };
    let eight = Fp8Weight { weight: p(4), row_scale: p(5) };
    m.wq_a_nvfp4 = Some(four);
    m.wq_b_fp8 = Some(eight);
    let mut gpu = MockGpuBackend::new();
    Qwen3AttentionLayer::ms_v4_flash_n2(&mut gpu, &two_tokens(m), &pools(), &meta(), p(0x900), 6).unwrap();
    let all = names(&gpu);
    assert_eq!(
        all[..8],
        ["gemv4", "norm", "gemv8", "norm", "gemv", "gemv", "norm", "copy"],
        "dense weights go token by token"
    );
    assert_eq!(all[8..13], ["extract", "extract", "rotate", "write_back", "write_back"]);
    assert_eq!(all[13..16], ["assemble", "store", "paged"]);
    let own = pools().cache;
    assert!(matches!(gpu.commands[15], Command::Op { op: Op::PagedDecode { layer: 0, cache, .. }, .. } if cache == own));
    assert!(matches!(
        gpu.commands[2],
        Command::Op { op: Op::W8a16GemvBatch2 { n: 64, k: 8, weight: DevicePtr(4), .. }, stream: 6 }
    ));
    assert!(matches!(
        gpu.commands[10],
        Command::Op { op: Op::RopeYarn { count: 2, nq: 4, inv_freq: DevicePtr(0x628), .. }, .. }
    ));
}

#[test]
fn compressing_layers_use_stretched_frequencies() {
    let mut m = mla();
    m.compressor = true;
    let mut gpu = MockGpuBackend::new();
    Qwen3AttentionLayer::ms_v4_flash_n2(&mut gpu, &two_tokens(m), &pools(), &meta(), p(0x900), 6).unwrap();
    let rotation = gpu
        .commands
        .iter()
        .find_map(|c| match c {
            Command::Op { op: Op::RopeYarn { inv_freq, mscale, .. }, .. } => Some((*inv_freq, *mscale)),
            _ => None,
        })
        .unwrap();
    assert_eq!(rotation, (p(0x629), F32Bits(1)));
}

#[test]
fn output_goes_group_by_group() {
    let mut gpu = MockGpuBackend::new();
    Qwen3AttentionLayer::ms_v4_flash_n2_output(&mut gpu, &two_tokens(mla()), p(0x800), p(0x900), 6).unwrap();
    // Each group of both tokens, then the second factor of both.
    assert_eq!(
        names(&gpu),
        vec!["copy", "copy", "gemv", "gemv", "copy", "copy", "gemv", "gemv", "gemv", "gemv"]
    );
    let last = &gpu.commands[9];
    assert!(matches!(
        last,
        Command::Op { op: Op::DenseGemv { n: 64, k: 8, weight: DenseWeight { weight: DevicePtr(0x626) }, .. }, .. }
    ));
}

#[test]
fn decode_settings_are_exact() {
    let f = DecodeFlags::from_settings(&DecodeSettings {
        use_mhc: Some("0"),
        body_attn_only: Some("true"),
        moe_decode: Some("1"),
        diag_gemma4: Some("true"),
        diag_v4: Some("1"),
        diag_v4_all_layers: Some("yes"),
    });
    let expected =
        DecodeFlags { mtp_mhc_off: true, mtp_moe_decode: true, diag_gemma4: true, diag_v4: true, ..decode_flags() };
    assert_eq!(f, expected);
    let f = DecodeFlags::from_settings(&DecodeSettings {
        use_mhc: None,
        body_attn_only: Some("1"),
        moe_decode: None,
        diag_gemma4: None,
        diag_v4: None,
        diag_v4_all_layers: Some("true"),
    });
    assert_eq!(f, DecodeFlags { mtp_attn_only: true, diag_v4_all_layers: true, ..decode_flags() });
}

#[test]
fn timed_stages_wait_for_the_device() {
    let mut c = two_tokens(mla());
    let mut plain = MockGpuBackend::new();
    Qwen3AttentionLayer::ms_v4_flash_n2(&mut plain, &c, &pools(), &meta(), p(0x70), 0).unwrap();
    c.profile = true;
    let mut timed = MockGpuBackend::new();
    Qwen3AttentionLayer::ms_v4_flash_n2(&mut timed, &c, &pools(), &meta(), p(0x70), 0).unwrap();
    let wait = Command::Op { op: Op::Synchronize, stream: 0 };
    assert_eq!(timed.commands.first(), Some(&wait));
    assert_eq!(timed.commands.last(), Some(&wait));
    assert_eq!(timed.command_count(), plain.command_count() + 8);
    timed.commands.retain(|x| *x != wait);
    assert_eq!(timed.commands, plain.commands, "waiting is all that timing adds");
}
