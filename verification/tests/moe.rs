use atlas_spark::config::{BufferArena, ForwardContext, ModelConfig, ModelType, ScoringFunc};
use atlas_spark::gpu::{
    DenseWeight, DevicePtr, ExpertPtrs, F32Bits, Fp8ExpertPtrs, Fp8Weight, KernelHandle, QuantizedWeight,
};
use atlas_spark::mock::{Command, MockGpuBackend};
use atlas_spark::moe::{
    k3_e8m0_needs_per_token, Fp8SharedExpert, MoeCall, MoeFlags, MoeSettings, MoeLayer, WeightQuantFormat,
};
use atlas_spark::op::{Call, ExpertWeights, MoeLayout, Observation, Op, SharedWeight, TopkScore};

fn p(n: u64) -> DevicePtr {
    DevicePtr(n)
}

fn w(n: u64) -> DenseWeight {
    DenseWeight { weight: p(n) }
}

fn config() -> ModelConfig {
    ModelConfig {
        model_type: ModelType::DeepseekV4,
        hidden_size: 64,
        vocab_size: 100,
        num_hidden_layers: 2,
        num_attention_heads: 4,
        head_dim: 16,
        kv_lora_rank: 16,
        qk_rope_head_dim: 4,
        o_groups: 2,
        rms_norm_eps: F32Bits(1),
        hc_mult: 4,
        hc_eps: F32Bits(2),
        num_experts: 8,
        num_experts_per_tok: 2,
        moe_intermediate_size: 32,
        norm_topk_prob: true,
        routed_scaling_factor: F32Bits(3),
        scoring_func: ScoringFunc::Softmax,
        ep_world_size: 1,
        tp_world_size: 1,
        num_mtp_modules: 1,
        dspark_window_size: 8,
        dspark_block_size: 3,
        dspark_noise_token_id: 9,
        dspark_markov_rank: 4,
        linear_num_value_heads: 32,
        linear_value_head_dim: 128,
        linear_num_key_heads: 16,
        linear_key_head_dim: 128,
        linear_conv_kernel_dim: 4,
    }
}

fn arena() -> BufferArena {
    BufferArena {
        hidden_states: p(0x1_0000),
        residual: p(0x2_0000),
        norm_output: p(0x3_0000),
        norm_unit_w: p(0x4_0000),
        attn_output: p(0x5_0000),
        moe_output: p(0x6_0000),
        moe_router_in_f32: p(0x7_0000),
        expert_gate_out: p(0x8_0000),
        expert_up_out: p(0x9_0000),
        expert_down_out: p(0xa_0000),
        gate_logits: p(0xb_0000),
        logits: p(0xc_0000),
        hc_streams: p(0xd_0000),
        hc_post: p(0xe_0000),
        hc_comb: p(0xf_0000),
        o_latent: p(0x10_0000),
        splitk_workspace: p(0x11_0000),
        ssm_qkvz: p(0x12_0000),
        ssm_ba: p(0x13_0000),
        ssm_deinterleaved: p(0x14_0000),
        ssm_conv_out_f32: p(0x15_0000),
        token_ids: p(0x16_0000),
        scratch: p(0x20_0000),
        scratch_bytes: 0x10_0000,
        max_batch_tokens: 16,
    }
}

fn context() -> ForwardContext {
    ForwardContext {
        buffers: arena(),
        config: config(),
        attn_metadata: None,
        comm: false,
        graph_capture: false,
        profile: false,
        token_ids: None,
    }
}

fn experts(n: u64) -> ExpertPtrs {
    ExpertPtrs { packed_ptrs: p(n), scale_ptrs: p(n + 1), scale2_vals: p(n + 2) }
}

fn shared(n: u64) -> QuantizedWeight {
    QuantizedWeight { packed: p(n), scale: p(n + 1), scale2: F32Bits(n as u32) }
}

fn moe_layer() -> MoeLayer {
    let k = |n: u64| KernelHandle(n);
    MoeLayer {
        index: 3,
        gate: w(0x300),
        gate_nvfp4: None,
        correction_bias: None,
        shared_expert_gate: w(0x301),
        bf16_gate_weight_ptrs: None,
        bf16_up_weight_ptrs: None,
        bf16_down_weight_ptrs: None,
        bf16_shared_gate: None,
        bf16_shared_up: None,
        bf16_shared_down: None,
        fp8_gate_weight_ptrs: None,
        fp8_up_weight_ptrs: None,
        fp8_down_weight_ptrs: None,
        fp8_shared_expert: None,
        unified_t: false,
        gate_ptrs_t: None,
        up_ptrs_t: None,
        down_ptrs_t: None,
        shared_gate_t: None,
        shared_up_t: None,
        shared_down_t: None,
        gate_ptrs: experts(0x400),
        up_ptrs: experts(0x410),
        down_ptrs: experts(0x420),
        shared_gate: shared(0x430),
        shared_up: shared(0x440),
        shared_down: shared(0x450),
        w4a16_gemv_batch2: k(1),
        dense_gemm: k(2),
        moe_topk_sqrtsoftplus_k: k(3),
        moe_topk_sigmoid_batched_k: k(4),
        moe_topk_batched: k(5),
        gate_up_bf16_k: k(6),
        silu_down_bf16_k: k(7),
        gate_up_fp8_k: k(8),
        silu_down_fp8_k: k(9),
        gate_up_t_k: k(10),
        silu_down_t_k: k(11),
        gate_up_k: k(12),
        silu_down_k: k(13),
        silu_mul_k: k(14),
        down_precomputed_k: k(15),
        blend_batch2_k: k(16),
        blend_fp8_batch2_k: k(17),
        batched_blend_k: k(18),
        residual_add_k: k(19),
    }
}

fn moe_flags() -> MoeFlags {
    MoeFlags { k2_batched: false, k2_token_major: false, precompute_act: false, diag: false, profile: false }
}

fn ops(gpu: &MockGpuBackend) -> Vec<Op> {
    gpu.commands
        .iter()
        .filter_map(|c| match c {
            Command::Op { op: Op::Observe { .. }, .. } => None,
            Command::Op { op, .. } => Some(*op),
            _ => None,
        })
        .collect()
}

fn run(l: &MoeLayer, ctx: &ForwardContext, f: &MoeFlags) -> Vec<Op> {
    let mut gpu = MockGpuBackend::new();
    l.forward_k2(&mut gpu, p(0x77), ctx, f, 3).unwrap();
    ops(&gpu)
}

fn names(ops: &[Op]) -> Vec<&'static str> {
    ops.iter()
        .map(|op| match op {
            Op::DenseGemm { .. } => "logits",
            Op::W4a16GemvBatch2 { .. } => "logits4",
            Op::MoeTopk { .. } => "topk",
            Op::MoeGateUp { .. } => "gate_up",
            Op::MoeSiluDown { .. } => "down",
            Op::MoeSiluMul { .. } => "act",
            Op::MoeDownPrecomputed { .. } => "down_pre",
            Op::MoeBlend2 { .. } => "blend",
            Op::MemsetAsync { .. } => "zero",
            Op::AllReduce { .. } => "sum",
            Op::AllReduceAsync { .. } => "sum_async",
            Op::ResidualAdd { .. } => "add",
            Op::MoeBatchedBlend { .. } => "join",
            Op::MoeForwardBatched { .. } => "batched",
            Op::MoeForwardTokenMajor { .. } => "token_major",
            _ => "other",
        })
        .collect()
}

fn bf16_layer() -> MoeLayer {
    let mut l = moe_layer();
    l.bf16_gate_weight_ptrs = Some(p(0x500));
    l.bf16_up_weight_ptrs = Some(p(0x501));
    l.bf16_down_weight_ptrs = Some(p(0x502));
    l.bf16_shared_gate = Some(p(0x503));
    l.bf16_shared_up = Some(p(0x504));
    l.bf16_shared_down = Some(p(0x505));
    l
}

#[test]
fn e8m0_takes_per_token_path_not_gs16_batch3() {
    assert!(k3_e8m0_needs_per_token(WeightQuantFormat::Mxfp4E8m0));
}

#[test]
fn nvfp4_still_takes_batch3_kernel() {
    assert!(!k3_e8m0_needs_per_token(WeightQuantFormat::Nvfp4));
}

#[test]
fn bf16_and_fp8_k3_dispatch_unchanged() {
    for f in [
        WeightQuantFormat::Bf16,
        WeightQuantFormat::Fp8SingleScale,
        WeightQuantFormat::Fp8PerRow,
    ] {
        assert!(!k3_e8m0_needs_per_token(f));
    }
}

#[test]
fn no_e8m0_tensor_reaches_gs16_batch3() {
    let all = [
        WeightQuantFormat::Bf16,
        WeightQuantFormat::Fp8PerRow,
        WeightQuantFormat::Fp8BlockScaled,
        WeightQuantFormat::Fp8SingleScale,
        WeightQuantFormat::Nvfp4,
        WeightQuantFormat::Mxfp4E8m0,
    ];
    for f in all {
        assert_eq!(
            k3_e8m0_needs_per_token(f),
            f == WeightQuantFormat::Mxfp4E8m0,
            "only Mxfp4E8m0 diverts to the per-token path"
        );
    }
}

#[test]
fn e8m0_gs32_scale_alloc_is_half_the_gs16_batch3_kernel_read() {
    for (h, inter) in [(4096usize, 2048usize), (2048, 1408), (5120, 1536)] {
        let e8m0_alloc = inter * (h / 32);
        let gs16_read = inter * (h / 16);
        assert_eq!(gs16_read, 2 * e8m0_alloc);
    }
}

#[test]
fn two_tokens_take_five_launches() {
    let all = run(&moe_layer(), &context(), &moe_flags());
    assert_eq!(names(&all), vec!["logits", "topk", "gate_up", "down", "blend"]);
    assert_eq!(
        all[2],
        Op::MoeGateUp {
            layout: MoeLayout::RowMajor { block: 128 },
            kernel: KernelHandle(12),
            input: p(0x77),
            gate: ExpertWeights::Nvfp4(experts(0x400)),
            gate_out: arena().expert_gate_out,
            up: ExpertWeights::Nvfp4(experts(0x410)),
            up_out: arena().expert_up_out,
            indices: arena().scratch,
            sh_gate: SharedWeight::Nvfp4(shared(0x430)),
            sh_gate_out: arena().logits,
            sh_up: SharedWeight::Nvfp4(shared(0x440)),
            sh_up_out: arena().ssm_qkvz,
            inter: 32,
            h: 64,
            top_k: 2,
        }
    );
    assert_eq!(
        all[4],
        Op::MoeBlend2 {
            kernel: KernelHandle(16),
            output: arena().moe_output,
            down: arena().expert_down_out,
            weights: p(arena().scratch.0 + 16),
            shared: arena().attn_output,
            input: p(0x77),
            gate_weight: p(0x301),
            h: 64,
            top_k: 2,
            k: 64,
        }
    );
}

#[test]
fn switches_move_the_experts_to_other_paths() {
    let mut f = moe_flags();
    f.k2_token_major = true;
    assert_eq!(names(&run(&moe_layer(), &context(), &f)), vec!["token_major"]);
    f.k2_batched = true;
    assert_eq!(names(&run(&moe_layer(), &context(), &f)), vec!["batched"]);
    assert!(matches!(run(&moe_layer(), &context(), &f)[0], Op::MoeForwardBatched { layer: 3, tokens: 2, .. }));
    let mut other = context();
    other.config.model_type = ModelType::Other;
    assert_eq!(names(&run(&moe_layer(), &other, &f)).len(), 5, "the switches are of one model");
    let mut f = moe_flags();
    f.precompute_act = true;
    assert_eq!(
        names(&run(&moe_layer(), &context(), &f)),
        vec!["logits", "topk", "gate_up", "act", "act", "down_pre", "blend"]
    );
}

#[test]
fn dequantised_experts_run_in_bf16_or_token_by_token() {
    let l = bf16_layer();
    let all = run(&l, &context(), &moe_flags());
    assert_eq!(names(&all), vec!["logits", "topk", "gate_up", "down", "blend"]);
    assert!(matches!(all[2], Op::MoeGateUp { layout: MoeLayout::Bf16, kernel: KernelHandle(6), .. }));
    let mut no_kernel = l;
    no_kernel.gate_up_bf16_k = KernelHandle(0);
    assert_eq!(names(&run(&no_kernel, &context(), &moe_flags())), vec!["batched"]);
    let mut ranks = context();
    ranks.comm = true;
    ranks.config.ep_world_size = 2;
    assert_eq!(names(&run(&l, &ranks, &moe_flags())), vec!["batched"]);
}

#[test]
fn eight_bit_experts_have_their_own_kernels() {
    let mut l = moe_layer();
    let ptrs = Fp8ExpertPtrs { weight_ptrs: p(1), scale_ptrs: p(2) };
    let weight = Fp8Weight { weight: p(3), row_scale: p(4) };
    l.fp8_gate_weight_ptrs = Some(ptrs);
    l.fp8_up_weight_ptrs = Some(ptrs);
    l.fp8_down_weight_ptrs = Some(ptrs);
    l.fp8_shared_expert = Some(Fp8SharedExpert { gate_proj: weight, up_proj: weight, down_proj: weight });
    let all = run(&l, &context(), &moe_flags());
    assert!(matches!(all[2], Op::MoeGateUp { layout: MoeLayout::Fp8, kernel: KernelHandle(8), .. }));
    assert!(matches!(all[4], Op::MoeBlend2 { kernel: KernelHandle(17), .. }));
}

#[test]
fn transposed_experts_are_blended_too() {
    let mut l = moe_layer();
    l.unified_t = true;
    l.gate_ptrs_t = Some(experts(1));
    l.up_ptrs_t = Some(experts(5));
    l.down_ptrs_t = Some(experts(9));
    let all = run(&l, &context(), &moe_flags());
    assert_eq!(names(&all), vec!["logits", "topk", "gate_up", "down", "blend"]);
    match all[2] {
        Op::MoeGateUp { layout, sh_gate, .. } => {
            assert_eq!(layout, MoeLayout::Transposed);
            assert_eq!(sh_gate, SharedWeight::Nvfp4(QuantizedWeight::null()));
        }
        _ => unreachable!(),
    }
}

#[test]
fn shared_expert_joins_after_the_sum_over_ranks() {
    let mut ctx = context();
    ctx.comm = true;
    ctx.config.ep_world_size = 2;
    let all = run(&moe_layer(), &ctx, &moe_flags());
    assert_eq!(names(&all), vec!["logits", "topk", "gate_up", "down", "zero", "blend", "sum_async", "join"]);
    assert!(matches!(all[5], Op::MoeBlend2 { shared, .. } if shared == arena().expert_gate_out));
    assert_eq!(all[6], Op::AllReduceAsync { ptr: arena().moe_output, bytes: 256 });
    ctx.graph_capture = true;
    let mut l = moe_layer();
    l.shared_expert_gate = w(0);
    let all = run(&l, &ctx, &moe_flags());
    assert_eq!(names(&all)[6..], ["sum", "add"]);
    ctx.buffers.attn_output = p(0);
    let all = run(&l, &ctx, &moe_flags());
    assert_eq!(names(&all), vec!["logits", "topk", "gate_up", "down", "blend", "sum"]);
}

#[test]
fn routing_follows_the_score() {
    let call = |l: MoeLayer, ctx: ForwardContext| {
        let mut gpu = MockGpuBackend::new();
        let c = MoeCall { layer: l, ctx, flags: moe_flags(), input: p(0x77), stream: 0 };
        let r = MoeLayer::route_k2(&mut gpu, &c).unwrap();
        assert_eq!(r, (arena().scratch, p(arena().scratch.0 + 16)));
        assert_eq!(
            gpu.commands[0],
            Command::Call { call: Call::RouterInput { layer: 3, input: p(0x77), tokens: 2, h: 64, ctx }, stream: 0 }
        );
        ops(&gpu)
    };
    let mut l = moe_layer();
    l.correction_bias = Some(p(0x900));
    let all = call(l, context());
    assert_eq!(all.len(), 2);
    assert!(matches!(
        all[1],
        Op::MoeTopk { kernel: KernelHandle(4), score: TopkScore::Sigmoid { .. }, tokens: 2, .. }
    ));
    let mut ctx = context();
    ctx.config.scoring_func = ScoringFunc::SqrtSoftplus;
    let all = call(l, ctx);
    assert_eq!(all.len(), 3, "one token at a time");
    match all[2] {
        Op::MoeTopk { kernel, logits, indices, tokens, .. } => {
            assert_eq!(kernel, KernelHandle(3));
            assert_eq!(logits, p(arena().gate_logits.0 + 16));
            assert_eq!(indices, p(arena().scratch.0 + 8));
            assert_eq!(tokens, 1);
        }
        _ => unreachable!(),
    }
    l.correction_bias = None;
    l.gate_nvfp4 = Some(shared(0x60));
    let all = call(l, ctx);
    assert_eq!(names(&all), vec!["logits4", "topk"]);
}

#[test]
fn refused_launch_ends_the_block() {
    let mut gpu = MockGpuBackend::new();
    gpu.refuse_at = Some(4);
    let r = moe_layer().forward_k2(&mut gpu, p(1), &context(), &moe_flags(), 0);
    assert!(r.is_err());
    assert_eq!(gpu.command_count(), 5);
    // A sample for the log is never refused.
    let mut gpu = MockGpuBackend::new();
    gpu.refuse_at = Some(3);
    assert!(moe_layer().forward_k2(&mut gpu, p(1), &context(), &moe_flags(), 0).is_ok());
    assert_eq!(
        gpu.commands[3],
        Command::Op {
            op: Op::Observe { what: Observation::ExpertUnion { indices: arena().scratch, tokens: 2, top_k: 2 } },
            stream: 0
        }
    );
}

#[test]
fn moe_settings_are_exact() {
    let f = MoeFlags::from_settings(&MoeSettings {
        k2_batched: Some("1"),
        k2_token_major: Some("01"),
        precompute_act: None,
        diag: Some("true"),
        profile: Some("true"),
    });
    assert_eq!(f, MoeFlags { k2_batched: true, profile: true, ..moe_flags() });
    let f = MoeFlags::from_settings(&MoeSettings {
        k2_batched: Some(""),
        k2_token_major: Some("1"),
        precompute_act: Some("1"),
        diag: Some("1"),
        profile: Some("yes"),
    });
    assert_eq!(f, MoeFlags { k2_token_major: true, precompute_act: true, diag: true, ..moe_flags() });
}

#[test]
fn experts_wait_where_they_are_watched() {
    let wait = Command::Op { op: Op::Synchronize, stream: 0 };
    let run = |f: MoeFlags| {
        let mut gpu = MockGpuBackend::new();
        moe_layer().forward_k2(&mut gpu, p(0x100), &context(), &f, 0).unwrap();
        gpu.commands
    };
    let plain = run(moe_flags());
    for (diag, profile, waits) in [(true, false, 5), (false, true, 4), (true, true, 9)] {
        let mut watched = run(MoeFlags { diag, profile, ..moe_flags() });
        assert_eq!(watched[0], wait);
        assert_eq!(watched.len(), plain.len() + waits);
        watched.retain(|x| *x != wait);
        assert_eq!(watched, plain);
    }
}
