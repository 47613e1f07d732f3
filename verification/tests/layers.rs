use atlas_spark::attention::{DownScratch, Qwen3AttentionLayer};
use atlas_spark::attention_cache::{check_turbo, CacheWrite};
use atlas_spark::attention_prefill::{PagedAttnArgs, PagedAttnOutcome, PrefillError};
use atlas_spark::config::{BufferArena, ForwardContext, ModelConfig, ModelType, ScoringFunc};
use atlas_spark::gpu::{DenseWeight, DevicePtr, F32Bits, Fp8Scales, KernelHandle};
use atlas_spark::kv_cache::{KvCacheConfig, KvCacheDtype, KvLayout, LayerPool};
use atlas_spark::mock::{Command, MockGpuBackend};
use atlas_spark::op::{
    BatchedAttnMetadata, CacheId, EmptyLayerState, FfnKind, GdnPrefillBuffers, LayerCall, LayerKind, LayerState, LayerWork,
    MoeTranspose, Op, PoolLayout, SsmLayerState,
};
use atlas_spark::ssm::{state_bytes, Qwen3SsmLayer};
use atlas_spark::trace::GpuBackend;

fn p(n: u64) -> DevicePtr {
    DevicePtr(n)
}

fn w(n: u64) -> DenseWeight {
    DenseWeight { weight: p(n) }
}

fn config() -> ModelConfig {
    ModelConfig {
        model_type: ModelType::DeepseekV4,
        hidden_size: 64,
        vocab_size: 100,
        num_hidden_layers: 2,
        num_attention_heads: 4,
        head_dim: 16,
        kv_lora_rank: 16,
        qk_rope_head_dim: 4,
        o_groups: 2,
        rms_norm_eps: F32Bits(1),
        hc_mult: 4,
        hc_eps: F32Bits(2),
        num_experts: 8,
        num_experts_per_tok: 2,
        moe_intermediate_size: 32,
        norm_topk_prob: true,
        routed_scaling_factor: F32Bits(3),
        scoring_func: ScoringFunc::Softmax,
        ep_world_size: 1,
        tp_world_size: 1,
        num_mtp_modules: 1,
        dspark_window_size: 8,
        dspark_block_size: 3,
        dspark_noise_token_id: 9,
        dspark_markov_rank: 4,
        linear_num_value_heads: 32,
        linear_value_head_dim: 128,
        linear_num_key_heads: 16,
        linear_key_head_dim: 128,
        linear_conv_kernel_dim: 4,
    }
}

fn arena() -> BufferArena {
    BufferArena {
        hidden_states: p(0x1_0000),
        residual: p(0x2_0000),
        norm_output: p(0x3_0000),
        norm_unit_w: p(0x4_0000),
        attn_output: p(0x5_0000),
        moe_output: p(0x6_0000),
        moe_router_in_f32: p(0x7_0000),
        expert_gate_out: p(0x8_0000),
        expert_up_out: p(0x9_0000),
        expert_down_out: p(0xa_0000),
        gate_logits: p(0xb_0000),
        logits: p(0xc_0000),
        hc_streams: p(0xd_0000),
        hc_post: p(0xe_0000),
        hc_comb: p(0xf_0000),
        o_latent: p(0x10_0000),
        splitk_workspace: p(0x11_0000),
        ssm_qkvz: p(0x12_0000),
        ssm_ba: p(0x13_0000),
        ssm_deinterleaved: p(0x14_0000),
        ssm_conv_out_f32: p(0x15_0000),
        token_ids: p(0x16_0000),
        scratch: p(0x20_0000),
        scratch_bytes: 0x10_0000,
        max_batch_tokens: 16,
    }
}

fn context() -> ForwardContext {
    ForwardContext {
        buffers: arena(),
        config: config(),
        attn_metadata: None,
        comm: false,
        graph_capture: false,
        profile: false,
        token_ids: None,
    }
}

fn layer() -> Qwen3AttentionLayer {
    let k = |n: u64| KernelHandle(n);
    Qwen3AttentionLayer {
        attn_layer_idx: 0,
        kv_dtype: KvCacheDtype::Bf16,
        input_norm: w(0x501),
        post_attn_norm: w(0x502),
        post_attn_out_norm: None,
        post_ffn_out_norm: None,
        pre_moe_norm: None,
        post_moe_out_norm: None,
        post_dense_ffn_norm: None,
        has_ffn: true,
        fp32_routing: false,
        ffn_is_moe: true,
        has_moe_ffn: false,
        ffn_down_scratch: None,
        moe_ffn_down_scratch: None,
        layer_scalar: None,
        hc: None,
        mla: None,
        sliding_window: None,
        attn_scale: F32Bits(4),
        fp8_calibration: false,
        rms_norm_k: k(1),
        rms_norm_w_k: k(2),
        rms_norm_residual_k: k(3),
        residual_add_k: k(4),
        residual_add_rms_norm_k: k(5),
        residual_add_rms_norm_gatef32_k: k(6),
        hc_expand_k: k(7),
        hc_post_k: k(8),
        hc_head_k: k(9),
        hc_pre_mix_parallel_k: k(10),
        hc_pre_finalize_k: k(11),
        dense_gemv_k: k(12),
        w4a16_gemv_batch2_k: k(13),
        w8a16_gemv_batch4_k: k(14),
        mla_q_rope_extract_batched_k: k(15),
        mla_q_rope_writeback_batched_k: k(16),
        mla_cache_assemble_batched_k: k(17),
        rope_yarn_interleaved_k: k(18),
        rope_yarn_interleaved_inv_k: k(19),
        reshape_cache_k: k(20),
        wht_bf16_k: k(21),
        prefill_attn_512_k: k(22),
        prefill_attn_paged_512_k: k(23),
        prefill_attn_paged_64_k: k(24),
        prefill_attn_paged_k: k(25),
        prefill_attn_paged_fp8_64_k: k(26),
        prefill_attn_paged_fp8_k: k(27),
        prefill_attn_paged_nvfp4_64_k: k(28),
        prefill_attn_paged_nvfp4_k: k(29),
    }
}

fn layout() -> KvLayout {
    KvLayout {
        cache: cache(),
        pools: vec![LayerPool { k_pool: p(0x100), v_pool: p(0x200), block_stride_bytes: 999 }],
        cache_stride: 77,
        nvfp4_data_bytes: 11,
        turbo3_data_bytes: 12,
        turbo4_data_bytes: 13,
        turbo8_data_bytes: 14,
    }
}

fn ops(gpu: &MockGpuBackend) -> Vec<Op> {
    gpu.commands
        .iter()
        .filter_map(|c| match c {
            Command::Op { op, .. } => Some(*op),
            _ => None,
        })
        .collect()
}

fn cache() -> CacheId {
    CacheId {
        config: KvCacheConfig {
            block_size: 16,
            num_kv_heads: 1,
            head_dim: 16,
            num_layers: 2,
            dtype: KvCacheDtype::Bf16,
            cache_blocks_per_seq: None,
        },
        storage: p(0x77),
    }
}

fn ssm_state(n: u64) -> SsmLayerState {
    SsmLayerState { h_state: p(n), conv_state: p(n + 1) }
}

fn ssm_call(state: SsmLayerState, work: LayerWork) -> LayerCall {
    LayerCall {
        kind: LayerKind::StateSpace,
        index: 5,
        state: LayerState::StateSpace(state),
        cache: cache(),
        work,
        ctx: context(),
    }
}

fn ssm_layer() -> Qwen3SsmLayer {
    Qwen3SsmLayer {
        index: 5,
        out_proj_dense: None,
        gdn_prefill_wy32_batched_k: KernelHandle(0),
        h_state_bytes: 32 * 128 * 128 * 4,
        conv_state_bytes: 8192 * 4 * 4,
    }
}

#[test]
fn test_alloc_state_returns_empty() {
    let mut gpu = MockGpuBackend::new();
    assert!(gpu.kernel("norm", "rms_norm").is_ok());
    assert!(gpu.kernel("rope", "rope_forward").is_ok());
    assert!(gpu.kernel("paged_decode_fp8", "paged_decode_attn_fp8").is_ok());
    assert_eq!(layer().alloc_state(), EmptyLayerState);
}

#[test]
fn test_ssm_state_allocation_sizes() {
    let config = config();
    let (h_bytes, conv_bytes) = state_bytes(&config);
    assert_eq!(h_bytes, 32 * 128 * 128 * 4); // 2 MB

    // conv_dim = 2*key_dim + value_dim = 2*2048 + 4096 = 8192
    assert_eq!(conv_bytes, 8192 * 4 * 4); // 128 KB

    // Verify allocations
    let mut gpu = MockGpuBackend::new();
    let h_state = gpu.allocate(h_bytes).unwrap();
    let conv_state = gpu.allocate(conv_bytes).unwrap();
    assert!(!h_state.is_null());
    assert!(!conv_state.is_null());
}

#[test]
fn ssm_state_is_two_buffers() {
    let mut gpu = MockGpuBackend::new();
    let s = ssm_layer().alloc_state(&mut gpu).unwrap();
    assert_ne!(s.h_state, s.conv_state);
    assert_eq!(
        gpu.commands,
        vec![Command::Alloc { bytes: 32 * 128 * 128 * 4 }, Command::Alloc { bytes: 8192 * 4 * 4 }]
    );
    let mut gpu = MockGpuBackend::new();
    gpu.refuse_at = Some(1);
    assert!(ssm_layer().alloc_state(&mut gpu).is_err());
    assert!(ssm_layer().is_ssm_layer());
}

#[test]
fn stacked_prefill_leaves_out_streams_without_rows() {
    let mut gpu = MockGpuBackend::new();
    let states = [ssm_state(0x61), ssm_state(0x63), ssm_state(0x65)];
    let tables = vec![vec![1u32, 2], vec![3], vec![4]];
    let mut ids = vec![vec![9u32], vec![8], vec![]];
    let mut cursors = vec![vec![0u32], vec![5], vec![0]];
    ssm_layer()
        .prefill_batched(
            &mut gpu,
            p(0x1000),
            p(0x2000),
            &[0, 3, 3, 5],
            &states,
            cache(),
            &[10, 20, 30],
            &tables,
            &mut ids,
            &mut cursors,
            &[1, 2, 3],
            &context(),
            4,
        )
        .unwrap();
    let run = |off: u64, rows: usize, start: usize, write: usize| LayerWork::Prefill {
        hidden: p(0x1000 + off * 64 * 2),
        residual: p(0x2000 + off * 64 * 2),
        num_tokens: rows,
        seq_len_start: start,
        kv_write_start: write,
    };
    assert_eq!(
        gpu.commands,
        vec![
            Command::Layer {
                call: ssm_call(states[0], run(0, 3, 10, 1)),
                blocks: vec![1, 2],
                ids: vec![9],
                cursors: vec![0],
                stream: 4,
            },
            Command::Layer {
                call: ssm_call(states[2], run(3, 2, 30, 3)),
                blocks: vec![4],
                ids: vec![],
                cursors: vec![0],
                stream: 4,
            },
        ],
        "each stream runs with its own state and tables"
    );
    assert_eq!(ids, vec![vec![1, 2], vec![8], vec![4]], "a stream without rows keeps its tables");
    assert_eq!(cursors, vec![vec![0, 2], vec![5], vec![0, 1]]);
}

#[test]
fn stacked_prefill_is_the_prefills_of_its_streams() {
    let states = [ssm_state(0x61), ssm_state(0x63)];
    let tables = vec![vec![1u32, 2], vec![3]];
    let mut stacked = MockGpuBackend::new();
    let mut ids = vec![vec![9u32], vec![]];
    let mut cursors = vec![vec![0u32], vec![0]];
    let l = ssm_layer();
    l.prefill_batched(
        &mut stacked,
        p(0x1000),
        p(0x2000),
        &[0, 40, 80],
        &states,
        cache(),
        &[10, 20],
        &tables,
        &mut ids,
        &mut cursors,
        &[1, 2],
        &context(),
        4,
    )
    .unwrap();
    let mut single = MockGpuBackend::new();
    let mut one_ids = vec![vec![9u32], vec![]];
    let mut one_cursors = vec![vec![0u32], vec![0]];
    for i in 0..2 {
        l.prefill(
            &mut single,
            p(0x1000 + 40 * i as u64 * 128),
            p(0x2000 + 40 * i as u64 * 128),
            40,
            states[i],
            cache(),
            [10, 20][i],
            &tables[i],
            &mut one_ids[i],
            &mut one_cursors[i],
            [1, 2][i],
            &context(),
            4,
        )
        .unwrap();
    }
    assert_eq!(stacked.commands, single.commands);
    assert_eq!((ids, cursors), (one_ids, one_cursors));
}

#[test]
fn stacked_prefill_of_nothing_runs_nothing() {
    let mut gpu = MockGpuBackend::new();
    let (mut ids, mut cursors) = (Vec::new(), Vec::new());
    for cu in [vec![], vec![7]] {
        ssm_layer()
            .prefill_batched(
                &mut gpu,
                p(1),
                p(2),
                &cu,
                &[],
                cache(),
                &[],
                &[],
                &mut ids,
                &mut cursors,
                &[],
                &context(),
                0,
            )
            .unwrap();
    }
    assert_eq!(gpu.command_count(), 0);
}

#[test]
fn stacked_prefill_stops_where_it_is_refused() {
    let mut gpu = MockGpuBackend::new();
    gpu.refuse_at = Some(1);
    let mut ids = vec![vec![], vec![7u32], vec![]];
    let mut cursors = vec![vec![], vec![6u32], vec![]];
    let r = ssm_layer().prefill_batched(
        &mut gpu,
        p(1),
        p(2),
        &[0, 1, 2, 3],
        &[ssm_state(1), ssm_state(3), ssm_state(5)],
        cache(),
        &[0, 0, 0],
        &[vec![1], vec![2], vec![3]],
        &mut ids,
        &mut cursors,
        &[0, 0, 0],
        &context(),
        0,
    );
    assert!(r.is_err());
    assert_eq!(gpu.command_count(), 2);
    assert_eq!(ids, vec![vec![1], vec![7], vec![]]);
    assert_eq!(cursors, vec![vec![1], vec![6], vec![]]);
}

#[test]
fn refused_stream_leaves_what_it_wrote() {
    let mut gpu = MockGpuBackend::new();
    gpu.refuse_at = Some(1);
    gpu.writes_before_refusal = true;
    let mut ids = vec![vec![], vec![7u32], vec![]];
    let mut cursors = vec![vec![], vec![6u32], vec![]];
    let r = ssm_layer().prefill_batched(
        &mut gpu,
        p(1),
        p(2),
        &[0, 1, 2, 3],
        &[ssm_state(1), ssm_state(3), ssm_state(5)],
        cache(),
        &[0, 0, 0],
        &[vec![1], vec![2], vec![3]],
        &mut ids,
        &mut cursors,
        &[0, 0, 0],
        &context(),
        0,
    );
    assert!(r.is_err());
    assert_eq!(ids, vec![vec![1], vec![2], vec![]]);
    assert_eq!(cursors, vec![vec![1], vec![6, 1], vec![]]);
}

#[test]
fn addresses_of_rows_come_round() {
    assert_eq!(p(0x100).row(3, 32), p(0x160));
    assert_eq!(p(0x100).item(3, 16, 2), p(0x160));
    assert_eq!(p(7).item(1 << 32, 1 << 31, 2), p(7));
    assert_eq!(p(0).row(u32::MAX, 1 << 33), p(0u64.wrapping_sub(1 << 33)));
}

#[test]
fn ssm_steps_are_one_command_each() {
    let mut gpu = MockGpuBackend::new();
    let ctx = context();
    let l = ssm_layer();
    let st = ssm_state(0x61);
    let blocks = vec![3u32];
    let mut ids: Vec<u32> = Vec::new();
    let mut cursors: Vec<u32> = Vec::new();
    l.decode(&mut gpu, p(1), p(2), st, cache(), 9, &blocks, &mut ids, &mut cursors, &ctx, 0).unwrap();
    l.decode_batched(&mut gpu, p(1), p(2), 4, st, cache(), 9, &blocks, &mut ids, &mut cursors, &ctx, 0).unwrap();
    l.prefill(&mut gpu, p(1), p(2), 4, st, cache(), 9, &blocks, &mut ids, &mut cursors, 3, &ctx, 0).unwrap();
    let work: Vec<LayerCall> = gpu
        .commands
        .iter()
        .map(|c| match c {
            Command::Layer { call, .. } => *call,
            other => panic!("{:?}", other),
        })
        .collect();
    assert_eq!(
        work,
        vec![
            ssm_call(st, LayerWork::Decode { hidden: p(1), residual: p(2), seq_len: 9 }),
            ssm_call(st, LayerWork::DecodeBatched { hidden: p(1), residual: p(2), num_tokens: 4, seq_len: 9 }),
            ssm_call(
                st,
                LayerWork::Prefill {
                    hidden: p(1),
                    residual: p(2),
                    num_tokens: 4,
                    seq_len_start: 9,
                    kv_write_start: 3,
                }
            ),
        ]
    );
    assert_eq!(ids, vec![3]);
    assert_eq!(cursors, vec![1, 1, 1]);
}

#[test]
fn debug_reads_come_back_as_bits() {
    let mut gpu = MockGpuBackend::new();
    gpu.reads = vec![vec![0x80, 0x3f, 0x00, 0xc0], 2.5f32.to_bits().to_le_bytes().to_vec()];
    let halves = Qwen3SsmLayer::debug_bf16(&mut gpu, p(0x40), 2).unwrap();
    assert_eq!(halves, vec![1.0f32.to_bits(), (-2.0f32).to_bits()]);
    let singles = Qwen3SsmLayer::debug_f32(&mut gpu, p(0x80), 1).unwrap();
    assert_eq!(singles, vec![2.5f32.to_bits()]);
    assert_eq!(gpu.commands[0], Command::D2h { src: p(0x40), len: 4 });
    assert_eq!(gpu.commands[1], Command::D2h { src: p(0x80), len: 4 });
    gpu.refuse_at = Some(2);
    assert!(Qwen3SsmLayer::debug_f32(&mut gpu, p(0x80), 1).is_none());
}

#[test]
fn attention_prefill_is_one_command() {
    let mut gpu = MockGpuBackend::new();
    let ctx = context();
    let state = LayerState::Empty(EmptyLayerState);
    let (mut ids, mut cursors) = (vec![4u32], vec![0u32]);
    layer()
        .prefill(&mut gpu, p(1), p(2), 4, state, cache(), 9, &vec![5, 6], &mut ids, &mut cursors, 3, &ctx, 0)
        .unwrap();
    let meta = BatchedAttnMetadata { positions_stacked: p(7), slot_stacked: p(8), block_table_ptrs: p(9) };
    layer().prefill_inner_batched_q12(&mut gpu, p(1), p(2), 4, cache(), 9, &meta, &ctx, 0).unwrap();
    assert_eq!(
        gpu.commands,
        vec![
            Command::Layer {
                call: LayerCall {
                    kind: LayerKind::Attention,
                    index: 0,
                    state,
                    cache: cache(),
                    work: LayerWork::Prefill {
                        hidden: p(1),
                        residual: p(2),
                        num_tokens: 4,
                        seq_len_start: 9,
                        kv_write_start: 3,
                    },
                    ctx,
                },
                blocks: vec![5, 6],
                ids: vec![4],
                cursors: vec![0],
                stream: 0,
            },
            Command::Op {
                op: Op::AttentionPrefillStacked {
                    index: 0,
                    hidden: p(1),
                    residual: p(2),
                    num_tokens: 4,
                    seq_len_start: 9,
                    kv_write_start: 0,
                    cache: cache(),
                    meta,
                    ctx,
                },
                stream: 0,
            },
        ]
    );
    assert_eq!((ids, cursors), (vec![5, 6], vec![0, 2]));
}

#[test]
fn transposed_copies_are_made_for_expert_blocks_only() {
    let mut l = layer();
    l.has_moe_ffn = true;
    let mut gpu = MockGpuBackend::new();
    l.transpose_moe_for_prefill_hybrid(&mut gpu, &config()).unwrap();
    assert_eq!(
        ops(&gpu),
        vec![
            Op::TransposeMoe { copy: MoeTranspose::Hybrid, ffn: FfnKind::Main, layer: 0, config: config() },
            Op::TransposeMoe { copy: MoeTranspose::Hybrid, ffn: FfnKind::ExtraMoe, layer: 0, config: config() },
        ]
    );
    l.ffn_is_moe = false;
    let mut gpu = MockGpuBackend::new();
    l.transpose_moe_for_prefill(&mut gpu, &config()).unwrap();
    l.transpose_moe_gate_up_for_prefill(&mut gpu, &config()).unwrap();
    l.transpose_moe_for_prefill_unified(&mut gpu, &config()).unwrap();
    assert_eq!(
        ops(&gpu),
        vec![
            Op::TransposeMoe { copy: MoeTranspose::All, ffn: FfnKind::ExtraMoe, layer: 0, config: config() },
            Op::TransposeMoe { copy: MoeTranspose::GateUp, ffn: FfnKind::ExtraMoe, layer: 0, config: config() },
            Op::TransposeMoe { copy: MoeTranspose::Unified, ffn: FfnKind::ExtraMoe, layer: 0, config: config() },
        ]
    );
}

#[test]
fn down_scratch_goes_to_expert_blocks_only() {
    let mut l = layer();
    l.set_moe_down_transpose_scratch(p(1), p(2), p(3), p(4));
    let given = Some(DownScratch { packed: p(1), scale: p(2), packed_ptrs: p(3), scale_ptrs: p(4) });
    assert_eq!(l.ffn_down_scratch, given);
    assert_eq!(l.moe_ffn_down_scratch, None);
}

fn cache_write() -> CacheWrite {
    CacheWrite {
        k: p(0x30),
        v: p(0x40),
        slot: p(0x50),
        num_tokens: 3,
        num_kv_heads: 2,
        head_dim: 128,
        block_size: 16,
        key_stride: 256,
        value_stride: 257,
        graph_capture: false,
    }
}

fn stored(layout: PoolLayout) -> Op {
    Op::ReshapeAndCache {
        kernel: KernelHandle(20),
        k: p(0x30),
        v: p(0x40),
        k_pool: p(0x100),
        v_pool: p(0x200),
        slot: p(0x50),
        num_tokens: 3,
        num_kv_heads: 2,
        head_dim: 128,
        block_size: 16,
        key_stride: 256,
        value_stride: 257,
        layout,
    }
}

#[test]
fn cache_write_follows_the_dtype() {
    let mut l = layer();
    let mut gpu = MockGpuBackend::new();
    l.write_kv_cache(&mut gpu, &layout(), &cache_write(), 0).unwrap();
    assert_eq!(ops(&gpu), vec![stored(PoolLayout::Strided { stride: 77 })]);

    l.kv_dtype = KvCacheDtype::Nvfp4;
    let mut gpu = MockGpuBackend::new();
    l.write_kv_cache(&mut gpu, &layout(), &cache_write(), 0).unwrap();
    assert_eq!(ops(&gpu), vec![stored(PoolLayout::Packed { block_stride: 999, data_bytes: 11 })]);
}

#[test]
fn eight_bit_cache_observes_while_it_calibrates() {
    let mut l = layer();
    l.kv_dtype = KvCacheDtype::Fp8;
    l.fp8_calibration = true;
    let place = PoolLayout::Fp8 { k_scale: F32Bits(5), v_scale: F32Bits(6), stride: 77 };
    let mut gpu = MockGpuBackend::new();
    gpu.fp8_scales = Fp8Scales { k: F32Bits(5), v: F32Bits(6) };
    l.write_kv_cache(&mut gpu, &layout(), &cache_write(), 0).unwrap();
    assert_eq!(
        ops(&gpu),
        vec![
            Op::Fp8Observe { layer: 0, k: p(0x30), v: p(0x40), num_tokens: 3, num_kv_heads: 2, head_dim: 128 },
            stored(place),
        ]
    );
    assert_eq!(gpu.commands[1], Command::Fp8Scales { layer: 0 }, "the scales are asked for after the look");
    let mut captured = cache_write();
    captured.graph_capture = true;
    let mut gpu = MockGpuBackend::new();
    gpu.fp8_scales = Fp8Scales { k: F32Bits(5), v: F32Bits(6) };
    l.write_kv_cache(&mut gpu, &layout(), &captured, 0).unwrap();
    assert_eq!(ops(&gpu), vec![stored(place)]);
}

#[test]
fn eight_bit_rows_take_the_scales_of_the_moment() {
    let mut l = layer();
    l.kv_dtype = KvCacheDtype::Fp8;
    let (mut ids, mut cursors) = (Vec::new(), Vec::new());
    for n in [1u32, 2] {
        let now = Fp8Scales { k: F32Bits(n), v: F32Bits(n + 10) };
        let place = PoolLayout::Fp8 { k_scale: now.k, v_scale: now.v, stride: 77 };
        let mut gpu = MockGpuBackend::new();
        gpu.fp8_scales = now;
        l.write_kv_cache(&mut gpu, &layout(), &cache_write(), 0).unwrap();
        assert_eq!(ops(&gpu), vec![stored(place)]);
        let mut gpu = MockGpuBackend::new();
        gpu.fp8_scales = now;
        l.prefill_attention_paged_attn(&mut gpu, &layout(), &args(), &vec![1], &mut ids, &mut cursors, &context()).unwrap();
        assert_eq!(gpu.commands[0], Command::Fp8Scales { layer: 0 });
        assert!(matches!(ops(&gpu)[0], Op::PrefillPaged { layout, .. } if layout == place));
    }
}

#[test]
fn refused_write_stops_before_the_rows_are_stored() {
    let mut l = layer();
    l.kv_dtype = KvCacheDtype::Fp8;
    l.fp8_calibration = true;
    for (at, count) in [(0, 1), (2, 3)] {
        let mut gpu = MockGpuBackend::new();
        gpu.refuse_at = Some(at);
        assert!(l.write_kv_cache(&mut gpu, &layout(), &cache_write(), 0).is_err());
        assert_eq!(gpu.command_count(), count);
    }
}

#[test]
fn turbo_cache_transforms_both_rows_first() {
    let mut l = layer();
    l.kv_dtype = KvCacheDtype::Turbo8;
    let mut gpu = MockGpuBackend::new();
    l.write_kv_cache(&mut gpu, &layout(), &cache_write(), 0).unwrap();
    assert_eq!(gpu.launch_count(), 2);
    match &gpu.commands[0] {
        Command::Launch { kernel, grid, params, .. } => {
            assert_eq!(*kernel, KernelHandle(21));
            assert_eq!(*grid, [6, 1, 1]);
            assert_eq!(*params, vec![0x30, 128]);
        }
        other => panic!("{:?}", other),
    }
    assert_eq!(ops(&gpu), vec![stored(PoolLayout::Packed { block_stride: 999, data_bytes: 14 })]);
    assert!(check_turbo(KvCacheDtype::Turbo3));
    assert!(!check_turbo(KvCacheDtype::Fp8));
}

fn args() -> PagedAttnArgs {
    PagedAttnArgs {
        q_contiguous: p(0x1000),
        k_contiguous: p(0x2000),
        v_contiguous: p(0x3000),
        attn_out: p(0x4000),
        n: 2,
        seq_len_start: 16,
        num_tokens: 2,
        nq: 4,
        nkv: 1,
        hd: 128,
        bs: 16,
        bf16: 2,
        inv_sqrt_d: F32Bits(8),
        kv_len: 18,
        block_table: p(0x5000),
        swap: false,
        stream: 1,
    }
}

fn kernel_of(op: &Op) -> KernelHandle {
    match op {
        Op::PrefillPaged { kernel, .. } => *kernel,
        Op::PrefillAttention { kernel, .. } => *kernel,
        other => panic!("{:?}", other),
    }
}

#[test]
fn paged_prefill_picks_the_kernel_by_rows_and_dtype() {
    let mut ids: Vec<u32> = Vec::new();
    let mut cursors: Vec<u32> = Vec::new();
    let blocks = vec![3u32, 4];
    for (dtype, n, kernel) in [
        (KvCacheDtype::Bf16, 255, 25),
        (KvCacheDtype::Bf16, 256, 24),
        (KvCacheDtype::Fp8, 2, 27),
        (KvCacheDtype::Fp8, 300, 26),
        (KvCacheDtype::Nvfp4, 2, 29),
        (KvCacheDtype::Turbo4, 256, 28),
    ] {
        let mut l = layer();
        l.kv_dtype = dtype;
        let mut a = args();
        a.n = n;
        let mut gpu = MockGpuBackend::new();
        let r = l.prefill_attention_paged_attn(&mut gpu, &layout(), &a, &blocks, &mut ids, &mut cursors, &context());
        assert_eq!(r, Ok(PagedAttnOutcome::Continue));
        assert_eq!(kernel_of(&ops(&gpu)[0]), KernelHandle(kernel));
    }
    assert!(ids.is_empty());
}

#[test]
fn wide_heads_take_their_own_kernels() {
    let mut ids: Vec<u32> = Vec::new();
    let mut cursors: Vec<u32> = Vec::new();
    let blocks: Vec<u32> = Vec::new();
    let mut l = layer();
    let mut a = args();
    a.hd = 512;
    a.seq_len_start = 0;
    let mut gpu = MockGpuBackend::new();
    l.prefill_attention_paged_attn(&mut gpu, &layout(), &a, &blocks, &mut ids, &mut cursors, &context()).unwrap();
    assert_eq!(kernel_of(&ops(&gpu)[0]), KernelHandle(22));
    a.seq_len_start = 16;
    let mut gpu = MockGpuBackend::new();
    l.prefill_attention_paged_attn(&mut gpu, &layout(), &a, &blocks, &mut ids, &mut cursors, &context()).unwrap();
    assert_eq!(kernel_of(&ops(&gpu)[0]), KernelHandle(23));

    l.prefill_attn_paged_512_k = KernelHandle(0);
    let mut gpu = MockGpuBackend::new();
    let r = l.prefill_attention_paged_attn(&mut gpu, &layout(), &a, &blocks, &mut ids, &mut cursors, &context());
    assert_eq!(r, Err(PrefillError::WideKernelMissing));
    l.kv_dtype = KvCacheDtype::Fp8;
    let r = l.prefill_attention_paged_attn(&mut gpu, &layout(), &a, &blocks, &mut ids, &mut cursors, &context());
    assert_eq!(
        r,
        Err(PrefillError::WideHeadsNeedBf16 { layer: 0, seq_len_start: 16, kv_dtype: KvCacheDtype::Fp8 })
    );
    assert_eq!(gpu.command_count(), 0);
    l.kv_dtype = KvCacheDtype::Bf16;
    a.hd = 128;
    gpu.refuse_at = Some(0);
    let r = l.prefill_attention_paged_attn(&mut gpu, &layout(), &a, &blocks, &mut ids, &mut cursors, &context());
    assert!(matches!(r, Err(PrefillError::Gpu(_))));
}

#[test]
fn swapped_rows_attend_up_to_themselves() {
    let mut ids: Vec<u32> = vec![40];
    let mut cursors: Vec<u32> = vec![1];
    let blocks = vec![51u32, 52];
    let mut a = args();
    a.swap = true;
    a.seq_len_start = 15;
    let mut gpu = MockGpuBackend::new();
    let r = layer().prefill_attention_paged_attn(&mut gpu, &layout(), &a, &blocks, &mut ids, &mut cursors, &context());
    assert_eq!(r, Ok(PagedAttnOutcome::EarlyReturn(p(0x4000))));
    assert_eq!(ids, vec![51, 52]);
    assert_eq!(cursors, vec![1, 2]);
    assert_eq!(
        gpu.commands,
        vec![
            Command::SwapOut { layer: 0, cache: cache(), blocks: vec![51, 52], ids: vec![40], cursors: vec![1] },
            Command::SwapAttend { layer: 0, ids: vec![51], valid_slots: 16 },
            Command::SwapAttend { layer: 0, ids: vec![51, 52], valid_slots: 1 },
        ]
    );
    let mut kept: Vec<u32> = vec![40];
    let mut gpu = MockGpuBackend::new();
    gpu.refuse_at = Some(0);
    let r = layer().prefill_attention_paged_attn(&mut gpu, &layout(), &a, &blocks, &mut kept, &mut cursors, &context());
    assert!(r.is_err());
    assert_eq!(kept, vec![40]);
    assert_eq!(cursors, vec![1, 2]);
    let mut gpu = MockGpuBackend::new();
    gpu.refuse_at = Some(0);
    gpu.writes_before_refusal = true;
    let r = layer().prefill_attention_paged_attn(&mut gpu, &layout(), &a, &blocks, &mut kept, &mut cursors, &context());
    assert!(r.is_err());
    assert_eq!(kept, vec![51, 52], "what went out before the refusal is kept");
    assert_eq!(gpu.command_count(), 1);
}

#[test]
fn chunks_that_do_not_swap_need_no_block_size() {
    let mut a = args();
    a.bs = 0;
    a.nq = u32::MAX;
    a.bf16 = usize::MAX;
    let (mut ids, mut cursors) = (Vec::new(), Vec::new());
    let mut gpu = MockGpuBackend::new();
    let r = layer().prefill_attention_paged_attn(&mut gpu, &layout(), &a, &vec![1], &mut ids, &mut cursors, &context());
    assert_eq!(r, Ok(PagedAttnOutcome::Continue));
}

#[test]
fn chunks_come_from_where_they_went() {
    for dtype in [
        KvCacheDtype::Fp8,
        KvCacheDtype::Nvfp4,
        KvCacheDtype::Turbo3,
        KvCacheDtype::Turbo4,
        KvCacheDtype::Turbo8,
    ] {
        let mut l = layer();
        l.kv_dtype = dtype;
        let mut places = layout();
        places.turbo4_data_bytes = places.nvfp4_data_bytes;
        let mut gpu = MockGpuBackend::new();
        l.write_kv_cache(&mut gpu, &places, &cache_write(), 0).unwrap();
        let written = match ops(&gpu).last() {
            Some(Op::ReshapeAndCache { k_pool, v_pool, layout, .. }) => (*k_pool, *v_pool, *layout),
            other => panic!("{:?}", other),
        };
        let mut gpu = MockGpuBackend::new();
        let mut ids: Vec<u32> = Vec::new();
        let mut cursors: Vec<u32> = Vec::new();
        l.prefill_attention_paged_attn(&mut gpu, &places, &args(), &Vec::new(), &mut ids, &mut cursors, &context()).unwrap();
        match ops(&gpu)[0] {
            Op::PrefillPaged { k_pool, v_pool, layout, .. } => assert_eq!((k_pool, v_pool, layout), written),
            other => panic!("{:?}", other),
        }
    }
}

#[test]
fn refusal_after_the_swap_keeps_the_new_ids() {
    let mut ids: Vec<u32> = vec![40];
    let mut cursors: Vec<u32> = vec![1];
    let blocks = vec![51u32, 52];
    let mut a = args();
    a.swap = true;
    a.seq_len_start = 15;
    let mut gpu = MockGpuBackend::new();
    gpu.refuse_at = Some(1);
    let r = layer().prefill_attention_paged_attn(&mut gpu, &layout(), &a, &blocks, &mut ids, &mut cursors, &context());
    assert!(r.is_err());
    assert_eq!(ids, vec![51, 52]);
}

#[test]
fn phased_prefill_is_one_operation_per_phase() {
    let gdn = GdnPrefillBuffers { qkv: p(1), gates: p(2), z: p(3), output: p(4) };
    let ctx = context();
    let mut gpu = MockGpuBackend::new();
    let l = ssm_layer();
    let st = ssm_state(0x61);
    let (mut ids, mut cursors) = (Vec::new(), Vec::new());
    l.prefill_phase1(&mut gpu, p(0x10), p(0x20), 3, st, cache(), 7, &vec![2], &mut ids, &mut cursors, 8, &gdn, 9, &ctx, 0)
        .unwrap();
    l.prefill_gdn_full(&mut gpu, st, &gdn, &ctx, 0).unwrap();
    l.prefill_phase3(&mut gpu, p(0x10), p(0x20), 3, &gdn, 9, &ctx, 0).unwrap();
    let first = LayerWork::PrefillPhase1 {
        hidden: p(0x10),
        residual: p(0x20),
        num_tokens: 3,
        seq_len_start: 7,
        kv_write_start: 8,
        gdn,
        token_offset: 9,
    };
    assert!(matches!(&gpu.commands[0], Command::Layer { call, .. } if *call == ssm_call(st, first)));
    assert_eq!(
        ops(&gpu),
        vec![
            Op::SsmPrefillGdn { index: 5, state: LayerState::StateSpace(st), gdn, ctx },
            Op::SsmPrefillPhase3 {
                index: 5,
                hidden: p(0x10),
                residual: p(0x20),
                num_tokens: 3,
                gdn,
                token_offset: 9,
                ctx,
            },
        ]
    );
}

#[test]
fn several_sequences_decode_in_one_command() {
    let ctx = context();
    let tables = vec![vec![1u32, 2], vec![3]];
    let states = [LayerState::StateSpace(ssm_state(1)), LayerState::StateSpace(ssm_state(3))];
    let mut gpu = MockGpuBackend::new();
    ssm_layer().decode_multi_seq(&mut gpu, p(1), p(2), 2, &states, cache(), &[17, 5], &tables, &ctx, 0).unwrap();
    layer().decode_multi_seq(&mut gpu, p(1), p(2), 2, &states, cache(), &[17, 5], &tables, &ctx, 0).unwrap();
    let command = |kind: LayerKind, index: usize| Command::DecodeSequences {
        kind,
        index,
        num_seqs: 2,
        seq_lens: vec![17, 5],
        block_tables: tables.clone(),
    };
    assert_eq!(gpu.commands, vec![command(LayerKind::StateSpace, 5), command(LayerKind::Attention, 0)]);
    gpu.refuse_at = Some(2);
    assert!(layer().decode_multi_seq(&mut gpu, p(1), p(2), 0, &[], cache(), &[], &[], &ctx, 0).is_err());
}
