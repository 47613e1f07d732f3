use atlas_spark::config::{BufferArena, ForwardContext, ModelConfig, ModelType, ScoringFunc};
use atlas_spark::dspark_head::DeepseekV4DSparkProposerState;
use atlas_spark::gpu::{DenseWeight, DevicePtr, F32Bits, KernelHandle};
use atlas_spark::kv_cache::KvCacheDtype;
use atlas_spark::mock::{Command, MockGpuBackend};
use atlas_spark::mtp::{
    rollback_pair_key, rollback_plan, v4_mtp_kv_dtype, DeepseekV4MtpHead, DeepseekV4MtpModule,
    DeepseekV4MtpProposerState, HcHeadWeights, MtpFlags, MtpSettings, MTP_META_OFFSET,
};
use atlas_spark::mtp_forward::{argmax_grammar_masked, make_body_ctx, place_metadata, slot_of, MtpError};
use atlas_spark::mtp_propose::DrafterKv;
use atlas_spark::op::{
    AttnMetadataDev, Boundary, CacheId, Call, LayerCall, LayerKind, LayerState, LayerWork, Op, SsmLayerState,
};
use atlas_spark::speculative::ProposerState;

fn p(n: u64) -> DevicePtr {
    DevicePtr(n)
}

fn w(n: u64) -> DenseWeight {
    DenseWeight { weight: p(n) }
}

fn config() -> ModelConfig {
    ModelConfig {
        model_type: ModelType::DeepseekV4,
        hidden_size: 64,
        vocab_size: 100,
        num_hidden_layers: 2,
        num_attention_heads: 4,
        head_dim: 16,
        kv_lora_rank: 16,
        qk_rope_head_dim: 4,
        o_groups: 2,
        rms_norm_eps: F32Bits(1),
        hc_mult: 4,
        hc_eps: F32Bits(2),
        num_experts: 8,
        num_experts_per_tok: 2,
        moe_intermediate_size: 32,
        norm_topk_prob: true,
        routed_scaling_factor: F32Bits(3),
        scoring_func: ScoringFunc::Softmax,
        ep_world_size: 1,
        tp_world_size: 1,
        num_mtp_modules: 1,
        dspark_window_size: 8,
        dspark_block_size: 3,
        dspark_noise_token_id: 9,
        dspark_markov_rank: 4,
        linear_num_value_heads: 32,
        linear_value_head_dim: 128,
        linear_num_key_heads: 16,
        linear_key_head_dim: 128,
        linear_conv_kernel_dim: 4,
    }
}

fn arena() -> BufferArena {
    BufferArena {
        hidden_states: p(0x1_0000),
        residual: p(0x2_0000),
        norm_output: p(0x3_0000),
        norm_unit_w: p(0x4_0000),
        attn_output: p(0x5_0000),
        moe_output: p(0x6_0000),
        moe_router_in_f32: p(0x7_0000),
        expert_gate_out: p(0x8_0000),
        expert_up_out: p(0x9_0000),
        expert_down_out: p(0xa_0000),
        gate_logits: p(0xb_0000),
        logits: p(0xc_0000),
        hc_streams: p(0xd_0000),
        hc_post: p(0xe_0000),
        hc_comb: p(0xf_0000),
        o_latent: p(0x10_0000),
        splitk_workspace: p(0x11_0000),
        ssm_qkvz: p(0x12_0000),
        ssm_ba: p(0x13_0000),
        ssm_deinterleaved: p(0x14_0000),
        ssm_conv_out_f32: p(0x15_0000),
        token_ids: p(0x16_0000),
        scratch: p(0x20_0000),
        scratch_bytes: 0x10_0000,
        max_batch_tokens: 16,
    }
}

fn context() -> ForwardContext {
    ForwardContext {
        buffers: arena(),
        config: config(),
        attn_metadata: None,
        comm: false,
        graph_capture: false,
        profile: false,
        token_ids: None,
    }
}

fn settings() -> MtpSettings<'static> {
    MtpSettings {
        reset_kv: None,
        diag_passthrough: None,
        use_mhc: None,
        single_stream: None,
        gpu_combiner: None,
        hc_recover: None,
        no_hc_recover: None,
        skip_hc_head: None,
        hc_head_after_recover: None,
        catchup: None,
        k1_state: None,
        prompt_prefill: None,
        diag_dump: None,
    }
}

fn flags() -> MtpFlags {
    MtpFlags::from_settings(&settings())
}

fn module() -> DeepseekV4MtpModule {
    DeepseekV4MtpModule {
        enorm: w(0x901),
        hnorm: w(0x902),
        e_proj: w(0x903),
        h_proj: w(0x904),
        norm: w(0x905),
        hc_head: Some(HcHeadWeights { hc_fn: p(0x906), hc_scale: p(0x907), hc_base: p(0x908) }),
    }
}

fn head_with(max_seq_len: usize) -> DeepseekV4MtpHead {
    let mut gpu = MockGpuBackend::new();
    DeepseekV4MtpHead::new(module(), w(0x800_0000), w(0x802), &config(), &mut gpu, 0, max_seq_len, KvCacheDtype::Bf16)
        .unwrap()
}

fn new_state(head: &DeepseekV4MtpHead) -> DeepseekV4MtpProposerState {
    head.alloc_state_inner(&mut MockGpuBackend::new()).unwrap()
}

fn token_bytes(t: u32) -> Vec<u8> {
    t.to_le_bytes().to_vec()
}

fn ops(gpu: &MockGpuBackend) -> Vec<Op> {
    gpu.commands
        .iter()
        .filter_map(|c| match c {
            Command::Op { op, .. } => Some(*op),
            _ => None,
        })
        .collect()
}

fn other_state() -> ProposerState {
    ProposerState::V4DSpark(DeepseekV4DSparkProposerState {
        main_kv_pos: 1,
        last_num_drafted: 1,
        body_states: Vec::new(),
    })
}

#[test]
fn k1_rejection_keeps_target_conditioned_row() {
    assert_eq!(rollback_plan(1, 0, true), 0);
}

#[test]
fn recursive_rejections_roll_back_rows_and_pair_keys() {
    assert_eq!(rollback_plan(3, 1, true), 1);
    assert_eq!(rollback_plan(3, 0, false), 3);
    assert_eq!(rollback_pair_key(Some(17), 3), Some(14));
    assert_eq!(rollback_pair_key(Some(1), 3), Some(0));
}

#[test]
fn accepted_rows_are_never_trimmed() {
    assert_eq!(rollback_plan(2, 2, true), 0);
    assert_eq!(rollback_plan(2, 2, false), 0);
}

#[test]
fn nothing_is_trimmed_where_nothing_was_drafted() {
    assert_eq!(rollback_plan(0, 0, true), 0);
    assert_eq!(rollback_plan(0, 5, false), 0);
    assert_eq!(rollback_plan(usize::MAX, 1, true), usize::MAX - 2);
    assert_eq!(rollback_pair_key(None, 3), None);
}

#[test]
fn flags_come_from_exact_settings() {
    let f = flags();
    assert!(f.use_mhc);
    assert!(!f.single_stream && !f.reset_kv && !f.k1_state && !f.catchup && !f.prompt_prefill && !f.hc_recover);
    let mut s = settings();
    s.use_mhc = Some("0");
    s.hc_recover = Some("1");
    s.k1_state = Some("true");
    let f = MtpFlags::from_settings(&s);
    assert!(!f.use_mhc);
    assert!(f.single_stream, "one stream where the body takes one");
    assert!(f.hc_recover);
    assert!(!f.k1_state, "only 1 switches on");
    s.no_hc_recover = Some("1");
    assert!(!MtpFlags::from_settings(&s).hc_recover);
}

#[test]
fn cache_dtype_is_fp8_unless_bf16_is_asked_for() {
    let layers = [KvCacheDtype::Nvfp4, KvCacheDtype::Bf16];
    assert_eq!(v4_mtp_kv_dtype(Some("bf16"), &layers), KvCacheDtype::Bf16);
    assert_eq!(v4_mtp_kv_dtype(Some("bf16"), &[]), KvCacheDtype::Bf16);
    assert_eq!(v4_mtp_kv_dtype(None, &layers), KvCacheDtype::Fp8);
    assert_eq!(v4_mtp_kv_dtype(Some("BF16"), &layers), KvCacheDtype::Fp8);
    assert_eq!(v4_mtp_kv_dtype(None, &[]), KvCacheDtype::Fp8);
}

#[test]
fn head_sets_up_its_cache_and_kernels() {
    let mut gpu = MockGpuBackend::new();
    let head =
        DeepseekV4MtpHead::new(module(), w(1), w(2), &config(), &mut gpu, 50, 40, KvCacheDtype::Fp8).unwrap();
    assert_eq!(head.kv_cache.free, vec![2, 1, 0]);
    assert_eq!(head.kv_cache.config.block_size, 16);
    assert_eq!(head.kv_cache.config.num_kv_heads, 1);
    assert_eq!(head.kv_cache.config.head_dim, 20);
    assert_eq!(head.kv_cache.config.dtype, KvCacheDtype::Fp8);
    assert_eq!(head.parts.mtp_vocab_size, 50);
    assert!(matches!(
        gpu.commands[0],
        Command::Call { call: Call::KvPools { num_blocks: 3, .. }, .. }
    ));
    assert_eq!(
        gpu.commands[1],
        Command::Kernel { module: "rms_norm_vanilla".to_string(), func: "rms_norm_vanilla".to_string() }
    );
    assert_eq!(
        gpu.commands[11],
        Command::Kernel { module: "argmax".to_string(), func: "argmax_bf16".to_string() }
    );
    assert_eq!(gpu.command_count(), 12);
    let state = head.alloc_state_inner(&mut gpu).unwrap();
    assert_eq!(gpu.commands[12], Command::AllocState { kind: LayerKind::DraftBody, index: 0 });
    assert_eq!(state.body_state, gpu.layer_state);
    gpu.refuse_at = Some(13);
    assert!(head.alloc_state_inner(&mut gpu).is_err());
    assert!(state.block_table.is_empty());
    assert_eq!(state.seq_len, 0);
    assert_eq!(state.last_pair_key, None);
}

#[test]
fn head_is_not_made_where_a_kernel_is_missing() {
    let mut gpu = MockGpuBackend::new();
    gpu.refuse_at = Some(4);
    let r = DeepseekV4MtpHead::new(module(), w(1), w(2), &config(), &mut gpu, 50, 40, KvCacheDtype::Fp8);
    assert!(r.is_err());
    assert_eq!(gpu.command_count(), 5);
}

#[test]
fn metadata_goes_to_its_place_or_to_the_end() {
    assert_eq!(place_metadata(260, 0x10_0000), Some(MTP_META_OFFSET));
    assert_eq!(place_metadata(260, 49152 + 260), Some(MTP_META_OFFSET));
    assert_eq!(place_metadata(260, 49152 + 259), Some(49152 + 259 - 260));
    assert_eq!(place_metadata(260, 324), Some(64));
    assert_eq!(place_metadata(260, 323), None);
}

#[test]
fn slots_count_rows_within_blocks() {
    let table = vec![7u32, 3];
    assert_eq!(slot_of(&table, 0), 112);
    assert_eq!(slot_of(&table, 15), 127);
    assert_eq!(slot_of(&table, 16), 48);
}

#[test]
fn draft_step_writes_one_row() {
    let mut head = head_with(64);
    let mut state = new_state(&head);
    let mut gpu = MockGpuBackend::new();
    let mut f = flags();
    f.single_stream = true;
    gpu.reads = vec![token_bytes(42)];
    let r = head.forward_one(&mut gpu, 5, p(0x7_7000), 9, &mut state, &context(), &f, 2, None);
    assert_eq!(r, Ok(42));
    assert_eq!(state.seq_len, 1);
    assert_eq!(state.last_pair_key, Some(9));
    assert_eq!(state.block_table, vec![0]);
    assert_eq!(head.kv_cache.free.len(), 4);
    let all = ops(&gpu);
    assert_eq!(
        all[0],
        Op::CopyD2d { src: p(0x800_0000 + 5 * 128), dst: arena().attn_output, bytes: 128 },
        "the token's embedding row is copied first"
    );
    let body = gpu.commands.iter().find(|c| matches!(c, Command::Layer { .. })).unwrap();
    assert!(matches!(
        body,
        Command::Layer { call: LayerCall { kind: LayerKind::DraftBody, work: LayerWork::Decode { seq_len: 0, .. }, .. }, blocks, ids, cursors, .. }
            if *blocks == vec![0] && ids.is_empty() && *cursors == vec![0, 0, 0]
    ));
    assert!(matches!(all[all.len() - 1], Op::Synchronize | Op::ArgmaxBf16 { n: 100, .. }));
    // Position, slot, length and table of the row.
    let meta = gpu
        .commands
        .iter()
        .find_map(|c| match c {
            Command::H2dAsync { data, dst, .. } => Some((data.clone(), *dst)),
            _ => None,
        })
        .unwrap();
    assert_eq!(meta.1, p(0x20_0000 + 49152));
    assert_eq!(meta.0.len(), 260);
    assert_eq!(meta.0[0..4], 9u32.to_le_bytes());
    assert_eq!(meta.0[8..16], 0u64.to_le_bytes());
    assert_eq!(meta.0[16..20], 1u32.to_le_bytes());
    assert_eq!(meta.0[256..260], 0u32.to_le_bytes());
}

#[test]
fn draft_step_on_streams_reads_them_back() {
    let mut head = head_with(64);
    let mut state = new_state(&head);
    let mut gpu = MockGpuBackend::new();
    gpu.reads = vec![vec![0u8; 4 * 64 * 4]];
    let r = head.forward_one(&mut gpu, 5, p(0x7_7000), 9, &mut state, &context(), &flags(), 2, None);
    assert!(r.is_ok());
    let first = gpu.commands.iter().find(|c| matches!(c, Command::D2h { .. })).unwrap();
    assert_eq!(*first, Command::D2h { src: arena().hc_streams, len: 4 * 64 * 4 });
}

fn dumps(gpu: &MockGpuBackend) -> Vec<(Boundary, DevicePtr, u32, u32, bool)> {
    ops(gpu)
        .iter()
        .filter_map(|op| match *op {
            Op::Dump { at, src, rows, cols, fp32, .. } => Some((at, src, rows, cols, fp32)),
            _ => None,
        })
        .collect()
}

#[test]
fn first_drafts_are_dumped_where_it_is_asked() {
    let mut s = settings();
    s.diag_dump = Some("1");
    let mut f = MtpFlags::from_settings(&s);
    assert!(f.diag_dump);
    f.single_stream = true;
    let mut head = head_with(256);
    assert_eq!(head.dumps_asked, 0);
    let b = arena();
    for n in 1..=7usize {
        let mut state = new_state(&head);
        let mut gpu = MockGpuBackend::new();
        gpu.reads = vec![token_bytes(42)];
        head.forward_one(&mut gpu, 5, p(0x7_7000), 9, &mut state, &context(), &f, 2, None).unwrap();
        assert_eq!(head.dumps_asked, n);
        let found = dumps(&gpu);
        if n == 7 {
            assert!(found.is_empty(), "six drafts are dumped");
            continue;
        }
        assert_eq!(
            found,
            vec![
                (Boundary::DraftTarget, p(0x7_7000), 1, 64, false),
                (Boundary::DraftEmbed, b.attn_output, 1, 64, false),
                (Boundary::DraftEmbedBranch, b.hidden_states, 1, 64, false),
                (Boundary::DraftStreams, b.hc_streams, 4, 64, true),
                (Boundary::DraftBodyStreams, b.hc_streams, 4, 64, true),
                (Boundary::DraftBodyRow, b.hidden_states, 1, 64, false),
                (Boundary::DraftBodyResidual, b.residual, 1, 64, false),
                (Boundary::DraftCollapsed, b.hidden_states, 1, 64, false),
            ]
        );
    }
    f.diag_dump = false;
    let mut state = new_state(&head);
    let mut gpu = MockGpuBackend::new();
    head.forward_one(&mut gpu, 5, p(0x7_7000), 9, &mut state, &context(), &f, 2, None).unwrap();
    assert_eq!(head.dumps_asked, 7);
    assert!(dumps(&gpu).is_empty());
}

#[test]
fn refused_dump_ends_the_draft_step() {
    let mut head = head_with(64);
    let mut f = flags();
    f.single_stream = true;
    f.diag_dump = true;
    let mut gpu = MockGpuBackend::new();
    let mut state = new_state(&head);
    head.forward_one(&mut gpu, 5, p(1), 9, &mut state, &context(), &f, 2, None).unwrap();
    let at = gpu.commands.iter().position(|c| matches!(c, Command::Op { op: Op::Dump { .. }, .. })).unwrap();
    let mut gpu = MockGpuBackend::new();
    gpu.refuse_at = Some(at);
    let mut state = new_state(&head);
    let free = head.kv_cache.free.clone();
    let r = head.forward_one(&mut gpu, 5, p(1), 9, &mut state, &context(), &f, 2, None);
    assert!(matches!(r, Err(MtpError::Gpu(_))));
    assert_eq!(gpu.command_count(), at + 1);
    assert_eq!(state.seq_len, 0);
    assert!(state.block_table.is_empty(), "no block is taken");
    assert_eq!(head.kv_cache.free, free);
    assert_eq!(head.dumps_asked, 2);
}

#[test]
fn grammar_mask_limits_the_draft() {
    let mut head = head_with(64);
    let mut state = new_state(&head);
    let mut gpu = MockGpuBackend::new();
    let mut f = flags();
    f.single_stream = true;
    // Token 70 has the greatest logit, but the mask allows 33 and 34 only.
    let mut logits = vec![0u8; 200];
    logits[140..142].copy_from_slice(&0x4100u16.to_le_bytes());
    logits[68..70].copy_from_slice(&0x4000u16.to_le_bytes());
    gpu.reads = vec![logits];
    let mask = [0i32, 0b110, 0, 0];
    let r = head.forward_one(&mut gpu, 5, p(1), 9, &mut state, &context(), &f, 2, Some(&mask));
    assert_eq!(r, Ok(34));
}

#[test]
fn masked_argmax_reads_the_whole_row() {
    let mut gpu = MockGpuBackend::new();
    let mut logits = vec![0u8; 8];
    logits[4..6].copy_from_slice(&0x3f80u16.to_le_bytes());
    gpu.reads = vec![logits.clone(), logits];
    assert_eq!(argmax_grammar_masked(&mut gpu, p(0x10), 4, &[-1]), Ok(2));
    assert_eq!(argmax_grammar_masked(&mut gpu, p(0x10), 4, &[0b1011]), Ok(0));
    assert_eq!(gpu.commands[0], Command::D2h { src: p(0x10), len: 8 });
    gpu.refuse_at = Some(2);
    assert!(argmax_grammar_masked(&mut gpu, p(0x10), 4, &[-1]).is_err());
}

#[test]
fn passthrough_echoes_the_target() {
    let mut head = head_with(64);
    let mut state = new_state(&head);
    let mut gpu = MockGpuBackend::new();
    let mut f = flags();
    f.diag_passthrough = true;
    gpu.reads = vec![token_bytes(17)];
    let r = head.forward_one(&mut gpu, 5, p(0x7_7000), 9, &mut state, &context(), &f, 2, None);
    assert_eq!(r, Ok(17));
    assert_eq!(state.seq_len, 1);
    assert_eq!(state.last_pair_key, None, "no row is written");
    assert!(state.block_table.is_empty());
    assert!(matches!(ops(&gpu)[0], Op::RmsNorm { input: DevicePtr(0x7_7000), .. }));
}

#[test]
fn reset_forgets_the_rows_first() {
    let mut head = head_with(64);
    let mut state = new_state(&head);
    state.block_table = vec![head.kv_cache.free.pop().unwrap()];
    state.seq_len = 7;
    state.last_pair_key = Some(6);
    let mut gpu = MockGpuBackend::new();
    let mut f = flags();
    f.single_stream = true;
    f.reset_kv = true;
    head.forward_one(&mut gpu, 5, p(1), 9, &mut state, &context(), &f, 2, None).unwrap();
    assert_eq!(state.seq_len, 1);
    assert_eq!(state.last_pair_key, Some(9));
    assert_eq!(state.block_table, vec![0]);
}

#[test]
fn draft_errors_name_their_cause() {
    let mut f = flags();
    f.gpu_combiner = true;
    let mut ctx = context();
    ctx.config.hc_mult = 5;
    let mut head = head_with(64);
    let mut state = new_state(&head);
    let mut gpu = MockGpuBackend::new();
    let r = head.forward_one(&mut gpu, 5, p(1), 9, &mut state, &ctx, &f, 0, None);
    assert_eq!(r, Err(MtpError::TooManyStreams { hc_mult: 5 }));

    let mut f = flags();
    f.single_stream = true;
    let mut ctx = context();
    ctx.buffers.scratch_bytes = 300;
    let r = head.forward_one(&mut gpu, 5, p(1), 9, &mut state, &ctx, &f, 0, None);
    assert_eq!(r, Err(MtpError::MetadataExceedsScratch { meta_bytes: 260, scratch_bytes: 300 }));
    assert_eq!(state.seq_len, 0);

    head.kv_cache.free.clear();
    state.block_table.clear();
    let r = head.forward_one(&mut gpu, 5, p(1), 9, &mut state, &context(), &f, 0, None);
    assert_eq!(r, Err(MtpError::NoFreeBlock));

    let mut gpu = MockGpuBackend::new();
    gpu.refuse_at = Some(0);
    let r = head.forward_one(&mut gpu, 5, p(1), 9, &mut state, &context(), &f, 0, None);
    assert!(matches!(r, Err(MtpError::Gpu(_))));
}

#[test]
fn body_context_names_the_layer_and_the_metadata() {
    let meta = AttnMetadataDev {
        positions: p(1),
        positions_h: p(2),
        positions_w: p(3),
        slot: p(4),
        seq_len: p(5),
        block_table: p(6),
        max_blocks_per_seq: 7,
        num_seqs: 8,
        seq_slot: p(9),
    };
    let ctx = make_body_ctx(&context(), meta, Some(p(0x99)));
    assert_eq!(ctx.attn_metadata, Some(meta));
    assert_eq!(ctx.token_ids, Some(p(0x99)));
    assert_eq!(ctx.buffers, arena());
    assert!(!ctx.comm || !context().comm);
}

#[test]
fn proposal_feeds_each_draft_to_the_next_step() {
    let mut head = head_with(64);
    let mut state = ProposerState::V4Mtp(new_state(&head));
    let mut gpu = MockGpuBackend::new();
    let mut f = flags();
    f.single_stream = true;
    gpu.reads = vec![token_bytes(11), token_bytes(12), token_bytes(13)];
    let r = head.propose(&mut gpu, 5, p(0x7_7000), 20, 3, &mut state, &context(), &f, 0, None).unwrap();
    assert_eq!(r, vec![11, 12, 13]);
    let embeds: Vec<DevicePtr> = ops(&gpu)
        .iter()
        .filter_map(|op| match op {
            Op::CopyD2d { src, .. } if src.0 >= 0x800_0000 => Some(*src),
            _ => None,
        })
        .collect();
    assert_eq!(embeds, vec![p(0x800_0000 + 5 * 128), p(0x800_0000 + 11 * 128), p(0x800_0000 + 12 * 128)]);
    assert_eq!(head.drafter_rows(&state), 3);
    assert_eq!(head.last_pair_key(&state), Some(22));
    match &state {
        ProposerState::V4Mtp(s) => assert_eq!(s.last_num_drafted, 3),
        _ => unreachable!(),
    }
    assert_eq!(
        head.propose(&mut gpu, 5, p(1), 20, 1, &mut other_state(), &context(), &f, 0, None),
        Err(MtpError::InvalidState)
    );
}

#[test]
fn drafts_stay_in_the_cache_of_the_head() {
    let mut head = head_with(64);
    let own = head.kv_cache.id();
    let mut st = new_state(&head);
    let body = LayerState::StateSpace(SsmLayerState { h_state: p(8), conv_state: p(9) });
    st.body_state = body;
    let mut state = ProposerState::V4Mtp(st);
    let mut gpu = MockGpuBackend::new();
    let mut f = flags();
    f.single_stream = true;
    head.propose(&mut gpu, 5, p(0x7_7000), 20, 3, &mut state, &context(), &f, 0, None).unwrap();
    f.catchup = true;
    head.catchup_drafter(&mut gpu, &[1, 2, 3], p(0x100), 3, 30, &mut state, &context(), &f, 0).unwrap();
    let places: Vec<(CacheId, LayerState)> = gpu
        .commands
        .iter()
        .filter_map(|c| match c {
            Command::Layer { call, .. } => Some((call.cache, call.state)),
            _ => None,
        })
        .collect();
    assert_eq!(places, vec![(own, body); 5]);
    head.free_state(&mut state).unwrap();
    assert_eq!(head.kv_cache.id(), own);
    match &state {
        ProposerState::V4Mtp(s) => assert_eq!(s.body_state, body),
        _ => unreachable!(),
    }
}

#[test]
fn conditioned_first_row_pairs_one_position_earlier() {
    let mut head = head_with(64);
    let mut state = ProposerState::V4Mtp(new_state(&head));
    let mut gpu = MockGpuBackend::new();
    let mut f = flags();
    f.single_stream = true;
    f.k1_state = true;
    head.propose(&mut gpu, 5, p(1), 20, 1, &mut state, &context(), &f, 0, None).unwrap();
    assert_eq!(head.last_pair_key(&state), Some(19));
}

#[test]
fn verification_rolls_rejected_rows_back() {
    let head = head_with(64);
    let mut st = new_state(&head);
    st.seq_len = 10;
    st.last_num_drafted = 3;
    st.last_pair_key = Some(17);
    let mut state = ProposerState::V4Mtp(st);
    head.after_verify(1, &flags(), &mut state).unwrap();
    assert_eq!(head.drafter_rows(&state), 8);
    assert_eq!(head.last_pair_key(&state), Some(15));
    let mut f = flags();
    f.k1_state = true;
    head.after_verify(0, &f, &mut state).unwrap();
    assert_eq!(head.drafter_rows(&state), 6);
    assert_eq!(head.after_verify(0, &f, &mut other_state()), Err(MtpError::InvalidState));
}

#[test]
fn rows_come_back_as_they_were_taken() {
    let head = head_with(64);
    let mut st = new_state(&head);
    st.block_table = vec![4, 5];
    st.seq_len = 20;
    st.last_pair_key = Some(19);
    let mut state = ProposerState::V4Mtp(st);
    let kv = head.take_drafter_kv(&mut state).unwrap();
    assert_eq!(kv.blocks, vec![4, 5]);
    assert_eq!(kv.rows, 20);
    assert_eq!(kv.last_pair_key, Some(19));
    assert_eq!(head.drafter_rows(&state), 0);
    assert!(head.take_drafter_kv(&mut state).is_none());
    assert!(head.install_drafter_kv(&mut state, kv));
    assert_eq!(head.drafter_rows(&state), 20);
    assert_eq!(head.last_pair_key(&state), Some(19));
    let more = DrafterKv { blocks: vec![1], rows: 1, last_pair_key: None };
    assert!(!head.install_drafter_kv(&mut state, more));
    assert!(head.take_drafter_kv(&mut other_state()).is_none());
}

#[test]
fn freed_blocks_return_to_the_cache() {
    let mut head = head_with(64);
    let before = head.kv_cache.free.len();
    let mut st = new_state(&head);
    head.kv_cache.grow_table(&mut st.block_table, 2).unwrap();
    st.seq_len = 20;
    let mut state = ProposerState::V4Mtp(st);
    assert_eq!(head.kv_cache.free.len(), before - 2);
    head.free_state(&mut state).unwrap();
    assert_eq!(head.kv_cache.free.len(), before);
    assert_eq!(head.drafter_rows(&state), 0);
    assert_eq!(head.free_state(&mut other_state()), Err(MtpError::InvalidState));
    let taken = head.kv_cache.try_alloc_block().unwrap();
    head.free_drafter_kv(&[taken]);
    head.free_drafter_kv(&[]);
    assert_eq!(head.kv_cache.free.len(), before);
}

#[test]
fn catching_up_writes_one_row_per_pair() {
    let mut head = head_with(64);
    let mut state = ProposerState::V4Mtp(new_state(&head));
    let mut gpu = MockGpuBackend::new();
    let mut f = flags();
    f.single_stream = true;
    let tokens = [1u32, 2, 3];
    let off = head.catchup_drafter(&mut gpu, &tokens, p(0x9000), 0, 1, &mut state, &context(), &f, 0);
    assert_eq!(off, Ok(0), "switched off");
    f.catchup = true;
    assert_eq!(head.catchup_drafter(&mut gpu, &tokens, p(0x9000), 4, 1, &mut state, &context(), &f, 0), Ok(0));
    assert_eq!(gpu.command_count(), 0);
    assert_eq!(head.prefill_drafter(&mut gpu, &tokens, p(0x9000), &mut state, &context(), &f, 0), Ok(2));
    assert_eq!(head.drafter_rows(&state), 2);
    assert_eq!(head.last_pair_key(&state), Some(2));
}

fn row_flags() -> MtpFlags {
    let mut f = flags();
    f.prompt_prefill = true;
    f.k1_state = true;
    f
}

#[test]
fn prompt_rows_are_built_in_passes() {
    let mut head = head_with(64);
    let mut state = ProposerState::V4Mtp(new_state(&head));
    let mut gpu = MockGpuBackend::new();
    // 16 batch rows over 4 streams: passes of 4.
    let tokens: Vec<u32> = (0..10).collect();
    let r =
        head.prefill_v4_stream_rows(&mut gpu, &tokens, p(0x50_0000), 0, &mut state, &context(), &row_flags(), 0);
    assert_eq!(r, Ok(10));
    assert_eq!(head.drafter_rows(&state), 10);
    assert_eq!(head.last_pair_key(&state), Some(9));
    let passes: Vec<(DevicePtr, u32)> = ops(&gpu)
        .iter()
        .filter_map(|op| match op {
            Op::MtpHcF32ToBf16 { src, n, .. } => Some((*src, *n)),
            _ => None,
        })
        .collect();
    assert_eq!(
        passes,
        vec![
            (p(0x50_0000), 4 * 4 * 64),
            (p(0x50_0000 + 4 * 1024), 4 * 4 * 64),
            (p(0x50_0000 + 8 * 1024), 2 * 4 * 64),
        ]
    );
}

#[test]
fn prompt_rows_are_refused_with_a_reason() {
    let mut head = head_with(64);
    let mut gpu = MockGpuBackend::new();
    let mut st = new_state(&head);
    let tokens = [1u32, 2];
    let mut f = flags();
    let ctx = context();
    assert_eq!(head.prefill_stream_rows_inner(&mut gpu, &tokens, p(1), 0, &mut st, &ctx, &f, 0), Ok(0));
    f.prompt_prefill = true;
    assert_eq!(head.prefill_stream_rows_inner(&mut gpu, &[], p(1), 0, &mut st, &ctx, &f, 0), Ok(0));
    assert_eq!(
        head.prefill_stream_rows_inner(&mut gpu, &tokens, p(1), 0, &mut st, &ctx, &f, 0),
        Err(MtpError::PrefillNeedsK1State)
    );
    f.k1_state = true;
    f.use_mhc = false;
    assert_eq!(
        head.prefill_stream_rows_inner(&mut gpu, &tokens, p(1), 0, &mut st, &ctx, &f, 0),
        Err(MtpError::PrefillNeedsStreams)
    );
    f.use_mhc = true;
    assert_eq!(
        head.prefill_stream_rows_inner(&mut gpu, &tokens, p(1), 3, &mut st, &ctx, &f, 0),
        Err(MtpError::RowsNotContiguous { rows: 0, first_position: 3 })
    );
    let mut none = ctx;
    none.config.hc_mult = 0;
    assert_eq!(
        head.prefill_stream_rows_inner(&mut gpu, &tokens, p(1), 0, &mut st, &none, &f, 0),
        Err(MtpError::NoStreams)
    );
    let mut small = ctx;
    small.buffers.max_batch_tokens = 3;
    assert_eq!(
        head.prefill_stream_rows_inner(&mut gpu, &tokens, p(1), 0, &mut st, &small, &f, 0),
        Err(MtpError::ArenaTooSmall)
    );
    assert_eq!(gpu.command_count(), 0);
    assert_eq!(
        head.prefill_v4_stream_rows(&mut gpu, &tokens, p(1), 0, &mut other_state(), &ctx, &f, 0),
        Err(MtpError::InvalidState)
    );
}

#[test]
fn drafting_keeps_every_block_accounted_for() {
    let mut head = head_with(64);
    let mut state = ProposerState::V4Mtp(new_state(&head));
    let mut gpu = MockGpuBackend::new();
    let mut f = flags();
    f.single_stream = true;
    let mut before = head.kv_cache.free.clone();
    head.propose(&mut gpu, 5, p(1), 0, 20, &mut state, &context(), &f, 0, None).unwrap();
    let mut after = head.kv_cache.free.clone();
    match &state {
        ProposerState::V4Mtp(s) => {
            assert_eq!(s.block_table.len(), 2);
            after.extend(s.block_table.iter());
        }
        _ => unreachable!(),
    }
    before.sort();
    after.sort();
    assert_eq!(before, after);
    let unused = KernelHandle(0);
    assert_ne!(head.parts.argmax_k, unused);
}
